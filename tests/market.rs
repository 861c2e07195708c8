use chrono::TimeZone;
use portfolio::instant::Instant;
use portfolio::market::{parse_products, Product, ProductColumn, ProductReadError, SharePrice};

fn at(t: chrono::DateTime<chrono::Utc>) -> Instant {
    Instant::from_unix(t.timestamp(), t.timestamp_subsec_nanos())
}

#[test]
fn test_parse_products() {
    let csv_data = r#"
        type,symbol,name,outstanding_shares,share_price,share_price_as_of
        stock,AAPL,Apple Inc.,100,123.45,2021-01-01T00:00:00Z
        etf,CMF,iShares California Muni Bond ETF,,57.85,2026-01-30T16:26:31Z
        coin,ETH,Ethereum,120690000,2722.99,2026-01-30T04:51:00Z
        "#
    .trim()
    .as_bytes();
    let vec = parse_products(csv_data).unwrap();
    assert_eq!(
        vec,
        vec![
            Product::Stock {
                symbol: "AAPL".to_string(),
                name: "Apple Inc.".to_string(),
                outstanding_shares: 100,
                share_price: SharePrice {
                    price: 12_345_000_000,
                    time: at(chrono::Utc.with_ymd_and_hms(2021, 1, 1, 0, 0, 0).unwrap()),
                },
            },
            Product::Etf {
                symbol: "CMF".to_string(),
                name: "iShares California Muni Bond ETF".to_string(),
                share_price: SharePrice {
                    price: 5_785_000_000,
                    time: at(chrono::Utc.with_ymd_and_hms(2026, 1, 30, 16, 26, 31).unwrap()),
                },
            },
            Product::Coin {
                symbol: "ETH".to_string(),
                name: "Ethereum".to_string(),
                total_supply: 120690000,
                share_price: SharePrice {
                    price: 272_299_000_000,
                    time: at(chrono::Utc.with_ymd_and_hms(2026, 1, 30, 4, 51, 0).unwrap()),
                },
            }
        ]
    );
}

#[test]
fn products_accept_fund_as_kind() {
    let data = b"type,symbol,name,share_price,share_price_as_of\nfund,VTI,Total Market,250,2024-05-01T00:00:00Z";
    let products = parse_products(data).unwrap();
    assert_eq!(products.len(), 1);
    assert_eq!(products[0].supply(), None);
    assert_eq!(products[0].symbol(), "VTI");
    assert_eq!(products[0].name(), "Total Market");
    assert_eq!(products[0].share_price().price, 25_000_000_000);
}

#[test]
fn products_reject_unknown_kind() {
    let data = b"type,symbol,name,outstanding_shares,share_price,share_price_as_of\nstock,A,A Co,10,1,2024-05-01T00:00:00Z\nbond,B,B Co,10,1,2024-05-01T00:00:00Z";
    assert_eq!(
        parse_products(data),
        Err(ProductReadError::InvalidField { row: 1, column: ProductColumn::Type })
    );
}

#[test]
fn products_kind_is_case_sensitive() {
    let data = b"type,symbol,name,outstanding_shares,share_price,share_price_as_of\nStock,A,A Co,10,1,2024-05-01T00:00:00Z";
    assert_eq!(
        parse_products(data),
        Err(ProductReadError::InvalidField { row: 0, column: ProductColumn::Type })
    );
}

#[test]
fn products_stock_needs_supply() {
    let data = b"type,symbol,name,outstanding_shares,share_price,share_price_as_of\nstock,A,A Co,,1,2024-05-01T00:00:00Z";
    assert_eq!(
        parse_products(data),
        Err(ProductReadError::InvalidField { row: 0, column: ProductColumn::OutstandingShares })
    );
}

#[test]
fn products_coin_without_supply_column() {
    let data = b"type,symbol,name,share_price,share_price_as_of\ncoin,BTC,Bitcoin,1,2024-05-01T00:00:00Z";
    assert_eq!(
        parse_products(data),
        Err(ProductReadError::InvalidField { row: 0, column: ProductColumn::OutstandingShares })
    );
}

#[test]
fn products_bad_price_and_time() {
    let bad_price = b"type,symbol,name,outstanding_shares,share_price,share_price_as_of\nstock,A,A Co,10,1.2.3,2024-05-01T00:00:00Z";
    assert_eq!(
        parse_products(bad_price),
        Err(ProductReadError::InvalidField { row: 0, column: ProductColumn::SharePrice })
    );
    let bad_time = b"type,symbol,name,outstanding_shares,share_price,share_price_as_of\nstock,A,A Co,10,1.5,yesterday";
    assert_eq!(
        parse_products(bad_time),
        Err(ProductReadError::InvalidField { row: 0, column: ProductColumn::SharePriceAsOf })
    );
}

#[test]
fn products_missing_column() {
    let data = b"type,symbol,outstanding_shares,share_price,share_price_as_of\nstock,A,10,1,2024-05-01T00:00:00Z";
    assert_eq!(
        parse_products(data),
        Err(ProductReadError::MissingColumn(ProductColumn::Name))
    );
}

#[test]
fn products_malformed_csv() {
    let data = b"type,symbol,name,outstanding_shares,share_price,share_price_as_of\nstock,A,A Co";
    assert_eq!(parse_products(data), Err(ProductReadError::CsvReadError));
}

#[test]
fn products_empty_input() {
    assert_eq!(parse_products(b""), Ok(vec![]));
}

#[test]
fn product_column_names() {
    assert_eq!(ProductColumn::OutstandingShares.name(), "outstanding_shares");
    assert_eq!(ProductColumn::SharePriceAsOf.name(), "share_price_as_of");
}
