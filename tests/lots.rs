use portfolio::instant::Instant;
use portfolio::lot::{parse_lots, Lot, LotColumn, LotReadError};

#[test]
fn test_parse_lots() {
    let csv_data = "account,time,product,quantity\nfoo,2021-01-01T00:00:00Z,AAPL,100".as_bytes();

    let lots = parse_lots(csv_data).unwrap();
    assert_eq!(lots.len(), 1);
}

#[test]
fn lots_fields_are_decoded() {
    let data = b"product,quantity,account,time\nBTC,-0.5,cold,2024-03-01T12:00:00.25+01:00";
    let lots = parse_lots(data).unwrap();
    assert_eq!(
        lots,
        vec![Lot {
            account: "cold".to_string(),
            time: Instant::from_unix(1_709_290_800, 250_000_000),
            product: "BTC".to_string(),
            quantity: -50_000_000,
        }]
    );
}

#[test]
fn lots_numeric_fields_are_trimmed() {
    let data = b"account,time,product,quantity\nfoo, 2021-01-01T00:00:00Z ,AAPL, 1.5 ";
    let lots = parse_lots(data).unwrap();
    assert_eq!(lots[0].quantity, 150_000_000);
    assert_eq!(lots[0].time, Instant::from_unix(1_609_459_200, 0));
}

#[test]
fn lots_bad_quantity() {
    let data = b"account,time,product,quantity\nfoo,2021-01-01T00:00:00Z,AAPL,10\nfoo,2021-01-01T00:00:00Z,AAPL,ten";
    assert_eq!(
        parse_lots(data),
        Err(LotReadError::InvalidField { row: 1, column: LotColumn::Quantity })
    );
}

#[test]
fn lots_bad_time() {
    let data = b"account,time,product,quantity\nfoo,2021-13-01T00:00:00Z,AAPL,10";
    assert_eq!(
        parse_lots(data),
        Err(LotReadError::InvalidField { row: 0, column: LotColumn::Time })
    );
}

#[test]
fn lots_missing_column() {
    let data = b"account,time,quantity\nfoo,2021-01-01T00:00:00Z,10";
    assert_eq!(parse_lots(data), Err(LotReadError::MissingColumn(LotColumn::Product)));
}

#[test]
fn lots_malformed_csv() {
    let data = b"account,time,product,quantity\nfoo,2021-01-01T00:00:00Z,AAPL,10,extra";
    assert_eq!(parse_lots(data), Err(LotReadError::CsvReadError));
}

#[test]
fn lots_empty_table() {
    assert_eq!(parse_lots(b"account,time,product,quantity\n"), Ok(vec![]));
}

#[test]
fn lot_column_names() {
    assert_eq!(LotColumn::Account.name(), "account");
    assert_eq!(LotColumn::Quantity.name(), "quantity");
}
