use portfolio::amount::SCALE;
use portfolio::holdings::{format_accounts, holding_rows, order_by_ownership};
use portfolio::instant::{Instant, NANOS_PER_DAY};
use portfolio::lot::Lot;
use portfolio::market::{Product, SharePrice};
use portfolio::ownership::{OwnerLevel, Ownership};
use portfolio::term::{term_reports, TermReport};

const NOW_SECS: i64 = 1_760_000_000;

fn now() -> Instant {
    Instant::from_unix(NOW_SECS, 0)
}

fn days_ago(days: i128) -> Instant {
    Instant { nanos: now().nanos - days * NANOS_PER_DAY }
}

fn units(n: i64) -> i64 {
    n * SCALE
}

fn lot(account: &str, time: Instant, product: &str, quantity: i64) -> Lot {
    Lot { account: account.to_string(), time, product: product.to_string(), quantity }
}

fn price() -> SharePrice {
    SharePrice { price: units(10), time: now() }
}

fn stock(symbol: &str, shares: usize) -> Product {
    Product::Stock {
        symbol: symbol.to_string(),
        name: format!("{} Inc.", symbol),
        outstanding_shares: shares,
        share_price: price(),
    }
}

fn fund(symbol: &str) -> Product {
    Product::Etf { symbol: symbol.to_string(), name: format!("{} Fund", symbol), share_price: price() }
}

#[test]
fn ownership_scenario_top_tier() {
    let o = Ownership::new(15 * SCALE as i128, 100);
    assert_eq!(o.level, OwnerLevel::S);
    assert_eq!(o.excess_shares, 14);
    assert_eq!(o.deficit_shares, 85);
    assert_eq!(o.to_text(), "S\u{29F8}14 \u{2192} 85");
}

#[test]
fn ownership_tier_bands() {
    let n: usize = 1_000_000_000;
    let scale = SCALE as i128;
    assert_eq!(OwnerLevel::new(10_000_000 * scale, n), OwnerLevel::S);
    assert_eq!(OwnerLevel::new(10_000_000 * scale - 1, n), OwnerLevel::A);
    assert_eq!(OwnerLevel::new(1_000_000 * scale, n), OwnerLevel::A);
    assert_eq!(OwnerLevel::new(100_000 * scale, n), OwnerLevel::B);
    assert_eq!(OwnerLevel::new(10_000 * scale, n), OwnerLevel::C);
    assert_eq!(OwnerLevel::new(1_000 * scale, n), OwnerLevel::D);
    assert_eq!(OwnerLevel::new(100 * scale, n), OwnerLevel::E);
    assert_eq!(OwnerLevel::new(10 * scale, n), OwnerLevel::F);
    assert_eq!(OwnerLevel::new(10 * scale - 1, n), OwnerLevel::G);
    assert_eq!(OwnerLevel::new(0, n), OwnerLevel::G);
}

#[test]
fn ownership_fraction_inside_band() {
    // one unit of a thousand: a fraction of 10^-3, the floor of tier A
    let o = Ownership::new(SCALE as i128, 1_000);
    assert_eq!(o.level, OwnerLevel::A);
    assert_eq!(OwnerLevel::A.floor(1_000), SCALE as i128);
    assert_eq!(OwnerLevel::A.ceiling(1_000), 10 * SCALE as i128);
    assert_eq!(o.excess_shares, 0);
    assert_eq!(o.deficit_shares, 9);
}

#[test]
fn ownership_fractional_units_round_outward() {
    // 2.5 units of 100: above the floor by 1.5 (rounded down), below the ceiling by 97.5 (rounded up)
    let o = Ownership::new(250_000_000, 100);
    assert_eq!(o.level, OwnerLevel::S);
    assert_eq!(o.excess_shares, 1);
    assert_eq!(o.deficit_shares, 98);
}

#[test]
fn ownership_counts_never_negative() {
    let short = Ownership::new(-5 * SCALE as i128, 100);
    assert_eq!(short.level, OwnerLevel::G);
    assert_eq!(short.excess_shares, 0);
    assert_eq!(short.deficit_shares, 6);
    let over = Ownership::new(150 * SCALE as i128, 100);
    assert_eq!(over.level, OwnerLevel::S);
    assert_eq!(over.deficit_shares, 0);
    assert_eq!(over.excess_shares, 149);
}

#[test]
fn level_labels() {
    assert_eq!(OwnerLevel::S.label(), "S");
    assert_eq!(OwnerLevel::G.label(), "G");
}

#[test]
fn term_buckets_and_exits() {
    let lots = vec![
        lot("A", days_ago(400), "X", units(10)),
        lot("A", days_ago(200), "X", units(3)),
        lot("A", days_ago(100), "X", units(4)),
        lot("B", days_ago(10), "X", units(5)),
        lot("B", days_ago(20), "X", -units(1)),
    ];
    let r = TermReport::new("X", &lots, now());
    assert_eq!(r.symbol, "X");
    assert_eq!(r.long_term, 10 * SCALE as i128);
    assert_eq!(r.short_term, 7 * SCALE as i128);
    assert_eq!(r.wash, 4 * SCALE as i128);
    // the latest exit of each bucket, not the earliest
    assert_eq!(r.short_exit, Some(days_ago(100 - 365)));
    assert_eq!(r.wash_exit, Some(days_ago(10 - 32)));
    assert_eq!(r.long_term + r.short_term + r.wash, 21 * SCALE as i128);
}

#[test]
fn term_year_boundary_is_short() {
    let lots = vec![lot("A", days_ago(365), "X", units(2))];
    let r = TermReport::new("X", &lots, now());
    assert_eq!(r.long_term, 0);
    assert_eq!(r.short_term, 2 * SCALE as i128);
    assert_eq!(r.short_exit, Some(now()));
    let older = vec![lot("A", Instant { nanos: days_ago(365).nanos - 1 }, "X", units(2))];
    assert_eq!(TermReport::new("X", &older, now()).long_term, 2 * SCALE as i128);
}

#[test]
fn term_wash_boundary_is_wash() {
    let lots = vec![lot("A", days_ago(32), "X", units(2))];
    let r = TermReport::new("X", &lots, now());
    assert_eq!(r.short_term, 0);
    assert_eq!(r.wash, 2 * SCALE as i128);
    assert_eq!(r.wash_exit, Some(now()));
    assert_eq!(r.short_exit, None);
}

#[test]
fn term_empty_lots() {
    let r = TermReport::new("X", &[], now());
    assert_eq!((r.long_term, r.short_term, r.wash), (0, 0, 0));
    assert_eq!((r.short_exit, r.wash_exit), (None, None));
}

#[test]
fn term_reports_skip_unlisted_groups() {
    let groups = vec![
        ("X".to_string(), vec![lot("A", days_ago(400), "X", units(1))]),
        ("Y".to_string(), vec![lot("A", days_ago(1), "Y", units(1))]),
        ("Z".to_string(), vec![lot("A", days_ago(100), "Z", units(2))]),
    ];
    let reports = term_reports(&groups, &vec![stock("Z", 10), stock("X", 10)], now());
    assert_eq!(reports.len(), 2);
    assert_eq!(reports[0].symbol, "X");
    assert_eq!(reports[0].long_term, SCALE as i128);
    assert_eq!(reports[1].symbol, "Z");
    assert_eq!(reports[1].short_term, 2 * SCALE as i128);
}

#[test]
fn holdings_scenario_two_accounts() {
    let lots = vec![
        lot("A", days_ago(400), "AAPL", units(10)),
        lot("B", days_ago(10), "AAPL", units(5)),
    ];
    let rows = holding_rows(&lots, &vec![stock("AAPL", 100)], now());
    assert_eq!(rows.len(), 1);
    let row = &rows[0];
    assert_eq!(row.symbol, "AAPL");
    assert_eq!(row.name, "AAPL Inc.");
    assert_eq!(row.quantity, 15);
    assert_eq!(row.total, 15 * SCALE as i128);
    assert_eq!(row.term.long_term, 10 * SCALE as i128);
    assert_eq!(row.term.wash, 5 * SCALE as i128);
    assert_eq!(row.term.short_term, 0);
    assert_eq!(row.ownership.unwrap().level, OwnerLevel::S);
    assert_eq!(row.accounts, "A + 1");
}

#[test]
fn holdings_fund_has_no_ownership() {
    let lots = vec![lot("A", days_ago(3), "VTI", units(1_000_000))];
    let rows = holding_rows(&lots, &vec![fund("VTI")], now());
    assert_eq!(rows.len(), 1);
    assert_eq!(rows[0].ownership, None);
    assert_eq!(rows[0].quantity, 1_000_000);
}

#[test]
fn holdings_zero_supply_has_no_ownership() {
    let lots = vec![lot("A", days_ago(3), "Z", units(1))];
    let rows = holding_rows(&lots, &vec![stock("Z", 0)], now());
    assert_eq!(rows[0].ownership, None);
}

#[test]
fn holdings_drop_unlisted_and_sort() {
    let lots = vec![
        lot("A", days_ago(3), "MSFT", units(1)),
        lot("A", days_ago(3), "GONE", units(7)),
        lot("A", days_ago(3), "AAPL", units(2)),
        lot("B", days_ago(3), "MSFT", units(1)),
    ];
    let products = vec![stock("MSFT", 1000), stock("AAPL", 1000), stock("IBM", 1000)];
    let rows = holding_rows(&lots, &products, now());
    let symbols: Vec<&str> = rows.iter().map(|r| r.symbol.as_str()).collect();
    assert_eq!(symbols, vec!["AAPL", "MSFT"]);
    assert_eq!(rows[1].total, 2 * SCALE as i128);
    assert!(holding_rows(&vec![], &products, now()).is_empty());
}

#[test]
fn holdings_quantity_rounds_down() {
    let lots = vec![lot("A", days_ago(3), "X", -150_000_000)];
    let rows = holding_rows(&lots, &vec![stock("X", 10)], now());
    assert_eq!(rows[0].quantity, -2);
    assert_eq!(rows[0].ownership.unwrap().level, OwnerLevel::G);
}

#[test]
fn accounts_label_largest_wins() {
    let lots = vec![
        lot("small", now(), "X", units(1)),
        lot("big", now(), "X", units(2)),
        lot("small", now(), "X", units(3)),
        lot("other", now(), "X", units(1)),
    ];
    assert_eq!(format_accounts(&lots), "small + 2");
    assert_eq!(format_accounts(&vec![lot("solo", now(), "X", units(1))]), "solo");
}

#[test]
fn accounts_label_ties_go_to_greatest_name() {
    let lots = vec![
        lot("alpha", now(), "X", units(2)),
        lot("beta", now(), "X", units(2)),
        lot("Zed", now(), "X", units(2)),
    ];
    assert_eq!(format_accounts(&lots), "beta + 2");
}

#[test]
fn accounts_label_counts_many_accounts() {
    let lots: Vec<Lot> = (0..12).map(|i| lot(&format!("acct{:02}", i), now(), "X", units(i + 1))).collect();
    assert_eq!(format_accounts(&lots), "acct11 + 11");
}

#[test]
fn display_order_puts_ownership_first() {
    let lots = vec![
        lot("A", days_ago(3), "AAA", units(1)),
        lot("A", days_ago(3), "BBB", units(1)),
        lot("A", days_ago(3), "CCC", units(1)),
        lot("A", days_ago(3), "DDD", units(1)),
    ];
    let products = vec![fund("AAA"), stock("BBB", 10), fund("CCC"), stock("DDD", 10)];
    let rows = order_by_ownership(holding_rows(&lots, &products, now()));
    let symbols: Vec<&str> = rows.iter().map(|r| r.symbol.as_str()).collect();
    assert_eq!(symbols, vec!["BBB", "DDD", "AAA", "CCC"]);
}
