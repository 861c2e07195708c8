use portfolio::amount::{format_quantity, parse_count, parse_quantity};
use portfolio::bulma::BulmaColor;
use portfolio::instant::Instant;
use portfolio::lot::parse_lots;
use portfolio::table::parse_instant;
use portfolio::text::{text_equal, text_less};
use portfolio::users::{is_valid_username, mask_middle_chars, user_data_path};

#[test]
fn quantities_parse_exactly() {
    assert_eq!(parse_quantity("123.45"), Some(12_345_000_000));
    assert_eq!(parse_quantity("-0.00000001"), Some(-1));
    assert_eq!(parse_quantity("+7"), Some(700_000_000));
    assert_eq!(parse_quantity(" 5. "), Some(500_000_000));
    assert_eq!(parse_quantity(".5"), Some(50_000_000));
    assert_eq!(parse_quantity("92233720368.54775807"), Some(i64::MAX));
    assert_eq!(parse_quantity("-92233720368.54775808"), Some(i64::MIN));
    assert_eq!(parse_quantity("92233720368.54775808"), None);
    assert_eq!(parse_quantity("0.123456789"), None);
    assert_eq!(parse_quantity("."), None);
    assert_eq!(parse_quantity(""), None);
    assert_eq!(parse_quantity("1e5"), None);
    assert_eq!(parse_quantity("12a"), None);
}

#[test]
fn counts_parse_exactly() {
    assert_eq!(parse_count("120690000"), Some(120_690_000));
    assert_eq!(parse_count(" +42 "), Some(42));
    assert_eq!(parse_count("18446744073709551615"), Some(usize::MAX));
    assert_eq!(parse_count("18446744073709551616"), None);
    assert_eq!(parse_count("-1"), None);
    assert_eq!(parse_count(""), None);
}

#[test]
fn quantities_format() {
    assert_eq!(format_quantity(12_345_000_000), "123.45000000");
    assert_eq!(format_quantity(1_500_000_000), "15");
    assert_eq!(format_quantity(-1), "-0.00000001");
    assert_eq!(format_quantity(0), "0");
    assert_eq!(format_quantity(i64::MIN), "-92233720368.54775808");
}

#[test]
fn quantity_text_round_trips() {
    for q in [0, 1, -1, 99_999_999, 100_000_000, 12_345_678_901, i64::MAX, i64::MIN] {
        assert_eq!(parse_quantity(&format_quantity(q)), Some(q));
    }
}

#[test]
fn table_round_trips_numbers_and_timestamps() {
    let text = "account,time,product,quantity\n\
                a,2021-01-01T00:00:00Z,AAPL,100\n\
                b,2024-02-29T23:59:59.123456789Z,BTC,-0.00012345\n";
    let lots = parse_lots(text.as_bytes()).unwrap();
    let mut written = String::from("account,time,product,quantity\n");
    for l in &lots {
        let t = chrono::DateTime::from_timestamp(l.time.unix_seconds() as i64, l.time.subsec_nanos()).unwrap();
        written.push_str(&format!(
            "{},{},{},{}\n",
            l.account,
            t.to_rfc3339_opts(chrono::SecondsFormat::AutoSi, true),
            l.product,
            format_quantity(l.quantity)
        ));
    }
    let again = parse_lots(written.as_bytes()).unwrap();
    assert_eq!(again, lots);
    assert_eq!(lots[1].quantity, -12_345);
}

#[test]
fn instants_parse_through_chrono() {
    assert_eq!(parse_instant("1970-01-01T00:00:01Z"), Some(Instant::from_unix(1, 0)));
    assert_eq!(parse_instant(" 1969-12-31T23:59:59.5Z "), Some(Instant { nanos: -500_000_000 }));
    assert_eq!(parse_instant("2021-01-01 02:00:00+02:00"), Some(Instant::from_unix(1_609_459_200, 0)));
    assert_eq!(parse_instant("2016-12-31T23:59:60Z"), None);
    assert_eq!(parse_instant("not a time"), None);
    let t = Instant { nanos: -500_000_000 };
    assert_eq!((t.unix_seconds(), t.subsec_nanos()), (-1, 500_000_000));
}

#[test]
fn text_order_is_ordinal() {
    assert!(text_less("AAPL", "MSFT"));
    assert!(text_less("A", "AB"));
    assert!(!text_less("b", "B"));
    assert!(text_less("Z", "a"));
    assert!(!text_less("same", "same"));
    assert!(text_equal("same", "same"));
    assert!(!text_equal("same", "Same"));
}

#[test]
fn user_paths_and_names() {
    assert_eq!(user_data_path("alice"), "data/alice");
    assert!(is_valid_username("alice_01"));
    assert!(!is_valid_username("1alice"));
    assert!(!is_valid_username(""));
    assert!(!is_valid_username("al ice"));
    assert_eq!(mask_middle_chars("alice"), "a---e");
    assert_eq!(mask_middle_chars("ab"), "ab");
    assert_eq!(mask_middle_chars("äbc"), "ä-c");
}

#[test]
fn bulma_classes() {
    assert_eq!(BulmaColor::Link.class(), "is-link");
    assert_eq!(BulmaColor::Light.class(), "is-light");
}
