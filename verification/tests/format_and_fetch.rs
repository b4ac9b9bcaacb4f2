use txgraph::explore::Explorer;
use txgraph::fetch::{classify_status, parse_cutoff, status_ok, FetchError};
use txgraph::model::{AddressRecord, Receiver, Transaction};

fn one_receiver_seed(value: i64) -> AddressRecord {
    AddressRecord {
        address: "S".to_string(),
        txs: vec![Transaction {
            out: vec![Receiver { addr: Some("Y".to_string()), value }],
            time: 10,
        }],
        final_balance: 0,
    }
}

fn report_for_value(value: i64) -> String {
    let mut ex = Explorer::new("S".to_string(), one_receiver_seed(value), 1, 0);
    let addrs = ex.begin_level().unwrap();
    assert_eq!(addrs, vec!["Y".to_string()]);
    ex.record_fetch(None);
    ex.end_level();
    ex.into_output()
}

#[test]
fn negative_value_fragment() {
    assert_eq!(report_for_value(-500), "S\n1. level\nY, -500");
}

#[test]
fn zero_value_fragment() {
    assert_eq!(report_for_value(0), "S\n1. level\nY, 0");
}

#[test]
fn extreme_value_fragments() {
    assert_eq!(
        report_for_value(i64::MAX),
        "S\n1. level\nY, 9223372036854775807"
    );
    assert_eq!(
        report_for_value(i64::MIN),
        "S\n1. level\nY, -9223372036854775808"
    );
}

#[test]
fn level_marker_counts_from_one() {
    let seed = AddressRecord { address: "S".to_string(), txs: vec![], final_balance: 0 };
    let mut ex = Explorer::new("S".to_string(), seed, 12, 0);
    for _ in 0..12 {
        assert!(ex.begin_level().unwrap().is_empty());
        ex.end_level();
    }
    assert!(ex.begin_level().is_none());
    assert_eq!(
        ex.into_output(),
        "S\n1. level\n2. level\n3. level\n4. level\n5. level\n6. level\n7. level\n\
         8. level\n9. level\n10. level\n11. level\n12. level"
    );
}

#[test]
fn status_success_range() {
    assert!(!status_ok(199));
    assert!(status_ok(200));
    assert!(status_ok(250));
    assert!(status_ok(299));
    assert!(!status_ok(300));
    assert!(!status_ok(404));
}

#[test]
fn classify_status_carries_code() {
    assert!(matches!(classify_status(200), Ok(())));
    assert!(matches!(classify_status(299), Ok(())));
    assert!(matches!(classify_status(199), Err(FetchError::Status(199))));
    assert!(matches!(classify_status(500), Err(FetchError::Status(500))));
}

#[test]
fn parse_cutoff_epoch() {
    assert_eq!(parse_cutoff("1970-01-01 00:00:00"), Some(0));
}

#[test]
fn parse_cutoff_values() {
    assert_eq!(parse_cutoff("1970-01-01 00:01:40"), Some(100));
    assert_eq!(parse_cutoff("2001-09-09 01:46:40"), Some(1_000_000_000));
}

#[test]
fn parse_cutoff_malformed() {
    assert_eq!(parse_cutoff("not a time"), None);
    assert_eq!(parse_cutoff("1970-13-01 00:00:00"), None);
    assert_eq!(parse_cutoff(""), None);
    assert_eq!(parse_cutoff("1970-01-01"), None);
}
