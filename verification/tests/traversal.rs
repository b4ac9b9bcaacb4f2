use txgraph::dedup::dedup_records;
use txgraph::explore::Explorer;
use txgraph::model::{AddressRecord, Receiver, Transaction};

fn receiver(addr: Option<&str>, value: i64) -> Receiver {
    Receiver { addr: addr.map(|a| a.to_string()), value }
}

fn tx(time: u64, out: Vec<Receiver>) -> Transaction {
    Transaction { out, time }
}

fn record(address: &str, txs: Vec<Transaction>) -> AddressRecord {
    AddressRecord { address: address.to_string(), txs, final_balance: 0 }
}

fn seed_record() -> AddressRecord {
    record("X", vec![tx(100, vec![receiver(Some("Y"), 500)])])
}

#[test]
fn depth_zero_reports_seed_only() {
    let mut ex = Explorer::new("X".to_string(), seed_record(), 0, 50);
    assert!(ex.begin_level().is_none());
    assert_eq!(ex.into_output(), "X");
}

#[test]
fn seed_with_recent_transaction() {
    let mut ex = Explorer::new("X".to_string(), seed_record(), 1, 50);
    let addrs = ex.begin_level().unwrap();
    assert_eq!(addrs, vec!["Y".to_string()]);
    ex.record_fetch(Some(record("Y", vec![])));
    ex.end_level();
    assert!(ex.begin_level().is_none());
    assert_eq!(ex.into_output(), "X\n1. level\nY, 500");
}

#[test]
fn cutoff_excludes_strictly() {
    let mut ex = Explorer::new("X".to_string(), seed_record(), 1, 150);
    let addrs = ex.begin_level().unwrap();
    assert!(addrs.is_empty());
    ex.end_level();
    assert_eq!(ex.into_output(), "X\n1. level");

    // A transaction exactly at the cutoff is excluded as well.
    let mut ex = Explorer::new("X".to_string(), seed_record(), 1, 100);
    let addrs = ex.begin_level().unwrap();
    assert!(addrs.is_empty());
    ex.end_level();
    assert_eq!(ex.into_output(), "X\n1. level");
}

#[test]
fn fragments_only_after_cutoff() {
    let seed = record(
        "S",
        vec![
            tx(200, vec![receiver(Some("A"), 1)]),
            tx(50, vec![receiver(Some("B"), 2)]),
            tx(150, vec![receiver(Some("C"), 3)]),
        ],
    );
    let mut ex = Explorer::new("S".to_string(), seed, 1, 100);
    let addrs = ex.begin_level().unwrap();
    assert_eq!(addrs, vec!["A".to_string(), "C".to_string()]);
    ex.end_level();
    assert_eq!(ex.into_output(), "S\n1. level\nA, 1\nC, 3");
}

#[test]
fn addressless_receiver_skipped() {
    let seed = record(
        "S",
        vec![tx(10, vec![receiver(None, 5), receiver(Some("Z"), 7), receiver(None, -1)])],
    );
    let mut ex = Explorer::new("S".to_string(), seed, 1, 0);
    let addrs = ex.begin_level().unwrap();
    assert_eq!(addrs, vec!["Z".to_string()]);
    ex.end_level();
    assert_eq!(ex.into_output(), "S\n1. level\nZ, 7");
}

#[test]
fn fetch_failure_drops_candidate() {
    let seed = record(
        "S",
        vec![tx(10, vec![receiver(Some("Y"), 1), receiver(Some("Z"), 2)])],
    );
    let mut ex = Explorer::new("S".to_string(), seed, 2, 0);
    let addrs = ex.begin_level().unwrap();
    assert_eq!(addrs, vec!["Y".to_string(), "Z".to_string()]);
    ex.record_fetch(None);
    ex.record_fetch(Some(record("Z", vec![tx(20, vec![receiver(Some("W"), 9)])])));
    ex.end_level();
    assert_eq!(ex.frontier_len(), 1);
    let addrs = ex.begin_level().unwrap();
    assert_eq!(addrs, vec!["W".to_string()]);
    ex.record_fetch(None);
    ex.end_level();
    assert_eq!(ex.into_output(), "S\n1. level\nY, 1\nZ, 2\n2. level\nW, 9");
}

#[test]
fn adjacent_duplicates_collapse() {
    let a = || record("A", vec![tx(1, vec![receiver(Some("P"), 4)])]);
    let b = || record("B", vec![]);
    let deduped = dedup_records(vec![a(), a(), b(), a()]);
    assert_eq!(deduped.len(), 3);
    assert!(deduped[0].same_as(&a()));
    assert!(deduped[1].same_as(&b()));
    assert!(deduped[2].same_as(&a()));
}

#[test]
fn adjacent_dedup_within_run() {
    let a = || record("A", vec![tx(30, vec![receiver(Some("P"), 4)])]);
    let b = || record("B", vec![tx(40, vec![receiver(Some("Q"), 6)])]);
    let seed = record(
        "S",
        vec![tx(10, vec![
            receiver(Some("A"), 1),
            receiver(Some("A"), 1),
            receiver(Some("B"), 2),
            receiver(Some("A"), 3),
        ])],
    );
    let mut ex = Explorer::new("S".to_string(), seed, 2, 0);
    let addrs = ex.begin_level().unwrap();
    assert_eq!(
        addrs,
        vec!["A".to_string(), "A".to_string(), "B".to_string(), "A".to_string()]
    );
    ex.record_fetch(Some(a()));
    ex.record_fetch(Some(a()));
    ex.record_fetch(Some(b()));
    ex.record_fetch(Some(a()));
    ex.end_level();
    // The non-adjacent repeat of A is retained and expanded again.
    assert_eq!(ex.frontier_len(), 3);
    let addrs = ex.begin_level().unwrap();
    assert_eq!(addrs, vec!["P".to_string(), "Q".to_string(), "P".to_string()]);
}

#[test]
fn empty_frontier_still_runs_all_levels() {
    let seed = record("X", vec![]);
    let mut ex = Explorer::new("X".to_string(), seed, 2, 0);
    let addrs = ex.begin_level().unwrap();
    assert!(addrs.is_empty());
    ex.end_level();
    assert_eq!(ex.frontier_len(), 0);
    let addrs = ex.begin_level().unwrap();
    assert!(addrs.is_empty());
    ex.end_level();
    assert!(ex.begin_level().is_none());
    assert_eq!(ex.into_output(), "X\n1. level\n2. level");
}

#[test]
fn two_levels_expand_fetched_record() {
    let seed = record("X", vec![tx(100, vec![receiver(Some("Y"), 1)])]);
    let y = record("Y", vec![tx(300, vec![receiver(Some("Z"), 9)])]);
    let mut ex = Explorer::new("X".to_string(), seed, 2, 0);
    let addrs = ex.begin_level().unwrap();
    assert_eq!(addrs, vec!["Y".to_string()]);
    ex.record_fetch(Some(y));
    ex.end_level();
    let addrs = ex.begin_level().unwrap();
    assert_eq!(addrs, vec!["Z".to_string()]);
    ex.record_fetch(None);
    ex.end_level();
    assert!(ex.begin_level().is_none());
    assert_eq!(ex.into_output(), "X\n1. level\nY, 1\n2. level\nZ, 9");
}

#[test]
fn records_compare_structurally() {
    let a = record("A", vec![tx(1, vec![receiver(Some("P"), 4)])]);
    let same = record("A", vec![tx(1, vec![receiver(Some("P"), 4)])]);
    let other_value = record("A", vec![tx(1, vec![receiver(Some("P"), 5)])]);
    let other_time = record("A", vec![tx(2, vec![receiver(Some("P"), 4)])]);
    let no_addr = record("A", vec![tx(1, vec![receiver(None, 4)])]);
    assert!(a.same_as(&same));
    assert!(!a.same_as(&other_value));
    assert!(!a.same_as(&other_time));
    assert!(!a.same_as(&no_addr));
}
