use regtest_ledger::record::{parse_record, split_lines, ReconciledRecord};

fn sample() -> ReconciledRecord {
    ReconciledRecord {
        txid: "4f1c2d3e4f5a6b7c8d9e0f1a2b3c4d5e6f7a8b9c0d1e2f3a4b5c6d7e8f9a0b1c".to_string(),
        input_address: "bcrt1qminer".to_string(),
        input_amount: 5_000_000_000,
        payment_address: "bcrt1qtrader".to_string(),
        payment_amount: 2_000_000_000,
        change_address: "bcrt1qchange".to_string(),
        change_amount: 2_999_985_900,
        fee: 14_100,
        block_height: 102,
        block_hash: "0f9188f13cb7b2c71f2a335e3a4fc328bf5beb436012afca590b1a11466e2206".to_string(),
    }
}

const SAMPLE_TEXT: &str = "4f1c2d3e4f5a6b7c8d9e0f1a2b3c4d5e6f7a8b9c0d1e2f3a4b5c6d7e8f9a0b1c\n\
bcrt1qminer\n\
50.00000000\n\
bcrt1qtrader\n\
20.00000000\n\
bcrt1qchange\n\
29.99985900\n\
-0.00014100\n\
102\n\
0f9188f13cb7b2c71f2a335e3a4fc328bf5beb436012afca590b1a11466e2206\n";

fn same(a: &ReconciledRecord, b: &ReconciledRecord) -> bool {
    a.txid == b.txid
        && a.input_address == b.input_address
        && a.input_amount == b.input_amount
        && a.payment_address == b.payment_address
        && a.payment_amount == b.payment_amount
        && a.change_address == b.change_address
        && a.change_amount == b.change_amount
        && a.fee == b.fee
        && a.block_height == b.block_height
        && a.block_hash == b.block_hash
}

#[test]
fn record_text_has_ten_fixed_lines() {
    let text = sample().to_text();
    assert_eq!(text, SAMPLE_TEXT);
    assert_eq!(text.lines().count(), 10);
}

#[test]
fn fee_line_is_negated() {
    let text = sample().to_text();
    assert_eq!(text.lines().nth(7), Some("-0.00014100"));
    let mut zero = sample();
    zero.fee = 0;
    assert_eq!(zero.to_text().lines().nth(7), Some("0.00000000"));
}

#[test]
fn record_round_trips_through_text() {
    let rec = sample();
    let back = parse_record(&rec.to_text()).unwrap();
    assert!(same(&rec, &back));
    let mut other = sample();
    other.fee = 0;
    other.change_address = String::new();
    other.change_amount = 0;
    other.block_height = 0;
    let back2 = parse_record(&other.to_text()).unwrap();
    assert!(same(&other, &back2));
}

#[test]
fn parses_the_sample_text() {
    let rec = parse_record(SAMPLE_TEXT).unwrap();
    assert!(same(&rec, &sample()));
}

#[test]
fn rejects_malformed_record_text() {
    assert!(parse_record("").is_none());
    assert!(parse_record(SAMPLE_TEXT.trim_end()).is_none());
    assert!(parse_record(&SAMPLE_TEXT.replace("102\n", "0102\n")).is_none());
    assert!(parse_record(&SAMPLE_TEXT.replace("-0.00014100", "0.00014100")).is_none());
    assert!(parse_record(&SAMPLE_TEXT.replace("50.00000000", "50.0")).is_none());
    assert!(parse_record(&format!("{}extra\n", SAMPLE_TEXT)).is_none());
    assert!(parse_record(&SAMPLE_TEXT.replacen("bcrt1qminer\n", "", 1)).is_none());
}

#[test]
fn splits_terminated_lines() {
    assert_eq!(split_lines("a\n\nbc\n"), Some(vec!["a".to_string(), String::new(), "bc".to_string()]));
    assert_eq!(split_lines(""), Some(vec![]));
    assert_eq!(split_lines("a\nb"), None);
}
