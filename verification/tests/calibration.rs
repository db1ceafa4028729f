use dyss::calibration::lookup;
use dyss::text::{parse_micros, parse_u64, split_commas};

fn table(rows: &[&str]) -> Vec<Vec<u8>> {
    rows.iter().map(|r| r.as_bytes().to_vec()).collect()
}

#[test]
fn parameter_parse() {
    let lines = table(&[
        "refsize,power,packs,scouts,threshold,specificity",
        "100,20,1,10,21.7,0.95",
    ]);
    let (threshold, _specificity) = lookup(&lines, 100_000, 20, 1, 10).unwrap();
    assert!(threshold > 21_600_000);
}

#[test]
fn lookup_returns_exact_values() {
    let lines = table(&[
        "refsize,power,packs,scouts,threshold,specificity",
        "100,20,1,10,21.7,0.95",
    ]);
    assert_eq!(lookup(&lines, 100_000, 20, 1, 10), Some((21_700_000, 950_000)));
    assert_eq!(lookup(&lines, 100_000, 20, 1, 11), None);
}

#[test]
fn lookup_is_pure() {
    let lines = table(&[
        "refsize,power,packs,scouts,threshold,specificity",
        "100,20,1,10,21.7,0.95",
        "200,40,2,20,30.25,0.9",
    ]);
    let first = lookup(&lines, 200_000, 40, 2, 20);
    let second = lookup(&lines, 200_000, 40, 2, 20);
    assert_eq!(first, second);
    assert_eq!(first, Some((30_250_000, 900_000)));
}

#[test]
fn lookup_requires_exact_key() {
    let lines = table(&[
        "refsize,power,packs,scouts,threshold,specificity",
        "100,20,1,10,21.7,0.95",
    ]);
    assert_eq!(lookup(&lines, 100_001, 20, 1, 10), None);
    assert_eq!(lookup(&lines, 99_999, 20, 1, 10), None);
    assert_eq!(lookup(&lines, 100_000, 21, 1, 10), None);
    assert_eq!(lookup(&lines, 100_000, 20, 2, 10), None);
    assert_eq!(lookup(&lines, 100_000, 20, 1, 9), None);
}

#[test]
fn malformed_row_does_not_hide_later_match() {
    let lines = table(&[
        "refsize,power,packs,scouts,threshold,specificity",
        "abc,20,1,10,9.9,0.5",
        "100,20,1,10",
        "100,20,1,10,21.7,0.95",
    ]);
    assert_eq!(lookup(&lines, 100_000, 20, 1, 10), Some((21_700_000, 950_000)));
}

#[test]
fn first_matching_row_wins() {
    let lines = table(&[
        "refsize,power,packs,scouts,threshold,specificity",
        "100,20,1,10,21.7,0.95",
        "100,20,1,10,99.9,0.1",
    ]);
    assert_eq!(lookup(&lines, 100_000, 20, 1, 10), Some((21_700_000, 950_000)));
}

#[test]
fn header_line_is_never_matched() {
    let lines = table(&["100,20,1,10,21.7,0.95"]);
    assert_eq!(lookup(&lines, 100_000, 20, 1, 10), None);
}

#[test]
fn lookup_on_empty_table() {
    let lines = table(&[]);
    assert_eq!(lookup(&lines, 100_000, 20, 1, 10), None);
}

#[test]
fn parse_u64_accepts_plain_and_signed_digits() {
    assert_eq!(parse_u64(&b"100".to_vec()), Some(100));
    assert_eq!(parse_u64(&b"+7".to_vec()), Some(7));
    assert_eq!(parse_u64(&b"0".to_vec()), Some(0));
    assert_eq!(parse_u64(&b"18446744073709551615".to_vec()), Some(u64::MAX));
}

#[test]
fn parse_u64_rejects_malformed_fields() {
    assert_eq!(parse_u64(&b"".to_vec()), None);
    assert_eq!(parse_u64(&b"+".to_vec()), None);
    assert_eq!(parse_u64(&b"-1".to_vec()), None);
    assert_eq!(parse_u64(&b"1 0".to_vec()), None);
    assert_eq!(parse_u64(&b"12a".to_vec()), None);
    assert_eq!(parse_u64(&b"18446744073709551616".to_vec()), None);
}

#[test]
fn parse_micros_reads_plain_decimals() {
    assert_eq!(parse_micros(&b"21.7".to_vec()), Some(21_700_000));
    assert_eq!(parse_micros(&b"0.95".to_vec()), Some(950_000));
    assert_eq!(parse_micros(&b"-0.5".to_vec()), Some(-500_000));
    assert_eq!(parse_micros(&b"+3".to_vec()), Some(3_000_000));
    assert_eq!(parse_micros(&b"5.".to_vec()), Some(5_000_000));
    assert_eq!(parse_micros(&b".5".to_vec()), Some(500_000));
    assert_eq!(parse_micros(&b"0.000001".to_vec()), Some(1));
}

#[test]
fn parse_micros_rejects_malformed_fields() {
    assert_eq!(parse_micros(&b"".to_vec()), None);
    assert_eq!(parse_micros(&b".".to_vec()), None);
    assert_eq!(parse_micros(&b"-".to_vec()), None);
    assert_eq!(parse_micros(&b"1.2.3".to_vec()), None);
    assert_eq!(parse_micros(&b"1e5".to_vec()), None);
    assert_eq!(parse_micros(&b" 21.7".to_vec()), None);
    assert_eq!(parse_micros(&b"21.7\r".to_vec()), None);
    assert_eq!(parse_micros(&b"1.2345678".to_vec()), None);
}

#[test]
fn split_commas_keeps_every_field() {
    let fields = split_commas(&b"a,bc,,d".to_vec());
    let fields: Vec<&[u8]> = fields.iter().map(|f| f.as_slice()).collect();
    assert_eq!(fields, vec![b"a" as &[u8], b"bc", b"", b"d"]);
    assert_eq!(split_commas(&b"".to_vec()).len(), 1);
}
