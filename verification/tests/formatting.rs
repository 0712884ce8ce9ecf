use udp_csv::format::format_values;

#[test]
fn joins_with_commas_no_trailing_delimiter() {
    assert_eq!(format_values(&vec![1, 2]), b"1,2".to_vec());
    assert_eq!(format_values(&vec![10, 20, 30]), b"10,20,30".to_vec());
}

#[test]
fn single_value_has_no_comma() {
    assert_eq!(format_values(&vec![7]), b"7".to_vec());
}

#[test]
fn empty_sequence_renders_nothing() {
    assert_eq!(format_values(&vec![]), Vec::<u8>::new());
}

#[test]
fn negative_zero_and_wide_values() {
    assert_eq!(format_values(&vec![-5, 0, 12345]), b"-5,0,12345".to_vec());
    assert_eq!(format_values(&vec![-32768, 65535]), b"-32768,65535".to_vec());
}

#[test]
fn formatter_is_deterministic() {
    let vals = vec![-1, 7, 300, 0];
    let first = format_values(&vals);
    let second = format_values(&vals);
    assert_eq!(first, second);
}
