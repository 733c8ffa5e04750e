use space_warior::highscore::{format_u32, high_score_from_file, parse_u32};

#[test]
fn parse_plain_decimal() {
    assert_eq!(parse_u32(&b"123".to_vec()), Some(123));
    assert_eq!(parse_u32(&b"0".to_vec()), Some(0));
    assert_eq!(parse_u32(&b"4294967295".to_vec()), Some(u32::MAX));
}

#[test]
fn parse_accepts_leading_plus() {
    assert_eq!(parse_u32(&b"+7".to_vec()), Some(7));
    assert_eq!(parse_u32(&b"+0".to_vec()), Some(0));
}

#[test]
fn parse_rejects_empty_and_bare_sign() {
    assert_eq!(parse_u32(&b"".to_vec()), None);
    assert_eq!(parse_u32(&b"+".to_vec()), None);
}

#[test]
fn parse_rejects_non_digits() {
    assert_eq!(parse_u32(&b"12a".to_vec()), None);
    assert_eq!(parse_u32(&b"-5".to_vec()), None);
    assert_eq!(parse_u32(&b"1 2".to_vec()), None);
    assert_eq!(parse_u32(&b"42\n".to_vec()), None);
}

#[test]
fn parse_rejects_out_of_range() {
    assert_eq!(parse_u32(&b"4294967296".to_vec()), None);
    assert_eq!(parse_u32(&b"99999999999999999999".to_vec()), None);
}

#[test]
fn parse_accepts_leading_zeros() {
    assert_eq!(parse_u32(&b"007".to_vec()), Some(7));
    assert_eq!(parse_u32(&b"0000000000001".to_vec()), Some(1));
}

#[test]
fn format_writes_decimal_digits() {
    assert_eq!(format_u32(0), b"0".to_vec());
    assert_eq!(format_u32(7), b"7".to_vec());
    assert_eq!(format_u32(12345), b"12345".to_vec());
    assert_eq!(format_u32(u32::MAX), b"4294967295".to_vec());
}

#[test]
fn format_then_parse_round_trips() {
    for n in [0u32, 1, 9, 10, 99, 100, 1000, 65535, 123456789, u32::MAX] {
        assert_eq!(parse_u32(&format_u32(n)), Some(n));
    }
}

#[test]
fn missing_file_counts_as_zero() {
    assert_eq!(high_score_from_file(None), 0);
}

#[test]
fn unparseable_file_counts_as_zero() {
    assert_eq!(high_score_from_file(Some(b"garbage".to_vec())), 0);
    assert_eq!(high_score_from_file(Some(b"".to_vec())), 0);
}

#[test]
fn stored_value_is_read_back() {
    assert_eq!(high_score_from_file(Some(b"42".to_vec())), 42);
}
