use mesabox::number::{parse_count, parse_num, NumError};

#[test]
fn plain_and_negative_counts() {
    assert_eq!(parse_num("10"), Ok((10, true)));
    assert_eq!(parse_num("-3"), Ok((3, false)));
    assert_eq!(parse_num("0"), Ok((0, true)));
    assert_eq!(parse_num("007"), Ok((7, true)));
}

#[test]
fn suffixes() {
    assert_eq!(parse_num("1k"), Ok((1024, true)));
    assert_eq!(parse_num("1K"), Ok((1000, true)));
    assert_eq!(parse_num("1kB"), Ok((1000, true)));
    assert_eq!(parse_num("2KB"), Ok((2000, true)));
    assert_eq!(parse_num("2m"), Ok((2 * 1024 * 1024, true)));
    assert_eq!(parse_num("3M"), Ok((3_000_000, true)));
    assert_eq!(parse_num("2b"), Ok((1024, true)));
    assert_eq!(parse_num("-1g"), Ok((1 << 30, false)));
    assert_eq!(parse_num("1E"), Ok((1_000_000_000_000_000_000, true)));
}

#[test]
fn white_space_around_is_ignored() {
    assert_eq!(parse_num(" 7 "), Ok((7, true)));
    assert_eq!(parse_num("\t-4\n"), Ok((4, false)));
    assert_eq!(parse_count(" 7 "), Err(NumError::InvalidNumber));
}

#[test]
fn invalid_numbers() {
    for s in ["", "-", "k", "1x", "1kb", "1bB", "--5", "+5", "1 k", "1KBB", "1.5"] {
        assert_eq!(parse_num(s), Err(NumError::InvalidNumber), "{:?}", s);
    }
}

#[test]
fn overflowing_numbers() {
    assert_eq!(parse_num("99999999999999999999999"), Err(NumError::NumericOverflow));
    assert_eq!(parse_num("1Y"), Err(NumError::NumericOverflow));
    assert_eq!(parse_num("1z"), Err(NumError::NumericOverflow));
    assert_eq!(parse_num("18446744073709551616"), Err(NumError::NumericOverflow));
    assert_eq!(parse_num("18446744073709551615"), Ok((usize::MAX, true)));
    assert_eq!(parse_num("20E"), Err(NumError::NumericOverflow));
}
