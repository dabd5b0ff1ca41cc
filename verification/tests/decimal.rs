use chairmanmao::decimal::{parse_isize, parse_u64};

#[test]
fn unsigned_numbers_agree_with_the_standard_library() {
    for text in [
        "0", "7", "42", "007", "+5", "+0", "18446744073709551615", "18446744073709551616",
        "99999999999999999999999999999999999999999999", "", "+", "-", "-0", "-5", "1 2", " 1",
        "1 ", "1_000", "0x10", "１２", "٣", "1e3", "++1",
    ] {
        assert_eq!(parse_u64(text), text.parse::<u64>().ok(), "{:?}", text);
    }
}

#[test]
fn signed_numbers_agree_with_the_standard_library() {
    let max = isize::MAX.to_string();
    let min = isize::MIN.to_string();
    let above = format!("{}0", max);
    let below = format!("{}0", min);
    for text in [
        "0", "7", "-7", "+7", "-0", "+0", "0042", "-0042", max.as_str(), min.as_str(),
        above.as_str(), below.as_str(), "9223372036854775808", "-9223372036854775809", "", "+",
        "-", "--1", "+-1", "-+1", "1-", "1 2", " 1", "１２", "٣", "12a",
    ] {
        assert_eq!(parse_isize(text), text.parse::<isize>().ok(), "{:?}", text);
    }
}

#[test]
fn numbers_have_their_values() {
    assert_eq!(parse_u64("928461308166926427"), Some(928461308166926427));
    assert_eq!(parse_u64("+12"), Some(12));
    assert_eq!(parse_u64("-12"), None);
    assert_eq!(parse_isize("-12"), Some(-12));
    assert_eq!(parse_isize("+12"), Some(12));
    assert_eq!(parse_isize(""), None);
}
