use yagsdb::text::{decimal_string, parse_u64};

#[test]
fn parse_u64_follows_std() {
    for s in ["0", "42", "+7", "007", "18446744073709551615", "", "+", "-1", "1a", " 1", "18446744073709551616"] {
        assert_eq!(parse_u64(s), s.parse::<u64>().ok(), "input {s:?}");
    }
}

#[test]
fn decimal_round_trips() {
    for n in [0u64, 9, 10, 99, 100, 1234567890, u64::MAX] {
        let s = decimal_string(n);
        assert_eq!(s, n.to_string());
        assert_eq!(parse_u64(&s), Some(n));
    }
}

#[test]
fn whitespace_is_std_whitespace() {
    for c in (0u32..=0x10FFFF).filter_map(char::from_u32) {
        assert_eq!(yagsdb::text::is_whitespace(c), c.is_whitespace(), "char {:?}", c);
    }
}
