use m4b_pipeline::text::{parse_u64, trim_chars, u64_to_string};

fn chars(s: &str) -> Vec<char> {
    s.chars().collect()
}

#[test]
fn prints_decimal_numerals() {
    assert_eq!(u64_to_string(0), "0");
    assert_eq!(u64_to_string(7), "7");
    assert_eq!(u64_to_string(30_500), "30500");
    assert_eq!(u64_to_string(u64::MAX), "18446744073709551615");
}

#[test]
fn parses_decimal_numerals() {
    assert_eq!(parse_u64(&chars("0")), Some(0));
    assert_eq!(parse_u64(&chars("007")), Some(7));
    assert_eq!(parse_u64(&chars("18446744073709551615")), Some(u64::MAX));
}

#[test]
fn rejects_non_numerals_and_overflow() {
    assert_eq!(parse_u64(&chars("")), None);
    assert_eq!(parse_u64(&chars("12a")), None);
    assert_eq!(parse_u64(&chars("-1")), None);
    assert_eq!(parse_u64(&chars("18446744073709551616")), None);
}

#[test]
fn numerals_round_trip() {
    for n in [0u64, 1, 9, 10, 999, 1_000, 35_750, u64::MAX] {
        let printed = u64_to_string(n);
        assert_eq!(parse_u64(&printed.chars().collect()), Some(n));
    }
}

#[test]
fn trims_surrounding_whitespace() {
    let t = trim_chars(&chars("  \t10.5\r\n"));
    let s: String = t.iter().collect();
    assert_eq!(s, "10.5");
    assert_eq!(trim_chars(&chars(" \n ")), Vec::<char>::new());
}
