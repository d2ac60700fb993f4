use m4b_pipeline::duration::{parse_probed_duration, parse_probed_durations};
use m4b_pipeline::errors::ConvertError;

#[test]
fn parses_typical_probe_output() {
    assert_eq!(parse_probed_duration("1234.567000\n"), Ok(1_234_567));
}

#[test]
fn whole_seconds() {
    assert_eq!(parse_probed_duration("5"), Ok(5_000));
    assert_eq!(parse_probed_duration("0"), Ok(0));
}

#[test]
fn fractional_forms() {
    assert_eq!(parse_probed_duration("10.5"), Ok(10_500));
    assert_eq!(parse_probed_duration(".25"), Ok(250));
    assert_eq!(parse_probed_duration("10."), Ok(10_000));
}

#[test]
fn truncates_below_millisecond_granularity() {
    assert_eq!(parse_probed_duration("1.23456"), Ok(1_234));
    assert_eq!(parse_probed_duration("0.0009"), Ok(0));
}

#[test]
fn surrounding_whitespace_is_ignored() {
    assert_eq!(parse_probed_duration("  20.5\r\n"), Ok(20_500));
}

#[test]
fn rejects_unparsable_values() {
    let e = parse_probed_duration("N/A").unwrap_err();
    assert_eq!(e, ConvertError::Probe("Failed to parse duration 'N/A'".to_string()));
    assert!(parse_probed_duration("").is_err());
    assert!(parse_probed_duration("1.2.3").is_err());
    assert!(parse_probed_duration("-5").is_err());
    assert!(parse_probed_duration(".").is_err());
}

#[test]
fn batch_parses_in_order() {
    let outs = vec!["10.0\n".to_string(), "20.5\n".to_string(), "5.25\n".to_string()];
    assert_eq!(parse_probed_durations(&outs), Ok(vec![10_000, 20_500, 5_250]));
}

#[test]
fn batch_fails_on_first_bad_report() {
    let outs = vec!["10.0".to_string(), "oops".to_string(), "5.25".to_string()];
    let e = parse_probed_durations(&outs).unwrap_err();
    assert_eq!(e, ConvertError::Probe("Failed to parse duration 'oops'".to_string()));
}
