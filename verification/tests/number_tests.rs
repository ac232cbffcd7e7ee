use slurm_monitor::number::{
    format_bytes, is_float_text, parse_bytes, parse_slurm_duration, read_number, show_rounded_exec,
    show_value_exec,
};

fn chars(s: &str) -> Vec<char> {
    s.chars().collect()
}

#[test]
fn slurm_durations() {
    assert_eq!(parse_slurm_duration("08:00:00"), Some(28800));
    assert_eq!(parse_slurm_duration("1-02:03:04"), Some(93784));
    assert_eq!(parse_slurm_duration("00:01.123"), Some(1));
    assert_eq!(parse_slurm_duration("54:00"), Some(3240));
    assert_eq!(parse_slurm_duration("UNLIMITED"), None);
    assert_eq!(parse_slurm_duration(""), None);
}

#[test]
fn float_texts_as_f64_reads_them() {
    for ok in ["1", "-1.5", "+.5", "5.", "1e3", "1E-3", "inf", "-Infinity", "NaN", "007"] {
        assert!(is_float_text(&chars(ok)), "{ok}");
        assert!(ok.parse::<f64>().is_ok(), "{ok}");
    }
    for bad in ["", ".", "e5", "1e", "1.2.3", " 1", "1 ", "infinit", "0x10", "1_000"] {
        assert!(!is_float_text(&chars(bad)), "{bad}");
        assert!(bad.parse::<f64>().is_err(), "{bad}");
    }
}

#[test]
fn numbers_are_read_exactly() {
    assert_eq!(read_number(&chars("1.5")), Some(1_500_000_000_000_000_000));
    assert_eq!(read_number(&chars("-0.25")), Some(-250_000_000_000_000_000));
    assert_eq!(read_number(&chars("1e3")), Some(1_000_000_000_000_000_000_000));
    assert_eq!(show_value_exec(300_500_000_000_000_000_000), "300.5");
    assert_eq!(show_value_exec(-2_000_000_000_000_000_000), "-2");
}

#[test]
fn numbers_in_float_syntax() {
    let one = 1_000_000_000_000_000_000i128;
    assert_eq!(read_number(&chars("2.5E-3")), Some(2_500_000_000_000_000));
    assert_eq!(read_number(&chars("+12e+2")), Some(1200 * one));
    assert_eq!(read_number(&chars("5.")), Some(5 * one));
    assert_eq!(read_number(&chars(".5")), Some(one / 2));
    assert_eq!(read_number(&chars("-0")), Some(0));
    assert_eq!(read_number(&chars("0.0000000000000000000000000")), Some(0));
    assert_eq!(read_number(&chars("0e99999999999999999999999")), Some(0));
    assert_eq!(read_number(&chars("000000000000000000000042.50000000000000000000")), Some(42 * one + one / 2));
    assert_eq!(read_number(&chars("123456789012345678e-18")), Some(123_456_789_012_345_678));
    assert_eq!(read_number(&chars("999999999999999999")), Some(999_999_999_999_999_999 * one));
    // beyond what a mantissa below 10^18 with at most 18 fractional digits holds
    assert_eq!(read_number(&chars("1e18")), None);
    assert_eq!(read_number(&chars("1e-19")), None);
    assert_eq!(read_number(&chars("1234567890123456789")), None);
    assert_eq!(read_number(&chars("1e99999999999999999999999")), None);
    assert_eq!(read_number(&chars("1e-99999999999999999999999")), None);
    // not finite, or not a number at all
    assert_eq!(read_number(&chars("inf")), None);
    assert_eq!(read_number(&chars("NaN")), None);
    assert_eq!(read_number(&chars("1e")), None);
    assert_eq!(read_number(&chars(" 1")), None);
}

#[test]
fn byte_figures_in_float_syntax() {
    assert_eq!(parse_bytes("1.5e3K"), Some(1_536_000));
    assert_eq!(parse_bytes("2E0Gn"), Some(2 * 1024 * 1024 * 1024));
    assert_eq!(parse_bytes("0.5Mc"), Some(512 * 1024));
    assert_eq!(parse_bytes("-1G"), Some(0));
    // float special values, as a whole number of bytes takes them
    assert_eq!(parse_bytes("infKn"), Some(u64::MAX));
    assert_eq!(parse_bytes("+InfinityGc"), Some(u64::MAX));
    assert_eq!(parse_bytes("-infMn"), Some(0));
    assert_eq!(parse_bytes("NaNKc"), Some(0));
    assert_eq!(parse_bytes("infXn"), None);
    for (num, unit) in [("inf", 1024.0f64), ("-inf", 1024.0), ("NaN", 1024.0)] {
        let v: f64 = num.parse().unwrap();
        let text = format!("{num}Kn");
        assert_eq!(parse_bytes(&text), Some((v * unit) as u64), "{text}");
    }
}

#[test]
fn rounding_half_away_from_zero() {
    let hour = 60_000_000_000_000_000_000u128;
    assert_eq!(show_rounded_exec(90_000_000_000_000_000_000, hour), "2");
    assert_eq!(show_rounded_exec(89_000_000_000_000_000_000, hour), "1");
}

#[test]
fn bytes_round_trip_through_the_formatter() {
    assert_eq!(format_bytes(parse_bytes("1.5G").unwrap()), "1.5G");
    assert_eq!(parse_bytes("4Gc"), Some(4 * 1024 * 1024 * 1024));
    assert_eq!(parse_bytes("4X"), None);
}
