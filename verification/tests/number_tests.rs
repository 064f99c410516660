use tiny_vid_core::decimal::{decimal_string, parse_decimal};
use tiny_vid_core::number::{parse_plain_decimal, parse_u128, parse_u64};

#[test]
fn unsigned_parsing_follows_std() {
    for s in ["0", "42", "+7", "18446744073709551615", "", "+", "-1", " 1", "1a", "18446744073709551616"] {
        assert_eq!(parse_u64(s), s.parse::<u64>().ok(), "{:?}", s);
        assert_eq!(parse_u128(s), s.parse::<u128>().ok(), "{:?}", s);
    }
}

#[test]
fn plain_decimals_read_exactly() {
    let d = parse_plain_decimal("0.083000").unwrap();
    assert_eq!(decimal_string(d), "0.083");
    let d = parse_plain_decimal("-12.50").unwrap();
    assert_eq!(decimal_string(d), "-12.5");
    assert_eq!(parse_plain_decimal(".5"), parse_decimal("0.5"));
    assert_eq!(parse_plain_decimal("5."), parse_decimal("5"));
    assert_eq!(parse_plain_decimal("1.2.3"), None);
    assert_eq!(parse_plain_decimal("."), None);
    assert_eq!(parse_plain_decimal("1e3"), None);
}

#[test]
fn decimal_text_round_trips() {
    for x in [0.0, 1.0, 0.5, 30.0, 23.976, 1e-7, 123456789.25] {
        let t = x.to_string();
        let d = parse_decimal(&t).unwrap();
        assert_eq!(decimal_string(d), t);
    }
}

#[test]
fn decimal_text_reads_only_display_text() {
    for t in ["-0", "100", "-0.001", "1.50", "18446744073709551609"] {
        let d = parse_decimal(t).unwrap();
        assert_eq!(decimal_string(d), t);
    }
    for t in ["", "-", "1e5", "01", "1.", ".5", "+1", "1.2.3", "18446744073709551615"] {
        assert_eq!(parse_decimal(t), None);
    }
}
