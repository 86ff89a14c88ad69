use perp_arb::num::{hundred, negative_zero, one, zero, Binary64};
use perp_arb::text::{
    decimal, decimal_padded, decimal_signed, join, parse_u32, same_text, text_less,
    to_ascii_uppercase, trim,
};

fn number(value: f64) -> Binary64 {
    Binary64 { bits: value.to_bits() }
}

#[test]
fn texts_are_trimmed() {
    assert_eq!(trim("  a b\t\n"), "a b");
    assert_eq!(trim("\u{3000}x\u{a0}"), "x");
    assert_eq!(trim("   "), "");
    let text = "\u{2003} mixed \u{85} text \u{feff}";
    assert_eq!(trim(text), text.trim());
    assert_eq!(trim(&trim(text)), trim(text));
}

#[test]
fn letters_become_capitals() {
    assert_eq!(to_ascii_uppercase("btcUsdt-1é"), "BTCUSDT-1é");
}

#[test]
fn texts_are_ordered_and_compared() {
    assert!(text_less("", "a"));
    assert!(text_less("a", "aa"));
    assert!(text_less("Z", "a"));
    assert!(!text_less("b", "ab"));
    assert!(!text_less("a", "a"));
    assert!(same_text("汉", "汉"));
    assert!(!same_text("a", "A"));
}

#[test]
fn texts_are_joined() {
    assert_eq!(join(&vec![], ", "), "");
    assert_eq!(join(&vec!["a".to_owned()], ", "), "a");
    assert_eq!(join(&vec!["a".to_owned(), "".to_owned(), "b".to_owned()], ", "), "a, , b");
}

#[test]
fn numerals_are_written() {
    assert_eq!(decimal(0), "0");
    assert_eq!(decimal(1207), "1207");
    assert_eq!(decimal(u128::MAX), u128::MAX.to_string());
    assert_eq!(decimal_padded(7), "007");
    assert_eq!(decimal_padded(64), "064");
    assert_eq!(decimal_padded(1000), "1000");
    assert_eq!(decimal_signed(-10001), "-10001");
    assert_eq!(decimal_signed(i64::MIN), i64::MIN.to_string());
    assert_eq!(decimal_signed(5), "5");
}

#[test]
fn numerals_are_read() {
    assert_eq!(parse_u32("0"), Some(0));
    assert_eq!(parse_u32("+12"), Some(12));
    assert_eq!(parse_u32("0012"), Some(12));
    assert_eq!(parse_u32("4294967295"), Some(u32::MAX));
    assert_eq!(parse_u32("4294967296"), None);
    assert_eq!(parse_u32("-1"), None);
    assert_eq!(parse_u32("+"), None);
    assert_eq!(parse_u32(""), None);
    assert_eq!(parse_u32(" 1"), None);
    for n in [0, 9, 10, 4096, u32::MAX] {
        assert_eq!(parse_u32(&decimal(n as u128)), Some(n));
    }
}

#[test]
fn numbers_compare_as_floats_do() {
    let values = [
        0.0,
        -0.0,
        1.0,
        -1.0,
        5e-324,
        -5e-324,
        f64::MAX,
        f64::MIN,
        f64::INFINITY,
        f64::NEG_INFINITY,
        f64::NAN,
        -f64::NAN,
        100.0,
    ];
    for a in values {
        assert_eq!(number(a).is_nan(), a.is_nan());
        assert_eq!(number(a).is_finite(), a.is_finite());
        assert_eq!(number(a).is_positive(), a > 0.0);
        for b in values {
            assert_eq!(number(a).less(number(b)), a < b);
            assert_eq!(number(a).at_most(number(b)), a <= b);
            assert_eq!(number(a).equals(number(b)), a == b);
        }
    }
}

#[test]
fn the_smaller_number_is_taken() {
    assert_eq!(number(2.0).min(number(3.0)), number(2.0));
    assert_eq!(number(3.0).min(number(2.0)), number(2.0));
    assert_eq!(number(f64::NAN).min(number(2.0)), number(2.0));
    assert_eq!(number(2.0).min(number(f64::NAN)), number(2.0));
}

#[test]
fn constants_are_what_they_are_called() {
    assert_eq!(zero(), number(0.0));
    assert_eq!(negative_zero(), number(-0.0));
    assert_eq!(one(), number(1.0));
    assert_eq!(hundred(), number(100.0));
}
