use calyx_interp::rational::Rational;
use calyx_interp::text::{bracketed_text, decimal_signed_text, decimal_text};
use calyx_interp::values::Value;

/// The bits of a number, least significant first.
fn value(number: u64, width: usize) -> Value {
    Value::from_bits((0..width).map(|i| number >> i & 1 == 1).collect())
}

#[test]
fn decimal_numbers() {
    assert_eq!(decimal_text(0), "0");
    assert_eq!(decimal_text(907), "907");
    assert_eq!(decimal_text(u64::MAX), "18446744073709551615");
    assert_eq!(decimal_signed_text(-12), "-12");
    assert_eq!(decimal_signed_text(i64::MIN), "-9223372036854775808");
    assert_eq!(decimal_signed_text(i64::MAX), "9223372036854775807");
}

#[test]
fn lists_are_joined_in_brackets() {
    assert_eq!(bracketed_text(&vec![]), "[]");
    assert_eq!(bracketed_text(&vec![String::from("a")]), "[a]");
    assert_eq!(
        bracketed_text(&vec![String::from("a"), String::from("b"), String::from("c")]),
        "[a, b, c]"
    );
}

#[test]
fn bits_are_written_most_significant_first() {
    assert_eq!(value(6, 4).to_text(), "0110");
    assert_eq!(Value::bit_high().to_text(), "1");
    assert_eq!(Value::bit_low().to_text(), "0");
    assert_eq!(Value::zeroes(3).to_text(), "000");
    assert_eq!(Value::zeroes(0).to_text(), "");
}

#[test]
fn numbers_are_read_from_bits() {
    assert_eq!(value(13, 4).as_u64(), 13);
    assert_eq!(value(13, 4).as_i64(), -3);
    assert_eq!(value(5, 4).as_i64(), 5);
    assert_eq!(value(u64::MAX, 64).as_u64(), u64::MAX);
    assert_eq!(value(1 << 63, 64).as_i64(), i64::MIN);
    assert_eq!(Value::zeroes(0).as_u64(), 0);
    assert_eq!(value(9, 5).width(), 5);
}

#[test]
fn values_of_different_widths_are_unordered() {
    let narrow = value(1, 2);
    let wide = value(1, 3);
    assert!(!narrow.same(&wide));
    assert!(!narrow.is_less(&wide));
    assert!(!wide.is_less(&narrow));
    assert!(value(1, 3).is_less(&value(2, 3)));
    assert!(!value(2, 3).is_less(&value(2, 3)));
    assert!(value(2, 3).same(&value(2, 3)));
}

#[test]
fn any_high_bit_is_true() {
    assert!(value(4, 3).as_bool());
    assert!(!Value::zeroes(3).as_bool());
}

#[test]
fn fixed_point_numbers_are_reduced() {
    let ufp = value(6, 4).as_ufp(2);
    assert_eq!(ufp, Rational { negative: false, numer: 3, denom: 2 });
    assert_eq!(ufp.to_text(), "3/2");
    let sfp = value(13, 4).as_sfp(1);
    assert_eq!(sfp, Rational { negative: true, numer: 3, denom: 2 });
    assert_eq!(sfp.to_text(), "-3/2");
    assert_eq!(value(8, 5).as_ufp(3).to_text(), "1");
    assert_eq!(value(0, 5).as_ufp(3).to_text(), "0");
    assert_eq!(value(8, 4).as_sfp(0).to_text(), "-8");
}

#[test]
fn ratios_are_brought_to_lowest_terms() {
    assert_eq!(
        Rational::new(true, 84, 36),
        Rational { negative: true, numer: 7, denom: 3 }
    );
    assert_eq!(
        Rational::new(false, 0, 36),
        Rational { negative: false, numer: 0, denom: 1 }
    );
}

#[test]
fn large_ratios_are_written_in_full() {
    assert_eq!(value(u64::MAX, 64).as_ufp(1).to_text(), "18446744073709551615/2");
    assert_eq!(value(1, 1).as_ufp(63).to_text(), "1/9223372036854775808");
    assert_eq!(value(10_000_000_000_000_000_000, 64).as_ufp(0).to_text(), "10000000000000000000");
    assert_eq!(value(u64::MAX, 64).as_sfp(3).to_text(), "-1/8");
}
