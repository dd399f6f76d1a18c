use stick::literal::{float_literal, int_literal};

#[test]
fn integers_read_with_underscores() {
    assert_eq!(int_literal("0"), Some(0));
    assert_eq!(int_literal("42"), Some(42));
    assert_eq!(int_literal("1_000_000"), Some(1_000_000));
    assert_eq!(int_literal("+7"), Some(7));
    assert_eq!(int_literal("-12"), Some(-12));
}

#[test]
fn integers_rejected() {
    assert_eq!(int_literal(""), None);
    assert_eq!(int_literal("12a"), None);
    assert_eq!(int_literal("-"), None);
    assert_eq!(int_literal("0x10"), None);
}

#[test]
fn integers_at_the_i128_bounds() {
    assert_eq!(int_literal("170141183460469231731687303715884105727"), Some(i128::MAX));
    assert_eq!(int_literal("-170141183460469231731687303715884105728"), Some(i128::MIN));
    assert_eq!(int_literal("170141183460469231731687303715884105728"), None);
}

#[test]
fn floats_accepted() {
    assert!(float_literal("1.5"));
    assert!(float_literal("1_0.2_5"));
    assert!(float_literal("3e10"));
    assert!(float_literal(".5"));
    assert!(float_literal("5."));
    assert!(float_literal("inf"));
    assert!(float_literal("NaN"));
}

#[test]
fn floats_rejected() {
    assert!(!float_literal(""));
    assert!(!float_literal("1e"));
    assert!(!float_literal("."));
    assert!(!float_literal("1.2.3"));
    assert!(!float_literal("abc"));
}
