use databend_core::text::decimal_text;
use databend_core::text::signed_decimal_text;

#[test]
fn numbers_are_written_in_decimal() {
    for n in [0, 7, 10, 99, 100, 1_234_567_890, u64::MAX] {
        assert_eq!(decimal_text(n), format!("{}", n));
    }
}

#[test]
fn signed_numbers_are_written_in_decimal() {
    for n in [0, 1, -1, -10, i64::MAX, i64::MIN] {
        assert_eq!(signed_decimal_text(n), format!("{}", n));
    }
}
