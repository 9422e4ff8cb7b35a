use pocket_repo::text::{decimal_string, zero_padded_string};

#[test]
fn decimal_text() {
    assert_eq!(decimal_string(0), "0");
    assert_eq!(decimal_string(42), "42");
    assert_eq!(decimal_string(18_446_744_073_709_551_615), "18446744073709551615");
}

#[test]
fn zero_padding() {
    assert_eq!(zero_padded_string(7, 2), "07");
    assert_eq!(zero_padded_string(2024, 4), "2024");
    assert_eq!(zero_padded_string(12345, 4), "12345");
    assert_eq!(zero_padded_string(-5, 4), "-005");
    assert_eq!(zero_padded_string(0, 4), "0000");
    assert_eq!(zero_padded_string(i64::MIN, 4), "-9223372036854775808");
}
