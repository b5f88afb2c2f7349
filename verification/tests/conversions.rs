use tabulator::conversions::{
    anchor_decimal, anchor_scaled, anchor_units, count_digits, decimal_text,
};
use tabulator::Cell;

fn check_anchor(cell: Cell, text: String, idx: usize) {
    if let Cell::Anchored(cell_s, cell_idx) = cell {
        assert_eq!(cell_s, text);
        assert_eq!(cell_idx, idx);
    } else {
        panic!("expected anchored found {:?}", &cell);
    }
}

fn check_f32(value: f32, idx: usize) {
    check_anchor(anchor_decimal(value.to_string()), value.to_string(), idx);
}

fn check_f64(value: f64, idx: usize) {
    check_anchor(anchor_decimal(value.to_string()), value.to_string(), idx);
}

#[test]
fn test_anchors() {
    check_anchor(13u8.into(), 13u8.to_string(), 1);
    check_anchor(131u16.into(), 131u16.to_string(), 2);
    check_anchor(12345678u32.into(), 12345678u32.to_string(), 7);
    check_anchor(123456781u64.into(), 123456781u64.to_string(), 8);
    check_anchor(1234567812u128.into(), 1234567812u128.to_string(), 9);
    check_anchor(1001usize.into(), 1001usize.to_string(), 3);

    check_anchor(73i8.into(), 73i8.to_string(), 1);
    check_anchor((-73i8).into(), (-73i8).to_string(), 2);
    check_anchor(789i16.into(), 789i16.to_string(), 2);
    check_anchor((-789i16).into(), (-789i16).to_string(), 3);
    check_anchor(100302i32.into(), 100302i32.to_string(), 5);
    check_anchor((-100302i32).into(), (-100302i32).to_string(), 6);
    check_anchor(1003023i64.into(), 1003023i64.to_string(), 6);
    check_anchor((-1003023i64).into(), (-1003023i64).to_string(), 7);
    check_anchor(10030234i128.into(), 10030234i128.to_string(), 7);
    check_anchor((-10030234i128).into(), (-10030234i128).to_string(), 8);
    check_anchor(10030213isize.into(), 10030213isize.to_string(), 7);
    check_anchor((-10030213isize).into(), (-10030213isize).to_string(), 8);

    check_f32(15.67f32, 1);
    check_f32(-15.67f32, 2);
    check_f32(101f32, 2);
    check_f32(-101f32, 3);

    check_f64(15.67f64, 1);
    check_f64(-15.67f64, 2);
    check_f64(101f64, 2);
    check_f64(-101f64, 3);
}

#[test]
fn extreme_integers_keep_their_text() {
    check_anchor(i128::MIN.into(), i128::MIN.to_string(), 39);
    check_anchor(u128::MAX.into(), u128::MAX.to_string(), 38);
    check_anchor(i8::MIN.into(), "-128".to_string(), 3);
    check_anchor(0u8.into(), "0".to_string(), 0);
    check_anchor(i64::MIN.into(), i64::MIN.to_string(), 19);
}

#[test]
fn numbers_in_decimal() {
    assert_eq!(decimal_text(false, 0), "0");
    assert_eq!(decimal_text(true, 7), "-7");
    assert_eq!(decimal_text(false, 1203), "1203");
    assert_eq!(decimal_text(false, u128::MAX), u128::MAX.to_string());
}

#[test]
fn scaled_decimals_anchor_at_the_units() {
    assert_eq!(anchor_scaled("1.23".to_string(), false, 123, 2), Cell::anchored("1.23", 0));
    assert_eq!(anchor_scaled("-1.23".to_string(), true, 123, 2), Cell::anchored("-1.23", 1));
    assert_eq!(anchor_scaled("1001.234".to_string(), false, 1001234, 3), Cell::anchored("1001.234", 3));
    assert_eq!(anchor_scaled("0.005".to_string(), false, 5, 3), Cell::anchored("0.005", 0));
    assert_eq!(anchor_scaled("-0.5".to_string(), true, 5, 1), Cell::anchored("-0.5", 1));
    assert_eq!(anchor_scaled("-0.05".to_string(), true, 5, 2), Cell::anchored("-0.05", 1));
    assert_eq!(anchor_scaled("-0.005".to_string(), true, 5, 3), Cell::anchored("-0.005", 1));
    assert_eq!(anchor_scaled("-12.5".to_string(), true, 125, 1), Cell::anchored("-12.5", 2));
    assert_eq!(anchor_scaled("0.00".to_string(), false, 0, 2), Cell::anchored("0.00", 0));
    assert_eq!(anchor_scaled("100".to_string(), false, 100, 0), Cell::anchored("100", 2));
    assert_eq!(anchor_scaled("42".to_string(), false, 42, 0), Cell::anchored("42", 1));
    assert_eq!(anchor_scaled("0".to_string(), false, 0, 0), Cell::anchored("0", 0));
    assert_eq!(count_digits(0), 0);
    assert_eq!(count_digits(9), 1);
    assert_eq!(count_digits(10), 2);
    assert_eq!(count_digits(u128::MAX), 39);
}

#[test]
fn text_anchors_stay_within_the_text() {
    assert_eq!(anchor_units("123".to_string()), Cell::anchored("123", 2));
    assert_eq!(
        anchor_units("12345678901234567890123".to_string()),
        Cell::anchored("12345678901234567890123", 22)
    );
    assert_eq!(anchor_units("-123".to_string()), Cell::anchored("-123", 3));
    assert_eq!(anchor_decimal("12".to_string()), Cell::anchored("12", 1));
    assert_eq!(anchor_decimal("1e21".to_string()), Cell::anchored("1e21", 3));
    assert_eq!(anchor_decimal("NaN".to_string()), Cell::anchored("NaN", 2));
    assert_eq!(anchor_units("a\u{301}\u{302}\u{303}".to_string()), Cell::anchored("a\u{301}\u{302}\u{303}", 1));
}

#[test]
fn stacked_numbers_line_up_on_their_units() {
    let cell = Cell::Stack(vec![
        anchor_scaled("1.25".to_string(), false, 125, 2),
        13i32.into(),
        anchor_scaled("-100.2".to_string(), true, 1002, 1),
        anchor_decimal(3.125f64.to_string()),
    ]);
    assert_eq!(cell.try_render().unwrap(), "   1.25 \n  13    \n-100.2  \n   3.125");
}
