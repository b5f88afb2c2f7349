use num_bigint::{BigInt, BigUint};
use rust_decimal::Decimal;
use tabulator::conversions::{anchor_decimal, anchor_units, Scaled};
use tabulator::Cell;

fn decimal(s: &str) -> Cell<'static, 'static> {
    let d = s.parse::<Decimal>().unwrap();
    Cell::from(Scaled {
        text: d.to_string(),
        negative: d.is_sign_negative(),
        mantissa: d.mantissa().unsigned_abs(),
        scale: d.scale(),
    })
}

fn check(cell: Cell, text: &str, idx: usize) {
    if let Cell::Anchored(cell_s, cell_idx) = cell {
        assert_eq!(cell_s, text);
        assert_eq!(cell_idx, idx);
    } else {
        panic!("expected anchor, got {:?}", cell);
    }
}

#[test]
fn decimal_anchor() {
    check(decimal("1.23"), "1.23", 0);
    check(decimal("-1.23"), "-1.23", 1);
    check(decimal("1001.234"), "1001.234", 3);
}

#[test]
fn small_negative_decimals_anchor_on_their_zero() {
    check(decimal("-0.5"), "-0.5", 1);
    check(decimal("-0.05"), "-0.05", 1);
    check(decimal("-0.005"), "-0.005", 1);
    check(decimal("0.5"), "0.5", 0);
    check(decimal("0.05"), "0.05", 0);
    check(decimal("1.5"), "1.5", 0);
    check(decimal("-12.50"), "-12.50", 2);
    check(decimal("0"), "0", 0);
    check(decimal("0.00"), "0.00", 0);
    check(decimal("-7"), "-7", 1);
    check(decimal("1000"), "1000", 3);
}

#[test]
fn decimals_anchor_as_floats_do() {
    for (text, value) in [("-0.5", -0.5f64), ("1.5", 1.5), ("-0.05", -0.05), ("12.25", 12.25)] {
        assert_eq!(value.to_string(), text);
        assert_eq!(decimal(text), anchor_decimal(value.to_string()));
    }
}

#[test]
fn decimals_of_either_sign_line_up_on_their_points() {
    let cell = Cell::Stack(vec![
        decimal("-0.5"),
        decimal("1.5"),
        decimal("-0.05"),
        anchor_decimal((-0.5f32).to_string()),
        12i8.into(),
        decimal("-120.25"),
    ]);
    let out = cell.try_render().unwrap();
    assert_eq!(out, "  -0.5 \n   1.5 \n  -0.05\n  -0.5 \n  12   \n-120.25");
}

#[test]
fn test_biguint() {
    for (s, idx) in [("123", 2), ("12345678901234567890123", 22)] {
        let x = s.parse::<BigUint>().unwrap();
        check(anchor_units(x.to_string()), s, idx);
    }
}

#[test]
fn test_bigint() {
    for (s, idx) in [
        ("123", 2),
        ("-123", 3),
        ("12345678901234567890123", 22),
        ("-12345678901234567890123", 23),
    ] {
        let x = s.parse::<BigInt>().unwrap();
        check(anchor_units(x.to_string()), s, idx);
    }
}
