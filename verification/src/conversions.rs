use crate::cell::{Cell, CellView};
use crate::text::{before_point, chars_of};
use crate::width::{display_width, is_plain, str_width};
use vstd::prelude::*;
use vstd::std_specs::convert::FromSpecImpl;

verus! {

/// The character for a digit below ten.
pub open spec fn digit(d: nat) -> char {
    if d == 0 {
        '0'
    } else if d == 1 {
        '1'
    } else if d == 2 {
        '2'
    } else if d == 3 {
        '3'
    } else if d == 4 {
        '4'
    } else if d == 5 {
        '5'
    } else if d == 6 {
        '6'
    } else if d == 7 {
        '7'
    } else if d == 8 {
        '8'
    } else {
        '9'
    }
}

/// A natural number in decimal, without leading zeros.
pub open spec fn digits(n: nat) -> Seq<char>
    decreases n,
{
    if n < 10 {
        seq![digit(n)]
    } else {
        digits(n / 10).push(digit(n % 10))
    }
}

/// A whole number in decimal, a minus sign before a negative one.
pub open spec fn int_text(v: int) -> Seq<char> {
    if v < 0 {
        seq!['-'] + digits((-v) as nat)
    } else {
        digits(v as nat)
    }
}

/// The smaller of an index and a width.
pub open spec fn within(idx: nat, width: nat) -> nat {
    if idx <= width {
        idx
    } else {
        width
    }
}

/// A text anchored at its last character, and no further than it is wide.
pub open spec fn units_cell(text: Seq<char>) -> CellView {
    CellView::Anchored(text, within((text.len() - 1) as nat, display_width(text)))
}

/// A text anchored at the character before its first point, at its last
/// character where it has no point, and no further than it is wide.
pub open spec fn decimal_cell(text: Seq<char>) -> CellView {
    CellView::Anchored(text, within((before_point(text) - 1) as nat, display_width(text)))
}

/// The number of decimal digits of a mantissa, none for zero.
pub open spec fn mantissa_width(m: nat) -> nat
    decreases m,
{
    if m == 0 {
        0
    } else {
        1 + mantissa_width(m / 10)
    }
}

/// The number of digits that a scaled decimal has before its point: those
/// of its mantissa beyond the scale, and the one zero where it has none.
pub open spec fn whole_digits(mantissa: nat, scale: nat) -> nat {
    if mantissa_width(mantissa) > scale {
        (mantissa_width(mantissa) - scale) as nat
    } else {
        1
    }
}

/// Where the units digit of a scaled decimal stands in its text: it is the
/// last of the digits before the point, which follow the sign.
pub open spec fn scaled_index(negative: bool, mantissa: nat, scale: nat) -> nat {
    let sign: nat = if negative {
        1
    } else {
        0
    };
    (sign + whole_digits(mantissa, scale) - 1) as nat
}

/// The text of a scaled decimal anchored at its units digit, and no further
/// than it is wide.
pub open spec fn scaled_cell(text: Seq<char>, negative: bool, mantissa: nat, scale: nat) -> CellView {
    CellView::Anchored(text, within(scaled_index(negative, mantissa, scale), display_width(text)))
}

/// The character for a digit below ten.
pub fn digit_char(d: u8) -> (c: char)
    requires
        d < 10,
    ensures
        c == digit(d as nat),
{
    if d == 0 {
        '0'
    } else if d == 1 {
        '1'
    } else if d == 2 {
        '2'
    } else if d == 3 {
        '3'
    } else if d == 4 {
        '4'
    } else if d == 5 {
        '5'
    } else if d == 6 {
        '6'
    } else if d == 7 {
        '7'
    } else if d == 8 {
        '8'
    } else {
        '9'
    }
}

/// A whole number in decimal, given by its sign and its magnitude.
pub fn decimal_text(negative: bool, magnitude: u128) -> (text: String)
    ensures
        text@ == if negative {
            seq!['-'] + digits(magnitude as nat)
        } else {
            digits(magnitude as nat)
        },
{
    let mut low_first: Vec<char> = Vec::new();
    low_first.push(digit_char((magnitude % 10) as u8));
    let mut m = magnitude / 10;
    proof {
        assert(digits(magnitude as nat) =~= (if m == 0 {
            Seq::<char>::empty()
        } else {
            digits(m as nat)
        }) + low_first@.reverse());
    }
    while m > 0
        invariant
            digits(magnitude as nat) == (if m == 0 {
                Seq::<char>::empty()
            } else {
                digits(m as nat)
            }) + low_first@.reverse(),
        decreases m,
    {
        let ghost before = low_first@;
        low_first.push(digit_char((m % 10) as u8));
        proof {
            let next = m / 10;
            assert(low_first@.reverse() =~= seq![digit((m % 10) as nat)] + before.reverse());
            assert(digits(m as nat) =~= (if next == 0 {
                Seq::<char>::empty()
            } else {
                digits(next as nat)
            }) + seq![digit((m % 10) as nat)]);
            assert(digits(magnitude as nat) =~= (if next == 0 {
                Seq::<char>::empty()
            } else {
                digits(next as nat)
            }) + low_first@.reverse());
        }
        m = m / 10;
    }
    let mut text = String::new();
    if negative {
        text.push('-');
    }
    let ghost head = text@;
    let mut i = low_first.len();
    while i > 0
        invariant
            i <= low_first@.len(),
            text@ == head + low_first@.reverse().take(low_first@.len() - i),
        decreases i,
    {
        i = i - 1;
        text.push(low_first[i]);
        proof {
            let r = low_first@.reverse();
            let n = low_first@.len() as int;
            assert(r.take(n - i - 1).push(low_first@[i as int]) =~= r.take(n - i));
        }
    }
    proof {
        assert(low_first@.reverse().take(low_first@.len() as int) =~= low_first@.reverse());
        assert(text@ =~= head + digits(magnitude as nat));
    }
    text
}

/// Anchors a text at its last character, so that whole numbers stacked in a
/// column line up on their units.
pub fn anchor_units(s: String) -> (cell: Cell<'static, 'static>)
    requires
        s@.len() >= 1,
    ensures
        cell@ == units_cell(s@),
        cell@.well_formed(),
        is_plain(s@) ==> cell@ == CellView::Anchored(s@, (s@.len() - 1) as nat),
{
    let last = s.as_str().unicode_len() - 1;
    let width = str_width(s.as_str());
    let idx = if last <= width {
        last
    } else {
        width
    };
    Cell::anchored_text(s, idx)
}

/// Anchors a text at the character before its first point, or at its last
/// character where it has no point, so that decimals stacked in a column
/// line up on their units, with whole numbers too.
pub fn anchor_decimal(s: String) -> (cell: Cell<'static, 'static>)
    requires
        s@.len() >= 1,
        s@[0] != '.',
    ensures
        cell@ == decimal_cell(s@),
        cell@.well_formed(),
        is_plain(s@) ==> cell@ == CellView::Anchored(s@, (before_point(s@) - 1) as nat),
{
    let chars = chars_of(s.as_str());
    let mut at: usize = 0;
    proof {
        assert(s@.skip(0) =~= s@);
    }
    while at < chars.len() && chars[at] != '.'
        invariant
            at <= chars@.len(),
            chars@ == s@,
            before_point(s@) == at + before_point(s@.skip(at as int)),
        decreases chars@.len() - at,
    {
        proof {
            assert(s@.skip(at as int).skip(1) =~= s@.skip(at as int + 1));
        }
        at = at + 1;
    }
    let width = str_width(s.as_str());
    let idx = if at - 1 <= width {
        at - 1
    } else {
        width
    };
    Cell::anchored_text(s, idx)
}

/// Ten to the power `k`.
pub open spec fn pow10(k: nat) -> nat
    decreases k,
{
    if k == 0 {
        1
    } else {
        10 * pow10((k - 1) as nat)
    }
}

/// A mantissa below ten to the `k` has at most `k` digits.
pub proof fn lemma_mantissa_width(m: nat, k: nat)
    requires
        m < pow10(k),
    ensures
        mantissa_width(m) <= k,
    decreases k,
{
    if m > 0 {
        lemma_mantissa_width(m / 10, (k - 1) as nat);
    }
}

/// The number of decimal digits of a mantissa, none for zero.
pub fn count_digits(mantissa: u128) -> (n: usize)
    ensures
        n == mantissa_width(mantissa as nat),
        n <= 39,
{
    let mut m = mantissa;
    let mut n: usize = 0;
    proof {
        reveal_with_fuel(pow10, 40);
        assert(pow10(39) == 1_000_000_000_000_000_000_000_000_000_000_000_000_000);
        lemma_mantissa_width(mantissa as nat, 39);
    }
    while m > 0
        invariant
            mantissa_width(mantissa as nat) == n + mantissa_width(m as nat),
            n + mantissa_width(m as nat) <= 39,
        decreases m,
    {
        m = m / 10;
        n = n + 1;
    }
    n
}

/// Anchors the text of a scaled decimal at its units digit, so that it lines
/// up with whole numbers. The number is given by its sign, the magnitude of
/// its mantissa and its scale, the count of digits behind the point.
pub fn anchor_scaled(text: String, negative: bool, mantissa: u128, scale: u32) -> (cell: Cell<
    'static,
    'static,
>)
    ensures
        cell@ == scaled_cell(text@, negative, mantissa as nat, scale as nat),
        cell@.well_formed(),
{
    let sign_width: usize = if negative {
        1
    } else {
        0
    };
    let digits = count_digits(mantissa);
    let whole = if digits > scale as usize {
        digits - scale as usize
    } else {
        1
    };
    let at = sign_width + whole - 1;
    let width = str_width(text.as_str());
    let idx = if at <= width {
        at
    } else {
        width
    };
    Cell::anchored_text(text, idx)
}

/// A decimal number with a fixed count of digits behind its point, as plain
/// values: its text, its sign, the magnitude of its mantissa (its digits
/// read without the point) and its scale (the count of digits behind the
/// point).
#[derive(Clone, Debug, PartialEq, Eq)]
pub struct Scaled {
    pub text: String,
    pub negative: bool,
    pub mantissa: u128,
    pub scale: u32,
}

impl Scaled {
    /// The cell that the number stands for: its text, anchored at its units
    /// digit and no further than it is wide.
    pub open spec fn cell(self) -> CellView {
        scaled_cell(self.text@, self.negative, self.mantissa as nat, self.scale as nat)
    }
}

impl From<Scaled> for Cell<'static, 'static> {
    fn from(value: Scaled) -> (cell: Self)
        ensures
            cell@ == value.cell(),
            cell@.well_formed(),
    {
        anchor_scaled(value.text, value.negative, value.mantissa, value.scale)
    }
}

impl FromSpecImpl<Scaled> for Cell<'static, 'static> {
    open spec fn obeys_from_spec() -> bool {
        false
    }

    open spec fn from_spec(v: Scaled) -> Self {
        choose|cell: Cell<'static, 'static>| cell@ == v.cell()
    }
}

/// The decimal text of a natural number is plain.
pub proof fn lemma_digits_plain(n: nat)
    ensures
        is_plain(digits(n)),
        digits(n).len() >= 1,
    decreases n,
{
    if n >= 10 {
        lemma_digits_plain(n / 10);
    }
}

/// The text of a whole number is plain, and never empty.
pub proof fn lemma_int_text(v: int)
    ensures
        is_plain(int_text(v)),
        int_text(v).len() >= 1,
{
    if v < 0 {
        lemma_digits_plain((-v) as nat);
    } else {
        lemma_digits_plain(v as nat);
    }
}

impl From<i8> for Cell<'static, 'static> {
    fn from(value: i8) -> (cell: Self)
        ensures
            cell@ == CellView::Anchored(
                int_text(value as int),
                (int_text(value as int).len() - 1) as nat,
            ),
            cell@.well_formed(),
    {
        proof {
            lemma_int_text(value as int);
        }
        if value < 0 {
            anchor_units(decimal_text(true, (-(value + 1)) as u128 + 1))
        } else {
            anchor_units(decimal_text(false, value as u128))
        }
    }
}

impl FromSpecImpl<i8> for Cell<'static, 'static> {
    open spec fn obeys_from_spec() -> bool {
        false
    }

    open spec fn from_spec(v: i8) -> Self {
        choose|cell: Cell<'static, 'static>| cell@ == units_cell(int_text(v as int))
    }
}

impl From<i16> for Cell<'static, 'static> {
    fn from(value: i16) -> (cell: Self)
        ensures
            cell@ == CellView::Anchored(
                int_text(value as int),
                (int_text(value as int).len() - 1) as nat,
            ),
            cell@.well_formed(),
    {
        proof {
            lemma_int_text(value as int);
        }
        if value < 0 {
            anchor_units(decimal_text(true, (-(value + 1)) as u128 + 1))
        } else {
            anchor_units(decimal_text(false, value as u128))
        }
    }
}

impl FromSpecImpl<i16> for Cell<'static, 'static> {
    open spec fn obeys_from_spec() -> bool {
        false
    }

    open spec fn from_spec(v: i16) -> Self {
        choose|cell: Cell<'static, 'static>| cell@ == units_cell(int_text(v as int))
    }
}

impl From<i32> for Cell<'static, 'static> {
    fn from(value: i32) -> (cell: Self)
        ensures
            cell@ == CellView::Anchored(
                int_text(value as int),
                (int_text(value as int).len() - 1) as nat,
            ),
            cell@.well_formed(),
    {
        proof {
            lemma_int_text(value as int);
        }
        if value < 0 {
            anchor_units(decimal_text(true, (-(value + 1)) as u128 + 1))
        } else {
            anchor_units(decimal_text(false, value as u128))
        }
    }
}

impl FromSpecImpl<i32> for Cell<'static, 'static> {
    open spec fn obeys_from_spec() -> bool {
        false
    }

    open spec fn from_spec(v: i32) -> Self {
        choose|cell: Cell<'static, 'static>| cell@ == units_cell(int_text(v as int))
    }
}

impl From<i64> for Cell<'static, 'static> {
    fn from(value: i64) -> (cell: Self)
        ensures
            cell@ == CellView::Anchored(
                int_text(value as int),
                (int_text(value as int).len() - 1) as nat,
            ),
            cell@.well_formed(),
    {
        proof {
            lemma_int_text(value as int);
        }
        if value < 0 {
            anchor_units(decimal_text(true, (-(value + 1)) as u128 + 1))
        } else {
            anchor_units(decimal_text(false, value as u128))
        }
    }
}

impl FromSpecImpl<i64> for Cell<'static, 'static> {
    open spec fn obeys_from_spec() -> bool {
        false
    }

    open spec fn from_spec(v: i64) -> Self {
        choose|cell: Cell<'static, 'static>| cell@ == units_cell(int_text(v as int))
    }
}

impl From<i128> for Cell<'static, 'static> {
    fn from(value: i128) -> (cell: Self)
        ensures
            cell@ == CellView::Anchored(
                int_text(value as int),
                (int_text(value as int).len() - 1) as nat,
            ),
            cell@.well_formed(),
    {
        proof {
            lemma_int_text(value as int);
        }
        if value < 0 {
            anchor_units(decimal_text(true, (-(value + 1)) as u128 + 1))
        } else {
            anchor_units(decimal_text(false, value as u128))
        }
    }
}

impl FromSpecImpl<i128> for Cell<'static, 'static> {
    open spec fn obeys_from_spec() -> bool {
        false
    }

    open spec fn from_spec(v: i128) -> Self {
        choose|cell: Cell<'static, 'static>| cell@ == units_cell(int_text(v as int))
    }
}

impl From<isize> for Cell<'static, 'static> {
    fn from(value: isize) -> (cell: Self)
        ensures
            cell@ == CellView::Anchored(
                int_text(value as int),
                (int_text(value as int).len() - 1) as nat,
            ),
            cell@.well_formed(),
    {
        proof {
            lemma_int_text(value as int);
        }
        if value < 0 {
            anchor_units(decimal_text(true, (-(value + 1)) as u128 + 1))
        } else {
            anchor_units(decimal_text(false, value as u128))
        }
    }
}

impl FromSpecImpl<isize> for Cell<'static, 'static> {
    open spec fn obeys_from_spec() -> bool {
        false
    }

    open spec fn from_spec(v: isize) -> Self {
        choose|cell: Cell<'static, 'static>| cell@ == units_cell(int_text(v as int))
    }
}

impl From<u8> for Cell<'static, 'static> {
    fn from(value: u8) -> (cell: Self)
        ensures
            cell@ == CellView::Anchored(
                int_text(value as int),
                (int_text(value as int).len() - 1) as nat,
            ),
            cell@.well_formed(),
    {
        proof {
            lemma_int_text(value as int);
        }
        anchor_units(decimal_text(false, value as u128))
    }
}

impl FromSpecImpl<u8> for Cell<'static, 'static> {
    open spec fn obeys_from_spec() -> bool {
        false
    }

    open spec fn from_spec(v: u8) -> Self {
        choose|cell: Cell<'static, 'static>| cell@ == units_cell(int_text(v as int))
    }
}

impl From<u16> for Cell<'static, 'static> {
    fn from(value: u16) -> (cell: Self)
        ensures
            cell@ == CellView::Anchored(
                int_text(value as int),
                (int_text(value as int).len() - 1) as nat,
            ),
            cell@.well_formed(),
    {
        proof {
            lemma_int_text(value as int);
        }
        anchor_units(decimal_text(false, value as u128))
    }
}

impl FromSpecImpl<u16> for Cell<'static, 'static> {
    open spec fn obeys_from_spec() -> bool {
        false
    }

    open spec fn from_spec(v: u16) -> Self {
        choose|cell: Cell<'static, 'static>| cell@ == units_cell(int_text(v as int))
    }
}

impl From<u32> for Cell<'static, 'static> {
    fn from(value: u32) -> (cell: Self)
        ensures
            cell@ == CellView::Anchored(
                int_text(value as int),
                (int_text(value as int).len() - 1) as nat,
            ),
            cell@.well_formed(),
    {
        proof {
            lemma_int_text(value as int);
        }
        anchor_units(decimal_text(false, value as u128))
    }
}

impl FromSpecImpl<u32> for Cell<'static, 'static> {
    open spec fn obeys_from_spec() -> bool {
        false
    }

    open spec fn from_spec(v: u32) -> Self {
        choose|cell: Cell<'static, 'static>| cell@ == units_cell(int_text(v as int))
    }
}

impl From<u64> for Cell<'static, 'static> {
    fn from(value: u64) -> (cell: Self)
        ensures
            cell@ == CellView::Anchored(
                int_text(value as int),
                (int_text(value as int).len() - 1) as nat,
            ),
            cell@.well_formed(),
    {
        proof {
            lemma_int_text(value as int);
        }
        anchor_units(decimal_text(false, value as u128))
    }
}

impl FromSpecImpl<u64> for Cell<'static, 'static> {
    open spec fn obeys_from_spec() -> bool {
        false
    }

    open spec fn from_spec(v: u64) -> Self {
        choose|cell: Cell<'static, 'static>| cell@ == units_cell(int_text(v as int))
    }
}

impl From<u128> for Cell<'static, 'static> {
    fn from(value: u128) -> (cell: Self)
        ensures
            cell@ == CellView::Anchored(
                int_text(value as int),
                (int_text(value as int).len() - 1) as nat,
            ),
            cell@.well_formed(),
    {
        proof {
            lemma_int_text(value as int);
        }
        anchor_units(decimal_text(false, value as u128))
    }
}

impl FromSpecImpl<u128> for Cell<'static, 'static> {
    open spec fn obeys_from_spec() -> bool {
        false
    }

    open spec fn from_spec(v: u128) -> Self {
        choose|cell: Cell<'static, 'static>| cell@ == units_cell(int_text(v as int))
    }
}

impl From<usize> for Cell<'static, 'static> {
    fn from(value: usize) -> (cell: Self)
        ensures
            cell@ == CellView::Anchored(
                int_text(value as int),
                (int_text(value as int).len() - 1) as nat,
            ),
            cell@.well_formed(),
    {
        proof {
            lemma_int_text(value as int);
        }
        anchor_units(decimal_text(false, value as u128))
    }
}

impl FromSpecImpl<usize> for Cell<'static, 'static> {
    open spec fn obeys_from_spec() -> bool {
        false
    }

    open spec fn from_spec(v: usize) -> Self {
        choose|cell: Cell<'static, 'static>| cell@ == units_cell(int_text(v as int))
    }
}

} // verus!
