//! Fixed-point decimal numbers: the numeric type of the language.
//!
//! A number is a signed count of millionths. Sums and differences are exact;
//! products and quotients are rounded toward zero to the nearest millionth.
//! Every operation reports a result that does not fit instead of wrapping.

use vstd::prelude::*;
use crate::text::{all_digits, char_to_digit, decimal_digits, digit_char, digit_to_char, digits_value, is_digit, is_digit_char, push_decimal};

verus! {

/// How many units make one.
pub const SCALE: i64 = 1_000_000;

/// The largest whole part that a number can have.
pub const MAX_WHOLE: u64 = 9_223_372_036_854;

/// A fixed-point decimal number: `units` millionths.
#[derive(Clone, Copy, Debug, PartialEq, Eq, Structural)]
pub struct Number {
    pub units: i64,
}

/// Why an arithmetic operation has no result.
#[derive(Clone, Copy, Debug, PartialEq, Eq, Structural)]
pub enum ArithmeticError {
    /// The exact result lies outside the range of `Number`.
    Overflow,
    /// The divisor is zero.
    DivisionByZero,
}

/// Why a numeral denotes no number.
#[derive(Clone, Copy, Debug, PartialEq, Eq, Structural)]
pub enum NumeralError {
    /// The text is not digits, optionally followed by a point and digits.
    Malformed,
    /// The numeral denotes a number too large to represent.
    OutOfRange,
}

/// Ten to the power `n`.
pub open spec fn pow10(n: nat) -> nat
    decreases n,
{
    if n == 0 {
        1
    } else {
        10 * pow10((n - 1) as nat)
    }
}

/// Whether `v` units fit in a `Number`.
pub open spec fn in_range(v: int) -> bool {
    i64::MIN <= v <= i64::MAX
}

/// The absolute value of `v`.
pub open spec fn magnitude(v: int) -> nat {
    if v < 0 {
        (-v) as nat
    } else {
        v as nat
    }
}

/// The quotient of `n` by `d`, rounded toward zero.
pub open spec fn quotient_toward_zero(n: int, d: int) -> int
    recommends
        d != 0,
{
    let q = (magnitude(n) / magnitude(d)) as int;
    if (n < 0) != (d < 0) {
        -q
    } else {
        q
    }
}

/// The result of an operation whose exact value is `v` units.
pub open spec fn checked(v: int) -> Result<Number, ArithmeticError> {
    if in_range(v) {
        Ok(Number { units: v as i64 })
    } else {
        Err(ArithmeticError::Overflow)
    }
}

/// The sum of two numbers.
pub open spec fn sum_of(a: Number, b: Number) -> Result<Number, ArithmeticError> {
    checked(a.units + b.units)
}

/// The difference of two numbers.
pub open spec fn difference_of(a: Number, b: Number) -> Result<Number, ArithmeticError> {
    checked(a.units - b.units)
}

/// The product of two numbers, rounded toward zero.
pub open spec fn product_of(a: Number, b: Number) -> Result<Number, ArithmeticError> {
    checked(quotient_toward_zero(a.units * b.units, SCALE as int))
}

/// The quotient of two numbers, rounded toward zero.
pub open spec fn quotient_of(a: Number, b: Number) -> Result<Number, ArithmeticError> {
    if b.units == 0 {
        Err(ArithmeticError::DivisionByZero)
    } else {
        checked(quotient_toward_zero(a.units * SCALE, b.units as int))
    }
}

/// The negation of a number.
pub open spec fn negation_of(a: Number) -> Result<Number, ArithmeticError> {
    checked(-a.units)
}

/// The position of the first decimal point of `t` at or after `from`, or the
/// length of `t` if there is none.
pub open spec fn point_position(t: Seq<char>, from: int) -> int
    decreases t.len() - from,
{
    if from < 0 || from >= t.len() {
        t.len() as int
    } else if t[from] == '.' {
        from
    } else {
        point_position(t, from + 1)
    }
}

/// The digits of a numeral before its decimal point.
pub open spec fn whole_part(t: Seq<char>) -> Seq<char> {
    t.subrange(0, point_position(t, 0))
}

/// The characters of a numeral after its first decimal point.
pub open spec fn fraction_part(t: Seq<char>) -> Seq<char> {
    if point_position(t, 0) < t.len() {
        t.subrange(point_position(t, 0) + 1, t.len() as int)
    } else {
        Seq::empty()
    }
}

/// Whether `t` is a numeral: at least one digit, then optionally a point and
/// any number of digits.
pub open spec fn is_numeral(t: Seq<char>) -> bool {
    &&& whole_part(t).len() > 0
    &&& all_digits(whole_part(t))
    &&& all_digits(fraction_part(t))
}

/// The millionths that the digits after the point denote. Digits beyond the
/// sixth are dropped.
pub open spec fn fraction_units(f: Seq<char>) -> nat {
    if f.len() >= 6 {
        digits_value(f.take(6))
    } else {
        digits_value(f) * pow10((6 - f.len()) as nat)
    }
}

/// The units that the numeral `t` denotes.
pub open spec fn numeral_units(t: Seq<char>) -> nat {
    digits_value(whole_part(t)) * 1_000_000 + fraction_units(fraction_part(t))
}

/// The number that the text `t` denotes, or why it denotes none.
pub open spec fn numeral_value(t: Seq<char>) -> Result<Number, NumeralError> {
    if !is_numeral(t) {
        Err(NumeralError::Malformed)
    } else if numeral_units(t) > i64::MAX {
        Err(NumeralError::OutOfRange)
    } else {
        Ok(Number { units: numeral_units(t) as i64 })
    }
}

/// The digits after the decimal point for `frac` out of `pow10(width)`,
/// without trailing zeros.
pub open spec fn fraction_digits(frac: nat, width: nat) -> Seq<char>
    decreases width,
{
    if width == 0 || frac == 0 {
        Seq::empty()
    } else {
        let unit = pow10((width - 1) as nat);
        seq![digit_char(frac / unit)] + fraction_digits(frac % unit, (width - 1) as nat)
    }
}

/// The decimal notation of `units` millionths: a minus sign if negative, the
/// whole part, and, unless the fraction is zero, a point and the fraction
/// without trailing zeros.
pub open spec fn number_text(units: int) -> Seq<char> {
    let m = magnitude(units);
    let sign = if units < 0 {
        seq!['-']
    } else {
        Seq::empty()
    };
    let fraction = if m % 1_000_000 == 0 {
        Seq::empty()
    } else {
        seq!['.'] + fraction_digits(m % 1_000_000, 6)
    };
    sign + decimal_digits(m / 1_000_000) + fraction
}

pub proof fn lemma_pow10_values()
    ensures
        pow10(0) == 1,
        pow10(1) == 10,
        pow10(2) == 100,
        pow10(3) == 1_000,
        pow10(4) == 10_000,
        pow10(5) == 100_000,
        pow10(6) == 1_000_000,
{
    reveal_with_fuel(pow10, 8);
}

/// Extending a sequence of digits never lowers the number it denotes.
pub proof fn lemma_digits_value_prefix(s: Seq<char>, k: int)
    requires
        0 <= k <= s.len(),
        all_digits(s),
    ensures
        digits_value(s.take(k)) <= digits_value(s),
    decreases s.len() - k,
{
    if k < s.len() {
        lemma_digits_value_prefix(s, k + 1);
        assert(s.take(k + 1).drop_last() =~= s.take(k));
    } else {
        assert(s.take(k) =~= s);
    }
}

proof fn lemma_point_position(t: Seq<char>, from: int)
    requires
        0 <= from <= t.len(),
    ensures
        from <= point_position(t, from) <= t.len(),
        forall|i: int| from <= i < point_position(t, from) ==> t[i] != '.',
        point_position(t, from) < t.len() ==> t[point_position(t, from)] == '.',
    decreases t.len() - from,
{
    if from < t.len() && t[from] != '.' {
        lemma_point_position(t, from + 1);
    }
}

proof fn lemma_point_found(t: Seq<char>, from: int, p: int)
    requires
        0 <= from <= p <= t.len(),
        forall|i: int| from <= i < p ==> t[i] != '.',
        p < t.len() ==> t[p] == '.',
    ensures
        point_position(t, from) == p,
    decreases p - from,
{
    if from < p {
        lemma_point_found(t, from + 1, p);
    }
}

impl Number {
    /// The number of `units` millionths.
    pub fn from_units(units: i64) -> (n: Number)
        ensures
            n.units == units,
    {
        Number { units }
    }

    /// The whole number `n`, if it is in range.
    pub fn from_whole(n: i64) -> (r: Result<Number, ArithmeticError>)
        ensures
            r == checked(n * SCALE),
    {
        let v: i128 = (n as i128) * 1_000_000i128;
        Self::narrow(v)
    }

    fn narrow(v: i128) -> (r: Result<Number, ArithmeticError>)
        ensures
            r == checked(v as int),
    {
        if v < -9_223_372_036_854_775_808i128 || v > 9_223_372_036_854_775_807i128 {
            Err(ArithmeticError::Overflow)
        } else {
            Ok(Number { units: v as i64 })
        }
    }

    fn magnitude_of(v: i64) -> (m: u128)
        ensures
            m == magnitude(v as int),
            m <= 0x8000_0000_0000_0000,
    {
        let w: i128 = v as i128;
        if w < 0 {
            (-w) as u128
        } else {
            w as u128
        }
    }

    fn signed(q: u128, negative: bool) -> (v: i128)
        requires
            q <= 0x4000_0000_0000_0000_0000_0000_0000_0000,
        ensures
            v == if negative {
                -(q as int)
            } else {
                q as int
            },
    {
        if negative {
            -(q as i128)
        } else {
            q as i128
        }
    }

    /// `self + other`.
    pub fn plus(self, other: Number) -> (r: Result<Number, ArithmeticError>)
        ensures
            r == sum_of(self, other),
    {
        Self::narrow(self.units as i128 + other.units as i128)
    }

    /// `self - other`.
    pub fn minus(self, other: Number) -> (r: Result<Number, ArithmeticError>)
        ensures
            r == difference_of(self, other),
    {
        Self::narrow(self.units as i128 - other.units as i128)
    }

    /// `-self`.
    pub fn negated(self) -> (r: Result<Number, ArithmeticError>)
        ensures
            r == negation_of(self),
    {
        Self::narrow(-(self.units as i128))
    }

    /// `self * other`, rounded toward zero.
    pub fn times(self, other: Number) -> (r: Result<Number, ArithmeticError>)
        ensures
            r == product_of(self, other),
    {
        let a: u128 = Self::magnitude_of(self.units);
        let b: u128 = Self::magnitude_of(other.units);
        assert(a * b <= 0x4000_0000_0000_0000_0000_0000_0000_0000) by (nonlinear_arith)
            requires
                a <= 0x8000_0000_0000_0000,
                b <= 0x8000_0000_0000_0000,
        ;
        let p: u128 = a * b;
        let q: u128 = p / 1_000_000u128;
        let negative: bool = (self.units < 0) != (other.units < 0);
        proof {
            let x = self.units as int;
            let y = other.units as int;
            assert(magnitude(x * y) == a * b && ((x * y < 0) == (negative && x * y != 0)))
                by (nonlinear_arith)
                requires
                    a == magnitude(x),
                    b == magnitude(y),
                    negative == ((x < 0) != (y < 0)),
            ;
        }
        Self::narrow(Self::signed(q, negative))
    }

    /// `self / other`, rounded toward zero.
    pub fn divided_by(self, other: Number) -> (r: Result<Number, ArithmeticError>)
        ensures
            r == quotient_of(self, other),
    {
        if other.units == 0 {
            return Err(ArithmeticError::DivisionByZero);
        }
        let a: u128 = Self::magnitude_of(self.units);
        let b: u128 = Self::magnitude_of(other.units);
        let n: u128 = a * 1_000_000u128;
        let q: u128 = n / b;
        let negative: bool = (self.units < 0) != (other.units < 0);
        proof {
            let x = self.units as int;
            assert(magnitude(x * 1_000_000) == a * 1_000_000 && ((x * 1_000_000 < 0) == (x < 0)))
                by (nonlinear_arith)
                requires
                    a == magnitude(x),
            ;
            assert(n / b <= n) by (nonlinear_arith)
                requires
                    b >= 1,
                    n >= 0,
            ;
        }
        Self::narrow(Self::signed(q, negative))
    }

    /// Whether `self` is less than `other`.
    pub fn less_than(self, other: Number) -> (b: bool)
        ensures
            b == (self.units < other.units),
    {
        self.units < other.units
    }

    /// The offset of the first decimal point from `start` up to `end`, or
    /// `end` if there is none.
    fn point_index(chars: &Vec<char>, start: usize, end: usize) -> (p: usize)
        requires
            start <= end <= chars.len(),
        ensures
            start <= p <= end,
            p - start == point_position(chars@.subrange(start as int, end as int), 0),
    {
        let ghost t = chars@.subrange(start as int, end as int);
        let mut p: usize = start;
        while p < end && chars[p] != '.'
            invariant
                start <= p <= end <= chars.len(),
                t == chars@.subrange(start as int, end as int),
                forall|i: int| 0 <= i < p - start ==> t[i] != '.',
            decreases end - p,
        {
            p += 1;
        }
        proof {
            lemma_point_found(t, 0, p - start);
        }
        p
    }

    /// Whether the characters from `from` up to `to` are all digits.
    fn digits_only(chars: &Vec<char>, from: usize, to: usize) -> (b: bool)
        requires
            from <= to <= chars.len(),
        ensures
            b == all_digits(chars@.subrange(from as int, to as int)),
    {
        let ghost t = chars@.subrange(from as int, to as int);
        let mut i: usize = from;
        while i < to
            invariant
                from <= i <= to <= chars.len(),
                t == chars@.subrange(from as int, to as int),
                forall|j: int| 0 <= j < i - from ==> is_digit_char(#[trigger] t[j]),
            decreases to - i,
        {
            if !is_digit(chars[i]) {
                assert(!is_digit_char(t[i - from]));
                return false;
            }
            i += 1;
        }
        true
    }

    /// The number that the digits from `from` up to `to` denote, unless it is
    /// above `MAX_WHOLE`.
    fn whole_value(chars: &Vec<char>, from: usize, to: usize) -> (r: Option<u64>)
        requires
            from <= to <= chars.len(),
            all_digits(chars@.subrange(from as int, to as int)),
        ensures
            match r {
                Some(w) => w == digits_value(chars@.subrange(from as int, to as int)) && w
                    <= MAX_WHOLE,
                None => digits_value(chars@.subrange(from as int, to as int)) > MAX_WHOLE,
            },
    {
        let ghost t = chars@.subrange(from as int, to as int);
        let mut w: u64 = 0;
        let mut k: usize = from;
        while k < to
            invariant
                from <= k <= to <= chars.len(),
                t == chars@.subrange(from as int, to as int),
                all_digits(t),
                w == digits_value(t.take(k - from)),
                w <= MAX_WHOLE,
            decreases to - k,
        {
            proof {
                assert(is_digit_char(t[k - from]));
                assert(t.take(k - from + 1).drop_last() =~= t.take(k - from));
            }
            let d: u8 = char_to_digit(chars[k]);
            if w > (MAX_WHOLE - d as u64) / 10 {
                proof {
                    lemma_digits_value_prefix(t, k - from + 1);
                }
                return None;
            }
            w = w * 10 + d as u64;
            k += 1;
        }
        assert(t.take(to - from) =~= t);
        Some(w)
    }

    /// The millionths that the digits from `from` up to `to` denote when they
    /// follow the decimal point.
    fn fraction_value(chars: &Vec<char>, from: usize, to: usize) -> (f: u64)
        requires
            from <= to <= chars.len(),
            all_digits(chars@.subrange(from as int, to as int)),
        ensures
            f == fraction_units(chars@.subrange(from as int, to as int)),
            f < 1_000_000,
    {
        let ghost t = chars@.subrange(from as int, to as int);
        let mut f: u64 = 0;
        let mut n: usize = 0;
        proof {
            lemma_pow10_values();
        }
        while n < 6 && from + n < to
            invariant
                from <= to <= chars.len(),
                t == chars@.subrange(from as int, to as int),
                all_digits(t),
                n <= 6,
                n <= t.len(),
                f == digits_value(t.take(n as int)),
                f < pow10(n as nat),
                pow10(n as nat) <= 1_000_000,
            decreases 6 - n,
        {
            proof {
                assert(is_digit_char(t[n as int]));
                assert(t.take(n + 1).drop_last() =~= t.take(n as int));
                lemma_pow10_values();
                reveal_with_fuel(pow10, 2);
            }
            let d: u8 = char_to_digit(chars[from + n]);
            f = f * 10 + d as u64;
            n += 1;
        }
        let ghost m = n;
        let ghost kept = digits_value(t.take(m as int));
        let mut j: usize = n;
        proof {
            assert(kept * pow10(0) == kept) by (nonlinear_arith)
                requires
                    pow10(0) == 1,
            ;
        }
        while j < 6
            invariant
                m <= j <= 6,
                f == kept * pow10((j - m) as nat),
                f < pow10(j as nat),
                pow10(j as nat) <= 1_000_000,
            decreases 6 - j,
        {
            proof {
                lemma_pow10_values();
                reveal_with_fuel(pow10, 2);
                assert(kept * pow10((j + 1 - m) as nat) == kept * pow10((j - m) as nat) * 10)
                    by (nonlinear_arith)
                    requires
                        pow10((j + 1 - m) as nat) == 10 * pow10((j - m) as nat),
                ;
            }
            f = f * 10;
            j += 1;
        }
        proof {
            lemma_pow10_values();
            if t.len() < 6 {
                assert(m == t.len());
                assert(t.take(m as int) =~= t);
            } else {
                assert(m == 6);
            }
        }
        f
    }

    /// Reads the numeral that `chars` holds from `start` up to `end`.
    pub fn parse(chars: &Vec<char>, start: usize, end: usize) -> (r: Result<Number, NumeralError>)
        requires
            start <= end <= chars.len(),
        ensures
            r == numeral_value(chars@.subrange(start as int, end as int)),
    {
        let ghost t = chars@.subrange(start as int, end as int);
        let p: usize = Self::point_index(chars, start, end);
        let frac_start: usize = if p < end {
            p + 1
        } else {
            end
        };
        assert(whole_part(t) =~= chars@.subrange(start as int, p as int));
        assert(fraction_part(t) =~= chars@.subrange(frac_start as int, end as int));
        if p == start || !Self::digits_only(chars, start, p) || !Self::digits_only(
            chars,
            frac_start,
            end,
        ) {
            return Err(NumeralError::Malformed);
        }
        let f: u64 = Self::fraction_value(chars, frac_start, end);
        match Self::whole_value(chars, start, p) {
            None => Err(NumeralError::OutOfRange),
            Some(w) => {
                if w == MAX_WHOLE && f > 775_807 {
                    Err(NumeralError::OutOfRange)
                } else {
                    let units: u64 = w * 1_000_000 + f;
                    Ok(Number { units: units as i64 })
                }
            },
        }
    }

    /// Appends the decimal notation of the number to `out`.
    pub fn push_text(self, out: &mut Vec<char>)
        ensures
            final(out)@ == old(out)@ + number_text(self.units as int),
    {
        let ghost before = out@;
        let m: u128 = Self::magnitude_of(self.units);
        if self.units < 0 {
            out.push('-');
        }
        let whole: u64 = (m / 1_000_000u128) as u64;
        let mut frac: u64 = (m % 1_000_000u128) as u64;
        push_decimal(whole, out);
        let ghost head = out@;
        let ghost frac0 = frac;
        if frac != 0 {
            out.push('.');
            let mut unit: u64 = 100_000;
            let mut width: usize = 6;
            proof {
                lemma_pow10_values();
            }
            while width > 0 && frac != 0
                invariant
                    width <= 6,
                    width > 0 ==> unit == pow10((width - 1) as nat),
                    frac < pow10(width as nat),
                    out@ + fraction_digits(frac as nat, width as nat) == head + seq!['.']
                        + fraction_digits(frac0 as nat, 6),
                decreases width,
            {
                let d: u8 = (frac / unit) as u8;
                proof {
                    lemma_pow10_values();
                    reveal_with_fuel(pow10, 2);
                    assert(frac / unit < 10) by (nonlinear_arith)
                        requires
                            frac < 10 * unit,
                            unit > 0,
                    ;
                    assert(out@.push(digit_char(d as nat)) + fraction_digits(
                        (frac % unit) as nat,
                        (width - 1) as nat,
                    ) =~= out@ + fraction_digits(frac as nat, width as nat));
                }
                out.push(digit_to_char(d));
                frac = frac % unit;
                width -= 1;
                if width > 0 {
                    unit = unit / 10;
                }
            }
            assert(out@ =~= head + seq!['.'] + fraction_digits(frac0 as nat, 6));
        }
        assert(out@ =~= before + number_text(self.units as int));
    }
}

/// A text with two decimal points is no numeral.
pub proof fn lemma_two_points_malformed(t: Seq<char>, a: int, b: int)
    requires
        0 <= a < b < t.len(),
        t[a] == '.',
        t[b] == '.',
    ensures
        numeral_value(t) == Err::<Number, NumeralError>(NumeralError::Malformed),
{
    lemma_point_position(t, 0);
    let p = point_position(t, 0);
    assert(p <= a);
    let frac = fraction_part(t);
    assert(frac[b - p - 1] == t[b]);
    assert(!is_digit_char(frac[b - p - 1]));
}

/// Digits, then at most one decimal point and digits after it, are a numeral.
pub proof fn lemma_numeral_shape(whole: Seq<char>, frac: Seq<char>)
    requires
        whole.len() > 0,
        all_digits(whole),
        all_digits(frac),
    ensures
        is_numeral(whole),
        is_numeral(whole + seq!['.'] + frac),
{
    let t = whole + seq!['.'] + frac;
    assert forall|i: int| 0 <= i < whole.len() implies whole[i] != '.' by {
        assert(is_digit_char(whole[i]));
    }
    lemma_point_found(whole, 0, whole.len() as int);
    assert(whole_part(whole) =~= whole);
    assert(fraction_part(whole) =~= Seq::<char>::empty());
    assert forall|i: int| 0 <= i < whole.len() implies t[i] != '.' by {
        assert(t[i] == whole[i]);
    }
    lemma_point_found(t, 0, whole.len() as int);
    assert(whole_part(t) =~= whole);
    assert(fraction_part(t) =~= frac);
}

} // verus!
