//! Fixed-point decimal quantities and the constraints asset definitions put on them.

use vstd::prelude::*;
use vstd::string::*;
use crate::name::{find_last, last_at, lemma_last_at_unique, split_last};
use crate::text::{all_digits, chars_of, decimal, digit_char, digit_of, digit_value, digits_value, is_digit, lemma_digits_grow, write_decimal};

verus! {

/// Largest number of fractional decimal digits a [`Numeric`] may carry.
pub const MAX_SCALE: u32 = 38;

/// `10^n`.
pub open spec fn pow10(n: nat) -> nat
    decreases n,
{
    if n == 0 {
        1
    } else {
        10 * pow10((n - 1) as nat)
    }
}

/// `10^(a + b) == 10^a * 10^b`.
pub proof fn lemma_pow10_add(a: nat, b: nat)
    ensures
        pow10(a + b) == pow10(a) * pow10(b),
    decreases a,
{
    if a == 0 {
        assert(pow10(0) == 1);
        assert(pow10(a + b) == pow10(b));
    } else {
        lemma_pow10_add((a - 1) as nat, b);
        assert(pow10(a + b) == 10 * pow10((a + b - 1) as nat));
        assert(pow10(a) == 10 * pow10((a - 1) as nat));
        assert(10 * (pow10((a - 1) as nat) * pow10(b)) == (10 * pow10((a - 1) as nat)) * pow10(b))
            by (nonlinear_arith);
    }
}

/// Powers of ten are positive.
pub proof fn lemma_pow10_positive(n: nat)
    ensures
        pow10(n) >= 1,
    decreases n,
{
    if n > 0 {
        lemma_pow10_positive((n - 1) as nat);
    }
}

/// A non-negative decimal number `mantissa / 10^scale`.
///
/// Equality is equality of representation: `1.0` and `1` hold the same
/// [`units`](Numeric::units) but are different values.
#[derive(Clone, Copy, Debug, PartialEq, Eq, Structural)]
pub struct Numeric {
    pub mantissa: u128,
    pub scale: u32,
}

/// Why a mantissa and scale do not make a [`Numeric`].
#[derive(Clone, Copy, Debug, PartialEq, Eq, Structural)]
pub enum NumericError {
    /// The scale exceeds [`MAX_SCALE`].
    ScaleTooBig,
}

impl Numeric {
    /// The scale is within bounds.
    pub open spec fn wf(self) -> bool {
        self.scale <= MAX_SCALE
    }

    /// The value counted in units of `10^-38`, the finest grain any
    /// well-formed `Numeric` can express. Sums and differences of quantities
    /// are sums and differences of their units.
    pub open spec fn units(self) -> nat {
        self.mantissa as nat * pow10((MAX_SCALE - self.scale) as nat)
    }

    /// The mantissa of `self` re-expressed at `scale`, as an unbounded integer.
    pub open spec fn mantissa_at(self, scale: u32) -> nat {
        self.mantissa as nat * pow10((scale - self.scale) as nat)
    }

    /// The sum at the larger of the two scales, when its mantissa fits.
    pub open spec fn add_spec(self, rhs: Numeric) -> Option<Numeric> {
        let scale = if self.scale >= rhs.scale { self.scale } else { rhs.scale };
        let sum = self.mantissa_at(scale) + rhs.mantissa_at(scale);
        if sum <= u128::MAX {
            Some(Numeric { mantissa: sum as u128, scale })
        } else {
            None
        }
    }

    /// The difference at the larger of the two scales, when `self` can be
    /// expressed at that scale and is at least `rhs`.
    pub open spec fn sub_spec(self, rhs: Numeric) -> Option<Numeric> {
        let scale = if self.scale >= rhs.scale { self.scale } else { rhs.scale };
        let a = self.mantissa_at(scale);
        let b = rhs.mantissa_at(scale);
        if a <= u128::MAX && b <= a {
            Some(Numeric { mantissa: (a - b) as u128, scale })
        } else {
            None
        }
    }

    /// Zero with scale zero.
    pub fn zero() -> (r: Numeric)
        ensures
            r == (Numeric { mantissa: 0, scale: 0 }),
            r.wf(),
            r.units() == 0,
    {
        Numeric { mantissa: 0, scale: 0 }
    }

    /// `mantissa / 10^scale`.
    pub fn new(mantissa: u128, scale: u32) -> (r: Numeric)
        requires
            scale <= MAX_SCALE,
        ensures
            r == (Numeric { mantissa, scale }),
            r.wf(),
    {
        Numeric { mantissa, scale }
    }

    /// `mantissa / 10^scale`, or an error when the scale is out of bounds.
    pub fn try_new(mantissa: u128, scale: u32) -> (r: Result<Numeric, NumericError>)
        ensures
            scale <= MAX_SCALE ==> r == Ok::<Numeric, NumericError>(Numeric { mantissa, scale }),
            scale > MAX_SCALE ==> r == Err::<Numeric, NumericError>(NumericError::ScaleTooBig),
    {
        if scale <= MAX_SCALE {
            Ok(Numeric { mantissa, scale })
        } else {
            Err(NumericError::ScaleTooBig)
        }
    }

    pub fn mantissa(&self) -> (m: u128)
        ensures
            m == self.mantissa,
    {
        self.mantissa
    }

    pub fn scale(&self) -> (s: u32)
        ensures
            s == self.scale,
    {
        self.scale
    }

    /// Whether the value is zero, at whatever scale.
    pub fn is_zero(&self) -> (z: bool)
        ensures
            z == (self.mantissa == 0),
            z == (self.units() == 0),
    {
        proof {
            lemma_pow10_positive((MAX_SCALE - self.scale) as nat);
            lemma_units_zero(*self);
        }
        self.mantissa == 0
    }

    /// `self + rhs`, or `None` when the sum cannot be represented.
    pub fn checked_add(self, rhs: Numeric) -> (r: Option<Numeric>)
        ensures
            r == self.add_spec(rhs),
            self.wf() && rhs.wf() && r is Some ==> r->0.wf() && r->0.units() == self.units()
                + rhs.units(),
    {
        let scale: u32 = if self.scale >= rhs.scale { self.scale } else { rhs.scale };
        proof {
            if self.wf() && rhs.wf() {
                lemma_add_units(self, rhs);
            }
        }
        let a = match rescale(self.mantissa, scale - self.scale) {
            Some(a) => a,
            None => { return None; },
        };
        let b = match rescale(rhs.mantissa, scale - rhs.scale) {
            Some(b) => b,
            None => { return None; },
        };
        match a.checked_add(b) {
            Some(sum) => Some(Numeric { mantissa: sum, scale }),
            None => None,
        }
    }

    /// `self - rhs`, or `None` when `rhs` exceeds `self` or the difference
    /// cannot be represented.
    pub fn checked_sub(self, rhs: Numeric) -> (r: Option<Numeric>)
        ensures
            r == self.sub_spec(rhs),
            self.wf() && rhs.wf() && r is Some ==> r->0.wf() && r->0.units() == self.units()
                - rhs.units(),
    {
        let scale: u32 = if self.scale >= rhs.scale { self.scale } else { rhs.scale };
        proof {
            if self.wf() && rhs.wf() {
                lemma_sub_units(self, rhs);
            }
        }
        let a = match rescale(self.mantissa, scale - self.scale) {
            Some(a) => a,
            None => { return None; },
        };
        let b = match rescale(rhs.mantissa, scale - rhs.scale) {
            Some(b) => b,
            None => { return None; },
        };
        if b <= a {
            Some(Numeric { mantissa: a - b, scale })
        } else {
            None
        }
    }
}

/// A quantity is zero exactly when its mantissa is.
pub proof fn lemma_units_zero(n: Numeric)
    ensures
        (n.units() == 0) == (n.mantissa == 0),
{
    let p = pow10((MAX_SCALE - n.scale) as nat);
    lemma_pow10_positive((MAX_SCALE - n.scale) as nat);
    assert((n.mantissa as nat * p == 0) == (n.mantissa == 0)) by (nonlinear_arith)
        requires
            p >= 1,
    ;
}

/// The units of a quantity, from its mantissa at a coarser-or-equal scale.
proof fn lemma_units_at(n: Numeric, scale: u32)
    requires
        n.scale <= scale <= MAX_SCALE,
    ensures
        n.units() == n.mantissa_at(scale) * pow10((MAX_SCALE - scale) as nat),
{
    let d = (scale - n.scale) as nat;
    let e = (MAX_SCALE - scale) as nat;
    lemma_pow10_add(d, e);
    assert(d + e == (MAX_SCALE - n.scale) as nat);
    assert(n.mantissa as nat * (pow10(d) * pow10(e)) == (n.mantissa as nat * pow10(d)) * pow10(e))
        by (nonlinear_arith);
}

/// A representable sum holds the units of both operands.
pub proof fn lemma_add_units(a: Numeric, b: Numeric)
    requires
        a.wf(),
        b.wf(),
    ensures
        a.add_spec(b) is Some ==> a.add_spec(b)->0.wf() && a.add_spec(b)->0.units() == a.units()
            + b.units(),
{
    let scale = if a.scale >= b.scale { a.scale } else { b.scale };
    lemma_units_at(a, scale);
    lemma_units_at(b, scale);
    let p = pow10((MAX_SCALE - scale) as nat);
    let x = a.mantissa_at(scale);
    let y = b.mantissa_at(scale);
    assert((x + y) * p == x * p + y * p) by (nonlinear_arith);
}

/// A representable difference holds the units of the minuend less those of
/// the subtrahend.
pub proof fn lemma_sub_units(a: Numeric, b: Numeric)
    requires
        a.wf(),
        b.wf(),
    ensures
        a.sub_spec(b) is Some ==> a.sub_spec(b)->0.wf() && a.sub_spec(b)->0.units() == a.units()
            - b.units() && b.units() <= a.units(),
{
    let scale = if a.scale >= b.scale { a.scale } else { b.scale };
    lemma_units_at(a, scale);
    lemma_units_at(b, scale);
    let p = pow10((MAX_SCALE - scale) as nat);
    let x = a.mantissa_at(scale);
    let y = b.mantissa_at(scale);
    if y <= x {
        assert((x - y) * p == x * p - y * p) by (nonlinear_arith);
        assert(y * p <= x * p) by (nonlinear_arith)
            requires
                y <= x,
        ;
    }
}

/// `m * 10^digits`, or `None` when that exceeds `u128`.
fn rescale(m: u128, digits: u32) -> (r: Option<u128>)
    ensures
        m * pow10(digits as nat) <= u128::MAX ==> r == Some((m * pow10(digits as nat)) as u128),
        m * pow10(digits as nat) > u128::MAX ==> r is None,
{
    if m == 0 {
        proof {
            assert(0 * pow10(digits as nat) == 0) by (nonlinear_arith);
        }
        return Some(0);
    }
    let mut cur: u128 = m;
    let mut i: u32 = 0;
    proof {
        assert(pow10(0) == 1);
        assert(m * 1 == m);
    }
    while i < digits
        invariant
            i <= digits,
            cur == m * pow10(i as nat),
        decreases digits - i,
    {
        proof {
            assert(pow10((i + 1) as nat) == 10 * pow10(i as nat));
            assert(m * (10 * pow10(i as nat)) == (m * pow10(i as nat)) * 10) by (nonlinear_arith);
        }
        match cur.checked_mul(10) {
            Some(next) => {
                cur = next;
            },
            None => {
                proof {
                    let rest = (digits - (i + 1)) as nat;
                    lemma_pow10_add((i + 1) as nat, rest);
                    lemma_pow10_positive(rest);
                    let q = m * pow10((i + 1) as nat);
                    let p = pow10(rest);
                    assert(q * p >= q) by (nonlinear_arith)
                        requires
                            p >= 1,
                            q >= 0,
                    ;
                    let t = pow10((i + 1) as nat);
                    assert(m * (t * p) == q * p) by (nonlinear_arith)
                        requires
                            q == m * t,
                    ;
                    assert((i + 1) as nat + rest == digits as nat);
                }
                return None;
            },
        }
        i = i + 1;
    }
    Some(cur)
}

/// The constraint an asset definition puts on the quantities of its assets.
#[derive(Clone, Copy, Debug, PartialEq, Eq, Structural)]
pub enum NumericSpec {
    /// Any quantity is accepted.
    Unconstrained,
    /// Quantities with at most this many fractional digits are accepted.
    Fractional(u32),
}

/// A quantity has more fractional digits than a [`NumericSpec`] admits.
#[derive(Clone, Copy, Debug, PartialEq, Eq, Structural)]
pub struct NumericSpecError;

impl NumericSpec {
    /// Whether `numeric` meets this constraint.
    pub open spec fn admits(self, numeric: Numeric) -> bool {
        match self {
            NumericSpec::Unconstrained => true,
            NumericSpec::Fractional(scale_max) => numeric.scale <= scale_max,
        }
    }

    pub fn unconstrained() -> (r: NumericSpec)
        ensures
            r == NumericSpec::Unconstrained,
    {
        NumericSpec::Unconstrained
    }

    /// Whole numbers only.
    pub fn integer() -> (r: NumericSpec)
        ensures
            r == NumericSpec::Fractional(0),
    {
        NumericSpec::Fractional(0)
    }

    pub fn fractional(scale_max: u32) -> (r: NumericSpec)
        ensures
            r == NumericSpec::Fractional(scale_max),
    {
        NumericSpec::Fractional(scale_max)
    }

    /// Accepts `numeric` exactly when its scale is within the constraint.
    pub fn check(self, numeric: &Numeric) -> (r: Result<(), NumericSpecError>)
        ensures
            r is Ok == self.admits(*numeric),
    {
        match self {
            NumericSpec::Unconstrained => Ok(()),
            NumericSpec::Fractional(scale_max) => {
                if numeric.scale <= scale_max {
                    Ok(())
                } else {
                    Err(NumericSpecError)
                }
            },
        }
    }
}

impl Default for NumericSpec {
    fn default() -> (r: NumericSpec)
        ensures
            r == NumericSpec::Unconstrained,
    {
        NumericSpec::Unconstrained
    }
}

/// The quantity that a text writes: decimal digits, or decimal digits, a
/// point and decimal digits, at least one on each side. The digits after
/// the point, at most 38, give the scale; all digits together, which must
/// fit, give the mantissa. Nothing where the text is not of this form.
pub open spec fn parse_numeric(s: Seq<char>) -> Option<Numeric> {
    let (whole, fraction) = match split_last(s, '.') {
        Some((whole, fraction)) => (whole, fraction),
        None => (s, Seq::<char>::empty()),
    };
    if whole.len() > 0 && all_digits(whole) && all_digits(fraction) && (split_last(s, '.') is Some
        ==> fraction.len() > 0) && fraction.len() <= MAX_SCALE && digits_value(whole + fraction)
        <= u128::MAX {
        Some(Numeric { mantissa: digits_value(whole + fraction) as u128, scale: fraction.len() as u32 })
    } else {
        None
    }
}

/// `digits` with zeros put before them until they are `width` long.
pub open spec fn zero_padded(digits: Seq<char>, width: nat) -> Seq<char>
    decreases width - digits.len(),
{
    if digits.len() >= width {
        digits
    } else {
        zero_padded(seq!['0'] + digits, width)
    }
}

impl Numeric {
    /// The quantity in decimal digits: the mantissa, with zeros before it
    /// where it is short, and a point before its last `scale` digits where
    /// the scale is not zero.
    pub open spec fn text(self) -> Seq<char> {
        let digits = zero_padded(decimal(self.mantissa as nat), (self.scale + 1) as nat);
        if self.scale == 0 {
            digits
        } else {
            digits.subrange(0, digits.len() - self.scale) + seq!['.'] + digits.subrange(
                digits.len() - self.scale,
                digits.len() as int,
            )
        }
    }

    /// Reads a quantity.
    pub fn from_str(s: &str) -> (r: Option<Numeric>)
        ensures
            r == parse_numeric(s@),
            r is Some ==> r->0.wf(),
    {
        let chars = chars_of(s);
        let n = chars.len();
        let point = find_last(&chars, '.');
        let whole_len: usize = match point {
            Some(i) => i,
            None => n,
        };
        let ghost whole = chars@.subrange(0, whole_len as int);
        let ghost fraction = match point {
            Some(i) => chars@.subrange(i + 1, n as int),
            None => Seq::<char>::empty(),
        };
        let ghost all = whole + fraction;
        proof {
            if point is None {
                assert(whole =~= chars@);
            }
        }
        if whole_len == 0 {
            return None;
        }
        let fraction_len: usize = match point {
            Some(i) => n - i - 1,
            None => 0,
        };
        if point.is_some() && fraction_len == 0 {
            return None;
        }
        let mut mantissa: u128 = 0;
        let mut k: usize = 0;
        let mut read: usize = 0;
        proof {
            assert(all.subrange(0, 0) =~= Seq::<char>::empty());
        }
        while k < n
            invariant
                k <= n,
                n == chars@.len(),
                chars@ == s@,
                match point {
                    Some(i) => split_last(s@, '.') == Some((whole, fraction)),
                    None => split_last(s@, '.') is None && whole == s@,
                },
                whole_len > 0,
                point is Some ==> fraction.len() > 0,
                whole_len <= n,
                whole == chars@.subrange(0, whole_len as int),
                point is Some ==> point->0 == whole_len && whole_len < n && fraction
                    == chars@.subrange(whole_len + 1, n as int),
                point is None ==> whole_len == n && fraction == Seq::<char>::empty(),
                all == whole + fraction,
                read == if k <= whole_len {
                    k as int
                } else {
                    k - 1
                },
                read <= all.len(),
                mantissa == digits_value(all.subrange(0, read as int)),
                forall|j: int| 0 <= j < read ==> is_digit_at(all, j),
            decreases n - k,
        {
            if point.is_some() && k == whole_len {
                k = k + 1;
            } else {
                let c = chars[k];
                proof {
                    assert(all[read as int] == c);
                    assert(all.subrange(0, read + 1).drop_last() =~= all.subrange(0, read as int));
                    assert(all.subrange(0, read + 1).last() == c);
                }
                let d = match digit_of(c) {
                    Some(d) => d,
                    None => {
                        proof {
                            if read < whole.len() {
                                assert(whole[read as int] == c);
                            } else {
                                assert(fraction[read - whole.len()] == c);
                            }
                        }
                        return None;
                    },
                };
                let next = match mantissa.checked_mul(10) {
                    Some(tens) => tens.checked_add(d as u128),
                    None => None,
                };
                mantissa = match next {
                    Some(next) => next,
                    None => {
                        proof {
                            lemma_digits_grow(all, read + 1);
                            assert(digits_value(all.subrange(0, read + 1)) == mantissa * 10 + d);
                        }
                        return None;
                    },
                };
                read = read + 1;
                k = k + 1;
            }
        }
        proof {
            assert(all.subrange(0, read as int) =~= all);
            assert forall|j: int| 0 <= j < whole.len() implies crate::text::is_digit(
                #[trigger] whole[j],
            ) by {
                assert(is_digit_at(all, j));
            }
            assert forall|j: int| 0 <= j < fraction.len() implies crate::text::is_digit(
                #[trigger] fraction[j],
            ) by {
                assert(is_digit_at(all, whole.len() + j));
            }
        }
        if fraction_len > MAX_SCALE as usize {
            return None;
        }
        Some(Numeric { mantissa, scale: fraction_len as u32 })
    }

    /// The quantity in decimal digits.
    pub fn to_string(&self) -> (r: String)
        requires
            self.wf(),
        ensures
            r@ == self.text(),
    {
        let mut digits = String::new();
        write_decimal(self.mantissa, &mut digits);
        proof {
            assert(digits@ =~= decimal(self.mantissa as nat));
        }
        let mut length = digits.as_str().unicode_len();
        let width = self.scale as usize + 1;
        while length < width
            invariant
                length == digits@.len(),
                width == self.scale + 1,
                zero_padded(digits@, width as nat) == zero_padded(
                    decimal(self.mantissa as nat),
                    width as nat,
                ),
            decreases width - length,
        {
            let mut longer = String::from_str("0");
            proof {
                reveal_strlit("0");
                assert("0"@ =~= seq!['0']);
            }
            longer.append(digits.as_str());
            digits = longer;
            length = length + 1;
        }
        if self.scale == 0 {
            return digits;
        }
        let cut = length - self.scale as usize;
        let mut text = digits.as_str().substring_char(0, cut).to_owned();
        proof {
            reveal_strlit(".");
            assert("."@ =~= seq!['.']);
        }
        text.append(".");
        text.append(digits.as_str().substring_char(cut, length));
        text
    }
}

/// The character at position `j` of `s` is a decimal digit.
pub open spec fn is_digit_at(s: Seq<char>, j: int) -> bool {
    crate::text::is_digit(s[j])
}

/// The decimal digits of a number are digits, and write the number.
pub proof fn lemma_decimal_writes(n: nat)
    ensures
        all_digits(decimal(n)),
        digits_value(decimal(n)) == n,
        decimal(n).len() >= 1,
    decreases n,
{
    if n < 10 {
        assert(seq![digit_char(n)].drop_last() =~= Seq::<char>::empty());
        assert(digits_value(seq![digit_char(n)].drop_last()) == 0);
    } else {
        lemma_decimal_writes(n / 10);
        let init = decimal(n / 10);
        let last = digit_char(n % 10);
        assert(init.push(last).drop_last() =~= init);
        assert(digit_value(last) == n % 10);
        assert forall|i: int| 0 <= i < init.push(last).len() implies is_digit(
            #[trigger] init.push(last)[i],
        ) by {
            if i < init.len() {
                assert(init.push(last)[i] == init[i]);
            }
        }
    }
}

/// A zero before digits does not change what they write.
proof fn lemma_leading_zero(digits: Seq<char>)
    ensures
        digits_value(seq!['0'] + digits) == digits_value(digits),
    decreases digits.len(),
{
    let longer = seq!['0'] + digits;
    if digits.len() == 0 {
        assert(longer.drop_last() =~= Seq::<char>::empty());
        assert(digits_value(longer.drop_last()) == 0);
    } else {
        lemma_leading_zero(digits.drop_last());
        assert(longer.drop_last() =~= seq!['0'] + digits.drop_last());
        assert(longer.last() == digits.last());
    }
}

/// Digits with zeros put before them are digits, write the same number,
/// and are as long as asked for where they were shorter.
proof fn lemma_zero_padded(digits: Seq<char>, width: nat)
    requires
        all_digits(digits),
    ensures
        all_digits(zero_padded(digits, width)),
        digits_value(zero_padded(digits, width)) == digits_value(digits),
        zero_padded(digits, width).len() == if digits.len() >= width {
            digits.len()
        } else {
            width
        },
    decreases width - digits.len(),
{
    if digits.len() < width {
        let longer = seq!['0'] + digits;
        assert forall|i: int| 0 <= i < longer.len() implies is_digit(#[trigger] longer[i]) by {
            if i > 0 {
                assert(longer[i] == digits[i - 1]);
            }
        }
        lemma_leading_zero(digits);
        lemma_zero_padded(longer, width);
    }
}

/// The text of a quantity reads back as the quantity.
pub proof fn lemma_numeric_round_trip(n: Numeric)
    requires
        n.wf(),
    ensures
        parse_numeric(n.text()) == Some(n),
{
    let digits = zero_padded(decimal(n.mantissa as nat), (n.scale + 1) as nat);
    lemma_decimal_writes(n.mantissa as nat);
    lemma_zero_padded(decimal(n.mantissa as nat), (n.scale + 1) as nat);
    let text = n.text();
    if n.scale == 0 {
        assert(text == digits);
        assert forall|i: int| !last_at(text, '.', i) by {
            if 0 <= i < text.len() {
                assert(is_digit(text[i]));
            }
        }
        assert(split_last(text, '.') is None);
        assert(text + Seq::<char>::empty() =~= text);
    } else {
        let cut = digits.len() - n.scale;
        let whole = digits.subrange(0, cut);
        let fraction = digits.subrange(cut, digits.len() as int);
        assert(text =~= whole + seq!['.'] + fraction);
        assert(text[cut] == '.');
        assert forall|j: int| cut < j < text.len() implies #[trigger] text[j] != '.' by {
            assert(text[j] == fraction[j - cut - 1]);
            assert(fraction[j - cut - 1] == digits[j - 1]);
            assert(is_digit(digits[j - 1]));
        }
        assert(last_at(text, '.', cut));
        let w = choose|w: int| last_at(text, '.', w);
        lemma_last_at_unique(text, '.', cut, w);
        assert(text.subrange(0, cut) =~= whole);
        assert(text.subrange(cut + 1, text.len() as int) =~= fraction);
        assert(whole + fraction =~= digits);
        assert forall|i: int| 0 <= i < whole.len() implies is_digit(#[trigger] whole[i]) by {
            assert(whole[i] == digits[i]);
        }
        assert forall|i: int| 0 <= i < fraction.len() implies is_digit(#[trigger] fraction[i]) by {
            assert(fraction[i] == digits[cut + i]);
        }
    }
}

} // verus!
