//! Exact decimal numbers: a signed integer of at most 96 bits together with
//! the number of its digits that stand behind the decimal point.

use std::cmp::Ordering;
use std::str::FromStr;
use vstd::arithmetic::div_mod::{lemma_div_is_ordered_by_denominator, lemma_div_pos_is_pos};
use vstd::arithmetic::power::{lemma_pow1, lemma_pow_increases, pow};
use vstd::prelude::*;

verus! {

/// The largest number of fractional digits a [`Decimal`] can carry.
pub const MAX_SCALE: u32 = 28;

/// The largest magnitude of a [`Decimal`]'s digits: 2^96 - 1.
pub const MAX_MANTISSA: i128 = 79_228_162_514_264_337_593_543_950_335;

/// `rust_decimal::Error`, carried through as it comes; nothing is read from it.
#[verifier::external_type_specification]
#[verifier::external_body]
pub struct ExDecimalError(rust_decimal::Error);

/// A text was not a decimal number.
#[derive(Debug, Clone, Copy, PartialEq, Eq, Structural)]
pub struct ParseError;

/// The number `mantissa / 10^scale`.
#[derive(Clone, Copy, Debug)]
pub struct Decimal {
    mantissa: i128,
    scale: u32,
}

/// What `rust_decimal` reads out of a text, if it reads a number at all.
pub uninterp spec fn parsed_decimal(text: Seq<char>) -> Option<Decimal>;

/// What `rust_decimal` gives for `a - b`; `None` where it reports overflow.
pub uninterp spec fn decimal_difference(a: Decimal, b: Decimal) -> Option<Decimal>;

/// `m / p` rounded to the nearest integer, a tie going to the even neighbour.
pub open spec fn round_half_even(m: int, p: int) -> int
    recommends
        p > 0,
{
    let magnitude = if m < 0 { -m } else { m };
    let quotient = magnitude / p;
    let rest = magnitude % p;
    let rounded = if 2 * rest > p || (2 * rest == p && quotient % 2 == 1) {
        quotient + 1
    } else {
        quotient
    };
    if m < 0 { -rounded } else { rounded }
}

/// Whether `a - b` can be written with the larger of the two scales.
pub open spec fn difference_fits(a: Decimal, b: Decimal) -> bool {
    let scale = if a.spec_scale() >= b.spec_scale() { a.spec_scale() } else { b.spec_scale() };
    let exact = a.spec_mantissa() * pow(10, (scale - a.spec_scale()) as nat)
        - b.spec_mantissa() * pow(10, (scale - b.spec_scale()) as nat);
    -MAX_MANTISSA <= exact <= MAX_MANTISSA
}

/// `rust_decimal::Decimal::from_str`. Its result depends on the text alone and
/// is named `parsed_decimal`; nothing more is claimed of it.
#[verifier::external_body]
fn outside_from_str(text: &str) -> (r: Result<Decimal, rust_decimal::Error>)
    ensures
        match r {
            Ok(d) => parsed_decimal(text@) == Some(d),
            Err(_) => parsed_decimal(text@) is None,
        },
{
    match rust_decimal::Decimal::from_str(text) {
        Ok(d) => Ok(Decimal { mantissa: d.mantissa(), scale: d.scale() }),
        Err(e) => Err(e),
    }
}

/// `Ord::cmp` of `rust_decimal::Decimal`, which orders two decimals by the
/// numbers they stand for, whatever their scales.
#[verifier::external_body]
fn outside_order(a: &Decimal, b: &Decimal) -> (o: Ordering)
    ensures
        (o is Less) == (a.scaled() < b.scaled()),
        (o is Equal) == (a.scaled() == b.scaled()),
        (o is Greater) == (a.scaled() > b.scaled()),
{
    let left = rust_decimal::Decimal::from_i128_with_scale(a.mantissa, a.scale);
    let right = rust_decimal::Decimal::from_i128_with_scale(b.mantissa, b.scale);
    left.cmp(&right)
}

/// `rust_decimal::Decimal::checked_sub`. Its result is named
/// `decimal_difference`. Where the difference can be written with the larger
/// of the two scales the crate returns exactly that number; elsewhere it
/// rounds to fewer fractional digits or reports overflow.
#[verifier::external_body]
fn outside_checked_sub(a: &Decimal, b: &Decimal) -> (r: Option<Decimal>)
    ensures
        r == decimal_difference(*a, *b),
        difference_fits(*a, *b) ==> r is Some && r.unwrap().scaled() == a.scaled() - b.scaled(),
{
    let left = rust_decimal::Decimal::from_i128_with_scale(a.mantissa, a.scale);
    let right = rust_decimal::Decimal::from_i128_with_scale(b.mantissa, b.scale);
    match left.checked_sub(right) {
        Some(d) => Some(Decimal { mantissa: d.mantissa(), scale: d.scale() }),
        None => None,
    }
}

/// `rust_decimal::Decimal::round_dp`: a number with at most `dp` fractional
/// digits is returned as it is; any other is cut to `dp` digits, rounded to
/// the nearest, a tie going to the even neighbour.
#[verifier::external_body]
fn outside_round_dp(a: &Decimal, dp: u32) -> (r: Decimal)
    ensures
        r == a.rounded(dp),
{
    let d = rust_decimal::Decimal::from_i128_with_scale(a.mantissa, a.scale).round_dp(dp);
    Decimal { mantissa: d.mantissa(), scale: d.scale() }
}

impl Decimal {
    #[verifier::type_invariant]
    spec fn valid(self) -> bool {
        -MAX_MANTISSA <= self.mantissa <= MAX_MANTISSA && self.scale <= MAX_SCALE
    }

    /// The digits of the number, as a signed integer.
    pub closed spec fn spec_mantissa(self) -> int {
        self.mantissa as int
    }

    /// How many of the digits stand behind the decimal point.
    pub closed spec fn spec_scale(self) -> int {
        self.scale as int
    }

    /// Whether the number is one that an executable value can hold.
    pub open spec fn in_range(self) -> bool {
        -MAX_MANTISSA <= self.spec_mantissa() <= MAX_MANTISSA && 0 <= self.spec_scale() <= MAX_SCALE
    }

    /// The number in units of 10^-28, which is an integer for every scale.
    pub open spec fn scaled(self) -> int {
        self.spec_mantissa() * pow(10, (MAX_SCALE - self.spec_scale()) as nat)
    }

    /// The number cut to at most `dp` fractional digits, rounded half to even.
    pub closed spec fn rounded(self, dp: u32) -> Decimal {
        if self.scale <= dp {
            self
        } else {
            Decimal {
                mantissa: round_half_even(
                    self.mantissa as int,
                    pow(10, (self.scale - dp) as nat),
                ) as i128,
                scale: dp,
            }
        }
    }

    /// The decimal `mantissa / 10^scale`, if it is within range.
    pub fn try_new(mantissa: i128, scale: u32) -> (r: Option<Decimal>)
        ensures
            r is Some <==> -MAX_MANTISSA <= mantissa <= MAX_MANTISSA && scale <= MAX_SCALE,
            r is Some ==> r.unwrap().spec_mantissa() == mantissa && r.unwrap().spec_scale()
                == scale,
    {
        if -MAX_MANTISSA <= mantissa && mantissa <= MAX_MANTISSA && scale <= MAX_SCALE {
            Some(Decimal { mantissa, scale })
        } else {
            None
        }
    }

    /// Reads a decimal from its text.
    pub fn parse(text: &str) -> (r: Result<Decimal, ParseError>)
        ensures
            match r {
                Ok(d) => parsed_decimal(text@) == Some(d) && d.in_range(),
                Err(_) => parsed_decimal(text@) is None,
            },
    {
        match outside_from_str(text) {
            Ok(d) => {
                proof {
                    use_type_invariant(&d);
                }
                Ok(d)
            },
            Err(_) => Err(ParseError),
        }
    }

    /// The digits of the number, as a signed integer.
    pub fn mantissa(&self) -> (m: i128)
        ensures
            m == self.spec_mantissa(),
            self.in_range(),
    {
        proof {
            use_type_invariant(self);
        }
        self.mantissa
    }

    /// How many of the digits stand behind the decimal point.
    pub fn scale(&self) -> (s: u32)
        ensures
            s == self.spec_scale(),
            self.in_range(),
    {
        proof {
            use_type_invariant(self);
        }
        self.scale
    }

    /// Whether this number is smaller than `other`.
    pub fn is_less_than(&self, other: &Decimal) -> (r: bool)
        ensures
            r == (self.scaled() < other.scaled()),
    {
        match outside_order(self, other) {
            Ordering::Less => true,
            _ => false,
        }
    }

    /// Whether this number is larger than `other`.
    pub fn is_greater_than(&self, other: &Decimal) -> (r: bool)
        ensures
            r == (self.scaled() > other.scaled()),
    {
        match outside_order(self, other) {
            Ordering::Greater => true,
            _ => false,
        }
    }

    /// Whether both stand for the same number, whatever their scales.
    pub fn same_value(&self, other: &Decimal) -> (r: bool)
        ensures
            r == (self.scaled() == other.scaled()),
    {
        match outside_order(self, other) {
            Ordering::Equal => true,
            _ => false,
        }
    }

    /// `self - other`, or `None` on overflow.
    pub fn checked_sub(&self, other: &Decimal) -> (r: Option<Decimal>)
        ensures
            r == decimal_difference(*self, *other),
            r is Some ==> r.unwrap().in_range(),
            difference_fits(*self, *other) ==> r is Some && r.unwrap().scaled() == self.scaled()
                - other.scaled(),
    {
        let r = outside_checked_sub(self, other);
        proof {
            if let Some(d) = r {
                use_type_invariant(&d);
            }
        }
        r
    }

    /// The number cut to at most `dp` fractional digits: one that has no
    /// more is returned as it is, any other is rounded half to even.
    pub fn round_dp(&self, dp: u32) -> (r: Decimal)
        ensures
            r == self.rounded(dp),
            r.in_range(),
            self.spec_scale() <= dp ==> r == *self,
            self.spec_scale() > dp ==> r.spec_scale() == dp && r.spec_mantissa() == round_half_even(
                self.spec_mantissa(),
                pow(10, (self.spec_scale() - dp) as nat),
            ),
    {
        proof {
            use_type_invariant(self);
            self.lemma_rounded(dp);
        }
        outside_round_dp(self, dp)
    }
}

/// Two decimals are equal when they stand for the same number: 1.0 equals 1.00.
impl PartialEq for Decimal {
    fn eq(&self, other: &Decimal) -> (r: bool) {
        self.same_value(other)
    }
}

impl vstd::std_specs::cmp::PartialEqSpecImpl for Decimal {
    open spec fn obeys_eq_spec() -> bool {
        true
    }

    open spec fn eq_spec(&self, other: &Decimal) -> bool {
        self.scaled() == other.scaled()
    }
}

/// Cutting at least one digit off a number within range leaves it in range.
proof fn lemma_round_half_even_bound(m: int, k: nat)
    requires
        -MAX_MANTISSA <= m <= MAX_MANTISSA,
        k >= 1,
    ensures
        -MAX_MANTISSA <= round_half_even(m, pow(10, k)) <= MAX_MANTISSA,
{
    let p = pow(10, k);
    let magnitude = if m < 0 { -m } else { m };
    lemma_pow1(10);
    lemma_pow_increases(10, 1, k);
    lemma_div_is_ordered_by_denominator(magnitude, 10, p);
    lemma_div_pos_is_pos(magnitude, p);
    assert(magnitude / 10 <= 7_922_816_251_426_433_759_354_395_033);
}

impl Decimal {
    /// What rounding does to the digits and the scale of a number: one
    /// with at most `dp` fractional digits stays as it is, any other gets
    /// scale `dp` and its digits divided by the power of ten that the
    /// scale drops by, rounded half to even.
    pub proof fn lemma_rounded(self, dp: u32)
        requires
            self.in_range(),
        ensures
            self.rounded(dp).in_range(),
            self.spec_scale() <= dp ==> self.rounded(dp) == self,
            self.spec_scale() > dp ==> self.rounded(dp).spec_scale() == dp && self.rounded(
                dp,
            ).spec_mantissa() == round_half_even(
                self.spec_mantissa(),
                pow(10, (self.spec_scale() - dp) as nat),
            ),
    {
        if self.scale > dp {
            lemma_round_half_even_bound(self.mantissa as int, (self.scale - dp) as nat);
        }
    }

    /// Rounding a rounded number to the same number of digits changes nothing.
    pub proof fn lemma_rounded_idempotent(self, dp: u32)
        ensures
            self.rounded(dp).rounded(dp) == self.rounded(dp),
    {
    }
}

} // verus!
