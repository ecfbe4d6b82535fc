//! Exact base-ten numbers: a 96-bit signed mantissa over a power of ten.
//!
//! The arithmetic itself is `rust_decimal`'s. This module holds the value as
//! plain integers, calls `rust_decimal` behind a few trusted functions, and says
//! what each of them computes.
use crate::text::{digits, padded_digits};
use std::cmp::Ordering;
use vstd::prelude::*;

verus! {

/// The largest number of digits behind the decimal point.
pub const MAX_SCALE: u32 = 28;

/// The largest mantissa magnitude, `2^96 - 1`.
pub const MAX_MANTISSA: i128 = 79228162514264337593543950335;

/// Ten to the power `n`.
pub open spec fn pow10(n: nat) -> int
    decreases n,
{
    if n == 0 {
        1
    } else {
        10 * pow10((n - 1) as nat)
    }
}

/// Whether a mantissa and a scale make a number.
pub open spec fn representable(mantissa: int, scale: int) -> bool {
    -MAX_MANTISSA <= mantissa <= MAX_MANTISSA && 0 <= scale <= MAX_SCALE
}

/// A decimal number `mantissa / 10^scale`.
///
/// Two values may be the same number with different scales (`0.10` and `0.1`):
/// `==` and the ordering compare the numbers, the text keeps the scale.
#[derive(Clone, Copy, Debug)]
pub struct Decimal {
    mantissa: i128,
    scale: u32,
}

impl Decimal {
    pub closed spec fn spec_mantissa(&self) -> i128 {
        self.mantissa
    }

    pub closed spec fn spec_scale(&self) -> u32 {
        self.scale
    }

    /// The value whose mantissa and scale are the given ones.
    pub closed spec fn of_parts(mantissa: int, scale: int) -> Decimal {
        Decimal { mantissa: mantissa as i128, scale: scale as u32 }
    }

    /// The bounds that every value keeps.
    #[verifier::type_invariant]
    pub open spec fn wf(&self) -> bool {
        representable(self.spec_mantissa() as int, self.spec_scale() as int)
    }

    /// The number itself, counted in units of `10^-28`.
    pub open spec fn units(&self) -> int {
        self.spec_mantissa() * pow10((MAX_SCALE - self.spec_scale()) as nat)
    }

    /// The mantissa.
    #[verifier::when_used_as_spec(spec_mantissa)]
    pub fn mantissa(&self) -> (m: i128)
        ensures
            m == self.spec_mantissa(),
            -MAX_MANTISSA <= m <= MAX_MANTISSA,
    {
        proof {
            use_type_invariant(self);
        }
        self.mantissa
    }

    /// The number of digits behind the decimal point.
    #[verifier::when_used_as_spec(spec_scale)]
    pub fn scale(&self) -> (s: u32)
        ensures
            s == self.spec_scale(),
            s <= MAX_SCALE,
    {
        proof {
            use_type_invariant(self);
        }
        self.scale
    }
}

/// The parts of an optional number, as plain integers.
pub open spec fn parts_of(d: Option<Decimal>) -> Option<(int, int)> {
    match d {
        Some(d) => Some((d.mantissa() as int, d.scale() as int)),
        None => None,
    }
}

/// The optional number with the given parts.
pub open spec fn of_optional_parts(parts: Option<(int, int)>) -> Option<Decimal> {
    match parts {
        Some((mantissa, scale)) => Some(Decimal::of_parts(mantissa, scale)),
        None => None,
    }
}

/// What `rust_decimal`'s addition returns: the parts of the sum, or `None` on overflow.
pub uninterp spec fn decimal_sum(
    a_mantissa: int,
    a_scale: int,
    b_mantissa: int,
    b_scale: int,
) -> Option<(int, int)>;

/// What `rust_decimal`'s subtraction returns.
pub uninterp spec fn decimal_difference(
    a_mantissa: int,
    a_scale: int,
    b_mantissa: int,
    b_scale: int,
) -> Option<(int, int)>;

/// What `rust_decimal`'s multiplication returns.
pub uninterp spec fn decimal_product(
    a_mantissa: int,
    a_scale: int,
    b_mantissa: int,
    b_scale: int,
) -> Option<(int, int)>;

/// What `rust_decimal`'s division returns; `None` on overflow and on a zero divisor.
pub uninterp spec fn decimal_quotient(
    a_mantissa: int,
    a_scale: int,
    b_mantissa: int,
    b_scale: int,
) -> Option<(int, int)>;

/// The sum of two numbers, `None` where it does not fit.
pub open spec fn plus(a: Decimal, b: Decimal) -> Option<Decimal> {
    of_optional_parts(
        decimal_sum(a.mantissa() as int, a.scale() as int, b.mantissa() as int, b.scale() as int),
    )
}

/// The difference of two numbers, `None` where it does not fit.
pub open spec fn minus(a: Decimal, b: Decimal) -> Option<Decimal> {
    of_optional_parts(
        decimal_difference(
            a.mantissa() as int,
            a.scale() as int,
            b.mantissa() as int,
            b.scale() as int,
        ),
    )
}

/// The product of two numbers, `None` where it does not fit.
pub open spec fn times(a: Decimal, b: Decimal) -> Option<Decimal> {
    of_optional_parts(
        decimal_product(
            a.mantissa() as int,
            a.scale() as int,
            b.mantissa() as int,
            b.scale() as int,
        ),
    )
}

/// The quotient of two numbers, `None` where it does not fit or the divisor is zero.
pub open spec fn over(a: Decimal, b: Decimal) -> Option<Decimal> {
    of_optional_parts(
        decimal_quotient(
            a.mantissa() as int,
            a.scale() as int,
            b.mantissa() as int,
            b.scale() as int,
        ),
    )
}

/// The larger of two scales.
pub open spec fn common_scale(a: Decimal, b: Decimal) -> nat {
    if a.scale() >= b.scale() {
        a.scale() as nat
    } else {
        b.scale() as nat
    }
}

/// The mantissa that `d` has at a scale at least its own.
pub open spec fn mantissa_at(d: Decimal, scale: nat) -> int {
    d.mantissa() * pow10((scale - d.scale()) as nat)
}

/// Whether a magnitude fits a mantissa.
pub open spec fn fits(mantissa: int) -> bool {
    -MAX_MANTISSA <= mantissa <= MAX_MANTISSA
}

/// Whether two numbers add up without losing a digit: at their common scale both
/// of them and their sum fit a mantissa.
pub open spec fn adds_exactly(a: Decimal, b: Decimal) -> bool {
    let s = common_scale(a, b);
    &&& fits(mantissa_at(a, s))
    &&& fits(mantissa_at(b, s))
    &&& fits(mantissa_at(a, s) + mantissa_at(b, s))
}

/// Whether two numbers subtract without losing a digit.
pub open spec fn subtracts_exactly(a: Decimal, b: Decimal) -> bool {
    let s = common_scale(a, b);
    &&& fits(mantissa_at(a, s))
    &&& fits(mantissa_at(b, s))
    &&& fits(mantissa_at(a, s) - mantissa_at(b, s))
}

/// Whether two numbers multiply without losing a digit.
pub open spec fn multiplies_exactly(a: Decimal, b: Decimal) -> bool {
    fits(a.mantissa() * b.mantissa()) && a.scale() + b.scale() <= MAX_SCALE
}

/// Whether a quotient comes out even: the mantissas divide, or do so with at most
/// nine more digits and operands of ordinary size.
pub open spec fn divides_exactly(a: Decimal, b: Decimal) -> bool {
    &&& b.mantissa() != 0
    &&& divides_whole(a, b) || divides_in_nine_digits(a, b)
}

/// Whether the mantissas divide and the quotient fits one.
pub open spec fn divides_whole(a: Decimal, b: Decimal) -> bool {
    &&& a.mantissa() % b.mantissa() == 0
    &&& a.scale() >= b.scale() || fits(
        (a.mantissa() as int / b.mantissa() as int) * pow10((b.scale() - a.scale()) as nat),
    )
}

/// Whether the quotient of a dividend under `2^64` and a divisor under `2^32` needs
/// at most nine digits more than the operands have, and the scale has room for them.
pub open spec fn divides_in_nine_digits(a: Decimal, b: Decimal) -> bool {
    &&& -u64::MAX <= a.mantissa() <= u64::MAX
    &&& -u32::MAX <= b.mantissa() <= u32::MAX
    &&& b.scale() <= a.scale() <= b.scale() + MAX_SCALE - 9
    &&& (a.mantissa() * pow10(9)) % (b.mantissa() as int) == 0
}

/// `rust_decimal::Decimal::checked_add`. Claimed: the result depends on the two
/// operands alone; where no digit is lost it is the exact sum; the sum of two
/// numbers of one sign has that sign, and is zero only where both of them are; its
/// scale is at most the larger of theirs.
#[verifier::external_body]
fn rd_checked_add(a: Decimal, b: Decimal) -> (r: Option<Decimal>)
    ensures
        parts_of(r) == decimal_sum(
            a.mantissa() as int,
            a.scale() as int,
            b.mantissa() as int,
            b.scale() as int,
        ),
        adds_exactly(a, b) ==> r is Some && r->0.units() == a.units() + b.units(),
        r is Some && a.mantissa() >= 0 && b.mantissa() >= 0 ==> r->0.mantissa() >= 0,
        r is Some && a.mantissa() <= 0 && b.mantissa() <= 0 ==> r->0.mantissa() <= 0,
        r is Some && a.mantissa() >= 0 && b.mantissa() >= 0 && a.mantissa() + b.mantissa() > 0
            ==> r->0.mantissa() > 0,
        r is Some ==> r->0.scale() <= common_scale(a, b),
{
    let x = rust_decimal::Decimal::from_i128_with_scale(a.mantissa, a.scale);
    let y = rust_decimal::Decimal::from_i128_with_scale(b.mantissa, b.scale);
    match x.checked_add(y) {
        Some(z) => Some(Decimal { mantissa: z.mantissa(), scale: z.scale() }),
        None => None,
    }
}

/// `rust_decimal::Decimal::checked_sub`. Claimed: the result depends on the two
/// operands alone; where no digit is lost it is the exact difference; its scale is at
/// most the larger of theirs.
#[verifier::external_body]
fn rd_checked_sub(a: Decimal, b: Decimal) -> (r: Option<Decimal>)
    ensures
        parts_of(r) == decimal_difference(
            a.mantissa() as int,
            a.scale() as int,
            b.mantissa() as int,
            b.scale() as int,
        ),
        subtracts_exactly(a, b) ==> r is Some && r->0.units() == a.units() - b.units(),
        r is Some ==> r->0.scale() <= common_scale(a, b),
{
    let x = rust_decimal::Decimal::from_i128_with_scale(a.mantissa, a.scale);
    let y = rust_decimal::Decimal::from_i128_with_scale(b.mantissa, b.scale);
    match x.checked_sub(y) {
        Some(z) => Some(Decimal { mantissa: z.mantissa(), scale: z.scale() }),
        None => None,
    }
}

/// `rust_decimal::Decimal::checked_mul`. Claimed: the result depends on the two
/// operands alone; where no digit is lost it is the exact product; the product of
/// two numbers of one sign is not negative; its scale is at most the two scales together.
#[verifier::external_body]
fn rd_checked_mul(a: Decimal, b: Decimal) -> (r: Option<Decimal>)
    ensures
        parts_of(r) == decimal_product(
            a.mantissa() as int,
            a.scale() as int,
            b.mantissa() as int,
            b.scale() as int,
        ),
        multiplies_exactly(a, b) ==> r is Some && r->0.units() == a.mantissa() * b.mantissa()
            * pow10((MAX_SCALE - a.scale() - b.scale()) as nat),
        r is Some && a.mantissa() >= 0 && b.mantissa() >= 0 ==> r->0.mantissa() >= 0,
        r is Some && a.mantissa() <= 0 && b.mantissa() <= 0 ==> r->0.mantissa() >= 0,
        r is Some ==> r->0.scale() <= a.scale() + b.scale(),
{
    let x = rust_decimal::Decimal::from_i128_with_scale(a.mantissa, a.scale);
    let y = rust_decimal::Decimal::from_i128_with_scale(b.mantissa, b.scale);
    match x.checked_mul(y) {
        Some(z) => Some(Decimal { mantissa: z.mantissa(), scale: z.scale() }),
        None => None,
    }
}

/// `rust_decimal::Decimal::checked_div`. Claimed: the result depends on the two
/// operands alone; there is none for a zero divisor; the quotient has the sign of
/// its operands; one whole number over another that is at least as large lies
/// between zero and one; a quotient that comes out even is exact, with at most nine digits
/// more than the dividend.
#[verifier::external_body]
fn rd_checked_div(a: Decimal, b: Decimal) -> (r: Option<Decimal>)
    ensures
        parts_of(r) == decimal_quotient(
            a.mantissa() as int,
            a.scale() as int,
            b.mantissa() as int,
            b.scale() as int,
        ),
        b.mantissa() == 0 ==> r is None,
        r is Some && a.mantissa() >= 0 && b.mantissa() > 0 ==> r->0.mantissa() >= 0,
        r is Some && a.mantissa() <= 0 && b.mantissa() > 0 ==> r->0.mantissa() <= 0,
        a.scale() == 0 && b.scale() == 0 && 0 <= a.mantissa() <= b.mantissa() && b.mantissa() > 0
            ==> r is Some && 0 <= r->0.units() <= pow10(MAX_SCALE as nat),
        divides_exactly(a, b) ==> r is Some && r->0.units() * b.units() == a.units() * pow10(
            MAX_SCALE as nat,
        ),
        divides_exactly(a, b) ==> r is Some && r->0.scale() <= a.scale() + 9,
{
    let x = rust_decimal::Decimal::from_i128_with_scale(a.mantissa, a.scale);
    let y = rust_decimal::Decimal::from_i128_with_scale(b.mantissa, b.scale);
    match x.checked_div(y) {
        Some(z) => Some(Decimal { mantissa: z.mantissa(), scale: z.scale() }),
        None => None,
    }
}

/// `rust_decimal`'s `Ord::cmp` for its decimals. Claimed: it orders the numbers,
/// whatever their scales.
#[verifier::external_body]
fn rd_order(a: Decimal, b: Decimal) -> (order: Ordering)
    ensures
        match order {
            Ordering::Less => a.units() < b.units(),
            Ordering::Equal => a.units() == b.units(),
            Ordering::Greater => a.units() > b.units(),
        },
{
    let x = rust_decimal::Decimal::from_i128_with_scale(a.mantissa, a.scale);
    let y = rust_decimal::Decimal::from_i128_with_scale(b.mantissa, b.scale);
    x.cmp(&y)
}

/// A mantissa and a scale without trailing zeros behind the decimal point.
pub open spec fn stripped(mantissa: int, scale: nat) -> (int, nat)
    decreases scale,
{
    if mantissa == 0 {
        (0, 0)
    } else if scale > 0 && mantissa % 10 == 0 {
        stripped(mantissa / 10, (scale - 1) as nat)
    } else {
        (mantissa, scale)
    }
}

/// `rust_decimal::Decimal::normalize`. Claimed: the same number, with every
/// trailing zero behind the decimal point stripped.
#[verifier::external_body]
fn rd_normalize(d: Decimal) -> (r: Decimal)
    ensures
        (r.mantissa() as int, r.scale() as nat) == stripped(
            d.mantissa() as int,
            d.scale() as nat,
        ),
{
    let z = rust_decimal::Decimal::from_i128_with_scale(d.mantissa, d.scale).normalize();
    Decimal { mantissa: z.mantissa(), scale: z.scale() }
}

/// The magnitude of an integer.
pub open spec fn magnitude(n: int) -> nat {
    if n < 0 {
        (-n) as nat
    } else {
        n as nat
    }
}

/// The plain decimal text of `mantissa / 10^scale`: a minus sign where it is
/// negative, the whole digits, and exactly `scale` digits behind a point.
pub open spec fn decimal_text(mantissa: int, scale: nat) -> Seq<char> {
    let sign = if mantissa < 0 {
        seq!['-']
    } else {
        Seq::empty()
    };
    let whole = digits((magnitude(mantissa) as int / pow10(scale)) as nat);
    let fraction = if scale == 0 {
        Seq::empty()
    } else {
        seq!['.'] + padded_digits(magnitude(mantissa), scale)
    };
    sign + whole + fraction
}

/// `rust_decimal`'s `Display` for its decimals. Claimed: the plain decimal text.
#[verifier::external_body]
fn rd_text(d: Decimal) -> (text: String)
    ensures
        text@ == decimal_text(d.mantissa() as int, d.scale() as nat),
{
    rust_decimal::Decimal::from_i128_with_scale(d.mantissa, d.scale).to_string()
}

/// Powers of ten are positive.
pub proof fn lemma_pow10_positive(n: nat)
    ensures
        pow10(n) >= 1,
    decreases n,
{
    if n > 0 {
        lemma_pow10_positive((n - 1) as nat);
    }
}

/// Powers of ten multiply by adding their exponents.
pub proof fn lemma_pow10_add(a: nat, b: nat)
    ensures
        pow10(a) * pow10(b) == pow10(a + b),
    decreases a,
{
    if a > 0 {
        lemma_pow10_add((a - 1) as nat, b);
        let p = pow10((a - 1) as nat);
        let q = pow10(b);
        assert((10 * p) * q == 10 * (p * q)) by (nonlinear_arith);
    }
}

/// Powers of ten grow.
pub proof fn lemma_pow10_monotone(a: nat, b: nat)
    requires
        a <= b,
    ensures
        pow10(a) <= pow10(b),
    decreases b,
{
    if a < b {
        lemma_pow10_monotone(a, (b - 1) as nat);
        lemma_pow10_positive((b - 1) as nat);
    }
}

/// The value of the largest scale.
pub proof fn lemma_pow10_max()
    ensures
        pow10(MAX_SCALE as nat) == 10_000_000_000_000_000_000_000_000_000,
        pow10(MAX_SCALE as nat) < MAX_MANTISSA,
{
    reveal_with_fuel(pow10, 29);
}

/// The sign of a number is the sign of its mantissa.
pub proof fn lemma_units_sign(d: Decimal)
    ensures
        d.units() > 0 <==> d.mantissa() > 0,
        d.units() == 0 <==> d.mantissa() == 0,
        d.units() < 0 <==> d.mantissa() < 0,
{
    let p = pow10((MAX_SCALE - d.scale()) as nat);
    lemma_pow10_positive((MAX_SCALE - d.scale()) as nat);
    let m = d.mantissa() as int;
    assert((m * p > 0 <==> m > 0) && (m * p == 0 <==> m == 0) && (m * p < 0 <==> m < 0))
        by (nonlinear_arith)
        requires
            p >= 1,
    ;
}

/// Whether a number of units fits a mantissa at a scale, rounded or not.
pub open spec fn fits_at(units: int, scale: nat) -> bool {
    magnitude(units) <= MAX_MANTISSA * pow10((MAX_SCALE - scale) as nat)
}

/// Two numbers add up without losing a digit where they and their sum fit at a scale
/// that neither exceeds.
pub proof fn lemma_adds_exactly(a: Decimal, b: Decimal, scale: nat)
    requires
        a.scale() <= scale <= MAX_SCALE,
        b.scale() <= scale,
        fits_at(a.units(), scale),
        fits_at(b.units(), scale),
        fits_at(a.units() + b.units(), scale),
    ensures
        adds_exactly(a, b),
{
    let c = common_scale(a, b);
    let rest = (MAX_SCALE - c) as nat;
    let p = pow10(rest);
    let q = pow10((MAX_SCALE - scale) as nat);
    let ma = mantissa_at(a, c);
    let mb = mantissa_at(b, c);
    lemma_pow10_positive(rest);
    lemma_pow10_monotone((MAX_SCALE - scale) as nat, rest);
    lemma_units_at(a, c);
    lemma_units_at(b, c);
    assert((ma + mb) * p == ma * p + mb * p) by (nonlinear_arith);
    lemma_bounded_mantissa(ma, p, q);
    lemma_bounded_mantissa(mb, p, q);
    lemma_bounded_mantissa(ma + mb, p, q);
}

proof fn lemma_units_at(d: Decimal, scale: nat)
    requires
        d.scale() <= scale <= MAX_SCALE,
    ensures
        mantissa_at(d, scale) * pow10((MAX_SCALE - scale) as nat) == d.units(),
{
    let gap = (scale - d.scale()) as nat;
    let rest = (MAX_SCALE - scale) as nat;
    lemma_pow10_add(gap, rest);
    let m = d.mantissa() as int;
    let g = pow10(gap);
    let p = pow10(rest);
    assert((m * g) * p == m * (g * p)) by (nonlinear_arith);
}

proof fn lemma_bounded_mantissa(m: int, p: int, q: int)
    requires
        1 <= p,
        q <= p,
        magnitude(m * p) <= MAX_MANTISSA * q,
    ensures
        fits(m),
{
    assert(m * p <= MAX_MANTISSA * p && -(m * p) <= MAX_MANTISSA * p) by (nonlinear_arith)
        requires
            q <= p,
            m * p <= MAX_MANTISSA * q,
            -(m * p) <= MAX_MANTISSA * q,
    ;
    assert(-MAX_MANTISSA <= m <= MAX_MANTISSA) by (nonlinear_arith)
        requires
            p >= 1,
            m * p <= MAX_MANTISSA * p,
            -(m * p) <= MAX_MANTISSA * p,
    ;
}

/// The largest scale of a start and the first `n` of a list.
pub open spec fn top_scale(first: Decimal, ds: Seq<Decimal>, n: nat) -> nat
    decreases n,
{
    if n == 0 {
        first.scale() as nat
    } else {
        let before = top_scale(first, ds, (n - 1) as nat);
        if before < ds[n - 1].scale() {
            ds[n - 1].scale() as nat
        } else {
            before
        }
    }
}

/// The magnitudes of a start and the first `n` of a list together, in units.
pub open spec fn magnitudes(first: Decimal, ds: Seq<Decimal>, n: nat) -> nat
    decreases n,
{
    if n == 0 {
        magnitude(first.units())
    } else {
        magnitudes(first, ds, (n - 1) as nat) + magnitude(ds[n - 1].units())
    }
}

/// Whether a start and a list are small enough together that adding them up loses no
/// digit: their magnitudes fit a mantissa at the largest of their scales.
pub open spec fn small_together(first: Decimal, ds: Seq<Decimal>) -> bool {
    let scale = top_scale(first, ds, ds.len());
    scale <= MAX_SCALE && fits_at(magnitudes(first, ds, ds.len()) as int, scale)
}

proof fn lemma_totals_grow(first: Decimal, ds: Seq<Decimal>, i: nat, n: nat)
    requires
        i <= n,
    ensures
        top_scale(first, ds, i) <= top_scale(first, ds, n),
        magnitudes(first, ds, i) <= magnitudes(first, ds, n),
    decreases n,
{
    if i < n {
        lemma_totals_grow(first, ds, i, (n - 1) as nat);
    }
}

/// A running sum of what is small together adds the next member, of either sign,
/// without losing a digit, and stays as small as what it has added up.
pub proof fn lemma_small_step(first: Decimal, ds: Seq<Decimal>, i: nat, running: Decimal, d: Decimal)
    requires
        small_together(first, ds),
        i < ds.len(),
        running.scale() <= top_scale(first, ds, i),
        magnitude(running.units()) <= magnitudes(first, ds, i),
        d.scale() == ds[i as int].scale(),
        magnitude(d.units()) == magnitude(ds[i as int].units()),
    ensures
        adds_exactly(running, d),
        common_scale(running, d) <= top_scale(first, ds, i + 1),
        magnitude(running.units() + d.units()) <= magnitudes(first, ds, i + 1),
        top_scale(first, ds, i) <= top_scale(first, ds, i + 1),
        magnitudes(first, ds, i) <= magnitudes(first, ds, i + 1),
{
    lemma_totals_grow(first, ds, i + 1, ds.len());
    lemma_totals_grow(first, ds, i, i + 1);
    lemma_adds_exactly(running, d, top_scale(first, ds, ds.len()));
}

/// Whether a number of units, of a number with at most `scale` digits, has a share of one
/// in `n` with at most nine digits, and is of ordinary size.
pub open spec fn comes_out_even(units: int, n: nat, scale: nat) -> bool {
    &&& 0 < n <= u32::MAX
    &&& scale <= 19
    &&& magnitude(units) <= u64::MAX * pow10((MAX_SCALE - scale) as nat)
    &&& (units * pow10(9)) % (n * pow10(MAX_SCALE as nat)) == 0
}

/// What comes out even divides exactly.
pub proof fn lemma_comes_out_even(a: Decimal, b: Decimal, n: nat, scale: nat)
    requires
        comes_out_even(a.units(), n, scale),
        a.scale() <= scale,
        b.mantissa() == n,
        b.scale() == 0,
    ensures
        divides_exactly(a, b),
        b.units() == n * pow10(MAX_SCALE as nat),
{
    let m = a.mantissa() as int;
    let s = a.scale() as nat;
    let rest = (MAX_SCALE - s) as nat;
    let p = pow10(rest);
    let q = pow10((MAX_SCALE - scale) as nat);
    let g = pow10(s);
    let nine = pow10(9);
    let one = pow10(MAX_SCALE as nat);
    lemma_pow10_positive(rest);
    lemma_pow10_positive(MAX_SCALE as nat);
    lemma_pow10_monotone((MAX_SCALE - scale) as nat, rest);
    lemma_pow10_add(s, rest);
    let most = u64::MAX as int;
    assert(-most <= m <= most) by (nonlinear_arith)
        requires
            p >= 1,
            q <= p,
            most >= 0,
            m * p <= most * q,
            -(m * p) <= most * q,
    {
        assert(most * q <= most * p);
        assert(m * p <= most * p);
        assert((-m) * p <= most * p);
    }
    let d = n * one;
    let k = (a.units() * nine) / d;
    assert(d > 0) by (nonlinear_arith)
        requires
            n > 0,
            one >= 1,
            d == n * one,
    ;
    vstd::arithmetic::div_mod::lemma_fundamental_div_mod(a.units() * nine, d);
    assert((m * p) * nine == d * k);
    assert(m * nine == n * (g * k)) by (nonlinear_arith)
        requires
            (m * p) * nine == (n * (g * p)) * k,
            p >= 1,
    {
        assert((m * nine) * p == (n * (g * k)) * p) by (nonlinear_arith)
            requires
                (m * p) * nine == (n * (g * p)) * k,
        ;
    }
    vstd::arithmetic::div_mod::lemma_mod_multiples_basic(g * k, n as int);
    assert((g * k) * n == n * (g * k)) by (nonlinear_arith);
}

/// A share of one in `n`, cleared of the common power of ten.
pub proof fn lemma_share(r: int, units: int, n: int)
    requires
        r * (n * pow10(MAX_SCALE as nat)) == units * pow10(MAX_SCALE as nat),
    ensures
        r * n == units,
{
    let one = pow10(MAX_SCALE as nat);
    lemma_pow10_positive(MAX_SCALE as nat);
    assert(r * n == units) by (nonlinear_arith)
        requires
            r * (n * one) == units * one,
            one >= 1,
    {
        assert((r * n) * one == units * one);
    }
}

/// Amounts are small together where none has more digits than a scale allows and their
/// magnitudes, added up, fit a mantissa at that scale.
pub proof fn law_small_amounts_are_small_together(first: Decimal, ds: Seq<Decimal>, scale: nat)
    requires
        first.scale() <= scale <= MAX_SCALE,
        forall|i: int| 0 <= i < ds.len() ==> (#[trigger] ds[i]).scale() <= scale,
        magnitude(first.units()) + ds.fold_left(
            0int,
            |s: int, d: Decimal| s + magnitude(d.units()),
        ) <= MAX_MANTISSA * pow10((MAX_SCALE - scale) as nat),
    ensures
        small_together(first, ds),
{
    lemma_magnitudes(first, ds, ds.len());
    assert(ds.take(ds.len() as int) =~= ds);
    let top = top_scale(first, ds, ds.len());
    lemma_top_scale(first, ds, ds.len(), scale);
    lemma_pow10_monotone((MAX_SCALE - scale) as nat, (MAX_SCALE - top) as nat);
    let p = pow10((MAX_SCALE - scale) as nat);
    let q = pow10((MAX_SCALE - top) as nat);
    assert(MAX_MANTISSA * p <= MAX_MANTISSA * q) by (nonlinear_arith)
        requires
            p <= q,
    ;
}

proof fn lemma_magnitudes(first: Decimal, ds: Seq<Decimal>, n: nat)
    requires
        n <= ds.len(),
    ensures
        magnitudes(first, ds, n) == magnitude(first.units()) + ds.take(n as int).fold_left(
            0int,
            |s: int, d: Decimal| s + magnitude(d.units()),
        ),
    decreases n,
{
    if n > 0 {
        lemma_magnitudes(first, ds, (n - 1) as nat);
        assert(ds.take(n as int).drop_last() =~= ds.take(n - 1));
    } else {
        assert(ds.take(0) =~= Seq::empty());
    }
}

proof fn lemma_top_scale(first: Decimal, ds: Seq<Decimal>, n: nat, scale: nat)
    requires
        n <= ds.len(),
        first.scale() <= scale,
        forall|i: int| 0 <= i < ds.len() ==> (#[trigger] ds[i]).scale() <= scale,
    ensures
        top_scale(first, ds, n) <= scale,
    decreases n,
{
    if n > 0 {
        lemma_top_scale(first, ds, (n - 1) as nat, scale);
        assert(ds[n - 1].scale() <= scale);
    }
}

/// A number of at most so many digits has no larger mantissa than it has at that scale.
pub proof fn lemma_smaller_mantissa(d: Decimal, m: int, scale: nat)
    requires
        d.scale() <= scale <= MAX_SCALE,
        d.units() == m * pow10((MAX_SCALE - scale) as nat),
    ensures
        magnitude(d.mantissa() as int) <= magnitude(m),
        m == mantissa_at(d, scale),
{
    lemma_units_at(d, scale);
    let p = pow10((MAX_SCALE - scale) as nat);
    lemma_pow10_positive((MAX_SCALE - scale) as nat);
    let g = pow10((scale - d.scale()) as nat);
    lemma_pow10_positive((scale - d.scale()) as nat);
    let x = d.mantissa() as int;
    assert(x * g == m) by (nonlinear_arith)
        requires
            (x * g) * p == m * p,
            p >= 1,
    ;
    assert(m >= 0 ==> x >= 0 && x <= m) by (nonlinear_arith)
        requires
            x * g == m,
            g >= 1,
    ;
    assert(m < 0 ==> x < 0 && -x <= -m) by (nonlinear_arith)
        requires
            x * g == m,
            g >= 1,
    ;
}

/// An exact product, in units: at the largest scale it is the product of the units.
pub proof fn lemma_product_units(a: Decimal, b: Decimal, product: int)
    requires
        multiplies_exactly(a, b),
        product == a.mantissa() * b.mantissa() * pow10(
            (MAX_SCALE - a.scale() - b.scale()) as nat,
        ),
    ensures
        product * pow10(MAX_SCALE as nat) == a.units() * b.units(),
{
    let ma = a.mantissa() as int;
    let mb = b.mantissa() as int;
    let ra = (MAX_SCALE - a.scale()) as nat;
    let rb = (MAX_SCALE - b.scale()) as nat;
    let low = (MAX_SCALE - a.scale() - b.scale()) as nat;
    lemma_pow10_add(low, MAX_SCALE as nat);
    lemma_pow10_add(ra, rb);
    assert(low + MAX_SCALE == ra + rb);
    let p = pow10(ra);
    let q = pow10(rb);
    let l = pow10(low);
    let one = pow10(MAX_SCALE as nat);
    assert((ma * mb * l) * one == (ma * p) * (mb * q)) by (nonlinear_arith)
        requires
            l * one == p * q,
    ;
}

/// Two numbers subtract without losing a digit where they and their difference fit at a
/// scale that neither exceeds.
pub proof fn lemma_subtracts_exactly(a: Decimal, b: Decimal, scale: nat)
    requires
        a.scale() <= scale <= MAX_SCALE,
        b.scale() <= scale,
        fits_at(a.units(), scale),
        fits_at(b.units(), scale),
        fits_at(a.units() - b.units(), scale),
    ensures
        subtracts_exactly(a, b),
{
    let c = common_scale(a, b);
    let rest = (MAX_SCALE - c) as nat;
    let p = pow10(rest);
    let q = pow10((MAX_SCALE - scale) as nat);
    let ma = mantissa_at(a, c);
    let mb = mantissa_at(b, c);
    lemma_pow10_positive(rest);
    lemma_pow10_monotone((MAX_SCALE - scale) as nat, rest);
    lemma_units_at(a, c);
    lemma_units_at(b, c);
    assert((ma - mb) * p == ma * p - mb * p) by (nonlinear_arith);
    lemma_bounded_mantissa(ma, p, q);
    lemma_bounded_mantissa(mb, p, q);
    lemma_bounded_mantissa(ma - mb, p, q);
}

/// The number of units of a mantissa at a scale.
pub open spec fn units_of(mantissa: int, scale: nat) -> int {
    mantissa * pow10((MAX_SCALE - scale) as nat)
}

/// Stripping trailing zeros keeps the number and leaves none to strip.
pub proof fn lemma_stripped(mantissa: int, scale: nat)
    requires
        scale <= MAX_SCALE,
    ensures
        stripped(mantissa, scale).1 <= scale,
        units_of(stripped(mantissa, scale).0, stripped(mantissa, scale).1) == units_of(
            mantissa,
            scale,
        ),
        stripped(mantissa, scale).0 == 0 ==> stripped(mantissa, scale).1 == 0,
        stripped(mantissa, scale).1 > 0 ==> stripped(mantissa, scale).0 % 10 != 0,
        magnitude(stripped(mantissa, scale).0) <= magnitude(mantissa),
    decreases scale,
{
    if mantissa != 0 && scale > 0 && mantissa % 10 == 0 {
        lemma_stripped(mantissa / 10, (scale - 1) as nat);
        let m = mantissa / 10;
        let p = pow10((MAX_SCALE - scale) as nat);
        assert(pow10((MAX_SCALE - (scale - 1)) as nat) == 10 * p);
        assert(mantissa == 10 * m);
        assert(m * (10 * p) == (10 * m) * p) by (nonlinear_arith);
    } else if mantissa == 0 {
        assert(0 * pow10((MAX_SCALE - scale) as nat) == 0) by (nonlinear_arith);
        assert(0 * pow10(MAX_SCALE as nat) == 0) by (nonlinear_arith);
    }
}

/// Two numbers without trailing zeros are the same number only with the same parts.
proof fn lemma_normal_parts_unique(m1: int, s1: nat, m2: int, s2: nat)
    requires
        s1 <= s2 <= MAX_SCALE,
        units_of(m1, s1) == units_of(m2, s2),
        m2 == 0 ==> s2 == 0,
        s2 > 0 ==> m2 % 10 != 0,
    ensures
        m1 == m2,
        s1 == s2,
{
    let gap = (s2 - s1) as nat;
    let rest = (MAX_SCALE - s2) as nat;
    lemma_pow10_add(gap, rest);
    lemma_pow10_positive(rest);
    let p = pow10(rest);
    let g = pow10(gap);
    assert(m2 == m1 * g) by (nonlinear_arith)
        requires
            m1 * (g * p) == m2 * p,
            p >= 1,
    ;
    if gap > 0 {
        let h = pow10((gap - 1) as nat);
        assert(m1 * (10 * h) == 10 * (m1 * h)) by (nonlinear_arith);
        assert(m2 % 10 == 0);
    } else {
        assert(m1 * 1 == m1);
    }
}

/// The stripped parts are a function of the number alone.
pub proof fn law_normal_form(a: Decimal, b: Decimal)
    requires
        a.wf(),
        b.wf(),
    ensures
        a.units() == b.units() <==> stripped(a.mantissa() as int, a.scale() as nat) == stripped(
            b.mantissa() as int,
            b.scale() as nat,
        ),
{
    let (ma, sa) = stripped(a.mantissa() as int, a.scale() as nat);
    let (mb, sb) = stripped(b.mantissa() as int, b.scale() as nat);
    lemma_stripped(a.mantissa() as int, a.scale() as nat);
    lemma_stripped(b.mantissa() as int, b.scale() as nat);
    if a.units() == b.units() {
        if sa <= sb {
            lemma_normal_parts_unique(ma, sa, mb, sb);
        } else {
            lemma_normal_parts_unique(mb, sb, ma, sa);
        }
    }
}

impl Decimal {
    /// The number `num / 10^scale`.
    pub fn new(num: i64, scale: u32) -> (d: Decimal)
        requires
            scale <= MAX_SCALE,
        ensures
            d.mantissa() == num,
            d.scale() == scale,
            d.wf(),
    {
        Decimal { mantissa: num as i128, scale }
    }

    /// The number `num / 10^scale`, with a mantissa of up to 96 bits.
    pub fn from_i128_with_scale(num: i128, scale: u32) -> (d: Decimal)
        requires
            representable(num as int, scale as int),
        ensures
            d.mantissa() == num,
            d.scale() == scale,
            d.wf(),
    {
        Decimal { mantissa: num, scale }
    }

    /// The number `num / 10^scale`, where the parts fit.
    pub fn try_from_i128_with_scale(num: i128, scale: u32) -> (d: Option<Decimal>)
        ensures
            d is Some <==> representable(num as int, scale as int),
            d is Some ==> d->0.mantissa() == num && d->0.scale() == scale && d->0.wf(),
    {
        if scale <= MAX_SCALE && -MAX_MANTISSA <= num && num <= MAX_MANTISSA {
            Some(Decimal { mantissa: num, scale })
        } else {
            None
        }
    }

    /// A whole number.
    pub fn from_u64(n: u64) -> (d: Decimal)
        ensures
            d == Decimal::of_parts(n as int, 0),
            d.mantissa() == n,
            d.scale() == 0,
            d.wf(),
    {
        Decimal { mantissa: n as i128, scale: 0 }
    }

    /// A count as a number.
    pub fn from_usize(n: usize) -> (d: Decimal)
        ensures
            d == Decimal::of_parts(n as int, 0),
            d.mantissa() == n,
            d.scale() == 0,
            d.wf(),
    {
        Decimal { mantissa: n as i128, scale: 0 }
    }

    /// Zero, without digits behind the point.
    pub fn zero() -> (d: Decimal)
        ensures
            d == Decimal::of_parts(0, 0),
            d.mantissa() == 0,
            d.scale() == 0,
            d.wf(),
            d.units() == 0,
    {
        Decimal { mantissa: 0, scale: 0 }
    }

    /// One, without digits behind the point.
    pub fn one() -> (d: Decimal)
        ensures
            d == Decimal::of_parts(1, 0),
            d.mantissa() == 1,
            d.scale() == 0,
            d.wf(),
            d.units() == pow10(MAX_SCALE as nat),
    {
        Decimal { mantissa: 1, scale: 0 }
    }

    /// Whether the number is zero.
    pub fn is_zero(&self) -> (r: bool)
        ensures
            r == (self.units() == 0),
            r == (self.mantissa() == 0),
    {
        proof {
            lemma_units_sign(*self);
        }
        self.mantissa == 0
    }

    /// The number with the opposite sign.
    pub fn negated(self) -> (d: Decimal)
        ensures
            d == Decimal::of_parts(-self.mantissa(), self.scale() as int),
            d.mantissa() == -self.mantissa(),
            d.scale() == self.scale(),
            d.units() == -self.units(),
            d.wf(),
    {
        proof {
            use_type_invariant(&self);
            let m = self.mantissa as int;
            let p = pow10((MAX_SCALE - self.scale) as nat);
            assert((-m) * p == -(m * p)) by (nonlinear_arith);
        }
        Decimal { mantissa: -self.mantissa, scale: self.scale }
    }

    /// Whether this number is smaller than another.
    pub fn lt(&self, other: &Decimal) -> (r: bool)
        ensures
            r == (self.units() < other.units()),
    {
        match rd_order(*self, *other) {
            Ordering::Less => true,
            Ordering::Equal => false,
            Ordering::Greater => false,
        }
    }

    /// Whether this number is smaller than another or equal to it.
    pub fn le(&self, other: &Decimal) -> (r: bool)
        ensures
            r == (self.units() <= other.units()),
    {
        match rd_order(*self, *other) {
            Ordering::Less => true,
            Ordering::Equal => true,
            Ordering::Greater => false,
        }
    }

    /// Whether two values are the same number, whatever their scales.
    pub fn equals(&self, other: &Decimal) -> (r: bool)
        ensures
            r == (self.units() == other.units()),
    {
        match rd_order(*self, *other) {
            Ordering::Less => false,
            Ordering::Equal => true,
            Ordering::Greater => false,
        }
    }

    /// Addition, `None` where the sum does not fit.
    pub fn checked_add(self, other: Decimal) -> (r: Option<Decimal>)
        ensures
            r == plus(self, other),
            r is Some ==> r->0.wf(),
            adds_exactly(self, other) ==> r is Some && r->0.units() == self.units()
                + other.units(),
            r is Some && self.units() >= 0 && other.units() >= 0 ==> r->0.units() >= 0,
            r is Some && self.units() <= 0 && other.units() <= 0 ==> r->0.units() <= 0,
            r is Some && self.units() >= 0 && other.units() >= 0 && self.units() + other.units()
                > 0 ==> r->0.units() > 0,
            r is Some ==> r->0.scale() <= common_scale(self, other),
    {
        proof {
            lemma_units_sign(self);
            lemma_units_sign(other);
        }
        match rd_checked_add(self, other) {
            Some(d) => {
                proof {
                    use_type_invariant(&d);
                    lemma_units_sign(d);
                }
                Some(d)
            },
            None => None,
        }
    }

    /// Subtraction, `None` where the difference does not fit.
    pub fn checked_sub(self, other: Decimal) -> (r: Option<Decimal>)
        ensures
            r == minus(self, other),
            r is Some ==> r->0.wf(),
            subtracts_exactly(self, other) ==> r is Some && r->0.units() == self.units()
                - other.units(),
            r is Some ==> r->0.scale() <= common_scale(self, other),
    {
        match rd_checked_sub(self, other) {
            Some(d) => {
                proof {
                    use_type_invariant(&d);
                }
                Some(d)
            },
            None => None,
        }
    }

    /// Multiplication, `None` where the product does not fit.
    pub fn checked_mul(self, other: Decimal) -> (r: Option<Decimal>)
        ensures
            r == times(self, other),
            r is Some ==> r->0.wf(),
            multiplies_exactly(self, other) ==> r is Some && r->0.units() == self.mantissa()
                * other.mantissa() * pow10((MAX_SCALE - self.scale() - other.scale()) as nat),
            r is Some && self.units() >= 0 && other.units() >= 0 ==> r->0.units() >= 0,
            r is Some && self.units() <= 0 && other.units() <= 0 ==> r->0.units() >= 0,
            r is Some ==> r->0.scale() <= self.scale() + other.scale(),
    {
        proof {
            lemma_units_sign(self);
            lemma_units_sign(other);
        }
        match rd_checked_mul(self, other) {
            Some(d) => {
                proof {
                    use_type_invariant(&d);
                    lemma_units_sign(d);
                }
                Some(d)
            },
            None => None,
        }
    }

    /// Division, `None` where the quotient does not fit or the divisor is zero.
    pub fn checked_div(self, other: Decimal) -> (r: Option<Decimal>)
        ensures
            r == over(self, other),
            r is Some ==> r->0.wf(),
            other.units() == 0 ==> r is None,
            r is Some && self.units() >= 0 && other.units() > 0 ==> r->0.units() >= 0,
            r is Some && self.units() <= 0 && other.units() > 0 ==> r->0.units() <= 0,
            self.scale() == 0 && other.scale() == 0 && 0 <= self.mantissa() <= other.mantissa()
                && other.mantissa() > 0 ==> r is Some && 0 <= r->0.units() <= pow10(
                MAX_SCALE as nat,
            ),
            divides_exactly(self, other) ==> r is Some && r->0.units() * other.units()
                == self.units() * pow10(MAX_SCALE as nat),
            divides_exactly(self, other) ==> r is Some && r->0.scale() <= self.scale() + 9,
    {
        proof {
            lemma_units_sign(self);
            lemma_units_sign(other);
        }
        match rd_checked_div(self, other) {
            Some(d) => {
                proof {
                    use_type_invariant(&d);
                    lemma_units_sign(d);
                }
                Some(d)
            },
            None => None,
        }
    }

    /// The same number without trailing zeros behind the decimal point.
    pub fn normalize(&self) -> (d: Decimal)
        ensures
            (d.mantissa() as int, d.scale() as nat) == stripped(
                self.mantissa() as int,
                self.scale() as nat,
            ),
            d.units() == self.units(),
            d.wf(),
    {
        let d = rd_normalize(*self);
        proof {
            use_type_invariant(&d);
            use_type_invariant(self);
            lemma_stripped(self.mantissa as int, self.scale as nat);
        }
        d
    }

    /// The plain decimal text.
    pub fn to_string(&self) -> (text: String)
        ensures
            text@ == decimal_text(self.mantissa() as int, self.scale() as nat),
    {
        rd_text(*self)
    }
}

impl PartialEq for Decimal {
    fn eq(&self, other: &Decimal) -> (r: bool) {
        self.equals(other)
    }
}

impl Eq for Decimal {

}

impl vstd::std_specs::cmp::PartialEqSpecImpl for Decimal {
    open spec fn obeys_eq_spec() -> bool {
        true
    }

    open spec fn eq_spec(&self, other: &Decimal) -> bool {
        self.units() == other.units()
    }
}

impl Default for Decimal {
    fn default() -> (d: Decimal)
        ensures
            d == Decimal::of_parts(0, 0),
    {
        Decimal::zero()
    }
}

} // verus!
