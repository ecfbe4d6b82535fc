//! Direction-relative stop and target prices. For a long the stop sits below the
//! entry, for a short above it; the stop distance defines 1R.
use crate::decimal::{
    adds_exactly, fits, lemma_adds_exactly, lemma_pow10_add, lemma_pow10_max, lemma_pow10_monotone,
    lemma_pow10_positive, lemma_product_units, lemma_smaller_mantissa, lemma_subtracts_exactly,
    lemma_units_sign, magnitude, mantissa_at, minus, multiplies_exactly, plus, pow10,
    subtracts_exactly, times, Decimal, MAX_MANTISSA, MAX_SCALE,
};
use crate::domain::dsl::risk::Direction;
use vstd::prelude::*;

verus! {

/// The number one.
pub open spec fn unit_price() -> Decimal {
    Decimal::of_parts(1, 0)
}

/// What the stop distance leaves of the entry price: `1 - distance` for a long,
/// `1 + distance` for a short.
pub open spec fn stop_factor(distance_pct: Decimal, direction: Direction) -> Option<Decimal> {
    match direction {
        Direction::Long => minus(unit_price(), distance_pct),
        Direction::Short => plus(unit_price(), distance_pct),
    }
}

/// The stop price: the entry times the stop factor.
pub open spec fn stop_price_spec(
    entry: Decimal,
    distance_pct: Decimal,
    direction: Direction,
) -> Option<Decimal> {
    match stop_factor(distance_pct, direction) {
        Some(factor) => times(entry, factor),
        None => None,
    }
}

/// A price moved by a distance: up where `up`, else down.
pub open spec fn moved(entry: Decimal, distance: Decimal, up: bool) -> Option<Decimal> {
    if up {
        plus(entry, distance)
    } else {
        minus(entry, distance)
    }
}

/// The take-profit price: `target_r` stop distances away on the favourable side.
pub open spec fn take_profit_price_spec(
    entry: Decimal,
    distance_pct: Decimal,
    target_r: Decimal,
    direction: Direction,
) -> Option<Decimal> {
    match times(entry, distance_pct) {
        None => None,
        Some(one_r) => match times(target_r, one_r) {
            None => None,
            Some(distance) => moved(entry, distance, direction == Direction::Long),
        },
    }
}

/// The stop price by average true range: `multiple` times `atr` away on the
/// unfavourable side.
pub open spec fn atr_stop_price_spec(
    entry: Decimal,
    atr: Decimal,
    multiple: Decimal,
    direction: Direction,
) -> Option<Decimal> {
    match times(multiple, atr) {
        None => None,
        Some(distance) => moved(entry, distance, direction == Direction::Short),
    }
}

/// Whether a price lies below another where `below`, else above it.
pub open spec fn on_side(price: Decimal, entry: Decimal, below: bool) -> bool {
    if below {
        price.units() < entry.units()
    } else {
        price.units() > entry.units()
    }
}

/// An exact product with a factor below (above) one is below (above) the other
/// operand, if that is positive.
proof fn lemma_scaled_price(entry: Decimal, factor: Decimal, product: int)
    requires
        entry.wf(),
        factor.wf(),
        entry.units() > 0,
        multiplies_exactly(entry, factor),
        product == entry.mantissa() * factor.mantissa() * pow10(
            (MAX_SCALE - entry.scale() - factor.scale()) as nat,
        ),
    ensures
        factor.units() < pow10(MAX_SCALE as nat) ==> product < entry.units(),
        factor.units() > pow10(MAX_SCALE as nat) ==> product > entry.units(),
{
    let rest = (MAX_SCALE - entry.scale() - factor.scale()) as nat;
    let se = entry.scale() as nat;
    let sf = factor.scale() as nat;
    let me = entry.mantissa() as int;
    let mf = factor.mantissa() as int;
    let r = pow10(rest);
    lemma_units_sign(entry);
    lemma_pow10_positive(rest);
    lemma_pow10_positive(se);
    lemma_pow10_add(rest, sf);
    lemma_pow10_add(rest, se);
    lemma_pow10_add((rest + sf) as nat, se);
    assert((MAX_SCALE - entry.scale()) as nat == rest + sf);
    assert((MAX_SCALE - factor.scale()) as nat == rest + se);
    assert(rest + sf + se == MAX_SCALE);
    let pf = pow10(sf);
    let pe = pow10(se);
    assert(entry.units() == me * (r * pf));
    assert(factor.units() == mf * (r * pe));
    assert(pow10(MAX_SCALE as nat) == (r * pf) * pe);
    assert(mf * (r * pe) < (r * pf) * pe ==> me * mf * r < me * (r * pf)) by (nonlinear_arith)
        requires
            me > 0,
            r >= 1,
            pe >= 1,
    {
        if mf * (r * pe) < (r * pf) * pe {
            assert((mf * r) * pe < (r * pf) * pe);
            assert(mf * r < r * pf);
            assert(me * (mf * r) < me * (r * pf));
        }
    }
    assert(mf * (r * pe) > (r * pf) * pe ==> me * mf * r > me * (r * pf)) by (nonlinear_arith)
        requires
            me > 0,
            r >= 1,
            pe >= 1,
    {
        if mf * (r * pe) > (r * pf) * pe {
            assert((mf * r) * pe > (r * pf) * pe);
            assert(mf * r > r * pf);
            assert(me * (mf * r) > me * (r * pf));
        }
    }
}

/// One and a fraction of it subtract and add without losing a digit.
proof fn lemma_unit_aligns(one: Decimal, d: Decimal)
    requires
        one == unit_price(),
        one.mantissa() == 1,
        one.scale() == 0,
        d.wf(),
        0 < d.units() < pow10(MAX_SCALE as nat),
    ensures
        subtracts_exactly(one, d),
        adds_exactly(one, d),
{
    let s = d.scale() as nat;
    lemma_pow10_max();
    lemma_pow10_monotone(s, MAX_SCALE as nat);
    lemma_pow10_positive(s);
    lemma_units_sign(d);
    assert(pow10(0) == 1);
    assert(mantissa_at(d, s) == d.mantissa());
    assert(mantissa_at(one, s) == pow10(s));
    let rest = (MAX_SCALE - s) as nat;
    lemma_pow10_positive(rest);
    lemma_pow10_add(s, rest);
    let m = d.mantissa() as int;
    let p = pow10(s);
    let q = pow10(rest);
    assert(m < p) by (nonlinear_arith)
        requires
            m * q < p * q,
            q >= 1,
    ;
}

/// An exact product of positive numbers is positive.
proof fn lemma_product_positive(a: Decimal, b: Decimal, product: int)
    requires
        a.units() > 0,
        b.units() > 0,
        product == a.mantissa() * b.mantissa() * pow10(
            (MAX_SCALE - a.scale() - b.scale()) as nat,
        ),
    ensures
        product > 0,
{
    lemma_units_sign(a);
    lemma_units_sign(b);
    let p = pow10((MAX_SCALE - a.scale() - b.scale()) as nat);
    lemma_pow10_positive((MAX_SCALE - a.scale() - b.scale()) as nat);
    let x = a.mantissa() as int;
    let y = b.mantissa() as int;
    assert(x * y * p > 0) by (nonlinear_arith)
        requires
            x > 0,
            y > 0,
            p >= 1,
    ;
}

/// What a stop price is in numbers. Where no digit is lost, the stop lies the given part of
/// the entry price away: below the entry for a long, above it for a short.
pub open spec fn is_stop_price(
    r: Decimal,
    entry: Decimal,
    distance_pct: Decimal,
    direction: Direction,
) -> bool {
    let one = pow10(MAX_SCALE as nat);
    let exact = (match direction {
        Direction::Long => subtracts_exactly(unit_price(), distance_pct),
        Direction::Short => adds_exactly(unit_price(), distance_pct),
    }) && multiplies_exactly(entry, stop_factor(distance_pct, direction)->0);
    &&& exact && direction == Direction::Long ==> (entry.units() - r.units()) * one
        == entry.units() * distance_pct.units()
    &&& exact && direction == Direction::Short ==> (r.units() - entry.units()) * one
        == entry.units() * distance_pct.units()
    &&& ordinary_stop(entry, distance_pct) && direction == Direction::Long ==> (entry.units()
        - r.units()) * one == entry.units() * distance_pct.units()
    &&& ordinary_stop(entry, distance_pct) && direction == Direction::Short ==> (r.units()
        - entry.units()) * one == entry.units() * distance_pct.units()
}

/// What a take-profit price is in numbers. Where no digit is lost, it lies the given number
/// of stop distances away: above the entry for a long, below it for a short.
pub open spec fn is_take_profit_price(
    r: Decimal,
    entry: Decimal,
    distance_pct: Decimal,
    target_r: Decimal,
    direction: Direction,
) -> bool {
    let one = pow10(MAX_SCALE as nat);
    let exact = take_profit_is_exact(entry, distance_pct, target_r, direction);
    &&& exact && direction == Direction::Long ==> (r.units() - entry.units()) * one * one
        == target_r.units() * (entry.units() * distance_pct.units())
    &&& exact && direction == Direction::Short ==> (entry.units() - r.units()) * one * one
        == target_r.units() * (entry.units() * distance_pct.units())
    &&& forall|scale: nat| #[trigger]
        ordinary_target(entry, distance_pct, target_r, scale) ==> {
            let moved = if direction == Direction::Long {
                r.units() - entry.units()
            } else {
                entry.units() - r.units()
            };
            moved * one * one == target_r.units() * (entry.units() * distance_pct.units())
        }
}

/// What a stop price by average true range is in numbers. Where no digit is lost, it lies
/// the given number of ranges away: below the entry for a long, above it for a short.
pub open spec fn is_atr_stop_price(
    r: Decimal,
    entry: Decimal,
    atr: Decimal,
    multiple: Decimal,
    direction: Direction,
) -> bool {
    let one = pow10(MAX_SCALE as nat);
    let exact = atr_stop_is_exact(entry, atr, multiple, direction);
    &&& exact && direction == Direction::Long ==> (entry.units() - r.units()) * one
        == multiple.units() * atr.units()
    &&& exact && direction == Direction::Short ==> (r.units() - entry.units()) * one
        == multiple.units() * atr.units()
    &&& forall|scale: nat| #[trigger]
        ordinary_atr_stop(entry, atr, multiple, scale) ==> {
            let moved = if direction == Direction::Long {
                entry.units() - r.units()
            } else {
                r.units() - entry.units()
            };
            moved * one == multiple.units() * atr.units()
        }
}

/// Whether a price and a distance of `scaled / one` units have room together at a scale.
pub open spec fn have_room(entry: Decimal, scaled: int, one: int, scale: nat) -> bool {
    &&& entry.scale() <= scale <= MAX_SCALE
    &&& magnitude(entry.units()) * one + magnitude(scaled) <= MAX_MANTISSA * pow10(
        (MAX_SCALE - scale) as nat,
    ) * one
}

/// Whether an entry price and a stop distance are of ordinary size: a distance between zero
/// and one, and an entry whose product with two fits at the digits of both.
pub open spec fn ordinary_stop(entry: Decimal, distance_pct: Decimal) -> bool {
    &&& 0 < distance_pct.units() < pow10(MAX_SCALE as nat)
    &&& entry.scale() + distance_pct.scale() <= MAX_SCALE
    &&& fits(entry.mantissa() * (2 * pow10(distance_pct.scale() as nat)))
}

/// Whether the inputs of a take-profit price are of ordinary size: what they multiply to
/// fits a mantissa with all their digits, and has room beside the entry at a scale.
pub open spec fn ordinary_target(
    entry: Decimal,
    distance_pct: Decimal,
    target_r: Decimal,
    scale: nat,
) -> bool {
    let one = pow10(MAX_SCALE as nat);
    &&& entry.scale() + distance_pct.scale() + target_r.scale() <= scale
    &&& fits(entry.mantissa() * distance_pct.mantissa())
    &&& magnitude(target_r.mantissa() as int) * magnitude(
        entry.mantissa() * distance_pct.mantissa(),
    ) <= MAX_MANTISSA
    &&& have_room(
        entry,
        target_r.units() * (entry.units() * distance_pct.units()),
        one * one,
        scale,
    )
}

/// Whether the inputs of a stop price by average true range are of ordinary size.
pub open spec fn ordinary_atr_stop(
    entry: Decimal,
    atr: Decimal,
    multiple: Decimal,
    scale: nat,
) -> bool {
    &&& multiple.scale() + atr.scale() <= scale
    &&& fits(multiple.mantissa() * atr.mantissa())
    &&& have_room(entry, multiple.units() * atr.units(), pow10(MAX_SCALE as nat), scale)
}

/// A distance with room beside the entry is added and subtracted without losing a digit.
proof fn lemma_have_room(entry: Decimal, distance: Decimal, scaled: int, one: int, scale: nat)
    requires
        have_room(entry, scaled, one, scale),
        one >= 1,
        distance.scale() <= scale,
        distance.units() * one == scaled,
    ensures
        adds_exactly(entry, distance),
        subtracts_exactly(entry, distance),
{
    let e = entry.units();
    let d = distance.units();
    let most = MAX_MANTISSA * pow10((MAX_SCALE - scale) as nat);
    assert(magnitude(e) + magnitude(d) <= most) by (nonlinear_arith)
        requires
            magnitude(e) * one + magnitude(d * one) <= most * one,
            one >= 1,
    {
        assert(magnitude(d * one) == magnitude(d) * one) by (nonlinear_arith)
            requires
                one >= 1,
        ;
        assert((magnitude(e) + magnitude(d)) * one <= most * one) by (nonlinear_arith)
            requires
                magnitude(e) * one + magnitude(d) * one <= most * one,
        ;
    }
    lemma_adds_exactly(entry, distance, scale);
    lemma_subtracts_exactly(entry, distance, scale);
}

/// The factor of an ordinary stop multiplies the entry without losing a digit.
proof fn lemma_ordinary_stop(entry: Decimal, d: Decimal, factor: Decimal)
    requires
        ordinary_stop(entry, d),
        d.wf(),
        factor.scale() <= d.scale(),
        factor.units() == pow10(MAX_SCALE as nat) - d.units() || factor.units() == pow10(
            MAX_SCALE as nat,
        ) + d.units(),
    ensures
        multiplies_exactly(entry, factor),
{
    let s = d.scale() as nat;
    let rest = (MAX_SCALE - s) as nat;
    let p = pow10(s);
    let q = pow10(rest);
    let m = d.mantissa() as int;
    lemma_pow10_add(s, rest);
    lemma_pow10_positive(rest);
    lemma_pow10_positive(s);
    lemma_units_sign(d);
    assert(m < p) by (nonlinear_arith)
        requires
            m * q < p * q,
            q >= 1,
    ;
    let f = if factor.units() == pow10(MAX_SCALE as nat) - d.units() {
        p - m
    } else {
        p + m
    };
    assert((p - m) * q == p * q - m * q && (p + m) * q == p * q + m * q) by (nonlinear_arith);
    lemma_smaller_mantissa(factor, f, s);
    let x = factor.mantissa() as int;
    let e = entry.mantissa() as int;
    assert(-MAX_MANTISSA <= e * x <= MAX_MANTISSA) by (nonlinear_arith)
        requires
            -(2 * p) <= x <= 2 * p,
            -MAX_MANTISSA <= e * (2 * p) <= MAX_MANTISSA,
            p >= 1,
    {
        assert(e >= 0 ==> e * x <= e * (2 * p) && e * x >= e * (-(2 * p))) by (nonlinear_arith)
            requires
                -(2 * p) <= x <= 2 * p,
        ;
        assert(e < 0 ==> e * x >= e * (2 * p) && e * x <= e * (-(2 * p))) by (nonlinear_arith)
            requires
                -(2 * p) <= x <= 2 * p,
        ;
        assert(e * (-(2 * p)) == -(e * (2 * p))) by (nonlinear_arith);
    }
}

/// The stop price where the arithmetic fits.
///
/// Where no digit is lost, the stop of a positive entry with a distance between
/// zero and one lies below the entry for a long and above it for a short.
pub fn checked_stop_price(entry: Decimal, distance_pct: Decimal, direction: Direction) -> (r:
    Option<Decimal>)
    ensures
        r == stop_price_spec(entry, distance_pct, direction),
        r is Some ==> is_stop_price(r->0, entry, distance_pct, direction),
        r is Some && entry.units() > 0 && 0 < distance_pct.units() < pow10(MAX_SCALE as nat)
            && multiplies_exactly(entry, stop_factor(distance_pct, direction)->0) ==> on_side(
            r->0,
            entry,
            direction == Direction::Long,
        ),
{
    if stop_price_inner(entry, distance_pct, direction).is_some() {
        Some(stop_price(entry, distance_pct, direction))
    } else {
        None
    }
}

fn stop_price_inner(entry: Decimal, distance_pct: Decimal, direction: Direction) -> (r: Option<
    Decimal,
>)
    ensures
        r == stop_price_spec(entry, distance_pct, direction),
        r is Some ==> is_stop_price(r->0, entry, distance_pct, direction),
        r is Some && entry.units() > 0 && 0 < distance_pct.units() < pow10(MAX_SCALE as nat)
            && multiplies_exactly(entry, stop_factor(distance_pct, direction)->0) ==> on_side(
            r->0,
            entry,
            direction == Direction::Long,
        ),
{
    proof {
        use_type_invariant(&entry);
        use_type_invariant(&distance_pct);
    }
    let one = Decimal::one();
    let factor = match direction {
        Direction::Long => one.checked_sub(distance_pct),
        Direction::Short => one.checked_add(distance_pct),
    };
    match factor {
        None => None,
        Some(factor) => {
            let r = entry.checked_mul(factor);
            proof {
                if r is Some && entry.units() > 0 && 0 < distance_pct.units() < pow10(
                    MAX_SCALE as nat,
                ) && multiplies_exactly(entry, factor) {
                    lemma_unit_aligns(one, distance_pct);
                    lemma_scaled_price(entry, factor, r->0.units());
                }
                if ordinary_stop(entry, distance_pct) {
                    lemma_unit_aligns(one, distance_pct);
                    lemma_ordinary_stop(entry, distance_pct, factor);
                }
                if r is Some && multiplies_exactly(entry, factor) {
                    lemma_product_units(entry, factor, r->0.units());
                    let unit = pow10(MAX_SCALE as nat);
                    let e = entry.units();
                    let d = distance_pct.units();
                    let x = r->0.units();
                    let f = factor.units();
                    assert(one.units() == unit);
                    assert(f == unit - d ==> (e - x) * unit == e * d) by (nonlinear_arith)
                        requires
                            x * unit == e * f,
                    ;
                    assert(f == unit + d ==> (x - e) * unit == e * d) by (nonlinear_arith)
                        requires
                            x * unit == e * f,
                    ;
                }
            }
            r
        },
    }
}

/// The stop price.
pub fn stop_price(entry: Decimal, distance_pct: Decimal, direction: Direction) -> (r: Decimal)
    requires
        stop_price_spec(entry, distance_pct, direction) is Some,
    ensures
        stop_price_spec(entry, distance_pct, direction) == Some(r),
        is_stop_price(r, entry, distance_pct, direction),
        entry.units() > 0 && 0 < distance_pct.units() < pow10(MAX_SCALE as nat)
            && multiplies_exactly(entry, stop_factor(distance_pct, direction)->0) ==> on_side(
            r,
            entry,
            direction == Direction::Long,
        ),
{
    stop_price_inner(entry, distance_pct, direction).unwrap()
}

/// Whether a take-profit price comes out without losing a digit.
pub open spec fn take_profit_is_exact(
    entry: Decimal,
    distance_pct: Decimal,
    target_r: Decimal,
    direction: Direction,
) -> bool {
    &&& multiplies_exactly(entry, distance_pct)
    &&& multiplies_exactly(target_r, times(entry, distance_pct)->0)
    &&& moves_exactly(
        entry,
        times(target_r, times(entry, distance_pct)->0)->0,
        direction == Direction::Long,
    )
}

/// Whether a price moves by a distance without losing a digit.
pub open spec fn moves_exactly(entry: Decimal, distance: Decimal, up: bool) -> bool {
    if up {
        adds_exactly(entry, distance)
    } else {
        subtracts_exactly(entry, distance)
    }
}

/// The steps towards an ordinary take-profit price lose no digit.
proof fn lemma_ordinary_target(
    entry: Decimal,
    distance_pct: Decimal,
    target_r: Decimal,
    one_r: Decimal,
    distance: Decimal,
    scale: nat,
)
    requires
        ordinary_target(entry, distance_pct, target_r, scale),
        one_r.scale() <= entry.scale() + distance_pct.scale(),
        distance.scale() <= target_r.scale() + one_r.scale(),
        multiplies_exactly(entry, distance_pct) ==> one_r.units() == entry.mantissa()
            * distance_pct.mantissa() * pow10(
            (MAX_SCALE - entry.scale() - distance_pct.scale()) as nat,
        ),
        multiplies_exactly(target_r, one_r) ==> distance.units() == target_r.mantissa()
            * one_r.mantissa() * pow10((MAX_SCALE - target_r.scale() - one_r.scale()) as nat),
    ensures
        multiplies_exactly(entry, distance_pct),
        multiplies_exactly(target_r, one_r),
        adds_exactly(entry, distance),
        subtracts_exactly(entry, distance),
{
    let one = pow10(MAX_SCALE as nat);
    lemma_pow10_positive(MAX_SCALE as nat);
    let product = entry.mantissa() * distance_pct.mantissa();
    lemma_smaller_mantissa(one_r, product, (entry.scale() + distance_pct.scale()) as nat);
    let t = target_r.mantissa() as int;
    let x = one_r.mantissa() as int;
    assert(-MAX_MANTISSA <= t * x <= MAX_MANTISSA) by (nonlinear_arith)
        requires
            magnitude(x) <= magnitude(product),
            magnitude(t) * magnitude(product) <= MAX_MANTISSA,
    {
        assert(magnitude(t) * magnitude(x) <= magnitude(t) * magnitude(product)) by (
        nonlinear_arith)
            requires
                magnitude(x) <= magnitude(product),
        ;
        assert(magnitude(t * x) == magnitude(t) * magnitude(x)) by (nonlinear_arith);
    }
    lemma_product_units(entry, distance_pct, one_r.units());
    lemma_product_units(target_r, one_r, distance.units());
    let a = one_r.units();
    let b = distance.units();
    let u = target_r.units();
    let e = entry.units() * distance_pct.units();
    assert(b * (one * one) == u * e) by (nonlinear_arith)
        requires
            b * one == u * a,
            a * one == e,
    ;
    assert(one * one >= 1) by (nonlinear_arith)
        requires
            one >= 1,
    ;
    lemma_have_room(entry, distance, u * e, one * one, scale);
}

fn take_profit_price_inner(
    entry: Decimal,
    distance_pct: Decimal,
    target_r: Decimal,
    direction: Direction,
) -> (r: Option<Decimal>)
    ensures
        r == take_profit_price_spec(entry, distance_pct, target_r, direction),
        r is Some ==> is_take_profit_price(r->0, entry, distance_pct, target_r, direction),
        r is Some && entry.units() > 0 && distance_pct.units() > 0 && target_r.units() > 0
            && take_profit_is_exact(entry, distance_pct, target_r, direction) ==> on_side(
            r->0,
            entry,
            direction == Direction::Short,
        ),
{
    match entry.checked_mul(distance_pct) {
        None => None,
        Some(one_r) => match target_r.checked_mul(one_r) {
            None => None,
            Some(distance) => {
                proof {
                    if entry.units() > 0 && distance_pct.units() > 0 && target_r.units() > 0
                        && take_profit_is_exact(entry, distance_pct, target_r, direction) {
                        lemma_product_positive(entry, distance_pct, one_r.units());
                        lemma_product_positive(target_r, one_r, distance.units());
                    }
                    assert forall|scale: nat| #[trigger]
                        ordinary_target(entry, distance_pct, target_r, scale) implies
                        take_profit_is_exact(entry, distance_pct, target_r, direction) by {
                        lemma_ordinary_target(entry, distance_pct, target_r, one_r, distance, scale);
                    }
                    if take_profit_is_exact(entry, distance_pct, target_r, direction) {
                        lemma_product_units(entry, distance_pct, one_r.units());
                        lemma_product_units(target_r, one_r, distance.units());
                        let unit = pow10(MAX_SCALE as nat);
                        let a = one_r.units();
                        let b = distance.units();
                        let t = target_r.units();
                        let p = entry.units() * distance_pct.units();
                        assert(b * unit * unit == t * p) by (nonlinear_arith)
                            requires
                                b * unit == t * a,
                                a * unit == p,
                        ;
                    }
                }
                match direction {
                    Direction::Long => entry.checked_add(distance),
                    Direction::Short => entry.checked_sub(distance),
                }
            },
        },
    }
}

/// The take-profit price where the arithmetic fits.
///
/// Where no digit is lost, the target of positive inputs lies above the entry for a
/// long and below it for a short.
pub fn checked_take_profit_price(
    entry: Decimal,
    distance_pct: Decimal,
    target_r: Decimal,
    direction: Direction,
) -> (r: Option<Decimal>)
    ensures
        r == take_profit_price_spec(entry, distance_pct, target_r, direction),
        r is Some ==> is_take_profit_price(r->0, entry, distance_pct, target_r, direction),
        r is Some && entry.units() > 0 && distance_pct.units() > 0 && target_r.units() > 0
            && take_profit_is_exact(entry, distance_pct, target_r, direction) ==> on_side(
            r->0,
            entry,
            direction == Direction::Short,
        ),
{
    if take_profit_price_inner(entry, distance_pct, target_r, direction).is_some() {
        Some(take_profit_price(entry, distance_pct, target_r, direction))
    } else {
        None
    }
}

/// The take-profit price.
pub fn take_profit_price(
    entry: Decimal,
    distance_pct: Decimal,
    target_r: Decimal,
    direction: Direction,
) -> (r: Decimal)
    requires
        take_profit_price_spec(entry, distance_pct, target_r, direction) is Some,
    ensures
        take_profit_price_spec(entry, distance_pct, target_r, direction) == Some(r),
        is_take_profit_price(r, entry, distance_pct, target_r, direction),
        entry.units() > 0 && distance_pct.units() > 0 && target_r.units() > 0
            && take_profit_is_exact(entry, distance_pct, target_r, direction) ==> on_side(
            r,
            entry,
            direction == Direction::Short,
        ),
{
    take_profit_price_inner(entry, distance_pct, target_r, direction).unwrap()
}

/// Whether a stop price by average true range comes out without losing a digit.
pub open spec fn atr_stop_is_exact(
    entry: Decimal,
    atr: Decimal,
    multiple: Decimal,
    direction: Direction,
) -> bool {
    &&& multiplies_exactly(multiple, atr)
    &&& moves_exactly(entry, times(multiple, atr)->0, direction == Direction::Short)
}

fn atr_stop_price_inner(
    entry: Decimal,
    atr: Decimal,
    multiple: Decimal,
    direction: Direction,
) -> (r: Option<Decimal>)
    ensures
        r == atr_stop_price_spec(entry, atr, multiple, direction),
        r is Some ==> is_atr_stop_price(r->0, entry, atr, multiple, direction),
        r is Some && atr.units() > 0 && multiple.units() > 0 && atr_stop_is_exact(
            entry,
            atr,
            multiple,
            direction,
        ) ==> on_side(r->0, entry, direction == Direction::Long),
{
    match multiple.checked_mul(atr) {
        None => None,
        Some(distance) => {
            proof {
                if atr.units() > 0 && multiple.units() > 0 && atr_stop_is_exact(
                    entry,
                    atr,
                    multiple,
                    direction,
                ) {
                    lemma_product_positive(multiple, atr, distance.units());
                }
                if multiplies_exactly(multiple, atr) {
                    lemma_product_units(multiple, atr, distance.units());
                }
                assert forall|scale: nat| #[trigger]
                    ordinary_atr_stop(entry, atr, multiple, scale) implies atr_stop_is_exact(
                    entry,
                    atr,
                    multiple,
                    direction,
                ) by {
                    lemma_pow10_positive(MAX_SCALE as nat);
                    lemma_product_units(multiple, atr, distance.units());
                    lemma_have_room(
                        entry,
                        distance,
                        multiple.units() * atr.units(),
                        pow10(MAX_SCALE as nat),
                        scale,
                    );
                }
            }
            match direction {
                Direction::Long => entry.checked_sub(distance),
                Direction::Short => entry.checked_add(distance),
            }
        },
    }
}

/// The stop price by average true range where the arithmetic fits.
///
/// Where no digit is lost, a positive distance puts the stop below the entry for a
/// long and above it for a short.
pub fn checked_atr_stop_price(
    entry: Decimal,
    atr: Decimal,
    multiple: Decimal,
    direction: Direction,
) -> (r: Option<Decimal>)
    ensures
        r == atr_stop_price_spec(entry, atr, multiple, direction),
        r is Some ==> is_atr_stop_price(r->0, entry, atr, multiple, direction),
        r is Some && atr.units() > 0 && multiple.units() > 0 && atr_stop_is_exact(
            entry,
            atr,
            multiple,
            direction,
        ) ==> on_side(r->0, entry, direction == Direction::Long),
{
    if atr_stop_price_inner(entry, atr, multiple, direction).is_some() {
        Some(atr_stop_price(entry, atr, multiple, direction))
    } else {
        None
    }
}

/// The stop price by average true range.
pub fn atr_stop_price(
    entry: Decimal,
    atr: Decimal,
    multiple: Decimal,
    direction: Direction,
) -> (r: Decimal)
    requires
        atr_stop_price_spec(entry, atr, multiple, direction) is Some,
    ensures
        atr_stop_price_spec(entry, atr, multiple, direction) == Some(r),
        is_atr_stop_price(r, entry, atr, multiple, direction),
        atr.units() > 0 && multiple.units() > 0 && atr_stop_is_exact(
            entry,
            atr,
            multiple,
            direction,
        ) ==> on_side(r, entry, direction == Direction::Long),
{
    atr_stop_price_inner(entry, atr, multiple, direction).unwrap()
}

} // verus!
