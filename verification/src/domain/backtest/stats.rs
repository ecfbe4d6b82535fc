//! The derived summary statistics and the equity curve of a run.
//!
//! Everything here is a function of the finished trade log and the run totals.
//! Ratios are guarded: a zero denominator gives zero, or no profit factor.
use crate::decimal::{
    adds_exactly, comes_out_even, common_scale, divides_exactly, fits_at, lemma_comes_out_even,
    lemma_share, lemma_small_step, lemma_subtracts_exactly, lemma_units_sign, magnitude, magnitudes,
    minus, multiplies_exactly, over, plus, pow10, small_together, subtracts_exactly, times,
    top_scale, Decimal, MAX_MANTISSA, MAX_SCALE,
};
use crate::domain::backtest::figures::{
    all_lost, all_won, below_zero, law_trades_split, lemma_below_zero_next, lemma_no_trades,
    lemma_realized_next, lemma_squares_next, lemma_take_next, lemma_total_next, lemma_winners_next,
    losers, realized, squared_distances, total, unmoved, winners,
};
use crate::domain::backtest::trade::Trade;
use vstd::prelude::*;

verus! {

/// Zero, without digits behind the point.
pub open spec fn zero() -> Decimal {
    Decimal::of_parts(0, 0)
}

/// A whole number.
pub open spec fn whole(n: nat) -> Decimal {
    Decimal::of_parts(n as int, 0)
}

/// Whether a trade made money.
pub open spec fn is_win(t: Trade) -> bool {
    t.realized_pnl.units() > 0
}

/// Whether a trade lost money.
pub open spec fn is_loss(t: Trade) -> bool {
    t.realized_pnl.units() < 0
}

/// How many of the first `n` trades made money.
pub open spec fn wins(trades: Seq<Trade>, n: nat) -> nat
    decreases n,
{
    if n == 0 {
        0
    } else {
        wins(trades, (n - 1) as nat) + if is_win(trades[n - 1]) {
            1nat
        } else {
            0nat
        }
    }
}

/// How many of the first `n` trades lost money.
pub open spec fn losses(trades: Seq<Trade>, n: nat) -> nat
    decreases n,
{
    if n == 0 {
        0
    } else {
        losses(trades, (n - 1) as nat) + if is_loss(trades[n - 1]) {
            1nat
        } else {
            0nat
        }
    }
}

/// A running sum with one more summand; `None` once it no longer fits.
pub open spec fn add_next(sum: Option<Decimal>, d: Decimal) -> Option<Decimal> {
    match sum {
        Some(s) => plus(s, d),
        None => None,
    }
}

/// The sum of what the winners among the first `n` trades made.
pub open spec fn gross_profit(trades: Seq<Trade>, n: nat) -> Option<Decimal>
    decreases n,
{
    if n == 0 {
        Some(zero())
    } else {
        let before = gross_profit(trades, (n - 1) as nat);
        if is_win(trades[n - 1]) {
            add_next(before, trades[n - 1].realized_pnl)
        } else {
            before
        }
    }
}

/// A number with the opposite sign.
pub open spec fn opposite(d: Decimal) -> Decimal {
    Decimal::of_parts(-d.mantissa(), d.scale() as int)
}

/// The sum of what the losers among the first `n` trades lost, as a magnitude.
pub open spec fn gross_loss(trades: Seq<Trade>, n: nat) -> Option<Decimal>
    decreases n,
{
    if n == 0 {
        Some(zero())
    } else {
        let before = gross_loss(trades, (n - 1) as nat);
        if is_loss(trades[n - 1]) {
            add_next(before, opposite(trades[n - 1].realized_pnl))
        } else {
            before
        }
    }
}

/// What each trade realized.
pub open spec fn results(trades: Seq<Trade>) -> Seq<Decimal> {
    trades.map_values(|t: Trade| t.realized_pnl)
}

/// Whether the gross profit and the gross loss of the first `n` trades add up without
/// losing a digit.
pub open spec fn gross_is_exact(trades: Seq<Trade>, n: nat) -> bool
    decreases n,
{
    n > 0 ==> {
        let m = (n - 1) as nat;
        let pnl = trades[n - 1].realized_pnl;
        &&& gross_is_exact(trades, m)
        &&& is_win(trades[n - 1]) ==> adds_exactly(gross_profit(trades, m)->0, pnl)
        &&& is_loss(trades[n - 1]) ==> adds_exactly(gross_loss(trades, m)->0, opposite(pnl))
    }
}

/// A trade log with one flag per trade.
pub open spec fn flags(trades: Seq<Trade>, f: spec_fn(Trade) -> bool) -> Seq<bool> {
    trades.map_values(f)
}

/// Which trades made money.
pub open spec fn win_flags(trades: Seq<Trade>) -> Seq<bool> {
    flags(trades, |t: Trade| is_win(t))
}

/// Which trades lost money.
pub open spec fn loss_flags(trades: Seq<Trade>) -> Seq<bool> {
    flags(trades, |t: Trade| is_loss(t))
}

/// The length of the unbroken run of set flags that ends at position `n`.
pub open spec fn run_before(s: Seq<bool>, n: nat) -> nat
    decreases n,
{
    if n == 0 || !s[n - 1] {
        0
    } else {
        run_before(s, (n - 1) as nat) + 1
    }
}

/// The length of the longest unbroken run of set flags among the first `n`.
pub open spec fn longest_run(s: Seq<bool>, n: nat) -> nat
    decreases n,
{
    if n == 0 {
        0
    } else {
        let earlier = longest_run(s, (n - 1) as nat);
        if run_before(s, n) > earlier {
            run_before(s, n)
        } else {
            earlier
        }
    }
}

/// Whether the flags in `from..to` are all set.
pub open spec fn all_set(s: Seq<bool>, from: int, to: int) -> bool {
    0 <= from <= to <= s.len() && forall|i: int| from <= i < to ==> #[trigger] s[i]
}

/// The longest run is an unbroken run, and no unbroken run is longer.
pub proof fn law_longest_run(s: Seq<bool>)
    ensures
        exists|from: int, to: int|
            #[trigger] all_set(s, from, to) && to - from == longest_run(s, s.len()),
        forall|from: int, to: int| #[trigger]
            all_set(s, from, to) ==> to - from <= longest_run(s, s.len()),
{
    lemma_longest_run(s, s.len());
    let (from, to) = choose|from: int, to: int| #[trigger]
        all_set(s, from, to) && to <= s.len() && to - from == longest_run(s, s.len());
    assert(all_set(s, from, to));
}

proof fn lemma_run_before(s: Seq<bool>, n: nat)
    requires
        n <= s.len(),
    ensures
        run_before(s, n) <= n,
        all_set(s, n - run_before(s, n), n as int),
        forall|from: int| #[trigger] all_set(s, from, n as int) ==> n - from <= run_before(s, n),
    decreases n,
{
    if n > 0 && s[n - 1] {
        let m = (n - 1) as nat;
        lemma_run_before(s, m);
        assert forall|from: int| #[trigger] all_set(s, from, n as int) implies n - from
            <= run_before(s, n) by {
            if from < n {
                assert(all_set(s, from, m as int));
            }
        }
    } else if n > 0 {
        assert forall|from: int| #[trigger] all_set(s, from, n as int) implies n - from <= 0 by {
            if from < n {
                assert(s[n - 1]);
            }
        }
    }
}

proof fn lemma_longest_run(s: Seq<bool>, n: nat)
    requires
        n <= s.len(),
    ensures
        longest_run(s, n) <= n,
        exists|from: int, to: int| #[trigger]
            all_set(s, from, to) && to <= n && to - from == longest_run(s, n),
        forall|from: int, to: int| #[trigger]
            all_set(s, from, to) && to <= n ==> to - from <= longest_run(s, n),
    decreases n,
{
    if n == 0 {
        assert(all_set(s, 0, 0));
    } else {
        let m = (n - 1) as nat;
        lemma_longest_run(s, m);
        lemma_run_before(s, n);
        if run_before(s, n) > longest_run(s, m) {
            assert(all_set(s, n - run_before(s, n), n as int));
        } else {
            let (from, to) = choose|from: int, to: int| #[trigger]
                all_set(s, from, to) && to <= m && to - from == longest_run(s, m);
            assert(all_set(s, from, to));
        }
    }
}

/// A ratio, or zero where the denominator is zero.
pub open spec fn guarded_ratio(numerator: Decimal, denominator: Decimal) -> Option<Decimal> {
    if denominator.units() == 0 {
        Some(zero())
    } else {
        over(numerator, denominator)
    }
}

/// Whether `r` is the ratio of two numbers to the last digit, where it comes out even.
pub open spec fn is_ratio(r: Decimal, numerator: Decimal, denominator: Decimal) -> bool {
    divides_exactly(numerator, denominator) ==> r.units() * denominator.units()
        == numerator.units() * pow10(MAX_SCALE as nat)
}

/// Whether `r` is the share of one in `n` of a number, where the share comes out even.
pub open spec fn is_share(r: Decimal, units: int, n: nat, scale: nat) -> bool {
    comes_out_even(units, n, scale) ==> r.units() * n == units
}

/// A ratio to a count is a share.
pub(crate) proof fn lemma_ratio_is_share(r: Decimal, numerator: Decimal, n: nat, scale: nat)
    requires
        is_ratio(r, numerator, whole(n)),
        numerator.scale() <= scale,
        whole(n).mantissa() == n,
        whole(n).scale() == 0,
    ensures
        is_share(r, numerator.units(), n, scale),
{
    if comes_out_even(numerator.units(), n, scale) {
        lemma_comes_out_even(numerator, whole(n), n, scale);
        lemma_share(r.units(), numerator.units(), n as int);
    }
}

fn ratio(numerator: Decimal, denominator: Decimal) -> (r: Option<Decimal>)
    ensures
        r == guarded_ratio(numerator, denominator),
        r is Some ==> is_ratio(r->0, numerator, denominator),
        numerator.scale() == 0 && denominator.scale() == 0 && 0 <= numerator.mantissa()
            <= denominator.mantissa() ==> r is Some && 0 <= r->0.units() <= pow10(
            MAX_SCALE as nat,
        ),
        r is Some && numerator.units() >= 0 && denominator.units() >= 0 ==> r->0.units() >= 0,
        r is Some && numerator.units() <= 0 && denominator.units() >= 0 ==> r->0.units() <= 0,
{
    proof {
        lemma_units_sign(denominator);
        crate::decimal::lemma_pow10_positive(MAX_SCALE as nat);
    }
    if denominator.is_zero() {
        Some(Decimal::zero())
    } else {
        numerator.checked_div(denominator)
    }
}

// ---------------------------------------------------------------------------
// The equity curve.
// ---------------------------------------------------------------------------

/// A point on the equity curve.
#[derive(Clone, Copy, Debug, PartialEq, Eq)]
pub struct EquityPoint {
    /// Point time, UTC epoch milliseconds.
    pub time_ms: i64,
    /// Account equity at this point.
    pub equity: Decimal,
}

/// The equity over a run: the start, then one point per closed trade, each stepping
/// by what the trade realized, off a constant base.
#[derive(Clone, Debug, PartialEq, Eq)]
pub struct EquityCurve(pub Vec<EquityPoint>);

impl View for EquityCurve {
    type V = Seq<EquityPoint>;

    open spec fn view(&self) -> Seq<EquityPoint> {
        self.0@
    }
}

impl Default for EquityCurve {
    fn default() -> (r: EquityCurve)
        ensures
            r@ == Seq::<EquityPoint>::empty(),
    {
        EquityCurve(Vec::new())
    }
}

/// The equity after the first `n` trades: the start and what they realized.
pub open spec fn equity_after(start: Decimal, trades: Seq<Trade>, n: nat) -> Option<Decimal>
    decreases n,
{
    if n == 0 {
        Some(start)
    } else {
        add_next(equity_after(start, trades, (n - 1) as nat), trades[n - 1].realized_pnl)
    }
}

/// Whether every point of the curve fits.
pub open spec fn equity_fits(start: Decimal, trades: Seq<Trade>) -> bool {
    equity_after(start, trades, trades.len()) is Some
}

/// The sum of what the first `n` trades realized, in units.
pub open spec fn realized_units(trades: Seq<Trade>, n: nat) -> int
    decreases n,
{
    if n == 0 {
        0
    } else {
        realized_units(trades, (n - 1) as nat) + trades[n - 1].realized_pnl.units()
    }
}

/// Whether the curve is built without losing a digit.
pub open spec fn equity_is_exact(start: Decimal, trades: Seq<Trade>) -> bool {
    forall|n: nat|
        n < trades.len() ==> adds_exactly(
            (#[trigger] equity_after(start, trades, n))->0,
            trades[n as int].realized_pnl,
        )
}

/// The points of a curve.
pub open spec fn curve_points(run_start_time_ms: i64, start: Decimal, trades: Seq<Trade>) -> Seq<
    EquityPoint,
> {
    Seq::new(
        trades.len() + 1,
        |i: int|
            EquityPoint {
                time_ms: if i == 0 {
                    run_start_time_ms
                } else {
                    trades[i - 1].exit_fill_time
                },
                equity: equity_after(start, trades, i as nat)->0,
            },
    )
}

proof fn lemma_equity_prefix(start: Decimal, trades: Seq<Trade>, i: nat, n: nat)
    requires
        i <= n,
        equity_after(start, trades, n) is Some,
    ensures
        equity_after(start, trades, i) is Some,
    decreases n,
{
    if i < n {
        lemma_equity_prefix(start, trades, i, (n - 1) as nat);
    }
}

proof fn lemma_equity_stays_none(start: Decimal, trades: Seq<Trade>, i: nat, n: nat)
    requires
        i <= n,
        equity_after(start, trades, i) is None,
    ensures
        equity_after(start, trades, n) is None,
    decreases n,
{
    if i < n {
        lemma_equity_stays_none(start, trades, i, (n - 1) as nat);
    }
}

/// What a curve is, said of the trade log alone: the start, then one point per trade at the
/// time it closed; and, where the start and the results are small together, at the start
/// and everything realized up to there.
pub open spec fn is_curve_of(
    points: Seq<EquityPoint>,
    run_start_time_ms: i64,
    start: Decimal,
    trades: Seq<Trade>,
) -> bool {
    &&& points.len() == trades.len() + 1
    &&& points[0].time_ms == run_start_time_ms
    &&& points[0].equity == start
    &&& forall|i: int|
        0 <= i < trades.len() ==> points[i + 1].time_ms == (#[trigger] trades[i]).exit_fill_time
    &&& small_together(start, results(trades)) ==> forall|i: int|
        0 <= i <= trades.len() ==> (#[trigger] points[i]).equity.units() == start.units() + realized(
            trades.take(i),
        )
}

fn build_curve(run_start_time_ms: i64, starting_equity: Decimal, trades: &[Trade]) -> (r: Option<
    EquityCurve,
>)
    ensures
        r is Some <==> equity_fits(starting_equity, trades@),
        r is Some ==> r->0@ == curve_points(run_start_time_ms, starting_equity, trades@),
        r is Some && equity_is_exact(starting_equity, trades@) ==> r->0@.last().equity.units()
            == starting_equity.units() + realized_units(trades@, trades@.len()),
        small_together(starting_equity, results(trades@)) ==> r is Some && equity_is_exact(
            starting_equity,
            trades@,
        ),
        r is Some ==> is_curve_of(r->0@, run_start_time_ms, starting_equity, trades@),
{
    proof {
        lemma_no_trades();
        assert(trades@.take(0) =~= Seq::empty());
    }
    let n = trades.len();
    let ghost steps = results(trades@);
    let mut points: Vec<EquityPoint> = Vec::new();
    points.push(EquityPoint { time_ms: run_start_time_ms, equity: starting_equity });
    let mut running = starting_equity;
    let mut i: usize = 0;
    while i < n
        invariant
            n == trades@.len(),
            i <= n,
            points@.len() == i + 1,
            equity_after(starting_equity, trades@, i as nat) == Some(running),
            equity_is_exact(starting_equity, trades@) ==> running.units()
                == starting_equity.units() + realized_units(trades@, i as nat),
            steps == results(trades@),
            small_together(starting_equity, steps) ==> {
                &&& running.scale() <= top_scale(starting_equity, steps, i as nat)
                &&& magnitude(running.units()) <= magnitudes(starting_equity, steps, i as nat)
                &&& forall|m: nat|
                    m < i ==> adds_exactly(
                        (#[trigger] equity_after(starting_equity, trades@, m))->0,
                        trades@[m as int].realized_pnl,
                    )
                &&& running.units() == starting_equity.units() + realized(trades@.take(i as int))
                &&& forall|j: int|
                    0 <= j <= i ==> (#[trigger] points@[j]).equity.units()
                        == starting_equity.units() + realized(trades@.take(j))
            },
            points@[0].time_ms == run_start_time_ms,
            points@[0].equity == starting_equity,
            forall|j: int|
                0 <= j < i ==> points@[j + 1].time_ms == (#[trigger] trades@[j]).exit_fill_time,
            forall|j: int|
                0 <= j <= i ==> #[trigger] points@[j] == curve_points(
                    run_start_time_ms,
                    starting_equity,
                    trades@,
                )[j],
        decreases n - i,
    {
        let trade = &trades[i];
        proof {
            lemma_take_next(trades@, i as int);
            lemma_realized_next(trades@.take(i as int), trades@[i as int]);
            if small_together(starting_equity, steps) {
                lemma_small_step(
                    starting_equity,
                    steps,
                    i as nat,
                    running,
                    trade.realized_pnl,
                );
            }
            if equity_is_exact(starting_equity, trades@) {
                assert(adds_exactly(
                    equity_after(starting_equity, trades@, i as nat)->0,
                    trades@[i as int].realized_pnl,
                ));
            }
        }
        match running.checked_add(trade.realized_pnl) {
            Some(sum) => {
                running = sum;
            },
            None => {
                proof {
                    lemma_equity_stays_none(
                        starting_equity,
                        trades@,
                        (i + 1) as nat,
                        n as nat,
                    );
                }
                return None;
            },
        }
        points.push(EquityPoint { time_ms: trade.exit_fill_time, equity: running });
        i = i + 1;
    }
    assert(points@ =~= curve_points(run_start_time_ms, starting_equity, trades@));
    Some(EquityCurve(points))
}

// ---------------------------------------------------------------------------
// Drawdown.
// ---------------------------------------------------------------------------

/// The highest equity among the first `n` points, the earliest of equals.
pub open spec fn peak(points: Seq<EquityPoint>, n: nat) -> Decimal
    decreases n,
{
    if n <= 1 {
        points[0].equity
    } else {
        let before = peak(points, (n - 1) as nat);
        if points[n - 1].equity.units() > before.units() {
            points[n - 1].equity
        } else {
            before
        }
    }
}

/// The deepest decline from a peak among the first `n` points; `None` where a
/// decline does not fit.
pub open spec fn drawdown(points: Seq<EquityPoint>, n: nat) -> Option<Decimal>
    decreases n,
{
    if n == 0 {
        Some(zero())
    } else {
        match drawdown(points, (n - 1) as nat) {
            None => None,
            Some(deepest) => match minus(peak(points, n), points[n - 1].equity) {
                None => None,
                Some(decline) => if decline.units() > deepest.units() {
                    Some(decline)
                } else {
                    Some(deepest)
                },
            },
        }
    }
}

/// Whether a curve never declines.
pub open spec fn never_declines(points: Seq<EquityPoint>) -> bool {
    forall|i: int, j: int|
        0 <= i <= j < points.len() ==> (#[trigger] points[i]).equity.units() <= (
        #[trigger] points[j]).equity.units()
}

/// What the deepest decline of a curve is in numbers: not negative, zero where the curve
/// never declines, and, where no digit is lost, the largest difference between a point
/// and a later one.
pub open spec fn is_deepest_decline(r: Decimal, points: Seq<EquityPoint>) -> bool {
    &&& r.units() >= 0
    &&& never_declines(points) ==> r == zero()
    &&& declines_exactly(points) ==> {
        &&& forall|i: int, j: int|
            0 <= i <= j < points.len() ==> (#[trigger] points[i]).equity.units() - (
            #[trigger] points[j]).equity.units() <= r.units()
        &&& r.units() > 0 ==> exists|i: int, j: int|
            0 <= i <= j < points.len() && (#[trigger] points[i]).equity.units() - (
            #[trigger] points[j]).equity.units() == r.units()
    }
}

/// Whether every decline from a peak comes out without losing a digit.
pub open spec fn declines_exactly(points: Seq<EquityPoint>) -> bool {
    forall|n: nat|
        0 < n <= points.len() ==> subtracts_exactly(
            #[trigger] peak(points, n),
            points[n - 1].equity,
        )
}

proof fn lemma_peak(points: Seq<EquityPoint>, n: nat)
    requires
        0 < n <= points.len(),
    ensures
        exists|i: int| 0 <= i < n && peak(points, n) == (#[trigger] points[i]).equity,
        forall|i: int|
            0 <= i < n ==> (#[trigger] points[i]).equity.units() <= peak(points, n).units(),
    decreases n,
{
    if n > 1 {
        lemma_peak(points, (n - 1) as nat);
        let before = peak(points, (n - 1) as nat);
        let i = choose|i: int|
            0 <= i < n - 1 && before == (#[trigger] points[i]).equity;
        assert(points[i].equity == before);
        assert(points[n - 1].equity == points[n - 1].equity);
    } else {
        assert(points[0].equity == peak(points, n));
    }
}

/// Two equal numbers subtract without losing a digit.
proof fn lemma_equal_numbers_subtract(a: Decimal, b: Decimal)
    requires
        a.wf(),
        b.wf(),
        a.units() == b.units(),
    ensures
        subtracts_exactly(a, b),
{
    if a.scale() >= b.scale() {
        lemma_same_mantissa(a, b);
    } else {
        lemma_same_mantissa(b, a);
    }
}

proof fn lemma_same_mantissa(a: Decimal, b: Decimal)
    requires
        a.wf(),
        b.wf(),
        a.units() == b.units(),
        a.scale() >= b.scale(),
    ensures
        crate::decimal::mantissa_at(b, a.scale() as nat) == a.mantissa(),
        crate::decimal::mantissa_at(a, a.scale() as nat) == a.mantissa(),
{
    let sa = a.scale() as nat;
    let rest = (MAX_SCALE - sa) as nat;
    let gap = (sa - b.scale()) as nat;
    crate::decimal::lemma_pow10_add(gap, rest);
    crate::decimal::lemma_pow10_positive(rest);
    assert(pow10(0) == 1);
    let p = pow10(rest);
    let g = pow10(gap);
    let ma = a.mantissa() as int;
    let mb = b.mantissa() as int;
    assert(ma * p == mb * (g * p));
    assert(ma == mb * g) by (nonlinear_arith)
        requires
            ma * p == mb * (g * p),
            p >= 1,
    ;
}

/// Every decline of a curve comes out without losing a digit where the points, taken twice,
/// fit a mantissa at a scale that none of them exceeds.
pub proof fn law_small_curves_decline_exactly(points: Seq<EquityPoint>, scale: nat)
    requires
        scale <= MAX_SCALE,
        forall|i: int| 0 <= i < points.len() ==> (#[trigger] points[i]).equity.scale() <= scale,
        forall|i: int|
            0 <= i < points.len() ==> fits_at(2 * (#[trigger] points[i]).equity.units(), scale),
    ensures
        declines_exactly(points),
{
    assert forall|n: nat| 0 < n <= points.len() implies subtracts_exactly(
        #[trigger] peak(points, n),
        points[n - 1].equity,
    ) by {
        lemma_peak(points, n);
        let m = choose|m: int| 0 <= m < n && peak(points, n) == (#[trigger] points[m]).equity;
        assert(points[m].equity.scale() <= scale && points[n - 1].equity.scale() <= scale);
        assert(fits_at(2 * points[m].equity.units(), scale));
        assert(fits_at(2 * points[n - 1].equity.units(), scale));
        lemma_subtracts_exactly(points[m].equity, points[n - 1].equity, scale);
    }
}

fn deepest_decline(points: &Vec<EquityPoint>) -> (r: Option<Decimal>)
    ensures
        r == drawdown(points@, points@.len()),
        r is Some ==> is_deepest_decline(r->0, points@),
{
    let n = points.len();
    let mut highest = Decimal::zero();
    let mut deepest = Decimal::zero();
    let mut i: usize = 0;
    while i < n
        invariant
            n == points@.len(),
            i <= n,
            i > 0 ==> highest == peak(points@, i as nat),
            drawdown(points@, i as nat) == Some(deepest),
            deepest.units() >= 0,
            never_declines(points@) ==> deepest == zero(),
            declines_exactly(points@) ==> forall|a: int, b: int|
                0 <= a <= b < i ==> (#[trigger] points@[a]).equity.units() - (
                #[trigger] points@[b]).equity.units() <= deepest.units(),
            declines_exactly(points@) && deepest.units() > 0 ==> exists|a: int, b: int|
                0 <= a <= b < i && (#[trigger] points@[a]).equity.units() - (
                #[trigger] points@[b]).equity.units() == deepest.units(),
        decreases n - i,
    {
        let equity = points[i].equity;
        if i == 0 || highest.lt(&equity) {
            highest = equity;
        }
        proof {
            lemma_peak(points@, (i + 1) as nat);
            let m = choose|m: int|
                0 <= m < i + 1 && peak(points@, (i + 1) as nat) == (#[trigger] points@[m]).equity;
            assert(highest == points@[m].equity);
            if never_declines(points@) {
                assert(points@[m].equity.units() <= points@[i as int].equity.units());
                assert(highest.units() == equity.units());
                use_type_invariant(&highest);
                use_type_invariant(&equity);
                lemma_equal_numbers_subtract(highest, equity);
            }
            if declines_exactly(points@) {
                assert(subtracts_exactly(peak(points@, (i + 1) as nat), equity));
            }
        }
        let ghost before = deepest;
        match highest.checked_sub(equity) {
            None => {
                proof {
                    lemma_drawdown_stays_none(points@, (i + 1) as nat, n as nat);
                }
                return None;
            },
            Some(decline) => {
                if deepest.lt(&decline) {
                    deepest = decline;
                    proof {
                        if declines_exactly(points@) {
                            let m = choose|m: int|
                                0 <= m < i + 1 && peak(points@, (i + 1) as nat) == (
                                #[trigger] points@[m]).equity;
                            assert(points@[m].equity.units() - points@[i as int].equity.units()
                                == deepest.units());
                        }
                    }
                }
            },
        }
        i = i + 1;
    }
    Some(deepest)
}

proof fn lemma_drawdown_stays_none(points: Seq<EquityPoint>, i: nat, n: nat)
    requires
        i <= n,
        drawdown(points, i) is None,
    ensures
        drawdown(points, n) is None,
    decreases n,
{
    if i < n {
        lemma_drawdown_stays_none(points, i, (n - 1) as nat);
    }
}

impl EquityCurve {
    /// Builds the curve of a run.
    ///
    /// Where no digit is lost, the last point is the start plus everything the trades
    /// realized; and none is lost where the start and the results are small together.
    pub fn from_trades(run_start_time_ms: i64, starting_equity: Decimal, trades: &[Trade]) -> (r:
        EquityCurve)
        requires
            equity_fits(starting_equity, trades@),
        ensures
            r@ == curve_points(run_start_time_ms, starting_equity, trades@),
            is_curve_of(r@, run_start_time_ms, starting_equity, trades@),
            equity_is_exact(starting_equity, trades@) ==> r@.last().equity.units()
                == starting_equity.units() + realized_units(trades@, trades@.len()),
            small_together(starting_equity, results(trades@)) ==> equity_is_exact(
                starting_equity,
                trades@,
            ),
    {
        build_curve(run_start_time_ms, starting_equity, trades).unwrap()
    }

    /// Builds the curve of a run where every point of it fits.
    pub fn checked_from_trades(
        run_start_time_ms: i64,
        starting_equity: Decimal,
        trades: &[Trade],
    ) -> (r: Option<EquityCurve>)
        ensures
            r is Some <==> equity_fits(starting_equity, trades@),
            r is Some ==> r->0@ == curve_points(run_start_time_ms, starting_equity, trades@),
            r is Some ==> is_curve_of(r->0@, run_start_time_ms, starting_equity, trades@),
            r is Some && equity_is_exact(starting_equity, trades@) ==> r->0@.last().equity.units()
                == starting_equity.units() + realized_units(trades@, trades@.len()),
            small_together(starting_equity, results(trades@)) ==> r is Some && equity_is_exact(
                starting_equity,
                trades@,
            ),
    {
        if build_curve(run_start_time_ms, starting_equity, trades).is_some() {
            Some(EquityCurve::from_trades(run_start_time_ms, starting_equity, trades))
        } else {
            None
        }
    }

    /// The deepest decline from a peak, as a magnitude.
    pub fn max_drawdown(&self) -> (r: Decimal)
        requires
            drawdown(self@, self@.len()) is Some,
        ensures
            drawdown(self@, self@.len()) == Some(r),
            is_deepest_decline(r, self@),
    {
        deepest_decline(&self.0).unwrap()
    }

    /// The deepest decline from a peak, where every decline fits.
    pub fn checked_max_drawdown(&self) -> (r: Option<Decimal>)
        ensures
            r == drawdown(self@, self@.len()),
            r is Some ==> is_deepest_decline(r->0, self@),
    {
        if deepest_decline(&self.0).is_some() {
            Some(self.max_drawdown())
        } else {
            None
        }
    }
}

// ---------------------------------------------------------------------------
// The summary.
// ---------------------------------------------------------------------------

/// The summary statistics of a run.
#[derive(Clone, Copy, Debug, PartialEq, Eq)]
pub struct SummaryStats {
    /// Number of closed trades in the run.
    pub trade_count: usize,
    /// Number of trades that made money.
    pub win_count: usize,
    /// Number of trades that lost money.
    pub loss_count: usize,
    /// Fraction of trades that made money, in `[0, 1]`.
    pub win_rate: Decimal,
    /// Sum of what the winners made.
    pub gross_profit: Decimal,
    /// Sum of what the losers lost, as a magnitude.
    pub gross_loss: Decimal,
    /// Net result across the run.
    pub net_pnl: Decimal,
    /// Gross profit over gross loss, where there is a loss.
    pub profit_factor: Option<Decimal>,
    /// Mean result of the winners.
    pub avg_win: Decimal,
    /// Mean loss of the losers, as a magnitude.
    pub avg_loss: Decimal,
    /// Mean result per trade.
    pub expectancy: Decimal,
    /// Deepest decline of the equity curve, as a magnitude.
    pub max_drawdown: Decimal,
    /// The longest run of consecutive winners.
    pub max_win_streak: usize,
    /// The longest run of consecutive losers.
    pub max_loss_streak: usize,
    /// Total taker commission across the run.
    pub commission_total: Decimal,
    /// Total signed funding across the run.
    pub funding_total: Decimal,
}

/// The summary of a run without trades.
pub open spec fn empty_summary() -> SummaryStats {
    SummaryStats {
        trade_count: 0,
        win_count: 0,
        loss_count: 0,
        win_rate: zero(),
        gross_profit: zero(),
        gross_loss: zero(),
        net_pnl: zero(),
        profit_factor: None,
        avg_win: zero(),
        avg_loss: zero(),
        expectancy: zero(),
        max_drawdown: zero(),
        max_win_streak: 0,
        max_loss_streak: 0,
        commission_total: zero(),
        funding_total: zero(),
    }
}

impl Default for SummaryStats {
    fn default() -> (r: SummaryStats)
        ensures
            r == empty_summary(),
    {
        let z = Decimal::zero();
        SummaryStats {
            trade_count: 0,
            win_count: 0,
            loss_count: 0,
            win_rate: z,
            gross_profit: z,
            gross_loss: z,
            net_pnl: z,
            profit_factor: None,
            avg_win: z,
            avg_loss: z,
            expectancy: z,
            max_drawdown: z,
            max_win_streak: 0,
            max_loss_streak: 0,
            commission_total: z,
            funding_total: z,
        }
    }
}

/// The profit factor: none where nothing was lost.
pub open spec fn profit_factor(profit: Decimal, loss: Decimal) -> Option<Option<Decimal>> {
    if loss.units() == 0 {
        Some(None)
    } else {
        match over(profit, loss) {
            Some(f) => Some(Some(f)),
            None => None,
        }
    }
}

/// Whether every sum and ratio of a summary fits.
pub open spec fn summary_fits(
    trades: Seq<Trade>,
    net_pnl: Decimal,
    curve: Seq<EquityPoint>,
) -> bool {
    let n = trades.len();
    let profit = gross_profit(trades, n);
    let loss = gross_loss(trades, n);
    &&& profit is Some
    &&& loss is Some
    &&& profit_factor(profit->0, loss->0) is Some
    &&& guarded_ratio(profit->0, whole(wins(trades, n))) is Some
    &&& guarded_ratio(loss->0, whole(losses(trades, n))) is Some
    &&& guarded_ratio(net_pnl, whole(n)) is Some
    &&& drawdown(curve, curve.len()) is Some
}

/// The summary of a run: every figure of it, over the trade log, the totals and the
/// equity curve.
pub open spec fn summary_of(
    trades: Seq<Trade>,
    net_pnl: Decimal,
    fees_total: Decimal,
    funding_total: Decimal,
    curve: Seq<EquityPoint>,
) -> SummaryStats {
    let n = trades.len();
    let profit = gross_profit(trades, n)->0;
    let loss = gross_loss(trades, n)->0;
    SummaryStats {
        trade_count: n as usize,
        win_count: wins(trades, n) as usize,
        loss_count: losses(trades, n) as usize,
        win_rate: guarded_ratio(whole(wins(trades, n)), whole(n))->0,
        gross_profit: profit,
        gross_loss: loss,
        net_pnl,
        profit_factor: profit_factor(profit, loss)->0,
        avg_win: guarded_ratio(profit, whole(wins(trades, n)))->0,
        avg_loss: guarded_ratio(loss, whole(losses(trades, n)))->0,
        expectancy: guarded_ratio(net_pnl, whole(n))->0,
        max_drawdown: drawdown(curve, curve.len())->0,
        max_win_streak: longest_run(win_flags(trades), n) as usize,
        max_loss_streak: longest_run(loss_flags(trades), n) as usize,
        commission_total: fees_total,
        funding_total,
    }
}

/// What the sums of a trade log add up to.
struct Tally {
    win_count: usize,
    loss_count: usize,
    gross_profit: Decimal,
    gross_loss: Decimal,
    max_win_streak: usize,
    max_loss_streak: usize,
}

proof fn lemma_sums_stay_none(trades: Seq<Trade>, i: nat, n: nat)
    requires
        i <= n,
    ensures
        gross_profit(trades, i) is None ==> gross_profit(trades, n) is None,
        gross_loss(trades, i) is None ==> gross_loss(trades, n) is None,
    decreases n,
{
    if i < n {
        lemma_sums_stay_none(trades, i, (n - 1) as nat);
    }
}

/// Walks the trade log once.
fn tally(trades: &[Trade]) -> (r: Option<Tally>)
    ensures
        r is Some <==> gross_profit(trades@, trades@.len()) is Some && gross_loss(
            trades@,
            trades@.len(),
        ) is Some,
        r is Some ==> {
            let n = trades@.len();
            let t = r->0;
            &&& t.win_count == wins(trades@, n)
            &&& t.loss_count == losses(trades@, n)
            &&& t.win_count + t.loss_count <= n
            &&& gross_profit(trades@, n) == Some(t.gross_profit)
            &&& gross_loss(trades@, n) == Some(t.gross_loss)
            &&& t.gross_profit.units() >= 0
            &&& t.gross_loss.units() >= 0
            &&& t.gross_profit.units() == 0 <==> t.win_count == 0
            &&& t.gross_loss.units() == 0 <==> t.loss_count == 0
            &&& gross_is_exact(trades@, n) ==> t.gross_profit.units() - t.gross_loss.units()
                == realized_units(trades@, n)
            &&& t.max_win_streak == longest_run(win_flags(trades@), n)
            &&& t.max_loss_streak == longest_run(loss_flags(trades@), n)
        },
        small_together(zero(), results(trades@)) ==> r is Some && gross_is_exact(
            trades@,
            trades@.len(),
        ),
        r is Some ==> r->0.win_count == winners(trades@).len() && r->0.loss_count == losers(
            trades@,
        ).len(),
        small_together(zero(), results(trades@)) ==> {
            let scale = top_scale(zero(), results(trades@), trades@.len());
            &&& r->0.gross_profit.units() == realized(winners(trades@))
            &&& r->0.gross_loss.units() == -realized(losers(trades@))
            &&& r->0.gross_profit.scale() <= scale
            &&& r->0.gross_loss.scale() <= scale
        },
{
    let n = trades.len();
    let ghost steps = results(trades@);
    proof {
        lemma_no_trades();
        assert(trades@.take(0) =~= Seq::empty());
    }
    let ghost won = win_flags(trades@);
    let ghost lost = loss_flags(trades@);
    let none = Decimal::zero();
    let mut win_count: usize = 0;
    let mut loss_count: usize = 0;
    let mut profit = Decimal::zero();
    let mut loss = Decimal::zero();
    let mut max_win_streak: usize = 0;
    let mut max_loss_streak: usize = 0;
    let mut cur_win_streak: usize = 0;
    let mut cur_loss_streak: usize = 0;
    let mut i: usize = 0;
    while i < n
        invariant
            n == trades@.len(),
            i <= n,
            none.units() == 0,
            won == win_flags(trades@),
            lost == loss_flags(trades@),
            win_count == wins(trades@, i as nat),
            loss_count == losses(trades@, i as nat),
            win_count + loss_count <= i,
            gross_profit(trades@, i as nat) == Some(profit),
            gross_loss(trades@, i as nat) == Some(loss),
            profit.units() >= 0,
            loss.units() >= 0,
            profit.units() == 0 <==> win_count == 0,
            loss.units() == 0 <==> loss_count == 0,
            gross_is_exact(trades@, i as nat) ==> profit.units() - loss.units()
                == realized_units(trades@, i as nat),
            steps == results(trades@),
            small_together(zero(), steps) ==> {
                &&& gross_is_exact(trades@, i as nat)
                &&& profit.scale() <= top_scale(zero(), steps, i as nat)
                &&& loss.scale() <= top_scale(zero(), steps, i as nat)
                &&& magnitude(profit.units()) <= magnitudes(zero(), steps, i as nat)
                &&& magnitude(loss.units()) <= magnitudes(zero(), steps, i as nat)
                &&& profit.units() == realized(winners(trades@.take(i as int)))
                &&& loss.units() == -realized(losers(trades@.take(i as int)))
            },
            win_count == winners(trades@.take(i as int)).len(),
            loss_count == losers(trades@.take(i as int)).len(),
            cur_win_streak <= i,
            cur_loss_streak <= i,
            cur_win_streak == run_before(won, i as nat),
            cur_loss_streak == run_before(lost, i as nat),
            max_win_streak == longest_run(won, i as nat),
            max_loss_streak == longest_run(lost, i as nat),
        decreases n - i,
    {
        let pnl = trades[i].realized_pnl;
        assert(won[i as int] == is_win(trades@[i as int]));
        assert(lost[i as int] == is_loss(trades@[i as int]));
        let lost_amount = pnl.negated();
        proof {
            let past = trades@.take(i as int);
            lemma_take_next(trades@, i as int);
            lemma_winners_next(past, trades@[i as int]);
            lemma_realized_next(winners(past), trades@[i as int]);
            lemma_realized_next(losers(past), trades@[i as int]);
            if small_together(zero(), steps) {
                lemma_small_step(zero(), steps, i as nat, profit, pnl);
                lemma_small_step(zero(), steps, i as nat, loss, lost_amount);
            }
        }
        if none.lt(&pnl) {
            win_count = win_count + 1;
            match profit.checked_add(pnl) {
                Some(sum) => {
                    profit = sum;
                },
                None => {
                    proof {
                        lemma_sums_stay_none(trades@, (i + 1) as nat, n as nat);
                    }
                    return None;
                },
            }
            cur_win_streak = cur_win_streak + 1;
            cur_loss_streak = 0;
            if cur_win_streak > max_win_streak {
                max_win_streak = cur_win_streak;
            }
        } else if pnl.lt(&none) {
            loss_count = loss_count + 1;
            match loss.checked_add(lost_amount) {
                Some(sum) => {
                    loss = sum;
                },
                None => {
                    proof {
                        lemma_sums_stay_none(trades@, (i + 1) as nat, n as nat);
                    }
                    return None;
                },
            }
            cur_loss_streak = cur_loss_streak + 1;
            cur_win_streak = 0;
            if cur_loss_streak > max_loss_streak {
                max_loss_streak = cur_loss_streak;
            }
        } else {
            cur_win_streak = 0;
            cur_loss_streak = 0;
        }
        i = i + 1;
    }
    assert(trades@.take(n as int) =~= trades@);
    Some(
        Tally {
            win_count,
            loss_count,
            gross_profit: profit,
            gross_loss: loss,
            max_win_streak,
            max_loss_streak,
        },
    )
}

/// The wins and the losses are the numbers of trades above and below zero; together with
/// the trades that came out even they make up the log, and so does what they realized.
pub proof fn law_wins_and_losses_are_counted(trades: Seq<Trade>)
    ensures
        wins(trades, trades.len()) == trades.filter(|t: Trade| t.realized_pnl.units() > 0).len(),
        losses(trades, trades.len()) == trades.filter(|t: Trade| t.realized_pnl.units() < 0).len(),
        wins(trades, trades.len()) + losses(trades, trades.len()) + trades.filter(
            |t: Trade| t.realized_pnl.units() == 0,
        ).len() == trades.len(),
        realized_units(trades, trades.len()) == trades.fold_left(
            0int,
            |s: int, t: Trade| s + t.realized_pnl.units(),
        ),
{
    lemma_counts(trades, trades.len());
    assert(trades.take(trades.len() as int) =~= trades);
    law_trades_split(trades);
    assert(winners(trades) == trades.filter(|t: Trade| t.realized_pnl.units() > 0));
    assert(losers(trades) == trades.filter(|t: Trade| t.realized_pnl.units() < 0));
    assert(unmoved(trades) == trades.filter(|t: Trade| t.realized_pnl.units() == 0));
    assert(realized(trades) == trades.fold_left(
        0int,
        |s: int, t: Trade| s + t.realized_pnl.units(),
    ));
}

proof fn lemma_counts(trades: Seq<Trade>, n: nat)
    requires
        n <= trades.len(),
    ensures
        wins(trades, n) == winners(trades.take(n as int)).len(),
        losses(trades, n) == losers(trades.take(n as int)).len(),
        realized_units(trades, n) == realized(trades.take(n as int)),
    decreases n,
{
    lemma_no_trades();
    if n > 0 {
        let m = (n - 1) as nat;
        lemma_counts(trades, m);
        lemma_take_next(trades, m as int);
        lemma_winners_next(trades.take(m as int), trades[m as int]);
        lemma_realized_next(trades.take(m as int), trades[m as int]);
    } else {
        assert(trades.take(0) =~= Seq::empty());
    }
}

/// The longest winning and losing streaks are stretches of the log in which every trade
/// won, or lost, and no such stretch is longer.
pub proof fn law_streaks_are_stretches(trades: Seq<Trade>)
    ensures
        exists|from: int, to: int| #[trigger]
            all_won(trades, from, to) && to - from == longest_run(
                win_flags(trades),
                trades.len(),
            ),
        forall|from: int, to: int| #[trigger]
            all_won(trades, from, to) ==> to - from <= longest_run(win_flags(trades), trades.len()),
        exists|from: int, to: int| #[trigger]
            all_lost(trades, from, to) && to - from == longest_run(
                loss_flags(trades),
                trades.len(),
            ),
        forall|from: int, to: int| #[trigger]
            all_lost(trades, from, to) ==> to - from <= longest_run(
                loss_flags(trades),
                trades.len(),
            ),
{
    let won = win_flags(trades);
    let lost = loss_flags(trades);
    law_longest_run(won);
    law_longest_run(lost);
    assert forall|from: int, to: int| #[trigger] all_won(trades, from, to) <==> all_set(
        won,
        from,
        to,
    ) by {
        if all_won(trades, from, to) {
            assert forall|i: int| from <= i < to implies #[trigger] won[i] by {
                assert(trades[i].realized_pnl.units() > 0);
            }
        }
        if all_set(won, from, to) {
            assert forall|i: int| from <= i < to implies (
            #[trigger] trades[i]).realized_pnl.units() > 0 by {
                assert(won[i]);
            }
        }
    }
    assert forall|from: int, to: int| #[trigger] all_lost(trades, from, to) <==> all_set(
        lost,
        from,
        to,
    ) by {
        if all_lost(trades, from, to) {
            assert forall|i: int| from <= i < to implies #[trigger] lost[i] by {
                assert(trades[i].realized_pnl.units() < 0);
            }
        }
        if all_set(lost, from, to) {
            assert forall|i: int| from <= i < to implies (
            #[trigger] trades[i]).realized_pnl.units() < 0 by {
                assert(lost[i]);
            }
        }
    }
    let (from, to) = choose|from: int, to: int| #[trigger]
        all_set(won, from, to) && to - from == longest_run(won, trades.len());
    assert(all_won(trades, from, to));
    let (from, to) = choose|from: int, to: int| #[trigger]
        all_set(lost, from, to) && to - from == longest_run(lost, trades.len());
    assert(all_lost(trades, from, to));
}

/// What holds of every summary, whatever the trades.
pub open spec fn summary_is_sound(s: SummaryStats) -> bool {
    &&& s.win_count + s.loss_count <= s.trade_count
    &&& 0 <= s.win_rate.units() <= pow10(MAX_SCALE as nat)
    &&& s.gross_profit.units() >= 0
    &&& s.gross_loss.units() >= 0
    &&& s.avg_win.units() >= 0
    &&& s.avg_loss.units() >= 0
    &&& s.max_drawdown.units() >= 0
    &&& s.gross_profit.units() == 0 <==> s.win_count == 0
    &&& s.gross_loss.units() == 0 <==> s.loss_count == 0
    &&& s.profit_factor is None <==> s.loss_count == 0
}

/// What the figures of a summary are in numbers. Where no digit is lost, the gross
/// profit less the gross loss is what the trades realized together; none is lost where
/// the results are small together; and each ratio that comes out even is exact.
pub open spec fn summary_adds_up(s: SummaryStats, trades: Seq<Trade>) -> bool {
    &&& small_together(zero(), results(trades)) ==> gross_is_exact(trades, trades.len())
    &&& gross_is_exact(trades, trades.len()) ==> s.gross_profit.units() - s.gross_loss.units()
        == realized_units(trades, trades.len())
    &&& is_ratio(s.win_rate, whole(s.win_count as nat), whole(s.trade_count as nat))
    &&& s.profit_factor matches Some(f) ==> is_ratio(f, s.gross_profit, s.gross_loss)
    &&& is_ratio(s.avg_win, s.gross_profit, whole(s.win_count as nat))
    &&& is_ratio(s.avg_loss, s.gross_loss, whole(s.loss_count as nat))
    &&& is_ratio(s.expectancy, s.net_pnl, whole(s.trade_count as nat))
}

/// What the figures of a summary are, said of the trade log alone. The counts are those of
/// the trades above and below zero, the streaks the longest stretches of them. Where the
/// results are small together the gross figures are what the winners made and the losers
/// lost; and each share that comes out even is that share.
pub open spec fn summary_of_the_log(s: SummaryStats, trades: Seq<Trade>) -> bool {
    let n = trades.len();
    let scale = top_scale(zero(), results(trades), n);
    &&& s.trade_count == n
    &&& s.win_count == winners(trades).len()
    &&& s.loss_count == losers(trades).len()
    &&& is_share(s.win_rate, winners(trades).len() * pow10(MAX_SCALE as nat), n, 0)
    &&& is_share(s.expectancy, s.net_pnl.units(), n, s.net_pnl.scale() as nat)
    &&& small_together(zero(), results(trades)) ==> {
        &&& s.gross_profit.units() == realized(winners(trades))
        &&& s.gross_loss.units() == -realized(losers(trades))
        &&& is_share(s.avg_win, realized(winners(trades)), winners(trades).len(), scale)
        &&& is_share(s.avg_loss, -realized(losers(trades)), losers(trades).len(), scale)
    }
    &&& exists|from: int, to: int| #[trigger]
        all_won(trades, from, to) && to - from == s.max_win_streak
    &&& forall|from: int, to: int| #[trigger]
        all_won(trades, from, to) ==> to - from <= s.max_win_streak
    &&& exists|from: int, to: int| #[trigger]
        all_lost(trades, from, to) && to - from == s.max_loss_streak
    &&& forall|from: int, to: int| #[trigger]
        all_lost(trades, from, to) ==> to - from <= s.max_loss_streak
}

fn summarize(
    trades: &[Trade],
    net_pnl: Decimal,
    fees_total: Decimal,
    funding_total: Decimal,
    equity_curve: &EquityCurve,
) -> (r: Option<SummaryStats>)
    ensures
        r is Some <==> summary_fits(trades@, net_pnl, equity_curve@),
        r is Some ==> r->0 == summary_of(
            trades@,
            net_pnl,
            fees_total,
            funding_total,
            equity_curve@,
        ),
        r is Some ==> summary_is_sound(r->0),
        r is Some ==> summary_adds_up(r->0, trades@),
        r is Some ==> summary_of_the_log(r->0, trades@),
        r is Some ==> is_deepest_decline(r->0.max_drawdown, equity_curve@),
        r is Some ==> r->0.net_pnl == net_pnl && r->0.commission_total == fees_total
            && r->0.funding_total == funding_total,
{
    let trade_count = trades.len();
    let t = match tally(trades) {
        Some(t) => t,
        None => {
            return None;
        },
    };
    let count = Decimal::from_usize(trade_count);
    let win_count = Decimal::from_usize(t.win_count);
    let loss_count = Decimal::from_usize(t.loss_count);
    proof {
        lemma_units_sign(count);
        lemma_units_sign(win_count);
        lemma_units_sign(loss_count);
    }
    let win_rate = match ratio(win_count, count) {
        Some(r) => r,
        None => {
            return None;
        },
    };
    let factor = if t.gross_loss.is_zero() {
        None
    } else {
        match t.gross_profit.checked_div(t.gross_loss) {
            Some(f) => Some(f),
            None => {
                return None;
            },
        }
    };
    let avg_win = match ratio(t.gross_profit, win_count) {
        Some(r) => r,
        None => {
            return None;
        },
    };
    let avg_loss = match ratio(t.gross_loss, loss_count) {
        Some(r) => r,
        None => {
            return None;
        },
    };
    let expectancy = match ratio(net_pnl, count) {
        Some(r) => r,
        None => {
            return None;
        },
    };
    let max_drawdown = match deepest_decline(&equity_curve.0) {
        Some(d) => d,
        None => {
            return None;
        },
    };
    proof {
        law_streaks_are_stretches(trades@);
        let n = trades@.len();
        let scale = top_scale(zero(), results(trades@), n);
        lemma_ratio_is_share(win_rate, win_count, n, 0);
        lemma_ratio_is_share(expectancy, net_pnl, n, net_pnl.scale() as nat);
        if small_together(zero(), results(trades@)) {
            lemma_ratio_is_share(avg_win, t.gross_profit, t.win_count as nat, scale);
            lemma_ratio_is_share(avg_loss, t.gross_loss, t.loss_count as nat, scale);
        }
    }
    Some(
        SummaryStats {
            trade_count,
            win_count: t.win_count,
            loss_count: t.loss_count,
            win_rate,
            gross_profit: t.gross_profit,
            gross_loss: t.gross_loss,
            net_pnl,
            profit_factor: factor,
            avg_win,
            avg_loss,
            expectancy,
            max_drawdown,
            max_win_streak: t.max_win_streak,
            max_loss_streak: t.max_loss_streak,
            commission_total: fees_total,
            funding_total,
        },
    )
}

impl SummaryStats {
    /// The summary of a run.
    ///
    /// The win rate lies in `[0, 1]`, the gross figures, the averages and the drawdown
    /// are not negative, and there is a profit factor exactly where a trade lost. Where
    /// no digit is lost, the gross profit less the gross loss is what the trades realized
    /// together.
    pub fn from_trades(
        trades: &[Trade],
        net_pnl: Decimal,
        fees_total: Decimal,
        funding_total: Decimal,
        equity_curve: &EquityCurve,
    ) -> (r: SummaryStats)
        requires
            summary_fits(trades@, net_pnl, equity_curve@),
        ensures
            r == summary_of(trades@, net_pnl, fees_total, funding_total, equity_curve@),
            summary_is_sound(r),
            summary_adds_up(r, trades@),
            summary_of_the_log(r, trades@),
            is_deepest_decline(r.max_drawdown, equity_curve@),
            r.net_pnl == net_pnl,
            r.commission_total == fees_total,
            r.funding_total == funding_total,
    {
        summarize(trades, net_pnl, fees_total, funding_total, equity_curve).unwrap()
    }

    /// The summary of a run where every sum and ratio of it fits.
    pub fn checked_from_trades(
        trades: &[Trade],
        net_pnl: Decimal,
        fees_total: Decimal,
        funding_total: Decimal,
        equity_curve: &EquityCurve,
    ) -> (r: Option<SummaryStats>)
        ensures
            r is Some <==> summary_fits(trades@, net_pnl, equity_curve@),
            r is Some ==> r->0 == summary_of(
                trades@,
                net_pnl,
                fees_total,
                funding_total,
                equity_curve@,
            ),
            r is Some ==> summary_is_sound(r->0),
            r is Some ==> summary_adds_up(r->0, trades@),
            r is Some ==> summary_of_the_log(r->0, trades@),
            r is Some ==> is_deepest_decline(r->0.max_drawdown, equity_curve@),
            r is Some ==> r->0.net_pnl == net_pnl && r->0.commission_total == fees_total
                && r->0.funding_total == funding_total,
    {
        if summarize(trades, net_pnl, fees_total, funding_total, equity_curve).is_some() {
            Some(
                SummaryStats::from_trades(
                    trades,
                    net_pnl,
                    fees_total,
                    funding_total,
                    equity_curve,
                ),
            )
        } else {
            None
        }
    }
}

// ---------------------------------------------------------------------------
// The moments of a series of R-multiples.
// ---------------------------------------------------------------------------

/// The mean and the variances of a series of R-multiples.
#[derive(Clone, Copy, Debug, PartialEq, Eq)]
pub struct RMoments {
    /// The mean.
    pub mean: Decimal,
    /// The sample variance, over one less than the count.
    pub sample_variance: Decimal,
    /// The mean square of the negative members, over the whole count.
    pub downside_variance: Decimal,
}

/// The sum of the first `n` members.
pub open spec fn r_sum(rs: Seq<Decimal>, n: nat) -> Option<Decimal>
    decreases n,
{
    if n == 0 {
        Some(zero())
    } else {
        add_next(r_sum(rs, (n - 1) as nat), rs[n - 1])
    }
}

/// Whether the first `n` members add up without losing a digit.
pub open spec fn r_sum_is_exact(rs: Seq<Decimal>, n: nat) -> bool
    decreases n,
{
    n > 0 ==> r_sum_is_exact(rs, (n - 1) as nat) && adds_exactly(
        r_sum(rs, (n - 1) as nat)->0,
        rs[n - 1],
    )
}

/// The first `n` members together, in units.
pub open spec fn r_units(rs: Seq<Decimal>, n: nat) -> int
    decreases n,
{
    if n == 0 {
        0
    } else {
        r_units(rs, (n - 1) as nat) + rs[n - 1].units()
    }
}

/// What a mean is in numbers: the sum over the count, where it comes out even; where no
/// digit is lost, the sum is that of the members; and none is lost where the members are
/// small together.
pub open spec fn is_mean(mean: Decimal, rs: Seq<Decimal>) -> bool {
    &&& small_together(zero(), rs) ==> r_sum_is_exact(rs, rs.len())
    &&& is_ratio(mean, r_sum(rs, rs.len())->0, whole(rs.len()))
    &&& r_sum_is_exact(rs, rs.len()) ==> r_sum(rs, rs.len())->0.units() == r_units(rs, rs.len())
    &&& small_together(zero(), rs) ==> is_share(
        mean,
        total(rs),
        rs.len(),
        top_scale(zero(), rs, rs.len()),
    )
}

/// A square added to a running sum.
pub open spec fn add_square(sum: Option<Decimal>, d: Option<Decimal>) -> Option<Decimal> {
    match d {
        None => None,
        Some(d) => match times(d, d) {
            None => None,
            Some(square) => add_next(sum, square),
        },
    }
}

/// The sum of the squared deviations of the first `n` members from the mean.
pub open spec fn deviation_sum(rs: Seq<Decimal>, mean: Decimal, n: nat) -> Option<Decimal>
    decreases n,
{
    if n == 0 {
        Some(zero())
    } else {
        add_square(deviation_sum(rs, mean, (n - 1) as nat), minus(rs[n - 1], mean))
    }
}

/// Whether the squared deviations of the first `n` members add up without losing a digit.
pub open spec fn deviations_are_exact(rs: Seq<Decimal>, mean: Decimal, n: nat) -> bool
    decreases n,
{
    n > 0 ==> {
        let m = (n - 1) as nat;
        let d = minus(rs[n - 1], mean)->0;
        &&& deviations_are_exact(rs, mean, m)
        &&& subtracts_exactly(rs[n - 1], mean)
        &&& multiplies_exactly(d, d)
        &&& adds_exactly(deviation_sum(rs, mean, m)->0, times(d, d)->0)
    }
}

/// Whether numbers and their distances from another are of ordinary size: none has more
/// than `q` digits, and the squares of distances of at most `e`, at `q` digits, fit a
/// mantissa together.
pub open spec fn ordinary_spread(rs: Seq<Decimal>, from: Decimal, q: nat, e: nat) -> bool {
    &&& q <= 14
    &&& from.scale() <= q
    &&& fits_at(from.units(), q)
    &&& rs.len() * (e * e) <= MAX_MANTISSA
    &&& forall|i: int|
        0 <= i < rs.len() ==> (#[trigger] rs[i]).scale() <= q && fits_at(rs[i].units(), q)
            && magnitude(rs[i].units() - from.units()) <= e * pow10((MAX_SCALE - q) as nat)
}

proof fn lemma_spread_bounds(rs: Seq<Decimal>, from: Decimal, q: nat, e: nat, i: int)
    requires
        ordinary_spread(rs, from, q, e),
        0 <= i < rs.len(),
    ensures
        e * e <= MAX_MANTISSA,
        e <= MAX_MANTISSA,
        subtracts_exactly(rs[i], from),
{
    let n = rs.len();
    assert(e * e <= n * (e * e)) by (nonlinear_arith)
        requires
            n >= 1,
            e >= 0,
    ;
    assert(e <= e * e || e == 0) by (nonlinear_arith)
        requires
            e >= 0,
    ;
    assert(rs[i].scale() <= q && fits_at(rs[i].units(), q));
    let p = pow10((MAX_SCALE - q) as nat);
    crate::decimal::lemma_pow10_positive((MAX_SCALE - q) as nat);
    assert(e * p <= MAX_MANTISSA * p) by (nonlinear_arith)
        requires
            e <= MAX_MANTISSA,
            p >= 1,
    ;
    lemma_subtracts_exactly(rs[i], from, q);
}

proof fn lemma_spread_square(rs: Seq<Decimal>, from: Decimal, q: nat, e: nat, i: int, d: Decimal)
    requires
        ordinary_spread(rs, from, q, e),
        0 <= i < rs.len(),
        d.scale() <= q,
        d.units() == rs[i].units() - from.units(),
    ensures
        multiplies_exactly(d, d),
{
    lemma_spread_bounds(rs, from, q, e, i);
    assert(magnitude(rs[i].units() - from.units()) <= e * pow10((MAX_SCALE - q) as nat));
    let m = d.mantissa() as int;
    let p = pow10((MAX_SCALE - d.scale()) as nat);
    let r = pow10((MAX_SCALE - q) as nat);
    crate::decimal::lemma_pow10_positive((MAX_SCALE - d.scale()) as nat);
    crate::decimal::lemma_pow10_monotone(
        (MAX_SCALE - q) as nat,
        (MAX_SCALE - d.scale()) as nat,
    );
    assert(-e <= m <= e) by (nonlinear_arith)
        requires
            m * p <= e * r,
            -(m * p) <= e * r,
            r <= p,
            p >= 1,
            e >= 0,
    {
        assert(e * r <= e * p);
        assert(m * p <= e * p);
        assert((-m) * p <= e * p);
    }
    assert(0 <= m * m <= e * e) by (nonlinear_arith)
        requires
            -e <= m <= e,
    ;
}

/// No squares come to nothing.
proof fn lemma_no_squares(e: nat, r: int)
    ensures
        0 * (e * e) * r == 0,
{
    assert(0 * (e * e) * r == 0) by (nonlinear_arith);
}

proof fn lemma_spread_sum(
    rs: Seq<Decimal>,
    from: Decimal,
    q: nat,
    e: nat,
    i: int,
    sum: Decimal,
    square: Decimal,
)
    requires
        ordinary_spread(rs, from, q, e),
        0 <= i < rs.len(),
        sum.scale() <= 2 * q,
        square.scale() <= 2 * q,
        0 <= sum.units() <= i * (e * e) * pow10((MAX_SCALE - 2 * q) as nat),
        square.units() * pow10(MAX_SCALE as nat) == (rs[i].units() - from.units()) * (rs[i].units()
            - from.units()),
    ensures
        adds_exactly(sum, square),
        0 <= sum.units() + square.units() <= (i + 1) * (e * e) * pow10((MAX_SCALE - 2 * q) as nat),
{
    let x = rs[i].units() - from.units();
    let p = pow10((MAX_SCALE - q) as nat);
    let r = pow10((MAX_SCALE - 2 * q) as nat);
    let one = pow10(MAX_SCALE as nat);
    let u = square.units();
    let n = rs.len() as int;
    let f = (e * e) as int;
    assert(magnitude(rs[i].units() - from.units()) <= e * p);
    crate::decimal::lemma_pow10_positive(MAX_SCALE as nat);
    crate::decimal::lemma_pow10_positive((MAX_SCALE - 2 * q) as nat);
    crate::decimal::lemma_pow10_add((MAX_SCALE - q) as nat, (MAX_SCALE - q) as nat);
    crate::decimal::lemma_pow10_add((MAX_SCALE - 2 * q) as nat, MAX_SCALE as nat);
    assert((MAX_SCALE - q) as nat + (MAX_SCALE - q) as nat == (MAX_SCALE - 2 * q) as nat
        + MAX_SCALE as nat);
    assert(0 <= x * x <= (e * p) * (e * p)) by (nonlinear_arith)
        requires
            -(e * p) <= x <= e * p,
    ;
    assert((e * p) * (e * p) == f * r * one) by (nonlinear_arith)
        requires
            p * p == r * one,
            f == e * e,
    ;
    assert(0 <= u <= f * r) by (nonlinear_arith)
        requires
            u * one == x * x,
            0 <= x * x <= f * r * one,
            one >= 1,
    ;
    assert(i * f * r + f * r == (i + 1) * f * r) by (nonlinear_arith);
    assert((i + 1) * f * r <= MAX_MANTISSA * r && i * f * r <= MAX_MANTISSA * r && f * r
        <= MAX_MANTISSA * r) by (nonlinear_arith)
        requires
            0 <= i < n,
            f >= 0,
            r >= 1,
            n * f <= MAX_MANTISSA,
    {
        assert((i + 1) * f <= n * f);
        assert(i * f <= n * f);
        assert(f <= n * f);
    }
    crate::decimal::lemma_adds_exactly(sum, square, 2 * q);
}

/// Whether the squares of the negative members among the first `n` add up without losing
/// a digit.
pub open spec fn downside_is_exact(rs: Seq<Decimal>, n: nat) -> bool
    decreases n,
{
    n > 0 ==> {
        let m = (n - 1) as nat;
        let d = rs[n - 1];
        &&& downside_is_exact(rs, m)
        &&& d.units() < 0 ==> multiplies_exactly(d, d) && adds_exactly(
            downside_sum(rs, m)->0,
            times(d, d)->0,
        )
    }
}

/// What a sample variance is in numbers: where every step comes out even, it is what the
/// squared distances of the members from the mean come to, over one less than the count.
pub open spec fn is_sample_variance(v: Decimal, mean: Decimal, rs: Seq<Decimal>) -> bool {
    let n = rs.len();
    deviations_are_exact(rs, mean, n) && divides_exactly(
        deviation_sum(rs, mean, n)->0,
        whole((n - 1) as nat),
    ) ==> v.units() * (n - 1) * pow10(MAX_SCALE as nat) == squared_distances(rs, mean.units())
}

/// Where the members and their distances from the mean are of ordinary size, no digit of the
/// squares is lost, and a variance that comes out even is what they come to, over one less
/// than the count.
pub open spec fn spread_is_exact(v: Decimal, mean: Decimal, rs: Seq<Decimal>) -> bool {
    let n = rs.len();
    forall|q: nat, e: nat| #[trigger]
        ordinary_spread(rs, mean, q, e) ==> {
            let sum = squared_distances(rs, mean.units()) / pow10(MAX_SCALE as nat);
            &&& deviations_are_exact(rs, mean, n)
            &&& comes_out_even(sum, (n - 1) as nat, 2 * q) ==> v.units() * (n - 1) == sum
                && v.scale() <= 2 * q + 9
        }
}

/// What a downside variance is in numbers: where every step comes out even, it is what the
/// squares of the members below zero come to, over the whole count.
pub open spec fn is_downside_variance(v: Decimal, rs: Seq<Decimal>) -> bool {
    let n = rs.len();
    downside_is_exact(rs, n) && divides_exactly(downside_sum(rs, n)->0, whole(n)) ==> v.units() * n
        * pow10(MAX_SCALE as nat) == squared_distances(below_zero(rs), 0)
}

/// Where the members are of ordinary size, no digit of the squares of those below zero is
/// lost, and a downside variance that comes out even is what they come to, over the count.
pub open spec fn downside_spread_is_exact(v: Decimal, rs: Seq<Decimal>) -> bool {
    let n = rs.len();
    forall|q: nat, e: nat| #[trigger]
        ordinary_spread(rs, zero(), q, e) ==> {
            let sum = squared_distances(below_zero(rs), 0) / pow10(MAX_SCALE as nat);
            &&& downside_is_exact(rs, n)
            &&& comes_out_even(sum, n, 2 * q) ==> v.units() * n == sum
        }
}

/// A quotient by a count, cleared of the common power of ten.
pub(crate) proof fn lemma_over_count(q: Decimal, a: Decimal, n: nat)
    requires
        is_ratio(q, a, whole(n)),
        divides_exactly(a, whole(n)),
        whole(n).mantissa() == n,
        whole(n).scale() == 0,
    ensures
        q.units() * n == a.units(),
{
    lemma_share(q.units(), a.units(), n as int);
}

/// The square of a number, in units.
proof fn lemma_square_units(d: Decimal, square: int)
    requires
        multiplies_exactly(d, d),
        square == d.mantissa() * d.mantissa() * pow10((MAX_SCALE - d.scale() - d.scale()) as nat),
    ensures
        square * pow10(MAX_SCALE as nat) == d.units() * d.units(),
{
    crate::decimal::lemma_product_units(d, d, square);
}

/// The sum of the squares of the negative members among the first `n`.
pub open spec fn downside_sum(rs: Seq<Decimal>, n: nat) -> Option<Decimal>
    decreases n,
{
    if n == 0 {
        Some(zero())
    } else if rs[n - 1].units() < 0 {
        add_square(downside_sum(rs, (n - 1) as nat), Some(rs[n - 1]))
    } else {
        downside_sum(rs, (n - 1) as nat)
    }
}

/// An optional number divided by another.
pub open spec fn over_opt(a: Option<Decimal>, b: Decimal) -> Option<Decimal> {
    match a {
        Some(a) => over(a, b),
        None => None,
    }
}

/// The moments of a series of at least two members, and none of a shorter one; the outer
/// `None` where a step does not fit.
pub open spec fn moments_of(rs: Seq<Decimal>) -> Option<Option<RMoments>> {
    if rs.len() < 2 {
        Some(None)
    } else {
        match moments_of_many(rs) {
            Some(m) => Some(Some(m)),
            None => None,
        }
    }
}

/// The moments of a series of at least two members; `None` where a step does not fit.
pub open spec fn moments_of_many(rs: Seq<Decimal>) -> Option<RMoments> {
    let n = rs.len();
    match over_opt(r_sum(rs, n), whole(n)) {
        None => None,
        Some(mean) => match over_opt(deviation_sum(rs, mean, n), whole((n - 1) as nat)) {
            None => None,
            Some(sample_variance) => match over_opt(downside_sum(rs, n), whole(n)) {
                None => None,
                Some(downside_variance) => Some(
                    RMoments { mean, sample_variance, downside_variance },
                ),
            },
        },
    }
}

fn sum_of(rs: &[Decimal]) -> (r: Option<Decimal>)
    ensures
        r == r_sum(rs@, rs@.len()),
        r_sum_is_exact(rs@, rs@.len()) ==> r is Some && r->0.units() == r_units(rs@, rs@.len()),
        small_together(zero(), rs@) ==> r_sum_is_exact(rs@, rs@.len()),
        small_together(zero(), rs@) ==> r is Some && r->0.units() == total(rs@) && r->0.scale()
            <= top_scale(zero(), rs@, rs@.len()),
{
    proof {
        lemma_no_trades();
        assert(rs@.take(0) =~= Seq::empty());
    }
    let n = rs.len();
    let mut sum: Option<Decimal> = Some(Decimal::zero());
    for i in 0..n
        invariant
            n == rs@.len(),
            sum == r_sum(rs@, i as nat),
            r_sum_is_exact(rs@, i as nat) ==> sum is Some && sum->0.units() == r_units(
                rs@,
                i as nat,
            ),
            small_together(zero(), rs@) ==> {
                &&& r_sum_is_exact(rs@, i as nat)
                &&& sum->0.scale() <= top_scale(zero(), rs@, i as nat)
                &&& magnitude(sum->0.units()) <= magnitudes(zero(), rs@, i as nat)
                &&& sum->0.units() == total(rs@.take(i as int))
            },
    {
        proof {
            lemma_take_next(rs@, i as int);
            lemma_total_next(rs@.take(i as int), rs@[i as int]);
            if small_together(zero(), rs@) {
                lemma_small_step(zero(), rs@, i as nat, sum->0, rs@[i as int]);
            }
        }
        sum = match sum {
            Some(s) => s.checked_add(rs[i]),
            None => None,
        };
    }
    assert(rs@.take(n as int) =~= rs@);
    sum
}

fn plus_square(sum: Option<Decimal>, d: Option<Decimal>) -> (r: Option<Decimal>)
    ensures
        r == add_square(sum, d),
        r is Some && sum->0.units() >= 0 ==> r->0.units() >= 0,
        sum is Some && d is Some && multiplies_exactly(d->0, d->0) && adds_exactly(
            sum->0,
            times(d->0, d->0)->0,
        ) ==> r is Some && (r->0.units() - sum->0.units()) * pow10(MAX_SCALE as nat) == d->0.units()
            * d->0.units(),
        d is Some && multiplies_exactly(d->0, d->0) ==> {
            let square = times(d->0, d->0);
            &&& square is Some
            &&& square->0.units() * pow10(MAX_SCALE as nat) == d->0.units() * d->0.units()
            &&& square->0.scale() <= 2 * d->0.scale()
        },
        r is Some ==> r->0.scale() <= common_scale(sum->0, times(d->0, d->0)->0),
{
    proof {
        if d is Some && multiplies_exactly(d->0, d->0) {
            let x = d->0;
            lemma_square_units(
                x,
                x.mantissa() * x.mantissa() * pow10((MAX_SCALE - x.scale() - x.scale()) as nat),
            );
        }
    }
    match d {
        None => None,
        Some(d) => match d.checked_mul(d) {
            None => None,
            Some(square) => match sum {
                Some(s) => s.checked_add(square),
                None => None,
            },
        },
    }
}

/// The mean and the sample variance; `None` where a step does not fit.
pub(crate) fn mean_and_variance(rs: &[Decimal]) -> (r: Option<(Decimal, Decimal)>)
    requires
        rs@.len() >= 2,
    ensures
        r == match over_opt(r_sum(rs@, rs@.len()), whole(rs@.len())) {
            None => None,
            Some(mean) => match over_opt(
                deviation_sum(rs@, mean, rs@.len()),
                whole((rs@.len() - 1) as nat),
            ) {
                None => None,
                Some(v) => Some((mean, v)),
            },
        },
        r matches Some(pair) ==> pair.1.units() >= 0,
        r matches Some(pair) ==> is_mean(pair.0, rs@),
        r matches Some(pair) ==> is_sample_variance(pair.1, pair.0, rs@),
        r matches Some(pair) ==> spread_is_exact(pair.1, pair.0, rs@),
{
    proof {
        lemma_no_trades();
        assert(rs@.take(0) =~= Seq::empty());
    }
    let n = rs.len();
    let mean = match sum_of(rs) {
        None => {
            return None;
        },
        Some(sum) => match sum.checked_div(Decimal::from_usize(n)) {
            None => {
                return None;
            },
            Some(mean) => {
                proof {
                    if small_together(zero(), rs@) {
                        lemma_ratio_is_share(
                            mean,
                            sum,
                            n as nat,
                            top_scale(zero(), rs@, n as nat),
                        );
                    }
                }
                mean
            },
        },
    };
    let mut sum: Option<Decimal> = Some(Decimal::zero());
    proof {
        assert forall|q: nat, e: nat| #[trigger] ordinary_spread(rs@, mean, q, e) implies 0 * (e
            * e) * pow10((MAX_SCALE - 2 * q) as nat) == 0 by {
            lemma_no_squares(e, pow10((MAX_SCALE - 2 * q) as nat));
        }
    }
    for i in 0..n
        invariant
            n == rs@.len(),
            sum == deviation_sum(rs@, mean, i as nat),
            sum is Some ==> sum->0.units() >= 0,
            deviations_are_exact(rs@, mean, i as nat) ==> sum is Some && sum->0.units() * pow10(
                MAX_SCALE as nat,
            ) == squared_distances(rs@.take(i as int), mean.units()),
            forall|q: nat, e: nat| #[trigger]
                ordinary_spread(rs@, mean, q, e) ==> {
                    &&& deviations_are_exact(rs@, mean, i as nat)
                    &&& sum->0.scale() <= 2 * q
                    &&& sum->0.units() <= i * (e * e) * pow10((MAX_SCALE - 2 * q) as nat)
                },
    {
        proof {
            assert forall|q: nat, e: nat| #[trigger] ordinary_spread(rs@, mean, q, e) implies
                subtracts_exactly(rs@[i as int], mean) by {
                lemma_spread_bounds(rs@, mean, q, e, i as int);
            }
        }
        let distance = rs[i].checked_sub(mean);
        let ghost before = sum;
        sum = plus_square(sum, distance);
        proof {
            assert forall|q: nat, e: nat| #[trigger] ordinary_spread(rs@, mean, q, e) implies {
                &&& deviations_are_exact(rs@, mean, (i + 1) as nat)
                &&& sum->0.scale() <= 2 * q
                &&& sum->0.units() <= (i + 1) * (e * e) * pow10((MAX_SCALE - 2 * q) as nat)
            } by {
                lemma_spread_bounds(rs@, mean, q, e, i as int);
                assert(rs@[i as int].scale() <= q);
                lemma_spread_square(rs@, mean, q, e, i as int, distance->0);
                lemma_spread_sum(
                    rs@,
                    mean,
                    q,
                    e,
                    i as int,
                    before->0,
                    times(distance->0, distance->0)->0,
                );
                let one = pow10(MAX_SCALE as nat);
                let a = before->0.units();
                let b = sum->0.units();
                let c = times(distance->0, distance->0)->0.units();
                crate::decimal::lemma_pow10_positive(MAX_SCALE as nat);
                assert(b == a + c) by (nonlinear_arith)
                    requires
                        (b - a) * one == c * one,
                        one >= 1,
                ;
            }
            lemma_take_next(rs@, i as int);
            lemma_squares_next(rs@.take(i as int), rs@[i as int], mean.units());
            if deviations_are_exact(rs@, mean, (i + 1) as nat) {
                let one = pow10(MAX_SCALE as nat);
                let a = before->0.units();
                let b = sum->0.units();
                assert((b - a) * one == b * one - a * one) by (nonlinear_arith);
            }
        }
    }
    assert(rs@.take(n as int) =~= rs@);
    match sum {
        None => None,
        Some(sum) => {
            let rest = Decimal::from_usize(n - 1);
            proof {
                lemma_units_sign(rest);
            }
            match sum.checked_div(rest) {
                None => None,
                Some(v) => {
                    proof {
                        if divides_exactly(sum, rest) {
                            lemma_over_count(v, sum, (n - 1) as nat);
                        }
                        assert forall|q: nat, e: nat| #[trigger]
                            ordinary_spread(rs@, mean, q, e) implies {
                            let whole_sum = squared_distances(rs@, mean.units()) / pow10(
                                MAX_SCALE as nat,
                            );
                            &&& deviations_are_exact(rs@, mean, n as nat)
                            &&& comes_out_even(whole_sum, (n - 1) as nat, 2 * q) ==> v.units() * (n
                                - 1) == whole_sum && v.scale() <= 2 * q + 9
                        } by {
                            let one = pow10(MAX_SCALE as nat);
                            let u = sum.units();
                            crate::decimal::lemma_pow10_positive(MAX_SCALE as nat);
                            vstd::arithmetic::div_mod::lemma_div_multiples_vanish(u, one);
                            assert(u * one == one * u) by (nonlinear_arith);
                            if comes_out_even(u, (n - 1) as nat, 2 * q) {
                                lemma_comes_out_even(sum, rest, (n - 1) as nat, 2 * q);
                            }
                        }
                    }
                    Some((mean, v))
                },
            }
        },
    }
}

impl RMoments {
    /// The moments of a series where every step fits: `Some(None)` for fewer than two
    /// members.
    ///
    /// Both variances are not negative.
    pub fn checked_from_rs(rs: &[Decimal]) -> (r: Option<Option<RMoments>>)
        ensures
            r == moments_of(rs@),
            r matches Some(Some(m)) ==> m.sample_variance.units() >= 0
                && m.downside_variance.units() >= 0 && is_mean(m.mean, rs@),
            r matches Some(Some(m)) ==> is_sample_variance(m.sample_variance, m.mean, rs@)
                && is_downside_variance(m.downside_variance, rs@),
            r matches Some(Some(m)) ==> spread_is_exact(m.sample_variance, m.mean, rs@)
                && downside_spread_is_exact(m.downside_variance, rs@),
    {
        proof {
            lemma_no_trades();
            assert(rs@.take(0) =~= Seq::empty());
        }
        let n = rs.len();
        if n < 2 {
            return Some(None);
        }
        let (mean, sample_variance) = match mean_and_variance(rs) {
            None => {
                return None;
            },
            Some(pair) => pair,
        };
        let none = Decimal::zero();
        let mut sum: Option<Decimal> = Some(Decimal::zero());
        proof {
            assert forall|q: nat, e: nat| #[trigger] ordinary_spread(rs@, zero(), q, e) implies 0 * (
            e * e) * pow10((MAX_SCALE - 2 * q) as nat) == 0 by {
                lemma_no_squares(e, pow10((MAX_SCALE - 2 * q) as nat));
            }
        }
        for i in 0..n
            invariant
                n == rs@.len(),
                none == zero(),
                none.units() == 0,
                forall|q: nat, e: nat| #[trigger]
                    ordinary_spread(rs@, zero(), q, e) ==> {
                        &&& downside_is_exact(rs@, i as nat)
                        &&& sum is Some
                        &&& sum->0.scale() <= 2 * q
                        &&& sum->0.units() <= i * (e * e) * pow10((MAX_SCALE - 2 * q) as nat)
                    },
                sum == downside_sum(rs@, i as nat),
                sum is Some ==> sum->0.units() >= 0,
                downside_is_exact(rs@, i as nat) ==> sum is Some && sum->0.units() * pow10(
                    MAX_SCALE as nat,
                ) == squared_distances(below_zero(rs@.take(i as int)), 0),
        {
            let ghost before = sum;
            if rs[i].lt(&none) {
                sum = plus_square(sum, Some(rs[i]));
            }
            proof {
                assert forall|q: nat, e: nat| #[trigger]
                    ordinary_spread(rs@, zero(), q, e) implies {
                    &&& downside_is_exact(rs@, (i + 1) as nat)
                    &&& sum is Some
                    &&& sum->0.scale() <= 2 * q
                    &&& sum->0.units() <= (i + 1) * (e * e) * pow10((MAX_SCALE - 2 * q) as nat)
                } by {
                    let d = rs@[i as int];
                    let f = (e * e) as int;
                    let r = pow10((MAX_SCALE - 2 * q) as nat);
                    crate::decimal::lemma_pow10_positive((MAX_SCALE - 2 * q) as nat);
                    assert(d.scale() <= q);
                    assert(i * f * r <= (i + 1) * f * r) by (nonlinear_arith)
                        requires
                            f >= 0,
                            r >= 1,
                    ;
                    if d.units() < 0 {
                        lemma_spread_square(rs@, zero(), q, e, i as int, d);
                        lemma_spread_sum(rs@, zero(), q, e, i as int, before->0, times(d, d)->0);
                        let one = pow10(MAX_SCALE as nat);
                        let a = before->0.units();
                        let b = sum->0.units();
                        let c = times(d, d)->0.units();
                        crate::decimal::lemma_pow10_positive(MAX_SCALE as nat);
                        assert(b == a + c) by (nonlinear_arith)
                            requires
                                (b - a) * one == c * one,
                                one >= 1,
                        ;
                    }
                }
                let past = rs@.take(i as int);
                lemma_take_next(rs@, i as int);
                lemma_below_zero_next(past, rs@[i as int]);
                lemma_squares_next(below_zero(past), rs@[i as int], 0);
                if downside_is_exact(rs@, (i + 1) as nat) {
                    let one = pow10(MAX_SCALE as nat);
                    let a = before->0.units();
                    let b = sum->0.units();
                    assert((b - a) * one == b * one - a * one) by (nonlinear_arith);
                }
            }
        }
        assert(rs@.take(n as int) =~= rs@);
        match sum {
            None => None,
            Some(sum) => {
                let count = Decimal::from_usize(n);
                proof {
                    lemma_units_sign(count);
                }
                match sum.checked_div(count) {
                    None => None,
                    Some(downside_variance) => {
                        proof {
                            if divides_exactly(sum, count) {
                                lemma_over_count(downside_variance, sum, n as nat);
                            }
                            assert forall|q: nat, e: nat| #[trigger]
                                ordinary_spread(rs@, zero(), q, e) implies {
                                let whole_sum = squared_distances(below_zero(rs@), 0) / pow10(
                                    MAX_SCALE as nat,
                                );
                                &&& downside_is_exact(rs@, n as nat)
                                &&& comes_out_even(whole_sum, n as nat, 2 * q)
                                    ==> downside_variance.units() * n == whole_sum
                            } by {
                                let one = pow10(MAX_SCALE as nat);
                                let u = sum.units();
                                crate::decimal::lemma_pow10_positive(MAX_SCALE as nat);
                                vstd::arithmetic::div_mod::lemma_div_multiples_vanish(u, one);
                                assert(u * one == one * u) by (nonlinear_arith);
                                if comes_out_even(u, n as nat, 2 * q) {
                                    lemma_comes_out_even(sum, count, n as nat, 2 * q);
                                }
                            }
                        }
                        Some(Some(RMoments { mean, sample_variance, downside_variance }))
                    },
                }
            },
        }
    }
}

} // verus!
