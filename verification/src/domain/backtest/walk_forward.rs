//! Walk-forward runs: a counted span is cut into contiguous folds, each fold is
//! judged, and the run passes when enough folds hold and the pooled bound holds.
use crate::decimal::{
    comes_out_even, divides_exactly, lemma_comes_out_even, over, pow10, Decimal, MAX_SCALE,
};
use crate::domain::backtest::figures::squared_distances;
use crate::domain::backtest::result::BacktestResult;
use crate::domain::backtest::run::{in_window, BacktestInputs, BacktestRunId, CandleWindow};
use crate::domain::backtest::stats::{
    deviation_sum, deviations_are_exact, is_mean, lemma_over_count, mean_and_variance,
    ordinary_spread, over_opt, r_sum, whole, zero, SummaryStats,
};
use crate::domain::market::Candle;
use crate::domain::series::{candles_in, increasing, law_adjacent_windows_split};
use crate::domain::strategy::VersionId;
use crate::text::{concat3, digits, u64_text};
use vstd::prelude::*;
use vstd::string::*;

verus! {

/// The lowest fold count.
pub const K_MIN: u8 = 2;

/// The highest fold count.
pub const K_MAX: u8 = 12;

/// The fold count of a request that names none.
pub const K_DEFAULT: u8 = 6;

/// The least number of trades of a fold that can hold.
pub const N_MIN: usize = 20;

/// How the counted span becomes folds.
#[derive(Clone, Copy, Debug, PartialEq, Eq, Structural)]
pub enum FoldScheme {
    /// Contiguous out-of-sample folds of equal length, evaluated in order.
    RollingOos {
        /// The fold count.
        k: u8,
    },
}

/// Why a walk-forward argument is refused.
#[derive(Clone, Copy, Debug, PartialEq, Eq, Structural)]
pub enum WalkForwardError {
    /// The fold count is out of range.
    KOutOfRange {
        /// The refused fold count.
        k: u8,
        /// The lowest legal count.
        min: u8,
        /// The highest legal count.
        max: u8,
    },
}

impl WalkForwardError {
    /// The text of the error.
    pub fn to_string(&self) -> (t: String)
        ensures
            self matches WalkForwardError::KOutOfRange { k, min, max } && t@
                == "the fold count must be in "@ + digits(min as nat) + "..="@ + digits(
                max as nat,
            ) + ", got "@ + digits(k as nat),
    {
        match self {
            WalkForwardError::KOutOfRange { k, min, max } => {
                let mut t = concat3(
                    "the fold count must be in ",
                    u64_text(*min as u64).as_str(),
                    "..=",
                );
                t.append(u64_text(*max as u64).as_str());
                t.append(", got ");
                t.append(u64_text(*k as u64).as_str());
                t
            },
        }
    }
}

impl FoldScheme {
    /// The fold count of the scheme.
    pub open spec fn fold_count(&self) -> u8 {
        match self {
            FoldScheme::RollingOos { k } => *k,
        }
    }

    /// Builds the scheme; a fold count outside the bounds is refused.
    pub fn rolling_oos(k: u8) -> (r: Result<FoldScheme, WalkForwardError>)
        ensures
            r is Ok <==> K_MIN <= k <= K_MAX,
            r is Ok <==> 2 <= k <= 12,
            r matches Ok(scheme) ==> scheme.fold_count() == k,
            r is Ok ==> r->Ok_0 == (FoldScheme::RollingOos { k }),
            r is Err ==> r->Err_0 == (WalkForwardError::KOutOfRange { k, min: K_MIN, max: K_MAX }),
    {
        if k < K_MIN || k > K_MAX {
            return Err(WalkForwardError::KOutOfRange { k, min: K_MIN, max: K_MAX });
        }
        Ok(FoldScheme::RollingOos { k })
    }

    /// The versioned scheme name.
    pub fn name(&self) -> (r: &'static str)
        ensures
            r@ == "rolling-oos/v1"@,
    {
        match self {
            FoldScheme::RollingOos { .. } => "rolling-oos/v1",
        }
    }

    /// The fold count.
    pub fn k(&self) -> (r: u8)
        ensures
            r == self.fold_count(),
    {
        match self {
            FoldScheme::RollingOos { k } => *k,
        }
    }
}

/// How fold outcomes become a run verdict.
#[derive(Clone, Copy, Debug, PartialEq, Eq, Structural)]
pub enum VerdictRule {
    /// Two thirds of the folds, rounded up, and the pooled bound.
    WfV1,
}

impl VerdictRule {
    /// The versioned rule name.
    pub fn name(&self) -> (r: &'static str)
        ensures
            r@ == "wf-v1"@,
    {
        match self {
            VerdictRule::WfV1 => "wf-v1",
        }
    }
}

/// Two thirds of `k`, rounded up.
pub open spec fn two_thirds(k: int) -> int {
    (2 * k + 2) / 3
}

/// How many of `k` folds have to hold: the least number that is at least two thirds
/// of `k`.
pub fn folds_required(k: u8) -> (r: u8)
    ensures
        r == two_thirds(k as int),
        3 * r >= 2 * k,
        3 * (r - 1) < 2 * k,
{
    let twice: u16 = 2 * (k as u16);
    ((twice + 2) / 3) as u8
}

// ---------------------------------------------------------------------------
// Folds.
// ---------------------------------------------------------------------------

/// The length of every fold but the last.
pub open spec fn fold_step(span: CandleWindow, k: int) -> int {
    (span.to_ms - span.from_ms) / k
}

/// The folds of a span: `k` windows of equal length, the last with the remainder. A
/// span shorter than `k` milliseconds is a single fold.
pub open spec fn folds_of(span: CandleWindow, k: int) -> Seq<CandleWindow> {
    let step = fold_step(span, k);
    if step == 0 {
        seq![span]
    } else {
        Seq::new(
            k as nat,
            |i: int|
                CandleWindow {
                    from_ms: (span.from_ms + i * step) as i64,
                    to_ms: if i == k - 1 {
                        span.to_ms
                    } else {
                        (span.from_ms + (i + 1) * step) as i64
                    },
                },
        )
    }
}

/// Where the folds of a span begin lies within the span.
proof fn lemma_fold_bounds(span: CandleWindow, k: int, i: int)
    requires
        k >= 1,
        span.from_ms < span.to_ms,
        0 <= i <= k,
    ensures
        0 <= fold_step(span, k),
        span.from_ms <= span.from_ms + i * fold_step(span, k) <= span.to_ms,
        fold_step(span, k) == 0 <==> span.to_ms - span.from_ms < k,
{
    let d = span.to_ms - span.from_ms;
    let step = fold_step(span, k);
    vstd::arithmetic::div_mod::lemma_fundamental_div_mod(d, k);
    vstd::arithmetic::div_mod::lemma_mod_bound(d, k);
    assert(0 <= step && 0 <= i * step <= k * step && (step == 0 <==> d < k)) by (nonlinear_arith)
        requires
            d > 0,
            k >= 1,
            0 <= i <= k,
            d == k * step + d % k,
            0 <= d % k < k,
    {
        assert(step >= 0);
        assert(i * step <= k * step);
        if step >= 1 {
            assert(k * step >= k);
        }
    }
}

/// Where the fold at a position begins and ends.
proof fn lemma_fold_at(span: CandleWindow, k: int, i: int)
    requires
        k >= 1,
        span.from_ms < span.to_ms,
        0 <= i < folds_of(span, k).len(),
    ensures
        folds_of(span, k)[i].from_ms == span.from_ms + i * fold_step(span, k),
        i < folds_of(span, k).len() - 1 ==> folds_of(span, k)[i].to_ms == span.from_ms + (i + 1)
            * fold_step(span, k),
        i == folds_of(span, k).len() - 1 ==> folds_of(span, k)[i].to_ms == span.to_ms,
        folds_of(span, k)[i].from_ms < folds_of(span, k)[i].to_ms,
        (i + 1) * fold_step(span, k) == i * fold_step(span, k) + fold_step(span, k),
        span.from_ms <= folds_of(span, k)[i].from_ms,
        folds_of(span, k)[i].to_ms <= span.to_ms,
{
    let step = fold_step(span, k);
    lemma_fold_bounds(span, k, 0);
    if step > 0 {
        lemma_fold_bounds(span, k, i);
        lemma_fold_bounds(span, k, i + 1);
    }
    assert((i + 1) * step == i * step + step) by (nonlinear_arith);
    assert(step == 0 ==> i * step == 0) by (nonlinear_arith);
}

/// The folds of a span are not empty, begin at its start, end at its end, follow one
/// another without a gap, and are of one length but for the last: the largest of which so
/// many fit the span.
pub proof fn law_folds_cover_the_span(span: CandleWindow, k: int)
    requires
        k >= 1,
        span.from_ms < span.to_ms,
    ensures
        folds_of(span, k).len() == if span.to_ms - span.from_ms < k {
            1
        } else {
            k
        },
        folds_of(span, k)[0].from_ms == span.from_ms,
        folds_of(span, k).last().to_ms == span.to_ms,
        forall|i: int|
            0 <= i < folds_of(span, k).len() ==> (#[trigger] folds_of(span, k)[i]).from_ms
                < folds_of(span, k)[i].to_ms,
        forall|i: int, j: int|
            0 <= i && j == i + 1 && j < folds_of(span, k).len() ==> (#[trigger] folds_of(
                span,
                k,
            )[i]).to_ms == (#[trigger] folds_of(span, k)[j]).from_ms,
        forall|i: int|
            0 <= i < folds_of(span, k).len() - 1 ==> (#[trigger] folds_of(span, k)[i]).to_ms
                - folds_of(span, k)[i].from_ms == fold_step(span, k),
        forall|i: int|
            0 <= i < folds_of(span, k).len() - 1 ==> {
                let length = (#[trigger] folds_of(span, k)[i]).to_ms - folds_of(span, k)[i].from_ms;
                k * length <= span.to_ms - span.from_ms < k * (length + 1)
            },
{
    let folds = folds_of(span, k);
    lemma_fold_bounds(span, k, 0);
    lemma_fold_at(span, k, 0);
    lemma_fold_at(span, k, folds.len() - 1);
    assert(0 * fold_step(span, k) == 0) by (nonlinear_arith);
    assert forall|i: int| 0 <= i < folds.len() implies (#[trigger] folds[i]).from_ms
        < folds[i].to_ms by {
        lemma_fold_at(span, k, i);
    }
    assert forall|i: int, j: int| 0 <= i && j == i + 1 && j < folds.len() implies (
    #[trigger] folds[i]).to_ms == (#[trigger] folds[j]).from_ms by {
        lemma_fold_at(span, k, i);
        lemma_fold_at(span, k, j);
    }
    assert forall|i: int| 0 <= i < folds.len() - 1 implies (#[trigger] folds[i]).to_ms
        - folds[i].from_ms == fold_step(span, k) by {
        lemma_fold_at(span, k, i);
    }
    let d = span.to_ms - span.from_ms;
    let step = fold_step(span, k);
    vstd::arithmetic::div_mod::lemma_fundamental_div_mod(d, k);
    vstd::arithmetic::div_mod::lemma_mod_bound(d, k);
    assert(k * (step + 1) == k * step + k) by (nonlinear_arith);
}

/// The folds increase: a fold ends before or where a later one begins.
proof fn lemma_folds_ordered(span: CandleWindow, k: int, i: int, j: int)
    requires
        k >= 1,
        span.from_ms < span.to_ms,
        0 <= i < j < folds_of(span, k).len(),
    ensures
        folds_of(span, k)[i].to_ms <= folds_of(span, k)[j].from_ms,
{
    lemma_fold_at(span, k, i);
    lemma_fold_at(span, k, j);
    lemma_fold_bounds(span, k, 0);
    let step = fold_step(span, k);
    assert((i + 1) * step <= j * step) by (nonlinear_arith)
        requires
            i + 1 <= j,
            step >= 0,
    ;
}

proof fn lemma_time_has_a_fold(span: CandleWindow, k: int, t: int, n: nat)
    requires
        k >= 1,
        span.from_ms < span.to_ms,
        0 < n <= folds_of(span, k).len(),
        span.from_ms <= t < folds_of(span, k)[n - 1].to_ms,
    ensures
        exists|i: int| 0 <= i < n && in_window(#[trigger] folds_of(span, k)[i], t),
    decreases n,
{
    let folds = folds_of(span, k);
    lemma_fold_at(span, k, n - 1);
    if folds[n - 1].from_ms <= t {
        assert(in_window(folds[n - 1], t));
    } else {
        assert(n - 1 == 0 ==> (n - 1) * fold_step(span, k) == 0) by (nonlinear_arith);
        lemma_fold_at(span, k, n - 2);
        lemma_time_has_a_fold(span, k, t, (n - 1) as nat);
    }
}

/// Every time of the span lies in exactly one fold, and no other time in any.
pub proof fn law_folds_partition_the_span(span: CandleWindow, k: int, t: int)
    requires
        k >= 1,
        span.from_ms < span.to_ms,
    ensures
        in_window(span, t) <==> exists|i: int|
            0 <= i < folds_of(span, k).len() && in_window(#[trigger] folds_of(span, k)[i], t),
        forall|i: int, j: int|
            0 <= i < folds_of(span, k).len() && 0 <= j < folds_of(span, k).len() && in_window(
                #[trigger] folds_of(span, k)[i],
                t,
            ) && in_window(#[trigger] folds_of(span, k)[j], t) ==> i == j,
{
    let folds = folds_of(span, k);
    lemma_fold_bounds(span, k, 0);
    lemma_fold_at(span, k, folds.len() - 1);
    if in_window(span, t) {
        lemma_time_has_a_fold(span, k, t, folds.len());
    }
    assert forall|i: int| 0 <= i < folds.len() && in_window(
        #[trigger] folds[i],
        t,
    ) implies in_window(span, t) by {
        lemma_fold_at(span, k, i);
    }
    assert forall|i: int, j: int|
        0 <= i < folds.len() && 0 <= j < folds.len() && in_window(#[trigger] folds[i], t)
            && in_window(#[trigger] folds[j], t) implies i == j by {
        if i < j {
            lemma_folds_ordered(span, k, i, j);
        } else if j < i {
            lemma_folds_ordered(span, k, j, i);
        }
    }
}

/// The slices of a series by the first `n` of a list of windows, one behind the other.
pub open spec fn sliced_by(candles: Seq<Candle>, windows: Seq<CandleWindow>, n: nat) -> Seq<Candle>
    decreases n,
{
    if n == 0 {
        Seq::empty()
    } else {
        sliced_by(candles, windows, (n - 1) as nat) + candles_in(candles, windows[n - 1])
    }
}

proof fn lemma_sliced_by_folds(candles: Seq<Candle>, span: CandleWindow, k: int, n: nat)
    requires
        k >= 1,
        span.from_ms < span.to_ms,
        increasing(candles),
        0 < n <= folds_of(span, k).len(),
    ensures
        sliced_by(candles, folds_of(span, k), n) == candles_in(
            candles,
            CandleWindow { from_ms: span.from_ms, to_ms: folds_of(span, k)[n - 1].to_ms },
        ),
    decreases n,
{
    let folds = folds_of(span, k);
    let m = (n - 1) as nat;
    lemma_fold_at(span, k, n - 1);
    if n == 1 {
        assert(0 * fold_step(span, k) == 0) by (nonlinear_arith);
        assert(sliced_by(candles, folds, 0) + candles_in(candles, folds[0]) =~= candles_in(
            candles,
            folds[0],
        ));
    } else {
        lemma_sliced_by_folds(candles, span, k, m);
        lemma_fold_at(span, k, n - 2);
        law_adjacent_windows_split(
            candles,
            CandleWindow { from_ms: span.from_ms, to_ms: folds[n - 2].to_ms },
            folds[n - 1],
        );
    }
}

/// The slices of an ordered series by all folds of a span, one behind the other, are its
/// slice by the span: no candle is lost, none comes twice, and the order stays.
pub proof fn law_fold_slices_make_the_span(candles: Seq<Candle>, span: CandleWindow, k: int)
    requires
        k >= 1,
        span.from_ms < span.to_ms,
        increasing(candles),
    ensures
        sliced_by(candles, folds_of(span, k), folds_of(span, k).len()) == candles_in(candles, span),
{
    law_folds_cover_the_span(span, k);
    lemma_sliced_by_folds(candles, span, k, folds_of(span, k).len());
}

/// Cuts a span into contiguous half-open windows.
pub fn fold_windows(span: &CandleWindow, k: u8) -> (folds: Vec<CandleWindow>)
    requires
        k >= 1,
        span.from_ms < span.to_ms,
    ensures
        folds@ == folds_of(*span, k as int),
{
    let from: i128 = span.from_ms as i128;
    let step: i128 = (span.to_ms as i128 - from) / (k as i128);
    let mut folds: Vec<CandleWindow> = Vec::new();
    proof {
        lemma_fold_bounds(*span, k as int, 0);
    }
    if step == 0 {
        folds.push(*span);
        assert(folds@ =~= folds_of(*span, k as int));
        return folds;
    }
    let mut i: u8 = 0;
    while i < k
        invariant
            k >= 1,
            i <= k,
            span.from_ms < span.to_ms,
            from == span.from_ms,
            step == fold_step(*span, k as int),
            step > 0,
            folds.len() == i,
            forall|j: int| 0 <= j < i ==> #[trigger] folds@[j] == folds_of(*span, k as int)[j],
        decreases k - i,
    {
        proof {
            lemma_fold_bounds(*span, k as int, i as int);
            lemma_fold_bounds(*span, k as int, i + 1);
        }
        let start: i128 = from + (i as i128) * step;
        let to_ms = if i == k - 1 {
            span.to_ms
        } else {
            (from + (i as i128 + 1) * step) as i64
        };
        folds.push(CandleWindow { from_ms: start as i64, to_ms });
        i = i + 1;
    }
    assert(folds@ =~= folds_of(*span, k as int));
    folds
}

// ---------------------------------------------------------------------------
// Verdicts.
// ---------------------------------------------------------------------------

/// The moments behind a fold's lower bound.
#[derive(Clone, Copy, Debug, PartialEq, Eq)]
pub struct FoldMoments {
    /// The mean of the fold's R-multiples.
    pub mean_r: Decimal,
    /// Their sample variance over their count: the square of the standard error.
    pub variance_over_n: Decimal,
}

/// The moments of at least two R-multiples, and none of fewer; the outer `None` where a
/// step does not fit.
pub open spec fn fold_moments(rs: Seq<Decimal>) -> Option<Option<FoldMoments>> {
    if rs.len() < 2 {
        Some(None)
    } else {
        match many_moments(rs) {
            Some(m) => Some(Some(m)),
            None => None,
        }
    }
}

/// The moments of at least two R-multiples; `None` where a step does not fit.
pub open spec fn many_moments(rs: Seq<Decimal>) -> Option<FoldMoments> {
    let n = rs.len();
    match over_opt(r_sum(rs, n), whole(n)) {
        None => None,
        Some(mean_r) => match over_opt(
            over_opt(deviation_sum(rs, mean_r, n), whole((n - 1) as nat)),
            whole(n),
        ) {
            None => None,
            Some(variance_over_n) => Some(FoldMoments { mean_r, variance_over_n }),
        },
    }
}

/// What the variance over the count is in numbers: where every step comes out even, it is
/// what the squared distances of the members from the mean come to, over the count and
/// over one less than the count.
pub open spec fn is_variance_over_n(v: Decimal, mean: Decimal, rs: Seq<Decimal>) -> bool {
    let n = rs.len();
    let sum = deviation_sum(rs, mean, n)->0;
    let sample = over(sum, whole((n - 1) as nat))->0;
    deviations_are_exact(rs, mean, n) && divides_exactly(sum, whole((n - 1) as nat))
        && divides_exactly(sample, whole(n)) ==> v.units() * n * (n - 1) * pow10(MAX_SCALE as nat)
        == squared_distances(rs, mean.units())
}

/// Where the members and their distances from the mean are of ordinary size, a variance over
/// the count that comes out even is what the squared distances come to, over one less than
/// the count and then over the count.
pub open spec fn spread_over_n_is_exact(v: Decimal, mean: Decimal, rs: Seq<Decimal>) -> bool {
    let n = rs.len();
    forall|q: nat, e: nat| #[trigger]
        ordinary_spread(rs, mean, q, e) ==> {
            let sum = squared_distances(rs, mean.units()) / pow10(MAX_SCALE as nat);
            let sample = sum / (n - 1);
            comes_out_even(sum, (n - 1) as nat, 2 * q) && comes_out_even(sample, n, 2 * q + 9)
                ==> v.units() * n == sample
        }
}

impl FoldMoments {
    /// The moments of a fold where every step fits: `Some(None)` for fewer than two
    /// R-multiples.
    pub fn checked_from_rs(rs: &[Decimal]) -> (r: Option<Option<FoldMoments>>)
        ensures
            r == fold_moments(rs@),
            r matches Some(Some(m)) ==> m.variance_over_n.units() >= 0 && is_mean(m.mean_r, rs@),
            r matches Some(Some(m)) ==> is_variance_over_n(m.variance_over_n, m.mean_r, rs@),
            r matches Some(Some(m)) ==> spread_over_n_is_exact(m.variance_over_n, m.mean_r, rs@),
    {
        if rs.len() < 2 {
            return Some(None);
        }
        match mean_and_variance(rs) {
            None => None,
            Some((mean_r, variance)) => {
                let count = Decimal::from_usize(rs.len());
                proof {
                    crate::decimal::lemma_units_sign(count);
                }
                match variance.checked_div(count) {
                    None => None,
                    Some(variance_over_n) => {
                        proof {
                            let n = rs@.len();
                            if divides_exactly(variance, count) {
                                lemma_over_count(variance_over_n, variance, n);
                                let v = variance_over_n.units();
                                let u = variance.units();
                                assert(v * n * (n - 1) == u * (n - 1)) by (nonlinear_arith)
                                    requires
                                        v * n == u,
                                ;
                            }
                            assert forall|q: nat, e: nat| #[trigger]
                                ordinary_spread(rs@, mean_r, q, e) implies {
                                let sum = squared_distances(rs@, mean_r.units()) / pow10(
                                    MAX_SCALE as nat,
                                );
                                let sample = sum / (n - 1);
                                comes_out_even(sum, (n - 1) as nat, 2 * q) && comes_out_even(
                                    sample,
                                    n,
                                    2 * q + 9,
                                ) ==> variance_over_n.units() * n == sample
                            } by {
                                let sum = squared_distances(rs@, mean_r.units()) / pow10(
                                    MAX_SCALE as nat,
                                );
                                if comes_out_even(sum, (n - 1) as nat, 2 * q) {
                                    let u = variance.units();
                                    vstd::arithmetic::div_mod::lemma_div_multiples_vanish(
                                        u,
                                        n - 1,
                                    );
                                    assert(u * (n - 1) == (n - 1) * u) by (nonlinear_arith);
                                    if comes_out_even(u, n, 2 * q + 9) {
                                        lemma_comes_out_even(variance, count, n, 2 * q + 9);
                                    }
                                }
                            }
                        }
                        Some(Some(FoldMoments { mean_r, variance_over_n }))
                    },
                }
            },
        }
    }
}

/// The verdict on one fold.
#[derive(Clone, Copy, Debug, PartialEq, Eq)]
pub struct FoldVerdict {
    /// The number of out-of-sample trades.
    pub n: usize,
    /// The mean of their R-multiples; zero for fewer than two.
    pub mean_r: Decimal,
    /// Whether the lower bound on the expectancy is above zero.
    pub lower_bound_positive: bool,
    /// Whether the fold holds.
    pub holds: bool,
}

/// The verdict on a fold: fewer than two trades have no bound and do not hold; a
/// fold holds with enough trades and a lower bound strictly above zero.
pub open spec fn fold_verdict(rs: Seq<Decimal>, lower_bound_positive: bool) -> FoldVerdict {
    if rs.len() < 2 {
        FoldVerdict { n: rs.len() as usize, mean_r: zero(), lower_bound_positive: false, holds: false }
    } else {
        FoldVerdict {
            n: rs.len() as usize,
            mean_r: many_moments(rs)->0.mean_r,
            lower_bound_positive,
            holds: rs.len() >= N_MIN && lower_bound_positive,
        }
    }
}

/// Whether the moments of a fold fit, where it has any.
pub open spec fn fold_fits(rs: Seq<Decimal>) -> bool {
    fold_moments(rs) is Some
}

/// What a fold's verdict is, said of the fold alone: it counts the trades, holds with at
/// least twenty of them and a bound above zero, and knows neither mean nor bound of fewer
/// than two.
pub open spec fn is_verdict_on(v: FoldVerdict, rs: Seq<Decimal>, positive: bool) -> bool {
    &&& v.n == rs.len()
    &&& v.holds <==> rs.len() >= 20 && positive
    &&& v.lower_bound_positive <==> rs.len() >= 2 && positive
    &&& rs.len() < 2 ==> v.mean_r.units() == 0
    &&& rs.len() >= 2 ==> is_mean(v.mean_r, rs)
}

fn judge(rs: &[Decimal], lower_bound_positive: bool) -> (r: Option<FoldVerdict>)
    ensures
        r is Some <==> fold_fits(rs@),
        r is Some ==> r->0 == fold_verdict(rs@, lower_bound_positive),
        r is Some && rs@.len() >= 2 ==> is_mean(r->0.mean_r, rs@),
        r is Some ==> is_verdict_on(r->0, rs@, lower_bound_positive),
{
    let n = rs.len();
    match FoldMoments::checked_from_rs(rs) {
        None => None,
        Some(None) => Some(
            FoldVerdict { n, mean_r: Decimal::zero(), lower_bound_positive: false, holds: false },
        ),
        Some(Some(m)) => Some(
            FoldVerdict {
                n,
                mean_r: m.mean_r,
                lower_bound_positive,
                holds: n >= N_MIN && lower_bound_positive,
            },
        ),
    }
}

impl FoldVerdict {
    /// Judges one fold, given whether the lower bound that its moments give is above
    /// zero.
    pub fn from_rs(rs: &[Decimal], lower_bound_positive: bool) -> (r: FoldVerdict)
        requires
            fold_fits(rs@),
        ensures
            r == fold_verdict(rs@, lower_bound_positive),
            rs@.len() >= 2 ==> is_mean(r.mean_r, rs@),
            is_verdict_on(r, rs@, lower_bound_positive),
    {
        judge(rs, lower_bound_positive).unwrap()
    }

    /// Judges one fold where its moments fit.
    pub fn checked_from_rs(rs: &[Decimal], lower_bound_positive: bool) -> (r: Option<FoldVerdict>)
        ensures
            r is Some <==> fold_fits(rs@),
            r is Some ==> r->0 == fold_verdict(rs@, lower_bound_positive),
            r is Some && rs@.len() >= 2 ==> is_mean(r->0.mean_r, rs@),
            r is Some ==> is_verdict_on(r->0, rs@, lower_bound_positive),
    {
        if judge(rs, lower_bound_positive).is_some() {
            Some(FoldVerdict::from_rs(rs, lower_bound_positive))
        } else {
            None
        }
    }
}

/// The verdict on a run.
#[derive(Clone, Copy, Debug, PartialEq, Eq)]
pub struct RunVerdict {
    /// How many folds held.
    pub folds_holding: u8,
    /// How many have to hold.
    pub folds_required: u8,
    /// The verdict over every out-of-sample trade.
    pub pooled: FoldVerdict,
    /// Whether the run passes.
    pub pass: bool,
}

/// How many of the first `n` folds hold.
pub open spec fn holding(folds: Seq<FoldVerdict>, n: nat) -> nat
    decreases n,
{
    if n == 0 {
        0
    } else {
        holding(folds, (n - 1) as nat) + if folds[n - 1].holds {
            1nat
        } else {
            0nat
        }
    }
}

/// A count, capped at the largest byte.
pub open spec fn capped(n: nat) -> u8 {
    if n <= 255 {
        n as u8
    } else {
        255
    }
}

/// The verdict on a run: enough folds hold, and the pooled bound holds.
pub open spec fn run_verdict(
    folds: Seq<FoldVerdict>,
    pooled_rs: Seq<Decimal>,
    pooled_bound_positive: bool,
) -> RunVerdict {
    let held = capped(holding(folds, folds.len()));
    let required = two_thirds(capped(folds.len()) as int) as u8;
    let pooled = fold_verdict(pooled_rs, pooled_bound_positive);
    RunVerdict {
        folds_holding: held,
        folds_required: required,
        pooled,
        pass: held >= required && pooled.holds,
    }
}

/// The folds that hold, in their order.
pub open spec fn that_hold(folds: Seq<FoldVerdict>) -> Seq<FoldVerdict> {
    folds.filter(|f: FoldVerdict| f.holds)
}

/// What a run's verdict is, said of its folds alone: it counts those that hold, asks for
/// the least number that is two thirds of them, and passes where these are reached and the
/// pooled trades hold as a fold does. Counts are capped at the largest byte.
pub open spec fn is_run_verdict_on(
    v: RunVerdict,
    folds: Seq<FoldVerdict>,
    pooled_rs: Seq<Decimal>,
    positive: bool,
) -> bool {
    let k = if folds.len() <= 255 {
        folds.len() as int
    } else {
        255int
    };
    &&& is_verdict_on(v.pooled, pooled_rs, positive)
    &&& that_hold(folds).len() <= 255 ==> v.folds_holding == that_hold(folds).len()
    &&& that_hold(folds).len() > 255 ==> v.folds_holding == 255
    &&& 3 * v.folds_required >= 2 * k
    &&& 3 * (v.folds_required - 1) < 2 * k
    &&& v.pass <==> v.folds_holding >= v.folds_required && pooled_rs.len() >= 20 && positive
}

/// The folds that hold are as many as are counted.
pub proof fn law_holding_folds_are_counted(folds: Seq<FoldVerdict>)
    ensures
        holding(folds, folds.len()) == folds.filter(|f: FoldVerdict| f.holds).len(),
{
    lemma_holding_counts(folds, folds.len());
    assert(folds.take(folds.len() as int) =~= folds);
    assert(that_hold(folds) == folds.filter(|f: FoldVerdict| f.holds));
}

proof fn lemma_holding_counts(folds: Seq<FoldVerdict>, n: nat)
    requires
        n <= folds.len(),
    ensures
        holding(folds, n) == that_hold(folds.take(n as int)).len(),
    decreases n,
{
    reveal(Seq::filter);
    if n > 0 {
        let m = (n - 1) as nat;
        lemma_holding_counts(folds, m);
        assert(folds.take(n as int).drop_last() =~= folds.take(m as int));
    } else {
        assert(folds.take(0) =~= Seq::empty());
    }
}

fn cap(n: usize) -> (r: u8)
    ensures
        r == capped(n as nat),
{
    if n <= 255 {
        n as u8
    } else {
        255
    }
}

impl RunVerdict {
    /// Judges a finished run from its folds' verdicts and every fold's R-multiples in
    /// fold order, given whether the pooled lower bound is above zero.
    pub fn assess(
        folds: &[FoldVerdict],
        pooled_rs: &[Decimal],
        pooled_bound_positive: bool,
    ) -> (r: RunVerdict)
        requires
            fold_fits(pooled_rs@),
        ensures
            r == run_verdict(folds@, pooled_rs@, pooled_bound_positive),
            pooled_rs@.len() >= 2 ==> is_mean(r.pooled.mean_r, pooled_rs@),
            is_run_verdict_on(r, folds@, pooled_rs@, pooled_bound_positive),
    {
        proof {
            law_holding_folds_are_counted(folds@);
            assert(that_hold(folds@) == folds@.filter(|f: FoldVerdict| f.holds));
        }
        let n = folds.len();
        let mut held: usize = 0;
        for i in 0..n
            invariant
                n == folds@.len(),
                held <= i,
                held == holding(folds@, i as nat),
        {
            if folds[i].holds {
                held = held + 1;
            }
        }
        let holding_folds = cap(held);
        let required = folds_required(cap(n));
        let pooled = FoldVerdict::from_rs(pooled_rs, pooled_bound_positive);
        RunVerdict {
            folds_holding: holding_folds,
            folds_required: required,
            pooled,
            pass: holding_folds >= required && pooled.holds,
        }
    }

    /// Judges a finished run where the pooled moments fit.
    pub fn checked_assess(
        folds: &[FoldVerdict],
        pooled_rs: &[Decimal],
        pooled_bound_positive: bool,
    ) -> (r: Option<RunVerdict>)
        ensures
            r is Some <==> fold_fits(pooled_rs@),
            r is Some ==> r->0 == run_verdict(folds@, pooled_rs@, pooled_bound_positive),
            r is Some && pooled_rs@.len() >= 2 ==> is_mean(r->0.pooled.mean_r, pooled_rs@),
            r is Some ==> is_run_verdict_on(r->0, folds@, pooled_rs@, pooled_bound_positive),
    {
        if judge(pooled_rs, pooled_bound_positive).is_some() {
            Some(RunVerdict::assess(folds, pooled_rs, pooled_bound_positive))
        } else {
            None
        }
    }
}

/// A run passes only where the pooled bound holds and, of up to 255 folds, at least
/// two thirds hold.
pub proof fn law_pass_needs_two_thirds(
    folds: Seq<FoldVerdict>,
    pooled_rs: Seq<Decimal>,
    pooled_bound_positive: bool,
)
    requires
        folds.len() <= 255,
    ensures
        run_verdict(folds, pooled_rs, pooled_bound_positive).pass <==> {
            &&& 3 * holding(folds, folds.len()) >= 2 * folds.len()
            &&& fold_verdict(pooled_rs, pooled_bound_positive).holds
        },
{
    lemma_holding_bound(folds, folds.len());
}

proof fn lemma_holding_bound(folds: Seq<FoldVerdict>, n: nat)
    ensures
        holding(folds, n) <= n,
    decreases n,
{
    if n > 0 {
        lemma_holding_bound(folds, (n - 1) as nat);
    }
}

// ---------------------------------------------------------------------------
// Records.
// ---------------------------------------------------------------------------

/// Identifier of a walk-forward run.
#[derive(Clone, Debug, PartialEq, Eq, Hash, PartialOrd, Ord)]
pub struct WalkForwardRunId(String);

impl View for WalkForwardRunId {
    type V = Seq<char>;

    closed spec fn view(&self) -> Seq<char> {
        self.0@
    }
}

impl WalkForwardRunId {
    /// Wraps an id.
    pub fn new(id: &str) -> (r: WalkForwardRunId)
        ensures
            r@ == id@,
    {
        WalkForwardRunId(id.to_owned())
    }

    /// The id.
    pub fn as_str(&self) -> (r: &str)
        ensures
            r@ == self@,
    {
        self.0.as_str()
    }
}

/// A persisted fold.
#[derive(Clone, Debug, PartialEq)]
pub struct WalkForwardFold {
    /// The fold's position in the scheme.
    pub index: u8,
    /// The counted window the fold's run covered.
    pub window: CandleWindow,
    /// The run this fold ran as.
    pub backtest_run_id: BacktestRunId,
    /// The verdict recorded on the fold.
    pub verdict: FoldVerdict,
}

/// A run's place in a walk-forward run.
#[derive(Clone, Debug, PartialEq, Eq)]
pub struct WalkForwardMembership {
    /// The parent run.
    pub run_id: WalkForwardRunId,
    /// The position in the parent's scheme.
    pub fold_index: u8,
}

/// A persisted walk-forward run.
#[derive(Clone, Debug, PartialEq)]
pub struct WalkForwardRun {
    /// The run's id.
    pub id: WalkForwardRunId,
    /// The strategy version this run was produced against.
    pub strategy_version_id: VersionId,
    /// The run timestamp, RFC 3339 text.
    pub created_at: String,
    /// The scheme the folds were cut under.
    pub scheme: FoldScheme,
    /// The rule the verdicts were judged under.
    pub rule: VerdictRule,
    /// The counted span the folds cover.
    pub span: CandleWindow,
    /// Whether the start of the span was defaulted.
    pub from_defaulted: bool,
    /// The engine fingerprint the fold runs share.
    pub engine_fingerprint: String,
    /// The verdict on the run.
    pub verdict: RunVerdict,
    /// The folds, ordered by index.
    pub folds: Vec<WalkForwardFold>,
}

/// A walk-forward run that is not persisted yet.
#[derive(Debug)]
pub struct WalkForwardRunDraft {
    /// The scheme the folds were cut under.
    pub scheme: FoldScheme,
    /// The rule the verdicts were judged under.
    pub rule: VerdictRule,
    /// The counted span the folds cover.
    pub span: CandleWindow,
    /// Whether the start of the span was defaulted.
    pub from_defaulted: bool,
    /// The engine fingerprint the fold runs share.
    pub engine_fingerprint: String,
    /// The verdict on the run.
    pub verdict: RunVerdict,
    /// The folds, ordered by index.
    pub folds: Vec<WalkForwardFoldDraft>,
}

/// A fold that is not persisted yet.
#[derive(Debug)]
pub struct WalkForwardFoldDraft {
    /// The fold's position in the scheme.
    pub index: u8,
    /// The counted window the fold's run covered.
    pub window: CandleWindow,
    /// The verdict on the fold.
    pub verdict: FoldVerdict,
    /// The inputs the fold ran with.
    pub inputs: BacktestInputs,
    /// The result of the fold.
    pub result: BacktestResult,
    /// The summary of the fold.
    pub summary: SummaryStats,
    /// The equity that the curve starts from.
    pub starting_equity: Decimal,
}

} // verus!
