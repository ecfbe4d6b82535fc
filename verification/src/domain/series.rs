//! Candle series: structural validation and slicing.
use crate::domain::backtest::run::{in_window, CandleWindow};
use crate::domain::error::{DataError, ValidationError};
use crate::domain::market::{timeframe_ms, Candle, DataVersion, Pair, Timeframe};
use vstd::prelude::*;

verus! {

/// A stretch without candles between two neighbours. Reported, not refused.
#[derive(Clone, Copy, Debug, PartialEq, Eq, Structural)]
pub struct Gap {
    /// When the next candle was due, epoch ms.
    pub expected: i64,
    /// When the next candle opened, epoch ms.
    pub found: i64,
}

/// The candles of one pair, interval and snapshot version.
#[derive(Clone, Debug, PartialEq, Eq)]
pub struct CandleSeries {
    /// The trading pair.
    pub pair: Pair,
    /// The candle interval.
    pub timeframe: Timeframe,
    /// The snapshot version.
    pub version: DataVersion,
    /// The candles, oldest first.
    pub candles: Vec<Candle>,
}

/// A series as a repository holds it.
#[derive(Clone, Debug, PartialEq, Eq)]
pub struct StoredCandleSeries {
    /// The series.
    pub series: CandleSeries,
    /// Where it is stored, for display; `None` where nothing was stored.
    pub storage_location: Option<String>,
}

/// What is reported of the first `n` candles: the first pair of neighbours that does not
/// increase, or every pair that is further apart than `step`.
pub open spec fn survey(candles: Seq<Candle>, step: int, n: int) -> Result<
    Seq<Gap>,
    ValidationError,
>
    decreases n,
{
    if n <= 1 {
        Ok(Seq::empty())
    } else {
        match survey(candles, step, n - 1) {
            Err(e) => Err(e),
            Ok(gaps) => {
                let earlier = candles[n - 2].open_time;
                let later = candles[n - 1].open_time;
                if later == earlier {
                    Err(ValidationError::Duplicate(later))
                } else if later < earlier {
                    Err(ValidationError::Unsorted { earlier, later })
                } else if later > earlier + step {
                    Ok(gaps.push(Gap { expected: (earlier + step) as i64, found: later }))
                } else {
                    Ok(gaps)
                }
            },
        }
    }
}

/// Whether the opening times strictly increase.
pub open spec fn increasing(candles: Seq<Candle>) -> bool {
    forall|i: int, j: int|
        0 <= i < j < candles.len() ==> (#[trigger] candles[i]).open_time < (
        #[trigger] candles[j]).open_time
}

/// The candles that open in a window, in their order.
pub open spec fn candles_in(candles: Seq<Candle>, window: CandleWindow) -> Seq<Candle> {
    candles.filter(|c: Candle| in_window(window, c.open_time as int))
}

proof fn lemma_survey_stops(candles: Seq<Candle>, step: int, n: int, m: int)
    requires
        n <= m,
        survey(candles, step, n) is Err,
    ensures
        survey(candles, step, m) == survey(candles, step, n),
    decreases m - n,
{
    if n < m {
        lemma_survey_stops(candles, step, n, m - 1);
    }
}

impl CandleSeries {
    /// Checks that the opening times strictly increase and reports the gaps.
    pub fn validate(&self) -> (r: Result<Vec<Gap>, DataError>)
        ensures
            match survey(
                self.candles@,
                timeframe_ms(self.timeframe) as int,
                self.candles@.len() as int,
            ) {
                Ok(gaps) => r matches Ok(found) && found@ == gaps,
                Err(error) => r matches Err(e) && e == DataError::Validation(error),
            },
    {
        let step = self.timeframe.duration_ms();
        let n = self.candles.len();
        let mut gaps: Vec<Gap> = Vec::new();
        let mut i: usize = 1;
        while i < n
            invariant
                1 <= i,
                n == self.candles@.len(),
                i <= n || n == 0 && i == 1,
                0 < step,
                step == timeframe_ms(self.timeframe),
                survey(self.candles@, step as int, i as int) == Ok::<Seq<Gap>, ValidationError>(
                    gaps@,
                ),
            decreases n - i,
        {
            let earlier = self.candles[i - 1].open_time;
            let later = self.candles[i].open_time;
            if later == earlier {
                proof {
                    lemma_survey_stops(self.candles@, step as int, i as int + 1, n as int);
                }
                return Err(DataError::Validation(ValidationError::Duplicate(later)));
            }
            if later < earlier {
                proof {
                    lemma_survey_stops(self.candles@, step as int, i as int + 1, n as int);
                }
                return Err(DataError::Validation(ValidationError::Unsorted { earlier, later }));
            }
            if later as i128 > earlier as i128 + step as i128 {
                gaps.push(Gap { expected: earlier + step, found: later });
            }
            i = i + 1;
        }
        assert(n == 0 ==> survey(self.candles@, step as int, 0) == survey(
            self.candles@,
            step as int,
            1,
        ));
        Ok(gaps)
    }

    /// The candles that open in a window. The slice keeps the identity of the series.
    pub fn windowed(&self, window: &CandleWindow) -> (r: CandleSeries)
        ensures
            r.pair == self.pair,
            r.timeframe == self.timeframe,
            r.version == self.version,
            r.candles@ == candles_in(self.candles@, *window),
    {
        let mut candles: Vec<Candle> = Vec::new();
        let ghost all = self.candles@;
        assert(candles@ =~= candles_in(all.take(0), *window)) by {
            reveal(Seq::filter);
            assert(all.take(0) =~= Seq::empty());
        }
        for i in 0..self.candles.len()
            invariant
                all == self.candles@,
                candles@ == candles_in(all.take(i as int), *window),
        {
            let c = self.candles[i];
            if c.open_time >= window.from_ms && c.open_time < window.to_ms {
                candles.push(c);
            }
            proof {
                reveal(Seq::filter);
                let next = all.take(i as int + 1);
                assert(next.drop_last() =~= all.take(i as int));
                assert(next.last() == c);
            }
        }
        assert(all.take(all.len() as int) =~= all);
        CandleSeries {
            pair: self.pair.duplicate(),
            timeframe: self.timeframe,
            version: self.version.duplicate(),
            candles,
        }
    }
}

// ---------------------------------------------------------------------------
// Laws.
// ---------------------------------------------------------------------------

/// A series is accepted exactly where its opening times strictly increase; gaps never
/// cause a refusal.
pub proof fn law_accepted_iff_increasing(candles: Seq<Candle>, step: int)
    ensures
        survey(candles, step, candles.len() as int) is Ok <==> increasing(candles),
{
    lemma_accepted(candles, step, candles.len() as int);
    assert(candles.take(candles.len() as int) =~= candles);
}

proof fn lemma_accepted(candles: Seq<Candle>, step: int, n: int)
    requires
        0 <= n <= candles.len(),
    ensures
        survey(candles, step, n) is Ok <==> increasing(candles.take(n)),
    decreases n,
{
    let head = candles.take(n);
    if n > 1 {
        lemma_accepted(candles, step, n - 1);
        let shorter = candles.take(n - 1);
        assert(shorter =~= head.drop_last());
        if increasing(head) {
            assert forall|i: int, j: int| 0 <= i < j < shorter.len() implies (
            #[trigger] shorter[i]).open_time < (#[trigger] shorter[j]).open_time by {
                assert(head[i].open_time < head[j].open_time);
            }
            assert(head[n - 2].open_time < head[n - 1].open_time);
        }
        if survey(candles, step, n) is Ok {
            assert forall|i: int, j: int| 0 <= i < j < head.len() implies (
            #[trigger] head[i]).open_time < (#[trigger] head[j]).open_time by {
                if j < n - 1 {
                    assert(shorter[i].open_time < shorter[j].open_time);
                } else if i < n - 2 {
                    assert(shorter[i].open_time < shorter[n - 2].open_time);
                }
            }
        }
    }
}

/// The gaps of an accepted series are the neighbours further apart than one step, and a
/// series without such neighbours has none.
pub proof fn law_gaps_are_wide_neighbours(candles: Seq<Candle>, step: int, gap: Gap)
    requires
        0 < step,
        survey(candles, step, candles.len() as int) is Ok,
    ensures
        survey(candles, step, candles.len() as int)->Ok_0.contains(gap) <==> exists|i: int|
            1 <= i < candles.len() && gap.found == (#[trigger] candles[i]).open_time
                && candles[i - 1].open_time + step < gap.found && gap.expected == candles[i
                - 1].open_time + step,
{
    lemma_gaps(candles, step, gap, candles.len() as int);
}

proof fn lemma_gaps(candles: Seq<Candle>, step: int, gap: Gap, n: int)
    requires
        0 < step,
        0 <= n <= candles.len(),
        survey(candles, step, n) is Ok,
    ensures
        survey(candles, step, n)->Ok_0.contains(gap) <==> exists|i: int|
            1 <= i < n && gap.found == (#[trigger] candles[i]).open_time && candles[i
                - 1].open_time + step < gap.found && gap.expected == candles[i - 1].open_time
                + step,
    decreases n,
{
    if n > 1 {
        lemma_gaps(candles, step, gap, n - 1);
        let shorter = survey(candles, step, n - 1)->Ok_0;
        let gaps = survey(candles, step, n)->Ok_0;
        let earlier = candles[n - 2].open_time;
        let later = candles[n - 1].open_time;
        if later > earlier + step {
            let new = Gap { expected: (earlier + step) as i64, found: later };
            assert(gaps == shorter.push(new));
            assert(gaps[gaps.len() - 1] == new);
            if shorter.contains(gap) {
                let k = choose|k: int| 0 <= k < shorter.len() && shorter[k] == gap;
                assert(gaps[k] == gap);
            }
            if gaps.contains(gap) && !shorter.contains(gap) {
                let k = choose|k: int| 0 <= k < gaps.len() && gaps[k] == gap;
                assert(k == gaps.len() - 1);
                assert(gap.found == candles[n - 1].open_time);
            }
        }
    }
}

/// A slice holds what a window takes, once: slicing again changes nothing.
pub proof fn law_slicing_twice_is_slicing_once(candles: Seq<Candle>, window: CandleWindow)
    ensures
        candles_in(candles_in(candles, window), window) == candles_in(candles, window),
    decreases candles.len(),
{
    reveal(Seq::filter);
    if candles.len() > 0 {
        law_slicing_twice_is_slicing_once(candles.drop_last(), window);
        let shorter = candles_in(candles.drop_last(), window);
        assert(shorter.push(candles.last()).drop_last() =~= shorter);
    }
}

/// A window that holds every opening time keeps the whole series.
pub proof fn law_covering_window_keeps_everything(candles: Seq<Candle>, window: CandleWindow)
    requires
        forall|i: int|
            0 <= i < candles.len() ==> in_window(
                window,
                (#[trigger] candles[i]).open_time as int,
            ),
    ensures
        candles_in(candles, window) == candles,
    decreases candles.len(),
{
    reveal(Seq::filter);
    if candles.len() > 0 {
        let init = candles.drop_last();
        assert forall|i: int| 0 <= i < init.len() implies in_window(
            window,
            (#[trigger] init[i]).open_time as int,
        ) by {
            assert(init[i] == candles[i]);
        }
        law_covering_window_keeps_everything(init, window);
        let k = candles.len() - 1;
        assert(in_window(window, candles[k].open_time as int));
        assert(init.push(candles.last()) =~= candles);
    }
}

/// Two windows side by side split what one window over both takes.
pub proof fn law_adjacent_windows_split(
    candles: Seq<Candle>,
    first: CandleWindow,
    second: CandleWindow,
)
    requires
        increasing(candles),
        first.from_ms <= first.to_ms,
        first.to_ms == second.from_ms,
        second.from_ms <= second.to_ms,
    ensures
        candles_in(candles, first) + candles_in(candles, second) == candles_in(
            candles,
            CandleWindow { from_ms: first.from_ms, to_ms: second.to_ms },
        ),
    decreases candles.len(),
{
    reveal(Seq::filter);
    let both = CandleWindow { from_ms: first.from_ms, to_ms: second.to_ms };
    if candles.len() > 0 {
        let init = candles.drop_last();
        let last = candles.last();
        assert(increasing(init)) by {
            assert forall|i: int, j: int| 0 <= i < j < init.len() implies (
            #[trigger] init[i]).open_time < (#[trigger] init[j]).open_time by {
                assert(candles[i].open_time < candles[j].open_time);
            }
        }
        law_adjacent_windows_split(init, first, second);
        if in_window(first, last.open_time as int) {
            assert forall|i: int| 0 <= i < init.len() implies (#[trigger] init[i]).open_time
                < last.open_time by {
                assert(candles[i].open_time < candles[candles.len() - 1].open_time);
            }
            lemma_nothing_later(init, second, last.open_time);
            assert(candles_in(init, second) =~= Seq::empty());
        }
        assert(candles_in(candles, first) + candles_in(candles, second) =~= candles_in(
            candles,
            both,
        ));
    }
}

/// Before a window starts there is nothing in it.
proof fn lemma_nothing_later(candles: Seq<Candle>, window: CandleWindow, bound: i64)
    ensures
        bound <= window.from_ms && (forall|i: int|
            0 <= i < candles.len() ==> (#[trigger] candles[i]).open_time < bound) ==> candles_in(
            candles,
            window,
        ).len() == 0,
    decreases candles.len(),
{
    reveal(Seq::filter);
    if candles.len() > 0 {
        let init = candles.drop_last();
        if bound <= window.from_ms && forall|i: int|
            0 <= i < candles.len() ==> (#[trigger] candles[i]).open_time < bound {
            assert forall|i: int| 0 <= i < init.len() implies (#[trigger] init[i]).open_time
                < bound by {
                assert(candles[i].open_time < bound);
            }
            lemma_nothing_later(init, window, bound);
            assert(candles[candles.len() - 1].open_time < bound);
        }
    }
}

/// A refused series is refused for the first candle that does not open after the one
/// before it: for a duplicate where both open at one time, for the order where it opens
/// earlier.
pub proof fn law_refusals_name_the_first_fault(candles: Seq<Candle>, step: int, k: int)
    requires
        1 <= k < candles.len(),
        candles[k].open_time <= candles[k - 1].open_time,
        forall|i: int|
            1 <= i < k ==> candles[i - 1].open_time < (#[trigger] candles[i]).open_time,
    ensures
        candles[k].open_time == candles[k - 1].open_time ==> survey(
            candles,
            step,
            candles.len() as int,
        ) == Err::<Seq<Gap>, ValidationError>(ValidationError::Duplicate(candles[k].open_time)),
        candles[k].open_time < candles[k - 1].open_time ==> survey(
            candles,
            step,
            candles.len() as int,
        ) == Err::<Seq<Gap>, ValidationError>(
            ValidationError::Unsorted {
                earlier: candles[k - 1].open_time,
                later: candles[k].open_time,
            },
        ),
{
    lemma_sorted_so_far(candles, step, k);
    lemma_survey_stops(candles, step, k + 1, candles.len() as int);
}

proof fn lemma_sorted_so_far(candles: Seq<Candle>, step: int, k: int)
    requires
        k <= candles.len(),
        forall|i: int|
            1 <= i < k ==> candles[i - 1].open_time < (#[trigger] candles[i]).open_time,
    ensures
        survey(candles, step, k) is Ok,
    decreases k,
{
    if k > 1 {
        lemma_sorted_so_far(candles, step, k - 1);
        assert(candles[k - 1 - 1].open_time < candles[k - 1].open_time);
    }
}

/// The gaps of an accepted series come in the order of time, each once.
pub proof fn law_gaps_come_in_order(candles: Seq<Candle>, step: int, n: int)
    requires
        0 <= n <= candles.len(),
        survey(candles, step, n) is Ok,
    ensures
        forall|i: int, j: int|
            0 <= i < j < survey(candles, step, n)->Ok_0.len() ==> (#[trigger] survey(
                candles,
                step,
                n,
            )->Ok_0[i]).found < (#[trigger] survey(candles, step, n)->Ok_0[j]).found,
        forall|i: int|
            0 <= i < survey(candles, step, n)->Ok_0.len() ==> (#[trigger] survey(
                candles,
                step,
                n,
            )->Ok_0[i]).found <= candles[n - 1].open_time,
    decreases n,
{
    if n > 1 {
        law_gaps_come_in_order(candles, step, n - 1);
        let gaps = survey(candles, step, n)->Ok_0;
        let before = survey(candles, step, n - 1)->Ok_0;
        assert(candles[n - 2].open_time < candles[n - 1].open_time);
        assert forall|i: int| 0 <= i < gaps.len() implies (#[trigger] gaps[i]).found
            <= candles[n - 1].open_time by {
            if i < before.len() {
                assert(gaps[i] == before[i]);
            }
        }
        assert forall|i: int, j: int| 0 <= i < j < gaps.len() implies (#[trigger] gaps[i]).found < (
        #[trigger] gaps[j]).found by {
            assert(gaps[i] == before[i]);
            if j < before.len() {
                assert(gaps[j] == before[j]);
            }
        }
    }
}

/// A slice holds a candle exactly where the series does and the candle opens at or after the
/// start of the window and before its end; and it keeps the order of an ordered series.
pub proof fn law_slices_hold_what_opens_in_the_window(
    candles: Seq<Candle>,
    window: CandleWindow,
    c: Candle,
)
    ensures
        candles_in(candles, window).contains(c) <==> candles.contains(c) && window.from_ms
            <= c.open_time && c.open_time < window.to_ms,
        increasing(candles) ==> increasing(candles_in(candles, window)),
    decreases candles.len(),
{
    reveal(Seq::filter);
    if candles.len() > 0 {
        let init = candles.drop_last();
        let last = candles.last();
        law_slices_hold_what_opens_in_the_window(init, window, c);
        let part = candles_in(init, window);
        let all = candles_in(candles, window);
        if candles.contains(c) {
            let k = choose|k: int| 0 <= k < candles.len() && candles[k] == c;
            if k < init.len() {
                assert(init[k] == c);
            }
        }
        if init.contains(c) {
            let k = choose|k: int| 0 <= k < init.len() && init[k] == c;
            assert(candles[k] == c);
        }
        if in_window(window, last.open_time as int) {
            assert(all == part.push(last));
            if part.contains(c) {
                let k = choose|k: int| 0 <= k < part.len() && part[k] == c;
                assert(all[k] == c);
            }
            if c == last {
                assert(all[part.len() as int] == c);
                assert(candles[candles.len() - 1] == c);
            }
            if all.contains(c) && c != last {
                let k = choose|k: int| 0 <= k < all.len() && all[k] == c;
                assert(part[k] == c);
            }
        }
        if increasing(candles) {
            assert(increasing(init)) by {
                assert forall|i: int, j: int| 0 <= i < j < init.len() implies (
                #[trigger] init[i]).open_time < (#[trigger] init[j]).open_time by {
                    assert(candles[i].open_time < candles[j].open_time);
                }
            }
            lemma_slice_is_earlier(candles, window);
        }
    }
}

/// What a slice of all but the last candle of an ordered series holds opens before the last.
proof fn lemma_slice_is_earlier(candles: Seq<Candle>, window: CandleWindow)
    requires
        candles.len() > 0,
        increasing(candles),
        increasing(candles_in(candles.drop_last(), window)),
    ensures
        increasing(candles_in(candles, window)),
{
    reveal(Seq::filter);
    let init = candles.drop_last();
    let last = candles.last();
    let part = candles_in(init, window);
    let all = candles_in(candles, window);
    if in_window(window, last.open_time as int) {
        assert(all == part.push(last));
        assert forall|i: int, j: int| 0 <= i < j < all.len() implies (#[trigger] all[i]).open_time
            < (#[trigger] all[j]).open_time by {
            if j < part.len() {
                assert(part[i].open_time < part[j].open_time);
            } else {
                lemma_slices_are_parts(init, window, i);
                let k = choose|k: int| 0 <= k < init.len() && init[k] == part[i];
                assert(candles[k].open_time < candles[candles.len() - 1].open_time);
            }
        }
    }
}

/// Every candle of a slice is a candle of the series.
proof fn lemma_slices_are_parts(candles: Seq<Candle>, window: CandleWindow, i: int)
    requires
        0 <= i < candles_in(candles, window).len(),
    ensures
        candles.contains(candles_in(candles, window)[i]),
    decreases candles.len(),
{
    reveal(Seq::filter);
    if candles.len() > 0 {
        let init = candles.drop_last();
        let part = candles_in(init, window);
        if i < part.len() {
            lemma_slices_are_parts(init, window, i);
            let k = choose|k: int| 0 <= k < init.len() && init[k] == part[i];
            assert(candles[k] == part[i]);
        } else {
            assert(candles[candles.len() - 1] == candles.last());
        }
    }
}

} // verus!
