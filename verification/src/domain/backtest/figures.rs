//! The vocabulary in which the figures of a run are said: which trades won, what a list
//! adds up to, and how long a stretch of trades is.
use crate::decimal::Decimal;
use crate::domain::backtest::trade::Trade;
use vstd::prelude::*;

verus! {

/// The trades that made money, in their order.
pub open spec fn winners(trades: Seq<Trade>) -> Seq<Trade> {
    trades.filter(|t: Trade| t.realized_pnl.units() > 0)
}

/// The trades that lost money, in their order.
pub open spec fn losers(trades: Seq<Trade>) -> Seq<Trade> {
    trades.filter(|t: Trade| t.realized_pnl.units() < 0)
}

/// The trades that came out even, in their order.
pub open spec fn unmoved(trades: Seq<Trade>) -> Seq<Trade> {
    trades.filter(|t: Trade| t.realized_pnl.units() == 0)
}

/// What a list of numbers adds up to, in units.
pub open spec fn total(ds: Seq<Decimal>) -> int {
    ds.fold_left(0int, |s: int, d: Decimal| s + d.units())
}

/// What a list of trades realized together, in units.
pub open spec fn realized(trades: Seq<Trade>) -> int {
    trades.fold_left(0int, |s: int, t: Trade| s + t.realized_pnl.units())
}

/// What the squares of the distances of a list of numbers from one of them, or another
/// number, add up to, in units of units.
pub open spec fn squared_distances(ds: Seq<Decimal>, from: int) -> int {
    ds.fold_left(0int, |s: int, d: Decimal| s + (d.units() - from) * (d.units() - from))
}

/// The members of a list below zero.
pub open spec fn below_zero(ds: Seq<Decimal>) -> Seq<Decimal> {
    ds.filter(|d: Decimal| d.units() < 0)
}

/// Whether every trade of a stretch made money.
pub open spec fn all_won(trades: Seq<Trade>, from: int, to: int) -> bool {
    0 <= from <= to <= trades.len() && forall|i: int|
        from <= i < to ==> (#[trigger] trades[i]).realized_pnl.units() > 0
}

/// Whether every trade of a stretch lost money.
pub open spec fn all_lost(trades: Seq<Trade>, from: int, to: int) -> bool {
    0 <= from <= to <= trades.len() && forall|i: int|
        from <= i < to ==> (#[trigger] trades[i]).realized_pnl.units() < 0
}

/// The first `n + 1` trades are the first `n` and one more.
pub proof fn lemma_take_next<A>(s: Seq<A>, n: int)
    requires
        0 <= n < s.len(),
    ensures
        s.take(n + 1) == s.take(n).push(s[n]),
{
    assert(s.take(n + 1) =~= s.take(n).push(s[n]));
}

pub proof fn lemma_winners_next(trades: Seq<Trade>, t: Trade)
    ensures
        winners(trades.push(t)) == if t.realized_pnl.units() > 0 {
            winners(trades).push(t)
        } else {
            winners(trades)
        },
        losers(trades.push(t)) == if t.realized_pnl.units() < 0 {
            losers(trades).push(t)
        } else {
            losers(trades)
        },
        unmoved(trades.push(t)) == if t.realized_pnl.units() == 0 {
            unmoved(trades).push(t)
        } else {
            unmoved(trades)
        },
{
    reveal(Seq::filter);
    assert(trades.push(t).drop_last() =~= trades);
}

pub proof fn lemma_below_zero_next(ds: Seq<Decimal>, d: Decimal)
    ensures
        below_zero(ds.push(d)) == if d.units() < 0 {
            below_zero(ds).push(d)
        } else {
            below_zero(ds)
        },
{
    reveal(Seq::filter);
    assert(ds.push(d).drop_last() =~= ds);
}

pub proof fn lemma_no_trades()
    ensures
        winners(Seq::empty()) == Seq::<Trade>::empty(),
        losers(Seq::empty()) == Seq::<Trade>::empty(),
        unmoved(Seq::empty()) == Seq::<Trade>::empty(),
        below_zero(Seq::empty()) == Seq::<Decimal>::empty(),
        realized(Seq::empty()) == 0,
        total(Seq::empty()) == 0,
        forall|from: int| #[trigger] squared_distances(Seq::empty(), from) == 0,
{
    reveal(Seq::filter);
}

pub proof fn lemma_realized_next(trades: Seq<Trade>, t: Trade)
    ensures
        realized(trades.push(t)) == realized(trades) + t.realized_pnl.units(),
{
    assert(trades.push(t).drop_last() =~= trades);
}

pub proof fn lemma_total_next(ds: Seq<Decimal>, d: Decimal)
    ensures
        total(ds.push(d)) == total(ds) + d.units(),
{
    assert(ds.push(d).drop_last() =~= ds);
}

pub proof fn lemma_squares_next(ds: Seq<Decimal>, d: Decimal, from: int)
    ensures
        squared_distances(ds.push(d), from) == squared_distances(ds, from) + (d.units() - from) * (
        d.units() - from),
{
    assert(ds.push(d).drop_last() =~= ds);
}

/// Every trade won, lost or came out even, and what all of them realized is what the
/// winners and the losers did.
pub proof fn law_trades_split(trades: Seq<Trade>)
    ensures
        winners(trades).len() + losers(trades).len() + unmoved(trades).len() == trades.len(),
        realized(trades) == realized(winners(trades)) + realized(losers(trades)),
    decreases trades.len(),
{
    lemma_no_trades();
    if trades.len() > 0 {
        let init = trades.drop_last();
        let t = trades.last();
        law_trades_split(init);
        lemma_winners_next(init, t);
        assert(init.push(t) =~= trades);
        lemma_realized_next(init, t);
        lemma_realized_next(winners(init), t);
        lemma_realized_next(losers(init), t);
    } else {
        assert(trades =~= Seq::empty());
    }
}

} // verus!
