//! The result of one run and its content hashes.
//!
//! Both hashes are digests of canonical encodings. An encoding tells results apart:
//! see [`law_money_encoding_is_faithful`] and [`law_content_encoding_is_faithful`].
use crate::canonical::{
    all_bounded, bounded, digest_hex, feed, hex, is_lower_hex, law_same_shape_decodes,
    law_same_shape_decodes_from_the_end, law_same_values_same_bytes, lemma_feed_concat,
    lemma_feed_first, lemma_number_eighth_byte, same_field, same_fields, same_kind, same_shape,
    sha256, time_word, Encoder, Field,
};
use crate::decimal::Decimal;
use crate::domain::backtest::regime::{Regime, RegimeBreakdown, RegimeCell};
use crate::domain::backtest::stats::{EquityCurve, SummaryStats};
use crate::domain::backtest::trade::{ExitReason, Fill, Trade, TradeSource};
use crate::domain::dsl::risk::Direction;
use crate::domain::fingerprint::EngineFingerprint;
use crate::domain::sizing::SkippedEntryCounts;
use vstd::prelude::*;

verus! {

/// The result of one backtest: the trade log and the totals of the run.
#[derive(Clone, Debug, PartialEq, Eq)]
pub struct BacktestResult {
    /// Every trade of the run, in chronological order.
    pub trades: Vec<Trade>,
    /// Net result, costs deducted.
    pub net_pnl: Decimal,
    /// Taker fees paid.
    pub fees_total: Decimal,
    /// Signed funding, negative when positions paid it.
    pub funding_total: Decimal,
    /// Adverse slippage cost.
    pub slippage_total: Decimal,
    /// Trades and net result by market regime.
    pub regime_breakdown: RegimeBreakdown,
    /// Entries that the sizer suppressed.
    pub skipped_entries: SkippedEntryCounts,
    /// The engine build that produced the run. Not hashed.
    pub engine_fingerprint: EngineFingerprint,
    /// Summary statistics. Not hashed.
    pub summary: SummaryStats,
    /// The equity curve. Not hashed.
    pub equity_curve: EquityCurve,
}

/// The byte of a trade side.
pub open spec fn direction_tag(direction: Direction) -> u8 {
    match direction {
        Direction::Long => 0,
        Direction::Short => 1,
    }
}

/// The byte of an exit reason.
pub open spec fn exit_reason_tag(reason: ExitReason) -> u8 {
    match reason {
        ExitReason::StopLoss => 0,
        ExitReason::TakeProfit => 1,
        ExitReason::Signal => 2,
        ExitReason::EndOfData => 3,
    }
}

/// The byte of a trade source.
pub open spec fn trade_source_tag(source: TradeSource) -> u8 {
    match source {
        TradeSource::Backtest => 0,
    }
}

/// The byte of a regime.
pub open spec fn regime_tag(regime: Regime) -> u8 {
    match regime {
        Regime::TrendingUp => 0,
        Regime::TrendingDown => 1,
        Regime::Ranging => 2,
        Regime::Unknown => 3,
    }
}

/// The fields of a fill.
pub open spec fn fill_fields(f: Fill) -> Seq<Field> {
    seq![
        Field::Number(f.price),
        Field::Number(f.qty),
        Field::Word(time_word(f.time_ms)),
        Field::Number(f.fee),
    ]
}

/// The fields of fills, one after the other.
pub open spec fn fills_fields(fills: Seq<Fill>) -> Seq<Field>
    decreases fills.len(),
{
    if fills.len() == 0 {
        Seq::empty()
    } else {
        fills_fields(fills.drop_last()) + fill_fields(fills.last())
    }
}

/// The fields of a trade up to the number of its fills.
pub open spec fn trade_head(t: Trade) -> Seq<Field> {
    seq![
        Field::Tag(direction_tag(t.direction)),
        Field::Number(t.qty),
        Field::Number(t.entry_price),
        Field::Number(t.exit_price),
        Field::Word(time_word(t.entry_signal_time)),
        Field::Word(time_word(t.entry_fill_time)),
        Field::Word(time_word(t.exit_signal_time)),
        Field::Word(time_word(t.exit_fill_time)),
        Field::Word(t.fills@.len()),
    ]
}

/// The fields of a trade behind its fills, up to the stop price.
pub open spec fn trade_tail(t: Trade) -> Seq<Field> {
    seq![
        Field::Number(t.fees_total),
        Field::Number(t.funding_total),
        Field::Number(t.slippage_total),
        Field::Number(t.realized_pnl),
        Field::Number(t.realized_r),
        Field::Number(t.mfe_r),
        Field::Number(t.mae_r),
        Field::Tag(exit_reason_tag(t.exit_reason)),
        Field::Tag(trade_source_tag(t.source)),
        Field::Tag(regime_tag(t.regime)),
    ]
}

/// The field of a stop price; none where none was recorded.
pub open spec fn stop_fields(t: Trade) -> Seq<Field> {
    match t.stop_price {
        Some(p) => seq![Field::Number(p)],
        None => Seq::empty(),
    }
}

/// The fields of a trade. A trade without a recorded stop ends where trades ended
/// before stops were recorded.
pub open spec fn trade_fields(t: Trade) -> Seq<Field> {
    trade_head(t) + fills_fields(t.fills@) + trade_tail(t) + stop_fields(t)
}

/// The fields of trades, one after the other.
pub open spec fn trades_fields(trades: Seq<Trade>) -> Seq<Field>
    decreases trades.len(),
{
    if trades.len() == 0 {
        Seq::empty()
    } else {
        trades_fields(trades.drop_last()) + trade_fields(trades.last())
    }
}

/// The fields of the totals of a run.
pub open spec fn totals_fields(r: BacktestResult) -> Seq<Field> {
    seq![
        Field::Number(r.net_pnl),
        Field::Number(r.fees_total),
        Field::Number(r.funding_total),
        Field::Number(r.slippage_total),
        Field::Word(r.skipped_entries.sub_lot as nat),
        Field::Word(r.skipped_entries.sub_notional as nat),
        Field::Word(r.skipped_entries.leverage_capped as nat),
    ]
}

/// The fields of the money side of a run: trades, totals, suppressed entries.
pub open spec fn money_fields(r: BacktestResult) -> Seq<Field> {
    seq![Field::Word(r.trades@.len())] + trades_fields(r.trades@) + totals_fields(r)
}

/// The fields of the split by regime.
pub open spec fn regime_fields(b: RegimeBreakdown) -> Seq<Field> {
    seq![
        Field::Word(b.cell(Regime::TrendingUp).trade_count as nat),
        Field::Number(b.cell(Regime::TrendingUp).net_pnl),
        Field::Word(b.cell(Regime::TrendingDown).trade_count as nat),
        Field::Number(b.cell(Regime::TrendingDown).net_pnl),
        Field::Word(b.cell(Regime::Ranging).trade_count as nat),
        Field::Number(b.cell(Regime::Ranging).net_pnl),
        Field::Word(b.cell(Regime::Unknown).trade_count as nat),
        Field::Number(b.cell(Regime::Unknown).net_pnl),
    ]
}

/// The fields of a whole result: the money side, then the split by regime.
pub open spec fn content_fields(r: BacktestResult) -> Seq<Field> {
    money_fields(r) + regime_fields(r.regime_breakdown)
}

// ---------------------------------------------------------------------------
// Hashing.
// ---------------------------------------------------------------------------

fn write_fill(out: &mut Encoder, f: &Fill)
    requires
        old(out).wf(),
    ensures
        final(out).wf(),
        final(out).written() == old(out).written() + fill_fields(*f),
{
    let ghost before = out.written();
    out.number(f.price);
    out.number(f.qty);
    out.time(f.time_ms);
    out.number(f.fee);
    assert(out.written() =~= before + fill_fields(*f));
}

fn write_trade_head(out: &mut Encoder, t: &Trade)
    requires
        old(out).wf(),
    ensures
        final(out).wf(),
        final(out).written() == old(out).written() + trade_head(*t),
{
    let ghost before = out.written();
    out.tag(
        match t.direction {
            Direction::Long => 0,
            Direction::Short => 1,
        },
    );
    out.number(t.qty);
    out.number(t.entry_price);
    out.number(t.exit_price);
    out.time(t.entry_signal_time);
    out.time(t.entry_fill_time);
    out.time(t.exit_signal_time);
    out.time(t.exit_fill_time);
    out.word(t.fills.len() as u64);
    assert(out.written() =~= before + trade_head(*t));
}

fn write_trade_tail(out: &mut Encoder, t: &Trade)
    requires
        old(out).wf(),
    ensures
        final(out).wf(),
        final(out).written() == old(out).written() + trade_tail(*t),
{
    let ghost before = out.written();
    out.number(t.fees_total);
    out.number(t.funding_total);
    out.number(t.slippage_total);
    out.number(t.realized_pnl);
    out.number(t.realized_r);
    out.number(t.mfe_r);
    out.number(t.mae_r);
    out.tag(
        match t.exit_reason {
            ExitReason::StopLoss => 0,
            ExitReason::TakeProfit => 1,
            ExitReason::Signal => 2,
            ExitReason::EndOfData => 3,
        },
    );
    out.tag(
        match t.source {
            TradeSource::Backtest => 0,
        },
    );
    out.tag(
        match t.regime {
            Regime::TrendingUp => 0,
            Regime::TrendingDown => 1,
            Regime::Ranging => 2,
            Regime::Unknown => 3,
        },
    );
    assert(out.written() =~= before + trade_tail(*t));
}

fn write_trade(out: &mut Encoder, t: &Trade)
    requires
        old(out).wf(),
    ensures
        final(out).wf(),
        final(out).written() == old(out).written() + trade_fields(*t),
{
    let ghost before = out.written();
    write_trade_head(out, t);
    let ghost head = out.written();
    assert(t.fills@.take(0) =~= Seq::empty());
    assert(head =~= head + fills_fields(t.fills@.take(0)));
    for i in 0..t.fills.len()
        invariant
            out.wf(),
            out.written() == head + fills_fields(t.fills@.take(i as int)),
    {
        write_fill(out, &t.fills[i]);
        let ghost next = t.fills@.take(i as int + 1);
        assert(next.drop_last() =~= t.fills@.take(i as int));
        assert(out.written() =~= head + fills_fields(next));
    }
    assert(t.fills@.take(t.fills@.len() as int) =~= t.fills@);
    write_trade_tail(out, t);
    if let Some(p) = t.stop_price {
        out.number(p);
    }
    assert(out.written() =~= before + trade_fields(*t));
}

fn write_money(out: &mut Encoder, r: &BacktestResult)
    requires
        old(out).wf(),
    ensures
        final(out).wf(),
        final(out).written() == old(out).written() + money_fields(*r),
{
    let ghost before = out.written();
    out.word(r.trades.len() as u64);
    let ghost head = out.written();
    assert(r.trades@.take(0) =~= Seq::empty());
    assert(head =~= head + trades_fields(r.trades@.take(0)));
    for i in 0..r.trades.len()
        invariant
            out.wf(),
            out.written() == head + trades_fields(r.trades@.take(i as int)),
    {
        write_trade(out, &r.trades[i]);
        let ghost next = r.trades@.take(i as int + 1);
        assert(next.drop_last() =~= r.trades@.take(i as int));
        assert(out.written() =~= head + trades_fields(next));
    }
    assert(r.trades@.take(r.trades@.len() as int) =~= r.trades@);
    out.number(r.net_pnl);
    out.number(r.fees_total);
    out.number(r.funding_total);
    out.number(r.slippage_total);
    out.word(r.skipped_entries.sub_lot as u64);
    out.word(r.skipped_entries.sub_notional as u64);
    out.word(r.skipped_entries.leverage_capped as u64);
    assert(out.written() =~= before + money_fields(*r));
}

fn write_cell(out: &mut Encoder, cell: RegimeCell)
    requires
        old(out).wf(),
    ensures
        final(out).wf(),
        final(out).written() == old(out).written().push(
            Field::Word(cell.trade_count as nat),
        ).push(Field::Number(cell.net_pnl)),
{
    out.word(cell.trade_count as u64);
    out.number(cell.net_pnl);
}

impl BacktestResult {
    /// The hash of the money side: trades, totals and suppressed entries.
    ///
    /// The regime split, the fingerprint and the derived statistics do not enter it.
    pub fn money_math_hash(&self) -> (r: String)
        ensures
            r@ == hex(sha256(feed(money_fields(*self)))),
            r@.len() == 64,
            forall|i: int| 0 <= i < 64 ==> is_lower_hex(#[trigger] r@[i]),
    {
        let mut out = Encoder::new();
        write_money(&mut out, self);
        assert(out.written() =~= money_fields(*self));
        digest_hex(&out.into_bytes())
    }

    /// The hash of the whole result: the money side and the regime split.
    ///
    /// The fingerprint and the derived statistics do not enter it.
    pub fn result_content_hash(&self) -> (r: String)
        ensures
            r@ == hex(sha256(feed(content_fields(*self)))),
            r@.len() == 64,
            forall|i: int| 0 <= i < 64 ==> is_lower_hex(#[trigger] r@[i]),
    {
        let mut out = Encoder::new();
        write_money(&mut out, self);
        write_cell(&mut out, self.regime_breakdown.trending_up());
        write_cell(&mut out, self.regime_breakdown.trending_down());
        write_cell(&mut out, self.regime_breakdown.ranging());
        write_cell(&mut out, self.regime_breakdown.unknown());
        assert(out.written() =~= content_fields(*self));
        digest_hex(&out.into_bytes())
    }
}

// ---------------------------------------------------------------------------
// What the encodings tell.
// ---------------------------------------------------------------------------

/// Whether two numbers are equal, whatever their scales.
pub open spec fn same_number(a: Decimal, b: Decimal) -> bool {
    a.units() == b.units()
}

/// Whether two fills are equal.
pub open spec fn same_fill(a: Fill, b: Fill) -> bool {
    &&& same_number(a.price, b.price)
    &&& same_number(a.qty, b.qty)
    &&& a.time_ms == b.time_ms
    &&& same_number(a.fee, b.fee)
}

/// Whether two logs of fills are equal.
pub open spec fn same_fills(a: Seq<Fill>, b: Seq<Fill>) -> bool {
    a.len() == b.len() && forall|i: int| 0 <= i < a.len() ==> same_fill(#[trigger] a[i], b[i])
}

/// Whether two trades agree in everything up to the number of their fills.
pub open spec fn same_opening(a: Trade, b: Trade) -> bool {
    &&& a.direction == b.direction
    &&& same_number(a.qty, b.qty)
    &&& same_number(a.entry_price, b.entry_price)
    &&& same_number(a.exit_price, b.exit_price)
    &&& a.entry_signal_time == b.entry_signal_time
    &&& a.entry_fill_time == b.entry_fill_time
    &&& a.exit_signal_time == b.exit_signal_time
    &&& a.exit_fill_time == b.exit_fill_time
    &&& a.fills@.len() == b.fills@.len()
}

/// Whether two trades agree in their costs, results and tags.
pub open spec fn same_outcome(a: Trade, b: Trade) -> bool {
    &&& same_number(a.fees_total, b.fees_total)
    &&& same_number(a.funding_total, b.funding_total)
    &&& same_number(a.slippage_total, b.slippage_total)
    &&& same_number(a.realized_pnl, b.realized_pnl)
    &&& same_number(a.realized_r, b.realized_r)
    &&& same_number(a.mfe_r, b.mfe_r)
    &&& same_number(a.mae_r, b.mae_r)
    &&& a.exit_reason == b.exit_reason
    &&& a.source == b.source
    &&& a.regime == b.regime
}

/// Whether two stops agree: both absent, or the same price.
pub open spec fn same_stop(a: Option<Decimal>, b: Option<Decimal>) -> bool {
    match (a, b) {
        (Some(x), Some(y)) => same_number(x, y),
        (None, None) => true,
        _ => false,
    }
}

/// Whether two trades are equal, numbers compared as numbers.
pub open spec fn same_trade(a: Trade, b: Trade) -> bool {
    &&& same_opening(a, b)
    &&& same_fills(a.fills@, b.fills@)
    &&& same_outcome(a, b)
    &&& same_stop(a.stop_price, b.stop_price)
}

/// Whether two trade logs are equal.
pub open spec fn same_trades(a: Seq<Trade>, b: Seq<Trade>) -> bool {
    a.len() == b.len() && forall|i: int| 0 <= i < a.len() ==> same_trade(#[trigger] a[i], b[i])
}

/// Whether two runs have the same totals and suppressed entries.
pub open spec fn same_totals(a: BacktestResult, b: BacktestResult) -> bool {
    &&& same_number(a.net_pnl, b.net_pnl)
    &&& same_number(a.fees_total, b.fees_total)
    &&& same_number(a.funding_total, b.funding_total)
    &&& same_number(a.slippage_total, b.slippage_total)
    &&& a.skipped_entries == b.skipped_entries
}

/// Whether two runs have the same money side.
pub open spec fn same_money(a: BacktestResult, b: BacktestResult) -> bool {
    same_trades(a.trades@, b.trades@) && same_totals(a, b)
}

/// Whether two splits by regime are equal.
pub open spec fn same_regimes(a: RegimeBreakdown, b: RegimeBreakdown) -> bool {
    forall|regime: Regime|
        (#[trigger] a.cell(regime)).trade_count == b.cell(regime).trade_count && same_number(
            a.cell(regime).net_pnl,
            b.cell(regime).net_pnl,
        )
}

/// Whether every number and count of a result is valid, as those of every value that
/// exists at run time are.
pub open spec fn valid_numbers(r: BacktestResult) -> bool {
    all_bounded(content_fields(r))
}

proof fn lemma_bounded_split(a: Seq<Field>, b: Seq<Field>)
    ensures
        all_bounded(a + b) <==> all_bounded(a) && all_bounded(b),
{
    if all_bounded(a + b) {
        assert forall|i: int| 0 <= i < a.len() implies bounded(#[trigger] a[i]) by {
            assert(bounded((a + b)[i]));
        }
        assert forall|i: int| 0 <= i < b.len() implies bounded(#[trigger] b[i]) by {
            assert(bounded((a + b)[a.len() + i]));
        }
    }
}

proof fn lemma_same_split(a: Seq<Field>, b: Seq<Field>, x: Seq<Field>, y: Seq<Field>)
    requires
        a.len() == x.len(),
    ensures
        same_fields(a + b, x + y) <==> same_fields(a, x) && same_fields(b, y),
        same_shape(a + b, x + y) <==> same_shape(a, x) && same_shape(b, y),
{
    let l = a + b;
    let r = x + y;
    if same_fields(l, r) {
        assert forall|i: int| 0 <= i < a.len() implies same_field(#[trigger] a[i], x[i]) by {
            assert(same_field(l[i], r[i]));
        }
        assert forall|i: int| 0 <= i < b.len() implies same_field(#[trigger] b[i], y[i]) by {
            assert(same_field(l[a.len() + i], r[a.len() + i]));
        }
    }
    if same_shape(l, r) {
        assert forall|i: int| 0 <= i < a.len() implies same_kind(#[trigger] a[i], x[i]) by {
            assert(same_kind(l[i], r[i]));
        }
        assert forall|i: int| 0 <= i < b.len() implies same_kind(#[trigger] b[i], y[i]) by {
            assert(same_kind(l[a.len() + i], r[a.len() + i]));
        }
    }
}

proof fn lemma_fill(a: Fill, b: Fill)
    ensures
        same_shape(fill_fields(a), fill_fields(b)),
        same_fields(fill_fields(a), fill_fields(b)) <==> same_fill(a, b),
{
    let x = fill_fields(a);
    let y = fill_fields(b);
    if same_fields(x, y) {
        assert(same_field(x[0], y[0]));
        assert(same_field(x[1], y[1]));
        assert(same_field(x[2], y[2]));
        assert(same_field(x[3], y[3]));
    }
}

proof fn lemma_fills(a: Seq<Fill>, b: Seq<Fill>)
    requires
        a.len() == b.len(),
    ensures
        same_shape(fills_fields(a), fills_fields(b)),
        same_fields(fills_fields(a), fills_fields(b)) <==> same_fills(a, b),
    decreases a.len(),
{
    if a.len() > 0 {
        let ia = a.drop_last();
        let ib = b.drop_last();
        let k = a.len() - 1;
        lemma_fills(ia, ib);
        lemma_fill(a.last(), b.last());
        lemma_same_split(
            fills_fields(ia),
            fill_fields(a.last()),
            fills_fields(ib),
            fill_fields(b.last()),
        );
        if same_fills(a, b) {
            assert(same_fill(a[k], b[k]));
            assert forall|i: int| 0 <= i < ia.len() implies same_fill(#[trigger] ia[i], ib[i]) by {
                assert(same_fill(a[i], b[i]));
            }
        }
        if same_fills(ia, ib) && same_fill(a.last(), b.last()) {
            assert forall|i: int| 0 <= i < a.len() implies same_fill(#[trigger] a[i], b[i]) by {
                if i < k {
                    assert(same_fill(ia[i], ib[i]));
                }
            }
        }
    }
}

proof fn lemma_head(a: Trade, b: Trade)
    ensures
        same_shape(trade_head(a), trade_head(b)),
        same_fields(trade_head(a), trade_head(b)) <==> same_opening(a, b),
{
    let x = trade_head(a);
    let y = trade_head(b);
    if same_fields(x, y) {
        assert(same_field(x[0], y[0]));
        assert(same_field(x[1], y[1]));
        assert(same_field(x[2], y[2]));
        assert(same_field(x[3], y[3]));
        assert(same_field(x[4], y[4]));
        assert(same_field(x[5], y[5]));
        assert(same_field(x[6], y[6]));
        assert(same_field(x[7], y[7]));
        assert(same_field(x[8], y[8]));
    }
}

proof fn lemma_tail(a: Trade, b: Trade)
    ensures
        same_shape(trade_tail(a), trade_tail(b)),
        same_fields(trade_tail(a), trade_tail(b)) <==> same_outcome(a, b),
{
    let x = trade_tail(a);
    let y = trade_tail(b);
    if same_fields(x, y) {
        assert(same_field(x[0], y[0]));
        assert(same_field(x[1], y[1]));
        assert(same_field(x[2], y[2]));
        assert(same_field(x[3], y[3]));
        assert(same_field(x[4], y[4]));
        assert(same_field(x[5], y[5]));
        assert(same_field(x[6], y[6]));
        assert(same_field(x[7], y[7]));
        assert(same_field(x[8], y[8]));
        assert(same_field(x[9], y[9]));
    }
}

/// A trade without its stop can be read back from the front of a byte string.
proof fn lemma_read_core(a: Trade, x: Seq<u8>, b: Trade, y: Seq<u8>)
    requires
        feed(trade_head(a) + fills_fields(a.fills@) + trade_tail(a)) + x == feed(
            trade_head(b) + fills_fields(b.fills@) + trade_tail(b),
        ) + y,
        all_bounded(trade_fields(a)),
        all_bounded(trade_fields(b)),
    ensures
        same_opening(a, b),
        same_fills(a.fills@, b.fills@),
        same_outcome(a, b),
        x == y,
{
    let ra = fills_fields(a.fills@) + trade_tail(a);
    let rb = fills_fields(b.fills@) + trade_tail(b);
    lemma_bounded_split(trade_head(a) + fills_fields(a.fills@) + trade_tail(a), stop_fields(a));
    lemma_bounded_split(trade_head(b) + fills_fields(b.fills@) + trade_tail(b), stop_fields(b));
    assert(trade_head(a) + fills_fields(a.fills@) + trade_tail(a) =~= trade_head(a) + ra);
    assert(trade_head(b) + fills_fields(b.fills@) + trade_tail(b) =~= trade_head(b) + rb);
    lemma_bounded_split(trade_head(a), ra);
    lemma_bounded_split(trade_head(b), rb);
    lemma_feed_concat(trade_head(a), ra);
    lemma_feed_concat(trade_head(b), rb);
    assert(feed(trade_head(a) + ra) + x =~= feed(trade_head(a)) + (feed(ra) + x));
    assert(feed(trade_head(b) + rb) + y =~= feed(trade_head(b)) + (feed(rb) + y));
    lemma_head(a, b);
    law_same_shape_decodes(trade_head(a), feed(ra) + x, trade_head(b), feed(rb) + y);
    lemma_fills(a.fills@, b.fills@);
    lemma_tail(a, b);
    lemma_same_split(
        fills_fields(a.fills@),
        trade_tail(a),
        fills_fields(b.fills@),
        trade_tail(b),
    );
    law_same_shape_decodes(ra, x, rb, y);
}

/// The encoding of trades, from the front.
proof fn lemma_trades_first(trades: Seq<Trade>)
    requires
        trades.len() > 0,
    ensures
        trades_fields(trades) == trade_fields(trades[0]) + trades_fields(
            trades.subrange(1, trades.len() as int),
        ),
    decreases trades.len(),
{
    let rest = trades.subrange(1, trades.len() as int);
    if trades.len() == 1 {
        assert(trades.drop_last() =~= Seq::empty());
        assert(rest =~= Seq::empty());
        assert(trades_fields(trades) =~= trade_fields(trades[0]) + trades_fields(rest));
    } else {
        let init = trades.drop_last();
        lemma_trades_first(init);
        assert(init.subrange(1, init.len() as int) =~= rest.drop_last());
        assert(rest.last() == trades.last());
        assert(init[0] == trades[0]);
        assert(trades_fields(trades) =~= trade_fields(trades[0]) + trades_fields(rest));
    }
}

/// Behind a trade, no log of trades begins as a stop price does.
proof fn lemma_no_stop_here(trades: Seq<Trade>)
    requires
        all_bounded(trades_fields(trades)),
        trades.len() > 0,
    ensures
        feed(trades_fields(trades)).len() >= 9,
        feed(trades_fields(trades))[7] == 0,
{
    let t = trades[0];
    let all = trades_fields(trades);
    lemma_trades_first(trades);
    assert(all[0] == Field::Tag(direction_tag(t.direction)));
    assert(all[1] == Field::Number(t.qty));
    assert(bounded(all[1]));
    let rest = all.subrange(1, all.len() as int);
    let rest2 = rest.subrange(1, rest.len() as int);
    lemma_feed_first(all);
    lemma_feed_first(rest);
    assert(rest[0] == all[1]);
    lemma_number_eighth_byte(t.qty, feed(rest2));
    assert(feed(all)[7] == feed(rest)[6]);
}

/// A log of trades can be read back, given how many there are.
proof fn lemma_read_trades(a: Seq<Trade>, b: Seq<Trade>)
    requires
        a.len() == b.len(),
        feed(trades_fields(a)) == feed(trades_fields(b)),
        all_bounded(trades_fields(a)),
        all_bounded(trades_fields(b)),
    ensures
        same_trades(a, b),
    decreases a.len(),
{
    if a.len() > 0 {
        let ra = a.subrange(1, a.len() as int);
        let rb = b.subrange(1, b.len() as int);
        lemma_trades_first(a);
        lemma_trades_first(b);
        lemma_bounded_split(trade_fields(a[0]), trades_fields(ra));
        lemma_bounded_split(trade_fields(b[0]), trades_fields(rb));
        let ca = trade_head(a[0]) + fills_fields(a[0].fills@) + trade_tail(a[0]);
        let cb = trade_head(b[0]) + fills_fields(b[0].fills@) + trade_tail(b[0]);
        let sa = stop_fields(a[0]);
        let sb = stop_fields(b[0]);
        lemma_bounded_split(ca, sa);
        lemma_bounded_split(cb, sb);
        let xa = feed(sa) + feed(trades_fields(ra));
        let xb = feed(sb) + feed(trades_fields(rb));
        lemma_feed_concat(trade_fields(a[0]), trades_fields(ra));
        lemma_feed_concat(trade_fields(b[0]), trades_fields(rb));
        lemma_feed_concat(ca, sa);
        lemma_feed_concat(cb, sb);
        assert(feed(trades_fields(a)) =~= feed(ca) + xa);
        assert(feed(trades_fields(b)) =~= feed(cb) + xb);
        lemma_read_core(a[0], xa, b[0], xb);
        lemma_stops_agree(a[0], ra, b[0], rb);
        lemma_read_trades(ra, rb);
        assert forall|i: int| 0 <= i < a.len() implies same_trade(#[trigger] a[i], b[i]) by {
            if i > 0 {
                assert(same_trade(ra[i - 1], rb[i - 1]));
            }
        }
    }
}

/// Whether a stop follows a trade can be told from the bytes behind the trade.
proof fn lemma_stops_agree(a: Trade, ra: Seq<Trade>, b: Trade, rb: Seq<Trade>)
    requires
        ra.len() == rb.len(),
        feed(stop_fields(a)) + feed(trades_fields(ra)) == feed(stop_fields(b)) + feed(
            trades_fields(rb),
        ),
        all_bounded(stop_fields(a)),
        all_bounded(stop_fields(b)),
        all_bounded(trades_fields(ra)),
        all_bounded(trades_fields(rb)),
    ensures
        same_stop(a.stop_price, b.stop_price),
        feed(trades_fields(ra)) == feed(trades_fields(rb)),
{
    let fa = feed(trades_fields(ra));
    let fb = feed(trades_fields(rb));
    let sa = stop_fields(a);
    let sb = stop_fields(b);
    if ra.len() > 0 {
        lemma_no_stop_here(ra);
        lemma_no_stop_here(rb);
    }
    match (a.stop_price, b.stop_price) {
        (Some(p), Some(q)) => {
            assert(sa[0] == Field::Number(p) && sb[0] == Field::Number(q));
            law_same_shape_decodes(sa, fa, sb, fb);
            assert(same_field(sa[0], sb[0]));
        },
        (None, None) => {
            assert(feed(sa) + fa =~= fa);
            assert(feed(sb) + fb =~= fb);
        },
        (Some(p), None) => {
            assert(bounded(sa[0]));
            lemma_feed_first(sa);
            assert(sa.subrange(1, 1) =~= Seq::empty());
            lemma_number_eighth_byte(p, fa);
            assert(feed(sa) =~= crate::canonical::field_bytes(Field::Number(p)));
            assert(feed(sb) + fb =~= fb);
            assert(fb.len() >= 9 && fb[7] != 0);
            assert(false);
        },
        (None, Some(q)) => {
            assert(bounded(sb[0]));
            lemma_feed_first(sb);
            assert(sb.subrange(1, 1) =~= Seq::empty());
            lemma_number_eighth_byte(q, fb);
            assert(feed(sb) =~= crate::canonical::field_bytes(Field::Number(q)));
            assert(feed(sa) + fa =~= fa);
            assert(fa.len() >= 9 && fa[7] != 0);
            assert(false);
        },
    }
}

proof fn lemma_totals(a: BacktestResult, b: BacktestResult)
    ensures
        same_shape(totals_fields(a), totals_fields(b)),
        same_fields(totals_fields(a), totals_fields(b)) <==> same_totals(a, b),
{
    let x = totals_fields(a);
    let y = totals_fields(b);
    if same_fields(x, y) {
        assert(same_field(x[0], y[0]));
        assert(same_field(x[1], y[1]));
        assert(same_field(x[2], y[2]));
        assert(same_field(x[3], y[3]));
        assert(same_field(x[4], y[4]));
        assert(same_field(x[5], y[5]));
        assert(same_field(x[6], y[6]));
    }
}

proof fn lemma_regimes(a: RegimeBreakdown, b: RegimeBreakdown)
    ensures
        same_shape(regime_fields(a), regime_fields(b)),
        same_fields(regime_fields(a), regime_fields(b)) <==> same_regimes(a, b),
{
    let x = regime_fields(a);
    let y = regime_fields(b);
    if same_fields(x, y) {
        assert(same_field(x[0], y[0]));
        assert(same_field(x[1], y[1]));
        assert(same_field(x[2], y[2]));
        assert(same_field(x[3], y[3]));
        assert(same_field(x[4], y[4]));
        assert(same_field(x[5], y[5]));
        assert(same_field(x[6], y[6]));
        assert(same_field(x[7], y[7]));
        assert forall|regime: Regime|
            (#[trigger] a.cell(regime)).trade_count == b.cell(regime).trade_count && same_number(
                a.cell(regime).net_pnl,
                b.cell(regime).net_pnl,
            ) by {
            match regime {
                Regime::TrendingUp => {},
                Regime::TrendingDown => {},
                Regime::Ranging => {},
                Regime::Unknown => {},
            }
        }
    }
}

proof fn lemma_trades_values(a: Seq<Trade>, b: Seq<Trade>)
    requires
        same_trades(a, b),
    ensures
        same_fields(trades_fields(a), trades_fields(b)),
    decreases a.len(),
{
    if a.len() > 0 {
        let k = a.len() - 1;
        let ia = a.drop_last();
        let ib = b.drop_last();
        assert forall|i: int| 0 <= i < ia.len() implies same_trade(#[trigger] ia[i], ib[i]) by {
            assert(same_trade(a[i], b[i]));
        }
        lemma_trades_values(ia, ib);
        let t = a[k];
        let u = b[k];
        assert(same_trade(t, u));
        lemma_head(t, u);
        lemma_fills(t.fills@, u.fills@);
        lemma_tail(t, u);
        let ht = trade_head(t) + fills_fields(t.fills@);
        let hu = trade_head(u) + fills_fields(u.fills@);
        lemma_same_split(
            trade_head(t),
            fills_fields(t.fills@),
            trade_head(u),
            fills_fields(u.fills@),
        );
        lemma_same_split(ht, trade_tail(t), hu, trade_tail(u));
        assert(same_fields(stop_fields(t), stop_fields(u)));
        lemma_same_split(ht + trade_tail(t), stop_fields(t), hu + trade_tail(u), stop_fields(u));
        lemma_same_split(trades_fields(ia), trade_fields(t), trades_fields(ib), trade_fields(u));
    }
}

/// The encoding behind the money hash is the same for two runs exactly where their
/// trades, totals and suppressed entries are the same, numbers compared as numbers.
pub proof fn law_money_encoding_is_faithful(a: BacktestResult, b: BacktestResult)
    requires
        valid_numbers(a),
        valid_numbers(b),
    ensures
        feed(money_fields(a)) == feed(money_fields(b)) <==> same_money(a, b),
{
    lemma_bounded_split(money_fields(a), regime_fields(a.regime_breakdown));
    lemma_bounded_split(money_fields(b), regime_fields(b.regime_breakdown));
    let ca = seq![Field::Word(a.trades@.len())];
    let cb = seq![Field::Word(b.trades@.len())];
    let ta = trades_fields(a.trades@);
    let tb = trades_fields(b.trades@);
    lemma_bounded_split(ca + ta, totals_fields(a));
    lemma_bounded_split(cb + tb, totals_fields(b));
    lemma_bounded_split(ca, ta);
    lemma_bounded_split(cb, tb);
    lemma_totals(a, b);
    if feed(money_fields(a)) == feed(money_fields(b)) {
        lemma_feed_concat(ca + ta, totals_fields(a));
        lemma_feed_concat(cb + tb, totals_fields(b));
        law_same_shape_decodes_from_the_end(
            feed(ca + ta),
            totals_fields(a),
            feed(cb + tb),
            totals_fields(b),
        );
        lemma_feed_concat(ca, ta);
        lemma_feed_concat(cb, tb);
        law_same_shape_decodes(ca, feed(ta), cb, feed(tb));
        assert(same_field(ca[0], cb[0]));
        lemma_read_trades(a.trades@, b.trades@);
    }
    if same_money(a, b) {
        lemma_trades_values(a.trades@, b.trades@);
        lemma_same_split(ca, ta, cb, tb);
        lemma_same_split(ca + ta, totals_fields(a), cb + tb, totals_fields(b));
        law_same_values_same_bytes(money_fields(a), money_fields(b));
    }
}

/// The encoding behind the content hash is the same for two runs exactly where the
/// money side and the regime split are the same. The fingerprint, the summary and the
/// equity curve have no part in it.
pub proof fn law_content_encoding_is_faithful(a: BacktestResult, b: BacktestResult)
    requires
        valid_numbers(a),
        valid_numbers(b),
    ensures
        feed(content_fields(a)) == feed(content_fields(b)) <==> same_money(a, b) && same_regimes(
            a.regime_breakdown,
            b.regime_breakdown,
        ),
{
    let xa = regime_fields(a.regime_breakdown);
    let xb = regime_fields(b.regime_breakdown);
    lemma_bounded_split(money_fields(a), xa);
    lemma_bounded_split(money_fields(b), xb);
    lemma_feed_concat(money_fields(a), xa);
    lemma_feed_concat(money_fields(b), xb);
    lemma_regimes(a.regime_breakdown, b.regime_breakdown);
    law_money_encoding_is_faithful(a, b);
    if feed(content_fields(a)) == feed(content_fields(b)) {
        law_same_shape_decodes_from_the_end(feed(money_fields(a)), xa, feed(money_fields(b)), xb);
    }
    if same_regimes(a.regime_breakdown, b.regime_breakdown) {
        law_same_values_same_bytes(xa, xb);
    }
}

/// Runs that are the same, numbers compared as numbers, hash the same: `0.10` and `0.1`
/// make no difference.
pub proof fn law_equal_runs_hash_equally(a: BacktestResult, b: BacktestResult)
    requires
        valid_numbers(a),
        valid_numbers(b),
        same_money(a, b),
    ensures
        hex(sha256(feed(money_fields(a)))) == hex(sha256(feed(money_fields(b)))),
        same_regimes(a.regime_breakdown, b.regime_breakdown) ==> hex(
            sha256(feed(content_fields(a))),
        ) == hex(sha256(feed(content_fields(b)))),
{
    law_money_encoding_is_faithful(a, b);
    law_content_encoding_is_faithful(a, b);
}

/// Runs that agree in trades, totals and suppressed entries have one money hash,
/// whatever their regime splits, fingerprints, summaries and curves.
pub proof fn law_money_hash_ignores_the_rest(a: BacktestResult, b: BacktestResult)
    requires
        a.trades == b.trades,
        a.net_pnl == b.net_pnl,
        a.fees_total == b.fees_total,
        a.funding_total == b.funding_total,
        a.slippage_total == b.slippage_total,
        a.skipped_entries == b.skipped_entries,
    ensures
        hex(sha256(feed(money_fields(a)))) == hex(sha256(feed(money_fields(b)))),
        a.regime_breakdown == b.regime_breakdown ==> hex(sha256(feed(content_fields(a)))) == hex(
            sha256(feed(content_fields(b))),
        ),
{
    assert(money_fields(a) =~= money_fields(b));
    if a.regime_breakdown == b.regime_breakdown {
        assert(content_fields(a) =~= content_fields(b));
    }
}

/// What two runs with one encoding share, field by field: as many trades, and of every trade
/// each number, time and tag, each fill and the stop; the totals and the suppressed entries.
pub proof fn law_one_encoding_is_one_run(a: BacktestResult, b: BacktestResult, i: int, j: int)
    requires
        valid_numbers(a),
        valid_numbers(b),
        feed(money_fields(a)) == feed(money_fields(b)),
    ensures
        a.trades@.len() == b.trades@.len(),
        a.net_pnl.units() == b.net_pnl.units(),
        a.fees_total.units() == b.fees_total.units(),
        a.funding_total.units() == b.funding_total.units(),
        a.slippage_total.units() == b.slippage_total.units(),
        a.skipped_entries.sub_lot == b.skipped_entries.sub_lot,
        a.skipped_entries.sub_notional == b.skipped_entries.sub_notional,
        a.skipped_entries.leverage_capped == b.skipped_entries.leverage_capped,
        0 <= i < a.trades@.len() ==> {
            let t = a.trades@[i];
            let u = b.trades@[i];
            &&& t.qty.units() == u.qty.units()
            &&& t.entry_price.units() == u.entry_price.units()
            &&& t.exit_price.units() == u.exit_price.units()
            &&& t.fees_total.units() == u.fees_total.units()
            &&& t.funding_total.units() == u.funding_total.units()
            &&& t.slippage_total.units() == u.slippage_total.units()
            &&& t.realized_pnl.units() == u.realized_pnl.units()
            &&& t.realized_r.units() == u.realized_r.units()
            &&& t.mfe_r.units() == u.mfe_r.units()
            &&& t.mae_r.units() == u.mae_r.units()
            &&& t.direction == u.direction
            &&& t.entry_signal_time == u.entry_signal_time
            &&& t.entry_fill_time == u.entry_fill_time
            &&& t.exit_signal_time == u.exit_signal_time
            &&& t.exit_fill_time == u.exit_fill_time
            &&& t.exit_reason == u.exit_reason
            &&& t.source == u.source
            &&& t.regime == u.regime
            &&& t.fills@.len() == u.fills@.len()
            &&& 0 <= j < t.fills@.len() ==> {
                &&& t.fills@[j].price.units() == u.fills@[j].price.units()
                &&& t.fills@[j].qty.units() == u.fills@[j].qty.units()
                &&& t.fills@[j].fee.units() == u.fills@[j].fee.units()
                &&& t.fills@[j].time_ms == u.fills@[j].time_ms
            }
            &&& t.stop_price is Some <==> u.stop_price is Some
            &&& t.stop_price is Some ==> t.stop_price->0.units() == u.stop_price->0.units()
        },
{
    law_money_encoding_is_faithful(a, b);
    if 0 <= i < a.trades@.len() {
        assert(same_trade(a.trades@[i], b.trades@[i]));
        if 0 <= j < a.trades@[i].fills@.len() {
            assert(same_fill(a.trades@[i].fills@[j], b.trades@[i].fills@[j]));
        }
    }
}

/// The order in which a run is encoded: the number of trades, each trade with its fills in
/// the middle and its stop at the end, the totals, and then the split by regime.
pub proof fn law_order_of_the_encoding(r: BacktestResult, t: Trade, f: Fill)
    ensures
        content_fields(r) == seq![Field::Word(r.trades@.len())] + trades_fields(r.trades@) + seq![
            Field::Number(r.net_pnl),
            Field::Number(r.fees_total),
            Field::Number(r.funding_total),
            Field::Number(r.slippage_total),
            Field::Word(r.skipped_entries.sub_lot as nat),
            Field::Word(r.skipped_entries.sub_notional as nat),
            Field::Word(r.skipped_entries.leverage_capped as nat),
        ] + seq![
            Field::Word(r.regime_breakdown.cell(Regime::TrendingUp).trade_count as nat),
            Field::Number(r.regime_breakdown.cell(Regime::TrendingUp).net_pnl),
            Field::Word(r.regime_breakdown.cell(Regime::TrendingDown).trade_count as nat),
            Field::Number(r.regime_breakdown.cell(Regime::TrendingDown).net_pnl),
            Field::Word(r.regime_breakdown.cell(Regime::Ranging).trade_count as nat),
            Field::Number(r.regime_breakdown.cell(Regime::Ranging).net_pnl),
            Field::Word(r.regime_breakdown.cell(Regime::Unknown).trade_count as nat),
            Field::Number(r.regime_breakdown.cell(Regime::Unknown).net_pnl),
        ],
        trade_fields(t) == seq![
            Field::Tag(
                if t.direction == Direction::Long {
                    0u8
                } else {
                    1u8
                },
            ),
            Field::Number(t.qty),
            Field::Number(t.entry_price),
            Field::Number(t.exit_price),
            Field::Word(time_word(t.entry_signal_time)),
            Field::Word(time_word(t.entry_fill_time)),
            Field::Word(time_word(t.exit_signal_time)),
            Field::Word(time_word(t.exit_fill_time)),
            Field::Word(t.fills@.len()),
        ] + fills_fields(t.fills@) + seq![
            Field::Number(t.fees_total),
            Field::Number(t.funding_total),
            Field::Number(t.slippage_total),
            Field::Number(t.realized_pnl),
            Field::Number(t.realized_r),
            Field::Number(t.mfe_r),
            Field::Number(t.mae_r),
            Field::Tag(
                if t.exit_reason == ExitReason::StopLoss {
                    0u8
                } else if t.exit_reason == ExitReason::TakeProfit {
                    1u8
                } else if t.exit_reason == ExitReason::Signal {
                    2u8
                } else {
                    3u8
                },
            ),
            Field::Tag(0u8),
            Field::Tag(
                if t.regime == Regime::TrendingUp {
                    0u8
                } else if t.regime == Regime::TrendingDown {
                    1u8
                } else if t.regime == Regime::Ranging {
                    2u8
                } else {
                    3u8
                },
            ),
        ] + match t.stop_price {
            Some(p) => seq![Field::Number(p)],
            None => Seq::empty(),
        },
        fill_fields(f) == seq![
            Field::Number(f.price),
            Field::Number(f.qty),
            Field::Word(time_word(f.time_ms)),
            Field::Number(f.fee),
        ],
{
}

/// Trades and fills are encoded in their order, each whole. The money side comes first in the
/// encoding of a run, and only the regime split follows it.
pub proof fn law_records_are_encoded_in_order(
    r: BacktestResult,
    a: Seq<Trade>,
    b: Seq<Trade>,
    t: Trade,
    x: Seq<Fill>,
    y: Seq<Fill>,
    f: Fill,
)
    ensures
        trades_fields(a + b) == trades_fields(a) + trades_fields(b),
        trades_fields(seq![t]) == trade_fields(t),
        fills_fields(x + y) == fills_fields(x) + fills_fields(y),
        fills_fields(seq![f]) == fill_fields(f),
        content_fields(r).len() == money_fields(r).len() + 8,
        content_fields(r).take(money_fields(r).len() as int) == money_fields(r),
{
    lemma_trades_concat(a, b);
    lemma_fills_concat(x, y);
    assert(seq![t].drop_last() =~= Seq::<Trade>::empty());
    assert(seq![f].drop_last() =~= Seq::<Fill>::empty());
    assert(trades_fields(Seq::empty()) + trade_fields(t) =~= trade_fields(t));
    assert(fills_fields(Seq::empty()) + fill_fields(f) =~= fill_fields(f));
    assert(content_fields(r).take(money_fields(r).len() as int) =~= money_fields(r));
}

proof fn lemma_trades_concat(a: Seq<Trade>, b: Seq<Trade>)
    ensures
        trades_fields(a + b) == trades_fields(a) + trades_fields(b),
    decreases b.len(),
{
    if b.len() > 0 {
        lemma_trades_concat(a, b.drop_last());
        assert((a + b).drop_last() =~= a + b.drop_last());
        assert(trades_fields(a) + (trades_fields(b.drop_last()) + trade_fields(b.last()))
            =~= trades_fields(a) + trades_fields(b.drop_last()) + trade_fields(b.last()));
    } else {
        assert(a + b =~= a);
        assert(trades_fields(a) + trades_fields(b) =~= trades_fields(a));
    }
}

proof fn lemma_fills_concat(a: Seq<Fill>, b: Seq<Fill>)
    ensures
        fills_fields(a + b) == fills_fields(a) + fills_fields(b),
    decreases b.len(),
{
    if b.len() > 0 {
        lemma_fills_concat(a, b.drop_last());
        assert((a + b).drop_last() =~= a + b.drop_last());
        assert(fills_fields(a) + (fills_fields(b.drop_last()) + fill_fields(b.last()))
            =~= fills_fields(a) + fills_fields(b.drop_last()) + fill_fields(b.last()));
    } else {
        assert(a + b =~= a);
        assert(fills_fields(a) + fills_fields(b) =~= fills_fields(a));
    }
}

} // verus!
