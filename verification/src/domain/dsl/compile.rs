//! The compiler: a validated strategy document becomes an executable evaluator
//! tree.
//!
//! The effective entry is the document's entry and all of its filters. Evaluation
//! is stateless; an operand that is unavailable (an indicator that is warming up,
//! no previous bar) makes the comparison or cross it stands in false.
use crate::decimal::Decimal;
use crate::domain::dsl::condition::{condition_views, Comparator, Condition, ConditionView};
use crate::domain::dsl::exit::{exit_views, ExitRule, ExitRuleView};
use crate::domain::dsl::risk::{Direction, RiskParams};
use crate::domain::dsl::strategy::StrategyDslView;
use crate::domain::dsl::sweepable::SweepableValue;
use crate::domain::dsl::validate::{member, member_path, valid_exit, ValidatedDsl};
use crate::domain::dsl::value::{IndicatorSpec, PriceField, Series, ValueSource};
use crate::text::{concat2, concat3};
use vstd::prelude::*;

verus! {

/// A resolved leaf value.
#[derive(Clone, Copy, Debug, PartialEq)]
pub enum CompiledValue {
    /// A literal constant.
    Const(Decimal),
    /// A field of the current candle.
    Price {
        /// Which series the field reads.
        series: Series,
        /// Which field to read.
        field: PriceField,
    },
    /// The output of a technical indicator.
    Indicator {
        /// Which series the indicator runs on.
        series: Series,
        /// The indicator and its parameters.
        spec: IndicatorSpec,
    },
}

/// The compiled predicate tree.
#[derive(Debug, PartialEq)]
pub enum CompiledCondition {
    /// Compare two values.
    Compare {
        /// Left-hand operand.
        lhs: CompiledValue,
        /// The comparison operator.
        op: Comparator,
        /// Right-hand operand.
        rhs: CompiledValue,
    },
    /// `lhs` crosses above `rhs`.
    CrossesAbove {
        /// Left-hand operand.
        lhs: CompiledValue,
        /// Right-hand operand.
        rhs: CompiledValue,
    },
    /// `lhs` crosses below `rhs`.
    CrossesBelow {
        /// Left-hand operand.
        lhs: CompiledValue,
        /// Right-hand operand.
        rhs: CompiledValue,
    },
    /// Logical conjunction, true over an empty list.
    And(Vec<CompiledCondition>),
    /// Logical disjunction, false over an empty list.
    Or(Vec<CompiledCondition>),
    /// Logical negation.
    Not(Box<CompiledCondition>),
}

/// The mathematical model of a [`CompiledCondition`].
pub enum CompiledConditionView {
    Compare { lhs: CompiledValue, op: Comparator, rhs: CompiledValue },
    CrossesAbove { lhs: CompiledValue, rhs: CompiledValue },
    CrossesBelow { lhs: CompiledValue, rhs: CompiledValue },
    And(Seq<CompiledConditionView>),
    Or(Seq<CompiledConditionView>),
    Not(Box<CompiledConditionView>),
}

/// The models of a list of compiled conditions.
pub open spec fn compiled_views(conditions: Seq<CompiledCondition>) -> Seq<CompiledConditionView>
    decreases conditions,
{
    Seq::new(
        conditions.len(),
        |i: int|
            if 0 <= i < conditions.len() {
                conditions[i].model()
            } else {
                arbitrary()
            },
    )
}

impl CompiledCondition {
    /// The model of this condition.
    pub open spec fn model(&self) -> CompiledConditionView
        decreases self,
    {
        match *self {
            CompiledCondition::Compare { lhs, op, rhs } => CompiledConditionView::Compare {
                lhs,
                op,
                rhs,
            },
            CompiledCondition::CrossesAbove { lhs, rhs } => CompiledConditionView::CrossesAbove {
                lhs,
                rhs,
            },
            CompiledCondition::CrossesBelow { lhs, rhs } => CompiledConditionView::CrossesBelow {
                lhs,
                rhs,
            },
            CompiledCondition::And(conditions) => CompiledConditionView::And(
                compiled_views(conditions@),
            ),
            CompiledCondition::Or(conditions) => CompiledConditionView::Or(
                compiled_views(conditions@),
            ),
            CompiledCondition::Not(condition) => CompiledConditionView::Not(
                Box::new(condition.model()),
            ),
        }
    }
}

impl View for CompiledCondition {
    type V = CompiledConditionView;

    open spec fn view(&self) -> CompiledConditionView {
        self.model()
    }
}

fn clone_compiled(conditions: &Vec<CompiledCondition>) -> (r: Vec<CompiledCondition>)
    ensures
        compiled_views(r@) == compiled_views(conditions@),
    decreases conditions,
{
    let mut out: Vec<CompiledCondition> = Vec::new();
    let n = conditions.len();
    for i in 0..n
        invariant
            n == conditions.len(),
            out.len() == i,
            forall|j: int| 0 <= j < i ==> (#[trigger] out@[j]).model() == conditions@[j].model(),
    {
        let c = conditions[i].clone();
        out.push(c);
    }
    assert(compiled_views(out@) =~= compiled_views(conditions@));
    out
}

impl Clone for CompiledCondition {
    fn clone(&self) -> (r: CompiledCondition)
        ensures
            r@ == self@,
        decreases self,
    {
        match self {
            CompiledCondition::Compare { lhs, op, rhs } => CompiledCondition::Compare {
                lhs: *lhs,
                op: *op,
                rhs: *rhs,
            },
            CompiledCondition::CrossesAbove { lhs, rhs } => CompiledCondition::CrossesAbove {
                lhs: *lhs,
                rhs: *rhs,
            },
            CompiledCondition::CrossesBelow { lhs, rhs } => CompiledCondition::CrossesBelow {
                lhs: *lhs,
                rhs: *rhs,
            },
            CompiledCondition::And(conditions) => CompiledCondition::And(
                clone_compiled(conditions),
            ),
            CompiledCondition::Or(conditions) => CompiledCondition::Or(clone_compiled(conditions)),
            CompiledCondition::Not(condition) => CompiledCondition::Not(
                Box::new((&**condition).clone()),
            ),
        }
    }
}

/// The values of the operands on one bar; `None` is an unavailable value.
pub type Bar = spec_fn(CompiledValue) -> Option<Decimal>;

/// Whether a comparison of two numbers holds.
pub open spec fn comparison_holds(l: Decimal, op: Comparator, r: Decimal) -> bool {
    match op {
        Comparator::Gt => l.units() > r.units(),
        Comparator::Gte => l.units() >= r.units(),
        Comparator::Lt => l.units() < r.units(),
        Comparator::Lte => l.units() <= r.units(),
        Comparator::Eq => l.units() == r.units(),
    }
}

/// Whether both operands are available and compare as asked.
pub open spec fn available_and(
    bar: Bar,
    lhs: CompiledValue,
    op: Comparator,
    rhs: CompiledValue,
) -> bool {
    &&& bar(lhs) is Some
    &&& bar(rhs) is Some
    &&& comparison_holds(bar(lhs)->0, op, bar(rhs)->0)
}

/// Whether a compiled condition holds on a bar, given the bar before it.
pub open spec fn holds(c: CompiledConditionView, now: Bar, before: Bar) -> bool
    decreases c,
{
    match c {
        CompiledConditionView::Compare { lhs, op, rhs } => available_and(now, lhs, op, rhs),
        CompiledConditionView::CrossesAbove { lhs, rhs } => available_and(
            before,
            lhs,
            Comparator::Lte,
            rhs,
        ) && available_and(now, lhs, Comparator::Gt, rhs),
        CompiledConditionView::CrossesBelow { lhs, rhs } => available_and(
            before,
            lhs,
            Comparator::Gte,
            rhs,
        ) && available_and(now, lhs, Comparator::Lt, rhs),
        CompiledConditionView::And(conditions) => forall|i: int|
            0 <= i < conditions.len() ==> holds(#[trigger] conditions[i], now, before),
        CompiledConditionView::Or(conditions) => exists|i: int|
            0 <= i < conditions.len() && holds(#[trigger] conditions[i], now, before),
        CompiledConditionView::Not(condition) => !holds(*condition, now, before),
    }
}

/// The seam through which a condition reads bar values.
pub trait EvalContext {
    /// What the context reads on the current bar. A verified implementation says what it
    /// is; of any other, only that it depends on the operand alone.
    closed spec fn current_spec(&self, value: CompiledValue) -> Option<Decimal> {
        arbitrary()
    }

    /// What the context reads on the previous bar.
    closed spec fn previous_spec(&self, value: CompiledValue) -> Option<Decimal> {
        arbitrary()
    }

    /// The value of `value` on the current bar, or `None` if unavailable.
    fn current(&self, value: &CompiledValue) -> (r: Option<Decimal>)
        ensures
            r == self.current_spec(*value),
    ;

    /// The value of `value` on the previous bar, or `None` if unavailable.
    fn previous(&self, value: &CompiledValue) -> (r: Option<Decimal>)
        ensures
            r == self.previous_spec(*value),
    ;
}

/// The current bar of a context.
pub open spec fn current_bar<C: EvalContext>(ctx: C) -> Bar {
    |v: CompiledValue| ctx.current_spec(v)
}

/// The previous bar of a context.
pub open spec fn previous_bar<C: EvalContext>(ctx: C) -> Bar {
    |v: CompiledValue| ctx.previous_spec(v)
}

/// Compares two numbers.
fn compare(lhs: Decimal, op: Comparator, rhs: Decimal) -> (r: bool)
    ensures
        r == comparison_holds(lhs, op, rhs),
{
    match op {
        Comparator::Gt => rhs.lt(&lhs),
        Comparator::Gte => rhs.le(&lhs),
        Comparator::Lt => lhs.lt(&rhs),
        Comparator::Lte => lhs.le(&rhs),
        Comparator::Eq => lhs.equals(&rhs),
    }
}

/// Whether every condition of a list holds.
fn all_hold<C: EvalContext>(conditions: &Vec<CompiledCondition>, ctx: &C) -> (r: bool)
    ensures
        r == holds(
            CompiledConditionView::And(compiled_views(conditions@)),
            current_bar(*ctx),
            previous_bar(*ctx),
        ),
        r <==> forall|i: int|
            0 <= i < conditions@.len() ==> holds(
                (#[trigger] conditions@[i])@,
                current_bar(*ctx),
                previous_bar(*ctx),
            ),
    decreases conditions,
{
    let ghost views = compiled_views(conditions@);
    let n = conditions.len();
    let mut i: usize = 0;
    while i < n
        invariant
            n == conditions.len(),
            i <= n,
            views == compiled_views(conditions@),
            forall|j: int|
                0 <= j < i ==> holds(#[trigger] views[j], current_bar(*ctx), previous_bar(*ctx)),
        decreases n - i,
    {
        assert(views[i as int] == conditions@[i as int]@);
        if !conditions[i].eval(ctx) {
            assert(CompiledConditionView::And(views)->And_0[i as int] == views[i as int]);
            return false;
        }
        i = i + 1;
    }
    assert forall|j: int| 0 <= j < n implies holds(
        (#[trigger] conditions@[j])@,
        current_bar(*ctx),
        previous_bar(*ctx),
    ) by {
        assert(views[j] == conditions@[j]@);
    }
    true
}

/// Whether some condition of a list holds.
fn any_holds<C: EvalContext>(conditions: &Vec<CompiledCondition>, ctx: &C) -> (r: bool)
    ensures
        r == holds(
            CompiledConditionView::Or(compiled_views(conditions@)),
            current_bar(*ctx),
            previous_bar(*ctx),
        ),
        r <==> exists|i: int|
            0 <= i < conditions@.len() && holds(
                (#[trigger] conditions@[i])@,
                current_bar(*ctx),
                previous_bar(*ctx),
            ),
    decreases conditions,
{
    let ghost views = compiled_views(conditions@);
    let n = conditions.len();
    let mut i: usize = 0;
    while i < n
        invariant
            n == conditions.len(),
            i <= n,
            views == compiled_views(conditions@),
            forall|j: int|
                0 <= j < i ==> !holds(#[trigger] views[j], current_bar(*ctx), previous_bar(*ctx)),
        decreases n - i,
    {
        assert(views[i as int] == conditions@[i as int]@);
        if conditions[i].eval(ctx) {
            assert(CompiledConditionView::Or(views)->Or_0[i as int] == views[i as int]);
            return true;
        }
        i = i + 1;
    }
    assert forall|j: int| 0 <= j < n implies !holds(
        (#[trigger] conditions@[j])@,
        current_bar(*ctx),
        previous_bar(*ctx),
    ) by {
        assert(views[j] == conditions@[j]@);
    }
    false
}

impl CompiledCondition {
    /// Evaluates this predicate against a bar context.
    pub fn eval<C: EvalContext>(&self, ctx: &C) -> (r: bool)
        ensures
            r == holds(self@, current_bar(*ctx), previous_bar(*ctx)),
            *self matches CompiledCondition::Compare { lhs, op, rhs } ==> (r <==> (
            ctx.current_spec(lhs) matches Some(a) && ctx.current_spec(rhs) matches Some(b) && (
            match op {
                Comparator::Gt => a.units() > b.units(),
                Comparator::Gte => a.units() >= b.units(),
                Comparator::Lt => a.units() < b.units(),
                Comparator::Lte => a.units() <= b.units(),
                Comparator::Eq => a.units() == b.units(),
            }))),
            *self matches CompiledCondition::CrossesAbove { lhs, rhs } ==> (r <==> (
            ctx.previous_spec(lhs) matches Some(pl) && ctx.previous_spec(rhs) matches Some(pr)
                && ctx.current_spec(lhs) matches Some(cl) && ctx.current_spec(rhs) matches Some(cr)
                && pl.units() <= pr.units() && cl.units() > cr.units())),
            *self matches CompiledCondition::CrossesBelow { lhs, rhs } ==> (r <==> (
            ctx.previous_spec(lhs) matches Some(pl) && ctx.previous_spec(rhs) matches Some(pr)
                && ctx.current_spec(lhs) matches Some(cl) && ctx.current_spec(rhs) matches Some(cr)
                && pl.units() >= pr.units() && cl.units() < cr.units())),
            *self matches CompiledCondition::And(conditions) ==> (r <==> forall|i: int|
                0 <= i < conditions@.len() ==> holds(
                    (#[trigger] conditions@[i])@,
                    current_bar(*ctx),
                    previous_bar(*ctx),
                )),
            *self matches CompiledCondition::Or(conditions) ==> (r <==> exists|i: int|
                0 <= i < conditions@.len() && holds(
                    (#[trigger] conditions@[i])@,
                    current_bar(*ctx),
                    previous_bar(*ctx),
                )),
            *self matches CompiledCondition::Not(condition) ==> (r <==> !holds(
                (*condition)@,
                current_bar(*ctx),
                previous_bar(*ctx),
            )),
        decreases self,
    {
        match self {
            CompiledCondition::Compare { lhs, op, rhs } => {
                match (ctx.current(lhs), ctx.current(rhs)) {
                    (Some(l), Some(r)) => compare(l, *op, r),
                    _ => false,
                }
            },
            CompiledCondition::CrossesAbove { lhs, rhs } => {
                match (ctx.previous(lhs), ctx.previous(rhs), ctx.current(lhs), ctx.current(rhs)) {
                    (Some(pl), Some(pr), Some(cl), Some(cr)) => pl.le(&pr) && cr.lt(&cl),
                    _ => false,
                }
            },
            CompiledCondition::CrossesBelow { lhs, rhs } => {
                match (ctx.previous(lhs), ctx.previous(rhs), ctx.current(lhs), ctx.current(rhs)) {
                    (Some(pl), Some(pr), Some(cl), Some(cr)) => pr.le(&pl) && cl.lt(&cr),
                    _ => false,
                }
            },
            CompiledCondition::And(conditions) => all_hold(conditions, ctx),
            CompiledCondition::Or(conditions) => any_holds(conditions, ctx),
            CompiledCondition::Not(condition) => !condition.eval(ctx),
        }
    }
}

/// Why a document does not compile.
#[derive(Debug, PartialEq, Eq)]
pub enum CompileError {
    /// A sweep where a fixed value is due. A validated document has none.
    UnexpectedSweep {
        /// Where the stray sweep was found.
        field: String,
    },
    /// An operand that reads the higher-timeframe series, which is not evaluated.
    HtfUnsupported {
        /// The locator of the operand.
        field: String,
    },
}

/// The mathematical model of a [`CompileError`].
pub enum CompileErrorView {
    UnexpectedSweep { field: Seq<char> },
    HtfUnsupported { field: Seq<char> },
}

impl View for CompileError {
    type V = CompileErrorView;

    open spec fn view(&self) -> CompileErrorView {
        match self {
            CompileError::UnexpectedSweep { field } => CompileErrorView::UnexpectedSweep {
                field: field@,
            },
            CompileError::HtfUnsupported { field } => CompileErrorView::HtfUnsupported {
                field: field@,
            },
        }
    }
}

impl Clone for CompileError {
    fn clone(&self) -> (r: CompileError)
        ensures
            r@ == self@,
    {
        match self {
            CompileError::UnexpectedSweep { field } => CompileError::UnexpectedSweep {
                field: field.clone(),
            },
            CompileError::HtfUnsupported { field } => CompileError::HtfUnsupported {
                field: field.clone(),
            },
        }
    }
}

/// The text of a compile error.
pub open spec fn compile_error_text(e: CompileErrorView) -> Seq<char> {
    match e {
        CompileErrorView::UnexpectedSweep { field } => "unexpected Sweep value at "@ + field
            + ": a validated strategy must contain only Fixed values"@,
        CompileErrorView::HtfUnsupported { field } => "higher-timeframe operand at "@ + field
            + ": `series: htf` evaluation lands in r2.s2.w2"@,
    }
}

impl CompileError {
    /// The text of the error.
    pub fn to_string(&self) -> (text: String)
        ensures
            text@ == compile_error_text(self@),
    {
        match self {
            CompileError::UnexpectedSweep { field } => concat3(
                "unexpected Sweep value at ",
                field.as_str(),
                ": a validated strategy must contain only Fixed values",
            ),
            CompileError::HtfUnsupported { field } => concat3(
                "higher-timeframe operand at ",
                field.as_str(),
                ": `series: htf` evaluation lands in r2.s2.w2",
            ),
        }
    }
}

/// A compiled exit rule.
#[derive(Clone, Debug, PartialEq)]
pub enum CompiledExit {
    /// A fixed stop; it defines 1R.
    StopLoss {
        /// Stop distance as a decimal fraction.
        distance_pct: Decimal,
    },
    /// A take-profit target.
    TakeProfit {
        /// Target as a plain R-multiple.
        target_r: Decimal,
    },
    /// A trailing stop.
    TrailingStop {
        /// Trail distance as a decimal fraction.
        trail_pct: Decimal,
    },
    /// A time-based exit.
    TimeStop {
        /// Maximum number of bars to hold before closing.
        max_bars: u32,
    },
    /// Close when a condition becomes true.
    SignalExit {
        /// The condition that, when true, closes the position.
        condition: CompiledCondition,
    },
    /// A stop by average true range.
    AtrStop {
        /// Lookback period.
        period: u32,
        /// Multiple of the average true range.
        multiple: Decimal,
    },
}

/// The mathematical model of a [`CompiledExit`].
pub enum CompiledExitView {
    StopLoss { distance_pct: Decimal },
    TakeProfit { target_r: Decimal },
    TrailingStop { trail_pct: Decimal },
    TimeStop { max_bars: u32 },
    SignalExit { condition: CompiledConditionView },
    AtrStop { period: u32, multiple: Decimal },
}

impl View for CompiledExit {
    type V = CompiledExitView;

    open spec fn view(&self) -> CompiledExitView {
        match *self {
            CompiledExit::StopLoss { distance_pct } => CompiledExitView::StopLoss { distance_pct },
            CompiledExit::TakeProfit { target_r } => CompiledExitView::TakeProfit { target_r },
            CompiledExit::TrailingStop { trail_pct } => CompiledExitView::TrailingStop { trail_pct },
            CompiledExit::TimeStop { max_bars } => CompiledExitView::TimeStop { max_bars },
            CompiledExit::SignalExit { condition } => CompiledExitView::SignalExit {
                condition: condition@,
            },
            CompiledExit::AtrStop { period, multiple } => CompiledExitView::AtrStop {
                period,
                multiple,
            },
        }
    }
}

/// The models of a list of compiled exits.
pub open spec fn compiled_exit_views(exits: Seq<CompiledExit>) -> Seq<CompiledExitView> {
    exits.map_values(|e: CompiledExit| e@)
}

/// The compiled risk inputs.
#[derive(Clone, Copy, Debug, PartialEq)]
pub struct CompiledRisk {
    /// Fraction of account equity risked per trade.
    pub risk_per_trade_pct: Decimal,
    /// Maximum leverage cap.
    pub max_leverage: Decimal,
}

// ---------------------------------------------------------------------------
// What a document compiles to.
// ---------------------------------------------------------------------------

/// An operand, resolved.
pub open spec fn compiled_value(v: ValueSource) -> CompiledValue {
    match v {
        ValueSource::Constant { value } => CompiledValue::Const(value),
        ValueSource::Price { series, field } => CompiledValue::Price { series, field },
        ValueSource::Indicator { series, spec } => CompiledValue::Indicator { series, spec },
    }
}

/// A condition, with its operands resolved.
pub open spec fn compiled_condition(c: ConditionView) -> CompiledConditionView
    decreases c,
{
    match c {
        ConditionView::Compare { lhs, op, rhs } => CompiledConditionView::Compare {
            lhs: compiled_value(lhs),
            op,
            rhs: compiled_value(rhs),
        },
        ConditionView::CrossesAbove { lhs, rhs } => CompiledConditionView::CrossesAbove {
            lhs: compiled_value(lhs),
            rhs: compiled_value(rhs),
        },
        ConditionView::CrossesBelow { lhs, rhs } => CompiledConditionView::CrossesBelow {
            lhs: compiled_value(lhs),
            rhs: compiled_value(rhs),
        },
        ConditionView::And { conditions } => CompiledConditionView::And(
            compiled_conditions(conditions),
        ),
        ConditionView::Or { conditions } => CompiledConditionView::Or(
            compiled_conditions(conditions),
        ),
        ConditionView::Not { condition } => CompiledConditionView::Not(
            Box::new(compiled_condition(*condition)),
        ),
    }
}

/// A list of conditions, with their operands resolved.
pub open spec fn compiled_conditions(conditions: Seq<ConditionView>) -> Seq<CompiledConditionView>
    decreases conditions,
{
    Seq::new(
        conditions.len(),
        |i: int|
            if 0 <= i < conditions.len() {
                compiled_condition(conditions[i])
            } else {
                arbitrary()
            },
    )
}

/// The effective entry: the entry alone, or its conjunction with every filter.
pub open spec fn effective_entry(
    entry: ConditionView,
    filters: Seq<ConditionView>,
) -> CompiledConditionView {
    if filters.len() == 0 {
        compiled_condition(entry)
    } else {
        CompiledConditionView::And(seq![compiled_condition(entry)] + compiled_conditions(filters))
    }
}

/// An exit rule with its fixed values taken out.
pub open spec fn compiled_exit(e: ExitRuleView) -> CompiledExitView {
    match e {
        ExitRuleView::StopLoss { distance_pct } => CompiledExitView::StopLoss {
            distance_pct: distance_pct->Fixed_0,
        },
        ExitRuleView::TakeProfit { target_r } => CompiledExitView::TakeProfit {
            target_r: target_r->Fixed_0,
        },
        ExitRuleView::TrailingStop { trail_pct } => CompiledExitView::TrailingStop {
            trail_pct: trail_pct->Fixed_0,
        },
        ExitRuleView::TimeStop { max_bars } => CompiledExitView::TimeStop {
            max_bars: max_bars->Fixed_0,
        },
        ExitRuleView::SignalExit { condition } => CompiledExitView::SignalExit {
            condition: compiled_condition(condition),
        },
        ExitRuleView::AtrStop { period, multiple } => CompiledExitView::AtrStop {
            period: period->Fixed_0,
            multiple: multiple->Fixed_0,
        },
    }
}

/// A list of exit rules with their fixed values taken out.
pub open spec fn compiled_exits(exits: Seq<ExitRuleView>) -> Seq<CompiledExitView> {
    exits.map_values(|e: ExitRuleView| compiled_exit(e))
}

/// The locator of an operand that reads the higher timeframe.
pub open spec fn value_htf(v: ValueSource, path: Seq<char>) -> Option<Seq<char>> {
    match v {
        ValueSource::Constant { .. } => None,
        ValueSource::Price { series, .. } => if series == Series::Htf {
            Some(path)
        } else {
            None
        },
        ValueSource::Indicator { series, .. } => if series == Series::Htf {
            Some(path)
        } else {
            None
        },
    }
}

/// The first of two locators.
pub open spec fn first_of(a: Option<Seq<char>>, b: Option<Seq<char>>) -> Option<Seq<char>> {
    if a is Some {
        a
    } else {
        b
    }
}

/// The locator of the first operand of two that reads the higher timeframe.
pub open spec fn operands_htf(lhs: ValueSource, rhs: ValueSource, path: Seq<char>) -> Option<
    Seq<char>,
> {
    first_of(value_htf(lhs, path + ".lhs"@), value_htf(rhs, path + ".rhs"@))
}

/// The locator of the first operand of a condition that reads the higher timeframe.
pub open spec fn condition_htf(c: ConditionView, path: Seq<char>) -> Option<Seq<char>>
    decreases c, 0nat,
{
    match c {
        ConditionView::Compare { lhs, op, rhs } => operands_htf(lhs, rhs, path),
        ConditionView::CrossesAbove { lhs, rhs } => operands_htf(lhs, rhs, path),
        ConditionView::CrossesBelow { lhs, rhs } => operands_htf(lhs, rhs, path),
        ConditionView::And { conditions } => members_htf(
            conditions,
            path + ".and["@,
            conditions.len(),
        ),
        ConditionView::Or { conditions } => members_htf(
            conditions,
            path + ".or["@,
            conditions.len(),
        ),
        ConditionView::Not { condition } => condition_htf(*condition, path + ".not"@),
    }
}

/// The locator of the first such operand in the first `n` conditions of a list.
pub open spec fn members_htf(conditions: Seq<ConditionView>, stem: Seq<char>, n: nat) -> Option<
    Seq<char>,
>
    decreases conditions, n,
{
    if n == 0 || n > conditions.len() {
        None
    } else {
        first_of(
            members_htf(conditions, stem, (n - 1) as nat),
            condition_htf(conditions[n - 1], member_path(stem, (n - 1) as nat)),
        )
    }
}

/// Why an exit rule does not compile.
pub open spec fn exit_refusal(e: ExitRuleView, base: Seq<char>) -> Option<CompileErrorView> {
    match e {
        ExitRuleView::StopLoss { distance_pct } => sweep_refusal(
            distance_pct,
            "exit.StopLoss.distance_pct"@,
        ),
        ExitRuleView::TakeProfit { target_r } => sweep_refusal(
            target_r,
            "exit.TakeProfit.target_r"@,
        ),
        ExitRuleView::TrailingStop { trail_pct } => sweep_refusal(
            trail_pct,
            "exit.TrailingStop.trail_pct"@,
        ),
        ExitRuleView::TimeStop { max_bars } => sweep_refusal(max_bars, "exit.TimeStop.max_bars"@),
        ExitRuleView::SignalExit { condition } => htf_refusal(
            condition_htf(condition, base + ".condition"@),
        ),
        ExitRuleView::AtrStop { period, multiple } => if period is Sweep {
            sweep_refusal(period, "exit.AtrStop.period"@)
        } else {
            sweep_refusal(multiple, "exit.AtrStop.multiple"@)
        },
    }
}

/// The refusal of a leaf that is a sweep.
pub open spec fn sweep_refusal<T>(v: SweepableValue<T>, field: Seq<char>) -> Option<
    CompileErrorView,
> {
    match v {
        SweepableValue::Fixed(_) => None,
        SweepableValue::Sweep { .. } => Some(CompileErrorView::UnexpectedSweep { field }),
    }
}

/// The refusal of an operand that reads the higher timeframe.
pub open spec fn htf_refusal(field: Option<Seq<char>>) -> Option<CompileErrorView> {
    match field {
        None => None,
        Some(field) => Some(CompileErrorView::HtfUnsupported { field }),
    }
}

/// Why the first `n` exit rules do not compile: the first refusal among them.
pub open spec fn exits_refusal(exits: Seq<ExitRuleView>, n: nat) -> Option<CompileErrorView>
    decreases n,
{
    if n == 0 || n > exits.len() {
        None
    } else {
        let earlier = exits_refusal(exits, (n - 1) as nat);
        if earlier is Some {
            earlier
        } else {
            exit_refusal(exits[n - 1], member_path("exits["@, (n - 1) as nat))
        }
    }
}

/// Why a valid document does not compile: the first operand, in the order entry,
/// filters, exits, that reads the higher timeframe.
pub open spec fn strategy_refusal(dsl: StrategyDslView) -> Option<CompileErrorView> {
    let gate = first_of(
        condition_htf(dsl.entry, "entry"@),
        members_htf(dsl.filters, "filters["@, dsl.filters.len()),
    );
    if gate is Some {
        htf_refusal(gate)
    } else {
        exits_refusal(dsl.exits, dsl.exits.len())
    }
}

// ---------------------------------------------------------------------------
// The indicators a document refers to.
// ---------------------------------------------------------------------------

/// The indicator an operand refers to on a series.
pub open spec fn value_indicators(v: ValueSource, on: Series) -> Seq<IndicatorSpec> {
    match v {
        ValueSource::Indicator { series, spec } => if series == on {
            seq![spec]
        } else {
            Seq::empty()
        },
        _ => Seq::empty(),
    }
}

/// The indicators a condition refers to on a series, in traversal order.
pub open spec fn condition_indicators(c: ConditionView, on: Series) -> Seq<IndicatorSpec>
    decreases c, 0nat,
{
    match c {
        ConditionView::Compare { lhs, op, rhs } => value_indicators(lhs, on) + value_indicators(
            rhs,
            on,
        ),
        ConditionView::CrossesAbove { lhs, rhs } => value_indicators(lhs, on) + value_indicators(
            rhs,
            on,
        ),
        ConditionView::CrossesBelow { lhs, rhs } => value_indicators(lhs, on) + value_indicators(
            rhs,
            on,
        ),
        ConditionView::And { conditions } => members_indicators(conditions, on, conditions.len()),
        ConditionView::Or { conditions } => members_indicators(conditions, on, conditions.len()),
        ConditionView::Not { condition } => condition_indicators(*condition, on),
    }
}

/// The indicators the first `n` conditions of a list refer to on a series.
pub open spec fn members_indicators(conditions: Seq<ConditionView>, on: Series, n: nat) -> Seq<
    IndicatorSpec,
>
    decreases conditions, n,
{
    if n == 0 || n > conditions.len() {
        Seq::empty()
    } else {
        members_indicators(conditions, on, (n - 1) as nat) + condition_indicators(
            conditions[n - 1],
            on,
        )
    }
}

/// The indicators an exit rule refers to on a series; a stop by average true range
/// reads the primary series.
pub open spec fn exit_indicators(e: ExitRuleView, on: Series) -> Seq<IndicatorSpec> {
    match e {
        ExitRuleView::SignalExit { condition } => condition_indicators(condition, on),
        ExitRuleView::AtrStop { period, .. } => if on == Series::Primary && period is Fixed {
            seq![IndicatorSpec::Atr { period }]
        } else {
            Seq::empty()
        },
        _ => Seq::empty(),
    }
}

/// The indicators the first `n` exit rules refer to on a series.
pub open spec fn exits_indicators(exits: Seq<ExitRuleView>, on: Series, n: nat) -> Seq<
    IndicatorSpec,
>
    decreases n,
{
    if n == 0 || n > exits.len() {
        Seq::empty()
    } else {
        exits_indicators(exits, on, (n - 1) as nat) + exit_indicators(exits[n - 1], on)
    }
}

/// Every indicator reference of a document on a series, in traversal order.
pub open spec fn strategy_indicators(dsl: StrategyDslView, on: Series) -> Seq<IndicatorSpec> {
    condition_indicators(dsl.entry, on) + members_indicators(dsl.filters, on, dsl.filters.len())
        + exits_indicators(dsl.exits, on, dsl.exits.len())
}

/// A list with the members of another appended, each where it is not there yet.
pub open spec fn absorb(acc: Seq<IndicatorSpec>, s: Seq<IndicatorSpec>) -> Seq<IndicatorSpec>
    decreases s.len(),
{
    if s.len() == 0 {
        acc
    } else {
        let earlier = absorb(acc, s.drop_last());
        if earlier.contains(s.last()) {
            earlier
        } else {
            earlier.push(s.last())
        }
    }
}

/// The first occurrences of the members of a list, in order.
pub open spec fn first_occurrences(s: Seq<IndicatorSpec>) -> Seq<IndicatorSpec> {
    absorb(Seq::empty(), s)
}

proof fn lemma_absorb_concat(acc: Seq<IndicatorSpec>, a: Seq<IndicatorSpec>, b: Seq<IndicatorSpec>)
    ensures
        absorb(acc, a + b) == absorb(absorb(acc, a), b),
    decreases b.len(),
{
    if b.len() == 0 {
        assert(a + b =~= a);
    } else {
        assert((a + b).drop_last() =~= a + b.drop_last());
        lemma_absorb_concat(acc, a, b.drop_last());
    }
}

proof fn lemma_absorb_one(acc: Seq<IndicatorSpec>, x: IndicatorSpec)
    ensures
        absorb(acc, seq![x]) == if acc.contains(x) {
            acc
        } else {
            acc.push(x)
        },
{
    reveal_with_fuel(absorb, 2);
    assert(seq![x].drop_last() =~= Seq::empty());
}

/// The first occurrences hold every member once, and nothing else.
pub proof fn law_first_occurrences(s: Seq<IndicatorSpec>)
    ensures
        first_occurrences(s).no_duplicates(),
        forall|x: IndicatorSpec| first_occurrences(s).contains(x) <==> s.contains(x),
    decreases s.len(),
{
    if s.len() > 0 {
        let t = s.drop_last();
        law_first_occurrences(t);
        let earlier = first_occurrences(t);
        let all = first_occurrences(s);
        assert forall|x: IndicatorSpec| all.contains(x) <==> s.contains(x) by {
            if s.contains(x) {
                let i = choose|i: int| 0 <= i < s.len() && s[i] == x;
                if i < t.len() {
                    assert(t[i] == x);
                    assert(t.contains(x));
                    let j = choose|j: int| 0 <= j < earlier.len() && earlier[j] == x;
                    assert(all[j] == x);
                } else if !earlier.contains(s.last()) {
                    assert(all[earlier.len() as int] == x);
                }
            }
            if all.contains(x) {
                let j = choose|j: int| 0 <= j < all.len() && all[j] == x;
                if j < earlier.len() {
                    assert(earlier[j] == x);
                    assert(t.contains(x));
                    let i = choose|i: int| 0 <= i < t.len() && t[i] == x;
                    assert(s[i] == x);
                } else {
                    assert(s[s.len() - 1] == x);
                }
            }
        }
    }
}

/// The mathematical model of a [`CompiledStrategy`].
pub struct CompiledStrategyView {
    pub direction: Direction,
    pub entry: CompiledConditionView,
    pub exits: Seq<CompiledExitView>,
    pub risk: CompiledRisk,
    pub required_indicators: Seq<IndicatorSpec>,
    pub required_htf_indicators: Seq<IndicatorSpec>,
}

/// What a valid document compiles to.
pub open spec fn compiled_strategy(dsl: StrategyDslView) -> CompiledStrategyView {
    CompiledStrategyView {
        direction: dsl.direction,
        entry: effective_entry(dsl.entry, dsl.filters),
        exits: compiled_exits(dsl.exits),
        risk: CompiledRisk {
            risk_per_trade_pct: dsl.risk.risk_per_trade_pct->Fixed_0,
            max_leverage: dsl.risk.max_leverage->Fixed_0,
        },
        required_indicators: first_occurrences(strategy_indicators(dsl, Series::Primary)),
        required_htf_indicators: first_occurrences(strategy_indicators(dsl, Series::Htf)),
    }
}

// ---------------------------------------------------------------------------
// The compiler.
// ---------------------------------------------------------------------------

/// The fixed value of a leaf.
fn fixed<T: Copy>(value: &SweepableValue<T>) -> (r: Option<T>)
    ensures
        r == match *value {
            SweepableValue::Fixed(x) => Some(x),
            SweepableValue::Sweep { .. } => None,
        },
{
    match value {
        SweepableValue::Fixed(inner) => Some(*inner),
        SweepableValue::Sweep { .. } => None,
    }
}

/// The error of a stray sweep.
fn unexpected_sweep(field: &str) -> (e: CompileError)
    ensures
        e@ == (CompileErrorView::UnexpectedSweep { field: field@ }),
{
    CompileError::UnexpectedSweep { field: field.to_owned() }
}

/// Resolves an operand; one that reads the higher timeframe is refused.
fn compile_value(source: &ValueSource, path: &str) -> (r: Result<CompiledValue, CompileError>)
    ensures
        match value_htf(*source, path@) {
            None => r is Ok && r->Ok_0 == compiled_value(*source),
            Some(field) => r is Err && r->Err_0@ == (CompileErrorView::HtfUnsupported { field }),
        },
{
    match source {
        ValueSource::Constant { value } => Ok(CompiledValue::Const(*value)),
        ValueSource::Price { series, field } => match series {
            Series::Primary => Ok(CompiledValue::Price { series: *series, field: *field }),
            Series::Htf => Err(CompileError::HtfUnsupported { field: path.to_owned() }),
        },
        ValueSource::Indicator { series, spec } => match series {
            Series::Primary => Ok(CompiledValue::Indicator { series: *series, spec: *spec }),
            Series::Htf => Err(CompileError::HtfUnsupported { field: path.to_owned() }),
        },
    }
}

/// Resolves the two operands of a comparison or a cross, in order.
fn compile_operands(lhs: &ValueSource, rhs: &ValueSource, path: &str) -> (r: Result<
    (CompiledValue, CompiledValue),
    CompileError,
>)
    ensures
        match operands_htf(*lhs, *rhs, path@) {
            None => r is Ok && r->Ok_0 == (compiled_value(*lhs), compiled_value(*rhs)),
            Some(field) => r is Err && r->Err_0@ == (CompileErrorView::HtfUnsupported { field }),
        },
{
    match compile_value(lhs, concat2(path, ".lhs").as_str()) {
        Err(e) => Err(e),
        Ok(l) => match compile_value(rhs, concat2(path, ".rhs").as_str()) {
            Err(e) => Err(e),
            Ok(r) => Ok((l, r)),
        },
    }
}

/// Compiles a list of conditions, in order, up to the first refusal.
fn compile_members(conditions: &Vec<Condition>, stem: &str) -> (r: Result<
    Vec<CompiledCondition>,
    CompileError,
>)
    ensures
        match members_htf(condition_views(conditions@), stem@, conditions@.len()) {
            None => r is Ok && compiled_views(r->Ok_0@) == compiled_conditions(
                condition_views(conditions@),
            ),
            Some(field) => r is Err && r->Err_0@ == (CompileErrorView::HtfUnsupported { field }),
        },
    decreases conditions,
{
    let ghost views = condition_views(conditions@);
    let n = conditions.len();
    let mut out: Vec<CompiledCondition> = Vec::new();
    let mut i: usize = 0;
    while i < n
        invariant
            n == conditions.len(),
            i <= n,
            views == condition_views(conditions@),
            out.len() == i,
            members_htf(views, stem@, i as nat) is None,
            forall|j: int|
                0 <= j < i ==> (#[trigger] out@[j]).model() == compiled_condition(views[j]),
        decreases n - i,
    {
        let path = member(stem, i);
        assert(views[i as int] == conditions@[i as int]@);
        match compile_condition(&conditions[i], path.as_str()) {
            Ok(c) => {
                out.push(c);
            },
            Err(e) => {
                proof {
                    lemma_members_htf_stays(views, stem@, (i + 1) as nat, n as nat);
                }
                return Err(e);
            },
        }
        i = i + 1;
    }
    assert(compiled_views(out@) =~= compiled_conditions(views));
    Ok(out)
}

/// A refusal among the first conditions of a list is the refusal of the whole list.
proof fn lemma_members_htf_stays(conditions: Seq<ConditionView>, stem: Seq<char>, i: nat, n: nat)
    requires
        i <= n <= conditions.len(),
        members_htf(conditions, stem, i) is Some,
    ensures
        members_htf(conditions, stem, n) == members_htf(conditions, stem, i),
    decreases n,
{
    if i < n {
        lemma_members_htf_stays(conditions, stem, i, (n - 1) as nat);
    }
}

/// Compiles a condition tree.
fn compile_condition(condition: &Condition, path: &str) -> (r: Result<
    CompiledCondition,
    CompileError,
>)
    ensures
        match condition_htf(condition@, path@) {
            None => r is Ok && r->Ok_0@ == compiled_condition(condition@),
            Some(field) => r is Err && r->Err_0@ == (CompileErrorView::HtfUnsupported { field }),
        },
    decreases condition,
{
    match condition {
        Condition::Compare { lhs, op, rhs } => match compile_operands(lhs, rhs, path) {
            Ok((l, r)) => Ok(CompiledCondition::Compare { lhs: l, op: *op, rhs: r }),
            Err(e) => Err(e),
        },
        Condition::CrossesAbove { lhs, rhs } => match compile_operands(lhs, rhs, path) {
            Ok((l, r)) => Ok(CompiledCondition::CrossesAbove { lhs: l, rhs: r }),
            Err(e) => Err(e),
        },
        Condition::CrossesBelow { lhs, rhs } => match compile_operands(lhs, rhs, path) {
            Ok((l, r)) => Ok(CompiledCondition::CrossesBelow { lhs: l, rhs: r }),
            Err(e) => Err(e),
        },
        Condition::And { conditions } => match compile_members(
            conditions,
            concat2(path, ".and[").as_str(),
        ) {
            Ok(out) => Ok(CompiledCondition::And(out)),
            Err(e) => Err(e),
        },
        Condition::Or { conditions } => match compile_members(
            conditions,
            concat2(path, ".or[").as_str(),
        ) {
            Ok(out) => Ok(CompiledCondition::Or(out)),
            Err(e) => Err(e),
        },
        Condition::Not { condition } => match compile_condition(
            condition,
            concat2(path, ".not").as_str(),
        ) {
            Ok(c) => Ok(CompiledCondition::Not(Box::new(c))),
            Err(e) => Err(e),
        },
    }
}

/// Compiles one exit rule.
fn compile_exit(rule: &ExitRule, base: &str) -> (r: Result<CompiledExit, CompileError>)
    ensures
        match exit_refusal(rule@, base@) {
            None => r is Ok && r->Ok_0@ == compiled_exit(rule@),
            Some(e) => r is Err && r->Err_0@ == e,
        },
{
    match rule {
        ExitRule::StopLoss { distance_pct } => match fixed(distance_pct) {
            Some(distance_pct) => Ok(CompiledExit::StopLoss { distance_pct }),
            None => Err(unexpected_sweep("exit.StopLoss.distance_pct")),
        },
        ExitRule::TakeProfit { target_r } => match fixed(target_r) {
            Some(target_r) => Ok(CompiledExit::TakeProfit { target_r }),
            None => Err(unexpected_sweep("exit.TakeProfit.target_r")),
        },
        ExitRule::TrailingStop { trail_pct } => match fixed(trail_pct) {
            Some(trail_pct) => Ok(CompiledExit::TrailingStop { trail_pct }),
            None => Err(unexpected_sweep("exit.TrailingStop.trail_pct")),
        },
        ExitRule::TimeStop { max_bars } => match fixed(max_bars) {
            Some(max_bars) => Ok(CompiledExit::TimeStop { max_bars }),
            None => Err(unexpected_sweep("exit.TimeStop.max_bars")),
        },
        ExitRule::SignalExit { condition } => match compile_condition(
            condition,
            concat2(base, ".condition").as_str(),
        ) {
            Ok(condition) => Ok(CompiledExit::SignalExit { condition }),
            Err(e) => Err(e),
        },
        ExitRule::AtrStop { period, multiple } => match fixed(period) {
            None => Err(unexpected_sweep("exit.AtrStop.period")),
            Some(period) => match fixed(multiple) {
                None => Err(unexpected_sweep("exit.AtrStop.multiple")),
                Some(multiple) => Ok(CompiledExit::AtrStop { period, multiple }),
            },
        },
    }
}

proof fn lemma_exits_refusal_stays(exits: Seq<ExitRuleView>, i: nat, n: nat)
    requires
        i <= n <= exits.len(),
        exits_refusal(exits, i) is Some,
    ensures
        exits_refusal(exits, n) == exits_refusal(exits, i),
    decreases n,
{
    if i < n {
        lemma_exits_refusal_stays(exits, i, (n - 1) as nat);
    }
}

/// Compiles the exit rules, in order, up to the first refusal.
fn compile_exits(exits: &Vec<ExitRule>) -> (r: Result<Vec<CompiledExit>, CompileError>)
    ensures
        match exits_refusal(exit_views(exits@), exits@.len()) {
            None => r is Ok && compiled_exit_views(r->Ok_0@) == compiled_exits(exit_views(exits@)),
            Some(e) => r is Err && r->Err_0@ == e,
        },
{
    let ghost views = exit_views(exits@);
    let n = exits.len();
    let mut out: Vec<CompiledExit> = Vec::new();
    let mut i: usize = 0;
    while i < n
        invariant
            n == exits.len(),
            i <= n,
            views == exit_views(exits@),
            out.len() == i,
            exits_refusal(views, i as nat) is None,
            forall|j: int| 0 <= j < i ==> (#[trigger] out@[j])@ == compiled_exit(views[j]),
        decreases n - i,
    {
        let base = member("exits[", i);
        assert(views[i as int] == exits@[i as int]@);
        match compile_exit(&exits[i], base.as_str()) {
            Ok(e) => {
                out.push(e);
            },
            Err(e) => {
                proof {
                    lemma_exits_refusal_stays(views, (i + 1) as nat, n as nat);
                }
                return Err(e);
            },
        }
        i = i + 1;
    }
    assert(compiled_exit_views(out@) =~= compiled_exits(views));
    Ok(out)
}

/// Compiles the risk inputs.
fn compile_risk(risk: &RiskParams) -> (r: Result<CompiledRisk, CompileError>)
    ensures
        risk.risk_per_trade_pct is Sweep ==> r is Err && r->Err_0@ == (
        CompileErrorView::UnexpectedSweep { field: "risk.risk_per_trade_pct"@ }),
        risk.risk_per_trade_pct is Fixed && risk.max_leverage is Sweep ==> r is Err && r->Err_0@
            == (CompileErrorView::UnexpectedSweep { field: "risk.max_leverage"@ }),
        risk.risk_per_trade_pct is Fixed && risk.max_leverage is Fixed ==> r is Ok && r->Ok_0 == (
        CompiledRisk {
            risk_per_trade_pct: risk.risk_per_trade_pct->Fixed_0,
            max_leverage: risk.max_leverage->Fixed_0,
        }),
{
    match fixed(&risk.risk_per_trade_pct) {
        None => Err(unexpected_sweep("risk.risk_per_trade_pct")),
        Some(risk_per_trade_pct) => match fixed(&risk.max_leverage) {
            None => Err(unexpected_sweep("risk.max_leverage")),
            Some(max_leverage) => Ok(CompiledRisk { risk_per_trade_pct, max_leverage }),
        },
    }
}

/// Appends an indicator to a list that does not hold it yet.
fn add_indicator(spec: &IndicatorSpec, acc: &mut Vec<IndicatorSpec>)
    ensures
        final(acc)@ == absorb(old(acc)@, seq![*spec]),
{
    proof {
        lemma_absorb_one(acc@, *spec);
    }
    let n = acc.len();
    let mut i: usize = 0;
    while i < n
        invariant
            n == acc.len(),
            i <= n,
            acc@ == old(acc)@,
            absorb(acc@, seq![*spec]) == if acc@.contains(*spec) {
                acc@
            } else {
                acc@.push(*spec)
            },
            forall|j: int| 0 <= j < i ==> acc@[j] != *spec,
        decreases n - i,
    {
        if acc[i] == *spec {
            assert(acc@.contains(*spec));
            return ;
        }
        i = i + 1;
    }
    acc.push(*spec);
}

/// Appends the indicator of an operand to the list of its series.
fn collect_indicators_from_value(
    source: &ValueSource,
    primary: &mut Vec<IndicatorSpec>,
    htf: &mut Vec<IndicatorSpec>,
)
    ensures
        final(primary)@ == absorb(old(primary)@, value_indicators(*source, Series::Primary)),
        final(htf)@ == absorb(old(htf)@, value_indicators(*source, Series::Htf)),
{
    if let ValueSource::Indicator { series, spec } = source {
        match series {
            Series::Primary => add_indicator(spec, primary),
            Series::Htf => add_indicator(spec, htf),
        }
    }
}

/// Appends the indicators of two operands.
fn collect_operands(
    lhs: &ValueSource,
    rhs: &ValueSource,
    primary: &mut Vec<IndicatorSpec>,
    htf: &mut Vec<IndicatorSpec>,
)
    ensures
        final(primary)@ == absorb(
            old(primary)@,
            value_indicators(*lhs, Series::Primary) + value_indicators(*rhs, Series::Primary),
        ),
        final(htf)@ == absorb(
            old(htf)@,
            value_indicators(*lhs, Series::Htf) + value_indicators(*rhs, Series::Htf),
        ),
{
    proof {
        lemma_absorb_concat(
            primary@,
            value_indicators(*lhs, Series::Primary),
            value_indicators(*rhs, Series::Primary),
        );
        lemma_absorb_concat(
            htf@,
            value_indicators(*lhs, Series::Htf),
            value_indicators(*rhs, Series::Htf),
        );
    }
    collect_indicators_from_value(lhs, primary, htf);
    collect_indicators_from_value(rhs, primary, htf);
}

/// Appends the indicators of a list of conditions.
fn collect_members(
    conditions: &Vec<Condition>,
    primary: &mut Vec<IndicatorSpec>,
    htf: &mut Vec<IndicatorSpec>,
)
    ensures
        final(primary)@ == absorb(
            old(primary)@,
            members_indicators(
                condition_views(conditions@),
                Series::Primary,
                conditions@.len(),
            ),
        ),
        final(htf)@ == absorb(
            old(htf)@,
            members_indicators(condition_views(conditions@), Series::Htf, conditions@.len()),
        ),
    decreases conditions,
{
    let ghost views = condition_views(conditions@);
    let ghost p0 = primary@;
    let ghost h0 = htf@;
    let n = conditions.len();
    for i in 0..n
        invariant
            n == conditions.len(),
            views == condition_views(conditions@),
            primary@ == absorb(p0, members_indicators(views, Series::Primary, i as nat)),
            htf@ == absorb(h0, members_indicators(views, Series::Htf, i as nat)),
    {
        assert(views[i as int] == conditions@[i as int]@);
        proof {
            lemma_absorb_concat(
                p0,
                members_indicators(views, Series::Primary, i as nat),
                condition_indicators(views[i as int], Series::Primary),
            );
            lemma_absorb_concat(
                h0,
                members_indicators(views, Series::Htf, i as nat),
                condition_indicators(views[i as int], Series::Htf),
            );
        }
        collect_indicators(&conditions[i], primary, htf);
    }
}

/// Appends the indicators of a condition tree, each to the list of its series.
fn collect_indicators(
    condition: &Condition,
    primary: &mut Vec<IndicatorSpec>,
    htf: &mut Vec<IndicatorSpec>,
)
    ensures
        final(primary)@ == absorb(
            old(primary)@,
            condition_indicators(condition@, Series::Primary),
        ),
        final(htf)@ == absorb(old(htf)@, condition_indicators(condition@, Series::Htf)),
    decreases condition,
{
    match condition {
        Condition::Compare { lhs, rhs, .. } => collect_operands(lhs, rhs, primary, htf),
        Condition::CrossesAbove { lhs, rhs } => collect_operands(lhs, rhs, primary, htf),
        Condition::CrossesBelow { lhs, rhs } => collect_operands(lhs, rhs, primary, htf),
        Condition::And { conditions } => collect_members(conditions, primary, htf),
        Condition::Or { conditions } => collect_members(conditions, primary, htf),
        Condition::Not { condition } => collect_indicators(condition, primary, htf),
    }
}

/// Appends the indicators of the exit rules.
fn collect_exits(
    exits: &Vec<ExitRule>,
    primary: &mut Vec<IndicatorSpec>,
    htf: &mut Vec<IndicatorSpec>,
)
    ensures
        final(primary)@ == absorb(
            old(primary)@,
            exits_indicators(exit_views(exits@), Series::Primary, exits@.len()),
        ),
        final(htf)@ == absorb(
            old(htf)@,
            exits_indicators(exit_views(exits@), Series::Htf, exits@.len()),
        ),
{
    let ghost views = exit_views(exits@);
    let ghost p0 = primary@;
    let ghost h0 = htf@;
    let n = exits.len();
    for i in 0..n
        invariant
            n == exits.len(),
            views == exit_views(exits@),
            primary@ == absorb(p0, exits_indicators(views, Series::Primary, i as nat)),
            htf@ == absorb(h0, exits_indicators(views, Series::Htf, i as nat)),
    {
        assert(views[i as int] == exits@[i as int]@);
        proof {
            lemma_absorb_concat(
                p0,
                exits_indicators(views, Series::Primary, i as nat),
                exit_indicators(views[i as int], Series::Primary),
            );
            lemma_absorb_concat(
                h0,
                exits_indicators(views, Series::Htf, i as nat),
                exit_indicators(views[i as int], Series::Htf),
            );
        }
        match &exits[i] {
            ExitRule::SignalExit { condition } => collect_indicators(condition, primary, htf),
            ExitRule::AtrStop { period, .. } => {
                if let SweepableValue::Fixed(p) = period {
                    let spec = IndicatorSpec::Atr { period: SweepableValue::Fixed(*p) };
                    add_indicator(&spec, primary);
                }
            },
            _ => {},
        }
    }
}

/// An executable strategy.
#[derive(Clone, Debug, PartialEq)]
pub struct CompiledStrategy {
    direction: Direction,
    entry: CompiledCondition,
    exits: Vec<CompiledExit>,
    risk: CompiledRisk,
    required_indicators: Vec<IndicatorSpec>,
    required_htf_indicators: Vec<IndicatorSpec>,
}

impl View for CompiledStrategy {
    type V = CompiledStrategyView;

    closed spec fn view(&self) -> CompiledStrategyView {
        CompiledStrategyView {
            direction: self.direction,
            entry: self.entry@,
            exits: compiled_exit_views(self.exits@),
            risk: self.risk,
            required_indicators: self.required_indicators@,
            required_htf_indicators: self.required_htf_indicators@,
        }
    }
}

/// A valid document has no sweep in its exits.
proof fn lemma_valid_exits_refusal(exits: Seq<ExitRuleView>, n: nat)
    requires
        n <= exits.len(),
        forall|i: int| 0 <= i < exits.len() ==> valid_exit(#[trigger] exits[i]),
    ensures
        exits_refusal(exits, n) matches Some(e) ==> e is HtfUnsupported,
    decreases n,
{
    if n > 0 {
        lemma_valid_exits_refusal(exits, (n - 1) as nat);
        assert(valid_exit(exits[n - 1]));
    }
}

/// Compiles a validated document.
///
/// Succeeds exactly where no operand reads the higher timeframe; otherwise names
/// the first one that does. A stray sweep never comes out: a validated document
/// has none.
pub fn compile(validated: &ValidatedDsl) -> (r: Result<CompiledStrategy, CompileError>)
    ensures
        match strategy_refusal(validated@) {
            None => r is Ok && r->Ok_0@ == compiled_strategy(validated@),
            Some(e) => r is Err && r->Err_0@ == e && e is HtfUnsupported,
        },
{
    let dsl = validated.dsl();
    proof {
        lemma_valid_exits_refusal(dsl@.exits, dsl@.exits.len());
    }
    let first = match compile_condition(&dsl.entry, "entry") {
        Ok(c) => c,
        Err(e) => {
            return Err(e);
        },
    };
    let filters = match compile_members(&dsl.filters, "filters[") {
        Ok(v) => v,
        Err(e) => {
            return Err(e);
        },
    };
    let entry = if filters.len() == 0 {
        first
    } else {
        let mut parts: Vec<CompiledCondition> = Vec::new();
        let ghost first_view = first@;
        let ghost filters_views = compiled_views(filters@);
        parts.push(first);
        let ghost all = seq![first] + filters@;
        let mut rest = filters;
        parts.append(&mut rest);
        assert(parts@ =~= all);
        assert(compiled_views(parts@) =~= seq![first_view] + filters_views);
        CompiledCondition::And(parts)
    };
    let exits = match compile_exits(&dsl.exits) {
        Ok(v) => v,
        Err(e) => {
            return Err(e);
        },
    };
    let risk = match compile_risk(&dsl.risk) {
        Ok(risk) => risk,
        Err(e) => {
            return Err(e);
        },
    };
    let mut required_indicators: Vec<IndicatorSpec> = Vec::new();
    let mut required_htf_indicators: Vec<IndicatorSpec> = Vec::new();
    proof {
        let d = dsl@;
        let ep = condition_indicators(d.entry, Series::Primary);
        let fp = members_indicators(d.filters, Series::Primary, d.filters.len());
        let xp = exits_indicators(d.exits, Series::Primary, d.exits.len());
        lemma_absorb_concat(Seq::empty(), ep, fp);
        lemma_absorb_concat(Seq::empty(), ep + fp, xp);
        let eh = condition_indicators(d.entry, Series::Htf);
        let fh = members_indicators(d.filters, Series::Htf, d.filters.len());
        let xh = exits_indicators(d.exits, Series::Htf, d.exits.len());
        lemma_absorb_concat(Seq::empty(), eh, fh);
        lemma_absorb_concat(Seq::empty(), eh + fh, xh);
        assert(required_indicators@ =~= Seq::empty());
        assert(required_htf_indicators@ =~= Seq::empty());
    }
    collect_indicators(&dsl.entry, &mut required_indicators, &mut required_htf_indicators);
    collect_members(&dsl.filters, &mut required_indicators, &mut required_htf_indicators);
    collect_exits(&dsl.exits, &mut required_indicators, &mut required_htf_indicators);
    Ok(
        CompiledStrategy {
            direction: dsl.direction,
            entry,
            exits,
            risk,
            required_indicators,
            required_htf_indicators,
        },
    )
}

// ---------------------------------------------------------------------------
// Reading an executable strategy.
// ---------------------------------------------------------------------------

/// Whether an operand reads the higher timeframe.
pub open spec fn value_uses_htf(v: CompiledValue) -> bool {
    match v {
        CompiledValue::Const(_) => false,
        CompiledValue::Price { series, .. } => series == Series::Htf,
        CompiledValue::Indicator { series, .. } => series == Series::Htf,
    }
}

/// Whether some operand of a condition reads the higher timeframe.
pub open spec fn condition_uses_htf(c: CompiledConditionView) -> bool
    decreases c,
{
    match c {
        CompiledConditionView::Compare { lhs, op, rhs } => value_uses_htf(lhs) || value_uses_htf(
            rhs,
        ),
        CompiledConditionView::CrossesAbove { lhs, rhs } => value_uses_htf(lhs) || value_uses_htf(
            rhs,
        ),
        CompiledConditionView::CrossesBelow { lhs, rhs } => value_uses_htf(lhs) || value_uses_htf(
            rhs,
        ),
        CompiledConditionView::And(conditions) => exists|i: int|
            0 <= i < conditions.len() && condition_uses_htf(#[trigger] conditions[i]),
        CompiledConditionView::Or(conditions) => exists|i: int|
            0 <= i < conditions.len() && condition_uses_htf(#[trigger] conditions[i]),
        CompiledConditionView::Not(condition) => condition_uses_htf(*condition),
    }
}

/// Whether an exit's condition reads the higher timeframe.
pub open spec fn exit_uses_htf(e: CompiledExitView) -> bool {
    match e {
        CompiledExitView::SignalExit { condition } => condition_uses_htf(condition),
        _ => false,
    }
}

/// Whether some operand of a strategy reads the higher timeframe.
pub open spec fn strategy_uses_htf(s: CompiledStrategyView) -> bool {
    ||| condition_uses_htf(s.entry)
    ||| exists|i: int| 0 <= i < s.exits.len() && exit_uses_htf(#[trigger] s.exits[i])
}

fn value_is_htf(value: &CompiledValue) -> (r: bool)
    ensures
        r == value_uses_htf(*value),
{
    match value {
        CompiledValue::Const(_) => false,
        CompiledValue::Price { series, .. } => *series == Series::Htf,
        CompiledValue::Indicator { series, .. } => *series == Series::Htf,
    }
}

fn any_has_htf(conditions: &Vec<CompiledCondition>) -> (r: bool)
    ensures
        r == condition_uses_htf(CompiledConditionView::And(compiled_views(conditions@))),
        r == condition_uses_htf(CompiledConditionView::Or(compiled_views(conditions@))),
    decreases conditions,
{
    let ghost views = compiled_views(conditions@);
    let n = conditions.len();
    let mut i: usize = 0;
    while i < n
        invariant
            n == conditions.len(),
            i <= n,
            views == compiled_views(conditions@),
            forall|j: int| 0 <= j < i ==> !condition_uses_htf(#[trigger] views[j]),
        decreases n - i,
    {
        assert(views[i as int] == conditions@[i as int]@);
        if cond_has_htf(&conditions[i]) {
            assert(CompiledConditionView::And(views)->And_0[i as int] == views[i as int]);
            assert(CompiledConditionView::Or(views)->Or_0[i as int] == views[i as int]);
            return true;
        }
        i = i + 1;
    }
    false
}

fn cond_has_htf(condition: &CompiledCondition) -> (r: bool)
    ensures
        r == condition_uses_htf(condition@),
    decreases condition,
{
    match condition {
        CompiledCondition::Compare { lhs, rhs, .. } => value_is_htf(lhs) || value_is_htf(rhs),
        CompiledCondition::CrossesAbove { lhs, rhs } => value_is_htf(lhs) || value_is_htf(rhs),
        CompiledCondition::CrossesBelow { lhs, rhs } => value_is_htf(lhs) || value_is_htf(rhs),
        CompiledCondition::And(conditions) => any_has_htf(conditions),
        CompiledCondition::Or(conditions) => any_has_htf(conditions),
        CompiledCondition::Not(condition) => cond_has_htf(condition),
    }
}

impl CompiledStrategy {
    /// The trade side this strategy takes.
    pub fn direction(&self) -> (r: Direction)
        ensures
            r == self@.direction,
    {
        self.direction
    }

    /// The effective entry predicate.
    pub fn entry(&self) -> (r: &CompiledCondition)
        ensures
            r@ == self@.entry,
    {
        &self.entry
    }

    /// The compiled exit rules.
    pub fn exits(&self) -> (r: &[CompiledExit])
        ensures
            compiled_exit_views(r@) == self@.exits,
    {
        self.exits.as_slice()
    }

    /// The compiled risk inputs.
    pub fn risk(&self) -> (r: &CompiledRisk)
        ensures
            *r == self@.risk,
    {
        &self.risk
    }

    /// The indicators of the primary series, each once.
    pub fn required_indicators(&self) -> (r: &[IndicatorSpec])
        ensures
            r@ == self@.required_indicators,
    {
        self.required_indicators.as_slice()
    }

    /// The indicators of the higher-timeframe series, each once.
    pub fn required_htf_indicators(&self) -> (r: &[IndicatorSpec])
        ensures
            r@ == self@.required_htf_indicators,
    {
        self.required_htf_indicators.as_slice()
    }

    /// Whether any operand reads the higher-timeframe series.
    pub fn needs_htf(&self) -> (r: bool)
        ensures
            r == strategy_uses_htf(self@),
    {
        if cond_has_htf(&self.entry) {
            return true;
        }
        let n = self.exits.len();
        let mut i: usize = 0;
        while i < n
            invariant
                n == self.exits.len(),
                i <= n,
                !condition_uses_htf(self@.entry),
                forall|j: int| 0 <= j < i ==> !exit_uses_htf(#[trigger] self@.exits[j]),
            decreases n - i,
        {
            assert(self@.exits[i as int] == self.exits@[i as int]@);
            if let CompiledExit::SignalExit { condition } = &self.exits[i] {
                if cond_has_htf(condition) {
                    return true;
                }
            }
            i = i + 1;
        }
        false
    }
}

// ---------------------------------------------------------------------------
// What holds of evaluation and compilation.
// ---------------------------------------------------------------------------

/// The effective entry holds exactly where the entry and every filter hold.
pub proof fn law_effective_entry(
    entry: ConditionView,
    filters: Seq<ConditionView>,
    now: Bar,
    before: Bar,
)
    ensures
        holds(effective_entry(entry, filters), now, before) <==> {
            &&& holds(compiled_condition(entry), now, before)
            &&& forall|i: int|
                0 <= i < filters.len() ==> holds(
                    compiled_condition(#[trigger] filters[i]),
                    now,
                    before,
                )
        },
{
    if filters.len() > 0 {
        let parts = seq![compiled_condition(entry)] + compiled_conditions(filters);
        let all = CompiledConditionView::And(parts);
        assert(effective_entry(entry, filters) == all);
        if holds(all, now, before) {
            assert(all->And_0[0] == compiled_condition(entry));
            assert forall|i: int| 0 <= i < filters.len() implies holds(
                compiled_condition(#[trigger] filters[i]),
                now,
                before,
            ) by {
                assert(all->And_0[i + 1] == compiled_condition(filters[i]));
            }
        }
        if holds(compiled_condition(entry), now, before) && (forall|i: int|
            0 <= i < filters.len() ==> holds(
                compiled_condition(#[trigger] filters[i]),
                now,
                before,
            )) {
            assert forall|k: int| 0 <= k < parts.len() implies holds(
                #[trigger] parts[k],
                now,
                before,
            ) by {
                if k > 0 {
                    assert(parts[k] == compiled_condition(filters[k - 1]));
                }
            }
        }
    }
}

/// A comparison or a cross with an operand that is unavailable now is false.
pub proof fn law_unavailable_operand_is_false(
    lhs: CompiledValue,
    op: Comparator,
    rhs: CompiledValue,
    now: Bar,
    before: Bar,
)
    requires
        now(lhs) is None || now(rhs) is None,
    ensures
        !holds(CompiledConditionView::Compare { lhs, op, rhs }, now, before),
        !holds(CompiledConditionView::CrossesAbove { lhs, rhs }, now, before),
        !holds(CompiledConditionView::CrossesBelow { lhs, rhs }, now, before),
{
}

/// A cross needs both operands on the bar before: on the first bar it is false.
pub proof fn law_no_cross_without_history(
    lhs: CompiledValue,
    rhs: CompiledValue,
    now: Bar,
    before: Bar,
)
    requires
        before(lhs) is None || before(rhs) is None,
    ensures
        !holds(CompiledConditionView::CrossesAbove { lhs, rhs }, now, before),
        !holds(CompiledConditionView::CrossesBelow { lhs, rhs }, now, before),
{
}

/// A comparison depends on the numbers alone, not on their scales.
pub proof fn law_comparison_ignores_scale(
    a: Decimal,
    b: Decimal,
    c: Decimal,
    d: Decimal,
    op: Comparator,
)
    requires
        a.units() == b.units(),
        c.units() == d.units(),
    ensures
        comparison_holds(a, op, c) == comparison_holds(b, op, d),
{
}

proof fn lemma_compiled_without_htf(c: ConditionView, path: Seq<char>)
    requires
        condition_htf(c, path) is None,
    ensures
        !condition_uses_htf(compiled_condition(c)),
        condition_indicators(c, Series::Htf).len() == 0,
    decreases c, 0nat,
{
    match c {
        ConditionView::Compare { lhs, op, rhs } => {},
        ConditionView::CrossesAbove { lhs, rhs } => {},
        ConditionView::CrossesBelow { lhs, rhs } => {},
        ConditionView::And { conditions } => {
            lemma_members_without_htf(conditions, path + ".and["@, conditions.len());
            let all = CompiledConditionView::And(compiled_conditions(conditions));
            assert forall|i: int| 0 <= i < all->And_0.len() implies !condition_uses_htf(
                #[trigger] all->And_0[i],
            ) by {
                assert(all->And_0[i] == compiled_condition(conditions[i]));
            }
        },
        ConditionView::Or { conditions } => {
            lemma_members_without_htf(conditions, path + ".or["@, conditions.len());
            let all = CompiledConditionView::Or(compiled_conditions(conditions));
            assert forall|i: int| 0 <= i < all->Or_0.len() implies !condition_uses_htf(
                #[trigger] all->Or_0[i],
            ) by {
                assert(all->Or_0[i] == compiled_condition(conditions[i]));
            }
        },
        ConditionView::Not { condition } => {
            lemma_compiled_without_htf(*condition, path + ".not"@);
        },
    }
}

proof fn lemma_members_without_htf(conditions: Seq<ConditionView>, stem: Seq<char>, n: nat)
    requires
        n <= conditions.len(),
        members_htf(conditions, stem, n) is None,
    ensures
        forall|i: int|
            0 <= i < n ==> !condition_uses_htf(compiled_condition(#[trigger] conditions[i])),
        members_indicators(conditions, Series::Htf, n).len() == 0,
    decreases conditions, n,
{
    if n > 0 {
        lemma_members_without_htf(conditions, stem, (n - 1) as nat);
        lemma_compiled_without_htf(conditions[n - 1], member_path(stem, (n - 1) as nat));
    }
}

proof fn lemma_exits_without_htf(exits: Seq<ExitRuleView>, n: nat)
    requires
        n <= exits.len(),
        exits_refusal(exits, n) is None,
    ensures
        forall|i: int| 0 <= i < n ==> !exit_uses_htf(compiled_exit(#[trigger] exits[i])),
        exits_indicators(exits, Series::Htf, n).len() == 0,
    decreases n,
{
    if n > 0 {
        lemma_exits_without_htf(exits, (n - 1) as nat);
        if let ExitRuleView::SignalExit { condition } = exits[n - 1] {
            lemma_compiled_without_htf(
                condition,
                member_path("exits["@, (n - 1) as nat) + ".condition"@,
            );
        }
    }
}

/// A strategy that compiles reads the primary series only: no operand needs the
/// higher timeframe, and no indicator is required on it.
pub proof fn law_compiled_reads_primary_only(dsl: StrategyDslView)
    requires
        strategy_refusal(dsl) is None,
    ensures
        !strategy_uses_htf(compiled_strategy(dsl)),
        compiled_strategy(dsl).required_htf_indicators.len() == 0,
{
    lemma_compiled_without_htf(dsl.entry, "entry"@);
    lemma_members_without_htf(dsl.filters, "filters["@, dsl.filters.len());
    lemma_exits_without_htf(dsl.exits, dsl.exits.len());
    let s = compiled_strategy(dsl);
    if dsl.filters.len() > 0 {
        let parts = seq![compiled_condition(dsl.entry)] + compiled_conditions(dsl.filters);
        let all = CompiledConditionView::And(parts);
        assert(s.entry == all);
        assert forall|k: int| 0 <= k < all->And_0.len() implies !condition_uses_htf(
            #[trigger] all->And_0[k],
        ) by {
            if k > 0 {
                assert(parts[k] == compiled_condition(dsl.filters[k - 1]));
            }
        }
    }
    assert forall|i: int| 0 <= i < s.exits.len() implies !exit_uses_htf(#[trigger] s.exits[i]) by {
        assert(s.exits[i] == compiled_exit(dsl.exits[i]));
    }
    assert(strategy_indicators(dsl, Series::Htf) =~= Seq::empty());
}

/// The indicators a strategy requires on a series are exactly those the document
/// refers to there, each once.
pub proof fn law_required_indicators(dsl: StrategyDslView)
    ensures
        compiled_strategy(dsl).required_indicators.no_duplicates(),
        forall|x: IndicatorSpec|
            compiled_strategy(dsl).required_indicators.contains(x) <==> strategy_indicators(
                dsl,
                Series::Primary,
            ).contains(x),
{
    law_first_occurrences(strategy_indicators(dsl, Series::Primary));
}

} // verus!
