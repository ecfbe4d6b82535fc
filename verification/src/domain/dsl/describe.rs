//! A readable rendering of an evaluator tree.
use crate::decimal::{decimal_text, Decimal};
use crate::domain::dsl::compile::{
    compiled_exit_views, compiled_views, CompiledCondition, CompiledConditionView, CompiledExit,
    CompiledExitView, CompiledStrategy, CompiledStrategyView, CompiledValue,
};
use crate::domain::dsl::condition::Comparator;
use crate::domain::dsl::risk::Direction;
use crate::domain::dsl::sweepable::SweepableValue;
use crate::domain::dsl::value::{IndicatorSpec, PriceField, Series};
use crate::text::{concat3, contents, digits, join, joined, u64_text};
use vstd::prelude::*;
use vstd::string::*;

verus! {

/// The text of a number.
pub open spec fn number_text(d: Decimal) -> Seq<char> {
    decimal_text(d.mantissa() as int, d.scale() as nat)
}

/// The name of a trade side.
pub open spec fn direction_name(d: Direction) -> Seq<char> {
    match d {
        Direction::Long => "Long"@,
        Direction::Short => "Short"@,
    }
}

/// The name of a series.
pub open spec fn series_name(s: Series) -> Seq<char> {
    match s {
        Series::Primary => "Primary"@,
        Series::Htf => "Htf"@,
    }
}

/// The name of a candle field.
pub open spec fn field_name(f: PriceField) -> Seq<char> {
    match f {
        PriceField::Open => "Open"@,
        PriceField::High => "High"@,
        PriceField::Low => "Low"@,
        PriceField::Close => "Close"@,
        PriceField::Volume => "Volume"@,
    }
}

/// The name of a comparison operator.
pub open spec fn comparator_name(op: Comparator) -> Seq<char> {
    match op {
        Comparator::Gt => "Gt"@,
        Comparator::Gte => "Gte"@,
        Comparator::Lt => "Lt"@,
        Comparator::Lte => "Lte"@,
        Comparator::Eq => "Eq"@,
    }
}

/// The text of a period.
pub open spec fn period_text(v: SweepableValue<u32>) -> Seq<char> {
    match v {
        SweepableValue::Fixed(n) => "Fixed("@ + digits(n as nat) + ")"@,
        SweepableValue::Sweep { start, end, step } => "Sweep { start: "@ + digits(start as nat)
            + ", end: "@ + digits(end as nat) + ", step: "@ + digits(step as nat) + " }"@,
    }
}

/// The text of an indicator with one period.
pub open spec fn one_period_text(name: Seq<char>, period: SweepableValue<u32>) -> Seq<char> {
    name + " { period: "@ + period_text(period) + " }"@
}

/// The text of an indicator.
pub open spec fn indicator_text(spec: IndicatorSpec) -> Seq<char> {
    match spec {
        IndicatorSpec::Rsi { period } => one_period_text("Rsi"@, period),
        IndicatorSpec::Ema { period } => one_period_text("Ema"@, period),
        IndicatorSpec::Adx { period } => one_period_text("Adx"@, period),
        IndicatorSpec::Macd { fast, slow, signal } => "Macd { fast: "@ + period_text(fast)
            + ", slow: "@ + period_text(slow) + ", signal: "@ + period_text(signal) + " }"@,
        IndicatorSpec::Atr { period } => one_period_text("Atr"@, period),
    }
}

/// The text of an operand.
pub open spec fn value_text(v: CompiledValue) -> Seq<char> {
    match v {
        CompiledValue::Const(d) => "Const("@ + number_text(d) + ")"@,
        CompiledValue::Price { series, field } => "Price { series: "@ + series_name(series)
            + ", field: "@ + field_name(field) + " }"@,
        CompiledValue::Indicator { series, spec } => "Indicator { series: "@ + series_name(series)
            + ", spec: "@ + indicator_text(spec) + " }"@,
    }
}

/// The text of a list.
pub open spec fn list_text(texts: Seq<Seq<char>>) -> Seq<char> {
    "["@ + joined(texts, ", "@) + "]"@
}

/// The text of a condition tree.
pub open spec fn condition_text(c: CompiledConditionView) -> Seq<char>
    decreases c,
{
    match c {
        CompiledConditionView::Compare { lhs, op, rhs } => "Compare { lhs: "@ + value_text(lhs)
            + ", op: "@ + comparator_name(op) + ", rhs: "@ + value_text(rhs) + " }"@,
        CompiledConditionView::CrossesAbove { lhs, rhs } => "CrossesAbove { lhs: "@ + value_text(
            lhs,
        ) + ", rhs: "@ + value_text(rhs) + " }"@,
        CompiledConditionView::CrossesBelow { lhs, rhs } => "CrossesBelow { lhs: "@ + value_text(
            lhs,
        ) + ", rhs: "@ + value_text(rhs) + " }"@,
        CompiledConditionView::And(conditions) => "And("@ + list_text(condition_texts(conditions))
            + ")"@,
        CompiledConditionView::Or(conditions) => "Or("@ + list_text(condition_texts(conditions))
            + ")"@,
        CompiledConditionView::Not(condition) => "Not("@ + condition_text(*condition) + ")"@,
    }
}

/// The texts of a list of condition trees.
pub open spec fn condition_texts(conditions: Seq<CompiledConditionView>) -> Seq<Seq<char>>
    decreases conditions,
{
    Seq::new(
        conditions.len(),
        |i: int|
            if 0 <= i < conditions.len() {
                condition_text(conditions[i])
            } else {
                arbitrary()
            },
    )
}

/// The text of an exit.
pub open spec fn exit_text(e: CompiledExitView) -> Seq<char> {
    match e {
        CompiledExitView::StopLoss { distance_pct } => "StopLoss { distance_pct: "@ + number_text(
            distance_pct,
        ) + " }"@,
        CompiledExitView::TakeProfit { target_r } => "TakeProfit { target_r: "@ + number_text(
            target_r,
        ) + " }"@,
        CompiledExitView::TrailingStop { trail_pct } => "TrailingStop { trail_pct: "@ + number_text(
            trail_pct,
        ) + " }"@,
        CompiledExitView::TimeStop { max_bars } => "TimeStop { max_bars: "@ + digits(
            max_bars as nat,
        ) + " }"@,
        CompiledExitView::SignalExit { condition } => "SignalExit { condition: "@ + condition_text(
            condition,
        ) + " }"@,
        CompiledExitView::AtrStop { period, multiple } => "AtrStop { period: "@ + digits(
            period as nat,
        ) + ", multiple: "@ + number_text(multiple) + " }"@,
    }
}

/// The text of a strategy.
pub open spec fn strategy_text(s: CompiledStrategyView) -> Seq<char> {
    "CompiledStrategy { direction: "@ + direction_name(s.direction) + ", entry: "@ + condition_text(
        s.entry,
    ) + ", exits: "@ + list_text(s.exits.map_values(|e: CompiledExitView| exit_text(e)))
        + ", required_indicators: "@ + list_text(
        s.required_indicators.map_values(|i: IndicatorSpec| indicator_text(i)),
    ) + " }"@
}

fn describe_series(s: Series) -> (t: &'static str)
    ensures
        t@ == series_name(s),
{
    match s {
        Series::Primary => "Primary",
        Series::Htf => "Htf",
    }
}

fn describe_field(f: PriceField) -> (t: &'static str)
    ensures
        t@ == field_name(f),
{
    match f {
        PriceField::Open => "Open",
        PriceField::High => "High",
        PriceField::Low => "Low",
        PriceField::Close => "Close",
        PriceField::Volume => "Volume",
    }
}

fn describe_comparator(op: Comparator) -> (t: &'static str)
    ensures
        t@ == comparator_name(op),
{
    match op {
        Comparator::Gt => "Gt",
        Comparator::Gte => "Gte",
        Comparator::Lt => "Lt",
        Comparator::Lte => "Lte",
        Comparator::Eq => "Eq",
    }
}

fn describe_period(v: &SweepableValue<u32>) -> (t: String)
    ensures
        t@ == period_text(*v),
{
    match v {
        SweepableValue::Fixed(n) => concat3("Fixed(", u64_text(*n as u64).as_str(), ")"),
        SweepableValue::Sweep { start, end, step } => {
            let mut t = "Sweep { start: ".to_owned();
            t.append(u64_text(*start as u64).as_str());
            t.append(", end: ");
            t.append(u64_text(*end as u64).as_str());
            t.append(", step: ");
            t.append(u64_text(*step as u64).as_str());
            t.append(" }");
            t
        },
    }
}

fn describe_one_period(name: &str, period: &SweepableValue<u32>) -> (t: String)
    ensures
        t@ == one_period_text(name@, *period),
{
    let mut t = name.to_owned();
    t.append(" { period: ");
    t.append(describe_period(period).as_str());
    t.append(" }");
    t
}

fn describe_indicator(spec: &IndicatorSpec) -> (t: String)
    ensures
        t@ == indicator_text(*spec),
{
    match spec {
        IndicatorSpec::Rsi { period } => describe_one_period("Rsi", period),
        IndicatorSpec::Ema { period } => describe_one_period("Ema", period),
        IndicatorSpec::Adx { period } => describe_one_period("Adx", period),
        IndicatorSpec::Macd { fast, slow, signal } => {
            let mut t = "Macd { fast: ".to_owned();
            t.append(describe_period(fast).as_str());
            t.append(", slow: ");
            t.append(describe_period(slow).as_str());
            t.append(", signal: ");
            t.append(describe_period(signal).as_str());
            t.append(" }");
            t
        },
        IndicatorSpec::Atr { period } => describe_one_period("Atr", period),
    }
}

fn describe_value(v: &CompiledValue) -> (t: String)
    ensures
        t@ == value_text(*v),
{
    match v {
        CompiledValue::Const(d) => concat3("Const(", d.to_string().as_str(), ")"),
        CompiledValue::Price { series, field } => {
            let mut t = "Price { series: ".to_owned();
            t.append(describe_series(*series));
            t.append(", field: ");
            t.append(describe_field(*field));
            t.append(" }");
            t
        },
        CompiledValue::Indicator { series, spec } => {
            let mut t = "Indicator { series: ".to_owned();
            t.append(describe_series(*series));
            t.append(", spec: ");
            t.append(describe_indicator(spec).as_str());
            t.append(" }");
            t
        },
    }
}

fn describe_operands(head: &str, lhs: &CompiledValue, rhs: &CompiledValue) -> (t: String)
    ensures
        t@ == head@ + value_text(*lhs) + ", rhs: "@ + value_text(*rhs) + " }"@,
{
    let mut t = head.to_owned();
    t.append(describe_value(lhs).as_str());
    t.append(", rhs: ");
    t.append(describe_value(rhs).as_str());
    t.append(" }");
    t
}

fn describe_list(texts: &Vec<String>) -> (t: String)
    ensures
        t@ == list_text(contents(texts@)),
{
    concat3("[", join(texts, ", ").as_str(), "]")
}

fn describe_conditions(conditions: &Vec<CompiledCondition>) -> (t: String)
    ensures
        t@ == list_text(condition_texts(compiled_views(conditions@))),
    decreases conditions,
{
    let ghost views = compiled_views(conditions@);
    let n = conditions.len();
    let mut texts: Vec<String> = Vec::new();
    for i in 0..n
        invariant
            n == conditions.len(),
            views == compiled_views(conditions@),
            texts.len() == i,
            forall|j: int| 0 <= j < i ==> (#[trigger] texts@[j])@ == condition_text(views[j]),
    {
        assert(views[i as int] == conditions@[i as int]@);
        let t = describe_condition(&conditions[i]);
        texts.push(t);
    }
    assert(contents(texts@) =~= condition_texts(views));
    describe_list(&texts)
}

fn describe_condition(c: &CompiledCondition) -> (t: String)
    ensures
        t@ == condition_text(c@),
    decreases c,
{
    match c {
        CompiledCondition::Compare { lhs, op, rhs } => {
            let mut t = "Compare { lhs: ".to_owned();
            t.append(describe_value(lhs).as_str());
            t.append(", op: ");
            t.append(describe_comparator(*op));
            t.append(", rhs: ");
            t.append(describe_value(rhs).as_str());
            t.append(" }");
            t
        },
        CompiledCondition::CrossesAbove { lhs, rhs } => describe_operands(
            "CrossesAbove { lhs: ",
            lhs,
            rhs,
        ),
        CompiledCondition::CrossesBelow { lhs, rhs } => describe_operands(
            "CrossesBelow { lhs: ",
            lhs,
            rhs,
        ),
        CompiledCondition::And(conditions) => concat3(
            "And(",
            describe_conditions(conditions).as_str(),
            ")",
        ),
        CompiledCondition::Or(conditions) => concat3(
            "Or(",
            describe_conditions(conditions).as_str(),
            ")",
        ),
        CompiledCondition::Not(condition) => concat3(
            "Not(",
            describe_condition(condition).as_str(),
            ")",
        ),
    }
}

fn describe_exit(e: &CompiledExit) -> (t: String)
    ensures
        t@ == exit_text(e@),
{
    match e {
        CompiledExit::StopLoss { distance_pct } => concat3(
            "StopLoss { distance_pct: ",
            distance_pct.to_string().as_str(),
            " }",
        ),
        CompiledExit::TakeProfit { target_r } => concat3(
            "TakeProfit { target_r: ",
            target_r.to_string().as_str(),
            " }",
        ),
        CompiledExit::TrailingStop { trail_pct } => concat3(
            "TrailingStop { trail_pct: ",
            trail_pct.to_string().as_str(),
            " }",
        ),
        CompiledExit::TimeStop { max_bars } => concat3(
            "TimeStop { max_bars: ",
            u64_text(*max_bars as u64).as_str(),
            " }",
        ),
        CompiledExit::SignalExit { condition } => concat3(
            "SignalExit { condition: ",
            describe_condition(condition).as_str(),
            " }",
        ),
        CompiledExit::AtrStop { period, multiple } => {
            let mut t = "AtrStop { period: ".to_owned();
            t.append(u64_text(*period as u64).as_str());
            t.append(", multiple: ");
            t.append(multiple.to_string().as_str());
            t.append(" }");
            t
        },
    }
}

impl CompiledStrategy {
    /// A readable rendering of the evaluator tree.
    pub fn describe(&self) -> (t: String)
        ensures
            t@ == strategy_text(self@),
    {
        let exits = self.exits();
        let mut exit_texts: Vec<String> = Vec::new();
        let n = exits.len();
        for i in 0..n
            invariant
                n == exits@.len(),
                compiled_exit_views(exits@) == self@.exits,
                exit_texts.len() == i,
                forall|j: int|
                    0 <= j < i ==> (#[trigger] exit_texts@[j])@ == exit_text(self@.exits[j]),
        {
            assert(self@.exits[i as int] == exits@[i as int]@);
            let t = describe_exit(&exits[i]);
            exit_texts.push(t);
        }
        assert(contents(exit_texts@) =~= self@.exits.map_values(
            |e: CompiledExitView| exit_text(e),
        ));
        let indicators = self.required_indicators();
        let mut indicator_texts: Vec<String> = Vec::new();
        let m = indicators.len();
        for i in 0..m
            invariant
                m == indicators@.len(),
                indicators@ == self@.required_indicators,
                indicator_texts.len() == i,
                forall|j: int|
                    0 <= j < i ==> (#[trigger] indicator_texts@[j])@ == indicator_text(
                        indicators@[j],
                    ),
        {
            let t = describe_indicator(&indicators[i]);
            indicator_texts.push(t);
        }
        assert(contents(indicator_texts@) =~= self@.required_indicators.map_values(
            |i: IndicatorSpec| indicator_text(i),
        ));
        let mut t = "CompiledStrategy { direction: ".to_owned();
        t.append(
            match self.direction() {
                Direction::Long => "Long",
                Direction::Short => "Short",
            },
        );
        t.append(", entry: ");
        t.append(describe_condition(self.entry()).as_str());
        t.append(", exits: ");
        t.append(describe_list(&exit_texts).as_str());
        t.append(", required_indicators: ");
        t.append(describe_list(&indicator_texts).as_str());
        t.append(" }");
        t
    }
}

/// The names of sides, series, fields, operators and indicators in a rendering.
pub proof fn law_every_name_has_one_meaning(period: SweepableValue<u32>, n: u32)
    ensures
        direction_name(Direction::Long) == "Long"@,
        direction_name(Direction::Short) == "Short"@,
        series_name(Series::Primary) == "Primary"@,
        series_name(Series::Htf) == "Htf"@,
        field_name(PriceField::Open) == "Open"@,
        field_name(PriceField::High) == "High"@,
        field_name(PriceField::Low) == "Low"@,
        field_name(PriceField::Close) == "Close"@,
        field_name(PriceField::Volume) == "Volume"@,
        comparator_name(Comparator::Gt) == "Gt"@,
        comparator_name(Comparator::Gte) == "Gte"@,
        comparator_name(Comparator::Lt) == "Lt"@,
        comparator_name(Comparator::Lte) == "Lte"@,
        comparator_name(Comparator::Eq) == "Eq"@,
        period_text(SweepableValue::Fixed(n)) == "Fixed("@ + digits(n as nat) + ")"@,
        indicator_text(IndicatorSpec::Rsi { period }) == "Rsi { period: "@ + period_text(period)
            + " }"@,
        indicator_text(IndicatorSpec::Ema { period }) == "Ema { period: "@ + period_text(period)
            + " }"@,
        indicator_text(IndicatorSpec::Adx { period }) == "Adx { period: "@ + period_text(period)
            + " }"@,
        indicator_text(IndicatorSpec::Atr { period }) == "Atr { period: "@ + period_text(period)
            + " }"@,
{
    reveal_strlit("Rsi");
    reveal_strlit("Ema");
    reveal_strlit("Adx");
    reveal_strlit("Atr");
    reveal_strlit(" { period: ");
    reveal_strlit("Rsi { period: ");
    reveal_strlit("Ema { period: ");
    reveal_strlit("Adx { period: ");
    reveal_strlit("Atr { period: ");
    assert("Rsi"@ + " { period: "@ =~= "Rsi { period: "@);
    assert("Ema"@ + " { period: "@ =~= "Ema { period: "@);
    assert("Adx"@ + " { period: "@ =~= "Adx { period: "@);
    assert("Atr"@ + " { period: "@ =~= "Atr { period: "@);
}

/// The rendering of a tree shows the kind of every condition, its operands in their order,
/// and its members in theirs.
pub proof fn law_renderings_show_the_tree(
    lhs: CompiledValue,
    rhs: CompiledValue,
    op: Comparator,
    conditions: Seq<CompiledConditionView>,
    i: int,
    d: Decimal,
    series: Series,
    field: PriceField,
    spec: IndicatorSpec,
)
    ensures
        value_text(CompiledValue::Const(d)) == "Const("@ + number_text(d) + ")"@,
        value_text(CompiledValue::Price { series, field }) == "Price { series: "@ + series_name(
            series,
        ) + ", field: "@ + field_name(field) + " }"@,
        value_text(CompiledValue::Indicator { series, spec }) == "Indicator { series: "@
            + series_name(series) + ", spec: "@ + indicator_text(spec) + " }"@,
        condition_text(CompiledConditionView::Compare { lhs, op, rhs }) == "Compare { lhs: "@
            + value_text(lhs) + ", op: "@ + comparator_name(op) + ", rhs: "@ + value_text(rhs)
            + " }"@,
        condition_text(CompiledConditionView::CrossesAbove { lhs, rhs }) == "CrossesAbove { lhs: "@
            + value_text(lhs) + ", rhs: "@ + value_text(rhs) + " }"@,
        condition_text(CompiledConditionView::CrossesBelow { lhs, rhs }) == "CrossesBelow { lhs: "@
            + value_text(lhs) + ", rhs: "@ + value_text(rhs) + " }"@,
        condition_text(CompiledConditionView::And(conditions)) == "And("@ + list_text(
            condition_texts(conditions),
        ) + ")"@,
        condition_text(CompiledConditionView::Or(conditions)) == "Or("@ + list_text(
            condition_texts(conditions),
        ) + ")"@,
        condition_texts(conditions).len() == conditions.len(),
        0 <= i < conditions.len() ==> condition_texts(conditions)[i] == condition_text(
            conditions[i],
        ),
        0 <= i < conditions.len() ==> condition_text(
            CompiledConditionView::Not(Box::new(conditions[i])),
        ) == "Not("@ + condition_text(conditions[i]) + ")"@,
{
    reveal_with_fuel(condition_text, 2);
}

} // verus!
