//! The one rendering of strategy documents for display.
use crate::canonical::normal_text;
use crate::decimal::{
    lemma_pow10_positive, lemma_product_units, multiplies_exactly, pow10, times, Decimal, MAX_SCALE,
};
use crate::domain::dsl::condition::{condition_views, Comparator, Condition, ConditionView};
use crate::domain::dsl::exit::{ExitRule, ExitRuleView};
use crate::domain::dsl::risk::{Direction, RiskParams};
use crate::domain::dsl::strategy::{StrategyDsl, StrategyDslView};
use crate::domain::dsl::sweepable::SweepableValue;
use crate::domain::dsl::value::{IndicatorSpec, PriceField, Series, ValueSource};
use crate::text::{concat2, concat3, contents, digits, join, joined, u64_text};
use vstd::prelude::*;
use vstd::string::*;

verus! {

/// A rendered strategy.
#[derive(Clone, Debug, PartialEq, Eq)]
pub struct Rendered {
    /// The trade side.
    pub direction: String,
    /// The entry trigger.
    pub entry: String,
    /// The filters, one line each.
    pub filters: Vec<String>,
    /// The exits, one line each.
    pub exits: Vec<String>,
    /// The risk inputs, one line each.
    pub risk: Vec<String>,
}

/// The model of [`Rendered`].
pub struct RenderedView {
    pub direction: Seq<char>,
    pub entry: Seq<char>,
    pub filters: Seq<Seq<char>>,
    pub exits: Seq<Seq<char>>,
    pub risk: Seq<Seq<char>>,
}

impl View for Rendered {
    type V = RenderedView;

    open spec fn view(&self) -> RenderedView {
        RenderedView {
            direction: self.direction@,
            entry: self.entry@,
            filters: contents(self.filters@),
            exits: contents(self.exits@),
            risk: contents(self.risk@),
        }
    }
}

// ---------------------------------------------------------------------------
// Leaves.
// ---------------------------------------------------------------------------

/// The bounds of a sweep.
pub open spec fn sweep_slot(start: Seq<char>, end: Seq<char>) -> Seq<char> {
    "{"@ + start + ".."@ + end + "}"@
}

/// A whole-number leaf.
pub open spec fn count_line(v: SweepableValue<u32>) -> Seq<char> {
    match v {
        SweepableValue::Fixed(n) => digits(n as nat),
        SweepableValue::Sweep { start, end, .. } => sweep_slot(
            digits(start as nat),
            digits(end as nat),
        ),
    }
}

/// A number leaf, without trailing zeros.
pub open spec fn number_line(v: SweepableValue<Decimal>) -> Seq<char> {
    match v {
        SweepableValue::Fixed(d) => normal_text(d),
        SweepableValue::Sweep { start, end, .. } => sweep_slot(normal_text(start), normal_text(end)),
    }
}

/// A fraction in percent, without trailing zeros; `None` where it does not fit.
pub open spec fn percent(d: Decimal) -> Option<Seq<char>> {
    match times(d, Decimal::of_parts(100, 0)) {
        Some(p) => Some(normal_text(p)),
        None => None,
    }
}

/// A fraction leaf in percent.
pub open spec fn percent_line(v: SweepableValue<Decimal>) -> Option<Seq<char>> {
    match v {
        SweepableValue::Fixed(d) => match percent(d) {
            Some(p) => Some(p + "%"@),
            None => None,
        },
        SweepableValue::Sweep { start, end, .. } => match (percent(start), percent(end)) {
            (Some(s), Some(e)) => Some(sweep_slot(s, e) + "%"@),
            _ => None,
        },
    }
}

// ---------------------------------------------------------------------------
// Conditions.
// ---------------------------------------------------------------------------

/// The word for a trade side.
pub open spec fn direction_word(d: Direction) -> Seq<char> {
    match d {
        Direction::Long => "long"@,
        Direction::Short => "short"@,
    }
}

/// The symbol of a comparison.
pub open spec fn comparator_symbol(op: Comparator) -> Seq<char> {
    match op {
        Comparator::Gt => ">"@,
        Comparator::Gte => ">="@,
        Comparator::Lt => "<"@,
        Comparator::Lte => "<="@,
        Comparator::Eq => "="@,
    }
}

/// An indicator as a call.
pub open spec fn indicator_call(spec: IndicatorSpec) -> Seq<char> {
    match spec {
        IndicatorSpec::Rsi { period } => "rsi("@ + count_line(period) + ")"@,
        IndicatorSpec::Ema { period } => "ema("@ + count_line(period) + ")"@,
        IndicatorSpec::Adx { period } => "adx("@ + count_line(period) + ")"@,
        IndicatorSpec::Macd { fast, slow, signal } => "macd("@ + count_line(fast) + ","@
            + count_line(slow) + ","@ + count_line(signal) + ")"@,
        IndicatorSpec::Atr { period } => "atr("@ + count_line(period) + ")"@,
    }
}

/// The word for a candle field.
pub open spec fn field_word(field: PriceField) -> Seq<char> {
    match field {
        PriceField::Open => "open"@,
        PriceField::High => "high"@,
        PriceField::Low => "low"@,
        PriceField::Close => "close"@,
        PriceField::Volume => "volume"@,
    }
}

/// A text with the mark of its series.
pub open spec fn tagged(series: Series, text: Seq<char>) -> Seq<char> {
    match series {
        Series::Primary => text,
        Series::Htf => "h4:"@ + text,
    }
}

/// An operand.
pub open spec fn operand_line(source: ValueSource) -> Seq<char> {
    match source {
        ValueSource::Constant { value } => normal_text(value),
        ValueSource::Price { series, field } => tagged(series, field_word(field)),
        ValueSource::Indicator { series, spec } => tagged(series, indicator_call(spec)),
    }
}

/// A condition.
pub open spec fn condition_line(c: ConditionView) -> Seq<char>
    decreases c,
{
    match c {
        ConditionView::Compare { lhs, op, rhs } => operand_line(lhs) + " "@ + comparator_symbol(op)
            + " "@ + operand_line(rhs),
        ConditionView::CrossesAbove { lhs, rhs } => operand_line(lhs) + " crosses above "@
            + operand_line(rhs),
        ConditionView::CrossesBelow { lhs, rhs } => operand_line(lhs) + " crosses below "@
            + operand_line(rhs),
        ConditionView::And { conditions } => joined(member_lines(conditions), " and "@),
        ConditionView::Or { conditions } => joined(member_lines(conditions), " or "@),
        ConditionView::Not { condition } => "not ("@ + condition_line(*condition) + ")"@,
    }
}

/// The members of a group, each in parentheses.
pub open spec fn member_lines(conditions: Seq<ConditionView>) -> Seq<Seq<char>>
    decreases conditions,
{
    Seq::new(
        conditions.len(),
        |i: int|
            if 0 <= i < conditions.len() {
                "("@ + condition_line(conditions[i]) + ")"@
            } else {
                arbitrary()
            },
    )
}

// ---------------------------------------------------------------------------
// Exits, risk, strategies.
// ---------------------------------------------------------------------------

/// An exit rule; `None` where a percentage does not fit.
pub open spec fn exit_line(e: ExitRuleView) -> Option<Seq<char>> {
    match e {
        ExitRuleView::StopLoss { distance_pct } => match percent_line(distance_pct) {
            Some(p) => Some("stop "@ + p),
            None => None,
        },
        ExitRuleView::TakeProfit { target_r } => Some(
            "take profit "@ + number_line(target_r) + "R"@,
        ),
        ExitRuleView::TrailingStop { trail_pct } => match percent_line(trail_pct) {
            Some(p) => Some("trailing "@ + p),
            None => None,
        },
        ExitRuleView::TimeStop { max_bars } => Some(
            "time stop "@ + count_line(max_bars) + " bars"@,
        ),
        ExitRuleView::SignalExit { condition } => Some(
            "signal exit ("@ + condition_line(condition) + ")"@,
        ),
        ExitRuleView::AtrStop { period, multiple } => Some(
            "atr("@ + count_line(period) + ")×"@ + number_line(multiple),
        ),
    }
}

/// The two lines of the risk inputs; `None` where the percentage does not fit.
pub open spec fn risk_lines(risk: RiskParams) -> Option<Seq<Seq<char>>> {
    match percent_line(risk.risk_per_trade_pct) {
        Some(p) => Some(
            seq![
                "risk "@ + p + " per trade"@,
                "max leverage "@ + number_line(risk.max_leverage) + "x"@,
            ],
        ),
        None => None,
    }
}

/// Whether every percentage of a strategy fits.
pub open spec fn percentages_fit(s: StrategyDslView) -> bool {
    &&& forall|i: int| 0 <= i < s.exits.len() ==> exit_line(#[trigger] s.exits[i]) is Some
    &&& risk_lines(s.risk) is Some
}

/// A whole strategy.
pub open spec fn strategy_lines(s: StrategyDslView) -> RenderedView {
    RenderedView {
        direction: direction_word(s.direction),
        entry: condition_line(s.entry),
        filters: s.filters.map_values(|c: ConditionView| condition_line(c)),
        exits: s.exits.map_values(|e: ExitRuleView| exit_line(e)->0),
        risk: risk_lines(s.risk)->0,
    }
}

// ---------------------------------------------------------------------------
// Rendering.
// ---------------------------------------------------------------------------

fn sweep_text(start: &str, end: &str) -> (t: String)
    ensures
        t@ == sweep_slot(start@, end@),
{
    let mut t = concat3("{", start, "..");
    t.append(end);
    t.append("}");
    t
}

fn u32_leaf(value: &SweepableValue<u32>) -> (t: String)
    ensures
        t@ == count_line(*value),
{
    match value {
        SweepableValue::Fixed(n) => u64_text(*n as u64),
        SweepableValue::Sweep { start, end, .. } => sweep_text(
            u64_text(*start as u64).as_str(),
            u64_text(*end as u64).as_str(),
        ),
    }
}

fn plain_number(d: &Decimal) -> (t: String)
    ensures
        t@ == normal_text(*d),
{
    d.normalize().to_string()
}

fn decimal_leaf(value: &SweepableValue<Decimal>) -> (t: String)
    ensures
        t@ == number_line(*value),
{
    match value {
        SweepableValue::Fixed(d) => plain_number(d),
        SweepableValue::Sweep { start, end, .. } => sweep_text(
            plain_number(start).as_str(),
            plain_number(end).as_str(),
        ),
    }
}

/// Texts that may be missing, as models.
pub open spec fn optional_text(t: Option<String>) -> Option<Seq<char>> {
    match t {
        Some(s) => Some(s@),
        None => None,
    }
}

/// Whether a text is a fraction in percent: where no digit is lost, the plain text of a
/// hundred times the fraction.
pub open spec fn is_percent(text: Seq<char>, d: Decimal) -> bool {
    multiplies_exactly(d, Decimal::of_parts(100, 0)) ==> exists|p: Decimal|
        text == #[trigger] normal_text(p) && p.units() == 100 * d.units()
}

/// Whether a text is a fixed fraction in percent behind a caption.
pub open spec fn is_percent_line(
    text: Seq<char>,
    before: Seq<char>,
    v: SweepableValue<Decimal>,
    after: Seq<char>,
) -> bool {
    v matches SweepableValue::Fixed(d) ==> exists|body: Seq<char>|
        text == #[trigger] (before + (body + "%"@) + after) && is_percent(body, d)
}

fn hundredfold(d: &Decimal) -> (t: Option<String>)
    ensures
        optional_text(t) == percent(*d),
        multiplies_exactly(*d, Decimal::of_parts(100, 0)) ==> t is Some,
        t matches Some(text) ==> is_percent(text@, *d),
{
    let hundred = Decimal::from_u64(100);
    match d.checked_mul(hundred) {
        Some(p) => {
            let text = plain_number(&p);
            proof {
                if multiplies_exactly(*d, hundred) {
                    lemma_product_units(*d, hundred, p.units());
                    lemma_pow10_positive(MAX_SCALE as nat);
                    let one = pow10(MAX_SCALE as nat);
                    let x = p.units();
                    let u = d.units();
                    assert(hundred.units() == 100 * one);
                    assert(x == 100 * u) by (nonlinear_arith)
                        requires
                            x * one == u * (100 * one),
                            one >= 1,
                    ;
                    assert(text@ == normal_text(p));
                }
            }
            Some(text)
        },
        None => None,
    }
}

fn pct_leaf(value: &SweepableValue<Decimal>) -> (t: Option<String>)
    ensures
        optional_text(t) == percent_line(*value),
        t matches Some(text) ==> (*value matches SweepableValue::Fixed(d) ==> exists|body: Seq<char>|
            text@ == #[trigger] (body + "%"@) && is_percent(body, d)),
{
    match value {
        SweepableValue::Fixed(d) => match hundredfold(d) {
            Some(p) => {
                let text = concat2(p.as_str(), "%");
                assert(text@ == p@ + "%"@ && is_percent(p@, *d));
                Some(text)
            },
            None => None,
        },
        SweepableValue::Sweep { start, end, .. } => match (hundredfold(start), hundredfold(end)) {
            (Some(s), Some(e)) => Some(
                concat2(sweep_text(s.as_str(), e.as_str()).as_str(), "%"),
            ),
            _ => None,
        },
    }
}

/// The trade side as a word.
pub fn direction(d: Direction) -> (t: &'static str)
    ensures
        t@ == direction_word(d),
{
    match d {
        Direction::Long => "long",
        Direction::Short => "short",
    }
}

/// An indicator as a call, such as `rsi(14)`.
pub fn indicator(spec: &IndicatorSpec) -> (t: String)
    ensures
        t@ == indicator_call(*spec),
{
    match spec {
        IndicatorSpec::Rsi { period } => concat3("rsi(", u32_leaf(period).as_str(), ")"),
        IndicatorSpec::Ema { period } => concat3("ema(", u32_leaf(period).as_str(), ")"),
        IndicatorSpec::Adx { period } => concat3("adx(", u32_leaf(period).as_str(), ")"),
        IndicatorSpec::Macd { fast, slow, signal } => {
            let mut t = concat3("macd(", u32_leaf(fast).as_str(), ",");
            t.append(u32_leaf(slow).as_str());
            t.append(",");
            t.append(u32_leaf(signal).as_str());
            t.append(")");
            t
        },
        IndicatorSpec::Atr { period } => concat3("atr(", u32_leaf(period).as_str(), ")"),
    }
}

fn series_tag(series: Series, text: &str) -> (t: String)
    ensures
        t@ == tagged(series, text@),
{
    match series {
        Series::Primary => text.to_owned(),
        Series::Htf => concat2("h4:", text),
    }
}

/// An operand: a number, a candle field, or an indicator.
pub fn value(source: &ValueSource) -> (t: String)
    ensures
        t@ == operand_line(*source),
{
    match source {
        ValueSource::Constant { value } => plain_number(value),
        ValueSource::Price { series, field } => series_tag(
            *series,
            match field {
                PriceField::Open => "open",
                PriceField::High => "high",
                PriceField::Low => "low",
                PriceField::Close => "close",
                PriceField::Volume => "volume",
            },
        ),
        ValueSource::Indicator { series, spec } => series_tag(*series, indicator(spec).as_str()),
    }
}

/// The symbol of a comparison.
pub fn comparator(op: Comparator) -> (t: &'static str)
    ensures
        t@ == comparator_symbol(op),
{
    match op {
        Comparator::Gt => ">",
        Comparator::Gte => ">=",
        Comparator::Lt => "<",
        Comparator::Lte => "<=",
        Comparator::Eq => "=",
    }
}

fn group(conditions: &Vec<Condition>, separator: &str) -> (t: String)
    ensures
        t@ == joined(member_lines(condition_views(conditions@)), separator@),
    decreases conditions,
{
    let ghost views = condition_views(conditions@);
    let n = conditions.len();
    let mut texts: Vec<String> = Vec::new();
    for i in 0..n
        invariant
            n == conditions.len(),
            views == condition_views(conditions@),
            texts.len() == i,
            forall|j: int|
                0 <= j < i ==> (#[trigger] texts@[j])@ == "("@ + condition_line(views[j]) + ")"@,
    {
        assert(views[i as int] == conditions@[i as int]@);
        let t = concat3("(", condition(&conditions[i]).as_str(), ")");
        texts.push(t);
    }
    assert(contents(texts@) =~= member_lines(views));
    join(&texts, separator)
}

/// A condition on one line.
pub fn condition(c: &Condition) -> (t: String)
    ensures
        t@ == condition_line(c@),
    decreases c,
{
    match c {
        Condition::Compare { lhs, op, rhs } => {
            let mut t = concat3(value(lhs).as_str(), " ", comparator(*op));
            t.append(" ");
            t.append(value(rhs).as_str());
            t
        },
        Condition::CrossesAbove { lhs, rhs } => concat3(
            value(lhs).as_str(),
            " crosses above ",
            value(rhs).as_str(),
        ),
        Condition::CrossesBelow { lhs, rhs } => concat3(
            value(lhs).as_str(),
            " crosses below ",
            value(rhs).as_str(),
        ),
        Condition::And { conditions } => group(conditions, " and "),
        Condition::Or { conditions } => group(conditions, " or "),
        Condition::Not { condition } => concat3(
            "not (",
            self::condition(&**condition).as_str(),
            ")",
        ),
    }
}

/// A percentage between two captions.
proof fn lemma_percent_line(
    text: Seq<char>,
    before: Seq<char>,
    line: Seq<char>,
    v: SweepableValue<Decimal>,
    after: Seq<char>,
)
    requires
        text == before + line + after || after.len() == 0 && text == before + line,
        v matches SweepableValue::Fixed(d) ==> exists|body: Seq<char>|
            line == #[trigger] (body + "%"@) && is_percent(body, d),
    ensures
        is_percent_line(text, before, v, after),
{
    if let SweepableValue::Fixed(d) = v {
        let body = choose|body: Seq<char>|
            line == #[trigger] (body + "%"@) && is_percent(body, d);
        if after.len() == 0 {
            assert(before + line + after =~= before + line);
        }
        assert(text == before + (body + "%"@) + after);
    }
}

fn exit_text(rule: &ExitRule) -> (t: Option<String>)
    ensures
        optional_text(t) == exit_line(rule@),
        t matches Some(text) ==> (rule@ matches ExitRuleView::StopLoss { distance_pct }
            ==> is_percent_line(text@, "stop "@, distance_pct, Seq::empty())),
        t matches Some(text) ==> (rule@ matches ExitRuleView::TrailingStop { trail_pct }
            ==> is_percent_line(text@, "trailing "@, trail_pct, Seq::empty())),
{
    match rule {
        ExitRule::StopLoss { distance_pct } => match pct_leaf(distance_pct) {
            Some(p) => {
                let text = concat2("stop ", p.as_str());
                proof {
                    lemma_percent_line(text@, "stop "@, p@, *distance_pct, Seq::empty());
                }
                Some(text)
            },
            None => None,
        },
        ExitRule::TakeProfit { target_r } => Some(
            concat3("take profit ", decimal_leaf(target_r).as_str(), "R"),
        ),
        ExitRule::TrailingStop { trail_pct } => match pct_leaf(trail_pct) {
            Some(p) => {
                let text = concat2("trailing ", p.as_str());
                proof {
                    lemma_percent_line(text@, "trailing "@, p@, *trail_pct, Seq::empty());
                }
                Some(text)
            },
            None => None,
        },
        ExitRule::TimeStop { max_bars } => Some(
            concat3("time stop ", u32_leaf(max_bars).as_str(), " bars"),
        ),
        ExitRule::SignalExit { condition } => Some(
            concat3("signal exit (", self::condition(condition).as_str(), ")"),
        ),
        ExitRule::AtrStop { period, multiple } => {
            let mut t = concat3("atr(", u32_leaf(period).as_str(), ")×");
            t.append(decimal_leaf(multiple).as_str());
            Some(t)
        },
    }
}

/// An exit rule on one line.
pub fn exit(rule: &ExitRule) -> (t: String)
    requires
        exit_line(rule@) is Some,
    ensures
        exit_line(rule@) == Some(t@),
        rule@ matches ExitRuleView::StopLoss { distance_pct } ==> is_percent_line(
            t@,
            "stop "@,
            distance_pct,
            Seq::empty(),
        ),
        rule@ matches ExitRuleView::TrailingStop { trail_pct } ==> is_percent_line(
            t@,
            "trailing "@,
            trail_pct,
            Seq::empty(),
        ),
{
    match exit_text(rule) {
        Some(t) => t,
        None => String::new(),
    }
}

/// An exit rule on one line; `None` where a percentage does not fit.
pub fn checked_exit(rule: &ExitRule) -> (t: Option<String>)
    ensures
        optional_text(t) == exit_line(rule@),
        t matches Some(text) ==> (rule@ matches ExitRuleView::StopLoss { distance_pct }
            ==> is_percent_line(text@, "stop "@, distance_pct, Seq::empty())),
        t matches Some(text) ==> (rule@ matches ExitRuleView::TrailingStop { trail_pct }
            ==> is_percent_line(text@, "trailing "@, trail_pct, Seq::empty())),
{
    match exit_text(rule) {
        Some(_) => Some(exit(rule)),
        None => None,
    }
}

/// Lines that may be missing, as models.
pub open spec fn optional_lines(t: Option<Vec<String>>) -> Option<Seq<Seq<char>>> {
    match t {
        Some(lines) => Some(contents(lines@)),
        None => None,
    }
}

fn risk_text(risk: &RiskParams) -> (t: Option<Vec<String>>)
    ensures
        optional_lines(t) == risk_lines(*risk),
        t matches Some(lines) ==> lines@.len() == 2 && is_percent_line(
            lines@[0]@,
            "risk "@,
            risk.risk_per_trade_pct,
            " per trade"@,
        ),
{
    match pct_leaf(&risk.risk_per_trade_pct) {
        Some(p) => {
            let mut lines: Vec<String> = Vec::new();
            lines.push(concat3("risk ", p.as_str(), " per trade"));
            lines.push(concat3("max leverage ", decimal_leaf(&risk.max_leverage).as_str(), "x"));
            assert(contents(lines@) =~= risk_lines(*risk)->0);
            proof {
                lemma_percent_line(
                    lines@[0]@,
                    "risk "@,
                    p@,
                    risk.risk_per_trade_pct,
                    " per trade"@,
                );
            }
            Some(lines)
        },
        None => None,
    }
}

/// The risk inputs, one line each.
pub fn risk(params: &RiskParams) -> (t: Vec<String>)
    requires
        risk_lines(*params) is Some,
    ensures
        risk_lines(*params) == Some(contents(t@)),
        t@.len() == 2,
        is_percent_line(t@[0]@, "risk "@, params.risk_per_trade_pct, " per trade"@),
{
    match risk_text(params) {
        Some(t) => t,
        None => Vec::new(),
    }
}

/// The risk inputs, one line each; `None` where the percentage does not fit.
pub fn checked_risk(params: &RiskParams) -> (t: Option<Vec<String>>)
    ensures
        optional_lines(t) == risk_lines(*params),
{
    match risk_text(params) {
        Some(_) => Some(risk(params)),
        None => None,
    }
}

/// A whole strategy.
pub fn strategy(dsl: &StrategyDsl) -> (r: Rendered)
    requires
        percentages_fit(dsl@),
    ensures
        r@ == strategy_lines(dsl@),
{
    let ghost view = dsl@;
    let mut filters: Vec<String> = Vec::new();
    for i in 0..dsl.filters.len()
        invariant
            view == dsl@,
            filters.len() == i,
            forall|j: int|
                0 <= j < i ==> (#[trigger] filters@[j])@ == condition_line(view.filters[j]),
    {
        assert(view.filters[i as int] == dsl.filters@[i as int]@);
        let t = condition(&dsl.filters[i]);
        filters.push(t);
    }
    let mut exits: Vec<String> = Vec::new();
    for i in 0..dsl.exits.len()
        invariant
            view == dsl@,
            percentages_fit(view),
            exits.len() == i,
            forall|j: int|
                0 <= j < i ==> (#[trigger] exits@[j])@ == exit_line(view.exits[j])->0,
    {
        assert(view.exits[i as int] == dsl.exits@[i as int]@);
        let t = exit(&dsl.exits[i]);
        exits.push(t);
    }
    let r = Rendered {
        direction: direction(dsl.direction).to_owned(),
        entry: condition(&dsl.entry),
        filters,
        exits,
        risk: risk(&dsl.risk),
    };
    assert(r@.filters =~= strategy_lines(view).filters);
    assert(r@.exits =~= strategy_lines(view).exits);
    r
}

/// A whole strategy; `None` where a percentage does not fit.
pub fn checked_strategy(dsl: &StrategyDsl) -> (r: Option<Rendered>)
    ensures
        r is Some <==> percentages_fit(dsl@),
        r matches Some(rendered) ==> rendered@ == strategy_lines(dsl@),
{
    let ghost view = dsl@;
    for i in 0..dsl.exits.len()
        invariant
            view == dsl@,
            forall|j: int| 0 <= j < i ==> exit_line(#[trigger] view.exits[j]) is Some,
    {
        assert(view.exits[i as int] == dsl.exits@[i as int]@);
        if checked_exit(&dsl.exits[i]).is_none() {
            assert(exit_line(view.exits[i as int]) is None);
            return None;
        }
    }
    if checked_risk(&dsl.risk).is_none() {
        return None;
    }
    Some(strategy(dsl))
}

// ---------------------------------------------------------------------------
// Laws.
// ---------------------------------------------------------------------------

/// The words of the language: each side, field, comparison and indicator has its own.
pub proof fn law_every_word_has_one_meaning(
    period: SweepableValue<u32>,
    fast: SweepableValue<u32>,
    slow: SweepableValue<u32>,
    signal: SweepableValue<u32>,
)
    ensures
        direction_word(Direction::Long) == "long"@,
        direction_word(Direction::Short) == "short"@,
        field_word(PriceField::Open) == "open"@,
        field_word(PriceField::High) == "high"@,
        field_word(PriceField::Low) == "low"@,
        field_word(PriceField::Close) == "close"@,
        field_word(PriceField::Volume) == "volume"@,
        comparator_symbol(Comparator::Gt) == ">"@,
        comparator_symbol(Comparator::Gte) == ">="@,
        comparator_symbol(Comparator::Lt) == "<"@,
        comparator_symbol(Comparator::Lte) == "<="@,
        comparator_symbol(Comparator::Eq) == "="@,
        indicator_call(IndicatorSpec::Rsi { period }) == "rsi("@ + count_line(period) + ")"@,
        indicator_call(IndicatorSpec::Ema { period }) == "ema("@ + count_line(period) + ")"@,
        indicator_call(IndicatorSpec::Adx { period }) == "adx("@ + count_line(period) + ")"@,
        indicator_call(IndicatorSpec::Atr { period }) == "atr("@ + count_line(period) + ")"@,
        indicator_call(IndicatorSpec::Macd { fast, slow, signal }) == "macd("@ + count_line(fast)
            + ","@ + count_line(slow) + ","@ + count_line(signal) + ")"@,
{
}

/// The lines of leaves, operands and conditions: a number is its plain text, a sweep its two
/// ends, an operand of the higher timeframe is marked, a comparison stands between its
/// operands in their order, and the members of a group stand in theirs.
pub proof fn law_lines_of_conditions(
    lhs: ValueSource,
    rhs: ValueSource,
    op: Comparator,
    conditions: Seq<ConditionView>,
    i: int,
    n: u32,
    m: u32,
    k: u32,
    d: Decimal,
    field: PriceField,
    spec: IndicatorSpec,
)
    ensures
        count_line(SweepableValue::Fixed(n)) == digits(n as nat),
        count_line(SweepableValue::Sweep { start: n, end: m, step: k }) == "{"@ + digits(n as nat)
            + ".."@ + digits(m as nat) + "}"@,
        number_line(SweepableValue::Fixed(d)) == normal_text(d),
        operand_line(ValueSource::Constant { value: d }) == normal_text(d),
        operand_line(ValueSource::Price { series: Series::Primary, field }) == field_word(field),
        operand_line(ValueSource::Price { series: Series::Htf, field }) == "h4:"@ + field_word(
            field,
        ),
        operand_line(ValueSource::Indicator { series: Series::Primary, spec }) == indicator_call(
            spec,
        ),
        operand_line(ValueSource::Indicator { series: Series::Htf, spec }) == "h4:"@
            + indicator_call(spec),
        condition_line(ConditionView::Compare { lhs, op, rhs }) == operand_line(lhs) + " "@
            + comparator_symbol(op) + " "@ + operand_line(rhs),
        condition_line(ConditionView::CrossesAbove { lhs, rhs }) == operand_line(lhs)
            + " crosses above "@ + operand_line(rhs),
        condition_line(ConditionView::CrossesBelow { lhs, rhs }) == operand_line(lhs)
            + " crosses below "@ + operand_line(rhs),
        condition_line(ConditionView::And { conditions }) == joined(
            member_lines(conditions),
            " and "@,
        ),
        condition_line(ConditionView::Or { conditions }) == joined(
            member_lines(conditions),
            " or "@,
        ),
        member_lines(conditions).len() == conditions.len(),
        0 <= i < conditions.len() ==> member_lines(conditions)[i] == "("@ + condition_line(
            conditions[i],
        ) + ")"@,
        0 <= i < conditions.len() ==> condition_line(
            ConditionView::Not { condition: Box::new(conditions[i]) },
        ) == "not ("@ + condition_line(conditions[i]) + ")"@,
{
    reveal_with_fuel(condition_line, 2);
}

/// The lines of exits that hold no percentage, and of the leverage.
pub proof fn law_lines_of_exits(
    number: SweepableValue<Decimal>,
    period: SweepableValue<u32>,
    condition: ConditionView,
    risk: RiskParams,
)
    ensures
        exit_line(ExitRuleView::TakeProfit { target_r: number }) == Some(
            "take profit "@ + number_line(number) + "R"@,
        ),
        exit_line(ExitRuleView::TimeStop { max_bars: period }) == Some(
            "time stop "@ + count_line(period) + " bars"@,
        ),
        exit_line(ExitRuleView::SignalExit { condition }) == Some(
            "signal exit ("@ + condition_line(condition) + ")"@,
        ),
        exit_line(ExitRuleView::AtrStop { period, multiple: number }) == Some(
            "atr("@ + count_line(period) + ")×"@ + number_line(number),
        ),
        risk_lines(risk) is Some ==> risk_lines(risk)->0[1] == "max leverage "@ + number_line(
            risk.max_leverage,
        ) + "x"@,
{
}

/// A rendered strategy has one line for every part, in the order of the document.
pub proof fn law_every_part_has_a_line(s: StrategyDslView, i: int, j: int)
    ensures
        strategy_lines(s).direction == direction_word(s.direction),
        strategy_lines(s).entry == condition_line(s.entry),
        strategy_lines(s).filters.len() == s.filters.len(),
        0 <= i < s.filters.len() ==> strategy_lines(s).filters[i] == condition_line(s.filters[i]),
        strategy_lines(s).exits.len() == s.exits.len(),
        0 <= j < s.exits.len() && exit_line(s.exits[j]) is Some ==> Some(
            strategy_lines(s).exits[j],
        ) == exit_line(s.exits[j]),
        risk_lines(s.risk) is Some ==> Some(strategy_lines(s).risk) == risk_lines(s.risk),
{
}

} // verus!
