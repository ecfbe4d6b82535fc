//! Which operands a document reads decides whether it compiles and what it requires.
use crate::domain::dsl::compile::{
    compiled_condition, compiled_conditions, compiled_strategy, condition_htf, condition_indicators,
    condition_uses_htf, exit_indicators, exits_indicators, exits_refusal, first_occurrences,
    law_first_occurrences, members_htf, members_indicators, operands_htf, strategy_indicators,
    strategy_refusal, value_indicators, CompileErrorView,
};
use crate::domain::dsl::condition::ConditionView;
use crate::domain::dsl::exit::ExitRuleView;
use crate::domain::dsl::rules::{read_in, reads};
use crate::domain::dsl::strategy::StrategyDslView;
use crate::domain::dsl::validate::{member_path, valid_exit, valid_strategy};
use crate::domain::dsl::value::{IndicatorSpec, Series, ValueSource};
use vstd::prelude::*;

verus! {

/// Whether an operand reads the higher timeframe.
pub open spec fn is_htf(v: ValueSource) -> bool {
    ||| v matches ValueSource::Price { series, .. } && series == Series::Htf
    ||| v matches ValueSource::Indicator { series, .. } && series == Series::Htf
}

proof fn lemma_condition_htf_iff(c: ConditionView, path: Seq<char>)
    ensures
        condition_htf(c, path) is Some <==> exists|v: ValueSource| #[trigger]
            reads(c, v) && is_htf(v),
    decreases c, 0nat,
{
    match c {
        ConditionView::Compare { lhs, op, rhs } => {
            assert(reads(c, lhs) && reads(c, rhs));
        },
        ConditionView::CrossesAbove { lhs, rhs } => {
            assert(reads(c, lhs) && reads(c, rhs));
        },
        ConditionView::CrossesBelow { lhs, rhs } => {
            assert(reads(c, lhs) && reads(c, rhs));
        },
        ConditionView::And { conditions } => {
            lemma_members_htf_iff(conditions, path + ".and["@, conditions.len());
            lemma_group_reads(c, conditions);
        },
        ConditionView::Or { conditions } => {
            lemma_members_htf_iff(conditions, path + ".or["@, conditions.len());
            lemma_group_reads(c, conditions);
        },
        ConditionView::Not { condition } => {
            lemma_condition_htf_iff(*condition, path + ".not"@);
            assert forall|v: ValueSource| #[trigger] reads(c, v) == reads(*condition, v) by {}
            if exists|v: ValueSource| #[trigger] reads(*condition, v) && is_htf(v) {
                let v = choose|v: ValueSource| #[trigger] reads(*condition, v) && is_htf(v);
                assert(reads(c, v));
            }
        },
    }
}

/// What a group reads of the higher timeframe, a member reads.
proof fn lemma_group_reads(c: ConditionView, conditions: Seq<ConditionView>)
    requires
        c == (ConditionView::And { conditions }) || c == (ConditionView::Or { conditions }),
    ensures
        forall|v: ValueSource| #[trigger]
            reads(c, v) <==> exists|i: int|
                0 <= i < conditions.len() && reads(#[trigger] conditions[i], v),
        (exists|v: ValueSource| #[trigger] reads(c, v) && is_htf(v)) <==> exists|i: int|
            0 <= i < conditions.len() && htf_inside(#[trigger] conditions[i]),
{
    if exists|v: ValueSource| #[trigger] reads(c, v) && is_htf(v) {
        let v = choose|v: ValueSource| #[trigger] reads(c, v) && is_htf(v);
        let i = choose|i: int| 0 <= i < conditions.len() && reads(#[trigger] conditions[i], v);
        assert(htf_inside(conditions[i]));
    }
    if exists|i: int| 0 <= i < conditions.len() && htf_inside(#[trigger] conditions[i]) {
        let i = choose|i: int| 0 <= i < conditions.len() && htf_inside(#[trigger] conditions[i]);
        let v = choose|v: ValueSource| #[trigger] reads(conditions[i], v) && is_htf(v);
        match c {
            ConditionView::And { conditions: members } => assert(reads(members[i], v)),
            ConditionView::Or { conditions: members } => assert(reads(members[i], v)),
            _ => {},
        }
        assert(reads(c, v));
    }
}

/// Whether a condition reads the higher timeframe.
pub open spec fn htf_inside(c: ConditionView) -> bool {
    exists|v: ValueSource| #[trigger] reads(c, v) && is_htf(v)
}

proof fn lemma_members_htf_iff(conditions: Seq<ConditionView>, stem: Seq<char>, n: nat)
    requires
        n <= conditions.len(),
    ensures
        members_htf(conditions, stem, n) is Some <==> exists|i: int|
            0 <= i < n && htf_inside(#[trigger] conditions[i]),
    decreases conditions, n,
{
    if n > 0 {
        let m = (n - 1) as nat;
        lemma_members_htf_iff(conditions, stem, m);
        lemma_condition_htf_iff(conditions[n - 1], member_path(stem, m));
        if htf_inside(conditions[n - 1]) {
            assert(htf_inside(conditions[n - 1]));
        }
    }
}

proof fn lemma_exits_htf_iff(exits: Seq<ExitRuleView>, n: nat)
    requires
        n <= exits.len(),
        forall|i: int| 0 <= i < exits.len() ==> valid_exit(#[trigger] exits[i]),
    ensures
        exits_refusal(exits, n) is Some <==> exists|i: int|
            0 <= i < n && ((#[trigger] exits[i]) matches ExitRuleView::SignalExit { condition }
                && htf_inside(condition)),
        exits_refusal(exits, n) matches Some(e) ==> e is HtfUnsupported,
    decreases n,
{
    if n > 0 {
        let m = (n - 1) as nat;
        let base = member_path("exits["@, m);
        lemma_exits_htf_iff(exits, m);
        assert(valid_exit(exits[n - 1]));
        if let ExitRuleView::SignalExit { condition } = exits[n - 1] {
            lemma_condition_htf_iff(condition, base + ".condition"@);
            if htf_inside(condition) {
                assert(exits[n - 1] matches ExitRuleView::SignalExit { condition } && htf_inside(
                    condition,
                ));
            }
        }
    }
}

/// A valid document compiles exactly where no operand of it reads the higher timeframe,
/// and is refused for that alone.
pub proof fn law_refused_iff_it_reads_the_higher_timeframe(dsl: StrategyDslView)
    requires
        valid_strategy(dsl),
    ensures
        strategy_refusal(dsl) is Some <==> exists|v: ValueSource| #[trigger]
            read_in(v, dsl) && is_htf(v),
        strategy_refusal(dsl) matches Some(e) ==> e is HtfUnsupported,
{
    lemma_condition_htf_iff(dsl.entry, "entry"@);
    lemma_members_htf_iff(dsl.filters, "filters["@, dsl.filters.len());
    lemma_exits_htf_iff(dsl.exits, dsl.exits.len());
    if htf_inside(dsl.entry) {
        let v = choose|v: ValueSource| #[trigger] reads(dsl.entry, v) && is_htf(v);
        assert(read_in(v, dsl));
    }
    if exists|i: int| 0 <= i < dsl.filters.len() && htf_inside(#[trigger] dsl.filters[i]) {
        let i = choose|i: int| 0 <= i < dsl.filters.len() && htf_inside(#[trigger] dsl.filters[i]);
        let v = choose|v: ValueSource| #[trigger] reads(dsl.filters[i], v) && is_htf(v);
        assert(read_in(v, dsl));
    }
    if exists|i: int|
        0 <= i < dsl.exits.len() && ((#[trigger] dsl.exits[i]) matches ExitRuleView::SignalExit {
            condition,
        } && htf_inside(condition)) {
        let i = choose|i: int|
            0 <= i < dsl.exits.len() && ((
            #[trigger] dsl.exits[i]) matches ExitRuleView::SignalExit { condition } && htf_inside(
                condition,
            ));
        let condition = dsl.exits[i]->SignalExit_condition;
        let v = choose|v: ValueSource| #[trigger] reads(condition, v) && is_htf(v);
        assert(read_in(v, dsl));
    }
    if exists|v: ValueSource| #[trigger] read_in(v, dsl) && is_htf(v) {
        let v = choose|v: ValueSource| #[trigger] read_in(v, dsl) && is_htf(v);
        if reads(dsl.entry, v) {
            assert(htf_inside(dsl.entry));
        } else if exists|i: int| 0 <= i < dsl.filters.len() && reads(#[trigger] dsl.filters[i], v) {
            let i = choose|i: int| 0 <= i < dsl.filters.len() && reads(#[trigger] dsl.filters[i], v);
            assert(htf_inside(dsl.filters[i]));
        } else {
            let i = choose|i: int|
                0 <= i < dsl.exits.len() && ((
                #[trigger] dsl.exits[i]) matches ExitRuleView::SignalExit { condition } && reads(
                    condition,
                    v,
                ));
            assert(htf_inside(dsl.exits[i]->SignalExit_condition));
        }
    }
}

/// A refused document is named by an operand that reads the higher timeframe: the first
/// one, the entry before the filters and these before the exits, a left operand before
/// the right one, an earlier member of a list before a later one.
pub proof fn law_refusals_name_the_first_operand(
    dsl: StrategyDslView,
    lhs: ValueSource,
    rhs: ValueSource,
    conditions: Seq<ConditionView>,
    path: Seq<char>,
    i: int,
)
    ensures
        htf_inside(dsl.entry) ==> strategy_refusal(dsl) == Some(
            CompileErrorView::HtfUnsupported { field: condition_htf(dsl.entry, "entry"@)->0 },
        ),
        is_htf(lhs) ==> operands_htf(lhs, rhs, path) == Some(path + ".lhs"@),
        !is_htf(lhs) && is_htf(rhs) ==> operands_htf(lhs, rhs, path) == Some(path + ".rhs"@),
        !is_htf(lhs) && !is_htf(rhs) ==> operands_htf(lhs, rhs, path) is None,
        0 <= i < conditions.len() && htf_inside(conditions[i]) && (forall|j: int|
            0 <= j < i ==> !htf_inside(#[trigger] conditions[j])) ==> members_htf(
            conditions,
            path,
            conditions.len(),
        ) == condition_htf(conditions[i], member_path(path, i as nat)),
{
    lemma_condition_htf_iff(dsl.entry, "entry"@);
    if 0 <= i < conditions.len() && htf_inside(conditions[i]) && (forall|j: int|
        0 <= j < i ==> !htf_inside(#[trigger] conditions[j])) {
        lemma_members_htf_iff(conditions, path, i as nat);
        lemma_condition_htf_iff(conditions[i], member_path(path, i as nat));
        lemma_first_stays(conditions, path, (i + 1) as nat, conditions.len());
    }
}

proof fn lemma_first_stays(conditions: Seq<ConditionView>, stem: Seq<char>, i: nat, n: nat)
    requires
        i <= n <= conditions.len(),
        members_htf(conditions, stem, i) is Some,
    ensures
        members_htf(conditions, stem, n) == members_htf(conditions, stem, i),
    decreases n,
{
    if i < n {
        lemma_first_stays(conditions, stem, i, (n - 1) as nat);
    }
}

// ---------------------------------------------------------------------------
// Indicators.
// ---------------------------------------------------------------------------

proof fn lemma_contains_concat(a: Seq<IndicatorSpec>, b: Seq<IndicatorSpec>, x: IndicatorSpec)
    ensures
        (a + b).contains(x) <==> a.contains(x) || b.contains(x),
{
    let c = a + b;
    if a.contains(x) {
        let k = choose|k: int| 0 <= k < a.len() && a[k] == x;
        assert(c[k] == x);
    }
    if b.contains(x) {
        let k = choose|k: int| 0 <= k < b.len() && b[k] == x;
        assert(c[a.len() + k] == x);
    }
    if c.contains(x) {
        let k = choose|k: int| 0 <= k < c.len() && c[k] == x;
        if k < a.len() {
            assert(a[k] == x);
        } else {
            assert(b[k - a.len()] == x);
        }
    }
}

proof fn lemma_value_has(v: ValueSource, on: Series, x: IndicatorSpec)
    ensures
        value_indicators(v, on).contains(x) <==> v == (ValueSource::Indicator {
            series: on,
            spec: x,
        }),
{
    if v == (ValueSource::Indicator { series: on, spec: x }) {
        assert(value_indicators(v, on)[0] == x);
    }
}

proof fn lemma_condition_has(c: ConditionView, on: Series, x: IndicatorSpec)
    ensures
        condition_indicators(c, on).contains(x) <==> reads(
            c,
            (ValueSource::Indicator { series: on, spec: x }),
        ),
    decreases c, 0nat,
{
    match c {
        ConditionView::Compare { lhs, op, rhs } => {
            lemma_value_has(lhs, on, x);
            lemma_value_has(rhs, on, x);
            lemma_contains_concat(value_indicators(lhs, on), value_indicators(rhs, on), x);
        },
        ConditionView::CrossesAbove { lhs, rhs } => {
            lemma_value_has(lhs, on, x);
            lemma_value_has(rhs, on, x);
            lemma_contains_concat(value_indicators(lhs, on), value_indicators(rhs, on), x);
        },
        ConditionView::CrossesBelow { lhs, rhs } => {
            lemma_value_has(lhs, on, x);
            lemma_value_has(rhs, on, x);
            lemma_contains_concat(value_indicators(lhs, on), value_indicators(rhs, on), x);
        },
        ConditionView::And { conditions } => {
            lemma_members_have(conditions, on, x, conditions.len());
            lemma_group_reads(c, conditions);
        },
        ConditionView::Or { conditions } => {
            lemma_members_have(conditions, on, x, conditions.len());
            lemma_group_reads(c, conditions);
        },
        ConditionView::Not { condition } => lemma_condition_has(*condition, on, x),
    }
}

proof fn lemma_members_have(
    conditions: Seq<ConditionView>,
    on: Series,
    x: IndicatorSpec,
    n: nat,
)
    requires
        n <= conditions.len(),
    ensures
        members_indicators(conditions, on, n).contains(x) <==> exists|i: int|
            0 <= i < n && reads(
                #[trigger] conditions[i],
                (ValueSource::Indicator { series: on, spec: x }),
            ),
    decreases conditions, n,
{
    if n > 0 {
        let m = (n - 1) as nat;
        let v = ValueSource::Indicator { series: on, spec: x };
        lemma_members_have(conditions, on, x, m);
        lemma_condition_has(conditions[n - 1], on, x);
        lemma_contains_concat(
            members_indicators(conditions, on, m),
            condition_indicators(conditions[n - 1], on),
            x,
        );
        if reads(conditions[n - 1], v) {
            assert(reads(conditions[n - 1], v));
        }
    }
}

/// Whether an exit rule needs an indicator of a series: its condition reads it, or the rule
/// is a stop by that average true range, on the primary series.
pub open spec fn exit_needs(e: ExitRuleView, on: Series, x: IndicatorSpec) -> bool {
    ||| e matches ExitRuleView::SignalExit { condition } && reads(
        condition,
        (ValueSource::Indicator { series: on, spec: x }),
    )
    ||| e matches ExitRuleView::AtrStop { period, .. } && on == Series::Primary && period is Fixed
        && x == (IndicatorSpec::Atr { period })
}

proof fn lemma_exits_have(exits: Seq<ExitRuleView>, on: Series, x: IndicatorSpec, n: nat)
    requires
        n <= exits.len(),
    ensures
        exits_indicators(exits, on, n).contains(x) <==> exists|i: int|
            0 <= i < n && exit_needs(#[trigger] exits[i], on, x),
    decreases n,
{
    if n > 0 {
        let m = (n - 1) as nat;
        let e = exits[n - 1];
        lemma_exits_have(exits, on, x, m);
        lemma_contains_concat(exits_indicators(exits, on, m), exit_indicators(e, on), x);
        match e {
            ExitRuleView::SignalExit { condition } => lemma_condition_has(condition, on, x),
            ExitRuleView::AtrStop { period, .. } => {
                if on == Series::Primary && period is Fixed {
                    assert(exit_indicators(e, on)[0] == (IndicatorSpec::Atr { period }));
                }
            },
            _ => {},
        }
        assert(exit_indicators(e, on).contains(x) <==> exit_needs(e, on, x));
    }
}

proof fn lemma_strategy_has(dsl: StrategyDslView, on: Series, x: IndicatorSpec)
    ensures
        strategy_indicators(dsl, on).contains(x) <==> {
            ||| read_in(ValueSource::Indicator { series: on, spec: x }, dsl)
            ||| exists|i: int|
                0 <= i < dsl.exits.len() && ((#[trigger] dsl.exits[i]) matches ExitRuleView::AtrStop {
                    period,
                    ..
                } && on == Series::Primary && period is Fixed && x == (IndicatorSpec::Atr {
                    period,
                }))
        },
{
    let entry = condition_indicators(dsl.entry, on);
    let filters = members_indicators(dsl.filters, on, dsl.filters.len());
    let exits = exits_indicators(dsl.exits, on, dsl.exits.len());
    lemma_condition_has(dsl.entry, on, x);
    lemma_members_have(dsl.filters, on, x, dsl.filters.len());
    lemma_exits_have(dsl.exits, on, x, dsl.exits.len());
    lemma_contains_concat(entry, filters, x);
    lemma_contains_concat(entry + filters, exits, x);
    if exists|i: int| 0 <= i < dsl.exits.len() && exit_needs(#[trigger] dsl.exits[i], on, x) {
        let i = choose|i: int| 0 <= i < dsl.exits.len() && exit_needs(#[trigger] dsl.exits[i], on, x);
        assert(dsl.exits[i] == dsl.exits[i]);
    }
    if exists|i: int|
        0 <= i < dsl.exits.len() && ((#[trigger] dsl.exits[i]) matches ExitRuleView::SignalExit {
            condition,
        } && reads(condition, (ValueSource::Indicator { series: on, spec: x }))) {
        let i = choose|i: int|
            0 <= i < dsl.exits.len() && ((
            #[trigger] dsl.exits[i]) matches ExitRuleView::SignalExit { condition } && reads(
                condition,
                (ValueSource::Indicator { series: on, spec: x }),
            ));
        assert(exit_needs(dsl.exits[i], on, x));
    }
    if exists|i: int|
        0 <= i < dsl.exits.len() && ((#[trigger] dsl.exits[i]) matches ExitRuleView::AtrStop {
            period,
            ..
        } && on == Series::Primary && period is Fixed && x == (IndicatorSpec::Atr { period })) {
        let i = choose|i: int|
            0 <= i < dsl.exits.len() && ((#[trigger] dsl.exits[i]) matches ExitRuleView::AtrStop {
                period,
                ..
            } && on == Series::Primary && period is Fixed && x == (IndicatorSpec::Atr { period }));
        assert(exit_needs(dsl.exits[i], on, x));
    }
}

/// A compiled strategy requires exactly the indicators that some operand of the document
/// reads on the primary series and those of its stops by average true range, each once;
/// and on the higher timeframe exactly those that some operand reads there.
pub proof fn law_required_indicators_are_read(dsl: StrategyDslView, x: IndicatorSpec)
    ensures
        compiled_strategy(dsl).required_indicators.contains(x) <==> {
            ||| read_in(ValueSource::Indicator { series: Series::Primary, spec: x }, dsl)
            ||| exists|i: int|
                0 <= i < dsl.exits.len() && ((#[trigger] dsl.exits[i]) matches ExitRuleView::AtrStop {
                    period,
                    ..
                } && period is Fixed && x == (IndicatorSpec::Atr { period }))
        },
        compiled_strategy(dsl).required_htf_indicators.contains(x) <==> read_in(
            ValueSource::Indicator { series: Series::Htf, spec: x },
            dsl,
        ),
        compiled_strategy(dsl).required_indicators.no_duplicates(),
        compiled_strategy(dsl).required_htf_indicators.no_duplicates(),
{
    lemma_strategy_has(dsl, Series::Primary, x);
    lemma_strategy_has(dsl, Series::Htf, x);
    law_first_occurrences(strategy_indicators(dsl, Series::Primary));
    law_first_occurrences(strategy_indicators(dsl, Series::Htf));
}

/// What is required is required in the order in which the document first refers to it.
pub proof fn law_first_occurrences_keep_their_order(s: Seq<IndicatorSpec>, i: int, j: int)
    requires
        0 <= i < j < first_occurrences(s).len(),
    ensures
        exists|p: int|
            0 <= p < s.len() && (#[trigger] s[p]) == first_occurrences(s)[i] && !s.take(p).contains(
                first_occurrences(s)[j],
            ),
    decreases s.len(),
{
    let t = s.drop_last();
    let earlier = first_occurrences(t);
    let all = first_occurrences(s);
    law_first_occurrences(t);
    if j < earlier.len() {
        law_first_occurrences_keep_their_order(t, i, j);
        let p = choose|p: int|
            0 <= p < t.len() && (#[trigger] t[p]) == earlier[i] && !t.take(p).contains(earlier[j]);
        assert(s[p] == all[i]);
        assert(s.take(p) =~= t.take(p));
    } else {
        let x = earlier[i];
        assert(earlier.contains(x));
        assert(t.contains(x));
        assert(all == earlier.push(s.last()));
        assert(!earlier.contains(s.last()));
        let p = choose|p: int| 0 <= p < t.len() && t[p] == earlier[i];
        assert(s[p] == all[i]);
        if s.take(p).contains(all[j]) {
            let q = choose|q: int| 0 <= q < s.take(p).len() && s.take(p)[q] == all[j];
            assert(s.take(p)[q] == s[q]);
            assert(t[q] == all[j]);
            assert(t.contains(all[j]));
            assert(earlier.contains(all[j]));
        }
    }
}

proof fn lemma_members_use_htf(conditions: Seq<ConditionView>)
    ensures
        forall|i: int|
            0 <= i < conditions.len() ==> condition_uses_htf(
                #[trigger] compiled_conditions(conditions)[i],
            ) == htf_inside(conditions[i]),
    decreases conditions,
{
    assert forall|i: int| 0 <= i < conditions.len() implies condition_uses_htf(
        #[trigger] compiled_conditions(conditions)[i],
    ) == htf_inside(conditions[i]) by {
        law_compiled_condition_needs_htf(conditions[i]);
    }
}

/// A compiled condition needs the higher timeframe exactly where an operand of the
/// condition reads it.
pub proof fn law_compiled_condition_needs_htf(c: ConditionView)
    ensures
        condition_uses_htf(compiled_condition(c)) <==> exists|v: ValueSource| #[trigger]
            reads(c, v) && is_htf(v),
    decreases c,
{
    match c {
        ConditionView::Compare { lhs, op, rhs } => {
            assert(reads(c, lhs) && reads(c, rhs));
        },
        ConditionView::CrossesAbove { lhs, rhs } => {
            assert(reads(c, lhs) && reads(c, rhs));
        },
        ConditionView::CrossesBelow { lhs, rhs } => {
            assert(reads(c, lhs) && reads(c, rhs));
        },
        ConditionView::And { conditions } => {
            let all = compiled_conditions(conditions);
            lemma_members_use_htf(conditions);
            lemma_group_reads(c, conditions);
            assert(compiled_condition(c)->And_0 == all);
            if exists|i: int| 0 <= i < conditions.len() && htf_inside(#[trigger] conditions[i]) {
                let i = choose|i: int|
                    0 <= i < conditions.len() && htf_inside(#[trigger] conditions[i]);
                assert(condition_uses_htf(compiled_condition(c)->And_0[i]));
            }
            if condition_uses_htf(compiled_condition(c)) {
                let i = choose|i: int|
                    0 <= i < all.len() && condition_uses_htf(
                        #[trigger] compiled_condition(c)->And_0[i],
                    );
                assert(condition_uses_htf(all[i]));
                assert(htf_inside(conditions[i]));
            }
        },
        ConditionView::Or { conditions } => {
            let all = compiled_conditions(conditions);
            lemma_members_use_htf(conditions);
            lemma_group_reads(c, conditions);
            assert(compiled_condition(c)->Or_0 == all);
            if exists|i: int| 0 <= i < conditions.len() && htf_inside(#[trigger] conditions[i]) {
                let i = choose|i: int|
                    0 <= i < conditions.len() && htf_inside(#[trigger] conditions[i]);
                assert(condition_uses_htf(compiled_condition(c)->Or_0[i]));
            }
            if condition_uses_htf(compiled_condition(c)) {
                let i = choose|i: int|
                    0 <= i < all.len() && condition_uses_htf(
                        #[trigger] compiled_condition(c)->Or_0[i],
                    );
                assert(condition_uses_htf(all[i]));
                assert(htf_inside(conditions[i]));
            }
        },
        ConditionView::Not { condition } => {
            law_compiled_condition_needs_htf(*condition);
            assert forall|v: ValueSource| #[trigger] reads(c, v) == reads(*condition, v) by {}
            if htf_inside(*condition) {
                let v = choose|v: ValueSource| #[trigger] reads(*condition, v) && is_htf(v);
                assert(reads(c, v));
            }
        },
    }
}

} // verus!
