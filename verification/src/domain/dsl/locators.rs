//! What holds of the locators of a document's numeric leaves: no two leaves share
//! one, a write at one changes that leaf alone, and the errors of a field name the
//! field by the same locator.
use crate::domain::dsl::condition::ConditionView;
use crate::domain::dsl::exit::ExitRuleView;
use crate::domain::dsl::mutate::{
    already_holds, apply_outcome, condition_leaves, exit_leaves, exits_leaves, indicator_leaves,
    leaf_at, leaf_kind, leaf_paths, member_leaves, operand_leaves, put_condition, put_conditions,
    put_exit, put_exits, put_period, put_strategy, put_threshold, put_value,
    risk_leaves, strategy_leaves, value_kind, value_leaves, LeafValue, LeafView, MutationErrorView,
    MutationView, ParamValue,
};
use crate::domain::dsl::shape::{law_write_keeps_the_shape, shape};
use crate::domain::dsl::strategy::StrategyDslView;
use crate::domain::dsl::sweepable::SweepableValue;
use crate::domain::dsl::validate::{
    condition_errors, cross_errors, duplicate_errors, each_exit_errors, empty_group_errors,
    exit_errors, exits_errors, exits_of_kind, indicator_errors, member_errors, member_path,
    name_errors, no_exit_errors, operand_errors, risk_errors, strategy_errors,
    target_without_stop_errors, value_errors, ExclusiveExit, FieldErrorView, ValidationCode,
};
use crate::domain::dsl::value::{IndicatorSpec, ValueSource};
use crate::text::{digits, lemma_digits_are_digits, lemma_digits_injective};
use vstd::prelude::*;

verus! {

/// Whether a locator begins with a prefix.
pub open spec fn under(path: Seq<char>, prefix: Seq<char>) -> bool {
    &&& prefix.len() <= path.len()
    &&& forall|i: int| 0 <= i < prefix.len() ==> #[trigger] path[i] == prefix[i]
}

/// Whether every leaf of a list stands under a prefix.
pub open spec fn all_under(leaves: Seq<LeafView>, prefix: Seq<char>) -> bool {
    forall|i: int| 0 <= i < leaves.len() ==> under((#[trigger] leaves[i]).path, prefix)
}

/// Whether two prefixes differ within both of them.
pub open spec fn apart(a: Seq<char>, b: Seq<char>) -> bool {
    exists|k: int| 0 <= k < a.len() && k < b.len() && #[trigger] a[k] != b[k]
}

/// Whether no two leaves of a list share a locator.
pub open spec fn distinct(leaves: Seq<LeafView>) -> bool {
    forall|i: int, j: int|
        0 <= i < j < leaves.len() ==> (#[trigger] leaves[i]).path != (#[trigger] leaves[j]).path
}

proof fn lemma_under_prefix(leaves: Seq<LeafView>, a: Seq<char>, b: Seq<char>)
    requires
        all_under(leaves, a + b),
    ensures
        all_under(leaves, a),
{
    assert forall|i: int| 0 <= i < leaves.len() implies under((#[trigger] leaves[i]).path, a) by {
        assert(under(leaves[i].path, a + b));
        assert forall|k: int| 0 <= k < a.len() implies #[trigger] leaves[i].path[k] == a[k] by {
            assert((a + b)[k] == a[k]);
        }
    }
}

proof fn lemma_distinct_concat(a: Seq<LeafView>, b: Seq<LeafView>, pa: Seq<char>, pb: Seq<char>)
    requires
        distinct(a),
        distinct(b),
        all_under(a, pa),
        all_under(b, pb),
        apart(pa, pb),
    ensures
        distinct(a + b),
{
    let c = a + b;
    let k = choose|k: int| 0 <= k < pa.len() && k < pb.len() && #[trigger] pa[k] != pb[k];
    assert forall|i: int, j: int| 0 <= i < j < c.len() implies (#[trigger] c[i]).path != (
    #[trigger] c[j]).path by {
        if i < a.len() && j >= a.len() {
            assert(under(a[i].path, pa));
            assert(under(b[j - a.len()].path, pb));
            assert(a[i].path[k] == pa[k]);
            assert(b[j - a.len()].path[k] == pb[k]);
        }
    }
}

proof fn lemma_apart_suffixes(path: Seq<char>, a: Seq<char>, b: Seq<char>, k: int)
    requires
        0 <= k < a.len(),
        k < b.len(),
        a[k] != b[k],
    ensures
        apart(path + a, path + b),
{
    assert((path + a)[path.len() + k] != (path + b)[path.len() + k]);
}

/// Two members of a list have locators that differ before either ends.
proof fn lemma_members_apart(stem: Seq<char>, i: nat, j: nat)
    requires
        i != j,
    ensures
        apart(member_path(stem, i), member_path(stem, j)),
{
    reveal_strlit("]");
    lemma_digits_are_digits(i);
    lemma_digits_are_digits(j);
    let di = digits(i);
    let dj = digits(j);
    let pi = member_path(stem, i);
    let pj = member_path(stem, j);
    let s = stem.len() as int;
    assert forall|k: int| 0 <= k < di.len() implies pi[s + k] == di[k] by {}
    assert forall|k: int| 0 <= k < dj.len() implies pj[s + k] == dj[k] by {}
    assert(pi[s + di.len()] == ']');
    assert(pj[s + dj.len()] == ']');
    if di.len() < dj.len() {
        assert(pj[s + di.len()] == dj[di.len() as int]);
        assert(pi[s + di.len()] != pj[s + di.len()]);
    } else if dj.len() < di.len() {
        assert(pi[s + dj.len()] == di[dj.len() as int]);
        assert(pi[s + dj.len()] != pj[s + dj.len()]);
    } else if di =~= dj {
        lemma_digits_injective(i, j);
    } else {
        let k = choose|k: int| 0 <= k < di.len() && di[k] != dj[k];
        assert(pi[s + k] != pj[s + k]);
    }
}

proof fn lemma_indicator_distinct(spec: IndicatorSpec, path: Seq<char>)
    ensures
        distinct(indicator_leaves(spec, path)),
        all_under(indicator_leaves(spec, path), path),
{
    reveal_strlit(".macd.fast");
    reveal_strlit(".macd.slow");
    reveal_strlit(".macd.signal");
    let f = path + ".macd.fast"@;
    let s = path + ".macd.slow"@;
    let g = path + ".macd.signal"@;
    assert(f[path.len() as int + 6] == 'f');
    assert(s[path.len() as int + 6] == 's');
    assert(g[path.len() as int + 6] == 's');
    assert(s[path.len() as int + 7] == 'l');
    assert(g[path.len() as int + 7] == 'i');
}

proof fn lemma_value_distinct(v: ValueSource, path: Seq<char>)
    ensures
        distinct(value_leaves(v, path)),
        all_under(value_leaves(v, path), path),
{
    if let ValueSource::Indicator { spec, .. } = v {
        lemma_indicator_distinct(spec, path + ".indicator"@);
        lemma_under_prefix(value_leaves(v, path), path, ".indicator"@);
    }
}

proof fn lemma_operands_distinct(lhs: ValueSource, rhs: ValueSource, path: Seq<char>)
    ensures
        distinct(operand_leaves(lhs, rhs, path)),
        all_under(operand_leaves(lhs, rhs, path), path),
{
    reveal_strlit(".lhs");
    reveal_strlit(".rhs");
    let l = value_leaves(lhs, path + ".lhs"@);
    let r = value_leaves(rhs, path + ".rhs"@);
    lemma_value_distinct(lhs, path + ".lhs"@);
    lemma_value_distinct(rhs, path + ".rhs"@);
    lemma_apart_suffixes(path, ".lhs"@, ".rhs"@, 1);
    lemma_distinct_concat(l, r, path + ".lhs"@, path + ".rhs"@);
    lemma_under_prefix(l, path, ".lhs"@);
    lemma_under_prefix(r, path, ".rhs"@);
}

proof fn lemma_condition_distinct(c: ConditionView, path: Seq<char>)
    ensures
        distinct(condition_leaves(c, path)),
        all_under(condition_leaves(c, path), path),
    decreases c, 0nat,
{
    match c {
        ConditionView::Compare { lhs, op, rhs } => lemma_operands_distinct(lhs, rhs, path),
        ConditionView::CrossesAbove { lhs, rhs } => lemma_operands_distinct(lhs, rhs, path),
        ConditionView::CrossesBelow { lhs, rhs } => lemma_operands_distinct(lhs, rhs, path),
        ConditionView::And { conditions } => {
            lemma_members_distinct(conditions, path + ".and["@, conditions.len());
            lemma_under_prefix(condition_leaves(c, path), path, ".and["@);
        },
        ConditionView::Or { conditions } => {
            lemma_members_distinct(conditions, path + ".or["@, conditions.len());
            lemma_under_prefix(condition_leaves(c, path), path, ".or["@);
        },
        ConditionView::Not { condition } => {
            lemma_condition_distinct(*condition, path + ".not"@);
            lemma_under_prefix(condition_leaves(c, path), path, ".not"@);
        },
    }
}

/// Every leaf of a list of members stands under the locator of one of them.
spec fn under_members(leaves: Seq<LeafView>, stem: Seq<char>, n: nat) -> bool {
    forall|k: int|
        0 <= k < leaves.len() ==> exists|i: nat|
            i < n && under((#[trigger] leaves[k]).path, #[trigger] member_path(stem, i))
}

/// Appending the leaves of the next member keeps the locators distinct.
proof fn lemma_next_member_distinct(
    leaves: Seq<LeafView>,
    next: Seq<LeafView>,
    stem: Seq<char>,
    n: nat,
)
    requires
        distinct(leaves),
        under_members(leaves, stem, n),
        all_under(leaves, stem),
        distinct(next),
        all_under(next, member_path(stem, n)),
    ensures
        distinct(leaves + next),
        under_members(leaves + next, stem, n + 1),
        all_under(leaves + next, stem),
{
    let c = leaves + next;
    let pn = member_path(stem, n);
    assert forall|i: int, j: int| 0 <= i < j < c.len() implies (#[trigger] c[i]).path != (
    #[trigger] c[j]).path by {
        if i < leaves.len() && j >= leaves.len() {
            let m = choose|m: nat|
                m < n && under(leaves[i].path, #[trigger] member_path(stem, m));
            let pm = member_path(stem, m);
            lemma_members_apart(stem, m, n);
            let k = choose|k: int|
                0 <= k < pm.len() && k < pn.len() && #[trigger] pm[k] != pn[k];
            assert(under(next[j - leaves.len()].path, pn));
            assert(leaves[i].path[k] == pm[k]);
            assert(next[j - leaves.len()].path[k] == pn[k]);
        }
    }
    assert forall|k: int| 0 <= k < c.len() implies exists|i: nat|
        i < n + 1 && under((#[trigger] c[k]).path, #[trigger] member_path(stem, i)) by {
        if k < leaves.len() {
            let m = choose|m: nat|
                m < n && under(leaves[k].path, #[trigger] member_path(stem, m));
            assert(under(c[k].path, member_path(stem, m)));
        } else {
            assert(c[k] == next[k - leaves.len()]);
            assert(under(c[k].path, member_path(stem, n)));
        }
    }
    assert(stem + (digits(n) + "]"@) =~= pn);
    lemma_under_prefix(next, stem, digits(n) + "]"@);
}

proof fn lemma_members_distinct(conditions: Seq<ConditionView>, stem: Seq<char>, n: nat)
    requires
        n <= conditions.len(),
    ensures
        distinct(member_leaves(conditions, stem, n)),
        under_members(member_leaves(conditions, stem, n), stem, n),
        all_under(member_leaves(conditions, stem, n), stem),
    decreases conditions, n,
{
    if n > 0 {
        let m = (n - 1) as nat;
        lemma_members_distinct(conditions, stem, m);
        lemma_condition_distinct(conditions[n - 1], member_path(stem, m));
        lemma_next_member_distinct(
            member_leaves(conditions, stem, m),
            condition_leaves(conditions[n - 1], member_path(stem, m)),
            stem,
            m,
        );
    }
}

proof fn lemma_exit_distinct(e: ExitRuleView, base: Seq<char>)
    ensures
        distinct(exit_leaves(e, base)),
        all_under(exit_leaves(e, base), base),
{
    match e {
        ExitRuleView::SignalExit { condition } => {
            lemma_condition_distinct(condition, base + ".condition"@);
            lemma_under_prefix(exit_leaves(e, base), base, ".condition"@);
        },
        ExitRuleView::AtrStop { period, multiple } => {
            reveal_strlit(".period");
            reveal_strlit(".multiple");
            assert((base + ".period"@)[base.len() as int + 1] == 'p');
            assert((base + ".multiple"@)[base.len() as int + 1] == 'm');
        },
        _ => {},
    }
}

proof fn lemma_exits_distinct(exits: Seq<ExitRuleView>, n: nat)
    requires
        n <= exits.len(),
    ensures
        distinct(exits_leaves(exits, n)),
        under_members(exits_leaves(exits, n), "exits["@, n),
        all_under(exits_leaves(exits, n), "exits["@),
    decreases n,
{
    if n > 0 {
        let m = (n - 1) as nat;
        lemma_exits_distinct(exits, m);
        lemma_exit_distinct(exits[n - 1], member_path("exits["@, m));
        lemma_next_member_distinct(
            exits_leaves(exits, m),
            exit_leaves(exits[n - 1], member_path("exits["@, m)),
            "exits["@,
            m,
        );
    }
}

/// No two numeric leaves of a document share a locator.
pub proof fn law_locators_are_distinct(dsl: StrategyDslView)
    ensures
        leaf_paths(strategy_leaves(dsl)).no_duplicates(),
        distinct(strategy_leaves(dsl)),
{
    reveal_strlit("entry");
    reveal_strlit("filters[");
    reveal_strlit("exits[");
    reveal_strlit("risk.");
    reveal_strlit("risk.risk_per_trade_pct");
    reveal_strlit("risk.max_leverage");
    let entry = condition_leaves(dsl.entry, "entry"@);
    let filters = member_leaves(dsl.filters, "filters["@, dsl.filters.len());
    let exits = exits_leaves(dsl.exits, dsl.exits.len());
    let risk = risk_leaves(dsl.risk);
    lemma_condition_distinct(dsl.entry, "entry"@);
    lemma_members_distinct(dsl.filters, "filters["@, dsl.filters.len());
    lemma_exits_distinct(dsl.exits, dsl.exits.len());
    assert("risk.risk_per_trade_pct"@[5] == 'r');
    assert("risk.max_leverage"@[5] == 'm');
    assert(all_under(risk, "risk."@));
    assert(distinct(risk));
    let all = strategy_leaves(dsl);
    let a = entry.len() as int;
    let b = a + filters.len();
    let c = b + exits.len();
    assert forall|i: int, j: int| 0 <= i < j < all.len() implies (#[trigger] all[i]).path != (
    #[trigger] all[j]).path by {
        assert(i < a ==> all[i] == entry[i]);
        assert(a <= i < b ==> all[i] == filters[i - a]);
        assert(b <= i < c ==> all[i] == exits[i - b]);
        assert(c <= i ==> all[i] == risk[i - c]);
        assert(j < a ==> all[j] == entry[j]);
        assert(a <= j < b ==> all[j] == filters[j - a]);
        assert(b <= j < c ==> all[j] == exits[j - b]);
        assert(c <= j ==> all[j] == risk[j - c]);
        assert(i < a ==> all[i].path[0] == 'e' && all[i].path[1] == 'n');
        assert(a <= i < b ==> all[i].path[0] == 'f');
        assert(b <= i < c ==> all[i].path[0] == 'e' && all[i].path[1] == 'x');
        assert(c <= i ==> all[i].path[0] == 'r');
        assert(j < a ==> all[j].path[0] == 'e' && all[j].path[1] == 'n');
        assert(a <= j < b ==> all[j].path[0] == 'f');
        assert(b <= j < c ==> all[j].path[0] == 'e' && all[j].path[1] == 'x');
        assert(c <= j ==> all[j].path[0] == 'r');
    }
    let paths = leaf_paths(all);
    assert forall|i: int, j: int| 0 <= i < paths.len() && 0 <= j < paths.len() && i
        != j implies paths[i] != paths[j] by {
        if i < j {
            assert(all[i].path != all[j].path);
        } else {
            assert(all[j].path != all[i].path);
        }
    }
}

// ---------------------------------------------------------------------------
// Writing.
// ---------------------------------------------------------------------------

/// A leaf after a write at `target`.
pub open spec fn put_leaf(leaf: LeafView, target: Seq<char>, new: ParamValue) -> LeafView {
    LeafView {
        path: leaf.path,
        value: match leaf.value {
            LeafValue::Period(v) => LeafValue::Period(put_period(v, leaf.path, target, new)),
            LeafValue::Threshold(v) => LeafValue::Threshold(
                put_threshold(v, leaf.path, target, new),
            ),
        },
    }
}

/// A list of leaves after a write at `target`.
pub open spec fn put_leaves(leaves: Seq<LeafView>, target: Seq<char>, new: ParamValue) -> Seq<
    LeafView,
> {
    leaves.map_values(|l: LeafView| put_leaf(l, target, new))
}

/// The content a written leaf has.
pub open spec fn fixed_leaf(new: ParamValue) -> LeafValue {
    match new {
        ParamValue::Period { value } => LeafValue::Period(SweepableValue::Fixed(value)),
        ParamValue::Threshold { value } => LeafValue::Threshold(SweepableValue::Fixed(value)),
    }
}

proof fn lemma_put_concat(
    a: Seq<LeafView>,
    b: Seq<LeafView>,
    target: Seq<char>,
    new: ParamValue,
)
    ensures
        put_leaves(a + b, target, new) == put_leaves(a, target, new) + put_leaves(b, target, new),
{
    assert(put_leaves(a + b, target, new) =~= put_leaves(a, target, new) + put_leaves(
        b,
        target,
        new,
    ));
}

proof fn lemma_put_value(v: ValueSource, path: Seq<char>, target: Seq<char>, new: ParamValue)
    ensures
        value_leaves(put_value(v, path, target, new), path) == put_leaves(
            value_leaves(v, path),
            target,
            new,
        ),
{
    assert(value_leaves(put_value(v, path, target, new), path) =~= put_leaves(
        value_leaves(v, path),
        target,
        new,
    ));
}

proof fn lemma_put_operands(
    lhs: ValueSource,
    rhs: ValueSource,
    path: Seq<char>,
    target: Seq<char>,
    new: ParamValue,
)
    ensures
        operand_leaves(
            put_value(lhs, path + ".lhs"@, target, new),
            put_value(rhs, path + ".rhs"@, target, new),
            path,
        ) == put_leaves(operand_leaves(lhs, rhs, path), target, new),
{
    lemma_put_value(lhs, path + ".lhs"@, target, new);
    lemma_put_value(rhs, path + ".rhs"@, target, new);
    lemma_put_concat(
        value_leaves(lhs, path + ".lhs"@),
        value_leaves(rhs, path + ".rhs"@),
        target,
        new,
    );
}

proof fn lemma_put_condition(c: ConditionView, path: Seq<char>, target: Seq<char>, new: ParamValue)
    ensures
        condition_leaves(put_condition(c, path, target, new), path) == put_leaves(
            condition_leaves(c, path),
            target,
            new,
        ),
    decreases c, 0nat,
{
    match c {
        ConditionView::Compare { lhs, op, rhs } => lemma_put_operands(lhs, rhs, path, target, new),
        ConditionView::CrossesAbove { lhs, rhs } => lemma_put_operands(lhs, rhs, path, target, new),
        ConditionView::CrossesBelow { lhs, rhs } => lemma_put_operands(lhs, rhs, path, target, new),
        ConditionView::And { conditions } => {
            lemma_put_members(conditions, path + ".and["@, target, new, conditions.len());
        },
        ConditionView::Or { conditions } => {
            lemma_put_members(conditions, path + ".or["@, target, new, conditions.len());
        },
        ConditionView::Not { condition } => {
            lemma_put_condition(*condition, path + ".not"@, target, new);
        },
    }
}

proof fn lemma_put_members(
    conditions: Seq<ConditionView>,
    stem: Seq<char>,
    target: Seq<char>,
    new: ParamValue,
    n: nat,
)
    requires
        n <= conditions.len(),
    ensures
        member_leaves(put_conditions(conditions, stem, target, new), stem, n) == put_leaves(
            member_leaves(conditions, stem, n),
            target,
            new,
        ),
    decreases conditions, n,
{
    let put = put_conditions(conditions, stem, target, new);
    if n > 0 {
        let m = (n - 1) as nat;
        lemma_put_members(conditions, stem, target, new, m);
        lemma_put_condition(conditions[n - 1], member_path(stem, m), target, new);
        assert(put[n - 1] == put_condition(conditions[n - 1], member_path(stem, m), target, new));
        lemma_put_concat(
            member_leaves(conditions, stem, m),
            condition_leaves(conditions[n - 1], member_path(stem, m)),
            target,
            new,
        );
    } else {
        assert(put_leaves(Seq::empty(), target, new) =~= Seq::empty());
    }
}

proof fn lemma_put_exit(e: ExitRuleView, base: Seq<char>, target: Seq<char>, new: ParamValue)
    ensures
        exit_leaves(put_exit(e, base, target, new), base) == put_leaves(
            exit_leaves(e, base),
            target,
            new,
        ),
{
    if let ExitRuleView::SignalExit { condition } = e {
        lemma_put_condition(condition, base + ".condition"@, target, new);
    } else {
        assert(exit_leaves(put_exit(e, base, target, new), base) =~= put_leaves(
            exit_leaves(e, base),
            target,
            new,
        ));
    }
}

proof fn lemma_put_exits(exits: Seq<ExitRuleView>, target: Seq<char>, new: ParamValue, n: nat)
    requires
        n <= exits.len(),
    ensures
        exits_leaves(put_exits(exits, target, new), n) == put_leaves(
            exits_leaves(exits, n),
            target,
            new,
        ),
    decreases n,
{
    let put = put_exits(exits, target, new);
    if n > 0 {
        let m = (n - 1) as nat;
        let base = member_path("exits["@, m);
        lemma_put_exits(exits, target, new, m);
        lemma_put_exit(exits[n - 1], base, target, new);
        assert(put[n - 1] == put_exit(exits[n - 1], base, target, new));
        lemma_put_concat(exits_leaves(exits, m), exit_leaves(exits[n - 1], base), target, new);
    } else {
        assert(put_leaves(Seq::empty(), target, new) =~= Seq::empty());
    }
}

proof fn lemma_put_strategy(dsl: StrategyDslView, target: Seq<char>, new: ParamValue)
    ensures
        strategy_leaves(put_strategy(dsl, target, new)) == put_leaves(
            strategy_leaves(dsl),
            target,
            new,
        ),
{
    let entry = condition_leaves(dsl.entry, "entry"@);
    let filters = member_leaves(dsl.filters, "filters["@, dsl.filters.len());
    let exits = exits_leaves(dsl.exits, dsl.exits.len());
    let risk = risk_leaves(dsl.risk);
    let put = put_strategy(dsl, target, new);
    lemma_put_condition(dsl.entry, "entry"@, target, new);
    lemma_put_members(dsl.filters, "filters["@, target, new, dsl.filters.len());
    lemma_put_exits(dsl.exits, target, new, dsl.exits.len());
    assert(risk_leaves(put.risk) =~= put_leaves(risk, target, new));
    lemma_put_concat(entry, filters, target, new);
    lemma_put_concat(entry + filters, exits, target, new);
    lemma_put_concat(entry + filters + exits, risk, target, new);
}

/// A write at the locator of a leaf of its kind fixes that leaf to the new value and
/// leaves every other leaf, and everything that is not a leaf (the [`shape`]), as it was.
pub proof fn law_write_changes_one_leaf(dsl: StrategyDslView, k: int, new: ParamValue)
    requires
        0 <= k < strategy_leaves(dsl).len(),
        leaf_kind(strategy_leaves(dsl)[k].value) == value_kind(new),
    ensures
        ({
            let leaves = strategy_leaves(dsl);
            let target = leaves[k].path;
            let put = put_strategy(dsl, target, new);
            &&& strategy_leaves(put) == leaves.update(
                k,
                LeafView { path: target, value: fixed_leaf(new) },
            )
            &&& shape(put) == shape(dsl)
        }),
{
    let leaves = strategy_leaves(dsl);
    let target = leaves[k].path;
    lemma_put_strategy(dsl, target, new);
    law_write_keeps_the_shape(dsl, target, new);
    law_locators_are_distinct(dsl);
    assert forall|i: int| 0 <= i < leaves.len() && i != k implies put_leaf(leaves[i], target, new)
        == leaves[i] by {
        if i < k {
            assert(leaves[i].path != leaves[k].path);
        } else {
            assert(leaves[k].path != leaves[i].path);
        }
    }
    assert(put_leaves(leaves, target, new) =~= leaves.update(
        k,
        LeafView { path: target, value: fixed_leaf(new) },
    ));
}

pub(crate) proof fn lemma_leaf_at(leaves: Seq<LeafView>, path: Seq<char>, n: nat)
    requires
        n <= leaves.len(),
    ensures
        leaf_at(leaves, path, n) is None <==> forall|i: int|
            0 <= i < n ==> (#[trigger] leaves[i]).path != path,
        leaf_at(leaves, path, n) is Some ==> exists|i: int|
            0 <= i < n && (#[trigger] leaves[i]).path == path && leaf_at(leaves, path, n) == Some(
                leaves[i].value,
            ),
    decreases n,
{
    if n > 0 {
        lemma_leaf_at(leaves, path, (n - 1) as nat);
        let earlier = leaf_at(leaves, path, (n - 1) as nat);
        if earlier is Some {
            let i = choose|i: int|
                0 <= i < n - 1 && (#[trigger] leaves[i]).path == path && earlier == Some(
                    leaves[i].value,
                );
            assert(leaves[i].path == path);
        } else if leaves[n - 1].path == path {
            assert(leaf_at(leaves, path, n) == Some(leaves[n - 1].value));
        }
    }
}

/// A mutation is refused for its locator exactly where the document has no numeric
/// leaf there.
pub proof fn law_unknown_path(dsl: StrategyDslView, mutation: MutationView)
    ensures
        apply_outcome(dsl, mutation) == Err::<StrategyDslView, MutationErrorView>(
            MutationErrorView::UnknownPath { path: mutation.path },
        ) <==> !leaf_paths(strategy_leaves(dsl)).contains(mutation.path),
{
    let leaves = strategy_leaves(dsl);
    let paths = leaf_paths(leaves);
    lemma_leaf_at(leaves, mutation.path, leaves.len());
    if paths.contains(mutation.path) {
        let i = choose|i: int| 0 <= i < paths.len() && paths[i] == mutation.path;
        assert(leaves[i].path == mutation.path);
    }
    if leaf_at(leaves, mutation.path, leaves.len()) is Some {
        let i = choose|i: int|
            0 <= i < leaves.len() && (#[trigger] leaves[i]).path == mutation.path && leaf_at(
                leaves,
                mutation.path,
                leaves.len(),
            ) == Some(leaves[i].value);
        assert(paths[i] == mutation.path);
    }
}

/// A mutation that applied changes nothing the second time: it is declined as a
/// change to what the leaf already holds.
pub proof fn law_second_application_is_no_change(dsl: StrategyDslView, mutation: MutationView)
    requires
        apply_outcome(dsl, mutation) is Ok,
    ensures
        apply_outcome(apply_outcome(dsl, mutation)->Ok_0, mutation) == Err::<
            StrategyDslView,
            MutationErrorView,
        >(MutationErrorView::NoChange { path: mutation.path }),
{
    let leaves = strategy_leaves(dsl);
    let path = mutation.path;
    let new = mutation.new_value;
    lemma_leaf_at(leaves, path, leaves.len());
    let k = choose|i: int|
        0 <= i < leaves.len() && (#[trigger] leaves[i]).path == path && leaf_at(
            leaves,
            path,
            leaves.len(),
        ) == Some(leaves[i].value);
    law_write_changes_one_leaf(dsl, k, new);
    let candidate = put_strategy(dsl, path, new);
    let after = strategy_leaves(candidate);
    assert(after[k].path == path);
    assert(after[k].value == fixed_leaf(new));
    lemma_leaf_at(after, path, after.len());
    let j = choose|i: int|
        0 <= i < after.len() && (#[trigger] after[i]).path == path && leaf_at(
            after,
            path,
            after.len(),
        ) == Some(after[i].value);
    law_locators_are_distinct(candidate);
    if j < k {
        assert(after[j].path != after[k].path);
    } else if k < j {
        assert(after[k].path != after[j].path);
    }
    assert(already_holds(fixed_leaf(new), new));
}

// ---------------------------------------------------------------------------
// One address grammar.
// ---------------------------------------------------------------------------

/// Whether an error is about the number in a field.
pub open spec fn about_a_number(e: FieldErrorView) -> bool {
    e.code == ValidationCode::FieldRange || e.code == ValidationCode::SweepUnsupported
}

/// Whether every error about a number names a leaf of a list.
pub open spec fn addressed(errors: Seq<FieldErrorView>, leaves: Seq<LeafView>) -> bool {
    forall|i: int|
        0 <= i < errors.len() && about_a_number(#[trigger] errors[i]) ==> exists|k: int|
            0 <= k < leaves.len() && (#[trigger] leaves[k]).path == errors[i].path
}

proof fn lemma_addressed_concat(
    a: Seq<FieldErrorView>,
    la: Seq<LeafView>,
    b: Seq<FieldErrorView>,
    lb: Seq<LeafView>,
)
    requires
        addressed(a, la),
        addressed(b, lb),
    ensures
        addressed(a + b, la + lb),
{
    let c = a + b;
    let lc = la + lb;
    assert forall|i: int| 0 <= i < c.len() && about_a_number(#[trigger] c[i]) implies exists|k: int|
        0 <= k < lc.len() && (#[trigger] lc[k]).path == c[i].path by {
        if i < a.len() {
            assert(a[i] == c[i]);
            let k = choose|k: int| 0 <= k < la.len() && (#[trigger] la[k]).path == a[i].path;
            assert(lc[k].path == c[i].path);
        } else {
            assert(b[i - a.len()] == c[i]);
            let k = choose|k: int|
                0 <= k < lb.len() && (#[trigger] lb[k]).path == b[i - a.len()].path;
            assert(lc[la.len() + k].path == c[i].path);
        }
    }
}

proof fn lemma_addressed_indicator(spec: IndicatorSpec, path: Seq<char>)
    ensures
        addressed(indicator_errors(spec, path), indicator_leaves(spec, path)),
{
    let leaves = indicator_leaves(spec, path);
    let errors = indicator_errors(spec, path);
    assert forall|i: int| 0 <= i < errors.len() && about_a_number(
        #[trigger] errors[i],
    ) implies exists|k: int| 0 <= k < leaves.len() && (#[trigger] leaves[k]).path == errors[i].path by {
        if spec is Macd {
            assert(leaves[0].path == path + ".macd.fast"@);
            assert(leaves[1].path == path + ".macd.slow"@);
            assert(leaves[2].path == path + ".macd.signal"@);
        } else {
            assert(leaves[0].path == errors[i].path);
        }
    }
}

proof fn lemma_addressed_value(v: ValueSource, path: Seq<char>)
    ensures
        addressed(value_errors(v, path), value_leaves(v, path)),
{
    if let ValueSource::Indicator { spec, .. } = v {
        lemma_addressed_indicator(spec, path + ".indicator"@);
    }
}

proof fn lemma_addressed_operands(lhs: ValueSource, rhs: ValueSource, path: Seq<char>)
    ensures
        addressed(operand_errors(lhs, rhs, path), operand_leaves(lhs, rhs, path)),
{
    lemma_addressed_value(lhs, path + ".lhs"@);
    lemma_addressed_value(rhs, path + ".rhs"@);
    lemma_addressed_concat(
        value_errors(lhs, path + ".lhs"@),
        value_leaves(lhs, path + ".lhs"@),
        value_errors(rhs, path + ".rhs"@),
        value_leaves(rhs, path + ".rhs"@),
    );
}

/// Errors that are not about a number, in front of errors that are addressed.
proof fn lemma_addressed_after(
    head: Seq<FieldErrorView>,
    errors: Seq<FieldErrorView>,
    leaves: Seq<LeafView>,
)
    requires
        forall|i: int| 0 <= i < head.len() ==> !about_a_number(#[trigger] head[i]),
        addressed(errors, leaves),
    ensures
        addressed(head + errors, leaves),
        addressed(errors + head, leaves),
{
    lemma_addressed_concat(head, Seq::empty(), errors, leaves);
    lemma_addressed_concat(errors, leaves, head, Seq::empty());
    assert(Seq::<LeafView>::empty() + leaves =~= leaves);
    assert(leaves + Seq::<LeafView>::empty() =~= leaves);
}

proof fn lemma_addressed_condition(c: ConditionView, path: Seq<char>)
    ensures
        addressed(condition_errors(c, path), condition_leaves(c, path)),
    decreases c, 0nat,
{
    match c {
        ConditionView::Compare { lhs, op, rhs } => lemma_addressed_operands(lhs, rhs, path),
        ConditionView::CrossesAbove { lhs, rhs } => {
            lemma_addressed_operands(lhs, rhs, path);
            lemma_addressed_after(
                cross_errors(lhs, rhs, path + ".crosses_above"@),
                operand_errors(lhs, rhs, path),
                operand_leaves(lhs, rhs, path),
            );
        },
        ConditionView::CrossesBelow { lhs, rhs } => {
            lemma_addressed_operands(lhs, rhs, path);
            lemma_addressed_after(
                cross_errors(lhs, rhs, path + ".crosses_below"@),
                operand_errors(lhs, rhs, path),
                operand_leaves(lhs, rhs, path),
            );
        },
        ConditionView::And { conditions } => {
            let stem = path + ".and["@;
            lemma_addressed_members(conditions, stem, conditions.len());
            lemma_addressed_after(
                empty_group_errors(
                    conditions.len(),
                    path + ".and"@,
                    "an empty `And` is vacuously true (always fires); add at least one condition"@,
                ),
                member_errors(conditions, stem, conditions.len()),
                member_leaves(conditions, stem, conditions.len()),
            );
        },
        ConditionView::Or { conditions } => {
            let stem = path + ".or["@;
            lemma_addressed_members(conditions, stem, conditions.len());
            lemma_addressed_after(
                empty_group_errors(
                    conditions.len(),
                    path + ".or"@,
                    "an empty `Or` is vacuously false (never fires); add at least one condition"@,
                ),
                member_errors(conditions, stem, conditions.len()),
                member_leaves(conditions, stem, conditions.len()),
            );
        },
        ConditionView::Not { condition } => {
            lemma_addressed_condition(*condition, path + ".not"@);
        },
    }
}

proof fn lemma_addressed_members(conditions: Seq<ConditionView>, stem: Seq<char>, n: nat)
    requires
        n <= conditions.len(),
    ensures
        addressed(member_errors(conditions, stem, n), member_leaves(conditions, stem, n)),
    decreases conditions, n,
{
    if n > 0 {
        let m = (n - 1) as nat;
        lemma_addressed_members(conditions, stem, m);
        lemma_addressed_condition(conditions[n - 1], member_path(stem, m));
        lemma_addressed_concat(
            member_errors(conditions, stem, m),
            member_leaves(conditions, stem, m),
            condition_errors(conditions[n - 1], member_path(stem, m)),
            condition_leaves(conditions[n - 1], member_path(stem, m)),
        );
    }
}

proof fn lemma_addressed_exit(e: ExitRuleView, base: Seq<char>)
    ensures
        addressed(exit_errors(e, base), exit_leaves(e, base)),
{
    let errors = exit_errors(e, base);
    let leaves = exit_leaves(e, base);
    if let ExitRuleView::SignalExit { condition } = e {
        lemma_addressed_condition(condition, base + ".condition"@);
    } else {
        assert forall|i: int| 0 <= i < errors.len() && about_a_number(
            #[trigger] errors[i],
        ) implies exists|k: int|
            0 <= k < leaves.len() && (#[trigger] leaves[k]).path == errors[i].path by {
            if e is AtrStop {
                assert(leaves[0].path == base + ".period"@);
                assert(leaves[1].path == base + ".multiple"@);
            } else {
                assert(leaves[0].path == errors[i].path);
            }
        }
    }
}

proof fn lemma_addressed_exits(exits: Seq<ExitRuleView>, n: nat)
    requires
        n <= exits.len(),
    ensures
        addressed(each_exit_errors(exits, n), exits_leaves(exits, n)),
    decreases n,
{
    if n > 0 {
        let m = (n - 1) as nat;
        let base = member_path("exits["@, m);
        lemma_addressed_exits(exits, m);
        lemma_addressed_exit(exits[n - 1], base);
        lemma_addressed_concat(
            each_exit_errors(exits, m),
            exits_leaves(exits, m),
            exit_errors(exits[n - 1], base),
            exit_leaves(exits[n - 1], base),
        );
    }
}

/// Every error about a number names the field by the locator under which a mutation
/// addresses it.
pub proof fn law_errors_name_leaves(dsl: StrategyDslView)
    ensures
        addressed(strategy_errors(dsl), strategy_leaves(dsl)),
{
    let exits = dsl.exits;
    let n = exits.len();
    let x1 = each_exit_errors(exits, n);
    let lx = exits_leaves(exits, n);
    lemma_addressed_exits(exits, n);
    lemma_addressed_after(no_exit_errors(exits), x1, lx);
    let x2 = no_exit_errors(exits) + x1;
    lemma_addressed_after(target_without_stop_errors(exits), x2, lx);
    let x3 = x2 + target_without_stop_errors(exits);
    let d1 = duplicate_errors(
        exits_of_kind(exits, ExclusiveExit::Stop),
        "stop (StopLoss or AtrStop)"@,
    );
    lemma_addressed_after(d1, x3, lx);
    let d2 = duplicate_errors(exits_of_kind(exits, ExclusiveExit::TakeProfit), "TakeProfit"@);
    lemma_addressed_after(d2, x3 + d1, lx);
    let d3 = duplicate_errors(exits_of_kind(exits, ExclusiveExit::Trailing), "TrailingStop"@);
    lemma_addressed_after(d3, x3 + d1 + d2, lx);
    let d4 = duplicate_errors(exits_of_kind(exits, ExclusiveExit::Time), "TimeStop"@);
    lemma_addressed_after(d4, x3 + d1 + d2 + d3, lx);
    assert(exits_errors(exits) == x3 + d1 + d2 + d3 + d4);
    let entry = condition_errors(dsl.entry, "entry"@);
    let l_entry = condition_leaves(dsl.entry, "entry"@);
    lemma_addressed_condition(dsl.entry, "entry"@);
    lemma_addressed_after(name_errors(dsl.name), entry, l_entry);
    let filters = member_errors(dsl.filters, "filters["@, dsl.filters.len());
    let l_filters = member_leaves(dsl.filters, "filters["@, dsl.filters.len());
    lemma_addressed_members(dsl.filters, "filters["@, dsl.filters.len());
    lemma_addressed_concat(name_errors(dsl.name) + entry, l_entry, filters, l_filters);
    lemma_addressed_concat(
        name_errors(dsl.name) + entry + filters,
        l_entry + l_filters,
        exits_errors(exits),
        lx,
    );
    let risk = risk_errors(dsl.risk);
    let l_risk = risk_leaves(dsl.risk);
    assert forall|i: int| 0 <= i < risk.len() && about_a_number(
        #[trigger] risk[i],
    ) implies exists|k: int| 0 <= k < l_risk.len() && (#[trigger] l_risk[k]).path == risk[i].path by {
        assert(l_risk[0].path == "risk.risk_per_trade_pct"@);
        assert(l_risk[1].path == "risk.max_leverage"@);
    }
    lemma_addressed_concat(
        name_errors(dsl.name) + entry + filters + exits_errors(exits),
        l_entry + l_filters + lx,
        risk,
        l_risk,
    );
}

} // verus!
