//! `Condition`: the boolean predicate tree of the strategy language.
use crate::domain::dsl::value::ValueSource;
use vstd::prelude::*;

verus! {

/// A scalar comparison operator.
#[derive(Clone, Copy, Debug, PartialEq, Eq, Structural)]
pub enum Comparator {
    /// Greater than.
    Gt,
    /// Greater than or equal.
    Gte,
    /// Less than.
    Lt,
    /// Less than or equal.
    Lte,
    /// Equal as numbers.
    Eq,
}

/// A boolean predicate over values.
#[derive(Debug, PartialEq, Eq)]
pub enum Condition {
    /// Compare two values.
    Compare {
        /// Left-hand operand.
        lhs: ValueSource,
        /// The comparison operator.
        op: Comparator,
        /// Right-hand operand.
        rhs: ValueSource,
    },
    /// `lhs` crosses above `rhs`.
    CrossesAbove {
        /// Left-hand operand.
        lhs: ValueSource,
        /// Right-hand operand.
        rhs: ValueSource,
    },
    /// `lhs` crosses below `rhs`.
    CrossesBelow {
        /// Left-hand operand.
        lhs: ValueSource,
        /// Right-hand operand.
        rhs: ValueSource,
    },
    /// Logical conjunction over a list of conditions.
    And {
        /// The conjoined conditions.
        conditions: Vec<Condition>,
    },
    /// Logical disjunction over a list of conditions.
    Or {
        /// The disjoined conditions.
        conditions: Vec<Condition>,
    },
    /// Logical negation of a single condition.
    Not {
        /// The negated condition.
        condition: Box<Condition>,
    },
}

/// The mathematical model of a [`Condition`].
pub enum ConditionView {
    Compare { lhs: ValueSource, op: Comparator, rhs: ValueSource },
    CrossesAbove { lhs: ValueSource, rhs: ValueSource },
    CrossesBelow { lhs: ValueSource, rhs: ValueSource },
    And { conditions: Seq<ConditionView> },
    Or { conditions: Seq<ConditionView> },
    Not { condition: Box<ConditionView> },
}

/// The models of a list of conditions.
pub open spec fn condition_views(conditions: Seq<Condition>) -> Seq<ConditionView>
    decreases conditions,
{
    Seq::new(
        conditions.len(),
        |i: int|
            if 0 <= i < conditions.len() {
                conditions[i].model()
            } else {
                arbitrary()
            },
    )
}

impl Condition {
    /// The model of this condition.
    pub open spec fn model(&self) -> ConditionView
        decreases self,
    {
        match *self {
            Condition::Compare { lhs, op, rhs } => ConditionView::Compare { lhs, op, rhs },
            Condition::CrossesAbove { lhs, rhs } => ConditionView::CrossesAbove { lhs, rhs },
            Condition::CrossesBelow { lhs, rhs } => ConditionView::CrossesBelow { lhs, rhs },
            Condition::And { conditions } => ConditionView::And {
                conditions: condition_views(conditions@),
            },
            Condition::Or { conditions } => ConditionView::Or {
                conditions: condition_views(conditions@),
            },
            Condition::Not { condition } => ConditionView::Not {
                condition: Box::new(condition.model()),
            },
        }
    }
}

impl View for Condition {
    type V = ConditionView;

    open spec fn view(&self) -> ConditionView {
        self.model()
    }
}

/// Copies a list of conditions.
pub fn clone_conditions(conditions: &Vec<Condition>) -> (r: Vec<Condition>)
    ensures
        condition_views(r@) == condition_views(conditions@),
    decreases conditions,
{
    let mut out: Vec<Condition> = Vec::new();
    let n = conditions.len();
    for i in 0..n
        invariant
            n == conditions.len(),
            out.len() == i,
            forall|j: int| 0 <= j < i ==> (#[trigger] out@[j]).model() == conditions@[j].model(),
    {
        let c = conditions[i].clone();
        out.push(c);
    }
    assert(condition_views(out@) =~= condition_views(conditions@));
    out
}

impl Clone for Condition {
    fn clone(&self) -> (r: Condition)
        ensures
            r@ == self@,
        decreases self,
    {
        match self {
            Condition::Compare { lhs, op, rhs } => Condition::Compare {
                lhs: *lhs,
                op: *op,
                rhs: *rhs,
            },
            Condition::CrossesAbove { lhs, rhs } => Condition::CrossesAbove {
                lhs: *lhs,
                rhs: *rhs,
            },
            Condition::CrossesBelow { lhs, rhs } => Condition::CrossesBelow {
                lhs: *lhs,
                rhs: *rhs,
            },
            Condition::And { conditions } => Condition::And {
                conditions: clone_conditions(conditions),
            },
            Condition::Or { conditions } => Condition::Or {
                conditions: clone_conditions(conditions),
            },
            Condition::Not { condition } => Condition::Not {
                condition: Box::new((&**condition).clone()),
            },
        }
    }
}

} // verus!
