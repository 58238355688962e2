//! What holds of unification and of the search, whatever the goals and the
//! bindings.

use vstd::prelude::*;
use crate::goal::{views, Goal, GoalView};
use crate::lmap::{subset_goal, superset_goal};
use crate::state::{lemma_bind_preserves, lemma_extension_chains, Bindings, State};
use crate::value::Val;

verus! {

/// Two concrete integers unify exactly when they are equal, and unifying
/// them binds nothing.
pub proof fn law_concrete_ints_unify_iff_equal(s: Bindings, v1: i32, v2: i32)
    ensures
        s.unify_int(Val::Resolved(v1), Val::Resolved(v2)) == if v1 == v2 {
            Some(s)
        } else {
            None::<Bindings>
        },
{
}

/// Unifying an integer value with itself succeeds and leaves the bindings
/// as they are.
pub proof fn law_unify_int_with_itself(s: Bindings, a: Val<i32>)
    ensures
        s.unify_int(a, a) == Some(s),
{
}

/// Unifying the elements of a tuple with themselves succeeds and leaves the
/// bindings as they are.
pub proof fn law_unify_items_with_themselves(s: Bindings, items: Seq<Val<i32>>, from: nat)
    ensures
        s.unify_items(items, items, from) == Some(s),
    decreases items.len() - from,
{
    if from < items.len() {
        law_unify_int_with_itself(s, items[from as int]);
        law_unify_items_with_themselves(s, items, from + 1);
    }
}

/// Unifying a tuple value with itself succeeds and leaves the bindings as
/// they are.
pub proof fn law_unify_tuple_with_itself(s: Bindings, a: Val<Seq<Val<i32>>>)
    ensures
        s.unify_tuple(a, a) == Some(s),
{
    match crate::state::walk(s.tuples, a) {
        Val::Resolved(items) => {
            law_unify_items_with_themselves(s, items, 0);
        },
        Val::Var(_) => {},
    }
}

/// Unification of integer values does not depend on the order of its
/// operands.
pub proof fn law_unify_int_symmetric(s: Bindings, a: Val<i32>, b: Val<i32>)
    ensures
        s.unify_int(a, b) == s.unify_int(b, a),
{
}

/// Unification of tuple elements does not depend on the order of its
/// operands.
pub proof fn law_unify_items_symmetric(
    s: Bindings,
    l: Seq<Val<i32>>,
    r: Seq<Val<i32>>,
    from: nat,
)
    ensures
        s.unify_items(l, r, from) == s.unify_items(r, l, from),
    decreases l.len() - from,
{
    if l.len() == r.len() && from < l.len() {
        law_unify_int_symmetric(s, l[from as int], r[from as int]);
        match s.unify_int(l[from as int], r[from as int]) {
            Some(next) => {
                law_unify_items_symmetric(next, l, r, from + 1);
            },
            None => {},
        }
    }
}

/// Unification of tuple values does not depend on the order of its
/// operands.
pub proof fn law_unify_tuple_symmetric(
    s: Bindings,
    a: Val<Seq<Val<i32>>>,
    b: Val<Seq<Val<i32>>>,
)
    ensures
        s.unify_tuple(a, b) == s.unify_tuple(b, a),
{
    match (crate::state::walk(s.tuples, a), crate::state::walk(s.tuples, b)) {
        (Val::Resolved(x), Val::Resolved(y)) => {
            law_unify_items_symmetric(s, x, y, 0);
        },
        _ => {},
    }
}

/// Tuples unify element by element: the attempt ends at the first element
/// that does not unify, whatever the later elements are, and otherwise goes
/// on from the bindings that this element left.
pub proof fn law_unify_items_stepwise(s: Bindings, l: Seq<Val<i32>>, r: Seq<Val<i32>>, from: nat)
    requires
        l.len() == r.len(),
        from < l.len(),
    ensures
        s.unify_items(l, r, from) == match s.unify_int(l[from as int], r[from as int]) {
            None => None,
            Some(next) => next.unify_items(l, r, from + 1),
        },
{
}

/// A conjunction whose first goal fails has no result.
pub proof fn law_both_after_fail(g: GoalView, s: Bindings)
    ensures
        GoalView::Both(Box::new(GoalView::Fail), Box::new(g)).results(s) == Seq::<
            Bindings,
        >::empty(),
{
    let none = GoalView::Fail.results(s);
    assert(none.len() == 0);
    assert(g.results_from(none) =~= Seq::<Bindings>::empty());
}

/// A conjunction whose first goal succeeds as it is has the results of its
/// second goal.
pub proof fn law_both_after_succeed(g: GoalView, s: Bindings)
    ensures
        GoalView::Both(Box::new(GoalView::Succeed), Box::new(g)).results(s) == g.results(s),
{
    let one = seq![s];
    assert(GoalView::Succeed.results(s) == one);
    assert(one.drop_last() =~= Seq::<Bindings>::empty());
    assert(one.last() == s);
    assert(g.results_from(one.drop_last()) =~= Seq::<Bindings>::empty());
    assert(g.results_from(one) =~= g.results(s));
}

/// A disjunction has the results of its first goal followed by those of its
/// second, both from the same bindings.
pub proof fn law_either_concatenates(g1: GoalView, g2: GoalView, s: Bindings)
    ensures
        GoalView::Either(Box::new(g1), Box::new(g2)).results(s) == g1.results(s) + g2.results(s),
{
}

/// A negation has the bindings it started from as its one result where the
/// negated goal has no result, and no result otherwise: it never binds
/// anything.
pub proof fn law_not_tests_only(g: GoalView, s: Bindings)
    ensures
        GoalView::Not(Box::new(g)).results(s) == if g.results(s).len() == 0 {
            seq![s]
        } else {
            Seq::<Bindings>::empty()
        },
        forall|i: int|
            0 <= i < GoalView::Not(Box::new(g)).results(s).len() ==> GoalView::Not(
                Box::new(g),
            ).results(s)[i] == s,
{
}

/// That one map contains another is that the other is contained in it: the
/// two goals have the same results from the same bindings.
pub proof fn law_superset_is_subset_reversed(
    a: Seq<(Val<i32>, Val<i32>)>,
    b: Seq<(Val<i32>, Val<i32>)>,
    s: Bindings,
)
    ensures
        superset_goal(a, b).results(s) == subset_goal(b, a, 0).results(s),
{
}

/// A map without entries is contained in every map: the goal has the
/// bindings it started from as its one result.
pub proof fn law_empty_map_is_subset(b: Seq<(Val<i32>, Val<i32>)>, s: Bindings)
    ensures
        subset_goal(Seq::empty(), b, 0).results(s) == seq![s],
{
}

/// The search is reproducible: two evaluations of one goal from states with
/// the same bindings give the same bindings in the same order.
pub proof fn law_search_is_reproducible(
    goal: Goal,
    first: State,
    second: State,
    first_found: Seq<State>,
    second_found: Seq<State>,
)
    requires
        first@ == second@,
        views(first_found) == goal@.results(first@),
        views(second_found) == goal@.results(second@),
    ensures
        views(first_found) == views(second_found),
{
}

/// Unification keeps the bindings valid and retracts none of them.
pub proof fn law_unify_extends(s: Bindings, a: Val<i32>, b: Val<i32>)
    requires
        s.wf(),
    ensures
        match s.unify_int(a, b) {
            Some(next) => next.wf() && s.extended_by(next),
            None => true,
        },
{
    lemma_bind_preserves(s.ints, a, b);
}

/// Unification of tuple elements keeps the bindings valid and retracts none
/// of them.
pub proof fn law_unify_items_extends(s: Bindings, l: Seq<Val<i32>>, r: Seq<Val<i32>>, from: nat)
    requires
        s.wf(),
    ensures
        match s.unify_items(l, r, from) {
            Some(next) => next.wf() && s.extended_by(next),
            None => true,
        },
    decreases l.len() - from,
{
    if l.len() == r.len() && from < l.len() {
        law_unify_extends(s, l[from as int], r[from as int]);
        match s.unify_int(l[from as int], r[from as int]) {
            Some(mid) => {
                law_unify_items_extends(mid, l, r, from + 1);
                match mid.unify_items(l, r, from + 1) {
                    Some(next) => {
                        lemma_extension_chains(s, mid, next);
                    },
                    None => {},
                }
            },
            None => {},
        }
    }
}

/// Unification of tuple values keeps the bindings valid and retracts none
/// of them.
pub proof fn law_unify_tuple_extends(s: Bindings, a: Val<Seq<Val<i32>>>, b: Val<Seq<Val<i32>>>)
    requires
        s.wf(),
    ensures
        match s.unify_tuple(a, b) {
            Some(next) => next.wf() && s.extended_by(next),
            None => true,
        },
{
    lemma_bind_preserves(s.tuples, a, b);
    match (crate::state::walk(s.tuples, a), crate::state::walk(s.tuples, b)) {
        (Val::Resolved(x), Val::Resolved(y)) => {
            law_unify_items_extends(s, x, y, 0);
        },
        _ => {},
    }
}

/// Every result of a goal is valid and keeps every binding that the search
/// started from: along one branch a binding is never retracted.
pub proof fn law_results_extend(g: GoalView, s: Bindings)
    requires
        s.wf(),
    ensures
        forall|i: int|
            0 <= i < g.results(s).len() ==> (#[trigger] g.results(s)[i]).wf() && s.extended_by(
                g.results(s)[i],
            ),
    decreases g, 0nat,
{
    let found = g.results(s);
    match g {
        GoalView::Succeed => {
            assert(found =~= seq![s]);
        },
        GoalView::Fail => {
            assert(found.len() == 0);
        },
        GoalView::UnifyInt(a, b) => {
            law_unify_extends(s, a, b);
        },
        GoalView::UnifyTuple(a, b) => {
            law_unify_tuple_extends(s, a, b);
        },
        GoalView::Both(l, r) => {
            law_results_extend(*l, s);
            law_results_from_extend(*r, l.results(s), s);
            assert(found == (*r).results_from((*l).results(s)));
        },
        GoalView::Either(l, r) => {
            law_results_extend(*l, s);
            law_results_extend(*r, s);
            let head = l.results(s);
            let tail = r.results(s);
            assert forall|i: int| 0 <= i < found.len() implies (#[trigger] found[i]).wf()
                && s.extended_by(found[i]) by {
                if i >= head.len() {
                    assert(found[i] == tail[i - head.len()]);
                } else {
                    assert(found[i] == head[i]);
                }
            }
        },
        GoalView::Not(inner) => {},
    }
}

/// Every result of a goal from states that keep the bindings of `origin`
/// keeps them too.
pub proof fn law_results_from_extend(g: GoalView, states: Seq<Bindings>, origin: Bindings)
    requires
        forall|i: int|
            0 <= i < states.len() ==> (#[trigger] states[i]).wf() && origin.extended_by(states[i]),
    ensures
        forall|i: int|
            0 <= i < g.results_from(states).len() ==> (#[trigger] g.results_from(states)[i]).wf()
                && origin.extended_by(g.results_from(states)[i]),
    decreases g, states.len() + 1,
{
    if states.len() > 0 {
        let last = states.last();
        law_results_from_extend(g, states.drop_last(), origin);
        law_results_extend(g, last);
        let head = g.results_from(states.drop_last());
        let tail = g.results(last);
        assert forall|i: int| 0 <= i < g.results_from(states).len() implies (
        #[trigger] g.results_from(states)[i]).wf() && origin.extended_by(
            g.results_from(states)[i],
        ) by {
            if i >= head.len() {
                let next = tail[i - head.len()];
                assert(g.results_from(states)[i] == next);
                lemma_extension_chains(origin, last, next);
            } else {
                assert(g.results_from(states)[i] == head[i]);
            }
        }
    }
}

} // verus!
