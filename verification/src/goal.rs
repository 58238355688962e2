//! Goals and their evaluation: a depth-first, left-to-right search for the
//! states that satisfy a goal.

use vstd::prelude::*;
use crate::state::{Bindings, State};
use crate::value::{copy_tuple_val, Tuple, Val};

verus! {

/// A constraint on the bindings. Evaluating a goal against a state gives the
/// states that satisfy it, in a fixed order.
#[derive(Debug, PartialEq, Eq)]
pub enum Goal {
    /// Satisfied by the state as it is.
    Succeed,
    /// Satisfied by no state.
    Fail,
    /// The two integer values are equal.
    UnifyInt(Val<i32>, Val<i32>),
    /// The two tuple values are equal.
    UnifyTuple(Val<Tuple>, Val<Tuple>),
    /// Both goals hold: the second is evaluated against each state that
    /// satisfies the first.
    Both(Box<Goal>, Box<Goal>),
    /// One of the goals holds: each is evaluated against the same state.
    Either(Box<Goal>, Box<Goal>),
    /// The goal cannot be satisfied.
    Not(Box<Goal>),
}

/// The mathematical content of a [`Goal`].
pub ghost enum GoalView {
    Succeed,
    Fail,
    UnifyInt(Val<i32>, Val<i32>),
    UnifyTuple(Val<Seq<Val<i32>>>, Val<Seq<Val<i32>>>),
    Both(Box<GoalView>, Box<GoalView>),
    Either(Box<GoalView>, Box<GoalView>),
    Not(Box<GoalView>),
}

/// The sequence of no or one element that an optional outcome stands for.
pub open spec fn outcome(o: Option<Bindings>) -> Seq<Bindings> {
    match o {
        Some(s) => seq![s],
        None => Seq::empty(),
    }
}

impl GoalView {
    /// The states that satisfy the goal from `s`, in the order in which the
    /// search finds them.
    pub open spec fn results(self, s: Bindings) -> Seq<Bindings>
        decreases self, 0nat,
    {
        match self {
            GoalView::Succeed => seq![s],
            GoalView::Fail => Seq::empty(),
            GoalView::UnifyInt(a, b) => outcome(s.unify_int(a, b)),
            GoalView::UnifyTuple(a, b) => outcome(s.unify_tuple(a, b)),
            GoalView::Both(l, r) => r.results_from(l.results(s)),
            GoalView::Either(l, r) => l.results(s) + r.results(s),
            GoalView::Not(g) => if g.results(s).len() == 0 {
                seq![s]
            } else {
                Seq::empty()
            },
        }
    }

    /// The results of the goal from each of `states` in turn, one after the
    /// other.
    pub open spec fn results_from(self, states: Seq<Bindings>) -> Seq<Bindings>
        decreases self, states.len() + 1,
    {
        if states.len() == 0 {
            Seq::empty()
        } else {
            self.results_from(states.drop_last()) + self.results(states.last())
        }
    }
}

impl View for Goal {
    type V = GoalView;

    open spec fn view(&self) -> GoalView
        decreases self,
    {
        match self {
            Goal::Succeed => GoalView::Succeed,
            Goal::Fail => GoalView::Fail,
            Goal::UnifyInt(a, b) => GoalView::UnifyInt(*a, *b),
            Goal::UnifyTuple(a, b) => GoalView::UnifyTuple(a@, b@),
            Goal::Both(l, r) => GoalView::Both(Box::new((**l).view()), Box::new((**r).view())),
            Goal::Either(l, r) => GoalView::Either(
                Box::new((**l).view()),
                Box::new((**r).view()),
            ),
            Goal::Not(g) => GoalView::Not(Box::new((**g).view())),
        }
    }
}

/// The bindings of each of `states`, in order.
pub open spec fn views(states: Seq<State>) -> Seq<Bindings> {
    Seq::new(states.len(), |i: int| states[i]@)
}

/// Every one of `states` is valid.
pub open spec fn all_wf(states: Seq<State>) -> bool {
    forall|i: int| 0 <= i < states.len() ==> (#[trigger] states[i]).wf()
}

impl Clone for Goal {
    fn clone(&self) -> (out: Goal)
        ensures
            out@ == self@,
    {
        self.duplicate()
    }
}

impl Goal {
    /// A copy of the goal with the same content.
    pub fn duplicate(&self) -> (out: Goal)
        ensures
            out@ == self@,
        decreases self,
    {
        match self {
            Goal::Succeed => Goal::Succeed,
            Goal::Fail => Goal::Fail,
            Goal::UnifyInt(a, b) => Goal::UnifyInt(*a, *b),
            Goal::UnifyTuple(a, b) => Goal::UnifyTuple(copy_tuple_val(a), copy_tuple_val(b)),
            Goal::Both(l, r) => Goal::Both(Box::new(l.duplicate()), Box::new(r.duplicate())),
            Goal::Either(l, r) => Goal::Either(Box::new(l.duplicate()), Box::new(r.duplicate())),
            Goal::Not(g) => Goal::Not(Box::new(g.duplicate())),
        }
    }

    /// Evaluates the goal against `state`: the states that satisfy it, those
    /// of a left branch before those of a right one. `state` itself is left
    /// as it was.
    pub fn apply(&self, state: &State) -> (out: Vec<State>)
        requires
            state.wf(),
        ensures
            all_wf(out@),
            views(out@) == self@.results(state@),
        decreases self, 0nat,
    {
        match self {
            Goal::Succeed => {
                let out = vec![state.clone()];
                assert(views(out@) =~= seq![state@]);
                out
            },
            Goal::Fail => {
                let out: Vec<State> = Vec::new();
                assert(views(out@) =~= Seq::empty());
                out
            },
            Goal::UnifyInt(a, b) => single(state.unify_int(*a, *b)),
            Goal::UnifyTuple(a, b) => single(state.unify_tuple(a, b)),
            Goal::Both(l, r) => {
                let lefts = l.apply(state);
                r.apply_each(&lefts)
            },
            Goal::Either(l, r) => {
                let mut out = l.apply(state);
                let mut rights = r.apply(state);
                let ghost lefts = out@;
                let ghost after = rights@;
                out.append(&mut rights);
                assert(views(out@) =~= views(lefts) + views(after));
                out
            },
            Goal::Not(g) => {
                let inner = g.apply(state);
                if inner.len() == 0 {
                    let out = vec![state.clone()];
                    assert(views(out@) =~= seq![state@]);
                    out
                } else {
                    let out: Vec<State> = Vec::new();
                    assert(views(out@) =~= Seq::empty());
                    out
                }
            },
        }
    }

    /// Evaluates the goal against each of `states` in turn and joins the
    /// results in that order.
    pub fn apply_each(&self, states: &Vec<State>) -> (out: Vec<State>)
        requires
            all_wf(states@),
        ensures
            all_wf(out@),
            views(out@) == self@.results_from(views(states@)),
        decreases self, 1nat,
    {
        let mut out: Vec<State> = Vec::new();
        let mut i: usize = 0;
        assert(views(states@).take(0) =~= Seq::empty());
        assert(views(out@) =~= Seq::empty());
        while i < states.len()
            invariant
                i <= states.len(),
                all_wf(states@),
                all_wf(out@),
                views(out@) == self@.results_from(views(states@).take(i as int)),
            decreases states.len() - i,
        {
            let mut more = self.apply(&states[i]);
            let ghost before = out@;
            let ghost added = more@;
            out.append(&mut more);
            proof {
                let prefix = views(states@).take(i + 1);
                assert(prefix.drop_last() =~= views(states@).take(i as int));
                assert(prefix.last() == states@[i as int]@);
                assert(views(out@) =~= views(before) + views(added));
            }
            i = i + 1;
        }
        assert(views(states@).take(states@.len() as int) =~= views(states@));
        out
    }
}

/// The bindings of an optional state.
pub open spec fn bindings_of(o: Option<State>) -> Option<Bindings> {
    match o {
        Some(s) => Some(s@),
        None => None,
    }
}

/// The list of no or one state that an optional outcome stands for.
pub fn single(o: Option<State>) -> (out: Vec<State>)
    requires
        o.is_some() ==> o.unwrap().wf(),
    ensures
        all_wf(out@),
        views(out@) == outcome(bindings_of(o)),
{
    match o {
        Some(s) => {
            let out = vec![s];
            assert(views(out@) =~= seq![s@]);
            out
        },
        None => {
            let out: Vec<State> = Vec::new();
            assert(views(out@) =~= Seq::empty());
            out
        },
    }
}

/// Evaluates a goal that is only built once a state is at hand: `build` is
/// called once, with `state`, and the goal it returns is evaluated against
/// `state`. This lets `build` look at the bindings before it decides what
/// to ask for.
pub fn apply_lazy<F: Fn(&State) -> Goal>(build: F, state: &State) -> (out: Vec<State>)
    requires
        state.wf(),
        build.requires((state,)),
    ensures
        all_wf(out@),
        exists|goal: Goal|
            build.ensures((state,), goal) && views(out@) == goal@.results(state@),
{
    let goal = build(state);
    goal.apply(state)
}

/// Evaluates a goal given as a function on states: `change` is called once,
/// with `state`, and the state it returns, if any, is the one result.
pub fn apply_custom<F: Fn(&State) -> Option<State>>(change: F, state: &State) -> (out: Vec<State>)
    requires
        change.requires((state,)),
        forall|o: Option<State>|
            change.ensures((state,), o) && o.is_some() ==> (#[trigger] o.unwrap()).wf(),
    ensures
        all_wf(out@),
        exists|o: Option<State>|
            change.ensures((state,), o) && views(out@) == outcome(bindings_of(o)),
{
    let o = change(state);
    single(o)
}

/// The goal that `a` and `b`, two integer values, are equal.
pub fn unify_int(a: Val<i32>, b: Val<i32>) -> (goal: Goal)
    ensures
        goal@ == GoalView::UnifyInt(a, b),
{
    Goal::UnifyInt(a, b)
}

/// The goal that `a` and `b`, two tuple values, are equal.
pub fn unify_tuple(a: Val<Tuple>, b: Val<Tuple>) -> (goal: Goal)
    ensures
        goal@ == GoalView::UnifyTuple(a@, b@),
{
    Goal::UnifyTuple(a, b)
}

/// The goal that holds where both `a` and `b` hold.
pub fn both(a: Goal, b: Goal) -> (goal: Goal)
    ensures
        goal@ == GoalView::Both(Box::new(a@), Box::new(b@)),
{
    Goal::Both(Box::new(a), Box::new(b))
}

/// The goal that holds where `a` or `b` holds; the results of `a` come
/// first.
pub fn either(a: Goal, b: Goal) -> (goal: Goal)
    ensures
        goal@ == GoalView::Either(Box::new(a@), Box::new(b@)),
{
    Goal::Either(Box::new(a), Box::new(b))
}

/// The goal that holds where `goal` cannot be satisfied. It binds nothing.
pub fn not(goal: Goal) -> (negated: Goal)
    ensures
        negated@ == GoalView::Not(Box::new(goal@)),
{
    Goal::Not(Box::new(goal))
}

} // verus!
