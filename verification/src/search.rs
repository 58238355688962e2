//! The search as a sequence that is produced one state at a time: only as
//! much of a goal is explored as the states asked for require.

use vstd::prelude::*;
use crate::goal::{all_wf, views, Goal, GoalView};
use crate::state::{Bindings, State};

verus! {

/// The content of a [`Branch`]: bindings, and the goals still to be
/// satisfied from them, the next one last.
pub ghost struct BranchView {
    pub state: Bindings,
    pub todo: Seq<GoalView>,
}

/// The results of satisfying the goals of `todo`, the last one first, from
/// each of `states` in turn.
pub open spec fn chain(todo: Seq<GoalView>, states: Seq<Bindings>) -> Seq<Bindings>
    decreases todo.len(),
{
    if todo.len() == 0 {
        states
    } else {
        chain(todo.drop_last(), todo.last().results_from(states))
    }
}

/// The results that the branches of `pending` still stand for, the last
/// branch first.
pub open spec fn pending_results(pending: Seq<BranchView>) -> Seq<Bindings>
    decreases pending.len(),
{
    if pending.len() == 0 {
        Seq::empty()
    } else {
        chain(pending.last().todo, seq![pending.last().state]) + pending_results(
            pending.drop_last(),
        )
    }
}

/// A bound on the work that a goal stands for.
pub open spec fn cost(g: GoalView) -> nat
    decreases g,
{
    match g {
        GoalView::Both(l, r) => cost(*l) * cost(*r) + 1,
        GoalView::Either(l, r) => cost(*l) + cost(*r) + 1,
        _ => 2,
    }
}

/// A bound on the work that a list of goals stands for.
pub open spec fn todo_cost(todo: Seq<GoalView>) -> nat
    decreases todo.len(),
{
    if todo.len() == 0 {
        1
    } else {
        todo_cost(todo.drop_last()) * cost(todo.last())
    }
}

/// A bound on the work that a list of branches stands for.
pub open spec fn pending_cost(pending: Seq<BranchView>) -> nat
    decreases pending.len(),
{
    if pending.len() == 0 {
        0
    } else {
        pending_cost(pending.drop_last()) + todo_cost(pending.last().todo)
    }
}

/// The results of a goal from one state alone are its results from that
/// state.
pub proof fn lemma_results_from_one(g: GoalView, s: Bindings)
    ensures
        g.results_from(seq![s]) == g.results(s),
{
    let one = seq![s];
    assert(one.drop_last() =~= Seq::<Bindings>::empty());
    assert(g.results_from(one.drop_last()) =~= Seq::<Bindings>::empty());
    assert(one.last() == s);
    assert(g.results_from(one) =~= g.results(s));
}

/// The results of a goal from two lists of states, one after the other,
/// are its results from the first followed by its results from the second.
pub proof fn lemma_results_from_concat(g: GoalView, a: Seq<Bindings>, b: Seq<Bindings>)
    ensures
        g.results_from(a + b) == g.results_from(a) + g.results_from(b),
    decreases b.len(),
{
    if b.len() == 0 {
        assert(a + b =~= a);
        assert(g.results_from(a) + g.results_from(b) =~= g.results_from(a));
    } else {
        assert((a + b).drop_last() =~= a + b.drop_last());
        assert((a + b).last() == b.last());
        lemma_results_from_concat(g, a, b.drop_last());
        assert(g.results_from(a + b) =~= g.results_from(a) + g.results_from(b));
    }
}

/// A chain of goals from two lists of states, one after the other, has the
/// results from the first followed by those from the second.
pub proof fn lemma_chain_concat(todo: Seq<GoalView>, a: Seq<Bindings>, b: Seq<Bindings>)
    ensures
        chain(todo, a + b) == chain(todo, a) + chain(todo, b),
    decreases todo.len(),
{
    if todo.len() > 0 {
        let g = todo.last();
        lemma_results_from_concat(g, a, b);
        lemma_chain_concat(todo.drop_last(), g.results_from(a), g.results_from(b));
    }
}

/// A chain of goals from no state has no result.
pub proof fn lemma_chain_empty(todo: Seq<GoalView>)
    ensures
        chain(todo, Seq::empty()) == Seq::<Bindings>::empty(),
    decreases todo.len(),
{
    if todo.len() > 0 {
        assert(todo.last().results_from(Seq::empty()) =~= Seq::<Bindings>::empty());
        lemma_chain_empty(todo.drop_last());
    }
}

/// A chain with one more goal to satisfy first goes on from the results of
/// that goal.
pub proof fn lemma_chain_push(todo: Seq<GoalView>, g: GoalView, s: Bindings)
    ensures
        chain(todo.push(g), seq![s]) == chain(todo, g.results(s)),
        todo_cost(todo.push(g)) == todo_cost(todo) * cost(g),
{
    assert(todo.push(g).drop_last() =~= todo);
    assert(todo.push(g).last() == g);
    lemma_results_from_one(g, s);
}

/// The bound of a list of goals is at least one.
pub proof fn lemma_todo_cost_positive(todo: Seq<GoalView>)
    ensures
        todo_cost(todo) >= 1,
    decreases todo.len(),
{
    if todo.len() > 0 {
        lemma_todo_cost_positive(todo.drop_last());
        let a = todo_cost(todo.drop_last());
        let b = cost(todo.last());
        assert(b >= 1);
        assert(a >= 1 && b >= 1 ==> a * b >= 1) by (nonlinear_arith);
    }
}

/// One more branch is explored before the others.
pub proof fn lemma_pending_push(pending: Seq<BranchView>, b: BranchView)
    ensures
        pending_results(pending.push(b)) == chain(b.todo, seq![b.state]) + pending_results(
            pending,
        ),
        pending_cost(pending.push(b)) == pending_cost(pending) + todo_cost(b.todo),
{
    assert(pending.push(b).drop_last() =~= pending);
    assert(pending.push(b).last() == b);
}

/// The content of each of `goals`, in order.
pub open spec fn goal_views(goals: Seq<Goal>) -> Seq<GoalView> {
    Seq::new(goals.len(), |i: int| goals[i]@)
}

/// A copy of a list of goals.
pub fn copy_goals(goals: &Vec<Goal>) -> (out: Vec<Goal>)
    ensures
        goal_views(out@) == goal_views(goals@),
{
    let mut out: Vec<Goal> = Vec::new();
    let mut i: usize = 0;
    while i < goals.len()
        invariant
            i <= goals.len(),
            out@.len() == i,
            forall|j: int| 0 <= j < i ==> (#[trigger] out@[j])@ == goals@[j]@,
        decreases goals.len() - i,
    {
        out.push(goals[i].duplicate());
        i = i + 1;
    }
    assert(goal_views(out@) =~= goal_views(goals@));
    out
}

/// A part of the search that has not been explored yet: a state, and the
/// goals still to be satisfied from it, the next one last.
#[derive(Debug)]
pub struct Branch {
    state: State,
    todo: Vec<Goal>,
}

impl View for Branch {
    type V = BranchView;

    closed spec fn view(&self) -> BranchView {
        BranchView { state: self.state@, todo: goal_views(self.todo@) }
    }
}

/// What one step of a search has come to.
#[derive(Debug)]
pub enum Step {
    /// The next state that satisfies the goal.
    Found(State),
    /// No state is left to find.
    Exhausted,
    /// Nothing was found yet, and less work is left than before.
    Working,
}

/// A search in progress: the branches that are still to be explored, the
/// next one last. Each alternative of a disjunction waits here until the
/// states before it have been asked for.
#[derive(Debug)]
pub struct Search {
    pending: Vec<Branch>,
}

impl View for Search {
    type V = Seq<BranchView>;

    closed spec fn view(&self) -> Seq<BranchView> {
        Seq::new(self.pending@.len(), |i: int| self.pending@[i]@)
    }
}

impl Search {
    /// Every state that a branch starts from is valid.
    pub closed spec fn wf(&self) -> bool {
        forall|i: int| 0 <= i < self.pending@.len() ==> (#[trigger] self.pending@[i]).state.wf()
    }

    /// The states that the search will still give, in order.
    pub open spec fn remaining(&self) -> Seq<Bindings> {
        pending_results(self@)
    }

    /// A bound on the steps that the search will still take.
    pub open spec fn work_left(&self) -> nat {
        pending_cost(self@)
    }

    /// The search for the states that satisfy `goal` from `state`.
    pub fn new(goal: Goal, state: State) -> (out: Search)
        requires
            state.wf(),
        ensures
            out.wf(),
            out.remaining() == goal@.results(state@),
    {
        let ghost g = goal@;
        let ghost s = state@;
        let mut todo: Vec<Goal> = Vec::new();
        todo.push(goal);
        let mut pending: Vec<Branch> = Vec::new();
        pending.push(Branch { state, todo });
        let out = Search { pending };
        proof {
            let none = Seq::<BranchView>::empty();
            let first = BranchView { state: s, todo: Seq::<GoalView>::empty().push(g) };
            assert(goal_views(todo@) =~= Seq::<GoalView>::empty().push(g));
            assert(out@ =~= none.push(first));
            lemma_pending_push(none, first);
            lemma_chain_push(Seq::<GoalView>::empty(), g, s);
            assert(pending_results(none) =~= Seq::<Bindings>::empty());
            assert(out.remaining() =~= g.results(s));
        }
        out
    }

    fn push(&mut self, state: State, todo: Vec<Goal>)
        requires
            old(self).wf(),
            state.wf(),
        ensures
            final(self).wf(),
            final(self)@ == old(self)@.push(
                (BranchView { state: state@, todo: goal_views(todo@) }),
            ),
    {
        self.pending.push(Branch { state, todo });
        assert(self@ =~= old(self)@.push(
            (BranchView { state: state@, todo: goal_views(todo@) }),
        ));
    }

    /// Takes one step: explores the next branch as far as its next goal.
    pub fn step(&mut self) -> (out: Step)
        requires
            old(self).wf(),
        ensures
            final(self).wf(),
            match out {
                Step::Found(s) => {
                    &&& s.wf()
                    &&& old(self).remaining().len() > 0
                    &&& s@ == old(self).remaining()[0]
                    &&& final(self).remaining() == old(self).remaining().skip(1)
                },
                Step::Exhausted => {
                    &&& old(self).remaining().len() == 0
                    &&& final(self).remaining().len() == 0
                    &&& final(self).work_left() == 0
                },
                Step::Working => {
                    &&& final(self).remaining() == old(self).remaining()
                    &&& final(self).work_left() < old(self).work_left()
                },
            },
    {
        let ghost before = self@;
        match self.pending.pop() {
            None => Step::Exhausted,
            Some(branch) => {
                let ghost rest = self@;
                let ghost top = branch@;
                assert(rest =~= before.drop_last());
                assert(top == before.last());
                let state = branch.state;
                let mut todo = branch.todo;
                match todo.pop() {
                    None => {
                        proof {
                            assert(top.todo.len() == 0);
                            assert(old(self).remaining().skip(1) =~= pending_results(rest));
                        }
                        Step::Found(state)
                    },
                    Some(goal) => {
                        let ghost tail = goal_views(todo@);
                        let ghost s = state@;
                        let ghost w = todo_cost(tail);
                        proof {
                            assert(top.todo =~= tail.push(goal@));
                            lemma_chain_push(tail, goal@, s);
                            lemma_todo_cost_positive(tail);
                            lemma_chain_empty(tail);
                            assert(Seq::<Bindings>::empty() + pending_results(rest)
                                =~= pending_results(rest));
                        }
                        match goal {
                            Goal::Succeed => {
                                self.push(state, todo);
                                proof {
                                    lemma_pending_push(rest, self@.last());
                                    assert(w >= 1 ==> w < w * 2) by (nonlinear_arith);
                                }
                            },
                            Goal::Fail => {
                                proof {
                                    assert(w >= 1 ==> 0 < w * 2) by (nonlinear_arith);
                                }
                            },
                            Goal::UnifyInt(a, b) => {
                                proof {
                                    assert(w >= 1 ==> w < w * 2) by (nonlinear_arith);
                                }
                                match state.unify_int(a, b) {
                                    Some(next) => {
                                        self.push(next, todo);
                                        proof {
                                            lemma_pending_push(rest, self@.last());
                                        }
                                    },
                                    None => {},
                                }
                            },
                            Goal::UnifyTuple(a, b) => {
                                proof {
                                    assert(w >= 1 ==> w < w * 2) by (nonlinear_arith);
                                }
                                match state.unify_tuple(&a, &b) {
                                    Some(next) => {
                                        self.push(next, todo);
                                        proof {
                                            lemma_pending_push(rest, self@.last());
                                        }
                                    },
                                    None => {},
                                }
                            },
                            Goal::Both(l, r) => {
                                let ghost lv = l@;
                                let ghost rv = r@;
                                todo.push(*r);
                                todo.push(*l);
                                self.push(state, todo);
                                proof {
                                    let cl = cost(lv);
                                    let cr = cost(rv);
                                    assert(goal_views(todo@) =~= tail.push(rv).push(lv));
                                    lemma_pending_push(rest, self@.last());
                                    lemma_chain_push(tail.push(rv), lv, s);
                                    lemma_todo_cost_positive(tail.push(rv));
                                    assert(tail.push(rv).drop_last() =~= tail);
                                    assert(w >= 1 ==> (w * cr) * cl < w * (cl * cr + 1))
                                        by (nonlinear_arith);
                                }
                            },
                            Goal::Either(l, r) => {
                                let ghost lv = l@;
                                let ghost rv = r@;
                                let mut other = copy_goals(&todo);
                                other.push(*r);
                                todo.push(*l);
                                let again = state.clone();
                                self.push(again, other);
                                let ghost middle = self@;
                                self.push(state, todo);
                                proof {
                                    let cl = cost(lv);
                                    let cr = cost(rv);
                                    assert(goal_views(other@) =~= tail.push(rv));
                                    assert(goal_views(todo@) =~= tail.push(lv));
                                    lemma_pending_push(rest, middle.last());
                                    lemma_pending_push(middle, self@.last());
                                    lemma_chain_push(tail, lv, s);
                                    lemma_chain_push(tail, rv, s);
                                    lemma_chain_concat(tail, lv.results(s), rv.results(s));
                                    assert(w >= 1 ==> w * cr + w * cl < w * (cl + cr + 1))
                                        by (nonlinear_arith);
                                    assert(self.remaining() =~= old(self).remaining());
                                }
                            },
                            Goal::Not(g) => {
                                proof {
                                    assert(w >= 1 ==> w < w * 2) by (nonlinear_arith);
                                }
                                let inner = g.apply(&state);
                                if inner.len() == 0 {
                                    self.push(state, todo);
                                    proof {
                                        lemma_pending_push(rest, self@.last());
                                    }
                                }
                            },
                        }
                        Step::Working
                    },
                }
            },
        }
    }

    /// The next state that satisfies the goal, or `None` when none is left.
    /// Only the branches that lead up to that state are explored.
    pub fn next(&mut self) -> (out: Option<State>)
        requires
            old(self).wf(),
        ensures
            final(self).wf(),
            match out {
                Some(s) => {
                    &&& s.wf()
                    &&& old(self).remaining().len() > 0
                    &&& s@ == old(self).remaining()[0]
                    &&& final(self).remaining() == old(self).remaining().skip(1)
                },
                None => old(self).remaining().len() == 0 && final(self).remaining().len() == 0,
            },
    {
        loop
            invariant
                self.wf(),
                self.remaining() == old(self).remaining(),
            decreases self.work_left(),
        {
            match self.step() {
                Step::Found(s) => {
                    return Some(s);
                },
                Step::Exhausted => {
                    return None;
                },
                Step::Working => {},
            }
        }
    }

    /// The next states that satisfy the goal, in order: `limit` of them, or
    /// all that are left where those are fewer.
    pub fn take(&mut self, limit: usize) -> (out: Vec<State>)
        requires
            old(self).wf(),
        ensures
            final(self).wf(),
            all_wf(out@),
            out@.len() <= limit,
            out@.len() <= old(self).remaining().len(),
            out@.len() == limit || out@.len() == old(self).remaining().len(),
            views(out@) == old(self).remaining().take(out@.len() as int),
            final(self).remaining() == old(self).remaining().skip(out@.len() as int),
    {
        let mut out: Vec<State> = Vec::new();
        assert(views(out@) =~= old(self).remaining().take(0));
        assert(self.remaining() =~= old(self).remaining().skip(0));
        while out.len() < limit
            invariant
                self.wf(),
                all_wf(out@),
                out@.len() <= limit,
                out@.len() <= old(self).remaining().len(),
                views(out@) == old(self).remaining().take(out@.len() as int),
                self.remaining() == old(self).remaining().skip(out@.len() as int),
            decreases limit - out@.len(),
        {
            let ghost found = out@;
            let ghost left = self.remaining();
            match self.next() {
                None => {
                    return out;
                },
                Some(s) => {
                    out.push(s);
                    proof {
                        let all = old(self).remaining();
                        let n = found.len() as int;
                        assert(left[0] == all[n]);
                        assert(views(out@) =~= all.take(n + 1));
                        assert(left.skip(1) =~= all.skip(n + 1));
                    }
                },
            }
        }
        out
    }
}

} // verus!
