//! Reading concrete values out of the states that a search has found.

use vstd::prelude::*;
use crate::goal::{all_wf, views, Goal};
use crate::state::{Bindings, State};
use crate::value::{Tuple, Val};

verus! {

/// What `v` stands for in each of `states` in turn, leaving out the states
/// in which it leads to an unbound variable.
pub open spec fn known_ints(states: Seq<Bindings>, v: Val<i32>) -> Seq<i32>
    decreases states.len(),
{
    if states.len() == 0 {
        Seq::empty()
    } else {
        match states.last().reified_int(v) {
            Some(n) => known_ints(states.drop_last(), v).push(n),
            None => known_ints(states.drop_last(), v),
        }
    }
}

/// What the tuple value `v` stands for in each of `states` in turn, leaving
/// out the states in which it, or one of its elements, leads to an unbound
/// variable.
pub open spec fn known_tuples(states: Seq<Bindings>, v: Val<Seq<Val<i32>>>) -> Seq<Seq<i32>>
    decreases states.len(),
{
    if states.len() == 0 {
        Seq::empty()
    } else {
        match states.last().reified_tuple(v) {
            Some(t) => known_tuples(states.drop_last(), v).push(t),
            None => known_tuples(states.drop_last(), v),
        }
    }
}

/// The content of each of `tuples`, in order.
pub open spec fn contents(tuples: Seq<Vec<i32>>) -> Seq<Seq<i32>> {
    Seq::new(tuples.len(), |i: int| tuples[i]@)
}

/// The integer that `v` stands for in each of `states`, in order; a state in
/// which it stands for none gives nothing.
pub fn reify_ints(states: &Vec<State>, v: Val<i32>) -> (out: Vec<i32>)
    requires
        all_wf(states@),
    ensures
        out@ == known_ints(views(states@), v),
{
    let mut out: Vec<i32> = Vec::new();
    let mut i: usize = 0;
    assert(views(states@).take(0) =~= Seq::empty());
    while i < states.len()
        invariant
            i <= states.len(),
            all_wf(states@),
            out@ == known_ints(views(states@).take(i as int), v),
        decreases states.len() - i,
    {
        proof {
            let prefix = views(states@).take(i + 1);
            assert(prefix.drop_last() =~= views(states@).take(i as int));
            assert(prefix.last() == states@[i as int]@);
        }
        match states[i].reify_int(v) {
            Some(n) => {
                out.push(n);
            },
            None => {},
        }
        i = i + 1;
    }
    assert(views(states@).take(states@.len() as int) =~= views(states@));
    out
}

/// The tuple that `v` stands for in each of `states`, in order; a state in
/// which it stands for none gives nothing.
pub fn reify_tuples(states: &Vec<State>, v: &Val<Tuple>) -> (out: Vec<Vec<i32>>)
    requires
        all_wf(states@),
    ensures
        contents(out@) == known_tuples(views(states@), v@),
{
    let mut out: Vec<Vec<i32>> = Vec::new();
    let mut i: usize = 0;
    assert(views(states@).take(0) =~= Seq::empty());
    assert(contents(out@) =~= Seq::empty());
    while i < states.len()
        invariant
            i <= states.len(),
            all_wf(states@),
            contents(out@) == known_tuples(views(states@).take(i as int), v@),
        decreases states.len() - i,
    {
        proof {
            let prefix = views(states@).take(i + 1);
            assert(prefix.drop_last() =~= views(states@).take(i as int));
            assert(prefix.last() == states@[i as int]@);
        }
        let ghost before = out@;
        match states[i].reify_tuple(v) {
            Some(t) => {
                out.push(t);
                assert(contents(out@) =~= contents(before).push(t@));
            },
            None => {},
        }
        i = i + 1;
    }
    assert(views(states@).take(states@.len() as int) =~= views(states@));
    out
}

impl Goal {
    /// Searches from the state without bindings and gives, for each state
    /// found, the integer that `v` stands for there.
    pub fn query_int(&self, v: Val<i32>) -> (out: Vec<i32>)
        ensures
            out@ == known_ints(self@.results(Bindings::empty()), v),
    {
        let start = State::new();
        let found = self.apply(&start);
        reify_ints(&found, v)
    }

    /// Searches from the state without bindings and gives, for each state
    /// found, the tuple that `v` stands for there.
    pub fn query_tuple(&self, v: &Val<Tuple>) -> (out: Vec<Vec<i32>>)
        ensures
            contents(out@) == known_tuples(self@.results(Bindings::empty()), v@),
    {
        let start = State::new();
        let found = self.apply(&start);
        reify_tuples(&found, v)
    }
}

} // verus!
