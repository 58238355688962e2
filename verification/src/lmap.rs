//! Logic maps: lists of key/value entries, and the goals that one is
//! contained in another.

use vstd::prelude::*;
use crate::goal::{both, either, unify_int, Goal, GoalView};
use crate::value::Val;

verus! {

/// A list of entries, each a key and a value, in the order in which they
/// were added. Keys may be variables and may repeat.
#[derive(Clone, Debug, PartialEq, Eq)]
pub struct LMap {
    pub entries: Vec<(Val<i32>, Val<i32>)>,
}

impl View for LMap {
    type V = Seq<(Val<i32>, Val<i32>)>;

    open spec fn view(&self) -> Seq<(Val<i32>, Val<i32>)> {
        self.entries@
    }
}

impl LMap {
    /// A map without entries.
    pub fn new() -> (map: LMap)
        ensures
            map@ == Seq::<(Val<i32>, Val<i32>)>::empty(),
    {
        LMap { entries: Vec::new() }
    }

    /// Adds an entry after those already there.
    pub fn insert(&mut self, key: Val<i32>, value: Val<i32>)
        ensures
            final(self)@ == old(self)@.push((key, value)),
    {
        self.entries.push((key, value));
    }
}

/// Whether two integer values are the same variable or the same integer.
pub fn same_val(a: Val<i32>, b: Val<i32>) -> (same: bool)
    ensures
        same == (a == b),
{
    match (a, b) {
        (Val::Var(x), Val::Var(y)) => x.id == y.id,
        (Val::Resolved(m), Val::Resolved(n)) => m == n,
        _ => false,
    }
}

/// The position, at or after `from`, of the first entry of `b` whose key is
/// `key` itself.
pub open spec fn key_position(
    b: Seq<(Val<i32>, Val<i32>)>,
    key: Val<i32>,
    from: nat,
) -> Option<nat>
    decreases b.len() - from,
{
    if from >= b.len() {
        None
    } else if b[from as int].0 == key {
        Some(from)
    } else {
        key_position(b, key, from + 1)
    }
}

/// The goal that entry `e` and entry `f` agree in key and in value.
pub open spec fn pairing(e: (Val<i32>, Val<i32>), f: (Val<i32>, Val<i32>)) -> GoalView {
    GoalView::Both(
        Box::new(GoalView::UnifyInt(e.0, f.0)),
        Box::new(GoalView::UnifyInt(e.1, f.1)),
    )
}

/// The goal that entry `e` agrees with one of the entries of `b` at or after
/// `from`, the earlier ones tried first.
pub open spec fn any_pairing(
    e: (Val<i32>, Val<i32>),
    b: Seq<(Val<i32>, Val<i32>)>,
    from: nat,
) -> GoalView
    decreases b.len() - from,
{
    if from >= b.len() {
        GoalView::Fail
    } else {
        GoalView::Either(Box::new(pairing(e, b[from as int])), Box::new(any_pairing(e, b, from + 1)))
    }
}

/// The goal that entry `e` is found in `b`. Where `b` has an entry under the
/// very key of `e`, the two values must agree; otherwise `e` may agree with
/// any entry of `b`.
pub open spec fn matching(e: (Val<i32>, Val<i32>), b: Seq<(Val<i32>, Val<i32>)>) -> GoalView {
    match key_position(b, e.0, 0) {
        Some(j) => GoalView::UnifyInt(e.1, b[j as int].1),
        None => any_pairing(e, b, 0),
    }
}

/// The goal that every entry of `a` at or after `from` is found in `b`, all
/// of them under the same bindings.
pub open spec fn subset_goal(
    a: Seq<(Val<i32>, Val<i32>)>,
    b: Seq<(Val<i32>, Val<i32>)>,
    from: nat,
) -> GoalView
    decreases a.len() - from,
{
    if from >= a.len() {
        GoalView::Succeed
    } else {
        GoalView::Both(Box::new(matching(a[from as int], b)), Box::new(subset_goal(a, b, from + 1)))
    }
}

/// The goal that every entry of `b` is found in `a`.
pub open spec fn superset_goal(
    a: Seq<(Val<i32>, Val<i32>)>,
    b: Seq<(Val<i32>, Val<i32>)>,
) -> GoalView {
    subset_goal(b, a, 0)
}

/// Finds the first entry of `b` whose key is `key` itself.
pub fn find_key(b: &LMap, key: Val<i32>) -> (found: Option<usize>)
    ensures
        match found {
            Some(j) => j < b@.len() && key_position(b@, key, 0) == Some(j as nat),
            None => key_position(b@, key, 0).is_none(),
        },
{
    let mut i: usize = 0;
    while i < b.entries.len()
        invariant
            i <= b.entries.len(),
            key_position(b@, key, i as nat) == key_position(b@, key, 0),
        decreases b.entries.len() - i,
    {
        if same_val(b.entries[i].0, key) {
            return Some(i);
        }
        i = i + 1;
    }
    None
}

/// Builds the goal that entry `e` is found in `b`.
pub fn match_entry(e: (Val<i32>, Val<i32>), b: &LMap) -> (goal: Goal)
    ensures
        goal@ == matching(e, b@),
{
    match find_key(b, e.0) {
        Some(j) => unify_int(e.1, b.entries[j].1),
        None => {
            let mut goal = Goal::Fail;
            let mut i: usize = b.entries.len();
            while i > 0
                invariant
                    i <= b.entries.len(),
                    goal@ == any_pairing(e, b@, i as nat),
                decreases i,
            {
                i = i - 1;
                let f = b.entries[i];
                goal = either(both(unify_int(e.0, f.0), unify_int(e.1, f.1)), goal);
            }
            goal
        },
    }
}

/// The goal that `a` is contained in `b`: every entry of `a`, taken in
/// order, is found in `b`, and all of them under the same bindings. Two
/// entries of `a` may be found in the same entry of `b`, and a map without
/// entries is contained in every map.
pub fn subset(a: &LMap, b: &LMap) -> (goal: Goal)
    ensures
        goal@ == subset_goal(a@, b@, 0),
{
    let mut goal = Goal::Succeed;
    let mut i: usize = a.entries.len();
    while i > 0
        invariant
            i <= a.entries.len(),
            goal@ == subset_goal(a@, b@, i as nat),
        decreases i,
    {
        i = i - 1;
        goal = both(match_entry(a.entries[i], b), goal);
    }
    goal
}

/// The goal that `a` contains `b`: `b` is contained in `a`.
pub fn superset(a: &LMap, b: &LMap) -> (goal: Goal)
    ensures
        goal@ == superset_goal(a@, b@),
{
    subset(b, a)
}

} // verus!
