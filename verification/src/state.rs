//! The binding store and unification against it.

use vstd::prelude::*;
use std::collections::hash_map::RandomState;
use crate::store::{store_bindings, store_clone, store_get, store_new, store_update};
use crate::value::{copy_tuple_val, DomainValue, LVar, Tuple, Val, ValueView};

verus! {

/// The bindings of one search branch: for each kind of value, a map from the
/// identifier of a bound variable to what it is bound to.
pub ghost struct Bindings {
    pub ints: Map<u64, Val<i32>>,
    pub tuples: Map<u64, Val<Seq<Val<i32>>>>,
}

/// Whether every variable that `m` binds to another variable is bound to one
/// with a smaller identifier, so that no chain of bindings comes back on
/// itself.
pub open spec fn chains_descend<T>(m: Map<u64, Val<T>>) -> bool {
    forall|k: u64| #[trigger]
        m.contains_key(k) ==> match m[k] {
            Val::Var(y) => y.id < k,
            Val::Resolved(_) => true,
        }
}

/// Follows `v` through the bindings of `m`: the first concrete value on the
/// way, or the unbound variable at which the chain ends.
pub open spec fn walk<T>(m: Map<u64, Val<T>>, v: Val<T>) -> Val<T>
    decreases
        (match v {
            Val::Var(x) => x.id + 1,
            Val::Resolved(_) => 0,
        }),
{
    match v {
        Val::Resolved(_) => v,
        Val::Var(x) => if m.contains_key(x.id) {
            match m[x.id] {
                Val::Var(y) => if y.id < x.id {
                    walk(m, Val::Var(y))
                } else {
                    m[x.id]
                },
                Val::Resolved(_) => m[x.id],
            }
        } else {
            v
        },
    }
}

/// The map after two walked values, not both concrete, have been made equal:
/// an unbound variable is bound to the other side, and of two distinct
/// variables the one with the larger identifier is bound to the other.
pub open spec fn bind<T>(m: Map<u64, Val<T>>, a: Val<T>, b: Val<T>) -> Map<u64, Val<T>> {
    match (a, b) {
        (Val::Var(x), Val::Var(y)) => if x.id == y.id {
            m
        } else if y.id < x.id {
            m.insert(x.id, b)
        } else {
            m.insert(y.id, a)
        },
        (Val::Var(x), Val::Resolved(_)) => m.insert(x.id, b),
        (Val::Resolved(_), Val::Var(y)) => m.insert(y.id, a),
        (Val::Resolved(_), Val::Resolved(_)) => m,
    }
}

impl Bindings {
    /// No variable is bound.
    pub open spec fn empty() -> Bindings {
        Bindings { ints: Map::empty(), tuples: Map::empty() }
    }

    /// No chain of bindings comes back on itself.
    pub open spec fn wf(self) -> bool {
        chains_descend(self.ints) && chains_descend(self.tuples)
    }

    /// Whether `later` keeps every binding that `self` has.
    pub open spec fn extended_by(self, later: Bindings) -> bool {
        self.ints.submap_of(later.ints) && self.tuples.submap_of(later.tuples)
    }

    /// Unification of two integer values: two concrete integers unify when
    /// they are equal and leave the bindings as they are; otherwise a
    /// variable is bound.
    pub open spec fn unify_int(self, a: Val<i32>, b: Val<i32>) -> Option<Bindings> {
        let ra = walk(self.ints, a);
        let rb = walk(self.ints, b);
        match (ra, rb) {
            (Val::Resolved(x), Val::Resolved(y)) => if x == y {
                Some(self)
            } else {
                None
            },
            _ => Some(Bindings { ints: bind(self.ints, ra, rb), tuples: self.tuples }),
        }
    }

    /// Unification of the elements of two tuples from position `from` on,
    /// left to right, each against the bindings that the one before left.
    /// Tuples of different lengths do not unify.
    pub open spec fn unify_items(
        self,
        l: Seq<Val<i32>>,
        r: Seq<Val<i32>>,
        from: nat,
    ) -> Option<Bindings>
        decreases l.len() - from,
    {
        if l.len() != r.len() {
            None
        } else if from >= l.len() {
            Some(self)
        } else {
            match self.unify_int(l[from as int], r[from as int]) {
                None => None,
                Some(next) => next.unify_items(l, r, from + 1),
            }
        }
    }

    /// Unification of two tuple values.
    pub open spec fn unify_tuple(
        self,
        a: Val<Seq<Val<i32>>>,
        b: Val<Seq<Val<i32>>>,
    ) -> Option<Bindings> {
        let ra = walk(self.tuples, a);
        let rb = walk(self.tuples, b);
        match (ra, rb) {
            (Val::Resolved(x), Val::Resolved(y)) => self.unify_items(x, y, 0),
            _ => Some(Bindings { ints: self.ints, tuples: bind(self.tuples, ra, rb) }),
        }
    }

    /// Unification of two domain values. Values of different kinds do not
    /// unify.
    pub open spec fn unify_values(self, a: ValueView, b: ValueView) -> Option<Bindings> {
        match (a, b) {
            (ValueView::Int(x), ValueView::Int(y)) => self.unify_int(x, y),
            (ValueView::Tuple(x), ValueView::Tuple(y)) => self.unify_tuple(x, y),
            _ => None,
        }
    }

    /// The concrete integer that `v` stands for, if it stands for one.
    pub open spec fn reified_int(self, v: Val<i32>) -> Option<i32> {
        match walk(self.ints, v) {
            Val::Resolved(n) => Some(n),
            Val::Var(_) => None,
        }
    }

    /// The concrete integers of the elements of `items`, if every one of them
    /// stands for one.
    pub open spec fn reified_items(self, items: Seq<Val<i32>>) -> Option<Seq<i32>> {
        if forall|i: int| 0 <= i < items.len() ==> (#[trigger] self.reified_int(items[i])).is_some() {
            Some(Seq::new(items.len(), |i: int| self.reified_int(items[i]).unwrap()))
        } else {
            None
        }
    }

    /// The concrete tuple that `v` stands for, if it stands for a tuple whose
    /// elements are all known.
    pub open spec fn reified_tuple(self, v: Val<Seq<Val<i32>>>) -> Option<Seq<i32>> {
        match walk(self.tuples, v) {
            Val::Resolved(items) => self.reified_items(items),
            Val::Var(_) => None,
        }
    }
}

/// Where a walk ends at a variable, that variable is unbound.
pub proof fn lemma_walk_ends_unbound<T>(m: Map<u64, Val<T>>, v: Val<T>)
    requires
        chains_descend(m),
    ensures
        match walk(m, v) {
            Val::Var(x) => !m.contains_key(x.id),
            Val::Resolved(_) => true,
        },
    decreases
        (match v {
            Val::Var(x) => x.id + 1,
            Val::Resolved(_) => 0,
        }),
{
    match v {
        Val::Resolved(_) => {},
        Val::Var(x) => {
            if m.contains_key(x.id) {
                match m[x.id] {
                    Val::Var(y) => {
                        lemma_walk_ends_unbound(m, Val::<T>::Var(y));
                    },
                    Val::Resolved(_) => {},
                }
            }
        },
    }
}

/// Binding after a walk keeps the chains descending and retracts nothing.
pub proof fn lemma_bind_preserves<T>(m: Map<u64, Val<T>>, a: Val<T>, b: Val<T>)
    requires
        chains_descend(m),
    ensures
        chains_descend(bind(m, walk(m, a), walk(m, b))),
        m.submap_of(bind(m, walk(m, a), walk(m, b))),
{
    lemma_walk_ends_unbound(m, a);
    lemma_walk_ends_unbound(m, b);
}

/// Whether an outcome is the one expected: failure where failure is
/// expected, and otherwise a valid state with the expected bindings.
pub open spec fn agrees(out: Option<State>, expected: Option<Bindings>) -> bool {
    match out {
        Some(s) => s.wf() && expected == Some(s@),
        None => expected.is_none(),
    }
}

/// Extension is transitive.
pub proof fn lemma_extension_chains(a: Bindings, b: Bindings, c: Bindings)
    requires
        a.extended_by(b),
        b.extended_by(c),
    ensures
        a.extended_by(c),
{
    assert forall|k: u64| #[trigger] a.ints.dom().contains(k) implies c.ints.dom().contains(k)
        && a.ints[k] == c.ints[k] by {
        assert(b.ints.dom().contains(k));
        assert(a.ints[k] == b.ints[k]);
        assert(c.ints.dom().contains(k));
        assert(b.ints[k] == c.ints[k]);
    }
    assert forall|k: u64| #[trigger] a.tuples.dom().contains(k) implies c.tuples.dom().contains(
        k,
    ) && a.tuples[k] == c.tuples[k] by {
        assert(b.tuples.dom().contains(k));
        assert(a.tuples[k] == b.tuples[k]);
        assert(c.tuples.dom().contains(k));
        assert(b.tuples[k] == c.tuples[k]);
    }
}

spec fn int_of(v: ValueView) -> Val<i32> {
    match v {
        ValueView::Int(a) => a,
        ValueView::Tuple(_) => arbitrary(),
    }
}

spec fn tuple_of(v: ValueView) -> Val<Seq<Val<i32>>> {
    match v {
        ValueView::Int(_) => arbitrary(),
        ValueView::Tuple(t) => t,
    }
}

/// A snapshot of the bindings of one search branch. A state is never changed
/// in place: binding a variable gives a new state, and the states it was
/// derived from stay as they were.
#[derive(Debug)]
pub struct State {
    ints: im::HashMap<u64, DomainValue, RandomState>,
    tuples: im::HashMap<u64, DomainValue, RandomState>,
}

impl View for State {
    type V = Bindings;

    closed spec fn view(&self) -> Bindings {
        Bindings {
            ints: Map::new(
                |k: u64| store_bindings(self.ints).contains_key(k),
                |k: u64| int_of(store_bindings(self.ints)[k]),
            ),
            tuples: Map::new(
                |k: u64| store_bindings(self.tuples).contains_key(k),
                |k: u64| tuple_of(store_bindings(self.tuples)[k]),
            ),
        }
    }
}

impl Default for State {
    fn default() -> (out: State)
        ensures
            out.wf(),
            out@ == Bindings::empty(),
    {
        State::new()
    }
}

impl Clone for State {
    fn clone(&self) -> (out: State)
        ensures
            out@ == self@,
            out.wf() == self.wf(),
    {
        State { ints: store_clone(&self.ints), tuples: store_clone(&self.tuples) }
    }
}

impl State {
    /// Each store holds values of its own kind only.
    pub closed spec fn well_kinded(&self) -> bool {
        &&& forall|k: u64| #[trigger]
            store_bindings(self.ints).contains_key(k) ==> store_bindings(self.ints)[k] is Int
        &&& forall|k: u64| #[trigger]
            store_bindings(self.tuples).contains_key(k) ==> store_bindings(
                self.tuples,
            )[k] is Tuple
    }

    /// The validity of a state: what every state made by this library has.
    pub open spec fn wf(&self) -> bool {
        self.well_kinded() && self@.wf()
    }

    /// The state in which no variable is bound.
    pub fn new() -> (out: State)
        ensures
            out.wf(),
            out@ == Bindings::empty(),
    {
        let out = State { ints: store_new(), tuples: store_new() };
        proof {
            assert(out@.ints =~= Map::<u64, Val<i32>>::empty());
            assert(out@.tuples =~= Map::<u64, Val<Seq<Val<i32>>>>::empty());
        }
        out
    }

    /// What the integer variable `x` is bound to, if it is bound.
    pub fn bound_int(&self, x: LVar) -> (out: Option<Val<i32>>)
        requires
            self.wf(),
        ensures
            out == if self@.ints.contains_key(x.id) {
                Some(self@.ints[x.id])
            } else {
                None
            },
    {
        match store_get(&self.ints, x.id) {
            Some(bound) => match bound {
                DomainValue::Int(v) => Some(*v),
                DomainValue::Tuple(_) => None,
            },
            None => None,
        }
    }

    /// What the tuple variable `x` is bound to, if it is bound.
    pub fn bound_tuple(&self, x: LVar) -> (out: Option<Val<Tuple>>)
        requires
            self.wf(),
        ensures
            match out {
                Some(v) => self@.tuples.contains_key(x.id) && self@.tuples[x.id] == v@,
                None => !self@.tuples.contains_key(x.id),
            },
    {
        match store_get(&self.tuples, x.id) {
            Some(bound) => match bound {
                DomainValue::Tuple(v) => Some(copy_tuple_val(v)),
                DomainValue::Int(_) => None,
            },
            None => None,
        }
    }

    /// Follows an integer value through the bindings.
    pub fn resolve_int(&self, v: Val<i32>) -> (out: Val<i32>)
        requires
            self.wf(),
        ensures
            out == walk(self@.ints, v),
        decreases
            (match v {
                Val::Var(x) => x.id + 1,
                Val::Resolved(_) => 0,
            }),
    {
        match v {
            Val::Resolved(_) => v,
            Val::Var(x) => match store_get(&self.ints, x.id) {
                None => v,
                Some(bound) => match bound {
                    DomainValue::Int(next) => match next {
                        Val::Var(y) => {
                            assert(self@.ints.contains_key(x.id));
                            self.resolve_int(*next)
                        },
                        Val::Resolved(_) => *next,
                    },
                    DomainValue::Tuple(_) => v,
                },
            },
        }
    }

    /// Follows a tuple value through the bindings.
    pub fn resolve_tuple(&self, v: &Val<Tuple>) -> (out: Val<Tuple>)
        requires
            self.wf(),
        ensures
            out@ == walk(self@.tuples, v@),
        decreases
            (match v@ {
                Val::Var(x) => x.id + 1,
                Val::Resolved(_) => 0,
            }),
    {
        match v {
            Val::Resolved(_) => copy_tuple_val(v),
            Val::Var(x) => match store_get(&self.tuples, x.id) {
                None => Val::Var(*x),
                Some(bound) => match bound {
                    DomainValue::Tuple(next) => match next {
                        Val::Var(y) => {
                            assert(self@.tuples.contains_key(x.id));
                            self.resolve_tuple(next)
                        },
                        Val::Resolved(_) => copy_tuple_val(next),
                    },
                    DomainValue::Int(_) => Val::Var(*x),
                },
            },
        }
    }

    fn with_int(&self, key: u64, value: Val<i32>) -> (out: State)
        requires
            self.well_kinded(),
        ensures
            out.well_kinded(),
            out@ == (Bindings { ints: self@.ints.insert(key, value), tuples: self@.tuples }),
    {
        let out = State {
            ints: store_update(&self.ints, key, DomainValue::Int(value)),
            tuples: store_clone(&self.tuples),
        };
        proof {
            assert(out@.ints =~= self@.ints.insert(key, value));
            assert(out@.tuples =~= self@.tuples);
        }
        out
    }

    fn with_tuple(&self, key: u64, value: Val<Tuple>) -> (out: State)
        requires
            self.well_kinded(),
        ensures
            out.well_kinded(),
            out@ == (Bindings { ints: self@.ints, tuples: self@.tuples.insert(key, value@) }),
    {
        let out = State {
            ints: store_clone(&self.ints),
            tuples: store_update(&self.tuples, key, DomainValue::Tuple(value)),
        };
        proof {
            assert(out@.ints =~= self@.ints);
            assert(out@.tuples =~= self@.tuples.insert(key, value@));
        }
        out
    }

    /// Unifies two integer values. On success the new state holds the
    /// bindings of this one and at most one more; this state is untouched
    /// either way.
    pub fn unify_int(&self, a: Val<i32>, b: Val<i32>) -> (out: Option<State>)
        requires
            self.wf(),
        ensures
            agrees(out, self@.unify_int(a, b)),
            out.is_some() ==> self@.extended_by(out.unwrap()@),
    {
        let ra = self.resolve_int(a);
        let rb = self.resolve_int(b);
        proof {
            lemma_bind_preserves(self@.ints, a, b);
        }
        match (ra, rb) {
            (Val::Resolved(x), Val::Resolved(y)) => if x == y {
                Some(self.clone())
            } else {
                None
            },
            (Val::Var(x), Val::Var(y)) => if x.id == y.id {
                Some(self.clone())
            } else if y.id < x.id {
                Some(self.with_int(x.id, rb))
            } else {
                Some(self.with_int(y.id, ra))
            },
            (Val::Var(x), Val::Resolved(_)) => Some(self.with_int(x.id, rb)),
            (Val::Resolved(_), Val::Var(y)) => Some(self.with_int(y.id, ra)),
        }
    }

    /// Unifies two tuples element by element, left to right. The first
    /// element that does not unify ends the attempt, and nothing of it is
    /// kept.
    pub fn unify_items(&self, l: &Tuple, r: &Tuple) -> (out: Option<State>)
        requires
            self.wf(),
        ensures
            agrees(out, self@.unify_items(l@, r@, 0)),
            out.is_some() ==> self@.extended_by(out.unwrap()@),
    {
        if l.items.len() != r.items.len() {
            return None;
        }
        let mut cur = self.clone();
        let mut i: usize = 0;
        while i < l.items.len()
            invariant
                i <= l.items.len(),
                l.items.len() == r.items.len(),
                cur.wf(),
                self@.extended_by(cur@),
                cur@.unify_items(l@, r@, i as nat) == self@.unify_items(l@, r@, 0),
            decreases l.items.len() - i,
        {
            let ghost before = cur@;
            match cur.unify_int(l.items[i], r.items[i]) {
                None => {
                    return None;
                },
                Some(next) => {
                    cur = next;
                },
            }
            proof {
                lemma_extension_chains(self@, before, cur@);
            }
            i = i + 1;
        }
        Some(cur)
    }

    /// Unifies two tuple values. This state is untouched either way: a
    /// tuple unifies as a whole or not at all.
    pub fn unify_tuple(&self, a: &Val<Tuple>, b: &Val<Tuple>) -> (out: Option<State>)
        requires
            self.wf(),
        ensures
            agrees(out, self@.unify_tuple(a@, b@)),
            out.is_some() ==> self@.extended_by(out.unwrap()@),
    {
        let ra = self.resolve_tuple(a);
        let rb = self.resolve_tuple(b);
        proof {
            lemma_bind_preserves(self@.tuples, a@, b@);
        }
        match (ra, rb) {
            (Val::Resolved(x), Val::Resolved(y)) => self.unify_items(&x, &y),
            (Val::Var(x), Val::Var(y)) => if x.id == y.id {
                Some(self.clone())
            } else if y.id < x.id {
                Some(self.with_tuple(x.id, Val::Var(y)))
            } else {
                Some(self.with_tuple(y.id, Val::Var(x)))
            },
            (Val::Var(x), Val::Resolved(t)) => Some(self.with_tuple(x.id, Val::Resolved(t))),
            (Val::Resolved(t), Val::Var(y)) => Some(self.with_tuple(y.id, Val::Resolved(t))),
        }
    }

    /// Unifies two domain values of the same kind.
    pub fn unify_domain_values(&self, a: &DomainValue, b: &DomainValue) -> (out: Option<State>)
        requires
            self.wf(),
            a@ is Int <==> b@ is Int,
        ensures
            agrees(out, self@.unify_values(a@, b@)),
            out.is_some() ==> self@.extended_by(out.unwrap()@),
    {
        match (a, b) {
            (DomainValue::Int(x), DomainValue::Int(y)) => self.unify_int(*x, *y),
            (DomainValue::Tuple(x), DomainValue::Tuple(y)) => self.unify_tuple(x, y),
            _ => None,
        }
    }

    /// The concrete integer that `v` stands for in this state, or `None`
    /// where `v` leads to an unbound variable.
    pub fn reify_int(&self, v: Val<i32>) -> (out: Option<i32>)
        requires
            self.wf(),
        ensures
            out == self@.reified_int(v),
    {
        match self.resolve_int(v) {
            Val::Resolved(n) => Some(n),
            Val::Var(_) => None,
        }
    }

    /// The concrete tuple that `v` stands for in this state, or `None` where
    /// `v` or one of the tuple's elements leads to an unbound variable.
    pub fn reify_tuple(&self, v: &Val<Tuple>) -> (out: Option<Vec<i32>>)
        requires
            self.wf(),
        ensures
            match out {
                Some(items) => self@.reified_tuple(v@) == Some(items@),
                None => self@.reified_tuple(v@).is_none(),
            },
    {
        match self.resolve_tuple(v) {
            Val::Var(_) => None,
            Val::Resolved(t) => {
                let mut items: Vec<i32> = Vec::new();
                let mut i: usize = 0;
                while i < t.items.len()
                    invariant
                        i <= t.items.len(),
                        self.wf(),
                        self@.reified_tuple(v@) == self@.reified_items(t@),
                        items@.len() == i,
                        forall|j: int|
                            0 <= j < i ==> #[trigger] self@.reified_int(t@[j]) == Some(items@[j]),
                    decreases t.items.len() - i,
                {
                    match self.reify_int(t.items[i]) {
                        None => {
                            assert(self@.reified_int(t@[i as int]).is_none());
                            return None;
                        },
                        Some(n) => {
                            items.push(n);
                        },
                    }
                    i = i + 1;
                }
                assert(items@ =~= self@.reified_items(t@).unwrap());
                Some(items)
            },
        }
    }
}

} // verus!
