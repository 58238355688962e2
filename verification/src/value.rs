//! Logic variables and the values that may stand for them.

use vstd::prelude::*;

verus! {

/// A logic variable: an identifier that names an unknown value.
///
/// Two variables are the same exactly when their identifiers are equal.
#[derive(Clone, Copy, Debug, PartialEq, Eq, Hash)]
pub struct LVar {
    pub id: u64,
}

/// Either a reference to a logic variable or a concrete value.
#[derive(Clone, Copy, Debug, PartialEq, Eq, Hash)]
pub enum Val<T> {
    Var(LVar),
    Resolved(T),
}

/// A tuple whose elements are integer values, each of which may still be a
/// variable.
#[derive(Clone, Debug, PartialEq, Eq, Hash)]
pub struct Tuple {
    pub items: Vec<Val<i32>>,
}

/// A value of one of the two kinds the engine stores bindings for.
#[derive(Clone, Debug, PartialEq, Eq, Hash)]
pub enum DomainValue {
    Int(Val<i32>),
    Tuple(Val<Tuple>),
}

/// The mathematical content of a [`DomainValue`].
pub ghost enum ValueView {
    Int(Val<i32>),
    Tuple(Val<Seq<Val<i32>>>),
}

impl View for Tuple {
    type V = Seq<Val<i32>>;

    open spec fn view(&self) -> Seq<Val<i32>> {
        self.items@
    }
}

impl View for Val<Tuple> {
    type V = Val<Seq<Val<i32>>>;

    open spec fn view(&self) -> Val<Seq<Val<i32>>> {
        match *self {
            Val::Var(x) => Val::Var(x),
            Val::Resolved(t) => Val::Resolved(t@),
        }
    }
}

impl View for DomainValue {
    type V = ValueView;

    open spec fn view(&self) -> ValueView {
        match *self {
            DomainValue::Int(v) => ValueView::Int(v),
            DomainValue::Tuple(v) => ValueView::Tuple(v@),
        }
    }
}

/// A supply of fresh logic variables: each one handed out is new.
#[derive(Debug)]
pub struct VarSource {
    pub next: u64,
}

impl VarSource {
    /// A supply that has handed out nothing yet.
    pub fn new() -> (source: VarSource)
        ensures
            source.next == 0,
    {
        VarSource { next: 0 }
    }
}

/// Takes the next fresh variable from `source`.
pub fn lvar(source: &mut VarSource) -> (x: LVar)
    requires
        old(source).next < u64::MAX,
    ensures
        x.id == old(source).next,
        final(source).next == old(source).next + 1,
{
    let x = LVar { id: source.next };
    source.next = source.next + 1;
    x
}

/// Wraps a concrete value.
pub fn r<T>(t: T) -> (v: Val<T>)
    ensures
        v == Val::Resolved(t),
{
    Val::Resolved(t)
}

impl LVar {
    /// The value that refers to this variable.
    pub fn val<T>(&self) -> (v: Val<T>)
        ensures
            v == Val::<T>::Var(*self),
    {
        Val::Var(*self)
    }
}

impl Tuple {
    /// A tuple with the given elements.
    pub fn new(items: Vec<Val<i32>>) -> (t: Tuple)
        ensures
            t@ == items@,
    {
        Tuple { items }
    }

    /// A copy with the same elements in the same order.
    pub fn duplicate(&self) -> (t: Tuple)
        ensures
            t@ == self@,
    {
        let mut items: Vec<Val<i32>> = Vec::new();
        let mut i: usize = 0;
        while i < self.items.len()
            invariant
                i <= self.items.len(),
                items@ == self.items@.take(i as int),
            decreases self.items.len() - i,
        {
            items.push(self.items[i]);
            i = i + 1;
        }
        assert(items@ =~= self.items@);
        Tuple { items }
    }
}

/// Copies a tuple value, keeping its content.
pub fn copy_tuple_val(v: &Val<Tuple>) -> (c: Val<Tuple>)
    ensures
        c@ == v@,
{
    match v {
        Val::Var(x) => Val::Var(*x),
        Val::Resolved(t) => Val::Resolved(t.duplicate()),
    }
}

} // verus!
