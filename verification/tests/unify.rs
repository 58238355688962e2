use canrun::state::State;
use canrun::value::{copy_tuple_val, lvar, r, DomainValue, LVar, Tuple, Val, VarSource};

fn tuple(items: Vec<Val<i32>>) -> Val<Tuple> {
    r(Tuple::new(items))
}

#[test]
fn new_state_binds_nothing() {
    let mut source = VarSource::new();
    let x = lvar(&mut source);
    let state = State::new();
    assert_eq!(state.resolve_int(x.val()), x.val());
    assert_eq!(state.reify_int(x.val()), None);
    assert_eq!(state.resolve_tuple(&x.val()), x.val());
    assert_eq!(state.reify_tuple(&x.val()), None);
}

#[test]
fn fresh_variables_differ() {
    let mut source = VarSource::new();
    let x = lvar(&mut source);
    let y = lvar(&mut source);
    assert_eq!(x, LVar { id: 0 });
    assert_eq!(y, LVar { id: 1 });
    assert_ne!(x, y);
    assert_eq!(source.next, 2);
    let v: Val<i32> = x.val();
    assert_eq!(v, Val::Var(x));
    assert_eq!(r(7), Val::Resolved(7));
}

#[test]
fn equal_integers_unify_and_unequal_do_not() {
    let state = State::new();
    assert!(state.unify_int(r(3), r(3)).is_some());
    assert!(state.unify_int(r(3), r(4)).is_none());
    assert!(state.unify_int(r(i32::MIN), r(i32::MAX)).is_none());
}

#[test]
fn unify_binds_a_variable_on_either_side() {
    let mut source = VarSource::new();
    let x = lvar(&mut source);
    let y = lvar(&mut source);
    let state = State::new();
    let left = state.unify_int(x.val(), r(5)).unwrap();
    assert_eq!(left.reify_int(x.val()), Some(5));
    let right = state.unify_int(r(6), y.val()).unwrap();
    assert_eq!(right.reify_int(y.val()), Some(6));
    assert_eq!(right.reify_int(x.val()), None);
    assert_eq!(state.reify_int(x.val()), None);
    assert_eq!(state.reify_int(y.val()), None);
}

#[test]
fn unify_follows_chains_of_variables() {
    let mut source = VarSource::new();
    let x = lvar(&mut source);
    let y = lvar(&mut source);
    let z = lvar(&mut source);
    let state = State::new()
        .unify_int(x.val(), y.val())
        .unwrap()
        .unify_int(z.val(), y.val())
        .unwrap();
    assert_eq!(state.resolve_int(z.val()), x.val());
    assert_eq!(state.resolve_int(y.val()), x.val());
    let bound = state.unify_int(y.val(), r(8)).unwrap();
    assert_eq!(bound.reify_int(x.val()), Some(8));
    assert_eq!(bound.reify_int(y.val()), Some(8));
    assert_eq!(bound.reify_int(z.val()), Some(8));
    assert!(bound.unify_int(z.val(), r(9)).is_none());
    assert!(bound.unify_int(r(8), x.val()).is_some());
}

#[test]
fn unify_is_symmetric() {
    let mut source = VarSource::new();
    let x = lvar(&mut source);
    let y = lvar(&mut source);
    let one = State::new().unify_int(x.val(), y.val()).unwrap();
    let other = State::new().unify_int(y.val(), x.val()).unwrap();
    assert_eq!(one.resolve_int(x.val()), other.resolve_int(x.val()));
    assert_eq!(one.resolve_int(y.val()), other.resolve_int(y.val()));
    assert_eq!(one.resolve_int(y.val()), x.val());
    let a = tuple(vec![x.val(), r(2)]);
    let b = tuple(vec![r(1), y.val()]);
    let ab = State::new().unify_tuple(&a, &b).unwrap();
    let ba = State::new().unify_tuple(&b, &a).unwrap();
    assert_eq!(ab.reify_int(x.val()), ba.reify_int(x.val()));
    assert_eq!(ab.reify_int(y.val()), ba.reify_int(y.val()));
    assert_eq!(ab.reify_int(x.val()), Some(1));
    assert_eq!(ab.reify_int(y.val()), Some(2));
}

#[test]
fn unifying_a_value_with_itself_changes_nothing() {
    let mut source = VarSource::new();
    let x = lvar(&mut source);
    let y = lvar(&mut source);
    let state = State::new().unify_int(x.val(), r(1)).unwrap();
    let same = state.unify_int(r(4), r(4)).unwrap();
    assert_eq!(same.reify_int(x.val()), Some(1));
    assert_eq!(same.resolve_int(y.val()), y.val());
    let t = tuple(vec![r(1), y.val()]);
    let again = state.unify_tuple(&t, &t).unwrap();
    assert_eq!(again.reify_int(x.val()), Some(1));
    assert_eq!(again.resolve_int(y.val()), y.val());
    let var_again = state.unify_int(y.val(), y.val()).unwrap();
    assert_eq!(var_again.resolve_int(y.val()), y.val());
}

#[test]
fn tuple_unification_binds_element_by_element() {
    let mut source = VarSource::new();
    let y = lvar(&mut source);
    let state = State::new();
    let bound = state.unify_tuple(&tuple(vec![r(1), y.val()]), &tuple(vec![r(1), r(2)])).unwrap();
    assert_eq!(bound.reify_int(y.val()), Some(2));
    assert_eq!(state.reify_int(y.val()), None);
}

#[test]
fn tuple_unification_keeps_nothing_of_a_failed_attempt() {
    let mut source = VarSource::new();
    let y = lvar(&mut source);
    let state = State::new();
    assert!(state.unify_tuple(&tuple(vec![r(1), r(3)]), &tuple(vec![r(1), r(2)])).is_none());
    let failed = state.unify_tuple(&tuple(vec![y.val(), r(3)]), &tuple(vec![r(1), r(2)]));
    assert!(failed.is_none());
    assert_eq!(state.resolve_int(y.val()), y.val());
}

#[test]
fn tuple_elements_see_earlier_bindings() {
    let mut source = VarSource::new();
    let y = lvar(&mut source);
    let state = State::new();
    let l = tuple(vec![y.val(), y.val()]);
    assert!(state.unify_tuple(&l, &tuple(vec![r(1), r(2)])).is_none());
    let ok = state.unify_tuple(&l, &tuple(vec![r(1), r(1)])).unwrap();
    assert_eq!(ok.reify_int(y.val()), Some(1));
}

#[test]
fn tuples_of_different_lengths_do_not_unify() {
    let state = State::new();
    assert!(state.unify_tuple(&tuple(vec![r(1)]), &tuple(vec![r(1), r(2)])).is_none());
    assert!(state.unify_tuple(&tuple(vec![]), &tuple(vec![])).is_some());
    assert!(state
        .unify_items(&Tuple::new(vec![r(1), r(2)]), &Tuple::new(vec![r(1), r(2)]))
        .is_some());
}

#[test]
fn tuple_variables_are_bound_and_reified() {
    let mut source = VarSource::new();
    let t = lvar(&mut source);
    let u = lvar(&mut source);
    let y = lvar(&mut source);
    let state = State::new()
        .unify_tuple(&u.val(), &t.val())
        .unwrap()
        .unify_tuple(&t.val(), &tuple(vec![r(1), y.val()]))
        .unwrap();
    assert_eq!(state.resolve_tuple(&u.val()), tuple(vec![r(1), y.val()]));
    assert_eq!(state.reify_tuple(&u.val()), None);
    let done = state.unify_int(y.val(), r(2)).unwrap();
    assert_eq!(done.reify_tuple(&u.val()), Some(vec![1, 2]));
    assert_eq!(done.reify_tuple(&t.val()), Some(vec![1, 2]));
    assert_eq!(done.reify_tuple(&tuple(vec![y.val(), y.val(), r(0)])), Some(vec![2, 2, 0]));
}

#[test]
fn integer_and_tuple_variables_are_kept_apart() {
    let mut source = VarSource::new();
    let x = lvar(&mut source);
    let state = State::new().unify_int(x.val(), r(1)).unwrap();
    assert_eq!(state.resolve_tuple(&x.val()), x.val());
    let both = state.unify_tuple(&x.val(), &tuple(vec![r(2)])).unwrap();
    assert_eq!(both.reify_int(x.val()), Some(1));
    assert_eq!(both.reify_tuple(&x.val()), Some(vec![2]));
}

#[test]
fn domain_values_of_one_kind_unify() {
    let mut source = VarSource::new();
    let x = lvar(&mut source);
    let state = State::new();
    let ints = state
        .unify_domain_values(&DomainValue::Int(x.val()), &DomainValue::Int(r(3)))
        .unwrap();
    assert_eq!(ints.reify_int(x.val()), Some(3));
    let tuples = state
        .unify_domain_values(
            &DomainValue::Tuple(tuple(vec![x.val()])),
            &DomainValue::Tuple(tuple(vec![r(4)])),
        )
        .unwrap();
    assert_eq!(tuples.reify_int(x.val()), Some(4));
    assert!(state
        .unify_domain_values(&DomainValue::Int(r(1)), &DomainValue::Int(r(2)))
        .is_none());
}

#[test]
fn clone_keeps_the_bindings() {
    let mut source = VarSource::new();
    let x = lvar(&mut source);
    let state = State::new().unify_int(x.val(), r(1)).unwrap();
    let copy = state.clone();
    assert_eq!(copy.reify_int(x.val()), Some(1));
}

#[test]
fn copies_keep_the_content() {
    let mut source = VarSource::new();
    let x = lvar(&mut source);
    let t = tuple(vec![r(1), x.val()]);
    assert_eq!(copy_tuple_val(&t), t);
    let v: Val<Tuple> = x.val();
    assert_eq!(copy_tuple_val(&v), v);
    assert_eq!(Tuple::new(vec![r(1), r(2)]).duplicate().items, vec![r(1), r(2)]);
}

#[test]
fn bindings_can_be_read_as_they_were_made() {
    let mut source = VarSource::new();
    let x = lvar(&mut source);
    let y = lvar(&mut source);
    let state = State::new()
        .unify_int(y.val(), x.val())
        .unwrap()
        .unify_int(x.val(), r(3))
        .unwrap();
    assert_eq!(state.bound_int(y), Some(x.val()));
    assert_eq!(state.bound_int(x), Some(r(3)));
    assert_eq!(state.bound_tuple(x), None);
    let with_tuple = state.unify_tuple(&y.val(), &tuple(vec![x.val()])).unwrap();
    assert_eq!(with_tuple.bound_tuple(y), Some(tuple(vec![x.val()])));
    assert_eq!(State::default().bound_int(x), None);
}
