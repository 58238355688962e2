use canrun::goal::Goal;
use canrun::lmap::{find_key, match_entry, same_val, subset, superset, LMap};
use canrun::state::State;
use canrun::value::{lvar, r, LVar, Val, VarSource};

fn lmap(entries: Vec<(Val<i32>, Val<i32>)>) -> LMap {
    let mut map = LMap::new();
    for (key, value) in entries {
        map.insert(key, value);
    }
    map
}

fn var(source: &mut VarSource) -> LVar {
    lvar(source)
}

fn count(goal: &Goal) -> usize {
    goal.apply(&State::new()).len()
}

#[test]
fn subset_should_succeed_on() {
    let mut source = VarSource::new();
    let x = var(&mut source);
    let cases = vec![
        (lmap(vec![(r(1), r(2))]), lmap(vec![(r(1), r(2))])),
        (lmap(vec![(r(1), r(2))]), lmap(vec![(r(1), r(2)), (r(3), r(4))])),
        (lmap(vec![(x.val(), r(2))]), lmap(vec![(r(1), r(2)), (r(3), r(4))])),
        (lmap(vec![(x.val(), r(2))]), lmap(vec![(x.val(), r(2)), (r(3), r(4))])),
    ];
    for (a, b) in cases {
        let goal: Goal = subset(&a, &b);
        if count(&goal) != 1 {
            panic!("subset failed on {:?} {:?}", a, b);
        }
    }
}

#[test]
fn subset_should_fail_on() {
    let mut source = VarSource::new();
    let x = var(&mut source);
    let cases = vec![
        (lmap(vec![(r(1), r(2)), (r(3), r(4))]), lmap(vec![(r(1), r(2))])),
        (lmap(vec![(x.val(), r(2))]), lmap(vec![(r(1), r(1))])),
        (lmap(vec![(x.val(), r(2))]), lmap(vec![(r(1), r(2)), (x.val(), r(4))])),
    ];
    for (a, b) in cases {
        let goal: Goal = subset(&a, &b);
        if count(&goal) != 0 {
            panic!("subset erroneously succeeded on {:?} {:?}", a, b);
        }
    }
}

#[test]
fn superset_should_succeed_on() {
    let mut source = VarSource::new();
    let x = var(&mut source);
    let cases = vec![
        (lmap(vec![(r(1), r(2))]), lmap(vec![(r(1), r(2))])),
        (lmap(vec![(r(1), r(2)), (r(3), r(4))]), lmap(vec![(r(1), r(2))])),
        (lmap(vec![(x.val(), r(2)), (r(3), r(4))]), lmap(vec![(x.val(), r(2))])),
    ];
    for (a, b) in cases {
        let goal: Goal = superset(&a, &b);
        if count(&goal) != 1 {
            panic!("superset failed on {:?} {:?}", a, b);
        }
    }
}

#[test]
fn superset_should_fail_on() {
    let mut source = VarSource::new();
    let x = var(&mut source);
    let cases = vec![
        (lmap(vec![(r(1), r(2))]), lmap(vec![(r(1), r(2)), (r(3), r(4))])),
        (lmap(vec![(x.val(), r(2))]), lmap(vec![(r(1), r(1))])),
        (lmap(vec![(r(1), r(2)), (x.val(), r(4))]), lmap(vec![(x.val(), r(2))])),
    ];
    for (a, b) in cases {
        let goal: Goal = superset(&a, &b);
        if count(&goal) != 0 {
            panic!("superset erroneously succeeded on {:?} {:?}", a, b);
        }
    }
}

#[test]
fn subset_binds_the_key_variable() {
    let mut source = VarSource::new();
    let x = var(&mut source);
    let a = lmap(vec![(x.val(), r(2))]);
    let b = lmap(vec![(r(1), r(2)), (r(3), r(4))]);
    assert_eq!(subset(&a, &b).query_int(x.val()), vec![1]);
}

#[test]
fn superset_binds_the_key_variable() {
    let mut source = VarSource::new();
    let x = var(&mut source);
    let a = lmap(vec![(x.val(), r(2)), (r(3), r(4))]);
    let b = lmap(vec![(r(1), r(2))]);
    assert_eq!(superset(&a, &b).query_int(x.val()), vec![1]);
    let c = lmap(vec![(r(1), r(2)), (r(3), r(4))]);
    let d = lmap(vec![(x.val(), r(2))]);
    assert_eq!(superset(&c, &d).query_int(x.val()), vec![1]);
}

#[test]
fn superset_is_subset_with_operands_exchanged() {
    let mut source = VarSource::new();
    let x = var(&mut source);
    let y = var(&mut source);
    let a = lmap(vec![(r(1), r(2)), (r(3), y.val()), (r(5), r(2))]);
    let b = lmap(vec![(x.val(), r(2)), (r(3), r(9))]);
    assert_eq!(superset(&a, &b), subset(&b, &a));
    assert_eq!(superset(&a, &b).query_int(x.val()), subset(&b, &a).query_int(x.val()));
    assert_eq!(superset(&a, &b).query_int(x.val()), vec![1, 5]);
    assert_eq!(superset(&a, &b).query_int(y.val()), vec![9, 9]);
}

#[test]
fn empty_map_is_subset_of_any_map() {
    let empty = LMap::new();
    let b = lmap(vec![(r(1), r(2))]);
    assert_eq!(subset(&empty, &b), Goal::Succeed);
    assert_eq!(count(&subset(&empty, &b)), 1);
    assert_eq!(count(&subset(&empty, &empty)), 1);
    assert_eq!(count(&subset(&b, &empty)), 0);
}

#[test]
fn two_entries_may_match_the_same_entry() {
    let mut source = VarSource::new();
    let x = var(&mut source);
    let y = var(&mut source);
    let a = lmap(vec![(x.val(), r(2)), (y.val(), r(2))]);
    let b = lmap(vec![(r(7), r(2))]);
    let found = subset(&a, &b).apply(&State::new());
    assert_eq!(found.len(), 1);
    assert_eq!(found[0].reify_int(x.val()), Some(7));
    assert_eq!(found[0].reify_int(y.val()), Some(7));
}

#[test]
fn subset_enumerates_matches_in_entry_order() {
    let mut source = VarSource::new();
    let x = var(&mut source);
    let y = var(&mut source);
    let a = lmap(vec![(x.val(), y.val())]);
    let b = lmap(vec![(r(1), r(10)), (r(2), r(20)), (r(3), r(30))]);
    let goal = subset(&a, &b);
    assert_eq!(goal.query_int(x.val()), vec![1, 2, 3]);
    assert_eq!(goal.query_int(y.val()), vec![10, 20, 30]);
}

#[test]
fn match_entry_prefers_the_identical_key() {
    let mut source = VarSource::new();
    let x = var(&mut source);
    let b = lmap(vec![(r(1), r(2)), (x.val(), r(4))]);
    assert_eq!(find_key(&b, x.val()), Some(1));
    assert_eq!(find_key(&b, r(1)), Some(0));
    assert_eq!(find_key(&b, r(4)), None);
    assert_eq!(match_entry((x.val(), r(2)), &b), Goal::UnifyInt(r(2), r(4)));
    let c = lmap(vec![(r(1), r(2))]);
    let expected = Goal::Either(
        Box::new(Goal::Both(
            Box::new(Goal::UnifyInt(x.val(), r(1))),
            Box::new(Goal::UnifyInt(r(2), r(2))),
        )),
        Box::new(Goal::Fail),
    );
    assert_eq!(match_entry((x.val(), r(2)), &c), expected);
}

#[test]
fn same_val_compares_variables_by_identifier() {
    let mut source = VarSource::new();
    let x = var(&mut source);
    let y = var(&mut source);
    assert!(same_val(x.val(), x.val()));
    assert!(!same_val(x.val(), y.val()));
    assert!(same_val(r(3), r(3)));
    assert!(!same_val(r(3), r(4)));
    assert!(!same_val(r(0), x.val()));
}

#[test]
fn insert_keeps_the_order_of_entries() {
    let mut map = LMap::new();
    map.insert(r(1), r(2));
    map.insert(r(1), r(3));
    assert_eq!(map.entries, vec![(r(1), r(2)), (r(1), r(3))]);
}
