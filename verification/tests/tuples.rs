use canrun::goal::{both, unify_tuple, Goal};
use canrun::value::{lvar, r, LVar, Tuple, Val, VarSource};

fn tuple(items: Vec<Val<i32>>) -> Val<Tuple> {
    r(Tuple::new(items))
}

fn all(goals: Vec<Goal>) -> Goal {
    let mut goal = Goal::Succeed;
    for next in goals.into_iter().rev() {
        goal = both(next, goal);
    }
    goal
}

fn permutations(goals: &Vec<Goal>) -> Vec<Vec<Goal>> {
    if goals.len() <= 1 {
        return vec![goals.clone()];
    }
    let mut out = Vec::new();
    for i in 0..goals.len() {
        let mut rest = goals.clone();
        let first = rest.remove(i);
        for mut tail in permutations(&rest) {
            let mut order = vec![first.clone()];
            order.append(&mut tail);
            out.push(order);
        }
    }
    out
}

fn assert_permutations_resolve_to_tuples(goals: Vec<Goal>, x: LVar, expected: Vec<Vec<i32>>) {
    for order in permutations(&goals) {
        assert_eq!(all(order).query_tuple(&x.val()), expected);
    }
}

fn assert_permutations_resolve_to_ints(goals: Vec<Goal>, x: LVar, expected: Vec<i32>) {
    for order in permutations(&goals) {
        assert_eq!(all(order).query_int(x.val()), expected);
    }
}

#[test]
fn tuple2_succeeds() {
    let mut source = VarSource::new();
    let x = lvar(&mut source);
    let goals: Vec<Goal> = vec![
        unify_tuple(x.val(), tuple(vec![r(1), r(2)])),
        unify_tuple(x.val(), tuple(vec![r(1), r(2)])),
    ];
    assert_permutations_resolve_to_tuples(goals, x, vec![vec![1, 2]]);
}

#[test]
fn tuple2_fails() {
    let mut source = VarSource::new();
    let x = lvar(&mut source);
    let goals: Vec<Goal> = vec![
        unify_tuple(x.val(), tuple(vec![r(1), r(3)])),
        unify_tuple(x.val(), tuple(vec![r(1), r(2)])),
    ];
    assert_permutations_resolve_to_tuples(goals, x, vec![]);
}

#[test]
fn tuple2_nested_var() {
    let mut source = VarSource::new();
    let x = lvar(&mut source);
    let y = lvar(&mut source);
    let goals: Vec<Goal> = vec![
        unify_tuple(x.val(), tuple(vec![r(1), y.val()])),
        unify_tuple(x.val(), tuple(vec![r(1), r(2)])),
    ];
    assert_permutations_resolve_to_ints(goals, y, vec![2]);
}

#[test]
fn tuple3_succeeds() {
    let mut source = VarSource::new();
    let x = lvar(&mut source);
    let goals: Vec<Goal> = vec![
        unify_tuple(x.val(), tuple(vec![r(1), r(2), r(3)])),
        unify_tuple(x.val(), tuple(vec![r(1), r(2), r(3)])),
    ];
    assert_permutations_resolve_to_tuples(goals, x, vec![vec![1, 2, 3]]);
}

#[test]
fn tuple3_fails() {
    let mut source = VarSource::new();
    let x = lvar(&mut source);
    let goals: Vec<Goal> = vec![
        unify_tuple(x.val(), tuple(vec![r(1), r(2), r(3)])),
        unify_tuple(x.val(), tuple(vec![r(1), r(2), r(4)])),
    ];
    assert_permutations_resolve_to_tuples(goals, x, vec![]);
}

#[test]
fn tuple3_nested_var() {
    let mut source = VarSource::new();
    let x = lvar(&mut source);
    let y = lvar(&mut source);
    let goals: Vec<Goal> = vec![
        unify_tuple(x.val(), tuple(vec![r(1), y.val(), r(3)])),
        unify_tuple(x.val(), tuple(vec![r(1), r(2), r(3)])),
    ];
    assert_permutations_resolve_to_ints(goals, y, vec![2]);
}
