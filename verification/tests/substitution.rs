use crochet_infer::context::Context;
use crochet_infer::env::Env;
use crochet_infer::subst::{apply_type, compose_many_subs, compose_subs, occurs_in, Subst};
use crochet_infer::types::{
    identical_type, same_type, LamType, Lit, Primitive, Scheme, TProp, Type, Variant,
};
use crochet_infer::util::{compose_many_subs_with_context, free_vars, generalize, normalize};

fn ty(id: i32, variant: Variant) -> Type {
    Type { variant, id, frozen: false }
}

fn var(id: i32) -> Type {
    ty(id, Variant::Var)
}

fn num() -> Type {
    ty(100, Variant::Prim(Primitive::Num))
}

fn lit(id: i32, text: &str) -> Type {
    ty(id, Variant::Lit(Lit::Num(String::from(text))))
}

fn lam(params: Vec<Type>, ret: Type) -> Type {
    ty(101, Variant::Lam(LamType { params, ret: Box::new(ret), is_call: false }))
}

fn subst(pairs: Vec<(i32, Type)>) -> Subst {
    let mut s = Subst::new();
    for (id, t) in pairs {
        s.insert(id, t);
    }
    s
}

fn same_subst(a: &Subst, b: &Subst, ids: &[i32]) -> bool {
    ids.iter().all(|id| match (a.get(*id), b.get(*id)) {
        (Some(x), Some(y)) => same_type(x, y),
        (None, None) => true,
        _ => false,
    })
}

#[test]
fn applying_replaces_a_variable_once() {
    let s = subst(vec![(1, var(2)), (2, num())]);
    let t = apply_type(&lam(vec![var(1), var(3)], var(2)), &s);
    assert_eq!(t.to_text(), "(t2, t3) => number");
    assert_eq!(t.id, 101);
}

#[test]
fn a_later_entry_for_a_variable_replaces_the_earlier_one() {
    let mut s = subst(vec![(1, var(2))]);
    s.insert(1, num());
    assert_eq!(s.get(1).unwrap().to_text(), "number");
    assert!(s.contains(1));
    assert!(!s.contains(2));
    assert!(!s.is_empty());
    assert!(Subst::new().is_empty());
    assert_eq!(s.without(&vec![1]).get(1).map(|t| t.to_text()), None);
}

#[test]
fn composing_applies_the_first_to_the_images_of_the_second() {
    let s1 = subst(vec![(2, num())]);
    let s2 = subst(vec![(1, lam(vec![var(2)], var(2)))]);
    let c = compose_subs(&s1, &s2);
    assert_eq!(c.get(1).unwrap().to_text(), "(number) => number");
    assert_eq!(c.get(2).unwrap().to_text(), "number");
}

#[test]
fn in_a_composition_the_entry_of_the_second_counts_for_a_variable_of_both() {
    let s1 = subst(vec![(1, num())]);
    let s2 = subst(vec![(1, var(5))]);
    let c = compose_subs(&s1, &s2);
    assert_eq!(c.get(1).unwrap().to_text(), "t5");
}

#[test]
fn composition_is_associative_on_an_example() {
    let a = subst(vec![(3, num()), (1, var(9))]);
    let b = subst(vec![(2, lam(vec![var(3)], var(1))), (3, var(4))]);
    let c = subst(vec![(1, lam(vec![var(2)], var(3))), (5, var(2))]);
    let left = compose_subs(&a, &compose_subs(&b, &c));
    let right = compose_subs(&compose_subs(&a, &b), &c);
    assert!(same_subst(&left, &right, &[1, 2, 3, 4, 5, 9]));
    assert_eq!(left.get(1).unwrap().to_text(), "((number) => t9) => t4");
}

#[test]
fn composing_many_folds_from_the_left() {
    let a = subst(vec![(3, num())]);
    let b = subst(vec![(2, var(3))]);
    let c = subst(vec![(1, var(2))]);
    let all = compose_many_subs(&[a.clone(), b.clone(), c.clone()]);
    let by_hand = compose_subs(&compose_subs(&compose_subs(&Subst::new(), &a), &b), &c);
    assert!(same_subst(&all, &by_hand, &[1, 2, 3]));
    assert_eq!(all.get(1).unwrap().to_text(), "number");
    assert!(compose_many_subs(&[]).is_empty());
}

#[test]
fn applying_twice_changes_nothing_once_the_variables_are_gone() {
    let s = subst(vec![(1, num()), (2, var(7))]);
    let t = lam(vec![var(1)], var(2));
    let once = apply_type(&t, &s);
    let twice = apply_type(&once, &s);
    assert!(same_type(&once, &twice));
    assert_eq!(twice.to_text(), "(number) => t7");
}

#[test]
fn the_occurs_check_looks_at_every_depth() {
    let t = lam(vec![lam(vec![var(1)], num())], var(2));
    assert!(occurs_in(1, &t));
    assert!(occurs_in(2, &t));
    assert!(!occurs_in(3, &t));
    assert!(!occurs_in(100, &t));
}

#[test]
fn a_scheme_keeps_the_variables_that_it_quantifies_over() {
    let sc = Scheme { qualifiers: vec![1], ty: lam(vec![var(1)], var(2)) };
    let s = subst(vec![(1, num()), (2, num())]);
    assert_eq!(sc.apply(&s).to_text(), "<t1>(t1) => number");
}

#[test]
fn an_environment_is_applied_binding_by_binding() {
    let mut env = Env::new();
    env.insert(String::from("f"), Scheme::from_type(lam(vec![var(1)], var(2))));
    env.insert(String::from("x"), Scheme::from_type(var(1)));
    let applied = env.apply(&subst(vec![(1, num())]));
    assert_eq!(applied.get("f").unwrap().to_text(), "(number) => t2");
    assert_eq!(applied.get("x").unwrap().to_text(), "number");
    assert!(applied.get("y").is_none());
    assert!(env.has_free(1));
    assert!(env.has_free(2));
    assert!(!env.has_free(3));
    env.insert(String::from("x"), Scheme::from_type(num()));
    assert_eq!(env.get("x").unwrap().to_text(), "number");
    assert!(env.contains("f"));
}

#[test]
fn free_variables_come_in_the_order_of_their_first_occurrence() {
    let t = lam(vec![var(7), var(3)], lam(vec![var(7)], var(5)));
    assert_eq!(free_vars(&t), vec![7, 3, 5]);
    assert_eq!(free_vars(&num()), Vec::<i32>::new());
}

#[test]
fn generalizing_quantifies_over_what_the_environment_leaves_free() {
    let t = lam(vec![var(7), var(3)], var(5));
    let sc = generalize(&Env::new(), &t);
    assert_eq!(sc.qualifiers, vec![3, 5, 7]);
    assert_eq!(sc.ty.to_text(), "(t7, t3) => t5");
    let mut env = Env::new();
    env.insert(String::from("x"), Scheme::from_type(var(3)));
    env.insert(String::from("y"), Scheme { qualifiers: vec![5], ty: var(5) });
    let sc = generalize(&env, &t);
    assert_eq!(sc.qualifiers, vec![5, 7]);
}

#[test]
fn normalizing_renumbers_in_the_order_of_first_occurrence() {
    let ctx = Context::default();
    let sc = Scheme { qualifiers: vec![], ty: lam(vec![var(7), var(3)], lam(vec![var(7)], var(5))) };
    let n = normalize(&sc, &ctx).unwrap();
    assert_eq!(n.to_text(), "<t0, t1, t2>(t0, t1) => (t0) => t2");
    assert_eq!(ctx.state.count, 0);
}

#[test]
fn normalizing_twice_is_normalizing_once() {
    let ctx = Context::default();
    let sc = Scheme { qualifiers: vec![9], ty: lam(vec![var(9), var(4)], var(9)) };
    let once = normalize(&sc, &ctx).unwrap();
    let twice = normalize(&once, &ctx).unwrap();
    assert_eq!(once.qualifiers, twice.qualifiers);
    assert!(same_type(&once.ty, &twice.ty));
    assert_eq!(twice.to_text(), "<t0, t1>(t0, t1) => t0");
}

#[test]
fn instantiating_gives_each_quantified_variable_a_fresh_one() {
    let mut ctx = Context::default();
    ctx.state.count = 10;
    let sc = Scheme { qualifiers: vec![0, 1], ty: lam(vec![var(0)], lam(vec![var(1)], var(0))) };
    assert_eq!(ctx.instantiate(&sc).to_text(), "(t11) => (t12) => t11");
    assert_eq!(ctx.instantiate(&sc).to_text(), "(t13) => (t14) => t13");
    assert_eq!(ctx.state.count, 14);
}

#[test]
fn composing_with_context_joins_the_images_of_a_shared_variable() {
    let mut ctx = Context::default();
    ctx.state.count = 50;
    let a = subst(vec![(1, lit(1, "5"))]);
    let b = subst(vec![(1, lit(2, "10")), (2, var(1))]);
    let c = compose_many_subs_with_context(&[a, b], &mut ctx).unwrap();
    assert_eq!(c.get(1).unwrap().to_text(), "5 | 10");
    assert_eq!(c.get(2).unwrap().to_text(), "5");
    assert_eq!(ctx.state.count, 51);
}

fn object(id: i32, props: Vec<(&str, Type)>) -> Type {
    ty(
        id,
        Variant::Object(
            props
                .into_iter()
                .map(|(name, t)| TProp { name: String::from(name), optional: false, ty: t })
                .collect(),
        ),
    )
}

#[test]
fn normalizing_simplifies_the_intersections_anew() {
    let mut ctx = Context::default();
    ctx.state.count = 40;
    let both = ty(
        30,
        Variant::Intersection(vec![object(10, vec![("x", var(5))]), object(11, vec![("y", var(3))])]),
    );
    let n = normalize(&Scheme::from_type(both), &ctx).unwrap();
    assert_eq!(n.to_text(), "<t0, t1>{x: t0, y: t1}");
    assert_eq!(n.ty.id, 41);
    assert_eq!(ctx.state.count, 40);
    let twice = ty(
        30,
        Variant::Intersection(vec![object(10, vec![("x", var(5))]), object(11, vec![("x", var(5))])]),
    );
    let n = normalize(&Scheme::from_type(twice), &ctx).unwrap();
    assert_eq!(n.to_text(), "<t0>{x: t0}");
    let mixed = ty(
        30,
        Variant::Intersection(vec![var(8), object(10, vec![("x", var(5))]), var(9)]),
    );
    let n = normalize(&Scheme::from_type(mixed), &ctx).unwrap();
    assert_eq!(n.to_text(), "<t0, t1, t2>t0 & t1 & {x: t2}");
    ctx.state.count = i32::MAX;
    let both = ty(
        30,
        Variant::Intersection(vec![object(10, vec![("x", var(5))]), object(11, vec![("y", var(3))])]),
    );
    assert!(normalize(&Scheme::from_type(both), &ctx).is_err());
}

#[test]
fn composing_with_context_keeps_the_entries_of_both() {
    let mut ctx = Context::default();
    let a = subst(vec![(3, num())]);
    let b = subst(vec![(1, var(3)), (2, var(9))]);
    let c = compose_many_subs_with_context(&[a, b], &mut ctx).unwrap();
    assert_eq!(c.get(1).unwrap().to_text(), "number");
    assert_eq!(c.get(2).unwrap().to_text(), "t9");
    assert_eq!(c.get(3).unwrap().to_text(), "number");
    assert_eq!(ctx.state.count, 0);
    assert!(compose_many_subs_with_context(&[], &mut ctx).unwrap().is_empty());
}

#[test]
fn normalizing_twice_is_normalizing_once_with_intersections_too() {
    let mut ctx = Context::default();
    ctx.state.count = 40;
    let swapped = ty(
        30,
        Variant::Intersection(vec![
            ty(5, Variant::Lam(LamType { params: vec![var(20)], ret: Box::new(num()), is_call: false })),
            ty(2, Variant::Lam(LamType { params: vec![var(30)], ret: Box::new(num()), is_call: false })),
        ]),
    );
    let once = normalize(&Scheme::from_type(swapped), &ctx).unwrap();
    assert_eq!(once.to_text(), "<t0, t1>(t0) => number & (t1) => number");
    let twice = normalize(&once, &ctx).unwrap();
    assert_eq!(once.qualifiers, twice.qualifiers);
    assert!(identical_type(&once.ty, &twice.ty));
    let mixed = ty(
        30,
        Variant::Intersection(vec![
            var(8),
            object(10, vec![("x", var(5)), ("y", var(8))]),
            var(9),
            object(11, vec![("x", var(9))]),
        ]),
    );
    let once = normalize(&Scheme::from_type(mixed), &ctx).unwrap();
    let twice = normalize(&once, &ctx).unwrap();
    assert_eq!(once.qualifiers, twice.qualifiers);
    assert!(identical_type(&once.ty, &twice.ty));
    assert_eq!(crochet_infer::util::free_vars(&once.ty), once.qualifiers);
}

#[test]
fn identical_types_agree_in_ids_and_marks() {
    assert!(identical_type(&var(1), &var(1)));
    assert!(!identical_type(&num(), &ty(7, Variant::Prim(Primitive::Num))));
    let mut frozen = num();
    frozen.frozen = true;
    assert!(!identical_type(&num(), &frozen));
    assert!(identical_type(&lam(vec![var(1)], num()), &lam(vec![var(1)], num())));
    assert!(!identical_type(&lam(vec![var(1)], num()), &lam(vec![var(2)], num())));
}
