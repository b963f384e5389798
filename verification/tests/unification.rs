use crochet_infer::context::Context;
use crochet_infer::error::InferError;
use crochet_infer::types::{AliasType, LamType, Lit, Primitive, TProp, Type, Variant};
use crochet_infer::unify::{unify, MAX_DEPTH};

fn ty(id: i32, variant: Variant) -> Type {
    Type { variant, id, frozen: false }
}

fn var(id: i32) -> Type {
    ty(id, Variant::Var)
}

fn prim(p: Primitive) -> Type {
    ty(100, Variant::Prim(p))
}

fn num_lit(text: &str) -> Type {
    ty(101, Variant::Lit(Lit::Num(String::from(text))))
}

fn str_lit(text: &str) -> Type {
    ty(102, Variant::Lit(Lit::Str(String::from(text))))
}

fn lam(params: Vec<Type>, ret: Type) -> Type {
    ty(103, Variant::Lam(LamType { params, ret: Box::new(ret), is_call: false }))
}

fn tuple(elems: Vec<Type>) -> Type {
    ty(104, Variant::Tuple(elems))
}

fn object(props: Vec<(&str, bool, Type)>) -> Type {
    ty(
        105,
        Variant::Object(
            props
                .into_iter()
                .map(|(name, optional, t)| TProp { name: String::from(name), optional, ty: t })
                .collect(),
        ),
    )
}

fn alias(name: &str, args: Option<Vec<Type>>) -> Type {
    ty(106, Variant::Alias(AliasType { name: String::from(name), type_params: args }))
}

fn array(elem: Type) -> Type {
    ty(107, Variant::Array(Box::new(elem)))
}

fn ctx() -> Context {
    Context::default()
}

fn message(r: Result<crochet_infer::subst::Subst, InferError>) -> String {
    match r {
        Ok(_) => String::from("no error"),
        Err(e) => e.message(),
    }
}

#[test]
fn a_variable_is_bound_to_the_other_side() {
    let s = unify(&var(1), &prim(Primitive::Num), &ctx()).unwrap();
    assert_eq!(s.get(1).unwrap().to_text(), "number");
    assert_eq!(s.keys(), vec![1]);
    let s = unify(&prim(Primitive::Num), &var(1), &ctx()).unwrap();
    assert_eq!(s.get(1).unwrap().to_text(), "number");
    let s = unify(&var(1), &var(2), &ctx()).unwrap();
    assert_eq!(s.get(1).unwrap().to_text(), "t2");
}

#[test]
fn a_variable_unifies_with_itself_under_the_empty_substitution() {
    assert!(unify(&var(1), &var(1), &ctx()).unwrap().is_empty());
}

#[test]
fn a_variable_does_not_unify_with_a_type_that_contains_it() {
    let t = lam(vec![var(1)], prim(Primitive::Num));
    match unify(&var(1), &t, &ctx()) {
        Err(InferError::InfiniteType(id, inside)) => {
            assert_eq!(id, 1);
            assert_eq!(inside.to_text(), "(t1) => number");
        }
        _ => panic!("expected the infinite-type error"),
    }
    assert!(matches!(unify(&t, &var(1), &ctx()), Err(InferError::InfiniteType(1, _))));
    assert_eq!(
        message(unify(&var(1), &tuple(vec![var(1)]), &ctx())),
        "Infinite type: t1 occurs in [t1]"
    );
}

#[test]
fn a_type_without_variables_unifies_with_itself_under_the_empty_substitution() {
    let t = lam(
        vec![
            object(vec![
                ("a", false, prim(Primitive::Str)),
                ("b", true, tuple(vec![num_lit("5"), prim(Primitive::Bool)])),
            ]),
            alias("Promise", Some(vec![array(prim(Primitive::Num))])),
        ],
        ty(1, Variant::Union(vec![num_lit("5"), str_lit("x")])),
    );
    assert!(unify(&t, &t, &ctx()).unwrap().is_empty());
}

#[test]
fn primitives_unify_when_they_are_the_same() {
    assert!(unify(&prim(Primitive::Num), &prim(Primitive::Num), &ctx()).unwrap().is_empty());
    assert_eq!(
        message(unify(&prim(Primitive::Num), &prim(Primitive::Str), &ctx())),
        "Unification failure: number != string"
    );
}

#[test]
fn literals_unify_when_they_are_the_same_value() {
    assert!(unify(&num_lit("5"), &num_lit("5"), &ctx()).unwrap().is_empty());
    assert_eq!(
        message(unify(&num_lit("5"), &num_lit("10"), &ctx())),
        "Unification failure: 5 != 10"
    );
    assert_eq!(
        message(unify(&num_lit("5"), &str_lit("5"), &ctx())),
        "Unification failure: 5 != \"5\""
    );
}

#[test]
fn a_literal_fits_the_primitive_of_its_kind_in_either_order() {
    assert!(unify(&num_lit("5"), &prim(Primitive::Num), &ctx()).unwrap().is_empty());
    assert!(unify(&prim(Primitive::Num), &num_lit("5"), &ctx()).unwrap().is_empty());
    assert!(unify(&str_lit("a"), &prim(Primitive::Str), &ctx()).unwrap().is_empty());
    assert!(unify(&ty(1, Variant::Lit(Lit::Bool(true))), &prim(Primitive::Bool), &ctx())
        .unwrap()
        .is_empty());
    assert!(unify(&ty(1, Variant::Lit(Lit::Null)), &prim(Primitive::Null), &ctx())
        .unwrap()
        .is_empty());
    assert!(unify(&ty(1, Variant::Lit(Lit::Undefined)), &prim(Primitive::Undefined), &ctx())
        .unwrap()
        .is_empty());
    assert_eq!(
        message(unify(&str_lit("hello"), &prim(Primitive::Bool), &ctx())),
        "Unification failure: \"hello\" != boolean"
    );
    assert!(matches!(
        unify(&prim(Primitive::Str), &num_lit("5"), &ctx()),
        Err(InferError::Mismatch(_, _))
    ));
}

#[test]
fn functions_unify_parameter_by_parameter_under_what_was_found() {
    let s = unify(
        &lam(vec![var(1), var(1)], var(2)),
        &lam(vec![prim(Primitive::Num), var(3)], var(3)),
        &ctx(),
    )
    .unwrap();
    assert_eq!(s.get(1).unwrap().to_text(), "number");
    assert_eq!(s.get(3).unwrap().to_text(), "number");
    assert_eq!(s.get(2).unwrap().to_text(), "number");
}

#[test]
fn functions_of_different_arity_do_not_unify() {
    assert!(matches!(
        unify(&lam(vec![var(1)], var(2)), &lam(vec![], var(2)), &ctx()),
        Err(InferError::Mismatch(_, _))
    ));
}

#[test]
fn the_first_tuple_may_have_more_elements_than_the_second() {
    let s = unify(
        &tuple(vec![num_lit("5"), str_lit("a"), prim(Primitive::Bool)]),
        &tuple(vec![var(1), var(2)]),
        &ctx(),
    )
    .unwrap();
    assert_eq!(s.get(1).unwrap().to_text(), "5");
    assert_eq!(s.get(2).unwrap().to_text(), "\"a\"");
    assert!(matches!(
        unify(&tuple(vec![num_lit("5")]), &tuple(vec![var(1), var(2)]), &ctx()),
        Err(InferError::TooManyElements)
    ));
}

#[test]
fn the_first_object_must_have_the_properties_of_the_second() {
    let s = unify(
        &object(vec![("x", false, num_lit("5")), ("y", false, str_lit("a"))]),
        &object(vec![("y", false, var(1))]),
        &ctx(),
    )
    .unwrap();
    assert_eq!(s.get(1).unwrap().to_text(), "\"a\"");
    assert_eq!(
        message(unify(
            &object(vec![("x", false, num_lit("5"))]),
            &object(vec![("x", false, var(1)), ("z", false, var(2))]),
            &ctx()
        )),
        "Property 'z' missing in {x: 5}"
    );
}

#[test]
fn an_optional_property_may_be_missing_but_does_not_fit_a_required_one() {
    assert!(unify(
        &object(vec![("x", false, num_lit("5"))]),
        &object(vec![("x", false, prim(Primitive::Num)), ("z", true, var(2))]),
        &ctx()
    )
    .unwrap()
    .is_empty());
    assert!(matches!(
        unify(
            &object(vec![("x", true, num_lit("5"))]),
            &object(vec![("x", false, prim(Primitive::Num))]),
            &ctx()
        ),
        Err(InferError::Mismatch(_, _))
    ));
}

#[test]
fn named_types_unify_argument_by_argument() {
    let s = unify(
        &alias("Promise", Some(vec![num_lit("5")])),
        &alias("Promise", Some(vec![var(1)])),
        &ctx(),
    )
    .unwrap();
    assert_eq!(s.get(1).unwrap().to_text(), "5");
    assert!(unify(&alias("A", None), &alias("A", None), &ctx()).unwrap().is_empty());
    assert!(matches!(
        unify(&alias("A", None), &alias("B", None), &ctx()),
        Err(InferError::Mismatch(_, _))
    ));
    assert!(matches!(
        unify(&alias("A", None), &alias("A", Some(vec![])), &ctx()),
        Err(InferError::Mismatch(_, _))
    ));
    assert!(matches!(
        unify(&alias("A", Some(vec![var(1)])), &alias("A", Some(vec![])), &ctx()),
        Err(InferError::Mismatch(_, _))
    ));
}

#[test]
fn arrays_unify_on_their_elements() {
    let s = unify(&array(num_lit("5")), &array(var(1)), &ctx()).unwrap();
    assert_eq!(s.get(1).unwrap().to_text(), "5");
}

#[test]
fn every_other_pair_must_be_equal() {
    let u = ty(1, Variant::Union(vec![num_lit("5"), str_lit("x")]));
    assert!(matches!(unify(&num_lit("5"), &u, &ctx()), Err(InferError::Mismatch(_, _))));
    assert!(matches!(
        unify(&tuple(vec![]), &object(vec![]), &ctx()),
        Err(InferError::Mismatch(_, _))
    ));
    assert!(matches!(
        unify(&lam(vec![], var(1)), &prim(Primitive::Num), &ctx()),
        Err(InferError::Mismatch(_, _))
    ));
}

#[test]
fn nesting_is_followed_to_a_limit() {
    let mut a = num_lit("5");
    let mut b = var(1);
    for _ in 0..MAX_DEPTH {
        a = array(a);
        b = array(b);
    }
    let s = unify(&a, &b, &ctx()).unwrap();
    assert_eq!(s.get(1).unwrap().to_text(), "5");
    let deeper_a = array(array(a));
    let deeper_b = array(array(b));
    assert!(matches!(unify(&deeper_a, &deeper_b, &ctx()), Err(InferError::TooDeep)));
}
