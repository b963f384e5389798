use crochet_infer::context::Context;
use crochet_infer::intersection::simplify_intersection;
use crochet_infer::types::{Lit, Primitive, TProp, Type, Variant};
use crochet_infer::util::{sort_by_id, union_types};

fn ty(id: i32, variant: Variant) -> Type {
    Type { variant, id, frozen: false }
}

fn var(id: i32) -> Type {
    ty(id, Variant::Var)
}

fn prim(id: i32, p: Primitive) -> Type {
    ty(id, Variant::Prim(p))
}

fn num(id: i32, text: &str) -> Type {
    ty(id, Variant::Lit(Lit::Num(String::from(text))))
}

fn text(id: i32, value: &str) -> Type {
    ty(id, Variant::Lit(Lit::Str(String::from(value))))
}

fn union(id: i32, members: Vec<Type>) -> Type {
    ty(id, Variant::Union(members))
}

fn object(id: i32, props: Vec<(&str, bool, Type)>) -> Type {
    ty(
        id,
        Variant::Object(
            props
                .into_iter()
                .map(|(name, optional, t)| TProp { name: String::from(name), optional, ty: t })
                .collect(),
        ),
    )
}

fn ctx_at(count: i32) -> Context {
    let mut ctx = Context::default();
    ctx.state.count = count;
    ctx
}

#[test]
fn two_literals_make_a_union_with_a_fresh_id() {
    let mut ctx = ctx_at(50);
    let u = union_types(&num(1, "5"), &num(2, "10"), &mut ctx).unwrap();
    assert_eq!(u.to_text(), "5 | 10");
    assert_eq!(u.id, 51);
    assert_eq!(ctx.state.count, 51);
}

#[test]
fn the_members_of_a_union_are_sorted_by_id() {
    let mut ctx = ctx_at(50);
    let u = union_types(&text(9, "z"), &num(3, "1"), &mut ctx).unwrap();
    assert_eq!(u.to_text(), "1 | \"z\"");
    let u = union_types(&var(8), &prim(5, Primitive::Num), &mut ctx).unwrap();
    assert_eq!(u.to_text(), "number | t8");
    let u = union_types(&var(2), &prim(5, Primitive::Num), &mut ctx).unwrap();
    assert_eq!(u.to_text(), "t2 | number");
}

#[test]
fn a_primitive_covers_the_literals_of_its_kind() {
    let mut ctx = ctx_at(50);
    let u = union_types(&prim(1, Primitive::Num), &num(2, "5"), &mut ctx).unwrap();
    assert_eq!(u.to_text(), "number");
    assert_eq!(u.id, 1);
    assert_eq!(ctx.state.count, 50);
    let u = union_types(&num(2, "5"), &prim(1, Primitive::Str), &mut ctx).unwrap();
    assert_eq!(u.to_text(), "string | 5");
    let u = union_types(
        &union(7, vec![num(2, "5"), text(3, "a")]),
        &prim(4, Primitive::Str),
        &mut ctx,
    )
    .unwrap();
    assert_eq!(u.to_text(), "5 | string");
}

#[test]
fn equal_members_are_kept_once() {
    let mut ctx = ctx_at(50);
    let u = union_types(&num(1, "5"), &num(2, "5"), &mut ctx).unwrap();
    assert_eq!(u.to_text(), "5");
    assert_eq!(u.id, 1);
    let u = union_types(&var(3), &var(3), &mut ctx).unwrap();
    assert_eq!(u.to_text(), "t3");
    assert_eq!(ctx.state.count, 50);
}

#[test]
fn nested_unions_are_flattened() {
    let mut ctx = ctx_at(50);
    let left = union(10, vec![num(1, "5"), union(11, vec![text(2, "a"), num(3, "5")])]);
    let right = union(12, vec![text(4, "a"), ty(5, Variant::Lit(Lit::Bool(true)))]);
    let u = union_types(&left, &right, &mut ctx).unwrap();
    assert_eq!(u.to_text(), "5 | \"a\" | true");
}

#[test]
fn the_union_of_nothing_is_the_empty_union() {
    let mut ctx = ctx_at(50);
    let u = union_types(&union(1, vec![]), &union(2, vec![]), &mut ctx).unwrap();
    assert!(matches!(&u.variant, Variant::Union(members) if members.is_empty()));
    assert_eq!(u.id, 51);
}

#[test]
fn a_union_needs_a_fresh_id() {
    let mut ctx = ctx_at(i32::MAX);
    assert!(matches!(
        union_types(&num(1, "5"), &num(2, "10"), &mut ctx),
        Err(crochet_infer::error::InferError::OutOfIds)
    ));
    assert_eq!(union_types(&num(1, "5"), &num(2, "5"), &mut ctx).unwrap().to_text(), "5");
}

#[test]
fn sorting_by_id_keeps_the_order_of_equal_ids() {
    let sorted = sort_by_id(&vec![num(3, "a"), num(1, "b"), num(3, "c"), num(2, "d"), num(1, "e")]);
    let texts: Vec<String> = sorted.iter().map(|t| t.to_text()).collect();
    assert_eq!(texts, vec!["b", "e", "d", "a", "c"]);
}

#[test]
fn object_types_are_merged_into_one() {
    let mut ctx = ctx_at(50);
    let t = simplify_intersection(
        &vec![
            object(1, vec![("x", false, num(2, "5"))]),
            object(3, vec![("y", false, text(4, "a"))]),
        ],
        &mut ctx,
    )
    .unwrap();
    assert_eq!(t.to_text(), "{x: 5, y: \"a\"}");
    assert_eq!(t.id, 51);
    assert_eq!(ctx.state.count, 51);
}

#[test]
fn the_properties_of_the_merged_object_are_sorted_by_name() {
    let mut ctx = ctx_at(50);
    let t = simplify_intersection(
        &vec![
            object(1, vec![("b", false, num(2, "1")), ("c", false, num(5, "3"))]),
            object(3, vec![("a", false, num(4, "2"))]),
        ],
        &mut ctx,
    )
    .unwrap();
    assert_eq!(t.to_text(), "{a: 2, b: 1, c: 3}");
}

#[test]
fn a_property_of_two_objects_takes_the_intersection_of_its_types() {
    let mut ctx = ctx_at(50);
    let t = simplify_intersection(
        &vec![
            object(1, vec![("x", false, num(2, "5"))]),
            object(3, vec![("x", false, text(4, "a"))]),
        ],
        &mut ctx,
    )
    .unwrap();
    assert_eq!(t.to_text(), "{x: 5 & \"a\"}");
}

#[test]
fn equal_types_of_a_property_are_kept_once() {
    let mut ctx = ctx_at(50);
    let t = simplify_intersection(
        &vec![
            object(1, vec![("x", false, num(2, "5"))]),
            object(3, vec![("x", false, num(4, "5"))]),
        ],
        &mut ctx,
    )
    .unwrap();
    assert_eq!(t.to_text(), "{x: 5}");
}

#[test]
fn competing_object_types_of_a_property_are_merged_in_turn() {
    let mut ctx = ctx_at(50);
    let t = simplify_intersection(
        &vec![
            object(1, vec![("p", false, object(2, vec![("a", false, num(3, "1"))]))]),
            object(4, vec![("p", false, object(5, vec![("b", false, num(6, "2"))]))]),
        ],
        &mut ctx,
    )
    .unwrap();
    assert_eq!(t.to_text(), "{p: {a: 1, b: 2}}");
}

#[test]
fn the_properties_of_the_merged_object_are_required() {
    let mut ctx = ctx_at(50);
    let t = simplify_intersection(&vec![object(1, vec![("x", true, num(2, "5"))])], &mut ctx)
        .unwrap();
    assert_eq!(t.to_text(), "{x: 5}");
}

#[test]
fn other_types_pass_through_and_the_members_are_sorted_by_id() {
    let mut ctx = ctx_at(50);
    let t = simplify_intersection(
        &vec![var(9), object(1, vec![("x", false, num(2, "5"))]), var(4)],
        &mut ctx,
    )
    .unwrap();
    assert_eq!(t.to_text(), "t4 & t9 & {x: 5}");
    assert_eq!(t.id, 52);
}

#[test]
fn a_single_member_is_left_bare() {
    let mut ctx = ctx_at(50);
    let t = simplify_intersection(&vec![var(9)], &mut ctx).unwrap();
    assert_eq!(t.to_text(), "t9");
    assert_eq!(t.id, 9);
    assert_eq!(ctx.state.count, 50);
}

#[test]
fn an_object_without_properties_leaves_nothing_behind() {
    let mut ctx = ctx_at(50);
    let t = simplify_intersection(&vec![object(1, vec![]), var(2)], &mut ctx).unwrap();
    assert_eq!(t.to_text(), "t2");
}
