use crochet_infer::context::Context;
use crochet_infer::error::InferError;
use crochet_infer::names::name_le;
use crochet_infer::text::int_string;
use crochet_infer::types::{
    copy_type, freeze, freeze_scheme, same_type, set_frozen, unfreeze, AliasType, LamType, Lit,
    MemberType, Primitive, Scheme, TProp, Type, VarType, Variant,
};

fn ty(id: i32, variant: Variant) -> Type {
    Type { variant, id, frozen: false }
}

fn var(id: i32) -> Type {
    ty(id, Variant::Var)
}

fn prim(id: i32, p: Primitive) -> Type {
    ty(id, Variant::Prim(p))
}

fn num_lit(id: i32, text: &str) -> Type {
    ty(id, Variant::Lit(Lit::Num(String::from(text))))
}

fn lam(id: i32, params: Vec<Type>, ret: Type) -> Type {
    ty(id, Variant::Lam(LamType { params, ret: Box::new(ret), is_call: false }))
}

fn prop(name: &str, optional: bool, t: Type) -> TProp {
    TProp { name: String::from(name), optional, ty: t }
}

#[test]
fn integers_are_written_in_decimal() {
    assert_eq!(int_string(0), "0");
    assert_eq!(int_string(7), "7");
    assert_eq!(int_string(10), "10");
    assert_eq!(int_string(2147483647), "2147483647");
    assert_eq!(int_string(-1), "-1");
    assert_eq!(int_string(-2147483648), "-2147483648");
}

#[test]
fn each_variant_is_written_in_its_own_way() {
    assert_eq!(var(3).to_text(), "t3");
    assert_eq!(prim(1, Primitive::Num).to_text(), "number");
    assert_eq!(prim(1, Primitive::Bool).to_text(), "boolean");
    assert_eq!(prim(1, Primitive::Str).to_text(), "string");
    assert_eq!(prim(1, Primitive::Undefined).to_text(), "undefined");
    assert_eq!(prim(1, Primitive::Null).to_text(), "null");
    assert_eq!(num_lit(1, "5").to_text(), "5");
    assert_eq!(ty(1, Variant::Lit(Lit::Bool(false))).to_text(), "false");
    assert_eq!(ty(1, Variant::Lit(Lit::Str(String::from("hi")))).to_text(), "\"hi\"");
    assert_eq!(ty(1, Variant::Lit(Lit::Null)).to_text(), "null");
    assert_eq!(ty(1, Variant::Lit(Lit::Undefined)).to_text(), "undefined");
    assert_eq!(
        lam(9, vec![var(1), var(2), prim(3, Primitive::Num)], var(1)).to_text(),
        "(t1, t2, number) => t1"
    );
    assert_eq!(lam(9, vec![], var(1)).to_text(), "() => t1");
    assert_eq!(
        ty(9, Variant::Union(vec![num_lit(1, "5"), num_lit(2, "10")])).to_text(),
        "5 | 10"
    );
    assert_eq!(
        ty(9, Variant::Intersection(vec![var(1), var(2)])).to_text(),
        "t1 & t2"
    );
    assert_eq!(
        ty(
            9,
            Variant::Object(vec![
                prop("x", false, num_lit(1, "5")),
                prop("y", true, prim(2, Primitive::Str)),
            ])
        )
        .to_text(),
        "{x: 5, y?: string}"
    );
    assert_eq!(ty(9, Variant::Object(vec![])).to_text(), "{}");
    assert_eq!(
        ty(9, Variant::Alias(AliasType { name: String::from("Foo"), type_params: None })).to_text(),
        "Foo"
    );
    assert_eq!(
        ty(
            9,
            Variant::Alias(AliasType {
                name: String::from("Promise"),
                type_params: Some(vec![var(1), prim(2, Primitive::Num)]),
            })
        )
        .to_text(),
        "Promise<t1, number>"
    );
    assert_eq!(
        ty(9, Variant::Tuple(vec![num_lit(1, "5"), var(2)])).to_text(),
        "[5, t2]"
    );
    assert_eq!(ty(9, Variant::Array(Box::new(prim(1, Primitive::Num)))).to_text(), "number[]");
    assert_eq!(ty(9, Variant::Rest(Box::new(var(1)))).to_text(), "...t1");
    assert_eq!(
        ty(
            9,
            Variant::Member(MemberType { obj: Box::new(var(1)), prop: String::from("x") })
        )
        .to_text(),
        "t1[\"x\"]"
    );
}

#[test]
fn a_property_is_written_with_its_mark() {
    assert_eq!(prop("x", false, var(1)).to_text(), "x: t1");
    assert_eq!(prop("x", true, var(1)).to_text(), "x?: t1");
}

#[test]
fn a_scheme_lists_what_it_quantifies_over() {
    let sc = Scheme { qualifiers: vec![0, 1], ty: lam(5, vec![var(0)], var(1)) };
    assert_eq!(sc.to_text(), "<t0, t1>(t0) => t1");
    let mono = Scheme::from_type(var(4));
    assert_eq!(mono.to_text(), "t4");
    assert!(mono.qualifiers.is_empty());
}

#[test]
fn errors_say_what_went_wrong() {
    assert_eq!(
        InferError::Mismatch(num_lit(1, "5"), prim(2, Primitive::Str)).message(),
        "Unification failure: 5 != string"
    );
    assert_eq!(
        InferError::InfiniteType(3, lam(4, vec![var(3)], var(3))).message(),
        "Infinite type: t3 occurs in (t3) => t3"
    );
    assert_eq!(
        InferError::MissingProperty(String::from("foo"), ty(1, Variant::Object(vec![]))).message(),
        "Property 'foo' missing in {}"
    );
    assert_eq!(InferError::TooManyElements.message(), "too many elements to unpack");
    assert_eq!(
        InferError::NotInRecord(String::from("y")).message(),
        "Record literal doesn't contain property"
    );
    assert_eq!(
        InferError::UnboundIdentifier(String::from("x")).message(),
        "Can't find value 'x'"
    );
    assert_eq!(
        InferError::DuplicateIdentifier(String::from("x")).message(),
        "Duplicate identifier in pattern"
    );
    assert_eq!(
        InferError::IfWithoutElse.message(),
        "Consequent for 'if' without 'else' must not return a value"
    );
    assert_eq!(
        InferError::AwaitOutsideAsync.message(),
        "Can't use `await` inside non-async lambda"
    );
    assert_eq!(InferError::ComponentNotFunction.message(), "Component must be a function");
    assert_eq!(
        InferError::ComponentNotInScope(String::from("Foo")).message(),
        "Component 'Foo' is not in scope"
    );
    assert_eq!(
        InferError::MissingTypeAnnotation.message(),
        "missing type annotation in declare statement"
    );
    assert_eq!(InferError::MissingInitializer.message(), "missing initial value in binding");
    assert_eq!(InferError::UnknownType(String::from("T")).message(), "Can't find type 'T'");
    assert_eq!(
        InferError::WrongTypeArguments(String::from("T")).message(),
        "Wrong number of type arguments for 'T'"
    );
    assert_eq!(InferError::Unsupported.message(), "unsupported pattern or expression");
    assert_eq!(InferError::TooDeep.message(), "types are nested too deeply");
    assert_eq!(InferError::OutOfIds.message(), "no fresh id is left");
    assert_eq!(InferError::NoNormalForm.message(), "the scheme has no normal form");
    assert_eq!(InferError::TooDeep.clone().message(), "types are nested too deeply");
}

#[test]
fn equality_sees_variables_by_id_and_other_types_by_structure() {
    assert!(same_type(&var(1), &var(1)));
    assert!(!same_type(&var(1), &var(2)));
    let mut frozen_var = var(1);
    frozen_var.frozen = true;
    assert!(same_type(&var(1), &frozen_var));
    assert!(same_type(&prim(1, Primitive::Num), &prim(99, Primitive::Num)));
    assert!(!same_type(&prim(1, Primitive::Num), &prim(1, Primitive::Str)));
    assert!(!same_type(&prim(1, Primitive::Num), &var(1)));
    assert!(same_type(&lam(1, vec![var(5)], num_lit(2, "5")), &lam(7, vec![var(5)], num_lit(8, "5"))));
    assert!(!same_type(&lam(1, vec![var(5)], var(5)), &lam(1, vec![var(6)], var(5))));
    let call = ty(
        1,
        Variant::Lam(LamType { params: vec![var(5)], ret: Box::new(var(5)), is_call: true }),
    );
    assert!(same_type(&call, &lam(2, vec![var(5)], var(5))));
    assert!(var(1) == var(1));
    assert!(var(1) != var(2));
    assert!(VarType { id: 1, frozen: true } == VarType { id: 1, frozen: false });
    assert!(VarType { id: 1, frozen: true } != VarType { id: 2, frozen: true });
    assert!(prop("x", false, var(1)) == prop("x", false, var(1)));
    assert!(prop("x", false, var(1)) != prop("x", true, var(1)));
}

#[test]
fn a_copy_is_equal_and_keeps_id_and_mark() {
    let t = lam(3, vec![var(1)], prim(2, Primitive::Num));
    let c = copy_type(&t);
    assert!(same_type(&t, &c));
    assert_eq!(c.id, 3);
    assert!(!c.frozen);
    assert_eq!(t.as_var(), None);
    assert!(var(4).as_var() == Some(VarType { id: 4, frozen: false }));
}

#[test]
fn freezing_marks_the_type_and_all_that_is_nested_in_it() {
    let t = freeze(lam(3, vec![var(1)], prim(2, Primitive::Num)));
    assert!(t.frozen);
    match &t.variant {
        Variant::Lam(l) => {
            assert!(l.params[0].frozen);
            assert!(l.ret.frozen);
            assert_eq!(l.params[0].id, 1);
        }
        _ => panic!("the variant changed"),
    }
    assert_eq!(t.id, 3);
}

#[test]
fn unfreezing_clears_the_mark_at_the_root_only() {
    let t = unfreeze(lam(3, vec![var(1)], prim(2, Primitive::Num)));
    assert!(!t.frozen);
    match &t.variant {
        Variant::Lam(l) => {
            assert!(l.params[0].frozen);
            assert!(l.ret.frozen);
        }
        _ => panic!("the variant changed"),
    }
    let u = set_frozen(var(1), false);
    assert!(!u.frozen);
}

#[test]
fn freezing_a_scheme_keeps_its_qualifiers() {
    let sc = freeze_scheme(Scheme { qualifiers: vec![4, 2], ty: var(4) });
    assert_eq!(sc.qualifiers, vec![4, 2]);
    assert!(sc.ty.frozen);
}

#[test]
fn names_are_ordered_by_code_point() {
    assert!(name_le("", ""));
    assert!(name_le("", "a"));
    assert!(!name_le("a", ""));
    assert!(name_le("a", "a"));
    assert!(name_le("a", "b"));
    assert!(!name_le("b", "a"));
    assert!(name_le("ab", "abc"));
    assert!(!name_le("abc", "ab"));
    assert!(name_le("Z", "a"));
    assert!(name_le("z", "é"));
}

#[test]
fn an_optional_property_stands_for_a_union_with_undefined() {
    let mut ctx = Context::default();
    let required = prop("x", false, num_lit(1, "5"));
    assert_eq!(required.get_type(&mut ctx).to_text(), "5");
    assert_eq!(ctx.state.count, 0);
    let optional = prop("x", true, num_lit(1, "5"));
    let t = optional.get_type(&mut ctx);
    assert_eq!(t.to_text(), "5 | undefined");
    assert_eq!(t.id, 2);
    assert_eq!(ctx.state.count, 2);
}
