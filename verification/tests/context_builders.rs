use crochet_infer::ast::Lit as Literal;
use crochet_infer::context::Context;
use crochet_infer::error::InferError;
use crochet_infer::types::{AliasType, Lit, Primitive, Scheme, Type, Variant};

fn var(id: i32) -> Type {
    Type { variant: Variant::Var, id, frozen: false }
}

#[test]
fn a_context_starts_empty() {
    let ctx = Context::default();
    assert_eq!(ctx.state.count, 0);
    assert!(!ctx.is_async);
    assert!(ctx.values.entries.is_empty());
    assert!(ctx.types.entries.is_empty());
}

#[test]
fn fresh_ids_count_up() {
    let mut ctx = Context::default();
    assert_eq!(ctx.fresh_id(), 1);
    assert_eq!(ctx.fresh_id(), 2);
    let v = ctx.fresh_var();
    assert_eq!(v.id, 3);
    assert!(matches!(v.variant, Variant::Var));
    assert!(!v.frozen);
    assert_eq!(ctx.state.count, 3);
    assert!(ctx.has_room(1));
    ctx.state.count = i32::MAX;
    assert!(!ctx.has_room(1));
    assert!(ctx.has_room(0));
    assert!(matches!(ctx.make(Variant::Var), Err(InferError::OutOfIds)));
}

#[test]
fn each_builder_makes_its_variant_with_the_next_id() {
    let mut ctx = Context::default();
    assert_eq!(ctx.prim(Primitive::Num).to_text(), "number");
    assert_eq!(ctx.lit(Literal::Num(String::from("5"))).to_text(), "5");
    assert_eq!(ctx.lit(Literal::Str(String::from("a"))).to_text(), "\"a\"");
    assert_eq!(ctx.lit(Literal::Bool(true)).to_text(), "true");
    assert_eq!(ctx.lit(Literal::Null).to_text(), "null");
    assert_eq!(ctx.lit(Literal::Undefined).to_text(), "undefined");
    assert_eq!(ctx.lit_type(Lit::Bool(false)).to_text(), "false");
    assert_eq!(ctx.state.count, 7);
    let l = ctx.lam(vec![var(1)], Box::new(var(2)));
    assert_eq!(l.to_text(), "(t1) => t2");
    assert_eq!(l.id, 8);
    assert!(matches!(&l.variant, Variant::Lam(lam) if !lam.is_call));
    let c = ctx.call(vec![var(1)], Box::new(var(2)));
    assert!(matches!(&c.variant, Variant::Lam(lam) if lam.is_call));
    assert_eq!(ctx.union(vec![var(1), var(2)]).to_text(), "t1 | t2");
    assert_eq!(ctx.intersection(vec![var(1), var(2)]).to_text(), "t1 & t2");
    let p = ctx.prop("x", var(1), true);
    assert_eq!(p.to_text(), "x?: t1");
    assert_eq!(ctx.object(vec![p]).to_text(), "{x?: t1}");
    assert_eq!(ctx.alias("Foo", None).to_text(), "Foo");
    assert_eq!(ctx.alias("Foo", Some(vec![var(1)])).to_text(), "Foo<t1>");
    assert_eq!(ctx.tuple(vec![var(1), var(2)]).to_text(), "[t1, t2]");
    assert_eq!(ctx.array(var(1)).to_text(), "t1[]");
    assert_eq!(ctx.rest(var(1)).to_text(), "...t1");
    let m = ctx.mem(var(1), "x");
    assert_eq!(m.to_text(), "t1[\"x\"]");
    assert_eq!(m.id, 18);
    assert_eq!(ctx.state.count, 18);
}

#[test]
fn looking_up_a_value_instantiates_its_scheme() {
    let mut ctx = Context::default();
    ctx.state.count = 5;
    ctx.values.insert(
        String::from("id"),
        Scheme { qualifiers: vec![0], ty: Type { variant: Variant::Tuple(vec![var(0), var(3)]), id: 4, frozen: false } },
    );
    assert_eq!(ctx.lookup_value("id").unwrap().to_text(), "[t6, t3]");
    assert_eq!(ctx.lookup_value("id").unwrap().to_text(), "[t7, t3]");
    match ctx.lookup_value("nope") {
        Err(InferError::UnboundIdentifier(name)) => assert_eq!(name, "nope"),
        _ => panic!("expected the unbound-identifier error"),
    }
    ctx.state.count = i32::MAX;
    assert!(matches!(ctx.lookup_value("id"), Err(InferError::OutOfIds)));
}

#[test]
fn looking_up_a_named_type_puts_the_arguments_in() {
    let mut ctx = Context::default();
    ctx.types.insert(
        String::from("Pair"),
        Scheme {
            qualifiers: vec![1, 2],
            ty: Type { variant: Variant::Tuple(vec![var(1), var(2)]), id: 3, frozen: false },
        },
    );
    let with = |args: Option<Vec<Type>>| AliasType { name: String::from("Pair"), type_params: args };
    let num = Type { variant: Variant::Prim(Primitive::Num), id: 9, frozen: false };
    assert_eq!(
        ctx.lookup_alias(&with(Some(vec![num, var(7)]))).unwrap().to_text(),
        "[number, t7]"
    );
    assert!(matches!(ctx.lookup_alias(&with(None)), Err(InferError::WrongTypeArguments(_))));
    assert!(matches!(
        ctx.lookup_alias(&with(Some(vec![var(7)]))),
        Err(InferError::WrongTypeArguments(_))
    ));
    assert!(matches!(
        ctx.lookup_alias(&AliasType { name: String::from("Nope"), type_params: None }),
        Err(InferError::UnknownType(_))
    ));
}

#[test]
fn a_copy_of_a_context_has_the_same_state() {
    let mut ctx = Context::default();
    ctx.values.insert(String::from("x"), Scheme::from_type(var(1)));
    ctx.state.count = 9;
    ctx.is_async = true;
    let copy = ctx.clone();
    assert_eq!(copy.state.count, 9);
    assert!(copy.is_async);
    assert_eq!(copy.values.get("x").unwrap().to_text(), "t1");
}
