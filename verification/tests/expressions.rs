use crochet_infer::annot::infer_type_ann;
use crochet_infer::ast::{
    BinOp, Expr, JSXAttr, JSXAttrValue, Lit, ObjectPatProp, Pattern, Program, PropOrSpread,
    Statement, TPropAnn, TypeAnn,
};
use crochet_infer::context::Context;
use crochet_infer::env::Env;
use crochet_infer::error::InferError;
use crochet_infer::infer::{infer, infer_element, infer_expr, infer_prog};
use crochet_infer::pattern::infer_pattern;
use crochet_infer::types::{AliasType, Primitive, Scheme, Type, Variant};

fn s(text: &str) -> String {
    String::from(text)
}

fn ident(name: &str) -> Pattern {
    Pattern::Ident { name: s(name), type_ann: None }
}

fn ident_ann(name: &str, ann: TypeAnn) -> Pattern {
    Pattern::Ident { name: s(name), type_ann: Some(ann) }
}

fn var(name: &str) -> Expr {
    Expr::Ident { name: s(name) }
}

fn num(text: &str) -> Expr {
    Expr::Lit(Lit::Num(s(text)))
}

fn string(text: &str) -> Expr {
    Expr::Lit(Lit::Str(s(text)))
}

fn lambda(params: Vec<Pattern>, body: Expr, is_async: bool) -> Expr {
    Expr::Lambda { params, body: Box::new(body), is_async, return_type: None, type_params: None }
}

fn lam(params: Vec<Pattern>, body: Expr) -> Expr {
    lambda(params, body, false)
}

fn app(f: Expr, args: Vec<Expr>) -> Expr {
    Expr::App { lam: Box::new(f), args }
}

fn op(op: BinOp, left: Expr, right: Expr) -> Expr {
    Expr::Op { op, left: Box::new(left), right: Box::new(right) }
}

fn obj(props: Vec<(&str, Expr)>) -> Expr {
    Expr::Obj {
        props: props
            .into_iter()
            .map(|(name, value)| PropOrSpread::KeyValue { name: s(name), value: Box::new(value) })
            .collect(),
    }
}

fn member(obj: Expr, prop: &str) -> Expr {
    Expr::Member { obj: Box::new(obj), prop: s(prop) }
}

fn obj_ann(props: Vec<(&str, TypeAnn)>) -> TypeAnn {
    TypeAnn::Object(
        props
            .into_iter()
            .map(|(name, type_ann)| TPropAnn { name: s(name), optional: false, type_ann })
            .collect(),
    )
}

fn type_ref(name: &str, args: Option<Vec<TypeAnn>>) -> TypeAnn {
    TypeAnn::TypeRef { name: s(name), type_params: args }
}

fn decl(pattern: Pattern, init: Expr) -> Statement {
    Statement::VarDecl { pattern, init: Some(init), declare: false }
}

fn declare(name: &str, ann: TypeAnn) -> Statement {
    Statement::VarDecl { pattern: ident_ann(name, ann), init: None, declare: true }
}

fn run(body: Vec<Statement>) -> Result<Context, InferError> {
    infer_prog(&Program { body })
}

fn type_of(expr: Expr) -> Result<String, InferError> {
    let mut ctx = Context::default();
    infer_expr(&mut ctx, &expr).map(|sc| sc.to_text())
}

fn get(ctx: &Context, name: &str) -> String {
    ctx.values.get(name).unwrap().to_text()
}

#[test]
fn a_literal_has_its_own_type() {
    assert_eq!(type_of(num("5")).unwrap(), "5");
    assert_eq!(type_of(string("a")).unwrap(), "\"a\"");
    assert_eq!(type_of(Expr::Lit(Lit::Null)).unwrap(), "null");
    assert_eq!(type_of(Expr::Empty).unwrap(), "undefined");
}

#[test]
fn an_identifier_must_be_in_scope() {
    match type_of(var("x")) {
        Err(InferError::UnboundIdentifier(name)) => assert_eq!(name, "x"),
        _ => panic!("expected the unbound-identifier error"),
    }
}

#[test]
fn arithmetic_gives_a_number_and_comparison_a_boolean() {
    assert_eq!(type_of(op(BinOp::Mul, num("2"), num("3"))).unwrap(), "number");
    assert_eq!(type_of(op(BinOp::Div, num("2"), num("3"))).unwrap(), "number");
    assert_eq!(type_of(op(BinOp::Lt, num("2"), num("3"))).unwrap(), "boolean");
    assert_eq!(type_of(op(BinOp::NotEq, num("2"), num("3"))).unwrap(), "boolean");
    assert_eq!(type_of(op(BinOp::GtEq, num("2"), num("3"))).unwrap(), "boolean");
    assert!(matches!(
        type_of(op(BinOp::Add, string("a"), num("1"))),
        Err(InferError::Mismatch(_, _))
    ));
}

#[test]
fn an_argument_that_cannot_be_inferred_is_left_out() {
    let call = app(lam(vec![ident("x")], var("x")), vec![var("nowhere")]);
    assert!(matches!(type_of(call), Err(InferError::Mismatch(_, _))));
    let call = app(lam(vec![], num("5")), vec![var("nowhere")]);
    assert_eq!(type_of(call).unwrap(), "5");
}

#[test]
fn the_substitution_is_applied_to_the_values_in_scope() {
    let mut ctx = Context::default();
    ctx.state.count = 1;
    ctx.values.insert(s("x"), Scheme::from_type(Type { variant: Variant::Var, id: 1, frozen: false }));
    let (subst, t) = infer(&mut ctx, &op(BinOp::Add, var("x"), num("1"))).unwrap();
    assert_eq!(t.to_text(), "number");
    assert_eq!(subst.get(1).unwrap().to_text(), "number");
    assert_eq!(get(&ctx, "x"), "number");
}

#[test]
fn a_function_leaves_its_scope_and_keeps_the_counter() {
    let mut ctx = Context::default();
    let sc = infer_expr(&mut ctx, &lam(vec![ident("x"), ident("y")], var("y"))).unwrap();
    assert_eq!(sc.to_text(), "<t0, t1>(t0, t1) => t1");
    assert!(ctx.values.get("x").is_none());
    assert!(ctx.values.get("y").is_none());
    assert_eq!(ctx.state.count, 3);
    assert!(!ctx.is_async);
}

#[test]
fn the_counter_is_kept_when_the_body_of_a_function_fails() {
    let mut ctx = Context::default();
    assert!(infer_expr(&mut ctx, &lam(vec![ident("x")], var("nowhere"))).is_err());
    assert!(ctx.values.get("x").is_none());
    assert_eq!(ctx.state.count, 1);
}

#[test]
fn a_type_parameter_stands_for_a_fresh_variable() {
    let f = Expr::Lambda {
        params: vec![ident_ann("x", type_ref("T", None))],
        body: Box::new(var("x")),
        is_async: false,
        return_type: Some(type_ref("T", None)),
        type_params: Some(vec![s("T")]),
    };
    assert_eq!(type_of(f).unwrap(), "<t0>(t0) => t0");
}

#[test]
fn the_result_is_unified_with_the_return_type_annotation() {
    let f = |ann: TypeAnn| Expr::Lambda {
        params: vec![],
        body: Box::new(num("5")),
        is_async: false,
        return_type: Some(ann),
        type_params: None,
    };
    assert_eq!(type_of(f(TypeAnn::Prim(Primitive::Num))).unwrap(), "() => 5");
    assert!(matches!(
        type_of(f(TypeAnn::Prim(Primitive::Str))),
        Err(InferError::Mismatch(_, _))
    ));
}

#[test]
fn the_result_of_an_async_function_is_deferred() {
    assert_eq!(type_of(lambda(vec![], num("5"), true)).unwrap(), "() => Promise<5>");
    let passes_on = lambda(vec![ident("p")], Expr::Await { expr: Box::new(var("p")) }, true);
    assert_eq!(type_of(passes_on).unwrap(), "<t0>(Promise<t0>) => Promise<t0>");
}

#[test]
fn await_needs_an_async_function() {
    let f = lam(vec![ident("p")], Expr::Await { expr: Box::new(var("p")) });
    assert!(matches!(type_of(f), Err(InferError::AwaitOutsideAsync)));
    let nested = lambda(
        vec![ident("p")],
        lam(vec![], Expr::Await { expr: Box::new(var("p")) }),
        true,
    );
    assert!(matches!(type_of(nested), Err(InferError::AwaitOutsideAsync)));
}

#[test]
fn an_if_without_else_must_not_give_a_value() {
    let unit = Expr::IfElse {
        cond: Box::new(Expr::Lit(Lit::Bool(true))),
        consequent: Box::new(Expr::Empty),
        alternate: None,
    };
    assert_eq!(type_of(unit).unwrap(), "undefined");
    let value = Expr::IfElse {
        cond: Box::new(Expr::Lit(Lit::Bool(true))),
        consequent: Box::new(num("5")),
        alternate: None,
    };
    assert!(matches!(type_of(value), Err(InferError::IfWithoutElse)));
}

#[test]
fn the_condition_of_an_if_is_a_boolean() {
    let bad = Expr::IfElse {
        cond: Box::new(num("1")),
        consequent: Box::new(num("5")),
        alternate: Some(Box::new(num("6"))),
    };
    assert!(matches!(type_of(bad), Err(InferError::Mismatch(_, _))));
}

#[test]
fn an_if_can_bind_a_pattern_in_its_condition() {
    let e = Expr::IfElse {
        cond: Box::new(Expr::LetExpr { pat: ident("x"), expr: Box::new(num("5")) }),
        consequent: Box::new(var("x")),
        alternate: Some(Box::new(num("10"))),
    };
    assert_eq!(type_of(e).unwrap(), "5 | 10");
    let no_else = Expr::IfElse {
        cond: Box::new(Expr::LetExpr { pat: ident("x"), expr: Box::new(num("5")) }),
        consequent: Box::new(var("x")),
        alternate: None,
    };
    assert!(matches!(type_of(no_else), Err(InferError::IfWithoutElse)));
}

#[test]
fn a_binding_of_a_pattern_outside_a_condition_is_not_supported() {
    let e = Expr::LetExpr { pat: ident("x"), expr: Box::new(num("5")) };
    assert!(matches!(type_of(e), Err(InferError::Unsupported)));
}

#[test]
fn a_let_without_a_pattern_gives_the_type_of_its_body() {
    let e = Expr::Let { pattern: None, init: Box::new(var("nowhere")), body: Box::new(num("5")) };
    assert_eq!(type_of(e).unwrap(), "5");
}

#[test]
fn a_pattern_binds_each_name_once() {
    let twice = lam(
        vec![Pattern::Array { elems: vec![Some(ident("x")), Some(ident("x"))], type_ann: None }],
        var("x"),
    );
    match type_of(twice) {
        Err(e) => {
            assert_eq!(e.message(), "Duplicate identifier in pattern");
            assert!(matches!(e, InferError::DuplicateIdentifier(name) if name == "x"));
        }
        _ => panic!("expected the duplicate-identifier error"),
    }
    let twice = lam(
        vec![Pattern::Object {
            props: vec![
                ObjectPatProp::Assign { key: s("x") },
                ObjectPatProp::KeyValue { key: s("y"), value: ident("x") },
            ],
            type_ann: None,
        }],
        var("x"),
    );
    assert!(matches!(type_of(twice), Err(InferError::DuplicateIdentifier(_))));
}

#[test]
fn a_gap_in_an_array_pattern_is_not_supported() {
    let gap = lam(vec![Pattern::Array { elems: vec![None, Some(ident("x"))], type_ann: None }], var("x"));
    assert!(matches!(type_of(gap), Err(InferError::Unsupported)));
}

#[test]
fn a_rest_element_is_marked_in_the_type_of_the_pattern() {
    let f = lam(
        vec![Pattern::Array {
            elems: vec![
                Some(ident("a")),
                Some(Pattern::Rest { arg: Box::new(ident("b")), type_ann: None }),
            ],
            type_ann: None,
        }],
        var("a"),
    );
    assert_eq!(type_of(f).unwrap(), "<t0, t1>([t0, ...t1]) => t0");
}

#[test]
fn the_rest_of_an_object_pattern_is_intersected_with_its_properties() {
    let mut ctx = Context::default();
    let pat = Pattern::Object {
        props: vec![ObjectPatProp::Assign { key: s("x") }, ObjectPatProp::Rest { arg: ident("r") }],
        type_ann: None,
    };
    let (subst, bound, t) = infer_pattern(&pat, &mut ctx, &Env::new()).unwrap();
    assert!(subst.is_empty());
    assert_eq!(t.to_text(), "{x: t1} & t2");
    assert_eq!(bound.get("x").unwrap().to_text(), "t1");
    assert_eq!(bound.get("r").unwrap().to_text(), "t2");
    let two = Pattern::Object {
        props: vec![ObjectPatProp::Rest { arg: ident("r") }, ObjectPatProp::Rest { arg: ident("q") }],
        type_ann: None,
    };
    assert!(matches!(infer_pattern(&two, &mut ctx, &Env::new()), Err(InferError::Unsupported)));
}

#[test]
fn an_is_pattern_narrows_to_a_primitive_or_a_named_type() {
    let mut ctx = Context::default();
    let (_, bound, t) =
        infer_pattern(&Pattern::Is { id: s("x"), is_id: s("string") }, &mut ctx, &Env::new())
            .unwrap();
    assert_eq!(t.to_text(), "string");
    assert_eq!(bound.get("x").unwrap().to_text(), "string");
    let (_, _, t) =
        infer_pattern(&Pattern::Is { id: s("x"), is_id: s("number") }, &mut ctx, &Env::new())
            .unwrap();
    assert_eq!(t.to_text(), "number");
    let (_, _, t) =
        infer_pattern(&Pattern::Is { id: s("x"), is_id: s("boolean") }, &mut ctx, &Env::new())
            .unwrap();
    assert_eq!(t.to_text(), "boolean");
    let (_, _, t) =
        infer_pattern(&Pattern::Is { id: s("x"), is_id: s("Point") }, &mut ctx, &Env::new())
            .unwrap();
    assert!(matches!(&t.variant, Variant::Alias(AliasType { name, type_params: None }) if name == "Point"));
}

#[test]
fn a_literal_pattern_has_the_type_of_its_literal() {
    let mut ctx = Context::default();
    let (_, bound, t) =
        infer_pattern(&Pattern::Lit { lit: Lit::Num(s("5")) }, &mut ctx, &Env::new()).unwrap();
    assert_eq!(t.to_text(), "5");
    assert!(bound.entries.is_empty());
}

#[test]
fn a_property_is_read_out_of_an_object() {
    assert_eq!(type_of(member(obj(vec![("x", num("5"))]), "x")).unwrap(), "5");
    match type_of(member(obj(vec![("x", num("5"))]), "y")) {
        Err(e) => {
            assert_eq!(e.message(), "Record literal doesn't contain property");
            assert!(matches!(e, InferError::NotInRecord(name) if name == "y"));
        }
        _ => panic!("expected the error for a property that is not there"),
    }
    assert!(matches!(type_of(member(num("5"), "x")), Err(InferError::Unsupported)));
}

#[test]
fn a_property_is_read_through_a_named_type() {
    let ctx = run(vec![
        Statement::TypeDecl {
            name: s("Point"),
            type_ann: obj_ann(vec![("x", TypeAnn::Prim(Primitive::Num))]),
            type_params: None,
        },
        declare("p", type_ref("Point", None)),
        decl(ident("q"), member(var("p"), "x")),
    ])
    .unwrap();
    assert_eq!(get(&ctx, "p"), "Point");
    assert_eq!(get(&ctx, "q"), "number");
    assert_eq!(ctx.types.get("Point").unwrap().to_text(), "{x: number}");
    assert!(ctx.types.get("Point").unwrap().ty.frozen);
    assert!(ctx.values.get("p").unwrap().ty.frozen);
    assert!(ctx.values.get("q").unwrap().ty.frozen);
}

#[test]
fn the_arguments_of_a_named_type_take_the_place_of_its_parameters() {
    let boxed = Statement::TypeDecl {
        name: s("Box"),
        type_ann: obj_ann(vec![("value", type_ref("T", None))]),
        type_params: Some(vec![s("T")]),
    };
    let ctx = run(vec![
        boxed,
        declare("b", type_ref("Box", Some(vec![TypeAnn::Prim(Primitive::Str)]))),
        decl(ident("v"), member(var("b"), "value")),
    ])
    .unwrap();
    assert_eq!(get(&ctx, "v"), "string");
    assert_eq!(ctx.types.get("Box").unwrap().qualifiers.len(), 1);
}

#[test]
fn a_named_type_must_be_declared_and_given_its_arguments() {
    let r = run(vec![declare("p", type_ref("Nope", None)), decl(ident("q"), member(var("p"), "x"))]);
    match r {
        Err(InferError::UnknownType(name)) => assert_eq!(name, "Nope"),
        _ => panic!("expected the unknown-type error"),
    }
    let boxed = Statement::TypeDecl {
        name: s("Box"),
        type_ann: obj_ann(vec![("value", type_ref("T", None))]),
        type_params: Some(vec![s("T")]),
    };
    let r = run(vec![
        boxed,
        declare("b", type_ref("Box", None)),
        decl(ident("v"), member(var("b"), "value")),
    ]);
    match r {
        Err(InferError::WrongTypeArguments(name)) => assert_eq!(name, "Box"),
        _ => panic!("expected the wrong-arguments error"),
    }
}

#[test]
fn a_program_starts_with_the_two_built_in_types() {
    let ctx = run(vec![]).unwrap();
    assert_eq!(ctx.types.get("Promise").unwrap().to_text(), "{_name: \"Promise\"}");
    assert_eq!(ctx.types.get("JSXElement").unwrap().to_text(), "{_name: \"JSXElement\"}");
    assert_eq!(ctx.state.count, 4);
    assert!(ctx.values.entries.is_empty());
}

#[test]
fn a_declare_statement_needs_a_name_and_a_type() {
    let ctx = run(vec![declare("x", TypeAnn::Prim(Primitive::Num))]).unwrap();
    assert_eq!(get(&ctx, "x"), "number");
    let no_type = Statement::VarDecl { pattern: ident("x"), init: None, declare: true };
    assert!(matches!(run(vec![no_type]), Err(InferError::MissingTypeAnnotation)));
    let no_name = Statement::VarDecl {
        pattern: Pattern::Array { elems: vec![], type_ann: None },
        init: None,
        declare: true,
    };
    assert!(matches!(run(vec![no_name]), Err(InferError::Unsupported)));
}

#[test]
fn a_binding_needs_an_initial_value() {
    let bare = Statement::VarDecl { pattern: ident("x"), init: None, declare: false };
    assert!(matches!(run(vec![bare]), Err(InferError::MissingInitializer)));
}

#[test]
fn inference_stops_at_the_first_statement_that_fails() {
    let r = run(vec![
        decl(ident("a"), num("1")),
        decl(ident("b"), var("nowhere")),
        decl(ident("c"), op(BinOp::Add, string("x"), num("1"))),
    ]);
    assert!(matches!(r, Err(InferError::UnboundIdentifier(_))));
}

#[test]
fn an_expression_statement_binds_nothing() {
    let ctx = run(vec![Statement::Expr { expr: num("5") }]).unwrap();
    assert!(ctx.values.entries.is_empty());
    assert!(run(vec![Statement::Expr { expr: var("nowhere") }]).is_err());
}

#[test]
fn a_shorthand_property_takes_the_value_of_its_name() {
    let ctx = run(vec![
        decl(ident("x"), num("5")),
        decl(ident("o"), Expr::Obj { props: vec![PropOrSpread::Shorthand { name: s("x") }] }),
    ])
    .unwrap();
    assert_eq!(get(&ctx, "o"), "{x: 5}");
    let missing = Expr::Obj { props: vec![PropOrSpread::Shorthand { name: s("x") }] };
    assert!(matches!(type_of(missing), Err(InferError::UnboundIdentifier(_))));
}

#[test]
fn a_spread_is_merged_with_the_properties_written_out() {
    let ctx = run(vec![
        decl(ident("a"), obj(vec![("y", num("10"))])),
        decl(
            ident("b"),
            Expr::Obj {
                props: vec![
                    PropOrSpread::Spread { expr: Box::new(var("a")) },
                    PropOrSpread::KeyValue { name: s("x"), value: Box::new(num("5")) },
                ],
            },
        ),
    ])
    .unwrap();
    assert_eq!(get(&ctx, "b"), "{x: 5, y: 10}");
}

#[test]
fn an_element_with_a_lower_case_name_is_an_element() {
    let e = Expr::JSXElement {
        name: s("div"),
        attrs: vec![JSXAttr { ident: s("id"), value: JSXAttrValue::Expr(Box::new(var("nowhere"))) }],
    };
    assert_eq!(type_of(e).unwrap(), "JSXElement");
    let nameless = Expr::JSXElement { name: s(""), attrs: vec![] };
    assert!(matches!(type_of(nameless), Err(InferError::Unsupported)));
}

#[test]
fn an_element_with_an_upper_case_name_calls_its_component() {
    let component = lam(
        vec![ident_ann("props", obj_ann(vec![("msg", TypeAnn::Prim(Primitive::Str))]))],
        Expr::JSXElement { name: s("div"), attrs: vec![] },
    );
    let element = |value: JSXAttrValue| Statement::Expr {
        expr: Expr::JSXElement {
            name: s("Foo"),
            attrs: vec![JSXAttr { ident: s("msg"), value }],
        },
    };
    assert!(run(vec![
        decl(ident("Foo"), lam(vec![ident("props")], Expr::JSXElement { name: s("div"), attrs: vec![] })),
        element(JSXAttrValue::Lit(Lit::Str(s("hi")))),
    ])
    .is_ok());
    let ctx = run(vec![
        decl(ident("Foo"), lam(vec![ident("props")], Expr::JSXElement { name: s("div"), attrs: vec![] })),
        decl(
            ident("e"),
            Expr::JSXElement {
                name: s("Foo"),
                attrs: vec![JSXAttr { ident: s("n"), value: JSXAttrValue::Expr(Box::new(num("1"))) }],
            },
        ),
    ])
    .unwrap();
    assert_eq!(get(&ctx, "e"), "JSXElement");
    let _ = component;
    match run(vec![element(JSXAttrValue::Lit(Lit::Str(s("hi"))))]) {
        Err(InferError::ComponentNotInScope(name)) => assert_eq!(name, "Foo"),
        _ => panic!("expected the not-in-scope error"),
    }
    assert!(matches!(
        run(vec![decl(ident("Foo"), num("5")), element(JSXAttrValue::Lit(Lit::Str(s("hi"))))]),
        Err(InferError::ComponentNotFunction)
    ));
}

#[test]
fn the_attributes_must_fit_the_parameter_of_the_component() {
    let component = Statement::VarDecl {
        pattern: ident_ann(
            "Foo",
            TypeAnn::Lam {
                params: vec![obj_ann(vec![("msg", TypeAnn::Prim(Primitive::Str))])],
                ret: Box::new(type_ref("JSXElement", None)),
            },
        ),
        init: None,
        declare: true,
    };
    let element = |value: Lit| Statement::Expr {
        expr: Expr::JSXElement {
            name: s("Foo"),
            attrs: vec![JSXAttr { ident: s("msg"), value: JSXAttrValue::Lit(value) }],
        },
    };
    let ok = run(vec![
        Statement::VarDecl {
            pattern: ident_ann(
                "Foo",
                TypeAnn::Lam {
                    params: vec![obj_ann(vec![("msg", TypeAnn::Prim(Primitive::Str))])],
                    ret: Box::new(type_ref("JSXElement", None)),
                },
            ),
            init: None,
            declare: true,
        },
        element(Lit::Str(s("hi"))),
    ]);
    assert!(ok.is_ok());
    assert!(matches!(
        run(vec![component, element(Lit::Num(s("5")))]),
        Err(InferError::Mismatch(_, _))
    ));
}

#[test]
fn no_type_is_made_once_the_ids_are_used_up() {
    let mut ctx = Context::default();
    ctx.state.count = i32::MAX;
    assert!(matches!(infer_expr(&mut ctx, &num("5")), Err(InferError::OutOfIds)));
    assert!(matches!(
        infer_type_ann(&TypeAnn::Prim(Primitive::Num), &mut ctx),
        Err(InferError::OutOfIds)
    ));
    assert_eq!(ctx.state.count, i32::MAX);
    ctx.state.count = i32::MAX - 1;
    assert!(infer_expr(&mut ctx, &num("5")).is_ok());
}

#[test]
fn an_annotation_is_built_from_the_leaves_up() {
    let mut ctx = Context::default();
    let ann = TypeAnn::Lam {
        params: vec![
            TypeAnn::Array(Box::new(TypeAnn::Prim(Primitive::Num))),
            TypeAnn::Union(vec![TypeAnn::Lit(Lit::Num(s("1"))), TypeAnn::Lit(Lit::Num(s("2")))]),
            TypeAnn::Intersection(vec![type_ref("A", None), type_ref("B", Some(vec![]))]),
            TypeAnn::Tuple(vec![TypeAnn::Prim(Primitive::Bool)]),
        ],
        ret: Box::new(obj_ann(vec![("x", TypeAnn::Prim(Primitive::Str))])),
    };
    let t = infer_type_ann(&ann, &mut ctx).unwrap();
    assert_eq!(t.to_text(), "(number[], 1 | 2, A & B<>, [boolean]) => {x: string}");
    assert_eq!(t.id, 13);
    assert_eq!(ctx.state.count, 13);
}

#[test]
fn the_case_of_the_first_letter_decides_what_an_element_is() {
    let element = Expr::JSXElement { name: s("thing"), attrs: vec![] };
    let mut ctx = Context::default();
    let (subst, t) = infer_element(&mut ctx, &element, false).unwrap();
    assert!(subst.is_empty());
    assert_eq!(t.to_text(), "JSXElement");
    assert_eq!(ctx.state.count, 1);
    match infer_element(&mut ctx, &element, true) {
        Err(InferError::ComponentNotInScope(name)) => assert_eq!(name, "thing"),
        _ => panic!("expected the not-in-scope error"),
    }
    ctx.values.insert(
        s("thing"),
        Scheme::from_type(Type { variant: Variant::Prim(Primitive::Num), id: 0, frozen: false }),
    );
    assert!(matches!(infer_element(&mut ctx, &element, true), Err(InferError::ComponentNotFunction)));
    assert!(matches!(infer_element(&mut ctx, &Expr::Empty, true), Err(InferError::Unsupported)));
    let upper = Expr::JSXElement { name: s("\u{c9}l\u{e9}ment"), attrs: vec![] };
    assert!(matches!(type_of(upper), Err(InferError::ComponentNotInScope(_))));
    let lower = Expr::JSXElement { name: s("\u{e9}l\u{e9}ment"), attrs: vec![] };
    assert_eq!(type_of(lower).unwrap(), "JSXElement");
}

#[test]
fn a_named_type_that_stands_for_itself_is_given_up() {
    let r = run(vec![
        Statement::TypeDecl { name: s("Loop"), type_ann: type_ref("Loop", None), type_params: None },
        declare("a", type_ref("Loop", None)),
        decl(ident("b"), member(var("a"), "x")),
    ]);
    assert!(matches!(r, Err(InferError::TooDeep)));
}

#[test]
fn the_names_of_a_pattern_are_bound_in_the_program() {
    let ctx = run(vec![
        decl(ident("f"), lam(vec![ident("x")], var("x"))),
        decl(
            Pattern::Array { elems: vec![Some(ident("a")), Some(ident("b"))], type_ann: None },
            Expr::Tuple { elems: vec![app(var("f"), vec![num("1")]), app(var("f"), vec![string("s")])] },
        ),
    ])
    .unwrap();
    assert_eq!(get(&ctx, "f"), "<t0>(t0) => t0");
    assert_eq!(get(&ctx, "a"), "1");
    assert_eq!(get(&ctx, "b"), "\"s\"");
}

#[test]
fn a_program_leaves_its_bindings_frozen_and_closed() {
    let ctx = run(vec![
        declare("d", TypeAnn::Prim(Primitive::Num)),
        decl(ident("k"), lam(vec![ident("x")], lam(vec![ident("y")], var("x")))),
        decl(ident("n"), op(BinOp::Add, var("d"), num("1"))),
        Statement::Expr { expr: app(var("k"), vec![var("n")]) },
    ])
    .unwrap();
    for entry in ctx.values.entries.iter() {
        assert!(entry.scheme.ty.frozen);
        let free = crochet_infer::util::free_vars(&entry.scheme.ty);
        assert_eq!(free, entry.scheme.qualifiers);
        let count: Vec<i32> = (0..free.len() as i32).collect();
        assert_eq!(entry.scheme.qualifiers, count);
    }
    assert_eq!(get(&ctx, "k"), "<t0, t1>(t0) => (t1) => t0");
    assert_eq!(get(&ctx, "d"), "number");
}
