use crochet_infer::ast::{
    BinOp, Expr, Lit, ObjectPatProp, Pattern, Program, PropOrSpread, Statement, TPropAnn, TypeAnn,
};
use crochet_infer::context::Context;
use crochet_infer::infer::{infer_expr, infer_prog};
use crochet_infer::types::Primitive;

fn s(text: &str) -> String {
    String::from(text)
}

fn ident(name: &str) -> Pattern {
    Pattern::Ident { name: s(name), type_ann: None }
}

fn ident_ann(name: &str, ann: TypeAnn) -> Pattern {
    Pattern::Ident { name: s(name), type_ann: Some(ann) }
}

fn var(name: &str) -> Expr {
    Expr::Ident { name: s(name) }
}

fn num(text: &str) -> Expr {
    Expr::Lit(Lit::Num(s(text)))
}

fn boolean(value: bool) -> Expr {
    Expr::Lit(Lit::Bool(value))
}

fn string(text: &str) -> Expr {
    Expr::Lit(Lit::Str(s(text)))
}

fn lam(params: Vec<Pattern>, body: Expr) -> Expr {
    Expr::Lambda {
        params,
        body: Box::new(body),
        is_async: false,
        return_type: None,
        type_params: None,
    }
}

fn app(f: Expr, args: Vec<Expr>) -> Expr {
    Expr::App { lam: Box::new(f), args }
}

fn let_in(pattern: Pattern, init: Expr, body: Expr) -> Expr {
    Expr::Let { pattern: Some(pattern), init: Box::new(init), body: Box::new(body) }
}

fn op(op: BinOp, left: Expr, right: Expr) -> Expr {
    Expr::Op { op, left: Box::new(left), right: Box::new(right) }
}

fn if_else(cond: Expr, consequent: Expr, alternate: Expr) -> Expr {
    Expr::IfElse {
        cond: Box::new(cond),
        consequent: Box::new(consequent),
        alternate: Some(Box::new(alternate)),
    }
}

fn tuple(elems: Vec<Expr>) -> Expr {
    Expr::Tuple { elems }
}

fn obj(props: Vec<(&str, Expr)>) -> Expr {
    Expr::Obj {
        props: props
            .into_iter()
            .map(|(name, value)| PropOrSpread::KeyValue { name: s(name), value: Box::new(value) })
            .collect(),
    }
}

fn array_pat(elems: Vec<Pattern>) -> Pattern {
    Pattern::Array { elems: elems.into_iter().map(Some).collect(), type_ann: None }
}

fn array_pat_ann(elems: Vec<Pattern>, ann: TypeAnn) -> Pattern {
    Pattern::Array { elems: elems.into_iter().map(Some).collect(), type_ann: Some(ann) }
}

fn short(key: &str) -> ObjectPatProp {
    ObjectPatProp::Assign { key: s(key) }
}

fn key_value(key: &str, value: Pattern) -> ObjectPatProp {
    ObjectPatProp::KeyValue { key: s(key), value }
}

fn obj_pat(props: Vec<ObjectPatProp>) -> Pattern {
    Pattern::Object { props, type_ann: None }
}

fn obj_pat_ann(props: Vec<ObjectPatProp>, ann: TypeAnn) -> Pattern {
    Pattern::Object { props, type_ann: Some(ann) }
}

fn number_ann() -> TypeAnn {
    TypeAnn::Prim(Primitive::Num)
}

fn boolean_ann() -> TypeAnn {
    TypeAnn::Prim(Primitive::Bool)
}

fn string_ann() -> TypeAnn {
    TypeAnn::Prim(Primitive::Str)
}

fn obj_ann(props: Vec<(&str, TypeAnn)>) -> TypeAnn {
    TypeAnn::Object(
        props
            .into_iter()
            .map(|(name, type_ann)| TPropAnn { name: s(name), optional: false, type_ann })
            .collect(),
    )
}

fn decl(pattern: Pattern, init: Expr) -> Statement {
    Statement::VarDecl { pattern, init: Some(init), declare: false }
}

fn run(body: Vec<Statement>) -> Context {
    match infer_prog(&Program { body }) {
        Ok(ctx) => ctx,
        Err(e) => panic!("{}", e.message()),
    }
}

fn infer(expr: Expr) -> String {
    let mut ctx = Context::default();
    match infer_expr(&mut ctx, &expr) {
        Ok(scheme) => scheme.to_text(),
        Err(e) => panic!("{}", e.message()),
    }
}

fn get_type(name: &str, ctx: &Context) -> String {
    ctx.values.get(name).unwrap().to_text()
}

fn s_combinator() -> Expr {
    lam(
        vec![ident("f")],
        lam(
            vec![ident("g")],
            lam(
                vec![ident("x")],
                app(app(var("f"), vec![var("x")]), vec![app(var("g"), vec![var("x")])]),
            ),
        ),
    )
}

fn k_combinator() -> Expr {
    lam(vec![ident("x")], lam(vec![ident("y")], var("x")))
}

fn five_true_hello() -> Expr {
    tuple(vec![num("5"), boolean(true), string("hello")])
}

fn x5_y10() -> Expr {
    obj(vec![("x", num("5")), ("y", num("10"))])
}

#[test]
fn infer_i_combinator() {
    let ctx = run(vec![decl(ident("I"), lam(vec![ident("x")], var("x")))]);
    assert_eq!(get_type("I", &ctx), "<t0>(t0) => t0");
}

#[test]
fn infer_k_combinator() {
    let ctx = run(vec![decl(ident("K"), k_combinator())]);
    assert_eq!(get_type("K", &ctx), "<t0, t1>(t0) => (t1) => t0");
}

#[test]
fn infer_s_combinator() {
    let ctx = run(vec![decl(ident("S"), s_combinator())]);
    assert_eq!(
        get_type("S", &ctx),
        "<t0, t1, t2>((t0) => (t1) => t2) => ((t0) => t1) => (t0) => t2"
    );
}

#[test]
fn infer_skk() {
    let ctx = run(vec![
        decl(ident("S"), s_combinator()),
        decl(ident("K"), k_combinator()),
        decl(ident("I"), app(app(var("S"), vec![var("K")]), vec![var("K")])),
    ]);
    assert_eq!(get_type("K", &ctx), "<t0, t1>(t0) => (t1) => t0");
    assert_eq!(
        get_type("S", &ctx),
        "<t0, t1, t2>((t0) => (t1) => t2) => ((t0) => t1) => (t0) => t2"
    );
    assert_eq!(get_type("I", &ctx), "<t0>(t0) => t0");
}

#[test]
fn infer_adding_variables() {
    let ctx = run(vec![
        decl(ident("x"), num("5")),
        decl(ident("y"), num("10")),
        decl(ident("z"), op(BinOp::Add, var("x"), var("y"))),
    ]);

    assert_eq!(get_type("z", &ctx), "number");
}

#[test]
fn infer_if_else() {
    let ctx = run(vec![
        decl(ident("n"), num("0")),
        decl(
            ident("result"),
            if_else(op(BinOp::EqEq, var("n"), num("0")), num("5"), num("10")),
        ),
    ]);

    assert_eq!(get_type("result", &ctx), "5 | 10");
}

#[test]
fn infer_fib() {
    let body = if_else(
        op(BinOp::EqEq, var("n"), num("0")),
        num("0"),
        if_else(
            op(BinOp::EqEq, var("n"), num("1")),
            num("1"),
            op(
                BinOp::Add,
                app(var("fib"), vec![op(BinOp::Sub, var("n"), num("1"))]),
                app(var("fib"), vec![op(BinOp::Sub, var("n"), num("2"))]),
            ),
        ),
    );
    let fib = Expr::Fix { expr: Box::new(lam(vec![ident("fib")], lam(vec![ident("n")], body))) };
    let ctx = run(vec![decl(ident("fib"), fib)]);

    assert_eq!(get_type("fib", &ctx), "(number) => number");
}

#[test]
fn infer_app_of_lam() {
    assert_eq!(infer(app(lam(vec![ident("x")], var("x")), vec![num("5")])), "5");
}

#[test]
fn inner_let() {
    assert_eq!(infer(lam(vec![], let_in(ident("x"), num("5"), var("x")))), "() => 5");
}

#[test]
fn inner_let_with_type_annotation() {
    assert_eq!(
        infer(lam(vec![], let_in(ident_ann("x", number_ann()), num("5"), var("x")))),
        "() => number"
    );
}

#[test]
fn infer_tuple() {
    assert_eq!(infer(five_true_hello()), "[5, true, \"hello\"]");
}

#[test]
fn basic_subtyping_assignment() {
    let ctx = run(vec![decl(ident_ann("a", number_ann()), num("5"))]);

    assert_eq!(get_type("a", &ctx), "number");
}

#[test]
fn infer_destructuring_tuple() {
    let ctx = run(vec![decl(
        array_pat(vec![ident("a"), ident("b"), ident("c")]),
        five_true_hello(),
    )]);

    assert_eq!(get_type("a", &ctx), "5");
    assert_eq!(get_type("b", &ctx), "true");
    assert_eq!(get_type("c", &ctx), "\"hello\"");
}

#[test]
fn infer_destructuring_tuple_extra_init_elems() {
    let ctx = run(vec![decl(array_pat(vec![ident("a"), ident("b")]), five_true_hello())]);

    assert_eq!(get_type("a", &ctx), "5");
    assert_eq!(get_type("b", &ctx), "true");
}

#[test]
fn infer_destructuring_nested_tuples() {
    let ctx = run(vec![decl(
        array_pat(vec![array_pat(vec![ident("a"), ident("b")]), ident("c")]),
        tuple(vec![tuple(vec![num("5"), boolean(true)]), string("hello")]),
    )]);

    assert_eq!(get_type("a", &ctx), "5");
    assert_eq!(get_type("b", &ctx), "true");
    assert_eq!(get_type("c", &ctx), "\"hello\"");
}

#[test]
fn infer_destructuring_function_params() {
    let result = infer(lam(
        vec![array_pat(vec![ident("x"), ident("y")])],
        op(BinOp::Add, var("x"), var("y")),
    ));

    assert_eq!(result, "([number, number]) => number");
}

#[test]
fn infer_destructuring_function_params_with_type_annotations() {
    let result = infer(lam(
        vec![array_pat_ann(
            vec![ident("x"), ident("y")],
            TypeAnn::Tuple(vec![string_ann(), boolean_ann()]),
        )],
        tuple(vec![var("x"), var("y")]),
    ));

    assert_eq!(result, "([string, boolean]) => [string, boolean]");
}

#[test]
fn infer_incomplete_destructuring_function_params_with_type_annotations() {
    let result = infer(lam(
        vec![array_pat_ann(vec![ident("x")], TypeAnn::Tuple(vec![string_ann(), boolean_ann()]))],
        var("x"),
    ));

    assert_eq!(result, "([string, boolean]) => string");
}

#[test]
fn destructuring_tuple_inside_lambda() {
    let result = infer(lam(
        vec![ident("p")],
        let_in(
            array_pat(vec![ident("x"), ident("y")]),
            var("p"),
            op(BinOp::Add, var("x"), var("y")),
        ),
    ));

    assert_eq!(result, "([number, number]) => number");
}

#[test]
#[should_panic = "too many elements to unpack"]
fn infer_destructuring_tuple_extra_init_elems_too_many_elements_to_unpack() {
    run(vec![decl(
        array_pat(vec![ident("a"), ident("b"), ident("c"), ident("d")]),
        five_true_hello(),
    )]);
}

#[test]
fn infer_destructuring_tuple_with_type_annotation() {
    let ctx = run(vec![decl(
        array_pat_ann(
            vec![ident("a"), ident("b"), ident("c")],
            TypeAnn::Tuple(vec![number_ann(), boolean_ann(), string_ann()]),
        ),
        five_true_hello(),
    )]);

    assert_eq!(get_type("a", &ctx), "number");
    assert_eq!(get_type("b", &ctx), "boolean");
    assert_eq!(get_type("c", &ctx), "string");
}

#[test]
#[should_panic = "Unification failure"]
fn infer_destructuring_tuple_with_incorrect_type_annotation() {
    let ctx = run(vec![decl(
        array_pat_ann(
            vec![ident("a"), ident("b"), ident("c")],
            TypeAnn::Tuple(vec![number_ann(), boolean_ann(), string_ann()]),
        ),
        tuple(vec![num("5"), string("hello"), boolean(true)]),
    )]);

    assert_eq!(get_type("a", &ctx), "number");
    assert_eq!(get_type("b", &ctx), "boolean");
    assert_eq!(get_type("c", &ctx), "string");
}

#[test]
fn infer_destructuring_tuple_extra_init_elems_with_type_annotation() {
    let ctx = run(vec![decl(
        array_pat_ann(
            vec![ident("a"), ident("b")],
            TypeAnn::Tuple(vec![number_ann(), boolean_ann()]),
        ),
        five_true_hello(),
    )]);

    assert_eq!(get_type("a", &ctx), "number");
    assert_eq!(get_type("b", &ctx), "boolean");
}

#[test]
#[should_panic = "too many elements to unpack"]
fn infer_destructuring_tuple_extra_init_elems_too_many_elements_to_unpack_with_type_annotation() {
    run(vec![decl(
        array_pat_ann(
            vec![ident("a"), ident("b"), ident("c"), ident("d")],
            TypeAnn::Tuple(vec![number_ann(), boolean_ann(), string_ann(), number_ann()]),
        ),
        five_true_hello(),
    )]);
}

#[test]
fn infer_obj() {
    assert_eq!(infer(x5_y10()), "{x: 5, y: 10}");
}

#[test]
fn infer_nested_obj() {
    assert_eq!(
        infer(obj(vec![("a", obj(vec![("b", obj(vec![("c", string("hello"))]))]))])),
        "{a: {b: {c: \"hello\"}}}"
    );
}

#[test]
fn destructure_obj() {
    let ctx = run(vec![decl(obj_pat(vec![short("x"), short("y")]), x5_y10())]);

    assert_eq!(get_type("x", &ctx), "5");
    assert_eq!(get_type("y", &ctx), "10");
}

#[test]
fn nested_destructure_obj() {
    let ctx = run(vec![decl(
        obj_pat(vec![key_value("a", obj_pat(vec![key_value("b", obj_pat(vec![short("c")]))]))]),
        obj(vec![("a", obj(vec![("b", obj(vec![("c", string("hello"))]))]))]),
    )]);

    assert!(ctx.values.get("a").is_none());
    assert!(ctx.values.get("b").is_none());
    assert_eq!(get_type("c", &ctx), "\"hello\"");
}

#[test]
fn partial_destructure_obj() {
    let ctx = run(vec![decl(obj_pat(vec![short("x")]), x5_y10())]);

    assert_eq!(get_type("x", &ctx), "5");
}

#[test]
#[should_panic = "Property 'foo' missing in {x: 5, y: 10}"]
fn missing_property_when_destructuring() {
    run(vec![decl(obj_pat(vec![short("foo")]), x5_y10())]);
}

#[test]
fn obj_assignment() {
    let ctx = run(vec![decl(ident("p"), x5_y10())]);

    assert_eq!(get_type("p", &ctx), "{x: 5, y: 10}");
}

#[test]
fn obj_assignment_with_type_annotation() {
    let ctx = run(vec![decl(
        ident_ann("p", obj_ann(vec![("x", number_ann()), ("y", number_ann())])),
        x5_y10(),
    )]);

    assert_eq!(get_type("p", &ctx), "{x: number, y: number}");
}

#[test]
fn obj_assignment_with_type_annotation_extra_properties() {
    let ctx = run(vec![decl(
        ident_ann("p", obj_ann(vec![("x", number_ann()), ("y", number_ann())])),
        obj(vec![("x", num("5")), ("y", num("10")), ("z", num("15"))]),
    )]);

    assert_eq!(get_type("p", &ctx), "{x: number, y: number}");
}

#[test]
#[should_panic = "Property 'y' missing in {x: 5}"]
fn obj_assignment_with_type_annotation_missing_properties() {
    run(vec![decl(
        ident_ann("p", obj_ann(vec![("x", number_ann()), ("y", number_ann())])),
        obj(vec![("x", num("5"))]),
    )]);
}

#[test]
fn obj_param_destructuring() {
    assert_eq!(
        infer(lam(
            vec![obj_pat(vec![short("x"), short("y")])],
            op(BinOp::Add, var("x"), var("y")),
        )),
        "({x: number, y: number}) => number"
    );
}

#[test]
fn obj_param_destructuring_with_type_annotation() {
    assert_eq!(
        infer(lam(
            vec![obj_pat_ann(
                vec![short("x"), short("y")],
                obj_ann(vec![
                    ("x", TypeAnn::Lit(Lit::Num(s("5")))),
                    ("y", TypeAnn::Lit(Lit::Num(s("10")))),
                ]),
            )],
            op(BinOp::Add, var("x"), var("y")),
        )),
        "({x: 5, y: 10}) => number"
    );
}

#[test]
fn obj_param_partial_destructuring_with_type_annotation() {
    assert_eq!(
        infer(lam(
            vec![obj_pat_ann(
                vec![short("a")],
                obj_ann(vec![("a", string_ann()), ("b", boolean_ann())]),
            )],
            var("a"),
        )),
        "({a: string, b: boolean}) => string"
    );
}

#[test]
#[should_panic = "Property 'c' missing in {a: string, b: boolean}"]
fn obj_destructuring_with_type_annotation_missing_param() {
    infer(lam(
        vec![obj_pat_ann(
            vec![short("c")],
            obj_ann(vec![("a", string_ann()), ("b", boolean_ann())]),
        )],
        var("c"),
    ));
}

#[test]
fn destructuring_inside_lambda() {
    assert_eq!(
        infer(lam(
            vec![ident("p")],
            let_in(
                obj_pat(vec![short("x"), short("y")]),
                var("p"),
                op(BinOp::Add, var("x"), var("y")),
            ),
        )),
        "({x: number, y: number}) => number"
    );
}
