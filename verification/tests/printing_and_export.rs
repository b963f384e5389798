use crochet_infer::ast::{Expr, Lit, Pattern};
use crochet_infer::js_ast::{
    BinaryOp, Expression, Param, Pattern as JsPattern, Program, Statement, UnaryOp,
};
use crochet_infer::js_printer::{
    indent, print_expr, print_js, print_param, print_pattern, print_statement, trim_start,
};
use crochet_infer::ts::ast::TsType;
use crochet_infer::ts::convert::{can_convert, convert_scheme, convert_type};
use crochet_infer::types::{LamType, Primitive, Scheme, Type, Variant};

fn name(text: &str) -> Expression {
    Expression::Ident { name: String::from(text) }
}

fn number(text: &str) -> Expression {
    Expression::Literal { literal: Lit::Num(String::from(text)) }
}

fn binary(op: BinaryOp, left: Expression, right: Expression) -> Expression {
    Expression::Binary { op, left: Box::new(left), right: Box::new(right) }
}

fn function(params: Vec<&str>, body: Vec<Statement>) -> Expression {
    Expression::Function {
        params: params.into_iter().map(|p| Param::Ident { name: String::from(p) }).collect(),
        body,
    }
}

fn show(expr: &Expression) -> String {
    print_expr(expr, &0)
}

#[test]
fn indentation_is_four_spaces_a_level() {
    assert_eq!(indent(&0), "");
    assert_eq!(indent(&1), "    ");
    assert_eq!(indent(&3), "            ");
}

#[test]
fn patterns_and_parameters_are_written_by_name() {
    assert_eq!(print_pattern(&JsPattern::Ident { name: String::from("x") }), "x");
    assert_eq!(print_param(&Param::Ident { name: String::from("x") }), "x");
    assert_eq!(print_param(&Param::Rest { name: String::from("xs") }), "...xs");
}

#[test]
fn statements_end_as_their_kind_asks() {
    let decl = Statement::Decl { pattern: JsPattern::Ident { name: String::from("x") }, value: number("5") };
    assert_eq!(print_statement(&decl, &0), "const x = 5;");
    assert_eq!(print_statement(&decl, &1), "    const x = 5;");
    assert_eq!(print_statement(&Statement::Return { arg: name("x") }, &2), "        return x;");
    assert_eq!(print_statement(&Statement::Expression { expr: name("x") }, &0), "x");
}

#[test]
fn literals_are_written_as_in_the_source() {
    assert_eq!(show(&number("5")), "5");
    assert_eq!(show(&Expression::Literal { literal: Lit::Str(String::from("hi")) }), "\"hi\"");
    assert_eq!(show(&Expression::Literal { literal: Lit::Bool(true) }), "true");
    assert_eq!(show(&Expression::Literal { literal: Lit::Null }), "null");
    assert_eq!(show(&Expression::Literal { literal: Lit::Undefined }), "undefined");
}

#[test]
fn operands_that_bind_less_tightly_stand_in_parentheses() {
    let sum = || binary(BinaryOp::Add, name("a"), name("b"));
    assert_eq!(show(&binary(BinaryOp::Mul, sum(), name("c"))), "(a + b) * c");
    assert_eq!(show(&binary(BinaryOp::Mul, name("c"), sum())), "c * (a + b)");
    assert_eq!(
        show(&binary(BinaryOp::Add, binary(BinaryOp::Mul, name("a"), name("b")), name("c"))),
        "a * b + c"
    );
    assert_eq!(
        show(&binary(BinaryOp::Exp, binary(BinaryOp::Mod, name("a"), name("b")), name("c"))),
        "(a % b) ** c"
    );
}

#[test]
fn a_division_under_a_division_and_a_subtraction_under_a_subtraction_are_kept_apart() {
    let div = |l, r| binary(BinaryOp::Div, l, r);
    let sub = |l, r| binary(BinaryOp::Sub, l, r);
    assert_eq!(show(&div(name("a"), div(name("b"), name("c")))), "a / (b / c)");
    assert_eq!(show(&div(div(name("a"), name("b")), name("c"))), "a / b / c");
    assert_eq!(show(&sub(name("a"), sub(name("b"), name("c")))), "a - (b - c)");
    assert_eq!(
        show(&sub(name("a"), binary(BinaryOp::Add, name("b"), name("c")))),
        "a - b + c"
    );
}

#[test]
fn a_unary_operator_stands_before_its_operand() {
    let not = Expression::Unary { op: UnaryOp::Not, arg: Box::new(name("a")) };
    assert_eq!(show(&not), "!a");
}

#[test]
fn a_call_lists_its_arguments() {
    let call = Expression::Call { func: Box::new(name("f")), args: vec![name("a"), number("1")] };
    assert_eq!(show(&call), "f(a, 1)");
    let none = Expression::Call { func: Box::new(name("f")), args: vec![] };
    assert_eq!(show(&none), "f()");
}

#[test]
fn a_function_of_one_statement_is_written_on_one_line() {
    let f = function(vec!["x", "y"], vec![Statement::Expression { expr: name("x") }]);
    assert_eq!(show(&f), "(x, y) => x");
    assert_eq!(print_expr(&f, &2), "(x, y) => x");
    let empty = function(vec![], vec![]);
    assert_eq!(show(&empty), "() => ");
}

#[test]
fn a_function_of_more_statements_has_its_body_between_braces() {
    let f = function(
        vec!["x"],
        vec![
            Statement::Decl { pattern: JsPattern::Ident { name: String::from("y") }, value: name("x") },
            Statement::Return { arg: name("y") },
        ],
    );
    assert_eq!(show(&f), "(x) => {\n    const y = x;\n    return y;\n}");
    assert_eq!(print_expr(&f, &1), "(x) => {\n        const y = x;\n        return y;\n    }");
}

#[test]
fn a_function_that_is_called_stands_in_parentheses() {
    let f = function(vec!["x"], vec![Statement::Expression { expr: name("x") }]);
    let call = Expression::Call { func: Box::new(f), args: vec![number("5")] };
    assert_eq!(show(&call), "((x) => x)(5)");
}

#[test]
fn a_program_is_written_one_statement_to_a_line() {
    let prog = Program {
        body: vec![
            Statement::Decl { pattern: JsPattern::Ident { name: String::from("x") }, value: number("5") },
            Statement::Expression { expr: name("x") },
        ],
    };
    assert_eq!(print_js(&prog), "const x = 5;\nx");
    assert_eq!(print_js(&Program { body: vec![] }), "");
}

fn ty(id: i32, variant: Variant) -> Type {
    Type { variant, id, frozen: false }
}

fn lam(params: Vec<Type>, ret: Type) -> Type {
    ty(90, Variant::Lam(LamType { params, ret: Box::new(ret), is_call: false }))
}

fn var_name(t: &TsType) -> String {
    match t {
        TsType::Var(n) => n.clone(),
        _ => panic!("not a variable"),
    }
}

#[test]
fn type_variables_are_exported_as_letters() {
    assert_eq!(var_name(&convert_type(&ty(0, Variant::Var), None)), "A");
    assert_eq!(var_name(&convert_type(&ty(25, Variant::Var), None)), "Z");
    assert_eq!(var_name(&convert_type(&ty(26, Variant::Var), None)), "a");
    assert_eq!(var_name(&convert_type(&ty(51, Variant::Var), None)), "z");
    assert!(!can_convert(&ty(52, Variant::Var), None));
    assert!(!can_convert(&ty(-1, Variant::Var), None));
    assert!(!can_convert(&ty(1, Variant::Tuple(vec![])), None));
}

#[test]
fn the_parameters_of_a_function_take_their_names_from_the_expression() {
    let t = lam(vec![ty(0, Variant::Var), ty(1, Variant::Prim(Primitive::Num))], ty(0, Variant::Var));
    match convert_type(&t, None) {
        TsType::Func { params, ret } => {
            assert_eq!(params[0].name, "arg0");
            assert_eq!(params[1].name, "arg1");
            assert_eq!(var_name(&params[0].ty), "A");
            assert!(matches!(params[1].ty, TsType::Prim(Primitive::Num)));
            assert_eq!(var_name(&ret), "A");
        }
        _ => panic!("not a function"),
    }
    let f = Expr::Lambda {
        params: vec![
            Pattern::Ident { name: String::from("x"), type_ann: None },
            Pattern::Rest {
                arg: Box::new(Pattern::Ident { name: String::from("rest"), type_ann: None }),
                type_ann: None,
            },
        ],
        body: Box::new(Expr::Empty),
        is_async: false,
        return_type: None,
        type_params: None,
    };
    assert!(can_convert(&t, Some(&f)));
    match convert_type(&t, Some(&f)) {
        TsType::Func { params, .. } => {
            assert_eq!(params[0].name, "x");
            assert_eq!(params[1].name, "rest");
        }
        _ => panic!("not a function"),
    }
    let fixed = Expr::Fix {
        expr: Box::new(Expr::Lambda {
            params: vec![Pattern::Ident { name: String::from("f"), type_ann: None }],
            body: Box::new(f),
            is_async: false,
            return_type: None,
            type_params: None,
        }),
    };
    assert!(can_convert(&t, Some(&fixed)));
    match convert_type(&t, Some(&fixed)) {
        TsType::Func { params, .. } => assert_eq!(params[0].name, "x"),
        _ => panic!("not a function"),
    }
    let one = Expr::Lambda {
        params: vec![Pattern::Ident { name: String::from("x"), type_ann: None }],
        body: Box::new(Expr::Empty),
        is_async: false,
        return_type: None,
        type_params: None,
    };
    assert!(!can_convert(&t, Some(&one)));
    assert!(!can_convert(&t, Some(&Expr::Empty)));
}

#[test]
fn a_scheme_is_exported_with_its_qualifiers() {
    let sc = Scheme {
        qualifiers: vec![0, 1],
        ty: ty(9, Variant::Union(vec![ty(0, Variant::Var), ty(1, Variant::Var)])),
    };
    let q = convert_scheme(&sc, None);
    assert_eq!(q.type_params, vec![0, 1]);
    match q.ty {
        TsType::Union(members) => {
            assert_eq!(var_name(&members[0]), "A");
            assert_eq!(var_name(&members[1]), "B");
        }
        _ => panic!("not a union"),
    }
}

#[test]
fn trimming_takes_the_white_space_at_the_start_away() {
    assert_eq!(trim_start("  x y "), "x y ");
    assert_eq!(trim_start("\t\n\r x"), "x");
    assert_eq!(trim_start("\u{a0}\u{2003}\u{3000}x"), "x");
    assert_eq!(trim_start("x  "), "x  ");
    assert_eq!(trim_start("   "), "");
    assert_eq!(trim_start(""), "");
    assert_eq!(trim_start("\u{200b}x"), "\u{200b}x");
    for c in ['\u{9}', '\u{b}', '\u{c}', '\u{85}', '\u{1680}', '\u{2000}', '\u{200a}', '\u{2028}', '\u{2029}', '\u{202f}', '\u{205f}'] {
        let text = format!("{}x", c);
        assert_eq!(trim_start(&text), text.trim_start());
    }
}

#[test]
fn a_one_line_function_loses_the_white_space_before_its_statement() {
    let f = function(vec![], vec![Statement::Expression { expr: name(" x") }]);
    assert_eq!(print_expr(&f, &1), "() => x");
}
