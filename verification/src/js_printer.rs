//! Writes programs of the target language out as text.
use vstd::prelude::*;
use vstd::string::{StrSliceExecFns, StringExecFns};
use crate::ast::lit_model;
use crate::js_ast::{BinaryOp, Expression, Param, Pattern, Program, Statement, UnaryOp};
use crate::text::{join_strings, join_text, lit_string, lit_text, strings_view};

verus! {

/// Whether a character is white space: one of the 25 characters with the
/// Unicode property `White_Space`.
pub open spec fn is_white_space(c: char) -> bool {
    let n = c as u32;
    (0x09 <= n <= 0x0d) || n == 0x20 || n == 0x85 || n == 0xa0 || n == 0x1680 || (0x2000 <= n
        <= 0x200a) || n == 0x2028 || n == 0x2029 || n == 0x202f || n == 0x205f || n == 0x3000
}

/// The string without the white space that it begins with.
pub open spec fn trimmed_start(s: Seq<char>) -> Seq<char>
    decreases s.len(),
{
    if s.len() > 0 && is_white_space(s[0]) {
        trimmed_start(s.drop_first())
    } else {
        s
    }
}

/// Trimming a string that begins with `i` characters of white space is
/// trimming what follows them.
pub proof fn lemma_trimmed_skip(s: Seq<char>, i: int)
    requires
        0 <= i <= s.len(),
        forall|j: int| 0 <= j < i ==> is_white_space(#[trigger] s[j]),
    ensures
        trimmed_start(s) == trimmed_start(s.skip(i)),
    decreases i,
{
    if i > 0 {
        lemma_trimmed_skip(s, i - 1);
        let x = s.skip(i - 1);
        assert(x[0] == s[i - 1]);
        assert(x.drop_first() =~= s.skip(i));
    } else {
        assert(s.skip(0) =~= s);
    }
}

fn white_space(c: char) -> (r: bool)
    ensures
        r == is_white_space(c),
{
    let n = c as u32;
    (0x09 <= n && n <= 0x0d) || n == 0x20 || n == 0x85 || n == 0xa0 || n == 0x1680 || (0x2000 <= n
        && n <= 0x200a) || n == 0x2028 || n == 0x2029 || n == 0x202f || n == 0x205f || n == 0x3000
}

/// The string without the white space that it begins with.
pub fn trim_start(s: &str) -> (r: String)
    ensures
        r@ == trimmed_start(s@),
{
    let n = s.unicode_len();
    let mut i: usize = 0;
    while i < n && white_space(s.get_char(i))
        invariant
            i <= n,
            n == s@.len(),
            forall|j: int| 0 <= j < i ==> is_white_space(#[trigger] s@[j]),
        decreases n - i,
    {
        i += 1;
    }
    proof {
        lemma_trimmed_skip(s@, i as int);
        if i < n {
            assert(s@.skip(i as int)[0] == s@[i as int]);
        }
        assert(s@.skip(i as int) =~= s@.subrange(i as int, n as int));
    }
    String::from_str(s.substring_char(i, n))
}

/// Four spaces for each level.
pub open spec fn indent_text(level: nat) -> Seq<char>
    decreases level,
{
    if level == 0 {
        Seq::empty()
    } else {
        indent_text((level - 1) as nat) + "    "@
    }
}

/// How tightly a binary operator binds.
pub open spec fn precedence(op: BinaryOp) -> int {
    match op {
        BinaryOp::Add => 1,
        BinaryOp::Sub => 1,
        BinaryOp::Mul => 2,
        BinaryOp::Div => 2,
        BinaryOp::Mod => 2,
        BinaryOp::Exp => 3,
    }
}

/// A binary operator as written.
pub open spec fn binary_text(op: BinaryOp) -> Seq<char> {
    match op {
        BinaryOp::Add => "+"@,
        BinaryOp::Sub => "-"@,
        BinaryOp::Mul => "*"@,
        BinaryOp::Div => "/"@,
        BinaryOp::Mod => "%"@,
        BinaryOp::Exp => "**"@,
    }
}

/// A unary operator as written.
pub open spec fn unary_text(op: UnaryOp) -> Seq<char> {
    match op {
        UnaryOp::Neg => "="@,
        UnaryOp::Not => "!"@,
    }
}

/// A pattern as written.
pub open spec fn pattern_text(pattern: Pattern) -> Seq<char> {
    match pattern {
        Pattern::Ident { name } => name@,
    }
}

/// A parameter as written.
pub open spec fn param_text(param: Param) -> Seq<char> {
    match param {
        Param::Ident { name } => name@,
        Param::Rest { name } => "..."@ + name@,
    }
}

/// The parameters as written, in order.
pub open spec fn param_texts(params: Vec<Param>) -> Seq<Seq<char>> {
    Seq::new(params.len() as nat, |i: int| param_text(params[i]))
}

/// Whether the right operand of `op` needs parentheses: a binary
/// expression that binds less tightly, or a division under a division, or a
/// subtraction under a subtraction.
pub open spec fn wraps_right(op: BinaryOp, right: Expression) -> bool {
    match right {
        Expression::Binary { op: right_op, .. } => (op == BinaryOp::Div && right_op
            == BinaryOp::Div) || (op == BinaryOp::Sub && right_op == BinaryOp::Sub) || precedence(
            right_op,
        ) < precedence(op),
        _ => false,
    }
}

/// Whether the left operand of `op` needs parentheses: a binary expression
/// that binds less tightly.
pub open spec fn wraps_left(op: BinaryOp, left: Expression) -> bool {
    match left {
        Expression::Binary { op: left_op, .. } => precedence(left_op) < precedence(op),
        _ => false,
    }
}

/// `text`, between parentheses where `wrap` holds.
pub open spec fn wrapped(wrap: bool, text: Seq<char>) -> Seq<char> {
    if wrap {
        "("@ + text + ")"@
    } else {
        text
    }
}

/// The level at which the body of a function is written: one deeper where
/// it has more than one statement.
pub open spec fn body_level(body: Vec<Statement>, level: nat) -> nat {
    if body.len() <= 1 {
        level
    } else {
        level + 1
    }
}

/// A statement as written at the given level of indentation.
pub open spec fn statement_text(stmt: Statement, level: nat) -> Seq<char>
    decreases stmt, 0nat,
{
    match stmt {
        Statement::Decl { pattern, value } => indent_text(level) + "const "@ + pattern_text(pattern)
            + " = "@ + expr_text(value, level) + ";"@,
        Statement::Expression { expr } => indent_text(level) + expr_text(expr, level),
        Statement::Return { arg } => indent_text(level) + "return "@ + expr_text(arg, level) + ";"@,
    }
}

/// The statements as written, in order.
pub open spec fn statement_texts(stmts: Vec<Statement>, level: nat) -> Seq<Seq<char>>
    decreases stmts, 0nat,
{
    Seq::new(
        stmts.len() as nat,
        |i: int| if 0 <= i < stmts.len() { statement_text(stmts[i], level) } else { arbitrary() },
    )
}

/// The expressions as written, in order.
pub open spec fn expr_texts(exprs: Vec<Expression>, level: nat) -> Seq<Seq<char>>
    decreases exprs, 0nat,
{
    Seq::new(
        exprs.len() as nat,
        |i: int| if 0 <= i < exprs.len() { expr_text(exprs[i], level) } else { arbitrary() },
    )
}

/// An expression as written at the given level of indentation.
///
/// A function that is called stands between parentheses. A function of at
/// most one statement is written on one line; one of more has its body
/// between braces, one level deeper.
pub open spec fn expr_text(expr: Expression, level: nat) -> Seq<char>
    decreases expr, 0nat,
{
    match expr {
        Expression::Call { func, args } => {
            let f = expr_text(*func, level);
            let a = join_text(expr_texts(args, level), ", "@, args.len() as nat);
            if *func is Function {
                "("@ + f + ")("@ + a + ")"@
            } else {
                f + "("@ + a + ")"@
            }
        },
        Expression::Function { params, body } => {
            let p = join_text(param_texts(params), ", "@, params.len() as nat);
            let b = join_text(
                statement_texts(body, body_level(body, level)),
                "\n"@,
                body.len() as nat,
            );
            if body.len() <= 1 {
                "("@ + p + ") => "@ + trimmed_start(b)
            } else {
                "("@ + p + ") => {\n"@ + b + "\n"@ + indent_text(level) + "}"@
            }
        },
        Expression::Ident { name } => name@,
        Expression::Literal { literal } => lit_text(lit_model(literal)),
        Expression::Binary { op, left, right } => wrapped(
            wraps_left(op, *left),
            expr_text(*left, level),
        ) + " "@ + binary_text(op) + " "@ + wrapped(wraps_right(op, *right), expr_text(*right, level)),
        Expression::Unary { op, arg } => unary_text(op) + expr_text(*arg, level),
    }
}

/// Whether the statement can be written at the given level without the
/// level of a nested function leaving the range of `u32`.
pub open spec fn statement_fits(stmt: Statement, level: nat) -> bool
    decreases stmt, 0nat,
{
    match stmt {
        Statement::Decl { value, .. } => expr_fits(value, level),
        Statement::Expression { expr } => expr_fits(expr, level),
        Statement::Return { arg } => expr_fits(arg, level),
    }
}

/// Whether the expression can be written at the given level without the
/// level of a nested function leaving the range of `u32`.
pub open spec fn expr_fits(expr: Expression, level: nat) -> bool
    decreases expr, 0nat,
{
    match expr {
        Expression::Call { func, args } => expr_fits(*func, level) && forall|i: int|
            0 <= i < args.len() ==> expr_fits(#[trigger] args[i], level),
        Expression::Function { body, .. } => body_level(body, level) <= u32::MAX && forall|i: int|
            0 <= i < body.len() ==> statement_fits(#[trigger] body[i], body_level(body, level)),
        Expression::Binary { left, right, .. } => expr_fits(*left, level) && expr_fits(
            *right,
            level,
        ),
        Expression::Unary { arg, .. } => expr_fits(*arg, level),
        _ => true,
    }
}

/// Whether every statement of the program can be written.
pub open spec fn program_fits(prog: Program) -> bool {
    forall|i: int| 0 <= i < prog.body.len() ==> statement_fits(#[trigger] prog.body[i], 0)
}

/// The whole program as written: its statements at level zero, one to a
/// line.
pub open spec fn program_text(prog: Program) -> Seq<char> {
    join_text(statement_texts(prog.body, 0), "\n"@, prog.body.len() as nat)
}

/// The indentation of the given level.
pub fn indent(level: &u32) -> (r: String)
    ensures
        r@ == indent_text(*level as nat),
{
    let mut result: String = String::from_str("");
    proof {
        reveal_strlit("");
        assert(result@ =~= indent_text(0));
    }
    let mut i: u32 = 0;
    while i < *level
        invariant
            i <= *level,
            result@ == indent_text(i as nat),
        decreases *level - i,
    {
        result.append("    ");
        i += 1;
    }
    result
}

/// How tightly a binary operator binds.
pub fn get_precedence(op: &BinaryOp) -> (r: i32)
    ensures
        r == precedence(*op),
{
    match op {
        BinaryOp::Add => 1,
        BinaryOp::Sub => 1,
        BinaryOp::Mul => 2,
        BinaryOp::Div => 2,
        BinaryOp::Mod => 2,
        BinaryOp::Exp => 3,
    }
}

/// A pattern as written.
pub fn print_pattern(pattern: &Pattern) -> (r: String)
    ensures
        r@ == pattern_text(*pattern),
{
    match pattern {
        Pattern::Ident { name } => name.clone(),
    }
}

/// A parameter as written.
pub fn print_param(param: &Param) -> (r: String)
    ensures
        r@ == param_text(*param),
{
    match param {
        Param::Ident { name } => name.clone(),
        Param::Rest { name } => {
            let mut out = String::from_str("...");
            out.append(name.as_str());
            out
        },
    }
}

/// A statement as written at the given level of indentation.
pub fn print_statement(stmt: &Statement, level: &u32) -> (r: String)
    requires
        statement_fits(*stmt, *level as nat),
    ensures
        r@ == statement_text(*stmt, *level as nat),
    decreases stmt, 1nat,
{
    match stmt {
        Statement::Decl { pattern, value } => {
            let mut out = indent(level);
            out.append("const ");
            out.append(print_pattern(pattern).as_str());
            out.append(" = ");
            out.append(print_expr(value, level).as_str());
            out.append(";");
            out
        },
        Statement::Expression { expr } => {
            let mut out = indent(level);
            out.append(print_expr(expr, level).as_str());
            out
        },
        Statement::Return { arg } => {
            let mut out = indent(level);
            out.append("return ");
            out.append(print_expr(arg, level).as_str());
            out.append(";");
            out
        },
    }
}

fn print_statements(stmts: &Vec<Statement>, level: &u32) -> (r: Vec<String>)
    requires
        forall|i: int| 0 <= i < stmts.len() ==> statement_fits(#[trigger] stmts[i], *level as nat),
    ensures
        strings_view(r) == statement_texts(*stmts, *level as nat),
        r.len() == stmts.len(),
    decreases stmts, 2nat,
{
    let mut out: Vec<String> = Vec::new();
    let mut i: usize = 0;
    while i < stmts.len()
        invariant
            i <= stmts.len(),
            out.len() == i,
            forall|j: int|
                0 <= j < stmts.len() ==> statement_fits(#[trigger] stmts[j], *level as nat),
            forall|j: int|
                0 <= j < i ==> (#[trigger] out[j])@ == statement_text(stmts[j], *level as nat),
        decreases stmts.len() - i,
    {
        out.push(print_statement(&stmts[i], level));
        i += 1;
    }
    assert(strings_view(out) =~= statement_texts(*stmts, *level as nat));
    out
}

fn print_exprs(exprs: &Vec<Expression>, level: &u32) -> (r: Vec<String>)
    requires
        forall|i: int| 0 <= i < exprs.len() ==> expr_fits(#[trigger] exprs[i], *level as nat),
    ensures
        strings_view(r) == expr_texts(*exprs, *level as nat),
        r.len() == exprs.len(),
    decreases exprs, 2nat,
{
    let mut out: Vec<String> = Vec::new();
    let mut i: usize = 0;
    while i < exprs.len()
        invariant
            i <= exprs.len(),
            out.len() == i,
            forall|j: int| 0 <= j < exprs.len() ==> expr_fits(#[trigger] exprs[j], *level as nat),
            forall|j: int| 0 <= j < i ==> (#[trigger] out[j])@ == expr_text(exprs[j], *level as nat),
        decreases exprs.len() - i,
    {
        out.push(print_expr(&exprs[i], level));
        i += 1;
    }
    assert(strings_view(out) =~= expr_texts(*exprs, *level as nat));
    out
}

fn print_params(params: &Vec<Param>) -> (r: Vec<String>)
    ensures
        strings_view(r) == param_texts(*params),
        r.len() == params.len(),
{
    let mut out: Vec<String> = Vec::new();
    let mut i: usize = 0;
    while i < params.len()
        invariant
            i <= params.len(),
            out.len() == i,
            forall|j: int| 0 <= j < i ==> (#[trigger] out[j])@ == param_text(params[j]),
        decreases params.len() - i,
    {
        out.push(print_param(&params[i]));
        i += 1;
    }
    assert(strings_view(out) =~= param_texts(*params));
    out
}

fn wrap_text(wrap: bool, text: String) -> (r: String)
    ensures
        r@ == wrapped(wrap, text@),
{
    if wrap {
        let mut out = String::from_str("(");
        out.append(text.as_str());
        out.append(")");
        out
    } else {
        text
    }
}

fn binary_str(op: &BinaryOp) -> (r: &'static str)
    ensures
        r@ == binary_text(*op),
{
    match op {
        BinaryOp::Add => "+",
        BinaryOp::Sub => "-",
        BinaryOp::Mul => "*",
        BinaryOp::Div => "/",
        BinaryOp::Mod => "%",
        BinaryOp::Exp => "**",
    }
}

fn needs_wrap_right(op: &BinaryOp, right: &Expression) -> (r: bool)
    ensures
        r == wraps_right(*op, *right),
{
    match right {
        Expression::Binary { op: right_op, .. } => {
            match (op, right_op) {
                (BinaryOp::Div, BinaryOp::Div) => true,
                (BinaryOp::Sub, BinaryOp::Sub) => true,
                _ => get_precedence(right_op) < get_precedence(op),
            }
        },
        _ => false,
    }
}

fn needs_wrap_left(op: &BinaryOp, left: &Expression) -> (r: bool)
    ensures
        r == wraps_left(*op, *left),
{
    match left {
        Expression::Binary { op: left_op, .. } => get_precedence(left_op) < get_precedence(op),
        _ => false,
    }
}

/// An expression as written at the given level of indentation.
pub fn print_expr(expr: &Expression, level: &u32) -> (r: String)
    requires
        expr_fits(*expr, *level as nat),
    ensures
        r@ == expr_text(*expr, *level as nat),
    decreases expr, 1nat,
{
    match expr {
        Expression::Call { func, args } => {
            let wrap_func = match &**func {
                Expression::Function { .. } => true,
                _ => false,
            };
            let f = print_expr(func, level);
            let a = join_strings(&print_exprs(args, level), ", ");
            if wrap_func {
                let mut out = String::from_str("(");
                out.append(f.as_str());
                out.append(")(");
                out.append(a.as_str());
                out.append(")");
                out
            } else {
                let mut out = f;
                out.append("(");
                out.append(a.as_str());
                out.append(")");
                out
            }
        },
        Expression::Function { params, body } => {
            let p = join_strings(&print_params(params), ", ");
            let wrap = body.len() <= 1;
            let new_level: u32 = if wrap {
                *level
            } else {
                *level + 1
            };
            let b = join_strings(&print_statements(body, &new_level), "\n");
            if wrap {
                let mut out = String::from_str("(");
                out.append(p.as_str());
                out.append(") => ");
                out.append(trim_start(b.as_str()).as_str());
                out
            } else {
                let mut out = String::from_str("(");
                out.append(p.as_str());
                out.append(") => {\n");
                out.append(b.as_str());
                out.append("\n");
                out.append(indent(level).as_str());
                out.append("}");
                out
            }
        },
        Expression::Ident { name } => name.clone(),
        Expression::Literal { literal } => lit_string(&literal.to_type()),
        Expression::Binary { op, left, right } => {
            let l = wrap_text(needs_wrap_left(op, left), print_expr(left, level));
            let r = wrap_text(needs_wrap_right(op, right), print_expr(right, level));
            let mut out = l;
            out.append(" ");
            out.append(binary_str(op));
            out.append(" ");
            out.append(r.as_str());
            out
        },
        Expression::Unary { op, arg } => {
            let mut out = match op {
                UnaryOp::Neg => String::from_str("="),
                UnaryOp::Not => String::from_str("!"),
            };
            out.append(print_expr(arg, level).as_str());
            out
        },
    }
}

/// The whole program as written.
pub fn print_js(prog: &Program) -> (r: String)
    requires
        program_fits(*prog),
    ensures
        r@ == program_text(*prog),
{
    let zero: u32 = 0;
    join_strings(&print_statements(&prog.body, &zero), "\n")
}

} // verus!
