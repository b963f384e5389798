//! Expression inference: the substitution and the type that each form of
//! expression gives, and inference of whole programs.
use vstd::prelude::*;
use vstd::string::StrSliceExecFns;
use crate::annot::{ann_spec, infer_type_ann, infer_type_ann_with_params, make};
use crate::ast::{
    lit_model, BinOp, Expr, JSXAttr, JSXAttrValue, Pattern, PropOrSpread, Program, Statement,
    TypeAnn,
};
use crate::context::{
    fresh_type, instantiate_spec, lookup_value_spec, moved_on, scope_kept, Context, ContextModel,
};
use crate::env::{
    apply_env, entry_live, lemma_entries_found, lemma_entries_live, Env,
};
use crate::error::{ErrorModel, InferError};
use crate::intersection::{simplify_intersection, simplify_spec};
use crate::member::{
    infer_property_type, property_type_spec, unwrap_member_spec, unwrap_member_type,
};
use crate::pattern::{infer_pattern, infer_pattern_spec};
use crate::subst::{
    apply, apply_scheme, compose, compose_all, compose_many, compose_subs, no_substs, push_subst,
    subst_models, Subst,
};
use crate::types::{
    copy_type, freeze_scheme, ids_model, no_props, no_types, prop_models, push_prop, push_type, type_models,
    with_frozen, AliasType, Kind, LamType, Lit, Primitive, Prop, Scheme, SchemeModel, TProp, Ty,
    Type, Variant,
};
use crate::unify::{unify, unify_spec, MAX_DEPTH};
use crate::util::{
    generalize, generalize_spec, normalize, normalized, outcome, union_spec, union_types, Outcome,
};

verus! {

/// What inferring an expression gives: a substitution and a type.
pub type Typing = (Map<int, Ty>, Ty);

/// How a pattern is used.
#[derive(Clone, Copy, Debug, PartialEq, Eq, Structural)]
pub enum PatternUsage {
    /// A value is assigned to the pattern: the value must fit the pattern.
    Assign,
    /// A value is matched against the pattern: the pattern must fit the
    /// value.
    Match,
}

/// Whether a scheme quantifies over every variable of its type.
pub open spec fn closed_under(sc: SchemeModel) -> bool {
    forall|v: int| crate::subst::occurs(v, sc.ty) ==> sc.qualifiers.contains(v)
}

/// Whether every value in scope quantifies over every variable of its type.
pub open spec fn all_closed(values: Map<Seq<char>, SchemeModel>) -> bool {
    forall|name: Seq<char>| #[trigger] values.contains_key(name) ==> closed_under(values[name])
}

/// Whether inference left the values in scope as they were, which it does
/// where each of them quantifies over every variable of its type: no
/// substitution reaches such a value.
pub open spec fn steady(before: ContextModel, after: ContextModel) -> bool {
    all_closed(before.values) ==> after.values == before.values
}

/// Applying a substitution to values that quantify over all their variables
/// changes nothing.
pub proof fn lemma_apply_env_closed(values: Map<Seq<char>, SchemeModel>, s: Map<int, Ty>)
    requires
        all_closed(values),
    ensures
        apply_env(values, s) == values,
{
    assert forall|name: Seq<char>| #[trigger] values.contains_key(name) implies apply_scheme(
        values[name],
        s,
    ) == values[name] by {
        let sc = values[name];
        let inner = s.remove_keys(sc.qualifiers.to_set());
        assert forall|k: int| #[trigger] inner.contains_key(k) implies !crate::subst::occurs(
            k,
            sc.ty,
        ) by {
            if crate::subst::occurs(k, sc.ty) {
                assert(sc.qualifiers.contains(k));
                assert(sc.qualifiers.to_set().contains(k));
            }
        }
        crate::subst::lemma_apply_untouched(sc.ty, inner);
    }
    assert(apply_env(values, s) =~= values);
}

/// Whether a scheme has the form in which a program leaves its bindings:
/// its type is frozen, it quantifies over every variable of its type, and
/// the variables that it quantifies over are numbered from zero on.
pub open spec fn top_level(sc: SchemeModel) -> bool {
    sc.ty.frozen && closed_under(sc) && sc.qualifiers == crate::util::iota(sc.qualifiers.len())
}

/// Whether every value in scope has the form of [`top_level`].
pub open spec fn top_level_values(values: Map<Seq<char>, SchemeModel>) -> bool {
    forall|name: Seq<char>| #[trigger] values.contains_key(name) ==> top_level(values[name])
}

/// A scheme that is normalized and then frozen has the form of
/// [`top_level`].
pub proof fn lemma_frozen_normalized_top_level(sc: SchemeModel, count: int)
    requires
        normalized(sc, count) is Ok,
    ensures
        top_level(frozen_scheme(normalized(sc, count)->Ok_0)),
{
    let n = normalized(sc, count)->Ok_0;
    let f = frozen_scheme(n);
    crate::normal::lemma_normalized_variables(sc, count, 0);
    assert forall|v: int| crate::subst::occurs(v, f.ty) implies f.qualifiers.contains(v) by {
        crate::normal::lemma_occurs_frozen(v, n.ty, true);
        crate::normal::lemma_normalized_variables(sc, count, v);
        assert(crate::util::iota(n.qualifiers.len())[v] == v);
    }
}

/// A computation that ended well.
pub open spec fn done<T>(ctx: ContextModel, v: T) -> Outcome<T> {
    Outcome { ctx, res: Ok(v) }
}

/// A computation that failed.
pub open spec fn failed<T>(ctx: ContextModel, e: ErrorModel) -> Outcome<T> {
    Outcome { ctx, res: Err(e) }
}

/// Unification as an outcome; it leaves the context as it is.
pub open spec fn unify_in(ctx: ContextModel, a: Ty, b: Ty) -> Outcome<Map<int, Ty>> {
    Outcome { ctx, res: unify_spec(a, b, MAX_DEPTH as nat) }
}

/// The context in which the body of a binding is inferred: the names bound
/// are added to the values in scope.
pub open spec fn enter(ctx: ContextModel, bound: Map<Seq<char>, SchemeModel>) -> ContextModel {
    ctx.with_values(ctx.values.union_prefer_right(bound))
}

/// The context on leaving a scope: the ids handed out inside stay handed
/// out, what was in scope outside is in scope again.
pub open spec fn leave(inner: ContextModel, outer: ContextModel) -> ContextModel {
    ContextModel { values: outer.values, is_async: outer.is_async, ..inner }
}

/// Whether a type is a reference to the type of deferred computations.
pub open spec fn is_promise_spec(t: Ty) -> bool {
    match t.kind {
        Kind::Alias { name, .. } => name == "Promise"@,
        _ => false,
    }
}

/// Whether a character is an uppercase letter, as `char::is_uppercase`
/// answers.
pub uninterp spec fn char_is_uppercase(c: char) -> bool;

/// `char::is_uppercase`: whether the character has the Unicode property
/// `Uppercase`.
#[verifier::external_body]
fn is_uppercase(c: char) -> (r: bool)
    ensures
        r == char_is_uppercase(c),
{
    c.is_uppercase()
}

/// The primitive that a binary operator gives: a number for arithmetic, a
/// boolean for comparisons.
pub open spec fn op_result(op: BinOp) -> Primitive {
    match op {
        BinOp::Add => Primitive::Num,
        BinOp::Sub => Primitive::Num,
        BinOp::Mul => Primitive::Num,
        BinOp::Div => Primitive::Num,
        _ => Primitive::Bool,
    }
}

/// What the arguments of an application gave: the substitutions and types
/// of those that could be inferred.
pub struct ArgsAcc {
    pub ctx: ContextModel,
    pub ss: Seq<Map<int, Ty>>,
    pub ts: Seq<Ty>,
}

/// What the entries of an object literal gave: substitutions, properties
/// and the types of the spreads.
pub struct ObjAcc {
    pub ss: Seq<Map<int, Ty>>,
    pub props: Seq<Prop>,
    pub spreads: Seq<Ty>,
}

/// The result of a binding once its body is inferred: the scope is left,
/// and the substitution of the body is composed with that of the binding.
pub open spec fn let_result(b: Outcome<Typing>, outer: ContextModel, s1: Map<int, Ty>) -> Outcome<
    Typing,
> {
    match b.res {
        Err(e) => failed(leave(b.ctx, outer), e),
        Ok((s2, t2)) => done(leave(b.ctx, outer), (compose(s2, s1), t2)),
    }
}

/// The type parameters of a function, the first `n` of them: each is bound
/// to a fresh variable.
pub open spec fn type_params_spec(ctx: ContextModel, names: Vec<String>, n: nat) -> Outcome<
    Map<Seq<char>, SchemeModel>,
>
    decreases n,
{
    if n == 0 || n > names.len() {
        done(ctx, Map::empty())
    } else {
        let before = type_params_spec(ctx, names, (n - 1) as nat);
        match before.res {
            Err(e) => before,
            Ok(m) => if !before.ctx.has_room(1) {
                failed(before.ctx, ErrorModel::OutOfIds)
            } else {
                done(
                    before.ctx.advance(1),
                    m.insert(
                        names[n - 1]@,
                        SchemeModel {
                            qualifiers: Seq::empty(),
                            ty: fresh_type(Kind::Var, before.ctx.count + 1),
                        },
                    ),
                )
            },
        }
    }
}

/// The type parameters of a function, where it has any.
pub open spec fn type_params_of(ctx: ContextModel, names: Option<Vec<String>>) -> Outcome<
    Map<Seq<char>, SchemeModel>,
> {
    match names {
        Some(v) => type_params_spec(ctx, v, v.len() as nat),
        None => done(ctx, Map::empty()),
    }
}

/// The parameters of a function, the first `n` of them, from the left: the
/// substitution and the type of each pattern; the names that it binds come
/// into scope.
pub open spec fn lambda_params_spec(
    ctx: ContextModel,
    params: Vec<Pattern>,
    n: nat,
    tpm: Map<Seq<char>, SchemeModel>,
) -> Outcome<(Seq<Map<int, Ty>>, Seq<Ty>)>
    decreases n,
{
    if n == 0 || n > params.len() {
        done(ctx, (Seq::empty(), Seq::empty()))
    } else {
        let before = lambda_params_spec(ctx, params, (n - 1) as nat, tpm);
        match before.res {
            Err(e) => before,
            Ok((ss, ts)) => {
                let r = infer_pattern_spec(before.ctx, params[n - 1], tpm);
                match r.res {
                    Err(e) => failed(r.ctx, e),
                    Ok((ps, pa, pt)) => done(enter(r.ctx, pa), (ss.push(ps), ts.push(pt))),
                }
            },
        }
    }
}

/// The type of a function once its parameters and body are inferred.
///
/// The result of an async function is wrapped in the type of deferred
/// computations unless it is one already. It is unified with the return
/// type annotation where there is one.
pub open spec fn lambda_finish(
    ctx: ContextModel,
    is_async: bool,
    return_type: Option<TypeAnn>,
    tpm: Map<Seq<char>, SchemeModel>,
    ss: Seq<Map<int, Ty>>,
    ts: Seq<Ty>,
    rs: Map<int, Ty>,
    rt: Ty,
) -> Outcome<Typing> {
    let w = if is_async && !is_promise_spec(rt) {
        make(ctx, Kind::Alias { name: "Promise"@, args: Some(seq![rt]) })
    } else {
        done(ctx, rt)
    };
    match w.res {
        Err(e) => failed(w.ctx, e),
        Ok(ret) => {
            let u = match return_type {
                Some(ann) => {
                    let a = ann_spec(w.ctx, ann, tpm);
                    match a.res {
                        Err(e) => failed(a.ctx, e),
                        Ok(at) => unify_in(a.ctx, ret, at),
                    }
                },
                None => done(w.ctx, Map::empty()),
            };
            match u.res {
                Err(e) => failed(u.ctx, e),
                Ok(s) => {
                    let l = make(
                        u.ctx,
                        Kind::Lam { params: ts, ret: Box::new(ret), is_call: false },
                    );
                    match l.res {
                        Err(e) => failed(l.ctx, e),
                        Ok(t) => {
                            let all = compose(s, compose(rs, compose_many(ss)));
                            done(l.ctx, (all, apply(t, all)))
                        },
                    }
                },
            }
        },
    }
}

/// The application of a callee of the type `lam_t`, inferred with `s1`, to
/// arguments that gave `ss` and `ts`: a call type with a fresh result is
/// unified with the type of the callee.
pub open spec fn app_finish(ctx: ContextModel, s1: Map<int, Ty>, lam_t: Ty, ss: Seq<Map<int, Ty>>, ts: Seq<
    Ty,
>) -> Outcome<Typing> {
    if !ctx.has_room(2) {
        failed(ctx, ErrorModel::OutOfIds)
    } else {
        let ret = fresh_type(Kind::Var, ctx.count + 1);
        let call = fresh_type(
            Kind::Lam { params: ts, ret: Box::new(ret), is_call: true },
            ctx.count + 2,
        );
        match unify_spec(call, lam_t, MAX_DEPTH as nat) {
            Err(e) => failed(ctx.advance(2), e),
            Ok(s3) => {
                let s = compose_many(seq![s3] + ss + seq![s1]);
                done(ctx.advance(2), (s, apply(ret, s)))
            },
        }
    }
}

/// The fixed point of an expression of the type `t`, inferred with `s1`:
/// `t` is unified with a function from a fresh variable to itself.
pub open spec fn fix_finish(ctx: ContextModel, s1: Map<int, Ty>, t: Ty) -> Outcome<Typing> {
    if !ctx.has_room(2) {
        failed(ctx, ErrorModel::OutOfIds)
    } else {
        let tv = fresh_type(Kind::Var, ctx.count + 1);
        let lam = fresh_type(
            Kind::Lam { params: seq![tv], ret: Box::new(tv), is_call: false },
            ctx.count + 2,
        );
        match unify_spec(lam, t, MAX_DEPTH as nat) {
            Err(e) => failed(ctx.advance(2), e),
            Ok(s2) => done(ctx.advance(2), (compose(s2, s1), apply(tv, s2))),
        }
    }
}

/// `t` unified with the primitive `p`, made for the purpose.
pub open spec fn unify_prim(ctx: ContextModel, t: Ty, p: Primitive) -> Outcome<Map<int, Ty>> {
    let m = make(ctx, Kind::Prim(p));
    match m.res {
        Err(e) => failed(m.ctx, e),
        Ok(pt) => unify_in(m.ctx, t, pt),
    }
}

/// The consequent of an `if` without `else` must be of the type
/// `undefined`.
pub open spec fn unify_no_value(ctx: ContextModel, t: Ty) -> Outcome<Map<int, Ty>> {
    let u = unify_prim(ctx, t, Primitive::Undefined);
    match u.res {
        Err(ErrorModel::OutOfIds) => u,
        Err(_) => failed(u.ctx, ErrorModel::IfWithoutElse),
        Ok(_) => u,
    }
}

/// A binary operator on operands that gave `(s1, t1)` and `(s2, t2)`: both
/// must be numbers.
pub open spec fn op_finish(
    ctx: ContextModel,
    op: BinOp,
    s1: Map<int, Ty>,
    t1: Ty,
    s2: Map<int, Ty>,
    t2: Ty,
) -> Outcome<Typing> {
    let u1 = unify_prim(ctx, t1, Primitive::Num);
    match u1.res {
        Err(e) => failed(u1.ctx, e),
        Ok(s3) => {
            let u2 = unify_prim(u1.ctx, t2, Primitive::Num);
            match u2.res {
                Err(e) => failed(u2.ctx, e),
                Ok(s4) => {
                    let m = make(u2.ctx, Kind::Prim(op_result(op)));
                    match m.res {
                        Err(e) => failed(m.ctx, e),
                        Ok(t) => done(m.ctx, (compose_many(seq![s1, s2, s3, s4]), t)),
                    }
                },
            }
        },
    }
}

/// An `if` with `else` on a boolean condition.
pub open spec fn if_else_finish(
    ctx: ContextModel,
    s1: Map<int, Ty>,
    t1: Ty,
    s2: Map<int, Ty>,
    t2: Ty,
    s3: Map<int, Ty>,
    t3: Ty,
) -> Outcome<Typing> {
    let u = unify_prim(ctx, t1, Primitive::Bool);
    match u.res {
        Err(e) => failed(u.ctx, e),
        Ok(s4) => {
            let un = union_spec(u.ctx, t2, t3);
            match un.1 {
                Err(e) => failed(un.0, e),
                Ok(t) => done(un.0, (compose_many(seq![s1, s2, s3, s4]), t)),
            }
        },
    }
}

/// An `if` without `else` on a boolean condition.
pub open spec fn if_finish(ctx: ContextModel, s1: Map<int, Ty>, t1: Ty, s2: Map<int, Ty>, t2: Ty) -> Outcome<
    Typing,
> {
    let u = unify_prim(ctx, t1, Primitive::Bool);
    match u.res {
        Err(e) => failed(u.ctx, e),
        Ok(s3) => {
            let v = unify_no_value(u.ctx, t2);
            match v.res {
                Err(e) => failed(v.ctx, e),
                Ok(s4) => done(v.ctx, (compose_many(seq![s1, s2, s3, s4]), t2)),
            }
        },
    }
}

/// An `if` with `else` whose condition binds a pattern.
pub open spec fn if_let_else_finish(ctx: ContextModel, s1: Map<int, Ty>, t1: Ty, s2: Map<int, Ty>, t2: Ty) -> Outcome<
    Typing,
> {
    let un = union_spec(ctx, t1, t2);
    match un.1 {
        Err(e) => failed(un.0, e),
        Ok(t) => done(un.0, (compose_many(seq![s1, s2]), t)),
    }
}

/// An `if` without `else` whose condition binds a pattern.
pub open spec fn if_let_finish(ctx: ContextModel, s1: Map<int, Ty>, t1: Ty) -> Outcome<Typing> {
    let v = unify_no_value(ctx, t1);
    match v.res {
        Err(e) => failed(v.ctx, e),
        Ok(s2) => done(v.ctx, (compose(s2, s1), t1)),
    }
}

/// `await` on an operand that gave `(s1, t1)`: the operand must be a
/// deferred computation of a fresh variable, which is the result.
pub open spec fn await_finish(ctx: ContextModel, s1: Map<int, Ty>, t1: Ty) -> Outcome<Typing> {
    if !ctx.has_room(2) {
        failed(ctx, ErrorModel::OutOfIds)
    } else {
        let w = fresh_type(Kind::Var, ctx.count + 1);
        let p = fresh_type(Kind::Alias { name: "Promise"@, args: Some(seq![w]) }, ctx.count + 2);
        match unify_spec(t1, p, MAX_DEPTH as nat) {
            Err(e) => failed(ctx.advance(2), e),
            Ok(s2) => done(ctx.advance(2), (compose(s2, s1), w)),
        }
    }
}

/// An object literal whose entries gave `acc`: the object type of its
/// properties, or, where it has spreads, the simplified intersection of
/// their types and that object type.
pub open spec fn obj_finish(ctx: ContextModel, acc: ObjAcc) -> Outcome<Typing> {
    let o = make(ctx, Kind::Object(acc.props));
    match o.res {
        Err(e) => failed(o.ctx, e),
        Ok(obj) => if acc.spreads.len() == 0 {
            done(o.ctx, (compose_many(acc.ss), obj))
        } else {
            let si = simplify_spec(o.ctx, acc.spreads.push(obj), MAX_DEPTH as nat);
            match si.1 {
                Err(e) => failed(si.0, e),
                Ok(t) => done(si.0, (compose_many(acc.ss), t)),
            }
        },
    }
}

/// Member access on an object that gave `(s, t)`.
pub open spec fn member_finish(ctx: ContextModel, s: Map<int, Ty>, t: Ty, prop: Seq<char>) -> Outcome<
    Typing,
> {
    let p = property_type_spec(ctx, t, prop, MAX_DEPTH as nat);
    match p.res {
        Err(e) => failed(p.ctx, e),
        Ok(pt) => {
            let u = unwrap_member_spec(p.ctx, pt);
            match u.res {
                Err(e) => failed(u.ctx, e),
                Ok(ut) => done(u.ctx, (s, ut)),
            }
        },
    }
}

/// A component element whose component is of the type `ct` and whose
/// attributes gave `ss` and `props`: a call with the object of the
/// attributes, giving an element, is unified with the type of the component.
pub open spec fn component_finish(ctx: ContextModel, ct: Ty, ss: Seq<Map<int, Ty>>, props: Seq<Prop>) -> Outcome<
    Typing,
> {
    if !ctx.has_room(3) {
        failed(ctx, ErrorModel::OutOfIds)
    } else {
        let ret = fresh_type(Kind::Alias { name: "JSXElement"@, args: None }, ctx.count + 1);
        let obj = fresh_type(Kind::Object(props), ctx.count + 2);
        let call = fresh_type(
            Kind::Lam { params: seq![obj], ret: Box::new(ret), is_call: true },
            ctx.count + 3,
        );
        match unify_spec(call, ct, MAX_DEPTH as nat) {
            Err(e) => failed(ctx.advance(3), e),
            Ok(s2) => done(ctx.advance(3), (compose(s2, compose_many(ss)), ret)),
        }
    }
}

/// The component that an element names, instantiated: it must be in scope
/// and a function.
pub open spec fn component_spec(ctx: ContextModel, name: Seq<char>) -> Outcome<Ty> {
    if !ctx.values.contains_key(name) {
        failed(ctx, ErrorModel::ComponentNotInScope(name))
    } else {
        let sc = ctx.values[name];
        if !ctx.has_room(sc.qualifiers.len() as int) {
            failed(ctx, ErrorModel::OutOfIds)
        } else {
            let ct = instantiate_spec(sc, ctx.count);
            if ct.kind is Lam {
                done(ctx.advance(sc.qualifiers.len() as int), ct)
            } else {
                failed(ctx.advance(sc.qualifiers.len() as int), ErrorModel::ComponentNotFunction)
            }
        }
    }
}

/// The substitution and the type of the expression `e`, and the context
/// after it: what the form of `e` gives, with the substitution applied to
/// every value in scope.
pub open spec fn infer_spec(ctx: ContextModel, e: Expr) -> Outcome<Typing>
    decreases e, 2nat,
{
    let r = infer_form(ctx, e);
    match r.res {
        Err(_) => r,
        Ok((s, t)) => done(r.ctx.with_values(apply_env(r.ctx.values, s)), (s, t)),
    }
}

/// What each form of expression gives.
pub open spec fn infer_form(ctx: ContextModel, e: Expr) -> Outcome<Typing>
    decreases e, 1nat,
{
    match e {
        Expr::App { lam, args } => {
            let f = infer_spec(ctx, *lam);
            match f.res {
                Err(e) => f,
                Ok((s1, lam_t)) => {
                    let a = infer_args(f.ctx, args, args.len() as nat);
                    app_finish(a.ctx, s1, lam_t, a.ss, a.ts)
                },
            }
        },
        Expr::Fix { expr } => {
            let r = infer_spec(ctx, *expr);
            match r.res {
                Err(e) => r,
                Ok((s1, t)) => fix_finish(r.ctx, s1, t),
            }
        },
        Expr::Ident { name } => {
            let l = lookup_value_spec(ctx, name@);
            match l.1 {
                Err(e) => failed(l.0, e),
                Ok(t) => done(l.0, (Map::empty(), t)),
            }
        },
        Expr::IfElse { cond, consequent, alternate } => match (*cond, alternate) {
            (Expr::LetExpr { pat, expr }, Some(alt)) => {
                let pi = pattern_and_init_spec(ctx, pat, *expr, PatternUsage::Match);
                match pi.res {
                    Err(e) => failed(leave(pi.ctx, ctx), e),
                    Ok((pa, s0)) => {
                        let r1 = let_result(infer_spec(enter(pi.ctx, pa), *consequent), ctx, s0);
                        match r1.res {
                            Err(e) => r1,
                            Ok((s1, t1)) => {
                                let r2 = infer_spec(r1.ctx, *alt);
                                match r2.res {
                                    Err(e) => r2,
                                    Ok((s2, t2)) => if_let_else_finish(r2.ctx, s1, t1, s2, t2),
                                }
                            },
                        }
                    },
                }
            },
            (Expr::LetExpr { pat, expr }, None) => {
                let pi = pattern_and_init_spec(ctx, pat, *expr, PatternUsage::Match);
                match pi.res {
                    Err(e) => failed(leave(pi.ctx, ctx), e),
                    Ok((pa, s0)) => {
                        let r1 = let_result(infer_spec(enter(pi.ctx, pa), *consequent), ctx, s0);
                        match r1.res {
                            Err(e) => r1,
                            Ok((s1, t1)) => if_let_finish(r1.ctx, s1, t1),
                        }
                    },
                }
            },
            (_, Some(alt)) => {
                let r1 = infer_spec(ctx, *cond);
                match r1.res {
                    Err(e) => r1,
                    Ok((s1, t1)) => {
                        let r2 = infer_spec(r1.ctx, *consequent);
                        match r2.res {
                            Err(e) => r2,
                            Ok((s2, t2)) => {
                                let r3 = infer_spec(r2.ctx, *alt);
                                match r3.res {
                                    Err(e) => r3,
                                    Ok((s3, t3)) => if_else_finish(r3.ctx, s1, t1, s2, t2, s3, t3),
                                }
                            },
                        }
                    },
                }
            },
            (_, None) => {
                let r1 = infer_spec(ctx, *cond);
                match r1.res {
                    Err(e) => r1,
                    Ok((s1, t1)) => {
                        let r2 = infer_spec(r1.ctx, *consequent);
                        match r2.res {
                            Err(e) => r2,
                            Ok((s2, t2)) => if_finish(r2.ctx, s1, t1, s2, t2),
                        }
                    },
                }
            },
        },
        Expr::JSXElement { name, .. } => {
            if name@.len() == 0 {
                failed(ctx, ErrorModel::Unsupported)
            } else {
                element_form(ctx, e, char_is_uppercase(name@[0]))
            }
        },
        Expr::Lambda { params, body, is_async, return_type, type_params } => {
            let inner = ContextModel { is_async, ..ctx };
            let tp = type_params_of(inner, type_params);
            match tp.res {
                Err(e) => failed(leave(tp.ctx, ctx), e),
                Ok(tpm) => {
                    let ps = lambda_params_spec(tp.ctx, params, params.len() as nat, tpm);
                    match ps.res {
                        Err(e) => failed(leave(ps.ctx, ctx), e),
                        Ok((ss, ts)) => {
                            let b = infer_spec(ps.ctx, *body);
                            match b.res {
                                Err(e) => failed(leave(b.ctx, ctx), e),
                                Ok((rs, rt)) => lambda_finish(
                                    leave(b.ctx, ctx),
                                    is_async,
                                    return_type,
                                    tpm,
                                    ss,
                                    ts,
                                    rs,
                                    rt,
                                ),
                            }
                        },
                    }
                },
            }
        },
        Expr::Let { pattern, init, body } => match pattern {
            Some(pat) => {
                let pi = pattern_and_init_spec(ctx, pat, *init, PatternUsage::Assign);
                match pi.res {
                    Err(e) => failed(leave(pi.ctx, ctx), e),
                    Ok((pa, s1)) => let_result(infer_spec(enter(pi.ctx, pa), *body), ctx, s1),
                }
            },
            None => infer_spec(ctx, *body),
        },
        Expr::LetExpr { .. } => failed(ctx, ErrorModel::Unsupported),
        Expr::Lit(lit) => {
            let m = make(ctx, Kind::Lit(lit_model(lit)));
            match m.res {
                Err(e) => failed(m.ctx, e),
                Ok(t) => done(m.ctx, (Map::empty(), t)),
            }
        },
        Expr::Op { op, left, right } => {
            let r1 = infer_spec(ctx, *left);
            match r1.res {
                Err(e) => r1,
                Ok((s1, t1)) => {
                    let r2 = infer_spec(r1.ctx, *right);
                    match r2.res {
                        Err(e) => r2,
                        Ok((s2, t2)) => op_finish(r2.ctx, op, s1, t1, s2, t2),
                    }
                },
            }
        },
        Expr::Obj { props } => {
            let a = infer_obj_props(ctx, props, props.len() as nat);
            match a.res {
                Err(e) => failed(a.ctx, e),
                Ok(acc) => obj_finish(a.ctx, acc),
            }
        },
        Expr::Await { expr } => {
            if !ctx.is_async {
                failed(ctx, ErrorModel::AwaitOutsideAsync)
            } else {
                let r = infer_spec(ctx, *expr);
                match r.res {
                    Err(e) => r,
                    Ok((s1, t1)) => await_finish(r.ctx, s1, t1),
                }
            }
        },
        Expr::Tuple { elems } => {
            let es = infer_elems(ctx, elems, elems.len() as nat);
            match es.res {
                Err(e) => failed(es.ctx, e),
                Ok((ss, ts)) => {
                    let m = make(es.ctx, Kind::Tuple(ts));
                    match m.res {
                        Err(e) => failed(m.ctx, e),
                        Ok(t) => done(m.ctx, (compose_many(ss), t)),
                    }
                },
            }
        },
        Expr::Member { obj, prop } => {
            let r = infer_spec(ctx, *obj);
            match r.res {
                Err(e) => r,
                Ok((s, t)) => member_finish(r.ctx, s, t, prop@),
            }
        },
        Expr::Empty => {
            let m = make(ctx, Kind::Prim(Primitive::Undefined));
            match m.res {
                Err(e) => failed(m.ctx, e),
                Ok(t) => done(m.ctx, (Map::empty(), t)),
            }
        },
    }
}

/// What an element gives, where `upper` says whether its name begins with
/// an uppercase letter.
///
/// With one it names a component: a function in scope, which is called
/// with the object of the attributes. Without one it is an element of the
/// host, whose attributes are not looked at.
pub open spec fn element_form(ctx: ContextModel, e: Expr, upper: bool) -> Outcome<Typing>
    decreases e, 0nat,
{
    match e {
        Expr::JSXElement { name, attrs } => {
            if upper {
                let c = component_spec(ctx, name@);
                match c.res {
                    Err(e) => failed(c.ctx, e),
                    Ok(ct) => {
                        let a = infer_attrs(c.ctx, attrs, attrs.len() as nat);
                        match a.res {
                            Err(e) => failed(a.ctx, e),
                            Ok((ss, props)) => component_finish(a.ctx, ct, ss, props),
                        }
                    },
                }
            } else {
                let m = make(ctx, Kind::Alias { name: "JSXElement"@, args: None });
                match m.res {
                    Err(e) => failed(m.ctx, e),
                    Ok(t) => done(m.ctx, (Map::empty(), t)),
                }
            }
        },
        _ => failed(ctx, ErrorModel::Unsupported),
    }
}

/// A pattern and the value that it is bound to: the names bound, with the
/// substitution applied, and the substitution. The type of the value is
/// unified with the type of the pattern, in the direction that `usage` asks
/// for.
pub open spec fn pattern_and_init_spec(ctx: ContextModel, pat: Pattern, init: Expr, usage: PatternUsage) -> Outcome<
    (Map<Seq<char>, SchemeModel>, Map<int, Ty>),
>
    decreases init, 3nat,
{
    let p = infer_pattern_spec(ctx, pat, Map::empty());
    match p.res {
        Err(e) => failed(p.ctx, e),
        Ok((ps, pa, pt)) => {
            let i = infer_spec(p.ctx, init);
            match i.res {
                Err(e) => failed(i.ctx, e),
                Ok((is, it)) => {
                    let u = match usage {
                        PatternUsage::Assign => unify_spec(it, pt, MAX_DEPTH as nat),
                        PatternUsage::Match => unify_spec(pt, it, MAX_DEPTH as nat),
                    };
                    match u {
                        Err(e) => failed(i.ctx, e),
                        Ok(s) => {
                            let all = compose_many(seq![is, ps, s]);
                            done(i.ctx, (apply_env(pa, all), all))
                        },
                    }
                },
            }
        },
    }
}

/// The arguments of an application, the first `n` of them, from the left.
/// An argument that cannot be inferred is left out.
pub open spec fn infer_args(ctx: ContextModel, args: Vec<Expr>, n: nat) -> ArgsAcc
    decreases args, n,
{
    if n == 0 || n > args.len() {
        ArgsAcc { ctx, ss: Seq::empty(), ts: Seq::empty() }
    } else {
        let before = infer_args(ctx, args, (n - 1) as nat);
        let r = infer_spec(before.ctx, args[n - 1]);
        match r.res {
            Err(_) => ArgsAcc { ctx: r.ctx, ss: before.ss, ts: before.ts },
            Ok((s, t)) => ArgsAcc { ctx: r.ctx, ss: before.ss.push(s), ts: before.ts.push(t) },
        }
    }
}

/// The elements of a tuple literal, the first `n` of them, from the left.
pub open spec fn infer_elems(ctx: ContextModel, elems: Vec<Expr>, n: nat) -> Outcome<
    (Seq<Map<int, Ty>>, Seq<Ty>),
>
    decreases elems, n,
{
    if n == 0 || n > elems.len() {
        done(ctx, (Seq::empty(), Seq::empty()))
    } else {
        let before = infer_elems(ctx, elems, (n - 1) as nat);
        match before.res {
            Err(e) => before,
            Ok((ss, ts)) => {
                let r = infer_spec(before.ctx, elems[n - 1]);
                match r.res {
                    Err(e) => failed(r.ctx, e),
                    Ok((s, t)) => done(r.ctx, (ss.push(s), ts.push(t))),
                }
            },
        }
    }
}

/// The entries of an object literal, the first `n` of them, from the left.
pub open spec fn infer_obj_props(ctx: ContextModel, props: Vec<PropOrSpread>, n: nat) -> Outcome<
    ObjAcc,
>
    decreases props, n,
{
    if n == 0 || n > props.len() {
        done(ctx, ObjAcc { ss: Seq::empty(), props: Seq::empty(), spreads: Seq::empty() })
    } else {
        let before = infer_obj_props(ctx, props, (n - 1) as nat);
        match before.res {
            Err(e) => before,
            Ok(acc) => match props[n - 1] {
                PropOrSpread::Shorthand { name } => {
                    let l = lookup_value_spec(before.ctx, name@);
                    match l.1 {
                        Err(e) => failed(l.0, e),
                        Ok(t) => done(
                            l.0,
                            ObjAcc {
                                props: acc.props.push(Prop { name: name@, optional: false, ty: t }),
                                ..acc
                            },
                        ),
                    }
                },
                PropOrSpread::KeyValue { name, value } => {
                    let r = infer_spec(before.ctx, *value);
                    match r.res {
                        Err(e) => failed(r.ctx, e),
                        Ok((s, t)) => done(
                            r.ctx,
                            ObjAcc {
                                ss: acc.ss.push(s),
                                props: acc.props.push(Prop { name: name@, optional: false, ty: t }),
                                spreads: acc.spreads,
                            },
                        ),
                    }
                },
                PropOrSpread::Spread { expr } => {
                    let r = infer_spec(before.ctx, *expr);
                    match r.res {
                        Err(e) => failed(r.ctx, e),
                        Ok((s, t)) => done(
                            r.ctx,
                            ObjAcc {
                                ss: acc.ss.push(s),
                                props: acc.props,
                                spreads: acc.spreads.push(t),
                            },
                        ),
                    }
                },
            },
        }
    }
}

/// The attributes of an element, the first `n` of them, from the left: a
/// required property for each.
pub open spec fn infer_attrs(ctx: ContextModel, attrs: Vec<JSXAttr>, n: nat) -> Outcome<
    (Seq<Map<int, Ty>>, Seq<Prop>),
>
    decreases attrs, n,
{
    if n == 0 || n > attrs.len() {
        done(ctx, (Seq::empty(), Seq::empty()))
    } else {
        let before = infer_attrs(ctx, attrs, (n - 1) as nat);
        match before.res {
            Err(e) => before,
            Ok((ss, props)) => {
                let attr = attrs[n - 1];
                let r = match attr.value {
                    JSXAttrValue::Lit(lit) => {
                        let m = make(before.ctx, Kind::Lit(lit_model(lit)));
                        match m.res {
                            Err(e) => failed(m.ctx, e),
                            Ok(t) => done(m.ctx, (Map::empty(), t)),
                        }
                    },
                    JSXAttrValue::Expr(expr) => infer_spec(before.ctx, *expr),
                };
                match r.res {
                    Err(e) => failed(r.ctx, e),
                    Ok((s, t)) => done(
                        r.ctx,
                        (ss.push(s), props.push(Prop { name: attr.ident@, optional: false, ty: t })),
                    ),
                }
            },
        }
    }
}

/// The binding of a pattern with its body, as one function of the three;
/// this is what the forms that bind a pattern inline.
pub open spec fn let_spec(ctx: ContextModel, pat: Pattern, init: Expr, body: Expr, usage: PatternUsage) -> Outcome<
    Typing,
> {
    let pi = pattern_and_init_spec(ctx, pat, init, usage);
    match pi.res {
        Err(e) => failed(leave(pi.ctx, ctx), e),
        Ok((pa, s1)) => let_result(infer_spec(enter(pi.ctx, pa), body), ctx, s1),
    }
}

fn is_promise(ty: &Type) -> (r: bool)
    ensures
        r == is_promise_spec(ty@),
{
    match &ty.variant {
        Variant::Alias(alias) => {
            let promise = String::from_str("Promise");
            alias.name == promise
        },
        _ => false,
    }
}

fn one_type(t: Type) -> (r: Vec<Type>)
    ensures
        type_models(r) == seq![t@],
{
    let mut v = no_types();
    push_type(&mut v, t);
    assert(type_models(v) =~= seq![t@]);
    v
}

fn around(first: Subst, mid: &Vec<Subst>, last: Subst) -> (r: Vec<Subst>)
    ensures
        subst_models(r@) == seq![first@] + subst_models(mid@) + seq![last@],
{
    let mut out = no_substs();
    push_subst(&mut out, first);
    let mut i: usize = 0;
    assert(subst_models(out@) =~= seq![first@] + subst_models(mid@).take(0));
    while i < mid.len()
        invariant
            i <= mid.len(),
            subst_models(out@) == seq![first@] + subst_models(mid@).take(i as int),
        decreases mid.len() - i,
    {
        push_subst(&mut out, mid[i].clone());
        assert(subst_models(out@) =~= seq![first@] + subst_models(mid@).take(i + 1));
        i += 1;
    }
    assert(subst_models(mid@).take(mid.len() as int) =~= subst_models(mid@));
    push_subst(&mut out, last);
    out
}

fn unify_with_prim(ctx: &mut Context, t: &Type, p: Primitive) -> (r: Result<Subst, InferError>)
    ensures
        moved_on(old(ctx)@, final(ctx)@),
        scope_kept(old(ctx)@, final(ctx)@),
        outcome(final(ctx)@, r) == unify_prim(old(ctx)@, t@, p),
{
    let pt = ctx.make(Variant::Prim(p))?;
    unify(t, &pt, ctx)
}

fn unify_with_no_value(ctx: &mut Context, t: &Type) -> (r: Result<Subst, InferError>)
    ensures
        moved_on(old(ctx)@, final(ctx)@),
        scope_kept(old(ctx)@, final(ctx)@),
        outcome(final(ctx)@, r) == unify_no_value(old(ctx)@, t@),
{
    match unify_with_prim(ctx, t, Primitive::Undefined) {
        Ok(s) => Ok(s),
        Err(InferError::OutOfIds) => Err(InferError::OutOfIds),
        Err(_) => Err(InferError::IfWithoutElse),
    }
}

fn finish_app(ctx: &mut Context, s1: Subst, lam_t: &Type, ss: &Vec<Subst>, ts: Vec<Type>) -> (r:
    Result<(Subst, Type), InferError>)
    ensures
        moved_on(old(ctx)@, final(ctx)@),
        scope_kept(old(ctx)@, final(ctx)@),
        outcome(final(ctx)@, r) == app_finish(
            old(ctx)@,
            s1@,
            lam_t@,
            subst_models(ss@),
            type_models(ts),
        ),
{
    if !ctx.has_room(2) {
        return Err(InferError::OutOfIds);
    }
    let ret_type = ctx.fresh_var();
    let call_type = ctx.call(ts, Box::new(copy_type(&ret_type)));
    let s3 = unify(&call_type, lam_t, ctx)?;
    let all = around(s3, ss, s1);
    let s = compose_all(&all);
    let t = ret_type.apply(&s);
    Ok((s, t))
}

fn finish_fix(ctx: &mut Context, s1: Subst, t: &Type) -> (r: Result<(Subst, Type), InferError>)
    ensures
        moved_on(old(ctx)@, final(ctx)@),
        scope_kept(old(ctx)@, final(ctx)@),
        outcome(final(ctx)@, r) == fix_finish(old(ctx)@, s1@, t@),
{
    if !ctx.has_room(2) {
        return Err(InferError::OutOfIds);
    }
    let tv = ctx.fresh_var();
    let lam = ctx.lam(one_type(copy_type(&tv)), Box::new(copy_type(&tv)));
    let s2 = unify(&lam, t, ctx)?;
    let out = tv.apply(&s2);
    Ok((compose_subs(&s2, &s1), out))
}

fn four(s1: Subst, s2: Subst, s3: Subst, s4: Subst) -> (r: Vec<Subst>)
    ensures
        subst_models(r@) == seq![s1@, s2@, s3@, s4@],
{
    let mut v = no_substs();
    push_subst(&mut v, s1);
    push_subst(&mut v, s2);
    push_subst(&mut v, s3);
    push_subst(&mut v, s4);
    assert(subst_models(v@) =~= seq![s1@, s2@, s3@, s4@]);
    v
}

fn finish_op(ctx: &mut Context, op: BinOp, s1: Subst, t1: &Type, s2: Subst, t2: &Type) -> (r:
    Result<(Subst, Type), InferError>)
    ensures
        moved_on(old(ctx)@, final(ctx)@),
        scope_kept(old(ctx)@, final(ctx)@),
        outcome(final(ctx)@, r) == op_finish(old(ctx)@, op, s1@, t1@, s2@, t2@),
{
    let s3 = unify_with_prim(ctx, t1, Primitive::Num)?;
    let s4 = unify_with_prim(ctx, t2, Primitive::Num)?;
    let prim = match op {
        BinOp::Add => Primitive::Num,
        BinOp::Sub => Primitive::Num,
        BinOp::Mul => Primitive::Num,
        BinOp::Div => Primitive::Num,
        _ => Primitive::Bool,
    };
    let t = ctx.make(Variant::Prim(prim))?;
    Ok((compose_all(&four(s1, s2, s3, s4)), t))
}

fn finish_if_else(
    ctx: &mut Context,
    s1: Subst,
    t1: &Type,
    s2: Subst,
    t2: &Type,
    s3: Subst,
    t3: &Type,
) -> (r: Result<(Subst, Type), InferError>)
    ensures
        moved_on(old(ctx)@, final(ctx)@),
        scope_kept(old(ctx)@, final(ctx)@),
        outcome(final(ctx)@, r) == if_else_finish(old(ctx)@, s1@, t1@, s2@, t2@, s3@, t3@),
{
    let s4 = unify_with_prim(ctx, t1, Primitive::Bool)?;
    let t = union_types(t2, t3, ctx)?;
    Ok((compose_all(&four(s1, s2, s3, s4)), t))
}

fn finish_if(ctx: &mut Context, s1: Subst, t1: &Type, s2: Subst, t2: Type) -> (r: Result<
    (Subst, Type),
    InferError,
>)
    ensures
        moved_on(old(ctx)@, final(ctx)@),
        scope_kept(old(ctx)@, final(ctx)@),
        outcome(final(ctx)@, r) == if_finish(old(ctx)@, s1@, t1@, s2@, t2@),
{
    let s3 = unify_with_prim(ctx, t1, Primitive::Bool)?;
    let s4 = unify_with_no_value(ctx, &t2)?;
    Ok((compose_all(&four(s1, s2, s3, s4)), t2))
}

fn finish_if_let_else(ctx: &mut Context, s1: Subst, t1: &Type, s2: Subst, t2: &Type) -> (r: Result<
    (Subst, Type),
    InferError,
>)
    ensures
        moved_on(old(ctx)@, final(ctx)@),
        scope_kept(old(ctx)@, final(ctx)@),
        outcome(final(ctx)@, r) == if_let_else_finish(old(ctx)@, s1@, t1@, s2@, t2@),
{
    let t = union_types(t1, t2, ctx)?;
    let mut v = no_substs();
    push_subst(&mut v, s1);
    push_subst(&mut v, s2);
    assert(subst_models(v@) =~= seq![s1@, s2@]);
    Ok((compose_all(&v), t))
}

fn finish_if_let(ctx: &mut Context, s1: Subst, t1: Type) -> (r: Result<(Subst, Type), InferError>)
    ensures
        moved_on(old(ctx)@, final(ctx)@),
        scope_kept(old(ctx)@, final(ctx)@),
        outcome(final(ctx)@, r) == if_let_finish(old(ctx)@, s1@, t1@),
{
    let s2 = unify_with_no_value(ctx, &t1)?;
    Ok((compose_subs(&s2, &s1), t1))
}

fn finish_await(ctx: &mut Context, s1: Subst, t1: &Type) -> (r: Result<(Subst, Type), InferError>)
    ensures
        moved_on(old(ctx)@, final(ctx)@),
        scope_kept(old(ctx)@, final(ctx)@),
        outcome(final(ctx)@, r) == await_finish(old(ctx)@, s1@, t1@),
{
    if !ctx.has_room(2) {
        return Err(InferError::OutOfIds);
    }
    let wrapped_type = ctx.fresh_var();
    let promise_type = ctx.alias("Promise", Some(one_type(copy_type(&wrapped_type))));
    let s2 = unify(t1, &promise_type, ctx)?;
    Ok((compose_subs(&s2, &s1), wrapped_type))
}

fn finish_obj(ctx: &mut Context, ss: &Vec<Subst>, ps: Vec<TProp>, spreads: Vec<Type>) -> (r: Result<
    (Subst, Type),
    InferError,
>)
    ensures
        moved_on(old(ctx)@, final(ctx)@),
        scope_kept(old(ctx)@, final(ctx)@),
        outcome(final(ctx)@, r) == obj_finish(
            old(ctx)@,
            ObjAcc {
                ss: subst_models(ss@),
                props: prop_models(ps),
                spreads: type_models(spreads),
            },
        ),
{
    let obj = ctx.make(Variant::Object(ps))?;
    let s = compose_all(ss);
    assert(type_models(spreads).len() == spreads.len());
    if spreads.len() == 0 {
        Ok((s, obj))
    } else {
        let mut all_types = spreads;
        push_type(&mut all_types, obj);
        let t = simplify_intersection(&all_types, ctx)?;
        Ok((s, t))
    }
}

fn finish_member(ctx: &mut Context, s: Subst, t: &Type, prop: &String) -> (r: Result<
    (Subst, Type),
    InferError,
>)
    ensures
        moved_on(old(ctx)@, final(ctx)@),
        scope_kept(old(ctx)@, final(ctx)@),
        outcome(final(ctx)@, r) == member_finish(old(ctx)@, s@, t@, prop@),
{
    let prop_t = infer_property_type(t, prop, ctx, MAX_DEPTH)?;
    let out = unwrap_member_type(&prop_t, ctx)?;
    Ok((s, out))
}

fn finish_component(ctx: &mut Context, ct: &Type, ss: &Vec<Subst>, props: Vec<TProp>) -> (r: Result<
    (Subst, Type),
    InferError,
>)
    ensures
        moved_on(old(ctx)@, final(ctx)@),
        scope_kept(old(ctx)@, final(ctx)@),
        outcome(final(ctx)@, r) == component_finish(
            old(ctx)@,
            ct@,
            subst_models(ss@),
            prop_models(props),
        ),
{
    if !ctx.has_room(3) {
        return Err(InferError::OutOfIds);
    }
    let ret_type = ctx.alias("JSXElement", None);
    let obj = ctx.object(props);
    let call_type = ctx.call(one_type(obj), Box::new(copy_type(&ret_type)));
    let s1 = compose_all(ss);
    let s2 = unify(&call_type, ct, ctx)?;
    Ok((compose_subs(&s2, &s1), ret_type))
}

fn component(ctx: &mut Context, name: &String) -> (r: Result<Type, InferError>)
    ensures
        moved_on(old(ctx)@, final(ctx)@),
        scope_kept(old(ctx)@, final(ctx)@),
        outcome(final(ctx)@, r) == component_spec(old(ctx)@, name@),
{
    let scheme = match ctx.values.get(name.as_str()) {
        Some(sc) => sc.clone(),
        None => {
            return Err(InferError::ComponentNotInScope(name.clone()));
        },
    };
    if !ctx.has_room(scheme.qualifiers.len()) {
        return Err(InferError::OutOfIds);
    }
    let ct = ctx.instantiate(&scheme);
    match &ct.variant {
        Variant::Lam(_) => Ok(ct),
        _ => Err(InferError::ComponentNotFunction),
    }
}

fn finish_lambda(
    ctx: &mut Context,
    is_async: bool,
    return_type: &Option<TypeAnn>,
    tpm: &Env,
    ss: &Vec<Subst>,
    ts: Vec<Type>,
    rs: Subst,
    rt: Type,
) -> (r: Result<(Subst, Type), InferError>)
    ensures
        moved_on(old(ctx)@, final(ctx)@),
        scope_kept(old(ctx)@, final(ctx)@),
        outcome(final(ctx)@, r) == lambda_finish(
            old(ctx)@,
            is_async,
            *return_type,
            tpm@,
            subst_models(ss@),
            type_models(ts),
            rs@,
            rt@,
        ),
{
    let ret = if is_async && !is_promise(&rt) {
        ctx.make(
            Variant::Alias(
                AliasType { name: String::from_str("Promise"), type_params: Some(one_type(rt)) },
            ),
        )?
    } else {
        rt
    };
    let s = match return_type {
        Some(ann) => {
            let at = infer_type_ann_with_params(ann, ctx, tpm)?;
            unify(&ret, &at, ctx)?
        },
        None => Subst::new(),
    };
    let ghost ret_model = ret@;
    let t = ctx.make(Variant::Lam(LamType { params: ts, ret: Box::new(ret), is_call: false }))?;
    let all = compose_subs(&s, &compose_subs(&rs, &compose_all(ss)));
    let out = t.apply(&all);
    Ok((all, out))
}

/// An error among the first `n` type parameters is the error of every
/// longer run.
pub proof fn lemma_type_params_err(ctx: ContextModel, names: Vec<String>, n: nat, m: nat)
    requires
        n <= m <= names.len(),
        type_params_spec(ctx, names, n).res is Err,
    ensures
        type_params_spec(ctx, names, m) == type_params_spec(ctx, names, n),
    decreases m,
{
    if n < m {
        lemma_type_params_err(ctx, names, n, (m - 1) as nat);
    }
}

/// An error among the first `n` parameters is the error of every longer
/// run.
pub proof fn lemma_lambda_params_err(
    ctx: ContextModel,
    params: Vec<Pattern>,
    n: nat,
    m: nat,
    tpm: Map<Seq<char>, SchemeModel>,
)
    requires
        n <= m <= params.len(),
        lambda_params_spec(ctx, params, n, tpm).res is Err,
    ensures
        lambda_params_spec(ctx, params, m, tpm) == lambda_params_spec(ctx, params, n, tpm),
    decreases m,
{
    if n < m {
        lemma_lambda_params_err(ctx, params, n, (m - 1) as nat, tpm);
    }
}

/// An error among the first `n` elements is the error of every longer run.
pub proof fn lemma_infer_elems_err(ctx: ContextModel, elems: Vec<Expr>, n: nat, m: nat)
    requires
        n <= m <= elems.len(),
        infer_elems(ctx, elems, n).res is Err,
    ensures
        infer_elems(ctx, elems, m) == infer_elems(ctx, elems, n),
    decreases m,
{
    if n < m {
        lemma_infer_elems_err(ctx, elems, n, (m - 1) as nat);
    }
}

/// An error among the first `n` entries is the error of every longer run.
pub proof fn lemma_infer_obj_props_err(ctx: ContextModel, props: Vec<PropOrSpread>, n: nat, m: nat)
    requires
        n <= m <= props.len(),
        infer_obj_props(ctx, props, n).res is Err,
    ensures
        infer_obj_props(ctx, props, m) == infer_obj_props(ctx, props, n),
    decreases m,
{
    if n < m {
        lemma_infer_obj_props_err(ctx, props, n, (m - 1) as nat);
    }
}

/// An error among the first `n` attributes is the error of every longer
/// run.
pub proof fn lemma_infer_attrs_err(ctx: ContextModel, attrs: Vec<JSXAttr>, n: nat, m: nat)
    requires
        n <= m <= attrs.len(),
        infer_attrs(ctx, attrs, n).res is Err,
    ensures
        infer_attrs(ctx, attrs, m) == infer_attrs(ctx, attrs, n),
    decreases m,
{
    if n < m {
        lemma_infer_attrs_err(ctx, attrs, n, (m - 1) as nat);
    }
}

fn bind_type_params(names: &Option<Vec<String>>, ctx: &mut Context) -> (r: Result<Env, InferError>)
    ensures
        moved_on(old(ctx)@, final(ctx)@),
        scope_kept(old(ctx)@, final(ctx)@),
        outcome(final(ctx)@, r) == type_params_of(old(ctx)@, *names),
{
    let mut out = Env::new();
    match names {
        None => Ok(out),
        Some(v) => {
            let mut i: usize = 0;
            while i < v.len()
                invariant
                    moved_on(old(ctx)@, ctx@),
                    scope_kept(old(ctx)@, ctx@),
                    i <= v.len(),
                    *names == Some(*v),
                    type_params_spec(old(ctx)@, *v, i as nat) == done(ctx@, out@),
                decreases v.len() - i,
            {
                if !ctx.has_room(1) {
                    proof {
                        lemma_type_params_err(old(ctx)@, *v, (i + 1) as nat, v.len() as nat);
                    }
                    return Err(InferError::OutOfIds);
                }
                let tv = ctx.fresh_var();
                out.insert(v[i].clone(), Scheme::from_type(tv));
                i += 1;
            }
            Ok(out)
        },
    }
}

fn infer_params(params: &Vec<Pattern>, ctx: &mut Context, tpm: &Env) -> (r: Result<
    (Vec<Subst>, Vec<Type>),
    InferError,
>)
    ensures
        moved_on(old(ctx)@, final(ctx)@),
        final(ctx)@ == lambda_params_spec(old(ctx)@, *params, params.len() as nat, tpm@).ctx,
        match r {
            Ok(v) => lambda_params_spec(old(ctx)@, *params, params.len() as nat, tpm@).res == Ok::<
                (Seq<Map<int, Ty>>, Seq<Ty>),
                ErrorModel,
            >((subst_models(v.0@), type_models(v.1))),
            Err(e) => lambda_params_spec(old(ctx)@, *params, params.len() as nat, tpm@).res
                == Err::<(Seq<Map<int, Ty>>, Seq<Ty>), ErrorModel>(e@),
        },
{
    let mut ss = no_substs();
    let mut ts = no_types();
    let mut i: usize = 0;
    while i < params.len()
        invariant
            moved_on(old(ctx)@, ctx@),
            i <= params.len(),
            lambda_params_spec(old(ctx)@, *params, i as nat, tpm@) == done(
                ctx@,
                (subst_models(ss@), type_models(ts)),
            ),
        decreases params.len() - i,
    {
        match infer_pattern(&params[i], ctx, tpm) {
            Err(e) => {
                proof {
                    lemma_lambda_params_err(
                        old(ctx)@,
                        *params,
                        (i + 1) as nat,
                        params.len() as nat,
                        tpm@,
                    );
                }
                return Err(e);
            },
            Ok((ps, pa, pt)) => {
                ctx.values.extend(&pa);
                push_subst(&mut ss, ps);
                push_type(&mut ts, pt);
            },
        }
        i += 1;
    }
    Ok((ss, ts))
}

fn restore(ctx: &mut Context, values: Env, is_async: bool)
    ensures
        final(ctx)@ == (ContextModel { values: values@, is_async, ..old(ctx)@ }),
{
    ctx.values = values;
    ctx.is_async = is_async;
}

/// The substitution and the type of the expression `expr`. The
/// substitution is applied to every value in scope.
///
/// Unification, simplification and the resolution of named types follow
/// nesting to a bound, beyond which they give the error `TooDeep`.
pub fn infer(ctx: &mut Context, expr: &Expr) -> (r: Result<(Subst, Type), InferError>)
    ensures
        moved_on(old(ctx)@, final(ctx)@),
        steady(old(ctx)@, final(ctx)@),
        outcome(final(ctx)@, r) == infer_spec(old(ctx)@, *expr),
    decreases expr, 5nat,
{
    let (s, t) = infer_inner(ctx, expr)?;
    let values = ctx.values.apply(&s);
    proof {
        if all_closed(old(ctx)@.values) {
            lemma_apply_env_closed(ctx@.values, s@);
        }
    }
    ctx.values = values;
    Ok((s, t))
}

fn infer_pattern_and_init(pat: &Pattern, init: &Expr, ctx: &mut Context, pu: PatternUsage) -> (r:
    Result<(Env, Subst), InferError>)
    ensures
        moved_on(old(ctx)@, final(ctx)@),
        steady(old(ctx)@, final(ctx)@),
        outcome(final(ctx)@, r) == pattern_and_init_spec(old(ctx)@, *pat, *init, pu),
    decreases init, 6nat,
{
    let none = Env::new();
    let (ps, pa, pt) = infer_pattern(pat, ctx, &none)?;
    let (is, it) = infer(ctx, init)?;
    let s = match pu {
        PatternUsage::Assign => unify(&it, &pt, ctx)?,
        PatternUsage::Match => unify(&pt, &it, ctx)?,
    };
    let mut v = no_substs();
    push_subst(&mut v, is);
    push_subst(&mut v, ps);
    push_subst(&mut v, s);
    assert(subst_models(v@) =~= seq![is@, ps@, s@]);
    let all = compose_all(&v);
    let bound = pa.apply(&all);
    Ok((bound, all))
}

fn infer_let(
    pat: &Pattern,
    init: &Expr,
    body: &Expr,
    ctx: &mut Context,
    pu: PatternUsage,
    Ghost(outer): Ghost<Expr>,
) -> (r: Result<(Subst, Type), InferError>)
    requires
        decreases_to!(outer => *init),
        decreases_to!(outer => *body),
    ensures
        moved_on(old(ctx)@, final(ctx)@),
        steady(old(ctx)@, final(ctx)@),
        outcome(final(ctx)@, r) == let_spec(old(ctx)@, *pat, *init, *body, pu),
    decreases outer, 2nat,
{
    let saved = ctx.values.clone();
    let saved_async = ctx.is_async;
    match infer_pattern_and_init(pat, init, ctx, pu) {
        Err(e) => {
            restore(ctx, saved, saved_async);
            Err(e)
        },
        Ok((pa, s1)) => {
            ctx.values.extend(&pa);
            let b = infer(ctx, body);
            restore(ctx, saved, saved_async);
            match b {
                Err(e) => Err(e),
                Ok((s2, t2)) => Ok((compose_subs(&s2, &s1), t2)),
            }
        },
    }
}

fn infer_call_args(args: &Vec<Expr>, ctx: &mut Context) -> (r: (Vec<Subst>, Vec<Type>))
    ensures
        moved_on(old(ctx)@, final(ctx)@),
        steady(old(ctx)@, final(ctx)@),
        infer_args(old(ctx)@, *args, args.len() as nat) == (ArgsAcc {
            ctx: final(ctx)@,
            ss: subst_models(r.0@),
            ts: type_models(r.1),
        }),
    decreases args, 0nat,
{
    let mut ss = no_substs();
    let mut ts = no_types();
    let mut i: usize = 0;
    while i < args.len()
        invariant
            moved_on(old(ctx)@, ctx@),
            steady(old(ctx)@, ctx@),
            i <= args.len(),
            infer_args(old(ctx)@, *args, i as nat) == (ArgsAcc {
                ctx: ctx@,
                ss: subst_models(ss@),
                ts: type_models(ts),
            }),
        decreases args.len() - i,
    {
        match infer(ctx, &args[i]) {
            Ok((s, t)) => {
                push_subst(&mut ss, s);
                push_type(&mut ts, t);
            },
            Err(_) => {},
        }
        i += 1;
    }
    (ss, ts)
}

fn infer_tuple_elems(elems: &Vec<Expr>, ctx: &mut Context) -> (r: Result<
    (Vec<Subst>, Vec<Type>),
    InferError,
>)
    ensures
        moved_on(old(ctx)@, final(ctx)@),
        steady(old(ctx)@, final(ctx)@),
        final(ctx)@ == infer_elems(old(ctx)@, *elems, elems.len() as nat).ctx,
        match r {
            Ok(v) => infer_elems(old(ctx)@, *elems, elems.len() as nat).res == Ok::<
                (Seq<Map<int, Ty>>, Seq<Ty>),
                ErrorModel,
            >((subst_models(v.0@), type_models(v.1))),
            Err(e) => infer_elems(old(ctx)@, *elems, elems.len() as nat).res == Err::<
                (Seq<Map<int, Ty>>, Seq<Ty>),
                ErrorModel,
            >(e@),
        },
    decreases elems, 0nat,
{
    let mut ss = no_substs();
    let mut ts = no_types();
    let mut i: usize = 0;
    while i < elems.len()
        invariant
            moved_on(old(ctx)@, ctx@),
            steady(old(ctx)@, ctx@),
            i <= elems.len(),
            infer_elems(old(ctx)@, *elems, i as nat) == done(
                ctx@,
                (subst_models(ss@), type_models(ts)),
            ),
        decreases elems.len() - i,
    {
        match infer(ctx, &elems[i]) {
            Ok((s, t)) => {
                push_subst(&mut ss, s);
                push_type(&mut ts, t);
            },
            Err(e) => {
                proof {
                    lemma_infer_elems_err(old(ctx)@, *elems, (i + 1) as nat, elems.len() as nat);
                }
                return Err(e);
            },
        }
        i += 1;
    }
    Ok((ss, ts))
}

fn infer_entries(props: &Vec<PropOrSpread>, ctx: &mut Context) -> (r: Result<
    (Vec<Subst>, Vec<TProp>, Vec<Type>),
    InferError,
>)
    ensures
        moved_on(old(ctx)@, final(ctx)@),
        steady(old(ctx)@, final(ctx)@),
        final(ctx)@ == infer_obj_props(old(ctx)@, *props, props.len() as nat).ctx,
        match r {
            Ok(v) => infer_obj_props(old(ctx)@, *props, props.len() as nat).res == Ok::<
                ObjAcc,
                ErrorModel,
            >(
                ObjAcc {
                    ss: subst_models(v.0@),
                    props: prop_models(v.1),
                    spreads: type_models(v.2),
                },
            ),
            Err(e) => infer_obj_props(old(ctx)@, *props, props.len() as nat).res == Err::<
                ObjAcc,
                ErrorModel,
            >(e@),
        },
    decreases props, 0nat,
{
    let mut ss = no_substs();
    let mut ps = no_props();
    let mut spreads = no_types();
    let mut i: usize = 0;
    while i < props.len()
        invariant
            moved_on(old(ctx)@, ctx@),
            steady(old(ctx)@, ctx@),
            i <= props.len(),
            infer_obj_props(old(ctx)@, *props, i as nat) == done(
                ctx@,
                ObjAcc {
                    ss: subst_models(ss@),
                    props: prop_models(ps),
                    spreads: type_models(spreads),
                },
            ),
        decreases props.len() - i,
    {
        let step: Result<(), InferError> = match &props[i] {
            PropOrSpread::Shorthand { name } => match ctx.lookup_value(name.as_str()) {
                Ok(t) => {
                    push_prop(&mut ps, TProp { name: name.clone(), optional: false, ty: t });
                    Ok(())
                },
                Err(e) => Err(e),
            },
            PropOrSpread::KeyValue { name, value } => match infer(ctx, value) {
                Ok((s, t)) => {
                    push_subst(&mut ss, s);
                    push_prop(&mut ps, TProp { name: name.clone(), optional: false, ty: t });
                    Ok(())
                },
                Err(e) => Err(e),
            },
            PropOrSpread::Spread { expr } => match infer(ctx, expr) {
                Ok((s, t)) => {
                    push_subst(&mut ss, s);
                    push_type(&mut spreads, t);
                    Ok(())
                },
                Err(e) => Err(e),
            },
        };
        match step {
            Ok(_) => {},
            Err(e) => {
                proof {
                    lemma_infer_obj_props_err(
                        old(ctx)@,
                        *props,
                        (i + 1) as nat,
                        props.len() as nat,
                    );
                }
                return Err(e);
            },
        }
        i += 1;
    }
    Ok((ss, ps, spreads))
}

fn infer_attributes(attrs: &Vec<JSXAttr>, ctx: &mut Context) -> (r: Result<
    (Vec<Subst>, Vec<TProp>),
    InferError,
>)
    ensures
        moved_on(old(ctx)@, final(ctx)@),
        steady(old(ctx)@, final(ctx)@),
        final(ctx)@ == infer_attrs(old(ctx)@, *attrs, attrs.len() as nat).ctx,
        match r {
            Ok(v) => infer_attrs(old(ctx)@, *attrs, attrs.len() as nat).res == Ok::<
                (Seq<Map<int, Ty>>, Seq<Prop>),
                ErrorModel,
            >((subst_models(v.0@), prop_models(v.1))),
            Err(e) => infer_attrs(old(ctx)@, *attrs, attrs.len() as nat).res == Err::<
                (Seq<Map<int, Ty>>, Seq<Prop>),
                ErrorModel,
            >(e@),
        },
    decreases attrs, 0nat,
{
    let mut ss = no_substs();
    let mut ps = no_props();
    let mut i: usize = 0;
    while i < attrs.len()
        invariant
            moved_on(old(ctx)@, ctx@),
            steady(old(ctx)@, ctx@),
            i <= attrs.len(),
            infer_attrs(old(ctx)@, *attrs, i as nat) == done(
                ctx@,
                (subst_models(ss@), prop_models(ps)),
            ),
        decreases attrs.len() - i,
    {
        let attr = &attrs[i];
        let step = match &attr.value {
            JSXAttrValue::Lit(lit) => match ctx.make(Variant::Lit(lit.to_type())) {
                Ok(t) => Ok((Subst::new(), t)),
                Err(e) => Err(e),
            },
            JSXAttrValue::Expr(expr) => infer(ctx, expr),
        };
        match step {
            Ok((s, t)) => {
                push_subst(&mut ss, s);
                push_prop(&mut ps, TProp { name: attr.ident.clone(), optional: false, ty: t });
            },
            Err(e) => {
                proof {
                    lemma_infer_attrs_err(old(ctx)@, *attrs, (i + 1) as nat, attrs.len() as nat);
                }
                return Err(e);
            },
        }
        i += 1;
    }
    Ok((ss, ps))
}

fn infer_app(ctx: &mut Context, expr: &Expr) -> (r: Result<(Subst, Type), InferError>)
    requires
        expr is App,
    ensures
        moved_on(old(ctx)@, final(ctx)@),
        steady(old(ctx)@, final(ctx)@),
        outcome(final(ctx)@, r) == infer_form(old(ctx)@, *expr),
    decreases expr, 3nat,
{
    match expr {
        Expr::App { lam, args } => {
            let (s1, lam_type) = infer(ctx, lam)?;
            let (args_ss, args_ts) = infer_call_args(args, ctx);
            finish_app(ctx, s1, &lam_type, &args_ss, args_ts)
        },
        _ => Err(InferError::Unsupported),
    }
}

fn infer_fix(ctx: &mut Context, expr: &Expr) -> (r: Result<(Subst, Type), InferError>)
    requires
        expr is Fix,
    ensures
        moved_on(old(ctx)@, final(ctx)@),
        steady(old(ctx)@, final(ctx)@),
        outcome(final(ctx)@, r) == infer_form(old(ctx)@, *expr),
    decreases expr, 3nat,
{
    match expr {
        Expr::Fix { expr: inner } => {
            let (s1, t) = infer(ctx, inner)?;
            finish_fix(ctx, s1, &t)
        },
        _ => Err(InferError::Unsupported),
    }
}

fn infer_if_let(ctx: &mut Context, expr: &Expr) -> (r: Result<(Subst, Type), InferError>)
    requires
        expr is IfElse,
        *expr->IfElse_cond is LetExpr,
    ensures
        moved_on(old(ctx)@, final(ctx)@),
        steady(old(ctx)@, final(ctx)@),
        outcome(final(ctx)@, r) == infer_form(old(ctx)@, *expr),
    decreases expr, 3nat,
{
    match expr {
        Expr::IfElse { cond, consequent, alternate } => {
            match &**cond {
                Expr::LetExpr { pat, expr: init } => {
                    let (s1, t1) = infer_let(
                        pat,
                        init,
                        consequent,
                        ctx,
                        PatternUsage::Match,
                        Ghost(*expr),
                    )?;
                    match alternate {
                        Some(alt) => {
                            let (s2, t2) = infer(ctx, alt)?;
                            finish_if_let_else(ctx, s1, &t1, s2, &t2)
                        },
                        None => finish_if_let(ctx, s1, t1),
                    }
                },
                _ => Err(InferError::Unsupported),
            }
        },
        _ => Err(InferError::Unsupported),
    }
}

fn infer_if(ctx: &mut Context, expr: &Expr) -> (r: Result<(Subst, Type), InferError>)
    requires
        expr is IfElse,
        !(*expr->IfElse_cond is LetExpr),
    ensures
        moved_on(old(ctx)@, final(ctx)@),
        steady(old(ctx)@, final(ctx)@),
        outcome(final(ctx)@, r) == infer_form(old(ctx)@, *expr),
    decreases expr, 3nat,
{
    match expr {
        Expr::IfElse { cond, consequent, alternate } => {
            let (s1, t1) = infer(ctx, cond)?;
            let (s2, t2) = infer(ctx, consequent)?;
            match alternate {
                Some(alt) => {
                    let (s3, t3) = infer(ctx, alt)?;
                    finish_if_else(ctx, s1, &t1, s2, &t2, s3, &t3)
                },
                None => finish_if(ctx, s1, &t1, s2, t2),
            }
        },
        _ => Err(InferError::Unsupported),
    }
}

/// What the element `expr` gives, where `upper` says whether its name
/// begins with an uppercase letter.
pub fn infer_element(ctx: &mut Context, expr: &Expr, upper: bool) -> (r: Result<
    (Subst, Type),
    InferError,
>)
    ensures
        moved_on(old(ctx)@, final(ctx)@),
        steady(old(ctx)@, final(ctx)@),
        outcome(final(ctx)@, r) == element_form(old(ctx)@, *expr, upper),
    decreases expr, 2nat,
{
    match expr {
        Expr::JSXElement { name, attrs } => {
            if upper {
                let ct = component(ctx, name)?;
                let (ss, props) = infer_attributes(attrs, ctx)?;
                finish_component(ctx, &ct, &ss, props)
            } else {
                let t = ctx.make(
                    Variant::Alias(
                        AliasType { name: String::from_str("JSXElement"), type_params: None },
                    ),
                )?;
                Ok((Subst::new(), t))
            }
        },
        _ => Err(InferError::Unsupported),
    }
}

fn infer_jsx(ctx: &mut Context, expr: &Expr) -> (r: Result<(Subst, Type), InferError>)
    requires
        expr is JSXElement,
    ensures
        moved_on(old(ctx)@, final(ctx)@),
        steady(old(ctx)@, final(ctx)@),
        outcome(final(ctx)@, r) == infer_form(old(ctx)@, *expr),
    decreases expr, 3nat,
{
    match expr {
        Expr::JSXElement { name, .. } => {
            if name.as_str().unicode_len() == 0 {
                return Err(InferError::Unsupported);
            }
            let first = name.as_str().get_char(0);
            infer_element(ctx, expr, is_uppercase(first))
        },
        _ => Err(InferError::Unsupported),
    }
}

fn infer_lambda(ctx: &mut Context, expr: &Expr) -> (r: Result<(Subst, Type), InferError>)
    requires
        expr is Lambda,
    ensures
        moved_on(old(ctx)@, final(ctx)@),
        steady(old(ctx)@, final(ctx)@),
        outcome(final(ctx)@, r) == infer_form(old(ctx)@, *expr),
    decreases expr, 3nat,
{
    match expr {
        Expr::Lambda { params, body, is_async, return_type, type_params } => {
            let saved = ctx.values.clone();
            let saved_async = ctx.is_async;
            ctx.is_async = *is_async;
            let tpm = match bind_type_params(type_params, ctx) {
                Ok(m) => m,
                Err(e) => {
                    restore(ctx, saved, saved_async);
                    return Err(e);
                },
            };
            let (ss, ts) = match infer_params(params, ctx, &tpm) {
                Ok(v) => v,
                Err(e) => {
                    restore(ctx, saved, saved_async);
                    return Err(e);
                },
            };
            let b = infer(ctx, body);
            restore(ctx, saved, saved_async);
            match b {
                Err(e) => Err(e),
                Ok((rs, rt)) => finish_lambda(ctx, *is_async, return_type, &tpm, &ss, ts, rs, rt),
            }
        },
        _ => Err(InferError::Unsupported),
    }
}

fn infer_let_form(ctx: &mut Context, expr: &Expr) -> (r: Result<(Subst, Type), InferError>)
    requires
        expr is Let,
    ensures
        moved_on(old(ctx)@, final(ctx)@),
        steady(old(ctx)@, final(ctx)@),
        outcome(final(ctx)@, r) == infer_form(old(ctx)@, *expr),
    decreases expr, 3nat,
{
    match expr {
        Expr::Let { pattern, init, body } => match pattern {
            Some(pat) => infer_let(pat, init, body, ctx, PatternUsage::Assign, Ghost(*expr)),
            None => infer(ctx, body),
        },
        _ => Err(InferError::Unsupported),
    }
}

fn infer_op(ctx: &mut Context, expr: &Expr) -> (r: Result<(Subst, Type), InferError>)
    requires
        expr is Op,
    ensures
        moved_on(old(ctx)@, final(ctx)@),
        steady(old(ctx)@, final(ctx)@),
        outcome(final(ctx)@, r) == infer_form(old(ctx)@, *expr),
    decreases expr, 3nat,
{
    match expr {
        Expr::Op { op, left, right } => {
            let (s1, t1) = infer(ctx, left)?;
            let (s2, t2) = infer(ctx, right)?;
            finish_op(ctx, *op, s1, &t1, s2, &t2)
        },
        _ => Err(InferError::Unsupported),
    }
}

fn infer_obj(ctx: &mut Context, expr: &Expr) -> (r: Result<(Subst, Type), InferError>)
    requires
        expr is Obj,
    ensures
        moved_on(old(ctx)@, final(ctx)@),
        steady(old(ctx)@, final(ctx)@),
        outcome(final(ctx)@, r) == infer_form(old(ctx)@, *expr),
    decreases expr, 3nat,
{
    match expr {
        Expr::Obj { props } => {
            let (ss, ps, spreads) = infer_entries(props, ctx)?;
            finish_obj(ctx, &ss, ps, spreads)
        },
        _ => Err(InferError::Unsupported),
    }
}

fn infer_await(ctx: &mut Context, expr: &Expr) -> (r: Result<(Subst, Type), InferError>)
    requires
        expr is Await,
    ensures
        moved_on(old(ctx)@, final(ctx)@),
        steady(old(ctx)@, final(ctx)@),
        outcome(final(ctx)@, r) == infer_form(old(ctx)@, *expr),
    decreases expr, 3nat,
{
    match expr {
        Expr::Await { expr: inner } => {
            if !ctx.is_async {
                return Err(InferError::AwaitOutsideAsync);
            }
            let (s1, t1) = infer(ctx, inner)?;
            finish_await(ctx, s1, &t1)
        },
        _ => Err(InferError::Unsupported),
    }
}

fn infer_tuple(ctx: &mut Context, expr: &Expr) -> (r: Result<(Subst, Type), InferError>)
    requires
        expr is Tuple,
    ensures
        moved_on(old(ctx)@, final(ctx)@),
        steady(old(ctx)@, final(ctx)@),
        outcome(final(ctx)@, r) == infer_form(old(ctx)@, *expr),
    decreases expr, 3nat,
{
    match expr {
        Expr::Tuple { elems } => {
            let (ss, ts) = infer_tuple_elems(elems, ctx)?;
            let t = ctx.make(Variant::Tuple(ts))?;
            Ok((compose_all(&ss), t))
        },
        _ => Err(InferError::Unsupported),
    }
}

fn infer_member(ctx: &mut Context, expr: &Expr) -> (r: Result<(Subst, Type), InferError>)
    requires
        expr is Member,
    ensures
        moved_on(old(ctx)@, final(ctx)@),
        steady(old(ctx)@, final(ctx)@),
        outcome(final(ctx)@, r) == infer_form(old(ctx)@, *expr),
    decreases expr, 3nat,
{
    match expr {
        Expr::Member { obj, prop } => {
            let (s, t) = infer(ctx, obj)?;
            finish_member(ctx, s, &t, prop)
        },
        _ => Err(InferError::Unsupported),
    }
}

fn infer_inner(ctx: &mut Context, expr: &Expr) -> (r: Result<(Subst, Type), InferError>)
    ensures
        moved_on(old(ctx)@, final(ctx)@),
        steady(old(ctx)@, final(ctx)@),
        outcome(final(ctx)@, r) == infer_form(old(ctx)@, *expr),
    decreases expr, 4nat,
{
    match expr {
        Expr::App { .. } => infer_app(ctx, expr),
        Expr::Fix { .. } => infer_fix(ctx, expr),
        Expr::Ident { name } => {
            let t = ctx.lookup_value(name.as_str())?;
            Ok((Subst::new(), t))
        },
        Expr::IfElse { cond, .. } => {
            let binds = match &**cond {
                Expr::LetExpr { .. } => true,
                _ => false,
            };
            if binds {
                infer_if_let(ctx, expr)
            } else {
                infer_if(ctx, expr)
            }
        },
        Expr::JSXElement { .. } => infer_jsx(ctx, expr),
        Expr::Lambda { .. } => infer_lambda(ctx, expr),
        Expr::Let { .. } => infer_let_form(ctx, expr),
        Expr::LetExpr { .. } => Err(InferError::Unsupported),
        Expr::Lit(lit) => {
            let t = ctx.make(Variant::Lit(lit.to_type()))?;
            Ok((Subst::new(), t))
        },
        Expr::Op { .. } => infer_op(ctx, expr),
        Expr::Obj { .. } => infer_obj(ctx, expr),
        Expr::Await { .. } => infer_await(ctx, expr),
        Expr::Tuple { .. } => infer_tuple(ctx, expr),
        Expr::Member { .. } => infer_member(ctx, expr),
        Expr::Empty => {
            let t = ctx.make(Variant::Prim(Primitive::Undefined))?;
            Ok((Subst::new(), t))
        },
    }
}

/// The scheme of an expression that gave `(s, t)`: `t` with `s` applied,
/// quantified over all its variables and normalized.
pub open spec fn close_over_spec(s: Map<int, Ty>, t: Ty, count: int) -> Result<
    SchemeModel,
    ErrorModel,
> {
    normalized(generalize_spec(Map::empty(), apply(t, s)), count)
}

/// The scheme of the expression `e`, and the context after inferring it.
pub open spec fn infer_expr_spec(ctx: ContextModel, e: Expr) -> Outcome<SchemeModel> {
    let r = infer_spec(ctx, e);
    match r.res {
        Err(e) => failed(r.ctx, e),
        Ok((s, t)) => Outcome { ctx: r.ctx, res: close_over_spec(s, t, r.ctx.count) },
    }
}

fn close_over(s: &Subst, t: &Type, ctx: &Context) -> (r: Result<Scheme, InferError>)
    ensures
        crate::error::result_model(r) == close_over_spec(s@, t@, ctx@.count),
{
    let empty_env = Env::new();
    normalize(&generalize(&empty_env, &t.apply(s)), ctx)
}

/// The scheme of the expression `expr`: its type, generalized over all its
/// variables and normalized.
///
/// Unification, simplification and the resolution of named types follow
/// nesting to a bound, beyond which they give the error `TooDeep`;
/// normalization makes a bounded number of rounds, after which it gives the
/// error `NoNormalForm`.
pub fn infer_expr(ctx: &mut Context, expr: &Expr) -> (r: Result<Scheme, InferError>)
    ensures
        moved_on(old(ctx)@, final(ctx)@),
        steady(old(ctx)@, final(ctx)@),
        outcome(final(ctx)@, r) == infer_expr_spec(old(ctx)@, *expr),
{
    let (s, t) = infer(ctx, expr)?;
    close_over(&s, &t, ctx)
}

/// The scheme of a built-in type that stands for a class: an object type
/// whose one property, `_name`, is the literal `name`.
pub open spec fn class_scheme(name: Seq<char>, count: int) -> SchemeModel {
    SchemeModel {
        qualifiers: Seq::empty(),
        ty: fresh_type(
            Kind::Object(
                seq![
                    Prop {
                        name: "_name"@,
                        optional: false,
                        ty: fresh_type(Kind::Lit(crate::types::LitModel::Str(name)), count + 1),
                    },
                ],
            ),
            count + 2,
        ),
    }
}

/// The context in which a program starts: no value in scope, and the two
/// built-in named types, that of deferred computations and that of
/// elements.
pub open spec fn initial_context() -> ContextModel {
    ContextModel {
        values: Map::empty(),
        types: Map::empty().insert("Promise"@, class_scheme("Promise"@, 0)).insert(
            "JSXElement"@,
            class_scheme("JSXElement"@, 2),
        ),
        count: 4,
        is_async: false,
    }
}

/// A scheme with its type frozen.
pub open spec fn frozen_scheme(sc: SchemeModel) -> SchemeModel {
    SchemeModel { qualifiers: sc.qualifiers, ty: with_frozen(sc.ty, true) }
}

/// The scheme that a top-level binding ends up with: `s` applied,
/// normalized.
pub open spec fn final_scheme(sc: SchemeModel, s: Map<int, Ty>, count: int) -> Result<
    SchemeModel,
    ErrorModel,
> {
    normalized(apply_scheme(sc, s), count)
}

/// Whether one of the bindings cannot be normalized.
pub open spec fn bindings_fail(pa: Map<Seq<char>, SchemeModel>, s: Map<int, Ty>, count: int) -> bool {
    exists|name: Seq<char>| #[trigger] pa.contains_key(name) && final_scheme(pa[name], s, count) is Err
}

/// The bindings as they enter the scope of the program: normalized and
/// frozen.
pub open spec fn final_bindings(pa: Map<Seq<char>, SchemeModel>, s: Map<int, Ty>, count: int) -> Map<
    Seq<char>,
    SchemeModel,
> {
    Map::new(
        |name: Seq<char>| pa.contains_key(name),
        |name: Seq<char>| frozen_scheme(final_scheme(pa[name], s, count)->Ok_0),
    )
}

/// The ids of `k` type parameters made one after the other from `count + 1`
/// on.
pub open spec fn param_ids(count: int, k: nat) -> Seq<int> {
    Seq::new(k, |i: int| count + 1 + i)
}

/// The number of type parameters.
pub open spec fn param_count(names: Option<Vec<String>>) -> nat {
    match names {
        Some(v) => v.len() as nat,
        None => 0,
    }
}

/// What a statement does to the context.
///
/// A `declare` statement binds a name to the type written for it. Every
/// other declaration of values infers its pattern and initial value, and
/// binds each name of the pattern to its scheme, normalized and frozen. The
/// declaration of a type binds its name to the type written, quantified
/// over its parameters. An expression is inferred and its scheme dropped.
pub open spec fn statement_spec(ctx: ContextModel, stmt: Statement) -> Outcome<()> {
    match stmt {
        Statement::VarDecl { pattern, init, declare } => if declare {
            match pattern {
                Pattern::Ident { name, type_ann } => match type_ann {
                    Some(ann) => {
                        let a = ann_spec(ctx, ann, Map::empty());
                        match a.res {
                            Err(e) => failed(a.ctx, e),
                            Ok(t) => done(
                                a.ctx.with_values(
                                    a.ctx.values.insert(
                                        name@,
                                        frozen_scheme(
                                            SchemeModel { qualifiers: Seq::empty(), ty: t },
                                        ),
                                    ),
                                ),
                                (),
                            ),
                        }
                    },
                    None => failed(ctx, ErrorModel::MissingTypeAnnotation),
                },
                _ => failed(ctx, ErrorModel::Unsupported),
            }
        } else {
            match init {
                None => failed(ctx, ErrorModel::MissingInitializer),
                Some(value) => {
                    let pi = pattern_and_init_spec(ctx, pattern, value, PatternUsage::Assign);
                    match pi.res {
                        Err(e) => failed(pi.ctx, e),
                        Ok((pa, s)) => if bindings_fail(pa, s, pi.ctx.count) {
                            failed(pi.ctx, ErrorModel::OutOfIds)
                        } else {
                            done(
                                pi.ctx.with_values(
                                    pi.ctx.values.union_prefer_right(
                                        final_bindings(pa, s, pi.ctx.count),
                                    ),
                                ),
                                (),
                            )
                        },
                    }
                },
            }
        },
        Statement::TypeDecl { name, type_ann, type_params } => {
            let tp = type_params_of(ctx, type_params);
            match tp.res {
                Err(e) => failed(tp.ctx, e),
                Ok(tpm) => {
                    let a = ann_spec(tp.ctx, type_ann, tpm);
                    match a.res {
                        Err(e) => failed(a.ctx, e),
                        Ok(t) => done(
                            a.ctx.with_types(
                                a.ctx.types.insert(
                                    name@,
                                    frozen_scheme(
                                        SchemeModel {
                                            qualifiers: param_ids(ctx.count, param_count(type_params)),
                                            ty: t,
                                        },
                                    ),
                                ),
                            ),
                            (),
                        ),
                    }
                },
            }
        },
        Statement::Expr { expr } => {
            let r = infer_expr_spec(ctx, expr);
            match r.res {
                Err(e) => failed(r.ctx, e),
                Ok(_) => done(r.ctx, ()),
            }
        },
    }
}

/// What the first `n` statements do to the context, one after the other; the
/// first that fails ends the run.
pub open spec fn statements_spec(ctx: ContextModel, stmts: Vec<Statement>, n: nat) -> Outcome<()>
    decreases n,
{
    if n == 0 || n > stmts.len() {
        done(ctx, ())
    } else {
        let before = statements_spec(ctx, stmts, (n - 1) as nat);
        match before.res {
            Err(e) => before,
            Ok(_) => statement_spec(before.ctx, stmts[n - 1]),
        }
    }
}

/// The context at the end of a program, with one frozen scheme for each
/// name that it declares, or the error of its first statement that fails.
pub open spec fn infer_prog_spec(prog: Program) -> Result<ContextModel, ErrorModel> {
    let r = statements_spec(initial_context(), prog.body, prog.body.len() as nat);
    match r.res {
        Err(e) => Err(e),
        Ok(_) => Ok(r.ctx),
    }
}

/// An error among the first `n` statements is the error of every longer
/// run.
pub proof fn lemma_statements_err(ctx: ContextModel, stmts: Vec<Statement>, n: nat, m: nat)
    requires
        n <= m <= stmts.len(),
        statements_spec(ctx, stmts, n).res is Err,
    ensures
        statements_spec(ctx, stmts, m) == statements_spec(ctx, stmts, n),
    decreases m,
{
    if n < m {
        lemma_statements_err(ctx, stmts, n, (m - 1) as nat);
    }
}

/// Binding the type parameters hands out one id for each.
pub proof fn lemma_type_params_count(ctx: ContextModel, names: Vec<String>, n: nat)
    requires
        n <= names.len(),
        type_params_spec(ctx, names, n).res is Ok,
    ensures
        type_params_spec(ctx, names, n).ctx == ctx.advance(n as int),
    decreases n,
{
    if n > 0 {
        lemma_type_params_count(ctx, names, (n - 1) as nat);
    }
}

fn class_type(name: &str, ctx: &mut Context) -> (r: Scheme)
    requires
        old(ctx)@.has_room(2),
    ensures
        moved_on(old(ctx)@, final(ctx)@),
        scope_kept(old(ctx)@, final(ctx)@),
        r@ == class_scheme(name@, old(ctx)@.count),
        final(ctx)@ == old(ctx)@.advance(2),
{
    let lit = ctx.lit_type(Lit::Str(name.to_owned()));
    let mut props = no_props();
    push_prop(&mut props, TProp { name: String::from_str("_name"), optional: false, ty: lit });
    assert(prop_models(props) =~= seq![
        Prop {
            name: "_name"@,
            optional: false,
            ty: fresh_type(Kind::Lit(crate::types::LitModel::Str(name@)), old(ctx)@.count + 1),
        },
    ]);
    Scheme::from_type(ctx.object(props))
}

fn bind_all(pa: &Env, s: &Subst, ctx: &mut Context) -> (r: Result<(), InferError>)
    ensures
        top_level_values(old(ctx)@.values) && r is Ok ==> top_level_values(final(ctx)@.values),
        bindings_fail(pa@, s@, old(ctx)@.count) ==> r is Err && r->Err_0@ == ErrorModel::OutOfIds
            && final(ctx)@ == old(ctx)@,
        !bindings_fail(pa@, s@, old(ctx)@.count) ==> r is Ok && final(ctx)@ == old(ctx)@.with_values(
            old(ctx)@.values.union_prefer_right(final_bindings(pa@, s@, old(ctx)@.count)),
        ),
{
    let mut adds = Env::new();
    let n = pa.entries.len();
    let ghost es = pa.entries@;
    let ghost count = ctx@.count;
    let mut i: usize = 0;
    while i < n
        invariant
            i <= n,
            n == pa.entries.len(),
            es == pa.entries@,
            count == ctx@.count,
            ctx@ == old(ctx)@,
            forall|j: int|
                0 <= j < i && entry_live(es, j) ==> final_scheme(
                    (#[trigger] es[j]).scheme@,
                    s@,
                    count,
                ) is Ok && adds@.contains_key(es[j].name@) && adds@[es[j].name@] == frozen_scheme(
                    final_scheme(es[j].scheme@, s@, count)->Ok_0,
                ),
            forall|name: Seq<char>| #[trigger]
                adds@.contains_key(name) ==> exists|j: int|
                    0 <= j < i && entry_live(es, j) && (#[trigger] es[j]).name@ == name,
        decreases n - i,
    {
        if pa.is_live(i) {
            let e = &pa.entries[i];
            match normalize(&e.scheme.apply(s), ctx) {
                Err(_) => {
                    proof {
                        lemma_entries_found(es, n as int, i as int);
                        assert(pa@.contains_key(e.name@));
                    }
                    return Err(InferError::OutOfIds);
                },
                Ok(sc) => {
                    adds.insert(e.name.clone(), freeze_scheme(sc));
                },
            }
        }
        i += 1;
    }
    proof {
        assert forall|name: Seq<char>| #[trigger] pa@.contains_key(name) implies final_scheme(
            pa@[name],
            s@,
            count,
        ) is Ok && adds@.contains_key(name) && adds@[name] == frozen_scheme(
            final_scheme(pa@[name], s@, count)->Ok_0,
        ) by {
            let j = lemma_entries_live(es, n as int, name);
            assert(entry_live(es, j));
        }
        assert forall|name: Seq<char>| #[trigger] adds@.contains_key(name) implies pa@.contains_key(
            name,
        ) by {
            let j = choose|j: int| 0 <= j < n && entry_live(es, j) && (#[trigger] es[j]).name@ == name;
            lemma_entries_found(es, n as int, j);
        }
        assert(adds@ =~= final_bindings(pa@, s@, count));
        assert forall|name: Seq<char>| #[trigger] adds@.contains_key(name) implies top_level(
            adds@[name],
        ) by {
            lemma_frozen_normalized_top_level(apply_scheme(pa@[name], s@), count);
        }
    }
    ctx.values.extend(&adds);
    Ok(())
}

fn infer_statement(ctx: &mut Context, stmt: &Statement) -> (r: Result<(), InferError>)
    ensures
        top_level_values(old(ctx)@.values) && r is Ok ==> top_level_values(final(ctx)@.values),
        final(ctx)@.count >= old(ctx)@.count,
        outcome(final(ctx)@, r) == statement_spec(old(ctx)@, *stmt),
{
    match stmt {
        Statement::VarDecl { pattern, init, declare } => {
            if *declare {
                match pattern {
                    Pattern::Ident { name, type_ann } => match type_ann {
                        Some(ann) => {
                            let t = infer_type_ann(ann, ctx)?;
                            proof {
                                let sc = frozen_scheme(
                                    SchemeModel { qualifiers: Seq::empty(), ty: t@ },
                                );
                                assert forall|v: int| !crate::subst::occurs(v, sc.ty) by {
                                    crate::annot::lemma_ann_closed(old(ctx)@, *ann, v);
                                    crate::normal::lemma_occurs_frozen(v, t@, true);
                                }
                                assert(sc.qualifiers =~= crate::util::iota(0));
                                assert(top_level(sc));
                            }
                            ctx.values.insert(name.clone(), freeze_scheme(Scheme::from_type(t)));
                            Ok(())
                        },
                        None => Err(InferError::MissingTypeAnnotation),
                    },
                    _ => Err(InferError::Unsupported),
                }
            } else {
                match init {
                    None => Err(InferError::MissingInitializer),
                    Some(value) => {
                        let (pa, s) = infer_pattern_and_init(
                            pattern,
                            value,
                            ctx,
                            PatternUsage::Assign,
                        )?;
                        bind_all(&pa, &s, ctx)
                    },
                }
            }
        },
        Statement::TypeDecl { name, type_ann, type_params } => {
            let base = ctx.state.count;
            let tpm = bind_type_params(type_params, ctx)?;
            let k: usize = match type_params {
                Some(v) => v.len(),
                None => 0,
            };
            proof {
                if let Some(v) = type_params {
                    lemma_type_params_count(old(ctx)@, *v, v.len() as nat);
                }
            }
            let mut qualifiers: Vec<i32> = Vec::new();
            let mut i: usize = 0;
            while i < k
                invariant
                    i <= k,
                    base + k <= i32::MAX,
                    qualifiers.len() == i,
                    forall|j: int| 0 <= j < i ==> qualifiers[j] == base + 1 + j,
                decreases k - i,
            {
                let id = (base as i64) + 1 + (i as i64);
                qualifiers.push(id as i32);
                i += 1;
            }
            assert(ids_model(qualifiers) =~= param_ids(base as int, k as nat));
            let t = infer_type_ann_with_params(type_ann, ctx, &tpm)?;
            ctx.types.insert(name.clone(), freeze_scheme(Scheme { qualifiers, ty: t }));
            Ok(())
        },
        Statement::Expr { expr } => {
            let _ = infer_expr(ctx, expr)?;
            Ok(())
        },
    }
}

/// The context at the end of the program `prog`: for each name that it
/// declares one scheme, which is frozen, quantifies over every variable of
/// its type and numbers them from zero. Inference stops at the first
/// statement that fails.
///
/// Unification, simplification and the resolution of named types follow
/// nesting to a bound, beyond which they give the error `TooDeep`;
/// normalization makes a bounded number of rounds, after which it gives the
/// error `NoNormalForm`.
pub fn infer_prog(prog: &Program) -> (r: Result<Context, InferError>)
    ensures
        crate::error::result_model(r) == infer_prog_spec(*prog),
        r is Ok ==> top_level_values(r->Ok_0@.values),
{
    let mut ctx: Context = Context::default();
    let promise_scheme = class_type("Promise", &mut ctx);
    ctx.types.insert(String::from_str("Promise"), promise_scheme);
    let jsx_element_scheme = class_type("JSXElement", &mut ctx);
    ctx.types.insert(String::from_str("JSXElement"), jsx_element_scheme);
    assert(ctx@ == initial_context());
    let mut i: usize = 0;
    while i < prog.body.len()
        invariant
            i <= prog.body.len(),
            top_level_values(ctx@.values),
            statements_spec(initial_context(), prog.body, i as nat) == done(ctx@, ()),
        decreases prog.body.len() - i,
    {
        match infer_statement(&mut ctx, &prog.body[i]) {
            Ok(_) => {},
            Err(e) => {
                proof {
                    lemma_statements_err(
                        initial_context(),
                        prog.body,
                        (i + 1) as nat,
                        prog.body.len() as nat,
                    );
                }
                return Err(e);
            },
        }
        i += 1;
    }
    Ok(ctx)
}

} // verus!
