//! Properties that hold across the library: of spans, of the typing rules,
//! and of what every analysis step keeps.

use vstd::prelude::*;

use core::ops::Range;

use crate::analyzer::{
    binary_check, const_eval, assignable, common_type, const_fit_spec, distinct_names, expr_size, exprs_size, find_in, lemma_locate,
    lemma_push_entry, opt_expr_size, opt_size, sanitized, scopes_locate, scopes_lookup, stmt_size, stmts_size,
    AnalysisState, BindingView, ConstFit, ConstValue, FloatRange, assign_check, family_of, integral, rank_of,
};
use crate::ast::{expr_span, join_spec, AssignOp, BinOp, Expr, InfixKind, UnaryOp, Ident, LeftSide, Stmt, Type, TypeView};
use crate::semantics::AnalysisContext;
use crate::parser::{infix_of, named_type, postfix_power, token_is, token_or_error};
use crate::grammar::{missing_expected, ParseContext, ParseState};
use crate::tree::{ExprTree, StmtTree, TargetTree};
use crate::token::{kind_in, one_of, Token};
use crate::errors::{ParseError, SemanticError, SyntaxError};
use crate::decl_analyzer::{binary_view, decl_step, declared_view, decls_from, expr_view};

verus! {

/// The join of two spans covers both, and starts and ends where one of them does.
pub proof fn law_join_covers(a: Range<usize>, b: Range<usize>)
    ensures
        join_spec(a, b).start <= a.start,
        join_spec(a, b).start <= b.start,
        join_spec(a, b).end >= a.end,
        join_spec(a, b).end >= b.end,
        join_spec(a, b).start == a.start || join_spec(a, b).start == b.start,
        join_spec(a, b).end == a.end || join_spec(a, b).end == b.end,
{
}

/// Joining spans does not depend on their order.
pub proof fn law_join_commutes(a: Range<usize>, b: Range<usize>)
    ensures
        join_spec(a, b) == join_spec(b, a),
{
}

/// Joining spans is associative.
pub proof fn law_join_associates(a: Range<usize>, b: Range<usize>, c: Range<usize>)
    ensures
        join_spec(join_spec(a, b), c) == join_spec(a, join_spec(b, c)),
{
}

/// Joining a span with itself gives the span.
pub proof fn law_join_idempotent(a: Range<usize>)
    ensures
        join_spec(a, a) == a,
{
}

/// Every type accepts values of its own type.
pub proof fn law_assignable_reflexive(t: TypeView)
    ensures
        assignable(t, t),
{
}

/// Widening composes: what a type accepts, a type accepting it accepts too.
pub proof fn law_assignable_transitive(a: TypeView, b: TypeView, c: TypeView)
    requires
        assignable(a, b),
        assignable(b, c),
    ensures
        assignable(a, c),
{
}

/// Two types that accept each other are the same type.
pub proof fn law_assignable_antisymmetric(a: TypeView, b: TypeView)
    requires
        assignable(a, b),
        assignable(b, a),
    ensures
        a == b,
{
}

/// The common type of two operands is one of them, and accepts both; there
/// is none exactly when neither accepts the other.
pub proof fn law_common_type(l: TypeView, r: TypeView)
    ensures
        common_type(l, r) matches Some(t) ==> (t == l || t == r) && assignable(t, l) && assignable(t, r),
        common_type(l, r) is None <==> !assignable(l, r) && !assignable(r, l),
{
}

/// A constant that fits a type fits every type that accepts that type.
pub proof fn law_fit_widens(t: TypeView, u: TypeView, v: ConstValue)
    requires
        const_fit_spec(t, v) == ConstFit::Fits,
        assignable(u, t),
    ensures
        const_fit_spec(u, v) == ConstFit::Fits,
{
}

/// Keeping only a fitting constant twice is keeping it once.
pub proof fn law_sanitized_idempotent(t: TypeView, v: Option<ConstValue>)
    ensures
        sanitized(t, sanitized(t, v)) == sanitized(t, v),
        sanitized(t, v) matches Some(c) ==> const_fit_spec(t, c) == ConstFit::Fits,
{
}

/// After a declaration, the name resolves to the new binding: the next
/// symbol number, the declared type and mutability, and the constant when
/// it fits. A name the innermost scope already holds is reported and
/// nothing is declared.
pub proof fn law_declared_name_resolves<'a, 'src>(
    cx: AnalysisContext<'a, 'src>,
    st: AnalysisState<'a, 'src>,
    ident: Ident<'src>,
    typ: TypeView,
    mutable: bool,
    value: Option<ConstValue>,
)
    requires
        st.scopes.len() >= 1,
        distinct_names(st.scopes.last()),
    ensures
        ({
            let (after, ok) = cx.declare_step(st, ident, typ, mutable, value);
            &&& ok == (find_in(st.scopes.last(), ident.0@) is None)
            &&& ok ==> scopes_lookup(after.scopes, ident.0@) == Some(BindingView {
                id: st.next,
                typ,
                mutable,
                value: sanitized(typ, value),
            })
            &&& ok ==> cx.name_type(after, ident.0@) == Some(typ)
            &&& ok ==> after.next == st.next + 1 && after.errors == st.errors
            &&& !ok ==> after.scopes == st.scopes && after.next == st.next && after.errors.len() == st.errors.len() + 1
        }),
{
    let (after, ok) = cx.declare_step(st, ident, typ, mutable, value);
    if ok {
        let e = (ident.0, BindingView { id: st.next, typ, mutable, value: sanitized(typ, value) });
        lemma_push_entry(st.scopes.last(), e);
        assert(after.scopes.last() == st.scopes.last().push(e));
    }
}

/// An assignment's bookkeeping changes only the constant of the binding the
/// name resolves to: every name still resolves to the same place, with the
/// same number, type and mutability; no diagnostic is recorded.
pub proof fn law_store_keeps_bindings<'a, 'src>(
    cx: AnalysisContext<'a, 'src>,
    st: AnalysisState<'a, 'src>,
    name: &'src str,
    op: AssignOp,
    typ: TypeView,
    value: Option<ConstValue>,
    other: Seq<char>,
)
    ensures
        ({
            let after = cx.store_step(st, name, op, typ, value);
            &&& after.errors == st.errors
            &&& after.next == st.next
            &&& after.scopes.len() == st.scopes.len()
            &&& scopes_locate(after.scopes, other) == scopes_locate(st.scopes, other)
            &&& scopes_lookup(st.scopes, other) matches Some(b) ==> scopes_lookup(after.scopes, other) matches Some(c)
                && c.id == b.id && c.typ == b.typ && c.mutable == b.mutable
            &&& scopes_lookup(after.scopes, name@) matches Some(c) ==> c.value == match op {
                AssignOp::Assign => sanitized(typ, value),
                _ => None,
            }
        }),
{
    let after = cx.store_step(st, name, op, typ, value);
    lemma_locate(st.scopes, name@);
    match scopes_locate(st.scopes, name@) {
        Some((k, i)) => {
            assert forall|kk: int| 0 <= kk < st.scopes.len() implies (#[trigger] after.scopes[kk]).len() == st.scopes[kk].len() by {}
            assert forall|kk: int, j: int| 0 <= kk < st.scopes.len() && 0 <= j < st.scopes[kk].len() implies
                (#[trigger] after.scopes[kk][j]).0@ == st.scopes[kk][j].0@ by {}
            crate::analyzer::lemma_locate_same_names(after.scopes, st.scopes, other);
            lemma_locate(st.scopes, other);
            lemma_locate(after.scopes, other);
            crate::analyzer::lemma_locate_same_names(after.scopes, st.scopes, name@);
        },
        None => {},
    }
}

/// What an analysis step keeps from `st` to `after`: the number of open
/// scopes, the diagnostics recorded before (in order, at the front), and
/// symbol numbers only grow.
pub open spec fn kept<'a, 'src>(st: AnalysisState<'a, 'src>, after: AnalysisState<'a, 'src>) -> bool {
    &&& after.scopes.len() == st.scopes.len()
    &&& st.errors.len() <= after.errors.len()
    &&& forall|i: int| 0 <= i < st.errors.len() ==> #[trigger] after.errors[i] == st.errors[i]
    &&& st.next <= after.next
}

/// Two entries name the same binding: same name, number, type and
/// mutability (the constant held may differ).
pub open spec fn same_binding<'src>(x: (&'src str, BindingView), y: (&'src str, BindingView)) -> bool {
    &&& x.0 == y.0
    &&& x.1.id == y.1.id
    &&& x.1.typ == y.1.typ
    &&& x.1.mutable == y.1.mutable
}

/// Scope `b` holds the bindings of scope `a` at the same places, and
/// possibly more after them.
pub open spec fn scope_prefix<'src>(a: Seq<(&'src str, BindingView)>, b: Seq<(&'src str, BindingView)>) -> bool {
    &&& a.len() <= b.len()
    &&& forall|i: int| 0 <= i < a.len() ==> same_binding(#[trigger] a[i], b[i])
}

/// The same scopes are open, holding the same bindings; only constants may
/// differ.
pub open spec fn same_shape<'src>(a: Seq<Seq<(&'src str, BindingView)>>, b: Seq<Seq<(&'src str, BindingView)>>) -> bool {
    &&& a.len() == b.len()
    &&& forall|k: int| 0 <= k < a.len() ==> (#[trigger] a[k]).len() == b[k].len() && scope_prefix(a[k], b[k])
}

/// The same scopes are open; the outer ones hold the same bindings, and the
/// innermost holds its bindings and possibly new ones after them.
pub open spec fn grown_shape<'src>(a: Seq<Seq<(&'src str, BindingView)>>, b: Seq<Seq<(&'src str, BindingView)>>) -> bool {
    &&& a.len() == b.len()
    &&& a.len() >= 1
    &&& forall|k: int| 0 <= k < a.len() - 1 ==> (#[trigger] a[k]).len() == b[k].len() && scope_prefix(a[k], b[k])
    &&& scope_prefix(a.last(), b.last())
}

/// Keeping the bindings composes.
pub proof fn lemma_same_shape_trans<'src>(
    a: Seq<Seq<(&'src str, BindingView)>>,
    b: Seq<Seq<(&'src str, BindingView)>>,
    c: Seq<Seq<(&'src str, BindingView)>>,
)
    requires
        same_shape(a, b),
        same_shape(b, c),
    ensures
        same_shape(a, c),
{
    assert forall|k: int| 0 <= k < a.len() implies (#[trigger] a[k]).len() == c[k].len() && scope_prefix(a[k], c[k]) by {
        assert(a[k].len() == b[k].len() && scope_prefix(a[k], b[k]));
        assert(b[k].len() == c[k].len() && scope_prefix(b[k], c[k]));
        assert forall|i: int| 0 <= i < a[k].len() implies same_binding(#[trigger] a[k][i], c[k][i]) by {
            assert(same_binding(a[k][i], b[k][i]));
            assert(same_binding(b[k][i], c[k][i]));
        }
    }
}

/// Growing the innermost scope composes, and keeping the bindings is a way
/// of growing it.
pub proof fn lemma_grown_shape_trans<'src>(
    a: Seq<Seq<(&'src str, BindingView)>>,
    b: Seq<Seq<(&'src str, BindingView)>>,
    c: Seq<Seq<(&'src str, BindingView)>>,
)
    requires
        grown_shape(a, b) || (a.len() >= 1 && same_shape(a, b)),
        grown_shape(b, c) || (b.len() >= 1 && same_shape(b, c)),
    ensures
        grown_shape(a, c),
{
    let n = a.len();
    if same_shape(a, b) {
        assert(a[n - 1] == a.last());
    }
    if same_shape(b, c) {
        assert(b[n - 1] == b.last());
    }
    assert forall|k: int| 0 <= k < n - 1 implies (#[trigger] a[k]).len() == c[k].len() && scope_prefix(a[k], c[k]) by {
        assert(a[k].len() == b[k].len() && scope_prefix(a[k], b[k]));
        assert(b[k].len() == c[k].len() && scope_prefix(b[k], c[k]));
        assert forall|i: int| 0 <= i < a[k].len() implies same_binding(#[trigger] a[k][i], c[k][i]) by {
            assert(same_binding(a[k][i], b[k][i]));
            assert(same_binding(b[k][i], c[k][i]));
        }
    }
    assert(scope_prefix(a.last(), b.last()));
    assert(scope_prefix(b.last(), c.last()));
    assert forall|i: int| 0 <= i < a.last().len() implies same_binding(#[trigger] a.last()[i], c.last()[i]) by {
        assert(same_binding(a.last()[i], b.last()[i]));
        assert(same_binding(b.last()[i], c.last()[i]));
    }
}

/// Where the bindings are kept, a name resolves to the same binding: same
/// number, type and mutability.
pub proof fn lemma_same_shape_lookup<'src>(
    a: Seq<Seq<(&'src str, BindingView)>>,
    b: Seq<Seq<(&'src str, BindingView)>>,
    name: Seq<char>,
)
    requires
        same_shape(a, b),
    ensures
        scopes_locate(a, name) == scopes_locate(b, name),
        scopes_lookup(a, name) matches Some(x) ==> scopes_lookup(b, name) matches Some(y)
            && y.id == x.id && y.typ == x.typ && y.mutable == x.mutable,
{
    assert forall|k: int| 0 <= k < a.len() implies (#[trigger] a[k]).len() == b[k].len() by {}
    assert forall|k: int, i: int| 0 <= k < a.len() && 0 <= i < a[k].len() implies (#[trigger] a[k][i]).0@ == b[k][i].0@ by {
        assert(scope_prefix(a[k], b[k]));
        assert(same_binding(a[k][i], b[k][i]));
    }
    crate::analyzer::lemma_locate_same_names(a, b, name);
    lemma_locate(a, name);
    match scopes_locate(a, name) {
        Some((k, i)) => {
            assert(scope_prefix(a[k], b[k]));
            assert(same_binding(a[k][i], b[k][i]));
        },
        None => {},
    }
}

/// Typing an expression keeps every binding in scope: the same scopes stay
/// open, each name keeps its number, type and mutability (only the constants
/// held may change); no diagnostic is dropped and no symbol number taken
/// back. Typing a block or a call, and every expression step below, keeps
/// the same.
pub proof fn law_infer_keeps<'a, 'src>(cx: AnalysisContext<'a, 'src>, st: AnalysisState<'a, 'src>, e: Expr<'src>, expected: Option<TypeView>)
    requires
        st.scopes.len() >= 1,
    ensures
        kept(st, cx.infer_step(st, e, expected).0),
        same_shape(st.scopes, cx.infer_step(st, e, expected).0.scopes),
    decreases expr_size(e), 2nat,
{
    match e {
        Expr::Unary { op, expr } => {
            law_infer_keeps(cx, st, *expr, expected);
        },
        Expr::Binary { op, lhs, rhs } => {
            law_infer_keeps(cx, st, *lhs, expected);
            let s1 = cx.infer_step(st, *lhs, expected).0;
            law_infer_keeps(cx, s1, *rhs, expected);
            let s2 = cx.infer_step(s1, *rhs, expected).0;
            lemma_same_shape_trans(st.scopes, s1.scopes, s2.scopes);
        },
        Expr::Call { func, args } => {
            law_call_keeps(cx, st, *func, args@);
        },
        Expr::Assign { op, lhs, rhs } => {
            law_assign_keeps(cx, st, op, lhs, *rhs);
        },
        Expr::Block { stmts, tail } => {
            let t = match tail {
                Some(x) => Some(*x),
                None => None,
            };
            assert(opt_expr_size(t) == opt_size(tail));
            law_block_keeps(cx, st, stmts@, t, expected);
        },
        Expr::If { cond, then, else_ } => {
            let x = match else_ {
                Some(x) => Some(*x),
                None => None,
            };
            assert(opt_expr_size(x) == opt_size(else_));
            law_if_keeps(cx, st, *cond, *then, x, expected);
        },
        _ => {},
    }
}

/// Typing an `if` keeps what typing an expression keeps.
pub proof fn law_if_keeps<'a, 'src>(
    cx: AnalysisContext<'a, 'src>,
    st: AnalysisState<'a, 'src>,
    cond: Expr<'src>,
    then: Expr<'src>,
    else_: Option<Expr<'src>>,
    expected: Option<TypeView>,
)
    requires
        st.scopes.len() >= 1,
    ensures
        kept(st, cx.if_step(st, cond, then, else_, expected).0),
        same_shape(st.scopes, cx.if_step(st, cond, then, else_, expected).0.scopes),
    decreases expr_size(cond) + expr_size(then) + opt_expr_size(else_), 4nat,
{
    law_infer_keeps(cx, st, cond, Some(TypeView::Bool));
    let s1 = cx.infer_step(st, cond, Some(TypeView::Bool)).0;
    let hint = match else_ {
        Some(_) => expected,
        None => Some(TypeView::Unit),
    };
    law_infer_keeps(cx, s1, then, hint);
    let s2 = cx.infer_step(s1, then, hint).0;
    lemma_same_shape_trans(st.scopes, s1.scopes, s2.scopes);
    match else_ {
        Some(x) => {
            law_infer_keeps(cx, s2, x, expected);
            let s3 = cx.infer_step(s2, x, expected).0;
            lemma_same_shape_trans(st.scopes, s2.scopes, s3.scopes);
        },
        None => {},
    }
}

/// Typing a call keeps what typing an expression keeps.
pub proof fn law_call_keeps<'a, 'src>(cx: AnalysisContext<'a, 'src>, st: AnalysisState<'a, 'src>, func: Expr<'src>, args: Seq<Expr<'src>>)
    requires
        st.scopes.len() >= 1,
    ensures
        kept(st, cx.call_step(st, func, args).0),
        same_shape(st.scopes, cx.call_step(st, func, args).0.scopes),
    decreases expr_size(func) + exprs_size(args), 4nat,
{
    law_infer_keeps(cx, st, func, None);
    let (s1, ft) = cx.infer_step(st, func, None);
    match ft {
        Some(TypeView::Func { params, ret }) => {
            if params.len() == args.len() {
                law_args_keep(cx, s1, args, params);
                let s2 = cx.args_step(s1, args, params).0;
                lemma_same_shape_trans(st.scopes, s1.scopes, s2.scopes);
            }
        },
        _ => {},
    }
}

/// Typing call arguments keeps what typing an expression keeps.
pub proof fn law_args_keep<'a, 'src>(cx: AnalysisContext<'a, 'src>, st: AnalysisState<'a, 'src>, args: Seq<Expr<'src>>, params: Seq<TypeView>)
    requires
        st.scopes.len() >= 1,
    ensures
        kept(st, cx.args_step(st, args, params).0),
        same_shape(st.scopes, cx.args_step(st, args, params).0.scopes),
    decreases exprs_size(args), 3nat,
{
    if args.len() != 0 && params.len() != 0 {
        assert(exprs_size(args) == expr_size(args[0]) + exprs_size(args.drop_first()));
        law_infer_keeps(cx, st, args[0], Some(params[0]));
        let s1 = cx.infer_step(st, args[0], Some(params[0])).0;
        law_args_keep(cx, s1, args.drop_first(), params.drop_first());
        let s2 = cx.args_step(s1, args.drop_first(), params.drop_first()).0;
        lemma_same_shape_trans(st.scopes, s1.scopes, s2.scopes);
    }
}

/// Typing an assignment keeps what typing an expression keeps: the
/// assigned name keeps its binding, only the constant it holds changes.
pub proof fn law_assign_keeps<'a, 'src>(cx: AnalysisContext<'a, 'src>, st: AnalysisState<'a, 'src>, op: AssignOp, lhs: LeftSide<'src>, rhs: Expr<'src>)
    requires
        st.scopes.len() >= 1,
    ensures
        kept(st, cx.assign_step(st, op, lhs, rhs).0),
        same_shape(st.scopes, cx.assign_step(st, op, lhs, rhs).0.scopes),
    decreases expr_size(rhs), 4nat,
{
    let (s1, tgt) = cx.target_step(st, lhs);
    match tgt {
        Some((name, target)) => {
            law_infer_keeps(cx, s1, rhs, Some(target));
            let s2 = cx.infer_step(s1, rhs, Some(target)).0;
            lemma_same_shape_trans(st.scopes, s1.scopes, s2.scopes);
            lemma_locate(s2.scopes, name@);
            let folded = const_eval(cx.floats, s2.scopes, rhs);
            let s3 = cx.store_step(s2, name, op, target, folded);
            match scopes_locate(s2.scopes, name@) {
                Some((k, i)) => {
                    assert forall|kk: int| 0 <= kk < s2.scopes.len() implies
                        (#[trigger] s2.scopes[kk]).len() == s3.scopes[kk].len() && scope_prefix(s2.scopes[kk], s3.scopes[kk]) by {
                        if kk == k {
                            assert forall|j: int| 0 <= j < s2.scopes[kk].len() implies
                                same_binding(#[trigger] s2.scopes[kk][j], s3.scopes[kk][j]) by {}
                        } else {
                            assert(s3.scopes[kk] == s2.scopes[kk]);
                        }
                    }
                    assert(same_shape(s2.scopes, s3.scopes));
                    lemma_same_shape_trans(st.scopes, s2.scopes, s3.scopes);
                },
                None => {},
            }
        },
        None => {},
    }
}

/// Checking a variable declaration keeps the open scopes and the bindings
/// they hold; the innermost scope may gain the declared name. No diagnostic
/// is dropped and no symbol number taken back.
pub proof fn law_decl_keeps<'a, 'src>(cx: AnalysisContext<'a, 'src>, st: AnalysisState<'a, 'src>, node: Stmt<'src>)
    requires
        st.scopes.len() >= 1,
    ensures
        kept(st, cx.decl_step(st, node)),
        grown_shape(st.scopes, cx.decl_step(st, node).scopes),
    decreases stmt_size(node), 5nat,
{
    match node {
        Stmt::VarDecl { name, typ, init, mutable, .. } => {
            let (s1, it) = match init {
                Some(value) => {
                    law_infer_keeps(cx, st, value, Some(typ@));
                    law_infer_keeps(cx, st, value, None);
                    let folded = const_eval(cx.floats, st.scopes, value);
                    let declared_fits = folded matches Some(v) && typ@ != TypeView::Inferred
                        && const_fit_spec(typ@, v) == ConstFit::Fits;
                    if declared_fits {
                        (st, Some(typ@))
                    } else if typ@ != TypeView::Inferred {
                        cx.infer_step(st, value, Some(typ@))
                    } else {
                        cx.infer_step(st, value, None)
                    }
                },
                None => (st, None),
            };
            assert(same_shape(st.scopes, s1.scopes));
            lemma_declare_grows(cx, s1, name, TypeView::Unit, mutable, None);
            assert forall|t: TypeView, v: Option<ConstValue>| #[trigger] grown_shape(s1.scopes, cx.declare_step(s1, name, t, mutable, v).0.scopes) by {
                lemma_declare_grows(cx, s1, name, t, mutable, v);
            }
            lemma_grown_shape_trans(st.scopes, s1.scopes, cx.decl_step(st, node).scopes);
        },
        _ => {},
    }
}

/// Declaring a name grows the innermost scope and keeps every other binding.
pub proof fn lemma_declare_grows<'a, 'src>(
    cx: AnalysisContext<'a, 'src>,
    st: AnalysisState<'a, 'src>,
    ident: Ident<'src>,
    typ: TypeView,
    mutable: bool,
    value: Option<ConstValue>,
)
    requires
        st.scopes.len() >= 1,
    ensures
        grown_shape(st.scopes, cx.declare_step(st, ident, typ, mutable, value).0.scopes),
{
    let after = cx.declare_step(st, ident, typ, mutable, value).0;
    let n = st.scopes.len();
    assert forall|k: int| 0 <= k < n - 1 implies
        (#[trigger] st.scopes[k]).len() == after.scopes[k].len() && scope_prefix(st.scopes[k], after.scopes[k]) by {
        assert(after.scopes[k] == st.scopes[k]);
    }
    assert forall|i: int| 0 <= i < st.scopes.last().len() implies
        same_binding(#[trigger] st.scopes.last()[i], after.scopes.last()[i]) by {}
}

/// Analyzing a statement keeps what checking a declaration keeps.
pub proof fn law_stmt_keeps<'a, 'src>(cx: AnalysisContext<'a, 'src>, st: AnalysisState<'a, 'src>, stmt: Stmt<'src>)
    requires
        st.scopes.len() >= 1,
    ensures
        kept(st, cx.stmt_step(st, stmt)),
        grown_shape(st.scopes, cx.stmt_step(st, stmt).scopes),
    decreases stmt_size(stmt), 6nat,
{
    match stmt {
        Stmt::Expr(e) => {
            law_infer_keeps(cx, st, e, None);
            lemma_grown_shape_trans(st.scopes, st.scopes, cx.infer_step(st, e, None).0.scopes);
        },
        Stmt::Return(Some(e)) => {
            law_infer_keeps(cx, st, e, None);
            lemma_grown_shape_trans(st.scopes, st.scopes, cx.infer_step(st, e, None).0.scopes);
        },
        Stmt::VarDecl { .. } => law_decl_keeps(cx, st, stmt),
        Stmt::FuncDecl { name, typ, args, .. } => {
            lemma_declare_grows(cx, st, name, crate::analyzer::func_type_view(args@, typ), false, None);
        },
        _ => {
            lemma_grown_shape_trans(st.scopes, st.scopes, st.scopes);
        },
    }
}

/// Analyzing statements in order keeps what analyzing one statement keeps.
pub proof fn law_stmts_keep<'a, 'src>(cx: AnalysisContext<'a, 'src>, st: AnalysisState<'a, 'src>, stmts: Seq<Stmt<'src>>)
    requires
        st.scopes.len() >= 1,
    ensures
        kept(st, cx.stmts_step(st, stmts)),
        grown_shape(st.scopes, cx.stmts_step(st, stmts).scopes),
    decreases stmts_size(stmts), 7nat,
{
    if stmts.len() != 0 {
        assert(stmts_size(stmts) == stmt_size(stmts[0]) + stmts_size(stmts.drop_first()));
        law_stmt_keeps(cx, st, stmts[0]);
        let s1 = cx.stmt_step(st, stmts[0]);
        law_stmts_keep(cx, s1, stmts.drop_first());
        lemma_grown_shape_trans(st.scopes, s1.scopes, cx.stmts_step(s1, stmts.drop_first()).scopes);
    } else {
        lemma_grown_shape_trans(st.scopes, st.scopes, st.scopes);
    }
}

/// A block closes the scope it opens: after it, the same scopes are open as
/// before, holding the same bindings (only constants may change); no
/// diagnostic is dropped and no symbol number taken back.
pub proof fn law_block_keeps<'a, 'src>(
    cx: AnalysisContext<'a, 'src>,
    st: AnalysisState<'a, 'src>,
    stmts: Seq<Stmt<'src>>,
    tail: Option<Expr<'src>>,
    expected: Option<TypeView>,
)
    requires
        st.scopes.len() >= 1,
    ensures
        kept(st, cx.block_step(st, stmts, tail, expected).0),
        same_shape(st.scopes, cx.block_step(st, stmts, tail, expected).0.scopes),
    decreases stmts_size(stmts) + opt_expr_size(tail), 8nat,
{
    let s1 = AnalysisState { scopes: st.scopes.push(Seq::empty()), errors: st.errors, next: st.next };
    law_stmts_keep(cx, s1, stmts);
    let s2 = cx.stmts_step(s1, stmts);
    let s3 = match tail {
        Some(x) => {
            law_infer_keeps(cx, s2, x, expected);
            cx.infer_step(s2, x, expected).0
        },
        None => s2,
    };
    lemma_grown_shape_trans(s1.scopes, s2.scopes, s3.scopes);
    let s4 = cx.block_step(st, stmts, tail, expected).0;
    assert(s4.scopes == s3.scopes.drop_last());
    assert forall|k: int| 0 <= k < st.scopes.len() implies
        (#[trigger] st.scopes[k]).len() == s4.scopes[k].len() && scope_prefix(st.scopes[k], s4.scopes[k]) by {
        assert(s1.scopes[k] == st.scopes[k]);
        assert(s4.scopes[k] == s3.scopes[k]);
        assert(s1.scopes[k].len() == s3.scopes[k].len() && scope_prefix(s1.scopes[k], s3.scopes[k]));
    }
}

/// The typing of a binary operator does not depend on which operand is on
/// which side: the same result type, or the same error.
pub proof fn law_binary_check_symmetric(op: BinOp, l: TypeView, r: TypeView)
    ensures
        binary_check(op, l, r) == binary_check(op, r, l),
{
    if assignable(l, r) && assignable(r, l) {
        law_assignable_antisymmetric(l, r);
    }
}

/// The declaration analyzer's symbol table numbers its names 0, 1, 2, …
/// in the order they were first declared.
pub open spec fn numbered_in_order<'src>(resolved: Seq<(&'src str, usize)>) -> bool {
    forall|i: int| 0 <= i < resolved.len() ==> (#[trigger] resolved[i]).1 == i as usize
}

/// The symbol table and the type table hold the same names.
pub open spec fn same_names<'src>(resolved: Seq<(&'src str, usize)>, types: Map<Seq<char>, TypeView>) -> bool {
    forall|n: Seq<char>| #[trigger] types.contains_key(n) == (find_in(resolved, n) is Some)
}

/// Declaration analysis keeps its two tables in step: from tables that hold
/// the same names, numbered in order (as a new analyzer's empty tables do),
/// the statements from position `i` on leave tables that still hold the
/// same names, numbered 0, 1, 2, … in order of first declaration.
pub proof fn law_decls_number_in_order<'src>(
    resolved: Seq<(&'src str, usize)>,
    types: Map<Seq<char>, TypeView>,
    nodes: Seq<Stmt<'src>>,
    i: int,
)
    requires
        numbered_in_order(resolved),
        same_names(resolved, types),
    ensures
        numbered_in_order(decls_from(resolved, types, nodes, i).0),
        same_names(decls_from(resolved, types, nodes, i).0, decls_from(resolved, types, nodes, i).1),
    decreases nodes.len() - i,
{
    if 0 <= i < nodes.len() {
        let (r, t) = decl_step(resolved, types, nodes[i]);
        match nodes[i] {
            Stmt::VarDecl { name, typ, init, .. } => match declared_view(types, typ, init) {
                Some(ty) => {
                    if find_in(resolved, name.0@) is None {
                        let pushed = resolved.push((name.0, resolved.len() as usize));
                        assert(pushed.drop_last() =~= resolved);
                        assert forall|n: Seq<char>| #[trigger] t.contains_key(n) == (find_in(r, n) is Some) by {
                            assert(find_in(pushed, n) == if n == name.0@ { Some(resolved.len() as int) } else { find_in(resolved, n) });
                        }
                    } else {
                        assert forall|n: Seq<char>| #[trigger] t.contains_key(n) == (find_in(r, n) is Some) by {
                            if n != name.0@ {
                                assert(types.contains_key(n) == (find_in(resolved, n) is Some));
                            }
                        }
                    }
                },
                None => {},
            },
            _ => {},
        }
        law_decls_number_in_order(r, t, nodes, i + 1);
    }
}

/// The binding power of an infix operator token, -1 when it is none.
pub open spec fn power_of(t: Token) -> int {
    match infix_of(t) {
        Some((p, _)) => p as int,
        None => -1,
    }
}

/// Operators bind in this order, loosest first: assignments, `||`, `&&`,
/// `|`, `^`, `&`, equality, comparison, shifts, `+ -`, `* / %`, `**`; every
/// assignment operator binds alike, and so do the operators of each group.
pub proof fn law_precedence_order()
    ensures
        power_of(Token::Assign) < power_of(Token::LogicalOr),
        power_of(Token::LogicalOr) < power_of(Token::LogicalAnd),
        power_of(Token::LogicalAnd) < power_of(Token::BitOr),
        power_of(Token::BitOr) < power_of(Token::BitXor),
        power_of(Token::BitXor) < power_of(Token::BitAnd),
        power_of(Token::BitAnd) < power_of(Token::EqEq),
        power_of(Token::EqEq) < power_of(Token::Less),
        power_of(Token::Less) < power_of(Token::Shl),
        power_of(Token::Shl) < power_of(Token::Plus),
        power_of(Token::Plus) < power_of(Token::Star),
        power_of(Token::Star) < power_of(Token::StarStar),
        power_of(Token::Assign) == 0,
        power_of(Token::PlusEq) == 0 && power_of(Token::MinusEq) == 0 && power_of(Token::StarEq) == 0
            && power_of(Token::SlashEq) == 0 && power_of(Token::PercentEq) == 0 && power_of(Token::AndEq) == 0
            && power_of(Token::OrEq) == 0 && power_of(Token::XorEq) == 0 && power_of(Token::ShlEq) == 0
            && power_of(Token::ShrEq) == 0,
        power_of(Token::NotEq) == power_of(Token::EqEq),
        power_of(Token::LessEq) == power_of(Token::Less) && power_of(Token::Greater) == power_of(Token::Less)
            && power_of(Token::GreaterEq) == power_of(Token::Less),
        power_of(Token::Shr) == power_of(Token::Shl),
        power_of(Token::Minus) == power_of(Token::Plus),
        power_of(Token::Slash) == power_of(Token::Star) && power_of(Token::Percent) == power_of(Token::Star),
{
}

/// Binary operators of equal precedence associate to the left: at the end
/// of the stream, `a op1 b op2 c` reads as `(a op1 b) op2 c`.
pub proof fn law_binary_left_associative<'src, 't>(
    cx: ParseContext<'src, 't>,
    st: ParseState<'t, 'src>,
    a: &'src str,
    b: &'src str,
    c: &'src str,
    t1: Token<'src>,
    t2: Token<'src>,
    o1: BinOp,
    o2: BinOp,
    p: u8,
)
    requires
        st.pos + 5 == cx.tokens.len(),
        cx.tokens[st.pos as int] == Token::Identifier(a),
        cx.tokens[st.pos + 1int] == t1,
        cx.tokens[st.pos + 2int] == Token::Identifier(b),
        cx.tokens[st.pos + 3int] == t2,
        cx.tokens[st.pos + 4int] == Token::Identifier(c),
        infix_of(t1) == Some((p, InfixKind::Binary(o1))),
        infix_of(t2) == Some((p, InfixKind::Binary(o2))),
    ensures
        cx.expr(st, 0).1 == (ExprTree::Binary {
            op: o2,
            lhs: Box::new(ExprTree::Binary {
                op: o1,
                lhs: Box::new(ExprTree::Ident(Ident(a, cx.here(st)))),
                rhs: Box::new(ExprTree::Ident(Ident(b, cx.here(ParseState { pos: st.pos + 2, errors: st.errors })))),
            }),
            rhs: Box::new(ExprTree::Ident(Ident(c, cx.here(ParseState { pos: st.pos + 4, errors: st.errors })))),
        }),
{
    assert(postfix_power(t1) == 0 && t1 != Token::<'src>::DotDot);
    assert(postfix_power(t2) == 0 && t2 != Token::<'src>::DotDot);
    let s1 = cx.advance(st);
    assert(cx.prefix(st) == (s1, ExprTree::Ident(Ident(a, cx.here(st)))));
    let ea = ExprTree::Ident(Ident(a, cx.here(st)));
    let s2 = cx.advance(s1);
    let s3 = cx.advance(s2);
    let eb = ExprTree::Ident(Ident(b, cx.here(s2)));
    assert(cx.prefix(s2) == (s3, eb));
    assert(cx.expr_loop(s3, eb, (p + 1) as u8) == (s3, eb));
    assert(cx.expr(s2, (p + 1) as u8) == (s3, eb));
    let l2 = ExprTree::Binary { op: o1, lhs: Box::new(ea), rhs: Box::new(eb) };
    assert(cx.expr_loop(s1, ea, 0) == cx.expr_loop(s3, l2, 0));
    let s4 = cx.advance(s3);
    let s5 = cx.advance(s4);
    let ec = ExprTree::Ident(Ident(c, cx.here(s4)));
    assert(cx.prefix(s4) == (s5, ec));
    assert(cx.expr_loop(s5, ec, (p + 1) as u8) == (s5, ec));
    assert(cx.expr(s4, (p + 1) as u8) == (s5, ec));
    let l3 = ExprTree::Binary { op: o2, lhs: Box::new(l2), rhs: Box::new(ec) };
    assert(cx.expr_loop(s5, l3, 0) == (s5, l3));
    assert(cx.expr_loop(s3, l2, 0) == (s5, l3));
    assert(cx.expr(st, 0) == (s5, l3));
}

/// Assignments associate to the right: at the end of the stream,
/// `a op1 b op2 c` with assignment operators reads as `a op1 (b op2 c)`.
pub proof fn law_assignment_right_associative<'src, 't>(
    cx: ParseContext<'src, 't>,
    st: ParseState<'t, 'src>,
    a: &'src str,
    b: &'src str,
    c: &'src str,
    t1: Token<'src>,
    t2: Token<'src>,
    o1: AssignOp,
    o2: AssignOp,
)
    requires
        st.pos + 5 == cx.tokens.len(),
        cx.tokens[st.pos as int] == Token::Identifier(a),
        cx.tokens[st.pos + 1int] == t1,
        cx.tokens[st.pos + 2int] == Token::Identifier(b),
        cx.tokens[st.pos + 3int] == t2,
        cx.tokens[st.pos + 4int] == Token::Identifier(c),
        infix_of(t1) == Some((0u8, InfixKind::Assign(o1))),
        infix_of(t2) == Some((0u8, InfixKind::Assign(o2))),
    ensures
        cx.expr(st, 0).1 == (ExprTree::Assign {
            op: o1,
            lhs: TargetTree::Var(Ident(a, cx.here(st))),
            rhs: Box::new(ExprTree::Assign {
                op: o2,
                lhs: TargetTree::Var(Ident(b, cx.here(ParseState { pos: st.pos + 2, errors: st.errors }))),
                rhs: Box::new(ExprTree::Ident(Ident(c, cx.here(ParseState { pos: st.pos + 4, errors: st.errors })))),
            }),
        }),
{
    assert(postfix_power(t1) == 0 && t1 != Token::<'src>::DotDot);
    assert(postfix_power(t2) == 0 && t2 != Token::<'src>::DotDot);
    let s1 = cx.advance(st);
    let ea = ExprTree::Ident(Ident(a, cx.here(st)));
    assert(cx.prefix(st) == (s1, ea));
    let s2 = cx.advance(s1);
    let s3 = cx.advance(s2);
    let eb = ExprTree::Ident(Ident(b, cx.here(s2)));
    assert(cx.prefix(s2) == (s3, eb));
    let s4 = cx.advance(s3);
    let s5 = cx.advance(s4);
    let ec = ExprTree::Ident(Ident(c, cx.here(s4)));
    assert(cx.prefix(s4) == (s5, ec));
    assert(cx.expr_loop(s5, ec, 0) == (s5, ec));
    assert(cx.expr(s4, 0) == (s5, ec));
    let inner = ExprTree::Assign { op: o2, lhs: TargetTree::Var(Ident(b, cx.here(s2))), rhs: Box::new(ec) };
    assert(cx.target(s5, eb) == (s5, Some(TargetTree::Var(Ident(b, cx.here(s2))))));
    assert(cx.expr_loop(s5, inner, 0) == (s5, inner));
    assert(cx.expr_loop(s3, eb, 0) == (s5, inner));
    assert(cx.expr(s2, 0) == (s5, inner));
    let outer = ExprTree::Assign { op: o1, lhs: TargetTree::Var(Ident(a, cx.here(st))), rhs: Box::new(inner) };
    assert(cx.target(s5, ea) == (s5, Some(TargetTree::Var(Ident(a, cx.here(st))))));
    assert(cx.expr_loop(s5, outer, 0) == (s5, outer));
    assert(cx.expr_loop(s1, ea, 0) == (s5, outer));
    assert(cx.expr(st, 0) == (s5, outer));
}

/// Inside a block, line breaks and semicolons only separate statements: a
/// block read from one of them on reads as from the token after it.
pub proof fn law_block_separators_skipped<'src, 't>(cx: ParseContext<'src, 't>, st: ParseState<'t, 'src>, stmts: Seq<StmtTree<'src>>)
    requires
        st.pos < cx.tokens.len(),
        cx.tokens[st.pos as int] == Token::<'src>::Newline || cx.tokens[st.pos as int] == Token::<'src>::Semicolon,
    ensures
        cx.block_loop(st, stmts) == cx.block_loop(cx.advance(st), stmts),
{
}

/// After a top-level statement and its separator, no semicolon is left:
/// however many follow the statement, they are all consumed.
pub proof fn law_statement_semicolons_consumed<'src, 't>(cx: ParseContext<'src, 't>, st: ParseState<'t, 'src>)
    ensures
        !cx.is(cx.eat_semicolons(st), Token::Semicolon) || cx.eat_semicolons(st).pos >= cx.tokens.len(),
        cx.eat_semicolons(st).errors == st.errors,
        st.pos <= cx.tokens.len() ==> st.pos <= cx.eat_semicolons(st).pos <= cx.tokens.len(),
    decreases cx.rem(st),
{
    if st.pos < cx.tokens.len() && cx.is(st, Token::Semicolon) {
        law_statement_semicolons_consumed(cx, cx.advance(st));
    }
}

/// Whether a token can start a type annotation: a type name, `()` or `_`.
pub open spec fn starts_type(t: Token) -> bool {
    t is Identifier || t is Unit || t is Underscore
}

/// Reading a type annotation accepts exactly the tokens that start one.
proof fn lemma_type_tokens(t: Token)
    ensures
        kind_in(&t, seq![Token::Identifier(""), Token::Unit, Token::Underscore]) == starts_type(t),
{
    let any = seq![Token::Identifier(""), Token::Unit, Token::Underscore];
    if starts_type(t) {
        if t is Identifier {
            assert(t.kind_spec() == any[0].kind_spec());
        } else if t is Unit {
            assert(t.kind_spec() == any[1].kind_spec());
        } else {
            assert(t.kind_spec() == any[2].kind_spec());
        }
    } else {
        assert forall|i: int| 0 <= i < any.len() implies t.kind_spec() != (#[trigger] any[i]).kind_spec() by {
            if i == 0 {
            } else if i == 1 {
            } else {
            }
        }
    }
}

/// A type annotation: a type name gives the builtin type of that name or
/// the named user type, `()` the unit type and `_` a type left to
/// inference, each consuming its token; any other token is reported as a
/// missing type and gives the error type, and the end of the stream gives
/// the error type with nothing recorded.
pub proof fn law_type_annotation<'src, 't>(cx: ParseContext<'src, 't>, st: ParseState<'t, 'src>)
    ensures
        st.pos >= cx.tokens.len() ==> cx.type_ann(st) == (st, Type::<'src>::Error),
        forall|n: &'src str| st.pos < cx.tokens.len() && cx.cur(st) == Token::Identifier(n) ==>
            #[trigger] named_type(n, cx.here(st)) == cx.type_ann(st).1 && cx.type_ann(st).0 == cx.advance(st),
        st.pos < cx.tokens.len() && cx.cur(st) is Unit ==> cx.type_ann(st) == (cx.advance(st), Type::<'src>::Unit),
        st.pos < cx.tokens.len() && cx.cur(st) is Underscore ==> cx.type_ann(st) == (cx.advance(st), Type::<'src>::Inferred),
        st.pos < cx.tokens.len() && !starts_type(cx.cur(st)) ==> cx.type_ann(st) == (
            cx.missing(st, "invalid or missing type"),
            Type::<'src>::Error,
        ),
{
    lemma_type_tokens(cx.cur(st));
    if st.pos < cx.tokens.len() {
        assert(cx.spans.len() > st.pos ==> cx.here(st) == cx.spans[st.pos as int]);
    }
}

/// A function declaration without a name after its keyword is refused:
/// the keyword is consumed, nothing is recorded, and the missing name is
/// the error.
pub proof fn law_function_needs_a_name<'src, 't>(cx: ParseContext<'src, 't>, st: ParseState<'t, 'src>)
    requires
        st.pos < cx.tokens.len(),
        cx.tokens[st.pos as int] == Token::<'src>::Fn,
        !(token_or_error(cx.tokens, st.pos + 1int) is Identifier),
    ensures
        cx.func(st) == (
            cx.advance(st),
            Err::<StmtTree<'src>, SyntaxError<'src>>(missing_expected("function decl requires a name... did you forget it")),
        ),
{
}

/// A token that is no postfix operator leaves an expression as it is, and
/// the parse state too.
pub proof fn law_no_postfix_no_change<'src, 't>(cx: ParseContext<'src, 't>, st: ParseState<'t, 'src>, e: ExprTree<'src>)
    requires
        postfix_power(cx.cur(st)) == 0,
    ensures
        cx.postfix(st, e) == (st, e),
{
    let t = cx.cur(st);
    assert(!one_of(&t, seq![Token::LParen, Token::Unit])) by {
        let any = seq![Token::LParen, Token::Unit];
        assert forall|i: int| 0 <= i < any.len() implies !t.same(&#[trigger] any[i]) by {
            if i == 0 {
            } else {
            }
        }
    }
    assert(!one_of(&t, seq![Token::Dot, Token::Arrow])) by {
        let any = seq![Token::Dot, Token::Arrow];
        assert forall|i: int| 0 <= i < any.len() implies !t.same(&#[trigger] any[i]) by {
            if i == 0 {
            } else {
            }
        }
    }
}

/// The position after `let` (at `a`) and the modifiers it accepts, in
/// order: `const`, `static`, `mutable`.
pub open spec fn after_modifiers<'src>(t: Seq<Token<'src>>, a: int) -> int {
    let a1 = if token_is(t, a, Token::Const) { a + 1 } else { a };
    let a2 = if token_is(t, a1, Token::Static) { a1 + 1 } else { a1 };
    if token_is(t, a2, Token::Mutable) { a2 + 1 } else { a2 }
}

/// Where a declaration's `=` would stand, its name being at `k`: after the
/// annotation `: type` when one is there (a token that cannot start a type
/// is not consumed), right after the name otherwise.
pub open spec fn after_type<'src>(t: Seq<Token<'src>>, k: int) -> int {
    if token_is(t, k + 1, Token::Colon) {
        if k + 2 < t.len() && starts_type(t[k + 2]) { k + 3 } else { k + 2 }
    } else {
        k + 1
    }
}

/// Whether a declaration whose name is at `k` leaves its type to
/// inference: no annotation, or the annotation `_`.
pub open spec fn type_inferred<'src>(t: Seq<Token<'src>>, k: int) -> bool {
    !token_is(t, k + 1, Token::Colon) || token_or_error(t, k + 2) is Underscore
}

/// Whether a token cannot begin a declaration's value: the end of the
/// stream, a line break, a semicolon or the end marker.
pub open spec fn blank_value<'src>(t: Token<'src>) -> bool {
    t is Error || t is Newline || t is Semicolon || t is Eof
}

/// The outcome of a variable declaration: with `k` the position after
/// `let` and its modifiers and `j` where its `=` would stand, it is refused
/// for a missing name exactly when no name is at `k`; otherwise for a
/// missing value exactly when `=` stands at `j` with nothing after it; otherwise
/// for a type that cannot be inferred exactly when there is no `=` and the
/// type is left to inference; otherwise it is a declaration.
pub proof fn law_declaration_outcome<'src, 't>(cx: ParseContext<'src, 't>, st: ParseState<'t, 'src>)
    requires
        st.pos < cx.tokens.len(),
        cx.tokens[st.pos as int] == Token::<'src>::Let,
    ensures
        ({
            let t = cx.tokens;
            let k = after_modifiers(t, st.pos + 1int);
            let j = after_type(t, k);
            let named = token_or_error(t, k) is Identifier;
            let assigned = token_is(t, j, Token::Assign);
            let r = cx.let_decl(st).1;
            &&& !named ==> r == Err::<StmtTree<'src>, SyntaxError<'src>>(missing_expected("let must have an identifier afterwards"))
            &&& named && assigned && blank_value(token_or_error(t, j + 1)) ==> r == Err::<StmtTree<'src>, SyntaxError<'src>>(
                missing_expected("expected expression after '='"))
            &&& named && !assigned && type_inferred(t, k) ==> r == Err::<StmtTree<'src>, SyntaxError<'src>>(
                missing_expected("type cannot be inferred without a right hand side"))
            &&& named && (if assigned { !blank_value(token_or_error(t, j + 1)) } else { !type_inferred(t, k) }) ==> r matches Ok(
                StmtTree::VarDecl { .. })
        }),
{
    let t = cx.tokens;
    let s1 = cx.advance(st);
    let k = after_modifiers(t, st.pos + 1int);
    let (s2, c) = cx.modifier(s1, Token::Const);
    let (s3, g) = cx.modifier(s2, Token::Static);
    let (s4, m) = cx.modifier(s3, Token::Mutable);
    assert(s4.pos == k);
    let s5 = if c && m {
        cx.error(s4, SyntaxError::Parse(ParseError::ConstDisallowed("constant cannot be used in tandem with mutable.")))
    } else {
        s4
    };
    let s6 = if c && g {
        cx.error(s5, SyntaxError::Parse(ParseError::ConstDisallowed("constant cannot be used in tandem with static.")))
    } else {
        s5
    };
    assert(s6.pos == k);
    if token_or_error(t, k) is Identifier {
        let s7 = cx.advance(s6);
        assert(s7.pos == k + 1);
        if cx.is(s7, Token::Colon) {
            let s = cx.advance(s7);
            lemma_type_tokens(cx.cur(s));
            assert(cx.type_ann(s).0.pos == after_type(t, k));
            assert((cx.type_ann(s).1 == Type::<'src>::Inferred) == type_inferred(t, k));
        }
    }
}

/// An assignment is accepted exactly when the value is assignable to the
/// target and, for a compound operator, the target is numeric (`+=` and the
/// other arithmetic ones) or integral (`&=` and the other bitwise ones). A
/// refused plain assignment is a type mismatch, a refused compound one an
/// invalid operation.
pub proof fn law_assignment_check(op: AssignOp, target: TypeView, rhs: TypeView)
    ensures
        (assign_check(op, target, rhs) is Ok) == (assignable(target, rhs) && match op {
            AssignOp::Assign => true,
            AssignOp::PlusEq | AssignOp::MinusEq | AssignOp::StarEq | AssignOp::SlashEq | AssignOp::PercentEq => rank_of(target) is Some,
            _ => integral(target),
        }),
        assign_check(op, target, rhs) is Err && op == AssignOp::Assign ==> assign_check(op, target, rhs)->Err_0 is TypeMismatch,
        assign_check(op, target, rhs) is Err && op != AssignOp::Assign ==> assign_check(op, target, rhs)->Err_0 is InvalidOperation,
{
}

/// An `if` has a type exactly when its condition is a `bool` and its branch
/// has a type: `()` without `else`, the type of the `else` branch with one;
/// it is then that type. A condition of another type is reported as a
/// mismatch, and the `if` has no type.
pub proof fn law_if_typing<'a, 'src>(
    cx: AnalysisContext<'a, 'src>,
    st: AnalysisState<'a, 'src>,
    cond: Expr<'src>,
    then: Expr<'src>,
    else_: Option<Expr<'src>>,
    expected: Option<TypeView>,
)
    ensures
        ({
            let (s1, ct) = cx.infer_step(st, cond, Some(TypeView::Bool));
            let hint = if else_ is Some { expected } else { Some(TypeView::Unit) };
            let (s2, tt) = cx.infer_step(s1, then, hint);
            let (after, r) = cx.if_step(st, cond, then, else_, expected);
            &&& r is Some <==> (ct == Some(TypeView::Bool) && tt is Some && match else_ {
                None => tt == Some(TypeView::Unit),
                Some(x) => cx.infer_step(s2, x, expected).1 == tt,
            })
            &&& r is Some ==> r == tt
            &&& ct is Some && ct != Some(TypeView::Bool) ==> r is None && after == cx.semantic(s1, expr_span(cond),
                SemanticError::TypeMismatch("if condition must evaluate to bool"))
        }),
{
}

/// A call whose function type has another number of parameters than the
/// call has arguments is reported, at the function, and has no type.
pub proof fn law_call_argument_count<'a, 'src>(
    cx: AnalysisContext<'a, 'src>,
    st: AnalysisState<'a, 'src>,
    func: Expr<'src>,
    args: Seq<Expr<'src>>,
    params: Seq<TypeView>,
    ret: Box<TypeView>,
)
    requires
        cx.infer_step(st, func, None).1 == Some(TypeView::Func { params, ret }),
        params.len() != args.len(),
    ensures
        cx.call_step(st, func, args) == (
            cx.semantic(cx.infer_step(st, func, None).0, expr_span(func), SemanticError::InvalidOperation(
                "function call argument count does not match parameter count")),
            None::<TypeView>,
        ),
{
}

/// Whether `t` is the prefix form of the unary operator `op`.
pub open spec fn prefix_token(t: Token, op: UnaryOp) -> bool {
    ||| t == Token::Minus && op == UnaryOp::Neg
    ||| t == Token::MinusMinus && op == UnaryOp::PreDec
    ||| t == Token::PlusPlus && op == UnaryOp::PreInc
    ||| t == Token::LogicalNot && op == UnaryOp::Not
    ||| t == Token::BitNot && op == UnaryOp::BitNot
}

/// A prefix operator binds tighter than every binary operator: at the end
/// of the stream, `-x op y` (or `!x op y`, `~x op y`, `++x op y`,
/// `--x op y`) reads as `(-x) op y`.
pub proof fn law_prefix_binds_tighter<'src, 't>(
    cx: ParseContext<'src, 't>,
    st: ParseState<'t, 'src>,
    t0: Token<'src>,
    uop: UnaryOp,
    x: &'src str,
    y: &'src str,
    t: Token<'src>,
    op: BinOp,
    p: u8,
)
    requires
        st.pos + 4 == cx.tokens.len(),
        prefix_token(t0, uop),
        cx.tokens[st.pos as int] == t0,
        cx.tokens[st.pos + 1int] == Token::Identifier(x),
        cx.tokens[st.pos + 2int] == t,
        cx.tokens[st.pos + 3int] == Token::Identifier(y),
        infix_of(t) == Some((p, InfixKind::Binary(op))),
    ensures
        cx.expr(st, 0).1 == (ExprTree::Binary {
            op,
            lhs: Box::new(ExprTree::Unary {
                op: uop,
                expr: Box::new(ExprTree::Ident(Ident(x, cx.here(ParseState { pos: st.pos + 1, errors: st.errors })))),
            }),
            rhs: Box::new(ExprTree::Ident(Ident(y, cx.here(ParseState { pos: st.pos + 3, errors: st.errors })))),
        }),
{
    assert(postfix_power(t) == 0 && t != Token::<'src>::DotDot && p < 12);
    let s1 = cx.advance(st);
    let s2 = cx.advance(s1);
    let ex = ExprTree::Ident(Ident(x, cx.here(s1)));
    assert(cx.prefix(s1) == (s2, ex));
    assert(cx.expr_loop(s2, ex, 12) == (s2, ex));
    assert(cx.expr(s1, 12) == (s2, ex));
    let u = ExprTree::Unary { op: uop, expr: Box::new(ex) };
    assert(cx.prefix(st) == (s2, u));
    let s3 = cx.advance(s2);
    let s4 = cx.advance(s3);
    let ey = ExprTree::Ident(Ident(y, cx.here(s3)));
    assert(cx.prefix(s3) == (s4, ey));
    assert(cx.expr_loop(s4, ey, (p + 1) as u8) == (s4, ey));
    assert(cx.expr(s3, (p + 1) as u8) == (s4, ey));
    let b = ExprTree::Binary { op, lhs: Box::new(u), rhs: Box::new(ey) };
    assert(cx.expr_loop(s4, b, 0) == (s4, b));
    assert(cx.expr_loop(s2, u, 0) == (s4, b));
    assert(cx.expr(st, 0) == (s4, b));
}

/// A tighter operator takes its operands first: at the end of the stream,
/// `a op1 b op2 c` with `op2` binding tighter than `op1` reads as
/// `a op1 (b op2 c)`, and with `op1` binding tighter as `(a op1 b) op2 c`.
pub proof fn law_precedence_climbing<'src, 't>(
    cx: ParseContext<'src, 't>,
    st: ParseState<'t, 'src>,
    a: &'src str,
    b: &'src str,
    c: &'src str,
    t1: Token<'src>,
    t2: Token<'src>,
    o1: BinOp,
    o2: BinOp,
    p1: u8,
    p2: u8,
)
    requires
        st.pos + 5 == cx.tokens.len(),
        cx.tokens[st.pos as int] == Token::Identifier(a),
        cx.tokens[st.pos + 1int] == t1,
        cx.tokens[st.pos + 2int] == Token::Identifier(b),
        cx.tokens[st.pos + 3int] == t2,
        cx.tokens[st.pos + 4int] == Token::Identifier(c),
        infix_of(t1) == Some((p1, InfixKind::Binary(o1))),
        infix_of(t2) == Some((p2, InfixKind::Binary(o2))),
    ensures
        ({
            let ea = ExprTree::Ident(Ident(a, cx.here(st)));
            let eb = ExprTree::Ident(Ident(b, cx.here(ParseState { pos: st.pos + 2, errors: st.errors })));
            let ec = ExprTree::Ident(Ident(c, cx.here(ParseState { pos: st.pos + 4, errors: st.errors })));
            &&& p1 < p2 ==> cx.expr(st, 0).1 == (ExprTree::Binary {
                op: o1,
                lhs: Box::new(ea),
                rhs: Box::new(ExprTree::Binary { op: o2, lhs: Box::new(eb), rhs: Box::new(ec) }),
            })
            &&& p1 >= p2 ==> cx.expr(st, 0).1 == (ExprTree::Binary {
                op: o2,
                lhs: Box::new(ExprTree::Binary { op: o1, lhs: Box::new(ea), rhs: Box::new(eb) }),
                rhs: Box::new(ec),
            })
        }),
{
    assert(postfix_power(t1) == 0 && t1 != Token::<'src>::DotDot);
    assert(postfix_power(t2) == 0 && t2 != Token::<'src>::DotDot);
    assert(p1 < 12 && p2 < 12);
    let s1 = cx.advance(st);
    let ea = ExprTree::Ident(Ident(a, cx.here(st)));
    assert(cx.prefix(st) == (s1, ea));
    let s2 = cx.advance(s1);
    let s3 = cx.advance(s2);
    let eb = ExprTree::Ident(Ident(b, cx.here(s2)));
    assert(cx.prefix(s2) == (s3, eb));
    let s4 = cx.advance(s3);
    let s5 = cx.advance(s4);
    let ec = ExprTree::Ident(Ident(c, cx.here(s4)));
    assert(cx.prefix(s4) == (s5, ec));
    assert(cx.expr_loop(s5, ec, (p2 + 1) as u8) == (s5, ec));
    assert(cx.expr(s4, (p2 + 1) as u8) == (s5, ec));
    if p1 < p2 {
        let inner = ExprTree::Binary { op: o2, lhs: Box::new(eb), rhs: Box::new(ec) };
        assert(cx.expr_loop(s5, inner, (p1 + 1) as u8) == (s5, inner));
        assert(cx.expr_loop(s3, eb, (p1 + 1) as u8) == (s5, inner));
        assert(cx.expr(s2, (p1 + 1) as u8) == (s5, inner));
        let outer = ExprTree::Binary { op: o1, lhs: Box::new(ea), rhs: Box::new(inner) };
        assert(cx.expr_loop(s5, outer, 0) == (s5, outer));
        assert(cx.expr_loop(s1, ea, 0) == (s5, outer));
        assert(cx.expr(st, 0) == (s5, outer));
    } else {
        assert(cx.expr_loop(s3, eb, (p1 + 1) as u8) == (s3, eb));
        assert(cx.expr(s2, (p1 + 1) as u8) == (s3, eb));
        let l2 = ExprTree::Binary { op: o1, lhs: Box::new(ea), rhs: Box::new(eb) };
        assert(cx.expr_loop(s1, ea, 0) == cx.expr_loop(s3, l2, 0));
        let l3 = ExprTree::Binary { op: o2, lhs: Box::new(l2), rhs: Box::new(ec) };
        assert(cx.expr_loop(s5, l3, 0) == (s5, l3));
        assert(cx.expr_loop(s3, l2, 0) == (s5, l3));
        assert(cx.expr(st, 0) == (s5, l3));
    }
}

/// A call argument is checked with the parameter as the expected side: an
/// argument whose type is assignable to its parameter's (or whose
/// parameter is inferred) is accepted and the next one is checked; any
/// other typed argument is reported as a mismatch, at the argument, and the
/// call fails there. Within one numeric family this means that an argument
/// no wider than its parameter is accepted and a wider one refused.
pub proof fn law_argument_against_parameter<'a, 'src>(
    cx: AnalysisContext<'a, 'src>,
    st: AnalysisState<'a, 'src>,
    args: Seq<Expr<'src>>,
    params: Seq<TypeView>,
)
    requires
        args.len() > 0,
        params.len() > 0,
    ensures
        ({
            let p = params[0];
            let (s1, at) = cx.infer_step(st, args[0], Some(p));
            let rest = cx.args_step(s1, args.drop_first(), params.drop_first());
            let refused = (cx.semantic(s1, expr_span(args[0]), SemanticError::TypeMismatch(
                "function argument type is not assignable to parameter type")), false);
            &&& (at matches Some(a) && (p == TypeView::Inferred || assignable(p, a))) ==> cx.args_step(st, args, params) == rest
            &&& (at matches Some(a) && p != TypeView::Inferred && !assignable(p, a)) ==> cx.args_step(st, args, params) == refused
            &&& at is None ==> cx.args_step(st, args, params) == (s1, false)
            &&& (at matches Some(a) && family_of(a) is Some && family_of(a) == family_of(p) && rank_of(a)->0 <= rank_of(p)->0)
                ==> cx.args_step(st, args, params) == rest
            &&& (at matches Some(a) && family_of(a) is Some && family_of(a) == family_of(p) && rank_of(a)->0 > rank_of(p)->0)
                ==> cx.args_step(st, args, params) == refused
        }),
{
}

/// A call of a one-parameter function with one argument has the function's
/// return type exactly when the argument has a type assignable to the
/// parameter's (or the parameter is inferred); a typed argument that is not
/// is reported as a mismatch at the argument. So an `i8` argument passes
/// for an `i64` parameter, and an `i64` argument is refused for an `i8` one.
pub proof fn law_call_one_argument<'a, 'src>(
    cx: AnalysisContext<'a, 'src>,
    st: AnalysisState<'a, 'src>,
    func: Expr<'src>,
    arg: Expr<'src>,
    p: TypeView,
    ret: Box<TypeView>,
)
    requires
        cx.infer_step(st, func, None).1 == Some(TypeView::Func { params: seq![p], ret }),
    ensures
        ({
            let s1 = cx.infer_step(st, func, None).0;
            let (s2, at) = cx.infer_step(s1, arg, Some(p));
            &&& cx.call_step(st, func, seq![arg]) == if at matches Some(a) && (p == TypeView::Inferred || assignable(p, a)) {
                (s2, Some(*ret))
            } else if at is Some {
                (cx.semantic(s2, expr_span(arg), SemanticError::TypeMismatch(
                    "function argument type is not assignable to parameter type")), None)
            } else {
                (s2, None)
            }
            &&& p == TypeView::I64 && at == Some(TypeView::I8) ==> cx.call_step(st, func, seq![arg]).1 == Some(*ret)
            &&& p == TypeView::I8 && at == Some(TypeView::I64) ==> cx.call_step(st, func, seq![arg]).1 is None
        }),
{
    let s1 = cx.infer_step(st, func, None).0;
    let args = seq![arg];
    let params = seq![p];
    assert(args.drop_first() =~= Seq::<Expr<'src>>::empty());
    assert(args[0] == arg);
    assert(params[0] == p);
    law_argument_against_parameter(cx, s1, args, params);
}

/// Integer constants fold by the mathematical operations: with `l` and `r`
/// folding to `x` and `y`, `l + r`, `l - r` and `l * r` fold to `x + y`,
/// `x - y` and `x * y` when that fits in `i128` and to nothing otherwise;
/// for `x >= 0` and `y > 0`, `l / r` and `l % r` fold to the quotient and
/// remainder, and both fold to nothing for `y == 0`; the comparisons fold
/// to the comparison of `x` and `y`.
pub proof fn law_integer_folding<'src>(
    floats: Seq<(&'src str, FloatRange)>,
    scopes: Seq<Seq<(&'src str, BindingView)>>,
    op: BinOp,
    l: Expr<'src>,
    r: Expr<'src>,
    x: i128,
    y: i128,
)
    requires
        const_eval(floats, scopes, l) == Some(ConstValue::Int(x)),
        const_eval(floats, scopes, r) == Some(ConstValue::Int(y)),
    ensures
        ({
            let v = const_eval(floats, scopes, Expr::Binary { op, lhs: Box::new(l), rhs: Box::new(r) });
            let fits = |n: int| i128::MIN <= n <= i128::MAX;
            &&& op == BinOp::Add ==> v == if fits(x + y) { Some(ConstValue::Int((x + y) as i128)) } else { None }
            &&& op == BinOp::Sub ==> v == if fits(x - y) { Some(ConstValue::Int((x - y) as i128)) } else { None }
            &&& op == BinOp::Mul ==> v == if fits(x * y) { Some(ConstValue::Int((x * y) as i128)) } else { None }
            &&& op == BinOp::Div && x >= 0 && y > 0 ==> v == Some(ConstValue::Int((x / y) as i128))
            &&& op == BinOp::Mod && x >= 0 && y > 0 ==> v == Some(ConstValue::Int((x % y) as i128))
            &&& (op == BinOp::Div || op == BinOp::Mod) && y == 0 ==> v is None
            &&& op == BinOp::Eq ==> v == Some(ConstValue::Bool(x == y))
            &&& op == BinOp::NotEq ==> v == Some(ConstValue::Bool(x != y))
            &&& op == BinOp::Less ==> v == Some(ConstValue::Bool(x < y))
            &&& op == BinOp::LessEq ==> v == Some(ConstValue::Bool(x <= y))
            &&& op == BinOp::Greater ==> v == Some(ConstValue::Bool(x > y))
            &&& op == BinOp::GreaterEq ==> v == Some(ConstValue::Bool(x >= y))
            &&& op == BinOp::And || op == BinOp::Or ==> v is None
        }),
{
    let v = const_eval(floats, scopes, Expr::Binary { op, lhs: Box::new(l), rhs: Box::new(r) });
    assert(v == crate::analyzer::int_binary(op, x, y));
    if x >= 0 && y > 0 {
        assert(0 <= x / y <= x) by (nonlinear_arith)
            requires x >= 0, y > 0;
        assert(0 <= x % y < y) by (nonlinear_arith)
            requires x >= 0, y > 0;
        assert(x.checked_div(y) == Some((x / y) as i128));
        assert(x == 0 ==> x % y == 0 && x / y == 0) by (nonlinear_arith)
            requires y > 0;
        assert(x.checked_rem(y) == Some((x % y) as i128));
    }
}

/// Boolean constants fold by the logical operations: with `l` and `r`
/// folding to `a` and `b`, `l && r`, `l || r`, `l == r` and `l != r` fold
/// to `a && b`, `a || b`, `a == b` and `a != b`; arithmetic does not fold.
pub proof fn law_boolean_folding<'src>(
    floats: Seq<(&'src str, FloatRange)>,
    scopes: Seq<Seq<(&'src str, BindingView)>>,
    op: BinOp,
    l: Expr<'src>,
    r: Expr<'src>,
    a: bool,
    b: bool,
)
    requires
        const_eval(floats, scopes, l) == Some(ConstValue::Bool(a)),
        const_eval(floats, scopes, r) == Some(ConstValue::Bool(b)),
    ensures
        ({
            let v = const_eval(floats, scopes, Expr::Binary { op, lhs: Box::new(l), rhs: Box::new(r) });
            &&& op == BinOp::And ==> v == Some(ConstValue::Bool(a && b))
            &&& op == BinOp::Or ==> v == Some(ConstValue::Bool(a || b))
            &&& op == BinOp::Eq ==> v == Some(ConstValue::Bool(a == b))
            &&& op == BinOp::NotEq ==> v == Some(ConstValue::Bool(a != b))
            &&& op == BinOp::Add || op == BinOp::Sub || op == BinOp::Less ==> v is None
        }),
{
}

/// Prefix operators fold by their mathematical meaning: negation of an
/// integer constant `x` gives `-x` (nothing for `i128::MIN`, whose
/// negation does not fit), `!` of a boolean its complement, and `~` of an
/// integer `-x - 1`.
pub proof fn law_prefix_folding<'src>(
    floats: Seq<(&'src str, FloatRange)>,
    scopes: Seq<Seq<(&'src str, BindingView)>>,
    e: Expr<'src>,
    x: i128,
    b: bool,
)
    ensures
        const_eval(floats, scopes, e) == Some(ConstValue::Int(x)) ==> {
            &&& const_eval(floats, scopes, Expr::Unary { op: UnaryOp::Neg, expr: Box::new(e) })
                == if x == i128::MIN { None } else { Some(ConstValue::Int((-x) as i128)) }
            &&& const_eval(floats, scopes, Expr::Unary { op: UnaryOp::BitNot, expr: Box::new(e) })
                == Some(ConstValue::Int((-x - 1) as i128))
        },
        const_eval(floats, scopes, e) == Some(ConstValue::Bool(b)) ==>
            const_eval(floats, scopes, Expr::Unary { op: UnaryOp::Not, expr: Box::new(e) }) == Some(ConstValue::Bool(!b)),
{
    assert(!x == -x - 1) by (bit_vector);
}

/// In the declaration analyzer every comparison and logical operator gives
/// `bool`, whatever its operand types; an arithmetic or bitwise operator on
/// two operands of one type gives that type.
pub proof fn law_operator_types(op: BinOp, l: TypeView, r: TypeView, t: TypeView)
    ensures
        (op == BinOp::Eq || op == BinOp::NotEq || op == BinOp::Less || op == BinOp::LessEq
            || op == BinOp::Greater || op == BinOp::GreaterEq || op == BinOp::And || op == BinOp::Or)
            ==> binary_view(op, l, r) == Some(TypeView::Bool),
        (op == BinOp::Add || op == BinOp::Sub || op == BinOp::Mul || op == BinOp::Div || op == BinOp::Mod
            || op == BinOp::Power || op == BinOp::BitAnd || op == BinOp::BitOr || op == BinOp::BitXor
            || op == BinOp::Shl || op == BinOp::Shr) ==> binary_view(op, t, t) == Some(t),
{
}

/// A declaration `let name = lhs op rhs` whose operands both have a type,
/// with `op` a comparison or logical operator, gives `name` the type
/// `bool` in the declaration analyzer.
pub proof fn law_comparison_declares_bool<'src>(
    resolved: Seq<(&'src str, usize)>,
    types: Map<Seq<char>, TypeView>,
    name: Ident<'src>,
    op: BinOp,
    lhs: Expr<'src>,
    rhs: Expr<'src>,
    mutable: bool,
    constant: bool,
    global: bool,
)
    requires
        op == BinOp::Eq || op == BinOp::NotEq || op == BinOp::Less || op == BinOp::LessEq
            || op == BinOp::Greater || op == BinOp::GreaterEq || op == BinOp::And || op == BinOp::Or,
        expr_view(types, lhs) is Some,
        expr_view(types, rhs) is Some,
    ensures
        decl_step(resolved, types, Stmt::VarDecl {
            name,
            typ: Type::Inferred,
            init: Some(Expr::Binary { op, lhs: Box::new(lhs), rhs: Box::new(rhs) }),
            mutable,
            constant,
            global,
        }).1 == types.insert(name.0@, TypeView::Bool),
{
    law_operator_types(op, expr_view(types, lhs)->0, expr_view(types, rhs)->0, TypeView::Bool);
}

/// An integer constant fits an integer type exactly when it lies within
/// that type's range, from its `MIN` to its `MAX`; otherwise it overflows
/// the type. Every integer constant fits a floating-point type, and none
/// fits `bool`, `char`, `str` or `()`.
pub proof fn law_integer_fits_range(v: i128)
    ensures
        const_fit_spec(TypeView::I8, ConstValue::Int(v)) == if i8::MIN <= v <= i8::MAX { ConstFit::Fits } else { ConstFit::Overflow },
        const_fit_spec(TypeView::I16, ConstValue::Int(v)) == if i16::MIN <= v <= i16::MAX { ConstFit::Fits } else { ConstFit::Overflow },
        const_fit_spec(TypeView::I32, ConstValue::Int(v)) == if i32::MIN <= v <= i32::MAX { ConstFit::Fits } else { ConstFit::Overflow },
        const_fit_spec(TypeView::I64, ConstValue::Int(v)) == if i64::MIN <= v <= i64::MAX { ConstFit::Fits } else { ConstFit::Overflow },
        const_fit_spec(TypeView::U8, ConstValue::Int(v)) == if u8::MIN <= v <= u8::MAX { ConstFit::Fits } else { ConstFit::Overflow },
        const_fit_spec(TypeView::U16, ConstValue::Int(v)) == if u16::MIN <= v <= u16::MAX { ConstFit::Fits } else { ConstFit::Overflow },
        const_fit_spec(TypeView::U32, ConstValue::Int(v)) == if u32::MIN <= v <= u32::MAX { ConstFit::Fits } else { ConstFit::Overflow },
        const_fit_spec(TypeView::U64, ConstValue::Int(v)) == if u64::MIN <= v <= u64::MAX { ConstFit::Fits } else { ConstFit::Overflow },
        const_fit_spec(TypeView::F32, ConstValue::Int(v)) == ConstFit::Fits,
        const_fit_spec(TypeView::F64, ConstValue::Int(v)) == ConstFit::Fits,
        const_fit_spec(TypeView::Bool, ConstValue::Int(v)) == ConstFit::Incompatible,
        const_fit_spec(TypeView::Char, ConstValue::Int(v)) == ConstFit::Incompatible,
        const_fit_spec(TypeView::Str, ConstValue::Int(v)) == ConstFit::Incompatible,
        const_fit_spec(TypeView::Unit, ConstValue::Int(v)) == ConstFit::Incompatible,
{
}

/// A call of a value that is not a function is reported, at the callee, as
/// an invalid operation and has no type; a callee without a type gives the
/// call none, with nothing more reported.
pub proof fn law_call_non_function<'a, 'src>(
    cx: AnalysisContext<'a, 'src>,
    st: AnalysisState<'a, 'src>,
    func: Expr<'src>,
    args: Seq<Expr<'src>>,
)
    ensures
        ({
            let (s1, ft) = cx.infer_step(st, func, None);
            &&& (ft is Some && !(ft->0 is Func)) ==> cx.call_step(st, func, args) == (
                cx.semantic(s1, expr_span(func), SemanticError::InvalidOperation("attempted to call a non-function value")),
                None::<TypeView>,
            )
            &&& ft is None ==> cx.call_step(st, func, args) == (s1, None::<TypeView>)
        }),
{
}

/// How the analyzer types an operator from its operand types: an ordering
/// comparison gives `bool` exactly when both operands are numeric, `==` and
/// `!=` when both are numeric or the two types are equal, `&&` and `||`
/// when both are `bool`; arithmetic on two numeric operands of one family
/// gives the wider of the two, and on two operands of one type that type;
/// a bitwise operator needs integer operands. Every refusal is an invalid
/// operation.
pub proof fn law_operator_checking(op: BinOp, l: TypeView, r: TypeView)
    ensures
        (op == BinOp::Less || op == BinOp::LessEq || op == BinOp::Greater || op == BinOp::GreaterEq) ==>
            (binary_check(op, l, r) == Ok::<TypeView, SemanticError<'static>>(TypeView::Bool)) == (rank_of(l) is Some && rank_of(r) is Some),
        (op == BinOp::Eq || op == BinOp::NotEq) ==>
            (binary_check(op, l, r) == Ok::<TypeView, SemanticError<'static>>(TypeView::Bool)) == ((rank_of(l) is Some && rank_of(r) is Some) || l == r),
        (op == BinOp::And || op == BinOp::Or) ==>
            (binary_check(op, l, r) == Ok::<TypeView, SemanticError<'static>>(TypeView::Bool)) == (l == TypeView::Bool && r == TypeView::Bool),
        (op == BinOp::Add || op == BinOp::Sub || op == BinOp::Mul || op == BinOp::Div || op == BinOp::Mod || op == BinOp::Power) ==> {
            &&& binary_check(op, l, l) == Ok::<TypeView, SemanticError<'static>>(l)
            &&& family_of(l) is Some && family_of(l) == family_of(r) ==> binary_check(op, l, r)
                == Ok::<TypeView, SemanticError<'static>>(if rank_of(l)->0 >= rank_of(r)->0 { l } else { r })
        },
        (op == BinOp::BitAnd || op == BinOp::BitOr || op == BinOp::BitXor || op == BinOp::Shl || op == BinOp::Shr) ==> {
            &&& binary_check(op, l, r) is Ok ==> integral(l) && integral(r)
            &&& integral(l) && family_of(l) == family_of(r) ==> binary_check(op, l, r)
                == Ok::<TypeView, SemanticError<'static>>(if rank_of(l)->0 >= rank_of(r)->0 { l } else { r })
        },
        binary_check(op, l, r) is Err ==> binary_check(op, l, r)->Err_0 is InvalidOperation,
{
}

/// A declaration with a written type whose initializer folds to a constant
/// that fits that type is declared with the written type and holds the
/// constant; so `let port: u16 = 8080` declares `port` as a `u16`.
pub proof fn law_declaration_constant_fits<'a, 'src>(
    cx: AnalysisContext<'a, 'src>,
    st: AnalysisState<'a, 'src>,
    name: Ident<'src>,
    typ: Type<'src>,
    e: Expr<'src>,
    v: ConstValue,
    mutable: bool,
    constant: bool,
    global: bool,
)
    requires
        typ@ != TypeView::Inferred,
        const_eval(cx.floats, st.scopes, e) == Some(v),
        const_fit_spec(typ@, v) == ConstFit::Fits,
    ensures
        cx.decl_step(st, Stmt::VarDecl { name, typ, init: Some(e), mutable, constant, global })
            == cx.declare_step(st, name, typ@, mutable, Some(v)).0,
{
}

/// A declaration with a written type whose initializer folds to a constant
/// that overflows that type, and whose initializer's own type cannot be
/// stored in it, is reported as an overflow at the declared name, and
/// nothing is declared.
pub proof fn law_declaration_constant_overflows<'a, 'src>(
    cx: AnalysisContext<'a, 'src>,
    st: AnalysisState<'a, 'src>,
    name: Ident<'src>,
    typ: Type<'src>,
    e: Expr<'src>,
    v: ConstValue,
    a: TypeView,
    mutable: bool,
    constant: bool,
    global: bool,
)
    requires
        typ@ != TypeView::Inferred,
        const_eval(cx.floats, st.scopes, e) == Some(v),
        const_fit_spec(typ@, v) == ConstFit::Overflow,
        cx.infer_step(st, e, Some(typ@)).1 == Some(a),
        !assignable(typ@, a),
    ensures
        cx.decl_step(st, Stmt::VarDecl { name, typ, init: Some(e), mutable, constant, global })
            == cx.semantic(cx.infer_step(st, e, Some(typ@)).0, name.1,
                SemanticError::Overflow("initializer constant overflows the declared type")),
{
}

/// In the declaration analyzer, a declaration without a written type takes
/// its initializer's type; one with a written type keeps it when the
/// initializer's type can be stored in it (or there is no initializer) and
/// gets none otherwise; without either nothing comes out. `!` gives `bool`
/// whatever its operand, `~` keeps an integer type, negation a numeric one.
pub proof fn law_declared_types<'src>(
    types: Map<Seq<char>, TypeView>,
    typ: Type<'src>,
    init: Option<Expr<'src>>,
    op: UnaryOp,
    t: TypeView,
)
    ensures
        typ is Inferred && init is None ==> declared_view(types, typ, init) is None,
        (typ is Inferred && init is Some && expr_view(types, init->0) is Some && expr_view(types, init->0)->0 != TypeView::Error)
            ==> declared_view(types, typ, init) == expr_view(types, init->0),
        (!(typ is Inferred) && typ@ != TypeView::Error && init is None) ==> declared_view(types, typ, init) == Some(typ@),
        (!(typ is Inferred) && typ@ != TypeView::Error && init is Some && expr_view(types, init->0) is Some) ==>
            declared_view(types, typ, init) == if assignable(typ@, expr_view(types, init->0)->0) { Some(typ@) } else { None },
        crate::decl_analyzer::unary_view(UnaryOp::Not, t) == Some(TypeView::Bool),
        crate::decl_analyzer::unary_view(UnaryOp::BitNot, t) == if integral(t) { Some(t) } else { None },
        crate::decl_analyzer::unary_view(UnaryOp::Neg, t) == if rank_of(t) is Some { Some(t) } else { None },
{
}

} // verus!
