//! What semantic analysis computes, stated as functions from an analysis
//! state to the next: the diagnostics it records, the names it declares,
//! the constants it remembers and the types it gives expressions.

use vstd::prelude::*;

use core::ops::Range;

use crate::analyzer::{
    assign_check, assignable, binary_check, const_eval, const_fit_spec, decl_type, expr_size, exprs_size,
    func_type_view, integral, literal_type_hinted, opt_expr_size, opt_size, rank_of, sanitized, scopes_locate,
    scopes_lookup, signed_numeric, stmt_size, stmts_size, typed_entry, AnalysisState, BindingView, ConstFit,
    ConstValue, find_in, FloatRange,
};
use crate::ast::{expr_span, lhs_span, AssignOp, Expr, Ident, LeftSide, Stmt, Type, TypeView, UnaryOp};
use crate::diagnostic::Diagnostic;
use crate::errors::{SemanticError, SyntaxError};

verus! {

/// What stays fixed during an analysis: where diagnostics point, the types
/// of the top-level functions, and what is known of the floating-point
/// literals' values.
pub struct AnalysisContext<'a, 'src> {
    pub path: &'a str,
    pub src: &'src str,
    pub functions: Seq<(&'src str, Type<'src>)>,
    /// what is known of the floating-point literals' values
    pub floats: Seq<(&'src str, FloatRange)>,
}

impl<'a, 'src> AnalysisContext<'a, 'src> {
    /// `st` with a diagnostic for `err` over `span` recorded.
    pub open spec fn with_error(&self, st: AnalysisState<'a, 'src>, span: Range<usize>, err: SyntaxError<'src>) -> AnalysisState<'a, 'src> {
        AnalysisState {
            scopes: st.scopes,
            errors: st.errors.push(Diagnostic { path: self.path, src: self.src, span, err }),
            next: st.next,
        }
    }

    /// A semantic error over `span`.
    pub open spec fn semantic(&self, st: AnalysisState<'a, 'src>, span: Range<usize>, err: SemanticError<'src>) -> AnalysisState<'a, 'src> {
        self.with_error(st, span, SyntaxError::Semantic(err))
    }

    /// The type a name has: its binding's, or else the top-level function's.
    pub open spec fn name_type(&self, st: AnalysisState<'a, 'src>, name: Seq<char>) -> Option<TypeView> {
        match scopes_lookup(st.scopes, name) {
            Some(b) => Some(b.typ),
            None => typed_entry(self.functions, name),
        }
    }

    /// Resolving a name: its type, or an unknown-identifier report.
    pub open spec fn ident_step(&self, st: AnalysisState<'a, 'src>, ident: Ident<'src>) -> (AnalysisState<'a, 'src>, Option<TypeView>) {
        match self.name_type(st, ident.0@) {
            Some(t) => (st, Some(t)),
            None => (self.semantic(st, ident.1, SemanticError::UnknownIdentifier(ident.0)), None),
        }
    }

    /// Requiring a name to be a mutable variable; an immutable-binding
    /// report otherwise.
    pub open spec fn mutable_step(&self, st: AnalysisState<'a, 'src>, ident: Ident<'src>) -> (AnalysisState<'a, 'src>, bool) {
        if scopes_lookup(st.scopes, ident.0@) matches Some(b) && b.mutable {
            (st, true)
        } else {
            (self.semantic(st, ident.1, SemanticError::ImmutableBinding(ident.0)), false)
        }
    }

    /// The target of an assignment: a known, mutable plain variable, with
    /// its type.
    pub open spec fn target_step(&self, st: AnalysisState<'a, 'src>, lhs: LeftSide<'src>) -> (AnalysisState<'a, 'src>, Option<(&'src str, TypeView)>) {
        match lhs {
            LeftSide::Var(ident) => {
                let (s1, t) = self.ident_step(st, ident);
                match t {
                    Some(t) => {
                        let (s2, ok) = self.mutable_step(s1, ident);
                        if ok {
                            (s2, Some((ident.0, t)))
                        } else {
                            (s2, None)
                        }
                    },
                    None => (s1, None),
                }
            },
            _ => (self.semantic(st, lhs_span(lhs), SemanticError::InvalidOperation(
                "assignment analysis currently only supports plain variable targets")), None),
        }
    }

    /// A unary operator on an operand of type `inner`.
    pub open spec fn unary_step(&self, st: AnalysisState<'a, 'src>, op: UnaryOp, expr: Expr<'src>, inner: TypeView) -> (AnalysisState<'a, 'src>, Option<TypeView>) {
        let invalid = SemanticError::InvalidOperation("invalid unary operation for operand type");
        match op {
            UnaryOp::Not => if inner == TypeView::Bool {
                (st, Some(TypeView::Bool))
            } else {
                (self.semantic(st, expr_span(expr), invalid), None)
            },
            UnaryOp::BitNot => if integral(inner) {
                (st, Some(inner))
            } else {
                (self.semantic(st, expr_span(expr), invalid), None)
            },
            UnaryOp::Neg => if signed_numeric(inner) {
                (st, Some(inner))
            } else {
                (self.semantic(st, expr_span(expr), invalid), None)
            },
            _ => match expr {
                Expr::Ident(ident) => {
                    let (s1, ok) = self.mutable_step(st, ident);
                    if !ok {
                        (s1, None)
                    } else if rank_of(inner) is Some {
                        (s1, Some(inner))
                    } else {
                        (self.semantic(s1, expr_span(expr), invalid), None)
                    }
                },
                _ => (self.semantic(st, expr_span(expr), SemanticError::InvalidOperation(
                    "increment and decrement require a mutable variable target")), None),
            },
        }
    }

    /// `st` after the constant `value` of type `typ` is assigned with `op`
    /// to `name`: a plain assignment keeps the constant when it fits, a
    /// compound one forgets it.
    pub open spec fn store_step(&self, st: AnalysisState<'a, 'src>, name: &'src str, op: AssignOp, typ: TypeView, value: Option<ConstValue>) -> AnalysisState<'a, 'src> {
        let stored = match op {
            AssignOp::Assign => sanitized(typ, value),
            _ => None,
        };
        match scopes_locate(st.scopes, name@) {
            Some((k, i)) => AnalysisState {
                scopes: st.scopes.update(k, st.scopes[k].update(i, (st.scopes[k][i].0, BindingView {
                    id: st.scopes[k][i].1.id,
                    typ: st.scopes[k][i].1.typ,
                    mutable: st.scopes[k][i].1.mutable,
                    value: stored,
                }))),
                errors: st.errors,
                next: st.next,
            },
            None => st,
        }
    }

    /// Declaring `ident` in the innermost scope, with the next symbol number.
    pub open spec fn declare_step(&self, st: AnalysisState<'a, 'src>, ident: Ident<'src>, typ: TypeView, mutable: bool, value: Option<ConstValue>) -> (AnalysisState<'a, 'src>, bool) {
        if find_in(st.scopes.last(), ident.0@) is Some {
            (self.semantic(st, ident.1, SemanticError::InvalidOperation("identifier is already declared in this scope")), false)
        } else {
            (AnalysisState {
                scopes: st.scopes.update(st.scopes.len() - 1, st.scopes.last().push((ident.0, BindingView {
                    id: st.next,
                    typ,
                    mutable,
                    value: sanitized(typ, value),
                }))),
                errors: st.errors,
                next: st.next + 1,
            }, true)
        }
    }

    /// The type of an expression where a value of type `expected` is
    /// wanted, and the state after typing it.
    pub open spec fn infer_step(&self, st: AnalysisState<'a, 'src>, e: Expr<'src>, expected: Option<TypeView>) -> (AnalysisState<'a, 'src>, Option<TypeView>)
        decreases expr_size(e), 2nat,
    {
        match e {
            Expr::Literal(l) => (st, Some(literal_type_hinted(self.floats, l, expected))),
            Expr::Ident(ident) => self.ident_step(st, ident),
            Expr::Unary { op, expr } => {
                let (s1, t) = self.infer_step(st, *expr, expected);
                match t {
                    Some(inner) => self.unary_step(s1, op, *expr, inner),
                    None => (s1, None),
                }
            },
            Expr::Binary { op, lhs, rhs } => {
                let (s1, lt) = self.infer_step(st, *lhs, expected);
                match lt {
                    Some(l) => {
                        let (s2, rt) = self.infer_step(s1, *rhs, expected);
                        match rt {
                            Some(r) => match binary_check(op, l, r) {
                                Ok(t) => (s2, Some(t)),
                                Err(err) => (self.semantic(s2, expr_span(*lhs), err), None),
                            },
                            None => (s2, None),
                        }
                    },
                    None => (s1, None),
                }
            },
            Expr::Call { func, args } => self.call_step(st, *func, args@),
            Expr::Assign { op, lhs, rhs } => self.assign_step(st, op, lhs, *rhs),
            Expr::Block { stmts, tail } => {
                let t = match tail {
                    Some(x) => Some(*x),
                    None => None,
                };
                proof {
                    assert(opt_expr_size(t) == opt_size(tail));
                }
                self.block_step(st, stmts@, t, expected)
            },
            Expr::If { cond, then, else_ } => {
                let x = match else_ {
                    Some(x) => Some(*x),
                    None => None,
                };
                proof {
                    assert(opt_expr_size(x) == opt_size(else_));
                }
                self.if_step(st, *cond, *then, x, expected)
            },
            _ => (st, None),
        }
    }

    /// Typing an `if`.
    pub open spec fn if_step(&self, st: AnalysisState<'a, 'src>, cond: Expr<'src>, then: Expr<'src>, else_: Option<Expr<'src>>, expected: Option<TypeView>) -> (AnalysisState<'a, 'src>, Option<TypeView>)
        decreases expr_size(cond) + expr_size(then) + opt_expr_size(else_), 4nat,
    {
        let (s1, ct) = self.infer_step(st, cond, Some(TypeView::Bool));
        match ct {
            Some(c) => if c != TypeView::Bool {
                (self.semantic(s1, expr_span(cond), SemanticError::TypeMismatch("if condition must evaluate to bool")), None)
            } else {
                let hint = match else_ {
                    Some(_) => expected,
                    None => Some(TypeView::Unit),
                };
                let (s2, tt) = self.infer_step(s1, then, hint);
                match tt {
                    Some(t) => match else_ {
                        Some(x) => {
                            let (s3, et) = self.infer_step(s2, x, expected);
                            match et {
                                Some(e) => if t == e {
                                    (s3, Some(t))
                                } else {
                                    (self.semantic(s3, expr_span(then), SemanticError::TypeMismatch(
                                        "if branches must evaluate to the same type")), None)
                                },
                                None => (s3, None),
                            }
                        },
                        None => if t == TypeView::Unit {
                            (s2, Some(TypeView::Unit))
                        } else {
                            (self.semantic(s2, expr_span(then), SemanticError::TypeMismatch(
                                "if without else must evaluate to unit")), None)
                        },
                    },
                    None => (s2, None),
                }
            },
            None => (s1, None),
        }
    }

    /// Typing a call.
    pub open spec fn call_step(&self, st: AnalysisState<'a, 'src>, func: Expr<'src>, args: Seq<Expr<'src>>) -> (AnalysisState<'a, 'src>, Option<TypeView>)
        decreases expr_size(func) + exprs_size(args), 4nat,
    {
        let (s1, ft) = self.infer_step(st, func, None);
        match ft {
            Some(TypeView::Func { params, ret }) => if params.len() != args.len() {
                (self.semantic(s1, expr_span(func), SemanticError::InvalidOperation(
                    "function call argument count does not match parameter count")), None)
            } else {
                let (s2, ok) = self.args_step(s1, args, params);
                if ok {
                    (s2, Some(*ret))
                } else {
                    (s2, None)
                }
            },
            Some(_) => (self.semantic(s1, expr_span(func), SemanticError::InvalidOperation(
                "attempted to call a non-function value")), None),
            None => (s1, None),
        }
    }

    /// Typing call arguments against parameter types, in order, up to the
    /// first failure.
    pub open spec fn args_step(&self, st: AnalysisState<'a, 'src>, args: Seq<Expr<'src>>, params: Seq<TypeView>) -> (AnalysisState<'a, 'src>, bool)
        decreases exprs_size(args), 3nat,
    {
        if args.len() == 0 || params.len() == 0 {
            (st, true)
        } else {
            let p = params[0];
            let (s1, at) = self.infer_step(st, args[0], Some(p));
            match at {
                Some(a) => if p == TypeView::Inferred || assignable(p, a) {
                    proof {
                        assert(exprs_size(args) == expr_size(args[0]) + exprs_size(args.drop_first()));
                        assert(expr_size(args[0]) >= 1);
                    }
                    self.args_step(s1, args.drop_first(), params.drop_first())
                } else {
                    (self.semantic(s1, expr_span(args[0]), SemanticError::TypeMismatch(
                        "function argument type is not assignable to parameter type")), false)
                },
                None => (s1, false),
            }
        }
    }

    /// Typing an assignment.
    pub open spec fn assign_step(&self, st: AnalysisState<'a, 'src>, op: AssignOp, lhs: LeftSide<'src>, rhs: Expr<'src>) -> (AnalysisState<'a, 'src>, Option<TypeView>)
        decreases expr_size(rhs), 4nat,
    {
        let (s1, tgt) = self.target_step(st, lhs);
        match tgt {
            Some((name, target)) => {
                let (s2, rt) = self.infer_step(s1, rhs, Some(target));
                match rt {
                    Some(inferred) => {
                        let folded = const_eval(self.floats, s2.scopes, rhs);
                        let fits = folded matches Some(v) && const_fit_spec(target, v) == ConstFit::Fits;
                        let rhs_type = if fits { target } else { inferred };
                        match assign_check(op, target, rhs_type) {
                            Ok(()) => (self.store_step(s2, name, op, target, folded), Some(target)),
                            Err(err) => {
                                let overflow = folded matches Some(v) && const_fit_spec(target, v) == ConstFit::Overflow;
                                let e = if overflow {
                                    SemanticError::Overflow("assigned constant overflows the target type")
                                } else {
                                    err
                                };
                                (self.semantic(s2, expr_span(rhs), e), None)
                            },
                        }
                    },
                    None => (s2, None),
                }
            },
            None => (s1, None),
        }
    }

    /// Checking a variable declaration and declaring its name.
    pub open spec fn decl_step(&self, st: AnalysisState<'a, 'src>, node: Stmt<'src>) -> AnalysisState<'a, 'src>
        decreases stmt_size(node), 5nat,
    {
        match node {
            Stmt::VarDecl { name, typ, init, mutable, .. } => {
                let folded = match init {
                    Some(e) => const_eval(self.floats, st.scopes, e),
                    None => None,
                };
                let declared_fits = folded matches Some(v) && typ@ != TypeView::Inferred
                    && const_fit_spec(typ@, v) == ConstFit::Fits;
                let (s1, it) = match init {
                    Some(value) => if declared_fits {
                        (st, Some(typ@))
                    } else if typ@ != TypeView::Inferred {
                        self.infer_step(st, value, Some(typ@))
                    } else {
                        self.infer_step(st, value, None)
                    },
                    None => (st, None),
                };
                if init is Some && it is None {
                    self.semantic(s1, name.1, SemanticError::TypeInference("could not infer a valid type from initializer"))
                } else {
                    match decl_type(typ@, it) {
                        Ok(t) => self.declare_step(s1, name, t, mutable, folded).0,
                        Err(err) => {
                            let overflow = folded matches Some(v) && const_fit_spec(typ@, v) == ConstFit::Overflow;
                            let e = if overflow {
                                SemanticError::Overflow("initializer constant overflows the declared type")
                            } else {
                                err
                            };
                            self.semantic(s1, name.1, e)
                        },
                    }
                }
            },
            _ => st,
        }
    }

    /// Declaring a function's name with its function type.
    pub open spec fn func_decl_step(&self, st: AnalysisState<'a, 'src>, node: Stmt<'src>) -> AnalysisState<'a, 'src> {
        match node {
            Stmt::FuncDecl { name, typ, args, .. } => self.declare_step(st, name, func_type_view(args@, typ), false, None).0,
            _ => st,
        }
    }

    /// Analyzing one statement.
    pub open spec fn stmt_step(&self, st: AnalysisState<'a, 'src>, stmt: Stmt<'src>) -> AnalysisState<'a, 'src>
        decreases stmt_size(stmt), 6nat,
    {
        match stmt {
            Stmt::Expr(e) => self.infer_step(st, e, None).0,
            Stmt::Return(Some(e)) => self.infer_step(st, e, None).0,
            Stmt::VarDecl { .. } => self.decl_step(st, stmt),
            Stmt::FuncDecl { .. } => self.func_decl_step(st, stmt),
            _ => st,
        }
    }

    /// Analyzing statements in order.
    pub open spec fn stmts_step(&self, st: AnalysisState<'a, 'src>, stmts: Seq<Stmt<'src>>) -> AnalysisState<'a, 'src>
        decreases stmts_size(stmts), 7nat,
    {
        if stmts.len() == 0 {
            st
        } else {
            proof {
                assert(stmts_size(stmts) == stmt_size(stmts[0]) + stmts_size(stmts.drop_first()));
                assert(stmt_size(stmts[0]) >= 1);
            }
            self.stmts_step(self.stmt_step(st, stmts[0]), stmts.drop_first())
        }
    }

    /// Analyzing a block in a scope of its own: its statements, then its
    /// tail, which gives the block's type.
    pub open spec fn block_step(&self, st: AnalysisState<'a, 'src>, stmts: Seq<Stmt<'src>>, tail: Option<Expr<'src>>, expected: Option<TypeView>) -> (AnalysisState<'a, 'src>, Option<TypeView>)
        decreases stmts_size(stmts) + opt_expr_size(tail), 8nat,
    {
        let s1 = AnalysisState { scopes: st.scopes.push(Seq::empty()), errors: st.errors, next: st.next };
        let s2 = self.stmts_step(s1, stmts);
        let (s3, t) = match tail {
            Some(x) => self.infer_step(s2, x, expected),
            None => (s2, None),
        };
        let s4 = if s3.scopes.len() > 1 {
            AnalysisState { scopes: s3.scopes.drop_last(), errors: s3.errors, next: s3.next }
        } else {
            s3
        };
        (s4, t)
    }
}

} // verus!
