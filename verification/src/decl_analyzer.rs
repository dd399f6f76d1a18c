//! A lighter analysis that only types variable declarations: it gives each
//! declared name a symbol number and a type, working from literal types,
//! the types of names declared before, and the typing rules of operators.
//! It reports nothing; a declaration whose type cannot be worked out is
//! skipped.

use vstd::prelude::*;

use crate::analyzer::{
    assignable, distinct_names, family_of, integral, rank_of, expr_size, find_entry, find_in, lemma_find_in, lemma_find_in_distinct, lemma_push_entry,
    lemma_replace_entry, opt_size, opt_view,
};
use crate::ast::{clone_type, type_eq, AssignOp, BinOp, Expr, Literal, Stmt, Type, TypeView, UnaryOp};
use crate::diagnostic::Diagnostic;
use crate::laws::{law_decls_number_in_order, numbered_in_order, same_names};

verus! {

broadcast use {vstd::std_specs::vec::axiom_vec_index_decreases, vstd::std_specs::vec::axiom_vec_decreases_to_view};

/// The type of a literal: integers are `i64`, floating-point numbers `f32`.
pub open spec fn literal_view(l: Literal) -> TypeView {
    match l {
        Literal::Int(_, _) => TypeView::I64,
        Literal::Float(_, _) => TypeView::F32,
        Literal::Bool(_, _) => TypeView::Bool,
        Literal::Char(_, _) => TypeView::Char,
        Literal::String(_, _) => TypeView::Str,
        Literal::Unit(_) => TypeView::Unit,
    }
}

/// The type of a unary operation on an operand of type `inner`: `!` gives
/// `bool`, `~` keeps an integer type, negation, increments and decrements
/// keep a numeric type.
pub open spec fn unary_view(op: UnaryOp, inner: TypeView) -> Option<TypeView> {
    match op {
        UnaryOp::Not => Some(TypeView::Bool),
        UnaryOp::BitNot => if integral(inner) { Some(inner) } else { None },
        _ => if rank_of(inner) is Some { Some(inner) } else { None },
    }
}

/// The type of a binary operation: comparisons and logical operators give
/// `bool`; arithmetic and bitwise operators give the operand type the other
/// is assignable to (the left one first).
pub open spec fn binary_view(op: BinOp, lhs: TypeView, rhs: TypeView) -> Option<TypeView> {
    match op {
        BinOp::Eq | BinOp::NotEq | BinOp::Less | BinOp::LessEq | BinOp::Greater | BinOp::GreaterEq
        | BinOp::And | BinOp::Or => Some(TypeView::Bool),
        _ => if assignable(lhs, rhs) {
            Some(lhs)
        } else if assignable(rhs, lhs) {
            Some(rhs)
        } else {
            None
        },
    }
}

/// The type of an expression given the types of the names declared so far:
/// literals by their kind, names by the table, operators by their rules,
/// an assignment by its value, a block by its tail, an `if` with an `else`
/// by its branches when they agree. Anything else has no type.
pub open spec fn expr_view<'src>(types: Map<Seq<char>, TypeView>, e: Expr<'src>) -> Option<TypeView>
    decreases e,
{
    match e {
        Expr::Literal(l) => Some(literal_view(l)),
        Expr::Ident(i) => if types.contains_key(i.0@) { Some(types[i.0@]) } else { None },
        Expr::Unary { op, expr } => match expr_view(types, *expr) {
            Some(t) => unary_view(op, t),
            None => None,
        },
        Expr::Binary { op, lhs, rhs } => match (expr_view(types, *lhs), expr_view(types, *rhs)) {
            (Some(l), Some(r)) => binary_view(op, l, r),
            _ => None,
        },
        Expr::Assign { rhs, .. } => expr_view(types, *rhs),
        Expr::Block { tail, .. } => match tail {
            Some(t) => expr_view(types, *t),
            None => None,
        },
        Expr::If { then, else_, .. } => match (expr_view(types, *then), else_) {
            (Some(a), Some(x)) => match expr_view(types, *x) {
                Some(b) => if a == b { Some(a) } else { None },
                None => None,
            },
            _ => None,
        },
        _ => None,
    }
}

/// The type a declaration gets: an inferred one takes its initializer's, a
/// written one needs the initializer's type assignable to it. `None` when
/// no type comes out.
pub open spec fn declared_view<'src>(types: Map<Seq<char>, TypeView>, typ: Type<'src>, init: Option<Expr<'src>>) -> Option<TypeView> {
    let actual = match init {
        Some(e) => expr_view(types, e),
        None => None,
    };
    let t = match (typ, actual) {
        (Type::Inferred, Some(a)) => a,
        (Type::Inferred, None) => TypeView::Error,
        (declared, Some(a)) => if assignable(declared@, a) { declared@ } else { TypeView::Error },
        (declared, None) => declared@,
    };
    if t == TypeView::Error {
        None
    } else {
        Some(t)
    }
}

/// The symbol table after `name` is declared: a new name gets the next
/// number, a known one keeps its number.
pub open spec fn numbered<'src>(resolved: Seq<(&'src str, usize)>, name: &'src str) -> Seq<(&'src str, usize)> {
    if find_in(resolved, name@) is Some {
        resolved
    } else {
        resolved.push((name, resolved.len() as usize))
    }
}

/// The tables after one statement: a variable declaration whose type comes
/// out numbers its name and records the type; nothing else changes them.
pub open spec fn decl_step<'src>(
    resolved: Seq<(&'src str, usize)>,
    types: Map<Seq<char>, TypeView>,
    node: Stmt<'src>,
) -> (Seq<(&'src str, usize)>, Map<Seq<char>, TypeView>) {
    match node {
        Stmt::VarDecl { name, typ, init, .. } => match declared_view(types, typ, init) {
            Some(t) => (numbered(resolved, name.0), types.insert(name.0@, t)),
            None => (resolved, types),
        },
        _ => (resolved, types),
    }
}

/// The tables after the statements from position `i` on.
pub open spec fn decls_from<'src>(
    resolved: Seq<(&'src str, usize)>,
    types: Map<Seq<char>, TypeView>,
    nodes: Seq<Stmt<'src>>,
    i: int,
) -> (Seq<(&'src str, usize)>, Map<Seq<char>, TypeView>)
    decreases nodes.len() - i,
{
    if i < 0 || i >= nodes.len() {
        (resolved, types)
    } else {
        let (r, t) = decl_step(resolved, types, nodes[i]);
        decls_from(r, t, nodes, i + 1)
    }
}

/// The types an entry list records, by name.
pub open spec fn types_map<'src>(s: Seq<(&'src str, Type<'src>)>) -> Map<Seq<char>, TypeView> {
    Map::new(|n: Seq<char>| find_in(s, n) is Some, |n: Seq<char>| s[find_in(s, n)->0].1@)
}

/// What the table of an entry list holds for one name.
pub proof fn lemma_types_map<'src>(s: Seq<(&'src str, Type<'src>)>, n: Seq<char>)
    ensures
        types_map(s).contains_key(n) == (find_in(s, n) is Some),
        find_in(s, n) is Some ==> types_map(s)[n] == s[find_in(s, n)->0].1@,
{
}

/// The declaration analyzer's state.
pub struct Analyzer<'a, 'src> {
    /// the statements to analyze
    pub nodes: Vec<Stmt<'src>>,
    /// the symbol number of each declared name
    pub resolved: Vec<(&'src str, usize)>,
    /// the type of each declared name
    pub types: Vec<(&'src str, Type<'src>)>,
    pub errors: Vec<Diagnostic<'a, 'src>>,
    /// the position of the next statement to analyze
    pub pos: usize,
}

impl<'a, 'src> Analyzer<'a, 'src> {
    /// No name occurs twice in either table.
    pub open spec fn wf(&self) -> bool {
        &&& distinct_names(self.resolved@)
        &&& distinct_names(self.types@)
    }

    /// The types recorded, by name.
    pub open spec fn type_map(&self) -> Map<Seq<char>, TypeView> {
        types_map(self.types@)
    }

    /// An analyzer for `nodes` with empty tables, at the first statement.
    pub fn new(nodes: Vec<Stmt<'src>>) -> (r: Self)
        ensures
            r.wf(),
            r.nodes == nodes,
            r.resolved@.len() == 0,
            r.types@.len() == 0,
            r.errors@.len() == 0,
            r.pos == 0,
    {
        Analyzer { nodes, resolved: Vec::new(), types: Vec::new(), errors: Vec::new(), pos: 0 }
    }

    /// The size class of a numeric type.
    fn numeric_rank(typ: &Type<'src>) -> (r: Option<u8>)
        ensures
            r == rank_of(typ@),
    {
        match typ {
            Type::I8 | Type::U8 => Some(1),
            Type::I16 | Type::U16 => Some(2),
            Type::I32 | Type::U32 => Some(3),
            Type::I64 | Type::U64 => Some(4),
            Type::F32 => Some(5),
            Type::F64 => Some(6),
            _ => None,
        }
    }

    /// Whether a value of type `actual` may be stored where `expected` is wanted.
    fn can_assign(&self, expected: &Type<'src>, actual: &Type<'src>) -> (r: bool)
        ensures
            r == assignable(expected@, actual@),
    {
        if type_eq(expected, actual) {
            return true;
        }
        let same_family = match (expected, actual) {
            (Type::I8 | Type::I16 | Type::I32 | Type::I64, Type::I8 | Type::I16 | Type::I32 | Type::I64) => true,
            (Type::U8 | Type::U16 | Type::U32 | Type::U64, Type::U8 | Type::U16 | Type::U32 | Type::U64) => true,
            (Type::F32 | Type::F64, Type::F32 | Type::F64) => true,
            _ => false,
        };
        if !same_family {
            return false;
        }
        match (Self::numeric_rank(expected), Self::numeric_rank(actual)) {
            (Some(expected_rank), Some(actual_rank)) => expected_rank >= actual_rank,
            _ => false,
        }
    }

    /// Whether bitwise operators apply to `typ`: a numeric type that is not
    /// floating-point.
    fn is_bitwise_numeric(typ: &Type<'src>) -> (r: bool)
        ensures
            r == integral(typ@),
    {
        match Self::numeric_rank(typ) {
            Some(_) => !matches!(typ, Type::F32 | Type::F64),
            None => false,
        }
    }

    /// The type of a unary operation on an operand of type `inner`.
    fn infer_unary_type(&self, op: &UnaryOp, inner: Type<'src>) -> (r: Option<Type<'src>>)
        ensures
            opt_view(r) == unary_view(*op, inner@),
    {
        match op {
            UnaryOp::Not => Some(Type::Bool),
            UnaryOp::BitNot => if Self::is_bitwise_numeric(&inner) { Some(inner) } else { None },
            UnaryOp::Neg | UnaryOp::PreInc | UnaryOp::PreDec | UnaryOp::PostInc | UnaryOp::PostDec => {
                if Self::numeric_rank(&inner).is_some() { Some(inner) } else { None }
            },
        }
    }

    /// The type of a binary operation on operands of types `lhs_type` and `rhs_type`.
    fn infer_binary_type(&self, op: &BinOp, lhs_type: Type<'src>, rhs_type: Type<'src>) -> (r: Option<Type<'src>>)
        ensures
            opt_view(r) == binary_view(*op, lhs_type@, rhs_type@),
    {
        match op {
            BinOp::Eq | BinOp::NotEq | BinOp::Less | BinOp::LessEq | BinOp::Greater | BinOp::GreaterEq
            | BinOp::And | BinOp::Or => Some(Type::Bool),
            BinOp::Add | BinOp::Sub | BinOp::Mul | BinOp::Div | BinOp::Mod | BinOp::Power | BinOp::BitAnd
            | BinOp::BitOr | BinOp::BitXor | BinOp::Shl | BinOp::Shr => {
                if self.can_assign(&lhs_type, &rhs_type) {
                    Some(lhs_type)
                } else if self.can_assign(&rhs_type, &lhs_type) {
                    Some(rhs_type)
                } else {
                    None
                }
            },
        }
    }

    /// The type of an `if` from its branches: both must have one, and the
    /// same. Without an `else` there is none.
    fn infer_if_type(&self, then: &Expr<'src>, else_: &Option<Box<Expr<'src>>>) -> (r: Option<Type<'src>>)
        requires
            self.wf(),
        ensures
            opt_view(r) == match (expr_view(self.type_map(), *then), *else_) {
                (Some(a), Some(x)) => match expr_view(self.type_map(), *x) {
                    Some(b) => if a == b { Some(a) } else { None },
                    None => None,
                },
                _ => None,
            },
        decreases expr_size(*then) + opt_size(*else_) + 1, 0nat,
    {
        let then_type = match self.infer_expr_type(then) {
            Some(t) => t,
            None => return None,
        };
        let else_expr = match else_ {
            Some(e) => e,
            None => return None,
        };
        let else_type = match self.infer_expr_type(else_expr) {
            Some(t) => t,
            None => return None,
        };
        if type_eq(&then_type, &else_type) {
            Some(then_type)
        } else {
            None
        }
    }

    /// The type of an assignment: that of the value assigned, whatever the
    /// operator.
    fn infer_assign_type(&self, op: &AssignOp, rhs_type: Type<'src>) -> (r: Option<Type<'src>>)
        ensures
            r == Some(rhs_type),
    {
        match op {
            AssignOp::Assign | AssignOp::PlusEq | AssignOp::MinusEq | AssignOp::StarEq | AssignOp::SlashEq
            | AssignOp::PercentEq | AssignOp::AndEq | AssignOp::OrEq | AssignOp::XorEq | AssignOp::ShlEq
            | AssignOp::ShrEq => Some(rhs_type),
        }
    }

    /// The type of a literal.
    fn infer_literal_type(&self, literal: &Literal<'src>) -> (r: Type<'src>)
        ensures
            r@ == literal_view(*literal),
    {
        match literal {
            Literal::Int(_, _) => Type::I64,
            Literal::Float(_, _) => Type::F32,
            Literal::Bool(_, _) => Type::Bool,
            Literal::Char(_, _) => Type::Char,
            Literal::String(_, _) => Type::Str,
            Literal::Unit(_) => Type::Unit,
        }
    }

    /// The type of an expression from the types recorded so far.
    fn infer_expr_type(&self, expr: &Expr<'src>) -> (r: Option<Type<'src>>)
        requires
            self.wf(),
        ensures
            opt_view(r) == expr_view(self.type_map(), *expr),
        decreases expr_size(*expr), 1nat,
    {
        match expr {
            Expr::Literal(lit) => Some(self.infer_literal_type(lit)),
            Expr::Ident(ident) => match find_entry(&self.types, ident.0) {
                Some(i) => Some(clone_type(&self.types[i].1)),
                None => None,
            },
            Expr::Unary { op, expr } => {
                let inner = match self.infer_expr_type(expr) {
                    Some(t) => t,
                    None => return None,
                };
                self.infer_unary_type(op, inner)
            },
            Expr::Binary { op, lhs, rhs } => {
                let lhs_type = match self.infer_expr_type(lhs) {
                    Some(t) => t,
                    None => return None,
                };
                let rhs_type = match self.infer_expr_type(rhs) {
                    Some(t) => t,
                    None => return None,
                };
                self.infer_binary_type(op, lhs_type, rhs_type)
            },
            Expr::Assign { op, rhs, .. } => {
                let rhs_type = match self.infer_expr_type(rhs) {
                    Some(t) => t,
                    None => return None,
                };
                self.infer_assign_type(op, rhs_type)
            },
            Expr::Block { tail, .. } => match tail {
                Some(t) => {
                    proof {
                        assert(opt_size(*tail) == expr_size(**t));
                    }
                    self.infer_expr_type(t)
                },
                None => None,
            },
            Expr::If { then, else_, .. } => self.infer_if_type(then, else_),
            _ => None,
        }
    }

    /// Numbers `name` unless it already has a number.
    fn number_name(&mut self, name: &'src str)
        requires
            old(self).wf(),
        ensures
            final(self).wf(),
            final(self).resolved@ == numbered(old(self).resolved@, name),
            final(self).types == old(self).types,
            final(self).nodes == old(self).nodes,
            final(self).errors == old(self).errors,
            final(self).pos == old(self).pos,
    {
        if find_entry(&self.resolved, name).is_none() {
            let next_id = self.resolved.len();
            proof {
                lemma_push_entry(self.resolved@, (name, next_id));
            }
            self.resolved.push((name, next_id));
        }
    }

    /// Records `t` as the type of `name`, in place of the one it had.
    fn record_type(&mut self, name: &'src str, t: Type<'src>)
        requires
            old(self).wf(),
        ensures
            final(self).wf(),
            final(self).type_map() == old(self).type_map().insert(name@, t@),
            final(self).resolved == old(self).resolved,
            final(self).nodes == old(self).nodes,
            final(self).errors == old(self).errors,
            final(self).pos == old(self).pos,
    {
        let ghost before = self.types@;
        match find_entry(&self.types, name) {
            Some(i) => {
                let _ = self.types.remove(i);
                self.types.insert(i, (name, t));
                proof {
                    let after = self.types@;
                    assert(after =~= before.update(i as int, (name, t)));
                    lemma_replace_entry(before, i as int, (name, t));
                    let goal = types_map(before).insert(name@, t@);
                    assert forall|n: Seq<char>| #[trigger] self.type_map().contains_key(n) == goal.contains_key(n) by {
                        lemma_types_map(before, n);
                        lemma_types_map(after, n);
                    }
                    assert forall|n: Seq<char>| self.type_map().contains_key(n) implies #[trigger] self.type_map()[n] == goal[n] by {
                        lemma_types_map(before, n);
                        lemma_types_map(after, n);
                        lemma_find_in(before, n);
                        if n != name@ {
                            assert(find_in(before, n)->0 != i);
                        }
                    }
                    assert(self.type_map() =~= goal);
                }
            },
            None => {
                proof {
                    lemma_push_entry(before, (name, t));
                }
                self.types.push((name, t));
                proof {
                    let after = self.types@;
                    let goal = types_map(before).insert(name@, t@);
                    assert forall|n: Seq<char>| #[trigger] self.type_map().contains_key(n) == goal.contains_key(n) by {
                        lemma_types_map(before, n);
                        lemma_types_map(after, n);
                    }
                    assert forall|n: Seq<char>| self.type_map().contains_key(n) implies #[trigger] self.type_map()[n] == goal[n] by {
                        lemma_types_map(before, n);
                        lemma_types_map(after, n);
                        lemma_find_in(before, n);
                    }
                    assert(self.type_map() =~= goal);
                }
            },
        }
    }

    /// Types a variable declaration and, when a type comes out, numbers its
    /// name and records the type. Other statements are left alone.
    fn check_decl(&mut self, node: &Stmt<'src>)
        requires
            old(self).wf(),
        ensures
            final(self).wf(),
            final(self).resolved@ == decl_step(old(self).resolved@, old(self).type_map(), *node).0,
            final(self).type_map() == decl_step(old(self).resolved@, old(self).type_map(), *node).1,
            final(self).nodes == old(self).nodes,
            final(self).errors == old(self).errors,
            final(self).pos == old(self).pos,
    {
        let (name, typ, init) = match node {
            Stmt::VarDecl { name, typ, init, .. } => (name, typ, init),
            _ => return,
        };

        let init_type = match init {
            Some(value) => self.infer_expr_type(value),
            None => None,
        };
        let resolved_type = match (typ, &init_type) {
            (Type::Inferred, Some(actual)) => clone_type(actual),
            (Type::Inferred, None) => Type::Error,
            (declared, Some(actual)) => if self.can_assign(declared, actual) {
                clone_type(declared)
            } else {
                Type::Error
            },
            (declared, None) => clone_type(declared),
        };

        if matches!(resolved_type, Type::Error) {
            return;
        }

        self.number_name(name.0);
        self.record_type(name.0, resolved_type);
    }

    /// Analyzes the statements from the current position to the end,
    /// typing each variable declaration in turn.
    pub fn analyze(&mut self)
        requires
            old(self).wf(),
        ensures
            final(self).wf(),
            final(self).resolved@ == decls_from(old(self).resolved@, old(self).type_map(), old(self).nodes@, old(self).pos as int).0,
            final(self).type_map() == decls_from(old(self).resolved@, old(self).type_map(), old(self).nodes@, old(self).pos as int).1,
            final(self).nodes == old(self).nodes,
            final(self).errors == old(self).errors,
            final(self).pos == if old(self).pos < old(self).nodes@.len() { old(self).nodes@.len() } else { old(self).pos as nat },
            numbered_in_order(old(self).resolved@) && same_names(old(self).resolved@, old(self).type_map()) ==> {
                &&& numbered_in_order(final(self).resolved@)
                &&& same_names(final(self).resolved@, final(self).type_map())
            },
    {
        proof {
            if numbered_in_order(old(self).resolved@) && same_names(old(self).resolved@, old(self).type_map()) {
                law_decls_number_in_order(old(self).resolved@, old(self).type_map(), old(self).nodes@, old(self).pos as int);
            }
        }
        let mut nodes: Vec<Stmt<'src>> = Vec::new();
        core::mem::swap(&mut nodes, &mut self.nodes);
        let ghost goal = decls_from(old(self).resolved@, old(self).type_map(), old(self).nodes@, old(self).pos as int);
        while self.pos < nodes.len()
            invariant
                self.wf(),
                nodes == old(self).nodes,
                self.errors == old(self).errors,
                old(self).pos <= self.pos,
                old(self).pos < nodes@.len() ==> self.pos <= nodes@.len(),
                old(self).pos >= nodes@.len() ==> self.pos == old(self).pos,
                decls_from(self.resolved@, self.type_map(), nodes@, self.pos as int) == goal,
            decreases nodes@.len() - self.pos,
        {
            let ghost before = (self.resolved@, self.type_map());
            if matches!(nodes[self.pos], Stmt::VarDecl { .. }) {
                self.check_decl(&nodes[self.pos]);
            }
            proof {
                let step = decl_step(before.0, before.1, nodes@[self.pos as int]);
                assert(self.type_map() =~= step.1);
            }
            self.pos = self.pos + 1;
        }
        core::mem::swap(&mut nodes, &mut self.nodes);
    }
}

} // verus!
