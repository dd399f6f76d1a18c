//! The syntax tree as a mathematical value: the same shape as the tree the
//! parser builds, with sequences in place of vectors.

use vstd::prelude::*;

use crate::ast::{AssignOp, BinOp, Branch, Expr, Ident, LeftSide, Literal, Pattern, Stmt, Subscript, Type, UnaryOp};

verus! {

broadcast use {vstd::std_specs::vec::axiom_vec_index_decreases, vstd::std_specs::vec::axiom_vec_decreases_to_view};

/// An expression as a value.
pub enum ExprTree<'src> {
    Ident(Ident<'src>),
    Literal(Literal<'src>),
    Assign { op: AssignOp, lhs: TargetTree<'src>, rhs: Box<ExprTree<'src>> },
    Unary { op: UnaryOp, expr: Box<ExprTree<'src>> },
    Binary { op: BinOp, lhs: Box<ExprTree<'src>>, rhs: Box<ExprTree<'src>> },
    Call { func: Box<ExprTree<'src>>, args: Seq<ExprTree<'src>> },
    Field { obj: Box<ExprTree<'src>>, name: Ident<'src> },
    Method { receiver: Box<ExprTree<'src>>, method: Ident<'src>, args: Seq<ExprTree<'src>> },
    Index { obj: Box<ExprTree<'src>>, sub: SubscriptTree<'src> },
    Block { stmts: Seq<StmtTree<'src>>, tail: Option<Box<ExprTree<'src>>> },
    If { cond: Box<ExprTree<'src>>, then: Box<ExprTree<'src>>, else_: Option<Box<ExprTree<'src>>> },
    While { cond: Box<ExprTree<'src>>, body: Box<ExprTree<'src>> },
    Match { item: Box<ExprTree<'src>>, branches: Seq<BranchTree<'src>> },
    For { pattern: PatternTree<'src>, iter: Box<ExprTree<'src>>, body: Box<ExprTree<'src>> },
    Range { start: Option<Box<ExprTree<'src>>>, end: Option<Box<ExprTree<'src>>> },
    Unknown,
}

/// An assignment target as a value.
pub enum TargetTree<'src> {
    Var(Ident<'src>),
    Field { obj: Box<ExprTree<'src>>, name: Ident<'src> },
    Subscript { obj: Box<ExprTree<'src>>, sub: SubscriptTree<'src> },
}

/// What stands inside square brackets, as a value.
pub enum SubscriptTree<'src> {
    Index(Box<ExprTree<'src>>),
    Range { start: Option<Box<ExprTree<'src>>>, end: Option<Box<ExprTree<'src>>> },
}

/// A pattern as a value.
pub enum PatternTree<'src> {
    Wildcard,
    Ident(Ident<'src>),
    Literal(Literal<'src>),
    Or(Seq<PatternTree<'src>>),
    Range { start: Option<Box<ExprTree<'src>>>, end: Option<Box<ExprTree<'src>>> },
    Tuple(Seq<PatternTree<'src>>),
}

/// A `match` arm as a value.
pub struct BranchTree<'src> {
    pub pattern: PatternTree<'src>,
    pub guard: Option<Box<ExprTree<'src>>>,
    pub body: StmtTree<'src>,
}

/// A statement as a value.
pub enum StmtTree<'src> {
    Expr(ExprTree<'src>),
    Return(Option<ExprTree<'src>>),
    Break,
    Continue,
    VarDecl {
        name: Ident<'src>,
        typ: Type<'src>,
        init: Option<ExprTree<'src>>,
        mutable: bool,
        constant: bool,
        global: bool,
    },
    FuncDecl { name: Ident<'src>, typ: Type<'src>, args: Seq<(Ident<'src>, Type<'src>)>, body: Option<ExprTree<'src>> },
    Error,
}

/// The value of an expression.
pub open spec fn expr_tree<'src>(e: Expr<'src>) -> ExprTree<'src>
    decreases e,
{
    match e {
        Expr::Ident(i) => ExprTree::Ident(i),
        Expr::Literal(l) => ExprTree::Literal(l),
        Expr::Assign { op, lhs, rhs } => ExprTree::Assign { op, lhs: target_tree(lhs), rhs: Box::new(expr_tree(*rhs)) },
        Expr::Unary { op, expr } => ExprTree::Unary { op, expr: Box::new(expr_tree(*expr)) },
        Expr::Binary { op, lhs, rhs } => ExprTree::Binary {
            op,
            lhs: Box::new(expr_tree(*lhs)),
            rhs: Box::new(expr_tree(*rhs)),
        },
        Expr::Call { func, args } => ExprTree::Call { func: Box::new(expr_tree(*func)), args: expr_trees(args@) },
        Expr::Field { obj, name } => ExprTree::Field { obj: Box::new(expr_tree(*obj)), name },
        Expr::Method { receiver, method, args } => ExprTree::Method {
            receiver: Box::new(expr_tree(*receiver)),
            method,
            args: expr_trees(args@),
        },
        Expr::Index { obj, sub } => ExprTree::Index { obj: Box::new(expr_tree(*obj)), sub: subscript_tree(sub) },
        Expr::Block { stmts, tail } => ExprTree::Block { stmts: stmt_trees(stmts@), tail: opt_tree(tail) },
        Expr::If { cond, then, else_ } => ExprTree::If {
            cond: Box::new(expr_tree(*cond)),
            then: Box::new(expr_tree(*then)),
            else_: opt_tree(else_),
        },
        Expr::While { cond, body } => ExprTree::While { cond: Box::new(expr_tree(*cond)), body: Box::new(expr_tree(*body)) },
        Expr::Match { item, branches } => ExprTree::Match { item: Box::new(expr_tree(*item)), branches: branch_trees(branches@) },
        Expr::For { pattern, iter, body } => ExprTree::For {
            pattern: pattern_tree(pattern),
            iter: Box::new(expr_tree(*iter)),
            body: Box::new(expr_tree(*body)),
        },
        Expr::Range { start, end } => ExprTree::Range { start: opt_tree(start), end: opt_tree(end) },
        Expr::Unknown => ExprTree::Unknown,
    }
}

/// The value of an optional boxed expression.
pub open spec fn opt_tree<'src>(e: Option<Box<Expr<'src>>>) -> Option<Box<ExprTree<'src>>>
    decreases e,
{
    match e {
        Some(x) => Some(Box::new(expr_tree(*x))),
        None => None,
    }
}

/// The values of a list of expressions.
pub open spec fn expr_trees<'src>(s: Seq<Expr<'src>>) -> Seq<ExprTree<'src>>
    decreases s,
{
    if s.len() == 0 {
        Seq::empty()
    } else {
        expr_trees(s.drop_last()).push(expr_tree(s.last()))
    }
}

/// The value of an assignment target.
pub open spec fn target_tree<'src>(l: LeftSide<'src>) -> TargetTree<'src>
    decreases l,
{
    match l {
        LeftSide::Var(i) => TargetTree::Var(i),
        LeftSide::Field { obj, name } => TargetTree::Field { obj: Box::new(expr_tree(*obj)), name },
        LeftSide::Subscript { obj, sub } => TargetTree::Subscript { obj: Box::new(expr_tree(*obj)), sub: subscript_tree(sub) },
    }
}

/// The value of a subscript.
pub open spec fn subscript_tree<'src>(s: Subscript<'src>) -> SubscriptTree<'src>
    decreases s,
{
    match s {
        Subscript::Index(e) => SubscriptTree::Index(Box::new(expr_tree(*e))),
        Subscript::Range { start, end } => SubscriptTree::Range { start: opt_tree(start), end: opt_tree(end) },
    }
}

/// The value of a pattern.
pub open spec fn pattern_tree<'src>(p: Pattern<'src>) -> PatternTree<'src>
    decreases p,
{
    match p {
        Pattern::Wildcard => PatternTree::Wildcard,
        Pattern::Ident(i) => PatternTree::Ident(i),
        Pattern::Literal(l) => PatternTree::Literal(l),
        Pattern::Or(ps) => PatternTree::Or(pattern_trees(ps@)),
        Pattern::Range { start, end } => PatternTree::Range { start: opt_tree(start), end: opt_tree(end) },
        Pattern::Tuple(ps) => PatternTree::Tuple(pattern_trees(ps@)),
    }
}

/// The values of a list of patterns.
pub open spec fn pattern_trees<'src>(s: Seq<Pattern<'src>>) -> Seq<PatternTree<'src>>
    decreases s,
{
    if s.len() == 0 {
        Seq::empty()
    } else {
        pattern_trees(s.drop_last()).push(pattern_tree(s.last()))
    }
}

/// The value of a `match` arm.
pub open spec fn branch_tree<'src>(b: Branch<'src>) -> BranchTree<'src>
    decreases b,
{
    BranchTree { pattern: pattern_tree(b.pattern), guard: opt_tree(b.guard), body: stmt_tree(b.body) }
}

/// The values of a list of `match` arms.
pub open spec fn branch_trees<'src>(s: Seq<Branch<'src>>) -> Seq<BranchTree<'src>>
    decreases s,
{
    if s.len() == 0 {
        Seq::empty()
    } else {
        branch_trees(s.drop_last()).push(branch_tree(s.last()))
    }
}

/// The value of a statement.
pub open spec fn stmt_tree<'src>(s: Stmt<'src>) -> StmtTree<'src>
    decreases s,
{
    match s {
        Stmt::Expr(e) => StmtTree::Expr(expr_tree(e)),
        Stmt::Return(r) => StmtTree::Return(match r {
            Some(e) => Some(expr_tree(e)),
            None => None,
        }),
        Stmt::Break => StmtTree::Break,
        Stmt::Continue => StmtTree::Continue,
        Stmt::VarDecl { name, typ, init, mutable, constant, global } => StmtTree::VarDecl {
            name,
            typ,
            init: match init {
                Some(e) => Some(expr_tree(e)),
                None => None,
            },
            mutable,
            constant,
            global,
        },
        Stmt::FuncDecl { name, typ, args, body } => StmtTree::FuncDecl {
            name,
            typ,
            args: args@,
            body: match body {
                Some(e) => Some(expr_tree(e)),
                None => None,
            },
        },
        Stmt::Error => StmtTree::Error,
    }
}

/// The values of a list of statements.
pub open spec fn stmt_trees<'src>(s: Seq<Stmt<'src>>) -> Seq<StmtTree<'src>>
    decreases s,
{
    if s.len() == 0 {
        Seq::empty()
    } else {
        stmt_trees(s.drop_last()).push(stmt_tree(s.last()))
    }
}

impl<'src> View for Expr<'src> {
    type V = ExprTree<'src>;

    open spec fn view(&self) -> ExprTree<'src> {
        expr_tree(*self)
    }
}

impl<'src> View for Stmt<'src> {
    type V = StmtTree<'src>;

    open spec fn view(&self) -> StmtTree<'src> {
        stmt_tree(*self)
    }
}

impl<'src> View for Pattern<'src> {
    type V = PatternTree<'src>;

    open spec fn view(&self) -> PatternTree<'src> {
        pattern_tree(*self)
    }
}

impl<'src> View for Subscript<'src> {
    type V = SubscriptTree<'src>;

    open spec fn view(&self) -> SubscriptTree<'src> {
        subscript_tree(*self)
    }
}

impl<'src> View for LeftSide<'src> {
    type V = TargetTree<'src>;

    open spec fn view(&self) -> TargetTree<'src> {
        target_tree(*self)
    }
}

/// Adding an expression to a list adds its value to the list's values.
pub proof fn lemma_expr_trees_push<'src>(s: Seq<Expr<'src>>, e: Expr<'src>)
    ensures
        expr_trees(s.push(e)) == expr_trees(s).push(expr_tree(e)),
{
    assert(s.push(e).drop_last() =~= s);
}

/// Adding a statement to a list adds its value to the list's values.
pub proof fn lemma_stmt_trees_push<'src>(s: Seq<Stmt<'src>>, e: Stmt<'src>)
    ensures
        stmt_trees(s.push(e)) == stmt_trees(s).push(stmt_tree(e)),
{
    assert(s.push(e).drop_last() =~= s);
}

/// Adding a pattern to a list adds its value to the list's values.
pub proof fn lemma_pattern_trees_push<'src>(s: Seq<Pattern<'src>>, e: Pattern<'src>)
    ensures
        pattern_trees(s.push(e)) == pattern_trees(s).push(pattern_tree(e)),
{
    assert(s.push(e).drop_last() =~= s);
}

/// Adding an arm to a list adds its value to the list's values.
pub proof fn lemma_branch_trees_push<'src>(s: Seq<Branch<'src>>, e: Branch<'src>)
    ensures
        branch_trees(s.push(e)) == branch_trees(s).push(branch_tree(e)),
{
    assert(s.push(e).drop_last() =~= s);
}

} // verus!
