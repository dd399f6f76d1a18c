//! The syntax tree built by the parser.

use vstd::prelude::*;

use core::ops::Range;

use crate::text::str_eq;

verus! {

broadcast use {vstd::std_specs::vec::axiom_vec_index_decreases, vstd::std_specs::vec::axiom_vec_decreases_to_view};

/// An identifier together with the span of source it was read from.
#[derive(Debug, PartialEq, Eq, Hash)]
pub struct Ident<'src>(pub &'src str, pub Range<usize>);

/// What an identifier stands for in contracts: its text and the bounds of its span.
pub type IdentView = (Seq<char>, usize, usize);

impl<'src> View for Ident<'src> {
    type V = IdentView;

    open spec fn view(&self) -> IdentView {
        (self.0@, self.1.start, self.1.end)
    }
}

/// A fresh span with the same bounds.
pub fn copy_range(r: &Range<usize>) -> (c: Range<usize>)
    ensures
        c == *r,
{
    Range { start: r.start, end: r.end }
}

impl<'src> Ident<'src> {
    /// The span of source the identifier was read from.
    pub fn span(&self) -> (r: Range<usize>)
        ensures
            r == self.1,
    {
        copy_range(&self.1)
    }

    /// The identifier's text, as it is shown.
    pub fn to_string(&self) -> (r: String)
        ensures
            r@ == self.0@,
    {
        String::from_str(self.0)
    }

    /// A copy of the identifier.
    pub fn copy(&self) -> (r: Ident<'src>)
        ensures
            r@ == self@,
            r.0 == self.0,
    {
        Ident(self.0, copy_range(&self.1))
    }
}

impl<'src> Clone for Ident<'src> {
    fn clone(&self) -> (r: Self)
        ensures
            r@ == self@,
            r.0 == self.0,
    {
        self.copy()
    }
}

/// A literal value as written in the source, with its span.
#[derive(Debug, PartialEq)]
pub enum Literal<'src> {
    /// an integer literal (typed `i64` unless a context asks otherwise)
    Int(&'src str, Range<usize>),
    /// a floating-point literal (typed `f64` unless a context asks otherwise)
    Float(&'src str, Range<usize>),
    Bool(bool, Range<usize>),
    Char(&'src str, Range<usize>),
    String(&'src str, Range<usize>),
    Unit(Range<usize>),
}

impl<'src> Literal<'src> {
    /// The range of the span a literal was read from.
    pub open spec fn span_spec(&self) -> Range<usize> {
        match self {
            Literal::Int(_, span) => *span,
            Literal::Float(_, span) => *span,
            Literal::Bool(_, span) => *span,
            Literal::Char(_, span) => *span,
            Literal::String(_, span) => *span,
            Literal::Unit(span) => *span,
        }
    }

    /// The span the literal was read from.
    pub fn span(&self) -> (r: Range<usize>)
        ensures
            r == self.span_spec(),
    {
        match self {
            Literal::Int(_, span)
            | Literal::Float(_, span)
            | Literal::Bool(_, span)
            | Literal::Char(_, span)
            | Literal::String(_, span)
            | Literal::Unit(span) => copy_range(span),
        }
    }
}

impl<'src> Clone for Literal<'src> {
    fn clone(&self) -> (r: Self)
        ensures
            r == *self,
    {
        match self {
            Literal::Int(s, span) => Literal::Int(s, copy_range(span)),
            Literal::Float(s, span) => Literal::Float(s, copy_range(span)),
            Literal::Bool(b, span) => Literal::Bool(*b, copy_range(span)),
            Literal::Char(s, span) => Literal::Char(s, copy_range(span)),
            Literal::String(s, span) => Literal::String(s, copy_range(span)),
            Literal::Unit(span) => Literal::Unit(copy_range(span)),
        }
    }
}

/// The smallest range covering both `lhs` and `rhs`.
pub open spec fn join_spec(lhs: Range<usize>, rhs: Range<usize>) -> Range<usize> {
    Range {
        start: if lhs.start <= rhs.start { lhs.start } else { rhs.start },
        end: if lhs.end >= rhs.end { lhs.end } else { rhs.end },
    }
}

/// The smallest range covering both `lhs` and `rhs`.
pub fn join_spans(lhs: Range<usize>, rhs: Range<usize>) -> (r: Range<usize>)
    ensures
        r == join_spec(lhs, rhs),
{
    let start = if lhs.start <= rhs.start { lhs.start } else { rhs.start };
    let end = if lhs.end >= rhs.end { lhs.end } else { rhs.end };
    Range { start, end }
}

/// All the types the language knows.
#[derive(Debug, PartialEq)]
pub enum Type<'src> {
    I8,
    U8,
    Bool,
    Char,
    I16,
    U16,
    I32,
    U32,
    F32,
    I64,
    U64,
    F64,
    /// the unit type `()`
    Unit,
    /// the string type
    Str,
    /// a user-defined type named in the current scope
    Ident(Ident<'src>),
    /// a path such as `std::io::File`
    Path(Vec<Ident<'src>>),
    /// fixed size, element types may differ, immutable
    Tuple(Vec<Type<'src>>),
    /// fixed size, one element type, mutable
    Array { typ: Box<Type<'src>>, len: Option<u64> },
    /// a function type
    Func { params: Vec<Type<'src>>, ret: Box<Type<'src>> },
    /// a variadic parameter `...T`
    VarArgs(Box<Type<'src>>),
    /// not written, left for inference
    Inferred,
    /// a type that could not be worked out
    Error,
}

/// What a type stands for in contracts: the same tree with identifiers taken
/// by their text and span bounds. Two types are equal exactly when their
/// views are.
pub enum TypeView {
    I8,
    U8,
    Bool,
    Char,
    I16,
    U16,
    I32,
    U32,
    F32,
    I64,
    U64,
    F64,
    Unit,
    Str,
    Ident(IdentView),
    Path(Seq<IdentView>),
    Tuple(Seq<TypeView>),
    Array { typ: Box<TypeView>, len: Option<u64> },
    Func { params: Seq<TypeView>, ret: Box<TypeView> },
    VarArgs(Box<TypeView>),
    Inferred,
    Error,
}

/// The views of a sequence of identifiers.
pub open spec fn idents_view<'src>(s: Seq<Ident<'src>>) -> Seq<IdentView> {
    s.map_values(|i: Ident<'src>| i@)
}

/// The view of a type.
pub open spec fn type_view<'src>(t: Type<'src>) -> TypeView
    decreases t,
{
    match t {
        Type::I8 => TypeView::I8,
        Type::U8 => TypeView::U8,
        Type::Bool => TypeView::Bool,
        Type::Char => TypeView::Char,
        Type::I16 => TypeView::I16,
        Type::U16 => TypeView::U16,
        Type::I32 => TypeView::I32,
        Type::U32 => TypeView::U32,
        Type::F32 => TypeView::F32,
        Type::I64 => TypeView::I64,
        Type::U64 => TypeView::U64,
        Type::F64 => TypeView::F64,
        Type::Unit => TypeView::Unit,
        Type::Str => TypeView::Str,
        Type::Ident(i) => TypeView::Ident(i@),
        Type::Path(p) => TypeView::Path(idents_view(p@)),
        Type::Tuple(ts) => TypeView::Tuple(types_view(ts@)),
        Type::Array { typ, len } => TypeView::Array { typ: Box::new(type_view(*typ)), len },
        Type::Func { params, ret } => TypeView::Func {
            params: types_view(params@),
            ret: Box::new(type_view(*ret)),
        },
        Type::VarArgs(t) => TypeView::VarArgs(Box::new(type_view(*t))),
        Type::Inferred => TypeView::Inferred,
        Type::Error => TypeView::Error,
    }
}

/// The views of a sequence of types, element by element.
pub open spec fn types_view<'src>(s: Seq<Type<'src>>) -> Seq<TypeView>
    decreases s,
{
    if s.len() == 0 {
        Seq::empty()
    } else {
        types_view(s.drop_last()).push(type_view(s.last()))
    }
}

impl<'src> View for Type<'src> {
    type V = TypeView;

    open spec fn view(&self) -> TypeView {
        type_view(*self)
    }
}

/// The views of a sequence of types are taken element by element.
pub proof fn lemma_types_view<'src>(s: Seq<Type<'src>>)
    ensures
        types_view(s).len() == s.len(),
        forall|i: int| 0 <= i < s.len() ==> #[trigger] types_view(s)[i] == type_view(s[i]),
    decreases s.len(),
{
    if s.len() > 0 {
        lemma_types_view(s.drop_last());
    }
}

/// Two type sequences whose elements have equal views have equal views.
pub proof fn lemma_types_view_eq<'src>(a: Seq<Type<'src>>, b: Seq<Type<'src>>)
    requires
        a.len() == b.len(),
        forall|i: int| 0 <= i < a.len() ==> type_view(#[trigger] a[i]) == type_view(b[i]),
    ensures
        types_view(a) == types_view(b),
{
    lemma_types_view(a);
    lemma_types_view(b);
    assert(types_view(a) =~= types_view(b));
}

/// Equality of two identifiers' views.
pub fn ident_eq(a: &Ident, b: &Ident) -> (r: bool)
    ensures
        r == (a@ == b@),
{
    a.1.start == b.1.start && a.1.end == b.1.end && str_eq(a.0, b.0)
}

/// Equality of two sequences of types, by view.
fn types_eq(a: &Vec<Type>, b: &Vec<Type>) -> (r: bool)
    ensures
        r == (types_view(a@) == types_view(b@)),
    decreases a,
{
    proof {
        lemma_types_view(a@);
        lemma_types_view(b@);
    }
    if a.len() != b.len() {
        return false;
    }
    let mut i: usize = 0;
    while i < a.len()
        invariant
            i <= a@.len(),
            a@.len() == b@.len(),
            types_view(a@).len() == a@.len(),
            types_view(b@).len() == b@.len(),
            forall|j: int| 0 <= j < a@.len() ==> #[trigger] types_view(a@)[j] == type_view(a@[j]),
            forall|j: int| 0 <= j < b@.len() ==> #[trigger] types_view(b@)[j] == type_view(b@[j]),
            forall|j: int| 0 <= j < i ==> type_view(#[trigger] a@[j]) == type_view(b@[j]),
        decreases a@.len() - i,
    {
        if !type_eq(&a[i], &b[i]) {
            assert(types_view(a@)[i as int] != types_view(b@)[i as int]);
            return false;
        }
        i = i + 1;
    }
    proof {
        lemma_types_view_eq(a@, b@);
    }
    true
}

/// Type equality: whether two types are the same tree, with identifiers
/// compared by text and span.
pub fn type_eq(a: &Type, b: &Type) -> (r: bool)
    ensures
        r == (a@ == b@),
    decreases a,
{
    match (a, b) {
        (Type::I8, Type::I8) | (Type::U8, Type::U8) | (Type::Bool, Type::Bool)
        | (Type::Char, Type::Char) | (Type::I16, Type::I16) | (Type::U16, Type::U16)
        | (Type::I32, Type::I32) | (Type::U32, Type::U32) | (Type::F32, Type::F32)
        | (Type::I64, Type::I64) | (Type::U64, Type::U64) | (Type::F64, Type::F64)
        | (Type::Unit, Type::Unit) | (Type::Str, Type::Str)
        | (Type::Inferred, Type::Inferred) | (Type::Error, Type::Error) => true,
        (Type::Ident(x), Type::Ident(y)) => ident_eq(x, y),
        (Type::Path(x), Type::Path(y)) => {
            assert(a@ == TypeView::Path(idents_view(x@)));
            assert(b@ == TypeView::Path(idents_view(y@)));
            if x.len() != y.len() {
                assert(idents_view(x@).len() != idents_view(y@).len());
                return false;
            }
            let mut i: usize = 0;
            while i < x.len()
                invariant
                    i <= x@.len(),
                    x@.len() == y@.len(),
                    a@ == TypeView::Path(idents_view(x@)),
                    b@ == TypeView::Path(idents_view(y@)),
                    forall|j: int| 0 <= j < i ==> (#[trigger] x@[j])@ == y@[j]@,
                decreases x@.len() - i,
            {
                if !ident_eq(&x[i], &y[i]) {
                    assert(idents_view(x@)[i as int] != idents_view(y@)[i as int]);
                    return false;
                }
                i = i + 1;
            }
            assert(idents_view(x@) =~= idents_view(y@));
            true
        },
        (Type::Tuple(x), Type::Tuple(y)) => types_eq(x, y),
        (Type::Array { typ: t1, len: l1 }, Type::Array { typ: t2, len: l2 }) => {
            let same_len = match (l1, l2) {
                (Some(p), Some(q)) => *p == *q,
                (None, None) => true,
                _ => false,
            };
            same_len && type_eq(t1, t2)
        },
        (Type::Func { params: p1, ret: r1 }, Type::Func { params: p2, ret: r2 }) => {
            types_eq(p1, p2) && type_eq(r1, r2)
        },
        (Type::VarArgs(x), Type::VarArgs(y)) => type_eq(x, y),
        _ => false,
    }
}

/// A copy of a sequence of types.
fn clone_types<'src>(a: &Vec<Type<'src>>) -> (r: Vec<Type<'src>>)
    ensures
        types_view(r@) == types_view(a@),
    decreases a,
{
    let mut r: Vec<Type<'src>> = Vec::new();
    let mut i: usize = 0;
    while i < a.len()
        invariant
            i <= a@.len(),
            r@.len() == i,
            forall|j: int| 0 <= j < i ==> type_view(#[trigger] r@[j]) == type_view(a@[j]),
        decreases a@.len() - i,
    {
        let t = clone_type(&a[i]);
        r.push(t);
        i = i + 1;
    }
    proof {
        lemma_types_view_eq(r@, a@);
    }
    r
}

/// A copy of a type.
pub fn clone_type<'src>(t: &Type<'src>) -> (r: Type<'src>)
    ensures
        r@ == t@,
    decreases t,
{
    match t {
        Type::I8 => Type::I8,
        Type::U8 => Type::U8,
        Type::Bool => Type::Bool,
        Type::Char => Type::Char,
        Type::I16 => Type::I16,
        Type::U16 => Type::U16,
        Type::I32 => Type::I32,
        Type::U32 => Type::U32,
        Type::F32 => Type::F32,
        Type::I64 => Type::I64,
        Type::U64 => Type::U64,
        Type::F64 => Type::F64,
        Type::Unit => Type::Unit,
        Type::Str => Type::Str,
        Type::Ident(i) => Type::Ident(i.copy()),
        Type::Path(p) => {
            let mut r: Vec<Ident<'src>> = Vec::new();
            let mut i: usize = 0;
            while i < p.len()
                invariant
                    i <= p@.len(),
                    r@.len() == i,
                    forall|j: int| 0 <= j < i ==> (#[trigger] r@[j])@ == p@[j]@,
                decreases p@.len() - i,
            {
                r.push(p[i].copy());
                i = i + 1;
            }
            assert(idents_view(r@) =~= idents_view(p@));
            Type::Path(r)
        },
        Type::Tuple(ts) => Type::Tuple(clone_types(ts)),
        Type::Array { typ, len } => Type::Array { typ: Box::new(clone_type(typ)), len: *len },
        Type::Func { params, ret } => Type::Func {
            params: clone_types(params),
            ret: Box::new(clone_type(ret)),
        },
        Type::VarArgs(x) => Type::VarArgs(Box::new(clone_type(x))),
        Type::Inferred => Type::Inferred,
        Type::Error => Type::Error,
    }
}

impl<'src> Clone for Type<'src> {
    fn clone(&self) -> (r: Self)
        ensures
            r@ == self@,
    {
        clone_type(self)
    }
}

/// What may stand on the left of an assignment.
#[derive(Debug, PartialEq)]
pub enum LeftSide<'src> {
    /// a plain variable
    Var(Ident<'src>),
    /// a field, `obj.field`
    Field { obj: Box<Expr<'src>>, name: Ident<'src> },
    /// an element or a slice, `obj[i]` or `obj[i..j]`
    Subscript { obj: Box<Expr<'src>>, sub: Subscript<'src> },
}

/// An index or a slice inside square brackets.
#[derive(Debug, PartialEq)]
pub enum Subscript<'src> {
    Index(Box<Expr<'src>>),
    Range { start: Option<Box<Expr<'src>>>, end: Option<Box<Expr<'src>>> },
}

/// The two kinds of infix operator.
#[derive(Debug, Clone, Copy)]
pub enum InfixKind {
    Binary(BinOp),
    Assign(AssignOp),
}

/// The binary operators.
#[derive(Debug, Clone, Copy, PartialEq, Eq, Structural)]
pub enum BinOp {
    Add,
    Sub,
    Mul,
    Div,
    Mod,
    Power,
    Eq,
    NotEq,
    Less,
    LessEq,
    Greater,
    GreaterEq,
    And,
    Or,
    BitAnd,
    BitOr,
    BitXor,
    Shl,
    Shr,
}

/// The unary operators.
#[derive(Debug, Clone, Copy, PartialEq, Eq, Structural)]
pub enum UnaryOp {
    PreInc,
    PreDec,
    PostInc,
    PostDec,
    Neg,
    Not,
    BitNot,
}

/// The assignment operators.
#[derive(Debug, Clone, Copy, PartialEq, Eq, Structural)]
pub enum AssignOp {
    Assign,
    PlusEq,
    MinusEq,
    StarEq,
    SlashEq,
    PercentEq,
    AndEq,
    OrEq,
    XorEq,
    ShlEq,
    ShrEq,
}

/// Expressions.
#[derive(Debug, PartialEq)]
#[allow(inconsistent_fields)]
pub enum Expr<'src> {
    Ident(Ident<'src>),
    Literal(Literal<'src>),
    Assign { op: AssignOp, lhs: LeftSide<'src>, rhs: Box<Expr<'src>> },
    Unary { op: UnaryOp, expr: Box<Expr<'src>> },
    Binary { op: BinOp, lhs: Box<Expr<'src>>, rhs: Box<Expr<'src>> },
    Call { func: Box<Expr<'src>>, args: Vec<Expr<'src>> },
    Field { obj: Box<Expr<'src>>, name: Ident<'src> },
    Method { receiver: Box<Expr<'src>>, method: Ident<'src>, args: Vec<Expr<'src>> },
    Index { obj: Box<Expr<'src>>, sub: Subscript<'src> },
    /// a scoped block: its statements and the expression it evaluates to, if any
    Block { stmts: Vec<Stmt<'src>>, tail: Option<Box<Expr<'src>>> },
    If { cond: Box<Expr<'src>>, then: Box<Expr<'src>>, else_: Option<Box<Expr<'src>>> },
    While { cond: Box<Expr<'src>>, body: Box<Expr<'src>> },
    Match { item: Box<Expr<'src>>, branches: Vec<Branch<'src>> },
    For { pattern: Pattern<'src>, iter: Box<Expr<'src>>, body: Box<Expr<'src>> },
    /// a range such as `0..5`, `..5` or `0..`
    Range { start: Option<Box<Expr<'src>>>, end: Option<Box<Expr<'src>>> },
    Unknown,
}

/// Patterns of `for` loops and `match` arms.
#[derive(Debug, PartialEq)]
pub enum Pattern<'src> {
    Wildcard,
    Ident(Ident<'src>),
    Literal(Literal<'src>),
    Or(Vec<Pattern<'src>>),
    Range { start: Option<Box<Expr<'src>>>, end: Option<Box<Expr<'src>>> },
    Tuple(Vec<Pattern<'src>>),
}

/// One arm of a `match`.
#[derive(Debug, PartialEq)]
pub struct Branch<'src> {
    pub pattern: Pattern<'src>,
    pub guard: Option<Box<Expr<'src>>>,
    pub body: Stmt<'src>,
}

/// Statements.
#[derive(Debug, PartialEq)]
pub enum Stmt<'src> {
    Expr(Expr<'src>),
    Return(Option<Expr<'src>>),
    Break,
    Continue,
    VarDecl {
        name: Ident<'src>,
        typ: Type<'src>,
        init: Option<Expr<'src>>,
        mutable: bool,
        constant: bool,
        global: bool,
    },
    FuncDecl {
        name: Ident<'src>,
        typ: Type<'src>,
        args: Vec<(Ident<'src>, Type<'src>)>,
        body: Option<Expr<'src>>,
    },
    Error,
}

/// The empty span `0..0`, given to nodes that cover no source.
pub open spec fn empty_span() -> Range<usize> {
    Range { start: 0, end: 0 }
}

/// The span of a range's bounds, given the spans of the bounds present: both
/// joined, the one present, or empty.
pub open spec fn bounds_span(start: Option<Range<usize>>, end: Option<Range<usize>>) -> Range<usize> {
    match (start, end) {
        (Some(s), Some(e)) => join_spec(s, e),
        (Some(s), None) => s,
        (None, Some(e)) => e,
        (None, None) => empty_span(),
    }
}

/// The span of an optional bound.
pub open spec fn opt_span<'src>(b: Option<Box<Expr<'src>>>) -> Option<Range<usize>>
    decreases b,
{
    match b {
        Some(e) => Some(expr_span(*e)),
        None => None,
    }
}

/// The span of the left side of an assignment.
pub open spec fn lhs_span<'src>(l: LeftSide<'src>) -> Range<usize>
    decreases l,
{
    match l {
        LeftSide::Var(i) => i.1,
        LeftSide::Field { obj, name } => join_spec(expr_span(*obj), name.1),
        LeftSide::Subscript { obj, sub } => join_spec(expr_span(*obj), sub_span(sub)),
    }
}

/// The span of a subscript.
pub open spec fn sub_span<'src>(s: Subscript<'src>) -> Range<usize>
    decreases s,
{
    match s {
        Subscript::Index(e) => expr_span(*e),
        Subscript::Range { start, end } => bounds_span(opt_span(start), opt_span(end)),
    }
}

/// The span of an expression: from its first to its last part.
pub open spec fn expr_span<'src>(e: Expr<'src>) -> Range<usize>
    decreases e,
{
    match e {
        Expr::Ident(i) => i.1,
        Expr::Literal(l) => l.span_spec(),
        Expr::Assign { lhs, rhs, .. } => join_spec(lhs_span(lhs), expr_span(*rhs)),
        Expr::Unary { expr, .. } => expr_span(*expr),
        Expr::Binary { lhs, rhs, .. } => join_spec(expr_span(*lhs), expr_span(*rhs)),
        Expr::Call { func, args } => if args@.len() > 0 {
            join_spec(expr_span(*func), expr_span(args@[args@.len() - 1]))
        } else {
            expr_span(*func)
        },
        Expr::Field { obj, name } => join_spec(expr_span(*obj), name.1),
        Expr::Method { receiver, method, args } => if args@.len() > 0 {
            join_spec(expr_span(*receiver), expr_span(args@[args@.len() - 1]))
        } else {
            join_spec(expr_span(*receiver), method.1)
        },
        Expr::Index { obj, sub } => join_spec(expr_span(*obj), sub_span(sub)),
        Expr::Block { stmts, tail } => match tail {
            Some(t) => expr_span(*t),
            None => if stmts@.len() > 0 {
                stmt_span(stmts@[stmts@.len() - 1])
            } else {
                empty_span()
            },
        },
        Expr::If { cond, then, else_ } => match else_ {
            Some(e) => join_spec(expr_span(*cond), expr_span(*e)),
            None => join_spec(expr_span(*cond), expr_span(*then)),
        },
        Expr::While { cond, body } => join_spec(expr_span(*cond), expr_span(*body)),
        Expr::Match { item, branches } => if branches@.len() > 0 {
            join_spec(expr_span(*item), stmt_span(branches@[branches@.len() - 1].body))
        } else {
            expr_span(*item)
        },
        Expr::For { iter, body, .. } => join_spec(expr_span(*iter), expr_span(*body)),
        Expr::Range { start, end } => bounds_span(opt_span(start), opt_span(end)),
        Expr::Unknown => empty_span(),
    }
}

/// The span of a statement.
pub open spec fn stmt_span<'src>(s: Stmt<'src>) -> Range<usize>
    decreases s,
{
    match s {
        Stmt::Expr(e) => expr_span(e),
        Stmt::Return(Some(e)) => expr_span(e),
        Stmt::VarDecl { name, init, .. } => match init {
            Some(e) => join_spec(name.1, expr_span(e)),
            None => name.1,
        },
        Stmt::FuncDecl { name, body, .. } => match body {
            Some(e) => join_spec(name.1, expr_span(e)),
            None => name.1,
        },
        _ => empty_span(),
    }
}

impl<'src> LeftSide<'src> {
    /// The span of the assignment target.
    pub fn span(&self) -> (r: Range<usize>)
        ensures
            r == lhs_span(*self),
        decreases self,
    {
        match self {
            LeftSide::Var(ident) => ident.span(),
            LeftSide::Field { obj, name } => join_spans(obj.span(), name.span()),
            LeftSide::Subscript { obj, sub } => join_spans(obj.span(), sub.span()),
        }
    }
}

/// The span of an optional bound.
fn opt_expr_span(b: &Option<Box<Expr>>) -> (r: Option<Range<usize>>)
    ensures
        r == opt_span(*b),
    decreases b,
{
    match b {
        Some(e) => Some(e.span()),
        None => None,
    }
}

/// The span of a range's bounds, given the spans of the bounds present.
fn join_bounds(start: Option<Range<usize>>, end: Option<Range<usize>>) -> (r: Range<usize>)
    ensures
        r == bounds_span(start, end),
{
    match (start, end) {
        (Some(s), Some(e)) => join_spans(s, e),
        (Some(s), None) => s,
        (None, Some(e)) => e,
        (None, None) => Range { start: 0, end: 0 },
    }
}

impl<'src> Subscript<'src> {
    /// The span of an index or a slice.
    pub fn span(&self) -> (r: Range<usize>)
        ensures
            r == sub_span(*self),
        decreases self,
    {
        match self {
            Subscript::Index(expr) => expr.span(),
            Subscript::Range { start, end } => join_bounds(opt_expr_span(start), opt_expr_span(end)),
        }
    }
}

impl<'src> Expr<'src> {
    /// The span of an expression: from its first to its last part.
    pub fn span(&self) -> (r: Range<usize>)
        ensures
            r == expr_span(*self),
        decreases self,
    {
        match self {
            Expr::Ident(ident) => ident.span(),
            Expr::Literal(literal) => literal.span(),
            Expr::Assign { lhs, rhs, .. } => join_spans(lhs.span(), rhs.span()),
            Expr::Unary { expr, .. } => expr.span(),
            Expr::Binary { lhs, rhs, .. } => join_spans(lhs.span(), rhs.span()),
            Expr::Call { func, args } => {
                if args.len() > 0 {
                    join_spans(func.span(), args[args.len() - 1].span())
                } else {
                    func.span()
                }
            },
            Expr::Field { obj, name } => join_spans(obj.span(), name.span()),
            Expr::Method { receiver, method, args } => {
                if args.len() > 0 {
                    join_spans(receiver.span(), args[args.len() - 1].span())
                } else {
                    join_spans(receiver.span(), method.span())
                }
            },
            Expr::Index { obj, sub } => join_spans(obj.span(), sub.span()),
            Expr::Block { stmts, tail } => match tail {
                Some(t) => t.span(),
                None => {
                    if stmts.len() > 0 {
                        stmts[stmts.len() - 1].span()
                    } else {
                        Range { start: 0, end: 0 }
                    }
                },
            },
            Expr::If { cond, then, else_ } => match else_ {
                Some(e) => join_spans(cond.span(), e.span()),
                None => join_spans(cond.span(), then.span()),
            },
            Expr::While { cond, body } => join_spans(cond.span(), body.span()),
            Expr::Match { item, branches } => {
                if branches.len() > 0 {
                    join_spans(item.span(), branches[branches.len() - 1].body.span())
                } else {
                    item.span()
                }
            },
            Expr::For { iter, body, .. } => join_spans(iter.span(), body.span()),
            Expr::Range { start, end } => join_bounds(opt_expr_span(start), opt_expr_span(end)),
            Expr::Unknown => Range { start: 0, end: 0 },
        }
    }
}

impl<'src> Stmt<'src> {
    /// The span of a statement; `0..0` for statements that carry no source.
    pub fn span(&self) -> (r: Range<usize>)
        ensures
            r == stmt_span(*self),
        decreases self,
    {
        match self {
            Stmt::Expr(expr) => expr.span(),
            Stmt::Return(Some(expr)) => expr.span(),
            Stmt::VarDecl { name, init, .. } => match init {
                Some(e) => join_spans(name.span(), e.span()),
                None => name.span(),
            },
            Stmt::FuncDecl { name, body, .. } => match body {
                Some(e) => join_spans(name.span(), e.span()),
                None => name.span(),
            },
            Stmt::Return(None) | Stmt::Break | Stmt::Continue | Stmt::Error => Range { start: 0, end: 0 },
        }
    }
}

/// A copy of an expression.
fn copy_expr<'src>(e: &Expr<'src>) -> (r: Expr<'src>)
    decreases e,
{
    match e {
        Expr::Ident(i) => Expr::Ident(i.copy()),
        Expr::Literal(l) => Expr::Literal(l.clone()),
        Expr::Assign { op, lhs, rhs } => Expr::Assign { op: *op, lhs: copy_lhs(lhs), rhs: Box::new(copy_expr(rhs)) },
        Expr::Unary { op, expr } => Expr::Unary { op: *op, expr: Box::new(copy_expr(expr)) },
        Expr::Binary { op, lhs, rhs } => Expr::Binary {
            op: *op,
            lhs: Box::new(copy_expr(lhs)),
            rhs: Box::new(copy_expr(rhs)),
        },
        Expr::Call { func, args } => Expr::Call { func: Box::new(copy_expr(func)), args: copy_exprs(args) },
        Expr::Field { obj, name } => Expr::Field { obj: Box::new(copy_expr(obj)), name: name.copy() },
        Expr::Method { receiver, method, args } => Expr::Method {
            receiver: Box::new(copy_expr(receiver)),
            method: method.copy(),
            args: copy_exprs(args),
        },
        Expr::Index { obj, sub } => Expr::Index { obj: Box::new(copy_expr(obj)), sub: copy_subscript(sub) },
        Expr::Block { stmts, tail } => Expr::Block { stmts: copy_stmts(stmts), tail: copy_opt(tail) },
        Expr::If { cond, then, else_ } => Expr::If {
            cond: Box::new(copy_expr(cond)),
            then: Box::new(copy_expr(then)),
            else_: copy_opt(else_),
        },
        Expr::While { cond, body } => Expr::While { cond: Box::new(copy_expr(cond)), body: Box::new(copy_expr(body)) },
        Expr::Match { item, branches } => Expr::Match { item: Box::new(copy_expr(item)), branches: copy_branches(branches) },
        Expr::For { pattern, iter, body } => Expr::For {
            pattern: copy_pattern(pattern),
            iter: Box::new(copy_expr(iter)),
            body: Box::new(copy_expr(body)),
        },
        Expr::Range { start, end } => Expr::Range { start: copy_opt(start), end: copy_opt(end) },
        Expr::Unknown => Expr::Unknown,
    }
}

/// A copy of an optional boxed expression.
fn copy_opt<'src>(e: &Option<Box<Expr<'src>>>) -> (r: Option<Box<Expr<'src>>>)
    decreases e,
{
    match e {
        Some(x) => Some(Box::new(copy_expr(x))),
        None => None,
    }
}

/// A copy of a list of expressions.
fn copy_exprs<'src>(v: &Vec<Expr<'src>>) -> (r: Vec<Expr<'src>>)
    decreases v,
{
    let mut r: Vec<Expr<'src>> = Vec::new();
    let mut i: usize = 0;
    while i < v.len()
        decreases v@.len() - i,
    {
        r.push(copy_expr(&v[i]));
        i = i + 1;
    }
    r
}

/// A copy of an assignment target.
fn copy_lhs<'src>(l: &LeftSide<'src>) -> (r: LeftSide<'src>)
    decreases l,
{
    match l {
        LeftSide::Var(i) => LeftSide::Var(i.copy()),
        LeftSide::Field { obj, name } => LeftSide::Field { obj: Box::new(copy_expr(obj)), name: name.copy() },
        LeftSide::Subscript { obj, sub } => LeftSide::Subscript { obj: Box::new(copy_expr(obj)), sub: copy_subscript(sub) },
    }
}

/// A copy of a subscript.
fn copy_subscript<'src>(s: &Subscript<'src>) -> (r: Subscript<'src>)
    decreases s,
{
    match s {
        Subscript::Index(e) => Subscript::Index(Box::new(copy_expr(e))),
        Subscript::Range { start, end } => Subscript::Range { start: copy_opt(start), end: copy_opt(end) },
    }
}

/// A copy of a pattern.
fn copy_pattern<'src>(p: &Pattern<'src>) -> (r: Pattern<'src>)
    decreases p,
{
    match p {
        Pattern::Wildcard => Pattern::Wildcard,
        Pattern::Ident(i) => Pattern::Ident(i.copy()),
        Pattern::Literal(l) => Pattern::Literal(l.clone()),
        Pattern::Or(ps) => Pattern::Or(copy_patterns(ps)),
        Pattern::Range { start, end } => Pattern::Range { start: copy_opt(start), end: copy_opt(end) },
        Pattern::Tuple(ps) => Pattern::Tuple(copy_patterns(ps)),
    }
}

/// A copy of a list of patterns.
fn copy_patterns<'src>(v: &Vec<Pattern<'src>>) -> (r: Vec<Pattern<'src>>)
    decreases v,
{
    let mut r: Vec<Pattern<'src>> = Vec::new();
    let mut i: usize = 0;
    while i < v.len()
        decreases v@.len() - i,
    {
        r.push(copy_pattern(&v[i]));
        i = i + 1;
    }
    r
}

/// A copy of a `match` arm.
fn copy_branch<'src>(b: &Branch<'src>) -> (r: Branch<'src>)
    decreases b,
{
    Branch { pattern: copy_pattern(&b.pattern), guard: copy_opt(&b.guard), body: copy_stmt(&b.body) }
}

/// A copy of a list of `match` arms.
fn copy_branches<'src>(v: &Vec<Branch<'src>>) -> (r: Vec<Branch<'src>>)
    decreases v,
{
    let mut r: Vec<Branch<'src>> = Vec::new();
    let mut i: usize = 0;
    while i < v.len()
        decreases v@.len() - i,
    {
        r.push(copy_branch(&v[i]));
        i = i + 1;
    }
    r
}

/// A copy of a statement.
fn copy_stmt<'src>(s: &Stmt<'src>) -> (r: Stmt<'src>)
    decreases s,
{
    match s {
        Stmt::Expr(e) => Stmt::Expr(copy_expr(e)),
        Stmt::Return(e) => Stmt::Return(match e {
            Some(x) => Some(copy_expr(x)),
            None => None,
        }),
        Stmt::Break => Stmt::Break,
        Stmt::Continue => Stmt::Continue,
        Stmt::VarDecl { name, typ, init, mutable, constant, global } => Stmt::VarDecl {
            name: name.copy(),
            typ: clone_type(typ),
            init: match init {
                Some(x) => Some(copy_expr(x)),
                None => None,
            },
            mutable: *mutable,
            constant: *constant,
            global: *global,
        },
        Stmt::FuncDecl { name, typ, args, body } => {
            let mut copied: Vec<(Ident<'src>, Type<'src>)> = Vec::new();
            let mut i: usize = 0;
            while i < args.len()
                decreases args@.len() - i,
            {
                copied.push((args[i].0.copy(), clone_type(&args[i].1)));
                i = i + 1;
            }
            Stmt::FuncDecl {
                name: name.copy(),
                typ: clone_type(typ),
                args: copied,
                body: match body {
                    Some(x) => Some(copy_expr(x)),
                    None => None,
                },
            }
        },
        Stmt::Error => Stmt::Error,
    }
}

/// A copy of a list of statements.
fn copy_stmts<'src>(v: &Vec<Stmt<'src>>) -> (r: Vec<Stmt<'src>>)
    decreases v,
{
    let mut r: Vec<Stmt<'src>> = Vec::new();
    let mut i: usize = 0;
    while i < v.len()
        decreases v@.len() - i,
    {
        r.push(copy_stmt(&v[i]));
        i = i + 1;
    }
    r
}

impl<'src> Clone for Expr<'src> {
    fn clone(&self) -> Self {
        copy_expr(self)
    }
}

impl<'src> Clone for LeftSide<'src> {
    fn clone(&self) -> Self {
        copy_lhs(self)
    }
}

impl<'src> Clone for Subscript<'src> {
    fn clone(&self) -> Self {
        copy_subscript(self)
    }
}

impl<'src> Clone for Pattern<'src> {
    fn clone(&self) -> Self {
        copy_pattern(self)
    }
}

impl<'src> Clone for Branch<'src> {
    fn clone(&self) -> Self {
        copy_branch(self)
    }
}

impl<'src> Clone for Stmt<'src> {
    fn clone(&self) -> Self {
        copy_stmt(self)
    }
}

} // verus!
