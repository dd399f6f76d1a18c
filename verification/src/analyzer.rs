//! Semantic analysis: scoped name resolution, type checking and constant
//! folding over the parsed statements.

use vstd::prelude::*;

use core::ops::Range;

use crate::ast::{
    clone_type, type_eq, types_view, AssignOp, BinOp, Expr, Ident, LeftSide, Literal, Stmt, Type,
    TypeView, UnaryOp,
};
use crate::diagnostic::Diagnostic;
use crate::errors::{SemanticError, SyntaxError};
use crate::literal::{float_literal, float_literal_ok, int_literal, int_literal_value};
use crate::semantics::AnalysisContext;
use crate::laws::{law_infer_keeps, lemma_same_shape_lookup};
use crate::text::str_eq;

verus! {

/// What is known of a floating-point literal's value (read as an `f64`):
/// whether it is finite, and whether it lies within `f32`'s range.
#[derive(Debug, Clone, Copy, PartialEq, Eq, Structural)]
pub struct FloatRange {
    pub finite: bool,
    pub in_f32: bool,
}

/// A constant value found by folding. Integers are held exactly; a
/// floating-point value cannot be held, so of a floating-point constant
/// only this is tracked: `single` when it was written as a literal, which
/// may be stored in an `f32` (a constant held by an `f64` binding is a
/// double, which cannot be narrowed to `f32` without losing precision), and
/// whether the value is finite and within `f32`'s range.
#[derive(Debug, Clone, Copy, PartialEq, Eq, Structural)]
pub enum ConstValue {
    Int(i128),
    Float { single: bool, finite: bool, in_f32: bool },
    Bool(bool),
    Char,
    String,
    Unit,
}

/// Whether a constant can be stored in a type.
#[derive(Debug, Clone, Copy, PartialEq, Eq, Structural)]
pub enum ConstFit {
    Fits,
    Overflow,
    Incompatible,
}

/// The size class of a numeric type: 1 to 4 for the 8- to 64-bit integers,
/// 5 for `f32`, 6 for `f64`.
pub open spec fn rank_of(t: TypeView) -> Option<u8> {
    match t {
        TypeView::I8 | TypeView::U8 => Some(1),
        TypeView::I16 | TypeView::U16 => Some(2),
        TypeView::I32 | TypeView::U32 => Some(3),
        TypeView::I64 | TypeView::U64 => Some(4),
        TypeView::F32 => Some(5),
        TypeView::F64 => Some(6),
        _ => None,
    }
}

/// The family of a numeric type: 0 signed integers, 1 unsigned, 2 floats.
pub open spec fn family_of(t: TypeView) -> Option<u8> {
    match t {
        TypeView::I8 | TypeView::I16 | TypeView::I32 | TypeView::I64 => Some(0),
        TypeView::U8 | TypeView::U16 | TypeView::U32 | TypeView::U64 => Some(1),
        TypeView::F32 | TypeView::F64 => Some(2),
        _ => None,
    }
}

/// Whether `t` is an integer type.
pub open spec fn integral(t: TypeView) -> bool {
    family_of(t) matches Some(f) && f < 2
}

/// Whether `t` is a signed numeric type (signed integers and floats).
pub open spec fn signed_numeric(t: TypeView) -> bool {
    family_of(t) matches Some(f) && f != 1
}

/// A value of type `actual` may be stored where `expected` is wanted: the
/// types are equal, or both are numeric of the same family and `expected`
/// is at least as wide.
pub open spec fn assignable(expected: TypeView, actual: TypeView) -> bool {
    ||| expected == actual
    ||| {
        &&& family_of(expected) is Some
        &&& family_of(expected) == family_of(actual)
        &&& rank_of(expected)->0 >= rank_of(actual)->0
    }
}

/// The type two operands are brought to: the one the other is assignable to.
pub open spec fn common_type(lhs: TypeView, rhs: TypeView) -> Option<TypeView> {
    if assignable(lhs, rhs) {
        Some(lhs)
    } else if assignable(rhs, lhs) {
        Some(rhs)
    } else {
        None
    }
}

/// The view of an optional type.
pub open spec fn opt_view(t: Option<Type>) -> Option<TypeView> {
    match t {
        Some(t) => Some(t@),
        None => None,
    }
}

/// Whether a constant can be stored in a declared type: integers fit an
/// integer type when within its range (and always fit a float type), a
/// floating-point constant fits `f64`, and `f32` when it is a single-
/// precision literal (a double is refused: narrowing it would silently
/// lose precision), and booleans,
/// characters, strings and unit fit their own type.
pub open spec fn const_fit_spec(declared: TypeView, value: ConstValue) -> ConstFit {
    match (declared, value) {
        (TypeView::I8, ConstValue::Int(v)) => if i8::MIN <= v <= i8::MAX { ConstFit::Fits } else { ConstFit::Overflow },
        (TypeView::I16, ConstValue::Int(v)) => if i16::MIN <= v <= i16::MAX { ConstFit::Fits } else { ConstFit::Overflow },
        (TypeView::I32, ConstValue::Int(v)) => if i32::MIN <= v <= i32::MAX { ConstFit::Fits } else { ConstFit::Overflow },
        (TypeView::I64, ConstValue::Int(v)) => if i64::MIN <= v <= i64::MAX { ConstFit::Fits } else { ConstFit::Overflow },
        (TypeView::U8, ConstValue::Int(v)) => if 0 <= v <= u8::MAX { ConstFit::Fits } else { ConstFit::Overflow },
        (TypeView::U16, ConstValue::Int(v)) => if 0 <= v <= u16::MAX { ConstFit::Fits } else { ConstFit::Overflow },
        (TypeView::U32, ConstValue::Int(v)) => if 0 <= v <= u32::MAX { ConstFit::Fits } else { ConstFit::Overflow },
        (TypeView::U64, ConstValue::Int(v)) => if 0 <= v <= u64::MAX { ConstFit::Fits } else { ConstFit::Overflow },
        (TypeView::F32, ConstValue::Int(_)) | (TypeView::F64, ConstValue::Int(_)) => ConstFit::Fits,
        (TypeView::F32, ConstValue::Float { single, finite, in_f32 }) => if !(finite && in_f32) {
            ConstFit::Overflow
        } else if single {
            ConstFit::Fits
        } else {
            ConstFit::Incompatible
        },
        (TypeView::F64, ConstValue::Float { finite, .. }) => if finite { ConstFit::Fits } else { ConstFit::Overflow },
        (TypeView::Bool, ConstValue::Bool(_)) | (TypeView::Char, ConstValue::Char) | (TypeView::Str, ConstValue::String)
        | (TypeView::Unit, ConstValue::Unit) => ConstFit::Fits,
        _ => ConstFit::Incompatible,
    }
}

/// A constant as a binding of type `t` holds it: a floating-point constant
/// held by an `f64` binding is a double.
pub open spec fn held_as(t: TypeView, v: ConstValue) -> ConstValue {
    match (t, v) {
        (TypeView::F64, ConstValue::Float { finite, in_f32, .. }) => ConstValue::Float { single: false, finite, in_f32 },
        _ => v,
    }
}

/// A constant kept, as a binding of type `t` holds it, only when it fits
/// the type.
pub open spec fn sanitized(t: TypeView, value: Option<ConstValue>) -> Option<ConstValue> {
    match value {
        Some(v) => if const_fit_spec(t, v) == ConstFit::Fits { Some(held_as(t, v)) } else { None },
        None => None,
    }
}

/// What `floats` records of the floating-point literal `text`; a literal
/// not recorded is taken to be finite and within `f32`'s range.
pub open spec fn float_range_of<'src>(floats: Seq<(&'src str, FloatRange)>, text: &str) -> FloatRange {
    match find_in(floats, text@) {
        Some(i) => floats[i].1,
        None => FloatRange { finite: true, in_f32: true },
    }
}

/// The constant a literal denotes, if it reads as one.
pub open spec fn literal_const<'src>(floats: Seq<(&'src str, FloatRange)>, l: Literal) -> Option<ConstValue> {
    match l {
        Literal::Int(text, _) => match int_literal_value(text@) {
            Some(v) => Some(ConstValue::Int(v)),
            None => None,
        },
        Literal::Float(text, _) => if float_literal_ok(text@) {
            let r = float_range_of(floats, text);
            Some(ConstValue::Float { single: true, finite: r.finite, in_f32: r.in_f32 })
        } else {
            None
        },
        Literal::Bool(b, _) => Some(ConstValue::Bool(b)),
        Literal::Char(_, _) => Some(ConstValue::Char),
        Literal::String(_, _) => Some(ConstValue::String),
        Literal::Unit(_) => Some(ConstValue::Unit),
    }
}

/// `base` to the power `exp`.
pub open spec fn ipow(base: int, exp: nat) -> int
    decreases exp,
{
    if exp == 0 {
        1
    } else {
        base * ipow(base, (exp - 1) as nat)
    }
}

/// An `i128` result when `v` fits, nothing otherwise.
pub open spec fn checked_int(v: int) -> Option<ConstValue> {
    if i128::MIN <= v <= i128::MAX {
        Some(ConstValue::Int(v as i128))
    } else {
        None
    }
}

/// Folding a binary operator over two integer constants, with `i128`
/// checked arithmetic: division and remainder truncate toward zero, shifts
/// and powers take a non-negative `u32` right operand (shifts below 128),
/// and the logical operators do not apply.
pub open spec fn int_binary(op: BinOp, l: i128, r: i128) -> Option<ConstValue> {
    match op {
        BinOp::Add => checked_int(l + r),
        BinOp::Sub => checked_int(l - r),
        BinOp::Mul => checked_int(l * r),
        BinOp::Div => match l.checked_div(r) {
            Some(v) => Some(ConstValue::Int(v)),
            None => None,
        },
        BinOp::Mod => match l.checked_rem(r) {
            Some(v) => Some(ConstValue::Int(v)),
            None => None,
        },
        BinOp::Power => if 0 <= r <= u32::MAX { checked_int(ipow(l as int, r as nat)) } else { None },
        BinOp::Eq => Some(ConstValue::Bool(l == r)),
        BinOp::NotEq => Some(ConstValue::Bool(l != r)),
        BinOp::Less => Some(ConstValue::Bool(l < r)),
        BinOp::LessEq => Some(ConstValue::Bool(l <= r)),
        BinOp::Greater => Some(ConstValue::Bool(l > r)),
        BinOp::GreaterEq => Some(ConstValue::Bool(l >= r)),
        BinOp::BitAnd => Some(ConstValue::Int(l & r)),
        BinOp::BitOr => Some(ConstValue::Int(l | r)),
        BinOp::BitXor => Some(ConstValue::Int(l ^ r)),
        BinOp::Shl => if 0 <= r < 128 { Some(ConstValue::Int(l.wrapping_shl(r as u32))) } else { None },
        BinOp::Shr => if 0 <= r < 128 { Some(ConstValue::Int(l.wrapping_shr(r as u32))) } else { None },
        BinOp::And | BinOp::Or => None,
    }
}

/// Folding a binary operator over two boolean constants.
pub open spec fn bool_binary(op: BinOp, l: bool, r: bool) -> Option<ConstValue> {
    match op {
        BinOp::Eq => Some(ConstValue::Bool(l == r)),
        BinOp::NotEq => Some(ConstValue::Bool(l != r)),
        BinOp::And => Some(ConstValue::Bool(l && r)),
        BinOp::Or => Some(ConstValue::Bool(l || r)),
        _ => None,
    }
}

/// The type of a literal without context: integers are `i64`, floats `f64`.
pub open spec fn literal_type(l: Literal) -> TypeView {
    match l {
        Literal::Int(_, _) => TypeView::I64,
        Literal::Float(_, _) => TypeView::F64,
        Literal::Bool(_, _) => TypeView::Bool,
        Literal::Char(_, _) => TypeView::Char,
        Literal::String(_, _) => TypeView::Str,
        Literal::Unit(_) => TypeView::Unit,
    }
}

/// The type of a literal where `expected` is wanted: `expected` itself when
/// the literal's constant fits it, its own type otherwise.
pub open spec fn literal_type_hinted<'src>(floats: Seq<(&'src str, FloatRange)>, l: Literal, expected: Option<TypeView>) -> TypeView {
    match expected {
        Some(e) => match literal_const(floats, l) {
            Some(v) => if const_fit_spec(e, v) == ConstFit::Fits { e } else { literal_type(l) },
            None => literal_type(l),
        },
        None => literal_type(l),
    }
}

/// The outcome of checking a binary operator on operand types: arithmetic
/// takes the common numeric type, bitwise operators want integers,
/// logical operators booleans, equality numeric or equal types, ordering
/// numeric types; comparisons give `bool`.
pub open spec fn binary_check(op: BinOp, l: TypeView, r: TypeView) -> Result<TypeView, SemanticError<'static>> {
    match op {
        BinOp::Add | BinOp::Sub | BinOp::Mul | BinOp::Div | BinOp::Mod | BinOp::Power => match common_type(l, r) {
            Some(t) => Ok(t),
            None => Err(SemanticError::InvalidOperation("binary operands are not type-compatible for this operator")),
        },
        BinOp::BitAnd | BinOp::BitOr | BinOp::BitXor | BinOp::Shl | BinOp::Shr => if integral(l) && integral(r) {
            match common_type(l, r) {
                Some(t) => Ok(t),
                None => Err(SemanticError::InvalidOperation("binary operands are not type-compatible for this operator")),
            }
        } else {
            Err(SemanticError::InvalidOperation("bitwise operators require integral operands"))
        },
        BinOp::And | BinOp::Or => if l == TypeView::Bool && r == TypeView::Bool {
            Ok(TypeView::Bool)
        } else {
            Err(SemanticError::InvalidOperation("logical operators require bool operands"))
        },
        BinOp::Eq | BinOp::NotEq => if (rank_of(l) is Some && rank_of(r) is Some) || l == r {
            Ok(TypeView::Bool)
        } else {
            Err(SemanticError::InvalidOperation("equality operands must have the same or compatible numeric types"))
        },
        BinOp::Less | BinOp::LessEq | BinOp::Greater | BinOp::GreaterEq => if rank_of(l) is Some && rank_of(r) is Some {
            Ok(TypeView::Bool)
        } else {
            Err(SemanticError::InvalidOperation("comparison operators require compatible numeric operands"))
        },
    }
}

/// The type a declaration gets from its declared type and the type of its
/// initializer.
pub open spec fn decl_type(declared: TypeView, init: Option<TypeView>) -> Result<TypeView, SemanticError<'static>> {
    match (declared, init) {
        (TypeView::Inferred, Some(actual)) => Ok(actual),
        (TypeView::Inferred, None) => Err(SemanticError::TypeInference("inferred declarations require an initializer")),
        (declared, None) => Ok(declared),
        (declared, Some(actual)) => if assignable(declared, actual) {
            Ok(declared)
        } else {
            Err(SemanticError::TypeMismatch("initializer type is not assignable to declared type"))
        },
    }
}

/// Whether an assignment with `op` may store a value of type `rhs` into a
/// target of type `target`: plain assignment wants assignability, compound
/// arithmetic also a numeric target, compound bitwise an integer target.
pub open spec fn assign_check(op: AssignOp, target: TypeView, rhs: TypeView) -> Result<(), SemanticError<'static>> {
    match op {
        AssignOp::Assign => if assignable(target, rhs) {
            Ok(())
        } else {
            Err(SemanticError::TypeMismatch("assigned value is not assignable to the target type"))
        },
        AssignOp::PlusEq | AssignOp::MinusEq | AssignOp::StarEq | AssignOp::SlashEq | AssignOp::PercentEq => {
            if rank_of(target) is Some && assignable(target, rhs) {
                Ok(())
            } else {
                Err(SemanticError::InvalidOperation(
                    "compound arithmetic assignment requires a numeric target and compatible value"))
            }
        },
        _ => if integral(target) && assignable(target, rhs) {
            Ok(())
        } else {
            Err(SemanticError::InvalidOperation("bitwise assignment requires an integral target and compatible value"))
        },
    }
}

/// `base` to the power `exp` grows in magnitude with `exp` when `|base| >= 2`:
/// each step at least doubles it.
proof fn lemma_ipow_grows(base: int, exp: nat)
    requires
        base >= 2 || base <= -2,
    ensures
        ipow(base, exp + 1) * ipow(base, exp + 1) >= 4 * ipow(base, exp) * ipow(base, exp),
        ipow(base, exp) != 0,
    decreases exp,
{
    lemma_ipow_nonzero(base, exp);
    let p = ipow(base, exp);
    assert(ipow(base, exp + 1) == base * p);
    assert((base * p) * (base * p) >= 4 * p * p) by (nonlinear_arith)
        requires
            base >= 2 || base <= -2,
    ;
}

/// Powers of a non-zero base are non-zero.
proof fn lemma_ipow_nonzero(base: int, exp: nat)
    requires
        base != 0,
    ensures
        ipow(base, exp) != 0,
    decreases exp,
{
    if exp > 0 {
        lemma_ipow_nonzero(base, (exp - 1) as nat);
        let p = ipow(base, (exp - 1) as nat);
        assert(base * p != 0) by (nonlinear_arith)
            requires
                base != 0,
                p != 0,
        ;
    }
}

/// Once a power of `base` (`|base| >= 2`) leaves the `i128` range, every
/// higher power is outside it too.
proof fn lemma_ipow_stays_out(base: int, k: nat, e: nat)
    requires
        base >= 2 || base <= -2,
        k <= e,
        !(i128::MIN <= ipow(base, k) <= i128::MAX),
    ensures
        !(i128::MIN <= ipow(base, e) <= i128::MAX),
    decreases e - k,
{
    if k < e {
        lemma_ipow_grows(base, k);
        let p = ipow(base, k);
        let q = ipow(base, k + 1);
        assert(q * q >= 4 * p * p);
        assert(!(i128::MIN <= q <= i128::MAX)) by (nonlinear_arith)
            requires
                q * q >= 4 * p * p,
                !(i128::MIN <= p <= i128::MAX),
        ;
        lemma_ipow_stays_out(base, k + 1, e);
    }
}

/// Powers of 0, 1 and -1.
proof fn lemma_ipow_small(base: int, exp: nat)
    requires
        -1 <= base <= 1,
    ensures
        base == 0 ==> ipow(base, exp) == if exp == 0 { 1int } else { 0int },
        base == 1 ==> ipow(base, exp) == 1,
        base == -1 ==> ipow(base, exp) == if exp % 2 == 0 { 1int } else { -1int },
    decreases exp,
{
    if exp > 0 {
        lemma_ipow_small(base, (exp - 1) as nat);
    }
}

/// `base` to the power `exp` when it fits in `i128`.
fn checked_pow(base: i128, exp: u32) -> (r: Option<i128>)
    ensures
        r == (if i128::MIN <= ipow(base as int, exp as nat) <= i128::MAX {
            Some(ipow(base as int, exp as nat) as i128)
        } else {
            None::<i128>
        }),
{
    if -1 <= base && base <= 1 {
        proof {
            lemma_ipow_small(base as int, exp as nat);
        }
        if base == 0 {
            return if exp == 0 { Some(1) } else { Some(0) };
        } else if base == 1 {
            return Some(1);
        } else {
            return if exp % 2 == 0 { Some(1) } else { Some(-1) };
        }
    }
    let mut acc: i128 = 1;
    let mut i: u32 = 0;
    while i < exp
        invariant
            i <= exp,
            base >= 2 || base <= -2,
            acc as int == ipow(base as int, i as nat),
        decreases exp - i,
    {
        match acc.checked_mul(base) {
            Some(v) => {
                acc = v;
            },
            None => {
                proof {
                    assert(ipow(base as int, (i + 1) as nat) == base * acc);
                    lemma_ipow_stays_out(base as int, (i + 1) as nat, exp as nat);
                }
                return None;
            },
        }
        i = i + 1;
    }
    Some(acc)
}

/// The size class of a numeric type.
fn numeric_rank(typ: &Type) -> (r: Option<u8>)
    ensures
        r == rank_of(typ@),
{
    match typ {
        Type::I8 | Type::U8 => Some(1),
        Type::I16 | Type::U16 => Some(2),
        Type::I32 | Type::U32 => Some(3),
        Type::I64 | Type::U64 => Some(4),
        Type::F32 => Some(5),
        Type::F64 => Some(6),
        _ => None,
    }
}

/// The family of a numeric type.
fn numeric_family(typ: &Type) -> (r: Option<u8>)
    ensures
        r == family_of(typ@),
{
    match typ {
        Type::I8 | Type::I16 | Type::I32 | Type::I64 => Some(0),
        Type::U8 | Type::U16 | Type::U32 | Type::U64 => Some(1),
        Type::F32 | Type::F64 => Some(2),
        _ => None,
    }
}

/// Whether `typ` is numeric.
fn is_numeric(typ: &Type) -> (r: bool)
    ensures
        r == (rank_of(typ@) is Some),
{
    numeric_rank(typ).is_some()
}

/// Whether `typ` is an integer type.
fn is_integral(typ: &Type) -> (r: bool)
    ensures
        r == integral(typ@),
{
    matches!(typ, Type::I8 | Type::I16 | Type::I32 | Type::I64 | Type::U8 | Type::U16 | Type::U32 | Type::U64)
}

/// Whether `typ` is a signed numeric type.
fn is_signed_numeric(typ: &Type) -> (r: bool)
    ensures
        r == signed_numeric(typ@),
{
    matches!(typ, Type::I8 | Type::I16 | Type::I32 | Type::I64 | Type::F32 | Type::F64)
}

/// Whether two types can be compared for equality.
fn are_comparable_for_equality(lhs: &Type, rhs: &Type) -> (r: bool)
    ensures
        r == ((rank_of(lhs@) is Some && rank_of(rhs@) is Some) || lhs@ == rhs@),
{
    (is_numeric(lhs) && is_numeric(rhs)) || type_eq(lhs, rhs)
}

/// Whether two types can be compared for ordering.
fn are_comparable_for_ordering(lhs: &Type, rhs: &Type) -> (r: bool)
    ensures
        r == (rank_of(lhs@) is Some && rank_of(rhs@) is Some),
{
    is_numeric(lhs) && is_numeric(rhs)
}

/// Whether a value of type `actual` may be stored where `expected` is wanted.
pub fn can_assign(expected: &Type, actual: &Type) -> (r: bool)
    ensures
        r == assignable(expected@, actual@),
{
    if type_eq(expected, actual) {
        return true;
    }
    match (numeric_family(expected), numeric_family(actual), numeric_rank(expected), numeric_rank(actual)) {
        (Some(ef), Some(af), Some(er), Some(ar)) => ef == af && er >= ar,
        _ => false,
    }
}

/// The type two numeric operands are brought to, if any.
fn common_numeric_type<'src>(lhs_type: &Type<'src>, rhs_type: &Type<'src>) -> (r: Option<Type<'src>>)
    ensures
        opt_view(r) == common_type(lhs_type@, rhs_type@),
{
    if can_assign(lhs_type, rhs_type) {
        Some(clone_type(lhs_type))
    } else if can_assign(rhs_type, lhs_type) {
        Some(clone_type(rhs_type))
    } else {
        None
    }
}

/// Whether a constant can be stored in a declared type.
pub fn const_fit(declared: &Type, value: &ConstValue) -> (r: ConstFit)
    ensures
        r == const_fit_spec(declared@, *value),
{
    let int_fit = |fits: bool| -> (f: ConstFit)
        ensures
            f == (if fits { ConstFit::Fits } else { ConstFit::Overflow }),
        { if fits { ConstFit::Fits } else { ConstFit::Overflow } };
    match (declared, value) {
        (Type::I8, ConstValue::Int(v)) => int_fit(-128 <= *v && *v <= 127),
        (Type::I16, ConstValue::Int(v)) => int_fit(-32768 <= *v && *v <= 32767),
        (Type::I32, ConstValue::Int(v)) => int_fit(-2147483648 <= *v && *v <= 2147483647),
        (Type::I64, ConstValue::Int(v)) => int_fit(-9223372036854775808 <= *v && *v <= 9223372036854775807),
        (Type::U8, ConstValue::Int(v)) => int_fit(0 <= *v && *v <= 255),
        (Type::U16, ConstValue::Int(v)) => int_fit(0 <= *v && *v <= 65535),
        (Type::U32, ConstValue::Int(v)) => int_fit(0 <= *v && *v <= 4294967295),
        (Type::U64, ConstValue::Int(v)) => int_fit(0 <= *v && *v <= 18446744073709551615),
        (Type::F32, ConstValue::Int(_)) | (Type::F64, ConstValue::Int(_)) => ConstFit::Fits,
        (Type::F32, ConstValue::Float { single, finite, in_f32 }) => if !(*finite && *in_f32) {
            ConstFit::Overflow
        } else if *single {
            ConstFit::Fits
        } else {
            ConstFit::Incompatible
        },
        (Type::F64, ConstValue::Float { finite, .. }) => if *finite { ConstFit::Fits } else { ConstFit::Overflow },
        (Type::Bool, ConstValue::Bool(_)) | (Type::Char, ConstValue::Char) | (Type::Str, ConstValue::String)
        | (Type::Unit, ConstValue::Unit) => ConstFit::Fits,
        _ => ConstFit::Incompatible,
    }
}

/// A constant kept only when it fits the type.
fn sanitized_const_value(typ: &Type, value: Option<ConstValue>) -> (r: Option<ConstValue>)
    ensures
        r == sanitized(typ@, value),
{
    match value {
        Some(v) => if const_fit(typ, &v) == ConstFit::Fits {
            match (typ, v) {
                (Type::F64, ConstValue::Float { finite, in_f32, .. }) => Some(ConstValue::Float { single: false, finite, in_f32 }),
                _ => Some(v),
            }
        } else {
            None
        },
        None => None,
    }
}

/// What `floats` records of the floating-point literal `text`.
fn float_range(floats: &Vec<(&str, FloatRange)>, text: &str) -> (r: FloatRange)
    ensures
        r == float_range_of(floats@, text),
{
    match find_entry(floats, text) {
        Some(i) => floats[i].1,
        None => FloatRange { finite: true, in_f32: true },
    }
}

/// The constant a literal denotes, if it reads as one.
fn const_from_literal(floats: &Vec<(&str, FloatRange)>, literal: &Literal) -> (r: Option<ConstValue>)
    ensures
        r == literal_const(floats@, *literal),
{
    match literal {
        Literal::Int(value, _) => match int_literal(value) {
            Some(v) => Some(ConstValue::Int(v)),
            None => None,
        },
        Literal::Float(value, _) => if float_literal(value) {
            let range = float_range(floats, value);
            Some(ConstValue::Float { single: true, finite: range.finite, in_f32: range.in_f32 })
        } else {
            None
        },
        Literal::Bool(value, _) => Some(ConstValue::Bool(*value)),
        Literal::Char(_, _) => Some(ConstValue::Char),
        Literal::String(_, _) => Some(ConstValue::String),
        Literal::Unit(_) => Some(ConstValue::Unit),
    }
}

/// A `u32` right operand, when the value is one.
fn to_u32(v: i128) -> (r: Option<u32>)
    ensures
        r == (if 0 <= v <= u32::MAX { Some(v as u32) } else { None::<u32> }),
{
    if 0 <= v && v <= 4294967295 {
        Some(v as u32)
    } else {
        None
    }
}

/// An `i128` result wrapped as a constant.
fn int_value(v: Option<i128>) -> (r: Option<ConstValue>)
    ensures
        r == (match v {
            Some(x) => Some(ConstValue::Int(x)),
            None => None::<ConstValue>,
        }),
{
    match v {
        Some(x) => Some(ConstValue::Int(x)),
        None => None,
    }
}

/// Folds a binary operator over two integer constants.
fn eval_int_binary(op: BinOp, lhs: i128, rhs: i128) -> (r: Option<ConstValue>)
    ensures
        r == int_binary(op, lhs, rhs),
{
    match op {
        BinOp::Add => int_value(lhs.checked_add(rhs)),
        BinOp::Sub => int_value(lhs.checked_sub(rhs)),
        BinOp::Mul => int_value(lhs.checked_mul(rhs)),
        BinOp::Div => int_value(lhs.checked_div(rhs)),
        BinOp::Mod => int_value(lhs.checked_rem(rhs)),
        BinOp::Power => match to_u32(rhs) {
            Some(e) => int_value(checked_pow(lhs, e)),
            None => None,
        },
        BinOp::Eq => Some(ConstValue::Bool(lhs == rhs)),
        BinOp::NotEq => Some(ConstValue::Bool(lhs != rhs)),
        BinOp::Less => Some(ConstValue::Bool(lhs < rhs)),
        BinOp::LessEq => Some(ConstValue::Bool(lhs <= rhs)),
        BinOp::Greater => Some(ConstValue::Bool(lhs > rhs)),
        BinOp::GreaterEq => Some(ConstValue::Bool(lhs >= rhs)),
        BinOp::BitAnd => Some(ConstValue::Int(lhs & rhs)),
        BinOp::BitOr => Some(ConstValue::Int(lhs | rhs)),
        BinOp::BitXor => Some(ConstValue::Int(lhs ^ rhs)),
        BinOp::Shl => match to_u32(rhs) {
            Some(n) => if n < 128 { Some(ConstValue::Int(lhs.wrapping_shl(n))) } else { None },
            None => None,
        },
        BinOp::Shr => match to_u32(rhs) {
            Some(n) => if n < 128 { Some(ConstValue::Int(lhs.wrapping_shr(n))) } else { None },
            None => None,
        },
        BinOp::And | BinOp::Or => None,
    }
}

/// Folds a binary operator over two boolean constants.
fn eval_bool_binary(op: BinOp, lhs: bool, rhs: bool) -> (r: Option<ConstValue>)
    ensures
        r == bool_binary(op, lhs, rhs),
{
    match op {
        BinOp::Eq => Some(ConstValue::Bool(lhs == rhs)),
        BinOp::NotEq => Some(ConstValue::Bool(lhs != rhs)),
        BinOp::And => Some(ConstValue::Bool(lhs && rhs)),
        BinOp::Or => Some(ConstValue::Bool(lhs || rhs)),
        _ => None,
    }
}

/// The view of a typing outcome.
pub open spec fn result_view<'src>(r: Result<Type<'src>, SemanticError<'src>>) -> Result<TypeView, SemanticError<'src>> {
    match r {
        Ok(t) => Ok(t@),
        Err(e) => Err(e),
    }
}

/// Checks a binary operator against its operand types.
fn check_binary_op<'src>(op: &BinOp, lhs_type: Type<'src>, rhs_type: Type<'src>) -> (r: Result<Type<'src>, SemanticError<'src>>)
    ensures
        result_view(r) == binary_check(*op, lhs_type@, rhs_type@),
{
    match op {
        BinOp::Add | BinOp::Sub | BinOp::Mul | BinOp::Div | BinOp::Mod | BinOp::Power => {
            match common_numeric_type(&lhs_type, &rhs_type) {
                Some(t) => Ok(t),
                None => Err(SemanticError::InvalidOperation("binary operands are not type-compatible for this operator")),
            }
        },
        BinOp::BitAnd | BinOp::BitOr | BinOp::BitXor | BinOp::Shl | BinOp::Shr => {
            if is_integral(&lhs_type) && is_integral(&rhs_type) {
                match common_numeric_type(&lhs_type, &rhs_type) {
                    Some(t) => Ok(t),
                    None => Err(SemanticError::InvalidOperation(
                        "binary operands are not type-compatible for this operator",
                    )),
                }
            } else {
                Err(SemanticError::InvalidOperation("bitwise operators require integral operands"))
            }
        },
        BinOp::And | BinOp::Or => {
            if matches!(lhs_type, Type::Bool) && matches!(rhs_type, Type::Bool) {
                Ok(Type::Bool)
            } else {
                Err(SemanticError::InvalidOperation("logical operators require bool operands"))
            }
        },
        BinOp::Eq | BinOp::NotEq => {
            if are_comparable_for_equality(&lhs_type, &rhs_type) {
                Ok(Type::Bool)
            } else {
                Err(SemanticError::InvalidOperation(
                    "equality operands must have the same or compatible numeric types",
                ))
            }
        },
        BinOp::Less | BinOp::LessEq | BinOp::Greater | BinOp::GreaterEq => {
            if are_comparable_for_ordering(&lhs_type, &rhs_type) {
                Ok(Type::Bool)
            } else {
                Err(SemanticError::InvalidOperation("comparison operators require compatible numeric operands"))
            }
        },
    }
}

/// The type a declaration gets from its declared type and its initializer's type.
fn resolve_decl_type<'src>(declared: &Type<'src>, init_type: Option<&Type<'src>>) -> (r: Result<Type<'src>, SemanticError<'src>>)
    ensures
        result_view(r) == decl_type(declared@, match init_type {
            Some(t) => Some(t@),
            None => None,
        }),
{
    match (declared, init_type) {
        (Type::Inferred, Some(actual)) => Ok(clone_type(actual)),
        (Type::Inferred, None) => Err(SemanticError::TypeInference("inferred declarations require an initializer")),
        (declared, None) => Ok(clone_type(declared)),
        (declared, Some(actual)) => {
            if can_assign(declared, actual) {
                Ok(clone_type(declared))
            } else {
                Err(SemanticError::TypeMismatch("initializer type is not assignable to declared type"))
            }
        },
    }
}

/// Checks that an assignment with `op` may store a value of type `rhs_type`
/// into a target of type `target_type`.
fn check_assign_compatibility<'src>(op: &AssignOp, target_type: &Type<'src>, rhs_type: &Type<'src>) -> (r: Result<(), SemanticError<'src>>)
    ensures
        r == assign_check(*op, target_type@, rhs_type@),
{
    match op {
        AssignOp::Assign => {
            if can_assign(target_type, rhs_type) {
                Ok(())
            } else {
                Err(SemanticError::TypeMismatch("assigned value is not assignable to the target type"))
            }
        },
        AssignOp::PlusEq | AssignOp::MinusEq | AssignOp::StarEq | AssignOp::SlashEq | AssignOp::PercentEq => {
            if is_numeric(target_type) && can_assign(target_type, rhs_type) {
                Ok(())
            } else {
                Err(SemanticError::InvalidOperation(
                    "compound arithmetic assignment requires a numeric target and compatible value",
                ))
            }
        },
        AssignOp::AndEq | AssignOp::OrEq | AssignOp::XorEq | AssignOp::ShlEq | AssignOp::ShrEq => {
            if is_integral(target_type) && can_assign(target_type, rhs_type) {
                Ok(())
            } else {
                Err(SemanticError::InvalidOperation(
                    "bitwise assignment requires an integral target and compatible value",
                ))
            }
        },
    }
}

/// The type of a literal without context.
fn infer_literal_type<'src>(literal: &Literal<'src>) -> (r: Type<'src>)
    ensures
        r@ == literal_type(*literal),
{
    match literal {
        Literal::Int(_, _) => Type::I64,
        Literal::Float(_, _) => Type::F64,
        Literal::Bool(_, _) => Type::Bool,
        Literal::Char(_, _) => Type::Char,
        Literal::String(_, _) => Type::Str,
        Literal::Unit(_) => Type::Unit,
    }
}

/// The type of a literal where `expected` is wanted.
fn infer_literal_type_with_hint<'src>(floats: &Vec<(&'src str, FloatRange)>, literal: &Literal<'src>, expected: Option<&Type<'src>>) -> (r: Type<'src>)
    ensures
        r@ == literal_type_hinted(floats@, *literal, match expected {
            Some(t) => Some(t@),
            None => None,
        }),
{
    let expected = match expected {
        Some(e) => e,
        None => return infer_literal_type(literal),
    };
    match const_from_literal(floats, literal) {
        Some(value) => {
            if const_fit(expected, &value) == ConstFit::Fits {
                clone_type(expected)
            } else {
                infer_literal_type(literal)
            }
        },
        None => infer_literal_type(literal),
    }
}

/// The function type with the given parameters and return type.
pub open spec fn func_type_view<'src>(params: Seq<(Ident<'src>, Type<'src>)>, ret: Type<'src>) -> TypeView {
    TypeView::Func {
        params: types_view(params.map_values(|p: (Ident<'src>, Type<'src>)| p.1)),
        ret: Box::new(ret@),
    }
}

/// The function type with the given parameters and return type.
fn function_type_from_parts<'src>(params: &Vec<(Ident<'src>, Type<'src>)>, ret: &Type<'src>) -> (r: Type<'src>)
    ensures
        r@ == func_type_view(params@, *ret),
{
    let mut types: Vec<Type<'src>> = Vec::new();
    let mut i: usize = 0;
    while i < params.len()
        invariant
            i <= params@.len(),
            types@.len() == i,
            forall|j: int| 0 <= j < i ==> (#[trigger] types@[j])@ == params@[j].1@,
        decreases params@.len() - i,
    {
        types.push(clone_type(&params[i].1));
        i = i + 1;
    }
    proof {
        let ps = params@.map_values(|p: (Ident<'src>, Type<'src>)| p.1);
        crate::ast::lemma_types_view_eq(types@, ps);
    }
    Type::Func { params: types, ret: Box::new(clone_type(ret)) }
}

/// What the analyzer knows of a declared name.
pub struct Binding<'src> {
    /// unique symbol number, in order of declaration
    pub id: usize,
    pub typ: Type<'src>,
    pub mutable: bool,
    /// its constant value, when known (always one that fits `typ`)
    pub value: Option<ConstValue>,
}

/// What is known of a declared name, its type taken by view.
pub struct BindingView {
    pub id: nat,
    pub typ: TypeView,
    pub mutable: bool,
    pub value: Option<ConstValue>,
}

impl<'src> View for Binding<'src> {
    type V = BindingView;

    open spec fn view(&self) -> BindingView {
        BindingView { id: self.id as nat, typ: self.typ@, mutable: self.mutable, value: self.value }
    }
}

/// A scope's entries with their bindings taken by view.
pub open spec fn entries_view<'src>(s: Seq<(&'src str, Binding<'src>)>) -> Seq<(&'src str, BindingView)> {
    s.map_values(|e: (&'src str, Binding<'src>)| (e.0, e.1@))
}

/// The scopes with their bindings taken by view.
pub open spec fn scopes_view<'src>(sv: Seq<Seq<(&'src str, Binding<'src>)>>) -> Seq<Seq<(&'src str, BindingView)>> {
    sv.map_values(|s: Seq<(&'src str, Binding<'src>)>| entries_view(s))
}

/// What the analysis works on and changes: the scopes (by view), the
/// diagnostics recorded, and the next symbol number.
pub struct AnalysisState<'a, 'src> {
    pub scopes: Seq<Seq<(&'src str, BindingView)>>,
    pub errors: Seq<Diagnostic<'a, 'src>>,
    pub next: nat,
}

/// A list of names with what they stand for; a name occurs at most once.
pub type Entries<'src, X> = Vec<(&'src str, X)>;

/// Whether no name occurs twice among the entries.
pub open spec fn distinct_names<'src, X>(s: Seq<(&'src str, X)>) -> bool {
    forall|i: int, j: int| 0 <= i < j < s.len() ==> (#[trigger] s[i]).0@ != (#[trigger] s[j]).0@
}

/// The position of `name` among the entries, if present.
pub open spec fn find_in<'src, X>(s: Seq<(&'src str, X)>, name: Seq<char>) -> Option<int>
    decreases s.len(),
{
    if s.len() == 0 {
        None
    } else if s.last().0@ == name {
        Some(s.len() - 1)
    } else {
        find_in(s.drop_last(), name)
    }
}

/// What `name` stands for among the entries, if present.
pub open spec fn entry_of<'src, X>(s: Seq<(&'src str, X)>, name: Seq<char>) -> Option<X> {
    match find_in(s, name) {
        Some(i) => Some(s[i].1),
        None => None,
    }
}

/// Where a name is declared: the scope (innermost first) and the position
/// in it.
pub open spec fn scopes_locate<'src, X>(scopes: Seq<Seq<(&'src str, X)>>, name: Seq<char>) -> Option<(int, int)>
    decreases scopes.len(),
{
    if scopes.len() == 0 {
        None
    } else {
        match find_in(scopes.last(), name) {
            Some(i) => Some(((scopes.len() - 1) as int, i)),
            None => scopes_locate(scopes.drop_last(), name),
        }
    }
}

/// The binding a name resolves to: the innermost scope declaring it wins.
pub open spec fn scopes_lookup<'src, X>(scopes: Seq<Seq<(&'src str, X)>>, name: Seq<char>) -> Option<X> {
    match scopes_locate(scopes, name) {
        Some((k, i)) => Some(scopes[k][i].1),
        None => None,
    }
}

/// Facts about where a name is found.
pub proof fn lemma_locate<'src, X>(scopes: Seq<Seq<(&'src str, X)>>, name: Seq<char>)
    ensures
        scopes_locate(scopes, name) matches Some((k, i)) ==> {
            &&& 0 <= k < scopes.len()
            &&& 0 <= i < scopes[k].len()
            &&& scopes[k][i].0@ == name
            &&& find_in(scopes[k], name) == Some(i)
            &&& forall|j: int| k < j < scopes.len() ==> find_in(#[trigger] scopes[j], name) is None
        },
        scopes_locate(scopes, name) is None ==> forall|j: int| 0 <= j < scopes.len() ==> find_in(#[trigger] scopes[j], name) is None,
    decreases scopes.len(),
{
    if scopes.len() > 0 {
        lemma_find_in(scopes.last(), name);
        lemma_locate(scopes.drop_last(), name);
        assert forall|j: int| 0 <= j < scopes.len() - 1 implies scopes.drop_last()[j] == scopes[j] by {}
    }
}

/// Facts about a search among entries.
pub proof fn lemma_find_in<'src, X>(s: Seq<(&'src str, X)>, name: Seq<char>)
    ensures
        find_in(s, name) matches Some(i) ==> 0 <= i < s.len() && s[i].0@ == name,
        find_in(s, name) is None ==> forall|i: int| 0 <= i < s.len() ==> (#[trigger] s[i]).0@ != name,
    decreases s.len(),
{
    if s.len() > 0 {
        lemma_find_in(s.drop_last(), name);
        assert forall|i: int| 0 <= i < s.len() - 1 implies s.drop_last()[i] == s[i] by {}
    }
}

/// Replacing the entry at a name's own position keeps the names distinct
/// and changes what only that name finds.
pub proof fn lemma_replace_entry<'src, X>(s: Seq<(&'src str, X)>, i: int, e: (&'src str, X))
    requires
        distinct_names(s),
        0 <= i < s.len(),
        e.0@ == s[i].0@,
    ensures
        distinct_names(s.update(i, e)),
        forall|n: Seq<char>| #[trigger] find_in(s.update(i, e), n) == find_in(s, n),
{
    let t = s.update(i, e);
    assert forall|a: int, b: int| 0 <= a < b < t.len() implies (#[trigger] t[a]).0@ != (#[trigger] t[b]).0@ by {
        assert(t[a].0@ == s[a].0@);
        assert(t[b].0@ == s[b].0@);
    }
    assert forall|n: Seq<char>| #[trigger] find_in(t, n) == find_in(s, n) by {
        lemma_find_in(s, n);
        lemma_find_in(t, n);
        match find_in(s, n) {
            Some(j) => {
                lemma_find_in_distinct(s, j);
                lemma_find_in_distinct(t, j);
            },
            None => {
                if find_in(t, n) is Some {
                    let j = find_in(t, n)->0;
                    assert(s[j].0@ == t[j].0@);
                }
            },
        }
    }
}

/// Adding an entry for a name not yet present keeps the names distinct, and
/// the new name finds the new entry.
pub proof fn lemma_push_entry<'src, X>(s: Seq<(&'src str, X)>, e: (&'src str, X))
    requires
        distinct_names(s),
        find_in(s, e.0@) is None,
    ensures
        distinct_names(s.push(e)),
        find_in(s.push(e), e.0@) == Some(s.len() as int),
        forall|n: Seq<char>| n != e.0@ ==> #[trigger] find_in(s.push(e), n) == find_in(s, n),
{
    lemma_find_in(s, e.0@);
    let t = s.push(e);
    assert(t.drop_last() =~= s);
    assert forall|a: int, b: int| 0 <= a < b < t.len() implies (#[trigger] t[a]).0@ != (#[trigger] t[b]).0@ by {
        if b == s.len() {
            assert(t[a] == s[a]);
        } else {
            assert(t[a] == s[a]);
            assert(t[b] == s[b]);
        }
    }
}

/// In a list without repeated names, the entry found for a name is the one
/// holding it.
pub proof fn lemma_find_in_distinct<'src, X>(s: Seq<(&'src str, X)>, i: int)
    requires
        distinct_names(s),
        0 <= i < s.len(),
    ensures
        find_in(s, s[i].0@) == Some(i),
    decreases s.len(),
{
    if i < s.len() - 1 {
        assert(distinct_names(s.drop_last()));
        lemma_find_in_distinct(s.drop_last(), i);
    }
}

/// Looks `name` up among the entries.
pub fn find_entry<'src, X>(s: &Vec<(&'src str, X)>, name: &str) -> (r: Option<usize>)
    ensures
        r is None <==> find_in(s@, name@) is None,
        r matches Some(i) ==> find_in(s@, name@) == Some(i as int) && i < s@.len() && s@[i as int].0@ == name@,
{
    let mut i = s.len();
    assert(s@.take(i as int) =~= s@);
    while i > 0
        invariant
            i <= s@.len(),
            find_in(s@, name@) == find_in(s@.take(i as int), name@),
        decreases i,
    {
        proof {
            assert(s@.take(i as int).drop_last() =~= s@.take(i - 1));
        }
        if str_eq(s[i - 1].0, name) {
            proof {
                lemma_find_in(s@, name@);
            }
            return Some(i - 1);
        }
        i = i - 1;
    }
    None
}

/// The analyzer's state.
pub struct Analyzer<'a, 'src> {
    pub path: &'a str,
    pub src: &'src str,
    /// the statements to analyze
    pub nodes: Vec<Stmt<'src>>,
    /// after analysis: the symbol number of each top-level name
    pub resolved: Vec<(&'src str, usize)>,
    /// after analysis: the type of each top-level name
    pub types: Vec<(&'src str, Type<'src>)>,
    pub errors: Vec<Diagnostic<'a, 'src>>,
    /// the scopes, outermost first; never empty
    pub scopes: Vec<Vec<(&'src str, Binding<'src>)>>,
    /// the functions declared at top level, with their types
    pub functions: Vec<(&'src str, Type<'src>)>,
    /// the next symbol number to hand out
    pub next_symbol_id: usize,
    /// what is known of the values of the floating-point literals, by text;
    /// a literal not listed is taken to be a finite value within `f32`'s
    /// range
    pub float_ranges: Vec<(&'src str, FloatRange)>,
}

/// The function type of the last top-level declaration of `name`.
pub open spec fn last_function<'src>(nodes: Seq<Stmt<'src>>, name: Seq<char>) -> Option<TypeView>
    decreases nodes.len(),
{
    if nodes.len() == 0 {
        None
    } else {
        match nodes.last() {
            Stmt::FuncDecl { name: n, typ, args, .. } => if n.0@ == name {
                Some(func_type_view(args@, typ))
            } else {
                last_function(nodes.drop_last(), name)
            },
            _ => last_function(nodes.drop_last(), name),
        }
    }
}

/// The views of the types an entry list holds, by name.
pub open spec fn typed_entry<'src>(s: Seq<(&'src str, Type<'src>)>, name: Seq<char>) -> Option<TypeView> {
    match entry_of(s, name) {
        Some(t) => Some(t@),
        None => None,
    }
}

/// The function types declared at top level: for each name, the type of
/// its last declaration.
fn collect_functions<'src>(nodes: &Vec<Stmt<'src>>) -> (r: Vec<(&'src str, Type<'src>)>)
    ensures
        distinct_names(r@),
        forall|name: Seq<char>| #[trigger] typed_entry(r@, name) == last_function(nodes@, name),
{
    let mut r: Vec<(&'src str, Type<'src>)> = Vec::new();
    let mut k: usize = 0;
    while k < nodes.len()
        invariant
            k <= nodes@.len(),
            distinct_names(r@),
            forall|name: Seq<char>| #[trigger] typed_entry(r@, name) == last_function(nodes@.take(k as int), name),
        decreases nodes@.len() - k,
    {
        proof {
            assert(nodes@.take(k + 1).drop_last() =~= nodes@.take(k as int));
        }
        match &nodes[k] {
            Stmt::FuncDecl { name, typ, args, .. } => {
                let ft = function_type_from_parts(args, typ);
                let ghost old_r = r@;
                proof {
                    lemma_find_in(old_r, name.0@);
                }
                match find_entry(&r, name.0) {
                    Some(i) => {
                        r.set(i, (name.0, ft));
                        proof {
                            lemma_replace_entry(old_r, i as int, (name.0, ft));
                            assert(r@ == old_r.update(i as int, (name.0, ft)));
                            assert forall|n: Seq<char>| #[trigger] typed_entry(r@, n) == last_function(nodes@.take(k + 1), n) by {
                                if n != name.0@ {
                                    assert(typed_entry(old_r, n) == last_function(nodes@.take(k as int), n));
                                    match find_in(old_r, n) {
                                        Some(j) => {
                                            lemma_find_in(old_r, n);
                                            assert(j != i);
                                        },
                                        None => {},
                                    }
                                }
                            }
                        }
                    },
                    None => {
                        r.push((name.0, ft));
                        proof {
                            lemma_push_entry(old_r, (name.0, ft));
                            assert forall|n: Seq<char>| #[trigger] typed_entry(r@, n) == last_function(nodes@.take(k + 1), n) by {
                                if n != name.0@ {
                                    assert(typed_entry(old_r, n) == last_function(nodes@.take(k as int), n));
                                    match find_in(old_r, n) {
                                        Some(j) => {
                                            lemma_find_in(old_r, n);
                                        },
                                        None => {},
                                    }
                                }
                            }
                        }
                    },
                }
            },
            _ => {},
        }
        k = k + 1;
    }
    proof {
        assert(nodes@.take(nodes@.len() as int) =~= nodes@);
    }
    r
}

/// The entry lists of a list of scopes.
pub open spec fn scope_seqs<'src>(scopes: Seq<Vec<(&'src str, Binding<'src>)>>) -> Seq<Seq<(&'src str, Binding<'src>)>> {
    scopes.map_values(|s: Vec<(&'src str, Binding<'src>)>| s@)
}

/// The unary operators folded over constants: `-` on integers (checked)
/// and floats, `!` on booleans, `~` on integers.
pub open spec fn unary_fold(op: UnaryOp, v: ConstValue) -> Option<ConstValue> {
    match (op, v) {
        (UnaryOp::Neg, ConstValue::Int(x)) => if x == i128::MIN { None } else { Some(ConstValue::Int((-x) as i128)) },
        (UnaryOp::Neg, ConstValue::Float { single, finite, in_f32 }) => Some(ConstValue::Float { single, finite, in_f32 }),
        (UnaryOp::Not, ConstValue::Bool(b)) => Some(ConstValue::Bool(!b)),
        (UnaryOp::BitNot, ConstValue::Int(x)) => Some(ConstValue::Int(!x)),
        _ => None,
    }
}

/// Constant folding: the value an expression has at analysis time, if it
/// is a constant. Names give the constant their binding holds; blocks give
/// their tail's; an `if` with a constant condition gives the chosen branch's.
pub open spec fn const_eval<'src>(floats: Seq<(&'src str, FloatRange)>, scopes: Seq<Seq<(&'src str, BindingView)>>, e: Expr<'src>) -> Option<ConstValue>
    decreases e,
{
    match e {
        Expr::Literal(l) => literal_const(floats, l),
        Expr::Ident(i) => match scopes_lookup(scopes, i.0@) {
            Some(b) => b.value,
            None => None,
        },
        Expr::Unary { op, expr } => match const_eval(floats, scopes, *expr) {
            Some(v) => unary_fold(op, v),
            None => None,
        },
        Expr::Binary { op, lhs, rhs } => match (const_eval(floats, scopes, *lhs), const_eval(floats, scopes, *rhs)) {
            (Some(ConstValue::Int(a)), Some(ConstValue::Int(b))) => int_binary(op, a, b),
            (Some(ConstValue::Bool(a)), Some(ConstValue::Bool(b))) => bool_binary(op, a, b),
            _ => None,
        },
        Expr::Block { tail, .. } => match tail {
            Some(t) => const_eval(floats, scopes, *t),
            None => None,
        },
        Expr::If { cond, then, else_ } => match const_eval(floats, scopes, *cond) {
            Some(ConstValue::Bool(true)) => const_eval(floats, scopes, *then),
            Some(ConstValue::Bool(false)) => match else_ {
                Some(x) => const_eval(floats, scopes, *x),
                None => None,
            },
            _ => None,
        },
        _ => None,
    }
}

impl<'a, 'src> Analyzer<'a, 'src> {
    /// The scopes' entry lists, outermost first.
    pub open spec fn scope_view(&self) -> Seq<Seq<(&'src str, Binding<'src>)>> {
        scope_seqs(self.scopes@)
    }

    /// What stays fixed during the analysis.
    pub open spec fn context(&self) -> AnalysisContext<'a, 'src> {
        AnalysisContext { path: self.path, src: self.src, functions: self.functions@, floats: self.float_ranges@ }
    }

    /// The analysis state: scopes by view, diagnostics, next symbol number.
    pub open spec fn state(&self) -> AnalysisState<'a, 'src> {
        AnalysisState { scopes: scopes_view(self.scope_view()), errors: self.errors@, next: self.next_symbol_id as nat }
    }

    /// The number of scopes open.
    pub open spec fn depth(&self) -> nat {
        self.scopes@.len()
    }

    /// The next symbol number to hand out.
    pub open spec fn next_id(&self) -> nat {
        self.next_symbol_id as nat
    }

    /// The top-level function types, by name.
    pub open spec fn function_types(&self) -> Seq<(&'src str, Type<'src>)> {
        self.functions@
    }

    /// The analyzer's invariant: at least one scope is open; no scope and
    /// not the function table holds a name twice; every binding's symbol
    /// number was handed out already and its constant, if any, fits its type.
    pub open spec fn wf(&self) -> bool {
        &&& self.scopes@.len() >= 1
        &&& forall|k: int| 0 <= k < self.scopes@.len() ==> distinct_names(#[trigger] self.scopes@[k]@)
        &&& forall|k: int, i: int| 0 <= k < self.scopes@.len() && 0 <= i < self.scopes@[k]@.len() ==> {
            let b = #[trigger] self.scopes@[k]@[i].1;
            &&& b.id < self.next_symbol_id
            &&& sanitized(b.typ@, b.value) == b.value
        }
        &&& distinct_names(self.functions@)
    }

    /// The binding `name` resolves to, innermost scope first.
    pub open spec fn binding_of(&self, name: Seq<char>) -> Option<Binding<'src>> {
        scopes_lookup(self.scope_view(), name)
    }

    /// The type `name` has: its binding's, or else the top-level function's.
    pub open spec fn type_of_name(&self, name: Seq<char>) -> Option<TypeView> {
        match self.binding_of(name) {
            Some(b) => Some(b.typ@),
            None => typed_entry(self.functions@, name),
        }
    }

    /// An analyzer for `nodes`, read from `src` at `path`, knowing the
    /// top-level functions' types and with one empty scope.
    pub fn new(path: &'a str, src: &'src str, nodes: Vec<Stmt<'src>>) -> (r: Self)
        ensures
            r.wf(),
            r.path == path,
            r.src == src,
            r.nodes == nodes,
            r.resolved@.len() == 0,
            r.types@.len() == 0,
            r.errors@.len() == 0,
            r.depth() == 1,
            r.next_id() == 0,
            r.scope_view()[0].len() == 0,
            r.float_ranges@.len() == 0,
            forall|name: Seq<char>| #[trigger] typed_entry(r.function_types(), name) == last_function(nodes@, name),
    {
        let functions = collect_functions(&nodes);
        let mut scopes: Vec<Vec<(&'src str, Binding<'src>)>> = Vec::new();
        scopes.push(Vec::new());
        Analyzer {
            path,
            src,
            nodes,
            resolved: Vec::new(),
            types: Vec::new(),
            errors: Vec::new(),
            scopes,
            functions,
            next_symbol_id: 0,
            float_ranges: Vec::new(),
        }
    }

    /// The number of symbols declared so far.
    pub fn symbol_count(&self) -> (r: usize)
        ensures
            r == self.next_id(),
    {
        self.next_symbol_id
    }

    /// Records a diagnostic for `err` over `span`.
    fn push_error(&mut self, span: Range<usize>, err: SyntaxError<'src>)
        ensures
            final(self).errors@ == old(self).errors@.push(Diagnostic { path: old(self).path, src: old(self).src, span, err }),
            final(self).state() == old(self).context().with_error(old(self).state(), span, err),
            final(self).scopes == old(self).scopes,
            final(self).functions == old(self).functions,
            final(self).float_ranges == old(self).float_ranges,
            final(self).next_symbol_id == old(self).next_symbol_id,
            final(self).path == old(self).path,
            final(self).src == old(self).src,
            final(self).nodes == old(self).nodes,
            final(self).resolved == old(self).resolved,
            final(self).types == old(self).types,
    {
        let diag = Diagnostic { path: self.path, src: self.src, span, err };
        self.errors.push(diag);
    }

    /// Opens a new innermost scope.
    fn enter_scope(&mut self)
        requires
            old(self).wf(),
        ensures
            final(self).wf(),
            final(self).scope_view() == old(self).scope_view().push(Seq::empty()),
            final(self).depth() == old(self).depth() + 1,
            final(self).state() == (AnalysisState {
                scopes: old(self).state().scopes.push(Seq::empty()),
                errors: old(self).state().errors,
                next: old(self).state().next,
            }),
            final(self).errors == old(self).errors,
            final(self).functions == old(self).functions,
            final(self).float_ranges == old(self).float_ranges,
            final(self).next_symbol_id == old(self).next_symbol_id,
            final(self).path == old(self).path,
            final(self).src == old(self).src,
            final(self).nodes == old(self).nodes,
            final(self).resolved == old(self).resolved,
            final(self).types == old(self).types,
    {
        self.scopes.push(Vec::new());
        proof {
            assert(self.scope_view() =~= old(self).scope_view().push(Seq::empty()));
            assert(entries_view(Seq::<(&'src str, Binding<'src>)>::empty()) =~= Seq::empty());
            assert(scopes_view(self.scope_view()) =~= scopes_view(old(self).scope_view()).push(Seq::empty()));
        }
    }

    /// Closes the innermost scope, unless it is the outermost one.
    fn exit_scope(&mut self)
        requires
            old(self).wf(),
        ensures
            final(self).wf(),
            old(self).depth() > 1 ==> final(self).scope_view() == old(self).scope_view().drop_last(),
            old(self).depth() == 1 ==> final(self).scope_view() == old(self).scope_view(),
            old(self).depth() > 1 ==> final(self).depth() == old(self).depth() - 1,
            old(self).depth() == 1 ==> final(self).depth() == 1,
            final(self).state() == if old(self).state().scopes.len() > 1 {
                AnalysisState {
                    scopes: old(self).state().scopes.drop_last(),
                    errors: old(self).state().errors,
                    next: old(self).state().next,
                }
            } else {
                old(self).state()
            },
            final(self).errors == old(self).errors,
            final(self).functions == old(self).functions,
            final(self).float_ranges == old(self).float_ranges,
            final(self).next_symbol_id == old(self).next_symbol_id,
            final(self).path == old(self).path,
            final(self).src == old(self).src,
            final(self).nodes == old(self).nodes,
            final(self).resolved == old(self).resolved,
            final(self).types == old(self).types,
    {
        if self.scopes.len() > 1 {
            self.scopes.pop();
            proof {
                assert(self.scope_view() =~= old(self).scope_view().drop_last());
                assert(scopes_view(self.scope_view()) =~= scopes_view(old(self).scope_view()).drop_last());
            }
        }
    }
}

/// Scopes that agree on every scope's names agree on where each name is found.
pub proof fn lemma_locate_same_names<'src, X, Y>(a: Seq<Seq<(&'src str, X)>>, b: Seq<Seq<(&'src str, Y)>>, name: Seq<char>)
    requires
        a.len() == b.len(),
        forall|k: int| 0 <= k < a.len() ==> (#[trigger] a[k]).len() == b[k].len(),
        forall|k: int, i: int| 0 <= k < a.len() && 0 <= i < a[k].len() ==> (#[trigger] a[k][i]).0@ == b[k][i].0@,
    ensures
        scopes_locate(a, name) == scopes_locate(b, name),
    decreases a.len(),
{
    if a.len() > 0 {
        assert(forall|n: Seq<char>| #[trigger] find_in(a.last(), n) == find_in(b.last(), n)) by {
            assert forall|n: Seq<char>| #[trigger] find_in(a.last(), n) == find_in(b.last(), n) by {
                lemma_find_same_names(a.last(), b.last(), n);
            }
        }
        lemma_locate_same_names(a.drop_last(), b.drop_last(), name);
    }
}

/// Entry lists with the same names in the same places find names alike.
pub proof fn lemma_find_same_names<'src, X, Y>(a: Seq<(&'src str, X)>, b: Seq<(&'src str, Y)>, name: Seq<char>)
    requires
        a.len() == b.len(),
        forall|i: int| 0 <= i < a.len() ==> (#[trigger] a[i]).0@ == b[i].0@,
    ensures
        find_in(a, name) == find_in(b, name),
    decreases a.len(),
{
    if a.len() > 0 {
        lemma_find_same_names(a.drop_last(), b.drop_last(), name);
    }
}

/// Taking bindings by view keeps where names are found, and a name finds
/// the view of the binding it found before.
pub proof fn lemma_lookup_view<'src>(sv: Seq<Seq<(&'src str, Binding<'src>)>>, name: Seq<char>)
    ensures
        scopes_locate(scopes_view(sv), name) == scopes_locate(sv, name),
        scopes_lookup(scopes_view(sv), name) == match scopes_lookup(sv, name) {
            Some(b) => Some(b@),
            None => None::<BindingView>,
        },
{
    let v = scopes_view(sv);
    assert forall|k: int| 0 <= k < v.len() implies (#[trigger] v[k]).len() == sv[k].len() by {}
    assert forall|k: int, i: int| 0 <= k < v.len() && 0 <= i < v[k].len() implies (#[trigger] v[k][i]).0@ == sv[k][i].0@ by {}
    lemma_locate_same_names(v, sv, name);
    lemma_locate(sv, name);
}


impl<'a, 'src> Analyzer<'a, 'src> {
    /// Nothing but the errors, the scopes and the symbol counter changed.
    pub open spec fn frame(&self, old: &Analyzer<'a, 'src>) -> bool {
        &&& self.path == old.path
        &&& self.src == old.src
        &&& self.nodes == old.nodes
        &&& self.resolved == old.resolved
        &&& self.types == old.types
        &&& self.functions == old.functions
        &&& self.float_ranges == old.float_ranges
    }

    /// The diagnostics recorded before are kept, in order.
    pub open spec fn errors_kept(&self, old: &Analyzer<'a, 'src>) -> bool {
        &&& old.errors@.len() <= self.errors@.len()
        &&& forall|i: int| 0 <= i < old.errors@.len() ==> #[trigger] self.errors@[i] == old.errors@[i]
    }

    /// The binding `name` resolves to, innermost scope first.
    fn lookup_binding(&self, name: &str) -> (r: Option<&Binding<'src>>)
        requires
            self.wf(),
        ensures
            r is Some <==> self.binding_of(name@) is Some,
            r matches Some(b) ==> *b == self.binding_of(name@)->0,
    {
        let ghost sv = self.scope_view();
        let mut k = self.scopes.len();
        proof {
            assert(sv.take(k as int) =~= sv);
        }
        while k > 0
            invariant
                k <= self.scopes@.len(),
                sv == self.scope_view(),
                scopes_locate(sv, name@) == scopes_locate(sv.take(k as int), name@),
            decreases k,
        {
            proof {
                assert(sv.take(k as int).drop_last() =~= sv.take(k - 1));
                assert(sv.take(k as int).last() == sv[k - 1]);
            }
            match find_entry(&self.scopes[k - 1], name) {
                Some(i) => {
                    proof {
                        assert(sv[k - 1] == self.scopes@[k - 1]@);
                    }
                    return Some(&self.scopes[k - 1][i].1);
                },
                None => {},
            }
            k = k - 1;
        }
        None
    }

    /// The type `name` has: its binding's, or else the top-level function's.
    fn lookup_type(&self, name: &str) -> (r: Option<Type<'src>>)
        requires
            self.wf(),
        ensures
            opt_view(r) == self.type_of_name(name@),
    {
        match self.lookup_binding(name) {
            Some(b) => Some(clone_type(&b.typ)),
            None => match find_entry(&self.functions, name) {
                Some(i) => Some(clone_type(&self.functions[i].1)),
                None => None,
            },
        }
    }

    /// The type of a name; reports it unknown when it has none.
    fn resolve_ident_type(&mut self, ident: &Ident<'src>) -> (r: Option<Type<'src>>)
        requires
            old(self).wf(),
        ensures
            final(self).wf(),
            final(self).frame(old(self)),
            final(self).scopes == old(self).scopes,
            final(self).next_symbol_id == old(self).next_symbol_id,
            opt_view(r) == old(self).type_of_name(ident.0@),
            r is Some ==> final(self).errors == old(self).errors,
            r is None ==> final(self).errors@ == old(self).errors@.push(Diagnostic {
                path: old(self).path,
                src: old(self).src,
                span: ident.1,
                err: SyntaxError::Semantic(SemanticError::UnknownIdentifier(ident.0)),
            }),
            ({
                let (st, t) = old(self).context().ident_step(old(self).state(), *ident);
                final(self).state() == st && opt_view(r) == t
            }),
    {
        proof {
            lemma_lookup_view(self.scope_view(), ident.0@);
        }
        match self.lookup_type(ident.0) {
            Some(t) => Some(t),
            None => {
                self.push_error(ident.span(), SyntaxError::Semantic(SemanticError::UnknownIdentifier(ident.0)));
                None
            },
        }
    }

    /// Whether `name` resolves to a mutable binding.
    fn binding_is_mutable(&self, name: &str) -> (r: bool)
        requires
            self.wf(),
        ensures
            r == (self.binding_of(name@) matches Some(b) && b.mutable),
    {
        match self.lookup_binding(name) {
            Some(b) => b.mutable,
            None => false,
        }
    }

    /// Whether `ident` may be mutated; reports it immutable otherwise.
    fn require_mutable_ident(&mut self, ident: &Ident<'src>) -> (r: bool)
        requires
            old(self).wf(),
        ensures
            ({
                let (st, ok) = old(self).context().mutable_step(old(self).state(), *ident);
                final(self).state() == st && r == ok
            }),
            final(self).wf(),
            final(self).frame(old(self)),
            final(self).scopes == old(self).scopes,
            final(self).next_symbol_id == old(self).next_symbol_id,
            r == (old(self).binding_of(ident.0@) matches Some(b) && b.mutable),
            r ==> final(self).errors == old(self).errors,
            !r ==> final(self).errors@ == old(self).errors@.push(Diagnostic {
                path: old(self).path,
                src: old(self).src,
                span: ident.1,
                err: SyntaxError::Semantic(SemanticError::ImmutableBinding(ident.0)),
            }),
    {
        proof {
            lemma_lookup_view(self.scope_view(), ident.0@);
        }
        if self.binding_is_mutable(ident.0) {
            true
        } else {
            self.push_error(ident.span(), SyntaxError::Semantic(SemanticError::ImmutableBinding(ident.0)));
            false
        }
    }

    /// Declares `name` in the innermost scope with a fresh symbol number,
    /// keeping `value` only when it fits `typ`. A name the innermost scope
    /// already holds is reported and left as it was.
    fn declare_binding(&mut self, name: &Ident<'src>, typ: Type<'src>, mutable: bool, value: Option<ConstValue>) -> (r: bool)
        requires
            old(self).wf(),
            old(self).next_symbol_id < usize::MAX,
        ensures
            ({
                let (st, ok) = old(self).context().declare_step(old(self).state(), *name, typ@, mutable, value);
                final(self).state() == st && r == ok
            }),
            final(self).wf(),
            final(self).frame(old(self)),
            final(self).depth() == old(self).depth(),
            r == (find_in(old(self).scope_view().last(), name.0@) is None),
            !r ==> {
                &&& final(self).scopes == old(self).scopes
                &&& final(self).next_symbol_id == old(self).next_symbol_id
                &&& final(self).errors@ == old(self).errors@.push(Diagnostic {
                    path: old(self).path,
                    src: old(self).src,
                    span: name.1,
                    err: SyntaxError::Semantic(SemanticError::InvalidOperation("identifier is already declared in this scope")),
                })
            },
            r ==> {
                &&& final(self).errors == old(self).errors
                &&& final(self).next_symbol_id == old(self).next_symbol_id + 1
                &&& final(self).scope_view() == old(self).scope_view().update(
                    old(self).scope_view().len() - 1,
                    old(self).scope_view().last().push((name.0, Binding { id: old(self).next_symbol_id, typ, mutable, value: sanitized(typ@, value) })),
                )
            },
    {
        let k = self.scopes.len() - 1;
        proof {
            let sv = self.scope_view();
            assert(scopes_view(sv).last() == entries_view(sv.last()));
            lemma_find_same_names(entries_view(sv.last()), sv.last(), name.0@);
        }
        if find_entry(&self.scopes[k], name.0).is_some() {
            self.push_error(
                name.span(),
                SyntaxError::Semantic(SemanticError::InvalidOperation("identifier is already declared in this scope")),
            );
            return false;
        }
        let id = self.next_symbol_id;
        self.next_symbol_id = self.next_symbol_id + 1;
        let value = sanitized_const_value(&typ, value);
        let ghost entry = (name.0, Binding { id, typ, mutable, value });
        let ghost old_scope = self.scopes@[k as int]@;
        let mut scope = self.scopes.pop().unwrap();
        scope.push((name.0, Binding { id, typ, mutable, value }));
        self.scopes.push(scope);
        proof {
            lemma_push_entry(old_scope, entry);
            assert(self.scope_view() =~= old(self).scope_view().update(k as int, old_scope.push(entry)));
            let ov = scopes_view(old(self).scope_view());
            assert(entries_view(old_scope.push(entry)) =~= ov.last().push((name.0, entry.1@)));
            assert(scopes_view(self.scope_view()) =~= ov.update(k as int, ov.last().push((name.0, entry.1@))));
            assert forall|kk: int| 0 <= kk < self.scopes@.len() implies distinct_names(#[trigger] self.scopes@[kk]@) by {
                if kk != k {
                    assert(self.scopes@[kk] == old(self).scopes@[kk]);
                }
            }
            assert forall|kk: int, i: int| 0 <= kk < self.scopes@.len() && 0 <= i < self.scopes@[kk]@.len() implies ({
                let b = #[trigger] self.scopes@[kk]@[i].1;
                &&& b.id < self.next_symbol_id
                &&& sanitized(b.typ@, b.value) == b.value
            }) by {
                if kk != k {
                    assert(self.scopes@[kk] == old(self).scopes@[kk]);
                } else if i < old_scope.len() {
                    assert(self.scopes@[kk]@[i] == old(self).scopes@[kk]@[i]);
                }
            }
        }
        true
    }
}

/// The names and symbol numbers of a scope's entries.
pub open spec fn ids_of<'src>(s: Seq<(&'src str, Binding<'src>)>) -> Seq<(&'src str, usize)> {
    s.map_values(|e: (&'src str, Binding<'src>)| (e.0, e.1.id))
}

/// The names and type views of a scope's entries.
pub open spec fn types_of<'src>(s: Seq<(&'src str, Binding<'src>)>) -> Seq<(Seq<char>, TypeView)> {
    s.map_values(|e: (&'src str, Binding<'src>)| (e.0@, e.1.typ@))
}

/// The names and type views of a name-to-type list.
pub open spec fn type_entries<'src>(s: Seq<(&'src str, Type<'src>)>) -> Seq<(Seq<char>, TypeView)> {
    s.map_values(|e: (&'src str, Type<'src>)| (e.0@, e.1@))
}

impl<'a, 'src> Analyzer<'a, 'src> {
    /// The constant value of `expr` at this point, if it has one.
    fn eval_const(&self, expr: &Expr<'src>) -> (r: Option<ConstValue>)
        requires
            self.wf(),
        ensures
            r == const_eval(self.float_ranges@, self.state().scopes, *expr),
        decreases expr,
    {
        match expr {
            Expr::Literal(literal) => const_from_literal(&self.float_ranges, literal),
            Expr::Ident(ident) => {
                proof {
                    lemma_lookup_view(self.scope_view(), ident.0@);
                }
                match self.lookup_binding(ident.0) {
                    Some(b) => b.value,
                    None => None,
                }
            },
            Expr::Unary { op, expr } => {
                let v = match self.eval_const(expr) {
                    Some(v) => v,
                    None => return None,
                };
                match (op, v) {
                    (UnaryOp::Neg, ConstValue::Int(x)) => {
                        if x == i128::MIN {
                            None
                        } else {
                            Some(ConstValue::Int(-x))
                        }
                    },
                    (UnaryOp::Neg, ConstValue::Float { single, finite, in_f32 }) => Some(ConstValue::Float { single, finite, in_f32 }),
                    (UnaryOp::Not, ConstValue::Bool(b)) => Some(ConstValue::Bool(!b)),
                    (UnaryOp::BitNot, ConstValue::Int(x)) => Some(ConstValue::Int(!x)),
                    _ => None,
                }
            },
            Expr::Binary { op, lhs, rhs } => {
                let l = match self.eval_const(lhs) {
                    Some(v) => v,
                    None => return None,
                };
                let r = match self.eval_const(rhs) {
                    Some(v) => v,
                    None => return None,
                };
                match (l, r) {
                    (ConstValue::Int(a), ConstValue::Int(b)) => eval_int_binary(*op, a, b),
                    (ConstValue::Bool(a), ConstValue::Bool(b)) => eval_bool_binary(*op, a, b),
                    _ => None,
                }
            },
            Expr::Block { tail, .. } => match tail {
                Some(t) => self.eval_const(t),
                None => None,
            },
            Expr::If { cond, then, else_ } => match self.eval_const(cond) {
                Some(ConstValue::Bool(true)) => self.eval_const(then),
                Some(ConstValue::Bool(false)) => match else_ {
                    Some(x) => self.eval_const(x),
                    None => None,
                },
                _ => None,
            },
            _ => None,
        }
    }

    /// Publishes the outermost scope: `resolved` gets each name's symbol
    /// number and `types` each name's type.
    fn sync_exports(&mut self)
        requires
            old(self).wf(),
        ensures
            final(self).wf(),
            final(self).resolved@ == ids_of(old(self).scope_view()[0]),
            type_entries(final(self).types@) == types_of(old(self).scope_view()[0]),
            final(self).scopes == old(self).scopes,
            final(self).functions == old(self).functions,
            final(self).float_ranges == old(self).float_ranges,
            final(self).next_symbol_id == old(self).next_symbol_id,
            final(self).errors == old(self).errors,
            final(self).path == old(self).path,
            final(self).src == old(self).src,
            final(self).nodes == old(self).nodes,
    {
        self.resolved.clear();
        self.types.clear();
        let n = self.scopes[0].len();
        let ghost root = self.scopes@[0]@;
        let mut i: usize = 0;
        while i < n
            invariant
                self.wf(),
                i <= n,
                n == root.len(),
                root == self.scopes@[0]@,
                self.scopes == old(self).scopes,
                self.functions == old(self).functions,
                self.float_ranges == old(self).float_ranges,
                self.next_symbol_id == old(self).next_symbol_id,
                self.errors == old(self).errors,
                self.path == old(self).path,
                self.src == old(self).src,
                self.nodes == old(self).nodes,
                self.resolved@ == ids_of(root.take(i as int)),
                type_entries(self.types@) == types_of(root.take(i as int)),
            decreases n - i,
        {
            let name = self.scopes[0][i].0;
            let id = self.scopes[0][i].1.id;
            let typ = clone_type(&self.scopes[0][i].1.typ);
            self.resolved.push((name, id));
            self.types.push((name, typ));
            proof {
                assert(ids_of(root.take(i + 1)) =~= ids_of(root.take(i as int)).push((name, id)));
                assert(types_of(root.take(i + 1)) =~= types_of(root.take(i as int)).push((name@, typ@)));
            }
            i = i + 1;
        }
        proof {
            assert(root.take(n as int) =~= root);
            assert(old(self).scope_view()[0] == root);
        }
    }
}

impl<'a, 'src> Analyzer<'a, 'src> {
    /// Where `name` is declared: its scope and position, innermost first.
    fn locate_binding(&self, name: &str) -> (r: Option<(usize, usize)>)
        requires
            self.wf(),
        ensures
            r is None <==> scopes_locate(self.scope_view(), name@) is None,
            r matches Some((k, i)) ==> scopes_locate(self.scope_view(), name@) == Some((k as int, i as int))
                && k < self.scopes@.len() && i < self.scopes@[k as int]@.len(),
    {
        let ghost sv = self.scope_view();
        let mut k = self.scopes.len();
        proof {
            assert(sv.take(k as int) =~= sv);
        }
        while k > 0
            invariant
                k <= self.scopes@.len(),
                sv == self.scope_view(),
                scopes_locate(sv, name@) == scopes_locate(sv.take(k as int), name@),
            decreases k,
        {
            proof {
                assert(sv.take(k as int).drop_last() =~= sv.take(k - 1));
                assert(sv.take(k as int).last() == sv[k - 1]);
            }
            match find_entry(&self.scopes[k - 1], name) {
                Some(i) => {
                    return Some((k - 1, i));
                },
                None => {},
            }
            k = k - 1;
        }
        None
    }

    /// Records the constant a name holds after an assignment: the assigned
    /// constant for a plain assignment when it fits `typ`, no constant for a
    /// compound one.
    fn store_assignment_value(&mut self, name: &'src str, op: &AssignOp, typ: &Type<'src>, value: Option<ConstValue>)
        requires
            old(self).wf(),
            old(self).binding_of(name@) matches Some(b) ==> b.typ@ == typ@,
        ensures
            final(self).wf(),
            final(self).frame(old(self)),
            final(self).errors == old(self).errors,
            final(self).next_symbol_id == old(self).next_symbol_id,
            final(self).depth() == old(self).depth(),
            final(self).state() == old(self).context().store_step(old(self).state(), name, *op, typ@, value),
            ({
                let stored = match op {
                    AssignOp::Assign => sanitized(typ@, value),
                    _ => None,
                };
                match scopes_locate(old(self).scope_view(), name@) {
                    Some((k, i)) => final(self).scope_view() == old(self).scope_view().update(
                        k,
                        old(self).scope_view()[k].update(i, (old(self).scope_view()[k][i].0, Binding {
                            value: stored,
                            ..old(self).scope_view()[k][i].1
                        })),
                    ),
                    None => final(self).scopes == old(self).scopes,
                }
            }),
    {
        let value = match op {
            AssignOp::Assign => sanitized_const_value(typ, value),
            _ => None,
        };
        proof {
            lemma_lookup_view(self.scope_view(), name@);
        }
        match self.locate_binding(name) {
            Some((k, i)) => {
                proof {
                    lemma_locate(self.scope_view(), name@);
                }
                let ghost old_scope = self.scopes@[k as int]@;
                let mut scope = Vec::new();
                core::mem::swap(&mut scope, &mut self.scopes[k]);
                let mut entry = scope.remove(i);
                entry.1.value = value;
                scope.insert(i, entry);
                core::mem::swap(&mut scope, &mut self.scopes[k]);
                proof {
                    assert(self.scopes@[k as int]@ =~= old_scope.update(i as int, entry));
                    assert(self.scope_view() =~= old(self).scope_view().update(k as int, old_scope.update(i as int, entry)));
                    let ov = scopes_view(old(self).scope_view());
                    assert(entries_view(old_scope.update(i as int, entry)) =~= ov[k as int].update(i as int, (entry.0, entry.1@)));
                    assert(scopes_view(self.scope_view()) =~= ov.update(k as int, ov[k as int].update(i as int, (entry.0, entry.1@))));
                    lemma_replace_entry(old_scope, i as int, entry);
                    assert forall|kk: int| 0 <= kk < self.scopes@.len() implies distinct_names(#[trigger] self.scopes@[kk]@) by {
                        if kk != k {
                            assert(self.scopes@[kk] == old(self).scopes@[kk]);
                        }
                    }
                    assert forall|kk: int, j: int| 0 <= kk < self.scopes@.len() && 0 <= j < self.scopes@[kk]@.len() implies ({
                        let b = #[trigger] self.scopes@[kk]@[j].1;
                        &&& b.id < self.next_symbol_id
                        &&& sanitized(b.typ@, b.value) == b.value
                    }) by {
                        if kk != k {
                            assert(self.scopes@[kk] == old(self).scopes@[kk]);
                        } else if j != i {
                            assert(self.scopes@[kk]@[j] == old(self).scopes@[kk]@[j]);
                        }
                    }
                }
            },
            None => {},
        }
    }
}

/// The analysis budget of an expression: an upper bound on the names its
/// analysis declares (one per declaration statement it holds where the
/// analysis goes).
pub open spec fn expr_budget<'src>(e: Expr<'src>) -> nat
    decreases e,
{
    match e {
        Expr::Unary { expr, .. } => expr_budget(*expr),
        Expr::Binary { lhs, rhs, .. } => expr_budget(*lhs) + expr_budget(*rhs),
        Expr::Call { func, args } => expr_budget(*func) + exprs_budget(args@),
        Expr::Assign { rhs, .. } => expr_budget(*rhs),
        Expr::Block { stmts, tail } => stmts_budget(stmts@) + match tail {
            Some(t) => expr_budget(*t),
            None => 0,
        },
        Expr::If { cond, then, else_ } => expr_budget(*cond) + expr_budget(*then) + match else_ {
            Some(x) => expr_budget(*x),
            None => 0,
        },
        _ => 0,
    }
}

/// The analysis budget of a list of expressions.
pub open spec fn exprs_budget<'src>(s: Seq<Expr<'src>>) -> nat
    decreases s,
{
    if s.len() == 0 {
        0
    } else {
        exprs_budget(s.drop_last()) + expr_budget(s.last())
    }
}

/// The analysis budget of a statement.
pub open spec fn stmt_budget<'src>(s: Stmt<'src>) -> nat
    decreases s,
{
    match s {
        Stmt::Expr(e) => expr_budget(e),
        Stmt::Return(Some(e)) => expr_budget(e),
        Stmt::VarDecl { init, .. } => 1 + match init {
            Some(e) => expr_budget(e),
            None => 0,
        },
        Stmt::FuncDecl { .. } => 1,
        _ => 0,
    }
}

/// The analysis budget of a list of statements.
pub open spec fn stmts_budget<'src>(s: Seq<Stmt<'src>>) -> nat
    decreases s,
{
    if s.len() == 0 {
        0
    } else {
        stmts_budget(s.drop_last()) + stmt_budget(s.last())
    }
}

/// The budget of a prefix of a list grows one element at a time and never
/// exceeds the whole list's.
pub proof fn lemma_exprs_budget_prefix<'src>(s: Seq<Expr<'src>>, i: int)
    requires
        0 <= i < s.len(),
    ensures
        exprs_budget(s.take(i + 1)) == exprs_budget(s.take(i)) + expr_budget(s[i]),
        exprs_budget(s.take(i + 1)) <= exprs_budget(s),
    decreases s.len(),
{
    assert(s.take(i + 1).drop_last() =~= s.take(i));
    if i + 1 < s.len() {
        lemma_exprs_budget_prefix(s.drop_last(), i);
        assert(s.drop_last().take(i + 1) =~= s.take(i + 1));
        assert(s.drop_last().take(i) =~= s.take(i));
    } else {
        assert(s.take(i + 1) =~= s);
    }
}

/// The budget of a prefix of a statement list grows one statement at a
/// time and never exceeds the whole list's.
pub proof fn lemma_stmts_budget_prefix<'src>(s: Seq<Stmt<'src>>, i: int)
    requires
        0 <= i < s.len(),
    ensures
        stmts_budget(s.take(i + 1)) == stmts_budget(s.take(i)) + stmt_budget(s[i]),
        stmts_budget(s.take(i + 1)) <= stmts_budget(s),
    decreases s.len(),
{
    assert(s.take(i + 1).drop_last() =~= s.take(i));
    if i + 1 < s.len() {
        lemma_stmts_budget_prefix(s.drop_last(), i);
        assert(s.drop_last().take(i + 1) =~= s.take(i + 1));
        assert(s.drop_last().take(i) =~= s.take(i));
    } else {
        assert(s.take(i + 1) =~= s);
    }
}

impl<'a, 'src> Analyzer<'a, 'src> {
    /// What analysing a piece of program keeps: the invariant, the inputs
    /// and tables, the diagnostics already recorded, the number of open
    /// scopes; symbol numbers only grow.
    pub open spec fn stepped(&self, old: &Analyzer<'a, 'src>) -> bool {
        &&& self.wf()
        &&& self.frame(old)
        &&& self.errors_kept(old)
        &&& self.depth() == old.depth()
        &&& old.next_symbol_id <= self.next_symbol_id
    }

    /// The variable an assignment targets and its type. Only plain variables
    /// can be targets; they must be known and mutable.
    fn resolve_assign_target(&mut self, lhs: &LeftSide<'src>) -> (r: Option<(&'src str, Type<'src>)>)
        requires
            old(self).wf(),
        ensures
            ({
                let (st, t) = old(self).context().target_step(old(self).state(), *lhs);
                &&& final(self).state() == st
                &&& t is Some == r is Some
                &&& r matches Some((name, ty)) ==> t == Some((name, ty@))
            }),
            final(self).stepped(old(self)),
            final(self).scopes == old(self).scopes,
            final(self).next_symbol_id == old(self).next_symbol_id,
            r matches Some((name, t)) ==> {
                &&& *lhs matches LeftSide::Var(ident) && ident.0 == name
                &&& old(self).binding_of(name@) matches Some(b) && b.mutable && b.typ@ == t@
                &&& final(self).errors == old(self).errors
            },
            r is None ==> final(self).errors@.len() == old(self).errors@.len() + 1,
    {
        match lhs {
            LeftSide::Var(ident) => {
                let typ = match self.resolve_ident_type(ident) {
                    Some(t) => t,
                    None => return None,
                };
                if !self.require_mutable_ident(ident) {
                    return None;
                }
                Some((ident.0, typ))
            },
            LeftSide::Field { .. } | LeftSide::Subscript { .. } => {
                self.push_error(
                    lhs.span(),
                    SyntaxError::Semantic(SemanticError::InvalidOperation(
                        "assignment analysis currently only supports plain variable targets",
                    )),
                );
                None
            },
        }
    }

    /// Checks a unary operator against its operand's type `inner`: `!` wants
    /// `bool`, `~` an integer, `-` a signed number, increments and
    /// decrements a mutable numeric variable. Reports what fails.
    fn check_unary_expr(&mut self, op: &UnaryOp, expr: &Expr<'src>, inner: Type<'src>) -> (r: Option<Type<'src>>)
        requires
            old(self).wf(),
        ensures
            ({
                let (st, t) = old(self).context().unary_step(old(self).state(), *op, *expr, inner@);
                final(self).state() == st && opt_view(r) == t
            }),
            final(self).stepped(old(self)),
            final(self).scopes == old(self).scopes,
            final(self).next_symbol_id == old(self).next_symbol_id,
            r is Some ==> final(self).errors == old(self).errors,
            r is None ==> final(self).errors@.len() == old(self).errors@.len() + 1,
            match *op {
                UnaryOp::Not => r is Some <==> inner@ == TypeView::Bool,
                UnaryOp::BitNot => r is Some <==> integral(inner@),
                UnaryOp::Neg => r is Some <==> signed_numeric(inner@),
                _ => r is Some <==> (*expr matches Expr::Ident(ident) && (old(self).binding_of(ident.0@) matches Some(b)
                    && b.mutable) && rank_of(inner@) is Some),
            },
            r matches Some(t) ==> t@ == match *op {
                UnaryOp::Not => TypeView::Bool,
                _ => inner@,
            },
    {
        match op {
            UnaryOp::Not if matches!(inner, Type::Bool) => Some(Type::Bool),
            UnaryOp::BitNot if is_integral(&inner) => Some(inner),
            UnaryOp::Neg if is_signed_numeric(&inner) => Some(inner),
            UnaryOp::PreInc | UnaryOp::PreDec | UnaryOp::PostInc | UnaryOp::PostDec => {
                let ident = match expr {
                    Expr::Ident(ident) => ident,
                    _ => {
                        self.push_error(
                            expr.span(),
                            SyntaxError::Semantic(SemanticError::InvalidOperation(
                                "increment and decrement require a mutable variable target",
                            )),
                        );
                        return None;
                    },
                };
                if !self.require_mutable_ident(ident) {
                    return None;
                }
                if is_numeric(&inner) {
                    Some(inner)
                } else {
                    self.push_error(
                        expr.span(),
                        SyntaxError::Semantic(SemanticError::InvalidOperation("invalid unary operation for operand type")),
                    );
                    None
                }
            },
            _ => {
                self.push_error(
                    expr.span(),
                    SyntaxError::Semantic(SemanticError::InvalidOperation("invalid unary operation for operand type")),
                );
                None
            },
        }
    }
}

/// The size of an expression in the parts the analysis visits.
pub open spec fn expr_size<'src>(e: Expr<'src>) -> nat
    decreases e,
{
    1 + match e {
        Expr::Unary { expr, .. } => expr_size(*expr),
        Expr::Binary { lhs, rhs, .. } => expr_size(*lhs) + expr_size(*rhs),
        Expr::Call { func, args } => expr_size(*func) + exprs_size(args@),
        Expr::Assign { rhs, .. } => expr_size(*rhs),
        Expr::Block { stmts, tail } => stmts_size(stmts@) + opt_size(tail),
        Expr::If { cond, then, else_ } => expr_size(*cond) + expr_size(*then) + opt_size(else_),
        _ => 0,
    }
}

/// The size of an optional expression.
pub open spec fn opt_size<'src>(e: Option<Box<Expr<'src>>>) -> nat
    decreases e,
{
    match e {
        Some(x) => expr_size(*x),
        None => 0,
    }
}

/// The total size of a list of expressions.
pub open spec fn exprs_size<'src>(s: Seq<Expr<'src>>) -> nat
    decreases s,
{
    if s.len() == 0 {
        0
    } else {
        expr_size(s[0]) + exprs_size(s.drop_first())
    }
}

/// The size of a statement in the parts the analysis visits.
pub open spec fn stmt_size<'src>(s: Stmt<'src>) -> nat
    decreases s,
{
    1 + match s {
        Stmt::Expr(e) => expr_size(e),
        Stmt::Return(Some(e)) => expr_size(e),
        Stmt::VarDecl { init: Some(e), .. } => expr_size(e),
        _ => 0,
    }
}

/// The total size of a list of statements.
pub open spec fn stmts_size<'src>(s: Seq<Stmt<'src>>) -> nat
    decreases s,
{
    if s.len() == 0 {
        0
    } else {
        stmt_size(s[0]) + stmts_size(s.drop_first())
    }
}

/// Each expression of a list is no larger than the list.
pub proof fn lemma_exprs_size_elem<'src>(s: Seq<Expr<'src>>, i: int)
    requires
        0 <= i < s.len(),
    ensures
        expr_size(s[i]) <= exprs_size(s),
    decreases s.len(),
{
    if i > 0 {
        lemma_exprs_size_elem(s.drop_first(), i - 1);
    }
}

/// Each statement of a list is no larger than the list.
pub proof fn lemma_stmts_size_elem<'src>(s: Seq<Stmt<'src>>, i: int)
    requires
        0 <= i < s.len(),
    ensures
        stmt_size(s[i]) <= stmts_size(s),
    decreases s.len(),
{
    if i > 0 {
        lemma_stmts_size_elem(s.drop_first(), i - 1);
    }
}

/// The optional expression a reference option points to.
pub open spec fn opt_expr<'src>(e: Option<&Expr<'src>>) -> Option<Expr<'src>> {
    match e {
        Some(x) => Some(*x),
        None => None,
    }
}

/// The optional type a reference option points to.
pub open spec fn opt_type<'src>(t: Option<&Type<'src>>) -> Option<Type<'src>> {
    match t {
        Some(x) => Some(*x),
        None => None,
    }
}

/// The budget of an optional expression.
pub open spec fn opt_budget<'src>(e: Option<Expr<'src>>) -> nat {
    match e {
        Some(x) => expr_budget(x),
        None => 0,
    }
}

/// The size of an optional expression.
pub open spec fn opt_expr_size<'src>(e: Option<Expr<'src>>) -> nat {
    match e {
        Some(x) => expr_size(x),
        None => 0,
    }
}

/// After a declaration, the declared name resolves to the new binding.
pub proof fn lemma_declared_found<'src>(sv: Seq<Seq<(&'src str, Binding<'src>)>>, e: (&'src str, Binding<'src>))
    requires
        sv.len() >= 1,
        distinct_names(sv.last()),
        find_in(sv.last(), e.0@) is None,
    ensures
        scopes_lookup(sv.update(sv.len() - 1, sv.last().push(e)), e.0@) == Some(e.1),
{
    lemma_push_entry(sv.last(), e);
    let nv = sv.update(sv.len() - 1, sv.last().push(e));
    assert(nv.last() == sv.last().push(e));
}

impl<'a, 'src> Analyzer<'a, 'src> {
    /// For a variable declaration: its name resolves to a binding with the
    /// declared mutability and, where a type is written, that type.
    pub open spec fn declares_var(&self, node: Stmt<'src>) -> bool {
        match node {
            Stmt::VarDecl { name, typ, mutable, .. } => match self.binding_of(name.0@) {
                Some(b) => b.mutable == mutable && (!(typ is Inferred) ==> b.typ@ == typ@),
                None => false,
            },
            _ => true,
        }
    }

    /// For a function declaration, from `old` to `self`: it succeeds (no new
    /// diagnostic) exactly when the name is new in the innermost scope, and
    /// then the name resolves to an immutable binding of the function's
    /// type, numbered with the next symbol number.
    pub open spec fn declares_func(&self, old: &Analyzer<'a, 'src>, node: Stmt<'src>) -> bool {
        match node {
            Stmt::FuncDecl { name, typ, args, .. } => {
                &&& (self.errors@.len() == old.errors@.len()) == (find_in(old.scope_view().last(), name.0@) is None)
                &&& self.errors@.len() == old.errors@.len() ==> match self.binding_of(name.0@) {
                    Some(b) => !b.mutable && b.value is None && b.typ@ == func_type_view(args@, typ)
                        && b.id == old.next_symbol_id,
                    None => false,
                }
            },
            _ => true,
        }
    }
}

impl<'a, 'src> Analyzer<'a, 'src> {
    /// Types an `if`: the condition must be `bool`; with an `else` both
    /// branches must have the same type, which is the result; without one
    /// the branch must be unit.
    fn infer_if_type(&mut self, cond: &Expr<'src>, then: &Expr<'src>, else_: Option<&Expr<'src>>, expected: Option<&Type<'src>>) -> (r: Option<Type<'src>>)
        requires
            old(self).wf(),
            old(self).next_symbol_id + expr_budget(*cond) + expr_budget(*then) + opt_budget(opt_expr(else_)) <= usize::MAX,
        ensures
            ({
                let (st, t) = old(self).context().if_step(old(self).state(), *cond, *then, opt_expr(else_),
                    opt_view(opt_type(expected)));
                final(self).state() == st && opt_view(r) == t
            }),
            final(self).stepped(old(self)),
            final(self).next_symbol_id <= old(self).next_symbol_id + expr_budget(*cond) + expr_budget(*then)
                + opt_budget(opt_expr(else_)),
            r matches Some(t) ==> (else_ is None ==> t@ == TypeView::Unit),
        decreases expr_size(*cond) + expr_size(*then) + opt_expr_size(opt_expr(else_)), 4nat,
    {
        let cond_type = match self.infer_expr_type_with_hint(cond, Some(&Type::Bool)) {
            Some(t) => t,
            None => return None,
        };
        if !matches!(cond_type, Type::Bool) {
            self.push_error(
                cond.span(),
                SyntaxError::Semantic(SemanticError::TypeMismatch("if condition must evaluate to bool")),
            );
            return None;
        }

        let then_type = match else_ {
            None => self.infer_expr_type_with_hint(then, Some(&Type::Unit)),
            Some(_) => self.infer_expr_type_with_hint(then, expected),
        };
        let then_type = match then_type {
            Some(t) => t,
            None => return None,
        };

        match else_ {
            Some(else_expr) => {
                let else_type = match self.infer_expr_type_with_hint(else_expr, expected) {
                    Some(t) => t,
                    None => return None,
                };
                if type_eq(&then_type, &else_type) {
                    Some(then_type)
                } else {
                    self.push_error(
                        then.span(),
                        SyntaxError::Semantic(SemanticError::TypeMismatch("if branches must evaluate to the same type")),
                    );
                    None
                }
            },
            None => {
                if matches!(then_type, Type::Unit) {
                    Some(Type::Unit)
                } else {
                    self.push_error(
                        then.span(),
                        SyntaxError::Semantic(SemanticError::TypeMismatch("if without else must evaluate to unit")),
                    );
                    None
                }
            },
        }
    }

    /// Types a call: the callee must have a function type, the arguments
    /// must be as many as its parameters and each assignable to its
    /// parameter (an inferred parameter takes anything). The result is the
    /// function's return type.
    fn check_call(&mut self, func: &Expr<'src>, args: &Vec<Expr<'src>>) -> (r: Option<Type<'src>>)
        requires
            old(self).wf(),
            old(self).next_symbol_id + expr_budget(*func) + exprs_budget(args@) <= usize::MAX,
        ensures
            ({
                let (st, t) = old(self).context().call_step(old(self).state(), *func, args@);
                final(self).state() == st && opt_view(r) == t
            }),
            final(self).stepped(old(self)),
            final(self).next_symbol_id <= old(self).next_symbol_id + expr_budget(*func) + exprs_budget(args@),
        decreases expr_size(*func) + exprs_size(args@), 4nat,
    {
        let callable = match self.infer_expr_type(func) {
            Some(t) => t,
            None => return None,
        };

        let ghost callable_view = callable@;
        let (params, ret) = match callable {
            Type::Func { params, ret } => {
                proof {
                    assert(callable_view == TypeView::Func { params: types_view(params@), ret: Box::new(ret@) });
                }
                (params, ret)
            },
            _ => {
                proof {
                    assert(!(callable_view is Func));
                }
                self.push_error(
                    func.span(),
                    SyntaxError::Semantic(SemanticError::InvalidOperation("attempted to call a non-function value")),
                );
                return None;
            },
        };

        proof {
            crate::ast::lemma_types_view(params@);
        }
        if params.len() != args.len() {
            self.push_error(
                func.span(),
                SyntaxError::Semantic(SemanticError::InvalidOperation(
                    "function call argument count does not match parameter count",
                )),
            );
            return None;
        }

        let ghost start = *self;
        let mut i: usize = 0;
        proof {
            assert(args@.skip(0) =~= args@);
            assert(types_view(params@).skip(0) =~= types_view(params@));
        }
        while i < args.len()
            invariant
                i <= args@.len(),
                params@.len() == args@.len(),
                self.stepped(old(self)),
                start.stepped(old(self)),
                start.next_symbol_id <= old(self).next_symbol_id + expr_budget(*func),
                old(self).next_symbol_id + expr_budget(*func) + exprs_budget(args@) <= usize::MAX,
                self.next_symbol_id <= start.next_symbol_id + exprs_budget(args@.take(i as int)),
                exprs_budget(args@.take(i as int)) <= exprs_budget(args@),
                self.context() == old(self).context(),
                old(self).context().args_step(start.state(), args@, types_view(params@))
                    == old(self).context().args_step(self.state(), args@.skip(i as int), types_view(params@).skip(i as int)),
                ({
                    let (s2, ok) = old(self).context().args_step(start.state(), args@, types_view(params@));
                    old(self).context().call_step(old(self).state(), *func, args@)
                        == (if ok { (s2, Some(ret@)) } else { (s2, None::<TypeView>) })
                }),
            decreases args@.len() - i,
        {
            proof {
                lemma_exprs_budget_prefix(args@, i as int);
                lemma_exprs_size_elem(args@, i as int);
                crate::ast::lemma_types_view(params@);
                assert(args@.skip(i as int)[0] == args@[i as int]);
                assert(args@.skip(i as int).drop_first() =~= args@.skip(i + 1));
                assert(types_view(params@).skip(i as int).drop_first() =~= types_view(params@).skip(i + 1));
            }
            let actual = match self.infer_expr_type_with_hint(&args[i], Some(&params[i])) {
                Some(t) => t,
                None => return None,
            };
            let assignable = matches!(params[i], Type::Inferred) || can_assign(&params[i], &actual);
            if !assignable {
                self.push_error(
                    args[i].span(),
                    SyntaxError::Semantic(SemanticError::TypeMismatch(
                        "function argument type is not assignable to parameter type",
                    )),
                );
                return None;
            }
            i = i + 1;
        }
        Some(*ret)
    }

    /// Types an assignment: the target must be a known mutable variable and
    /// the value compatible with it for the operator. A constant assigned
    /// with `=` is remembered; a compound assignment forgets the constant.
    fn check_assign_expr(&mut self, op: &AssignOp, lhs: &LeftSide<'src>, rhs: &Expr<'src>) -> (r: Option<Type<'src>>)
        requires
            old(self).wf(),
            old(self).next_symbol_id + expr_budget(*rhs) <= usize::MAX,
        ensures
            ({
                let (st, t) = old(self).context().assign_step(old(self).state(), *op, *lhs, *rhs);
                final(self).state() == st && opt_view(r) == t
            }),
            final(self).stepped(old(self)),
            final(self).next_symbol_id <= old(self).next_symbol_id + expr_budget(*rhs),
        decreases expr_size(*rhs), 4nat,
    {
        let (name, target_type) = match self.resolve_assign_target(lhs) {
            Some(x) => x,
            None => return None,
        };
        let ghost s1 = self.state();
        let inferred_rhs_type = match self.infer_expr_type_with_hint(rhs, Some(&target_type)) {
            Some(t) => t,
            None => return None,
        };
        let folded_rhs = self.eval_const(rhs);
        let fits = match folded_rhs {
            Some(v) => const_fit(&target_type, &v) == ConstFit::Fits,
            None => false,
        };
        let rhs_type = if fits { clone_type(&target_type) } else { inferred_rhs_type };

        match check_assign_compatibility(op, &target_type, &rhs_type) {
            Ok(()) => {
                proof {
                    lemma_lookup_view(old(self).scope_view(), name@);
                    lemma_lookup_view(self.scope_view(), name@);
                    law_infer_keeps(old(self).context(), s1, *rhs, Some(target_type@));
                    lemma_same_shape_lookup(s1.scopes, self.state().scopes, name@);
                }
                self.store_assignment_value(name, op, &target_type, folded_rhs);
                Some(target_type)
            },
            Err(err) => {
                let overflow = match folded_rhs {
                    Some(v) => const_fit(&target_type, &v) == ConstFit::Overflow,
                    None => false,
                };
                let err = if overflow {
                    SemanticError::Overflow("assigned constant overflows the target type")
                } else {
                    err
                };
                self.push_error(rhs.span(), SyntaxError::Semantic(err));
                None
            },
        }
    }

    /// The type of an expression, where a value of type `expected` is
    /// wanted (literals take that type when their constant fits it).
    /// Reports what does not type-check. Field accesses, method calls,
    /// subscripts, loops, matches and ranges are not typed (no type, no
    /// report).
    fn infer_expr_type_with_hint(&mut self, expr: &Expr<'src>, expected: Option<&Type<'src>>) -> (r: Option<Type<'src>>)
        requires
            old(self).wf(),
            old(self).next_symbol_id + expr_budget(*expr) <= usize::MAX,
        ensures
            ({
                let (st, t) = old(self).context().infer_step(old(self).state(), *expr, opt_view(opt_type(expected)));
                final(self).state() == st && opt_view(r) == t
            }),
            final(self).stepped(old(self)),
            final(self).next_symbol_id <= old(self).next_symbol_id + expr_budget(*expr),
            *expr matches Expr::Literal(l) ==> r is Some && r->0@ == literal_type_hinted(old(self).float_ranges@, l, opt_view(opt_type(expected)))
                && *final(self) == *old(self),
            *expr matches Expr::Ident(i) ==> opt_view(r) == old(self).type_of_name(i.0@),
            !(*expr is Literal || *expr is Ident || *expr is Unary || *expr is Binary || *expr is Call
                || *expr is Assign || *expr is Block || *expr is If) ==> r is None && *final(self) == *old(self),
        decreases expr_size(*expr), 2nat,
    {
        match expr {
            Expr::Literal(lit) => Some(infer_literal_type_with_hint(&self.float_ranges, lit, expected)),
            Expr::Ident(ident) => self.resolve_ident_type(ident),
            Expr::Unary { op, expr } => {
                let inner = match self.infer_expr_type_with_hint(expr, expected) {
                    Some(t) => t,
                    None => return None,
                };
                self.check_unary_expr(op, expr, inner)
            },
            Expr::Binary { op, lhs, rhs } => {
                let lhs_type = match self.infer_expr_type_with_hint(lhs, expected) {
                    Some(t) => t,
                    None => return None,
                };
                let rhs_type = match self.infer_expr_type_with_hint(rhs, expected) {
                    Some(t) => t,
                    None => return None,
                };
                match check_binary_op(op, lhs_type, rhs_type) {
                    Ok(typ) => Some(typ),
                    Err(err) => {
                        self.push_error(lhs.span(), SyntaxError::Semantic(err));
                        None
                    },
                }
            },
            Expr::Call { func, args } => self.check_call(func, args),
            Expr::Assign { op, lhs, rhs } => self.check_assign_expr(op, lhs, rhs),
            Expr::Block { stmts, tail } => {
                let tail_ref: Option<&Expr<'src>> = match tail {
                    Some(t) => Some(&**t),
                    None => None,
                };
                proof {
                    assert(opt_expr_size(opt_expr(tail_ref)) == opt_size(*tail));
                }
                self.analyze_block_expr(stmts, tail_ref, expected)
            },
            Expr::If { cond, then, else_ } => {
                let else_ref: Option<&Expr<'src>> = match else_ {
                    Some(e) => Some(&**e),
                    None => None,
                };
                proof {
                    assert(opt_expr_size(opt_expr(else_ref)) == opt_size(*else_));
                }
                self.infer_if_type(cond, then, else_ref, expected)
            },
            _ => None,
        }
    }

    /// The type of an expression without context.
    fn infer_expr_type(&mut self, expr: &Expr<'src>) -> (r: Option<Type<'src>>)
        requires
            old(self).wf(),
            old(self).next_symbol_id + expr_budget(*expr) <= usize::MAX,
        ensures
            ({
                let (st, t) = old(self).context().infer_step(old(self).state(), *expr, None);
                final(self).state() == st && opt_view(r) == t
            }),
            final(self).stepped(old(self)),
            final(self).next_symbol_id <= old(self).next_symbol_id + expr_budget(*expr),
            *expr matches Expr::Literal(l) ==> r is Some && r->0@ == literal_type(l),
            *expr matches Expr::Ident(i) ==> opt_view(r) == old(self).type_of_name(i.0@),
        decreases expr_size(*expr), 3nat,
    {
        self.infer_expr_type_with_hint(expr, None)
    }

    /// Checks a variable declaration and declares its name. The
    /// initializer's type is the declared type when its constant fits it,
    /// is inferred with the declared type as context otherwise, and must be
    /// assignable to the declared type; an inferred declaration takes the
    /// initializer's type. Failures are reported (an overflowing constant
    /// as an overflow) and declare nothing.
    #[verifier::rlimit(80)]
    fn check_decl(&mut self, node: &Stmt<'src>)
        requires
            old(self).wf(),
            old(self).next_symbol_id + stmt_budget(*node) <= usize::MAX,
        ensures
            final(self).state() == old(self).context().decl_step(old(self).state(), *node),
            final(self).stepped(old(self)),
            final(self).next_symbol_id <= old(self).next_symbol_id + stmt_budget(*node),
            !(*node is VarDecl) ==> *final(self) == *old(self),
            final(self).errors@.len() == old(self).errors@.len() ==> final(self).declares_var(*node),
        decreases stmt_size(*node), 5nat,
    {
        let (name, typ, init, mutable) = match node {
            Stmt::VarDecl { name, typ, init, mutable, .. } => (name, typ, init, *mutable),
            _ => return,
        };

        let folded_init = match init {
            Some(e) => self.eval_const(e),
            None => None,
        };
        let declared_fits = match folded_init {
            Some(v) => !matches!(typ, Type::Inferred) && const_fit(typ, &v) == ConstFit::Fits,
            None => false,
        };
        let init_type: Option<Type<'src>> = match init {
            Some(value) => {
                if declared_fits {
                    Some(clone_type(typ))
                } else if !matches!(typ, Type::Inferred) {
                    self.infer_expr_type_with_hint(value, Some(typ))
                } else {
                    self.infer_expr_type(value)
                }
            },
            None => None,
        };

        if init.is_some() && init_type.is_none() {
            self.push_error(
                name.span(),
                SyntaxError::Semantic(SemanticError::TypeInference("could not infer a valid type from initializer")),
            );
            return;
        }

        let init_ref: Option<&Type<'src>> = match &init_type {
            Some(t) => Some(t),
            None => None,
        };
        let resolved_type = match resolve_decl_type(typ, init_ref) {
            Ok(resolved) => resolved,
            Err(err) => {
                let overflow = match folded_init {
                    Some(v) => const_fit(typ, &v) == ConstFit::Overflow,
                    None => false,
                };
                let err = if overflow {
                    SemanticError::Overflow("initializer constant overflows the declared type")
                } else {
                    err
                };
                self.push_error(name.span(), SyntaxError::Semantic(err));
                return;
            },
        };

        let ghost before = *self;
        let declared = self.declare_binding(name, resolved_type, mutable, folded_init);
        proof {
            if declared {
                lemma_declared_found(before.scope_view(), (name.0, Binding {
                    id: before.next_symbol_id,
                    typ: resolved_type,
                    mutable,
                    value: sanitized(resolved_type@, folded_init),
                }));
            }
        }
    }

    /// Declares a function's name (immutable, with its function type) in
    /// the innermost scope.
    fn check_func_decl(&mut self, node: &Stmt<'src>)
        requires
            old(self).wf(),
            old(self).next_symbol_id + stmt_budget(*node) <= usize::MAX,
        ensures
            final(self).state() == old(self).context().func_decl_step(old(self).state(), *node),
            final(self).stepped(old(self)),
            final(self).next_symbol_id <= old(self).next_symbol_id + stmt_budget(*node),
            !(*node is FuncDecl) ==> *final(self) == *old(self),
            final(self).declares_func(old(self), *node),
        decreases stmt_size(*node), 5nat,
    {
        let (name, typ, args) = match node {
            Stmt::FuncDecl { name, typ, args, .. } => (name, typ, args),
            _ => return,
        };
        let func_type = function_type_from_parts(args, typ);
        let ghost before = *self;
        let declared = self.declare_binding(name, func_type, false, None);
        proof {
            if declared {
                lemma_declared_found(before.scope_view(), (name.0, Binding {
                    id: before.next_symbol_id,
                    typ: func_type,
                    mutable: false,
                    value: None,
                }));
            }
        }
    }

    /// Analyzes one statement: expressions and returned values are typed,
    /// declarations checked and declared.
    fn analyze_stmt(&mut self, stmt: &Stmt<'src>)
        requires
            old(self).wf(),
            old(self).next_symbol_id + stmt_budget(*stmt) <= usize::MAX,
        ensures
            final(self).state() == old(self).context().stmt_step(old(self).state(), *stmt),
            final(self).stepped(old(self)),
            final(self).next_symbol_id <= old(self).next_symbol_id + stmt_budget(*stmt),
        decreases stmt_size(*stmt), 6nat,
    {
        match stmt {
            Stmt::Expr(expr) => {
                let _ = self.infer_expr_type(expr);
            },
            Stmt::Return(Some(expr)) => {
                let _ = self.infer_expr_type(expr);
            },
            Stmt::VarDecl { .. } => self.check_decl(stmt),
            Stmt::FuncDecl { .. } => self.check_func_decl(stmt),
            Stmt::Return(None) | Stmt::Break | Stmt::Continue | Stmt::Error => {},
        }
    }

    /// Analyzes a block in a scope of its own: its statements in order,
    /// then its tail, whose type (with `expected` as context) is the
    /// block's. A block without tail has no type.
    fn analyze_block_expr(&mut self, stmts: &Vec<Stmt<'src>>, tail: Option<&Expr<'src>>, expected: Option<&Type<'src>>) -> (r: Option<Type<'src>>)
        requires
            old(self).wf(),
            old(self).next_symbol_id + stmts_budget(stmts@) + opt_budget(opt_expr(tail)) <= usize::MAX,
        ensures
            ({
                let (st, t) = old(self).context().block_step(old(self).state(), stmts@, opt_expr(tail),
                    opt_view(opt_type(expected)));
                final(self).state() == st && opt_view(r) == t
            }),
            final(self).stepped(old(self)),
            final(self).next_symbol_id <= old(self).next_symbol_id + stmts_budget(stmts@) + opt_budget(opt_expr(tail)),
            tail is None ==> r is None,
        decreases stmts_size(stmts@) + opt_expr_size(opt_expr(tail)), 7nat,
    {
        self.enter_scope();
        let ghost inner = *self;
        let mut i: usize = 0;
        proof {
            assert(stmts@.skip(0) =~= stmts@);
        }
        while i < stmts.len()
            invariant
                i <= stmts@.len(),
                self.stepped(&inner),
                inner.depth() == old(self).depth() + 1,
                inner.wf(),
                inner.frame(old(self)),
                inner.errors == old(self).errors,
                inner.next_symbol_id == old(self).next_symbol_id,
                old(self).next_symbol_id + stmts_budget(stmts@) + opt_budget(opt_expr(tail)) <= usize::MAX,
                self.next_symbol_id <= inner.next_symbol_id + stmts_budget(stmts@.take(i as int)),
                stmts_budget(stmts@.take(i as int)) <= stmts_budget(stmts@),
                self.context() == old(self).context(),
                old(self).context().stmts_step(inner.state(), stmts@)
                    == old(self).context().stmts_step(self.state(), stmts@.skip(i as int)),
            decreases stmts@.len() - i,
        {
            proof {
                lemma_stmts_budget_prefix(stmts@, i as int);
                lemma_stmts_size_elem(stmts@, i as int);
                assert(stmts@.skip(i as int)[0] == stmts@[i as int]);
                assert(stmts@.skip(i as int).drop_first() =~= stmts@.skip(i + 1));
            }
            self.analyze_stmt(&stmts[i]);
            i = i + 1;
        }
        let tail_type = match tail {
            Some(t) => self.infer_expr_type_with_hint(t, expected),
            None => None,
        };
        self.exit_scope();
        tail_type
    }

    /// Analyzes every top-level statement in order, then publishes the
    /// outermost scope's names in `resolved` and `types`.
    pub fn analyze(&mut self)
        requires
            old(self).wf(),
            old(self).next_id() + stmts_budget(old(self).nodes@) <= usize::MAX,
        ensures
            final(self).wf(),
            final(self).errors_kept(old(self)),
            final(self).path == old(self).path,
            final(self).src == old(self).src,
            final(self).nodes == old(self).nodes,
            final(self).functions == old(self).functions,
            final(self).float_ranges == old(self).float_ranges,
            final(self).depth() == old(self).depth(),
            old(self).next_id() <= final(self).next_id() <= old(self).next_id() + stmts_budget(old(self).nodes@),
            final(self).state() == old(self).context().stmts_step(old(self).state(), old(self).nodes@),
            final(self).resolved@ == ids_of(final(self).scope_view()[0]),
            type_entries(final(self).types@) == types_of(final(self).scope_view()[0]),
    {
        let mut nodes: Vec<Stmt<'src>> = Vec::new();
        core::mem::swap(&mut nodes, &mut self.nodes);
        let ghost start = *self;
        let mut idx: usize = 0;
        proof {
            assert(nodes@.skip(0) =~= nodes@);
        }
        while idx < nodes.len()
            invariant
                idx <= nodes@.len(),
                nodes == old(self).nodes,
                start.wf(),
                start.path == old(self).path,
                start.src == old(self).src,
                start.functions == old(self).functions,
                start.float_ranges == old(self).float_ranges,
                start.errors == old(self).errors,
                start.next_symbol_id == old(self).next_symbol_id,
                start.scopes == old(self).scopes,
                self.stepped(&start),
                old(self).next_symbol_id + stmts_budget(nodes@) <= usize::MAX,
                self.next_symbol_id <= start.next_symbol_id + stmts_budget(nodes@.take(idx as int)),
                stmts_budget(nodes@.take(idx as int)) <= stmts_budget(nodes@),
                self.context() == old(self).context(),
                start.state() == old(self).state(),
                old(self).context().stmts_step(start.state(), nodes@)
                    == old(self).context().stmts_step(self.state(), nodes@.skip(idx as int)),
            decreases nodes@.len() - idx,
        {
            proof {
                lemma_stmts_budget_prefix(nodes@, idx as int);
                assert(nodes@.skip(idx as int)[0] == nodes@[idx as int]);
                assert(nodes@.skip(idx as int).drop_first() =~= nodes@.skip(idx + 1));
            }
            self.analyze_stmt(&nodes[idx]);
            idx = idx + 1;
        }
        core::mem::swap(&mut nodes, &mut self.nodes);
        self.sync_exports();
    }
}

/// The analysis budget of an expression, when it fits in a `usize`.
fn expr_budget_of(e: &Expr) -> (r: Option<usize>)
    ensures
        r matches Some(n) ==> n == expr_budget(*e),
        r is None ==> expr_budget(*e) > usize::MAX,
    decreases e,
{
    match e {
        Expr::Unary { expr, .. } => expr_budget_of(expr),
        Expr::Binary { lhs, rhs, .. } => match (expr_budget_of(lhs), expr_budget_of(rhs)) {
            (Some(a), Some(b)) => a.checked_add(b),
            _ => None,
        },
        Expr::Call { func, args } => match (expr_budget_of(func), exprs_budget_of(args)) {
            (Some(a), Some(b)) => a.checked_add(b),
            _ => None,
        },
        Expr::Assign { rhs, .. } => expr_budget_of(rhs),
        Expr::Block { stmts, tail } => {
            let t = match tail {
                Some(t) => expr_budget_of(t),
                None => Some(0),
            };
            match (stmts_budget_of(stmts), t) {
                (Some(a), Some(b)) => a.checked_add(b),
                _ => None,
            }
        },
        Expr::If { cond, then, else_ } => {
            let x = match else_ {
                Some(x) => expr_budget_of(x),
                None => Some(0),
            };
            match (expr_budget_of(cond), expr_budget_of(then), x) {
                (Some(a), Some(b), Some(c)) => match a.checked_add(b) {
                    Some(ab) => ab.checked_add(c),
                    None => None,
                },
                _ => None,
            }
        },
        _ => Some(0),
    }
}

/// The analysis budget of a list of expressions, when it fits in a `usize`.
fn exprs_budget_of(v: &Vec<Expr>) -> (r: Option<usize>)
    ensures
        r matches Some(n) ==> n == exprs_budget(v@),
        r is None ==> exprs_budget(v@) > usize::MAX,
    decreases v,
{
    let mut total: usize = 0;
    let mut i: usize = 0;
    proof {
        assert(v@.take(0) =~= Seq::<Expr>::empty());
    }
    while i < v.len()
        invariant
            i <= v@.len(),
            total == exprs_budget(v@.take(i as int)),
        decreases v@.len() - i,
    {
        proof {
            lemma_exprs_budget_prefix(v@, i as int);
        }
        match expr_budget_of(&v[i]) {
            Some(n) => match total.checked_add(n) {
                Some(t) => total = t,
                None => return None,
            },
            None => return None,
        }
        i = i + 1;
    }
    proof {
        assert(v@.take(v@.len() as int) =~= v@);
    }
    Some(total)
}

/// The analysis budget of a statement, when it fits in a `usize`.
fn stmt_budget_of(s: &Stmt) -> (r: Option<usize>)
    ensures
        r matches Some(n) ==> n == stmt_budget(*s),
        r is None ==> stmt_budget(*s) > usize::MAX,
    decreases s,
{
    match s {
        Stmt::Expr(e) => expr_budget_of(e),
        Stmt::Return(Some(e)) => expr_budget_of(e),
        Stmt::VarDecl { init, .. } => match init {
            Some(e) => match expr_budget_of(e) {
                Some(n) => n.checked_add(1),
                None => None,
            },
            None => Some(1),
        },
        Stmt::FuncDecl { .. } => Some(1),
        _ => Some(0),
    }
}

/// The analysis budget of a list of statements, when it fits in a `usize`.
fn stmts_budget_of(v: &Vec<Stmt>) -> (r: Option<usize>)
    ensures
        r matches Some(n) ==> n == stmts_budget(v@),
        r is None ==> stmts_budget(v@) > usize::MAX,
    decreases v,
{
    let mut total: usize = 0;
    let mut i: usize = 0;
    proof {
        assert(v@.take(0) =~= Seq::<Stmt>::empty());
    }
    while i < v.len()
        invariant
            i <= v@.len(),
            total == stmts_budget(v@.take(i as int)),
        decreases v@.len() - i,
    {
        proof {
            lemma_stmts_budget_prefix(v@, i as int);
        }
        match stmt_budget_of(&v[i]) {
            Some(n) => match total.checked_add(n) {
                Some(t) => total = t,
                None => return None,
            },
            None => return None,
        }
        i = i + 1;
    }
    proof {
        assert(v@.take(v@.len() as int) =~= v@);
    }
    Some(total)
}

impl<'a, 'src> Analyzer<'a, 'src> {
    /// Whether the symbol numbers the analysis of `nodes` may hand out fit in
    /// a `usize` (the condition `analyze` needs).
    pub fn analysis_fits(&self) -> (r: bool)
        ensures
            r == (self.next_id() + stmts_budget(self.nodes@) <= usize::MAX),
    {
        match stmts_budget_of(&self.nodes) {
            Some(n) => self.next_symbol_id.checked_add(n).is_some(),
            None => false,
        }
    }
}

} // verus!
