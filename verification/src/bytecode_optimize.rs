//! Rewrites of the syntax tree before bytecode generation: constant folding, algebraic
//! simplification, removal of branches and loops that can never run, and evaluation of
//! `math` calls on constants.
//!
//! The optimizer decides everything itself but computes no floating-point value: each
//! floating-point result it needs (a sum, a negation, a `math` function) is a question
//! to a function the caller supplies, which answers with the resulting literal.
use vstd::prelude::*;
use vstd::wrapping::i64_specs;
use crate::ast::{BinOp, Expr, FloatLit, MatchArm, Program, Stmt, UnaryOp};
use crate::bytecode::{float_bits_eq, float_bits_equal, is_nan_bits};
use crate::optimize::reversed;

verus! {

/// A `math` function that can be evaluated on a constant.
#[derive(Debug, Clone, Copy, PartialEq, Eq, Structural)]
pub enum MathFn {
    Exp,
    Tanh,
    Sin,
    Cos,
    Sqrt,
    /// `log` or `ln`
    Ln,
    Log2,
    Log10,
    Abs,
    Floor,
    Ceil,
    Round,
}

/// An operand of a floating-point operation: an integer (converted to a float first)
/// or the bits of a float.
#[derive(Debug, Clone, Copy, PartialEq, Eq, Structural)]
pub enum FloatOperand {
    Int(i64),
    Float(u64),
}

/// A floating-point computation the optimizer needs.
#[derive(Debug, Clone, Copy, PartialEq, Eq, Structural)]
pub enum FloatQuery {
    /// `Add`, `Sub`, `Mul` or `Div` of two operands.
    Arith(BinOp, FloatOperand, FloatOperand),
    /// The negation of a float.
    Neg(u64),
    /// A `math` function at an operand.
    Math(MathFn, FloatOperand),
}

/// The answers `fold` may give: `f` to question `q`.
pub open spec fn answers<F: Fn(FloatQuery) -> FloatLit>(fold: F) -> spec_fn(FloatQuery, FloatLit) -> bool {
    |q: FloatQuery, f: FloatLit| call_ensures(fold, (q,), f)
}

/// A float literal as its bits and its text.
pub open spec fn fview(f: FloatLit) -> (u64, Seq<char>) {
    (f.bits, f.text@)
}

/// Whether each question has one answer (as bits and text), as for a function.
pub open spec fn answers_once(ok: spec_fn(FloatQuery, FloatLit) -> bool) -> bool {
    forall|q: FloatQuery, f1: FloatLit, f2: FloatLit|
        #[trigger] ok(q, f1) && #[trigger] ok(q, f2) ==> fview(f1) == fview(f2)
}

/// The answer to question `q`.
pub open spec fn answer(ok: spec_fn(FloatQuery, FloatLit) -> bool, q: FloatQuery) -> (u64, Seq<char>) {
    fview(choose|f: FloatLit| #[trigger] ok(q, f))
}

// ---------------------------------------------------------------------------
// Floating-point bits
// ---------------------------------------------------------------------------

/// Whether a bit pattern is an infinity.
pub open spec fn is_inf_bits(x: u64) -> bool {
    (x / 0x10_0000_0000_0000) % 0x800 == 0x7ff && x % 0x10_0000_0000_0000 == 0
}

/// Where a non-NaN float lies on the number line: its magnitude, negated when the sign
/// bit is set (both zeros at 0).
pub open spec fn float_key(x: u64) -> int {
    let m = x % 0x8000_0000_0000_0000;
    if x >= 0x8000_0000_0000_0000 {
        -m
    } else {
        m as int
    }
}

/// Whether float `a` is less than float `b` (never when one is a NaN).
pub open spec fn float_bits_lt(a: u64, b: u64) -> bool {
    !is_nan_bits(a) && !is_nan_bits(b) && float_key(a) < float_key(b)
}

/// The outcome of comparing two floats with a comparison operator.
pub open spec fn float_compare(op: BinOp, a: u64, b: u64) -> bool {
    match op {
        BinOp::Eq => float_bits_eq(a, b),
        BinOp::Neq => !float_bits_eq(a, b),
        BinOp::Lt => float_bits_lt(a, b),
        BinOp::Gt => float_bits_lt(b, a),
        BinOp::Lte => float_bits_lt(a, b) || float_bits_eq(a, b),
        BinOp::Gte => float_bits_lt(b, a) || float_bits_eq(a, b),
        _ => false,
    }
}

/// The literal `1.0` (printed `1`) when `b` holds, else `0.0` (printed `0`).
pub open spec fn is_flag(f: FloatLit, b: bool) -> bool {
    if b {
        f.bits == 0x3FF0_0000_0000_0000 && f.text@ == seq!['1']
    } else {
        f.bits == 0 && f.text@ == seq!['0']
    }
}

/// The literal `1.0` or `0.0` as bits and text.
pub open spec fn flag_view(b: bool) -> (u64, Seq<char>) {
    if b {
        (0x3FF0_0000_0000_0000, seq!['1'])
    } else {
        (0, seq!['0'])
    }
}

/// The arithmetic operators that floats are folded under.
pub open spec fn is_arith(op: BinOp) -> bool {
    op == BinOp::Add || op == BinOp::Sub || op == BinOp::Mul || op == BinOp::Div
}

/// The comparison operators.
pub open spec fn is_compare(op: BinOp) -> bool {
    op == BinOp::Eq || op == BinOp::Neq || op == BinOp::Lt || op == BinOp::Gt || op == BinOp::Lte
        || op == BinOp::Gte
}

// ---------------------------------------------------------------------------
// Folding one operator
// ---------------------------------------------------------------------------

/// The value of a binary operator on two integer constants: wrapping arithmetic,
/// truncating division and remainder (none by zero), comparisons as 1 or 0; none for
/// the other operators.
pub open spec fn int_fold(op: BinOp, a: i64, b: i64) -> Option<i64> {
    match op {
        BinOp::Add => Some(i64_specs::wrapping_add(a, b)),
        BinOp::Sub => Some(i64_specs::wrapping_sub(a, b)),
        BinOp::Mul => Some(i64_specs::wrapping_mul(a, b)),
        BinOp::Div => if b != 0 {
            a.checked_div(b)
        } else {
            None
        },
        BinOp::Mod => if b != 0 {
            a.checked_rem(b)
        } else {
            None
        },
        BinOp::Eq => Some(if a == b { 1 } else { 0 }),
        BinOp::Neq => Some(if a != b { 1 } else { 0 }),
        BinOp::Lt => Some(if a < b { 1 } else { 0 }),
        BinOp::Gt => Some(if a > b { 1 } else { 0 }),
        BinOp::Lte => Some(if a <= b { 1 } else { 0 }),
        BinOp::Gte => Some(if a >= b { 1 } else { 0 }),
        _ => None,
    }
}

/// Whether folding the operator overflows: the smallest integer divided by -1, or its
/// remainder.
pub open spec fn int_traps(op: BinOp, a: i64, b: i64) -> bool {
    (op == BinOp::Div || op == BinOp::Mod) && a == i64::MIN && b == -1
}

/// What the optimizer can tell of an optimized expression before looking at float
/// values: the constant it is, or that it is a float, or nothing.
pub ghost enum Shape {
    Int(i64),
    Flt,
    Bool(bool),
    Str(Seq<char>),
    Name(Seq<char>),
    Other,
}

/// The shape of an expression as it stands.
pub open spec fn raw_shape(e: Expr) -> Shape {
    match e {
        Expr::Integer(n) => Shape::Int(n),
        Expr::Float(_) => Shape::Flt,
        Expr::Bool(b) => Shape::Bool(b),
        Expr::String(s) => Shape::Str(s@),
        Expr::Ident(s) => Shape::Name(s@),
        _ => Shape::Other,
    }
}

/// Whether an operator on two operands of these shapes is folded into a constant:
/// integers under arithmetic and comparisons, floats under arithmetic and comparisons,
/// strings under concatenation, booleans under logic and (in)equality, and an integer
/// with a float under arithmetic.
pub open spec fn folds(a: Shape, op: BinOp, b: Shape) -> bool {
    match (a, b) {
        (Shape::Int(x), Shape::Int(y)) => int_fold(op, x, y) is Some,
        (Shape::Flt, Shape::Flt) => is_arith(op) || is_compare(op),
        (Shape::Str(_), Shape::Str(_)) => op == BinOp::Concat,
        (Shape::Bool(_), Shape::Bool(_)) => op == BinOp::And || op == BinOp::Or || op == BinOp::Eq
            || op == BinOp::Neq,
        (Shape::Int(_), Shape::Flt) => is_arith(op),
        (Shape::Flt, Shape::Int(_)) => is_arith(op),
        _ => false,
    }
}

/// The shape of a folded operator.
pub open spec fn fold_shape(a: Shape, op: BinOp, b: Shape) -> Shape {
    match (a, b) {
        (Shape::Int(x), Shape::Int(y)) => Shape::Int(int_fold(op, x, y)->0),
        (Shape::Str(x), Shape::Str(y)) => Shape::Str(x + y),
        (Shape::Bool(x), Shape::Bool(y)) => Shape::Bool(
            match op {
                BinOp::And => x && y,
                BinOp::Or => x || y,
                BinOp::Eq => x == y,
                _ => x != y,
            },
        ),
        _ => Shape::Flt,
    }
}

/// The float operand of an integer or float constant.
pub open spec fn operand_of(e: Expr) -> FloatOperand {
    match e {
        Expr::Integer(n) => FloatOperand::Int(n),
        Expr::Float(f) => FloatOperand::Float(f.bits),
        _ => FloatOperand::Int(0),
    }
}

/// The float that folding `l op r` gives when the operands are constants: 1 or 0 for a
/// comparison, otherwise the answer to the arithmetic question.
pub open spec fn fold_float(
    l: Expr,
    op: BinOp,
    r: Expr,
    ok: spec_fn(FloatQuery, FloatLit) -> bool,
) -> (u64, Seq<char>) {
    if is_compare(op) {
        flag_view(float_compare(op, operand_of(l)->Float_0, operand_of(r)->Float_0))
    } else {
        answer(ok, FloatQuery::Arith(op, operand_of(l), operand_of(r)))
    }
}

/// How an operator on operands that do not fold is simplified.
pub enum Simp {
    /// To the left operand.
    Left,
    /// To the right operand.
    Right,
    /// To integer zero.
    IntZero,
    /// To float zero.
    FloatZero,
    /// To a boolean constant.
    BoolConst(bool),
}

/// Whether a shape is integer 0 or `false`.
pub open spec fn zero_shape(s: Shape) -> bool {
    s == Shape::Int(0) || s == Shape::Bool(false)
}

/// Whether a shape is integer 1 or `true`.
pub open spec fn one_shape(s: Shape) -> bool {
    s == Shape::Int(1) || s == Shape::Bool(true)
}

/// Whether two operands are the same constant or variable (floats never count).
pub open spec fn same_shape(a: Shape, b: Shape) -> bool {
    match (a, b) {
        (Shape::Int(x), Shape::Int(y)) => x == y,
        (Shape::Bool(x), Shape::Bool(y)) => x == y,
        (Shape::Str(x), Shape::Str(y)) => x == y,
        (Shape::Name(x), Shape::Name(y)) => x == y,
        _ => false,
    }
}

/// The algebraic identities, in the order they are tried: `x + 0`, `0 + x`, `x - 0`,
/// `x * 1`, `1 * x` give the other operand; `x * 0` and `0 * x` give 0; `x / 1` gives
/// `x`; `x - x` gives zero for numbers; `x == x`, `x <= x`, `x >= x` give true and
/// `x != x` false. Zero and one include `false` and `true`.
pub open spec fn simp_of(a: Shape, op: BinOp, b: Shape) -> Option<Simp> {
    if op == BinOp::Add && zero_shape(b) {
        Some(Simp::Left)
    } else if op == BinOp::Add && zero_shape(a) {
        Some(Simp::Right)
    } else if op == BinOp::Sub && zero_shape(b) {
        Some(Simp::Left)
    } else if op == BinOp::Mul && one_shape(b) {
        Some(Simp::Left)
    } else if op == BinOp::Mul && one_shape(a) {
        Some(Simp::Right)
    } else if op == BinOp::Mul && zero_shape(b) {
        Some(Simp::IntZero)
    } else if op == BinOp::Mul && zero_shape(a) {
        Some(Simp::IntZero)
    } else if op == BinOp::Div && one_shape(b) {
        Some(Simp::Left)
    } else if op == BinOp::Sub && same_shape(a, b) && a is Int {
        Some(Simp::IntZero)
    } else if op == BinOp::Sub && same_shape(a, b) && a is Flt {
        Some(Simp::FloatZero)
    } else if op == BinOp::Eq && same_shape(a, b) {
        Some(Simp::BoolConst(true))
    } else if op == BinOp::Neq && same_shape(a, b) {
        Some(Simp::BoolConst(false))
    } else if (op == BinOp::Lte || op == BinOp::Gte) && same_shape(a, b) {
        Some(Simp::BoolConst(true))
    } else {
        None
    }
}

/// The shape of a simplified operator.
pub open spec fn simp_shape(a: Shape, op: BinOp, b: Shape) -> Shape {
    match simp_of(a, op, b) {
        Some(Simp::Left) => a,
        Some(Simp::Right) => b,
        Some(Simp::IntZero) => Shape::Int(0),
        Some(Simp::FloatZero) => Shape::Flt,
        Some(Simp::BoolConst(c)) => Shape::Bool(c),
        None => Shape::Other,
    }
}

/// `x` is operator `op` on operands `l` and `r` after the algebraic identities.
pub open spec fn simp_result(l: Expr, op: BinOp, r: Expr, x: Expr) -> bool {
    match simp_of(raw_shape(l), op, raw_shape(r)) {
        Some(Simp::Left) => x == l,
        Some(Simp::Right) => x == r,
        Some(Simp::IntZero) => x == Expr::Integer(0),
        Some(Simp::FloatZero) => x matches Expr::Float(f) && is_flag(f, false),
        Some(Simp::BoolConst(c)) => x == Expr::Bool(c),
        None => x == Expr::Binary(Box::new(l), op, Box::new(r)),
    }
}

/// The shape of a unary operator on an optimized operand of shape `s`.
pub open spec fn unary_shape(op: UnaryOp, s: Shape) -> Shape {
    match (op, s) {
        (UnaryOp::Neg, Shape::Int(n)) => Shape::Int(i64_specs::wrapping_sub(0, n)),
        (UnaryOp::Neg, Shape::Flt) => Shape::Flt,
        (UnaryOp::Not, Shape::Bool(b)) => Shape::Bool(!b),
        (UnaryOp::Not, Shape::Int(n)) => Shape::Int(if n == 0 { 1 } else { 0 }),
        _ => Shape::Other,
    }
}

/// The shape of the optimized form of an expression. It does not depend on the float
/// answers: those only ever give floats.
pub open spec fn shape(e: Expr) -> Shape
    decreases e,
{
    match e {
        Expr::Binary(l, op, r) => {
            let a = shape(*l);
            let b = shape(*r);
            if folds(a, op, b) {
                fold_shape(a, op, b)
            } else {
                simp_shape(a, op, b)
            }
        },
        Expr::Unary(op, v) => unary_shape(op, shape(*v)),
        Expr::If(c, t, el) => match shape(*c) {
            Shape::Bool(true) => raw_shape(*t),
            Shape::Bool(false) => match el {
                Some(x) => raw_shape(*x),
                None => Shape::Bool(false),
            },
            _ => Shape::Other,
        },
        _ => raw_shape(e),
    }
}


/// The float operand that an optimized expression of shape `s` gives: its integer, or
/// the bits of its float value.
pub open spec fn operand(s: Shape, e: Expr, ok: spec_fn(FloatQuery, FloatLit) -> bool) -> FloatOperand
    decreases e, 1nat,
{
    match s {
        Shape::Int(n) => FloatOperand::Int(n),
        _ => FloatOperand::Float(float_of(e, ok).0),
    }
}

/// The value (bits and text) of the optimized form of `e` when that is a float: a float
/// literal as it is; a folded comparison 1 or 0; folded arithmetic and negation the
/// answers to the questions on the optimized operands; an operand kept by an identity
/// its own value; the branch chosen by a constant condition as it stands.
pub open spec fn float_of(e: Expr, ok: spec_fn(FloatQuery, FloatLit) -> bool) -> (u64, Seq<char>)
    decreases e, 0nat,
{
    match e {
        Expr::Float(f) => fview(f),
        Expr::Binary(l, op, r) => {
            let a = shape(*l);
            let b = shape(*r);
            if folds(a, op, b) {
                if is_compare(op) {
                    flag_view(float_compare(op, float_of(*l, ok).0, float_of(*r, ok).0))
                } else {
                    answer(ok, FloatQuery::Arith(op, operand(a, *l, ok), operand(b, *r, ok)))
                }
            } else {
                match simp_of(a, op, b) {
                    Some(Simp::Left) => float_of(*l, ok),
                    Some(Simp::Right) => float_of(*r, ok),
                    _ => flag_view(false),
                }
            }
        },
        Expr::Unary(_, v) => answer(ok, FloatQuery::Neg(float_of(*v, ok).0)),
        Expr::If(c, t, el) => match shape(*c) {
            Shape::Bool(true) => match *t {
                Expr::Float(f) => fview(f),
                _ => flag_view(false),
            },
            _ => match el {
                Some(x) => match *x {
                    Expr::Float(f) => fview(f),
                    _ => flag_view(false),
                },
                None => flag_view(false),
            },
        },
        _ => flag_view(false),
    }
}

/// The value of an expression built from integer literals with arithmetic, comparisons,
/// negation and `!`, as the optimizer folds them; none where it does not fold.
pub open spec fn int_value(e: Expr) -> Option<i64>
    decreases e,
{
    match e {
        Expr::Integer(n) => Some(n),
        Expr::Binary(l, op, r) => match (int_value(*l), int_value(*r)) {
            (Some(a), Some(b)) => int_fold(op, a, b),
            _ => None,
        },
        Expr::Unary(UnaryOp::Neg, x) => match int_value(*x) {
            Some(v) => Some(i64_specs::wrapping_sub(0, v)),
            None => None,
        },
        Expr::Unary(UnaryOp::Not, x) => match int_value(*x) {
            Some(v) => Some(if v == 0 { 1 } else { 0 }),
            None => None,
        },
        _ => None,
    }
}

/// Optimizing an expression of integer constants gives its value, however deeply the
/// operators nest.
pub proof fn lemma_folds_integer_constants(e: Expr)
    requires
        int_value(e) is Some,
    ensures
        shape(e) == Shape::Int(int_value(e)->0),
    decreases e,
{
    match e {
        Expr::Binary(l, op, r) => {
            lemma_folds_integer_constants(*l);
            lemma_folds_integer_constants(*r);
        },
        Expr::Unary(op, x) => lemma_folds_integer_constants(*x),
        _ => {},
    }
}

// ---------------------------------------------------------------------------
// What optimizing a tree gives
// ---------------------------------------------------------------------------

/// `r` is a result of optimizing expression `e`: operators on their optimized operands
/// folded or simplified; an `if` whose optimized condition is a boolean constant
/// replaced by the chosen branch as it stands (or `false` when there is no `else`);
/// other compound expressions with their parts optimized; atoms unchanged.
pub open spec fn opt_expr_rel(e: Expr, r: Expr, ok: spec_fn(FloatQuery, FloatLit) -> bool) -> bool
    decreases e,
{
    match e {
        Expr::Binary(l, op, rr) => {
            let a = shape(*l);
            let b = shape(*rr);
            if folds(a, op, b) {
                match fold_shape(a, op, b) {
                    Shape::Flt => r matches Expr::Float(f) && fview(f) == float_of(e, ok),
                    s => raw_shape(r) == s,
                }
            } else {
                match simp_of(a, op, b) {
                    Some(Simp::Left) => opt_expr_rel(*l, r, ok),
                    Some(Simp::Right) => opt_expr_rel(*rr, r, ok),
                    Some(Simp::IntZero) => r == Expr::Integer(0),
                    Some(Simp::FloatZero) => r matches Expr::Float(f) && fview(f) == flag_view(false),
                    Some(Simp::BoolConst(c)) => r == Expr::Bool(c),
                    None => r matches Expr::Binary(x, o, y) && o == op && opt_expr_rel(*l, *x, ok)
                        && opt_expr_rel(*rr, *y, ok),
                }
            }
        },
        Expr::Unary(op, v) => match unary_shape(op, shape(*v)) {
            Shape::Flt => r matches Expr::Float(f) && fview(f) == float_of(e, ok),
            Shape::Other => r matches Expr::Unary(o, x) && o == op && opt_expr_rel(*v, *x, ok),
            s => raw_shape(r) == s,
        },
        Expr::Call(name, args) => r matches Expr::Call(n2, a2) && n2 == name && opt_exprs_rel(
            args@,
            a2@,
            ok,
        ),
        Expr::TailCall(name, args) => r matches Expr::TailCall(n2, a2) && n2 == name
            && opt_exprs_rel(args@, a2@, ok),
        Expr::FieldAccess(o, f) => r matches Expr::FieldAccess(o2, f2) && f2 == f && opt_expr_rel(
            *o,
            *o2,
            ok,
        ),
        Expr::If(c, t, el) => match shape(*c) {
            Shape::Bool(true) => r == *t,
            Shape::Bool(false) => match el {
                Some(x) => r == *x,
                None => r == Expr::Bool(false),
            },
            _ => r matches Expr::If(c2, t2, e2) && opt_expr_rel(*c, *c2, ok) && opt_expr_rel(
                *t,
                *t2,
                ok,
            ) && match (el, e2) {
                (Some(a), Some(b)) => opt_expr_rel(*a, *b, ok),
                (None, None) => true,
                _ => false,
            },
        },
        Expr::StructLiteral { struct_name, fields } => r matches Expr::StructLiteral {
            struct_name: n2,
            fields: f2,
        } && n2 == struct_name && opt_fields_rel(fields@, f2@, ok),
        Expr::Match { value, arms } => r matches Expr::Match { value: v2, arms: a2 } && opt_expr_rel(
            *value,
            *v2,
            ok,
        ) && opt_arms_rel(arms@, a2@, ok),
        Expr::Lambda { params, return_type, body } => r matches Expr::Lambda {
            params: p2,
            return_type: t2,
            body: b2,
        } && p2 == params && t2 == return_type && opt_stmts_rel(body@, b2@, ok),
        _ => r == e,
    }
}

/// `w` is the list `v` with each expression optimized.
pub open spec fn opt_exprs_rel(v: Seq<Expr>, w: Seq<Expr>, ok: spec_fn(FloatQuery, FloatLit) -> bool) -> bool
    decreases v,
{
    w.len() == v.len() && (v.len() > 0 ==> opt_exprs_rel(v.subrange(0, v.len() - 1), w.drop_last(), ok)
        && opt_expr_rel(v[v.len() - 1], w.last(), ok))
}

/// `w` is the list of struct fields `v` with each value optimized.
pub open spec fn opt_fields_rel(
    v: Seq<(String, Expr)>,
    w: Seq<(String, Expr)>,
    ok: spec_fn(FloatQuery, FloatLit) -> bool,
) -> bool
    decreases v,
{
    w.len() == v.len() && (v.len() > 0 ==> opt_fields_rel(v.subrange(0, v.len() - 1), w.drop_last(), ok)
        && w.last().0 == v[v.len() - 1].0 && opt_expr_rel(v[v.len() - 1].1, w.last().1, ok))
}

/// `w` is the list of match arms `v`, each with its guard and body optimized.
pub open spec fn opt_arms_rel(v: Seq<MatchArm>, w: Seq<MatchArm>, ok: spec_fn(FloatQuery, FloatLit) -> bool) -> bool
    decreases v,
{
    w.len() == v.len() && (v.len() > 0 ==> opt_arms_rel(v.subrange(0, v.len() - 1), w.drop_last(), ok)
        && opt_arm_rel(v[v.len() - 1], w.last(), ok))
}

/// `b` is match arm `a` with its guard and body optimized.
pub open spec fn opt_arm_rel(a: MatchArm, b: MatchArm, ok: spec_fn(FloatQuery, FloatLit) -> bool) -> bool
    decreases a,
{
    &&& b.pattern == a.pattern
    &&& b.bind == a.bind
    &&& match (a.guard, b.guard) {
        (Some(g), Some(g2)) => opt_expr_rel(g, g2, ok),
        (None, None) => true,
        _ => false,
    }
    &&& opt_stmts_rel(a.body@, b.body@, ok)
}

/// `w` is the block `v` with each statement optimized.
pub open spec fn opt_stmts_rel(v: Seq<Stmt>, w: Seq<Stmt>, ok: spec_fn(FloatQuery, FloatLit) -> bool) -> bool
    decreases v,
{
    w.len() == v.len() && (v.len() > 0 ==> opt_stmts_rel(v.subrange(0, v.len() - 1), w.drop_last(), ok)
        && opt_stmt_rel(v[v.len() - 1], w.last(), ok))
}

/// `r` is a result of optimizing statement `s`: its expressions optimized; a `while`
/// whose condition is the literal `false` and an `if` whose condition is a boolean
/// literal replaced by a block of what can run (its statements optimized); blocks,
/// loops, functions and methods with their statements optimized; the rest unchanged.
pub open spec fn opt_stmt_rel(s: Stmt, r: Stmt, ok: spec_fn(FloatQuery, FloatLit) -> bool) -> bool
    decreases s,
{
    match s {
        Stmt::Let { name, type_ann, mutable, value } => r matches Stmt::Let {
            name: n2,
            type_ann: t2,
            mutable: m2,
            value: v2,
        } && n2 == name && t2 == type_ann && m2 == mutable && opt_expr_rel(value, v2, ok),
        Stmt::Assign { name, value } => r matches Stmt::Assign { name: n2, value: v2 } && n2 == name
            && opt_expr_rel(value, v2, ok),
        Stmt::FieldAssign { obj, field, value } => r matches Stmt::FieldAssign {
            obj: o2,
            field: f2,
            value: v2,
        } && o2 == obj && f2 == field && opt_expr_rel(value, v2, ok),
        Stmt::Expr(e) => r matches Stmt::Expr(e2) && opt_expr_rel(e, e2, ok),
        Stmt::Return(Some(e)) => r matches Stmt::Return(Some(e2)) && opt_expr_rel(e, e2, ok),
        Stmt::Print(e) => r matches Stmt::Print(e2) && opt_expr_rel(e, e2, ok),
        Stmt::PrintLn(e) => r matches Stmt::PrintLn(e2) && opt_expr_rel(e, e2, ok),
        Stmt::Exit(e) => r matches Stmt::Exit(e2) && opt_expr_rel(e, e2, ok),
        Stmt::While(c, body) => if c == Expr::Bool(false) {
            r matches Stmt::Block(v) && v.len() == 0
        } else {
            r matches Stmt::While(c2, b2) && opt_expr_rel(c, c2, ok) && opt_stmts_rel(body@, b2@, ok)
        },
        Stmt::For { var, iterable, body } => r matches Stmt::For {
            var: v2,
            iterable: i2,
            body: b2,
        } && v2 == var && opt_expr_rel(iterable, i2, ok) && opt_stmts_rel(body@, b2@, ok),
        Stmt::If { cond, then_block, else_block } => if cond == Expr::Bool(true) {
            r matches Stmt::Block(v) && opt_stmts_rel(then_block@, v@, ok)
        } else if cond == Expr::Bool(false) {
            match else_block {
                Some(b) => r matches Stmt::Block(v) && opt_stmts_rel(b@, v@, ok),
                None => r matches Stmt::Block(v) && v.len() == 0,
            }
        } else {
            r matches Stmt::If { cond: c2, then_block: t2, else_block: e2 } && opt_expr_rel(
                cond,
                c2,
                ok,
            ) && opt_stmts_rel(then_block@, t2@, ok) && match (else_block, e2) {
                (Some(a), Some(b)) => opt_stmts_rel(a@, b@, ok),
                (None, None) => true,
                _ => false,
            }
        },
        Stmt::Block(v) => r matches Stmt::Block(w) && opt_stmts_rel(v@, w@, ok),
        Stmt::FnDef { name, params, return_type, body } => r matches Stmt::FnDef {
            name: n2,
            params: p2,
            return_type: t2,
            body: b2,
        } && n2 == name && p2 == params && t2 == return_type && opt_stmts_rel(body@, b2@, ok),
        Stmt::ImplBlock { impl_type, methods } => r matches Stmt::ImplBlock {
            impl_type: i2,
            methods: m2,
        } && i2 == impl_type && opt_stmts_rel(methods@, m2@, ok),
        _ => r == s,
    }
}

/// A result of optimizing an expression has the shape that `shape` predicts.
proof fn lemma_rel_shape(e: Expr, r: Expr, ok: spec_fn(FloatQuery, FloatLit) -> bool)
    requires
        opt_expr_rel(e, r, ok),
    ensures
        raw_shape(r) == shape(e),
    decreases e,
{
    match e {
        Expr::Binary(l, op, rr) => {
            let a = shape(*l);
            let b = shape(*rr);
            if !folds(a, op, b) {
                match simp_of(a, op, b) {
                    Some(Simp::Left) => lemma_rel_shape(*l, r, ok),
                    Some(Simp::Right) => lemma_rel_shape(*rr, r, ok),
                    _ => {},
                }
            }
        },
        _ => {},
    }
}

/// Optimizing an expression of integer constants gives the integer it evaluates to.
pub proof fn lemma_optimized_constant(e: Expr, r: Expr, ok: spec_fn(FloatQuery, FloatLit) -> bool)
    requires
        int_value(e) is Some,
        opt_expr_rel(e, r, ok),
    ensures
        r == Expr::Integer(int_value(e)->0),
{
    lemma_folds_integer_constants(e);
    lemma_rel_shape(e, r, ok);
}

// ---------------------------------------------------------------------------
// Where folding would overflow
// ---------------------------------------------------------------------------

/// Whether optimizing `e` folds the smallest integer divided by -1 (or its remainder),
/// which overflows.
pub open spec fn expr_traps(e: Expr) -> bool
    decreases e,
{
    match e {
        Expr::Binary(l, op, r) => expr_traps(*l) || expr_traps(*r) || ((op == BinOp::Div || op
            == BinOp::Mod) && shape(*l) == Shape::Int(i64::MIN) && shape(*r) == Shape::Int(-1i64)),
        Expr::Unary(_, v) => expr_traps(*v),
        Expr::Call(_, args) => exprs_trap(args@),
        Expr::TailCall(_, args) => exprs_trap(args@),
        Expr::FieldAccess(o, _) => expr_traps(*o),
        Expr::If(c, t, el) => expr_traps(*c) || (!(shape(*c) is Bool) && (expr_traps(*t) || match el {
            Some(x) => expr_traps(*x),
            None => false,
        })),
        Expr::StructLiteral { fields, .. } => fields_trap(fields@),
        Expr::Match { value, arms } => expr_traps(*value) || arms_trap(arms@),
        Expr::Lambda { body, .. } => stmts_trap(body@),
        _ => false,
    }
}

/// Whether optimizing some expression of a list overflows.
pub open spec fn exprs_trap(v: Seq<Expr>) -> bool
    decreases v,
{
    v.len() > 0 && (expr_traps(v[0]) || exprs_trap(v.subrange(1, v.len() as int)))
}

/// Whether optimizing some field value of a struct literal overflows.
pub open spec fn fields_trap(v: Seq<(String, Expr)>) -> bool
    decreases v,
{
    v.len() > 0 && (expr_traps(v[0].1) || fields_trap(v.subrange(1, v.len() as int)))
}

/// Whether optimizing some match arm overflows.
pub open spec fn arms_trap(v: Seq<MatchArm>) -> bool
    decreases v,
{
    v.len() > 0 && (arm_traps(v[0]) || arms_trap(v.subrange(1, v.len() as int)))
}

/// Whether optimizing a match arm overflows.
pub open spec fn arm_traps(a: MatchArm) -> bool
    decreases a,
{
    (match a.guard {
        Some(g) => expr_traps(g),
        None => false,
    }) || stmts_trap(a.body@)
}

/// Whether optimizing some statement of a block overflows.
pub open spec fn stmts_trap(v: Seq<Stmt>) -> bool
    decreases v,
{
    v.len() > 0 && (stmt_traps(v[0]) || stmts_trap(v.subrange(1, v.len() as int)))
}

/// Whether optimizing a statement overflows.
pub open spec fn stmt_traps(s: Stmt) -> bool
    decreases s,
{
    match s {
        Stmt::Let { value, .. } => expr_traps(value),
        Stmt::Assign { value, .. } => expr_traps(value),
        Stmt::FieldAssign { value, .. } => expr_traps(value),
        Stmt::Expr(e) => expr_traps(e),
        Stmt::Return(Some(e)) => expr_traps(e),
        Stmt::Print(e) => expr_traps(e),
        Stmt::PrintLn(e) => expr_traps(e),
        Stmt::Exit(e) => expr_traps(e),
        Stmt::While(c, body) => c != Expr::Bool(false) && (expr_traps(c) || stmts_trap(body@)),
        Stmt::For { iterable, body, .. } => expr_traps(iterable) || stmts_trap(body@),
        Stmt::If { cond, then_block, else_block } => if cond == Expr::Bool(true) {
            stmts_trap(then_block@)
        } else if cond == Expr::Bool(false) {
            match else_block {
                Some(b) => stmts_trap(b@),
                None => false,
            }
        } else {
            expr_traps(cond) || stmts_trap(then_block@) || match else_block {
                Some(b) => stmts_trap(b@),
                None => false,
            }
        },
        Stmt::Block(v) => stmts_trap(v@),
        Stmt::FnDef { body, .. } => stmts_trap(body@),
        Stmt::ImplBlock { methods, .. } => stmts_trap(methods@),
        _ => false,
    }
}

// ---------------------------------------------------------------------------
// Folding, executable
// ---------------------------------------------------------------------------

/// Asks `fold` a question.
fn ask<F: Fn(FloatQuery) -> FloatLit>(fold: &F, q: FloatQuery) -> (f: FloatLit)
    requires
        forall|x: FloatQuery| call_requires(*fold, (x,)),
        answers_once(answers(*fold)),
    ensures
        fview(f) == answer(answers(*fold), q),
{
    let f = fold(q);
    assert((answers(*fold))(q, f));
    f
}

/// The literal `1.0` or `0.0`.
fn flag(b: bool) -> (f: FloatLit)
    ensures
        is_flag(f, b),
{
    if b {
        let text = String::from_str("1");
        proof {
            reveal_strlit("1");
        }
        assert(text@ =~= seq!['1']);
        FloatLit { bits: 0x3FF0_0000_0000_0000, text }
    } else {
        let text = String::from_str("0");
        proof {
            reveal_strlit("0");
        }
        assert(text@ =~= seq!['0']);
        FloatLit { bits: 0, text }
    }
}

/// Whether float `a` is less than float `b`.
pub(crate) fn float_less(a: u64, b: u64) -> (r: bool)
    ensures
        r == float_bits_lt(a, b),
{
    let nan_a = (a / 0x10_0000_0000_0000) % 0x800 == 0x7ff && a % 0x10_0000_0000_0000 != 0;
    let nan_b = (b / 0x10_0000_0000_0000) % 0x800 == 0x7ff && b % 0x10_0000_0000_0000 != 0;
    if nan_a || nan_b {
        return false;
    }
    let ma = a % 0x8000_0000_0000_0000;
    let mb = b % 0x8000_0000_0000_0000;
    let neg_a = a >= 0x8000_0000_0000_0000;
    let neg_b = b >= 0x8000_0000_0000_0000;
    if !neg_a && !neg_b {
        ma < mb
    } else if neg_a && neg_b {
        mb < ma
    } else if neg_a {
        !(ma == 0 && mb == 0)
    } else {
        false
    }
}

/// The outcome of comparing two floats.
fn compare_floats(op: BinOp, a: u64, b: u64) -> (r: bool)
    ensures
        r == float_compare(op, a, b),
{
    match op {
        BinOp::Eq => float_bits_equal(a, b),
        BinOp::Neq => !float_bits_equal(a, b),
        BinOp::Lt => float_less(a, b),
        BinOp::Gt => float_less(b, a),
        BinOp::Lte => float_less(a, b) || float_bits_equal(a, b),
        BinOp::Gte => float_less(b, a) || float_bits_equal(a, b),
        _ => false,
    }
}

/// The value of an integer operator, as `int_fold`.
fn fold_ints(op: BinOp, a: i64, b: i64) -> (r: Option<i64>)
    requires
        !int_traps(op, a, b),
    ensures
        r == int_fold(op, a, b),
{
    match op {
        BinOp::Add => Some(a.wrapping_add(b)),
        BinOp::Sub => Some(a.wrapping_sub(b)),
        BinOp::Mul => Some(a.wrapping_mul(b)),
        BinOp::Div => if b != 0 {
            a.checked_div(b)
        } else {
            None
        },
        BinOp::Mod => if b != 0 {
            a.checked_rem(b)
        } else {
            None
        },
        BinOp::Eq => Some(if a == b { 1 } else { 0 }),
        BinOp::Neq => Some(if a != b { 1 } else { 0 }),
        BinOp::Lt => Some(if a < b { 1 } else { 0 }),
        BinOp::Gt => Some(if a > b { 1 } else { 0 }),
        BinOp::Lte => Some(if a <= b { 1 } else { 0 }),
        BinOp::Gte => Some(if a >= b { 1 } else { 0 }),
        _ => None,
    }
}

/// Whether an operator is `Add`, `Sub`, `Mul` or `Div`.
fn arith_op(op: BinOp) -> (b: bool)
    ensures
        b == is_arith(op),
{
    match op {
        BinOp::Add | BinOp::Sub | BinOp::Mul | BinOp::Div => true,
        _ => false,
    }
}

/// Folds an operator on two optimized operands into a constant, when they fold.
fn try_fold_binary<F: Fn(FloatQuery) -> FloatLit>(l: &Expr, op: BinOp, r: &Expr, fold: &F) -> (res: Option<Expr>)
    requires
        forall|x: FloatQuery| call_requires(*fold, (x,)),
        answers_once(answers(*fold)),
        !(l is Integer && r is Integer && int_traps(op, l->Integer_0, r->Integer_0)),
    ensures
        res is Some <==> folds(raw_shape(*l), op, raw_shape(*r)),
        res matches Some(x) ==> raw_shape(x) == fold_shape(raw_shape(*l), op, raw_shape(*r)),
        res matches Some(Expr::Float(f)) ==> fview(f) == fold_float(*l, op, *r, answers(*fold)),
{
    match (l, r) {
        (Expr::Integer(a), Expr::Integer(b)) => match fold_ints(op, *a, *b) {
            Some(v) => Some(Expr::Integer(v)),
            None => None,
        },
        (Expr::Float(a), Expr::Float(b)) => match op {
            BinOp::Eq | BinOp::Neq | BinOp::Lt | BinOp::Gt | BinOp::Lte | BinOp::Gte => {
                Some(Expr::Float(flag(compare_floats(op, a.bits, b.bits))))
            },
            BinOp::Add | BinOp::Sub | BinOp::Mul | BinOp::Div => {
                let q = FloatQuery::Arith(op, FloatOperand::Float(a.bits), FloatOperand::Float(b.bits));
                Some(Expr::Float(ask(fold, q)))
            },
            _ => None,
        },
        (Expr::String(a), Expr::String(b)) => if op == BinOp::Concat {
            let mut s = a.clone();
            s.append(b.as_str());
            Some(Expr::String(s))
        } else {
            None
        },
        (Expr::Bool(a), Expr::Bool(b)) => match op {
            BinOp::And => Some(Expr::Bool(*a && *b)),
            BinOp::Or => Some(Expr::Bool(*a || *b)),
            BinOp::Eq => Some(Expr::Bool(*a == *b)),
            BinOp::Neq => Some(Expr::Bool(*a != *b)),
            _ => None,
        },
        (Expr::Integer(a), Expr::Float(b)) => if arith_op(op) {
            let q = FloatQuery::Arith(op, FloatOperand::Int(*a), FloatOperand::Float(b.bits));
            Some(Expr::Float(ask(fold, q)))
        } else {
            None
        },
        (Expr::Float(a), Expr::Integer(b)) => if arith_op(op) {
            let q = FloatQuery::Arith(op, FloatOperand::Float(a.bits), FloatOperand::Int(*b));
            Some(Expr::Float(ask(fold, q)))
        } else {
            None
        },
        _ => None,
    }
}

/// Whether an operand is integer 0 or `false`.
fn is_zero(e: &Expr) -> (b: bool)
    ensures
        b == zero_shape(raw_shape(*e)),
{
    match e {
        Expr::Integer(n) => *n == 0,
        Expr::Bool(b) => !*b,
        _ => false,
    }
}

/// Whether an operand is integer 1 or `true`.
fn is_one(e: &Expr) -> (b: bool)
    ensures
        b == one_shape(raw_shape(*e)),
{
    match e {
        Expr::Integer(n) => *n == 1,
        Expr::Bool(b) => *b,
        _ => false,
    }
}

/// Whether two operands are the same constant or variable: integers, floats (as
/// numbers), booleans, strings and names.
fn exprs_equal(a: &Expr, b: &Expr) -> (r: bool)
    ensures
        (a is Float && b is Float) ==> r == float_bits_eq(a->Float_0.bits, b->Float_0.bits),
        !(a is Float && b is Float) ==> r == same_shape(raw_shape(*a), raw_shape(*b)),
{
    match (a, b) {
        (Expr::Integer(x), Expr::Integer(y)) => *x == *y,
        (Expr::Float(x), Expr::Float(y)) => float_bits_equal(x.bits, y.bits),
        (Expr::Bool(x), Expr::Bool(y)) => *x == *y,
        (Expr::String(x), Expr::String(y)) => *x == *y,
        (Expr::Ident(x), Expr::Ident(y)) => *x == *y,
        _ => false,
    }
}

/// Applies the algebraic identities to an operator whose optimized operands do not
/// fold; without one that applies, the operator stays.
fn simplify_binary(l: Expr, op: BinOp, r: Expr) -> (x: Expr)
    requires
        !folds(raw_shape(l), op, raw_shape(r)),
    ensures
        simp_result(l, op, r, x),
        raw_shape(x) == simp_shape(raw_shape(l), op, raw_shape(r)),
{
    if op == BinOp::Add && is_zero(&r) {
        return l;
    }
    if op == BinOp::Add && is_zero(&l) {
        return r;
    }
    if op == BinOp::Sub && is_zero(&r) {
        return l;
    }
    if op == BinOp::Mul && is_one(&r) {
        return l;
    }
    if op == BinOp::Mul && is_one(&l) {
        return r;
    }
    if op == BinOp::Mul && is_zero(&r) {
        return Expr::Integer(0);
    }
    if op == BinOp::Mul && is_zero(&l) {
        return Expr::Integer(0);
    }
    if op == BinOp::Div && is_one(&r) {
        return l;
    }
    if op == BinOp::Sub && exprs_equal(&l, &r) {
        if let Expr::Integer(_) = l {
            return Expr::Integer(0);
        }
        if let Expr::Float(_) = l {
            return Expr::Float(flag(false));
        }
    }
    if op == BinOp::Eq && exprs_equal(&l, &r) {
        return Expr::Bool(true);
    }
    if op == BinOp::Neq && exprs_equal(&l, &r) {
        return Expr::Bool(false);
    }
    if (op == BinOp::Lte || op == BinOp::Gte) && exprs_equal(&l, &r) {
        return Expr::Bool(true);
    }
    Expr::Binary(Box::new(l), op, Box::new(r))
}

/// Folds a unary operator on an optimized operand, or keeps the operator.
fn fold_unary<F: Fn(FloatQuery) -> FloatLit>(op: UnaryOp, v: Expr, fold: &F) -> (x: Expr)
    requires
        forall|q: FloatQuery| call_requires(*fold, (q,)),
        answers_once(answers(*fold)),
    ensures
        raw_shape(x) == unary_shape(op, raw_shape(v)),
        unary_shape(op, raw_shape(v)) == Shape::Other ==> x == Expr::Unary(op, Box::new(v)),
        x matches Expr::Float(f) ==> fview(f) == answer(answers(*fold), FloatQuery::Neg(v->Float_0.bits)),
{
    match op {
        UnaryOp::Neg => match v {
            Expr::Integer(n) => Expr::Integer(0i64.wrapping_sub(n)),
            Expr::Float(f) => Expr::Float(ask(fold, FloatQuery::Neg(f.bits))),
            other => Expr::Unary(op, Box::new(other)),
        },
        UnaryOp::Not => match v {
            Expr::Bool(b) => Expr::Bool(!b),
            Expr::Integer(n) => Expr::Integer(if n == 0 { 1 } else { 0 }),
            other => Expr::Unary(op, Box::new(other)),
        },
    }
}

// ---------------------------------------------------------------------------
// Optimizing a tree, executable
// ---------------------------------------------------------------------------

/// Optimizes an expression.
fn optimize_expr<F: Fn(FloatQuery) -> FloatLit>(e: Expr, fold: &F) -> (r: Expr)
    requires
        forall|q: FloatQuery| call_requires(*fold, (q,)),
        answers_once(answers(*fold)),
        !expr_traps(e),
    ensures
        opt_expr_rel(e, r, answers(*fold)),
        raw_shape(r) == shape(e),
        r matches Expr::Float(f) ==> fview(f) == float_of(e, answers(*fold)),
    decreases e,
{
    let ghost ok = answers(*fold);
    let ghost e0 = e;
    match e {
        Expr::Binary(left, op, right) => {
            let l = optimize_expr(*left, fold);
            let r = optimize_expr(*right, fold);
            let ghost gl = l;
            let ghost gr = r;
            let x = match try_fold_binary(&l, op, &r, fold) {
                Some(x) => {
                    proof {
                        if x is Float {
                            assert(operand(shape(*left), *left, ok) == operand_of(gl));
                            assert(operand(shape(*right), *right, ok) == operand_of(gr));
                            assert(fview(x->Float_0) == float_of(e0, ok));
                        }
                    }
                    x
                },
                None => simplify_binary(l, op, r),
            };
            assert(opt_expr_rel(e0, x, ok));
            x
        },
        Expr::Unary(op, inner) => {
            let v = optimize_expr(*inner, fold);
            let ghost gv = v;
            let x = fold_unary(op, v, fold);
            assert(opt_expr_rel(e0, x, ok));
            x
        },
        Expr::Call(name, args) => Expr::Call(name, optimize_exprs(args, fold)),
        Expr::TailCall(name, args) => Expr::TailCall(name, optimize_exprs(args, fold)),
        Expr::FieldAccess(obj, field) => Expr::FieldAccess(Box::new(optimize_expr(*obj, fold)), field),
        Expr::If(cond, then_branch, else_branch) => {
            let c = optimize_expr(*cond, fold);
            match c {
                Expr::Bool(true) => {
                    assert(opt_expr_rel(e0, *then_branch, ok));
                    *then_branch
                },
                Expr::Bool(false) => match else_branch {
                    Some(x) => {
                        assert(opt_expr_rel(e0, *x, ok));
                        *x
                    },
                    None => {
                        assert(opt_expr_rel(e0, Expr::Bool(false), ok));
                        Expr::Bool(false)
                    },
                },
                c => {
                    let t = optimize_expr(*then_branch, fold);
                    let el = match else_branch {
                        Some(x) => Some(Box::new(optimize_expr(*x, fold))),
                        None => None,
                    };
                    let res = Expr::If(Box::new(c), Box::new(t), el);
                    assert(opt_expr_rel(e0, res, ok));
                    res
                },
            }
        },
        Expr::StructLiteral { struct_name, fields } => {
            let res = Expr::StructLiteral { struct_name, fields: optimize_fields(fields, fold) };
            assert(opt_expr_rel(e0, res, ok));
            res
        },
        Expr::Match { value, arms } => {
            let v = optimize_expr(*value, fold);
            let a = optimize_arms(arms, fold);
            let res = Expr::Match { value: Box::new(v), arms: a };
            assert(opt_expr_rel(e0, res, ok));
            res
        },
        Expr::Lambda { params, return_type, body } => {
            let res = Expr::Lambda { params, return_type, body: optimize_block(body, fold) };
            assert(opt_expr_rel(e0, res, ok));
            res
        },
        other => {
            assert(opt_expr_rel(e0, other, ok));
            other
        },
    }
}

/// Optimizes each expression of a list.
fn optimize_exprs<F: Fn(FloatQuery) -> FloatLit>(v: Vec<Expr>, fold: &F) -> (w: Vec<Expr>)
    requires
        forall|q: FloatQuery| call_requires(*fold, (q,)),
        answers_once(answers(*fold)),
        !exprs_trap(v@),
    ensures
        opt_exprs_rel(v@, w@, answers(*fold)),
    decreases v,
{
    let ghost vv = v;
    let ghost orig = v@;
    let mut rest = reversed(v);
    assert(orig.skip(0) =~= orig);
    let mut out: Vec<Expr> = Vec::new();
    while rest.len() > 0
        invariant
            forall|q: FloatQuery| call_requires(*fold, (q,)),
            answers_once(answers(*fold)),
            vv == v,
            orig == vv@,
            rest@ == orig.skip(out@.len() as int).reverse(),
            out@.len() <= orig.len(),
            !exprs_trap(orig.skip(out@.len() as int)),
            opt_exprs_rel(orig.take(out@.len() as int), out@, answers(*fold)),
        decreases rest@.len(),
    {
        let ghost k = out@.len() as int;
        let ghost out0 = out@;
        let x = rest.pop().unwrap();
        assert(x == orig[k]);
        assert(decreases_to!(vv => vv[k]));
        assert(orig.skip(k).subrange(1, orig.skip(k).len() as int) =~= orig.skip(k + 1));
        let y = optimize_expr(x, fold);
        out.push(y);
        assert(orig.take(k + 1).subrange(0, k) =~= orig.take(k));
        assert(out@.drop_last() =~= out0);
        assert(rest@ =~= orig.skip(k + 1).reverse());
    }
    assert(orig.take(orig.len() as int) =~= orig);
    out
}

/// Optimizes the values of a struct literal's fields.
fn optimize_fields<F: Fn(FloatQuery) -> FloatLit>(v: Vec<(String, Expr)>, fold: &F) -> (w: Vec<(String, Expr)>)
    requires
        forall|q: FloatQuery| call_requires(*fold, (q,)),
        answers_once(answers(*fold)),
        !fields_trap(v@),
    ensures
        opt_fields_rel(v@, w@, answers(*fold)),
    decreases v,
{
    let ghost vv = v;
    let ghost orig = v@;
    let mut rest = reversed(v);
    assert(orig.skip(0) =~= orig);
    let mut out: Vec<(String, Expr)> = Vec::new();
    while rest.len() > 0
        invariant
            forall|q: FloatQuery| call_requires(*fold, (q,)),
            answers_once(answers(*fold)),
            vv == v,
            orig == vv@,
            rest@ == orig.skip(out@.len() as int).reverse(),
            out@.len() <= orig.len(),
            !fields_trap(orig.skip(out@.len() as int)),
            opt_fields_rel(orig.take(out@.len() as int), out@, answers(*fold)),
        decreases rest@.len(),
    {
        let ghost k = out@.len() as int;
        let ghost out0 = out@;
        let (n, x) = rest.pop().unwrap();
        assert(x == orig[k].1);
        assert(decreases_to!(vv => vv[k]));
        assert(decreases_to!(vv[k] => vv[k].1));
        assert(orig.skip(k).subrange(1, orig.skip(k).len() as int) =~= orig.skip(k + 1));
        let y = optimize_expr(x, fold);
        out.push((n, y));
        assert(orig.take(k + 1).subrange(0, k) =~= orig.take(k));
        assert(out@.drop_last() =~= out0);
        assert(rest@ =~= orig.skip(k + 1).reverse());
    }
    assert(orig.take(orig.len() as int) =~= orig);
    out
}

/// Optimizes the guard and body of a match arm.
fn optimize_arm<F: Fn(FloatQuery) -> FloatLit>(a: MatchArm, fold: &F) -> (b: MatchArm)
    requires
        forall|q: FloatQuery| call_requires(*fold, (q,)),
        answers_once(answers(*fold)),
        !arm_traps(a),
    ensures
        opt_arm_rel(a, b, answers(*fold)),
    decreases a,
{
    let MatchArm { pattern, guard, body, bind } = a;
    let guard = match guard {
        Some(g) => Some(optimize_expr(g, fold)),
        None => None,
    };
    let body = optimize_block(body, fold);
    MatchArm { pattern, guard, body, bind }
}

/// Optimizes the arms of a match.
fn optimize_arms<F: Fn(FloatQuery) -> FloatLit>(v: Vec<MatchArm>, fold: &F) -> (w: Vec<MatchArm>)
    requires
        forall|q: FloatQuery| call_requires(*fold, (q,)),
        answers_once(answers(*fold)),
        !arms_trap(v@),
    ensures
        opt_arms_rel(v@, w@, answers(*fold)),
    decreases v,
{
    let ghost vv = v;
    let ghost orig = v@;
    let mut rest = reversed(v);
    assert(orig.skip(0) =~= orig);
    let mut out: Vec<MatchArm> = Vec::new();
    while rest.len() > 0
        invariant
            forall|q: FloatQuery| call_requires(*fold, (q,)),
            answers_once(answers(*fold)),
            vv == v,
            orig == vv@,
            rest@ == orig.skip(out@.len() as int).reverse(),
            out@.len() <= orig.len(),
            !arms_trap(orig.skip(out@.len() as int)),
            opt_arms_rel(orig.take(out@.len() as int), out@, answers(*fold)),
        decreases rest@.len(),
    {
        let ghost k = out@.len() as int;
        let ghost out0 = out@;
        let x = rest.pop().unwrap();
        assert(x == orig[k]);
        assert(decreases_to!(vv => vv[k]));
        assert(orig.skip(k).subrange(1, orig.skip(k).len() as int) =~= orig.skip(k + 1));
        let y = optimize_arm(x, fold);
        out.push(y);
        assert(orig.take(k + 1).subrange(0, k) =~= orig.take(k));
        assert(out@.drop_last() =~= out0);
        assert(rest@ =~= orig.skip(k + 1).reverse());
    }
    assert(orig.take(orig.len() as int) =~= orig);
    out
}

/// Optimizes each statement of a block.
fn optimize_block<F: Fn(FloatQuery) -> FloatLit>(v: Vec<Stmt>, fold: &F) -> (w: Vec<Stmt>)
    requires
        forall|q: FloatQuery| call_requires(*fold, (q,)),
        answers_once(answers(*fold)),
        !stmts_trap(v@),
    ensures
        opt_stmts_rel(v@, w@, answers(*fold)),
    decreases v,
{
    let ghost vv = v;
    let ghost orig = v@;
    let mut rest = reversed(v);
    assert(orig.skip(0) =~= orig);
    let mut out: Vec<Stmt> = Vec::new();
    while rest.len() > 0
        invariant
            forall|q: FloatQuery| call_requires(*fold, (q,)),
            answers_once(answers(*fold)),
            vv == v,
            orig == vv@,
            rest@ == orig.skip(out@.len() as int).reverse(),
            out@.len() <= orig.len(),
            !stmts_trap(orig.skip(out@.len() as int)),
            opt_stmts_rel(orig.take(out@.len() as int), out@, answers(*fold)),
        decreases rest@.len(),
    {
        let ghost k = out@.len() as int;
        let ghost out0 = out@;
        let x = rest.pop().unwrap();
        assert(x == orig[k]);
        assert(decreases_to!(vv => vv[k]));
        assert(orig.skip(k).subrange(1, orig.skip(k).len() as int) =~= orig.skip(k + 1));
        let y = optimize_stmt(x, fold);
        out.push(y);
        assert(orig.take(k + 1).subrange(0, k) =~= orig.take(k));
        assert(out@.drop_last() =~= out0);
        assert(rest@ =~= orig.skip(k + 1).reverse());
    }
    assert(orig.take(orig.len() as int) =~= orig);
    out
}

/// Optimizes a statement.
fn optimize_stmt<F: Fn(FloatQuery) -> FloatLit>(s: Stmt, fold: &F) -> (r: Stmt)
    requires
        forall|q: FloatQuery| call_requires(*fold, (q,)),
        answers_once(answers(*fold)),
        !stmt_traps(s),
    ensures
        opt_stmt_rel(s, r, answers(*fold)),
    decreases s,
{
    match s {
        Stmt::Let { name, type_ann, mutable, value } => Stmt::Let {
            name,
            type_ann,
            mutable,
            value: optimize_expr(value, fold),
        },
        Stmt::Assign { name, value } => Stmt::Assign { name, value: optimize_expr(value, fold) },
        Stmt::FieldAssign { obj, field, value } => Stmt::FieldAssign {
            obj,
            field,
            value: optimize_expr(value, fold),
        },
        Stmt::Expr(e) => Stmt::Expr(optimize_expr(e, fold)),
        Stmt::Return(Some(e)) => Stmt::Return(Some(optimize_expr(e, fold))),
        Stmt::Print(e) => Stmt::Print(optimize_expr(e, fold)),
        Stmt::PrintLn(e) => Stmt::PrintLn(optimize_expr(e, fold)),
        Stmt::Exit(e) => Stmt::Exit(optimize_expr(e, fold)),
        Stmt::While(cond, body) => match cond {
            Expr::Bool(false) => Stmt::Block(Vec::new()),
            cond => {
                let c = optimize_expr(cond, fold);
                let b = optimize_block(body, fold);
                Stmt::While(c, b)
            },
        },
        Stmt::For { var, iterable, body } => {
            let it = optimize_expr(iterable, fold);
            let b = optimize_block(body, fold);
            Stmt::For { var, iterable: it, body: b }
        },
        Stmt::If { cond, then_block, else_block } => match cond {
            Expr::Bool(true) => Stmt::Block(optimize_block(then_block, fold)),
            Expr::Bool(false) => match else_block {
                Some(b) => Stmt::Block(optimize_block(b, fold)),
                None => Stmt::Block(Vec::new()),
            },
            cond => {
                let c = optimize_expr(cond, fold);
                let t = optimize_block(then_block, fold);
                let el = match else_block {
                    Some(b) => Some(optimize_block(b, fold)),
                    None => None,
                };
                Stmt::If { cond: c, then_block: t, else_block: el }
            },
        },
        Stmt::Block(v) => Stmt::Block(optimize_block(v, fold)),
        Stmt::FnDef { name, params, return_type, body } => Stmt::FnDef {
            name,
            params,
            return_type,
            body: optimize_block(body, fold),
        },
        Stmt::ImplBlock { impl_type, methods } => Stmt::ImplBlock {
            impl_type,
            methods: optimize_block(methods, fold),
        },
        other => other,
    }
}

// ---------------------------------------------------------------------------
// `math` calls on constants
// ---------------------------------------------------------------------------

/// The `math` function a name (after `math::` or `math.`) calls: `exp`, `tanh`, `sin`,
/// `cos`, `sqrt`, `log` or `ln`, `log2`, `log10`, `abs`, `floor`, `ceil`, `round`.
pub open spec fn math_fn_named(f: Seq<char>) -> Option<MathFn> {
    if f == "exp"@ {
        Some(MathFn::Exp)
    } else if f == "tanh"@ {
        Some(MathFn::Tanh)
    } else if f == "sin"@ {
        Some(MathFn::Sin)
    } else if f == "cos"@ {
        Some(MathFn::Cos)
    } else if f == "sqrt"@ {
        Some(MathFn::Sqrt)
    } else if f == "log"@ || f == "ln"@ {
        Some(MathFn::Ln)
    } else if f == "log2"@ {
        Some(MathFn::Log2)
    } else if f == "log10"@ {
        Some(MathFn::Log10)
    } else if f == "abs"@ {
        Some(MathFn::Abs)
    } else if f == "floor"@ {
        Some(MathFn::Floor)
    } else if f == "ceil"@ {
        Some(MathFn::Ceil)
    } else if f == "round"@ {
        Some(MathFn::Round)
    } else {
        None
    }
}

/// Whether `s` starts with `p`.
pub open spec fn starts_with(s: Seq<char>, p: Seq<char>) -> bool {
    s.len() >= p.len() && s.take(p.len() as int) == p
}

/// The `math` function a called name stands for.
pub open spec fn math_fn_of(name: Seq<char>) -> Option<MathFn> {
    if starts_with(name, "math::"@) {
        math_fn_named(name.skip("math::"@.len() as int))
    } else if starts_with(name, "math."@) {
        math_fn_named(name.skip("math."@.len() as int))
    } else {
        None
    }
}

/// The bits and text of pi.
pub open spec fn pi_view() -> (u64, Seq<char>) {
    (0x4009_21FB_5444_2D18, "3.141592653589793"@)
}

/// The bits and text of Euler's number.
pub open spec fn e_view() -> (u64, Seq<char>) {
    (0x4005_BF0A_8B14_5769, "2.718281828459045"@)
}

/// Whether an expression is a literal.
pub open spec fn is_const(e: Expr) -> bool {
    e is Integer || e is Float || e is Bool || e is String || e is Char || e is Null
}

/// A float unless it is a NaN or an infinity.
pub open spec fn finite(v: (u64, Seq<char>)) -> Option<(u64, Seq<char>)> {
    if is_nan_bits(v.0) || is_inf_bits(v.0) {
        None
    } else {
        Some(v)
    }
}

/// The value of a `math` function called on a numeric literal, unless the name is no
/// such function or the value is not finite.
pub open spec fn math_value(name: Seq<char>, arg: Expr, ok: spec_fn(FloatQuery, FloatLit) -> bool) -> Option<
    (u64, Seq<char>),
> {
    match arg {
        Expr::Integer(n) => match math_fn_of(name) {
            Some(m) => finite(answer(ok, FloatQuery::Math(m, FloatOperand::Int(n)))),
            None => None,
        },
        Expr::Float(f) => match math_fn_of(name) {
            Some(m) => finite(answer(ok, FloatQuery::Math(m, FloatOperand::Float(f.bits)))),
            None => None,
        },
        _ => None,
    }
}

/// `r` is expression `e` with its `math` calls evaluated where they can be: `math.pi`
/// and `math.e` (also with `::`) become their values whatever their arguments; a call
/// of a `math` function on one numeric literal becomes its value when that is finite;
/// other calls keep their name with their arguments treated in turn; every other
/// compound expression has its parts treated; atoms stay.
pub open spec fn inl_expr_rel(e: Expr, r: Expr, ok: spec_fn(FloatQuery, FloatLit) -> bool) -> bool
    decreases e,
{
    match e {
        Expr::Call(name, args) => if name@ == "math::pi"@ || name@ == "math.pi"@ {
            r matches Expr::Float(f) && fview(f) == pi_view()
        } else if name@ == "math::e"@ || name@ == "math.e"@ {
            r matches Expr::Float(f) && fview(f) == e_view()
        } else if args.len() == 1 && is_const(args[0]) && math_value(name@, args[0], ok) is Some {
            r matches Expr::Float(f) && fview(f) == math_value(name@, args[0], ok)->0
        } else {
            r matches Expr::Call(n2, a2) && n2 == name && inl_exprs_rel(args@, a2@, ok)
        },
        Expr::Binary(l, op, rr) => r matches Expr::Binary(x, o, y) && o == op && inl_expr_rel(
            *l,
            *x,
            ok,
        ) && inl_expr_rel(*rr, *y, ok),
        Expr::Unary(op, v) => r matches Expr::Unary(o, x) && o == op && inl_expr_rel(*v, *x, ok),
        Expr::If(c, t, el) => r matches Expr::If(c2, t2, e2) && inl_expr_rel(*c, *c2, ok)
            && inl_expr_rel(*t, *t2, ok) && match (el, e2) {
            (Some(a), Some(b)) => inl_expr_rel(*a, *b, ok),
            (None, None) => true,
            _ => false,
        },
        Expr::FieldAccess(o, f) => r matches Expr::FieldAccess(o2, f2) && f2 == f && inl_expr_rel(
            *o,
            *o2,
            ok,
        ),
        Expr::StructLiteral { struct_name, fields } => r matches Expr::StructLiteral {
            struct_name: n2,
            fields: f2,
        } && n2 == struct_name && inl_fields_rel(fields@, f2@, ok),
        Expr::Match { value, arms } => r matches Expr::Match { value: v2, arms: a2 } && inl_expr_rel(
            *value,
            *v2,
            ok,
        ) && inl_arms_rel(arms@, a2@, ok),
        Expr::Lambda { params, return_type, body } => r matches Expr::Lambda {
            params: p2,
            return_type: t2,
            body: b2,
        } && p2 == params && t2 == return_type && inl_stmts_rel(body@, b2@, ok),
        Expr::TailCall(name, args) => r matches Expr::TailCall(n2, a2) && n2 == name
            && inl_exprs_rel(args@, a2@, ok),
        _ => r == e,
    }
}

/// `w` is the list `v` with each expression's `math` calls evaluated.
pub open spec fn inl_exprs_rel(v: Seq<Expr>, w: Seq<Expr>, ok: spec_fn(FloatQuery, FloatLit) -> bool) -> bool
    decreases v,
{
    w.len() == v.len() && (v.len() > 0 ==> inl_exprs_rel(v.subrange(0, v.len() - 1), w.drop_last(), ok)
        && inl_expr_rel(v[v.len() - 1], w.last(), ok))
}

/// `w` is the struct fields `v` with each value's `math` calls evaluated.
pub open spec fn inl_fields_rel(
    v: Seq<(String, Expr)>,
    w: Seq<(String, Expr)>,
    ok: spec_fn(FloatQuery, FloatLit) -> bool,
) -> bool
    decreases v,
{
    w.len() == v.len() && (v.len() > 0 ==> inl_fields_rel(v.subrange(0, v.len() - 1), w.drop_last(), ok)
        && w.last().0 == v[v.len() - 1].0 && inl_expr_rel(v[v.len() - 1].1, w.last().1, ok))
}

/// `w` is the match arms `v`, each with the `math` calls of its guard and body evaluated.
pub open spec fn inl_arms_rel(v: Seq<MatchArm>, w: Seq<MatchArm>, ok: spec_fn(FloatQuery, FloatLit) -> bool) -> bool
    decreases v,
{
    w.len() == v.len() && (v.len() > 0 ==> inl_arms_rel(v.subrange(0, v.len() - 1), w.drop_last(), ok)
        && inl_arm_rel(v[v.len() - 1], w.last(), ok))
}

/// `b` is match arm `a` with the `math` calls of its guard and body evaluated.
pub open spec fn inl_arm_rel(a: MatchArm, b: MatchArm, ok: spec_fn(FloatQuery, FloatLit) -> bool) -> bool
    decreases a,
{
    &&& b.pattern == a.pattern
    &&& b.bind == a.bind
    &&& match (a.guard, b.guard) {
        (Some(g), Some(g2)) => inl_expr_rel(g, g2, ok),
        (None, None) => true,
        _ => false,
    }
    &&& inl_stmts_rel(a.body@, b.body@, ok)
}

/// `w` is the block `v` with the `math` calls of each statement evaluated.
pub open spec fn inl_stmts_rel(v: Seq<Stmt>, w: Seq<Stmt>, ok: spec_fn(FloatQuery, FloatLit) -> bool) -> bool
    decreases v,
{
    w.len() == v.len() && (v.len() > 0 ==> inl_stmts_rel(v.subrange(0, v.len() - 1), w.drop_last(), ok)
        && inl_stmt_rel(v[v.len() - 1], w.last(), ok))
}

/// `r` is statement `s` with the `math` calls of its expressions and nested statements
/// evaluated.
pub open spec fn inl_stmt_rel(s: Stmt, r: Stmt, ok: spec_fn(FloatQuery, FloatLit) -> bool) -> bool
    decreases s,
{
    match s {
        Stmt::Let { name, type_ann, mutable, value } => r matches Stmt::Let {
            name: n2,
            type_ann: t2,
            mutable: m2,
            value: v2,
        } && n2 == name && t2 == type_ann && m2 == mutable && inl_expr_rel(value, v2, ok),
        Stmt::Assign { name, value } => r matches Stmt::Assign { name: n2, value: v2 } && n2 == name
            && inl_expr_rel(value, v2, ok),
        Stmt::FieldAssign { obj, field, value } => r matches Stmt::FieldAssign {
            obj: o2,
            field: f2,
            value: v2,
        } && o2 == obj && f2 == field && inl_expr_rel(value, v2, ok),
        Stmt::Expr(e) => r matches Stmt::Expr(e2) && inl_expr_rel(e, e2, ok),
        Stmt::Return(Some(e)) => r matches Stmt::Return(Some(e2)) && inl_expr_rel(e, e2, ok),
        Stmt::Print(e) => r matches Stmt::Print(e2) && inl_expr_rel(e, e2, ok),
        Stmt::PrintLn(e) => r matches Stmt::PrintLn(e2) && inl_expr_rel(e, e2, ok),
        Stmt::Exit(e) => r matches Stmt::Exit(e2) && inl_expr_rel(e, e2, ok),
        Stmt::While(c, body) => r matches Stmt::While(c2, b2) && inl_expr_rel(c, c2, ok)
            && inl_stmts_rel(body@, b2@, ok),
        Stmt::For { var, iterable, body } => r matches Stmt::For {
            var: v2,
            iterable: i2,
            body: b2,
        } && v2 == var && inl_expr_rel(iterable, i2, ok) && inl_stmts_rel(body@, b2@, ok),
        Stmt::If { cond, then_block, else_block } => r matches Stmt::If {
            cond: c2,
            then_block: t2,
            else_block: e2,
        } && inl_expr_rel(cond, c2, ok) && inl_stmts_rel(then_block@, t2@, ok) && match (
            else_block,
            e2,
        ) {
            (Some(a), Some(b)) => inl_stmts_rel(a@, b@, ok),
            (None, None) => true,
            _ => false,
        },
        Stmt::Block(v) => r matches Stmt::Block(w) && inl_stmts_rel(v@, w@, ok),
        Stmt::FnDef { name, params, return_type, body } => r matches Stmt::FnDef {
            name: n2,
            params: p2,
            return_type: t2,
            body: b2,
        } && n2 == name && p2 == params && t2 == return_type && inl_stmts_rel(body@, b2@, ok),
        Stmt::ImplBlock { impl_type, methods } => r matches Stmt::ImplBlock {
            impl_type: i2,
            methods: m2,
        } && i2 == impl_type && inl_stmts_rel(methods@, m2@, ok),
        _ => r == s,
    }
}

/// Whether `name` is `lit`.
fn is_name(name: &String, lit: &str) -> (b: bool)
    ensures
        b == (name@ == lit@),
{
    *name == String::from_str(lit)
}

/// Whether the characters from `start` on are `lit`.
fn rest_is(cs: &Vec<char>, start: usize, lit: &str) -> (b: bool)
    requires
        start <= cs@.len(),
    ensures
        b == (cs@.skip(start as int) == lit@),
{
    let l = crate::text::chars_of(lit);
    if cs.len() - start != l.len() {
        assert(cs@.skip(start as int).len() != lit@.len());
        return false;
    }
    let n = cs.len();
    let mut i: usize = 0;
    while i < l.len()
        invariant
            i <= l@.len(),
            l@ == lit@,
            n == cs@.len(),
            start <= cs@.len(),
            start + l@.len() == cs@.len(),
            forall|j: int| 0 <= j < i ==> cs@[start + j] == l@[j],
        decreases l@.len() - i,
    {
        if cs[start + i] != l[i] {
            assert(cs@.skip(start as int)[i as int] != lit@[i as int]);
            return false;
        }
        i = i + 1;
    }
    assert(cs@.skip(start as int) =~= lit@);
    true
}

/// Whether `cs` starts with `lit`.
fn begins_with(cs: &Vec<char>, lit: &str) -> (b: bool)
    ensures
        b == starts_with(cs@, lit@),
{
    let l = crate::text::chars_of(lit);
    if cs.len() < l.len() {
        return false;
    }
    let mut i: usize = 0;
    while i < l.len()
        invariant
            i <= l@.len(),
            l@ == lit@,
            l@.len() <= cs@.len(),
            forall|j: int| 0 <= j < i ==> cs@[j] == l@[j],
        decreases l@.len() - i,
    {
        if cs[i] != l[i] {
            assert(cs@.take(l@.len() as int)[i as int] != lit@[i as int]);
            return false;
        }
        i = i + 1;
    }
    assert(cs@.take(l@.len() as int) =~= lit@);
    true
}

/// The `math` function named by the characters from `start` on.
fn math_fn_at(cs: &Vec<char>, start: usize) -> (m: Option<MathFn>)
    requires
        start <= cs@.len(),
    ensures
        m == math_fn_named(cs@.skip(start as int)),
{
    if rest_is(cs, start, "exp") {
        Some(MathFn::Exp)
    } else if rest_is(cs, start, "tanh") {
        Some(MathFn::Tanh)
    } else if rest_is(cs, start, "sin") {
        Some(MathFn::Sin)
    } else if rest_is(cs, start, "cos") {
        Some(MathFn::Cos)
    } else if rest_is(cs, start, "sqrt") {
        Some(MathFn::Sqrt)
    } else if rest_is(cs, start, "log") || rest_is(cs, start, "ln") {
        Some(MathFn::Ln)
    } else if rest_is(cs, start, "log2") {
        Some(MathFn::Log2)
    } else if rest_is(cs, start, "log10") {
        Some(MathFn::Log10)
    } else if rest_is(cs, start, "abs") {
        Some(MathFn::Abs)
    } else if rest_is(cs, start, "floor") {
        Some(MathFn::Floor)
    } else if rest_is(cs, start, "ceil") {
        Some(MathFn::Ceil)
    } else if rest_is(cs, start, "round") {
        Some(MathFn::Round)
    } else {
        None
    }
}

/// The `math` function a called name stands for.
fn math_fn(name: &String) -> (m: Option<MathFn>)
    ensures
        m == math_fn_of(name@),
{
    let cs = crate::text::chars_of(name.as_str());
    if begins_with(&cs, "math::") {
        let p = crate::text::chars_of("math::");
        math_fn_at(&cs, p.len())
    } else if begins_with(&cs, "math.") {
        let p = crate::text::chars_of("math.");
        math_fn_at(&cs, p.len())
    } else {
        None
    }
}

/// A float literal with the given bits and text.
fn float_lit(bits: u64, text: &str) -> (f: FloatLit)
    ensures
        fview(f) == (bits, text@),
{
    FloatLit { bits, text: String::from_str(text) }
}

/// Whether a float's bits are a NaN or an infinity.
fn not_finite(x: u64) -> (b: bool)
    ensures
        b == (is_nan_bits(x) || is_inf_bits(x)),
{
    (x / 0x10_0000_0000_0000) % 0x800 == 0x7ff
}

/// Evaluates a `math` function on a numeric literal when the name is one and the value
/// is finite.
fn try_fold_math_const<F: Fn(FloatQuery) -> FloatLit>(name: &String, arg: &Expr, fold: &F) -> (r: Option<FloatLit>)
    requires
        forall|q: FloatQuery| call_requires(*fold, (q,)),
        answers_once(answers(*fold)),
    ensures
        r is Some == math_value(name@, *arg, answers(*fold)) is Some,
        r matches Some(f) ==> fview(f) == math_value(name@, *arg, answers(*fold))->0,
{
    let val = match arg {
        Expr::Integer(n) => FloatOperand::Int(*n),
        Expr::Float(f) => FloatOperand::Float(f.bits),
        _ => {
            return None;
        },
    };
    let m = match math_fn(name) {
        Some(m) => m,
        None => {
            return None;
        },
    };
    let result = ask(fold, FloatQuery::Math(m, val));
    if not_finite(result.bits) {
        return None;
    }
    Some(result)
}

/// Whether an expression is a literal.
fn is_const_expr(e: &Expr) -> (b: bool)
    ensures
        b == is_const(*e),
{
    match e {
        Expr::Integer(_) | Expr::Float(_) | Expr::Bool(_) | Expr::String(_) | Expr::Char(_)
        | Expr::Null => true,
        _ => false,
    }
}

/// Evaluates the `math` calls of an expression where it can.
fn inline_math_calls_expr<F: Fn(FloatQuery) -> FloatLit>(e: Expr, fold: &F) -> (r: Expr)
    requires
        forall|q: FloatQuery| call_requires(*fold, (q,)),
        answers_once(answers(*fold)),
    ensures
        inl_expr_rel(e, r, answers(*fold)),
    decreases e,
{
    let ghost e0 = e;
    match e {
        Expr::Call(name, args) => {
            if is_name(&name, "math::pi") || is_name(&name, "math.pi") {
                return Expr::Float(float_lit(0x4009_21FB_5444_2D18, "3.141592653589793"));
            }
            if is_name(&name, "math::e") || is_name(&name, "math.e") {
                return Expr::Float(float_lit(0x4005_BF0A_8B14_5769, "2.718281828459045"));
            }
            if args.len() == 1 && is_const_expr(&args[0]) {
                match try_fold_math_const(&name, &args[0], fold) {
                    Some(f) => {
                        return Expr::Float(f);
                    },
                    None => {},
                }
            }
            let res = Expr::Call(name, inline_math_calls_exprs(args, fold));
            assert(inl_expr_rel(e0, res, answers(*fold)));
            res
        },
        Expr::Binary(left, op, right) => {
            let l = inline_math_calls_expr(*left, fold);
            let r = inline_math_calls_expr(*right, fold);
            Expr::Binary(Box::new(l), op, Box::new(r))
        },
        Expr::Unary(op, v) => Expr::Unary(op, Box::new(inline_math_calls_expr(*v, fold))),
        Expr::If(c, t, el) => {
            let c2 = inline_math_calls_expr(*c, fold);
            let t2 = inline_math_calls_expr(*t, fold);
            let e2 = match el {
                Some(x) => Some(Box::new(inline_math_calls_expr(*x, fold))),
                None => None,
            };
            Expr::If(Box::new(c2), Box::new(t2), e2)
        },
        Expr::FieldAccess(obj, field) => Expr::FieldAccess(
            Box::new(inline_math_calls_expr(*obj, fold)),
            field,
        ),
        Expr::StructLiteral { struct_name, fields } => Expr::StructLiteral {
            struct_name,
            fields: inline_math_calls_fields(fields, fold),
        },
        Expr::Match { value, arms } => {
            let v = inline_math_calls_expr(*value, fold);
            let a = inline_math_calls_arms(arms, fold);
            Expr::Match { value: Box::new(v), arms: a }
        },
        Expr::Lambda { params, return_type, body } => Expr::Lambda {
            params,
            return_type,
            body: inline_math_calls_block(body, fold),
        },
        Expr::TailCall(name, args) => Expr::TailCall(name, inline_math_calls_exprs(args, fold)),
        other => other,
    }
}

/// Evaluates the `math` calls of each expression of a list.
fn inline_math_calls_exprs<F: Fn(FloatQuery) -> FloatLit>(v: Vec<Expr>, fold: &F) -> (w: Vec<Expr>)
    requires
        forall|q: FloatQuery| call_requires(*fold, (q,)),
        answers_once(answers(*fold)),
    ensures
        inl_exprs_rel(v@, w@, answers(*fold)),
    decreases v,
{
    let ghost vv = v;
    let ghost orig = v@;
    let mut rest = reversed(v);
    let mut out: Vec<Expr> = Vec::new();
    while rest.len() > 0
        invariant
            forall|q: FloatQuery| call_requires(*fold, (q,)),
            answers_once(answers(*fold)),
            vv == v,
            orig == vv@,
            rest@ == orig.skip(out@.len() as int).reverse(),
            out@.len() <= orig.len(),
            inl_exprs_rel(orig.take(out@.len() as int), out@, answers(*fold)),
        decreases rest@.len(),
    {
        let ghost k = out@.len() as int;
        let ghost out0 = out@;
        let x = rest.pop().unwrap();
        assert(x == orig[k]);
        assert(decreases_to!(vv => vv[k]));
        let y = inline_math_calls_expr(x, fold);
        out.push(y);
        assert(orig.take(k + 1).subrange(0, k) =~= orig.take(k));
        assert(out@.drop_last() =~= out0);
        assert(rest@ =~= orig.skip(k + 1).reverse());
    }
    assert(orig.take(orig.len() as int) =~= orig);
    out
}

/// Evaluates the `math` calls of the values of struct fields.
fn inline_math_calls_fields<F: Fn(FloatQuery) -> FloatLit>(v: Vec<(String, Expr)>, fold: &F) -> (w: Vec<
    (String, Expr),
>)
    requires
        forall|q: FloatQuery| call_requires(*fold, (q,)),
        answers_once(answers(*fold)),
    ensures
        inl_fields_rel(v@, w@, answers(*fold)),
    decreases v,
{
    let ghost vv = v;
    let ghost orig = v@;
    let mut rest = reversed(v);
    let mut out: Vec<(String, Expr)> = Vec::new();
    while rest.len() > 0
        invariant
            forall|q: FloatQuery| call_requires(*fold, (q,)),
            answers_once(answers(*fold)),
            vv == v,
            orig == vv@,
            rest@ == orig.skip(out@.len() as int).reverse(),
            out@.len() <= orig.len(),
            inl_fields_rel(orig.take(out@.len() as int), out@, answers(*fold)),
        decreases rest@.len(),
    {
        let ghost k = out@.len() as int;
        let ghost out0 = out@;
        let (n, x) = rest.pop().unwrap();
        assert(x == orig[k].1);
        assert(decreases_to!(vv => vv[k]));
        assert(decreases_to!(vv[k] => vv[k].1));
        let y = inline_math_calls_expr(x, fold);
        out.push((n, y));
        assert(orig.take(k + 1).subrange(0, k) =~= orig.take(k));
        assert(out@.drop_last() =~= out0);
        assert(rest@ =~= orig.skip(k + 1).reverse());
    }
    assert(orig.take(orig.len() as int) =~= orig);
    out
}

/// Evaluates the `math` calls of a match arm's guard and body.
fn inline_math_calls_arm<F: Fn(FloatQuery) -> FloatLit>(a: MatchArm, fold: &F) -> (b: MatchArm)
    requires
        forall|q: FloatQuery| call_requires(*fold, (q,)),
        answers_once(answers(*fold)),
    ensures
        inl_arm_rel(a, b, answers(*fold)),
    decreases a,
{
    let MatchArm { pattern, guard, body, bind } = a;
    let guard = match guard {
        Some(g) => Some(inline_math_calls_expr(g, fold)),
        None => None,
    };
    let body = inline_math_calls_block(body, fold);
    MatchArm { pattern, guard, body, bind }
}

/// Evaluates the `math` calls of match arms.
fn inline_math_calls_arms<F: Fn(FloatQuery) -> FloatLit>(v: Vec<MatchArm>, fold: &F) -> (w: Vec<MatchArm>)
    requires
        forall|q: FloatQuery| call_requires(*fold, (q,)),
        answers_once(answers(*fold)),
    ensures
        inl_arms_rel(v@, w@, answers(*fold)),
    decreases v,
{
    let ghost vv = v;
    let ghost orig = v@;
    let mut rest = reversed(v);
    let mut out: Vec<MatchArm> = Vec::new();
    while rest.len() > 0
        invariant
            forall|q: FloatQuery| call_requires(*fold, (q,)),
            answers_once(answers(*fold)),
            vv == v,
            orig == vv@,
            rest@ == orig.skip(out@.len() as int).reverse(),
            out@.len() <= orig.len(),
            inl_arms_rel(orig.take(out@.len() as int), out@, answers(*fold)),
        decreases rest@.len(),
    {
        let ghost k = out@.len() as int;
        let ghost out0 = out@;
        let x = rest.pop().unwrap();
        assert(x == orig[k]);
        assert(decreases_to!(vv => vv[k]));
        let y = inline_math_calls_arm(x, fold);
        out.push(y);
        assert(orig.take(k + 1).subrange(0, k) =~= orig.take(k));
        assert(out@.drop_last() =~= out0);
        assert(rest@ =~= orig.skip(k + 1).reverse());
    }
    assert(orig.take(orig.len() as int) =~= orig);
    out
}

/// Evaluates the `math` calls of each statement of a block.
fn inline_math_calls_block<F: Fn(FloatQuery) -> FloatLit>(v: Vec<Stmt>, fold: &F) -> (w: Vec<Stmt>)
    requires
        forall|q: FloatQuery| call_requires(*fold, (q,)),
        answers_once(answers(*fold)),
    ensures
        inl_stmts_rel(v@, w@, answers(*fold)),
    decreases v,
{
    let ghost vv = v;
    let ghost orig = v@;
    let mut rest = reversed(v);
    let mut out: Vec<Stmt> = Vec::new();
    while rest.len() > 0
        invariant
            forall|q: FloatQuery| call_requires(*fold, (q,)),
            answers_once(answers(*fold)),
            vv == v,
            orig == vv@,
            rest@ == orig.skip(out@.len() as int).reverse(),
            out@.len() <= orig.len(),
            inl_stmts_rel(orig.take(out@.len() as int), out@, answers(*fold)),
        decreases rest@.len(),
    {
        let ghost k = out@.len() as int;
        let ghost out0 = out@;
        let x = rest.pop().unwrap();
        assert(x == orig[k]);
        assert(decreases_to!(vv => vv[k]));
        let y = inline_math_calls_stmt(x, fold);
        out.push(y);
        assert(orig.take(k + 1).subrange(0, k) =~= orig.take(k));
        assert(out@.drop_last() =~= out0);
        assert(rest@ =~= orig.skip(k + 1).reverse());
    }
    assert(orig.take(orig.len() as int) =~= orig);
    out
}

/// Evaluates the `math` calls of a statement's expressions and nested statements.
fn inline_math_calls_stmt<F: Fn(FloatQuery) -> FloatLit>(s: Stmt, fold: &F) -> (r: Stmt)
    requires
        forall|q: FloatQuery| call_requires(*fold, (q,)),
        answers_once(answers(*fold)),
    ensures
        inl_stmt_rel(s, r, answers(*fold)),
    decreases s,
{
    match s {
        Stmt::Let { name, type_ann, mutable, value } => Stmt::Let {
            name,
            type_ann,
            mutable,
            value: inline_math_calls_expr(value, fold),
        },
        Stmt::Assign { name, value } => Stmt::Assign {
            name,
            value: inline_math_calls_expr(value, fold),
        },
        Stmt::FieldAssign { obj, field, value } => Stmt::FieldAssign {
            obj,
            field,
            value: inline_math_calls_expr(value, fold),
        },
        Stmt::Expr(e) => Stmt::Expr(inline_math_calls_expr(e, fold)),
        Stmt::Return(Some(e)) => Stmt::Return(Some(inline_math_calls_expr(e, fold))),
        Stmt::While(cond, body) => {
            let c = inline_math_calls_expr(cond, fold);
            let b = inline_math_calls_block(body, fold);
            Stmt::While(c, b)
        },
        Stmt::For { var, iterable, body } => {
            let it = inline_math_calls_expr(iterable, fold);
            let b = inline_math_calls_block(body, fold);
            Stmt::For { var, iterable: it, body: b }
        },
        Stmt::If { cond, then_block, else_block } => {
            let c = inline_math_calls_expr(cond, fold);
            let t = inline_math_calls_block(then_block, fold);
            let el = match else_block {
                Some(b) => Some(inline_math_calls_block(b, fold)),
                None => None,
            };
            Stmt::If { cond: c, then_block: t, else_block: el }
        },
        Stmt::Block(v) => Stmt::Block(inline_math_calls_block(v, fold)),
        Stmt::FnDef { name, params, return_type, body } => Stmt::FnDef {
            name,
            params,
            return_type,
            body: inline_math_calls_block(body, fold),
        },
        Stmt::ImplBlock { impl_type, methods } => Stmt::ImplBlock {
            impl_type,
            methods: inline_math_calls_block(methods, fold),
        },
        Stmt::Print(e) => Stmt::Print(inline_math_calls_expr(e, fold)),
        Stmt::PrintLn(e) => Stmt::PrintLn(inline_math_calls_expr(e, fold)),
        Stmt::Exit(e) => Stmt::Exit(inline_math_calls_expr(e, fold)),
        other => other,
    }
}

// ---------------------------------------------------------------------------
// Loops
// ---------------------------------------------------------------------------

/// Looks at the loops of a statement for shapes worth treating specially (loops over a
/// constant array, `while true`); every loop is already compiled well, so each stays
/// as it is.
fn simplify_loops_stmt(stmt: &Stmt)
    decreases stmt,
{
    match stmt {
        Stmt::For { iterable, body, .. } => {
            if let Expr::Call(name, args) = iterable {
                if is_name(name, "__array") {
                    let mut all_const = true;
                    let mut j: usize = 0;
                    while j < args.len()
                        invariant
                            j <= args.len(),
                        decreases args.len() - j,
                    {
                        all_const = all_const && is_const_expr(&args[j]);
                        j = j + 1;
                    }
                }
            }
            simplify_loops_block(body);
        },
        Stmt::While(_, body) => simplify_loops_block(body),
        Stmt::If { then_block, else_block, .. } => {
            simplify_loops_block(then_block);
            if let Some(b) = else_block {
                simplify_loops_block(b);
            }
        },
        Stmt::Block(v) => simplify_loops_block(v),
        Stmt::FnDef { body, .. } => simplify_loops_block(body),
        Stmt::ImplBlock { methods, .. } => simplify_loops_block(methods),
        _ => {},
    }
}

/// Looks at the loops of each statement of a block.
fn simplify_loops_block(v: &Vec<Stmt>)
    decreases v,
{
    let mut i: usize = 0;
    while i < v.len()
        invariant
            i <= v.len(),
        decreases v.len() - i,
    {
        assert(decreases_to!(*v => v[i as int]));
        simplify_loops_stmt(&v[i]);
        i = i + 1;
    }
}

// ---------------------------------------------------------------------------
// The whole program
// ---------------------------------------------------------------------------

/// The number of statements in a statement, counting itself and those nested in loops,
/// branches, blocks, functions and methods (not those inside expressions).
pub open spec fn stmt_count(s: Stmt) -> nat
    decreases s,
{
    1 + match s {
        Stmt::While(_, body) => stmts_count(body@),
        Stmt::For { body, .. } => stmts_count(body@),
        Stmt::If { then_block, else_block, .. } => stmts_count(then_block@) + match else_block {
            Some(b) => stmts_count(b@),
            None => 0,
        },
        Stmt::Block(v) => stmts_count(v@),
        Stmt::FnDef { body, .. } => stmts_count(body@),
        Stmt::ImplBlock { methods, .. } => stmts_count(methods@),
        _ => 0,
    }
}

/// The number of statements in a block, nested ones included.
pub open spec fn stmts_count(v: Seq<Stmt>) -> nat
    decreases v,
{
    if v.len() == 0 {
        0
    } else {
        stmts_count(v.subrange(0, v.len() - 1)) + stmt_count(v[v.len() - 1])
    }
}

/// A prefix of a block has no more statements than the block.
proof fn lemma_count_prefix(v: Seq<Stmt>, i: int)
    requires
        0 <= i <= v.len(),
    ensures
        stmts_count(v.take(i)) <= stmts_count(v),
    decreases v.len(),
{
    if i == v.len() {
        assert(v.take(i) =~= v);
    } else {
        let u = v.subrange(0, v.len() - 1);
        lemma_count_prefix(u, i);
        assert(u.take(i) =~= v.take(i));
    }
}

/// Optimizing a statement never adds statements.
proof fn lemma_opt_stmt_count(s: Stmt, r: Stmt, ok: spec_fn(FloatQuery, FloatLit) -> bool)
    requires
        opt_stmt_rel(s, r, ok),
    ensures
        stmt_count(r) <= stmt_count(s),
    decreases s,
{
    match s {
        Stmt::While(c, body) => {
            if c != Expr::Bool(false) {
                lemma_opt_stmts_count(body@, r->While_1@, ok);
            } else {
                assert(r->Block_0@ =~= Seq::<Stmt>::empty());
            }
        },
        Stmt::For { body, .. } => lemma_opt_stmts_count(body@, r->For_body@, ok),
        Stmt::If { cond, then_block, else_block } => {
            if cond == Expr::Bool(true) {
                lemma_opt_stmts_count(then_block@, r->Block_0@, ok);
            } else if cond == Expr::Bool(false) {
                match else_block {
                    Some(b) => lemma_opt_stmts_count(b@, r->Block_0@, ok),
                    None => {
                        assert(r->Block_0@ =~= Seq::<Stmt>::empty());
                    },
                }
            } else {
                lemma_opt_stmts_count(then_block@, r->If_then_block@, ok);
                match else_block {
                    Some(b) => lemma_opt_stmts_count(b@, r->If_else_block->0@, ok),
                    None => {},
                }
            }
        },
        Stmt::Block(v) => lemma_opt_stmts_count(v@, r->Block_0@, ok),
        Stmt::FnDef { body, .. } => lemma_opt_stmts_count(body@, r->FnDef_body@, ok),
        Stmt::ImplBlock { methods, .. } => lemma_opt_stmts_count(methods@, r->ImplBlock_methods@, ok),
        _ => {},
    }
}

/// Optimizing a block never adds statements, so the rounds of folding end with no
/// more statements than they began with.
pub proof fn lemma_opt_stmts_count(v: Seq<Stmt>, w: Seq<Stmt>, ok: spec_fn(FloatQuery, FloatLit) -> bool)
    requires
        opt_stmts_rel(v, w, ok),
    ensures
        stmts_count(w) <= stmts_count(v),
    decreases v,
{
    if v.len() > 0 {
        lemma_opt_stmts_count(v.subrange(0, v.len() - 1), w.drop_last(), ok);
        lemma_opt_stmt_count(v[v.len() - 1], w.last(), ok);
    }
}

/// Counts the statements of a statement, nested ones included.
fn count_stmt(s: &Stmt) -> (n: usize)
    requires
        stmt_count(*s) <= usize::MAX,
    ensures
        n == stmt_count(*s),
    decreases s,
{
    match s {
        Stmt::While(_, body) | Stmt::For { body, .. } => 1 + count_stmts(body),
        Stmt::If { then_block, else_block, .. } => {
            let t = count_stmts(then_block);
            match else_block {
                Some(b) => 1 + t + count_stmts(b),
                None => 1 + t,
            }
        },
        Stmt::Block(v) => 1 + count_stmts(v),
        Stmt::FnDef { body, .. } => 1 + count_stmts(body),
        Stmt::ImplBlock { methods, .. } => 1 + count_stmts(methods),
        _ => 1,
    }
}

/// Counts the statements of a block, nested ones included (to tell when another round
/// of folding changes nothing).
fn count_stmts(stmts: &Vec<Stmt>) -> (n: usize)
    requires
        stmts_count(stmts@) <= usize::MAX,
    ensures
        n == stmts_count(stmts@),
    decreases stmts,
{
    let mut count: usize = 0;
    let mut i: usize = 0;
    while i < stmts.len()
        invariant
            i <= stmts@.len(),
            stmts_count(stmts@) <= usize::MAX,
            count == stmts_count(stmts@.take(i as int)),
        decreases stmts@.len() - i,
    {
        proof {
            lemma_count_prefix(stmts@, i as int + 1);
            assert(stmts@.take(i as int + 1).subrange(0, i as int) =~= stmts@.take(i as int));
        }
        assert(decreases_to!(*stmts => stmts[i as int]));
        let c = count_stmt(&stmts[i]);
        count = count + c;
        i = i + 1;
    }
    assert(stmts@.take(stmts@.len() as int) =~= stmts@);
    count
}

/// `m` is what the folding rounds make of block `p0`: a round optimizes every
/// statement, and another follows while a round changed the number of statements, three
/// rounds at most.
pub open spec fn fold_rounds(p0: Seq<Stmt>, m: Seq<Stmt>, ok: spec_fn(FloatQuery, FloatLit) -> bool) -> bool {
    exists|p1: Seq<Stmt>|
        #[trigger] opt_stmts_rel(p0, p1, ok) && if stmts_count(p1) == stmts_count(p0) {
            m == p1
        } else {
            exists|p2: Seq<Stmt>|
                #[trigger] opt_stmts_rel(p1, p2, ok) && if stmts_count(p2) == stmts_count(p1) {
                    m == p2
                } else {
                    exists|p3: Seq<Stmt>| #[trigger] opt_stmts_rel(p2, p3, ok) && m == p3
                }
        }
}

/// The folding rounds end with no more statements than they began with.
pub proof fn lemma_fold_rounds_count(p0: Seq<Stmt>, m: Seq<Stmt>, ok: spec_fn(FloatQuery, FloatLit) -> bool)
    requires
        fold_rounds(p0, m, ok),
    ensures
        stmts_count(m) <= stmts_count(p0),
{
    let p1 = choose|p1: Seq<Stmt>|
        #[trigger] opt_stmts_rel(p0, p1, ok) && if stmts_count(p1) == stmts_count(p0) {
            m == p1
        } else {
            exists|p2: Seq<Stmt>|
                #[trigger] opt_stmts_rel(p1, p2, ok) && if stmts_count(p2) == stmts_count(p1) {
                    m == p2
                } else {
                    exists|p3: Seq<Stmt>| #[trigger] opt_stmts_rel(p2, p3, ok) && m == p3
                }
        };
    lemma_opt_stmts_count(p0, p1, ok);
    if stmts_count(p1) != stmts_count(p0) {
        let p2 = choose|p2: Seq<Stmt>|
            #[trigger] opt_stmts_rel(p1, p2, ok) && if stmts_count(p2) == stmts_count(p1) {
                m == p2
            } else {
                exists|p3: Seq<Stmt>| #[trigger] opt_stmts_rel(p2, p3, ok) && m == p3
            };
        lemma_opt_stmts_count(p1, p2, ok);
        if stmts_count(p2) != stmts_count(p1) {
            let p3 = choose|p3: Seq<Stmt>| #[trigger] opt_stmts_rel(p2, p3, ok) && m == p3;
            lemma_opt_stmts_count(p2, p3, ok);
        }
    }
}

/// Whether no folding round on block `p0` meets an overflowing division.
pub open spec fn rounds_trap_free(p0: Seq<Stmt>, ok: spec_fn(FloatQuery, FloatLit) -> bool) -> bool {
    &&& !stmts_trap(p0)
    &&& forall|p1: Seq<Stmt>|
        #[trigger] opt_stmts_rel(p0, p1, ok) && stmts_count(p1) != stmts_count(p0) ==> {
            &&& !stmts_trap(p1)
            &&& forall|p2: Seq<Stmt>|
                #[trigger] opt_stmts_rel(p1, p2, ok) && stmts_count(p2) != stmts_count(p1)
                    ==> !stmts_trap(p2)
        }
}

/// Optimizes a program before bytecode generation: rounds of constant folding, algebraic
/// simplification and removal of code that cannot run (until a round changes the number
/// of statements no more, three at most), then evaluation of `math` calls on constants,
/// then a look at the loops. `fold` computes the floating-point values, one answer to
/// each question. No round may meet the smallest integer divided by -1 (which
/// overflows).
pub fn optimize_program<F: Fn(FloatQuery) -> FloatLit>(program: &mut Program, fold: &F)
    requires
        forall|q: FloatQuery| call_requires(*fold, (q,)),
        answers_once(answers(*fold)),
        stmts_count(old(program).statements@) <= usize::MAX,
        rounds_trap_free(old(program).statements@, answers(*fold)),
    ensures
        exists|mid: Seq<Stmt>|
            fold_rounds(old(program).statements@, mid, answers(*fold)) && #[trigger] inl_stmts_rel(
                mid,
                final(program).statements@,
                answers(*fold),
            ),
{
    let ghost ok = answers(*fold);
    let mut stmts: Vec<Stmt> = Vec::new();
    std::mem::swap(&mut stmts, &mut program.statements);
    let ghost p0 = stmts@;
    let ghost mut hist: Seq<Seq<Stmt>> = seq![p0];
    let mut round: usize = 0;
    let mut settled = false;
    while round < 3 && !settled
        invariant
            forall|q: FloatQuery| call_requires(*fold, (q,)),
            answers_once(answers(*fold)),
            ok == answers(*fold),
            stmts_count(p0) <= usize::MAX,
            rounds_trap_free(p0, ok),
            round <= 3,
            hist.len() == round + 1,
            hist[0] == p0,
            stmts@ == hist[round as int],
            stmts_count(stmts@) <= stmts_count(p0),
            round >= 1 ==> opt_stmts_rel(hist[0], hist[1], ok),
            round >= 2 ==> opt_stmts_rel(hist[1], hist[2], ok) && stmts_count(hist[1]) != stmts_count(hist[0]),
            round >= 3 ==> opt_stmts_rel(hist[2], hist[3], ok) && stmts_count(hist[2]) != stmts_count(hist[1]),
            settled ==> round >= 1 && stmts_count(hist[round as int]) == stmts_count(hist[round - 1]),
            !settled && round >= 1 ==> stmts_count(hist[round as int]) != stmts_count(hist[round - 1]),
            !settled && round < 3 ==> !stmts_trap(stmts@),
        decreases 3 - round,
    {
        let prev = count_stmts(&stmts);
        let ghost before = stmts@;
        stmts = optimize_block(stmts, fold);
        proof {
            lemma_opt_stmts_count(before, stmts@, ok);
            hist = hist.push(stmts@);
        }
        let curr = count_stmts(&stmts);
        round = round + 1;
        if curr == prev {
            settled = true;
        } else {
            proof {
                if round == 1 {
                    assert(opt_stmts_rel(p0, hist[1], ok));
                } else if round == 2 {
                    assert(opt_stmts_rel(p0, hist[1], ok));
                    assert(opt_stmts_rel(hist[1], hist[2], ok));
                }
            }
        }
    }
    let ghost mid = stmts@;
    assert(fold_rounds(p0, mid, ok)) by {
        assert(opt_stmts_rel(p0, hist[1], ok));
        if round >= 2 {
            assert(opt_stmts_rel(hist[1], hist[2], ok));
        }
        if round >= 3 {
            assert(opt_stmts_rel(hist[2], hist[3], ok));
        }
    }
    stmts = inline_math_calls_block(stmts, fold);
    assert(inl_stmts_rel(mid, stmts@, ok));
    let mut i: usize = 0;
    while i < stmts.len()
        invariant
            i <= stmts.len(),
        decreases stmts.len() - i,
    {
        simplify_loops_stmt(&stmts[i]);
        i = i + 1;
    }
    program.statements = stmts;
    assert(inl_stmts_rel(mid, program.statements@, ok));
}

/// Folding an integer comparison gives 1 exactly when the comparison holds and 0
/// otherwise; so `a <= a` and `a >= a` fold to 1, `a < a` and `a > a` to 0, each
/// non-strict comparison is the negation of the opposite strict one, and swapping the
/// operands turns `<` into `>` and `<=` into `>=`.
pub proof fn lemma_int_fold_comparisons(a: i64, b: i64)
    ensures
        int_fold(BinOp::Eq, a, b) == Some::<i64>(if a == b { 1 } else { 0 }),
        int_fold(BinOp::Neq, a, b) == Some::<i64>(if a != b { 1 } else { 0 }),
        int_fold(BinOp::Lt, a, b) == Some::<i64>(if a < b { 1 } else { 0 }),
        int_fold(BinOp::Gt, a, b) == Some::<i64>(if a > b { 1 } else { 0 }),
        int_fold(BinOp::Lte, a, b) == Some::<i64>(if a <= b { 1 } else { 0 }),
        int_fold(BinOp::Gte, a, b) == Some::<i64>(if a >= b { 1 } else { 0 }),
        int_fold(BinOp::Lte, a, a) == Some(1i64),
        int_fold(BinOp::Gte, a, a) == Some(1i64),
        int_fold(BinOp::Lt, a, a) == Some(0i64),
        int_fold(BinOp::Gt, a, a) == Some(0i64),
        int_fold(BinOp::Lte, a, b)->0 == 1 - int_fold(BinOp::Gt, a, b)->0,
        int_fold(BinOp::Gte, a, b)->0 == 1 - int_fold(BinOp::Lt, a, b)->0,
        int_fold(BinOp::Neq, a, b)->0 == 1 - int_fold(BinOp::Eq, a, b)->0,
        int_fold(BinOp::Lt, a, b) == int_fold(BinOp::Gt, b, a),
        int_fold(BinOp::Lte, a, b) == int_fold(BinOp::Gte, b, a),
        int_fold(BinOp::Lt, a, b)->0 + int_fold(BinOp::Eq, a, b)->0 + int_fold(BinOp::Gt, a, b)->0 == 1,
{
}

} // verus!
