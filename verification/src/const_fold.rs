//! Constant folding, algebraic simplification, dead-branch removal and constant
//! propagation on the syntax tree before native code generation.
use vstd::prelude::*;
use vstd::wrapping::i64_specs;
use crate::ast::{BinOp, Expr, Stmt, UnaryOp};
use crate::ast_view::{expr_eq, gexpr, gexprs, gfields, gsame, gstmt, gstmts, GExpr, GStmt};
use crate::optimize::{binop_traps, const_traps, const_value, eval_binop, eval_binop_exec, reversed, try_eval_const};

verus! {

// ---------------------------------------------------------------------------
// Constant values
// ---------------------------------------------------------------------------

/// The integer value of a constant expression: integers, booleans as 1 or 0, characters
/// as their code, and operators on such.
pub open spec fn gconst(g: GExpr) -> Option<i64>
    decreases g,
{
    match g {
        GExpr::Integer(n) => Some(n),
        GExpr::Bool(b) => Some(if b { 1 } else { 0 }),
        GExpr::Char(c) => Some(c as i64),
        GExpr::Binary(l, op, r) => match gconst(*l) {
            Some(a) => match gconst(*r) {
                Some(b) => eval_binop(op, a, b),
                None => None,
            },
            None => None,
        },
        GExpr::Unary(UnaryOp::Neg, x) => match gconst(*x) {
            Some(v) => Some(i64_specs::wrapping_sub(0, v)),
            None => None,
        },
        GExpr::Unary(UnaryOp::Not, x) => match gconst(*x) {
            Some(v) => Some(if v == 0 { 1 } else { 0 }),
            None => None,
        },
        _ => None,
    }
}

/// Whether evaluating a constant expression reaches the smallest integer divided by -1
/// (or its remainder).
pub open spec fn gconst_traps(g: GExpr) -> bool
    decreases g,
{
    match g {
        GExpr::Binary(l, op, r) => gconst_traps(*l) || (gconst(*l) is Some && (gconst_traps(*r) || (
        gconst(*r) is Some && binop_traps(op, gconst(*l)->0, gconst(*r)->0)))),
        GExpr::Unary(_, x) => gconst_traps(*x),
        _ => false,
    }
}

/// The constant value of an expression is that of its view.
proof fn lemma_const_view(e: Expr)
    ensures
        const_value(e) == gconst(gexpr(e)),
        const_traps(e) == gconst_traps(gexpr(e)),
    decreases e,
{
    match e {
        Expr::Binary(l, _, r) => {
            lemma_const_view(*l);
            lemma_const_view(*r);
        },
        Expr::Unary(_, x) => lemma_const_view(*x),
        _ => {},
    }
}

// ---------------------------------------------------------------------------
// Folding
// ---------------------------------------------------------------------------

/// An operator on two optimized operands: folded when both are constants with a value
/// under it; else an identity (`x + 0`, `0 + x`, `x - 0`, `x * 1`, `1 * x`, `x / 1` give
/// the other operand; `x * 0`, `0 * x`, `x % 1`, `x and 0`, `0 and x` give 0; `x or 0`
/// and `0 or x` the other operand; `x - x` gives 0, `x / x` 1, `x == x` 1, `x != x` 0,
/// for equal operands); else the operator.
pub open spec fn fold_binop(l: GExpr, op: BinOp, r: GExpr) -> GExpr {
    let a = gconst(l);
    let b = gconst(r);
    if a is Some && b is Some && eval_binop(op, a->0, b->0) is Some {
        GExpr::Integer(eval_binop(op, a->0, b->0)->0)
    } else {
        let keep = GExpr::Binary(Box::new(l), op, Box::new(r));
        match op {
            BinOp::Add => if b == Some(0i64) {
                l
            } else if a == Some(0i64) {
                r
            } else {
                keep
            },
            BinOp::Sub => if b == Some(0i64) {
                l
            } else if gsame(l, r) {
                GExpr::Integer(0)
            } else {
                keep
            },
            BinOp::Mul => if b == Some(1i64) {
                l
            } else if a == Some(1i64) {
                r
            } else if b == Some(0i64) || a == Some(0i64) {
                GExpr::Integer(0)
            } else {
                keep
            },
            BinOp::Div => if b == Some(1i64) {
                l
            } else if gsame(l, r) {
                GExpr::Integer(1)
            } else {
                keep
            },
            BinOp::Mod => if b == Some(1i64) {
                GExpr::Integer(0)
            } else {
                keep
            },
            BinOp::Eq => if gsame(l, r) {
                GExpr::Integer(1)
            } else {
                keep
            },
            BinOp::Neq => if gsame(l, r) {
                GExpr::Integer(0)
            } else {
                keep
            },
            BinOp::And => if b == Some(0i64) || a == Some(0i64) {
                GExpr::Integer(0)
            } else {
                keep
            },
            BinOp::Or => if b == Some(0i64) {
                l
            } else if a == Some(0i64) {
                r
            } else {
                keep
            },
            _ => keep,
        }
    }
}

/// Whether folding an operator on two optimized operands overflows.
pub open spec fn fold_binop_traps(l: GExpr, op: BinOp, r: GExpr) -> bool {
    gconst_traps(l) || gconst_traps(r) || (gconst(l) is Some && gconst(r) is Some && binop_traps(
        op,
        gconst(l)->0,
        gconst(r)->0,
    ))
}

/// An operator with its operands optimized, then folded.
pub open spec fn opt_binop(l: GExpr, op: BinOp, r: GExpr) -> GExpr {
    fold_binop(opt_gexpr(l), op, opt_gexpr(r))
}

/// An optimized expression: operators folded; a unary operator on a constant evaluated;
/// an `if` on a constant condition replaced by the chosen (optimized) value, 0 without
/// an `else`; call arguments and struct-literal values optimized; the rest unchanged.
pub open spec fn opt_gexpr(g: GExpr) -> GExpr
    decreases g,
{
    match g {
        GExpr::Binary(l, op, r) => fold_binop(opt_gexpr(*l), op, opt_gexpr(*r)),
        GExpr::Unary(op, x) => {
            let u = GExpr::Unary(op, Box::new(opt_gexpr(*x)));
            match gconst(u) {
                Some(v) => GExpr::Integer(v),
                None => u,
            }
        },
        GExpr::If(c, t, el) => {
            let c2 = opt_gexpr(*c);
            let t2 = opt_gexpr(*t);
            let e2 = match el {
                Some(x) => Some(Box::new(opt_gexpr(*x))),
                None => None,
            };
            match gconst(c2) {
                Some(v) => if v != 0 {
                    t2
                } else {
                    match e2 {
                        Some(x) => *x,
                        None => GExpr::Integer(0),
                    }
                },
                None => GExpr::If(Box::new(c2), Box::new(t2), e2),
            }
        },
        GExpr::Call(n, args) => GExpr::Call(n, opt_gexprs(args)),
        GExpr::TailCall(n, args) => GExpr::TailCall(n, opt_gexprs(args)),
        GExpr::StructLiteral(n, fields) => GExpr::StructLiteral(n, opt_gfields(fields)),
        _ => g,
    }
}

/// Each expression of a list optimized.
pub open spec fn opt_gexprs(v: Seq<GExpr>) -> Seq<GExpr>
    decreases v,
{
    if v.len() == 0 {
        Seq::empty()
    } else {
        opt_gexprs(v.subrange(0, v.len() - 1)).push(opt_gexpr(v[v.len() - 1]))
    }
}

/// Each struct-literal value optimized.
pub open spec fn opt_gfields(v: Seq<(Seq<char>, GExpr)>) -> Seq<(Seq<char>, GExpr)>
    decreases v,
{
    if v.len() == 0 {
        Seq::empty()
    } else {
        opt_gfields(v.subrange(0, v.len() - 1)).push((v[v.len() - 1].0, opt_gexpr(v[v.len() - 1].1)))
    }
}

/// Whether optimizing an expression overflows.
pub open spec fn opt_traps(g: GExpr) -> bool
    decreases g,
{
    match g {
        GExpr::Binary(l, op, r) => opt_traps(*l) || opt_traps(*r) || fold_binop_traps(
            opt_gexpr(*l),
            op,
            opt_gexpr(*r),
        ),
        GExpr::Unary(op, x) => opt_traps(*x) || gconst_traps(GExpr::Unary(op, Box::new(opt_gexpr(*x)))),
        GExpr::If(c, t, el) => opt_traps(*c) || opt_traps(*t) || (match el {
            Some(x) => opt_traps(*x),
            None => false,
        }) || gconst_traps(opt_gexpr(*c)),
        GExpr::Call(_, args) => opt_traps_list(args),
        GExpr::TailCall(_, args) => opt_traps_list(args),
        GExpr::StructLiteral(_, fields) => opt_traps_fields(fields),
        _ => false,
    }
}

/// Whether optimizing some expression of a list overflows.
pub open spec fn opt_traps_list(v: Seq<GExpr>) -> bool
    decreases v,
{
    v.len() > 0 && (opt_traps_list(v.subrange(0, v.len() - 1)) || opt_traps(v[v.len() - 1]))
}

/// Whether optimizing some struct-literal value overflows.
pub open spec fn opt_traps_fields(v: Seq<(Seq<char>, GExpr)>) -> bool
    decreases v,
{
    v.len() > 0 && (opt_traps_fields(v.subrange(0, v.len() - 1)) || opt_traps(v[v.len() - 1].1))
}

/// An optimized statement: its expressions optimized; a `while` whose optimized
/// condition is 0 replaced by the no-op `0;`; an `if` on a constant condition replaced
/// by the block that runs (as it stands) or the no-op; loops and blocks with their
/// statements optimized. Function definitions and the rest stay as they are.
pub open spec fn opt_gstmt(s: GStmt) -> GStmt
    decreases s,
{
    match s {
        GStmt::Let(n, t, m, v) => GStmt::Let(n, t, m, opt_gexpr(v)),
        GStmt::Assign(n, v) => GStmt::Assign(n, opt_gexpr(v)),
        GStmt::FieldAssign(o, f, v) => GStmt::FieldAssign(o, f, opt_gexpr(v)),
        GStmt::Expr(e) => GStmt::Expr(opt_gexpr(e)),
        GStmt::Return(v) => GStmt::Return(
            match v {
                Some(e) => Some(opt_gexpr(e)),
                None => None,
            },
        ),
        GStmt::Print(e) => GStmt::Print(opt_gexpr(e)),
        GStmt::PrintLn(e) => GStmt::PrintLn(opt_gexpr(e)),
        GStmt::While(c, body) => {
            let c2 = opt_gexpr(c);
            if gconst(c2) == Some(0i64) {
                GStmt::Expr(GExpr::Integer(0))
            } else {
                GStmt::While(c2, opt_gstmts(body))
            }
        },
        GStmt::For(v, it, body) => GStmt::For(v, opt_gexpr(it), opt_gstmts(body)),
        GStmt::If(c, t, el) => {
            let c2 = opt_gexpr(c);
            if gconst(c2) == Some(0i64) {
                match el {
                    Some(b) => GStmt::Block(b),
                    None => GStmt::Expr(GExpr::Integer(0)),
                }
            } else if gconst(c2) is Some {
                GStmt::Block(t)
            } else {
                GStmt::If(
                    c2,
                    opt_gstmts(t),
                    match el {
                        Some(b) => Some(opt_gstmts(b)),
                        None => None,
                    },
                )
            }
        },
        GStmt::Block(v) => GStmt::Block(opt_gstmts(v)),
        _ => s,
    }
}

/// Each statement of a block optimized.
pub open spec fn opt_gstmts(v: Seq<GStmt>) -> Seq<GStmt>
    decreases v,
{
    if v.len() == 0 {
        Seq::empty()
    } else {
        opt_gstmts(v.subrange(0, v.len() - 1)).push(opt_gstmt(v[v.len() - 1]))
    }
}

/// Whether optimizing a statement overflows.
pub open spec fn opt_stmt_traps(s: GStmt) -> bool
    decreases s,
{
    match s {
        GStmt::Let(_, _, _, v) => opt_traps(v),
        GStmt::Assign(_, v) => opt_traps(v),
        GStmt::FieldAssign(_, _, v) => opt_traps(v),
        GStmt::Expr(e) => opt_traps(e),
        GStmt::Return(Some(e)) => opt_traps(e),
        GStmt::Print(e) => opt_traps(e),
        GStmt::PrintLn(e) => opt_traps(e),
        GStmt::While(c, body) => opt_traps(c) || opt_stmts_traps(body) || gconst_traps(opt_gexpr(c)),
        GStmt::For(_, it, body) => opt_traps(it) || opt_stmts_traps(body),
        GStmt::If(c, t, el) => opt_traps(c) || gconst_traps(opt_gexpr(c)) || (gconst(opt_gexpr(c))
            is None && (opt_stmts_traps(t) || match el {
            Some(b) => opt_stmts_traps(b),
            None => false,
        })),
        GStmt::Block(v) => opt_stmts_traps(v),
        _ => false,
    }
}

/// Whether optimizing some statement of a block overflows.
pub open spec fn opt_stmts_traps(v: Seq<GStmt>) -> bool
    decreases v,
{
    v.len() > 0 && (opt_stmts_traps(v.subrange(0, v.len() - 1)) || opt_stmt_traps(v[v.len() - 1]))
}

/// Optimizing keeps the value of a constant expression, and turns every operator
/// expression with a constant value into that value: folding computes constants
/// completely, however deeply they nest.
pub proof fn lemma_fold_computes_constants(g: GExpr)
    requires
        gconst(g) is Some,
    ensures
        gconst(opt_gexpr(g)) == gconst(g),
        (g is Binary || g is Unary) ==> opt_gexpr(g) == GExpr::Integer(gconst(g)->0),
    decreases g,
{
    match g {
        GExpr::Binary(l, op, r) => {
            lemma_fold_computes_constants(*l);
            lemma_fold_computes_constants(*r);
        },
        GExpr::Unary(op, x) => {
            lemma_fold_computes_constants(*x);
        },
        _ => {},
    }
}

// ---------------------------------------------------------------------------
// Constant propagation
// ---------------------------------------------------------------------------

/// Whether folding an operator with its operands optimized overflows.
pub open spec fn opt_binop_traps(l: GExpr, op: BinOp, r: GExpr) -> bool {
    opt_traps(l) || opt_traps(r) || fold_binop_traps(opt_gexpr(l), op, opt_gexpr(r))
}

/// The map `m` without the names that the statements of `body` bind or assign, at
/// any depth (function definitions aside: they have their own variables).
pub open spec fn forget_deep(m: Map<Seq<char>, i64>, body: Seq<GStmt>) -> Map<Seq<char>, i64>
    decreases body,
{
    if body.len() == 0 {
        m
    } else {
        forget_stmt_deep(forget_deep(m, body.subrange(0, body.len() - 1)), body[body.len() - 1])
    }
}

/// The map `m` without the names that statement `s` binds or assigns, at any depth.
pub open spec fn forget_stmt_deep(m: Map<Seq<char>, i64>, s: GStmt) -> Map<Seq<char>, i64>
    decreases s,
{
    match s {
        GStmt::Let(n, _, _, _) => m.remove(n),
        GStmt::Assign(n, _) => m.remove(n),
        GStmt::While(_, body) => forget_deep(m, body),
        GStmt::For(v, _, body) => forget_deep(m.remove(v), body),
        GStmt::If(_, t, el) => match el {
            Some(b) => forget_deep(forget_deep(m, t), b),
            None => forget_deep(m, t),
        },
        GStmt::Block(v) => forget_deep(m, v),
        _ => m,
    }
}

/// Whether `s` holds nested statements that run under the enclosing constants.
pub open spec fn is_compound(s: GStmt) -> bool {
    s is While || s is For || s is If || s is Block
}

/// The variables known to hold constants after the top-level statements `v`, in
/// order: a binding or assignment of a constant records it, of anything else forgets
/// it; a loop, an `if` or a block forgets every name it binds or assigns.
pub open spec fn const_props(v: Seq<GStmt>) -> Map<Seq<char>, i64>
    decreases v,
{
    if v.len() == 0 {
        Map::empty()
    } else {
        let m = const_props(v.subrange(0, v.len() - 1));
        match v[v.len() - 1] {
            GStmt::Let(n, _, _, val) => match gconst(val) {
                Some(c) => m.insert(n, c),
                None => m.remove(n),
            },
            GStmt::Assign(n, val) => match gconst(val) {
                Some(c) => m.insert(n, c),
                None => m.remove(n),
            },
            s => if is_compound(s) {
                forget_stmt_deep(m, s)
            } else {
                m
            },
        }
    }
}

/// Whether evaluating the value of some top-level binding or assignment overflows.
pub open spec fn props_trap(v: Seq<GStmt>) -> bool
    decreases v,
{
    v.len() > 0 && (props_trap(v.subrange(0, v.len() - 1)) || match v[v.len() - 1] {
        GStmt::Let(_, _, _, val) => gconst_traps(val),
        GStmt::Assign(_, val) => gconst_traps(val),
        _ => false,
    })
}

/// An expression with the variables of `m` replaced by their constants; operators are
/// optimized again on the replaced operands.
pub open spec fn prop_gexpr(g: GExpr, m: Map<Seq<char>, i64>) -> GExpr
    decreases g,
{
    match g {
        GExpr::Ident(n) => if m.contains_key(n) {
            GExpr::Integer(m[n])
        } else {
            g
        },
        GExpr::Binary(l, op, r) => opt_binop(prop_gexpr(*l, m), op, prop_gexpr(*r, m)),
        GExpr::Unary(op, x) => GExpr::Unary(op, Box::new(prop_gexpr(*x, m))),
        GExpr::Call(n, args) => GExpr::Call(n, prop_gexprs(args, m)),
        GExpr::TailCall(n, args) => GExpr::TailCall(n, prop_gexprs(args, m)),
        GExpr::If(c, t, el) => GExpr::If(
            Box::new(prop_gexpr(*c, m)),
            Box::new(prop_gexpr(*t, m)),
            match el {
                Some(x) => Some(Box::new(prop_gexpr(*x, m))),
                None => None,
            },
        ),
        GExpr::StructLiteral(n, fields) => GExpr::StructLiteral(n, prop_gfields(fields, m)),
        _ => g,
    }
}

/// Each expression of a list with the constants replaced.
pub open spec fn prop_gexprs(v: Seq<GExpr>, m: Map<Seq<char>, i64>) -> Seq<GExpr>
    decreases v,
{
    if v.len() == 0 {
        Seq::empty()
    } else {
        prop_gexprs(v.subrange(0, v.len() - 1), m).push(prop_gexpr(v[v.len() - 1], m))
    }
}

/// Each struct-literal value with the constants replaced.
pub open spec fn prop_gfields(v: Seq<(Seq<char>, GExpr)>, m: Map<Seq<char>, i64>) -> Seq<
    (Seq<char>, GExpr),
>
    decreases v,
{
    if v.len() == 0 {
        Seq::empty()
    } else {
        prop_gfields(v.subrange(0, v.len() - 1), m).push(
            (v[v.len() - 1].0, prop_gexpr(v[v.len() - 1].1, m)),
        )
    }
}

/// Whether replacing the constants in an expression overflows (in the operators it
/// optimizes again).
pub open spec fn prop_traps(g: GExpr, m: Map<Seq<char>, i64>) -> bool
    decreases g,
{
    match g {
        GExpr::Binary(l, op, r) => prop_traps(*l, m) || prop_traps(*r, m) || opt_binop_traps(
            prop_gexpr(*l, m),
            op,
            prop_gexpr(*r, m),
        ),
        GExpr::Unary(_, x) => prop_traps(*x, m),
        GExpr::Call(_, args) => prop_traps_list(args, m),
        GExpr::TailCall(_, args) => prop_traps_list(args, m),
        GExpr::If(c, t, el) => prop_traps(*c, m) || prop_traps(*t, m) || match el {
            Some(x) => prop_traps(*x, m),
            None => false,
        },
        GExpr::StructLiteral(_, fields) => prop_traps_fields(fields, m),
        _ => false,
    }
}

/// Whether replacing the constants in some expression of a list overflows.
pub open spec fn prop_traps_list(v: Seq<GExpr>, m: Map<Seq<char>, i64>) -> bool
    decreases v,
{
    v.len() > 0 && (prop_traps_list(v.subrange(0, v.len() - 1), m) || prop_traps(v[v.len() - 1], m))
}

/// Whether replacing the constants in some struct-literal value overflows.
pub open spec fn prop_traps_fields(v: Seq<(Seq<char>, GExpr)>, m: Map<Seq<char>, i64>) -> bool
    decreases v,
{
    v.len() > 0 && (prop_traps_fields(v.subrange(0, v.len() - 1), m) || prop_traps(
        v[v.len() - 1].1,
        m,
    ))
}

/// A statement with the constants of `m` replaced in its expressions and nested
/// statements (not in function definitions). Inside a loop, an `if` or a block (and in
/// a loop's condition) the names it binds or assigns anywhere are not replaced.
pub open spec fn prop_gstmt(s: GStmt, m: Map<Seq<char>, i64>) -> GStmt
    decreases s,
{
    match s {
        GStmt::Let(n, t, mu, v) => GStmt::Let(n, t, mu, prop_gexpr(v, m)),
        GStmt::Assign(n, v) => GStmt::Assign(n, prop_gexpr(v, m)),
        GStmt::FieldAssign(o, f, v) => GStmt::FieldAssign(o, f, prop_gexpr(v, m)),
        GStmt::Expr(e) => GStmt::Expr(prop_gexpr(e, m)),
        GStmt::Return(v) => GStmt::Return(
            match v {
                Some(e) => Some(prop_gexpr(e, m)),
                None => None,
            },
        ),
        GStmt::Print(e) => GStmt::Print(prop_gexpr(e, m)),
        GStmt::PrintLn(e) => GStmt::PrintLn(prop_gexpr(e, m)),
        GStmt::While(c, body) => GStmt::While(
            prop_gexpr(c, forget_stmt_deep(m, s)),
            prop_gstmts(body, forget_stmt_deep(m, s)),
        ),
        GStmt::For(v, it, body) => GStmt::For(v, prop_gexpr(it, m), prop_gstmts(body, forget_stmt_deep(m, s))),
        GStmt::If(c, t, el) => GStmt::If(
            prop_gexpr(c, m),
            prop_gstmts(t, forget_stmt_deep(m, s)),
            match el {
                Some(b) => Some(prop_gstmts(b, forget_stmt_deep(m, s))),
                None => None,
            },
        ),
        GStmt::Block(v) => GStmt::Block(prop_gstmts(v, forget_stmt_deep(m, s))),
        _ => s,
    }
}

/// Each statement of a block with the constants replaced.
pub open spec fn prop_gstmts(v: Seq<GStmt>, m: Map<Seq<char>, i64>) -> Seq<GStmt>
    decreases v,
{
    if v.len() == 0 {
        Seq::empty()
    } else {
        prop_gstmts(v.subrange(0, v.len() - 1), m).push(prop_gstmt(v[v.len() - 1], m))
    }
}

/// Whether replacing the constants in a statement overflows.
pub open spec fn prop_stmt_traps(s: GStmt, m: Map<Seq<char>, i64>) -> bool
    decreases s,
{
    match s {
        GStmt::Let(_, _, _, v) => prop_traps(v, m),
        GStmt::Assign(_, v) => prop_traps(v, m),
        GStmt::FieldAssign(_, _, v) => prop_traps(v, m),
        GStmt::Expr(e) => prop_traps(e, m),
        GStmt::Return(Some(e)) => prop_traps(e, m),
        GStmt::Print(e) => prop_traps(e, m),
        GStmt::PrintLn(e) => prop_traps(e, m),
        GStmt::While(c, body) => prop_traps(c, forget_stmt_deep(m, s)) || prop_stmts_traps(
            body,
            forget_stmt_deep(m, s),
        ),
        GStmt::For(_, it, body) => prop_traps(it, m) || prop_stmts_traps(body, forget_stmt_deep(m, s)),
        GStmt::If(c, t, el) => prop_traps(c, m) || prop_stmts_traps(t, forget_stmt_deep(m, s)) || match el {
            Some(b) => prop_stmts_traps(b, forget_stmt_deep(m, s)),
            None => false,
        },
        GStmt::Block(v) => prop_stmts_traps(v, forget_stmt_deep(m, s)),
        _ => false,
    }
}

/// Whether replacing the constants in some statement of a block overflows.
pub open spec fn prop_stmts_traps(v: Seq<GStmt>, m: Map<Seq<char>, i64>) -> bool
    decreases v,
{
    v.len() > 0 && (prop_stmts_traps(v.subrange(0, v.len() - 1), m) || prop_stmt_traps(
        v[v.len() - 1],
        m,
    ))
}

/// The top-level statements with constants replaced: each statement under the
/// constants known just before it.
pub open spec fn prop_program(v: Seq<GStmt>) -> Seq<GStmt>
    decreases v.len(),
{
    if v.len() == 0 {
        Seq::empty()
    } else {
        let u = v.subrange(0, v.len() - 1);
        prop_program(u).push(prop_gstmt(v[v.len() - 1], const_props(u)))
    }
}

/// Whether replacing the constants in some top-level statement overflows.
pub open spec fn prop_program_traps(v: Seq<GStmt>) -> bool
    decreases v.len(),
{
    v.len() > 0 && {
        let u = v.subrange(0, v.len() - 1);
        prop_program_traps(u) || prop_stmt_traps(v[v.len() - 1], const_props(u))
    }
}

/// The program after folding, constant propagation and folding again.
pub open spec fn fold_program(p0: Seq<GStmt>) -> Seq<GStmt> {
    let s1 = opt_gstmts(p0);
    opt_gstmts(prop_program(s1))
}

/// Whether folding, propagating or folding again overflows.
pub open spec fn fold_program_traps(p0: Seq<GStmt>) -> bool {
    let s1 = opt_gstmts(p0);
    opt_stmts_traps(p0) || props_trap(s1) || prop_program_traps(s1) || opt_stmts_traps(prop_program(s1))
}

// ---------------------------------------------------------------------------
// Folding, executable
// ---------------------------------------------------------------------------

/// The constant value of an expression.
fn eval_const(e: &Expr) -> (r: Option<i64>)
    requires
        !gconst_traps(gexpr(*e)),
    ensures
        r == gconst(gexpr(*e)),
{
    proof {
        lemma_const_view(*e);
    }
    try_eval_const(e)
}

/// Folds an operator on two optimized operands.
fn fold_binary(l: Expr, op: BinOp, r: Expr) -> (x: Expr)
    requires
        !fold_binop_traps(gexpr(l), op, gexpr(r)),
    ensures
        gexpr(x) == fold_binop(gexpr(l), op, gexpr(r)),
{
    let lv = eval_const(&l);
    let rv = eval_const(&r);
    if let (Some(a), Some(b)) = (lv, rv) {
        if let Some(v) = eval_binop_exec(&op, a, b) {
            return Expr::Integer(v);
        }
    }
    match op {
        BinOp::Add => {
            if rv == Some(0i64) {
                return l;
            }
            if lv == Some(0i64) {
                return r;
            }
        },
        BinOp::Sub => {
            if rv == Some(0i64) {
                return l;
            }
            if expr_eq(&l, &r) {
                return Expr::Integer(0);
            }
        },
        BinOp::Mul => {
            if rv == Some(1i64) {
                return l;
            }
            if lv == Some(1i64) {
                return r;
            }
            if rv == Some(0i64) {
                return Expr::Integer(0);
            }
            if lv == Some(0i64) {
                return Expr::Integer(0);
            }
        },
        BinOp::Div => {
            if rv == Some(1i64) {
                return l;
            }
            if expr_eq(&l, &r) {
                return Expr::Integer(1);
            }
        },
        BinOp::Mod => {
            if rv == Some(1i64) {
                return Expr::Integer(0);
            }
        },
        BinOp::Eq => {
            if expr_eq(&l, &r) {
                return Expr::Integer(1);
            }
        },
        BinOp::Neq => {
            if expr_eq(&l, &r) {
                return Expr::Integer(0);
            }
        },
        BinOp::And => {
            if rv == Some(0i64) {
                return Expr::Integer(0);
            }
            if lv == Some(0i64) {
                return Expr::Integer(0);
            }
        },
        BinOp::Or => {
            if rv == Some(0i64) {
                return l;
            }
            if lv == Some(0i64) {
                return r;
            }
        },
        _ => {},
    }
    Expr::Binary(Box::new(l), op, Box::new(r))
}

/// An operator with its operands optimized, then folded.
fn opt_binary(l: Expr, op: BinOp, r: Expr) -> (x: Expr)
    requires
        !opt_binop_traps(gexpr(l), op, gexpr(r)),
    ensures
        gexpr(x) == opt_binop(gexpr(l), op, gexpr(r)),
{
    let l = opt_expr(l);
    let r = opt_expr(r);
    fold_binary(l, op, r)
}

/// Optimizes an expression.
fn opt_expr(e: Expr) -> (r: Expr)
    requires
        !opt_traps(gexpr(e)),
    ensures
        gexpr(r) == opt_gexpr(gexpr(e)),
    decreases e,
{
    match e {
        Expr::Binary(l, op, r) => {
            let l = opt_expr(*l);
            let r = opt_expr(*r);
            fold_binary(l, op, r)
        },
        Expr::Unary(op, x) => {
            let inner = opt_expr(*x);
            let u = Expr::Unary(op, Box::new(inner));
            match eval_const(&u) {
                Some(v) => Expr::Integer(v),
                None => u,
            }
        },
        Expr::If(c, t, el) => {
            let c2 = opt_expr(*c);
            let t2 = opt_expr(*t);
            let e2 = match el {
                Some(x) => Some(Box::new(opt_expr(*x))),
                None => None,
            };
            match eval_const(&c2) {
                Some(v) => if v != 0 {
                    t2
                } else {
                    match e2 {
                        Some(x) => *x,
                        None => Expr::Integer(0),
                    }
                },
                None => Expr::If(Box::new(c2), Box::new(t2), e2),
            }
        },
        Expr::Call(n, args) => Expr::Call(n, opt_exprs(args)),
        Expr::TailCall(n, args) => Expr::TailCall(n, opt_exprs(args)),
        Expr::StructLiteral { struct_name, fields } => Expr::StructLiteral {
            struct_name,
            fields: opt_fields(fields),
        },
        other => other,
    }
}

/// No expression of a list overflows when the list does not.
proof fn lemma_list_no_trap(v: Seq<Expr>, i: int)
    requires
        0 <= i < v.len(),
        !opt_traps_list(gexprs(v)),
    ensures
        !opt_traps(gexpr(v[i])),
    decreases v.len(),
{
    let u = v.subrange(0, v.len() - 1);
    assert(gexprs(v).subrange(0, gexprs(v).len() - 1) =~= gexprs(u));
    if i < v.len() - 1 {
        lemma_list_no_trap(u, i);
    }
}

/// Optimizes each expression of a list.
fn opt_exprs(v: Vec<Expr>) -> (w: Vec<Expr>)
    requires
        !opt_traps_list(gexprs(v@)),
    ensures
        gexprs(w@) == opt_gexprs(gexprs(v@)),
    decreases v,
{
    let ghost vv = v;
    let ghost orig = v@;
    let mut rest = reversed(v);
    let mut out: Vec<Expr> = Vec::new();
    assert(orig.take(0) =~= Seq::<Expr>::empty());
    while rest.len() > 0
        invariant
            vv == v,
            orig == vv@,
            !opt_traps_list(gexprs(orig)),
            rest@ == orig.skip(out@.len() as int).reverse(),
            out@.len() <= orig.len(),
            gexprs(out@) == opt_gexprs(gexprs(orig.take(out@.len() as int))),
        decreases rest@.len(),
    {
        let ghost k = out@.len() as int;
        let ghost out0 = out@;
        let x = rest.pop().unwrap();
        assert(x == orig[k]);
        assert(decreases_to!(vv => vv[k]));
        proof {
            lemma_list_no_trap(orig, k);
        }
        let y = opt_expr(x);
        out.push(y);
        proof {
            assert(orig.take(k + 1).subrange(0, k) =~= orig.take(k));
            let gx = gexprs(orig.take(k));
            assert(gx.push(gexpr(x)).subrange(0, gx.len() as int) =~= gx);
            assert(out@.subrange(0, k) =~= out0);
        }
        assert(rest@ =~= orig.skip(k + 1).reverse());
    }
    assert(orig.take(orig.len() as int) =~= orig);
    out
}

/// No struct-literal value overflows when the fields do not.
proof fn lemma_fields_no_trap(v: Seq<(String, Expr)>, i: int)
    requires
        0 <= i < v.len(),
        !opt_traps_fields(gfields(v)),
    ensures
        !opt_traps(gexpr(v[i].1)),
    decreases v.len(),
{
    let u = v.subrange(0, v.len() - 1);
    assert(gfields(v).subrange(0, gfields(v).len() - 1) =~= gfields(u));
    if i < v.len() - 1 {
        lemma_fields_no_trap(u, i);
    }
}

/// Optimizes the values of struct-literal fields.
fn opt_fields(v: Vec<(String, Expr)>) -> (w: Vec<(String, Expr)>)
    requires
        !opt_traps_fields(gfields(v@)),
    ensures
        gfields(w@) == opt_gfields(gfields(v@)),
    decreases v,
{
    let ghost vv = v;
    let ghost orig = v@;
    let mut rest = reversed(v);
    let mut out: Vec<(String, Expr)> = Vec::new();
    assert(orig.take(0) =~= Seq::<(String, Expr)>::empty());
    while rest.len() > 0
        invariant
            vv == v,
            orig == vv@,
            !opt_traps_fields(gfields(orig)),
            rest@ == orig.skip(out@.len() as int).reverse(),
            out@.len() <= orig.len(),
            gfields(out@) == opt_gfields(gfields(orig.take(out@.len() as int))),
        decreases rest@.len(),
    {
        let ghost k = out@.len() as int;
        let ghost out0 = out@;
        let (n, x) = rest.pop().unwrap();
        assert(x == orig[k].1);
        assert(decreases_to!(vv => vv[k]));
        assert(decreases_to!(vv[k] => vv[k].1));
        proof {
            lemma_fields_no_trap(orig, k);
        }
        let y = opt_expr(x);
        out.push((n, y));
        proof {
            assert(orig.take(k + 1).subrange(0, k) =~= orig.take(k));
            let gx = gfields(orig.take(k));
            assert(gx.push((orig[k].0@, gexpr(x))).subrange(0, gx.len() as int) =~= gx);
            assert(out@.subrange(0, k) =~= out0);
        }
        assert(rest@ =~= orig.skip(k + 1).reverse());
    }
    assert(orig.take(orig.len() as int) =~= orig);
    out
}

/// Optimizes a statement.
fn opt_stmt(s: Stmt) -> (r: Stmt)
    requires
        !opt_stmt_traps(gstmt(s)),
    ensures
        gstmt(r) == opt_gstmt(gstmt(s)),
    decreases s,
{
    match s {
        Stmt::Let { name, type_ann, mutable, value } => Stmt::Let {
            name,
            type_ann,
            mutable,
            value: opt_expr(value),
        },
        Stmt::Assign { name, value } => Stmt::Assign { name, value: opt_expr(value) },
        Stmt::FieldAssign { obj, field, value } => Stmt::FieldAssign {
            obj,
            field,
            value: opt_expr(value),
        },
        Stmt::Expr(e) => Stmt::Expr(opt_expr(e)),
        Stmt::Return(e) => Stmt::Return(
            match e {
                Some(x) => Some(opt_expr(x)),
                None => None,
            },
        ),
        Stmt::Print(e) => Stmt::Print(opt_expr(e)),
        Stmt::PrintLn(e) => Stmt::PrintLn(opt_expr(e)),
        Stmt::While(cond, body) => {
            let c = opt_expr(cond);
            let b = opt_stmts(body);
            if eval_const(&c) == Some(0i64) {
                Stmt::Expr(Expr::Integer(0))
            } else {
                Stmt::While(c, b)
            }
        },
        Stmt::For { var, iterable, body } => {
            let it = opt_expr(iterable);
            let b = opt_stmts(body);
            Stmt::For { var, iterable: it, body: b }
        },
        Stmt::If { cond, then_block, else_block } => {
            let c = opt_expr(cond);
            let cv = eval_const(&c);
            if cv == Some(0i64) {
                match else_block {
                    Some(b) => Stmt::Block(b),
                    None => Stmt::Expr(Expr::Integer(0)),
                }
            } else if cv.is_some() {
                Stmt::Block(then_block)
            } else {
                let t = opt_stmts(then_block);
                let el = match else_block {
                    Some(b) => Some(opt_stmts(b)),
                    None => None,
                };
                Stmt::If { cond: c, then_block: t, else_block: el }
            }
        },
        Stmt::Block(v) => Stmt::Block(opt_stmts(v)),
        other => other,
    }
}

/// No statement of a block overflows when the block does not.
proof fn lemma_stmts_no_trap(v: Seq<Stmt>, i: int)
    requires
        0 <= i < v.len(),
        !opt_stmts_traps(gstmts(v)),
    ensures
        !opt_stmt_traps(gstmt(v[i])),
    decreases v.len(),
{
    let u = v.subrange(0, v.len() - 1);
    assert(gstmts(v).subrange(0, gstmts(v).len() - 1) =~= gstmts(u));
    if i < v.len() - 1 {
        lemma_stmts_no_trap(u, i);
    }
}

/// Optimizes each statement of a block.
fn opt_stmts(v: Vec<Stmt>) -> (w: Vec<Stmt>)
    requires
        !opt_stmts_traps(gstmts(v@)),
    ensures
        gstmts(w@) == opt_gstmts(gstmts(v@)),
    decreases v,
{
    let ghost vv = v;
    let ghost orig = v@;
    let mut rest = reversed(v);
    let mut out: Vec<Stmt> = Vec::new();
    assert(orig.take(0) =~= Seq::<Stmt>::empty());
    while rest.len() > 0
        invariant
            vv == v,
            orig == vv@,
            !opt_stmts_traps(gstmts(orig)),
            rest@ == orig.skip(out@.len() as int).reverse(),
            out@.len() <= orig.len(),
            gstmts(out@) == opt_gstmts(gstmts(orig.take(out@.len() as int))),
        decreases rest@.len(),
    {
        let ghost k = out@.len() as int;
        let ghost out0 = out@;
        let x = rest.pop().unwrap();
        assert(x == orig[k]);
        assert(decreases_to!(vv => vv[k]));
        proof {
            lemma_stmts_no_trap(orig, k);
        }
        let y = opt_stmt(x);
        out.push(y);
        proof {
            assert(orig.take(k + 1).subrange(0, k) =~= orig.take(k));
            let gx = gstmts(orig.take(k));
            assert(gx.push(gstmt(x)).subrange(0, gx.len() as int) =~= gx);
            assert(out@.subrange(0, k) =~= out0);
        }
        assert(rest@ =~= orig.skip(k + 1).reverse());
    }
    assert(orig.take(orig.len() as int) =~= orig);
    out
}

// ---------------------------------------------------------------------------
// Constant propagation, executable
// ---------------------------------------------------------------------------

/// The constants a log of bindings records: each entry sets a name to a constant or
/// (with none) forgets it, later entries over earlier ones.
pub open spec fn log_map(v: Seq<(String, Option<i64>)>) -> Map<Seq<char>, i64>
    decreases v,
{
    if v.len() == 0 {
        Map::empty()
    } else {
        let m = log_map(v.subrange(0, v.len() - 1));
        match v[v.len() - 1].1 {
            Some(c) => m.insert(v[v.len() - 1].0@, c),
            None => m.remove(v[v.len() - 1].0@),
        }
    }
}

/// Records that `name` holds `c` (or, with none, nothing known).
fn log_set(log: &mut Vec<(String, Option<i64>)>, name: &String, c: Option<i64>)
    ensures
        final(log)@.len() == old(log)@.len() + 1,
        final(log)@.subrange(0, old(log)@.len() as int) == old(log)@,
        log_map(final(log)@) == match c {
            Some(x) => log_map(old(log)@).insert(name@, x),
            None => log_map(old(log)@).remove(name@),
        },
{
    let ghost l0 = log@;
    log.push((name.clone(), c));
    assert(log@.subrange(0, log@.len() - 1) =~= l0);
}

/// The constant recorded for `name`, if any.
fn log_get(log: &Vec<(String, Option<i64>)>, name: &String) -> (r: Option<i64>)
    ensures
        r == (if log_map(log@).contains_key(name@) {
            Some(log_map(log@)[name@])
        } else {
            None
        }),
{
    let mut j: usize = log.len();
    assert(log@.take(j as int) =~= log@);
    while j > 0
        invariant
            j <= log@.len(),
            log_map(log@).contains_key(name@) == log_map(log@.take(j as int)).contains_key(name@),
            log_map(log@).contains_key(name@) ==> log_map(log@)[name@] == log_map(
                log@.take(j as int),
            )[name@],
        decreases j,
    {
        j = j - 1;
        assert(log@.take(j as int + 1).subrange(0, j as int) =~= log@.take(j as int));
        if log[j].0 == *name {
            return log[j].1;
        }
    }
    assert(log@.take(0) =~= Seq::<(String, Option<i64>)>::empty());
    None
}

/// Forgets the names that statement `s` binds or assigns, at any depth; the log only
/// grows.
fn forget_stmt_in(log: &mut Vec<(String, Option<i64>)>, s: &Stmt)
    ensures
        log_map(final(log)@) == forget_stmt_deep(log_map(old(log)@), gstmt(*s)),
        old(log)@.len() <= final(log)@.len(),
        final(log)@.subrange(0, old(log)@.len() as int) == old(log)@,
    decreases s,
{
    match s {
        Stmt::Let { name, .. } | Stmt::Assign { name, .. } => log_set(log, name, None),
        Stmt::While(_, body) => forget_stmts_in(log, body),
        Stmt::For { var, body, .. } => {
            let ghost l0 = log@;
            log_set(log, var, None);
            let ghost l1 = log@;
            forget_stmts_in(log, body);
            assert(log@.subrange(0, l0.len() as int) =~= l1.subrange(0, l0.len() as int));
        },
        Stmt::If { then_block, else_block, .. } => {
            let ghost l0 = log@;
            forget_stmts_in(log, then_block);
            let ghost l1 = log@;
            match else_block {
                Some(b) => {
                    forget_stmts_in(log, b);
                    assert(log@.subrange(0, l0.len() as int) =~= l1.subrange(0, l0.len() as int));
                },
                None => {},
            }
        },
        Stmt::Block(v) => forget_stmts_in(log, v),
        _ => {},
    }
}

/// Forgets the names that the statements of `body` bind or assign, at any depth; the
/// log only grows.
fn forget_stmts_in(log: &mut Vec<(String, Option<i64>)>, body: &Vec<Stmt>)
    ensures
        log_map(final(log)@) == forget_deep(log_map(old(log)@), gstmts(body@)),
        old(log)@.len() <= final(log)@.len(),
        final(log)@.subrange(0, old(log)@.len() as int) == old(log)@,
    decreases body,
{
    let ghost m0 = log_map(log@);
    let ghost l0 = log@;
    let mut i: usize = 0;
    assert(body@.take(0) =~= Seq::<Stmt>::empty());
    while i < body.len()
        invariant
            i <= body@.len(),
            log_map(log@) == forget_deep(m0, gstmts(body@.take(i as int))),
            l0.len() <= log@.len(),
            log@.subrange(0, l0.len() as int) == l0,
        decreases body@.len() - i,
    {
        proof {
            assert(body@.take(i as int + 1).subrange(0, i as int) =~= body@.take(i as int));
            let gx = gstmts(body@.take(i as int));
            assert(gx.push(gstmt(body@[i as int])).subrange(0, gx.len() as int) =~= gx);
        }
        assert(decreases_to!(body => body@[i as int]));
        let ghost lb = log@;
        forget_stmt_in(log, &body[i]);
        assert(log@.subrange(0, l0.len() as int) =~= lb.subrange(0, l0.len() as int));
        i = i + 1;
    }
    assert(body@.take(body@.len() as int) =~= body@);
}

/// No top-level binding's value overflows when the block's do not.
proof fn lemma_props_no_trap(v: Seq<Stmt>, i: int)
    requires
        0 <= i < v.len(),
        !props_trap(gstmts(v)),
    ensures
        match gstmt(v[i]) {
            GStmt::Let(_, _, _, val) => !gconst_traps(val),
            GStmt::Assign(_, val) => !gconst_traps(val),
            _ => true,
        },
    decreases v.len(),
{
    let u = v.subrange(0, v.len() - 1);
    assert(gstmts(v).subrange(0, gstmts(v).len() - 1) =~= gstmts(u));
    if i < v.len() - 1 {
        lemma_props_no_trap(u, i);
    }
}

/// No top-level statement overflows under the constants before it when the program
/// does not.
proof fn lemma_prog_no_trap(v: Seq<Stmt>, i: int)
    requires
        0 <= i < v.len(),
        !prop_program_traps(gstmts(v)),
    ensures
        !prop_stmt_traps(gstmt(v[i]), const_props(gstmts(v.subrange(0, i)))),
    decreases v.len(),
{
    let u = v.subrange(0, v.len() - 1);
    assert(gstmts(v).subrange(0, gstmts(v).len() - 1) =~= gstmts(u));
    if i < v.len() - 1 {
        lemma_prog_no_trap(u, i);
        assert(u.subrange(0, i) =~= v.subrange(0, i));
    } else {
        assert(v.subrange(0, i) =~= u);
    }
}

/// Replaces the recorded constants in an expression.
fn propagate_expr(e: Expr, log: &Vec<(String, Option<i64>)>) -> (r: Expr)
    requires
        !prop_traps(gexpr(e), log_map(log@)),
    ensures
        gexpr(r) == prop_gexpr(gexpr(e), log_map(log@)),
    decreases e,
{
    match e {
        Expr::Ident(name) => match log_get(log, &name) {
            Some(v) => Expr::Integer(v),
            None => Expr::Ident(name),
        },
        Expr::Binary(l, op, r) => {
            let l = propagate_expr(*l, log);
            let r = propagate_expr(*r, log);
            opt_binary(l, op, r)
        },
        Expr::Unary(op, x) => Expr::Unary(op, Box::new(propagate_expr(*x, log))),
        Expr::Call(n, args) => Expr::Call(n, prop_exprs(args, log)),
        Expr::TailCall(n, args) => Expr::TailCall(n, prop_exprs(args, log)),
        Expr::If(c, t, el) => {
            let c2 = propagate_expr(*c, log);
            let t2 = propagate_expr(*t, log);
            let e2 = match el {
                Some(x) => Some(Box::new(propagate_expr(*x, log))),
                None => None,
            };
            Expr::If(Box::new(c2), Box::new(t2), e2)
        },
        Expr::StructLiteral { struct_name, fields } => Expr::StructLiteral {
            struct_name,
            fields: prop_fields(fields, log),
        },
        other => other,
    }
}

/// No expression of a list overflows when the list does not.
proof fn lemma_prop_list_no_trap(v: Seq<Expr>, i: int, m: Map<Seq<char>, i64>)
    requires
        0 <= i < v.len(),
        !prop_traps_list(gexprs(v), m),
    ensures
        !prop_traps(gexpr(v[i]), m),
    decreases v.len(),
{
    let u = v.subrange(0, v.len() - 1);
    assert(gexprs(v).subrange(0, gexprs(v).len() - 1) =~= gexprs(u));
    if i < v.len() - 1 {
        lemma_prop_list_no_trap(u, i, m);
    }
}

/// Replaces the recorded constants in each expression of a list.
fn prop_exprs(v: Vec<Expr>, log: &Vec<(String, Option<i64>)>) -> (w: Vec<Expr>)
    requires
        !prop_traps_list(gexprs(v@), log_map(log@)),
    ensures
        gexprs(w@) == prop_gexprs(gexprs(v@), log_map(log@)),
    decreases v,
{
    let ghost vv = v;
    let ghost orig = v@;
    let ghost m = log_map(log@);
    let mut rest = reversed(v);
    let mut out: Vec<Expr> = Vec::new();
    assert(orig.take(0) =~= Seq::<Expr>::empty());
    while rest.len() > 0
        invariant
            vv == v,
            orig == vv@,
            m == log_map(log@),
            !prop_traps_list(gexprs(orig), m),
            rest@ == orig.skip(out@.len() as int).reverse(),
            out@.len() <= orig.len(),
            gexprs(out@) == prop_gexprs(gexprs(orig.take(out@.len() as int)), m),
        decreases rest@.len(),
    {
        let ghost k = out@.len() as int;
        let ghost out0 = out@;
        let x = rest.pop().unwrap();
        assert(x == orig[k]);
        assert(decreases_to!(vv => vv[k]));
        proof {
            lemma_prop_list_no_trap(orig, k, m);
        }
        let y = propagate_expr(x, log);
        out.push(y);
        proof {
            assert(orig.take(k + 1).subrange(0, k) =~= orig.take(k));
            let gx = gexprs(orig.take(k));
            assert(gx.push(gexpr(x)).subrange(0, gx.len() as int) =~= gx);
            assert(out@.subrange(0, k) =~= out0);
        }
        assert(rest@ =~= orig.skip(k + 1).reverse());
    }
    assert(orig.take(orig.len() as int) =~= orig);
    out
}

/// No struct-literal value overflows when the fields do not.
proof fn lemma_prop_fields_no_trap(v: Seq<(String, Expr)>, i: int, m: Map<Seq<char>, i64>)
    requires
        0 <= i < v.len(),
        !prop_traps_fields(gfields(v), m),
    ensures
        !prop_traps(gexpr(v[i].1), m),
    decreases v.len(),
{
    let u = v.subrange(0, v.len() - 1);
    assert(gfields(v).subrange(0, gfields(v).len() - 1) =~= gfields(u));
    if i < v.len() - 1 {
        lemma_prop_fields_no_trap(u, i, m);
    }
}

/// Replaces the recorded constants in the values of struct-literal fields.
fn prop_fields(v: Vec<(String, Expr)>, log: &Vec<(String, Option<i64>)>) -> (w: Vec<(String, Expr)>)
    requires
        !prop_traps_fields(gfields(v@), log_map(log@)),
    ensures
        gfields(w@) == prop_gfields(gfields(v@), log_map(log@)),
    decreases v,
{
    let ghost vv = v;
    let ghost orig = v@;
    let ghost m = log_map(log@);
    let mut rest = reversed(v);
    let mut out: Vec<(String, Expr)> = Vec::new();
    assert(orig.take(0) =~= Seq::<(String, Expr)>::empty());
    while rest.len() > 0
        invariant
            vv == v,
            orig == vv@,
            m == log_map(log@),
            !prop_traps_fields(gfields(orig), m),
            rest@ == orig.skip(out@.len() as int).reverse(),
            out@.len() <= orig.len(),
            gfields(out@) == prop_gfields(gfields(orig.take(out@.len() as int)), m),
        decreases rest@.len(),
    {
        let ghost k = out@.len() as int;
        let ghost out0 = out@;
        let (n, x) = rest.pop().unwrap();
        assert(x == orig[k].1);
        assert(decreases_to!(vv => vv[k]));
        assert(decreases_to!(vv[k] => vv[k].1));
        proof {
            lemma_prop_fields_no_trap(orig, k, m);
        }
        let y = propagate_expr(x, log);
        out.push((n, y));
        proof {
            assert(orig.take(k + 1).subrange(0, k) =~= orig.take(k));
            let gx = gfields(orig.take(k));
            assert(gx.push((orig[k].0@, gexpr(x))).subrange(0, gx.len() as int) =~= gx);
            assert(out@.subrange(0, k) =~= out0);
        }
        assert(rest@ =~= orig.skip(k + 1).reverse());
    }
    assert(orig.take(orig.len() as int) =~= orig);
    out
}

/// Replaces the recorded constants in a statement. A loop, an `if` or a block forgets
/// the names it binds or assigns first; with `keep` the log is left forgetting them,
/// otherwise it is given back as it was.
fn propagate_stmt(s: Stmt, log: &mut Vec<(String, Option<i64>)>, keep: bool) -> (r: Stmt)
    requires
        !prop_stmt_traps(gstmt(s), log_map(old(log)@)),
    ensures
        gstmt(r) == prop_gstmt(gstmt(s), log_map(old(log)@)),
        keep ==> log_map(final(log)@) == if is_compound(gstmt(s)) {
            forget_stmt_deep(log_map(old(log)@), gstmt(s))
        } else {
            log_map(old(log)@)
        },
        !keep ==> final(log)@ == old(log)@,
    decreases s,
{
    let ghost gs = gstmt(s);
    let ghost l0 = log@;
    let n0 = log.len();
    match s {
        Stmt::Let { name, type_ann, mutable, value } => Stmt::Let {
            name,
            type_ann,
            mutable,
            value: propagate_expr(value, log),
        },
        Stmt::Assign { name, value } => Stmt::Assign { name, value: propagate_expr(value, log) },
        Stmt::FieldAssign { obj, field, value } => Stmt::FieldAssign {
            obj,
            field,
            value: propagate_expr(value, log),
        },
        Stmt::Expr(e) => Stmt::Expr(propagate_expr(e, log)),
        Stmt::Return(e) => Stmt::Return(
            match e {
                Some(x) => Some(propagate_expr(x, log)),
                None => None,
            },
        ),
        Stmt::Print(e) => Stmt::Print(propagate_expr(e, log)),
        Stmt::PrintLn(e) => Stmt::PrintLn(propagate_expr(e, log)),
        Stmt::While(cond, body) => {
            forget_stmts_in(log, &body);
            let c = propagate_expr(cond, log);
            let b = prop_stmts(body, log);
            if !keep {
                log.truncate(n0);
            }
            Stmt::While(c, b)
        },
        Stmt::For { var, iterable, body } => {
            let it = propagate_expr(iterable, log);
            let ghost la = log@;
            log_set(log, &var, None);
            let ghost lb = log@;
            forget_stmts_in(log, &body);
            assert(log@.subrange(0, la.len() as int) =~= lb.subrange(0, la.len() as int));
            let b = prop_stmts(body, log);
            if !keep {
                log.truncate(n0);
            }
            Stmt::For { var, iterable: it, body: b }
        },
        Stmt::If { cond, then_block, else_block } => {
            let c = propagate_expr(cond, log);
            forget_stmts_in(log, &then_block);
            let ghost lb = log@;
            match &else_block {
                Some(b) => {
                    forget_stmts_in(log, b);
                    assert(log@.subrange(0, l0.len() as int) =~= lb.subrange(0, l0.len() as int));
                },
                None => {},
            }
            let t = prop_stmts(then_block, log);
            let el = match else_block {
                Some(b) => Some(prop_stmts(b, log)),
                None => None,
            };
            if !keep {
                log.truncate(n0);
            }
            Stmt::If { cond: c, then_block: t, else_block: el }
        },
        Stmt::Block(v) => {
            forget_stmts_in(log, &v);
            let w = prop_stmts(v, log);
            if !keep {
                log.truncate(n0);
            }
            Stmt::Block(w)
        },
        other => other,
    }
}

/// No statement of a block overflows when the block does not.
proof fn lemma_prop_stmts_no_trap(v: Seq<Stmt>, i: int, m: Map<Seq<char>, i64>)
    requires
        0 <= i < v.len(),
        !prop_stmts_traps(gstmts(v), m),
    ensures
        !prop_stmt_traps(gstmt(v[i]), m),
    decreases v.len(),
{
    let u = v.subrange(0, v.len() - 1);
    assert(gstmts(v).subrange(0, gstmts(v).len() - 1) =~= gstmts(u));
    if i < v.len() - 1 {
        lemma_prop_stmts_no_trap(u, i, m);
    }
}

/// Replaces the recorded constants in each statement of a block.
fn prop_stmts(v: Vec<Stmt>, log: &mut Vec<(String, Option<i64>)>) -> (w: Vec<Stmt>)
    requires
        !prop_stmts_traps(gstmts(v@), log_map(old(log)@)),
    ensures
        gstmts(w@) == prop_gstmts(gstmts(v@), log_map(old(log)@)),
        final(log)@ == old(log)@,
    decreases v,
{
    let ghost vv = v;
    let ghost orig = v@;
    let ghost l0 = log@;
    let ghost m = log_map(log@);
    let mut rest = reversed(v);
    let mut out: Vec<Stmt> = Vec::new();
    assert(orig.take(0) =~= Seq::<Stmt>::empty());
    while rest.len() > 0
        invariant
            vv == v,
            orig == vv@,
            log@ == l0,
            m == log_map(log@),
            !prop_stmts_traps(gstmts(orig), m),
            rest@ == orig.skip(out@.len() as int).reverse(),
            out@.len() <= orig.len(),
            gstmts(out@) == prop_gstmts(gstmts(orig.take(out@.len() as int)), m),
        decreases rest@.len(),
    {
        let ghost k = out@.len() as int;
        let ghost out0 = out@;
        let x = rest.pop().unwrap();
        assert(x == orig[k]);
        assert(decreases_to!(vv => vv[k]));
        proof {
            lemma_prop_stmts_no_trap(orig, k, m);
        }
        let y = propagate_stmt(x, log, false);
        out.push(y);
        proof {
            assert(orig.take(k + 1).subrange(0, k) =~= orig.take(k));
            let gx = gstmts(orig.take(k));
            assert(gx.push(gstmt(x)).subrange(0, gx.len() as int) =~= gx);
            assert(out@.subrange(0, k) =~= out0);
        }
        assert(rest@ =~= orig.skip(k + 1).reverse());
    }
    assert(orig.take(orig.len() as int) =~= orig);
    out
}

/// Replaces constants in the top-level statements, in order: each statement under the
/// constants known just before it.
#[verifier::rlimit(50)]
fn prop_program_stmts(v: Vec<Stmt>) -> (w: Vec<Stmt>)
    requires
        !props_trap(gstmts(v@)),
        !prop_program_traps(gstmts(v@)),
    ensures
        gstmts(w@) == prop_program(gstmts(v@)),
{
    let ghost orig = v@;
    let mut log: Vec<(String, Option<i64>)> = Vec::new();
    let mut rest = reversed(v);
    let mut out: Vec<Stmt> = Vec::new();
    assert(orig.take(0) =~= Seq::<Stmt>::empty());
    while rest.len() > 0
        invariant
            !props_trap(gstmts(orig)),
            !prop_program_traps(gstmts(orig)),
            rest@ == orig.skip(out@.len() as int).reverse(),
            out@.len() <= orig.len(),
            log_map(log@) == const_props(gstmts(orig.take(out@.len() as int))),
            gstmts(out@) == prop_program(gstmts(orig.take(out@.len() as int))),
        decreases rest@.len(),
    {
        let ghost k = out@.len() as int;
        let ghost out0 = out@;
        let ghost m = log_map(log@);
        let x = rest.pop().unwrap();
        assert(x == orig[k]);
        proof {
            lemma_prog_no_trap(orig, k);
            lemma_props_no_trap(orig, k);
            assert(orig.subrange(0, k) =~= orig.take(k));
            assert(orig.take(k + 1).subrange(0, k) =~= orig.take(k));
            let gx = gstmts(orig.take(k));
            assert(gx.push(gstmt(x)).subrange(0, gx.len() as int) =~= gx);
            assert(gstmts(orig.take(k + 1)) == gx.push(gstmt(x)));
        }
        let upd: Option<(String, Option<i64>)> = match &x {
            Stmt::Let { name, value, .. } | Stmt::Assign { name, value } => Some((name.clone(), eval_const(value))),
            _ => None,
        };
        let y = propagate_stmt(x, &mut log, true);
        match upd {
            Some((n, c)) => log_set(&mut log, &n, c),
            None => {},
        }
        out.push(y);
        proof {
            assert(out@.subrange(0, k) =~= out0);
        }
        assert(rest@ =~= orig.skip(k + 1).reverse());
    }
    assert(orig.take(orig.len() as int) =~= orig);
    out
}

/// Folds, propagates the constants of the top-level bindings, and folds again.
pub fn fold_constants(stmts: Vec<Stmt>) -> (r: Vec<Stmt>)
    requires
        !fold_program_traps(gstmts(stmts@)),
    ensures
        gstmts(r@) == fold_program(gstmts(stmts@)),
{
    let s1 = opt_stmts(stmts);
    let s2 = prop_program_stmts(s1);
    opt_stmts(s2)
}

} // verus!
