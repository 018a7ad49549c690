//! Rewrites of the syntax tree before native code generation: marking tail calls,
//! finding the variables a program reads, evaluating constant expressions and sharing
//! common subexpressions.
use vstd::prelude::*;
use vstd::wrapping::i64_specs;
use crate::ast::{BinOp, Expr, FloatLit, Stmt, UnaryOp};
use crate::bytecode::{float_bits_eq, float_bits_equal};
use crate::ast_view::gstmts;
use crate::const_fold::{fold_constants, fold_program, fold_program_traps};

verus! {

/// A call becomes a tail call; anything else stays.
pub open spec fn tail_expr(e: Expr) -> Expr {
    match e {
        Expr::Call(name, args) => Expr::TailCall(name, args),
        _ => e,
    }
}

/// `r` is statement `s` with the calls in its tail positions marked: the value of a
/// `return` or of an expression statement, and recursively the last statements of both
/// branches of an `if` and of a block. Loops are no tail positions.
pub open spec fn tail_stmt(s: Stmt, r: Stmt) -> bool
    decreases s, 1nat,
{
    match s {
        Stmt::Return(Some(e)) => r == Stmt::Return(Some(tail_expr(e))),
        Stmt::Expr(e) => r == Stmt::Expr(tail_expr(e)),
        Stmt::If { cond, then_block, else_block } => r matches Stmt::If {
            cond: c2,
            then_block: t2,
            else_block: e2,
        } && c2 == cond && tail_block(then_block, t2) && match (else_block, e2) {
            (Some(a), Some(b)) => tail_block(a, b),
            (None, None) => true,
            _ => false,
        },
        Stmt::Block(v) => r matches Stmt::Block(w) && tail_block(v, w),
        _ => r == s,
    }
}

/// `w` is block `v` with the tail calls of its last statement marked, the other
/// statements unchanged.
pub open spec fn tail_block(v: Vec<Stmt>, w: Vec<Stmt>) -> bool
    decreases v, 0nat,
{
    &&& w.len() == v.len()
    &&& forall|i: int| 0 <= i < v.len() - 1 ==> #[trigger] w[i] == v[i]
    &&& v.len() > 0 ==> tail_stmt(v[v.len() - 1], w[w.len() - 1])
}

/// `r` is top-level statement `s` after tail calls are marked: in the body of a function
/// definition and of each method of an `impl`; other statements stay.
pub open spec fn tail_top(s: Stmt, r: Stmt) -> bool {
    match s {
        Stmt::FnDef { name, params, return_type, body } => r matches Stmt::FnDef {
            name: n2,
            params: p2,
            return_type: t2,
            body: b2,
        } && n2 == name && p2 == params && t2 == return_type && tail_block(body, b2),
        Stmt::ImplBlock { impl_type, methods } => r matches Stmt::ImplBlock {
            impl_type: i2,
            methods: m2,
        } && i2 == impl_type && m2.len() == methods.len() && forall|i: int|
            0 <= i < methods.len() ==> tail_method(#[trigger] methods[i], m2[i]),
        _ => r == s,
    }
}

/// `r` is method `s` after tail calls are marked in its body (when it is a function).
pub open spec fn tail_method(s: Stmt, r: Stmt) -> bool {
    match s {
        Stmt::FnDef { name, params, return_type, body } => r matches Stmt::FnDef {
            name: n2,
            params: p2,
            return_type: t2,
            body: b2,
        } && n2 == name && p2 == params && t2 == return_type && tail_block(body, b2),
        _ => r == s,
    }
}

/// The elements of `v` in reverse order.
pub(crate) fn reversed<T>(v: Vec<T>) -> (r: Vec<T>)
    ensures
        r@ == v@.reverse(),
{
    let mut v = v;
    let ghost orig = v@;
    let mut r: Vec<T> = Vec::new();
    while v.len() > 0
        invariant
            v@ == orig.take(v@.len() as int),
            r@ == orig.skip(v@.len() as int).reverse(),
            v@.len() <= orig.len(),
        decreases v@.len(),
    {
        let ghost n = v@.len();
        let x = v.pop().unwrap();
        r.push(x);
        assert(v@ =~= orig.take(n - 1));
        assert(r@ =~= orig.skip(n - 1).reverse());
    }
    assert(orig.skip(0) =~= orig);
    r
}

/// Marks a call as a tail call.
fn mark_tail_expr(e: Expr) -> (r: Expr)
    ensures
        r == tail_expr(e),
{
    match e {
        Expr::Call(name, args) => Expr::TailCall(name, args),
        other => other,
    }
}

/// Marks the tail calls of the last statement of a block.
fn mark_tail_in_block(stmts: Vec<Stmt>) -> (r: Vec<Stmt>)
    ensures
        tail_block(stmts, r),
    decreases stmts, 1nat,
{
    let mut stmts = stmts;
    let ghost v = stmts;
    if stmts.len() == 0 {
        return stmts;
    }
    let last = stmts.pop().unwrap();
    assert(decreases_to!(v => v[v.len() - 1]));
    let marked = mark_tail_in_stmt(last);
    stmts.push(marked);
    assert(forall|i: int| 0 <= i < v.len() - 1 ==> stmts[i] == v[i]);
    stmts
}

/// Marks the tail calls of a statement.
fn mark_tail_in_stmt(s: Stmt) -> (r: Stmt)
    ensures
        tail_stmt(s, r),
    decreases s, 0nat,
{
    let ghost s0 = s;
    match s {
        Stmt::Return(Some(e)) => Stmt::Return(Some(mark_tail_expr(e))),
        Stmt::Expr(e) => Stmt::Expr(mark_tail_expr(e)),
        Stmt::If { cond, then_block, else_block } => {
            let then_block = mark_tail_in_block(then_block);
            let else_block = match else_block {
                Some(b) => Some(mark_tail_in_block(b)),
                None => None,
            };
            Stmt::If { cond, then_block, else_block }
        },
        Stmt::Block(v) => Stmt::Block(mark_tail_in_block(v)),
        other => other,
    }
}

/// `r` is block `stmts` with the tail calls of each top-level statement marked.
pub open spec fn tail_result(stmts: Vec<Stmt>, r: Vec<Stmt>) -> bool {
    r.len() == stmts.len() && forall|i: int| 0 <= i < stmts.len() ==> tail_top(#[trigger] stmts[i], r[i])
}

/// Marks the calls in tail position in the bodies of functions and methods, which the
/// native back end turns into jumps. Loop bodies hold no tail positions, and statements
/// outside functions are left alone.
pub fn tail_call_optimize(stmts: Vec<Stmt>) -> (r: Vec<Stmt>)
    ensures
        tail_result(stmts, r),
{
    let ghost orig = stmts;
    let mut rest = reversed(stmts);
    let mut result: Vec<Stmt> = Vec::new();
    while rest.len() > 0
        invariant
            rest@ == orig@.skip(result@.len() as int).reverse(),
            result@.len() <= orig@.len(),
            forall|i: int| 0 <= i < result@.len() ==> tail_top(#[trigger] orig@[i], result@[i]),
        decreases rest@.len(),
    {
        let ghost k = result@.len();
        let stmt = rest.pop().unwrap();
        assert(stmt == orig@[k as int]);
        let new_stmt = match stmt {
            Stmt::FnDef { name, params, return_type, body } => {
                let body = mark_tail_in_block(body);
                Stmt::FnDef { name, params, return_type, body }
            },
            Stmt::ImplBlock { impl_type, methods } => {
                let ghost ms = methods;
                let mut mrest = reversed(methods);
                let mut out: Vec<Stmt> = Vec::new();
                while mrest.len() > 0
                    invariant
                        mrest@ == ms@.skip(out@.len() as int).reverse(),
                        out@.len() <= ms@.len(),
                        forall|i: int| 0 <= i < out@.len() ==> tail_method(#[trigger] ms@[i], out@[i]),
                    decreases mrest@.len(),
                {
                    let ghost j = out@.len();
                    let m = mrest.pop().unwrap();
                    assert(m == ms@[j as int]);
                    let nm = match m {
                        Stmt::FnDef { name, params, return_type, body } => {
                            let body = mark_tail_in_block(body);
                            Stmt::FnDef { name, params, return_type, body }
                        },
                        other => other,
                    };
                    out.push(nm);
                    assert(mrest@ =~= ms@.skip(out@.len() as int).reverse());
                }
                Stmt::ImplBlock { impl_type, methods: out }
            },
            other => other,
        };
        result.push(new_stmt);
        assert(rest@ =~= orig@.skip(result@.len() as int).reverse());
    }
    result
}

/// The names read by an expression, as far as the analysis looks: variables in
/// operators, call arguments, `if` expressions and struct literals.
pub open spec fn expr_names(e: Expr) -> Set<Seq<char>>
    decreases e, 0nat,
{
    match e {
        Expr::Ident(name) => set![name@],
        Expr::Binary(l, _, r) => expr_names(*l) + expr_names(*r),
        Expr::Unary(_, inner) => expr_names(*inner),
        Expr::Call(_, args) => args_names(args, args.len() as int),
        Expr::TailCall(_, args) => args_names(args, args.len() as int),
        Expr::If(c, t, el) => expr_names(*c) + expr_names(*t) + match el {
            Some(x) => expr_names(*x),
            None => Set::empty(),
        },
        Expr::StructLiteral { fields, .. } => field_names(fields, fields.len() as int),
        _ => Set::empty(),
    }
}

/// The names read by the first `k` arguments.
pub open spec fn args_names(args: Vec<Expr>, k: int) -> Set<Seq<char>>
    decreases args, k,
{
    if k <= 0 || k > args.len() {
        Set::empty()
    } else {
        args_names(args, k - 1) + expr_names(args[k - 1])
    }
}

/// The names read by the values of the first `k` fields of a struct literal.
pub open spec fn field_names(fields: Vec<(String, Expr)>, k: int) -> Set<Seq<char>>
    decreases fields, k,
{
    if k <= 0 || k > fields.len() {
        Set::empty()
    } else {
        field_names(fields, k - 1) + expr_names(fields[k - 1].1)
    }
}

/// The names read by a statement: the values of bindings, assignments, expression
/// statements, prints and returns, and the conditions and bodies of loops, `if` and
/// blocks.
pub open spec fn stmt_names(s: Stmt) -> Set<Seq<char>>
    decreases s, 0nat,
{
    match s {
        Stmt::Let { value, .. } => expr_names(value),
        Stmt::Assign { value, .. } => expr_names(value),
        Stmt::Expr(e) => expr_names(e),
        Stmt::Print(e) => expr_names(e),
        Stmt::PrintLn(e) => expr_names(e),
        Stmt::Return(Some(v)) => expr_names(v),
        Stmt::While(cond, body) => expr_names(cond) + stmts_names(body, body.len() as int),
        Stmt::For { iterable, body, .. } => expr_names(iterable) + stmts_names(body, body.len() as int),
        Stmt::If { cond, then_block, else_block } => expr_names(cond) + stmts_names(
            then_block,
            then_block.len() as int,
        ) + match else_block {
            Some(b) => stmts_names(b, b.len() as int),
            None => Set::empty(),
        },
        Stmt::Block(stmts) => stmts_names(stmts, stmts.len() as int),
        Stmt::FieldAssign { value, .. } => expr_names(value),
        _ => Set::empty(),
    }
}

/// The names read by the first `k` statements.
pub open spec fn stmts_names(stmts: Vec<Stmt>, k: int) -> Set<Seq<char>>
    decreases stmts, k,
{
    if k <= 0 || k > stmts.len() {
        Set::empty()
    } else {
        stmts_names(stmts, k - 1) + stmt_names(stmts[k - 1])
    }
}

/// The texts of a list of names.
pub open spec fn name_texts(v: Seq<String>) -> Seq<Seq<char>> {
    v.map_values(|s: String| s@)
}

/// Adds `name` to a list of distinct names unless it is there.
fn add_name(used: &mut Vec<String>, name: &String)
    requires
        name_texts(old(used)@).no_duplicates(),
    ensures
        name_texts(final(used)@).no_duplicates(),
        name_texts(final(used)@).to_set() == name_texts(old(used)@).to_set().insert(name@),
{
    let ghost t0 = name_texts(used@);
    let mut i: usize = 0;
    while i < used.len()
        invariant
            i <= used.len(),
            used@ == old(used)@,
            t0 == name_texts(used@),
            t0.no_duplicates(),
            forall|j: int| 0 <= j < i ==> t0[j] != name@,
        decreases used.len() - i,
    {
        if used[i] == *name {
            assert(t0[i as int] == name@);
            assert(t0.contains(name@));
            assert(t0.to_set().insert(name@) =~= t0.to_set());
            return;
        }
        i = i + 1;
    }
    let nm = name.clone();
    used.push(nm);
    assert(name_texts(used@) =~= t0.push(name@));
    assert(!t0.contains(name@));
    proof {
        t0.lemma_push_to_set_commute(name@);
    }
}

/// Collects the names an expression reads.
fn walk_expr(e: &Expr, used: &mut Vec<String>)
    requires
        name_texts(old(used)@).no_duplicates(),
    ensures
        name_texts(final(used)@).no_duplicates(),
        name_texts(final(used)@).to_set() == name_texts(old(used)@).to_set() + expr_names(*e),
    decreases e, 0nat,
{
    let ghost t0 = name_texts(used@).to_set();
    match e {
        Expr::Ident(name) => {
            add_name(used, name);
            assert(t0.insert(name@) =~= t0 + set![name@]);
        },
        Expr::Binary(l, _, r) => {
            walk_expr(l, used);
            walk_expr(r, used);
            assert(name_texts(used@).to_set() =~= t0 + expr_names(*e));
        },
        Expr::Unary(_, inner) => walk_expr(inner, used),
        Expr::Call(_, args) | Expr::TailCall(_, args) => {
            let mut i: usize = 0;
            while i < args.len()
                invariant
                    i <= args.len(),
                    name_texts(used@).no_duplicates(),
                    name_texts(used@).to_set() == t0 + args_names(*args, i as int),
                    e is Call ==> *args == e->Call_1,
                    e is TailCall ==> *args == e->TailCall_1,
                    e is Call || e is TailCall,
                decreases args.len() - i,
            {
                assert(decreases_to!(*args => args[i as int]));
                assert(decreases_to!(*e => *args));
                walk_expr(&args[i], used);
                assert(name_texts(used@).to_set() =~= t0 + args_names(*args, i as int + 1));
                i = i + 1;
            }
            assert(name_texts(used@).to_set() =~= t0 + expr_names(*e));
        },
        Expr::If(c, t, el) => {
            walk_expr(c, used);
            walk_expr(t, used);
            match el {
                Some(x) => walk_expr(x, used),
                None => {},
            }
            assert(name_texts(used@).to_set() =~= t0 + expr_names(*e));
        },
        Expr::StructLiteral { fields, .. } => {
            let mut i: usize = 0;
            while i < fields.len()
                invariant
                    i <= fields.len(),
                    name_texts(used@).no_duplicates(),
                    name_texts(used@).to_set() == t0 + field_names(*fields, i as int),
                    *e == (Expr::StructLiteral { struct_name: e->struct_name, fields: *fields }),
                decreases fields.len() - i,
            {
                assert(decreases_to!(*fields => fields[i as int]));
                assert(*fields == e->StructLiteral_fields);
                assert(decreases_to!(*e => *fields));
                walk_expr(&fields[i].1, used);
                assert(name_texts(used@).to_set() =~= t0 + field_names(*fields, i as int + 1));
                i = i + 1;
            }
            assert(name_texts(used@).to_set() =~= t0 + expr_names(*e));
        },
        _ => {
            assert(name_texts(used@).to_set() =~= t0 + expr_names(*e));
        },
    }
}

/// Collects the names statements read.
fn walk_stmts(stmts: &Vec<Stmt>, used: &mut Vec<String>)
    requires
        name_texts(old(used)@).no_duplicates(),
    ensures
        name_texts(final(used)@).no_duplicates(),
        name_texts(final(used)@).to_set() == name_texts(old(used)@).to_set() + stmts_names(
            *stmts,
            stmts.len() as int,
        ),
    decreases stmts, 1nat,
{
    let ghost t0 = name_texts(used@).to_set();
    let mut i: usize = 0;
    while i < stmts.len()
        invariant
            i <= stmts.len(),
            name_texts(used@).no_duplicates(),
            name_texts(used@).to_set() == t0 + stmts_names(*stmts, i as int),
        decreases stmts.len() - i,
    {
        assert(decreases_to!(*stmts => stmts[i as int]));
        walk_stmt(&stmts[i], used);
        assert(name_texts(used@).to_set() =~= t0 + stmts_names(*stmts, i as int + 1));
        i = i + 1;
    }
}

/// Collects the names a statement reads.
fn walk_stmt(s: &Stmt, used: &mut Vec<String>)
    requires
        name_texts(old(used)@).no_duplicates(),
    ensures
        name_texts(final(used)@).no_duplicates(),
        name_texts(final(used)@).to_set() == name_texts(old(used)@).to_set() + stmt_names(*s),
    decreases s, 0nat,
{
    let ghost t0 = name_texts(used@).to_set();
    match s {
        Stmt::Let { value, .. } | Stmt::Assign { value, .. } | Stmt::FieldAssign { value, .. } => {
            walk_expr(value, used)
        },
        Stmt::Expr(e) | Stmt::Print(e) | Stmt::PrintLn(e) => walk_expr(e, used),
        Stmt::Return(Some(v)) => walk_expr(v, used),
        Stmt::While(cond, body) | Stmt::For { iterable: cond, body, .. } => {
            walk_expr(cond, used);
            walk_stmts(body, used);
            assert(name_texts(used@).to_set() =~= t0 + stmt_names(*s));
        },
        Stmt::If { cond, then_block, else_block } => {
            walk_expr(cond, used);
            walk_stmts(then_block, used);
            match else_block {
                Some(b) => walk_stmts(b, used),
                None => {},
            }
            assert(name_texts(used@).to_set() =~= t0 + stmt_names(*s));
        },
        Stmt::Block(stmts) => walk_stmts(stmts, used),
        _ => {
            assert(name_texts(used@).to_set() =~= t0 + stmt_names(*s));
        },
    }
}

/// The variables a program reads (each once), so that the back end need not reserve
/// stack room for the others.
pub fn get_used_variables(stmts: &Vec<Stmt>) -> (r: Vec<String>)
    ensures
        name_texts(r@).no_duplicates(),
        name_texts(r@).to_set() == stmts_names(*stmts, stmts.len() as int),
{
    let mut used: Vec<String> = Vec::new();
    assert(name_texts(used@) =~= Seq::empty());
    walk_stmts(stmts, &mut used);
    assert(name_texts(used@).to_set() =~= stmts_names(*stmts, stmts.len() as int));
    used
}

/// The value of a binary operator on two integers: wrapping arithmetic, truncating
/// division and remainder (none by zero), comparisons and logic giving 1 or 0; ranges
/// and concatenation have none.
pub open spec fn eval_binop(op: BinOp, lv: i64, rv: i64) -> Option<i64> {
    match op {
        BinOp::Add => Some(i64_specs::wrapping_add(lv, rv)),
        BinOp::Sub => Some(i64_specs::wrapping_sub(lv, rv)),
        BinOp::Mul => Some(i64_specs::wrapping_mul(lv, rv)),
        BinOp::Div => if rv != 0 {
            lv.checked_div(rv)
        } else {
            None
        },
        BinOp::Mod => if rv != 0 {
            lv.checked_rem(rv)
        } else {
            None
        },
        BinOp::Eq => Some(if lv == rv { 1 } else { 0 }),
        BinOp::Neq => Some(if lv != rv { 1 } else { 0 }),
        BinOp::Lt => Some(if lv < rv { 1 } else { 0 }),
        BinOp::Gt => Some(if lv > rv { 1 } else { 0 }),
        BinOp::Lte => Some(if lv <= rv { 1 } else { 0 }),
        BinOp::Gte => Some(if lv >= rv { 1 } else { 0 }),
        BinOp::And => Some(if lv != 0 && rv != 0 { 1 } else { 0 }),
        BinOp::Or => Some(if lv != 0 || rv != 0 { 1 } else { 0 }),
        _ => None,
    }
}

/// Whether the operator overflows: the smallest integer divided by -1, or its remainder.
pub open spec fn binop_traps(op: BinOp, lv: i64, rv: i64) -> bool {
    (op == BinOp::Div || op == BinOp::Mod) && lv == i64::MIN && rv == -1
}

/// The integer value of a constant expression: integers, booleans as 1 or 0, characters
/// as their code, and operators on such; none for anything else.
pub open spec fn const_value(e: Expr) -> Option<i64>
    decreases e,
{
    match e {
        Expr::Integer(n) => Some(n),
        Expr::Bool(b) => Some(if b { 1 } else { 0 }),
        Expr::Char(c) => Some(c as i64),
        Expr::Binary(l, op, r) => match const_value(*l) {
            Some(lv) => match const_value(*r) {
                Some(rv) => eval_binop(op, lv, rv),
                None => None,
            },
            None => None,
        },
        Expr::Unary(UnaryOp::Neg, inner) => match const_value(*inner) {
            Some(v) => Some(i64_specs::wrapping_sub(0, v)),
            None => None,
        },
        Expr::Unary(UnaryOp::Not, inner) => match const_value(*inner) {
            Some(v) => Some(if v == 0 { 1 } else { 0 }),
            None => None,
        },
        _ => None,
    }
}

/// Whether evaluating `e` reaches an overflowing division or remainder.
pub open spec fn const_traps(e: Expr) -> bool
    decreases e,
{
    match e {
        Expr::Binary(l, op, r) => const_traps(*l) || (const_value(*l) is Some && (const_traps(*r) || (
        const_value(*r) is Some && binop_traps(op, const_value(*l)->0, const_value(*r)->0)))),
        Expr::Unary(_, inner) => const_traps(*inner),
        _ => false,
    }
}

/// The value of a binary operator on two integers.
pub(crate) fn eval_binop_exec(op: &BinOp, lv: i64, rv: i64) -> (r: Option<i64>)
    requires
        !binop_traps(*op, lv, rv),
    ensures
        r == eval_binop(*op, lv, rv),
{
    match op {
        BinOp::Add => Some(lv.wrapping_add(rv)),
        BinOp::Sub => Some(lv.wrapping_sub(rv)),
        BinOp::Mul => Some(lv.wrapping_mul(rv)),
        BinOp::Div => if rv != 0 {
            lv.checked_div(rv)
        } else {
            None
        },
        BinOp::Mod => if rv != 0 {
            lv.checked_rem(rv)
        } else {
            None
        },
        BinOp::Eq => Some(if lv == rv { 1 } else { 0 }),
        BinOp::Neq => Some(if lv != rv { 1 } else { 0 }),
        BinOp::Lt => Some(if lv < rv { 1 } else { 0 }),
        BinOp::Gt => Some(if lv > rv { 1 } else { 0 }),
        BinOp::Lte => Some(if lv <= rv { 1 } else { 0 }),
        BinOp::Gte => Some(if lv >= rv { 1 } else { 0 }),
        BinOp::And => Some(if lv != 0 && rv != 0 { 1 } else { 0 }),
        BinOp::Or => Some(if lv != 0 || rv != 0 { 1 } else { 0 }),
        _ => None,
    }
}

/// The integer value of a constant expression (used by the back end to emit
/// immediates), or none.
pub fn try_eval_const(e: &Expr) -> (r: Option<i64>)
    requires
        !const_traps(*e),
    ensures
        r == const_value(*e),
    decreases e,
{
    match e {
        Expr::Integer(n) => Some(*n),
        Expr::Bool(b) => Some(if *b { 1 } else { 0 }),
        Expr::Char(c) => Some(*c as i64),
        Expr::Binary(l, op, r) => {
            let lv = match try_eval_const(l) {
                Some(v) => v,
                None => {
                    return None;
                },
            };
            let rv = match try_eval_const(r) {
                Some(v) => v,
                None => {
                    return None;
                },
            };
            eval_binop_exec(op, lv, rv)
        },
        Expr::Unary(UnaryOp::Neg, inner) => match try_eval_const(inner) {
            Some(v) => Some(0i64.wrapping_sub(v)),
            None => None,
        },
        Expr::Unary(UnaryOp::Not, inner) => match try_eval_const(inner) {
            Some(v) => Some(if v == 0 { 1 } else { 0 }),
            None => None,
        },
        _ => None,
    }
}

/// Whether an expression is pure enough to share: literals, variables and operators on
/// such.
pub open spec fn is_pure(e: Expr) -> bool
    decreases e,
{
    match e {
        Expr::Integer(_) | Expr::Float(_) | Expr::String(_) | Expr::Bool(_) | Expr::Char(_)
        | Expr::Ident(_) => true,
        Expr::Binary(l, _, r) => is_pure(*l) && is_pure(*r),
        Expr::Unary(_, inner) => is_pure(*inner),
        _ => false,
    }
}

/// Whether variable `name` occurs in an expression (through operators).
pub open spec fn has_var(e: Expr, name: Seq<char>) -> bool
    decreases e,
{
    match e {
        Expr::Ident(n) => n@ == name,
        Expr::Binary(l, _, r) => has_var(*l, name) || has_var(*r, name),
        Expr::Unary(_, inner) => has_var(*inner, name),
        _ => false,
    }
}

/// Whether two pure expressions are equal: the same shape, operators and values
/// (floating-point literals compared as numbers).
pub open spec fn same_pure(a: Expr, b: Expr) -> bool
    decreases a,
{
    match (a, b) {
        (Expr::Integer(x), Expr::Integer(y)) => x == y,
        (Expr::Float(x), Expr::Float(y)) => float_bits_eq(x.bits, y.bits),
        (Expr::String(x), Expr::String(y)) => x@ == y@,
        (Expr::Bool(x), Expr::Bool(y)) => x == y,
        (Expr::Char(x), Expr::Char(y)) => x == y,
        (Expr::Ident(x), Expr::Ident(y)) => x@ == y@,
        (Expr::Binary(l1, o1, r1), Expr::Binary(l2, o2, r2)) => o1 == o2 && same_pure(*l1, *l2)
            && same_pure(*r1, *r2),
        (Expr::Unary(o1, i1), Expr::Unary(o2, i2)) => o1 == o2 && same_pure(*i1, *i2),
        _ => false,
    }
}

/// The index of the first entry from `i` on whose expression equals `e`, or -1.
pub open spec fn find_entry(env: Seq<(Expr, String)>, e: Expr, i: int) -> int
    decreases env.len() - i,
{
    if i < 0 || i >= env.len() {
        -1
    } else if same_pure(env[i].0, e) {
        i
    } else {
        find_entry(env, e, i + 1)
    }
}

/// The variable holding the value of a pure expression, if the table has one.
pub open spec fn lookup(env: Seq<(Expr, String)>, e: Expr) -> Option<String> {
    if is_pure(e) && find_entry(env, e, 0) >= 0 {
        Some(env[find_entry(env, e, 0)].1)
    } else {
        None
    }
}

/// An expression with the pure subexpressions that the table holds replaced by their
/// variables, the whole first, then the operands and the rebuilt whole.
pub open spec fn cse_expr(env: Seq<(Expr, String)>, e: Expr) -> Expr
    decreases e,
{
    match lookup(env, e) {
        Some(v) => Expr::Ident(v),
        None => match e {
            Expr::Binary(l, op, r) => {
                let x = Expr::Binary(Box::new(cse_expr(env, *l)), op, Box::new(cse_expr(env, *r)));
                match lookup(env, x) {
                    Some(v) => Expr::Ident(v),
                    None => x,
                }
            },
            Expr::Unary(op, inner) => {
                let x = Expr::Unary(op, Box::new(cse_expr(env, *inner)));
                match lookup(env, x) {
                    Some(v) => Expr::Ident(v),
                    None => x,
                }
            },
            _ => e,
        },
    }
}

/// The table with `e` held by `var`, when `e` is pure.
pub open spec fn define(env: Seq<(Expr, String)>, e: Expr, var: String) -> Seq<(Expr, String)> {
    if is_pure(e) {
        env.push((e, var))
    } else {
        env
    }
}

/// The first `k` entries of the table without those that read `name` or are held by it.
pub open spec fn invalidate(env: Seq<(Expr, String)>, name: Seq<char>, k: int) -> Seq<(Expr, String)>
    decreases k,
{
    if k <= 0 || k > env.len() {
        Seq::empty()
    } else {
        let prev = invalidate(env, name, k - 1);
        if !has_var(env[k - 1].0, name) && env[k - 1].1@ != name {
            prev.push(env[k - 1])
        } else {
            prev
        }
    }
}

/// The table without the entries that read `name` or are held by it.
pub open spec fn forget(env: Seq<(Expr, String)>, name: Seq<char>) -> Seq<(Expr, String)> {
    invalidate(env, name, env.len() as int)
}

/// The table after a statement: a binding records its value (unless it is the variable
/// itself); an assignment forgets what reads the variable and records the new value; a
/// field assignment forgets what reads the object; loops and `if` empty the table; a
/// block goes through its statements.
pub open spec fn cse_env_after(env: Seq<(Expr, String)>, s: Stmt) -> Seq<(Expr, String)>
    decreases s, 0nat,
{
    match s {
        Stmt::Let { name, value, .. } => {
            let v2 = cse_expr(env, value);
            if v2 is Ident && v2->Ident_0@ == name@ {
                env
            } else {
                define(env, v2, name)
            }
        },
        Stmt::Assign { name, value } => {
            let e1 = forget(env, name@);
            define(e1, cse_expr(e1, value), name)
        },
        Stmt::FieldAssign { obj, .. } => forget(env, obj@),
        Stmt::While(..) => Seq::empty(),
        Stmt::For { .. } => Seq::empty(),
        Stmt::If { .. } => Seq::empty(),
        Stmt::Block(stmts) => cse_block_env(env, stmts, stmts.len() as int),
        _ => env,
    }
}

/// The table after the first `k` statements.
pub open spec fn cse_block_env(env: Seq<(Expr, String)>, stmts: Vec<Stmt>, k: int) -> Seq<
    (Expr, String),
>
    decreases stmts, k,
{
    if k <= 0 || k > stmts.len() {
        env
    } else {
        cse_env_after(cse_block_env(env, stmts, k - 1), stmts[k - 1])
    }
}

/// `out` is statement `s` with shared subexpressions replaced, given the table `env`
/// before it. Loop and branch bodies start from an empty table.
pub open spec fn cse_stmt(env: Seq<(Expr, String)>, s: Stmt, out: Stmt) -> bool
    decreases s, 1nat,
{
    match s {
        Stmt::Let { name, type_ann, mutable, value } => out == (Stmt::Let {
            name,
            type_ann,
            mutable,
            value: cse_expr(env, value),
        }),
        Stmt::Assign { name, value } => out == (Stmt::Assign {
            name,
            value: cse_expr(forget(env, name@), value),
        }),
        Stmt::FieldAssign { obj, field, value } => out == (Stmt::FieldAssign {
            obj,
            field,
            value: cse_expr(forget(env, obj@), value),
        }),
        Stmt::Expr(e) => out == Stmt::Expr(cse_expr(env, e)),
        Stmt::Return(v) => out == Stmt::Return(
            match v {
                Some(x) => Some(cse_expr(env, x)),
                None => None,
            },
        ),
        Stmt::Print(e) => out == Stmt::Print(cse_expr(env, e)),
        Stmt::PrintLn(e) => out == Stmt::PrintLn(cse_expr(env, e)),
        Stmt::Exit(e) => out == Stmt::Exit(cse_expr(env, e)),
        Stmt::While(cond, body) => out matches Stmt::While(c2, b2) && c2 == cse_expr(env, cond)
            && cse_block(Seq::empty(), body, b2),
        Stmt::For { var, iterable, body } => out matches Stmt::For {
            var: v2,
            iterable: i2,
            body: b2,
        } && v2 == var && i2 == cse_expr(env, iterable) && cse_block(Seq::empty(), body, b2),
        Stmt::If { cond, then_block, else_block } => out matches Stmt::If {
            cond: c2,
            then_block: t2,
            else_block: e2,
        } && c2 == cse_expr(env, cond) && cse_block(Seq::empty(), then_block, t2) && match (
            else_block,
            e2,
        ) {
            (Some(a), Some(b)) => cse_block(Seq::empty(), a, b),
            (None, None) => true,
            _ => false,
        },
        Stmt::Block(stmts) => out matches Stmt::Block(w) && cse_block(env, stmts, w),
        _ => out == s,
    }
}

/// `out` is the block `stmts` with shared subexpressions replaced, the table threaded
/// through from `env`.
pub open spec fn cse_block(env: Seq<(Expr, String)>, stmts: Vec<Stmt>, out: Vec<Stmt>) -> bool
    decreases stmts, stmts.len() + 1,
{
    &&& out.len() == stmts.len()
    &&& forall|i: int|
        0 <= i < stmts.len() ==> cse_stmt(cse_block_env(env, stmts, i), #[trigger] stmts[i], out[i])
}

/// Whether an expression is pure enough to share.
fn is_pure_exec(e: &Expr) -> (b: bool)
    ensures
        b == is_pure(*e),
    decreases e,
{
    match e {
        Expr::Integer(_) | Expr::Float(_) | Expr::String(_) | Expr::Bool(_) | Expr::Char(_)
        | Expr::Ident(_) => true,
        Expr::Binary(l, _, r) => is_pure_exec(l) && is_pure_exec(r),
        Expr::Unary(_, inner) => is_pure_exec(inner),
        _ => false,
    }
}

/// Whether variable `name` occurs in an expression.
fn has_var_exec(e: &Expr, name: &String) -> (b: bool)
    ensures
        b == has_var(*e, name@),
    decreases e,
{
    match e {
        Expr::Ident(n) => *n == *name,
        Expr::Binary(l, _, r) => has_var_exec(l, name) || has_var_exec(r, name),
        Expr::Unary(_, inner) => has_var_exec(inner, name),
        _ => false,
    }
}

/// Whether two pure expressions are equal.
fn same_pure_exec(a: &Expr, b: &Expr) -> (r: bool)
    ensures
        r == same_pure(*a, *b),
    decreases a,
{
    match (a, b) {
        (Expr::Integer(x), Expr::Integer(y)) => *x == *y,
        (Expr::Float(x), Expr::Float(y)) => float_bits_equal(x.bits, y.bits),
        (Expr::String(x), Expr::String(y)) => *x == *y,
        (Expr::Bool(x), Expr::Bool(y)) => *x == *y,
        (Expr::Char(x), Expr::Char(y)) => *x == *y,
        (Expr::Ident(x), Expr::Ident(y)) => *x == *y,
        (Expr::Binary(l1, o1, r1), Expr::Binary(l2, o2, r2)) => *o1 == *o2 && same_pure_exec(l1, l2)
            && same_pure_exec(r1, r2),
        (Expr::Unary(o1, i1), Expr::Unary(o2, i2)) => *o1 == *o2 && same_pure_exec(i1, i2),
        _ => false,
    }
}

/// A copy of a pure expression.
fn clone_pure(e: &Expr) -> (r: Expr)
    requires
        is_pure(*e),
    ensures
        r == *e,
    decreases e,
{
    match e {
        Expr::Integer(n) => Expr::Integer(*n),
        Expr::Float(f) => Expr::Float(FloatLit { bits: f.bits, text: f.text.clone() }),
        Expr::String(s) => Expr::String(s.clone()),
        Expr::Bool(b) => Expr::Bool(*b),
        Expr::Char(c) => Expr::Char(*c),
        Expr::Ident(s) => Expr::Ident(s.clone()),
        Expr::Binary(l, op, r) => Expr::Binary(Box::new(clone_pure(l)), *op, Box::new(clone_pure(r))),
        Expr::Unary(op, inner) => Expr::Unary(*op, Box::new(clone_pure(inner))),
        _ => Expr::Null,
    }
}

/// The table of available expressions: each pure expression with the variable that
/// holds its value.
struct CseEnv {
    entries: Vec<(Expr, String)>,
}

/// Whether every entry of a table is pure.
pub open spec fn all_pure(env: Seq<(Expr, String)>) -> bool {
    forall|i: int| 0 <= i < env.len() ==> is_pure(#[trigger] env[i].0)
}

impl CseEnv {
    fn new() -> (r: Self)
        ensures
            r.entries@ == Seq::<(Expr, String)>::empty(),
    {
        CseEnv { entries: Vec::new() }
    }

    /// The variable holding the value of `expr`, if any.
    fn lookup(&self, expr: &Expr) -> (r: Option<String>)
        ensures
            r == lookup(self.entries@, *expr),
    {
        if !is_pure_exec(expr) {
            return None;
        }
        let ghost env = self.entries@;
        let mut i: usize = 0;
        while i < self.entries.len()
            invariant
                i <= self.entries@.len(),
                env == self.entries@,
                is_pure(*expr),
                find_entry(env, *expr, 0) == find_entry(env, *expr, i as int),
            decreases self.entries@.len() - i,
        {
            if same_pure_exec(&self.entries[i].0, expr) {
                return Some(self.entries[i].1.clone());
            }
            i = i + 1;
        }
        None
    }

    /// Records that `var` holds the value of `expr`, when it is pure.
    fn define(&mut self, expr: &Expr, var: &String)
        requires
            all_pure(old(self).entries@),
        ensures
            all_pure(final(self).entries@),
            final(self).entries@ == define(old(self).entries@, *expr, *var),
    {
        if is_pure_exec(expr) {
            let e = clone_pure(expr);
            self.entries.push((e, var.clone()));
        }
    }

    /// Forgets the entries that read `name` or are held by it.
    fn invalidate_var(&mut self, name: &String)
        requires
            all_pure(old(self).entries@),
        ensures
            all_pure(final(self).entries@),
            final(self).entries@ == forget(old(self).entries@, name@),
    {
        let ghost env = self.entries@;
        let mut kept: Vec<(Expr, String)> = Vec::new();
        let mut i: usize = 0;
        while i < self.entries.len()
            invariant
                i <= self.entries@.len(),
                env == self.entries@,
                all_pure(env),
                all_pure(kept@),
                kept@ == invalidate(env, name@, i as int),
            decreases self.entries@.len() - i,
        {
            let entry = &self.entries[i];
            if !has_var_exec(&entry.0, name) && entry.1 != *name {
                let e = clone_pure(&entry.0);
                kept.push((e, entry.1.clone()));
            }
            i = i + 1;
        }
        self.entries = kept;
    }

    /// Forgets everything.
    fn clear(&mut self)
        ensures
            final(self).entries@ == Seq::<(Expr, String)>::empty(),
    {
        self.entries = Vec::new();
    }
}

/// Replaces the pure subexpressions of `e` that the table holds by their variables.
fn cse_expr_exec(e: Expr, env: &CseEnv) -> (r: Expr)
    ensures
        r == cse_expr(env.entries@, e),
    decreases e,
{
    match env.lookup(&e) {
        Some(var) => {
            return Expr::Ident(var);
        },
        None => {},
    }
    match e {
        Expr::Binary(l, op, r) => {
            let l = cse_expr_exec(*l, env);
            let r = cse_expr_exec(*r, env);
            let expr = Expr::Binary(Box::new(l), op, Box::new(r));
            match env.lookup(&expr) {
                Some(var) => Expr::Ident(var),
                None => expr,
            }
        },
        Expr::Unary(op, inner) => {
            let inner = cse_expr_exec(*inner, env);
            let expr = Expr::Unary(op, Box::new(inner));
            match env.lookup(&expr) {
                Some(var) => Expr::Ident(var),
                None => expr,
            }
        },
        other => other,
    }
}

/// Shares common subexpressions within a block, the table threaded through its
/// statements.
#[verifier::loop_isolation(false)]
fn cse_block_exec(stmts: Vec<Stmt>, env: &mut CseEnv) -> (r: Vec<Stmt>)
    requires
        all_pure(old(env).entries@),
    ensures
        all_pure(final(env).entries@),
        cse_block(old(env).entries@, stmts, r),
        final(env).entries@ == cse_block_env(old(env).entries@, stmts, stmts.len() as int),
    decreases stmts, 1nat,
{
    let ghost orig = stmts;
    let ghost env0 = env.entries@;
    let mut rest = reversed(stmts);
    let mut result: Vec<Stmt> = Vec::new();
    while rest.len() > 0
        invariant
            rest@ == orig@.skip(result@.len() as int).reverse(),
            result@.len() <= orig@.len(),
            all_pure(env.entries@),
            env.entries@ == cse_block_env(env0, orig, result@.len() as int),
            forall|i: int|
                0 <= i < result@.len() ==> cse_stmt(cse_block_env(env0, orig, i), #[trigger] orig[i], result@[i]),
        decreases rest@.len(),
    {
        let ghost k = result@.len();
        let stmt = rest.pop().unwrap();
        assert(stmt == orig[k as int]);
        assert(decreases_to!(orig => orig[k as int]));
        let new_stmt = cse_stmt_exec(stmt, env);
        result.push(new_stmt);
        assert(rest@ =~= orig@.skip(result@.len() as int).reverse());
    }
    result
}

/// Shares common subexpressions in a statement.
fn cse_stmt_exec(s: Stmt, env: &mut CseEnv) -> (r: Stmt)
    requires
        all_pure(old(env).entries@),
    ensures
        all_pure(final(env).entries@),
        cse_stmt(old(env).entries@, s, r),
        final(env).entries@ == cse_env_after(old(env).entries@, s),
    decreases s, 0nat,
{
    match s {
        Stmt::Let { name, type_ann, mutable, value } => {
            let value = cse_expr_exec(value, env);
            let is_self_ref = match &value {
                Expr::Ident(v) => *v == name,
                _ => false,
            };
            if !is_self_ref {
                env.define(&value, &name);
            }
            Stmt::Let { name, type_ann, mutable, value }
        },
        Stmt::Assign { name, value } => {
            env.invalidate_var(&name);
            let value = cse_expr_exec(value, env);
            env.define(&value, &name);
            Stmt::Assign { name, value }
        },
        Stmt::FieldAssign { obj, field, value } => {
            env.invalidate_var(&obj);
            let value = cse_expr_exec(value, env);
            Stmt::FieldAssign { obj, field, value }
        },
        Stmt::Expr(e) => Stmt::Expr(cse_expr_exec(e, env)),
        Stmt::Return(e) => Stmt::Return(
            match e {
                Some(v) => Some(cse_expr_exec(v, env)),
                None => None,
            },
        ),
        Stmt::Print(e) => Stmt::Print(cse_expr_exec(e, env)),
        Stmt::PrintLn(e) => Stmt::PrintLn(cse_expr_exec(e, env)),
        Stmt::Exit(e) => Stmt::Exit(cse_expr_exec(e, env)),
        Stmt::While(cond, body) => {
            let cond = cse_expr_exec(cond, env);
            let mut body_env = CseEnv::new();
            let body = cse_block_exec(body, &mut body_env);
            env.clear();
            Stmt::While(cond, body)
        },
        Stmt::For { var, iterable, body } => {
            let iterable = cse_expr_exec(iterable, env);
            env.clear();
            let mut body_env = CseEnv::new();
            let body = cse_block_exec(body, &mut body_env);
            env.clear();
            Stmt::For { var, iterable, body }
        },
        Stmt::If { cond, then_block, else_block } => {
            let cond = cse_expr_exec(cond, env);
            let mut then_env = CseEnv::new();
            let then_block = cse_block_exec(then_block, &mut then_env);
            let else_block = match else_block {
                Some(b) => {
                    let mut else_env = CseEnv::new();
                    Some(cse_block_exec(b, &mut else_env))
                },
                None => None,
            };
            env.clear();
            Stmt::If { cond, then_block, else_block }
        },
        Stmt::Block(stmts) => Stmt::Block(cse_block_exec(stmts, env)),
        other => other,
    }
}

/// `r` is function definition `s` with common subexpressions shared in its body, from an
/// empty table; anything else stays.
pub open spec fn cse_function(s: Stmt, r: Stmt) -> bool {
    match s {
        Stmt::FnDef { name, params, return_type, body } => r matches Stmt::FnDef {
            name: n2,
            params: p2,
            return_type: t2,
            body: b2,
        } && n2 == name && p2 == params && t2 == return_type && cse_block(Seq::empty(), body, b2),
        _ => r == s,
    }
}

/// `r` is top-level statement `s` with the bodies of its functions and methods treated.
pub open spec fn cse_top(s: Stmt, r: Stmt) -> bool {
    match s {
        Stmt::FnDef { .. } => cse_function(s, r),
        Stmt::ImplBlock { impl_type, methods } => r matches Stmt::ImplBlock {
            impl_type: i2,
            methods: m2,
        } && i2 == impl_type && m2.len() == methods.len() && forall|j: int|
            0 <= j < methods.len() ==> cse_function(#[trigger] methods[j], m2[j]),
        _ => r == s,
    }
}

/// Shares common subexpressions in the body of a function definition.
fn cse_function_exec(s: Stmt) -> (r: Stmt)
    ensures
        cse_function(s, r),
{
    match s {
        Stmt::FnDef { name, params, return_type, body } => {
            let mut env = CseEnv::new();
            let body = cse_block_exec(body, &mut env);
            Stmt::FnDef { name, params, return_type, body }
        },
        other => other,
    }
}

/// `r` is block `stmts` after common subexpressions are shared: each function body
/// and method on its own, then the top-level statements.
pub open spec fn cse_result(stmts: Vec<Stmt>, r: Vec<Stmt>) -> bool {
    exists|mid: Vec<Stmt>|
        #![trigger cse_block(Seq::empty(), mid, r)]
        mid.len() == stmts.len() && (forall|i: int|
            0 <= i < stmts.len() ==> cse_top(#[trigger] stmts[i], mid[i])) && cse_block(
            Seq::empty(),
            mid,
            r,
        )
}

/// Shares common subexpressions: an expression computed again while the variable
/// holding it is still valid is replaced by that variable. Each function and method body
/// is treated on its own; then the top-level statements in order. Loops and branches
/// start afresh and forget everything after them; assignments forget what reads the
/// variable.
pub fn cse_optimize(stmts: Vec<Stmt>) -> (r: Vec<Stmt>)
    ensures
        cse_result(stmts, r),
{
    let ghost orig = stmts;
    let mut rest = reversed(stmts);
    let mut mid: Vec<Stmt> = Vec::new();
    while rest.len() > 0
        invariant
            rest@ == orig@.skip(mid@.len() as int).reverse(),
            mid@.len() <= orig@.len(),
            forall|i: int| 0 <= i < mid@.len() ==> cse_top(#[trigger] orig@[i], mid@[i]),
        decreases rest@.len(),
    {
        let ghost k = mid@.len();
        let stmt = rest.pop().unwrap();
        assert(stmt == orig@[k as int]);
        let new_stmt = match stmt {
            Stmt::FnDef { .. } => cse_function_exec(stmt),
            Stmt::ImplBlock { impl_type, methods } => {
                let ghost ms = methods;
                let mut mrest = reversed(methods);
                let mut out: Vec<Stmt> = Vec::new();
                while mrest.len() > 0
                    invariant
                        mrest@ == ms@.skip(out@.len() as int).reverse(),
                        out@.len() <= ms@.len(),
                        forall|i: int| 0 <= i < out@.len() ==> cse_function(#[trigger] ms@[i], out@[i]),
                    decreases mrest@.len(),
                {
                    let ghost j = out@.len();
                    let m = mrest.pop().unwrap();
                    assert(m == ms@[j as int]);
                    out.push(cse_function_exec(m));
                    assert(mrest@ =~= ms@.skip(out@.len() as int).reverse());
                }
                Stmt::ImplBlock { impl_type, methods: out }
            },
            other => other,
        };
        mid.push(new_stmt);
        assert(rest@ =~= orig@.skip(mid@.len() as int).reverse());
    }
    let ghost mid_g = mid;
    let mut env = CseEnv::new();
    let r = cse_block_exec(mid, &mut env);
    assert(cse_block(Seq::empty(), mid_g, r));
    r
}

/// Optimizes a program's syntax tree before native code generation: constant folding
/// and algebraic simplification, propagation of the constants of top-level variables and
/// folding again, then sharing of common subexpressions, then marking of tail calls.
/// No folding may meet the smallest integer divided by -1 (which overflows).
pub fn optimize_program(stmts: Vec<Stmt>) -> (r: Vec<Stmt>)
    requires
        !fold_program_traps(gstmts(stmts@)),
    ensures
        exists|folded: Vec<Stmt>, shared: Vec<Stmt>|
            #![trigger cse_result(folded, shared), tail_result(shared, r)]
            gstmts(folded@) == fold_program(gstmts(stmts@)) && cse_result(folded, shared)
                && tail_result(shared, r),
{
    let folded = fold_constants(stmts);
    let ghost f = folded;
    let shared = cse_optimize(folded);
    let ghost sh = shared;
    let r = tail_call_optimize(shared);
    assert(cse_result(f, sh) && tail_result(sh, r));
    r
}

/// A constant comparison of two integer literals has the value 1 exactly when the
/// comparison holds and 0 otherwise (so `a >= a` and `a <= a` are 1, `a > a` and
/// `a < a` are 0); a non-strict comparison is the negation of the opposite strict one,
/// and `and`/`or` of literals give 1 exactly when both/either is not 0.
pub proof fn lemma_constant_comparisons(a: i64, b: i64)
    ensures
        ({
            let v = |op: BinOp| const_value(Expr::Binary(Box::new(Expr::Integer(a)), op, Box::new(Expr::Integer(b))));
            &&& v(BinOp::Eq) == Some::<i64>(if a == b { 1 } else { 0 })
            &&& v(BinOp::Neq) == Some::<i64>(if a != b { 1 } else { 0 })
            &&& v(BinOp::Lt) == Some::<i64>(if a < b { 1 } else { 0 })
            &&& v(BinOp::Gt) == Some::<i64>(if a > b { 1 } else { 0 })
            &&& v(BinOp::Lte) == Some::<i64>(if a <= b { 1 } else { 0 })
            &&& v(BinOp::Gte) == Some::<i64>(if a >= b { 1 } else { 0 })
            &&& v(BinOp::And) == Some::<i64>(if a != 0 && b != 0 { 1 } else { 0 })
            &&& v(BinOp::Or) == Some::<i64>(if a != 0 || b != 0 { 1 } else { 0 })
            &&& v(BinOp::Lte)->0 == 1 - v(BinOp::Gt)->0
            &&& v(BinOp::Gte)->0 == 1 - v(BinOp::Lt)->0
        }),
        eval_binop(BinOp::Gte, a, a) == Some(1i64),
        eval_binop(BinOp::Lte, a, a) == Some(1i64),
        eval_binop(BinOp::Gt, a, a) == Some(0i64),
        eval_binop(BinOp::Lt, a, a) == Some(0i64),
        eval_binop(BinOp::Lt, a, b) == eval_binop(BinOp::Gt, b, a),
        eval_binop(BinOp::Lte, a, b) == eval_binop(BinOp::Gte, b, a),
{
    assert(const_value(Expr::Integer(a)) == Some(a));
    assert(const_value(Expr::Integer(b)) == Some(b));
    assert forall|op: BinOp| #[trigger] const_value(Expr::Binary(Box::new(Expr::Integer(a)), op, Box::new(Expr::Integer(b))))
        == eval_binop(op, a, b) by {
        assert(const_value(Expr::Integer(a)) == Some(a));
        assert(const_value(Expr::Integer(b)) == Some(b));
    }
}

} // verus!
