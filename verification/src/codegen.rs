//! Compilation of the syntax tree to bytecode.
use vstd::prelude::*;
use crate::ast::{BinOp, Expr, MatchArm, MatchPattern, Param, Program, Stmt, UnaryOp};
use vstd::string::StringExecFns;
use crate::bytecode::{
    functions_view, instrs_view, same_value, strings_view, values_equal, values_view, CompiledFunction,
    BytecodeProgram, FunctionView, InstrView, Instruction, ProgramView, Value, ValueView,
};
use crate::numtext::{decimal, push_decimal};
use crate::text::{chars_of, is_uppercase, unicode_uppercase};

verus! {

/// The state of code generation seen as values: the constant pool, the label and
/// function-literal counters, the compiled function literals, the code being written,
/// and whether no pattern was refused so far.
pub ghost struct Gen {
    pub consts: Seq<ValueView>,
    pub labels: nat,
    pub lambda_count: nat,
    pub lambdas: Seq<FunctionView>,
    pub code: Seq<InstrView>,
    pub ok: bool,
}

/// The message of a refused or-pattern.
pub open spec fn or_pattern_message() -> Seq<char> {
    "| 模式中仅支持字面量模式"@
}

/// The index of the first constant from `i` on equal to `v`, or -1.
pub open spec fn find_value(cs: Seq<ValueView>, v: ValueView, i: int) -> int
    decreases cs.len() - i,
{
    if i < 0 || i >= cs.len() {
        -1
    } else if same_value(cs[i], v) {
        i
    } else {
        find_value(cs, v, i + 1)
    }
}

/// Loads the constant `v`: the index of an equal constant already in the pool, or of
/// `v` added at its end.
pub open spec fn gen_const(g: Gen, v: ValueView) -> Gen {
    let i = find_value(g.consts, v, 0);
    if i >= 0 {
        Gen { code: g.code.push(InstrView::Const(i as nat)), ..g }
    } else {
        Gen { consts: g.consts.push(v), code: g.code.push(InstrView::Const(g.consts.len())), ..g }
    }
}

/// Appends an instruction.
pub open spec fn emit(g: Gen, x: InstrView) -> Gen {
    Gen { code: g.code.push(x), ..g }
}

/// Replaces the instruction at `pos`, when there is one.
pub open spec fn patch(g: Gen, pos: nat, x: InstrView) -> Gen {
    Gen { code: set_at(g.code, pos, x), ..g }
}

/// `code` with the instruction at `pos` replaced by `x`, when there is one.
pub open spec fn set_at(code: Seq<InstrView>, pos: nat, x: InstrView) -> Seq<InstrView> {
    if pos < code.len() {
        code.update(pos as int, x)
    } else {
        code
    }
}

/// Takes a fresh label.
pub open spec fn bump_label(g: Gen) -> Gen {
    Gen { labels: g.labels + 1, ..g }
}

/// The instruction of a binary operator (ranges have none).
pub open spec fn binop_instr(op: BinOp) -> InstrView {
    match op {
        BinOp::Add => InstrView::Add,
        BinOp::Sub => InstrView::Sub,
        BinOp::Mul => InstrView::Mul,
        BinOp::Div => InstrView::Div,
        BinOp::Mod => InstrView::Mod,
        BinOp::Eq => InstrView::Eq,
        BinOp::Neq => InstrView::Neq,
        BinOp::Lt => InstrView::Lt,
        BinOp::Gt => InstrView::Gt,
        BinOp::Lte => InstrView::Lte,
        BinOp::Gte => InstrView::Gte,
        BinOp::And => InstrView::And,
        BinOp::Or => InstrView::Or,
        BinOp::Concat => InstrView::Concat,
        BinOp::Range => InstrView::Nop,
        BinOp::RangeInclusive => InstrView::Nop,
    }
}

/// The name of the `n`-th function literal.
pub open spec fn lambda_name(n: nat) -> Seq<char> {
    "__lambda_"@ + decimal(n)
}

/// The name of the variable holding the value of the `match` with label `n`.
pub open spec fn match_var(n: nat) -> Seq<char> {
    "__match_"@ + decimal(n)
}

/// Code ending with `Return`: unchanged when it already does.
pub open spec fn with_return(code: Seq<InstrView>) -> Seq<InstrView> {
    if code.len() > 0 && code.last() == InstrView::Return {
        code
    } else {
        code.push(InstrView::Return)
    }
}

/// The names of parameters.
pub open spec fn param_names(params: Seq<Param>) -> Seq<Seq<char>> {
    params.map_values(|p: Param| p.name@)
}

/// Whether a name starts with an uppercase letter (a variant in a pattern).
pub open spec fn starts_upper(name: Seq<char>) -> bool {
    name.len() > 0 && unicode_uppercase(name[0])
}

/// Whether a statement list ends with an expression statement.
pub open spec fn ends_with_expr(body: Vec<Stmt>) -> bool {
    body.len() > 0 && body[body.len() - 1] is Expr
}

/// The state before anything is compiled.
pub open spec fn initial_gen() -> Gen {
    Gen {
        consts: Seq::empty(),
        labels: 0,
        lambda_count: 0,
        lambdas: Seq::empty(),
        code: Seq::empty(),
        ok: true,
    }
}

/// The code of an expression, which leaves its value on the stack.
pub open spec fn expr_gen(g: Gen, e: Expr) -> Gen
    decreases e, 0nat,
{
    match e {
        Expr::Integer(n) => gen_const(g, ValueView::Integer(n as int)),
        Expr::Float(f) => gen_const(g, ValueView::Float(f.bits)),
        Expr::String(s) => gen_const(g, ValueView::String(s@)),
        Expr::Bool(b) => gen_const(g, ValueView::Bool(b)),
        Expr::Char(c) => gen_const(g, ValueView::Char(c)),
        Expr::Ident(name) => emit(g, InstrView::Load(name@)),
        Expr::Null => gen_const(g, ValueView::Null),
        Expr::Binary(lhs, op, rhs) => if op == BinOp::Range || op == BinOp::RangeInclusive {
            gen_const(g, ValueView::Null)
        } else {
            emit(expr_gen(expr_gen(g, *lhs), *rhs), binop_instr(op))
        },
        Expr::Unary(op, inner) => emit(
            expr_gen(g, *inner),
            match op {
                UnaryOp::Neg => InstrView::Neg,
                UnaryOp::Not => InstrView::Not,
            },
        ),
        Expr::Call(name, args) => if name@ == "to_str"@ && args.len() == 1 {
            emit(expr_gen(g, args[0]), InstrView::ToString)
        } else if name@ == "read_line"@ && args.len() == 0 {
            emit(g, InstrView::ReadLine)
        } else if name@ == "Ok"@ && args.len() == 1 {
            emit(expr_gen(g, args[0]), InstrView::EnumNew("Result"@, "Ok"@, 1))
        } else if name@ == "Err"@ && args.len() == 1 {
            emit(expr_gen(g, args[0]), InstrView::EnumNew("Result"@, "Err"@, 1))
        } else if name@ == "Some"@ && args.len() == 1 {
            emit(expr_gen(g, args[0]), InstrView::EnumNew("Option"@, "Some"@, 1))
        } else if name@ == "None"@ && args.len() == 0 {
            emit(g, InstrView::EnumNew("Option"@, "None"@, 0))
        } else {
            emit(args_gen(g, args, args.len() as int), InstrView::Call(name@, args.len() as nat))
        },
        Expr::TailCall(name, args) => emit(
            args_gen(g, args, args.len() as int),
            InstrView::Call(name@, args.len() as nat),
        ),
        Expr::Lambda { params, body, .. } => {
            let name = lambda_name(g.lambda_count);
            let inner = stmts_gen(
                Gen { code: Seq::empty(), lambda_count: g.lambda_count + 1, ..g },
                body,
                body.len() as int,
            );
            let f = FunctionView {
                name: name,
                instructions: with_return(inner.code),
                param_count: params.len() as nat,
                param_names: param_names(params@),
            };
            gen_const(
                Gen { code: g.code, lambdas: inner.lambdas.push(f), ..inner },
                ValueView::Function(name),
            )
        },
        Expr::FieldAccess(base, field) => emit(expr_gen(g, *base), InstrView::StructGet(field@)),
        Expr::StructLiteral { struct_name, fields } => emit(
            struct_fields_gen(g, fields, fields.len() as int),
            InstrView::StructNew(struct_name@, fields.len() as nat),
        ),
        Expr::If(cond, then_e, else_e) => {
            let g1 = bump_label(expr_gen(g, *cond));
            let jmp_else = g1.code.len();
            let g2 = expr_gen(emit(g1, InstrView::JmpFalse(0)), *then_e);
            match else_e {
                Some(x) => {
                    let jmp_end = g2.code.len();
                    let g3 = emit(bump_label(g2), InstrView::Jmp(0));
                    let g4 = expr_gen(patch(g3, jmp_else, InstrView::JmpFalse(g3.code.len())), *x);
                    patch(g4, jmp_end, InstrView::Jmp(g4.code.len()))
                },
                None => gen_const(
                    patch(g2, jmp_else, InstrView::JmpFalse(g2.code.len())),
                    ValueView::Null,
                ),
            }
        },
        Expr::Match { value, arms } => {
            let tmp = match_var(g.labels);
            let g1 = emit(expr_gen(bump_label(g), *value), InstrView::InitVar(tmp));
            let r = arms_gen(g1, tmp, arms, arms.len() as int);
            let null_fallback = r.0.code.len();
            let gn = gen_const(r.0, ValueView::Null);
            let ends = patch_all(gn.code, r.3, InstrView::Jmp(gn.code.len()), r.3.len() as int);
            Gen { code: patch_fails(ends, r.1, r.2, null_fallback, r.2.len() as int), ..gn }
        },
    }
}

/// The code of the first `k` arguments, in order.
pub open spec fn args_gen(g: Gen, args: Vec<Expr>, k: int) -> Gen
    decreases args, k,
{
    if k <= 0 || k > args.len() {
        g
    } else {
        expr_gen(args_gen(g, args, k - 1), args[k - 1])
    }
}

/// The code of the first `k` fields of a struct literal: each name as a constant, then
/// the value.
pub open spec fn struct_fields_gen(g: Gen, fields: Vec<(String, Expr)>, k: int) -> Gen
    decreases fields, k,
{
    if k <= 0 || k > fields.len() {
        g
    } else {
        expr_gen(
            gen_const(struct_fields_gen(g, fields, k - 1), ValueView::String(fields[k - 1].0@)),
            fields[k - 1].1,
        )
    }
}

/// Sets the first `k` positions of `ps` to `x`.
pub open spec fn patch_all(code: Seq<InstrView>, ps: Seq<nat>, x: InstrView, k: int) -> Seq<InstrView>
    decreases k,
{
    if k <= 0 || k > ps.len() {
        code
    } else {
        set_at(patch_all(code, ps, x, k - 1), ps[k - 1], x)
    }
}

/// Where a `match` arm goes when it does not apply: the next arm, or after the last the
/// fallback that loads null.
pub open spec fn fail_target(starts: Seq<nat>, i: int, null_fallback: nat) -> nat {
    if i + 1 < starts.len() {
        starts[i + 1]
    } else {
        null_fallback
    }
}

/// Points the failure jumps of the first `k` arms at their targets.
pub open spec fn patch_fails(
    code: Seq<InstrView>,
    starts: Seq<nat>,
    fails: Seq<Seq<nat>>,
    null_fallback: nat,
    k: int,
) -> Seq<InstrView>
    decreases k,
{
    if k <= 0 || k > fails.len() {
        code
    } else {
        patch_all(
            patch_fails(code, starts, fails, null_fallback, k - 1),
            fails[k - 1],
            InstrView::JmpFalse(fail_target(starts, k - 1, null_fallback)),
            fails[k - 1].len() as int,
        )
    }
}

/// The code of an arm up to its guard: the pattern test and its failure jump, then the
/// guard and its failure jump.
pub open spec fn arm_guarded(g: Gen, tmp: Seq<char>, arm: MatchArm) -> Gen
    decreases arm, 1nat,
{
    let g2 = emit(pattern_gen(g, tmp, arm.pattern, arm.bind), InstrView::JmpFalse(0));
    match arm.guard {
        Some(gd) => emit(expr_gen(g2, gd), InstrView::JmpFalse(0)),
        None => g2,
    }
}

/// The positions of an arm's failure jumps.
pub open spec fn arm_fails(g: Gen, tmp: Seq<char>, arm: MatchArm) -> Seq<nat>
    decreases arm, 2nat,
{
    let g1 = pattern_gen(g, tmp, arm.pattern, arm.bind);
    match arm.guard {
        Some(gd) => seq![g1.code.len(), (arm_guarded(g, tmp, arm).code.len() - 1) as nat],
        None => seq![g1.code.len()],
    }
}

/// The code of an arm up to its body, which leaves the arm's value.
pub open spec fn arm_valued(g: Gen, tmp: Seq<char>, arm: MatchArm) -> Gen
    decreases arm, 2nat,
{
    let g4 = bind_gen(arm_guarded(g, tmp, arm), tmp, arm.pattern, arm.bind);
    let g5 = arm_body_gen(g4, arm.body, arm.body.len() as int);
    if ends_with_expr(arm.body) {
        g5
    } else {
        gen_const(g5, ValueView::Null)
    }
}

/// The code of one `match` arm whose value is in variable `tmp`: the pattern test, a
/// failure jump, the guard and its failure jump, the binding, the body (null when it
/// does not end with an expression) and a jump to the end. Also the positions of the
/// failure jumps and of the jump to the end.
pub open spec fn arm_step(g: Gen, tmp: Seq<char>, arm: MatchArm) -> (Gen, Seq<nat>, nat)
    decreases arm, 3nat,
{
    let g6 = arm_valued(g, tmp, arm);
    (emit(g6, InstrView::Jmp(0)), arm_fails(g, tmp, arm), g6.code.len())
}

/// The code of the first `k` arms of a `match` whose value is in variable `tmp`, with
/// each arm's start, the positions of its failure jumps and of its jump to the end.
pub open spec fn arms_gen(g: Gen, tmp: Seq<char>, arms: Vec<MatchArm>, k: int) -> (
    Gen,
    Seq<nat>,
    Seq<Seq<nat>>,
    Seq<nat>,
)
    decreases arms, k,
{
    if k <= 0 || k > arms.len() {
        (g, Seq::empty(), Seq::empty(), Seq::empty())
    } else {
        let prev = arms_gen(g, tmp, arms, k - 1);
        let step = arm_step(prev.0, tmp, arms[k - 1]);
        (step.0, prev.1.push(prev.0.code.len()), prev.2.push(step.1), prev.3.push(step.2))
    }
}

/// After a variant pattern with a binding matched: the binding takes the variant's first
/// field (`None`: the value itself).
pub open spec fn bind_gen(g: Gen, tmp: Seq<char>, p: MatchPattern, bind: Option<String>) -> Gen {
    match (bind, p) {
        (Some(b), MatchPattern::Variable(name)) => if starts_upper(name@) {
            if name@ == "None"@ {
                emit(emit(g, InstrView::Load(tmp)), InstrView::InitVar(b@))
            } else {
                emit(
                    emit(emit(g, InstrView::Load(tmp)), InstrView::EnumGet(0)),
                    InstrView::InitVar(b@),
                )
            }
        } else {
            g
        },
        _ => g,
    }
}

/// The code of the first `k` statements of an arm's body; a final expression statement
/// keeps its value.
pub open spec fn arm_body_gen(g: Gen, body: Vec<Stmt>, k: int) -> Gen
    decreases body, k,
{
    if k <= 0 || k > body.len() {
        g
    } else {
        let prev = arm_body_gen(g, body, k - 1);
        match body[k - 1] {
            Stmt::Expr(e) => if k == body.len() {
                expr_gen(prev, e)
            } else {
                stmt_gen(prev, body[k - 1])
            },
            _ => stmt_gen(prev, body[k - 1]),
        }
    }
}

/// The code testing whether the value in `tmp` matches a pattern, leaving a boolean.
pub open spec fn pattern_gen(g: Gen, tmp: Seq<char>, p: MatchPattern, bind: Option<String>) -> Gen
    decreases p, 0nat,
{
    match p {
        MatchPattern::Literal(e) => emit(expr_gen(emit(g, InstrView::Load(tmp)), e), InstrView::Eq),
        MatchPattern::Variable(name) => if starts_upper(name@) {
            emit(emit(g, InstrView::Load(tmp)), InstrView::IsVariant(name@))
        } else if name@ == "_"@ {
            gen_const(g, ValueView::Bool(true))
        } else {
            let b = match bind {
                Some(b) => b@,
                None => name@,
            };
            gen_const(
                emit(emit(g, InstrView::Load(tmp)), InstrView::InitVar(b)),
                ValueView::Bool(true),
            )
        },
        MatchPattern::Or(ps) => if ps.len() == 0 {
            gen_const(g, ValueView::Bool(false))
        } else {
            alternatives_gen(g, tmp, ps, ps.len() as int)
        },
    }
}

/// The code of the first `k` alternatives of an or-pattern: each compares the value with
/// a literal, the results joined by `Or`. Any other alternative is refused.
pub open spec fn alternatives_gen(g: Gen, tmp: Seq<char>, ps: Vec<MatchPattern>, k: int) -> Gen
    decreases ps, k,
{
    if k <= 0 || k > ps.len() {
        g
    } else {
        let g1 = emit(alternatives_gen(g, tmp, ps, k - 1), InstrView::Load(tmp));
        match ps[k - 1] {
            MatchPattern::Literal(e) => {
                let g2 = emit(expr_gen(g1, e), InstrView::Eq);
                if k > 1 {
                    emit(g2, InstrView::Or)
                } else {
                    g2
                }
            },
            _ => Gen { ok: false, ..g1 },
        }
    }
}

/// The code of the first `k` statements.
pub open spec fn stmts_gen(g: Gen, stmts: Vec<Stmt>, k: int) -> Gen
    decreases stmts, k,
{
    if k <= 0 || k > stmts.len() {
        g
    } else {
        stmt_gen(stmts_gen(g, stmts, k - 1), stmts[k - 1])
    }
}

/// The code of a statement. Definitions of functions and types, `break` and `continue`
/// give none.
pub open spec fn stmt_gen(g: Gen, s: Stmt) -> Gen
    decreases s, 0nat,
{
    match s {
        Stmt::Let { name, value, .. } => {
            let g1 = expr_gen(g, value);
            let g2 = if value is Lambda {
                emit(g1, InstrView::RegFn(name@, lambda_name((g1.lambda_count - 1) as nat)))
            } else {
                g1
            };
            emit(g2, InstrView::InitVar(name@))
        },
        Stmt::Assign { name, value } => emit(expr_gen(g, value), InstrView::Store(name@)),
        Stmt::FieldAssign { obj, field, value } => emit(
            emit(expr_gen(emit(g, InstrView::Load(obj@)), value), InstrView::StructSet(field@)),
            InstrView::Store(obj@),
        ),
        Stmt::Expr(e) => emit(expr_gen(g, e), InstrView::Pop),
        Stmt::Return(v) => emit(
            match v {
                Some(e) => expr_gen(g, e),
                None => gen_const(g, ValueView::Null),
            },
            InstrView::Return,
        ),
        Stmt::While(cond, body) => {
            let start = g.code.len();
            let g1 = bump_label(expr_gen(g, cond));
            let jmp = g1.code.len();
            let g2 = emit(
                stmts_gen(emit(g1, InstrView::JmpFalse(0)), body, body.len() as int),
                InstrView::Jmp(start),
            );
            patch(g2, jmp, InstrView::JmpFalse(g2.code.len()))
        },
        Stmt::For { var, iterable, body } => {
            let key = "__for_iter_key_"@ + var@;
            let g1 = emit(
                emit(expr_gen(g, iterable), InstrView::Call("__for_iter"@, 1)),
                InstrView::InitVar(key),
            );
            let start = g1.code.len();
            let g2 = bump_label(
                emit(emit(g1, InstrView::Load(key)), InstrView::Call("__for_next"@, 1)),
            );
            let jmp = g2.code.len();
            let g3 = emit(
                stmts_gen(
                    emit(emit(g2, InstrView::JmpFalse(0)), InstrView::InitVar(var@)),
                    body,
                    body.len() as int,
                ),
                InstrView::Jmp(start),
            );
            emit(patch(g3, jmp, InstrView::JmpFalse(g3.code.len())), InstrView::Pop)
        },
        Stmt::If { cond, then_block, else_block } => {
            let g1 = bump_label(expr_gen(g, cond));
            let jmp_else = g1.code.len();
            let g2 = stmts_gen(
                emit(g1, InstrView::JmpFalse(0)),
                then_block,
                then_block.len() as int,
            );
            match else_block {
                Some(es) => {
                    let jmp_end = g2.code.len();
                    let g3 = emit(bump_label(g2), InstrView::Jmp(0));
                    let g4 = stmts_gen(
                        patch(g3, jmp_else, InstrView::JmpFalse(g3.code.len())),
                        es,
                        es.len() as int,
                    );
                    patch(g4, jmp_end, InstrView::Jmp(g4.code.len()))
                },
                None => patch(g2, jmp_else, InstrView::JmpFalse(g2.code.len())),
            }
        },
        Stmt::Block(stmts) => stmts_gen(g, stmts, stmts.len() as int),
        Stmt::Print(e) => emit(expr_gen(g, e), InstrView::Print),
        Stmt::PrintLn(e) => emit(expr_gen(g, e), InstrView::PrintLn),
        Stmt::Exit(e) => emit(emit(expr_gen(g, e), InstrView::Pop), InstrView::Halt),
        _ => g,
    }
}

/// `b` is a later state than `a`: counters and code only grow, and a refusal stays.
pub open spec fn grows(a: Gen, b: Gen) -> bool {
    &&& a.labels <= b.labels
    &&& a.lambda_count <= b.lambda_count
    &&& a.code.len() <= b.code.len()
    &&& !a.ok ==> !b.ok
    &&& distinct_values(a.consts) ==> distinct_values(b.consts)
}

/// Whether no two constants of a pool compare equal.
pub open spec fn distinct_values(cs: Seq<ValueView>) -> bool {
    forall|i: int, j: int| 0 <= i < cs.len() && 0 <= j < cs.len() && i != j ==> !same_value(cs[i], cs[j])
}

/// Constants compare equal either way round.
pub proof fn lemma_same_value_symmetric(a: ValueView, b: ValueView)
    ensures
        same_value(a, b) == same_value(b, a),
{
}

/// The search for an equal constant fails only when none of the pool compares equal.
pub proof fn lemma_find_value_absent(cs: Seq<ValueView>, v: ValueView, i: int)
    requires
        0 <= i,
        find_value(cs, v, i) < 0,
    ensures
        forall|k: int| i <= k < cs.len() ==> !same_value(cs[k], v),
    decreases cs.len() - i,
{
    if i < cs.len() {
        lemma_find_value_absent(cs, v, i + 1);
    }
}

/// Loading a constant keeps a pool without duplicates so, and moves the state forward.
pub broadcast proof fn lemma_gen_const_grows(g: Gen, v: ValueView)
    ensures
        grows(g, #[trigger] gen_const(g, v)),
{
    if find_value(g.consts, v, 0) < 0 {
        lemma_find_value_absent(g.consts, v, 0);
        let cs = g.consts.push(v);
        assert forall|i: int, j: int|
            distinct_values(g.consts) && 0 <= i < cs.len() && 0 <= j < cs.len() && i != j implies !same_value(
            cs[i],
            cs[j],
        ) by {
            if i == g.consts.len() {
                lemma_same_value_symmetric(cs[i], cs[j]);
            }
        }
    }
}

/// Setting positions keeps the length of the code.
pub proof fn lemma_patch_all_len(code: Seq<InstrView>, ps: Seq<nat>, x: InstrView, k: int)
    ensures
        patch_all(code, ps, x, k).len() == code.len(),
    decreases k,
{
    if 0 < k <= ps.len() {
        lemma_patch_all_len(code, ps, x, k - 1);
    }
}

/// Pointing failure jumps keeps the length of the code.
pub proof fn lemma_patch_fails_len(
    code: Seq<InstrView>,
    starts: Seq<nat>,
    fails: Seq<Seq<nat>>,
    null_fallback: nat,
    k: int,
)
    ensures
        patch_fails(code, starts, fails, null_fallback, k).len() == code.len(),
    decreases k,
{
    if 0 < k <= fails.len() {
        lemma_patch_fails_len(code, starts, fails, null_fallback, k - 1);
        lemma_patch_all_len(
            patch_fails(code, starts, fails, null_fallback, k - 1),
            fails[k - 1],
            InstrView::JmpFalse(fail_target(starts, k - 1, null_fallback)),
            fails[k - 1].len() as int,
        );
    }
}

/// Compiling an expression only moves the state forward; a function literal takes a
/// fresh number.
pub proof fn lemma_expr_grows(g: Gen, e: Expr)
    ensures
        grows(g, expr_gen(g, e)),
        e is Lambda ==> expr_gen(g, e).lambda_count > g.lambda_count,
    decreases e, 0nat,
{
    broadcast use lemma_gen_const_grows;

    match e {
        Expr::Binary(lhs, op, rhs) => {
            lemma_expr_grows(g, *lhs);
            lemma_expr_grows(expr_gen(g, *lhs), *rhs);
        },
        Expr::Unary(_, inner) => lemma_expr_grows(g, *inner),
        Expr::Call(name, args) => {
            if args.len() == 1 {
                lemma_expr_grows(g, args[0]);
            }
            lemma_args_grows(g, args, args.len() as int);
        },
        Expr::TailCall(_, args) => lemma_args_grows(g, args, args.len() as int),
        Expr::Lambda { params, body, .. } => {
            lemma_stmts_grows(
                Gen { code: Seq::empty(), lambda_count: g.lambda_count + 1, ..g },
                body,
                body.len() as int,
            );
        },
        Expr::FieldAccess(base, _) => lemma_expr_grows(g, *base),
        Expr::StructLiteral { fields, .. } => lemma_struct_fields_grows(g, fields, fields.len() as int),
        Expr::If(cond, then_e, else_e) => {
            lemma_expr_grows(g, *cond);
            let g1 = bump_label(expr_gen(g, *cond));
            let jmp_else = g1.code.len();
            lemma_expr_grows(emit(g1, InstrView::JmpFalse(0)), *then_e);
            let g2 = expr_gen(emit(g1, InstrView::JmpFalse(0)), *then_e);
            match else_e {
                Some(x) => {
                    let g3 = emit(bump_label(g2), InstrView::Jmp(0));
                    lemma_expr_grows(patch(g3, jmp_else, InstrView::JmpFalse(g3.code.len())), *x);
                },
                None => {},
            }
        },
        Expr::Match { value, arms } => {
            lemma_expr_grows(bump_label(g), *value);
            let tmp = match_var(g.labels);
            let g1 = emit(expr_gen(bump_label(g), *value), InstrView::InitVar(tmp));
            lemma_arms_grows(g1, tmp, arms, arms.len() as int);
            let r = arms_gen(g1, tmp, arms, arms.len() as int);
            let gn = gen_const(r.0, ValueView::Null);
            lemma_patch_all_len(gn.code, r.3, InstrView::Jmp(gn.code.len()), r.3.len() as int);
            let ends = patch_all(gn.code, r.3, InstrView::Jmp(gn.code.len()), r.3.len() as int);
            lemma_patch_fails_len(ends, r.1, r.2, r.0.code.len(), r.2.len() as int);
        },
        _ => {},
    }
}

/// Compiling arguments only moves the state forward.
pub proof fn lemma_args_grows(g: Gen, args: Vec<Expr>, k: int)
    ensures
        grows(g, args_gen(g, args, k)),
    decreases args, k,
{
    broadcast use lemma_gen_const_grows;

    if 0 < k <= args.len() {
        lemma_args_grows(g, args, k - 1);
        lemma_expr_grows(args_gen(g, args, k - 1), args[k - 1]);
    }
}

/// Compiling the fields of a struct literal only moves the state forward.
pub proof fn lemma_struct_fields_grows(g: Gen, fields: Vec<(String, Expr)>, k: int)
    ensures
        grows(g, struct_fields_gen(g, fields, k)),
    decreases fields, k,
{
    broadcast use lemma_gen_const_grows;

    if 0 < k <= fields.len() {
        lemma_struct_fields_grows(g, fields, k - 1);
        lemma_expr_grows(
            gen_const(struct_fields_gen(g, fields, k - 1), ValueView::String(fields[k - 1].0@)),
            fields[k - 1].1,
        );
    }
}

/// Compiling one arm only moves the state forward, through each of its parts; its jumps
/// lie in the new code.
pub proof fn lemma_arm_step_grows(g: Gen, tmp: Seq<char>, arm: MatchArm)
    ensures
        grows(g, pattern_gen(g, tmp, arm.pattern, arm.bind)),
        grows(pattern_gen(g, tmp, arm.pattern, arm.bind), arm_guarded(g, tmp, arm)),
        grows(
            bind_gen(arm_guarded(g, tmp, arm), tmp, arm.pattern, arm.bind),
            arm_valued(g, tmp, arm),
        ),
        grows(arm_guarded(g, tmp, arm), arm_valued(g, tmp, arm)),
        grows(g, arm_step(g, tmp, arm).0),
        forall|j: int|
            0 <= j < arm_step(g, tmp, arm).1.len() ==> g.code.len() <= #[trigger] arm_step(
                g,
                tmp,
                arm,
            ).1[j] < arm_step(g, tmp, arm).0.code.len(),
        g.code.len() <= arm_step(g, tmp, arm).2 < arm_step(g, tmp, arm).0.code.len(),
    decreases arm, 4nat,
{
    broadcast use lemma_gen_const_grows;

    lemma_pattern_grows(g, tmp, arm.pattern, arm.bind);
    let g1 = pattern_gen(g, tmp, arm.pattern, arm.bind);
    let g2 = emit(g1, InstrView::JmpFalse(0));
    match arm.guard {
        Some(gd) => lemma_expr_grows(g2, gd),
        None => {},
    }
    let g4 = bind_gen(arm_guarded(g, tmp, arm), tmp, arm.pattern, arm.bind);
    lemma_arm_body_grows(g4, arm.body, arm.body.len() as int);
}

/// Compiling arms only moves the state forward; the recorded positions lie in the new
/// code and the arms start in order.
pub proof fn lemma_arms_grows(g: Gen, tmp: Seq<char>, arms: Vec<MatchArm>, k: int)
    ensures
        grows(g, arms_gen(g, tmp, arms, k).0),
        arms_gen(g, tmp, arms, k).1.len() == arms_gen(g, tmp, arms, k).2.len(),
        arms_gen(g, tmp, arms, k).3.len() == arms_gen(g, tmp, arms, k).2.len(),
        0 <= k <= arms.len() ==> arms_gen(g, tmp, arms, k).2.len() == k,
        forall|i: int|
            0 <= i < arms_gen(g, tmp, arms, k).3.len() ==> #[trigger] arms_gen(g, tmp, arms, k).3[i]
                < arms_gen(g, tmp, arms, k).0.code.len(),
        forall|i: int, j: int|
            0 <= i < arms_gen(g, tmp, arms, k).2.len() && 0 <= j < arms_gen(
                g,
                tmp,
                arms,
                k,
            ).2[i].len() ==> #[trigger] arms_gen(g, tmp, arms, k).2[i][j] < arms_gen(
                g,
                tmp,
                arms,
                k,
            ).0.code.len(),
    decreases arms, k,
{
    broadcast use lemma_gen_const_grows;

    if 0 < k <= arms.len() {
        lemma_arms_grows(g, tmp, arms, k - 1);
        let prev = arms_gen(g, tmp, arms, k - 1);
        lemma_arm_step_grows(prev.0, tmp, arms[k - 1]);
    }
}

/// Compiling an arm's body only moves the state forward.
pub proof fn lemma_arm_body_grows(g: Gen, body: Vec<Stmt>, k: int)
    ensures
        grows(g, arm_body_gen(g, body, k)),
    decreases body, k,
{
    broadcast use lemma_gen_const_grows;

    if 0 < k <= body.len() {
        lemma_arm_body_grows(g, body, k - 1);
        let prev = arm_body_gen(g, body, k - 1);
        match body[k - 1] {
            Stmt::Expr(e) => {
                lemma_expr_grows(prev, e);
                lemma_stmt_grows(prev, body[k - 1]);
            },
            _ => lemma_stmt_grows(prev, body[k - 1]),
        }
    }
}

/// Compiling a pattern test only moves the state forward.
pub proof fn lemma_pattern_grows(g: Gen, tmp: Seq<char>, p: MatchPattern, bind: Option<String>)
    ensures
        grows(g, pattern_gen(g, tmp, p, bind)),
    decreases p, 0nat,
{
    broadcast use lemma_gen_const_grows;

    match p {
        MatchPattern::Literal(e) => lemma_expr_grows(emit(g, InstrView::Load(tmp)), e),
        MatchPattern::Or(ps) => lemma_alternatives_grows(g, tmp, ps, ps.len() as int),
        _ => {},
    }
}

/// Compiling alternatives only moves the state forward.
pub proof fn lemma_alternatives_grows(g: Gen, tmp: Seq<char>, ps: Vec<MatchPattern>, k: int)
    ensures
        grows(g, alternatives_gen(g, tmp, ps, k)),
    decreases ps, k,
{
    broadcast use lemma_gen_const_grows;

    if 0 < k <= ps.len() {
        lemma_alternatives_grows(g, tmp, ps, k - 1);
        let g1 = emit(alternatives_gen(g, tmp, ps, k - 1), InstrView::Load(tmp));
        match ps[k - 1] {
            MatchPattern::Literal(e) => lemma_expr_grows(g1, e),
            _ => {},
        }
    }
}

/// Compiling statements only moves the state forward.
pub proof fn lemma_stmts_grows(g: Gen, stmts: Vec<Stmt>, k: int)
    ensures
        grows(g, stmts_gen(g, stmts, k)),
    decreases stmts, k,
{
    broadcast use lemma_gen_const_grows;

    if 0 < k <= stmts.len() {
        lemma_stmts_grows(g, stmts, k - 1);
        lemma_stmt_grows(stmts_gen(g, stmts, k - 1), stmts[k - 1]);
    }
}

/// Compiling a statement only moves the state forward.
pub proof fn lemma_stmt_grows(g: Gen, s: Stmt)
    ensures
        grows(g, stmt_gen(g, s)),
    decreases s, 0nat,
{
    broadcast use lemma_gen_const_grows;

    match s {
        Stmt::Let { value, .. } => lemma_expr_grows(g, value),
        Stmt::Assign { value, .. } => lemma_expr_grows(g, value),
        Stmt::FieldAssign { obj, value, .. } => lemma_expr_grows(emit(g, InstrView::Load(obj@)), value),
        Stmt::Expr(e) => lemma_expr_grows(g, e),
        Stmt::Return(v) => match v {
            Some(e) => lemma_expr_grows(g, e),
            None => {},
        },
        Stmt::While(cond, body) => {
            lemma_expr_grows(g, cond);
            let g1 = bump_label(expr_gen(g, cond));
            lemma_stmts_grows(emit(g1, InstrView::JmpFalse(0)), body, body.len() as int);
        },
        Stmt::For { var, iterable, body } => {
            lemma_expr_grows(g, iterable);
            let key = "__for_iter_key_"@ + var@;
            let g1 = emit(
                emit(expr_gen(g, iterable), InstrView::Call("__for_iter"@, 1)),
                InstrView::InitVar(key),
            );
            let g2 = bump_label(
                emit(emit(g1, InstrView::Load(key)), InstrView::Call("__for_next"@, 1)),
            );
            lemma_stmts_grows(
                emit(emit(g2, InstrView::JmpFalse(0)), InstrView::InitVar(var@)),
                body,
                body.len() as int,
            );
        },
        Stmt::If { cond, then_block, else_block } => {
            lemma_expr_grows(g, cond);
            let g1 = bump_label(expr_gen(g, cond));
            let jmp_else = g1.code.len();
            lemma_stmts_grows(emit(g1, InstrView::JmpFalse(0)), then_block, then_block.len() as int);
            let g2 = stmts_gen(emit(g1, InstrView::JmpFalse(0)), then_block, then_block.len() as int);
            match else_block {
                Some(es) => {
                    let g3 = emit(bump_label(g2), InstrView::Jmp(0));
                    lemma_stmts_grows(
                        patch(g3, jmp_else, InstrView::JmpFalse(g3.code.len())),
                        es,
                        es.len() as int,
                    );
                },
                None => {},
            }
        },
        Stmt::Block(stmts) => lemma_stmts_grows(g, stmts, stmts.len() as int),
        Stmt::Print(e) => lemma_expr_grows(g, e),
        Stmt::PrintLn(e) => lemma_expr_grows(g, e),
        Stmt::Exit(e) => lemma_expr_grows(g, e),
        _ => {},
    }
}

/// A longer prefix of the arguments leaves a later state.
pub proof fn lemma_args_prefix(g: Gen, args: Vec<Expr>, j: int, k: int)
    requires
        0 <= j <= k <= args.len(),
    ensures
        grows(args_gen(g, args, j), args_gen(g, args, k)),
    decreases k - j,
{
    broadcast use lemma_gen_const_grows;

    if j < k {
        lemma_args_prefix(g, args, j, k - 1);
        lemma_expr_grows(args_gen(g, args, k - 1), args[k - 1]);
    }
}

/// A longer prefix of the fields leaves a later state.
pub proof fn lemma_struct_fields_prefix(g: Gen, fields: Vec<(String, Expr)>, j: int, k: int)
    requires
        0 <= j <= k <= fields.len(),
    ensures
        grows(struct_fields_gen(g, fields, j), struct_fields_gen(g, fields, k)),
    decreases k - j,
{
    broadcast use lemma_gen_const_grows;

    if j < k {
        lemma_struct_fields_prefix(g, fields, j, k - 1);
        lemma_expr_grows(
            gen_const(struct_fields_gen(g, fields, k - 1), ValueView::String(fields[k - 1].0@)),
            fields[k - 1].1,
        );
    }
}

/// A longer prefix of the statements leaves a later state.
pub proof fn lemma_stmts_prefix(g: Gen, stmts: Vec<Stmt>, j: int, k: int)
    requires
        0 <= j <= k <= stmts.len(),
    ensures
        grows(stmts_gen(g, stmts, j), stmts_gen(g, stmts, k)),
    decreases k - j,
{
    broadcast use lemma_gen_const_grows;

    if j < k {
        lemma_stmts_prefix(g, stmts, j, k - 1);
        lemma_stmt_grows(stmts_gen(g, stmts, k - 1), stmts[k - 1]);
    }
}

/// A longer prefix of an arm's body leaves a later state.
pub proof fn lemma_arm_body_prefix(g: Gen, body: Vec<Stmt>, j: int, k: int)
    requires
        0 <= j <= k <= body.len(),
    ensures
        grows(arm_body_gen(g, body, j), arm_body_gen(g, body, k)),
    decreases k - j,
{
    broadcast use lemma_gen_const_grows;

    if j < k {
        lemma_arm_body_prefix(g, body, j, k - 1);
        let prev = arm_body_gen(g, body, k - 1);
        match body[k - 1] {
            Stmt::Expr(e) => {
                lemma_expr_grows(prev, e);
                lemma_stmt_grows(prev, body[k - 1]);
            },
            _ => lemma_stmt_grows(prev, body[k - 1]),
        }
    }
}

/// A longer prefix of the alternatives leaves a later state.
pub proof fn lemma_alternatives_prefix(g: Gen, tmp: Seq<char>, ps: Vec<MatchPattern>, j: int, k: int)
    requires
        0 <= j <= k <= ps.len(),
    ensures
        grows(alternatives_gen(g, tmp, ps, j), alternatives_gen(g, tmp, ps, k)),
    decreases k - j,
{
    broadcast use lemma_gen_const_grows;

    if j < k {
        lemma_alternatives_prefix(g, tmp, ps, j, k - 1);
        let g1 = emit(alternatives_gen(g, tmp, ps, k - 1), InstrView::Load(tmp));
        match ps[k - 1] {
            MatchPattern::Literal(e) => lemma_expr_grows(g1, e),
            _ => {},
        }
    }
}

/// A longer prefix of the arms leaves a later state.
pub proof fn lemma_arms_prefix(g: Gen, tmp: Seq<char>, arms: Vec<MatchArm>, j: int, k: int)
    requires
        0 <= j <= k <= arms.len(),
    ensures
        grows(arms_gen(g, tmp, arms, j).0, arms_gen(g, tmp, arms, k).0),
    decreases k - j,
{
    broadcast use lemma_gen_const_grows;

    if j < k {
        lemma_arms_prefix(g, tmp, arms, j, k - 1);
        lemma_arm_step_grows(arms_gen(g, tmp, arms, k - 1).0, tmp, arms[k - 1]);
    }
}

/// Whether `r` reports the outcome that `expected` describes from the state `after`:
/// success exactly when no pattern was refused, then with that state; otherwise the
/// refusal's message.
pub open spec fn compiled_as(r: Result<(), String>, after: Gen, expected: Gen) -> bool {
    &&& (r is Ok <==> expected.ok)
    &&& (r is Ok ==> after == expected)
    &&& (r is Err ==> r->Err_0@ == or_pattern_message())
}

/// Positions as numbers.
pub open spec fn nats(v: Seq<usize>) -> Seq<nat> {
    v.map_values(|x: usize| x as nat)
}

/// Lists of positions as numbers.
pub open spec fn nats2(v: Seq<Vec<usize>>) -> Seq<Seq<nat>> {
    v.map_values(|x: Vec<usize>| nats(x@))
}

/// Whether `name` is `lit`.
fn is_name(name: &String, lit: &str) -> (b: bool)
    ensures
        b == (name@ == lit@),
{
    *name == String::from_str(lit)
}

/// The code of a function: its body, compiled on its own and ending with `Return`.
pub open spec fn function_gen(g: Gen, name: Seq<char>, params: Vec<Param>, body: Vec<Stmt>) -> (
    Gen,
    FunctionView,
) {
    let inner = stmts_gen(Gen { code: Seq::empty(), ..g }, body, body.len() as int);
    (
        Gen { code: g.code, ..inner },
        FunctionView {
            name: name,
            instructions: with_return(inner.code),
            param_count: params.len() as nat,
            param_names: param_names(params@),
        },
    )
}

/// The functions of the first `k` methods of an `impl` for type `ty`: each method is
/// compiled under its own name, as `ty::name` and as `ty.name`.
pub open spec fn methods_gen(
    g: Gen,
    fs: Seq<FunctionView>,
    ty: Seq<char>,
    methods: Vec<Stmt>,
    k: int,
) -> (Gen, Seq<FunctionView>)
    decreases k,
{
    if k <= 0 || k > methods.len() {
        (g, fs)
    } else {
        let prev = methods_gen(g, fs, ty, methods, k - 1);
        match methods[k - 1] {
            Stmt::FnDef { name, params, body, .. } => {
                let a = function_gen(prev.0, name@, params, body);
                let b = function_gen(a.0, ty + "::"@ + name@, params, body);
                let c = function_gen(b.0, ty + "."@ + name@, params, body);
                (c.0, prev.1.push(a.1).push(b.1).push(c.1))
            },
            _ => prev,
        }
    }
}

/// The main code and the functions of the first `k` top-level statements: function
/// definitions and `impl` blocks give functions, type and enum definitions nothing, the
/// rest goes to the main code.
pub open spec fn top_gen(g: Gen, fs: Seq<FunctionView>, stmts: Vec<Stmt>, k: int) -> (
    Gen,
    Seq<FunctionView>,
)
    decreases k,
{
    if k <= 0 || k > stmts.len() {
        (g, fs)
    } else {
        let prev = top_gen(g, fs, stmts, k - 1);
        match stmts[k - 1] {
            Stmt::FnDef { name, params, body, .. } => {
                let a = function_gen(prev.0, name@, params, body);
                (a.0, prev.1.push(a.1))
            },
            Stmt::ImplBlock { impl_type, methods } => methods_gen(
                prev.0,
                prev.1,
                impl_type@,
                methods,
                methods.len() as int,
            ),
            Stmt::TypeDef { .. } => prev,
            Stmt::EnumDef { .. } => prev,
            _ => (stmt_gen(prev.0, stmts[k - 1]), prev.1),
        }
    }
}

/// Whether a function is a `main` without parameters.
pub open spec fn is_main(f: FunctionView) -> bool {
    f.name == "main"@ && f.param_count == 0
}

/// The state after all top-level statements of a program.
pub open spec fn program_result(p: Program) -> (Gen, Seq<FunctionView>) {
    top_gen(initial_gen(), Seq::empty(), p.statements, p.statements.len() as int)
}

/// Whether a program compiles: no or-pattern in it holds anything but literals.
pub open spec fn program_ok(p: Program) -> bool {
    program_result(p).0.ok
}

/// The compiled program: the main code, a call of `main` when one without parameters
/// was defined, `Halt`; the functions followed by the function literals; the constants.
pub open spec fn program_gen(p: Program) -> ProgramView {
    let r = program_result(p);
    let main = if exists|i: int| 0 <= i < r.1.len() && is_main(#[trigger] r.1[i]) {
        r.0.code.push(InstrView::Call("main"@, 0)).push(InstrView::Pop)
    } else {
        r.0.code
    };
    ProgramView { main: main.push(InstrView::Halt), functions: r.1 + r.0.lambdas, constants: r.0.consts }
}

/// Compiling a function only moves the state forward and keeps the code.
pub proof fn lemma_function_grows(g: Gen, name: Seq<char>, params: Vec<Param>, body: Vec<Stmt>)
    ensures
        grows(g, function_gen(g, name, params, body).0),
        function_gen(g, name, params, body).0.code == g.code,
{
    broadcast use lemma_gen_const_grows;

    lemma_stmts_grows(Gen { code: Seq::empty(), ..g }, body, body.len() as int);
}

/// A longer prefix of the methods leaves a later state.
pub proof fn lemma_methods_prefix(
    g: Gen,
    fs: Seq<FunctionView>,
    ty: Seq<char>,
    methods: Vec<Stmt>,
    j: int,
    k: int,
)
    requires
        0 <= j <= k <= methods.len(),
    ensures
        grows(methods_gen(g, fs, ty, methods, j).0, methods_gen(g, fs, ty, methods, k).0),
    decreases k - j,
{
    broadcast use lemma_gen_const_grows;

    if j < k {
        lemma_methods_prefix(g, fs, ty, methods, j, k - 1);
        let prev = methods_gen(g, fs, ty, methods, k - 1);
        match methods[k - 1] {
            Stmt::FnDef { name, params, body, .. } => {
                lemma_function_grows(prev.0, name@, params, body);
                let a = function_gen(prev.0, name@, params, body);
                lemma_function_grows(a.0, ty + "::"@ + name@, params, body);
                let b = function_gen(a.0, ty + "::"@ + name@, params, body);
                lemma_function_grows(b.0, ty + "."@ + name@, params, body);
            },
            _ => {},
        }
    }
}

/// A longer prefix of the top-level statements leaves a later state.
pub proof fn lemma_top_prefix(g: Gen, fs: Seq<FunctionView>, stmts: Vec<Stmt>, j: int, k: int)
    requires
        0 <= j <= k <= stmts.len(),
    ensures
        grows(top_gen(g, fs, stmts, j).0, top_gen(g, fs, stmts, k).0),
    decreases k - j,
{
    broadcast use lemma_gen_const_grows;

    if j < k {
        lemma_top_prefix(g, fs, stmts, j, k - 1);
        let prev = top_gen(g, fs, stmts, k - 1);
        match stmts[k - 1] {
            Stmt::FnDef { name, params, body, .. } => lemma_function_grows(prev.0, name@, params, body),
            Stmt::ImplBlock { impl_type, methods } => lemma_methods_prefix(
                prev.0,
                prev.1,
                impl_type@,
                methods,
                0,
                methods.len() as int,
            ),
            Stmt::TypeDef { .. } => {},
            Stmt::EnumDef { .. } => {},
            _ => lemma_stmt_grows(prev.0, stmts[k - 1]),
        }
    }
}

/// The constant pool of a compiled program holds no two constants that compare equal: a
/// constant is added only when no equal one is there yet (function literals never
/// compare equal, so each has its own).
pub proof fn lemma_constants_distinct(p: Program)
    ensures
        distinct_values(program_gen(p).constants),
{
    broadcast use lemma_gen_const_grows;

    lemma_top_prefix(initial_gen(), Seq::empty(), p.statements, 0, p.statements.len() as int);
}

/// Whether the counters of a state fit in machine integers.
pub open spec fn bounded(g: Gen) -> bool {
    g.labels <= usize::MAX && g.lambda_count <= usize::MAX
}

/// Appends an instruction.
fn emit_instr(code: &mut Vec<Instruction>, x: Instruction)
    ensures
        instrs_view(final(code)@) == instrs_view(old(code)@).push(x@),
        final(code)@.len() == old(code)@.len() + 1,
{
    code.push(x);
    assert(instrs_view(code@) =~= instrs_view(old(code)@).push(x@));
}

/// Replaces the instruction at `pos`.
fn set_instr(code: &mut Vec<Instruction>, pos: usize, x: Instruction)
    requires
        pos < old(code)@.len(),
    ensures
        instrs_view(final(code)@) == set_at(instrs_view(old(code)@), pos as nat, x@),
        final(code)@.len() == old(code)@.len(),
{
    code.set(pos, x);
    assert(instrs_view(code@) =~= instrs_view(old(code)@).update(pos as int, x@));
}

/// A string made of `prefix` and the decimal text of `n`.
fn numbered(prefix: &str, n: usize) -> (s: String)
    ensures
        s@ == prefix@ + decimal(n as nat),
{
    let mut s = String::from_str(prefix);
    push_decimal(&mut s, n as u64);
    s
}

/// A string made of `a` and `b`.
fn concat(a: &str, b: &str) -> (s: String)
    ensures
        s@ == a@ + b@,
{
    let mut s = String::from_str(a);
    s.append(b);
    s
}

/// The names of parameters.
fn names_of(params: &Vec<Param>) -> (v: Vec<String>)
    ensures
        strings_view(v@) == param_names(params@),
{
    let mut v: Vec<String> = Vec::new();
    let mut i: usize = 0;
    while i < params.len()
        invariant
            i <= params.len(),
            v@.len() == i,
            strings_view(v@) == param_names(params@.take(i as int)),
        decreases params.len() - i,
    {
        let nm = params[i].name.clone();
        let ghost v0 = v@;
        v.push(nm);
        assert(params@.take(i as int + 1) =~= params@.take(i as int).push(params@[i as int]));
        assert(strings_view(v@) =~= strings_view(v0).push(nm@));
        assert(param_names(params@.take(i as int + 1)) =~= param_names(params@.take(i as int)).push(
            params@[i as int].name@,
        ));
        i = i + 1;
    }
    assert(params@.take(params.len() as int) =~= params@);
    v
}

/// Whether a name starts with an uppercase letter.
fn starts_upper_exec(name: &String) -> (b: bool)
    ensures
        b == starts_upper(name@),
{
    let cs = chars_of(name.as_str());
    cs.len() > 0 && is_uppercase(cs[0])
}

/// Whether `code` already ends with `Return`.
fn ends_with_return(code: &Vec<Instruction>) -> (b: bool)
    ensures
        b == (instrs_view(code@).len() > 0 && instrs_view(code@).last() == InstrView::Return),
{
    if code.len() == 0 {
        false
    } else {
        match &code[code.len() - 1] {
            Instruction::Return => true,
            _ => false,
        }
    }
}

/// Compiles a syntax tree to bytecode: the constant pool, counters for labels and
/// function literals, and the compiled function literals.
pub struct Codegen {
    constants: Vec<Value>,
    next_label: usize,
    lambda_count: usize,
    lambdas: Vec<CompiledFunction>,
}

impl Codegen {
    /// The state of generation with `code` as the code being written.
    pub closed spec fn state(&self, code: Seq<Instruction>) -> Gen {
        Gen {
            consts: values_view(self.constants@),
            labels: self.next_label as nat,
            lambda_count: self.lambda_count as nat,
            lambdas: functions_view(self.lambdas@),
            code: instrs_view(code),
            ok: true,
        }
    }

    /// A generator with no constants, labels or function literals yet.
    pub fn new() -> (cg: Self)
        ensures
            cg.state(Seq::empty()) == initial_gen(),
    {
        let cg = Codegen { constants: Vec::new(), next_label: 0, lambda_count: 0, lambdas: Vec::new() };
        assert(values_view(cg.constants@) =~= Seq::empty());
        assert(functions_view(cg.lambdas@) =~= Seq::empty());
        assert(instrs_view(Seq::<Instruction>::empty()) =~= Seq::empty());
        cg
    }

    fn new_label(&mut self) -> (label: usize)
        requires
            old(self).next_label < usize::MAX,
        ensures
            label == old(self).next_label,
            final(self).next_label == old(self).next_label + 1,
            final(self).constants == old(self).constants,
            final(self).lambda_count == old(self).lambda_count,
            final(self).lambdas == old(self).lambdas,
    {
        let label = self.next_label;
        self.next_label = self.next_label + 1;
        label
    }

    fn add_constant(&mut self, value: Value) -> (idx: usize)
        ensures
            find_value(values_view(old(self).constants@), value@, 0) >= 0 ==> {
                &&& idx == find_value(values_view(old(self).constants@), value@, 0)
                &&& final(self).constants@ == old(self).constants@
            },
            find_value(values_view(old(self).constants@), value@, 0) < 0 ==> {
                &&& idx == old(self).constants@.len()
                &&& final(self).constants@ == old(self).constants@.push(value)
            },
            final(self).next_label == old(self).next_label,
            final(self).lambda_count == old(self).lambda_count,
            final(self).lambdas == old(self).lambdas,
    {
        let ghost cs = values_view(self.constants@);
        let mut j: usize = 0;
        while j < self.constants.len()
            invariant
                j <= self.constants@.len(),
                cs == values_view(self.constants@),
                self == old(self),
                find_value(cs, value@, 0) == find_value(cs, value@, j as int),
            decreases self.constants@.len() - j,
        {
            if values_equal(&self.constants[j], &value) {
                return j;
            }
            j = j + 1;
        }
        self.constants.push(value);
        self.constants.len() - 1
    }

    /// Loads the constant `value` (added to the pool unless an equal one is there).
    fn push_const(&mut self, value: Value, code: &mut Vec<Instruction>)
        ensures
            final(self).state(final(code)@) == gen_const(old(self).state(old(code)@), value@),
    {
        let ghost v = value@;
        let idx = self.add_constant(value);
        emit_instr(code, Instruction::Const(idx));
        assert(values_view(old(self).constants@.push(value)) =~= values_view(old(self).constants@).push(v));
        assert(self.state(code@) =~= gen_const(old(self).state(old(code)@), v));
    }

    /// Appends the code of an expression.
    fn compile_expr(&mut self, e: &Expr, code: &mut Vec<Instruction>) -> (r: Result<(), String>)
        requires
            bounded(expr_gen(old(self).state(old(code)@), *e)),
        ensures
            compiled_as(r, final(self).state(final(code)@), expr_gen(old(self).state(old(code)@), *e)),
        decreases e, 1nat,
    {
        let ghost g = self.state(code@);
        match e {
            Expr::Integer(n) => {
                self.push_const(Value::Integer(*n), code);
                Ok(())
            },
            Expr::Float(f) => {
                self.push_const(Value::Float(f.bits), code);
                Ok(())
            },
            Expr::String(s) => {
                self.push_const(Value::String(s.clone()), code);
                Ok(())
            },
            Expr::Bool(b) => {
                self.push_const(Value::Bool(*b), code);
                Ok(())
            },
            Expr::Char(c) => {
                self.push_const(Value::Char(*c), code);
                Ok(())
            },
            Expr::Ident(name) => {
                emit_instr(code, Instruction::Load(name.clone()));
                Ok(())
            },
            Expr::Null => {
                self.push_const(Value::Null, code);
                Ok(())
            },
            Expr::Binary(..) | Expr::Unary(..) | Expr::FieldAccess(..) => self.compile_operation(e, code),
            Expr::Call(..) | Expr::TailCall(..) => self.compile_call(e, code),
            Expr::Lambda { .. } => self.compile_lambda(e, code),
            Expr::StructLiteral { .. } => self.compile_struct_literal(e, code),
            Expr::If(..) => self.compile_if_expr(e, code),
            Expr::Match { .. } => self.compile_match(e, code),
        }
    }

    /// Appends the code of an operator application or a field access.
    fn compile_operation(&mut self, e: &Expr, code: &mut Vec<Instruction>) -> (r: Result<(), String>)
        requires
            e is Binary || e is Unary || e is FieldAccess,
            bounded(expr_gen(old(self).state(old(code)@), *e)),
        ensures
            compiled_as(r, final(self).state(final(code)@), expr_gen(old(self).state(old(code)@), *e)),
        decreases e, 0nat,
    {
        let ghost g = self.state(code@);
        match e {
            Expr::Binary(lhs, op, rhs) => {
                if matches!(op, BinOp::Range | BinOp::RangeInclusive) {
                    self.push_const(Value::Null, code);
                    return Ok(());
                }
                proof {
                    lemma_expr_grows(g, **lhs);
                    lemma_expr_grows(expr_gen(g, **lhs), **rhs);
                }
                let r1 = self.compile_expr(lhs, code);
                if r1.is_err() {
                    return r1;
                }
                let r2 = self.compile_expr(rhs, code);
                if r2.is_err() {
                    return r2;
                }
                let instr = match op {
                    BinOp::Add => Instruction::Add,
                    BinOp::Sub => Instruction::Sub,
                    BinOp::Mul => Instruction::Mul,
                    BinOp::Div => Instruction::Div,
                    BinOp::Mod => Instruction::Mod,
                    BinOp::Eq => Instruction::Eq,
                    BinOp::Neq => Instruction::Neq,
                    BinOp::Lt => Instruction::Lt,
                    BinOp::Gt => Instruction::Gt,
                    BinOp::Lte => Instruction::Lte,
                    BinOp::Gte => Instruction::Gte,
                    BinOp::And => Instruction::And,
                    BinOp::Or => Instruction::Or,
                    BinOp::Concat => Instruction::Concat,
                    _ => Instruction::Nop,
                };
                emit_instr(code, instr);
                Ok(())
            },
            Expr::Unary(op, inner) => {
                let r1 = self.compile_expr(inner, code);
                if r1.is_err() {
                    return r1;
                }
                match op {
                    UnaryOp::Neg => emit_instr(code, Instruction::Neg),
                    UnaryOp::Not => emit_instr(code, Instruction::Not),
                }
                Ok(())
            },
            Expr::FieldAccess(base, field) => {
                let r1 = self.compile_expr(base, code);
                if r1.is_err() {
                    return r1;
                }
                emit_instr(code, Instruction::StructGet(field.clone()));
                Ok(())
            },
            _ => Ok(()),
        }
    }

    /// Appends the code of arguments, in order.
    fn compile_args(&mut self, args: &Vec<Expr>, code: &mut Vec<Instruction>) -> (r: Result<(), String>)
        requires
            bounded(args_gen(old(self).state(old(code)@), *args, args.len() as int)),
        ensures
            compiled_as(
                r,
                final(self).state(final(code)@),
                args_gen(old(self).state(old(code)@), *args, args.len() as int),
            ),
        decreases args, 0nat,
    {
        let ghost g = self.state(code@);
        let mut i: usize = 0;
        while i < args.len()
            invariant
                i <= args.len(),
                g == old(self).state(old(code)@),
                bounded(args_gen(g, *args, args.len() as int)),
                self.state(code@) == args_gen(g, *args, i as int),
            decreases args.len() - i,
        {
            proof {
                lemma_args_prefix(g, *args, i as int + 1, args.len() as int);
            }
            assert(decreases_to!(*args => args[i as int]));
            let r1 = self.compile_expr(&args[i], code);
            if r1.is_err() {
                return r1;
            }
            i = i + 1;
        }
        Ok(())
    }

    /// Appends the code of a call: the built-in conversions and constructors get their
    /// own instructions, anything else pushes its arguments and calls by name.
    fn compile_call(&mut self, e: &Expr, code: &mut Vec<Instruction>) -> (r: Result<(), String>)
        requires
            e is Call || e is TailCall,
            bounded(expr_gen(old(self).state(old(code)@), *e)),
        ensures
            compiled_as(r, final(self).state(final(code)@), expr_gen(old(self).state(old(code)@), *e)),
        decreases e, 0nat,
    {
        let ghost g = self.state(code@);
        match e {
            Expr::Call(name, args) => {
                if is_name(name, "to_str") && args.len() == 1 {
                    let r1 = self.compile_expr(&args[0], code);
                    if r1.is_err() {
                        return r1;
                    }
                    emit_instr(code, Instruction::ToString);
                } else if is_name(name, "read_line") && args.len() == 0 {
                    emit_instr(code, Instruction::ReadLine);
                } else if is_name(name, "Ok") && args.len() == 1 {
                    let r1 = self.compile_expr(&args[0], code);
                    if r1.is_err() {
                        return r1;
                    }
                    emit_instr(code, Instruction::EnumNew(String::from_str("Result"), String::from_str("Ok"), 1));
                } else if is_name(name, "Err") && args.len() == 1 {
                    let r1 = self.compile_expr(&args[0], code);
                    if r1.is_err() {
                        return r1;
                    }
                    emit_instr(code, Instruction::EnumNew(String::from_str("Result"), String::from_str("Err"), 1));
                } else if is_name(name, "Some") && args.len() == 1 {
                    let r1 = self.compile_expr(&args[0], code);
                    if r1.is_err() {
                        return r1;
                    }
                    emit_instr(code, Instruction::EnumNew(String::from_str("Option"), String::from_str("Some"), 1));
                } else if is_name(name, "None") && args.len() == 0 {
                    emit_instr(code, Instruction::EnumNew(String::from_str("Option"), String::from_str("None"), 0));
                } else {
                    let r1 = self.compile_args(args, code);
                    if r1.is_err() {
                        return r1;
                    }
                    emit_instr(code, Instruction::Call(name.clone(), args.len()));
                }
                Ok(())
            },
            Expr::TailCall(name, args) => {
                let r1 = self.compile_args(args, code);
                if r1.is_err() {
                    return r1;
                }
                emit_instr(code, Instruction::Call(name.clone(), args.len()));
                Ok(())
            },
            _ => Ok(()),
        }
    }

    /// Appends the code of a function literal: its body becomes a function of its own,
    /// named by its number, and the code loads that function.
    fn compile_lambda(&mut self, e: &Expr, code: &mut Vec<Instruction>) -> (r: Result<(), String>)
        requires
            e is Lambda,
            bounded(expr_gen(old(self).state(old(code)@), *e)),
        ensures
            compiled_as(r, final(self).state(final(code)@), expr_gen(old(self).state(old(code)@), *e)),
        decreases e, 0nat,
    {
        let ghost g = self.state(code@);
        proof {
            lemma_expr_grows(g, *e);
        }
        match e {
            Expr::Lambda { params, body, .. } => {
                let name = numbered("__lambda_", self.lambda_count);
                self.lambda_count = self.lambda_count + 1;
                let mut lcode: Vec<Instruction> = Vec::new();
                assert(instrs_view(lcode@) =~= Seq::empty());
                assert(self.state(lcode@) == (Gen { code: Seq::empty(), lambda_count: g.lambda_count + 1, ..g }));
                let r1 = self.compile_body(body, &mut lcode);
                if r1.is_err() {
                    return r1;
                }
                if !ends_with_return(&lcode) {
                    emit_instr(&mut lcode, Instruction::Return);
                }
                let compiled = CompiledFunction {
                    name: name.clone(),
                    instructions: lcode,
                    param_count: params.len(),
                    param_names: names_of(params),
                };
                let ghost fs = self.lambdas@;
                self.lambdas.push(compiled);
                assert(functions_view(self.lambdas@) =~= functions_view(fs).push(compiled@));
                self.push_const(Value::Function(name), code);
                Ok(())
            },
            _ => Ok(()),
        }
    }

    /// Appends the code of a struct literal: each field's name and value, then the
    /// construction.
    fn compile_struct_literal(&mut self, e: &Expr, code: &mut Vec<Instruction>) -> (r: Result<
        (),
        String,
    >)
        requires
            e is StructLiteral,
            bounded(expr_gen(old(self).state(old(code)@), *e)),
        ensures
            compiled_as(r, final(self).state(final(code)@), expr_gen(old(self).state(old(code)@), *e)),
        decreases e, 0nat,
    {
        let ghost g = self.state(code@);
        match e {
            Expr::StructLiteral { struct_name, fields } => {
                let mut i: usize = 0;
                while i < fields.len()
                    invariant
                        i <= fields.len(),
                        *e == (Expr::StructLiteral { struct_name: *struct_name, fields: *fields }),
                        g == old(self).state(old(code)@),
                        bounded(struct_fields_gen(g, *fields, fields.len() as int)),
                        self.state(code@) == struct_fields_gen(g, *fields, i as int),
                    decreases fields.len() - i,
                {
                    proof {
                        lemma_struct_fields_prefix(g, *fields, i as int + 1, fields.len() as int);
                    }
                    let field = &fields[i];
                    assert(decreases_to!(*fields => fields[i as int]));
                    assert(*fields == e->StructLiteral_fields);
                    assert(decreases_to!(*e => *fields));
                    self.push_const(Value::String(field.0.clone()), code);
                    let r1 = self.compile_expr(&field.1, code);
                    if r1.is_err() {
                        return r1;
                    }
                    i = i + 1;
                }
                emit_instr(code, Instruction::StructNew(struct_name.clone(), fields.len()));
                Ok(())
            },
            _ => Ok(()),
        }
    }

    /// Appends the code of an `if` expression: without `else` its value is null when the
    /// condition fails.
    fn compile_if_expr(&mut self, e: &Expr, code: &mut Vec<Instruction>) -> (r: Result<(), String>)
        requires
            e is If,
            bounded(expr_gen(old(self).state(old(code)@), *e)),
        ensures
            compiled_as(r, final(self).state(final(code)@), expr_gen(old(self).state(old(code)@), *e)),
        decreases e, 0nat,
    {
        let ghost g = self.state(code@);
        match e {
            Expr::If(cond, then_e, else_e) => {
                proof {
                    lemma_expr_grows(g, **cond);
                    let g1 = bump_label(expr_gen(g, **cond));
                    lemma_expr_grows(emit(g1, InstrView::JmpFalse(0)), **then_e);
                    let g2 = expr_gen(emit(g1, InstrView::JmpFalse(0)), **then_e);
                    match else_e {
                        Some(x) => {
                            let g3 = emit(bump_label(g2), InstrView::Jmp(0));
                            lemma_expr_grows(patch(g3, g1.code.len(), InstrView::JmpFalse(g3.code.len())), **x);
                        },
                        None => {},
                    }
                }
                let r1 = self.compile_expr(cond, code);
                if r1.is_err() {
                    return r1;
                }
                let _else_label = self.new_label();
                emit_instr(code, Instruction::JmpFalse(0));
                let jmp_else_pos = code.len() - 1;
                let r2 = self.compile_expr(then_e, code);
                if r2.is_err() {
                    return r2;
                }
                match else_e {
                    Some(x) => {
                        let _end_label = self.new_label();
                        emit_instr(code, Instruction::Jmp(0));
                        let jmp_end_pos = code.len() - 1;
                        let else_pos = code.len();
                        set_instr(code, jmp_else_pos, Instruction::JmpFalse(else_pos));
                        let r3 = self.compile_expr(x, code);
                        if r3.is_err() {
                            return r3;
                        }
                        let end_pos = code.len();
                        set_instr(code, jmp_end_pos, Instruction::Jmp(end_pos));
                    },
                    None => {
                        let else_pos = code.len();
                        set_instr(code, jmp_else_pos, Instruction::JmpFalse(else_pos));
                        self.push_const(Value::Null, code);
                    },
                }
                Ok(())
            },
            _ => Ok(()),
        }
    }

    /// Appends the code of a `match`: the value goes into a fresh variable, each arm
    /// tests it in turn and jumps to the next arm when it does not apply; null when no
    /// arm applies.
    #[verifier::rlimit(100)]
    #[verifier::spinoff_prover]
    fn compile_match(&mut self, e: &Expr, code: &mut Vec<Instruction>) -> (r: Result<(), String>)
        requires
            e is Match,
            bounded(expr_gen(old(self).state(old(code)@), *e)),
        ensures
            compiled_as(r, final(self).state(final(code)@), expr_gen(old(self).state(old(code)@), *e)),
        decreases e, 0nat,
    {
        let ghost g = self.state(code@);
        let ghost fin = expr_gen(g, *e);
        match e {
            Expr::Match { value, arms } => {
                let ghost tmp = match_var(g.labels);
                let ghost g1 = emit(expr_gen(bump_label(g), **value), InstrView::InitVar(tmp));
                let ghost all = arms_gen(g1, tmp, *arms, arms.len() as int);
                proof {
                    lemma_expr_grows(bump_label(g), **value);
                    lemma_arms_grows(g1, tmp, *arms, arms.len() as int);
                }
                let end_label = self.new_label();
                let tmp_var = numbered("__match_", end_label);
                let r1 = self.compile_expr(value, code);
                if r1.is_err() {
                    return r1;
                }
                emit_instr(code, Instruction::InitVar(tmp_var.clone()));
                assert(self.state(code@) == g1);
                let mut arm_starts: Vec<usize> = Vec::new();
                let mut fail_jmps: Vec<Vec<usize>> = Vec::new();
                let mut end_jmps: Vec<usize> = Vec::new();
                let mut i: usize = 0;
                while i < arms.len()
                    invariant
                        i <= arms.len(),
                        *e == (Expr::Match { value: *value, arms: *arms }),
                        tmp_var@ == tmp,
                        all == arms_gen(g1, tmp, *arms, arms.len() as int),
                        g == old(self).state(old(code)@),
                        fin == expr_gen(g, *e),
                        tmp == match_var(g.labels),
                        g1 == emit(expr_gen(bump_label(g), **value), InstrView::InitVar(tmp)),
                        bounded(all.0),
                        self.state(code@) == arms_gen(g1, tmp, *arms, i as int).0,
                        nats(arm_starts@) == arms_gen(g1, tmp, *arms, i as int).1,
                        nats2(fail_jmps@) == arms_gen(g1, tmp, *arms, i as int).2,
                        nats(end_jmps@) == arms_gen(g1, tmp, *arms, i as int).3,
                    decreases arms.len() - i,
                {
                    proof {
                        lemma_arms_prefix(g1, tmp, *arms, i as int + 1, arms.len() as int);
                    }
                    let arm = &arms[i];
                    assert(decreases_to!(*arms => arms[i as int]));
                    assert(*arms == e->Match_arms);
                    assert(decreases_to!(*e => *arms));
                    let start = code.len();
                    let r2 = self.compile_arm(arm, &tmp_var, code);
                    match r2 {
                        Err(m) => {
                            return Err(m);
                        },
                        Ok((fails, end)) => {
                            let ghost s0 = arm_starts@;
                            let ghost f0 = fail_jmps@;
                            let ghost e0 = end_jmps@;
                            arm_starts.push(start);
                            fail_jmps.push(fails);
                            end_jmps.push(end);
                            assert(nats(arm_starts@) =~= nats(s0).push(start as nat));
                            assert(nats2(fail_jmps@) =~= nats2(f0).push(nats(fails@)));
                            assert(nats(end_jmps@) =~= nats(e0).push(end as nat));
                        },
                    }
                    i = i + 1;
                }
                let null_fallback = code.len();
                self.push_const(Value::Null, code);
                let end_pos = code.len();
                let ghost gn = self.state(code@);
                let mut j: usize = 0;
                while j < end_jmps.len()
                    invariant
                        j <= end_jmps.len(),
                        nats(end_jmps@) == all.3,
                        null_fallback == all.0.code.len(),
                        null_fallback < end_pos,
                        gn.code.len() == end_pos,
                        forall|k: int| 0 <= k < all.3.len() ==> #[trigger] all.3[k] < all.0.code.len(),
                        code@.len() == end_pos,
                        self.state(code@) == (Gen {
                            code: patch_all(gn.code, all.3, InstrView::Jmp(end_pos as nat), j as int),
                            ..gn
                        }),
                    decreases end_jmps.len() - j,
                {
                    proof {
                        lemma_patch_all_len(gn.code, all.3, InstrView::Jmp(end_pos as nat), j as int);
                    }
                    assert(all.3[j as int] == end_jmps@[j as int] as nat);
                    set_instr(code, end_jmps[j], Instruction::Jmp(end_pos));
                    j = j + 1;
                }
                let ghost ends = patch_all(gn.code, all.3, InstrView::Jmp(end_pos as nat), all.3.len() as int);
                proof {
                    lemma_patch_all_len(gn.code, all.3, InstrView::Jmp(end_pos as nat), all.3.len() as int);
                }
                let mut a: usize = 0;
                while a < arms.len()
                    invariant
                        a <= arms.len(),
                        arms.len() == all.2.len(),
                        all.1.len() == all.2.len(),
                        nats(arm_starts@) == all.1,
                        nats2(fail_jmps@) == all.2,
                        null_fallback == all.0.code.len(),
                        forall|i2: int, j2: int|
                            0 <= i2 < all.2.len() && 0 <= j2 < all.2[i2].len() ==> #[trigger] all.2[i2][j2]
                                < all.0.code.len(),
                        ends.len() == end_pos,
                        null_fallback < end_pos,
                        code@.len() == end_pos,
                        self.state(code@) == (Gen {
                            code: patch_fails(ends, all.1, all.2, null_fallback as nat, a as int),
                            ..gn
                        }),
                    decreases arms.len() - a,
                {
                    let target = if a + 1 < arms.len() {
                        arm_starts[a + 1]
                    } else {
                        null_fallback
                    };
                    assert(target as nat == fail_target(all.1, a as int, null_fallback as nat));
                    let ghost before = patch_fails(ends, all.1, all.2, null_fallback as nat, a as int);
                    proof {
                        lemma_patch_fails_len(ends, all.1, all.2, null_fallback as nat, a as int);
                    }
                    let fj = &fail_jmps[a];
                    assert(nats(fj@) == all.2[a as int]);
                    let mut b: usize = 0;
                    while b < fj.len()
                        invariant
                            b <= fj.len(),
                            nats(fj@) == all.2[a as int],
                            0 <= a < all.2.len(),
                            forall|j2: int| 0 <= j2 < all.2[a as int].len() ==> #[trigger] all.2[a as int][j2]
                                < all.0.code.len(),
                            null_fallback == all.0.code.len(),
                            before.len() == end_pos,
                            null_fallback < end_pos,
                            code@.len() == end_pos,
                            self.state(code@) == (Gen {
                                code: patch_all(before, all.2[a as int], InstrView::JmpFalse(target as nat), b as int),
                                ..gn
                            }),
                        decreases fj.len() - b,
                    {
                        proof {
                            lemma_patch_all_len(before, all.2[a as int], InstrView::JmpFalse(target as nat), b as int);
                        }
                        assert(all.2[a as int][b as int] == fj@[b as int] as nat);
                        set_instr(code, fj[b], Instruction::JmpFalse(target));
                        b = b + 1;
                    }
                    a = a + 1;
                }
                assert(self.state(code@) == fin);
                Ok(())
            },
            _ => Ok(()),
        }
    }

    /// Appends the code of one arm of a `match` whose value is in `tmp`, and gives the
    /// positions of its failure jumps and of its jump to the end.
    #[verifier::rlimit(100)]
    #[verifier::spinoff_prover]
    fn compile_arm(&mut self, arm: &MatchArm, tmp: &String, code: &mut Vec<Instruction>) -> (r: Result<
        (Vec<usize>, usize),
        String,
    >)
        requires
            bounded(arm_step(old(self).state(old(code)@), tmp@, *arm).0),
        ensures
            r is Ok <==> arm_step(old(self).state(old(code)@), tmp@, *arm).0.ok,
            r is Ok ==> {
                &&& final(self).state(final(code)@) == arm_step(old(self).state(old(code)@), tmp@, *arm).0
                &&& nats(r->Ok_0.0@) == arm_step(old(self).state(old(code)@), tmp@, *arm).1
                &&& r->Ok_0.1 == arm_step(old(self).state(old(code)@), tmp@, *arm).2
            },
            r is Err ==> r->Err_0@ == or_pattern_message(),
        decreases arm, 0nat,
    {
        let ghost g = self.state(code@);
        proof {
            lemma_arm_step_grows(g, tmp@, *arm);
        }
        let mut fails: Vec<usize> = Vec::new();
        let r1 = self.compile_pattern_check(tmp, &arm.pattern, code, &arm.bind);
        match r1 {
            Err(m) => {
                return Err(m);
            },
            Ok(()) => {},
        }
        emit_instr(code, Instruction::JmpFalse(0));
        fails.push(code.len() - 1);
        match &arm.guard {
            Some(guard) => {
                let r2 = self.compile_expr(guard, code);
                match r2 {
                    Err(m) => {
                        return Err(m);
                    },
                    Ok(()) => {},
                }
                emit_instr(code, Instruction::JmpFalse(0));
                fails.push(code.len() - 1);
            },
            None => {},
        }
        assert(self.state(code@) == arm_guarded(g, tmp@, *arm));
        assert(nats(fails@) =~= arm_fails(g, tmp@, *arm));
        match &arm.bind {
            Some(bind_name) => {
                match &arm.pattern {
                    MatchPattern::Variable(name) => {
                        if starts_upper_exec(name) {
                            emit_instr(code, Instruction::Load(tmp.clone()));
                            if is_name(name, "None") {
                                emit_instr(code, Instruction::InitVar(bind_name.clone()));
                            } else {
                                emit_instr(code, Instruction::EnumGet(0));
                                emit_instr(code, Instruction::InitVar(bind_name.clone()));
                            }
                        }
                    },
                    _ => {},
                }
            },
            None => {},
        }
        assert(self.state(code@) == bind_gen(arm_guarded(g, tmp@, *arm), tmp@, arm.pattern, arm.bind));
        let has_last_expr = arm.body.len() > 0 && match &arm.body[arm.body.len() - 1] {
            Stmt::Expr(_) => true,
            _ => false,
        };
        let r3 = self.compile_arm_body(&arm.body, code);
        match r3 {
            Err(m) => {
                return Err(m);
            },
            Ok(()) => {},
        }
        if !has_last_expr {
            self.push_const(Value::Null, code);
        }
        let end = code.len();
        emit_instr(code, Instruction::Jmp(0));
        Ok((fails, end))
    }

    /// Appends the code of an arm's body; a final expression statement keeps its value.
    fn compile_arm_body(&mut self, body: &Vec<Stmt>, code: &mut Vec<Instruction>) -> (r: Result<
        (),
        String,
    >)
        requires
            bounded(arm_body_gen(old(self).state(old(code)@), *body, body.len() as int)),
        ensures
            compiled_as(
                r,
                final(self).state(final(code)@),
                arm_body_gen(old(self).state(old(code)@), *body, body.len() as int),
            ),
        decreases body, 0nat,
    {
        let ghost g = self.state(code@);
        let mut i: usize = 0;
        while i < body.len()
            invariant
                i <= body.len(),
                g == old(self).state(old(code)@),
                bounded(arm_body_gen(g, *body, body.len() as int)),
                self.state(code@) == arm_body_gen(g, *body, i as int),
            decreases body.len() - i,
        {
            proof {
                lemma_arm_body_prefix(g, *body, i as int + 1, body.len() as int);
            }
            assert(decreases_to!(*body => body[i as int]));
            let s = &body[i];
            let is_last = i == body.len() - 1;
            let r1 = match s {
                Stmt::Expr(expr) => {
                    if is_last {
                        self.compile_expr(expr, code)
                    } else {
                        self.compile_stmt(s, code)
                    }
                },
                _ => self.compile_stmt(s, code),
            };
            if r1.is_err() {
                return r1;
            }
            i = i + 1;
        }
        Ok(())
    }

    /// Appends the code testing whether the value in `val_var` matches a pattern,
    /// leaving a boolean. An or-pattern may hold literals only.
    fn compile_pattern_check(
        &mut self,
        val_var: &String,
        pattern: &MatchPattern,
        code: &mut Vec<Instruction>,
        bind: &Option<String>,
    ) -> (r: Result<(), String>)
        requires
            bounded(pattern_gen(old(self).state(old(code)@), val_var@, *pattern, *bind)),
        ensures
            compiled_as(
                r,
                final(self).state(final(code)@),
                pattern_gen(old(self).state(old(code)@), val_var@, *pattern, *bind),
            ),
        decreases pattern, 0nat,
    {
        let ghost g = self.state(code@);
        match pattern {
            MatchPattern::Literal(expr) => {
                emit_instr(code, Instruction::Load(val_var.clone()));
                let r1 = self.compile_expr(expr, code);
                if r1.is_err() {
                    return r1;
                }
                emit_instr(code, Instruction::Eq);
                Ok(())
            },
            MatchPattern::Variable(name) => {
                if starts_upper_exec(name) {
                    emit_instr(code, Instruction::Load(val_var.clone()));
                    emit_instr(code, Instruction::IsVariant(name.clone()));
                } else if is_name(name, "_") {
                    self.push_const(Value::Bool(true), code);
                } else {
                    let bind_name = match bind {
                        Some(b) => b.clone(),
                        None => name.clone(),
                    };
                    emit_instr(code, Instruction::Load(val_var.clone()));
                    emit_instr(code, Instruction::InitVar(bind_name));
                    self.push_const(Value::Bool(true), code);
                }
                Ok(())
            },
            MatchPattern::Or(patterns) => {
                if patterns.len() == 0 {
                    self.push_const(Value::Bool(false), code);
                    return Ok(());
                }
                let mut i: usize = 0;
                while i < patterns.len()
                    invariant
                        i <= patterns.len(),
                        patterns.len() > 0,
                        *pattern == MatchPattern::Or(*patterns),
                        g == old(self).state(old(code)@),
                        bounded(alternatives_gen(g, val_var@, *patterns, patterns.len() as int)),
                        self.state(code@) == alternatives_gen(g, val_var@, *patterns, i as int),
                    decreases patterns.len() - i,
                {
                    proof {
                        lemma_alternatives_prefix(g, val_var@, *patterns, i as int + 1, patterns.len() as int);
                    }
                    assert(decreases_to!(*patterns => patterns[i as int]));
                    assert(*patterns == pattern->Or_0);
                    assert(decreases_to!(*pattern => *patterns));
                    emit_instr(code, Instruction::Load(val_var.clone()));
                    match &patterns[i] {
                        MatchPattern::Literal(expr) => {
                            let r1 = self.compile_expr(expr, code);
                            if r1.is_err() {
                                return r1;
                            }
                        },
                        _ => {
                            return Err(String::from_str("| 模式中仅支持字面量模式"));
                        },
                    }
                    emit_instr(code, Instruction::Eq);
                    if i > 0 {
                        emit_instr(code, Instruction::Or);
                    }
                    i = i + 1;
                }
                Ok(())
            },
        }
    }

    /// Appends the code of statements, in order.
    fn compile_body(&mut self, stmts: &Vec<Stmt>, code: &mut Vec<Instruction>) -> (r: Result<(), String>)
        requires
            bounded(stmts_gen(old(self).state(old(code)@), *stmts, stmts.len() as int)),
        ensures
            compiled_as(
                r,
                final(self).state(final(code)@),
                stmts_gen(old(self).state(old(code)@), *stmts, stmts.len() as int),
            ),
        decreases stmts, 0nat,
    {
        let ghost g = self.state(code@);
        let mut i: usize = 0;
        while i < stmts.len()
            invariant
                i <= stmts.len(),
                g == old(self).state(old(code)@),
                bounded(stmts_gen(g, *stmts, stmts.len() as int)),
                self.state(code@) == stmts_gen(g, *stmts, i as int),
            decreases stmts.len() - i,
        {
            proof {
                lemma_stmts_prefix(g, *stmts, i as int + 1, stmts.len() as int);
            }
            assert(decreases_to!(*stmts => stmts[i as int]));
            let r1 = self.compile_stmt(&stmts[i], code);
            if r1.is_err() {
                return r1;
            }
            i = i + 1;
        }
        Ok(())
    }

    /// Appends the code of a statement.
    fn compile_stmt(&mut self, s: &Stmt, code: &mut Vec<Instruction>) -> (r: Result<(), String>)
        requires
            bounded(stmt_gen(old(self).state(old(code)@), *s)),
        ensures
            compiled_as(r, final(self).state(final(code)@), stmt_gen(old(self).state(old(code)@), *s)),
        decreases s, 1nat,
    {
        match s {
            Stmt::While(..) => self.compile_while(s, code),
            Stmt::For { .. } => self.compile_for(s, code),
            Stmt::If { .. } => self.compile_if_stmt(s, code),
            Stmt::Block(stmts) => self.compile_body(stmts, code),
            Stmt::FnDef { .. } | Stmt::TypeDef { .. } | Stmt::EnumDef { .. } | Stmt::ImplBlock { .. }
            | Stmt::Break | Stmt::Continue => Ok(()),
            _ => self.compile_simple_stmt(s, code),
        }
    }

    /// Appends the code of a statement without a body of its own.
    fn compile_simple_stmt(&mut self, s: &Stmt, code: &mut Vec<Instruction>) -> (r: Result<(), String>)
        requires
            s is Let || s is Assign || s is FieldAssign || s is Expr || s is Return || s is Print
                || s is PrintLn || s is Exit,
            bounded(stmt_gen(old(self).state(old(code)@), *s)),
        ensures
            compiled_as(r, final(self).state(final(code)@), stmt_gen(old(self).state(old(code)@), *s)),
        decreases s, 0nat,
    {
        let ghost g = self.state(code@);
        match s {
            Stmt::Let { name, value, .. } => {
                proof {
                    lemma_expr_grows(g, *value);
                }
                let r1 = self.compile_expr(value, code);
                if r1.is_err() {
                    return r1;
                }
                if let Expr::Lambda { .. } = value {
                    let lname = numbered("__lambda_", self.lambda_count - 1);
                    emit_instr(code, Instruction::RegFn(name.clone(), lname));
                }
                emit_instr(code, Instruction::InitVar(name.clone()));
                Ok(())
            },
            Stmt::Assign { name, value } => {
                let r1 = self.compile_expr(value, code);
                if r1.is_err() {
                    return r1;
                }
                emit_instr(code, Instruction::Store(name.clone()));
                Ok(())
            },
            Stmt::FieldAssign { obj, field, value } => {
                emit_instr(code, Instruction::Load(obj.clone()));
                let r1 = self.compile_expr(value, code);
                if r1.is_err() {
                    return r1;
                }
                emit_instr(code, Instruction::StructSet(field.clone()));
                emit_instr(code, Instruction::Store(obj.clone()));
                Ok(())
            },
            Stmt::Expr(expr) => {
                let r1 = self.compile_expr(expr, code);
                if r1.is_err() {
                    return r1;
                }
                emit_instr(code, Instruction::Pop);
                Ok(())
            },
            Stmt::Return(v) => {
                match v {
                    Some(expr) => {
                        let r1 = self.compile_expr(expr, code);
                        if r1.is_err() {
                            return r1;
                        }
                    },
                    None => {
                        self.push_const(Value::Null, code);
                    },
                }
                emit_instr(code, Instruction::Return);
                Ok(())
            },
            Stmt::Print(expr) => {
                let r1 = self.compile_expr(expr, code);
                if r1.is_err() {
                    return r1;
                }
                emit_instr(code, Instruction::Print);
                Ok(())
            },
            Stmt::PrintLn(expr) => {
                let r1 = self.compile_expr(expr, code);
                if r1.is_err() {
                    return r1;
                }
                emit_instr(code, Instruction::PrintLn);
                Ok(())
            },
            Stmt::Exit(expr) => {
                let r1 = self.compile_expr(expr, code);
                if r1.is_err() {
                    return r1;
                }
                emit_instr(code, Instruction::Pop);
                emit_instr(code, Instruction::Halt);
                Ok(())
            },
            _ => Ok(()),
        }
    }

    /// Appends the code of a `while` loop: the condition, a jump past the loop when it
    /// fails, the body and a jump back.
    fn compile_while(&mut self, s: &Stmt, code: &mut Vec<Instruction>) -> (r: Result<(), String>)
        requires
            s is While,
            bounded(stmt_gen(old(self).state(old(code)@), *s)),
        ensures
            compiled_as(r, final(self).state(final(code)@), stmt_gen(old(self).state(old(code)@), *s)),
        decreases s, 0nat,
    {
        let ghost g = self.state(code@);
        match s {
            Stmt::While(cond, body) => {
                proof {
                    lemma_expr_grows(g, *cond);
                    let g1 = bump_label(expr_gen(g, *cond));
                    lemma_stmts_grows(emit(g1, InstrView::JmpFalse(0)), *body, body.len() as int);
                }
                let loop_start = code.len();
                let r1 = self.compile_expr(cond, code);
                if r1.is_err() {
                    return r1;
                }
                let _exit_label = self.new_label();
                emit_instr(code, Instruction::JmpFalse(0));
                let jmp_pos = code.len() - 1;
                let r2 = self.compile_body(body, code);
                if r2.is_err() {
                    return r2;
                }
                emit_instr(code, Instruction::Jmp(loop_start));
                let exit_pos = code.len();
                set_instr(code, jmp_pos, Instruction::JmpFalse(exit_pos));
                Ok(())
            },
            _ => Ok(()),
        }
    }

    /// Appends the code of a `for` loop over an iterator that the run time makes from the
    /// iterable.
    fn compile_for(&mut self, s: &Stmt, code: &mut Vec<Instruction>) -> (r: Result<(), String>)
        requires
            s is For,
            bounded(stmt_gen(old(self).state(old(code)@), *s)),
        ensures
            compiled_as(r, final(self).state(final(code)@), stmt_gen(old(self).state(old(code)@), *s)),
        decreases s, 0nat,
    {
        let ghost g = self.state(code@);
        match s {
            Stmt::For { var, iterable, body } => {
                proof {
                    lemma_expr_grows(g, *iterable);
                    let key = "__for_iter_key_"@ + var@;
                    let g1 = emit(
                        emit(expr_gen(g, *iterable), InstrView::Call("__for_iter"@, 1)),
                        InstrView::InitVar(key),
                    );
                    let g2 = bump_label(
                        emit(emit(g1, InstrView::Load(key)), InstrView::Call("__for_next"@, 1)),
                    );
                    lemma_stmts_grows(
                        emit(emit(g2, InstrView::JmpFalse(0)), InstrView::InitVar(var@)),
                        *body,
                        body.len() as int,
                    );
                }
                let r1 = self.compile_expr(iterable, code);
                if r1.is_err() {
                    return r1;
                }
                emit_instr(code, Instruction::Call(String::from_str("__for_iter"), 1));
                let iter_key_var = concat("__for_iter_key_", var.as_str());
                emit_instr(code, Instruction::InitVar(iter_key_var.clone()));
                let loop_start = code.len();
                emit_instr(code, Instruction::Load(iter_key_var.clone()));
                emit_instr(code, Instruction::Call(String::from_str("__for_next"), 1));
                let _exit_label = self.new_label();
                emit_instr(code, Instruction::JmpFalse(0));
                let jmp_pos = code.len() - 1;
                emit_instr(code, Instruction::InitVar(var.clone()));
                let r2 = self.compile_body(body, code);
                if r2.is_err() {
                    return r2;
                }
                emit_instr(code, Instruction::Jmp(loop_start));
                let exit_pos = code.len();
                set_instr(code, jmp_pos, Instruction::JmpFalse(exit_pos));
                emit_instr(code, Instruction::Pop);
                Ok(())
            },
            _ => Ok(()),
        }
    }

    /// Appends the code of an `if` statement.
    fn compile_if_stmt(&mut self, s: &Stmt, code: &mut Vec<Instruction>) -> (r: Result<(), String>)
        requires
            s is If,
            bounded(stmt_gen(old(self).state(old(code)@), *s)),
        ensures
            compiled_as(r, final(self).state(final(code)@), stmt_gen(old(self).state(old(code)@), *s)),
        decreases s, 0nat,
    {
        let ghost g = self.state(code@);
        match s {
            Stmt::If { cond, then_block, else_block } => {
                proof {
                    lemma_expr_grows(g, *cond);
                    let g1 = bump_label(expr_gen(g, *cond));
                    lemma_stmts_grows(emit(g1, InstrView::JmpFalse(0)), *then_block, then_block.len() as int);
                    let g2 = stmts_gen(emit(g1, InstrView::JmpFalse(0)), *then_block, then_block.len() as int);
                    match else_block {
                        Some(es) => {
                            let g3 = emit(bump_label(g2), InstrView::Jmp(0));
                            lemma_stmts_grows(
                                patch(g3, g1.code.len(), InstrView::JmpFalse(g3.code.len())),
                                *es,
                                es.len() as int,
                            );
                        },
                        None => {},
                    }
                }
                let r1 = self.compile_expr(cond, code);
                if r1.is_err() {
                    return r1;
                }
                let _else_label = self.new_label();
                emit_instr(code, Instruction::JmpFalse(0));
                let jmp_else_pos = code.len() - 1;
                let r2 = self.compile_body(then_block, code);
                if r2.is_err() {
                    return r2;
                }
                match else_block {
                    Some(else_stmts) => {
                        let _end_label = self.new_label();
                        emit_instr(code, Instruction::Jmp(0));
                        let jmp_end_pos = code.len() - 1;
                        let else_pos = code.len();
                        set_instr(code, jmp_else_pos, Instruction::JmpFalse(else_pos));
                        let r3 = self.compile_body(else_stmts, code);
                        if r3.is_err() {
                            return r3;
                        }
                        let end_pos = code.len();
                        set_instr(code, jmp_end_pos, Instruction::Jmp(end_pos));
                    },
                    None => {
                        let else_pos = code.len();
                        set_instr(code, jmp_else_pos, Instruction::JmpFalse(else_pos));
                    },
                }
                Ok(())
            },
            _ => Ok(()),
        }
    }

    /// Compiles a function: its body on its own, ending with `Return`.
    fn compile_function(&mut self, name: String, params: &Vec<Param>, body: &Vec<Stmt>) -> (r: Result<
        CompiledFunction,
        String,
    >)
        requires
            bounded(function_gen(old(self).state(Seq::empty()), name@, *params, *body).0),
        ensures
            r is Ok <==> function_gen(old(self).state(Seq::empty()), name@, *params, *body).0.ok,
            r is Ok ==> {
                &&& final(self).state(Seq::empty()) == function_gen(
                    old(self).state(Seq::empty()),
                    name@,
                    *params,
                    *body,
                ).0
                &&& r->Ok_0@ == function_gen(old(self).state(Seq::empty()), name@, *params, *body).1
            },
            r is Err ==> r->Err_0@ == or_pattern_message(),
    {
        let ghost g = self.state(Seq::empty());
        let mut instructions: Vec<Instruction> = Vec::new();
        assert(instrs_view(instructions@) =~= Seq::empty());
        let r1 = self.compile_body(body, &mut instructions);
        match r1 {
            Err(m) => {
                return Err(m);
            },
            Ok(()) => {},
        }
        if !ends_with_return(&instructions) {
            emit_instr(&mut instructions, Instruction::Return);
        }
        assert(instrs_view(Seq::<Instruction>::empty()) =~= Seq::empty());
        Ok(CompiledFunction {
            name: name,
            instructions: instructions,
            param_count: params.len(),
            param_names: names_of(params),
        })
    }

    /// Compiles a program. Function definitions and `impl` blocks become functions (a
    /// method three times: as itself, `Type::method` and `Type.method`); the other
    /// statements form the main code, which calls `main` at the end when a `main`
    /// without parameters is defined and then halts. Function literals follow the
    /// functions. An or-pattern that holds anything but literals makes it fail.
    pub fn compile(program: &Program) -> (r: Result<BytecodeProgram, String>)
        requires
            bounded(program_result(*program).0),
        ensures
            r is Ok <==> program_ok(*program),
            r is Ok ==> r->Ok_0@ == program_gen(*program),
            r is Err ==> r->Err_0@ == or_pattern_message(),
    {
        let ghost fin = program_result(*program);
        let mut cg = Codegen::new();
        let mut main_instructions: Vec<Instruction> = Vec::new();
        let mut functions: Vec<CompiledFunction> = Vec::new();
        let stmts = &program.statements;
        assert(instrs_view(main_instructions@) =~= Seq::empty());
        assert(functions_view(functions@) =~= Seq::empty());
        let mut i: usize = 0;
        while i < stmts.len()
            invariant
                i <= stmts.len(),
                *stmts == program.statements,
                fin == top_gen(initial_gen(), Seq::empty(), *stmts, stmts.len() as int),
                bounded(fin.0),
                cg.state(main_instructions@) == top_gen(initial_gen(), Seq::empty(), *stmts, i as int).0,
                functions_view(functions@) == top_gen(initial_gen(), Seq::empty(), *stmts, i as int).1,
            decreases stmts.len() - i,
        {
            proof {
                lemma_top_prefix(initial_gen(), Seq::empty(), *stmts, i as int + 1, stmts.len() as int);
            }
            let ghost prev = top_gen(initial_gen(), Seq::empty(), *stmts, i as int);
            match &stmts[i] {
                Stmt::FnDef { name, params, body, .. } => {
                    let r1 = cg.compile_function(name.clone(), params, body);
                    match r1 {
                        Err(m) => {
                            return Err(m);
                        },
                        Ok(compiled) => {
                            let ghost f0 = functions@;
                            functions.push(compiled);
                            assert(functions_view(functions@) =~= functions_view(f0).push(compiled@));
                        },
                    }
                },
                Stmt::ImplBlock { impl_type, methods } => {
                    let mut j: usize = 0;
                    while j < methods.len()
                        invariant
                            j <= methods.len(),
                            *stmts == program.statements,
                            fin == top_gen(initial_gen(), Seq::empty(), *stmts, stmts.len() as int),
                            bounded(fin.0),
                            0 <= i < stmts.len(),
                            stmts[i as int] == (Stmt::ImplBlock { impl_type: *impl_type, methods: *methods }),
                            prev == top_gen(initial_gen(), Seq::empty(), *stmts, i as int),
                            grows(top_gen(initial_gen(), Seq::empty(), *stmts, i as int + 1).0, fin.0),
                            cg.state(main_instructions@) == methods_gen(
                                prev.0,
                                prev.1,
                                impl_type@,
                                *methods,
                                j as int,
                            ).0,
                            functions_view(functions@) == methods_gen(
                                prev.0,
                                prev.1,
                                impl_type@,
                                *methods,
                                j as int,
                            ).1,
                        decreases methods.len() - j,
                    {
                        proof {
                            lemma_methods_prefix(
                                prev.0,
                                prev.1,
                                impl_type@,
                                *methods,
                                j as int + 1,
                                methods.len() as int,
                            );
                        }
                        match &methods[j] {
                            Stmt::FnDef { name, params, body, .. } => {
                                let ghost m0 = methods_gen(prev.0, prev.1, impl_type@, *methods, j as int);
                                proof {
                                    lemma_function_grows(m0.0, name@, *params, *body);
                                    let a = function_gen(m0.0, name@, *params, *body);
                                    lemma_function_grows(a.0, impl_type@ + "::"@ + name@, *params, *body);
                                    let b = function_gen(a.0, impl_type@ + "::"@ + name@, *params, *body);
                                    lemma_function_grows(b.0, impl_type@ + "."@ + name@, *params, *body);
                                }
                                let r1 = cg.compile_function(name.clone(), params, body);
                                let c1 = match r1 {
                                    Err(m) => {
                                        return Err(m);
                                    },
                                    Ok(c) => c,
                                };
                                let prefixed = concat(concat(impl_type.as_str(), "::").as_str(), name.as_str());
                                let r2 = cg.compile_function(prefixed, params, body);
                                let c2 = match r2 {
                                    Err(m) => {
                                        return Err(m);
                                    },
                                    Ok(c) => c,
                                };
                                let dotted = concat(concat(impl_type.as_str(), ".").as_str(), name.as_str());
                                let r3 = cg.compile_function(dotted, params, body);
                                let c3 = match r3 {
                                    Err(m) => {
                                        return Err(m);
                                    },
                                    Ok(c) => c,
                                };
                                let ghost f0 = functions@;
                                functions.push(c1);
                                functions.push(c2);
                                functions.push(c3);
                                assert(functions_view(functions@) =~= functions_view(f0).push(c1@).push(c2@).push(
                                    c3@,
                                ));
                            },
                            _ => {},
                        }
                        j = j + 1;
                    }
                },
                Stmt::TypeDef { .. } | Stmt::EnumDef { .. } => {},
                s => {
                    let r1 = cg.compile_stmt(s, &mut main_instructions);
                    match r1 {
                        Err(m) => {
                            return Err(m);
                        },
                        Ok(()) => {},
                    }
                },
            }
            i = i + 1;
        }
        let mut has_main = false;
        let mut k: usize = 0;
        while k < functions.len()
            invariant
                k <= functions.len(),
                has_main <==> exists|t: int| 0 <= t < k && is_main(#[trigger] functions_view(functions@)[t]),
            decreases functions.len() - k,
        {
            assert(functions_view(functions@)[k as int] == functions@[k as int]@);
            if is_name(&functions[k].name, "main") && functions[k].param_count == 0 {
                has_main = true;
            }
            assert(has_main <==> exists|t: int|
                0 <= t < k + 1 && is_main(#[trigger] functions_view(functions@)[t])) by {
                if is_main(functions_view(functions@)[k as int]) {
                    assert(0 <= k < k + 1);
                }
            }
            k = k + 1;
        }
        if has_main {
            emit_instr(&mut main_instructions, Instruction::Call(String::from_str("main"), 0));
            emit_instr(&mut main_instructions, Instruction::Pop);
        }
        emit_instr(&mut main_instructions, Instruction::Halt);
        let ghost f0 = functions@;
        let ghost l0 = cg.lambdas@;
        functions.append(&mut cg.lambdas);
        assert(functions_view(functions@) =~= functions_view(f0) + functions_view(l0));
        Ok(BytecodeProgram { main: main_instructions, functions: functions, constants: cg.constants })
    }

}

/// What a VM comparison instruction pushes for integer operands `a` (pushed first) and
/// `b` (on top): the truth of that comparison; none for other instructions.
pub open spec fn vm_compare(i: InstrView, a: int, b: int) -> Option<bool> {
    match i {
        InstrView::Eq => Some(a == b),
        InstrView::Neq => Some(a != b),
        InstrView::Lt => Some(a < b),
        InstrView::Gt => Some(a > b),
        InstrView::Lte => Some(a <= b),
        InstrView::Gte => Some(a >= b),
        _ => None,
    }
}

/// What a VM arithmetic instruction pushes for integer operands `a` (pushed first) and
/// `b` (on top); none for other instructions.
pub open spec fn vm_arith(i: InstrView, a: int, b: int) -> Option<int> {
    match i {
        InstrView::Add => Some(a + b),
        InstrView::Sub => Some(a - b),
        InstrView::Mul => Some(a * b),
        _ => None,
    }
}

/// A binary operator compiles to the instruction of the same operator: the code of
/// `l op r` is that of `l`, then `r`, then one instruction, which on the values `a` of
/// `l` and `b` of `r` gives exactly `a op b` (for the comparisons and `+ - *`).
pub proof fn lemma_binary_compiles_to_its_operator(g: Gen, l: Expr, op: BinOp, r: Expr, a: int, b: int)
    requires
        op != BinOp::Range && op != BinOp::RangeInclusive,
    ensures
        ({
            let c = expr_gen(g, Expr::Binary(Box::new(l), op, Box::new(r))).code;
            let operands = expr_gen(expr_gen(g, l), r).code;
            &&& c == operands.push(c.last())
            &&& op == BinOp::Eq ==> vm_compare(c.last(), a, b) == Some(a == b)
            &&& op == BinOp::Neq ==> vm_compare(c.last(), a, b) == Some(a != b)
            &&& op == BinOp::Lt ==> vm_compare(c.last(), a, b) == Some(a < b)
            &&& op == BinOp::Gt ==> vm_compare(c.last(), a, b) == Some(a > b)
            &&& op == BinOp::Lte ==> vm_compare(c.last(), a, b) == Some(a <= b)
            &&& op == BinOp::Gte ==> vm_compare(c.last(), a, b) == Some(a >= b)
            &&& op == BinOp::Add ==> vm_arith(c.last(), a, b) == Some(a + b)
            &&& op == BinOp::Sub ==> vm_arith(c.last(), a, b) == Some(a - b)
            &&& op == BinOp::Mul ==> vm_arith(c.last(), a, b) == Some(a * b)
        }),
{
}

/// Comparisons compile to distinct instructions: two different comparison operators
/// never share an instruction, so no comparison is compiled as another.
pub proof fn lemma_comparisons_compile_apart(p: BinOp, q: BinOp)
    requires
        p == BinOp::Eq || p == BinOp::Neq || p == BinOp::Lt || p == BinOp::Gt || p == BinOp::Lte || p == BinOp::Gte,
        q == BinOp::Eq || q == BinOp::Neq || q == BinOp::Lt || q == BinOp::Gt || q == BinOp::Lte || q == BinOp::Gte,
        p != q,
    ensures
        binop_instr(p) != binop_instr(q),
        exists|a: int, b: int| vm_compare(binop_instr(p), a, b) != vm_compare(binop_instr(q), a, b),
{
    assert(vm_compare(binop_instr(p), 0, 0) != vm_compare(binop_instr(q), 0, 0) || vm_compare(binop_instr(p), 0, 1)
        != vm_compare(binop_instr(q), 0, 1) || vm_compare(binop_instr(p), 1, 0) != vm_compare(binop_instr(q), 1, 0));
}

} // verus!
