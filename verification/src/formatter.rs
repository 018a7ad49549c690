//! Settings of the source formatter (`klc fmt`).
use vstd::prelude::*;
use vstd::string::StringExecFns;
use crate::ast::{
    BinOp, EnumVariant, Expr, MatchArm, MatchPattern, Param, Program, Stmt, StructField, UnaryOp,
};
use crate::numtext::{push_signed_decimal, signed_decimal};
use crate::text::{chars_of, push_char};

verus! {

/// How the formatter lays out code.
#[derive(Debug, Clone, Copy)]
pub struct FormatConfig {
    /// Spaces per indentation level.
    pub indent_width: usize,
    /// Longest line before the formatter tries to split it.
    pub max_line_width: usize,
    /// Whether a block's opening brace goes on a line of its own.
    pub fn_brace_newline: bool,
    /// Whether binary operators are surrounded by spaces.
    pub spaces_around_operators: bool,
    /// Whether a comma is followed by a space.
    pub space_after_comma: bool,
}

impl Default for FormatConfig {
    /// Four-space indentation, lines up to 100 characters, braces on their own line,
    /// spaces around operators and after commas.
    fn default() -> (c: Self)
        ensures
            c.indent_width == 4,
            c.max_line_width == 100,
            c.fn_brace_newline,
            c.spaces_around_operators,
            c.space_after_comma,
    {
        FormatConfig {
            indent_width: 4,
            max_line_width: 100,
            fn_brace_newline: true,
            spaces_around_operators: true,
            space_after_comma: true,
        }
    }
}


/// `n` spaces.
pub open spec fn spaces(n: nat) -> Seq<char> {
    Seq::new(n, |i: int| ' ')
}

/// The text of a parameter list: names with their `: type`, separated by `,` and,
/// when the configuration says so, a space.
pub open spec fn params_text(config: FormatConfig, params: Seq<Param>) -> Seq<char>
    decreases params.len(),
{
    if params.len() == 0 {
        Seq::empty()
    } else {
        let prev = params_text(config, params.drop_last());
        let p = params.last();
        let sep = if params.len() > 1 {
            ","@ + if config.space_after_comma {
                " "@
            } else {
                Seq::empty()
            }
        } else {
            Seq::empty()
        };
        let ty = match p.type_ann {
            Some(t) => ": "@ + t@,
            None => Seq::empty(),
        };
        prev + sep + p.name@ + ty
    }
}

/// The fields of an enum variant in parentheses (nothing when it has none).
pub open spec fn fields_text(v: EnumVariant) -> Seq<char> {
    if v.fields@.len() == 0 {
        Seq::empty()
    } else {
        "("@ + field_list(v, v.fields@.len() as int) + ")"@
    }
}

/// The first `k` fields of a variant, separated by `, `, each as `name: type` or `type`.
pub open spec fn field_list(v: EnumVariant, k: int) -> Seq<char>
    decreases k,
{
    if k <= 0 {
        Seq::empty()
    } else {
        let f = v.fields@[k - 1];
        field_list(v, k - 1) + (if k > 1 {
            ", "@
        } else {
            Seq::empty()
        }) + (match f.name {
            Some(n) => n@ + ": "@,
            None => Seq::empty(),
        }) + f.type_ann@
    }
}

/// The lines of an enum's variants at indentation `indent`: each variant with its
/// fields, a comma after all but the last.
pub open spec fn variants_text(indent: Seq<char>, vs: Seq<EnumVariant>, k: int) -> Seq<char>
    decreases k,
{
    if k <= 0 {
        Seq::empty()
    } else {
        let v = vs[k - 1];
        variants_text(indent, vs, k - 1) + indent + v.name@ + fields_text(v) + (if k < vs.len() {
            ","@
        } else {
            Seq::empty()
        }) + "\n"@
    }
}

/// How a string literal's contents are written back: newline, tab, carriage return,
/// quote and backslash escaped.
pub open spec fn escaped(s: Seq<char>) -> Seq<char>
    decreases s.len(),
{
    if s.len() == 0 {
        Seq::empty()
    } else {
        let c = s.last();
        escaped(s.drop_last()) + if c == '\n' {
            "\\n"@
        } else if c == '\t' {
            "\\t"@
        } else if c == '\r' {
            "\\r"@
        } else if c == '"' {
            "\\\""@
        } else if c == '\\' {
            "\\\\"@
        } else {
            seq![c]
        }
    }
}

/// The spelling of a binary operator, with the spaces around it.
pub open spec fn binop_text(op: BinOp) -> Seq<char> {
    match op {
        BinOp::Add => " + "@,
        BinOp::Sub => " - "@,
        BinOp::Mul => " * "@,
        BinOp::Div => " / "@,
        BinOp::Mod => " % "@,
        BinOp::Eq => " == "@,
        BinOp::Neq => " != "@,
        BinOp::Lt => " < "@,
        BinOp::Gt => " > "@,
        BinOp::Lte => " <= "@,
        BinOp::Gte => " >= "@,
        BinOp::And => " and "@,
        BinOp::Or => " or "@,
        BinOp::Concat => " ++ "@,
        BinOp::Range => ".."@,
        BinOp::RangeInclusive => "..="@,
    }
}

/// Binding strength of a binary operator (higher binds tighter).
pub open spec fn precedence_of(op: BinOp) -> u8 {
    match op {
        BinOp::Or => 1,
        BinOp::And => 2,
        BinOp::Eq | BinOp::Neq => 3,
        BinOp::Lt | BinOp::Gt | BinOp::Lte | BinOp::Gte => 4,
        BinOp::Concat => 5,
        BinOp::Add | BinOp::Sub => 6,
        BinOp::Mul | BinOp::Div | BinOp::Mod => 7,
        BinOp::Range | BinOp::RangeInclusive => 8,
    }
}

/// The indentation at level `l`: `indent_width` spaces per level.
#[verifier::opaque]
pub open spec fn ind(c: FormatConfig, l: nat) -> Seq<char> {
    spaces((c.indent_width * l) as nat)
}

/// What opening a block at level `l` writes.
pub open spec fn block_open_text(c: FormatConfig, l: nat) -> Seq<char> {
    if c.fn_brace_newline {
        "\n"@ + ind(c, l) + "{"@ + "\n"@
    } else {
        " {"@ + "\n"@
    }
}

/// A block opened at level `l` around `inner`, closed by a brace at level `l`.
pub open spec fn block_text(c: FormatConfig, l: nat, inner: Seq<char>) -> Seq<char> {
    block_open_text(c, l) + inner + ind(c, l) + "}"@
}

/// The separator between call arguments and parameters.
pub open spec fn comma_text(c: FormatConfig) -> Seq<char> {
    ","@ + if c.space_after_comma {
        " "@
    } else {
        Seq::empty()
    }
}

/// `pre` followed by the annotation, or nothing.
pub open spec fn opt_text(pre: Seq<char>, t: Option<String>) -> Seq<char> {
    match t {
        Some(s) => pre + s@,
        None => Seq::empty(),
    }
}

/// `s` in parentheses when `paren` holds.
pub open spec fn paren_text(paren: bool, s: Seq<char>) -> Seq<char> {
    if paren {
        "("@ + s + ")"@
    } else {
        s
    }
}

/// How a character literal is written back.
pub open spec fn char_lit_text(ch: char) -> Seq<char> {
    if ch == '\\' {
        "'\\\\'"@
    } else if ch == '\'' {
        "'\\''"@
    } else if ch == '\n' {
        "'\\n'"@
    } else if ch == '\t' {
        "'\\t'"@
    } else {
        seq!['\'', ch, '\'']
    }
}

/// Whether an operand `inner` of `parent` must be put in parentheses so that the text
/// reads back as the same tree: it is a binary expression that binds more loosely, or
/// as tightly and stands on the right (operators group from the left, so
/// `a - (b - c)` keeps its parentheses).
pub open spec fn needs_parens_spec(inner: Expr, parent: BinOp, is_left: bool) -> bool {
    match inner {
        Expr::Binary(_, op, _) => precedence_of(op) < precedence_of(parent) || (precedence_of(op)
            == precedence_of(parent) && !is_left),
        _ => false,
    }
}

/// Whether a `match` arm's body is written as a single expression: one statement that
/// is not a loop or an `if`.
pub open spec fn single_arm_body(body: Vec<Stmt>) -> bool {
    body.len() == 1 && match body[0] {
        Stmt::While(..) | Stmt::For { .. } | Stmt::If { .. } => false,
        _ => true,
    }
}

/// Whether a function body is one `return` with a value.
pub open spec fn returns_at_once(body: Vec<Stmt>) -> bool {
    body.len() == 1 && match body[0] {
        Stmt::Return(Some(_)) => true,
        _ => false,
    }
}

/// How an expression is written, at indentation level `l` (which only the lines of a
/// `match` or of a function literal use).
pub open spec fn expr_text(c: FormatConfig, l: nat, e: Expr) -> Seq<char>
    decreases e, 0nat,
{
    match e {
        Expr::Integer(n) => signed_decimal(n as int),
        Expr::Float(f) => f.text@,
        Expr::String(s) => "\""@ + escaped(s@) + "\""@,
        Expr::Bool(b) => if b {
            "true"@
        } else {
            "false"@
        },
        Expr::Char(ch) => char_lit_text(ch),
        Expr::Ident(name) => name@,
        Expr::Null => "null"@,
        Expr::Binary(lhs, op, rhs) => paren_text(
            needs_parens_spec(*lhs, op, true),
            expr_text(c, l, *lhs),
        ) + binop_text(op) + paren_text(needs_parens_spec(*rhs, op, false), expr_text(c, l, *rhs)),
        Expr::Unary(op, inner) => (match op {
            UnaryOp::Neg => "-"@,
            UnaryOp::Not => "not "@,
        }) + paren_text(
            match *inner {
                Expr::Binary(..) | Expr::Unary(..) => true,
                _ => false,
            },
            expr_text(c, l, *inner),
        ),
        Expr::Call(name, args) => name@ + "("@ + args_text(c, l, args, comma_text(c), args.len() as int)
            + ")"@,
        Expr::FieldAccess(obj, field) => expr_text(c, l, *obj) + "."@ + field@,
        Expr::If(cond, then_e, else_e) => "if "@ + expr_text(c, l, *cond) + " { "@ + expr_text(
            c,
            l,
            *then_e,
        ) + " }"@ + match else_e {
            Some(x) => " else { "@ + expr_text(c, l, *x) + " }"@,
            None => Seq::empty(),
        },
        Expr::StructLiteral { struct_name, fields } => struct_name@ + " {"@ + (if fields.len() > 0 {
            " "@ + struct_fields_text(c, l, fields, fields.len() as int) + " "@
        } else {
            Seq::empty()
        }) + "}"@,
        Expr::Match { value, arms } => "match "@ + expr_text(c, l, *value) + " {"@ + "\n"@ + arms_text(
            c,
            l + 1,
            arms,
            arms.len() as int,
        ) + ind(c, l) + "}"@,
        Expr::Lambda { params, return_type, body } => "fn("@ + params_text(c, params@) + ")"@
            + opt_text(" -> "@, return_type) + " {"@ + "\n"@ + body_text(
            c,
            l,
            body,
            body.len() as int,
        ) + ind(c, l) + "}"@,
        Expr::TailCall(name, args) => name@ + "("@ + args_text(c, l, args, ", "@, args.len() as int)
            + ")"@,
    }
}

/// The first `k` arguments, separated by `sep`.
pub open spec fn args_text(c: FormatConfig, l: nat, args: Vec<Expr>, sep: Seq<char>, k: int) -> Seq<
    char,
>
    decreases args, k,
{
    if k <= 0 || k > args.len() {
        Seq::empty()
    } else {
        args_text(c, l, args, sep, k - 1) + (if k > 1 {
            sep
        } else {
            Seq::empty()
        }) + expr_text(c, l, args[k - 1])
    }
}

/// The first `k` fields of a struct literal, separated by `, `; a field whose value is
/// the variable of the same name is written as that name alone.
pub open spec fn struct_fields_text(
    c: FormatConfig,
    l: nat,
    fields: Vec<(String, Expr)>,
    k: int,
) -> Seq<char>
    decreases fields, k,
{
    if k <= 0 || k > fields.len() {
        Seq::empty()
    } else {
        let name = fields[k - 1].0;
        struct_fields_text(c, l, fields, k - 1) + (if k > 1 {
            ", "@
        } else {
            Seq::empty()
        }) + match fields[k - 1].1 {
            Expr::Ident(v) => if v@ == name@ {
                name@
            } else {
                name@ + ": "@ + v@
            },
            _ => name@ + ": "@ + expr_text(c, l, fields[k - 1].1),
        }
    }
}

/// The first `k` arms of a `match`, each on a line of its own at level `l`, a comma
/// after all but the last.
pub open spec fn arms_text(c: FormatConfig, l: nat, arms: Vec<MatchArm>, k: int) -> Seq<char>
    decreases arms, k,
{
    if k <= 0 || k > arms.len() {
        Seq::empty()
    } else {
        let arm = arms[k - 1];
        arms_text(c, l, arms, k - 1) + ind(c, l) + pattern_text(c, l, arm.pattern) + (match arm.guard {
            Some(g) => " if "@ + expr_text(c, l, g),
            None => Seq::empty(),
        }) + " => "@ + (if single_arm_body(arm.body) {
            single_text(c, l, arm.body[0])
        } else {
            "{"@ + "\n"@ + body_text(c, l, arm.body, arm.body.len() as int) + ind(c, l) + "}"@
        }) + (if k < arms.len() {
            ","@
        } else {
            Seq::empty()
        }) + "\n"@
    }
}

/// How a pattern is written.
pub open spec fn pattern_text(c: FormatConfig, l: nat, p: MatchPattern) -> Seq<char>
    decreases p, 0nat,
{
    match p {
        MatchPattern::Literal(e) => expr_text(c, l, e),
        MatchPattern::Variable(name) => name@,
        MatchPattern::Or(ps) => alternatives_text(c, l, ps, ps.len() as int),
    }
}

/// The first `k` alternatives of an or-pattern, separated by ` | `.
pub open spec fn alternatives_text(c: FormatConfig, l: nat, ps: Vec<MatchPattern>, k: int) -> Seq<
    char,
>
    decreases ps, k,
{
    if k <= 0 || k > ps.len() {
        Seq::empty()
    } else {
        alternatives_text(c, l, ps, k - 1) + (if k > 1 {
            " | "@
        } else {
            Seq::empty()
        }) + pattern_text(c, l, ps[k - 1])
    }
}

/// A statement written where an expression is expected (a `match` arm): expressions,
/// returned values, prints, `let` and assignments; anything else as `0`.
pub open spec fn single_text(c: FormatConfig, l: nat, s: Stmt) -> Seq<char>
    decreases s, 0nat,
{
    match s {
        Stmt::Expr(e) => expr_text(c, l, e),
        Stmt::Return(Some(e)) => expr_text(c, l, e),
        Stmt::PrintLn(e) => "io.println("@ + expr_text(c, l, e) + ")"@,
        Stmt::Print(e) => "io.print("@ + expr_text(c, l, e) + ")"@,
        Stmt::Let { name, value, .. } => "let "@ + name@ + " = "@ + expr_text(c, l, value),
        Stmt::Assign { name, value } => name@ + " = "@ + expr_text(c, l, value),
        _ => "0"@,
    }
}

/// The first `k` statements of a block at level `l`, each indented and on a line of
/// its own.
pub open spec fn body_text(c: FormatConfig, l: nat, stmts: Vec<Stmt>, k: int) -> Seq<char>
    decreases stmts, k,
{
    if k <= 0 || k > stmts.len() {
        Seq::empty()
    } else {
        body_text(c, l, stmts, k - 1) + stmt_text(c, l, stmts[k - 1], true) + "\n"@
    }
}

/// The first `k` fields of a type definition at level `l`: `name: type`, the default
/// value after ` = `, a comma after all but the last, one per line.
pub open spec fn type_fields_text(c: FormatConfig, l: nat, fields: Vec<StructField>, k: int) -> Seq<
    char,
>
    decreases fields, k,
{
    if k <= 0 || k > fields.len() {
        Seq::empty()
    } else {
        let f = fields[k - 1];
        type_fields_text(c, l, fields, k - 1) + ind(c, l) + f.name@ + ": "@ + f.type_ann@ + (match f.default {
            Some(d) => " = "@ + expr_text(c, l, d),
            None => Seq::empty(),
        }) + (if k < fields.len() {
            ","@
        } else {
            Seq::empty()
        }) + "\n"@
    }
}

/// How a statement is written at level `l`. An indented statement starts with the
/// indentation and ends the line, except a function whose body is one `return`, which
/// leaves the line open; an indented `if` is indented twice.
pub open spec fn stmt_text(c: FormatConfig, l: nat, s: Stmt, indent: bool) -> Seq<char>
    decreases s, 1nat,
{
    let pre = if indent {
        ind(c, l)
    } else {
        Seq::empty()
    };
    let nl = if indent {
        "\n"@
    } else {
        Seq::empty()
    };
    match s {
        Stmt::Let { name, type_ann, mutable, value } => pre + "let"@ + (if mutable {
            " mut"@
        } else {
            Seq::empty()
        }) + " "@ + name@ + opt_text(": "@, type_ann) + " = "@ + expr_text(c, l, value) + nl,
        Stmt::Assign { name, value } => pre + name@ + " = "@ + expr_text(c, l, value) + nl,
        Stmt::FieldAssign { obj, field, value } => pre + obj@ + "."@ + field@ + " = "@ + expr_text(
            c,
            l,
            value,
        ) + nl,
        Stmt::Expr(e) => pre + expr_text(c, l, e) + nl,
        Stmt::Return(v) => pre + (match v {
            Some(e) => "return "@ + expr_text(c, l, e),
            None => "return"@,
        }) + nl,
        Stmt::While(cond, body) => pre + "while "@ + expr_text(c, l, cond) + block_text(
            c,
            l,
            body_text(c, l + 1, body, body.len() as int),
        ) + nl,
        Stmt::For { var, iterable, body } => pre + "for "@ + var@ + " in "@ + expr_text(c, l, iterable)
            + block_text(c, l, body_text(c, l + 1, body, body.len() as int)) + nl,
        Stmt::If { .. } => pre + if_text(c, l, s, indent),
        Stmt::Block(stmts) => pre + block_text(c, l, body_text(c, l + 1, stmts, stmts.len() as int))
            + nl,
        Stmt::Break => pre + "break"@ + nl,
        Stmt::Continue => pre + "continue"@ + nl,
        Stmt::FnDef { name, params, return_type, body } => pre + "fn "@ + name@ + "("@ + params_text(
            c,
            params@,
        ) + ")"@ + opt_text(" -> "@, return_type) + fn_body_text(c, l, body) + if returns_at_once(
            body,
        ) {
            Seq::empty()
        } else {
            nl
        },
        Stmt::Print(e) => pre + "io.print("@ + expr_text(c, l, e) + ")"@ + nl,
        Stmt::PrintLn(e) => pre + "io.println("@ + expr_text(c, l, e) + ")"@ + nl,
        Stmt::Exit(e) => pre + "exit("@ + expr_text(c, l, e) + ")"@ + nl,
        Stmt::TypeDef { name, fields } => pre + "type "@ + name@ + " "@ + block_text(
            c,
            l,
            type_fields_text(c, l + 1, fields, fields.len() as int),
        ) + nl,
        Stmt::ImplBlock { impl_type, methods } => pre + "impl "@ + impl_type@ + " "@ + block_text(
            c,
            l,
            body_text(c, l + 1, methods, methods.len() as int),
        ) + nl,
        Stmt::EnumDef { name, variants } => pre + "enum "@ + name@ + " "@ + block_text(
            c,
            l,
            variants_text(ind(c, l + 1), variants@, variants@.len() as int),
        ) + nl,
    }
}

/// The body of a function definition at level `l`: a block, or, for a body that is one
/// `return` when braces do not go on lines of their own, ` {`, the statement one level
/// deeper and the closing brace.
pub open spec fn fn_body_text(c: FormatConfig, l: nat, body: Vec<Stmt>) -> Seq<char>
    decreases body, body.len() + 1,
{
    if returns_at_once(body) && !c.fn_brace_newline {
        " {"@ + "\n"@ + stmt_text(c, l + 1, body[0], true) + ind(c, l) + "}"@
    } else {
        block_text(c, l, body_text(c, l + 1, body, body.len() as int))
    }
}

/// Whether a top-level statement is a declaration, set apart by an empty line.
pub open spec fn is_declaration(s: Stmt) -> bool {
    s is FnDef || s is TypeDef || s is EnumDef || s is ImplBlock
}

/// The first `k` top-level statements at level `l`: each after a line break, and after an
/// empty line when it is a declaration (but for the first).
pub open spec fn program_text(c: FormatConfig, l: nat, stmts: Vec<Stmt>, k: int) -> Seq<char>
    decreases k,
{
    if k <= 0 || k > stmts.len() {
        Seq::empty()
    } else {
        program_text(c, l, stmts, k - 1) + (if k > 1 {
            "\n"@
        } else {
            Seq::empty()
        }) + (if k > 1 && is_declaration(stmts[k - 1]) {
            "\n"@
        } else {
            Seq::empty()
        }) + stmt_text(c, l, stmts[k - 1], false)
    }
}

/// `t` ending with a line break: unchanged when it already does.
pub open spec fn with_final_newline(t: Seq<char>) -> Seq<char> {
    if t.len() > 0 && t.last() == '\n' {
        t
    } else {
        t + "\n"@
    }
}

/// How an `if` statement `s` is written at level `l`: a chain of `else if` stays on
/// the closing brace's line.
pub open spec fn if_text(c: FormatConfig, l: nat, s: Stmt, indent: bool) -> Seq<char>
    decreases s, 0nat,
{
    match s {
        Stmt::If { cond, then_block, else_block } => {
            let head = (if indent {
                ind(c, l)
            } else {
                Seq::empty()
            }) + "if "@ + expr_text(c, l, cond) + block_text(
                c,
                l,
                body_text(c, l + 1, then_block, then_block.len() as int),
            );
            let nl = if indent {
                "\n"@
            } else {
                Seq::empty()
            };
            match else_block {
                Some(eb) => if eb.len() == 1 && eb[0] is If {
                    head + " else "@ + if_text(c, l, eb[0], false) + "\n"@
                } else {
                    head + " else"@ + block_text(c, l, body_text(c, l + 1, eb, eb.len() as int)) + nl
                },
                None => head + nl,
            }
        },
        _ => Seq::empty(),
    }
}

/// The larger of two numbers.
pub open spec fn max_nat(a: nat, b: nat) -> nat {
    if a < b {
        b
    } else {
        a
    }
}

/// How deeply an expression nests (a bound on the indentation levels that writing it
/// adds).
pub open spec fn expr_depth(e: Expr) -> nat
    decreases e, 0nat,
{
    match e {
        Expr::Binary(lhs, _, rhs) => 1 + max_nat(expr_depth(*lhs), expr_depth(*rhs)),
        Expr::Unary(_, inner) => 1 + expr_depth(*inner),
        Expr::Call(_, args) => 1 + args_depth(args, args.len() as int),
        Expr::TailCall(_, args) => 1 + args_depth(args, args.len() as int),
        Expr::FieldAccess(obj, _) => 1 + expr_depth(*obj),
        Expr::If(cond, then_e, else_e) => 1 + max_nat(
            expr_depth(*cond),
            max_nat(
                expr_depth(*then_e),
                match else_e {
                    Some(x) => expr_depth(*x),
                    None => 0,
                },
            ),
        ),
        Expr::StructLiteral { fields, .. } => 1 + struct_fields_depth(fields, fields.len() as int),
        Expr::Match { value, arms } => 1 + max_nat(expr_depth(*value), arms_depth(arms, arms.len() as int)),
        Expr::Lambda { body, .. } => 1 + body_depth(body, body.len() as int),
        _ => 0,
    }
}

/// The deepest of the first `k` arguments.
pub open spec fn args_depth(args: Vec<Expr>, k: int) -> nat
    decreases args, k,
{
    if k <= 0 || k > args.len() {
        0
    } else {
        max_nat(args_depth(args, k - 1), expr_depth(args[k - 1]))
    }
}

/// The deepest of the first `k` field values of a struct literal.
pub open spec fn struct_fields_depth(fields: Vec<(String, Expr)>, k: int) -> nat
    decreases fields, k,
{
    if k <= 0 || k > fields.len() {
        0
    } else {
        max_nat(struct_fields_depth(fields, k - 1), expr_depth(fields[k - 1].1))
    }
}

/// The deepest of the first `k` arms of a `match`.
pub open spec fn arms_depth(arms: Vec<MatchArm>, k: int) -> nat
    decreases arms, k,
{
    if k <= 0 || k > arms.len() {
        0
    } else {
        let arm = arms[k - 1];
        max_nat(
            arms_depth(arms, k - 1),
            1 + max_nat(
                pattern_depth(arm.pattern),
                max_nat(
                    match arm.guard {
                        Some(g) => expr_depth(g),
                        None => 0,
                    },
                    body_depth(arm.body, arm.body.len() as int),
                ),
            ),
        )
    }
}

/// How deeply a pattern nests.
pub open spec fn pattern_depth(p: MatchPattern) -> nat
    decreases p, 0nat,
{
    match p {
        MatchPattern::Literal(e) => 1 + expr_depth(e),
        MatchPattern::Variable(_) => 0,
        MatchPattern::Or(ps) => 1 + alternatives_depth(ps, ps.len() as int),
    }
}

/// The deepest of the first `k` alternatives.
pub open spec fn alternatives_depth(ps: Vec<MatchPattern>, k: int) -> nat
    decreases ps, k,
{
    if k <= 0 || k > ps.len() {
        0
    } else {
        max_nat(alternatives_depth(ps, k - 1), pattern_depth(ps[k - 1]))
    }
}

/// The deepest of the first `k` statements.
pub open spec fn body_depth(stmts: Vec<Stmt>, k: int) -> nat
    decreases stmts, k,
{
    if k <= 0 || k > stmts.len() {
        0
    } else {
        max_nat(body_depth(stmts, k - 1), stmt_depth(stmts[k - 1]))
    }
}

/// The deepest default value among the first `k` fields of a type definition.
pub open spec fn type_fields_depth(fields: Vec<StructField>, k: int) -> nat
    decreases fields, k,
{
    if k <= 0 || k > fields.len() {
        0
    } else {
        max_nat(
            type_fields_depth(fields, k - 1),
            match fields[k - 1].default {
                Some(d) => expr_depth(d),
                None => 0,
            },
        )
    }
}

/// How deeply a statement nests.
pub open spec fn stmt_depth(s: Stmt) -> nat
    decreases s, 0nat,
{
    1 + match s {
        Stmt::Let { value, .. } => expr_depth(value),
        Stmt::Assign { value, .. } => expr_depth(value),
        Stmt::FieldAssign { value, .. } => expr_depth(value),
        Stmt::Expr(e) => expr_depth(e),
        Stmt::Return(v) => match v {
            Some(e) => expr_depth(e),
            None => 0,
        },
        Stmt::While(cond, body) => max_nat(expr_depth(cond), body_depth(body, body.len() as int)),
        Stmt::For { iterable, body, .. } => max_nat(
            expr_depth(iterable),
            body_depth(body, body.len() as int),
        ),
        Stmt::If { cond, then_block, else_block } => max_nat(
            expr_depth(cond),
            max_nat(
                body_depth(then_block, then_block.len() as int),
                match else_block {
                    Some(eb) => body_depth(eb, eb.len() as int),
                    None => 0,
                },
            ),
        ),
        Stmt::Block(stmts) => body_depth(stmts, stmts.len() as int),
        Stmt::FnDef { body, .. } => body_depth(body, body.len() as int),
        Stmt::Print(e) => expr_depth(e),
        Stmt::PrintLn(e) => expr_depth(e),
        Stmt::Exit(e) => expr_depth(e),
        Stmt::TypeDef { fields, .. } => type_fields_depth(fields, fields.len() as int),
        Stmt::ImplBlock { methods, .. } => body_depth(methods, methods.len() as int),
        _ => 0,
    }
}

/// Whether writing something `d` levels deep from level `l` keeps the indentation
/// within machine integers.
#[verifier::opaque]
pub open spec fn fits(c: FormatConfig, l: nat, d: nat) -> bool {
    l + d + 1 <= usize::MAX && c.indent_width * (l + d + 1) <= usize::MAX
}

/// Room for `d` levels from `l` leaves room for fewer levels from any level in between.
pub proof fn lemma_fits(c: FormatConfig, l: nat, d: nat, l2: nat, d2: nat)
    requires
        fits(c, l, d),
        l2 + d2 <= l + d,
    ensures
        fits(c, l2, d2),
        c.indent_width * l2 <= usize::MAX,
        l2 < usize::MAX,
{
    reveal(fits);
    vstd::arithmetic::mul::lemma_mul_inequality(
        (l2 + d2 + 1) as int,
        (l + d + 1) as int,
        c.indent_width as int,
    );
    vstd::arithmetic::mul::lemma_mul_inequality(l2 as int, (l2 + d2 + 1) as int, c.indent_width as int);
    vstd::arithmetic::mul::lemma_mul_is_commutative(c.indent_width as int, (l2 + d2 + 1) as int);
    vstd::arithmetic::mul::lemma_mul_is_commutative(c.indent_width as int, (l + d + 1) as int);
    vstd::arithmetic::mul::lemma_mul_is_commutative(c.indent_width as int, l2 as int);
}

/// Each of the first `k` arguments is at most as deep as `args_depth(args, k)`.
pub proof fn lemma_args_depth(args: Vec<Expr>, k: int, i: int)
    requires
        0 <= i < k <= args.len(),
    ensures
        expr_depth(args[i]) <= args_depth(args, k),
    decreases k,
{
    if i < k - 1 {
        lemma_args_depth(args, k - 1, i);
    }
}

/// Each of the first `k` field values is at most as deep as their maximum.
pub proof fn lemma_struct_fields_depth(fields: Vec<(String, Expr)>, k: int, i: int)
    requires
        0 <= i < k <= fields.len(),
    ensures
        expr_depth(fields[i].1) <= struct_fields_depth(fields, k),
    decreases k,
{
    if i < k - 1 {
        lemma_struct_fields_depth(fields, k - 1, i);
    }
}

/// Each of the first `k` arms is within `arms_depth(arms, k)`.
pub proof fn lemma_arms_depth(arms: Vec<MatchArm>, k: int, i: int)
    requires
        0 <= i < k <= arms.len(),
    ensures
        1 + max_nat(
            pattern_depth(arms[i].pattern),
            max_nat(
                match arms[i].guard {
                    Some(g) => expr_depth(g),
                    None => 0,
                },
                body_depth(arms[i].body, arms[i].body.len() as int),
            ),
        ) <= arms_depth(arms, k),
    decreases k,
{
    if i < k - 1 {
        lemma_arms_depth(arms, k - 1, i);
    }
}

/// Each of the first `k` alternatives is within their maximum depth.
pub proof fn lemma_alternatives_depth(ps: Vec<MatchPattern>, k: int, i: int)
    requires
        0 <= i < k <= ps.len(),
    ensures
        pattern_depth(ps[i]) <= alternatives_depth(ps, k),
    decreases k,
{
    if i < k - 1 {
        lemma_alternatives_depth(ps, k - 1, i);
    }
}

/// Each of the first `k` statements is within their maximum depth.
pub proof fn lemma_body_depth(stmts: Vec<Stmt>, k: int, i: int)
    requires
        0 <= i < k <= stmts.len(),
    ensures
        stmt_depth(stmts[i]) <= body_depth(stmts, k),
    decreases k,
{
    if i < k - 1 {
        lemma_body_depth(stmts, k - 1, i);
    }
}

/// Each default value among the first `k` fields is within their maximum depth.
pub proof fn lemma_type_fields_depth(fields: Vec<StructField>, k: int, i: int)
    requires
        0 <= i < k <= fields.len(),
    ensures
        match fields[i].default {
            Some(d) => expr_depth(d),
            None => 0,
        } <= type_fields_depth(fields, k),
    decreases k,
{
    if i < k - 1 {
        lemma_type_fields_depth(fields, k - 1, i);
    }
}

/// `s` with its special characters escaped.
pub fn escape_string(s: &str) -> (r: String)
    ensures
        r@ == escaped(s@),
{
    let cs = chars_of(s);
    let mut result = String::new();
    let mut i: usize = 0;
    while i < cs.len()
        invariant
            i <= cs@.len(),
            result@ == escaped(cs@.take(i as int)),
        decreases cs@.len() - i,
    {
        let c = cs[i];
        assert(cs@.take(i as int + 1).drop_last() =~= cs@.take(i as int));
        if c == '\n' {
            result.append("\\n");
        } else if c == '\t' {
            result.append("\\t");
        } else if c == '\r' {
            result.append("\\r");
        } else if c == '"' {
            result.append("\\\"");
        } else if c == '\\' {
            result.append("\\\\");
        } else {
            push_char(&mut result, c);
        }
        i = i + 1;
    }
    assert(cs@.take(cs@.len() as int) =~= cs@);
    result
}

/// The spelling of `op` with the spaces around it (none for ranges).
pub fn binop_str(op: &BinOp) -> (r: String)
    ensures
        r@ == binop_text(*op),
{
    match op {
        BinOp::Add => String::from_str(" + "),
        BinOp::Sub => String::from_str(" - "),
        BinOp::Mul => String::from_str(" * "),
        BinOp::Div => String::from_str(" / "),
        BinOp::Mod => String::from_str(" % "),
        BinOp::Eq => String::from_str(" == "),
        BinOp::Neq => String::from_str(" != "),
        BinOp::Lt => String::from_str(" < "),
        BinOp::Gt => String::from_str(" > "),
        BinOp::Lte => String::from_str(" <= "),
        BinOp::Gte => String::from_str(" >= "),
        BinOp::And => String::from_str(" and "),
        BinOp::Or => String::from_str(" or "),
        BinOp::Concat => String::from_str(" ++ "),
        BinOp::Range => String::from_str(".."),
        BinOp::RangeInclusive => String::from_str("..="),
    }
}

/// Binding strength of `op`.
pub fn precedence(op: &BinOp) -> (p: u8)
    ensures
        p == precedence_of(*op),
{
    match op {
        BinOp::Or => 1,
        BinOp::And => 2,
        BinOp::Eq | BinOp::Neq => 3,
        BinOp::Lt | BinOp::Gt | BinOp::Lte | BinOp::Gte => 4,
        BinOp::Concat => 5,
        BinOp::Add | BinOp::Sub => 6,
        BinOp::Mul | BinOp::Div | BinOp::Mod => 7,
        BinOp::Range | BinOp::RangeInclusive => 8,
    }
}

/// Whether `op` groups to the right (the ranges).
pub fn is_right_associative(op: &BinOp) -> (b: bool)
    ensures
        b == (*op == BinOp::Range || *op == BinOp::RangeInclusive),
{
    matches!(op, BinOp::Range | BinOp::RangeInclusive)
}

/// Whether the operand `inner` of `parent_op` needs parentheses.
pub fn needs_parens(inner: &Expr, parent_op: &BinOp, is_left: bool) -> (b: bool)
    ensures
        b == needs_parens_spec(*inner, *parent_op, is_left),
{
    match inner {
        Expr::Binary(_, inner_op, _) => {
            precedence(inner_op) < precedence(parent_op) || (precedence(inner_op) == precedence(
                parent_op,
            ) && !is_left)
        },
        _ => false,
    }
}

/// Whether a function body is one `return` with a value.
fn returns_at_once_exec(body: &Vec<Stmt>) -> (b: bool)
    ensures
        b == returns_at_once(*body),
{
    if body.len() == 1 {
        match &body[0] {
            Stmt::Return(Some(_)) => true,
            _ => false,
        }
    } else {
        false
    }
}

/// Output buffer of the formatter with its indentation level.
pub struct Formatter {
    config: FormatConfig,
    output: String,
    indent_level: usize,
}

impl Formatter {
    /// The configuration.
    pub closed spec fn config(&self) -> FormatConfig {
        self.config
    }

    /// The text so far.
    pub closed spec fn text(&self) -> Seq<char> {
        self.output@
    }

    /// The indentation level.
    pub closed spec fn level(&self) -> nat {
        self.indent_level as nat
    }

    /// The current indentation: `indent_width` spaces per level.
    pub open spec fn indent_text(&self) -> Seq<char> {
        ind(self.config(), self.level())
    }

    /// An empty formatter with `config`.
    pub fn new(config: &FormatConfig) -> (f: Self)
        ensures
            f.config() == *config,
            f.text() == Seq::<char>::empty(),
            f.level() == 0,
    {
        Formatter { config: *config, output: String::new(), indent_level: 0 }
    }

    /// The text produced.
    pub fn output(self) -> (s: String)
        ensures
            s@ == self.text(),
    {
        self.output
    }

    /// The current indentation.
    pub fn indent(&self) -> (s: String)
        requires
            self.config().indent_width * self.level() <= usize::MAX,
        ensures
            s@ == self.indent_text(),
    {
        let n = self.config.indent_width * self.indent_level;
        let mut s = String::new();
        let mut i: usize = 0;
        while i < n
            invariant
                i <= n,
                s@ == spaces(i as nat),
            decreases n - i,
        {
            push_char(&mut s, ' ');
            assert(s@ =~= spaces(i as nat + 1));
            i = i + 1;
        }
        proof {
            reveal(ind);
        }
        s
    }

    /// Appends `s`.
    pub fn emit(&mut self, s: &str)
        ensures
            final(self).text() == old(self).text() + s@,
            final(self).config() == old(self).config(),
            final(self).level() == old(self).level(),
    {
        self.output.append(s);
    }

    /// Ends the line.
    pub fn emit_line(&mut self)
        ensures
            final(self).text() == old(self).text() + "\n"@,
            final(self).config() == old(self).config(),
            final(self).level() == old(self).level(),
    {
        self.output.append("\n");
    }

    /// Appends the current indentation.
    pub fn emit_indent(&mut self)
        requires
            old(self).config().indent_width * old(self).level() <= usize::MAX,
        ensures
            final(self).text() == old(self).text() + old(self).indent_text(),
            final(self).config() == old(self).config(),
            final(self).level() == old(self).level(),
    {
        let s = self.indent();
        self.emit(s.as_str());
    }

    /// Appends a space when operators get surrounding spaces.
    pub fn emit_space_if(&mut self)
        ensures
            final(self).text() == old(self).text() + if old(self).config().spaces_around_operators {
                " "@
            } else {
                Seq::empty()
            },
            final(self).config() == old(self).config(),
            final(self).level() == old(self).level(),
    {
        if self.config.spaces_around_operators {
            self.emit(" ");
        } else {
            assert(self.text() =~= old(self).text() + Seq::<char>::empty());
        }
    }

    /// Opens a block: the brace on a line of its own at the current indentation, or
    /// after a space; then one level deeper.
    pub fn emit_block_open(&mut self)
        requires
            old(self).config().indent_width * old(self).level() <= usize::MAX,
            old(self).level() < usize::MAX,
        ensures
            final(self).text() == old(self).text() + if old(self).config().fn_brace_newline {
                "\n"@ + old(self).indent_text() + "{"@ + "\n"@
            } else {
                " {"@ + "\n"@
            },
            final(self).config() == old(self).config(),
            final(self).level() == old(self).level() + 1,
    {
        let ghost t0 = self.text();
        if self.config.fn_brace_newline {
            self.emit_line();
            self.emit_indent();
            self.emit("{");
            self.emit_line();
            assert(self.text() =~= t0 + ("\n"@ + old(self).indent_text() + "{"@ + "\n"@));
        } else {
            self.emit(" {");
            self.emit_line();
            assert(self.text() =~= t0 + (" {"@ + "\n"@));
        }
        self.indent_level = self.indent_level + 1;
    }

    /// Closes a block: one level up, then the brace at that indentation.
    pub fn emit_block_close(&mut self, trailing_comma: bool)
        requires
            old(self).level() > 0,
            old(self).config().indent_width * old(self).level() <= usize::MAX,
        ensures
            final(self).level() == old(self).level() - 1,
            final(self).text() == old(self).text() + final(self).indent_text() + "}"@,
            final(self).config() == old(self).config(),
    {
        self.indent_level = self.indent_level - 1;
        proof {
            vstd::arithmetic::mul::lemma_mul_inequality(
                self.indent_level as int,
                old(self).indent_level as int,
                self.config.indent_width as int,
            );
            vstd::arithmetic::mul::lemma_mul_is_commutative(self.indent_level as int, self.config.indent_width as int);
            vstd::arithmetic::mul::lemma_mul_is_commutative(old(self).indent_level as int, self.config.indent_width as int);
        }
        if trailing_comma {
            // an optional trailing comma is not written
        }
        let ghost t0 = self.text();
        self.emit_indent();
        self.emit("}");
        assert(self.text() =~= t0 + self.indent_text() + "}"@);
    }

    /// Appends a parameter list.
    pub fn format_params(&mut self, params: &[Param])
        ensures
            final(self).text() == old(self).text() + params_text(old(self).config(), params@),
            final(self).config() == old(self).config(),
            final(self).level() == old(self).level(),
    {
        let ghost t0 = self.text();
        let mut i: usize = 0;
        while i < params.len()
            invariant
                i <= params@.len(),
                self.config() == old(self).config(),
                self.level() == old(self).level(),
                self.text() == t0 + params_text(self.config(), params@.take(i as int)),
            decreases params@.len() - i,
        {
            let ghost tk = params@.take(i as int + 1);
            assert(tk.drop_last() =~= params@.take(i as int));
            assert(tk.last() == params@[i as int]);
            let ghost before = self.text();
            if i > 0 {
                self.emit(",");
                if self.config.space_after_comma {
                    self.emit(" ");
                }
            }
            let param = &params[i];
            self.emit(param.name.as_str());
            match &param.type_ann {
                Some(t) => {
                    self.emit(": ");
                    self.emit(t.as_str());
                },
                None => {},
            }
            assert(self.text() =~= t0 + params_text(self.config(), tk));
            i = i + 1;
        }
        assert(params@.take(params@.len() as int) =~= params@);
    }

    fn format_fields(&mut self, v: &EnumVariant)
        ensures
            final(self).text() == old(self).text() + fields_text(*v),
            final(self).config() == old(self).config(),
            final(self).level() == old(self).level(),
    {
        if v.fields.len() == 0 {
            assert(self.text() =~= old(self).text() + fields_text(*v));
            return;
        }
        let ghost t0 = self.text();
        self.emit("(");
        let mut j: usize = 0;
        while j < v.fields.len()
            invariant
                j <= v.fields@.len(),
                self.config() == old(self).config(),
                self.level() == old(self).level(),
                self.text() == t0 + "("@ + field_list(*v, j as int),
            decreases v.fields@.len() - j,
        {
            let ghost before = self.text();
            if j > 0 {
                self.emit(", ");
            }
            let f = &v.fields[j];
            match &f.name {
                Some(name) => {
                    self.emit(name.as_str());
                    self.emit(": ");
                },
                None => {},
            }
            self.emit(f.type_ann.as_str());
            assert(self.text() =~= t0 + "("@ + field_list(*v, j as int + 1));
            j = j + 1;
        }
        self.emit(")");
        assert(self.text() =~= t0 + fields_text(*v));
    }

    /// Appends the variants of an enum, one per line at the current indentation.
    pub fn format_enum_variants(&mut self, variants: &[EnumVariant])
        requires
            old(self).config().indent_width * old(self).level() <= usize::MAX,
        ensures
            final(self).text() == old(self).text() + variants_text(
                old(self).indent_text(),
                variants@,
                variants@.len() as int,
            ),
            final(self).config() == old(self).config(),
            final(self).level() == old(self).level(),
    {
        let ghost t0 = self.text();
        let ghost ind = self.indent_text();
        let mut i: usize = 0;
        while i < variants.len()
            invariant
                i <= variants@.len(),
                self.config() == old(self).config(),
                self.level() == old(self).level(),
                ind == self.indent_text(),
                self.config().indent_width * self.level() <= usize::MAX,
                self.text() == t0 + variants_text(ind, variants@, i as int),
            decreases variants@.len() - i,
        {
            let ghost before = self.text();
            self.emit_indent();
            let v = &variants[i];
            self.emit(v.name.as_str());
            self.format_fields(v);
            if i < variants.len() - 1 {
                self.emit(",");
            }
            self.emit_line();
            assert(self.text() =~= t0 + variants_text(ind, variants@, i as int + 1));
            i = i + 1;
        }
    }

    /// Appends `e` as source text.
    /// Appends `e` as source text.
    #[verifier::rlimit(100)]
    #[verifier::spinoff_prover]
    fn format_expr(&mut self, e: &Expr)
        requires
            fits(old(self).config(), old(self).level(), expr_depth(*e)),
        ensures
            final(self).text() == old(self).text() + expr_text(old(self).config(), old(self).level(), *e),
            final(self).config() == old(self).config(),
            final(self).level() == old(self).level(),
        decreases e, 1nat,
    {
        let ghost c = self.config();
        let ghost l = self.level();
        let ghost t0 = self.text();
        let ghost d = expr_depth(*e);
        match e {
            Expr::Integer(n) => {
                push_signed_decimal(&mut self.output, *n);
            },
            Expr::Float(f) => {
                self.emit(f.text.as_str());
            },
            Expr::String(s) => {
                self.emit("\"");
                let esc = escape_string(s.as_str());
                self.emit(esc.as_str());
                self.emit("\"");
                assert(self.text() =~= t0 + expr_text(c, l, *e));
            },
            Expr::Bool(b) => {
                if *b {
                    self.emit("true");
                } else {
                    self.emit("false");
                }
            },
            Expr::Char(ch) => {
                if *ch == '\\' {
                    self.emit("'\\\\'");
                } else if *ch == '\'' {
                    self.emit("'\\''");
                } else if *ch == '\n' {
                    self.emit("'\\n'");
                } else if *ch == '\t' {
                    self.emit("'\\t'");
                } else {
                    push_char(&mut self.output, '\'');
                    push_char(&mut self.output, *ch);
                    push_char(&mut self.output, '\'');
                    assert(self.text() =~= t0 + expr_text(c, l, *e));
                }
            },
            Expr::Ident(name) => {
                self.emit(name.as_str());
            },
            Expr::Null => {
                self.emit("null");
            },
            Expr::Binary(..) | Expr::Unary(..) | Expr::FieldAccess(..) | Expr::If(..) => {
                self.format_operation(e);
            },
            Expr::Call(..) | Expr::TailCall(..) => {
                self.format_call(e);
            },
            Expr::StructLiteral { .. } => {
                self.format_struct_literal(e);
            },
            Expr::Match { .. } => {
                self.format_match(e);
            },
            Expr::Lambda { .. } => {
                self.format_lambda(e);
            },
        }
    }

    /// Appends an operator application, a field access or an `if` expression.
    #[verifier::rlimit(100)]
    #[verifier::spinoff_prover]
    fn format_operation(&mut self, e: &Expr)
        requires
            e is Binary || e is Unary || e is FieldAccess || e is If,
            fits(old(self).config(), old(self).level(), expr_depth(*e)),
        ensures
            final(self).text() == old(self).text() + expr_text(old(self).config(), old(self).level(), *e),
            final(self).config() == old(self).config(),
            final(self).level() == old(self).level(),
        decreases e, 0nat,
    {
        let ghost c = self.config();
        let ghost l = self.level();
        let ghost t0 = self.text();
        let ghost d = expr_depth(*e);
        match e {
            Expr::Binary(lhs, op, rhs) => {
                proof {
                    lemma_fits(c, l, d, l, expr_depth(**lhs));
                    lemma_fits(c, l, d, l, expr_depth(**rhs));
                }
                let need_paren_left = needs_parens(lhs, op, true);
                let need_paren_right = needs_parens(rhs, op, false);
                if need_paren_left {
                    self.emit("(");
                }
                self.format_expr(lhs);
                if need_paren_left {
                    self.emit(")");
                }
                let ghost t1 = self.text();
                assert(t1 =~= t0 + paren_text(need_paren_left, expr_text(c, l, **lhs)));
                let s = binop_str(op);
                self.emit(s.as_str());
                if need_paren_right {
                    self.emit("(");
                }
                let ghost t2 = self.text();
                self.format_expr(rhs);
                if need_paren_right {
                    self.emit(")");
                }
                assert(self.text() =~= t1 + binop_text(*op) + paren_text(
                    need_paren_right,
                    expr_text(c, l, **rhs),
                ));
                assert(self.text() =~= t0 + expr_text(c, l, *e));
            },
            Expr::Unary(op, inner) => {
                proof {
                    lemma_fits(c, l, d, l, expr_depth(**inner));
                }
                match op {
                    UnaryOp::Neg => self.emit("-"),
                    UnaryOp::Not => self.emit("not "),
                }
                let need_paren = match &**inner {
                    Expr::Binary(..) | Expr::Unary(..) => true,
                    _ => false,
                };
                let ghost t1 = self.text();
                if need_paren {
                    self.emit("(");
                }
                self.format_expr(inner);
                if need_paren {
                    self.emit(")");
                }
                assert(self.text() =~= t1 + paren_text(need_paren, expr_text(c, l, **inner)));
                assert(self.text() =~= t0 + expr_text(c, l, *e));
            },
            Expr::FieldAccess(obj, field) => {
                proof {
                    lemma_fits(c, l, d, l, expr_depth(**obj));
                }
                self.format_expr(obj);
                self.emit(".");
                self.emit(field.as_str());
                assert(self.text() =~= t0 + expr_text(c, l, *e));
            },
            Expr::If(cond, then_e, else_e) => {
                proof {
                    lemma_fits(c, l, d, l, expr_depth(**cond));
                    lemma_fits(c, l, d, l, expr_depth(**then_e));
                }
                self.emit("if ");
                self.format_expr(cond);
                self.emit(" { ");
                self.format_expr(then_e);
                self.emit(" }");
                let ghost t1 = self.text();
                match else_e {
                    Some(x) => {
                        proof {
                            lemma_fits(c, l, d, l, expr_depth(**x));
                        }
                        self.emit(" else { ");
                        self.format_expr(x);
                        self.emit(" }");
                    },
                    None => {},
                }
                assert(self.text() =~= t0 + expr_text(c, l, *e));
            },
            _ => {},
        }
    }

    /// Appends a call: its arguments separated as the configuration says, or by `, ` in a tail call.
    #[verifier::rlimit(100)]
    #[verifier::spinoff_prover]
    fn format_call(&mut self, e: &Expr)
        requires
            e is Call || e is TailCall,
            fits(old(self).config(), old(self).level(), expr_depth(*e)),
        ensures
            final(self).text() == old(self).text() + expr_text(old(self).config(), old(self).level(), *e),
            final(self).config() == old(self).config(),
            final(self).level() == old(self).level(),
        decreases e, 0nat,
    {
        let ghost c = self.config();
        let ghost l = self.level();
        let ghost t0 = self.text();
        let ghost d = expr_depth(*e);
        match e {
            Expr::Call(name, args) => {
                self.emit(name.as_str());
                self.emit("(");
                let ghost t1 = self.text();
                let ghost sep = comma_text(c);
                let mut i: usize = 0;
                while i < args.len()
                    invariant
                        i <= args.len(),
                        self.config() == c,
                        self.level() == l,
                        fits(c, l, d),
                        d == 1 + args_depth(*args, args.len() as int),
                        *e == Expr::Call(*name, *args),
                        sep == comma_text(c),
                        self.text() == t1 + args_text(c, l, *args, sep, i as int),
                    decreases args.len() - i,
                {
                    proof {
                        lemma_args_depth(*args, args.len() as int, i as int);
                        lemma_fits(c, l, d, l, expr_depth(args[i as int]));
                    }
                    if i > 0 {
                        self.emit(",");
                        if self.config.space_after_comma {
                            self.emit(" ");
                        }
                    }
                    let ghost t2 = self.text();
                    assert(t2 =~= t1 + args_text(c, l, *args, sep, i as int) + (if i > 0 {
                        sep
                    } else {
                        Seq::empty()
                    }));
                    assert(decreases_to!(*args => args[i as int]));
                    assert(*args == e->Call_1);
                    assert(decreases_to!(*e => *args));
                    self.format_expr(&args[i]);
                    assert(self.text() =~= t1 + args_text(c, l, *args, sep, i as int + 1));
                    i = i + 1;
                }
                self.emit(")");
                assert(self.text() =~= t0 + expr_text(c, l, *e));
            },
            Expr::TailCall(name, args) => {
                self.emit(name.as_str());
                self.emit("(");
                let ghost t1 = self.text();
                let mut i: usize = 0;
                while i < args.len()
                    invariant
                        i <= args.len(),
                        self.config() == c,
                        self.level() == l,
                        fits(c, l, d),
                        d == 1 + args_depth(*args, args.len() as int),
                        *e == Expr::TailCall(*name, *args),
                        self.text() == t1 + args_text(c, l, *args, ", "@, i as int),
                    decreases args.len() - i,
                {
                    proof {
                        lemma_args_depth(*args, args.len() as int, i as int);
                        lemma_fits(c, l, d, l, expr_depth(args[i as int]));
                    }
                    if i > 0 {
                        self.emit(", ");
                    }
                    assert(decreases_to!(*args => args[i as int]));
                    assert(*args == e->TailCall_1);
                    assert(decreases_to!(*e => *args));
                    self.format_expr(&args[i]);
                    assert(self.text() =~= t1 + args_text(c, l, *args, ", "@, i as int + 1));
                    i = i + 1;
                }
                self.emit(")");
                assert(self.text() =~= t0 + expr_text(c, l, *e));
            },
            _ => {},
        }
    }

    /// Appends a struct literal.
    #[verifier::rlimit(100)]
    #[verifier::spinoff_prover]
    fn format_struct_literal(&mut self, e: &Expr)
        requires
            e is StructLiteral,
            fits(old(self).config(), old(self).level(), expr_depth(*e)),
        ensures
            final(self).text() == old(self).text() + expr_text(old(self).config(), old(self).level(), *e),
            final(self).config() == old(self).config(),
            final(self).level() == old(self).level(),
        decreases e, 0nat,
    {
        let ghost c = self.config();
        let ghost l = self.level();
        let ghost t0 = self.text();
        let ghost d = expr_depth(*e);
        match e {
            Expr::StructLiteral { struct_name, fields } => {
                self.emit(struct_name.as_str());
                self.emit(" {");
                if fields.len() > 0 {
                    self.emit(" ");
                    let ghost t1 = self.text();
                    let mut i: usize = 0;
                    while i < fields.len()
                        invariant
                            i <= fields.len(),
                            self.config() == c,
                            self.level() == l,
                            fits(c, l, d),
                            d == 1 + struct_fields_depth(*fields, fields.len() as int),
                            *e == (Expr::StructLiteral { struct_name: *struct_name, fields: *fields }),
                            self.text() == t1 + struct_fields_text(c, l, *fields, i as int),
                        decreases fields.len() - i,
                    {
                        proof {
                            lemma_struct_fields_depth(*fields, fields.len() as int, i as int);
                            lemma_fits(c, l, d, l, expr_depth(fields[i as int].1));
                        }
                        let ghost t2 = self.text();
                        if i > 0 {
                            self.emit(", ");
                        }
                        let field = &fields[i];
                        assert(decreases_to!(*fields => fields[i as int]));
                        assert(*fields == e->StructLiteral_fields);
                        assert(decreases_to!(*e => *fields));
                        let mut done = false;
                        match &field.1 {
                            Expr::Ident(val_name) => {
                                if *val_name == field.0 {
                                    self.emit(field.0.as_str());
                                    done = true;
                                }
                            },
                            _ => {},
                        }
                        if !done {
                            self.emit(field.0.as_str());
                            self.emit(": ");
                            self.format_expr(&field.1);
                        }
                        assert(self.text() =~= t1 + struct_fields_text(c, l, *fields, i as int + 1));
                        i = i + 1;
                    }
                    self.emit(" ");
                }
                self.emit("}");
                assert(self.text() =~= t0 + expr_text(c, l, *e));
            },
            _ => {},
        }
    }

    /// Appends a `match` with its arms one level deeper.
    #[verifier::rlimit(100)]
    #[verifier::spinoff_prover]
    fn format_match(&mut self, e: &Expr)
        requires
            e is Match,
            fits(old(self).config(), old(self).level(), expr_depth(*e)),
        ensures
            final(self).text() == old(self).text() + expr_text(old(self).config(), old(self).level(), *e),
            final(self).config() == old(self).config(),
            final(self).level() == old(self).level(),
        decreases e, 0nat,
    {
        let ghost c = self.config();
        let ghost l = self.level();
        let ghost t0 = self.text();
        let ghost d = expr_depth(*e);
        match e {
            Expr::Match { value, arms } => {
                proof {
                    lemma_fits(c, l, d, l, expr_depth(**value));
                    lemma_fits(c, l, d, l, 0);
                }
                self.emit("match ");
                self.format_expr(value);
                self.emit(" {");
                self.emit_line();
                self.indent_level = self.indent_level + 1;
                let ghost t1 = self.text();
                let mut i: usize = 0;
                while i < arms.len()
                    invariant
                        i <= arms.len(),
                        self.config() == c,
                        self.level() == l + 1,
                        fits(c, l, d),
                        d == 1 + max_nat(expr_depth(**value), arms_depth(*arms, arms.len() as int)),
                        *e == (Expr::Match { value: *value, arms: *arms }),
                        self.text() == t1 + arms_text(c, l + 1, *arms, i as int),
                    decreases arms.len() - i,
                {
                    let arm = &arms[i];
                    assert(decreases_to!(*arms => arms[i as int]));
                    assert(*arms == e->Match_arms);
                    assert(decreases_to!(*e => *arms));
                    proof {
                        lemma_arms_depth(*arms, arms.len() as int, i as int);
                        lemma_fits(c, l, d, l + 1, pattern_depth(arm.pattern));
                    }
                    let ghost t2 = self.text();
                    self.emit_indent();
                    self.format_pattern(&arm.pattern);
                    match &arm.guard {
                        Some(guard) => {
                            proof {
                                lemma_fits(c, l, d, l + 1, expr_depth(*guard));
                            }
                            self.emit(" if ");
                            self.format_expr(guard);
                        },
                        None => {},
                    }
                    self.emit(" => ");
                    let ghost t3 = self.text();
                    let single = arm.body.len() == 1 && match &arm.body[0] {
                        Stmt::While(..) | Stmt::For { .. } | Stmt::If { .. } => false,
                        _ => true,
                    };
                    if single {
                        proof {
                            lemma_body_depth(arm.body, arm.body.len() as int, 0);
                            lemma_fits(c, l, d, l + 1, stmt_depth(arm.body[0]));
                        }
                        assert(decreases_to!(arm.body => arm.body[0]));
                        self.format_single_stmt_as_expr(&arm.body[0]);
                    } else {
                        proof {
                            lemma_fits(c, l, d, l + 1, body_depth(arm.body, arm.body.len() as int));
                        }
                        self.emit("{");
                        self.emit_line();
                        self.format_body(&arm.body);
                        self.emit_indent();
                        self.emit("}");
                    }
                    assert(self.text() =~= t3 + (if single_arm_body(arm.body) {
                        single_text(c, l + 1, arm.body[0])
                    } else {
                        "{"@ + "\n"@ + body_text(c, l + 1, arm.body, arm.body.len() as int) + ind(
                            c,
                            l + 1,
                        ) + "}"@
                    }));
                    if i < arms.len() - 1 {
                        self.emit(",");
                    }
                    self.emit_line();
                    assert(self.text() =~= t1 + arms_text(c, l + 1, *arms, i as int + 1));
                    i = i + 1;
                }
                self.indent_level = self.indent_level - 1;
                self.emit_indent();
                self.emit("}");
                assert(self.text() =~= t0 + expr_text(c, l, *e));
            },
            _ => {},
        }
    }

    /// Appends a function literal.
    #[verifier::rlimit(100)]
    #[verifier::spinoff_prover]
    fn format_lambda(&mut self, e: &Expr)
        requires
            e is Lambda,
            fits(old(self).config(), old(self).level(), expr_depth(*e)),
        ensures
            final(self).text() == old(self).text() + expr_text(old(self).config(), old(self).level(), *e),
            final(self).config() == old(self).config(),
            final(self).level() == old(self).level(),
        decreases e, 0nat,
    {
        let ghost c = self.config();
        let ghost l = self.level();
        let ghost t0 = self.text();
        let ghost d = expr_depth(*e);
        match e {
            Expr::Lambda { params, return_type, body } => {
                proof {
                    lemma_fits(c, l, d, l, body_depth(*body, body.len() as int));
                }
                self.emit("fn(");
                self.format_params(params.as_slice());
                self.emit(")");
                match return_type {
                    Some(rt) => {
                        self.emit(" -> ");
                        self.emit(rt.as_str());
                    },
                    None => {},
                }
                self.emit(" {");
                self.emit_line();
                let ghost t1 = self.text();
                self.format_body(body);
                self.emit_indent();
                self.emit("}");
                assert(self.text() =~= t0 + expr_text(c, l, *e));
            },
            _ => {},
        }
    }

    /// Appends a pattern.
    #[verifier::rlimit(100)]
    #[verifier::spinoff_prover]
    fn format_pattern(&mut self, p: &MatchPattern)
        requires
            fits(old(self).config(), old(self).level(), pattern_depth(*p)),
        ensures
            final(self).text() == old(self).text() + pattern_text(old(self).config(), old(self).level(), *p),
            final(self).config() == old(self).config(),
            final(self).level() == old(self).level(),
        decreases p, 0nat,
    {
        let ghost c = self.config();
        let ghost l = self.level();
        let ghost t0 = self.text();
        let ghost d = pattern_depth(*p);
        match p {
            MatchPattern::Literal(e) => {
                proof {
                    lemma_fits(c, l, d, l, expr_depth(*e));
                }
                self.format_expr(e);
            },
            MatchPattern::Variable(name) => {
                self.emit(name.as_str());
            },
            MatchPattern::Or(ps) => {
                let mut i: usize = 0;
                while i < ps.len()
                    invariant
                        i <= ps.len(),
                        self.config() == c,
                        self.level() == l,
                        fits(c, l, d),
                        d == 1 + alternatives_depth(*ps, ps.len() as int),
                        *p == MatchPattern::Or(*ps),
                        self.text() == t0 + alternatives_text(c, l, *ps, i as int),
                    decreases ps.len() - i,
                {
                    proof {
                        lemma_alternatives_depth(*ps, ps.len() as int, i as int);
                        lemma_fits(c, l, d, l, pattern_depth(ps[i as int]));
                    }
                    if i > 0 {
                        self.emit(" | ");
                    }
                    assert(decreases_to!(*ps => ps[i as int]));
                    assert(*ps == p->Or_0);
                    assert(decreases_to!(*p => *ps));
                    self.format_pattern(&ps[i]);
                    assert(self.text() =~= t0 + alternatives_text(c, l, *ps, i as int + 1));
                    i = i + 1;
                }
            },
        }
    }

    /// Appends a statement written as an expression.
    #[verifier::rlimit(100)]
    #[verifier::spinoff_prover]
    fn format_single_stmt_as_expr(&mut self, s: &Stmt)
        requires
            fits(old(self).config(), old(self).level(), stmt_depth(*s)),
        ensures
            final(self).text() == old(self).text() + single_text(old(self).config(), old(self).level(), *s),
            final(self).config() == old(self).config(),
            final(self).level() == old(self).level(),
        decreases s, 0nat,
    {
        let ghost c = self.config();
        let ghost l = self.level();
        let ghost t0 = self.text();
        let ghost d = stmt_depth(*s);
        match s {
            Stmt::Expr(e) => {
                proof { lemma_fits(c, l, d, l, expr_depth(*e)); }
                self.format_expr(e);
            },
            Stmt::Return(Some(e)) => {
                proof { lemma_fits(c, l, d, l, expr_depth(*e)); }
                self.format_expr(e);
            },
            Stmt::PrintLn(e) => {
                proof { lemma_fits(c, l, d, l, expr_depth(*e)); }
                self.emit("io.println(");
                self.format_expr(e);
                self.emit(")");
                assert(self.text() =~= t0 + single_text(c, l, *s));
            },
            Stmt::Print(e) => {
                proof { lemma_fits(c, l, d, l, expr_depth(*e)); }
                self.emit("io.print(");
                self.format_expr(e);
                self.emit(")");
                assert(self.text() =~= t0 + single_text(c, l, *s));
            },
            Stmt::Let { name, value, .. } => {
                proof { lemma_fits(c, l, d, l, expr_depth(*value)); }
                self.emit("let ");
                self.emit(name.as_str());
                self.emit(" = ");
                self.format_expr(value);
                assert(self.text() =~= t0 + single_text(c, l, *s));
            },
            Stmt::Assign { name, value } => {
                proof { lemma_fits(c, l, d, l, expr_depth(*value)); }
                self.emit(name.as_str());
                self.emit(" = ");
                self.format_expr(value);
                assert(self.text() =~= t0 + single_text(c, l, *s));
            },
            _ => {
                self.emit("0");
            },
        }
    }

    /// Appends the statements of a block, each indented and on a line of its own.
    #[verifier::rlimit(100)]
    #[verifier::spinoff_prover]
    fn format_body(&mut self, stmts: &Vec<Stmt>)
        requires
            fits(old(self).config(), old(self).level(), body_depth(*stmts, stmts.len() as int)),
        ensures
            final(self).text() == old(self).text() + body_text(
                old(self).config(),
                old(self).level(),
                *stmts,
                stmts.len() as int,
            ),
            final(self).config() == old(self).config(),
            final(self).level() == old(self).level(),
        decreases stmts, 0nat,
    {
        let ghost c = self.config();
        let ghost l = self.level();
        let ghost t0 = self.text();
        let ghost d = body_depth(*stmts, stmts.len() as int);
        let mut i: usize = 0;
        while i < stmts.len()
            invariant
                i <= stmts.len(),
                self.config() == c,
                self.level() == l,
                fits(c, l, d),
                d == body_depth(*stmts, stmts.len() as int),
                self.text() == t0 + body_text(c, l, *stmts, i as int),
            decreases stmts.len() - i,
        {
            proof {
                lemma_body_depth(*stmts, stmts.len() as int, i as int);
                lemma_fits(c, l, d, l, stmt_depth(stmts[i as int]));
            }
            self.format_stmt(&stmts[i], true);
            self.emit_line();
            assert(self.text() =~= t0 + body_text(c, l, *stmts, i as int + 1));
            i = i + 1;
        }
    }

    /// Appends the fields of a type definition, one per line.
    #[verifier::rlimit(100)]
    #[verifier::spinoff_prover]
    fn format_type_fields(&mut self, fields: &Vec<StructField>)
        requires
            fits(old(self).config(), old(self).level(), type_fields_depth(*fields, fields.len() as int)),
        ensures
            final(self).text() == old(self).text() + type_fields_text(
                old(self).config(),
                old(self).level(),
                *fields,
                fields.len() as int,
            ),
            final(self).config() == old(self).config(),
            final(self).level() == old(self).level(),
        decreases fields, 0nat,
    {
        let ghost c = self.config();
        let ghost l = self.level();
        let ghost t0 = self.text();
        let ghost d = type_fields_depth(*fields, fields.len() as int);
        let mut i: usize = 0;
        while i < fields.len()
            invariant
                i <= fields.len(),
                self.config() == c,
                self.level() == l,
                fits(c, l, d),
                d == type_fields_depth(*fields, fields.len() as int),
                self.text() == t0 + type_fields_text(c, l, *fields, i as int),
            decreases fields.len() - i,
        {
            proof {
                lemma_type_fields_depth(*fields, fields.len() as int, i as int);
                lemma_fits(c, l, d, l, 0);
            }
            let field = &fields[i];
            self.emit_indent();
            self.emit(field.name.as_str());
            self.emit(": ");
            self.emit(field.type_ann.as_str());
            match &field.default {
                Some(default) => {
                    proof {
                        lemma_fits(c, l, d, l, expr_depth(*default));
                    }
                    self.emit(" = ");
                    self.format_expr(default);
                },
                None => {},
            }
            if i < fields.len() - 1 {
                self.emit(",");
            }
            self.emit_line();
            assert(self.text() =~= t0 + type_fields_text(c, l, *fields, i as int + 1));
            i = i + 1;
        }
    }

    /// Appends a whole program: its statements on lines of their own, declarations set
    /// apart by an empty line, and a line break at the end unless the text already ends
    /// with one.
    pub fn format_program(&mut self, program: &Program)
        requires
            fits(
                old(self).config(),
                old(self).level(),
                body_depth(program.statements, program.statements.len() as int),
            ),
        ensures
            final(self).text() == with_final_newline(
                old(self).text() + program_text(
                    old(self).config(),
                    old(self).level(),
                    program.statements,
                    program.statements.len() as int,
                ),
            ),
            final(self).config() == old(self).config(),
            final(self).level() == old(self).level(),
    {
        let ghost c = self.config();
        let ghost l = self.level();
        let ghost t0 = self.text();
        let ghost d = body_depth(program.statements, program.statements.len() as int);
        let stmts = &program.statements;
        let mut i: usize = 0;
        while i < stmts.len()
            invariant
                i <= stmts.len(),
                *stmts == program.statements,
                self.config() == c,
                self.level() == l,
                fits(c, l, d),
                d == body_depth(*stmts, stmts.len() as int),
                self.text() == t0 + program_text(c, l, *stmts, i as int),
            decreases stmts.len() - i,
        {
            proof {
                lemma_body_depth(*stmts, stmts.len() as int, i as int);
                lemma_fits(c, l, d, l, stmt_depth(stmts[i as int]));
            }
            let stmt = &stmts[i];
            if i > 0 {
                self.emit_line();
            }
            let declaration = match stmt {
                Stmt::FnDef { .. } | Stmt::TypeDef { .. } | Stmt::EnumDef { .. } | Stmt::ImplBlock {
                    ..
                } => true,
                _ => false,
            };
            if i > 0 && declaration {
                self.emit_line();
            }
            self.format_stmt(stmt, false);
            assert(self.text() =~= t0 + program_text(c, l, *stmts, i as int + 1));
            i = i + 1;
        }
        let cs = chars_of(self.output.as_str());
        if cs.len() == 0 || cs[cs.len() - 1] != '\n' {
            self.emit_line();
        }
    }

    /// Appends a statement at the current level; `indent` puts it on a line of its own.
    #[verifier::rlimit(100)]
    #[verifier::spinoff_prover]
    fn format_stmt(&mut self, s: &Stmt, indent: bool)
        requires
            fits(old(self).config(), old(self).level(), stmt_depth(*s)),
        ensures
            final(self).text() == old(self).text() + stmt_text(
                old(self).config(),
                old(self).level(),
                *s,
                indent,
            ),
            final(self).config() == old(self).config(),
            final(self).level() == old(self).level(),
        decreases s, 2nat,
    {
        let ghost c = self.config();
        let ghost l = self.level();
        let ghost d = stmt_depth(*s);
        proof {
            lemma_fits(c, l, d, l, 0);
        }
        match s {
            Stmt::If { .. } => {
                if indent {
                    self.emit_indent();
                }
                self.format_if(s, indent);
            },
            Stmt::FnDef { .. } => self.format_fn_def(s, indent),
            Stmt::While(..) | Stmt::For { .. } | Stmt::Block(..) => self.format_loop_stmt(s, indent),
            Stmt::TypeDef { .. } | Stmt::ImplBlock { .. } | Stmt::EnumDef { .. } => {
                self.format_definition(s, indent)
            },
            _ => self.format_simple_stmt(s, indent),
        }
    }

    /// Appends a statement that holds no block.
    #[verifier::rlimit(100)]
    #[verifier::spinoff_prover]
    fn format_simple_stmt(&mut self, s: &Stmt, indent: bool)
        requires
            !(s is If || s is FnDef || s is While || s is For || s is Block || s is TypeDef || s is ImplBlock || s is EnumDef),
            fits(old(self).config(), old(self).level(), stmt_depth(*s)),
        ensures
            final(self).text() == old(self).text() + stmt_text(
                old(self).config(),
                old(self).level(),
                *s,
                indent,
            ),
            final(self).config() == old(self).config(),
            final(self).level() == old(self).level(),
        decreases s, 1nat,
    {
        let ghost c = self.config();
        let ghost l = self.level();
        let ghost t0 = self.text();
        let ghost d = stmt_depth(*s);
        proof {
            lemma_fits(c, l, d, l, 0);
        }
        if indent {
            self.emit_indent();
        }
        let ghost t1 = self.text();
        match s {
            Stmt::Let { name, mutable, value, type_ann } => {
                proof { lemma_fits(c, l, d, l, expr_depth(*value)); }
                self.emit("let");
                if *mutable {
                    self.emit(" mut");
                }
                self.emit(" ");
                self.emit(name.as_str());
                match type_ann {
                    Some(t) => {
                        self.emit(": ");
                        self.emit(t.as_str());
                    },
                    None => {},
                }
                self.emit(" = ");
                self.format_expr(value);
            },
            Stmt::Assign { name, value } => {
                proof { lemma_fits(c, l, d, l, expr_depth(*value)); }
                self.emit(name.as_str());
                self.emit(" = ");
                self.format_expr(value);
            },
            Stmt::FieldAssign { obj, field, value } => {
                proof { lemma_fits(c, l, d, l, expr_depth(*value)); }
                self.emit(obj.as_str());
                self.emit(".");
                self.emit(field.as_str());
                self.emit(" = ");
                self.format_expr(value);
            },
            Stmt::Expr(e) => {
                proof { lemma_fits(c, l, d, l, expr_depth(*e)); }
                self.format_expr(e);
            },
            Stmt::Return(v) => {
                match v {
                    Some(e) => {
                        proof { lemma_fits(c, l, d, l, expr_depth(*e)); }
                        self.emit("return ");
                        self.format_expr(e);
                    },
                    None => self.emit("return"),
                }
            },
            Stmt::Break => self.emit("break"),
            Stmt::Continue => self.emit("continue"),
            Stmt::Print(e) => {
                proof { lemma_fits(c, l, d, l, expr_depth(*e)); }
                self.emit("io.print(");
                self.format_expr(e);
                self.emit(")");
            },
            Stmt::PrintLn(e) => {
                proof { lemma_fits(c, l, d, l, expr_depth(*e)); }
                self.emit("io.println(");
                self.format_expr(e);
                self.emit(")");
            },
            Stmt::Exit(e) => {
                proof { lemma_fits(c, l, d, l, expr_depth(*e)); }
                self.emit("exit(");
                self.format_expr(e);
                self.emit(")");
            },
            _ => {},
        }
        if indent {
            self.emit_line();
        }
        assert(self.text() =~= t0 + stmt_text(c, l, *s, indent));
    }

    /// Appends a block holding `stmts`: opened at the current level, the statements one
    /// level deeper, closed at the current level.
    #[verifier::rlimit(100)]
    #[verifier::spinoff_prover]
    fn format_block(&mut self, stmts: &Vec<Stmt>)
        requires
            fits(old(self).config(), old(self).level(), body_depth(*stmts, stmts.len() as int) + 1),
        ensures
            final(self).text() == old(self).text() + block_text(
                old(self).config(),
                old(self).level(),
                body_text(old(self).config(), old(self).level() + 1, *stmts, stmts.len() as int),
            ),
            final(self).config() == old(self).config(),
            final(self).level() == old(self).level(),
        decreases stmts, 1nat,
    {
        let ghost c = self.config();
        let ghost l = self.level();
        let ghost t0 = self.text();
        let ghost d = body_depth(*stmts, stmts.len() as int);
        proof {
            lemma_fits(c, l, d + 1, l, 0);
            lemma_fits(c, l, d + 1, l + 1, d);
        }
        self.emit_block_open();
        let ghost t1 = self.text();
        self.format_body(stmts);
        let ghost t2 = self.text();
        self.emit_block_close(false);
        assert(self.text() =~= t0 + block_text(c, l, body_text(c, l + 1, *stmts, stmts.len() as int)));
    }

    /// Appends a `while` or `for` loop or a block.
    #[verifier::rlimit(100)]
    #[verifier::spinoff_prover]
    fn format_loop_stmt(&mut self, s: &Stmt, indent: bool)
        requires
            s is While || s is For || s is Block,
            fits(old(self).config(), old(self).level(), stmt_depth(*s)),
        ensures
            final(self).text() == old(self).text() + stmt_text(
                old(self).config(),
                old(self).level(),
                *s,
                indent,
            ),
            final(self).config() == old(self).config(),
            final(self).level() == old(self).level(),
        decreases s, 1nat,
    {
        let ghost c = self.config();
        let ghost l = self.level();
        let ghost t0 = self.text();
        let ghost d = stmt_depth(*s);
        proof {
            lemma_fits(c, l, d, l, 0);
        }
        if indent {
            self.emit_indent();
        }
        let ghost t1 = self.text();
        let ghost pre = if indent { ind(c, l) } else { Seq::<char>::empty() };
        assert(t1 == t0 + pre);
        let ghost nl = if indent { "\n"@ } else { Seq::<char>::empty() };
        match s {
            Stmt::While(cond, body) => {
                proof {
                    lemma_fits(c, l, d, l, expr_depth(*cond));
                    lemma_fits(c, l, d, l, 1 + body_depth(*body, body.len() as int));
                }
                self.emit("while ");
                self.format_expr(cond);
                self.format_block(body);
                if indent {
                    self.emit_line();
                }
                assert(self.text() =~= t0 + (pre + "while "@ + expr_text(c, l, *cond) + block_text(
                    c,
                    l,
                    body_text(c, l + 1, *body, body.len() as int),
                ) + nl));
            },
            Stmt::For { var, iterable, body } => {
                proof {
                    lemma_fits(c, l, d, l, expr_depth(*iterable));
                    lemma_fits(c, l, d, l, 1 + body_depth(*body, body.len() as int));
                }
                self.emit("for ");
                self.emit(var.as_str());
                self.emit(" in ");
                self.format_expr(iterable);
                self.format_block(body);
                if indent {
                    self.emit_line();
                }
                assert(self.text() =~= t0 + (pre + "for "@ + var@ + " in "@ + expr_text(c, l, *iterable)
                    + block_text(c, l, body_text(c, l + 1, *body, body.len() as int)) + nl));
            },
            Stmt::Block(stmts) => {
                proof {
                    lemma_fits(c, l, d, l, 1 + body_depth(*stmts, stmts.len() as int));
                }
                self.format_block(stmts);
                if indent {
                    self.emit_line();
                }
                assert(self.text() =~= t0 + (pre + block_text(
                    c,
                    l,
                    body_text(c, l + 1, *stmts, stmts.len() as int),
                ) + nl));
            },
            _ => {},
        }
    }

    /// Appends a type, impl or enum definition.
    fn format_definition(&mut self, s: &Stmt, indent: bool)
        requires
            s is TypeDef || s is ImplBlock || s is EnumDef,
            fits(old(self).config(), old(self).level(), stmt_depth(*s)),
        ensures
            final(self).text() == old(self).text() + stmt_text(
                old(self).config(),
                old(self).level(),
                *s,
                indent,
            ),
            final(self).config() == old(self).config(),
            final(self).level() == old(self).level(),
        decreases s, 1nat,
    {
        match s {
            Stmt::TypeDef { .. } => self.format_type_def(s, indent),
            Stmt::ImplBlock { .. } => self.format_impl_def(s, indent),
            _ => self.format_enum_def(s, indent),
        }
    }

    /// Appends a type definition.
    #[verifier::rlimit(100)]
    #[verifier::spinoff_prover]
    fn format_type_def(&mut self, s: &Stmt, indent: bool)
        requires
            s is TypeDef,
            fits(old(self).config(), old(self).level(), stmt_depth(*s)),
        ensures
            final(self).text() == old(self).text() + stmt_text(
                old(self).config(),
                old(self).level(),
                *s,
                indent,
            ),
            final(self).config() == old(self).config(),
            final(self).level() == old(self).level(),
        decreases s, 0nat,
    {
        let ghost c = self.config();
        let ghost l = self.level();
        let ghost t0 = self.text();
        let ghost d = stmt_depth(*s);
        proof {
            lemma_fits(c, l, d, l, 0);
        }
        if indent {
            self.emit_indent();
        }
        let ghost t1 = self.text();
        let ghost pre = if indent { ind(c, l) } else { Seq::<char>::empty() };
        assert(t1 == t0 + pre);
        let ghost nl = if indent { "\n"@ } else { Seq::<char>::empty() };
        match s {
            Stmt::TypeDef { name, fields } => {
                proof {
                    lemma_fits(c, l, d, l + 1, type_fields_depth(*fields, fields.len() as int));
                }
                self.emit("type ");
                self.emit(name.as_str());
                self.emit(" ");
                let ghost t2 = self.text();
                self.emit_block_open();
                self.format_type_fields(fields);
                self.emit_block_close(true);
                assert(self.text() =~= t2 + block_text(
                    c,
                    l,
                    type_fields_text(c, l + 1, *fields, fields.len() as int),
                ));
                if indent {
                    self.emit_line();
                }
                assert(self.text() =~= t0 + (pre + "type "@ + name@ + " "@ + block_text(
                    c,
                    l,
                    type_fields_text(c, l + 1, *fields, fields.len() as int),
                ) + nl));
            },
            _ => {},
        }
    }

    /// Appends a impl definition.
    #[verifier::rlimit(100)]
    #[verifier::spinoff_prover]
    fn format_impl_def(&mut self, s: &Stmt, indent: bool)
        requires
            s is ImplBlock,
            fits(old(self).config(), old(self).level(), stmt_depth(*s)),
        ensures
            final(self).text() == old(self).text() + stmt_text(
                old(self).config(),
                old(self).level(),
                *s,
                indent,
            ),
            final(self).config() == old(self).config(),
            final(self).level() == old(self).level(),
        decreases s, 0nat,
    {
        let ghost c = self.config();
        let ghost l = self.level();
        let ghost t0 = self.text();
        let ghost d = stmt_depth(*s);
        proof {
            lemma_fits(c, l, d, l, 0);
        }
        if indent {
            self.emit_indent();
        }
        let ghost t1 = self.text();
        let ghost pre = if indent { ind(c, l) } else { Seq::<char>::empty() };
        assert(t1 == t0 + pre);
        let ghost nl = if indent { "\n"@ } else { Seq::<char>::empty() };
        match s {
            Stmt::ImplBlock { impl_type, methods } => {
                proof {
                    lemma_fits(c, l, d, l, 1 + body_depth(*methods, methods.len() as int));
                }
                self.emit("impl ");
                self.emit(impl_type.as_str());
                self.emit(" ");
                self.format_block(methods);
                if indent {
                    self.emit_line();
                }
                assert(self.text() =~= t0 + (pre + "impl "@ + impl_type@ + " "@ + block_text(
                    c,
                    l,
                    body_text(c, l + 1, *methods, methods.len() as int),
                ) + nl));
            },
            _ => {},
        }
    }

    /// Appends a enum definition.
    #[verifier::rlimit(100)]
    #[verifier::spinoff_prover]
    fn format_enum_def(&mut self, s: &Stmt, indent: bool)
        requires
            s is EnumDef,
            fits(old(self).config(), old(self).level(), stmt_depth(*s)),
        ensures
            final(self).text() == old(self).text() + stmt_text(
                old(self).config(),
                old(self).level(),
                *s,
                indent,
            ),
            final(self).config() == old(self).config(),
            final(self).level() == old(self).level(),
        decreases s, 0nat,
    {
        let ghost c = self.config();
        let ghost l = self.level();
        let ghost t0 = self.text();
        let ghost d = stmt_depth(*s);
        proof {
            lemma_fits(c, l, d, l, 0);
        }
        if indent {
            self.emit_indent();
        }
        let ghost t1 = self.text();
        let ghost pre = if indent { ind(c, l) } else { Seq::<char>::empty() };
        assert(t1 == t0 + pre);
        let ghost nl = if indent { "\n"@ } else { Seq::<char>::empty() };
        match s {
            Stmt::EnumDef { name, variants } => {
                proof {
                    lemma_fits(c, l, d, l + 1, 0);
                }
                self.emit("enum ");
                self.emit(name.as_str());
                self.emit(" ");
                let ghost t2 = self.text();
                self.emit_block_open();
                self.format_enum_variants(variants.as_slice());
                self.emit_block_close(true);
                assert(self.text() =~= t2 + block_text(
                    c,
                    l,
                    variants_text(ind(c, l + 1), variants@, variants@.len() as int),
                ));
                if indent {
                    self.emit_line();
                }
                assert(self.text() =~= t0 + (pre + "enum "@ + name@ + " "@ + block_text(
                    c,
                    l,
                    variants_text(ind(c, l + 1), variants@, variants@.len() as int),
                ) + nl));
            },
            _ => {},
        }
    }

    /// Appends the body of a function definition.
    #[verifier::rlimit(100)]
    #[verifier::spinoff_prover]
    fn format_fn_body(&mut self, body: &Vec<Stmt>)
        requires
            fits(old(self).config(), old(self).level(), body_depth(*body, body.len() as int) + 1),
        ensures
            final(self).text() == old(self).text() + fn_body_text(old(self).config(), old(self).level(), *body),
            final(self).config() == old(self).config(),
            final(self).level() == old(self).level(),
        decreases body, 2nat,
    {
        let ghost c = self.config();
        let ghost l = self.level();
        let ghost t0 = self.text();
        let ghost d = body_depth(*body, body.len() as int);
        if returns_at_once_exec(body) && !self.config.fn_brace_newline {
            proof {
                lemma_body_depth(*body, 1, 0);
                lemma_fits(c, l, d + 1, l, 0);
                lemma_fits(c, l, d + 1, l + 1, stmt_depth(body[0]));
            }
            self.emit(" {");
            self.emit_line();
            self.indent_level = self.indent_level + 1;
            self.format_stmt(&body[0], true);
            self.indent_level = self.indent_level - 1;
            self.emit_indent();
            self.emit("}");
            assert(self.text() =~= t0 + fn_body_text(c, l, *body));
        } else {
            self.format_block(body);
        }
    }

    /// Appends a function definition; a body that is one `return` leaves the line open.
    #[verifier::rlimit(100)]
    #[verifier::spinoff_prover]
    fn format_fn_def(&mut self, s: &Stmt, indent: bool)
        requires
            s is FnDef,
            fits(old(self).config(), old(self).level(), stmt_depth(*s)),
        ensures
            final(self).text() == old(self).text() + stmt_text(
                old(self).config(),
                old(self).level(),
                *s,
                indent,
            ),
            final(self).config() == old(self).config(),
            final(self).level() == old(self).level(),
        decreases s, 1nat,
    {
        let ghost c = self.config();
        let ghost l = self.level();
        let ghost t0 = self.text();
        let ghost d = stmt_depth(*s);
        proof {
            lemma_fits(c, l, d, l, 0);
        }
        if indent {
            self.emit_indent();
        }
        let ghost t1 = self.text();
        match s {
            Stmt::FnDef { name, params, return_type, body } => {
                proof {
                    lemma_fits(c, l, d, l, 1 + body_depth(*body, body.len() as int));
                }
                self.emit("fn ");
                self.emit(name.as_str());
                self.emit("(");
                self.format_params(params.as_slice());
                self.emit(")");
                match return_type {
                    Some(rt) => {
                        self.emit(" -> ");
                        self.emit(rt.as_str());
                    },
                    None => {},
                }
                let ghost t2 = self.text();
                assert(t2 =~= t1 + "fn "@ + name@ + "("@ + params_text(c, params@) + ")"@ + opt_text(
                    " -> "@,
                    *return_type,
                ));
                proof {
                    lemma_fits(c, l, d, l, 1 + body_depth(*body, body.len() as int));
                }
                self.format_fn_body(body);
                if indent && !returns_at_once_exec(body) {
                    self.emit_line();
                }
                assert(self.text() =~= t0 + stmt_text(c, l, *s, indent));
            },
            _ => {},
        }
    }

    /// Appends an `if` statement; an `else` holding just another `if` is written as
    /// `else if`.
    #[verifier::rlimit(100)]
    #[verifier::spinoff_prover]
    fn format_if(&mut self, s: &Stmt, indent: bool)
        requires
            s is If,
            fits(old(self).config(), old(self).level(), stmt_depth(*s)),
        ensures
            final(self).text() == old(self).text() + if_text(
                old(self).config(),
                old(self).level(),
                *s,
                indent,
            ),
            final(self).config() == old(self).config(),
            final(self).level() == old(self).level(),
        decreases s, 1nat,
    {
        let ghost c = self.config();
        let ghost l = self.level();
        let ghost t0 = self.text();
        let ghost d = stmt_depth(*s);
        proof {
            lemma_fits(c, l, d, l, 0);
        }
        match s {
            Stmt::If { cond, then_block, else_block } => {
                proof {
                    lemma_fits(c, l, d, l, expr_depth(*cond));
                    lemma_fits(c, l, d, l, 1 + body_depth(*then_block, then_block.len() as int));
                }
                if indent {
                    self.emit_indent();
                }
                self.emit("if ");
                self.format_expr(cond);
                self.format_block(then_block);
                let ghost t1 = self.text();
                match else_block {
                    Some(else_b) => {
                        if else_b.len() == 1 {
                            if let Stmt::If { .. } = &else_b[0] {
                                proof {
                                    lemma_body_depth(*else_b, 1, 0);
                                    lemma_fits(c, l, d, l, stmt_depth(else_b[0]));
                                }
                                self.emit(" else ");
                                self.format_if(&else_b[0], false);
                                self.emit_line();
                                assert(self.text() =~= t0 + if_text(c, l, *s, indent));
                                return;
                            }
                        }
                        proof {
                            lemma_fits(c, l, d, l, 1 + body_depth(*else_b, else_b.len() as int));
                        }
                        self.emit(" else");
                        self.format_block(else_b);
                    },
                    None => {},
                }
                if indent {
                    self.emit_line();
                }
                assert(self.text() =~= t0 + if_text(c, l, *s, indent));
            },
            _ => {},
        }
    }

}

/// Whether `p` is a prefix of `t`.
pub open spec fn starts_with(t: Seq<char>, p: Seq<char>) -> bool {
    p.len() <= t.len() && t.subrange(0, p.len() as int) == p
}

/// Whether `p` is a suffix of `t`.
pub open spec fn ends_with(t: Seq<char>, p: Seq<char>) -> bool {
    p.len() <= t.len() && t.subrange(t.len() - p.len(), t.len() as int) == p
}

/// Operands are grouped as the usual binding order requires, so that the text reads
/// back as the same tree: `and` binds tighter than `or`, comparisons tighter than
/// `and`/`or`, `+ -` tighter than comparisons and `* / %` tighter than `+ -`. An
/// operand that binds more loosely than its operator is written in parentheses (an
/// `or` under an `and`, a sum under a product, `and`/`or` under a comparison, a
/// comparison under a sum); one that binds more tightly is not (an `and` under an
/// `or`, a product under a sum, a comparison under `and`/`or`).
pub proof fn lemma_operands_grouped(c: FormatConfig, l: nat, x: Expr, inner_op: BinOp, y: Expr, outer_op: BinOp, z: Expr)
    ensures
        ({
            let inner = Expr::Binary(Box::new(x), inner_op, Box::new(y));
            let ti = expr_text(c, l, inner);
            let left = expr_text(c, l, Expr::Binary(Box::new(inner), outer_op, Box::new(z)));
            let right = expr_text(c, l, Expr::Binary(Box::new(z), outer_op, Box::new(inner)));
            let logic = |op: BinOp| op == BinOp::And || op == BinOp::Or;
            let comparison = |op: BinOp| op == BinOp::Eq || op == BinOp::Neq || op == BinOp::Lt || op == BinOp::Gt
                || op == BinOp::Lte || op == BinOp::Gte;
            let sum = |op: BinOp| op == BinOp::Add || op == BinOp::Sub;
            let product = |op: BinOp| op == BinOp::Mul || op == BinOp::Div || op == BinOp::Mod;
            &&& (inner_op == BinOp::Or && outer_op == BinOp::And) ==> starts_with(left, "("@ + ti + ") and "@)
                && ends_with(right, " and ("@ + ti + ")"@)
            &&& (inner_op == BinOp::And && outer_op == BinOp::Or) ==> starts_with(left, ti + " or "@) && ends_with(
                right,
                " or "@ + ti,
            )
            &&& (logic(inner_op) && comparison(outer_op)) ==> starts_with(left, "("@ + ti + ")"@) && ends_with(
                right,
                "("@ + ti + ")"@,
            )
            &&& (comparison(inner_op) && logic(outer_op)) ==> starts_with(left, ti + " "@) && ends_with(right, " "@ + ti)
            &&& (comparison(inner_op) && sum(outer_op)) ==> starts_with(left, "("@ + ti + ")"@) && ends_with(
                right,
                "("@ + ti + ")"@,
            )
            &&& (sum(inner_op) && comparison(outer_op)) ==> starts_with(left, ti + " "@) && ends_with(right, " "@ + ti)
            &&& (sum(inner_op) && product(outer_op)) ==> starts_with(left, "("@ + ti + ")"@) && ends_with(
                right,
                "("@ + ti + ")"@,
            )
            &&& (product(inner_op) && sum(outer_op)) ==> starts_with(left, ti + " "@) && ends_with(right, " "@ + ti)
        }),
{
    let inner = Expr::Binary(Box::new(x), inner_op, Box::new(y));
    let ti = expr_text(c, l, inner);
    let left = expr_text(c, l, Expr::Binary(Box::new(inner), outer_op, Box::new(z)));
    let right = expr_text(c, l, Expr::Binary(Box::new(z), outer_op, Box::new(inner)));
    let pl = paren_text(needs_parens_spec(inner, outer_op, true), ti);
    let pz = paren_text(needs_parens_spec(z, outer_op, true), expr_text(c, l, z));
    let zr = paren_text(needs_parens_spec(z, outer_op, false), expr_text(c, l, z));
    let pr = paren_text(needs_parens_spec(inner, outer_op, false), ti);
    let op = binop_text(outer_op);
    assert(left == pl + op + zr);
    assert(right == pz + op + pr);
    reveal_strlit("(");
    reveal_strlit(")");
    reveal_strlit(" ");
    reveal_strlit(" and ");
    reveal_strlit(" or ");
    reveal_strlit(") and ");
    reveal_strlit(" and (");
    reveal_strlit(" + ");
    reveal_strlit(" - ");
    reveal_strlit(" * ");
    reveal_strlit(" / ");
    reveal_strlit(" % ");
    reveal_strlit(" == ");
    reveal_strlit(" != ");
    reveal_strlit(" < ");
    reveal_strlit(" > ");
    reveal_strlit(" <= ");
    reveal_strlit(" >= ");
    assert(left.subrange(0, (pl + op).len() as int) =~= pl + op);
    assert(right.subrange(right.len() - (op + pr).len(), right.len() as int) =~= op + pr);
    if inner_op == BinOp::Or && outer_op == BinOp::And {
        assert("("@ + ti + ") and "@ =~= pl + op);
        assert(" and ("@ + ti + ")"@ =~= op + pr);
    }
    if inner_op == BinOp::And && outer_op == BinOp::Or {
        assert(ti + " or "@ =~= pl + op);
        assert(" or "@ + ti =~= op + pr);
    }
    assert(left.subrange(0, pl.len() as int) =~= pl);
    assert(right.subrange(right.len() - pr.len(), right.len() as int) =~= pr);
    assert(starts_with(left, pl));
    assert(ends_with(right, pr));
    if needs_parens_spec(inner, outer_op, true) {
        assert(pl =~= "("@ + ti + ")"@);
    }
    if needs_parens_spec(inner, outer_op, false) {
        assert(pr =~= "("@ + ti + ")"@);
    }
    if !needs_parens_spec(inner, outer_op, true) && op.len() > 0 && op[0] == ' ' {
        assert(left.subrange(0, ti.len() + 1int) =~= ti + " "@);
    }
    if !needs_parens_spec(inner, outer_op, false) && op.len() > 0 && op[op.len() - 1] == ' ' {
        assert(right.subrange(right.len() - ti.len() - 1, right.len() as int) =~= " "@ + ti);
    }
}

} // verus!
