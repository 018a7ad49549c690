//! The syntax tree as a mathematical value: the same shape with texts as character
//! sequences and lists as sequences, and the structural equality of trees (floats
//! compared as numbers).
use vstd::prelude::*;
use crate::ast::{
    BinOp, EnumField, EnumVariant, Expr, MatchArm, MatchPattern, Param, Stmt, StructField, UnaryOp,
};
use crate::bytecode::float_bits_eq;

verus! {

/// An expression as a value.
pub ghost enum GExpr {
    Integer(i64),
    /// Bits and text.
    Float(u64, Seq<char>),
    Str(Seq<char>),
    Bool(bool),
    Char(char),
    Ident(Seq<char>),
    Null,
    Binary(Box<GExpr>, BinOp, Box<GExpr>),
    Unary(UnaryOp, Box<GExpr>),
    Call(Seq<char>, Seq<GExpr>),
    FieldAccess(Box<GExpr>, Seq<char>),
    If(Box<GExpr>, Box<GExpr>, Option<Box<GExpr>>),
    StructLiteral(Seq<char>, Seq<(Seq<char>, GExpr)>),
    Match(Box<GExpr>, Seq<GArm>),
    Lambda(Seq<(Seq<char>, Option<Seq<char>>)>, Option<Seq<char>>, Seq<GStmt>),
    TailCall(Seq<char>, Seq<GExpr>),
}

/// A match pattern as a value.
pub ghost enum GPattern {
    Literal(GExpr),
    Variable(Seq<char>),
    Or(Seq<GPattern>),
}

/// A match arm as a value.
pub ghost struct GArm {
    pub pattern: GPattern,
    pub guard: Option<GExpr>,
    pub body: Seq<GStmt>,
    pub bind: Option<Seq<char>>,
}

/// A statement as a value.
pub ghost enum GStmt {
    Let(Seq<char>, Option<Seq<char>>, bool, GExpr),
    Assign(Seq<char>, GExpr),
    FieldAssign(Seq<char>, Seq<char>, GExpr),
    Expr(GExpr),
    Return(Option<GExpr>),
    While(GExpr, Seq<GStmt>),
    For(Seq<char>, GExpr, Seq<GStmt>),
    If(GExpr, Seq<GStmt>, Option<Seq<GStmt>>),
    Block(Seq<GStmt>),
    Break,
    Continue,
    FnDef(Seq<char>, Seq<(Seq<char>, Option<Seq<char>>)>, Option<Seq<char>>, Seq<GStmt>),
    Print(GExpr),
    PrintLn(GExpr),
    Exit(GExpr),
    TypeDef(Seq<char>, Seq<(Seq<char>, Seq<char>, Option<GExpr>)>),
    ImplBlock(Seq<char>, Seq<GStmt>),
    EnumDef(Seq<char>, Seq<(Seq<char>, Seq<(Option<Seq<char>>, Seq<char>)>)>),
}

/// An optional text as a value.
pub open spec fn gtext(s: Option<String>) -> Option<Seq<char>> {
    match s {
        Some(t) => Some(t@),
        None => None,
    }
}

/// Parameters as values.
pub open spec fn gparams(v: Seq<Param>) -> Seq<(Seq<char>, Option<Seq<char>>)> {
    v.map_values(|p: Param| (p.name@, gtext(p.type_ann)))
}

/// Enum variants as values.
pub open spec fn gvariants(v: Seq<EnumVariant>) -> Seq<(Seq<char>, Seq<(Option<Seq<char>>, Seq<char>)>)> {
    v.map_values(
        |x: EnumVariant| (x.name@, x.fields@.map_values(|f: EnumField| (gtext(f.name), f.type_ann@))),
    )
}

/// An expression as a value.
pub open spec fn gexpr(e: Expr) -> GExpr
    decreases e,
{
    match e {
        Expr::Integer(n) => GExpr::Integer(n),
        Expr::Float(f) => GExpr::Float(f.bits, f.text@),
        Expr::String(s) => GExpr::Str(s@),
        Expr::Bool(b) => GExpr::Bool(b),
        Expr::Char(c) => GExpr::Char(c),
        Expr::Ident(s) => GExpr::Ident(s@),
        Expr::Null => GExpr::Null,
        Expr::Binary(l, op, r) => GExpr::Binary(Box::new(gexpr(*l)), op, Box::new(gexpr(*r))),
        Expr::Unary(op, v) => GExpr::Unary(op, Box::new(gexpr(*v))),
        Expr::Call(n, args) => GExpr::Call(n@, gexprs(args@)),
        Expr::FieldAccess(o, f) => GExpr::FieldAccess(Box::new(gexpr(*o)), f@),
        Expr::If(c, t, el) => GExpr::If(
            Box::new(gexpr(*c)),
            Box::new(gexpr(*t)),
            match el {
                Some(x) => Some(Box::new(gexpr(*x))),
                None => None,
            },
        ),
        Expr::StructLiteral { struct_name, fields } => GExpr::StructLiteral(
            struct_name@,
            gfields(fields@),
        ),
        Expr::Match { value, arms } => GExpr::Match(Box::new(gexpr(*value)), garms(arms@)),
        Expr::Lambda { params, return_type, body } => GExpr::Lambda(
            gparams(params@),
            gtext(return_type),
            gstmts(body@),
        ),
        Expr::TailCall(n, args) => GExpr::TailCall(n@, gexprs(args@)),
    }
}

/// A list of expressions as values.
pub open spec fn gexprs(v: Seq<Expr>) -> Seq<GExpr>
    decreases v,
{
    if v.len() == 0 {
        Seq::empty()
    } else {
        gexprs(v.subrange(0, v.len() - 1)).push(gexpr(v[v.len() - 1]))
    }
}

/// Struct-literal fields as values.
pub open spec fn gfields(v: Seq<(String, Expr)>) -> Seq<(Seq<char>, GExpr)>
    decreases v,
{
    if v.len() == 0 {
        Seq::empty()
    } else {
        gfields(v.subrange(0, v.len() - 1)).push((v[v.len() - 1].0@, gexpr(v[v.len() - 1].1)))
    }
}

/// A match pattern as a value.
pub open spec fn gpattern(p: MatchPattern) -> GPattern
    decreases p,
{
    match p {
        MatchPattern::Literal(e) => GPattern::Literal(gexpr(e)),
        MatchPattern::Variable(s) => GPattern::Variable(s@),
        MatchPattern::Or(ps) => GPattern::Or(gpatterns(ps@)),
    }
}

/// Match patterns as values.
pub open spec fn gpatterns(v: Seq<MatchPattern>) -> Seq<GPattern>
    decreases v,
{
    if v.len() == 0 {
        Seq::empty()
    } else {
        gpatterns(v.subrange(0, v.len() - 1)).push(gpattern(v[v.len() - 1]))
    }
}

/// A match arm as a value.
pub open spec fn garm(a: MatchArm) -> GArm
    decreases a,
{
    GArm {
        pattern: gpattern(a.pattern),
        guard: match a.guard {
            Some(g) => Some(gexpr(g)),
            None => None,
        },
        body: gstmts(a.body@),
        bind: gtext(a.bind),
    }
}

/// Match arms as values.
pub open spec fn garms(v: Seq<MatchArm>) -> Seq<GArm>
    decreases v,
{
    if v.len() == 0 {
        Seq::empty()
    } else {
        garms(v.subrange(0, v.len() - 1)).push(garm(v[v.len() - 1]))
    }
}

/// Struct-definition fields as values.
pub open spec fn gstruct_fields(v: Seq<StructField>) -> Seq<(Seq<char>, Seq<char>, Option<GExpr>)>
    decreases v,
{
    if v.len() == 0 {
        Seq::empty()
    } else {
        let f = v[v.len() - 1];
        gstruct_fields(v.subrange(0, v.len() - 1)).push(
            (
                f.name@,
                f.type_ann@,
                match f.default {
                    Some(d) => Some(gexpr(d)),
                    None => None,
                },
            ),
        )
    }
}

/// A statement as a value.
pub open spec fn gstmt(s: Stmt) -> GStmt
    decreases s,
{
    match s {
        Stmt::Let { name, type_ann, mutable, value } => GStmt::Let(
            name@,
            gtext(type_ann),
            mutable,
            gexpr(value),
        ),
        Stmt::Assign { name, value } => GStmt::Assign(name@, gexpr(value)),
        Stmt::FieldAssign { obj, field, value } => GStmt::FieldAssign(obj@, field@, gexpr(value)),
        Stmt::Expr(e) => GStmt::Expr(gexpr(e)),
        Stmt::Return(v) => GStmt::Return(
            match v {
                Some(e) => Some(gexpr(e)),
                None => None,
            },
        ),
        Stmt::While(c, body) => GStmt::While(gexpr(c), gstmts(body@)),
        Stmt::For { var, iterable, body } => GStmt::For(var@, gexpr(iterable), gstmts(body@)),
        Stmt::If { cond, then_block, else_block } => GStmt::If(
            gexpr(cond),
            gstmts(then_block@),
            match else_block {
                Some(b) => Some(gstmts(b@)),
                None => None,
            },
        ),
        Stmt::Block(v) => GStmt::Block(gstmts(v@)),
        Stmt::Break => GStmt::Break,
        Stmt::Continue => GStmt::Continue,
        Stmt::FnDef { name, params, return_type, body } => GStmt::FnDef(
            name@,
            gparams(params@),
            gtext(return_type),
            gstmts(body@),
        ),
        Stmt::Print(e) => GStmt::Print(gexpr(e)),
        Stmt::PrintLn(e) => GStmt::PrintLn(gexpr(e)),
        Stmt::Exit(e) => GStmt::Exit(gexpr(e)),
        Stmt::TypeDef { name, fields } => GStmt::TypeDef(name@, gstruct_fields(fields@)),
        Stmt::ImplBlock { impl_type, methods } => GStmt::ImplBlock(impl_type@, gstmts(methods@)),
        Stmt::EnumDef { name, variants } => GStmt::EnumDef(name@, gvariants(variants@)),
    }
}

/// A block as values.
pub open spec fn gstmts(v: Seq<Stmt>) -> Seq<GStmt>
    decreases v,
{
    if v.len() == 0 {
        Seq::empty()
    } else {
        gstmts(v.subrange(0, v.len() - 1)).push(gstmt(v[v.len() - 1]))
    }
}

// ---------------------------------------------------------------------------
// Structural equality
// ---------------------------------------------------------------------------

/// Whether two expressions are equal part by part (floats as numbers, texts by their
/// characters).
pub open spec fn gsame(a: GExpr, b: GExpr) -> bool
    decreases a,
{
    match (a, b) {
        (GExpr::Integer(x), GExpr::Integer(y)) => x == y,
        (GExpr::Float(x, _), GExpr::Float(y, _)) => float_bits_eq(x, y),
        (GExpr::Str(x), GExpr::Str(y)) => x == y,
        (GExpr::Bool(x), GExpr::Bool(y)) => x == y,
        (GExpr::Char(x), GExpr::Char(y)) => x == y,
        (GExpr::Ident(x), GExpr::Ident(y)) => x == y,
        (GExpr::Null, GExpr::Null) => true,
        (GExpr::Binary(l1, o1, r1), GExpr::Binary(l2, o2, r2)) => gsame(*l1, *l2) && o1 == o2
            && gsame(*r1, *r2),
        (GExpr::Unary(o1, x1), GExpr::Unary(o2, x2)) => o1 == o2 && gsame(*x1, *x2),
        (GExpr::Call(n1, a1), GExpr::Call(n2, a2)) => n1 == n2 && gsames(a1, a2),
        (GExpr::FieldAccess(o1, f1), GExpr::FieldAccess(o2, f2)) => gsame(*o1, *o2) && f1 == f2,
        (GExpr::If(c1, t1, e1), GExpr::If(c2, t2, e2)) => gsame(*c1, *c2) && gsame(*t1, *t2)
            && match (e1, e2) {
            (Some(x), Some(y)) => gsame(*x, *y),
            (None, None) => true,
            _ => false,
        },
        (GExpr::StructLiteral(n1, f1), GExpr::StructLiteral(n2, f2)) => n1 == n2 && gfields_same(
            f1,
            f2,
        ),
        (GExpr::Match(v1, a1), GExpr::Match(v2, a2)) => gsame(*v1, *v2) && garms_same(a1, a2),
        (GExpr::Lambda(p1, t1, b1), GExpr::Lambda(p2, t2, b2)) => p1 == p2 && t1 == t2
            && gstmts_same(b1, b2),
        (GExpr::TailCall(n1, a1), GExpr::TailCall(n2, a2)) => n1 == n2 && gsames(a1, a2),
        _ => false,
    }
}

/// Whether two lists of expressions are equal element by element.
pub open spec fn gsames(a: Seq<GExpr>, b: Seq<GExpr>) -> bool
    decreases a,
{
    a.len() == b.len() && (a.len() > 0 ==> gsames(a.subrange(0, a.len() - 1), b.drop_last()) && gsame(
        a[a.len() - 1],
        b.last(),
    ))
}

/// Whether two lists of struct-literal fields are equal.
pub open spec fn gfields_same(a: Seq<(Seq<char>, GExpr)>, b: Seq<(Seq<char>, GExpr)>) -> bool
    decreases a,
{
    a.len() == b.len() && (a.len() > 0 ==> gfields_same(a.subrange(0, a.len() - 1), b.drop_last())
        && a[a.len() - 1].0 == b.last().0 && gsame(a[a.len() - 1].1, b.last().1))
}

/// Whether two match patterns are equal.
pub open spec fn gpattern_same(a: GPattern, b: GPattern) -> bool
    decreases a,
{
    match (a, b) {
        (GPattern::Literal(x), GPattern::Literal(y)) => gsame(x, y),
        (GPattern::Variable(x), GPattern::Variable(y)) => x == y,
        (GPattern::Or(x), GPattern::Or(y)) => gpatterns_same(x, y),
        _ => false,
    }
}

/// Whether two lists of match patterns are equal.
pub open spec fn gpatterns_same(a: Seq<GPattern>, b: Seq<GPattern>) -> bool
    decreases a,
{
    a.len() == b.len() && (a.len() > 0 ==> gpatterns_same(a.subrange(0, a.len() - 1), b.drop_last())
        && gpattern_same(a[a.len() - 1], b.last()))
}

/// Whether two match arms are equal.
pub open spec fn garm_same(a: GArm, b: GArm) -> bool
    decreases a,
{
    &&& gpattern_same(a.pattern, b.pattern)
    &&& match (a.guard, b.guard) {
        (Some(x), Some(y)) => gsame(x, y),
        (None, None) => true,
        _ => false,
    }
    &&& gstmts_same(a.body, b.body)
    &&& a.bind == b.bind
}

/// Whether two lists of match arms are equal.
pub open spec fn garms_same(a: Seq<GArm>, b: Seq<GArm>) -> bool
    decreases a,
{
    a.len() == b.len() && (a.len() > 0 ==> garms_same(a.subrange(0, a.len() - 1), b.drop_last())
        && garm_same(a[a.len() - 1], b.last()))
}

/// Whether two lists of struct-definition fields are equal.
pub open spec fn gsfields_same(
    a: Seq<(Seq<char>, Seq<char>, Option<GExpr>)>,
    b: Seq<(Seq<char>, Seq<char>, Option<GExpr>)>,
) -> bool
    decreases a,
{
    a.len() == b.len() && (a.len() > 0 ==> gsfields_same(a.subrange(0, a.len() - 1), b.drop_last())
        && a[a.len() - 1].0 == b.last().0 && a[a.len() - 1].1 == b.last().1 && match (
        a[a.len() - 1].2,
        b.last().2,
    ) {
        (Some(x), Some(y)) => gsame(x, y),
        (None, None) => true,
        _ => false,
    })
}

/// Whether two optional expressions are equal.
pub open spec fn gopt_same(a: Option<GExpr>, b: Option<GExpr>) -> bool {
    match (a, b) {
        (Some(x), Some(y)) => gsame(x, y),
        (None, None) => true,
        _ => false,
    }
}

/// Whether two statements are equal.
pub open spec fn gstmt_same(a: GStmt, b: GStmt) -> bool
    decreases a,
{
    match (a, b) {
        (GStmt::Let(n1, t1, m1, v1), GStmt::Let(n2, t2, m2, v2)) => n1 == n2 && t1 == t2 && m1 == m2
            && gsame(v1, v2),
        (GStmt::Assign(n1, v1), GStmt::Assign(n2, v2)) => n1 == n2 && gsame(v1, v2),
        (GStmt::FieldAssign(o1, f1, v1), GStmt::FieldAssign(o2, f2, v2)) => o1 == o2 && f1 == f2
            && gsame(v1, v2),
        (GStmt::Expr(x), GStmt::Expr(y)) => gsame(x, y),
        (GStmt::Return(x), GStmt::Return(y)) => match (x, y) {
            (Some(p), Some(q)) => gsame(p, q),
            (None, None) => true,
            _ => false,
        },
        (GStmt::While(c1, b1), GStmt::While(c2, b2)) => gsame(c1, c2) && gstmts_same(b1, b2),
        (GStmt::For(v1, i1, b1), GStmt::For(v2, i2, b2)) => v1 == v2 && gsame(i1, i2) && gstmts_same(
            b1,
            b2,
        ),
        (GStmt::If(c1, t1, e1), GStmt::If(c2, t2, e2)) => gsame(c1, c2) && gstmts_same(t1, t2)
            && match (e1, e2) {
            (Some(x), Some(y)) => gstmts_same(x, y),
            (None, None) => true,
            _ => false,
        },
        (GStmt::Block(x), GStmt::Block(y)) => gstmts_same(x, y),
        (GStmt::Break, GStmt::Break) => true,
        (GStmt::Continue, GStmt::Continue) => true,
        (GStmt::FnDef(n1, p1, t1, b1), GStmt::FnDef(n2, p2, t2, b2)) => n1 == n2 && p1 == p2 && t1
            == t2 && gstmts_same(b1, b2),
        (GStmt::Print(x), GStmt::Print(y)) => gsame(x, y),
        (GStmt::PrintLn(x), GStmt::PrintLn(y)) => gsame(x, y),
        (GStmt::Exit(x), GStmt::Exit(y)) => gsame(x, y),
        (GStmt::TypeDef(n1, f1), GStmt::TypeDef(n2, f2)) => n1 == n2 && gsfields_same(f1, f2),
        (GStmt::ImplBlock(n1, m1), GStmt::ImplBlock(n2, m2)) => n1 == n2 && gstmts_same(m1, m2),
        (GStmt::EnumDef(n1, v1), GStmt::EnumDef(n2, v2)) => n1 == n2 && v1 == v2,
        _ => false,
    }
}

/// Whether two blocks are equal statement by statement.
pub open spec fn gstmts_same(a: Seq<GStmt>, b: Seq<GStmt>) -> bool
    decreases a,
{
    a.len() == b.len() && (a.len() > 0 ==> gstmts_same(a.subrange(0, a.len() - 1), b.drop_last())
        && gstmt_same(a[a.len() - 1], b.last()))
}


// ---------------------------------------------------------------------------
// Structural equality, executable
// ---------------------------------------------------------------------------

/// The view of a prefix one longer, and the length of a prefix's view.
proof fn lemma_gexprs_step(v: Seq<Expr>, i: int)
    requires
        0 <= i < v.len(),
    ensures
        gexprs(v.take(i + 1)) == gexprs(v.take(i)).push(gexpr(v[i])),
        gexprs(v.take(i)).len() == i,
        gexprs(v.take(i + 1)).len() == i + 1,
    decreases i,
{
    assert(v.take(i + 1).subrange(0, i) =~= v.take(i));
    if i > 0 {
        lemma_gexprs_step(v, i - 1);
    } else {
        assert(v.take(0) =~= Seq::<Expr>::empty());
    }
}

/// Whether two lists are equal part by part.
fn exprs_eq(a: &Vec<Expr>, b: &Vec<Expr>) -> (r: bool)
    ensures
        r == gsames(gexprs(a@), gexprs(b@)),
    decreases a,
{
    proof {
        if a@.len() > 0 {
            lemma_gexprs_step(a@, a@.len() - 1);
        } else {
            assert(a@ =~= Seq::<Expr>::empty());
        }
        if b@.len() > 0 {
            lemma_gexprs_step(b@, b@.len() - 1);
        } else {
            assert(b@ =~= Seq::<Expr>::empty());
        }
        assert(a@.take(a@.len() as int) =~= a@);
        assert(b@.take(b@.len() as int) =~= b@);
    }
    if a.len() != b.len() {
        return false;
    }
    let mut eq = true;
    let mut i: usize = 0;
    proof {
        assert(a@.take(0) =~= Seq::<Expr>::empty());
        assert(b@.take(0) =~= Seq::<Expr>::empty());
    }
    while i < a.len()
        invariant
            a@.len() == b@.len(),
            i <= a@.len(),
            eq == gsames(gexprs(a@.take(i as int)), gexprs(b@.take(i as int))),
        decreases a@.len() - i,
    {
        proof {
            lemma_gexprs_step(a@, i as int);
            lemma_gexprs_step(b@, i as int);
            let x = gexprs(a@.take(i as int + 1));
            let y = gexprs(b@.take(i as int + 1));
            assert(x.subrange(0, x.len() - 1) =~= gexprs(a@.take(i as int)));
            assert(y.drop_last() =~= gexprs(b@.take(i as int)));
        }
        assert(decreases_to!(*a => a[i as int]));
        eq = eq && expr_eq(&a[i], &b[i]);
        i = i + 1;
    }
    eq
}

/// The view of a prefix one longer, and the length of a prefix's view.
proof fn lemma_gfields_step(v: Seq<(String, Expr)>, i: int)
    requires
        0 <= i < v.len(),
    ensures
        gfields(v.take(i + 1)) == gfields(v.take(i)).push((v[i].0@, gexpr(v[i].1))),
        gfields(v.take(i)).len() == i,
        gfields(v.take(i + 1)).len() == i + 1,
    decreases i,
{
    assert(v.take(i + 1).subrange(0, i) =~= v.take(i));
    if i > 0 {
        lemma_gfields_step(v, i - 1);
    } else {
        assert(v.take(0) =~= Seq::<(String, Expr)>::empty());
    }
}

/// Whether two lists are equal part by part.
fn fields_eq(a: &Vec<(String, Expr)>, b: &Vec<(String, Expr)>) -> (r: bool)
    ensures
        r == gfields_same(gfields(a@), gfields(b@)),
    decreases a,
{
    proof {
        if a@.len() > 0 {
            lemma_gfields_step(a@, a@.len() - 1);
        } else {
            assert(a@ =~= Seq::<(String, Expr)>::empty());
        }
        if b@.len() > 0 {
            lemma_gfields_step(b@, b@.len() - 1);
        } else {
            assert(b@ =~= Seq::<(String, Expr)>::empty());
        }
        assert(a@.take(a@.len() as int) =~= a@);
        assert(b@.take(b@.len() as int) =~= b@);
    }
    if a.len() != b.len() {
        return false;
    }
    let mut eq = true;
    let mut i: usize = 0;
    proof {
        assert(a@.take(0) =~= Seq::<(String, Expr)>::empty());
        assert(b@.take(0) =~= Seq::<(String, Expr)>::empty());
    }
    while i < a.len()
        invariant
            a@.len() == b@.len(),
            i <= a@.len(),
            eq == gfields_same(gfields(a@.take(i as int)), gfields(b@.take(i as int))),
        decreases a@.len() - i,
    {
        proof {
            lemma_gfields_step(a@, i as int);
            lemma_gfields_step(b@, i as int);
            let x = gfields(a@.take(i as int + 1));
            let y = gfields(b@.take(i as int + 1));
            assert(x.subrange(0, x.len() - 1) =~= gfields(a@.take(i as int)));
            assert(y.drop_last() =~= gfields(b@.take(i as int)));
        }
        assert(decreases_to!(*a => a[i as int]));
        eq = eq && a[i].0 == b[i].0 && expr_eq(&a[i].1, &b[i].1);
        i = i + 1;
    }
    eq
}

/// The view of a prefix one longer, and the length of a prefix's view.
proof fn lemma_gpatterns_step(v: Seq<MatchPattern>, i: int)
    requires
        0 <= i < v.len(),
    ensures
        gpatterns(v.take(i + 1)) == gpatterns(v.take(i)).push(gpattern(v[i])),
        gpatterns(v.take(i)).len() == i,
        gpatterns(v.take(i + 1)).len() == i + 1,
    decreases i,
{
    assert(v.take(i + 1).subrange(0, i) =~= v.take(i));
    if i > 0 {
        lemma_gpatterns_step(v, i - 1);
    } else {
        assert(v.take(0) =~= Seq::<MatchPattern>::empty());
    }
}

/// Whether two lists are equal part by part.
fn patterns_eq(a: &Vec<MatchPattern>, b: &Vec<MatchPattern>) -> (r: bool)
    ensures
        r == gpatterns_same(gpatterns(a@), gpatterns(b@)),
    decreases a,
{
    proof {
        if a@.len() > 0 {
            lemma_gpatterns_step(a@, a@.len() - 1);
        } else {
            assert(a@ =~= Seq::<MatchPattern>::empty());
        }
        if b@.len() > 0 {
            lemma_gpatterns_step(b@, b@.len() - 1);
        } else {
            assert(b@ =~= Seq::<MatchPattern>::empty());
        }
        assert(a@.take(a@.len() as int) =~= a@);
        assert(b@.take(b@.len() as int) =~= b@);
    }
    if a.len() != b.len() {
        return false;
    }
    let mut eq = true;
    let mut i: usize = 0;
    proof {
        assert(a@.take(0) =~= Seq::<MatchPattern>::empty());
        assert(b@.take(0) =~= Seq::<MatchPattern>::empty());
    }
    while i < a.len()
        invariant
            a@.len() == b@.len(),
            i <= a@.len(),
            eq == gpatterns_same(gpatterns(a@.take(i as int)), gpatterns(b@.take(i as int))),
        decreases a@.len() - i,
    {
        proof {
            lemma_gpatterns_step(a@, i as int);
            lemma_gpatterns_step(b@, i as int);
            let x = gpatterns(a@.take(i as int + 1));
            let y = gpatterns(b@.take(i as int + 1));
            assert(x.subrange(0, x.len() - 1) =~= gpatterns(a@.take(i as int)));
            assert(y.drop_last() =~= gpatterns(b@.take(i as int)));
        }
        assert(decreases_to!(*a => a[i as int]));
        eq = eq && pattern_eq(&a[i], &b[i]);
        i = i + 1;
    }
    eq
}

/// The view of a prefix one longer, and the length of a prefix's view.
proof fn lemma_garms_step(v: Seq<MatchArm>, i: int)
    requires
        0 <= i < v.len(),
    ensures
        garms(v.take(i + 1)) == garms(v.take(i)).push(garm(v[i])),
        garms(v.take(i)).len() == i,
        garms(v.take(i + 1)).len() == i + 1,
    decreases i,
{
    assert(v.take(i + 1).subrange(0, i) =~= v.take(i));
    if i > 0 {
        lemma_garms_step(v, i - 1);
    } else {
        assert(v.take(0) =~= Seq::<MatchArm>::empty());
    }
}

/// Whether two lists are equal part by part.
fn arms_eq(a: &Vec<MatchArm>, b: &Vec<MatchArm>) -> (r: bool)
    ensures
        r == garms_same(garms(a@), garms(b@)),
    decreases a,
{
    proof {
        if a@.len() > 0 {
            lemma_garms_step(a@, a@.len() - 1);
        } else {
            assert(a@ =~= Seq::<MatchArm>::empty());
        }
        if b@.len() > 0 {
            lemma_garms_step(b@, b@.len() - 1);
        } else {
            assert(b@ =~= Seq::<MatchArm>::empty());
        }
        assert(a@.take(a@.len() as int) =~= a@);
        assert(b@.take(b@.len() as int) =~= b@);
    }
    if a.len() != b.len() {
        return false;
    }
    let mut eq = true;
    let mut i: usize = 0;
    proof {
        assert(a@.take(0) =~= Seq::<MatchArm>::empty());
        assert(b@.take(0) =~= Seq::<MatchArm>::empty());
    }
    while i < a.len()
        invariant
            a@.len() == b@.len(),
            i <= a@.len(),
            eq == garms_same(garms(a@.take(i as int)), garms(b@.take(i as int))),
        decreases a@.len() - i,
    {
        proof {
            lemma_garms_step(a@, i as int);
            lemma_garms_step(b@, i as int);
            let x = garms(a@.take(i as int + 1));
            let y = garms(b@.take(i as int + 1));
            assert(x.subrange(0, x.len() - 1) =~= garms(a@.take(i as int)));
            assert(y.drop_last() =~= garms(b@.take(i as int)));
        }
        assert(decreases_to!(*a => a[i as int]));
        eq = eq && arm_eq(&a[i], &b[i]);
        i = i + 1;
    }
    eq
}

/// The view of a prefix one longer, and the length of a prefix's view.
proof fn lemma_gstruct_fields_step(v: Seq<StructField>, i: int)
    requires
        0 <= i < v.len(),
    ensures
        gstruct_fields(v.take(i + 1)) == gstruct_fields(v.take(i)).push((v[i].name@, v[i].type_ann@, match v[i].default {
            Some(d) => Some(gexpr(d)),
            None => None,
        })),
        gstruct_fields(v.take(i)).len() == i,
        gstruct_fields(v.take(i + 1)).len() == i + 1,
    decreases i,
{
    assert(v.take(i + 1).subrange(0, i) =~= v.take(i));
    if i > 0 {
        lemma_gstruct_fields_step(v, i - 1);
    } else {
        assert(v.take(0) =~= Seq::<StructField>::empty());
    }
}

/// Whether two lists are equal part by part.
fn sfields_eq(a: &Vec<StructField>, b: &Vec<StructField>) -> (r: bool)
    ensures
        r == gsfields_same(gstruct_fields(a@), gstruct_fields(b@)),
    decreases a,
{
    proof {
        if a@.len() > 0 {
            lemma_gstruct_fields_step(a@, a@.len() - 1);
        } else {
            assert(a@ =~= Seq::<StructField>::empty());
        }
        if b@.len() > 0 {
            lemma_gstruct_fields_step(b@, b@.len() - 1);
        } else {
            assert(b@ =~= Seq::<StructField>::empty());
        }
        assert(a@.take(a@.len() as int) =~= a@);
        assert(b@.take(b@.len() as int) =~= b@);
    }
    if a.len() != b.len() {
        return false;
    }
    let mut eq = true;
    let mut i: usize = 0;
    proof {
        assert(a@.take(0) =~= Seq::<StructField>::empty());
        assert(b@.take(0) =~= Seq::<StructField>::empty());
    }
    while i < a.len()
        invariant
            a@.len() == b@.len(),
            i <= a@.len(),
            eq == gsfields_same(gstruct_fields(a@.take(i as int)), gstruct_fields(b@.take(i as int))),
        decreases a@.len() - i,
    {
        proof {
            lemma_gstruct_fields_step(a@, i as int);
            lemma_gstruct_fields_step(b@, i as int);
            let x = gstruct_fields(a@.take(i as int + 1));
            let y = gstruct_fields(b@.take(i as int + 1));
            assert(x.subrange(0, x.len() - 1) =~= gstruct_fields(a@.take(i as int)));
            assert(y.drop_last() =~= gstruct_fields(b@.take(i as int)));
        }
        assert(decreases_to!(*a => a[i as int]));
        eq = eq && sfield_eq(&a[i], &b[i]);
        i = i + 1;
    }
    eq
}

/// The view of a prefix one longer, and the length of a prefix's view.
proof fn lemma_gstmts_step(v: Seq<Stmt>, i: int)
    requires
        0 <= i < v.len(),
    ensures
        gstmts(v.take(i + 1)) == gstmts(v.take(i)).push(gstmt(v[i])),
        gstmts(v.take(i)).len() == i,
        gstmts(v.take(i + 1)).len() == i + 1,
    decreases i,
{
    assert(v.take(i + 1).subrange(0, i) =~= v.take(i));
    if i > 0 {
        lemma_gstmts_step(v, i - 1);
    } else {
        assert(v.take(0) =~= Seq::<Stmt>::empty());
    }
}

/// Whether two lists are equal part by part.
fn stmts_eq(a: &Vec<Stmt>, b: &Vec<Stmt>) -> (r: bool)
    ensures
        r == gstmts_same(gstmts(a@), gstmts(b@)),
    decreases a,
{
    proof {
        if a@.len() > 0 {
            lemma_gstmts_step(a@, a@.len() - 1);
        } else {
            assert(a@ =~= Seq::<Stmt>::empty());
        }
        if b@.len() > 0 {
            lemma_gstmts_step(b@, b@.len() - 1);
        } else {
            assert(b@ =~= Seq::<Stmt>::empty());
        }
        assert(a@.take(a@.len() as int) =~= a@);
        assert(b@.take(b@.len() as int) =~= b@);
    }
    if a.len() != b.len() {
        return false;
    }
    let mut eq = true;
    let mut i: usize = 0;
    proof {
        assert(a@.take(0) =~= Seq::<Stmt>::empty());
        assert(b@.take(0) =~= Seq::<Stmt>::empty());
    }
    while i < a.len()
        invariant
            a@.len() == b@.len(),
            i <= a@.len(),
            eq == gstmts_same(gstmts(a@.take(i as int)), gstmts(b@.take(i as int))),
        decreases a@.len() - i,
    {
        proof {
            lemma_gstmts_step(a@, i as int);
            lemma_gstmts_step(b@, i as int);
            let x = gstmts(a@.take(i as int + 1));
            let y = gstmts(b@.take(i as int + 1));
            assert(x.subrange(0, x.len() - 1) =~= gstmts(a@.take(i as int)));
            assert(y.drop_last() =~= gstmts(b@.take(i as int)));
        }
        assert(decreases_to!(*a => a[i as int]));
        eq = eq && stmt_eq(&a[i], &b[i]);
        i = i + 1;
    }
    eq
}

/// Whether two optional texts are equal.
fn text_eq(a: &Option<String>, b: &Option<String>) -> (r: bool)
    ensures
        r == (gtext(*a) == gtext(*b)),
{
    match (a, b) {
        (Some(x), Some(y)) => *x == *y,
        (None, None) => true,
        _ => false,
    }
}

/// Whether two parameter lists are equal.
fn params_eq(a: &Vec<Param>, b: &Vec<Param>) -> (r: bool)
    ensures
        r == (gparams(a@) == gparams(b@)),
{
    if a.len() != b.len() {
        assert(gparams(a@).len() != gparams(b@).len());
        return false;
    }
    let mut i: usize = 0;
    while i < a.len()
        invariant
            a@.len() == b@.len(),
            i <= a@.len(),
            forall|j: int| 0 <= j < i ==> #[trigger] gparams(a@)[j] == gparams(b@)[j],
        decreases a@.len() - i,
    {
        if !(a[i].name == b[i].name && text_eq(&a[i].type_ann, &b[i].type_ann)) {
            assert(gparams(a@)[i as int] != gparams(b@)[i as int]);
            return false;
        }
        i = i + 1;
    }
    assert(gparams(a@) =~= gparams(b@));
    true
}

/// Whether two lists of enum fields are equal.
fn enum_fields_eq(a: &Vec<EnumField>, b: &Vec<EnumField>) -> (r: bool)
    ensures
        r == (a@.map_values(|f: EnumField| (gtext(f.name), f.type_ann@)) == b@.map_values(
            |f: EnumField| (gtext(f.name), f.type_ann@),
        )),
{
    let ghost ga = a@.map_values(|f: EnumField| (gtext(f.name), f.type_ann@));
    let ghost gb = b@.map_values(|f: EnumField| (gtext(f.name), f.type_ann@));
    if a.len() != b.len() {
        assert(ga.len() != gb.len());
        return false;
    }
    let mut i: usize = 0;
    while i < a.len()
        invariant
            a@.len() == b@.len(),
            i <= a@.len(),
            ga == a@.map_values(|f: EnumField| (gtext(f.name), f.type_ann@)),
            gb == b@.map_values(|f: EnumField| (gtext(f.name), f.type_ann@)),
            forall|j: int| 0 <= j < i ==> #[trigger] ga[j] == gb[j],
        decreases a@.len() - i,
    {
        if !(text_eq(&a[i].name, &b[i].name) && a[i].type_ann == b[i].type_ann) {
            assert(ga[i as int] != gb[i as int]);
            return false;
        }
        i = i + 1;
    }
    assert(ga =~= gb);
    true
}

/// Whether two lists of enum variants are equal.
fn variants_eq(a: &Vec<EnumVariant>, b: &Vec<EnumVariant>) -> (r: bool)
    ensures
        r == (gvariants(a@) == gvariants(b@)),
{
    if a.len() != b.len() {
        assert(gvariants(a@).len() != gvariants(b@).len());
        return false;
    }
    let mut i: usize = 0;
    while i < a.len()
        invariant
            a@.len() == b@.len(),
            i <= a@.len(),
            forall|j: int| 0 <= j < i ==> #[trigger] gvariants(a@)[j] == gvariants(b@)[j],
        decreases a@.len() - i,
    {
        if !(a[i].name == b[i].name && enum_fields_eq(&a[i].fields, &b[i].fields)) {
            assert(gvariants(a@)[i as int] != gvariants(b@)[i as int]);
            return false;
        }
        i = i + 1;
    }
    assert(gvariants(a@) =~= gvariants(b@));
    true
}

/// Whether two optional expressions are equal.
fn opt_expr_eq(a: &Option<Expr>, b: &Option<Expr>) -> (r: bool)
    ensures
        r == gopt_same(
            match *a {
                Some(x) => Some(gexpr(x)),
                None => None,
            },
            match *b {
                Some(x) => Some(gexpr(x)),
                None => None,
            },
        ),
    decreases a,
{
    match (a, b) {
        (Some(x), Some(y)) => expr_eq(x, y),
        (None, None) => true,
        _ => false,
    }
}

/// Whether two struct-definition fields are equal.
fn sfield_eq(a: &StructField, b: &StructField) -> (r: bool)
    ensures
        r == (a.name@ == b.name@ && a.type_ann@ == b.type_ann@ && gopt_same(
            match a.default {
                Some(x) => Some(gexpr(x)),
                None => None,
            },
            match b.default {
                Some(x) => Some(gexpr(x)),
                None => None,
            },
        )),
    decreases a,
{
    a.name == b.name && a.type_ann == b.type_ann && opt_expr_eq(&a.default, &b.default)
}

/// Whether two match patterns are equal.
fn pattern_eq(a: &MatchPattern, b: &MatchPattern) -> (r: bool)
    ensures
        r == gpattern_same(gpattern(*a), gpattern(*b)),
    decreases a,
{
    match (a, b) {
        (MatchPattern::Literal(x), MatchPattern::Literal(y)) => expr_eq(x, y),
        (MatchPattern::Variable(x), MatchPattern::Variable(y)) => *x == *y,
        (MatchPattern::Or(x), MatchPattern::Or(y)) => patterns_eq(x, y),
        _ => false,
    }
}

/// Whether two match arms are equal.
fn arm_eq(a: &MatchArm, b: &MatchArm) -> (r: bool)
    ensures
        r == garm_same(garm(*a), garm(*b)),
    decreases a,
{
    pattern_eq(&a.pattern, &b.pattern) && opt_expr_eq(&a.guard, &b.guard) && stmts_eq(&a.body, &b.body)
        && text_eq(&a.bind, &b.bind)
}

/// Whether two expressions are equal part by part (floats as numbers).
pub fn expr_eq(a: &Expr, b: &Expr) -> (r: bool)
    ensures
        r == gsame(gexpr(*a), gexpr(*b)),
    decreases a,
{
    match (a, b) {
        (Expr::Integer(x), Expr::Integer(y)) => *x == *y,
        (Expr::Float(x), Expr::Float(y)) => crate::bytecode::float_bits_equal(x.bits, y.bits),
        (Expr::String(x), Expr::String(y)) => *x == *y,
        (Expr::Bool(x), Expr::Bool(y)) => *x == *y,
        (Expr::Char(x), Expr::Char(y)) => *x == *y,
        (Expr::Ident(x), Expr::Ident(y)) => *x == *y,
        (Expr::Null, Expr::Null) => true,
        (Expr::Binary(l1, o1, r1), Expr::Binary(l2, o2, r2)) => expr_eq(l1, l2) && *o1 == *o2
            && expr_eq(r1, r2),
        (Expr::Unary(o1, x1), Expr::Unary(o2, x2)) => *o1 == *o2 && expr_eq(x1, x2),
        (Expr::Call(n1, a1), Expr::Call(n2, a2)) => *n1 == *n2 && exprs_eq(a1, a2),
        (Expr::FieldAccess(o1, f1), Expr::FieldAccess(o2, f2)) => expr_eq(o1, o2) && *f1 == *f2,
        (Expr::If(c1, t1, e1), Expr::If(c2, t2, e2)) => expr_eq(c1, c2) && expr_eq(t1, t2) && match (
            e1,
            e2,
        ) {
            (Some(x), Some(y)) => expr_eq(x, y),
            (None, None) => true,
            _ => false,
        },
        (
            Expr::StructLiteral { struct_name: n1, fields: f1 },
            Expr::StructLiteral { struct_name: n2, fields: f2 },
        ) => *n1 == *n2 && fields_eq(f1, f2),
        (Expr::Match { value: v1, arms: a1 }, Expr::Match { value: v2, arms: a2 }) => expr_eq(v1, v2)
            && arms_eq(a1, a2),
        (
            Expr::Lambda { params: p1, return_type: t1, body: b1 },
            Expr::Lambda { params: p2, return_type: t2, body: b2 },
        ) => params_eq(p1, p2) && text_eq(t1, t2) && stmts_eq(b1, b2),
        (Expr::TailCall(n1, a1), Expr::TailCall(n2, a2)) => *n1 == *n2 && exprs_eq(a1, a2),
        _ => false,
    }
}

/// Whether two optional expressions of a `return` are equal.
fn ret_eq(a: &Option<Expr>, b: &Option<Expr>) -> (r: bool)
    ensures
        r == match (*a, *b) {
            (Some(p), Some(q)) => gsame(gexpr(p), gexpr(q)),
            (None, None) => true,
            _ => false,
        },
    decreases a,
{
    match (a, b) {
        (Some(x), Some(y)) => expr_eq(x, y),
        (None, None) => true,
        _ => false,
    }
}

/// Whether two statements are equal part by part.
pub fn stmt_eq(a: &Stmt, b: &Stmt) -> (r: bool)
    ensures
        r == gstmt_same(gstmt(*a), gstmt(*b)),
    decreases a,
{
    match (a, b) {
        (
            Stmt::Let { name: n1, type_ann: t1, mutable: m1, value: v1 },
            Stmt::Let { name: n2, type_ann: t2, mutable: m2, value: v2 },
        ) => *n1 == *n2 && text_eq(t1, t2) && *m1 == *m2 && expr_eq(v1, v2),
        (Stmt::Assign { name: n1, value: v1 }, Stmt::Assign { name: n2, value: v2 }) => *n1 == *n2
            && expr_eq(v1, v2),
        (
            Stmt::FieldAssign { obj: o1, field: f1, value: v1 },
            Stmt::FieldAssign { obj: o2, field: f2, value: v2 },
        ) => *o1 == *o2 && *f1 == *f2 && expr_eq(v1, v2),
        (Stmt::Expr(x), Stmt::Expr(y)) => expr_eq(x, y),
        (Stmt::Return(x), Stmt::Return(y)) => ret_eq(x, y),
        (Stmt::While(c1, b1), Stmt::While(c2, b2)) => expr_eq(c1, c2) && stmts_eq(b1, b2),
        (
            Stmt::For { var: v1, iterable: i1, body: b1 },
            Stmt::For { var: v2, iterable: i2, body: b2 },
        ) => *v1 == *v2 && expr_eq(i1, i2) && stmts_eq(b1, b2),
        (
            Stmt::If { cond: c1, then_block: t1, else_block: e1 },
            Stmt::If { cond: c2, then_block: t2, else_block: e2 },
        ) => expr_eq(c1, c2) && stmts_eq(t1, t2) && match (e1, e2) {
            (Some(x), Some(y)) => stmts_eq(x, y),
            (None, None) => true,
            _ => false,
        },
        (Stmt::Block(x), Stmt::Block(y)) => stmts_eq(x, y),
        (Stmt::Break, Stmt::Break) => true,
        (Stmt::Continue, Stmt::Continue) => true,
        (
            Stmt::FnDef { name: n1, params: p1, return_type: t1, body: b1 },
            Stmt::FnDef { name: n2, params: p2, return_type: t2, body: b2 },
        ) => *n1 == *n2 && params_eq(p1, p2) && text_eq(t1, t2) && stmts_eq(b1, b2),
        (Stmt::Print(x), Stmt::Print(y)) => expr_eq(x, y),
        (Stmt::PrintLn(x), Stmt::PrintLn(y)) => expr_eq(x, y),
        (Stmt::Exit(x), Stmt::Exit(y)) => expr_eq(x, y),
        (Stmt::TypeDef { name: n1, fields: f1 }, Stmt::TypeDef { name: n2, fields: f2 }) => *n1 == *n2
            && sfields_eq(f1, f2),
        (
            Stmt::ImplBlock { impl_type: n1, methods: m1 },
            Stmt::ImplBlock { impl_type: n2, methods: m2 },
        ) => *n1 == *n2 && stmts_eq(m1, m2),
        (Stmt::EnumDef { name: n1, variants: v1 }, Stmt::EnumDef { name: n2, variants: v2 }) => *n1
            == *n2 && variants_eq(v1, v2),
        _ => false,
    }
}

} // verus!
