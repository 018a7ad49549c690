//! Syntax tree pieces shared by the front and back ends.
use vstd::prelude::*;

verus! {

/// Binary operators.
#[derive(Debug, Clone, Copy, PartialEq, Eq, Structural)]
pub enum BinOp {
    /// `+`
    Add,
    /// `-`
    Sub,
    /// `*`
    Mul,
    /// `/`
    Div,
    /// `%`
    Mod,
    /// `==`
    Eq,
    /// `!=`
    Neq,
    /// `<`
    Lt,
    /// `>`
    Gt,
    /// `<=`
    Lte,
    /// `>=`
    Gte,
    /// `and`
    And,
    /// `or`
    Or,
    /// `++`
    Concat,
    /// `..`
    Range,
    /// `..=`
    RangeInclusive,
}

/// Unary operators.
#[derive(Debug, Clone, Copy, PartialEq, Eq, Structural)]
pub enum UnaryOp {
    /// `-`
    Neg,
    /// `!` or `not`
    Not,
}

/// A floating-point literal: its IEEE-754 bit pattern and the shortest text that
/// reads back as the same number (how it is printed).
#[derive(Debug, Clone, PartialEq)]
pub struct FloatLit {
    pub bits: u64,
    pub text: String,
}

/// An expression.
#[derive(Debug, PartialEq)]
pub enum Expr {
    Integer(i64),
    Float(FloatLit),
    String(String),
    Bool(bool),
    Char(char),
    Ident(String),
    Null,
    Binary(Box<Expr>, BinOp, Box<Expr>),
    Unary(UnaryOp, Box<Expr>),
    Call(String, Vec<Expr>),
    FieldAccess(Box<Expr>, String),
    /// Condition, value when true, value otherwise.
    If(Box<Expr>, Box<Expr>, Option<Box<Expr>>),
    /// A struct value: the struct's name and `(field, value)` pairs.
    StructLiteral { struct_name: String, fields: Vec<(String, Expr)> },
    Match { value: Box<Expr>, arms: Vec<MatchArm> },
    Lambda { params: Vec<Param>, return_type: Option<String>, body: Vec<Stmt> },
    /// A call in tail position, which the native back end turns into a jump.
    TailCall(String, Vec<Expr>),
}

/// A field of a struct definition, with its optional default value.
#[derive(Debug, PartialEq)]
pub struct StructField {
    pub name: String,
    pub type_ann: String,
    pub default: Option<Expr>,
}

/// A statement.
#[derive(Debug, PartialEq)]
pub enum Stmt {
    Let { name: String, type_ann: Option<String>, mutable: bool, value: Expr },
    Assign { name: String, value: Expr },
    FieldAssign { obj: String, field: String, value: Expr },
    Expr(Expr),
    Return(Option<Expr>),
    While(Expr, Vec<Stmt>),
    For { var: String, iterable: Expr, body: Vec<Stmt> },
    If { cond: Expr, then_block: Vec<Stmt>, else_block: Option<Vec<Stmt>> },
    Block(Vec<Stmt>),
    Break,
    Continue,
    FnDef { name: String, params: Vec<Param>, return_type: Option<String>, body: Vec<Stmt> },
    /// `io.print(..)`
    Print(Expr),
    /// `io.println(..)`
    PrintLn(Expr),
    /// `exit(code)`
    Exit(Expr),
    TypeDef { name: String, fields: Vec<StructField> },
    /// The methods (function definitions) of a type.
    ImplBlock { impl_type: String, methods: Vec<Stmt> },
    EnumDef { name: String, variants: Vec<EnumVariant> },
}

/// The pattern of a `match` arm.
#[derive(Debug, PartialEq)]
pub enum MatchPattern {
    /// `0`, `"hello"`, `true`
    Literal(Expr),
    /// A name: a catch-all binding, `_`, or a variant when capitalised.
    Variable(String),
    /// `1 | 2 | 3`
    Or(Vec<MatchPattern>),
}

/// An arm of a `match`.
#[derive(Debug, PartialEq)]
pub struct MatchArm {
    pub pattern: MatchPattern,
    pub guard: Option<Expr>,
    pub body: Vec<Stmt>,
    /// The name bound to a variant's payload, as in `Some(val)`.
    pub bind: Option<String>,
}

/// A whole program: its top-level statements.
#[derive(Debug, PartialEq)]
pub struct Program {
    pub statements: Vec<Stmt>,
}

/// A function parameter and its optional type annotation.
#[derive(Debug, Clone, PartialEq)]
pub struct Param {
    pub name: String,
    pub type_ann: Option<String>,
}

/// A variant of an enum definition; no fields means a unit variant.
#[derive(Debug, Clone, PartialEq)]
pub struct EnumVariant {
    pub name: String,
    pub fields: Vec<EnumField>,
}

/// A field of an enum variant; no name means a positional field.
#[derive(Debug, Clone, PartialEq)]
pub struct EnumField {
    pub name: Option<String>,
    pub type_ann: String,
}

} // verus!
