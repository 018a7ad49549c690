//! The bytecode instruction set and compiled functions.
use vstd::prelude::*;
use std::cmp::Ordering;
use crate::bytecode_optimize::{float_bits_lt, float_less};
use crate::text::chars_of;

verus! {

/// One bytecode instruction of the stack machine.
#[derive(Debug, Clone, PartialEq)]
pub enum Instruction {
    Const(usize),
    Pop,
    Load(String),
    Store(String),
    InitVar(String),
    Add,
    Sub,
    Mul,
    Div,
    Mod,
    Neg,
    Eq,
    Neq,
    Lt,
    Gt,
    Lte,
    Gte,
    And,
    Or,
    Not,
    Concat,
    ToString,
    StructNew(String, usize),
    StructGet(String),
    StructSet(String),
    Jmp(usize),
    JmpFalse(usize),
    Call(String, usize),
    Return,
    Halt,
    Print,
    PrintLn,
    ReadLine,
    RegFn(String, String),
    IsVariant(String),
    EnumGet(usize),
    /// Builds an enum value: type, variant, number of fields taken from the stack.
    EnumNew(String, String, usize),
    /// Substring: the stack holds string, start, end.
    SubStr,
    /// Substring search: the stack holds haystack, needle; pushes the index or -1.
    StrFind,
    /// String repetition: the stack holds string, count.
    StrRepeat,
    /// Dispatches a call (function, argument count) to the task pool.
    Spawn(String, usize),
    /// Waits for all dispatched tasks.
    WaitAll,
    /// Placeholder left by optimisation; does nothing.
    Nop,
}


/// A constant of a bytecode program. Floating-point numbers are held by their IEEE-754
/// bit pattern; aggregates (structs, arrays, enum values, maps) exist only while a
/// program runs and are not constants.
#[derive(Debug, Clone)]
pub enum Value {
    Integer(i64),
    Float(u64),
    String(String),
    Bool(bool),
    Char(char),
    Null,
    /// A function known by name (a function literal).
    Function(String),
}

/// A constant with its text taken by its view.
pub ghost enum ValueView {
    Integer(int),
    Float(u64),
    String(Seq<char>),
    Bool(bool),
    Char(char),
    Null,
    Function(Seq<char>),
}

impl View for Value {
    type V = ValueView;

    open spec fn view(&self) -> ValueView {
        match self {
            Value::Integer(n) => ValueView::Integer(*n as int),
            Value::Float(b) => ValueView::Float(*b),
            Value::String(s) => ValueView::String(s@),
            Value::Bool(b) => ValueView::Bool(*b),
            Value::Char(c) => ValueView::Char(*c),
            Value::Null => ValueView::Null,
            Value::Function(s) => ValueView::Function(s@),
        }
    }
}

/// Whether the bit pattern `x` is a NaN: all exponent bits set and a nonzero fraction.
pub open spec fn is_nan_bits(x: u64) -> bool {
    (x / 0x10_0000_0000_0000) % 0x800 == 0x7ff && x % 0x10_0000_0000_0000 != 0
}

/// Whether two bit patterns are equal as IEEE-754 numbers: never when one is a NaN,
/// always for the two zeros, otherwise when the bits agree.
pub open spec fn float_bits_eq(a: u64, b: u64) -> bool {
    if is_nan_bits(a) || is_nan_bits(b) {
        false
    } else if a % 0x8000_0000_0000_0000 == 0 && b % 0x8000_0000_0000_0000 == 0 {
        true
    } else {
        a == b
    }
}

/// Whether two constants compare equal: numbers, strings, booleans and characters by
/// value (floats as IEEE-754 numbers), null to null; functions never.
pub open spec fn same_value(a: ValueView, b: ValueView) -> bool {
    match (a, b) {
        (ValueView::Integer(x), ValueView::Integer(y)) => x == y,
        (ValueView::Float(x), ValueView::Float(y)) => float_bits_eq(x, y),
        (ValueView::String(x), ValueView::String(y)) => x == y,
        (ValueView::Bool(x), ValueView::Bool(y)) => x == y,
        (ValueView::Char(x), ValueView::Char(y)) => x == y,
        (ValueView::Null, ValueView::Null) => true,
        _ => false,
    }
}

/// Whether two bit patterns are equal as IEEE-754 numbers.
pub fn float_bits_equal(x: u64, y: u64) -> (r: bool)
    ensures
        r == float_bits_eq(x, y),
{
    let nan_x = (x / 0x10_0000_0000_0000) % 0x800 == 0x7ff && x % 0x10_0000_0000_0000 != 0;
    let nan_y = (y / 0x10_0000_0000_0000) % 0x800 == 0x7ff && y % 0x10_0000_0000_0000 != 0;
    if nan_x || nan_y {
        false
    } else if x % 0x8000_0000_0000_0000 == 0 && y % 0x8000_0000_0000_0000 == 0 {
        true
    } else {
        x == y
    }
}

/// Whether two constants compare equal (see `same_value`).
pub fn values_equal(a: &Value, b: &Value) -> (r: bool)
    ensures
        r == same_value(a@, b@),
{
    match (a, b) {
        (Value::Integer(x), Value::Integer(y)) => *x == *y,
        (Value::Float(x), Value::Float(y)) => float_bits_equal(*x, *y),
        (Value::String(x), Value::String(y)) => *x == *y,
        (Value::Bool(x), Value::Bool(y)) => *x == *y,
        (Value::Char(x), Value::Char(y)) => *x == *y,
        (Value::Null, Value::Null) => true,
        _ => false,
    }
}

/// How two texts are ordered: character by character, a proper prefix first.
pub open spec fn text_order(a: Seq<char>, b: Seq<char>) -> Ordering
    decreases a.len(),
{
    if a.len() == 0 {
        if b.len() == 0 {
            Ordering::Equal
        } else {
            Ordering::Less
        }
    } else if b.len() == 0 {
        Ordering::Greater
    } else if a[0] < b[0] {
        Ordering::Less
    } else if b[0] < a[0] {
        Ordering::Greater
    } else {
        text_order(a.skip(1), b.skip(1))
    }
}

/// How two constants are ordered: integers, floats (none when one is a NaN), texts,
/// booleans (`false` first) and characters among their kind; no order across kinds or
/// for null and functions.
pub open spec fn value_order(a: ValueView, b: ValueView) -> Option<Ordering> {
    match (a, b) {
        (ValueView::Integer(x), ValueView::Integer(y)) => Some(
            if x < y {
                Ordering::Less
            } else if x == y {
                Ordering::Equal
            } else {
                Ordering::Greater
            },
        ),
        (ValueView::Float(x), ValueView::Float(y)) => if is_nan_bits(x) || is_nan_bits(y) {
            None
        } else if float_bits_eq(x, y) {
            Some(Ordering::Equal)
        } else if float_bits_lt(x, y) {
            Some(Ordering::Less)
        } else {
            Some(Ordering::Greater)
        },
        (ValueView::String(x), ValueView::String(y)) => Some(text_order(x, y)),
        (ValueView::Bool(x), ValueView::Bool(y)) => Some(
            if x == y {
                Ordering::Equal
            } else if !x {
                Ordering::Less
            } else {
                Ordering::Greater
            },
        ),
        (ValueView::Char(x), ValueView::Char(y)) => Some(
            if x < y {
                Ordering::Less
            } else if x == y {
                Ordering::Equal
            } else {
                Ordering::Greater
            },
        ),
        _ => None,
    }
}

/// How two texts are ordered.
fn order_texts(a: &String, b: &String) -> (r: Ordering)
    ensures
        r == text_order(a@, b@),
{
    let x = chars_of(a.as_str());
    let y = chars_of(b.as_str());
    let mut i: usize = 0;
    let ghost mut k: int = 0;
    assert(a@.skip(0) =~= a@ && b@.skip(0) =~= b@);
    while i < x.len() && i < y.len()
        invariant
            x@ == a@,
            y@ == b@,
            k == i,
            i <= x@.len(),
            i <= y@.len(),
            text_order(a@, b@) == text_order(a@.skip(k), b@.skip(k)),
        decreases x@.len() - i,
    {
        let ghost sa = a@.skip(k);
        let ghost sb = b@.skip(k);
        assert(sa[0] == x@[k] && sb[0] == y@[k]);
        if x[i] < y[i] {
            return Ordering::Less;
        }
        if y[i] < x[i] {
            return Ordering::Greater;
        }
        assert(sa.skip(1) =~= a@.skip(k + 1));
        assert(sb.skip(1) =~= b@.skip(k + 1));
        i = i + 1;
        proof {
            k = k + 1;
        }
    }
    if i < x.len() {
        Ordering::Greater
    } else if i < y.len() {
        Ordering::Less
    } else {
        Ordering::Equal
    }
}

impl Value {
    /// How this constant is ordered against another (see `value_order`).
    pub fn partial_cmp(&self, other: &Value) -> (r: Option<Ordering>)
        ensures
            r == value_order(self@, other@),
    {
        match (self, other) {
            (Value::Integer(a), Value::Integer(b)) => Some(
                if *a < *b {
                    Ordering::Less
                } else if *a == *b {
                    Ordering::Equal
                } else {
                    Ordering::Greater
                },
            ),
            (Value::Float(a), Value::Float(b)) => {
                let nan_a = (*a / 0x10_0000_0000_0000) % 0x800 == 0x7ff && *a % 0x10_0000_0000_0000 != 0;
                let nan_b = (*b / 0x10_0000_0000_0000) % 0x800 == 0x7ff && *b % 0x10_0000_0000_0000 != 0;
                if nan_a || nan_b {
                    None
                } else if float_bits_equal(*a, *b) {
                    Some(Ordering::Equal)
                } else if float_less(*a, *b) {
                    Some(Ordering::Less)
                } else {
                    Some(Ordering::Greater)
                }
            },
            (Value::String(a), Value::String(b)) => Some(order_texts(a, b)),
            (Value::Bool(a), Value::Bool(b)) => Some(
                if *a == *b {
                    Ordering::Equal
                } else if !*a {
                    Ordering::Less
                } else {
                    Ordering::Greater
                },
            ),
            (Value::Char(a), Value::Char(b)) => Some(
                if *a < *b {
                    Ordering::Less
                } else if *a == *b {
                    Ordering::Equal
                } else {
                    Ordering::Greater
                },
            ),
            _ => None,
        }
    }
}

/// An instruction with its names taken by their views.
pub ghost enum InstrView {
    Const(nat),
    Pop,
    Load(Seq<char>),
    Store(Seq<char>),
    InitVar(Seq<char>),
    Add,
    Sub,
    Mul,
    Div,
    Mod,
    Neg,
    Eq,
    Neq,
    Lt,
    Gt,
    Lte,
    Gte,
    And,
    Or,
    Not,
    Concat,
    ToString,
    StructNew(Seq<char>, nat),
    StructGet(Seq<char>),
    StructSet(Seq<char>),
    Jmp(nat),
    JmpFalse(nat),
    Call(Seq<char>, nat),
    Return,
    Halt,
    Print,
    PrintLn,
    ReadLine,
    RegFn(Seq<char>, Seq<char>),
    IsVariant(Seq<char>),
    EnumGet(nat),
    EnumNew(Seq<char>, Seq<char>, nat),
    SubStr,
    StrFind,
    StrRepeat,
    Spawn(Seq<char>, nat),
    WaitAll,
    Nop,
}

impl View for Instruction {
    type V = InstrView;

    open spec fn view(&self) -> InstrView {
        match self {
            Instruction::Const(a0) => InstrView::Const(*a0 as nat),
            Instruction::Pop => InstrView::Pop,
            Instruction::Load(a0) => InstrView::Load(a0@),
            Instruction::Store(a0) => InstrView::Store(a0@),
            Instruction::InitVar(a0) => InstrView::InitVar(a0@),
            Instruction::Add => InstrView::Add,
            Instruction::Sub => InstrView::Sub,
            Instruction::Mul => InstrView::Mul,
            Instruction::Div => InstrView::Div,
            Instruction::Mod => InstrView::Mod,
            Instruction::Neg => InstrView::Neg,
            Instruction::Eq => InstrView::Eq,
            Instruction::Neq => InstrView::Neq,
            Instruction::Lt => InstrView::Lt,
            Instruction::Gt => InstrView::Gt,
            Instruction::Lte => InstrView::Lte,
            Instruction::Gte => InstrView::Gte,
            Instruction::And => InstrView::And,
            Instruction::Or => InstrView::Or,
            Instruction::Not => InstrView::Not,
            Instruction::Concat => InstrView::Concat,
            Instruction::ToString => InstrView::ToString,
            Instruction::StructNew(a0, a1) => InstrView::StructNew(a0@, *a1 as nat),
            Instruction::StructGet(a0) => InstrView::StructGet(a0@),
            Instruction::StructSet(a0) => InstrView::StructSet(a0@),
            Instruction::Jmp(a0) => InstrView::Jmp(*a0 as nat),
            Instruction::JmpFalse(a0) => InstrView::JmpFalse(*a0 as nat),
            Instruction::Call(a0, a1) => InstrView::Call(a0@, *a1 as nat),
            Instruction::Return => InstrView::Return,
            Instruction::Halt => InstrView::Halt,
            Instruction::Print => InstrView::Print,
            Instruction::PrintLn => InstrView::PrintLn,
            Instruction::ReadLine => InstrView::ReadLine,
            Instruction::RegFn(a0, a1) => InstrView::RegFn(a0@, a1@),
            Instruction::IsVariant(a0) => InstrView::IsVariant(a0@),
            Instruction::EnumGet(a0) => InstrView::EnumGet(*a0 as nat),
            Instruction::EnumNew(a0, a1, a2) => InstrView::EnumNew(a0@, a1@, *a2 as nat),
            Instruction::SubStr => InstrView::SubStr,
            Instruction::StrFind => InstrView::StrFind,
            Instruction::StrRepeat => InstrView::StrRepeat,
            Instruction::Spawn(a0, a1) => InstrView::Spawn(a0@, *a1 as nat),
            Instruction::WaitAll => InstrView::WaitAll,
            Instruction::Nop => InstrView::Nop,
        }
    }
}

/// A function compiled to bytecode.
#[derive(Debug, Clone)]
pub struct CompiledFunction {
    pub name: String,
    pub instructions: Vec<Instruction>,
    pub param_count: usize,
    pub param_names: Vec<String>,
}

/// A compiled function seen as values.
pub ghost struct FunctionView {
    pub name: Seq<char>,
    pub instructions: Seq<InstrView>,
    pub param_count: nat,
    pub param_names: Seq<Seq<char>>,
}

/// The views of a sequence of instructions.
pub open spec fn instrs_view(v: Seq<Instruction>) -> Seq<InstrView> {
    v.map_values(|x: Instruction| x@)
}

/// The views of a sequence of strings.
pub open spec fn strings_view(v: Seq<String>) -> Seq<Seq<char>> {
    v.map_values(|x: String| x@)
}

/// The views of a sequence of constants.
pub open spec fn values_view(v: Seq<Value>) -> Seq<ValueView> {
    v.map_values(|x: Value| x@)
}

impl View for CompiledFunction {
    type V = FunctionView;

    open spec fn view(&self) -> FunctionView {
        FunctionView {
            name: self.name@,
            instructions: instrs_view(self.instructions@),
            param_count: self.param_count as nat,
            param_names: strings_view(self.param_names@),
        }
    }
}

/// The views of a sequence of compiled functions.
pub open spec fn functions_view(v: Seq<CompiledFunction>) -> Seq<FunctionView> {
    v.map_values(|x: CompiledFunction| x@)
}

/// A compiled program: the main code, the functions and the constant pool.
#[derive(Debug)]
pub struct BytecodeProgram {
    pub main: Vec<Instruction>,
    pub functions: Vec<CompiledFunction>,
    pub constants: Vec<Value>,
}

/// A compiled program seen as values.
pub ghost struct ProgramView {
    pub main: Seq<InstrView>,
    pub functions: Seq<FunctionView>,
    pub constants: Seq<ValueView>,
}

impl View for BytecodeProgram {
    type V = ProgramView;

    open spec fn view(&self) -> ProgramView {
        ProgramView {
            main: instrs_view(self.main@),
            functions: functions_view(self.functions@),
            constants: values_view(self.constants@),
        }
    }
}

} // verus!
