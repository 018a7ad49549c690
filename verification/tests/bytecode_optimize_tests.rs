use klc::bytecode::Value;
use std::cmp::Ordering;
use klc::ast::{BinOp, Expr, FloatLit, Program, Stmt, UnaryOp};
use klc::bytecode_optimize::{optimize_program, FloatOperand, FloatQuery, MathFn};

fn to_f64(o: FloatOperand) -> f64 {
    match o {
        FloatOperand::Int(n) => n as f64,
        FloatOperand::Float(b) => f64::from_bits(b),
    }
}

fn lit(v: f64) -> FloatLit {
    FloatLit { bits: v.to_bits(), text: format!("{}", v) }
}

fn fold(q: FloatQuery) -> FloatLit {
    let v = match q {
        FloatQuery::Arith(op, a, b) => {
            let (x, y) = (to_f64(a), to_f64(b));
            match op {
                BinOp::Add => x + y,
                BinOp::Sub => x - y,
                BinOp::Mul => x * y,
                _ => x / y,
            }
        }
        FloatQuery::Neg(b) => -f64::from_bits(b),
        FloatQuery::Math(m, a) => {
            let x = to_f64(a);
            match m {
                MathFn::Exp => x.exp(),
                MathFn::Tanh => x.tanh(),
                MathFn::Sin => x.sin(),
                MathFn::Cos => x.cos(),
                MathFn::Sqrt => x.sqrt(),
                MathFn::Ln => x.ln(),
                MathFn::Log2 => x.log2(),
                MathFn::Log10 => x.log10(),
                MathFn::Abs => x.abs(),
                MathFn::Floor => x.floor(),
                MathFn::Ceil => x.ceil(),
                MathFn::Round => x.round(),
            }
        }
    };
    lit(v)
}

fn bin(l: Expr, op: BinOp, r: Expr) -> Expr {
    Expr::Binary(Box::new(l), op, Box::new(r))
}

fn ident(name: &str) -> Expr {
    Expr::Ident(name.to_string())
}

fn float(v: f64) -> Expr {
    Expr::Float(lit(v))
}

fn call(name: &str, args: Vec<Expr>) -> Expr {
    Expr::Call(name.to_string(), args)
}

fn let_stmt(name: &str, value: Expr) -> Stmt {
    Stmt::Let { name: name.to_string(), type_ann: None, mutable: false, value }
}

/// Optimizes `let v = e` and gives back the optimized value.
fn opt_value(e: Expr) -> Expr {
    let mut p = Program { statements: vec![let_stmt("v", e)] };
    optimize_program(&mut p, &fold);
    match p.statements.pop() {
        Some(Stmt::Let { value, .. }) => value,
        other => panic!("unexpected statement: {:?}", other),
    }
}

#[test]
fn test_fold_integer_arithmetic() {
    assert_eq!(opt_value(bin(Expr::Integer(2), BinOp::Add, Expr::Integer(3))), Expr::Integer(5));
    assert_eq!(
        opt_value(bin(bin(Expr::Integer(2), BinOp::Mul, Expr::Integer(3)), BinOp::Sub, Expr::Integer(10))),
        Expr::Integer(-4)
    );
    assert_eq!(opt_value(bin(Expr::Integer(7), BinOp::Div, Expr::Integer(2))), Expr::Integer(3));
    assert_eq!(opt_value(bin(Expr::Integer(-7), BinOp::Mod, Expr::Integer(2))), Expr::Integer(-1));
    assert_eq!(opt_value(bin(Expr::Integer(3), BinOp::Lt, Expr::Integer(5))), Expr::Integer(1));
    assert_eq!(
        opt_value(bin(Expr::Integer(i64::MAX), BinOp::Add, Expr::Integer(1))),
        Expr::Integer(i64::MIN)
    );
}

#[test]
fn test_division_by_zero_is_kept() {
    assert_eq!(
        opt_value(bin(Expr::Integer(1), BinOp::Div, Expr::Integer(0))),
        bin(Expr::Integer(1), BinOp::Div, Expr::Integer(0))
    );
}

#[test]
fn test_fold_floats() {
    assert_eq!(opt_value(bin(float(1.5), BinOp::Add, float(2.25))), float(3.75));
    assert_eq!(opt_value(bin(Expr::Integer(1), BinOp::Div, float(4.0))), float(0.25));
    assert_eq!(opt_value(bin(float(1.0), BinOp::Lt, float(2.0))), float(1.0));
    assert_eq!(opt_value(bin(float(1.0), BinOp::Gt, float(2.0))), float(0.0));
    assert_eq!(opt_value(bin(float(-0.0), BinOp::Eq, float(0.0))), float(1.0));
    assert_eq!(opt_value(bin(float(f64::NAN), BinOp::Eq, float(f64::NAN))), float(0.0));
    assert_eq!(opt_value(Expr::Unary(UnaryOp::Neg, Box::new(float(2.5)))), float(-2.5));
}

#[test]
fn test_fold_strings_bools_unary() {
    assert_eq!(
        opt_value(bin(Expr::String("ab".to_string()), BinOp::Concat, Expr::String("cd".to_string()))),
        Expr::String("abcd".to_string())
    );
    assert_eq!(opt_value(bin(Expr::Bool(true), BinOp::And, Expr::Bool(false))), Expr::Bool(false));
    assert_eq!(opt_value(Expr::Unary(UnaryOp::Neg, Box::new(Expr::Integer(5)))), Expr::Integer(-5));
    assert_eq!(opt_value(Expr::Unary(UnaryOp::Not, Box::new(Expr::Bool(true)))), Expr::Bool(false));
    assert_eq!(opt_value(Expr::Unary(UnaryOp::Not, Box::new(Expr::Integer(0)))), Expr::Integer(1));
}

#[test]
fn test_algebraic_identities() {
    assert_eq!(opt_value(bin(ident("x"), BinOp::Add, Expr::Integer(0))), ident("x"));
    assert_eq!(opt_value(bin(Expr::Integer(0), BinOp::Add, ident("x"))), ident("x"));
    assert_eq!(opt_value(bin(ident("x"), BinOp::Mul, Expr::Integer(1))), ident("x"));
    assert_eq!(opt_value(bin(ident("x"), BinOp::Mul, Expr::Integer(0))), Expr::Integer(0));
    assert_eq!(opt_value(bin(ident("x"), BinOp::Div, Expr::Integer(1))), ident("x"));
    assert_eq!(opt_value(bin(ident("x"), BinOp::Eq, ident("x"))), Expr::Bool(true));
    assert_eq!(opt_value(bin(ident("x"), BinOp::Neq, ident("x"))), Expr::Bool(false));
    assert_eq!(opt_value(bin(ident("x"), BinOp::Gte, ident("x"))), Expr::Bool(true));
    // `x - x` on a variable is kept
    assert_eq!(opt_value(bin(ident("x"), BinOp::Sub, ident("x"))), bin(ident("x"), BinOp::Sub, ident("x")));
    // `false` counts as zero
    assert_eq!(opt_value(bin(ident("x"), BinOp::Add, Expr::Bool(false))), ident("x"));
}

#[test]
fn test_if_expression_with_constant_condition() {
    let e = Expr::If(
        Box::new(bin(Expr::Integer(1), BinOp::Lt, Expr::Integer(2))),
        Box::new(ident("a")),
        Some(Box::new(ident("b"))),
    );
    // 1 < 2 folds to the integer 1, which is no boolean: the `if` stays
    assert_eq!(
        opt_value(e),
        Expr::If(Box::new(Expr::Integer(1)), Box::new(ident("a")), Some(Box::new(ident("b"))))
    );
    let e = Expr::If(Box::new(Expr::Bool(false)), Box::new(ident("a")), None);
    assert_eq!(opt_value(e), Expr::Bool(false));
    let e = Expr::If(
        Box::new(bin(Expr::Bool(true), BinOp::Or, Expr::Bool(false))),
        Box::new(bin(Expr::Integer(1), BinOp::Add, Expr::Integer(2))),
        None,
    );
    // the chosen branch is taken as it stands
    assert_eq!(opt_value(e), bin(Expr::Integer(1), BinOp::Add, Expr::Integer(2)));
}

#[test]
fn test_dead_code_elimination() {
    let mut p = Program {
        statements: vec![
            Stmt::While(Expr::Bool(false), vec![Stmt::Break]),
            Stmt::If {
                cond: Expr::Bool(false),
                then_block: vec![Stmt::Print(Expr::Integer(1))],
                else_block: Some(vec![Stmt::Print(bin(Expr::Integer(1), BinOp::Add, Expr::Integer(1)))]),
            },
            Stmt::If { cond: Expr::Bool(true), then_block: vec![Stmt::Break], else_block: None },
            Stmt::If { cond: Expr::Bool(false), then_block: vec![Stmt::Break], else_block: None },
        ],
    };
    optimize_program(&mut p, &fold);
    assert_eq!(
        p.statements,
        vec![
            Stmt::Block(vec![]),
            Stmt::Block(vec![Stmt::Print(Expr::Integer(2))]),
            Stmt::Block(vec![Stmt::Break]),
            Stmt::Block(vec![]),
        ]
    );
}

#[test]
fn test_folding_inside_functions() {
    let mut p = Program {
        statements: vec![Stmt::FnDef {
            name: "f".to_string(),
            params: vec![],
            return_type: None,
            body: vec![Stmt::Return(Some(bin(Expr::Integer(6), BinOp::Mul, Expr::Integer(7))))],
        }],
    };
    optimize_program(&mut p, &fold);
    match &p.statements[0] {
        Stmt::FnDef { body, .. } => assert_eq!(body[0], Stmt::Return(Some(Expr::Integer(42)))),
        other => panic!("unexpected statement: {:?}", other),
    }
}

#[test]
fn test_math_calls_on_constants() {
    assert_eq!(opt_value(call("math.sqrt", vec![Expr::Integer(16)])), float(4.0));
    assert_eq!(opt_value(call("math::floor", vec![float(2.7)])), float(2.0));
    assert_eq!(opt_value(call("math.pi", vec![])), float(std::f64::consts::PI));
    assert_eq!(opt_value(call("math::e", vec![])), float(std::f64::consts::E));
    // ln 0 is infinite: the call stays
    assert_eq!(opt_value(call("math.log", vec![Expr::Integer(0)])), call("math.log", vec![Expr::Integer(0)]));
    // not a math function, or not a constant argument
    assert_eq!(opt_value(call("math.foo", vec![Expr::Integer(1)])), call("math.foo", vec![Expr::Integer(1)]));
    assert_eq!(opt_value(call("math.sin", vec![ident("x")])), call("math.sin", vec![ident("x")]));
    // arguments are treated in turn
    assert_eq!(
        opt_value(call("print", vec![call("math.abs", vec![Expr::Integer(-3)])])),
        call("print", vec![float(3.0)])
    );
    assert_eq!(float(std::f64::consts::PI), Expr::Float(FloatLit { bits: 0x400921FB54442D18, text: "3.141592653589793".to_string() }));
}

#[test]
fn test_value_ordering() {
    assert_eq!(Value::Integer(1).partial_cmp(&Value::Integer(2)), Some(Ordering::Less));
    assert_eq!(Value::Integer(2).partial_cmp(&Value::Integer(2)), Some(Ordering::Equal));
    assert_eq!(Value::Float(2.5f64.to_bits()).partial_cmp(&Value::Float(1.0f64.to_bits())), Some(Ordering::Greater));
    assert_eq!(Value::Float((-0.0f64).to_bits()).partial_cmp(&Value::Float(0.0f64.to_bits())), Some(Ordering::Equal));
    assert_eq!(Value::Float((-3.0f64).to_bits()).partial_cmp(&Value::Float((-2.0f64).to_bits())), Some(Ordering::Less));
    assert_eq!(Value::Float(f64::NAN.to_bits()).partial_cmp(&Value::Float(1.0f64.to_bits())), None);
    assert_eq!(
        Value::String("abc".to_string()).partial_cmp(&Value::String("abd".to_string())),
        Some(Ordering::Less)
    );
    assert_eq!(
        Value::String("ab".to_string()).partial_cmp(&Value::String("a".to_string())),
        Some(Ordering::Greater)
    );
    assert_eq!(Value::Bool(false).partial_cmp(&Value::Bool(true)), Some(Ordering::Less));
    assert_eq!(Value::Char('b').partial_cmp(&Value::Char('a')), Some(Ordering::Greater));
    assert_eq!(Value::Integer(1).partial_cmp(&Value::Float(1.0f64.to_bits())), None);
    assert_eq!(Value::Null.partial_cmp(&Value::Null), None);
}

#[test]
fn test_nested_integer_constants_fold_completely() {
    let e = Expr::Unary(
        UnaryOp::Not,
        Box::new(bin(bin(Expr::Integer(2), BinOp::Mul, Expr::Integer(3)), BinOp::Eq, Expr::Integer(6))),
    );
    assert_eq!(opt_value(e), Expr::Integer(0));
    let e = Expr::Unary(
        UnaryOp::Neg,
        Box::new(bin(Expr::Integer(2), BinOp::Mul, bin(Expr::Integer(3), BinOp::Add, Expr::Integer(4)))),
    );
    assert_eq!(opt_value(e), Expr::Integer(-14));
}
