use klc::ast::{BinOp, Expr, FloatLit, MatchArm, MatchPattern, Param, Program, Stmt};
use klc::bytecode::{Instruction, Value};
use klc::codegen::Codegen;

fn num(n: i64) -> Expr {
    Expr::Integer(n)
}

fn ident(s: &str) -> Expr {
    Expr::Ident(s.to_string())
}

fn bin(l: Expr, op: BinOp, r: Expr) -> Expr {
    Expr::Binary(Box::new(l), op, Box::new(r))
}

fn let_stmt(name: &str, value: Expr) -> Stmt {
    Stmt::Let { name: name.to_string(), type_ann: None, mutable: false, value }
}

fn compile(stmts: Vec<Stmt>) -> Result<klc::bytecode::BytecodeProgram, String> {
    Codegen::compile(&Program { statements: stmts })
}

#[test]
fn arithmetic_tree_compiles() {
    let p = compile(vec![let_stmt("x", bin(num(1), BinOp::Add, bin(num(2), BinOp::Mul, num(3))))]).unwrap();
    assert!(p.main.len() > 0);
    assert!(p.constants.len() > 0);
    assert_eq!(
        p.main,
        vec![
            Instruction::Const(0),
            Instruction::Const(1),
            Instruction::Const(2),
            Instruction::Mul,
            Instruction::Add,
            Instruction::InitVar("x".to_string()),
            Instruction::Halt,
        ]
    );
}

#[test]
fn constants_are_shared() {
    let p = compile(vec![
        Stmt::Expr(bin(num(7), BinOp::Add, num(7))),
        Stmt::Expr(Expr::Float(FloatLit { bits: 0, text: "0".to_string() })),
        Stmt::Expr(Expr::Float(FloatLit { bits: 0x8000_0000_0000_0000, text: "-0".to_string() })),
        Stmt::Expr(Expr::Float(FloatLit { bits: 0x7ff8_0000_0000_0000, text: "NaN".to_string() })),
        Stmt::Expr(Expr::Float(FloatLit { bits: 0x7ff8_0000_0000_0000, text: "NaN".to_string() })),
    ])
    .unwrap();
    assert_eq!(p.constants.len(), 4);
    assert!(matches!(p.constants[0], Value::Integer(7)));
    assert_eq!(&p.main[0..2], &[Instruction::Const(0), Instruction::Const(0)]);
    assert_eq!(p.main[4], Instruction::Const(1));
    assert_eq!(p.main[6], Instruction::Const(1));
    assert_eq!(p.main[8], Instruction::Const(2));
    assert_eq!(p.main[10], Instruction::Const(3));
}

#[test]
fn if_statement_tree_compiles() {
    let p = compile(vec![
        let_stmt("x", num(10)),
        Stmt::If {
            cond: bin(ident("x"), BinOp::Gt, num(5)),
            then_block: vec![Stmt::PrintLn(ident("x"))],
            else_block: Some(vec![Stmt::PrintLn(num(0))]),
        },
    ])
    .unwrap();
    assert!(p.main.len() > 0);
    assert_eq!(
        p.main,
        vec![
            Instruction::Const(0),
            Instruction::InitVar("x".to_string()),
            Instruction::Load("x".to_string()),
            Instruction::Const(1),
            Instruction::Gt,
            Instruction::JmpFalse(9),
            Instruction::Load("x".to_string()),
            Instruction::PrintLn,
            Instruction::Jmp(11),
            Instruction::Const(2),
            Instruction::PrintLn,
            Instruction::Halt,
        ]
    );
}

#[test]
fn function_tree_compiles() {
    let f = Stmt::FnDef {
        name: "add".to_string(),
        params: vec![
            Param { name: "a".to_string(), type_ann: Some("i32".to_string()) },
            Param { name: "b".to_string(), type_ann: Some("i32".to_string()) },
        ],
        return_type: Some("i32".to_string()),
        body: vec![Stmt::Return(Some(bin(ident("a"), BinOp::Add, ident("b"))))],
    };
    let p = compile(vec![f]).unwrap();
    assert_eq!(p.functions.len(), 1);
    assert_eq!(p.functions[0].name, "add");
    assert_eq!(p.functions[0].param_names, vec!["a".to_string(), "b".to_string()]);
    assert_eq!(
        p.functions[0].instructions,
        vec![
            Instruction::Load("a".to_string()),
            Instruction::Load("b".to_string()),
            Instruction::Add,
            Instruction::Return,
        ]
    );
    assert_eq!(p.main, vec![Instruction::Halt]);
}

#[test]
fn main_is_called_and_methods_are_registered() {
    let main_fn = Stmt::FnDef { name: "main".to_string(), params: vec![], return_type: None, body: vec![] };
    let method = Stmt::FnDef { name: "get".to_string(), params: vec![], return_type: None, body: vec![Stmt::Break] };
    let imp = Stmt::ImplBlock { impl_type: "P".to_string(), methods: vec![method] };
    let p = compile(vec![main_fn, imp]).unwrap();
    let names: Vec<&str> = p.functions.iter().map(|f| f.name.as_str()).collect();
    assert_eq!(names, vec!["main", "get", "P::get", "P.get"]);
    assert_eq!(p.functions[0].instructions, vec![Instruction::Return]);
    assert_eq!(
        p.main,
        vec![Instruction::Call("main".to_string(), 0), Instruction::Pop, Instruction::Halt]
    );
}

#[test]
fn while_loop_and_lambda() {
    let w = Stmt::While(ident("go"), vec![Stmt::Assign { name: "go".to_string(), value: Expr::Bool(false) }]);
    let lam = Expr::Lambda { params: vec![], return_type: None, body: vec![Stmt::Return(Some(num(1)))] };
    let p = compile(vec![w, let_stmt("f", lam)]).unwrap();
    assert_eq!(
        p.main,
        vec![
            Instruction::Load("go".to_string()),
            Instruction::JmpFalse(5),
            Instruction::Const(0),
            Instruction::Store("go".to_string()),
            Instruction::Jmp(0),
            Instruction::Const(2),
            Instruction::RegFn("f".to_string(), "__lambda_0".to_string()),
            Instruction::InitVar("f".to_string()),
            Instruction::Halt,
        ]
    );
    assert_eq!(p.functions.len(), 1);
    assert_eq!(p.functions[0].name, "__lambda_0");
    assert_eq!(p.functions[0].instructions, vec![Instruction::Const(1), Instruction::Return]);
    assert!(matches!(&p.constants[2], Value::Function(n) if n == "__lambda_0"));
}

#[test]
fn match_tree_compiles() {
    let m = Expr::Match {
        value: Box::new(ident("n")),
        arms: vec![
            MatchArm {
                pattern: MatchPattern::Literal(num(1)),
                guard: None,
                body: vec![Stmt::Expr(num(10))],
                bind: None,
            },
            MatchArm {
                pattern: MatchPattern::Variable("_".to_string()),
                guard: None,
                body: vec![Stmt::Expr(num(20))],
                bind: None,
            },
        ],
    };
    let p = compile(vec![let_stmt("r", m)]).unwrap();
    assert_eq!(
        p.main,
        vec![
            Instruction::Load("n".to_string()),
            Instruction::InitVar("__match_0".to_string()),
            Instruction::Load("__match_0".to_string()),
            Instruction::Const(0),
            Instruction::Eq,
            Instruction::JmpFalse(8),
            Instruction::Const(1),
            Instruction::Jmp(13),
            Instruction::Const(2),
            Instruction::JmpFalse(12),
            Instruction::Const(3),
            Instruction::Jmp(13),
            Instruction::Const(4),
            Instruction::InitVar("r".to_string()),
            Instruction::Halt,
        ]
    );
}

#[test]
fn or_pattern_with_a_name_is_refused() {
    let m = Expr::Match {
        value: Box::new(ident("n")),
        arms: vec![MatchArm {
            pattern: MatchPattern::Or(vec![MatchPattern::Literal(num(1)), MatchPattern::Variable("k".to_string())]),
            guard: None,
            body: vec![],
            bind: None,
        }],
    };
    let r = compile(vec![Stmt::Expr(m)]);
    assert_eq!(r.err(), Some("| 模式中仅支持字面量模式".to_string()));
}

#[test]
fn range_operands_are_not_compiled() {
    let p = compile(vec![Stmt::Expr(bin(num(1), BinOp::Range, num(5)))]).unwrap();
    assert!(matches!(p.constants[0], Value::Null));
    assert_eq!(p.main, vec![Instruction::Const(0), Instruction::Pop, Instruction::Halt]);
}

#[test]
fn test_simple_arithmetic() {
    // let x = 1 + 2 * 3
    let result = compile(vec![let_stmt("x", bin(num(1), BinOp::Add, bin(num(2), BinOp::Mul, num(3))))]).unwrap();
    assert!(result.main.len() > 0);
    assert!(result.constants.len() > 0);
}

#[test]
fn test_if_statement() {
    // let x = 10
    // if x > 5 { io.println(x) }
    let result = compile(vec![
        let_stmt("x", num(10)),
        Stmt::If {
            cond: bin(ident("x"), BinOp::Gt, num(5)),
            then_block: vec![Stmt::PrintLn(ident("x"))],
            else_block: None,
        },
    ])
    .unwrap();
    assert!(result.main.len() > 0);
}

#[test]
fn test_function() {
    // fn add(a: i32, b: i32) -> i32 { return a + b }
    let f = Stmt::FnDef {
        name: "add".to_string(),
        params: vec![
            Param { name: "a".to_string(), type_ann: Some("i32".to_string()) },
            Param { name: "b".to_string(), type_ann: Some("i32".to_string()) },
        ],
        return_type: Some("i32".to_string()),
        body: vec![Stmt::Return(Some(bin(ident("a"), BinOp::Add, ident("b"))))],
    };
    let result = compile(vec![f]).unwrap();
    assert_eq!(result.functions.len(), 1);
    assert_eq!(result.functions[0].name, "add");
}
