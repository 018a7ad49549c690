use klc::ast::{BinOp, EnumField, EnumVariant, Expr, FloatLit, MatchArm, MatchPattern, Param, Program, Stmt, StructField, UnaryOp};
use klc::formatter::{binop_str, escape_string, is_right_associative, needs_parens, precedence, FormatConfig, Formatter};

fn num(n: i64) -> Expr {
    Expr::Integer(n)
}

fn ident(s: &str) -> Expr {
    Expr::Ident(s.to_string())
}

fn bin(l: Expr, op: BinOp, r: Expr) -> Expr {
    Expr::Binary(Box::new(l), op, Box::new(r))
}

fn fmt_with(config: &FormatConfig, stmts: Vec<Stmt>) -> String {
    let mut f = Formatter::new(config);
    f.format_program(&Program { statements: stmts });
    f.output()
}

fn fmt(stmts: Vec<Stmt>) -> String {
    fmt_with(&FormatConfig::default(), stmts)
}

fn let_stmt(name: &str, mutable: bool, value: Expr) -> Stmt {
    Stmt::Let { name: name.to_string(), type_ann: None, mutable, value }
}

#[test]
fn let_statement_tree() {
    assert_eq!(fmt(vec![let_stmt("x", false, num(42))]), "let x = 42\n");
    assert_eq!(fmt(vec![let_stmt("y", true, num(10))]), "let mut y = 10\n");
    assert_eq!(fmt(vec![let_stmt("n", false, num(-7))]), "let n = -7\n");
    assert_eq!(fmt(vec![let_stmt("m", false, num(i64::MIN))]), "let m = -9223372036854775808\n");
}

#[test]
fn arithmetic_tree() {
    let e = bin(num(1), BinOp::Add, bin(num(2), BinOp::Mul, num(3)));
    assert_eq!(fmt(vec![let_stmt("z", false, e)]), "let z = 1 + 2 * 3\n");
    let e = bin(bin(num(1), BinOp::Add, num(2)), BinOp::Mul, num(3));
    assert_eq!(fmt(vec![let_stmt("w", false, e)]), "let w = (1 + 2) * 3\n");
    let e = bin(num(1), BinOp::Range, bin(num(2), BinOp::Range, num(3)));
    assert_eq!(fmt(vec![Stmt::Expr(e)]), "1..(2..3)\n");
}

#[test]
fn fn_def_tree() {
    let f = Stmt::FnDef {
        name: "add".to_string(),
        params: vec![
            Param { name: "a".to_string(), type_ann: Some("i32".to_string()) },
            Param { name: "b".to_string(), type_ann: Some("i32".to_string()) },
        ],
        return_type: Some("i32".to_string()),
        body: vec![Stmt::Return(Some(bin(ident("a"), BinOp::Add, ident("b"))))],
    };
    let out = fmt(vec![f]);
    assert!(out.contains("fn add(a: i32, b: i32) -> i32"));
    assert!(out.contains("return a + b"));
    assert_eq!(out, "fn add(a: i32, b: i32) -> i32\n{\n    return a + b\n\n}\n");
}

#[test]
fn fn_def_same_line_braces() {
    let mut config = FormatConfig::default();
    config.fn_brace_newline = false;
    config.space_after_comma = false;
    let f = Stmt::FnDef {
        name: "id".to_string(),
        params: vec![
            Param { name: "x".to_string(), type_ann: None },
            Param { name: "y".to_string(), type_ann: None },
        ],
        return_type: None,
        body: vec![Stmt::Return(Some(ident("x")))],
    };
    assert_eq!(fmt_with(&config, vec![f]), "fn id(x,y) {\n    return x\n}\n");
}

#[test]
fn if_else_tree() {
    let s = Stmt::If {
        cond: bin(ident("x"), BinOp::Gt, num(5)),
        then_block: vec![Stmt::PrintLn(ident("x"))],
        else_block: Some(vec![Stmt::PrintLn(num(0))]),
    };
    let out = fmt(vec![s]);
    assert!(out.contains("if x > 5"));
    assert!(out.contains("else"));
    assert_eq!(out, "if x > 5\n{\n    io.println(x)\n\n} else\n{\n    io.println(0)\n\n}\n");
}

#[test]
fn else_if_chain_tree() {
    let inner = Stmt::If { cond: ident("b"), then_block: vec![Stmt::Break], else_block: None };
    let s = Stmt::If { cond: ident("a"), then_block: vec![Stmt::Continue], else_block: Some(vec![inner]) };
    assert_eq!(
        fmt(vec![s]),
        "if a\n{\n    continue\n\n} else if b\n{\n    break\n\n}\n"
    );
}

#[test]
fn string_escape_tree() {
    let s = let_stmt("s", false, Expr::String("hello\nworld".to_string()));
    assert_eq!(fmt(vec![s]), "let s = \"hello\\nworld\"\n");
    assert_eq!(escape_string("a\t\"b\\\r"), "a\\t\\\"b\\\\\\r");
}

#[test]
fn declarations_are_set_apart() {
    let t = Stmt::TypeDef {
        name: "P".to_string(),
        fields: vec![
            StructField { name: "x".to_string(), type_ann: "i32".to_string(), default: Some(num(0)) },
            StructField { name: "y".to_string(), type_ann: "i32".to_string(), default: None },
        ],
    };
    let e = Stmt::EnumDef {
        name: "E".to_string(),
        variants: vec![
            EnumVariant { name: "A".to_string(), fields: vec![] },
            EnumVariant {
                name: "B".to_string(),
                fields: vec![EnumField { name: None, type_ann: "i32".to_string() }],
            },
        ],
    };
    let out = fmt(vec![let_stmt("a", false, num(1)), t, e]);
    assert_eq!(
        out,
        "let a = 1\n\ntype P \n{\n    x: i32 = 0,\n    y: i32\n}\n\nenum E \n{\n    A,\n    B(i32)\n}\n"
    );
}

#[test]
fn expressions_tree() {
    let call = Expr::Call("f".to_string(), vec![num(1), Expr::Bool(true), Expr::Null]);
    assert_eq!(fmt(vec![Stmt::Expr(call)]), "f(1, true, null)\n");
    let tail = Expr::TailCall("g".to_string(), vec![num(1), num(2)]);
    assert_eq!(fmt(vec![Stmt::Expr(tail)]), "g(1, 2)\n");
    let neg = Expr::Unary(UnaryOp::Neg, Box::new(bin(num(1), BinOp::Sub, num(2))));
    assert_eq!(fmt(vec![Stmt::Expr(neg)]), "-(1 - 2)\n");
    let not = Expr::Unary(UnaryOp::Not, Box::new(ident("ok")));
    assert_eq!(fmt(vec![Stmt::Expr(not)]), "not ok\n");
    let field = Expr::FieldAccess(Box::new(ident("p")), "x".to_string());
    assert_eq!(fmt(vec![Stmt::Expr(field)]), "p.x\n");
    let cond = Expr::If(Box::new(ident("c")), Box::new(num(1)), Some(Box::new(num(2))));
    assert_eq!(fmt(vec![Stmt::Expr(cond)]), "if c { 1 } else { 2 }\n");
    let lit = Expr::StructLiteral {
        struct_name: "P".to_string(),
        fields: vec![("x".to_string(), ident("x")), ("y".to_string(), num(2))],
    };
    assert_eq!(fmt(vec![Stmt::Expr(lit)]), "P { x, y: 2 }\n");
    let empty = Expr::StructLiteral { struct_name: "Q".to_string(), fields: vec![] };
    assert_eq!(fmt(vec![Stmt::Expr(empty)]), "Q {}\n");
    let chars = Expr::Call("h".to_string(), vec![Expr::Char('\''), Expr::Char('\n'), Expr::Char('z')]);
    assert_eq!(fmt(vec![Stmt::Expr(chars)]), "h('\\'', '\\n', 'z')\n");
    let float = Expr::Float(FloatLit { bits: 0x3ff8_0000_0000_0000, text: "1.5".to_string() });
    assert_eq!(fmt(vec![Stmt::Expr(float)]), "1.5\n");
}

#[test]
fn match_and_lambda_tree() {
    let m = Expr::Match {
        value: Box::new(ident("n")),
        arms: vec![
            MatchArm {
                pattern: MatchPattern::Or(vec![MatchPattern::Literal(num(1)), MatchPattern::Literal(num(2))]),
                guard: None,
                body: vec![Stmt::Expr(Expr::String("small".to_string()))],
                bind: None,
            },
            MatchArm {
                pattern: MatchPattern::Variable("k".to_string()),
                guard: Some(bin(ident("k"), BinOp::Gt, num(9))),
                body: vec![Stmt::Break],
                bind: None,
            },
        ],
    };
    assert_eq!(
        fmt(vec![let_stmt("s", false, m)]),
        "let s = match n {\n    1 | 2 => \"small\",\n    k if k > 9 => 0\n}\n"
    );
    let lam = Expr::Lambda {
        params: vec![Param { name: "v".to_string(), type_ann: None }],
        return_type: Some("i32".to_string()),
        body: vec![Stmt::Return(Some(ident("v")))],
    };
    assert_eq!(fmt(vec![let_stmt("f", false, lam)]), "let f = fn(v) -> i32 {\nreturn v\n\n}\n");
}

#[test]
fn loops_and_blocks_tree() {
    let w = Stmt::While(ident("go"), vec![Stmt::Assign { name: "i".to_string(), value: num(1) }]);
    let f = Stmt::For {
        var: "i".to_string(),
        iterable: bin(num(0), BinOp::Range, num(3)),
        body: vec![Stmt::FieldAssign { obj: "p".to_string(), field: "x".to_string(), value: ident("i") }],
    };
    let out = fmt(vec![w, f, Stmt::Exit(num(0))]);
    assert_eq!(
        out,
        "while go\n{\n    i = 1\n\n}\nfor i in 0..3\n{\n    p.x = i\n\n}\nexit(0)\n"
    );
    assert_eq!(fmt(vec![]), "\n");
}

#[test]
fn operator_helpers() {
    assert_eq!(binop_str(&BinOp::Concat), " ++ ");
    assert_eq!(binop_str(&BinOp::RangeInclusive), "..=");
    assert_eq!(precedence(&BinOp::Or), 1);
    assert_eq!(precedence(&BinOp::Mod), 7);
    assert!(is_right_associative(&BinOp::Range));
    assert!(!is_right_associative(&BinOp::Add));
    assert!(needs_parens(&bin(num(1), BinOp::Add, num(2)), &BinOp::Mul, true));
    assert!(!needs_parens(&num(1), &BinOp::Mul, true));
}

// The tests below format the trees that the sources in their comments parse to.

#[test]
fn test_let_statement() {
    // let x=42 / let mut y=10
    assert_eq!(fmt(vec![let_stmt("x", false, num(42))]), "let x = 42\n");
    assert_eq!(fmt(vec![let_stmt("y", true, num(10))]), "let mut y = 10\n");
}

#[test]
fn test_arithmetic() {
    // let z=1+2*3
    let e = bin(num(1), BinOp::Add, bin(num(2), BinOp::Mul, num(3)));
    assert_eq!(fmt(vec![let_stmt("z", false, e)]), "let z = 1 + 2 * 3\n");
}

#[test]
fn test_fn_def() {
    // fn add(a:i32,b:i32)->i32{return a+b}
    let f = Stmt::FnDef {
        name: "add".to_string(),
        params: vec![
            Param { name: "a".to_string(), type_ann: Some("i32".to_string()) },
            Param { name: "b".to_string(), type_ann: Some("i32".to_string()) },
        ],
        return_type: Some("i32".to_string()),
        body: vec![Stmt::Return(Some(bin(ident("a"), BinOp::Add, ident("b"))))],
    };
    let result = fmt(vec![f]);
    assert!(result.contains("fn add(a: i32, b: i32) -> i32"));
    assert!(result.contains("return a + b"));
}

#[test]
fn test_if_else() {
    // if x>5{io.println(x)}else{io.println(0)}
    let s = Stmt::If {
        cond: bin(ident("x"), BinOp::Gt, num(5)),
        then_block: vec![Stmt::PrintLn(ident("x"))],
        else_block: Some(vec![Stmt::PrintLn(num(0))]),
    };
    let result = fmt(vec![s]);
    assert!(result.contains("if x > 5"));
    assert!(result.contains("else"));
}

#[test]
fn test_string_escape() {
    // let s="hello\nworld" (the escape read as a line feed)
    let s = let_stmt("s", false, Expr::String("hello\nworld".to_string()));
    assert_eq!(fmt(vec![s]), "let s = \"hello\\nworld\"\n");
}

#[test]
fn equal_precedence_on_the_right_keeps_parentheses() {
    let e = bin(ident("a"), BinOp::Sub, bin(ident("b"), BinOp::Sub, ident("c")));
    assert_eq!(fmt(vec![Stmt::Expr(e)]), "a - (b - c)\n");
    let l = bin(bin(ident("a"), BinOp::Sub, ident("b")), BinOp::Sub, ident("c"));
    assert_eq!(fmt(vec![Stmt::Expr(l)]), "a - b - c\n");
    assert!(needs_parens(&bin(num(1), BinOp::Add, num(2)), &BinOp::Sub, false));
    assert!(!needs_parens(&bin(num(1), BinOp::Add, num(2)), &BinOp::Sub, true));
}
