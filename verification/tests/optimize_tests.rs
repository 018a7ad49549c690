use klc::ast::{BinOp, Expr, Param, Stmt};
use klc::optimize::{cse_optimize, get_used_variables, optimize_program, tail_call_optimize, try_eval_const};

fn let_stmt(name: &str, value: Expr) -> Stmt {
    Stmt::Let { name: name.to_string(), type_ann: None, mutable: false, value }
}

fn assign_stmt(name: &str, value: Expr) -> Stmt {
    Stmt::Assign { name: name.to_string(), value }
}

fn bin(l: Expr, op: BinOp, r: Expr) -> Expr {
    Expr::Binary(Box::new(l), op, Box::new(r))
}

fn ident(name: &str) -> Expr {
    Expr::Ident(name.to_string())
}

fn integer(n: i64) -> Expr {
    Expr::Integer(n)
}

fn param(name: &str, ty: &str) -> Param {
    Param { name: name.to_string(), type_ann: Some(ty.to_string()) }
}

fn call(name: &str, args: Vec<Expr>) -> Expr {
    Expr::Call(name.to_string(), args)
}

fn ret(e: Expr) -> Stmt {
    Stmt::Return(Some(e))
}

#[test]
fn test_cse_simple_dup() {
    let stmts = vec![
        let_stmt("a", bin(ident("x"), BinOp::Add, ident("y"))),
        let_stmt("b", bin(ident("x"), BinOp::Add, ident("y"))),
    ];
    let result = cse_optimize(stmts);
    assert!(matches!(&result[0], Stmt::Let { name, value, .. }
        if name == "a" && matches!(value, Expr::Binary(_, BinOp::Add, _))));
    assert!(matches!(&result[1], Stmt::Let { name, value, .. }
        if name == "b" && matches!(value, Expr::Ident(v) if v == "a")));
}

#[test]
fn test_cse_no_elim_after_mutation() {
    let stmts = vec![
        let_stmt("a", bin(ident("x"), BinOp::Add, ident("y"))),
        assign_stmt("x", integer(10)),
        let_stmt("b", bin(ident("x"), BinOp::Add, ident("y"))),
    ];
    let result = cse_optimize(stmts);
    assert!(matches!(&result[2], Stmt::Let { name, value, .. }
        if name == "b" && matches!(value, Expr::Binary(_, BinOp::Add, _))));
}

#[test]
fn test_cse_nested_expr() {
    let expr = || bin(bin(ident("x"), BinOp::Add, ident("y")), BinOp::Mul, integer(2));
    let stmts = vec![let_stmt("a", expr()), let_stmt("b", expr())];
    let result = cse_optimize(stmts);
    assert!(matches!(&result[1], Stmt::Let { name, value, .. }
        if name == "b" && matches!(value, Expr::Ident(v) if v == "a")));
}

#[test]
fn test_cse_no_elim_across_if() {
    let stmts = vec![
        let_stmt("a", bin(ident("x"), BinOp::Add, ident("y"))),
        Stmt::If {
            cond: bin(ident("a"), BinOp::Gt, integer(0)),
            then_block: vec![assign_stmt("x", integer(1))],
            else_block: None,
        },
        let_stmt("b", bin(ident("x"), BinOp::Add, ident("y"))),
    ];
    let result = cse_optimize(stmts);
    assert!(matches!(&result[2], Stmt::Let { name, value, .. }
        if name == "b" && matches!(value, Expr::Binary(_, BinOp::Add, _))));
}

#[test]
fn test_cse_inside_if_branch() {
    let stmts = vec![Stmt::If {
        cond: bin(integer(1), BinOp::Gt, integer(0)),
        then_block: vec![
            let_stmt("a", bin(ident("x"), BinOp::Add, ident("y"))),
            let_stmt("b", bin(ident("x"), BinOp::Add, ident("y"))),
        ],
        else_block: None,
    }];
    let result = cse_optimize(stmts);
    if let Stmt::If { then_block, .. } = &result[0] {
        assert!(matches!(&then_block[1], Stmt::Let { name, value, .. }
            if name == "b" && matches!(value, Expr::Ident(v) if v == "a")));
    } else {
        panic!("expected If statement");
    }
}

#[test]
fn test_cse_different_exprs() {
    let stmts = vec![
        let_stmt("a", bin(ident("x"), BinOp::Add, ident("y"))),
        let_stmt("b", bin(ident("y"), BinOp::Add, ident("x"))),
    ];
    let result = cse_optimize(stmts);
    if let Stmt::Let { value, .. } = &result[1] {
        assert!(matches!(value, Expr::Binary(_, BinOp::Add, _)));
        assert!(!matches!(value, Expr::Ident(_)));
    } else {
        panic!("expected Let statement");
    }
}

#[test]
fn test_cse_no_elim_for_calls() {
    let stmts = vec![
        let_stmt("a", Expr::Call("foo".into(), vec![ident("x")])),
        let_stmt("b", Expr::Call("foo".into(), vec![ident("x")])),
    ];
    let result = cse_optimize(stmts);
    assert!(matches!(&result[1], Stmt::Let { name, value, .. }
        if name == "b" && matches!(value, Expr::Call(_, _))));
}

#[test]
fn test_cse_sub_expr_elimination() {
    let stmts = vec![
        let_stmt("a", bin(ident("x"), BinOp::Add, ident("y"))),
        let_stmt("b", bin(ident("a"), BinOp::Mul, integer(2))),
        let_stmt("c", bin(ident("a"), BinOp::Mul, integer(2))),
    ];
    let result = cse_optimize(stmts);
    assert!(matches!(&result[2], Stmt::Let { name, value, .. }
        if name == "c" && matches!(value, Expr::Ident(v) if v == "b")));
}

#[test]
fn test_cse_fn_body() {
    let stmts = vec![Stmt::FnDef {
        name: "add".into(),
        params: vec![
            Param { name: "a".into(), type_ann: Some("i32".into()) },
            Param { name: "b".into(), type_ann: Some("i32".into()) },
        ],
        return_type: Some("i32".into()),
        body: vec![
            let_stmt("c", bin(ident("a"), BinOp::Add, ident("b"))),
            let_stmt("d", bin(ident("a"), BinOp::Add, ident("b"))),
            Stmt::Return(Some(ident("d"))),
        ],
    }];
    let result = cse_optimize(stmts);
    if let Stmt::FnDef { body, .. } = &result[0] {
        assert!(matches!(&body[1], Stmt::Let { name, value, .. }
            if name == "d" && matches!(value, Expr::Ident(v) if v == "c")));
    } else {
        panic!("expected FnDef");
    }
}

#[test]
fn test_tco_tail_recursive_factorial() {
    let stmts = vec![Stmt::FnDef {
        name: "fact".into(),
        params: vec![param("n", "i64"), param("acc", "i64")],
        return_type: Some("i64".into()),
        body: vec![Stmt::If {
            cond: bin(ident("n"), BinOp::Lte, integer(1)),
            then_block: vec![ret(ident("acc"))],
            else_block: Some(vec![ret(call(
                "fact",
                vec![bin(ident("n"), BinOp::Sub, integer(1)), bin(ident("n"), BinOp::Mul, ident("acc"))],
            ))]),
        }],
    }];
    let result = tail_call_optimize(stmts);
    if let Stmt::FnDef { body, .. } = &result[0] {
        if let Stmt::If { then_block, else_block, .. } = &body[0] {
            assert!(matches!(&then_block[0], Stmt::Return(Some(Expr::Ident(v))) if v == "acc"));
            if let Some(else_block) = else_block {
                assert!(matches!(&else_block[0], Stmt::Return(Some(Expr::TailCall(name, args)))
                    if name == "fact" && args.len() == 2));
            } else {
                panic!("expected else_block");
            }
        } else {
            panic!("expected If");
        }
    } else {
        panic!("expected FnDef");
    }
}

#[test]
fn test_tco_normal_tail_call() {
    let stmts = vec![Stmt::FnDef {
        name: "helper".into(),
        params: vec![],
        return_type: None,
        body: vec![ret(call("foo", vec![integer(1), integer(2)]))],
    }];
    let result = tail_call_optimize(stmts);
    if let Stmt::FnDef { body, .. } = &result[0] {
        assert!(matches!(&body[0], Stmt::Return(Some(Expr::TailCall(name, args)))
            if name == "foo" && args.len() == 2
            && args[0] == Expr::Integer(1) && args[1] == Expr::Integer(2)));
    } else {
        panic!("expected FnDef");
    }
}

#[test]
fn test_tco_non_tail_call_not_optimized() {
    let stmts = vec![Stmt::FnDef {
        name: "non_tail".into(),
        params: vec![],
        return_type: None,
        body: vec![
            Stmt::Let { name: "x".into(), type_ann: None, mutable: false, value: call("foo", vec![integer(1)]) },
            ret(call("bar", vec![bin(ident("x"), BinOp::Add, integer(1))])),
        ],
    }];
    let result = tail_call_optimize(stmts);
    if let Stmt::FnDef { body, .. } = &result[0] {
        assert!(matches!(&body[0], Stmt::Let { name, value, .. }
            if name == "x" && matches!(value, Expr::Call(name, _) if name == "foo")));
        assert!(matches!(&body[1], Stmt::Return(Some(Expr::TailCall(name, args)))
            if name == "bar" && args.len() == 1));
    } else {
        panic!("expected FnDef");
    }
}

#[test]
fn test_tco_both_branches_tail_call() {
    let stmts = vec![Stmt::FnDef {
        name: "choose".into(),
        params: vec![param("flag", "bool")],
        return_type: None,
        body: vec![Stmt::If {
            cond: ident("flag"),
            then_block: vec![ret(call("a", vec![]))],
            else_block: Some(vec![ret(call("b", vec![]))]),
        }],
    }];
    let result = tail_call_optimize(stmts);
    if let Stmt::FnDef { body, .. } = &result[0] {
        if let Stmt::If { then_block, else_block, .. } = &body[0] {
            assert!(matches!(&then_block[0], Stmt::Return(Some(Expr::TailCall(n, _))) if n == "a"));
            if let Some(else_block) = else_block {
                assert!(matches!(&else_block[0], Stmt::Return(Some(Expr::TailCall(n, _))) if n == "b"));
            } else {
                panic!("expected else_block");
            }
        } else {
            panic!("expected If");
        }
    } else {
        panic!("expected FnDef");
    }
}

#[test]
fn test_tco_while_loop_not_tail() {
    let stmts = vec![Stmt::FnDef {
        name: "loop_fn".into(),
        params: vec![],
        return_type: None,
        body: vec![
            Stmt::While(Expr::Bool(true), vec![Stmt::Expr(call("foo", vec![]))]),
            ret(call("bar", vec![])),
        ],
    }];
    let result = tail_call_optimize(stmts);
    if let Stmt::FnDef { body, .. } = &result[0] {
        if let Stmt::While(_, while_body) = &body[0] {
            assert!(matches!(&while_body[0], Stmt::Expr(Expr::Call(n, _)) if n == "foo"));
        }
        assert!(matches!(&body[1], Stmt::Return(Some(Expr::TailCall(n, _))) if n == "bar"));
    } else {
        panic!("expected FnDef");
    }
}

#[test]
fn test_tco_in_impl_block() {
    let stmts = vec![Stmt::ImplBlock {
        impl_type: "Foo".into(),
        methods: vec![Stmt::FnDef {
            name: "self_call".into(),
            params: vec![param("x", "i64")],
            return_type: None,
            body: vec![ret(call("self_call", vec![ident("x")]))],
        }],
    }];
    let result = tail_call_optimize(stmts);
    if let Stmt::ImplBlock { methods, .. } = &result[0] {
        if let Stmt::FnDef { body, .. } = &methods[0] {
            assert!(matches!(&body[0], Stmt::Return(Some(Expr::TailCall(n, args)))
                if n == "self_call" && args.len() == 1));
        } else {
            panic!("expected FnDef in ImplBlock");
        }
    } else {
        panic!("expected ImplBlock");
    }
}

#[test]
fn top_level_calls_are_not_marked() {
    let stmts = vec![Stmt::Expr(call("f", vec![])), ret(call("g", vec![]))];
    let result = tail_call_optimize(stmts);
    assert!(matches!(&result[0], Stmt::Expr(Expr::Call(n, _)) if n == "f"));
    assert!(matches!(&result[1], Stmt::Return(Some(Expr::Call(n, _))) if n == "g"));
}

#[test]
fn used_variables_each_once() {
    let stmts = vec![
        let_stmt("a", bin(ident("x"), BinOp::Add, ident("y"))),
        Stmt::While(ident("x"), vec![Stmt::PrintLn(call("f", vec![ident("z"), ident("y")]))]),
        Stmt::Exit(ident("never")),
    ];
    let used = get_used_variables(&stmts);
    assert_eq!(used, vec!["x".to_string(), "y".to_string(), "z".to_string()]);
}

#[test]
fn constant_expressions_evaluate() {
    assert_eq!(try_eval_const(&bin(integer(7), BinOp::Div, integer(2))), Some(3));
    assert_eq!(try_eval_const(&bin(integer(-7), BinOp::Mod, integer(2))), Some(-1));
    assert_eq!(try_eval_const(&bin(integer(1), BinOp::Div, integer(0))), None);
    assert_eq!(try_eval_const(&bin(integer(i64::MAX), BinOp::Add, integer(1))), Some(i64::MIN));
    assert_eq!(try_eval_const(&bin(Expr::Bool(true), BinOp::And, Expr::Char('a'))), Some(1));
    assert_eq!(try_eval_const(&Expr::Unary(klc::ast::UnaryOp::Neg, Box::new(integer(i64::MIN)))), Some(i64::MIN));
    assert_eq!(try_eval_const(&Expr::Unary(klc::ast::UnaryOp::Not, Box::new(integer(5)))), Some(0));
    assert_eq!(try_eval_const(&ident("x")), None);
    assert_eq!(try_eval_const(&bin(integer(3), BinOp::Lt, integer(4))), Some(1));
}

#[test]
fn test_cse_in_full_optimize_pipeline() {
    let stmts = vec![
        let_stmt("a", bin(ident("x"), BinOp::Add, ident("y"))),
        let_stmt("b", bin(ident("x"), BinOp::Add, ident("y"))),
        let_stmt("c", bin(ident("b"), BinOp::Mul, integer(2))),
        let_stmt("d", bin(ident("b"), BinOp::Mul, integer(2))),
    ];
    let optimized = optimize_program(stmts);
    assert!(matches!(&optimized[1], Stmt::Let { name, value, .. }
        if name == "b" && matches!(value, Expr::Ident(v) if v == "a")));
    assert!(matches!(&optimized[3], Stmt::Let { name, value, .. }
        if name == "d" && matches!(value, Expr::Ident(v) if v == "c")));
}

#[test]
fn test_tco_in_full_optimize_pipeline() {
    let stmts = vec![
        Stmt::FnDef {
            name: "add".into(),
            params: vec![param("a", "i64"), param("b", "i64")],
            return_type: Some("i64".into()),
            body: vec![ret(bin(ident("a"), BinOp::Add, ident("b")))],
        },
        Stmt::FnDef {
            name: "main".into(),
            params: vec![],
            return_type: Some("i64".into()),
            body: vec![ret(call("add", vec![integer(1), integer(2)]))],
        },
    ];
    let optimized = optimize_program(stmts);
    if let Stmt::FnDef { name, body, .. } = &optimized[1] {
        assert_eq!(name, "main");
        assert!(matches!(&body[0], Stmt::Return(Some(Expr::TailCall(n, args)))
            if n == "add" && args.len() == 2));
    } else {
        panic!("expected FnDef");
    }
}

#[test]
fn test_fold_and_propagate_constants() {
    let stmts = vec![
        let_stmt("n", bin(integer(2), BinOp::Mul, integer(21))),
        let_stmt("m", bin(ident("n"), BinOp::Add, integer(1))),
        Stmt::Print(bin(ident("m"), BinOp::Sub, ident("m"))),
        let_stmt("k", bin(ident("x"), BinOp::Mul, integer(1))),
        Stmt::If { cond: bin(integer(1), BinOp::Lt, integer(0)), then_block: vec![Stmt::Break], else_block: None },
        Stmt::While(Expr::Bool(false), vec![Stmt::Break]),
    ];
    let optimized = optimize_program(stmts);
    assert_eq!(optimized[0], let_stmt("n", integer(42)));
    assert_eq!(optimized[1], let_stmt("m", integer(43)));
    assert_eq!(optimized[2], Stmt::Print(integer(0)));
    assert_eq!(optimized[3], let_stmt("k", ident("x")));
    assert_eq!(optimized[4], Stmt::Expr(integer(0)));
    assert_eq!(optimized[5], Stmt::Expr(integer(0)));
}

#[test]
fn test_propagation_forgets_loop_assignments() {
    let stmts = vec![
        let_stmt("i", integer(0)),
        Stmt::While(bin(ident("i"), BinOp::Lt, integer(10)), vec![assign_stmt("i", bin(ident("i"), BinOp::Add, integer(1)))]),
        Stmt::Print(ident("i")),
    ];
    let optimized = optimize_program(stmts);
    // `i` is assigned in the loop, so it is no constant afterwards
    assert_eq!(optimized[2], Stmt::Print(ident("i")));
    assert_eq!(optimized[0], let_stmt("i", integer(0)));
}

#[test]
fn test_fold_identities_native() {
    let stmts = vec![
        let_stmt("a", bin(ident("x"), BinOp::Div, ident("x"))),
        let_stmt("b", bin(ident("x"), BinOp::Mod, integer(1))),
        let_stmt("c", bin(ident("x"), BinOp::Or, integer(0))),
        let_stmt("d", Expr::If(Box::new(Expr::Bool(true)), Box::new(integer(7)), None)),
        let_stmt("e", Expr::Unary(klc::ast::UnaryOp::Neg, Box::new(integer(3)))),
    ];
    let optimized = optimize_program(stmts);
    assert_eq!(optimized[0], let_stmt("a", integer(1)));
    assert_eq!(optimized[1], let_stmt("b", integer(0)));
    assert_eq!(optimized[2], let_stmt("c", ident("x")));
    assert_eq!(optimized[3], let_stmt("d", integer(7)));
    assert_eq!(optimized[4], let_stmt("e", integer(-3)));
}

#[test]
fn test_fold_nested_constant_operators() {
    let e = Expr::Unary(
        klc::ast::UnaryOp::Neg,
        Box::new(bin(integer(2), BinOp::Mul, bin(integer(3), BinOp::Add, bin(Expr::Bool(true), BinOp::Add, integer(3))))),
    );
    let optimized = optimize_program(vec![let_stmt("x", e)]);
    assert_eq!(optimized[0], let_stmt("x", integer(-14)));
}

#[test]
fn later_assignment_is_not_propagated_backwards() {
    let stmts = vec![
        Stmt::Let { name: "x".to_string(), type_ann: None, mutable: true, value: integer(1) },
        Stmt::PrintLn(ident("x")),
        assign_stmt("x", integer(2)),
        Stmt::PrintLn(ident("x")),
    ];
    let r = optimize_program(stmts);
    // the first print sees 1 (written as the constant, or as `x`, which then holds 1)
    assert!(r[1] == Stmt::PrintLn(integer(1)) || r[1] == Stmt::PrintLn(ident("x")));
    assert_ne!(r[1], Stmt::PrintLn(integer(2)));
    assert!(r[3] == Stmt::PrintLn(integer(2)) || r[3] == Stmt::PrintLn(ident("x")));
    assert_eq!(r[2], assign_stmt("x", integer(2)));
}

#[test]
fn names_assigned_in_a_loop_are_not_propagated_into_it() {
    let stmts = vec![
        let_stmt("i", integer(0)),
        Stmt::While(
            bin(ident("i"), BinOp::Lt, integer(3)),
            vec![Stmt::If {
                cond: ident("c"),
                then_block: vec![assign_stmt("i", bin(ident("i"), BinOp::Add, integer(1)))],
                else_block: None,
            }],
        ),
        Stmt::PrintLn(ident("i")),
    ];
    let r = optimize_program(stmts);
    match &r[1] {
        Stmt::While(cond, _) => assert_eq!(*cond, bin(ident("i"), BinOp::Lt, integer(3))),
        _ => panic!("expected While"),
    }
    assert_eq!(r[2], Stmt::PrintLn(ident("i")));
}
