use klc::ast::{BinOp, Expr, Stmt};
use klc::extern_calls::{known_dll, scan_extern_imports};

fn call(name: &str, args: Vec<Expr>) -> Expr {
    Expr::Call(name.to_string(), args)
}

#[test]
fn test_known_dll() {
    assert_eq!(known_dll(&"MessageBoxA".to_string()), Some("user32.dll"));
    assert_eq!(known_dll(&"Sleep".to_string()), Some("kernel32.dll"));
    assert_eq!(known_dll(&"ExitProcess".to_string()), Some("kernel32.dll"));
    assert_eq!(known_dll(&"printf".to_string()), None);
    assert_eq!(known_dll(&"messageboxa".to_string()), None);
}

#[test]
fn test_scan_extern_imports() {
    let stmts = vec![
        Stmt::Expr(call("MessageBoxA", vec![Expr::Integer(0), call("GetTickCount", vec![])])),
        Stmt::Let {
            name: "t".to_string(),
            type_ann: None,
            mutable: false,
            value: Expr::Binary(
                Box::new(call("GetTickCount", vec![])),
                BinOp::Add,
                Box::new(call("foo", vec![call("Beep", vec![])])),
            ),
        },
        Stmt::While(Expr::Bool(true), vec![Stmt::Expr(call("Sleep", vec![])), Stmt::Expr(call("MessageBoxA", vec![]))]),
        Stmt::Print(call("Beep", vec![])),
    ];
    let imports = scan_extern_imports(&stmts);
    let got: Vec<(&str, &str)> = imports.iter().map(|(d, n)| (*d, n.as_str())).collect();
    assert_eq!(
        got,
        vec![
            ("user32.dll", "MessageBoxA"),
            ("kernel32.dll", "GetTickCount"),
            ("kernel32.dll", "Beep"),
            // a loop body is gathered on its own: its functions are appended as they are
            ("kernel32.dll", "Sleep"),
            ("user32.dll", "MessageBoxA"),
        ]
    );
}
