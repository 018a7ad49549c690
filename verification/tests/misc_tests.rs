use klc::dwarf::collect_line_map;
use klc::formatter::FormatConfig;
use klc::module::{build_exports, mod_declarations, ExportKind, ProjectBuilder};
use klc::lexer::Lexer;
use klc::ast::{EnumVariant, Expr, Param, Program, Stmt, StructField};
use klc::numtext::push_decimal;
use klc::token::{lookup_keyword, Token, TokenKind};

#[test]
fn line_map_skips_blank_and_comment_lines() {
    let src = "let x = 1\n\n  -- comment\n  print(x)\n-\n";
    assert_eq!(collect_line_map(src), vec![(1, 0x1000), (4, 0x1010), (5, 0x1020)]);
    assert!(collect_line_map("").is_empty());
    assert_eq!(collect_line_map("\t\u{3000}x"), vec![(1, 0x1000)]);
}

#[test]
fn format_config_defaults() {
    let c = FormatConfig::default();
    assert_eq!((c.indent_width, c.max_line_width), (4, 100));
    assert!(c.fn_brace_newline && c.spaces_around_operators && c.space_after_comma);
}

#[test]
fn project_builder_chains() {
    let _b = ProjectBuilder::new("proj").entry_file("app.klc").output("out.exe").native(true).no_opt(true).debug_info(true);
}

#[test]
fn decimal_text() {
    let mut s = String::from("n=");
    push_decimal(&mut s, 0);
    s.push(',');
    push_decimal(&mut s, 1234567890123);
    assert_eq!(s, "n=0,1234567890123");
}

#[test]
fn keywords() {
    let word = |s: &str| s.chars().collect::<Vec<char>>();
    assert_eq!(lookup_keyword(&word("let")), Some(TokenKind::Let));
    assert_eq!(lookup_keyword(&word("self")), Some(TokenKind::SelfValue));
    assert_eq!(lookup_keyword(&word("lets")), None);
    let t = Token::new(TokenKind::Comma, 3, 4, ",".to_string());
    assert_eq!((t.line, t.col, t.lexeme.as_str()), (3, 4, ","));
}

#[test]
fn test_build_exports() {
    let program = Program {
        statements: vec![
            Stmt::FnDef {
                name: "add".to_string(),
                params: vec![Param { name: "a".to_string(), type_ann: Some("i64".to_string()) }],
                return_type: Some("i64".to_string()),
                body: vec![],
            },
            Stmt::TypeDef {
                name: "Point".to_string(),
                fields: vec![
                    StructField { name: "x".to_string(), type_ann: "i64".to_string(), default: None },
                    StructField { name: "y".to_string(), type_ann: "i64".to_string(), default: None },
                ],
            },
            Stmt::EnumDef {
                name: "Color".to_string(),
                variants: vec![EnumVariant { name: "Red".to_string(), fields: vec![] }],
            },
            Stmt::Let { name: "n".to_string(), type_ann: None, mutable: false, value: Expr::Integer(1) },
            Stmt::Print(Expr::Integer(1)),
            Stmt::Let { name: "add".to_string(), type_ann: None, mutable: true, value: Expr::Integer(2) },
        ],
    };
    let exports = build_exports(&program);
    assert_eq!(exports.len(), 4);
    let names: Vec<&str> = exports.iter().map(|e| e.name.as_str()).collect();
    assert_eq!(names, vec!["add", "Point", "Color", "n"]);
    // `add` is defined again as a variable: the later definition wins
    assert!(matches!(exports[0].kind, ExportKind::Variable));
    assert!(matches!(&exports[1].kind, ExportKind::Type { fields } if fields == &vec!["x".to_string(), "y".to_string()]));
    assert!(matches!(&exports[2].kind, ExportKind::Enum { variants } if variants == &vec!["Red".to_string()]));
    assert!(exports.iter().all(|e| e.is_pub));
}

#[test]
fn test_mod_declarations() {
    let mut lexer = Lexer::new("mod math\nuse io\nmod 3 mod utils\nlet x = 1\nmod");
    let tokens = lexer.tokenize();
    assert_eq!(mod_declarations(&tokens), vec!["math".to_string(), "utils".to_string()]);
    let mut lexer = Lexer::new("use mod\nmod a");
    let tokens = lexer.tokenize();
    // `use` passes over the token after it
    assert_eq!(mod_declarations(&tokens), vec!["a".to_string()]);
}

#[test]
fn test_export_building() {
    // fn greet(name) { io.println("Hello " ++ name) }
    // type Point { x: i32, y: i32 }
    // let PI = 3
    let program = Program {
        statements: vec![
            Stmt::FnDef {
                name: "greet".to_string(),
                params: vec![Param { name: "name".to_string(), type_ann: None }],
                return_type: None,
                body: vec![Stmt::PrintLn(Expr::Binary(
                    Box::new(Expr::String("Hello ".to_string())),
                    klc::ast::BinOp::Concat,
                    Box::new(Expr::Ident("name".to_string())),
                ))],
            },
            Stmt::TypeDef {
                name: "Point".to_string(),
                fields: vec![
                    StructField { name: "x".to_string(), type_ann: "i32".to_string(), default: None },
                    StructField { name: "y".to_string(), type_ann: "i32".to_string(), default: None },
                ],
            },
            Stmt::Let { name: "PI".to_string(), type_ann: None, mutable: false, value: Expr::Integer(3) },
        ],
    };
    let exports = build_exports(&program);
    let contains_key = |k: &str| exports.iter().any(|e| e.name == k);
    assert!(contains_key("greet"));
    assert!(contains_key("Point"));
    assert!(contains_key("PI"));
}
