use klc::lexer::Lexer;
use klc::token::{Token, TokenKind};

#[test]
fn test_basic_tokens() {
    let source = "let x = 42";
    let mut lexer = Lexer::new(source);
    let tokens = lexer.tokenize();
    let kinds: Vec<TokenKind> = tokens.iter().map(|t| t.kind.clone()).collect();
    assert_eq!(kinds, vec![
        TokenKind::Let,
        TokenKind::Ident("x".into()),
        TokenKind::Assign,
        TokenKind::Integer(42),
        TokenKind::Eof,
    ]);
}

#[test]
fn test_string() {
    let source = r#""hello\nworld""#;
    let mut lexer = Lexer::new(source);
    let tokens = lexer.tokenize();
    assert_eq!(tokens[0].kind, TokenKind::String("hello\nworld".into()));
}

#[test]
fn test_comment() {
    let source = "let x = 1 -- this is a comment\nlet y = 2";
    let mut lexer = Lexer::new(source);
    let tokens = lexer.tokenize();
    let non_eof: Vec<_> = tokens.iter().filter(|t| t.kind != TokenKind::Eof).collect();
    assert!(non_eof.len() >= 6);
}

#[test]
fn test_operators() {
    let source = "++ == != <= >= -> :: .. ..= |> ??";
    let mut lexer = Lexer::new(source);
    let tokens = lexer.tokenize();
    let kinds: Vec<TokenKind> = tokens.iter().map(|t| t.kind.clone()).collect();
    assert_eq!(kinds, vec![
        TokenKind::Concat,
        TokenKind::Eq,
        TokenKind::Neq,
        TokenKind::Lte,
        TokenKind::Gte,
        TokenKind::Arrow,
        TokenKind::Colon2,
        TokenKind::DotDot,
        TokenKind::DotDotEq,
        TokenKind::Pipe,
        TokenKind::Question2,
        TokenKind::Eof,
    ]);
}

// ---------------------------------------------------------------------------

fn lex(source: &str) -> Vec<Token> {
    Lexer::new(source).tokenize()
}

fn kinds(source: &str) -> Vec<TokenKind> {
    lex(source).into_iter().map(|t| t.kind).collect()
}

#[test]
fn positions_are_those_of_the_first_character() {
    let tokens = lex("let a\n  b = 'c'");
    let pos: Vec<(usize, usize, &str)> = tokens.iter().map(|t| (t.line, t.col, t.lexeme.as_str())).collect();
    assert_eq!(pos, vec![(1, 1, "let"), (1, 5, "a"), (2, 3, "b"), (2, 5, "="), (2, 7, "'c'"), (2, 10, "")]);
}

#[test]
fn block_comments_and_newlines() {
    assert_eq!(kinds("x --| skipped\n still |-- y"), vec![
        TokenKind::Ident("x".into()),
        TokenKind::Ident("y".into()),
        TokenKind::Eof,
    ]);
    // an unterminated block comment runs to the end
    assert_eq!(kinds("x --| never closed"), vec![TokenKind::Ident("x".into()), TokenKind::Eof]);
}

#[test]
fn numbers() {
    assert_eq!(kinds("0 123 4.5 6. 9223372036854775807 9223372036854775808"), vec![
        TokenKind::Integer(0),
        TokenKind::Integer(123),
        TokenKind::Float("4.5".into()),
        TokenKind::Integer(6),
        TokenKind::Dot,
        TokenKind::Integer(i64::MAX),
        TokenKind::Integer(0),
        TokenKind::Eof,
    ]);
}

#[test]
fn string_and_char_escapes() {
    let t = lex(r#""a\tb\"c\\d\qe" '\n' '\'' 'x'"#);
    assert_eq!(t[0].kind, TokenKind::String("a\tb\"c\\d\\qe".into()));
    assert_eq!(t[0].lexeme, "\"a\tb\"c\\d\\qe\"");
    assert_eq!(t[1].kind, TokenKind::Char('\n'));
    assert_eq!(t[2].kind, TokenKind::Char('\''));
    assert_eq!(t[3].kind, TokenKind::Char('x'));
    assert_eq!(t[4].kind, TokenKind::Eof);
}

#[test]
fn unterminated_string_runs_to_the_end() {
    assert_eq!(kinds("\"abc"), vec![TokenKind::String("abc".into()), TokenKind::Eof]);
    assert_eq!(kinds("\"ab\\"), vec![TokenKind::String("ab\\\0".into()), TokenKind::Eof]);
}

#[test]
fn keywords_and_identifiers() {
    assert_eq!(kinds("fn mod use _tmp 变量 returned"), vec![
        TokenKind::Fn,
        TokenKind::Mod,
        TokenKind::Use,
        TokenKind::Ident("_tmp".into()),
        TokenKind::Ident("变量".into()),
        TokenKind::Ident("returned".into()),
        TokenKind::Eof,
    ]);
}

#[test]
fn unknown_character_ends_the_tokens() {
    let t = lex("a @ b");
    assert_eq!(t.len(), 2);
    assert_eq!(t[1].kind, TokenKind::Eof);
    assert_eq!(t[1].lexeme, "@");
}

#[test]
fn single_character_operators() {
    assert_eq!(kinds("+ - * / % = ! < > : . , ( ) { } [ ] | & ? += -= *= /= => <-"), vec![
        TokenKind::Plus, TokenKind::Minus, TokenKind::Star, TokenKind::Slash, TokenKind::Percent,
        TokenKind::Assign, TokenKind::Not, TokenKind::Lt, TokenKind::Gt, TokenKind::Colon, TokenKind::Dot,
        TokenKind::Comma, TokenKind::LParen, TokenKind::RParen, TokenKind::LBrace, TokenKind::RBrace,
        TokenKind::LBracket, TokenKind::RBracket, TokenKind::Bar, TokenKind::Ampersand, TokenKind::Question,
        TokenKind::PlusEq, TokenKind::MinusEq, TokenKind::StarEq, TokenKind::SlashEq, TokenKind::FatArrow,
        TokenKind::Lt, TokenKind::Eof,
    ]);
}
