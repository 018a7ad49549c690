//! Tokens of the KLC language.
use vstd::prelude::*;

verus! {

/// The kind of a token, with its value where it has one.
#[derive(Debug, Clone, PartialEq)]
pub enum TokenKind {
    /// An integer literal (0 when it does not fit in an `i64`).
    Integer(i64),
    /// A number with a fractional part, as written (digits, `.`, digits).
    Float(String),
    /// A string literal, escapes resolved.
    String(String),
    /// A character literal, escapes resolved.
    Char(char),
    /// An identifier.
    Ident(String),
    Let,
    Mut,
    Fn,
    Return,
    If,
    Else,
    While,
    Loop,
    For,
    In,
    Break,
    Continue,
    Type,
    Impl,
    Mod,
    Use,
    Pub,
    Own,
    Borrow,
    Task,
    Go,
    Match,
    Trait,
    Async,
    Await,
    True,
    False,
    And,
    Or,
    Not,
    Enum,
    Const,
    Yield,
    As,
    SelfValue,
    Null,
    Plus,
    Minus,
    Star,
    Slash,
    Percent,
    PlusEq,
    MinusEq,
    StarEq,
    SlashEq,
    Concat,
    Assign,
    Eq,
    Neq,
    Lt,
    Gt,
    Lte,
    Gte,
    Arrow,
    FatArrow,
    Colon,
    Colon2,
    Dot,
    DotDot,
    DotDotEq,
    Comma,
    LParen,
    RParen,
    LBrace,
    RBrace,
    LBracket,
    RBracket,
    Pipe,
    Bar,
    Ampersand,
    Question,
    Question2,
    Newline,
    Eof,
}

/// A token kind with its text values taken by their views.
pub ghost enum TokenKindView {
    Integer(i64),
    Float(Seq<char>),
    String(Seq<char>),
    Char(char),
    Ident(Seq<char>),
    Let,
    Mut,
    Fn,
    Return,
    If,
    Else,
    While,
    Loop,
    For,
    In,
    Break,
    Continue,
    Type,
    Impl,
    Mod,
    Use,
    Pub,
    Own,
    Borrow,
    Task,
    Go,
    Match,
    Trait,
    Async,
    Await,
    True,
    False,
    And,
    Or,
    Not,
    Enum,
    Const,
    Yield,
    As,
    SelfValue,
    Null,
    Plus,
    Minus,
    Star,
    Slash,
    Percent,
    PlusEq,
    MinusEq,
    StarEq,
    SlashEq,
    Concat,
    Assign,
    Eq,
    Neq,
    Lt,
    Gt,
    Lte,
    Gte,
    Arrow,
    FatArrow,
    Colon,
    Colon2,
    Dot,
    DotDot,
    DotDotEq,
    Comma,
    LParen,
    RParen,
    LBrace,
    RBrace,
    LBracket,
    RBracket,
    Pipe,
    Bar,
    Ampersand,
    Question,
    Question2,
    Newline,
    Eof,
}

impl View for TokenKind {
    type V = TokenKindView;

    open spec fn view(&self) -> TokenKindView {
        match self {
            TokenKind::Integer(v) => TokenKindView::Integer(*v),
            TokenKind::Float(s) => TokenKindView::Float(s@),
            TokenKind::String(s) => TokenKindView::String(s@),
            TokenKind::Char(v) => TokenKindView::Char(*v),
            TokenKind::Ident(s) => TokenKindView::Ident(s@),
            TokenKind::Let => TokenKindView::Let,
            TokenKind::Mut => TokenKindView::Mut,
            TokenKind::Fn => TokenKindView::Fn,
            TokenKind::Return => TokenKindView::Return,
            TokenKind::If => TokenKindView::If,
            TokenKind::Else => TokenKindView::Else,
            TokenKind::While => TokenKindView::While,
            TokenKind::Loop => TokenKindView::Loop,
            TokenKind::For => TokenKindView::For,
            TokenKind::In => TokenKindView::In,
            TokenKind::Break => TokenKindView::Break,
            TokenKind::Continue => TokenKindView::Continue,
            TokenKind::Type => TokenKindView::Type,
            TokenKind::Impl => TokenKindView::Impl,
            TokenKind::Mod => TokenKindView::Mod,
            TokenKind::Use => TokenKindView::Use,
            TokenKind::Pub => TokenKindView::Pub,
            TokenKind::Own => TokenKindView::Own,
            TokenKind::Borrow => TokenKindView::Borrow,
            TokenKind::Task => TokenKindView::Task,
            TokenKind::Go => TokenKindView::Go,
            TokenKind::Match => TokenKindView::Match,
            TokenKind::Trait => TokenKindView::Trait,
            TokenKind::Async => TokenKindView::Async,
            TokenKind::Await => TokenKindView::Await,
            TokenKind::True => TokenKindView::True,
            TokenKind::False => TokenKindView::False,
            TokenKind::And => TokenKindView::And,
            TokenKind::Or => TokenKindView::Or,
            TokenKind::Not => TokenKindView::Not,
            TokenKind::Enum => TokenKindView::Enum,
            TokenKind::Const => TokenKindView::Const,
            TokenKind::Yield => TokenKindView::Yield,
            TokenKind::As => TokenKindView::As,
            TokenKind::SelfValue => TokenKindView::SelfValue,
            TokenKind::Null => TokenKindView::Null,
            TokenKind::Plus => TokenKindView::Plus,
            TokenKind::Minus => TokenKindView::Minus,
            TokenKind::Star => TokenKindView::Star,
            TokenKind::Slash => TokenKindView::Slash,
            TokenKind::Percent => TokenKindView::Percent,
            TokenKind::PlusEq => TokenKindView::PlusEq,
            TokenKind::MinusEq => TokenKindView::MinusEq,
            TokenKind::StarEq => TokenKindView::StarEq,
            TokenKind::SlashEq => TokenKindView::SlashEq,
            TokenKind::Concat => TokenKindView::Concat,
            TokenKind::Assign => TokenKindView::Assign,
            TokenKind::Eq => TokenKindView::Eq,
            TokenKind::Neq => TokenKindView::Neq,
            TokenKind::Lt => TokenKindView::Lt,
            TokenKind::Gt => TokenKindView::Gt,
            TokenKind::Lte => TokenKindView::Lte,
            TokenKind::Gte => TokenKindView::Gte,
            TokenKind::Arrow => TokenKindView::Arrow,
            TokenKind::FatArrow => TokenKindView::FatArrow,
            TokenKind::Colon => TokenKindView::Colon,
            TokenKind::Colon2 => TokenKindView::Colon2,
            TokenKind::Dot => TokenKindView::Dot,
            TokenKind::DotDot => TokenKindView::DotDot,
            TokenKind::DotDotEq => TokenKindView::DotDotEq,
            TokenKind::Comma => TokenKindView::Comma,
            TokenKind::LParen => TokenKindView::LParen,
            TokenKind::RParen => TokenKindView::RParen,
            TokenKind::LBrace => TokenKindView::LBrace,
            TokenKind::RBrace => TokenKindView::RBrace,
            TokenKind::LBracket => TokenKindView::LBracket,
            TokenKind::RBracket => TokenKindView::RBracket,
            TokenKind::Pipe => TokenKindView::Pipe,
            TokenKind::Bar => TokenKindView::Bar,
            TokenKind::Ampersand => TokenKindView::Ampersand,
            TokenKind::Question => TokenKindView::Question,
            TokenKind::Question2 => TokenKindView::Question2,
            TokenKind::Newline => TokenKindView::Newline,
            TokenKind::Eof => TokenKindView::Eof,
        }
    }
}

/// The keyword spelled by `s`, if any.
pub open spec fn keyword_kind(s: Seq<char>) -> Option<TokenKindView> {
    if s == seq!['l', 'e', 't'] {
        Some(TokenKindView::Let)
    } else if s == seq!['m', 'u', 't'] {
        Some(TokenKindView::Mut)
    } else if s == seq!['f', 'n'] {
        Some(TokenKindView::Fn)
    } else if s == seq!['r', 'e', 't', 'u', 'r', 'n'] {
        Some(TokenKindView::Return)
    } else if s == seq!['i', 'f'] {
        Some(TokenKindView::If)
    } else if s == seq!['e', 'l', 's', 'e'] {
        Some(TokenKindView::Else)
    } else if s == seq!['w', 'h', 'i', 'l', 'e'] {
        Some(TokenKindView::While)
    } else if s == seq!['l', 'o', 'o', 'p'] {
        Some(TokenKindView::Loop)
    } else if s == seq!['f', 'o', 'r'] {
        Some(TokenKindView::For)
    } else if s == seq!['i', 'n'] {
        Some(TokenKindView::In)
    } else if s == seq!['b', 'r', 'e', 'a', 'k'] {
        Some(TokenKindView::Break)
    } else if s == seq!['c', 'o', 'n', 't', 'i', 'n', 'u', 'e'] {
        Some(TokenKindView::Continue)
    } else if s == seq!['t', 'y', 'p', 'e'] {
        Some(TokenKindView::Type)
    } else if s == seq!['i', 'm', 'p', 'l'] {
        Some(TokenKindView::Impl)
    } else if s == seq!['m', 'o', 'd'] {
        Some(TokenKindView::Mod)
    } else if s == seq!['u', 's', 'e'] {
        Some(TokenKindView::Use)
    } else if s == seq!['p', 'u', 'b'] {
        Some(TokenKindView::Pub)
    } else if s == seq!['o', 'w', 'n'] {
        Some(TokenKindView::Own)
    } else if s == seq!['b', 'o', 'r', 'r', 'o', 'w'] {
        Some(TokenKindView::Borrow)
    } else if s == seq!['t', 'a', 's', 'k'] {
        Some(TokenKindView::Task)
    } else if s == seq!['g', 'o'] {
        Some(TokenKindView::Go)
    } else if s == seq!['m', 'a', 't', 'c', 'h'] {
        Some(TokenKindView::Match)
    } else if s == seq!['t', 'r', 'a', 'i', 't'] {
        Some(TokenKindView::Trait)
    } else if s == seq!['a', 's', 'y', 'n', 'c'] {
        Some(TokenKindView::Async)
    } else if s == seq!['a', 'w', 'a', 'i', 't'] {
        Some(TokenKindView::Await)
    } else if s == seq!['t', 'r', 'u', 'e'] {
        Some(TokenKindView::True)
    } else if s == seq!['f', 'a', 'l', 's', 'e'] {
        Some(TokenKindView::False)
    } else if s == seq!['a', 'n', 'd'] {
        Some(TokenKindView::And)
    } else if s == seq!['o', 'r'] {
        Some(TokenKindView::Or)
    } else if s == seq!['n', 'o', 't'] {
        Some(TokenKindView::Not)
    } else if s == seq!['e', 'n', 'u', 'm'] {
        Some(TokenKindView::Enum)
    } else if s == seq!['c', 'o', 'n', 's', 't'] {
        Some(TokenKindView::Const)
    } else if s == seq!['y', 'i', 'e', 'l', 'd'] {
        Some(TokenKindView::Yield)
    } else if s == seq!['a', 's'] {
        Some(TokenKindView::As)
    } else if s == seq!['s', 'e', 'l', 'f'] {
        Some(TokenKindView::SelfValue)
    } else if s == seq!['n', 'u', 'l', 'l'] {
        Some(TokenKindView::Null)
    } else {
        None
    }
}

fn chars_eq(a: &[char], b: &[char]) -> (r: bool)
    ensures
        r == (a@ == b@),
{
    if a.len() != b.len() {
        return false;
    }
    let mut i: usize = 0;
    while i < a.len()
        invariant
            a@.len() == b@.len(),
            i <= a@.len(),
            forall|t: int| 0 <= t < i ==> a@[t] == b@[t],
        decreases a@.len() - i,
    {
        if a[i] != b[i] {
            return false;
        }
        i = i + 1;
    }
    assert(a@ =~= b@);
    true
}

/// The keyword token spelled by `word`, if it is a keyword.
pub fn lookup_keyword(word: &[char]) -> (r: Option<TokenKind>)
    ensures
        match r {
            Some(k) => keyword_kind(word@) == Some(k@),
            None => keyword_kind(word@) is None,
        },
{
    let w = ['l', 'e', 't'];
    if chars_eq(word, &w) {
        assert(w@ =~= seq!['l', 'e', 't']);
        return Some(TokenKind::Let);
    }
    assert(w@ =~= seq!['l', 'e', 't']);
    let w = ['m', 'u', 't'];
    if chars_eq(word, &w) {
        assert(w@ =~= seq!['m', 'u', 't']);
        return Some(TokenKind::Mut);
    }
    assert(w@ =~= seq!['m', 'u', 't']);
    let w = ['f', 'n'];
    if chars_eq(word, &w) {
        assert(w@ =~= seq!['f', 'n']);
        return Some(TokenKind::Fn);
    }
    assert(w@ =~= seq!['f', 'n']);
    let w = ['r', 'e', 't', 'u', 'r', 'n'];
    if chars_eq(word, &w) {
        assert(w@ =~= seq!['r', 'e', 't', 'u', 'r', 'n']);
        return Some(TokenKind::Return);
    }
    assert(w@ =~= seq!['r', 'e', 't', 'u', 'r', 'n']);
    let w = ['i', 'f'];
    if chars_eq(word, &w) {
        assert(w@ =~= seq!['i', 'f']);
        return Some(TokenKind::If);
    }
    assert(w@ =~= seq!['i', 'f']);
    let w = ['e', 'l', 's', 'e'];
    if chars_eq(word, &w) {
        assert(w@ =~= seq!['e', 'l', 's', 'e']);
        return Some(TokenKind::Else);
    }
    assert(w@ =~= seq!['e', 'l', 's', 'e']);
    let w = ['w', 'h', 'i', 'l', 'e'];
    if chars_eq(word, &w) {
        assert(w@ =~= seq!['w', 'h', 'i', 'l', 'e']);
        return Some(TokenKind::While);
    }
    assert(w@ =~= seq!['w', 'h', 'i', 'l', 'e']);
    let w = ['l', 'o', 'o', 'p'];
    if chars_eq(word, &w) {
        assert(w@ =~= seq!['l', 'o', 'o', 'p']);
        return Some(TokenKind::Loop);
    }
    assert(w@ =~= seq!['l', 'o', 'o', 'p']);
    let w = ['f', 'o', 'r'];
    if chars_eq(word, &w) {
        assert(w@ =~= seq!['f', 'o', 'r']);
        return Some(TokenKind::For);
    }
    assert(w@ =~= seq!['f', 'o', 'r']);
    let w = ['i', 'n'];
    if chars_eq(word, &w) {
        assert(w@ =~= seq!['i', 'n']);
        return Some(TokenKind::In);
    }
    assert(w@ =~= seq!['i', 'n']);
    let w = ['b', 'r', 'e', 'a', 'k'];
    if chars_eq(word, &w) {
        assert(w@ =~= seq!['b', 'r', 'e', 'a', 'k']);
        return Some(TokenKind::Break);
    }
    assert(w@ =~= seq!['b', 'r', 'e', 'a', 'k']);
    let w = ['c', 'o', 'n', 't', 'i', 'n', 'u', 'e'];
    if chars_eq(word, &w) {
        assert(w@ =~= seq!['c', 'o', 'n', 't', 'i', 'n', 'u', 'e']);
        return Some(TokenKind::Continue);
    }
    assert(w@ =~= seq!['c', 'o', 'n', 't', 'i', 'n', 'u', 'e']);
    let w = ['t', 'y', 'p', 'e'];
    if chars_eq(word, &w) {
        assert(w@ =~= seq!['t', 'y', 'p', 'e']);
        return Some(TokenKind::Type);
    }
    assert(w@ =~= seq!['t', 'y', 'p', 'e']);
    let w = ['i', 'm', 'p', 'l'];
    if chars_eq(word, &w) {
        assert(w@ =~= seq!['i', 'm', 'p', 'l']);
        return Some(TokenKind::Impl);
    }
    assert(w@ =~= seq!['i', 'm', 'p', 'l']);
    let w = ['m', 'o', 'd'];
    if chars_eq(word, &w) {
        assert(w@ =~= seq!['m', 'o', 'd']);
        return Some(TokenKind::Mod);
    }
    assert(w@ =~= seq!['m', 'o', 'd']);
    let w = ['u', 's', 'e'];
    if chars_eq(word, &w) {
        assert(w@ =~= seq!['u', 's', 'e']);
        return Some(TokenKind::Use);
    }
    assert(w@ =~= seq!['u', 's', 'e']);
    let w = ['p', 'u', 'b'];
    if chars_eq(word, &w) {
        assert(w@ =~= seq!['p', 'u', 'b']);
        return Some(TokenKind::Pub);
    }
    assert(w@ =~= seq!['p', 'u', 'b']);
    let w = ['o', 'w', 'n'];
    if chars_eq(word, &w) {
        assert(w@ =~= seq!['o', 'w', 'n']);
        return Some(TokenKind::Own);
    }
    assert(w@ =~= seq!['o', 'w', 'n']);
    let w = ['b', 'o', 'r', 'r', 'o', 'w'];
    if chars_eq(word, &w) {
        assert(w@ =~= seq!['b', 'o', 'r', 'r', 'o', 'w']);
        return Some(TokenKind::Borrow);
    }
    assert(w@ =~= seq!['b', 'o', 'r', 'r', 'o', 'w']);
    let w = ['t', 'a', 's', 'k'];
    if chars_eq(word, &w) {
        assert(w@ =~= seq!['t', 'a', 's', 'k']);
        return Some(TokenKind::Task);
    }
    assert(w@ =~= seq!['t', 'a', 's', 'k']);
    let w = ['g', 'o'];
    if chars_eq(word, &w) {
        assert(w@ =~= seq!['g', 'o']);
        return Some(TokenKind::Go);
    }
    assert(w@ =~= seq!['g', 'o']);
    let w = ['m', 'a', 't', 'c', 'h'];
    if chars_eq(word, &w) {
        assert(w@ =~= seq!['m', 'a', 't', 'c', 'h']);
        return Some(TokenKind::Match);
    }
    assert(w@ =~= seq!['m', 'a', 't', 'c', 'h']);
    let w = ['t', 'r', 'a', 'i', 't'];
    if chars_eq(word, &w) {
        assert(w@ =~= seq!['t', 'r', 'a', 'i', 't']);
        return Some(TokenKind::Trait);
    }
    assert(w@ =~= seq!['t', 'r', 'a', 'i', 't']);
    let w = ['a', 's', 'y', 'n', 'c'];
    if chars_eq(word, &w) {
        assert(w@ =~= seq!['a', 's', 'y', 'n', 'c']);
        return Some(TokenKind::Async);
    }
    assert(w@ =~= seq!['a', 's', 'y', 'n', 'c']);
    let w = ['a', 'w', 'a', 'i', 't'];
    if chars_eq(word, &w) {
        assert(w@ =~= seq!['a', 'w', 'a', 'i', 't']);
        return Some(TokenKind::Await);
    }
    assert(w@ =~= seq!['a', 'w', 'a', 'i', 't']);
    let w = ['t', 'r', 'u', 'e'];
    if chars_eq(word, &w) {
        assert(w@ =~= seq!['t', 'r', 'u', 'e']);
        return Some(TokenKind::True);
    }
    assert(w@ =~= seq!['t', 'r', 'u', 'e']);
    let w = ['f', 'a', 'l', 's', 'e'];
    if chars_eq(word, &w) {
        assert(w@ =~= seq!['f', 'a', 'l', 's', 'e']);
        return Some(TokenKind::False);
    }
    assert(w@ =~= seq!['f', 'a', 'l', 's', 'e']);
    let w = ['a', 'n', 'd'];
    if chars_eq(word, &w) {
        assert(w@ =~= seq!['a', 'n', 'd']);
        return Some(TokenKind::And);
    }
    assert(w@ =~= seq!['a', 'n', 'd']);
    let w = ['o', 'r'];
    if chars_eq(word, &w) {
        assert(w@ =~= seq!['o', 'r']);
        return Some(TokenKind::Or);
    }
    assert(w@ =~= seq!['o', 'r']);
    let w = ['n', 'o', 't'];
    if chars_eq(word, &w) {
        assert(w@ =~= seq!['n', 'o', 't']);
        return Some(TokenKind::Not);
    }
    assert(w@ =~= seq!['n', 'o', 't']);
    let w = ['e', 'n', 'u', 'm'];
    if chars_eq(word, &w) {
        assert(w@ =~= seq!['e', 'n', 'u', 'm']);
        return Some(TokenKind::Enum);
    }
    assert(w@ =~= seq!['e', 'n', 'u', 'm']);
    let w = ['c', 'o', 'n', 's', 't'];
    if chars_eq(word, &w) {
        assert(w@ =~= seq!['c', 'o', 'n', 's', 't']);
        return Some(TokenKind::Const);
    }
    assert(w@ =~= seq!['c', 'o', 'n', 's', 't']);
    let w = ['y', 'i', 'e', 'l', 'd'];
    if chars_eq(word, &w) {
        assert(w@ =~= seq!['y', 'i', 'e', 'l', 'd']);
        return Some(TokenKind::Yield);
    }
    assert(w@ =~= seq!['y', 'i', 'e', 'l', 'd']);
    let w = ['a', 's'];
    if chars_eq(word, &w) {
        assert(w@ =~= seq!['a', 's']);
        return Some(TokenKind::As);
    }
    assert(w@ =~= seq!['a', 's']);
    let w = ['s', 'e', 'l', 'f'];
    if chars_eq(word, &w) {
        assert(w@ =~= seq!['s', 'e', 'l', 'f']);
        return Some(TokenKind::SelfValue);
    }
    assert(w@ =~= seq!['s', 'e', 'l', 'f']);
    let w = ['n', 'u', 'l', 'l'];
    if chars_eq(word, &w) {
        assert(w@ =~= seq!['n', 'u', 'l', 'l']);
        return Some(TokenKind::Null);
    }
    assert(w@ =~= seq!['n', 'u', 'l', 'l']);
    None
}

/// A token: its kind, where it starts (1-based line and column) and its text.
#[derive(Debug, Clone, PartialEq)]
pub struct Token {
    pub kind: TokenKind,
    pub line: usize,
    pub col: usize,
    pub lexeme: String,
}

impl Token {
    /// A token of `kind` starting at `line`, `col`, spelled `lexeme`.
    pub fn new(kind: TokenKind, line: usize, col: usize, lexeme: String) -> (t: Self)
        ensures
            t.kind == kind,
            t.line == line,
            t.col == col,
            t.lexeme == lexeme,
    {
        Token { kind, line, col, lexeme }
    }
}

} // verus!
