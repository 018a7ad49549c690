//! The lexer: source text to tokens.
//!
//! Spaces, tabs and carriage returns separate tokens; `--` starts a comment to the
//! end of the line and `--|` one that ends at `|--`. A newline is a token of its own
//! (the token list leaves it out). A character that starts no token ends the list:
//! it becomes the final `Eof` token, spelled as that character.
use vstd::prelude::*;
use vstd::string::StringExecFns;
use crate::token::{keyword_kind, lookup_keyword, Token, TokenKind, TokenKindView};
use crate::text::{
    ascii_digit, chars_of, is_alphabetic, is_alphanumeric, push_char, string_of, unicode_alphabetic,
    unicode_alphanumeric,
};

verus! {

// ---------------------------------------------------------------------------
// Positions
// ---------------------------------------------------------------------------

/// The character at `i`, or NUL past the end.
pub open spec fn at(s: Seq<char>, i: int) -> char {
    if 0 <= i < s.len() {
        s[i]
    } else {
        '\0'
    }
}

/// The 1-based line of position `p`.
pub open spec fn line_at(s: Seq<char>, p: int) -> int
    decreases p,
{
    if p <= 0 {
        1
    } else {
        line_at(s, p - 1) + if at(s, p - 1) == '\n' {
            1int
        } else {
            0
        }
    }
}

/// The 1-based column of position `p`.
pub open spec fn col_at(s: Seq<char>, p: int) -> int
    decreases p,
{
    if p <= 0 {
        1
    } else if at(s, p - 1) == '\n' {
        1
    } else {
        col_at(s, p - 1) + 1
    }
}

// ---------------------------------------------------------------------------
// Skipping
// ---------------------------------------------------------------------------

/// Space, tab or carriage return.
pub open spec fn is_space(c: char) -> bool {
    c == ' ' || c == '\t' || c == '\r'
}

/// The first position from `p` that is not a space.
pub open spec fn skip_spaces(s: Seq<char>, p: int) -> int
    decreases s.len() - p,
{
    if 0 <= p < s.len() && is_space(s[p]) {
        skip_spaces(s, p + 1)
    } else {
        p
    }
}

/// The end of a line comment: the next newline or the end.
pub open spec fn skip_line(s: Seq<char>, p: int) -> int
    decreases s.len() - p,
{
    if 0 <= p < s.len() && s[p] != '\n' {
        skip_line(s, p + 1)
    } else {
        p
    }
}

/// The end of a block comment whose body starts at `p`: just past `|--`, or the end.
pub open spec fn skip_block(s: Seq<char>, p: int) -> int
    decreases s.len() - p,
{
    if p < 0 || p >= s.len() {
        p
    } else if s[p] == '|' && at(s, p + 1) == '-' && p + 2 < s.len() && s[p + 2] == '-' {
        p + 3
    } else {
        skip_block(s, p + 1)
    }
}

/// Skipping never moves backwards nor past the end.
pub proof fn lemma_skip_bounds(s: Seq<char>, p: int)
    requires
        0 <= p <= s.len(),
    ensures
        p <= skip_spaces(s, p) <= s.len(),
        p <= skip_line(s, p) <= s.len(),
        p <= skip_block(s, p) <= s.len(),
    decreases s.len() - p,
{
    if p < s.len() {
        lemma_skip_bounds(s, p + 1);
    }
}

/// The first position from `p` that is neither a space nor inside a comment.
pub open spec fn skip_trivia(s: Seq<char>, p: int) -> int
    decreases s.len() - p,
{
    if p < 0 || p > s.len() {
        p
    } else {
        let q = skip_spaces(s, p);
        proof {
            lemma_skip_bounds(s, p);
        }
        if q < s.len() && s[q] == '-' && at(s, q + 1) == '-' {
            let r = q + 2;
            if r < s.len() && s[r] == '|' {
                proof {
                    lemma_skip_bounds(s, r + 1);
                }
                skip_trivia(s, skip_block(s, r + 1))
            } else {
                proof {
                    lemma_skip_bounds(s, r);
                }
                skip_trivia(s, skip_line(s, r))
            }
        } else {
            q
        }
    }
}

// ---------------------------------------------------------------------------
// Tokens
// ---------------------------------------------------------------------------

/// The contents of a string literal whose body starts at `q`, escapes resolved, and
/// where the body ends (at the closing quote or past the end).
pub open spec fn string_body(s: Seq<char>, q: int) -> (Seq<char>, int)
    decreases s.len() + 2 - q,
{
    if q < 0 || q >= s.len() || s[q] == '"' {
        (Seq::empty(), q)
    } else if s[q] == '\\' {
        let c = at(s, q + 1);
        let esc = if c == 'n' {
            seq!['\n']
        } else if c == 't' {
            seq!['\t']
        } else if c == 'r' {
            seq!['\r']
        } else if c == '"' {
            seq!['"']
        } else if c == '\\' {
            seq!['\\']
        } else {
            seq!['\\', c]
        };
        let (rest, e) = string_body(s, q + 2);
        (esc + rest, e)
    } else {
        let (rest, e) = string_body(s, q + 1);
        (seq![s[q]] + rest, e)
    }
}

/// The character a character literal starting at `p` stands for, and where the
/// literal ends.
pub open spec fn char_literal(s: Seq<char>, p: int) -> (char, int) {
    let q = p + 1;
    let (ch, r) = if at(s, q) == '\\' {
        let c = at(s, q + 1);
        (if c == 'n' {
            '\n'
        } else if c == 't' {
            '\t'
        } else {
            c
        }, q + 2)
    } else {
        (at(s, q), q + 1)
    };
    (ch, if r < s.len() && s[r] == '\'' {
        r + 1
    } else {
        r
    })
}

/// The end of the run of ASCII digits from `p`.
pub open spec fn skip_digits(s: Seq<char>, p: int) -> int
    decreases s.len() - p,
{
    if 0 <= p < s.len() && ascii_digit(s[p]) {
        skip_digits(s, p + 1)
    } else {
        p
    }
}

/// The value of a string of ASCII digits.
pub open spec fn digits_value(t: Seq<char>) -> int
    decreases t.len(),
{
    if t.len() == 0 {
        0
    } else {
        digits_value(t.drop_last()) * 10 + (t.last() as int - '0' as int)
    }
}

/// Whether `c` continues an identifier.
pub open spec fn ident_char(c: char) -> bool {
    unicode_alphanumeric(c) || c == '_'
}

/// The end of the identifier characters from `p`.
pub open spec fn skip_ident(s: Seq<char>, p: int) -> int
    decreases s.len() - p,
{
    if 0 <= p < s.len() && ident_char(s[p]) {
        skip_ident(s, p + 1)
    } else {
        p
    }
}

/// An operator or punctuation token starting at `p`: its kind, spelling and end. A
/// character that starts no token gives `Eof`, spelled as that character.
pub open spec fn operator_token(s: Seq<char>, p: int) -> (TokenKindView, Seq<char>, int) {
    let c = s[p];
    let n = at(s, p + 1);
    let n2 = at(s, p + 2);
    if c == '+' {
        if n == '+' {
            (TokenKindView::Concat, "++"@, p + 2)
        } else if n == '=' {
            (TokenKindView::PlusEq, "+="@, p + 2)
        } else {
            (TokenKindView::Plus, "+"@, p + 1)
        }
    } else if c == '-' {
        if n == '>' {
            (TokenKindView::Arrow, "->"@, p + 2)
        } else if n == '=' {
            (TokenKindView::MinusEq, "-="@, p + 2)
        } else {
            (TokenKindView::Minus, "-"@, p + 1)
        }
    } else if c == '*' {
        if n == '=' {
            (TokenKindView::StarEq, "*="@, p + 2)
        } else {
            (TokenKindView::Star, "*"@, p + 1)
        }
    } else if c == '/' {
        if n == '=' {
            (TokenKindView::SlashEq, "/="@, p + 2)
        } else {
            (TokenKindView::Slash, "/"@, p + 1)
        }
    } else if c == '%' {
        (TokenKindView::Percent, "%"@, p + 1)
    } else if c == '=' {
        if n == '=' {
            (TokenKindView::Eq, "=="@, p + 2)
        } else if n == '>' {
            (TokenKindView::FatArrow, "=>"@, p + 2)
        } else {
            (TokenKindView::Assign, "="@, p + 1)
        }
    } else if c == '!' {
        if n == '=' {
            (TokenKindView::Neq, "!="@, p + 2)
        } else {
            (TokenKindView::Not, "!"@, p + 1)
        }
    } else if c == '<' {
        if n == '=' {
            (TokenKindView::Lte, "<="@, p + 2)
        } else if n == '-' {
            (TokenKindView::Lt, "<-"@, p + 2)
        } else {
            (TokenKindView::Lt, "<"@, p + 1)
        }
    } else if c == '>' {
        if n == '=' {
            (TokenKindView::Gte, ">="@, p + 2)
        } else {
            (TokenKindView::Gt, ">"@, p + 1)
        }
    } else if c == ':' {
        if n == ':' {
            (TokenKindView::Colon2, "::"@, p + 2)
        } else {
            (TokenKindView::Colon, ":"@, p + 1)
        }
    } else if c == '.' {
        if n == '.' {
            if n2 == '=' {
                (TokenKindView::DotDotEq, "..="@, p + 3)
            } else {
                (TokenKindView::DotDot, ".."@, p + 2)
            }
        } else {
            (TokenKindView::Dot, "."@, p + 1)
        }
    } else if c == ',' {
        (TokenKindView::Comma, ","@, p + 1)
    } else if c == '(' {
        (TokenKindView::LParen, "("@, p + 1)
    } else if c == ')' {
        (TokenKindView::RParen, ")"@, p + 1)
    } else if c == '{' {
        (TokenKindView::LBrace, "{"@, p + 1)
    } else if c == '}' {
        (TokenKindView::RBrace, "}"@, p + 1)
    } else if c == '[' {
        (TokenKindView::LBracket, "["@, p + 1)
    } else if c == ']' {
        (TokenKindView::RBracket, "]"@, p + 1)
    } else if c == '|' {
        if n == '>' {
            (TokenKindView::Pipe, "|>"@, p + 2)
        } else {
            (TokenKindView::Bar, "|"@, p + 1)
        }
    } else if c == '&' {
        (TokenKindView::Ampersand, "&"@, p + 1)
    } else if c == '?' {
        if n == '?' {
            (TokenKindView::Question2, "??"@, p + 2)
        } else {
            (TokenKindView::Question, "?"@, p + 1)
        }
    } else {
        (TokenKindView::Eof, seq![c], p + 1)
    }
}

/// The token starting at `p` (a position inside the text that is not trivia): its
/// kind, spelling and end.
pub open spec fn scan(s: Seq<char>, p: int) -> (TokenKindView, Seq<char>, int) {
    let c = s[p];
    if c == '\n' {
        (TokenKindView::Newline, "\n"@, p + 1)
    } else if c == '"' {
        let (body, e) = string_body(s, p + 1);
        (TokenKindView::String(body), seq!['"'] + body + seq!['"'], if e < s.len() {
            e + 1
        } else {
            e
        })
    } else if c == '\'' {
        let (ch, e) = char_literal(s, p);
        (TokenKindView::Char(ch), seq!['\'', ch, '\''], e)
    } else if ascii_digit(c) {
        let d = skip_digits(s, p);
        if d < s.len() && s[d] == '.' && ascii_digit(at(s, d + 1)) {
            let f = skip_digits(s, d + 1);
            (TokenKindView::Float(s.subrange(p, f)), s.subrange(p, f), f)
        } else {
            let t = s.subrange(p, d);
            let v = digits_value(t);
            (TokenKindView::Integer(if v <= i64::MAX {
                v as i64
            } else {
                0
            }), t, d)
        }
    } else if unicode_alphabetic(c) || c == '_' {
        let e = skip_ident(s, p + 1);
        let t = s.subrange(p, e);
        (match keyword_kind(t) {
            Some(k) => k,
            None => TokenKindView::Ident(t),
        }, t, e)
    } else {
        operator_token(s, p)
    }
}

/// A token as the specification sees it: kind, line, column and spelling.
pub type TokenModel = (TokenKindView, int, int, Seq<char>);

/// The model of `t`.
pub open spec fn token_model(t: Token) -> TokenModel {
    (t.kind@, t.line as int, t.col as int, t.lexeme@)
}


proof fn lemma_string_body_end(s: Seq<char>, q: int)
    requires
        0 <= q <= s.len() + 1,
    ensures
        q <= string_body(s, q).1 <= s.len() + 1,
    decreases s.len() + 2 - q,
{
    if q < s.len() && s[q] != '"' {
        if s[q] == '\\' {
            lemma_string_body_end(s, q + 2);
        } else {
            lemma_string_body_end(s, q + 1);
        }
    }
}

proof fn lemma_skip_ident_bounds(s: Seq<char>, p: int)
    requires
        0 <= p <= s.len(),
    ensures
        p <= skip_ident(s, p) <= s.len(),
    decreases s.len() - p,
{
    if p < s.len() {
        lemma_skip_ident_bounds(s, p + 1);
    }
}

/// Every token takes at least one character and ends at most one past the end.
pub proof fn lemma_scan_progress(s: Seq<char>, q: int)
    requires
        0 <= q < s.len(),
    ensures
        q < scan(s, q).2 <= s.len() + 1,
{
    lemma_string_body_end(s, q + 1);
    lemma_skip_digits_bounds(s, q);
    lemma_skip_digits_bounds(s, q + 1);
    lemma_skip_ident_bounds(s, q + 1);
    let d = skip_digits(s, q);
    if d < s.len() {
        lemma_skip_digits_bounds(s, d + 1);
    }
}

/// The tokens from position `p` on: every token but newlines, up to and including
/// the first `Eof` (the end of the text, or a character that starts no token).
pub open spec fn tokens_from(s: Seq<char>, p: int) -> Seq<TokenModel>
    decreases s.len() + 2 - p,
{
    let q = skip_trivia(s, p);
    if p < 0 || p > s.len() + 1 || q >= s.len() || q < 0 {
        seq![(TokenKindView::Eof, line_at(s, q), col_at(s, q), Seq::<char>::empty())]
    } else {
        let (k, lex, e) = scan(s, q);
        let t = (k, line_at(s, q), col_at(s, q), lex);
        proof {
            lemma_skip_trivia_bounds(s, p);
            lemma_scan_progress(s, q);
        }
        if k == TokenKindView::Eof {
            seq![t]
        } else if k == TokenKindView::Newline {
            tokens_from(s, e)
        } else {
            seq![t] + tokens_from(s, e)
        }
    }
}

// ---------------------------------------------------------------------------
// The lexer
// ---------------------------------------------------------------------------

/// A lexer over one source text.
pub struct Lexer {
    source: Vec<char>,
    pos: usize,
    line: usize,
    col: usize,
}

impl Lexer {
    /// The source text.
    pub closed spec fn src(&self) -> Seq<char> {
        self.source@
    }

    /// The current position.
    pub closed spec fn position(&self) -> int {
        self.pos as int
    }

    /// The line and column track the position, which is at most one past the end.
    pub closed spec fn wf(&self) -> bool {
        &&& self.pos <= self.source@.len() + 1
        &&& self.line == line_at(self.source@, self.pos as int)
        &&& self.col == col_at(self.source@, self.pos as int)
        &&& self.source@.len() + 3 <= usize::MAX
    }

    /// A lexer at the start of `source`.
    pub fn new(source: &str) -> (l: Self)
        requires
            source@.len() + 3 <= usize::MAX,
        ensures
            l.wf(),
            l.src() == source@,
            l.position() == 0,
    {
        Lexer { source: chars_of(source), pos: 0, line: 1, col: 1 }
    }

    fn current(&self) -> (c: char)
        requires
            self.wf(),
        ensures
            c == at(self.src(), self.position()),
    {
        if self.pos < self.source.len() {
            self.source[self.pos]
        } else {
            '\0'
        }
    }

    fn peek(&self) -> (c: char)
        requires
            self.wf(),
        ensures
            c == at(self.src(), self.position() + 1),
    {
        if self.pos + 1 < self.source.len() {
            self.source[self.pos + 1]
        } else {
            '\0'
        }
    }

    proof fn lemma_line_col_bounds(&self)
        requires
            self.wf(),
        ensures
            1 <= self.line <= self.pos + 1,
            1 <= self.col <= self.pos + 1,
    {
        lemma_line_col_le(self.source@, self.pos as int);
    }

    fn advance(&mut self) -> (c: char)
        requires
            old(self).wf(),
            old(self).position() <= old(self).src().len(),
        ensures
            final(self).wf(),
            final(self).src() == old(self).src(),
            final(self).position() == old(self).position() + 1,
            c == at(old(self).src(), old(self).position()),
    {
        proof {
            self.lemma_line_col_bounds();
        }
        let ch = self.current();
        self.pos = self.pos + 1;
        if ch == '\n' {
            self.line = self.line + 1;
            self.col = 1;
        } else {
            self.col = self.col + 1;
        }
        ch
    }
}

proof fn lemma_line_col_le(s: Seq<char>, p: int)
    requires
        0 <= p,
    ensures
        1 <= line_at(s, p) <= p + 1,
        1 <= col_at(s, p) <= p + 1,
    decreases p,
{
    if p > 0 {
        lemma_line_col_le(s, p - 1);
    }
}


impl Lexer {
    fn skip_line_comment(&mut self)
        requires
            old(self).wf(),
            old(self).position() <= old(self).src().len(),
        ensures
            final(self).wf(),
            final(self).src() == old(self).src(),
            final(self).position() == skip_line(old(self).src(), old(self).position()),
    {
        while self.pos < self.source.len() && self.current() != '\n'
            invariant
                self.wf(),
                self.src() == old(self).src(),
                self.position() <= self.src().len(),
                skip_line(self.src(), self.position()) == skip_line(old(self).src(), old(self).position()),
            decreases self.src().len() - self.position(),
        {
            self.advance();
        }
    }

    fn skip_block_comment(&mut self)
        requires
            old(self).wf(),
            old(self).position() <= old(self).src().len(),
        ensures
            final(self).wf(),
            final(self).src() == old(self).src(),
            final(self).position() == skip_block(old(self).src(), old(self).position()),
    {
        loop
            invariant_except_break
                self.wf(),
                self.src() == old(self).src(),
                self.position() <= self.src().len(),
                skip_block(self.src(), self.position()) == skip_block(old(self).src(), old(self).position()),
            ensures
                self.wf(),
                self.src() == old(self).src(),
                self.position() == skip_block(old(self).src(), old(self).position()),
            decreases self.src().len() - self.position(),
        {
            if self.pos >= self.source.len() {
                break;
            }
            if self.current() == '|' && self.peek() == '-' && self.pos + 2 < self.source.len() {
                let next_ch = self.source[self.pos + 2];
                if next_ch == '-' {
                    self.advance();
                    self.advance();
                    self.advance();
                    break;
                }
            }
            self.advance();
        }
    }

    fn skip_whitespace_and_comments(&mut self)
        requires
            old(self).wf(),
        ensures
            final(self).wf(),
            final(self).src() == old(self).src(),
            final(self).position() == skip_trivia(old(self).src(), old(self).position()),
    {
        let ghost s = self.src();
        loop
            invariant
                self.wf(),
                self.src() == s,
                s == old(self).src(),
                old(self).position() <= self.position(),
                skip_trivia(s, self.position()) == skip_trivia(s, old(self).position()),
            ensures
                self.wf(),
                self.src() == s,
                self.position() == skip_trivia(s, old(self).position()),
            decreases s.len() + 2 - self.position(),
        {
            let ghost p = self.position();
            while self.pos < self.source.len() && (self.current() == ' ' || self.current() == '\t' || self.current()
                == '\r')
                invariant
                    self.wf(),
                    self.src() == s,
                    p <= self.position(),
                    p <= s.len() ==> self.position() <= s.len(),
                    p <= s.len() ==> skip_spaces(s, self.position()) == skip_spaces(s, p),
                    p > s.len() ==> self.position() == p,
                decreases s.len() + 2 - self.position(),
            {
                self.advance();
            }
            if self.pos < self.source.len() && self.current() == '-' && self.peek() == '-' {
                let ghost q = self.position();
                self.advance();
                self.advance();
                if self.pos < self.source.len() && self.current() == '|' {
                    self.advance();
                    self.skip_block_comment();
                    proof {
                        lemma_skip_bounds(s, q + 3);
                    }
                } else {
                    self.skip_line_comment();
                    proof {
                        lemma_skip_bounds(s, q + 2);
                    }
                }
                assert(skip_trivia(s, p) == skip_trivia(s, self.position()));
                continue;
            }
            assert(skip_trivia(s, p) == self.position());
            break;
        }
    }
}


impl Lexer {
    fn read_string(&mut self, line: usize, col: usize) -> (t: Token)
        requires
            old(self).wf(),
            old(self).position() < old(self).src().len(),
            old(self).src()[old(self).position()] == '"',
        ensures
            final(self).wf(),
            final(self).src() == old(self).src(),
            ({
                let (k, lex, e) = scan(old(self).src(), old(self).position());
                &&& token_model(t) == (k, line as int, col as int, lex)
                &&& final(self).position() == e
            }),
            final(self).position() > old(self).position(),
    {
        let ghost s = self.src();
        let ghost p = self.position();
        self.advance();
        let mut text = String::new();
        assert(text@ + string_body(s, p + 1).0 =~= string_body(s, p + 1).0);
        while self.pos < self.source.len() && self.current() != '"'
            invariant
                self.wf(),
                self.src() == s,
                p + 1 <= self.position() <= s.len() + 1,
                string_body(s, p + 1).0 == text@ + string_body(s, self.position()).0,
                string_body(s, p + 1).1 == string_body(s, self.position()).1,
            decreases s.len() + 2 - self.position(),
        {
            let ghost q = self.position();
            let ghost t0 = text@;
            if self.current() == '\\' {
                self.advance();
                let c = self.current();
                if c == 'n' {
                    push_char(&mut text, '\n');
                    self.advance();
                } else if c == 't' {
                    push_char(&mut text, '\t');
                    self.advance();
                } else if c == 'r' {
                    push_char(&mut text, '\r');
                    self.advance();
                } else if c == '"' {
                    push_char(&mut text, '"');
                    self.advance();
                } else if c == '\\' {
                    push_char(&mut text, '\\');
                    self.advance();
                } else {
                    push_char(&mut text, '\\');
                    push_char(&mut text, c);
                    self.advance();
                }
            } else {
                let c = self.advance();
                push_char(&mut text, c);
            }
            assert(t0 + string_body(s, q).0 =~= text@ + string_body(s, self.position()).0);
        }
        assert(text@ =~= string_body(s, p + 1).0);
        if self.pos < self.source.len() {
            self.advance();
        }
        let mut lexeme = String::new();
        push_char(&mut lexeme, '"');
        lexeme.append(text.as_str());
        push_char(&mut lexeme, '"');
        assert(lexeme@ =~= seq!['"'] + text@ + seq!['"']);
        Token::new(TokenKind::String(text), line, col, lexeme)
    }

    fn read_char(&mut self, line: usize, col: usize) -> (t: Token)
        requires
            old(self).wf(),
            old(self).position() < old(self).src().len(),
            old(self).src()[old(self).position()] == '\'',
        ensures
            final(self).wf(),
            final(self).src() == old(self).src(),
            ({
                let (k, lex, e) = scan(old(self).src(), old(self).position());
                &&& token_model(t) == (k, line as int, col as int, lex)
                &&& final(self).position() == e
            }),
    {
        self.advance();
        let ch = if self.current() == '\\' {
            self.advance();
            let c = self.current();
            if c == 'n' {
                self.advance();
                '\n'
            } else if c == 't' {
                self.advance();
                '\t'
            } else if c == '\'' {
                self.advance();
                '\''
            } else if c == '\\' {
                self.advance();
                '\\'
            } else {
                self.advance();
                c
            }
        } else {
            self.advance()
        };
        if self.pos < self.source.len() && self.current() == '\'' {
            self.advance();
        }
        let mut lexeme = String::new();
        push_char(&mut lexeme, '\'');
        push_char(&mut lexeme, ch);
        push_char(&mut lexeme, '\'');
        assert(lexeme@ =~= seq!['\'', ch, '\'']);
        Token::new(TokenKind::Char(ch), line, col, lexeme)
    }

    fn read_digits(&mut self, text: &mut Vec<char>)
        requires
            old(self).wf(),
            old(self).position() <= old(self).src().len(),
        ensures
            final(self).wf(),
            final(self).src() == old(self).src(),
            final(self).position() == skip_digits(old(self).src(), old(self).position()),
            final(text)@ == old(text)@ + old(self).src().subrange(old(self).position(), final(self).position()),
    {
        let ghost s = self.src();
        let ghost p = self.position();
        while self.pos < self.source.len() && self.current() >= '0' && self.current() <= '9'
            invariant
                self.wf(),
                self.src() == s,
                0 <= p <= self.position() <= s.len(),
                skip_digits(s, self.position()) == skip_digits(s, p),
                text@ == old(text)@ + s.subrange(p, self.position()),
            decreases s.len() - self.position(),
        {
            let ghost q = self.position();
            let c = self.advance();
            text.push(c);
            assert(q < s.len());
            assert(self.position() == q + 1);
            assert(c == s[q]);
            assert(s.subrange(p, q + 1) =~= s.subrange(p, q).push(c));
        }
    }

    fn read_number(&mut self, line: usize, col: usize) -> (t: Token)
        requires
            old(self).wf(),
            old(self).position() < old(self).src().len(),
            ascii_digit(old(self).src()[old(self).position()]),
        ensures
            final(self).wf(),
            final(self).src() == old(self).src(),
            ({
                let (k, lex, e) = scan(old(self).src(), old(self).position());
                &&& token_model(t) == (k, line as int, col as int, lex)
                &&& final(self).position() == e
            }),
            final(self).position() > old(self).position(),
    {
        let ghost s = self.src();
        let ghost p = self.position();
        let mut digits: Vec<char> = Vec::new();
        self.read_digits(&mut digits);
        let ghost d = self.position();
        proof {
            lemma_skip_digits_bounds(s, p);
            lemma_skip_digits_bounds(s, p + 1);
            assert(d > p);
        }
        if self.pos < self.source.len() && self.current() == '.' && self.peek() >= '0' && self.peek() <= '9' {
            self.advance();
            digits.push('.');
            proof {
                lemma_skip_digits_bounds(s, d + 1);
            }
            self.read_digits(&mut digits);
            assert(digits@ =~= s.subrange(p, self.position()));
            let text = string_of(digits.as_slice());
            let lexeme = string_of(digits.as_slice());
            Token::new(TokenKind::Float(text), line, col, lexeme)
        } else {
            assert(digits@ =~= s.subrange(p, d));
            proof {
                lemma_skip_digits_all(s, p);
            }
            let v = parse_digits(digits.as_slice());
            let lexeme = string_of(digits.as_slice());
            Token::new(TokenKind::Integer(v), line, col, lexeme)
        }
    }

    fn read_ident_or_keyword(&mut self, line: usize, col: usize) -> (t: Token)
        requires
            old(self).wf(),
            old(self).position() < old(self).src().len(),
            unicode_alphabetic(old(self).src()[old(self).position()]) || old(self).src()[old(self).position()] == '_',
            !ascii_digit(old(self).src()[old(self).position()]),
            old(self).src()[old(self).position()] != '\n',
            old(self).src()[old(self).position()] != '"',
            old(self).src()[old(self).position()] != '\'',
        ensures
            final(self).wf(),
            final(self).src() == old(self).src(),
            ({
                let (k, lex, e) = scan(old(self).src(), old(self).position());
                &&& token_model(t) == (k, line as int, col as int, lex)
                &&& final(self).position() == e
            }),
            final(self).position() > old(self).position(),
    {
        let ghost s = self.src();
        let ghost p = self.position();
        let mut ident: Vec<char> = Vec::new();
        while self.pos < self.source.len() && (is_alphanumeric(self.current()) || self.current() == '_')
            invariant
                self.wf(),
                self.src() == s,
                0 <= p <= self.position() <= s.len(),
                skip_ident(s, self.position()) == skip_ident(s, p),
                ident@ == s.subrange(p, self.position()),
                self.position() > p ==> ident_char(s[p]),
            decreases s.len() - self.position(),
        {
            let ghost q = self.position();
            let c = self.advance();
            ident.push(c);
            assert(c == s[q]);
            assert(s.subrange(p, q + 1) =~= s.subrange(p, q).push(c));
        }
        assert(skip_ident(s, p) == skip_ident(s, p + 1));
        let lexeme = string_of(ident.as_slice());
        match lookup_keyword(ident.as_slice()) {
            Some(kind) => Token::new(kind, line, col, lexeme),
            None => {
                let name = string_of(ident.as_slice());
                Token::new(TokenKind::Ident(name), line, col, lexeme)
            },
        }
    }

    fn read_operator(&mut self, line: usize, col: usize) -> (t: Token)
        requires
            old(self).wf(),
            old(self).position() < old(self).src().len(),
        ensures
            final(self).wf(),
            final(self).src() == old(self).src(),
            ({
                let (k, lex, e) = operator_token(old(self).src(), old(self).position());
                &&& token_model(t) == (k, line as int, col as int, lex)
                &&& final(self).position() == e
            }),
    {
        let ch = self.advance();
        if ch == '+' {
            if self.current() == '+' {
                self.advance();
                return Token::new(TokenKind::Concat, line, col, String::from_str("++"));
            }
            if self.current() == '=' {
                self.advance();
                return Token::new(TokenKind::PlusEq, line, col, String::from_str("+="));
            }
            Token::new(TokenKind::Plus, line, col, String::from_str("+"))
        } else if ch == '-' {
            if self.current() == '>' {
                self.advance();
                return Token::new(TokenKind::Arrow, line, col, String::from_str("->"));
            }
            if self.current() == '=' {
                self.advance();
                return Token::new(TokenKind::MinusEq, line, col, String::from_str("-="));
            }
            Token::new(TokenKind::Minus, line, col, String::from_str("-"))
        } else if ch == '*' {
            if self.current() == '=' {
                self.advance();
                return Token::new(TokenKind::StarEq, line, col, String::from_str("*="));
            }
            Token::new(TokenKind::Star, line, col, String::from_str("*"))
        } else if ch == '/' {
            if self.current() == '=' {
                self.advance();
                return Token::new(TokenKind::SlashEq, line, col, String::from_str("/="));
            }
            Token::new(TokenKind::Slash, line, col, String::from_str("/"))
        } else if ch == '%' {
            Token::new(TokenKind::Percent, line, col, String::from_str("%"))
        } else if ch == '=' {
            if self.current() == '=' {
                self.advance();
                return Token::new(TokenKind::Eq, line, col, String::from_str("=="));
            }
            if self.current() == '>' {
                self.advance();
                return Token::new(TokenKind::FatArrow, line, col, String::from_str("=>"));
            }
            Token::new(TokenKind::Assign, line, col, String::from_str("="))
        } else if ch == '!' {
            if self.current() == '=' {
                self.advance();
                return Token::new(TokenKind::Neq, line, col, String::from_str("!="));
            }
            Token::new(TokenKind::Not, line, col, String::from_str("!"))
        } else if ch == '<' {
            if self.current() == '=' {
                self.advance();
                return Token::new(TokenKind::Lte, line, col, String::from_str("<="));
            }
            if self.current() == '-' {
                self.advance();
                return Token::new(TokenKind::Lt, line, col, String::from_str("<-"));
            }
            Token::new(TokenKind::Lt, line, col, String::from_str("<"))
        } else if ch == '>' {
            if self.current() == '=' {
                self.advance();
                return Token::new(TokenKind::Gte, line, col, String::from_str(">="));
            }
            Token::new(TokenKind::Gt, line, col, String::from_str(">"))
        } else if ch == ':' {
            if self.current() == ':' {
                self.advance();
                return Token::new(TokenKind::Colon2, line, col, String::from_str("::"));
            }
            Token::new(TokenKind::Colon, line, col, String::from_str(":"))
        } else if ch == '.' {
            if self.current() == '.' {
                self.advance();
                if self.current() == '=' {
                    self.advance();
                    return Token::new(TokenKind::DotDotEq, line, col, String::from_str("..="));
                }
                return Token::new(TokenKind::DotDot, line, col, String::from_str(".."));
            }
            Token::new(TokenKind::Dot, line, col, String::from_str("."))
        } else if ch == ',' {
            Token::new(TokenKind::Comma, line, col, String::from_str(","))
        } else if ch == '(' {
            Token::new(TokenKind::LParen, line, col, String::from_str("("))
        } else if ch == ')' {
            Token::new(TokenKind::RParen, line, col, String::from_str(")"))
        } else if ch == '{' {
            Token::new(TokenKind::LBrace, line, col, String::from_str("{"))
        } else if ch == '}' {
            Token::new(TokenKind::RBrace, line, col, String::from_str("}"))
        } else if ch == '[' {
            Token::new(TokenKind::LBracket, line, col, String::from_str("["))
        } else if ch == ']' {
            Token::new(TokenKind::RBracket, line, col, String::from_str("]"))
        } else if ch == '|' {
            if self.current() == '>' {
                self.advance();
                return Token::new(TokenKind::Pipe, line, col, String::from_str("|>"));
            }
            Token::new(TokenKind::Bar, line, col, String::from_str("|"))
        } else if ch == '&' {
            Token::new(TokenKind::Ampersand, line, col, String::from_str("&"))
        } else if ch == '?' {
            if self.current() == '?' {
                self.advance();
                return Token::new(TokenKind::Question2, line, col, String::from_str("??"));
            }
            Token::new(TokenKind::Question, line, col, String::from_str("?"))
        } else {
            let mut lexeme = String::new();
            push_char(&mut lexeme, ch);
            assert(lexeme@ =~= seq![ch]);
            Token::new(TokenKind::Eof, line, col, lexeme)
        }
    }
}

proof fn lemma_skip_digits_all(s: Seq<char>, p: int)
    requires
        0 <= p <= s.len(),
    ensures
        forall|i: int| p <= i < skip_digits(s, p) ==> ascii_digit(#[trigger] s[i]),
        forall|i: int| 0 <= i < skip_digits(s, p) - p ==> ascii_digit(#[trigger] s.subrange(p, skip_digits(s, p))[i]),
    decreases s.len() - p,
{
    if p < s.len() && ascii_digit(s[p]) {
        lemma_skip_digits_all(s, p + 1);
        lemma_skip_digits_bounds(s, p + 1);
        assert forall|i: int| p <= i < skip_digits(s, p) implies ascii_digit(#[trigger] s[i]) by {
            if i > p {
                assert(p + 1 <= i < skip_digits(s, p + 1));
            }
        }
    }
    lemma_skip_digits_bounds(s, p);
    assert forall|i: int| 0 <= i < skip_digits(s, p) - p implies ascii_digit(#[trigger] s.subrange(p, skip_digits(s, p))[i]) by {
        assert(s.subrange(p, skip_digits(s, p))[i] == s[p + i]);
    }
}

/// The run of digits from `p` ends within the text.
pub proof fn lemma_skip_digits_bounds(s: Seq<char>, p: int)
    requires
        0 <= p <= s.len(),
    ensures
        p <= skip_digits(s, p) <= s.len(),
    decreases s.len() - p,
{
    if p < s.len() {
        lemma_skip_digits_bounds(s, p + 1);
    }
}

/// The value of a string of ASCII digits, or 0 when it does not fit in an `i64`.
fn parse_digits(digits: &[char]) -> (v: i64)
    requires
        forall|i: int| 0 <= i < digits@.len() ==> ascii_digit(#[trigger] digits@[i]),
    ensures
        v == if digits_value(digits@) <= i64::MAX {
            digits_value(digits@)
        } else {
            0
        },
{
    let mut value: u64 = 0;
    let mut overflow = false;
    let mut i: usize = 0;
    while i < digits.len()
        invariant
            forall|j: int| 0 <= j < digits@.len() ==> ascii_digit(#[trigger] digits@[j]),
            i <= digits@.len(),
            overflow <==> digits_value(digits@.take(i as int)) > i64::MAX,
            !overflow ==> value == digits_value(digits@.take(i as int)),
            value <= i64::MAX,
            digits_value(digits@.take(i as int)) >= 0,
        decreases digits@.len() - i,
    {
        let c = digits[i];
        assert(digits@.take(i as int + 1).drop_last() =~= digits@.take(i as int));
        let d = (c as u32 - '0' as u32) as u64;
        if !overflow {
            if value > (9223372036854775807u64 - d) / 10 {
                overflow = true;
            } else {
                value = value * 10 + d;
            }
        }
        i = i + 1;
    }
    assert(digits@.take(digits@.len() as int) =~= digits@);
    if overflow {
        0
    } else {
        value as i64
    }
}


/// Skipping trivia never moves backwards nor past the end.
pub proof fn lemma_skip_trivia_bounds(s: Seq<char>, p: int)
    requires
        0 <= p <= s.len() + 1,
    ensures
        p <= skip_trivia(s, p),
        p <= s.len() ==> skip_trivia(s, p) <= s.len(),
        p > s.len() ==> skip_trivia(s, p) == p,
    decreases s.len() - p,
{
    if p <= s.len() {
        lemma_skip_bounds(s, p);
        let q = skip_spaces(s, p);
        if q < s.len() && s[q] == '-' && at(s, q + 1) == '-' {
            let r = q + 2;
            if r < s.len() && s[r] == '|' {
                lemma_skip_bounds(s, r + 1);
                lemma_skip_trivia_bounds(s, skip_block(s, r + 1));
            } else {
                lemma_skip_bounds(s, r);
                lemma_skip_trivia_bounds(s, skip_line(s, r));
            }
        }
    }
}

impl Lexer {
    fn next_token(&mut self) -> (t: Token)
        requires
            old(self).wf(),
        ensures
            final(self).wf(),
            final(self).src() == old(self).src(),
            ({
                let s = old(self).src();
                let q = skip_trivia(s, old(self).position());
                if q >= s.len() {
                    &&& token_model(t) == (TokenKindView::Eof, line_at(s, q), col_at(s, q), Seq::<char>::empty())
                    &&& final(self).position() == q
                } else {
                    let (k, lex, e) = scan(s, q);
                    &&& token_model(t) == (k, line_at(s, q), col_at(s, q), lex)
                    &&& final(self).position() == e
                    &&& e > q
                }
            }),
    {
        self.skip_whitespace_and_comments();
        if self.pos >= self.source.len() {
            return Token::new(TokenKind::Eof, self.line, self.col, String::new());
        }
        let start_line = self.line;
        let start_col = self.col;
        let ch = self.current();
        if ch == '\n' {
            self.advance();
            return Token::new(TokenKind::Newline, start_line, start_col, String::from_str("\n"));
        }
        if ch == '"' {
            return self.read_string(start_line, start_col);
        }
        if ch == '\'' {
            return self.read_char(start_line, start_col);
        }
        if ch >= '0' && ch <= '9' {
            return self.read_number(start_line, start_col);
        }
        if is_alphabetic(ch) || ch == '_' {
            return self.read_ident_or_keyword(start_line, start_col);
        }
        self.read_operator(start_line, start_col)
    }

    /// The tokens of the rest of the text (see `tokens_from`): newlines are dropped
    /// and the list ends with the first `Eof` token.
    pub fn tokenize(&mut self) -> (tokens: Vec<Token>)
        requires
            old(self).wf(),
        ensures
            final(self).wf(),
            final(self).src() == old(self).src(),
            tokens@.map_values(|t: Token| token_model(t)) == tokens_from(old(self).src(), old(self).position()),
    {
        let ghost s = self.src();
        let ghost p0 = self.position();
        let mut tokens: Vec<Token> = Vec::new();
        assert(tokens@.map_values(|t: Token| token_model(t)) + tokens_from(s, p0) =~= tokens_from(s, p0));
        loop
            invariant_except_break
                self.wf(),
                self.src() == s,
                tokens@.map_values(|t: Token| token_model(t)) + tokens_from(s, self.position()) == tokens_from(s, p0),
            ensures
                self.wf(),
                self.src() == s,
                tokens@.map_values(|t: Token| token_model(t)) == tokens_from(s, p0),
            decreases s.len() + 2 - self.position(),
        {
            let ghost p = self.position();
            let ghost before = tokens@.map_values(|t: Token| token_model(t));
            proof {
                lemma_skip_trivia_bounds(s, p);
            }
            let token = self.next_token();
            let is_eof = matches!(token.kind, TokenKind::Eof);
            let is_newline = matches!(token.kind, TokenKind::Newline);
            let ghost m = token_model(token);
            if !is_newline {
                tokens.push(token);
            }
            proof {
                let after = tokens@.map_values(|t: Token| token_model(t));
                if is_newline {
                    assert(after =~= before);
                } else {
                    assert(after =~= before.push(m));
                }
                assert(is_eof <==> m.0 == TokenKindView::Eof);
                assert(is_newline <==> m.0 == TokenKindView::Newline);
                if is_eof {
                    assert(tokens_from(s, p) =~= seq![m]);
                    assert(after =~= before + tokens_from(s, p));
                } else {
                    assert(after + tokens_from(s, self.position()) =~= before + tokens_from(s, p));
                }
            }
            if is_eof {
                break;
            }
        }
        tokens
    }
}


/// The token list ends with exactly one `Eof` token, and holds no newline token.
pub proof fn lemma_tokens_end_with_eof(s: Seq<char>, p: int)
    requires
        0 <= p <= s.len() + 1,
    ensures
        tokens_from(s, p).len() >= 1,
        tokens_from(s, p).last().0 == TokenKindView::Eof,
        forall|i: int| 0 <= i < tokens_from(s, p).len() - 1 ==> (#[trigger] tokens_from(s, p)[i]).0
            != TokenKindView::Eof,
        forall|i: int| 0 <= i < tokens_from(s, p).len() ==> (#[trigger] tokens_from(s, p)[i]).0
            != TokenKindView::Newline,
    decreases s.len() + 2 - p,
{
    lemma_skip_trivia_bounds(s, p);
    let q = skip_trivia(s, p);
    if q < s.len() && q >= 0 {
        lemma_scan_progress(s, q);
        let (k, lex, e) = scan(s, q);
        if k != TokenKindView::Eof {
            lemma_tokens_end_with_eof(s, e);
            let rest = tokens_from(s, e);
            if k != TokenKindView::Newline {
                let t = (k, line_at(s, q), col_at(s, q), lex);
                assert(tokens_from(s, p) == seq![t] + rest);
                assert forall|i: int| 0 <= i < tokens_from(s, p).len() - 1 implies (#[trigger] tokens_from(s, p)[i]).0
                    != TokenKindView::Eof by {
                    if i > 0 {
                        assert(tokens_from(s, p)[i] == rest[i - 1]);
                    }
                }
                assert forall|i: int| 0 <= i < tokens_from(s, p).len() implies (#[trigger] tokens_from(s, p)[i]).0
                    != TokenKindView::Newline by {
                    if i > 0 {
                        assert(tokens_from(s, p)[i] == rest[i - 1]);
                    }
                }
            }
        }
    }
}

} // verus!
