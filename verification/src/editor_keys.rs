//! The editor's key handling as a decision on plain values: given the text (UTF-16),
//! the selection and a key, the edit to make. Pairs of brackets and quotes are typed and
//! deleted together, a closing character already in place is stepped over, Tab inserts
//! four spaces, Enter keeps the current line's indentation, and Ctrl+/ toggles a `--`
//! comment on the current line.
use vstd::prelude::*;

verus! {

/// A key event of the edit control: a key going down (with Ctrl held or not), or a
/// character typed.
#[derive(Debug, Clone, Copy, PartialEq, Eq, Structural)]
pub enum EditorKey {
    KeyDown { vk: u32, ctrl: bool },
    Char(u32),
}

/// The edit to make for a key.
#[derive(Debug, PartialEq)]
pub enum EditAction {
    /// Leave the key to the edit control.
    Default,
    /// Drop the key.
    Swallow,
    /// Replace the whole text and put the caret at the given position.
    Replace { text: Vec<u16>, caret: usize },
    /// Replace the selection with the given units, then move the caret back by the
    /// given count.
    Insert { text: Vec<u16>, back: usize },
    /// Put the caret at the given position.
    MoveCaret(usize),
}

/// An edit, as values.
pub enum ActionView {
    Default,
    Swallow,
    Replace(Seq<u16>, int),
    Insert(Seq<u16>, int),
    MoveCaret(int),
}

impl EditAction {
    /// The edit as values.
    pub open spec fn view(&self) -> ActionView {
        match self {
            EditAction::Default => ActionView::Default,
            EditAction::Swallow => ActionView::Swallow,
            EditAction::Replace { text, caret } => ActionView::Replace(text@, *caret as int),
            EditAction::Insert { text, back } => ActionView::Insert(text@, *back as int),
            EditAction::MoveCaret(p) => ActionView::MoveCaret(*p as int),
        }
    }
}

/// `n` spaces.
pub open spec fn spaces16(n: nat) -> Seq<u16> {
    Seq::new(n, |i: int| 32u16)
}

/// Where the line holding position `p` starts: just after the last line feed before
/// `p`, or 0.
pub open spec fn line_start_of(t: Seq<u16>, p: int) -> int
    decreases p,
{
    if p <= 0 {
        0
    } else if t[p - 1] == 10 {
        p
    } else {
        line_start_of(t, p - 1)
    }
}

/// Where the line holding position `p` ends: at the next line feed, or the end.
pub open spec fn line_end_of(t: Seq<u16>, p: int) -> int
    decreases t.len() - p,
{
    if p >= t.len() || p < 0 {
        p
    } else if t[p] == 10 {
        p
    } else {
        line_end_of(t, p + 1)
    }
}

/// Whether a UTF-16 unit is Unicode white space (all such characters lie in the
/// basic plane).
pub open spec fn ws_unit(c: u16) -> bool {
    (9 <= c <= 13) || c == 32 || c == 0x85 || c == 0xA0 || c == 0x1680 || (0x2000 <= c <= 0x200A) || c
        == 0x2028 || c == 0x2029 || c == 0x202F || c == 0x205F || c == 0x3000
}

/// The end of the white space that starts at `i`, not past `e`.
pub open spec fn ws_end(t: Seq<u16>, i: int, e: int) -> int
    decreases e - i,
{
    if i < e && ws_unit(t[i]) {
        ws_end(t, i + 1, e)
    } else {
        i
    }
}

/// The end of the spaces and tabs that start at `i`, not past `e`.
pub open spec fn indent_end16(t: Seq<u16>, i: int, e: int) -> int
    decreases e - i,
{
    if i < e && (t[i] == 32 || t[i] == 9) {
        indent_end16(t, i + 1, e)
    } else {
        i
    }
}

/// The text and caret after Ctrl+/ with the caret at `pos`: on the caret's line, the
/// indentation (written as spaces) is kept, and a `--` right after it is removed (the
/// caret moves back two, not below 0) or one is added (the caret moves on two).
pub open spec fn toggle_comment_spec(t: Seq<u16>, pos: int) -> (Seq<u16>, int) {
    let ls = line_start_of(t, pos);
    let le = line_end_of(t, pos);
    let ie = ws_end(t, ls, le);
    let n = (ie - ls) as nat;
    if ie + 2 <= le && t[ie] == 45 && t[ie + 1] == 45 {
        (t.subrange(0, ls) + spaces16(n) + t.subrange(ie + 2, t.len() as int), if pos >= 2 {
            pos - 2
        } else {
            0
        })
    } else {
        (t.subrange(0, ls) + spaces16(n) + seq![45u16, 45u16] + t.subrange(ie, t.len() as int), pos + 2)
    }
}

/// Whether `a` and `b` are an opening and its closing: `()`, `{}`, `[]`, `""` or `''`.
pub open spec fn is_pair(a: u16, b: u16) -> bool {
    (a == 40 && b == 41) || (a == 123 && b == 125) || (a == 91 && b == 93) || (a == 34 && b == 34) || (a
        == 39 && b == 39)
}

/// The closing of an opening bracket.
pub open spec fn closing_of(ch: u32) -> u16 {
    if ch == 40 {
        41
    } else if ch == 123 {
        125
    } else {
        93
    }
}

/// The edit for `key` on text `t` with the selection `s..e`.
pub open spec fn key_action_spec(t: Seq<u16>, s: int, e: int, key: EditorKey) -> ActionView {
    match key {
        EditorKey::KeyDown { vk, ctrl } => {
            if (0x70 <= vk <= 0x87) || (0x21 <= vk <= 0x24) || vk == 0x90 || vk == 0x91 || vk == 0x13 {
                // function keys, paging, Home/End, locks and Pause are dropped
                ActionView::Swallow
            } else if vk == 8 {
                if s == e && 1 <= e < t.len() && is_pair(t[e - 1], t[e]) {
                    ActionView::Replace(t.subrange(0, e - 1) + t.subrange(e + 1, t.len() as int), e - 1)
                } else {
                    ActionView::Default
                }
            } else if vk == 9 {
                ActionView::Insert(spaces16(4), 0)
            } else if vk == 13 {
                let ls = line_start_of(t, s);
                ActionView::Insert(seq![13u16, 10u16] + t.subrange(ls, indent_end16(t, ls, line_end_of(t, s))), 0)
            } else if vk == 0xBF && ctrl {
                let r = toggle_comment_spec(t, s);
                ActionView::Replace(r.0, r.1)
            } else {
                ActionView::Default
            }
        },
        EditorKey::Char(ch) => {
            if 1 <= ch <= 26 && ch != 8 {
                // control characters from Ctrl+letter, Tab and Enter (handled on key down)
                ActionView::Swallow
            } else if s != e {
                ActionView::Default
            } else if ch == 40 || ch == 123 || ch == 91 {
                ActionView::Insert(seq![ch as u16, closing_of(ch)], 1)
            } else if ch == 34 || ch == 39 {
                if e < t.len() && t[e] == ch {
                    ActionView::MoveCaret(e + 1)
                } else {
                    ActionView::Insert(seq![ch as u16, ch as u16], 1)
                }
            } else if ch == 41 || ch == 125 || ch == 93 {
                if e < t.len() && t[e] == ch {
                    ActionView::MoveCaret(e + 1)
                } else {
                    ActionView::Default
                }
            } else {
                ActionView::Default
            }
        },
    }
}

fn push_range(out: &mut Vec<u16>, t: &[u16], a: usize, b: usize)
    requires
        a <= b <= t@.len(),
    ensures
        final(out)@ == old(out)@ + t@.subrange(a as int, b as int),
{
    let mut i = a;
    while i < b
        invariant
            a <= i <= b,
            b <= t@.len(),
            out@ == old(out)@ + t@.subrange(a as int, i as int),
        decreases b - i,
    {
        out.push(t[i]);
        assert(t@.subrange(a as int, i + 1) =~= t@.subrange(a as int, i as int).push(t@[i as int]));
        i = i + 1;
    }
}

fn push_spaces(out: &mut Vec<u16>, n: usize)
    ensures
        final(out)@ == old(out)@ + spaces16(n as nat),
{
    let mut i: usize = 0;
    while i < n
        invariant
            i <= n,
            out@ == old(out)@ + spaces16(i as nat),
        decreases n - i,
    {
        out.push(32);
        assert(spaces16((i + 1) as nat) =~= spaces16(i as nat).push(32u16));
        i = i + 1;
    }
}

fn line_start(t: &[u16], p: usize) -> (r: usize)
    requires
        p <= t@.len(),
    ensures
        r == line_start_of(t@, p as int),
        r <= p,
{
    let mut q = p;
    while q > 0 && t[q - 1] != 10
        invariant
            q <= p <= t@.len(),
            line_start_of(t@, p as int) == line_start_of(t@, q as int),
        decreases q,
    {
        q = q - 1;
    }
    q
}

fn line_end(t: &[u16], p: usize) -> (r: usize)
    requires
        p <= t@.len(),
    ensures
        r == line_end_of(t@, p as int),
        p <= r <= t@.len(),
{
    let mut q = p;
    while q < t.len() && t[q] != 10
        invariant
            p <= q <= t@.len(),
            line_end_of(t@, p as int) == line_end_of(t@, q as int),
        decreases t@.len() - q,
    {
        q = q + 1;
    }
    q
}

fn is_ws_unit(c: u16) -> (b: bool)
    ensures
        b == ws_unit(c),
{
    (c >= 9 && c <= 13) || c == 32 || c == 0x85 || c == 0xA0 || c == 0x1680 || (c >= 0x2000 && c <= 0x200A) || c
        == 0x2028 || c == 0x2029 || c == 0x202F || c == 0x205F || c == 0x3000
}

/// The text and caret after toggling a `--` comment on the line holding `pos`.
pub fn toggle_comment(text: &[u16], pos: usize) -> (r: (Vec<u16>, usize))
    requires
        pos <= text@.len(),
        text@.len() <= usize::MAX - 2,
    ensures
        r.0@ == toggle_comment_spec(text@, pos as int).0,
        r.1 as int == toggle_comment_spec(text@, pos as int).1,
{
    let ls = line_start(text, pos);
    let le = line_end(text, pos);
    let mut ie = ls;
    while ie < le && is_ws_unit(text[ie])
        invariant
            ls <= ie <= le <= text@.len(),
            ws_end(text@, ls as int, le as int) == ws_end(text@, ie as int, le as int),
        decreases le - ie,
    {
        ie = ie + 1;
    }
    let n = ie - ls;
    let mut out: Vec<u16> = Vec::new();
    push_range(&mut out, text, 0, ls);
    push_spaces(&mut out, n);
    if ie + 2 <= le && text[ie] == 45 && text[ie + 1] == 45 {
        push_range(&mut out, text, ie + 2, text.len());
        let caret = if pos >= 2 { pos - 2 } else { 0 };
        (out, caret)
    } else {
        out.push(45);
        out.push(45);
        push_range(&mut out, text, ie, text.len());
        proof {
            assert(out@ =~= text@.subrange(0, ls as int) + spaces16(n as nat) + seq![45u16, 45u16]
                + text@.subrange(ie as int, text@.len() as int));
        }
        (out, pos + 2)
    }
}

/// The edit for `key` on `text` with the selection `sel_start..sel_end`.
pub fn editor_key_action(text: &[u16], sel_start: usize, sel_end: usize, key: EditorKey) -> (a: EditAction)
    requires
        sel_start <= sel_end <= text@.len(),
        text@.len() <= usize::MAX - 2,
    ensures
        a@ == key_action_spec(text@, sel_start as int, sel_end as int, key),
{
    let s = sel_start;
    let e = sel_end;
    match key {
        EditorKey::KeyDown { vk, ctrl } => {
            if (vk >= 0x70 && vk <= 0x87) || (vk >= 0x21 && vk <= 0x24) || vk == 0x90 || vk == 0x91 || vk == 0x13 {
                EditAction::Swallow
            } else if vk == 8 {
                if s == e && e >= 1 && e < text.len() {
                    let a = text[e - 1];
                    let b = text[e];
                    if (a == 40 && b == 41) || (a == 123 && b == 125) || (a == 91 && b == 93) || (a == 34 && b
                        == 34) || (a == 39 && b == 39) {
                        let mut out: Vec<u16> = Vec::new();
                        push_range(&mut out, text, 0, e - 1);
                        push_range(&mut out, text, e + 1, text.len());
                        return EditAction::Replace { text: out, caret: e - 1 };
                    }
                }
                EditAction::Default
            } else if vk == 9 {
                let mut out: Vec<u16> = Vec::new();
                push_spaces(&mut out, 4);
                assert(out@ =~= spaces16(4));
                EditAction::Insert { text: out, back: 0 }
            } else if vk == 13 {
                let ls = line_start(text, s);
                let le = line_end(text, s);
                let mut ie = ls;
                while ie < le && (text[ie] == 32 || text[ie] == 9)
                    invariant
                        ls <= ie <= le <= text@.len(),
                        indent_end16(text@, ls as int, le as int) == indent_end16(text@, ie as int, le as int),
                    decreases le - ie,
                {
                    ie = ie + 1;
                }
                let mut out: Vec<u16> = Vec::new();
                out.push(13);
                out.push(10);
                push_range(&mut out, text, ls, ie);
                assert(out@ =~= seq![13u16, 10u16] + text@.subrange(ls as int, ie as int));
                EditAction::Insert { text: out, back: 0 }
            } else if vk == 0xBF && ctrl {
                let (t, c) = toggle_comment(text, s);
                EditAction::Replace { text: t, caret: c }
            } else {
                EditAction::Default
            }
        },
        EditorKey::Char(ch) => {
            if ch >= 1 && ch <= 26 && ch != 8 {
                EditAction::Swallow
            } else if s != e {
                EditAction::Default
            } else if ch == 40 || ch == 123 || ch == 91 {
                let close: u16 = if ch == 40 {
                    41
                } else if ch == 123 {
                    125
                } else {
                    93
                };
                let mut out: Vec<u16> = Vec::new();
                out.push(ch as u16);
                out.push(close);
                assert(out@ =~= seq![ch as u16, closing_of(ch)]);
                EditAction::Insert { text: out, back: 1 }
            } else if ch == 34 || ch == 39 {
                if e < text.len() && text[e] as u32 == ch {
                    EditAction::MoveCaret(e + 1)
                } else {
                    let mut out: Vec<u16> = Vec::new();
                    out.push(ch as u16);
                    out.push(ch as u16);
                    assert(out@ =~= seq![ch as u16, ch as u16]);
                    EditAction::Insert { text: out, back: 1 }
                }
            } else if ch == 41 || ch == 125 || ch == 93 {
                if e < text.len() && text[e] as u32 == ch {
                    EditAction::MoveCaret(e + 1)
                } else {
                    EditAction::Default
                }
            } else {
                EditAction::Default
            }
        },
    }
}

} // verus!
