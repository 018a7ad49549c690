//! Layout constants and text filtering of the editor window.
use vstd::prelude::*;
use crate::text::chars_of;

verus! {

/// Width of the project tree panel, in pixels.
pub const TREE_WIDTH: i32 = 200;

/// Height of the status bar, in pixels.
pub const STATUSBAR_HEIGHT: i32 = 24;

/// Width of the project tree panel, in pixels.
pub fn tree_width() -> (w: i32)
    ensures
        w == TREE_WIDTH,
{
    TREE_WIDTH
}

/// Height of the status bar, in pixels.
pub fn statusbar_height() -> (h: i32)
    ensures
        h == STATUSBAR_HEIGHT,
{
    STATUSBAR_HEIGHT
}

/// The Unicode bidirectional control characters: ARABIC LETTER MARK (U+061C), the
/// left-to-right and right-to-left marks (U+200E, U+200F), the embeddings and
/// overrides (U+202A..U+202E) and the isolates (U+2066..U+2069).
pub open spec fn bidi_control(c: u16) -> bool {
    c == 0x061C || c == 0x200E || c == 0x200F || (0x202A <= c <= 0x202E) || (0x2066 <= c <= 0x2069)
}

/// UTF-16 units the edit control is given: NUL, line feed, carriage return, printable
/// ASCII and everything above ASCII except the bidirectional controls.
pub open spec fn kept_unit(c: u16) -> bool {
    (c == 0 || c == 10 || c == 13 || (32 <= c <= 126) || c > 127) && !bidi_control(c)
}

/// The kept units of `text`, in order, ending with a NUL unless there are none.
pub open spec fn filtered_text(text: Seq<u16>) -> Seq<u16> {
    let f = text.filter(|c: u16| kept_unit(c));
    if f.len() > 0 && f.last() != 0 {
        f.push(0)
    } else {
        f
    }
}

/// Drops control characters (other than NUL, line feed and carriage return), DEL and
/// the bidirectional controls such as RLM and LRM from UTF-16 text, keeping it
/// NUL-terminated.
pub fn filter_control_characters(text_wide: &[u16]) -> (result: Vec<u16>)
    ensures
        result@ == filtered_text(text_wide@),
{
    let ghost pred = |c: u16| kept_unit(c);
    let mut result: Vec<u16> = Vec::new();
    let mut i: usize = 0;
    while i < text_wide.len()
        invariant
            pred == (|c: u16| kept_unit(c)),
            i <= text_wide@.len(),
            result@ == text_wide@.take(i as int).filter(pred),
        decreases text_wide@.len() - i,
    {
        let c = text_wide[i];
        proof {
            assert(text_wide@.take(i as int).push(c) =~= text_wide@.take(i as int + 1));
            text_wide@.take(i as int).lemma_filter_push(c, pred);
        }
        let bidi = c == 0x061C || c == 0x200E || c == 0x200F || (c >= 0x202A && c <= 0x202E) || (c >= 0x2066
            && c <= 0x2069);
        if (c == 0 || c == 10 || c == 13 || (c >= 32 && c <= 126) || c > 127) && !bidi {
            result.push(c);
        }
        i = i + 1;
    }
    assert(text_wide@.take(text_wide@.len() as int) =~= text_wide@);
    if result.len() > 0 && result[result.len() - 1] != 0 {
        result.push(0);
    }
    result
}

/// The UTF-16 code units of a character: one below U+10000, else a surrogate pair.
pub open spec fn utf16_of(c: char) -> Seq<u16> {
    let v = (c as u32) as int;
    if v < 0x10000 {
        seq![v as u16]
    } else {
        seq![(0xD800 + (v - 0x10000) / 0x400) as u16, (0xDC00 + (v - 0x10000) % 0x400) as u16]
    }
}

/// The UTF-16 encoding of the first `k` characters of `s`.
pub open spec fn utf16_prefix(s: Seq<char>, k: int) -> Seq<u16>
    decreases k,
{
    if k <= 0 || k > s.len() {
        Seq::empty()
    } else {
        utf16_prefix(s, k - 1) + utf16_of(s[k - 1])
    }
}

/// `s` in UTF-16, ending with a NUL unit, as Windows calls take text.
pub fn to_wide(s: &str) -> (w: Vec<u16>)
    ensures
        w@ == utf16_prefix(s@, s@.len() as int).push(0),
{
    let cs = chars_of(s);
    let mut w: Vec<u16> = Vec::new();
    let mut i: usize = 0;
    while i < cs.len()
        invariant
            i <= cs@.len(),
            cs@ == s@,
            w@ == utf16_prefix(s@, i as int),
        decreases cs@.len() - i,
    {
        let c = cs[i];
        let v = c as u32;
        let ghost before = w@;
        proof {
            assert(c == s@[i as int]);
            vstd::utf8::char_is_scalar(c);
        }
        if v < 0x10000 {
            w.push(v as u16);
        } else {
            let u = v - 0x10000;
            w.push((0xD800 + u / 0x400) as u16);
            w.push((0xDC00 + u % 0x400) as u16);
        }
        assert(w@ =~= before + utf16_of(c));
        assert(w@ =~= utf16_prefix(s@, i as int + 1));
        i = i + 1;
    }
    w.push(0);
    w
}

} // verus!
