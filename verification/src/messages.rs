//! Reading a source position out of a compiler message.
use vstd::prelude::*;
use crate::text::chars_of;

verus! {

/// Whether `c` is `lc` or, when `lc` is an ASCII lowercase letter, its uppercase form.
pub open spec fn char_matches(c: char, lc: char) -> bool {
    c == lc || ('a' <= lc <= 'z' && c as u32 == lc as u32 - 32)
}

/// Whether `pat` (lowercase) stands at position `p` of `s`, ignoring ASCII case.
pub open spec fn matches_at(s: Seq<char>, p: int, pat: Seq<char>) -> bool {
    &&& 0 <= p
    &&& p + pat.len() <= s.len()
    &&& forall|i: int| 0 <= i < pat.len() ==> #[trigger] char_matches(s[p + i], pat[i])
}

/// Whether `c` is an ASCII letter or digit.
pub open spec fn is_word_char(c: char) -> bool {
    ('a' <= c <= 'z') || ('A' <= c <= 'Z') || ('0' <= c <= '9')
}

/// Whether `pat` stands at `p` as a word of its own that a number follows: it starts
/// the text or follows a character that is not an ASCII letter or digit, and a digit
/// comes right after it.
pub open spec fn marker_at(s: Seq<char>, p: int, pat: Seq<char>) -> bool {
    &&& matches_at(s, p, pat)
    &&& (p == 0 || !is_word_char(s[p - 1]))
    &&& p + pat.len() < s.len()
    &&& is_digit(s[p + pat.len()])
}

/// The first position at or after `p` where `pat` stands as a marker in `s`, or -1.
pub open spec fn first_match(s: Seq<char>, pat: Seq<char>, p: int) -> int
    decreases s.len() - p,
{
    if p < 0 || p >= s.len() || p + pat.len() > s.len() {
        -1
    } else if marker_at(s, p, pat) {
        p
    } else {
        first_match(s, pat, p + 1)
    }
}

/// Whether `c` is an ASCII digit.
pub open spec fn is_digit(c: char) -> bool {
    '0' <= c <= '9'
}

/// The end of the run of ASCII digits that starts at `p`.
pub open spec fn digits_end(s: Seq<char>, p: int) -> int
    decreases s.len() - p,
{
    if 0 <= p < s.len() && is_digit(s[p]) {
        digits_end(s, p + 1)
    } else {
        p
    }
}

/// The decimal value of the digits `s[a..b]`.
pub open spec fn digits_value(s: Seq<char>, a: int, b: int) -> int
    decreases b - a,
{
    if b <= a {
        0
    } else {
        10 * digits_value(s, a, b - 1) + (s[b - 1] as u32 - '0' as u32)
    }
}

/// The number written right after the first `pat` in `s` that stands as a word of its
/// own and is followed by a digit (ASCII case ignored): the run of digits after it, when
/// its value fits in `usize` and is not 0.
pub open spec fn number_after(s: Seq<char>, pat: Seq<char>) -> Option<usize> {
    let p = first_match(s, pat, 0);
    if p < 0 {
        None
    } else {
        let a = p + pat.len();
        let b = digits_end(s, a);
        let v = digits_value(s, a, b);
        if b > a && 0 < v <= usize::MAX {
            Some(v as usize)
        } else {
            None
        }
    }
}

proof fn lemma_digits_value_nonneg(s: Seq<char>, a: int, b: int)
    requires
        forall|i: int| a <= i < b ==> is_digit(#[trigger] s[i]),
    ensures
        digits_value(s, a, b) >= 0,
    decreases b - a,
{
    if b > a {
        lemma_digits_value_nonneg(s, a, b - 1);
    }
}

fn is_word_char_exec(c: char) -> (b: bool)
    ensures
        b == is_word_char(c),
{
    (c >= 'a' && c <= 'z') || (c >= 'A' && c <= 'Z') || (c >= '0' && c <= '9')
}

fn matches_at_exec(s: &Vec<char>, p: usize, pat: &Vec<char>) -> (b: bool)
    requires
        p + pat@.len() <= s@.len(),
    ensures
        b == matches_at(s@, p as int, pat@),
{
    let n = s.len();
    let mut i: usize = 0;
    while i < pat.len()
        invariant
            n == s@.len(),
            i <= pat@.len(),
            p + pat@.len() <= s@.len(),
            forall|t: int| 0 <= t < i ==> #[trigger] char_matches(s@[p + t], pat@[t]),
        decreases pat@.len() - i,
    {
        assert(p + i < n);
        let c = s[p + i];
        let lc = pat[i];
        if !(c == lc || (lc >= 'a' && lc <= 'z' && (c as u32) == (lc as u32) - 32)) {
            assert(!char_matches(s@[p + i as int], pat@[i as int]));
            return false;
        }
        i = i + 1;
    }
    true
}

/// The number right after the first `pat` (ASCII case ignored) in `s`.
fn number_after_exec(s: &Vec<char>, pat: &Vec<char>) -> (r: Option<usize>)
    ensures
        r == number_after(s@, pat@),
{
    let n = s.len();
    let m = pat.len();
    if m > n {
        return None;
    }
    let mut p: usize = 0;
    let mut found: Option<usize> = None;
    while p < n && p <= n - m && found.is_none()
        invariant
            n == s@.len(),
            m == pat@.len(),
            m <= n,
            p <= n - m + 1,
            found is None ==> first_match(s@, pat@, 0) == first_match(s@, pat@, p as int),
            found matches Some(q) ==> q as int == first_match(s@, pat@, 0) && q + m <= n,
        decreases n - p + (if found is None { 1int } else { 0 }),
    {
        if matches_at_exec(s, p, pat) && (p == 0 || !is_word_char_exec(s[p - 1])) && p + m < n && s[p + m]
            >= '0' && s[p + m] <= '9' {
            found = Some(p);
        } else {
            p = p + 1;
        }
    }
    let q = match found {
        Some(q) => q,
        None => {
            return None;
        },
    };
    let a = q + m;
    let mut j: usize = a;
    let mut val: usize = 0;
    let mut big = false;
    while j < n && s[j] >= '0' && s[j] <= '9'
        invariant
            n == s@.len(),
            a <= j <= n,
            digits_end(s@, a as int) == digits_end(s@, j as int),
            forall|i: int| a <= i < j ==> is_digit(#[trigger] s@[i]),
            !big ==> val == digits_value(s@, a as int, j as int),
            big ==> digits_value(s@, a as int, j as int) > usize::MAX,
        decreases n - j,
    {
        let d = (s[j] as u32 - '0' as u32) as usize;
        proof {
            lemma_digits_value_nonneg(s@, a as int, j as int);
        }
        if !big {
            if val > (usize::MAX - d) / 10 {
                big = true;
            } else {
                val = val * 10 + d;
            }
        }
        j = j + 1;
    }
    assert(digits_end(s@, j as int) == j);
    if j > a && !big && val > 0 {
        Some(val)
    } else {
        None
    }
}

/// The line number in a message (`at line N` or `line N`): the digits after the first
/// `line ` (any case) that starts a word and is followed by a digit, when they form a
/// number above 0 that fits.
pub fn extract_line_number(error_msg: &str) -> (r: Option<usize>)
    ensures
        r == number_after(error_msg@, "line "@),
{
    let s = chars_of(error_msg);
    let pat = chars_of("line ");
    number_after_exec(&s, &pat)
}

/// The column number in a message (`col N`): the digits after the first `col ` (any
/// case) that starts a word and is followed by a digit, when they form a number above 0
/// that fits.
pub fn extract_col_number(error_msg: &str) -> (r: Option<usize>)
    ensures
        r == number_after(error_msg@, "col "@),
{
    let s = chars_of(error_msg);
    let pat = chars_of("col ");
    number_after_exec(&s, &pat)
}

} // verus!
