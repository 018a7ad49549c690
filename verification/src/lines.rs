//! Splitting text into lines as `str::lines` does: at `\n`, dropping a `\r` that
//! precedes it, with no empty line after a final newline.
use vstd::prelude::*;

verus! {

/// Where the line starting at `p` ends: the next `\n`, or the end of the text.
pub open spec fn line_end(s: Seq<char>, p: int) -> int
    decreases s.len() - p,
{
    if 0 <= p < s.len() && s[p] != '\n' {
        line_end(s, p + 1)
    } else {
        p
    }
}

/// The lines of `s` from position `p` on.
pub open spec fn lines_from(s: Seq<char>, p: int) -> Seq<Seq<char>>
    decreases s.len() + 1 - p,
{
    if p < 0 || p >= s.len() {
        Seq::empty()
    } else {
        let e = line_end(s, p);
        let raw = s.subrange(p, e);
        let line = if e < s.len() && raw.len() > 0 && raw.last() == '\r' {
            raw.drop_last()
        } else {
            raw
        };
        proof {
            lemma_line_end(s, p);
        }
        seq![line] + lines_from(s, e + 1)
    }
}

/// The lines of `s`.
pub open spec fn lines_of(s: Seq<char>) -> Seq<Seq<char>> {
    lines_from(s, 0)
}

/// A line ends at or after its start and within the text, at a newline unless it is
/// the last.
pub proof fn lemma_line_end(s: Seq<char>, p: int)
    requires
        0 <= p <= s.len(),
    ensures
        p <= line_end(s, p) <= s.len(),
        line_end(s, p) < s.len() ==> s[line_end(s, p)] == '\n',
        forall|i: int| p <= i < line_end(s, p) ==> s[i] != '\n',
    decreases s.len() - p,
{
    if p < s.len() && s[p] != '\n' {
        lemma_line_end(s, p + 1);
    }
}

/// The lines of `text`.
pub fn split_lines(text: &[char]) -> (lines: Vec<Vec<char>>)
    ensures
        lines@.map_values(|l: Vec<char>| l@) == lines_of(text@),
{
    let ghost s = text@;
    let mut lines: Vec<Vec<char>> = Vec::new();
    let mut p: usize = 0;
    while p < text.len()
        invariant
            s == text@,
            p <= s.len(),
            lines@.map_values(|l: Vec<char>| l@) + lines_from(s, p as int) == lines_of(s),
        decreases s.len() - p,
    {
        let ghost before = lines@.map_values(|l: Vec<char>| l@);
        let mut line: Vec<char> = Vec::new();
        let mut e: usize = p;
        while e < text.len() && text[e] != '\n'
            invariant
                s == text@,
                p <= e <= s.len(),
                line_end(s, e as int) == line_end(s, p as int),
                line@ == s.subrange(p as int, e as int),
            decreases s.len() - e,
        {
            line.push(text[e]);
            assert(s.subrange(p as int, e + 1) =~= s.subrange(p as int, e as int).push(s[e as int]));
            e = e + 1;
        }
        proof {
            lemma_line_end(s, p as int);
        }
        if e < text.len() && line.len() > 0 && line[line.len() - 1] == '\r' {
            line.pop();
        }
        let ghost l = line@;
        lines.push(line);
        proof {
            let after = lines@.map_values(|v: Vec<char>| v@);
            assert(after =~= before.push(l));
            assert(lines_from(s, p as int) == seq![l] + lines_from(s, e + 1));
            assert(after + lines_from(s, e + 1) =~= before + lines_from(s, p as int));
        }
        if e < text.len() {
            p = e + 1;
        } else {
            p = e;
        }
    }
    proof {
        assert(lines@.map_values(|l: Vec<char>| l@) + lines_from(s, p as int) =~= lines@.map_values(
            |l: Vec<char>| l@,
        ));
    }
    lines
}

} // verus!
