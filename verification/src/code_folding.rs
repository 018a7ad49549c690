//! Code folding for the editor: blocks between matching braces that span at least
//! three lines can be folded; nested blocks fold with their outermost block.
use vstd::prelude::*;
use vstd::relations::{sorted_by, total_ordering};
use crate::lines::{lines_of, split_lines};
use crate::text::{chars_of, string_of};
use crate::numtext::{decimal, push_decimal};
use vstd::string::StringExecFns;

verus! {

/// A foldable block: the lines (0-based) of its opening and closing brace, and
/// whether it is folded.
#[derive(Debug, Clone, Copy, PartialEq, Eq, Structural)]
pub struct FoldBlock {
    pub start_line: usize,
    pub end_line: usize,
    pub folded: bool,
}

/// How often `c` occurs in `s`.
pub open spec fn count_char(s: Seq<char>, c: char) -> nat
    decreases s.len(),
{
    if s.len() == 0 {
        0
    } else {
        count_char(s.drop_last(), c) + if s.last() == c {
            1nat
        } else {
            0
        }
    }
}

/// Pops `n` open braces for closing braces on line `idx`; each pop whose opening line
/// is at least two lines up records a block.
pub open spec fn pop_blocks(stack: Seq<int>, blocks: Seq<(int, int)>, n: nat, idx: int) -> (
    Seq<int>,
    Seq<(int, int)>,
)
    decreases n,
{
    if n == 0 {
        (stack, blocks)
    } else if stack.len() == 0 {
        pop_blocks(stack, blocks, (n - 1) as nat, idx)
    } else {
        let start = stack.last();
        let b = if idx > start + 1 {
            blocks.push((start, idx))
        } else {
            blocks
        };
        pop_blocks(stack.drop_last(), b, (n - 1) as nat, idx)
    }
}

/// The open-brace stack and the blocks found after the first `k` lines: every `{`
/// pushes its line, then every `}` pops.
pub open spec fn fold_scan(lines: Seq<Seq<char>>, k: nat) -> (Seq<int>, Seq<(int, int)>)
    decreases k,
{
    if k == 0 || k > lines.len() {
        (Seq::empty(), Seq::empty())
    } else {
        let (st, bl) = fold_scan(lines, (k - 1) as nat);
        let line = lines[k - 1];
        let idx = k - 1;
        let pushed = st + Seq::new(count_char(line, '{'), |i: int| idx);
        pop_blocks(pushed, bl, count_char(line, '}'), idx)
    }
}

/// Order of blocks: by opening line, and an enclosing block before a block it encloses.
pub open spec fn fold_leq(a: (int, int), b: (int, int)) -> bool {
    a.0 < b.0 || (a.0 == b.0 && a.1 >= b.1)
}

/// Whether `b` lies within one of `r`.
pub open spec fn contained(r: Seq<(int, int)>, b: (int, int)) -> bool {
    exists|j: int| 0 <= j < r.len() && r[j].0 <= b.0 && b.1 <= r[j].1
}

/// The blocks of `s`, in order, that lie within no block kept before them.
pub open spec fn outermost(s: Seq<(int, int)>) -> Seq<(int, int)>
    decreases s.len(),
{
    if s.len() == 0 {
        Seq::empty()
    } else {
        let r = outermost(s.drop_last());
        if contained(r, s.last()) {
            r
        } else {
            r.push(s.last())
        }
    }
}

/// The line range of a block.
pub open spec fn block_range(b: FoldBlock) -> (int, int) {
    (b.start_line as int, b.end_line as int)
}

/// The foldable blocks of a text with lines `lines`.
pub open spec fn fold_blocks(lines: Seq<Seq<char>>) -> Seq<(int, int)> {
    outermost(fold_scan(lines, lines.len()).1.sort_by(|a: (int, int), b: (int, int)| fold_leq(a, b)))
}

proof fn lemma_fold_leq_total()
    ensures
        total_ordering(|a: (int, int), b: (int, int)| fold_leq(a, b)),
{
}


fn count_in(line: &Vec<char>, c: char) -> (n: usize)
    ensures
        n == count_char(line@, c),
{
    let mut n: usize = 0;
    let mut i: usize = 0;
    while i < line.len()
        invariant
            i <= line@.len(),
            n == count_char(line@.take(i as int), c),
            n <= i,
        decreases line@.len() - i,
    {
        assert(line@.take(i as int + 1).drop_last() =~= line@.take(i as int));
        if line[i] == c {
            n = n + 1;
        }
        i = i + 1;
    }
    assert(line@.take(line@.len() as int) =~= line@);
    n
}

spec fn stack_view(v: Seq<usize>) -> Seq<int> {
    v.map_values(|x: usize| x as int)
}

/// The line ranges of blocks.
pub open spec fn ranges(v: Seq<FoldBlock>) -> Seq<(int, int)> {
    v.map_values(|b: FoldBlock| block_range(b))
}

/// Every block found by scanning `lines`, in the order the closing braces come.
fn scan_folds(lines: &Vec<Vec<char>>) -> (blocks: Vec<FoldBlock>)
    ensures
        ranges(blocks@) == fold_scan(lines@.map_values(|l: Vec<char>| l@), lines@.len()).1,
        forall|i: int| 0 <= i < blocks@.len() ==> !(#[trigger] blocks@[i]).folded,
{
    let ghost ls = lines@.map_values(|l: Vec<char>| l@);
    let mut blocks: Vec<FoldBlock> = Vec::new();
    let mut stack: Vec<usize> = Vec::new();
    let mut idx: usize = 0;
    while idx < lines.len()
        invariant
            ls == lines@.map_values(|l: Vec<char>| l@),
            idx <= lines@.len(),
            (stack_view(stack@), ranges(blocks@)) == fold_scan(ls, idx as nat),
            forall|i: int| 0 <= i < stack@.len() ==> stack@[i] < idx,
            forall|i: int| 0 <= i < blocks@.len() ==> !(#[trigger] blocks@[i]).folded,
        decreases lines@.len() - idx,
    {
        let line = &lines[idx];
        assert(ls[idx as int] == line@);
        let open = count_in(line, '{');
        let close = count_in(line, '}');
        let ghost st0 = stack_view(stack@);
        let mut j: usize = 0;
        while j < open
            invariant
                j <= open,
                stack_view(stack@) == st0 + Seq::new(j as nat, |i: int| idx as int),
                forall|i: int| 0 <= i < stack@.len() ==> stack@[i] <= idx,
            decreases open - j,
        {
            let ghost sv = stack_view(stack@);
            stack.push(idx);
            assert(stack_view(stack@) =~= sv.push(idx as int));
            assert(sv.push(idx as int) =~= st0 + Seq::new(j as nat + 1, |i: int| idx as int));
            j = j + 1;
        }
        let ghost pushed = stack_view(stack@);
        let ghost bl0 = ranges(blocks@);
        let mut k: usize = 0;
        while k < close
            invariant
                k <= close,
                pop_blocks(stack_view(stack@), ranges(blocks@), (close - k) as nat, idx as int) == pop_blocks(
                    pushed,
                    bl0,
                    close as nat,
                    idx as int,
                ),
                forall|i: int| 0 <= i < stack@.len() ==> stack@[i] <= idx,
                forall|i: int| 0 <= i < blocks@.len() ==> !(#[trigger] blocks@[i]).folded,
                idx < lines.len(),
            decreases close - k,
        {
            let ghost sv = stack_view(stack@);
            let ghost bv = ranges(blocks@);
            let ghost old_stack = stack@;
            match stack.pop() {
                Some(start) => {
                    assert(start == old_stack[old_stack.len() - 1]);
                    assert(start <= idx);
                    assert(stack_view(stack@) =~= sv.drop_last());
                    if idx > start + 1 {
                        blocks.push(FoldBlock { start_line: start, end_line: idx, folded: false });
                        assert(ranges(blocks@) =~= bv.push((start as int, idx as int)));
                    }
                },
                None => {},
            }
            k = k + 1;
        }
        proof {
            assert(pop_blocks(stack_view(stack@), ranges(blocks@), 0, idx as int) == (stack_view(stack@), ranges(blocks@)));
        }
        idx = idx + 1;
    }
    blocks
}


fn block_leq(a: &FoldBlock, b: &FoldBlock) -> (r: bool)
    ensures
        r == fold_leq(block_range(*a), block_range(*b)),
{
    a.start_line < b.start_line || (a.start_line == b.start_line && a.end_line >= b.end_line)
}

/// The blocks ordered by `fold_leq`.
fn sort_blocks(v: &Vec<FoldBlock>) -> (out: Vec<FoldBlock>)
    requires
        forall|i: int| 0 <= i < v@.len() ==> !(#[trigger] v@[i]).folded,
    ensures
        ranges(out@) == ranges(v@).sort_by(|a: (int, int), b: (int, int)| fold_leq(a, b)),
        forall|i: int| 0 <= i < out@.len() ==> !(#[trigger] out@[i]).folded,
{
    let ghost leq = |a: (int, int), b: (int, int)| fold_leq(a, b);
    let ghost vs = ranges(v@);
    let mut out: Vec<FoldBlock> = Vec::new();
    let mut i: usize = 0;
    assert(ranges(out@) =~= vs.take(0));
    while i < v.len()
        invariant
            leq == (|a: (int, int), b: (int, int)| fold_leq(a, b)),
            vs == ranges(v@),
            i <= v@.len(),
            sorted_by(ranges(out@), leq),
            ranges(out@).to_multiset() == vs.take(i as int).to_multiset(),
            forall|t: int| 0 <= t < v@.len() ==> !(#[trigger] v@[t]).folded,
            forall|t: int| 0 <= t < out@.len() ==> !(#[trigger] out@[t]).folded,
        decreases v@.len() - i,
    {
        let b = v[i];
        let ghost os = ranges(out@);
        let ghost r = block_range(b);
        let mut j: usize = 0;
        while j < out.len() && block_leq(&out[j], &b)
            invariant
                os == ranges(out@),
                j <= out@.len(),
                r == block_range(b),
                forall|k: int| 0 <= k < j ==> fold_leq(#[trigger] os[k], r),
            decreases out@.len() - j,
        {
            j = j + 1;
        }
        out.insert(j, b);
        proof {
            let ns = ranges(out@);
            assert(ns =~= os.insert(j as int, r));
            os.insert_ensures(j as int, r);
            assert forall|a: int, c: int| 0 <= a < c < ns.len() implies #[trigger] leq(ns[a], ns[c]) by {
                if j < os.len() {
                    assert(!fold_leq(os[j as int], r));
                }
                if c < j {
                    assert(leq(os[a], os[c]));
                } else if c == j {
                } else if a < j {
                    assert(ns[c] == os[c - 1]);
                    if j < os.len() {
                        assert(leq(os[j as int], os[c - 1]) || j == c - 1);
                    }
                } else if a == j {
                    assert(ns[c] == os[c - 1]);
                    if j < c - 1 {
                        assert(leq(os[j as int], os[c - 1]));
                    }
                } else {
                    assert(ns[a] == os[a - 1]);
                    assert(ns[c] == os[c - 1]);
                    assert(leq(os[a - 1], os[c - 1]));
                }
            }
            assert(vs.take(i as int + 1) =~= vs.take(i as int).push(r));
            assert(ns.to_multiset() == os.insert(j as int, r).to_multiset());
            vstd::seq_lib::to_multiset_insert(os, j as int, r);
            vstd::seq_lib::to_multiset_build(vs.take(i as int), r);
        }
        i = i + 1;
    }
    proof {
        assert(vs.take(v@.len() as int) =~= vs);
        lemma_fold_leq_total();
        vs.lemma_sort_by_ensures(leq);
        vstd::seq_lib::lemma_sorted_unique(ranges(out@), vs.sort_by(leq), leq);
    }
    out
}

/// The blocks that lie within no block kept before them.
fn keep_outermost(sorted: &Vec<FoldBlock>) -> (result: Vec<FoldBlock>)
    requires
        forall|i: int| 0 <= i < sorted@.len() ==> !(#[trigger] sorted@[i]).folded,
    ensures
        ranges(result@) == outermost(ranges(sorted@)),
        forall|i: int| 0 <= i < result@.len() ==> !(#[trigger] result@[i]).folded,
{
    let ghost ss = ranges(sorted@);
    let mut result: Vec<FoldBlock> = Vec::new();
    let mut i: usize = 0;
    while i < sorted.len()
        invariant
            ss == ranges(sorted@),
            i <= sorted@.len(),
            ranges(result@) == outermost(ss.take(i as int)),
            forall|t: int| 0 <= t < sorted@.len() ==> !(#[trigger] sorted@[t]).folded,
            forall|t: int| 0 <= t < result@.len() ==> !(#[trigger] result@[t]).folded,
        decreases sorted@.len() - i,
    {
        let b = sorted[i];
        let ghost rs = ranges(result@);
        let mut is_contained = false;
        let mut j: usize = 0;
        while j < result.len()
            invariant
                rs == ranges(result@),
                j <= result@.len(),
                is_contained == exists|k: int| 0 <= k < j && rs[k].0 <= b.start_line && b.end_line <= rs[k].1,
            decreases result@.len() - j,
        {
            assert(rs[j as int] == block_range(result@[j as int]));
            if b.start_line >= result[j].start_line && b.end_line <= result[j].end_line {
                is_contained = true;
            }
            j = j + 1;
        }
        assert(ss.take(i as int + 1).drop_last() =~= ss.take(i as int));
        assert(is_contained == contained(rs, block_range(b)));
        if !is_contained {
            result.push(b);
            assert(ranges(result@) =~= rs.push(block_range(b)));
        }
        i = i + 1;
    }
    assert(ss.take(sorted@.len() as int) =~= ss);
    result
}

/// The foldable blocks of `source`: for each pair of matching braces at least two
/// lines apart, the lines of the two braces; a block within an earlier one is left
/// out. Ordered by opening line. None is folded.
pub fn analyze_folds(source: &str) -> (blocks: Vec<FoldBlock>)
    ensures
        ranges(blocks@) == fold_blocks(lines_of(source@)),
        forall|i: int| 0 <= i < blocks@.len() ==> !(#[trigger] blocks@[i]).folded,
{
    let chars = chars_of(source);
    let lines = split_lines(chars.as_slice());
    let raw = scan_folds(&lines);
    let sorted = sort_blocks(&raw);
    keep_outermost(&sorted)
}


/// Index of the first block whose lines include `line`, or -1.
pub open spec fn first_covering(blocks: Seq<FoldBlock>, line: usize) -> int
    decreases blocks.len(),
{
    if blocks.len() == 0 {
        -1
    } else if blocks[0].start_line <= line <= blocks[0].end_line {
        0
    } else {
        let r = first_covering(blocks.drop_first(), line);
        if r < 0 {
            -1
        } else {
            r + 1
        }
    }
}

proof fn lemma_first_covering(blocks: Seq<FoldBlock>, line: usize, k: int)
    requires
        0 <= k <= blocks.len(),
        forall|i: int| 0 <= i < k ==> !((#[trigger] blocks[i]).start_line <= line <= blocks[i].end_line),
    ensures
        k < blocks.len() && blocks[k].start_line <= line <= blocks[k].end_line ==> first_covering(blocks, line) == k,
        k == blocks.len() ==> first_covering(blocks, line) == -1,
    decreases k,
{
    if blocks.len() > 0 && k > 0 {
        assert forall|i: int| 0 <= i < k - 1 implies !((#[trigger] blocks.drop_first()[i]).start_line <= line
            <= blocks.drop_first()[i].end_line) by {
            assert(blocks.drop_first()[i] == blocks[i + 1]);
        }
        lemma_first_covering(blocks.drop_first(), line, k - 1);
    }
}

/// Folds or unfolds the first block whose lines include `line`; false when there is
/// none.
pub fn toggle_fold(blocks: &mut [FoldBlock], line: usize) -> (found: bool)
    ensures
        ({
            let k = first_covering(old(blocks)@, line);
            &&& found == (k >= 0)
            &&& k >= 0 ==> final(blocks)@ == old(blocks)@.update(
                k,
                FoldBlock { folded: !old(blocks)@[k].folded, ..old(blocks)@[k] },
            )
            &&& k < 0 ==> final(blocks)@ == old(blocks)@
        }),
{
    let mut i: usize = 0;
    while i < blocks.len()
        invariant
            blocks@ == old(blocks)@,
            i <= blocks@.len(),
            forall|t: int| 0 <= t < i ==> !((#[trigger] blocks@[t]).start_line <= line <= blocks@[t].end_line),
        decreases blocks@.len() - i,
    {
        let b = blocks[i];
        if line >= b.start_line && line <= b.end_line {
            proof {
                lemma_first_covering(blocks@, line, i as int);
            }
            blocks[i] = FoldBlock { folded: !b.folded, ..b };
            return true;
        }
        i = i + 1;
    }
    proof {
        lemma_first_covering(blocks@, line, i as int);
    }
    false
}

/// The index of the first folded block in `blocks[j..]` that starts on line `idx`,
/// or -1.
pub open spec fn first_folded_from(blocks: Seq<FoldBlock>, idx: int, j: int) -> int
    decreases blocks.len() - j,
{
    if j < 0 || j >= blocks.len() {
        -1
    } else if blocks[j].folded && blocks[j].start_line == idx {
        j
    } else {
        first_folded_from(blocks, idx, j + 1)
    }
}

proof fn lemma_first_folded(blocks: Seq<FoldBlock>, idx: int, j: int)
    requires
        0 <= j,
    ensures
        ({
            let k = first_folded_from(blocks, idx, j);
            k == -1 || (j <= k < blocks.len() && blocks[k].folded && blocks[k].start_line == idx)
        }),
    decreases blocks.len() - j,
{
    if j < blocks.len() && !(blocks[j].folded && blocks[j].start_line == idx) {
        lemma_first_folded(blocks, idx, j + 1);
    }
}

/// The position of the first character of `line` at or after `i` that is not a space
/// or a tab.
pub open spec fn indent_end(line: Seq<char>, i: int) -> int
    decreases line.len() - i,
{
    if 0 <= i < line.len() && (line[i] == ' ' || line[i] == '\t') {
        indent_end(line, i + 1)
    } else {
        i
    }
}

/// `n` spaces.
pub open spec fn spaces(n: nat) -> Seq<char> {
    Seq::new(n, |i: int| ' ')
}

/// The line that stands for folded block `b` whose first line is `line`: the
/// line's indentation as spaces, then `{  // [folded: N lines]` with N the number of
/// lines strictly inside the block.
pub open spec fn fold_marker(line: Seq<char>, b: FoldBlock) -> Seq<char> {
    spaces(indent_end(line, 0) as nat) + "{  // [folded: "@ + decimal((b.end_line - b.start_line - 1) as nat)
        + " lines]"@
}

/// The output lines for source lines `idx..`, where lines up to `skip` (inclusive)
/// belong to a block already folded. A folded block starting on a line gives its
/// marker, then its last line (when the text has it); the lines after the marker up to
/// and including that last line are not repeated.
pub open spec fn fold_from(lines: Seq<Seq<char>>, blocks: Seq<FoldBlock>, idx: int, skip: int) -> Seq<Seq<char>>
    decreases lines.len() - idx,
{
    if idx < 0 || idx >= lines.len() {
        Seq::empty()
    } else if idx <= skip {
        fold_from(lines, blocks, idx + 1, skip)
    } else {
        let j = first_folded_from(blocks, idx, 0);
        if j >= 0 {
            let b = blocks[j];
            seq![fold_marker(lines[idx], b)] + (if b.end_line < lines.len() {
                seq![lines[b.end_line as int]]
            } else {
                Seq::<Seq<char>>::empty()
            }) + fold_from(lines, blocks, idx + 1, b.end_line as int)
        } else {
            seq![lines[idx]] + fold_from(lines, blocks, idx + 1, skip)
        }
    }
}

/// `ls` joined with `\r\n` between consecutive lines.
pub open spec fn join_crlf(ls: Seq<Seq<char>>) -> Seq<char>
    decreases ls.len(),
{
    if ls.len() == 0 {
        Seq::empty()
    } else if ls.len() == 1 {
        ls[0]
    } else {
        join_crlf(ls.drop_last()) + "\r\n"@ + ls.last()
    }
}

/// The text with each folded block replaced by a marker line
/// (`{  // [folded: N lines]`, indented like the block's first line) followed by the
/// block's last line; the lines inside the block are dropped, the other lines kept,
/// and the lines are joined by `\r\n`. When two folded blocks start on one line, the
/// first in `blocks` is used.
pub fn fold_source(source: &str, blocks: &[FoldBlock]) -> (folded: String)
    requires
        forall|j: int|
            0 <= j < blocks@.len() && #[trigger] blocks@[j].folded && blocks@[j].start_line < lines_of(source@).len()
                ==> blocks@[j].start_line < blocks@[j].end_line,
    ensures
        folded@ == join_crlf(fold_from(lines_of(source@), blocks@, 0, -1)),
{
    let chars = chars_of(source);
    let lines = split_lines(chars.as_slice());
    let ghost ls = lines_of(source@);
    assert(lines@.map_values(|l: Vec<char>| l@) == ls);
    assert(lines@.len() == ls.len());
    let mut result_lines: Vec<String> = Vec::new();
    let mut skipping: bool = false;
    let mut skip_until: usize = 0;
    let mut idx: usize = 0;
    while idx < lines.len()
        invariant
            ls == lines_of(source@),
            lines@.len() == ls.len(),
            forall|t: int| 0 <= t < ls.len() ==> #[trigger] lines@[t]@ == ls[t],
            forall|j: int|
                0 <= j < blocks@.len() && #[trigger] blocks@[j].folded && blocks@[j].start_line < ls.len()
                    ==> blocks@[j].start_line < blocks@[j].end_line,
            idx <= ls.len(),
            result_lines@.map_values(|r: String| r@) + fold_from(
                ls,
                blocks@,
                idx as int,
                if skipping { skip_until as int } else { -1 },
            ) == fold_from(ls, blocks@, 0, -1),
        decreases ls.len() - idx,
    {
        let ghost skip = if skipping { skip_until as int } else { -1 };
        let ghost before = result_lines@.map_values(|r: String| r@);
        if skipping && idx <= skip_until {
            idx = idx + 1;
            continue;
        }
        let line = &lines[idx];
        let mut found: Option<usize> = None;
        let mut j: usize = 0;
        while j < blocks.len() && found.is_none()
            invariant
                j <= blocks@.len(),
                found is None ==> first_folded_from(blocks@, idx as int, 0) == first_folded_from(
                    blocks@,
                    idx as int,
                    j as int,
                ),
                found matches Some(x) ==> x as int == first_folded_from(blocks@, idx as int, 0) && x < blocks@.len(),
            decreases blocks@.len() - j + (if found is None { 1int } else { 0 }),
        {
            if blocks[j].folded && blocks[j].start_line == idx {
                found = Some(j);
            } else {
                j = j + 1;
            }
        }
        match found {
            Some(jj) => {
                let b = blocks[jj];
                assert(first_folded_from(blocks@, idx as int, 0) == jj as int);
                proof {
                    lemma_first_folded(blocks@, idx as int, 0);
                }
                assert(blocks@[jj as int].folded && blocks@[jj as int].start_line == idx);
                let mut indent: usize = 0;
                while indent < line.len() && (line[indent] == ' ' || line[indent] == '\t')
                    invariant
                        indent <= line@.len(),
                        indent_end(line@, 0) == indent_end(line@, indent as int),
                    decreases line@.len() - indent,
                {
                    indent = indent + 1;
                }
                let mut marker = String::new();
                let mut n: usize = 0;
                while n < indent
                    invariant
                        n <= indent,
                        marker@ == spaces(n as nat),
                    decreases indent - n,
                {
                    marker.append(" ");
                    proof {
                        reveal_strlit(" ");
                    }
                    assert(marker@ =~= spaces((n + 1) as nat));
                    n = n + 1;
                }
                let folded_count = b.end_line - b.start_line - 1;
                marker.append("{  // [folded: ");
                push_decimal(&mut marker, folded_count as u64);
                marker.append(" lines]");
                assert(marker@ == fold_marker(ls[idx as int], b));
                result_lines.push(marker);
                if b.end_line < lines.len() {
                    result_lines.push(string_of(lines[b.end_line].as_slice()));
                }
                proof {
                    let tail = if b.end_line < ls.len() {
                        seq![ls[b.end_line as int]]
                    } else {
                        Seq::<Seq<char>>::empty()
                    };
                    assert(fold_from(ls, blocks@, idx as int, skip) == seq![fold_marker(ls[idx as int], b)] + tail
                        + fold_from(ls, blocks@, idx + 1, b.end_line as int));
                    assert(result_lines@.map_values(|r: String| r@) =~= before + seq![fold_marker(ls[idx as int], b)]
                        + tail);
                }
                skipping = true;
                skip_until = b.end_line;
            },
            None => {
                result_lines.push(string_of(line.as_slice()));
                proof {
                    assert(result_lines@.map_values(|r: String| r@) =~= before.push(ls[idx as int]));
                }
            },
        }
        idx = idx + 1;
    }
    let ghost all = result_lines@.map_values(|r: String| r@);
    assert(all =~= fold_from(ls, blocks@, 0, -1));
    let mut out = String::new();
    let mut k: usize = 0;
    while k < result_lines.len()
        invariant
            k <= result_lines@.len(),
            all == result_lines@.map_values(|r: String| r@),
            out@ == join_crlf(all.take(k as int)),
        decreases result_lines@.len() - k,
    {
        let ghost prev = out@;
        if k > 0 {
            out.append("\r\n");
        }
        out.append(result_lines[k].as_str());
        proof {
            let t = all.take(k + 1);
            assert(t.drop_last() =~= all.take(k as int));
            if k == 0 {
                assert(t.len() == 1);
                assert(out@ =~= t[0]);
            }
        }
        k = k + 1;
    }
    assert(all.take(all.len() as int) =~= all);
    out
}


/// No kept block lies within a block kept before it.
pub proof fn lemma_outermost_not_nested(s: Seq<(int, int)>)
    ensures
        forall|i: int, j: int|
            0 <= i < j < outermost(s).len() ==> !(#[trigger] outermost(s)[i].0 <= #[trigger] outermost(s)[j].0
                && outermost(s)[j].1 <= outermost(s)[i].1),
    decreases s.len(),
{
    if s.len() > 0 {
        lemma_outermost_not_nested(s.drop_last());
        let r = outermost(s.drop_last());
        if !contained(r, s.last()) {
            let o = outermost(s);
            assert forall|i: int, j: int| 0 <= i < j < o.len() implies !(#[trigger] o[i].0 <= #[trigger] o[j].0
                && o[j].1 <= o[i].1) by {
                if j == o.len() - 1 {
                    assert(o[j] == s.last());
                    assert(o[i] == r[i]);
                } else {
                    assert(o[i] == r[i] && o[j] == r[j]);
                }
            }
        }
    }
}

} // verus!
