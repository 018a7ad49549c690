//! PE32+ import table builder.
//!
//! Layout of the table (all offsets relative to the table's base RVA):
//! the import directory (one 20-byte entry per DLL plus an all-zero terminator),
//! then for each DLL its import address table (one 8-byte thunk per function plus
//! a zero terminator; the lookup table shares it), then the hint/name entries
//! (a zero 16-bit hint and the NUL-terminated name), then the NUL-terminated DLL names.
use vstd::prelude::*;
use crate::bytes::{le16, le32, le64, push_u16_le, push_u32_le, push_u64_le, append_bytes, bytes_eq};
use crate::pe::zeros;
use vstd::string::StringSliceAdditionalSpecFns;

verus! {

/// A DLL as the table sees it: its NUL-terminated name and NUL-terminated function names.
pub type DllModel = (Seq<u8>, Seq<Seq<u8>>);

/// IMAGE_IMPORT_DESCRIPTOR (20 bytes).
#[derive(Debug, Clone, Copy)]
pub struct ImportDirectoryEntry {
    /// RVA of the import lookup table.
    pub original_first_thunk: u32,
    pub time_date_stamp: u32,
    pub forwarder_chain: u32,
    /// RVA of the NUL-terminated DLL name.
    pub name: u32,
    /// RVA of the import address table.
    pub first_thunk: u32,
}

/// The 20 bytes of a directory entry.
pub open spec fn directory_entry_bytes(e: ImportDirectoryEntry) -> Seq<u8> {
    le32(e.original_first_thunk) + le32(e.time_date_stamp) + le32(e.forwarder_chain) + le32(e.name)
        + le32(e.first_thunk)
}

impl ImportDirectoryEntry {
    /// An entry for a DLL whose lookup table, name and address table are at the given RVAs.
    pub fn new(ilt_rva: u32, name_rva: u32, iat_rva: u32) -> (e: Self)
        ensures
            e.original_first_thunk == ilt_rva,
            e.time_date_stamp == 0,
            e.forwarder_chain == 0,
            e.name == name_rva,
            e.first_thunk == iat_rva,
    {
        ImportDirectoryEntry {
            original_first_thunk: ilt_rva,
            time_date_stamp: 0,
            forwarder_chain: 0,
            name: name_rva,
            first_thunk: iat_rva,
        }
    }

    /// The all-zero entry that ends the directory.
    pub fn terminator() -> (e: Self)
        ensures
            e.original_first_thunk == 0,
            e.time_date_stamp == 0,
            e.forwarder_chain == 0,
            e.name == 0,
            e.first_thunk == 0,
    {
        ImportDirectoryEntry {
            original_first_thunk: 0,
            time_date_stamp: 0,
            forwarder_chain: 0,
            name: 0,
            first_thunk: 0,
        }
    }

    fn write(&self, buf: &mut Vec<u8>)
        ensures
            final(buf)@ == old(buf)@ + directory_entry_bytes(*self),
    {
        push_u32_le(buf, self.original_first_thunk);
        push_u32_le(buf, self.time_date_stamp);
        push_u32_le(buf, self.forwarder_chain);
        push_u32_le(buf, self.name);
        push_u32_le(buf, self.first_thunk);
        assert(buf@ =~= old(buf)@ + directory_entry_bytes(*self));
    }
}

// ---------------------------------------------------------------------------
// Layout of the table
// ---------------------------------------------------------------------------

/// Position of the first `x` in `s`, or -1.
pub open spec fn first_index<A>(s: Seq<A>, x: A) -> int
    decreases s.len(),
{
    if s.len() == 0 {
        -1
    } else if s[0] == x {
        0
    } else {
        let r = first_index(s.drop_first(), x);
        if r < 0 {
            -1
        } else {
            r + 1
        }
    }
}

/// The names of the DLLs, in order.
pub open spec fn dll_names(ds: Seq<DllModel>) -> Seq<Seq<u8>> {
    ds.map_values(|d: DllModel| d.0)
}

/// Bytes taken by the address table of a DLL: a thunk per function and a terminator.
pub open spec fn iat_len(d: DllModel) -> int {
    (d.1.len() + 1) * 8int
}

/// Total address-table bytes of the first `k` DLLs.
pub open spec fn sum_iat(ds: Seq<DllModel>, k: int) -> int
    decreases k,
{
    if k <= 0 {
        0
    } else {
        sum_iat(ds, k - 1) + iat_len(ds[k - 1])
    }
}

/// Hint/name bytes of the first `j` functions of a DLL.
pub open spec fn fn_hint_len(fns: Seq<Seq<u8>>, j: int) -> int
    decreases j,
{
    if j <= 0 {
        0
    } else {
        fn_hint_len(fns, j - 1) + 2 + fns[j - 1].len()
    }
}

/// Hint/name bytes of the first `k` DLLs.
pub open spec fn sum_hints(ds: Seq<DllModel>, k: int) -> int
    decreases k,
{
    if k <= 0 {
        0
    } else {
        sum_hints(ds, k - 1) + fn_hint_len(ds[k - 1].1, ds[k - 1].1.len() as int)
    }
}

/// Name bytes of the first `k` DLLs.
pub open spec fn sum_names(ds: Seq<DllModel>, k: int) -> int
    decreases k,
{
    if k <= 0 {
        0
    } else {
        sum_names(ds, k - 1) + ds[k - 1].0.len()
    }
}

/// Size of the import directory for `n` DLLs (with terminator).
pub open spec fn idt_size(n: int) -> int {
    (n + 1) * 20
}

/// Offset of the address table of DLL `k`.
pub open spec fn iat_off(ds: Seq<DllModel>, k: int) -> int {
    idt_size(ds.len() as int) + sum_iat(ds, k)
}

/// Offset where the hint/name entries start.
pub open spec fn strings_start(ds: Seq<DllModel>) -> int {
    iat_off(ds, ds.len() as int)
}

/// Offset of the hint/name entry of function `j` of DLL `k`.
pub open spec fn hint_off(ds: Seq<DllModel>, k: int, j: int) -> int {
    strings_start(ds) + sum_hints(ds, k) + fn_hint_len(ds[k].1, j)
}

/// Offset where the DLL names start.
pub open spec fn names_start(ds: Seq<DllModel>) -> int {
    strings_start(ds) + sum_hints(ds, ds.len() as int)
}

/// Offset of the name of DLL `k`.
pub open spec fn name_off(ds: Seq<DllModel>, k: int) -> int {
    names_start(ds) + sum_names(ds, k)
}

/// Size of the whole table.
pub open spec fn table_size(ds: Seq<DllModel>) -> int {
    name_off(ds, ds.len() as int)
}

/// Directory entries of the first `k` DLLs.
pub open spec fn idt_part(ds: Seq<DllModel>, base: u32, k: int) -> Seq<u8>
    decreases k,
{
    if k <= 0 {
        Seq::empty()
    } else {
        idt_part(ds, base, k - 1) + le32((base + iat_off(ds, k - 1)) as u32) + le32(0) + le32(0)
            + le32((base + name_off(ds, k - 1)) as u32) + le32((base + iat_off(ds, k - 1)) as u32)
    }
}

/// The first `j` thunks of DLL `k`: RVAs of their hint/name entries.
pub open spec fn thunks(ds: Seq<DllModel>, base: u32, k: int, j: int) -> Seq<u8>
    decreases j,
{
    if j <= 0 {
        Seq::empty()
    } else {
        thunks(ds, base, k, j - 1) + le64((base + hint_off(ds, k, j - 1)) as u64)
    }
}

/// Address tables of the first `k` DLLs, each closed by a zero thunk.
pub open spec fn iat_part(ds: Seq<DllModel>, base: u32, k: int) -> Seq<u8>
    decreases k,
{
    if k <= 0 {
        Seq::empty()
    } else {
        iat_part(ds, base, k - 1) + thunks(ds, base, k - 1, ds[k - 1].1.len() as int) + le64(0)
    }
}

/// Hint/name entries of the first `j` functions.
pub open spec fn fn_hints(fns: Seq<Seq<u8>>, j: int) -> Seq<u8>
    decreases j,
{
    if j <= 0 {
        Seq::empty()
    } else {
        fn_hints(fns, j - 1) + le16(0) + fns[j - 1]
    }
}

/// Hint/name entries of the first `k` DLLs.
pub open spec fn hint_part(ds: Seq<DllModel>, k: int) -> Seq<u8>
    decreases k,
{
    if k <= 0 {
        Seq::empty()
    } else {
        hint_part(ds, k - 1) + fn_hints(ds[k - 1].1, ds[k - 1].1.len() as int)
    }
}

/// Names of the first `k` DLLs.
pub open spec fn name_part(ds: Seq<DllModel>, k: int) -> Seq<u8>
    decreases k,
{
    if k <= 0 {
        Seq::empty()
    } else {
        name_part(ds, k - 1) + ds[k - 1].0
    }
}

/// The complete table for `ds` at base RVA `base`.
pub open spec fn import_data(ds: Seq<DllModel>, base: u32) -> Seq<u8> {
    let n = ds.len() as int;
    idt_part(ds, base, n) + zeros(20) + iat_part(ds, base, n) + hint_part(ds, n) + name_part(ds, n)
}

/// The DLL list after `add_import` records a function that was not there yet.
pub open spec fn with_import(ds: Seq<DllModel>, dll: Seq<u8>, f: Seq<u8>) -> Seq<DllModel> {
    let k = first_index(dll_names(ds), dll);
    if k >= 0 {
        ds.update(k, (ds[k].0, ds[k].1.push(f)))
    } else {
        ds.push((dll, seq![f]))
    }
}

/// The offset `add_import` gives a function that was not there yet.
pub open spec fn next_iat_offset(ds: Seq<DllModel>, dll: Seq<u8>) -> int {
    let k = first_index(dll_names(ds), dll);
    if k >= 0 {
        idt_size(ds.len() as int) + sum_iat(ds, k) + ds[k].1.len() * 8
    } else {
        idt_size(ds.len() + 1int) + sum_iat(ds, ds.len() as int)
    }
}

/// Whether every recorded address-table offset is where `build` puts that function's thunk.
pub open spec fn offsets_current(ds: Seq<DllModel>, iats: Seq<Seq<u32>>) -> bool {
    forall|k: int, j: int|
        0 <= k < ds.len() && 0 <= j < ds[k].1.len() ==> #[trigger] iats[k][j] == iat_off(ds, k) + 8 * j
}

// ---------------------------------------------------------------------------
// Lemmas about the layout
// ---------------------------------------------------------------------------

proof fn lemma_first_index<A>(s: Seq<A>, x: A, k: int)
    requires
        0 <= k <= s.len(),
        forall|i: int| 0 <= i < k ==> s[i] != x,
    ensures
        k < s.len() && s[k] == x ==> first_index(s, x) == k,
        k == s.len() ==> first_index(s, x) == -1,
    decreases k,
{
    if s.len() > 0 && k > 0 {
        assert forall|i: int| 0 <= i < k - 1 implies s.drop_first()[i] != x by {
            assert(s.drop_first()[i] == s[i + 1]);
        }
        lemma_first_index(s.drop_first(), x, k - 1);
    }
}

proof fn lemma_first_index_bounds<A>(s: Seq<A>, x: A)
    ensures
        -1 <= first_index(s, x) < s.len(),
        first_index(s, x) >= 0 ==> s[first_index(s, x)] == x,
        first_index(s, x) < 0 ==> forall|i: int| 0 <= i < s.len() ==> s[i] != x,
    decreases s.len(),
{
    if s.len() > 0 && s[0] != x {
        lemma_first_index_bounds(s.drop_first(), x);
        if first_index(s, x) < 0 {
            assert forall|i: int| 0 <= i < s.len() implies s[i] != x by {
                if i > 0 {
                    assert(s[i] == s.drop_first()[i - 1]);
                }
            }
        }
    }
}

proof fn lemma_sums_monotone(ds: Seq<DllModel>, a: int, b: int)
    requires
        0 <= a <= b <= ds.len(),
    ensures
        sum_iat(ds, a) <= sum_iat(ds, b),
        sum_hints(ds, a) <= sum_hints(ds, b),
        sum_names(ds, a) <= sum_names(ds, b),
        sum_iat(ds, a) >= 0,
        sum_hints(ds, a) >= 0,
        sum_names(ds, a) >= 0,
    decreases b,
{
    if a < b {
        lemma_sums_monotone(ds, a, b - 1);
        lemma_fn_hint_monotone(ds[b - 1].1, 0, ds[b - 1].1.len() as int);
    } else if a > 0 {
        lemma_sums_monotone(ds, a - 1, a - 1);
        lemma_fn_hint_monotone(ds[a - 1].1, 0, ds[a - 1].1.len() as int);
    }
}

proof fn lemma_fn_hint_monotone(fns: Seq<Seq<u8>>, a: int, b: int)
    requires
        0 <= a <= b <= fns.len(),
    ensures
        0 <= fn_hint_len(fns, a) <= fn_hint_len(fns, b),
    decreases b,
{
    if a < b {
        lemma_fn_hint_monotone(fns, a, b - 1);
    } else if a > 0 {
        lemma_fn_hint_monotone(fns, a - 1, a - 1);
    }
}

/// Offsets within the table, in order: every part fits before the total size.
proof fn lemma_offsets_bounded(ds: Seq<DllModel>)
    ensures
        idt_size(ds.len() as int) <= strings_start(ds) <= names_start(ds) <= table_size(ds),
        forall|k: int| 0 <= k <= ds.len() ==> #[trigger] iat_off(ds, k) <= strings_start(ds),
        forall|k: int| 0 <= k <= ds.len() ==> #[trigger] name_off(ds, k) <= table_size(ds),
{
    lemma_sums_monotone(ds, 0, ds.len() as int);
    assert forall|k: int| 0 <= k <= ds.len() implies #[trigger] iat_off(ds, k) <= strings_start(ds) by {
        lemma_sums_monotone(ds, k, ds.len() as int);
    }
    assert forall|k: int| 0 <= k <= ds.len() implies #[trigger] name_off(ds, k) <= table_size(ds) by {
        lemma_sums_monotone(ds, k, ds.len() as int);
    }
}

proof fn lemma_push_sums(ds: Seq<DllModel>, d: DllModel, k: int)
    requires
        0 <= k <= ds.len(),
    ensures
        sum_iat(ds.push(d), k) == sum_iat(ds, k),
        sum_hints(ds.push(d), k) == sum_hints(ds, k),
        sum_names(ds.push(d), k) == sum_names(ds, k),
    decreases k,
{
    if k > 0 {
        lemma_push_sums(ds, d, k - 1);
        assert(ds.push(d)[k - 1] == ds[k - 1]);
    }
}

proof fn lemma_update_sums(ds: Seq<DllModel>, k0: int, d: DllModel, k: int)
    requires
        0 <= k0 < ds.len(),
        0 <= k <= ds.len(),
    ensures
        k <= k0 ==> sum_iat(ds.update(k0, d), k) == sum_iat(ds, k),
        k <= k0 ==> sum_hints(ds.update(k0, d), k) == sum_hints(ds, k),
        k <= k0 ==> sum_names(ds.update(k0, d), k) == sum_names(ds, k),
        k > k0 ==> sum_iat(ds.update(k0, d), k) == sum_iat(ds, k) + iat_len(d) - iat_len(ds[k0]),
        k > k0 ==> sum_hints(ds.update(k0, d), k) == sum_hints(ds, k) + fn_hint_len(d.1, d.1.len() as int)
            - fn_hint_len(ds[k0].1, ds[k0].1.len() as int),
        k > k0 ==> sum_names(ds.update(k0, d), k) == sum_names(ds, k) + d.0.len() - ds[k0].0.len(),
    decreases k,
{
    if k > 0 {
        lemma_update_sums(ds, k0, d, k - 1);
    }
}

/// Adding a function or a DLL never shrinks the table.
proof fn lemma_with_import_grows(ds: Seq<DllModel>, dll: Seq<u8>, f: Seq<u8>)
    ensures
        table_size(ds) <= table_size(with_import(ds, dll, f)),
        next_iat_offset(ds, dll) + 8 <= table_size(with_import(ds, dll, f)),
{
    let k = first_index(dll_names(ds), dll);
    lemma_first_index_bounds(dll_names(ds), dll);
    let n = ds.len() as int;
    let ds2 = with_import(ds, dll, f);
    lemma_sums_monotone(ds, 0, n);
    if k >= 0 {
        let d2 = (ds[k].0, ds[k].1.push(f));
        lemma_update_sums(ds, k, d2, n);
        lemma_update_sums(ds, k, d2, k);
        assert(fn_hint_len(d2.1, d2.1.len() as int) == fn_hint_len(ds[k].1, ds[k].1.len() as int) + 2 + f.len()) by {
            lemma_fn_hint_prefix(ds[k].1, f, ds[k].1.len() as int);
        }
        lemma_sums_monotone(ds, k, n);
        lemma_sums_monotone(ds2, k + 1, n);
        lemma_update_sums(ds, k, d2, k + 1);
    } else {
        lemma_push_sums(ds, (dll, seq![f]), n);
        lemma_fn_hint_monotone(seq![f], 0, 1);
    }
}

proof fn lemma_fn_hint_prefix(fns: Seq<Seq<u8>>, f: Seq<u8>, j: int)
    requires
        0 <= j <= fns.len(),
    ensures
        fn_hint_len(fns.push(f), j) == fn_hint_len(fns, j),
        j == fns.len() ==> fn_hint_len(fns.push(f), j + 1) == fn_hint_len(fns, j) + 2 + f.len(),
    decreases j,
{
    if j > 0 {
        lemma_fn_hint_prefix(fns, f, j - 1);
        assert(fns.push(f)[j - 1] == fns[j - 1]);
    }
}

/// Every hint/name offset lies between the start of the strings and the DLL names.
proof fn lemma_hint_off_bounded(ds: Seq<DllModel>, k: int, j: int)
    requires
        0 <= k < ds.len(),
        0 <= j <= ds[k].1.len(),
    ensures
        strings_start(ds) <= hint_off(ds, k, j) <= names_start(ds),
        j == ds[k].1.len() ==> hint_off(ds, k, j) == strings_start(ds) + sum_hints(ds, k + 1),
{
    lemma_fn_hint_monotone(ds[k].1, j, ds[k].1.len() as int);
    lemma_fn_hint_monotone(ds[k].1, 0, j);
    lemma_sums_monotone(ds, 0, k);
    lemma_sums_monotone(ds, k + 1, ds.len() as int);
}


// ---------------------------------------------------------------------------
// What the table says about each recorded function
// ---------------------------------------------------------------------------

proof fn lemma_sub_left<A>(a: Seq<A>, b: Seq<A>, lo: int, hi: int)
    requires
        0 <= lo <= hi <= a.len(),
    ensures
        (a + b).subrange(lo, hi) == a.subrange(lo, hi),
{
    assert((a + b).subrange(lo, hi) =~= a.subrange(lo, hi));
}

proof fn lemma_sub_right<A>(a: Seq<A>, b: Seq<A>, lo: int, hi: int)
    requires
        a.len() <= lo <= hi <= a.len() + b.len(),
    ensures
        (a + b).subrange(lo, hi) == b.subrange(lo - a.len(), hi - a.len()),
{
    assert((a + b).subrange(lo, hi) =~= b.subrange(lo - a.len(), hi - a.len()));
}

proof fn lemma_sub_sub<A>(s: Seq<A>, a: int, b: int, c: int, d: int)
    requires
        0 <= a <= b <= s.len(),
        0 <= c <= d <= b - a,
    ensures
        s.subrange(a, b).subrange(c, d) == s.subrange(a + c, a + d),
{
    assert(s.subrange(a, b).subrange(c, d) =~= s.subrange(a + c, a + d));
}

proof fn lemma_idt_len(ds: Seq<DllModel>, base: u32, k: int)
    requires
        0 <= k,
    ensures
        idt_part(ds, base, k).len() == 20 * k,
    decreases k,
{
    if k > 0 {
        lemma_idt_len(ds, base, k - 1);
    }
}

proof fn lemma_thunks_len(ds: Seq<DllModel>, base: u32, k: int, m: int)
    requires
        0 <= m,
    ensures
        thunks(ds, base, k, m).len() == 8 * m,
    decreases m,
{
    if m > 0 {
        lemma_thunks_len(ds, base, k, m - 1);
    }
}

proof fn lemma_thunks(ds: Seq<DllModel>, base: u32, k: int, m: int, j: int)
    requires
        0 <= j < m,
    ensures
        thunks(ds, base, k, m).subrange(8 * j, 8 * j + 8) == le64((base + hint_off(ds, k, j)) as u64),
    decreases m,
{
    let t = thunks(ds, base, k, m - 1);
    let x = le64((base + hint_off(ds, k, m - 1)) as u64);
    lemma_thunks_len(ds, base, k, m - 1);
    if m - 1 > j {
        lemma_thunks(ds, base, k, m - 1, j);
        lemma_sub_left(t, x, 8 * j, 8 * j + 8);
    } else {
        lemma_sub_right(t, x, 8 * j, 8 * j + 8);
        assert(x.subrange(0, 8) =~= x);
    }
}

proof fn lemma_iat_part_len(ds: Seq<DllModel>, base: u32, n: int)
    requires
        0 <= n <= ds.len(),
    ensures
        iat_part(ds, base, n).len() == sum_iat(ds, n),
    decreases n,
{
    if n > 0 {
        lemma_iat_part_len(ds, base, n - 1);
        lemma_thunks_len(ds, base, n - 1, ds[n - 1].1.len() as int);
    }
}

proof fn lemma_iat_part(ds: Seq<DllModel>, base: u32, n: int, k: int)
    requires
        0 <= k < n <= ds.len(),
    ensures
        iat_part(ds, base, n).subrange(sum_iat(ds, k), sum_iat(ds, k) + 8 * ds[k].1.len())
            == thunks(ds, base, k, ds[k].1.len() as int),
    decreases n,
{
    let m = ds[k].1.len() as int;
    let lo = sum_iat(ds, k);
    let hi = lo + 8 * m;
    let p = iat_part(ds, base, n - 1);
    let t = thunks(ds, base, n - 1, ds[n - 1].1.len() as int);
    let z = le64(0);
    lemma_iat_part_len(ds, base, n - 1);
    lemma_thunks_len(ds, base, n - 1, ds[n - 1].1.len() as int);
    lemma_sums_monotone(ds, k, k + 1);
    if n - 1 > k {
        lemma_iat_part(ds, base, n - 1, k);
        lemma_sums_monotone(ds, k + 1, n - 1);
        lemma_sub_left(p + t, z, lo, hi);
        lemma_sub_left(p, t, lo, hi);
    } else {
        lemma_sub_left(p + t, z, lo, hi);
        lemma_sub_right(p, t, lo, hi);
        assert(t.subrange(0, 8 * m) =~= t);
    }
}

proof fn lemma_fn_hints_len(fns: Seq<Seq<u8>>, m: int)
    requires
        0 <= m <= fns.len(),
    ensures
        fn_hints(fns, m).len() == fn_hint_len(fns, m),
    decreases m,
{
    if m > 0 {
        lemma_fn_hints_len(fns, m - 1);
    }
}

proof fn lemma_fn_hints(fns: Seq<Seq<u8>>, m: int, j: int)
    requires
        0 <= j < m <= fns.len(),
    ensures
        fn_hints(fns, m).subrange(fn_hint_len(fns, j) + 2, fn_hint_len(fns, j) + 2 + fns[j].len()) == fns[j],
    decreases m,
{
    let lo = fn_hint_len(fns, j) + 2;
    let hi = lo + fns[j].len();
    let p = fn_hints(fns, m - 1) + le16(0);
    lemma_fn_hints_len(fns, m - 1);
    lemma_fn_hint_monotone(fns, j, j + 1);
    if m - 1 > j {
        lemma_fn_hints(fns, m - 1, j);
        lemma_fn_hint_monotone(fns, j + 1, m - 1);
        lemma_sub_left(p, fns[m - 1], lo, hi);
        lemma_sub_left(fn_hints(fns, m - 1), le16(0), lo, hi);
    } else {
        lemma_sub_right(p, fns[m - 1], lo, hi);
        assert(fns[j].subrange(0, fns[j].len() as int) =~= fns[j]);
    }
}

proof fn lemma_hint_part_len(ds: Seq<DllModel>, n: int)
    requires
        0 <= n <= ds.len(),
    ensures
        hint_part(ds, n).len() == sum_hints(ds, n),
    decreases n,
{
    if n > 0 {
        lemma_hint_part_len(ds, n - 1);
        lemma_fn_hints_len(ds[n - 1].1, ds[n - 1].1.len() as int);
    }
}

proof fn lemma_hint_part(ds: Seq<DllModel>, n: int, k: int, j: int)
    requires
        0 <= k < n <= ds.len(),
        0 <= j < ds[k].1.len(),
    ensures
        hint_part(ds, n).subrange(
            sum_hints(ds, k) + fn_hint_len(ds[k].1, j) + 2,
            sum_hints(ds, k) + fn_hint_len(ds[k].1, j) + 2 + ds[k].1[j].len(),
        ) == ds[k].1[j],
    decreases n,
{
    let fns = ds[k].1;
    let m = fns.len() as int;
    lemma_fn_hint_monotone(fns, j + 1, m);
    lemma_fn_hint_monotone(fns, j, j + 1);
    lemma_sums_monotone(ds, k, k + 1);
    let lo = sum_hints(ds, k) + fn_hint_len(fns, j) + 2;
    let hi = lo + fns[j].len();
    let p = hint_part(ds, n - 1);
    let q = fn_hints(ds[n - 1].1, ds[n - 1].1.len() as int);
    lemma_hint_part_len(ds, n - 1);
    lemma_fn_hints_len(ds[n - 1].1, ds[n - 1].1.len() as int);
    if n - 1 > k {
        lemma_hint_part(ds, n - 1, k, j);
        lemma_sums_monotone(ds, k + 1, n - 1);
        lemma_sub_left(p, q, lo, hi);
    } else {
        lemma_fn_hints(fns, m, j);
        lemma_sub_right(p, q, lo, hi);
    }
}

/// What the table promises each function: at `iat_off(ds, k) + 8 * j` stands the thunk of
/// function `j` of DLL `k`, the RVA of its hint/name entry, and two bytes past that entry's
/// start stands the function's NUL-terminated name.
pub proof fn lemma_import_slot(ds: Seq<DllModel>, base: u32, k: int, j: int)
    requires
        0 <= k < ds.len(),
        0 <= j < ds[k].1.len(),
    ensures
        ({
            let data = import_data(ds, base);
            let slot = iat_off(ds, k) + 8 * j;
            let h = hint_off(ds, k, j);
            &&& data.subrange(slot, slot + 8) == le64((base + h) as u64)
            &&& data.subrange(h + 2, h + 2 + ds[k].1[j].len()) == ds[k].1[j]
        }),
{
    let n = ds.len() as int;
    let m = ds[k].1.len() as int;
    let a = idt_part(ds, base, n) + zeros(20);
    let ip = iat_part(ds, base, n);
    let hp = hint_part(ds, n);
    let np = name_part(ds, n);
    lemma_idt_len(ds, base, n);
    lemma_iat_part_len(ds, base, n);
    lemma_hint_part_len(ds, n);
    lemma_sums_monotone(ds, k + 1, n);
    lemma_sums_monotone(ds, k, k + 1);
    assert(a.len() == idt_size(n));
    // the thunk
    let slot = iat_off(ds, k) + 8 * j;
    let s = sum_iat(ds, k);
    lemma_sub_left(a + ip + hp, np, slot, slot + 8);
    lemma_sub_left(a + ip, hp, slot, slot + 8);
    lemma_sub_right(a, ip, slot, slot + 8);
    lemma_sub_sub(ip, s, s + 8 * m, 8 * j, 8 * j + 8);
    lemma_iat_part(ds, base, n, k);
    lemma_thunks(ds, base, k, m, j);
    // the name
    let h = hint_off(ds, k, j);
    let lo = sum_hints(ds, k) + fn_hint_len(ds[k].1, j) + 2;
    let hi = lo + ds[k].1[j].len();
    lemma_fn_hint_monotone(ds[k].1, j + 1, m);
    lemma_fn_hint_monotone(ds[k].1, j, j + 1);
    lemma_sub_left(a + ip + hp, np, h + 2, h + 2 + ds[k].1[j].len());
    lemma_sub_right(a + ip, hp, h + 2, h + 2 + ds[k].1[j].len());
    lemma_hint_part(ds, n, k, j);
}

/// When each recorded offset is current, the RVA recorded for function `j` of DLL `k`
/// is that of a slot naming that function.
pub proof fn lemma_recorded_slot(b: ImportTableBuilder, k: int, j: int)
    requires
        b.wf(),
        offsets_current(b.dlls(), b.iats()),
        0 <= k < b.dlls().len(),
        0 <= j < b.dlls()[k].1.len(),
    ensures
        ({
            let ds = b.dlls();
            let data = import_data(ds, b.base());
            let slot = b.iats()[k][j] as int;
            let h = hint_off(ds, k, j);
            &&& data.subrange(slot, slot + 8) == le64((b.base() + h) as u64)
            &&& data.subrange(h + 2, h + 2 + ds[k].1[j].len()) == ds[k].1[j]
        }),
{
    lemma_import_slot(b.dlls(), b.base(), k, j);
    assert(b.iats()[k][j] == iat_off(b.dlls(), k) + 8 * j);
}

/// Recorded offsets stay current when a function is added to a registered DLL while
/// every DLL after it still has no functions (so adding DLL by DLL, after registering
/// them all, keeps every returned RVA valid), or when the first function of a new DLL
/// is added while no DLL has functions yet; the new offset is then that of the
/// function's slot.
pub proof fn lemma_add_keeps_offsets_current(ds: Seq<DllModel>, iats: Seq<Seq<u32>>, dll: Seq<u8>, f: Seq<u8>)
    requires
        iats.len() == ds.len(),
        forall|k: int| 0 <= k < ds.len() ==> #[trigger] iats[k].len() == ds[k].1.len(),
        offsets_current(ds, iats),
        first_index(dll_names(ds), dll) >= 0 ==> forall|k: int|
            first_index(dll_names(ds), dll) < k < ds.len() ==> #[trigger] ds[k].1.len() == 0,
        first_index(dll_names(ds), dll) < 0 ==> forall|k: int| 0 <= k < ds.len() ==> #[trigger] ds[k].1.len() == 0,
        next_iat_offset(ds, dll) <= u32::MAX,
    ensures
        ({
            let k = first_index(dll_names(ds), dll);
            let off = next_iat_offset(ds, dll);
            let ds2 = with_import(ds, dll, f);
            let iats2 = if k >= 0 {
                iats.update(k, iats[k].push(off as u32))
            } else {
                iats.push(seq![off as u32])
            };
            &&& offsets_current(ds2, iats2)
            &&& k >= 0 ==> off == iat_off(ds2, k) + 8 * ds[k].1.len()
            &&& k < 0 ==> off == iat_off(ds2, ds.len() as int)
        }),
{
    let k0 = first_index(dll_names(ds), dll);
    lemma_first_index_bounds(dll_names(ds), dll);
    let off = next_iat_offset(ds, dll);
    let ds2 = with_import(ds, dll, f);
    let n = ds.len() as int;
    lemma_sums_monotone(ds, n, n);
    if k0 >= 0 {
        lemma_sums_monotone(ds, k0, k0);
        assert(off == (off as u32) as int);
        let d2 = (ds[k0].0, ds[k0].1.push(f));
        let iats2 = iats.update(k0, iats[k0].push(off as u32));
        assert(ds2 == ds.update(k0, d2));
        assert forall|k: int, j: int| 0 <= k < ds2.len() && 0 <= j < ds2[k].1.len() implies
            #[trigger] iats2[k][j] == iat_off(ds2, k) + 8 * j by {
            lemma_update_sums(ds, k0, d2, k);
            if k == k0 {
                assert(iats2[k] == iats[k0].push(off as u32));
                if j < ds[k0].1.len() {
                    assert(iats2[k][j] == iats[k][j]);
                }
            } else {
                assert(ds2[k] == ds[k]);
                assert(iats2[k] == iats[k]);
            }
        }
        lemma_update_sums(ds, k0, d2, k0);
    } else {
        assert(off == (off as u32) as int);
        let d2 = (dll, seq![f]);
        let iats2 = iats.push(seq![off as u32]);
        assert(ds2 == ds.push(d2));
        assert forall|k: int, j: int| 0 <= k < ds2.len() && 0 <= j < ds2[k].1.len() implies
            #[trigger] iats2[k][j] == iat_off(ds2, k) + 8 * j by {
            lemma_push_sums(ds, d2, k);
            if k < n {
                assert(ds2[k] == ds[k]);
            } else {
                assert(iats2[k] == seq![off as u32]);
            }
        }
        lemma_push_sums(ds, d2, n);
    }
}

// ---------------------------------------------------------------------------
// Builder
// ---------------------------------------------------------------------------

#[derive(Debug, Clone)]
struct DllImport {
    /// DLL name with its terminating NUL.
    dll_name: Vec<u8>,
    /// Function names, each with its terminating NUL.
    functions: Vec<Vec<u8>>,
    /// Address-table offset recorded for each function, relative to the base RVA.
    iat_entries: Vec<u32>,
}

spec fn dll_model(d: DllImport) -> DllModel {
    (d.dll_name@, d.functions@.map_values(|f: Vec<u8>| f@))
}

/// Builder of one import table.
#[derive(Debug, Clone)]
pub struct ImportTableBuilder {
    dlls: Vec<DllImport>,
    base_rva: u32,
}

/// `s` as bytes with a terminating NUL.
fn nul_terminated(s: &str) -> (v: Vec<u8>)
    ensures
        v@ == s.spec_bytes().push(0),
{
    let mut v: Vec<u8> = Vec::new();
    append_bytes(&mut v, s.as_bytes());
    v.push(0);
    assert(v@ =~= s.spec_bytes().push(0));
    v
}


impl ImportTableBuilder {
    /// The DLLs and their functions, in insertion order.
    pub closed spec fn dlls(&self) -> Seq<DllModel> {
        self.dlls@.map_values(|d: DllImport| dll_model(d))
    }

    /// The address-table offsets recorded for each function of each DLL.
    pub closed spec fn iats(&self) -> Seq<Seq<u32>> {
        self.dlls@.map_values(|d: DllImport| d.iat_entries@)
    }

    /// The base RVA of the table.
    pub closed spec fn base(&self) -> u32 {
        self.base_rva
    }

    /// DLL names are distinct, function names are distinct within a DLL, every
    /// function has a recorded offset, and every recorded offset lies inside the table.
    pub closed spec fn wf(&self) -> bool {
        let ds = self.dlls();
        &&& forall|k: int|
            0 <= k < self.dlls@.len() ==> #[trigger] self.dlls@[k].functions@.len()
                == self.dlls@[k].iat_entries@.len()
        &&& forall|a: int, b: int|
            0 <= a < b < ds.len() ==> #[trigger] ds[a].0 != #[trigger] ds[b].0
        &&& forall|k: int, a: int, b: int|
            0 <= k < ds.len() && 0 <= a < b < ds[k].1.len() ==> #[trigger] ds[k].1[a]
                != #[trigger] ds[k].1[b]
        &&& forall|k: int, j: int|
            0 <= k < ds.len() && 0 <= j < ds[k].1.len() ==> #[trigger] self.iats()[k][j] + 8
                <= table_size(ds)
    }

    /// An empty table at base RVA 0x2000.
    pub fn new() -> (b: Self)
        ensures
            b.wf(),
            b.dlls() == Seq::<DllModel>::empty(),
            b.base() == 0x2000,
    {
        let b = ImportTableBuilder { dlls: Vec::new(), base_rva: 0x2000 };
        assert(b.dlls() =~= Seq::<DllModel>::empty());
        b
    }

    /// Sets the base RVA (the RVA of the import section).
    pub fn set_base_rva(&mut self, rva: u32)
        requires
            old(self).wf(),
        ensures
            final(self).wf(),
            final(self).dlls() == old(self).dlls(),
            final(self).iats() == old(self).iats(),
            final(self).base() == rva,
    {
        self.base_rva = rva;
        assert(self.dlls() == old(self).dlls());
        assert(self.iats() == old(self).iats());
    }

    /// Whether `add_import(dll, f)` stays within 32-bit RVAs: the RVA it returns fits.
    pub open spec fn add_import_fits(&self, dll: Seq<u8>, f: Seq<u8>) -> bool {
        let ds = self.dlls();
        let k = first_index(dll_names(ds), dll);
        let j = if k >= 0 { first_index(ds[k].1, f) } else { -1 };
        if k >= 0 && j >= 0 {
            self.base() + self.iats()[k][j] <= u32::MAX
        } else {
            self.base() + next_iat_offset(ds, dll) <= u32::MAX
        }
    }

    /// Whether `add_import(dll_name, function_name)` may be called: the RVA it would
    /// return fits in 32 bits.
    pub fn import_fits(&self, dll_name: &str, function_name: &str) -> (b: bool)
        requires
            self.wf(),
        ensures
            b == self.add_import_fits(dll_name.spec_bytes().push(0), function_name.spec_bytes().push(0)),
    {
        let d = nul_terminated(dll_name);
        let f = nul_terminated(function_name);
        let ghost ds = self.dlls();
        proof {
            lemma_first_index_bounds(dll_names(ds), d@);
        }
        let found = self.find_dll(&d);
        if let Some(k) = found {
            proof {
                lemma_first_index_bounds(ds[k as int].1, f@);
            }
            if let Some(j) = self.find_function(k, &f) {
                assert(self.dlls@[k as int].iat_entries@ == self.iats()[k as int]);
                return (self.base_rva as u64) + (self.dlls[k].iat_entries[j] as u64) <= u32::MAX as u64;
            }
        }
        match self.next_offset_checked(&d) {
            Some(o) => (self.base_rva as u64) + (o as u64) <= u32::MAX as u64,
            None => false,
        }
    }

    /// The next address-table offset for `target_dll_name`, or none when it does not
    /// fit in 32 bits.
    fn next_offset_checked(&self, target_dll_name: &Vec<u8>) -> (r: Option<u32>)
        requires
            self.wf(),
        ensures
            match r {
                Some(o) => o == next_iat_offset(self.dlls(), target_dll_name@),
                None => next_iat_offset(self.dlls(), target_dll_name@) > u32::MAX,
            },
    {
        let ghost ds = self.dlls();
        let ghost names = dll_names(ds);
        let ghost kk = first_index(names, target_dll_name@);
        proof {
            lemma_first_index_bounds(names, target_dll_name@);
            lemma_sums_monotone(ds, 0, ds.len() as int);
        }
        let found = self.find_dll(target_dll_name);
        let dll_exists = found.is_some();
        let n = self.dlls.len();
        let dll_count: u128 = if dll_exists { n as u128 } else { n as u128 + 1 };
        let mut offset: u128 = (dll_count + 1) * 20;
        let mut i: usize = 0;
        while i < n
            invariant
                n == ds.len(),
                ds == self.dlls(),
                names == dll_names(ds),
                kk == first_index(names, target_dll_name@),
                -1 <= kk < ds.len(),
                kk >= 0 ==> names[kk] == target_dll_name@,
                dll_exists == (kk >= 0),
                i <= ds.len(),
                kk >= 0 ==> i <= kk,
                offset == idt_size(dll_count as int) + sum_iat(ds, i as int),
                offset < 0x40_0000_0000_0000_0000,
                dll_count == if kk >= 0 { ds.len() as int } else { ds.len() + 1int },
                forall|t: int| 0 <= t < i ==> names[t] != target_dll_name@,
            decreases ds.len() - i,
        {
            proof {
                if kk >= 0 {
                    lemma_sums_monotone(ds, i as int, kk);
                } else {
                    lemma_sums_monotone(ds, i as int, ds.len() as int);
                }
            }
            if offset > u32::MAX as u128 {
                return None;
            }
            let nf = self.dlls[i].functions.len();
            assert(nf == ds[i as int].1.len());
            assert(names[i as int] == self.dlls@[i as int].dll_name@);
            if bytes_eq(self.dlls[i].dll_name.as_slice(), target_dll_name.as_slice()) {
                proof {
                    lemma_first_index(names, target_dll_name@, i as int);
                }
                let r = offset + nf as u128 * 8;
                if r > u32::MAX as u128 {
                    return None;
                }
                return Some(r as u32);
            }
            offset = offset + (nf as u128 + 1) * 8;
            i = i + 1;
        }
        proof {
            if kk >= 0 {
                lemma_first_index(names, target_dll_name@, kk);
            }
        }
        if offset > u32::MAX as u128 {
            return None;
        }
        Some(offset as u32)
    }

    fn find_dll(&self, name: &Vec<u8>) -> (r: Option<usize>)
        requires
            self.wf(),
        ensures
            r matches Some(k) ==> k as int == first_index(dll_names(self.dlls()), name@),
            r is None ==> first_index(dll_names(self.dlls()), name@) < 0,
    {
        let ghost names = dll_names(self.dlls());
        let mut k: usize = 0;
        while k < self.dlls.len()
            invariant
                names == dll_names(self.dlls()),
                k <= self.dlls@.len(),
                forall|i: int| 0 <= i < k ==> names[i] != name@,
            decreases self.dlls@.len() - k,
        {
            assert(names[k as int] == self.dlls@[k as int].dll_name@);
            if bytes_eq(self.dlls[k].dll_name.as_slice(), name.as_slice()) {
                proof {
                    lemma_first_index(names, name@, k as int);
                }
                return Some(k);
            }
            k = k + 1;
        }
        proof {
            lemma_first_index(names, name@, k as int);
        }
        None
    }

    fn find_function(&self, k: usize, f: &Vec<u8>) -> (r: Option<usize>)
        requires
            self.wf(),
            k < self.dlls().len(),
        ensures
            r matches Some(j) ==> j as int == first_index(self.dlls()[k as int].1, f@),
            r is None ==> first_index(self.dlls()[k as int].1, f@) < 0,
    {
        let ghost fns = self.dlls()[k as int].1;
        let dll = &self.dlls[k];
        assert(fns == dll.functions@.map_values(|v: Vec<u8>| v@));
        let mut j: usize = 0;
        while j < dll.functions.len()
            invariant
                fns == dll.functions@.map_values(|v: Vec<u8>| v@),
                k < self.dlls().len(),
                fns == self.dlls()[k as int].1,
                j <= dll.functions@.len(),
                forall|t: int| 0 <= t < j ==> fns[t] != f@,
            decreases dll.functions@.len() - j,
        {
            assert(fns[j as int] == dll.functions@[j as int]@);
            if bytes_eq(dll.functions[j].as_slice(), f.as_slice()) {
                proof {
                    lemma_first_index(fns, f@, j as int);
                }
                return Some(j);
            }
            j = j + 1;
        }
        proof {
            lemma_first_index(fns, f@, j as int);
        }
        None
    }

    /// Registers a DLL without functions, so that the directory size is fixed before
    /// functions are added. A DLL already present is left alone.
    pub fn register_dll(&mut self, dll_name: &str)
        requires
            old(self).wf(),
        ensures
            final(self).wf(),
            final(self).base() == old(self).base(),
            first_index(dll_names(old(self).dlls()), dll_name.spec_bytes().push(0)) >= 0 ==> {
                &&& final(self).dlls() == old(self).dlls()
                &&& final(self).iats() == old(self).iats()
            },
            first_index(dll_names(old(self).dlls()), dll_name.spec_bytes().push(0)) < 0 ==> {
                &&& final(self).dlls() == old(self).dlls().push(
                    (dll_name.spec_bytes().push(0), Seq::<Seq<u8>>::empty()),
                )
                &&& final(self).iats() == old(self).iats().push(Seq::<u32>::empty())
            },
    {
        let dll_owned = nul_terminated(dll_name);
        match self.find_dll(&dll_owned) {
            Some(_) => {},
            None => {
                let ghost ds = self.dlls();
                let ghost d = (dll_owned@, Seq::<Seq<u8>>::empty());
                proof {
                    lemma_first_index_bounds(dll_names(ds), dll_owned@);
                }
                self.dlls.push(DllImport { dll_name: dll_owned, functions: Vec::new(), iat_entries: Vec::new() });
                proof {
                    let ds2 = self.dlls();
                    assert(dll_model(self.dlls@[ds.len() as int]).1 =~= Seq::<Seq<u8>>::empty());
                    assert(ds2 =~= ds.push(d));
                    assert(self.iats() =~= old(self).iats().push(Seq::<u32>::empty()));
                    let n = ds.len() as int;
                    lemma_push_sums(ds, d, n);
                    lemma_sums_monotone(ds, 0, n);
                    assert(table_size(ds) <= table_size(ds2));
                    assert forall|a: int, b: int| 0 <= a < b < ds2.len() implies #[trigger] ds2[a].0 != #[trigger] ds2[b].0 by {
                        if b == n {
                            assert(dll_names(ds)[a] == ds[a].0);
                        }
                    }
                    assert forall|k: int, a: int, b: int|
                        0 <= k < ds2.len() && 0 <= a < b < ds2[k].1.len() implies #[trigger] ds2[k].1[a]
                            != #[trigger] ds2[k].1[b] by {
                        assert(k < n);
                    }
                    assert forall|k: int, j: int|
                        0 <= k < ds2.len() && 0 <= j < ds2[k].1.len() implies #[trigger] self.iats()[k][j] + 8
                            <= table_size(ds2) by {
                        assert(k < n);
                        assert(self.iats()[k] == old(self).iats()[k]);
                    }
                }
            },
        }
    }

    fn calc_next_iat_offset(&self, target_dll_name: &Vec<u8>) -> (off: u32)
        requires
            self.wf(),
            next_iat_offset(self.dlls(), target_dll_name@) <= u32::MAX,
        ensures
            off == next_iat_offset(self.dlls(), target_dll_name@),
    {
        let ghost ds = self.dlls();
        let ghost names = dll_names(ds);
        let ghost kk = first_index(names, target_dll_name@);
        proof {
            lemma_first_index_bounds(names, target_dll_name@);
            lemma_sums_monotone(ds, 0, ds.len() as int);
        }
        let found = self.find_dll(target_dll_name);
        let dll_exists = found.is_some();
        proof {
            if kk >= 0 {
                lemma_sums_monotone(ds, kk, kk);
            }
        }
        let dll_count = if dll_exists { self.dlls.len() } else { self.dlls.len() + 1 };
        let idt_bytes = (dll_count + 1) as u32 * 20;
        let mut offset = idt_bytes;
        let mut i: usize = 0;
        while i < self.dlls.len()
            invariant
                ds == self.dlls(),
                names == dll_names(ds),
                kk == first_index(names, target_dll_name@),
                -1 <= kk < ds.len(),
                kk >= 0 ==> names[kk] == target_dll_name@,
                kk < 0 ==> forall|t: int| 0 <= t < ds.len() ==> names[t] != target_dll_name@,
                dll_exists == (kk >= 0),
                i <= ds.len(),
                kk >= 0 ==> i <= kk,
                offset == idt_size(dll_count as int) + sum_iat(ds, i as int),
                dll_count == if kk >= 0 { ds.len() as int } else { ds.len() + 1int },
                next_iat_offset(ds, target_dll_name@) <= u32::MAX,
                forall|t: int| 0 <= t < i ==> names[t] != target_dll_name@,
            decreases ds.len() - i,
        {
            proof {
                if kk >= 0 {
                    lemma_sums_monotone(ds, i as int, kk);
                    if (i as int) < kk {
                        lemma_sums_monotone(ds, i as int + 1, kk);
                    }
                } else {
                    lemma_sums_monotone(ds, i as int + 1, ds.len() as int);
                }
            }
            let nf = self.dlls[i].functions.len();
            assert(nf == ds[i as int].1.len());
            assert(names[i as int] == self.dlls@[i as int].dll_name@);
            let iat_size = (nf + 1) as u32 * 8;
            if bytes_eq(self.dlls[i].dll_name.as_slice(), target_dll_name.as_slice()) {
                proof {
                    lemma_first_index(names, target_dll_name@, i as int);
                }
                return offset + nf as u32 * 8;
            }
            offset = offset + iat_size;
            i = i + 1;
        }
        offset
    }

    /// Records `function_name` from `dll_name` and returns the RVA of its address-table slot.
    /// A function recorded before gets the RVA it got then.
    pub fn add_import(&mut self, dll_name: &str, function_name: &str) -> (rva: u32)
        requires
            old(self).wf(),
            old(self).add_import_fits(dll_name.spec_bytes().push(0), function_name.spec_bytes().push(0)),
        ensures
            final(self).wf(),
            final(self).base() == old(self).base(),
            ({
                let d = dll_name.spec_bytes().push(0);
                let f = function_name.spec_bytes().push(0);
                let ds = old(self).dlls();
                let k = first_index(dll_names(ds), d);
                let j = if k >= 0 { first_index(ds[k].1, f) } else { -1 };
                if k >= 0 && j >= 0 {
                    &&& rva == old(self).base() + old(self).iats()[k][j]
                    &&& final(self).dlls() == ds
                    &&& final(self).iats() == old(self).iats()
                } else {
                    let off = next_iat_offset(ds, d);
                    &&& rva == old(self).base() + off
                    &&& final(self).dlls() == with_import(ds, d, f)
                    &&& final(self).iats() == if k >= 0 {
                        old(self).iats().update(k, old(self).iats()[k].push(off as u32))
                    } else {
                        old(self).iats().push(seq![off as u32])
                    }
                }
            }),
    {
        let dll_owned = nul_terminated(dll_name);
        let fn_owned = nul_terminated(function_name);
        let ghost ds = self.dlls();
        let ghost d = dll_owned@;
        let ghost f = fn_owned@;
        proof {
            lemma_first_index_bounds(dll_names(ds), d);
            lemma_with_import_grows(ds, d, f);
        }
        let found = self.find_dll(&dll_owned);
        if let Some(k) = found {
            proof {
                lemma_first_index_bounds(ds[k as int].1, f);
            }
            if let Some(pos) = self.find_function(k, &fn_owned) {
                assert(k as int == first_index(dll_names(ds), d));
                assert(pos as int == first_index(ds[k as int].1, f));
                assert(self.dlls@[k as int].iat_entries@ == self.iats()[k as int]);
                assert(self.add_import_fits(d, f));
                assert(self.base_rva + self.iats()[k as int][pos as int] <= u32::MAX);
                return self.base_rva + self.dlls[k].iat_entries[pos];
            }
        }
        let iat_offset = self.calc_next_iat_offset(&dll_owned);
        match found {
            Some(i) => {
                let ghost old_dll = self.dlls@[i as int];
                let mut dll = self.dlls.remove(i);
                dll.functions.push(fn_owned);
                dll.iat_entries.push(iat_offset);
                self.dlls.insert(i, dll);
                proof {
                    let ds2 = self.dlls();
                    let d2 = (ds[i as int].0, ds[i as int].1.push(f));
                    assert(dll_model(self.dlls@[i as int]).1 =~= d2.1);
                    assert(ds2 =~= with_import(ds, d, f));
                    assert(self.iats() =~= old(self).iats().update(i as int, old(self).iats()[i as int].push(iat_offset)));
                    self.lemma_wf_after_add(*old(self), d, f, iat_offset);
                }
            },
            None => {
                let mut functions: Vec<Vec<u8>> = Vec::new();
                functions.push(fn_owned);
                let mut iat_entries: Vec<u32> = Vec::new();
                iat_entries.push(iat_offset);
                self.dlls.push(DllImport { dll_name: dll_owned, functions, iat_entries });
                proof {
                    let ds2 = self.dlls();
                    assert(dll_model(self.dlls@[ds.len() as int]).1 =~= seq![f]);
                    assert(ds2 =~= with_import(ds, d, f));
                    assert(self.iats() =~= old(self).iats().push(seq![iat_offset]));
                    self.lemma_wf_after_add(*old(self), d, f, iat_offset);
                }
            },
        }
        self.base_rva + iat_offset
    }

    proof fn lemma_wf_after_add(&self, old: ImportTableBuilder, d: Seq<u8>, f: Seq<u8>, off: u32)
        requires
            old.wf(),
            off == next_iat_offset(old.dlls(), d),
            ({
                let k = first_index(dll_names(old.dlls()), d);
                &&& k >= 0 ==> first_index(old.dlls()[k].1, f) < 0
                &&& self.dlls() == with_import(old.dlls(), d, f)
                &&& self.iats() == if k >= 0 {
                    old.iats().update(k, old.iats()[k].push(off))
                } else {
                    old.iats().push(seq![off])
                }
            }),
            forall|k: int| 0 <= k < self.dlls@.len() ==> #[trigger] self.dlls@[k].functions@.len()
                == self.dlls@[k].iat_entries@.len(),
        ensures
            self.wf(),
    {
        let ds = old.dlls();
        let ds2 = self.dlls();
        let k0 = first_index(dll_names(ds), d);
        lemma_first_index_bounds(dll_names(ds), d);
        lemma_with_import_grows(ds, d, f);
        if k0 >= 0 {
            lemma_first_index_bounds(ds[k0].1, f);
        }
        assert forall|a: int, b: int| 0 <= a < b < ds2.len() implies #[trigger] ds2[a].0 != #[trigger] ds2[b].0 by {
            if k0 < 0 && b == ds.len() {
                assert(dll_names(ds)[a] == ds[a].0);
            }
        }
        assert forall|k: int, a: int, b: int|
            0 <= k < ds2.len() && 0 <= a < b < ds2[k].1.len() implies #[trigger] ds2[k].1[a]
                != #[trigger] ds2[k].1[b] by {
            if k == k0 && b == ds[k].1.len() {
                assert(ds2[k].1[a] == ds[k].1[a]);
            } else if k0 < 0 && k == ds.len() {
            } else {
                assert(ds2[k].1[a] == ds[k].1[a]);
                assert(ds2[k].1[b] == ds[k].1[b]);
            }
        }
        assert forall|k: int, j: int|
            0 <= k < ds2.len() && 0 <= j < ds2[k].1.len() implies #[trigger] self.iats()[k][j] + 8
                <= table_size(ds2) by {
            if (k == k0 && j == ds[k].1.len()) || (k0 < 0 && k == ds.len()) {
                assert(self.iats()[k][j] == off);
            } else {
                assert(self.iats()[k][j] == old.iats()[k][j]);
            }
        }
    }

    /// Writes the table. Returns the bytes, the RVA of the import directory (the base
    /// RVA) and the directory size (including its terminator).
    #[verifier::rlimit(40)]
    pub fn build(&self) -> (r: (Vec<u8>, u32, u32))
        requires
            self.wf(),
            self.base() + table_size(self.dlls()) <= u32::MAX,
        ensures
            r.0@ == import_data(self.dlls(), self.base()),
            r.1 == self.base(),
            r.2 == idt_size(self.dlls().len() as int),
    {
        let ghost ds = self.dlls();
        let base = self.base_rva;
        let n = self.dlls.len();
        proof {
            lemma_offsets_bounded(ds);
            lemma_sums_monotone(ds, 0, n as int);
        }
        let mut data: Vec<u8> = Vec::with_capacity(256);
        let idt_bytes = (n + 1) as u32 * 20;

        // Where the hint/name entries start: after the directory and all address tables.
        let mut cursor = idt_bytes;
        let mut i: usize = 0;
        while i < n
            invariant
                ds == self.dlls(),
                n == ds.len(),
                i <= n,
                base + table_size(ds) <= u32::MAX,
                cursor == iat_off(ds, i as int),
                forall|k: int| 0 <= k <= ds.len() ==> #[trigger] iat_off(ds, k) <= strings_start(ds),
                strings_start(ds) <= table_size(ds),
            decreases n - i,
        {
            let nf = self.dlls[i].functions.len();
            assert(nf == ds[i as int].1.len());
            assert(iat_off(ds, i as int + 1) <= strings_start(ds));
            cursor = cursor + (nf + 1) as u32 * 8;
            i = i + 1;
        }
        let strings_at = cursor;

        // Where the DLL names start: after all hint/name entries.
        i = 0;
        while i < n
            invariant
                ds == self.dlls(),
                n == ds.len(),
                i <= n,
                base + table_size(ds) <= u32::MAX,
                strings_at == strings_start(ds),
                cursor == strings_start(ds) + sum_hints(ds, i as int),
                names_start(ds) <= table_size(ds),
            decreases n - i,
        {
            let dll = &self.dlls[i];
            let nf = dll.functions.len();
            let ghost fns = ds[i as int].1;
            assert(fns == dll.functions@.map_values(|v: Vec<u8>| v@));
            let mut j: usize = 0;
            while j < nf
                invariant
                    ds == self.dlls(),
                    i < n,
                    n == ds.len(),
                    fns == ds[i as int].1,
                    fns == dll.functions@.map_values(|v: Vec<u8>| v@),
                    nf == fns.len(),
                    j <= nf,
                    base + table_size(ds) <= u32::MAX,
                    names_start(ds) <= table_size(ds),
                    cursor == hint_off(ds, i as int, j as int),
                decreases nf - j,
            {
                proof {
                    lemma_hint_off_bounded(ds, i as int, j as int + 1);
                }
                assert(fns[j as int] == dll.functions@[j as int]@);
                cursor = cursor + 2 + dll.functions[j].len() as u32;
                j = j + 1;
            }
            proof {
                lemma_hint_off_bounded(ds, i as int, nf as int);
            }
            i = i + 1;
        }
        let names_at = cursor;

        // Import directory.
        let mut iat_cur = idt_bytes;
        let mut name_cur = names_at;
        i = 0;
        while i < n
            invariant
                ds == self.dlls(),
                n == ds.len(),
                i <= n,
                base + table_size(ds) <= u32::MAX,
                iat_cur == iat_off(ds, i as int),
                name_cur == name_off(ds, i as int),
                data@ == idt_part(ds, base, i as int),
                forall|k: int| 0 <= k <= ds.len() ==> #[trigger] iat_off(ds, k) <= strings_start(ds),
                forall|k: int| 0 <= k <= ds.len() ==> #[trigger] name_off(ds, k) <= table_size(ds),
                strings_start(ds) <= table_size(ds),
            decreases n - i,
        {
            let dll = &self.dlls[i];
            let nf = dll.functions.len();
            assert(nf == ds[i as int].1.len());
            assert(dll.dll_name@ == ds[i as int].0);
            let entry = ImportDirectoryEntry::new(base + iat_cur, base + name_cur, base + iat_cur);
            entry.write(&mut data);
            assert(iat_off(ds, i as int + 1) <= strings_start(ds));
            assert(name_off(ds, i as int + 1) <= table_size(ds));
            iat_cur = iat_cur + (nf + 1) as u32 * 8;
            name_cur = name_cur + dll.dll_name.len() as u32;
            i = i + 1;
            assert(data@ =~= idt_part(ds, base, i as int));
        }
        ImportDirectoryEntry::terminator().write(&mut data);
        proof {
            crate::bytes::lemma_le32_zero();
            assert(data@ =~= idt_part(ds, base, n as int) + zeros(20));
        }
        let ghost p1 = data@;

        // Address tables: one thunk per function pointing at its hint/name entry, then zero.
        let mut hint_cur = strings_at;
        i = 0;
        while i < n
            invariant
                ds == self.dlls(),
                n == ds.len(),
                i <= n,
                base + table_size(ds) <= u32::MAX,
                names_start(ds) <= table_size(ds),
                hint_cur == strings_start(ds) + sum_hints(ds, i as int),
                data@ == p1 + iat_part(ds, base, i as int),
            decreases n - i,
        {
            let dll = &self.dlls[i];
            let nf = dll.functions.len();
            let ghost fns = ds[i as int].1;
            assert(fns == dll.functions@.map_values(|v: Vec<u8>| v@));
            let ghost before = data@;
            let mut j: usize = 0;
            while j < nf
                invariant
                    ds == self.dlls(),
                    i < n,
                    n == ds.len(),
                    fns == ds[i as int].1,
                    fns == dll.functions@.map_values(|v: Vec<u8>| v@),
                    nf == fns.len(),
                    j <= nf,
                    base + table_size(ds) <= u32::MAX,
                    names_start(ds) <= table_size(ds),
                    hint_cur == hint_off(ds, i as int, j as int),
                    data@ == before + thunks(ds, base, i as int, j as int),
                decreases nf - j,
            {
                proof {
                    lemma_hint_off_bounded(ds, i as int, j as int + 1);
                    lemma_hint_off_bounded(ds, i as int, j as int);
                }
                assert(fns[j as int] == dll.functions@[j as int]@);
                push_u64_le(&mut data, (base + hint_cur) as u64);
                hint_cur = hint_cur + 2 + dll.functions[j].len() as u32;
                j = j + 1;
                assert(data@ =~= before + thunks(ds, base, i as int, j as int));
            }
            push_u64_le(&mut data, 0);
            proof {
                lemma_hint_off_bounded(ds, i as int, nf as int);
            }
            i = i + 1;
            assert(data@ =~= p1 + iat_part(ds, base, i as int));
        }
        let ghost p2 = data@;

        // Hint/name entries.
        i = 0;
        while i < n
            invariant
                ds == self.dlls(),
                n == ds.len(),
                i <= n,
                data@ == p2 + hint_part(ds, i as int),
            decreases n - i,
        {
            let dll = &self.dlls[i];
            let nf = dll.functions.len();
            let ghost fns = ds[i as int].1;
            assert(fns == dll.functions@.map_values(|v: Vec<u8>| v@));
            let ghost before = data@;
            let mut j: usize = 0;
            while j < nf
                invariant
                    fns == dll.functions@.map_values(|v: Vec<u8>| v@),
                    nf == fns.len(),
                    j <= nf,
                    data@ == before + fn_hints(fns, j as int),
                decreases nf - j,
            {
                assert(fns[j as int] == dll.functions@[j as int]@);
                push_u16_le(&mut data, 0);
                append_bytes(&mut data, dll.functions[j].as_slice());
                j = j + 1;
                assert(data@ =~= before + fn_hints(fns, j as int));
            }
            i = i + 1;
            assert(data@ =~= p2 + hint_part(ds, i as int));
        }
        let ghost p3 = data@;

        // DLL names.
        i = 0;
        while i < n
            invariant
                ds == self.dlls(),
                n == ds.len(),
                i <= n,
                data@ == p3 + name_part(ds, i as int),
            decreases n - i,
        {
            assert(self.dlls@[i as int].dll_name@ == ds[i as int].0);
            append_bytes(&mut data, self.dlls[i].dll_name.as_slice());
            i = i + 1;
            assert(data@ =~= p3 + name_part(ds, i as int));
        }
        assert(data@ =~= import_data(ds, base));
        (data, base, idt_bytes)
    }
}

} // verus!
