//! Register allocator following the Microsoft x64 calling convention.
//!
//! Caller-saved registers (RAX, RCX, RDX, R8..R11) are handed out first; when they
//! are all taken the callee-saved ones (RBX, RSI, RDI, R12..R15) follow, and each of
//! those must then be saved in the prologue, so the function needs a frame.
//! Integer arguments arrive in RCX, RDX, R8, R9; the result goes in RAX.
use vstd::prelude::*;
use crate::x64::Register;
use crate::bytes::{append_bytes, bytes_eq};
use vstd::string::StringSliceAdditionalSpecFns;
use vstd::string::StringExecFns;

verus! {

/// The number of a register, 0..16 (RAX = 0, ..., R15 = 15).
pub open spec fn reg_num(r: Register) -> int {
    r.spec_code() + if r.spec_is_extended() { 8int } else { 0 }
}

/// Caller-saved registers, in the order they are handed out.
pub open spec fn scratch_order() -> Seq<Register> {
    seq![Register::RAX, Register::RCX, Register::RDX, Register::R8, Register::R9, Register::R10, Register::R11]
}

/// Callee-saved registers, in the order they are handed out.
pub open spec fn saved_order() -> Seq<Register> {
    seq![Register::RBX, Register::RSI, Register::RDI, Register::R12, Register::R13, Register::R14, Register::R15]
}

/// Callee-saved registers by their three-bit code (legacy register first on a tie):
/// the order in which a prologue pushes them.
pub open spec fn saved_push_order() -> Seq<Register> {
    seq![Register::RBX, Register::R12, Register::R13, Register::RSI, Register::R14, Register::RDI, Register::R15]
}

/// Index of the first register of `order` that is not in `used`, or -1.
pub open spec fn first_free(order: Seq<Register>, used: Set<Register>) -> int
    decreases order.len(),
{
    if order.len() == 0 {
        -1
    } else if !used.contains(order[0]) {
        0
    } else {
        let r = first_free(order.drop_first(), used);
        if r < 0 {
            -1
        } else {
            r + 1
        }
    }
}

/// The register `allocate` hands out when `used` are taken: the first free caller-saved
/// register, else the first free callee-saved one.
pub open spec fn next_register(used: Set<Register>) -> Option<Register> {
    let i = first_free(scratch_order(), used);
    let j = first_free(saved_order(), used);
    if i >= 0 {
        Some(scratch_order()[i])
    } else if j >= 0 {
        Some(saved_order()[j])
    } else {
        None
    }
}

/// `x` rounded up to a multiple of 8 (towards +infinity), as `(x + 7) & !7` computes it.
pub open spec fn align8(x: int) -> int {
    let t = x + 7;
    t - t % 8
}

/// The map that a list of (name, register) entries stands for; a later entry wins.
pub open spec fn entries_map(s: Seq<(Seq<u8>, Register)>) -> Map<Seq<u8>, Register>
    decreases s.len(),
{
    if s.len() == 0 {
        Map::empty()
    } else {
        entries_map(s.drop_last()).insert(s.last().0, s.last().1)
    }
}

/// The name of `r` as `{:?}` prints it.
pub open spec fn reg_name(r: Register) -> Seq<char> {
    match r {
        Register::RAX => "RAX"@,
        Register::RCX => "RCX"@,
        Register::RDX => "RDX"@,
        Register::RBX => "RBX"@,
        Register::RSP => "RSP"@,
        Register::RBP => "RBP"@,
        Register::RSI => "RSI"@,
        Register::RDI => "RDI"@,
        Register::R8 => "R8"@,
        Register::R9 => "R9"@,
        Register::R10 => "R10"@,
        Register::R11 => "R11"@,
        Register::R12 => "R12"@,
        Register::R13 => "R13"@,
        Register::R14 => "R14"@,
        Register::R15 => "R15"@,
    }
}

/// The error `allocate_specific` gives for a register that is taken.
pub open spec fn in_use_message(r: Register) -> Seq<char> {
    "Register "@ + reg_name(r) + " is already in use"@
}

fn debug_name(r: Register) -> (s: &'static str)
    ensures
        s@ == reg_name(r),
{
    match r {
        Register::RAX => "RAX",
        Register::RCX => "RCX",
        Register::RDX => "RDX",
        Register::RBX => "RBX",
        Register::RSP => "RSP",
        Register::RBP => "RBP",
        Register::RSI => "RSI",
        Register::RDI => "RDI",
        Register::R8 => "R8",
        Register::R9 => "R9",
        Register::R10 => "R10",
        Register::R11 => "R11",
        Register::R12 => "R12",
        Register::R13 => "R13",
        Register::R14 => "R14",
        Register::R15 => "R15",
    }
}

/// Linear-scan register allocator for one function at a time.
pub struct RegisterAllocator {
    /// Caller-saved registers, in order of preference.
    scratch_pool: Vec<Register>,
    /// Callee-saved registers, in order of preference.
    saved_pool: Vec<Register>,
    /// `in_use[reg_num(r)]`: whether `r` is allocated.
    in_use: Vec<bool>,
    /// `used_saved[reg_num(r)]`: whether callee-saved `r` was used in this function.
    used_saved: Vec<bool>,
    /// Offset of the last reserved stack slot, relative to RBP.
    spill_offset: i32,
    needs_frame: bool,
    /// Variable name (bytes) and its register.
    allocations: Vec<(Vec<u8>, Register)>,
    /// Bytes of reserved stack slots.
    local_var_size: i32,
}

fn reg_index(r: Register) -> (i: usize)
    ensures
        i == reg_num(r),
        i < 16,
{
    let c = r.code() as usize;
    if r.is_extended() {
        c + 8
    } else {
        c
    }
}

proof fn lemma_reg_num_injective(a: Register, b: Register)
    ensures
        reg_num(a) == reg_num(b) ==> a == b,
        0 <= reg_num(a) < 16,
{
}

proof fn lemma_first_free(order: Seq<Register>, used: Set<Register>, k: int)
    requires
        0 <= k <= order.len(),
        forall|i: int| 0 <= i < k ==> used.contains(order[i]),
    ensures
        k < order.len() && !used.contains(order[k]) ==> first_free(order, used) == k,
        k == order.len() ==> first_free(order, used) == -1,
    decreases k,
{
    if order.len() > 0 && k > 0 {
        assert forall|i: int| 0 <= i < k - 1 implies used.contains(order.drop_first()[i]) by {
            assert(order.drop_first()[i] == order[i + 1]);
        }
        lemma_first_free(order.drop_first(), used, k - 1);
    }
}

proof fn lemma_align8(x: i32)
    requires
        x <= i32::MAX - 7,
    ensures
        ((x + 7) as i32 & !7i32) as int == align8(x as int),
{
    let t = (x + 7) as i32;
    assert((t & !7i32) as int == t as int - (t as int) % 8) by (bit_vector);
}


/// Whether no two entries share a name.
pub open spec fn distinct_keys(s: Seq<(Seq<u8>, Register)>) -> bool {
    forall|a: int, b: int| 0 <= a < b < s.len() ==> #[trigger] s[a].0 != #[trigger] s[b].0
}

proof fn lemma_entries_map(s: Seq<(Seq<u8>, Register)>)
    requires
        distinct_keys(s),
    ensures
        forall|i: int|
            0 <= i < s.len() ==> #[trigger] entries_map(s).contains_key(s[i].0) && entries_map(s)[s[i].0]
                == s[i].1,
        forall|k: Seq<u8>|
            #[trigger] entries_map(s).contains_key(k) ==> exists|i: int| 0 <= i < s.len() && s[i].0 == k,
    decreases s.len(),
{
    if s.len() > 0 {
        let p = s.drop_last();
        let n = s.len() - 1;
        assert forall|a: int, b: int| 0 <= a < b < p.len() implies #[trigger] p[a].0 != #[trigger] p[b].0 by {
            assert(p[a] == s[a] && p[b] == s[b]);
        }
        lemma_entries_map(p);
        assert(entries_map(s) == entries_map(p).insert(s[n].0, s[n].1));
        assert forall|i: int| 0 <= i < s.len() implies #[trigger] entries_map(s).contains_key(s[i].0)
            && entries_map(s)[s[i].0] == s[i].1 by {
            if i < n {
                assert(p[i] == s[i]);
                assert(s[i].0 != s[n].0);
            }
        }
        assert forall|k: Seq<u8>| #[trigger] entries_map(s).contains_key(k) implies exists|i: int|
            0 <= i < s.len() && s[i].0 == k by {
            if k != s[n].0 {
                assert(entries_map(p).contains_key(k));
                let i = choose|i: int| 0 <= i < p.len() && p[i].0 == k;
                assert(s[i] == p[i]);
            } else {
                assert(s[n].0 == k);
            }
        }
    }
}

proof fn lemma_remove_entry(s: Seq<(Seq<u8>, Register)>, r: int)
    requires
        distinct_keys(s),
        0 <= r < s.len(),
    ensures
        distinct_keys(s.remove(r)),
        entries_map(s.remove(r)) == entries_map(s).remove(s[r].0),
{
    let t = s.remove(r);
    let m = entries_map(s).remove(s[r].0);
    lemma_entries_map(s);
    assert forall|a: int, b: int| 0 <= a < b < t.len() implies #[trigger] t[a].0 != #[trigger] t[b].0 by {
        let a0 = if a < r { a } else { a + 1 };
        let b0 = if b < r { b } else { b + 1 };
        assert(t[a] == s[a0] && t[b] == s[b0]);
    }
    assert forall|i: int| 0 <= i < t.len() implies #[trigger] m.contains_key(t[i].0) && m[t[i].0] == t[i].1 by {
        let j = if i < r { i } else { i + 1 };
        assert(t[i] == s[j]);
        if j < r {
            assert(s[j].0 != s[r].0);
        } else {
            assert(s[r].0 != s[j].0);
        }
        assert(entries_map(s).contains_key(s[j].0));
    }
    assert forall|k: Seq<u8>| #[trigger] m.contains_key(k) implies exists|i: int| 0 <= i < t.len() && t[i].0 == k by {
        assert(entries_map(s).contains_key(k));
        let j = choose|j: int| 0 <= j < s.len() && s[j].0 == k;
        assert(j != r);
        let i = if j < r { j } else { j - 1 };
        assert(t[i] == s[j]);
    }
    lemma_entries_map_ext(s, t, m);
}

proof fn lemma_push_entry(s: Seq<(Seq<u8>, Register)>, e: (Seq<u8>, Register))
    requires
        distinct_keys(s),
        !entries_map(s).contains_key(e.0),
    ensures
        distinct_keys(s.push(e)),
        entries_map(s.push(e)) == entries_map(s).insert(e.0, e.1),
{
    lemma_entries_map(s);
    let t = s.push(e);
    assert(t.drop_last() =~= s);
    assert forall|a: int, b: int| 0 <= a < b < t.len() implies #[trigger] t[a].0 != #[trigger] t[b].0 by {
        assert(t[a] == s[a]);
        if b < s.len() {
            assert(t[b] == s[b]);
        }
    }
}

/// Two entry lists with distinct names and the same entries (up to order) stand for
/// the same map.
proof fn lemma_entries_map_ext(s: Seq<(Seq<u8>, Register)>, t: Seq<(Seq<u8>, Register)>, m: Map<Seq<u8>, Register>)
    requires
        distinct_keys(t),
        forall|i: int| 0 <= i < t.len() ==> #[trigger] m.contains_key(t[i].0) && m[t[i].0] == t[i].1,
        forall|k: Seq<u8>| #[trigger] m.contains_key(k) ==> exists|i: int| 0 <= i < t.len() && t[i].0 == k,
    ensures
        entries_map(t) == m,
{
    lemma_entries_map(t);
    assert forall|k: Seq<u8>| #[trigger] entries_map(t).contains_key(k) == m.contains_key(k) by {
        if entries_map(t).contains_key(k) {
            let i = choose|i: int| 0 <= i < t.len() && t[i].0 == k;
        }
        if m.contains_key(k) {
            let i = choose|i: int| 0 <= i < t.len() && t[i].0 == k;
        }
    }
    assert forall|k: Seq<u8>| #[trigger] entries_map(t).contains_key(k) implies entries_map(t)[k] == m[k] by {
        let i = choose|i: int| 0 <= i < t.len() && t[i].0 == k;
    }
    assert(entries_map(t) =~= m);
}


impl RegisterAllocator {
    /// Whether `r` is allocated.
    pub closed spec fn in_use_set(&self) -> Set<Register> {
        Set::new(|r: Register| self.in_use@[reg_num(r)])
    }

    /// The callee-saved registers used in the current function.
    pub closed spec fn used_saved_set(&self) -> Set<Register> {
        Set::new(|r: Register| self.used_saved@[reg_num(r)])
    }

    /// Offset of the last reserved stack slot, relative to RBP.
    pub closed spec fn spill_offset(&self) -> int {
        self.spill_offset as int
    }

    /// Bytes of reserved stack slots.
    pub closed spec fn local_var_size(&self) -> int {
        self.local_var_size as int
    }

    /// Whether the function needs an RBP frame.
    pub closed spec fn frame_needed(&self) -> bool {
        self.needs_frame
    }

    /// Variable names (as bytes) and their registers.
    pub closed spec fn vars(&self) -> Map<Seq<u8>, Register> {
        entries_map(self.entry_seq())
    }

    spec fn entry_seq(&self) -> Seq<(Seq<u8>, Register)> {
        self.allocations@.map_values(|e: (Vec<u8>, Register)| (e.0@, e.1))
    }

    /// The pools hold the calling convention's registers, the flag vectors cover the
    /// sixteen registers, only callee-saved registers are marked as used-saved, and
    /// the last slot offset is the negated slot size.
    pub closed spec fn wf(&self) -> bool {
        &&& self.scratch_pool@ == scratch_order()
        &&& self.saved_pool@ == saved_order()
        &&& self.in_use@.len() == 16
        &&& self.used_saved@.len() == 16
        &&& forall|r: Register| #[trigger] self.used_saved@[reg_num(r)] ==> saved_order().contains(r)
        &&& self.spill_offset == -self.local_var_size
        &&& forall|a: int, b: int|
            0 <= a < b < self.allocations@.len() ==> #[trigger] self.allocations@[a].0@
                != #[trigger] self.allocations@[b].0@
    }

    /// The callee-saved registers used, in push order.
    pub open spec fn saved_list(&self) -> Seq<Register> {
        saved_push_order().filter(|r: Register| self.used_saved_set().contains(r))
    }

    /// A fresh allocator: nothing allocated, no frame, no variables.
    pub fn new() -> (ra: Self)
        ensures
            ra.wf(),
            ra.in_use_set() == Set::<Register>::empty(),
            ra.used_saved_set() == Set::<Register>::empty(),
            ra.spill_offset() == 0,
            ra.local_var_size() == 0,
            !ra.frame_needed(),
            ra.vars() == Map::<Seq<u8>, Register>::empty(),
    {
        let ra = RegisterAllocator {
            scratch_pool: vec![
                Register::RAX,
                Register::RCX,
                Register::RDX,
                Register::R8,
                Register::R9,
                Register::R10,
                Register::R11,
            ],
            saved_pool: vec![
                Register::RBX,
                Register::RSI,
                Register::RDI,
                Register::R12,
                Register::R13,
                Register::R14,
                Register::R15,
            ],
            in_use: vec![false; 16],
            used_saved: vec![false; 16],
            spill_offset: 0,
            needs_frame: false,
            allocations: Vec::new(),
            local_var_size: 0,
        };
        assert(ra.scratch_pool@ =~= scratch_order());
        assert(ra.saved_pool@ =~= saved_order());
        assert(ra.in_use_set() =~= Set::<Register>::empty());
        assert(ra.used_saved_set() =~= Set::<Register>::empty());
        assert(ra.entry_seq() =~= Seq::<(Seq<u8>, Register)>::empty());
        ra
    }

    /// Starts a new function: nothing allocated, no frame, no slots, no variables.
    pub fn begin_function(&mut self)
        requires
            old(self).wf(),
        ensures
            final(self).wf(),
            final(self).in_use_set() == Set::<Register>::empty(),
            final(self).used_saved_set() == Set::<Register>::empty(),
            final(self).spill_offset() == 0,
            final(self).local_var_size() == 0,
            !final(self).frame_needed(),
            final(self).vars() == Map::<Seq<u8>, Register>::empty(),
    {
        self.in_use = vec![false; 16];
        self.used_saved = vec![false; 16];
        self.spill_offset = 0;
        self.needs_frame = false;
        self.allocations = Vec::new();
        self.local_var_size = 0;
        assert(self.in_use_set() =~= Set::<Register>::empty());
        assert(self.used_saved_set() =~= Set::<Register>::empty());
        assert(self.entry_seq() =~= Seq::<(Seq<u8>, Register)>::empty());
    }

    /// Whether `reg` is allocated.
    pub fn in_use(&self, reg: Register) -> (b: bool)
        requires
            self.wf(),
        ensures
            b == self.in_use_set().contains(reg),
    {
        self.in_use[reg_index(reg)]
    }

    /// Whether callee-saved `reg` was used in the current function.
    pub fn used_saved(&self, reg: Register) -> (b: bool)
        requires
            self.wf(),
        ensures
            b == self.used_saved_set().contains(reg),
    {
        self.used_saved[reg_index(reg)]
    }

    fn mark_in_use(&mut self, reg: Register)
        requires
            old(self).wf(),
        ensures
            final(self).wf(),
            final(self).in_use_set() == old(self).in_use_set().insert(reg),
            final(self).used_saved_set() == old(self).used_saved_set(),
            final(self).spill_offset() == old(self).spill_offset(),
            final(self).local_var_size() == old(self).local_var_size(),
            final(self).frame_needed() == old(self).frame_needed(),
            final(self).vars() == old(self).vars(),
    {
        let i = reg_index(reg);
        self.in_use.set(i, true);
        proof {
            assert forall|r: Register| #[trigger] self.in_use_set().contains(r) == old(self).in_use_set().insert(reg).contains(r) by {
                lemma_reg_num_injective(r, reg);
            }
        }
        assert(self.in_use_set() =~= old(self).in_use_set().insert(reg));
        assert(self.used_saved_set() =~= old(self).used_saved_set());
        assert(self.entry_seq() =~= old(self).entry_seq());
    }

    fn mark_saved(&mut self, reg: Register)
        requires
            old(self).wf(),
            saved_order().contains(reg),
        ensures
            final(self).wf(),
            final(self).in_use_set() == old(self).in_use_set(),
            final(self).used_saved_set() == old(self).used_saved_set().insert(reg),
            final(self).spill_offset() == old(self).spill_offset(),
            final(self).local_var_size() == old(self).local_var_size(),
            final(self).frame_needed(),
            final(self).vars() == old(self).vars(),
    {
        let i = reg_index(reg);
        self.used_saved.set(i, true);
        self.needs_frame = true;
        proof {
            assert forall|r: Register| #[trigger] self.used_saved_set().contains(r) == old(self).used_saved_set().insert(reg).contains(r) by {
                lemma_reg_num_injective(r, reg);
            }
            assert forall|r: Register| #[trigger] self.used_saved@[reg_num(r)] implies saved_order().contains(r) by {
                lemma_reg_num_injective(r, reg);
                if r != reg {
                    assert(old(self).used_saved@[reg_num(r)]);
                }
            }
        }
        assert(self.in_use_set() =~= old(self).in_use_set());
        assert(self.used_saved_set() =~= old(self).used_saved_set().insert(reg));
        assert(self.entry_seq() =~= old(self).entry_seq());
    }

    /// Allocates the first free caller-saved register, else the first free callee-saved
    /// one (which the function must then save, so it needs a frame).
    pub fn allocate(&mut self) -> (reg: Register)
        requires
            old(self).wf(),
            next_register(old(self).in_use_set()) is Some,
        ensures
            final(self).wf(),
            reg == next_register(old(self).in_use_set())->0,
            final(self).in_use_set() == old(self).in_use_set().insert(reg),
            final(self).used_saved_set() == if saved_order().contains(reg) {
                old(self).used_saved_set().insert(reg)
            } else {
                old(self).used_saved_set()
            },
            final(self).frame_needed() == (old(self).frame_needed() || saved_order().contains(reg)),
            final(self).spill_offset() == old(self).spill_offset(),
            final(self).local_var_size() == old(self).local_var_size(),
            final(self).vars() == old(self).vars(),
    {
        let ghost used = self.in_use_set();
        let mut i: usize = 0;
        while i < self.scratch_pool.len()
            invariant
                self.wf(),
                *self == *old(self),
                used == self.in_use_set(),
                i <= 7,
                forall|t: int| 0 <= t < i ==> used.contains(scratch_order()[t]),
            decreases 7 - i,
        {
            let reg = self.scratch_pool[i];
            if !self.in_use(reg) {
                proof {
                    lemma_first_free(scratch_order(), used, i as int);
                }
                self.mark_in_use(reg);
                assert(!saved_order().contains(reg)) by {
                    if saved_order().contains(reg) {
                        let t = choose|t: int| 0 <= t < 7 && saved_order()[t] == reg;
                        assert(saved_order()[t] != scratch_order()[i as int]);
                    }
                }
                return reg;
            }
            i = i + 1;
        }
        proof {
            lemma_first_free(scratch_order(), used, 7);
        }
        let mut j: usize = 0;
        while j < self.saved_pool.len()
            invariant
                self.wf(),
                *self == *old(self),
                used == self.in_use_set(),
                first_free(scratch_order(), used) == -1,
                j <= 7,
                forall|t: int| 0 <= t < j ==> used.contains(saved_order()[t]),
                next_register(used) is Some,
            decreases 7 - j,
        {
            let reg = self.saved_pool[j];
            if !self.in_use(reg) {
                proof {
                    lemma_first_free(saved_order(), used, j as int);
                }
                self.mark_in_use(reg);
                assert(saved_order().contains(reg)) by {
                    assert(saved_order()[j as int] == reg);
                }
                self.mark_saved(reg);
                return reg;
            }
            j = j + 1;
        }
        proof {
            lemma_first_free(saved_order(), used, 7);
        }
        unreached()
    }

    /// Allocates `reg`, which the calling convention asks for; fails if it is taken.
    pub fn allocate_specific(&mut self, reg: Register) -> (r: Result<(), String>)
        requires
            old(self).wf(),
        ensures
            final(self).wf(),
            old(self).in_use_set().contains(reg) ==> {
                &&& r matches Err(e) && e@ == in_use_message(reg)
                &&& *final(self) == *old(self)
            },
            !old(self).in_use_set().contains(reg) ==> {
                &&& r is Ok
                &&& final(self).in_use_set() == old(self).in_use_set().insert(reg)
                &&& final(self).used_saved_set() == if saved_order().contains(reg) {
                    old(self).used_saved_set().insert(reg)
                } else {
                    old(self).used_saved_set()
                }
                &&& final(self).frame_needed() == (old(self).frame_needed() || saved_order().contains(reg))
                &&& final(self).spill_offset() == old(self).spill_offset()
                &&& final(self).local_var_size() == old(self).local_var_size()
                &&& final(self).vars() == old(self).vars()
            },
    {
        if self.in_use(reg) {
            let mut msg = String::from_str("Register ");
            msg.append(debug_name(reg));
            msg.append(" is already in use");
            return Err(msg);
        }
        self.mark_in_use(reg);
        let mut k: usize = 0;
        let mut is_saved = false;
        while k < self.saved_pool.len()
            invariant
                self.wf(),
                k <= 7,
                is_saved == exists|t: int| 0 <= t < k && saved_order()[t] == reg,
            decreases 7 - k,
        {
            if self.saved_pool[k] == reg {
                is_saved = true;
            }
            k = k + 1;
        }
        assert(is_saved == saved_order().contains(reg));
        if is_saved {
            self.mark_saved(reg);
        }
        Ok(())
    }

    /// Releases `reg`.
    pub fn free(&mut self, reg: Register)
        requires
            old(self).wf(),
        ensures
            final(self).wf(),
            final(self).in_use_set() == old(self).in_use_set().remove(reg),
            final(self).used_saved_set() == old(self).used_saved_set(),
            final(self).spill_offset() == old(self).spill_offset(),
            final(self).local_var_size() == old(self).local_var_size(),
            final(self).frame_needed() == old(self).frame_needed(),
            final(self).vars() == old(self).vars(),
    {
        let i = reg_index(reg);
        self.in_use.set(i, false);
        proof {
            assert forall|r: Register| #[trigger] self.in_use_set().contains(r) == old(self).in_use_set().remove(reg).contains(r) by {
                lemma_reg_num_injective(r, reg);
            }
        }
        assert(self.in_use_set() =~= old(self).in_use_set().remove(reg));
        assert(self.used_saved_set() =~= old(self).used_saved_set());
        assert(self.entry_seq() =~= old(self).entry_seq());
    }

    fn find_var(&self, name: &[u8]) -> (r: Option<usize>)
        requires
            self.wf(),
        ensures
            r matches Some(i) ==> i < self.allocations@.len() && self.allocations@[i as int].0@ == name@,
            r is None ==> forall|i: int| 0 <= i < self.allocations@.len() ==> self.allocations@[i].0@ != name@,
    {
        let mut i: usize = 0;
        while i < self.allocations.len()
            invariant
                i <= self.allocations@.len(),
                forall|t: int| 0 <= t < i ==> self.allocations@[t].0@ != name@,
            decreases self.allocations@.len() - i,
        {
            if bytes_eq(self.allocations[i].0.as_slice(), name) {
                return Some(i);
            }
            i = i + 1;
        }
        None
    }

    fn remove_var_entry(&mut self, name: &[u8]) -> (r: Option<Register>)
        requires
            old(self).wf(),
        ensures
            final(self).wf(),
            r == old(self).vars().get(name@),
            final(self).vars() == old(self).vars().remove(name@),
            final(self).in_use_set() == old(self).in_use_set(),
            final(self).used_saved_set() == old(self).used_saved_set(),
            final(self).spill_offset() == old(self).spill_offset(),
            final(self).local_var_size() == old(self).local_var_size(),
            final(self).frame_needed() == old(self).frame_needed(),
    {
        let ghost s = self.entry_seq();
        proof {
            lemma_entries_map(s);
            assert(distinct_keys(s)) by {
                assert forall|a: int, b: int| 0 <= a < b < s.len() implies #[trigger] s[a].0 != #[trigger] s[b].0 by {
                    assert(s[a].0 == self.allocations@[a].0@);
                    assert(s[b].0 == self.allocations@[b].0@);
                }
            }
        }
        match self.find_var(name) {
            Some(i) => {
                assert(s[i as int].0 == name@);
                let e = self.allocations.remove(i);
                proof {
                    lemma_remove_entry(s, i as int);
                    assert(self.entry_seq() =~= s.remove(i as int));
                    assert forall|a: int, b: int| 0 <= a < b < self.allocations@.len() implies #[trigger] self.allocations@[a].0@
                        != #[trigger] self.allocations@[b].0@ by {
                        assert(self.entry_seq()[a].0 == self.allocations@[a].0@);
                        assert(self.entry_seq()[b].0 == self.allocations@[b].0@);
                    }
                }
                assert(self.in_use_set() =~= old(self).in_use_set());
                assert(self.used_saved_set() =~= old(self).used_saved_set());
                Some(e.1)
            },
            None => {
                proof {
                    if entries_map(s).contains_key(name@) {
                        let j = choose|j: int| 0 <= j < s.len() && s[j].0 == name@;
                        assert(s[j].0 == self.allocations@[j].0@);
                    }
                    assert(entries_map(s).remove(name@) =~= entries_map(s));
                }
                None
            },
        }
    }

    fn push_var_entry(&mut self, name: Vec<u8>, reg: Register)
        requires
            old(self).wf(),
            !old(self).vars().contains_key(name@),
        ensures
            final(self).wf(),
            final(self).vars() == old(self).vars().insert(name@, reg),
            final(self).in_use_set() == old(self).in_use_set(),
            final(self).used_saved_set() == old(self).used_saved_set(),
            final(self).spill_offset() == old(self).spill_offset(),
            final(self).local_var_size() == old(self).local_var_size(),
            final(self).frame_needed() == old(self).frame_needed(),
    {
        let ghost s = self.entry_seq();
        let ghost key = name@;
        proof {
            assert forall|a: int, b: int| 0 <= a < b < s.len() implies #[trigger] s[a].0 != #[trigger] s[b].0 by {
                assert(s[a].0 == self.allocations@[a].0@);
                assert(s[b].0 == self.allocations@[b].0@);
            }
            lemma_push_entry(s, (key, reg));
        }
        self.allocations.push((name, reg));
        proof {
            let t = self.entry_seq();
            assert(t =~= s.push((key, reg)));
            assert forall|a: int, b: int| 0 <= a < b < self.allocations@.len() implies #[trigger] self.allocations@[a].0@
                != #[trigger] self.allocations@[b].0@ by {
                assert(t[a].0 == self.allocations@[a].0@);
                assert(t[b].0 == self.allocations@[b].0@);
            }
        }
        assert(self.in_use_set() =~= old(self).in_use_set());
        assert(self.used_saved_set() =~= old(self).used_saved_set());
    }

    /// Allocates a register for variable `name` and records it (replacing an earlier
    /// record of the same name).
    pub fn alloc_var(&mut self, name: &str) -> (reg: Register)
        requires
            old(self).wf(),
            next_register(old(self).in_use_set()) is Some,
        ensures
            final(self).wf(),
            reg == next_register(old(self).in_use_set())->0,
            final(self).in_use_set() == old(self).in_use_set().insert(reg),
            final(self).used_saved_set() == if saved_order().contains(reg) {
                old(self).used_saved_set().insert(reg)
            } else {
                old(self).used_saved_set()
            },
            final(self).frame_needed() == (old(self).frame_needed() || saved_order().contains(reg)),
            final(self).spill_offset() == old(self).spill_offset(),
            final(self).local_var_size() == old(self).local_var_size(),
            final(self).vars() == old(self).vars().insert(name.spec_bytes(), reg),
    {
        let reg = self.allocate();
        let key = name.as_bytes();
        self.remove_var_entry(key);
        let mut kv: Vec<u8> = Vec::new();
        append_bytes(&mut kv, key);
        self.push_var_entry(kv, reg);
        reg
    }

    /// The register recorded for variable `name`.
    pub fn get_var_reg(&self, name: &str) -> (r: Option<Register>)
        requires
            self.wf(),
        ensures
            r == self.vars().get(name.spec_bytes()),
    {
        let ghost s = self.entry_seq();
        proof {
            assert forall|a: int, b: int| 0 <= a < b < s.len() implies #[trigger] s[a].0 != #[trigger] s[b].0 by {
                assert(s[a].0 == self.allocations@[a].0@);
                assert(s[b].0 == self.allocations@[b].0@);
            }
            lemma_entries_map(s);
        }
        match self.find_var(name.as_bytes()) {
            Some(i) => {
                assert(s[i as int].0 == name.spec_bytes());
                Some(self.allocations[i].1)
            },
            None => {
                proof {
                    if entries_map(s).contains_key(name.spec_bytes()) {
                        let j = choose|j: int| 0 <= j < s.len() && s[j].0 == name.spec_bytes();
                        assert(s[j].0 == self.allocations@[j].0@);
                    }
                }
                None
            },
        }
    }

    /// Forgets variable `name` and releases its register.
    pub fn free_var(&mut self, name: &str)
        requires
            old(self).wf(),
        ensures
            final(self).wf(),
            final(self).vars() == old(self).vars().remove(name.spec_bytes()),
            final(self).in_use_set() == match old(self).vars().get(name.spec_bytes()) {
                Some(reg) => old(self).in_use_set().remove(reg),
                None => old(self).in_use_set(),
            },
            final(self).used_saved_set() == old(self).used_saved_set(),
            final(self).spill_offset() == old(self).spill_offset(),
            final(self).local_var_size() == old(self).local_var_size(),
            final(self).frame_needed() == old(self).frame_needed(),
    {
        if let Some(reg) = self.remove_var_entry(name.as_bytes()) {
            self.free(reg);
        }
    }

    /// The callee-saved registers used in the function, ordered by register code:
    /// the registers the prologue pushes and the epilogue pops.
    pub fn used_saved_regs(&self) -> (regs: Vec<Register>)
        requires
            self.wf(),
        ensures
            regs@ == self.saved_list(),
    {
        let order = vec![
            Register::RBX,
            Register::R12,
            Register::R13,
            Register::RSI,
            Register::R14,
            Register::RDI,
            Register::R15,
        ];
        assert(order@ =~= saved_push_order());
        let ghost pred = |r: Register| self.used_saved_set().contains(r);
        let mut regs: Vec<Register> = Vec::new();
        let mut i: usize = 0;
        while i < order.len()
            invariant
                self.wf(),
                order@ == saved_push_order(),
                pred == (|r: Register| self.used_saved_set().contains(r)),
                i <= order@.len(),
                regs@ == order@.take(i as int).filter(pred),
            decreases order@.len() - i,
        {
            let r = order[i];
            assert(pred(r) == self.used_saved_set().contains(r));
            proof {
                assert(order@.take(i as int).push(r) =~= order@.take(i as int + 1));
                order@.take(i as int).lemma_filter_push(r, pred);
            }
            if self.used_saved(r) {
                regs.push(r);
            }
            i = i + 1;
        }
        assert(order@.take(7) =~= order@);
        regs
    }

    /// Whether the function needs an RBP frame: it uses a callee-saved register or
    /// reserved stack.
    pub fn needs_frame(&self) -> (b: bool)
        ensures
            b == self.frame_needed(),
    {
        self.needs_frame
    }

    /// Reserves `size` bytes of stack, rounded up to a multiple of 8, and returns the
    /// new slot's offset from RBP (negative).
    pub fn reserve_stack(&mut self, size: i32) -> (offset: i32)
        requires
            old(self).wf(),
            size <= i32::MAX - 7,
            i32::MIN <= old(self).local_var_size() + align8(size as int) <= i32::MAX,
            i32::MIN <= old(self).spill_offset() - align8(size as int) <= i32::MAX,
        ensures
            final(self).wf(),
            offset == old(self).spill_offset() - align8(size as int),
            final(self).spill_offset() == offset,
            final(self).local_var_size() == old(self).local_var_size() + align8(size as int),
            final(self).frame_needed(),
            final(self).in_use_set() == old(self).in_use_set(),
            final(self).used_saved_set() == old(self).used_saved_set(),
            final(self).vars() == old(self).vars(),
    {
        proof {
            lemma_align8(size);
        }
        let aligned = (size + 7) & !7;
        self.spill_offset = self.spill_offset - aligned;
        self.needs_frame = true;
        self.local_var_size = self.local_var_size + aligned;
        assert(self.in_use_set() =~= old(self).in_use_set());
        assert(self.used_saved_set() =~= old(self).used_saved_set());
        assert(self.entry_seq() =~= old(self).entry_seq());
        self.spill_offset
    }

    /// Bytes of the frame below the saved RBP: pushed callee-saved registers and
    /// reserved slots.
    pub fn frame_size(&self) -> (n: i32)
        requires
            self.wf(),
            self.saved_list().len() * 8 + self.local_var_size() <= i32::MAX,
        ensures
            n == self.saved_list().len() * 8 + self.local_var_size(),
    {
        let regs = self.used_saved_regs();
        proof {
            saved_push_order().lemma_filter_len(|r: Register| self.used_saved_set().contains(r));
        }
        let saved_regs_size = regs.len() as i32 * 8;
        let var_size = self.local_var_size;
        saved_regs_size + var_size
    }

    /// The registers of the first four integer arguments: RCX, RDX, R8, R9.
    pub fn param_registers() -> (regs: [Register; 4])
        ensures
            regs@ == seq![Register::RCX, Register::RDX, Register::R8, Register::R9],
    {
        let regs = [Register::RCX, Register::RDX, Register::R8, Register::R9];
        assert(regs@ =~= seq![Register::RCX, Register::RDX, Register::R8, Register::R9]);
        regs
    }

    /// The register that holds an integer result: RAX.
    pub fn return_register() -> (r: Register)
        ensures
            r == Register::RAX,
    {
        Register::RAX
    }
}


proof fn lemma_first_free_found(order: Seq<Register>, used: Set<Register>)
    ensures
        -1 <= first_free(order, used) < order.len(),
        first_free(order, used) >= 0 ==> !used.contains(order[first_free(order, used)]),
        first_free(order, used) < 0 ==> forall|i: int| 0 <= i < order.len() ==> used.contains(#[trigger] order[i]),
    decreases order.len(),
{
    if order.len() > 0 && used.contains(order[0]) {
        lemma_first_free_found(order.drop_first(), used);
        if first_free(order, used) < 0 {
            assert forall|i: int| 0 <= i < order.len() implies used.contains(#[trigger] order[i]) by {
                if i > 0 {
                    assert(order[i] == order.drop_first()[i - 1]);
                }
            }
        }
    }
}

/// `allocate` hands out a register of the two pools that is not taken, and it can
/// allocate exactly when some register of the pools is free.
pub proof fn lemma_next_register_is_free(used: Set<Register>)
    ensures
        next_register(used) matches Some(r) ==> !used.contains(r) && (scratch_order().contains(r)
            || saved_order().contains(r)),
        next_register(used) is None <==> (forall|r: Register|
            scratch_order().contains(r) || saved_order().contains(r) ==> used.contains(r)),
{
    lemma_first_free_found(scratch_order(), used);
    lemma_first_free_found(saved_order(), used);
    let i = first_free(scratch_order(), used);
    let j = first_free(saved_order(), used);
    if i >= 0 {
        assert(scratch_order().contains(scratch_order()[i]));
    } else if j >= 0 {
        assert(saved_order().contains(saved_order()[j]));
    }
}

/// Freeing the register `allocate` just handed out gives back the taken set it started from.
pub proof fn lemma_free_undoes_allocate(used: Set<Register>)
    requires
        next_register(used) is Some,
    ensures
        used.insert(next_register(used)->0).remove(next_register(used)->0) == used,
{
    lemma_next_register_is_free(used);
    assert(used.insert(next_register(used)->0).remove(next_register(used)->0) =~= used);
}

} // verus!
