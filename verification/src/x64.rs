//! x86-64 instruction encoder.
//!
//! Every instruction is laid out as
//! `[REX] opcode [ModR/M] [SIB] [displacement] [immediate]`.
//! The assembler appends encodings to a byte buffer; jumps and calls to labels
//! that are not bound yet get a zero placeholder that `finish` patches.
use std::collections::HashMap;
use vstd::prelude::*;
use crate::bytes::{le32, le64, push_u32_le, push_u64_le};

verus! {

broadcast use vstd::std_specs::hash::group_hash_axioms;

/// The sixteen 64-bit general purpose registers.
#[derive(Debug, Clone, Copy, PartialEq, Eq, Structural, Hash)]
pub enum Register {
    RAX,
    RCX,
    RDX,
    RBX,
    RSP,
    RBP,
    RSI,
    RDI,
    R8,
    R9,
    R10,
    R11,
    R12,
    R13,
    R14,
    R15,
}

impl Register {
    /// The low three bits of the register number.
    pub open spec fn spec_code(self) -> u8 {
        match self {
            Register::RAX => 0,
            Register::RCX => 1,
            Register::RDX => 2,
            Register::RBX => 3,
            Register::RSP => 4,
            Register::RBP => 5,
            Register::RSI => 6,
            Register::RDI => 7,
            Register::R8 => 0,
            Register::R9 => 1,
            Register::R10 => 2,
            Register::R11 => 3,
            Register::R12 => 4,
            Register::R13 => 5,
            Register::R14 => 6,
            Register::R15 => 7,
        }
    }

    /// Whether the register is one of R8..R15, whose fourth bit goes in a REX prefix.
    pub open spec fn spec_is_extended(self) -> bool {
        match self {
            Register::R8 | Register::R9 | Register::R10 | Register::R11 | Register::R12
            | Register::R13 | Register::R14 | Register::R15 => true,
            _ => false,
        }
    }

    /// Returns the three-bit register code (0..=7).
    #[verifier::when_used_as_spec(spec_code)]
    pub fn code(self) -> (c: u8)
        ensures
            c == self.spec_code(),
            c < 8,
    {
        match self {
            Register::RAX => 0,
            Register::RCX => 1,
            Register::RDX => 2,
            Register::RBX => 3,
            Register::RSP => 4,
            Register::RBP => 5,
            Register::RSI => 6,
            Register::RDI => 7,
            Register::R8 => 0,
            Register::R9 => 1,
            Register::R10 => 2,
            Register::R11 => 3,
            Register::R12 => 4,
            Register::R13 => 5,
            Register::R14 => 6,
            Register::R15 => 7,
        }
    }

    /// Returns whether the register is R8..R15.
    #[verifier::when_used_as_spec(spec_is_extended)]
    pub fn is_extended(self) -> (b: bool)
        ensures
            b == self.spec_is_extended(),
    {
        match self {
            Register::R8 | Register::R9 | Register::R10 | Register::R11 | Register::R12
            | Register::R13 | Register::R14 | Register::R15 => true,
            _ => false,
        }
    }
}

/// A position in the code that jumps and calls can refer to.
pub type Label = u32;

#[derive(Debug, Clone, Copy, PartialEq, Eq)]
enum RefKind {
    /// Four-byte displacement relative to the end of the displacement field.
    Rel32,
}

/// A displacement field still waiting for its label to be bound.
#[derive(Debug, Clone)]
struct UnresolvedRef {
    label: Label,
    offset: usize,
    kind: RefKind,
}

// ---------------------------------------------------------------------------
// Byte-level encoding rules
// ---------------------------------------------------------------------------

/// REX prefix `0100WRXB`.
pub open spec fn rex(w: bool, r: bool, x: bool, b: bool) -> u8 {
    (0x40 + (if w { 8int } else { 0 }) + (if r { 4int } else { 0 }) + (if x { 2int } else { 0 })
        + (if b { 1int } else { 0 })) as u8
}

/// ModR/M byte `mod(2) reg(3) rm(3)`.
pub open spec fn modrm_byte(md: u8, reg: u8, rm: u8) -> u8 {
    ((md & 3) << 6) | ((reg & 7) << 3) | (rm & 7)
}

/// SIB byte `scale(2) index(3) base(3)`.
pub open spec fn sib_byte(scale: u8, index: u8, base: u8) -> u8 {
    ((scale & 3) << 6) | ((index & 7) << 3) | (base & 7)
}

/// Whether a 64-bit immediate survives sign extension from 32 bits.
pub open spec fn spec_fits_i32(v: i64) -> bool {
    i32::MIN <= v <= i32::MAX
}

/// The `mod` field chosen for a memory operand with displacement `offset`. A base
/// whose low three bits are 101 (RBP, R13) has no `mod=00` form (that encoding means
/// RIP-relative), so a zero offset from it takes an 8-bit displacement of 0.
pub open spec fn disp_mod(offset: i32, has_sib: bool, base_low_101: bool) -> u8 {
    if offset == 0 && !has_sib && !base_low_101 {
        0
    } else if offset == 0 {
        1
    } else if -128 <= offset <= 127 {
        1
    } else {
        2
    }
}

/// The displacement bytes that follow ModR/M (and SIB) for a given `mod`.
pub open spec fn disp_bytes(md: u8, offset: i32) -> Seq<u8> {
    if md == 1 {
        seq![offset as u8]
    } else if md == 2 {
        le32(offset as u32)
    } else {
        Seq::empty()
    }
}

/// The little-endian rel32 field of a reference at `offset` to code position `target`.
pub open spec fn rel32(target: int, offset: int) -> Seq<u8> {
    le32((target - (offset + 4)) as u32)
}

/// `op r/m64, r64` with both operands registers (ModR/M mod=11, reg=src, rm=dest).
pub open spec fn enc_reg_reg(opcode: u8, is_64bit: bool, dest: Register, src: Register) -> Seq<u8> {
    let r = rex(is_64bit, src.spec_is_extended(), false, dest.spec_is_extended());
    (if r != 0x40 { seq![r] } else { Seq::empty() }) + seq![
        opcode,
        modrm_byte(3, src.spec_code(), dest.spec_code()),
    ]
}

/// `op` on a memory operand `[base + offset]` with `reg_field` in ModR/M.reg.
pub open spec fn enc_mem(rex_r: bool, opcode: u8, reg_field: u8, base: Register, offset: i32) -> Seq<u8> {
    let needs_sib = base.spec_code() == 4;
    let md = disp_mod(offset, needs_sib, base.spec_code() == 5);
    seq![
        rex(true, rex_r, false, base.spec_is_extended()),
        opcode,
        modrm_byte(md, reg_field, if needs_sib { 4 } else { base.spec_code() }),
    ] + (if needs_sib { seq![sib_byte(0, 4, base.spec_code())] } else { Seq::empty() })
        + disp_bytes(md, offset)
}

/// A one-register instruction `REX.W opcode /ext`.
pub open spec fn enc_unary(opcode: u8, ext: u8, reg: Register) -> Seq<u8> {
    seq![rex(true, false, false, reg.spec_is_extended()), opcode, modrm_byte(3, ext, reg.spec_code())]
}

/// `op r/m64, imm`: short form `83 /ext ib` for a signed byte, else `81 /ext id`.
pub open spec fn enc_alu_imm(ext: u8, reg: Register, imm: i32) -> Seq<u8> {
    let r = rex(true, false, false, reg.spec_is_extended());
    if -128 <= imm <= 127 {
        seq![r, 0x83, modrm_byte(3, ext, reg.spec_code()), imm as u8]
    } else {
        seq![r, 0x81, modrm_byte(3, ext, reg.spec_code())] + le32(imm as u32)
    }
}

/// `op r/m64, imm8` in its short form `83 /ext ib`.
pub open spec fn enc_alu_imm8(ext: u8, reg: Register, imm: i8) -> Seq<u8> {
    seq![rex(true, false, false, reg.spec_is_extended()), 0x83u8, modrm_byte(3, ext, reg.spec_code()), imm as u8]
}

/// `op r/m64, imm32` in its long form `81 /ext id`.
pub open spec fn enc_alu_imm32(ext: u8, reg: Register, imm: i32) -> Seq<u8> {
    seq![rex(true, false, false, reg.spec_is_extended()), 0x81u8, modrm_byte(3, ext, reg.spec_code())] + le32(imm as u32)
}

/// Shift by an immediate: `D1 /ext` for a count of one, else `C1 /ext ib`.
pub open spec fn enc_shift(ext: u8, reg: Register, imm: u8) -> Seq<u8> {
    let r = rex(true, false, false, reg.spec_is_extended());
    if imm == 1 {
        seq![r, 0xD1, modrm_byte(3, ext, reg.spec_code())]
    } else {
        seq![r, 0xC1, modrm_byte(3, ext, reg.spec_code()), imm]
    }
}

/// `mov reg, imm`: 32-bit form when the immediate fits in i32, 64-bit form otherwise.
pub open spec fn enc_mov_reg_imm(dest: Register, imm: i64) -> Seq<u8> {
    if spec_fits_i32(imm) {
        (if dest.spec_is_extended() { seq![rex(false, false, false, true)] } else { Seq::empty() })
            + seq![0xB8u8 | dest.spec_code()] + le32(imm as u32)
    } else {
        let r = rex(true, false, false, dest.spec_is_extended());
        (if r != 0x40 { seq![r] } else { Seq::empty() }) + seq![0xB8u8 | dest.spec_code()]
            + le64(imm as u64)
    }
}

/// `push`/`pop` style one-byte opcode plus register code, with REX.B for R8..R15.
pub open spec fn enc_plus_reg(base_op: u8, reg: Register) -> Seq<u8> {
    (if reg.spec_is_extended() { seq![0x41u8] } else { Seq::empty() }) + seq![base_op | reg.spec_code()]
}

/// `setCC al; movzx rax, al`.
pub open spec fn enc_setcc_rax(op: u8) -> Seq<u8> {
    seq![0x0Fu8, op, 0xC0, 0x48, 0x0F, 0xB6, 0xC0]
}

// ---------------------------------------------------------------------------
// Encoding helpers
// ---------------------------------------------------------------------------

fn rex_prefix(w: bool, r: bool, x: bool, b: bool) -> (v: u8)
    ensures
        v == rex(w, r, x, b),
{
    let mut v: u8 = 0x40;
    if w {
        v = v + 8;
    }
    if r {
        v = v + 4;
    }
    if x {
        v = v + 2;
    }
    if b {
        v = v + 1;
    }
    v
}

fn modrm(md: u8, reg: u8, rm: u8) -> (v: u8)
    ensures
        v == modrm_byte(md, reg, rm),
{
    ((md & 3) << 6) | ((reg & 7) << 3) | (rm & 7)
}

fn sib(scale: u8, index: u8, base: u8) -> (v: u8)
    ensures
        v == sib_byte(scale, index, base),
{
    ((scale & 3) << 6) | ((index & 7) << 3) | (base & 7)
}

fn fits_i32(val: i64) -> (b: bool)
    ensures
        b == spec_fits_i32(val),
{
    val >= i32::MIN as i64 && val <= i32::MAX as i64
}

fn disp_mode(offset: i32, has_sib: bool, base_low_101: bool) -> (r: (u8, u8))
    ensures
        r.0 == disp_mod(offset, has_sib, base_low_101),
        r.1 == disp_bytes(r.0, offset).len(),
{
    if offset == 0 && !has_sib && !base_low_101 {
        (0, 0)
    } else if offset == 0 {
        (1, 1)
    } else if offset >= -128 && offset <= 127 {
        (1, 1)
    } else {
        (2, 4)
    }
}

/// Whether `enc` stands at position `off` of `buf`.
pub open spec fn holds_at(buf: Seq<u8>, off: int, enc: Seq<u8>) -> bool {
    &&& 0 <= off
    &&& off + enc.len() <= buf.len()
    &&& forall|t: int| 0 <= t < enc.len() ==> #[trigger] buf[off + t] == enc[t]
}

/// Whether code position `k` lies inside the four-byte field that starts at `off`.
pub open spec fn in_field(k: int, off: int) -> bool {
    off <= k < off + 4
}

/// x86-64 assembler: a growing machine-code buffer plus labels.
pub struct X64Assembler {
    buffer: Vec<u8>,
    labels: HashMap<Label, usize>,
    unresolved: Vec<UnresolvedRef>,
    next_label: Label,
    /// References emitted after their label was bound, as (label, field offset).
    resolved: Ghost<Seq<(Label, int)>>,
}

impl X64Assembler {
    /// The machine code emitted so far.
    pub closed spec fn bytes(&self) -> Seq<u8> {
        self.buffer@
    }

    /// Bound labels and the code positions they stand for.
    pub closed spec fn label_map(&self) -> Map<Label, usize> {
        self.labels@
    }

    /// Displacement fields whose label was not bound when they were emitted.
    pub closed spec fn pending(&self) -> Seq<(Label, int)> {
        self.unresolved@.map_values(|u: UnresolvedRef| (u.label, u.offset as int))
    }

    /// Displacement fields emitted to an already bound label.
    pub closed spec fn resolved(&self) -> Seq<(Label, int)> {
        self.resolved@
    }

    /// The next label `new_label` hands out.
    pub closed spec fn next_label_id(&self) -> Label {
        self.next_label
    }

    /// Internal consistency of buffer, labels and references.
    pub closed spec fn wf(&self) -> bool {
        let buf = self.buffer@;
        let pend = self.unresolved@;
        let res = self.resolved@;
        &&& forall|l: Label| #[trigger]
            self.labels@.contains_key(l) ==> self.labels@[l] <= buf.len()
        &&& forall|j: int| 0 <= j < pend.len() ==> #[trigger] pend[j].offset + 4 <= buf.len()
        &&& forall|j: int, k: int|
            0 <= j < k < pend.len() ==> #[trigger] pend[j].offset + 4 <= #[trigger] pend[k].offset
        &&& forall|i: int|
            0 <= i < res.len() ==> {
                &&& self.labels@.contains_key(#[trigger] res[i].0)
                &&& holds_at(buf, res[i].1, rel32(self.labels@[res[i].0] as int, res[i].1))
            }
        &&& forall|i: int, j: int|
            0 <= i < res.len() && 0 <= j < pend.len() ==> #[trigger] res[i].1 + 4
                <= #[trigger] pend[j].offset || pend[j].offset + 4 <= res[i].1
    }

    /// Every pending reference names a bound label at a displacement that fits in i32.
    pub open spec fn can_finish(&self) -> bool {
        forall|j: int|
            0 <= j < self.pending().len() ==> {
                let u = #[trigger] self.pending()[j];
                &&& self.label_map().contains_key(u.0)
                &&& i32::MIN <= self.label_map()[u.0] - (u.1 + 4) <= i32::MAX
            }
    }

    /// Whether `finish` may be called now: every pending reference names a bound label
    /// at a displacement that fits in i32.
    pub fn ready_to_finish(&self) -> (b: bool)
        requires
            self.wf(),
        ensures
            b == self.can_finish(),
    {
        let n = self.unresolved.len();
        let mut j: usize = 0;
        while j < n
            invariant
                n == self.unresolved@.len(),
                n == self.pending().len(),
                j <= n,
                forall|t: int|
                    0 <= t < j ==> {
                        let u = #[trigger] self.pending()[t];
                        &&& self.label_map().contains_key(u.0)
                        &&& i32::MIN <= self.label_map()[u.0] - (u.1 + 4) <= i32::MAX
                    },
            decreases n - j,
        {
            let u = &self.unresolved[j];
            assert(self.pending()[j as int] == (u.label, u.offset as int));
            match self.labels.get(&u.label) {
                Some(pos) => {
                    let target = *pos as i128;
                    let disp = target - (u.offset as i128 + 4);
                    if disp < i32::MIN as i128 || disp > i32::MAX as i128 {
                        return false;
                    }
                },
                None => {
                    return false;
                },
            }
            j = j + 1;
        }
        true
    }

    /// `new` is `old` with `enc` appended and nothing else changed.
    pub open spec fn appended(old: X64Assembler, new: X64Assembler, enc: Seq<u8>) -> bool {
        &&& new.wf()
        &&& new.bytes() == old.bytes() + enc
        &&& new.label_map() == old.label_map()
        &&& new.pending() == old.pending()
        &&& new.resolved() == old.resolved()
        &&& new.next_label_id() == old.next_label_id()
    }

    /// `new` is `old` after a jump or call with opcode bytes `op` to `target`.
    pub open spec fn jumped(old: X64Assembler, new: X64Assembler, op: Seq<u8>, target: Label) -> bool {
        let off = (old.bytes().len() + op.len()) as int;
        &&& new.wf()
        &&& new.label_map() == old.label_map()
        &&& new.next_label_id() == old.next_label_id()
        &&& if old.label_map().contains_key(target) {
            &&& new.bytes() == old.bytes() + op + rel32(old.label_map()[target] as int, off)
            &&& new.resolved() == old.resolved().push((target, off))
            &&& new.pending() == old.pending()
        } else {
            &&& new.bytes() == old.bytes() + op + le32(0)
            &&& new.resolved() == old.resolved()
            &&& new.pending() == old.pending().push((target, off))
        }
    }

    proof fn lemma_append_wf(old: X64Assembler, new: X64Assembler, enc: Seq<u8>)
        requires
            old.wf(),
            new.buffer@ == old.buffer@ + enc,
            new.labels@ == old.labels@,
            new.unresolved@ == old.unresolved@,
            new.resolved@ == old.resolved@,
        ensures
            new.wf(),
    {
        let res = new.resolved@;
        assert forall|i: int| 0 <= i < res.len() implies {
            &&& new.labels@.contains_key(#[trigger] res[i].0)
            &&& holds_at(new.buffer@, res[i].1, rel32(new.labels@[res[i].0] as int, res[i].1))
        } by {
            let enc2 = rel32(new.labels@[res[i].0] as int, res[i].1);
            assert(holds_at(old.buffer@, res[i].1, enc2));
            assert forall|t: int| 0 <= t < enc2.len() implies #[trigger] new.buffer@[res[i].1 + t]
                == enc2[t] by {
                assert(old.buffer@[res[i].1 + t] == enc2[t]);
            }
        }
    }

    /// Creates an empty assembler.
    pub fn new() -> (a: Self)
        ensures
            a.wf(),
            a.bytes() == Seq::<u8>::empty(),
            a.label_map() == Map::<Label, usize>::empty(),
            a.pending() == Seq::<(Label, int)>::empty(),
            a.resolved() == Seq::<(Label, int)>::empty(),
            a.next_label_id() == 0,
    {
        let a = X64Assembler {
            buffer: Vec::with_capacity(256),
            labels: HashMap::new(),
            unresolved: Vec::new(),
            next_label: 0,
            resolved: Ghost(Seq::empty()),
        };
                assert(a.pending() =~= Seq::<(Label, int)>::empty());
        a
    }

    /// Hands out a fresh label id.
    pub fn new_label(&mut self) -> (l: Label)
        requires
            old(self).wf(),
            old(self).next_label_id() < u32::MAX,
        ensures
            l == old(self).next_label_id(),
            final(self).wf(),
            final(self).bytes() == old(self).bytes(),
            final(self).label_map() == old(self).label_map(),
            final(self).pending() == old(self).pending(),
            final(self).resolved() == old(self).resolved(),
            final(self).next_label_id() == old(self).next_label_id() + 1,
    {
        let label = self.next_label;
        self.next_label = self.next_label + 1;
        label
    }

    /// Binds `label` to the current code position.
    pub fn bind_label(&mut self, label: Label)
        requires
            old(self).wf(),
            !old(self).label_map().contains_key(label),
        ensures
            final(self).wf(),
            final(self).bytes() == old(self).bytes(),
            final(self).label_map() == old(self).label_map().insert(label, old(self).bytes().len() as usize),
            final(self).pending() == old(self).pending(),
            final(self).resolved() == old(self).resolved(),
            final(self).next_label_id() == old(self).next_label_id(),
    {
        let ghost old_labels = self.labels@;
        assert(!self.labels@.contains_key(label));
        let pos = self.buffer.len();
        self.labels.insert(label, pos);
        proof {
            let res = self.resolved@;
            assert forall|i: int| 0 <= i < res.len() implies {
                &&& self.labels@.contains_key(#[trigger] res[i].0)
                &&& holds_at(self.buffer@, res[i].1, rel32(self.labels@[res[i].0] as int, res[i].1))
            } by {
                assert(old_labels.contains_key(res[i].0));
                assert(res[i].0 != label);
            }
        }
    }

    /// Patches every pending displacement and returns the machine code.
    pub fn finish(self) -> (code: Vec<u8>)
        requires
            self.wf(),
            self.can_finish(),
        ensures
            code@.len() == self.bytes().len(),
            forall|j: int|
                0 <= j < self.pending().len() ==> holds_at(
                    code@,
                    #[trigger] self.pending()[j].1,
                    rel32(self.label_map()[self.pending()[j].0] as int, self.pending()[j].1),
                ),
            forall|i: int|
                0 <= i < self.resolved().len() ==> holds_at(
                    code@,
                    #[trigger] self.resolved()[i].1,
                    rel32(self.label_map()[self.resolved()[i].0] as int, self.resolved()[i].1),
                ),
            forall|k: int|
                0 <= k < code@.len() && (forall|j: int|
                    0 <= j < self.pending().len() ==> !in_field(k, #[trigger] self.pending()[j].1))
                    ==> code@[k] == self.bytes()[k],
    {
        let ghost orig = self.buffer@;
        let ghost res = self.resolved@;
        assert forall|j: int| 0 <= j < self.unresolved@.len() implies {
            let u = #[trigger] self.unresolved@[j];
            &&& self.labels@.contains_key(u.label)
            &&& i32::MIN <= self.labels@[u.label] - (u.offset + 4) <= i32::MAX
        } by {
            assert(self.pending()[j] == (self.unresolved@[j].label, self.unresolved@[j].offset as int));
        }
        let X64Assembler { buffer, labels, unresolved, next_label: _, resolved: _ } = self;
        let mut buffer = buffer;
        let n = unresolved.len();
        let mut i: usize = 0;
        while i < n
            invariant
                n == unresolved@.len(),
                i <= n,
                buffer@.len() == orig.len(),
                forall|j: int| 0 <= j < n ==> #[trigger] unresolved@[j].offset + 4 <= orig.len(),
                forall|j: int, k: int|
                    0 <= j < k < n ==> #[trigger] unresolved@[j].offset + 4
                        <= #[trigger] unresolved@[k].offset,
                forall|j: int|
                    0 <= j < n ==> {
                        let u = #[trigger] unresolved@[j];
                        &&& labels@.contains_key(u.label)
                        &&& i32::MIN <= labels@[u.label] - (u.offset + 4) <= i32::MAX
                    },
                forall|j: int|
                    0 <= j < i ==> holds_at(
                        buffer@,
                        #[trigger] unresolved@[j].offset as int,
                        rel32(labels@[unresolved@[j].label] as int, unresolved@[j].offset as int),
                    ),
                forall|k: int|
                    0 <= k < orig.len() && (forall|j: int|
                        0 <= j < i ==> !in_field(k, #[trigger] unresolved@[j].offset as int))
                        ==> buffer@[k] == orig[k],
            decreases n - i,
        {
            let label = unresolved[i].label;
            let off = unresolved[i].offset;
            assert(unresolved@[i as int].offset + 4 <= orig.len());
            assert(off + 4 <= buffer.len());
            let target = *labels.get(&label).unwrap();
            let disp: i128 = target as i128 - (off as i128 + 4);
            let d: u32 = disp as u32;
            let ghost before = buffer@;
            buffer.set(off, (d & 0xff) as u8);
            buffer.set(off + 1, ((d >> 8) & 0xff) as u8);
            buffer.set(off + 2, ((d >> 16) & 0xff) as u8);
            buffer.set(off + 3, ((d >> 24) & 0xff) as u8);
            proof {
                let enc = rel32(target as int, off as int);
                assert(enc == le32(d));
                assert(holds_at(buffer@, off as int, enc));
                assert forall|j: int| 0 <= j < i + 1 implies holds_at(
                    buffer@,
                    #[trigger] unresolved@[j].offset as int,
                    rel32(labels@[unresolved@[j].label] as int, unresolved@[j].offset as int),
                ) by {
                    if j < i {
                        let oj = unresolved@[j].offset as int;
                        let ej = rel32(labels@[unresolved@[j].label] as int, oj);
                        assert(oj + 4 <= off);
                        assert(holds_at(before, oj, ej));
                        assert forall|t: int| 0 <= t < ej.len() implies #[trigger] buffer@[oj + t]
                            == ej[t] by {
                            assert(before[oj + t] == ej[t]);
                        }
                    }
                }
                assert forall|k: int|
                    0 <= k < orig.len() && (forall|j: int|
                        0 <= j < i + 1 ==> !in_field(k, #[trigger] unresolved@[j].offset as int))
                        implies buffer@[k] == orig[k] by {
                    assert(!in_field(k, unresolved@[i as int].offset as int));
                    assert(forall|j: int|
                        0 <= j < i ==> !in_field(k, #[trigger] unresolved@[j].offset as int));
                    assert(before[k] == orig[k]);
                }
            }
            i = i + 1;
        }
        proof {
            let pend = self.pending();
            assert forall|j: int| 0 <= j < pend.len() implies holds_at(
                buffer@,
                #[trigger] pend[j].1,
                rel32(self.label_map()[pend[j].0] as int, pend[j].1),
            ) by {
                assert(pend[j] == (unresolved@[j].label, unresolved@[j].offset as int));
                assert(holds_at(
                    buffer@,
                    unresolved@[j].offset as int,
                    rel32(labels@[unresolved@[j].label] as int, unresolved@[j].offset as int),
                ));
            }
            assert forall|ii: int| 0 <= ii < res.len() implies holds_at(
                buffer@,
                #[trigger] res[ii].1,
                rel32(self.label_map()[res[ii].0] as int, res[ii].1),
            ) by {
                let o = res[ii].1;
                let e = rel32(labels@[res[ii].0] as int, o);
                assert(holds_at(orig, o, e));
                assert forall|t: int| 0 <= t < e.len() implies #[trigger] buffer@[o + t] == e[t] by {
                    assert forall|j: int| 0 <= j < n implies !in_field(
                        o + t,
                        #[trigger] unresolved@[j].offset as int,
                    ) by {
                        assert(o + 4 <= unresolved@[j].offset || unresolved@[j].offset + 4 <= o);
                    }
                    assert(orig[o + t] == e[t]);
                }
            }
            assert forall|k: int|
                0 <= k < buffer@.len() && (forall|j: int|
                    0 <= j < pend.len() ==> !in_field(k, #[trigger] pend[j].1)) implies buffer@[k]
                == orig[k] by {
                assert forall|j: int| 0 <= j < n implies !in_field(
                    k,
                    #[trigger] unresolved@[j].offset as int,
                ) by {
                    assert(pend[j].1 == unresolved@[j].offset as int);
                }
            }
        }
        buffer
    }

    // ------------------------------------------------------------------
    // Emission primitives
    // ------------------------------------------------------------------

    fn emit8(&mut self, byte: u8)
        requires
            old(self).wf(),
        ensures
            Self::appended(*old(self), *final(self), seq![byte]),
            final(self).unresolved@ == old(self).unresolved@,
    {
        self.buffer.push(byte);
        proof {
            assert(self.buffer@ =~= old(self).buffer@ + seq![byte]);
            Self::lemma_append_wf(*old(self), *self, seq![byte]);
        }
    }

    fn emit32(&mut self, val: u32)
        requires
            old(self).wf(),
        ensures
            Self::appended(*old(self), *final(self), le32(val)),
            final(self).unresolved@ == old(self).unresolved@,
    {
        push_u32_le(&mut self.buffer, val);
        proof {
            Self::lemma_append_wf(*old(self), *self, le32(val));
        }
    }

    fn emit64(&mut self, val: u64)
        requires
            old(self).wf(),
        ensures
            Self::appended(*old(self), *final(self), le64(val)),
            final(self).unresolved@ == old(self).unresolved@,
    {
        push_u64_le(&mut self.buffer, val);
        proof {
            Self::lemma_append_wf(*old(self), *self, le64(val));
        }
    }

    fn emit_disp(&mut self, md: u8, offset: i32)
        requires
            old(self).wf(),
        ensures
            Self::appended(*old(self), *final(self), disp_bytes(md, offset)),
    {
        if md == 1 {
            self.emit8(offset as u8);
        } else if md == 2 {
            self.emit32(offset as u32);
        } else {
            proof {
                assert(self.bytes() =~= old(self).bytes() + disp_bytes(md, offset));
            }
        }
    }

    /// Shared encoder for `op [base + offset]` forms with `reg_field` in ModR/M.reg.
    fn emit_mem_op(&mut self, rex_r: bool, opcode: u8, reg_field: u8, base: Register, offset: i32)
        requires
            old(self).wf(),
        ensures
            Self::appended(*old(self), *final(self), enc_mem(rex_r, opcode, reg_field, base, offset)),
    {
        let rex = rex_prefix(true, rex_r, false, base.is_extended());
        self.emit8(rex);
        self.emit8(opcode);
        let needs_sib = base.code() == 4;
        let (mod_field, _) = disp_mode(offset, needs_sib, base.code() == 5);
        self.emit8(modrm(mod_field, reg_field, if needs_sib { 4 } else { base.code() }));
        let ghost mid = self.bytes();
        if needs_sib {
            self.emit8(sib(0, 4, base.code()));
        }
        let ghost mid2 = self.bytes();
        self.emit_disp(mod_field, offset);
        proof {
            assert(self.bytes() =~= old(self).bytes() + enc_mem(rex_r, opcode, reg_field, base, offset));
        }
    }

    /// Shared encoder for `op r/m64, r64` between two registers.
    fn reg_reg_rm(&mut self, opcode: u8, is_64bit: bool, dest: Register, src: Register)
        requires
            old(self).wf(),
        ensures
            Self::appended(*old(self), *final(self), enc_reg_reg(opcode, is_64bit, dest, src)),
    {
        let rex = rex_prefix(is_64bit, src.is_extended(), false, dest.is_extended());
        if rex != 0x40 {
            self.emit8(rex);
        }
        self.emit8(opcode);
        self.emit8(modrm(0b11, src.code(), dest.code()));
        proof {
            assert(self.bytes() =~= old(self).bytes() + enc_reg_reg(opcode, is_64bit, dest, src));
        }
    }

    fn emit_unary(&mut self, opcode: u8, ext: u8, reg: Register)
        requires
            old(self).wf(),
        ensures
            Self::appended(*old(self), *final(self), enc_unary(opcode, ext, reg)),
    {
        let rex = rex_prefix(true, false, false, reg.is_extended());
        self.emit8(rex);
        self.emit8(opcode);
        self.emit8(modrm(0b11, ext, reg.code()));
        proof {
            assert(self.bytes() =~= old(self).bytes() + enc_unary(opcode, ext, reg));
        }
    }

    fn emit_alu_imm(&mut self, ext: u8, reg: Register, imm: i32)
        requires
            old(self).wf(),
        ensures
            Self::appended(*old(self), *final(self), enc_alu_imm(ext, reg, imm)),
    {
        let rex = rex_prefix(true, false, false, reg.is_extended());
        self.emit8(rex);
        if imm >= -128 && imm <= 127 {
            self.emit8(0x83);
            self.emit8(modrm(0b11, ext, reg.code()));
            self.emit8(imm as u8);
        } else {
            self.emit8(0x81);
            self.emit8(modrm(0b11, ext, reg.code()));
            self.emit32(imm as u32);
        }
        proof {
            assert(self.bytes() =~= old(self).bytes() + enc_alu_imm(ext, reg, imm));
        }
    }

    fn emit_shift(&mut self, ext: u8, reg: Register, imm: u8)
        requires
            old(self).wf(),
        ensures
            Self::appended(*old(self), *final(self), enc_shift(ext, reg, imm)),
    {
        let rex = rex_prefix(true, false, false, reg.is_extended());
        self.emit8(rex);
        if imm == 1 {
            self.emit8(0xD1);
            self.emit8(modrm(0b11, ext, reg.code()));
        } else {
            self.emit8(0xC1);
            self.emit8(modrm(0b11, ext, reg.code()));
            self.emit8(imm);
        }
        proof {
            assert(self.bytes() =~= old(self).bytes() + enc_shift(ext, reg, imm));
        }
    }

    fn emit_plus_reg(&mut self, base_op: u8, reg: Register)
        requires
            old(self).wf(),
        ensures
            Self::appended(*old(self), *final(self), enc_plus_reg(base_op, reg)),
    {
        if reg.is_extended() {
            self.emit8(0x41);
        }
        self.emit8(base_op | reg.code());
        proof {
            assert(self.bytes() =~= old(self).bytes() + enc_plus_reg(base_op, reg));
        }
    }

    /// Emits the rel32 field of a jump or call whose opcode bytes are already out.
    fn emit_rel32_to(&mut self, target: Label)
        requires
            old(self).wf(),
        ensures
            final(self).wf(),
            final(self).label_map() == old(self).label_map(),
            final(self).next_label_id() == old(self).next_label_id(),
            if old(self).label_map().contains_key(target) {
                &&& final(self).bytes() == old(self).bytes() + rel32(
                    old(self).label_map()[target] as int,
                    old(self).bytes().len() as int,
                )
                &&& final(self).resolved() == old(self).resolved().push(
                    (target, old(self).bytes().len() as int),
                )
                &&& final(self).pending() == old(self).pending()
            } else {
                &&& final(self).bytes() == old(self).bytes() + le32(0)
                &&& final(self).resolved() == old(self).resolved()
                &&& final(self).pending() == old(self).pending().push(
                    (target, old(self).bytes().len() as int),
                )
            },
    {
        let offset = self.buffer.len();
        let ghost off = offset as int;
        match self.labels.get(&target) {
            Some(tp) => {
                let target_pos: usize = *tp;
                let disp: i128 = target_pos as i128 - (offset as i128 + 4);
                self.emit32(disp as u32);
                self.resolved = Ghost(self.resolved@.push((target, off)));
                proof {
                    let enc = rel32(target_pos as int, off);
                    assert(enc == le32(disp as u32));
                    let res = self.resolved@;
                    let pend = self.unresolved@;
                    assert forall|i: int| 0 <= i < res.len() implies {
                        &&& self.labels@.contains_key(#[trigger] res[i].0)
                        &&& holds_at(self.buffer@, res[i].1, rel32(self.labels@[res[i].0] as int, res[i].1))
                    } by {
                        if i == res.len() - 1 {
                            assert(res[i] == (target, off));
                            assert forall|t: int| 0 <= t < enc.len() implies #[trigger] self.buffer@[off + t] == enc[t] by {
                                assert(self.buffer@ == old(self).buffer@ + enc);
                            }
                        } else {
                            assert(res[i] == old(self).resolved@[i]);
                        }
                    }
                    assert forall|i: int, j: int|
                        0 <= i < res.len() && 0 <= j < pend.len() implies #[trigger] res[i].1 + 4
                            <= #[trigger] pend[j].offset || pend[j].offset + 4 <= res[i].1 by {
                        if i == res.len() - 1 {
                            assert(pend[j] == old(self).unresolved@[j]);
                            assert(pend[j].offset + 4 <= offset);
                        } else {
                            assert(res[i] == old(self).resolved@[i]);
                        }
                    }
                }
            },
            None => {
                self.emit32(0);
                self.unresolved.push(UnresolvedRef { label: target, offset, kind: RefKind::Rel32 });
                proof {
                    let res = self.resolved@;
                    let pend = self.unresolved@;
                    let n = pend.len() - 1;
                    assert forall|j: int| 0 <= j < pend.len() implies #[trigger] pend[j].offset + 4 <= self.buffer@.len() by {
                        if j < n {
                            assert(pend[j] == old(self).unresolved@[j]);
                        }
                    }
                    assert forall|j: int, k: int|
                        0 <= j < k < pend.len() implies #[trigger] pend[j].offset + 4 <= #[trigger] pend[k].offset by {
                        assert(pend[j] == old(self).unresolved@[j]);
                        if k < n {
                            assert(pend[k] == old(self).unresolved@[k]);
                        }
                    }
                    assert forall|i: int| 0 <= i < res.len() implies {
                        &&& self.labels@.contains_key(#[trigger] res[i].0)
                        &&& holds_at(self.buffer@, res[i].1, rel32(self.labels@[res[i].0] as int, res[i].1))
                    } by {
                        assert(res[i] == old(self).resolved@[i]);
                    }
                    assert forall|i: int, j: int|
                        0 <= i < res.len() && 0 <= j < pend.len() implies #[trigger] res[i].1 + 4
                            <= #[trigger] pend[j].offset || pend[j].offset + 4 <= res[i].1 by {
                        assert(res[i] == old(self).resolved@[i]);
                        if j < n {
                            assert(pend[j] == old(self).unresolved@[j]);
                        } else {
                            assert(holds_at(old(self).buffer@, res[i].1, rel32(old(self).labels@[res[i].0] as int, res[i].1)));
                            assert(pend[j].offset == offset);
                        }
                    }
                    assert(self.pending() =~= old(self).pending().push((target, off)));
                }
            },
        }
    }

    /// One-byte opcode followed by rel32 (`jmp`, `call`).
    fn emit_jump_rel32(&mut self, opcode: u8, target: Label)
        requires
            old(self).wf(),
        ensures
            Self::jumped(*old(self), *final(self), seq![opcode], target),
    {
        self.emit8(opcode);
        self.emit_rel32_to(target);
        proof {
            if old(self).label_map().contains_key(target) {
                assert(self.bytes() =~= old(self).bytes() + seq![opcode] + rel32(
                    old(self).label_map()[target] as int,
                    (old(self).bytes().len() + 1) as int,
                ));
            } else {
                assert(self.bytes() =~= old(self).bytes() + seq![opcode] + le32(0));
            }
        }
    }

    /// `0F cc` followed by rel32 (conditional jumps).
    fn emit_jcc_rel32(&mut self, opcode: u8, target: Label)
        requires
            old(self).wf(),
        ensures
            Self::jumped(*old(self), *final(self), seq![0x0Fu8, opcode], target),
    {
        self.emit8(0x0F);
        self.emit8(opcode);
        self.emit_rel32_to(target);
        proof {
            if old(self).label_map().contains_key(target) {
                assert(self.bytes() =~= old(self).bytes() + seq![0x0Fu8, opcode] + rel32(
                    old(self).label_map()[target] as int,
                    (old(self).bytes().len() + 2) as int,
                ));
            } else {
                assert(self.bytes() =~= old(self).bytes() + seq![0x0Fu8, opcode] + le32(0));
            }
        }
    }

    /// `mov dest, src` between 64-bit registers: `REX.W 89 /r`.
    pub fn mov_reg_reg(&mut self, dest: Register, src: Register)
        requires
            old(self).wf(),
        ensures
            Self::appended(*old(self), *final(self), enc_reg_reg(0x89, true, dest, src)),
    {
        self.reg_reg_rm(0x89, true, dest, src);
    }

    /// `mov reg, imm`: `[REX.B] B8+r id` when the value fits in i32, else `REX.W B8+r io`.
    pub fn mov_reg_imm(&mut self, dest: Register, imm: i64)
        requires
            old(self).wf(),
        ensures
            Self::appended(*old(self), *final(self), enc_mov_reg_imm(dest, imm)),
    {
        if fits_i32(imm) {
            if dest.is_extended() {
                self.emit8(rex_prefix(false, false, false, true));
            }
            self.emit8(0xB8 | dest.code());
            self.emit32(imm as u32);
        } else {
            let rex = rex_prefix(true, false, false, dest.is_extended());
            if rex != 0x40 {
                self.emit8(rex);
            }
            self.emit8(0xB8 | dest.code());
            self.emit64(imm as u64);
        }
        proof {
            assert(self.bytes() =~= old(self).bytes() + enc_mov_reg_imm(dest, imm));
        }
    }

    /// `mov dest, [base + offset]`: `REX.W 8B /r`.
    pub fn mov_reg_mem(&mut self, dest: Register, base: Register, offset: i32)
        requires
            old(self).wf(),
        ensures
            Self::appended(*old(self), *final(self), enc_mem(dest.spec_is_extended(), 0x8B, dest.spec_code(), base, offset)),
    {
        self.emit_mem_op(dest.is_extended(), 0x8B, dest.code(), base, offset);
    }

    /// `mov [base + offset], src`: `REX.W 89 /r`.
    pub fn mov_mem_reg(&mut self, base: Register, offset: i32, src: Register)
        requires
            old(self).wf(),
        ensures
            Self::appended(*old(self), *final(self), enc_mem(src.spec_is_extended(), 0x89, src.spec_code(), base, offset)),
    {
        self.emit_mem_op(src.is_extended(), 0x89, src.code(), base, offset);
    }

    /// `push reg`: `[REX.B] 50+r`.
    pub fn push_reg(&mut self, reg: Register)
        requires
            old(self).wf(),
        ensures
            Self::appended(*old(self), *final(self), enc_plus_reg(0x50, reg)),
    {
        self.emit_plus_reg(0x50, reg);
    }

    /// `pop reg`: `[REX.B] 58+r`.
    pub fn pop_reg(&mut self, reg: Register)
        requires
            old(self).wf(),
        ensures
            Self::appended(*old(self), *final(self), enc_plus_reg(0x58, reg)),
    {
        self.emit_plus_reg(0x58, reg);
    }

    /// `add dest, src`: `REX.W 01 /r`.
    pub fn add_reg_reg(&mut self, dest: Register, src: Register)
        requires
            old(self).wf(),
        ensures
            Self::appended(*old(self), *final(self), enc_reg_reg(0x01, true, dest, src)),
    {
        self.reg_reg_rm(0x01, true, dest, src);
    }

    /// `sub dest, src`: `REX.W 29 /r`.
    pub fn sub_reg_reg(&mut self, dest: Register, src: Register)
        requires
            old(self).wf(),
        ensures
            Self::appended(*old(self), *final(self), enc_reg_reg(0x29, true, dest, src)),
    {
        self.reg_reg_rm(0x29, true, dest, src);
    }

    /// `mul reg` (RDX:RAX = RAX * reg): `REX.W F7 /4`.
    pub fn mul_reg(&mut self, reg: Register)
        requires
            old(self).wf(),
        ensures
            Self::appended(*old(self), *final(self), enc_unary(0xF7, 4, reg)),
    {
        self.emit_unary(0xF7, 4, reg);
    }

    /// `div reg` (unsigned RDX:RAX / reg): `REX.W F7 /6`.
    pub fn div_reg(&mut self, reg: Register)
        requires
            old(self).wf(),
        ensures
            Self::appended(*old(self), *final(self), enc_unary(0xF7, 6, reg)),
    {
        self.emit_unary(0xF7, 6, reg);
    }

    /// `inc reg`: `REX.W FF /0`.
    pub fn inc_reg(&mut self, reg: Register)
        requires
            old(self).wf(),
        ensures
            Self::appended(*old(self), *final(self), enc_unary(0xFF, 0, reg)),
    {
        self.emit_unary(0xFF, 0, reg);
    }

    /// `dec reg`: `REX.W FF /1`.
    pub fn dec_reg(&mut self, reg: Register)
        requires
            old(self).wf(),
        ensures
            Self::appended(*old(self), *final(self), enc_unary(0xFF, 1, reg)),
    {
        self.emit_unary(0xFF, 1, reg);
    }

    /// `and dest, src`: `REX.W 21 /r`.
    pub fn and_reg_reg(&mut self, dest: Register, src: Register)
        requires
            old(self).wf(),
        ensures
            Self::appended(*old(self), *final(self), enc_reg_reg(0x21, true, dest, src)),
    {
        self.reg_reg_rm(0x21, true, dest, src);
    }

    /// `or dest, src`: `REX.W 09 /r`.
    pub fn or_reg_reg(&mut self, dest: Register, src: Register)
        requires
            old(self).wf(),
        ensures
            Self::appended(*old(self), *final(self), enc_reg_reg(0x09, true, dest, src)),
    {
        self.reg_reg_rm(0x09, true, dest, src);
    }

    /// `xor dest, src`: `REX.W 31 /r`.
    pub fn xor_reg_reg(&mut self, dest: Register, src: Register)
        requires
            old(self).wf(),
        ensures
            Self::appended(*old(self), *final(self), enc_reg_reg(0x31, true, dest, src)),
    {
        self.reg_reg_rm(0x31, true, dest, src);
    }

    /// `not reg`: `REX.W F7 /2`.
    pub fn not_reg(&mut self, reg: Register)
        requires
            old(self).wf(),
        ensures
            Self::appended(*old(self), *final(self), enc_unary(0xF7, 2, reg)),
    {
        self.emit_unary(0xF7, 2, reg);
    }

    /// `neg reg`: `REX.W F7 /3`.
    pub fn neg_reg(&mut self, reg: Register)
        requires
            old(self).wf(),
        ensures
            Self::appended(*old(self), *final(self), enc_unary(0xF7, 3, reg)),
    {
        self.emit_unary(0xF7, 3, reg);
    }

    /// `add reg, imm`: `REX.W 83 /0 ib` or `REX.W 81 /0 id`.
    pub fn add_reg_imm(&mut self, reg: Register, imm: i32)
        requires
            old(self).wf(),
        ensures
            Self::appended(*old(self), *final(self), enc_alu_imm(0, reg, imm)),
    {
        self.emit_alu_imm(0, reg, imm);
    }

    /// `sub reg, imm`: `REX.W 83 /5 ib` or `REX.W 81 /5 id`.
    pub fn sub_reg_imm(&mut self, reg: Register, imm: i32)
        requires
            old(self).wf(),
        ensures
            Self::appended(*old(self), *final(self), enc_alu_imm(5, reg, imm)),
    {
        self.emit_alu_imm(5, reg, imm);
    }

    /// `imul reg, reg, imm32` (reg = reg * imm): `REX.W 69 /r id`, with `reg` in both
    /// ModR/M fields, so an extended register sets REX.R and REX.B.
    pub fn imul_reg_imm(&mut self, reg: Register, imm: i32)
        requires
            old(self).wf(),
        ensures
            Self::appended(*old(self), *final(self), seq![rex(true, reg.spec_is_extended(), false, reg.spec_is_extended()), 0x69u8, modrm_byte(3, reg.spec_code(), reg.spec_code())] + le32(imm as u32)),
    {
        let rex = rex_prefix(true, reg.is_extended(), false, reg.is_extended());
        self.emit8(rex);
        self.emit8(0x69);
        self.emit8(modrm(0b11, reg.code(), reg.code()));
        self.emit32(imm as u32);
        proof {
            assert(self.bytes() =~= old(self).bytes() + (seq![rex, 0x69u8, modrm_byte(3, reg.spec_code(), reg.spec_code())] + le32(imm as u32)));
        }
    }

    /// `and reg, imm`: `REX.W 83 /4 ib` or `REX.W 81 /4 id`.
    pub fn and_reg_imm(&mut self, reg: Register, imm: i32)
        requires
            old(self).wf(),
        ensures
            Self::appended(*old(self), *final(self), enc_alu_imm(4, reg, imm)),
    {
        self.emit_alu_imm(4, reg, imm);
    }

    /// `or reg, imm`: `REX.W 83 /1 ib` or `REX.W 81 /1 id`.
    pub fn or_reg_imm(&mut self, reg: Register, imm: i32)
        requires
            old(self).wf(),
        ensures
            Self::appended(*old(self), *final(self), enc_alu_imm(1, reg, imm)),
    {
        self.emit_alu_imm(1, reg, imm);
    }

    /// `xor reg, imm`: `REX.W 83 /6 ib` or `REX.W 81 /6 id`.
    pub fn xor_reg_imm(&mut self, reg: Register, imm: i32)
        requires
            old(self).wf(),
        ensures
            Self::appended(*old(self), *final(self), enc_alu_imm(6, reg, imm)),
    {
        self.emit_alu_imm(6, reg, imm);
    }

    /// `cmp reg, imm8`: `REX.W 83 /7 ib`.
    pub fn cmp_reg_imm8(&mut self, reg: Register, imm: i8)
        requires
            old(self).wf(),
        ensures
            Self::appended(*old(self), *final(self), enc_alu_imm8(7, reg, imm)),
    {
        self.emit_alu_imm8(7, reg, imm);
    }

    /// `imul dest, src`: `REX.W 0F AF /r`.
    pub fn imul_reg_reg(&mut self, dest: Register, src: Register)
        requires
            old(self).wf(),
        ensures
            Self::appended(*old(self), *final(self), seq![rex(true, dest.spec_is_extended(), false, src.spec_is_extended()), 0x0Fu8, 0xAF, modrm_byte(3, dest.spec_code(), src.spec_code())]),
    {
        let rex = rex_prefix(true, dest.is_extended(), false, src.is_extended());
        self.emit8(rex);
        self.emit8(0x0F);
        self.emit8(0xAF);
        self.emit8(modrm(0b11, dest.code(), src.code()));
        proof {
            assert(self.bytes() =~= old(self).bytes() + seq![rex, 0x0Fu8, 0xAF, modrm_byte(3, dest.spec_code(), src.spec_code())]);
        }
    }

    /// `shl reg, imm`: `REX.W D1 /4` for one, else `REX.W C1 /4 ib`.
    pub fn shl_reg_imm(&mut self, reg: Register, imm: u8)
        requires
            old(self).wf(),
        ensures
            Self::appended(*old(self), *final(self), enc_shift(4, reg, imm)),
    {
        self.emit_shift(4, reg, imm);
    }

    /// `shr reg, imm`: `REX.W D1 /5` for one, else `REX.W C1 /5 ib`.
    pub fn shr_reg_imm(&mut self, reg: Register, imm: u8)
        requires
            old(self).wf(),
        ensures
            Self::appended(*old(self), *final(self), enc_shift(5, reg, imm)),
    {
        self.emit_shift(5, reg, imm);
    }

    /// `sar reg, imm`: `REX.W D1 /7` for one, else `REX.W C1 /7 ib`.
    pub fn sar_reg_imm(&mut self, reg: Register, imm: u8)
        requires
            old(self).wf(),
        ensures
            Self::appended(*old(self), *final(self), enc_shift(7, reg, imm)),
    {
        self.emit_shift(7, reg, imm);
    }

    /// `add [base + offset], src`: `REX.W 01 /r`.
    pub fn add_mem_reg(&mut self, base: Register, offset: i32, src: Register)
        requires
            old(self).wf(),
        ensures
            Self::appended(*old(self), *final(self), enc_mem(src.spec_is_extended(), 0x01, src.spec_code(), base, offset)),
    {
        self.emit_mem_op(src.is_extended(), 0x01, src.code(), base, offset);
    }

    /// `sub [base + offset], src`: `REX.W 29 /r`.
    pub fn sub_mem_reg(&mut self, base: Register, offset: i32, src: Register)
        requires
            old(self).wf(),
        ensures
            Self::appended(*old(self), *final(self), enc_mem(src.spec_is_extended(), 0x29, src.spec_code(), base, offset)),
    {
        self.emit_mem_op(src.is_extended(), 0x29, src.code(), base, offset);
    }

    /// `lea dest, [base + offset]`: `REX.W 8D /r`.
    pub fn lea_reg_mem(&mut self, dest: Register, base: Register, offset: i32)
        requires
            old(self).wf(),
        ensures
            Self::appended(*old(self), *final(self), enc_mem(dest.spec_is_extended(), 0x8D, dest.spec_code(), base, offset)),
    {
        self.emit_mem_op(dest.is_extended(), 0x8D, dest.code(), base, offset);
    }

    /// `cmp [base + offset], right`: `REX.W 39 /r`.
    pub fn cmp_mem_reg(&mut self, base: Register, offset: i32, right: Register)
        requires
            old(self).wf(),
        ensures
            Self::appended(*old(self), *final(self), enc_mem(right.spec_is_extended(), 0x39, right.spec_code(), base, offset)),
    {
        self.emit_mem_op(right.is_extended(), 0x39, right.code(), base, offset);
    }

    /// `cmp left, right`: `REX.W 39 /r`.
    pub fn cmp_reg_reg(&mut self, left: Register, right: Register)
        requires
            old(self).wf(),
        ensures
            Self::appended(*old(self), *final(self), enc_reg_reg(0x39, true, left, right)),
    {
        self.reg_reg_rm(0x39, true, left, right);
    }

    /// `jmp target`: `E9 rel32`.
    pub fn jmp(&mut self, target: Label)
        requires
            old(self).wf(),
        ensures
            Self::jumped(*old(self), *final(self), seq![0xE9u8], target),
    {
        self.emit_jump_rel32(0xE9, target);
    }

    /// `je target` (ZF=1): `0F 84 rel32`.
    pub fn je(&mut self, target: Label)
        requires
            old(self).wf(),
        ensures
            Self::jumped(*old(self), *final(self), seq![0x0Fu8, 0x84u8], target),
    {
        self.emit_jcc_rel32(0x84, target);
    }

    /// `jne target` (ZF=0): `0F 85 rel32`.
    pub fn jne(&mut self, target: Label)
        requires
            old(self).wf(),
        ensures
            Self::jumped(*old(self), *final(self), seq![0x0Fu8, 0x85u8], target),
    {
        self.emit_jcc_rel32(0x85, target);
    }

    /// `jg target` (signed greater): `0F 8F rel32`.
    pub fn jg(&mut self, target: Label)
        requires
            old(self).wf(),
        ensures
            Self::jumped(*old(self), *final(self), seq![0x0Fu8, 0x8Fu8], target),
    {
        self.emit_jcc_rel32(0x8F, target);
    }

    /// `jge target` (signed greater or equal): `0F 8D rel32`.
    pub fn jge(&mut self, target: Label)
        requires
            old(self).wf(),
        ensures
            Self::jumped(*old(self), *final(self), seq![0x0Fu8, 0x8Du8], target),
    {
        self.emit_jcc_rel32(0x8D, target);
    }

    /// `jl target` (signed less): `0F 8C rel32`.
    pub fn jl(&mut self, target: Label)
        requires
            old(self).wf(),
        ensures
            Self::jumped(*old(self), *final(self), seq![0x0Fu8, 0x8Cu8], target),
    {
        self.emit_jcc_rel32(0x8C, target);
    }

    /// `jle target` (signed less or equal): `0F 8E rel32`.
    pub fn jle(&mut self, target: Label)
        requires
            old(self).wf(),
        ensures
            Self::jumped(*old(self), *final(self), seq![0x0Fu8, 0x8Eu8], target),
    {
        self.emit_jcc_rel32(0x8E, target);
    }

    /// `call target`: `E8 rel32`.
    pub fn call(&mut self, target: Label)
        requires
            old(self).wf(),
        ensures
            Self::jumped(*old(self), *final(self), seq![0xE8u8], target),
    {
        self.emit_jump_rel32(0xE8, target);
    }

    /// `call reg`: `[REX.B] FF /2`.
    pub fn call_reg(&mut self, reg: Register)
        requires
            old(self).wf(),
        ensures
            Self::appended(*old(self), *final(self), (if reg.spec_is_extended() { seq![0x41u8] } else { Seq::empty() }) + seq![0xFFu8, modrm_byte(3, 2, reg.spec_code())]),
    {
        if reg.is_extended() {
            self.emit8(0x41);
        }
        self.emit8(0xFF);
        self.emit8(modrm(0b11, 2, reg.code()));
        proof {
            assert(self.bytes() =~= old(self).bytes() + ((if reg.spec_is_extended() { seq![0x41u8] } else { Seq::empty() }) + seq![0xFFu8, modrm_byte(3, 2, reg.spec_code())]));
        }
    }

    /// `ret`: `C3`.
    pub fn ret(&mut self)
        requires
            old(self).wf(),
        ensures
            Self::appended(*old(self), *final(self), seq![0xC3u8]),
    {
        self.emit8(0xC3);
    }

    /// `sub rsp, imm32`: `48 81 /5 id`.
    pub fn sub_rsp_imm(&mut self, imm: i32)
        requires
            old(self).wf(),
        ensures
            Self::appended(*old(self), *final(self), seq![0x48u8, 0x81, modrm_byte(3, 5, 4)] + le32(imm as u32)),
    {
        self.emit8(0x48);
        self.emit8(0x81);
        self.emit8(modrm(0b11, 5, Register::RSP.code()));
        self.emit32(imm as u32);
        proof {
            assert(self.bytes() =~= old(self).bytes() + (seq![0x48u8, 0x81, modrm_byte(3, 5, 4)] + le32(imm as u32)));
        }
    }

    /// `add rsp, imm32`: `48 81 /0 id`.
    pub fn add_rsp_imm(&mut self, imm: i32)
        requires
            old(self).wf(),
        ensures
            Self::appended(*old(self), *final(self), seq![0x48u8, 0x81, modrm_byte(3, 0, 4)] + le32(imm as u32)),
    {
        self.emit8(0x48);
        self.emit8(0x81);
        self.emit8(modrm(0b11, 0, Register::RSP.code()));
        self.emit32(imm as u32);
        proof {
            assert(self.bytes() =~= old(self).bytes() + (seq![0x48u8, 0x81, modrm_byte(3, 0, 4)] + le32(imm as u32)));
        }
    }

    /// Nine-byte `nop`: `66 0F 1F 84 00 00 00 00 00`.
    pub fn nop9(&mut self)
        requires
            old(self).wf(),
        ensures
            Self::appended(*old(self), *final(self), seq![0x66u8, 0x0F, 0x1F, 0x84, 0x00, 0x00, 0x00, 0x00, 0x00]),
    {
        self.emit8(0x66);
        self.emit8(0x0F);
        self.emit8(0x1F);
        self.emit8(0x84);
        self.emit8(0x00);
        self.emit8(0x00);
        self.emit8(0x00);
        self.emit8(0x00);
        self.emit8(0x00);
        proof {
            assert(self.bytes() =~= old(self).bytes() + seq![0x66u8, 0x0F, 0x1F, 0x84, 0x00, 0x00, 0x00, 0x00, 0x00]);
        }
    }

    /// `lea dest, [rsp + disp8]`: `REX.W 8D /r` with SIB base RSP.
    pub fn lea_rsp_disp8(&mut self, dest: Register, disp: u8)
        requires
            old(self).wf(),
        ensures
            Self::appended(*old(self), *final(self), seq![rex(true, dest.spec_is_extended(), false, false), 0x8Du8, modrm_byte(1, dest.spec_code(), 4), sib_byte(0, 4, 4), disp]),
    {
        let rex = rex_prefix(true, dest.is_extended(), false, false);
        self.emit8(rex);
        self.emit8(0x8D);
        self.emit8(modrm(0b01, dest.code(), 0b100));
        self.emit8(sib(0, 4, 4));
        self.emit8(disp);
        proof {
            assert(self.bytes() =~= old(self).bytes() + seq![rex, 0x8Du8, modrm_byte(1, dest.spec_code(), 4), sib_byte(0, 4, 4), disp]);
        }
    }

    /// `call [rip + disp32]` through an import address table slot: `FF 15 disp32`,
    /// where the displacement is `iat_rva - (current_rva + 6)`.
    pub fn call_iat_rva(&mut self, iat_rva: u32, current_rva: u32)
        requires
            old(self).wf(),
        ensures
            Self::appended(*old(self), *final(self), seq![0xFFu8, 0x15] + le32((iat_rva - (current_rva + 6)) as u32)),
    {
        self.emit8(0xFF);
        self.emit8(0x15);
        let rip: i64 = (current_rva as i64) + 6;
        let disp: i64 = (iat_rva as i64) - rip;
        self.emit32(disp as u32);
        proof {
            assert(self.bytes() =~= old(self).bytes() + (seq![0xFFu8, 0x15] + le32((iat_rva - (current_rva + 6)) as u32)));
        }
    }

    /// `lea dest, [rip + disp32]`: `REX.W 8D /r` with ModR/M rm=101, where the
    /// displacement is `target_rva - (current_rva + 7)`.
    pub fn lea_rip_rva(&mut self, dest: Register, target_rva: u32, current_rva: u32)
        requires
            old(self).wf(),
        ensures
            Self::appended(*old(self), *final(self), seq![rex(true, dest.spec_is_extended(), false, false), 0x8Du8, modrm_byte(0, dest.spec_code(), 5)] + le32((target_rva - (current_rva + 7)) as u32)),
    {
        let rex = rex_prefix(true, dest.is_extended(), false, false);
        self.emit8(rex);
        self.emit8(0x8D);
        self.emit8(modrm(0b00, dest.code(), 0b101));
        let instr_len: u32 = 7;
        let rip: i64 = (current_rva as i64) + (instr_len as i64);
        let disp: i64 = (target_rva as i64) - rip;
        self.emit32(disp as u32);
        proof {
            assert(self.bytes() =~= old(self).bytes() + (seq![rex, 0x8Du8, modrm_byte(0, dest.spec_code(), 5)] + le32((target_rva - (current_rva + 7)) as u32)));
        }
    }

    /// Appends one raw byte.
    pub fn emit_byte(&mut self, byte: u8)
        requires
            old(self).wf(),
        ensures
            Self::appended(*old(self), *final(self), seq![byte]),
    {
        self.buffer.push(byte);
        proof {
            assert(self.buffer@ =~= old(self).buffer@ + seq![byte]);
            Self::lemma_append_wf(*old(self), *self, seq![byte]);
        }
    }

    /// `cmp reg, imm32`: `REX.W 81 /7 id`.
    pub fn cmp_reg_imm(&mut self, reg: Register, imm: i32)
        requires
            old(self).wf(),
        ensures
            Self::appended(*old(self), *final(self), enc_alu_imm32(7, reg, imm)),
    {
        self.emit_alu_imm32(7, reg, imm);
    }

    fn emit_alu_imm8(&mut self, ext: u8, reg: Register, imm: i8)
        requires
            old(self).wf(),
        ensures
            Self::appended(*old(self), *final(self), enc_alu_imm8(ext, reg, imm)),
    {
        let rex = rex_prefix(true, false, false, reg.is_extended());
        self.emit8(rex);
        self.emit8(0x83);
        self.emit8(modrm(0b11, ext, reg.code()));
        self.emit8(imm as u8);
        proof {
            assert(self.bytes() =~= old(self).bytes() + enc_alu_imm8(ext, reg, imm));
        }
    }

    fn emit_alu_imm32(&mut self, ext: u8, reg: Register, imm: i32)
        requires
            old(self).wf(),
        ensures
            Self::appended(*old(self), *final(self), enc_alu_imm32(ext, reg, imm)),
    {
        let rex = rex_prefix(true, false, false, reg.is_extended());
        self.emit8(rex);
        self.emit8(0x81);
        self.emit8(modrm(0b11, ext, reg.code()));
        self.emit32(imm as u32);
        proof {
            assert(self.bytes() =~= old(self).bytes() + enc_alu_imm32(ext, reg, imm));
        }
    }

    fn setcc_rax(&mut self, setcc_op: u8)
        requires
            old(self).wf(),
        ensures
            Self::appended(*old(self), *final(self), enc_setcc_rax(setcc_op)),
    {
        self.emit8(0x0F);
        self.emit8(setcc_op);
        self.emit8(0xC0);
        self.emit8(0x48);
        self.emit8(0x0F);
        self.emit8(0xB6);
        self.emit8(0xC0);
        proof {
            assert(self.bytes() =~= old(self).bytes() + enc_setcc_rax(setcc_op));
        }
    }

    /// RAX = 1 if ZF = 1, else 0 (`sete al; movzx rax, al`).
    pub fn sete_rax(&mut self)
        requires
            old(self).wf(),
        ensures
            Self::appended(*old(self), *final(self), enc_setcc_rax(0x94)),
    {
        self.setcc_rax(0x94);
    }

    /// RAX = 1 if ZF = 0, else 0.
    pub fn setne_rax(&mut self)
        requires
            old(self).wf(),
        ensures
            Self::appended(*old(self), *final(self), enc_setcc_rax(0x95)),
    {
        self.setcc_rax(0x95);
    }

    /// RAX = 1 if SF != OF, else 0.
    pub fn setl_rax(&mut self)
        requires
            old(self).wf(),
        ensures
            Self::appended(*old(self), *final(self), enc_setcc_rax(0x9C)),
    {
        self.setcc_rax(0x9C);
    }

    /// RAX = 1 if ZF = 0 and SF = OF, else 0.
    pub fn setg_rax(&mut self)
        requires
            old(self).wf(),
        ensures
            Self::appended(*old(self), *final(self), enc_setcc_rax(0x9F)),
    {
        self.setcc_rax(0x9F);
    }

    /// RAX = 1 if ZF = 1 or SF != OF, else 0.
    pub fn setle_rax(&mut self)
        requires
            old(self).wf(),
        ensures
            Self::appended(*old(self), *final(self), enc_setcc_rax(0x9E)),
    {
        self.setcc_rax(0x9E);
    }

    /// RAX = 1 if SF = OF, else 0.
    pub fn setge_rax(&mut self)
        requires
            old(self).wf(),
        ensures
            Self::appended(*old(self), *final(self), enc_setcc_rax(0x9D)),
    {
        self.setcc_rax(0x9D);
    }

    /// `imul rax, rcx`: `48 0F AF C1`.
    pub fn imul_rax_rcx(&mut self)
        requires
            old(self).wf(),
        ensures
            Self::appended(*old(self), *final(self), seq![0x48u8, 0x0F, 0xAF, 0xC1]),
    {
        self.emit8(0x48);
        self.emit8(0x0F);
        self.emit8(0xAF);
        self.emit8(0xC1);
        proof {
            assert(self.bytes() =~= old(self).bytes() + seq![0x48u8, 0x0F, 0xAF, 0xC1]);
        }
    }

    /// `cqo` (sign-extend RAX into RDX:RAX): `48 99`.
    pub fn cqo(&mut self)
        requires
            old(self).wf(),
        ensures
            Self::appended(*old(self), *final(self), seq![0x48u8, 0x99]),
    {
        self.emit8(0x48);
        self.emit8(0x99);
        proof {
            assert(self.bytes() =~= old(self).bytes() + seq![0x48u8, 0x99]);
        }
    }

    /// `idiv rcx`: `48 F7 F9`.
    pub fn idiv_rcx(&mut self)
        requires
            old(self).wf(),
        ensures
            Self::appended(*old(self), *final(self), seq![0x48u8, 0xF7, 0xF9]),
    {
        self.emit8(0x48);
        self.emit8(0xF7);
        self.emit8(0xF9);
        proof {
            assert(self.bytes() =~= old(self).bytes() + seq![0x48u8, 0xF7, 0xF9]);
        }
    }

    /// Number of bytes emitted so far.
    pub fn byte_position(&self) -> (n: usize)
        ensures
            n == self.bytes().len(),
    {
        self.buffer.len()
    }
}

} // verus!
