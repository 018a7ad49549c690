//! The native back end's lowering of expressions to x86-64: an expression's value is
//! computed into RAX, using constants known at compile time, variables promoted to
//! callee-saved registers, and stack slots below RBP.
use vstd::prelude::*;
use crate::ast::{BinOp, Expr};
use crate::bytes::le32;
use crate::optimize::{const_traps, const_value, try_eval_const};
use crate::x64::{
    enc_alu_imm,
    enc_alu_imm32,
    enc_mem,
    enc_mov_reg_imm,
    enc_plus_reg,
    enc_reg_reg,
    enc_setcc_rax,
    enc_shift,
    enc_unary,
    in_field,
    modrm_byte,
    rex,
    Register,
    X64Assembler,
};

verus! {

/// The slot given to a variable that is never read: no stack space is reserved.
pub const UNUSED_SLOT: i32 = 0xDEAD;

/// The value recorded last for `n` in a list of (name, value) entries.
pub open spec fn assoc<V>(v: Seq<(String, V)>, n: Seq<char>) -> Option<V>
    decreases v.len(),
{
    if v.len() == 0 {
        None
    } else if v[v.len() - 1].0@ == n {
        Some(v[v.len() - 1].1)
    } else {
        assoc(v.subrange(0, v.len() - 1), n)
    }
}

fn lookup<V: Copy>(v: &Vec<(String, V)>, n: &String) -> (r: Option<V>)
    ensures
        r == assoc(v@, n@),
{
    let mut j: usize = v.len();
    assert(v@.subrange(0, j as int) =~= v@);
    while j > 0
        invariant
            j <= v@.len(),
            assoc(v@, n@) == assoc(v@.subrange(0, j as int), n@),
        decreases j,
    {
        assert(v@.subrange(0, j as int).subrange(0, j - 1) =~= v@.subrange(0, j - 1));
        if v[j - 1].0 == *n {
            return Some(v[j - 1].1);
        }
        j = j - 1;
    }
    None
}

/// 2 to the power `k`.
pub open spec fn two_pow(k: nat) -> int
    decreases k,
{
    if k == 0 {
        1
    } else {
        2 * two_pow((k - 1) as nat)
    }
}

proof fn lemma_two_pow_mono(a: nat, b: nat)
    requires
        a <= b,
    ensures
        1 <= two_pow(a) <= two_pow(b),
    decreases b,
{
    if a < b {
        lemma_two_pow_mono(a, (b - 1) as nat);
    } else {
        lemma_two_pow_pos(a);
    }
}

proof fn lemma_two_pow_pos(k: nat)
    ensures
        two_pow(k) >= 1,
    decreases k,
{
    if k > 0 {
        lemma_two_pow_pos((k - 1) as nat);
    }
}

/// The `k` (from `from` up to 30) with `imm == 2^k`, if any.
pub open spec fn shift_from(imm: i32, from: nat) -> Option<u8>
    decreases 31 - from,
{
    if from >= 31 {
        None
    } else if imm == two_pow(from) {
        Some(from as u8)
    } else {
        shift_from(imm, from + 1)
    }
}

/// The shift that multiplies by `imm`, when `imm` is a power of two.
pub open spec fn shift_of(imm: i32) -> Option<u8> {
    shift_from(imm, 0)
}

fn pow2_shift(imm: i32) -> (r: Option<u8>)
    ensures
        r == shift_of(imm),
{
    let mut k: u8 = 0;
    let mut p: i64 = 1;
    proof {
        assert(two_pow(31) == 0x8000_0000) by {
            reveal_with_fuel(two_pow, 32);
        }
    }
    while k < 31
        invariant
            k <= 31,
            p == two_pow(k as nat),
            two_pow(31) == 0x8000_0000,
            shift_of(imm) == shift_from(imm, k as nat),
        decreases 31 - k,
    {
        proof {
            lemma_two_pow_mono(k as nat, 31);
        }
        if imm as i64 == p {
            return Some(k);
        }
        p = p * 2;
        k = k + 1;
    }
    None
}

/// Whether `op` compares.
pub open spec fn is_comparison(op: BinOp) -> bool {
    op == BinOp::Eq || op == BinOp::Neq || op == BinOp::Lt || op == BinOp::Gt || op == BinOp::Lte || op
        == BinOp::Gte
}

/// `setcc al; movzx rax, al` for a comparison.
pub open spec fn setcc_code(op: BinOp) -> Seq<u8> {
    match op {
        BinOp::Eq => enc_setcc_rax(0x94),
        BinOp::Neq => enc_setcc_rax(0x95),
        BinOp::Lt => enc_setcc_rax(0x9C),
        BinOp::Gt => enc_setcc_rax(0x9F),
        BinOp::Lte => enc_setcc_rax(0x9E),
        BinOp::Gte => enc_setcc_rax(0x9D),
        _ => Seq::empty(),
    }
}

/// `rax = rax op rcx` for the arithmetic operators (nothing for the others).
pub open spec fn arith_rr_code(op: BinOp) -> Seq<u8> {
    match op {
        BinOp::Add => enc_reg_reg(0x01, true, Register::RAX, Register::RCX),
        BinOp::Sub => enc_reg_reg(0x29, true, Register::RAX, Register::RCX),
        BinOp::Mul => seq![0x48u8, 0x0F, 0xAF, 0xC1],
        BinOp::Div => seq![0x48u8, 0x99] + seq![0x48u8, 0xF7, 0xF9],
        BinOp::Mod => seq![0x48u8, 0x99] + seq![0x48u8, 0xF7, 0xF9] + enc_reg_reg(
            0x89,
            true,
            Register::RAX,
            Register::RDX,
        ),
        _ => Seq::empty(),
    }
}

/// The general form: right operand, push, left operand, pop into RCX, then compare
/// and set, or operate.
pub open spec fn fallback_code(op: BinOp, lc: Seq<u8>, rc: Seq<u8>) -> Seq<u8> {
    rc + enc_plus_reg(0x50, Register::RAX) + lc + enc_plus_reg(0x58, Register::RCX) + if is_comparison(op) {
        enc_reg_reg(0x39, true, Register::RAX, Register::RCX) + setcc_code(op)
    } else {
        arith_rr_code(op)
    }
}

/// `imul rax, rax, imm32`.
pub open spec fn imul_imm_code(imm: i32) -> Seq<u8> {
    seq![rex(true, false, false, false), 0x69u8, modrm_byte(3, 0, 0)] + le32(imm as u32)
}

/// Multiplying RAX by a constant: a shift for a power of two, else `imul`.
pub open spec fn mul_imm_code(imm: i32) -> Seq<u8> {
    match shift_of(imm) {
        Some(k) => enc_shift(4, Register::RAX, k),
        None => imul_imm_code(imm),
    }
}

/// `rax = rax op imm` for the operators that have an immediate form.
pub open spec fn imm_op_code(op: BinOp, imm: i32) -> Option<Seq<u8>> {
    match op {
        BinOp::Add => Some(enc_alu_imm(0, Register::RAX, imm)),
        BinOp::Sub => Some(enc_alu_imm(5, Register::RAX, imm)),
        BinOp::Mul => Some(mul_imm_code(imm)),
        BinOp::And => Some(enc_alu_imm(4, Register::RAX, imm)),
        BinOp::Or => Some(enc_alu_imm(1, Register::RAX, imm)),
        _ => None,
    }
}

/// `mov [rbp + off], rax`.
pub open spec fn store_code(off: i32) -> Seq<u8> {
    enc_mem(false, 0x89, 0, Register::RBP, off)
}

/// Whether a value fits in a sign-extended 32-bit immediate.
pub open spec fn fits32(v: i64) -> bool {
    i32::MIN <= v <= i32::MAX
}

/// `v` as a 32-bit immediate, when it fits.
fn narrow_i32(v: i64) -> (r: Option<i32>)
    ensures
        r matches Some(i) ==> fits32(v) && i == v as i32,
        r is None ==> !fits32(v),
{
    if v >= i32::MIN as i64 && v <= i32::MAX as i64 {
        Some(v as i32)
    } else {
        None
    }
}

/// Whether `n` is among `v`.
pub open spec fn names_contain(v: Seq<String>, n: Seq<char>) -> bool {
    exists|i: int| 0 <= i < v.len() && v[i]@ == n
}

pub struct NativeCodeGenerator {
    emitter: X64Assembler,
    /// Stack slot (offset from RBP) of each variable; the last entry for a name counts.
    vars: Vec<(String, i32)>,
    /// Variables known to hold a constant; the last entry for a name counts (none:
    /// not known).
    const_values: Vec<(String, Option<i64>)>,
    /// Variables kept in a callee-saved register.
    var_regs: Vec<(String, Register)>,
    /// Variables that are never read: they get no stack slot.
    unused_vars: Vec<String>,
    stack_size: i32,
    next_slot: i32,
    /// Callee-saved registers still free (RBP is the frame, R12 the stdout handle).
    avail_callee_saved: Vec<Register>,
    /// Callee-saved registers handed out, to save in the prologue.
    used_callee_saved: Vec<Register>,
    /// Whether the tree-level optimizations are skipped.
    pub no_opt: bool,
}

impl NativeCodeGenerator {
    /// The machine code emitted so far.
    pub closed spec fn code(&self) -> Seq<u8> {
        self.emitter.bytes()
    }

    /// The assembler.
    pub closed spec fn assembler(&self) -> X64Assembler {
        self.emitter
    }

    /// What the generator knows of the variables.
    pub closed spec fn env(&self) -> NativeEnv {
        NativeEnv {
            slots: Map::new(|n: Seq<char>| assoc(self.vars@, n) is Some, |n: Seq<char>| assoc(self.vars@, n)->0),
            consts: Map::new(
                |n: Seq<char>| assoc(self.const_values@, n) matches Some(Some(_)),
                |n: Seq<char>| assoc(self.const_values@, n)->0->0,
            ),
            regs: Map::new(|n: Seq<char>| assoc(self.var_regs@, n) is Some, |n: Seq<char>| assoc(self.var_regs@, n)->0),
        }
    }

    /// Whether the tree-level optimizations are skipped.
    pub closed spec fn skips_opt(&self) -> bool {
        self.no_opt
    }

    /// The callee-saved registers still free.
    pub closed spec fn free_regs(&self) -> Seq<Register> {
        self.avail_callee_saved@
    }

    /// The callee-saved registers handed out.
    pub closed spec fn used_regs(&self) -> Seq<Register> {
        self.used_callee_saved@
    }

    /// Whether variable `n` is marked as never read.
    pub closed spec fn unused(&self, n: Seq<char>) -> bool {
        names_contain(self.unused_vars@, n)
    }

    /// The deepest stack slot in use (in bytes).
    pub closed spec fn stack(&self) -> i32 {
        self.stack_size
    }

    /// The offset the next slot gets.
    pub closed spec fn next(&self) -> i32 {
        self.next_slot
    }

    /// Internal consistency: the assembler is well formed and the next slot lies below
    /// every slot handed out.
    pub closed spec fn wf(&self) -> bool {
        &&& self.emitter.wf()
        &&& self.next_slot < 0
        &&& self.stack_size >= 0
    }

    /// The slot `let n = ..` gives `n`: its slot, none for a variable never read, else
    /// the next one.
    pub open spec fn let_slot(&self, n: Seq<char>) -> i32 {
        match self.env().slot(n) {
            Some(o) => o,
            None => if self.unused(n) {
                UNUSED_SLOT
            } else {
                self.next()
            },
        }
    }

    /// What is known after `let n = value`: `n`'s slot, and its constant if `value`
    /// has one.
    pub open spec fn let_env(&self, n: Seq<char>, value: Expr) -> NativeEnv {
        (NativeEnv { slots: self.env().slots.insert(n, self.let_slot(n)), ..self.env() }).with_const(
            n,
            self.env().imm_of(value),
        )
    }

    /// Whether two generators agree on everything but the code.
    pub closed spec fn same_env(a: NativeCodeGenerator, b: NativeCodeGenerator) -> bool {
        &&& a.vars == b.vars
        &&& a.const_values == b.const_values
        &&& a.var_regs == b.var_regs
        &&& a.unused_vars == b.unused_vars
        &&& a.stack_size == b.stack_size
        &&& a.next_slot == b.next_slot
        &&& a.avail_callee_saved == b.avail_callee_saved
        &&& a.used_callee_saved == b.used_callee_saved
        &&& a.no_opt == b.no_opt
    }

}

/// What the generator knows of the variables, as the lowering reads it: each
/// variable's stack slot, known constant and register (the last entry for a name
/// counts).
pub ghost struct NativeEnv {
    pub slots: Map<Seq<char>, i32>,
    pub consts: Map<Seq<char>, i64>,
    pub regs: Map<Seq<char>, Register>,
}

impl NativeEnv {
    /// The stack slot of variable `n`.
    pub open spec fn slot(&self, n: Seq<char>) -> Option<i32> {
        if self.slots.contains_key(n) {
            Some(self.slots[n])
        } else {
            None
        }
    }

    /// The constant variable `n` is known to hold.
    pub open spec fn constant(&self, n: Seq<char>) -> Option<i64> {
        if self.consts.contains_key(n) {
            Some(self.consts[n])
        } else {
            None
        }
    }

    /// The register variable `n` is kept in.
    pub open spec fn reg(&self, n: Seq<char>) -> Option<Register> {
        if self.regs.contains_key(n) {
            Some(self.regs[n])
        } else {
            None
        }
    }

    /// The knowledge after `n` is given the value `c` (none: not a known constant).
    pub open spec fn with_const(self, n: Seq<char>, c: Option<i64>) -> NativeEnv {
        NativeEnv {
            consts: match c {
                Some(v) => self.consts.insert(n, v),
                None => self.consts.remove(n),
            },
            ..self
        }
    }

    /// The compile-time value of `e`: literals, known constant variables, and constant
    /// expressions.
    pub open spec fn imm_of(&self, e: Expr) -> Option<i64> {
        match e {
            Expr::Integer(n) => Some(n),
            Expr::Bool(b) => Some(if b { 1 } else { 0 }),
            Expr::Char(c) => Some(c as i64),
            Expr::Ident(n) => self.constant(n@),
            _ => const_value(e),
        }
    }

    /// Whether `e` can be lowered without a call: every variable it reads is a known
    /// constant, sits in a register or has a stack slot, and no constant subexpression
    /// overflows.
    pub open spec fn lowerable(&self, e: Expr) -> bool
        decreases e,
    {
        match e {
            Expr::Ident(n) => self.constant(n@) is Some || self.reg(n@) is Some || match self.slot(n@) {
                Some(o) => o != UNUSED_SLOT,
                None => false,
            },
            Expr::Binary(l, _, r) => !const_traps(*l) && !const_traps(*r) && self.lowerable(*l)
                && self.lowerable(*r),
            Expr::Call(..) => false,
            Expr::TailCall(..) => false,
            _ => true,
        }
    }

    /// What the immediate forms emit for `l op r` (given the code of each operand), and
    /// whether that finishes the operation.
    pub open spec fn imm_try_code(&self, l: Expr, op: BinOp, r: Expr, lc: Seq<u8>, rc: Seq<u8>) -> (bool, Seq<u8>) {
        let ri = self.imm_of(r);
        let li = self.imm_of(l);
        if ri is Some && fits32(ri->0) {
            let imm = (ri->0) as i32;
            if is_comparison(op) {
                (true, lc + enc_alu_imm32(7, Register::RAX, imm) + setcc_code(op))
            } else {
                match imm_op_code(op, imm) {
                    Some(c) => (true, lc + c),
                    None => (false, lc),
                }
            }
        } else if li is Some && fits32(li->0) && (op == BinOp::Add || op == BinOp::Sub || op == BinOp::Mul) {
            let imm = (li->0) as i32;
            if op == BinOp::Add {
                (true, rc + enc_alu_imm(0, Register::RAX, imm))
            } else if op == BinOp::Mul {
                (true, rc + mul_imm_code(imm))
            } else {
                (true, rc + enc_unary(0xF7, 3, Register::RAX) + enc_alu_imm(0, Register::RAX, imm))
            }
        } else if is_comparison(op) && l is Ident && r is Ident && self.imm_of(l) is None && self.imm_of(r) is None
            && l->Ident_0@ != r->Ident_0@ {
            (true, fallback_code(op, lc, rc))
        } else {
            (false, Seq::empty())
        }
    }

    /// The code that computes `e` into RAX.
    pub open spec fn expr_code(&self, e: Expr) -> Seq<u8>
        decreases e,
    {
        match e {
            Expr::Integer(n) => enc_mov_reg_imm(Register::RAX, n),
            Expr::Bool(b) => enc_mov_reg_imm(Register::RAX, if b { 1 } else { 0 }),
            Expr::String(_) => enc_mov_reg_imm(Register::RAX, 0),
            Expr::Ident(n) => match self.constant(n@) {
                Some(v) => enc_mov_reg_imm(Register::RAX, v),
                None => match self.reg(n@) {
                    Some(r) => enc_reg_reg(0x89, true, Register::RAX, r),
                    None => enc_mem(false, 0x8B, 0, Register::RBP, self.slot(n@)->0),
                },
            },
            Expr::Binary(l, op, r) => {
                let lc = self.expr_code(*l);
                let rc = self.expr_code(*r);
                let t = self.imm_try_code(*l, op, *r, lc, rc);
                if t.0 {
                    t.1
                } else {
                    t.1 + fallback_code(op, lc, rc)
                }
            },
            _ => Seq::empty(),
        }
    }
}

impl NativeCodeGenerator {
    /// A generator with no code and no variables; the frame's first slot is RBP-8.
    pub fn new() -> (g: Self)
        ensures
            g.wf(),
            g.code() == Seq::<u8>::empty(),
            g.env().slots == Map::<Seq<char>, i32>::empty(),
            g.env().consts == Map::<Seq<char>, i64>::empty(),
            g.env().regs == Map::<Seq<char>, Register>::empty(),
            forall|n: Seq<char>| !#[trigger] g.unused(n),
            g.stack() == 0,
            g.next() == -8,
            g.free_regs() == seq![Register::RBX, Register::RSI, Register::RDI, Register::R13, Register::R14, Register::R15],
            g.used_regs() == Seq::<Register>::empty(),
            !g.skips_opt(),
    {
        let g = NativeCodeGenerator {
            emitter: X64Assembler::new(),
            vars: Vec::new(),
            const_values: Vec::new(),
            var_regs: Vec::new(),
            unused_vars: Vec::new(),
            stack_size: 0,
            next_slot: -8,
            avail_callee_saved: vec![Register::RBX, Register::RSI, Register::RDI, Register::R13, Register::R14, Register::R15],
            used_callee_saved: Vec::new(),
            no_opt: false,
        };
        assert(g.free_regs() =~= seq![Register::RBX, Register::RSI, Register::RDI, Register::R13, Register::R14, Register::R15]);
        assert(g.env().slots =~= Map::<Seq<char>, i32>::empty());
        assert(g.env().consts =~= Map::<Seq<char>, i64>::empty());
        assert(g.env().regs =~= Map::<Seq<char>, Register>::empty());
        g
    }

    /// Marks variable `name` as never read, so that it gets no stack slot.
    pub fn mark_unused(&mut self, name: &String)
        ensures
            final(self).wf() == old(self).wf(),
            final(self).code() == old(self).code(),
            final(self).assembler() == old(self).assembler(),
            final(self).env() == old(self).env(),
            forall|n: Seq<char>| #[trigger] final(self).unused(n) == (old(self).unused(n) || n == name@),
            final(self).stack() == old(self).stack(),
            final(self).next() == old(self).next(),
            final(self).free_regs() == old(self).free_regs(),
            final(self).used_regs() == old(self).used_regs(),
            final(self).skips_opt() == old(self).skips_opt(),
    {
        let ghost u0 = self.unused_vars@;
        self.unused_vars.push(name.clone());
        assert forall|n: Seq<char>| #[trigger] self.unused(n) == (old(self).unused(n) || n == name@) by {
            if old(self).unused(n) {
                let i = choose|i: int| 0 <= i < u0.len() && u0[i]@ == n;
                assert(self.unused_vars@[i] == u0[i]);
            }
            if n == name@ {
                assert(self.unused_vars@[u0.len() as int]@ == n);
            }
            if self.unused(n) {
                let i = choose|i: int| 0 <= i < self.unused_vars@.len() && self.unused_vars@[i]@ == n;
                if i < u0.len() {
                    assert(u0[i] == self.unused_vars@[i]);
                }
            }
        }
    }

    fn is_unused(&self, name: &String) -> (b: bool)
        ensures
            b == self.unused(name@),
    {
        let mut i: usize = 0;
        while i < self.unused_vars.len()
            invariant
                i <= self.unused_vars@.len(),
                forall|t: int| 0 <= t < i ==> self.unused_vars@[t]@ != name@,
            decreases self.unused_vars@.len() - i,
        {
            if self.unused_vars[i] == *name {
                return true;
            }
            i = i + 1;
        }
        false
    }

    /// The stack slot of variable `name`, given one if it has none: the next slot
    /// below RBP, or none at all (`UNUSED_SLOT`) for a variable that is never read.
    pub fn alloc_var(&mut self, name: &String) -> (off: i32)
        requires
            old(self).wf(),
            old(self).env().slot(name@) is None && !old(self).unused(name@) ==> old(self).next() >= i32::MIN + 8,
        ensures
            final(self).wf(),
            final(self).code() == old(self).code(),
            final(self).assembler() == old(self).assembler(),
            off == match old(self).env().slot(name@) {
                Some(o) => o,
                None => if old(self).unused(name@) {
                    UNUSED_SLOT
                } else {
                    old(self).next()
                },
            },
            final(self).env() == (NativeEnv { slots: old(self).env().slots.insert(name@, off), ..old(self).env() }),
            forall|n: Seq<char>| #[trigger] final(self).unused(n) == old(self).unused(n),
            final(self).next() as int == if old(self).env().slot(name@) is None && !old(self).unused(name@) {
                old(self).next() - 8
            } else {
                old(self).next() as int
            },
            final(self).stack() as int == if old(self).env().slot(name@) is None && !old(self).unused(name@) && -old(
                self,
            ).next() > old(self).stack() {
                -old(self).next()
            } else {
                old(self).stack() as int
            },
            final(self).free_regs() == old(self).free_regs(),
            final(self).used_regs() == old(self).used_regs(),
            final(self).skips_opt() == old(self).skips_opt(),
    {
        if let Some(off) = lookup(&self.vars, name) {
            proof {
                assert(self.env().slots =~= old(self).env().slots.insert(name@, off));
            }
            return off;
        }
        let ghost v0 = self.vars@;
        if self.is_unused(name) {
            self.vars.push((name.clone(), UNUSED_SLOT));
            proof {
                assert(self.vars@.subrange(0, v0.len() as int) =~= v0);
                assert(self.env().slots =~= old(self).env().slots.insert(name@, UNUSED_SLOT));
            }
            return UNUSED_SLOT;
        }
        let off = self.next_slot;
        self.next_slot = self.next_slot - 8;
        if -off > self.stack_size {
            self.stack_size = -off;
        }
        self.vars.push((name.clone(), off));
        proof {
            assert(self.vars@.subrange(0, v0.len() as int) =~= v0);
            assert(self.env().slots =~= old(self).env().slots.insert(name@, off));
        }
        off
    }

    /// Keeps variable `name` in a free callee-saved register, if one is left and the
    /// variable is read at all.
    pub fn promote_to_reg(&mut self, name: &String)
        ensures
            final(self).wf() == old(self).wf(),
            final(self).code() == old(self).code(),
            final(self).assembler() == old(self).assembler(),
            forall|n: Seq<char>| #[trigger] final(self).unused(n) == old(self).unused(n),
            final(self).stack() == old(self).stack(),
            final(self).next() == old(self).next(),
            final(self).skips_opt() == old(self).skips_opt(),
            if old(self).env().reg(name@) is None && !old(self).unused(name@) && old(self).free_regs().len() > 0 {
                let r = old(self).free_regs().last();
                &&& final(self).env() == (NativeEnv { regs: old(self).env().regs.insert(name@, r), ..old(self).env() })
                &&& final(self).free_regs() == old(self).free_regs().drop_last()
                &&& final(self).used_regs() == old(self).used_regs().push(r)
            } else {
                &&& final(self).env() == old(self).env()
                &&& final(self).free_regs() == old(self).free_regs()
                &&& final(self).used_regs() == old(self).used_regs()
            },
    {
        if lookup(&self.var_regs, name).is_some() {
            return;
        }
        if self.is_unused(name) {
            return;
        }
        let ghost r0 = self.var_regs@;
        if let Some(reg) = self.avail_callee_saved.pop() {
            self.var_regs.push((name.clone(), reg));
            self.used_callee_saved.push(reg);
            proof {
                assert(self.var_regs@.subrange(0, r0.len() as int) =~= r0);
                assert(self.env().regs =~= old(self).env().regs.insert(name@, reg));
            }
        }
    }

    /// The register variable `name` is kept in.
    pub fn get_var_reg(&self, name: &String) -> (r: Option<Register>)
        ensures
            r == self.env().reg(name@),
    {
        lookup(&self.var_regs, name)
    }

    /// The constant variable `name` is known to hold.
    pub fn is_var_const(&self, name: &String) -> (r: Option<i64>)
        ensures
            r == self.env().constant(name@),
    {
        match lookup(&self.const_values, name) {
            Some(c) => c,
            None => None,
        }
    }

    /// The stack slot of a variable that has one.
    fn var_off(&self, name: &String) -> (off: i32)
        requires
            self.env().slot(name@) matches Some(o) && o != UNUSED_SLOT,
        ensures
            Some(off) == self.env().slot(name@),
    {
        lookup(&self.vars, name).unwrap()
    }

    /// Records what variable `name` holds after it is given `value`: the value's
    /// compile-time constant, or nothing known.
    pub fn track_value(&mut self, name: &String, value: &Expr)
        requires
            !const_traps(*value),
        ensures
            final(self).wf() == old(self).wf(),
            final(self).code() == old(self).code(),
            final(self).assembler() == old(self).assembler(),
            final(self).env() == old(self).env().with_const(name@, old(self).env().imm_of(*value)),
            forall|n: Seq<char>| #[trigger] final(self).unused(n) == old(self).unused(n),
            final(self).stack() == old(self).stack(),
            final(self).next() == old(self).next(),
            final(self).free_regs() == old(self).free_regs(),
            final(self).used_regs() == old(self).used_regs(),
            final(self).skips_opt() == old(self).skips_opt(),
    {
        let v = self.eval_imm(value);
        let ghost c0 = self.const_values@;
        self.const_values.push((name.clone(), v));
        proof {
            assert(self.const_values@.subrange(0, c0.len() as int) =~= c0);
            assert(self.env().consts =~= old(self).env().with_const(name@, v).consts);
        }
    }

    /// The compile-time value of `e`, used for immediate operands.
    pub fn eval_imm(&self, e: &Expr) -> (r: Option<i64>)
        requires
            !const_traps(*e),
        ensures
            r == self.env().imm_of(*e),
    {
        match e {
            Expr::Integer(n) => Some(*n),
            Expr::Bool(b) => Some(if *b { 1 } else { 0 }),
            Expr::Char(c) => Some(*c as i64),
            Expr::Ident(name) => self.is_var_const(name),
            _ => try_eval_const(e),
        }
    }

    /// Emits code that computes `e` into RAX.
    pub fn expr(&mut self, e: &Expr)
        requires
            old(self).wf(),
            old(self).env().lowerable(*e),
        ensures
            final(self).wf(),
            X64Assembler::appended(old(self).assembler(), final(self).assembler(), old(self).env().expr_code(*e)),
            Self::same_env(*old(self), *final(self)),
        decreases e, 3nat,
    {
        match e {
            Expr::Integer(n) => self.emitter.mov_reg_imm(Register::RAX, *n),
            Expr::Bool(b) => self.emitter.mov_reg_imm(Register::RAX, if *b { 1 } else { 0 }),
            Expr::String(_) => self.emitter.mov_reg_imm(Register::RAX, 0),
            Expr::Ident(name) => {
                if let Some(v) = self.is_var_const(name) {
                    self.emitter.mov_reg_imm(Register::RAX, v);
                    return;
                }
                if let Some(reg) = self.get_var_reg(name) {
                    self.emitter.mov_reg_reg(Register::RAX, reg);
                    return;
                }
                let off = self.var_off(name);
                self.emitter.mov_reg_mem(Register::RAX, Register::RBP, off);
            },
            Expr::Binary(..) => self.binary(e),
            _ => {
                proof {
                    assert(self.emitter.bytes() =~= old(self).emitter.bytes() + Seq::<u8>::empty());
                }
            },
        }
    }

    fn emit_setcc(&mut self, op: BinOp)
        requires
            old(self).wf(),
        ensures
            final(self).wf(),
            X64Assembler::appended(old(self).assembler(), final(self).assembler(), setcc_code(op)),
            Self::same_env(*old(self), *final(self)),
    {
        match op {
            BinOp::Eq => self.emitter.sete_rax(),
            BinOp::Neq => self.emitter.setne_rax(),
            BinOp::Lt => self.emitter.setl_rax(),
            BinOp::Gt => self.emitter.setg_rax(),
            BinOp::Lte => self.emitter.setle_rax(),
            BinOp::Gte => self.emitter.setge_rax(),
            _ => {
                assert(self.emitter.bytes() =~= old(self).emitter.bytes() + Seq::<u8>::empty());
            },
        }
    }

    fn emit_arith_rr(&mut self, op: BinOp)
        requires
            old(self).wf(),
        ensures
            final(self).wf(),
            X64Assembler::appended(old(self).assembler(), final(self).assembler(), arith_rr_code(op)),
            Self::same_env(*old(self), *final(self)),
    {
        let ghost a0 = self.emitter;
        match op {
            BinOp::Add => self.emitter.add_reg_reg(Register::RAX, Register::RCX),
            BinOp::Sub => self.emitter.sub_reg_reg(Register::RAX, Register::RCX),
            BinOp::Mul => self.emitter.imul_rax_rcx(),
            BinOp::Div => {
                self.emitter.cqo();
                let ghost a1 = self.emitter;
                self.emitter.idiv_rcx();
                proof {
                    lemma_chain(a0, a1, self.emitter, seq![0x48u8, 0x99], seq![0x48u8, 0xF7, 0xF9]);
                }
            },
            BinOp::Mod => {
                self.emitter.cqo();
                let ghost a1 = self.emitter;
                self.emitter.idiv_rcx();
                let ghost a2 = self.emitter;
                self.emitter.mov_reg_reg(Register::RAX, Register::RDX);
                proof {
                    lemma_chain(a0, a1, a2, seq![0x48u8, 0x99], seq![0x48u8, 0xF7, 0xF9]);
                    lemma_chain(
                        a0,
                        a2,
                        self.emitter,
                        seq![0x48u8, 0x99] + seq![0x48u8, 0xF7, 0xF9],
                        enc_reg_reg(0x89, true, Register::RAX, Register::RDX),
                    );
                }
            },
            _ => {
                assert(self.emitter.bytes() =~= old(self).emitter.bytes() + Seq::<u8>::empty());
            },
        }
    }

    fn emit_mul_imm(&mut self, imm: i32)
        requires
            old(self).wf(),
        ensures
            final(self).wf(),
            X64Assembler::appended(old(self).assembler(), final(self).assembler(), mul_imm_code(imm)),
            Self::same_env(*old(self), *final(self)),
    {
        match pow2_shift(imm) {
            Some(k) => self.emitter.shl_reg_imm(Register::RAX, k),
            None => self.emitter.imul_reg_imm(Register::RAX, imm),
        }
    }

    /// The general form of the binary expression `e`: right operand, push, left
    /// operand, pop, then compare and set, or operate.
    fn emit_fallback(&mut self, e: &Expr)
        requires
            old(self).wf(),
            e is Binary,
            old(self).env().lowerable(*e),
        ensures
            final(self).wf(),
            X64Assembler::appended(
                old(self).assembler(),
                final(self).assembler(),
                fallback_code(e->Binary_1, old(self).env().expr_code(*e->Binary_0), old(self).env().expr_code(*e->Binary_2)),
            ),
            Self::same_env(*old(self), *final(self)),
        decreases e, 0nat,
    {
        let (l, op, r) = match e {
            Expr::Binary(l, op, r) => (l, *op, r),
            _ => {
                return;
            },
        };
        let ghost env = self.env();
        let ghost a0 = self.emitter;
        let ghost lc = env.expr_code(**l);
        let ghost rc = env.expr_code(**r);
        self.expr(r);
        let ghost a1 = self.emitter;
        self.emitter.push_reg(Register::RAX);
        let ghost a2 = self.emitter;
        self.expr(l);
        let ghost a3 = self.emitter;
        self.emitter.pop_reg(Register::RCX);
        let ghost a4 = self.emitter;
        let ghost tail = if is_comparison(op) {
            enc_reg_reg(0x39, true, Register::RAX, Register::RCX) + setcc_code(op)
        } else {
            arith_rr_code(op)
        };
        if matches!(op, BinOp::Eq | BinOp::Neq | BinOp::Lt | BinOp::Gt | BinOp::Lte | BinOp::Gte) {
            self.emitter.cmp_reg_reg(Register::RAX, Register::RCX);
            let ghost a5 = self.emitter;
            self.emit_setcc(op);
            proof {
                lemma_chain(a4, a5, self.emitter, enc_reg_reg(0x39, true, Register::RAX, Register::RCX), setcc_code(op));
            }
        } else {
            self.emit_arith_rr(op);
        }
        proof {
            lemma_chain(a0, a1, a2, rc, enc_plus_reg(0x50, Register::RAX));
            lemma_chain(a0, a2, a3, rc + enc_plus_reg(0x50, Register::RAX), lc);
            lemma_chain(a0, a3, a4, rc + enc_plus_reg(0x50, Register::RAX) + lc, enc_plus_reg(0x58, Register::RCX));
            lemma_chain(
                a0,
                a4,
                self.emitter,
                rc + enc_plus_reg(0x50, Register::RAX) + lc + enc_plus_reg(0x58, Register::RCX),
                tail,
            );
        }
    }

    fn binary(&mut self, e: &Expr)
        requires
            old(self).wf(),
            e is Binary,
            old(self).env().lowerable(*e),
        ensures
            final(self).wf(),
            X64Assembler::appended(old(self).assembler(), final(self).assembler(), old(self).env().expr_code(*e)),
            Self::same_env(*old(self), *final(self)),
        decreases e, 2nat,
    {
        let ghost env = self.env();
        let ghost a0 = self.emitter;
        let done = self.try_binary_imm(e);
        if !done {
            let ghost a1 = self.emitter;
            self.emit_fallback(e);
            proof {
                let l = *e->Binary_0;
                let r = *e->Binary_2;
                let op = e->Binary_1;
                let t = env.imm_try_code(l, op, r, env.expr_code(l), env.expr_code(r));
                lemma_chain(a0, a1, self.emitter, t.1, fallback_code(op, env.expr_code(l), env.expr_code(r)));
            }
        }
    }

    /// Emits `l op r` with an immediate operand where one is known, or compares two
    /// variables directly; false (after emitting what the first form started with) when
    /// the general form is needed.
    fn try_binary_imm(&mut self, e: &Expr) -> (done: bool)
        requires
            old(self).wf(),
            e is Binary,
            old(self).env().lowerable(*e),
        ensures
            final(self).wf(),
            ({
                let env = old(self).env();
                let l = *e->Binary_0;
                let r = *e->Binary_2;
                let t = env.imm_try_code(l, e->Binary_1, r, env.expr_code(l), env.expr_code(r));
                &&& done == t.0
                &&& X64Assembler::appended(old(self).assembler(), final(self).assembler(), t.1)
            }),
            Self::same_env(*old(self), *final(self)),
        decreases e, 1nat,
    {
        let (l, op, r) = match e {
            Expr::Binary(l, op, r) => (l, *op, r),
            _ => {
                return false;
            },
        };
        let ghost env = self.env();
        let ghost lc = env.expr_code(**l);
        let ghost rc = env.expr_code(**r);
        let ghost a0 = self.emitter;
        let is_compare = matches!(op, BinOp::Eq | BinOp::Neq | BinOp::Lt | BinOp::Gt | BinOp::Lte | BinOp::Gte);
        if let Some(rv) = self.eval_imm(r) {
            if let Some(imm) = narrow_i32(rv) {
                self.expr(l);
                let ghost a1 = self.emitter;
                if is_compare {
                    self.emitter.cmp_reg_imm(Register::RAX, imm);
                    let ghost a2 = self.emitter;
                    self.emit_setcc(op);
                    proof {
                        lemma_chain(a0, a1, a2, lc, enc_alu_imm32(7, Register::RAX, imm));
                        lemma_chain(a0, a2, self.emitter, lc + enc_alu_imm32(7, Register::RAX, imm), setcc_code(op));
                    }
                    return true;
                }
                match op {
                    BinOp::Add => self.emitter.add_reg_imm(Register::RAX, imm),
                    BinOp::Sub => self.emitter.sub_reg_imm(Register::RAX, imm),
                    BinOp::Mul => self.emit_mul_imm(imm),
                    BinOp::And => self.emitter.and_reg_imm(Register::RAX, imm),
                    BinOp::Or => self.emitter.or_reg_imm(Register::RAX, imm),
                    _ => {
                        return false;
                    },
                }
                proof {
                    lemma_chain(a0, a1, self.emitter, lc, imm_op_code(op, imm)->0);
                }
                return true;
            }
        }
        if let Some(lv) = self.eval_imm(l) {
            if let Some(imm) = narrow_i32(lv) {
                match op {
                    BinOp::Add => {
                        self.expr(r);
                        let ghost a1 = self.emitter;
                        self.emitter.add_reg_imm(Register::RAX, imm);
                        proof {
                            lemma_chain(a0, a1, self.emitter, rc, enc_alu_imm(0, Register::RAX, imm));
                        }
                        return true;
                    },
                    BinOp::Mul => {
                        self.expr(r);
                        let ghost a1 = self.emitter;
                        self.emit_mul_imm(imm);
                        proof {
                            lemma_chain(a0, a1, self.emitter, rc, mul_imm_code(imm));
                        }
                        return true;
                    },
                    BinOp::Sub => {
                        self.expr(r);
                        let ghost a1 = self.emitter;
                        self.emitter.neg_reg(Register::RAX);
                        let ghost a2 = self.emitter;
                        self.emitter.add_reg_imm(Register::RAX, imm);
                        proof {
                            lemma_chain(a0, a1, a2, rc, enc_unary(0xF7, 3, Register::RAX));
                            lemma_chain(
                                a0,
                                a2,
                                self.emitter,
                                rc + enc_unary(0xF7, 3, Register::RAX),
                                enc_alu_imm(0, Register::RAX, imm),
                            );
                        }
                        return true;
                    },
                    _ => {},
                }
            }
        }
        if is_compare {
            if let (Expr::Ident(ln), Expr::Ident(rn)) = (&**l, &**r) {
                if self.is_var_const(ln).is_none() && self.is_var_const(rn).is_none() {
                    if *ln != *rn {
                        self.emit_fallback(e);
                        return true;
                    }
                }
            }
        }
        proof {
            assert(self.emitter.bytes() =~= a0.bytes() + Seq::<u8>::empty());
        }
        false
    }

    /// Lowers `let name = value`: gives `name` its slot, records whether it now holds a
    /// constant, computes the value and stores it (not for a variable never read).
    pub fn lower_let(&mut self, name: &String, value: &Expr)
        requires
            old(self).wf(),
            !const_traps(*value),
            old(self).env().slot(name@) is None && !old(self).unused(name@) ==> old(self).next() >= i32::MIN + 8,
            old(self).let_env(name@, *value).lowerable(*value),
        ensures
            final(self).wf(),
            X64Assembler::appended(
                old(self).assembler(),
                final(self).assembler(),
                old(self).let_env(name@, *value).expr_code(*value) + if old(self).let_slot(name@) != UNUSED_SLOT {
                    store_code(old(self).let_slot(name@))
                } else {
                    Seq::<u8>::empty()
                },
            ),
            final(self).env() == old(self).let_env(name@, *value),
            forall|n: Seq<char>| #[trigger] final(self).unused(n) == old(self).unused(n),
            final(self).free_regs() == old(self).free_regs(),
            final(self).used_regs() == old(self).used_regs(),
            final(self).skips_opt() == old(self).skips_opt(),
    {
        let ghost e0 = self.env();
        let ghost a0 = self.emitter;
        let off = self.alloc_var(name);
        let ghost g1 = *self;
        assert(self.env().imm_of(*value) == e0.imm_of(*value));
        self.track_value(name, value);
        let ghost g2 = *self;
        let ghost a1 = self.emitter;
        let ghost env = self.env();
        assert(env == old(self).let_env(name@, *value));
        self.expr(value);
        let ghost a2 = self.emitter;
        if off != UNUSED_SLOT {
            self.emitter.mov_mem_reg(Register::RBP, off, Register::RAX);
            proof {
                lemma_chain(a1, a2, self.emitter, env.expr_code(*value), store_code(off));
            }
        } else {
            assert(self.emitter.bytes() =~= a1.bytes() + (env.expr_code(*value) + Seq::<u8>::empty()));
        }
        assert forall|n: Seq<char>| #[trigger] self.unused(n) == old(self).unused(n) by {
            assert(g1.unused(n) == old(self).unused(n));
            assert(g2.unused(n) == g1.unused(n));
        }
    }

    /// Lowers `name = value` for a variable with a slot: records whether it now holds a
    /// constant, computes the value, stores it, and copies it into the variable's
    /// register when it has one.
    pub fn lower_assign(&mut self, name: &String, value: &Expr)
        requires
            old(self).wf(),
            !const_traps(*value),
            old(self).env().slot(name@) matches Some(o) && o != UNUSED_SLOT,
            old(self).env().with_const(name@, old(self).env().imm_of(*value)).lowerable(*value),
        ensures
            final(self).wf(),
            ({
                let env = old(self).env().with_const(name@, old(self).env().imm_of(*value));
                &&& X64Assembler::appended(
                    old(self).assembler(),
                    final(self).assembler(),
                    env.expr_code(*value) + store_code(env.slot(name@)->0) + match env.reg(name@) {
                        Some(r) => enc_reg_reg(0x89, true, r, Register::RAX),
                        None => Seq::<u8>::empty(),
                    },
                )
                &&& final(self).env() == env
            }),
            forall|n: Seq<char>| #[trigger] final(self).unused(n) == old(self).unused(n),
            final(self).stack() == old(self).stack(),
            final(self).next() == old(self).next(),
            final(self).free_regs() == old(self).free_regs(),
            final(self).used_regs() == old(self).used_regs(),
            final(self).skips_opt() == old(self).skips_opt(),
    {
        let ghost a0 = self.emitter;
        self.track_value(name, value);
        let ghost g1 = *self;
        let ghost env = self.env();
        let off = self.var_off(name);
        self.expr(value);
        let ghost a1 = self.emitter;
        self.emitter.mov_mem_reg(Register::RBP, off, Register::RAX);
        let ghost a2 = self.emitter;
        proof {
            lemma_chain(a0, a1, a2, env.expr_code(*value), store_code(off));
        }
        if let Some(reg) = self.get_var_reg(name) {
            self.emitter.mov_reg_reg(reg, Register::RAX);
            proof {
                lemma_chain(
                    a0,
                    a2,
                    self.emitter,
                    env.expr_code(*value) + store_code(off),
                    enc_reg_reg(0x89, true, reg, Register::RAX),
                );
            }
        } else {
            assert(self.emitter.bytes() =~= a0.bytes() + (env.expr_code(*value) + store_code(off)
                + Seq::<u8>::empty()));
        }
        assert forall|n: Seq<char>| #[trigger] self.unused(n) == old(self).unused(n) by {
            assert(g1.unused(n) == old(self).unused(n));
        }
    }

    /// The machine code, once every jump names a bound label; none otherwise.
    pub fn finish(self) -> (code: Option<Vec<u8>>)
        requires
            self.wf(),
        ensures
            code matches Some(c) ==> c@.len() == self.code().len() && (self.assembler().pending().len() == 0
                ==> c@ == self.code()),
    {
        if !self.emitter.ready_to_finish() {
            return None;
        }
        let ghost b = self.emitter.bytes();
        let ghost p = self.emitter.pending();
        let c = self.emitter.finish();
        proof {
            if p.len() == 0 {
                assert forall|k: int| 0 <= k < c@.len() implies c@[k] == b[k] by {
                    assert(forall|j: int| 0 <= j < p.len() ==> !in_field(k, #[trigger] p[j].1));
                }
                assert(c@ =~= b);
            }
        }
        Some(c)
    }
}

proof fn lemma_chain(a: X64Assembler, b: X64Assembler, c: X64Assembler, e1: Seq<u8>, e2: Seq<u8>)
    requires
        X64Assembler::appended(a, b, e1),
        X64Assembler::appended(b, c, e2),
    ensures
        X64Assembler::appended(a, c, e1 + e2),
{
    assert(c.bytes() =~= a.bytes() + (e1 + e2));
}

/// Whether `setcc` with condition byte `cc` (the second opcode byte, 0x90 + the
/// condition number) sets 1 after `cmp a, b` on signed values, as the x86 manual
/// defines the conditions: E, NE, L, GE, LE and G.
pub open spec fn x86_condition_holds(cc: u8, a: int, b: int) -> bool {
    if cc == 0x94 {
        a == b
    } else if cc == 0x95 {
        a != b
    } else if cc == 0x9C {
        a < b
    } else if cc == 0x9D {
        a >= b
    } else if cc == 0x9E {
        a <= b
    } else if cc == 0x9F {
        a > b
    } else {
        false
    }
}

/// A comparison is lowered to a compare of its left value (in RAX) with its right
/// value followed by `setcc` on that comparison's own condition: the code of
/// `l op r` ends with `setcc al; movzx rax, al` whose condition holds of the left value
/// `a` and right value `b` exactly when `a op b` does.
pub proof fn lemma_comparison_sets_its_condition(env: NativeEnv, l: Expr, op: BinOp, r: Expr, a: int, b: int)
    requires
        is_comparison(op),
    ensures
        ({
            let c = env.expr_code(Expr::Binary(Box::new(l), op, Box::new(r)));
            let cc = c[c.len() - 6];
            &&& c.len() >= 7
            &&& c.subrange(c.len() - 7, c.len() as int) == enc_setcc_rax(cc)
            &&& op == BinOp::Eq ==> (x86_condition_holds(cc, a, b) <==> a == b)
            &&& op == BinOp::Neq ==> (x86_condition_holds(cc, a, b) <==> a != b)
            &&& op == BinOp::Lt ==> (x86_condition_holds(cc, a, b) <==> a < b)
            &&& op == BinOp::Gt ==> (x86_condition_holds(cc, a, b) <==> a > b)
            &&& op == BinOp::Lte ==> (x86_condition_holds(cc, a, b) <==> a <= b)
            &&& op == BinOp::Gte ==> (x86_condition_holds(cc, a, b) <==> a >= b)
        }),
{
    let lc = env.expr_code(l);
    let rc = env.expr_code(r);
    let t = env.imm_try_code(l, op, r, lc, rc);
    let c = env.expr_code(Expr::Binary(Box::new(l), op, Box::new(r)));
    let s = setcc_code(op);
    assert(s.len() == 7);
    // every path for a comparison ends with the condition's setcc
    assert(exists|p: Seq<u8>| c == p + s) by {
        let ri = env.imm_of(r);
        if ri is Some && fits32(ri->0) {
            assert(c == (lc + enc_alu_imm32(7, Register::RAX, (ri->0) as i32)) + s);
        } else {
            let f = rc + enc_plus_reg(0x50, Register::RAX) + lc + enc_plus_reg(0x58, Register::RCX) + enc_reg_reg(
                0x39,
                true,
                Register::RAX,
                Register::RCX,
            );
            assert(fallback_code(op, lc, rc) == f + s);
            if t.0 {
                assert(c == f + s);
            } else {
                assert(c =~= f + s);
            }
        }
    }
    let p = choose|p: Seq<u8>| c == p + s;
    assert(c.subrange(c.len() - 7, c.len() as int) =~= s);
    assert(c[c.len() - 6] == s[1]);
}

/// Different comparisons set different conditions.
pub proof fn lemma_comparisons_set_distinct_conditions(p: BinOp, q: BinOp)
    requires
        is_comparison(p),
        is_comparison(q),
        p != q,
    ensures
        setcc_code(p)[1] != setcc_code(q)[1],
{
}

} // verus!
