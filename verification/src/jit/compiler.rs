//! Bytecode to machine code compiler front end.
//!
//! A sequence is compiled only when the JIT is on, it is not too long, every
//! instruction is compilable and the operand stack never underflows and ends
//! holding at most one value. The machine-code back end is still experimental and
//! produces no code, so every request falls back to the interpreter.
use vstd::prelude::*;
use vstd::string::StringSliceAdditionalSpecFns;
use vstd::string::StringExecFns;
use crate::bytecode::Instruction;
use crate::jit::{check_block_jit_safety, first_unsafe, unsafe_reason, CompiledNativeFn, JitConfig};
use crate::numtext::{decimal, push_decimal};
use crate::bytes::{append_bytes, bytes_eq, le32};
use crate::x64::{enc_mem, enc_mov_reg_imm, enc_plus_reg, enc_reg_reg, modrm_byte, Label, Register, X64Assembler};

verus! {

/// Values an instruction pops and pushes.
pub open spec fn effect(i: Instruction) -> (int, int) {
    match i {
        Instruction::Const(_) | Instruction::Load(_) => (0, 1),
        Instruction::Pop | Instruction::Store(_) | Instruction::InitVar(_) | Instruction::Print
        | Instruction::PrintLn => (1, 0),
        Instruction::Add | Instruction::Sub | Instruction::Mul | Instruction::Div | Instruction::Mod
        | Instruction::Eq | Instruction::Neq | Instruction::Lt | Instruction::Gt | Instruction::Lte
        | Instruction::Gte | Instruction::And | Instruction::Or | Instruction::Concat | Instruction::StructGet(
            _,
        ) => (2, 1),
        Instruction::Neg | Instruction::Not | Instruction::ToString | Instruction::ReadLine => (1, 1),
        Instruction::Jmp(_) | Instruction::Halt => (0, 0),
        Instruction::JmpFalse(_) => (1, 0),
        Instruction::Call(_, n) => (n as int, 1),
        Instruction::Return => (1, 0),
        Instruction::StructNew(_, n) => (n * 2, 1),
        Instruction::StructSet(_) => (2, 1),
        Instruction::EnumNew(_, _, n) => (n as int, 1),
        Instruction::EnumGet(_) | Instruction::IsVariant(_) => (1, 1),
        Instruction::RegFn(_, _) => (0, 0),
        Instruction::SubStr => (3, 1),
        Instruction::StrFind | Instruction::StrRepeat => (2, 1),
        Instruction::Spawn(_, n) => (n as int, 0),
        Instruction::WaitAll => (0, 0),
        Instruction::Nop => (0, 0),
    }
}

/// Whether the effect of `i` fits in machine integers (a struct of `n` fields pops
/// `2 * n` values).
pub open spec fn effect_fits(i: Instruction) -> bool {
    i matches Instruction::StructNew(_, n) ==> n * 2 <= usize::MAX
}

/// Stack depth before instruction `k`, starting from an empty stack.
pub open spec fn depth_before(s: Seq<Instruction>, k: int) -> int
    decreases k,
{
    if k <= 0 {
        0
    } else {
        depth_before(s, k - 1) - effect(s[k - 1]).0 + effect(s[k - 1]).1
    }
}

/// Whether no instruction of `s` pops more than the stack holds and at most one value
/// is left at the end.
pub open spec fn stack_consistent(s: Seq<Instruction>) -> bool {
    &&& forall|j: int| 0 <= j < s.len() ==> depth_before(s, j) >= effect(#[trigger] s[j]).0
    &&& depth_before(s, s.len() as int) <= 1
}

/// The values `stack_effect` returns: (values popped, values pushed).
pub fn stack_effect(instr: &Instruction) -> (r: (usize, usize))
    requires
        effect_fits(*instr),
    ensures
        r.0 == effect(*instr).0,
        r.1 == effect(*instr).1,
{
    match instr {
        Instruction::Const(_) | Instruction::Load(_) => (0, 1),
        Instruction::Pop | Instruction::Store(_) | Instruction::InitVar(_) | Instruction::Print
        | Instruction::PrintLn => (1, 0),
        Instruction::Add | Instruction::Sub | Instruction::Mul | Instruction::Div | Instruction::Mod
        | Instruction::Eq | Instruction::Neq | Instruction::Lt | Instruction::Gt | Instruction::Lte
        | Instruction::Gte | Instruction::And | Instruction::Or | Instruction::Concat | Instruction::StructGet(
            _,
        ) => (2, 1),
        Instruction::Neg | Instruction::Not | Instruction::ToString | Instruction::ReadLine => (1, 1),
        Instruction::Jmp(_) | Instruction::Halt => (0, 0),
        Instruction::JmpFalse(_) => (1, 0),
        Instruction::Call(_, n) => (*n, 1),
        Instruction::Return => (1, 0),
        Instruction::StructNew(_, n) => (*n * 2, 1),
        Instruction::StructSet(_) => (2, 1),
        Instruction::EnumNew(_, _, n) => (*n, 1),
        Instruction::EnumGet(_) | Instruction::IsVariant(_) => (1, 1),
        Instruction::RegFn(_, _) => (0, 0),
        Instruction::SubStr => (3, 1),
        Instruction::StrFind | Instruction::StrRepeat => (2, 1),
        Instruction::Spawn(_, n) => (*n, 0),
        Instruction::WaitAll => (0, 0),
        Instruction::Nop => (0, 0),
    }
}

/// The name given to a compiled loop body.
pub open spec fn loop_name(func_idx: usize, ip: usize) -> Seq<char> {
    "loop_"@ + decimal(func_idx as nat) + "_"@ + decimal(ip as nat)
}

proof fn lemma_safe_effects_fit(s: Seq<Instruction>)
    requires
        first_unsafe(s) < 0,
    ensures
        forall|j: int| 0 <= j < s.len() ==> effect_fits(#[trigger] s[j]),
    decreases s.len(),
{
    if s.len() > 0 {
        lemma_safe_effects_fit(s.drop_first());
        assert forall|j: int| 0 <= j < s.len() implies effect_fits(#[trigger] s[j]) by {
            if j > 0 {
                assert(s[j] == s.drop_first()[j - 1]);
            }
        }
    }
}


/// Integer operations of the back end.
enum BinaryOp {
    Add,
    Sub,
    Mul,
    Div,
    Mod,
}

/// Comparisons of the back end.
enum CmpOp {
    Eq,
    Neq,
    Lt,
    Gt,
    Lte,
    Gte,
}

/// The nine-byte no-op that stands for an operation the back end does not lower yet.
pub open spec fn placeholder_bytes() -> Seq<u8> {
    seq![0x66u8, 0x0F, 0x1F, 0x84, 0x00, 0x00, 0x00, 0x00, 0x00]
}

/// Frame teardown: `add rsp, 0x100; mov rsp, rbp; pop rbp; ret`.
pub open spec fn epilogue_bytes() -> Seq<u8> {
    seq![0x48u8, 0x81, modrm_byte(3, 0, 4)] + le32(0x100u32) + enc_reg_reg(0x89, true, Register::RSP, Register::RBP)
        + enc_plus_reg(0x58, Register::RBP) + seq![0xC3u8]
}

/// Return to the interpreter: `mov eax, 0` and the epilogue.
pub open spec fn return_bytes() -> Seq<u8> {
    enc_mov_reg_imm(Register::RAX, 0) + epilogue_bytes()
}

/// Halt: load the context from `[rbp-8]`, set its halt flag (offset 0x28), return -1.
pub open spec fn halt_bytes() -> Seq<u8> {
    enc_mem(false, 0x8B, Register::RAX.spec_code(), Register::RBP, -8i32) + enc_mov_reg_imm(Register::RCX, 1) + enc_mem(
        false,
        0x89,
        Register::RCX.spec_code(),
        Register::RAX,
        0x28,
    ) + enc_mov_reg_imm(Register::RAX, -1i64) + epilogue_bytes()
}

/// Fall back to the interpreter at `ip`: store it in the context (offset 0x20) and
/// return -1.
pub open spec fn fallback_bytes(ip: usize) -> Seq<u8> {
    enc_mem(false, 0x8B, Register::RAX.spec_code(), Register::RBP, -8i32) + enc_mov_reg_imm(Register::RCX, ip as i64)
        + enc_mem(false, 0x89, Register::RCX.spec_code(), Register::RAX, 0x20) + enc_mov_reg_imm(Register::RAX, -1i64)
        + epilogue_bytes()
}

proof fn lemma_appended_chain(a: X64Assembler, b: X64Assembler, c: X64Assembler, e1: Seq<u8>, e2: Seq<u8>)
    requires
        X64Assembler::appended(a, b, e1),
        X64Assembler::appended(b, c, e2),
    ensures
        X64Assembler::appended(a, c, e1 + e2),
{
    assert(c.bytes() =~= a.bytes() + (e1 + e2));
}

fn emit_epilogue(a: &mut X64Assembler)
    requires
        old(a).wf(),
    ensures
        X64Assembler::appended(*old(a), *final(a), epilogue_bytes()),
{
    let ghost a0 = *a;
    a.add_rsp_imm(0x100);
    let ghost a1 = *a;
    a.mov_reg_reg(Register::RSP, Register::RBP);
    let ghost a2 = *a;
    a.pop_reg(Register::RBP);
    let ghost a3 = *a;
    a.ret();
    proof {
        let e0 = seq![0x48u8, 0x81, modrm_byte(3, 0, 4)] + le32(0x100u32);
        let e1 = enc_reg_reg(0x89, true, Register::RSP, Register::RBP);
        let e2 = enc_plus_reg(0x58, Register::RBP);
        lemma_appended_chain(a0, a1, a2, e0, e1);
        lemma_appended_chain(a0, a2, a3, e0 + e1, e2);
        lemma_appended_chain(a0, a3, *a, e0 + e1 + e2, seq![0xC3u8]);
    }
}

/// Compiles hot functions and loops.
pub struct JitCompiler {
    config: JitConfig,
    total_compiled: usize,
    /// Names of functions that will not be compiled (as bytes).
    blacklist: Vec<Vec<u8>>,
}

impl JitCompiler {
    /// The configuration.
    pub closed spec fn config(&self) -> JitConfig {
        self.config
    }

    /// How many functions and loops were compiled.
    pub closed spec fn total(&self) -> nat {
        self.total_compiled as nat
    }

    /// Names (as bytes) of the functions that will not be compiled.
    pub closed spec fn blacklisted(&self) -> Set<Seq<u8>> {
        self.blacklist@.map_values(|v: Vec<u8>| v@).to_set()
    }

    /// A compiler with `config`, nothing compiled and nothing refused yet.
    pub fn new(config: JitConfig) -> (c: Self)
        ensures
            c.config() == config,
            c.total() == 0,
            c.blacklisted() == Set::<Seq<u8>>::empty(),
    {
        let c = JitCompiler { config, total_compiled: 0, blacklist: Vec::new() };
        assert(c.blacklisted() =~= Set::<Seq<u8>>::empty());
        c
    }

    /// How many functions and loops were compiled.
    pub fn total_compiled(&self) -> (n: usize)
        ensures
            n == self.total(),
    {
        self.total_compiled
    }

    fn is_blacklisted(&self, name: &[u8]) -> (b: bool)
        ensures
            b == self.blacklisted().contains(name@),
    {
        let ghost names = self.blacklist@.map_values(|v: Vec<u8>| v@);
        let mut i: usize = 0;
        while i < self.blacklist.len()
            invariant
                names == self.blacklist@.map_values(|v: Vec<u8>| v@),
                i <= self.blacklist@.len(),
                forall|t: int| 0 <= t < i ==> names[t] != name@,
            decreases self.blacklist@.len() - i,
        {
            assert(names[i as int] == self.blacklist@[i as int]@);
            if bytes_eq(self.blacklist[i].as_slice(), name) {
                assert(names.contains(name@));
                return true;
            }
            i = i + 1;
        }
        assert(!names.contains(name@));
        false
    }

    fn add_to_blacklist(&mut self, name: &[u8])
        ensures
            final(self).blacklisted() == old(self).blacklisted().insert(name@),
            final(self).config() == old(self).config(),
            final(self).total() == old(self).total(),
    {
        let mut v: Vec<u8> = Vec::new();
        append_bytes(&mut v, name);
        self.blacklist.push(v);
        proof {
            let old_names = old(self).blacklist@.map_values(|v: Vec<u8>| v@);
            let names = self.blacklist@.map_values(|v: Vec<u8>| v@);
            assert(names =~= old_names.push(name@));
            assert(names.to_set() =~= old_names.to_set().insert(name@)) by {
                assert forall|x: Seq<u8>| #[trigger] names.contains(x) <==> (old_names.contains(x) || x == name@) by {
                    if names.contains(x) {
                        let t = choose|t: int| 0 <= t < names.len() && names[t] == x;
                        if t < old_names.len() {
                            assert(old_names[t] == x);
                        }
                    }
                    if old_names.contains(x) {
                        let t = choose|t: int| 0 <= t < old_names.len() && old_names[t] == x;
                        assert(names[t] == x);
                    }
                    if x == name@ {
                        assert(names[old_names.len() as int] == x);
                    }
                }
            }
        }
    }

    /// The stack depth before each instruction, when the stack never underflows and
    /// at most one value is left at the end.
    pub fn analyze_stack(&self, instructions: &[Instruction]) -> (r: Option<Vec<usize>>)
        requires
            forall|j: int| 0 <= j < instructions@.len() ==> effect_fits(#[trigger] instructions@[j]),
        ensures
            r is Some <==> stack_consistent(instructions@),
            r matches Some(v) ==> v@.len() == instructions@.len() && forall|j: int|
                0 <= j < instructions@.len() ==> v@[j] == depth_before(instructions@, j),
    {
        let ghost s = instructions@;
        let mut depth: usize = 0;
        let mut depths: Vec<usize> = Vec::new();
        let mut i: usize = 0;
        while i < instructions.len()
            invariant
                s == instructions@,
                forall|j: int| 0 <= j < s.len() ==> effect_fits(#[trigger] s[j]),
                i <= s.len(),
                depth == depth_before(s, i as int),
                depth <= i,
                depths@.len() == i,
                forall|j: int| 0 <= j < i ==> depths@[j] == depth_before(s, j),
                forall|j: int| 0 <= j < i ==> depth_before(s, j) >= effect(#[trigger] s[j]).0,
            decreases s.len() - i,
        {
            depths.push(depth);
            let (pops, pushes) = stack_effect(&instructions[i]);
            if depth < pops {
                return None;
            }
            depth = depth - pops + pushes;
            i = i + 1;
        }
        if depth > 1 {
            return None;
        }
        Some(depths)
    }


    /// `Const(idx)`: placeholder.
    fn emit_const(&self, a: &mut X64Assembler, _idx: usize)
        requires
            old(a).wf(),
        ensures
            X64Assembler::appended(*old(a), *final(a), placeholder_bytes()),
    {
        a.nop9();
    }

    /// Two-operand integer operation: placeholder.
    fn emit_binary_i64(&self, a: &mut X64Assembler, op: BinaryOp)
        requires
            old(a).wf(),
        ensures
            X64Assembler::appended(*old(a), *final(a), placeholder_bytes()),
    {
        let _ = op;
        a.nop9();
    }

    /// `Neg`: placeholder.
    fn emit_unary_neg(&self, a: &mut X64Assembler)
        requires
            old(a).wf(),
        ensures
            X64Assembler::appended(*old(a), *final(a), placeholder_bytes()),
    {
        a.nop9();
    }

    /// Comparison: placeholder.
    fn emit_cmp_bool(&self, a: &mut X64Assembler, _op: CmpOp)
        requires
            old(a).wf(),
        ensures
            X64Assembler::appended(*old(a), *final(a), placeholder_bytes()),
    {
        a.nop9();
    }

    /// `And`: placeholder.
    fn emit_bool_and(&self, a: &mut X64Assembler)
        requires
            old(a).wf(),
        ensures
            X64Assembler::appended(*old(a), *final(a), placeholder_bytes()),
    {
        a.nop9();
    }

    /// `Or`: placeholder.
    fn emit_bool_or(&self, a: &mut X64Assembler)
        requires
            old(a).wf(),
        ensures
            X64Assembler::appended(*old(a), *final(a), placeholder_bytes()),
    {
        a.nop9();
    }

    /// `Not`: placeholder.
    fn emit_bool_not(&self, a: &mut X64Assembler)
        requires
            old(a).wf(),
        ensures
            X64Assembler::appended(*old(a), *final(a), placeholder_bytes()),
    {
        a.nop9();
    }

    /// `Pop`: emits nothing.
    fn emit_pop(&self, _a: &mut X64Assembler)
        ensures
            *final(_a) == *old(_a),
    {
    }

    /// `JmpFalse(target)`: an unconditional jump for now.
    fn emit_jmp_false(&self, a: &mut X64Assembler, target: Label)
        requires
            old(a).wf(),
        ensures
            X64Assembler::jumped(*old(a), *final(a), seq![0xE9u8], target),
    {
        a.jmp(target);
    }

    /// `Return`: result 0, tear down the frame, return.
    fn emit_jit_return(&self, a: &mut X64Assembler)
        requires
            old(a).wf(),
        ensures
            X64Assembler::appended(*old(a), *final(a), return_bytes()),
    {
        let ghost a0 = *a;
        a.mov_reg_imm(Register::RAX, 0);
        let ghost a1 = *a;
        emit_epilogue(a);
        proof {
            lemma_appended_chain(a0, a1, *a, enc_mov_reg_imm(Register::RAX, 0), epilogue_bytes());
        }
    }

    /// `Halt`: set the context's halt flag and return -1.
    fn emit_jit_halt(&self, a: &mut X64Assembler)
        requires
            old(a).wf(),
        ensures
            X64Assembler::appended(*old(a), *final(a), halt_bytes()),
    {
        let ghost a0 = *a;
        a.mov_reg_mem(Register::RAX, Register::RBP, -8i32);
        let ghost a1 = *a;
        a.mov_reg_imm(Register::RCX, 1);
        let ghost a2 = *a;
        a.mov_mem_reg(Register::RAX, 0x28, Register::RCX);
        let ghost a3 = *a;
        a.mov_reg_imm(Register::RAX, -1i64);
        let ghost a4 = *a;
        emit_epilogue(a);
        proof {
            let e0 = enc_mem(false, 0x8B, Register::RAX.spec_code(), Register::RBP, -8i32);
            let e1 = enc_mov_reg_imm(Register::RCX, 1);
            let e2 = enc_mem(false, 0x89, Register::RCX.spec_code(), Register::RAX, 0x28);
            let e3 = enc_mov_reg_imm(Register::RAX, -1i64);
            lemma_appended_chain(a0, a1, a2, e0, e1);
            lemma_appended_chain(a0, a2, a3, e0 + e1, e2);
            lemma_appended_chain(a0, a3, a4, e0 + e1 + e2, e3);
            lemma_appended_chain(a0, a4, *a, e0 + e1 + e2 + e3, epilogue_bytes());
        }
    }

    /// Fall back to the interpreter at `current_ip`.
    fn emit_fallback(&self, a: &mut X64Assembler, current_ip: usize)
        requires
            old(a).wf(),
        ensures
            X64Assembler::appended(*old(a), *final(a), fallback_bytes(current_ip)),
    {
        let ghost a0 = *a;
        a.mov_reg_mem(Register::RAX, Register::RBP, -8i32);
        let ghost a1 = *a;
        a.mov_reg_imm(Register::RCX, current_ip as i64);
        let ghost a2 = *a;
        a.mov_mem_reg(Register::RAX, 0x20, Register::RCX);
        let ghost a3 = *a;
        a.mov_reg_imm(Register::RAX, -1i64);
        let ghost a4 = *a;
        emit_epilogue(a);
        proof {
            let e0 = enc_mem(false, 0x8B, Register::RAX.spec_code(), Register::RBP, -8i32);
            let e1 = enc_mov_reg_imm(Register::RCX, current_ip as i64);
            let e2 = enc_mem(false, 0x89, Register::RCX.spec_code(), Register::RAX, 0x20);
            let e3 = enc_mov_reg_imm(Register::RAX, -1i64);
            lemma_appended_chain(a0, a1, a2, e0, e1);
            lemma_appended_chain(a0, a2, a3, e0 + e1, e2);
            lemma_appended_chain(a0, a3, a4, e0 + e1 + e2, e3);
            lemma_appended_chain(a0, a4, *a, e0 + e1 + e2 + e3, epilogue_bytes());
        }
    }

    /// Generates machine code. The back end is experimental and produces none, so the
    /// caller falls back to the interpreter; the `emit_*` lowerings above are its
    /// pieces, each verified on its own.
    fn emit_x64_code(&self, name: &str, instructions: &[Instruction]) -> (r: Option<Vec<u8>>)
        ensures
            r is None,
    {
        None
    }

    fn do_compile(&self, name: &str, instructions: &[Instruction]) -> (r: Option<CompiledNativeFn>)
        requires
            forall|j: int| 0 <= j < instructions@.len() ==> effect_fits(#[trigger] instructions@[j]),
        ensures
            r is None,
    {
        let depths = self.analyze_stack(instructions);
        if depths.is_none() {
            return None;
        }
        match self.emit_x64_code(name, instructions) {
            Some(code) => Some(CompiledNativeFn { id: String::from_str(name), code, instr_count: instructions.len() }),
            None => None,
        }
    }

    /// Tries to compile function `func_name`. Functions that are too long or hold an
    /// instruction that cannot be compiled are refused from then on.
    pub fn compile_function(&mut self, func_name: &str, instructions: &[Instruction], _param_count: usize) -> (r:
        Option<CompiledNativeFn>)
        ensures
            r is None,
            final(self).config() == old(self).config(),
            final(self).total() == old(self).total(),
            final(self).blacklisted() == if old(self).config().enable_jit && !old(self).blacklisted().contains(
                func_name.spec_bytes(),
            ) && (instructions@.len() > old(self).config().max_jit_instrs || first_unsafe(instructions@) >= 0
                || instructions@.len() > 500) {
                old(self).blacklisted().insert(func_name.spec_bytes())
            } else {
                old(self).blacklisted()
            },
    {
        if !self.config.enable_jit {
            return None;
        }
        if self.is_blacklisted(func_name.as_bytes()) {
            return None;
        }
        if instructions.len() > self.config.max_jit_instrs {
            self.add_to_blacklist(func_name.as_bytes());
            return None;
        }
        if check_block_jit_safety(instructions).is_err() {
            self.add_to_blacklist(func_name.as_bytes());
            return None;
        }
        proof {
            lemma_safe_effects_fit(instructions@);
        }
        let compiled = self.do_compile(func_name, instructions);
        match compiled {
            Some(c) => {
                self.total_compiled = self.total_compiled + 1;
                Some(c)
            },
            None => None,
        }
    }

    /// Tries to compile the loop body at `ip` of function `func_idx`, named
    /// `loop_<func_idx>_<ip>`.
    pub fn compile_block(&mut self, _block_id: u64, instructions: &[Instruction], func_idx: usize, ip: usize) -> (r:
        Option<CompiledNativeFn>)
        ensures
            r is None,
            final(self).config() == old(self).config(),
            final(self).total() == old(self).total(),
            final(self).blacklisted() == old(self).blacklisted(),
    {
        if !self.config.enable_jit {
            return None;
        }
        if instructions.len() > self.config.max_jit_instrs {
            return None;
        }
        if check_block_jit_safety(instructions).is_err() {
            return None;
        }
        proof {
            lemma_safe_effects_fit(instructions@);
        }
        let mut name = String::from_str("loop_");
        push_decimal(&mut name, func_idx as u64);
        name.append("_");
        push_decimal(&mut name, ip as u64);
        assert(name@ == loop_name(func_idx, ip));
        let compiled = self.do_compile(name.as_str(), instructions);
        match compiled {
            Some(c) => {
                self.total_compiled = self.total_compiled + 1;
                Some(c)
            },
            None => None,
        }
    }
}

} // verus!
