//! JIT support for the bytecode machine: configuration, compilability checks, hot-spot
//! detection and the compiler front end.
//!
//! The machine interprets by default and counts calls and loop back edges; a count
//! reaching the threshold asks for compilation, which runs only on instruction
//! sequences made of integer/boolean arithmetic, comparisons, stack operations,
//! jumps and calls.
pub mod compiler;
pub mod hotspot;

use vstd::prelude::*;
use crate::bytecode::Instruction;

verus! {

/// JIT configuration.
#[derive(Debug, Clone)]
pub struct JitConfig {
    /// Whether the JIT runs at all (off by default).
    pub enable_jit: bool,
    /// Executions of a function or loop after which it is compiled.
    pub hot_threshold: u64,
    /// Longest instruction sequence that is compiled.
    pub max_jit_instrs: usize,
    /// Whether compilation is logged.
    pub jit_debug: bool,
    /// Largest number of cached compiled functions.
    pub max_cache_entries: usize,
}

impl Default for JitConfig {
    /// JIT off, threshold 50, at most 500 instructions, no logging, 256 cache entries.
    fn default() -> (c: Self)
        ensures
            !c.enable_jit,
            c.hot_threshold == 50,
            c.max_jit_instrs == 500,
            !c.jit_debug,
            c.max_cache_entries == 256,
    {
        JitConfig {
            enable_jit: false,
            hot_threshold: 50,
            max_jit_instrs: 500,
            jit_debug: false,
            max_cache_entries: 256,
        }
    }
}

/// A compiled function: its name and machine code.
pub struct CompiledNativeFn {
    /// Function name, or `loop_<function>_<ip>` for a loop body.
    pub id: String,
    /// The machine code.
    pub code: Vec<u8>,
    /// Number of bytecode instructions compiled.
    pub instr_count: usize,
}

/// Whether an instruction can be compiled.
#[derive(Debug, Clone, PartialEq, Eq)]
pub enum JitSafety {
    /// Only integer/boolean arithmetic, comparisons, stack operations and control flow.
    Safe,
    /// Needs the interpreter (strings, structs, enums, I/O, tasks).
    Unsafe { reason: &'static str },
}

/// Why an instruction cannot be compiled, if it cannot.
pub open spec fn unsafe_reason(i: Instruction) -> Option<Seq<char>> {
    match i {
        Instruction::Concat | Instruction::ToString | Instruction::SubStr | Instruction::StrFind
        | Instruction::StrRepeat => Some("字符串操作涉及堆分配"@),
        Instruction::StructNew(..) | Instruction::StructGet(_) | Instruction::StructSet(_) => Some(
            "结构体操作涉及 Rc/RefCell 堆分配"@,
        ),
        Instruction::EnumNew(..) | Instruction::EnumGet(_) | Instruction::IsVariant(_) | Instruction::RegFn(
            ..,
        ) => Some("枚举/Lambda 操作涉及堆分配"@),
        Instruction::Print | Instruction::PrintLn | Instruction::ReadLine => Some("I/O 操作需要解释器上下文"@),
        Instruction::Spawn(..) | Instruction::WaitAll => Some("异步操作需要线程调度"@),
        _ => None,
    }
}

/// The error for a sequence that is too long to compile.
pub open spec fn too_long_reason() -> Seq<char> {
    "指令序列过长 (>500)"@
}

/// Index of the first instruction of `s` that cannot be compiled, or -1.
pub open spec fn first_unsafe(s: Seq<Instruction>) -> int
    decreases s.len(),
{
    if s.len() == 0 {
        -1
    } else if unsafe_reason(s[0]) is Some {
        0
    } else {
        let r = first_unsafe(s.drop_first());
        if r < 0 {
            -1
        } else {
            r + 1
        }
    }
}

proof fn lemma_first_unsafe(s: Seq<Instruction>, k: int)
    requires
        0 <= k <= s.len(),
        forall|i: int| 0 <= i < k ==> unsafe_reason(#[trigger] s[i]) is None,
    ensures
        k < s.len() && unsafe_reason(s[k]) is Some ==> first_unsafe(s) == k,
        k == s.len() ==> first_unsafe(s) == -1,
    decreases k,
{
    if s.len() > 0 && k > 0 {
        assert forall|i: int| 0 <= i < k - 1 implies unsafe_reason(#[trigger] s.drop_first()[i]) is None by {
            assert(s.drop_first()[i] == s[i + 1]);
        }
        lemma_first_unsafe(s.drop_first(), k - 1);
    }
}

/// Whether `instr` can be compiled, and if not why.
pub fn check_instruction_jit_safety(instr: &Instruction) -> (r: JitSafety)
    ensures
        match r {
            JitSafety::Safe => unsafe_reason(*instr) is None,
            JitSafety::Unsafe { reason } => unsafe_reason(*instr) == Some(reason@),
        },
{
    match instr {
        Instruction::Add | Instruction::Sub | Instruction::Mul | Instruction::Div | Instruction::Mod
        | Instruction::Neg => JitSafety::Safe,
        Instruction::Eq | Instruction::Neq | Instruction::Lt | Instruction::Gt | Instruction::Lte
        | Instruction::Gte => JitSafety::Safe,
        Instruction::And | Instruction::Or | Instruction::Not => JitSafety::Safe,
        Instruction::Jmp(_) | Instruction::JmpFalse(_) | Instruction::Return | Instruction::Halt => JitSafety::Safe,
        Instruction::Const(_) | Instruction::Pop | Instruction::Load(_) | Instruction::Store(_)
        | Instruction::InitVar(_) => JitSafety::Safe,
        Instruction::Call(_, _) => JitSafety::Safe,
        Instruction::Concat | Instruction::ToString | Instruction::SubStr | Instruction::StrFind
        | Instruction::StrRepeat => JitSafety::Unsafe { reason: "字符串操作涉及堆分配" },
        Instruction::StructNew(..) | Instruction::StructGet(_) | Instruction::StructSet(_) => {
            JitSafety::Unsafe { reason: "结构体操作涉及 Rc/RefCell 堆分配" }
        },
        Instruction::EnumNew(..) | Instruction::EnumGet(_) | Instruction::IsVariant(_) | Instruction::RegFn(
            ..,
        ) => JitSafety::Unsafe { reason: "枚举/Lambda 操作涉及堆分配" },
        Instruction::Print | Instruction::PrintLn | Instruction::ReadLine => {
            JitSafety::Unsafe { reason: "I/O 操作需要解释器上下文" }
        },
        Instruction::Spawn(..) | Instruction::WaitAll => JitSafety::Unsafe { reason: "异步操作需要线程调度" },
        Instruction::Nop => JitSafety::Safe,
    }
}

/// Whether a whole sequence can be compiled: the reason of its first instruction that
/// cannot, else an error when it is longer than 500 instructions.
pub fn check_block_jit_safety(instructions: &[Instruction]) -> (r: Result<(), &'static str>)
    ensures
        ({
            let s = instructions@;
            let k = first_unsafe(s);
            if k >= 0 {
                r matches Err(reason) && unsafe_reason(s[k]) == Some(reason@)
            } else if s.len() > 500 {
                r matches Err(reason) && reason@ == too_long_reason()
            } else {
                r is Ok
            }
        }),
{
    let mut i: usize = 0;
    while i < instructions.len()
        invariant
            i <= instructions@.len(),
            forall|t: int| 0 <= t < i ==> unsafe_reason(#[trigger] instructions@[t]) is None,
        decreases instructions@.len() - i,
    {
        match check_instruction_jit_safety(&instructions[i]) {
            JitSafety::Safe => {},
            JitSafety::Unsafe { reason } => {
                proof {
                    lemma_first_unsafe(instructions@, i as int);
                }
                return Err(reason);
            },
        }
        i = i + 1;
    }
    proof {
        lemma_first_unsafe(instructions@, i as int);
    }
    if instructions.len() > 500 {
        return Err("指令序列过长 (>500)");
    }
    Ok(())
}

} // verus!
