use klc::bytecode::Instruction;
use klc::jit::compiler::{stack_effect, JitCompiler};
use klc::jit::{check_block_jit_safety, check_instruction_jit_safety, JitConfig, JitSafety};

#[test]
fn test_jit_safety_arithmetic() {
    assert_eq!(check_instruction_jit_safety(&Instruction::Add), JitSafety::Safe);
    assert_eq!(check_instruction_jit_safety(&Instruction::Sub), JitSafety::Safe);
    assert_eq!(check_instruction_jit_safety(&Instruction::Mul), JitSafety::Safe);
}

#[test]
fn test_jit_safety_unsafe() {
    assert!(matches!(check_instruction_jit_safety(&Instruction::Concat), JitSafety::Unsafe { .. }));
    assert!(matches!(
        check_instruction_jit_safety(&Instruction::StructNew("Point".into(), 2)),
        JitSafety::Unsafe { .. }
    ));
    assert!(matches!(check_instruction_jit_safety(&Instruction::Print), JitSafety::Unsafe { .. }));
}

#[test]
fn test_block_jit_safety() {
    let safe_block = vec![Instruction::Const(0), Instruction::Const(1), Instruction::Add, Instruction::Return];
    assert!(check_block_jit_safety(&safe_block).is_ok());

    let unsafe_block = vec![Instruction::Const(0), Instruction::PrintLn, Instruction::Return];
    assert!(check_block_jit_safety(&unsafe_block).is_err());
}

#[test]
fn test_stack_effect_basics() {
    assert_eq!(stack_effect(&Instruction::Const(0)), (0, 1));
    assert_eq!(stack_effect(&Instruction::Add), (2, 1));
    assert_eq!(stack_effect(&Instruction::Jmp(5)), (0, 0));
    assert_eq!(stack_effect(&Instruction::Call("f".into(), 3)), (3, 1));
    assert_eq!(stack_effect(&Instruction::Return), (1, 0));
    assert_eq!(stack_effect(&Instruction::Pop), (1, 0));
}

#[test]
fn test_analyze_stack_valid() {
    let compiler = JitCompiler::new(JitConfig::default());
    let instrs = vec![Instruction::Const(0), Instruction::Const(1), Instruction::Add, Instruction::Return];
    let depths = compiler.analyze_stack(&instrs);
    assert!(depths.is_some());
    assert_eq!(depths.unwrap(), vec![0, 1, 2, 1]);
}

#[test]
fn test_analyze_stack_underflow() {
    let compiler = JitCompiler::new(JitConfig::default());
    let instrs = vec![Instruction::Const(0), Instruction::Add];
    assert!(compiler.analyze_stack(&instrs).is_none());
}

#[test]
fn test_compile_simple_function() {
    let mut compiler = JitCompiler::new(JitConfig { enable_jit: true, jit_debug: false, ..JitConfig::default() });
    let instrs = vec![Instruction::Const(0), Instruction::Const(1), Instruction::Add, Instruction::Return];
    let result = compiler.compile_function("add_one", &instrs, 0);
    assert!(result.is_none(), "实验性 JIT 应拒绝编译并返回 None");
}

#[test]
fn test_compile_rejects_unsafe() {
    let mut compiler = JitCompiler::new(JitConfig { enable_jit: true, ..JitConfig::default() });
    let instrs = vec![Instruction::Const(0), Instruction::PrintLn, Instruction::Return];
    assert!(compiler.compile_function("test", &instrs, 0).is_none());
}

// ---------------------------------------------------------------------------

#[test]
fn default_config() {
    let c = JitConfig::default();
    assert!(!c.enable_jit);
    assert_eq!(c.hot_threshold, 50);
    assert_eq!(c.max_jit_instrs, 500);
    assert!(!c.jit_debug);
    assert_eq!(c.max_cache_entries, 256);
}

#[test]
fn unsafe_reasons() {
    let reason = |i: Instruction| match check_instruction_jit_safety(&i) {
        JitSafety::Unsafe { reason } => reason,
        JitSafety::Safe => "",
    };
    assert_eq!(reason(Instruction::StrFind), "字符串操作涉及堆分配");
    assert_eq!(reason(Instruction::StructGet("p".into())), "结构体操作涉及 Rc/RefCell 堆分配");
    assert_eq!(reason(Instruction::EnumGet(0)), "枚举/Lambda 操作涉及堆分配");
    assert_eq!(reason(Instruction::ReadLine), "I/O 操作需要解释器上下文");
    assert_eq!(reason(Instruction::WaitAll), "异步操作需要线程调度");
    assert_eq!(check_instruction_jit_safety(&Instruction::Nop), JitSafety::Safe);
}

#[test]
fn block_reports_first_unsafe_and_length() {
    let block = vec![Instruction::Add, Instruction::Spawn("f".into(), 0), Instruction::Print];
    assert_eq!(check_block_jit_safety(&block), Err("异步操作需要线程调度"));
    let long = vec![Instruction::Nop; 501];
    assert_eq!(check_block_jit_safety(&long), Err("指令序列过长 (>500)"));
    let ok = vec![Instruction::Nop; 500];
    assert_eq!(check_block_jit_safety(&ok), Ok(()));
}

#[test]
fn stack_analysis_rejects_leftover_values() {
    let compiler = JitCompiler::new(JitConfig::default());
    let instrs = vec![Instruction::Const(0), Instruction::Const(1)];
    assert!(compiler.analyze_stack(&instrs).is_none());
    let instrs = vec![Instruction::Const(0), Instruction::StructNew("P".into(), 1), Instruction::Pop];
    assert!(compiler.analyze_stack(&instrs).is_none());
    let instrs = vec![
        Instruction::Const(0),
        Instruction::Const(1),
        Instruction::StructNew("P".into(), 1),
        Instruction::Pop,
    ];
    assert_eq!(compiler.analyze_stack(&instrs), Some(vec![0, 1, 2, 1]));
}

#[test]
fn disabled_compiler_does_nothing() {
    let mut compiler = JitCompiler::new(JitConfig::default());
    let instrs = vec![Instruction::Const(0), Instruction::Return];
    assert!(compiler.compile_function("f", &instrs, 0).is_none());
    assert!(compiler.compile_block(7, &instrs, 1, 2).is_none());
    assert_eq!(compiler.total_compiled(), 0);
}
