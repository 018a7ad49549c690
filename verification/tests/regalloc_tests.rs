use klc::regalloc::RegisterAllocator;
use klc::x64::Register;

#[test]
fn test_allocate_free() {
    let mut ra = RegisterAllocator::new();
    ra.begin_function();

    let r1 = ra.allocate();
    assert!(ra.in_use(r1));

    ra.free(r1);
    assert!(!ra.in_use(r1));
}

#[test]
fn test_saved_reg_usage() {
    let mut ra = RegisterAllocator::new();
    ra.begin_function();

    let mut regs = Vec::new();
    for _ in 0..7 {
        regs.push(ra.allocate());
    }

    let saved_reg = ra.allocate();
    assert!(ra.used_saved(saved_reg));
    assert!(ra.needs_frame());
}

#[test]
fn test_param_regs() {
    let params = RegisterAllocator::param_registers();
    assert_eq!(params[0], Register::RCX);
    assert_eq!(params[1], Register::RDX);
    assert_eq!(params[2], Register::R8);
    assert_eq!(params[3], Register::R9);
}

#[test]
fn test_stack_reserve() {
    let mut ra = RegisterAllocator::new();
    ra.begin_function();

    let offset = ra.reserve_stack(12);
    assert_eq!(offset, -16);
    assert_eq!(ra.frame_size(), 16);
}

// ---------------------------------------------------------------------------

#[test]
fn allocation_order_follows_the_calling_convention() {
    let mut ra = RegisterAllocator::new();
    let order: Vec<Register> = (0..14).map(|_| ra.allocate()).collect();
    assert_eq!(order, vec![
        Register::RAX, Register::RCX, Register::RDX, Register::R8, Register::R9, Register::R10, Register::R11,
        Register::RBX, Register::RSI, Register::RDI, Register::R12, Register::R13, Register::R14, Register::R15,
    ]);
    assert_eq!(ra.used_saved_regs(), vec![
        Register::RBX, Register::R12, Register::R13, Register::RSI, Register::R14, Register::RDI, Register::R15,
    ]);
    assert_eq!(ra.frame_size(), 56);
}

#[test]
fn freed_register_is_handed_out_again() {
    let mut ra = RegisterAllocator::new();
    let a = ra.allocate();
    let b = ra.allocate();
    assert_eq!((a, b), (Register::RAX, Register::RCX));
    ra.free(a);
    assert_eq!(ra.allocate(), Register::RAX);
}

#[test]
fn allocate_specific_fails_when_taken() {
    let mut ra = RegisterAllocator::new();
    assert!(ra.allocate_specific(Register::RCX).is_ok());
    assert_eq!(ra.allocate_specific(Register::RCX), Err("Register RCX is already in use".to_string()));
    assert!(!ra.needs_frame());
    assert!(ra.allocate_specific(Register::RBX).is_ok());
    assert!(ra.used_saved(Register::RBX));
    assert!(ra.needs_frame());
    // RCX is taken, so the next register is RAX and then RDX
    assert_eq!(ra.allocate(), Register::RAX);
    assert_eq!(ra.allocate(), Register::RDX);
}

#[test]
fn variables_map_to_registers() {
    let mut ra = RegisterAllocator::new();
    let x = ra.alloc_var("x");
    let y = ra.alloc_var("y");
    assert_eq!(ra.get_var_reg("x"), Some(x));
    assert_eq!(ra.get_var_reg("y"), Some(y));
    assert_eq!(ra.get_var_reg("z"), None);
    ra.free_var("x");
    assert_eq!(ra.get_var_reg("x"), None);
    assert!(!ra.in_use(x));
    assert!(ra.in_use(y));
    ra.free_var("x");
    assert!(ra.in_use(y));
}

#[test]
fn begin_function_resets_everything() {
    let mut ra = RegisterAllocator::new();
    for _ in 0..8 {
        ra.allocate();
    }
    ra.alloc_var("v");
    ra.reserve_stack(8);
    ra.begin_function();
    assert!(!ra.needs_frame());
    assert_eq!(ra.frame_size(), 0);
    assert_eq!(ra.get_var_reg("v"), None);
    assert!(ra.used_saved_regs().is_empty());
    assert_eq!(ra.allocate(), Register::RAX);
}

#[test]
fn stack_slots_are_eight_byte_aligned() {
    let mut ra = RegisterAllocator::new();
    assert_eq!(ra.reserve_stack(1), -8);
    assert_eq!(ra.reserve_stack(8), -16);
    assert_eq!(ra.reserve_stack(9), -32);
    assert_eq!(ra.reserve_stack(0), -32);
    assert!(ra.needs_frame());
    assert_eq!(ra.frame_size(), 32);
}

#[test]
fn return_register_is_rax() {
    assert_eq!(RegisterAllocator::return_register(), Register::RAX);
}
