use klc::x64::{Register, X64Assembler};

#[test]
fn test_mov_imm32() {
    let mut a = X64Assembler::new();
    a.mov_reg_imm(Register::RAX, 1);
    a.mov_reg_imm(Register::RCX, 2);
    assert_eq!(a.finish(), vec![
        0xB8, 0x01, 0x00, 0x00, 0x00,
        0xB9, 0x02, 0x00, 0x00, 0x00,
    ]);
}

#[test]
fn test_mov_imm64() {
    let mut a = X64Assembler::new();
    a.mov_reg_imm(Register::RAX, 0x123456789AB);
    let code = a.finish();
    assert_eq!(code.len(), 10);
    assert_eq!(code[0], 0x48);
    assert_eq!(code[1], 0xB8);
}

#[test]
fn test_mov_imm_extended() {
    let mut a = X64Assembler::new();
    a.mov_reg_imm(Register::R8, 42);
    let code = a.finish();
    assert_eq!(code[0], 0x41);
    assert_eq!(code[1], 0xB8);
}

#[test]
fn test_add_reg_reg() {
    let mut a = X64Assembler::new();
    a.add_reg_reg(Register::RAX, Register::RCX);
    let code = a.finish();
    assert_eq!(code, vec![0x48, 0x01, 0xC8]);
}

#[test]
fn test_sub_reg_reg() {
    let mut a = X64Assembler::new();
    a.sub_reg_reg(Register::RAX, Register::RCX);
    assert_eq!(a.finish(), vec![0x48, 0x29, 0xC8]);
}

#[test]
fn test_logic_reg_reg() {
    let mut a = X64Assembler::new();
    a.and_reg_reg(Register::RAX, Register::RCX);
    assert_eq!(a.finish(), vec![0x48, 0x21, 0xC8]);

    let mut a = X64Assembler::new();
    a.or_reg_reg(Register::RAX, Register::RCX);
    assert_eq!(a.finish(), vec![0x48, 0x09, 0xC8]);

    let mut a = X64Assembler::new();
    a.xor_reg_reg(Register::RAX, Register::RCX);
    assert_eq!(a.finish(), vec![0x48, 0x31, 0xC8]);
}

#[test]
fn test_unary_ops() {
    let mut a = X64Assembler::new();
    a.not_reg(Register::RAX);
    assert_eq!(a.finish(), vec![0x48, 0xF7, 0xD0]);

    let mut a = X64Assembler::new();
    a.inc_reg(Register::RAX);
    assert_eq!(a.finish(), vec![0x48, 0xFF, 0xC0]);

    let mut a = X64Assembler::new();
    a.dec_reg(Register::RAX);
    assert_eq!(a.finish(), vec![0x48, 0xFF, 0xC8]);
}

#[test]
fn test_push_pop() {
    let mut a = X64Assembler::new();
    a.push_reg(Register::RBX);
    assert_eq!(a.finish(), vec![0x53]);

    let mut a = X64Assembler::new();
    a.pop_reg(Register::RBX);
    assert_eq!(a.finish(), vec![0x5B]);

    let mut a = X64Assembler::new();
    a.push_reg(Register::R12);
    assert_eq!(a.finish(), vec![0x41, 0x54]);
}

#[test]
fn test_ret_call_nop() {
    let mut a = X64Assembler::new();
    a.ret();
    assert_eq!(a.finish(), vec![0xC3]);

    let mut a = X64Assembler::new();
    a.call_reg(Register::RAX);
    assert_eq!(a.finish(), vec![0xFF, 0xD0]);
}

#[test]
fn test_labels() {
    let mut a = X64Assembler::new();
    a.mov_reg_imm(Register::RAX, 0);
    let loop_start = a.new_label();
    a.bind_label(loop_start);
    a.inc_reg(Register::RAX);
    a.cmp_reg_reg(Register::RAX, Register::R10);

    let mut a = X64Assembler::new();
    a.xor_reg_reg(Register::RAX, Register::RAX);
    let done = a.new_label();
    a.jmp(done);
    a.mov_reg_imm(Register::RAX, 1);
    a.bind_label(done);
    a.ret();

    let code = a.finish();
    assert!(code.len() > 5);
    assert_eq!(*code.last().unwrap(), 0xC3);
}

#[test]
fn test_memory_ops() {
    let mut a = X64Assembler::new();
    a.mov_reg_mem(Register::RAX, Register::RBX, 8);
    assert_eq!(a.finish(), vec![0x48, 0x8B, 0x43, 0x08]);

    let mut a = X64Assembler::new();
    a.mov_mem_reg(Register::RBX, 8, Register::RAX);
    assert_eq!(a.finish(), vec![0x48, 0x89, 0x43, 0x08]);
}

#[test]
fn test_compute_add() {
    let mut a = X64Assembler::new();
    a.mov_reg_imm(Register::RAX, 1);
    a.mov_reg_imm(Register::RCX, 2);
    a.add_reg_reg(Register::RAX, Register::RCX);
    a.ret();

    let code = a.finish();
    assert_eq!(code, vec![
        0xB8, 0x01, 0x00, 0x00, 0x00,
        0xB9, 0x02, 0x00, 0x00, 0x00,
        0x48, 0x01, 0xC8,
        0xC3,
    ]);
}

// ---------------------------------------------------------------------------

#[test]
fn forward_jump_is_patched_to_its_label() {
    // xor rax,rax (3) ; jmp rel32 (5) ; mov eax,1 (5) ; done: ret
    let mut a = X64Assembler::new();
    a.xor_reg_reg(Register::RAX, Register::RAX);
    let done = a.new_label();
    a.jmp(done);
    a.mov_reg_imm(Register::RAX, 1);
    a.bind_label(done);
    a.ret();
    let code = a.finish();
    assert_eq!(code, vec![
        0x48, 0x31, 0xC0,
        0xE9, 0x05, 0x00, 0x00, 0x00,
        0xB8, 0x01, 0x00, 0x00, 0x00,
        0xC3,
    ]);
}

#[test]
fn backward_jump_has_negative_displacement() {
    let mut a = X64Assembler::new();
    let top = a.new_label();
    a.bind_label(top);
    a.inc_reg(Register::RAX);
    a.jne(top);
    let code = a.finish();
    // inc rax (3) ; jne rel32 = -(3 + 6)
    assert_eq!(code, vec![0x48, 0xFF, 0xC0, 0x0F, 0x85, 0xF7, 0xFF, 0xFF, 0xFF]);
}

#[test]
fn extended_registers_get_rex_bits() {
    let mut a = X64Assembler::new();
    a.mov_reg_reg(Register::R9, Register::R10);
    assert_eq!(a.finish(), vec![0x4D, 0x89, 0xD1]);

    let mut a = X64Assembler::new();
    a.pop_reg(Register::R15);
    assert_eq!(a.finish(), vec![0x41, 0x5F]);
}

#[test]
fn memory_operand_with_rsp_base_needs_sib() {
    let mut a = X64Assembler::new();
    a.mov_reg_mem(Register::RAX, Register::RSP, 16);
    assert_eq!(a.finish(), vec![0x48, 0x8B, 0x44, 0x24, 0x10]);
}

#[test]
fn memory_operand_with_large_displacement() {
    let mut a = X64Assembler::new();
    a.mov_reg_mem(Register::RAX, Register::RBX, 0x200);
    assert_eq!(a.finish(), vec![0x48, 0x8B, 0x83, 0x00, 0x02, 0x00, 0x00]);
}

#[test]
fn register_codes() {
    assert_eq!(Register::RAX.code(), 0);
    assert_eq!(Register::R15.code(), 7);
    assert!(Register::R8.is_extended());
    assert!(!Register::RDI.is_extended());
}

#[test]
fn byte_position_counts_emitted_bytes() {
    let mut a = X64Assembler::new();
    assert_eq!(a.byte_position(), 0);
    a.ret();
    a.nop9();
    assert_eq!(a.byte_position(), 10);
}

#[test]
fn zero_offset_from_rbp_uses_an_8_bit_displacement() {
    let mut a = X64Assembler::new();
    a.lea_reg_mem(Register::RAX, Register::RBP, -8);
    assert_eq!(a.finish(), vec![0x48, 0x8D, 0x45, 0xF8]);
    let mut b = X64Assembler::new();
    b.lea_reg_mem(Register::RAX, Register::RBP, 0);
    assert_eq!(b.finish(), vec![0x48, 0x8D, 0x45, 0x00]);
    let mut c = X64Assembler::new();
    c.mov_reg_mem(Register::RCX, Register::R13, 0);
    assert_eq!(c.finish(), vec![0x49, 0x8B, 0x4D, 0x00]);
    let mut d = X64Assembler::new();
    d.mov_reg_mem(Register::RCX, Register::RBX, 0);
    assert_eq!(d.finish(), vec![0x48, 0x8B, 0x0B]);
}

#[test]
fn imul_with_an_extended_register_sets_both_rex_bits() {
    let mut a = X64Assembler::new();
    a.imul_reg_imm(Register::RAX, 3);
    assert_eq!(a.finish(), vec![0x48, 0x69, 0xC0, 0x03, 0x00, 0x00, 0x00]);
    let mut b = X64Assembler::new();
    b.imul_reg_imm(Register::R8, 3);
    assert_eq!(b.finish(), vec![0x4D, 0x69, 0xC0, 0x03, 0x00, 0x00, 0x00]);
}

#[test]
fn finishing_needs_every_label_bound() {
    let mut a = X64Assembler::new();
    let l = a.new_label();
    a.jmp(l);
    assert!(!a.ready_to_finish());
    a.bind_label(l);
    assert!(a.ready_to_finish());
    assert_eq!(a.finish(), vec![0xE9, 0, 0, 0, 0]);
}
