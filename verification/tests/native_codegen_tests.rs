use klc::ast::{BinOp, Expr};
use klc::native_codegen::NativeCodeGenerator;

fn ident(s: &str) -> Expr {
    Expr::Ident(s.to_string())
}

fn bin(l: Expr, op: BinOp, r: Expr) -> Expr {
    Expr::Binary(Box::new(l), op, Box::new(r))
}

fn lower(g: NativeCodeGenerator, e: &Expr) -> Vec<u8> {
    let mut g = g;
    g.expr(e);
    g.finish().unwrap()
}

#[test]
fn literals_load_rax() {
    assert_eq!(lower(NativeCodeGenerator::new(), &Expr::Integer(5)), vec![0xB8, 5, 0, 0, 0]);
    assert_eq!(lower(NativeCodeGenerator::new(), &Expr::Bool(true)), vec![0xB8, 1, 0, 0, 0]);
    assert_eq!(lower(NativeCodeGenerator::new(), &Expr::String("s".to_string())), vec![0xB8, 0, 0, 0, 0]);
}

#[test]
fn variables_come_from_constants_registers_or_slots() {
    let mut g = NativeCodeGenerator::new();
    let x = "x".to_string();
    assert_eq!(g.alloc_var(&x), -8);
    // mov rax, [rbp-8]
    assert_eq!(lower(g, &ident("x")), vec![0x48, 0x8B, 0x45, 0xF8]);

    let mut g = NativeCodeGenerator::new();
    g.alloc_var(&x);
    g.track_value(&x, &Expr::Integer(7));
    assert_eq!(g.is_var_const(&x), Some(7));
    assert_eq!(lower(g, &ident("x")), vec![0xB8, 7, 0, 0, 0]);

    let mut g = NativeCodeGenerator::new();
    g.promote_to_reg(&x);
    assert_eq!(g.get_var_reg(&x), Some(klc::x64::Register::R15));
    // mov rax, r15
    assert_eq!(lower(g, &ident("x")), vec![0x4C, 0x89, 0xF8]);
}

#[test]
fn unused_variables_get_no_slot() {
    let mut g = NativeCodeGenerator::new();
    let y = "y".to_string();
    g.mark_unused(&y);
    assert_eq!(g.alloc_var(&y), 0xDEAD);
    assert_eq!(g.alloc_var(&"z".to_string()), -8);
    assert_eq!(g.alloc_var(&"w".to_string()), -16);
}

#[test]
fn immediate_forms() {
    let mut g = NativeCodeGenerator::new();
    let x = "x".to_string();
    g.alloc_var(&x);
    // x + 5: load x, add rax, 5
    let code = lower(g, &bin(ident("x"), BinOp::Add, Expr::Integer(5)));
    assert_eq!(code, vec![0x48, 0x8B, 0x45, 0xF8, 0x48, 0x83, 0xC0, 0x05]);

    let mut g = NativeCodeGenerator::new();
    g.alloc_var(&x);
    // x * 8: shl rax, 3
    let code = lower(g, &bin(ident("x"), BinOp::Mul, Expr::Integer(8)));
    assert_eq!(code, vec![0x48, 0x8B, 0x45, 0xF8, 0x48, 0xC1, 0xE0, 0x03]);

    let mut g = NativeCodeGenerator::new();
    g.alloc_var(&x);
    // 10 - x: load x, neg rax, add rax, 10
    let code = lower(g, &bin(Expr::Integer(10), BinOp::Sub, ident("x")));
    assert_eq!(code, vec![0x48, 0x8B, 0x45, 0xF8, 0x48, 0xF7, 0xD8, 0x48, 0x83, 0xC0, 0x0A]);

    let mut g = NativeCodeGenerator::new();
    g.alloc_var(&x);
    // x < 3: cmp rax, 3 (32-bit immediate); setl al; movzx rax, al
    let code = lower(g, &bin(ident("x"), BinOp::Lt, Expr::Integer(3)));
    assert_eq!(
        code,
        vec![0x48, 0x8B, 0x45, 0xF8, 0x48, 0x81, 0xF8, 3, 0, 0, 0, 0x0F, 0x9C, 0xC0, 0x48, 0x0F, 0xB6, 0xC0]
    );
}

#[test]
fn general_form_pushes_the_right_operand() {
    let mut g = NativeCodeGenerator::new();
    let x = "x".to_string();
    let y = "y".to_string();
    g.alloc_var(&x);
    g.alloc_var(&y);
    // x / y: load y, push rax, load x, pop rcx, cqo, idiv rcx
    let code = lower(g, &bin(ident("x"), BinOp::Div, ident("y")));
    assert_eq!(
        code,
        vec![0x48, 0x8B, 0x45, 0xF0, 0x50, 0x48, 0x8B, 0x45, 0xF8, 0x59, 0x48, 0x99, 0x48, 0xF7, 0xF9]
    );
}

#[test]
fn let_and_assign_store_into_the_slot() {
    let mut g = NativeCodeGenerator::new();
    let x = "x".to_string();
    g.lower_let(&x, &Expr::Integer(5));
    assert_eq!(g.is_var_const(&x), Some(5));
    // x = x + 1: x is no longer a known constant, so it is read from its slot
    g.lower_assign(&x, &bin(ident("x"), BinOp::Add, Expr::Integer(1)));
    assert_eq!(g.is_var_const(&x), None);
    assert_eq!(
        g.finish().unwrap(),
        vec![
            0xB8, 5, 0, 0, 0, // mov eax, 5
            0x48, 0x89, 0x45, 0xF8, // mov [rbp-8], rax
            0x48, 0x8B, 0x45, 0xF8, // mov rax, [rbp-8]
            0x48, 0x83, 0xC0, 0x01, // add rax, 1
            0x48, 0x89, 0x45, 0xF8, // mov [rbp-8], rax
        ]
    );
}

#[test]
fn a_variable_never_read_is_not_stored() {
    let mut g = NativeCodeGenerator::new();
    let t = "t".to_string();
    g.mark_unused(&t);
    g.lower_let(&t, &Expr::Integer(9));
    assert_eq!(g.finish().unwrap(), vec![0xB8, 9, 0, 0, 0]);
}
