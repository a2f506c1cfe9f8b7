use snek::instr::{instr_to_str, reg_to_str, val_to_str, Instr, Reg, Val};

#[test]
fn registers_have_their_names() {
    assert_eq!(reg_to_str(&Reg::RAX), "rax");
    assert_eq!(reg_to_str(&Reg::R15), "r15");
    assert_eq!(reg_to_str(&Reg::R8), "r8");
}

#[test]
fn operands_render() {
    assert_eq!(val_to_str(&Val::Reg(Reg::RBP)), "rbp");
    assert_eq!(val_to_str(&Val::Imm(-42)), "-42");
    assert_eq!(val_to_str(&Val::Imm(0)), "0");
    assert_eq!(val_to_str(&Val::Imm(i32::MIN)), "-2147483648");
    assert_eq!(val_to_str(&Val::RegOffset(Reg::R15, 16)), "[r15 + 16]");
    assert_eq!(val_to_str(&Val::RegOffset(Reg::RBP, -8)), "[rbp - 8]");
    assert_eq!(val_to_str(&Val::RegOffset(Reg::RBP, 0)), "[rbp + 0]");
}

#[test]
fn instructions_render() {
    assert_eq!(
        instr_to_str(&Instr::IMov(Val::Reg(Reg::RAX), Val::Imm(10))),
        "  mov rax, 10"
    );
    assert_eq!(instr_to_str(&Instr::ILabel("else_1".to_string())), "else_1:");
    assert_eq!(instr_to_str(&Instr::IJo("error_overflow".to_string())), "  jo error_overflow");
    assert_eq!(instr_to_str(&Instr::IRet), "  ret");
    assert_eq!(instr_to_str(&Instr::IPush(Val::Reg(Reg::RAX))), "  push rax");
    assert_eq!(
        instr_to_str(&Instr::ICMovLE(Val::Reg(Reg::RAX), Val::Reg(Reg::RCX))),
        "  cmovle rax, rcx"
    );
    assert_eq!(instr_to_str(&Instr::IComment("x".to_string())), "  ; x");
}

#[test]
fn copies_have_the_same_value() {
    let i = Instr::IJne("error_invalid_argument".to_string());
    assert_eq!(instr_to_str(&i.clone()), instr_to_str(&i));
    let e = snek::parser::read_program("((fun (f (x : Num)) -> Num (let ((y (+ x 1))) (if (< y 3) (f y) (block (set! y 2) (loop (break (cast Bool true))))))) (f input))").unwrap();
    let f = e.defns[0].clone();
    assert_eq!(format!("{:?}", f), format!("{:?}", e.defns[0]));
    assert_eq!(format!("{:?}", e.main.clone()), format!("{:?}", e.main));
    assert_eq!(format!("{:?}", e.main), "Call(\"f\", [Input])");
}
