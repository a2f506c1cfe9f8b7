use snek::instr::{Instr, Reg, Val};
use snek::jit::{
    assign_labels, instr_to_dynasm, lower_segment, reg_code, AluOp, Cond, JitError, LabelTable,
    Lowered,
};

fn table(names: &[&str]) -> LabelTable {
    let mut t = LabelTable::new();
    for n in names {
        t.intern(&n.to_string());
    }
    t
}

fn lower(i: Instr) -> Result<Lowered, String> {
    instr_to_dynasm(&i, &table(&["a", "b"])).map_err(|e| match e {
        JitError::UnknownLabel(l) => format!("unknown label {}", l),
        JitError::Unsupported => "unsupported".to_string(),
    })
}

const RAX: Val = Val::Reg(Reg::RAX);
const RCX: Val = Val::Reg(Reg::RCX);

#[test]
fn registers_have_their_hardware_numbers() {
    assert_eq!(reg_code(Reg::RAX), 0);
    assert_eq!(reg_code(Reg::RCX), 1);
    assert_eq!(reg_code(Reg::RDX), 2);
    assert_eq!(reg_code(Reg::RSP), 4);
    assert_eq!(reg_code(Reg::RBP), 5);
    assert_eq!(reg_code(Reg::RSI), 6);
    assert_eq!(reg_code(Reg::RDI), 7);
    assert_eq!(reg_code(Reg::R8), 8);
    assert_eq!(reg_code(Reg::R9), 9);
    assert_eq!(reg_code(Reg::R15), 15);
}

#[test]
fn labels_keep_their_numbers() {
    let mut t = LabelTable::new();
    assert_eq!(t.len(), 0);
    assert_eq!(t.get(&"a".to_string()), None);
    assert_eq!(t.intern(&"a".to_string()), 0);
    assert_eq!(t.intern(&"b".to_string()), 1);
    assert_eq!(t.intern(&"a".to_string()), 0);
    assert_eq!(t.len(), 2);
    assert_eq!(t.get(&"b".to_string()), Some(1));
    t.truncate(5);
    assert_eq!(t.len(), 2);
    t.truncate(1);
    assert_eq!(t.get(&"b".to_string()), None);
    assert_eq!(t.get(&"a".to_string()), Some(0));
    assert_eq!(t.intern(&"c".to_string()), 1);
}

#[test]
fn the_first_pass_numbers_definitions_and_jump_targets() {
    let code = vec![
        Instr::IJe("else_1".to_string()),
        Instr::ICall("fun_f".to_string()),
        Instr::IJmp("endif_2".to_string()),
        Instr::ILabel("else_1".to_string()),
        Instr::IJo("error_overflow".to_string()),
        Instr::IJne("known".to_string()),
        Instr::ILabel("endif_2".to_string()),
        Instr::IComment("else_9".to_string()),
    ];
    let mut t = table(&["known"]);
    assign_labels(&code, &mut t);
    assert_eq!(t.names, ["known", "else_1", "endif_2", "error_overflow"]);
}

#[test]
fn moves() {
    assert_eq!(lower(Instr::IMov(RAX, Val::Imm(-6))), Ok(Lowered::MovRegImm { dst: 0, imm: -6 }));
    assert_eq!(lower(Instr::IMov(Val::Reg(Reg::RBP), Val::Reg(Reg::RSP))), Ok(Lowered::MovRegReg { dst: 5, src: 4 }));
    assert_eq!(
        lower(Instr::IMov(RAX, Val::RegOffset(Reg::R15, 8))),
        Ok(Lowered::MovRegMem { dst: 0, base: 15, disp: 8 })
    );
    assert_eq!(
        lower(Instr::IMov(Val::RegOffset(Reg::RBP, -8), RAX)),
        Ok(Lowered::MovMemReg { base: 5, disp: -8, src: 0 })
    );
    assert_eq!(
        lower(Instr::IMov(Val::RegOffset(Reg::R15, 0), Val::Imm(3))),
        Ok(Lowered::MovMemImm { base: 15, disp: 0, imm: 3 })
    );
    assert_eq!(lower(Instr::IMov(Val::Imm(1), RAX)), Err("unsupported".to_string()));
    assert_eq!(
        lower(Instr::IMov(Val::RegOffset(Reg::RBP, -8), Val::RegOffset(Reg::RBP, -16))),
        Err("unsupported".to_string())
    );
}

#[test]
fn arithmetic_and_logic() {
    assert_eq!(lower(Instr::IAdd(RAX, Val::Imm(2))), Ok(Lowered::AluRegImm { op: AluOp::Add, dst: 0, imm: 2 }));
    assert_eq!(lower(Instr::ISub(RAX, RCX)), Ok(Lowered::AluRegReg { op: AluOp::Sub, dst: 0, src: 1 }));
    assert_eq!(
        lower(Instr::IMul(RAX, Val::RegOffset(Reg::RBP, -8))),
        Ok(Lowered::AluRegMem { op: AluOp::IMul, dst: 0, base: 5, disp: -8 })
    );
    assert_eq!(lower(Instr::ICmp(RAX, Val::Imm(3))), Ok(Lowered::AluRegImm { op: AluOp::Cmp, dst: 0, imm: 3 }));
    assert_eq!(lower(Instr::ITest(RCX, Val::Imm(1))), Ok(Lowered::AluRegImm { op: AluOp::Test, dst: 1, imm: 1 }));
    assert_eq!(
        lower(Instr::IOr(RCX, Val::RegOffset(Reg::RBP, -8))),
        Ok(Lowered::AluRegMem { op: AluOp::Or, dst: 1, base: 5, disp: -8 })
    );
    assert_eq!(lower(Instr::IXor(RCX, RAX)), Ok(Lowered::AluRegReg { op: AluOp::Xor, dst: 1, src: 0 }));
    assert_eq!(lower(Instr::ITest(RCX, Val::RegOffset(Reg::RBP, -8))), Err("unsupported".to_string()));
    assert_eq!(lower(Instr::IAdd(Val::Imm(1), RAX)), Err("unsupported".to_string()));
    assert_eq!(lower(Instr::IAdd(Val::RegOffset(Reg::RBP, -8), RAX)), Err("unsupported".to_string()));
    assert_eq!(lower(Instr::ISar(RAX, Val::Imm(1))), Ok(Lowered::Sar { dst: 0, count: 1 }));
    assert_eq!(lower(Instr::ISar(RAX, Val::Imm(63))), Ok(Lowered::Sar { dst: 0, count: 63 }));
    assert_eq!(lower(Instr::ISar(RAX, Val::Imm(64))), Err("unsupported".to_string()));
    assert_eq!(lower(Instr::ISar(RAX, Val::Imm(-1))), Err("unsupported".to_string()));
    assert_eq!(lower(Instr::ISar(RAX, RCX)), Err("unsupported".to_string()));
}

#[test]
fn conditional_moves() {
    let cases = [
        (Instr::ICMovE(RAX, RCX), Cond::Equal),
        (Instr::ICMovNE(RAX, RCX), Cond::NotEqual),
        (Instr::ICMovG(RAX, RCX), Cond::Greater),
        (Instr::ICMovGE(RAX, RCX), Cond::GreaterEqual),
        (Instr::ICMovL(RAX, RCX), Cond::Less),
        (Instr::ICMovLE(RAX, RCX), Cond::LessEqual),
    ];
    for (i, cond) in cases {
        assert_eq!(lower(i), Ok(Lowered::CMov { cond, dst: 0, src: 1 }));
    }
    assert_eq!(lower(Instr::ICMovE(RAX, Val::Imm(1))), Err("unsupported".to_string()));
}

#[test]
fn labels_jumps_and_calls() {
    assert_eq!(lower(Instr::ILabel("b".to_string())), Ok(Lowered::Bind(1)));
    assert_eq!(lower(Instr::IJmp("a".to_string())), Ok(Lowered::Jump { cond: Cond::Always, target: 0 }));
    assert_eq!(lower(Instr::IJe("b".to_string())), Ok(Lowered::Jump { cond: Cond::Equal, target: 1 }));
    assert_eq!(lower(Instr::IJne("b".to_string())), Ok(Lowered::Jump { cond: Cond::NotEqual, target: 1 }));
    assert_eq!(lower(Instr::IJo("a".to_string())), Ok(Lowered::Jump { cond: Cond::Overflow, target: 0 }));
    assert_eq!(lower(Instr::ICall("a".to_string())), Ok(Lowered::Call(0)));
    assert_eq!(lower(Instr::ICall("c".to_string())), Err("unknown label c".to_string()));
    assert_eq!(lower(Instr::IJmp("c".to_string())), Err("unknown label c".to_string()));
}

#[test]
fn the_rest() {
    assert_eq!(lower(Instr::IRet), Ok(Lowered::Ret));
    assert_eq!(lower(Instr::IComment("x".to_string())), Ok(Lowered::Skip));
    assert_eq!(lower(Instr::IPush(RAX)), Ok(Lowered::Push(0)));
    assert_eq!(lower(Instr::IPop(Val::Reg(Reg::RBP))), Ok(Lowered::Pop(5)));
    assert_eq!(lower(Instr::IPush(Val::Imm(1))), Err("unsupported".to_string()));
    assert_eq!(lower(Instr::IPop(Val::RegOffset(Reg::RBP, 0))), Err("unsupported".to_string()));
}

#[test]
fn a_segment_is_lowered_in_two_passes() {
    let code = vec![
        Instr::IJmp("end".to_string()),
        Instr::ICall("helper".to_string()),
        Instr::ILabel("end".to_string()),
        Instr::IRet,
    ];
    let mut t = table(&["helper"]);
    let plan = lower_segment(&code, &mut t).ok().unwrap();
    assert_eq!(
        plan,
        [
            Lowered::Jump { cond: Cond::Always, target: 1 },
            Lowered::Call(0),
            Lowered::Bind(1),
            Lowered::Ret,
        ]
    );
    assert_eq!(t.names, ["helper", "end"]);
}

#[test]
fn a_refused_segment_leaves_the_labels_alone() {
    let code = vec![
        Instr::ILabel("start".to_string()),
        Instr::ICall("missing".to_string()),
    ];
    let mut t = table(&["helper"]);
    assert!(matches!(lower_segment(&code, &mut t), Err(JitError::UnknownLabel(l)) if l == "missing"));
    assert_eq!(t.names, ["helper"]);
    let bad = vec![Instr::ILabel("start".to_string()), Instr::IPush(Val::Imm(1))];
    assert!(matches!(lower_segment(&bad, &mut t), Err(JitError::Unsupported)));
    assert_eq!(t.names, ["helper"]);
}

#[test]
fn a_program_is_planned_as_one_segment() {
    let program = snek::parser::read_program("((fun (f x) (add1 x)) (f input))").unwrap();
    let mut t = table(&["_snek_print", "snek_error"]);
    let plan = snek::jit::compile_to_jit(&program, &mut t).ok().unwrap();
    assert_eq!(
        t.names,
        [
            "_snek_print",
            "snek_error",
            "fun_f",
            "error_invalid_argument",
            "error_overflow",
            "our_code_starts_here",
            "error_bad_cast",
        ]
    );
    assert_eq!(plan[0], Lowered::Bind(2));
    assert!(plan.contains(&Lowered::Call(2)));
    assert!(plan.contains(&Lowered::Bind(5)));
    assert_eq!(plan.iter().filter(|op| matches!(op, Lowered::Bind(_))).count(), 5);
    assert_eq!(plan[plan.len() - 2], Lowered::Call(1));
}

#[test]
fn a_program_that_does_not_compile_has_no_plan() {
    let program = snek::parser::read_program("((f 1))").unwrap();
    let mut t = table(&["_snek_print", "snek_error"]);
    match snek::jit::compile_to_jit(&program, &mut t) {
        Err(snek::jit::JitFailure::Compile(e)) => assert_eq!(e.message(), "Undefined function: f"),
        other => panic!("{:?}", other),
    }
    assert_eq!(t.names, ["_snek_print", "snek_error"]);
}

#[test]
fn a_plan_needs_the_helpers() {
    let program = snek::parser::read_program("((print 1))").unwrap();
    let mut t = table(&["snek_error"]);
    match snek::jit::compile_to_jit(&program, &mut t) {
        Err(snek::jit::JitFailure::Lower(JitError::UnknownLabel(l))) => assert_eq!(l, "_snek_print"),
        other => panic!("{:?}", other),
    }
    assert_eq!(t.names, ["snek_error"]);
    let mut empty = LabelTable::new();
    let plain = snek::parser::read_program("(1)").unwrap();
    match snek::jit::compile_to_jit(&plain, &mut empty) {
        Err(snek::jit::JitFailure::Lower(JitError::UnknownLabel(l))) => assert_eq!(l, "snek_error"),
        other => panic!("{:?}", other),
    }
    assert_eq!(empty.len(), 0);
}
