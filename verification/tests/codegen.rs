use snek::ast::{Expr, FunDefn, Op1, Op2, Program, Type};
use snek::compiler::{
    check_no_input, compile, compile_define, compile_function, compile_main, compile_program,
    compile_to_instrs, error_handlers, frame_size, get_input_heap_offset, numbered_label, render,
    CodeGen, CompileError, FunContext,
};
use snek::instr::{instr_to_str, Instr};

fn num(n: i32) -> Box<Expr> {
    Box::new(Expr::Number(n))
}

fn id(name: &str) -> Box<Expr> {
    Box::new(Expr::Id(name.to_string()))
}

fn fun(name: &str, params: &[&str], body: Expr) -> FunDefn {
    FunDefn {
        name: name.to_string(),
        params: params.iter().map(|p| p.to_string()).collect(),
        body: Box::new(body),
        param_types: None,
        return_type: None,
    }
}

fn lines(code: &[Instr]) -> Vec<String> {
    code.iter().map(|i| instr_to_str(i).trim().to_string()).collect()
}

fn offsets(bindings: &[(&str, i32)]) -> im::HashMap<String, i32> {
    let mut map = im::HashMap::new();
    for (name, off) in bindings {
        map = map.update(name.to_string(), *off);
    }
    map
}

struct Out {
    code: Vec<String>,
    min: i32,
    gen: CodeGen,
}

fn gen_with(
    e: &Expr,
    env: &[(&str, i32)],
    defines: &[(&str, i32)],
    defns: &[FunDefn],
    loop_end: Option<&str>,
) -> Result<Out, String> {
    let ctx = FunContext::new(defns).map_err(|e| e.message())?;
    let mut gen = CodeGen::new();
    let before = gen;
    match compile_to_instrs(
        e,
        -8,
        &offsets(env),
        &offsets(defines),
        &ctx,
        true,
        &loop_end.map(|l| l.to_string()),
        &mut gen,
    ) {
        Ok((code, min)) => Ok(Out { code: lines(&code), min, gen }),
        Err(err) => {
            assert_eq!(gen, before);
            Err(err.message())
        }
    }
}

fn gen(e: &Expr) -> Result<Out, String> {
    gen_with(e, &[], &[], &[], None)
}

#[test]
fn literals_load_their_tagged_words() {
    let out = gen(&Expr::Number(5)).unwrap();
    assert_eq!(out.code, ["mov rax, 10"]);
    assert_eq!(out.min, -8);
    assert_eq!(gen(&Expr::Number(-3)).unwrap().code, ["mov rax, -6"]);
    assert_eq!(gen(&Expr::Number(1073741823)).unwrap().code, ["mov rax, 2147483646"]);
    assert_eq!(gen(&Expr::Number(-1073741824)).unwrap().code, ["mov rax, -2147483648"]);
    assert_eq!(gen(&Expr::Boolean(true)).unwrap().code, ["mov rax, 1"]);
    assert_eq!(gen(&Expr::Boolean(false)).unwrap().code, ["mov rax, 3"]);
}

#[test]
fn literals_outside_the_immediate_are_refused() {
    assert_eq!(gen(&Expr::Number(1073741824)).err().unwrap(), "Invalid: number out of range");
    assert_eq!(gen(&Expr::Number(i32::MIN)).err().unwrap(), "Invalid: number out of range");
    assert_eq!(gen(&Expr::Number(-1073741825)).err().unwrap(), "Invalid: number out of range");
}

#[test]
fn identifiers_resolve_lexically_then_at_top_level() {
    let e = *id("x");
    assert_eq!(gen_with(&e, &[("x", -16)], &[("x", 8)], &[], None).unwrap().code, ["mov rax, [rbp - 16]"]);
    assert_eq!(gen_with(&e, &[("x", 16)], &[], &[], None).unwrap().code, ["mov rax, [rbp + 16]"]);
    assert_eq!(gen_with(&e, &[], &[("x", 8)], &[], None).unwrap().code, ["mov rax, [r15 + 8]"]);
    assert_eq!(gen(&e).err().unwrap(), "Unbound variable identifier x");
}

#[test]
fn input_reads_its_heap_slot() {
    let out = gen(&Expr::Block(vec![Expr::Input, Expr::Input])).unwrap();
    assert_eq!(out.code, ["mov rax, [r15 + 0]", "mov rax, [r15 + 0]"]);
    assert_eq!(out.gen, CodeGen { label_counter: 0, heap_offset: 8, input_heap_offset: Some(0) });
    let mut gen = CodeGen { label_counter: 3, heap_offset: 24, input_heap_offset: None };
    assert_eq!(get_input_heap_offset(&mut gen).ok(), Some(24));
    assert_eq!(gen, CodeGen { label_counter: 3, heap_offset: 32, input_heap_offset: Some(24) });
    assert_eq!(get_input_heap_offset(&mut gen).ok(), Some(24));
    assert_eq!(gen.heap_offset, 32);
}

#[test]
fn heap_slots_run_out() {
    let mut gen = CodeGen { label_counter: 0, heap_offset: i32::MAX - 7, input_heap_offset: None };
    let before = gen;
    assert_eq!(get_input_heap_offset(&mut gen).err().unwrap().message(), "Invalid: program too large");
    assert_eq!(gen, before);
}

#[test]
fn unary_operators_lower() {
    assert_eq!(
        gen(&Expr::UnOp(Op1::Add1, num(1))).unwrap().code,
        ["mov rax, 2", "test rax, 1", "jne error_invalid_argument", "add rax, 2", "jo error_overflow"]
    );
    assert_eq!(
        gen(&Expr::UnOp(Op1::Sub1, num(1))).unwrap().code,
        ["mov rax, 2", "test rax, 1", "jne error_invalid_argument", "sub rax, 2", "jo error_overflow"]
    );
    assert_eq!(
        gen(&Expr::UnOp(Op1::IsNum, num(1))).unwrap().code,
        ["mov rax, 2", "test rax, 1", "mov rax, 3", "mov rcx, 1", "cmove rax, rcx"]
    );
    assert_eq!(
        gen(&Expr::UnOp(Op1::IsBool, num(1))).unwrap().code,
        ["mov rax, 2", "test rax, 1", "mov rax, 1", "mov rcx, 3", "cmove rax, rcx"]
    );
    assert_eq!(
        gen(&Expr::UnOp(Op1::Print, num(1))).unwrap().code,
        ["mov rax, 2", "push rax", "mov rdi, rax", "call _snek_print", "pop rax"]
    );
}

#[test]
fn arithmetic_checks_both_tags_at_once() {
    let out = gen(&Expr::BinOp(Op2::Plus, num(1), num(2))).unwrap();
    assert_eq!(
        out.code,
        [
            "mov rax, 2",
            "mov [rbp - 8], rax",
            "mov rax, 4",
            "mov rcx, rax",
            "or rcx, [rbp - 8]",
            "test rcx, 1",
            "jne error_invalid_argument",
            "add rax, [rbp - 8]",
            "jo error_overflow",
        ]
    );
    assert_eq!(out.min, -16);
    let minus = gen(&Expr::BinOp(Op2::Minus, num(1), num(2))).unwrap().code;
    assert_eq!(
        minus[7..],
        ["mov rcx, rax", "mov rax, [rbp - 8]", "sub rax, rcx", "jo error_overflow"]
    );
    let times = gen(&Expr::BinOp(Op2::Times, num(1), num(2))).unwrap().code;
    assert_eq!(times[7..], ["sar rax, 1", "imul rax, [rbp - 8]", "jo error_overflow"]);
}

#[test]
fn comparisons_select_without_a_branch() {
    let out = gen(&Expr::BinOp(Op2::Less, num(1), num(2))).unwrap();
    assert_eq!(
        out.code,
        [
            "mov rax, 2",
            "mov [rbp - 8], rax",
            "mov rax, 4",
            "mov [rbp - 16], rax",
            "mov rcx, rax",
            "or rcx, [rbp - 8]",
            "test rcx, 1",
            "jne error_invalid_argument",
            "mov rcx, [rbp - 8]",
            "mov rax, [rbp - 16]",
            "cmp rcx, rax",
            "mov rax, 3",
            "mov rcx, 1",
            "cmovl rax, rcx",
        ]
    );
    assert_eq!(out.min, -16);
    for (op, select) in [
        (Op2::Greater, "cmovg rax, rcx"),
        (Op2::LessEqual, "cmovle rax, rcx"),
        (Op2::GreaterEqual, "cmovge rax, rcx"),
    ] {
        let code = gen(&Expr::BinOp(op, num(1), num(2))).unwrap().code;
        assert_eq!(code.last().unwrap(), select);
        assert_eq!(code.len(), 14);
    }
    let equal = gen(&Expr::BinOp(Op2::Equal, num(1), num(2))).unwrap();
    assert_eq!(
        equal.code[3..],
        ["cmp rax, [rbp - 8]", "mov rax, 1", "mov rcx, 3", "cmovne rax, rcx"]
    );
    assert_eq!(equal.min, -16);
}

#[test]
fn nested_operands_take_lower_slots() {
    let e = Expr::BinOp(
        Op2::Plus,
        num(1),
        Box::new(Expr::BinOp(Op2::Plus, num(2), Box::new(Expr::BinOp(Op2::Plus, num(3), num(4))))),
    );
    assert_eq!(gen(&e).unwrap().min, -32);
    let left = Expr::BinOp(
        Op2::Plus,
        Box::new(Expr::BinOp(Op2::Plus, Box::new(Expr::BinOp(Op2::Plus, num(3), num(4))), num(2))),
        num(1),
    );
    assert_eq!(gen(&left).unwrap().min, -16);
    assert_eq!(gen(&Expr::UnOp(Op1::Add1, num(1))).unwrap().min, -8);
}

#[test]
fn assignment_stores_to_the_resolved_place() {
    let e = Expr::SetVar("x".to_string(), num(1));
    let local = gen_with(&e, &[("x", -32)], &[("x", 8)], &[], None).unwrap();
    assert_eq!(local.code, ["mov rax, 2", "mov [rbp - 32], rax"]);
    assert_eq!(local.min, -32);
    let global = gen_with(&e, &[], &[("x", 8)], &[], None).unwrap();
    assert_eq!(global.code, ["mov rax, 2", "mov [r15 + 8], rax"]);
    assert_eq!(global.min, -8);
    assert_eq!(gen(&e).err().unwrap(), "Unbound variable identifier x");
}

#[test]
fn if_compares_with_false() {
    let out = gen(&Expr::If(Box::new(Expr::Boolean(true)), num(1), num(2))).unwrap();
    assert_eq!(
        out.code,
        [
            "mov rax, 1",
            "cmp rax, 3",
            "je else_1",
            "mov rax, 2",
            "jmp endif_2",
            "else_1:",
            "mov rax, 4",
            "endif_2:",
        ]
    );
    assert_eq!(out.gen.label_counter, 2);
}

#[test]
fn labels_are_numbered_on() {
    let inner = Expr::If(Box::new(Expr::Boolean(true)), num(1), num(2));
    let e = Expr::If(Box::new(Expr::Boolean(true)), Box::new(inner), num(3));
    let out = gen(&e).unwrap();
    assert_eq!(out.gen.label_counter, 4);
    assert!(out.code.contains(&"je else_1".to_string()));
    assert!(out.code.contains(&"je else_3".to_string()));
    assert!(out.code.contains(&"endif_4:".to_string()));
    assert_eq!(numbered_label("else", 12), "else_12");
}

#[test]
fn block_runs_in_order() {
    let out = gen(&Expr::Block(vec![Expr::Number(1), Expr::Boolean(false)])).unwrap();
    assert_eq!(out.code, ["mov rax, 2", "mov rax, 3"]);
    assert_eq!(gen(&Expr::Block(vec![])).unwrap().code, Vec::<String>::new());
}

#[test]
fn let_binds_in_fresh_slots() {
    let e = Expr::Let(
        vec![("x".to_string(), Expr::Number(1)), ("y".to_string(), *id("x"))],
        Box::new(Expr::BinOp(Op2::Plus, id("x"), id("y"))),
    );
    let out = gen(&e).unwrap();
    assert_eq!(
        out.code[..5],
        [
            "mov rax, 2",
            "mov [rbp - 8], rax",
            "mov rax, [rbp - 8]",
            "mov [rbp - 16], rax",
            "mov rax, [rbp - 8]",
        ]
    );
    assert_eq!(out.code[5], "mov [rbp - 24], rax");
    assert_eq!(out.code[6], "mov rax, [rbp - 16]");
    assert_eq!(out.min, -32);
}

#[test]
fn let_leaves_outer_scopes_alone() {
    let e = Expr::Block(vec![
        Expr::Let(vec![("x".to_string(), Expr::Number(1))], id("x")),
        *id("x"),
    ]);
    assert_eq!(gen(&e).err().unwrap(), "Unbound variable identifier x");
    let outer = gen_with(&e, &[("x", 16)], &[], &[], None).unwrap();
    assert_eq!(outer.code.last().unwrap(), "mov rax, [rbp + 16]");
}

#[test]
fn duplicate_bindings_are_refused() {
    let e = Expr::Let(
        vec![
            ("x".to_string(), Expr::Number(1)),
            ("y".to_string(), Expr::Number(2)),
            ("x".to_string(), Expr::Number(3)),
        ],
        id("x"),
    );
    assert_eq!(gen(&e).err().unwrap(), "Duplicate binding");
    let first = Expr::Let(
        vec![("x".to_string(), *id("nope")), ("x".to_string(), Expr::Number(3))],
        id("x"),
    );
    assert_eq!(gen(&first).err().unwrap(), "Duplicate binding");
}

#[test]
fn loops_have_their_own_exit() {
    let e = Expr::Loop(Box::new(Expr::Break(num(1))));
    let out = gen(&e).unwrap();
    assert_eq!(
        out.code,
        ["loop_start_1:", "mov rax, 2", "jmp loop_end_2", "jmp loop_start_1", "loop_end_2:"]
    );
    let nested = Expr::Loop(Box::new(Expr::Block(vec![
        Expr::Loop(Box::new(Expr::Break(num(1)))),
        Expr::Break(num(2)),
    ])));
    let code = gen(&nested).unwrap().code;
    assert_eq!(
        code,
        [
            "loop_start_1:",
            "loop_start_3:",
            "mov rax, 2",
            "jmp loop_end_4",
            "jmp loop_start_3",
            "loop_end_4:",
            "mov rax, 4",
            "jmp loop_end_2",
            "jmp loop_start_1",
            "loop_end_2:",
        ]
    );
}

#[test]
fn break_outside_a_loop_is_refused() {
    assert_eq!(gen(&Expr::Break(num(1))).err().unwrap(), "break outside of loop");
    let deep = Expr::Block(vec![
        Expr::Number(1),
        Expr::If(Box::new(Expr::Boolean(true)), Box::new(Expr::Break(num(1))), num(2)),
    ]);
    assert_eq!(gen(&deep).err().unwrap(), "break outside of loop");
    let after = Expr::Block(vec![Expr::Loop(Box::new(Expr::Break(num(1)))), Expr::Break(num(2))]);
    assert_eq!(gen(&after).err().unwrap(), "break outside of loop");
    let given = gen_with(&Expr::Break(num(1)), &[], &[], &[], Some("out")).unwrap();
    assert_eq!(given.code, ["mov rax, 2", "jmp out"]);
}

#[test]
fn calls_push_right_to_left_and_keep_the_stack_aligned() {
    let defns = [fun("f", &["a", "b"], Expr::Number(0)), fun("g", &["a"], Expr::Number(0)), fun("h", &[], Expr::Number(0))];
    let two = Expr::Call("f".to_string(), vec![Expr::Number(1), Expr::Number(2)]);
    assert_eq!(
        gen_with(&two, &[], &[], &defns, None).unwrap().code,
        [
            "sub rsp, 8",
            "mov rax, 4",
            "push rax",
            "mov rax, 2",
            "push rax",
            "call fun_f",
            "add rsp, 16",
            "add rsp, 8",
        ]
    );
    let one = Expr::Call("g".to_string(), vec![Expr::Number(1)]);
    assert_eq!(
        gen_with(&one, &[], &[], &defns, None).unwrap().code,
        ["mov rax, 2", "push rax", "call fun_g", "add rsp, 8"]
    );
    let none = Expr::Call("h".to_string(), vec![]);
    assert_eq!(
        gen_with(&none, &[], &[], &defns, None).unwrap().code,
        ["sub rsp, 8", "call fun_h", "add rsp, 8"]
    );
}

#[test]
fn calls_are_checked_against_the_signatures() {
    let defns = [fun("f", &["a", "b"], Expr::Number(0))];
    let unknown = Expr::Call("g".to_string(), vec![]);
    assert_eq!(gen_with(&unknown, &[], &[], &defns, None).err().unwrap(), "Undefined function: g");
    let short = Expr::Call("f".to_string(), vec![Expr::Number(1)]);
    assert_eq!(
        gen_with(&short, &[], &[], &defns, None).err().unwrap(),
        "Wrong number of arguments for f: expected 2, got 1"
    );
    let ctx = FunContext::new(&defns).ok().unwrap();
    assert!(ctx.check_function_exists(&"f".to_string()));
    assert!(!ctx.check_function_exists(&"g".to_string()));
    assert_eq!(ctx.get_param_count(&"f".to_string()), 2);
    assert_eq!(ctx.get_param_count(&"g".to_string()), 0);
}

#[test]
fn two_functions_of_one_name_are_refused() {
    let defns = [fun("f", &[], Expr::Number(0)), fun("g", &[], Expr::Number(0)), fun("f", &["x"], Expr::Number(1))];
    assert_eq!(FunContext::new(&defns).err().unwrap().message(), "Duplicate function definition: f");
    let program = Program { defns: defns.to_vec(), main: Expr::Number(1) };
    assert_eq!(compile(&program).err().unwrap().message(), "Duplicate function definition: f");
}

#[test]
fn casts_check_the_tag() {
    assert_eq!(
        gen(&Expr::Cast(num(1), Type::Num)).unwrap().code,
        ["mov rax, 2", "test rax, 1", "jne error_bad_cast"]
    );
    assert_eq!(
        gen(&Expr::Cast(num(1), Type::Bool)).unwrap().code,
        ["mov rax, 2", "test rax, 1", "je error_bad_cast"]
    );
    assert_eq!(gen(&Expr::Cast(num(1), Type::Nothing)).unwrap().code, ["mov rax, 2", "jmp error_bad_cast"]);
    assert_eq!(gen(&Expr::Cast(num(1), Type::Any)).unwrap().code, ["mov rax, 2"]);
}

#[test]
fn the_input_flag_decides_nothing() {
    let ctx = FunContext::new(&[]).ok().unwrap();
    let empty = im::HashMap::new();
    let mut a = CodeGen::new();
    let mut b = CodeGen::new();
    let with = compile_to_instrs(&Expr::Input, -8, &empty, &empty, &ctx, true, &None, &mut a).ok().unwrap();
    let without = compile_to_instrs(&Expr::Input, -8, &empty, &empty, &ctx, false, &None, &mut b).ok().unwrap();
    assert_eq!(lines(&with.0), lines(&without.0));
    assert_eq!(a, b);
}

#[test]
fn frames_are_sized_after_the_fact() {
    assert_eq!(frame_size(-8, false).ok(), Some(0));
    assert_eq!(frame_size(-8, true).ok(), Some(0));
    assert_eq!(frame_size(16, false).ok(), Some(0));
    assert_eq!(frame_size(-16, false).ok(), Some(16));
    assert_eq!(frame_size(-24, false).ok(), Some(32));
    assert_eq!(frame_size(-16, true).ok(), Some(16));
    assert_eq!(frame_size(-24, true).ok(), Some(16));
    assert_eq!(frame_size(-32, true).ok(), Some(32));
    assert_eq!(frame_size(-9, true).ok(), Some(16));
    assert_eq!(frame_size(-2147483632, false).ok(), Some(2147483632));
    assert_eq!(frame_size(-2147483633, false).err().unwrap().message(), "Invalid: program too large");
    assert_eq!(frame_size(i32::MIN, false).err().unwrap().message(), "Invalid: program too large");
    assert_eq!(frame_size(-2147483640, true).ok(), Some(2147483632));
    assert_eq!(frame_size(i32::MIN, true).err().unwrap().message(), "Invalid: program too large");
}

#[test]
fn functions_bind_parameters_above_the_return_address() {
    let f = fun("f", &["a", "b"], Expr::BinOp(Op2::Less, id("a"), id("b")));
    let ctx = FunContext::new(&[f.clone()]).ok().unwrap();
    let mut gen = CodeGen::new();
    let code = lines(&compile_function(&f, &im::HashMap::new(), &ctx, &mut gen).ok().unwrap());
    assert_eq!(code[..6], ["fun_f:", "push rbp", "mov rbp, rsp", "sub rsp, 16", "mov rax, [rbp + 16]", "mov [rbp - 8], rax"]);
    assert_eq!(code[6], "mov rax, [rbp + 24]");
    assert_eq!(code[code.len() - 3..], ["mov rsp, rbp", "pop rbp", "ret"]);
    let leaf = fun("g", &["a"], *id("a"));
    let code = lines(&compile_function(&leaf, &im::HashMap::new(), &ctx, &mut gen).ok().unwrap());
    assert_eq!(code, ["fun_g:", "push rbp", "mov rbp, rsp", "mov rax, [rbp + 16]", "mov rsp, rbp", "pop rbp", "ret"]);
}

#[test]
fn a_rejected_function_consumes_nothing() {
    let f = fun("f", &[], Expr::If(Box::new(Expr::Boolean(true)), id("nope"), num(1)));
    let ctx = FunContext::new(&[f.clone()]).ok().unwrap();
    let mut gen = CodeGen { label_counter: 5, heap_offset: 16, input_heap_offset: None };
    let before = gen;
    assert_eq!(
        compile_function(&f, &im::HashMap::new(), &ctx, &mut gen).err().unwrap().message(),
        "Unbound variable identifier nope"
    );
    assert_eq!(gen, before);
}

#[test]
fn the_entry_point_stores_the_input() {
    let ctx = FunContext::new(&[]).ok().unwrap();
    let mut gen = CodeGen::new();
    let main = Expr::BinOp(Op2::Less, Box::new(Expr::Input), num(1));
    let code = lines(&compile_main(&main, &im::HashMap::new(), &ctx, &mut gen).ok().unwrap());
    assert_eq!(
        code[..6],
        ["our_code_starts_here:", "push rbp", "mov rbp, rsp", "mov [r15 + 0], rdi", "sub rsp, 16", "mov rax, [r15 + 0]"]
    );
    assert_eq!(gen.input_heap_offset, Some(0));
}

#[test]
fn definitions_store_to_a_new_heap_slot() {
    let ctx = FunContext::new(&[]).ok().unwrap();
    let mut gen = CodeGen { label_counter: 0, heap_offset: 8, input_heap_offset: Some(0) };
    let defines = offsets(&[("a", 16)]);
    let (off, code) = compile_define("b", &Expr::UnOp(Op1::Add1, id("a")), &defines, &ctx, &mut gen).ok().unwrap();
    assert_eq!(off, 8);
    assert_eq!(gen.heap_offset, 16);
    let code = lines(&code);
    assert_eq!(code[0], "mov rax, [r15 + 16]");
    assert_eq!(code.last().unwrap(), "mov [r15 + 8], rax");
    let before = gen;
    assert_eq!(
        compile_define("c", &id("nope"), &defines, &ctx, &mut gen).err().unwrap().message(),
        "Unbound variable identifier nope"
    );
    assert_eq!(gen, before);
}

#[test]
fn a_function_body_may_not_be_the_input() {
    assert!(check_no_input(&Expr::Number(1)).is_ok());
    assert!(check_no_input(&Expr::UnOp(Op1::Add1, Box::new(Expr::Input))).is_ok());
    assert_eq!(
        check_no_input(&Expr::Input).err().unwrap().message(),
        "input not allowed in function definitions"
    );
    let program = Program { defns: vec![fun("f", &[], Expr::Input)], main: Expr::Number(1) };
    assert_eq!(compile(&program).err().unwrap().message(), "input not allowed in function definitions");
}

#[test]
fn programs_compile_to_text() {
    let program = Program {
        defns: vec![fun("id", &["x"], *id("x"))],
        main: Expr::Call("id".to_string(), vec![Expr::Input]),
    };
    let text = compile(&program).ok().unwrap();
    let expected = "\
fun_id:
  push rbp
  mov rbp, rsp
  mov rax, [rbp + 16]
  mov rsp, rbp
  pop rbp
  ret
our_code_starts_here:
  push rbp
  mov rbp, rsp
  mov [r15 + 0], rdi
  mov rax, [r15 + 0]
  push rax
  call fun_id
  add rsp, 8
  mov rsp, rbp
  pop rbp
  ret

error_overflow:
  mov rdi, 1
  call snek_error
  ret

error_invalid_argument:
  mov rdi, 2
  call snek_error
  ret

error_bad_cast:
  mov rdi, 3
  call snek_error
  ret
";
    assert_eq!(text, expected);
    let code = compile_program(&program).ok().unwrap();
    assert_eq!(code.len(), 18);
    assert!(text.starts_with(&render(&code)));
    assert_eq!(error_handlers().len(), 12);
}

#[test]
fn every_error_has_a_message() {
    assert_eq!(CompileError::UnboundVariable("x".to_string()).message(), "Unbound variable identifier x");
    assert_eq!(CompileError::DuplicateBinding.message(), "Duplicate binding");
    assert_eq!(CompileError::BreakOutsideLoop.message(), "break outside of loop");
    assert_eq!(CompileError::UndefinedFunction("f".to_string()).message(), "Undefined function: f");
    assert_eq!(
        CompileError::WrongArity { name: "f".to_string(), expected: 10, got: 0 }.message(),
        "Wrong number of arguments for f: expected 10, got 0"
    );
    assert_eq!(CompileError::DuplicateFunction("f".to_string()).message(), "Duplicate function definition: f");
    assert_eq!(CompileError::InputInFunction.message(), "input not allowed in function definitions");
    assert_eq!(CompileError::NumberOutOfRange(1 << 30).message(), "Invalid: number out of range");
    assert_eq!(CompileError::LimitExceeded.message(), "Invalid: program too large");
}

#[test]
fn slots_run_out_at_the_bottom_of_the_frame() {
    let ctx = FunContext::new(&[]).ok().unwrap();
    let empty = im::HashMap::new();
    let mut gen = CodeGen::new();
    let sum = Expr::BinOp(Op2::Plus, num(1), num(2));
    let r = compile_to_instrs(&sum, i32::MIN + 7, &empty, &empty, &ctx, true, &None, &mut gen);
    assert_eq!(r.err().unwrap().message(), "Invalid: program too large");
    let ok = compile_to_instrs(&sum, i32::MIN + 8, &empty, &empty, &ctx, true, &None, &mut gen).ok().unwrap();
    assert_eq!(ok.1, i32::MIN);
    let mut full = CodeGen { label_counter: u64::MAX - 1, heap_offset: 0, input_heap_offset: None };
    let branch = Expr::If(Box::new(Expr::Boolean(true)), num(1), num(2));
    let r = compile_to_instrs(&branch, -8, &empty, &empty, &ctx, true, &None, &mut full);
    assert_eq!(r.err().unwrap().message(), "Invalid: program too large");
    assert_eq!(full.label_counter, u64::MAX - 1);
}
