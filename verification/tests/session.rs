use snek::ast::{Expr, FunDefn, ReplEntry, Type};
use snek::compiler::CodeGen;
use snek::instr::{instr_to_str, Instr};
use snek::jit::Lowered;
use snek::parser::read_entry;
use snek::repl::{
    contains_input, define_segment, expr_segment, retarget_code, Outcome, Pending, Session, Step,
};

fn entry(text: &str) -> ReplEntry {
    read_entry(text).unwrap()
}

fn expr(text: &str) -> Expr {
    match entry(text) {
        ReplEntry::Expr(e) => e,
        other => panic!("{:?}", other),
    }
}

fn lines(code: &[Instr]) -> Vec<String> {
    code.iter().map(|i| instr_to_str(i).trim().to_string()).collect()
}

fn names(s: &Session) -> Vec<String> {
    s.functions.iter().map(|f| f.name.clone()).collect()
}

/// Plans `text` and reports that its segment ran and returned `word`.
fn accept(s: &mut Session, text: &str, word: i64) -> String {
    match s.begin(entry(text)) {
        Step::Run { ticket, .. } => {
            let outcome = match ticket.kind {
                Pending::Fun(_) => Outcome::Assembled,
                _ => Outcome::Returned(word),
            };
            s.finish(ticket, outcome)
        }
        Step::Reject(line) => panic!("rejected: {}", line),
    }
}

fn reject(s: &mut Session, text: &str) -> String {
    let labels = s.labels.names.clone();
    let gen = s.gen;
    let segments = s.segments;
    let functions = names(s);
    let defines = s.defines.clone();
    let types = s.define_types.clone();
    match s.begin(entry(text)) {
        Step::Reject(line) => {
            assert_eq!(s.labels.names, labels);
            assert_eq!(s.gen, gen);
            assert_eq!(s.segments, segments);
            assert_eq!(names(s), functions);
            assert_eq!(s.defines, defines);
            assert_eq!(s.define_types, types);
            line
        }
        Step::Run { .. } => panic!("planned"),
    }
}

#[test]
fn input_is_found_anywhere() {
    assert!(contains_input(&expr("input")));
    assert!(contains_input(&expr("(add1 input)")));
    assert!(contains_input(&expr("(+ 1 input)")));
    assert!(contains_input(&expr("(+ input 1)")));
    assert!(contains_input(&expr("(if true 1 input)")));
    assert!(contains_input(&expr("(if input 1 2)")));
    assert!(contains_input(&expr("(let ((x 1) (y input)) x)")));
    assert!(contains_input(&expr("(let ((x 1)) input)")));
    assert!(contains_input(&expr("(block 1 input 2)")));
    assert!(contains_input(&expr("(set! x input)")));
    assert!(contains_input(&expr("(loop (break input))")));
    assert!(contains_input(&expr("(f 1 (g input))")));
    assert!(contains_input(&expr("(cast Num input)")));
    assert!(!contains_input(&expr("(let ((x 1)) (block (f x) (loop (break (+ x 1)))))")));
    assert!(!contains_input(&expr("inputs")));
}

#[test]
fn a_new_session_knows_the_two_helpers() {
    let mut s = Session::new(true);
    assert!(s.typecheck);
    assert_eq!(s.labels.names, ["_snek_print", "snek_error"]);
    assert_eq!(s.gen, CodeGen::new());
    assert_eq!(s.segments, 0);
    let plan = s.prelude().ok().unwrap();
    assert_eq!(
        s.labels.names,
        ["_snek_print", "snek_error", "error_overflow", "error_invalid_argument", "error_bad_cast"]
    );
    assert_eq!(
        plan,
        [
            Lowered::Bind(2),
            Lowered::MovRegImm { dst: 7, imm: 1 },
            Lowered::Call(1),
            Lowered::Ret,
            Lowered::Bind(3),
            Lowered::MovRegImm { dst: 7, imm: 2 },
            Lowered::Call(1),
            Lowered::Ret,
            Lowered::Bind(4),
            Lowered::MovRegImm { dst: 7, imm: 3 },
            Lowered::Call(1),
            Lowered::Ret,
        ]
    );
}

#[test]
fn jumps_to_handlers_are_retargeted() {
    let code = vec![
        Instr::IJo("error_overflow".to_string()),
        Instr::IJne("error_invalid_argument".to_string()),
        Instr::IJe("error_bad_cast".to_string()),
        Instr::IJmp("error_bad_cast".to_string()),
        Instr::IJmp("else_1".to_string()),
        Instr::ILabel("error_overflow".to_string()),
        Instr::ICall("error_overflow".to_string()),
    ];
    assert_eq!(
        lines(&retarget_code(&code, 7)),
        [
            "jo error_overflow_7",
            "jne error_invalid_argument_7",
            "je error_bad_cast_7",
            "jmp error_bad_cast_7",
            "jmp else_1",
            "error_overflow:",
            "call error_overflow",
        ]
    );
}

#[test]
fn an_expression_segment_has_handlers_of_its_own() {
    let ctx = snek::compiler::FunContext::new(&[]).ok().unwrap();
    let mut gen = CodeGen::new();
    let code = expr_segment(&expr("(add1 input)"), &im::HashMap::new(), &ctx, &mut gen, 3).ok().unwrap();
    assert_eq!(
        lines(&code),
        [
            "push rbp",
            "mov rbp, rsp",
            "mov [r15 + 0], 3",
            "mov rax, [r15 + 0]",
            "test rax, 1",
            "jne error_invalid_argument_3",
            "add rax, 2",
            "jo error_overflow_3",
            "mov rsp, rbp",
            "pop rbp",
            "ret",
            "error_overflow_3:",
            "mov rdi, 1",
            "call snek_error",
            "ret",
            "error_invalid_argument_3:",
            "mov rdi, 2",
            "call snek_error",
            "ret",
            "error_bad_cast_3:",
            "mov rdi, 3",
            "call snek_error",
            "ret",
        ]
    );
    assert_eq!(gen, CodeGen { label_counter: 0, heap_offset: 8, input_heap_offset: Some(0) });
}

#[test]
fn a_definition_segment_stores_to_its_slot() {
    let ctx = snek::compiler::FunContext::new(&[]).ok().unwrap();
    let mut gen = CodeGen { label_counter: 0, heap_offset: 16, input_heap_offset: Some(0) };
    let (off, code) =
        define_segment(&expr("(< 1 2)"), &im::HashMap::new(), &ctx, &mut gen, 1).ok().unwrap();
    assert_eq!(off, 16);
    assert_eq!(gen.heap_offset, 24);
    let text = lines(&code);
    assert_eq!(text[..3], ["push rbp", "mov rbp, rsp", "sub rsp, 16"]);
    let store = text.iter().position(|l| l == "mov [r15 + 16], rax").unwrap();
    assert_eq!(text[store + 1..store + 4], ["mov rsp, rbp", "pop rbp", "ret"]);
    assert!(text.contains(&"jne error_invalid_argument_1".to_string()));
}

#[test]
fn a_definition_binds_its_name_when_it_has_run() {
    let mut s = Session::new(true);
    let step = s.begin(entry("(define x 5)"));
    let ticket = match step {
        Step::Run { plan, ticket } => {
            assert!(plan.contains(&Lowered::MovRegImm { dst: 0, imm: 10 }));
            assert!(plan.contains(&Lowered::MovMemReg { base: 15, disp: 0, src: 0 }));
            ticket
        }
        Step::Reject(line) => panic!("{}", line),
    };
    assert!(matches!(&ticket.kind, Pending::Define { name, offset: 0, ty: Some(Type::Num) } if name == "x"));
    assert_eq!(ticket.labels_before, 2);
    assert_eq!(ticket.gen_before, CodeGen::new());
    assert!(s.defines.is_empty());
    assert_eq!(s.segments, 1);
    assert_eq!(s.gen.heap_offset, 8);
    assert_eq!(s.finish(ticket, Outcome::Returned(10)), "x defined");
    assert_eq!(s.defines.get("x"), Some(&0));
    assert_eq!(s.define_types.get("x"), Some(&Type::Num));
}

#[test]
fn without_type_checking_no_types_are_kept() {
    let mut s = Session::new(false);
    assert_eq!(accept(&mut s, "(define x (+ 1 true))", 0), "x defined");
    assert_eq!(s.defines.get("x"), Some(&0));
    assert!(s.define_types.is_empty());
}

#[test]
fn a_second_definition_of_a_name_is_rejected() {
    let mut s = Session::new(false);
    assert_eq!(accept(&mut s, "(define x 5)", 10), "x defined");
    assert_eq!(reject(&mut s, "(define x 6)"), "Duplicate binding");
    assert_eq!(s.defines.get("x"), Some(&0));
    assert_eq!(accept(&mut s, "(define y x)", 10), "y defined");
    assert_eq!(s.defines.get("y"), Some(&8));
    assert_eq!(accept(&mut s, "x", 10), "5");
}

#[test]
fn a_fault_keeps_nothing_of_the_input() {
    let mut s = Session::new(true);
    let ticket = match s.begin(entry("(define x (cast Num true))")) {
        Step::Run { ticket, .. } => ticket,
        Step::Reject(line) => panic!("{}", line),
    };
    assert_eq!(s.finish(ticket, Outcome::Faulted(3)), "bad cast");
    assert!(s.defines.is_empty());
    assert!(s.define_types.is_empty());
    assert_eq!(reject(&mut s, "x"), "Type error: unbound variable x");
    let ticket = match s.begin(entry("(+ 1 2)")) {
        Step::Run { ticket, .. } => ticket,
        Step::Reject(line) => panic!("{}", line),
    };
    assert_eq!(s.finish(ticket, Outcome::Faulted(1)), "overflow");
    let ticket = match s.begin(entry("(+ 1 2)")) {
        Step::Run { ticket, .. } => ticket,
        Step::Reject(line) => panic!("{}", line),
    };
    assert_eq!(s.finish(ticket, Outcome::Faulted(9)), "unknown error code: 9");
}

#[test]
fn a_segment_that_is_not_assembled_is_rolled_back() {
    let mut s = Session::new(false);
    s.prelude().ok().unwrap();
    let labels = s.labels.names.clone();
    let gen = s.gen;
    let ticket = match s.begin(entry("(fun (f x) (if x 1 2))")) {
        Step::Run { ticket, .. } => ticket,
        Step::Reject(line) => panic!("{}", line),
    };
    assert!(s.labels.names.len() > labels.len());
    assert!(s.labels.names.contains(&"fun_f".to_string()));
    assert_eq!(s.gen.label_counter, 2);
    assert!(s.functions.is_empty());
    assert_eq!(s.finish(ticket, Outcome::AssemblyFailed), "Invalid");
    assert_eq!(s.labels.names, labels);
    assert_eq!(s.gen, gen);
    assert!(s.functions.is_empty());
    assert_eq!(reject(&mut s, "(f 1)"), "Invalid");
    assert_eq!(accept(&mut s, "(fun (f x) (if x 1 2))", 0), "Function defined: f");
    assert_eq!(names(&s), ["f"]);
}

#[test]
fn functions_use_the_shared_handlers() {
    let mut s = Session::new(false);
    s.prelude().ok().unwrap();
    let plan = match s.begin(entry("(fun (f x) (add1 x))")) {
        Step::Run { plan, .. } => plan,
        Step::Reject(line) => panic!("{}", line),
    };
    assert_eq!(s.segments, 0);
    assert_eq!(s.labels.names.len(), 6);
    assert_eq!(s.labels.names[5], "fun_f");
    assert_eq!(plan[0], Lowered::Bind(5));
    assert!(plan.contains(&Lowered::Jump { cond: snek::jit::Cond::Overflow, target: 2 }));
    assert!(plan.contains(&Lowered::Jump { cond: snek::jit::Cond::NotEqual, target: 3 }));
    assert_eq!(*plan.last().unwrap(), Lowered::Ret);
}

#[test]
fn every_expression_segment_gets_fresh_handlers() {
    let mut s = Session::new(false);
    s.prelude().ok().unwrap();
    assert_eq!(accept(&mut s, "(add1 1)", 4), "2");
    assert_eq!(accept(&mut s, "(add1 2)", 6), "3");
    assert_eq!(s.segments, 2);
    let fresh: Vec<&String> = s.labels.names.iter().filter(|n| n.starts_with("error_overflow")).collect();
    assert_eq!(fresh, ["error_overflow", "error_overflow_1", "error_overflow_2"]);
}

#[test]
fn static_errors_with_type_checking() {
    let mut s = Session::new(true);
    assert_eq!(accept(&mut s, "(define acc 0)", 0), "acc defined");
    assert_eq!(
        accept(&mut s, "(fun (even (x : Num)) -> Num (set! acc (add1 acc)))", 0),
        "Function defined: even"
    );
    assert_eq!(reject(&mut s, "(even true)"), "Type error: argument has type Bool, expected Num");
    assert_eq!(reject(&mut s, "(even)"), "Type error: wrong number of arguments");
    assert_eq!(reject(&mut s, "(odd 1)"), "Type error: undefined function odd");
    assert_eq!(reject(&mut s, "(set! acc true)"), "Type error: cannot assign Bool to Num");
    assert_eq!(reject(&mut s, "(define acc 1)"), "Duplicate binding");
    assert_eq!(reject(&mut s, "(define b (+ acc true))"), "Type error: arithmetic requires Num, got Bool");
    assert_eq!(reject(&mut s, "(add1 input)"), "Type error: add1/sub1 requires Num, got Bool");
    assert_eq!(reject(&mut s, "(fun (even x) x)"), "Duplicate function definition: even");
    assert_eq!(
        reject(&mut s, "(fun (g (x : Num)) -> Bool x)"),
        "Type error: function g body has type Num but declared Bool"
    );
    assert_eq!(reject(&mut s, "(fun (g x) (+ x input))"), "Invalid: input not allowed in function definitions");
    assert_eq!(reject(&mut s, "(break 1)"), "Invalid");
    assert_eq!(names(&s), ["even"]);
    assert_eq!(s.define_types.get("acc"), Some(&Type::Num));
}

#[test]
fn the_line_for_a_result() {
    let mut s = Session::new(false);
    assert_eq!(accept(&mut s, "1", 2), "1");
    assert_eq!(accept(&mut s, "1", 1), "true");
    assert_eq!(accept(&mut s, "1", 3), "false");
    assert_eq!(accept(&mut s, "1", -8), "-4");
    assert_eq!(accept(&mut s, "1", 7), "Unknown value: 7");
    let ticket = match s.begin(entry("1")) {
        Step::Run { ticket, .. } => ticket,
        Step::Reject(line) => panic!("{}", line),
    };
    assert_eq!(s.finish(ticket, Outcome::Assembled), "");
}

#[test]
fn definitions_may_be_given_directly() {
    let mut s = Session::new(true);
    let f = FunDefn {
        name: "f".to_string(),
        params: vec!["x".to_string()],
        body: Box::new(Expr::Id("x".to_string())),
        param_types: Some(vec![Type::Bool]),
        return_type: Some(Type::Bool),
    };
    match s.begin(ReplEntry::FunDefn(f.clone())) {
        Step::Run { ticket, .. } => {
            assert!(matches!(&ticket.kind, Pending::Fun(d) if d.name == "f"));
            assert_eq!(s.finish(ticket, Outcome::Assembled), "Function defined: f");
        }
        Step::Reject(line) => panic!("{}", line),
    }
    assert!(matches!(s.begin(ReplEntry::FunDefn(f)), Step::Reject(line) if line == "Duplicate function definition: f"));
    assert!(matches!(
        s.begin(ReplEntry::Define("d".to_string(), Box::new(Expr::Number(1 << 30)))),
        Step::Reject(line) if line == "Invalid"
    ));
}

#[test]
fn a_function_may_be_given_by_its_parts() {
    let mut s = Session::new(true);
    let entry = ReplEntry::Fun(
        "twice".to_string(),
        vec!["x".to_string()],
        Expr::BinOp(
            snek::ast::Op2::Plus,
            Box::new(Expr::Id("x".to_string())),
            Box::new(Expr::Id("x".to_string())),
        ),
        Some(vec![Type::Num]),
        Some(Type::Num),
    );
    match s.begin(entry) {
        Step::Run { ticket, .. } => {
            assert_eq!(s.finish(ticket, Outcome::Assembled), "Function defined: twice");
        }
        Step::Reject(line) => panic!("{}", line),
    }
    assert_eq!(names(&s), ["twice"]);
    assert_eq!(s.functions[0].param_types, Some(vec![Type::Num]));
}

#[test]
fn a_type_error_in_a_loop_is_rejected_in_a_session() {
    let mut s = Session::new(true);
    assert_eq!(reject(&mut s, "(loop (+ 1 true))"), "Type error: arithmetic requires Num, got Bool");
    assert_eq!(reject(&mut s, "(loop (loop (break nope)))"), "Type error: unbound variable nope");
    assert_eq!(
        reject(&mut s, "(define x (loop (block (add1 false) (break 1))))"),
        "Type error: add1/sub1 requires Num, got Bool"
    );
    assert_eq!(
        reject(&mut s, "(fun (f (x : Num)) -> Num (loop (block (< x true) (break x))))"),
        "Type error: comparison requires Num"
    );
    assert_eq!(accept(&mut s, "(fun (f (x : Num)) -> Num (loop (block (< x 1) (break x))))", 0), "Function defined: f");
    assert_eq!(accept(&mut s, "(loop (break (f 1)))", 2), "1");
}
