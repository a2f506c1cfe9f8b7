// Runs planned code on a small model of the machine: sixteen registers,
// three flags, a memory of words, and the two helpers that generated code
// calls. It is what a host with a real assembler does, step by step.

use std::collections::HashMap;

use snek::helpers::{parse_input, print_result, show_word};
use snek::jit::{compile_to_jit, AluOp, Cond, LabelTable, Lowered};
use snek::parser::{read_entry, read_program};
use snek::repl::{Outcome, Pending, Session, Step};

const STACK_TOP: i64 = 1 << 24;
const HEAP_BASE: i64 = 1 << 28;
const PRINT: usize = 0;
const FAULT: usize = 1;
const DONE: i64 = -1;

struct Host {
    ops: Vec<Lowered>,
    bound: Vec<Option<usize>>,
    mem: HashMap<i64, i64>,
    printed: Vec<String>,
}

struct Flags {
    zero: bool,
    sign: bool,
    overflow: bool,
}

fn holds(cond: Cond, f: &Flags) -> bool {
    match cond {
        Cond::Always => true,
        Cond::Equal => f.zero,
        Cond::NotEqual => !f.zero,
        Cond::Greater => !f.zero && f.sign == f.overflow,
        Cond::GreaterEqual => f.sign == f.overflow,
        Cond::Less => f.sign != f.overflow,
        Cond::LessEqual => f.zero || f.sign != f.overflow,
        Cond::Overflow => f.overflow,
    }
}

impl Host {
    fn new() -> Host {
        Host { ops: Vec::new(), bound: Vec::new(), mem: HashMap::new(), printed: Vec::new() }
    }

    fn assemble(&mut self, plan: &[Lowered]) -> usize {
        let start = self.ops.len();
        for op in plan {
            if let Lowered::Bind(id) = op {
                if self.bound.len() <= *id {
                    self.bound.resize(*id + 1, None);
                }
                assert!(self.bound[*id].is_none(), "label {} bound twice", id);
                self.bound[*id] = Some(self.ops.len());
            }
            self.ops.push(*op);
        }
        start
    }

    fn target(&self, id: usize) -> usize {
        self.bound.get(id).copied().flatten().expect("jump to a label that is not bound")
    }

    fn load(&self, addr: i64) -> i64 {
        self.mem.get(&addr).copied().unwrap_or(0)
    }

    fn alu(op: AluOp, a: i64, b: i64, f: &mut Flags) -> Option<i64> {
        let (r, of, keep) = match op {
            AluOp::Add => {
                let (r, of) = a.overflowing_add(b);
                (r, of, true)
            }
            AluOp::Sub => {
                let (r, of) = a.overflowing_sub(b);
                (r, of, true)
            }
            AluOp::IMul => {
                let (r, of) = a.overflowing_mul(b);
                (r, of, true)
            }
            AluOp::Cmp => {
                let (r, of) = a.overflowing_sub(b);
                (r, of, false)
            }
            AluOp::Test => (a & b, false, false),
            AluOp::Or => (a | b, false, true),
            AluOp::Xor => (a ^ b, false, true),
        };
        f.zero = r == 0;
        f.sign = r < 0;
        f.overflow = of;
        if keep {
            Some(r)
        } else {
            None
        }
    }

    fn run(&mut self, start: usize, rdi: i64) -> Result<i64, i64> {
        let mut regs = [0i64; 16];
        let mut f = Flags { zero: false, sign: false, overflow: false };
        regs[4] = STACK_TOP - 8;
        regs[15] = HEAP_BASE;
        regs[7] = rdi;
        self.mem.insert(regs[4], DONE);
        let mut pc = start;
        let mut steps = 0u64;
        loop {
            steps += 1;
            assert!(steps < 5_000_000, "the code does not end");
            let op = self.ops[pc];
            pc += 1;
            match op {
                Lowered::Skip | Lowered::Bind(_) => {}
                Lowered::MovRegImm { dst, imm } => regs[dst as usize] = imm,
                Lowered::MovRegReg { dst, src } => regs[dst as usize] = regs[src as usize],
                Lowered::MovRegMem { dst, base, disp } => {
                    regs[dst as usize] = self.load(regs[base as usize] + disp as i64)
                }
                Lowered::MovMemReg { base, disp, src } => {
                    self.mem.insert(regs[base as usize] + disp as i64, regs[src as usize]);
                }
                Lowered::MovMemImm { base, disp, imm } => {
                    self.mem.insert(regs[base as usize] + disp as i64, imm as i64);
                }
                Lowered::AluRegImm { op, dst, imm } => {
                    if let Some(r) = Host::alu(op, regs[dst as usize], imm as i64, &mut f) {
                        regs[dst as usize] = r;
                    }
                }
                Lowered::AluRegReg { op, dst, src } => {
                    if let Some(r) = Host::alu(op, regs[dst as usize], regs[src as usize], &mut f) {
                        regs[dst as usize] = r;
                    }
                }
                Lowered::AluRegMem { op, dst, base, disp } => {
                    let b = self.load(regs[base as usize] + disp as i64);
                    if let Some(r) = Host::alu(op, regs[dst as usize], b, &mut f) {
                        regs[dst as usize] = r;
                    }
                }
                Lowered::CMov { cond, dst, src } => {
                    if holds(cond, &f) {
                        regs[dst as usize] = regs[src as usize];
                    }
                }
                Lowered::Sar { dst, count } => regs[dst as usize] >>= count,
                Lowered::Jump { cond, target } => {
                    if holds(cond, &f) {
                        pc = self.target(target);
                    }
                }
                Lowered::Call(id) => {
                    if id == PRINT {
                        self.printed.push(show_word(regs[7]));
                        regs[0] = regs[7];
                    } else if id == FAULT {
                        return Err(regs[7]);
                    } else {
                        regs[4] -= 8;
                        self.mem.insert(regs[4], pc as i64);
                        pc = self.target(id);
                    }
                }
                Lowered::Ret => {
                    let back = self.load(regs[4]);
                    regs[4] += 8;
                    if back == DONE {
                        return Ok(regs[0]);
                    }
                    pc = back as usize;
                }
                Lowered::Push(r) => {
                    regs[4] -= 8;
                    self.mem.insert(regs[4], regs[r as usize]);
                }
                Lowered::Pop(r) => {
                    regs[r as usize] = self.load(regs[4]);
                    regs[4] += 8;
                }
            }
        }
    }
}

/// Compiles and runs a whole program on the input; the shown result, or the
/// code of the run-time error.
fn run_program(source: &str, input: &str) -> Result<String, i64> {
    let program = read_program(&format!("({})", source)).expect("the program parses");
    let mut table = LabelTable::new();
    assert_eq!(table.intern(&"_snek_print".to_string()), PRINT);
    assert_eq!(table.intern(&"snek_error".to_string()), FAULT);
    let plan = compile_to_jit(&program, &mut table).expect("the program compiles");
    let mut host = Host::new();
    host.assemble(&plan);
    let entry = table.get(&"our_code_starts_here".to_string()).expect("an entry point");
    let start = host.target(entry);
    let word = host.run(start, parse_input(input).expect("a valid input"))?;
    Ok(print_result(word).expect("a tagged value"))
}

struct Repl {
    session: Session,
    host: Host,
}

impl Repl {
    fn new(typecheck: bool) -> Repl {
        let mut session = Session::new(typecheck);
        let mut host = Host::new();
        let prelude = session.prelude().expect("the shared handlers lower");
        host.assemble(&prelude);
        Repl { session, host }
    }

    fn feed(&mut self, line: &str) -> String {
        let entry = match read_entry(line) {
            Ok(entry) => entry,
            Err(message) => return message,
        };
        match self.session.begin(entry) {
            Step::Reject(line) => line,
            Step::Run { plan, ticket } => {
                let start = self.host.assemble(&plan);
                let outcome = match ticket.kind {
                    Pending::Fun(_) => Outcome::Assembled,
                    _ => match self.host.run(start, 0) {
                        Ok(word) => Outcome::Returned(word),
                        Err(code) => Outcome::Faulted(code),
                    },
                };
                self.session.finish(ticket, outcome)
            }
        }
    }
}

#[test]
fn test_input() {
    assert_eq!(run_program("input", "2"), Ok("2".to_string()));
}

#[test]
fn test_input_tc() {
    assert_eq!(run_program("input", "false"), Ok("false".to_string()));
}

#[test]
fn test_overflow_error() {
    assert_eq!(run_program("(+ input input)", "4611686018427387903"), Err(1));
    assert_eq!(run_program("(* input input)", "4611686018427387903"), Err(1));
}

#[test]
fn literals_come_back_as_written() {
    assert_eq!(run_program("2", "0"), Ok("2".to_string()));
    assert_eq!(run_program("true", "0"), Ok("true".to_string()));
    assert_eq!(run_program("false", "0"), Ok("false".to_string()));
    assert_eq!(run_program("-17", "0"), Ok("-17".to_string()));
    assert_eq!(run_program("1073741823", "0"), Ok("1073741823".to_string()));
    assert_eq!(run_program("-1073741824", "0"), Ok("-1073741824".to_string()));
}

#[test]
fn inputs_over_the_whole_range_come_back() {
    for text in ["0", "-1", "4611686018427387903", "-4611686018427387904", "123456789012345"] {
        assert_eq!(run_program("input", text), Ok(text.to_string()));
    }
}

#[test]
fn add1_undoes_sub1() {
    for text in ["0", "5", "-5", "4611686018427387903", "-4611686018427387903"] {
        assert_eq!(run_program("(add1 (sub1 input))", text), Ok(text.to_string()));
    }
    assert_eq!(run_program("(add1 (sub1 input))", "-4611686018427387904"), Err(1));
}

#[test]
fn add1_and_sub1_refuse_booleans() {
    assert_eq!(run_program("(add1 input)", "true"), Err(2));
    assert_eq!(run_program("(sub1 input)", "false"), Err(2));
    assert_eq!(run_program("(add1 true)", "0"), Err(2));
}

#[test]
fn arithmetic_at_the_boundary_overflows() {
    assert_eq!(run_program("(+ input 1)", "4611686018427387903"), Err(1));
    assert_eq!(run_program("(add1 input)", "4611686018427387903"), Err(1));
    assert_eq!(run_program("(- input 1)", "-4611686018427387904"), Err(1));
    assert_eq!(run_program("(* input 2)", "4611686018427387903"), Err(1));
    assert_eq!(run_program("(+ input 1)", "4611686018427387902"), Ok("4611686018427387903".to_string()));
}

#[test]
fn arithmetic_and_comparisons() {
    assert_eq!(run_program("(+ 1 2)", "0"), Ok("3".to_string()));
    assert_eq!(run_program("(- 1 2)", "0"), Ok("-1".to_string()));
    assert_eq!(run_program("(* 6 7)", "0"), Ok("42".to_string()));
    assert_eq!(run_program("(* -6 7)", "0"), Ok("-42".to_string()));
    assert_eq!(run_program("(< 1 2)", "0"), Ok("true".to_string()));
    assert_eq!(run_program("(> 1 2)", "0"), Ok("false".to_string()));
    assert_eq!(run_program("(<= 2 2)", "0"), Ok("true".to_string()));
    assert_eq!(run_program("(>= 1 2)", "0"), Ok("false".to_string()));
    assert_eq!(run_program("(= 3 3)", "0"), Ok("true".to_string()));
    assert_eq!(run_program("(= 3 true)", "0"), Ok("false".to_string()));
    assert_eq!(run_program("(< 1 true)", "0"), Err(2));
    assert_eq!(run_program("(+ true 1)", "0"), Err(2));
    assert_eq!(run_program("(- (* 3 4) (+ 1 (* 2 2)))", "0"), Ok("7".to_string()));
}

#[test]
fn predicates_and_casts() {
    assert_eq!(run_program("(isnum 5)", "0"), Ok("true".to_string()));
    assert_eq!(run_program("(isnum true)", "0"), Ok("false".to_string()));
    assert_eq!(run_program("(isbool 5)", "0"), Ok("false".to_string()));
    assert_eq!(run_program("(isbool false)", "0"), Ok("true".to_string()));
    assert_eq!(run_program("(cast Num 5)", "0"), Ok("5".to_string()));
    assert_eq!(run_program("(cast Num true)", "0"), Err(3));
    assert_eq!(run_program("(cast Bool true)", "0"), Ok("true".to_string()));
    assert_eq!(run_program("(cast Bool 1)", "0"), Err(3));
    assert_eq!(run_program("(cast Any 1)", "0"), Ok("1".to_string()));
    assert_eq!(run_program("(cast Nothing 1)", "0"), Err(3));
}

#[test]
fn bindings_branches_and_loops() {
    assert_eq!(run_program("(let ((x 5) (y (+ x 1))) (* x y))", "0"), Ok("30".to_string()));
    assert_eq!(run_program("(let (x 5) (let (x 6) x))", "0"), Ok("6".to_string()));
    assert_eq!(run_program("(if (< input 3) 10 20)", "2"), Ok("10".to_string()));
    assert_eq!(run_program("(if (< input 3) 10 20)", "3"), Ok("20".to_string()));
    assert_eq!(run_program("(if 7 10 20)", "3"), Ok("10".to_string()));
    assert_eq!(run_program("(block 1 2 3)", "0"), Ok("3".to_string()));
    assert_eq!(
        run_program(
            "(let ((i 0) (acc 1)) (loop (if (= i input) (break acc) (block (set! acc (* acc 2)) (set! i (add1 i))))))",
            "10"
        ),
        Ok("1024".to_string())
    );
    assert_eq!(
        run_program("(let (x 0) (loop (block (loop (break 1)) (set! x (+ x 1)) (if (> x 4) (break x) 0))))", "0"),
        Ok("5".to_string())
    );
}

#[test]
fn functions_and_calls() {
    let fact = "(fun (fact n) (if (< n 2) 1 (* n (fact (- n 1))))) (fact input)";
    assert_eq!(run_program(fact, "10"), Ok("3628800".to_string()));
    let sub = "(fun (f a b c) (- a (- b c))) (f 10 4 1)";
    assert_eq!(run_program(sub, "0"), Ok("7".to_string()));
    let nested = "(fun (g x) (+ x 1)) (fun (f a b) (+ (g a) (g b))) (+ (f 1 2) (f 3 4))";
    assert_eq!(run_program(nested, "0"), Ok("14".to_string()));
    let even = "(fun (even n) (if (= n 0) true (odd (- n 1)))) (fun (odd n) (if (= n 0) false (even (- n 1)))) (even input)";
    assert_eq!(run_program(even, "10"), Ok("true".to_string()));
    assert_eq!(run_program(even, "7"), Ok("false".to_string()));
    let overflow = "(fun (f x) (* x x)) (f input)";
    assert_eq!(run_program(overflow, "4611686018427387903"), Err(1));
}

#[test]
fn print_shows_and_returns_its_operand() {
    let program = read_program("((block (print 3) (print true) (+ (print 4) 1)))").unwrap();
    let mut table = LabelTable::new();
    table.intern(&"_snek_print".to_string());
    table.intern(&"snek_error".to_string());
    let plan = compile_to_jit(&program, &mut table).unwrap();
    let mut host = Host::new();
    host.assemble(&plan);
    let start = host.target(table.get(&"our_code_starts_here".to_string()).unwrap());
    assert_eq!(host.run(start, 0), Ok(10));
    assert_eq!(host.printed, vec!["3".to_string(), "true".to_string(), "4".to_string()]);
}

#[test]
fn test_simple_bools() {
    let mut repl = Repl::new(false);
    assert_eq!(repl.feed("(define x true)"), "x defined");
    assert_eq!(repl.feed("x"), "true");
    assert_eq!(repl.feed("false"), "false");
}

#[test]
fn test_define_and_use() {
    let mut repl = Repl::new(true);
    assert_eq!(repl.feed("(define a 10)"), "a defined");
    assert_eq!(repl.feed("(define b (+ a 5))"), "b defined");
    assert_eq!(repl.feed("(+ a b)"), "25");
}

#[test]
fn repl_complicated_tc() {
    let mut repl = Repl::new(true);
    assert_eq!(repl.feed("(define acc 0)"), "acc defined");
    assert_eq!(
        repl.feed("(fun (even (x : Num)) -> Num (set! acc (add1 acc)))"),
        "Function defined: even"
    );
    assert_eq!(
        repl.feed(
            "(fun (process (n : Num)) -> Num (let ((i 1))  (loop  (if (> i n) (break acc) (block (even i) (set! i (+ i 1)))))))"
        ),
        "Function defined: process"
    );
    assert_eq!(repl.feed("(process 7)"), "7");
    assert_eq!(repl.feed("(process 14)"), "21");
    assert_eq!(repl.feed("(even 15)"), "22");
    assert_eq!(
        repl.feed("(block (print 3) (+ 1 true))"),
        "Type error: arithmetic requires Num, got Bool"
    );
    assert!(repl.host.printed.is_empty());
    assert_eq!(repl.feed("(even true)"), "Type error: argument has type Bool, expected Num");
    assert_eq!(repl.feed("acc"), "22");
}

#[test]
fn test_parse_error() {
    let mut repl = Repl::new(false);
    assert_eq!(repl.feed("(let (x 1)"), "Invalid: parse error");
    assert_eq!(repl.feed("(let)"), "Invalid");
    assert_eq!(repl.feed("(let ((if 1)) 2)"), "Invalid");
    assert_eq!(repl.feed("(+ 1)"), "Invalid");
}

#[test]
fn a_name_is_defined_once() {
    let mut repl = Repl::new(false);
    assert_eq!(repl.feed("(define x 5)"), "x defined");
    assert_eq!(repl.feed("(define x 6)"), "Duplicate binding");
    assert_eq!(repl.feed("x"), "5");
    assert_eq!(repl.feed("(fun (f a) (+ a x))"), "Function defined: f");
    assert_eq!(repl.feed("(fun (f a) a)"), "Duplicate function definition: f");
    assert_eq!(repl.feed("(f 1)"), "6");
}

#[test]
fn a_fault_abandons_only_its_input() {
    let mut repl = Repl::new(false);
    assert_eq!(repl.feed("(define x 5)"), "x defined");
    assert_eq!(repl.feed("(define y (+ x true))"), "invalid argument");
    assert_eq!(repl.feed("y"), "Invalid");
    assert_eq!(repl.feed("(define y (+ x 1))"), "y defined");
    assert_eq!(repl.feed("(* 4611686018427387903 2)"), "Invalid");
    assert_eq!(repl.feed("(+ (* 1073741823 1073741823) (* 1073741823 1073741823))"), "2305843004918726658");
    assert_eq!(repl.feed("(* (* (* 1073741823 1073741823) 1073741823) 1073741823)"), "overflow");
    assert_eq!(repl.feed("(cast Bool x)"), "bad cast");
    assert_eq!(repl.feed("(+ x y)"), "11");
}

#[test]
fn a_fault_in_a_function_reaches_its_caller() {
    let mut repl = Repl::new(false);
    assert_eq!(repl.feed("(fun (square x) (* x x))"), "Function defined: square");
    assert_eq!(repl.feed("(square (square (square 1073741823)))"), "overflow");
    assert_eq!(repl.feed("(square 12)"), "144");
    assert_eq!(repl.feed("(square true)"), "invalid argument");
}

#[test]
fn static_errors_in_a_session_leave_it_as_it_was() {
    let mut repl = Repl::new(false);
    assert_eq!(repl.feed("(break 1)"), "Invalid");
    assert_eq!(repl.feed("(f 1)"), "Invalid");
    assert_eq!(repl.feed("y"), "Invalid");
    assert_eq!(repl.feed("(let ((a 1) (a 2)) a)"), "Invalid");
    assert_eq!(repl.feed("(fun (f x) (g x))"), "Invalid");
    assert_eq!(repl.feed("(fun (f x) input)"), "Invalid: input not allowed in function definitions");
    assert_eq!(repl.feed("(fun (f x) (f x 1))"), "Invalid");
    assert_eq!(repl.feed("(fun (f x) (+ x 1))"), "Function defined: f");
    assert_eq!(repl.feed("(f 1 2)"), "Invalid");
    assert_eq!(repl.feed("(f 1)"), "2");
    assert_eq!(repl.feed("input"), "false");
}

#[test]
fn recursion_in_a_session() {
    let mut repl = Repl::new(true);
    assert_eq!(
        repl.feed("(fun (fact (n : Num)) -> Num (if (< n 2) 1 (* n (fact (- n 1)))))"),
        "Function defined: fact"
    );
    assert_eq!(repl.feed("(fact 5)"), "120");
    assert_eq!(
        repl.feed("(fun (bad (n : Num)) -> Bool (+ n 1))"),
        "Type error: function bad body has type Num but declared Bool"
    );
    assert_eq!(repl.feed("(bad 1)"), "Type error: undefined function bad");
}
