//! What abstract instructions do: a model of the machine, and what small
//! programs compute on it.
//!
//! The model is a processor with the registers of the instruction model,
//! three flags and a memory of 64-bit words. It gives every abstract
//! instruction the meaning that the machine instruction of the same name
//! has, as far as generated code relies on it. The two helpers that
//! generated code calls are part of the model: the print helper records the
//! word it is given, the fault reporter ends the run with the code it is
//! given. Nothing here is executable: the model is there to state what the
//! generated code of a program computes.

use vstd::prelude::*;
use crate::ast::{ExprView, FunDefnView, Op1, Op2, ProgramView};
use crate::ast::Type;
use crate::compiler::{
    is_ordering, min32, slot, spec_binop_code, spec_both_numeric_code, spec_cast_code,
    spec_compile, spec_compile_functions, spec_compile_main, spec_error_handlers,
    spec_frame_size, spec_fun_table, spec_handler, spec_program_code, spec_select,
    spec_unop_code, CodeGen, Compiled,
};
use crate::compiler::{fun_label, max_args, spec_compile_function, spec_param_offsets};
use crate::helpers::{decode, encode, spec_print_result, Value, MAX_INT, MIN_INT};
use crate::text::int_text;
use crate::instr::{InstrView, Reg, Val};

verus! {

/// The state of the processor.
pub struct Cpu {
    pub regs: Map<Reg, i64>,
    /// The word at each address.
    pub mem: Map<int, i64>,
    /// Whether the last result was zero.
    pub zero: bool,
    /// Whether the last result was negative.
    pub sign: bool,
    /// Whether the last result left the range of a word.
    pub overflow: bool,
    /// The words handed to the print helper, in order.
    pub printed: Seq<i64>,
}

/// How a run ends.
pub enum Outcome {
    /// The code returned to the host, in this state.
    Returned(Cpu),
    /// The fault reporter was called with this code.
    Fault(i64),
    /// The code went wrong: an operand that cannot be written, a jump to a
    /// label that is not defined, or control left the code.
    Stuck,
    /// The run was cut off.
    Unfinished,
}

/// What one instruction leads to.
pub enum Step {
    /// The run goes on at this position in this state.
    Next(int, Cpu),
    Stop(Outcome),
}

/// The return address that the host leaves on the stack.
pub open spec fn host() -> i64 {
    -1i64
}

/// The value of an operand.
pub open spec fn load(st: Cpu, v: Val) -> i64 {
    match v {
        Val::Reg(r) => st.regs[r],
        Val::Imm(n) => n as i64,
        Val::RegOffset(r, off) => st.mem[st.regs[r] + off],
    }
}

/// The state after `x` is written to an operand; an immediate cannot be
/// written.
pub open spec fn store(st: Cpu, d: Val, x: i64) -> Option<Cpu> {
    match d {
        Val::Reg(r) => Some(Cpu { regs: st.regs.insert(r, x), ..st }),
        Val::RegOffset(r, off) => Some(Cpu { mem: st.mem.insert(st.regs[r] + off, x), ..st }),
        Val::Imm(_) => None,
    }
}

/// The state with the flags of an operation whose exact result is `exact`.
pub open spec fn with_flags(st: Cpu, exact: int) -> Cpu {
    Cpu {
        zero: (exact as i64) == 0,
        sign: (exact as i64) < 0,
        overflow: exact < i64::MIN || exact > i64::MAX,
        ..st
    }
}

/// An operation that writes its result and sets the flags.
pub open spec fn compute(pc: int, st: Cpu, d: Val, exact: int) -> Step {
    match store(with_flags(st, exact), d, exact as i64) {
        Some(after) => Step::Next(pc + 1, after),
        None => Step::Stop(Outcome::Stuck),
    }
}

/// A move of `x` to `d` if `cond` holds.
pub open spec fn move_if(pc: int, st: Cpu, cond: bool, d: Val, x: i64) -> Step {
    if cond {
        match store(st, d, x) {
            Some(after) => Step::Next(pc + 1, after),
            None => Step::Stop(Outcome::Stuck),
        }
    } else {
        Step::Next(pc + 1, st)
    }
}

/// The first position at or after `from` at which `code` defines the label
/// `l`.
pub open spec fn label_position(code: Seq<InstrView>, l: Seq<char>, from: int) -> Option<int>
    decreases code.len() - from,
{
    if from < 0 || from >= code.len() {
        None
    } else if code[from] == InstrView::ILabel(l) {
        Some(from)
    } else {
        label_position(code, l, from + 1)
    }
}

/// A jump to the label `l` if `cond` holds.
pub open spec fn jump_if(code: Seq<InstrView>, pc: int, st: Cpu, cond: bool, l: Seq<char>) -> Step {
    if cond {
        match label_position(code, l, 0) {
            Some(k) => Step::Next(k, st),
            None => Step::Stop(Outcome::Stuck),
        }
    } else {
        Step::Next(pc + 1, st)
    }
}

/// The state after `x` is pushed on the stack.
pub open spec fn push(st: Cpu, x: i64) -> Cpu {
    let top = (st.regs[Reg::RSP] - 8) as i64;
    Cpu { regs: st.regs.insert(Reg::RSP, top), mem: st.mem.insert(top as int, x), ..st }
}

/// The word on top of the stack, and the state after it is popped.
pub open spec fn pop(st: Cpu) -> (i64, Cpu) {
    let top = st.regs[Reg::RSP];
    (st.mem[top as int], Cpu { regs: st.regs.insert(Reg::RSP, (top + 8) as i64), ..st })
}

/// What the instruction at `pc` does in the state `st`.
pub open spec fn step(code: Seq<InstrView>, pc: int, st: Cpu) -> Step {
    if pc < 0 || pc >= code.len() {
        Step::Stop(Outcome::Stuck)
    } else {
        match code[pc] {
            InstrView::IMov(d, s) => move_if(pc, st, true, d, load(st, s)),
            InstrView::IAdd(d, s) => compute(pc, st, d, load(st, d) + load(st, s)),
            InstrView::ISub(d, s) => compute(pc, st, d, load(st, d) - load(st, s)),
            InstrView::IMul(d, s) => compute(pc, st, d, load(st, d) * load(st, s)),
            InstrView::ICmp(d, s) => Step::Next(pc + 1, with_flags(st, load(st, d) - load(st, s))),
            InstrView::ITest(d, s) => Step::Next(
                pc + 1,
                with_flags(st, (load(st, d) & load(st, s)) as int),
            ),
            InstrView::IOr(d, s) => compute(pc, st, d, (load(st, d) | load(st, s)) as int),
            InstrView::IXor(d, s) => compute(pc, st, d, (load(st, d) ^ load(st, s)) as int),
            InstrView::ISar(d, s) => compute(pc, st, d, (load(st, d) >> load(st, s)) as int),
            InstrView::ICMovE(d, s) => move_if(pc, st, st.zero, d, load(st, s)),
            InstrView::ICMovNE(d, s) => move_if(pc, st, !st.zero, d, load(st, s)),
            InstrView::ICMovG(d, s) => move_if(
                pc,
                st,
                !st.zero && st.sign == st.overflow,
                d,
                load(st, s),
            ),
            InstrView::ICMovGE(d, s) => move_if(pc, st, st.sign == st.overflow, d, load(st, s)),
            InstrView::ICMovL(d, s) => move_if(pc, st, st.sign != st.overflow, d, load(st, s)),
            InstrView::ICMovLE(d, s) => move_if(
                pc,
                st,
                st.zero || st.sign != st.overflow,
                d,
                load(st, s),
            ),
            InstrView::ILabel(_) => Step::Next(pc + 1, st),
            InstrView::IComment(_) => Step::Next(pc + 1, st),
            InstrView::IJmp(l) => jump_if(code, pc, st, true, l),
            InstrView::IJe(l) => jump_if(code, pc, st, st.zero, l),
            InstrView::IJne(l) => jump_if(code, pc, st, !st.zero, l),
            InstrView::IJo(l) => jump_if(code, pc, st, st.overflow, l),
            InstrView::ICall(l) => if l == "snek_error"@ {
                Step::Stop(Outcome::Fault(st.regs[Reg::RDI]))
            } else if l == "_snek_print"@ {
                Step::Next(
                    pc + 1,
                    Cpu {
                        regs: st.regs.insert(Reg::RAX, st.regs[Reg::RDI]),
                        printed: st.printed.push(st.regs[Reg::RDI]),
                        ..st
                    },
                )
            } else {
                jump_if(code, pc, push(st, (pc + 1) as i64), true, l)
            },
            InstrView::IRet => {
                let (back, after) = pop(st);
                if back == host() {
                    Step::Stop(Outcome::Returned(after))
                } else {
                    Step::Next(back as int, after)
                }
            },
            InstrView::IPush(v) => Step::Next(pc + 1, push(st, load(st, v))),
            InstrView::IPop(d) => {
                let (x, after) = pop(st);
                move_if(pc, after, true, d, x)
            },
        }
    }
}

/// How the run from position `pc` in state `st` ends, if it ends within
/// `fuel` instructions.
#[verifier::opaque]
pub open spec fn run(code: Seq<InstrView>, pc: int, st: Cpu, fuel: nat) -> Outcome
    decreases fuel,
{
    if fuel == 0 {
        Outcome::Unfinished
    } else {
        match step(code, pc, st) {
            Step::Stop(outcome) => outcome,
            Step::Next(next, after) => run(code, next, after, (fuel - 1) as nat),
        }
    }
}

/// A run that has ended does not end otherwise with more fuel.
pub proof fn lemma_more_fuel(code: Seq<InstrView>, pc: int, st: Cpu, fuel: nat, more: nat)
    requires
        !(run(code, pc, st, fuel) is Unfinished),
        fuel <= more,
    ensures
        run(code, pc, st, more) == run(code, pc, st, fuel),
    decreases fuel,
{
    reveal_with_fuel(run, 2);
    if fuel > 0 {
        match step(code, pc, st) {
            Step::Stop(_) => {},
            Step::Next(next, after) => lemma_more_fuel(
                code,
                next,
                after,
                (fuel - 1) as nat,
                (more - 1) as nat,
            ),
        }
    }
}

/// The code of the program that has no functions and the main expression
/// `e`, with the handlers of run-time errors behind it: what the host
/// assembles and enters at its first instruction.
pub open spec fn program(e: ExprView) -> Seq<InstrView> {
    spec_program_code(ProgramView { defns: Seq::empty(), main: e })->Ok_0 + spec_error_handlers()
}

/// Whether the host has entered the code with `input` as the external input:
/// the input is in `rdi`, the host's return address is on top of the stack,
/// and the heap slot of the input lies outside the `room` bytes of stack
/// below that address, which do not wrap around.
pub open spec fn entered(st: Cpu, input: i64, room: int) -> bool {
    let sp = st.regs[Reg::RSP] as int;
    let heap = st.regs[Reg::R15] as int;
    &&& st.regs[Reg::RDI] == input
    &&& st.mem[sp] == host()
    &&& sp - room >= i64::MIN
    &&& (heap > sp || heap < sp - room)
}

/// What opens the entry point of a program.
pub open spec fn entry_code() -> Seq<InstrView> {
    seq![
        InstrView::ILabel("our_code_starts_here"@),
        InstrView::IPush(Val::Reg(Reg::RBP)),
        InstrView::IMov(Val::Reg(Reg::RBP), Val::Reg(Reg::RSP)),
        InstrView::IMov(Val::RegOffset(Reg::R15, 0), Val::Reg(Reg::RDI)),
    ]
}

/// What closes the entry point of a program.
pub open spec fn exit_code() -> Seq<InstrView> {
    seq![
        InstrView::IMov(Val::Reg(Reg::RSP), Val::Reg(Reg::RBP)),
        InstrView::IPop(Val::Reg(Reg::RBP)),
        InstrView::IRet,
    ]
}

/// The counters of the code generator when it comes to the main expression
/// of a program without functions: the input has the first heap slot.
pub open spec fn main_gen() -> CodeGen {
    CodeGen { label_counter: 0, heap_offset: 8, input_heap_offset: Some(0) }
}

/// A label is found at the first position that defines it.
pub proof fn lemma_label_found(code: Seq<InstrView>, l: Seq<char>, from: int, k: int)
    requires
        0 <= from <= k < code.len(),
        code[k] == InstrView::ILabel(l),
        forall|j: int| from <= j < k ==> code[j] != InstrView::ILabel(l),
    ensures
        label_position(code, l, from) == Some(k),
    decreases k - from,
{
    if from < k {
        lemma_label_found(code, l, from + 1, k);
    }
}

/// The labels of the entry point and of the three handlers are four
/// different texts.
pub proof fn lemma_fixed_labels_differ()
    ensures
        "our_code_starts_here"@ != "error_overflow"@,
        "our_code_starts_here"@ != "error_invalid_argument"@,
        "our_code_starts_here"@ != "error_bad_cast"@,
        "error_overflow"@ != "error_invalid_argument"@,
        "error_overflow"@ != "error_bad_cast"@,
        "error_invalid_argument"@ != "error_bad_cast"@,
{
    reveal_strlit("our_code_starts_here");
    reveal_strlit("error_overflow");
    reveal_strlit("error_invalid_argument");
    reveal_strlit("error_bad_cast");
    assert("our_code_starts_here"@.len() == 20);
    assert("error_overflow"@.len() == 14);
    assert("error_invalid_argument"@.len() == 22);
    assert("error_bad_cast"@.len() == 14);
    assert("error_overflow"@[6] == 'o');
    assert("error_bad_cast"@[6] == 'b');
}

/// Whether `code` defines no label.
pub open spec fn without_labels(code: Seq<InstrView>) -> bool {
    forall|k: int| 0 <= k < code.len() ==> !(#[trigger] code[k] is ILabel)
}

/// Where the handlers of overflow and of invalid arguments are in a program
/// whose main expression defines no label.
#[verifier::rlimit(50)]
pub proof fn lemma_handler_positions(body: Seq<InstrView>)
    requires
        without_labels(body),
    ensures
        ({
            let code = entry_code() + body + exit_code() + spec_error_handlers();
            let at = (4 + body.len() + 3) as int;
            &&& label_position(code, "error_overflow"@, 0) == Some(at)
            &&& label_position(code, "error_invalid_argument"@, 0) == Some(at + 4)
            &&& label_position(code, "error_bad_cast"@, 0) == Some(at + 8)
            &&& code[at + 1] == InstrView::IMov(Val::Reg(Reg::RDI), Val::Imm(1))
            &&& code[at + 2] == InstrView::ICall("snek_error"@)
            &&& code[at + 5] == InstrView::IMov(Val::Reg(Reg::RDI), Val::Imm(2))
            &&& code[at + 6] == InstrView::ICall("snek_error"@)
            &&& code[at + 9] == InstrView::IMov(Val::Reg(Reg::RDI), Val::Imm(3))
            &&& code[at + 10] == InstrView::ICall("snek_error"@)
        }),
{
    lemma_fixed_labels_differ();
    let pre = entry_code() + body + exit_code();
    let handlers = spec_error_handlers();
    let code = pre + handlers;
    let at = (4 + body.len() + 3) as int;
    let h1 = spec_handler("error_overflow"@, 1);
    let h2 = spec_handler("error_invalid_argument"@, 2);
    let h3 = spec_handler("error_bad_cast"@, 3);
    assert(handlers == h1 + h2 + h3);
    assert forall|j: int| 0 <= j < at implies !(#[trigger] code[j] is ILabel) || code[j]
        == InstrView::ILabel("our_code_starts_here"@) by {
        if j < 4 {
            assert(code[j] == entry_code()[j]);
        } else if j < 4 + body.len() {
            assert(code[j] == body[j - 4]);
        } else {
            assert(code[j] == exit_code()[j - 4 - body.len()]);
        }
    }
    assert forall|j: int| 0 <= j < 12 implies code[at + j] == handlers[j] by {}
    assert(handlers[0] == InstrView::ILabel("error_overflow"@));
    assert(handlers[1] == InstrView::IMov(Val::Reg(Reg::RDI), Val::Imm(1)));
    assert(handlers[2] == InstrView::ICall("snek_error"@));
    assert(handlers[3] == InstrView::IRet);
    assert(handlers[4] == InstrView::ILabel("error_invalid_argument"@));
    assert(handlers[5] == InstrView::IMov(Val::Reg(Reg::RDI), Val::Imm(2)));
    assert(handlers[6] == InstrView::ICall("snek_error"@));
    assert(handlers[7] == InstrView::IRet);
    assert(handlers[8] == InstrView::ILabel("error_bad_cast"@));
    assert(handlers[9] == InstrView::IMov(Val::Reg(Reg::RDI), Val::Imm(3)));
    assert(handlers[10] == InstrView::ICall("snek_error"@));
    lemma_label_found(code, "error_overflow"@, 0, at);
    lemma_label_found(code, "error_invalid_argument"@, 0, at + 4);
    lemma_label_found(code, "error_bad_cast"@, 0, at + 8);
}

/// A handler reports its code: from its label, the run ends in the fault
/// with the code that the handler loads.
pub proof fn lemma_handler_faults(code: Seq<InstrView>, at: int, n: i32, st: Cpu, fuel: nat)
    requires
        0 <= at,
        at + 2 < code.len(),
        code[at] is ILabel,
        code[at + 1] == InstrView::IMov(Val::Reg(Reg::RDI), Val::Imm(n)),
        code[at + 2] == InstrView::ICall("snek_error"@),
        fuel >= 3,
    ensures
        run(code, at, st, fuel) == Outcome::Fault(n as i64),
{
    let st1 = Cpu { regs: st.regs.insert(Reg::RDI, n as i64), ..st };
    assert(step(code, at, st) == Step::Next(at + 1, st));
    assert(step(code, at + 1, st) == Step::Next(at + 2, st1));
    assert(step(code, at + 2, st1) == Step::Stop(Outcome::Fault(n as i64)));
    reveal_with_fuel(run, 4);
}

/// The state in which the main expression of a program starts, once the
/// host has entered at `st`: the frame base is one word below the host's
/// return address, with the host's frame base saved there, and the input is
/// in its heap slot.
pub open spec fn started(st: Cpu) -> Cpu {
    let saved = push(st, st.regs[Reg::RBP]);
    let framed = Cpu { regs: saved.regs.insert(Reg::RBP, saved.regs[Reg::RSP]), ..saved };
    Cpu { mem: framed.mem.insert(framed.regs[Reg::R15] + 0, st.regs[Reg::RDI]), ..framed }
}

/// The entry of a program takes the run to the main expression in the
/// started state.
pub proof fn lemma_entry_runs(code: Seq<InstrView>, st: Cpu, fuel: nat)
    requires
        code.len() >= 4,
        forall|j: int| 0 <= j < 4 ==> code[j] == entry_code()[j],
        fuel >= 4,
    ensures
        run(code, 0, st, fuel) == run(code, 4, started(st), (fuel - 4) as nat),
{
    let st1 = push(st, st.regs[Reg::RBP]);
    let st2 = Cpu { regs: st1.regs.insert(Reg::RBP, st1.regs[Reg::RSP]), ..st1 };
    assert(code[0] == entry_code()[0]);
    assert(code[1] == entry_code()[1]);
    assert(code[2] == entry_code()[2]);
    assert(code[3] == entry_code()[3]);
    assert(step(code, 0, st) == Step::Next(1, st));
    assert(step(code, 1, st) == Step::Next(2, st1));
    assert(step(code, 2, st1) == Step::Next(3, st2));
    assert(step(code, 3, st2) == Step::Next(4, started(st)));
    reveal_with_fuel(run, 5);
}

/// Whether `st` is a state of the main expression of a program that the
/// host entered with its return address at `sp`: the frame base is one word
/// below `sp`, and the return address is still there.
pub open spec fn in_frame(st: Cpu, sp: int) -> bool {
    &&& st.regs[Reg::RBP] == sp - 8
    &&& st.mem[sp] == host()
    &&& sp <= i64::MAX
}

/// The exit of a program returns to the host with the result in `rax`.
pub proof fn lemma_exit_returns(code: Seq<InstrView>, at: int, st: Cpu, sp: int, fuel: nat)
    requires
        0 <= at,
        at + 2 < code.len(),
        forall|j: int| 0 <= j < 3 ==> code[at + j] == exit_code()[j],
        in_frame(st, sp),
        fuel >= 3,
    ensures
        run(code, at, st, fuel) matches Outcome::Returned(end) && end.regs[Reg::RAX]
            == st.regs[Reg::RAX] && end.printed == st.printed,
{
    assert(code[at + 0] == exit_code()[0]);
    assert(code[at + 1] == exit_code()[1]);
    assert(code[at + 2] == exit_code()[2]);
    let st1 = Cpu { regs: st.regs.insert(Reg::RSP, st.regs[Reg::RBP]), ..st };
    assert(step(code, at, st) == Step::Next(at + 1, st1));
    let (saved, popped) = pop(st1);
    let st2 = Cpu { regs: popped.regs.insert(Reg::RBP, saved), ..popped };
    assert(step(code, at + 1, st1) == Step::Next(at + 2, st2));
    assert(st2.regs[Reg::RSP] == sp);
    let (back, end) = pop(st2);
    assert(step(code, at + 2, st2) == Step::Stop(Outcome::Returned(end)));
    reveal_with_fuel(run, 4);
}

/// The started state of a program lies in its frame, with the input in the
/// first heap slot and what was printed unchanged.
pub proof fn lemma_started(st: Cpu, input: i64, room: int)
    requires
        entered(st, input, room),
        room >= 8,
    ensures
        in_frame(started(st), st.regs[Reg::RSP] as int),
        started(st).mem[st.regs[Reg::R15] + 0] == input,
        started(st).regs[Reg::R15] == st.regs[Reg::R15],
        started(st).regs[Reg::RSP] == st.regs[Reg::RSP] - 8,
        started(st).printed == st.printed,
{
}

/// The tag bit of a word is clear exactly if the word is even; the two
/// booleans have it set; and or-ing two words or-s their tag bits.
pub proof fn lemma_tag_bit(w: i64, v: i64)
    ensures
        (w & 1 == 0) <==> (w % 2 == 0),
        ((w | v) & 1 == 0) <==> (w & 1 == 0 && v & 1 == 0),
        (1i64 & 1) != 0,
        (3i64 & 1) != 0,
{
    assert((w & 1 == 0) <==> (w % 2 == 0)) by (bit_vector);
    assert(((w | v) & 1 == 0) <==> (w & 1 == 0 && v & 1 == 0)) by (bit_vector);
    assert((1i64 & 1) != 0) by (bit_vector);
    assert((3i64 & 1) != 0) by (bit_vector);
}

/// Whether `part` stands in `code` at position `at`.
pub open spec fn placed(code: Seq<InstrView>, at: int, part: Seq<InstrView>) -> bool {
    &&& 0 <= at
    &&& at + part.len() <= code.len()
    &&& forall|j: int| 0 <= j < part.len() ==> code[at + j] == #[trigger] part[j]
}

/// Whether `code` has, under the label `l`, a handler that reports the code
/// `n`.
pub open spec fn has_handler(code: Seq<InstrView>, l: Seq<char>, n: i32) -> bool {
    label_position(code, l, 0) matches Some(at) && at + 2 < code.len() && code[at + 1]
        == InstrView::IMov(Val::Reg(Reg::RDI), Val::Imm(n)) && code[at + 2] == InstrView::ICall(
        "snek_error"@,
    )
}

/// Whether `code` has the three handlers of run-time errors.
pub open spec fn with_handlers(code: Seq<InstrView>) -> bool {
    &&& has_handler(code, "error_overflow"@, 1)
    &&& has_handler(code, "error_invalid_argument"@, 2)
    &&& has_handler(code, "error_bad_cast"@, 3)
}

/// A label is found only where it is defined.
pub proof fn lemma_label_position(code: Seq<InstrView>, l: Seq<char>, from: int)
    requires
        0 <= from,
    ensures
        label_position(code, l, from) matches Some(k) ==> from <= k < code.len() && code[k]
            == InstrView::ILabel(l),
    decreases code.len() - from,
{
    if from < code.len() && code[from] != InstrView::ILabel(l) {
        lemma_label_position(code, l, from + 1);
    }
}

/// A jump that is taken to the label of a handler ends in the fault that
/// the handler reports.
pub proof fn lemma_jump_faults(
    code: Seq<InstrView>,
    pc: int,
    st: Cpu,
    l: Seq<char>,
    n: i32,
    fuel: nat,
)
    requires
        has_handler(code, l, n),
        step(code, pc, st) == jump_if(code, pc, st, true, l),
        fuel >= 4,
    ensures
        run(code, pc, st, fuel) == Outcome::Fault(n as i64),
{
    let at = label_position(code, l, 0)->Some_0;
    lemma_label_position(code, l, 0);
    lemma_handler_faults(code, at, n, st, (fuel - 1) as nat);
    reveal_with_fuel(run, 2);
}

/// Whether two states differ in the registers `rax`, `rcx` and `rdi` and in
/// the flags at most.
pub open spec fn keeps(st: Cpu, end: Cpu) -> bool {
    &&& end.mem == st.mem
    &&& end.printed == st.printed
    &&& end.regs[Reg::RBP] == st.regs[Reg::RBP]
    &&& end.regs[Reg::RSP] == st.regs[Reg::RSP]
    &&& end.regs[Reg::R15] == st.regs[Reg::R15]
}

/// The test of the tag bit of `rax` with a jump on a set bit: the run goes
/// on behind the jump if the word in `rax` is even, and ends in the fault
/// of the handler if it is odd.
pub proof fn lemma_tag_check(
    code: Seq<InstrView>,
    pc: int,
    st: Cpu,
    l: Seq<char>,
    n: i32,
    fuel: nat,
) -> (end: Cpu)
    requires
        0 <= pc,
        pc + 1 < code.len(),
        code[pc] == InstrView::ITest(Val::Reg(Reg::RAX), Val::Imm(1)),
        code[pc + 1] == InstrView::IJne(l),
        has_handler(code, l, n),
        fuel >= 6,
    ensures
        keeps(st, end),
        end.regs[Reg::RAX] == st.regs[Reg::RAX],
        end.zero == (st.regs[Reg::RAX] % 2 == 0),
        if st.regs[Reg::RAX] % 2 == 0 {
            run(code, pc, st, fuel) == run(code, pc + 2, end, (fuel - 2) as nat)
        } else {
            run(code, pc, st, fuel) == Outcome::Fault(n as i64)
        },
{
    let w = st.regs[Reg::RAX];
    lemma_tag_bit(w, 0);
    let end = with_flags(st, (w & 1) as int);
    assert(step(code, pc, st) == Step::Next(pc + 1, end));
    if w % 2 == 0 {
        assert(step(code, pc + 1, end) == Step::Next(pc + 2, end));
        reveal_with_fuel(run, 3);
    } else {
        lemma_jump_faults(code, pc + 1, end, l, n, (fuel - 1) as nat);
        reveal_with_fuel(run, 2);
    }
    end
}

/// An addition or subtraction of an immediate to `rax` with a jump on
/// overflow: the run goes on behind the jump with the exact result in
/// `rax` if that is a word, and ends in the overflow fault if not.
pub proof fn lemma_bump(code: Seq<InstrView>, pc: int, st: Cpu, delta: int, fuel: nat) -> (end: Cpu)
    requires
        0 <= pc,
        pc + 1 < code.len(),
        (delta == 2 && code[pc] == InstrView::IAdd(Val::Reg(Reg::RAX), Val::Imm(2))) || (delta
            == -2 && code[pc] == InstrView::ISub(Val::Reg(Reg::RAX), Val::Imm(2))),
        code[pc + 1] == InstrView::IJo("error_overflow"@),
        has_handler(code, "error_overflow"@, 1),
        fuel >= 6,
    ensures
        keeps(st, end),
        if i64::MIN <= st.regs[Reg::RAX] + delta <= i64::MAX {
            run(code, pc, st, fuel) == run(code, pc + 2, end, (fuel - 2) as nat)
                && end.regs[Reg::RAX] == st.regs[Reg::RAX] + delta
        } else {
            run(code, pc, st, fuel) == Outcome::Fault(1)
        },
{
    let exact = st.regs[Reg::RAX] + delta;
    let flagged = with_flags(st, exact);
    let end = Cpu { regs: flagged.regs.insert(Reg::RAX, exact as i64), ..flagged };
    assert(step(code, pc, st) == Step::Next(pc + 1, end));
    if i64::MIN <= exact <= i64::MAX {
        assert(step(code, pc + 1, end) == Step::Next(pc + 2, end));
        reveal_with_fuel(run, 3);
    } else {
        lemma_jump_faults(code, pc + 1, end, "error_overflow"@, 1, (fuel - 1) as nat);
        reveal_with_fuel(run, 2);
    }
    end
}

/// The selection of a boolean by the tag bit of `rax`: `rax` becomes `even`
/// if the word in it is even and `odd` if not.
pub proof fn lemma_select_by_tag(
    code: Seq<InstrView>,
    pc: int,
    st: Cpu,
    even: i32,
    odd: i32,
    fuel: nat,
) -> (end: Cpu)
    requires
        0 <= pc,
        pc + 3 < code.len(),
        code[pc] == InstrView::ITest(Val::Reg(Reg::RAX), Val::Imm(1)),
        code[pc + 1] == InstrView::IMov(Val::Reg(Reg::RAX), Val::Imm(odd)),
        code[pc + 2] == InstrView::IMov(Val::Reg(Reg::RCX), Val::Imm(even)),
        code[pc + 3] == InstrView::ICMovE(Val::Reg(Reg::RAX), Val::Reg(Reg::RCX)),
        fuel >= 4,
    ensures
        keeps(st, end),
        run(code, pc, st, fuel) == run(code, pc + 4, end, (fuel - 4) as nat),
        end.regs[Reg::RAX] == (if st.regs[Reg::RAX] % 2 == 0 {
            even as i64
        } else {
            odd as i64
        }),
{
    let w = st.regs[Reg::RAX];
    lemma_tag_bit(w, 0);
    let s1 = with_flags(st, (w & 1) as int);
    assert(step(code, pc, st) == Step::Next(pc + 1, s1));
    let s2 = Cpu { regs: s1.regs.insert(Reg::RAX, odd as i64), ..s1 };
    assert(step(code, pc + 1, s1) == Step::Next(pc + 2, s2));
    let s3 = Cpu { regs: s2.regs.insert(Reg::RCX, even as i64), ..s2 };
    assert(step(code, pc + 2, s2) == Step::Next(pc + 3, s3));
    let end = if w % 2 == 0 {
        Cpu { regs: s3.regs.insert(Reg::RAX, even as i64), ..s3 }
    } else {
        s3
    };
    assert(step(code, pc + 3, s3) == Step::Next(pc + 4, end));
    reveal_with_fuel(run, 5);
    end
}

/// Whether an expression is arithmetic: built from literals and the input
/// by increment, decrement, the two predicates, the binary operators and
/// casts.
pub open spec fn arithmetic(e: ExprView) -> bool
    decreases e,
{
    match e {
        ExprView::Number(_) => true,
        ExprView::Boolean(_) => true,
        ExprView::Input => true,
        ExprView::UnOp(op, a) => op != Op1::Print && arithmetic(*a),
        ExprView::BinOp(_, a, b) => arithmetic(*a) && arithmetic(*b),
        ExprView::Cast(a, _) => arithmetic(*a),
        _ => false,
    }
}

/// What a unary operator makes of the tagged word `w`: a tagged word, or
/// the code of a run-time error.
pub open spec fn unop_word(op: Op1, w: i64) -> Result<i64, i64> {
    match op {
        Op1::Add1 => if w % 2 != 0 {
            Err(2)
        } else if w + 2 > i64::MAX {
            Err(1)
        } else {
            Ok((w + 2) as i64)
        },
        Op1::Sub1 => if w % 2 != 0 {
            Err(2)
        } else if w - 2 < i64::MIN {
            Err(1)
        } else {
            Ok((w - 2) as i64)
        },
        Op1::IsNum => Ok(
            if w % 2 == 0 {
                1
            } else {
                3
            },
        ),
        Op1::IsBool => Ok(
            if w % 2 == 0 {
                3
            } else {
                1
            },
        ),
        Op1::Print => Ok(w),
    }
}

/// What a cast to `t` makes of the tagged word `w`.
pub open spec fn cast_word(t: Type, w: i64) -> Result<i64, i64> {
    match t {
        Type::Num => if w % 2 == 0 {
            Ok(w)
        } else {
            Err(3)
        },
        Type::Bool => if w % 2 != 0 {
            Ok(w)
        } else {
            Err(3)
        },
        Type::Nothing => Err(3),
        Type::Any => Ok(w),
    }
}

/// A word if it is one, else the overflow error.
pub open spec fn word_or_overflow(exact: int) -> Result<i64, i64> {
    if i64::MIN <= exact <= i64::MAX {
        Ok(exact as i64)
    } else {
        Err(1)
    }
}

/// One of the two booleans.
pub open spec fn bool_word(b: bool) -> i64 {
    if b {
        1
    } else {
        3
    }
}

/// What a binary operator makes of the tagged words `l` and `r` of its left
/// and right operand. Arithmetic and ordering take two integers; the product
/// is taken of the left word and half of the right one. Equality takes any
/// two words.
pub open spec fn binop_word(op: Op2, l: i64, r: i64) -> Result<i64, i64> {
    if op == Op2::Equal {
        Ok(bool_word(l == r))
    } else if l % 2 != 0 || r % 2 != 0 {
        Err(2)
    } else {
        match op {
            Op2::Plus => word_or_overflow(l + r),
            Op2::Minus => word_or_overflow(l - r),
            Op2::Times => word_or_overflow((r / 2) * l),
            Op2::Less => Ok(bool_word(l < r)),
            Op2::Greater => Ok(bool_word(l > r)),
            Op2::LessEqual => Ok(bool_word(l <= r)),
            _ => Ok(bool_word(l >= r)),
        }
    }
}

/// The tagged word of an arithmetic expression where the external input is
/// the word `input`, or the code of the first run-time error in evaluation
/// order.
pub open spec fn eval_word(e: ExprView, input: i64) -> Result<i64, i64>
    decreases e,
{
    match e {
        ExprView::Number(n) => Ok((2 * n) as i64),
        ExprView::Boolean(b) => Ok(
            if b {
                1
            } else {
                3
            },
        ),
        ExprView::Input => Ok(input),
        ExprView::UnOp(op, a) => match eval_word(*a, input) {
            Err(f) => Err(f),
            Ok(w) => unop_word(op, w),
        },
        ExprView::BinOp(op, a, b) => match eval_word(*a, input) {
            Err(f) => Err(f),
            Ok(l) => match eval_word(*b, input) {
                Err(f) => Err(f),
                Ok(r) => binop_word(op, l, r),
            },
        },
        ExprView::Cast(a, t) => match eval_word(*a, input) {
            Err(f) => Err(f),
            Ok(w) => cast_word(t, w),
        },
        _ => Err(0),
    }
}

/// The code of a unary operator does to the word in `rax` what
/// `unop_word` says.
pub proof fn lemma_unop_runs(op: Op1, code: Seq<InstrView>, pc: int, st: Cpu, fuel: nat) -> (end:
    Cpu)
    requires
        op != Op1::Print,
        placed(code, pc, spec_unop_code(op)),
        with_handlers(code),
        fuel >= 8,
    ensures
        keeps(st, end),
        match unop_word(op, st.regs[Reg::RAX]) {
            Ok(r) => run(code, pc, st, fuel) == run(code, pc + 4, end, (fuel - 4) as nat)
                && end.regs[Reg::RAX] == r,
            Err(f) => run(code, pc, st, fuel) == Outcome::Fault(f),
        },
{
    let part = spec_unop_code(op);
    assert(code[pc + 0] == part[0]);
    assert(code[pc + 1] == part[1]);
    assert(code[pc + 2] == part[2]);
    assert(code[pc + 3] == part[3]);
    match op {
        Op1::Add1 => {
            let mid = lemma_tag_check(code, pc, st, "error_invalid_argument"@, 2, fuel);
            if st.regs[Reg::RAX] % 2 == 0 {
                lemma_bump(code, pc + 2, mid, 2, (fuel - 2) as nat)
            } else {
                mid
            }
        },
        Op1::Sub1 => {
            let mid = lemma_tag_check(code, pc, st, "error_invalid_argument"@, 2, fuel);
            if st.regs[Reg::RAX] % 2 == 0 {
                lemma_bump(code, pc + 2, mid, -2, (fuel - 2) as nat)
            } else {
                mid
            }
        },
        Op1::IsNum => lemma_select_by_tag(code, pc, st, 1, 3, fuel),
        _ => lemma_select_by_tag(code, pc, st, 3, 1, fuel),
    }
}

/// The check of a cast does to the word in `rax` what `cast_word` says.
pub proof fn lemma_cast_runs(t: Type, code: Seq<InstrView>, pc: int, st: Cpu, fuel: nat) -> (end:
    Cpu)
    requires
        placed(code, pc, spec_cast_code(t)),
        with_handlers(code),
        fuel >= 8,
    ensures
        keeps(st, end),
        match cast_word(t, st.regs[Reg::RAX]) {
            Ok(r) => run(code, pc, st, fuel) == run(
                code,
                pc + spec_cast_code(t).len(),
                end,
                (fuel - spec_cast_code(t).len()) as nat,
            ) && end.regs[Reg::RAX] == r,
            Err(f) => run(code, pc, st, fuel) == Outcome::Fault(f),
        },
{
    let part = spec_cast_code(t);
    let w = st.regs[Reg::RAX];
    match t {
        Type::Num => {
            assert(code[pc + 0] == part[0]);
            assert(code[pc + 1] == part[1]);
            lemma_tag_check(code, pc, st, "error_bad_cast"@, 3, fuel)
        },
        Type::Bool => {
            assert(code[pc + 0] == part[0]);
            assert(code[pc + 1] == part[1]);
            lemma_tag_bit(w, 0);
            let end = with_flags(st, (w & 1) as int);
            assert(step(code, pc, st) == Step::Next(pc + 1, end));
            if w % 2 != 0 {
                assert(step(code, pc + 1, end) == Step::Next(pc + 2, end));
                reveal_with_fuel(run, 3);
            } else {
                lemma_jump_faults(code, pc + 1, end, "error_bad_cast"@, 3, (fuel - 1) as nat);
                reveal_with_fuel(run, 2);
            }
            end
        },
        Type::Nothing => {
            assert(code[pc + 0] == part[0]);
            lemma_jump_faults(code, pc, st, "error_bad_cast"@, 3, fuel);
            st
        },
        Type::Any => st,
    }
}

/// Parts that stand one after the other stand each where it is.
pub proof fn lemma_placed_parts(
    code: Seq<InstrView>,
    at: int,
    first: Seq<InstrView>,
    second: Seq<InstrView>,
)
    requires
        placed(code, at, first + second),
    ensures
        placed(code, at, first),
        placed(code, at + first.len(), second),
{
    let both = first + second;
    assert forall|j: int| 0 <= j < first.len() implies code[at + j] == #[trigger] first[j] by {
        assert(both[j] == first[j]);
    }
    assert forall|j: int| 0 <= j < second.len() implies code[at + first.len() + j]
        == #[trigger] second[j] by {
        assert(both[first.len() + j] == second[j]);
    }
}

/// The code of an expression, kept apart from how it is generated: what
/// the code generator yields, and nothing of its definition unless asked
/// for.
#[verifier::opaque]
pub open spec fn code_of(
    e: ExprView,
    si: i32,
    env: Map<Seq<char>, i32>,
    defines: Map<Seq<char>, i32>,
    funs: Map<Seq<char>, usize>,
    loop_end: Option<Seq<char>>,
    gen: CodeGen,
) -> Result<Compiled, crate::compiler::CompileErrorView> {
    spec_compile(e, si, env, defines, funs, loop_end, gen)
}

/// The code of a leaf of an arithmetic expression: one load to `rax`.
pub proof fn lemma_leaf_code(
    e: ExprView,
    si: i32,
    env: Map<Seq<char>, i32>,
    defines: Map<Seq<char>, i32>,
    funs: Map<Seq<char>, usize>,
    loop_end: Option<Seq<char>>,
    gen: CodeGen,
)
    requires
        e is Number || e is Boolean || e is Input,
        gen.input_heap_offset is Some,
        code_of(e, si, env, defines, funs, loop_end, gen) is Ok,
    ensures
        ({
            let c = code_of(e, si, env, defines, funs, loop_end, gen)->Ok_0;
            &&& c.gen == gen
            &&& c.min_si == si
            &&& c.code.len() == 1
            &&& c.code[0] == InstrView::IMov(
                Val::Reg(Reg::RAX),
                match e {
                    ExprView::Number(n) => Val::Imm((2 * n) as i32),
                    ExprView::Boolean(b) => Val::Imm(
                        if b {
                            1i32
                        } else {
                            3i32
                        },
                    ),
                    _ => Val::RegOffset(Reg::R15, gen.input_heap_offset->Some_0),
                },
            )
            &&& e matches ExprView::Number(n) ==> -0x4000_0000 <= n < 0x4000_0000
        }),
{
    reveal(code_of);
}

/// The code of a unary operation or a cast: the code of the operand, then
/// the code of the operator or the check.
pub proof fn lemma_wrapped_code(
    e: ExprView,
    si: i32,
    env: Map<Seq<char>, i32>,
    defines: Map<Seq<char>, i32>,
    funs: Map<Seq<char>, usize>,
    loop_end: Option<Seq<char>>,
    gen: CodeGen,
)
    requires
        e is UnOp || e is Cast,
        code_of(e, si, env, defines, funs, loop_end, gen) is Ok,
    ensures
        ({
            let a = match e {
                ExprView::UnOp(_, a) => *a,
                ExprView::Cast(a, _) => *a,
                _ => e,
            };
            let tail = match e {
                ExprView::UnOp(op, _) => spec_unop_code(op),
                ExprView::Cast(_, t) => spec_cast_code(t),
                _ => Seq::empty(),
            };
            let c = code_of(e, si, env, defines, funs, loop_end, gen)->Ok_0;
            &&& code_of(a, si, env, defines, funs, loop_end, gen) matches Ok(ca)
            &&& c.code == ca.code + tail
            &&& c.gen == ca.gen
            &&& c.min_si == min32(si, ca.min_si)
        }),
{
    reveal(code_of);
}

/// The flags of a comparison order its operands: for the difference of
/// two words, cut to a word, being negative differs from the difference
/// having left the range exactly if the first is less than the second, and
/// it is zero exactly if they are equal.
pub proof fn lemma_compare_flags(a: i64, b: i64)
    ensures
        ((((a - b) as i64) < 0) != (a - b < i64::MIN || a - b > i64::MAX)) <==> a < b,
        (((a - b) as i64) == 0) <==> a == b,
{
    assert(((((a - b) as i64) < 0) != (a - b < -0x8000_0000_0000_0000 || a - b
        > 0x7fff_ffff_ffff_ffff)) <==> a < b) by (bit_vector);
    assert((((a - b) as i64) == 0) <==> a == b) by (bit_vector);
}

/// Shifting an even word right by one bit halves it.
pub proof fn lemma_half(w: i64)
    requires
        w % 2 == 0,
    ensures
        (w >> 1i64) == w / 2,
{
    assert(w % 2 == 0 ==> (w >> 1i64) == w / 2) by (bit_vector);
}

/// Whether two states differ, besides the registers `rax`, `rcx` and `rdi`
/// and the flags, at most in the frame slots from offset `lo` to `hi`.
pub open spec fn frames(st: Cpu, end: Cpu, lo: int, hi: int) -> bool {
    &&& end.printed == st.printed
    &&& end.regs[Reg::RBP] == st.regs[Reg::RBP]
    &&& end.regs[Reg::RSP] == st.regs[Reg::RSP]
    &&& end.regs[Reg::R15] == st.regs[Reg::R15]
    &&& forall|a: int|
        a < st.regs[Reg::RBP] + lo || a > st.regs[Reg::RBP] + hi ==> end.mem[a] == st.mem[a]
}

/// The one check that both operands are numbers: with the left word in the
/// slot `si` and the right word in `rax`, the run goes on behind the check
/// if both are even, and ends in the invalid-argument fault if not.
#[verifier::rlimit(50)]
pub proof fn lemma_both_numeric_runs(code: Seq<InstrView>, pc: int, st: Cpu, si: i32, fuel: nat) -> (end:
    Cpu)
    requires
        placed(code, pc, spec_both_numeric_code(si)),
        with_handlers(code),
        fuel >= 8,
    ensures
        keeps(st, end),
        end.regs[Reg::RAX] == st.regs[Reg::RAX],
        ({
            let l = st.mem[st.regs[Reg::RBP] + si];
            let r = st.regs[Reg::RAX];
            if l % 2 == 0 && r % 2 == 0 {
                run(code, pc, st, fuel) == run(code, pc + 4, end, (fuel - 4) as nat)
            } else {
                run(code, pc, st, fuel) == Outcome::Fault(2)
            }
        }),
{
    let part = spec_both_numeric_code(si);
    assert(code[pc + 0] == part[0]);
    assert(code[pc + 1] == part[1]);
    assert(code[pc + 2] == part[2]);
    assert(code[pc + 3] == part[3]);
    let l = st.mem[st.regs[Reg::RBP] + si];
    let r = st.regs[Reg::RAX];
    lemma_tag_bit(r, l);
    lemma_tag_bit(l, 0);
    lemma_tag_bit((r | l), 0);
    let s1 = Cpu { regs: st.regs.insert(Reg::RCX, r), ..st };
    assert(step(code, pc, st) == Step::Next(pc + 1, s1));
    let both = (r | l);
    let f2 = with_flags(s1, both as int);
    let s2 = Cpu { regs: f2.regs.insert(Reg::RCX, both), ..f2 };
    assert(step(code, pc + 1, s1) == Step::Next(pc + 2, s2));
    let s3 = with_flags(s2, (both & 1) as int);
    assert(step(code, pc + 2, s2) == Step::Next(pc + 3, s3));
    if l % 2 == 0 && r % 2 == 0 {
        assert(step(code, pc + 3, s3) == Step::Next(pc + 4, s3));
        reveal_with_fuel(run, 5);
    } else {
        lemma_jump_faults(code, pc + 3, s3, "error_invalid_argument"@, 2, (fuel - 3) as nat);
        reveal_with_fuel(run, 4);
    }
    s3
}

/// The jump on overflow behind an arithmetic instruction: the run goes on
/// if the exact result was a word, and ends in the overflow fault if not.
pub proof fn lemma_overflow_check(code: Seq<InstrView>, pc: int, st: Cpu, exact: int, fuel: nat)
    requires
        0 <= pc < code.len(),
        code[pc] == InstrView::IJo("error_overflow"@),
        st.overflow == (exact < i64::MIN || exact > i64::MAX),
        with_handlers(code),
        fuel >= 5,
    ensures
        match word_or_overflow(exact) {
            Ok(_) => run(code, pc, st, fuel) == run(code, pc + 1, st, (fuel - 1) as nat),
            Err(f) => run(code, pc, st, fuel) == Outcome::Fault(f),
        },
{
    if st.overflow {
        lemma_jump_faults(code, pc, st, "error_overflow"@, 1, fuel);
    } else {
        assert(step(code, pc, st) == Step::Next(pc + 1, st));
        reveal_with_fuel(run, 2);
    }
}

/// The addition: `rax` becomes the sum of the word in the slot `si` and the
/// word in `rax`, unless that overflows.
proof fn lemma_plus_runs(code: Seq<InstrView>, at: int, st: Cpu, si: i32, fuel: nat) -> (end: Cpu)
    requires
        0 <= at,
        at + 1 < code.len(),
        code[at] == InstrView::IAdd(Val::Reg(Reg::RAX), slot(si)),
        code[at + 1] == InstrView::IJo("error_overflow"@),
        with_handlers(code),
        fuel >= 8,
    ensures
        keeps(st, end),
        match word_or_overflow(st.mem[st.regs[Reg::RBP] + si] + st.regs[Reg::RAX]) {
            Ok(x) => run(code, at, st, fuel) == run(code, at + 2, end, (fuel - 2) as nat)
                && end.regs[Reg::RAX] == x,
            Err(f) => run(code, at, st, fuel) == Outcome::Fault(f),
        },
{
    let exact = st.regs[Reg::RAX] + st.mem[st.regs[Reg::RBP] + si];
    let f1 = with_flags(st, exact);
    let s1 = Cpu { regs: f1.regs.insert(Reg::RAX, exact as i64), ..f1 };
    assert(step(code, at, st) == Step::Next(at + 1, s1));
    lemma_overflow_check(code, at + 1, s1, exact, (fuel - 1) as nat);
    assert(run(code, at, st, fuel) == run(code, at + 1, s1, (fuel - 1) as nat)) by {
        reveal_with_fuel(run, 2);
    }
    s1
}

/// The subtraction: `rax` becomes the word in the slot `si` less the word
/// in `rax`, unless that overflows.
proof fn lemma_minus_runs(code: Seq<InstrView>, at: int, st: Cpu, si: i32, fuel: nat) -> (end: Cpu)
    requires
        0 <= at,
        at + 3 < code.len(),
        code[at] == InstrView::IMov(Val::Reg(Reg::RCX), Val::Reg(Reg::RAX)),
        code[at + 1] == InstrView::IMov(Val::Reg(Reg::RAX), slot(si)),
        code[at + 2] == InstrView::ISub(Val::Reg(Reg::RAX), Val::Reg(Reg::RCX)),
        code[at + 3] == InstrView::IJo("error_overflow"@),
        with_handlers(code),
        fuel >= 10,
    ensures
        keeps(st, end),
        match word_or_overflow(st.mem[st.regs[Reg::RBP] + si] - st.regs[Reg::RAX]) {
            Ok(x) => run(code, at, st, fuel) == run(code, at + 4, end, (fuel - 4) as nat)
                && end.regs[Reg::RAX] == x,
            Err(f) => run(code, at, st, fuel) == Outcome::Fault(f),
        },
{
    let l = st.mem[st.regs[Reg::RBP] + si];
    let r = st.regs[Reg::RAX];
    let exact = l - r;
    let s1 = Cpu { regs: st.regs.insert(Reg::RCX, r), ..st };
    assert(step(code, at, st) == Step::Next(at + 1, s1));
    let s2 = Cpu { regs: s1.regs.insert(Reg::RAX, l), ..s1 };
    assert(step(code, at + 1, s1) == Step::Next(at + 2, s2));
    let f3 = with_flags(s2, exact);
    let s3 = Cpu { regs: f3.regs.insert(Reg::RAX, exact as i64), ..f3 };
    assert(step(code, at + 2, s2) == Step::Next(at + 3, s3));
    lemma_overflow_check(code, at + 3, s3, exact, (fuel - 3) as nat);
    assert(run(code, at, st, fuel) == run(code, at + 3, s3, (fuel - 3) as nat)) by {
        reveal_with_fuel(run, 4);
    }
    s3
}

/// The multiplication: `rax` becomes the product of the word in the slot
/// `si` and half of the even word in `rax`, unless that overflows.
proof fn lemma_times_runs(code: Seq<InstrView>, at: int, st: Cpu, si: i32, fuel: nat) -> (end: Cpu)
    requires
        0 <= at,
        at + 2 < code.len(),
        code[at] == InstrView::ISar(Val::Reg(Reg::RAX), Val::Imm(1)),
        code[at + 1] == InstrView::IMul(Val::Reg(Reg::RAX), slot(si)),
        code[at + 2] == InstrView::IJo("error_overflow"@),
        st.regs[Reg::RAX] % 2 == 0,
        with_handlers(code),
        fuel >= 9,
    ensures
        keeps(st, end),
        match word_or_overflow((st.regs[Reg::RAX] / 2) * st.mem[st.regs[Reg::RBP] + si]) {
            Ok(x) => run(code, at, st, fuel) == run(code, at + 3, end, (fuel - 3) as nat)
                && end.regs[Reg::RAX] == x,
            Err(f) => run(code, at, st, fuel) == Outcome::Fault(f),
        },
{
    let l = st.mem[st.regs[Reg::RBP] + si];
    let r = st.regs[Reg::RAX];
    lemma_half(r);
    let half: i64 = r >> 1i64;
    assert(half == r / 2);
    let f1 = with_flags(st, half as int);
    let s1 = Cpu { regs: f1.regs.insert(Reg::RAX, half), ..f1 };
    assert(step(code, at, st) == Step::Next(at + 1, s1));
    let exact: int = half * l;
    assert(exact == (r / 2) * l);
    let f2 = with_flags(s1, exact);
    let s2 = Cpu { regs: f2.regs.insert(Reg::RAX, exact as i64), ..f2 };
    assert(step(code, at + 1, s1) == Step::Next(at + 2, s2));
    lemma_overflow_check(code, at + 2, s2, exact, (fuel - 2) as nat);
    assert(run(code, at, st, fuel) == run(code, at + 2, s2, (fuel - 2) as nat)) by {
        reveal_with_fuel(run, 3);
    }
    s2
}

/// The code of an arithmetic operator does to the left word in the slot
/// `si` and the right word in `rax` what `binop_word` says.
#[verifier::rlimit(50)]
pub proof fn lemma_arith_runs(
    op: Op2,
    code: Seq<InstrView>,
    pc: int,
    st: Cpu,
    si: i32,
    below: i32,
    fuel: nat,
) -> (end: Cpu)
    requires
        op == Op2::Plus || op == Op2::Minus || op == Op2::Times,
        placed(code, pc, spec_binop_code(op, si, below)),
        with_handlers(code),
        fuel >= 16,
    ensures
        keeps(st, end),
        ({
            let len = spec_binop_code(op, si, below).len();
            match binop_word(op, st.mem[st.regs[Reg::RBP] + si], st.regs[Reg::RAX]) {
                Ok(x) => run(code, pc, st, fuel) == run(code, pc + len, end, (fuel - len) as nat)
                    && end.regs[Reg::RAX] == x,
                Err(f) => run(code, pc, st, fuel) == Outcome::Fault(f),
            }
        }),
{
    let part = spec_binop_code(op, si, below);
    let check = spec_both_numeric_code(si);
    let l = st.mem[st.regs[Reg::RBP] + si];
    let r = st.regs[Reg::RAX];
    let tail = part.subrange(4, part.len() as int);
    assert(part =~= check + tail);
    lemma_placed_parts(code, pc, check, tail);
    let s0 = lemma_both_numeric_runs(code, pc, st, si, fuel);
    if l % 2 == 0 && r % 2 == 0 {
        let at = pc + 4;
        let left = (fuel - 4) as nat;
        assert(code[at + 0] == tail[0]);
        assert(code[at + 1] == tail[1]);
        if op == Op2::Plus {
            lemma_plus_runs(code, at, s0, si, left)
        } else if op == Op2::Minus {
            assert(code[at + 2] == tail[2]);
            assert(code[at + 3] == tail[3]);
            lemma_minus_runs(code, at, s0, si, left)
        } else {
            assert(code[at + 2] == tail[2]);
            lemma_times_runs(code, at, s0, si, left)
        }
    } else {
        s0
    }
}

/// The code of the equality operator selects `true` exactly if the word in
/// the slot `si` and the word in `rax` are the same.
pub proof fn lemma_equal_runs(
    code: Seq<InstrView>,
    pc: int,
    st: Cpu,
    si: i32,
    below: i32,
    fuel: nat,
) -> (end: Cpu)
    requires
        placed(code, pc, spec_binop_code(Op2::Equal, si, below)),
        fuel >= 4,
    ensures
        keeps(st, end),
        run(code, pc, st, fuel) == run(code, pc + 4, end, (fuel - 4) as nat),
        end.regs[Reg::RAX] == bool_word(st.mem[st.regs[Reg::RBP] + si] == st.regs[Reg::RAX]),
{
    let part = spec_binop_code(Op2::Equal, si, below);
    assert(code[pc + 0] == part[0]);
    assert(code[pc + 1] == part[1]);
    assert(code[pc + 2] == part[2]);
    assert(code[pc + 3] == part[3]);
    let l = st.mem[st.regs[Reg::RBP] + si];
    let r = st.regs[Reg::RAX];
    lemma_compare_flags(r, l);
    let s1 = with_flags(st, r - l);
    assert(step(code, pc, st) == Step::Next(pc + 1, s1));
    let s2 = Cpu { regs: s1.regs.insert(Reg::RAX, 1), ..s1 };
    assert(step(code, pc + 1, s1) == Step::Next(pc + 2, s2));
    let s3 = Cpu { regs: s2.regs.insert(Reg::RCX, 3), ..s2 };
    assert(step(code, pc + 2, s2) == Step::Next(pc + 3, s3));
    let end = if l == r {
        s3
    } else {
        Cpu { regs: s3.regs.insert(Reg::RAX, 3), ..s3 }
    };
    assert(step(code, pc + 3, s3) == Step::Next(pc + 4, end));
    reveal_with_fuel(run, 5);
    end
}

/// The comparison itself: with both words known to be integers, the left
/// one in the slot `si` and the right one in the slot below, `rax` becomes
/// `true` exactly if the ordering holds.
#[verifier::rlimit(50)]
pub proof fn lemma_select_runs(
    op: Op2,
    code: Seq<InstrView>,
    pc: int,
    st: Cpu,
    si: i32,
    below: i32,
    fuel: nat,
) -> (end: Cpu)
    requires
        is_ordering(op),
        0 <= pc,
        pc + 5 < code.len(),
        code[pc] == InstrView::IMov(Val::Reg(Reg::RCX), slot(si)),
        code[pc + 1] == InstrView::IMov(Val::Reg(Reg::RAX), slot(below)),
        code[pc + 2] == InstrView::ICmp(Val::Reg(Reg::RCX), Val::Reg(Reg::RAX)),
        code[pc + 3] == InstrView::IMov(Val::Reg(Reg::RAX), Val::Imm(3)),
        code[pc + 4] == InstrView::IMov(Val::Reg(Reg::RCX), Val::Imm(1)),
        code[pc + 5] == spec_select(op),
        fuel >= 6,
    ensures
        keeps(st, end),
        run(code, pc, st, fuel) == run(code, pc + 6, end, (fuel - 6) as nat),
        ({
            let l = st.mem[st.regs[Reg::RBP] + si];
            let r = st.mem[st.regs[Reg::RBP] + below];
            end.regs[Reg::RAX] == bool_word(
                match op {
                    Op2::Less => l < r,
                    Op2::Greater => l > r,
                    Op2::LessEqual => l <= r,
                    _ => l >= r,
                },
            )
        }),
{
    let l = st.mem[st.regs[Reg::RBP] + si];
    let r = st.mem[st.regs[Reg::RBP] + below];
    lemma_compare_flags(l, r);
    let s1 = Cpu { regs: st.regs.insert(Reg::RCX, l), ..st };
    assert(step(code, pc, st) == Step::Next(pc + 1, s1));
    let s2 = Cpu { regs: s1.regs.insert(Reg::RAX, r), ..s1 };
    assert(step(code, pc + 1, s1) == Step::Next(pc + 2, s2));
    let s3 = with_flags(s2, l - r);
    assert(step(code, pc + 2, s2) == Step::Next(pc + 3, s3));
    let s4 = Cpu { regs: s3.regs.insert(Reg::RAX, 3), ..s3 };
    assert(step(code, pc + 3, s3) == Step::Next(pc + 4, s4));
    let s5 = Cpu { regs: s4.regs.insert(Reg::RCX, 1), ..s4 };
    assert(step(code, pc + 4, s4) == Step::Next(pc + 5, s5));
    let holds = match op {
        Op2::Less => l < r,
        Op2::Greater => l > r,
        Op2::LessEqual => l <= r,
        _ => l >= r,
    };
    let end = if holds {
        Cpu { regs: s5.regs.insert(Reg::RAX, 1), ..s5 }
    } else {
        s5
    };
    assert(step(code, pc + 5, s5) == Step::Next(pc + 6, end));
    reveal_with_fuel(run, 7);
    end
}

/// The code of an ordering comparison does to the left word in the slot
/// `si` and the right word in `rax` what `binop_word` says, and writes to
/// the slot below `si` only.
#[verifier::rlimit(50)]
pub proof fn lemma_ordering_runs(
    op: Op2,
    code: Seq<InstrView>,
    pc: int,
    st: Cpu,
    si: i32,
    below: i32,
    fuel: nat,
) -> (end: Cpu)
    requires
        is_ordering(op),
        below == si - 8,
        placed(code, pc, spec_binop_code(op, si, below)),
        with_handlers(code),
        fuel >= 19,
    ensures
        frames(st, end, below as int, below as int),
        match binop_word(op, st.mem[st.regs[Reg::RBP] + si], st.regs[Reg::RAX]) {
            Ok(x) => run(code, pc, st, fuel) == run(code, pc + 11, end, (fuel - 11) as nat)
                && end.regs[Reg::RAX] == x,
            Err(f) => run(code, pc, st, fuel) == Outcome::Fault(f),
        },
{
    let part = spec_binop_code(op, si, below);
    let head = seq![InstrView::IMov(slot(below), Val::Reg(Reg::RAX))];
    let check = spec_both_numeric_code(si);
    let tail = part.subrange(5, 11);
    assert(part =~= head + check + tail);
    lemma_placed_parts(code, pc, head + check, tail);
    lemma_placed_parts(code, pc, head, check);
    let l = st.mem[st.regs[Reg::RBP] + si];
    let r = st.regs[Reg::RAX];
    assert(code[pc + 0] == head[0]);
    let s1 = Cpu { mem: st.mem.insert(st.regs[Reg::RBP] + below, r), ..st };
    assert(step(code, pc, st) == Step::Next(pc + 1, s1));
    assert(run(code, pc, st, fuel) == run(code, pc + 1, s1, (fuel - 1) as nat)) by {
        reveal_with_fuel(run, 2);
    }
    assert(s1.mem[s1.regs[Reg::RBP] + si] == l);
    let s2 = lemma_both_numeric_runs(code, pc + 1, s1, si, (fuel - 1) as nat);
    if l % 2 == 0 && r % 2 == 0 {
        let at = pc + 5;
        assert(code[at + 0] == tail[0]);
        assert(code[at + 1] == tail[1]);
        assert(code[at + 2] == tail[2]);
        assert(code[at + 3] == tail[3]);
        assert(code[at + 4] == tail[4]);
        assert(code[at + 5] == tail[5]);
        lemma_select_runs(op, code, at, s2, si, below, (fuel - 5) as nat)
    } else {
        s2
    }
}

/// The code of a binary operation: the code of the left operand, the store
/// of its word to the slot `si`, the code of the right operand one slot
/// below, and the code of the operator.
pub proof fn lemma_binop_code(
    e: ExprView,
    si: i32,
    env: Map<Seq<char>, i32>,
    defines: Map<Seq<char>, i32>,
    funs: Map<Seq<char>, usize>,
    loop_end: Option<Seq<char>>,
    gen: CodeGen,
)
    requires
        e is BinOp,
        code_of(e, si, env, defines, funs, loop_end, gen) is Ok,
    ensures
        ({
            let op = e->BinOp_0;
            let c = code_of(e, si, env, defines, funs, loop_end, gen)->Ok_0;
            let below = (si - 8) as i32;
            &&& si >= i32::MIN + 8
            &&& code_of(*e->BinOp_1, si, env, defines, funs, loop_end, gen) matches Ok(cl)
            &&& code_of(*e->BinOp_2, below, env, defines, funs, loop_end, cl.gen) matches Ok(
                cr,
            )
            &&& c.code == cl.code + seq![InstrView::IMov(slot(si), Val::Reg(Reg::RAX))] + cr.code
                + spec_binop_code(op, si, below)
            &&& c.gen == cr.gen
            &&& c.min_si == min32(
                min32(min32(si, cl.min_si), cr.min_si),
                if is_ordering(op) {
                    below
                } else {
                    si
                },
            )
        }),
{
    reveal(code_of);
    let cl = code_of(*e->BinOp_1, si, env, defines, funs, loop_end, gen)->Ok_0;
    assert(cl.code.push(InstrView::IMov(slot(si), Val::Reg(Reg::RAX))) =~= cl.code + seq![
        InstrView::IMov(slot(si), Val::Reg(Reg::RAX)),
    ]);
}

/// The code of an arithmetic expression uses no label and no new heap slot,
/// and reaches no slot above its first one.
pub proof fn lemma_arithmetic_code(
    e: ExprView,
    si: i32,
    env: Map<Seq<char>, i32>,
    defines: Map<Seq<char>, i32>,
    funs: Map<Seq<char>, usize>,
    loop_end: Option<Seq<char>>,
    gen: CodeGen,
)
    requires
        arithmetic(e),
        gen.input_heap_offset is Some,
        code_of(e, si, env, defines, funs, loop_end, gen) is Ok,
    ensures
        code_of(e, si, env, defines, funs, loop_end, gen)->Ok_0.gen == gen,
        code_of(e, si, env, defines, funs, loop_end, gen)->Ok_0.min_si <= si,
    decreases e,
{
    if e is BinOp {
        lemma_binop_code(e, si, env, defines, funs, loop_end, gen);
        lemma_arithmetic_code(*e->BinOp_1, si, env, defines, funs, loop_end, gen);
        lemma_arithmetic_code(*e->BinOp_2, (si - 8) as i32, env, defines, funs, loop_end, gen);
    } else if e is UnOp || e is Cast {
        lemma_wrapped_code(e, si, env, defines, funs, loop_end, gen);
        let a = match e {
            ExprView::UnOp(_, a) => *a,
            ExprView::Cast(a, _) => *a,
            _ => e,
        };
        lemma_arithmetic_code(a, si, env, defines, funs, loop_end, gen);
    } else {
        lemma_leaf_code(e, si, env, defines, funs, loop_end, gen);
    }
}

/// Generated code computes: the code of an arithmetic expression, wherever
/// it stands in code that has the handlers, leaves in `rax` the tagged word
/// that the expression has for the input in its heap slot, or ends in the
/// fault of the first run-time error in evaluation order. It writes to
/// memory only in the frame slots between the lowest one it reports and its
/// first one, and leaves the stack and what was printed as they were.
#[verifier::rlimit(50)]
pub proof fn lemma_arithmetic_runs(
    e: ExprView,
    si: i32,
    env: Map<Seq<char>, i32>,
    defines: Map<Seq<char>, i32>,
    funs: Map<Seq<char>, usize>,
    loop_end: Option<Seq<char>>,
    gen: CodeGen,
    code: Seq<InstrView>,
    pc: int,
    st: Cpu,
    fuel: nat,
) -> (end: Cpu)
    requires
        arithmetic(e),
        gen.input_heap_offset is Some,
        code_of(e, si, env, defines, funs, loop_end, gen) is Ok,
        placed(code, pc, code_of(e, si, env, defines, funs, loop_end, gen)->Ok_0.code),
        with_handlers(code),
        ({
            let at = st.regs[Reg::R15] + gen.input_heap_offset->Some_0;
            let c = code_of(e, si, env, defines, funs, loop_end, gen)->Ok_0;
            at < st.regs[Reg::RBP] + c.min_si || at > st.regs[Reg::RBP] + si
        }),
        fuel >= code_of(e, si, env, defines, funs, loop_end, gen)->Ok_0.code.len() + 20,
    ensures
        frames(
            st,
            end,
            code_of(e, si, env, defines, funs, loop_end, gen)->Ok_0.min_si as int,
            si as int,
        ),
        ({
            let c = code_of(e, si, env, defines, funs, loop_end, gen)->Ok_0;
            let input = st.mem[st.regs[Reg::R15] + gen.input_heap_offset->Some_0];
            match eval_word(e, input) {
                Ok(r) => run(code, pc, st, fuel) == run(
                    code,
                    pc + c.code.len(),
                    end,
                    (fuel - c.code.len()) as nat,
                ) && end.regs[Reg::RAX] == r,
                Err(f) => run(code, pc, st, fuel) == Outcome::Fault(f),
            }
        }),
    decreases e, 1int,
{
    let c = code_of(e, si, env, defines, funs, loop_end, gen)->Ok_0;
    let input = st.mem[st.regs[Reg::R15] + gen.input_heap_offset->Some_0];
    if e is BinOp {
        lemma_binop_runs(e, si, env, defines, funs, loop_end, gen, code, pc, st, fuel)
    } else if e is UnOp || e is Cast {
        lemma_wrapped_code(e, si, env, defines, funs, loop_end, gen);
        let a = match e {
            ExprView::UnOp(_, a) => *a,
            ExprView::Cast(a, _) => *a,
            _ => e,
        };
        let tail = match e {
            ExprView::UnOp(op, _) => spec_unop_code(op),
            ExprView::Cast(_, t) => spec_cast_code(t),
            _ => Seq::empty(),
        };
        let ca = code_of(a, si, env, defines, funs, loop_end, gen)->Ok_0;
        lemma_arithmetic_code(a, si, env, defines, funs, loop_end, gen);
        lemma_placed_parts(code, pc, ca.code, tail);
        let mid = lemma_arithmetic_runs(a, si, env, defines, funs, loop_end, gen, code, pc, st, fuel);
        match eval_word(a, input) {
            Ok(w) => {
                let at = pc + ca.code.len();
                let left = (fuel - ca.code.len()) as nat;
                match e {
                    ExprView::UnOp(op, _) => lemma_unop_runs(op, code, at, mid, left),
                    ExprView::Cast(_, t) => lemma_cast_runs(t, code, at, mid, left),
                    _ => mid,
                }
            },
            Err(_) => mid,
        }
    } else {
        lemma_leaf_code(e, si, env, defines, funs, loop_end, gen);
        let w = eval_word(e, input)->Ok_0;
        let end = Cpu { regs: st.regs.insert(Reg::RAX, w), ..st };
        assert(code[pc + 0] == c.code[0]);
        assert(step(code, pc, st) == Step::Next(pc + 1, end));
        assert(run(code, pc, st, fuel) == run(code, pc + 1, end, (fuel - 1) as nat)) by {
            reveal_with_fuel(run, 2);
        }
        end
    }
}

#[verifier::rlimit(50)]
proof fn lemma_binop_runs(
    e: ExprView,
    si: i32,
    env: Map<Seq<char>, i32>,
    defines: Map<Seq<char>, i32>,
    funs: Map<Seq<char>, usize>,
    loop_end: Option<Seq<char>>,
    gen: CodeGen,
    code: Seq<InstrView>,
    pc: int,
    st: Cpu,
    fuel: nat,
) -> (end: Cpu)
    requires
        e is BinOp,
        arithmetic(e),
        gen.input_heap_offset is Some,
        code_of(e, si, env, defines, funs, loop_end, gen) is Ok,
        placed(code, pc, code_of(e, si, env, defines, funs, loop_end, gen)->Ok_0.code),
        with_handlers(code),
        ({
            let at = st.regs[Reg::R15] + gen.input_heap_offset->Some_0;
            let c = code_of(e, si, env, defines, funs, loop_end, gen)->Ok_0;
            at < st.regs[Reg::RBP] + c.min_si || at > st.regs[Reg::RBP] + si
        }),
        fuel >= code_of(e, si, env, defines, funs, loop_end, gen)->Ok_0.code.len() + 20,
    ensures
        frames(
            st,
            end,
            code_of(e, si, env, defines, funs, loop_end, gen)->Ok_0.min_si as int,
            si as int,
        ),
        ({
            let c = code_of(e, si, env, defines, funs, loop_end, gen)->Ok_0;
            let input = st.mem[st.regs[Reg::R15] + gen.input_heap_offset->Some_0];
            match eval_word(e, input) {
                Ok(r) => run(code, pc, st, fuel) == run(
                    code,
                    pc + c.code.len(),
                    end,
                    (fuel - c.code.len()) as nat,
                ) && end.regs[Reg::RAX] == r,
                Err(f) => run(code, pc, st, fuel) == Outcome::Fault(f),
            }
        }),
    decreases e, 0int,
{
    let op = e->BinOp_0;
    let a = *e->BinOp_1;
    let b = *e->BinOp_2;
    let c = code_of(e, si, env, defines, funs, loop_end, gen)->Ok_0;
    let below = (si - 8) as i32;
    lemma_binop_code(e, si, env, defines, funs, loop_end, gen);
    lemma_arithmetic_code(a, si, env, defines, funs, loop_end, gen);
    lemma_arithmetic_code(b, below, env, defines, funs, loop_end, gen);
    let ia = st.regs[Reg::R15] + gen.input_heap_offset->Some_0;
    let input = st.mem[ia];
    let base = st.regs[Reg::RBP] as int;
    lemma_binop_code(e, si, env, defines, funs, loop_end, gen);
    let cl = code_of(a, si, env, defines, funs, loop_end, gen)->Ok_0;
    let store = seq![InstrView::IMov(slot(si), Val::Reg(Reg::RAX))];
    let opcode = spec_binop_code(op, si, below);
    // Where the four parts stand.
    let right = code_of(b, below, env, defines, funs, loop_end, cl.gen)->Ok_0;
    assert(c.code =~= (cl.code + store) + (right.code + opcode));
    lemma_placed_parts(code, pc, cl.code + store, right.code + opcode);
    lemma_placed_parts(code, pc, cl.code, store);
    lemma_placed_parts(code, pc + cl.code.len() + 1, right.code, opcode);
    // The left operand.
    let mid1 = lemma_arithmetic_runs(a, si, env, defines, funs, loop_end, gen, code, pc, st, fuel);
    let cr = code_of(b, below, env, defines, funs, loop_end, gen)->Ok_0;
    assert(cr == right);
    match eval_word(a, input) {
        Err(_) => mid1,
        Ok(l) => {
            // The store of its word.
            let at1 = pc + cl.code.len();
            let fuel1 = (fuel - cl.code.len()) as nat;
            assert(code[at1 + 0] == store[0]);
            let mid2 = Cpu { mem: mid1.mem.insert(base + si, l), ..mid1 };
            assert(step(code, at1, mid1) == Step::Next(at1 + 1, mid2));
            assert(run(code, at1, mid1, fuel1) == run(code, at1 + 1, mid2, (fuel1 - 1) as nat)) by {
                reveal_with_fuel(run, 2);
            }
            // The right operand.
            let at2 = at1 + 1;
            let fuel2 = (fuel1 - 1) as nat;
            assert(mid2.mem[ia] == input);
            let mid3 = lemma_arithmetic_runs(
                b,
                below,
                env,
                defines,
                funs,
                loop_end,
                gen,
                code,
                at2,
                mid2,
                fuel2,
            );
            match eval_word(b, input) {
                Err(_) => {
                    assert(frames(st, mid3, c.min_si as int, si as int));
                    mid3
                },
                Ok(r) => {
                    // The operator.
                    let at3 = at2 + cr.code.len();
                    let fuel3 = (fuel2 - cr.code.len()) as nat;
                    assert(mid3.mem[base + si] == l);
                    let end = if is_ordering(op) {
                        lemma_ordering_runs(op, code, at3, mid3, si, below, fuel3)
                    } else if op == Op2::Equal {
                        lemma_equal_runs(code, at3, mid3, si, below, fuel3)
                    } else {
                        lemma_arith_runs(op, code, at3, mid3, si, below, fuel3)
                    };
                    assert(frames(st, end, c.min_si as int, si as int));
                    end
                },
            }
        },
    }
}

/// The code of an arithmetic expression defines no label.
pub proof fn lemma_arithmetic_without_labels(
    e: ExprView,
    si: i32,
    env: Map<Seq<char>, i32>,
    defines: Map<Seq<char>, i32>,
    funs: Map<Seq<char>, usize>,
    loop_end: Option<Seq<char>>,
    gen: CodeGen,
)
    requires
        arithmetic(e),
        gen.input_heap_offset is Some,
        code_of(e, si, env, defines, funs, loop_end, gen) is Ok,
    ensures
        without_labels(code_of(e, si, env, defines, funs, loop_end, gen)->Ok_0.code),
    decreases e,
{
    let c = code_of(e, si, env, defines, funs, loop_end, gen)->Ok_0;
    if e is BinOp {
        let op = e->BinOp_0;
        let below = (si - 8) as i32;
        lemma_binop_code(e, si, env, defines, funs, loop_end, gen);
        lemma_arithmetic_code(*e->BinOp_1, si, env, defines, funs, loop_end, gen);
        lemma_arithmetic_without_labels(*e->BinOp_1, si, env, defines, funs, loop_end, gen);
        lemma_arithmetic_without_labels(*e->BinOp_2, below, env, defines, funs, loop_end, gen);
        lemma_operator_without_labels(Op1::Add1, op, Type::Any, si, below);
        let cl = code_of(*e->BinOp_1, si, env, defines, funs, loop_end, gen)->Ok_0;
        let cr = code_of(*e->BinOp_2, below, env, defines, funs, loop_end, gen)->Ok_0;
        let store = seq![InstrView::IMov(slot(si), Val::Reg(Reg::RAX))];
        lemma_without_labels_add(cl.code, store);
        lemma_without_labels_add(cl.code + store, cr.code);
        lemma_without_labels_add(cl.code + store + cr.code, spec_binop_code(op, si, below));
    } else if e is UnOp || e is Cast {
        lemma_wrapped_code(e, si, env, defines, funs, loop_end, gen);
        let a = match e {
            ExprView::UnOp(_, a) => *a,
            ExprView::Cast(a, _) => *a,
            _ => e,
        };
        let tail = match e {
            ExprView::UnOp(op, _) => spec_unop_code(op),
            ExprView::Cast(_, t) => spec_cast_code(t),
            _ => Seq::empty(),
        };
        lemma_arithmetic_without_labels(a, si, env, defines, funs, loop_end, gen);
        match e {
            ExprView::UnOp(op, _) => lemma_operator_without_labels(op, Op2::Plus, Type::Any, si, si),
            ExprView::Cast(_, t) => lemma_operator_without_labels(Op1::Add1, Op2::Plus, t, si, si),
            _ => {},
        }
        lemma_without_labels_add(code_of(a, si, env, defines, funs, loop_end, gen)->Ok_0.code, tail);
    } else {
        lemma_leaf_code(e, si, env, defines, funs, loop_end, gen);
    }
}

/// Code made of code without labels has no labels.
pub proof fn lemma_without_labels_add(a: Seq<InstrView>, b: Seq<InstrView>)
    requires
        without_labels(a),
        without_labels(b),
    ensures
        without_labels(a + b),
{
    assert forall|k: int| 0 <= k < (a + b).len() implies !(#[trigger] (a + b)[k] is ILabel) by {
        if k < a.len() {
            assert((a + b)[k] == a[k]);
        } else {
            assert((a + b)[k] == b[k - a.len()]);
        }
    }
}

/// The code of the operators and of the cast checks defines no label.
pub proof fn lemma_operator_without_labels(op1: Op1, op2: Op2, t: Type, si: i32, below: i32)
    ensures
        without_labels(spec_unop_code(op1)),
        without_labels(spec_binop_code(op2, si, below)),
        without_labels(spec_cast_code(t)),
{
    let check = spec_both_numeric_code(si);
    assert forall|k: int| 0 <= k < check.len() implies !(#[trigger] check[k] is ILabel) by {}
    let b = spec_binop_code(op2, si, below);
    if op2 == Op2::Plus || op2 == Op2::Minus || op2 == Op2::Times {
        let tail = b.subrange(4, b.len() as int);
        assert(b =~= check + tail);
        assert forall|k: int| 0 <= k < tail.len() implies !(#[trigger] tail[k] is ILabel) by {}
        lemma_without_labels_add(check, tail);
    } else if op2 == Op2::Equal {
        assert forall|k: int| 0 <= k < b.len() implies !(#[trigger] b[k] is ILabel) by {}
    } else {
        let head = seq![InstrView::IMov(slot(below), Val::Reg(Reg::RAX))];
        let tail = b.subrange(5, 11);
        assert(b =~= head + check + tail);
        assert forall|k: int| 0 <= k < tail.len() implies !(#[trigger] tail[k] is ILabel) by {}
        lemma_without_labels_add(head, check);
        lemma_without_labels_add(head + check, tail);
    }
}

/// The instruction that makes room for the frame of a main expression that
/// reached the slot `min_si`, if it needs any.
pub open spec fn frame_code(min_si: i32) -> Seq<InstrView> {
    if spec_frame_size(min_si, true) > 0 {
        seq![
            InstrView::ISub(
                Val::Reg(Reg::RSP),
                Val::Imm(spec_frame_size(min_si, true) as i32),
            ),
        ]
    } else {
        Seq::empty()
    }
}

/// The code of a program without functions: the entry, the frame, the code
/// of the main expression, the exit, the handlers.
#[verifier::rlimit(50)]
pub proof fn lemma_program_code(e: ExprView)
    requires
        spec_program_code(ProgramView { defns: Seq::empty(), main: e }) is Ok,
    ensures
        code_of(e, -8i32, Map::empty(), Map::empty(), Map::empty(), None, main_gen()) matches Ok(c)
            && program(e) == entry_code() + frame_code(c.min_si) + c.code + exit_code()
            + spec_error_handlers(),
{
    reveal(code_of);
    let p = ProgramView { defns: Seq::empty(), main: e };
    let funs = Map::<Seq<char>, usize>::empty();
    let start = CodeGen { label_counter: 0, heap_offset: 0, input_heap_offset: None };
    assert(spec_fun_table(p.defns, 0, Map::empty()) == Ok::<
        Map<Seq<char>, usize>,
        crate::compiler::CompileErrorView,
    >(funs));
    assert(spec_compile_functions(p.defns, 0, funs, start, Seq::empty()) == Ok::<
        (Seq<InstrView>, CodeGen),
        crate::compiler::CompileErrorView,
    >((Seq::empty(), start)));
    assert(start.spec_input_slot() == Some((main_gen(), 0i32)));
    let c = spec_compile(e, -8i32, Map::empty(), Map::empty(), Map::empty(), None, main_gen())->Ok_0;
    let main = spec_compile_main(e, Map::empty(), funs, start)->Ok_0.0;
    assert(main =~= entry_code() + frame_code(c.min_si) + c.code + exit_code());
    assert(spec_program_code(p)->Ok_0 =~= main);
}

/// The stack that a program needs below the host's return address: the
/// saved frame base and the frame.
pub open spec fn room(e: ExprView) -> int {
    16 - code_of(e, -8i32, Map::empty(), Map::empty(), Map::empty(), None, main_gen())->Ok_0.min_si
}

/// Whether `code` is laid out as a program with the main expression `e`:
/// the entry, the frame, the code of `e`, the exit, and somewhere the
/// handlers.
pub open spec fn laid_out(code: Seq<InstrView>, e: ExprView) -> bool {
    let c = code_of(e, -8i32, Map::empty(), Map::empty(), Map::empty(), None, main_gen())->Ok_0;
    let frame = frame_code(c.min_si);
    &&& code_of(e, -8i32, Map::empty(), Map::empty(), Map::empty(), None, main_gen()) is Ok
    &&& with_handlers(code)
    &&& placed(code, 0, entry_code())
    &&& placed(code, 4, frame)
    &&& placed(code, (4 + frame.len()) as int, c.code)
    &&& placed(code, (4 + frame.len() + c.code.len()) as int, exit_code())
}

/// Code with the handlers behind a part that defines no label but that of
/// the entry has the handlers.
pub proof fn lemma_with_handlers(body: Seq<InstrView>)
    requires
        without_labels(body),
    ensures
        with_handlers(entry_code() + body + exit_code() + spec_error_handlers()),
{
    let code = entry_code() + body + exit_code() + spec_error_handlers();
    lemma_handler_positions(body);
    assert(has_handler(code, "error_overflow"@, 1));
    assert(has_handler(code, "error_invalid_argument"@, 2));
    assert(has_handler(code, "error_bad_cast"@, 3));
}

/// The parts of a code stand where they are put.
pub proof fn lemma_four_parts(
    a: Seq<InstrView>,
    b: Seq<InstrView>,
    c: Seq<InstrView>,
    d: Seq<InstrView>,
    rest: Seq<InstrView>,
)
    ensures
        placed(a + b + c + d + rest, 0, a),
        placed(a + b + c + d + rest, a.len() as int, b),
        placed(a + b + c + d + rest, (a.len() + b.len()) as int, c),
        placed(a + b + c + d + rest, (a.len() + b.len() + c.len()) as int, d),
{
    let code = a + b + c + d + rest;
    assert(code =~= (a + b + c + d) + rest);
    lemma_placed_parts(code, 0, a + b + c + d, rest);
    lemma_placed_parts(code, 0, a + b + c, d);
    lemma_placed_parts(code, 0, a + b, c);
    lemma_placed_parts(code, 0, a, b);
}

/// A program without functions is laid out as one.
#[verifier::rlimit(50)]
pub proof fn lemma_program_laid_out(e: ExprView)
    requires
        arithmetic(e),
        spec_program_code(ProgramView { defns: Seq::empty(), main: e }) is Ok,
    ensures
        laid_out(program(e), e),
{
    lemma_program_code(e);
    let nothing = Map::<Seq<char>, i32>::empty();
    let funs = Map::<Seq<char>, usize>::empty();
    let c = code_of(e, -8i32, nothing, nothing, funs, None, main_gen())->Ok_0;
    let code = program(e);
    let frame = frame_code(c.min_si);
    assert(with_handlers(code)) by {
        lemma_arithmetic_without_labels(e, -8i32, nothing, nothing, funs, None, main_gen());
        assert forall|k: int| 0 <= k < frame.len() implies !(#[trigger] frame[k] is ILabel) by {}
        lemma_without_labels_add(frame, c.code);
        assert(code =~= entry_code() + (frame + c.code) + exit_code() + spec_error_handlers());
        lemma_with_handlers(frame + c.code);
    }
    lemma_four_parts(entry_code(), frame, c.code, exit_code(), spec_error_handlers());
}

/// Code that is laid out as a program with an arithmetic main expression
/// computes it: entered by the host with the input word in `rdi`, it
/// returns to the host with the tagged word of the expression in `rax`, or
/// ends in the fault of the first run-time error in evaluation order; and
/// it prints nothing.
#[verifier::rlimit(50)]
pub proof fn lemma_laid_out_runs(
    code: Seq<InstrView>,
    e: ExprView,
    st: Cpu,
    input: i64,
    fuel: nat,
)
    requires
        arithmetic(e),
        laid_out(code, e),
        entered(st, input, room(e)),
        fuel >= code.len() + 32,
    ensures
        match eval_word(e, input) {
            Ok(r) => run(code, 0, st, fuel) matches Outcome::Returned(end) && end.regs[Reg::RAX]
                == r && end.printed == st.printed,
            Err(f) => run(code, 0, st, fuel) == Outcome::Fault(f),
        },
{
    let nothing = Map::<Seq<char>, i32>::empty();
    let funs = Map::<Seq<char>, usize>::empty();
    let c = code_of(e, -8i32, nothing, nothing, funs, None, main_gen())->Ok_0;
    lemma_arithmetic_code(e, -8i32, nothing, nothing, funs, None, main_gen());
    let frame = frame_code(c.min_si);
    // The entry.
    assert forall|j: int| 0 <= j < 4 implies code[j] == entry_code()[j] by {
        assert(code[0 + j] == entry_code()[j]);
    }
    lemma_entry_runs(code, st, fuel);
    lemma_started(st, input, room(e));
    let sp = st.regs[Reg::RSP] as int;
    let s0 = started(st);
    // The frame.
    let at = (4 + frame.len()) as int;
    let s1 = lemma_frame_runs(code, c.min_si, s0, (fuel - 4) as nat);
    // The main expression.
    let s2 = lemma_arithmetic_runs(
        e,
        -8i32,
        nothing,
        nothing,
        funs,
        None,
        main_gen(),
        code,
        at,
        s1,
        (fuel - at) as nat,
    );
    // The exit.
    match eval_word(e, input) {
        Ok(_) => {
            let out = at + c.code.len();
            assert forall|j: int| 0 <= j < 3 implies code[out + j] == exit_code()[j] by {}
            lemma_exit_returns(code, out, s2, sp, (fuel - out) as nat);
        },
        Err(_) => {},
    }
}

/// A program whose main expression is arithmetic computes it: entered by
/// the host with the input word in `rdi`, the program returns to the host
/// with the tagged word of the expression in `rax`, or ends in the fault of
/// the first run-time error in evaluation order; and it prints nothing.
pub proof fn lemma_program_runs(e: ExprView, st: Cpu, input: i64, fuel: nat)
    requires
        arithmetic(e),
        spec_program_code(ProgramView { defns: Seq::empty(), main: e }) is Ok,
        entered(st, input, room(e)),
        fuel >= program(e).len() + 32,
    ensures
        match eval_word(e, input) {
            Ok(r) => run(program(e), 0, st, fuel) matches Outcome::Returned(end)
                && end.regs[Reg::RAX] == r && end.printed == st.printed,
            Err(f) => run(program(e), 0, st, fuel) == Outcome::Fault(f),
        },
{
    lemma_program_laid_out(e);
    lemma_laid_out_runs(program(e), e, st, input, fuel);
}

/// The instruction that makes room for the frame lowers the stack pointer
/// and changes nothing else but the flags.
proof fn lemma_frame_runs(code: Seq<InstrView>, min_si: i32, st: Cpu, fuel: nat) -> (end: Cpu)
    requires
        placed(code, 4, frame_code(min_si)),
        fuel >= 1,
    ensures
        run(code, 4, st, fuel) == run(
            code,
            (4 + frame_code(min_si).len()) as int,
            end,
            (fuel - frame_code(min_si).len()) as nat,
        ),
        end.mem == st.mem,
        end.printed == st.printed,
        end.regs[Reg::RBP] == st.regs[Reg::RBP],
        end.regs[Reg::R15] == st.regs[Reg::R15],
{
    let frame = frame_code(min_si);
    if frame.len() > 0 {
        assert(code[4int + 0] == frame[0]);
        let exact = st.regs[Reg::RSP] - spec_frame_size(min_si, true) as i32;
        let flagged = with_flags(st, exact);
        let end = Cpu { regs: flagged.regs.insert(Reg::RSP, exact as i64), ..flagged };
        assert(step(code, 4, st) == Step::Next(5, end));
        reveal_with_fuel(run, 2);
        end
    } else {
        st
    }
}

/// Whether a value has a tagged word: an integer must be in the 63-bit
/// range.
pub open spec fn valid(v: Value) -> bool {
    v matches Value::Int(n) ==> MIN_INT <= n <= MAX_INT
}

/// The tagged word of a value.
pub open spec fn word(v: Value) -> i64 {
    encode(v) as i64
}

/// An integer if it is in the 63-bit range, else the overflow error.
pub open spec fn int_or_overflow(n: int) -> Result<Value, i64> {
    if MIN_INT <= n <= MAX_INT {
        Ok(Value::Int(n))
    } else {
        Err(1)
    }
}

/// What a unary operator makes of a value: increment and decrement take an
/// integer and must stay in range, the predicates tell integers from
/// booleans.
pub open spec fn unop_value(op: Op1, v: Value) -> Result<Value, i64> {
    match op {
        Op1::Add1 => match v {
            Value::Int(n) => int_or_overflow(n + 1),
            Value::Bool(_) => Err(2),
        },
        Op1::Sub1 => match v {
            Value::Int(n) => int_or_overflow(n - 1),
            Value::Bool(_) => Err(2),
        },
        Op1::IsNum => Ok(Value::Bool(v is Int)),
        Op1::IsBool => Ok(Value::Bool(v is Bool)),
        Op1::Print => Ok(v),
    }
}

/// What a binary operator makes of two values: equality takes any two,
/// arithmetic and ordering take two integers, and arithmetic must stay in
/// range.
pub open spec fn binop_value(op: Op2, l: Value, r: Value) -> Result<Value, i64> {
    if op == Op2::Equal {
        Ok(Value::Bool(l == r))
    } else {
        match (l, r) {
            (Value::Int(x), Value::Int(y)) => match op {
                Op2::Plus => int_or_overflow(x + y),
                Op2::Minus => int_or_overflow(x - y),
                Op2::Times => int_or_overflow(x * y),
                Op2::Less => Ok(Value::Bool(x < y)),
                Op2::Greater => Ok(Value::Bool(x > y)),
                Op2::LessEqual => Ok(Value::Bool(x <= y)),
                _ => Ok(Value::Bool(x >= y)),
            },
            _ => Err(2),
        }
    }
}

/// What a cast makes of a value: the value if it is of the target type,
/// else the bad-cast error.
pub open spec fn cast_value(t: Type, v: Value) -> Result<Value, i64> {
    match t {
        Type::Num => if v is Int {
            Ok(v)
        } else {
            Err(3)
        },
        Type::Bool => if v is Bool {
            Ok(v)
        } else {
            Err(3)
        },
        Type::Nothing => Err(3),
        Type::Any => Ok(v),
    }
}

/// The value of an arithmetic expression for the external input `input`, or
/// the code of the first run-time error in evaluation order: 1 for
/// overflow, 2 for an invalid argument, 3 for a bad cast.
pub open spec fn eval(e: ExprView, input: Value) -> Result<Value, i64>
    decreases e,
{
    match e {
        ExprView::Number(n) => Ok(Value::Int(n)),
        ExprView::Boolean(b) => Ok(Value::Bool(b)),
        ExprView::Input => Ok(input),
        ExprView::UnOp(op, a) => match eval(*a, input) {
            Err(f) => Err(f),
            Ok(v) => unop_value(op, v),
        },
        ExprView::BinOp(op, a, b) => match eval(*a, input) {
            Err(f) => Err(f),
            Ok(l) => match eval(*b, input) {
                Err(f) => Err(f),
                Ok(r) => binop_value(op, l, r),
            },
        },
        ExprView::Cast(a, t) => match eval(*a, input) {
            Err(f) => Err(f),
            Ok(v) => cast_value(t, v),
        },
        _ => Err(0),
    }
}

/// Whether the tagged word of every integer literal of `e` fits an
/// immediate.
pub open spec fn literals_fit(e: ExprView) -> bool
    decreases e,
{
    match e {
        ExprView::Number(n) => -0x4000_0000 <= n < 0x4000_0000,
        ExprView::UnOp(_, a) => literals_fit(*a),
        ExprView::BinOp(_, a, b) => literals_fit(*a) && literals_fit(*b),
        ExprView::Cast(a, _) => literals_fit(*a),
        _ => true,
    }
}

/// The literals of an arithmetic expression that compiles fit.
pub proof fn lemma_compiled_literals_fit(
    e: ExprView,
    si: i32,
    env: Map<Seq<char>, i32>,
    defines: Map<Seq<char>, i32>,
    funs: Map<Seq<char>, usize>,
    loop_end: Option<Seq<char>>,
    gen: CodeGen,
)
    requires
        arithmetic(e),
        gen.input_heap_offset is Some,
        code_of(e, si, env, defines, funs, loop_end, gen) is Ok,
    ensures
        literals_fit(e),
    decreases e,
{
    if e is BinOp {
        lemma_binop_code(e, si, env, defines, funs, loop_end, gen);
        lemma_arithmetic_code(*e->BinOp_1, si, env, defines, funs, loop_end, gen);
        lemma_compiled_literals_fit(*e->BinOp_1, si, env, defines, funs, loop_end, gen);
        lemma_compiled_literals_fit(*e->BinOp_2, (si - 8) as i32, env, defines, funs, loop_end, gen);
    } else if e is UnOp || e is Cast {
        lemma_wrapped_code(e, si, env, defines, funs, loop_end, gen);
        let a = match e {
            ExprView::UnOp(_, a) => *a,
            ExprView::Cast(a, _) => *a,
            _ => e,
        };
        lemma_compiled_literals_fit(a, si, env, defines, funs, loop_end, gen);
    } else {
        lemma_leaf_code(e, si, env, defines, funs, loop_end, gen);
    }
}

/// The operators on words are the operators on values: for values that
/// have tagged words, the word of the result is the result on the words,
/// and the errors are the same.
pub proof fn lemma_operator_words(op1: Op1, op2: Op2, t: Type, l: Value, r: Value)
    requires
        valid(l),
        valid(r),
        op1 != Op1::Print,
    ensures
        match unop_value(op1, l) {
            Ok(v) => valid(v) && unop_word(op1, word(l)) == Ok::<i64, i64>(word(v)),
            Err(f) => unop_word(op1, word(l)) == Err::<i64, i64>(f),
        },
        match binop_value(op2, l, r) {
            Ok(v) => valid(v) && binop_word(op2, word(l), word(r)) == Ok::<i64, i64>(word(v)),
            Err(f) => binop_word(op2, word(l), word(r)) == Err::<i64, i64>(f),
        },
        match cast_value(t, l) {
            Ok(v) => valid(v) && cast_word(t, word(l)) == Ok::<i64, i64>(word(v)),
            Err(f) => cast_word(t, word(l)) == Err::<i64, i64>(f),
        },
{
    match (l, r) {
        (Value::Int(x), Value::Int(y)) => {
            assert((2 * y) / 2 == y);
            assert(y * (2 * x) == 2 * (x * y)) by (nonlinear_arith);
        },
        _ => {},
    }
}

/// The word of an arithmetic expression is the tagged word of its value:
/// for an input that has a tagged word, evaluation on words gives the word
/// of the value, and the same errors.
pub proof fn lemma_word_of_value(e: ExprView, input: Value)
    requires
        arithmetic(e),
        literals_fit(e),
        valid(input),
    ensures
        match eval(e, input) {
            Ok(v) => valid(v) && eval_word(e, word(input)) == Ok::<i64, i64>(word(v)),
            Err(f) => eval_word(e, word(input)) == Err::<i64, i64>(f),
        },
    decreases e,
{
    match e {
        ExprView::UnOp(op, a) => {
            lemma_word_of_value(*a, input);
            match eval(*a, input) {
                Ok(v) => lemma_operator_words(op, Op2::Plus, Type::Any, v, v),
                Err(_) => {},
            }
        },
        ExprView::BinOp(op, a, b) => {
            lemma_word_of_value(*a, input);
            lemma_word_of_value(*b, input);
            match (eval(*a, input), eval(*b, input)) {
                (Ok(l), Ok(r)) => lemma_operator_words(Op1::Add1, op, Type::Any, l, r),
                _ => {},
            }
        },
        ExprView::Cast(a, t) => {
            lemma_word_of_value(*a, input);
            match eval(*a, input) {
                Ok(v) => lemma_operator_words(Op1::Add1, Op2::Plus, t, v, v),
                Err(_) => {},
            }
        },
        _ => {},
    }
}

/// Generated code computes what the program means. A program whose main
/// expression is arithmetic, entered by the host with the tagged word of
/// the input, returns the tagged word of the value of the expression, and
/// has printed nothing; or, where the evaluation of the expression meets a
/// run-time error, it ends in the fault with the code of that error. It
/// never returns anything else: an overflow is a fault, not a wrapped
/// value.
pub proof fn lemma_program_computes(e: ExprView, st: Cpu, input: Value, fuel: nat)
    requires
        arithmetic(e),
        spec_program_code(ProgramView { defns: Seq::empty(), main: e }) is Ok,
        valid(input),
        entered(st, word(input), room(e)),
        fuel >= program(e).len() + 32,
    ensures
        match eval(e, input) {
            Ok(v) => run(program(e), 0, st, fuel) matches Outcome::Returned(end) && decode(
                end.regs[Reg::RAX] as int,
            ) == Some(v) && end.printed == st.printed,
            Err(f) => run(program(e), 0, st, fuel) == Outcome::Fault(f),
        },
{
    lemma_program_code(e);
    lemma_compiled_literals_fit(
        e,
        -8i32,
        Map::empty(),
        Map::empty(),
        Map::empty(),
        None,
        main_gen(),
    );
    lemma_word_of_value(e, input);
    lemma_program_runs(e, st, word(input), fuel);
}

/// A program without functions compiles if its main expression does and
/// its frame fits; it then needs the room of its frame and is as long as
/// its parts.
#[verifier::rlimit(50)]
pub proof fn lemma_program_compiles(e: ExprView)
    requires
        spec_compile(e, -8i32, Map::empty(), Map::empty(), Map::empty(), None, main_gen()) is Ok,
        -64 <= spec_compile(
            e,
            -8i32,
            Map::empty(),
            Map::empty(),
            Map::empty(),
            None,
            main_gen(),
        )->Ok_0.min_si <= -8,
    ensures
        spec_program_code(ProgramView { defns: Seq::empty(), main: e }) is Ok,
        0 <= room(e) <= 80,
        program(e).len() == 4 + frame_code(
            spec_compile(
                e,
                -8i32,
                Map::empty(),
                Map::empty(),
                Map::empty(),
                None,
                main_gen(),
            )->Ok_0.min_si,
        ).len() + spec_compile(
            e,
            -8i32,
            Map::empty(),
            Map::empty(),
            Map::empty(),
            None,
            main_gen(),
        )->Ok_0.code.len() + 15,
{
    reveal(code_of);
    let p = ProgramView { defns: Seq::empty(), main: e };
    let funs = Map::<Seq<char>, usize>::empty();
    let start = CodeGen { label_counter: 0, heap_offset: 0, input_heap_offset: None };
    assert(spec_fun_table(p.defns, 0, Map::empty()) == Ok::<
        Map<Seq<char>, usize>,
        crate::compiler::CompileErrorView,
    >(funs));
    assert(spec_compile_functions(p.defns, 0, funs, start, Seq::empty()) == Ok::<
        (Seq<InstrView>, CodeGen),
        crate::compiler::CompileErrorView,
    >((Seq::empty(), start)));
    assert(start.spec_input_slot() == Some((main_gen(), 0i32)));
    assert(spec_compile_main(e, Map::empty(), funs, start) is Ok);
    lemma_program_code(e);
    assert(spec_error_handlers().len() == 12);
}

/// The host has entered with less room if it has entered with more.
pub proof fn lemma_entered_with_less(st: Cpu, input: i64, room: int, less: int)
    requires
        entered(st, input, room),
        0 <= less <= room,
    ensures
        entered(st, input, less),
{
}

/// A literal comes back as it was written: the program whose main
/// expression is an integer literal whose tagged word fits an immediate, or
/// a boolean literal, returns a word that decodes to the literal and that
/// the print boundary shows as the literal's text.
pub proof fn lemma_literal_comes_back(n: int, b: bool, st: Cpu, input: Value, fuel: nat)
    requires
        -0x4000_0000 <= n < 0x4000_0000,
        valid(input),
        entered(st, word(input), 80),
        fuel >= 64,
    ensures
        run(program(ExprView::Number(n)), 0, st, fuel) matches Outcome::Returned(end) && decode(
            end.regs[Reg::RAX] as int,
        ) == Some(Value::Int(n)) && spec_print_result(end.regs[Reg::RAX]) == Ok::<
            Seq<char>,
            Seq<char>,
        >(int_text(n)),
        run(program(ExprView::Boolean(b)), 0, st, fuel) matches Outcome::Returned(end) && decode(
            end.regs[Reg::RAX] as int,
        ) == Some(Value::Bool(b)) && spec_print_result(end.regs[Reg::RAX]) == Ok::<
            Seq<char>,
            Seq<char>,
        >(
            if b {
                "true"@
            } else {
                "false"@
            },
        ),
{
    let number = ExprView::Number(n);
    lemma_program_compiles(number);
    lemma_entered_with_less(st, word(input), 80, room(number));
    lemma_program_computes(number, st, input, fuel);
    let boolean = ExprView::Boolean(b);
    lemma_program_compiles(boolean);
    lemma_entered_with_less(st, word(input), 80, room(boolean));
    lemma_program_computes(boolean, st, input, fuel);
}

/// The three sample programs: their main expressions are arithmetic and
/// compile, to code of nine or five instructions that reaches at most one
/// frame slot.
pub proof fn lemma_samples_compile(op: Op1)
    requires
        op == Op1::Add1 || op == Op1::Sub1,
    ensures
        arithmetic(add1_sub1_input()),
        arithmetic(input_plus_one()),
        arithmetic(ExprView::UnOp(op, Box::new(ExprView::Input))),
        sample_compiles(add1_sub1_input(), -8i32, 9),
        sample_compiles(input_plus_one(), -16i32, 9),
        sample_compiles(ExprView::UnOp(op, Box::new(ExprView::Input)), -8i32, 5),
{
    assert(arithmetic(add1_sub1_input()) && arithmetic(input_plus_one()) && arithmetic(
        ExprView::UnOp(op, Box::new(ExprView::Input)),
    )) by {
        reveal_with_fuel(arithmetic, 4);
    }
    lemma_bump_compiles(op, ExprView::Input, 1);
    lemma_bump_compiles(Op1::Sub1, ExprView::Input, 1);
    lemma_bump_compiles(Op1::Add1, ExprView::UnOp(Op1::Sub1, Box::new(ExprView::Input)), 5);
    lemma_sum_compiles();
}

/// The main expression `input` compiles to one instruction.
proof fn lemma_input_compiles()
    ensures
        sample_compiles(ExprView::Input, -8i32, 1),
{
}

/// Where a main expression compiles without reaching a frame slot, its
/// increment and its decrement do, to four instructions more.
proof fn lemma_bump_compiles(op: Op1, a: ExprView, len: nat)
    requires
        op == Op1::Add1 || op == Op1::Sub1,
        a is Input ==> len == 1,
        !(a is Input) ==> sample_compiles(a, -8i32, len),
    ensures
        sample_compiles(ExprView::UnOp(op, Box::new(a)), -8i32, len + 4),
{
    if a is Input {
        lemma_input_compiles();
    }
    let ca = spec_compile(a, -8i32, Map::empty(), Map::empty(), Map::empty(), None, main_gen())->Ok_0;
    assert(spec_unop_code(op).len() == 4);
    assert((ca.code + spec_unop_code(op)).len() == len + 4);
}

/// The main expression `(+ input 1)` compiles to nine instructions that
/// reach one frame slot.
proof fn lemma_sum_compiles()
    ensures
        sample_compiles(input_plus_one(), -16i32, 9),
{
    lemma_input_compiles();
    let nothing = Map::<Seq<char>, i32>::empty();
    let funs = Map::<Seq<char>, usize>::empty();
    let one = ExprView::Number(1);
    let cl = spec_compile(ExprView::Input, -8i32, nothing, nothing, funs, None, main_gen())->Ok_0;
    assert(cl.gen == main_gen() && cl.min_si == -8);
    assert(spec_compile(one, -16i32, nothing, nothing, funs, None, main_gen()) matches Ok(cr)
        && cr.min_si == -16 && cr.code.len() == 1 && cr.gen == main_gen());
    let cr = spec_compile(one, -16i32, nothing, nothing, funs, None, main_gen())->Ok_0;
    assert(spec_binop_code(Op2::Plus, -8i32, -16i32).len() == 6) by {
        assert(spec_both_numeric_code(-8i32).len() == 4);
    }
    let stored = cl.code.push(InstrView::IMov(slot(-8i32), Val::Reg(Reg::RAX)));
    assert((stored + cr.code + spec_binop_code(Op2::Plus, -8i32, -16i32)).len() == 9);
}

/// Whether the main expression `e` compiles to `len` instructions that
/// reach the slot `min_si`.
pub open spec fn sample_compiles(e: ExprView, min_si: i32, len: nat) -> bool {
    spec_compile(e, -8i32, Map::empty(), Map::empty(), Map::empty(), None, main_gen()) matches Ok(
        c,
    ) && c.min_si == min_si && c.code.len() == len
}

/// What the sample programs mean.
pub proof fn lemma_samples_mean(op: Op1, input: Value)
    requires
        op == Op1::Add1 || op == Op1::Sub1,
        valid(input),
    ensures
        eval(add1_sub1_input(), input) == match input {
            Value::Int(n) => if n == MIN_INT {
                Err::<Value, i64>(1)
            } else {
                Ok::<Value, i64>(input)
            },
            Value::Bool(_) => Err::<Value, i64>(2),
        },
        eval(input_plus_one(), input) == match input {
            Value::Int(n) => int_or_overflow(n + 1),
            Value::Bool(_) => Err::<Value, i64>(2),
        },
        input is Bool ==> eval(ExprView::UnOp(op, Box::new(ExprView::Input)), input) == Err::<
            Value,
            i64,
        >(2),
{
    reveal_with_fuel(eval, 4);
}

/// The expression `(add1 (sub1 input))`.
pub open spec fn add1_sub1_input() -> ExprView {
    ExprView::UnOp(
        Op1::Add1,
        Box::new(ExprView::UnOp(Op1::Sub1, Box::new(ExprView::Input))),
    )
}

/// The expression `(+ input 1)`.
pub open spec fn input_plus_one() -> ExprView {
    ExprView::BinOp(Op2::Plus, Box::new(ExprView::Input), Box::new(ExprView::Number(1)))
}

/// `(add1 (sub1 input))` gives the input back: for every integer but the
/// least one, the program returns the integer it was given. For the least
/// integer the decrement overflows, and a boolean is an invalid argument:
/// the run ends in the fault with code 1 or 2.
pub proof fn lemma_add1_undoes_sub1(st: Cpu, input: Value, fuel: nat)
    requires
        valid(input),
        entered(st, word(input), 80),
        fuel >= 64,
    ensures
        ({
            let out = run(program(add1_sub1_input()), 0, st, fuel);
            match input {
                Value::Int(n) => if n == MIN_INT {
                    out == Outcome::Fault(1)
                } else {
                    out matches Outcome::Returned(end) && decode(end.regs[Reg::RAX] as int)
                        == Some(input)
                },
                Value::Bool(_) => out == Outcome::Fault(2),
            }
        }),
{
    let e = add1_sub1_input();
    lemma_samples_compile(Op1::Add1);
    lemma_samples_mean(Op1::Add1, input);
    lemma_program_compiles(e);
    lemma_entered_with_less(st, word(input), 80, room(e));
    lemma_program_computes(e, st, input, fuel);
}

/// Increment and decrement refuse a boolean: applied to a boolean input,
/// either ends in the invalid-argument fault.
pub proof fn lemma_bump_refuses_boolean(op: Op1, st: Cpu, b: bool, fuel: nat)
    requires
        op == Op1::Add1 || op == Op1::Sub1,
        entered(st, word(Value::Bool(b)), 80),
        fuel >= 64,
    ensures
        run(program(ExprView::UnOp(op, Box::new(ExprView::Input))), 0, st, fuel) == Outcome::Fault(
            2,
        ),
{
    let e = ExprView::UnOp(op, Box::new(ExprView::Input));
    lemma_samples_compile(op);
    lemma_samples_mean(op, Value::Bool(b));
    lemma_program_compiles(e);
    lemma_entered_with_less(st, word(Value::Bool(b)), 80, room(e));
    lemma_program_computes(e, st, Value::Bool(b), fuel);
}

/// Arithmetic at the boundary overflows and never wraps: `(+ input 1)`
/// returns the next integer for every integer but the greatest one, and for
/// the greatest one it ends in the overflow fault.
pub proof fn lemma_sum_overflows_at_the_boundary(st: Cpu, n: int, fuel: nat)
    requires
        MIN_INT <= n <= MAX_INT,
        entered(st, word(Value::Int(n)), 80),
        fuel >= 64,
    ensures
        ({
            let out = run(program(input_plus_one()), 0, st, fuel);
            if n == MAX_INT {
                out == Outcome::Fault(1)
            } else {
                out matches Outcome::Returned(end) && decode(end.regs[Reg::RAX] as int) == Some(
                    Value::Int(n + 1),
                )
            }
        }),
{
    let e = input_plus_one();
    lemma_samples_compile(Op1::Add1);
    lemma_samples_mean(Op1::Add1, Value::Int(n));
    lemma_program_compiles(e);
    lemma_entered_with_less(st, word(Value::Int(n)), 80, room(e));
    lemma_program_computes(e, st, Value::Int(n), fuel);
}

/// Generated code computes, wherever it stands: the code that the
/// generator yields for an arithmetic expression, placed anywhere in code
/// that has the handlers and started with the tagged word of the input in
/// its heap slot, runs to its end and leaves the tagged word of the
/// expression's value in `rax`; or, where the evaluation meets a run-time
/// error, it ends in the fault with the code of that error.
pub proof fn lemma_code_computes(
    e: ExprView,
    si: i32,
    env: Map<Seq<char>, i32>,
    defines: Map<Seq<char>, i32>,
    funs: Map<Seq<char>, usize>,
    loop_end: Option<Seq<char>>,
    gen: CodeGen,
    code: Seq<InstrView>,
    pc: int,
    st: Cpu,
    input: Value,
    fuel: nat,
) -> (end: Cpu)
    requires
        arithmetic(e),
        gen.input_heap_offset is Some,
        spec_compile(e, si, env, defines, funs, loop_end, gen) is Ok,
        placed(code, pc, spec_compile(e, si, env, defines, funs, loop_end, gen)->Ok_0.code),
        with_handlers(code),
        valid(input),
        st.mem[st.regs[Reg::R15] + gen.input_heap_offset->Some_0] == word(input),
        ({
            let at = st.regs[Reg::R15] + gen.input_heap_offset->Some_0;
            let c = spec_compile(e, si, env, defines, funs, loop_end, gen)->Ok_0;
            at < st.regs[Reg::RBP] + c.min_si || at > st.regs[Reg::RBP] + si
        }),
        fuel >= spec_compile(e, si, env, defines, funs, loop_end, gen)->Ok_0.code.len() + 20,
    ensures
        ({
            let c = spec_compile(e, si, env, defines, funs, loop_end, gen)->Ok_0;
            match eval(e, input) {
                Ok(v) => valid(v) && run(code, pc, st, fuel) == run(
                    code,
                    pc + c.code.len(),
                    end,
                    (fuel - c.code.len()) as nat,
                ) && end.regs[Reg::RAX] == word(v) && frames(st, end, c.min_si as int, si as int),
                Err(f) => run(code, pc, st, fuel) == Outcome::Fault(f),
            }
        }),
{
    assert(code_of(e, si, env, defines, funs, loop_end, gen) == spec_compile(
        e,
        si,
        env,
        defines,
        funs,
        loop_end,
        gen,
    )) by {
        reveal(code_of);
    }
    lemma_compiled_literals_fit(e, si, env, defines, funs, loop_end, gen);
    lemma_word_of_value(e, input);
    lemma_arithmetic_runs(e, si, env, defines, funs, loop_end, gen, code, pc, st, fuel)
}

/// Increment undoes decrement, whatever the operand: in the code of
/// `(add1 (sub1 x))`, once the code of `x` has left the integer `n` in
/// `rax`, the rest runs to the end of the code and leaves `n` in `rax`
/// again, and reaches no handler; unless `n` is the least integer, for which
/// the decrement ends in the overflow fault.
pub proof fn lemma_add1_after_sub1(
    x: ExprView,
    si: i32,
    env: Map<Seq<char>, i32>,
    defines: Map<Seq<char>, i32>,
    funs: Map<Seq<char>, usize>,
    loop_end: Option<Seq<char>>,
    gen: CodeGen,
    code: Seq<InstrView>,
    pc: int,
    st: Cpu,
    n: int,
    fuel: nat,
) -> (end: Cpu)
    requires
        spec_compile(
            ExprView::UnOp(Op1::Add1, Box::new(ExprView::UnOp(Op1::Sub1, Box::new(x)))),
            si,
            env,
            defines,
            funs,
            loop_end,
            gen,
        ) is Ok,
        placed(
            code,
            pc,
            spec_compile(
                ExprView::UnOp(Op1::Add1, Box::new(ExprView::UnOp(Op1::Sub1, Box::new(x)))),
                si,
                env,
                defines,
                funs,
                loop_end,
                gen,
            )->Ok_0.code,
        ),
        with_handlers(code),
        MIN_INT <= n <= MAX_INT,
        st.regs[Reg::RAX] == 2 * n,
        fuel >= 16,
    ensures
        ({
            let c = spec_compile(
                ExprView::UnOp(Op1::Add1, Box::new(ExprView::UnOp(Op1::Sub1, Box::new(x)))),
                si,
                env,
                defines,
                funs,
                loop_end,
                gen,
            )->Ok_0;
            let cx = spec_compile(x, si, env, defines, funs, loop_end, gen);
            &&& cx is Ok
            &&& c.code.len() == cx->Ok_0.code.len() + 8
            &&& if n == MIN_INT {
                run(code, pc + cx->Ok_0.code.len(), st, fuel) == Outcome::Fault(1)
            } else {
                &&& run(code, pc + cx->Ok_0.code.len(), st, fuel) == run(
                    code,
                    pc + c.code.len(),
                    end,
                    (fuel - 8) as nat,
                )
                &&& end.regs[Reg::RAX] == 2 * n
                &&& keeps(st, end)
            }
        }),
{
    reveal(code_of);
    let inner = ExprView::UnOp(Op1::Sub1, Box::new(x));
    let outer = ExprView::UnOp(Op1::Add1, Box::new(inner));
    lemma_wrapped_code(outer, si, env, defines, funs, loop_end, gen);
    lemma_wrapped_code(inner, si, env, defines, funs, loop_end, gen);
    let c = code_of(outer, si, env, defines, funs, loop_end, gen)->Ok_0;
    let ci = code_of(inner, si, env, defines, funs, loop_end, gen)->Ok_0;
    let cx = code_of(x, si, env, defines, funs, loop_end, gen)->Ok_0;
    lemma_placed_parts(code, pc, ci.code, spec_unop_code(Op1::Add1));
    lemma_placed_parts(code, pc, cx.code, spec_unop_code(Op1::Sub1));
    assert(spec_unop_code(Op1::Add1).len() == 4);
    assert(spec_unop_code(Op1::Sub1).len() == 4);
    let at = pc + cx.code.len();
    let mid = lemma_unop_runs(Op1::Sub1, code, at, st, fuel);
    if n == MIN_INT {
        mid
    } else {
        lemma_unop_runs(Op1::Add1, code, at + 4, mid, (fuel - 4) as nat)
    }
}

/// Increment and decrement refuse a boolean, whatever the operand: in the
/// code of `(add1 x)` or `(sub1 x)`, once the code of `x` has left a boolean
/// in `rax`, the run ends in the invalid-argument fault, before anything is
/// added or subtracted.
pub proof fn lemma_bump_after_boolean(
    op: Op1,
    x: ExprView,
    si: i32,
    env: Map<Seq<char>, i32>,
    defines: Map<Seq<char>, i32>,
    funs: Map<Seq<char>, usize>,
    loop_end: Option<Seq<char>>,
    gen: CodeGen,
    code: Seq<InstrView>,
    pc: int,
    st: Cpu,
    b: bool,
    fuel: nat,
)
    requires
        op == Op1::Add1 || op == Op1::Sub1,
        spec_compile(ExprView::UnOp(op, Box::new(x)), si, env, defines, funs, loop_end, gen) is Ok,
        placed(
            code,
            pc,
            spec_compile(
                ExprView::UnOp(op, Box::new(x)),
                si,
                env,
                defines,
                funs,
                loop_end,
                gen,
            )->Ok_0.code,
        ),
        with_handlers(code),
        st.regs[Reg::RAX] == bool_word(b),
        fuel >= 8,
    ensures
        spec_compile(x, si, env, defines, funs, loop_end, gen) matches Ok(cx) && run(
            code,
            pc + cx.code.len(),
            st,
            fuel,
        ) == Outcome::Fault(2),
{
    reveal(code_of);
    let e = ExprView::UnOp(op, Box::new(x));
    lemma_wrapped_code(e, si, env, defines, funs, loop_end, gen);
    let cx = code_of(x, si, env, defines, funs, loop_end, gen)->Ok_0;
    lemma_placed_parts(code, pc, cx.code, spec_unop_code(op));
    let end = lemma_unop_runs(op, code, pc + cx.code.len(), st, fuel);
}

/// The exact result of an arithmetic operator on two integers.
pub open spec fn exact(op: Op2, a: int, b: int) -> int {
    match op {
        Op2::Plus => a + b,
        Op2::Minus => a - b,
        _ => a * b,
    }
}

/// Arithmetic never wraps, whatever the operands: in the code of
/// `(op l r)` for addition, subtraction or multiplication, once the code of
/// `l` has left the integer `a` in the slot of the left operand and the code
/// of `r` has left the integer `b` in `rax`, the operator leaves the exact
/// result in `rax` where that is an integer of the 63-bit range, and ends in
/// the overflow fault where it is not.
pub proof fn lemma_arithmetic_never_wraps(
    op: Op2,
    l: ExprView,
    r: ExprView,
    si: i32,
    env: Map<Seq<char>, i32>,
    defines: Map<Seq<char>, i32>,
    funs: Map<Seq<char>, usize>,
    loop_end: Option<Seq<char>>,
    gen: CodeGen,
    code: Seq<InstrView>,
    pc: int,
    st: Cpu,
    a: int,
    b: int,
    fuel: nat,
) -> (end: Cpu)
    requires
        op == Op2::Plus || op == Op2::Minus || op == Op2::Times,
        spec_compile(
            ExprView::BinOp(op, Box::new(l), Box::new(r)),
            si,
            env,
            defines,
            funs,
            loop_end,
            gen,
        ) is Ok,
        placed(
            code,
            pc,
            spec_compile(
                ExprView::BinOp(op, Box::new(l), Box::new(r)),
                si,
                env,
                defines,
                funs,
                loop_end,
                gen,
            )->Ok_0.code,
        ),
        with_handlers(code),
        MIN_INT <= a <= MAX_INT,
        MIN_INT <= b <= MAX_INT,
        st.mem[st.regs[Reg::RBP] + si] == 2 * a,
        st.regs[Reg::RAX] == 2 * b,
        fuel >= 16,
    ensures
        ({
            let c = spec_compile(
                ExprView::BinOp(op, Box::new(l), Box::new(r)),
                si,
                env,
                defines,
                funs,
                loop_end,
                gen,
            )->Ok_0;
            let len = spec_binop_code(op, si, (si - 8) as i32).len();
            let at = pc + c.code.len() - len;
            &&& len <= c.code.len()
            &&& if MIN_INT <= exact(op, a, b) <= MAX_INT {
                &&& run(code, at, st, fuel) == run(
                    code,
                    pc + c.code.len(),
                    end,
                    (fuel - len) as nat,
                )
                &&& end.regs[Reg::RAX] == 2 * exact(op, a, b)
                &&& keeps(st, end)
            } else {
                run(code, at, st, fuel) == Outcome::Fault(1)
            }
        }),
{
    reveal(code_of);
    let e = ExprView::BinOp(op, Box::new(l), Box::new(r));
    lemma_binop_code(e, si, env, defines, funs, loop_end, gen);
    let below = (si - 8) as i32;
    let c = code_of(e, si, env, defines, funs, loop_end, gen)->Ok_0;
    let cl = code_of(l, si, env, defines, funs, loop_end, gen)->Ok_0;
    let cr = code_of(r, below, env, defines, funs, loop_end, cl.gen)->Ok_0;
    let store = seq![InstrView::IMov(slot(si), Val::Reg(Reg::RAX))];
    let opcode = spec_binop_code(op, si, below);
    lemma_placed_parts(code, pc, cl.code + store + cr.code, opcode);
    lemma_operator_words(Op1::Add1, op, Type::Any, Value::Int(a), Value::Int(b));
    let at = pc + c.code.len() - opcode.len();
    lemma_arith_runs(op, code, at, st, si, below, fuel)
}

/// Increment and decrement refuse a boolean literal: the program
/// `(add1 true)`, and likewise with `sub1` and `false`, ends in the
/// invalid-argument fault and returns no value.
pub proof fn lemma_bump_refuses_boolean_literal(
    op: Op1,
    b: bool,
    st: Cpu,
    input: Value,
    fuel: nat,
)
    requires
        op == Op1::Add1 || op == Op1::Sub1,
        valid(input),
        entered(st, word(input), 80),
        fuel >= 64,
    ensures
        run(program(ExprView::UnOp(op, Box::new(ExprView::Boolean(b)))), 0, st, fuel)
            == Outcome::Fault(2),
{
    let e = ExprView::UnOp(op, Box::new(ExprView::Boolean(b)));
    assert(sample_compiles(ExprView::Boolean(b), -8i32, 1));
    lemma_bump_compiles(op, ExprView::Boolean(b), 1);
    assert(arithmetic(e)) by {
        reveal_with_fuel(arithmetic, 3);
    }
    assert(eval(e, input) == Err::<Value, i64>(2)) by {
        reveal_with_fuel(eval, 3);
    }
    lemma_program_compiles(e);
    lemma_entered_with_less(st, word(input), 80, room(e));
    lemma_program_computes(e, st, input, fuel);
}

/// Increment undoes decrement for every arithmetic operand: where the
/// operand `x` has the integer value `n`, other than the least one, the
/// program `(add1 (sub1 x))` returns `n`.
pub proof fn lemma_add1_undoes_sub1_of(x: ExprView, st: Cpu, input: Value, n: int, fuel: nat)
    requires
        arithmetic(x),
        spec_program_code(
            ProgramView {
                defns: Seq::empty(),
                main: ExprView::UnOp(
                    Op1::Add1,
                    Box::new(ExprView::UnOp(Op1::Sub1, Box::new(x))),
                ),
            },
        ) is Ok,
        valid(input),
        eval(x, input) == Ok::<Value, i64>(Value::Int(n)),
        MIN_INT < n <= MAX_INT,
        entered(
            st,
            word(input),
            room(ExprView::UnOp(Op1::Add1, Box::new(ExprView::UnOp(Op1::Sub1, Box::new(x))))),
        ),
        fuel >= program(
            ExprView::UnOp(Op1::Add1, Box::new(ExprView::UnOp(Op1::Sub1, Box::new(x)))),
        ).len() + 32,
    ensures
        run(
            program(ExprView::UnOp(Op1::Add1, Box::new(ExprView::UnOp(Op1::Sub1, Box::new(x))))),
            0,
            st,
            fuel,
        ) matches Outcome::Returned(end) && end.regs[Reg::RAX] == 2 * n && decode(
            end.regs[Reg::RAX] as int,
        ) == Some(Value::Int(n)),
{
    let e = ExprView::UnOp(Op1::Add1, Box::new(ExprView::UnOp(Op1::Sub1, Box::new(x))));
    assert(arithmetic(e)) by {
        reveal_with_fuel(arithmetic, 3);
    }
    assert(eval(e, input) == Ok::<Value, i64>(Value::Int(n))) by {
        reveal_with_fuel(eval, 3);
    }
    lemma_program_computes(e, st, input, fuel);
}

/// Arithmetic never wraps for arithmetic operands: where `l` and `r` have
/// the integer values `a` and `b`, the program `(op l r)` for addition,
/// subtraction or multiplication returns the exact result where that is an
/// integer of the 63-bit range, and ends in the overflow fault where it is
/// not.
pub proof fn lemma_arithmetic_of(
    op: Op2,
    l: ExprView,
    r: ExprView,
    st: Cpu,
    input: Value,
    a: int,
    b: int,
    fuel: nat,
)
    requires
        op == Op2::Plus || op == Op2::Minus || op == Op2::Times,
        arithmetic(l),
        arithmetic(r),
        spec_program_code(
            ProgramView {
                defns: Seq::empty(),
                main: ExprView::BinOp(op, Box::new(l), Box::new(r)),
            },
        ) is Ok,
        valid(input),
        eval(l, input) == Ok::<Value, i64>(Value::Int(a)),
        eval(r, input) == Ok::<Value, i64>(Value::Int(b)),
        entered(st, word(input), room(ExprView::BinOp(op, Box::new(l), Box::new(r)))),
        fuel >= program(ExprView::BinOp(op, Box::new(l), Box::new(r))).len() + 32,
    ensures
        ({
            let out = run(program(ExprView::BinOp(op, Box::new(l), Box::new(r))), 0, st, fuel);
            if MIN_INT <= exact(op, a, b) <= MAX_INT {
                out matches Outcome::Returned(end) && end.regs[Reg::RAX] == 2 * exact(op, a, b)
            } else {
                out == Outcome::Fault(1)
            }
        }),
{
    let e = ExprView::BinOp(op, Box::new(l), Box::new(r));
    assert(arithmetic(e)) by {
        reveal_with_fuel(arithmetic, 2);
    }
    assert(eval(e, input) == int_or_overflow(exact(op, a, b))) by {
        reveal_with_fuel(eval, 2);
    }
    lemma_program_code(e);
    lemma_compiled_literals_fit(
        e,
        -8i32,
        Map::empty(),
        Map::empty(),
        Map::empty(),
        None,
        main_gen(),
    );
    lemma_word_of_value(e, input);
    lemma_program_runs(e, st, word(input), fuel);
}

/// The body of a function that counts in the persistent variable `name`:
/// `(set! name (add1 name))`.
pub open spec fn counter_body(name: Seq<char>) -> ExprView {
    ExprView::SetVar(
        name,
        Box::new(ExprView::UnOp(Op1::Add1, Box::new(ExprView::Id(name)))),
    )
}

/// The code of a function that counts in the heap slot at `off`.
pub open spec fn counter_code(label: Seq<char>, off: i32) -> Seq<InstrView> {
    seq![
        InstrView::ILabel(label),
        InstrView::IPush(Val::Reg(Reg::RBP)),
        InstrView::IMov(Val::Reg(Reg::RBP), Val::Reg(Reg::RSP)),
        InstrView::IMov(Val::Reg(Reg::RAX), Val::RegOffset(Reg::R15, off)),
        InstrView::ITest(Val::Reg(Reg::RAX), Val::Imm(1)),
        InstrView::IJne("error_invalid_argument"@),
        InstrView::IAdd(Val::Reg(Reg::RAX), Val::Imm(2)),
        InstrView::IJo("error_overflow"@),
        InstrView::IMov(Val::RegOffset(Reg::R15, off), Val::Reg(Reg::RAX)),
        InstrView::IMov(Val::Reg(Reg::RSP), Val::Reg(Reg::RBP)),
        InstrView::IPop(Val::Reg(Reg::RBP)),
        InstrView::IRet,
    ]
}

/// A name that is no parameter has no frame offset among the parameters.
pub proof fn lemma_no_parameter(params: Seq<Seq<char>>, n: nat, name: Seq<char>)
    requires
        n <= params.len(),
        forall|i: int| 0 <= i < params.len() ==> params[i] != name,
    ensures
        !spec_param_offsets(params, n).contains_key(name),
    decreases n,
{
    if n > 0 {
        lemma_no_parameter(params, (n - 1) as nat, name);
    }
}

/// The code of the increment of a persistent variable: the load of its
/// heap slot and the code of the increment.
proof fn lemma_counter_operand(
    name: Seq<char>,
    env: Map<Seq<char>, i32>,
    defines: Map<Seq<char>, i32>,
    funs: Map<Seq<char>, usize>,
    gen: CodeGen,
)
    requires
        !env.contains_key(name),
        defines.contains_key(name),
    ensures
        spec_compile(
            ExprView::UnOp(Op1::Add1, Box::new(ExprView::Id(name))),
            -8i32,
            env,
            defines,
            funs,
            None,
            gen,
        ) matches Ok(c) && c.min_si == -8 && c.gen == gen && c.code == seq![
            InstrView::IMov(Val::Reg(Reg::RAX), Val::RegOffset(Reg::R15, defines[name])),
        ] + spec_unop_code(Op1::Add1),
{
    let id = ExprView::Id(name);
    assert(spec_compile(id, -8i32, env, defines, funs, None, gen) matches Ok(c) && c.min_si == -8
        && c.gen == gen && c.code == seq![
        InstrView::IMov(Val::Reg(Reg::RAX), Val::RegOffset(Reg::R15, defines[name])),
    ]);
}

/// The code of the body of a counting function: the code of the increment
/// and the store to the heap slot.
proof fn lemma_counter_body(
    name: Seq<char>,
    env: Map<Seq<char>, i32>,
    defines: Map<Seq<char>, i32>,
    funs: Map<Seq<char>, usize>,
    gen: CodeGen,
)
    requires
        !env.contains_key(name),
        defines.contains_key(name),
    ensures
        spec_compile(counter_body(name), -8i32, env, defines, funs, None, gen) matches Ok(c)
            && c.min_si == -8 && c.gen == gen && c.code == (seq![
            InstrView::IMov(Val::Reg(Reg::RAX), Val::RegOffset(Reg::R15, defines[name])),
        ] + spec_unop_code(Op1::Add1)).push(
            InstrView::IMov(Val::RegOffset(Reg::R15, defines[name]), Val::Reg(Reg::RAX)),
        ),
{
    lemma_counter_operand(name, env, defines, funs, gen);
}

/// A function whose body counts in a persistent variable compiles to the
/// counting code for the heap slot of that variable, with no frame, and
/// uses no label and no heap slot.
pub proof fn lemma_counter_compiles(
    d: FunDefnView,
    name: Seq<char>,
    defines: Map<Seq<char>, i32>,
    funs: Map<Seq<char>, usize>,
    gen: CodeGen,
)
    requires
        d.body == counter_body(name),
        d.params.len() <= max_args(),
        forall|i: int| 0 <= i < d.params.len() ==> d.params[i] != name,
        defines.contains_key(name),
    ensures
        spec_compile_function(d, defines, funs, gen) == Ok::<
            (Seq<InstrView>, CodeGen),
            crate::compiler::CompileErrorView,
        >((counter_code(fun_label(d.name), defines[name]), gen)),
{
    let env = spec_param_offsets(d.params, d.params.len());
    lemma_no_parameter(d.params, d.params.len(), name);
    lemma_counter_body(name, env, defines, funs, gen);
    let c = spec_compile(d.body, -8i32, env, defines, funs, None, gen)->Ok_0;
    assert(spec_frame_size(c.min_si, false) == 0);
    assert(spec_unop_code(Op1::Add1).len() == 4);
    assert(spec_compile_function(d, defines, funs, gen)->Ok_0.0 =~= counter_code(
        fun_label(d.name),
        defines[name],
    ));
}

/// Whether the stack of `st` is fit for a call: it holds a return address on
/// top, has room for one more word, and lies apart from the heap slot at
/// `slot`.
pub open spec fn called(st: Cpu, slot: int) -> bool {
    let sp = st.regs[Reg::RSP] as int;
    &&& i64::MIN + 8 <= sp <= i64::MAX - 8
    &&& slot != sp
    &&& slot != sp - 8
}

/// One call of a counting function adds one: entered with a return address
/// on the stack while the heap slot holds the integer `n`, the code of the
/// function leaves `n + 1` in the slot and in `rax`, changes no other word
/// of memory but the one below the return address, restores the frame base,
/// prints nothing, and returns to the caller. For the greatest integer it
/// ends in the overflow fault instead, and the slot keeps its value.
pub proof fn lemma_counter_call(
    code: Seq<InstrView>,
    at: int,
    label: Seq<char>,
    off: i32,
    st: Cpu,
    n: int,
    fuel: nat,
) -> (end: Cpu)
    requires
        placed(code, at, counter_code(label, off)),
        with_handlers(code),
        MIN_INT <= n <= MAX_INT,
        st.mem[st.regs[Reg::R15] + off] == 2 * n,
        called(st, st.regs[Reg::R15] + off),
        fuel >= 16,
    ensures
        ({
            let slot = st.regs[Reg::R15] + off;
            let sp = st.regs[Reg::RSP] as int;
            let back = st.mem[sp];
            if n == MAX_INT {
                run(code, at, st, fuel) == Outcome::Fault(1)
            } else {
                &&& run(code, at, st, fuel) == (if back == host() {
                    Outcome::Returned(end)
                } else {
                    run(code, back as int, end, (fuel - 12) as nat)
                })
                &&& end.mem[slot] == 2 * (n + 1)
                &&& end.regs[Reg::RAX] == 2 * (n + 1)
                &&& end.regs[Reg::RSP] == sp + 8
                &&& end.regs[Reg::RBP] == st.regs[Reg::RBP]
                &&& end.regs[Reg::R15] == st.regs[Reg::R15]
                &&& end.printed == st.printed
                &&& forall|a: int| a != slot && a != sp - 8 ==> end.mem[a] == st.mem[a]
            }
        }),
{
    let part = counter_code(label, off);
    assert forall|j: int| 0 <= j < 12 implies code[at + j] == part[j] by {}
    let slot = st.regs[Reg::R15] + off;
    let sp = st.regs[Reg::RSP] as int;
    // The frame is opened and the variable is loaded.
    let s1 = push(st, st.regs[Reg::RBP]);
    let s2 = Cpu { regs: s1.regs.insert(Reg::RBP, s1.regs[Reg::RSP]), ..s1 };
    let s3 = Cpu { regs: s2.regs.insert(Reg::RAX, (2 * n) as i64), ..s2 };
    assert(run(code, at, st, fuel) == run(code, at + 4, s3, (fuel - 4) as nat)) by {
        assert(code[at + 0] == part[0]);
        assert(code[at + 1] == part[1]);
        assert(code[at + 2] == part[2]);
        assert(code[at + 3] == part[3]);
        assert(step(code, at, st) == Step::Next(at + 1, st));
        assert(step(code, at + 1, st) == Step::Next(at + 2, s1));
        assert(step(code, at + 2, s1) == Step::Next(at + 3, s2));
        assert(step(code, at + 3, s2) == Step::Next(at + 4, s3));
        reveal_with_fuel(run, 5);
    }
    // It is a number, and one is added.
    assert(code[at + 4] == part[4]);
    assert(code[at + 5] == part[5]);
    assert(code[at + 6] == part[6]);
    assert(code[at + 7] == part[7]);
    let s5 = lemma_tag_check(code, at + 4, s3, "error_invalid_argument"@, 2, (fuel - 4) as nat);
    let s7 = lemma_bump(code, at + 6, s5, 2, (fuel - 6) as nat);
    if n == MAX_INT {
        s7
    } else {
        lemma_counter_returns(code, at, label, off, s7, sp, st.regs[Reg::RBP], (fuel - 8) as nat)
    }
}

/// The end of a call of a counting function: the new value is stored, the
/// frame is closed, and the run goes on at the return address.
proof fn lemma_counter_returns(
    code: Seq<InstrView>,
    at: int,
    label: Seq<char>,
    off: i32,
    st: Cpu,
    sp: int,
    saved: i64,
    fuel: nat,
) -> (end: Cpu)
    requires
        placed(code, at, counter_code(label, off)),
        i64::MIN + 8 <= sp <= i64::MAX - 8,
        st.regs[Reg::RBP] == sp - 8,
        st.mem[sp - 8] == saved,
        st.regs[Reg::R15] + off != sp,
        st.regs[Reg::R15] + off != sp - 8,
        fuel >= 4,
    ensures
        ({
            let slot = st.regs[Reg::R15] + off;
            let back = st.mem[sp];
            &&& run(code, at + 8, st, fuel) == (if back == host() {
                Outcome::Returned(end)
            } else {
                run(code, back as int, end, (fuel - 4) as nat)
            })
            &&& end.mem == st.mem.insert(slot, st.regs[Reg::RAX])
            &&& end.regs[Reg::RAX] == st.regs[Reg::RAX]
            &&& end.regs[Reg::RSP] == sp + 8
            &&& end.regs[Reg::RBP] == saved
            &&& end.regs[Reg::R15] == st.regs[Reg::R15]
            &&& end.printed == st.printed
        }),
{
    let part = counter_code(label, off);
    assert(code[at + 8] == part[8]);
    assert(code[at + 9] == part[9]);
    assert(code[at + 10] == part[10]);
    assert(code[at + 11] == part[11]);
    let slot = st.regs[Reg::R15] + off;
    let s1 = Cpu { mem: st.mem.insert(slot, st.regs[Reg::RAX]), ..st };
    assert(step(code, at + 8, st) == Step::Next(at + 9, s1));
    let s2 = Cpu { regs: s1.regs.insert(Reg::RSP, s1.regs[Reg::RBP]), ..s1 };
    assert(step(code, at + 9, s1) == Step::Next(at + 10, s2));
    let (old, popped) = pop(s2);
    let s3 = Cpu { regs: popped.regs.insert(Reg::RBP, old), ..popped };
    assert(step(code, at + 10, s2) == Step::Next(at + 11, s3));
    assert(s3.regs[Reg::RSP] == sp);
    let (back, end) = pop(s3);
    assert(back == st.mem[sp]);
    if back == host() {
        assert(step(code, at + 11, s3) == Step::Stop(Outcome::Returned(end)));
    } else {
        assert(step(code, at + 11, s3) == Step::Next(back as int, end));
    }
    reveal_with_fuel(run, 5);
    end
}

} // verus!
