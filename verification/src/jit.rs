//! Lowering plans for a run-time assembler.
//!
//! The assembler itself emits machine code and is not part of this library.
//! What is decided here is everything it needs to be told: which labels a
//! segment of code defines or jumps to, which number stands for each label
//! across all segments of a session, and, for each abstract instruction, the
//! one machine operation that realises it, with registers by their hardware
//! numbers. An instruction whose operands have no machine form is refused.

use vstd::prelude::*;
use crate::ast::{Program, ProgramView};
use crate::compiler::{compile_program, error_handlers, spec_error_handlers, spec_program_code};
use crate::compiler::{CompileError, CompileErrorView};
use crate::instr::{code_view, lemma_code_view_add, Instr, InstrView, Reg, Val};

verus! {

/// The labels known to an assembler, each at the index that is its number.
/// Numbers are never reused: a label keeps its number while it is known.
pub struct LabelTable {
    pub names: Vec<String>,
}

/// The texts of a list of labels.
pub open spec fn texts(names: Seq<String>) -> Seq<Seq<char>> {
    Seq::new(names.len(), |i: int| names[i]@)
}

/// The first index at or after `from` at which `names` holds `name`.
pub open spec fn index_of(names: Seq<Seq<char>>, name: Seq<char>, from: int) -> Option<int>
    decreases names.len() - from,
{
    if from < 0 || from >= names.len() {
        None
    } else if names[from] == name {
        Some(from)
    } else {
        index_of(names, name, from + 1)
    }
}

/// `index_of` finds a name exactly if the list holds it, at an index that
/// holds it and after no other that does.
pub proof fn lemma_index_of(names: Seq<Seq<char>>, name: Seq<char>, from: int)
    requires
        0 <= from,
    ensures
        match index_of(names, name, from) {
            Some(k) => from <= k < names.len() && names[k] == name && forall|j: int|
                from <= j < k ==> names[j] != name,
            None => forall|j: int| from <= j < names.len() ==> names[j] != name,
        },
    decreases names.len() - from,
{
    if from < names.len() && names[from] != name {
        lemma_index_of(names, name, from + 1);
    }
}

/// `names` with `name` added at the end unless it is there already.
pub open spec fn with_label(names: Seq<Seq<char>>, name: Seq<char>) -> Seq<Seq<char>> {
    if index_of(names, name, 0).is_some() {
        names
    } else {
        names.push(name)
    }
}

impl View for LabelTable {
    type V = Seq<Seq<char>>;

    open spec fn view(&self) -> Seq<Seq<char>> {
        texts(self.names@)
    }
}

impl LabelTable {
    /// A table without labels.
    pub fn new() -> (t: LabelTable)
        ensures
            t@ == Seq::<Seq<char>>::empty(),
    {
        let t = LabelTable { names: Vec::new() };
        proof {
            assert(t@ =~= Seq::<Seq<char>>::empty());
        }
        t
    }

    /// How many labels the table holds.
    pub fn len(&self) -> (n: usize)
        ensures
            n == self@.len(),
    {
        self.names.len()
    }

    /// The number of the label `name`, if the table holds it.
    pub fn get(&self, name: &String) -> (r: Option<usize>)
        ensures
            match r {
                Some(k) => index_of(self@, name@, 0) == Some(k as int),
                None => index_of(self@, name@, 0).is_none(),
            },
    {
        let mut k: usize = 0;
        while k < self.names.len()
            invariant
                k <= self.names@.len(),
                index_of(self@, name@, 0) == index_of(self@, name@, k as int),
            decreases self.names@.len() - k,
        {
            if self.names[k] == *name {
                return Some(k);
            }
            k += 1;
        }
        None
    }

    /// The number of the label `name`, which is added at the end of the table
    /// if it is not there yet. The numbers of the other labels stay.
    pub fn intern(&mut self, name: &String) -> (k: usize)
        ensures
            final(self)@ == with_label(old(self)@, name@),
            index_of(final(self)@, name@, 0) == Some(k as int),
    {
        match self.get(name) {
            Some(k) => k,
            None => {
                let k = self.names.len();
                let ghost before = self@;
                self.names.push(name.clone());
                proof {
                    assert(self@ =~= before.push(name@));
                    lemma_index_of(before, name@, 0);
                    lemma_index_of(self@, name@, 0);
                    assert(self@[k as int] == name@);
                    assert(forall|j: int| 0 <= j < k ==> self@[j] == before[j]);
                }
                k
            },
        }
    }

    /// Forgets the labels with numbers from `len` on.
    pub fn truncate(&mut self, len: usize)
        ensures
            final(self)@ == (if len <= old(self)@.len() {
                old(self)@.take(len as int)
            } else {
                old(self)@
            }),
    {
        let ghost before = self@;
        self.names.truncate(len);
        proof {
            if len <= before.len() {
                assert(self@ =~= before.take(len as int));
            } else {
                assert(self@ =~= before);
            }
        }
    }
}

/// The label that an instruction defines or jumps to, if it does either.
/// A call is not among them: its target must be known beforehand.
pub open spec fn mentioned_label(i: InstrView) -> Option<Seq<char>> {
    match i {
        InstrView::ILabel(l) => Some(l),
        InstrView::IJmp(l) => Some(l),
        InstrView::IJe(l) => Some(l),
        InstrView::IJne(l) => Some(l),
        InstrView::IJo(l) => Some(l),
        _ => None,
    }
}

/// `names` with the labels that the first `n` instructions of `code` define
/// or jump to, each added where it is first met.
pub open spec fn spec_assign_labels(code: Seq<InstrView>, n: nat, names: Seq<Seq<char>>) -> Seq<
    Seq<char>,
>
    decreases n,
{
    if n == 0 || n > code.len() {
        names
    } else {
        let before = spec_assign_labels(code, (n - 1) as nat, names);
        match mentioned_label(code[n - 1]) {
            Some(l) => with_label(before, l),
            None => before,
        }
    }
}

/// The first pass over a segment: every label that `instrs` defines or jumps
/// to gets a number in `table`, unless it has one. Labels that were known
/// keep their numbers.
pub fn assign_labels(instrs: &Vec<Instr>, table: &mut LabelTable)
    ensures
        final(table)@ == spec_assign_labels(code_view(instrs@), instrs@.len(), old(table)@),
{
    let mut i: usize = 0;
    while i < instrs.len()
        invariant
            i <= instrs@.len(),
            table@ == spec_assign_labels(code_view(instrs@), i as nat, old(table)@),
        decreases instrs@.len() - i,
    {
        match &instrs[i] {
            Instr::ILabel(l) | Instr::IJmp(l) | Instr::IJe(l) | Instr::IJne(l) | Instr::IJo(l) => {
                let _ = table.intern(l);
            },
            _ => {},
        }
        i += 1;
    }
}

/// The hardware number of a register.
pub open spec fn spec_reg_code(r: Reg) -> u8 {
    match r {
        Reg::RAX => 0,
        Reg::RCX => 1,
        Reg::RDX => 2,
        Reg::RSP => 4,
        Reg::RBP => 5,
        Reg::RSI => 6,
        Reg::RDI => 7,
        Reg::R8 => 8,
        Reg::R9 => 9,
        Reg::R15 => 15,
    }
}

/// The hardware number of a register.
pub fn reg_code(r: Reg) -> (c: u8)
    ensures
        c == spec_reg_code(r),
{
    match r {
        Reg::RAX => 0,
        Reg::RCX => 1,
        Reg::RDX => 2,
        Reg::RSP => 4,
        Reg::RBP => 5,
        Reg::RSI => 6,
        Reg::RDI => 7,
        Reg::R8 => 8,
        Reg::R9 => 9,
        Reg::R15 => 15,
    }
}

/// An arithmetic or logic operation with two operands.
#[derive(Debug, Clone, Copy, PartialEq, Eq, Structural)]
pub enum AluOp {
    Add,
    Sub,
    IMul,
    Cmp,
    Test,
    Or,
    Xor,
}

/// The condition of a jump or of a conditional move.
#[derive(Debug, Clone, Copy, PartialEq, Eq, Structural)]
pub enum Cond {
    Always,
    Equal,
    NotEqual,
    Greater,
    GreaterEqual,
    Less,
    LessEqual,
    Overflow,
}

/// One machine operation. Registers are hardware numbers, labels are numbers
/// of a `LabelTable`.
#[derive(Debug, Clone, Copy, PartialEq, Eq, Structural)]
#[allow(inconsistent_fields)]
pub enum Lowered {
    /// Nothing is emitted.
    Skip,
    /// Load of a sign-extended immediate into a register.
    MovRegImm { dst: u8, imm: i64 },
    MovRegReg { dst: u8, src: u8 },
    /// Load of the word at `base + disp`.
    MovRegMem { dst: u8, base: u8, disp: i32 },
    /// Store to the word at `base + disp`.
    MovMemReg { base: u8, disp: i32, src: u8 },
    /// Store of a sign-extended immediate to the word at `base + disp`.
    MovMemImm { base: u8, disp: i32, imm: i32 },
    AluRegImm { op: AluOp, dst: u8, imm: i32 },
    AluRegReg { op: AluOp, dst: u8, src: u8 },
    AluRegMem { op: AluOp, dst: u8, base: u8, disp: i32 },
    /// Move of `src` to `dst` if the condition holds.
    CMov { cond: Cond, dst: u8, src: u8 },
    /// Arithmetic shift to the right by `count` bits.
    Sar { dst: u8, count: u8 },
    /// The label with this number is bound to the current position.
    Bind(usize),
    Jump { cond: Cond, target: usize },
    Call(usize),
    Ret,
    Push(u8),
    Pop(u8),
}

/// Why an instruction cannot be lowered.
#[derive(Debug)]
pub enum JitError {
    /// The instruction refers to a label that has no number.
    UnknownLabel(String),
    /// The operands of the instruction have no machine form.
    Unsupported,
}

/// The mathematical value of a `JitError`.
pub enum JitErrorView {
    UnknownLabel(Seq<char>),
    Unsupported,
}

impl View for JitError {
    type V = JitErrorView;

    open spec fn view(&self) -> JitErrorView {
        match self {
            JitError::UnknownLabel(l) => JitErrorView::UnknownLabel(l@),
            JitError::Unsupported => JitErrorView::Unsupported,
        }
    }
}

/// The machine form of a two-operand operation on the given operands: a
/// register with an immediate, a register or a memory word. `test` takes no
/// memory word. Anything else has none.
pub open spec fn spec_lower_alu(op: AluOp, d: Val, s: Val) -> Result<Lowered, JitErrorView> {
    match (d, s) {
        (Val::Reg(a), Val::Imm(n)) => Ok(
            Lowered::AluRegImm { op, dst: spec_reg_code(a), imm: n },
        ),
        (Val::Reg(a), Val::Reg(b)) => Ok(
            Lowered::AluRegReg { op, dst: spec_reg_code(a), src: spec_reg_code(b) },
        ),
        (Val::Reg(a), Val::RegOffset(b, off)) => if op == AluOp::Test {
            Err(JitErrorView::Unsupported)
        } else {
            Ok(Lowered::AluRegMem { op, dst: spec_reg_code(a), base: spec_reg_code(b), disp: off })
        },
        _ => Err(JitErrorView::Unsupported),
    }
}

/// The machine form of a conditional move: from a register to a register.
pub open spec fn spec_lower_cmov(cond: Cond, d: Val, s: Val) -> Result<Lowered, JitErrorView> {
    match (d, s) {
        (Val::Reg(a), Val::Reg(b)) => Ok(
            Lowered::CMov { cond, dst: spec_reg_code(a), src: spec_reg_code(b) },
        ),
        _ => Err(JitErrorView::Unsupported),
    }
}

/// The machine form of a reference to a label: by its number.
pub open spec fn spec_lower_label(names: Seq<Seq<char>>, l: Seq<char>) -> Result<
    usize,
    JitErrorView,
> {
    match index_of(names, l, 0) {
        Some(k) => Ok(k as usize),
        None => Err(JitErrorView::UnknownLabel(l)),
    }
}

/// The machine operation that realises an instruction, given the numbers of
/// the labels; or why there is none.
pub open spec fn spec_lower(i: InstrView, names: Seq<Seq<char>>) -> Result<Lowered, JitErrorView> {
    match i {
        InstrView::IMov(d, s) => match (d, s) {
            (Val::Reg(a), Val::Imm(n)) => Ok(
                Lowered::MovRegImm { dst: spec_reg_code(a), imm: n as i64 },
            ),
            (Val::Reg(a), Val::Reg(b)) => Ok(
                Lowered::MovRegReg { dst: spec_reg_code(a), src: spec_reg_code(b) },
            ),
            (Val::Reg(a), Val::RegOffset(b, off)) => Ok(
                Lowered::MovRegMem { dst: spec_reg_code(a), base: spec_reg_code(b), disp: off },
            ),
            (Val::RegOffset(b, off), Val::Reg(a)) => Ok(
                Lowered::MovMemReg { base: spec_reg_code(b), disp: off, src: spec_reg_code(a) },
            ),
            (Val::RegOffset(b, off), Val::Imm(n)) => Ok(
                Lowered::MovMemImm { base: spec_reg_code(b), disp: off, imm: n },
            ),
            _ => Err(JitErrorView::Unsupported),
        },
        InstrView::IAdd(d, s) => spec_lower_alu(AluOp::Add, d, s),
        InstrView::ISub(d, s) => spec_lower_alu(AluOp::Sub, d, s),
        InstrView::IMul(d, s) => spec_lower_alu(AluOp::IMul, d, s),
        InstrView::ICmp(d, s) => spec_lower_alu(AluOp::Cmp, d, s),
        InstrView::ITest(d, s) => spec_lower_alu(AluOp::Test, d, s),
        InstrView::IOr(d, s) => spec_lower_alu(AluOp::Or, d, s),
        InstrView::IXor(d, s) => spec_lower_alu(AluOp::Xor, d, s),
        InstrView::ICMovE(d, s) => spec_lower_cmov(Cond::Equal, d, s),
        InstrView::ICMovNE(d, s) => spec_lower_cmov(Cond::NotEqual, d, s),
        InstrView::ICMovG(d, s) => spec_lower_cmov(Cond::Greater, d, s),
        InstrView::ICMovGE(d, s) => spec_lower_cmov(Cond::GreaterEqual, d, s),
        InstrView::ICMovL(d, s) => spec_lower_cmov(Cond::Less, d, s),
        InstrView::ICMovLE(d, s) => spec_lower_cmov(Cond::LessEqual, d, s),
        InstrView::ISar(d, s) => match (d, s) {
            (Val::Reg(a), Val::Imm(n)) => if 0 <= n < 64 {
                Ok(Lowered::Sar { dst: spec_reg_code(a), count: n as u8 })
            } else {
                Err(JitErrorView::Unsupported)
            },
            _ => Err(JitErrorView::Unsupported),
        },
        InstrView::ILabel(l) => match spec_lower_label(names, l) {
            Ok(k) => Ok(Lowered::Bind(k)),
            Err(e) => Err(e),
        },
        InstrView::IJmp(l) => match spec_lower_label(names, l) {
            Ok(k) => Ok(Lowered::Jump { cond: Cond::Always, target: k }),
            Err(e) => Err(e),
        },
        InstrView::IJe(l) => match spec_lower_label(names, l) {
            Ok(k) => Ok(Lowered::Jump { cond: Cond::Equal, target: k }),
            Err(e) => Err(e),
        },
        InstrView::IJne(l) => match spec_lower_label(names, l) {
            Ok(k) => Ok(Lowered::Jump { cond: Cond::NotEqual, target: k }),
            Err(e) => Err(e),
        },
        InstrView::IJo(l) => match spec_lower_label(names, l) {
            Ok(k) => Ok(Lowered::Jump { cond: Cond::Overflow, target: k }),
            Err(e) => Err(e),
        },
        InstrView::ICall(l) => match spec_lower_label(names, l) {
            Ok(k) => Ok(Lowered::Call(k)),
            Err(e) => Err(e),
        },
        InstrView::IComment(_) => Ok(Lowered::Skip),
        InstrView::IRet => Ok(Lowered::Ret),
        InstrView::IPush(v) => match v {
            Val::Reg(a) => Ok(Lowered::Push(spec_reg_code(a))),
            _ => Err(JitErrorView::Unsupported),
        },
        InstrView::IPop(v) => match v {
            Val::Reg(a) => Ok(Lowered::Pop(spec_reg_code(a))),
            _ => Err(JitErrorView::Unsupported),
        },
    }
}

/// The value of a lowering or of its refusal.
pub open spec fn lower_view(r: Result<Lowered, JitError>) -> Result<Lowered, JitErrorView> {
    match r {
        Ok(l) => Ok(l),
        Err(e) => Err(e@),
    }
}

fn lower_alu(op: AluOp, d: &Val, s: &Val) -> (r: Result<Lowered, JitError>)
    ensures
        lower_view(r) == spec_lower_alu(op, *d, *s),
{
    match (d, s) {
        (Val::Reg(a), Val::Imm(n)) => Ok(Lowered::AluRegImm { op, dst: reg_code(*a), imm: *n }),
        (Val::Reg(a), Val::Reg(b)) => Ok(
            Lowered::AluRegReg { op, dst: reg_code(*a), src: reg_code(*b) },
        ),
        (Val::Reg(a), Val::RegOffset(b, off)) => {
            match op {
                AluOp::Test => Err(JitError::Unsupported),
                _ => Ok(
                    Lowered::AluRegMem { op, dst: reg_code(*a), base: reg_code(*b), disp: *off },
                ),
            }
        },
        _ => Err(JitError::Unsupported),
    }
}

fn lower_cmov(cond: Cond, d: &Val, s: &Val) -> (r: Result<Lowered, JitError>)
    ensures
        lower_view(r) == spec_lower_cmov(cond, *d, *s),
{
    match (d, s) {
        (Val::Reg(a), Val::Reg(b)) => Ok(
            Lowered::CMov { cond, dst: reg_code(*a), src: reg_code(*b) },
        ),
        _ => Err(JitError::Unsupported),
    }
}

fn lower_label(table: &LabelTable, l: &String) -> (r: Result<usize, JitError>)
    ensures
        match r {
            Ok(k) => spec_lower_label(table@, l@) == Ok::<usize, JitErrorView>(k),
            Err(e) => spec_lower_label(table@, l@) == Err::<usize, JitErrorView>(e@),
        },
{
    match table.get(l) {
        Some(k) => Ok(k),
        None => Err(JitError::UnknownLabel(l.clone())),
    }
}

/// The machine operation that realises `instr`, with labels by their numbers
/// in `label_map`; or why there is none.
pub fn instr_to_dynasm(instr: &Instr, label_map: &LabelTable) -> (r: Result<Lowered, JitError>)
    ensures
        lower_view(r) == spec_lower(instr@, label_map@),
{
    match instr {
        Instr::IMov(dest, src) => {
            match (dest, src) {
                (Val::Reg(a), Val::Imm(n)) => Ok(
                    Lowered::MovRegImm { dst: reg_code(*a), imm: *n as i64 },
                ),
                (Val::Reg(a), Val::Reg(b)) => Ok(
                    Lowered::MovRegReg { dst: reg_code(*a), src: reg_code(*b) },
                ),
                (Val::Reg(a), Val::RegOffset(b, off)) => Ok(
                    Lowered::MovRegMem { dst: reg_code(*a), base: reg_code(*b), disp: *off },
                ),
                (Val::RegOffset(b, off), Val::Reg(a)) => Ok(
                    Lowered::MovMemReg { base: reg_code(*b), disp: *off, src: reg_code(*a) },
                ),
                (Val::RegOffset(b, off), Val::Imm(n)) => Ok(
                    Lowered::MovMemImm { base: reg_code(*b), disp: *off, imm: *n },
                ),
                _ => Err(JitError::Unsupported),
            }
        },
        Instr::IAdd(dest, src) => lower_alu(AluOp::Add, dest, src),
        Instr::ISub(dest, src) => lower_alu(AluOp::Sub, dest, src),
        Instr::IMul(dest, src) => lower_alu(AluOp::IMul, dest, src),
        Instr::ICmp(dest, src) => lower_alu(AluOp::Cmp, dest, src),
        Instr::ITest(dest, src) => lower_alu(AluOp::Test, dest, src),
        Instr::IOr(dest, src) => lower_alu(AluOp::Or, dest, src),
        Instr::IXor(dest, src) => lower_alu(AluOp::Xor, dest, src),
        Instr::ICMovE(dest, src) => lower_cmov(Cond::Equal, dest, src),
        Instr::ICMovNE(dest, src) => lower_cmov(Cond::NotEqual, dest, src),
        Instr::ICMovG(dest, src) => lower_cmov(Cond::Greater, dest, src),
        Instr::ICMovGE(dest, src) => lower_cmov(Cond::GreaterEqual, dest, src),
        Instr::ICMovL(dest, src) => lower_cmov(Cond::Less, dest, src),
        Instr::ICMovLE(dest, src) => lower_cmov(Cond::LessEqual, dest, src),
        Instr::ISar(dest, src) => {
            match (dest, src) {
                (Val::Reg(a), Val::Imm(n)) => {
                    if 0 <= *n && *n < 64 {
                        Ok(Lowered::Sar { dst: reg_code(*a), count: *n as u8 })
                    } else {
                        Err(JitError::Unsupported)
                    }
                },
                _ => Err(JitError::Unsupported),
            }
        },
        Instr::ILabel(l) => match lower_label(label_map, l) {
            Ok(k) => Ok(Lowered::Bind(k)),
            Err(e) => Err(e),
        },
        Instr::IJmp(l) => match lower_label(label_map, l) {
            Ok(k) => Ok(Lowered::Jump { cond: Cond::Always, target: k }),
            Err(e) => Err(e),
        },
        Instr::IJe(l) => match lower_label(label_map, l) {
            Ok(k) => Ok(Lowered::Jump { cond: Cond::Equal, target: k }),
            Err(e) => Err(e),
        },
        Instr::IJne(l) => match lower_label(label_map, l) {
            Ok(k) => Ok(Lowered::Jump { cond: Cond::NotEqual, target: k }),
            Err(e) => Err(e),
        },
        Instr::IJo(l) => match lower_label(label_map, l) {
            Ok(k) => Ok(Lowered::Jump { cond: Cond::Overflow, target: k }),
            Err(e) => Err(e),
        },
        Instr::ICall(l) => match lower_label(label_map, l) {
            Ok(k) => Ok(Lowered::Call(k)),
            Err(e) => Err(e),
        },
        Instr::IComment(_) => Ok(Lowered::Skip),
        Instr::IRet => Ok(Lowered::Ret),
        Instr::IPush(v) => match v {
            Val::Reg(a) => Ok(Lowered::Push(reg_code(*a))),
            _ => Err(JitError::Unsupported),
        },
        Instr::IPop(v) => match v {
            Val::Reg(a) => Ok(Lowered::Pop(reg_code(*a))),
            _ => Err(JitError::Unsupported),
        },
    }
}

/// The machine operations of the instructions of `code` from index `i` on,
/// after `acc`; or the refusal of the first that has none.
pub open spec fn spec_lower_all(
    code: Seq<InstrView>,
    i: int,
    names: Seq<Seq<char>>,
    acc: Seq<Lowered>,
) -> Result<Seq<Lowered>, JitErrorView>
    decreases code.len() - i,
{
    if i < 0 || i >= code.len() {
        Ok(acc)
    } else {
        match spec_lower(code[i], names) {
            Err(e) => Err(e),
            Ok(l) => spec_lower_all(code, i + 1, names, acc.push(l)),
        }
    }
}

/// The plan of a segment: the labels that `code` defines or jumps to get
/// numbers after those of `names`, then every instruction is lowered with
/// them.
pub open spec fn spec_lower_segment(code: Seq<InstrView>, names: Seq<Seq<char>>) -> Result<
    (Seq<Lowered>, Seq<Seq<char>>),
    JitErrorView,
> {
    let assigned = spec_assign_labels(code, code.len(), names);
    match spec_lower_all(code, 0, assigned, Seq::empty()) {
        Err(e) => Err(e),
        Ok(ops) => Ok((ops, assigned)),
    }
}

/// Lowers a segment in two passes: labels first, then instructions. Where an
/// instruction is refused, `table` is left as it was.
pub fn lower_segment(instrs: &Vec<Instr>, table: &mut LabelTable) -> (r: Result<
    Vec<Lowered>,
    JitError,
>)
    ensures
        match r {
            Ok(ops) => spec_lower_segment(code_view(instrs@), old(table)@) == Ok::<
                (Seq<Lowered>, Seq<Seq<char>>),
                JitErrorView,
            >((ops@, final(table)@)),
            Err(e) => spec_lower_segment(code_view(instrs@), old(table)@) == Err::<
                (Seq<Lowered>, Seq<Seq<char>>),
                JitErrorView,
            >(e@) && final(table)@ == old(table)@,
        },
{
    let known = table.len();
    let ghost before = table@;
    assign_labels(instrs, table);
    proof {
        lemma_assign_extends(code_view(instrs@), instrs@.len(), before);
    }
    let ghost assigned = table@;
    let mut ops: Vec<Lowered> = Vec::new();
    let mut i: usize = 0;
    while i < instrs.len()
        invariant
            i <= instrs@.len(),
            known == before.len(),
            before == old(table)@,
            table@ == assigned,
            assigned == spec_assign_labels(code_view(instrs@), instrs@.len(), before),
            before.len() <= table@.len(),
            table@.take(before.len() as int) == before,
            spec_lower_all(code_view(instrs@), 0, table@, Seq::empty()) == spec_lower_all(
                code_view(instrs@),
                i as int,
                table@,
                ops@,
            ),
        decreases instrs@.len() - i,
    {
        match instr_to_dynasm(&instrs[i], table) {
            Ok(op) => {
                ops.push(op);
            },
            Err(e) => {
                table.truncate(known);
                return Err(e);
            },
        }
        i += 1;
    }
    Ok(ops)
}

/// The first pass only adds labels at the end.
pub proof fn lemma_assign_extends(code: Seq<InstrView>, n: nat, names: Seq<Seq<char>>)
    ensures
        names.len() <= spec_assign_labels(code, n, names).len(),
        spec_assign_labels(code, n, names).take(names.len() as int) == names,
    decreases n,
{
    if n == 0 || n > code.len() {
        assert(names.take(names.len() as int) =~= names);
    } else {
        lemma_assign_extends(code, (n - 1) as nat, names);
        let before = spec_assign_labels(code, (n - 1) as nat, names);
        let after = spec_assign_labels(code, n, names);
        assert(after.take(names.len() as int) =~= before.take(names.len() as int));
    }
}

/// Why a program has no plan.
#[derive(Debug)]
pub enum JitFailure {
    /// The program does not compile.
    Compile(CompileError),
    /// An instruction of its code cannot be lowered.
    Lower(JitError),
}

/// The mathematical value of a `JitFailure`.
pub enum JitFailureView {
    Compile(CompileErrorView),
    Lower(JitErrorView),
}

impl View for JitFailure {
    type V = JitFailureView;

    open spec fn view(&self) -> JitFailureView {
        match self {
            JitFailure::Compile(e) => JitFailureView::Compile(e@),
            JitFailure::Lower(e) => JitFailureView::Lower(e@),
        }
    }
}

/// The plan of a whole program as one segment: its functions, the entry
/// point under the label `our_code_starts_here`, and the handlers of
/// run-time errors; with the labels numbered after `names`.
pub open spec fn spec_compile_to_jit(p: ProgramView, names: Seq<Seq<char>>) -> Result<
    (Seq<Lowered>, Seq<Seq<char>>),
    JitFailureView,
> {
    match spec_program_code(p) {
        Err(e) => Err(JitFailureView::Compile(e)),
        Ok(code) => match spec_lower_segment(code + spec_error_handlers(), names) {
            Err(e) => Err(JitFailureView::Lower(e)),
            Ok(r) => Ok(r),
        },
    }
}

/// Compiles a program and plans it as one segment. `table` must hold the
/// labels that generated code calls and no segment defines, `_snek_print`
/// and `snek_error`, or the plan is refused. Where there is no plan, `table`
/// is left as it was.
pub fn compile_to_jit(program: &Program, table: &mut LabelTable) -> (r: Result<
    Vec<Lowered>,
    JitFailure,
>)
    ensures
        match r {
            Ok(ops) => spec_compile_to_jit(program@, old(table)@) == Ok::<
                (Seq<Lowered>, Seq<Seq<char>>),
                JitFailureView,
            >((ops@, final(table)@)),
            Err(e) => spec_compile_to_jit(program@, old(table)@) == Err::<
                (Seq<Lowered>, Seq<Seq<char>>),
                JitFailureView,
            >(e@) && final(table)@ == old(table)@,
        },
{
    let mut code = match compile_program(program) {
        Ok(code) => code,
        Err(e) => { return Err(JitFailure::Compile(e)); },
    };
    let mut handlers = error_handlers();
    proof {
        lemma_code_view_add(code@, handlers@);
    }
    code.append(&mut handlers);
    match lower_segment(&code, table) {
        Ok(ops) => Ok(ops),
        Err(e) => Err(JitFailure::Lower(e)),
    }
}

} // verus!
