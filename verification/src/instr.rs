//! The abstract instruction model and its rendering as assembly text.

use vstd::prelude::*;
use vstd::string::*;
use crate::text::{i64_to_string, int_text};

verus! {

/// A machine register.
#[derive(Debug, Clone, Copy, PartialEq, Eq, Structural)]
pub enum Reg {
    RAX,
    RSP,
    RCX,
    RDI,
    R15,
    RSI,
    RDX,
    R8,
    R9,
    RBP,
}

/// An operand: a register, a signed 32-bit immediate, or the memory word at a
/// register plus an offset.
#[derive(Debug, Clone, Copy, PartialEq, Eq, Structural)]
pub enum Val {
    Reg(Reg),
    Imm(i32),
    RegOffset(Reg, i32),
}

/// An abstract instruction.
#[derive(Debug)]
pub enum Instr {
    IMov(Val, Val),
    IAdd(Val, Val),
    ISub(Val, Val),
    IMul(Val, Val),
    ICmp(Val, Val),
    ITest(Val, Val),
    ICMovE(Val, Val),
    ICMovNE(Val, Val),
    ICMovG(Val, Val),
    ICMovGE(Val, Val),
    ICMovL(Val, Val),
    ICMovLE(Val, Val),
    ILabel(String),
    IJmp(String),
    IJe(String),
    IJne(String),
    IJo(String),
    IComment(String),
    IOr(Val, Val),
    IXor(Val, Val),
    ISar(Val, Val),
    ICall(String),
    IRet,
    IPush(Val),
    IPop(Val),
}

/// The mathematical value of an instruction: label and comment texts as
/// sequences of characters.
pub enum InstrView {
    IMov(Val, Val),
    IAdd(Val, Val),
    ISub(Val, Val),
    IMul(Val, Val),
    ICmp(Val, Val),
    ITest(Val, Val),
    ICMovE(Val, Val),
    ICMovNE(Val, Val),
    ICMovG(Val, Val),
    ICMovGE(Val, Val),
    ICMovL(Val, Val),
    ICMovLE(Val, Val),
    ILabel(Seq<char>),
    IJmp(Seq<char>),
    IJe(Seq<char>),
    IJne(Seq<char>),
    IJo(Seq<char>),
    IComment(Seq<char>),
    IOr(Val, Val),
    IXor(Val, Val),
    ISar(Val, Val),
    ICall(Seq<char>),
    IRet,
    IPush(Val),
    IPop(Val),
}

impl View for Instr {
    type V = InstrView;

    open spec fn view(&self) -> InstrView {
        match self {
            Instr::IMov(d, s) => InstrView::IMov(*d, *s),
            Instr::IAdd(d, s) => InstrView::IAdd(*d, *s),
            Instr::ISub(d, s) => InstrView::ISub(*d, *s),
            Instr::IMul(d, s) => InstrView::IMul(*d, *s),
            Instr::ICmp(d, s) => InstrView::ICmp(*d, *s),
            Instr::ITest(d, s) => InstrView::ITest(*d, *s),
            Instr::ICMovE(d, s) => InstrView::ICMovE(*d, *s),
            Instr::ICMovNE(d, s) => InstrView::ICMovNE(*d, *s),
            Instr::ICMovG(d, s) => InstrView::ICMovG(*d, *s),
            Instr::ICMovGE(d, s) => InstrView::ICMovGE(*d, *s),
            Instr::ICMovL(d, s) => InstrView::ICMovL(*d, *s),
            Instr::ICMovLE(d, s) => InstrView::ICMovLE(*d, *s),
            Instr::ILabel(l) => InstrView::ILabel(l@),
            Instr::IJmp(l) => InstrView::IJmp(l@),
            Instr::IJe(l) => InstrView::IJe(l@),
            Instr::IJne(l) => InstrView::IJne(l@),
            Instr::IJo(l) => InstrView::IJo(l@),
            Instr::IComment(c) => InstrView::IComment(c@),
            Instr::IOr(d, s) => InstrView::IOr(*d, *s),
            Instr::IXor(d, s) => InstrView::IXor(*d, *s),
            Instr::ISar(d, s) => InstrView::ISar(*d, *s),
            Instr::ICall(l) => InstrView::ICall(l@),
            Instr::IRet => InstrView::IRet,
            Instr::IPush(v) => InstrView::IPush(*v),
            Instr::IPop(v) => InstrView::IPop(*v),
        }
    }
}

/// The values of a sequence of instructions.
pub open spec fn code_view(code: Seq<Instr>) -> Seq<InstrView> {
    Seq::new(code.len(), |i: int| code[i]@)
}

/// The values of an empty sequence and of a sequence with one more
/// instruction.
pub proof fn lemma_code_view_push(code: Seq<Instr>, i: Instr)
    ensures
        code_view(Seq::empty()) == Seq::<InstrView>::empty(),
        code_view(code.push(i)) == code_view(code).push(i@),
{
    assert(code_view(Seq::empty()) =~= Seq::<InstrView>::empty());
    assert(code_view(code.push(i)) =~= code_view(code).push(i@));
}

/// The value of two sequences of instructions, one after the other.
pub proof fn lemma_code_view_add(a: Seq<Instr>, b: Seq<Instr>)
    ensures
        code_view(a + b) == code_view(a) + code_view(b),
{
    assert(code_view(a + b) =~= code_view(a) + code_view(b));
}

/// The name of a register in assembly text.
pub open spec fn reg_text(r: Reg) -> Seq<char> {
    match r {
        Reg::RAX => "rax"@,
        Reg::RSP => "rsp"@,
        Reg::RBP => "rbp"@,
        Reg::RCX => "rcx"@,
        Reg::RDI => "rdi"@,
        Reg::RSI => "rsi"@,
        Reg::RDX => "rdx"@,
        Reg::R8 => "r8"@,
        Reg::R9 => "r9"@,
        Reg::R15 => "r15"@,
    }
}

/// An operand in assembly text: a register by its name, an immediate in
/// decimal, a memory word as `[reg + n]` for an offset `n >= 0` and as
/// `[reg - m]` for an offset `-m < 0`.
pub open spec fn val_text(v: Val) -> Seq<char> {
    match v {
        Val::Reg(r) => reg_text(r),
        Val::Imm(n) => int_text(n as int),
        Val::RegOffset(r, off) => if off >= 0 {
            "["@ + reg_text(r) + " + "@ + int_text(off as int) + "]"@
        } else {
            "["@ + reg_text(r) + " - "@ + int_text(-(off as int)) + "]"@
        },
    }
}

/// A mnemonic, indented, with its two operands.
pub open spec fn binary_text(mnemonic: Seq<char>, d: Val, s: Val) -> Seq<char> {
    mnemonic + val_text(d) + ", "@ + val_text(s)
}

/// One line of assembly text for an instruction, without the line break.
pub open spec fn instr_text(i: InstrView) -> Seq<char> {
    match i {
        InstrView::IMov(d, s) => binary_text("  mov "@, d, s),
        InstrView::IAdd(d, s) => binary_text("  add "@, d, s),
        InstrView::ISub(d, s) => binary_text("  sub "@, d, s),
        InstrView::IMul(d, s) => binary_text("  imul "@, d, s),
        InstrView::ICmp(d, s) => binary_text("  cmp "@, d, s),
        InstrView::ITest(d, s) => binary_text("  test "@, d, s),
        InstrView::ICMovE(d, s) => binary_text("  cmove "@, d, s),
        InstrView::ICMovNE(d, s) => binary_text("  cmovne "@, d, s),
        InstrView::ICMovG(d, s) => binary_text("  cmovg "@, d, s),
        InstrView::ICMovGE(d, s) => binary_text("  cmovge "@, d, s),
        InstrView::ICMovL(d, s) => binary_text("  cmovl "@, d, s),
        InstrView::ICMovLE(d, s) => binary_text("  cmovle "@, d, s),
        InstrView::ILabel(l) => l + ":"@,
        InstrView::IJmp(l) => "  jmp "@ + l,
        InstrView::IJe(l) => "  je "@ + l,
        InstrView::IJne(l) => "  jne "@ + l,
        InstrView::IJo(l) => "  jo "@ + l,
        InstrView::IComment(c) => "  ; "@ + c,
        InstrView::IOr(d, s) => binary_text("  or "@, d, s),
        InstrView::IXor(d, s) => binary_text("  xor "@, d, s),
        InstrView::ISar(d, s) => binary_text("  sar "@, d, s),
        InstrView::ICall(l) => "  call "@ + l,
        InstrView::IRet => "  ret"@,
        InstrView::IPush(v) => "  push "@ + val_text(v),
        InstrView::IPop(v) => "  pop "@ + val_text(v),
    }
}

/// The name of a register in assembly text.
pub fn reg_to_str(reg: &Reg) -> (s: &'static str)
    ensures
        s@ == reg_text(*reg),
{
    match reg {
        Reg::RAX => "rax",
        Reg::RSP => "rsp",
        Reg::RBP => "rbp",
        Reg::RCX => "rcx",
        Reg::RDI => "rdi",
        Reg::RSI => "rsi",
        Reg::RDX => "rdx",
        Reg::R8 => "r8",
        Reg::R9 => "r9",
        Reg::R15 => "r15",
    }
}

/// An operand in assembly text.
pub fn val_to_str(v: &Val) -> (s: String)
    ensures
        s@ == val_text(*v),
{
    match v {
        Val::Reg(reg) => String::from_str(reg_to_str(reg)),
        Val::Imm(n) => i64_to_string(*n as i64),
        Val::RegOffset(reg, offset) => {
            let mut s = String::from_str("[");
            s.append(reg_to_str(reg));
            if *offset >= 0 {
                s.append(" + ");
                let digits = i64_to_string(*offset as i64);
                s.append(digits.as_str());
            } else {
                s.append(" - ");
                let digits = i64_to_string(-(*offset as i64));
                s.append(digits.as_str());
            }
            s.append("]");
            s
        },
    }
}

fn binary_to_str(mnemonic: &str, d: &Val, s: &Val) -> (r: String)
    ensures
        r@ == binary_text(mnemonic@, *d, *s),
{
    let mut r = String::from_str(mnemonic);
    let a = val_to_str(d);
    r.append(a.as_str());
    r.append(", ");
    let b = val_to_str(s);
    r.append(b.as_str());
    r
}

fn prefixed(prefix: &str, rest: &str) -> (r: String)
    ensures
        r@ == prefix@ + rest@,
{
    let mut r = String::from_str(prefix);
    r.append(rest);
    r
}

/// One line of assembly text for an instruction, without the line break.
pub fn instr_to_str(i: &Instr) -> (s: String)
    ensures
        s@ == instr_text(i@),
{
    match i {
        Instr::IMov(dest, src) => binary_to_str("  mov ", dest, src),
        Instr::IAdd(dest, src) => binary_to_str("  add ", dest, src),
        Instr::ISub(dest, src) => binary_to_str("  sub ", dest, src),
        Instr::IMul(dest, src) => binary_to_str("  imul ", dest, src),
        Instr::ICmp(dest, src) => binary_to_str("  cmp ", dest, src),
        Instr::ITest(dest, src) => binary_to_str("  test ", dest, src),
        Instr::ICMovE(dest, src) => binary_to_str("  cmove ", dest, src),
        Instr::ICMovNE(dest, src) => binary_to_str("  cmovne ", dest, src),
        Instr::ICMovG(dest, src) => binary_to_str("  cmovg ", dest, src),
        Instr::ICMovGE(dest, src) => binary_to_str("  cmovge ", dest, src),
        Instr::ICMovL(dest, src) => binary_to_str("  cmovl ", dest, src),
        Instr::ICMovLE(dest, src) => binary_to_str("  cmovle ", dest, src),
        Instr::ILabel(label) => {
            let mut s = label.clone();
            s.append(":");
            s
        },
        Instr::IJmp(label) => prefixed("  jmp ", label.as_str()),
        Instr::IJe(label) => prefixed("  je ", label.as_str()),
        Instr::IJne(label) => prefixed("  jne ", label.as_str()),
        Instr::IJo(label) => prefixed("  jo ", label.as_str()),
        Instr::IComment(comment) => prefixed("  ; ", comment.as_str()),
        Instr::IOr(dest, src) => binary_to_str("  or ", dest, src),
        Instr::IXor(dest, src) => binary_to_str("  xor ", dest, src),
        Instr::ISar(dest, src) => binary_to_str("  sar ", dest, src),
        Instr::ICall(label) => prefixed("  call ", label.as_str()),
        Instr::IRet => String::from_str("  ret"),
        Instr::IPush(val) => prefixed("  push ", val_to_str(val).as_str()),
        Instr::IPop(val) => prefixed("  pop ", val_to_str(val).as_str()),
    }
}

impl Clone for Instr {
    /// A copy with the same value.
    fn clone(&self) -> (r: Self)
        ensures
            r@ == self@,
    {
        match self {
            Instr::IMov(d, s) => Instr::IMov(*d, *s),
            Instr::IAdd(d, s) => Instr::IAdd(*d, *s),
            Instr::ISub(d, s) => Instr::ISub(*d, *s),
            Instr::IMul(d, s) => Instr::IMul(*d, *s),
            Instr::ICmp(d, s) => Instr::ICmp(*d, *s),
            Instr::ITest(d, s) => Instr::ITest(*d, *s),
            Instr::ICMovE(d, s) => Instr::ICMovE(*d, *s),
            Instr::ICMovNE(d, s) => Instr::ICMovNE(*d, *s),
            Instr::ICMovG(d, s) => Instr::ICMovG(*d, *s),
            Instr::ICMovGE(d, s) => Instr::ICMovGE(*d, *s),
            Instr::ICMovL(d, s) => Instr::ICMovL(*d, *s),
            Instr::ICMovLE(d, s) => Instr::ICMovLE(*d, *s),
            Instr::ILabel(l) => Instr::ILabel(l.clone()),
            Instr::IJmp(l) => Instr::IJmp(l.clone()),
            Instr::IJe(l) => Instr::IJe(l.clone()),
            Instr::IJne(l) => Instr::IJne(l.clone()),
            Instr::IJo(l) => Instr::IJo(l.clone()),
            Instr::IComment(c) => Instr::IComment(c.clone()),
            Instr::IOr(d, s) => Instr::IOr(*d, *s),
            Instr::IXor(d, s) => Instr::IXor(*d, *s),
            Instr::ISar(d, s) => Instr::ISar(*d, *s),
            Instr::ICall(l) => Instr::ICall(l.clone()),
            Instr::IRet => Instr::IRet,
            Instr::IPush(v) => Instr::IPush(*v),
            Instr::IPop(v) => Instr::IPop(*v),
        }
    }
}

} // verus!
