//! The state of an interactive session.
//!
//! A session takes top-level inputs one at a time: expressions, persistent
//! definitions and function definitions. It owns what outlives an input: the
//! known functions, the persistent bindings and their types, the numbers of
//! the labels, and the counters of the code generator. Assembling and running
//! machine code is the host's part. For each input the session decides in
//! `begin` whether the input is rejected or which machine operations the host
//! is to assemble, and in `finish`, from what the host reports, what the
//! session keeps and which line is shown.

use vstd::prelude::*;
use vstd::string::*;
use crate::ast::{Expr, ExprView, FunDefn, FunDefnView, ReplEntry, ReplEntryView, Type};
use crate::ast::{defns_view, has_own_break, lemma_bindings_view, lemma_exprs_view};
use crate::compiler::{add_epilogue, add_frame, alloc_heap_slot, append_code, new_code, push_instr};
use crate::compiler::{compile_function, compile_to_instrs, error_handler, frame_size};
use crate::compiler::{error_handlers, spec_error_handlers};
use crate::compiler::{get_input_heap_offset, numbered_label};
use crate::compiler::{label_text, spec_compile, spec_compile_function, spec_frame_size};
use crate::compiler::{spec_fun_table, spec_handler, spec_with_epilogue, spec_with_frame};
use crate::compiler::{fun_label, rax, CodeGen, CompileError, CompileErrorView, FunContext};
use crate::compiler::lemma_own_break_is_rejected;
use crate::compiler::FALSE_VAL;
use crate::env::{offsets_contains_key, offsets_new, offsets_of, offsets_update};
use crate::env::{types_clone, types_get, types_new, types_of, types_update};
use crate::helpers::{error_message, show_word, spec_error_message, spec_show_word};
use crate::instr::{code_view, Instr, InstrView, Reg, Val};
use crate::jit::{lower_segment, spec_lower_segment, with_label, LabelTable, Lowered};
use crate::typechecker::{find_defn, find_function, spec_typecheck};
use crate::typechecker::{spec_typecheck_defn_in, typecheck_defn_in, typecheck_expr};

verus! {

/// Whether `e` reads the external input anywhere.
pub open spec fn spec_contains_input(e: ExprView) -> bool
    decreases e,
{
    match e {
        ExprView::Input => true,
        ExprView::UnOp(_, a) => spec_contains_input(*a),
        ExprView::BinOp(_, a, b) => spec_contains_input(*a) || spec_contains_input(*b),
        ExprView::If(c, t, f) => spec_contains_input(*c) || spec_contains_input(*t)
            || spec_contains_input(*f),
        ExprView::Let(bindings, body) => (exists|i: int|
            0 <= i < bindings.len() && spec_contains_input(#[trigger] bindings[i].1))
            || spec_contains_input(*body),
        ExprView::Block(es) => spec_any_contains_input(es),
        ExprView::SetVar(_, a) => spec_contains_input(*a),
        ExprView::Loop(a) => spec_contains_input(*a),
        ExprView::Break(a) => spec_contains_input(*a),
        ExprView::Call(_, args) => spec_any_contains_input(args),
        ExprView::Cast(a, _) => spec_contains_input(*a),
        _ => false,
    }
}

/// Whether one of `es` reads the external input anywhere.
pub open spec fn spec_any_contains_input(es: Seq<ExprView>) -> bool
    decreases es,
{
    exists|i: int| 0 <= i < es.len() && spec_contains_input(#[trigger] es[i])
}

fn any_contains_input(es: &Vec<Expr>) -> (r: bool)
    ensures
        r == spec_any_contains_input(crate::ast::exprs_view(es@)),
    decreases es, 0int,
{
    proof {
        lemma_exprs_view(es@);
    }
    let mut i: usize = 0;
    while i < es.len()
        invariant
            i <= es@.len(),
            forall|j: int|
                0 <= j < es@.len() ==> (#[trigger] crate::ast::exprs_view(es@)[j]) == es@[j]@,
            forall|j: int|
                0 <= j < i ==> !spec_contains_input(#[trigger] crate::ast::exprs_view(es@)[j]),
        decreases es@.len() - i,
    {
        if contains_input(&es[i]) {
            assert(spec_contains_input(crate::ast::exprs_view(es@)[i as int]));
            return true;
        }
        i += 1;
    }
    false
}

#[verifier::loop_isolation(false)]
fn bindings_contain_input(e: &Expr) -> (r: bool)
    requires
        e is Let,
    ensures
        r == exists|i: int|
            0 <= i < e@->Let_0.len() && spec_contains_input(#[trigger] e@->Let_0[i].1),
    decreases e, 0int,
{
    match e {
        Expr::Let(bindings, _) => {
            proof {
                lemma_bindings_view(bindings@);
            }
            let mut i: usize = 0;
            while i < bindings.len()
                invariant
                    i <= bindings@.len(),
                    forall|j: int| 0 <= j < i ==> !spec_contains_input(#[trigger] e@->Let_0[j].1),
                decreases bindings@.len() - i,
            {
                if contains_input(&bindings[i].1) {
                    assert(spec_contains_input(e@->Let_0[i as int].1));
                    return true;
                }
                i += 1;
            }
            false
        },
        _ => false,
    }
}

/// Whether `expr` reads the external input anywhere.
pub fn contains_input(expr: &Expr) -> (r: bool)
    ensures
        r == spec_contains_input(expr@),
    decreases expr, 1int,
{
    match expr {
        Expr::Input => true,
        Expr::UnOp(_, e) => contains_input(e),
        Expr::BinOp(_, e1, e2) => contains_input(e1) || contains_input(e2),
        Expr::If(e1, e2, e3) => contains_input(e1) || contains_input(e2) || contains_input(e3),
        Expr::Let(_, body) => bindings_contain_input(expr) || contains_input(body),
        Expr::Block(exprs) => any_contains_input(exprs),
        Expr::SetVar(_, e) => contains_input(e),
        Expr::Loop(e) => contains_input(e),
        Expr::Break(e) => contains_input(e),
        Expr::Call(_, args) => any_contains_input(args),
        Expr::Cast(e, _) => contains_input(e),
        _ => false,
    }
}

/// Whether `l` is the label of one of the shared handlers of run-time errors.
pub open spec fn is_handler_label(l: Seq<char>) -> bool {
    l == "error_overflow"@ || l == "error_invalid_argument"@ || l == "error_bad_cast"@
}

/// The label that a jump to `l` gets in the segment with number `n`: a
/// handler's label becomes that of the segment's own handler.
pub open spec fn spec_retarget_label(l: Seq<char>, n: nat) -> Seq<char> {
    if is_handler_label(l) {
        label_text(l, n)
    } else {
        l
    }
}

/// An instruction of the segment with number `n`: a jump to a shared handler
/// becomes a jump to the segment's own handler.
pub open spec fn spec_retarget(i: InstrView, n: nat) -> InstrView {
    match i {
        InstrView::IJmp(l) => InstrView::IJmp(spec_retarget_label(l, n)),
        InstrView::IJe(l) => InstrView::IJe(spec_retarget_label(l, n)),
        InstrView::IJne(l) => InstrView::IJne(spec_retarget_label(l, n)),
        InstrView::IJo(l) => InstrView::IJo(spec_retarget_label(l, n)),
        _ => i,
    }
}

/// `spec_retarget` over a sequence of instructions.
pub open spec fn spec_retarget_code(code: Seq<InstrView>, n: nat) -> Seq<InstrView> {
    Seq::new(code.len(), |j: int| spec_retarget(code[j], n))
}

fn retarget_label(l: &String, n: u64) -> (r: String)
    ensures
        r@ == spec_retarget_label(l@, n as nat),
{
    if *l == String::from_str("error_overflow") || *l == String::from_str("error_invalid_argument")
        || *l == String::from_str("error_bad_cast") {
        numbered_label(l.as_str(), n)
    } else {
        l.clone()
    }
}

fn retarget(i: &Instr, n: u64) -> (r: Instr)
    ensures
        r@ == spec_retarget(i@, n as nat),
{
    match i {
        Instr::IJmp(l) => Instr::IJmp(retarget_label(l, n)),
        Instr::IJe(l) => Instr::IJe(retarget_label(l, n)),
        Instr::IJne(l) => Instr::IJne(retarget_label(l, n)),
        Instr::IJo(l) => Instr::IJo(retarget_label(l, n)),
        _ => i.clone(),
    }
}

/// The code of the segment with number `n`: every jump to a shared handler
/// of run-time errors goes to the segment's own handler instead.
pub fn retarget_code(code: &Vec<Instr>, n: u64) -> (r: Vec<Instr>)
    ensures
        code_view(r@) == spec_retarget_code(code_view(code@), n as nat),
{
    let mut r: Vec<Instr> = Vec::new();
    let mut j: usize = 0;
    while j < code.len()
        invariant
            j <= code@.len(),
            r@.len() == j,
            forall|k: int| 0 <= k < j ==> (#[trigger] r@[k])@ == spec_retarget(code@[k]@, n as nat),
        decreases code@.len() - j,
    {
        r.push(retarget(&code[j], n));
        j += 1;
    }
    proof {
        assert(code_view(r@) =~= spec_retarget_code(code_view(code@), n as nat));
    }
    r
}

/// The handlers of run-time errors of the segment with number `n`.
pub open spec fn spec_segment_handlers(n: nat) -> Seq<InstrView> {
    spec_handler(label_text("error_overflow"@, n), 1) + spec_handler(
        label_text("error_invalid_argument"@, n),
        2,
    ) + spec_handler(label_text("error_bad_cast"@, n), 3)
}

fn segment_handlers(n: u64) -> (code: Vec<Instr>)
    ensures
        code_view(code@) == spec_segment_handlers(n as nat),
{
    let mut code = error_handler(numbered_label("error_overflow", n), 1);
    append_code(&mut code, error_handler(numbered_label("error_invalid_argument", n), 2));
    append_code(&mut code, error_handler(numbered_label("error_bad_cast", n), 3));
    code
}

/// What opens the frame of a segment that the host enters by its address.
pub open spec fn spec_entry_open() -> Seq<InstrView> {
    seq![
        InstrView::IPush(Val::Reg(Reg::RBP)),
        InstrView::IMov(Val::Reg(Reg::RBP), Val::Reg(Reg::RSP)),
    ]
}

/// The segment of a plain expression, with number `n`: the frame, the store
/// of `false` as the external input, the code of the expression, the return,
/// and the segment's own handlers. The heap base is expected in `r15`.
pub open spec fn spec_expr_segment(
    e: ExprView,
    defines: Map<Seq<char>, i32>,
    funs: Map<Seq<char>, usize>,
    gen: CodeGen,
    n: nat,
) -> Result<(Seq<InstrView>, CodeGen), CompileErrorView> {
    match gen.spec_input_slot() {
        None => Err(CompileErrorView::LimitExceeded),
        Some((g, off)) => match spec_compile(e, -8i32, Map::empty(), defines, funs, None, g) {
            Err(err) => Err(err),
            Ok(c) => if spec_frame_size(c.min_si, true) > i32::MAX {
                Err(CompileErrorView::LimitExceeded)
            } else {
                Ok(
                    (
                        spec_with_epilogue(
                            spec_with_frame(
                                spec_entry_open().push(
                                    InstrView::IMov(
                                        Val::RegOffset(Reg::R15, off),
                                        Val::Imm(FALSE_VAL),
                                    ),
                                ),
                                spec_frame_size(c.min_si, true),
                            ) + spec_retarget_code(c.code, n),
                        ) + spec_segment_handlers(n),
                        c.gen,
                    ),
                )
            },
        },
    }
}

/// The segment of a persistent definition, with number `n`: the frame, the
/// code of the expression, the store of its value to a new heap slot, the
/// return, and the segment's own handlers; with the offset of the slot.
pub open spec fn spec_define_segment(
    e: ExprView,
    defines: Map<Seq<char>, i32>,
    funs: Map<Seq<char>, usize>,
    gen: CodeGen,
    n: nat,
) -> Result<(i32, Seq<InstrView>, CodeGen), CompileErrorView> {
    match gen.spec_alloc() {
        None => Err(CompileErrorView::LimitExceeded),
        Some((g, off)) => match spec_compile(e, -8i32, Map::empty(), defines, funs, None, g) {
            Err(err) => Err(err),
            Ok(c) => if spec_frame_size(c.min_si, true) > i32::MAX {
                Err(CompileErrorView::LimitExceeded)
            } else {
                Ok(
                    (
                        off,
                        spec_with_epilogue(
                            (spec_with_frame(spec_entry_open(), spec_frame_size(c.min_si, true))
                                + spec_retarget_code(c.code, n)).push(
                                InstrView::IMov(Val::RegOffset(Reg::R15, off), rax()),
                            ),
                        ) + spec_segment_handlers(n),
                        c.gen,
                    ),
                )
            },
        },
    }
}

fn entry_open() -> (code: Vec<Instr>)
    ensures
        code_view(code@) == spec_entry_open(),
{
    let mut code = new_code();
    push_instr(&mut code, Instr::IPush(Val::Reg(Reg::RBP)));
    push_instr(&mut code, Instr::IMov(Val::Reg(Reg::RBP), Val::Reg(Reg::RSP)));
    code
}

/// Assembles the segment of a plain expression. Where the expression is
/// rejected, `gen` is left as it was.
pub fn expr_segment(
    e: &Expr,
    defines: &im::HashMap<String, i32>,
    fun_ctx: &FunContext,
    gen: &mut CodeGen,
    n: u64,
) -> (r: Result<Vec<Instr>, CompileError>)
    ensures
        match r {
            Ok(code) => spec_expr_segment(e@, offsets_of(*defines), fun_ctx@, *old(gen), n as nat)
                == Ok::<(Seq<InstrView>, CodeGen), CompileErrorView>(
                (code_view(code@), *final(gen)),
            ),
            Err(err) => spec_expr_segment(e@, offsets_of(*defines), fun_ctx@, *old(gen), n as nat)
                == Err::<(Seq<InstrView>, CodeGen), CompileErrorView>(err@) && *final(gen) == *old(
                gen,
            ),
        },
{
    let mut g = *gen;
    let off = match get_input_heap_offset(&mut g) {
        Ok(off) => off,
        Err(err) => { return Err(err); },
    };
    let env = offsets_new();
    let (body, min_offset) = match compile_to_instrs(e, -8, &env, defines, fun_ctx, true, &None, &mut g) {
        Ok(c) => c,
        Err(err) => { return Err(err); },
    };
    let frame = match frame_size(min_offset, true) {
        Ok(f) => f,
        Err(err) => { return Err(err); },
    };
    let mut code = entry_open();
    push_instr(&mut code, Instr::IMov(Val::RegOffset(Reg::R15, off), Val::Imm(FALSE_VAL)));
    add_frame(&mut code, frame);
    append_code(&mut code, retarget_code(&body, n));
    add_epilogue(&mut code);
    append_code(&mut code, segment_handlers(n));
    *gen = g;
    Ok(code)
}

/// Assembles the segment of a persistent definition, and gives the offset of
/// its new heap slot. Where the definition is rejected, `gen` is left as it
/// was.
pub fn define_segment(
    e: &Expr,
    defines: &im::HashMap<String, i32>,
    fun_ctx: &FunContext,
    gen: &mut CodeGen,
    n: u64,
) -> (r: Result<(i32, Vec<Instr>), CompileError>)
    ensures
        match r {
            Ok((off, code)) => spec_define_segment(
                e@,
                offsets_of(*defines),
                fun_ctx@,
                *old(gen),
                n as nat,
            ) == Ok::<(i32, Seq<InstrView>, CodeGen), CompileErrorView>(
                (off, code_view(code@), *final(gen)),
            ),
            Err(err) => spec_define_segment(
                e@,
                offsets_of(*defines),
                fun_ctx@,
                *old(gen),
                n as nat,
            ) == Err::<(i32, Seq<InstrView>, CodeGen), CompileErrorView>(err@) && *final(gen)
                == *old(gen),
        },
{
    let (mut g, off) = match alloc_heap_slot(*gen) {
        Ok(p) => p,
        Err(err) => { return Err(err); },
    };
    let env = offsets_new();
    let (body, min_offset) = match compile_to_instrs(e, -8, &env, defines, fun_ctx, false, &None, &mut g) {
        Ok(c) => c,
        Err(err) => { return Err(err); },
    };
    let frame = match frame_size(min_offset, true) {
        Ok(f) => f,
        Err(err) => { return Err(err); },
    };
    let mut code = entry_open();
    add_frame(&mut code, frame);
    append_code(&mut code, retarget_code(&body, n));
    push_instr(&mut code, Instr::IMov(Val::RegOffset(Reg::R15, off), Val::Reg(Reg::RAX)));
    add_epilogue(&mut code);
    append_code(&mut code, segment_handlers(n));
    *gen = g;
    Ok((off, code))
}

/// The state of a session between two inputs.
pub struct Session {
    /// Whether inputs are type-checked before they are compiled.
    pub typecheck: bool,
    /// The functions defined so far, in order.
    pub functions: Vec<FunDefn>,
    /// The persistent bindings: the heap offset of each defined name.
    pub defines: im::HashMap<String, i32>,
    /// The type of each defined name, where inputs are type-checked.
    pub define_types: im::HashMap<String, Type>,
    /// The numbers of the labels in the code assembled so far.
    pub labels: LabelTable,
    /// The counters of the code generator.
    pub gen: CodeGen,
    /// How many segments with handlers of their own have been planned.
    pub segments: u64,
}

/// The mathematical value of a session.
pub struct SessionView {
    pub typecheck: bool,
    pub functions: Seq<FunDefnView>,
    pub defines: Map<Seq<char>, i32>,
    pub define_types: Map<Seq<char>, Type>,
    pub labels: Seq<Seq<char>>,
    pub gen: CodeGen,
    pub segments: u64,
}

impl View for Session {
    type V = SessionView;

    open spec fn view(&self) -> SessionView {
        SessionView {
            typecheck: self.typecheck,
            functions: defns_view(self.functions@),
            defines: offsets_of(self.defines),
            define_types: types_of(self.define_types),
            labels: self.labels@,
            gen: self.gen,
            segments: self.segments,
        }
    }
}

/// What a planned segment is for, and what the session keeps once it has
/// run.
pub enum Pending {
    /// A plain expression: its result is shown.
    Expr,
    /// A persistent definition of `name`, whose value the segment leaves in
    /// the heap slot at `offset`; `ty` is its type where it was checked.
    Define { name: String, offset: i32, ty: Option<Type> },
    /// A function definition; the segment is assembled and not run.
    Fun(FunDefn),
}

/// The mathematical value of a `Pending`.
pub enum PendingView {
    Expr,
    Define { name: Seq<char>, offset: i32, ty: Option<Type> },
    Fun(FunDefnView),
}

impl View for Pending {
    type V = PendingView;

    open spec fn view(&self) -> PendingView {
        match self {
            Pending::Expr => PendingView::Expr,
            Pending::Define { name, offset, ty } => PendingView::Define {
                name: name@,
                offset: *offset,
                ty: *ty,
            },
            Pending::Fun(d) => PendingView::Fun(d@),
        }
    }
}

/// What the host hands back to `finish` for a planned segment: what the
/// segment is for, and how many labels and which counters the session had
/// before it was planned.
pub struct Ticket {
    pub kind: Pending,
    pub labels_before: usize,
    pub gen_before: CodeGen,
}

/// The mathematical value of a `Ticket`.
pub struct TicketView {
    pub kind: PendingView,
    pub labels_before: usize,
    pub gen_before: CodeGen,
}

impl View for Ticket {
    type V = TicketView;

    open spec fn view(&self) -> TicketView {
        TicketView {
            kind: self.kind@,
            labels_before: self.labels_before,
            gen_before: self.gen_before,
        }
    }
}

/// What the session decides for an input.
pub enum Step {
    /// The input is rejected: the line is shown and nothing is assembled.
    Reject(String),
    /// The host assembles `plan` at the end of its buffer; unless the ticket
    /// is for a function, it then enters the segment at its first operation.
    /// Either way it reports to `finish` with the ticket.
    Run { plan: Vec<Lowered>, ticket: Ticket },
}

/// The mathematical value of a `Step`.
pub enum StepView {
    Reject(Seq<char>),
    Run { plan: Seq<Lowered>, ticket: TicketView },
}

impl View for Step {
    type V = StepView;

    open spec fn view(&self) -> StepView {
        match self {
            Step::Reject(line) => StepView::Reject(line@),
            Step::Run { plan, ticket } => StepView::Run { plan: plan@, ticket: ticket@ },
        }
    }
}

/// What the host reports for a planned segment.
#[derive(Debug, Clone, Copy, PartialEq, Eq, Structural)]
pub enum Outcome {
    /// The assembler refused the segment; nothing of it is in the buffer.
    AssemblyFailed,
    /// The segment is in the buffer and was not run.
    Assembled,
    /// The segment ran and returned this tagged word.
    Returned(i64),
    /// The segment ran and raised the run-time error with this code.
    Faulted(i64),
}

/// The typing environment of a top-level input: the types of the defined
/// names, and that of `input` unless a defined name hides it.
pub open spec fn spec_typing_env(types: Map<Seq<char>, Type>, input: Type) -> Map<Seq<char>, Type> {
    if types.contains_key("input"@) {
        types
    } else {
        types.insert("input"@, input)
    }
}

/// A rejection leaves the session as it is.
pub open spec fn spec_reject(s: SessionView, line: Seq<char>) -> (StepView, SessionView) {
    (StepView::Reject(line), s)
}

/// The plan of the segment `code`: its labels get numbers after `names`, and
/// the session goes on with them, with the counters `gen` and with
/// `segments` planned segments. A segment that cannot be lowered is rejected.
pub open spec fn spec_plan(
    s: SessionView,
    code: Seq<InstrView>,
    gen: CodeGen,
    kind: PendingView,
    names: Seq<Seq<char>>,
    segments: u64,
) -> (StepView, SessionView) {
    match spec_lower_segment(code, names) {
        Err(_) => spec_reject(s, "Invalid"@),
        Ok((ops, assigned)) => (
            StepView::Run {
                plan: ops,
                ticket: TicketView {
                    kind,
                    labels_before: s.labels.len() as usize,
                    gen_before: s.gen,
                },
            },
            SessionView { labels: assigned, gen, segments, ..s },
        ),
    }
}

/// What a session decides for a plain expression: a type error is shown;
/// an expression that does not compile is `Invalid`; else its segment is
/// planned.
pub open spec fn spec_begin_expr(s: SessionView, e: ExprView) -> (StepView, SessionView) {
    let checked = spec_typecheck(e, spec_typing_env(s.define_types, Type::Bool), s.functions);
    if s.typecheck && checked is Err {
        spec_reject(s, checked->Err_0)
    } else if s.segments == u64::MAX {
        spec_reject(s, "Invalid"@)
    } else {
        let n = (s.segments + 1) as u64;
        match spec_fun_table(s.functions, 0, Map::empty()) {
            Err(_) => spec_reject(s, "Invalid"@),
            Ok(funs) => match spec_expr_segment(e, s.defines, funs, s.gen, n as nat) {
                Err(_) => spec_reject(s, "Invalid"@),
                Ok((code, g)) => spec_plan(s, code, g, PendingView::Expr, s.labels, n),
            },
        }
    }
}

/// What a session decides for a persistent definition: a name that is
/// defined already is a duplicate binding; a type error is shown; an
/// expression that does not compile is `Invalid`; else its segment is
/// planned, and the name is not bound before `finish` hears that it ran.
pub open spec fn spec_begin_define(s: SessionView, name: Seq<char>, e: ExprView) -> (
    StepView,
    SessionView,
) {
    let checked = spec_typecheck(e, spec_typing_env(s.define_types, Type::Any), s.functions);
    if s.defines.contains_key(name) {
        spec_reject(s, "Duplicate binding"@)
    } else if s.typecheck && checked is Err {
        spec_reject(s, checked->Err_0)
    } else if s.segments == u64::MAX {
        spec_reject(s, "Invalid"@)
    } else {
        let n = (s.segments + 1) as u64;
        let ty = if s.typecheck {
            Some(checked->Ok_0)
        } else {
            None
        };
        match spec_fun_table(s.functions, 0, Map::empty()) {
            Err(_) => spec_reject(s, "Invalid"@),
            Ok(funs) => match spec_define_segment(e, s.defines, funs, s.gen, n as nat) {
                Err(_) => spec_reject(s, "Invalid"@),
                Ok((offset, code, g)) => spec_plan(
                    s,
                    code,
                    g,
                    PendingView::Define { name, offset, ty },
                    s.labels,
                    n,
                ),
            },
        }
    }
}

/// What a session decides for a function definition: a name that is defined
/// already is a duplicate; a body that reads the external input is refused;
/// a type error is shown; a definition that does not compile is `Invalid`;
/// else its segment is planned. The function is checked and compiled against
/// the known functions and itself, with the defined names in scope and with
/// its label numbered first, so that it may call itself; it is not among the
/// known functions before `finish` hears that it was assembled.
pub open spec fn spec_begin_fun(s: SessionView, d: FunDefnView) -> (StepView, SessionView) {
    let all = s.functions.push(d);
    let checked = spec_typecheck_defn_in(d, all, s.define_types);
    if find_defn(s.functions, d.name, 0).is_some() {
        spec_reject(s, "Duplicate function definition: "@ + d.name)
    } else if spec_contains_input(d.body) {
        spec_reject(s, "Invalid: input not allowed in function definitions"@)
    } else if s.typecheck && checked is Err {
        spec_reject(s, checked->Err_0)
    } else {
        match spec_fun_table(all, 0, Map::empty()) {
            Err(_) => spec_reject(s, "Invalid"@),
            Ok(funs) => match spec_compile_function(d, s.defines, funs, s.gen) {
                Err(_) => spec_reject(s, "Invalid"@),
                Ok((code, g)) => spec_plan(
                    s,
                    code,
                    g,
                    PendingView::Fun(d),
                    with_label(s.labels, fun_label(d.name)),
                    s.segments,
                ),
            },
        }
    }
}

/// What a session decides for an input.
pub open spec fn spec_begin(s: SessionView, entry: ReplEntryView) -> (StepView, SessionView) {
    match entry {
        ReplEntryView::Expr(e) => spec_begin_expr(s, e),
        ReplEntryView::Define(name, e) => spec_begin_define(s, name, e),
        ReplEntryView::FunDefn(d) => spec_begin_fun(s, d),
    }
}

/// What a session keeps and shows once the host has reported.
///
/// A segment that was not assembled is `Invalid`, and the labels and
/// counters go back to what they were before it was planned. A run-time
/// error is shown by its message and the session keeps nothing of the input.
/// Else a definition binds its name, a function joins the known functions,
/// and the result of an expression is shown.
pub open spec fn spec_finish(s: SessionView, t: TicketView, outcome: Outcome) -> (
    SessionView,
    Seq<char>,
) {
    match outcome {
        Outcome::AssemblyFailed => (
            SessionView {
                labels: if t.labels_before <= s.labels.len() {
                    s.labels.take(t.labels_before as int)
                } else {
                    s.labels
                },
                gen: t.gen_before,
                ..s
            },
            "Invalid"@,
        ),
        Outcome::Faulted(code) => (s, spec_error_message(code)),
        _ => match t.kind {
            PendingView::Expr => (
                s,
                match outcome {
                    Outcome::Returned(w) => spec_show_word(w),
                    _ => Seq::empty(),
                },
            ),
            PendingView::Define { name, offset, ty } => (
                SessionView {
                    defines: s.defines.insert(name, offset),
                    define_types: match ty {
                        Some(t) => s.define_types.insert(name, t),
                        None => s.define_types,
                    },
                    ..s
                },
                name + " defined"@,
            ),
            PendingView::Fun(d) => (
                SessionView { functions: s.functions.push(d), ..s },
                "Function defined: "@ + d.name,
            ),
        },
    }
}

fn invalid() -> (s: Step)
    ensures
        s@ == StepView::Reject("Invalid"@),
{
    Step::Reject(String::from_str("Invalid"))
}

impl Session {
    /// A session without definitions. The two labels that generated code
    /// calls but no segment defines have the numbers 0 and 1: the print
    /// helper `_snek_print` and the fault reporter `snek_error`. The host
    /// binds them before it assembles anything.
    pub fn new(typecheck: bool) -> (s: Session)
        ensures
            s@ == (SessionView {
                typecheck,
                functions: Seq::empty(),
                defines: Map::empty(),
                define_types: Map::empty(),
                labels: seq!["_snek_print"@, "snek_error"@],
                gen: CodeGen { label_counter: 0, heap_offset: 0, input_heap_offset: None },
                segments: 0,
            }),
    {
        let mut labels = LabelTable { names: Vec::new() };
        labels.names.push(String::from_str("_snek_print"));
        labels.names.push(String::from_str("snek_error"));
        let s = Session {
            typecheck,
            functions: Vec::new(),
            defines: offsets_new(),
            define_types: types_new(),
            labels,
            gen: CodeGen::new(),
            segments: 0,
        };
        proof {
            assert(s@.labels =~= seq!["_snek_print"@, "snek_error"@]);
            assert(s@.functions =~= Seq::empty());
        }
        s
    }

    /// The plan of the segment that every session starts with: the handlers
    /// of run-time errors that function segments share.
    pub fn prelude(&mut self) -> (r: Result<Vec<Lowered>, crate::jit::JitError>)
        ensures
            final(self)@ == (SessionView { labels: final(self)@.labels, ..old(self)@ }),
            match r {
                Ok(ops) => spec_lower_segment(spec_error_handlers(), old(self)@.labels) == Ok::<
                    (Seq<Lowered>, Seq<Seq<char>>),
                    crate::jit::JitErrorView,
                >((ops@, final(self)@.labels)),
                Err(e) => spec_lower_segment(spec_error_handlers(), old(self)@.labels) == Err::<
                    (Seq<Lowered>, Seq<Seq<char>>),
                    crate::jit::JitErrorView,
                >(e@) && final(self)@.labels == old(self)@.labels,
            },
    {
        let code = error_handlers();
        lower_segment(&code, &mut self.labels)
    }

    fn typing_env(&self, input: Type) -> (env: im::HashMap<String, Type>)
        ensures
            types_of(env) == spec_typing_env(self@.define_types, input),
    {
        let key = String::from_str("input");
        match types_get(&self.define_types, &key) {
            Some(_) => types_clone(&self.define_types),
            None => types_update(&self.define_types, key, input),
        }
    }

    fn plan(
        &mut self,
        code: Vec<Instr>,
        gen: CodeGen,
        kind: Pending,
        labels_before: usize,
        segments: u64,
        Ghost(start): Ghost<SessionView>,
    ) -> (step: Step)
        requires
            start == (SessionView { labels: start.labels, ..old(self)@ }),
            labels_before == start.labels.len(),
        ensures
            (step@, final(self)@) == spec_plan(
                start,
                code_view(code@),
                gen,
                kind@,
                old(self)@.labels,
                segments,
            ) || (spec_lower_segment(code_view(code@), old(self)@.labels) is Err && step@
                == StepView::Reject("Invalid"@) && final(self)@ == old(self)@),
    {
        let gen_before = self.gen;
        match lower_segment(&code, &mut self.labels) {
            Err(_) => invalid(),
            Ok(plan) => {
                self.gen = gen;
                self.segments = segments;
                Step::Run { plan, ticket: Ticket { kind, labels_before, gen_before } }
            },
        }
    }

    #[verifier::rlimit(50)]
    fn begin_expr(&mut self, e: Expr) -> (step: Step)
        ensures
            (step@, final(self)@) == spec_begin_expr(old(self)@, e@),
    {
        if self.typecheck {
            let env = self.typing_env(Type::Bool);
            match typecheck_expr(&e, &env, self.functions.as_slice()) {
                Ok(_) => {},
                Err(msg) => { return Step::Reject(msg); },
            }
        }
        if self.segments == u64::MAX {
            return invalid();
        }
        let n = self.segments + 1;
        let fun_ctx = match FunContext::new(self.functions.as_slice()) {
            Ok(ctx) => ctx,
            Err(_) => { return invalid(); },
        };
        let mut g = self.gen;
        let code = match expr_segment(&e, &self.defines, &fun_ctx, &mut g, n) {
            Ok(code) => code,
            Err(_) => { return invalid(); },
        };
        let known = self.labels.len();
        self.plan(code, g, Pending::Expr, known, n, Ghost(self@))
    }

    #[verifier::rlimit(50)]
    fn begin_define(&mut self, name: String, e: Expr) -> (step: Step)
        ensures
            (step@, final(self)@) == spec_begin_define(old(self)@, name@, e@),
    {
        if offsets_contains_key(&self.defines, &name) {
            return Step::Reject(String::from_str("Duplicate binding"));
        }
        let mut ty: Option<Type> = None;
        if self.typecheck {
            let env = self.typing_env(Type::Any);
            match typecheck_expr(&e, &env, self.functions.as_slice()) {
                Ok(t) => {
                    ty = Some(t);
                },
                Err(msg) => { return Step::Reject(msg); },
            }
        }
        if self.segments == u64::MAX {
            return invalid();
        }
        let n = self.segments + 1;
        let fun_ctx = match FunContext::new(self.functions.as_slice()) {
            Ok(ctx) => ctx,
            Err(_) => { return invalid(); },
        };
        let mut g = self.gen;
        let (offset, code) = match define_segment(&e, &self.defines, &fun_ctx, &mut g, n) {
            Ok(p) => p,
            Err(_) => { return invalid(); },
        };
        let known = self.labels.len();
        self.plan(code, g, Pending::Define { name, offset, ty }, known, n, Ghost(self@))
    }

    #[verifier::rlimit(50)]
    fn check_fun(&self) -> (r: Result<(Vec<Instr>, CodeGen), String>)
        requires
            self.functions@.len() > 0,
        ensures
            ({
                let all = self@.functions;
                let d = all.last();
                let checked = spec_typecheck_defn_in(d, all, self@.define_types);
                match r {
                    Err(line) => {
                        ||| (self@.typecheck && checked is Err && line@ == checked->Err_0)
                        ||| (!(self@.typecheck && checked is Err) && line@ == "Invalid"@ && (
                        spec_fun_table(all, 0, Map::empty()) matches Ok(funs) ==> spec_compile_function(
                            d,
                            self@.defines,
                            funs,
                            self@.gen,
                        ) is Err))
                    },
                    Ok((code, g)) => {
                        &&& !(self@.typecheck && checked is Err)
                        &&& spec_fun_table(all, 0, Map::empty()) matches Ok(funs)
                        &&& spec_compile_function(d, self@.defines, funs, self@.gen) == Ok::<
                            (Seq<InstrView>, CodeGen),
                            CompileErrorView,
                        >((code_view(code@), g))
                    },
                }
            }),
    {
        let all = self.functions.as_slice();
        let defn = &self.functions[self.functions.len() - 1];
        if self.typecheck {
            match typecheck_defn_in(defn, all, &self.define_types) {
                Ok(_) => {},
                Err(msg) => { return Err(msg); },
            }
        }
        let fun_ctx = match FunContext::new(all) {
            Ok(ctx) => ctx,
            Err(_) => { return Err(String::from_str("Invalid")); },
        };
        let mut g = self.gen;
        match compile_function(defn, &self.defines, &fun_ctx, &mut g) {
            Ok(code) => Ok((code, g)),
            Err(_) => Err(String::from_str("Invalid")),
        }
    }

    #[verifier::rlimit(50)]
    fn begin_fun(&mut self, defn: FunDefn) -> (step: Step)
        ensures
            (step@, final(self)@) == spec_begin_fun(old(self)@, defn@),
    {
        if find_function(self.functions.as_slice(), &defn.name).is_some() {
            let mut line = String::from_str("Duplicate function definition: ");
            line.append(defn.name.as_str());
            return Step::Reject(line);
        }
        if contains_input(&defn.body) {
            return Step::Reject(
                String::from_str("Invalid: input not allowed in function definitions"),
            );
        }
        let ghost start = self@;
        self.functions.push(defn);
        proof {
            assert(defns_view(self.functions@) =~= start.functions.push(defn@));
        }
        let checked = self.check_fun();
        let defn = match self.functions.pop() {
            Some(d) => d,
            None => { return invalid(); },
        };
        proof {
            assert(defns_view(self.functions@) =~= start.functions);
        }
        let (code, g) = match checked {
            Ok(p) => p,
            Err(line) => { return Step::Reject(line); },
        };
        let known = self.labels.len();
        let mut label = String::from_str("fun_");
        label.append(defn.name.as_str());
        let _ = self.labels.intern(&label);
        let segments = self.segments;
        let step = self.plan(code, g, Pending::Fun(defn), known, segments, Ghost(start));
        match step {
            Step::Reject(line) => {
                self.labels.truncate(known);
                proof {
                    assert(self@.labels =~= start.labels);
                }
                Step::Reject(line)
            },
            run => run,
        }
    }

    /// Decides what is done for the input `entry`: it is rejected with a
    /// line to show and the session stays as it is, or a segment is planned
    /// for the host to assemble.
    pub fn begin(&mut self, entry: ReplEntry) -> (step: Step)
        ensures
            (step@, final(self)@) == spec_begin(old(self)@, entry@),
    {
        match entry {
            ReplEntry::Expr(e) => self.begin_expr(e),
            ReplEntry::Define(name, e) => self.begin_define(name, *e),
            ReplEntry::Fun(name, params, body, param_types, return_type) => self.begin_fun(
                FunDefn { name, params, body: Box::new(body), param_types, return_type },
            ),
            ReplEntry::FunDefn(defn) => self.begin_fun(defn),
        }
    }

    /// Takes the host's report on a planned segment: the session keeps what
    /// the input defines, or nothing of it, and the result is the line to
    /// show.
    pub fn finish(&mut self, ticket: Ticket, outcome: Outcome) -> (line: String)
        ensures
            (final(self)@, line@) == spec_finish(old(self)@, ticket@, outcome),
    {
        match outcome {
            Outcome::AssemblyFailed => {
                self.labels.truncate(ticket.labels_before);
                self.gen = ticket.gen_before;
                String::from_str("Invalid")
            },
            Outcome::Faulted(code) => error_message(code),
            _ => match ticket.kind {
                Pending::Expr => match outcome {
                    Outcome::Returned(w) => show_word(w),
                    _ => String::new(),
                },
                Pending::Define { name, offset, ty } => {
                    let mut line = name.clone();
                    line.append(" defined");
                    match ty {
                        Some(t) => {
                            self.define_types = types_update(&self.define_types, name.clone(), t);
                        },
                        None => {},
                    }
                    self.defines = offsets_update(&self.defines, name, offset);
                    line
                },
                Pending::Fun(defn) => {
                    let mut line = String::from_str("Function defined: ");
                    line.append(defn.name.as_str());
                    let ghost before = defns_view(self.functions@);
                    self.functions.push(defn);
                    proof {
                        assert(defns_view(self.functions@) =~= before.push(defn@));
                    }
                    line
                },
            },
        }
    }
}

/// What `begin` leaves alone and what its ticket records: the definitions
/// of the session are the same afterwards; a rejection leaves the whole
/// session as it was; a ticket holds the labels and counters from before, a
/// definition on it is of a name that is not defined, and a function on it
/// is of a name that no known function has.
#[verifier::rlimit(50)]
pub proof fn lemma_begin_keeps_definitions(s: SessionView, entry: ReplEntryView)
    ensures
        ({
            let (step, after) = spec_begin(s, entry);
            &&& after.typecheck == s.typecheck
            &&& after.functions == s.functions
            &&& after.defines == s.defines
            &&& after.define_types == s.define_types
            &&& step is Reject ==> after == s
            &&& step matches StepView::Run { ticket, .. } ==> {
                &&& ticket.labels_before == s.labels.len() as usize
                &&& ticket.gen_before == s.gen
                &&& ticket.kind matches PendingView::Define { name, .. } ==> !s.defines.contains_key(
                    name,
                )
                &&& ticket.kind matches PendingView::Fun(d) ==> find_defn(s.functions, d.name, 0)
                    is None
            }
        }),
{
    match entry {
        ReplEntryView::Expr(e) => {
            let n = (s.segments + 1) as u64;
            match spec_fun_table(s.functions, 0, Map::empty()) {
                Ok(funs) => match spec_expr_segment(e, s.defines, funs, s.gen, n as nat) {
                    Ok((code, g)) => lemma_plan(s, code, g, PendingView::Expr, s.labels, n),
                    Err(_) => {},
                },
                Err(_) => {},
            }
        },
        ReplEntryView::Define(name, e) => {
            let n = (s.segments + 1) as u64;
            let checked = spec_typecheck(
                e,
                spec_typing_env(s.define_types, Type::Any),
                s.functions,
            );
            let ty = if s.typecheck {
                Some(checked->Ok_0)
            } else {
                None
            };
            match spec_fun_table(s.functions, 0, Map::empty()) {
                Ok(funs) => match spec_define_segment(e, s.defines, funs, s.gen, n as nat) {
                    Ok((offset, code, g)) => lemma_plan(
                        s,
                        code,
                        g,
                        PendingView::Define { name, offset, ty },
                        s.labels,
                        n,
                    ),
                    Err(_) => {},
                },
                Err(_) => {},
            }
        },
        ReplEntryView::FunDefn(d) => {
            match spec_fun_table(s.functions.push(d), 0, Map::empty()) {
                Ok(funs) => match spec_compile_function(d, s.defines, funs, s.gen) {
                    Ok((code, g)) => lemma_plan(
                        s,
                        code,
                        g,
                        PendingView::Fun(d),
                        with_label(s.labels, fun_label(d.name)),
                        s.segments,
                    ),
                    Err(_) => {},
                },
                Err(_) => {},
            }
        },
    }
}

/// A plan is a rejection that leaves the session as it was, or a ticket
/// with the labels and counters from before and a session that differs in
/// labels, counters and the number of segments only.
proof fn lemma_plan(
    s: SessionView,
    code: Seq<InstrView>,
    gen: CodeGen,
    kind: PendingView,
    names: Seq<Seq<char>>,
    segments: u64,
)
    ensures
        ({
            let (step, after) = spec_plan(s, code, gen, kind, names, segments);
            &&& after.typecheck == s.typecheck
            &&& after.functions == s.functions
            &&& after.defines == s.defines
            &&& after.define_types == s.define_types
            &&& step is Reject ==> after == s
            &&& step matches StepView::Run { ticket, .. } ==> {
                &&& ticket.labels_before == s.labels.len() as usize
                &&& ticket.gen_before == s.gen
                &&& ticket.kind == kind
            }
        }),
{
}

/// A run-time error abandons its input and nothing else: after a fault the
/// session is exactly what it was when the segment was planned, and the line
/// shown is the message of the error.
pub proof fn lemma_fault_keeps_session(s: SessionView, t: TicketView, code: i64)
    ensures
        spec_finish(s, t, Outcome::Faulted(code)) == (s, spec_error_message(code)),
{
}

/// The same name is not defined twice: once a definition has run, its name
/// is bound to its heap slot, a further definition of the name is rejected
/// as a duplicate binding, and the rejection leaves the session, and with it
/// the first binding, as it was.
pub proof fn lemma_second_definition_is_rejected(
    s: SessionView,
    t: TicketView,
    word: i64,
    again: ExprView,
)
    requires
        t.kind is Define,
    ensures
        ({
            let name = t.kind->Define_name;
            let (defined, _) = spec_finish(s, t, Outcome::Returned(word));
            &&& defined.defines.contains_key(name)
            &&& defined.defines[name] == t.kind->Define_offset
            &&& spec_begin(defined, ReplEntryView::Define(name, again)) == (
                StepView::Reject("Duplicate binding"@),
                defined,
            )
        }),
{
}

/// The same function is not defined twice: once a function has been
/// assembled, a further definition of its name is rejected as a duplicate,
/// and the rejection leaves the session as it was.
pub proof fn lemma_second_function_is_rejected(s: SessionView, t: TicketView, again: FunDefnView)
    requires
        t.kind is Fun,
        again.name == t.kind->Fun_0.name,
    ensures
        ({
            let (defined, _) = spec_finish(s, t, Outcome::Assembled);
            spec_begin(defined, ReplEntryView::FunDefn(again)) == (
                StepView::Reject("Duplicate function definition: "@ + again.name),
                defined,
            )
        }),
{
    let (defined, _) = spec_finish(s, t, Outcome::Assembled);
    let d = t.kind->Fun_0;
    assert(defined.functions == s.functions.push(d));
    lemma_find_defn_finds(defined.functions, d.name, 0, s.functions.len() as int);
}

/// A name that a list of definitions holds at index `k` is found from any
/// index up to `k`.
pub proof fn lemma_find_defn_finds(defns: Seq<FunDefnView>, name: Seq<char>, from: int, k: int)
    requires
        0 <= from <= k < defns.len(),
        defns[k].name == name,
    ensures
        find_defn(defns, name, from) is Some,
    decreases k - from,
{
    if defns[from].name != name {
        lemma_find_defn_finds(defns, name, from + 1, k);
    }
}

/// Whatever one input does, the bindings that the session had stay: after
/// `begin` and `finish` with its ticket, every name that was defined is
/// bound to the same heap slot, and the functions that were known are known
/// in the same order.
pub proof fn lemma_definitions_persist(s: SessionView, entry: ReplEntryView, outcome: Outcome)
    requires
        spec_begin(s, entry).0 is Run,
    ensures
        ({
            let (step, planned) = spec_begin(s, entry);
            let (after, _) = spec_finish(planned, step->Run_ticket, outcome);
            &&& forall|name: Seq<char>|
                s.defines.contains_key(name) ==> after.defines.contains_key(name)
                    && after.defines[name] == s.defines[name]
            &&& s.functions.len() <= after.functions.len()
            &&& after.functions.take(s.functions.len() as int) == s.functions
        }),
{
    lemma_begin_keeps_definitions(s, entry);
    let (step, planned) = spec_begin(s, entry);
    let (after, _) = spec_finish(planned, step->Run_ticket, outcome);
    assert(after.functions.take(s.functions.len() as int) =~= s.functions);
}

/// A `break` outside any loop is a static error in a session too: an
/// expression or a definition that holds a `break` of its own is rejected,
/// nothing is planned for it, and the session stays as it was.
pub proof fn lemma_break_is_rejected(s: SessionView, name: Seq<char>, e: ExprView)
    requires
        has_own_break(e),
    ensures
        spec_begin(s, ReplEntryView::Expr(e)).0 is Reject,
        spec_begin(s, ReplEntryView::Expr(e)).1 == s,
        spec_begin(s, ReplEntryView::Define(name, e)).0 is Reject,
        spec_begin(s, ReplEntryView::Define(name, e)).1 == s,
{
    let n = (s.segments + 1) as nat;
    match spec_fun_table(s.functions, 0, Map::empty()) {
        Ok(funs) => {
            match s.gen.spec_input_slot() {
                Some((g, _)) => lemma_own_break_is_rejected(
                    e,
                    -8i32,
                    Map::empty(),
                    s.defines,
                    funs,
                    g,
                ),
                None => {},
            }
            match s.gen.spec_alloc() {
                Some((g, _)) => lemma_own_break_is_rejected(
                    e,
                    -8i32,
                    Map::empty(),
                    s.defines,
                    funs,
                    g,
                ),
                None => {},
            }
            assert(spec_expr_segment(e, s.defines, funs, s.gen, n) is Err);
            assert(spec_define_segment(e, s.defines, funs, s.gen, n) is Err);
        },
        Err(_) => {},
    }
}

} // verus!
