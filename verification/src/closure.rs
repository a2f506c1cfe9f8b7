//! The instruction set is closed: whatever the code generator and the
//! assemblers of functions, programs and segments produce can be lowered.
//!
//! The lowering refuses an instruction for two reasons only: its operands
//! have no machine form, or it refers to a label without a number. The
//! proofs below show that generated code gives no such reason, provided the
//! two helpers that generated code calls have numbers.

use vstd::prelude::*;
use crate::ast::{ExprView, FunDefnView, Op1, Op2, ProgramView, Type};
use crate::compiler::{
    fun_label, jo_overflow, min32, needs_pad, rax, rcx, slot, spec_binop_code,
    spec_both_numeric_code, spec_cast_code, spec_compile, spec_compile_args, spec_compile_block,
    spec_compile_function, spec_compile_functions, spec_compile_let, spec_compile_main,
    spec_error_handlers, spec_frame_size, spec_fun_table, spec_handler, spec_param_offsets,
    spec_program_code, spec_prologue, spec_select, spec_unop_code, spec_with_epilogue,
    spec_with_frame, CodeGen, Compiled,
};
use crate::instr::{InstrView, Reg, Val};
use crate::jit::{
    index_of, lemma_index_of, mentioned_label, spec_assign_labels, spec_compile_to_jit,
    spec_lower, spec_lower_all, spec_lower_segment, with_label, Lowered,
};

use crate::ast::ReplEntryView;
use crate::jit::lemma_assign_extends;
use crate::repl::{
    spec_begin, spec_contains_input, spec_define_segment, spec_entry_open, spec_expr_segment,
    spec_finish, spec_plan, spec_retarget, spec_retarget_code, spec_segment_handlers,
    spec_typing_env, Outcome, PendingView, SessionView,
};
use crate::typechecker::{find_defn, spec_typecheck, spec_typecheck_defn_in};

verus! {

/// The label that an instruction refers to: the one it defines, jumps to or
/// calls.
pub open spec fn label_of(i: InstrView) -> Option<Seq<char>> {
    match i {
        InstrView::ICall(l) => Some(l),
        _ => mentioned_label(i),
    }
}

/// Whether the operands of `i` have a machine form: with its own label
/// numbered, `i` is lowered.
pub open spec fn has_machine_form(i: InstrView) -> bool {
    spec_lower(
        i,
        match label_of(i) {
            Some(l) => seq![l],
            None => Seq::empty(),
        },
    ) is Ok
}

/// Whether `names` holds `l`.
pub open spec fn knows(names: Seq<Seq<char>>, l: Seq<char>) -> bool {
    index_of(names, l, 0) is Some
}

/// A label is known exactly if it occurs in the list.
pub proof fn lemma_knows(names: Seq<Seq<char>>, l: Seq<char>)
    ensures
        knows(names, l) <==> exists|k: int| 0 <= k < names.len() && names[k] == l,
{
    lemma_index_of(names, l, 0);
    if knows(names, l) {
        let k = index_of(names, l, 0)->Some_0;
        assert(0 <= k < names.len() && names[k] == l);
    }
}

/// Adding a label keeps what was known and makes the label known.
pub proof fn lemma_with_label(names: Seq<Seq<char>>, added: Seq<char>, l: Seq<char>)
    ensures
        knows(with_label(names, added), added),
        knows(names, l) ==> knows(with_label(names, added), l),
{
    let after = with_label(names, added);
    lemma_knows(names, l);
    lemma_knows(names, added);
    lemma_knows(after, l);
    lemma_knows(after, added);
    if !knows(names, added) {
        assert(after[names.len() as int] == added);
        if knows(names, l) {
            let k = choose|k: int| 0 <= k < names.len() && names[k] == l;
            assert(0 <= k < after.len() && after[k] == l);
        }
    }
}

/// An instruction with a machine form is lowered once its label, if it has
/// one, is known.
pub proof fn lemma_lowers(i: InstrView, names: Seq<Seq<char>>)
    requires
        has_machine_form(i),
        label_of(i) matches Some(l) ==> knows(names, l),
    ensures
        spec_lower(i, names) is Ok,
{
}

/// The first pass keeps what was known and makes known every label that the
/// instructions it has seen define or jump to.
pub proof fn lemma_assign_knows(code: Seq<InstrView>, n: nat, names: Seq<Seq<char>>)
    requires
        n <= code.len(),
    ensures
        forall|l: Seq<char>| knows(names, l) ==> knows(spec_assign_labels(code, n, names), l),
        forall|j: int|
            0 <= j < n ==> (mentioned_label(#[trigger] code[j]) matches Some(l) ==> knows(
                spec_assign_labels(code, n, names),
                l,
            )),
    decreases n,
{
    if n > 0 {
        lemma_assign_knows(code, (n - 1) as nat, names);
        let before = spec_assign_labels(code, (n - 1) as nat, names);
        let after = spec_assign_labels(code, n, names);
        match mentioned_label(code[n - 1]) {
            Some(added) => {
                assert forall|l: Seq<char>| knows(before, l) implies knows(after, l) by {
                    lemma_with_label(before, added, l);
                }
                lemma_with_label(before, added, added);
            },
            None => {},
        }
    }
}

/// Instructions that are each lowered are lowered one after the other.
pub proof fn lemma_lower_all(
    code: Seq<InstrView>,
    i: int,
    names: Seq<Seq<char>>,
    acc: Seq<Lowered>,
)
    requires
        0 <= i,
        forall|j: int| i <= j < code.len() ==> spec_lower(#[trigger] code[j], names) is Ok,
    ensures
        spec_lower_all(code, i, names, acc) is Ok,
    decreases code.len() - i,
{
    if i < code.len() {
        lemma_lower_all(code, i + 1, names, acc.push(spec_lower(code[i], names)->Ok_0));
    }
}

/// Whether every instruction of `code` has a machine form and every call in
/// it goes to a label that `names` holds or that `code` itself defines.
pub open spec fn lowerable(code: Seq<InstrView>, names: Seq<Seq<char>>) -> bool {
    forall|j: int|
        0 <= j < code.len() ==> {
            &&& has_machine_form(#[trigger] code[j])
            &&& code[j] matches InstrView::ICall(l) ==> knows(names, l) || exists|k: int|
                0 <= k < code.len() && code[k] == InstrView::ILabel(l)
        }
}

/// A segment of instructions with machine forms, whose calls go to known
/// labels or to labels of its own, has a plan.
pub proof fn lemma_segment_lowers(code: Seq<InstrView>, names: Seq<Seq<char>>)
    requires
        lowerable(code, names),
    ensures
        spec_lower_segment(code, names) is Ok,
{
    let assigned = spec_assign_labels(code, code.len(), names);
    lemma_assign_knows(code, code.len(), names);
    assert forall|j: int| 0 <= j < code.len() implies spec_lower(#[trigger] code[j], assigned)
        is Ok by {
        match code[j] {
            InstrView::ICall(l) => {
                if !knows(names, l) {
                    let k = choose|k: int| 0 <= k < code.len() && code[k] == InstrView::ILabel(l);
                    assert(mentioned_label(code[k]) == Some(l));
                }
            },
            _ => {},
        }
        lemma_lowers(code[j], assigned);
    }
    lemma_lower_all(code, 0, assigned, Seq::empty());
}

/// Whether generated code may call `l`: it is one of the two helpers or the
/// label of a function of the signature table.
pub open spec fn call_target(l: Seq<char>, funs: Map<Seq<char>, usize>) -> bool {
    l == "_snek_print"@ || l == "snek_error"@ || exists|f: Seq<char>|
        funs.contains_key(f) && l == fun_label(f)
}

/// Whether `i` has a machine form and, if it is a call, goes to a helper or
/// to a function of the signature table.
pub open spec fn fine(i: InstrView, funs: Map<Seq<char>, usize>) -> bool {
    &&& has_machine_form(i)
    &&& i matches InstrView::ICall(l) ==> call_target(l, funs)
}

/// Whether every instruction of `code` is fine.
pub open spec fn all_fine(code: Seq<InstrView>, funs: Map<Seq<char>, usize>) -> bool {
    forall|j: int| 0 <= j < code.len() ==> fine(#[trigger] code[j], funs)
}

/// Code made of fine code is fine.
pub proof fn lemma_fine_combine(funs: Map<Seq<char>, usize>)
    ensures
        all_fine(Seq::empty(), funs),
        forall|a: Seq<InstrView>, b: Seq<InstrView>|
            all_fine(a, funs) && all_fine(b, funs) ==> all_fine(#[trigger] (a + b), funs),
        forall|a: Seq<InstrView>, x: InstrView|
            all_fine(a, funs) && fine(x, funs) ==> all_fine(#[trigger] a.push(x), funs),
{
    assert forall|a: Seq<InstrView>, b: Seq<InstrView>|
        all_fine(a, funs) && all_fine(b, funs) implies all_fine(#[trigger] (a + b), funs) by {
        assert forall|j: int| 0 <= j < (a + b).len() implies fine(#[trigger] (a + b)[j], funs) by {
            if j < a.len() {
                assert((a + b)[j] == a[j]);
            } else {
                assert((a + b)[j] == b[j - a.len()]);
            }
        }
    }
    assert forall|a: Seq<InstrView>, x: InstrView|
        all_fine(a, funs) && fine(x, funs) implies all_fine(#[trigger] a.push(x), funs) by {
        assert forall|j: int| 0 <= j < a.push(x).len() implies fine(
            #[trigger] a.push(x)[j],
            funs,
        ) by {
            if j < a.len() {
                assert(a.push(x)[j] == a[j]);
            } else {
                assert(a.push(x)[j] == x);
            }
        }
    }
}

/// A jump has a machine form whatever its target; so have a label and the
/// moves, stores and pushes that generated code is made of.
#[verifier::rlimit(50)]
pub proof fn lemma_basic_forms(funs: Map<Seq<char>, usize>)
    ensures
        forall|l: Seq<char>| #[trigger] fine(InstrView::ILabel(l), funs),
        forall|l: Seq<char>| #[trigger] fine(InstrView::IJmp(l), funs),
        forall|l: Seq<char>| #[trigger] fine(InstrView::IJe(l), funs),
        forall|l: Seq<char>| #[trigger] fine(InstrView::IJne(l), funs),
        forall|l: Seq<char>| #[trigger] fine(InstrView::IJo(l), funs),
        forall|l: Seq<char>| call_target(l, funs) ==> #[trigger] fine(InstrView::ICall(l), funs),
        forall|r: Reg, v: Val| !(v is Imm) ==> #[trigger] fine(InstrView::IMov(v, Val::Reg(r)), funs),
        forall|r: Reg, v: Val| #[trigger] fine(InstrView::IMov(Val::Reg(r), v), funs),
        forall|r: Reg, off: i32, n: i32| #[trigger]
            fine(InstrView::IMov(Val::RegOffset(r, off), Val::Imm(n)), funs),
        forall|r: Reg, v: Val| #[trigger] fine(InstrView::IAdd(Val::Reg(r), v), funs),
        forall|r: Reg, v: Val| #[trigger] fine(InstrView::ISub(Val::Reg(r), v), funs),
        forall|r: Reg, v: Val| #[trigger] fine(InstrView::IMul(Val::Reg(r), v), funs),
        forall|r: Reg, v: Val| #[trigger] fine(InstrView::ICmp(Val::Reg(r), v), funs),
        forall|r: Reg, v: Val| #[trigger] fine(InstrView::IOr(Val::Reg(r), v), funs),
        forall|r: Reg, n: i32| #[trigger] fine(InstrView::ITest(Val::Reg(r), Val::Imm(n)), funs),
        forall|r: Reg| #[trigger] fine(InstrView::IPush(Val::Reg(r)), funs),
        forall|r: Reg| #[trigger] fine(InstrView::IPop(Val::Reg(r)), funs),
        fine(InstrView::IRet, funs),
        fine(InstrView::ISar(rax(), Val::Imm(1)), funs),
        forall|a: Reg, b: Reg| #[trigger] fine(InstrView::ICMovE(Val::Reg(a), Val::Reg(b)), funs),
        forall|a: Reg, b: Reg| #[trigger] fine(InstrView::ICMovNE(Val::Reg(a), Val::Reg(b)), funs),
        forall|a: Reg, b: Reg| #[trigger] fine(InstrView::ICMovG(Val::Reg(a), Val::Reg(b)), funs),
        forall|a: Reg, b: Reg| #[trigger] fine(InstrView::ICMovGE(Val::Reg(a), Val::Reg(b)), funs),
        forall|a: Reg, b: Reg| #[trigger] fine(InstrView::ICMovL(Val::Reg(a), Val::Reg(b)), funs),
        forall|a: Reg, b: Reg| #[trigger] fine(InstrView::ICMovLE(Val::Reg(a), Val::Reg(b)), funs),
{
    assert forall|l: Seq<char>| knows(seq![l], l) by {
        assert(seq![l][0] == l);
    }
}

/// Fine code after fine code is fine.
pub proof fn lemma_fine_add(a: Seq<InstrView>, b: Seq<InstrView>, funs: Map<Seq<char>, usize>)
    requires
        all_fine(a, funs),
        all_fine(b, funs),
    ensures
        all_fine(a + b, funs),
{
    lemma_fine_combine(funs);
}

/// The code of a unary operator is fine.
pub proof fn lemma_unop_fine(op: Op1, funs: Map<Seq<char>, usize>)
    ensures
        all_fine(spec_unop_code(op), funs),
{
    lemma_basic_forms(funs);
    let code = spec_unop_code(op);
    assert(call_target("_snek_print"@, funs));
    assert forall|j: int| 0 <= j < code.len() implies fine(#[trigger] code[j], funs) by {}
}

/// The check that both operands are numbers is fine.
pub proof fn lemma_both_numeric_fine(si: i32, funs: Map<Seq<char>, usize>)
    ensures
        all_fine(spec_both_numeric_code(si), funs),
{
    lemma_basic_forms(funs);
    let code = spec_both_numeric_code(si);
    assert forall|j: int| 0 <= j < code.len() implies fine(#[trigger] code[j], funs) by {}
}

/// The code of an arithmetic operator is fine.
proof fn lemma_arith_fine(op: Op2, si: i32, below: i32, funs: Map<Seq<char>, usize>)
    requires
        op == Op2::Plus || op == Op2::Minus || op == Op2::Times,
    ensures
        all_fine(spec_binop_code(op, si, below), funs),
{
    lemma_basic_forms(funs);
    lemma_both_numeric_fine(si, funs);
    let check = spec_both_numeric_code(si);
    let tail = match op {
        Op2::Plus => seq![InstrView::IAdd(rax(), slot(si)), jo_overflow()],
        Op2::Minus => seq![
            InstrView::IMov(rcx(), rax()),
            InstrView::IMov(rax(), slot(si)),
            InstrView::ISub(rax(), rcx()),
            jo_overflow(),
        ],
        _ => seq![
            InstrView::ISar(rax(), Val::Imm(1)),
            InstrView::IMul(rax(), slot(si)),
            jo_overflow(),
        ],
    };
    assert forall|j: int| 0 <= j < tail.len() implies fine(#[trigger] tail[j], funs) by {}
    lemma_fine_add(check, tail, funs);
    assert(spec_binop_code(op, si, below) == check + tail);
}

/// The code of a comparison is fine.
proof fn lemma_compare_fine(op: Op2, si: i32, below: i32, funs: Map<Seq<char>, usize>)
    requires
        !(op == Op2::Plus || op == Op2::Minus || op == Op2::Times),
    ensures
        all_fine(spec_binop_code(op, si, below), funs),
{
    lemma_basic_forms(funs);
    if op == Op2::Equal {
        let code = spec_binop_code(op, si, below);
        assert forall|j: int| 0 <= j < code.len() implies fine(#[trigger] code[j], funs) by {}
    } else {
        lemma_both_numeric_fine(si, funs);
        let check = spec_both_numeric_code(si);
        let head = seq![InstrView::IMov(slot(below), rax())];
        let tail = seq![
            InstrView::IMov(rcx(), slot(si)),
            InstrView::IMov(rax(), slot(below)),
            InstrView::ICmp(rcx(), rax()),
            InstrView::IMov(rax(), Val::Imm(crate::compiler::FALSE_VAL)),
            InstrView::IMov(rcx(), Val::Imm(crate::compiler::TRUE_VAL)),
            spec_select(op),
        ];
        assert forall|j: int| 0 <= j < head.len() implies fine(#[trigger] head[j], funs) by {}
        assert forall|j: int| 0 <= j < tail.len() implies fine(#[trigger] tail[j], funs) by {}
        lemma_fine_add(head, check, funs);
        lemma_fine_add(head + check, tail, funs);
        assert(spec_binop_code(op, si, below) == head + check + tail);
    }
}

/// The code of a binary operator is fine.
pub proof fn lemma_binop_fine(op: Op2, si: i32, below: i32, funs: Map<Seq<char>, usize>)
    ensures
        all_fine(spec_binop_code(op, si, below), funs),
{
    if op == Op2::Plus || op == Op2::Minus || op == Op2::Times {
        lemma_arith_fine(op, si, below, funs);
    } else {
        lemma_compare_fine(op, si, below, funs);
    }
}

/// The check of a cast is fine.
pub proof fn lemma_cast_fine(t: Type, funs: Map<Seq<char>, usize>)
    ensures
        all_fine(spec_cast_code(t), funs),
{
    lemma_basic_forms(funs);
    let code = spec_cast_code(t);
    assert forall|j: int| 0 <= j < code.len() implies fine(#[trigger] code[j], funs) by {}
}

/// Fine code with one more fine instruction is fine.
pub proof fn lemma_fine_push(a: Seq<InstrView>, x: InstrView, funs: Map<Seq<char>, usize>)
    requires
        all_fine(a, funs),
        fine(x, funs),
    ensures
        all_fine(a.push(x), funs),
{
    lemma_fine_combine(funs);
}

/// Whatever the code generator yields is fine: every instruction has a
/// machine form, and every call goes to the print helper or to a function
/// of the signature table.
#[verifier::rlimit(50)]
pub proof fn lemma_generated_code_fine(
    e: ExprView,
    si: i32,
    env: Map<Seq<char>, i32>,
    defines: Map<Seq<char>, i32>,
    funs: Map<Seq<char>, usize>,
    loop_end: Option<Seq<char>>,
    gen: CodeGen,
)
    ensures
        spec_compile(e, si, env, defines, funs, loop_end, gen) matches Ok(c) ==> all_fine(
            c.code,
            funs,
        ),
    decreases e, 1int, 0int,
{
    if spec_compile(e, si, env, defines, funs, loop_end, gen) is Ok {
        lemma_basic_forms(funs);
        let nothing = Seq::<InstrView>::empty();
        assert(all_fine(nothing, funs));
        match e {
            ExprView::Number(n) => {
                lemma_fine_push(nothing, InstrView::IMov(rax(), Val::Imm((2 * n) as i32)), funs);
            },
            ExprView::Boolean(b) => {
                let w = if b {
                    crate::compiler::TRUE_VAL
                } else {
                    crate::compiler::FALSE_VAL
                };
                lemma_fine_push(nothing, InstrView::IMov(rax(), Val::Imm(w)), funs);
            },
            ExprView::Input => {
                let off = gen.spec_input_slot()->Some_0.1;
                lemma_fine_push(
                    nothing,
                    InstrView::IMov(rax(), Val::RegOffset(Reg::R15, off)),
                    funs,
                );
            },
            ExprView::Id(name) => {
                if env.contains_key(name) {
                    lemma_fine_push(nothing, InstrView::IMov(rax(), slot(env[name])), funs);
                } else {
                    lemma_fine_push(
                        nothing,
                        InstrView::IMov(rax(), Val::RegOffset(Reg::R15, defines[name])),
                        funs,
                    );
                }
            },
            ExprView::UnOp(op, a) => {
                lemma_generated_code_fine(*a, si, env, defines, funs, loop_end, gen);
                let c = spec_compile(*a, si, env, defines, funs, loop_end, gen)->Ok_0;
                lemma_unop_fine(op, funs);
                lemma_fine_add(c.code, spec_unop_code(op), funs);
            },
            ExprView::BinOp(op, l, r) => {
                lemma_generated_code_fine(*l, si, env, defines, funs, loop_end, gen);
                let cl = spec_compile(*l, si, env, defines, funs, loop_end, gen)->Ok_0;
                let below = (si - 8) as i32;
                lemma_generated_code_fine(*r, below, env, defines, funs, loop_end, cl.gen);
                let cr = spec_compile(*r, below, env, defines, funs, loop_end, cl.gen)->Ok_0;
                let stored = cl.code.push(InstrView::IMov(slot(si), rax()));
                lemma_fine_push(cl.code, InstrView::IMov(slot(si), rax()), funs);
                lemma_fine_add(stored, cr.code, funs);
                lemma_binop_fine(op, si, below, funs);
                lemma_fine_add(stored + cr.code, spec_binop_code(op, si, below), funs);
            },
            ExprView::SetVar(name, a) => {
                lemma_generated_code_fine(*a, si, env, defines, funs, loop_end, gen);
                let c = spec_compile(*a, si, env, defines, funs, loop_end, gen)->Ok_0;
                if env.contains_key(name) {
                    lemma_fine_push(c.code, InstrView::IMov(slot(env[name]), rax()), funs);
                } else {
                    lemma_fine_push(
                        c.code,
                        InstrView::IMov(Val::RegOffset(Reg::R15, defines[name]), rax()),
                        funs,
                    );
                }
            },
            ExprView::If(c, t, f) => {
                lemma_if_fine(e, si, env, defines, funs, loop_end, gen);
            },
            ExprView::Block(es) => {
                lemma_block_fine(
                    es,
                    0,
                    si,
                    env,
                    defines,
                    funs,
                    loop_end,
                    Compiled { code: nothing, min_si: si, gen },
                );
            },
            ExprView::Let(bindings, _) => {
                lemma_let_fine(
                    e,
                    0,
                    si,
                    env,
                    defines,
                    funs,
                    loop_end,
                    Compiled { code: nothing, min_si: si, gen },
                );
            },
            ExprView::Loop(body) => {
                let g1 = gen.spec_count_label()->Some_0;
                let g2 = g1.spec_count_label()->Some_0;
                let start_label = crate::compiler::label_text("loop_start"@, g1.label_counter as nat);
                let end_label = crate::compiler::label_text("loop_end"@, g2.label_counter as nat);
                lemma_generated_code_fine(*body, si, env, defines, funs, Some(end_label), g2);
                let c = spec_compile(*body, si, env, defines, funs, Some(end_label), g2)->Ok_0;
                let head = seq![InstrView::ILabel(start_label)];
                lemma_fine_push(nothing, InstrView::ILabel(start_label), funs);
                lemma_fine_add(head, c.code, funs);
                lemma_fine_push(head + c.code, InstrView::IJmp(start_label), funs);
                lemma_fine_push(
                    (head + c.code).push(InstrView::IJmp(start_label)),
                    InstrView::ILabel(end_label),
                    funs,
                );
            },
            ExprView::Break(a) => {
                lemma_generated_code_fine(*a, si, env, defines, funs, loop_end, gen);
                let c = spec_compile(*a, si, env, defines, funs, loop_end, gen)->Ok_0;
                lemma_fine_push(c.code, InstrView::IJmp(loop_end->Some_0), funs);
            },
            ExprView::Call(name, args) => {
                lemma_call_fine(e, si, env, defines, funs, loop_end, gen);
            },
            ExprView::Cast(a, target) => {
                lemma_generated_code_fine(*a, si, env, defines, funs, loop_end, gen);
                let c = spec_compile(*a, si, env, defines, funs, loop_end, gen)->Ok_0;
                lemma_cast_fine(target, funs);
                lemma_fine_add(c.code, spec_cast_code(target), funs);
            },
        }
    }
}

proof fn lemma_if_fine(
    e: ExprView,
    si: i32,
    env: Map<Seq<char>, i32>,
    defines: Map<Seq<char>, i32>,
    funs: Map<Seq<char>, usize>,
    loop_end: Option<Seq<char>>,
    gen: CodeGen,
)
    requires
        e is If,
        spec_compile(e, si, env, defines, funs, loop_end, gen) is Ok,
    ensures
        all_fine(spec_compile(e, si, env, defines, funs, loop_end, gen)->Ok_0.code, funs),
    decreases e, 0int, 0int,
{
    lemma_basic_forms(funs);
    let c = *e->If_0;
    let t = *e->If_1;
    let f = *e->If_2;
    let g1 = gen.spec_count_label()->Some_0;
    let g2 = g1.spec_count_label()->Some_0;
    let else_label = crate::compiler::label_text("else"@, g1.label_counter as nat);
    let end_label = crate::compiler::label_text("endif"@, g2.label_counter as nat);
    lemma_generated_code_fine(c, si, env, defines, funs, loop_end, g2);
    let cc = spec_compile(c, si, env, defines, funs, loop_end, g2)->Ok_0;
    lemma_generated_code_fine(t, si, env, defines, funs, loop_end, cc.gen);
    let ct = spec_compile(t, si, env, defines, funs, loop_end, cc.gen)->Ok_0;
    lemma_generated_code_fine(f, si, env, defines, funs, loop_end, ct.gen);
    let cf = spec_compile(f, si, env, defines, funs, loop_end, ct.gen)->Ok_0;
    let s1 = cc.code.push(InstrView::ICmp(rax(), Val::Imm(crate::compiler::FALSE_VAL)));
    lemma_fine_push(cc.code, InstrView::ICmp(rax(), Val::Imm(crate::compiler::FALSE_VAL)), funs);
    let s2 = s1.push(InstrView::IJe(else_label));
    lemma_fine_push(s1, InstrView::IJe(else_label), funs);
    let s3 = s2 + ct.code;
    lemma_fine_add(s2, ct.code, funs);
    let s4 = s3.push(InstrView::IJmp(end_label));
    lemma_fine_push(s3, InstrView::IJmp(end_label), funs);
    let s5 = s4.push(InstrView::ILabel(else_label));
    lemma_fine_push(s4, InstrView::ILabel(else_label), funs);
    let s6 = s5 + cf.code;
    lemma_fine_add(s5, cf.code, funs);
    lemma_fine_push(s6, InstrView::ILabel(end_label), funs);
}

proof fn lemma_call_fine(
    e: ExprView,
    si: i32,
    env: Map<Seq<char>, i32>,
    defines: Map<Seq<char>, i32>,
    funs: Map<Seq<char>, usize>,
    loop_end: Option<Seq<char>>,
    gen: CodeGen,
)
    requires
        e is Call,
        spec_compile(e, si, env, defines, funs, loop_end, gen) is Ok,
    ensures
        all_fine(spec_compile(e, si, env, defines, funs, loop_end, gen)->Ok_0.code, funs),
    decreases e, 0int, 0int,
{
    lemma_basic_forms(funs);
    let name = e->Call_0;
    let args = e->Call_1;
    let pad = needs_pad(args.len());
    let bytes = crate::compiler::arg_bytes(args.len()) as i32;
    let nothing = Seq::<InstrView>::empty();
    assert(all_fine(nothing, funs));
    let before: Seq<InstrView> = if pad {
        seq![InstrView::ISub(Val::Reg(Reg::RSP), Val::Imm(8))]
    } else {
        Seq::empty()
    };
    if pad {
        lemma_fine_push(nothing, InstrView::ISub(Val::Reg(Reg::RSP), Val::Imm(8)), funs);
    }
    let start = Compiled { code: before, min_si: si, gen };
    lemma_args_fine(args, args.len() as int, si, env, defines, funs, loop_end, start);
    let c = spec_compile_args(args, args.len() as int, si, env, defines, funs, loop_end, start)->Ok_0;
    assert(call_target(fun_label(name), funs));
    let called = c.code.push(InstrView::ICall(fun_label(name)));
    lemma_fine_push(c.code, InstrView::ICall(fun_label(name)), funs);
    let freed = if bytes > 0 {
        called.push(InstrView::IAdd(Val::Reg(Reg::RSP), Val::Imm(bytes)))
    } else {
        called
    };
    if bytes > 0 {
        lemma_fine_push(called, InstrView::IAdd(Val::Reg(Reg::RSP), Val::Imm(bytes)), funs);
    }
    if pad {
        lemma_fine_push(freed, InstrView::IAdd(Val::Reg(Reg::RSP), Val::Imm(8)), funs);
    }
}

proof fn lemma_block_fine(
    es: Seq<ExprView>,
    i: int,
    si: i32,
    env: Map<Seq<char>, i32>,
    defines: Map<Seq<char>, i32>,
    funs: Map<Seq<char>, usize>,
    loop_end: Option<Seq<char>>,
    acc: Compiled,
)
    requires
        0 <= i,
        all_fine(acc.code, funs),
    ensures
        spec_compile_block(es, i, si, env, defines, funs, loop_end, acc) matches Ok(c)
            ==> all_fine(c.code, funs),
    decreases es, 0int, es.len() - i,
{
    if i < es.len() {
        lemma_generated_code_fine(es[i], si, env, defines, funs, loop_end, acc.gen);
        match spec_compile(es[i], si, env, defines, funs, loop_end, acc.gen) {
            Ok(c) => {
                lemma_fine_add(acc.code, c.code, funs);
                lemma_block_fine(
                    es,
                    i + 1,
                    si,
                    env,
                    defines,
                    funs,
                    loop_end,
                    Compiled {
                        code: acc.code + c.code,
                        min_si: min32(acc.min_si, c.min_si),
                        gen: c.gen,
                    },
                );
            },
            Err(_) => {},
        }
    }
}

proof fn lemma_args_fine(
    args: Seq<ExprView>,
    k: int,
    si: i32,
    env: Map<Seq<char>, i32>,
    defines: Map<Seq<char>, i32>,
    funs: Map<Seq<char>, usize>,
    loop_end: Option<Seq<char>>,
    acc: Compiled,
)
    requires
        k <= args.len(),
        all_fine(acc.code, funs),
    ensures
        spec_compile_args(args, k, si, env, defines, funs, loop_end, acc) matches Ok(c)
            ==> all_fine(c.code, funs),
    decreases args, 0int, k,
{
    if k > 0 {
        lemma_basic_forms(funs);
        lemma_generated_code_fine(args[k - 1], si, env, defines, funs, loop_end, acc.gen);
        match spec_compile(args[k - 1], si, env, defines, funs, loop_end, acc.gen) {
            Ok(c) => {
                lemma_fine_add(acc.code, c.code, funs);
                lemma_fine_push(acc.code + c.code, InstrView::IPush(rax()), funs);
                lemma_args_fine(
                    args,
                    k - 1,
                    si,
                    env,
                    defines,
                    funs,
                    loop_end,
                    Compiled {
                        code: (acc.code + c.code).push(InstrView::IPush(rax())),
                        min_si: min32(acc.min_si, c.min_si),
                        gen: c.gen,
                    },
                );
            },
            Err(_) => {},
        }
    }
}

proof fn lemma_let_fine(
    e: ExprView,
    i: int,
    si: i32,
    env: Map<Seq<char>, i32>,
    defines: Map<Seq<char>, i32>,
    funs: Map<Seq<char>, usize>,
    loop_end: Option<Seq<char>>,
    acc: Compiled,
)
    requires
        e is Let,
        0 <= i,
        all_fine(acc.code, funs),
    ensures
        spec_compile_let(e, i, si, env, defines, funs, loop_end, acc) matches Ok(c) ==> all_fine(
            c.code,
            funs,
        ),
    decreases e, 0int, e->Let_0.len() - i,
{
    let bindings = e->Let_0;
    let body = *e->Let_1;
    if i >= bindings.len() {
        lemma_generated_code_fine(body, si, env, defines, funs, loop_end, acc.gen);
        match spec_compile(body, si, env, defines, funs, loop_end, acc.gen) {
            Ok(c) => lemma_fine_add(acc.code, c.code, funs),
            Err(_) => {},
        }
    } else if si >= i32::MIN + 8 {
        lemma_basic_forms(funs);
        let below = (si - 8) as i32;
        lemma_generated_code_fine(bindings[i].1, below, env, defines, funs, loop_end, acc.gen);
        match spec_compile(bindings[i].1, below, env, defines, funs, loop_end, acc.gen) {
            Ok(c) => {
                lemma_fine_add(acc.code, c.code, funs);
                lemma_fine_push(acc.code + c.code, InstrView::IMov(slot(si), rax()), funs);
                lemma_let_fine(
                    e,
                    i + 1,
                    below,
                    env.insert(bindings[i].0, si),
                    defines,
                    funs,
                    loop_end,
                    Compiled {
                        code: (acc.code + c.code).push(InstrView::IMov(slot(si), rax())),
                        min_si: min32(min32(acc.min_si, c.min_si), si),
                        gen: c.gen,
                    },
                );
            },
            Err(_) => {},
        }
    }
}

/// Whether `code` defines the label `l`.
pub open spec fn defines_label(code: Seq<InstrView>, l: Seq<char>) -> bool {
    exists|k: int| 0 <= k < code.len() && #[trigger] code[k] == InstrView::ILabel(l)
}

/// What a part of a code defines, the whole defines.
pub proof fn lemma_defines_label_add(a: Seq<InstrView>, b: Seq<InstrView>, l: Seq<char>)
    ensures
        defines_label(a, l) ==> defines_label(a + b, l),
        defines_label(b, l) ==> defines_label(a + b, l),
{
    if defines_label(a, l) {
        let k = choose|k: int| 0 <= k < a.len() && #[trigger] a[k] == InstrView::ILabel(l);
        assert((a + b)[k] == InstrView::ILabel(l));
    }
    if defines_label(b, l) {
        let k = choose|k: int| 0 <= k < b.len() && #[trigger] b[k] == InstrView::ILabel(l);
        assert((a + b)[a.len() + k] == InstrView::ILabel(l));
    }
}

/// Fine code that opens and closes a frame around fine code is fine.
proof fn lemma_framed_fine(
    open: Seq<InstrView>,
    frame: int,
    body: Seq<InstrView>,
    funs: Map<Seq<char>, usize>,
)
    requires
        all_fine(open, funs),
        all_fine(body, funs),
    ensures
        all_fine(spec_with_epilogue(spec_with_frame(open, frame) + body), funs),
{
    lemma_basic_forms(funs);
    let framed = spec_with_frame(open, frame);
    if frame > 0 {
        lemma_fine_push(open, InstrView::ISub(Val::Reg(Reg::RSP), Val::Imm(frame as i32)), funs);
    }
    lemma_fine_add(framed, body, funs);
    let s1 = (framed + body).push(InstrView::IMov(Val::Reg(Reg::RSP), Val::Reg(Reg::RBP)));
    lemma_fine_push(framed + body, InstrView::IMov(Val::Reg(Reg::RSP), Val::Reg(Reg::RBP)), funs);
    lemma_fine_push(s1, InstrView::IPop(Val::Reg(Reg::RBP)), funs);
    lemma_fine_push(s1.push(InstrView::IPop(Val::Reg(Reg::RBP))), InstrView::IRet, funs);
}

/// What opens a frame under a label is fine and defines the label.
proof fn lemma_prologue_fine(label: Seq<char>, funs: Map<Seq<char>, usize>)
    ensures
        all_fine(spec_prologue(label), funs),
        spec_prologue(label)[0] == InstrView::ILabel(label),
{
    lemma_basic_forms(funs);
    let code = spec_prologue(label);
    assert forall|j: int| 0 <= j < code.len() implies fine(#[trigger] code[j], funs) by {}
}

/// The code of a function is fine and defines the label of the function.
pub proof fn lemma_function_fine(
    d: FunDefnView,
    defines: Map<Seq<char>, i32>,
    funs: Map<Seq<char>, usize>,
    gen: CodeGen,
)
    ensures
        spec_compile_function(d, defines, funs, gen) matches Ok((code, _)) ==> all_fine(code, funs)
            && defines_label(code, fun_label(d.name)),
{
    match spec_compile_function(d, defines, funs, gen) {
        Ok((code, _)) => {
            let env = spec_param_offsets(d.params, d.params.len());
            lemma_generated_code_fine(d.body, -8i32, env, defines, funs, None, gen);
            let c = spec_compile(d.body, -8i32, env, defines, funs, None, gen)->Ok_0;
            let open = spec_prologue(fun_label(d.name));
            lemma_prologue_fine(fun_label(d.name), funs);
            lemma_framed_fine(open, spec_frame_size(c.min_si, false), c.code, funs);
            assert(code[0] == InstrView::ILabel(fun_label(d.name)));
        },
        Err(_) => {},
    }
}

/// The code of an entry point is fine.
pub proof fn lemma_main_fine(
    main: ExprView,
    defines: Map<Seq<char>, i32>,
    funs: Map<Seq<char>, usize>,
    gen: CodeGen,
)
    ensures
        spec_compile_main(main, defines, funs, gen) matches Ok((code, _)) ==> all_fine(code, funs),
{
    match spec_compile_main(main, defines, funs, gen) {
        Ok((code, _)) => {
            lemma_basic_forms(funs);
            let (g, off) = gen.spec_input_slot()->Some_0;
            lemma_generated_code_fine(main, -8i32, Map::empty(), defines, funs, None, g);
            let c = spec_compile(main, -8i32, Map::empty(), defines, funs, None, g)->Ok_0;
            let open = spec_prologue("our_code_starts_here"@);
            lemma_prologue_fine("our_code_starts_here"@, funs);
            let store = InstrView::IMov(Val::RegOffset(Reg::R15, off), Val::Reg(Reg::RDI));
            lemma_fine_push(open, store, funs);
            lemma_framed_fine(open.push(store), spec_frame_size(c.min_si, true), c.code, funs);
        },
        Err(_) => {},
    }
}

/// A handler of a run-time error is fine under any label.
pub proof fn lemma_handler_fine(label: Seq<char>, code: i32, funs: Map<Seq<char>, usize>)
    ensures
        all_fine(spec_handler(label, code), funs),
{
    lemma_basic_forms(funs);
    let h = spec_handler(label, code);
    assert(call_target("snek_error"@, funs));
    assert forall|j: int| 0 <= j < h.len() implies fine(#[trigger] h[j], funs) by {}
}

/// The shared handlers of run-time errors are fine.
pub proof fn lemma_handlers_fine(funs: Map<Seq<char>, usize>)
    ensures
        all_fine(spec_error_handlers(), funs),
{
    lemma_handler_fine("error_overflow"@, 1, funs);
    lemma_handler_fine("error_invalid_argument"@, 2, funs);
    lemma_handler_fine("error_bad_cast"@, 3, funs);
    let a = spec_handler("error_overflow"@, 1);
    let b = spec_handler("error_invalid_argument"@, 2);
    lemma_fine_add(a, b, funs);
    lemma_fine_add(a + b, spec_handler("error_bad_cast"@, 3), funs);
}

/// The code of the functions of a program is fine and defines the label of
/// each of them.
proof fn lemma_functions_fine(
    defns: Seq<FunDefnView>,
    i: int,
    funs: Map<Seq<char>, usize>,
    gen: CodeGen,
    acc: Seq<InstrView>,
)
    requires
        0 <= i,
        all_fine(acc, funs),
        forall|j: int| 0 <= j < i && j < defns.len() ==> defines_label(acc, fun_label(#[trigger] defns[j].name)),
    ensures
        spec_compile_functions(defns, i, funs, gen, acc) matches Ok((code, _)) ==> all_fine(
            code,
            funs,
        ) && forall|j: int|
            0 <= j < defns.len() ==> defines_label(code, fun_label(#[trigger] defns[j].name)),
    decreases defns.len() - i,
{
    if i < defns.len() {
        lemma_function_fine(defns[i], Map::empty(), funs, gen);
        match spec_compile_function(defns[i], Map::empty(), funs, gen) {
            Ok((more, g)) => {
                lemma_fine_add(acc, more, funs);
                assert forall|j: int| 0 <= j < i + 1 && j < defns.len() implies defines_label(
                    acc + more,
                    fun_label(#[trigger] defns[j].name),
                ) by {
                    lemma_defines_label_add(acc, more, fun_label(defns[j].name));
                }
                lemma_functions_fine(defns, i + 1, funs, g, acc + more);
            },
            Err(_) => {},
        }
    }
}

/// Every name of a signature table is the name of a definition that went
/// into it.
proof fn lemma_fun_table_names(defns: Seq<FunDefnView>, i: int, table: Map<Seq<char>, usize>)
    requires
        0 <= i,
    ensures
        spec_fun_table(defns, i, table) matches Ok(funs) ==> forall|f: Seq<char>|
            funs.contains_key(f) ==> table.contains_key(f) || exists|j: int|
                i <= j < defns.len() && (#[trigger] defns[j]).name == f,
    decreases defns.len() - i,
{
    if i < defns.len() && !table.contains_key(defns[i].name) {
        let next = table.insert(defns[i].name, defns[i].params.len() as usize);
        lemma_fun_table_names(defns, i + 1, next);
        match spec_fun_table(defns, i + 1, next) {
            Ok(funs) => {
                assert forall|f: Seq<char>| funs.contains_key(f) implies table.contains_key(f)
                    || exists|j: int| i <= j < defns.len() && (#[trigger] defns[j]).name == f by {
                    if !table.contains_key(f) {
                        if next.contains_key(f) {
                            assert(defns[i].name == f);
                        } else {
                            let j = choose|j: int|
                                i + 1 <= j < defns.len() && (#[trigger] defns[j]).name == f;
                            assert(i <= j < defns.len() && defns[j].name == f);
                        }
                    }
                }
            },
            Err(_) => {},
        }
    }
}

/// A program that compiles has a plan: once the two helpers that generated
/// code calls have numbers, the lowering refuses nothing of its code.
#[verifier::rlimit(50)]
pub proof fn lemma_program_lowers(p: ProgramView, names: Seq<Seq<char>>)
    requires
        spec_program_code(p) is Ok,
        knows(names, "_snek_print"@),
        knows(names, "snek_error"@),
    ensures
        spec_compile_to_jit(p, names) is Ok,
{
    let funs = spec_fun_table(p.defns, 0, Map::empty())->Ok_0;
    let start = CodeGen { label_counter: 0, heap_offset: 0, input_heap_offset: None };
    lemma_fine_combine(funs);
    lemma_functions_fine(p.defns, 0, funs, start, Seq::empty());
    let (fcode, g) = spec_compile_functions(p.defns, 0, funs, start, Seq::empty())->Ok_0;
    lemma_main_fine(p.main, Map::empty(), funs, g);
    let (main, _) = spec_compile_main(p.main, Map::empty(), funs, g)->Ok_0;
    lemma_handlers_fine(funs);
    let code = fcode + main;
    let all = code + spec_error_handlers();
    lemma_fine_add(fcode, main, funs);
    lemma_fine_add(code, spec_error_handlers(), funs);
    lemma_fun_table_names(p.defns, 0, Map::empty());
    assert forall|j: int| 0 <= j < all.len() implies {
        &&& has_machine_form(#[trigger] all[j])
        &&& all[j] matches InstrView::ICall(l) ==> knows(names, l) || exists|k: int|
            0 <= k < all.len() && all[k] == InstrView::ILabel(l)
    } by {
        assert(fine(all[j], funs));
        match all[j] {
            InstrView::ICall(l) => {
                if !(l == "_snek_print"@ || l == "snek_error"@) {
                    let f = choose|f: Seq<char>| funs.contains_key(f) && l == fun_label(f);
                    let i = choose|i: int| 0 <= i < p.defns.len() && (#[trigger] p.defns[i]).name == f;
                    assert(defines_label(fcode, fun_label(p.defns[i].name)));
                    lemma_defines_label_add(fcode, main, l);
                    lemma_defines_label_add(code, spec_error_handlers(), l);
                    let k = choose|k: int| 0 <= k < all.len() && #[trigger] all[k] == InstrView::ILabel(l);
                    assert(0 <= k < all.len() && all[k] == InstrView::ILabel(l));
                }
            },
            _ => {},
        }
    }
    lemma_segment_lowers(all, names);
}

/// Retargeting the jumps of fine code leaves it fine.
pub proof fn lemma_retarget_fine(code: Seq<InstrView>, n: nat, funs: Map<Seq<char>, usize>)
    requires
        all_fine(code, funs),
    ensures
        all_fine(spec_retarget_code(code, n), funs),
{
    lemma_basic_forms(funs);
    let out = spec_retarget_code(code, n);
    assert forall|j: int| 0 <= j < out.len() implies fine(#[trigger] out[j], funs) by {
        assert(fine(code[j], funs));
        assert(out[j] == spec_retarget(code[j], n));
    }
}

/// The handlers of a segment are fine.
pub proof fn lemma_segment_handlers_fine(n: nat, funs: Map<Seq<char>, usize>)
    ensures
        all_fine(spec_segment_handlers(n), funs),
{
    let l1 = crate::compiler::label_text("error_overflow"@, n);
    let l2 = crate::compiler::label_text("error_invalid_argument"@, n);
    let l3 = crate::compiler::label_text("error_bad_cast"@, n);
    lemma_handler_fine(l1, 1, funs);
    lemma_handler_fine(l2, 2, funs);
    lemma_handler_fine(l3, 3, funs);
    lemma_fine_add(spec_handler(l1, 1), spec_handler(l2, 2), funs);
    lemma_fine_add(spec_handler(l1, 1) + spec_handler(l2, 2), spec_handler(l3, 3), funs);
}

proof fn lemma_entry_open_fine(funs: Map<Seq<char>, usize>)
    ensures
        all_fine(spec_entry_open(), funs),
{
    lemma_basic_forms(funs);
    let code = spec_entry_open();
    assert forall|j: int| 0 <= j < code.len() implies fine(#[trigger] code[j], funs) by {}
}

/// The segment of a plain expression is fine.
pub proof fn lemma_expr_segment_fine(
    e: ExprView,
    defines: Map<Seq<char>, i32>,
    funs: Map<Seq<char>, usize>,
    gen: CodeGen,
    n: nat,
)
    ensures
        spec_expr_segment(e, defines, funs, gen, n) matches Ok((code, _)) ==> all_fine(code, funs),
{
    match spec_expr_segment(e, defines, funs, gen, n) {
        Ok((code, _)) => {
            lemma_basic_forms(funs);
            let (g, off) = gen.spec_input_slot()->Some_0;
            lemma_generated_code_fine(e, -8i32, Map::empty(), defines, funs, None, g);
            let c = spec_compile(e, -8i32, Map::empty(), defines, funs, None, g)->Ok_0;
            lemma_retarget_fine(c.code, n, funs);
            lemma_entry_open_fine(funs);
            let store = InstrView::IMov(
                Val::RegOffset(Reg::R15, off),
                Val::Imm(crate::compiler::FALSE_VAL),
            );
            lemma_fine_push(spec_entry_open(), store, funs);
            lemma_framed_fine(
                spec_entry_open().push(store),
                spec_frame_size(c.min_si, true),
                spec_retarget_code(c.code, n),
                funs,
            );
            lemma_segment_handlers_fine(n, funs);
            lemma_fine_add(
                spec_with_epilogue(
                    spec_with_frame(spec_entry_open().push(store), spec_frame_size(c.min_si, true))
                        + spec_retarget_code(c.code, n),
                ),
                spec_segment_handlers(n),
                funs,
            );
        },
        Err(_) => {},
    }
}

/// The segment of a persistent definition is fine.
pub proof fn lemma_define_segment_fine(
    e: ExprView,
    defines: Map<Seq<char>, i32>,
    funs: Map<Seq<char>, usize>,
    gen: CodeGen,
    n: nat,
)
    ensures
        spec_define_segment(e, defines, funs, gen, n) matches Ok((_, code, _)) ==> all_fine(
            code,
            funs,
        ),
{
    match spec_define_segment(e, defines, funs, gen, n) {
        Ok((_, code, _)) => {
            lemma_basic_forms(funs);
            let (g, off) = gen.spec_alloc()->Some_0;
            lemma_generated_code_fine(e, -8i32, Map::empty(), defines, funs, None, g);
            let c = spec_compile(e, -8i32, Map::empty(), defines, funs, None, g)->Ok_0;
            lemma_retarget_fine(c.code, n, funs);
            lemma_entry_open_fine(funs);
            let frame = spec_frame_size(c.min_si, true);
            let framed = spec_with_frame(spec_entry_open(), frame);
            if frame > 0 {
                lemma_fine_push(
                    spec_entry_open(),
                    InstrView::ISub(Val::Reg(Reg::RSP), Val::Imm(frame as i32)),
                    funs,
                );
            }
            let body = framed + spec_retarget_code(c.code, n);
            lemma_fine_add(framed, spec_retarget_code(c.code, n), funs);
            let store = InstrView::IMov(Val::RegOffset(Reg::R15, off), rax());
            lemma_fine_push(body, store, funs);
            let s0 = body.push(store);
            let s1 = s0.push(InstrView::IMov(Val::Reg(Reg::RSP), Val::Reg(Reg::RBP)));
            lemma_fine_push(s0, InstrView::IMov(Val::Reg(Reg::RSP), Val::Reg(Reg::RBP)), funs);
            lemma_fine_push(s1, InstrView::IPop(Val::Reg(Reg::RBP)), funs);
            lemma_fine_push(s1.push(InstrView::IPop(Val::Reg(Reg::RBP))), InstrView::IRet, funs);
            lemma_segment_handlers_fine(n, funs);
            lemma_fine_add(spec_with_epilogue(s0), spec_segment_handlers(n), funs);
        },
        Err(_) => {},
    }
}

/// Whether a session is in order: the two helpers that generated code calls
/// have numbers, every known function has a number for its label, and no
/// two known functions have the same name.
pub open spec fn session_in_order(s: SessionView) -> bool {
    &&& knows(s.labels, "_snek_print"@)
    &&& knows(s.labels, "snek_error"@)
    &&& forall|i: int|
        0 <= i < s.functions.len() ==> knows(s.labels, fun_label(#[trigger] s.functions[i].name))
    &&& spec_fun_table(s.functions, 0, Map::empty()) is Ok
}

/// Fine code whose functions have numbers for their labels is lowerable.
proof fn lemma_fine_is_lowerable(
    code: Seq<InstrView>,
    defns: Seq<FunDefnView>,
    names: Seq<Seq<char>>,
)
    requires
        spec_fun_table(defns, 0, Map::empty()) is Ok,
        all_fine(code, spec_fun_table(defns, 0, Map::empty())->Ok_0),
        knows(names, "_snek_print"@),
        knows(names, "snek_error"@),
        forall|i: int| 0 <= i < defns.len() ==> knows(names, fun_label(#[trigger] defns[i].name)),
    ensures
        lowerable(code, names),
{
    let funs = spec_fun_table(defns, 0, Map::empty())->Ok_0;
    lemma_fun_table_names(defns, 0, Map::empty());
    assert forall|j: int| 0 <= j < code.len() implies {
        &&& has_machine_form(#[trigger] code[j])
        &&& code[j] matches InstrView::ICall(l) ==> knows(names, l) || exists|k: int|
            0 <= k < code.len() && code[k] == InstrView::ILabel(l)
    } by {
        assert(fine(code[j], funs));
        match code[j] {
            InstrView::ICall(l) => {
                if !(l == "_snek_print"@ || l == "snek_error"@) {
                    let f = choose|f: Seq<char>| funs.contains_key(f) && l == fun_label(f);
                    let i = choose|i: int| 0 <= i < defns.len() && (#[trigger] defns[i]).name == f;
                    assert(knows(names, fun_label(defns[i].name)));
                }
            },
            _ => {},
        }
    }
}

/// A plan over lowerable code is no rejection, and the session that goes on
/// knows every label that was known.
proof fn lemma_plan_runs(
    s: SessionView,
    code: Seq<InstrView>,
    gen: CodeGen,
    kind: PendingView,
    names: Seq<Seq<char>>,
    segments: u64,
)
    requires
        lowerable(code, names),
    ensures
        spec_plan(s, code, gen, kind, names, segments).0 is Run,
        forall|l: Seq<char>| knows(names, l) ==> knows(
            spec_plan(s, code, gen, kind, names, segments).1.labels,
            l,
        ),
        names.len() <= spec_plan(s, code, gen, kind, names, segments).1.labels.len(),
        spec_plan(s, code, gen, kind, names, segments).1.labels.take(names.len() as int) == names,
{
    lemma_segment_lowers(code, names);
    lemma_assign_knows(code, code.len(), names);
    lemma_assign_extends(code, code.len(), names);
}

/// In a session that is in order, no input is rejected for its lowering: an
/// expression or a definition whose segment compiles, and a function that
/// compiles, is planned; and the session stays in order.
#[verifier::rlimit(50)]
pub proof fn lemma_begin_in_order(s: SessionView, entry: ReplEntryView)
    requires
        session_in_order(s),
    ensures
        session_in_order(spec_begin(s, entry).1),
        ({
            let funs = spec_fun_table(s.functions, 0, Map::empty())->Ok_0;
            let n = (s.segments + 1) as nat;
            match entry {
                ReplEntryView::Expr(e) => spec_begin(s, entry).0 is Run <==> !(s.typecheck
                    && spec_typecheck(
                    e,
                    spec_typing_env(s.define_types, Type::Bool),
                    s.functions,
                ) is Err) && s.segments < u64::MAX && spec_expr_segment(
                    e,
                    s.defines,
                    funs,
                    s.gen,
                    n,
                ) is Ok,
                ReplEntryView::Define(name, e) => spec_begin(s, entry).0 is Run
                    <==> !s.defines.contains_key(name) && !(s.typecheck && spec_typecheck(
                    e,
                    spec_typing_env(s.define_types, Type::Any),
                    s.functions,
                ) is Err) && s.segments < u64::MAX && spec_define_segment(
                    e,
                    s.defines,
                    funs,
                    s.gen,
                    n,
                ) is Ok,
                ReplEntryView::FunDefn(d) => spec_begin(s, entry).0 is Run <==> find_defn(
                    s.functions,
                    d.name,
                    0,
                ) is None && !spec_contains_input(d.body) && !(s.typecheck
                    && spec_typecheck_defn_in(d, s.functions.push(d), s.define_types) is Err)
                    && (spec_fun_table(s.functions.push(d), 0, Map::empty()) matches Ok(all)
                    && spec_compile_function(d, s.defines, all, s.gen) is Ok),
            }
        }),
{
    let funs = spec_fun_table(s.functions, 0, Map::empty())->Ok_0;
    match entry {
        ReplEntryView::Expr(e) => {
            let n = (s.segments + 1) as u64;
            lemma_expr_segment_fine(e, s.defines, funs, s.gen, n as nat);
            match spec_expr_segment(e, s.defines, funs, s.gen, n as nat) {
                Ok((code, g)) => {
                    lemma_fine_is_lowerable(code, s.functions, s.labels);
                    lemma_plan_runs(s, code, g, PendingView::Expr, s.labels, n);
                },
                Err(_) => {},
            }
        },
        ReplEntryView::Define(name, e) => {
            let n = (s.segments + 1) as u64;
            let checked = spec_typecheck(
                e,
                spec_typing_env(s.define_types, Type::Any),
                s.functions,
            );
            let ty = if s.typecheck {
                Some(checked->Ok_0)
            } else {
                None
            };
            lemma_define_segment_fine(e, s.defines, funs, s.gen, n as nat);
            match spec_define_segment(e, s.defines, funs, s.gen, n as nat) {
                Ok((offset, code, g)) => {
                    lemma_fine_is_lowerable(code, s.functions, s.labels);
                    lemma_plan_runs(
                        s,
                        code,
                        g,
                        PendingView::Define { name, offset, ty },
                        s.labels,
                        n,
                    );
                },
                Err(_) => {},
            }
        },
        ReplEntryView::FunDefn(d) => {
            let all = s.functions.push(d);
            match spec_fun_table(all, 0, Map::empty()) {
                Ok(table) => {
                    lemma_function_fine(d, s.defines, table, s.gen);
                    match spec_compile_function(d, s.defines, table, s.gen) {
                        Ok((code, g)) => {
                            let names = with_label(s.labels, fun_label(d.name));
                            assert forall|i: int| 0 <= i < all.len() implies knows(
                                names,
                                fun_label(#[trigger] all[i].name),
                            ) by {
                                lemma_with_label(s.labels, fun_label(d.name), fun_label(all[i].name));
                                if i < s.functions.len() {
                                    assert(all[i] == s.functions[i]);
                                }
                            }
                            lemma_with_label(s.labels, fun_label(d.name), "_snek_print"@);
                            lemma_with_label(s.labels, fun_label(d.name), "snek_error"@);
                            lemma_fine_is_lowerable(code, all, names);
                            lemma_plan_runs(s, code, g, PendingView::Fun(d), names, s.segments);
                            let after = spec_plan(s, code, g, PendingView::Fun(d), names, s.segments).1;
                            assert forall|i: int| 0 <= i < s.functions.len() implies knows(
                                after.labels,
                                fun_label(#[trigger] s.functions[i].name),
                            ) by {
                                lemma_with_label(
                                    s.labels,
                                    fun_label(d.name),
                                    fun_label(s.functions[i].name),
                                );
                            }
                        },
                        Err(_) => {},
                    }
                },
                Err(_) => {},
            }
        },
    }
}

/// A new session is in order, and stays in order when the plan of the
/// shared handlers has given their labels numbers.
pub proof fn lemma_new_session_in_order(s: SessionView)
    requires
        s.labels == seq!["_snek_print"@, "snek_error"@],
        s.functions.len() == 0,
    ensures
        session_in_order(s),
        spec_lower_segment(spec_error_handlers(), s.labels) matches Ok((_, labels))
            && session_in_order(SessionView { labels, ..s }),
{
    assert(s.labels[0] == "_snek_print"@);
    assert(s.labels[1] == "snek_error"@);
    lemma_knows(s.labels, "_snek_print"@);
    lemma_knows(s.labels, "snek_error"@);
    let funs = Map::<Seq<char>, usize>::empty();
    lemma_handlers_fine(funs);
    lemma_fine_is_lowerable(spec_error_handlers(), s.functions, s.labels);
    lemma_segment_lowers(spec_error_handlers(), s.labels);
    lemma_assign_knows(spec_error_handlers(), spec_error_handlers().len(), s.labels);
}

/// A session that is in order is in order after any input: whatever the
/// host reports for the segment that `begin` planned, `finish` with the
/// ticket of that plan leaves the two helpers and every known function with
/// a number, and no two functions with one name.
#[verifier::rlimit(50)]
pub proof fn lemma_finish_in_order(s: SessionView, entry: ReplEntryView, outcome: Outcome)
    requires
        session_in_order(s),
        s.labels.len() <= usize::MAX,
        spec_begin(s, entry).0 is Run,
    ensures
        session_in_order(spec_finish(spec_begin(s, entry).1, spec_begin(s, entry).0->Run_ticket, outcome).0),
{
    lemma_begin_in_order(s, entry);
    crate::repl::lemma_begin_keeps_definitions(s, entry);
    let (step, planned) = spec_begin(s, entry);
    let ticket = step->Run_ticket;
    let (after, _) = spec_finish(planned, ticket, outcome);
    match outcome {
        Outcome::AssemblyFailed => {
            lemma_labels_extend(s, entry);
            assert(after.labels == s.labels);
        },
        Outcome::Faulted(_) => {},
        _ => {
            match ticket.kind {
                PendingView::Fun(d) => {
                    lemma_fun_ticket(s, entry);
                    assert forall|i: int| 0 <= i < after.functions.len() implies knows(
                        after.labels,
                        fun_label(#[trigger] after.functions[i].name),
                    ) by {
                        if i < planned.functions.len() {
                            assert(after.functions[i] == planned.functions[i]);
                        }
                    }
                },
                _ => {},
            }
        },
    }
}

/// The labels of a session after a plan begin with the labels before it.
proof fn lemma_labels_extend(s: SessionView, entry: ReplEntryView)
    requires
        spec_begin(s, entry).0 is Run,
    ensures
        s.labels.len() <= spec_begin(s, entry).1.labels.len(),
        spec_begin(s, entry).1.labels.take(s.labels.len() as int) == s.labels,
{
    let planned = spec_begin(s, entry).1;
    match entry {
        ReplEntryView::Expr(e) => {
            let n = (s.segments + 1) as u64;
            let funs = spec_fun_table(s.functions, 0, Map::empty())->Ok_0;
            let (code, g) = spec_expr_segment(e, s.defines, funs, s.gen, n as nat)->Ok_0;
            lemma_assign_extends(code, code.len(), s.labels);
        },
        ReplEntryView::Define(name, e) => {
            let n = (s.segments + 1) as u64;
            let funs = spec_fun_table(s.functions, 0, Map::empty())->Ok_0;
            let (offset, code, g) = spec_define_segment(e, s.defines, funs, s.gen, n as nat)->Ok_0;
            lemma_assign_extends(code, code.len(), s.labels);
        },
        ReplEntryView::FunDefn(d) => {
            let all = spec_fun_table(s.functions.push(d), 0, Map::empty())->Ok_0;
            let (code, g) = spec_compile_function(d, s.defines, all, s.gen)->Ok_0;
            let names = with_label(s.labels, fun_label(d.name));
            lemma_assign_extends(code, code.len(), names);
            let assigned = spec_assign_labels(code, code.len(), names);
            assert(assigned.take(s.labels.len() as int) =~= names.take(s.labels.len() as int));
            assert(names.take(s.labels.len() as int) =~= s.labels);
        },
    }
}

/// The ticket of a planned function holds the function of the input; with
/// it the known functions still have distinct names, and its label is known
/// to the session that goes on.
proof fn lemma_fun_ticket(s: SessionView, entry: ReplEntryView)
    requires
        spec_begin(s, entry).0 is Run,
        spec_begin(s, entry).0->Run_ticket.kind is Fun,
    ensures
        ({
            let d = spec_begin(s, entry).0->Run_ticket.kind->Fun_0;
            &&& spec_fun_table(s.functions.push(d), 0, Map::empty()) is Ok
            &&& knows(spec_begin(s, entry).1.labels, fun_label(d.name))
        }),
{
    match entry {
        ReplEntryView::Expr(e) => {
            let n = (s.segments + 1) as u64;
            let funs = spec_fun_table(s.functions, 0, Map::empty())->Ok_0;
            let (code, g) = spec_expr_segment(e, s.defines, funs, s.gen, n as nat)->Ok_0;
            assert(spec_plan(s, code, g, PendingView::Expr, s.labels, n).0->Run_ticket.kind is Expr);
        },
        ReplEntryView::Define(name, e) => {
            let n = (s.segments + 1) as u64;
            let funs = spec_fun_table(s.functions, 0, Map::empty())->Ok_0;
            let (offset, code, g) = spec_define_segment(e, s.defines, funs, s.gen, n as nat)->Ok_0;
        },
        ReplEntryView::FunDefn(d) => {
            let all = spec_fun_table(s.functions.push(d), 0, Map::empty())->Ok_0;
            let (code, g) = spec_compile_function(d, s.defines, all, s.gen)->Ok_0;
            let names = with_label(s.labels, fun_label(d.name));
            lemma_with_label(s.labels, fun_label(d.name), fun_label(d.name));
            lemma_assign_knows(code, code.len(), names);
        },
    }
}

} // verus!
