//! The code generator and the assembler of functions and programs.
//!
//! An expression is lowered to a sequence of abstract instructions by a
//! stack-threaded evaluation: the result of every expression is left in
//! `rax`, temporaries and `let` bindings live in frame slots below `rbp`,
//! top-level definitions and the external input in heap slots above `r15`.
//! The generator also reports the lowest frame offset it touched, so that the
//! frame can be sized after the fact.

use vstd::prelude::*;
use vstd::string::*;
use crate::ast::{Expr, ExprView, FunDefn, FunDefnView, Op1, Op2, Program, ProgramView, Type};
use crate::ast::{defns_view, has_own_break, lemma_bindings_view, lemma_exprs_view};
use crate::env::{arities_contains_key, arities_get, arities_new, arities_of, arities_update};
use crate::env::{offsets_clone, offsets_contains_key, offsets_get, offsets_new, offsets_of};
use crate::env::offsets_update;
use crate::instr::{code_view, lemma_code_view_add, lemma_code_view_push};
use crate::instr::{instr_text, instr_to_str, Instr, InstrView, Reg, Val};
use crate::helpers::{encode, spec_print_result, Value};
use crate::text::{nat_text, u64_to_string};

verus! {

/// The tagged word of `true`.
pub const TRUE_VAL: i32 = 1;

/// The tagged word of `false`.
pub const FALSE_VAL: i32 = 3;

/// Why a compilation unit is rejected.
#[derive(Debug)]
pub enum CompileError {
    /// An identifier that is bound neither lexically nor at top level.
    UnboundVariable(String),
    /// Two bindings of one `let` with the same name.
    DuplicateBinding,
    /// A `break` that no loop encloses.
    BreakOutsideLoop,
    /// A call of a function that is not defined.
    UndefinedFunction(String),
    /// A call with a number of arguments other than the callee's number of
    /// parameters.
    WrongArity { name: String, expected: usize, got: usize },
    /// Two function definitions with the same name.
    DuplicateFunction(String),
    /// The body of a function definition is the external input.
    InputInFunction,
    /// An integer literal whose tagged word does not fit a signed 32-bit
    /// immediate.
    NumberOutOfRange(i32),
    /// A frame offset, a heap offset, an argument area or the label counter
    /// would leave its machine integer.
    LimitExceeded,
}

/// The mathematical value of a `CompileError`.
pub enum CompileErrorView {
    UnboundVariable(Seq<char>),
    DuplicateBinding,
    BreakOutsideLoop,
    UndefinedFunction(Seq<char>),
    WrongArity { name: Seq<char>, expected: usize, got: usize },
    DuplicateFunction(Seq<char>),
    InputInFunction,
    NumberOutOfRange(i32),
    LimitExceeded,
}

impl View for CompileError {
    type V = CompileErrorView;

    open spec fn view(&self) -> CompileErrorView {
        match self {
            CompileError::UnboundVariable(n) => CompileErrorView::UnboundVariable(n@),
            CompileError::DuplicateBinding => CompileErrorView::DuplicateBinding,
            CompileError::BreakOutsideLoop => CompileErrorView::BreakOutsideLoop,
            CompileError::UndefinedFunction(n) => CompileErrorView::UndefinedFunction(n@),
            CompileError::WrongArity { name, expected, got } => CompileErrorView::WrongArity {
                name: name@,
                expected: *expected,
                got: *got,
            },
            CompileError::DuplicateFunction(n) => CompileErrorView::DuplicateFunction(n@),
            CompileError::InputInFunction => CompileErrorView::InputInFunction,
            CompileError::NumberOutOfRange(n) => CompileErrorView::NumberOutOfRange(*n),
            CompileError::LimitExceeded => CompileErrorView::LimitExceeded,
        }
    }
}

/// The message of a compile error.
pub open spec fn error_text(e: CompileErrorView) -> Seq<char> {
    match e {
        CompileErrorView::UnboundVariable(n) => "Unbound variable identifier "@ + n,
        CompileErrorView::DuplicateBinding => "Duplicate binding"@,
        CompileErrorView::BreakOutsideLoop => "break outside of loop"@,
        CompileErrorView::UndefinedFunction(n) => "Undefined function: "@ + n,
        CompileErrorView::WrongArity { name, expected, got } => "Wrong number of arguments for "@
            + name + ": expected "@ + nat_text(expected as nat) + ", got "@ + nat_text(got as nat),
        CompileErrorView::DuplicateFunction(n) => "Duplicate function definition: "@ + n,
        CompileErrorView::InputInFunction => "input not allowed in function definitions"@,
        CompileErrorView::NumberOutOfRange(_) => "Invalid: number out of range"@,
        CompileErrorView::LimitExceeded => "Invalid: program too large"@,
    }
}

impl CompileError {
    /// The message of this error.
    pub fn message(&self) -> (s: String)
        ensures
            s@ == error_text(self@),
    {
        match self {
            CompileError::UnboundVariable(n) => {
                let mut s = String::from_str("Unbound variable identifier ");
                s.append(n.as_str());
                s
            },
            CompileError::DuplicateBinding => String::from_str("Duplicate binding"),
            CompileError::BreakOutsideLoop => String::from_str("break outside of loop"),
            CompileError::UndefinedFunction(n) => {
                let mut s = String::from_str("Undefined function: ");
                s.append(n.as_str());
                s
            },
            CompileError::WrongArity { name, expected, got } => {
                let mut s = String::from_str("Wrong number of arguments for ");
                s.append(name.as_str());
                s.append(": expected ");
                s.append(u64_to_string(*expected as u64).as_str());
                s.append(", got ");
                s.append(u64_to_string(*got as u64).as_str());
                s
            },
            CompileError::DuplicateFunction(n) => {
                let mut s = String::from_str("Duplicate function definition: ");
                s.append(n.as_str());
                s
            },
            CompileError::InputInFunction => String::from_str(
                "input not allowed in function definitions",
            ),
            CompileError::NumberOutOfRange(_) => String::from_str("Invalid: number out of range"),
            CompileError::LimitExceeded => String::from_str("Invalid: program too large"),
        }
    }
}

/// The counters of a code generator: how many labels it has numbered, the
/// offset of the next free heap slot, and the heap slot of the external
/// input once one has been given to it.
#[derive(Debug, Clone, Copy, PartialEq, Eq, Structural)]
pub struct CodeGen {
    pub label_counter: u64,
    pub heap_offset: i32,
    pub input_heap_offset: Option<i32>,
}

impl CodeGen {
    /// A generator that has numbered no label and given out no heap slot.
    pub fn new() -> (g: CodeGen)
        ensures
            g == (CodeGen { label_counter: 0, heap_offset: 0, input_heap_offset: None }),
    {
        CodeGen { label_counter: 0, heap_offset: 0, input_heap_offset: None }
    }

    /// The generator after it has numbered one more label.
    pub open spec fn spec_count_label(self) -> Option<CodeGen> {
        if self.label_counter == u64::MAX {
            None
        } else {
            Some(CodeGen { label_counter: (self.label_counter + 1) as u64, ..self })
        }
    }

    /// The generator after it has given out one heap slot, and the offset of
    /// that slot; `None` where the next offset would not fit.
    pub open spec fn spec_alloc(self) -> Option<(CodeGen, i32)> {
        if self.heap_offset > i32::MAX - 8 {
            None
        } else {
            Some((CodeGen { heap_offset: (self.heap_offset + 8) as i32, ..self }, self.heap_offset))
        }
    }

    /// The generator once the external input has a heap slot, and the offset
    /// of that slot: the one it has, or else a new one.
    pub open spec fn spec_input_slot(self) -> Option<(CodeGen, i32)> {
        match self.input_heap_offset {
            Some(off) => Some((self, off)),
            None => match self.spec_alloc() {
                Some((g, off)) => Some((CodeGen { input_heap_offset: Some(off), ..g }, off)),
                None => None,
            },
        }
    }
}

/// The text of a numbered label: the prefix, an underscore, the number.
pub open spec fn label_text(prefix: Seq<char>, n: nat) -> Seq<char> {
    prefix + "_"@ + nat_text(n)
}

/// The label with the given prefix and number.
pub fn numbered_label(prefix: &str, n: u64) -> (label: String)
    ensures
        label@ == label_text(prefix@, n as nat),
{
    let mut label = String::from_str(prefix);
    label.append("_");
    label.append(u64_to_string(n).as_str());
    label
}

fn new_label(prefix: &str, gen: CodeGen) -> (r: Result<(String, CodeGen), CompileError>)
    ensures
        match r {
            Ok((label, g)) => gen.spec_count_label() == Some(g) && label@ == label_text(
                prefix@,
                g.label_counter as nat,
            ),
            Err(e) => gen.spec_count_label().is_none() && e@ == CompileErrorView::LimitExceeded,
        },
{
    if gen.label_counter == u64::MAX {
        return Err(CompileError::LimitExceeded);
    }
    let g = CodeGen { label_counter: gen.label_counter + 1, ..gen };
    Ok((numbered_label(prefix, g.label_counter), g))
}

pub(crate) fn alloc_heap_slot(gen: CodeGen) -> (r: Result<(CodeGen, i32), CompileError>)
    ensures
        match r {
            Ok(p) => gen.spec_alloc() == Some(p),
            Err(e) => gen.spec_alloc().is_none() && e@ == CompileErrorView::LimitExceeded,
        },
{
    if gen.heap_offset > i32::MAX - 8 {
        return Err(CompileError::LimitExceeded);
    }
    Ok((CodeGen { heap_offset: gen.heap_offset + 8, ..gen }, gen.heap_offset))
}

/// The heap slot of the external input: the one that `gen` has given it, or
/// else a new one, which `gen` then remembers. Where no slot is left, `gen`
/// stays as it is.
pub fn get_input_heap_offset(gen: &mut CodeGen) -> (r: Result<i32, CompileError>)
    ensures
        match r {
            Ok(off) => old(gen).spec_input_slot() == Some((*final(gen), off)),
            Err(e) => old(gen).spec_input_slot().is_none() && *final(gen) == *old(gen) && e@
                == CompileErrorView::LimitExceeded,
        },
{
    match gen.input_heap_offset {
        Some(off) => Ok(off),
        None => match alloc_heap_slot(*gen) {
            Ok((g, off)) => {
                *gen = CodeGen { input_heap_offset: Some(off), ..g };
                Ok(off)
            },
            Err(e) => Err(e),
        },
    }
}

/// The function signature table: the number of parameters of each known
/// function, by name.
pub struct FunContext {
    pub functions: im::HashMap<String, usize>,
}

impl View for FunContext {
    type V = Map<Seq<char>, usize>;

    open spec fn view(&self) -> Map<Seq<char>, usize> {
        arities_of(self.functions)
    }
}

/// The signature table of the definitions from index `i` on, added in order
/// to `table`; the first name that is already there is an error.
pub open spec fn spec_fun_table(defns: Seq<FunDefnView>, i: int, table: Map<Seq<char>, usize>)
    -> Result<Map<Seq<char>, usize>, CompileErrorView>
    decreases defns.len() - i,
{
    if i < 0 || i >= defns.len() {
        Ok(table)
    } else if table.contains_key(defns[i].name) {
        Err(CompileErrorView::DuplicateFunction(defns[i].name))
    } else {
        spec_fun_table(
            defns,
            i + 1,
            table.insert(defns[i].name, defns[i].params.len() as usize),
        )
    }
}

impl FunContext {
    /// The signature table of `defns`; two definitions of one name are an
    /// error, which names the function.
    pub fn new(defns: &[FunDefn]) -> (r: Result<FunContext, CompileError>)
        ensures
            match r {
                Ok(ctx) => spec_fun_table(defns_view(defns@), 0, Map::empty()) == Ok::<
                    Map<Seq<char>, usize>,
                    CompileErrorView,
                >(ctx@),
                Err(e) => spec_fun_table(defns_view(defns@), 0, Map::empty()) == Err::<
                    Map<Seq<char>, usize>,
                    CompileErrorView,
                >(e@),
            },
    {
        let mut functions = arities_new();
        let mut i: usize = 0;
        while i < defns.len()
            invariant
                i <= defns@.len(),
                spec_fun_table(defns_view(defns@), 0, Map::empty()) == spec_fun_table(
                    defns_view(defns@),
                    i as int,
                    arities_of(functions),
                ),
            decreases defns@.len() - i,
        {
            if arities_contains_key(&functions, &defns[i].name) {
                return Err(CompileError::DuplicateFunction(defns[i].name.clone()));
            }
            functions = arities_update(&functions, defns[i].name.clone(), defns[i].params.len());
            i += 1;
        }
        Ok(FunContext { functions })
    }

    /// Whether a function named `name` is known.
    pub fn check_function_exists(&self, name: &String) -> (r: bool)
        ensures
            r == self@.contains_key(name@),
    {
        arities_contains_key(&self.functions, name)
    }

    /// The number of parameters of the function named `name`; 0 if there is
    /// no such function.
    pub fn get_param_count(&self, name: &String) -> (r: usize)
        ensures
            r == (if self@.contains_key(name@) {
                self@[name@]
            } else {
                0
            }),
    {
        match arities_get(&self.functions, name) {
            Some(n) => n,
            None => 0,
        }
    }
}

/// What the code generator yields for an expression: the instructions, the
/// lowest frame offset reached, and the counters afterwards.
pub struct Compiled {
    pub code: Seq<InstrView>,
    pub min_si: i32,
    pub gen: CodeGen,
}

/// The smaller of two offsets.
pub open spec fn min32(a: i32, b: i32) -> i32 {
    if a <= b {
        a
    } else {
        b
    }
}

/// The frame slot at offset `si`.
pub open spec fn slot(si: i32) -> Val {
    Val::RegOffset(Reg::RBP, si)
}

/// The register that holds the result of every expression.
pub open spec fn rax() -> Val {
    Val::Reg(Reg::RAX)
}

/// The scratch register.
pub open spec fn rcx() -> Val {
    Val::Reg(Reg::RCX)
}

/// The jump to the invalid-argument handler where the tag bit is set.
pub open spec fn jne_invalid() -> InstrView {
    InstrView::IJne("error_invalid_argument"@)
}

/// The jump to the overflow handler where the last operation overflowed.
pub open spec fn jo_overflow() -> InstrView {
    InstrView::IJo("error_overflow"@)
}

/// The instructions of a unary operator, applied to the word in `rax`.
/// Increment and decrement test the tag bit and leave for the
/// invalid-argument handler if it is set, then add or subtract the tagged one
/// and leave for the overflow handler on overflow. The predicates test the
/// tag bit and select the tagged boolean by a conditional move. `print`
/// saves the word, hands it to the print helper and restores it.
pub open spec fn spec_unop_code(op: Op1) -> Seq<InstrView> {
    match op {
        Op1::Add1 => seq![
            InstrView::ITest(rax(), Val::Imm(1)),
            jne_invalid(),
            InstrView::IAdd(rax(), Val::Imm(2)),
            jo_overflow(),
        ],
        Op1::Sub1 => seq![
            InstrView::ITest(rax(), Val::Imm(1)),
            jne_invalid(),
            InstrView::ISub(rax(), Val::Imm(2)),
            jo_overflow(),
        ],
        Op1::IsNum => seq![
            InstrView::ITest(rax(), Val::Imm(1)),
            InstrView::IMov(rax(), Val::Imm(FALSE_VAL)),
            InstrView::IMov(rcx(), Val::Imm(TRUE_VAL)),
            InstrView::ICMovE(rax(), rcx()),
        ],
        Op1::IsBool => seq![
            InstrView::ITest(rax(), Val::Imm(1)),
            InstrView::IMov(rax(), Val::Imm(TRUE_VAL)),
            InstrView::IMov(rcx(), Val::Imm(FALSE_VAL)),
            InstrView::ICMovE(rax(), rcx()),
        ],
        Op1::Print => seq![
            InstrView::IPush(rax()),
            InstrView::IMov(Val::Reg(Reg::RDI), rax()),
            InstrView::ICall("_snek_print"@),
            InstrView::IPop(rax()),
        ],
    }
}

/// Whether a binary operator is an ordering comparison.
pub open spec fn is_ordering(op: Op2) -> bool {
    op == Op2::Less || op == Op2::Greater || op == Op2::LessEqual || op == Op2::GreaterEqual
}

/// The one check that both operands of a binary operator are numbers: the
/// two words are or-ed and the tag bit of the result is tested.
pub open spec fn spec_both_numeric_code(si: i32) -> Seq<InstrView> {
    seq![
        InstrView::IMov(rcx(), rax()),
        InstrView::IOr(rcx(), slot(si)),
        InstrView::ITest(rcx(), Val::Imm(1)),
        jne_invalid(),
    ]
}

/// The conditional move that selects `true` for an ordering comparison.
pub open spec fn spec_select(op: Op2) -> InstrView {
    match op {
        Op2::Less => InstrView::ICMovL(rax(), rcx()),
        Op2::Greater => InstrView::ICMovG(rax(), rcx()),
        Op2::LessEqual => InstrView::ICMovLE(rax(), rcx()),
        _ => InstrView::ICMovGE(rax(), rcx()),
    }
}

/// The instructions of a binary operator, with the left operand in the frame
/// slot `si` and the right operand in `rax`; an ordering comparison also
/// uses the slot `below`, one word under `si`.
pub open spec fn spec_binop_code(op: Op2, si: i32, below: i32) -> Seq<InstrView> {
    match op {
        Op2::Plus => spec_both_numeric_code(si) + seq![
            InstrView::IAdd(rax(), slot(si)),
            jo_overflow(),
        ],
        Op2::Minus => spec_both_numeric_code(si) + seq![
            InstrView::IMov(rcx(), rax()),
            InstrView::IMov(rax(), slot(si)),
            InstrView::ISub(rax(), rcx()),
            jo_overflow(),
        ],
        Op2::Times => spec_both_numeric_code(si) + seq![
            InstrView::ISar(rax(), Val::Imm(1)),
            InstrView::IMul(rax(), slot(si)),
            jo_overflow(),
        ],
        Op2::Equal => seq![
            InstrView::ICmp(rax(), slot(si)),
            InstrView::IMov(rax(), Val::Imm(TRUE_VAL)),
            InstrView::IMov(rcx(), Val::Imm(FALSE_VAL)),
            InstrView::ICMovNE(rax(), rcx()),
        ],
        _ => seq![InstrView::IMov(slot(below), rax())] + spec_both_numeric_code(si) + seq![
            InstrView::IMov(rcx(), slot(si)),
            InstrView::IMov(rax(), slot(below)),
            InstrView::ICmp(rcx(), rax()),
            InstrView::IMov(rax(), Val::Imm(FALSE_VAL)),
            InstrView::IMov(rcx(), Val::Imm(TRUE_VAL)),
            spec_select(op),
        ],
    }
}

/// The run-time check of a cast of the word in `rax`: the tag bit must be
/// clear for `Num` and set for `Bool`, `Nothing` always fails, `Any` checks
/// nothing. A failed check leaves for the bad-cast handler.
pub open spec fn spec_cast_code(t: Type) -> Seq<InstrView> {
    match t {
        Type::Num => seq![
            InstrView::ITest(rax(), Val::Imm(1)),
            InstrView::IJne("error_bad_cast"@),
        ],
        Type::Bool => seq![
            InstrView::ITest(rax(), Val::Imm(1)),
            InstrView::IJe("error_bad_cast"@),
        ],
        Type::Nothing => seq![InstrView::IJmp("error_bad_cast"@)],
        Type::Any => Seq::empty(),
    }
}

/// Whether two bindings of a `let` have the same name.
pub open spec fn has_duplicate_binding(bindings: Seq<(Seq<char>, ExprView)>) -> bool {
    exists|i: int, j: int|
        0 <= i < j < bindings.len() && (#[trigger] bindings[i]).0 == (#[trigger] bindings[j]).0
}

/// The bytes that the arguments of a call take on the stack, and whether a
/// padding word keeps the stack aligned to 16 bytes at the call: with the
/// return address the area must be a multiple of 16.
pub open spec fn arg_bytes(count: nat) -> int {
    (count * 8) as int
}

/// Whether a call with `count` arguments needs the padding word.
pub open spec fn needs_pad(count: nat) -> bool {
    (arg_bytes(count) + 8) % 16 != 0
}

/// The largest number of arguments whose area fits the immediate that frees
/// it.
pub open spec fn max_args() -> nat {
    0xfff_fffe
}

/// The label of a function.
pub open spec fn fun_label(name: Seq<char>) -> Seq<char> {
    "fun_"@ + name
}

/// The code of an expression.
///
/// `si` is the next free frame slot, `env` the lexical environment (frame
/// offsets), `defines` the persistent bindings (heap offsets), `funs` the
/// signature table, `loop_end` the exit label of the innermost enclosing
/// loop, `gen` the counters before. The result holds the instructions, which
/// leave the value of `e` in `rax`, the lowest frame offset reached by `e`
/// or `si`, and the counters after; or the first error met in evaluation
/// order.
pub open spec fn spec_compile(
    e: ExprView,
    si: i32,
    env: Map<Seq<char>, i32>,
    defines: Map<Seq<char>, i32>,
    funs: Map<Seq<char>, usize>,
    loop_end: Option<Seq<char>>,
    gen: CodeGen,
) -> Result<Compiled, CompileErrorView>
    decreases e, 1int, 0int,
{
    match e {
        ExprView::Number(n) => if -0x4000_0000 <= n < 0x4000_0000 {
            Ok(
                Compiled {
                    code: seq![InstrView::IMov(rax(), Val::Imm((2 * n) as i32))],
                    min_si: si,
                    gen,
                },
            )
        } else {
            Err(CompileErrorView::NumberOutOfRange(n as i32))
        },
        ExprView::Boolean(b) => Ok(
            Compiled {
                code: seq![
                    InstrView::IMov(rax(), Val::Imm(if b { TRUE_VAL } else { FALSE_VAL })),
                ],
                min_si: si,
                gen,
            },
        ),
        ExprView::Input => match gen.spec_input_slot() {
            None => Err(CompileErrorView::LimitExceeded),
            Some((g, off)) => Ok(
                Compiled {
                    code: seq![InstrView::IMov(rax(), Val::RegOffset(Reg::R15, off))],
                    min_si: si,
                    gen: g,
                },
            ),
        },
        ExprView::Id(name) => if env.contains_key(name) {
            Ok(Compiled { code: seq![InstrView::IMov(rax(), slot(env[name]))], min_si: si, gen })
        } else if defines.contains_key(name) {
            Ok(
                Compiled {
                    code: seq![InstrView::IMov(rax(), Val::RegOffset(Reg::R15, defines[name]))],
                    min_si: si,
                    gen,
                },
            )
        } else {
            Err(CompileErrorView::UnboundVariable(name))
        },
        ExprView::UnOp(op, a) => match spec_compile(*a, si, env, defines, funs, loop_end, gen) {
            Err(err) => Err(err),
            Ok(c) => Ok(
                Compiled {
                    code: c.code + spec_unop_code(op),
                    min_si: min32(si, c.min_si),
                    gen: c.gen,
                },
            ),
        },
        ExprView::BinOp(op, l, r) => match spec_compile(
            *l,
            si,
            env,
            defines,
            funs,
            loop_end,
            gen,
        ) {
            Err(err) => Err(err),
            Ok(cl) => if si < i32::MIN + 8 {
                Err(CompileErrorView::LimitExceeded)
            } else {
                let below = (si - 8) as i32;
                match spec_compile(*r, below, env, defines, funs, loop_end, cl.gen) {
                    Err(err) => Err(err),
                    Ok(cr) => Ok(
                        Compiled {
                            code: cl.code.push(InstrView::IMov(slot(si), rax())) + cr.code
                                + spec_binop_code(op, si, below),
                            min_si: min32(
                                min32(min32(si, cl.min_si), cr.min_si),
                                if is_ordering(op) {
                                    below
                                } else {
                                    si
                                },
                            ),
                            gen: cr.gen,
                        },
                    ),
                }
            },
        },
        ExprView::SetVar(name, a) => match spec_compile(
            *a,
            si,
            env,
            defines,
            funs,
            loop_end,
            gen,
        ) {
            Err(err) => Err(err),
            Ok(c) => if env.contains_key(name) {
                Ok(
                    Compiled {
                        code: c.code.push(InstrView::IMov(slot(env[name]), rax())),
                        min_si: min32(min32(si, c.min_si), env[name]),
                        gen: c.gen,
                    },
                )
            } else if defines.contains_key(name) {
                Ok(
                    Compiled {
                        code: c.code.push(
                            InstrView::IMov(Val::RegOffset(Reg::R15, defines[name]), rax()),
                        ),
                        min_si: min32(si, c.min_si),
                        gen: c.gen,
                    },
                )
            } else {
                Err(CompileErrorView::UnboundVariable(name))
            },
        },
        ExprView::If(c, t, f) => match gen.spec_count_label() {
            None => Err(CompileErrorView::LimitExceeded),
            Some(g1) => match g1.spec_count_label() {
                None => Err(CompileErrorView::LimitExceeded),
                Some(g2) => {
                    let else_label = label_text("else"@, g1.label_counter as nat);
                    let end_label = label_text("endif"@, g2.label_counter as nat);
                    match spec_compile(*c, si, env, defines, funs, loop_end, g2) {
                        Err(err) => Err(err),
                        Ok(cc) => match spec_compile(
                            *t,
                            si,
                            env,
                            defines,
                            funs,
                            loop_end,
                            cc.gen,
                        ) {
                            Err(err) => Err(err),
                            Ok(ct) => match spec_compile(
                                *f,
                                si,
                                env,
                                defines,
                                funs,
                                loop_end,
                                ct.gen,
                            ) {
                                Err(err) => Err(err),
                                Ok(cf) => Ok(
                                    Compiled {
                                        code: ((cc.code.push(
                                            InstrView::ICmp(rax(), Val::Imm(FALSE_VAL)),
                                        ).push(InstrView::IJe(else_label)) + ct.code).push(
                                            InstrView::IJmp(end_label),
                                        ).push(InstrView::ILabel(else_label)) + cf.code).push(
                                            InstrView::ILabel(end_label),
                                        ),
                                        min_si: min32(
                                            min32(min32(si, cc.min_si), ct.min_si),
                                            cf.min_si,
                                        ),
                                        gen: cf.gen,
                                    },
                                ),
                            },
                        },
                    }
                },
            },
        },
        ExprView::Block(es) => spec_compile_block(
            es,
            0,
            si,
            env,
            defines,
            funs,
            loop_end,
            Compiled { code: Seq::empty(), min_si: si, gen },
        ),
        ExprView::Let(bindings, _) => if has_duplicate_binding(bindings) {
            Err(CompileErrorView::DuplicateBinding)
        } else {
            spec_compile_let(
                e,
                0,
                si,
                env,
                defines,
                funs,
                loop_end,
                Compiled { code: Seq::empty(), min_si: si, gen },
            )
        },
        ExprView::Loop(body) => match gen.spec_count_label() {
            None => Err(CompileErrorView::LimitExceeded),
            Some(g1) => match g1.spec_count_label() {
                None => Err(CompileErrorView::LimitExceeded),
                Some(g2) => {
                    let start_label = label_text("loop_start"@, g1.label_counter as nat);
                    let end_label = label_text("loop_end"@, g2.label_counter as nat);
                    match spec_compile(*body, si, env, defines, funs, Some(end_label), g2) {
                        Err(err) => Err(err),
                        Ok(c) => Ok(
                            Compiled {
                                code: (seq![InstrView::ILabel(start_label)] + c.code).push(
                                    InstrView::IJmp(start_label),
                                ).push(InstrView::ILabel(end_label)),
                                min_si: min32(si, c.min_si),
                                gen: c.gen,
                            },
                        ),
                    }
                },
            },
        },
        ExprView::Break(a) => match loop_end {
            None => Err(CompileErrorView::BreakOutsideLoop),
            Some(target) => match spec_compile(*a, si, env, defines, funs, loop_end, gen) {
                Err(err) => Err(err),
                Ok(c) => Ok(
                    Compiled {
                        code: c.code.push(InstrView::IJmp(target)),
                        min_si: min32(si, c.min_si),
                        gen: c.gen,
                    },
                ),
            },
        },
        ExprView::Call(name, args) => if !funs.contains_key(name) {
            Err(CompileErrorView::UndefinedFunction(name))
        } else if args.len() != funs[name] {
            Err(
                CompileErrorView::WrongArity {
                    name,
                    expected: funs[name],
                    got: args.len() as usize,
                },
            )
        } else if args.len() > max_args() {
            Err(CompileErrorView::LimitExceeded)
        } else {
            let pad = needs_pad(args.len());
            let bytes = arg_bytes(args.len()) as i32;
            let before: Seq<InstrView> = if pad {
                seq![InstrView::ISub(Val::Reg(Reg::RSP), Val::Imm(8))]
            } else {
                Seq::empty()
            };
            match spec_compile_args(
                args,
                args.len() as int,
                si,
                env,
                defines,
                funs,
                loop_end,
                Compiled { code: before, min_si: si, gen },
            ) {
                Err(err) => Err(err),
                Ok(c) => {
                    let called = c.code.push(InstrView::ICall(fun_label(name)));
                    let freed = if bytes > 0 {
                        called.push(InstrView::IAdd(Val::Reg(Reg::RSP), Val::Imm(bytes)))
                    } else {
                        called
                    };
                    let unpadded = if pad {
                        freed.push(InstrView::IAdd(Val::Reg(Reg::RSP), Val::Imm(8)))
                    } else {
                        freed
                    };
                    Ok(Compiled { code: unpadded, min_si: c.min_si, gen: c.gen })
                },
            }
        },
        ExprView::Cast(a, target) => match spec_compile(
            *a,
            si,
            env,
            defines,
            funs,
            loop_end,
            gen,
        ) {
            Err(err) => Err(err),
            Ok(c) => Ok(
                Compiled {
                    code: c.code + spec_cast_code(target),
                    min_si: min32(si, c.min_si),
                    gen: c.gen,
                },
            ),
        },
    }
}

/// The code of the expressions of `es` from index `i` on, one after the
/// other at the same slot, after what `acc` holds.
pub open spec fn spec_compile_block(
    es: Seq<ExprView>,
    i: int,
    si: i32,
    env: Map<Seq<char>, i32>,
    defines: Map<Seq<char>, i32>,
    funs: Map<Seq<char>, usize>,
    loop_end: Option<Seq<char>>,
    acc: Compiled,
) -> Result<Compiled, CompileErrorView>
    decreases es, 0int, es.len() - i,
{
    if i < 0 || i >= es.len() {
        Ok(acc)
    } else {
        match spec_compile(es[i], si, env, defines, funs, loop_end, acc.gen) {
            Err(err) => Err(err),
            Ok(c) => spec_compile_block(
                es,
                i + 1,
                si,
                env,
                defines,
                funs,
                loop_end,
                Compiled {
                    code: acc.code + c.code,
                    min_si: min32(acc.min_si, c.min_si),
                    gen: c.gen,
                },
            ),
        }
    }
}

/// The code of the first `k` arguments of a call, last first, each followed
/// by a push of its value, after what `acc` holds: the first argument ends up
/// nearest to the return address.
pub open spec fn spec_compile_args(
    args: Seq<ExprView>,
    k: int,
    si: i32,
    env: Map<Seq<char>, i32>,
    defines: Map<Seq<char>, i32>,
    funs: Map<Seq<char>, usize>,
    loop_end: Option<Seq<char>>,
    acc: Compiled,
) -> Result<Compiled, CompileErrorView>
    decreases args, 0int, k,
{
    if k <= 0 || k > args.len() {
        Ok(acc)
    } else {
        match spec_compile(args[k - 1], si, env, defines, funs, loop_end, acc.gen) {
            Err(err) => Err(err),
            Ok(c) => spec_compile_args(
                args,
                k - 1,
                si,
                env,
                defines,
                funs,
                loop_end,
                Compiled {
                    code: (acc.code + c.code).push(InstrView::IPush(rax())),
                    min_si: min32(acc.min_si, c.min_si),
                    gen: c.gen,
                },
            ),
        }
    }
}

/// For a `let` expression `e`: the code of the bindings from index `i` on
/// and of the body, after what `acc` holds. Each initialiser is evaluated one
/// slot below `si`, in the environment of the bindings before it, and stored
/// to the slot `si`, to which its name is then bound; the next binding, or
/// the body, starts one slot lower.
pub open spec fn spec_compile_let(
    e: ExprView,
    i: int,
    si: i32,
    env: Map<Seq<char>, i32>,
    defines: Map<Seq<char>, i32>,
    funs: Map<Seq<char>, usize>,
    loop_end: Option<Seq<char>>,
    acc: Compiled,
) -> Result<Compiled, CompileErrorView>
    decreases e, 0int, e->Let_0.len() - i,
{
    if let ExprView::Let(bindings, body) = e {
        if i < 0 || i >= bindings.len() {
            match spec_compile(*body, si, env, defines, funs, loop_end, acc.gen) {
                Err(err) => Err(err),
                Ok(c) => Ok(
                    Compiled {
                        code: acc.code + c.code,
                        min_si: min32(acc.min_si, c.min_si),
                        gen: c.gen,
                    },
                ),
            }
        } else if si < i32::MIN + 8 {
            Err(CompileErrorView::LimitExceeded)
        } else {
            let below = (si - 8) as i32;
            match spec_compile(bindings[i].1, below, env, defines, funs, loop_end, acc.gen) {
                Err(err) => Err(err),
                Ok(c) => spec_compile_let(
                    e,
                    i + 1,
                    below,
                    env.insert(bindings[i].0, si),
                    defines,
                    funs,
                    loop_end,
                    Compiled {
                        code: (acc.code + c.code).push(InstrView::IMov(slot(si), rax())),
                        min_si: min32(min32(acc.min_si, c.min_si), si),
                        gen: c.gen,
                    },
                ),
            }
        }
    } else {
        Ok(acc)
    }
}

/// The value of what the generator returns.
pub open spec fn gen_view(r: Result<(Vec<Instr>, i32, CodeGen), CompileError>) -> Result<
    Compiled,
    CompileErrorView,
> {
    match r {
        Ok((code, min_si, gen)) => Ok(Compiled { code: code_view(code@), min_si, gen }),
        Err(e) => Err(e@),
    }
}

/// The value of an optional label.
pub open spec fn label_view(l: Option<String>) -> Option<Seq<char>> {
    match l {
        Some(t) => Some(t@),
        None => None,
    }
}

pub(crate) fn new_code() -> (code: Vec<Instr>)
    ensures
        code_view(code@) == Seq::<InstrView>::empty(),
{
    let code: Vec<Instr> = Vec::new();
    proof {
        assert(code_view(code@) =~= Seq::<InstrView>::empty());
    }
    code
}

pub(crate) fn push_instr(code: &mut Vec<Instr>, i: Instr)
    ensures
        code_view(final(code)@) == code_view(old(code)@).push(i@),
{
    proof {
        lemma_code_view_push(code@, i);
    }
    code.push(i);
}

pub(crate) fn append_code(code: &mut Vec<Instr>, more: Vec<Instr>)
    ensures
        code_view(final(code)@) == code_view(old(code)@) + code_view(more@),
{
    proof {
        lemma_code_view_add(code@, more@);
    }
    let mut more = more;
    code.append(&mut more);
}

fn min_i32(a: i32, b: i32) -> (r: i32)
    ensures
        r == min32(a, b),
{
    if a <= b {
        a
    } else {
        b
    }
}

fn reg(r: Reg) -> (v: Val)
    ensures
        v == Val::Reg(r),
{
    Val::Reg(r)
}

fn frame_slot(si: i32) -> (v: Val)
    ensures
        v == slot(si),
{
    Val::RegOffset(Reg::RBP, si)
}

fn jump_invalid() -> (i: Instr)
    ensures
        i@ == jne_invalid(),
{
    Instr::IJne(String::from_str("error_invalid_argument"))
}

fn jump_overflow() -> (i: Instr)
    ensures
        i@ == jo_overflow(),
{
    Instr::IJo(String::from_str("error_overflow"))
}

fn unop_code(op: Op1) -> (code: Vec<Instr>)
    ensures
        code_view(code@) == spec_unop_code(op),
{
    let mut code = new_code();
    match op {
        Op1::Add1 => {
            push_instr(&mut code, Instr::ITest(reg(Reg::RAX), Val::Imm(1)));
            push_instr(&mut code, jump_invalid());
            push_instr(&mut code, Instr::IAdd(reg(Reg::RAX), Val::Imm(2)));
            push_instr(&mut code, jump_overflow());
        },
        Op1::Sub1 => {
            push_instr(&mut code, Instr::ITest(reg(Reg::RAX), Val::Imm(1)));
            push_instr(&mut code, jump_invalid());
            push_instr(&mut code, Instr::ISub(reg(Reg::RAX), Val::Imm(2)));
            push_instr(&mut code, jump_overflow());
        },
        Op1::IsNum => {
            push_instr(&mut code, Instr::ITest(reg(Reg::RAX), Val::Imm(1)));
            push_instr(&mut code, Instr::IMov(reg(Reg::RAX), Val::Imm(FALSE_VAL)));
            push_instr(&mut code, Instr::IMov(reg(Reg::RCX), Val::Imm(TRUE_VAL)));
            push_instr(&mut code, Instr::ICMovE(reg(Reg::RAX), reg(Reg::RCX)));
        },
        Op1::IsBool => {
            push_instr(&mut code, Instr::ITest(reg(Reg::RAX), Val::Imm(1)));
            push_instr(&mut code, Instr::IMov(reg(Reg::RAX), Val::Imm(TRUE_VAL)));
            push_instr(&mut code, Instr::IMov(reg(Reg::RCX), Val::Imm(FALSE_VAL)));
            push_instr(&mut code, Instr::ICMovE(reg(Reg::RAX), reg(Reg::RCX)));
        },
        Op1::Print => {
            push_instr(&mut code, Instr::IPush(reg(Reg::RAX)));
            push_instr(&mut code, Instr::IMov(reg(Reg::RDI), reg(Reg::RAX)));
            push_instr(&mut code, Instr::ICall(String::from_str("_snek_print")));
            push_instr(&mut code, Instr::IPop(reg(Reg::RAX)));
        },
    }
    code
}

fn both_numeric_code(si: i32) -> (code: Vec<Instr>)
    ensures
        code_view(code@) == spec_both_numeric_code(si),
{
    let mut code = new_code();
    push_instr(&mut code, Instr::IMov(reg(Reg::RCX), reg(Reg::RAX)));
    push_instr(&mut code, Instr::IOr(reg(Reg::RCX), frame_slot(si)));
    push_instr(&mut code, Instr::ITest(reg(Reg::RCX), Val::Imm(1)));
    push_instr(&mut code, jump_invalid());
    code
}

fn binop_code(op: Op2, si: i32, below: i32) -> (code: Vec<Instr>)
    ensures
        code_view(code@) == spec_binop_code(op, si, below),
{
    match op {
        Op2::Plus => {
            let mut code = both_numeric_code(si);
            let mut tail = new_code();
            push_instr(&mut tail, Instr::IAdd(reg(Reg::RAX), frame_slot(si)));
            push_instr(&mut tail, jump_overflow());
            append_code(&mut code, tail);
            code
        },
        Op2::Minus => {
            let mut code = both_numeric_code(si);
            let mut tail = new_code();
            push_instr(&mut tail, Instr::IMov(reg(Reg::RCX), reg(Reg::RAX)));
            push_instr(&mut tail, Instr::IMov(reg(Reg::RAX), frame_slot(si)));
            push_instr(&mut tail, Instr::ISub(reg(Reg::RAX), reg(Reg::RCX)));
            push_instr(&mut tail, jump_overflow());
            append_code(&mut code, tail);
            code
        },
        Op2::Times => {
            let mut code = both_numeric_code(si);
            let mut tail = new_code();
            push_instr(&mut tail, Instr::ISar(reg(Reg::RAX), Val::Imm(1)));
            push_instr(&mut tail, Instr::IMul(reg(Reg::RAX), frame_slot(si)));
            push_instr(&mut tail, jump_overflow());
            append_code(&mut code, tail);
            code
        },
        Op2::Equal => {
            let mut code = new_code();
            push_instr(&mut code, Instr::ICmp(reg(Reg::RAX), frame_slot(si)));
            push_instr(&mut code, Instr::IMov(reg(Reg::RAX), Val::Imm(TRUE_VAL)));
            push_instr(&mut code, Instr::IMov(reg(Reg::RCX), Val::Imm(FALSE_VAL)));
            push_instr(&mut code, Instr::ICMovNE(reg(Reg::RAX), reg(Reg::RCX)));
            code
        },
        Op2::Less | Op2::Greater | Op2::LessEqual | Op2::GreaterEqual => {
            let mut code = new_code();
            push_instr(&mut code, Instr::IMov(frame_slot(below), reg(Reg::RAX)));
            append_code(&mut code, both_numeric_code(si));
            let mut tail = new_code();
            push_instr(&mut tail, Instr::IMov(reg(Reg::RCX), frame_slot(si)));
            push_instr(&mut tail, Instr::IMov(reg(Reg::RAX), frame_slot(below)));
            push_instr(&mut tail, Instr::ICmp(reg(Reg::RCX), reg(Reg::RAX)));
            push_instr(&mut tail, Instr::IMov(reg(Reg::RAX), Val::Imm(FALSE_VAL)));
            push_instr(&mut tail, Instr::IMov(reg(Reg::RCX), Val::Imm(TRUE_VAL)));
            let select = match op {
                Op2::Less => Instr::ICMovL(reg(Reg::RAX), reg(Reg::RCX)),
                Op2::Greater => Instr::ICMovG(reg(Reg::RAX), reg(Reg::RCX)),
                Op2::LessEqual => Instr::ICMovLE(reg(Reg::RAX), reg(Reg::RCX)),
                _ => Instr::ICMovGE(reg(Reg::RAX), reg(Reg::RCX)),
            };
            push_instr(&mut tail, select);
            append_code(&mut code, tail);
            code
        },
    }
}

fn cast_code(t: Type) -> (code: Vec<Instr>)
    ensures
        code_view(code@) == spec_cast_code(t),
{
    let mut code = new_code();
    match t {
        Type::Num => {
            push_instr(&mut code, Instr::ITest(reg(Reg::RAX), Val::Imm(1)));
            push_instr(&mut code, Instr::IJne(String::from_str("error_bad_cast")));
        },
        Type::Bool => {
            push_instr(&mut code, Instr::ITest(reg(Reg::RAX), Val::Imm(1)));
            push_instr(&mut code, Instr::IJe(String::from_str("error_bad_cast")));
        },
        Type::Nothing => {
            push_instr(&mut code, Instr::IJmp(String::from_str("error_bad_cast")));
        },
        Type::Any => {},
    }
    code
}

fn has_duplicate(bindings: &Vec<(String, Expr)>) -> (r: bool)
    ensures
        r == has_duplicate_binding(crate::ast::bindings_view(bindings@)),
{
    let ghost names = crate::ast::bindings_view(bindings@);
    proof {
        lemma_bindings_view(bindings@);
    }
    let mut seen = offsets_new();
    let mut i: usize = 0;
    while i < bindings.len()
        invariant
            i <= bindings@.len(),
            names == crate::ast::bindings_view(bindings@),
            names.len() == bindings@.len(),
            forall|k: int| 0 <= k < names.len() ==> (#[trigger] names[k]).0 == bindings@[k].0@,
            forall|k: int| 0 <= k < i ==> offsets_of(seen).contains_key((#[trigger] names[k]).0),
            forall|n: Seq<char>|
                offsets_of(seen).contains_key(n) ==> exists|k: int|
                    0 <= k < i && (#[trigger] names[k]).0 == n,
            forall|a: int, b: int|
                0 <= a < b < i ==> (#[trigger] names[a]).0 != (#[trigger] names[b]).0,
        decreases bindings@.len() - i,
    {
        if offsets_contains_key(&seen, &bindings[i].0) {
            proof {
                let n = names[i as int].0;
                let k = choose|k: int| 0 <= k < i && (#[trigger] names[k]).0 == n;
                assert(0 <= k < i < names.len() && names[k].0 == names[i as int].0);
            }
            return true;
        }
        let ghost before = offsets_of(seen);
        seen = offsets_update(&seen, bindings[i].0.clone(), 0);
        proof {
            assert forall|n: Seq<char>| offsets_of(seen).contains_key(n) implies exists|k: int|
                0 <= k < i + 1 && (#[trigger] names[k]).0 == n by {
                if before.contains_key(n) {
                    let k = choose|k: int| 0 <= k < i && (#[trigger] names[k]).0 == n;
                    assert(0 <= k < i + 1 && names[k].0 == n);
                } else {
                    assert(names[i as int].0 == n);
                }
            }
        }
        i += 1;
    }
    false
}

/// The code of `e`; see `spec_compile`.
fn gen_expr(
    e: &Expr,
    si: i32,
    env: &im::HashMap<String, i32>,
    defines: &im::HashMap<String, i32>,
    fun_ctx: &FunContext,
    loop_end: &Option<String>,
    gen: CodeGen,
) -> (r: Result<(Vec<Instr>, i32, CodeGen), CompileError>)
    ensures
        gen_view(r) == spec_compile(
            e@,
            si,
            offsets_of(*env),
            offsets_of(*defines),
            fun_ctx@,
            label_view(*loop_end),
            gen,
        ),
    decreases e, 1int,
{
    match e {
        Expr::Number(n) => {
            if *n < -0x4000_0000 || *n >= 0x4000_0000 {
                return Err(CompileError::NumberOutOfRange(*n));
            }
            let mut code = new_code();
            push_instr(&mut code, Instr::IMov(reg(Reg::RAX), Val::Imm(*n * 2)));
            Ok((code, si, gen))
        },
        Expr::Boolean(b) => {
            let val = if *b {
                TRUE_VAL
            } else {
                FALSE_VAL
            };
            let mut code = new_code();
            push_instr(&mut code, Instr::IMov(reg(Reg::RAX), Val::Imm(val)));
            Ok((code, si, gen))
        },
        Expr::Input => {
            let mut g = gen;
            let off = match get_input_heap_offset(&mut g) {
                Ok(off) => off,
                Err(err) => { return Err(err); },
            };
            let mut code = new_code();
            push_instr(&mut code, Instr::IMov(reg(Reg::RAX), Val::RegOffset(Reg::R15, off)));
            Ok((code, si, g))
        },
        Expr::Id(name) => {
            let mut code = new_code();
            match offsets_get(env, name) {
                Some(offset) => {
                    push_instr(&mut code, Instr::IMov(reg(Reg::RAX), frame_slot(offset)));
                },
                None => match offsets_get(defines, name) {
                    Some(heap_offset) => {
                        push_instr(
                            &mut code,
                            Instr::IMov(reg(Reg::RAX), Val::RegOffset(Reg::R15, heap_offset)),
                        );
                    },
                    None => { return Err(CompileError::UnboundVariable(name.clone())); },
                },
            }
            Ok((code, si, gen))
        },
        Expr::UnOp(_, _) => gen_unop(e, si, env, defines, fun_ctx, loop_end, gen),
        Expr::BinOp(_, _, _) => gen_binop(e, si, env, defines, fun_ctx, loop_end, gen),
        Expr::SetVar(_, _) => gen_set(e, si, env, defines, fun_ctx, loop_end, gen),
        Expr::If(_, _, _) => gen_if(e, si, env, defines, fun_ctx, loop_end, gen),
        Expr::Block(exprs) => gen_block(exprs, si, env, defines, fun_ctx, loop_end, gen),
        Expr::Let(bindings, _) => {
            if has_duplicate(bindings) {
                return Err(CompileError::DuplicateBinding);
            }
            gen_let(e, si, env, defines, fun_ctx, loop_end, gen)
        },
        Expr::Loop(_) => gen_loop(e, si, env, defines, fun_ctx, loop_end, gen),
        Expr::Break(_) => gen_break(e, si, env, defines, fun_ctx, loop_end, gen),
        Expr::Call(_, _) => gen_call(e, si, env, defines, fun_ctx, loop_end, gen),
        Expr::Cast(_, _) => gen_cast(e, si, env, defines, fun_ctx, loop_end, gen),
    }
}

fn gen_unop(
    e: &Expr,
    si: i32,
    env: &im::HashMap<String, i32>,
    defines: &im::HashMap<String, i32>,
    fun_ctx: &FunContext,
    loop_end: &Option<String>,
    gen: CodeGen,
) -> (r: Result<(Vec<Instr>, i32, CodeGen), CompileError>)
    requires
        e is UnOp,
    ensures
        gen_view(r) == spec_compile(
            e@,
            si,
            offsets_of(*env),
            offsets_of(*defines),
            fun_ctx@,
            label_view(*loop_end),
            gen,
        ),
    decreases e, 0int,
{
    match e {
        Expr::UnOp(op, a) => {
            let (mut code, a_min, g) = match gen_expr(a, si, env, defines, fun_ctx, loop_end, gen) {
                Ok(c) => c,
                Err(err) => { return Err(err); },
            };
            append_code(&mut code, unop_code(*op));
            Ok((code, min_i32(si, a_min), g))
        },
        _ => Err(CompileError::LimitExceeded),
    }
}

#[verifier::rlimit(50)]
fn gen_binop(
    e: &Expr,
    si: i32,
    env: &im::HashMap<String, i32>,
    defines: &im::HashMap<String, i32>,
    fun_ctx: &FunContext,
    loop_end: &Option<String>,
    gen: CodeGen,
) -> (r: Result<(Vec<Instr>, i32, CodeGen), CompileError>)
    requires
        e is BinOp,
    ensures
        gen_view(r) == spec_compile(
            e@,
            si,
            offsets_of(*env),
            offsets_of(*defines),
            fun_ctx@,
            label_view(*loop_end),
            gen,
        ),
    decreases e, 0int,
{
    match e {
        Expr::BinOp(op, left, right) => {
            let (mut code, left_min, g1) = match gen_expr(
                left,
                si,
                env,
                defines,
                fun_ctx,
                loop_end,
                gen,
            ) {
                Ok(c) => c,
                Err(err) => { return Err(err); },
            };
            if si < i32::MIN + 8 {
                return Err(CompileError::LimitExceeded);
            }
            let below = si - 8;
            push_instr(&mut code, Instr::IMov(frame_slot(si), reg(Reg::RAX)));
            let (right_code, right_min, g2) = match gen_expr(
                right,
                below,
                env,
                defines,
                fun_ctx,
                loop_end,
                g1,
            ) {
                Ok(c) => c,
                Err(err) => { return Err(err); },
            };
            append_code(&mut code, right_code);
            append_code(&mut code, binop_code(*op, si, below));
            let low = match op {
                Op2::Less | Op2::Greater | Op2::LessEqual | Op2::GreaterEqual => below,
                _ => si,
            };
            Ok((code, min_i32(min_i32(min_i32(si, left_min), right_min), low), g2))
        },
        _ => Err(CompileError::LimitExceeded),
    }
}

fn gen_set(
    e: &Expr,
    si: i32,
    env: &im::HashMap<String, i32>,
    defines: &im::HashMap<String, i32>,
    fun_ctx: &FunContext,
    loop_end: &Option<String>,
    gen: CodeGen,
) -> (r: Result<(Vec<Instr>, i32, CodeGen), CompileError>)
    requires
        e is SetVar,
    ensures
        gen_view(r) == spec_compile(
            e@,
            si,
            offsets_of(*env),
            offsets_of(*defines),
            fun_ctx@,
            label_view(*loop_end),
            gen,
        ),
    decreases e, 0int,
{
    match e {
        Expr::SetVar(name, a) => {
            let (mut code, a_min, g) = match gen_expr(a, si, env, defines, fun_ctx, loop_end, gen) {
                Ok(c) => c,
                Err(err) => { return Err(err); },
            };
            match offsets_get(env, name) {
                Some(offset) => {
                    push_instr(&mut code, Instr::IMov(frame_slot(offset), reg(Reg::RAX)));
                    Ok((code, min_i32(min_i32(si, a_min), offset), g))
                },
                None => match offsets_get(defines, name) {
                    Some(heap_offset) => {
                        push_instr(
                            &mut code,
                            Instr::IMov(Val::RegOffset(Reg::R15, heap_offset), reg(Reg::RAX)),
                        );
                        Ok((code, min_i32(si, a_min), g))
                    },
                    None => Err(CompileError::UnboundVariable(name.clone())),
                },
            }
        },
        _ => Err(CompileError::LimitExceeded),
    }
}

#[verifier::rlimit(50)]
fn gen_if(
    e: &Expr,
    si: i32,
    env: &im::HashMap<String, i32>,
    defines: &im::HashMap<String, i32>,
    fun_ctx: &FunContext,
    loop_end: &Option<String>,
    gen: CodeGen,
) -> (r: Result<(Vec<Instr>, i32, CodeGen), CompileError>)
    requires
        e is If,
    ensures
        gen_view(r) == spec_compile(
            e@,
            si,
            offsets_of(*env),
            offsets_of(*defines),
            fun_ctx@,
            label_view(*loop_end),
            gen,
        ),
    decreases e, 0int,
{
    match e {
        Expr::If(cond, then_expr, else_expr) => {
            let (else_label, g1) = match new_label("else", gen) {
                Ok(p) => p,
                Err(err) => { return Err(err); },
            };
            let (end_label, g2) = match new_label("endif", g1) {
                Ok(p) => p,
                Err(err) => { return Err(err); },
            };
            let (mut code, cond_min, g3) = match gen_expr(
                cond,
                si,
                env,
                defines,
                fun_ctx,
                loop_end,
                g2,
            ) {
                Ok(c) => c,
                Err(err) => { return Err(err); },
            };
            push_instr(&mut code, Instr::ICmp(reg(Reg::RAX), Val::Imm(FALSE_VAL)));
            push_instr(&mut code, Instr::IJe(else_label.clone()));
            let (then_code, then_min, g4) = match gen_expr(
                then_expr,
                si,
                env,
                defines,
                fun_ctx,
                loop_end,
                g3,
            ) {
                Ok(c) => c,
                Err(err) => { return Err(err); },
            };
            append_code(&mut code, then_code);
            push_instr(&mut code, Instr::IJmp(end_label.clone()));
            push_instr(&mut code, Instr::ILabel(else_label));
            let (else_code, else_min, g5) = match gen_expr(
                else_expr,
                si,
                env,
                defines,
                fun_ctx,
                loop_end,
                g4,
            ) {
                Ok(c) => c,
                Err(err) => { return Err(err); },
            };
            append_code(&mut code, else_code);
            push_instr(&mut code, Instr::ILabel(end_label));
            Ok((code, min_i32(min_i32(min_i32(si, cond_min), then_min), else_min), g5))
        },
        _ => Err(CompileError::LimitExceeded),
    }
}

fn gen_loop(
    e: &Expr,
    si: i32,
    env: &im::HashMap<String, i32>,
    defines: &im::HashMap<String, i32>,
    fun_ctx: &FunContext,
    loop_end: &Option<String>,
    gen: CodeGen,
) -> (r: Result<(Vec<Instr>, i32, CodeGen), CompileError>)
    requires
        e is Loop,
    ensures
        gen_view(r) == spec_compile(
            e@,
            si,
            offsets_of(*env),
            offsets_of(*defines),
            fun_ctx@,
            label_view(*loop_end),
            gen,
        ),
    decreases e, 0int,
{
    match e {
        Expr::Loop(body) => {
            let (loop_start, g1) = match new_label("loop_start", gen) {
                Ok(p) => p,
                Err(err) => { return Err(err); },
            };
            let (loop_end_label, g2) = match new_label("loop_end", g1) {
                Ok(p) => p,
                Err(err) => { return Err(err); },
            };
            let mut code = new_code();
            push_instr(&mut code, Instr::ILabel(loop_start.clone()));
            let inner = Some(loop_end_label.clone());
            let (body_code, body_min, g3) = match gen_expr(
                body,
                si,
                env,
                defines,
                fun_ctx,
                &inner,
                g2,
            ) {
                Ok(c) => c,
                Err(err) => { return Err(err); },
            };
            append_code(&mut code, body_code);
            push_instr(&mut code, Instr::IJmp(loop_start));
            push_instr(&mut code, Instr::ILabel(loop_end_label));
            Ok((code, min_i32(si, body_min), g3))
        },
        _ => Err(CompileError::LimitExceeded),
    }
}

fn gen_break(
    e: &Expr,
    si: i32,
    env: &im::HashMap<String, i32>,
    defines: &im::HashMap<String, i32>,
    fun_ctx: &FunContext,
    loop_end: &Option<String>,
    gen: CodeGen,
) -> (r: Result<(Vec<Instr>, i32, CodeGen), CompileError>)
    requires
        e is Break,
    ensures
        gen_view(r) == spec_compile(
            e@,
            si,
            offsets_of(*env),
            offsets_of(*defines),
            fun_ctx@,
            label_view(*loop_end),
            gen,
        ),
    decreases e, 0int,
{
    match e {
        Expr::Break(a) => {
            let target = match loop_end {
                Some(label) => label.clone(),
                None => { return Err(CompileError::BreakOutsideLoop); },
            };
            let (mut code, a_min, g) = match gen_expr(a, si, env, defines, fun_ctx, loop_end, gen) {
                Ok(c) => c,
                Err(err) => { return Err(err); },
            };
            push_instr(&mut code, Instr::IJmp(target));
            Ok((code, min_i32(si, a_min), g))
        },
        _ => Err(CompileError::LimitExceeded),
    }
}

#[verifier::rlimit(50)]
fn gen_call(
    e: &Expr,
    si: i32,
    env: &im::HashMap<String, i32>,
    defines: &im::HashMap<String, i32>,
    fun_ctx: &FunContext,
    loop_end: &Option<String>,
    gen: CodeGen,
) -> (r: Result<(Vec<Instr>, i32, CodeGen), CompileError>)
    requires
        e is Call,
    ensures
        gen_view(r) == spec_compile(
            e@,
            si,
            offsets_of(*env),
            offsets_of(*defines),
            fun_ctx@,
            label_view(*loop_end),
            gen,
        ),
    decreases e, 0int,
{
    match e {
        Expr::Call(name, args) => {
            proof {
                lemma_exprs_view(args@);
            }
            if !fun_ctx.check_function_exists(name) {
                return Err(CompileError::UndefinedFunction(name.clone()));
            }
            let expected = fun_ctx.get_param_count(name);
            if args.len() != expected {
                return Err(
                    CompileError::WrongArity { name: name.clone(), expected, got: args.len() },
                );
            }
            if args.len() > 0xfff_fffe {
                return Err(CompileError::LimitExceeded);
            }
            let bytes: i32 = (args.len() * 8) as i32;
            let pad = (bytes + 8) % 16 != 0;
            let mut before = new_code();
            if pad {
                push_instr(&mut before, Instr::ISub(reg(Reg::RSP), Val::Imm(8)));
            }
            let (mut code, args_min, g) = match gen_args(
                args,
                before,
                si,
                env,
                defines,
                fun_ctx,
                loop_end,
                gen,
            ) {
                Ok(c) => c,
                Err(err) => { return Err(err); },
            };
            let mut target = String::from_str("fun_");
            target.append(name.as_str());
            push_instr(&mut code, Instr::ICall(target));
            if bytes > 0 {
                push_instr(&mut code, Instr::IAdd(reg(Reg::RSP), Val::Imm(bytes)));
            }
            if pad {
                push_instr(&mut code, Instr::IAdd(reg(Reg::RSP), Val::Imm(8)));
            }
            Ok((code, args_min, g))
        },
        _ => Err(CompileError::LimitExceeded),
    }
}

fn gen_cast(
    e: &Expr,
    si: i32,
    env: &im::HashMap<String, i32>,
    defines: &im::HashMap<String, i32>,
    fun_ctx: &FunContext,
    loop_end: &Option<String>,
    gen: CodeGen,
) -> (r: Result<(Vec<Instr>, i32, CodeGen), CompileError>)
    requires
        e is Cast,
    ensures
        gen_view(r) == spec_compile(
            e@,
            si,
            offsets_of(*env),
            offsets_of(*defines),
            fun_ctx@,
            label_view(*loop_end),
            gen,
        ),
    decreases e, 0int,
{
    match e {
        Expr::Cast(a, target_type) => {
            let (mut code, a_min, g) = match gen_expr(a, si, env, defines, fun_ctx, loop_end, gen) {
                Ok(c) => c,
                Err(err) => { return Err(err); },
            };
            append_code(&mut code, cast_code(*target_type));
            Ok((code, min_i32(si, a_min), g))
        },
        _ => Err(CompileError::LimitExceeded),
    }
}

fn gen_block(
    es: &Vec<Expr>,
    si: i32,
    env: &im::HashMap<String, i32>,
    defines: &im::HashMap<String, i32>,
    fun_ctx: &FunContext,
    loop_end: &Option<String>,
    gen: CodeGen,
) -> (r: Result<(Vec<Instr>, i32, CodeGen), CompileError>)
    ensures
        gen_view(r) == spec_compile_block(
            crate::ast::exprs_view(es@),
            0,
            si,
            offsets_of(*env),
            offsets_of(*defines),
            fun_ctx@,
            label_view(*loop_end),
            Compiled { code: Seq::empty(), min_si: si, gen },
        ),
    decreases es, 0int,
{
    let ghost views = crate::ast::exprs_view(es@);
    let ghost start = Compiled { code: Seq::empty(), min_si: si, gen };
    let mut code = new_code();
    let mut low = si;
    let mut g = gen;
    let mut i: usize = 0;
    while i < es.len()
        invariant
            i <= es@.len(),
            views == crate::ast::exprs_view(es@),
            start == (Compiled { code: Seq::empty(), min_si: si, gen }),
            spec_compile_block(
                views,
                0,
                si,
                offsets_of(*env),
                offsets_of(*defines),
                fun_ctx@,
                label_view(*loop_end),
                start,
            ) == spec_compile_block(
                views,
                i as int,
                si,
                offsets_of(*env),
                offsets_of(*defines),
                fun_ctx@,
                label_view(*loop_end),
                Compiled { code: code_view(code@), min_si: low, gen: g },
            ),
        decreases es@.len() - i,
    {
        let (more, more_min, g1) = match gen_expr(&es[i], si, env, defines, fun_ctx, loop_end, g) {
            Ok(c) => c,
            Err(err) => { return Err(err); },
        };
        append_code(&mut code, more);
        low = min_i32(low, more_min);
        g = g1;
        i += 1;
    }
    Ok((code, low, g))
}

#[verifier::loop_isolation(false)]
fn gen_args(
    args: &Vec<Expr>,
    before: Vec<Instr>,
    si: i32,
    env: &im::HashMap<String, i32>,
    defines: &im::HashMap<String, i32>,
    fun_ctx: &FunContext,
    loop_end: &Option<String>,
    gen: CodeGen,
) -> (r: Result<(Vec<Instr>, i32, CodeGen), CompileError>)
    ensures
        gen_view(r) == spec_compile_args(
            crate::ast::exprs_view(args@),
            args@.len() as int,
            si,
            offsets_of(*env),
            offsets_of(*defines),
            fun_ctx@,
            label_view(*loop_end),
            Compiled { code: code_view(before@), min_si: si, gen },
        ),
    decreases args, 0int,
{
    let ghost views = crate::ast::exprs_view(args@);
    let ghost before_view = code_view(before@);
    let ghost start = Compiled { code: before_view, min_si: si, gen };
    let mut code = before;
    let mut low = si;
    let mut g = gen;
    let mut k: usize = args.len();
    while k > 0
        invariant
            k <= args@.len(),
            views == crate::ast::exprs_view(args@),
            start == (Compiled { code: before_view, min_si: si, gen }),
            spec_compile_args(
                views,
                args@.len() as int,
                si,
                offsets_of(*env),
                offsets_of(*defines),
                fun_ctx@,
                label_view(*loop_end),
                start,
            ) == spec_compile_args(
                views,
                k as int,
                si,
                offsets_of(*env),
                offsets_of(*defines),
                fun_ctx@,
                label_view(*loop_end),
                Compiled { code: code_view(code@), min_si: low, gen: g },
            ),
        decreases k,
    {
        let (more, more_min, g1) = match gen_expr(
            &args[k - 1],
            si,
            env,
            defines,
            fun_ctx,
            loop_end,
            g,
        ) {
            Ok(c) => c,
            Err(err) => { return Err(err); },
        };
        append_code(&mut code, more);
        push_instr(&mut code, Instr::IPush(reg(Reg::RAX)));
        low = min_i32(low, more_min);
        g = g1;
        k -= 1;
    }
    Ok((code, low, g))
}

#[verifier::loop_isolation(false)]
#[verifier::rlimit(50)]
fn gen_let(
    e: &Expr,
    si: i32,
    env: &im::HashMap<String, i32>,
    defines: &im::HashMap<String, i32>,
    fun_ctx: &FunContext,
    loop_end: &Option<String>,
    gen: CodeGen,
) -> (r: Result<(Vec<Instr>, i32, CodeGen), CompileError>)
    requires
        e is Let,
    ensures
        gen_view(r) == spec_compile_let(
            e@,
            0,
            si,
            offsets_of(*env),
            offsets_of(*defines),
            fun_ctx@,
            label_view(*loop_end),
            Compiled { code: Seq::empty(), min_si: si, gen },
        ),
    decreases e, 0int,
{
    let ghost start = Compiled { code: Seq::empty(), min_si: si, gen };
    match e {
        Expr::Let(bindings, body) => {
            proof {
                lemma_bindings_view(bindings@);
            }
            let mut new_env = offsets_clone(env);
            let mut current_si = si;
            let mut code = new_code();
            let mut low = si;
            let mut g = gen;
            let mut i: usize = 0;
            while i < bindings.len()
                invariant
                    i <= bindings@.len(),
                    spec_compile_let(
                        e@,
                        0,
                        si,
                        offsets_of(*env),
                        offsets_of(*defines),
                        fun_ctx@,
                        label_view(*loop_end),
                        start,
                    ) == spec_compile_let(
                        e@,
                        i as int,
                        current_si,
                        offsets_of(new_env),
                        offsets_of(*defines),
                        fun_ctx@,
                        label_view(*loop_end),
                        Compiled { code: code_view(code@), min_si: low, gen: g },
                    ),
                decreases bindings@.len() - i,
            {
                if current_si < i32::MIN + 8 {
                    return Err(CompileError::LimitExceeded);
                }
                let below = current_si - 8;
                let (more, more_min, g1) = match gen_expr(
                    &bindings[i].1,
                    below,
                    &new_env,
                    defines,
                    fun_ctx,
                    loop_end,
                    g,
                ) {
                    Ok(c) => c,
                    Err(err) => { return Err(err); },
                };
                append_code(&mut code, more);
                push_instr(&mut code, Instr::IMov(frame_slot(current_si), reg(Reg::RAX)));
                new_env = offsets_update(&new_env, bindings[i].0.clone(), current_si);
                low = min_i32(min_i32(low, more_min), current_si);
                g = g1;
                current_si = below;
                i += 1;
            }
            let (more, more_min, g1) = match gen_expr(
                body,
                current_si,
                &new_env,
                defines,
                fun_ctx,
                loop_end,
                g,
            ) {
                Ok(c) => c,
                Err(err) => { return Err(err); },
            };
            append_code(&mut code, more);
            Ok((code, min_i32(low, more_min), g1))
        },
        _ => Ok((Vec::new(), si, gen)),
    }
}

/// Generates the code of `e`.
///
/// `si` is the next free frame slot, `env` the lexical environment,
/// `defines` the persistent bindings, `fun_ctx` the signature table,
/// `loop_end` the exit label of the enclosing loop if there is one, and `gen`
/// the counters for labels and heap slots. `input` is carried for the caller
/// and decides nothing here. The result is the instruction sequence and the
/// lowest frame offset reached, and `gen` has advanced as `spec_compile`
/// says; where `e` is rejected, `gen` is left as it was.
pub fn compile_to_instrs(
    e: &Expr,
    si: i32,
    env: &im::HashMap<String, i32>,
    defines: &im::HashMap<String, i32>,
    fun_ctx: &FunContext,
    input: bool,
    loop_end: &Option<String>,
    gen: &mut CodeGen,
) -> (r: Result<(Vec<Instr>, i32), CompileError>)
    ensures
        match r {
            Ok((code, min_si)) => spec_compile(
                e@,
                si,
                offsets_of(*env),
                offsets_of(*defines),
                fun_ctx@,
                label_view(*loop_end),
                *old(gen),
            ) == Ok::<Compiled, CompileErrorView>(
                Compiled { code: code_view(code@), min_si, gen: *final(gen) },
            ),
            Err(err) => spec_compile(
                e@,
                si,
                offsets_of(*env),
                offsets_of(*defines),
                fun_ctx@,
                label_view(*loop_end),
                *old(gen),
            ) == Err::<Compiled, CompileErrorView>(err@) && *final(gen) == *old(gen),
        },
{
    match gen_expr(e, si, env, defines, fun_ctx, loop_end, *gen) {
        Ok((code, min_si, g)) => {
            *gen = g;
            Ok((code, min_si))
        },
        Err(err) => Err(err),
    }
}

/// The bytes of the frame that a body needs: none if it reached no slot
/// below the first one, at offset -8; else the distance from the frame base
/// to the lowest slot reached (for an entry point: from the first slot),
/// rounded up to a multiple of 16.
pub open spec fn spec_frame_size(min_offset: i32, entry: bool) -> int {
    if min_offset < -8 {
        let needed = if entry {
            -min_offset - 8
        } else {
            -(min_offset as int)
        };
        ((needed + 15) / 16) * 16
    } else {
        0
    }
}

/// The bytes of the frame for a body that reached `min_offset`; an error if
/// they do not fit a signed 32-bit immediate.
pub fn frame_size(min_offset: i32, entry: bool) -> (r: Result<i32, CompileError>)
    ensures
        match r {
            Ok(n) => n == spec_frame_size(min_offset, entry),
            Err(e) => spec_frame_size(min_offset, entry) > i32::MAX && e@
                == CompileErrorView::LimitExceeded,
        },
{
    if min_offset < -8 {
        let needed: i64 = if entry {
            -(min_offset as i64) - 8
        } else {
            -(min_offset as i64)
        };
        let space: i64 = ((needed + 15) / 16) * 16;
        if space > 0x7fff_ffff {
            Err(CompileError::LimitExceeded)
        } else {
            Ok(space as i32)
        }
    } else {
        Ok(0)
    }
}

/// The frame offsets of the first `n` parameters of a function: they lie
/// above the return address, in order, one word apart, the first at 16.
pub open spec fn spec_param_offsets(params: Seq<Seq<char>>, n: nat) -> Map<Seq<char>, i32>
    decreases n,
{
    if n == 0 {
        Map::empty()
    } else {
        spec_param_offsets(params, (n - 1) as nat).insert(params[n - 1], (16 + (n - 1) * 8) as i32)
    }
}

/// What opens a frame.
pub open spec fn spec_prologue(label: Seq<char>) -> Seq<InstrView> {
    seq![
        InstrView::ILabel(label),
        InstrView::IPush(Val::Reg(Reg::RBP)),
        InstrView::IMov(Val::Reg(Reg::RBP), Val::Reg(Reg::RSP)),
    ]
}

/// `code` with what closes a frame and returns.
pub open spec fn spec_with_epilogue(code: Seq<InstrView>) -> Seq<InstrView> {
    code.push(InstrView::IMov(Val::Reg(Reg::RSP), Val::Reg(Reg::RBP))).push(
        InstrView::IPop(Val::Reg(Reg::RBP)),
    ).push(InstrView::IRet)
}

/// `code` with the instruction that makes room for a frame of `frame` bytes,
/// if it has any.
pub open spec fn spec_with_frame(code: Seq<InstrView>, frame: int) -> Seq<InstrView> {
    if frame > 0 {
        code.push(InstrView::ISub(Val::Reg(Reg::RSP), Val::Imm(frame as i32)))
    } else {
        code
    }
}

/// The code of a function: its label, the frame, the body with the
/// parameters bound to their offsets, and the return; with the counters
/// afterwards.
pub open spec fn spec_compile_function(
    d: FunDefnView,
    defines: Map<Seq<char>, i32>,
    funs: Map<Seq<char>, usize>,
    gen: CodeGen,
) -> Result<(Seq<InstrView>, CodeGen), CompileErrorView> {
    if d.params.len() > max_args() {
        Err(CompileErrorView::LimitExceeded)
    } else {
        match spec_compile(
            d.body,
            -8i32,
            spec_param_offsets(d.params, d.params.len()),
            defines,
            funs,
            None,
            gen,
        ) {
            Err(err) => Err(err),
            Ok(c) => if spec_frame_size(c.min_si, false) > i32::MAX {
                Err(CompileErrorView::LimitExceeded)
            } else {
                Ok(
                    (
                        spec_with_epilogue(
                            spec_with_frame(
                                spec_prologue(fun_label(d.name)),
                                spec_frame_size(c.min_si, false),
                            ) + c.code,
                        ),
                        c.gen,
                    ),
                )
            },
        }
    }
}

/// The code of an entry point: its label, the frame, the store of the
/// external input from `rdi` to its heap slot, the body, and the return; with
/// the counters afterwards. The heap base is expected in `r15`.
pub open spec fn spec_compile_main(
    main: ExprView,
    defines: Map<Seq<char>, i32>,
    funs: Map<Seq<char>, usize>,
    gen: CodeGen,
) -> Result<(Seq<InstrView>, CodeGen), CompileErrorView> {
    match gen.spec_input_slot() {
        None => Err(CompileErrorView::LimitExceeded),
        Some((g, off)) => match spec_compile(main, -8i32, Map::empty(), defines, funs, None, g) {
            Err(err) => Err(err),
            Ok(c) => if spec_frame_size(c.min_si, true) > i32::MAX {
                Err(CompileErrorView::LimitExceeded)
            } else {
                Ok(
                    (
                        spec_with_epilogue(
                            spec_with_frame(
                                spec_prologue("our_code_starts_here"@).push(
                                    InstrView::IMov(
                                        Val::RegOffset(Reg::R15, off),
                                        Val::Reg(Reg::RDI),
                                    ),
                                ),
                                spec_frame_size(c.min_si, true),
                            ) + c.code,
                        ),
                        c.gen,
                    ),
                )
            },
        },
    }
}

/// The handler of one run-time error: it hands the error's code to the fault
/// reporter and returns.
pub open spec fn spec_handler(label: Seq<char>, code: i32) -> Seq<InstrView> {
    seq![
        InstrView::ILabel(label),
        InstrView::IMov(Val::Reg(Reg::RDI), Val::Imm(code)),
        InstrView::ICall("snek_error"@),
        InstrView::IRet,
    ]
}

/// The value of what the assembler of a function or entry point returns.
pub open spec fn unit_gen_view(r: Result<Vec<Instr>, CompileError>, gen: CodeGen) -> Result<
    (Seq<InstrView>, CodeGen),
    CompileErrorView,
> {
    match r {
        Ok(code) => Ok((code_view(code@), gen)),
        Err(e) => Err(e@),
    }
}

fn prologue(label: String) -> (code: Vec<Instr>)
    ensures
        code_view(code@) == spec_prologue(label@),
{
    let mut code = new_code();
    push_instr(&mut code, Instr::ILabel(label));
    push_instr(&mut code, Instr::IPush(reg(Reg::RBP)));
    push_instr(&mut code, Instr::IMov(reg(Reg::RBP), reg(Reg::RSP)));
    code
}

pub(crate) fn add_frame(code: &mut Vec<Instr>, frame: i32)
    ensures
        code_view(final(code)@) == spec_with_frame(code_view(old(code)@), frame as int),
{
    if frame > 0 {
        push_instr(code, Instr::ISub(reg(Reg::RSP), Val::Imm(frame)));
    }
}

pub(crate) fn add_epilogue(code: &mut Vec<Instr>)
    ensures
        code_view(final(code)@) == spec_with_epilogue(code_view(old(code)@)),
{
    push_instr(code, Instr::IMov(reg(Reg::RSP), reg(Reg::RBP)));
    push_instr(code, Instr::IPop(reg(Reg::RBP)));
    push_instr(code, Instr::IRet);
}

fn param_offsets(params: &Vec<String>) -> (env: im::HashMap<String, i32>)
    requires
        params@.len() <= max_args(),
    ensures
        offsets_of(env) == spec_param_offsets(crate::ast::names_view(params@), params@.len()),
{
    let mut env = offsets_new();
    let mut i: usize = 0;
    while i < params.len()
        invariant
            i <= params@.len(),
            params@.len() <= max_args(),
            offsets_of(env) == spec_param_offsets(crate::ast::names_view(params@), i as nat),
        decreases params@.len() - i,
    {
        let offset: i32 = 16 + (i as i32) * 8;
        env = offsets_update(&env, params[i].clone(), offset);
        i += 1;
    }
    env
}

/// Assembles a function: label, frame, body, return. Where the function is
/// rejected, `gen` is left as it was.
pub fn compile_function(
    defn: &FunDefn,
    defines: &im::HashMap<String, i32>,
    fun_ctx: &FunContext,
    gen: &mut CodeGen,
) -> (r: Result<Vec<Instr>, CompileError>)
    ensures
        unit_gen_view(r, *final(gen)) == spec_compile_function(
            defn@,
            offsets_of(*defines),
            fun_ctx@,
            *old(gen),
        ),
        r is Err ==> *final(gen) == *old(gen),
{
    if defn.params.len() > 0xfff_fffe {
        return Err(CompileError::LimitExceeded);
    }
    let env = param_offsets(&defn.params);
    let (body, min_offset, g) = match gen_expr(&defn.body, -8, &env, defines, fun_ctx, &None, *gen) {
        Ok(c) => c,
        Err(err) => { return Err(err); },
    };
    let frame = match frame_size(min_offset, false) {
        Ok(n) => n,
        Err(err) => { return Err(err); },
    };
    let mut label = String::from_str("fun_");
    label.append(defn.name.as_str());
    let mut code = prologue(label);
    add_frame(&mut code, frame);
    append_code(&mut code, body);
    add_epilogue(&mut code);
    *gen = g;
    Ok(code)
}

/// Assembles an entry point: label, frame, store of the external input,
/// body, return. Where the expression is rejected, `gen` is left as it was.
pub fn compile_main(
    main: &Expr,
    defines: &im::HashMap<String, i32>,
    fun_ctx: &FunContext,
    gen: &mut CodeGen,
) -> (r: Result<Vec<Instr>, CompileError>)
    ensures
        unit_gen_view(r, *final(gen)) == spec_compile_main(
            main@,
            offsets_of(*defines),
            fun_ctx@,
            *old(gen),
        ),
        r is Err ==> *final(gen) == *old(gen),
{
    let mut g0 = *gen;
    let off = match get_input_heap_offset(&mut g0) {
        Ok(off) => off,
        Err(err) => { return Err(err); },
    };
    let env = offsets_new();
    let (body, min_offset, g) = match gen_expr(main, -8, &env, defines, fun_ctx, &None, g0) {
        Ok(c) => c,
        Err(err) => { return Err(err); },
    };
    let frame = match frame_size(min_offset, true) {
        Ok(n) => n,
        Err(err) => { return Err(err); },
    };
    let mut code = prologue(String::from_str("our_code_starts_here"));
    push_instr(&mut code, Instr::IMov(Val::RegOffset(Reg::R15, off), reg(Reg::RDI)));
    add_frame(&mut code, frame);
    append_code(&mut code, body);
    add_epilogue(&mut code);
    *gen = g;
    Ok(code)
}

/// The handler of one run-time error under the given label.
pub fn error_handler(label: String, code: i32) -> (r: Vec<Instr>)
    ensures
        code_view(r@) == spec_handler(label@, code),
{
    let mut r = new_code();
    push_instr(&mut r, Instr::ILabel(label));
    push_instr(&mut r, Instr::IMov(reg(Reg::RDI), Val::Imm(code)));
    push_instr(&mut r, Instr::ICall(String::from_str("snek_error")));
    push_instr(&mut r, Instr::IRet);
    r
}

/// Rejects a function body that is the external input itself.
pub fn check_no_input(expr: &Expr) -> (r: Result<(), CompileError>)
    ensures
        match r {
            Ok(_) => !(expr@ is Input),
            Err(e) => expr@ is Input && e@ == CompileErrorView::InputInFunction,
        },
{
    match expr {
        Expr::Input => Err(CompileError::InputInFunction),
        _ => Ok(()),
    }
}

/// The code of a top-level definition: a new heap slot, the code of the
/// expression, and the store of its value to the slot.
pub open spec fn spec_compile_define(
    e: ExprView,
    defines: Map<Seq<char>, i32>,
    funs: Map<Seq<char>, usize>,
    gen: CodeGen,
) -> Result<(i32, Seq<InstrView>, CodeGen), CompileErrorView> {
    match gen.spec_alloc() {
        None => Err(CompileErrorView::LimitExceeded),
        Some((g, off)) => match spec_compile(e, -8i32, Map::empty(), defines, funs, None, g) {
            Err(err) => Err(err),
            Ok(c) => Ok(
                (
                    off,
                    c.code.push(InstrView::IMov(Val::RegOffset(Reg::R15, off), rax())),
                    c.gen,
                ),
            ),
        },
    }
}

/// Generates the code of the top-level definition of `name` by `expr`: the
/// offset of its new heap slot, and the code that leaves the value there.
/// Where the definition is rejected, `gen` is left as it was and the slot is
/// not taken.
pub fn compile_define(
    name: &str,
    expr: &Expr,
    defines: &im::HashMap<String, i32>,
    fun_ctx: &FunContext,
    gen: &mut CodeGen,
) -> (r: Result<(i32, Vec<Instr>), CompileError>)
    ensures
        match r {
            Ok((off, code)) => spec_compile_define(
                expr@,
                offsets_of(*defines),
                fun_ctx@,
                *old(gen),
            ) == Ok::<(i32, Seq<InstrView>, CodeGen), CompileErrorView>(
                (off, code_view(code@), *final(gen)),
            ),
            Err(e) => spec_compile_define(expr@, offsets_of(*defines), fun_ctx@, *old(gen))
                == Err::<(i32, Seq<InstrView>, CodeGen), CompileErrorView>(e@) && *final(gen)
                == *old(gen),
        },
{
    let (g0, heap_offset) = match alloc_heap_slot(*gen) {
        Ok(p) => p,
        Err(err) => { return Err(err); },
    };
    let env = offsets_new();
    let (mut code, _, g) = match gen_expr(expr, -8, &env, defines, fun_ctx, &None, g0) {
        Ok(c) => c,
        Err(err) => { return Err(err); },
    };
    push_instr(&mut code, Instr::IMov(Val::RegOffset(Reg::R15, heap_offset), reg(Reg::RAX)));
    *gen = g;
    Ok((heap_offset, code))
}

/// The assembly text of a sequence of instructions: one line for each.
pub open spec fn spec_render(code: Seq<InstrView>) -> Seq<char>
    decreases code.len(),
{
    if code.len() == 0 {
        Seq::empty()
    } else {
        spec_render(code.drop_last()) + instr_text(code.last()) + "\n"@
    }
}

/// The assembly text of `code`.
pub fn render(code: &Vec<Instr>) -> (text: String)
    ensures
        text@ == spec_render(code_view(code@)),
{
    let mut text = String::new();
    let mut i: usize = 0;
    while i < code.len()
        invariant
            i <= code@.len(),
            text@ == spec_render(code_view(code@).take(i as int)),
        decreases code@.len() - i,
    {
        let line = instr_to_str(&code[i]);
        text.append(line.as_str());
        text.append("\n");
        proof {
            let all = code_view(code@);
            assert(all.take(i + 1).drop_last() =~= all.take(i as int));
            assert(all.take(i + 1).last() == code@[i as int]@);
        }
        i += 1;
    }
    proof {
        assert(code_view(code@).take(code@.len() as int) =~= code_view(code@));
    }
    text
}

/// The text of the three handlers of run-time errors, each after an empty
/// line: overflow with code 1, invalid argument with code 2, bad cast with
/// code 3.
pub open spec fn spec_handlers_text() -> Seq<char> {
    "\n"@ + spec_render(spec_handler("error_overflow"@, 1)) + "\n"@ + spec_render(
        spec_handler("error_invalid_argument"@, 2),
    ) + "\n"@ + spec_render(spec_handler("error_bad_cast"@, 3))
}

/// The code of the functions from index `i` on, assembled in order, after
/// `code`; with the counters afterwards.
pub open spec fn spec_compile_functions(
    defns: Seq<FunDefnView>,
    i: int,
    funs: Map<Seq<char>, usize>,
    gen: CodeGen,
    code: Seq<InstrView>,
) -> Result<(Seq<InstrView>, CodeGen), CompileErrorView>
    decreases defns.len() - i,
{
    if i < 0 || i >= defns.len() {
        Ok((code, gen))
    } else {
        match spec_compile_function(defns[i], Map::empty(), funs, gen) {
            Err(err) => Err(err),
            Ok((more, g)) => spec_compile_functions(defns, i + 1, funs, g, code + more),
        }
    }
}

/// The code of a program, with fresh counters: its functions in order, then
/// the entry point. A name defined twice is an error, then a function whose
/// body is the external input, then the first error in any function in
/// order, then in the main expression.
pub open spec fn spec_program_code(p: ProgramView) -> Result<Seq<InstrView>, CompileErrorView> {
    match spec_fun_table(p.defns, 0, Map::empty()) {
        Err(err) => Err(err),
        Ok(funs) => if exists|i: int| 0 <= i < p.defns.len() && (#[trigger] p.defns[i]).body is Input {
            Err(CompileErrorView::InputInFunction)
        } else {
            match spec_compile_functions(
                p.defns,
                0,
                funs,
                CodeGen { label_counter: 0, heap_offset: 0, input_heap_offset: None },
                Seq::empty(),
            ) {
                Err(err) => Err(err),
                Ok((code, g)) => match spec_compile_main(p.main, Map::empty(), funs, g) {
                    Err(err) => Err(err),
                    Ok((main, _)) => Ok(code + main),
                },
            }
        },
    }
}

/// The handlers of run-time errors, one after the other: overflow with code
/// 1, invalid argument with code 2, bad cast with code 3.
pub open spec fn spec_error_handlers() -> Seq<InstrView> {
    spec_handler("error_overflow"@, 1) + spec_handler("error_invalid_argument"@, 2) + spec_handler(
        "error_bad_cast"@,
        3,
    )
}

/// The assembly text of a program: the text of its code, then the handlers
/// of run-time errors.
pub open spec fn spec_compile_program(p: ProgramView) -> Result<Seq<char>, CompileErrorView> {
    match spec_program_code(p) {
        Err(err) => Err(err),
        Ok(code) => Ok(spec_render(code) + spec_handlers_text()),
    }
}

/// The value of a code sequence or an error.
pub open spec fn code_result_view(r: Result<Vec<Instr>, CompileError>) -> Result<
    Seq<InstrView>,
    CompileErrorView,
> {
    match r {
        Ok(code) => Ok(code_view(code@)),
        Err(e) => Err(e@),
    }
}

/// The value of a text or an error.
pub open spec fn text_view(r: Result<String, CompileError>) -> Result<Seq<char>, CompileErrorView> {
    match r {
        Ok(t) => Ok(t@),
        Err(e) => Err(e@),
    }
}

fn handlers_text() -> (text: String)
    ensures
        text@ == spec_handlers_text(),
{
    let mut text = String::from_str("\n");
    let h1 = render(&error_handler(String::from_str("error_overflow"), 1));
    text.append(h1.as_str());
    text.append("\n");
    let h2 = render(&error_handler(String::from_str("error_invalid_argument"), 2));
    text.append(h2.as_str());
    text.append("\n");
    let h3 = render(&error_handler(String::from_str("error_bad_cast"), 3));
    text.append(h3.as_str());
    text
}

/// The handlers of run-time errors under their shared labels.
pub fn error_handlers() -> (code: Vec<Instr>)
    ensures
        code_view(code@) == spec_error_handlers(),
{
    let mut code = error_handler(String::from_str("error_overflow"), 1);
    append_code(&mut code, error_handler(String::from_str("error_invalid_argument"), 2));
    append_code(&mut code, error_handler(String::from_str("error_bad_cast"), 3));
    code
}

/// Compiles a program to code, with fresh counters: its functions, then the
/// entry point under the label `our_code_starts_here`.
#[verifier::loop_isolation(false)]
pub fn compile_program(program: &Program) -> (r: Result<Vec<Instr>, CompileError>)
    ensures
        code_result_view(r) == spec_program_code(program@),
{
    let ghost defns = defns_view(program.defns@);
    let mut gen = CodeGen::new();
    let fun_ctx = match FunContext::new(program.defns.as_slice()) {
        Ok(ctx) => ctx,
        Err(err) => { return Err(err); },
    };
    let mut i: usize = 0;
    while i < program.defns.len()
        invariant
            i <= program.defns@.len(),
            defns == defns_view(program.defns@),
            forall|j: int| 0 <= j < i ==> !((#[trigger] defns[j]).body is Input),
        decreases program.defns@.len() - i,
    {
        match check_no_input(&program.defns[i].body) {
            Ok(_) => {},
            Err(err) => {
                assert(defns[i as int].body is Input);
                return Err(err);
            },
        }
        i += 1;
    }
    let empty = offsets_new();
    let mut code = new_code();
    let mut k: usize = 0;
    while k < program.defns.len()
        invariant
            k <= program.defns@.len(),
            defns == defns_view(program.defns@),
            spec_compile_functions(
                defns,
                0,
                fun_ctx@,
                CodeGen { label_counter: 0, heap_offset: 0, input_heap_offset: None },
                Seq::empty(),
            ) == spec_compile_functions(defns, k as int, fun_ctx@, gen, code_view(code@)),
        decreases program.defns@.len() - k,
    {
        let more = match compile_function(&program.defns[k], &empty, &fun_ctx, &mut gen) {
            Ok(more) => more,
            Err(err) => { return Err(err); },
        };
        append_code(&mut code, more);
        k += 1;
    }
    let main = match compile_main(&program.main, &empty, &fun_ctx, &mut gen) {
        Ok(main) => main,
        Err(err) => { return Err(err); },
    };
    append_code(&mut code, main);
    Ok(code)
}

/// Compiles a program to assembly text, with fresh counters.
pub fn compile(program: &Program) -> (r: Result<String, CompileError>)
    ensures
        text_view(r) == spec_compile_program(program@),
{
    let code = match compile_program(program) {
        Ok(code) => code,
        Err(err) => { return Err(err); },
    };
    let mut asm_code = render(&code);
    let handlers = handlers_text();
    asm_code.append(handlers.as_str());
    Ok(asm_code)
}

/// A `break` with no loop around it is refused as such, whatever its
/// operand, and yields no code.
pub proof fn lemma_break_needs_loop(
    a: ExprView,
    si: i32,
    env: Map<Seq<char>, i32>,
    defines: Map<Seq<char>, i32>,
    funs: Map<Seq<char>, usize>,
    gen: CodeGen,
)
    ensures
        spec_compile(ExprView::Break(Box::new(a)), si, env, defines, funs, None, gen) == Err::<
            Compiled,
            CompileErrorView,
        >(CompileErrorView::BreakOutsideLoop),
{
}

/// An expression that holds a `break` that belongs to no loop inside it
/// does not compile where no loop encloses it: the result is an error and
/// never code.
#[verifier::rlimit(50)]
pub proof fn lemma_own_break_is_rejected(
    e: ExprView,
    si: i32,
    env: Map<Seq<char>, i32>,
    defines: Map<Seq<char>, i32>,
    funs: Map<Seq<char>, usize>,
    gen: CodeGen,
)
    requires
        has_own_break(e),
    ensures
        spec_compile(e, si, env, defines, funs, None, gen) is Err,
    decreases e, 1int, 0int,
{
    match e {
        ExprView::UnOp(_, a) => lemma_own_break_is_rejected(*a, si, env, defines, funs, gen),
        ExprView::BinOp(_, l, r) => {
            if has_own_break(*l) {
                lemma_own_break_is_rejected(*l, si, env, defines, funs, gen);
            } else {
                match spec_compile(*l, si, env, defines, funs, None, gen) {
                    Ok(cl) => {
                        if si >= i32::MIN + 8 {
                            lemma_own_break_is_rejected(
                                *r,
                                (si - 8) as i32,
                                env,
                                defines,
                                funs,
                                cl.gen,
                            );
                        }
                    },
                    Err(_) => {},
                }
            }
        },
        ExprView::If(c, t, f) => {
            match gen.spec_count_label() {
                Some(g1) => match g1.spec_count_label() {
                    Some(g2) => {
                        if has_own_break(*c) {
                            lemma_own_break_is_rejected(*c, si, env, defines, funs, g2);
                        }
                        match spec_compile(*c, si, env, defines, funs, None, g2) {
                            Ok(cc) => {
                                if has_own_break(*t) {
                                    lemma_own_break_is_rejected(*t, si, env, defines, funs, cc.gen);
                                }
                                match spec_compile(*t, si, env, defines, funs, None, cc.gen) {
                                    Ok(ct) => {
                                        if has_own_break(*f) {
                                            lemma_own_break_is_rejected(
                                                *f,
                                                si,
                                                env,
                                                defines,
                                                funs,
                                                ct.gen,
                                            );
                                        }
                                    },
                                    Err(_) => {},
                                }
                            },
                            Err(_) => {},
                        }
                    },
                    None => {},
                },
                None => {},
            }
        },
        ExprView::Let(bindings, body) => {
            if !has_duplicate_binding(bindings) {
                lemma_own_break_in_let(
                    e,
                    0,
                    si,
                    env,
                    defines,
                    funs,
                    Compiled { code: Seq::empty(), min_si: si, gen },
                );
            }
        },
        ExprView::Block(es) => {
            let j = choose|j: int| 0 <= j < es.len() && has_own_break(#[trigger] es[j]);
            lemma_own_break_in_block(
                es,
                0,
                j,
                si,
                env,
                defines,
                funs,
                Compiled { code: Seq::empty(), min_si: si, gen },
            );
        },
        ExprView::SetVar(_, a) => lemma_own_break_is_rejected(*a, si, env, defines, funs, gen),
        ExprView::Call(name, args) => {
            let j = choose|j: int| 0 <= j < args.len() && has_own_break(#[trigger] args[j]);
            if funs.contains_key(name) && args.len() == funs[name] && args.len() <= max_args() {
                let before: Seq<InstrView> = if needs_pad(args.len()) {
                    seq![InstrView::ISub(Val::Reg(Reg::RSP), Val::Imm(8))]
                } else {
                    Seq::empty()
                };
                lemma_own_break_in_args(
                    args,
                    args.len() as int,
                    j,
                    si,
                    env,
                    defines,
                    funs,
                    Compiled { code: before, min_si: si, gen },
                );
            }
        },
        ExprView::Cast(a, _) => lemma_own_break_is_rejected(*a, si, env, defines, funs, gen),
        _ => {},
    }
}

proof fn lemma_own_break_in_block(
    es: Seq<ExprView>,
    i: int,
    j: int,
    si: i32,
    env: Map<Seq<char>, i32>,
    defines: Map<Seq<char>, i32>,
    funs: Map<Seq<char>, usize>,
    acc: Compiled,
)
    requires
        0 <= i <= j < es.len(),
        has_own_break(es[j]),
    ensures
        spec_compile_block(es, i, si, env, defines, funs, None, acc) is Err,
    decreases es, 0int, es.len() - i,
{
    if i == j {
        lemma_own_break_is_rejected(es[i], si, env, defines, funs, acc.gen);
    } else {
        match spec_compile(es[i], si, env, defines, funs, None, acc.gen) {
            Ok(c) => lemma_own_break_in_block(
                es,
                i + 1,
                j,
                si,
                env,
                defines,
                funs,
                Compiled {
                    code: acc.code + c.code,
                    min_si: min32(acc.min_si, c.min_si),
                    gen: c.gen,
                },
            ),
            Err(_) => {},
        }
    }
}

proof fn lemma_own_break_in_args(
    args: Seq<ExprView>,
    k: int,
    j: int,
    si: i32,
    env: Map<Seq<char>, i32>,
    defines: Map<Seq<char>, i32>,
    funs: Map<Seq<char>, usize>,
    acc: Compiled,
)
    requires
        0 <= j < k <= args.len(),
        has_own_break(args[j]),
    ensures
        spec_compile_args(args, k, si, env, defines, funs, None, acc) is Err,
    decreases args, 0int, k,
{
    if k - 1 == j {
        lemma_own_break_is_rejected(args[j], si, env, defines, funs, acc.gen);
    } else {
        match spec_compile(args[k - 1], si, env, defines, funs, None, acc.gen) {
            Ok(c) => lemma_own_break_in_args(
                args,
                k - 1,
                j,
                si,
                env,
                defines,
                funs,
                Compiled {
                    code: (acc.code + c.code).push(InstrView::IPush(rax())),
                    min_si: min32(acc.min_si, c.min_si),
                    gen: c.gen,
                },
            ),
            Err(_) => {},
        }
    }
}

proof fn lemma_own_break_in_let(
    e: ExprView,
    i: int,
    si: i32,
    env: Map<Seq<char>, i32>,
    defines: Map<Seq<char>, i32>,
    funs: Map<Seq<char>, usize>,
    acc: Compiled,
)
    requires
        e is Let,
        0 <= i,
        (exists|j: int| i <= j < e->Let_0.len() && has_own_break(#[trigger] e->Let_0[j].1))
            || has_own_break(*e->Let_1),
    ensures
        spec_compile_let(e, i, si, env, defines, funs, None, acc) is Err,
    decreases e, 0int, e->Let_0.len() - i,
{
    let bindings = e->Let_0;
    let body = *e->Let_1;
    if i >= bindings.len() {
        lemma_own_break_is_rejected(body, si, env, defines, funs, acc.gen);
    } else if si >= i32::MIN + 8 {
        let below = (si - 8) as i32;
        if has_own_break(bindings[i].1) {
            lemma_own_break_is_rejected(bindings[i].1, below, env, defines, funs, acc.gen);
        } else {
            match spec_compile(bindings[i].1, below, env, defines, funs, None, acc.gen) {
                Ok(c) => {
                    if exists|j: int| i <= j < bindings.len() && has_own_break(#[trigger] bindings[j].1) {
                        let j = choose|j: int|
                            i <= j < bindings.len() && has_own_break(#[trigger] bindings[j].1);
                        assert(i + 1 <= j < bindings.len() && has_own_break(bindings[j].1));
                    }
                    lemma_own_break_in_let(
                        e,
                        i + 1,
                        below,
                        env.insert(bindings[i].0, si),
                        defines,
                        funs,
                        Compiled {
                            code: (acc.code + c.code).push(InstrView::IMov(slot(si), rax())),
                            min_si: min32(min32(acc.min_si, c.min_si), si),
                            gen: c.gen,
                        },
                    );
                },
                Err(_) => {},
            }
        }
    }
}

/// A literal compiles to the load of its tagged word, which the print
/// boundary shows as the literal was written: an integer whose tagged word
/// fits an immediate in decimal, a boolean by its keyword.
pub proof fn lemma_literal_round_trip(
    n: int,
    b: bool,
    si: i32,
    env: Map<Seq<char>, i32>,
    defines: Map<Seq<char>, i32>,
    funs: Map<Seq<char>, usize>,
    loop_end: Option<Seq<char>>,
    gen: CodeGen,
)
    requires
        -0x4000_0000 <= n < 0x4000_0000,
    ensures
        spec_compile(ExprView::Number(n), si, env, defines, funs, loop_end, gen) == Ok::<
            Compiled,
            CompileErrorView,
        >(
            Compiled {
                code: seq![InstrView::IMov(rax(), Val::Imm(encode(Value::Int(n)) as i32))],
                min_si: si,
                gen,
            },
        ),
        encode(Value::Int(n)) as i32 == encode(Value::Int(n)),
        spec_print_result(encode(Value::Int(n)) as i64) == Ok::<Seq<char>, Seq<char>>(
            crate::text::int_text(n),
        ),
        spec_compile(ExprView::Boolean(b), si, env, defines, funs, loop_end, gen) == Ok::<
            Compiled,
            CompileErrorView,
        >(
            Compiled {
                code: seq![InstrView::IMov(rax(), Val::Imm(encode(Value::Bool(b)) as i32))],
                min_si: si,
                gen,
            },
        ),
        spec_print_result(encode(Value::Bool(b)) as i64) == Ok::<Seq<char>, Seq<char>>(
            if b {
                "true"@
            } else {
                "false"@
            },
        ),
{
}

/// An integer literal whose tagged word does not fit an immediate is refused
/// and yields no code.
pub proof fn lemma_wide_literal_is_rejected(
    n: int,
    si: i32,
    env: Map<Seq<char>, i32>,
    defines: Map<Seq<char>, i32>,
    funs: Map<Seq<char>, usize>,
    loop_end: Option<Seq<char>>,
    gen: CodeGen,
)
    requires
        n < -0x4000_0000 || n >= 0x4000_0000,
    ensures
        spec_compile(ExprView::Number(n), si, env, defines, funs, loop_end, gen) is Err,
{
}

} // verus!
