//! From parenthesised trees to the abstract syntax.
//!
//! The reader of the `sexp` crate turns text into a tree of atoms and lists.
//! This module holds that tree as a type of its own and builds expressions,
//! function definitions, programs and session inputs from it. Text or a tree
//! that is not of the language is refused with a message.

use vstd::prelude::*;
use vstd::string::*;
use crate::ast::{Expr, ExprView, FunDefn, FunDefnView, Op1, Op2, Program, ProgramView};
use crate::ast::{ReplEntry, ReplEntryView, Type};
use crate::ast::{bindings_view, defns_view, exprs_view, names_view};
use crate::ast::{lemma_bindings_view_push, lemma_defns_view_push, lemma_exprs_view_push};
use crate::ast::lemma_names_view_push;
use crate::env::{offsets_contains_key, offsets_new, offsets_of, offsets_update};

verus! {

/// A parenthesised tree: a symbol, an integer, a floating-point number (of
/// which only its presence is kept), or a list of trees.
#[derive(Debug)]
pub enum Tree {
    Sym(String),
    Int(i64),
    Float,
    List(Vec<Tree>),
}

/// The mathematical value of a `Tree`.
pub enum TreeView {
    Sym(Seq<char>),
    Int(int),
    Float,
    List(Seq<TreeView>),
}

/// The value of `t`.
pub open spec fn tree_view(t: Tree) -> TreeView
    decreases t,
{
    match t {
        Tree::Sym(s) => TreeView::Sym(s@),
        Tree::Int(n) => TreeView::Int(n as int),
        Tree::Float => TreeView::Float,
        Tree::List(ts) => TreeView::List(trees_view(ts@)),
    }
}

/// The values of a list of trees.
pub open spec fn trees_view(ts: Seq<Tree>) -> Seq<TreeView>
    decreases ts,
{
    Seq::new(ts.len(), |i: int| if 0 <= i < ts.len() { tree_view(ts[i]) } else { TreeView::Float })
}

impl View for Tree {
    type V = TreeView;

    open spec fn view(&self) -> TreeView {
        tree_view(*self)
    }
}

/// The view of a list of trees has the views of its items, in order.
pub proof fn lemma_trees_view(ts: Seq<Tree>)
    ensures
        trees_view(ts).len() == ts.len(),
        forall|i: int| 0 <= i < ts.len() ==> (#[trigger] trees_view(ts)[i]) == tree_view(ts[i]),
{
}

/// What the reader of the `sexp` crate makes of a text: the tree that it
/// spells, or nothing where the text spells none.
pub uninterp spec fn sexp_parse(text: Seq<char>) -> Option<TreeView>;

#[verifier::external_type_specification]
#[verifier::external_body]
pub struct ExSexp(sexp::Sexp);

/// Copies a tree of the `sexp` crate, variant by variant; of a
/// floating-point atom only its presence is kept.
#[verifier::external_body]
fn tree_of(s: &sexp::Sexp) -> Tree {
    match s {
        sexp::Sexp::Atom(sexp::Atom::S(name)) => Tree::Sym(name.clone()),
        sexp::Sexp::Atom(sexp::Atom::I(n)) => Tree::Int(*n),
        sexp::Sexp::Atom(sexp::Atom::F(_)) => Tree::Float,
        sexp::Sexp::List(items) => Tree::List(items.iter().map(tree_of).collect()),
    }
}

/// `sexp::parse`: reads one parenthesised tree from `text`. The result is a
/// function of the text alone; nothing more is claimed of it.
#[verifier::external_body]
fn read_tree(text: &str) -> (r: Option<Tree>)
    ensures
        match r {
            Some(t) => sexp_parse(text@) == Some(t@),
            None => sexp_parse(text@).is_none(),
        },
{
    match sexp::parse(text) {
        Ok(s) => Some(tree_of(&s)),
        Err(_) => None,
    }
}

/// Whether `s` is a word of the language, which no variable, parameter or
/// function may be named.
pub open spec fn spec_is_keyword(s: Seq<char>) -> bool {
    s == "let"@ || s == "add1"@ || s == "sub1"@ || s == "isnum"@ || s == "isbool"@ || s == "+"@
        || s == "-"@ || s == "*"@ || s == "<"@ || s == ">"@ || s == ">="@ || s == "<="@ || s
        == "="@ || s == "if"@ || s == "block"@ || s == "loop"@ || s == "break"@ || s == "set!"@
        || s == "true"@ || s == "false"@ || s == "input"@ || s == "define"@ || s == "fun"@ || s
        == "print"@
}

/// The type that a tree names.
pub open spec fn spec_parse_type(t: TreeView) -> Result<Type, Seq<char>> {
    match t {
        TreeView::Sym(name) => if name == "Num"@ {
            Ok(Type::Num)
        } else if name == "Bool"@ {
            Ok(Type::Bool)
        } else if name == "Any"@ {
            Ok(Type::Any)
        } else if name == "Nothing"@ {
            Ok(Type::Nothing)
        } else {
            Err("Invalid type: "@ + name)
        },
        _ => Err("Invalid type"@),
    }
}

/// The message for a form with the wrong number of operands.
pub open spec fn msg_takes(prefix: Seq<char>, op: Seq<char>, what: Seq<char>) -> Seq<char> {
    prefix + op + what
}

/// The expression that a tree spells.
///
/// An integer is a literal if its tagged word fits an immediate; `true`,
/// `false` and `input` are themselves; another symbol is an identifier
/// unless it is a keyword. A list is a form by its first symbol, with a
/// fixed number of operands, or else the call of a function.
pub open spec fn spec_parse_expr(t: TreeView) -> Result<ExprView, Seq<char>>
    decreases t, 2int, 0int,
{
    match t {
        TreeView::Int(n) => if -0x4000_0000 <= n < 0x4000_0000 {
            Ok(ExprView::Number(n))
        } else {
            Err("Invalid: number out of range"@)
        },
        TreeView::Float => Err("floats not supported yet :)"@),
        TreeView::Sym(name) => if name == "true"@ {
            Ok(ExprView::Boolean(true))
        } else if name == "false"@ {
            Ok(ExprView::Boolean(false))
        } else if name == "input"@ {
            Ok(ExprView::Input)
        } else if spec_is_keyword(name) {
            Err("keyword"@)
        } else {
            Ok(ExprView::Id(name))
        },
        TreeView::List(items) => if items.len() == 0 {
            Err("empty expr"@)
        } else {
            match items[0] {
                TreeView::Sym(op) => spec_parse_form(t, op),
                _ => Err("expected operation"@),
            }
        },
    }
}

/// The form with one operand.
pub open spec fn spec_parse_unary(t: TreeView, op: Op1, msg: Seq<char>) -> Result<
    ExprView,
    Seq<char>,
>
    decreases t, 0int, 0int,
{
    if let TreeView::List(items) = t {
        if items.len() != 2 {
            Err(msg)
        } else {
            match spec_parse_expr(items[1]) {
                Err(m) => Err(m),
                Ok(a) => Ok(ExprView::UnOp(op, Box::new(a))),
            }
        }
    } else {
        Err(msg)
    }
}

/// The form with two operands.
pub open spec fn spec_parse_binary(t: TreeView, op: Op2, msg: Seq<char>) -> Result<
    ExprView,
    Seq<char>,
>
    decreases t, 0int, 0int,
{
    if let TreeView::List(items) = t {
        if items.len() != 3 {
            Err(msg)
        } else {
            match spec_parse_expr(items[1]) {
                Err(m) => Err(m),
                Ok(a) => match spec_parse_expr(items[2]) {
                    Err(m) => Err(m),
                    Ok(b) => Ok(ExprView::BinOp(op, Box::new(a), Box::new(b))),
                },
            }
        }
    } else {
        Err(msg)
    }
}

/// The expression that the list `t` spells, whose first item is the symbol
/// `op`.
pub open spec fn spec_parse_form(t: TreeView, op: Seq<char>) -> Result<ExprView, Seq<char>>
    decreases t, 1int, 0int,
{
    if let TreeView::List(items) = t {
        if op == "add1"@ {
            spec_parse_unary(t, Op1::Add1, msg_takes("Invalid: "@, op, " takes exactly one argument"@))
        } else if op == "sub1"@ {
            spec_parse_unary(t, Op1::Sub1, msg_takes("Invalid: "@, op, " takes exactly one argument"@))
        } else if op == "isnum"@ {
            spec_parse_unary(t, Op1::IsNum, "Invalid: isnum takes exactly one argument"@)
        } else if op == "isbool"@ {
            spec_parse_unary(t, Op1::IsBool, "Invalid: isbool takes exactly one argument"@)
        } else if op == "+"@ {
            spec_parse_binary(t, Op2::Plus, msg_takes(""@, op, " takes exactly two arguments"@))
        } else if op == "-"@ {
            spec_parse_binary(t, Op2::Minus, msg_takes(""@, op, " takes exactly two arguments"@))
        } else if op == "*"@ {
            spec_parse_binary(t, Op2::Times, msg_takes(""@, op, " takes exactly two arguments"@))
        } else if op == "<"@ {
            spec_parse_binary(t, Op2::Less, msg_takes("Invalid: "@, op, " takes exactly two arguments"@))
        } else if op == ">"@ {
            spec_parse_binary(t, Op2::Greater, msg_takes("Invalid: "@, op, " takes exactly two arguments"@))
        } else if op == ">="@ {
            spec_parse_binary(
                t,
                Op2::GreaterEqual,
                msg_takes("Invalid: "@, op, " takes exactly two arguments"@),
            )
        } else if op == "<="@ {
            spec_parse_binary(t, Op2::LessEqual, msg_takes("Invalid: "@, op, " takes exactly two arguments"@))
        } else if op == "="@ {
            spec_parse_binary(t, Op2::Equal, msg_takes("Invalid: "@, op, " takes exactly two arguments"@))
        } else if op == "let"@ {
            spec_parse_let(t)
        } else if op == "if"@ {
            spec_parse_if(t)
        } else if op == "block"@ {
            if items.len() < 2 {
                Err("Invalid: block requires at least one expression"@)
            } else {
                match spec_parse_items(t, 1, Seq::empty()) {
                    Err(m) => Err(m),
                    Ok(es) => Ok(ExprView::Block(es)),
                }
            }
        } else if op == "set!"@ {
            spec_parse_set(t)
        } else if op == "loop"@ {
            if items.len() != 2 {
                Err("Invalid: loop requires exactly one argument"@)
            } else {
                match spec_parse_expr(items[1]) {
                    Err(m) => Err(m),
                    Ok(a) => Ok(ExprView::Loop(Box::new(a))),
                }
            }
        } else if op == "break"@ {
            if items.len() != 2 {
                Err("Invalid: break requires exactly one argument"@)
            } else {
                match spec_parse_expr(items[1]) {
                    Err(m) => Err(m),
                    Ok(a) => Ok(ExprView::Break(Box::new(a))),
                }
            }
        } else if op == "print"@ {
            spec_parse_unary(t, Op1::Print, "Invalid: print takes exactly one argument"@)
        } else if op == "cast"@ {
            if items.len() != 3 {
                Err("Invalid: cast takes exactly two arguments"@)
            } else {
                match spec_parse_type(items[1]) {
                    Err(m) => Err(m),
                    Ok(ty) => match spec_parse_expr(items[2]) {
                        Err(m) => Err(m),
                        Ok(a) => Ok(ExprView::Cast(Box::new(a), ty)),
                    },
                }
            }
        } else if spec_is_keyword(op) {
            Err("unknown operation "@ + op)
        } else {
            match spec_parse_items(t, 1, Seq::empty()) {
                Err(m) => Err(m),
                Ok(args) => Ok(ExprView::Call(op, args)),
            }
        }
    } else {
        Err("expected operation"@)
    }
}

/// The expressions that the items of the list `t` from index `i` on spell,
/// after `acc`.
pub open spec fn spec_parse_items(t: TreeView, i: int, acc: Seq<ExprView>) -> Result<
    Seq<ExprView>,
    Seq<char>,
>
    decreases t, 0int, t->List_0.len() - i,
{
    if let TreeView::List(items) = t {
        if i < 0 || i >= items.len() {
            Ok(acc)
        } else {
            match spec_parse_expr(items[i]) {
                Err(m) => Err(m),
                Ok(e) => spec_parse_items(t, i + 1, acc.push(e)),
            }
        }
    } else {
        Ok(acc)
    }
}

/// The binding that a tree spells: a list of a name, which is no keyword,
/// and an expression.
pub open spec fn spec_parse_bind(t: TreeView) -> Result<(Seq<char>, ExprView), Seq<char>>
    decreases t, 0int, 0int,
{
    match t {
        TreeView::List(items) => if items.len() != 2 {
            Err("Invalid binding"@)
        } else {
            match items[0] {
                TreeView::Sym(name) => if spec_is_keyword(name) {
                    Err("keyword"@)
                } else {
                    match spec_parse_expr(items[1]) {
                        Err(m) => Err(m),
                        Ok(e) => Ok((name, e)),
                    }
                },
                _ => Err("Invalid binding: expected identifier"@),
            }
        },
        _ => Err("Invalid binding: expected list"@),
    }
}

/// The bindings that the second item of a `let` spells: a list of bindings,
/// or one binding written without the list around it, which is taken for
/// one where the list has two items and the first is a symbol.
pub open spec fn spec_parse_bindings(t: TreeView) -> Result<
    Seq<(Seq<char>, ExprView)>,
    Seq<char>,
>
    decreases t, 2int, 0int,
{
    match t {
        TreeView::List(items) => if items.len() == 2 && items[0] is Sym {
            match spec_parse_bind(t) {
                Err(m) => Err(m),
                Ok(b) => Ok(seq![b]),
            }
        } else {
            spec_parse_binds(t, 0, Seq::empty())
        },
        _ => Err("let bindings must be a list"@),
    }
}

/// The bindings that the items of the list `t` from index `i` on spell,
/// after `acc`.
pub open spec fn spec_parse_binds(
    t: TreeView,
    i: int,
    acc: Seq<(Seq<char>, ExprView)>,
) -> Result<Seq<(Seq<char>, ExprView)>, Seq<char>>
    decreases t, 1int, t->List_0.len() - i,
{
    if let TreeView::List(items) = t {
        if i < 0 || i >= items.len() {
            Ok(acc)
        } else {
            match spec_parse_bind(items[i]) {
                Err(m) => Err(m),
                Ok(b) => spec_parse_binds(t, i + 1, acc.push(b)),
            }
        }
    } else {
        Ok(acc)
    }
}

fn same(s: &String, lit: &str) -> (r: bool)
    ensures
        r == (s@ == lit@),
{
    *s == String::from_str(lit)
}

fn keyword(s: &String) -> (r: bool)
    ensures
        r == spec_is_keyword(s@),
{
    same(s, "let") || same(s, "add1") || same(s, "sub1") || same(s, "isnum") || same(s, "isbool")
        || same(s, "+") || same(s, "-") || same(s, "*") || same(s, "<") || same(s, ">") || same(
        s,
        ">=",
    ) || same(s, "<=") || same(s, "=") || same(s, "if") || same(s, "block") || same(s, "loop")
        || same(s, "break") || same(s, "set!") || same(s, "true") || same(s, "false") || same(
        s,
        "input",
    ) || same(s, "define") || same(s, "fun") || same(s, "print")
}

/// Whether `s` is a word of the language.
pub fn is_keyword(s: &str) -> (r: bool)
    ensures
        r == spec_is_keyword(s@),
{
    keyword(&String::from_str(s))
}

fn text2(a: &str, b: &str) -> (r: String)
    ensures
        r@ == a@ + b@,
{
    let mut r = String::from_str(a);
    r.append(b);
    r
}

fn takes(prefix: &str, op: &String, what: &str) -> (r: String)
    ensures
        r@ == msg_takes(prefix@, op@, what@),
{
    let mut r = String::from_str(prefix);
    r.append(op.as_str());
    r.append(what);
    r
}

fn fail<T>(msg: &str) -> (r: Result<T, String>)
    ensures
        r matches Err(m) && m@ == msg@,
{
    Err(String::from_str(msg))
}

/// The value of a parsed type or a message.
pub open spec fn type_result_view(r: Result<Type, String>) -> Result<Type, Seq<char>> {
    match r {
        Ok(t) => Ok(t),
        Err(m) => Err(m@),
    }
}

/// The value of a parsed expression or a message.
pub open spec fn expr_result_view(r: Result<Expr, String>) -> Result<ExprView, Seq<char>> {
    match r {
        Ok(e) => Ok(e@),
        Err(m) => Err(m@),
    }
}

/// The value of a parsed binding or a message.
pub open spec fn bind_result_view(r: Result<(String, Expr), String>) -> Result<
    (Seq<char>, ExprView),
    Seq<char>,
> {
    match r {
        Ok((name, e)) => Ok((name@, e@)),
        Err(m) => Err(m@),
    }
}

/// The value of parsed expressions or a message.
pub open spec fn exprs_result_view(r: Result<Vec<Expr>, String>) -> Result<
    Seq<ExprView>,
    Seq<char>,
> {
    match r {
        Ok(es) => Ok(exprs_view(es@)),
        Err(m) => Err(m@),
    }
}

/// The value of parsed bindings or a message.
pub open spec fn binds_result_view(r: Result<Vec<(String, Expr)>, String>) -> Result<
    Seq<(Seq<char>, ExprView)>,
    Seq<char>,
> {
    match r {
        Ok(bs) => Ok(bindings_view(bs@)),
        Err(m) => Err(m@),
    }
}

/// The type that `s` names.
pub fn parse_type(s: &Tree) -> (r: Result<Type, String>)
    ensures
        type_result_view(r) == spec_parse_type(s@),
{
    match s {
        Tree::Sym(t) => {
            if same(t, "Num") {
                Ok(Type::Num)
            } else if same(t, "Bool") {
                Ok(Type::Bool)
            } else if same(t, "Any") {
                Ok(Type::Any)
            } else if same(t, "Nothing") {
                Ok(Type::Nothing)
            } else {
                Err(text2("Invalid type: ", t.as_str()))
            }
        },
        _ => fail("Invalid type"),
    }
}

/// The binding that `s` spells.
pub fn parse_bind(s: &Tree) -> (r: Result<(String, Expr), String>)
    ensures
        bind_result_view(r) == spec_parse_bind(s@),
    decreases s, 0int,
{
    match s {
        Tree::List(vec) => {
            proof {
                lemma_trees_view(vec@);
            }
            if vec.len() != 2 {
                return fail("Invalid binding");
            }
            let name = match &vec[0] {
                Tree::Sym(name) => {
                    if keyword(name) {
                        return fail("keyword");
                    }
                    name.clone()
                },
                _ => { return fail("Invalid binding: expected identifier"); },
            };
            match parse_expr(&vec[1]) {
                Ok(expr) => Ok((name, expr)),
                Err(m) => Err(m),
            }
        },
        _ => fail("Invalid binding: expected list"),
    }
}

/// The expression that `s` spells.
pub fn parse_expr(s: &Tree) -> (r: Result<Expr, String>)
    ensures
        expr_result_view(r) == spec_parse_expr(s@),
    decreases s, 2int,
{
    match s {
        Tree::Int(n) => {
            if *n < -0x4000_0000 || *n >= 0x4000_0000 {
                fail("Invalid: number out of range")
            } else {
                Ok(Expr::Number(*n as i32))
            }
        },
        Tree::Float => fail("floats not supported yet :)"),
        Tree::Sym(name) => {
            if same(name, "true") {
                Ok(Expr::Boolean(true))
            } else if same(name, "false") {
                Ok(Expr::Boolean(false))
            } else if same(name, "input") {
                Ok(Expr::Input)
            } else if keyword(name) {
                fail("keyword")
            } else {
                Ok(Expr::Id(name.clone()))
            }
        },
        Tree::List(vec) => {
            proof {
                lemma_trees_view(vec@);
            }
            if vec.len() == 0 {
                return fail("empty expr");
            }
            match &vec[0] {
                Tree::Sym(op) => parse_form(s, op),
                _ => fail("expected operation"),
            }
        },
    }
}

fn parse_unary(s: &Tree, op: Op1, msg: String) -> (r: Result<Expr, String>)
    requires
        s is List,
    ensures
        expr_result_view(r) == spec_parse_unary(s@, op, msg@),
    decreases s, 0int,
{
    match s {
        Tree::List(vec) => {
            proof {
                lemma_trees_view(vec@);
            }
            if vec.len() != 2 {
                return Err(msg);
            }
            match parse_expr(&vec[1]) {
                Ok(a) => Ok(Expr::UnOp(op, Box::new(a))),
                Err(m) => Err(m),
            }
        },
        _ => Err(msg),
    }
}

fn parse_binary(s: &Tree, op: Op2, msg: String) -> (r: Result<Expr, String>)
    requires
        s is List,
    ensures
        expr_result_view(r) == spec_parse_binary(s@, op, msg@),
    decreases s, 0int,
{
    match s {
        Tree::List(vec) => {
            proof {
                lemma_trees_view(vec@);
            }
            if vec.len() != 3 {
                return Err(msg);
            }
            let a = match parse_expr(&vec[1]) {
                Ok(a) => a,
                Err(m) => { return Err(m); },
            };
            match parse_expr(&vec[2]) {
                Ok(b) => Ok(Expr::BinOp(op, Box::new(a), Box::new(b))),
                Err(m) => Err(m),
            }
        },
        _ => Err(msg),
    }
}

#[verifier::loop_isolation(false)]
fn parse_items(s: &Tree, from: usize) -> (r: Result<Vec<Expr>, String>)
    requires
        s is List,
    ensures
        exprs_result_view(r) == spec_parse_items(s@, from as int, Seq::empty()),
    decreases s, 0int,
{
    match s {
        Tree::List(vec) => {
            proof {
                lemma_trees_view(vec@);
                lemma_exprs_view_push(Seq::empty(), Expr::Input);
            }
            let mut out: Vec<Expr> = Vec::new();
            let mut i: usize = from;
            while i < vec.len()
                invariant
                    from <= i,
                    spec_parse_items(s@, from as int, Seq::empty()) == spec_parse_items(
                        s@,
                        i as int,
                        exprs_view(out@),
                    ),
                decreases vec@.len() - i,
            {
                let e = match parse_expr(&vec[i]) {
                    Ok(e) => e,
                    Err(m) => { return Err(m); },
                };
                proof {
                    lemma_exprs_view_push(out@, e);
                }
                out.push(e);
                i += 1;
            }
            Ok(out)
        },
        _ => Ok(Vec::new()),
    }
}

#[verifier::loop_isolation(false)]
fn parse_binds(s: &Tree) -> (r: Result<Vec<(String, Expr)>, String>)
    requires
        s is List,
    ensures
        binds_result_view(r) == spec_parse_binds(s@, 0, Seq::empty()),
    decreases s, 1int,
{
    match s {
        Tree::List(vec) => {
            proof {
                lemma_trees_view(vec@);
                assert(bindings_view(Seq::<(String, Expr)>::empty()) =~= Seq::<
                    (Seq<char>, ExprView),
                >::empty());
            }
            let mut out: Vec<(String, Expr)> = Vec::new();
            let mut i: usize = 0;
            while i < vec.len()
                invariant
                    spec_parse_binds(s@, 0, Seq::empty()) == spec_parse_binds(
                        s@,
                        i as int,
                        bindings_view(out@),
                    ),
                decreases vec@.len() - i,
            {
                let (name, e) = match parse_bind(&vec[i]) {
                    Ok(b) => b,
                    Err(m) => { return Err(m); },
                };
                proof {
                    lemma_bindings_view_push(out@, name, e);
                }
                out.push((name, e));
                i += 1;
            }
            Ok(out)
        },
        _ => Ok(Vec::new()),
    }
}

fn parse_bindings(s: &Tree) -> (r: Result<Vec<(String, Expr)>, String>)
    ensures
        binds_result_view(r) == spec_parse_bindings(s@),
    decreases s, 2int,
{
    match s {
        Tree::List(list) => {
            proof {
                lemma_trees_view(list@);
            }
            let single = list.len() == 2 && match &list[0] {
                Tree::Sym(_) => true,
                _ => false,
            };
            if single {
                match parse_bind(s) {
                    Ok((name, e)) => {
                        let mut out: Vec<(String, Expr)> = Vec::new();
                        proof {
                            lemma_bindings_view_push(out@, name, e);
                        }
                        out.push((name, e));
                        Ok(out)
                    },
                    Err(m) => Err(m),
                }
            } else {
                parse_binds(s)
            }
        },
        _ => fail("let bindings must be a list"),
    }
}

#[verifier::rlimit(50)]
fn parse_form(s: &Tree, op: &String) -> (r: Result<Expr, String>)
    requires
        s is List,
    ensures
        expr_result_view(r) == spec_parse_form(s@, op@),
    decreases s, 1int,
{
    match s {
        Tree::List(vec) => {
            proof {
                lemma_trees_view(vec@);
            }
            if same(op, "add1") {
                parse_unary(s, Op1::Add1, takes("Invalid: ", op, " takes exactly one argument"))
            } else if same(op, "sub1") {
                parse_unary(s, Op1::Sub1, takes("Invalid: ", op, " takes exactly one argument"))
            } else if same(op, "isnum") {
                parse_unary(
                    s,
                    Op1::IsNum,
                    String::from_str("Invalid: isnum takes exactly one argument"),
                )
            } else if same(op, "isbool") {
                parse_unary(
                    s,
                    Op1::IsBool,
                    String::from_str("Invalid: isbool takes exactly one argument"),
                )
            } else if same(op, "+") {
                parse_binary(s, Op2::Plus, takes("", op, " takes exactly two arguments"))
            } else if same(op, "-") {
                parse_binary(s, Op2::Minus, takes("", op, " takes exactly two arguments"))
            } else if same(op, "*") {
                parse_binary(s, Op2::Times, takes("", op, " takes exactly two arguments"))
            } else if same(op, "<") {
                parse_binary(s, Op2::Less, takes("Invalid: ", op, " takes exactly two arguments"))
            } else if same(op, ">") {
                parse_binary(
                    s,
                    Op2::Greater,
                    takes("Invalid: ", op, " takes exactly two arguments"),
                )
            } else if same(op, ">=") {
                parse_binary(
                    s,
                    Op2::GreaterEqual,
                    takes("Invalid: ", op, " takes exactly two arguments"),
                )
            } else if same(op, "<=") {
                parse_binary(
                    s,
                    Op2::LessEqual,
                    takes("Invalid: ", op, " takes exactly two arguments"),
                )
            } else if same(op, "=") {
                parse_binary(s, Op2::Equal, takes("Invalid: ", op, " takes exactly two arguments"))
            } else if same(op, "let") {
                parse_let(s)
            } else if same(op, "if") {
                parse_if(s)
            } else if same(op, "block") {
                if vec.len() < 2 {
                    return fail("Invalid: block requires at least one expression");
                }
                match parse_items(s, 1) {
                    Ok(es) => Ok(Expr::Block(es)),
                    Err(m) => Err(m),
                }
            } else if same(op, "set!") {
                parse_set(s)
            } else if same(op, "loop") {
                if vec.len() != 2 {
                    return fail("Invalid: loop requires exactly one argument");
                }
                match parse_expr(&vec[1]) {
                    Ok(a) => Ok(Expr::Loop(Box::new(a))),
                    Err(m) => Err(m),
                }
            } else if same(op, "break") {
                if vec.len() != 2 {
                    return fail("Invalid: break requires exactly one argument");
                }
                match parse_expr(&vec[1]) {
                    Ok(a) => Ok(Expr::Break(Box::new(a))),
                    Err(m) => Err(m),
                }
            } else if same(op, "print") {
                parse_unary(
                    s,
                    Op1::Print,
                    String::from_str("Invalid: print takes exactly one argument"),
                )
            } else if same(op, "cast") {
                if vec.len() != 3 {
                    return fail("Invalid: cast takes exactly two arguments");
                }
                let ty = match parse_type(&vec[1]) {
                    Ok(ty) => ty,
                    Err(m) => { return Err(m); },
                };
                match parse_expr(&vec[2]) {
                    Ok(a) => Ok(Expr::Cast(Box::new(a), ty)),
                    Err(m) => Err(m),
                }
            } else if keyword(op) {
                Err(text2("unknown operation ", op.as_str()))
            } else {
                match parse_items(s, 1) {
                    Ok(args) => Ok(Expr::Call(op.clone(), args)),
                    Err(m) => Err(m),
                }
            }
        },
        _ => fail("expected operation"),
    }
}

/// The value of a `let` form or a message.
pub open spec fn spec_parse_let(t: TreeView) -> Result<ExprView, Seq<char>>
    decreases t, 0int, 1int,
{
    if let TreeView::List(items) = t {
        if items.len() != 3 {
            Err("let takes exactly two arguments"@)
        } else {
            match spec_parse_bindings(items[1]) {
                Err(m) => Err(m),
                Ok(bindings) => if bindings.len() == 0 {
                    Err("let requires at least one binding"@)
                } else {
                    match spec_parse_expr(items[2]) {
                        Err(m) => Err(m),
                        Ok(body) => Ok(ExprView::Let(bindings, Box::new(body))),
                    }
                },
            }
        }
    } else {
        Err("expected operation"@)
    }
}

fn parse_let(s: &Tree) -> (r: Result<Expr, String>)
    requires
        s is List,
    ensures
        expr_result_view(r) == spec_parse_let(s@),
    decreases s, 0int,
{
    match s {
        Tree::List(vec) => {
            proof {
                lemma_trees_view(vec@);
            }
            if vec.len() != 3 {
                return fail("let takes exactly two arguments");
            }
            let bindings = match parse_bindings(&vec[1]) {
                Ok(b) => b,
                Err(m) => { return Err(m); },
            };
            proof {
                crate::ast::lemma_bindings_view(bindings@);
            }
            if bindings.len() == 0 {
                return fail("let requires at least one binding");
            }
            match parse_expr(&vec[2]) {
                Ok(body) => Ok(Expr::Let(bindings, Box::new(body))),
                Err(m) => Err(m),
            }
        },
        _ => fail("expected operation"),
    }
}

/// The value of an `if` form or a message.
pub open spec fn spec_parse_if(t: TreeView) -> Result<ExprView, Seq<char>>
    decreases t, 0int, 1int,
{
    if let TreeView::List(items) = t {
        if items.len() != 4 {
            Err("Invalid: if takes exactly three arguments"@)
        } else {
            match spec_parse_expr(items[1]) {
                Err(m) => Err(m),
                Ok(c) => match spec_parse_expr(items[2]) {
                    Err(m) => Err(m),
                    Ok(a) => match spec_parse_expr(items[3]) {
                        Err(m) => Err(m),
                        Ok(b) => Ok(ExprView::If(Box::new(c), Box::new(a), Box::new(b))),
                    },
                },
            }
        }
    } else {
        Err("expected operation"@)
    }
}

fn parse_if(s: &Tree) -> (r: Result<Expr, String>)
    requires
        s is List,
    ensures
        expr_result_view(r) == spec_parse_if(s@),
    decreases s, 0int,
{
    match s {
        Tree::List(vec) => {
            proof {
                lemma_trees_view(vec@);
            }
            if vec.len() != 4 {
                return fail("Invalid: if takes exactly three arguments");
            }
            let c = match parse_expr(&vec[1]) {
                Ok(e) => e,
                Err(m) => { return Err(m); },
            };
            let a = match parse_expr(&vec[2]) {
                Ok(e) => e,
                Err(m) => { return Err(m); },
            };
            match parse_expr(&vec[3]) {
                Ok(b) => Ok(Expr::If(Box::new(c), Box::new(a), Box::new(b))),
                Err(m) => Err(m),
            }
        },
        _ => fail("expected operation"),
    }
}

/// The value of a `set!` form or a message.
pub open spec fn spec_parse_set(t: TreeView) -> Result<ExprView, Seq<char>>
    decreases t, 0int, 1int,
{
    if let TreeView::List(items) = t {
        if items.len() != 3 {
            Err("Invalid: set! requires exactly two arguments"@)
        } else {
            match items[1] {
                TreeView::Sym(name) => if spec_is_keyword(name) {
                    Err("keyword"@)
                } else {
                    match spec_parse_expr(items[2]) {
                        Err(m) => Err(m),
                        Ok(a) => Ok(ExprView::SetVar(name, Box::new(a))),
                    }
                },
                _ => Err("Invalid: first argument to set! must be an identifier"@),
            }
        }
    } else {
        Err("expected operation"@)
    }
}

fn parse_set(s: &Tree) -> (r: Result<Expr, String>)
    requires
        s is List,
    ensures
        expr_result_view(r) == spec_parse_set(s@),
    decreases s, 0int,
{
    match s {
        Tree::List(vec) => {
            proof {
                lemma_trees_view(vec@);
            }
            if vec.len() != 3 {
                return fail("Invalid: set! requires exactly two arguments");
            }
            let name = match &vec[1] {
                Tree::Sym(name) => {
                    if keyword(name) {
                        return fail("keyword");
                    }
                    name.clone()
                },
                _ => { return fail("Invalid: first argument to set! must be an identifier"); },
            };
            match parse_expr(&vec[2]) {
                Ok(a) => Ok(Expr::SetVar(name, Box::new(a))),
                Err(m) => Err(m),
            }
        },
        _ => fail("expected operation"),
    }
}

/// The parameters that the items of the signature `sig` from index `i` on
/// spell, after `params` with the annotations `types`: each a name, or a
/// list of a name, a colon and a type. A keyword and a name that occurs
/// twice are refused.
pub open spec fn spec_parse_params(
    sig: Seq<TreeView>,
    i: int,
    params: Seq<Seq<char>>,
    types: Seq<Type>,
) -> Result<(Seq<Seq<char>>, Seq<Type>), Seq<char>>
    decreases sig.len() - i,
{
    if i < 0 || i >= sig.len() {
        Ok((params, types))
    } else {
        match sig[i] {
            TreeView::Sym(name) => if spec_is_keyword(name) {
                Err("keyword"@)
            } else if params.contains(name) {
                Err("Duplicate binding"@)
            } else {
                spec_parse_params(sig, i + 1, params.push(name), types)
            },
            TreeView::List(p) => if p.len() != 3 {
                Err("Parameter must be identifier"@)
            } else {
                match (p[0], p[1]) {
                    (TreeView::Sym(name), TreeView::Sym(colon)) => if colon != ":"@ {
                        Err("Expected ':'"@)
                    } else if spec_is_keyword(name) {
                        Err("keyword"@)
                    } else if params.contains(name) {
                        Err("Duplicate binding"@)
                    } else {
                        match spec_parse_type(p[2]) {
                            Err(m) => Err(m),
                            Ok(ty) => spec_parse_params(
                                sig,
                                i + 1,
                                params.push(name),
                                types.push(ty),
                            ),
                        }
                    },
                    _ => Err("Invalid parameter annotation"@),
                }
            },
            _ => Err("Parameter must be identifier"@),
        }
    }
}

/// The definition with the given name, parameters, annotations and result
/// type whose body the tree `body` spells. The parameters are annotated if
/// one of them is.
pub open spec fn spec_parse_body(
    name: Seq<char>,
    params: Seq<Seq<char>>,
    types: Seq<Type>,
    return_type: Option<Type>,
    body: TreeView,
) -> Result<FunDefnView, Seq<char>> {
    match spec_parse_expr(body) {
        Err(m) => Err(m),
        Ok(e) => Ok(
            FunDefnView {
                name,
                params,
                body: e,
                param_types: if types.len() > 0 {
                    Some(types)
                } else {
                    None
                },
                return_type,
            },
        ),
    }
}

/// Whether a tree is the symbol `text`.
pub open spec fn is_sym(t: TreeView, text: Seq<char>) -> bool {
    t matches TreeView::Sym(s) && s == text
}

/// Whether a tree is a body with its result type in front: a list of an
/// arrow, a type and the body.
pub open spec fn is_typed_body(t: TreeView) -> bool {
    t matches TreeView::List(items) && items.len() == 3 && is_sym(items[0], "->"@)
}

/// The function definition that a tree spells: `fun`, the signature (a list
/// of the name and the parameters) and the body, with the result type
/// either as an arrow and a type between signature and body, or in a list
/// with the body.
pub open spec fn spec_parse_defn(t: TreeView) -> Result<FunDefnView, Seq<char>> {
    match t {
        TreeView::List(vec) => if vec.len() != 3 && vec.len() != 5 {
            Err("Invalid function definition"@)
        } else if !is_sym(vec[0], "fun"@) {
            Err("Expected 'fun'"@)
        } else {
            match vec[1] {
                TreeView::List(sig) => if sig.len() == 0 {
                    Err("Function signature cannot be empty"@)
                } else {
                    match sig[0] {
                        TreeView::Sym(name) => match spec_parse_params(
                            sig,
                            1,
                            Seq::empty(),
                            Seq::empty(),
                        ) {
                            Err(m) => Err(m),
                            Ok((params, types)) => if vec.len() == 5 {
                                if !is_sym(vec[2], "->"@) {
                                    Err("Expected '->' in function definition"@)
                                } else {
                                    match spec_parse_type(vec[3]) {
                                        Err(m) => Err(m),
                                        Ok(rt) => spec_parse_body(
                                            name,
                                            params,
                                            types,
                                            Some(rt),
                                            vec[4],
                                        ),
                                    }
                                }
                            } else if is_typed_body(vec[2]) {
                                match spec_parse_type(vec[2]->List_0[1]) {
                                    Err(m) => Err(m),
                                    Ok(rt) => spec_parse_body(
                                        name,
                                        params,
                                        types,
                                        Some(rt),
                                        vec[2]->List_0[2],
                                    ),
                                }
                            } else {
                                spec_parse_body(name, params, types, None, vec[2])
                            },
                        },
                        _ => Err("Function name must be identifier"@),
                    }
                },
                _ => Err("Invalid function signature"@),
            }
        },
        _ => Err("Function definition must be a list"@),
    }
}

/// The value of a parsed definition or a message.
pub open spec fn defn_result_view(r: Result<FunDefn, String>) -> Result<FunDefnView, Seq<char>> {
    match r {
        Ok(d) => Ok(d@),
        Err(m) => Err(m@),
    }
}

fn sym_is(t: &Tree, text: &str) -> (r: bool)
    ensures
        r == is_sym(t@, text@),
{
    match t {
        Tree::Sym(s) => same(s, text),
        _ => false,
    }
}

#[verifier::rlimit(50)]
fn parse_params(sig: &Vec<Tree>) -> (r: Result<(Vec<String>, Vec<Type>), String>)
    ensures
        match r {
            Ok((params, types)) => spec_parse_params(
                trees_view(sig@),
                1,
                Seq::empty(),
                Seq::empty(),
            ) == Ok::<(Seq<Seq<char>>, Seq<Type>), Seq<char>>((names_view(params@), types@)),
            Err(m) => spec_parse_params(trees_view(sig@), 1, Seq::empty(), Seq::empty()) == Err::<
                (Seq<Seq<char>>, Seq<Type>),
                Seq<char>,
            >(m@),
        },
{
    let ghost views = trees_view(sig@);
    proof {
        lemma_trees_view(sig@);
        assert(names_view(Seq::<String>::empty()) =~= Seq::<Seq<char>>::empty());
    }
    let mut params: Vec<String> = Vec::new();
    let mut types: Vec<Type> = Vec::new();
    let mut seen = offsets_new();
    let mut i: usize = 1;
    while i < sig.len()
        invariant
            1 <= i,
            views == trees_view(sig@),
            views.len() == sig@.len(),
            forall|k: int| 0 <= k < sig@.len() ==> (#[trigger] views[k]) == tree_view(sig@[k]),
            forall|n: Seq<char>|
                offsets_of(seen).contains_key(n) <==> names_view(params@).contains(n),
            spec_parse_params(views, 1, Seq::empty(), Seq::empty()) == spec_parse_params(
                views,
                i as int,
                names_view(params@),
                types@,
            ),
        decreases sig@.len() - i,
    {
        let ghost before = names_view(params@);
        match &sig[i] {
            Tree::Sym(p) => {
                if keyword(p) {
                    return fail("keyword");
                }
                if offsets_contains_key(&seen, p) {
                    return fail("Duplicate binding");
                }
                seen = offsets_update(&seen, p.clone(), 0);
                proof {
                    lemma_names_view_push(params@, *p);
                }
                params.push(p.clone());
            },
            Tree::List(p_vec) => {
                proof {
                    lemma_trees_view(p_vec@);
                }
                if p_vec.len() != 3 {
                    return fail("Parameter must be identifier");
                }
                match (&p_vec[0], &p_vec[1]) {
                    (Tree::Sym(p), Tree::Sym(colon)) => {
                        if !same(colon, ":") {
                            return fail("Expected ':'");
                        }
                        if keyword(p) {
                            return fail("keyword");
                        }
                        if offsets_contains_key(&seen, p) {
                            return fail("Duplicate binding");
                        }
                        let ty = match parse_type(&p_vec[2]) {
                            Ok(ty) => ty,
                            Err(m) => { return Err(m); },
                        };
                        seen = offsets_update(&seen, p.clone(), 0);
                        proof {
                            lemma_names_view_push(params@, *p);
                        }
                        params.push(p.clone());
                        types.push(ty);
                    },
                    _ => { return fail("Invalid parameter annotation"); },
                }
            },
            _ => { return fail("Parameter must be identifier"); },
        }
        proof {
            let after = names_view(params@);
            let added = after.last();
            assert(after == before.push(added));
            assert forall|n: Seq<char>| offsets_of(seen).contains_key(n) <==> after.contains(
                n,
            ) by {
                if before.contains(n) {
                    let k = choose|k: int| 0 <= k < before.len() && before[k] == n;
                    assert(after[k] == n);
                }
                if n == added {
                    assert(after[after.len() - 1] == n);
                }
            }
        }
        i += 1;
    }
    Ok((params, types))
}

fn parse_body(
    name: String,
    params: Vec<String>,
    types: Vec<Type>,
    return_type: Option<Type>,
    body: &Tree,
) -> (r: Result<FunDefn, String>)
    ensures
        defn_result_view(r) == spec_parse_body(
            name@,
            names_view(params@),
            types@,
            return_type,
            body@,
        ),
{
    let body = match parse_expr(body) {
        Ok(e) => e,
        Err(m) => { return Err(m); },
    };
    let param_types = if types.len() > 0 {
        Some(types)
    } else {
        None
    };
    Ok(FunDefn { name, params, body: Box::new(body), param_types, return_type })
}

/// The function definition that `s` spells.
pub fn parse_defn(s: &Tree) -> (r: Result<FunDefn, String>)
    ensures
        defn_result_view(r) == spec_parse_defn(s@),
{
    match s {
        Tree::List(vec) => {
            proof {
                lemma_trees_view(vec@);
            }
            if vec.len() != 3 && vec.len() != 5 {
                return fail("Invalid function definition");
            }
            if !sym_is(&vec[0], "fun") {
                return fail("Expected 'fun'");
            }
            let sig = match &vec[1] {
                Tree::List(sig) => sig,
                _ => { return fail("Invalid function signature"); },
            };
            proof {
                lemma_trees_view(sig@);
            }
            if sig.len() == 0 {
                return fail("Function signature cannot be empty");
            }
            let name = match &sig[0] {
                Tree::Sym(n) => n.clone(),
                _ => { return fail("Function name must be identifier"); },
            };
            let (params, types) = match parse_params(sig) {
                Ok(p) => p,
                Err(m) => { return Err(m); },
            };
            if vec.len() == 5 {
                if !sym_is(&vec[2], "->") {
                    return fail("Expected '->' in function definition");
                }
                let rt = match parse_type(&vec[3]) {
                    Ok(t) => t,
                    Err(m) => { return Err(m); },
                };
                parse_body(name, params, types, Some(rt), &vec[4])
            } else {
                match &vec[2] {
                    Tree::List(body_list) => {
                        proof {
                            lemma_trees_view(body_list@);
                        }
                        if body_list.len() == 3 && sym_is(&body_list[0], "->") {
                            let rt = match parse_type(&body_list[1]) {
                                Ok(t) => t,
                                Err(m) => { return Err(m); },
                            };
                            parse_body(name, params, types, Some(rt), &body_list[2])
                        } else {
                            parse_body(name, params, types, None, &vec[2])
                        }
                    },
                    _ => parse_body(name, params, types, None, &vec[2]),
                }
            }
        },
        _ => fail("Function definition must be a list"),
    }
}

/// Whether a tree is a list that starts with the symbol `text`.
pub open spec fn starts_with_sym(t: TreeView, text: Seq<char>) -> bool {
    t matches TreeView::List(items) && items.len() > 0 && is_sym(items[0], text)
}

/// The session input that a tree spells at nesting depth `depth`: a
/// definition of a name, a function definition, or else an expression. A
/// definition below the top level and anything that does not parse are
/// `Invalid`.
pub open spec fn spec_parse_repl_entry(t: TreeView, depth: usize) -> Result<
    ReplEntryView,
    Seq<char>,
> {
    if starts_with_sym(t, "define"@) {
        let vec = t->List_0;
        if depth > 0 {
            Err("Invalid"@)
        } else if vec.len() != 3 {
            Err("Invalid: define takes exactly two arguments"@)
        } else {
            match vec[1] {
                TreeView::Sym(name) => match spec_parse_expr(vec[2]) {
                    Ok(e) => Ok(ReplEntryView::Define(name, e)),
                    Err(_) => Err("Invalid"@),
                },
                _ => Err("Invalid: define name must be identifier"@),
            }
        }
    } else if starts_with_sym(t, "fun"@) {
        if depth > 0 {
            Err("Invalid"@)
        } else {
            match spec_parse_defn(t) {
                Ok(d) => Ok(ReplEntryView::FunDefn(d)),
                Err(_) => Err("Invalid"@),
            }
        }
    } else {
        match spec_parse_expr(t) {
            Ok(e) => Ok(ReplEntryView::Expr(e)),
            Err(_) => Err("Invalid"@),
        }
    }
}

/// The value of a parsed session input or a message.
pub open spec fn entry_result_view(r: Result<ReplEntry, String>) -> Result<
    ReplEntryView,
    Seq<char>,
> {
    match r {
        Ok(e) => Ok(e@),
        Err(m) => Err(m@),
    }
}

fn starts_with(t: &Tree, text: &str) -> (r: bool)
    ensures
        r == starts_with_sym(t@, text@),
{
    match t {
        Tree::List(vec) => {
            proof {
                lemma_trees_view(vec@);
            }
            vec.len() > 0 && sym_is(&vec[0], text)
        },
        _ => false,
    }
}

/// The session input that `s` spells at nesting depth `depth`.
pub fn parse_repl_entry(s: &Tree, depth: usize) -> (r: Result<ReplEntry, String>)
    ensures
        entry_result_view(r) == spec_parse_repl_entry(s@, depth),
{
    if starts_with(s, "define") {
        match s {
            Tree::List(vec) => {
                proof {
                    lemma_trees_view(vec@);
                }
                if depth > 0 {
                    return fail("Invalid");
                }
                if vec.len() != 3 {
                    return fail("Invalid: define takes exactly two arguments");
                }
                let name = match &vec[1] {
                    Tree::Sym(n) => n.clone(),
                    _ => { return fail("Invalid: define name must be identifier"); },
                };
                match parse_expr(&vec[2]) {
                    Ok(e) => Ok(ReplEntry::Define(name, Box::new(e))),
                    Err(_) => fail("Invalid"),
                }
            },
            _ => fail("Invalid"),
        }
    } else if starts_with(s, "fun") {
        if depth > 0 {
            return fail("Invalid");
        }
        match parse_defn(s) {
            Ok(d) => Ok(ReplEntry::FunDefn(d)),
            Err(_) => fail("Invalid"),
        }
    } else {
        match parse_expr(s) {
            Ok(e) => Ok(ReplEntry::Expr(e)),
            Err(_) => fail("Invalid"),
        }
    }
}

/// The definitions that the items of `items` from index `i` up to the last
/// but one spell, after `acc`.
pub open spec fn spec_parse_defns(items: Seq<TreeView>, i: int, acc: Seq<FunDefnView>) -> Result<
    Seq<FunDefnView>,
    Seq<char>,
>
    decreases items.len() - i,
{
    if i < 0 || i + 1 >= items.len() {
        Ok(acc)
    } else {
        match spec_parse_defn(items[i]) {
            Err(m) => Err(m),
            Ok(d) => spec_parse_defns(items, i + 1, acc.push(d)),
        }
    }
}

/// The program that a tree spells: a list of function definitions and, at
/// the end, the main expression.
pub open spec fn spec_parse_program(t: TreeView) -> Result<ProgramView, Seq<char>> {
    match t {
        TreeView::List(items) => if items.len() == 0 {
            Err("Program must have at least one expression"@)
        } else {
            match spec_parse_defns(items, 0, Seq::empty()) {
                Err(m) => Err(m),
                Ok(defns) => match spec_parse_expr(items.last()) {
                    Err(m) => Err(m),
                    Ok(main) => Ok(ProgramView { defns, main }),
                },
            }
        },
        _ => Err("Program must be a list of definitions and expression"@),
    }
}

/// The value of a parsed program or a message.
pub open spec fn program_result_view(r: Result<Program, String>) -> Result<ProgramView, Seq<char>> {
    match r {
        Ok(p) => Ok(p@),
        Err(m) => Err(m@),
    }
}

/// The program that `s` spells.
#[verifier::loop_isolation(false)]
pub fn parse_program(s: &Tree) -> (r: Result<Program, String>)
    ensures
        program_result_view(r) == spec_parse_program(s@),
{
    let list = match s {
        Tree::List(vec) => vec,
        _ => { return fail("Program must be a list of definitions and expression"); },
    };
    let ghost items = trees_view(list@);
    proof {
        lemma_trees_view(list@);
        assert(defns_view(Seq::<FunDefn>::empty()) =~= Seq::<FunDefnView>::empty());
    }
    if list.len() == 0 {
        return fail("Program must have at least one expression");
    }
    let mut defns: Vec<FunDefn> = Vec::new();
    let mut i: usize = 0;
    let last = list.len() - 1;
    while i < last
        invariant
            list@.len() > 0,
            i < list@.len(),
            items == trees_view(list@),
            items.len() == list@.len(),
            forall|k: int| 0 <= k < list@.len() ==> (#[trigger] items[k]) == tree_view(list@[k]),
            spec_parse_defns(items, 0, Seq::empty()) == spec_parse_defns(
                items,
                i as int,
                defns_view(defns@),
            ),
        decreases list@.len() - i,
    {
        let d = match parse_defn(&list[i]) {
            Ok(d) => d,
            Err(m) => { return Err(m); },
        };
        proof {
            lemma_defns_view_push(defns@, d);
        }
        defns.push(d);
        i += 1;
    }
    match parse_expr(&list[last]) {
        Ok(main) => Ok(Program { defns, main }),
        Err(m) => Err(m),
    }
}

/// The session input that a line of text spells: what `parse_repl_entry`
/// makes of the tree that the reader finds in it.
pub open spec fn spec_read_entry(text: Seq<char>) -> Result<ReplEntryView, Seq<char>> {
    match sexp_parse(text) {
        None => Err("Invalid: parse error"@),
        Some(t) => spec_parse_repl_entry(t, 0),
    }
}

/// Reads a session input from a line of text.
pub fn read_entry(text: &str) -> (r: Result<ReplEntry, String>)
    ensures
        entry_result_view(r) == spec_read_entry(text@),
{
    match read_tree(text) {
        None => fail("Invalid: parse error"),
        Some(t) => parse_repl_entry(&t, 0),
    }
}

/// The program that a text spells: what `parse_program` makes of the tree
/// that the reader finds in it.
pub open spec fn spec_read_program(text: Seq<char>) -> Result<ProgramView, Seq<char>> {
    match sexp_parse(text) {
        None => Err("Parse error"@),
        Some(t) => spec_parse_program(t),
    }
}

/// Reads a program from a text that holds its definitions and its main
/// expression in one list.
pub fn read_program(text: &str) -> (r: Result<Program, String>)
    ensures
        program_result_view(r) == spec_read_program(text@),
{
    match read_tree(text) {
        None => fail("Parse error"),
        Some(t) => parse_program(&t),
    }
}

/// An integer whose tagged word does not fit an immediate is no literal:
/// it is refused here, before any code is generated.
pub proof fn lemma_wide_number_is_refused(n: int)
    requires
        n < -0x4000_0000 || n >= 0x4000_0000,
    ensures
        spec_parse_expr(TreeView::Int(n)) == Err::<ExprView, Seq<char>>(
            "Invalid: number out of range"@,
        ),
        spec_parse_repl_entry(TreeView::Int(n), 0) == Err::<ReplEntryView, Seq<char>>("Invalid"@),
{
}

} // verus!
