//! The abstract syntax of programs.

use vstd::prelude::*;

verus! {

/// Unary operators.
#[derive(Debug, Clone, Copy, PartialEq, Eq, Structural)]
pub enum Op1 {
    Add1,
    Sub1,
    IsNum,
    IsBool,
    Print,
}

/// Binary operators.
#[derive(Debug, Clone, Copy, PartialEq, Eq, Structural)]
pub enum Op2 {
    Plus,
    Minus,
    Times,
    Equal,
    Greater,
    GreaterEqual,
    Less,
    LessEqual,
}

/// A type of the gradual lattice: `Nothing` below `Num` and `Bool`, which are
/// incomparable, below `Any`.
#[derive(Debug, Clone, Copy, PartialEq, Eq, Structural)]
pub enum Type {
    Num,
    Bool,
    Any,
    Nothing,
}

/// An expression. Each node owns its subexpressions.
#[derive(Debug)]
pub enum Expr {
    Number(i32),
    Id(String),
    Input,
    Let(Vec<(String, Expr)>, Box<Expr>),
    UnOp(Op1, Box<Expr>),
    BinOp(Op2, Box<Expr>, Box<Expr>),
    Boolean(bool),
    If(Box<Expr>, Box<Expr>, Box<Expr>),
    Block(Vec<Expr>),
    SetVar(String, Box<Expr>),
    Loop(Box<Expr>),
    Break(Box<Expr>),
    Call(String, Vec<Expr>),
    Cast(Box<Expr>, Type),
}

/// A function definition: name, parameters in order, optional type
/// annotations for the parameters and for the result, and the body.
#[derive(Debug)]
pub struct FunDefn {
    pub name: String,
    pub params: Vec<String>,
    pub body: Box<Expr>,
    pub param_types: Option<Vec<Type>>,
    pub return_type: Option<Type>,
}

/// A program: function definitions in order, then the main expression.
#[derive(Debug)]
pub struct Program {
    pub defns: Vec<FunDefn>,
    pub main: Expr,
}

/// One top-level input of an interactive session: an expression, the
/// definition of a name, or the definition of a function, given whole or by
/// its name, parameters, body and annotations.
#[derive(Debug)]
pub enum ReplEntry {
    Expr(Expr),
    Define(String, Box<Expr>),
    Fun(String, Vec<String>, Expr, Option<Vec<Type>>, Option<Type>),
    FunDefn(FunDefn),
}


/// The mathematical value of an expression: names as sequences of
/// characters, lists as sequences.
pub enum ExprView {
    Number(int),
    Id(Seq<char>),
    Input,
    Let(Seq<(Seq<char>, ExprView)>, Box<ExprView>),
    UnOp(Op1, Box<ExprView>),
    BinOp(Op2, Box<ExprView>, Box<ExprView>),
    Boolean(bool),
    If(Box<ExprView>, Box<ExprView>, Box<ExprView>),
    Block(Seq<ExprView>),
    SetVar(Seq<char>, Box<ExprView>),
    Loop(Box<ExprView>),
    Break(Box<ExprView>),
    Call(Seq<char>, Seq<ExprView>),
    Cast(Box<ExprView>, Type),
}

/// The value of `e`.
pub open spec fn expr_view(e: Expr) -> ExprView
    decreases e,
{
    match e {
        Expr::Number(n) => ExprView::Number(n as int),
        Expr::Id(s) => ExprView::Id(s@),
        Expr::Input => ExprView::Input,
        Expr::Let(bs, body) => ExprView::Let(bindings_view(bs@), Box::new(expr_view(*body))),
        Expr::UnOp(op, a) => ExprView::UnOp(op, Box::new(expr_view(*a))),
        Expr::BinOp(op, a, b) => ExprView::BinOp(
            op,
            Box::new(expr_view(*a)),
            Box::new(expr_view(*b)),
        ),
        Expr::Boolean(b) => ExprView::Boolean(b),
        Expr::If(c, t, f) => ExprView::If(
            Box::new(expr_view(*c)),
            Box::new(expr_view(*t)),
            Box::new(expr_view(*f)),
        ),
        Expr::Block(es) => ExprView::Block(exprs_view(es@)),
        Expr::SetVar(s, a) => ExprView::SetVar(s@, Box::new(expr_view(*a))),
        Expr::Loop(a) => ExprView::Loop(Box::new(expr_view(*a))),
        Expr::Break(a) => ExprView::Break(Box::new(expr_view(*a))),
        Expr::Call(s, args) => ExprView::Call(s@, exprs_view(args@)),
        Expr::Cast(a, t) => ExprView::Cast(Box::new(expr_view(*a)), t),
    }
}

/// The values of a list of expressions.
pub open spec fn exprs_view(es: Seq<Expr>) -> Seq<ExprView>
    decreases es,
{
    Seq::new(es.len(), |i: int| if 0 <= i < es.len() { expr_view(es[i]) } else { ExprView::Input })
}

/// The values of a list of bindings.
pub open spec fn bindings_view(bs: Seq<(String, Expr)>) -> Seq<(Seq<char>, ExprView)>
    decreases bs,
{
    Seq::new(
        bs.len(),
        |i: int|
            if 0 <= i < bs.len() {
                (bs[i].0@, expr_view(bs[i].1))
            } else {
                (Seq::empty(), ExprView::Input)
            },
    )
}

impl View for Expr {
    type V = ExprView;

    open spec fn view(&self) -> ExprView {
        expr_view(*self)
    }
}

/// The view of a list of expressions has the views of its items, in order.
pub proof fn lemma_exprs_view(es: Seq<Expr>)
    ensures
        exprs_view(es).len() == es.len(),
        forall|i: int| 0 <= i < es.len() ==> (#[trigger] exprs_view(es)[i]) == expr_view(es[i]),
{
}

/// The view of a list of bindings has the views of its items, in order.
pub proof fn lemma_bindings_view(bs: Seq<(String, Expr)>)
    ensures
        bindings_view(bs).len() == bs.len(),
        forall|i: int|
            0 <= i < bs.len() ==> (#[trigger] bindings_view(bs)[i]) == (
                bs[i].0@,
                expr_view(bs[i].1),
            ),
{
}

/// The view of a list with one more expression.
pub proof fn lemma_exprs_view_push(es: Seq<Expr>, e: Expr)
    ensures
        exprs_view(es.push(e)) == exprs_view(es).push(expr_view(e)),
        exprs_view(Seq::empty()) == Seq::<ExprView>::empty(),
{
    assert(exprs_view(es.push(e)) =~= exprs_view(es).push(expr_view(e)));
    assert(exprs_view(Seq::empty()) =~= Seq::<ExprView>::empty());
}

/// The view of a list with one more binding.
pub proof fn lemma_bindings_view_push(bs: Seq<(String, Expr)>, name: String, e: Expr)
    ensures
        bindings_view(bs.push((name, e))) == bindings_view(bs).push((name@, expr_view(e))),
        bindings_view(Seq::empty()) == Seq::<(Seq<char>, ExprView)>::empty(),
{
    assert(bindings_view(bs.push((name, e))) =~= bindings_view(bs).push((name@, expr_view(e))));
    assert(bindings_view(Seq::empty()) =~= Seq::<(Seq<char>, ExprView)>::empty());
}

/// The view of a list with one more name.
pub proof fn lemma_names_view_push(names: Seq<String>, name: String)
    ensures
        names_view(names.push(name)) == names_view(names).push(name@),
        names_view(Seq::empty()) == Seq::<Seq<char>>::empty(),
{
    assert(names_view(names.push(name)) =~= names_view(names).push(name@));
    assert(names_view(Seq::empty()) =~= Seq::<Seq<char>>::empty());
}

/// The view of a list with one more definition.
pub proof fn lemma_defns_view_push(defns: Seq<FunDefn>, d: FunDefn)
    ensures
        defns_view(defns.push(d)) == defns_view(defns).push(d@),
        defns_view(Seq::empty()) == Seq::<FunDefnView>::empty(),
{
    assert(defns_view(defns.push(d)) =~= defns_view(defns).push(d@));
    assert(defns_view(Seq::empty()) =~= Seq::<FunDefnView>::empty());
}

/// The values of a list of names.
pub open spec fn names_view(names: Seq<String>) -> Seq<Seq<char>> {
    Seq::new(names.len(), |i: int| names[i]@)
}

/// The mathematical value of a function definition.
pub struct FunDefnView {
    pub name: Seq<char>,
    pub params: Seq<Seq<char>>,
    pub body: ExprView,
    pub param_types: Option<Seq<Type>>,
    pub return_type: Option<Type>,
}

impl View for FunDefn {
    type V = FunDefnView;

    open spec fn view(&self) -> FunDefnView {
        FunDefnView {
            name: self.name@,
            params: names_view(self.params@),
            body: expr_view(*self.body),
            param_types: match self.param_types {
                Some(ts) => Some(ts@),
                None => None,
            },
            return_type: self.return_type,
        }
    }
}

/// The values of a list of function definitions.
pub open spec fn defns_view(defns: Seq<FunDefn>) -> Seq<FunDefnView> {
    Seq::new(defns.len(), |i: int| defns[i]@)
}

/// The mathematical value of a program.
pub struct ProgramView {
    pub defns: Seq<FunDefnView>,
    pub main: ExprView,
}

impl View for Program {
    type V = ProgramView;

    open spec fn view(&self) -> ProgramView {
        ProgramView { defns: defns_view(self.defns@), main: self.main@ }
    }
}

/// The mathematical value of a session input.
pub enum ReplEntryView {
    Expr(ExprView),
    Define(Seq<char>, ExprView),
    FunDefn(FunDefnView),
}

impl View for ReplEntry {
    type V = ReplEntryView;

    open spec fn view(&self) -> ReplEntryView {
        match self {
            ReplEntry::Expr(e) => ReplEntryView::Expr(e@),
            ReplEntry::Define(name, e) => ReplEntryView::Define(name@, expr_view(**e)),
            ReplEntry::Fun(name, params, body, param_types, return_type) => ReplEntryView::FunDefn(
                FunDefnView {
                    name: name@,
                    params: names_view(params@),
                    body: expr_view(*body),
                    param_types: match param_types {
                        Some(ts) => Some(ts@),
                        None => None,
                    },
                    return_type: *return_type,
                },
            ),
            ReplEntry::FunDefn(d) => ReplEntryView::FunDefn(d@),
        }
    }
}

fn clone_names(names: &Vec<String>) -> (r: Vec<String>)
    ensures
        r@ == names@,
        names_view(r@) == names_view(names@),
{
    let mut out: Vec<String> = Vec::new();
    let mut i: usize = 0;
    while i < names.len()
        invariant
            i <= names.len(),
            out@ == names@.take(i as int),
        decreases names.len() - i,
    {
        out.push(names[i].clone());
        i += 1;
    }
    out
}

fn clone_types(types: &Vec<Type>) -> (r: Vec<Type>)
    ensures
        r@ == types@,
{
    let mut out: Vec<Type> = Vec::new();
    let mut i: usize = 0;
    while i < types.len()
        invariant
            i <= types.len(),
            out@ == types@.take(i as int),
        decreases types.len() - i,
    {
        out.push(types[i]);
        i += 1;
    }
    out
}

fn clone_exprs(es: &Vec<Expr>) -> (r: Vec<Expr>)
    ensures
        exprs_view(r@) == exprs_view(es@),
    decreases es,
{
    let mut out: Vec<Expr> = Vec::new();
    let mut i: usize = 0;
    while i < es.len()
        invariant
            i <= es.len(),
            out@.len() == i,
            forall|j: int| 0 <= j < i ==> expr_view(#[trigger] out@[j]) == expr_view(es@[j]),
        decreases es.len() - i,
    {
        let c = clone_expr(&es[i]);
        out.push(c);
        i += 1;
    }
    assert(exprs_view(out@) =~= exprs_view(es@));
    out
}

fn clone_bindings(bs: &Vec<(String, Expr)>) -> (r: Vec<(String, Expr)>)
    ensures
        bindings_view(r@) == bindings_view(bs@),
    decreases bs,
{
    let mut out: Vec<(String, Expr)> = Vec::new();
    let mut i: usize = 0;
    while i < bs.len()
        invariant
            i <= bs.len(),
            out@.len() == i,
            forall|j: int|
                0 <= j < i ==> expr_view((#[trigger] out@[j]).1) == expr_view(bs@[j].1)
                    && out@[j].0@ == bs@[j].0@,
        decreases bs.len() - i,
    {
        let c = clone_expr(&bs[i].1);
        out.push((bs[i].0.clone(), c));
        i += 1;
    }
    assert(bindings_view(out@) =~= bindings_view(bs@));
    out
}

fn clone_expr(e: &Expr) -> (r: Expr)
    ensures
        r@ == e@,
    decreases e,
{
    match e {
        Expr::Number(n) => Expr::Number(*n),
        Expr::Id(s) => Expr::Id(s.clone()),
        Expr::Input => Expr::Input,
        Expr::Let(bs, body) => Expr::Let(clone_bindings(bs), Box::new(clone_expr(body))),
        Expr::UnOp(op, a) => Expr::UnOp(*op, Box::new(clone_expr(a))),
        Expr::BinOp(op, a, b) => Expr::BinOp(*op, Box::new(clone_expr(a)), Box::new(clone_expr(b))),
        Expr::Boolean(b) => Expr::Boolean(*b),
        Expr::If(c, t, f) => Expr::If(
            Box::new(clone_expr(c)),
            Box::new(clone_expr(t)),
            Box::new(clone_expr(f)),
        ),
        Expr::Block(es) => Expr::Block(clone_exprs(es)),
        Expr::SetVar(s, a) => Expr::SetVar(s.clone(), Box::new(clone_expr(a))),
        Expr::Loop(a) => Expr::Loop(Box::new(clone_expr(a))),
        Expr::Break(a) => Expr::Break(Box::new(clone_expr(a))),
        Expr::Call(s, args) => Expr::Call(s.clone(), clone_exprs(args)),
        Expr::Cast(a, t) => Expr::Cast(Box::new(clone_expr(a)), *t),
    }
}

impl Clone for Expr {
    /// A deep copy with the same value.
    fn clone(&self) -> (r: Self)
        ensures
            r@ == self@,
    {
        clone_expr(self)
    }
}

impl Clone for FunDefn {
    /// A deep copy with the same value.
    fn clone(&self) -> (r: Self)
        ensures
            r@ == self@,
    {
        FunDefn {
            name: self.name.clone(),
            params: clone_names(&self.params),
            body: Box::new(clone_expr(&self.body)),
            param_types: match &self.param_types {
                Some(ts) => Some(clone_types(ts)),
                None => None,
            },
            return_type: self.return_type,
        }
    }
}

/// Whether `e` holds a `break` that is not inside a loop nested in `e` nor
/// inside the operand of another `break`.
pub open spec fn has_own_break(e: ExprView) -> bool
    decreases e,
{
    match e {
        ExprView::Break(_) => true,
        ExprView::Loop(_) => false,
        ExprView::UnOp(_, a) => has_own_break(*a),
        ExprView::BinOp(_, a, b) => has_own_break(*a) || has_own_break(*b),
        ExprView::If(c, t, f) => has_own_break(*c) || has_own_break(*t) || has_own_break(*f),
        ExprView::Let(bindings, body) => exists|i: int|
            0 <= i < bindings.len() && has_own_break(#[trigger] bindings[i].1) || has_own_break(
                *body,
            ),
        ExprView::Block(es) => exists|i: int| 0 <= i < es.len() && has_own_break(#[trigger] es[i]),
        ExprView::SetVar(_, a) => has_own_break(*a),
        ExprView::Call(_, args) => exists|i: int|
            0 <= i < args.len() && has_own_break(#[trigger] args[i]),
        ExprView::Cast(a, _) => has_own_break(*a),
        _ => false,
    }
}

} // verus!
