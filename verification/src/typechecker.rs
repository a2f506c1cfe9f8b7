//! The gradual type checker.
//!
//! Types form the lattice `Nothing <: Num, Bool <: Any`. An expression is
//! checked against an environment that gives each variable in scope a type
//! and against the list of known function definitions. A function with
//! parameter annotations is a typed boundary: its arguments are held to the
//! annotations and a call has the declared result type. A function without
//! them is a dynamic boundary: a call has type `Any`.
//!
//! Every part of an expression is checked, whether or not its type is used:
//! every expression of a block, every argument of a call, the operand of a
//! cast, and the whole body of a loop. The type of a loop is the join of the
//! types of its own `break`s.

use vstd::prelude::*;
use vstd::string::*;
use crate::ast::{Expr, ExprView, FunDefn, FunDefnView, Op1, Op2, Program, ProgramView, Type};
use crate::ast::{defns_view, exprs_view};
use crate::ast::{has_own_break, lemma_bindings_view, lemma_exprs_view};
use crate::env::{types_clone, types_get, types_new, types_of, types_update};

verus! {

/// The join of two types: the least type above both.
pub open spec fn spec_union(a: Type, b: Type) -> Type {
    if a == Type::Any || b == Type::Any {
        Type::Any
    } else if a == b {
        a
    } else if a == Type::Nothing {
        b
    } else if b == Type::Nothing {
        a
    } else {
        Type::Any
    }
}

/// Whether `a` is a subtype of `b`.
pub open spec fn spec_is_subtype(a: Type, b: Type) -> bool {
    b == Type::Any || a == Type::Nothing || a == b
}

impl Type {
    /// The join of `self` and `other`.
    pub fn union(&self, other: &Type) -> (r: Type)
        ensures
            r == spec_union(*self, *other),
    {
        match (self, other) {
            (Type::Any, _) => Type::Any,
            (_, Type::Any) => Type::Any,
            (Type::Nothing, t) => *t,
            (t, Type::Nothing) => *t,
            (Type::Num, Type::Num) => Type::Num,
            (Type::Bool, Type::Bool) => Type::Bool,
            (Type::Num, Type::Bool) => Type::Any,
            (Type::Bool, Type::Num) => Type::Any,
        }
    }

    /// Whether `self` is a subtype of `other`.
    pub fn is_subtype(&self, other: &Type) -> (r: bool)
        ensures
            r == spec_is_subtype(*self, *other),
    {
        match (self, other) {
            (_, Type::Any) => true,
            (Type::Nothing, _) => true,
            (t1, t2) => *t1 == *t2,
        }
    }
}

/// Subtyping is a partial order with `Nothing` at the bottom and `Any` at
/// the top, and `Num` and `Bool` are incomparable.
pub proof fn lemma_subtype_order(a: Type, b: Type, c: Type)
    ensures
        spec_is_subtype(a, a),
        spec_is_subtype(a, b) && spec_is_subtype(b, a) ==> a == b,
        spec_is_subtype(a, b) && spec_is_subtype(b, c) ==> spec_is_subtype(a, c),
        spec_is_subtype(Type::Nothing, a),
        spec_is_subtype(a, Type::Any),
        !spec_is_subtype(Type::Num, Type::Bool),
        !spec_is_subtype(Type::Bool, Type::Num),
{
}

/// The join is the least upper bound of its arguments in the subtype order.
pub proof fn lemma_union_least_upper_bound(a: Type, b: Type, c: Type)
    ensures
        spec_is_subtype(a, spec_union(a, b)),
        spec_is_subtype(b, spec_union(a, b)),
        spec_is_subtype(a, c) && spec_is_subtype(b, c) ==> spec_is_subtype(spec_union(a, b), c),
{
}

/// The join is idempotent, commutative and associative; `Any` absorbs,
/// `Nothing` is absorbed, and `Num` joined with `Bool` is `Any`.
pub proof fn lemma_union_algebra(a: Type, b: Type, c: Type)
    ensures
        spec_union(a, a) == a,
        spec_union(a, b) == spec_union(b, a),
        spec_union(spec_union(a, b), c) == spec_union(a, spec_union(b, c)),
        spec_union(a, Type::Any) == Type::Any,
        spec_union(a, Type::Nothing) == a,
        spec_union(Type::Num, Type::Bool) == Type::Any,
{
}

/// The name of a type as it appears in messages.
pub open spec fn type_label(t: Type) -> Seq<char> {
    match t {
        Type::Num => "Num"@,
        Type::Bool => "Bool"@,
        Type::Any => "Any"@,
        Type::Nothing => "Nothing"@,
    }
}

/// The first definition at or after index `from` whose name is `name`.
pub open spec fn find_defn(defns: Seq<FunDefnView>, name: Seq<char>, from: int) -> Option<
    FunDefnView,
>
    decreases defns.len() - from,
{
    if from < 0 || from >= defns.len() {
        None
    } else if defns[from].name == name {
        Some(defns[from])
    } else {
        find_defn(defns, name, from + 1)
    }
}

/// The message for a variable that is not in scope.
pub open spec fn msg_unbound(name: Seq<char>) -> Seq<char> {
    "Type error: unbound variable "@ + name
}

/// A message that ends in the name of the type that was found.
pub open spec fn msg_got(what: Seq<char>, t: Type) -> Seq<char> {
    what + type_label(t)
}

/// The message for an assignment of a value that is no subtype of the
/// variable's type.
pub open spec fn msg_assign(val: Type, var: Type) -> Seq<char> {
    "Type error: cannot assign "@ + type_label(val) + " to "@ + type_label(var)
}

/// The message for an argument that is no subtype of its annotation.
pub open spec fn msg_argument(arg: Type, expected: Type) -> Seq<char> {
    "Type error: argument has type "@ + type_label(arg) + ", expected "@ + type_label(expected)
}

/// The message for a body that is no subtype of the declared result type.
pub open spec fn msg_body(name: Seq<char>, body: Type, declared: Type) -> Seq<char> {
    "Type error: function "@ + name + " body has type "@ + type_label(body) + " but declared "@
        + type_label(declared)
}

/// The type of `e` in `env` with the functions `defns`, or the message of the
/// first type error met.
pub open spec fn spec_typecheck(
    e: ExprView,
    env: Map<Seq<char>, Type>,
    defns: Seq<FunDefnView>,
) -> Result<Type, Seq<char>>
    decreases e, 1int, 0int,
{
    match e {
        ExprView::Number(_) => Ok(Type::Num),
        ExprView::Boolean(_) => Ok(Type::Bool),
        ExprView::Input => if env.contains_key("input"@) {
            Ok(env["input"@])
        } else {
            Err("Type error: input not in environment"@)
        },
        ExprView::Id(name) => if env.contains_key(name) {
            Ok(env[name])
        } else {
            Err(msg_unbound(name))
        },
        ExprView::UnOp(op, a) => match spec_typecheck(*a, env, defns) {
            Err(m) => Err(m),
            Ok(t) => match op {
                Op1::Add1 | Op1::Sub1 => if spec_is_subtype(t, Type::Num) {
                    Ok(Type::Num)
                } else {
                    Err(msg_got("Type error: add1/sub1 requires Num, got "@, t))
                },
                Op1::IsNum | Op1::IsBool => Ok(Type::Bool),
                Op1::Print => Ok(t),
            },
        },
        ExprView::BinOp(op, a, b) => match spec_typecheck(*a, env, defns) {
            Err(m) => Err(m),
            Ok(t1) => match spec_typecheck(*b, env, defns) {
                Err(m) => Err(m),
                Ok(t2) => spec_binop_type(op, t1, t2),
            },
        },
        ExprView::Let(_, _) => spec_typecheck_let(e, 0, env, defns),
        ExprView::If(c, t, f) => match spec_typecheck(*c, env, defns) {
            Err(m) => Err(m),
            Ok(ct) => if !spec_is_subtype(ct, Type::Bool) {
                Err(msg_got("Type error: if condition must be Bool, got "@, ct))
            } else {
                match spec_typecheck(*t, env, defns) {
                    Err(m) => Err(m),
                    Ok(tt) => match spec_typecheck(*f, env, defns) {
                        Err(m) => Err(m),
                        Ok(ft) => Ok(spec_union(tt, ft)),
                    },
                }
            },
        },
        ExprView::Block(es) => spec_typecheck_block(es, 0, Type::Any, env, defns),
        ExprView::SetVar(name, a) => match spec_typecheck(*a, env, defns) {
            Err(m) => Err(m),
            Ok(t) => if !env.contains_key(name) {
                Err(msg_unbound(name))
            } else if !spec_is_subtype(t, env[name]) {
                Err(msg_assign(t, env[name]))
            } else {
                Ok(t)
            },
        },
        ExprView::Loop(body) => match spec_typecheck(*body, env, defns) {
            Err(m) => Err(m),
            Ok(_) => spec_break_join(*body, env, defns, Type::Nothing),
        },
        ExprView::Break(a) => match spec_typecheck(*a, env, defns) {
            Err(m) => Err(m),
            Ok(_) => Ok(Type::Nothing),
        },
        ExprView::Call(fname, args) => match find_defn(defns, fname, 0) {
            None => Err("Type error: undefined function "@ + fname),
            Some(d) => if args.len() != d.params.len() {
                Err("Type error: wrong number of arguments"@)
            } else {
                match d.param_types {
                    Some(pts) => match spec_typecheck_typed_args(args, 0, pts, env, defns) {
                        Err(m) => Err(m),
                        Ok(_) => match d.return_type {
                            Some(rt) => Ok(rt),
                            None => Ok(Type::Any),
                        },
                    },
                    None => match spec_typecheck_block(args, 0, Type::Any, env, defns) {
                        Err(m) => Err(m),
                        Ok(_) => Ok(Type::Any),
                    },
                }
            },
        },
        ExprView::Cast(a, target) => match spec_typecheck(*a, env, defns) {
            Err(m) => Err(m),
            Ok(_) => Ok(target),
        },
    }
}

/// The type of a binary operation on operands of types `t1` and `t2`.
pub open spec fn spec_binop_type(op: Op2, t1: Type, t2: Type) -> Result<Type, Seq<char>> {
    match op {
        Op2::Plus | Op2::Minus | Op2::Times => if !spec_is_subtype(t1, Type::Num) {
            Err(msg_got("Type error: arithmetic requires Num, got "@, t1))
        } else if !spec_is_subtype(t2, Type::Num) {
            Err(msg_got("Type error: arithmetic requires Num, got "@, t2))
        } else {
            Ok(Type::Num)
        },
        Op2::Less | Op2::Greater | Op2::LessEqual | Op2::GreaterEqual => if !spec_is_subtype(
            t1,
            Type::Num,
        ) || !spec_is_subtype(t2, Type::Num) {
            Err("Type error: comparison requires Num"@)
        } else {
            Ok(Type::Bool)
        },
        Op2::Equal => if (spec_is_subtype(t1, Type::Num) && spec_is_subtype(t2, Type::Num)) || (
        spec_is_subtype(t1, Type::Bool) && spec_is_subtype(t2, Type::Bool)) {
            Ok(Type::Bool)
        } else {
            Err("Type error: = requires both Num or both Bool"@)
        },
    }
}

/// The expressions of `es` from index `i` on are checked in order; the result
/// is the type of the last one, or `last` if there is none.
pub open spec fn spec_typecheck_block(
    es: Seq<ExprView>,
    i: int,
    last: Type,
    env: Map<Seq<char>, Type>,
    defns: Seq<FunDefnView>,
) -> Result<Type, Seq<char>>
    decreases es, 0int, es.len() - i,
{
    if i < 0 || i >= es.len() {
        Ok(last)
    } else {
        match spec_typecheck(es[i], env, defns) {
            Err(m) => Err(m),
            Ok(t) => spec_typecheck_block(es, i + 1, t, env, defns),
        }
    }
}

/// The arguments from index `i` on are checked in order, each against its
/// annotation where it has one.
pub open spec fn spec_typecheck_typed_args(
    args: Seq<ExprView>,
    i: int,
    pts: Seq<Type>,
    env: Map<Seq<char>, Type>,
    defns: Seq<FunDefnView>,
) -> Result<Type, Seq<char>>
    decreases args, 0int, args.len() - i,
{
    if i < 0 || i >= args.len() {
        Ok(Type::Any)
    } else {
        match spec_typecheck(args[i], env, defns) {
            Err(m) => Err(m),
            Ok(t) => if i < pts.len() && !spec_is_subtype(t, pts[i]) {
                Err(msg_argument(t, pts[i]))
            } else {
                spec_typecheck_typed_args(args, i + 1, pts, env, defns)
            },
        }
    }
}

/// For a `let` expression `e`: the bindings from index `i` on are checked
/// in order, each in the environment extended by those before it; then the
/// body is checked.
pub open spec fn spec_typecheck_let(
    e: ExprView,
    i: int,
    env: Map<Seq<char>, Type>,
    defns: Seq<FunDefnView>,
) -> Result<Type, Seq<char>>
    decreases e, 0int, e->Let_0.len() - i,
{
    if let ExprView::Let(bindings, body) = e {
        if i < 0 || i >= bindings.len() {
            spec_typecheck(*body, env, defns)
        } else {
            match spec_typecheck(bindings[i].1, env, defns) {
                Err(m) => Err(m),
                Ok(t) => spec_typecheck_let(e, i + 1, env.insert(bindings[i].0, t), defns),
            }
        }
    } else {
        Ok(Type::Any)
    }
}

/// The join of `acc` with the types of the operands of the `break`s that
/// belong to the loop whose body holds `e`: those inside `e` that are not
/// inside a nested loop. The operand of each such `break` is type-checked.
pub open spec fn spec_break_join(
    e: ExprView,
    env: Map<Seq<char>, Type>,
    defns: Seq<FunDefnView>,
    acc: Type,
) -> Result<Type, Seq<char>>
    decreases e, 1int, 0int,
{
    match e {
        ExprView::Break(a) => match spec_typecheck(*a, env, defns) {
            Err(m) => Err(m),
            Ok(t) => Ok(spec_union(acc, t)),
        },
        ExprView::Loop(_) => Ok(acc),
        ExprView::UnOp(_, a) => spec_break_join(*a, env, defns, acc),
        ExprView::BinOp(_, a, b) => match spec_break_join(*a, env, defns, acc) {
            Err(m) => Err(m),
            Ok(acc1) => spec_break_join(*b, env, defns, acc1),
        },
        ExprView::If(c, t, f) => match spec_break_join(*c, env, defns, acc) {
            Err(m) => Err(m),
            Ok(acc1) => match spec_break_join(*t, env, defns, acc1) {
                Err(m) => Err(m),
                Ok(acc2) => spec_break_join(*f, env, defns, acc2),
            },
        },
        ExprView::Let(_, _) => spec_break_join_let(e, 0, env, defns, acc),
        ExprView::Block(es) => spec_break_join_list(es, 0, env, defns, acc),
        ExprView::SetVar(_, a) => spec_break_join(*a, env, defns, acc),
        ExprView::Call(_, args) => spec_break_join_list(args, 0, env, defns, acc),
        ExprView::Cast(a, _) => spec_break_join(*a, env, defns, acc),
        _ => Ok(acc),
    }
}

/// `spec_break_join` over the expressions of `es` from index `i` on.
pub open spec fn spec_break_join_list(
    es: Seq<ExprView>,
    i: int,
    env: Map<Seq<char>, Type>,
    defns: Seq<FunDefnView>,
    acc: Type,
) -> Result<Type, Seq<char>>
    decreases es, 0int, es.len() - i,
{
    if i < 0 || i >= es.len() {
        Ok(acc)
    } else {
        match spec_break_join(es[i], env, defns, acc) {
            Err(m) => Err(m),
            Ok(acc1) => spec_break_join_list(es, i + 1, env, defns, acc1),
        }
    }
}

/// For a `let` expression `e`: `spec_break_join` over the bindings from
/// index `i` on, each in the environment extended by those before it, then
/// over the body.
pub open spec fn spec_break_join_let(
    e: ExprView,
    i: int,
    env: Map<Seq<char>, Type>,
    defns: Seq<FunDefnView>,
    acc: Type,
) -> Result<Type, Seq<char>>
    decreases e, 0int, e->Let_0.len() - i,
{
    if let ExprView::Let(bindings, body) = e {
        if i < 0 || i >= bindings.len() {
            spec_break_join(*body, env, defns, acc)
        } else {
            match spec_break_join(bindings[i].1, env, defns, acc) {
                Err(m) => Err(m),
                Ok(acc1) => match spec_typecheck(bindings[i].1, env, defns) {
                    Err(m) => Err(m),
                    Ok(t) => spec_break_join_let(
                        e,
                        i + 1,
                        env.insert(bindings[i].0, t),
                        defns,
                        acc1,
                    ),
                },
            }
        }
    } else {
        Ok(acc)
    }
}

/// The value of a result of the type checker: the message as a sequence of
/// characters.
pub open spec fn check_view(r: Result<Type, String>) -> Result<Type, Seq<char>> {
    match r {
        Ok(t) => Ok(t),
        Err(m) => Err(m@),
    }
}

fn type_str(t: Type) -> (s: &'static str)
    ensures
        s@ == type_label(t),
{
    match t {
        Type::Num => "Num",
        Type::Bool => "Bool",
        Type::Any => "Any",
        Type::Nothing => "Nothing",
    }
}

fn join2(a: &str, b: &str) -> (r: String)
    ensures
        r@ == a@ + b@,
{
    let mut r = String::from_str(a);
    r.append(b);
    r
}

fn join4(a: &str, b: &str, c: &str, d: &str) -> (r: String)
    ensures
        r@ == a@ + b@ + c@ + d@,
{
    let mut r = String::from_str(a);
    r.append(b);
    r.append(c);
    r.append(d);
    r
}

fn binop_type(op: Op2, t1: Type, t2: Type) -> (r: Result<Type, String>)
    ensures
        check_view(r) == spec_binop_type(op, t1, t2),
{
    match op {
        Op2::Plus | Op2::Minus | Op2::Times => {
            if !t1.is_subtype(&Type::Num) {
                Err(join2("Type error: arithmetic requires Num, got ", type_str(t1)))
            } else if !t2.is_subtype(&Type::Num) {
                Err(join2("Type error: arithmetic requires Num, got ", type_str(t2)))
            } else {
                Ok(Type::Num)
            }
        },
        Op2::Less | Op2::Greater | Op2::LessEqual | Op2::GreaterEqual => {
            if !t1.is_subtype(&Type::Num) || !t2.is_subtype(&Type::Num) {
                Err(String::from_str("Type error: comparison requires Num"))
            } else {
                Ok(Type::Bool)
            }
        },
        Op2::Equal => {
            if (t1.is_subtype(&Type::Num) && t2.is_subtype(&Type::Num)) || (t1.is_subtype(
                &Type::Bool,
            ) && t2.is_subtype(&Type::Bool)) {
                Ok(Type::Bool)
            } else {
                Err(String::from_str("Type error: = requires both Num or both Bool"))
            }
        },
    }
}

/// The index of the first definition named `name`, if there is one.
pub fn find_function(defns: &[FunDefn], name: &String) -> (r: Option<usize>)
    ensures
        match r {
            Some(k) => k < defns@.len() && find_defn(defns_view(defns@), name@, 0) == Some(
                defns@[k as int]@,
            ),
            None => find_defn(defns_view(defns@), name@, 0).is_none(),
        },
{
    let mut k: usize = 0;
    while k < defns.len()
        invariant
            k <= defns@.len(),
            find_defn(defns_view(defns@), name@, 0) == find_defn(
                defns_view(defns@),
                name@,
                k as int,
            ),
        decreases defns@.len() - k,
    {
        if defns[k].name == *name {
            return Some(k);
        }
        k += 1;
    }
    None
}

/// Checks `expr` in the environment `env` with the functions `defns`: its
/// type, or the message of the first type error met.
#[verifier::rlimit(50)]
pub fn typecheck_expr(expr: &Expr, env: &im::HashMap<String, Type>, defns: &[FunDefn]) -> (r:
    Result<Type, String>)
    ensures
        check_view(r) == spec_typecheck(expr@, types_of(*env), defns_view(defns@)),
    decreases expr, 1int,
{
    match expr {
        Expr::Number(_) => Ok(Type::Num),
        Expr::Boolean(_) => Ok(Type::Bool),
        Expr::Input => {
            let key = String::from_str("input");
            match types_get(env, &key) {
                Some(t) => Ok(t),
                None => Err(String::from_str("Type error: input not in environment")),
            }
        },
        Expr::Id(name) => {
            match types_get(env, name) {
                Some(t) => Ok(t),
                None => Err(join2("Type error: unbound variable ", name.as_str())),
            }
        },
        Expr::UnOp(op, e) => {
            let t = match typecheck_expr(e, env, defns) {
                Ok(t) => t,
                Err(msg) => { return Err(msg); },
            };
            match op {
                Op1::Add1 | Op1::Sub1 => {
                    if !t.is_subtype(&Type::Num) {
                        Err(join2("Type error: add1/sub1 requires Num, got ", type_str(t)))
                    } else {
                        Ok(Type::Num)
                    }
                },
                Op1::IsNum | Op1::IsBool => Ok(Type::Bool),
                Op1::Print => Ok(t),
            }
        },
        Expr::BinOp(op, e1, e2) => {
            let t1 = match typecheck_expr(e1, env, defns) {
                Ok(t) => t,
                Err(msg) => { return Err(msg); },
            };
            let t2 = match typecheck_expr(e2, env, defns) {
                Ok(t) => t,
                Err(msg) => { return Err(msg); },
            };
            binop_type(*op, t1, t2)
        },
        Expr::Let(_, _) => typecheck_let(expr, env, defns),
        Expr::If(cond, then_e, else_e) => {
            let cond_t = match typecheck_expr(cond, env, defns) {
                Ok(t) => t,
                Err(msg) => { return Err(msg); },
            };
            if !cond_t.is_subtype(&Type::Bool) {
                return Err(join2("Type error: if condition must be Bool, got ", type_str(cond_t)));
            }
            let then_t = match typecheck_expr(then_e, env, defns) {
                Ok(t) => t,
                Err(msg) => { return Err(msg); },
            };
            let else_t = match typecheck_expr(else_e, env, defns) {
                Ok(t) => t,
                Err(msg) => { return Err(msg); },
            };
            Ok(then_t.union(&else_t))
        },
        Expr::Block(exprs) => typecheck_block(exprs, env, defns),
        Expr::SetVar(name, e) => {
            let val_type = match typecheck_expr(e, env, defns) {
                Ok(t) => t,
                Err(msg) => { return Err(msg); },
            };
            let var_type = match types_get(env, name) {
                Some(t) => t,
                None => { return Err(join2("Type error: unbound variable ", name.as_str())); },
            };
            if !val_type.is_subtype(&var_type) {
                return Err(
                    join4(
                        "Type error: cannot assign ",
                        type_str(val_type),
                        " to ",
                        type_str(var_type),
                    ),
                );
            }
            Ok(val_type)
        },
        Expr::Loop(body) => {
            match typecheck_expr(body, env, defns) {
                Ok(_) => collect_break_types(body, env, defns),
                Err(msg) => Err(msg),
            }
        },
        Expr::Break(e) => {
            match typecheck_expr(e, env, defns) {
                Ok(_) => Ok(Type::Nothing),
                Err(msg) => Err(msg),
            }
        },
        Expr::Call(fname, args) => {
            let k = match find_function(defns, fname) {
                Some(k) => k,
                None => { return Err(join2("Type error: undefined function ", fname.as_str())); },
            };
            let defn = &defns[k];
            proof {
                lemma_exprs_view(args@);
            }
            if args.len() != defn.params.len() {
                return Err(String::from_str("Type error: wrong number of arguments"));
            }
            match &defn.param_types {
                Some(param_types) => {
                    match typecheck_typed_args(args, param_types, env, defns) {
                        Err(msg) => Err(msg),
                        Ok(_) => match defn.return_type {
                            Some(rt) => Ok(rt),
                            None => Ok(Type::Any),
                        },
                    }
                },
                None => {
                    match typecheck_block(args, env, defns) {
                        Err(msg) => Err(msg),
                        Ok(_) => Ok(Type::Any),
                    }
                },
            }
        },
        Expr::Cast(e, target_type) => {
            match typecheck_expr(e, env, defns) {
                Ok(_) => Ok(*target_type),
                Err(msg) => Err(msg),
            }
        },
    }
}

#[verifier::loop_isolation(false)]
fn typecheck_let(expr: &Expr, env: &im::HashMap<String, Type>, defns: &[FunDefn]) -> (r: Result<
    Type,
    String,
>)
    requires
        expr is Let,
    ensures
        check_view(r) == spec_typecheck_let(expr@, 0, types_of(*env), defns_view(defns@)),
    decreases expr, 0int,
{
    let ghost m = types_of(*env);
    let ghost ds = defns_view(defns@);
    match expr {
        Expr::Let(bindings, body) => {
            let mut new_env = types_clone(env);
            let mut i: usize = 0;
            while i < bindings.len()
                invariant
                    i <= bindings@.len(),
                    spec_typecheck_let(expr@, 0, m, ds) == spec_typecheck_let(
                        expr@,
                        i as int,
                        types_of(new_env),
                        ds,
                    ),
                decreases bindings@.len() - i,
            {
                proof {
                    lemma_bindings_view(bindings@);
                }
                let t = match typecheck_expr(&bindings[i].1, &new_env, defns) {
                    Ok(t) => t,
                    Err(msg) => { return Err(msg); },
                };
                new_env = types_update(&new_env, bindings[i].0.clone(), t);
                i += 1;
            }
            proof {
                lemma_bindings_view(bindings@);
            }
            typecheck_expr(body, &new_env, defns)
        },
        _ => Ok(Type::Any),
    }
}

fn typecheck_block(es: &Vec<Expr>, env: &im::HashMap<String, Type>, defns: &[FunDefn]) -> (r:
    Result<Type, String>)
    ensures
        check_view(r) == spec_typecheck_block(
            exprs_view(es@),
            0,
            Type::Any,
            types_of(*env),
            defns_view(defns@),
        ),
    decreases es, 0int,
{
    let ghost m = types_of(*env);
    let ghost ds = defns_view(defns@);
    let mut last_type = Type::Any;
    let mut i: usize = 0;
    while i < es.len()
        invariant
            i <= es@.len(),
            m == types_of(*env),
            ds == defns_view(defns@),
            spec_typecheck_block(exprs_view(es@), 0, Type::Any, m, ds) == spec_typecheck_block(
                exprs_view(es@),
                i as int,
                last_type,
                m,
                ds,
            ),
        decreases es@.len() - i,
    {
        last_type = match typecheck_expr(&es[i], env, defns) {
            Ok(t) => t,
            Err(msg) => { return Err(msg); },
        };
        i += 1;
    }
    Ok(last_type)
}

fn typecheck_typed_args(
    args: &Vec<Expr>,
    param_types: &Vec<Type>,
    env: &im::HashMap<String, Type>,
    defns: &[FunDefn],
) -> (r: Result<Type, String>)
    ensures
        check_view(r) == spec_typecheck_typed_args(
            exprs_view(args@),
            0,
            param_types@,
            types_of(*env),
            defns_view(defns@),
        ),
    decreases args, 0int,
{
    let ghost m = types_of(*env);
    let ghost ds = defns_view(defns@);
    let mut i: usize = 0;
    while i < args.len()
        invariant
            i <= args@.len(),
            m == types_of(*env),
            ds == defns_view(defns@),
            spec_typecheck_typed_args(exprs_view(args@), 0, param_types@, m, ds)
                == spec_typecheck_typed_args(exprs_view(args@), i as int, param_types@, m, ds),
        decreases args@.len() - i,
    {
        let arg_type = match typecheck_expr(&args[i], env, defns) {
            Ok(t) => t,
            Err(msg) => { return Err(msg); },
        };
        if i < param_types.len() {
            let expected = param_types[i];
            if !arg_type.is_subtype(&expected) {
                return Err(
                    join4(
                        "Type error: argument has type ",
                        type_str(arg_type),
                        ", expected ",
                        type_str(expected),
                    ),
                );
            }
        }
        i += 1;
    }
    Ok(Type::Any)
}

/// The type of a loop with body `expr`: the join of the types of the
/// operands of its own `break`s, `Nothing` if it has none.
fn collect_break_types(expr: &Expr, env: &im::HashMap<String, Type>, defns: &[FunDefn]) -> (r:
    Result<Type, String>)
    ensures
        check_view(r) == spec_break_join(expr@, types_of(*env), defns_view(defns@), Type::Nothing),
    decreases expr, 2int,
{
    collect_break_types_helper(expr, env, defns, Type::Nothing)
}

fn collect_break_types_helper(
    expr: &Expr,
    env: &im::HashMap<String, Type>,
    defns: &[FunDefn],
    acc: Type,
) -> (r: Result<Type, String>)
    ensures
        check_view(r) == spec_break_join(expr@, types_of(*env), defns_view(defns@), acc),
    decreases expr, 1int,
{
    match expr {
        Expr::Break(e) => {
            match typecheck_expr(e, env, defns) {
                Ok(t) => Ok(acc.union(&t)),
                Err(msg) => Err(msg),
            }
        },
        Expr::Loop(_) => Ok(acc),
        Expr::UnOp(_, e) => collect_break_types_helper(e, env, defns, acc),
        Expr::BinOp(_, e1, e2) => {
            let acc1 = match collect_break_types_helper(e1, env, defns, acc) {
                Ok(t) => t,
                Err(msg) => { return Err(msg); },
            };
            collect_break_types_helper(e2, env, defns, acc1)
        },
        Expr::If(e1, e2, e3) => {
            let acc1 = match collect_break_types_helper(e1, env, defns, acc) {
                Ok(t) => t,
                Err(msg) => { return Err(msg); },
            };
            let acc2 = match collect_break_types_helper(e2, env, defns, acc1) {
                Ok(t) => t,
                Err(msg) => { return Err(msg); },
            };
            collect_break_types_helper(e3, env, defns, acc2)
        },
        Expr::Let(_, _) => collect_break_types_let(expr, env, defns, acc),
        Expr::Block(exprs) => collect_break_types_list(exprs, env, defns, acc),
        Expr::SetVar(_, e) => collect_break_types_helper(e, env, defns, acc),
        Expr::Call(_, args) => collect_break_types_list(args, env, defns, acc),
        Expr::Cast(e, _) => collect_break_types_helper(e, env, defns, acc),
        _ => Ok(acc),
    }
}

fn collect_break_types_list(
    es: &Vec<Expr>,
    env: &im::HashMap<String, Type>,
    defns: &[FunDefn],
    acc: Type,
) -> (r: Result<Type, String>)
    ensures
        check_view(r) == spec_break_join_list(
            exprs_view(es@),
            0,
            types_of(*env),
            defns_view(defns@),
            acc,
        ),
    decreases es, 0int,
{
    let mut cur = acc;
    let mut i: usize = 0;
    while i < es.len()
        invariant
            i <= es@.len(),
            spec_break_join_list(exprs_view(es@), 0, types_of(*env), defns_view(defns@), acc)
                == spec_break_join_list(
                exprs_view(es@),
                i as int,
                types_of(*env),
                defns_view(defns@),
                cur,
            ),
        decreases es@.len() - i,
    {
        cur = match collect_break_types_helper(&es[i], env, defns, cur) {
            Ok(t) => t,
            Err(msg) => { return Err(msg); },
        };
        i += 1;
    }
    Ok(cur)
}

#[verifier::loop_isolation(false)]
fn collect_break_types_let(
    expr: &Expr,
    env: &im::HashMap<String, Type>,
    defns: &[FunDefn],
    acc: Type,
) -> (r: Result<Type, String>)
    requires
        expr is Let,
    ensures
        check_view(r) == spec_break_join_let(expr@, 0, types_of(*env), defns_view(defns@), acc),
    decreases expr, 0int,
{
    let ghost m = types_of(*env);
    let ghost ds = defns_view(defns@);
    match expr {
        Expr::Let(bindings, body) => {
            let mut new_env = types_clone(env);
            let mut cur = acc;
            let mut i: usize = 0;
            while i < bindings.len()
                invariant
                    i <= bindings@.len(),
                    spec_break_join_let(expr@, 0, m, ds, acc) == spec_break_join_let(
                        expr@,
                        i as int,
                        types_of(new_env),
                        ds,
                        cur,
                    ),
                decreases bindings@.len() - i,
            {
                proof {
                    lemma_bindings_view(bindings@);
                }
                cur = match collect_break_types_helper(&bindings[i].1, &new_env, defns, cur) {
                    Ok(t) => t,
                    Err(msg) => { return Err(msg); },
                };
                let t = match typecheck_expr(&bindings[i].1, &new_env, defns) {
                    Ok(t) => t,
                    Err(msg) => { return Err(msg); },
                };
                new_env = types_update(&new_env, bindings[i].0.clone(), t);
                i += 1;
            }
            proof {
                lemma_bindings_view(bindings@);
            }
            collect_break_types_helper(body, &new_env, defns, cur)
        },
        _ => Ok(acc),
    }
}

/// The typing environment of a function body after its first `n` parameters
/// are bound on top of `base`: each to its annotation where the definition
/// has annotations, as far as they reach, and to `Any` where it has none.
pub open spec fn spec_param_env(
    params: Seq<Seq<char>>,
    pts: Option<Seq<Type>>,
    n: nat,
    base: Map<Seq<char>, Type>,
) -> Map<Seq<char>, Type>
    decreases n,
{
    if n == 0 {
        base
    } else {
        let before = spec_param_env(params, pts, (n - 1) as nat, base);
        match pts {
            Some(ts) => before.insert(params[n - 1], ts[n - 1]),
            None => before.insert(params[n - 1], Type::Any),
        }
    }
}

/// How many parameters of a definition get a binding in its typing
/// environment.
pub open spec fn bound_params(d: FunDefnView) -> nat {
    match d.param_types {
        Some(ts) => if ts.len() < d.params.len() {
            ts.len()
        } else {
            d.params.len()
        },
        None => d.params.len(),
    }
}

/// Whether a definition is well typed where the names of `globals` are in
/// scope: `Ok` if its body has a type in the environment of its parameters
/// on top of `globals` and, where a result type is declared, that type is a
/// subtype of it; else the message of the error.
pub open spec fn spec_typecheck_defn_in(
    d: FunDefnView,
    defns: Seq<FunDefnView>,
    globals: Map<Seq<char>, Type>,
) -> Result<(), Seq<char>> {
    match spec_typecheck(
        d.body,
        spec_param_env(d.params, d.param_types, bound_params(d), globals),
        defns,
    ) {
        Err(m) => Err(m),
        Ok(t) => match d.return_type {
            Some(rt) => if spec_is_subtype(t, rt) {
                Ok(())
            } else {
                Err(msg_body(d.name, t, rt))
            },
            None => Ok(()),
        },
    }
}

/// Whether a definition is well typed with nothing but its parameters in
/// scope.
pub open spec fn spec_typecheck_defn(d: FunDefnView, defns: Seq<FunDefnView>) -> Result<
    (),
    Seq<char>,
> {
    spec_typecheck_defn_in(d, defns, Map::empty())
}

/// The definitions of `defns` from index `i` on are checked in order.
pub open spec fn spec_typecheck_defns(defns: Seq<FunDefnView>, i: int) -> Result<(), Seq<char>>
    decreases defns.len() - i,
{
    if i < 0 || i >= defns.len() {
        Ok(())
    } else {
        match spec_typecheck_defn(defns[i], defns) {
            Err(m) => Err(m),
            Ok(_) => spec_typecheck_defns(defns, i + 1),
        }
    }
}

/// The typing environment of a main expression: `input` has the given type,
/// `Any` if none is given.
pub open spec fn spec_input_env(input_type: Option<Type>) -> Map<Seq<char>, Type> {
    Map::empty().insert(
        "input"@,
        match input_type {
            Some(t) => t,
            None => Type::Any,
        },
    )
}

/// The type of a program: that of its main expression, once every
/// definition is well typed.
pub open spec fn spec_typecheck_program(p: ProgramView, input_type: Option<Type>) -> Result<
    Type,
    Seq<char>,
> {
    match spec_typecheck_defns(p.defns, 0) {
        Err(m) => Err(m),
        Ok(_) => spec_typecheck(p.main, spec_input_env(input_type), p.defns),
    }
}

/// The value of a result without a type.
pub open spec fn unit_view(r: Result<(), String>) -> Result<(), Seq<char>> {
    match r {
        Ok(_) => Ok(()),
        Err(m) => Err(m@),
    }
}

fn param_env(defn: &FunDefn, globals: &im::HashMap<String, Type>) -> (env: im::HashMap<
    String,
    Type,
>)
    ensures
        types_of(env) == spec_param_env(
            defn@.params,
            defn@.param_types,
            bound_params(defn@),
            types_of(*globals),
        ),
{
    let mut env = types_clone(globals);
    let mut i: usize = 0;
    match &defn.param_types {
        Some(param_types) => {
            while i < defn.params.len() && i < param_types.len()
                invariant
                    i <= defn.params@.len(),
                    i <= param_types@.len(),
                    defn.param_types == Some(*param_types),
                    types_of(env) == spec_param_env(
                        defn@.params,
                        defn@.param_types,
                        i as nat,
                        types_of(*globals),
                    ),
                decreases defn.params@.len() - i,
            {
                env = types_update(&env, defn.params[i].clone(), param_types[i]);
                i += 1;
            }
        },
        None => {
            while i < defn.params.len()
                invariant
                    i <= defn.params@.len(),
                    defn.param_types.is_none(),
                    types_of(env) == spec_param_env(
                        defn@.params,
                        defn@.param_types,
                        i as nat,
                        types_of(*globals),
                    ),
                decreases defn.params@.len() - i,
            {
                env = types_update(&env, defn.params[i].clone(), Type::Any);
                i += 1;
            }
        },
    }
    env
}

/// Checks one function definition against all known definitions, with
/// nothing but its parameters in scope.
pub fn typecheck_defn(defn: &FunDefn, all_defns: &[FunDefn]) -> (r: Result<(), String>)
    ensures
        unit_view(r) == spec_typecheck_defn(defn@, defns_view(all_defns@)),
{
    let globals = types_new();
    typecheck_defn_in(defn, all_defns, &globals)
}

/// Checks one function definition against all known definitions, with the
/// names of `globals` in scope under its parameters.
pub fn typecheck_defn_in(
    defn: &FunDefn,
    all_defns: &[FunDefn],
    globals: &im::HashMap<String, Type>,
) -> (r: Result<(), String>)
    ensures
        unit_view(r) == spec_typecheck_defn_in(defn@, defns_view(all_defns@), types_of(*globals)),
{
    let env = param_env(defn, globals);
    let body_type = match typecheck_expr(&defn.body, &env, all_defns) {
        Ok(t) => t,
        Err(msg) => { return Err(msg); },
    };
    match defn.return_type {
        Some(ret_type) => {
            if !body_type.is_subtype(&ret_type) {
                let mut msg = String::from_str("Type error: function ");
                msg.append(defn.name.as_str());
                msg.append(" body has type ");
                msg.append(type_str(body_type));
                msg.append(" but declared ");
                msg.append(type_str(ret_type));
                return Err(msg);
            }
            Ok(())
        },
        None => Ok(()),
    }
}

/// Checks a program: every definition, then the main expression with
/// `input` of the given type, `Any` if none is given. The result is the type
/// of the main expression.
pub fn typecheck_program(program: &Program, input_type: Option<Type>) -> (r: Result<Type, String>)
    ensures
        check_view(r) == spec_typecheck_program(program@, input_type),
{
    let mut i: usize = 0;
    while i < program.defns.len()
        invariant
            i <= program.defns@.len(),
            spec_typecheck_defns(defns_view(program.defns@), 0) == spec_typecheck_defns(
                defns_view(program.defns@),
                i as int,
            ),
        decreases program.defns@.len() - i,
    {
        match typecheck_defn(&program.defns[i], program.defns.as_slice()) {
            Ok(_) => {},
            Err(msg) => { return Err(msg); },
        }
        i += 1;
    }
    let env = types_new();
    let t = match input_type {
        Some(t) => t,
        None => Type::Any,
    };
    let env = types_update(&env, String::from_str("input"), t);
    typecheck_expr(&program.main, &env, program.defns.as_slice())
}

/// A loop whose body holds no `break` of its own has type `Nothing` wherever
/// it has a type.
pub proof fn lemma_loop_without_break(
    body: ExprView,
    env: Map<Seq<char>, Type>,
    defns: Seq<FunDefnView>,
)
    requires
        !has_own_break(body),
    ensures
        spec_typecheck(ExprView::Loop(Box::new(body)), env, defns) matches Ok(t) ==> t
            == Type::Nothing,
{
    lemma_no_break_keeps(body, env, defns, Type::Nothing);
}

/// Collecting the types of a loop's own `break`s over an expression that
/// holds none leaves the join collected so far unchanged.
pub proof fn lemma_no_break_keeps(
    e: ExprView,
    env: Map<Seq<char>, Type>,
    defns: Seq<FunDefnView>,
    acc: Type,
)
    requires
        !has_own_break(e),
    ensures
        spec_break_join(e, env, defns, acc) matches Ok(t) ==> t == acc,
    decreases e, 1int, 0int,
{
    match e {
        ExprView::UnOp(_, a) => lemma_no_break_keeps(*a, env, defns, acc),
        ExprView::BinOp(_, a, b) => {
            lemma_no_break_keeps(*a, env, defns, acc);
            lemma_no_break_keeps(*b, env, defns, acc);
        },
        ExprView::If(c, t, f) => {
            lemma_no_break_keeps(*c, env, defns, acc);
            lemma_no_break_keeps(*t, env, defns, acc);
            lemma_no_break_keeps(*f, env, defns, acc);
        },
        ExprView::Let(_, _) => lemma_no_break_keeps_let(e, 0, env, defns, acc),
        ExprView::Block(es) => lemma_no_break_keeps_list(es, 0, env, defns, acc),
        ExprView::SetVar(_, a) => lemma_no_break_keeps(*a, env, defns, acc),
        ExprView::Call(_, args) => lemma_no_break_keeps_list(args, 0, env, defns, acc),
        ExprView::Cast(a, _) => lemma_no_break_keeps(*a, env, defns, acc),
        _ => {},
    }
}

proof fn lemma_no_break_keeps_list(
    es: Seq<ExprView>,
    i: int,
    env: Map<Seq<char>, Type>,
    defns: Seq<FunDefnView>,
    acc: Type,
)
    requires
        0 <= i,
        forall|j: int| 0 <= j < es.len() ==> !has_own_break(#[trigger] es[j]),
    ensures
        spec_break_join_list(es, i, env, defns, acc) matches Ok(t) ==> t == acc,
    decreases es, 0int, es.len() - i,
{
    if i < es.len() {
        lemma_no_break_keeps(es[i], env, defns, acc);
        lemma_no_break_keeps_list(es, i + 1, env, defns, acc);
    }
}

proof fn lemma_no_break_keeps_let(
    e: ExprView,
    i: int,
    env: Map<Seq<char>, Type>,
    defns: Seq<FunDefnView>,
    acc: Type,
)
    requires
        0 <= i,
        e is Let,
        !has_own_break(e),
    ensures
        spec_break_join_let(e, i, env, defns, acc) matches Ok(t) ==> t == acc,
    decreases e, 0int, e->Let_0.len() - i,
{
    let bindings = e->Let_0;
    let body = *e->Let_1;
    if i < bindings.len() {
        assert(!has_own_break(bindings[i].1));
        lemma_no_break_keeps(bindings[i].1, env, defns, acc);
        match spec_typecheck(bindings[i].1, env, defns) {
            Ok(t) => lemma_no_break_keeps_let(e, i + 1, env.insert(bindings[i].0, t), defns, acc),
            Err(_) => {},
        }
    } else {
        lemma_no_break_keeps(body, env, defns, acc);
    }
}

/// A loop nested in the body of another contributes nothing to the type of
/// the outer loop, whatever `break`s the nested loop holds: collecting over
/// it leaves the join unchanged, so a loop whose body is a loop has type
/// `Nothing` where the nested loop has a type, and its error where it has
/// none.
pub proof fn lemma_nested_loop_is_opaque(
    inner: ExprView,
    env: Map<Seq<char>, Type>,
    defns: Seq<FunDefnView>,
    acc: Type,
)
    ensures
        spec_break_join(ExprView::Loop(Box::new(inner)), env, defns, acc) == Ok::<
            Type,
            Seq<char>,
        >(acc),
        spec_typecheck(
            ExprView::Loop(Box::new(ExprView::Loop(Box::new(inner)))),
            env,
            defns,
        ) == (match spec_typecheck(ExprView::Loop(Box::new(inner)), env, defns) {
            Err(m) => Err::<Type, Seq<char>>(m),
            Ok(_) => Ok::<Type, Seq<char>>(Type::Nothing),
        }),
{
    let nested = ExprView::Loop(Box::new(inner));
    assert(spec_break_join(nested, env, defns, Type::Nothing) == Ok::<Type, Seq<char>>(
        Type::Nothing,
    ));
}

/// An `if` whose condition is a subtype of `Bool` and whose branches have
/// types has the join of those types: branches of different types are no
/// error, and `Num` against `Bool` gives `Any`.
pub proof fn lemma_if_joins_branches(
    c: ExprView,
    t: ExprView,
    f: ExprView,
    env: Map<Seq<char>, Type>,
    defns: Seq<FunDefnView>,
)
    requires
        spec_typecheck(c, env, defns) matches Ok(ct) && spec_is_subtype(ct, Type::Bool),
        spec_typecheck(t, env, defns) is Ok,
        spec_typecheck(f, env, defns) is Ok,
    ensures
        spec_typecheck(ExprView::If(Box::new(c), Box::new(t), Box::new(f)), env, defns) == Ok::<
            Type,
            Seq<char>,
        >(
            spec_union(
                spec_typecheck(t, env, defns)->Ok_0,
                spec_typecheck(f, env, defns)->Ok_0,
            ),
        ),
        spec_union(Type::Num, Type::Bool) == Type::Any,
        spec_union(Type::Bool, Type::Num) == Type::Any,
{
}

/// A loop checks its whole body: it has a type exactly if its body has one,
/// and where the body has none, the error of the body is the error of the
/// loop. So a type error or an unbound variable anywhere in the body is
/// reported, also where no `break` is near it and also inside a nested loop.
pub proof fn lemma_loop_checks_its_body(
    body: ExprView,
    env: Map<Seq<char>, Type>,
    defns: Seq<FunDefnView>,
)
    ensures
        spec_typecheck(ExprView::Loop(Box::new(body)), env, defns) is Ok <==> spec_typecheck(
            body,
            env,
            defns,
        ) is Ok,
        spec_typecheck(body, env, defns) matches Err(m) ==> spec_typecheck(
            ExprView::Loop(Box::new(body)),
            env,
            defns,
        ) == Err::<Type, Seq<char>>(m),
{
    if spec_typecheck(body, env, defns) is Ok {
        lemma_join_exists(body, env, defns, Type::Nothing);
    }
}

/// Over an expression that has a type, the join of a loop's own `break`s
/// exists: collecting meets no error that checking has not met.
pub proof fn lemma_join_exists(
    e: ExprView,
    env: Map<Seq<char>, Type>,
    defns: Seq<FunDefnView>,
    acc: Type,
)
    requires
        spec_typecheck(e, env, defns) is Ok,
    ensures
        spec_break_join(e, env, defns, acc) is Ok,
    decreases e, 1int, 0int,
{
    match e {
        ExprView::UnOp(_, a) => lemma_join_exists(*a, env, defns, acc),
        ExprView::BinOp(_, a, b) => {
            lemma_join_exists(*a, env, defns, acc);
            lemma_join_exists(*b, env, defns, spec_break_join(*a, env, defns, acc)->Ok_0);
        },
        ExprView::If(c, t, f) => {
            lemma_join_exists(*c, env, defns, acc);
            let acc1 = spec_break_join(*c, env, defns, acc)->Ok_0;
            lemma_join_exists(*t, env, defns, acc1);
            lemma_join_exists(*f, env, defns, spec_break_join(*t, env, defns, acc1)->Ok_0);
        },
        ExprView::Let(_, _) => lemma_join_exists_let(e, 0, env, defns, acc),
        ExprView::Block(es) => {
            lemma_block_checks_all(es, 0, Type::Any, env, defns);
            lemma_join_exists_list(es, 0, env, defns, acc);
        },
        ExprView::SetVar(_, a) => lemma_join_exists(*a, env, defns, acc),
        ExprView::Call(fname, args) => {
            let d = find_defn(defns, fname, 0)->Some_0;
            match d.param_types {
                Some(pts) => lemma_typed_args_check_all(args, 0, pts, env, defns),
                None => lemma_block_checks_all(args, 0, Type::Any, env, defns),
            }
            lemma_join_exists_list(args, 0, env, defns, acc);
        },
        ExprView::Cast(a, _) => lemma_join_exists(*a, env, defns, acc),
        _ => {},
    }
}

/// Where a list of expressions has a type from index `i` on, each of them
/// has one.
proof fn lemma_block_checks_all(
    es: Seq<ExprView>,
    i: int,
    last: Type,
    env: Map<Seq<char>, Type>,
    defns: Seq<FunDefnView>,
)
    requires
        0 <= i,
        spec_typecheck_block(es, i, last, env, defns) is Ok,
    ensures
        forall|j: int| i <= j < es.len() ==> spec_typecheck(#[trigger] es[j], env, defns) is Ok,
    decreases es.len() - i,
{
    if i < es.len() {
        lemma_block_checks_all(es, i + 1, spec_typecheck(es[i], env, defns)->Ok_0, env, defns);
    }
}

/// Where the arguments of a call are accepted from index `i` on, each of
/// them has a type.
proof fn lemma_typed_args_check_all(
    args: Seq<ExprView>,
    i: int,
    pts: Seq<Type>,
    env: Map<Seq<char>, Type>,
    defns: Seq<FunDefnView>,
)
    requires
        0 <= i,
        spec_typecheck_typed_args(args, i, pts, env, defns) is Ok,
    ensures
        forall|j: int| i <= j < args.len() ==> spec_typecheck(#[trigger] args[j], env, defns) is Ok,
    decreases args.len() - i,
{
    if i < args.len() {
        lemma_typed_args_check_all(args, i + 1, pts, env, defns);
    }
}

proof fn lemma_join_exists_list(
    es: Seq<ExprView>,
    i: int,
    env: Map<Seq<char>, Type>,
    defns: Seq<FunDefnView>,
    acc: Type,
)
    requires
        0 <= i,
        forall|j: int| i <= j < es.len() ==> spec_typecheck(#[trigger] es[j], env, defns) is Ok,
    ensures
        spec_break_join_list(es, i, env, defns, acc) is Ok,
    decreases es, 0int, es.len() - i,
{
    if i < es.len() {
        lemma_join_exists(es[i], env, defns, acc);
        lemma_join_exists_list(
            es,
            i + 1,
            env,
            defns,
            spec_break_join(es[i], env, defns, acc)->Ok_0,
        );
    }
}

proof fn lemma_join_exists_let(
    e: ExprView,
    i: int,
    env: Map<Seq<char>, Type>,
    defns: Seq<FunDefnView>,
    acc: Type,
)
    requires
        e is Let,
        0 <= i,
        spec_typecheck_let(e, i, env, defns) is Ok,
    ensures
        spec_break_join_let(e, i, env, defns, acc) is Ok,
    decreases e, 0int, e->Let_0.len() - i,
{
    let bindings = e->Let_0;
    let body = *e->Let_1;
    if i < bindings.len() {
        lemma_join_exists(bindings[i].1, env, defns, acc);
        let t = spec_typecheck(bindings[i].1, env, defns)->Ok_0;
        lemma_join_exists_let(
            e,
            i + 1,
            env.insert(bindings[i].0, t),
            defns,
            spec_break_join(bindings[i].1, env, defns, acc)->Ok_0,
        );
    } else {
        lemma_join_exists(body, env, defns, acc);
    }
}

} // verus!
