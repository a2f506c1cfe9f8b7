use snek::ast::{Expr, FunDefn, Op1, Op2, Program, Type};
use snek::typechecker::{typecheck_defn, typecheck_defn_in, typecheck_expr, typecheck_program};

fn num(n: i32) -> Box<Expr> {
    Box::new(Expr::Number(n))
}

fn boolean(b: bool) -> Box<Expr> {
    Box::new(Expr::Boolean(b))
}

fn id(name: &str) -> Box<Expr> {
    Box::new(Expr::Id(name.to_string()))
}

fn env(bindings: &[(&str, Type)]) -> im::HashMap<String, Type> {
    let mut env = im::HashMap::new();
    for (name, ty) in bindings {
        env = env.update(name.to_string(), *ty);
    }
    env
}

fn check(e: &Expr) -> Result<Type, String> {
    typecheck_expr(e, &env(&[("input", Type::Any)]), &[])
}

fn typed(name: &str, params: &[(&str, Type)], ret: Type, body: Expr) -> FunDefn {
    FunDefn {
        name: name.to_string(),
        params: params.iter().map(|(p, _)| p.to_string()).collect(),
        body: Box::new(body),
        param_types: Some(params.iter().map(|(_, t)| *t).collect()),
        return_type: Some(ret),
    }
}

fn untyped(name: &str, params: &[&str], body: Expr) -> FunDefn {
    FunDefn {
        name: name.to_string(),
        params: params.iter().map(|p| p.to_string()).collect(),
        body: Box::new(body),
        param_types: None,
        return_type: None,
    }
}

const ALL: [Type; 4] = [Type::Num, Type::Bool, Type::Any, Type::Nothing];

#[test]
fn union_is_the_join() {
    assert_eq!(Type::Num.union(&Type::Num), Type::Num);
    assert_eq!(Type::Num.union(&Type::Bool), Type::Any);
    assert_eq!(Type::Bool.union(&Type::Num), Type::Any);
    assert_eq!(Type::Nothing.union(&Type::Bool), Type::Bool);
    assert_eq!(Type::Num.union(&Type::Nothing), Type::Num);
    assert_eq!(Type::Any.union(&Type::Nothing), Type::Any);
    assert_eq!(Type::Nothing.union(&Type::Nothing), Type::Nothing);
    for a in ALL {
        for b in ALL {
            let j = a.union(&b);
            assert_eq!(j, b.union(&a));
            assert!(a.is_subtype(&j) && b.is_subtype(&j));
            for c in ALL {
                assert_eq!(a.union(&b).union(&c), a.union(&b.union(&c)));
                if a.is_subtype(&c) && b.is_subtype(&c) {
                    assert!(j.is_subtype(&c));
                }
            }
        }
    }
}

#[test]
fn subtyping_is_the_lattice_order() {
    for a in ALL {
        assert!(a.is_subtype(&a));
        assert!(Type::Nothing.is_subtype(&a));
        assert!(a.is_subtype(&Type::Any));
    }
    assert!(!Type::Num.is_subtype(&Type::Bool));
    assert!(!Type::Bool.is_subtype(&Type::Num));
    assert!(!Type::Any.is_subtype(&Type::Num));
    assert!(!Type::Num.is_subtype(&Type::Nothing));
}

#[test]
fn literals_and_variables() {
    assert_eq!(check(&Expr::Number(3)), Ok(Type::Num));
    assert_eq!(check(&Expr::Boolean(true)), Ok(Type::Bool));
    assert_eq!(check(&Expr::Input), Ok(Type::Any));
    assert_eq!(typecheck_expr(&Expr::Input, &env(&[("input", Type::Bool)]), &[]), Ok(Type::Bool));
    assert_eq!(
        typecheck_expr(&Expr::Input, &env(&[]), &[]),
        Err("Type error: input not in environment".to_string())
    );
    assert_eq!(check(&id("x")), Err("Type error: unbound variable x".to_string()));
    assert_eq!(typecheck_expr(&id("x"), &env(&[("x", Type::Num)]), &[]), Ok(Type::Num));
}

#[test]
fn unary_operators_have_types() {
    assert_eq!(check(&Expr::UnOp(Op1::Add1, num(1))), Ok(Type::Num));
    assert_eq!(
        check(&Expr::UnOp(Op1::Sub1, boolean(true))),
        Err("Type error: add1/sub1 requires Num, got Bool".to_string())
    );
    assert_eq!(
        check(&Expr::UnOp(Op1::Add1, Box::new(Expr::Input))),
        Err("Type error: add1/sub1 requires Num, got Any".to_string())
    );
    assert_eq!(check(&Expr::UnOp(Op1::IsNum, boolean(true))), Ok(Type::Bool));
    assert_eq!(check(&Expr::UnOp(Op1::IsBool, num(1))), Ok(Type::Bool));
    assert_eq!(check(&Expr::UnOp(Op1::Print, num(1))), Ok(Type::Num));
    assert_eq!(check(&Expr::UnOp(Op1::Print, boolean(false))), Ok(Type::Bool));
}

#[test]
fn binary_operators_have_types() {
    assert_eq!(check(&Expr::BinOp(Op2::Plus, num(1), num(2))), Ok(Type::Num));
    assert_eq!(
        check(&Expr::BinOp(Op2::Times, boolean(true), num(2))),
        Err("Type error: arithmetic requires Num, got Bool".to_string())
    );
    assert_eq!(
        check(&Expr::BinOp(Op2::Minus, num(2), Box::new(Expr::Input))),
        Err("Type error: arithmetic requires Num, got Any".to_string())
    );
    assert_eq!(check(&Expr::BinOp(Op2::Less, num(1), num(2))), Ok(Type::Bool));
    assert_eq!(
        check(&Expr::BinOp(Op2::GreaterEqual, num(1), boolean(true))),
        Err("Type error: comparison requires Num".to_string())
    );
    assert_eq!(check(&Expr::BinOp(Op2::Equal, num(1), num(2))), Ok(Type::Bool));
    assert_eq!(check(&Expr::BinOp(Op2::Equal, boolean(true), boolean(false))), Ok(Type::Bool));
    assert_eq!(
        check(&Expr::BinOp(Op2::Equal, num(1), boolean(true))),
        Err("Type error: = requires both Num or both Bool".to_string())
    );
}

#[test]
fn let_binds_in_sequence() {
    let e = Expr::Let(
        vec![
            ("x".to_string(), Expr::Number(1)),
            ("y".to_string(), Expr::BinOp(Op2::Less, id("x"), num(2))),
        ],
        id("y"),
    );
    assert_eq!(check(&e), Ok(Type::Bool));
    let late = Expr::Let(
        vec![("y".to_string(), *id("x")), ("x".to_string(), Expr::Number(1))],
        id("y"),
    );
    assert_eq!(check(&late), Err("Type error: unbound variable x".to_string()));
    let shadow = Expr::Let(
        vec![("x".to_string(), Expr::Number(1)), ("x".to_string(), Expr::Boolean(true))],
        id("x"),
    );
    assert_eq!(check(&shadow), Ok(Type::Bool));
}

#[test]
fn if_branches_of_different_types_join_to_any() {
    assert_eq!(check(&Expr::If(boolean(true), num(1), boolean(false))), Ok(Type::Any));
    assert_eq!(check(&Expr::If(boolean(true), num(1), num(2))), Ok(Type::Num));
    assert_eq!(
        check(&Expr::If(num(1), num(1), num(2))),
        Err("Type error: if condition must be Bool, got Num".to_string())
    );
    let leaving = Expr::Loop(Box::new(Expr::If(
        boolean(true),
        Box::new(Expr::Break(num(1))),
        num(2),
    )));
    assert_eq!(check(&leaving), Ok(Type::Num));
}

#[test]
fn block_has_the_type_of_its_last_expression() {
    assert_eq!(check(&Expr::Block(vec![Expr::Number(1), Expr::Boolean(true)])), Ok(Type::Bool));
    assert_eq!(check(&Expr::Block(vec![])), Ok(Type::Any));
    assert_eq!(
        check(&Expr::Block(vec![*id("nope"), Expr::Boolean(true)])),
        Err("Type error: unbound variable nope".to_string())
    );
}

#[test]
fn assignment_keeps_the_type_of_the_variable() {
    let scope = env(&[("x", Type::Num), ("a", Type::Any)]);
    assert_eq!(typecheck_expr(&Expr::SetVar("x".to_string(), num(1)), &scope, &[]), Ok(Type::Num));
    assert_eq!(
        typecheck_expr(&Expr::SetVar("x".to_string(), boolean(true)), &scope, &[]),
        Err("Type error: cannot assign Bool to Num".to_string())
    );
    assert_eq!(
        typecheck_expr(&Expr::SetVar("a".to_string(), boolean(true)), &scope, &[]),
        Ok(Type::Bool)
    );
    assert_eq!(
        typecheck_expr(&Expr::SetVar("y".to_string(), num(1)), &scope, &[]),
        Err("Type error: unbound variable y".to_string())
    );
}

#[test]
fn a_loop_without_break_has_type_nothing() {
    assert_eq!(check(&Expr::Loop(num(1))), Ok(Type::Nothing));
    assert_eq!(check(&Expr::Loop(Box::new(Expr::Block(vec![Expr::Number(1)])))), Ok(Type::Nothing));
    assert_eq!(check(&Expr::Break(num(1))), Ok(Type::Nothing));
}

#[test]
fn a_loop_joins_its_own_breaks() {
    let both = Expr::Loop(Box::new(Expr::Block(vec![
        Expr::Break(num(1)),
        Expr::Break(boolean(true)),
    ])));
    assert_eq!(check(&both), Ok(Type::Any));
    let one = Expr::Loop(Box::new(Expr::Break(boolean(true))));
    assert_eq!(check(&one), Ok(Type::Bool));
    let bad = Expr::Loop(Box::new(Expr::Break(id("nope"))));
    assert_eq!(check(&bad), Err("Type error: unbound variable nope".to_string()));
}

#[test]
fn a_break_in_a_nested_loop_stays_there() {
    let nested = Expr::Loop(Box::new(Expr::Loop(Box::new(Expr::Break(num(1))))));
    assert_eq!(check(&nested), Ok(Type::Nothing));
    let mixed = Expr::Loop(Box::new(Expr::Block(vec![
        Expr::Loop(Box::new(Expr::Break(num(1)))),
        Expr::Break(boolean(true)),
    ])));
    assert_eq!(check(&mixed), Ok(Type::Bool));
}

#[test]
fn calls_of_annotated_functions_are_strict() {
    let defns = vec![typed("f", &[("x", Type::Num)], Type::Bool, Expr::Boolean(true))];
    let scope = env(&[]);
    assert_eq!(
        typecheck_expr(&Expr::Call("f".to_string(), vec![Expr::Number(1)]), &scope, &defns),
        Ok(Type::Bool)
    );
    assert_eq!(
        typecheck_expr(&Expr::Call("f".to_string(), vec![Expr::Boolean(true)]), &scope, &defns),
        Err("Type error: argument has type Bool, expected Num".to_string())
    );
    assert_eq!(
        typecheck_expr(&Expr::Call("f".to_string(), vec![]), &scope, &defns),
        Err("Type error: wrong number of arguments".to_string())
    );
    assert_eq!(
        typecheck_expr(&Expr::Call("g".to_string(), vec![]), &scope, &defns),
        Err("Type error: undefined function g".to_string())
    );
}

#[test]
fn calls_of_unannotated_functions_are_dynamic() {
    let defns = vec![untyped("f", &["x"], Expr::Number(1))];
    let scope = env(&[]);
    assert_eq!(
        typecheck_expr(&Expr::Call("f".to_string(), vec![Expr::Boolean(true)]), &scope, &defns),
        Ok(Type::Any)
    );
    assert_eq!(
        typecheck_expr(&Expr::Call("f".to_string(), vec![*id("nope")]), &scope, &defns),
        Err("Type error: unbound variable nope".to_string())
    );
}

#[test]
fn a_call_without_declared_result_is_dynamic() {
    let mut f = typed("f", &[("x", Type::Num)], Type::Num, Expr::Number(1));
    f.return_type = None;
    assert_eq!(
        typecheck_expr(&Expr::Call("f".to_string(), vec![Expr::Number(1)]), &env(&[]), &[f]),
        Ok(Type::Any)
    );
}

#[test]
fn casts_are_checked_at_run_time() {
    assert_eq!(check(&Expr::Cast(boolean(true), Type::Num)), Ok(Type::Num));
    assert_eq!(check(&Expr::Cast(num(1), Type::Nothing)), Ok(Type::Nothing));
    assert_eq!(
        check(&Expr::Cast(id("nope"), Type::Num)),
        Err("Type error: unbound variable nope".to_string())
    );
}

#[test]
fn definitions_are_held_to_their_annotations() {
    let good = typed("f", &[("x", Type::Num)], Type::Num, Expr::UnOp(Op1::Add1, id("x")));
    assert_eq!(typecheck_defn(&good, &[good.clone()]), Ok(()));
    let bad = typed("f", &[("x", Type::Num)], Type::Bool, Expr::UnOp(Op1::Add1, id("x")));
    assert_eq!(
        typecheck_defn(&bad, &[bad.clone()]),
        Err("Type error: function f body has type Num but declared Bool".to_string())
    );
    let dynamic = untyped("g", &["x"], Expr::UnOp(Op1::Add1, id("x")));
    assert_eq!(
        typecheck_defn(&dynamic, &[dynamic.clone()]),
        Err("Type error: add1/sub1 requires Num, got Any".to_string())
    );
    let free = untyped("h", &["x"], *id("x"));
    assert_eq!(typecheck_defn(&free, &[free.clone()]), Ok(()));
    let recursive = typed(
        "r",
        &[("x", Type::Num)],
        Type::Num,
        Expr::Call("r".to_string(), vec![*id("x")]),
    );
    assert_eq!(typecheck_defn(&recursive, &[recursive.clone()]), Ok(()));
}

#[test]
fn definitions_see_the_given_globals() {
    let f = typed("f", &[("x", Type::Num)], Type::Num, Expr::BinOp(Op2::Plus, id("x"), id("acc")));
    assert_eq!(
        typecheck_defn(&f, &[f.clone()]),
        Err("Type error: unbound variable acc".to_string())
    );
    assert_eq!(typecheck_defn_in(&f, &[f.clone()], &env(&[("acc", Type::Num)])), Ok(()));
    let shadow = typed("g", &[("acc", Type::Bool)], Type::Bool, *id("acc"));
    assert_eq!(typecheck_defn_in(&shadow, &[shadow.clone()], &env(&[("acc", Type::Num)])), Ok(()));
}

#[test]
fn programs_check_definitions_then_main() {
    let f = typed("f", &[("x", Type::Num)], Type::Num, *id("x"));
    let program = Program {
        defns: vec![f.clone()],
        main: Expr::Call("f".to_string(), vec![Expr::Input]),
    };
    assert_eq!(
        typecheck_program(&program, None),
        Err("Type error: argument has type Any, expected Num".to_string())
    );
    assert_eq!(typecheck_program(&program, Some(Type::Num)), Ok(Type::Num));
    assert_eq!(
        typecheck_program(&program, Some(Type::Bool)),
        Err("Type error: argument has type Bool, expected Num".to_string())
    );
    let bad = typed("g", &[], Type::Bool, Expr::Number(1));
    let broken = Program { defns: vec![f, bad], main: Expr::Number(1) };
    assert_eq!(
        typecheck_program(&broken, None),
        Err("Type error: function g body has type Num but declared Bool".to_string())
    );
}

#[test]
fn a_loop_checks_its_whole_body() {
    let sum = Expr::Loop(Box::new(Expr::BinOp(Op2::Plus, num(1), boolean(true))));
    assert_eq!(check(&sum), Err("Type error: arithmetic requires Num, got Bool".to_string()));
    assert!(check(&sum).is_err());
    let unbound = Expr::Loop(id("nope"));
    assert_eq!(check(&unbound), Err("Type error: unbound variable nope".to_string()));
    let beside_a_break = Expr::Loop(Box::new(Expr::Block(vec![
        Expr::Break(num(1)),
        Expr::UnOp(Op1::Add1, boolean(false)),
    ])));
    assert_eq!(
        check(&beside_a_break),
        Err("Type error: add1/sub1 requires Num, got Bool".to_string())
    );
    let branch = Expr::Loop(Box::new(Expr::If(
        boolean(true),
        Box::new(Expr::Break(num(1))),
        Box::new(Expr::SetVar("nope".to_string(), num(1))),
    )));
    assert_eq!(check(&branch), Err("Type error: unbound variable nope".to_string()));
}

#[test]
fn a_nested_loop_is_checked_as_a_loop_of_its_own() {
    let nested = Expr::Loop(Box::new(Expr::Loop(Box::new(Expr::Break(id("nope"))))));
    assert_eq!(check(&nested), Err("Type error: unbound variable nope".to_string()));
    let inner_sum = Expr::Loop(Box::new(Expr::Block(vec![
        Expr::Loop(Box::new(Expr::BinOp(Op2::Less, num(1), boolean(true)))),
        Expr::Break(num(1)),
    ])));
    assert_eq!(check(&inner_sum), Err("Type error: comparison requires Num".to_string()));
    let fine = Expr::Loop(Box::new(Expr::Block(vec![
        Expr::UnOp(
            Op1::IsBool,
            Box::new(Expr::Loop(Box::new(Expr::Break(boolean(true))))),
        ),
        Expr::Break(num(1)),
    ])));
    assert_eq!(check(&fine), Ok(Type::Num));
    let used = Expr::UnOp(
        Op1::Add1,
        Box::new(Expr::Loop(Box::new(Expr::Loop(Box::new(Expr::Break(boolean(true))))))),
    );
    assert_eq!(check(&used), Ok(Type::Num));
}

#[test]
fn a_let_in_a_loop_extends_the_environment() {
    let bound = Expr::Loop(Box::new(Expr::Let(
        vec![("x".to_string(), Expr::Number(1)), ("y".to_string(), *id("x"))],
        Box::new(Expr::Break(id("y"))),
    )));
    assert_eq!(check(&bound), Ok(Type::Num));
    let late = Expr::Loop(Box::new(Expr::Let(
        vec![("x".to_string(), *id("y")), ("y".to_string(), Expr::Number(1))],
        Box::new(Expr::Break(id("y"))),
    )));
    assert_eq!(check(&late), Err("Type error: unbound variable y".to_string()));
    let body = Expr::Loop(Box::new(Expr::Let(
        vec![("x".to_string(), Expr::Boolean(true))],
        Box::new(Expr::Block(vec![Expr::Break(id("x")), Expr::UnOp(Op1::Sub1, id("x"))])),
    )));
    assert_eq!(check(&body), Err("Type error: add1/sub1 requires Num, got Bool".to_string()));
}

#[test]
fn every_argument_of_a_call_is_checked() {
    let mut partly = typed("f", &[("x", Type::Num)], Type::Bool, Expr::Boolean(true));
    partly.params.push("y".to_string());
    let defns = vec![partly];
    let scope = env(&[]);
    let call = |second: Expr| Expr::Call("f".to_string(), vec![Expr::Number(1), second]);
    assert_eq!(typecheck_expr(&call(Expr::Boolean(true)), &scope, &defns), Ok(Type::Bool));
    assert_eq!(
        typecheck_expr(&call(*id("nope")), &scope, &defns),
        Err("Type error: unbound variable nope".to_string())
    );
    assert_eq!(
        typecheck_expr(&call(Expr::BinOp(Op2::Plus, num(1), boolean(true))), &scope, &defns),
        Err("Type error: arithmetic requires Num, got Bool".to_string())
    );
    let first = Expr::Call("f".to_string(), vec![Expr::Boolean(true), *id("nope")]);
    assert_eq!(
        typecheck_expr(&first, &scope, &defns),
        Err("Type error: argument has type Bool, expected Num".to_string())
    );
}

#[test]
fn a_function_with_a_faulty_loop_is_not_well_typed() {
    let body = Expr::Loop(Box::new(Expr::Block(vec![
        Expr::BinOp(Op2::Plus, id("x"), boolean(true)),
        Expr::Break(id("x")),
    ])));
    let f = typed("f", &[("x", Type::Num)], Type::Num, body);
    assert_eq!(
        typecheck_defn(&f, &[f.clone()]),
        Err("Type error: arithmetic requires Num, got Bool".to_string())
    );
    let program = Program { defns: vec![], main: Expr::Loop(Box::new(Expr::UnOp(Op1::Add1, boolean(true)))) };
    assert_eq!(
        typecheck_program(&program, None),
        Err("Type error: add1/sub1 requires Num, got Bool".to_string())
    );
}
