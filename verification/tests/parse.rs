use snek::ast::{Expr, Op1, Op2, ReplEntry, Type};
use snek::parser::{
    is_keyword, parse_bind, parse_defn, parse_expr, parse_program, parse_repl_entry, parse_type,
    read_entry, read_program, Tree,
};

fn sym(s: &str) -> Tree {
    Tree::Sym(s.to_string())
}

fn list(items: Vec<Tree>) -> Tree {
    Tree::List(items)
}

fn show(r: Result<Expr, String>) -> String {
    match r {
        Ok(e) => format!("{:?}", e),
        Err(m) => format!("error: {}", m),
    }
}

fn expr(text: &str) -> String {
    match read_entry(text) {
        Ok(ReplEntry::Expr(e)) => format!("{:?}", e),
        Ok(other) => format!("{:?}", other),
        Err(m) => format!("error: {}", m),
    }
}

fn program_error(text: &str) -> String {
    read_program(text).err().unwrap()
}

#[test]
fn keywords() {
    for word in [
        "let", "add1", "sub1", "isnum", "isbool", "+", "-", "*", "<", ">", ">=", "<=", "=", "if",
        "block", "loop", "break", "set!", "true", "false", "input", "define", "fun", "print",
    ] {
        assert!(is_keyword(word), "{}", word);
    }
    for word in ["x", "cast", "Let", "", "add2", "fun_f"] {
        assert!(!is_keyword(word), "{}", word);
    }
}

#[test]
fn types() {
    assert_eq!(parse_type(&sym("Num")), Ok(Type::Num));
    assert_eq!(parse_type(&sym("Bool")), Ok(Type::Bool));
    assert_eq!(parse_type(&sym("Any")), Ok(Type::Any));
    assert_eq!(parse_type(&sym("Nothing")), Ok(Type::Nothing));
    assert_eq!(parse_type(&sym("Int")), Err("Invalid type: Int".to_string()));
    assert_eq!(parse_type(&Tree::Int(1)), Err("Invalid type".to_string()));
    assert_eq!(parse_type(&list(vec![])), Err("Invalid type".to_string()));
}

#[test]
fn atoms() {
    assert_eq!(show(parse_expr(&Tree::Int(5))), "Number(5)");
    assert_eq!(show(parse_expr(&Tree::Int(-1073741824))), "Number(-1073741824)");
    assert_eq!(show(parse_expr(&Tree::Int(1073741823))), "Number(1073741823)");
    assert_eq!(show(parse_expr(&Tree::Int(1073741824))), "error: Invalid: number out of range");
    assert_eq!(show(parse_expr(&Tree::Int(i64::MAX))), "error: Invalid: number out of range");
    assert_eq!(show(parse_expr(&Tree::Float)), "error: floats not supported yet :)");
    assert_eq!(show(parse_expr(&sym("true"))), "Boolean(true)");
    assert_eq!(show(parse_expr(&sym("false"))), "Boolean(false)");
    assert_eq!(show(parse_expr(&sym("input"))), "Input");
    assert_eq!(show(parse_expr(&sym("x"))), "Id(\"x\")");
    assert_eq!(show(parse_expr(&sym("let"))), "error: keyword");
    assert_eq!(show(parse_expr(&list(vec![]))), "error: empty expr");
    assert_eq!(show(parse_expr(&list(vec![Tree::Int(1)]))), "error: expected operation");
}

#[test]
fn the_reader_feeds_the_parser() {
    assert_eq!(expr("5"), "Number(5)");
    assert_eq!(expr("  x  "), "Id(\"x\")");
    assert_eq!(expr("(add1 (sub1 5))"), "UnOp(Add1, UnOp(Sub1, Number(5)))");
    assert_eq!(expr("1.5"), "error: Invalid");
    assert_eq!(expr("(add1 5"), "error: Invalid: parse error");
    assert_eq!(expr(")"), "error: Invalid: parse error");
    assert_eq!(expr("1 2"), "error: Invalid: parse error");
    assert_eq!(expr("; only a comment"), "error: Invalid: parse error");
}

#[test]
fn unary_and_binary_forms() {
    assert_eq!(expr("(isnum x)"), "UnOp(IsNum, Id(\"x\"))");
    assert_eq!(expr("(isbool x)"), "UnOp(IsBool, Id(\"x\"))");
    assert_eq!(expr("(print x)"), "UnOp(Print, Id(\"x\"))");
    assert_eq!(expr("(+ 1 2)"), "BinOp(Plus, Number(1), Number(2))");
    assert_eq!(expr("(- 1 2)"), "BinOp(Minus, Number(1), Number(2))");
    assert_eq!(expr("(* 1 2)"), "BinOp(Times, Number(1), Number(2))");
    assert_eq!(expr("(< 1 2)"), "BinOp(Less, Number(1), Number(2))");
    assert_eq!(expr("(> 1 2)"), "BinOp(Greater, Number(1), Number(2))");
    assert_eq!(expr("(<= 1 2)"), "BinOp(LessEqual, Number(1), Number(2))");
    assert_eq!(expr("(>= 1 2)"), "BinOp(GreaterEqual, Number(1), Number(2))");
    assert_eq!(expr("(= 1 2)"), "BinOp(Equal, Number(1), Number(2))");
}

#[test]
fn forms_with_the_wrong_number_of_operands() {
    let t = |text: &str| program_error(&format!("({})", text));
    assert_eq!(t("(add1)"), "Invalid: add1 takes exactly one argument");
    assert_eq!(t("(sub1 1 2)"), "Invalid: sub1 takes exactly one argument");
    assert_eq!(t("(isnum)"), "Invalid: isnum takes exactly one argument");
    assert_eq!(t("(isbool)"), "Invalid: isbool takes exactly one argument");
    assert_eq!(t("(print)"), "Invalid: print takes exactly one argument");
    assert_eq!(t("(+ 1)"), "+ takes exactly two arguments");
    assert_eq!(t("(- 1 2 3)"), "- takes exactly two arguments");
    assert_eq!(t("(* 1)"), "* takes exactly two arguments");
    assert_eq!(t("(< 1)"), "Invalid: < takes exactly two arguments");
    assert_eq!(t("(= 1)"), "Invalid: = takes exactly two arguments");
    assert_eq!(t("(let (x 1))"), "let takes exactly two arguments");
    assert_eq!(t("(if 1 2)"), "Invalid: if takes exactly three arguments");
    assert_eq!(t("(block)"), "Invalid: block requires at least one expression");
    assert_eq!(t("(set! x)"), "Invalid: set! requires exactly two arguments");
    assert_eq!(t("(loop)"), "Invalid: loop requires exactly one argument");
    assert_eq!(t("(break)"), "Invalid: break requires exactly one argument");
    assert_eq!(t("(cast Num)"), "Invalid: cast takes exactly two arguments");
    assert_eq!(t("(define x 1)"), "unknown operation define");
    assert_eq!(t("(true 1)"), "unknown operation true");
}

#[test]
fn let_forms() {
    assert_eq!(expr("(let ((x 1) (y 2)) x)"), "Let([(\"x\", Number(1)), (\"y\", Number(2))], Id(\"x\"))");
    assert_eq!(expr("(let (x 1) x)"), "Let([(\"x\", Number(1))], Id(\"x\"))");
    assert_eq!(expr("(let ((x 1)) x)"), "Let([(\"x\", Number(1))], Id(\"x\"))");
    let t = |text: &str| program_error(&format!("({})", text));
    assert_eq!(t("(let () x)"), "let requires at least one binding");
    assert_eq!(t("(let x x)"), "let bindings must be a list");
    assert_eq!(t("(let ((x 1 2)) x)"), "Invalid binding");
    assert_eq!(t("(let ((1 2)) x)"), "Invalid binding: expected identifier");
    assert_eq!(t("(let ((x 1) y) x)"), "Invalid binding: expected list");
    assert_eq!(t("(let ((if 1)) x)"), "keyword");
    assert_eq!(t("(let (input 1) x)"), "keyword");
    assert_eq!(
        parse_bind(&list(vec![sym("x"), Tree::Int(1)])).map(|(n, e)| format!("{} {:?}", n, e)),
        Ok("x Number(1)".to_string())
    );
}

#[test]
fn other_forms() {
    assert_eq!(expr("(if true 1 2)"), "If(Boolean(true), Number(1), Number(2))");
    assert_eq!(expr("(block 1 2)"), "Block([Number(1), Number(2)])");
    assert_eq!(expr("(set! x 1)"), "SetVar(\"x\", Number(1))");
    assert_eq!(expr("(loop (break 1))"), "Loop(Break(Number(1)))");
    assert_eq!(expr("(cast Bool x)"), "Cast(Id(\"x\"), Bool)");
    assert_eq!(expr("(f)"), "Call(\"f\", [])");
    assert_eq!(expr("(f 1 (g 2))"), "Call(\"f\", [Number(1), Call(\"g\", [Number(2)])])");
    let t = |text: &str| program_error(&format!("({})", text));
    assert_eq!(t("(set! if 1)"), "keyword");
    assert_eq!(t("(set! 1 1)"), "Invalid: first argument to set! must be an identifier");
    assert_eq!(t("(cast Int 1)"), "Invalid type: Int");
    assert_eq!(t("((f) 1)"), "expected operation");
    assert_eq!(t("(f (+ 1))"), "+ takes exactly two arguments");
}

#[test]
fn definitions() {
    let plain = parse_defn(&list(vec![
        sym("fun"),
        list(vec![sym("f"), sym("a"), sym("b")]),
        list(vec![sym("+"), sym("a"), sym("b")]),
    ]))
    .unwrap();
    assert_eq!(plain.name, "f");
    assert_eq!(plain.params, ["a", "b"]);
    assert_eq!(plain.param_types, None);
    assert_eq!(plain.return_type, None);
    assert_eq!(format!("{:?}", plain.body), "BinOp(Plus, Id(\"a\"), Id(\"b\"))");
    match read_entry("(fun (even (x : Num) (y : Bool)) -> Any (set! acc (add1 acc)))") {
        Ok(ReplEntry::FunDefn(d)) => {
            assert_eq!(d.name, "even");
            assert_eq!(d.params, ["x", "y"]);
            assert_eq!(d.param_types, Some(vec![Type::Num, Type::Bool]));
            assert_eq!(d.return_type, Some(Type::Any));
        }
        other => panic!("{:?}", other),
    }
    match read_entry("(fun (f x) (-> Num (add1 x)))") {
        Ok(ReplEntry::FunDefn(d)) => {
            assert_eq!(d.param_types, None);
            assert_eq!(d.return_type, Some(Type::Num));
            assert_eq!(format!("{:?}", d.body), "UnOp(Add1, Id(\"x\"))");
        }
        other => panic!("{:?}", other),
    }
    match read_entry("(fun (f (x : Num) y) x)") {
        Ok(ReplEntry::FunDefn(d)) => {
            assert_eq!(d.params, ["x", "y"]);
            assert_eq!(d.param_types, Some(vec![Type::Num]));
        }
        other => panic!("{:?}", other),
    }
}

#[test]
fn definitions_that_are_refused() {
    let t = |text: &str| program_error(&format!("({} 1)", text));
    assert_eq!(t("(fun (f x))"), "Invalid function definition");
    assert_eq!(t("(fun (f x) 1 2)"), "Invalid function definition");
    assert_eq!(t("(fn (f x) 1)"), "Expected 'fun'");
    assert_eq!(t("(fun f 1)"), "Invalid function signature");
    assert_eq!(t("(fun () 1)"), "Function signature cannot be empty");
    assert_eq!(t("(fun (1 x) 1)"), "Function name must be identifier");
    assert_eq!(t("(fun (f 1) 1)"), "Parameter must be identifier");
    assert_eq!(t("(fun (f (x y)) 1)"), "Parameter must be identifier");
    assert_eq!(t("(fun (f (x y Num)) 1)"), "Expected ':'");
    assert_eq!(t("(fun (f (1 : Num)) 1)"), "Invalid parameter annotation");
    assert_eq!(t("(fun (f (x : Int)) 1)"), "Invalid type: Int");
    assert_eq!(t("(fun (f if) 1)"), "keyword");
    assert_eq!(t("(fun (f (let : Num)) 1)"), "keyword");
    assert_eq!(t("(fun (f x x) 1)"), "Duplicate binding");
    assert_eq!(t("(fun (f x (x : Num)) 1)"), "Duplicate binding");
    assert_eq!(t("(fun (f x) => Num 1)"), "Expected '->' in function definition");
    assert_eq!(t("(fun (f x) -> Int 1)"), "Invalid type: Int");
    assert_eq!(t("(fun (f x) (+ 1))"), "+ takes exactly two arguments");
    assert_eq!(t("f"), "Function definition must be a list");
}

#[test]
fn session_inputs() {
    match read_entry("(define x (+ 1 2))") {
        Ok(ReplEntry::Define(name, e)) => {
            assert_eq!(name, "x");
            assert_eq!(format!("{:?}", e), "BinOp(Plus, Number(1), Number(2))");
        }
        other => panic!("{:?}", other),
    }
    assert_eq!(read_entry("(define x)").err().unwrap(), "Invalid: define takes exactly two arguments");
    assert_eq!(read_entry("(define 1 2)").err().unwrap(), "Invalid: define name must be identifier");
    assert_eq!(read_entry("(define x (+ 1))").err().unwrap(), "Invalid");
    assert_eq!(read_entry("(fun (f x))").err().unwrap(), "Invalid");
    assert_eq!(read_entry("(+ 1)").err().unwrap(), "Invalid");
    let define = list(vec![sym("define"), sym("x"), Tree::Int(1)]);
    assert!(parse_repl_entry(&define, 0).is_ok());
    assert_eq!(parse_repl_entry(&define, 1).err().unwrap(), "Invalid");
    let definition = list(vec![sym("fun"), list(vec![sym("f")]), Tree::Int(1)]);
    assert!(parse_repl_entry(&definition, 0).is_ok());
    assert_eq!(parse_repl_entry(&definition, 2).err().unwrap(), "Invalid");
    assert!(matches!(parse_repl_entry(&Tree::Int(1), 3), Ok(ReplEntry::Expr(Expr::Number(1)))));
}

#[test]
fn programs() {
    let p = read_program("((fun (f x) x) (fun (g) 1) (f (g)))").unwrap();
    assert_eq!(p.defns.len(), 2);
    assert_eq!(p.defns[0].name, "f");
    assert_eq!(p.defns[1].name, "g");
    assert_eq!(format!("{:?}", p.main), "Call(\"f\", [Call(\"g\", [])])");
    let single = read_program("(5)").unwrap();
    assert!(single.defns.is_empty());
    assert!(matches!(single.main, Expr::Number(5)));
    assert_eq!(program_error("()"), "Program must have at least one expression");
    assert_eq!(program_error("5"), "Program must be a list of definitions and expression");
    assert_eq!(program_error("(1 2)"), "Function definition must be a list");
    assert_eq!(program_error("((fun (f x) x)"), "Parse error");
    assert_eq!(
        parse_program(&Tree::Int(1)).err().unwrap(),
        "Program must be a list of definitions and expression"
    );
    assert!(matches!(
        parse_program(&list(vec![list(vec![sym("add1"), Tree::Int(1)])])).unwrap().main,
        Expr::UnOp(Op1::Add1, _)
    ));
    assert!(matches!(
        read_program("((< 1 2))").unwrap().main,
        Expr::BinOp(Op2::Less, _, _)
    ));
}
