use minilang::ast::{Info, Let, Loc, Node, Prim, Sym, ToNode, Visitor, get_loc};
use minilang::interpreter::{Frame, Interpreter, InterpreterError};
use minilang::parser::parse;

fn run(s: &str) -> Result<Prim, InterpreterError> {
    let ast = parse(s.to_string());
    Interpreter::default().visit_root(&ast)
}

fn integer(n: i32) -> Result<Prim, InterpreterError> {
    Ok(Prim::I32(n, Info::default()))
}

fn boolean(b: bool) -> Result<Prim, InterpreterError> {
    Ok(Prim::Bool(b, Info::default()))
}

fn text(s: &str) -> Result<Prim, InterpreterError> {
    Ok(Prim::Str(s.to_string(), Info::default()))
}

#[test]
fn arithmetic_follows_precedence() {
    assert_eq!(run("3+2*4"), integer(11));
    assert_eq!(run("3*2+4"), integer(10));
    assert_eq!(run("3*(2+4)"), integer(18));
    assert_eq!(run("8-3-2"), integer(3));
    assert_eq!(run("2^3^2"), integer(512));
    assert_eq!(run("(2^3)^2"), integer(64));
}

#[test]
fn division_rounds_toward_zero() {
    assert_eq!(run("7/2"), integer(3));
    assert_eq!(run("(0-7)/2"), integer(-3));
    assert_eq!(run("(0-7)%2"), integer(-1));
    assert_eq!(run("7%(0-2)"), integer(1));
}

#[test]
fn powers_with_negative_exponents() {
    assert_eq!(run("1^(0-1)"), integer(1));
    assert_eq!(run("(0-1)^(0-1)"), integer(-1));
    assert_eq!(run("(0-2)^31"), integer(i32::MIN));
    assert_eq!(run("2^true"), integer(2));
    assert_eq!(run("2^false"), integer(1));
}

#[test]
fn mixed_operands() {
    assert_eq!(run("true+true"), integer(2));
    assert_eq!(run("true+5"), integer(6));
    assert_eq!(run("5-true"), integer(4));
    assert_eq!(run("true*5"), integer(5));
    assert_eq!(run("false*5"), integer(0));
    assert_eq!(run("\"ab\"*true"), text("ab"));
    assert_eq!(run("\"ab\"*false"), text(""));
    assert_eq!(run("1+\"a\""), text("1a"));
    assert_eq!(run("\"a\"+true"), text("atrue"));
    assert_eq!(run("(0-5)+\"x\""), text("-5x"));
    assert_eq!(run("(0-2147483647-1)+\"\""), text("-2147483648"));
    assert_eq!(run("\"hello\"+\" world\""), text("hello world"));
    assert_eq!(run("+5"), integer(5));
    assert_eq!(run("!true"), boolean(false));
}

#[test]
fn comparisons_agree() {
    for (l, r) in [("1", "2"), ("2", "2"), ("3", "2"), ("true", "false"), ("false", "false"),
        ("\"ab\"", "\"abc\""), ("\"b\"", "\"abc\""), ("\"x\"", "\"x\"")] {
        let eq = run(&format!("{}=={}", l, r));
        let ne = run(&format!("{}!={}", l, r));
        let lt = run(&format!("{}<{}", l, r));
        let gt = run(&format!("{}>{}", l, r));
        let le = run(&format!("{}<={}", l, r));
        let ge = run(&format!("{}>={}", l, r));
        let swapped_lt = run(&format!("{}<{}", r, l));
        let get = |x: Result<Prim, InterpreterError>| match x {
            Ok(Prim::Bool(b, _)) => b,
            _ => panic!("not a boolean"),
        };
        let (eq, ne, lt, gt, le, ge, swapped_lt) =
            (get(eq), get(ne), get(lt), get(gt), get(le), get(ge), get(swapped_lt));
        assert_eq!(ne, !eq);
        assert_eq!(gt, swapped_lt);
        assert_eq!(le, lt || eq);
        assert_eq!(ge, gt || eq);
        assert_eq!([lt, eq, gt].iter().filter(|b| **b).count(), 1);
    }
}

#[test]
fn text_comparisons() {
    assert_eq!(run("\"abc\"<\"abd\""), boolean(true));
    assert_eq!(run("\"b\">\"abc\""), boolean(true));
    assert_eq!(run("\"a\"<=\"a\""), boolean(true));
    assert_eq!(run("true>false"), boolean(true));
}

#[test]
fn each_error() {
    let info = Info::default();
    assert_eq!(run("!1"), Err(InterpreterError::TypeMismatch("!".to_string(), Prim::I32(1, Info::default()), Info::default())));
    assert_eq!(run("-true"), Err(InterpreterError::TypeMismatch("-".to_string(), Prim::Bool(true, Info::default()), Info::default())));
    assert_eq!(run("*3"), Err(InterpreterError::UnknownPrefixOperator("*".to_string(), Info::default())));
    assert_eq!(
        run("true-1"),
        Err(InterpreterError::TypeMismatch2("-".to_string(), Prim::Bool(true, Info::default()), Prim::I32(1, Info::default()), Info::default()))
    );
    assert_eq!(run("1.2"), Err(InterpreterError::UnknownInfixOperator(".".to_string(), Info::default())));
    assert_eq!(run("1+"), Err(InterpreterError::FailedParse("Unexpected eof, expected expr".to_string(), info)));
}

#[test]
fn definitions_and_applications() {
    assert_eq!(run("x=2+3;x"), integer(5));
    assert_eq!(run("x(x=5)"), integer(5));
    assert_eq!(run("(x*y)(x=2,y=3)"), integer(6));
    assert_eq!(run("it(5)"), integer(5));
    assert_eq!(run("x=1;f=x+1;x=5;f"), integer(6));
    assert_eq!(run("x=1;x=2;x"), integer(2));
}

#[test]
fn evaluation_keeps_outer_frames() {
    let mut outer = Frame::new();
    outer.insert("y".to_string(), Prim::I32(7, Info::default()).to_node());
    let mut state = vec![outer, Frame::new()];
    let node = parse("x=y+1;x".to_string());
    let mut interp = Interpreter::default();
    assert_eq!(interp.visit(&mut state, &node), integer(8));
    assert_eq!(state.len(), 2);
    assert!(state[0].get(&"x".to_string()).is_none());
    assert!(state[1].get(&"x".to_string()).is_some());
    let applied = parse("(z)(z=1)".to_string());
    assert_eq!(interp.visit(&mut state, &applied), integer(1));
    assert_eq!(state.len(), 2);
    assert!(state[1].get(&"z".to_string()).is_none());
}

#[test]
fn frames_hide_earlier_definitions() {
    let mut f = Frame::new();
    assert!(f.get(&"a".to_string()).is_none());
    f.insert("a".to_string(), Prim::I32(1, Info::default()).to_node());
    f.insert("a".to_string(), Prim::I32(2, Info::default()).to_node());
    assert_eq!(f.get(&"a".to_string()), Some(&Prim::I32(2, Info::default()).to_node()));
}

#[test]
fn locations_and_information() {
    let here = Loc { filename: Some("f.txt".to_string()), line: 3, col: 4 };
    let sym = Sym { name: "a".to_string(), info: Info { loc: Some(here.clone()) } };
    assert_eq!(get_loc(sym.clone()), Some(here.clone()));
    assert_eq!(get_loc(sym.clone().to_node()), Some(here));
    assert_eq!(get_loc(Prim::Unit(Info::default())), None);
    let l = Let { name: "b".to_string(), value: None, info: Info::default() };
    assert_eq!(l.clone().to_node().get_info(), l.get_info());
    assert_eq!(Interpreter::default().visit_root(&Node::Error("bad".to_string())),
        Err(InterpreterError::FailedParse("bad".to_string(), Info::default())));
}

#[test]
fn visit_agrees_with_the_visit_of_each_kind() {
    let mut interp = Interpreter::default();
    let node = parse("x=2*3;x+1".to_string());
    let mut via_visit = vec![Frame::new()];
    let mut via_kind = vec![Frame::new()];
    let direct = match &node {
        Node::BinOpNode(b) => interp.visit_bin_op(&mut via_kind, b),
        _ => panic!("a sequence is an operator node"),
    };
    assert_eq!(interp.visit(&mut via_visit, &node), direct);
    assert_eq!(direct, integer(7));
    assert_eq!(via_visit[0].get(&"x".to_string()), via_kind[0].get(&"x".to_string()));
    let p = Prim::Str("a".to_string(), Info::default());
    let mut state = vec![Frame::new()];
    assert_eq!(interp.visit(&mut state, &p.clone().to_node()), interp.visit_prim(&p));
    assert_eq!(state.len(), 1);
    assert!(state[0].get(&"a".to_string()).is_none());
}

#[test]
fn argument_lists_bind_left_to_right() {
    assert_eq!(run("(x)(x=1,x=2)"), integer(2));
    assert_eq!(run("(x+y*z)(x=1,(y=2,z=3))"), integer(7));
    assert_eq!(run("(it*2)(3+4)"), integer(14));
}
