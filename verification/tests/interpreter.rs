use minilang::ast::{Info, Node, Prim, Visitor};
use minilang::interpreter::{Interpreter, InterpreterError};
use minilang::parser;

type Res = Result<Prim, InterpreterError>;

fn eval_str(s: String) -> Res {
    let ast = parser::parse(s);
    let mut interp = Interpreter::default();
    interp.visit_root(&ast)
}

#[test]
fn eval_num() {
    let mut interp = Interpreter::default();
    let tree = Node::PrimNode(Prim::I32(12, Info::default()));
    assert_eq!(interp.visit_root(&tree), Ok(Prim::I32(12, Info::default())));
}

#[test]
fn parse_and_eval_bool() {
    assert_eq!(eval_str("true".to_string()), Ok(Prim::Bool(true, Info::default())));
}

#[test]
fn parse_and_eval_bool_and() {
    assert_eq!(eval_str("true&&true".to_string()), Ok(Prim::Bool(true, Info::default())));
    assert_eq!(eval_str("false&&true".to_string()), Ok(Prim::Bool(false, Info::default())));
    assert_eq!(eval_str("true&&false".to_string()), Ok(Prim::Bool(false, Info::default())));
    assert_eq!(eval_str("false&&false".to_string()), Ok(Prim::Bool(false, Info::default())));
}

#[test]
fn parse_and_eval_bool_or() {
    assert_eq!(eval_str("true||true".to_string()), Ok(Prim::Bool(true, Info::default())));
    assert_eq!(eval_str("false||true".to_string()), Ok(Prim::Bool(true, Info::default())));
    assert_eq!(eval_str("true||false".to_string()), Ok(Prim::Bool(true, Info::default())));
    assert_eq!(eval_str("false||false".to_string()), Ok(Prim::Bool(false, Info::default())));
}

#[test]
fn parse_and_eval_bool_eq() {
    assert_eq!(eval_str("true==true".to_string()), Ok(Prim::Bool(true, Info::default())));
    assert_eq!(eval_str("false==true".to_string()), Ok(Prim::Bool(false, Info::default())));
    assert_eq!(eval_str("true==false".to_string()), Ok(Prim::Bool(false, Info::default())));
    assert_eq!(eval_str("false==false".to_string()), Ok(Prim::Bool(true, Info::default())));
}

#[test]
fn parse_and_eval_i32() {
    assert_eq!(eval_str("32".to_string()), Ok(Prim::I32(32, Info::default())));
}

#[test]
fn parse_and_eval_i32_eq() {
    assert_eq!(eval_str("0==0".to_string()), Ok(Prim::Bool(true, Info::default())));
    assert_eq!(eval_str("-1==1".to_string()), Ok(Prim::Bool(false, Info::default())));
    assert_eq!(eval_str("1==123".to_string()), Ok(Prim::Bool(false, Info::default())));
    assert_eq!(eval_str("1302==1302".to_string()), Ok(Prim::Bool(true, Info::default())));
}

#[test]
fn parse_and_eval_i32_pow() {
    assert_eq!(eval_str("2^3".to_string()), Ok(Prim::I32(8, Info::default())));
    assert_eq!(eval_str("3^2".to_string()), Ok(Prim::I32(9, Info::default())));
    assert_eq!(eval_str("-4^2".to_string()), Ok(Prim::I32(16, Info::default())));
    assert_eq!(eval_str("2^3^2".to_string()), Ok(Prim::I32(512, Info::default())));
}

#[test]
fn parse_and_eval_str() {
    assert_eq!(eval_str("\"32\"".to_string()), Ok(Prim::Str("32".to_string(), Info::default())));
}

#[test]
fn parse_and_eval_let() {
    assert_eq!(eval_str("x=3;x".to_string()), Ok(Prim::I32(3, Info::default())));
}
