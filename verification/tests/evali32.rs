use minilang::evali32::Interpreter;
use minilang::tokens::{Token, TokenType};
use minilang::tree::Tree;

fn node(value: &str, tok_type: TokenType, children: Vec<Tree<Token>>) -> Tree<Token> {
    Tree { value: Token { value: value.to_string(), tok_type }, children }
}

fn num(value: &str) -> Tree<Token> {
    node(value, TokenType::NumLit, vec![])
}

fn eval(t: &Tree<Token>) -> i32 {
    Interpreter::default().visit_root(t)
}

#[test]
fn folds_sums_and_products() {
    assert_eq!(eval(&node("+", TokenType::Op, vec![num("1"), num("2"), num("3")])), 6);
    assert_eq!(eval(&node("*", TokenType::Op, vec![num("2"), num("3"), num("4")])), 24);
    assert_eq!(eval(&node("+", TokenType::Op, vec![])), 0);
    assert_eq!(eval(&node("*", TokenType::Op, vec![])), 1);
}

#[test]
fn binary_tree_operators() {
    assert_eq!(eval(&node("-", TokenType::Op, vec![num("10"), num("4")])), 6);
    assert_eq!(eval(&node("/", TokenType::Op, vec![num("-7"), num("2")])), -3);
    assert_eq!(eval(&node("^", TokenType::Op, vec![num("2"), num("5")])), 32);
    assert_eq!(eval(&node("?", TokenType::Op, vec![])), -6);
}

#[test]
fn brackets_and_codes() {
    assert_eq!(eval(&node("(", TokenType::Bracket, vec![num("1"), num("42"), num("3")])), 42);
    assert_eq!(eval(&node("e", TokenType::Error, vec![])), -1);
    assert_eq!(eval(&node(" ", TokenType::Whitespace, vec![])), -2);
    assert_eq!(eval(&node("", TokenType::Unknown, vec![])), -3);
    assert_eq!(eval(&node("x", TokenType::Sym, vec![])), -4);
    assert_eq!(eval(&num("+12")), 12);
}
