use minilang::ast::{BinOp, Info, Node, Prim, ToNode, UnOp};
use minilang::parser::parse;

fn num_lit(x: i32) -> Box<Node> {
    Box::new(Prim::I32(x, Info::default()).to_node())
}

fn str_lit(x: String) -> Box<Node> {
    Box::new(Prim::Str(x, Info::default()).to_node())
}

#[test]
fn parse_num() {
    assert_eq!(parse("12".to_string()), Prim::I32(12, Info::default()).to_node());
}

#[test]
fn parse_str() {
    assert_eq!(
        parse("\"hello world\"".to_string()),
        Prim::Str("hello world".to_string(), Info::default()).to_node()
    );
}

#[test]
fn parse_un_op() {
    assert_eq!(
        parse("-12".to_string()),
        UnOp {
            name: "-".to_string(),
            inner: Box::new(Prim::I32(12, Info::default()).to_node()),
            info: Info::default()
        }
        .to_node()
    );
}

#[test]
fn parse_min_op() {
    assert_eq!(
        parse("14-12".to_string()),
        BinOp { name: "-".to_string(), left: num_lit(14), right: num_lit(12), info: Info::default() }
            .to_node()
    );
}

#[test]
fn parse_mul_op() {
    assert_eq!(
        parse("14*12".to_string()),
        BinOp { name: "*".to_string(), left: num_lit(14), right: num_lit(12), info: Info::default() }
            .to_node()
    );
}

#[test]
fn parse_add_mul_precedence() {
    assert_eq!(
        parse("3+2*4".to_string()),
        BinOp {
            name: "+".to_string(),
            left: num_lit(3),
            right: Box::new(
                BinOp { name: "*".to_string(), left: num_lit(2), right: num_lit(4), info: Info::default() }
                    .to_node()
            ),
            info: Info::default()
        }
        .to_node()
    );
}

#[test]
fn parse_mul_add_precedence() {
    assert_eq!(
        parse("3*2+4".to_string()),
        BinOp {
            name: "+".to_string(),
            left: Box::new(
                BinOp { name: "*".to_string(), left: num_lit(3), right: num_lit(2), info: Info::default() }
                    .to_node()
            ),
            right: num_lit(4),
            info: Info::default()
        }
        .to_node()
    );
}

#[test]
fn parse_mul_add_parens() {
    assert_eq!(
        parse("3*(2+4)".to_string()),
        BinOp {
            name: "*".to_string(),
            left: num_lit(3),
            right: Box::new(
                BinOp { name: "+".to_string(), left: num_lit(2), right: num_lit(4), info: Info::default() }
                    .to_node()
            ),
            info: Info::default()
        }
        .to_node()
    );
}

#[test]
fn parse_add_str() {
    assert_eq!(
        parse("\"hello\"+\" world\"".to_string()),
        BinOp {
            name: "+".to_string(),
            left: str_lit("hello".to_string()),
            right: str_lit(" world".to_string()),
            info: Info::default()
        }
        .to_node()
    );
}

fn bin(name: &str, left: Box<Node>, right: Box<Node>) -> Box<Node> {
    Box::new(BinOp { name: name.to_string(), left, right, info: Info::default() }.to_node())
}

#[test]
fn inner_expressions_stop_at_brackets_and_weaker_operators() {
    assert_eq!(
        parse("(1+2)*(3+4)".to_string()),
        *bin("*", bin("+", num_lit(1), num_lit(2)), bin("+", num_lit(3), num_lit(4)))
    );
    assert_eq!(parse("1-2-3".to_string()), *bin("-", bin("-", num_lit(1), num_lit(2)), num_lit(3)));
    assert_eq!(parse("2^3^2".to_string()), *bin("^", num_lit(2), bin("^", num_lit(3), num_lit(2))));
}
