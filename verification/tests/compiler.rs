use minilang::ast::Visitor;
use minilang::ast::Info;
use minilang::parser::parse;
use minilang::tree::Tree;
use minilang::wasm::{Compiler, CompilerError};

fn leaf(s: &str) -> Tree<String> {
    Tree { value: s.to_string(), children: vec![] }
}

fn module(code: &[&str]) -> Tree<String> {
    let mut children = vec![
        Tree { value: "export".to_string(), children: vec![leaf("\"run_main\"")] },
        Tree { value: "param".to_string(), children: vec![leaf("i32"), leaf("i32")] },
        Tree { value: "result".to_string(), children: vec![leaf("i32")] },
    ];
    for c in code {
        children.push(leaf(c));
    }
    Tree { value: "module".to_string(), children: vec![Tree { value: "func".to_string(), children }] }
}

fn compile(s: &str) -> Result<Tree<String>, CompilerError> {
    Compiler::default().visit_root(&parse(s.to_string()))
}

#[test]
fn compiles_arithmetic() {
    assert_eq!(
        compile("1+2*3"),
        Ok(module(&["i32.const 1", "i32.const 2", "i32.const 3", "i32.mul", "i32.add"]))
    );
    assert_eq!(compile("8/2-1"), Ok(module(&["i32.const 8", "i32.const 2", "i32.div_s", "i32.const 1", "i32.sub"])));
    assert_eq!(compile("2^3"), Ok(module(&["i32.const 2", "i32.const 3", "i32.pow"])));
}

#[test]
fn compiles_prefix_operators() {
    assert_eq!(compile("-4"), Ok(module(&["i32.const 0", "i32.const 4", "i32.sub"])));
    assert_eq!(compile("+4"), Ok(module(&["i32.const 4"])));
}

#[test]
fn compiler_errors() {
    assert_eq!(compile("1%2"), Err(CompilerError::UnknownInfixOperator("%".to_string(), Info::default())));
    assert_eq!(compile("!1"), Err(CompilerError::UnknownPrefixOperator("!".to_string(), Info::default())));
    assert_eq!(
        compile("1+"),
        Err(CompilerError::FailedParse("Unexpected eof, expected expr".to_string(), Info::default()))
    );
}

#[test]
fn visit_compiles_as_the_visit_of_each_kind() {
    let mut c = Compiler::default();
    let node = parse("7-2*3".to_string());
    let direct = match &node {
        minilang::ast::Node::BinOpNode(b) => c.visit_bin_op(&mut (), b),
        _ => panic!("a difference is an operator node"),
    };
    assert_eq!(c.visit(&mut (), &node), direct);
    assert_eq!(
        direct,
        Ok(vec!["i32.const 7", "i32.const 2", "i32.const 3", "i32.mul", "i32.sub"]
            .into_iter()
            .map(|s| s.to_string())
            .collect::<Vec<String>>())
    );
}
