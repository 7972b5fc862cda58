use minilang::tokens::{lex, Token, TokenType};

fn tok(value: &str, tok_type: TokenType) -> Token {
    Token { value: value.to_string(), tok_type }
}

#[test]
fn lexing_all_kinds() {
    assert_eq!(
        lex("ab_1 + 12 \"s t\" <= ( ] ;"),
        vec![
            tok("ab_1", TokenType::Sym),
            tok("+", TokenType::Op),
            tok("12", TokenType::NumLit),
            tok("s t", TokenType::StringLit),
            tok("<=", TokenType::Op),
            tok("(", TokenType::OpenBracket),
            tok("]", TokenType::CloseBracket),
            tok(";", TokenType::Op),
        ]
    );
}

#[test]
fn lexing_stops_at_unknown_character() {
    assert_eq!(lex("1 # 2"), vec![tok("1", TokenType::NumLit)]);
    assert_eq!(lex("1 \"open"), vec![tok("1", TokenType::NumLit)]);
    assert_eq!(lex(""), vec![]);
}

#[test]
fn leading_space_keeps_tokens() {
    assert_eq!(lex(" 1+2"), lex("1+2"));
    assert_eq!(lex("\n\tx==y"), lex("x==y"));
}
