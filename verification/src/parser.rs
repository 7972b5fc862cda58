//! A Pratt parser from tokens to the syntax tree.

use vstd::prelude::*;

use crate::ast::{lets_view, no_info, Apply, BinOp, Info, Let, Node, Prim, SpecInfo, SpecLet, SpecNode, SpecPrim, Sym, ToNode, UnOp};
use crate::text::{parse_i32, parse_i32_spec, same_text};
use crate::tokens::{lex, lex_spec, tokens_view, SpecToken, Token, TokenType};

verus! {

/// How strongly an operator binds, for an operator that the parser knows.
pub open spec fn op_power(v: Seq<char>) -> Option<i32> {
    if v == "]"@ || v == ")"@ || v == "}"@ {
        Some(0)
    } else if v == ";"@ {
        Some(20)
    } else if v == ","@ {
        Some(30)
    } else if v == "="@ {
        Some(40)
    } else if v == "<"@ || v == "<="@ || v == ">"@ || v == ">="@ || v == "!="@ || v == "=="@ {
        Some(50)
    } else if v == "&&"@ || v == "||"@ {
        Some(60)
    } else if v == "^"@ {
        Some(70)
    } else if v == "+"@ || v == "-"@ || v == "!"@ {
        Some(80)
    } else if v == "*"@ || v == "/"@ || v == "%"@ {
        Some(90)
    } else if v == "."@ {
        Some(100)
    } else if v == "["@ || v == "("@ || v == "{"@ {
        Some(110)
    } else {
        None
    }
}

/// The binding power of a token and whether it associates to the right;
/// `None` for an operator that the parser does not know.
pub open spec fn binding_power_spec(t: SpecToken) -> Option<(i32, bool)> {
    if t.tok_type == TokenType::Op {
        match op_power(t.value) {
            Some(b) => Some((b, t.value == "^"@ || t.value == "="@)),
            None => None,
        }
    } else {
        Some((10, false))
    }
}

/// Whether the bracket `open` is closed by `close`.
pub open spec fn brackets_match(open: Seq<char>, close: Seq<char>) -> bool {
    (open == "("@ && close == ")"@) || (open == "["@ && close == "]"@) || (open == "{"@ && close
        == "}"@)
}

/// The information of a node, as `ToNode::get_info` gives it.
pub open spec fn spec_info_of(n: SpecNode) -> SpecInfo {
    match n {
        SpecNode::Error(_) => no_info(),
        SpecNode::Sym(_, info) => info,
        SpecNode::Prim(p) => match p {
            SpecPrim::Unit(info) => info,
            SpecPrim::Bool(_, info) => info,
            SpecPrim::I32(_, info) => info,
            SpecPrim::Str(_, info) => info,
        },
        SpecNode::Apply(_, _) => no_info(),
        SpecNode::Let(l) => l.info,
        SpecNode::UnOp(_, _, info) => info,
        SpecNode::BinOp(_, _, _, info) => info,
    }
}

/// The definitions that the argument list of an application introduces:
/// the definitions of a `,`-separated list, where an expression that is no
/// definition is bound to `it`.
pub open spec fn get_defs_spec(n: SpecNode) -> Seq<SpecLet>
    decreases n,
{
    match n {
        SpecNode::Let(l) => seq![l],
        SpecNode::BinOp(name, left, right, info) => if name == ","@ {
            get_defs_spec(*left) + get_defs_spec(*right)
        } else {
            seq![
                SpecLet {
                    name: "it"@,
                    value: Some(Box::new(SpecNode::BinOp(name, left, right, info))),
                    info: info,
                },
            ]
        },
        _ => seq![SpecLet { name: "it"@, value: Some(Box::new(n)), info: spec_info_of(n) }],
    }
}

/// The expression that starts at position `p` (the "null denotation"), and
/// the position after it; `None` where the parser panics.
pub open spec fn nud_spec(s: Seq<SpecToken>, p: int) -> Option<(SpecNode, int)>
    decreases s.len() - p, 1int,
{
    if p < 0 || p >= s.len() {
        Some((SpecNode::Error("Unexpected eof, expected expr"@), p))
    } else {
        let head = s[p];
        match head.tok_type {
            TokenType::NumLit => match parse_i32_spec(head.value) {
                Some(n) => Some((SpecNode::Prim(SpecPrim::I32(n, no_info())), p + 1)),
                None => None,
            },
            TokenType::StringLit => Some((SpecNode::Prim(SpecPrim::Str(head.value, no_info())), p + 1)),
            TokenType::Op => match binding_power_spec(head) {
                None => None,
                Some((lbp, _)) => match expr_spec(s, p + 1, lbp as int) {
                    None => None,
                    Some((right, q)) => Some(
                        (SpecNode::UnOp(head.value, Box::new(right), no_info()), q),
                    ),
                },
            },
            TokenType::OpenBracket => match expr_spec(s, p + 1, 0) {
                None => None,
                Some((inner, q)) => if 0 <= q < s.len() && s[q].tok_type == TokenType::CloseBracket
                    && brackets_match(head.value, s[q].value) {
                    Some((inner, q + 1))
                } else {
                    None
                },
            },
            TokenType::Sym => Some((SpecNode::Sym(head.value, no_info()), p + 1)),
            _ => None,
        }
    }
}

/// The expression that continues `left` at position `p` (the "left
/// denotation"), and the position after it; `None` where the parser panics.
pub open spec fn led_spec(s: Seq<SpecToken>, p: int, left: SpecNode) -> Option<(SpecNode, int)>
    decreases s.len() - p, 1int,
{
    if 0 <= p < s.len() && s[p].tok_type == TokenType::CloseBracket {
        Some((SpecNode::Error("Close bracket"@), p))
    } else if p < 0 || p >= s.len() {
        Some((SpecNode::Error("Unexpected eof, expected expr tail"@), p))
    } else {
        let head = s[p];
        match head.tok_type {
            TokenType::NumLit => match parse_i32_spec(head.value) {
                Some(n) => Some((SpecNode::Prim(SpecPrim::I32(n, no_info())), p + 1)),
                None => None,
            },
            TokenType::StringLit => Some((SpecNode::Prim(SpecPrim::Str(head.value, no_info())), p + 1)),
            TokenType::Op => match binding_power_spec(head) {
                None => None,
                Some((lbp, assoc_right)) => match expr_spec(
                    s,
                    p + 1,
                    if assoc_right { lbp - 1 } else { lbp as int },
                ) {
                    None => None,
                    Some((right, q)) => if head.value == "="@ {
                        match left {
                            SpecNode::Sym(name, _) => Some(
                                (
                                    SpecNode::Let(
                                        SpecLet {
                                            name: name,
                                            value: Some(Box::new(right)),
                                            info: no_info(),
                                        },
                                    ),
                                    q,
                                ),
                            ),
                            _ => None,
                        }
                    } else {
                        Some(
                            (
                                SpecNode::BinOp(head.value, Box::new(left), Box::new(right), no_info()),
                                q,
                            ),
                        )
                    },
                },
            },
            TokenType::OpenBracket => match expr_spec(s, p + 1, 0) {
                None => None,
                Some((inner, q)) => if 0 <= q < s.len() && s[q].tok_type == TokenType::CloseBracket
                    && brackets_match(head.value, s[q].value) {
                    Some((SpecNode::Apply(Box::new(left), get_defs_spec(inner)), q + 1))
                } else {
                    None
                },
            },
            _ => None,
        }
    }
}

/// The loop of [`expr_spec`]: extends `left` with the operators at `p` and
/// after that bind more strongly than `lbp`.
pub open spec fn expr_loop_spec(s: Seq<SpecToken>, p: int, lbp: int, left: SpecNode) -> Option<
    (SpecNode, int),
>
    decreases s.len() - p, 2int,
{
    if p < 0 || p >= s.len() {
        Some((left, p))
    } else {
        match binding_power_spec(s[p]) {
            None => None,
            Some((b, _)) => if lbp >= b {
                Some((left, p))
            } else {
                match led_spec(s, p, left) {
                    None => None,
                    Some((n, q)) => if n is Error {
                        Some((left, q))
                    } else if q <= p || q > s.len() {
                        None
                    } else {
                        expr_loop_spec(s, q, lbp, n)
                    },
                }
            },
        }
    }
}

/// The expression at position `p` whose operators bind more strongly than
/// `lbp`, and the position after it; `None` where the parser panics.
pub open spec fn expr_spec(s: Seq<SpecToken>, p: int, lbp: int) -> Option<(SpecNode, int)>
    decreases s.len() - p, 3int,
{
    match nud_spec(s, p) {
        None => None,
        Some((left, q)) => if q < p || q > s.len() || p < 0 {
            None
        } else {
            expr_loop_spec(s, q, lbp, left)
        },
    }
}

/// The tree that parsing `text` gives; `None` where the parser panics.
pub open spec fn parse_spec(text: Seq<char>) -> Option<SpecNode> {
    let toks = lex_spec(text, 0);
    match expr_spec(toks, 0, 0) {
        None => None,
        Some((root, q)) => if q == toks.len() {
            Some(root)
        } else {
            None
        },
    }
}


/// A token of kind `kind` with text `v`.
pub open spec fn token(kind: TokenType, v: Seq<char>) -> SpecToken {
    SpecToken { value: v, tok_type: kind }
}

/// The literal that the number token `v` stands for.
pub open spec fn literal(v: Seq<char>) -> SpecNode {
    SpecNode::Prim(SpecPrim::I32(parse_i32_spec(v).unwrap(), no_info()))
}

/// The infix node `op` applied to `l` and `r`, as the parser builds it.
pub open spec fn infix(op: Seq<char>, l: SpecNode, r: SpecNode) -> SpecNode {
    SpecNode::BinOp(op, Box::new(l), Box::new(r), no_info())
}

/// The tokens of `a o1 b o2 c`, for number texts `a`, `b`, `c` and
/// operators `o1`, `o2`.
pub open spec fn three(a: Seq<char>, o1: Seq<char>, b: Seq<char>, o2: Seq<char>, c: Seq<char>) -> Seq<SpecToken> {
    seq![
        token(TokenType::NumLit, a),
        token(TokenType::Op, o1),
        token(TokenType::NumLit, b),
        token(TokenType::Op, o2),
        token(TokenType::NumLit, c),
    ]
}

/// Precedence and associativity: in `a o1 b o2 c`, the second operator
/// takes `b` as its left operand exactly when it binds more strongly than
/// the first (for a right-associative first operator, at least as
/// strongly); otherwise the first operator takes `b`.
pub proof fn law_precedence(a: Seq<char>, b: Seq<char>, c: Seq<char>, o1: Seq<char>, o2: Seq<char>)
    requires
        parse_i32_spec(a) is Some,
        parse_i32_spec(b) is Some,
        parse_i32_spec(c) is Some,
        op_power(o1) is Some,
        op_power(o2) is Some,
        op_power(o1).unwrap() > 0,
        op_power(o2).unwrap() > 0,
        o1 != "="@,
        o2 != "="@,
    ensures
        ({
            let s = three(a, o1, b, o2, c);
            let p1 = op_power(o1).unwrap() - (if o1 == "^"@ { 1int } else { 0int });
            let p2 = op_power(o2).unwrap() as int;
            expr_spec(s, 0, 0) == Some(
                (
                    if p1 < p2 {
                        infix(o1, literal(a), infix(o2, literal(b), literal(c)))
                    } else {
                        infix(o2, infix(o1, literal(a), literal(b)), literal(c))
                    },
                    5int,
                ),
            )
        }),
{
    let s = seq![
        token(TokenType::NumLit, a),
        token(TokenType::Op, o1),
        token(TokenType::NumLit, b),
        token(TokenType::Op, o2),
        token(TokenType::NumLit, c),
    ];
    let p1 = op_power(o1).unwrap() - (if o1 == "^"@ { 1int } else { 0int });
    let p2 = op_power(o2).unwrap() as int;
    let q2 = op_power(o2).unwrap() - (if o2 == "^"@ { 1int } else { 0int });
    let (la, lb, lc) = (literal(a), literal(b), literal(c));
    assert(s[0] == token(TokenType::NumLit, a));
    assert(s[1] == token(TokenType::Op, o1));
    assert(s[2] == token(TokenType::NumLit, b));
    assert(s[3] == token(TokenType::Op, o2));
    assert(s[4] == token(TokenType::NumLit, c));
    assert(binding_power_spec(s[1]) == Some((op_power(o1).unwrap(), o1 == "^"@ || o1 == "="@)));
    assert(binding_power_spec(s[3]) == Some((op_power(o2).unwrap(), o2 == "^"@ || o2 == "="@)));
    assert(nud_spec(s, 4) == Some((lc, 5int)));
    assert(expr_loop_spec(s, 5, q2, lc) == Some((lc, 5int)));
    assert(expr_spec(s, 4, q2) == Some((lc, 5int)));
    assert(led_spec(s, 3, lb) == Some((infix(o2, lb, lc), 5int)));
    assert(nud_spec(s, 2) == Some((lb, 3int)));
    assert(nud_spec(s, 0) == Some((la, 1int)));
    if p1 < p2 {
        assert(expr_loop_spec(s, 5, p1, infix(o2, lb, lc)) == Some((infix(o2, lb, lc), 5int)));
        assert(expr_loop_spec(s, 3, p1, lb) == Some((infix(o2, lb, lc), 5int)));
        assert(expr_spec(s, 2, p1) == Some((infix(o2, lb, lc), 5int)));
        let top = infix(o1, la, infix(o2, lb, lc));
        assert(led_spec(s, 1, la) == Some((top, 5int)));
        assert(expr_loop_spec(s, 5, 0, top) == Some((top, 5int)));
        assert(expr_loop_spec(s, 1, 0, la) == Some((top, 5int)));
    } else {
        assert(expr_loop_spec(s, 3, p1, lb) == Some((lb, 3int)));
        assert(expr_spec(s, 2, p1) == Some((lb, 3int)));
        let left = infix(o1, la, lb);
        assert(led_spec(s, 1, la) == Some((left, 3int)));
        let top = infix(o2, left, lc);
        assert(led_spec(s, 3, left) == Some((top, 5int)));
        assert(expr_loop_spec(s, 5, 0, top) == Some((top, 5int)));
        assert(expr_loop_spec(s, 3, 0, left) == Some((top, 5int)));
        assert(expr_loop_spec(s, 1, 0, la) == Some((top, 5int)));
    }
}

proof fn lemma_arith_powers()
    ensures
        op_power("+"@) == Some(80i32),
        op_power("-"@) == Some(80i32),
        op_power("*"@) == Some(90i32),
        op_power("/"@) == Some(90i32),
        op_power("%"@) == Some(90i32),
        "+"@ != "^"@ && "-"@ != "^"@ && "*"@ != "^"@ && "/"@ != "^"@ && "%"@ != "^"@,
        "+"@ != "="@ && "-"@ != "="@ && "*"@ != "="@ && "/"@ != "="@ && "%"@ != "="@,
{
    reveal_strlit("]");
    reveal_strlit(")");
    reveal_strlit("}");
    reveal_strlit(";");
    reveal_strlit(",");
    reveal_strlit("=");
    reveal_strlit("<");
    reveal_strlit("<=");
    reveal_strlit(">");
    reveal_strlit(">=");
    reveal_strlit("!=");
    reveal_strlit("==");
    reveal_strlit("&&");
    reveal_strlit("||");
    reveal_strlit("^");
    reveal_strlit("+");
    reveal_strlit("-");
    reveal_strlit("!");
    reveal_strlit("*");
    reveal_strlit("/");
    reveal_strlit("%");
    assert("]"@[0] == ']' && ")"@[0] == ')' && "}"@[0] == '}' && ";"@[0] == ';' && ","@[0] == ',');
    assert("="@[0] == '=' && "<"@[0] == '<' && ">"@[0] == '>' && "^"@[0] == '^' && "!"@[0] == '!');
    assert("+"@[0] == '+' && "-"@[0] == '-' && "*"@[0] == '*' && "/"@[0] == '/' && "%"@[0] == '%');
    assert("<="@.len() == 2 && ">="@.len() == 2 && "!="@.len() == 2 && "=="@.len() == 2);
    assert("&&"@.len() == 2 && "||"@.len() == 2);
    assert("+"@.len() == 1 && "-"@.len() == 1 && "*"@.len() == 1 && "/"@.len() == 1 && "%"@.len() == 1);
}

/// The levels of the operators, loosest first: `;`, then `,`, then `=`,
/// then the comparisons, then `&&` and `||`, then `^`, then `+` and `-`,
/// then `*`, `/` and `%`, then `.`, then the opening brackets; closing
/// brackets bind nothing. Operators of one group bind equally.
pub proof fn law_operator_levels()
    ensures
        op_power("]"@) == Some(0i32) && op_power(")"@) == Some(0i32) && op_power("}"@) == Some(0i32),
        0 < op_power(";"@).unwrap() < op_power(","@).unwrap() < op_power("="@).unwrap() < op_power(
            "<"@,
        ).unwrap() < op_power("&&"@).unwrap() < op_power("^"@).unwrap() < op_power("+"@).unwrap()
            < op_power("*"@).unwrap() < op_power("."@).unwrap() < op_power("("@).unwrap(),
        op_power("<"@) == op_power("<="@) && op_power("<"@) == op_power(">"@) && op_power("<"@)
            == op_power(">="@) && op_power("<"@) == op_power("=="@) && op_power("<"@) == op_power(
            "!="@,
        ),
        op_power("&&"@) == op_power("||"@),
        op_power("+"@) == op_power("-"@) && op_power("+"@) == op_power("!"@),
        op_power("*"@) == op_power("/"@) && op_power("*"@) == op_power("%"@),
        op_power("("@) == op_power("["@) && op_power("("@) == op_power("{"@),
{
    reveal_strlit("]");
    reveal_strlit(")");
    reveal_strlit("}");
    reveal_strlit(";");
    reveal_strlit(",");
    reveal_strlit("=");
    reveal_strlit("<");
    reveal_strlit("<=");
    reveal_strlit(">");
    reveal_strlit(">=");
    reveal_strlit("!=");
    reveal_strlit("==");
    reveal_strlit("&&");
    reveal_strlit("||");
    reveal_strlit("^");
    reveal_strlit("+");
    reveal_strlit("-");
    reveal_strlit("!");
    reveal_strlit("*");
    reveal_strlit("/");
    reveal_strlit("%");
    reveal_strlit(".");
    reveal_strlit("[");
    reveal_strlit("(");
    reveal_strlit("{");
    assert("]"@[0] == ']' && ")"@[0] == ')' && "}"@[0] == '}' && ";"@[0] == ';' && ","@[0] == ',');
    assert("="@[0] == '=' && "<"@[0] == '<' && ">"@[0] == '>' && "^"@[0] == '^' && "!"@[0] == '!');
    assert("+"@[0] == '+' && "-"@[0] == '-' && "*"@[0] == '*' && "/"@[0] == '/' && "%"@[0] == '%');
    assert("."@[0] == '.' && "["@[0] == '[' && "("@[0] == '(' && "{"@[0] == '{');
    assert("<="@[0] == '<' && ">="@[0] == '>' && "!="@[0] == '!' && "=="@[0] == '=');
    assert("&&"@[0] == '&' && "||"@[0] == '|');
    assert("<="@.len() == 2 && ">="@.len() == 2 && "!="@.len() == 2 && "=="@.len() == 2);
    assert("&&"@.len() == 2 && "||"@.len() == 2 && "<"@.len() == 1 && ">"@.len() == 1);
    assert("="@.len() == 1 && "!"@.len() == 1);
}

/// The arithmetic operators group as in arithmetic: `*`, `/` and `%` bind
/// more tightly than `+` and `-`, whichever comes first, and operators of
/// the same group associate to the left. So `a + b / c` divides first,
/// and `a / b + c` too.
pub proof fn law_arithmetic_grouping(
    a: Seq<char>,
    b: Seq<char>,
    c: Seq<char>,
    add: Seq<char>,
    add2: Seq<char>,
    mul: Seq<char>,
    mul2: Seq<char>,
)
    requires
        parse_i32_spec(a) is Some,
        parse_i32_spec(b) is Some,
        parse_i32_spec(c) is Some,
        add == "+"@ || add == "-"@,
        add2 == "+"@ || add2 == "-"@,
        mul == "*"@ || mul == "/"@ || mul == "%"@,
        mul2 == "*"@ || mul2 == "/"@ || mul2 == "%"@,
    ensures
        op_power(mul) == op_power("*"@),
        op_power(add).unwrap() < op_power(mul).unwrap(),
        expr_spec(three(a, add, b, mul, c), 0, 0) == Some(
            (infix(add, literal(a), infix(mul, literal(b), literal(c))), 5int),
        ),
        expr_spec(three(a, mul, b, add, c), 0, 0) == Some(
            (infix(add, infix(mul, literal(a), literal(b)), literal(c)), 5int),
        ),
        expr_spec(three(a, mul, b, mul2, c), 0, 0) == Some(
            (infix(mul2, infix(mul, literal(a), literal(b)), literal(c)), 5int),
        ),
        expr_spec(three(a, add, b, add2, c), 0, 0) == Some(
            (infix(add2, infix(add, literal(a), literal(b)), literal(c)), 5int),
        ),
{
    lemma_arith_powers();
    law_precedence(a, b, c, add, mul);
    law_precedence(a, b, c, mul, add);
    law_precedence(a, b, c, mul, mul2);
    law_precedence(a, b, c, add, add2);
}

/// A text of decimal digits parses to the number it writes.
pub proof fn law_parse_number(s: Seq<char>)
    requires
        s.len() > 0,
        crate::text::all_digits(s),
        parse_i32_spec(s) is Some,
    ensures
        parse_spec(s) == Some(SpecNode::Prim(SpecPrim::I32(parse_i32_spec(s).unwrap(), no_info()))),
{
    assert(crate::text::is_digit(s[0]));
    crate::tokens::lemma_run_end_full(s, 0, crate::tokens::Run::Digits);
    assert(s.subrange(0, s.len() as int) =~= s);
    let t = token(TokenType::NumLit, s);
    assert(crate::tokens::lex_head_spec(s, 0) == (t, s.len() as int));
    assert(crate::tokens::lex_spec(s, s.len() as int) =~= Seq::<SpecToken>::empty());
    let toks = crate::tokens::lex_spec(s, 0);
    assert(toks =~= seq![t]);
    assert(nud_spec(toks, 0) == Some((literal(s), 1int)));
    assert(expr_loop_spec(toks, 1, 0, literal(s)) == Some((literal(s), 1int)));
}

/// A quoted text without quotes inside parses to that text.
pub proof fn law_parse_text(t: Seq<char>)
    requires
        forall|j: int| 0 <= j < t.len() ==> #[trigger] t[j] != '"',
    ensures
        parse_spec(seq!['"'] + t + seq!['"']) == Some(SpecNode::Prim(SpecPrim::Str(t, no_info()))),
{
    let s = seq!['"'] + t + seq!['"'];
    let n = s.len() as int;
    assert(s[0] == '"');
    assert(s[n - 1] == '"');
    assert forall|j: int| 1 <= j < n - 1 implies crate::tokens::in_run(
        crate::tokens::Run::NotQuote,
        #[trigger] s[j],
    ) by {
        assert(s[j] == t[j - 1]);
    }
    assert(crate::tokens::run_end(s, 0, crate::tokens::Run::Space) == 0);
    lemma_not_quote_run(s, 1, n - 1);
    assert(s.subrange(1, n - 1) =~= t);
    let tk = token(TokenType::StringLit, t);
    assert(crate::tokens::lex_head_spec(s, 0) == (tk, n));
    assert(crate::tokens::run_end(s, n, crate::tokens::Run::Space) == n);
    assert(crate::tokens::lex_spec(s, n) =~= Seq::<SpecToken>::empty());
    let toks = crate::tokens::lex_spec(s, 0);
    assert(toks =~= seq![tk]);
    assert(nud_spec(toks, 0) == Some((SpecNode::Prim(SpecPrim::Str(t, no_info())), 1int)));
    assert(expr_loop_spec(toks, 1, 0, SpecNode::Prim(SpecPrim::Str(t, no_info()))) == Some(
        (SpecNode::Prim(SpecPrim::Str(t, no_info())), 1int),
    ));
}

proof fn lemma_not_quote_run(s: Seq<char>, i: int, e: int)
    requires
        1 <= i <= e < s.len(),
        s[e] == '"',
        forall|j: int| i <= j < e ==> crate::tokens::in_run(crate::tokens::Run::NotQuote, #[trigger] s[j]),
    ensures
        crate::tokens::run_end(s, i, crate::tokens::Run::NotQuote) == e,
    decreases e - i,
{
    if i < e {
        lemma_not_quote_run(s, i + 1, e);
    }
}

/// Where the parse of an expression stops: at the end of the tokens, at a
/// closing bracket, or at a token that binds no more strongly than `lbp`.
pub open spec fn stops_at(s: Seq<SpecToken>, q: int, lbp: int) -> bool {
    ||| q == s.len()
    ||| s[q].tok_type == TokenType::CloseBracket
    ||| (binding_power_spec(s[q]) is Some && binding_power_spec(s[q]).unwrap().0 <= lbp)
}

/// A left denotation that gives an error consumes nothing, and stands at a
/// closing bracket or past the end of the tokens.
proof fn lemma_led_error(s: Seq<SpecToken>, p: int, left: SpecNode)
    requires
        led_spec(s, p, left) is Some,
        led_spec(s, p, left).unwrap().0 is Error,
    ensures
        led_spec(s, p, left).unwrap().1 == p,
        p < 0 || p >= s.len() || s[p].tok_type == TokenType::CloseBracket,
{
}

proof fn lemma_expr_loop_stops(s: Seq<SpecToken>, p: int, lbp: int, left: SpecNode)
    requires
        0 <= p <= s.len(),
        expr_loop_spec(s, p, lbp, left) is Some,
    ensures
        p <= expr_loop_spec(s, p, lbp, left).unwrap().1 <= s.len(),
        stops_at(s, expr_loop_spec(s, p, lbp, left).unwrap().1, lbp),
    decreases s.len() - p,
{
    if p < s.len() {
        let (b, _) = binding_power_spec(s[p]).unwrap();
        if lbp < b {
            let (n, q) = led_spec(s, p, left).unwrap();
            if n is Error {
                lemma_led_error(s, p, left);
            } else {
                lemma_expr_loop_stops(s, q, lbp, n);
            }
        }
    }
}

/// The parse of an expression only consumes tokens from the front: where it
/// succeeds from position `p`, the tokens left are those from a position `q`
/// with `p <= q`, so they are a suffix of the input. And it stops only at
/// the end of the tokens, at a closing bracket, or at a token whose binding
/// power is at most `lbp`.
pub proof fn law_expr_stops(s: Seq<SpecToken>, p: int, lbp: int)
    requires
        expr_spec(s, p, lbp) is Some,
    ensures
        0 <= p <= expr_spec(s, p, lbp).unwrap().1 <= s.len(),
        stops_at(s, expr_spec(s, p, lbp).unwrap().1, lbp),
{
    let (left, q) = nud_spec(s, p).unwrap();
    lemma_expr_loop_stops(s, q, lbp, left);
}

/// Collecting the definitions of an argument list: a `,` joins the
/// definitions of its two sides, left before right (so nested lists are
/// flattened); a definition stands for itself; any other operator
/// expression is bound to `it`.
pub proof fn law_get_defs(a: SpecNode, b: SpecNode, info: SpecInfo, l: SpecLet, op: Seq<char>)
    ensures
        get_defs_spec(SpecNode::BinOp(","@, Box::new(a), Box::new(b), info)) == get_defs_spec(a) + get_defs_spec(b),
        get_defs_spec(SpecNode::Let(l)) == seq![l],
        op != ","@ ==> get_defs_spec(SpecNode::BinOp(op, Box::new(a), Box::new(b), info)) == seq![
            SpecLet { name: "it"@, value: Some(Box::new(SpecNode::BinOp(op, Box::new(a), Box::new(b), info))), info: info },
        ],
{
}

/// Whether the text `v` is `lit`.
fn is(v: &String, lit: &str) -> (r: bool)
    ensures
        r == (v@ == lit@),
{
    same_text(v.as_str(), lit)
}

/// How strongly the operator `v` binds; see [`op_power`].
fn op_power_of(v: &String) -> (r: Option<i32>)
    ensures
        r == op_power(v@),
{
    if is(v, "]") || is(v, ")") || is(v, "}") {
        Some(0)
    } else if is(v, ";") {
        Some(20)
    } else if is(v, ",") {
        Some(30)
    } else if is(v, "=") {
        Some(40)
    } else if is(v, "<") || is(v, "<=") || is(v, ">") || is(v, ">=") || is(v, "!=") || is(v, "==") {
        Some(50)
    } else if is(v, "&&") || is(v, "||") {
        Some(60)
    } else if is(v, "^") {
        Some(70)
    } else if is(v, "+") || is(v, "-") || is(v, "!") {
        Some(80)
    } else if is(v, "*") || is(v, "/") || is(v, "%") {
        Some(90)
    } else if is(v, ".") {
        Some(100)
    } else if is(v, "[") || is(v, "(") || is(v, "{") {
        Some(110)
    } else {
        None
    }
}

/// The binding power of `tok` and whether it associates to the right.
fn binding_power(tok: &Token) -> (r: (i32, bool))
    requires
        binding_power_spec(tok@) is Some,
    ensures
        binding_power_spec(tok@) == Some(r),
        0 <= r.0,
{
    let bind = match tok.tok_type {
        TokenType::Op => match op_power_of(&tok.value) {
            Some(b) => b,
            None => vstd::pervasive::unreached(),
        },
        _ => 10,
    };
    let assoc_right = match tok.tok_type {
        TokenType::Op => is(&tok.value, "^") || is(&tok.value, "="),
        _ => false,
    };
    (bind, assoc_right)
}

/// The model of a concatenation of definitions is the concatenation of
/// their models.
proof fn lemma_lets_view_append(a: Seq<Let>, b: Seq<Let>)
    ensures
        lets_view(a + b) == lets_view(a) + lets_view(b),
    decreases a.len(),
{
    if a.len() == 0 {
        assert(a + b =~= b);
        assert(lets_view(a) =~= Seq::<SpecLet>::empty());
        assert(lets_view(a) + lets_view(b) =~= lets_view(b));
    } else {
        assert((a + b).drop_first() =~= a.drop_first() + b);
        lemma_lets_view_append(a.drop_first(), b);
        assert(lets_view(a + b) =~= lets_view(a) + lets_view(b));
    }
}

proof fn lemma_lets_view_single(l: Let)
    ensures
        lets_view(seq![l]) == seq![l@],
{
    assert(seq![l].drop_first() =~= Seq::<Let>::empty());
    assert(lets_view(Seq::<Let>::empty()) =~= Seq::<SpecLet>::empty());
    assert(seq![l][0] == l);
    assert(lets_view(seq![l]) =~= seq![l@]);
}

/// The definitions that the argument list `root` of an application
/// introduces; see [`get_defs_spec`].
fn get_defs(root: Node) -> (r: Vec<Let>)
    ensures
        lets_view(r@) == get_defs_spec(root@),
    decreases root,
{
    let ghost rv = root@;
    match root {
        Node::LetNode(n) => {
            let r = vec![n];
            proof {
                lemma_lets_view_single(r@[0]);
                assert(r@ =~= seq![r@[0]]);
            }
            r
        },
        Node::BinOpNode(BinOp { name, left, right, info }) => {
            if is(&name, ",") {
                let mut a = get_defs(*left);
                let mut b = get_defs(*right);
                let ghost (a0, b0) = (a@, b@);
                a.append(&mut b);
                proof {
                    lemma_lets_view_append(a0, b0);
                }
                a
            } else {
                let inner = BinOp { name, left, right, info: info.clone() }.to_node();
                let r = vec![Let { name: String::from_str("it"), value: Some(Box::new(inner)), info }];
                proof {
                    lemma_lets_view_single(r@[0]);
                    assert(r@ =~= seq![r@[0]]);
                }
                r
            }
        },
        n => {
            let value = n.clone();
            let info = n.get_info();
            let r = vec![Let { name: String::from_str("it"), value: Some(Box::new(value)), info }];
            proof {
                lemma_lets_view_single(r@[0]);
                assert(r@ =~= seq![r@[0]]);
            }
            r
        },
    }
}


/// Whether the token at `q` closes the bracket `open`.
fn closes(toks: &Vec<Token>, q: usize, open: &String) -> (r: bool)
    ensures
        r == (0 <= q < toks@.len() && toks@[q as int].tok_type == TokenType::CloseBracket
            && brackets_match(open@, toks@[q as int].value@)),
{
    if q >= toks.len() {
        return false;
    }
    let close = &toks[q];
    match close.tok_type {
        TokenType::CloseBracket => (is(open, "(") && is(&close.value, ")")) || (is(open, "[") && is(
            &close.value,
            "]",
        )) || (is(open, "{") && is(&close.value, "}")),
        _ => false,
    }
}

/// A number literal.
fn number(v: &String) -> (n: Node)
    requires
        parse_i32_spec(v@) is Some,
    ensures
        n@ == SpecNode::Prim(SpecPrim::I32(parse_i32_spec(v@).unwrap(), no_info())),
{
    let value = parse_i32(v.as_str()).unwrap();
    Prim::I32(value, Info::default()).to_node()
}

/// Parses the expression that starts at `p`; see [`nud_spec`].
fn nud(toks: &Vec<Token>, p: usize) -> (r: (Node, usize))
    requires
        p <= toks@.len(),
        nud_spec(tokens_view(toks@), p as int) is Some,
    ensures
        nud_spec(tokens_view(toks@), p as int) == Some((r.0@, r.1 as int)),
    decreases toks@.len() - p, 1int,
{
    let ghost s = tokens_view(toks@);
    if p >= toks.len() {
        return (Node::Error(String::from_str("Unexpected eof, expected expr")), p);
    }
    let head = &toks[p];
    assert(s[p as int] == head@);
    match head.tok_type {
        TokenType::NumLit => (number(&head.value), p + 1),
        TokenType::StringLit => (Prim::Str(head.value.clone(), Info::default()).to_node(), p + 1),
        TokenType::Op => {
            let (lbp, _) = binding_power(head);
            let (right, q) = expr(toks, p + 1, lbp);
            (UnOp { name: head.value.clone(), inner: Box::new(right), info: Info::default() }.to_node(), q)
        },
        TokenType::OpenBracket => {
            let (inner, q) = expr(toks, p + 1, 0);
            if !closes(toks, q, &head.value) {
                return vstd::pervasive::unreached();
            }
            (inner, q + 1)
        },
        TokenType::Sym => (Sym { name: head.value.clone(), info: Info::default() }.to_node(), p + 1),
        _ => vstd::pervasive::unreached(),
    }
}

/// Parses what continues `left` at `p`; see [`led_spec`].
fn led(toks: &Vec<Token>, p: usize, left: Node) -> (r: (Node, usize))
    requires
        p <= toks@.len(),
        led_spec(tokens_view(toks@), p as int, left@) is Some,
    ensures
        led_spec(tokens_view(toks@), p as int, left@) == Some((r.0@, r.1 as int)),
    decreases toks@.len() - p, 1int,
{
    let ghost s = tokens_view(toks@);
    if p < toks.len() {
        assert(s[p as int] == toks@[p as int]@);
        match toks[p].tok_type {
            TokenType::CloseBracket => {
                return (Node::Error(String::from_str("Close bracket")), p);
            },
            _ => {},
        }
    }
    if p >= toks.len() {
        return (Node::Error(String::from_str("Unexpected eof, expected expr tail")), p);
    }
    let head = &toks[p];
    match head.tok_type {
        TokenType::NumLit => (number(&head.value), p + 1),
        TokenType::StringLit => (Prim::Str(head.value.clone(), Info::default()).to_node(), p + 1),
        TokenType::Op => {
            let (lbp, assoc_right) = binding_power(head);
            let (right, q) = expr(toks, p + 1, lbp - if assoc_right { 1 } else { 0 });
            if is(&head.value, "=") {
                assert(s[p as int] == head@);
                match left {
                    Node::SymNode(sym) => {
                        assert(left@ == SpecNode::Sym(sym.name@, sym.info@));
                        let l = Let { name: sym.name, value: Some(Box::new(right)), info: Info::default() };
                        assert(l@ == SpecLet { name: left@->Sym_0, value: Some(Box::new(right@)), info: no_info() });
                        let n = l.to_node();
                        assert(n@ == SpecNode::Let(l@));
                        return (n, q);
                    },
                    _ => {
                        return vstd::pervasive::unreached();
                    },
                }
            }
            (BinOp {
                name: head.value.clone(),
                left: Box::new(left),
                right: Box::new(right),
                info: Info::default(),
            }.to_node(), q)
        },
        TokenType::OpenBracket => {
            let (inner, q) = expr(toks, p + 1, 0);
            if !closes(toks, q, &head.value) {
                return vstd::pervasive::unreached();
            }
            let args = get_defs(inner);
            (Apply { inner: Box::new(left), args }.to_node(), q + 1)
        },
        _ => vstd::pervasive::unreached(),
    }
}

/// Parses the expression at `p` whose operators bind more strongly than
/// `init_lbp`; see [`expr_spec`].
fn expr(toks: &Vec<Token>, p: usize, init_lbp: i32) -> (r: (Node, usize))
    requires
        p <= toks@.len(),
        expr_spec(tokens_view(toks@), p as int, init_lbp as int) is Some,
    ensures
        expr_spec(tokens_view(toks@), p as int, init_lbp as int) == Some((r.0@, r.1 as int)),
    decreases toks@.len() - p, 3int,
{
    let ghost s = tokens_view(toks@);
    let ghost goal = expr_spec(s, p as int, init_lbp as int);
    let (first, q0) = nud(toks, p);
    let mut left = first;
    let mut q = q0;
    loop
        invariant
            s == tokens_view(toks@),
            p <= q <= toks@.len(),
            goal == expr_spec(s, p as int, init_lbp as int),
            goal is Some,
            expr_loop_spec(s, q as int, init_lbp as int, left@) == goal,
        decreases toks@.len() - q,
    {
        if q >= toks.len() {
            return (left, q);
        }
        assert(s[q as int] == toks@[q as int]@);
        let (lbp, _) = binding_power(&toks[q]);
        if init_lbp >= lbp {
            return (left, q);
        }
        let (next, q2) = led(toks, q, left.clone());
        match next {
            Node::Error(_) => {
                return (left, q2);
            },
            _ => {},
        }
        left = next;
        q = q2;
    }
}

/// Parses `contents` into a syntax tree. The parser panics on text that is
/// no well-formed expression; `parse_spec` is `None` there.
pub fn parse(contents: String) -> (root: Node)
    requires
        parse_spec(contents@) is Some,
    ensures
        parse_spec(contents@) == Some(root@),
{
    let toks = lex(contents.as_str());
    let (root, left_over) = expr(&toks, 0, 0);
    if left_over != toks.len() {
        return vstd::pervasive::unreached();
    }
    root
}

} // verus!
