//! The lexer: turns source text into a sequence of tokens.

use vstd::prelude::*;

use crate::text::is_digit;

verus! {

/// The kinds of tokens.
#[derive(Debug, Clone, Copy, PartialEq, Eq, Structural)]
pub enum TokenType {
    NumLit,
    StringLit,
    Op,
    OpenBracket,
    CloseBracket,
    Sym,
    Unknown,
    Whitespace,
    Error,
    Bracket,
}

/// A token: its kind and its text.
#[derive(Debug, PartialEq)]
pub struct Token {
    pub value: String,
    pub tok_type: TokenType,
}

/// Model of a [`Token`].
pub struct SpecToken {
    pub value: Seq<char>,
    pub tok_type: TokenType,
}

impl View for Token {
    type V = SpecToken;

    open spec fn view(&self) -> SpecToken {
        SpecToken { value: self.value@, tok_type: self.tok_type }
    }
}

/// The models of a sequence of tokens.
pub open spec fn tokens_view(s: Seq<Token>) -> Seq<SpecToken> {
    s.map_values(|t: Token| t@)
}

/// Characters that separate tokens.
pub open spec fn is_space(c: char) -> bool {
    c == ' ' || c == '\t' || c == '\n' || c == '\r'
}

/// Characters that may begin a name.
pub open spec fn is_ident_start(c: char) -> bool {
    ('a' <= c && c <= 'z') || ('A' <= c && c <= 'Z') || c == '_'
}

/// Characters that may continue a name.
pub open spec fn is_ident_char(c: char) -> bool {
    is_ident_start(c) || is_digit(c)
}

/// Opening brackets.
pub open spec fn is_open(c: char) -> bool {
    c == '(' || c == '[' || c == '{'
}

/// Closing brackets.
pub open spec fn is_close(c: char) -> bool {
    c == ')' || c == ']' || c == '}'
}

/// Operators of one character.
pub open spec fn is_op_char(c: char) -> bool {
    c == '+' || c == '-' || c == '*' || c == '/' || c == '%' || c == '^' || c == '=' || c == ';'
        || c == ',' || c == '<' || c == '>' || c == '!' || c == '.'
}

/// Operators of two characters: `<=`, `>=`, `==`, `!=`, `&&` and `||`.
pub open spec fn is_op_pair(c: char, d: char) -> bool {
    (c == '<' && d == '=') || (c == '>' && d == '=') || (c == '=' && d == '=') || (c == '!' && d
        == '=') || (c == '&' && d == '&') || (c == '|' && d == '|')
}

/// The runs of characters that the lexer scans over.
#[derive(Clone, Copy, PartialEq, Eq, Structural)]
pub enum Run {
    Space,
    Digits,
    Ident,
    NotQuote,
}

/// Whether `c` continues a run of `kind`.
pub open spec fn in_run(kind: Run, c: char) -> bool {
    match kind {
        Run::Space => is_space(c),
        Run::Digits => is_digit(c),
        Run::Ident => is_ident_char(c),
        Run::NotQuote => c != '"',
    }
}

/// Where the run of `kind` that starts at `i` ends.
pub open spec fn run_end(s: Seq<char>, i: int, kind: Run) -> int
    decreases s.len() - i,
{
    if 0 <= i < s.len() && in_run(kind, s[i]) {
        run_end(s, i + 1, kind)
    } else {
        i
    }
}

/// A token of `kind` whose text is `s[a..b]`.
pub open spec fn tok(kind: TokenType, s: Seq<char>, a: int, b: int) -> SpecToken {
    SpecToken { value: s.subrange(a, b), tok_type: kind }
}

/// The first token at or after position `i` of `s`, and the position after
/// it. At the end of the text, or at a character that starts no token, the
/// token is `Unknown`.
pub open spec fn lex_head_spec(s: Seq<char>, i: int) -> (SpecToken, int) {
    let j = run_end(s, i, Run::Space);
    if j >= s.len() {
        (tok(TokenType::Unknown, s, j, j), j)
    } else {
        let c = s[j];
        if is_digit(c) {
            let k = run_end(s, j, Run::Digits);
            (tok(TokenType::NumLit, s, j, k), k)
        } else if c == '"' {
            let k = run_end(s, j + 1, Run::NotQuote);
            if k >= s.len() {
                (tok(TokenType::Unknown, s, j, j + 1), j)
            } else {
                (tok(TokenType::StringLit, s, j + 1, k), k + 1)
            }
        } else if is_ident_start(c) {
            let k = run_end(s, j, Run::Ident);
            (tok(TokenType::Sym, s, j, k), k)
        } else if is_open(c) {
            (tok(TokenType::OpenBracket, s, j, j + 1), j + 1)
        } else if is_close(c) {
            (tok(TokenType::CloseBracket, s, j, j + 1), j + 1)
        } else if j + 1 < s.len() && is_op_pair(c, s[j + 1]) {
            (tok(TokenType::Op, s, j, j + 2), j + 2)
        } else if is_op_char(c) {
            (tok(TokenType::Op, s, j, j + 1), j + 1)
        } else {
            (tok(TokenType::Unknown, s, j, j + 1), j)
        }
    }
}

/// The tokens of `s` from position `i`, up to the end of the text or the
/// first character that starts no token.
pub open spec fn lex_spec(s: Seq<char>, i: int) -> Seq<SpecToken>
    decreases s.len() - i,
{
    let (t, k) = lex_head_spec(s, i);
    if t.tok_type == TokenType::Unknown || k <= i || i < 0 || k > s.len() {
        seq![]
    } else {
        seq![t] + lex_spec(s, k)
    }
}

pub(crate) proof fn lemma_run_end_bounds(s: Seq<char>, i: int, kind: Run)
    requires
        0 <= i <= s.len(),
    ensures
        i <= run_end(s, i, kind) <= s.len(),
        i < s.len() && in_run(kind, s[i]) ==> run_end(s, i, kind) > i,
    decreases s.len() - i,
{
    if i < s.len() && in_run(kind, s[i]) {
        lemma_run_end_bounds(s, i + 1, kind);
    }
}

/// A run that lasts to the end of the text ends there.
pub(crate) proof fn lemma_run_end_full(s: Seq<char>, i: int, kind: Run)
    requires
        0 <= i <= s.len(),
        forall|j: int| i <= j < s.len() ==> in_run(kind, #[trigger] s[j]),
    ensures
        run_end(s, i, kind) == s.len(),
    decreases s.len() - i,
{
    if i < s.len() {
        lemma_run_end_full(s, i + 1, kind);
    }
}

/// A token other than `Unknown` takes at least one character.
proof fn lemma_lex_head_advances(s: Seq<char>, i: int)
    requires
        0 <= i <= s.len(),
    ensures
        lex_head_spec(s, i).0.tok_type != TokenType::Unknown ==> lex_head_spec(s, i).1 > i,
        lex_head_spec(s, i).1 <= s.len(),
{
    lemma_run_end_bounds(s, i, Run::Space);
    let j = run_end(s, i, Run::Space);
    if j < s.len() {
        lemma_run_end_bounds(s, j, Run::Digits);
        lemma_run_end_bounds(s, j, Run::Ident);
        lemma_run_end_bounds(s, j + 1, Run::NotQuote);
    }
}

proof fn lemma_run_end_shift(s: Seq<char>, t: Seq<char>, i: int, kind: Run)
    requires
        t.len() == s.len() + 1,
        forall|j: int| 0 <= j < s.len() ==> t[j + 1] == s[j],
        0 <= i <= s.len(),
    ensures
        run_end(t, i + 1, kind) == run_end(s, i, kind) + 1,
    decreases s.len() - i,
{
    if i < s.len() {
        assert(t[i + 1] == s[i]);
        if in_run(kind, s[i]) {
            lemma_run_end_shift(s, t, i + 1, kind);
        }
    }
}

proof fn lemma_lex_head_shift(s: Seq<char>, t: Seq<char>, i: int)
    requires
        t.len() == s.len() + 1,
        forall|j: int| 0 <= j < s.len() ==> t[j + 1] == s[j],
        0 <= i <= s.len(),
    ensures
        lex_head_spec(t, i + 1) == (lex_head_spec(s, i).0, lex_head_spec(s, i).1 + 1),
{
    lemma_run_end_shift(s, t, i, Run::Space);
    lemma_run_end_bounds(s, i, Run::Space);
    let j = run_end(s, i, Run::Space);
    if j < s.len() {
        assert(t[j + 1] == s[j]);
        lemma_run_end_shift(s, t, j, Run::Digits);
        lemma_run_end_shift(s, t, j, Run::Ident);
        lemma_run_end_shift(s, t, j + 1, Run::NotQuote);
        lemma_run_end_bounds(s, j, Run::Digits);
        lemma_run_end_bounds(s, j, Run::Ident);
        lemma_run_end_bounds(s, j + 1, Run::NotQuote);
        if j + 1 < s.len() {
            assert(t[j + 2] == s[j + 1]);
        }
        let kd = run_end(s, j, Run::Digits);
        let ki = run_end(s, j, Run::Ident);
        let kq = run_end(s, j + 1, Run::NotQuote);
        assert(t.subrange(j + 1, kd + 1) =~= s.subrange(j, kd));
        assert(t.subrange(j + 1, ki + 1) =~= s.subrange(j, ki));
        assert(t.subrange(j + 2, kq + 1) =~= s.subrange(j + 1, kq));
        assert(t.subrange(j + 1, j + 2) =~= s.subrange(j, j + 1));
        if j + 2 <= s.len() {
            assert(t.subrange(j + 1, j + 3) =~= s.subrange(j, j + 2));
        }
    } else {
        assert(t.subrange(j + 1, j + 1) =~= s.subrange(j, j));
    }
}

proof fn lemma_lex_shift(s: Seq<char>, t: Seq<char>, i: int)
    requires
        t.len() == s.len() + 1,
        forall|j: int| 0 <= j < s.len() ==> t[j + 1] == s[j],
        0 <= i <= s.len(),
    ensures
        lex_spec(t, i + 1) == lex_spec(s, i),
    decreases s.len() - i,
{
    lemma_lex_head_shift(s, t, i);
    lemma_lex_head_advances(s, i);
    let (tok, k) = lex_head_spec(s, i);
    if tok.tok_type != TokenType::Unknown {
        lemma_lex_shift(s, t, k);
    }
}

/// A space before the text does not change its tokens.
pub proof fn law_leading_space(c: char, s: Seq<char>)
    requires
        is_space(c),
    ensures
        lex_spec(seq![c] + s, 0) == lex_spec(s, 0),
{
    let t = seq![c] + s;
    assert forall|j: int| 0 <= j < s.len() implies t[j + 1] == s[j] by {}
    assert(t[0] == c);
    lemma_lex_shift(s, t, 0);
    lemma_lex_head_shift(s, t, 0);
    lemma_lex_head_advances(s, 0);
    assert(run_end(t, 0, Run::Space) == run_end(t, 1, Run::Space));
    assert(lex_head_spec(t, 0) == lex_head_spec(t, 1));
    let (tok, k) = lex_head_spec(s, 0);
    if tok.tok_type != TokenType::Unknown {
        lemma_lex_shift(s, t, k);
    }
}

/// The characters of `s`.
pub fn chars_of(s: &str) -> (v: Vec<char>)
    ensures
        v@ == s@,
{
    let mut v: Vec<char> = Vec::new();
    for c in it: s.chars()
        invariant
            v@ == it.seq().take(it.index() as int),
    {
        v.push(c);
    }
    v
}

/// Whether `c` continues a run of `kind`.
fn continues(kind: Run, c: char) -> (r: bool)
    ensures
        r == in_run(kind, c),
{
    match kind {
        Run::Space => c == ' ' || c == '\t' || c == '\n' || c == '\r',
        Run::Digits => '0' <= c && c <= '9',
        Run::Ident => ('a' <= c && c <= 'z') || ('A' <= c && c <= 'Z') || c == '_' || ('0' <= c
            && c <= '9'),
        Run::NotQuote => c != '"',
    }
}

/// Scans the run of `kind` that starts at `i`.
fn scan(chars: &Vec<char>, i: usize, kind: Run) -> (k: usize)
    requires
        i <= chars@.len(),
    ensures
        k == run_end(chars@, i as int, kind),
        i <= k <= chars@.len(),
        (i < chars@.len() && in_run(kind, chars@[i as int])) ==> k > i,
{
    let mut k = i;
    while k < chars.len() && continues(kind, chars[k])
        invariant
            i <= k <= chars@.len(),
            run_end(chars@, i as int, kind) == run_end(chars@, k as int, kind),
        decreases chars@.len() - k,
    {
        k = k + 1;
    }
    k
}

/// A token of `kind` whose text is `text[a..b]`.
fn make_token(text: &str, a: usize, b: usize, kind: TokenType) -> (t: Token)
    requires
        a <= b <= text@.len(),
    ensures
        t@ == tok(kind, text@, a as int, b as int),
{
    let mut value = String::new();
    value.append(text.substring_char(a, b));
    Token { value, tok_type: kind }
}

/// Reads the first token at or after position `i`; see [`lex_head_spec`].
pub fn lex_head(text: &str, chars: &Vec<char>, i: usize) -> (r: (Token, usize))
    requires
        chars@ == text@,
        i <= chars@.len(),
    ensures
        r.0@ == lex_head_spec(text@, i as int).0,
        r.1 == lex_head_spec(text@, i as int).1,
        r.1 <= chars@.len(),
        r.0.tok_type != TokenType::Unknown ==> r.1 > i,
{
    let n = chars.len();
    let j = scan(chars, i, Run::Space);
    if j >= n {
        return (make_token(text, j, j, TokenType::Unknown), j);
    }
    let c = chars[j];
    if '0' <= c && c <= '9' {
        let k = scan(chars, j, Run::Digits);
        (make_token(text, j, k, TokenType::NumLit), k)
    } else if c == '"' {
        let k = scan(chars, j + 1, Run::NotQuote);
        if k >= n {
            (make_token(text, j, j + 1, TokenType::Unknown), j)
        } else {
            (make_token(text, j + 1, k, TokenType::StringLit), k + 1)
        }
    } else if ('a' <= c && c <= 'z') || ('A' <= c && c <= 'Z') || c == '_' {
        let k = scan(chars, j, Run::Ident);
        (make_token(text, j, k, TokenType::Sym), k)
    } else if c == '(' || c == '[' || c == '{' {
        (make_token(text, j, j + 1, TokenType::OpenBracket), j + 1)
    } else if c == ')' || c == ']' || c == '}' {
        (make_token(text, j, j + 1, TokenType::CloseBracket), j + 1)
    } else if j + 1 < n && ((c == '<' && chars[j + 1] == '=') || (c == '>' && chars[j + 1] == '=')
        || (c == '=' && chars[j + 1] == '=') || (c == '!' && chars[j + 1] == '=') || (c == '&'
        && chars[j + 1] == '&') || (c == '|' && chars[j + 1] == '|')) {
        (make_token(text, j, j + 2, TokenType::Op), j + 2)
    } else if c == '+' || c == '-' || c == '*' || c == '/' || c == '%' || c == '^' || c == '='
        || c == ';' || c == ',' || c == '<' || c == '>' || c == '!' || c == '.' {
        (make_token(text, j, j + 1, TokenType::Op), j + 1)
    } else {
        (make_token(text, j, j + 1, TokenType::Unknown), j)
    }
}

/// Reads all the tokens of `text`, up to its end or to the first character
/// that starts no token; see [`lex_spec`].
pub fn lex(text: &str) -> (toks: Vec<Token>)
    ensures
        tokens_view(toks@) == lex_spec(text@, 0),
{
    let chars = chars_of(text);
    let mut toks: Vec<Token> = Vec::new();
    let mut i: usize = 0;
    loop
        invariant
            chars@ == text@,
            i <= chars@.len(),
            tokens_view(toks@) + lex_spec(text@, i as int) == lex_spec(text@, 0),
        decreases chars@.len() - i,
    {
        let (t, k) = lex_head(text, &chars, i);
        if t.tok_type == TokenType::Unknown {
            assert(lex_spec(text@, i as int) =~= seq![]);
            assert(tokens_view(toks@) + seq![] =~= tokens_view(toks@));
            return toks;
        }
        let ghost before = toks@;
        toks.push(t);
        assert(tokens_view(toks@) =~= tokens_view(before) + seq![t@]);
        assert(tokens_view(toks@) + lex_spec(text@, k as int) =~= tokens_view(before) + lex_spec(
            text@,
            i as int,
        ));
        i = k;
    }
}

} // verus!
