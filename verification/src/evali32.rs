//! An evaluator of arithmetic over trees of tokens, to an `i32`.
//!
//! Error, whitespace, unknown and symbol tokens evaluate to the negative
//! codes `-1`, `-2`, `-3` and `-4`; an operator that it does not know
//! evaluates to `-6`.

use vstd::prelude::*;

use crate::arith::{
    as_u32, div_i32, div_trunc, int_pow, law_div_trunc, lemma_i32_division_fits, magnitude, pow_i32,
};
use crate::text::{parse_i32, parse_i32_spec, same_text};
use crate::tokens::{SpecToken, Token, TokenType};
use crate::tree::{lemma_trees_view_index, trees_view, SpecTree, Tree};

verus! {

/// Whether `x` fits in an `i32`.
pub open spec fn fits(x: int) -> bool {
    i32::MIN <= x <= i32::MAX
}

/// What `/`, `-` or `^` gives for `a` and `b`; `None` where the evaluator
/// panics (division by zero, overflow).
pub open spec fn binary_spec(op: Seq<char>, a: i32, b: i32) -> Option<i32> {
    if op == "/"@ {
        if b == 0 || (a == i32::MIN && b == -1) {
            None
        } else {
            Some(div_trunc(a as int, b as int) as i32)
        }
    } else if op == "-"@ {
        if fits(a - b) { Some((a - b) as i32) } else { None }
    } else {
        if fits(int_pow(a as int, as_u32(b))) {
            Some(int_pow(a as int, as_u32(b)) as i32)
        } else {
            None
        }
    }
}

/// The value of a tree; `None` where the evaluator panics.
pub open spec fn eval_tree(t: SpecTree<SpecToken>) -> Option<i32>
    decreases t,
{
    match t.value.tok_type {
        TokenType::Error => Some(-1i32),
        TokenType::Whitespace => Some(-2i32),
        TokenType::Unknown => Some(-3i32),
        TokenType::Sym => Some(-4i32),
        TokenType::Bracket => if t.children.len() > 1 {
            eval_tree(t.children[1])
        } else {
            None
        },
        TokenType::Op => {
            let op = t.value.value;
            if op == "*"@ {
                fold_tree(t.children, true, 1)
            } else if op == "+"@ {
                fold_tree(t.children, false, 0)
            } else if op == "/"@ || op == "-"@ || op == "^"@ {
                if t.children.len() < 2 {
                    None
                } else {
                    match eval_tree(t.children[0]) {
                        None => None,
                        Some(a) => match eval_tree(t.children[1]) {
                            None => None,
                            Some(b) => binary_spec(op, a, b),
                        },
                    }
                }
            } else {
                Some(-6i32)
            }
        },
        TokenType::NumLit => parse_i32_spec(t.value.value),
        _ => None,
    }
}

/// The product (`mul`) or sum of the values of `kids`, from `acc` on;
/// `None` where a value is undefined or the running result overflows.
pub open spec fn fold_tree(kids: Seq<SpecTree<SpecToken>>, mul: bool, acc: i32) -> Option<i32>
    decreases kids,
{
    if kids.len() == 0 {
        Some(acc)
    } else {
        match eval_tree(kids[0]) {
            None => None,
            Some(v) => {
                let next = if mul { acc * v } else { acc + v };
                if fits(next) {
                    fold_tree(kids.drop_first(), mul, next as i32)
                } else {
                    None
                }
            },
        }
    }
}

/// Walks a tree of tokens, evaluating it.
pub struct Interpreter;

impl Default for Interpreter {
    fn default() -> (r: Interpreter)
        ensures
            r == Interpreter,
    {
        Interpreter {}
    }
}

impl Interpreter {
    /// Evaluates the whole tree.
    pub fn visit_root(&mut self, expr: &Tree<Token>) -> (r: i32)
        requires
            eval_tree(expr@) is Some,
        ensures
            eval_tree(expr@) == Some(r),
    {
        self.visit(expr)
    }

    /// Evaluates `expr`; see [`eval_tree`].
    pub fn visit(&mut self, expr: &Tree<Token>) -> (r: i32)
        requires
            eval_tree(expr@) is Some,
        ensures
            eval_tree(expr@) == Some(r),
        decreases expr,
    {
        proof {
            lemma_trees_view_index(expr.children@);
        }
        match expr.value.tok_type {
            TokenType::Error => -1,
            TokenType::Whitespace => -2,
            TokenType::Unknown => -3,
            TokenType::Sym => -4,
            TokenType::Bracket => self.visit(&expr.children[1]),
            TokenType::Op => {
                let op = &expr.value.value;
                if same_text(op.as_str(), "*") {
                    self.fold(expr, true)
                } else if same_text(op.as_str(), "+") {
                    self.fold(expr, false)
                } else if same_text(op.as_str(), "/") {
                    let a = self.visit(&expr.children[0]);
                    let b = self.visit(&expr.children[1]);
                    div_i32(a, b)
                } else if same_text(op.as_str(), "-") {
                    let a = self.visit(&expr.children[0]);
                    let b = self.visit(&expr.children[1]);
                    a - b
                } else if same_text(op.as_str(), "^") {
                    let a = self.visit(&expr.children[0]);
                    let b = self.visit(&expr.children[1]);
                    let e: u32 = if b >= 0 { b as u32 } else { ((b as i64) + 4294967296) as u32 };
                    match pow_i32(a, e) {
                        Some(v) => v,
                        None => vstd::pervasive::unreached(),
                    }
                } else {
                    -6
                }
            },
            TokenType::NumLit => parse_i32(expr.value.value.as_str()).unwrap(),
            _ => vstd::pervasive::unreached(),
        }
    }

    /// The product (`mul`) or sum of the values of the children of `expr`.
    fn fold(&mut self, expr: &Tree<Token>, mul: bool) -> (r: i32)
        requires
            fold_tree(expr@.children, mul, if mul { 1 } else { 0 }) is Some,
        ensures
            fold_tree(expr@.children, mul, if mul { 1 } else { 0 }) == Some(r),
        decreases expr, 0int,
    {
        let ghost kids = expr@.children;
        let ghost goal = fold_tree(kids, mul, if mul { 1 } else { 0 });
        proof {
            lemma_trees_view_index(expr.children@);
        }
        let mut acc: i32 = if mul { 1 } else { 0 };
        let mut i: usize = 0;
        assert(kids.skip(0) =~= kids);
        while i < expr.children.len()
            invariant
                kids == trees_view(expr.children@),
                kids.len() == expr.children@.len(),
                forall|j: int| 0 <= j < kids.len() ==> #[trigger] kids[j] == expr.children@[j]@,
                i <= kids.len(),
                fold_tree(kids.skip(i as int), mul, acc) == goal,
                goal is Some,
            decreases kids.len() - i,
        {
            assert(kids.skip(i as int)[0] == kids[i as int]);
            assert(kids.skip(i as int).drop_first() =~= kids.skip(i + 1));
            let v = self.visit(&expr.children[i]);
            if mul {
                assert(-4611686018427387904 <= (acc as int) * (v as int) <= 4611686018427387904)
                    by (nonlinear_arith)
                    requires
                        -2147483648 <= acc <= 2147483647,
                        -2147483648 <= v <= 2147483647,
                ;
                acc = ((acc as i64) * (v as i64)) as i32;
            } else {
                acc = ((acc as i64) + (v as i64)) as i32;
            }
            i = i + 1;
        }
        acc
    }
}

/// Division in a tree rounds toward zero: where `/` is defined, its result
/// `q` leaves a remainder `a - b * q` smaller in magnitude than `b` and zero
/// or of the sign of `a`.
pub proof fn law_division_rounds_toward_zero(a: i32, b: i32)
    requires
        b != 0,
        !(a == i32::MIN && b == -1),
    ensures
        binary_spec("/"@, a, b) is Some,
        ({
            let q = binary_spec("/"@, a, b).unwrap() as int;
            let r = a - b * q;
            &&& magnitude(r) < magnitude(b as int)
            &&& (r == 0 || (r < 0) == (a < 0))
        }),
{
    law_div_trunc(a as int, b as int);
    lemma_i32_division_fits(a, b);
}

/// Subtraction in a tree is the integer difference, and `^` the power with
/// a non-negative exponent, where these fit in an `i32`.
pub proof fn law_difference_and_power(a: i32, b: i32)
    ensures
        fits(a - b) ==> binary_spec("-"@, a, b) == Some((a - b) as i32),
        !fits(a - b) ==> binary_spec("-"@, a, b) is None,
        b >= 0 && fits(int_pow(a as int, b as nat)) ==> binary_spec("^"@, a, b) == Some(
            int_pow(a as int, b as nat) as i32,
        ),
{
    reveal_strlit("/");
    reveal_strlit("-");
    reveal_strlit("^");
    assert("/"@[0] == '/' && "-"@[0] == '-' && "^"@[0] == '^');
}

} // verus!
