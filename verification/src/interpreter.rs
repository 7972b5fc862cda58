//! A tree-walking interpreter: evaluates a syntax tree to a primitive value.
//!
//! Names are bound lazily: a definition stores the defining node, and a
//! name is evaluated, where it is used, in the state of that use.

use vstd::prelude::*;

use crate::arith::{
    as_u32, div_i32, div_trunc, int_pow, law_div_trunc, lemma_i32_division_fits, magnitude, pow_i32,
    rem_i32, rem_trunc,
};
use crate::ast::{
    no_info, Apply, BinOp, Info, Let, Node, Prim, SpecInfo, SpecLet, SpecNode, SpecPrim, Sym,
    ToNode, UnOp, Visitor,
};
use crate::text::{
    bool_text, bool_to_text, concat_text, decimal, i32_text, same_text, text_is_less, text_less,
};

verus! {

/// What goes wrong in an evaluation.
#[derive(Debug, PartialEq)]
pub enum InterpreterError {
    UnknownInfixOperator(String, Info),
    UnknownPrefixOperator(String, Info),
    FailedParse(String, Info),
    TypeMismatch(String, Prim, Info),
    TypeMismatch2(String, Prim, Prim, Info),
}

/// Model of an [`InterpreterError`].
pub enum SpecError {
    UnknownInfixOperator(Seq<char>, SpecInfo),
    UnknownPrefixOperator(Seq<char>, SpecInfo),
    FailedParse(Seq<char>, SpecInfo),
    TypeMismatch(Seq<char>, SpecPrim, SpecInfo),
    TypeMismatch2(Seq<char>, SpecPrim, SpecPrim, SpecInfo),
}

impl View for InterpreterError {
    type V = SpecError;

    open spec fn view(&self) -> SpecError {
        match self {
            InterpreterError::UnknownInfixOperator(s, i) => SpecError::UnknownInfixOperator(s@, i@),
            InterpreterError::UnknownPrefixOperator(s, i) => SpecError::UnknownPrefixOperator(s@, i@),
            InterpreterError::FailedParse(s, i) => SpecError::FailedParse(s@, i@),
            InterpreterError::TypeMismatch(s, p, i) => SpecError::TypeMismatch(s@, p@, i@),
            InterpreterError::TypeMismatch2(s, p, q, i) => SpecError::TypeMismatch2(s@, p@, q@, i@),
        }
    }
}

/// What evaluating a node gives.
pub type SpecRes = Result<SpecPrim, SpecError>;

/// The model of an evaluation result.
pub open spec fn res_view(r: Result<Prim, InterpreterError>) -> SpecRes {
    match r {
        Ok(p) => Ok(p@),
        Err(e) => Err(e@),
    }
}

/// A frame of definitions: each name with the node that defines it; a
/// later definition of a name hides an earlier one.
pub type SpecFrame = Seq<(Seq<char>, SpecNode)>;

/// The stack of frames; the innermost frame is last.
pub type SpecStack = Seq<SpecFrame>;

/// The node that defines `name` in frame `f`.
pub open spec fn frame_lookup(f: SpecFrame, name: Seq<char>) -> Option<SpecNode>
    decreases f.len(),
{
    if f.len() == 0 {
        None
    } else if f.last().0 == name {
        Some(f.last().1)
    } else {
        frame_lookup(f.drop_last(), name)
    }
}

/// The node that defines `name` in the innermost frame of `st` that
/// defines it.
pub open spec fn stack_lookup(st: SpecStack, name: Seq<char>) -> Option<SpecNode>
    decreases st.len(),
{
    if st.len() == 0 {
        None
    } else {
        match frame_lookup(st.last(), name) {
            Some(v) => Some(v),
            None => stack_lookup(st.drop_last(), name),
        }
    }
}

/// Frame `f` after the definition `l`; a definition without a value binds
/// nothing.
pub open spec fn bind_one(f: SpecFrame, l: SpecLet) -> SpecFrame {
    match l.value {
        Some(v) => f.push((l.name, *v)),
        None => f,
    }
}

/// Frame `f` after the definitions `args`, in order.
pub open spec fn bind_lets(f: SpecFrame, args: Seq<SpecLet>) -> SpecFrame
    decreases args.len(),
{
    if args.len() == 0 {
        f
    } else {
        bind_lets(bind_one(f, args[0]), args.drop_first())
    }
}

/// `0` or `1` for a boolean.
pub open spec fn bit(b: bool) -> int {
    if b { 1 } else { 0 }
}

/// An `i32` result, or `None` (a panic on overflow) when `x` does not fit.
pub open spec fn i32_result(x: int, info: SpecInfo) -> Option<SpecRes> {
    if i32::MIN <= x <= i32::MAX {
        Some(Ok(SpecPrim::I32(x as i32, info)))
    } else {
        None
    }
}

/// A boolean result.
pub open spec fn bool_result(b: bool, info: SpecInfo) -> Option<SpecRes> {
    Some(Ok(SpecPrim::Bool(b, info)))
}

/// A text result.
pub open spec fn str_result(s: Seq<char>, info: SpecInfo) -> Option<SpecRes> {
    Some(Ok(SpecPrim::Str(s, info)))
}

/// The failure for operands of the wrong types.
pub open spec fn mismatch2(op: Seq<char>, l: SpecPrim, r: SpecPrim, info: SpecInfo) -> Option<SpecRes> {
    Some(Err(SpecError::TypeMismatch2(op, l, r, info)))
}

/// What the prefix operator `op` gives for the value `v`; `None` where the
/// interpreter panics (negating `i32::MIN`).
pub open spec fn unop_spec(op: Seq<char>, v: SpecPrim, info: SpecInfo) -> Option<SpecRes> {
    if op == "!"@ {
        match v {
            SpecPrim::Bool(n, _) => bool_result(!n, info),
            _ => Some(Err(SpecError::TypeMismatch("!"@, v, info))),
        }
    } else if op == "+"@ {
        match v {
            SpecPrim::I32(n, _) => i32_result(n as int, info),
            _ => Some(Err(SpecError::TypeMismatch("+"@, v, info))),
        }
    } else if op == "-"@ {
        match v {
            SpecPrim::I32(n, _) => i32_result(-n, info),
            _ => Some(Err(SpecError::TypeMismatch("-"@, v, info))),
        }
    } else {
        Some(Err(SpecError::UnknownPrefixOperator(op, info)))
    }
}

/// Whether the comparison `op` holds between `x` and `y` in a total order
/// where `less` is the strict order.
pub open spec fn compare(op: Seq<char>, less_xy: bool, less_yx: bool, same: bool) -> bool {
    if op == "=="@ {
        same
    } else if op == "!="@ {
        !same
    } else if op == ">"@ {
        less_yx
    } else if op == "<"@ {
        less_xy
    } else if op == ">="@ {
        !less_xy
    } else {
        !less_yx
    }
}

/// Whether `op` is one of the comparison operators.
pub open spec fn is_comparison(op: Seq<char>) -> bool {
    op == "=="@ || op == "!="@ || op == ">"@ || op == "<"@ || op == ">="@ || op == "<="@
}

/// What the infix operator `op` gives for the values `l` and `r`; `None`
/// where the interpreter panics (overflow, division by zero).
pub open spec fn binop_spec(op: Seq<char>, l: SpecPrim, r: SpecPrim, info: SpecInfo) -> Option<SpecRes> {
    if op == ";"@ {
        Some(Ok(r))
    } else if op == "+"@ {
        match (l, r) {
            (SpecPrim::Bool(a, _), SpecPrim::Bool(b, _)) => i32_result(bit(a) + bit(b), info),
            (SpecPrim::Bool(a, _), SpecPrim::I32(b, _)) => i32_result(bit(a) + b, info),
            (SpecPrim::Bool(a, _), SpecPrim::Str(b, _)) => str_result(bool_text(a) + b, info),
            (SpecPrim::I32(a, _), SpecPrim::Bool(b, _)) => i32_result(a + bit(b), info),
            (SpecPrim::I32(a, _), SpecPrim::I32(b, _)) => i32_result(a + b, info),
            (SpecPrim::I32(a, _), SpecPrim::Str(b, _)) => str_result(decimal(a as int) + b, info),
            (SpecPrim::Str(a, _), SpecPrim::Bool(b, _)) => str_result(a + bool_text(b), info),
            (SpecPrim::Str(a, _), SpecPrim::I32(b, _)) => str_result(a + decimal(b as int), info),
            (SpecPrim::Str(a, _), SpecPrim::Str(b, _)) => str_result(a + b, info),
            _ => mismatch2(op, l, r, info),
        }
    } else if is_comparison(op) {
        match (l, r) {
            (SpecPrim::Bool(a, _), SpecPrim::Bool(b, _)) => bool_result(
                compare(op, !a && b, a && !b, a == b),
                info,
            ),
            (SpecPrim::I32(a, _), SpecPrim::I32(b, _)) => bool_result(
                compare(op, a < b, b < a, a == b),
                info,
            ),
            (SpecPrim::Str(a, _), SpecPrim::Str(b, _)) => bool_result(
                compare(op, text_less(a, b), text_less(b, a), a == b),
                info,
            ),
            _ => mismatch2(op, l, r, info),
        }
    } else if op == "-"@ {
        match (l, r) {
            (SpecPrim::I32(a, _), SpecPrim::Bool(b, _)) => i32_result(a - bit(b), info),
            (SpecPrim::I32(a, _), SpecPrim::I32(b, _)) => i32_result(a - b, info),
            _ => mismatch2(op, l, r, info),
        }
    } else if op == "*"@ {
        match (l, r) {
            (SpecPrim::Bool(a, _), SpecPrim::I32(b, _)) => i32_result(if a { b as int } else { 0 }, info),
            (SpecPrim::Bool(a, _), SpecPrim::Str(b, _)) => str_result(if a { b } else { seq![] }, info),
            (SpecPrim::I32(a, _), SpecPrim::Bool(b, _)) => i32_result(if b { a as int } else { 0 }, info),
            (SpecPrim::I32(a, _), SpecPrim::I32(b, _)) => i32_result(a * b, info),
            (SpecPrim::Str(a, _), SpecPrim::Bool(b, _)) => str_result(if b { a } else { seq![] }, info),
            _ => mismatch2(op, l, r, info),
        }
    } else if op == "/"@ || op == "%"@ {
        match (l, r) {
            (SpecPrim::I32(a, _), SpecPrim::I32(b, _)) => if b == 0 || (a == i32::MIN && b == -1) {
                None
            } else if op == "/"@ {
                i32_result(div_trunc(a as int, b as int), info)
            } else {
                i32_result(rem_trunc(a as int, b as int), info)
            },
            _ => mismatch2(op, l, r, info),
        }
    } else if op == "&&"@ || op == "||"@ {
        match (l, r) {
            (SpecPrim::Bool(a, _), SpecPrim::Bool(b, _)) => bool_result(
                if op == "&&"@ { a && b } else { a || b },
                info,
            ),
            _ => mismatch2(op, l, r, info),
        }
    } else if op == "^"@ {
        match (l, r) {
            (SpecPrim::I32(a, _), SpecPrim::Bool(b, _)) => i32_result(if b { a as int } else { 1 }, info),
            (SpecPrim::I32(a, _), SpecPrim::I32(b, _)) => i32_result(int_pow(a as int, as_u32(b)), info),
            _ => mismatch2(op, l, r, info),
        }
    } else {
        Some(Err(SpecError::UnknownInfixOperator(op, info)))
    }
}

/// Evaluates `e` in the stack `st` with at most `fuel` nested steps: the
/// result and the stack after. `None` where the fuel runs out or the
/// interpreter panics (an unbound name, overflow, division by zero).
pub open spec fn eval(fuel: nat, st: SpecStack, e: SpecNode) -> Option<(SpecRes, SpecStack)>
    decreases fuel,
{
    if fuel == 0 {
        None
    } else {
        let f = (fuel - 1) as nat;
        match e {
            SpecNode::Error(msg) => Some((Err(SpecError::FailedParse(msg, no_info())), st)),
            SpecNode::Sym(name, info) => if name == "true"@ {
                Some((Ok(SpecPrim::Bool(true, info)), st))
            } else if name == "false"@ {
                Some((Ok(SpecPrim::Bool(false, info)), st))
            } else {
                match stack_lookup(st, name) {
                    None => None,
                    Some(v) => match eval(f, st.push(seq![]), v) {
                        None => None,
                        Some((r, _)) => Some((r, st)),
                    },
                }
            },
            SpecNode::Prim(p) => Some((Ok(p), st)),
            SpecNode::Apply(inner, args) => match eval(f, st.push(bind_lets(seq![], args)), *inner) {
                None => None,
                Some((r, st2)) => Some(
                    (r, if st2.len() > 0 { st2.drop_last() } else { st2 }),
                ),
            },
            SpecNode::Let(l) => if st.len() == 0 {
                None
            } else {
                Some((Ok(SpecPrim::Unit(l.info)), st.update(st.len() - 1, bind_one(st.last(), l))))
            },
            SpecNode::UnOp(name, inner, info) => match eval(f, st, *inner) {
                None => None,
                Some((Err(x), st2)) => Some((Err(x), st2)),
                Some((Ok(v), st2)) => match unop_spec(name, v, info) {
                    None => None,
                    Some(r) => Some((r, st2)),
                },
            },
            SpecNode::BinOp(name, left, right, info) => match eval(f, st, *left) {
                None => None,
                Some((Err(x), st2)) => Some((Err(x), st2)),
                Some((Ok(lv), st2)) => match eval(f, st2, *right) {
                    None => None,
                    Some((Err(x), st3)) => Some((Err(x), st3)),
                    Some((Ok(rv), st3)) => match binop_spec(name, lv, rv, info) {
                        None => None,
                        Some(r) => Some((r, st3)),
                    },
                },
            },
        }
    }
}

/// Whether evaluating `e` in `st` ends, without a panic, given enough fuel.
pub open spec fn evaluates(st: SpecStack, e: SpecNode) -> bool {
    exists|fuel: nat| #[trigger] eval(fuel, st, e) is Some
}

/// Fuel with which evaluating `e` in `st` ends, where some does.
pub open spec fn fuel_for(st: SpecStack, e: SpecNode) -> nat {
    choose|fuel: nat| #[trigger] eval(fuel, st, e) is Some
}

/// The result of evaluating `e` in `st` and the stack after.
pub open spec fn evaluation(st: SpecStack, e: SpecNode) -> (SpecRes, SpecStack) {
    eval(fuel_for(st, e), st, e).unwrap()
}

/// The stack that evaluation of a whole tree starts from: one empty frame.
pub open spec fn root_stack() -> SpecStack {
    seq![seq![]]
}


proof fn lemma_eval_fuel(f: nat, g: nat, st: SpecStack, e: SpecNode)
    requires
        f <= g,
        eval(f, st, e) is Some,
    ensures
        eval(g, st, e) == eval(f, st, e),
    decreases f,
{
    let f1 = (f - 1) as nat;
    let g1 = (g - 1) as nat;
    match e {
        SpecNode::Sym(name, _) => {
            if name != "true"@ && name != "false"@ {
                if let Some(v) = stack_lookup(st, name) {
                    lemma_eval_fuel(f1, g1, st.push(seq![]), v);
                }
            }
        },
        SpecNode::Apply(inner, args) => {
            lemma_eval_fuel(f1, g1, st.push(bind_lets(seq![], args)), *inner);
        },
        SpecNode::UnOp(_, inner, _) => {
            lemma_eval_fuel(f1, g1, st, *inner);
        },
        SpecNode::BinOp(_, left, right, _) => {
            lemma_eval_fuel(f1, g1, st, *left);
            if let Some((Ok(_), st2)) = eval(f1, st, *left) {
                lemma_eval_fuel(f1, g1, st2, *right);
            }
        },
        _ => {},
    }
}

/// Evaluation does not depend on the fuel: any fuel with which it ends
/// gives the same result and stack as [`evaluation`].
pub proof fn law_fuel_irrelevant(fuel: nat, st: SpecStack, e: SpecNode)
    requires
        eval(fuel, st, e) is Some,
    ensures
        evaluates(st, e),
        evaluation(st, e) == eval(fuel, st, e).unwrap(),
{
    let c = fuel_for(st, e);
    assert(eval(c, st, e) is Some);
    if c <= fuel {
        lemma_eval_fuel(c, fuel, st, e);
    } else {
        lemma_eval_fuel(fuel, c, st, e);
    }
}

/// Evaluation changes at most the innermost frame of the stack: the stack
/// after has as many frames, and the frames below the innermost one are the
/// same.
pub proof fn law_outer_frames_kept(fuel: nat, st: SpecStack, e: SpecNode)
    requires
        eval(fuel, st, e) is Some,
    ensures
        eval(fuel, st, e).unwrap().1.len() == st.len(),
        st.len() > 0 ==> eval(fuel, st, e).unwrap().1.drop_last() == st.drop_last(),
    decreases fuel,
{
    let f1 = (fuel - 1) as nat;
    match e {
        SpecNode::Apply(inner, args) => {
            let st1 = st.push(bind_lets(seq![], args));
            law_outer_frames_kept(f1, st1, *inner);
            assert(st1.drop_last() =~= st);
        },
        SpecNode::Let(l) => {
            let st2 = st.update(st.len() - 1, bind_one(st.last(), l));
            assert(st2.drop_last() =~= st.drop_last());
        },
        SpecNode::UnOp(_, inner, _) => {
            law_outer_frames_kept(f1, st, *inner);
        },
        SpecNode::BinOp(_, left, right, _) => {
            law_outer_frames_kept(f1, st, *left);
            if let Some((Ok(_), st2)) = eval(f1, st, *left) {
                law_outer_frames_kept(f1, st2, *right);
            }
        },
        _ => {},
    }
}

/// An application leaves the stack as it found it: its frame is dropped.
pub proof fn law_apply_restores_stack(fuel: nat, st: SpecStack, inner: SpecNode, args: Seq<SpecLet>)
    requires
        eval(fuel, st, SpecNode::Apply(Box::new(inner), args)) is Some,
    ensures
        eval(fuel, st, SpecNode::Apply(Box::new(inner), args)).unwrap().1 == st,
{
    let st1 = st.push(bind_lets(seq![], args));
    law_outer_frames_kept((fuel - 1) as nat, st1, inner);
    assert(st1.drop_last() =~= st);
}

/// A primitive evaluates to itself and leaves the stack unchanged.
pub proof fn law_prim_evaluates_to_itself(st: SpecStack, p: SpecPrim)
    ensures
        evaluates(st, SpecNode::Prim(p)),
        evaluation(st, SpecNode::Prim(p)) == (Ok::<SpecPrim, SpecError>(p), st),
{
    law_fuel_irrelevant(1, st, SpecNode::Prim(p));
}

/// `name = v; name`: defining a name and then using it.
pub open spec fn define_then_use(name: Seq<char>, v: SpecNode, info: SpecInfo) -> SpecNode {
    SpecNode::BinOp(
        ";"@,
        Box::new(SpecNode::Let(SpecLet { name, value: Some(Box::new(v)), info })),
        Box::new(SpecNode::Sym(name, info)),
        info,
    )
}

/// The stack `st` with `name` defined as `v` in its innermost frame.
pub open spec fn define_in(st: SpecStack, name: Seq<char>, v: SpecNode) -> SpecStack {
    st.update(st.len() - 1, st.last().push((name, v)))
}

/// Using a name right after defining it evaluates its defining node, in
/// the state after the definition with a new frame; the definition stays in
/// the innermost frame.
pub proof fn law_define_then_use(st: SpecStack, name: Seq<char>, v: SpecNode, info: SpecInfo)
    requires
        st.len() > 0,
        name != "true"@,
        name != "false"@,
    ensures
        evaluates(st, define_then_use(name, v, info)) == evaluates(
            define_in(st, name, v).push(seq![]),
            v,
        ),
        evaluates(define_in(st, name, v).push(seq![]), v) ==> evaluation(
            st,
            define_then_use(name, v, info),
        ) == (evaluation(define_in(st, name, v).push(seq![]), v).0, define_in(st, name, v)),
{
    let e = define_then_use(name, v, info);
    let bound = define_in(st, name, v);
    let inner = bound.push(seq![]);
    let l = SpecLet { name, value: Some(Box::new(v)), info };
    assert(bind_one(st.last(), l) == st.last().push((name, v)));
    assert(bound.last() == st.last().push((name, v)));
    assert(frame_lookup(bound.last(), name) == Some(v));
    assert(stack_lookup(bound, name) == Some(v));
    assert(binop_spec(";"@, SpecPrim::Unit(info), SpecPrim::Unit(info), info) is Some);
    if evaluates(st, e) {
        let f = fuel_for(st, e);
        assert(eval(f, st, e) is Some);
        assert(eval((f - 1) as nat, st, SpecNode::Let(l)) == Some(
            (Ok::<SpecPrim, SpecError>(SpecPrim::Unit(info)), bound),
        ));
        let g = (f - 2) as nat;
        assert(eval((f - 1) as nat, bound, SpecNode::Sym(name, info)) is Some);
        assert(eval(g, inner, v) is Some);
        law_fuel_irrelevant(g, inner, v);
    }
    if evaluates(inner, v) {
        let g = fuel_for(inner, v);
        assert(eval(g, inner, v) is Some);
        let f = g + 2;
        assert(eval((f - 1) as nat, st, SpecNode::Let(l)) == Some(
            (Ok::<SpecPrim, SpecError>(SpecPrim::Unit(info)), bound),
        ));
        assert(eval((f - 1) as nat, bound, SpecNode::Sym(name, info)) == Some(
            (eval(g, inner, v).unwrap().0, bound),
        ));
        reveal_strlit(";");
        assert(eval(f, st, e) == Some((eval(g, inner, v).unwrap().0, bound)));
        law_fuel_irrelevant(f, st, e);
        law_fuel_irrelevant(g, inner, v);
    }
}

/// Whether two values are of the same kind: both booleans, both integers
/// or both texts.
pub open spec fn same_kind(l: SpecPrim, r: SpecPrim) -> bool {
    (l is Bool && r is Bool) || (l is I32 && r is I32) || (l is Str && r is Str)
}

/// Whether an operator result is the boolean `true`.
pub open spec fn holds(o: Option<SpecRes>) -> bool {
    o matches Some(Ok(SpecPrim::Bool(b, _))) && b
}

/// Whether an operator result is a boolean carrying `info`.
pub open spec fn is_bool_result(o: Option<SpecRes>, info: SpecInfo) -> bool {
    o matches Some(Ok(SpecPrim::Bool(_, i))) && i == info
}

proof fn lemma_comparison_ops()
    ensures
        ";"@ == seq![';'],
        "+"@ == seq!['+'],
        "=="@ == seq!['=', '='],
        "!="@ == seq!['!', '='],
        "<"@ == seq!['<'],
        ">"@ == seq!['>'],
        "<="@ == seq!['<', '='],
        ">="@ == seq!['>', '='],
        "<"@ != ";"@,
        "<"@ != "+"@,
        ">"@ != ";"@,
        ">"@ != "+"@,
        ">"@ != "<"@,
        "<="@ != "=="@,
        "<="@ != "!="@,
        "<="@ != ">="@,
        ">="@ != "=="@,
        ">="@ != "!="@,
        "!="@ != "=="@,
        "<="@ != ">"@,
        "<="@ != "<"@,
        ">="@ != ">"@,
        ">="@ != "<"@,
        "=="@ != ">"@,
        "=="@ != "<"@,
        "!="@ != ">"@,
        "!="@ != "<"@,
{
    reveal_strlit(";");
    reveal_strlit("+");
    reveal_strlit("==");
    reveal_strlit("!=");
    reveal_strlit("<");
    reveal_strlit(">");
    reveal_strlit("<=");
    reveal_strlit(">=");
    assert(";"@ =~= seq![';']);
    assert("+"@ =~= seq!['+']);
    assert("=="@ =~= seq!['=', '=']);
    assert("!="@ =~= seq!['!', '=']);
    assert("<"@ =~= seq!['<']);
    assert(">"@ =~= seq!['>']);
    assert("<="@ =~= seq!['<', '=']);
    assert(">="@ =~= seq!['>', '=']);
    assert("<"@[0] != ";"@[0] && "<"@[0] != "+"@[0]);
    assert(">"@[0] != ";"@[0] && ">"@[0] != "+"@[0] && ">"@[0] != "<"@[0]);
    assert("<="@[0] != "=="@[0] && "<="@[0] != "!="@[0] && "<="@[0] != ">="@[0]);
    assert(">="@[0] != "=="@[0] && ">="@[0] != "!="@[0] && "!="@[0] != "=="@[0]);
    assert("<="@.len() == 2 && ">="@.len() == 2 && "=="@.len() == 2 && "!="@.len() == 2);
    assert("<"@.len() == 1 && ">"@.len() == 1);
}

/// The comparison operators agree with one another on two values of the
/// same kind: `!=` is the negation of `==`, `>` is `<` with its operands
/// swapped, `<=` and `>=` are `<` or `==` and `>` or `==`, `==` is
/// symmetric, and exactly one of `<`, `==` and `>` holds.
pub proof fn law_comparisons(l: SpecPrim, r: SpecPrim, info: SpecInfo)
    requires
        same_kind(l, r),
    ensures
        is_bool_result(binop_spec("=="@, l, r, info), info),
        is_bool_result(binop_spec("!="@, l, r, info), info),
        is_bool_result(binop_spec("<"@, l, r, info), info),
        is_bool_result(binop_spec(">"@, l, r, info), info),
        is_bool_result(binop_spec("<="@, l, r, info), info),
        is_bool_result(binop_spec(">="@, l, r, info), info),
        holds(binop_spec("!="@, l, r, info)) == !holds(binop_spec("=="@, l, r, info)),
        holds(binop_spec(">"@, l, r, info)) == holds(binop_spec("<"@, r, l, info)),
        holds(binop_spec("<="@, l, r, info)) == (holds(binop_spec("<"@, l, r, info)) || holds(
            binop_spec("=="@, l, r, info),
        )),
        holds(binop_spec(">="@, l, r, info)) == (holds(binop_spec(">"@, l, r, info)) || holds(
            binop_spec("=="@, l, r, info),
        )),
        holds(binop_spec("=="@, l, r, info)) == holds(binop_spec("=="@, r, l, info)),
        holds(binop_spec("<"@, l, r, info)) || holds(binop_spec("=="@, l, r, info)) || holds(
            binop_spec(">"@, l, r, info),
        ),
        holds(binop_spec("<"@, l, r, info)) ==> !holds(binop_spec("=="@, l, r, info)) && !holds(
            binop_spec(">"@, l, r, info),
        ),
{
    lemma_comparison_ops();
    match (l, r) {
        (SpecPrim::Str(a, _), SpecPrim::Str(b, _)) => {
            crate::text::law_text_order(a, b);
            crate::text::law_text_order(b, a);
        },
        _ => {},
    }
}

/// Integer comparisons follow the order of the integers, and boolean
/// comparisons the order in which `false` comes before `true`.
pub proof fn law_comparisons_follow_order(
    a: i32,
    b: i32,
    x: bool,
    y: bool,
    ia: SpecInfo,
    ib: SpecInfo,
    info: SpecInfo,
)
    ensures
        binop_spec("<"@, SpecPrim::I32(a, ia), SpecPrim::I32(b, ib), info) == bool_result(a < b, info),
        binop_spec(">"@, SpecPrim::I32(a, ia), SpecPrim::I32(b, ib), info) == bool_result(a > b, info),
        binop_spec("<="@, SpecPrim::I32(a, ia), SpecPrim::I32(b, ib), info) == bool_result(a <= b, info),
        binop_spec(">="@, SpecPrim::I32(a, ia), SpecPrim::I32(b, ib), info) == bool_result(a >= b, info),
        binop_spec("=="@, SpecPrim::I32(a, ia), SpecPrim::I32(b, ib), info) == bool_result(a == b, info),
        binop_spec("!="@, SpecPrim::I32(a, ia), SpecPrim::I32(b, ib), info) == bool_result(a != b, info),
        binop_spec("<"@, SpecPrim::Bool(x, ia), SpecPrim::Bool(y, ib), info) == bool_result(
            bit(x) < bit(y),
            info,
        ),
        binop_spec(">"@, SpecPrim::Bool(x, ia), SpecPrim::Bool(y, ib), info) == bool_result(
            bit(x) > bit(y),
            info,
        ),
        binop_spec("<="@, SpecPrim::Bool(x, ia), SpecPrim::Bool(y, ib), info) == bool_result(
            bit(x) <= bit(y),
            info,
        ),
        binop_spec(">="@, SpecPrim::Bool(x, ia), SpecPrim::Bool(y, ib), info) == bool_result(
            bit(x) >= bit(y),
            info,
        ),
        binop_spec("=="@, SpecPrim::Bool(x, ia), SpecPrim::Bool(y, ib), info) == bool_result(
            x == y,
            info,
        ),
{
    lemma_comparison_ops();
}

/// Text comparisons follow lexicographic order (see
/// [`crate::text::law_text_less_decided`]): `<` holds where the left text
/// comes first, `>` where the right one does, `==` where they are the same.
pub proof fn law_text_comparisons(s: Seq<char>, t: Seq<char>, ia: SpecInfo, ib: SpecInfo, info: SpecInfo)
    ensures
        binop_spec("<"@, SpecPrim::Str(s, ia), SpecPrim::Str(t, ib), info) == bool_result(
            text_less(s, t),
            info,
        ),
        binop_spec(">"@, SpecPrim::Str(s, ia), SpecPrim::Str(t, ib), info) == bool_result(
            text_less(t, s),
            info,
        ),
        binop_spec("<="@, SpecPrim::Str(s, ia), SpecPrim::Str(t, ib), info) == bool_result(
            !text_less(t, s),
            info,
        ),
        binop_spec(">="@, SpecPrim::Str(s, ia), SpecPrim::Str(t, ib), info) == bool_result(
            !text_less(s, t),
            info,
        ),
        binop_spec("=="@, SpecPrim::Str(s, ia), SpecPrim::Str(t, ib), info) == bool_result(
            s == t,
            info,
        ),
{
    lemma_comparison_ops();
}

/// The other infix operators on values of the right kinds: `;` gives its
/// right operand, `-`, `*` and `^` are integer difference, product and
/// power, and `&&` and `||` are conjunction and disjunction.
pub proof fn law_infix_operators(l: SpecPrim, r: SpecPrim, a: i32, b: i32, x: bool, y: bool, info: SpecInfo)
    ensures
        binop_spec(";"@, l, r, info) == Some(Ok::<SpecPrim, SpecError>(r)),
        binop_spec("-"@, SpecPrim::I32(a, info), SpecPrim::I32(b, info), info) == i32_result(a - b, info),
        binop_spec("*"@, SpecPrim::I32(a, info), SpecPrim::I32(b, info), info) == i32_result(a * b, info),
        b >= 0 ==> binop_spec("^"@, SpecPrim::I32(a, info), SpecPrim::I32(b, info), info)
            == i32_result(int_pow(a as int, b as nat), info),
        binop_spec("&&"@, SpecPrim::Bool(x, info), SpecPrim::Bool(y, info), info) == bool_result(
            x && y,
            info,
        ),
        binop_spec("||"@, SpecPrim::Bool(x, info), SpecPrim::Bool(y, info), info) == bool_result(
            x || y,
            info,
        ),
{
    reveal_strlit(";");
    reveal_strlit("+");
    reveal_strlit("-");
    reveal_strlit("*");
    reveal_strlit("/");
    reveal_strlit("%");
    reveal_strlit("^");
    reveal_strlit("&&");
    reveal_strlit("||");
    lemma_comparison_ops();
    assert(";"@[0] == ';' && "+"@[0] == '+' && "-"@[0] == '-' && "*"@[0] == '*' && "/"@[0] == '/');
    assert("%"@[0] == '%' && "^"@[0] == '^' && "&&"@[0] == '&' && "||"@[0] == '|');
    assert("<"@[0] == '<' && ">"@[0] == '>' && "=="@[0] == '=' && "!="@[0] == '!');
    assert("<="@[0] == '<' && ">="@[0] == '>');
    assert("&&"@.len() == 2 && "||"@.len() == 2 && "^"@.len() == 1 && "-"@.len() == 1);
    assert("*"@.len() == 1 && ";"@.len() == 1 && "+"@.len() == 1);
    assert("<"@.len() == 1 && ">"@.len() == 1);
}

/// The text that `+` writes for a value: a text as it is, a number in
/// decimal, a boolean as `true` or `false`.
pub open spec fn shown(p: SpecPrim) -> Seq<char> {
    match p {
        SpecPrim::Str(s, _) => s,
        SpecPrim::I32(n, _) => decimal(n as int),
        SpecPrim::Bool(b, _) => bool_text(b),
        SpecPrim::Unit(_) => seq![],
    }
}

/// The number that `+` adds for a value: a number itself, a boolean `0` or `1`.
pub open spec fn amount(p: SpecPrim) -> int {
    match p {
        SpecPrim::I32(n, _) => n as int,
        SpecPrim::Bool(b, _) => bit(b),
        _ => 0,
    }
}

/// `+` with a text operand joins the texts of its operands, the left
/// operand's first; `+` on numbers and booleans adds their values. So the
/// text of the left operand always begins the result of a join.
pub proof fn law_plus(l: SpecPrim, r: SpecPrim, info: SpecInfo)
    requires
        !(l is Unit),
        !(r is Unit),
    ensures
        (l is Str || r is Str) ==> binop_spec("+"@, l, r, info) == str_result(
            shown(l) + shown(r),
            info,
        ),
        (l is Str || r is Str) ==> (binop_spec("+"@, l, r, info) matches Some(
            Ok(SpecPrim::Str(t, _)),
        ) && t.subrange(0, shown(l).len() as int) == shown(l)),
        !(l is Str || r is Str) ==> binop_spec("+"@, l, r, info) == i32_result(
            amount(l) + amount(r),
            info,
        ),
{
    lemma_arith_ops();
    if l is Str || r is Str {
        let j = shown(l) + shown(r);
        assert(j.subrange(0, shown(l).len() as int) =~= shown(l));
    }
}

proof fn lemma_arith_ops()
    ensures
        "/"@ != ";"@ && "/"@ != "+"@ && "/"@ != "-"@ && "/"@ != "*"@ && !is_comparison("/"@),
        "%"@ != ";"@ && "%"@ != "+"@ && "%"@ != "-"@ && "%"@ != "*"@ && !is_comparison("%"@),
        "%"@ != "/"@,
        "+"@ != "!"@ && "-"@ != "!"@ && "-"@ != "+"@ && "+"@ != ";"@,
{
    reveal_strlit(";");
    reveal_strlit("+");
    reveal_strlit("-");
    reveal_strlit("*");
    reveal_strlit("/");
    reveal_strlit("%");
    reveal_strlit("!");
    lemma_comparison_ops();
    assert("/"@[0] == '/' && "%"@[0] == '%' && "-"@[0] == '-' && "*"@[0] == '*' && "!"@[0] == '!');
    assert(";"@[0] == ';' && "+"@[0] == '+' && "<"@[0] == '<' && ">"@[0] == '>');
    assert("/"@.len() == 1 && "%"@.len() == 1);
}

/// Integer division rounds toward zero and `%` is what it leaves: for `q`
/// from `/` and `r` from `%`, `a == b * q + r`, with `r` smaller in
/// magnitude than `b` and zero or of the sign of `a`.
pub proof fn law_division(a: i32, b: i32, ia: SpecInfo, ib: SpecInfo, info: SpecInfo)
    requires
        b != 0,
        !(a == i32::MIN && b == -1),
    ensures
        binop_spec("/"@, SpecPrim::I32(a, ia), SpecPrim::I32(b, ib), info) matches Some(
            Ok(SpecPrim::I32(q, qi)),
        ) && binop_spec("%"@, SpecPrim::I32(a, ia), SpecPrim::I32(b, ib), info) matches Some(
            Ok(SpecPrim::I32(r, ri)),
        ) && qi == info && ri == info && a == b * q + r && magnitude(r as int) < magnitude(b as int)
            && (r == 0 || (r < 0) == (a < 0)),
{
    lemma_arith_ops();
    law_div_trunc(a as int, b as int);
    lemma_i32_division_fits(a, b);
}

/// `!` turns a boolean into the other one; prefix `+` keeps a number and
/// prefix `-` gives the number that adds to it to make zero.
pub proof fn law_prefix_operators(v: SpecPrim, info: SpecInfo)
    ensures
        v matches SpecPrim::Bool(n, _) ==> (unop_spec("!"@, v, info) matches Some(
            Ok(SpecPrim::Bool(m, i)),
        ) && m != n && i == info),
        v matches SpecPrim::I32(n, _) ==> unop_spec("+"@, v, info) == Some(
            Ok::<SpecPrim, SpecError>(SpecPrim::I32(n, info)),
        ),
        v matches SpecPrim::I32(n, _) ==> (n != i32::MIN ==> (unop_spec("-"@, v, info) matches Some(
            Ok(SpecPrim::I32(m, i)),
        ) && m + n == 0 && i == info)),
{
    lemma_arith_ops();
}

/// A frame of definitions.
pub struct Frame {
    entries: Vec<(String, Node)>,
}

impl View for Frame {
    type V = SpecFrame;

    closed spec fn view(&self) -> SpecFrame {
        self.entries@.map_values(|p: (String, Node)| (p.0@, p.1@))
    }
}

impl Frame {
    /// An empty frame.
    pub fn new() -> (f: Frame)
        ensures
            f@ == Seq::<(Seq<char>, SpecNode)>::empty(),
    {
        let f = Frame { entries: Vec::new() };
        assert(f@ =~= Seq::<(Seq<char>, SpecNode)>::empty());
        f
    }

    /// Defines `name` as `value`, hiding any earlier definition of it.
    pub fn insert(&mut self, name: String, value: Node)
        ensures
            final(self)@ == old(self)@.push((name@, value@)),
    {
        self.entries.push((name, value));
        assert(self@ =~= old(self)@.push((name@, value@)));
    }

    /// The node that defines `name` here.
    pub fn get(&self, name: &String) -> (r: Option<&Node>)
        ensures
            r is None ==> frame_lookup(self@, name@) is None,
            r matches Some(v) ==> frame_lookup(self@, name@) == Some(v@),
    {
        let mut i = self.entries.len();
        assert(self@.take(i as int) =~= self@);
        while i > 0
            invariant
                i <= self.entries@.len(),
                self@.len() == self.entries@.len(),
                frame_lookup(self@, name@) == frame_lookup(self@.take(i as int), name@),
            decreases i,
        {
            let ghost t = self@.take(i as int);
            assert(t.drop_last() =~= self@.take(i - 1));
            assert(t.last() == self@[i - 1]);
            if same_text(self.entries[i - 1].0.as_str(), name.as_str()) {
                return Some(&self.entries[i - 1].1);
            }
            i = i - 1;
        }
        assert(self@.take(0) =~= Seq::<(Seq<char>, SpecNode)>::empty());
        None
    }

    /// A copy of this frame.
    pub fn copy(&self) -> (r: Frame)
        ensures
            r@ == self@,
    {
        let mut entries: Vec<(String, Node)> = Vec::new();
        let mut i: usize = 0;
        while i < self.entries.len()
            invariant
                i <= self.entries@.len(),
                entries@.len() == i,
                forall|j: int|
                    0 <= j < i ==> (#[trigger] entries@[j]).0@ == self.entries@[j].0@
                        && entries@[j].1@ == self.entries@[j].1@,
            decreases self.entries@.len() - i,
        {
            let name = self.entries[i].0.clone();
            let value = self.entries[i].1.clone();
            entries.push((name, value));
            i = i + 1;
        }
        let r = Frame { entries };
        assert(r@ =~= self@);
        r
    }
}

/// The model of a stack of frames.
pub open spec fn stack_view(st: Seq<Frame>) -> SpecStack {
    st.map_values(|f: Frame| f@)
}

/// A copy of a stack of frames.
fn copy_stack(state: &Vec<Frame>) -> (r: Vec<Frame>)
    ensures
        stack_view(r@) == stack_view(state@),
{
    let mut r: Vec<Frame> = Vec::new();
    let mut i: usize = 0;
    while i < state.len()
        invariant
            i <= state@.len(),
            r@.len() == i,
            forall|j: int| 0 <= j < i ==> (#[trigger] r@[j])@ == state@[j]@,
        decreases state@.len() - i,
    {
        r.push(state[i].copy());
        i = i + 1;
    }
    assert(stack_view(r@) =~= stack_view(state@));
    r
}

/// Whether the text `v` is `lit`.
fn is(v: &String, lit: &str) -> (r: bool)
    ensures
        r == (v@ == lit@),
{
    same_text(v.as_str(), lit)
}

/// Walks the syntax tree, evaluating it.
pub struct Interpreter {}

impl Default for Interpreter {
    fn default() -> (r: Interpreter)
        ensures
            r == (Interpreter {}),
    {
        Interpreter {}
    }
}


/// An `i32` result; the value must fit.
fn int_result(x: i64, info: Info) -> (r: Result<Prim, InterpreterError>)
    requires
        i32_result(x as int, info@) is Some,
    ensures
        Some(res_view(r)) == i32_result(x as int, info@),
{
    Ok(Prim::I32(x as i32, info))
}

/// `0` or `1` for a boolean.
fn bit_of(b: bool) -> (r: i64)
    ensures
        r == bit(b),
{
    if b { 1 } else { 0 }
}

/// A text result.
fn text_result(s: String, info: Info) -> (r: Result<Prim, InterpreterError>)
    ensures
        Some(res_view(r)) == str_result(s@, info@),
{
    Ok(Prim::Str(s, info))
}

/// Whether the comparison `op` holds; see [`compare`].
fn compare_with(op: &String, less_xy: bool, less_yx: bool, same: bool) -> (r: bool)
    ensures
        r == compare(op@, less_xy, less_yx, same),
{
    if is(op, "==") {
        same
    } else if is(op, "!=") {
        !same
    } else if is(op, ">") {
        less_yx
    } else if is(op, "<") {
        less_xy
    } else if is(op, ">=") {
        !less_xy
    } else {
        !less_yx
    }
}

/// Applies the prefix operator `name` to `v`; see [`unop_spec`].
fn apply_un_op(name: &String, v: Prim, info: Info) -> (r: Result<Prim, InterpreterError>)
    requires
        unop_spec(name@, v@, info@) is Some,
    ensures
        Some(res_view(r)) == unop_spec(name@, v@, info@),
{
    if is(name, "!") {
        match v {
            Prim::Bool(n, _) => Ok(Prim::Bool(!n, info)),
            _ => Err(InterpreterError::TypeMismatch(String::from_str("!"), v, info)),
        }
    } else if is(name, "+") {
        match v {
            Prim::I32(n, _) => Ok(Prim::I32(n, info)),
            _ => Err(InterpreterError::TypeMismatch(String::from_str("+"), v, info)),
        }
    } else if is(name, "-") {
        match v {
            Prim::I32(n, _) => int_result(-(n as i64), info),
            _ => Err(InterpreterError::TypeMismatch(String::from_str("-"), v, info)),
        }
    } else {
        Err(InterpreterError::UnknownPrefixOperator(name.clone(), info))
    }
}

/// The failure for operands of the wrong types.
fn mismatch(name: &String, l: &Prim, r: &Prim, info: Info) -> (res: Result<Prim, InterpreterError>)
    ensures
        Some(res_view(res)) == mismatch2(name@, l@, r@, info@),
{
    Err(InterpreterError::TypeMismatch2(name.clone(), l.clone(), r.clone(), info))
}

/// Applies the infix operator `name` to `l` and `r`; see [`binop_spec`].
fn apply_bin_op(name: &String, l: Prim, r: Prim, info: Info) -> (res: Result<Prim, InterpreterError>)
    requires
        binop_spec(name@, l@, r@, info@) is Some,
    ensures
        Some(res_view(res)) == binop_spec(name@, l@, r@, info@),
{
    if is(name, ";") {
        return Ok(r);
    }
    if is(name, "+") {
        return match (&l, &r) {
            (Prim::Bool(a, _), Prim::Bool(b, _)) => int_result(bit_of(*a) + bit_of(*b), info),
            (Prim::Bool(a, _), Prim::I32(b, _)) => int_result(bit_of(*a) + (*b as i64), info),
            (Prim::Bool(a, _), Prim::Str(b, _)) => text_result(
                concat_text(bool_to_text(*a).as_str(), b.as_str()),
                info,
            ),
            (Prim::I32(a, _), Prim::Bool(b, _)) => int_result((*a as i64) + bit_of(*b), info),
            (Prim::I32(a, _), Prim::I32(b, _)) => int_result((*a as i64) + (*b as i64), info),
            (Prim::I32(a, _), Prim::Str(b, _)) => text_result(
                concat_text(i32_text(*a).as_str(), b.as_str()),
                info,
            ),
            (Prim::Str(a, _), Prim::Bool(b, _)) => text_result(
                concat_text(a.as_str(), bool_to_text(*b).as_str()),
                info,
            ),
            (Prim::Str(a, _), Prim::I32(b, _)) => text_result(
                concat_text(a.as_str(), i32_text(*b).as_str()),
                info,
            ),
            (Prim::Str(a, _), Prim::Str(b, _)) => text_result(concat_text(a.as_str(), b.as_str()), info),
            _ => mismatch(name, &l, &r, info),
        };
    }
    if is(name, "==") || is(name, "!=") || is(name, ">") || is(name, "<") || is(name, ">=") || is(
        name,
        "<=",
    ) {
        return match (&l, &r) {
            (Prim::Bool(a, _), Prim::Bool(b, _)) => Ok(
                Prim::Bool(compare_with(name, !*a && *b, *a && !*b, *a == *b), info),
            ),
            (Prim::I32(a, _), Prim::I32(b, _)) => Ok(
                Prim::Bool(compare_with(name, *a < *b, *b < *a, *a == *b), info),
            ),
            (Prim::Str(a, _), Prim::Str(b, _)) => {
                let less_ab = text_is_less(a.as_str(), b.as_str());
                let less_ba = text_is_less(b.as_str(), a.as_str());
                let same = same_text(a.as_str(), b.as_str());
                Ok(Prim::Bool(compare_with(name, less_ab, less_ba, same), info))
            },
            _ => mismatch(name, &l, &r, info),
        };
    }
    if is(name, "-") {
        return match (&l, &r) {
            (Prim::I32(a, _), Prim::Bool(b, _)) => int_result((*a as i64) - bit_of(*b), info),
            (Prim::I32(a, _), Prim::I32(b, _)) => int_result((*a as i64) - (*b as i64), info),
            _ => mismatch(name, &l, &r, info),
        };
    }
    if is(name, "*") {
        return match (&l, &r) {
            (Prim::Bool(a, _), Prim::I32(b, _)) => int_result(if *a { *b as i64 } else { 0 }, info),
            (Prim::Bool(a, _), Prim::Str(b, _)) => {
                let t = if *a { b.clone() } else { String::new() };
                assert(t@ == (if *a { b@ } else { seq![] }));
                text_result(t, info)
            },
            (Prim::I32(a, _), Prim::Bool(b, _)) => int_result(if *b { *a as i64 } else { 0 }, info),
            (Prim::I32(a, _), Prim::I32(b, _)) => {
                assert(-4611686018427387904 <= (*a as int) * (*b as int) <= 4611686018427387904)
                    by (nonlinear_arith)
                    requires
                        -2147483648 <= *a <= 2147483647,
                        -2147483648 <= *b <= 2147483647,
                ;
                int_result((*a as i64) * (*b as i64), info)
            },
            (Prim::Str(a, _), Prim::Bool(b, _)) => {
                let t = if *b { a.clone() } else { String::new() };
                assert(t@ == (if *b { a@ } else { seq![] }));
                text_result(t, info)
            },
            _ => mismatch(name, &l, &r, info),
        };
    }
    if is(name, "/") || is(name, "%") {
        return match (&l, &r) {
            (Prim::I32(a, _), Prim::I32(b, _)) => {
                if *b == 0 || (*a == i32::MIN && *b == -1) {
                    vstd::pervasive::unreached()
                } else if is(name, "/") {
                    Ok(Prim::I32(div_i32(*a, *b), info))
                } else {
                    Ok(Prim::I32(rem_i32(*a, *b), info))
                }
            },
            _ => mismatch(name, &l, &r, info),
        };
    }
    if is(name, "&&") || is(name, "||") {
        return match (&l, &r) {
            (Prim::Bool(a, _), Prim::Bool(b, _)) => Ok(
                Prim::Bool(if is(name, "&&") { *a && *b } else { *a || *b }, info),
            ),
            _ => mismatch(name, &l, &r, info),
        };
    }
    if is(name, "^") {
        return match (&l, &r) {
            (Prim::I32(a, _), Prim::Bool(b, _)) => int_result(if *b { *a as i64 } else { 1 }, info),
            (Prim::I32(a, _), Prim::I32(b, _)) => {
                let e: u32 = if *b >= 0 { *b as u32 } else { ((*b as i64) + 4294967296) as u32 };
                match pow_i32(*a, e) {
                    Some(v) => Ok(Prim::I32(v, info)),
                    None => vstd::pervasive::unreached(),
                }
            },
            _ => mismatch(name, &l, &r, info),
        };
    }
    Err(InterpreterError::UnknownInfixOperator(name.clone(), info))
}


proof fn lemma_lets_view_index(s: Seq<Let>)
    ensures
        crate::ast::lets_view(s).len() == s.len(),
        forall|j: int| 0 <= j < s.len() ==> #[trigger] crate::ast::lets_view(s)[j] == s[j]@,
    decreases s.len(),
{
    if s.len() > 0 {
        lemma_lets_view_index(s.drop_first());
        assert forall|j: int| 0 <= j < s.len() implies #[trigger] crate::ast::lets_view(s)[j]
            == s[j]@ by {
            if j > 0 {
                assert(crate::ast::lets_view(s)[j] == crate::ast::lets_view(s.drop_first())[j - 1]);
                assert(s.drop_first()[j - 1] == s[j]);
            }
        }
    }
}

proof fn lemma_bind_step(f: SpecFrame, args: Seq<SpecLet>, j: int)
    requires
        0 <= j < args.len(),
    ensures
        bind_lets(f, args.skip(j)) == bind_lets(bind_one(f, args[j]), args.skip(j + 1)),
{
    assert(args.skip(j).drop_first() =~= args.skip(j + 1));
    assert(args.skip(j)[0] == args[j]);
}

impl Interpreter {
    /// The failure for a node that the parser could not parse.
    fn eval_error(&self, msg: &String) -> (r: Result<Prim, InterpreterError>)
        ensures
            res_view(r) == Err::<SpecPrim, SpecError>(SpecError::FailedParse(msg@, no_info())),
    {
        Err(InterpreterError::FailedParse(msg.clone(), Info::default()))
    }

    /// Binds the definition `e` in the innermost frame.
    fn eval_let(&self, state: &mut Vec<Frame>, e: &Let) -> (r: Result<Prim, InterpreterError>)
        requires
            old(state)@.len() > 0,
        ensures
            res_view(r) == Ok::<SpecPrim, SpecError>(SpecPrim::Unit(e.info@)),
            stack_view(final(state)@) == stack_view(old(state)@).update(
                stack_view(old(state)@).len() - 1,
                bind_one(stack_view(old(state)@).last(), e@),
            ),
    {
        let ghost st = stack_view(state@);
        match &e.value {
            Some(v) => {
                let mut top = state.pop().unwrap();
                top.insert(e.name.clone(), (**v).clone());
                state.push(top);
                assert(stack_view(state@) =~= st.update(st.len() - 1, bind_one(st.last(), e@)));
            },
            None => {
                assert(stack_view(state@) =~= st.update(st.len() - 1, bind_one(st.last(), e@)));
            },
        }
        Ok(Prim::Unit(e.info.clone()))
    }

    /// Evaluates `e`; see [`eval`].
    fn eval_node(&self, state: &mut Vec<Frame>, e: &Node, Ghost(fuel): Ghost<nat>) -> (r: Result<
        Prim,
        InterpreterError,
    >)
        requires
            eval(fuel, stack_view(old(state)@), e@) is Some,
        ensures
            eval(fuel, stack_view(old(state)@), e@) == Some(
                (res_view(r), stack_view(final(state)@)),
            ),
        decreases fuel, 1int,
    {
        match e {
            Node::Error(msg) => self.eval_error(msg),
            Node::SymNode(n) => self.eval_sym(state, n, Ghost(fuel)),
            Node::PrimNode(p) => Ok(p.clone()),
            Node::ApplyNode(a) => self.eval_apply(state, a, Ghost(fuel)),
            Node::LetNode(l) => self.eval_let(state, l),
            Node::UnOpNode(u) => self.eval_un_op(state, u, Ghost(fuel)),
            Node::BinOpNode(b) => self.eval_bin_op(state, b, Ghost(fuel)),
        }
    }

    /// Evaluates a name: `true` and `false` are the booleans; any other
    /// name is looked up from the innermost frame outward, and its defining
    /// node is evaluated in a copy of the state with a new frame.
    fn eval_sym(&self, state: &mut Vec<Frame>, e: &Sym, Ghost(fuel): Ghost<nat>) -> (r: Result<
        Prim,
        InterpreterError,
    >)
        requires
            eval(fuel, stack_view(old(state)@), Node::SymNode(*e)@) is Some,
        ensures
            eval(fuel, stack_view(old(state)@), Node::SymNode(*e)@) == Some(
                (res_view(r), stack_view(final(state)@)),
            ),
        decreases fuel, 0int,
    {
        let info = e.info.clone();
        if is(&e.name, "true") {
            return Ok(Prim::Bool(true, info));
        }
        if is(&e.name, "false") {
            return Ok(Prim::Bool(false, info));
        }
        let ghost st = stack_view(state@);
        let mut i = state.len();
        assert(st.take(i as int) =~= st);
        while i > 0
            invariant
                st == stack_view(state@),
                i <= state@.len(),
                stack_lookup(st, e.name@) == stack_lookup(st.take(i as int), e.name@),
                eval(fuel, st, Node::SymNode(*e)@) is Some,
                e.name@ != "true"@,
                e.name@ != "false"@,
            decreases i,
        {
            let ghost t = st.take(i as int);
            assert(t.drop_last() =~= st.take(i - 1));
            assert(t.last() == state@[i - 1]@);
            match state[i - 1].get(&e.name) {
                Some(val) => {
                    let mut next = copy_stack(state);
                    next.push(Frame::new());
                    assert(stack_view(next@) =~= st.push(seq![]));
                    return self.eval_node(&mut next, val, Ghost((fuel - 1) as nat));
                },
                None => {},
            }
            i = i - 1;
        }
        vstd::pervasive::unreached()
    }

    /// Evaluates an application: binds its definitions in a new frame,
    /// evaluates its body there, and drops the frame.
    fn eval_apply(&self, state: &mut Vec<Frame>, e: &Apply, Ghost(fuel): Ghost<nat>) -> (r: Result<
        Prim,
        InterpreterError,
    >)
        requires
            eval(fuel, stack_view(old(state)@), Node::ApplyNode(*e)@) is Some,
        ensures
            eval(fuel, stack_view(old(state)@), Node::ApplyNode(*e)@) == Some(
                (res_view(r), stack_view(final(state)@)),
            ),
        decreases fuel, 0int,
    {
        let ghost st = stack_view(state@);
        let ghost args = crate::ast::lets_view(e.args@);
        proof {
            lemma_lets_view_index(e.args@);
        }
        state.push(Frame::new());
        assert(stack_view(state@) =~= st.push(seq![]));
        assert(args.skip(0) =~= args);
        let mut j: usize = 0;
        while j < e.args.len()
            invariant
                j <= e.args@.len(),
                args == crate::ast::lets_view(e.args@),
                args.len() == e.args@.len(),
                forall|k: int| 0 <= k < e.args@.len() ==> #[trigger] args[k] == e.args@[k]@,
                stack_view(state@).len() == st.len() + 1,
                stack_view(state@).drop_last() == st,
                bind_lets(stack_view(state@).last(), args.skip(j as int)) == bind_lets(
                    seq![],
                    args,
                ),
            decreases e.args@.len() - j,
        {
            let ghost before = stack_view(state@);
            proof {
                lemma_bind_step(before.last(), args, j as int);
            }
            let arg = e.args[j].clone();
            let _ = self.eval_let(state, &arg);
            assert(stack_view(state@).drop_last() =~= st);
            j = j + 1;
        }
        assert(args.skip(j as int) =~= Seq::<SpecLet>::empty());
        assert(stack_view(state@) =~= st.push(bind_lets(seq![], args)));
        let res = self.eval_node(state, &e.inner, Ghost((fuel - 1) as nat));
        let ghost after = stack_view(state@);
        state.pop();
        assert(stack_view(state@) =~= (if after.len() > 0 { after.drop_last() } else { after }));
        res
    }

    /// Evaluates a prefix operator.
    fn eval_un_op(&self, state: &mut Vec<Frame>, e: &UnOp, Ghost(fuel): Ghost<nat>) -> (r: Result<
        Prim,
        InterpreterError,
    >)
        requires
            eval(fuel, stack_view(old(state)@), Node::UnOpNode(*e)@) is Some,
        ensures
            eval(fuel, stack_view(old(state)@), Node::UnOpNode(*e)@) == Some(
                (res_view(r), stack_view(final(state)@)),
            ),
        decreases fuel, 0int,
    {
        let i = self.eval_node(state, &e.inner, Ghost((fuel - 1) as nat));
        match i {
            Err(x) => Err(x),
            Ok(v) => apply_un_op(&e.name, v, e.info.clone()),
        }
    }

    /// Evaluates an infix operator: its left operand, then its right one.
    fn eval_bin_op(&self, state: &mut Vec<Frame>, e: &BinOp, Ghost(fuel): Ghost<nat>) -> (r: Result<
        Prim,
        InterpreterError,
    >)
        requires
            eval(fuel, stack_view(old(state)@), Node::BinOpNode(*e)@) is Some,
        ensures
            eval(fuel, stack_view(old(state)@), Node::BinOpNode(*e)@) == Some(
                (res_view(r), stack_view(final(state)@)),
            ),
        decreases fuel, 0int,
    {
        let l = match self.eval_node(state, &e.left, Ghost((fuel - 1) as nat)) {
            Err(x) => {
                return Err(x);
            },
            Ok(v) => v,
        };
        let r = match self.eval_node(state, &e.right, Ghost((fuel - 1) as nat)) {
            Err(x) => {
                return Err(x);
            },
            Ok(v) => v,
        };
        apply_bin_op(&e.name, l, r, e.info.clone())
    }
}


/// The interpreter's walk: `admits` holds where the evaluation ends without
/// a panic, and `outcome` is what [`eval`] gives there.
impl Visitor<Vec<Frame>, Prim, Prim, InterpreterError> for Interpreter {
    open spec fn admits_root(&self, e: Node) -> bool {
        evaluates(root_stack(), e@)
    }

    open spec fn root_outcome(&self, e: Node, r: Result<Prim, InterpreterError>) -> bool {
        res_view(r) == evaluation(root_stack(), e@).0
    }

    open spec fn admits(&self, state: Vec<Frame>, e: Node) -> bool {
        evaluates(stack_view(state@), e@)
    }

    open spec fn outcome(
        &self,
        state: Vec<Frame>,
        e: Node,
        r: Result<Prim, InterpreterError>,
        after: Vec<Frame>,
    ) -> bool {
        evaluation(stack_view(state@), e@) == (res_view(r), stack_view(after@))
    }

    open spec fn admits_prim(&self, e: Prim) -> bool {
        true
    }

    open spec fn prim_outcome(&self, e: Prim, r: Result<Prim, InterpreterError>) -> bool {
        res_view(r) == Ok::<SpecPrim, SpecError>(e@)
    }

    proof fn lemma_prim(&self, state: Vec<Frame>, e: Prim, r: Result<Prim, InterpreterError>) {
        let st = stack_view(state@);
        let n = Node::PrimNode(e)@;
        assert(self.admits_prim(e));
        assert(eval(1, st, n) is Some);
        let f = fuel_for(st, n);
        assert(eval(f, st, n) is Some);
        assert(evaluation(st, n) == (Ok::<SpecPrim, SpecError>(e@), st));
        if self.prim_outcome(e, r) {
            assert(self.outcome(state, Node::PrimNode(e), r, state));
        }
    }

    fn visit_root(&mut self, e: &Node) -> (r: Result<Prim, InterpreterError>) {
        let mut state: Vec<Frame> = Vec::new();
        state.push(Frame::new());
        assert(stack_view(state@) =~= root_stack());
        self.eval_node(&mut state, e, Ghost(fuel_for(root_stack(), e@)))
    }

    fn handle_error(&mut self, state: &mut Vec<Frame>, e: &String) -> (r: Result<
        Prim,
        InterpreterError,
    >) {
        let ghost st = stack_view(state@);
        assert(eval(1, st, Node::Error(*e)@) is Some);
        self.eval_error(e)
    }

    fn visit_sym(&mut self, state: &mut Vec<Frame>, e: &Sym) -> (r: Result<Prim, InterpreterError>) {
        self.eval_sym(state, e, Ghost(fuel_for(stack_view(state@), Node::SymNode(*e)@)))
    }

    fn visit_prim(&mut self, e: &Prim) -> (r: Result<Prim, InterpreterError>) {
        let c = e.clone();
        assert(c@ == e@);
        assert(res_view(Ok(c)) == Ok::<SpecPrim, SpecError>(e@));
        assert(self.prim_outcome(*e, Ok(c)));
        Ok(c)
    }

    fn visit_apply(&mut self, state: &mut Vec<Frame>, e: &Apply) -> (r: Result<
        Prim,
        InterpreterError,
    >) {
        self.eval_apply(state, e, Ghost(fuel_for(stack_view(state@), Node::ApplyNode(*e)@)))
    }

    fn visit_let(&mut self, state: &mut Vec<Frame>, e: &Let) -> (r: Result<Prim, InterpreterError>) {
        let ghost st = stack_view(state@);
        assert(eval(fuel_for(st, Node::LetNode(*e)@), st, Node::LetNode(*e)@) is Some);
        self.eval_let(state, e)
    }

    fn visit_un_op(&mut self, state: &mut Vec<Frame>, e: &UnOp) -> (r: Result<
        Prim,
        InterpreterError,
    >) {
        self.eval_un_op(state, e, Ghost(fuel_for(stack_view(state@), Node::UnOpNode(*e)@)))
    }

    fn visit_bin_op(&mut self, state: &mut Vec<Frame>, e: &BinOp) -> (r: Result<
        Prim,
        InterpreterError,
    >) {
        self.eval_bin_op(state, e, Ghost(fuel_for(stack_view(state@), Node::BinOpNode(*e)@)))
    }
}

/// What a visit gives is fixed by the state and the node: two results that
/// both meet `outcome` are the same result and leave the same stack. Since
/// `visit` and the visit of the node's own kind both ensure `outcome` for the
/// same state and node, a call of `visit` gives what the matching per-kind
/// call gives.
pub proof fn law_visit_determined(
    it: Interpreter,
    state: Vec<Frame>,
    e: Node,
    r1: Result<Prim, InterpreterError>,
    after1: Vec<Frame>,
    r2: Result<Prim, InterpreterError>,
    after2: Vec<Frame>,
)
    requires
        it.outcome(state, e, r1, after1),
        it.outcome(state, e, r2, after2),
    ensures
        res_view(r1) == res_view(r2),
        stack_view(after1@) == stack_view(after2@),
{
}

/// Visiting a primitive node gives what `visit_prim` gives for the
/// primitive, and leaves the stack as it was.
pub proof fn law_visit_prim(
    it: Interpreter,
    state: Vec<Frame>,
    p: Prim,
    r1: Result<Prim, InterpreterError>,
    after: Vec<Frame>,
    r2: Result<Prim, InterpreterError>,
)
    requires
        it.outcome(state, Node::PrimNode(p), r1, after),
        it.prim_outcome(p, r2),
    ensures
        res_view(r1) == res_view(r2),
        stack_view(after@) == stack_view(state@),
{
    it.lemma_prim(state, p, r2);
}

/// What `visit_root` gives is fixed by the tree.
pub proof fn law_root_determined(
    it: Interpreter,
    e: Node,
    r1: Result<Prim, InterpreterError>,
    r2: Result<Prim, InterpreterError>,
)
    requires
        it.root_outcome(e, r1),
        it.root_outcome(e, r2),
    ensures
        res_view(r1) == res_view(r2),
{
}

} // verus!
