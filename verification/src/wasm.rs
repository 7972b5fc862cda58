//! A compiler from the syntax tree to WebAssembly text: a module exporting
//! one function, `run_main`, whose body is the stack code of the
//! expression. It handles `i32` literals and the arithmetic operators.

use vstd::prelude::*;

use crate::ast::{
    no_info, Apply, BinOp, Info, Let, Node, Prim, SpecInfo, SpecNode, SpecPrim, Sym, UnOp, Visitor,
};
use crate::text::{concat_text, decimal, i32_text, same_text};
use crate::tree::{lemma_trees_view_index, trees_view, SpecTree, Tree};

verus! {

/// What goes wrong in a compilation.
#[derive(Debug, PartialEq)]
pub enum CompilerError {
    UnknownInfixOperator(String, Info),
    UnknownPrefixOperator(String, Info),
    FailedParse(String, Info),
}

/// Model of a [`CompilerError`].
pub enum SpecCompilerError {
    UnknownInfixOperator(Seq<char>, SpecInfo),
    UnknownPrefixOperator(Seq<char>, SpecInfo),
    FailedParse(Seq<char>, SpecInfo),
}

impl View for CompilerError {
    type V = SpecCompilerError;

    open spec fn view(&self) -> SpecCompilerError {
        match self {
            CompilerError::UnknownInfixOperator(s, i) => SpecCompilerError::UnknownInfixOperator(
                s@,
                i@,
            ),
            CompilerError::UnknownPrefixOperator(s, i) => SpecCompilerError::UnknownPrefixOperator(
                s@,
                i@,
            ),
            CompilerError::FailedParse(s, i) => SpecCompilerError::FailedParse(s@, i@),
        }
    }
}

/// A sequence of instructions.
pub type Code = Seq<Seq<char>>;

/// The model of a sequence of instructions.
pub open spec fn code_view(v: Seq<String>) -> Code {
    v.map_values(|s: String| s@)
}

/// The model of a compilation result.
pub open spec fn compiled_view(r: Result<Vec<String>, CompilerError>) -> Result<
    Code,
    SpecCompilerError,
> {
    match r {
        Ok(v) => Ok(code_view(v@)),
        Err(e) => Err(e@),
    }
}

/// The instruction that pushes the constant `n`.
pub open spec fn const_instr(n: i32) -> Seq<char> {
    "i32.const "@ + decimal(n as int)
}

/// The instruction of an infix operator, for the operators the compiler
/// knows.
pub open spec fn op_instr(op: Seq<char>) -> Option<Seq<char>> {
    if op == "*"@ {
        Some("i32.mul"@)
    } else if op == "+"@ {
        Some("i32.add"@)
    } else if op == "/"@ {
        Some("i32.div_s"@)
    } else if op == "-"@ {
        Some("i32.sub"@)
    } else if op == "^"@ {
        Some("i32.pow"@)
    } else {
        None
    }
}

/// The code of a primitive; only `i32` literals compile (the compiler
/// panics on the others).
pub open spec fn prim_code(p: SpecPrim) -> Option<Result<Code, SpecCompilerError>> {
    match p {
        SpecPrim::I32(n, _) => Some(Ok(seq![const_instr(n)])),
        _ => None,
    }
}

/// The code of a node; `None` where the compiler panics (names,
/// applications, definitions, and primitives other than `i32`).
pub open spec fn compile_spec(e: SpecNode) -> Option<Result<Code, SpecCompilerError>>
    decreases e,
{
    match e {
        SpecNode::Error(msg) => Some(Err(SpecCompilerError::FailedParse(msg, no_info()))),
        SpecNode::Prim(p) => prim_code(p),
        SpecNode::UnOp(name, inner, info) => match compile_spec(*inner) {
            None => None,
            Some(Err(x)) => Some(Err(x)),
            Some(Ok(c)) => if name == "+"@ {
                Some(Ok(c))
            } else if name == "-"@ {
                Some(Ok(seq![const_instr(0)] + c + seq!["i32.sub"@]))
            } else {
                Some(Err(SpecCompilerError::UnknownPrefixOperator(name, info)))
            },
        },
        SpecNode::BinOp(name, left, right, info) => match compile_spec(*left) {
            None => None,
            Some(Err(x)) => Some(Err(x)),
            Some(Ok(a)) => match compile_spec(*right) {
                None => None,
                Some(Err(x)) => Some(Err(x)),
                Some(Ok(b)) => match op_instr(name) {
                    Some(i) => Some(Ok(a + b + seq![i])),
                    None => Some(Err(SpecCompilerError::UnknownInfixOperator(name, info))),
                },
            },
        },
        _ => None,
    }
}

/// A tree with no children.
pub open spec fn leaf(s: Seq<char>) -> SpecTree<Seq<char>> {
    SpecTree { value: s, children: seq![] }
}

/// The module whose exported function `run_main` has the body `code`.
pub open spec fn module_tree(code: Code) -> SpecTree<Seq<char>> {
    let i32_type = leaf("i32"@);
    let export = SpecTree { value: "export"@, children: seq![leaf("\"run_main\""@)] };
    let param = SpecTree { value: "param"@, children: seq![i32_type, i32_type] };
    let result = SpecTree { value: "result"@, children: seq![i32_type] };
    let func = SpecTree {
        value: "func"@,
        children: seq![export, param, result] + code.map_values(|s: Seq<char>| leaf(s)),
    };
    SpecTree { value: "module"@, children: seq![func] }
}

/// What compiling a whole tree gives: the module, or the failure.
pub open spec fn root_result(e: SpecNode, r: Result<Tree<String>, CompilerError>) -> bool {
    match compile_spec(e) {
        Some(Ok(c)) => r matches Ok(t) && t@ == module_tree(c),
        Some(Err(x)) => r matches Err(y) && y@ == x,
        None => false,
    }
}

/// A tree of one value and no children.
fn leaf_tree(s: String) -> (t: Tree<String>)
    ensures
        t@ == leaf(s@),
{
    let t = Tree { value: s, children: Vec::new() };
    assert(trees_view(t.children@) =~= Seq::<SpecTree<Seq<char>>>::empty());
    t
}

/// A tree with the given value and children.
fn node_tree(s: String, children: Vec<Tree<String>>, Ghost(kids): Ghost<Seq<SpecTree<Seq<char>>>>) -> (t:
    Tree<String>)
    requires
        children@.len() == kids.len(),
        forall|j: int| 0 <= j < kids.len() ==> #[trigger] children@[j]@ == kids[j],
    ensures
        t@ == (SpecTree { value: s@, children: kids }),
{
    proof {
        lemma_trees_view_index(children@);
    }
    let t = Tree { value: s, children };
    assert(trees_view(t.children@) =~= kids);
    t
}

/// The instructions of `code`, each as a tree with no children.
fn to_tree(code: Vec<String>) -> (r: Vec<Tree<String>>)
    ensures
        r@.len() == code@.len(),
        forall|j: int| 0 <= j < code@.len() ==> #[trigger] r@[j]@ == leaf(code@[j]@),
{
    let mut r: Vec<Tree<String>> = Vec::new();
    let mut i: usize = 0;
    while i < code.len()
        invariant
            i <= code@.len(),
            r@.len() == i,
            forall|j: int| 0 <= j < i ==> #[trigger] r@[j]@ == leaf(code@[j]@),
        decreases code@.len() - i,
    {
        r.push(leaf_tree(code[i].clone()));
        i = i + 1;
    }
    r
}

/// Walks the syntax tree, compiling it.
pub struct Compiler;

impl Default for Compiler {
    fn default() -> (r: Compiler)
        ensures
            r == Compiler,
    {
        Compiler {}
    }
}

/// Appends `b` to `a`.
fn append_code(a: &mut Vec<String>, b: Vec<String>)
    ensures
        code_view(final(a)@) == code_view(old(a)@) + code_view(b@),
{
    let ghost b0 = b@;
    let mut b = b;
    a.append(&mut b);
    assert(code_view(a@) =~= code_view(old(a)@) + code_view(b0));
}

impl Compiler {
    /// The code of an `i32` literal.
    fn compile_prim(&self, e: &Prim) -> (r: Result<Vec<String>, CompilerError>)
        requires
            prim_code(e@) is Some,
        ensures
            Some(compiled_view(r)) == prim_code(e@),
    {
        match e {
            Prim::I32(n, _) => {
                let mut code: Vec<String> = Vec::new();
                code.push(concat_text("i32.const ", i32_text(*n).as_str()));
                assert(code_view(code@) =~= seq![const_instr(*n)]);
                Ok(code)
            },
            _ => vstd::pervasive::unreached(),
        }
    }

    /// The code of `e`; see [`compile_spec`].
    fn compile(&self, e: &Node) -> (r: Result<Vec<String>, CompilerError>)
        requires
            compile_spec(e@) is Some,
        ensures
            Some(compiled_view(r)) == compile_spec(e@),
        decreases e,
    {
        match e {
            Node::Error(msg) => Err(CompilerError::FailedParse(msg.clone(), Info::default())),
            Node::PrimNode(p) => self.compile_prim(p),
            Node::UnOpNode(u) => self.compile_un_op(u),
            Node::BinOpNode(b) => self.compile_bin_op(b),
            _ => vstd::pervasive::unreached(),
        }
    }

    /// The code of a prefix operator: `+` leaves its operand, `-`
    /// subtracts it from zero.
    fn compile_un_op(&self, u: &UnOp) -> (r: Result<Vec<String>, CompilerError>)
        requires
            compile_spec(Node::UnOpNode(*u)@) is Some,
        ensures
            Some(compiled_view(r)) == compile_spec(Node::UnOpNode(*u)@),
        decreases u,
    {
        let inner = match self.compile(&u.inner) {
            Err(x) => {
                return Err(x);
            },
            Ok(c) => c,
        };
        if same_text(u.name.as_str(), "+") {
            Ok(inner)
        } else if same_text(u.name.as_str(), "-") {
            let mut res = match self.compile_prim(&Prim::I32(0, u.info.clone())) {
                Ok(c) => c,
                Err(_) => vstd::pervasive::unreached(),
            };
            append_code(&mut res, inner);
            let ghost before = res@;
            res.push(String::from_str("i32.sub"));
            assert(code_view(res@) =~= code_view(before) + seq!["i32.sub"@]);
            Ok(res)
        } else {
            Err(CompilerError::UnknownPrefixOperator(u.name.clone(), u.info.clone()))
        }
    }

    /// The code of an infix operator: the code of its operands, then its
    /// instruction.
    fn compile_bin_op(&self, b: &BinOp) -> (r: Result<Vec<String>, CompilerError>)
        requires
            compile_spec(Node::BinOpNode(*b)@) is Some,
        ensures
            Some(compiled_view(r)) == compile_spec(Node::BinOpNode(*b)@),
        decreases b,
    {
        let mut res = match self.compile(&b.left) {
            Err(x) => {
                return Err(x);
            },
            Ok(c) => c,
        };
        let right = match self.compile(&b.right) {
            Err(x) => {
                return Err(x);
            },
            Ok(c) => c,
        };
        append_code(&mut res, right);
        let instr = if same_text(b.name.as_str(), "*") {
            String::from_str("i32.mul")
        } else if same_text(b.name.as_str(), "+") {
            String::from_str("i32.add")
        } else if same_text(b.name.as_str(), "/") {
            String::from_str("i32.div_s")
        } else if same_text(b.name.as_str(), "-") {
            String::from_str("i32.sub")
        } else if same_text(b.name.as_str(), "^") {
            String::from_str("i32.pow")
        } else {
            return Err(CompilerError::UnknownInfixOperator(b.name.clone(), b.info.clone()));
        };
        let ghost before = res@;
        res.push(instr);
        assert(code_view(res@) =~= code_view(before) + seq![instr@]);
        Ok(res)
    }
}



/// The compiler's walk: `admits` holds where compilation does not panic,
/// and `outcome` is what [`compile_spec`] gives there. The state is empty.
impl Visitor<(), Vec<String>, Tree<String>, CompilerError> for Compiler {
    open spec fn admits_root(&self, e: Node) -> bool {
        compile_spec(e@) is Some
    }

    open spec fn root_outcome(&self, e: Node, r: Result<Tree<String>, CompilerError>) -> bool {
        root_result(e@, r)
    }

    open spec fn admits(&self, state: (), e: Node) -> bool {
        compile_spec(e@) is Some
    }

    open spec fn outcome(
        &self,
        state: (),
        e: Node,
        r: Result<Vec<String>, CompilerError>,
        after: (),
    ) -> bool {
        compile_spec(e@) == Some(compiled_view(r))
    }

    open spec fn admits_prim(&self, e: Prim) -> bool {
        prim_code(e@) is Some
    }

    open spec fn prim_outcome(&self, e: Prim, r: Result<Vec<String>, CompilerError>) -> bool {
        prim_code(e@) == Some(compiled_view(r))
    }

    proof fn lemma_prim(&self, state: (), e: Prim, r: Result<Vec<String>, CompilerError>) {
        assert(self.admits(state, Node::PrimNode(e)) == self.admits_prim(e));
        assert(self.prim_outcome(e, r) == self.outcome(state, Node::PrimNode(e), r, state));
    }

    fn visit_root(&mut self, e: &Node) -> (r: Result<Tree<String>, CompilerError>) {
        let code = match self.compile(e) {
            Err(x) => {
                return Err(x);
            },
            Ok(c) => c,
        };
        let ghost cv = code_view(code@);
        let name = leaf_tree(String::from_str("\"run_main\""));
        let mut export_kids: Vec<Tree<String>> = Vec::new();
        export_kids.push(name);
        let ghost export_view = seq![leaf("\"run_main\""@)];
        let export = node_tree(String::from_str("export"), export_kids, Ghost(export_view));
        let mut param_kids: Vec<Tree<String>> = Vec::new();
        param_kids.push(leaf_tree(String::from_str("i32")));
        param_kids.push(leaf_tree(String::from_str("i32")));
        let ghost param_view = seq![leaf("i32"@), leaf("i32"@)];
        let param = node_tree(String::from_str("param"), param_kids, Ghost(param_view));
        let mut result_kids: Vec<Tree<String>> = Vec::new();
        result_kids.push(leaf_tree(String::from_str("i32")));
        let ghost result_view = seq![leaf("i32"@)];
        let result = node_tree(String::from_str("result"), result_kids, Ghost(result_view));
        let ghost head = seq![export@, param@, result@];
        let mut children: Vec<Tree<String>> = Vec::new();
        children.push(export);
        children.push(param);
        children.push(result);
        let mut body = to_tree(code);
        let ghost body_view = cv.map_values(|s: Seq<char>| leaf(s));
        children.append(&mut body);
        let ghost kids = head + body_view;
        assert forall|j: int| 0 <= j < kids.len() implies #[trigger] children@[j]@ == kids[j] by {
            if j >= 3 {
                assert(kids[j] == body_view[j - 3]);
            }
        }
        let func = node_tree(String::from_str("func"), children, Ghost(kids));
        let mut top: Vec<Tree<String>> = Vec::new();
        top.push(func);
        let ghost top_view = seq![func@];
        let module = node_tree(String::from_str("module"), top, Ghost(top_view));
        assert(module@ == module_tree(cv));
        Ok(module)
    }

    fn handle_error(&mut self, state: &mut (), e: &String) -> (r: Result<Vec<String>, CompilerError>) {
        Err(CompilerError::FailedParse(e.clone(), Info::default()))
    }

    fn visit_sym(&mut self, state: &mut (), e: &Sym) -> (r: Result<Vec<String>, CompilerError>) {
        vstd::pervasive::unreached()
    }

    fn visit_prim(&mut self, e: &Prim) -> (r: Result<Vec<String>, CompilerError>) {
        assert(self.admits_prim(*e));
        let r = self.compile_prim(e);
        assert(self.prim_outcome(*e, r));
        r
    }

    fn visit_apply(&mut self, state: &mut (), e: &Apply) -> (r: Result<Vec<String>, CompilerError>) {
        vstd::pervasive::unreached()
    }

    fn visit_let(&mut self, state: &mut (), e: &Let) -> (r: Result<Vec<String>, CompilerError>) {
        vstd::pervasive::unreached()
    }

    fn visit_un_op(&mut self, state: &mut (), e: &UnOp) -> (r: Result<Vec<String>, CompilerError>) {
        self.compile_un_op(e)
    }

    fn visit_bin_op(&mut self, state: &mut (), e: &BinOp) -> (r: Result<Vec<String>, CompilerError>) {
        self.compile_bin_op(e)
    }
}

/// What a visit compiles is fixed by the node: two results that both meet
/// `outcome` are the same code or the same error. Since `visit` and the
/// visit of the node's own kind both ensure `outcome` for the same node, a
/// call of `visit` gives what the matching per-kind call gives.
pub proof fn law_compile_determined(
    c: Compiler,
    e: Node,
    r1: Result<Vec<String>, CompilerError>,
    r2: Result<Vec<String>, CompilerError>,
)
    requires
        c.outcome((), e, r1, ()),
        c.outcome((), e, r2, ()),
    ensures
        compiled_view(r1) == compiled_view(r2),
{
}

/// Visiting a primitive node compiles to what `visit_prim` gives for the
/// primitive.
pub proof fn law_compile_prim(
    c: Compiler,
    p: Prim,
    r1: Result<Vec<String>, CompilerError>,
    r2: Result<Vec<String>, CompilerError>,
)
    requires
        c.outcome((), Node::PrimNode(p), r1, ()),
        c.prim_outcome(p, r2),
    ensures
        compiled_view(r1) == compiled_view(r2),
{
    c.lemma_prim((), p, r2);
}

/// What `visit_root` gives is fixed by the tree: the same module, or the
/// same error.
pub proof fn law_module_determined(
    c: Compiler,
    e: Node,
    r1: Result<Tree<String>, CompilerError>,
    r2: Result<Tree<String>, CompilerError>,
)
    requires
        c.root_outcome(e, r1),
        c.root_outcome(e, r2),
    ensures
        match (r1, r2) {
            (Ok(t1), Ok(t2)) => t1@ == t2@,
            (Err(x1), Err(x2)) => x1@ == x2@,
            _ => false,
        },
{
}

} // verus!
