//! The abstract syntax tree, its mathematical model, and the visitor
//! interface through which the interpreter and the compiler walk it.

use vstd::prelude::*;

verus! {

/// A position in a source file.
#[derive(Debug, PartialEq)]
pub struct Loc {
    pub filename: Option<String>,
    pub line: i32,
    pub col: i32,
}

/// Source information attached to a node.
#[derive(Debug, PartialEq)]
pub struct Info {
    pub loc: Option<Loc>,
}

/// A function application: `inner` applied to definitions `args`.
#[derive(Debug, PartialEq)]
pub struct Apply {
    pub inner: Box<Node>,
    pub args: Vec<Let>,
}

/// A reference to a name.
#[derive(Debug, PartialEq)]
pub struct Sym {
    pub name: String,
    pub info: Info,
}

/// A primitive value.
#[derive(Debug, PartialEq)]
pub enum Prim {
    Unit(Info),
    Bool(bool, Info),
    I32(i32, Info),
    Str(String, Info),
}

/// A definition of `name`; without a value it binds nothing.
#[derive(Debug, PartialEq)]
pub struct Let {
    pub name: String,
    pub value: Option<Box<Node>>,
    pub info: Info,
}

/// A prefix operator applied to `inner`.
#[derive(Debug, PartialEq)]
pub struct UnOp {
    pub name: String,
    pub inner: Box<Node>,
    pub info: Info,
}

/// An infix operator applied to `left` and `right`.
#[derive(Debug, PartialEq)]
pub struct BinOp {
    pub name: String,
    pub left: Box<Node>,
    pub right: Box<Node>,
    pub info: Info,
}

/// A node of the syntax tree.
#[derive(Debug, PartialEq)]
pub enum Node {
    Error(String),
    SymNode(Sym),
    PrimNode(Prim),
    ApplyNode(Apply),
    LetNode(Let),
    UnOpNode(UnOp),
    BinOpNode(BinOp),
}

// ---------------------------------------------------------------------
// The mathematical model: the same tree with text as character sequences.
// ---------------------------------------------------------------------

/// Model of a [`Loc`].
pub struct SpecLoc {
    pub filename: Option<Seq<char>>,
    pub line: i32,
    pub col: i32,
}

/// Model of an [`Info`].
pub struct SpecInfo {
    pub loc: Option<SpecLoc>,
}

/// Model of a [`Prim`].
pub enum SpecPrim {
    Unit(SpecInfo),
    Bool(bool, SpecInfo),
    I32(i32, SpecInfo),
    Str(Seq<char>, SpecInfo),
}

/// Model of a [`Let`].
pub struct SpecLet {
    pub name: Seq<char>,
    pub value: Option<Box<SpecNode>>,
    pub info: SpecInfo,
}

/// Model of a [`Node`].
pub enum SpecNode {
    Error(Seq<char>),
    Sym(Seq<char>, SpecInfo),
    Prim(SpecPrim),
    Apply(Box<SpecNode>, Seq<SpecLet>),
    Let(SpecLet),
    UnOp(Seq<char>, Box<SpecNode>, SpecInfo),
    BinOp(Seq<char>, Box<SpecNode>, Box<SpecNode>, SpecInfo),
}

/// The information that `Info::default()` gives: no location.
pub open spec fn no_info() -> SpecInfo {
    SpecInfo { loc: None }
}

impl View for Loc {
    type V = SpecLoc;

    open spec fn view(&self) -> SpecLoc {
        SpecLoc {
            filename: match self.filename {
                Some(f) => Some(f@),
                None => None,
            },
            line: self.line,
            col: self.col,
        }
    }
}

impl View for Info {
    type V = SpecInfo;

    open spec fn view(&self) -> SpecInfo {
        SpecInfo {
            loc: match self.loc {
                Some(l) => Some(l@),
                None => None,
            },
        }
    }
}

impl View for Prim {
    type V = SpecPrim;

    open spec fn view(&self) -> SpecPrim {
        match self {
            Prim::Unit(i) => SpecPrim::Unit(i@),
            Prim::Bool(b, i) => SpecPrim::Bool(*b, i@),
            Prim::I32(n, i) => SpecPrim::I32(*n, i@),
            Prim::Str(s, i) => SpecPrim::Str(s@, i@),
        }
    }
}

/// The model of a node.
pub open spec fn node_view(n: Node) -> SpecNode
    decreases n,
{
    match n {
        Node::Error(s) => SpecNode::Error(s@),
        Node::SymNode(s) => SpecNode::Sym(s.name@, s.info@),
        Node::PrimNode(p) => SpecNode::Prim(p@),
        Node::ApplyNode(a) => SpecNode::Apply(Box::new(node_view(*a.inner)), lets_view(a.args@)),
        Node::LetNode(l) => SpecNode::Let(let_view(l)),
        Node::UnOpNode(u) => SpecNode::UnOp(u.name@, Box::new(node_view(*u.inner)), u.info@),
        Node::BinOpNode(b) => SpecNode::BinOp(
            b.name@,
            Box::new(node_view(*b.left)),
            Box::new(node_view(*b.right)),
            b.info@,
        ),
    }
}

/// The model of a definition.
pub open spec fn let_view(l: Let) -> SpecLet
    decreases l,
{
    SpecLet {
        name: l.name@,
        value: match l.value {
            Some(v) => Some(Box::new(node_view(*v))),
            None => None,
        },
        info: l.info@,
    }
}

/// The models of a sequence of definitions.
pub open spec fn lets_view(s: Seq<Let>) -> Seq<SpecLet>
    decreases s,
{
    if s.len() == 0 {
        seq![]
    } else {
        seq![let_view(s[0])] + lets_view(s.drop_first())
    }
}

impl View for Node {
    type V = SpecNode;

    open spec fn view(&self) -> SpecNode {
        node_view(*self)
    }
}

impl View for Let {
    type V = SpecLet;

    open spec fn view(&self) -> SpecLet {
        let_view(*self)
    }
}


impl Default for Info {
    fn default() -> (i: Info)
        ensures
            i.loc is None,
    {
        Info { loc: None }
    }
}

impl Clone for Loc {
    fn clone(&self) -> (r: Self)
        ensures
            r@ == self@,
    {
        Loc {
            filename: match &self.filename {
                Some(f) => Some(f.clone()),
                None => None,
            },
            line: self.line,
            col: self.col,
        }
    }
}

impl Clone for Info {
    fn clone(&self) -> (r: Self)
        ensures
            r@ == self@,
    {
        Info {
            loc: match &self.loc {
                Some(l) => Some(l.clone()),
                None => None,
            },
        }
    }
}

impl Clone for Prim {
    fn clone(&self) -> (r: Self)
        ensures
            r@ == self@,
    {
        match self {
            Prim::Unit(i) => Prim::Unit(i.clone()),
            Prim::Bool(b, i) => Prim::Bool(*b, i.clone()),
            Prim::I32(n, i) => Prim::I32(*n, i.clone()),
            Prim::Str(s, i) => Prim::Str(s.clone(), i.clone()),
        }
    }
}

impl Clone for Sym {
    fn clone(&self) -> (r: Self)
        ensures
            r.name@ == self.name@,
            r.info@ == self.info@,
    {
        Sym { name: self.name.clone(), info: self.info.clone() }
    }
}

impl Clone for Let {
    fn clone(&self) -> (r: Self)
        ensures
            r@ == self@,
        decreases self,
    {
        Let {
            name: self.name.clone(),
            value: match &self.value {
                Some(v) => Some(Box::new(clone_node(v))),
                None => None,
            },
            info: self.info.clone(),
        }
    }
}

/// Copies a sequence of definitions.
fn clone_lets(args: &Vec<Let>) -> (r: Vec<Let>)
    ensures
        lets_view(r@) == lets_view(args@),
    decreases args,
{
    let mut r: Vec<Let> = Vec::new();
    let mut i: usize = 0;
    while i < args.len()
        invariant
            i <= args.len(),
            r@.len() == i,
            forall|j: int| 0 <= j < i ==> (#[trigger] r@[j])@ == args@[j]@,
        decreases args.len() - i,
    {
        r.push(args[i].clone());
        i = i + 1;
    }
    proof {
        lemma_lets_view_pointwise(r@, args@);
    }
    r
}

/// Two sequences of definitions with the same models one by one have the
/// same model.
pub proof fn lemma_lets_view_pointwise(a: Seq<Let>, b: Seq<Let>)
    requires
        a.len() == b.len(),
        forall|j: int| 0 <= j < a.len() ==> (#[trigger] a[j])@ == b[j]@,
    ensures
        lets_view(a) == lets_view(b),
    decreases a.len(),
{
    if a.len() > 0 {
        assert(a[0]@ == b[0]@);
        lemma_lets_view_pointwise(a.drop_first(), b.drop_first());
    }
}

/// Copies a node.
fn clone_node(n: &Node) -> (r: Node)
    ensures
        r@ == n@,
    decreases n,
{
    match n {
        Node::Error(s) => Node::Error(s.clone()),
        Node::SymNode(s) => Node::SymNode(s.clone()),
        Node::PrimNode(p) => Node::PrimNode(p.clone()),
        Node::ApplyNode(a) => Node::ApplyNode(
            Apply { inner: Box::new(clone_node(&a.inner)), args: clone_lets(&a.args) },
        ),
        Node::LetNode(l) => Node::LetNode(l.clone()),
        Node::UnOpNode(u) => Node::UnOpNode(
            UnOp { name: u.name.clone(), inner: Box::new(clone_node(&u.inner)), info: u.info.clone() },
        ),
        Node::BinOpNode(b) => Node::BinOpNode(
            BinOp {
                name: b.name.clone(),
                left: Box::new(clone_node(&b.left)),
                right: Box::new(clone_node(&b.right)),
                info: b.info.clone(),
            },
        ),
    }
}

impl Clone for Node {
    fn clone(&self) -> (r: Self)
        ensures
            r@ == self@,
    {
        clone_node(self)
    }
}

impl Clone for Apply {
    fn clone(&self) -> (r: Self)
        ensures
            r.inner@ == self.inner@,
            lets_view(r.args@) == lets_view(self.args@),
    {
        Apply { inner: Box::new(clone_node(&self.inner)), args: clone_lets(&self.args) }
    }
}

impl Clone for UnOp {
    fn clone(&self) -> (r: Self)
        ensures
            r.name@ == self.name@,
            r.inner@ == self.inner@,
            r.info@ == self.info@,
    {
        UnOp { name: self.name.clone(), inner: Box::new(clone_node(&self.inner)), info: self.info.clone() }
    }
}

impl Clone for BinOp {
    fn clone(&self) -> (r: Self)
        ensures
            r.name@ == self.name@,
            r.left@ == self.left@,
            r.right@ == self.right@,
            r.info@ == self.info@,
    {
        BinOp {
            name: self.name.clone(),
            left: Box::new(clone_node(&self.left)),
            right: Box::new(clone_node(&self.right)),
            info: self.info.clone(),
        }
    }
}


/// Conversion of the parts of the tree into nodes, and access to their
/// source information.
pub trait ToNode: Sized {
    /// The node that `to_node` gives.
    spec fn as_node(self) -> Node;

    /// The information that `get_info` gives.
    spec fn info_of(self) -> Info;

    fn to_node(self) -> (n: Node)
        ensures
            n == self.as_node(),
    ;

    fn get_info(self) -> (i: Info)
        ensures
            i == self.info_of(),
    ;
}

impl ToNode for Sym {
    open spec fn as_node(self) -> Node {
        Node::SymNode(self)
    }

    open spec fn info_of(self) -> Info {
        self.info
    }

    fn to_node(self) -> (n: Node) {
        Node::SymNode(self)
    }

    fn get_info(self) -> (i: Info) {
        self.info
    }
}

impl ToNode for Prim {
    open spec fn as_node(self) -> Node {
        Node::PrimNode(self)
    }

    open spec fn info_of(self) -> Info {
        match self {
            Prim::Unit(info) => info,
            Prim::Bool(_, info) => info,
            Prim::I32(_, info) => info,
            Prim::Str(_, info) => info,
        }
    }

    fn to_node(self) -> (n: Node) {
        Node::PrimNode(self)
    }

    fn get_info(self) -> (i: Info) {
        match self {
            Prim::Unit(info) => info,
            Prim::Bool(_, info) => info,
            Prim::I32(_, info) => info,
            Prim::Str(_, info) => info,
        }
    }
}

impl ToNode for Let {
    open spec fn as_node(self) -> Node {
        Node::LetNode(self)
    }

    open spec fn info_of(self) -> Info {
        self.info
    }

    fn to_node(self) -> (n: Node) {
        Node::LetNode(self)
    }

    fn get_info(self) -> (i: Info) {
        self.info
    }
}

impl ToNode for UnOp {
    open spec fn as_node(self) -> Node {
        Node::UnOpNode(self)
    }

    open spec fn info_of(self) -> Info {
        self.info
    }

    fn to_node(self) -> (n: Node) {
        Node::UnOpNode(self)
    }

    fn get_info(self) -> (i: Info) {
        self.info
    }
}

impl ToNode for BinOp {
    open spec fn as_node(self) -> Node {
        Node::BinOpNode(self)
    }

    open spec fn info_of(self) -> Info {
        self.info
    }

    fn to_node(self) -> (n: Node) {
        Node::BinOpNode(self)
    }

    fn get_info(self) -> (i: Info) {
        self.info
    }
}

/// An application carries no information of its own.
impl ToNode for Apply {
    open spec fn as_node(self) -> Node {
        Node::ApplyNode(self)
    }

    open spec fn info_of(self) -> Info {
        Info { loc: None }
    }

    fn to_node(self) -> (n: Node) {
        Node::ApplyNode(self)
    }

    fn get_info(self) -> (i: Info) {
        Info { loc: None }
    }
}

/// A node is already a node; its information is that of its part, and none
/// for an error or an application.
impl ToNode for Node {
    open spec fn as_node(self) -> Node {
        self
    }

    open spec fn info_of(self) -> Info {
        match self {
            Node::Error(_) => Info { loc: None },
            Node::SymNode(s) => s.info,
            Node::PrimNode(p) => p.info_of(),
            Node::ApplyNode(_) => Info { loc: None },
            Node::LetNode(l) => l.info,
            Node::UnOpNode(u) => u.info,
            Node::BinOpNode(b) => b.info,
        }
    }

    fn to_node(self) -> (n: Node) {
        self
    }

    fn get_info(self) -> (i: Info) {
        match self {
            Node::Error(_) => Info { loc: None },
            Node::SymNode(s) => s.info,
            Node::PrimNode(p) => p.get_info(),
            Node::ApplyNode(_) => Info { loc: None },
            Node::LetNode(l) => l.info,
            Node::UnOpNode(u) => u.info,
            Node::BinOpNode(b) => b.info,
        }
    }
}

/// Turning a part of the tree into a node keeps its information: the
/// node's information is the part's.
pub proof fn law_to_node_keeps_info(s: Sym, p: Prim, l: Let, u: UnOp, b: BinOp, a: Apply)
    ensures
        s.as_node().info_of() == s.info_of(),
        p.as_node().info_of() == p.info_of(),
        l.as_node().info_of() == l.info_of(),
        u.as_node().info_of() == u.info_of(),
        b.as_node().info_of() == b.info_of(),
        a.as_node().info_of() == a.info_of(),
{
}

/// The source location of `n`, if it has one.
pub fn get_loc<T: ToNode>(n: T) -> (r: Option<Loc>)
    ensures
        r == n.info_of().loc,
{
    n.get_info().loc
}

/// A walk over the syntax tree. `State` is threaded through the walk,
/// `Res` is what a node gives, `Final` what the whole tree gives and `Failure`
/// what a failure gives.
///
/// Each implementation says, through `admits`, on which trees and states
/// its walk is defined (it neither panics nor runs forever there), and,
/// through `outcome`, what a visit returns and what state it leaves.
pub trait Visitor<State, Res, Final, Failure>: Sized {
    /// Whether `visit_root` is defined on `e`.
    spec fn admits_root(&self, e: Node) -> bool;

    /// Whether `r` is what `visit_root` gives for `e`.
    spec fn root_outcome(&self, e: Node, r: Result<Final, Failure>) -> bool;

    /// Whether visiting `e` from `state` is defined.
    spec fn admits(&self, state: State, e: Node) -> bool;

    /// Whether visiting `e` from `state` gives `r` and leaves `after`.
    spec fn outcome(&self, state: State, e: Node, r: Result<Res, Failure>, after: State) -> bool;

    /// Whether `visit_prim` is defined on `e`.
    spec fn admits_prim(&self, e: Prim) -> bool;

    /// Whether `r` is what `visit_prim` gives for `e`.
    spec fn prim_outcome(&self, e: Prim, r: Result<Res, Failure>) -> bool;

    /// A primitive is visited without the state, and leaves it unchanged.
    proof fn lemma_prim(&self, state: State, e: Prim, r: Result<Res, Failure>)
        ensures
            self.admits(state, Node::PrimNode(e)) ==> self.admits_prim(e),
            self.prim_outcome(e, r) ==> self.outcome(state, Node::PrimNode(e), r, state),
    ;

    fn visit_root(&mut self, e: &Node) -> (r: Result<Final, Failure>)
        requires
            old(self).admits_root(*e),
        ensures
            old(self).root_outcome(*e, r),
    ;

    fn handle_error(&mut self, state: &mut State, e: &String) -> (r: Result<Res, Failure>)
        requires
            old(self).admits(*old(state), Node::Error(*e)),
        ensures
            old(self).outcome(*old(state), Node::Error(*e), r, *final(state)),
    ;

    fn visit_sym(&mut self, state: &mut State, e: &Sym) -> (r: Result<Res, Failure>)
        requires
            old(self).admits(*old(state), Node::SymNode(*e)),
        ensures
            old(self).outcome(*old(state), Node::SymNode(*e), r, *final(state)),
    ;

    fn visit_prim(&mut self, e: &Prim) -> (r: Result<Res, Failure>)
        requires
            old(self).admits_prim(*e),
        ensures
            old(self).prim_outcome(*e, r),
    ;

    fn visit_apply(&mut self, state: &mut State, e: &Apply) -> (r: Result<Res, Failure>)
        requires
            old(self).admits(*old(state), Node::ApplyNode(*e)),
        ensures
            old(self).outcome(*old(state), Node::ApplyNode(*e), r, *final(state)),
    ;

    fn visit_let(&mut self, state: &mut State, e: &Let) -> (r: Result<Res, Failure>)
        requires
            old(self).admits(*old(state), Node::LetNode(*e)),
        ensures
            old(self).outcome(*old(state), Node::LetNode(*e), r, *final(state)),
    ;

    fn visit_un_op(&mut self, state: &mut State, e: &UnOp) -> (r: Result<Res, Failure>)
        requires
            old(self).admits(*old(state), Node::UnOpNode(*e)),
        ensures
            old(self).outcome(*old(state), Node::UnOpNode(*e), r, *final(state)),
    ;

    fn visit_bin_op(&mut self, state: &mut State, e: &BinOp) -> (r: Result<Res, Failure>)
        requires
            old(self).admits(*old(state), Node::BinOpNode(*e)),
        ensures
            old(self).outcome(*old(state), Node::BinOpNode(*e), r, *final(state)),
    ;

    /// Dispatches on the kind of `e`.
    fn visit(&mut self, state: &mut State, e: &Node) -> (r: Result<Res, Failure>)
        requires
            old(self).admits(*old(state), *e),
        ensures
            old(self).outcome(*old(state), *e, r, *final(state)),
    {
        match e {
            Node::Error(n) => self.handle_error(state, n),
            Node::SymNode(n) => self.visit_sym(state, n),
            Node::PrimNode(n) => {
                let ghost before = *self;
                proof {
                    before.lemma_prim(*state, *n, arbitrary());
                }
                let r = self.visit_prim(n);
                proof {
                    before.lemma_prim(*state, *n, r);
                }
                r
            },
            Node::ApplyNode(n) => self.visit_apply(state, n),
            Node::LetNode(n) => self.visit_let(state, n),
            Node::UnOpNode(n) => self.visit_un_op(state, n),
            Node::BinOpNode(n) => self.visit_bin_op(state, n),
        }
    }
}

} // verus!
