//! Types of the language.

use vstd::prelude::*;

verus! {

/// A layout: component types with their sizes.
type Layout = Vec<(Box<Type>, i32)>;

/// A type: a variable, a sum, a product, or an implication.
#[derive(Debug, PartialEq)]
pub enum Type {
    Variable(String),
    TypeOr(Layout),
    TypeAnd(Layout),
    TypeImplication(Layout, Layout),
}

/// Model of a [`Type`].
pub enum SpecType {
    Variable(Seq<char>),
    TypeOr(Seq<(SpecType, i32)>),
    TypeAnd(Seq<(SpecType, i32)>),
    TypeImplication(Seq<(SpecType, i32)>, Seq<(SpecType, i32)>),
}

/// The model of a type.
pub open spec fn type_view(t: Type) -> SpecType
    decreases t,
{
    match t {
        Type::Variable(name) => SpecType::Variable(name@),
        Type::TypeOr(l) => SpecType::TypeOr(layout_view(l@)),
        Type::TypeAnd(l) => SpecType::TypeAnd(layout_view(l@)),
        Type::TypeImplication(a, b) => SpecType::TypeImplication(layout_view(a@), layout_view(b@)),
    }
}

/// The model of a layout.
pub open spec fn layout_view(l: Seq<(Box<Type>, i32)>) -> Seq<(SpecType, i32)>
    decreases l,
{
    if l.len() == 0 {
        seq![]
    } else {
        seq![(type_view(*l[0].0), l[0].1)] + layout_view(l.drop_first())
    }
}

impl View for Type {
    type V = SpecType;

    open spec fn view(&self) -> SpecType {
        type_view(*self)
    }
}

proof fn lemma_layout_view_pointwise(a: Seq<(Box<Type>, i32)>, b: Seq<(Box<Type>, i32)>)
    requires
        a.len() == b.len(),
        forall|j: int| 0 <= j < a.len() ==> (*(#[trigger] a[j]).0)@ == (*b[j].0)@ && a[j].1 == b[j].1,
    ensures
        layout_view(a) == layout_view(b),
    decreases a.len(),
{
    if a.len() > 0 {
        assert((*a[0].0)@ == (*b[0].0)@);
        lemma_layout_view_pointwise(a.drop_first(), b.drop_first());
    }
}

/// Copies a layout.
fn clone_layout(l: &Layout) -> (r: Layout)
    ensures
        layout_view(r@) == layout_view(l@),
    decreases l,
{
    let mut r: Layout = Vec::new();
    let mut i: usize = 0;
    while i < l.len()
        invariant
            i <= l@.len(),
            r@.len() == i,
            forall|j: int|
                0 <= j < i ==> (*(#[trigger] r@[j]).0)@ == (*l@[j].0)@ && r@[j].1 == l@[j].1,
        decreases l@.len() - i,
    {
        let t = clone_type(&l[i].0);
        r.push((Box::new(t), l[i].1));
        i = i + 1;
    }
    proof {
        lemma_layout_view_pointwise(r@, l@);
    }
    r
}

/// Copies a type.
fn clone_type(t: &Type) -> (r: Type)
    ensures
        r@ == t@,
    decreases t,
{
    match t {
        Type::Variable(name) => Type::Variable(name.clone()),
        Type::TypeOr(l) => Type::TypeOr(clone_layout(l)),
        Type::TypeAnd(l) => Type::TypeAnd(clone_layout(l)),
        Type::TypeImplication(a, b) => Type::TypeImplication(clone_layout(a), clone_layout(b)),
    }
}

impl Clone for Type {
    fn clone(&self) -> (r: Self)
        ensures
            r@ == self@,
    {
        clone_type(self)
    }
}

} // verus!
