//! A general tree: a value and its children.

use vstd::prelude::*;

verus! {

/// A tree with a value at each node.
#[derive(Debug, PartialEq)]
pub struct Tree<T> {
    pub value: T,
    pub children: Vec<Tree<T>>,
}

/// Model of a [`Tree`].
pub struct SpecTree<V> {
    pub value: V,
    pub children: Seq<SpecTree<V>>,
}

/// The model of a tree.
pub open spec fn tree_view<T: View>(t: Tree<T>) -> SpecTree<T::V>
    decreases t,
{
    SpecTree { value: t.value@, children: trees_view(t.children@) }
}

/// The models of a sequence of trees.
pub open spec fn trees_view<T: View>(s: Seq<Tree<T>>) -> Seq<SpecTree<T::V>>
    decreases s,
{
    if s.len() == 0 {
        seq![]
    } else {
        seq![tree_view(s[0])] + trees_view(s.drop_first())
    }
}

impl<T: View> View for Tree<T> {
    type V = SpecTree<T::V>;

    open spec fn view(&self) -> SpecTree<T::V> {
        tree_view(*self)
    }
}

/// The models of a sequence of trees, one by one.
pub proof fn lemma_trees_view_index<T: View>(s: Seq<Tree<T>>)
    ensures
        trees_view(s).len() == s.len(),
        forall|j: int| 0 <= j < s.len() ==> #[trigger] trees_view(s)[j] == s[j]@,
    decreases s.len(),
{
    if s.len() > 0 {
        lemma_trees_view_index(s.drop_first());
        assert forall|j: int| 0 <= j < s.len() implies #[trigger] trees_view(s)[j] == s[j]@ by {
            if j > 0 {
                assert(trees_view(s)[j] == trees_view(s.drop_first())[j - 1]);
                assert(s.drop_first()[j - 1] == s[j]);
            }
        }
    }
}

} // verus!
