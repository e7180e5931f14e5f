//! The tree itself and the labels its nodes carry.
use vstd::prelude::*;

verus! {

/// A value that can stand as the text of a node.
pub trait TreeLabel {
    /// The characters that the label shows.
    spec fn text(&self) -> Seq<char>;

    fn label_str(&self) -> (r: &str)
        ensures
            r@ == self.text(),
    ;
}

impl<'a> TreeLabel for &'a str {
    open spec fn text(&self) -> Seq<char> {
        (**self)@
    }

    fn label_str(&self) -> (r: &str) {
        *self
    }
}

impl TreeLabel for String {
    open spec fn text(&self) -> Seq<char> {
        self@
    }

    fn label_str(&self) -> (r: &str) {
        self.as_str()
    }
}

/// A node: a label and the ordered sequence of subtrees it owns.
pub struct Tree<D> {
    pub label: D,
    pub children: Vec<Tree<D>>,
}

impl<D: TreeLabel> Tree<D> {
    /// A node with the given children, in the given order.
    pub fn new(root: D, leaves: Vec<Tree<D>>) -> (t: Tree<D>)
        ensures
            t.label == root,
            t.children@ == leaves@,
    {
        Tree { label: root, children: leaves }
    }

    /// A node with no children.
    pub fn root(root: D) -> (t: Tree<D>)
        ensures
            t.label == root,
            t.children@ == Seq::<Tree<D>>::empty(),
    {
        Tree { label: root, children: Vec::new() }
    }

    /// Appends `leaf` after the existing children.
    pub fn push(&mut self, leaf: Tree<D>) -> (r: &mut Self)
        ensures
            r.label == old(self).label,
            r.children@ == old(self).children@.push(leaf),
            *final(self) == *final(r),
    {
        self.children.push(leaf);
        self
    }
}

} // verus!
