//! The tree of labelled errors and the operations that build it.
use vstd::prelude::*;
use vstd::std_specs::convert::FromSpecImpl;

verus! {

/// A tree of errors.
///
/// - `L` is the type of the labels.
/// - `E` is the type of the errors themselves.
#[derive(Debug)]
pub enum ErrorTree<L, E> {
    /// A single error.
    Leaf(E),
    /// A subtree under a label.
    Edge(L, Box<ErrorTree<L, E>>),
    /// Several subtrees side by side, in the order in which they were given.
    Group(Vec<ErrorTree<L, E>>),
}

/// One leaf for each error, in the same order.
pub open spec fn leaves<L, E>(errors: Seq<E>) -> Seq<ErrorTree<L, E>> {
    errors.map_values(|error: E| ErrorTree::Leaf(error))
}

impl<L, E> ErrorTree<L, E> {
    /// Wraps one error as a tree without labels.
    pub fn leaf(error: E) -> (tree: Self)
        ensures
            tree == ErrorTree::<L, E>::Leaf(error),
    {
        ErrorTree::Leaf(error)
    }

    /// Puts the trees side by side in one group, in the order given.
    pub fn from_trees(trees: Vec<ErrorTree<L, E>>) -> (tree: Self)
        ensures
            tree == ErrorTree::Group(trees),
    {
        ErrorTree::Group(trees)
    }

    /// Makes each error a leaf and puts the leaves side by side in one group,
    /// in the order given.
    pub fn from_errors(errors: Vec<E>) -> (tree: Self)
        ensures
            tree matches ErrorTree::Group(children) && children@ == leaves::<L, E>(errors@),
    {
        let ghost all = errors@;
        let mut children: Vec<ErrorTree<L, E>> = Vec::new();
        for error in it: errors.into_iter()
            invariant
                it.seq() == all,
                children@ == leaves::<L, E>(all.take(it.index())),
        {
            children.push(ErrorTree::Leaf(error));
        }
        assert(all.take(all.len() as int) == all);
        ErrorTree::Group(children)
    }
}

/// Putting a label on an error or on a tree of errors.
pub trait IntoErrorTree<L, E> {
    /// Wraps `self` in an edge that carries `label`.
    fn with_label(self, label: L) -> (tree: ErrorTree<L, E>)
        ensures
            tree is Edge,
            tree->Edge_0 == label,
    ;
}

/// A bare error becomes a leaf under the label.
///
/// The bound is not called. It marks `E` as an error type that its owner has
/// made convertible to a tree, which keeps this impl apart from the one for
/// trees when the compiler picks one.
impl<L, E> IntoErrorTree<L, E> for E where E: Into<ErrorTree<L, E>> {
    fn with_label(self, label: L) -> (tree: ErrorTree<L, E>)
        ensures
            tree == ErrorTree::Edge(label, Box::new(ErrorTree::Leaf(self))),
    {
        ErrorTree::Edge(label, Box::new(ErrorTree::Leaf(self)))
    }
}

/// A tree goes under the label as it is.
impl<L, E> IntoErrorTree<L, E> for ErrorTree<L, E> {
    fn with_label(self, label: L) -> (tree: ErrorTree<L, E>)
        ensures
            tree == ErrorTree::Edge(label, Box::new(self)),
    {
        ErrorTree::Edge(label, Box::new(self))
    }
}

/// Trees become a group of those trees.
impl<L, E> From<Vec<ErrorTree<L, E>>> for ErrorTree<L, E> {
    /// The same as [`ErrorTree::from_trees`].
    fn from(subtrees: Vec<ErrorTree<L, E>>) -> (tree: Self)
        ensures
            tree == ErrorTree::Group(subtrees),
    {
        ErrorTree::from_trees(subtrees)
    }
}

impl<L, E> FromSpecImpl<Vec<ErrorTree<L, E>>> for ErrorTree<L, E> {
    open spec fn obeys_from_spec() -> bool {
        true
    }

    open spec fn from_spec(subtrees: Vec<ErrorTree<L, E>>) -> Self {
        ErrorTree::Group(subtrees)
    }
}

/// Bare errors become a group of leaves.
///
/// The bound is not called: it marks `E` as an error type, which keeps this
/// impl apart from the one for vectors of trees.
impl<L, E> From<Vec<E>> for ErrorTree<L, E> where E: IntoErrorTree<L, E> {
    /// The same as [`ErrorTree::from_errors`].
    fn from(errors: Vec<E>) -> (tree: Self)
        ensures
            tree matches ErrorTree::Group(children) && children@ == leaves::<L, E>(errors@),
    {
        ErrorTree::from_errors(errors)
    }
}

/// The group that `from` returns holds a vector that is made on the way and
/// that no expression names, so `from` is not held to `from_spec`: its own
/// contract says what the group holds.
impl<L, E> FromSpecImpl<Vec<E>> for ErrorTree<L, E> where E: IntoErrorTree<L, E> {
    open spec fn obeys_from_spec() -> bool {
        false
    }

    open spec fn from_spec(errors: Vec<E>) -> Self {
        ErrorTree::Group(choose|children: Vec<ErrorTree<L, E>>| children@ == leaves::<L, E>(errors@))
    }
}

} // verus!
