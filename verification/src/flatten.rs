//! Flattening a tree into the list of its errors, each with its path of labels.
use vstd::prelude::*;
use crate::tree::{leaves, ErrorTree};

verus! {

/// One error of a flattened tree.
#[derive(Debug)]
pub struct FlatError<L, E> {
    /// The labels on the way from the error up to the root, nearest first.
    pub path: Vec<L>,
    /// The error.
    pub error: E,
}

/// What a [`FlatError`] stands for: a sequence of labels and an error.
#[verifier::ext_equal]
pub struct FlatEntry<L, E> {
    /// The labels on the way from the error up to the root, nearest first.
    pub path: Seq<L>,
    /// The error.
    pub error: E,
}

impl<L, E> View for FlatError<L, E> {
    type V = FlatEntry<L, E>;

    open spec fn view(&self) -> FlatEntry<L, E> {
        FlatEntry { path: self.path@, error: self.error }
    }
}

/// The entries of a subtree as seen from above an edge with `label`: each
/// path gets `label` at its far end.
pub open spec fn under_label<L, E>(entries: Seq<FlatEntry<L, E>>, label: L) -> Seq<
    FlatEntry<L, E>,
> {
    entries.map_values(
        |entry: FlatEntry<L, E>| FlatEntry { path: entry.path.push(label), error: entry.error },
    )
}

impl<L, E> ErrorTree<L, E> {
    /// The errors of the tree from left to right, each with its path of labels.
    pub open spec fn flattened(self) -> Seq<FlatEntry<L, E>>
        decreases self,
    {
        match self {
            ErrorTree::Leaf(error) => seq![FlatEntry { path: Seq::empty(), error }],
            ErrorTree::Edge(label, child) => under_label(child.flattened(), label),
            ErrorTree::Group(children) => Self::flattened_all(children@),
        }
    }

    /// The entries of several trees, one tree after the other.
    pub open spec fn flattened_all(trees: Seq<Self>) -> Seq<FlatEntry<L, E>>
        decreases trees,
    {
        if trees.len() == 0 {
            Seq::empty()
        } else {
            Self::flattened_all(trees.drop_last()) + trees.last().flattened()
        }
    }
}

/// `path` holds a clone of each label of `model`, in the same order.
pub open spec fn path_cloned<L: Clone>(model: Seq<L>, path: Seq<L>) -> bool {
    &&& path.len() == model.len()
    &&& forall|j: int| 0 <= j < model.len() ==> cloned::<L>(model[j], #[trigger] path[j])
}

/// `flat` holds the errors of `model`, in the same order, each with clones of
/// its labels.
pub open spec fn flat_cloned<L: Clone, E>(
    model: Seq<FlatEntry<L, E>>,
    flat: Seq<FlatError<L, E>>,
) -> bool {
    &&& flat.len() == model.len()
    &&& forall|i: int|
        0 <= i < model.len() ==> {
            &&& (#[trigger] flat[i]).error == model[i].error
            &&& path_cloned(model[i].path, flat[i].path@)
        }
}

/// What a list of entries that borrow from a tree stands for.
pub open spec fn borrowed_entries<'a, L, E>(flat: Seq<FlatError<&'a L, &'a E>>) -> Seq<FlatEntry<L, E>> {
    flat.map_values(
        |entry: FlatError<&'a L, &'a E>|
            FlatEntry { path: entry.path@.map_values(|label: &'a L| *label), error: *entry.error },
    )
}

impl<L: Clone, E> ErrorTree<L, E> {
    /// Flattens the tree into the list of its errors, from left to right.
    ///
    /// Each error comes with the labels of the edges above it, nearest first.
    /// A label above several errors is cloned for each of them.
    pub fn flatten_tree(self) -> (flat: Vec<FlatError<L, E>>)
        ensures
            flat_cloned(self.flattened(), flat@),
        decreases self,
    {
        match self {
            ErrorTree::Leaf(error) => vec![FlatError { path: Vec::new(), error }],
            ErrorTree::Edge(label, child) => {
                let inner = child.flatten_tree();
                let ghost model = child.flattened();
                let ghost inner_seq = inner@;
                let mut flat: Vec<FlatError<L, E>> = Vec::new();
                for entry in it: inner.into_iter()
                    invariant
                        it.seq() == inner_seq,
                        flat_cloned(model, inner_seq),
                        flat_cloned(under_label(model, label).take(it.index()), flat@),
                {
                    let FlatError { path, error } = entry;
                    let mut path = path;
                    path.push(label.clone());
                    flat.push(FlatError { path, error });
                }
                assert(under_label(model, label).take(inner_seq.len() as int) == under_label(
                    model,
                    label,
                ));
                flat
            },
            ErrorTree::Group(children) => Self::flatten_all(children),
        }
    }

    /// Flattens each tree in turn and puts the lists one after the other.
    fn flatten_all(trees: Vec<Self>) -> (flat: Vec<FlatError<L, E>>)
        ensures
            flat_cloned(Self::flattened_all(trees@), flat@),
        decreases trees,
    {
        let ghost all = trees@;
        let mut flat: Vec<FlatError<L, E>> = Vec::new();
        for tree in it: trees.into_iter()
            invariant
                it.seq() == all,
                all == trees@,
                flat_cloned(Self::flattened_all(all.take(it.index())), flat@),
        {
            let ghost done = all.take(it.index());
            let ghost before = flat@;
            let mut part = tree.flatten_tree();
            proof {
                assert(all.take(it.index() + 1).drop_last() == done);
                lemma_flat_cloned_concat(
                    Self::flattened_all(done),
                    before,
                    tree.flattened(),
                    part@,
                );
            }
            flat.append(&mut part);
        }
        assert(all.take(all.len() as int) == all);
        flat
    }
}

impl<L, E> ErrorTree<L, E> {
    /// Flattens the tree without taking it: the entries borrow their labels
    /// and errors from the tree. Order and paths are those of
    /// [`ErrorTree::flatten_tree`].
    pub fn flatten_ref<'a>(&'a self) -> (flat: Vec<FlatError<&'a L, &'a E>>)
        ensures
            borrowed_entries(flat@) == self.flattened(),
        decreases self,
    {
        match self {
            ErrorTree::Leaf(error) => {
                let flat = vec![FlatError { path: Vec::new(), error }];
                assert(borrowed_entries(flat@) =~~= self.flattened());
                flat
            },
            ErrorTree::Edge(label, child) => {
                let inner = child.flatten_ref();
                let ghost inner_seq = inner@;
                let ghost model = under_label(borrowed_entries(inner_seq), *label);
                let mut flat: Vec<FlatError<&'a L, &'a E>> = Vec::new();
                for entry in it: inner.into_iter()
                    invariant
                        it.seq() == inner_seq,
                        model == under_label(borrowed_entries(inner_seq), *label),
                        borrowed_entries(flat@) == model.take(it.index()),
                {
                    let ghost before = flat@;
                    let FlatError { path, error } = entry;
                    let mut path = path;
                    path.push(label);
                    flat.push(FlatError { path, error });
                    assert(borrowed_entries(flat@) =~~= model.take(it.index() + 1)) by {
                        assert(flat@ == before + seq![flat@.last()]);
                        lemma_borrowed_entries_concat(before, seq![flat@.last()]);
                    }
                }
                assert(model.take(inner_seq.len() as int) == model);
                flat
            },
            ErrorTree::Group(children) => Self::flatten_all_ref(children),
        }
    }

    /// Flattens each tree in turn, without taking it, and puts the lists one
    /// after the other.
    fn flatten_all_ref<'a>(trees: &'a Vec<Self>) -> (flat: Vec<FlatError<&'a L, &'a E>>)
        ensures
            borrowed_entries(flat@) == Self::flattened_all(trees@),
        decreases trees,
    {
        let mut flat: Vec<FlatError<&'a L, &'a E>> = Vec::new();
        let mut done: usize = 0;
        while done < trees.len()
            invariant
                done <= trees.len(),
                borrowed_entries(flat@) == Self::flattened_all(trees@.take(done as int)),
            decreases trees.len() - done,
        {
            let ghost before = flat@;
            let mut part = trees[done].flatten_ref();
            proof {
                assert(trees@.take(done + 1).drop_last() == trees@.take(done as int));
                lemma_borrowed_entries_concat(before, part@);
            }
            flat.append(&mut part);
            done = done + 1;
        }
        assert(trees@.take(trees.len() as int) == trees@);
        flat
    }
}

/// What two lists of borrowing entries stand for, one after the other.
proof fn lemma_borrowed_entries_concat<'a, L, E>(
    first: Seq<FlatError<&'a L, &'a E>>,
    second: Seq<FlatError<&'a L, &'a E>>,
)
    ensures
        borrowed_entries(first + second) == borrowed_entries(first) + borrowed_entries(second),
{
    assert(borrowed_entries(first + second) =~= borrowed_entries(first) + borrowed_entries(second));
}

/// Clones stay clones when two flattened lists are put one after the other.
proof fn lemma_flat_cloned_concat<L: Clone, E>(
    model_a: Seq<FlatEntry<L, E>>,
    flat_a: Seq<FlatError<L, E>>,
    model_b: Seq<FlatEntry<L, E>>,
    flat_b: Seq<FlatError<L, E>>,
)
    requires
        flat_cloned(model_a, flat_a),
        flat_cloned(model_b, flat_b),
    ensures
        flat_cloned(model_a + model_b, flat_a + flat_b),
{
    let model = model_a + model_b;
    let flat = flat_a + flat_b;
    assert forall|i: int| 0 <= i < model.len() implies {
        &&& (#[trigger] flat[i]).error == model[i].error
        &&& path_cloned(model[i].path, flat[i].path@)
    } by {
        if i < model_a.len() {
            assert(flat[i] == flat_a[i]);
        } else {
            assert(flat[i] == flat_b[i - model_a.len()]);
        }
    }
}

/// Flattening a single leaf gives exactly one entry: the error of the leaf,
/// with no label on its path.
pub proof fn lemma_flatten_leaf<L, E>(error: E)
    ensures
        ErrorTree::<L, E>::Leaf(error).flattened() == seq![
            FlatEntry { path: Seq::<L>::empty(), error },
        ],
{
}

/// Flattening under an edge gives as many entries as flattening the child,
/// with the same errors in the same order. Each path is the path in the child
/// with the label of the edge at its far end, so that the label nearest to
/// the error stays first.
pub proof fn lemma_flatten_edge<L, E>(label: L, child: ErrorTree<L, E>)
    ensures
        ErrorTree::Edge(label, Box::new(child)).flattened().len() == child.flattened().len(),
        forall|i: int|
            #![trigger ErrorTree::Edge(label, Box::new(child)).flattened()[i]]
            0 <= i < child.flattened().len() ==> {
                let entry = ErrorTree::Edge(label, Box::new(child)).flattened()[i];
                &&& entry.error == child.flattened()[i].error
                &&& entry.path == child.flattened()[i].path.push(label)
            },
{
}

/// Where every label below an edge is the label of the edge itself, the far
/// end of a path cannot be told from its front: each path is then the path
/// in the child with the label put in front.
pub proof fn lemma_flatten_edge_of_equal_labels<L, E>(label: L, child: ErrorTree<L, E>)
    requires
        forall|i: int, j: int|
            0 <= i < child.flattened().len() && 0 <= j < child.flattened()[i].path.len()
                ==> #[trigger] child.flattened()[i].path[j] == label,
    ensures
        ErrorTree::Edge(label, Box::new(child)).flattened().len() == child.flattened().len(),
        forall|i: int|
            #![trigger ErrorTree::Edge(label, Box::new(child)).flattened()[i]]
            0 <= i < child.flattened().len() ==> {
                let entry = ErrorTree::Edge(label, Box::new(child)).flattened()[i];
                &&& entry.error == child.flattened()[i].error
                &&& entry.path == seq![label] + child.flattened()[i].path
            },
{
    let whole = ErrorTree::Edge(label, Box::new(child)).flattened();
    assert forall|i: int| 0 <= i < child.flattened().len() implies (#[trigger] whole[i]).path
        == seq![label] + child.flattened()[i].path by {
        assert(whole[i].path =~= seq![label] + child.flattened()[i].path);
    }
}

/// The entries of several trees are the entries of each tree, one tree after
/// the other in the order of the trees.
pub proof fn lemma_flattened_all_concatenates<L, E>(trees: Seq<ErrorTree<L, E>>)
    ensures
        ErrorTree::flattened_all(trees) == trees.map_values(
            |tree: ErrorTree<L, E>| tree.flattened(),
        ).flatten(),
    decreases trees.len(),
{
    if trees.len() > 0 {
        let each = trees.map_values(|tree: ErrorTree<L, E>| tree.flattened());
        let front = trees.drop_last();
        let each_front = front.map_values(|tree: ErrorTree<L, E>| tree.flattened());
        lemma_flattened_all_concatenates(front);
        assert(each =~= each_front.push(trees.last().flattened()));
        each_front.lemma_flatten_push(trees.last().flattened());
    }
}

/// Flattening a group gives the entries of each child, one child after the
/// other in the order of the children. An empty group has no entries.
pub proof fn lemma_flatten_group<L, E>(children: Vec<ErrorTree<L, E>>)
    ensures
        ErrorTree::Group(children).flattened() == children@.map_values(
            |tree: ErrorTree<L, E>| tree.flattened(),
        ).flatten(),
        children@.len() == 0 ==> ErrorTree::Group(children).flattened() == Seq::<
            FlatEntry<L, E>,
        >::empty(),
{
    lemma_flattened_all_concatenates(children@);
}

/// Leaves side by side flatten to one entry for each leaf, in the same
/// order, with the error of the leaf and no label on its path.
pub proof fn lemma_flatten_leaves<L, E>(errors: Seq<E>)
    ensures
        ErrorTree::flattened_all(leaves::<L, E>(errors)) == errors.map_values(
            |error: E| FlatEntry { path: Seq::<L>::empty(), error },
        ),
    decreases errors.len(),
{
    let trees = leaves::<L, E>(errors);
    if errors.len() > 0 {
        lemma_flatten_leaves::<L, E>(errors.drop_last());
        assert(trees.drop_last() == leaves::<L, E>(errors.drop_last()));
        assert(trees.last() == ErrorTree::<L, E>::Leaf(errors.last()));
        assert(trees.last().flattened().len() == 1);
        assert(ErrorTree::flattened_all(trees) =~= errors.map_values(
            |error: E| FlatEntry { path: Seq::<L>::empty(), error },
        ));
    }
}

/// Flattening a borrowed tree twice gives the same list both times: as many
/// entries, and in each place the same error with the same path.
pub proof fn lemma_flatten_ref_repeatable<'a, L, E>(
    tree: &'a ErrorTree<L, E>,
    first: Vec<FlatError<&'a L, &'a E>>,
    second: Vec<FlatError<&'a L, &'a E>>,
)
    requires
        call_ensures(ErrorTree::<L, E>::flatten_ref, (tree,), first),
        call_ensures(ErrorTree::<L, E>::flatten_ref, (tree,), second),
    ensures
        first@.len() == second@.len(),
        forall|i: int| 0 <= i < first@.len() ==> (#[trigger] first@[i])@ == second@[i]@,
{
    assert(borrowed_entries(first@) == borrowed_entries(second@));
    assert(first@.len() == borrowed_entries(first@).len() && second@.len() == borrowed_entries(second@).len());
    assert forall|i: int| 0 <= i < first@.len() implies (#[trigger] first@[i])@ == second@[i]@ by {
        let a = first@[i].path@;
        let b = second@[i].path@;
        let deref = |label: &'a L| *label;
        assert(borrowed_entries(first@)[i] == borrowed_entries(second@)[i]);
        assert(a.map_values(deref) == b.map_values(deref));
        assert(a.len() == b.len());
        assert forall|j: int| 0 <= j < a.len() implies a[j] == b[j] by {
            assert(a.map_values(deref)[j] == b.map_values(deref)[j]);
        }
        assert(a =~= b);
    }
}

/// Where cloning a label gives back an equal label, the entries that
/// [`ErrorTree::flatten_tree`] returns stand for exactly the entries of the
/// tree.
pub proof fn lemma_equal_clones_flatten_exactly<L: Clone, E>(
    model: Seq<FlatEntry<L, E>>,
    flat: Seq<FlatError<L, E>>,
)
    requires
        flat_cloned(model, flat),
        forall|label: L, copy: L| cloned::<L>(label, copy) ==> label == copy,
    ensures
        flat.map_values(|entry: FlatError<L, E>| entry@) == model,
{
    let views = flat.map_values(|entry: FlatError<L, E>| entry@);
    assert forall|i: int| 0 <= i < model.len() implies #[trigger] views[i] == model[i] by {
        assert(path_cloned(model[i].path, flat[i].path@));
        assert(views[i].path =~= model[i].path);
    }
    assert(views =~= model);
}

} // verus!
