//! Results whose error is a tree: aggregating a batch, labelling, flattening.
use vstd::prelude::*;
use itertools::Itertools;
use crate::flatten::{flat_cloned, lemma_flatten_leaves, FlatEntry, FlatError};
use crate::tree::{ErrorTree, IntoErrorTree};

verus! {

/// Turning the successes and the failures of a batch into one result.
pub trait IntoResult<T, E1, E2> {
    /// `Ok` if nothing failed, else `Err` with all the failures in one value.
    fn into_result(self) -> (result: Result<T, E2>);
}

/// The successes come back as they are if there is no failure; else the
/// failures are converted together.
impl<T, E1, E2> IntoResult<T, E1, E2> for (T, Vec<E1>) where Vec<E1>: Into<E2> {
    fn into_result(self) -> (result: Result<T, E2>)
        ensures
            self.1@.len() == 0 ==> result == Ok::<T, E2>(self.0),
            self.1@.len() > 0 ==> result is Err && call_ensures(
                <Vec<E1> as Into<E2>>::into,
                (self.1,),
                result->Err_0,
            ),
    {
        let (oks, errs) = self;
        if errs.is_empty() {
            Ok(oks)
        } else {
            Err(errs.into())
        }
    }
}

/// Nothing comes back if there is no failure; else the failures are converted
/// together.
impl<E1, E2> IntoResult<(), E1, E2> for Vec<E1> where Vec<E1>: Into<E2> {
    fn into_result(self) -> (result: Result<(), E2>)
        ensures
            self@.len() == 0 ==> result == Ok::<(), E2>(()),
            self@.len() > 0 ==> result is Err && call_ensures(
                <Vec<E1> as Into<E2>>::into,
                (self,),
                result->Err_0,
            ),
    {
        if self.is_empty() {
            Ok(())
        } else {
            Err(self.into())
        }
    }
}

/// Putting a label on the error of a result.
pub trait LabelResult<T, L, E> {
    /// Leaves a success as it is and wraps a failure in an edge that carries
    /// `label`.
    fn label_error(self, label: L) -> (result: Result<T, ErrorTree<L, E>>)
        ensures
            result matches Err(tree) ==> tree is Edge && tree->Edge_0 == label,
    ;
}

/// A bare error becomes a leaf under the label.
///
/// The bound is not called: it marks `E` as an error type, as it does for
/// [`IntoErrorTree`].
impl<T, L, E> LabelResult<T, L, E> for Result<T, E> where ErrorTree<L, E>: From<E> {
    fn label_error(self, label: L) -> (result: Result<T, ErrorTree<L, E>>)
        ensures
            result == (match self {
                Ok(value) => Ok::<T, ErrorTree<L, E>>(value),
                Err(error) => Err(ErrorTree::Edge(label, Box::new(ErrorTree::Leaf(error)))),
            }),
    {
        match self {
            Ok(value) => Ok(value),
            Err(error) => Err(error.with_label(label)),
        }
    }
}

/// A tree goes under the label as it is.
impl<T, L, E> LabelResult<T, L, E> for Result<T, ErrorTree<L, E>> {
    fn label_error(self, label: L) -> (result: Result<T, ErrorTree<L, E>>)
        ensures
            result == (match self {
                Ok(value) => Ok::<T, ErrorTree<L, E>>(value),
                Err(tree) => Err(ErrorTree::Edge(label, Box::new(tree))),
            }),
    {
        match self {
            Ok(value) => Ok(value),
            Err(tree) => Err(tree.with_label(label)),
        }
    }
}

/// Flattening the tree of a failed result.
pub trait FlattenResultErrors<T, L, E> {
    /// Leaves a success as it is and flattens the tree of a failure.
    fn flatten_results(self) -> (result: Result<T, Vec<FlatError<L, E>>>);
}

impl<T, L, E> FlattenResultErrors<T, L, E> for Result<T, ErrorTree<L, E>> where L: Clone {
    fn flatten_results(self) -> (result: Result<T, Vec<FlatError<L, E>>>)
        ensures
            (match self {
                Ok(value) => result == Ok::<T, Vec<FlatError<L, E>>>(value),
                Err(tree) => result is Err && flat_cloned(tree.flattened(), result->Err_0@),
            }),
    {
        match self {
            Ok(value) => Ok(value),
            Err(tree) => Err(tree.flatten_tree()),
        }
    }
}

/// The values of the successes of a batch, in the order of the batch.
pub open spec fn successes<T, E>(batch: Seq<Result<T, E>>) -> Seq<T>
    decreases batch.len(),
{
    if batch.len() == 0 {
        Seq::empty()
    } else {
        match batch.last() {
            Ok(value) => successes(batch.drop_last()).push(value),
            Err(_) => successes(batch.drop_last()),
        }
    }
}

/// The errors of the failures of a batch, in the order of the batch.
pub open spec fn failures<T, E>(batch: Seq<Result<T, E>>) -> Seq<E>
    decreases batch.len(),
{
    if batch.len() == 0 {
        Seq::empty()
    } else {
        match batch.last() {
            Ok(_) => failures(batch.drop_last()),
            Err(error) => failures(batch.drop_last()).push(error),
        }
    }
}

/// Calls `Itertools::partition_result` of the crate itertools on the owning
/// iterator of `batch`, collecting both sides into vectors.
///
/// Not proved: that the first vector holds the values of the `Ok` items and
/// the second the errors of the `Err` items, each in the order of `batch`.
#[verifier::external_body]
fn partition_results<T, E>(batch: Vec<Result<T, E>>) -> (parts: (Vec<T>, Vec<E>))
    ensures
        parts.0@ == successes(batch@),
        parts.1@ == failures(batch@),
{
    batch.into_iter().partition_result()
}

/// Aggregates a batch of outcomes: the values of all of them, in the order
/// of the batch, if none failed; else all the failures, in the order of the
/// batch, converted together.
///
/// With a tree as the error of the result, bare errors become a group of
/// leaves and trees become a group of those trees.
pub fn aggregate<T, E1, E2>(batch: Vec<Result<T, E1>>) -> (result: Result<Vec<T>, E2>) where
    Vec<E1>: Into<E2>,
    ensures
        failures(batch@).len() == 0 ==> result is Ok && result->Ok_0@ == successes(batch@),
        failures(batch@).len() > 0 ==> result is Err && exists|errors: Vec<E1>|
            errors@ == failures(batch@) && call_ensures(
                <Vec<E1> as Into<E2>>::into,
                (errors,),
                result->Err_0,
            ),
{
    let parts = partition_results(batch);
    parts.into_result()
}

/// A batch without a failure has no failures, and its successes are its
/// values one for one, in the order of the batch.
pub proof fn lemma_partition_of_successes<T, E>(batch: Seq<Result<T, E>>)
    requires
        forall|i: int| 0 <= i < batch.len() ==> batch[i] is Ok,
    ensures
        failures(batch).len() == 0,
        successes(batch) == batch.map_values(|outcome: Result<T, E>| outcome->Ok_0),
    decreases batch.len(),
{
    if batch.len() > 0 {
        lemma_partition_of_successes(batch.drop_last());
        assert(batch.last() is Ok);
    }
}

/// A batch in which some item failed has at least one failure.
pub proof fn lemma_failure_is_kept<T, E>(batch: Seq<Result<T, E>>, at: int)
    requires
        0 <= at < batch.len(),
        batch[at] is Err,
    ensures
        failures(batch).len() > 0,
    decreases batch.len(),
{
    if at < batch.len() - 1 {
        lemma_failure_is_kept(batch.drop_last(), at);
    }
}

/// Aggregating a batch in which nothing failed returns `Ok` with the values
/// of the batch, in the order of the batch.
pub proof fn lemma_aggregate_of_successes<T, E1, E2>(
    batch: Vec<Result<T, E1>>,
    result: Result<Vec<T>, E2>,
) where Vec<E1>: Into<E2>
    requires
        call_ensures(aggregate::<T, E1, E2>, (batch,), result),
        forall|i: int| 0 <= i < batch@.len() ==> batch@[i] is Ok,
    ensures
        result is Ok,
        result->Ok_0@ == batch@.map_values(|outcome: Result<T, E1>| outcome->Ok_0),
{
    lemma_partition_of_successes(batch@);
}

/// Aggregating a batch of bare errors in which something failed returns
/// `Err` with a tree that flattens to one entry for each failure, in the
/// order of the batch, each with its error and with no label on its path.
pub proof fn lemma_aggregate_of_failures<T, L, E>(
    batch: Vec<Result<T, E>>,
    result: Result<Vec<T>, ErrorTree<L, E>>,
) where E: IntoErrorTree<L, E>
    requires
        call_ensures(aggregate::<T, E, ErrorTree<L, E>>, (batch,), result),
        exists|at: int| 0 <= at < batch@.len() && #[trigger] batch@[at] is Err,
    ensures
        result is Err,
        result->Err_0.flattened().len() == failures(batch@).len(),
        forall|i: int|
            0 <= i < failures(batch@).len() ==> #[trigger] result->Err_0.flattened()[i] == (
            FlatEntry { path: Seq::<L>::empty(), error: failures(batch@)[i] }),
{
    let at = choose|at: int| 0 <= at < batch@.len() && #[trigger] batch@[at] is Err;
    lemma_failure_is_kept(batch@, at);
    lemma_flatten_leaves::<L, E>(failures(batch@));
    assert(result->Err_0.flattened() == ErrorTree::flattened_all(result->Err_0->Group_0@));
}

} // verus!
