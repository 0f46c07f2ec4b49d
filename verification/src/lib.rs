//! Collecting, labelling and flattening several errors at once.
//!
//! An [`ErrorTree`] keeps every error of a multi-step operation together with
//! the labels that were attached to it on the way up. Flattening the tree
//! gives one [`FlatError`] per error, each with its path of labels.
pub mod flatten;
pub mod result;
pub mod tree;

pub use flatten::{FlatEntry, FlatError};
pub use result::{aggregate, FlattenResultErrors, IntoResult, LabelResult};
pub use tree::{ErrorTree, IntoErrorTree};
