use error_trees::{ErrorTree, IntoErrorTree};

#[derive(Debug, PartialEq)]
struct Error(u32);

impl<L> From<Error> for ErrorTree<L, Error> {
    fn from(e: Error) -> Self {
        Self::leaf(e)
    }
}

#[test]
fn leaf_wraps_the_error() {
    let tree: ErrorTree<&'static str, Error> = ErrorTree::leaf(Error(7));
    assert!(matches!(tree, ErrorTree::Leaf(Error(7))));
}

#[test]
fn with_label_on_a_tree_wraps_it_in_an_edge() {
    let tree: ErrorTree<&'static str, Error> = ErrorTree::Group(vec![ErrorTree::leaf(Error(1))]);
    let labelled = tree.with_label("step");
    match labelled {
        ErrorTree::Edge(label, child) => {
            assert_eq!(label, "step");
            match *child {
                ErrorTree::Group(children) => {
                    assert_eq!(children.len(), 1);
                    assert!(matches!(children[0], ErrorTree::Leaf(Error(1))));
                }
                other => panic!("unexpected: {:?}", other),
            }
        }
        other => panic!("unexpected: {:?}", other),
    }
}

#[test]
fn with_label_on_an_error_puts_a_leaf_under_the_edge() {
    let labelled: ErrorTree<&'static str, Error> = Error(3).with_label("step");
    match labelled {
        ErrorTree::Edge(label, child) => {
            assert_eq!(label, "step");
            assert!(matches!(*child, ErrorTree::Leaf(Error(3))));
        }
        other => panic!("unexpected: {:?}", other),
    }
}

#[test]
fn from_errors_makes_a_leaf_of_each_error_in_order() {
    let tree: ErrorTree<&'static str, Error> =
        ErrorTree::from_errors(vec![Error(1), Error(2), Error(3)]);
    match tree {
        ErrorTree::Group(children) => {
            assert_eq!(children.len(), 3);
            assert!(matches!(children[0], ErrorTree::Leaf(Error(1))));
            assert!(matches!(children[1], ErrorTree::Leaf(Error(2))));
            assert!(matches!(children[2], ErrorTree::Leaf(Error(3))));
        }
        other => panic!("unexpected: {:?}", other),
    }
}

#[test]
fn from_errors_of_nothing_is_an_empty_group() {
    let tree: ErrorTree<&'static str, Error> = ErrorTree::from_errors(Vec::new());
    assert!(matches!(&tree, ErrorTree::Group(children) if children.is_empty()));
    assert!(tree.flatten_tree().is_empty());
}

#[test]
fn from_trees_keeps_the_trees_in_order() {
    let tree: ErrorTree<&'static str, Error> = ErrorTree::from_trees(vec![
        ErrorTree::leaf(Error(1)).with_label("a"),
        ErrorTree::leaf(Error(2)),
    ]);
    match tree {
        ErrorTree::Group(children) => {
            assert_eq!(children.len(), 2);
            assert!(matches!(&children[0], ErrorTree::Edge(label, _) if *label == "a"));
            assert!(matches!(children[1], ErrorTree::Leaf(Error(2))));
        }
        other => panic!("unexpected: {:?}", other),
    }
}

#[test]
fn vec_of_errors_converts_into_a_group_of_leaves() {
    let tree: ErrorTree<&'static str, Error> = vec![Error(5), Error(6)].into();
    let flat = tree.flatten_tree();
    assert_eq!(flat.len(), 2);
    assert!(flat[0].path.is_empty());
    assert!(flat[1].path.is_empty());
    assert_eq!(flat[0].error, Error(5));
    assert_eq!(flat[1].error, Error(6));
}

#[test]
fn vec_of_trees_converts_into_a_group_of_them() {
    let trees: Vec<ErrorTree<&'static str, Error>> =
        vec![Error(8).with_label("x"), Error(9).with_label("y")];
    let tree: ErrorTree<&'static str, Error> = trees.into();
    let flat = tree.flatten_tree();
    assert_eq!(flat.len(), 2);
    assert_eq!(flat[0].path, vec!["x"]);
    assert_eq!(flat[0].error, Error(8));
    assert_eq!(flat[1].path, vec!["y"]);
    assert_eq!(flat[1].error, Error(9));
}
