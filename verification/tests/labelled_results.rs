use error_trees::{ErrorTree, FlatError, FlattenResultErrors, IntoErrorTree, IntoResult, LabelResult};
use itertools::Itertools;

#[derive(Debug)]
struct Error(String);

impl<L> From<Error> for ErrorTree<L, Error> {
    fn from(e: Error) -> Self {
        Self::leaf(e)
    }
}

fn faulty(error: &str) -> Result<(), Error> {
    Err(Error(error.into()))
}

#[test]
fn lib_can_build_tree_from_vec_of_results() {
    let result_1 = faulty("error1").map_err(|e| e.with_label("label1"));
    let result_2 = faulty("error2").map_err(|e| e.with_label("label2"));

    let (_, errors): (Vec<_>, Vec<_>) = vec![result_1, result_2].into_iter().partition_result();

    let tree: ErrorTree<&'static str, Error> = errors.into();
    let tree = tree.with_label("parent_label");

    let flat_errors = tree.flatten_tree();

    assert!(
        matches!(
            &flat_errors[..],
            [
                FlatError {
                    path: path1,
                    error: Error(error1),
                },
                FlatError {
                    path: path2,
                    error: Error(error2),
                },
            ]
            if path1 == &vec!["label1", "parent_label"]
            && path2 == &vec!["label2", "parent_label"]
            && error1 == "error1"
            && error2 == "error2"
        ),
        "unexpected: {:#?}",
        flat_errors
    );
}

#[test]
fn lib_can_call_into_result_from_vec_of_results() {
    let result_1 = faulty("error1").map_err(|e| e.with_label("label1"));
    let result_2 = faulty("error2").map_err(|e| e.with_label("label2"));

    let result: Result<(), ErrorTree<_, _>> = vec![result_1, result_2]
        .into_iter()
        .partition_result()
        .into_result();

    let flat_result = result.map_err(|e| e.flatten_tree());

    let flat_errors = flat_result.unwrap_err();

    assert!(
        matches!(
            &flat_errors[..],
            [
                FlatError {
                    path: path1,
                    error: Error(error1),
                },
                FlatError {
                    path: path2,
                    error: Error(error2),
                },
            ]
            if path1 == &vec!["label1"]
            && path2 == &vec!["label2"]
            && error1 == "error1"
            && error2 == "error2"
        ),
        "unexpected: {:#?}",
        flat_errors
    );
}

#[test]
fn lib_can_call_into_result_from_vec_of_errors() {
    let error1 = Error("error1".into()).with_label("label1");
    let error2 = Error("error2".into()).with_label("label2");

    let result: Result<_, ErrorTree<_, _>> = vec![error1, error2].into_result();

    let flat_result = result.map_err(|e| e.flatten_tree());

    let flat_errors = flat_result.unwrap_err();

    assert!(
        matches!(
            &flat_errors[..],
            [
                FlatError {
                    path: path1,
                    error: Error(error1),
                },
                FlatError {
                    path: path2,
                    error: Error(error2),
                },
            ]
            if path1 == &vec!["label1"]
            && path2 == &vec!["label2"]
            && error1 == "error1"
            && error2 == "error2"
        ),
        "unexpected: {:#?}",
        flat_errors
    );
}

// A function that returns an error
fn faulty_function() -> Result<(), Error> {
    Err(Error("error".into()))
}

// A function that returns more than one error
fn parent_function() -> Result<Vec<()>, ErrorTree<&'static str, Error>> {
    let result1 = faulty_function().label_error("first faulty");
    let result2 = faulty_function().label_error("second faulty");

    let result: Result<_, ErrorTree<_, _>> = vec![result1, result2]
        .into_iter()
        .partition_result::<Vec<_>, Vec<_>, _, _>()
        .into_result();
    result.label_error("parent function")
}

#[test]
fn lib_main_function() {
    let result = parent_function();

    let flat_results = result.flatten_results();
    let flat_errors: Vec<FlatError<&str, Error>> = flat_results.unwrap_err();

    assert!(
        matches!(
            &flat_errors[..],
            [
                FlatError {
                    path: path1,
                    error: Error(_),
                },
                FlatError {
                    path: path2,
                    error: Error(_),
                },
            ]
            if path1 == &vec!["first faulty", "parent function"]
            && path2 == &vec!["second faulty", "parent function"]
        ),
        "unexpected: {:#?}",
        flat_errors
    );
}
