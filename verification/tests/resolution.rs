use pckr::config::{CollectionConfig, TargetConfig};
use pckr::errors::Error;
use pckr::resolve::{create_all_options, get_collection_and_target, interactive_step, DescentStep};

fn target(id: &str) -> TargetConfig {
    TargetConfig {
        name: None,
        id: id.to_string(),
        function_id: "f".to_string(),
        function_args: Vec::new(),
        run_cmd: "echo {{arg}}".to_string(),
        cwd: None,
        consts: None,
    }
}

fn collection(id: &str, targets: Vec<TargetConfig>, children: Option<Vec<CollectionConfig>>) -> CollectionConfig {
    CollectionConfig {
        id: id.to_string(),
        consts: None,
        functions: Vec::new(),
        targets,
        collections: children,
    }
}

fn sample_tree() -> CollectionConfig {
    let b = collection("b", vec![target("t")], None);
    let a = collection("a", vec![target("mid")], Some(vec![b]));
    collection("root", vec![target("top")], Some(vec![a]))
}

#[test]
fn single_segment_resolves_in_current_collection() {
    let root = sample_tree();
    let (col, t) = get_collection_and_target(&root, "top").unwrap();
    assert_eq!(col.id, "root");
    assert_eq!(t.id, "top");
}

#[test]
fn deep_path_walks_children_and_reproduces_ids() {
    let root = sample_tree();
    let (col, t) = get_collection_and_target(&root, "a/b/t").unwrap();
    assert_eq!(col.id, "b");
    assert_eq!(t.id, "t");
}

#[test]
fn two_segment_path_resolves_in_child() {
    let root = sample_tree();
    let (col, t) = get_collection_and_target(&root, "a/mid").unwrap();
    assert_eq!(col.id, "a");
    assert_eq!(t.id, "mid");
}

#[test]
fn missing_intermediate_collection_is_fatal() {
    let root = sample_tree();
    let err = get_collection_and_target(&root, "zz/t").unwrap_err();
    assert_eq!(err, Error::CollectionNotFound { id: "zz".to_string() });
}

#[test]
fn missing_collection_under_leafless_node_is_fatal() {
    let root = sample_tree();
    let err = get_collection_and_target(&root, "a/b/c/t").unwrap_err();
    assert_eq!(err, Error::CollectionNotFound { id: "c".to_string() });
}

#[test]
fn missing_target_at_leaf_is_fatal() {
    let root = sample_tree();
    let err = get_collection_and_target(&root, "a/b/nope").unwrap_err();
    assert_eq!(err, Error::TargetNotFound { id: "nope".to_string() });
}

#[test]
fn empty_path_names_no_target() {
    let root = sample_tree();
    let err = get_collection_and_target(&root, "").unwrap_err();
    assert_eq!(err, Error::TargetNotFound { id: "".to_string() });
}

#[test]
fn collection_error_message_names_the_id() {
    let err = Error::CollectionNotFound { id: "zz".to_string() };
    assert_eq!(err.message(), "expected collection with id zz, but found none".to_string());
}

#[test]
fn options_list_targets_then_slashed_children() {
    let root = sample_tree();
    let opts = create_all_options(&root, "");
    assert_eq!(opts, vec!["top".to_string(), "a/".to_string()]);
}

#[test]
fn options_prefix_targets_with_path() {
    let root = sample_tree();
    let opts = create_all_options(&root, "pre");
    assert_eq!(opts, vec!["pre/top".to_string(), "a/".to_string()]);
}

#[test]
fn interactive_choice_with_slash_descends() {
    let root = sample_tree();
    match interactive_step(&root, "a/").unwrap() {
        DescentStep::Descend(c) => assert_eq!(c.id, "a"),
        DescentStep::Resolve(_, _) => panic!("expected a descent"),
    }
}

#[test]
fn interactive_choice_without_slash_resolves() {
    let root = sample_tree();
    match interactive_step(&root, "top").unwrap() {
        DescentStep::Resolve(col, t) => {
            assert_eq!(col.id, "root");
            assert_eq!(t.id, "top");
        },
        DescentStep::Descend(_) => panic!("expected a resolution"),
    }
}

#[test]
fn interactive_choice_of_unknown_child_fails() {
    let root = sample_tree();
    let err = interactive_step(&root, "zz/").unwrap_err();
    assert_eq!(err, Error::CollectionNotFound { id: "zz".to_string() });
}
