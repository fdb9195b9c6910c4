use pckr::config::{CollectionConfig, Config, TargetConfig};
use pckr::consts::{apply_template, build_all_consts, build_consts, replace_consts, ConstMap};
use pckr::errors::Error;

fn const_map(pairs: &[(&str, &str)]) -> ConstMap {
    let mut m = ConstMap::new();
    for (k, v) in pairs {
        m.insert(k.to_string(), v.to_string());
    }
    m
}

fn collection_with_consts(consts: Option<ConstMap>) -> CollectionConfig {
    CollectionConfig {
        id: "c".to_string(),
        consts,
        functions: Vec::new(),
        targets: Vec::new(),
        collections: None,
    }
}

fn target_with_consts(consts: Option<ConstMap>) -> TargetConfig {
    TargetConfig {
        name: None,
        id: "t".to_string(),
        function_id: "f".to_string(),
        function_args: Vec::new(),
        run_cmd: "echo".to_string(),
        cwd: None,
        consts,
    }
}

#[test]
fn insert_overwrites_value_and_keeps_one_entry() {
    let mut m = ConstMap::new();
    m.insert("k".to_string(), "one".to_string());
    m.insert("k".to_string(), "two".to_string());
    assert_eq!(m.len(), 1);
    assert_eq!(m.get("k"), Some(&"two".to_string()));
    assert_eq!(m.get("absent"), None);
}

#[test]
fn target_scope_overrides_collection_scope() {
    let col = collection_with_consts(Some(const_map(&[("shared", "from-col"), ("only-col", "c")])));
    let tgt = target_with_consts(Some(const_map(&[("shared", "from-tgt"), ("only-tgt", "t")])));
    let merged = build_consts(&col, &tgt);
    assert_eq!(merged.get("shared"), Some(&"from-tgt".to_string()));
    assert_eq!(merged.get("only-col"), Some(&"c".to_string()));
    assert_eq!(merged.get("only-tgt"), Some(&"t".to_string()));
    assert_eq!(merged.get("other"), None);
}

#[test]
fn absent_scopes_merge_to_nothing() {
    let merged = build_consts(&collection_with_consts(None), &target_with_consts(None));
    assert_eq!(merged.len(), 0);
}

#[test]
fn global_consts_are_merged_first() {
    let config = Config {
        functions: Vec::new(),
        consts: Some(const_map(&[("shared", "global"), ("only-global", "g")])),
        root_collection: collection_with_consts(None),
    };
    let col = collection_with_consts(Some(const_map(&[("shared", "col")])));
    let tgt = target_with_consts(None);
    let merged = build_all_consts(&config, &col, &tgt);
    assert_eq!(merged.get("shared"), Some(&"col".to_string()));
    assert_eq!(merged.get("only-global"), Some(&"g".to_string()));
}

#[test]
fn same_key_in_all_three_scopes_takes_the_target_value() {
    let config = Config {
        functions: Vec::new(),
        consts: Some(const_map(&[("k", "global")])),
        root_collection: collection_with_consts(None),
    };
    let col = collection_with_consts(Some(const_map(&[("k", "col")])));
    let tgt = target_with_consts(Some(const_map(&[("k", "tgt")])));
    let merged = build_all_consts(&config, &col, &tgt);
    assert_eq!(merged.get("k"), Some(&"tgt".to_string()));
    assert_eq!(merged.len(), 1);
}

#[test]
fn expansion_error_message_names_the_text() {
    let err = Error::ExpansionFailed { text: "$X".to_string() };
    assert_eq!(err.message(), "failed to expand $X".to_string());
}

#[test]
fn apply_template_replaces_every_occurrence() {
    let m = const_map(&[("name", "world"), ("greet", "hello")]);
    let out = apply_template("{{greet}} {{name}}, {{name}}!", &m);
    assert_eq!(out, "hello world, world!".to_string());
}

#[test]
fn apply_template_is_single_pass() {
    let m = const_map(&[("b", "deep"), ("a", "{{b}}")]);
    let out = apply_template("{{a}}", &m);
    assert_eq!(out, "{{b}}".to_string());
}

#[test]
fn template_without_matching_keys_is_a_fixed_point() {
    let m = const_map(&[("k", "v")]);
    let once = apply_template("plain {{other}} text", &m);
    assert_eq!(once, "plain {{other}} text".to_string());
    let twice = apply_template(&once, &m);
    assert_eq!(twice, once);
}

#[test]
fn replace_consts_substitutes_then_expands() {
    let m = const_map(&[("k", "value")]);
    let out = replace_consts("run {{k}} now", &m).unwrap();
    assert_eq!(out, "run value now".to_string());
}

#[test]
fn replace_consts_reports_failed_expansion() {
    let m = ConstMap::new();
    let err = replace_consts("${PCKR_SURELY_UNSET_VARIABLE}", &m).unwrap_err();
    assert_eq!(
        err,
        Error::ExpansionFailed { text: "${PCKR_SURELY_UNSET_VARIABLE}".to_string() }
    );
}
