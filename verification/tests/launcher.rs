use pckr::config::{default_config, initial_functions, CollectionConfig, Config, TargetConfig};
use pckr::consts::{build_all_consts, replace_consts};
use pckr::driver::{build_function_args, insert_selected_arg, Phase};
use pckr::errors::Error;
use pckr::options::{arg_for_option, find_function};
use pckr::replace_all;

#[test]
fn end_to_end_listing_selection_and_run_command() {
    let functions = vec![pckr::config::Function {
        id: "f".to_string(),
        arg_descriptions: Vec::new(),
        list_cmd: "echo X1\necho X2".to_string(),
        select_option_regex: None,
        select_arg_regex: None,
    }];
    let target = TargetConfig {
        name: None,
        id: "t".to_string(),
        function_id: "f".to_string(),
        function_args: Vec::new(),
        run_cmd: "echo {{arg}}".to_string(),
        cwd: None,
        consts: None,
    };
    let root = CollectionConfig {
        id: "root".to_string(),
        consts: None,
        functions: Vec::new(),
        targets: vec![target],
        collections: None,
    };
    let config = Config { functions, consts: None, root_collection: root };

    let (col, tgt) = pckr::resolve::get_collection_and_target(&config.root_collection, "t").unwrap();
    let f = find_function(&config.functions, &tgt.function_id).unwrap();
    let mut consts = build_all_consts(&config, col, tgt);
    let args = build_function_args(tgt, &consts).unwrap();
    assert!(args.is_empty());
    let command = f.build_command(&args);
    assert_eq!(command, "echo X1\necho X2".to_string());

    // The shell would print one X per line; parse that output.
    let sel = f.create_selection_input("X1\nX2").unwrap();
    assert_eq!(sel.options, vec!["X1".to_string(), "X2".to_string()]);
    assert_eq!(sel.args, vec!["X1".to_string(), "X2".to_string()]);

    let chosen = arg_for_option(&sel, "X2").unwrap().clone();
    insert_selected_arg(&mut consts, chosen);
    let run_cmd = replace_consts(&tgt.run_cmd, &consts).unwrap();
    assert_eq!(run_cmd, "echo X2".to_string());
}

#[test]
fn unknown_function_id_is_fatal_before_any_command() {
    let functions = vec![pckr::config::Function {
        id: "known".to_string(),
        arg_descriptions: Vec::new(),
        list_cmd: "echo".to_string(),
        select_option_regex: None,
        select_arg_regex: None,
    }];
    let err = find_function(&functions, "ghost").unwrap_err();
    assert_eq!(err, Error::UnknownFunctionId { id: "ghost".to_string() });
    assert_eq!(err.message(), "unknown function id ghost".to_string());
}

#[test]
fn function_args_get_consts_substituted() {
    let target = TargetConfig {
        name: None,
        id: "t".to_string(),
        function_id: "f".to_string(),
        function_args: vec!["{{root}}".to_string(), ".log".to_string()],
        run_cmd: "echo".to_string(),
        cwd: None,
        consts: None,
    };
    let mut consts = pckr::consts::ConstMap::new();
    consts.insert("root".to_string(), "/tmp".to_string());
    let args = build_function_args(&target, &consts).unwrap();
    assert_eq!(args, vec!["/tmp".to_string(), ".log".to_string()]);
}

#[test]
fn phases_advance_linearly_and_absorb_failure() {
    let p = Phase::Idle;
    let p = p.advance(true);
    assert_eq!(p, Phase::ResolvingTarget);
    let p = p.advance(true);
    assert_eq!(p, Phase::BuildingConsts);
    let p = p.advance(true);
    assert_eq!(p, Phase::RunningFunction);
    let p = p.advance(true);
    assert_eq!(p, Phase::AwaitingSelection);
    let p = p.advance(true);
    assert_eq!(p, Phase::BuildingRunCommand);
    let p = p.advance(true);
    assert_eq!(p, Phase::Spawning);
    let p = p.advance(true);
    assert_eq!(p, Phase::Done);
    assert_eq!(p.advance(false), Phase::Done);

    let failed = Phase::RunningFunction.advance(false);
    assert_eq!(failed, Phase::Failed);
    assert_eq!(failed.advance(true), Phase::Failed);
}

#[test]
fn initial_functions_carry_the_builtin_ids() {
    let fns = initial_functions();
    assert_eq!(fns.len(), 2);
    assert_eq!(fns[0].id, "find.files");
    assert!(fns[0].select_option_regex.is_none());
    assert_eq!(fns[1].id, "list.folders");
    assert_eq!(fns[1].select_option_regex, Some("([^/]+)$".to_string()));
}

#[test]
fn default_config_has_the_example_target() {
    let config = default_config();
    assert_eq!(config.functions.len(), 2);
    assert_eq!(config.root_collection.id, "root");
    assert_eq!(config.root_collection.targets.len(), 1);
    let t = &config.root_collection.targets[0];
    assert_eq!(t.id, "open.log.file");
    assert_eq!(t.function_id, "find.files");
    assert_eq!(t.run_cmd, "$EDITOR {{arg}}");
    assert_eq!(t.function_args, vec!["~/".to_string(), ".log$".to_string()]);
}

#[test]
fn replace_all_scans_left_to_right_without_overlap() {
    assert_eq!(replace_all("aaa", "aa", "b"), "ba".to_string());
    assert_eq!(replace_all("abcabc", "b", "xy"), "axycaxyc".to_string());
    assert_eq!(replace_all("abc", "", "x"), "abc".to_string());
}

#[test]
fn arg_for_option_on_empty_selection_is_none() {
    let sel = pckr::config::SelectionInput { options: Vec::new(), args: Vec::new() };
    assert!(arg_for_option(&sel, "x").is_none());
}
