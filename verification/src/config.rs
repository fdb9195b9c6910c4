//! The configuration data model: a tree of collections and targets, the
//! listing functions they reference, and the built-in first-run defaults.

use vstd::prelude::*;
use vstd::string::StringExecFns;
use crate::consts::ConstMap;

verus! {

/// The view of an optional string.
pub open spec fn opt_str_view(o: Option<String>) -> Option<Seq<char>> {
    match o {
        None => None,
        Some(s) => Some(s@),
    }
}

/// A reusable listing function: a templated shell command whose output is
/// parsed into options by two regexes.
#[derive(Debug)]
pub struct Function {
    pub id: String,
    pub arg_descriptions: Vec<String>,
    pub list_cmd: String,
    pub select_option_regex: Option<String>,
    pub select_arg_regex: Option<String>,
}

/// The parsed outcome of running a listing function: display names and
/// argument values, index-aligned and equal in length.
#[derive(Debug)]
pub struct SelectionInput {
    pub options: Vec<String>,
    pub args: Vec<String>,
}

/// A leaf launch entry: which function lists its options, and the command
/// to run once one is chosen.
#[derive(Debug)]
pub struct TargetConfig {
    pub name: Option<String>,
    pub id: String,
    pub function_id: String,
    pub function_args: Vec<String>,
    pub run_cmd: String,
    pub cwd: Option<String>,
    pub consts: Option<ConstMap>,
}

/// A node of the tree: targets, child collections, and this scope's
/// constants and functions.
#[derive(Debug)]
pub struct CollectionConfig {
    pub id: String,
    pub consts: Option<ConstMap>,
    pub functions: Vec<Function>,
    pub targets: Vec<TargetConfig>,
    pub collections: Option<Vec<CollectionConfig>>,
}

/// The whole loaded configuration.
#[derive(Debug)]
pub struct Config {
    pub functions: Vec<Function>,
    pub consts: Option<ConstMap>,
    pub root_collection: CollectionConfig,
}

/// The listing functions a fresh configuration starts with: one listing
/// files under a root, one listing the folders that hold them.
pub fn initial_functions() -> (r: Vec<Function>)
    ensures
        r@.len() == 2,
        r@[0].id@ == "find.files"@,
        r@[0].list_cmd@ == "fd --type f . {{arg.0}} | grep -E '{{arg.1}}' | sort -u"@,
        r@[0].arg_descriptions.deep_view() =~= seq!["Root dir"@, "File regex"@],
        opt_str_view(r@[0].select_option_regex) is None,
        opt_str_view(r@[0].select_arg_regex) is None,
        r@[1].id@ == "list.folders"@,
        r@[1].list_cmd@
            == "fd --type f . {{arg.0}} | grep -E '{{arg.1}}' | awk -F/ 'NF{NF--; print \"/\"$0}' OFS=/ | sort -u"@,
        r@[1].arg_descriptions.deep_view() =~= seq!["Root dir"@, "File regex"@],
        opt_str_view(r@[1].select_option_regex) == Some("([^/]+)$"@),
        opt_str_view(r@[1].select_arg_regex) is None,
{
    let mut files_args: Vec<String> = Vec::new();
    files_args.push(String::from_str("Root dir"));
    files_args.push(String::from_str("File regex"));
    let files = Function {
        id: String::from_str("find.files"),
        list_cmd: String::from_str("fd --type f . {{arg.0}} | grep -E '{{arg.1}}' | sort -u"),
        arg_descriptions: files_args,
        select_option_regex: None,
        select_arg_regex: None,
    };

    let mut dirs_args: Vec<String> = Vec::new();
    dirs_args.push(String::from_str("Root dir"));
    dirs_args.push(String::from_str("File regex"));
    let dirs = Function {
        id: String::from_str("list.folders"),
        list_cmd: String::from_str(
            "fd --type f . {{arg.0}} | grep -E '{{arg.1}}' | awk -F/ 'NF{NF--; print \"/\"$0}' OFS=/ | sort -u",
        ),
        arg_descriptions: dirs_args,
        select_option_regex: Some(String::from_str("([^/]+)$")),
        select_arg_regex: None,
    };

    let mut r: Vec<Function> = Vec::new();
    r.push(files);
    r.push(dirs);
    r
}

/// The configuration a first run writes out: the built-in functions and a
/// root collection with a single example target.
pub fn default_config() -> (r: Config)
    ensures
        r.functions@.len() == 2,
        r.functions@[0].id@ == "find.files"@,
        r.functions@[1].id@ == "list.folders"@,
        r.consts matches Some(m) && m.wf() && m.as_map() == Map::<Seq<char>, Seq<char>>::empty(),
        r.root_collection.id@ == "root"@,
        r.root_collection.consts matches Some(m) && m.wf() && m.as_map() == Map::<
            Seq<char>,
            Seq<char>,
        >::empty(),
        r.root_collection.functions@.len() == 0,
        r.root_collection.collections is None,
        r.root_collection.targets@.len() == 1,
        r.root_collection.targets@[0].id@ == "open.log.file"@,
        opt_str_view(r.root_collection.targets@[0].name) == Some("Open log file"@),
        r.root_collection.targets@[0].function_id@ == "find.files"@,
        r.root_collection.targets@[0].run_cmd@ == "$EDITOR {{arg}}"@,
        opt_str_view(r.root_collection.targets@[0].cwd) is None,
        r.root_collection.targets@[0].consts is None,
        r.root_collection.targets@[0].function_args.deep_view() =~= seq!["~/"@, ".log$"@],
{
    let mut target_args: Vec<String> = Vec::new();
    target_args.push(String::from_str("~/"));
    target_args.push(String::from_str(".log$"));
    let target = TargetConfig {
        name: Some(String::from_str("Open log file")),
        id: String::from_str("open.log.file"),
        function_id: String::from_str("find.files"),
        run_cmd: String::from_str("$EDITOR {{arg}}"),
        cwd: None,
        consts: None,
        function_args: target_args,
    };

    let mut targets: Vec<TargetConfig> = Vec::new();
    targets.push(target);
    let root_collection = CollectionConfig {
        collections: None,
        id: String::from_str("root"),
        consts: Some(ConstMap::new()),
        targets,
        functions: Vec::new(),
    };

    Config { functions: initial_functions(), consts: Some(ConstMap::new()), root_collection }
}

} // verus!
