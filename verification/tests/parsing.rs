use pckr::config::Function;
use pckr::errors::Error;
use pckr::options::arg_for_option;

fn function_with(option_re: Option<&str>, arg_re: Option<&str>) -> Function {
    Function {
        id: "f".to_string(),
        arg_descriptions: Vec::new(),
        list_cmd: "echo".to_string(),
        select_option_regex: option_re.map(|s| s.to_string()),
        select_arg_regex: arg_re.map(|s| s.to_string()),
    }
}

#[test]
fn name_and_arg_regexes_extract_pairs() {
    let f = function_with(Some(r"^(.*)\.txt"), Some(r":(\d+)$"));
    let sel = f.create_selection_input("a.txt:1\nb.txt:2").unwrap();
    assert_eq!(sel.options, vec!["a".to_string(), "b".to_string()]);
    assert_eq!(sel.args, vec!["1".to_string(), "2".to_string()]);
}

#[test]
fn two_digit_groups_are_a_fatal_parse_error() {
    let f = function_with(None, Some(r"(\d+).*(\d+)"));
    let err = f.create_selection_input("12ab34").unwrap_err();
    assert_eq!(
        err,
        Error::MultipleArgCaptures { line: "12ab34".to_string(), count: 2 }
    );
}

#[test]
fn line_without_arg_capture_is_fatal() {
    let f = function_with(None, Some(r":(\d+)$"));
    let err = f.create_selection_input("no colon here").unwrap_err();
    assert_eq!(err, Error::NoArgCapture { line: "no colon here".to_string() });
}

#[test]
fn default_regexes_take_whole_lines() {
    let f = function_with(None, None);
    let sel = f.create_selection_input("X1\nX2").unwrap();
    assert_eq!(sel.options, vec!["X1".to_string(), "X2".to_string()]);
    assert_eq!(sel.args, vec!["X1".to_string(), "X2".to_string()]);
}

#[test]
fn empty_lines_are_skipped() {
    let f = function_with(None, None);
    let sel = f.create_selection_input("X1\n\nX2\n").unwrap();
    assert_eq!(sel.options, vec!["X1".to_string(), "X2".to_string()]);
    assert_eq!(sel.args, vec!["X1".to_string(), "X2".to_string()]);
}

#[test]
fn duplicate_names_dedup_last_wins_in_first_position() {
    let f = function_with(Some(r"^(\w+):"), Some(r":(\d+)$"));
    let sel = f.create_selection_input("a:1\nb:2\na:3").unwrap();
    assert_eq!(sel.options, vec!["a".to_string(), "b".to_string()]);
    assert_eq!(sel.args, vec!["3".to_string(), "2".to_string()]);
}

#[test]
fn invalid_option_regex_is_reported() {
    let f = function_with(Some("("), None);
    let err = f.create_selection_input("x").unwrap_err();
    assert_eq!(err, Error::InvalidOptionRegex { pattern: "(".to_string() });
}

#[test]
fn invalid_arg_regex_is_reported() {
    let f = function_with(None, Some("("));
    let err = f.create_selection_input("x").unwrap_err();
    assert_eq!(err, Error::InvalidArgRegex { pattern: "(".to_string() });
}

#[test]
fn multi_group_name_regex_concatenates_captures() {
    let f = function_with(Some(r"(\w+)-(\w+)"), None);
    let sel = f.create_selection_input("ab-cd").unwrap();
    assert_eq!(sel.options, vec!["abcd".to_string()]);
    assert_eq!(sel.args, vec!["ab-cd".to_string()]);
}

#[test]
fn multiple_captures_message_counts_them() {
    let err = Error::MultipleArgCaptures { line: "12ab34".to_string(), count: 2 };
    assert_eq!(
        err.message(),
        "unable to handle multiple args per option (found 2) in 12ab34".to_string()
    );
}

#[test]
fn build_command_substitutes_positional_args() {
    let f = Function {
        id: "f".to_string(),
        arg_descriptions: vec!["first".to_string(), "second".to_string()],
        list_cmd: "echo {{arg.0}} {{arg.1}} {{arg.0}}".to_string(),
        select_option_regex: None,
        select_arg_regex: None,
    };
    let args = vec!["a".to_string(), "b".to_string()];
    assert_eq!(f.build_command(&args), "echo a b a".to_string());
}

#[test]
fn build_command_leaves_unknown_positions_alone() {
    let f = function_with(None, None);
    let f = Function { list_cmd: "run {{arg.0}} {{arg.7}}".to_string(), ..f };
    let args = vec!["x".to_string()];
    assert_eq!(f.build_command(&args), "run x {{arg.7}}".to_string());
}

#[test]
fn arg_for_option_returns_aligned_argument() {
    let f = function_with(None, None);
    let sel = f.create_selection_input("X1\nX2").unwrap();
    let arg = arg_for_option(&sel, "X2").unwrap();
    assert_eq!(arg, &"X2".to_string());
    assert!(arg_for_option(&sel, "X3").is_none());
}
