use optparse::OptAction;
use optparse::OptionParser;
use optparse::Options;
use optparse::ParseError;

fn get_program_name() -> String {
    "prog".to_string()
}

fn setup_user_input_option(input_options: Vec<&str>) -> Vec<String> {
    let mut args: Vec<String> = vec![get_program_name()];
    let options: Vec<String> = input_options.iter().map(|x| x.to_string()).collect();
    args.extend(options);
    args
}

#[test]
fn test_single_option() {
    let mut parser = OptionParser::new();
    let key = "input".to_string();
    parser.add_option(&key, "", None, None, None, None, None);

    let options = setup_user_input_option(vec!["--input", "INPUT_VALUE"]);
    let args = parser.parse_with_args(options).expect("parse should succeed");

    assert_eq!(args.defined_len(), 1);
    assert_eq!(args.parsed_len(), 1);
    assert!(args.contains_key(&key));
    let expected_value = vec!["INPUT_VALUE".to_string()];
    assert_eq!(args.get(&key), Some(&expected_value));
    assert_eq!(
        format!("{:?}", args),
        "Options { defined_names: [\"input\"], parsed_options: [(\"input\", [\"INPUT_VALUE\"])] }",
    );
}

#[test]
fn test_single_short_option() {
    let mut parser = OptionParser::new();
    let key = "input".to_string();
    let short_key = "i".to_string();
    parser.add_option(&key, &short_key, None, None, None, None, None);

    let options = setup_user_input_option(vec!["-i", "INPUT_VALUE"]);
    let args = parser.parse_with_args(options).expect("parse should succeed");

    assert_eq!(args.defined_len(), 1);
    assert_eq!(args.parsed_len(), 1);
    assert!(args.contains_key(&key));
    let expected_value = vec!["INPUT_VALUE".to_string()];
    assert_eq!(args.get(&key), Some(&expected_value));
    assert_eq!(
        format!("{:?}", args),
        "Options { defined_names: [\"input\"], parsed_options: [(\"input\", [\"INPUT_VALUE\"])] }",
    );
}

#[test]
fn test_single_flag_option() {
    let mut parser = OptionParser::new();
    let key = "verbose".to_string();
    parser.add_option(&key, "", None, None, None, Some(OptAction::StoreTrue), None);

    let options = setup_user_input_option(vec!["--verbose"]);
    let args = parser.parse_with_args(options).expect("parse should succeed");

    assert_eq!(args.defined_len(), 1);
    assert_eq!(args.parsed_len(), 1);
    assert!(args.contains_key(&key));
    let expected_value = vec!["true".to_string()];
    assert_eq!(args.get(&key), Some(&expected_value));
    assert_eq!(
        format!("{:?}", args),
        "Options { defined_names: [\"verbose\"], parsed_options: [(\"verbose\", [\"true\"])] }",
    );
}

#[test]
fn test_single_option_without_user_given_values() {
    let mut parser = OptionParser::new();
    let key = "input".to_string();
    parser.add_option(&key, "", None, None, None, None, None);
    let args = parser
        .parse_with_args(vec![get_program_name()])
        .expect("parse should succeed");

    assert_eq!(args.defined_len(), 1);
    assert_eq!(args.parsed_len(), 0);
    assert!(args.contains_key(&key));
    assert_eq!(args.get(&key), None);
    assert_eq!(
        format!("{:?}", args),
        "Options { defined_names: [\"input\"], parsed_options: [] }",
    );
}

#[test]
fn test_store_false_flag() {
    let mut parser = OptionParser::new();
    let key = "quiet".to_string();
    parser.add_option(&key, "", None, None, None, Some(OptAction::StoreFalse), None);

    let options = setup_user_input_option(vec!["--quiet"]);
    let args = parser.parse_with_args(options).expect("parse should succeed");

    let expected_value = vec!["false".to_string()];
    assert_eq!(args.get(&key), Some(&expected_value));
}

#[test]
fn test_flag_does_not_consume_following_token() {
    let mut parser = OptionParser::new();
    let key = "verbose".to_string();
    parser.add_option(&key, "", None, None, None, Some(OptAction::StoreTrue), None);

    let options = setup_user_input_option(vec!["--verbose", "leftover"]);
    let args = parser.parse_with_args(options).expect("parse should succeed");

    let expected_value = vec!["true".to_string()];
    assert_eq!(args.get(&key), Some(&expected_value));
}

#[test]
fn test_default_value_substitution() {
    let mut parser = OptionParser::new();
    let key = "input".to_string();
    parser.add_option(&key, "", None, None, Some("DEFAULT_VALUE"), None, None);

    let args = parser
        .parse_with_args(vec![get_program_name()])
        .expect("parse should succeed");

    assert_eq!(args.parsed_len(), 1);
    let expected_value = vec!["DEFAULT_VALUE".to_string()];
    assert_eq!(args.get(&key), Some(&expected_value));
}

#[test]
fn test_given_value_overrides_default() {
    let mut parser = OptionParser::new();
    let key = "input".to_string();
    parser.add_option(&key, "", None, None, Some("DEFAULT_VALUE"), None, None);

    let options = setup_user_input_option(vec!["--input", "GIVEN"]);
    let args = parser.parse_with_args(options).expect("parse should succeed");

    let expected_value = vec!["GIVEN".to_string()];
    assert_eq!(args.get(&key), Some(&expected_value));
}

#[test]
fn test_multiple_values_kept_in_order() {
    let mut parser = OptionParser::new();
    let key = "tag".to_string();
    parser.add_option(&key, "", None, Some(true), None, None, None);

    let options = setup_user_input_option(vec!["--tag", "a", "--tag", "b"]);
    let args = parser.parse_with_args(options).expect("parse should succeed");

    let expected_value = vec!["a".to_string(), "b".to_string()];
    assert_eq!(args.get(&key), Some(&expected_value));
}

#[test]
fn test_conflicting_declaration_fails_when_present() {
    let mut parser = OptionParser::new();
    let key = "tag".to_string();
    parser.add_option(
        &key,
        "",
        None,
        Some(true),
        None,
        Some(OptAction::StoreTrue),
        None,
    );

    let options = setup_user_input_option(vec!["--tag"]);
    let err = parser
        .parse_with_args(options)
        .expect_err("a multi-valued flag option must fail");
    assert!(matches!(err, ParseError::ConflictingDeclaration { name } if name == "tag"));
}

#[test]
fn test_conflicting_declaration_absent_is_tolerated() {
    let mut parser = OptionParser::new();
    let key = "tag".to_string();
    parser.add_option(
        &key,
        "",
        None,
        Some(true),
        None,
        Some(OptAction::StoreTrue),
        None,
    );

    let args = parser
        .parse_with_args(vec![get_program_name()])
        .expect("an absent conflicting declaration resolves");
    assert_eq!(args.get(&key), None);
}

#[test]
fn test_syntax_error_on_unknown_option() {
    let mut parser = OptionParser::new();
    parser.add_option("input", "", None, None, None, None, None);

    let options = setup_user_input_option(vec!["--unknown"]);
    let err = parser
        .parse_with_args(options)
        .expect_err("an unknown option must fail");
    assert!(matches!(err, ParseError::SyntaxError { .. }));
}

#[test]
fn test_help_long_flag() {
    let mut parser = OptionParser::new();
    parser.add_option("input", "", None, None, None, None, None);

    let options = setup_user_input_option(vec!["--help"]);
    let err = parser.parse_with_args(options).expect_err("help ends the parse");
    assert!(matches!(err, ParseError::HelpRequested));
}

#[test]
fn test_help_short_flag() {
    let mut parser = OptionParser::new();
    parser.add_option("input", "", None, None, None, None, None);

    let options = setup_user_input_option(vec!["-h"]);
    let err = parser.parse_with_args(options).expect_err("help ends the parse");
    assert!(matches!(err, ParseError::HelpRequested));
}

#[test]
fn test_help_overrides_malformed_input() {
    let mut parser = OptionParser::new();
    parser.add_option("input", "", None, None, None, None, None);

    let options = setup_user_input_option(vec!["--bogus", "--help"]);
    let err = parser.parse_with_args(options).expect_err("help ends the parse");
    assert!(matches!(err, ParseError::HelpRequested));
}

#[test]
fn test_help_overrides_missing_required_option() {
    let mut parser = OptionParser::new();
    parser.add_option("input", "", Some(true), None, None, None, None);

    let options = setup_user_input_option(vec!["--help"]);
    let err = parser.parse_with_args(options).expect_err("help ends the parse");
    assert!(matches!(err, ParseError::HelpRequested));
}

#[test]
fn test_missing_required_option_without_help_fails() {
    let mut parser = OptionParser::new();
    parser.add_option("input", "", Some(true), None, None, None, None);

    let err = parser
        .parse_with_args(vec![get_program_name()])
        .expect_err("a missing required option must fail");
    assert!(matches!(err, ParseError::SyntaxError { .. }));
}

#[test]
fn test_usage_brief() {
    let mut parser = OptionParser::new();
    parser.add_option("input", "i", None, None, None, None, Some("the input"));
    parser.add_option(
        "verbose",
        "",
        None,
        None,
        None,
        Some(OptAction::StoreTrue),
        None,
    );
    parser.add_option("tag", "", None, Some(true), None, None, None);
    parser.add_option("out", "", Some(true), None, None, None, None);

    let brief = parser.usage_brief(&get_program_name());
    assert_eq!(
        brief,
        "Usage: prog [--input INPUT] [--verbose] [--tag TAG --tag TAG...] --out OUT",
    );
}

#[test]
fn test_usage_string_starts_with_brief() {
    let mut parser = OptionParser::new();
    parser.add_option("input", "i", None, None, None, None, Some("the input"));

    let usage = parser.usage_string(&get_program_name());
    assert!(usage.starts_with("Usage: prog [--input INPUT]"));
    assert!(usage.contains("the input"));
}

#[test]
fn test_describe_messages() {
    assert_eq!(
        ParseError::ConflictingDeclaration {
            name: "tag".to_string()
        }
        .describe(),
        "tag must not be a flag option.",
    );
    assert_eq!(
        ParseError::RequiredMissing {
            name: "input".to_string()
        }
        .describe(),
        "input is required option.",
    );
    assert_eq!(
        ParseError::MissingValue {
            name: "input".to_string()
        }
        .describe(),
        "input must have a value, but only key like --input",
    );
    assert_eq!(
        ParseError::SyntaxError {
            message: "boom".to_string()
        }
        .describe(),
        "boom",
    );
}

#[test]
fn test_options_insert_get_contains() {
    let mut options = Options::new();
    assert_eq!(options.defined_len(), 0);
    assert_eq!(options.parsed_len(), 0);

    let key = "input".to_string();
    assert!(!options.contains_key(&key));

    let first = options.insert(key.clone(), vec!["a".to_string()]);
    assert_eq!(first, None);
    assert_eq!(options.parsed_len(), 1);
    assert!(options.contains_key(&key));
    assert_eq!(options.get(&key), Some(&vec!["a".to_string()]));

    let second = options.insert(key.clone(), vec!["b".to_string(), "c".to_string()]);
    assert_eq!(second, Some(vec!["a".to_string()]));
    assert_eq!(options.parsed_len(), 1);
    assert_eq!(
        options.get(&key),
        Some(&vec!["b".to_string(), "c".to_string()])
    );
}

#[test]
fn test_options_defined_names_without_values() {
    let mut options = Options::new();
    let declared = "input".to_string();
    options.set_defined_names(vec![&declared]);
    assert_eq!(options.defined_len(), 1);
    assert_eq!(options.parsed_len(), 0);
    assert!(options.contains_key(&declared));
    assert_eq!(options.get(&declared), None);

    let unknown = "missing".to_string();
    assert!(!options.contains_key(&unknown));
}

#[test]
fn test_user_declared_help_option_takes_value() {
    let mut parser = OptionParser::new();
    let key = "help".to_string();
    parser.add_option(&key, "", None, None, None, None, None);

    let options = setup_user_input_option(vec!["--help", "topic"]);
    let err = parser.parse_with_args(options).expect_err("help ends the parse");
    assert!(matches!(err, ParseError::HelpRequested));
}

#[test]
fn test_multiple_with_single_occurrence() {
    let mut parser = OptionParser::new();
    let key = "tag".to_string();
    parser.add_option(&key, "", None, Some(true), None, None, None);

    let options = setup_user_input_option(vec!["--tag", "only"]);
    let args = parser.parse_with_args(options).expect("parse should succeed");

    let expected_value = vec!["only".to_string()];
    assert_eq!(args.get(&key), Some(&expected_value));
}

#[test]
fn test_required_option_given() {
    let mut parser = OptionParser::new();
    let key = "out".to_string();
    parser.add_option(&key, "", Some(true), None, None, None, None);

    let options = setup_user_input_option(vec!["--out", "target"]);
    let args = parser.parse_with_args(options).expect("parse should succeed");

    let expected_value = vec!["target".to_string()];
    assert_eq!(args.get(&key), Some(&expected_value));
}

#[test]
fn test_required_takes_precedence_over_multiple() {
    // The scanner spec of a required option allows one occurrence only,
    // whether or not the declaration also says multiple.
    let mut parser = OptionParser::new();
    let key = "tag".to_string();
    parser.add_option(&key, "", Some(true), Some(true), None, None, None);

    let once = setup_user_input_option(vec!["--tag", "a"]);
    let args = parser.parse_with_args(once).expect("one occurrence is accepted");
    let expected_value = vec!["a".to_string()];
    assert_eq!(args.get(&key), Some(&expected_value));

    let mut parser = OptionParser::new();
    parser.add_option(&key, "", Some(true), Some(true), None, None, None);
    let twice = setup_user_input_option(vec!["--tag", "a", "--tag", "b"]);
    let err = parser
        .parse_with_args(twice)
        .expect_err("a second occurrence breaks the required spec");
    assert!(matches!(err, ParseError::SyntaxError { .. }));
}
