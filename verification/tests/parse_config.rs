use minigrep::parse_config;
use minigrep::ParseError;

fn args_of(command_input: &str) -> Vec<String> {
    command_input
        .split_whitespace()
        .map(|s| s.to_string())
        .collect()
}

#[test]
fn parse_config_normal_test_1() {
    let args = args_of("minigrep -i to poem.txt");

    let res = parse_config(&args).unwrap();
    assert_eq!("to", res.query);
    assert_eq!("poem.txt", res.filename);
    assert_eq!("false", res.case_sensitive.to_string());
}

#[test]
fn parse_config_normal_test_2() {
    let args = args_of("minigrep to poem.txt");

    let res = parse_config(&args).unwrap();
    assert_eq!("to", res.query);
    assert_eq!("poem.txt", res.filename);
    assert_eq!("true", res.case_sensitive.to_string());
}

#[test]
fn parse_config_abnormal_test_no_query() {
    let args = args_of("minigrep poem.txt");

    let res = parse_config(&args).err().unwrap();
    assert!(matches!(res, ParseError::InsufficientArguments));
    assert_eq!("not enough arguments", res.message());
}

#[test]
fn parse_config_abnormal_test_no_filename() {
    let args = args_of("minigrep to");

    let res = parse_config(&args).err().unwrap();
    assert!(matches!(res, ParseError::InsufficientArguments));
    assert_eq!("not enough arguments", res.message());
}

#[test]
fn parse_config_abnormal_no_args() {
    let args = args_of("minigrep");

    let res = parse_config(&args).err().unwrap();
    assert!(matches!(res, ParseError::InsufficientArguments));
    assert_eq!("not enough arguments", res.message());
}

#[test]
fn parse_config_abnormal_test_param_error_1() {
    let args = args_of("minigrep -i poem.txt");

    let res = parse_config(&args).err().unwrap();
    assert!(matches!(res, ParseError::InvalidPositionalArgument));
    assert_eq!("arguments should be [options] QUERY FILENAME", res.message());
}

#[test]
fn parse_config_abnormal_test_param_error_2() {
    let args = args_of("minigrep poem.txt -i");

    let res = parse_config(&args).err().unwrap();
    assert!(matches!(res, ParseError::InvalidPositionalArgument));
    assert_eq!("arguments should be [options] QUERY FILENAME", res.message());
}

#[test]
fn parse_config_long_insensitive_flag() {
    let args = args_of("minigrep --insensitive to poem.txt");

    let res = parse_config(&args).unwrap();
    assert_eq!("to", res.query);
    assert_eq!("poem.txt", res.filename);
    assert!(!res.case_sensitive);
}

#[test]
fn parse_config_help_flag() {
    let args = args_of("minigrep -h to poem.txt");

    let res = parse_config(&args).err().unwrap();
    match res {
        ParseError::HelpRequested(usage) => {
            assert!(usage.starts_with("Usage: minigrep [options] QUERY FILENAME"));
            assert!(usage.contains("--insensitive"));
            assert!(usage.contains("--help"));
        }
        other => panic!("expected a help request, got {:?}", other),
    }
}

#[test]
fn parse_config_long_help_flag() {
    let args = args_of("minigrep --help to poem.txt");

    let res = parse_config(&args).err().unwrap();
    assert!(matches!(res, ParseError::HelpRequested(_)));
}

#[test]
fn parse_config_unrecognized_option() {
    let args = args_of("minigrep -z to poem.txt");

    let res = parse_config(&args).err().unwrap();
    assert!(matches!(res, ParseError::MalformedOptions));
    assert_eq!("unrecognized or malformed option", res.message());
}

#[test]
fn parse_config_flag_before_positional_tail() {
    let args = args_of("minigrep -i rUsT poem.txt");

    let res = parse_config(&args).unwrap();
    assert_eq!("rUsT", res.query);
    assert_eq!("poem.txt", res.filename);
    assert!(!res.case_sensitive);
}
