use nomino::decimal::{decimal_string, pad_value, parse_unsigned_str};
use nomino::errors::{SortOrderError, SourceError, StrError};
use nomino::paths::{count_separators, extension, underscore_prefixed};
use nomino::provider::{Capture, Provider};
use nomino::source::Cli;

#[test]
fn decimal_round_trip() {
    assert_eq!(parse_unsigned_str("0042"), Some(42));
    assert_eq!(parse_unsigned_str(""), None);
    assert_eq!(parse_unsigned_str("-1"), None);
    assert_eq!(parse_unsigned_str("18446744073709551616"), None);
    assert_eq!(decimal_string(0), "0");
    assert_eq!(decimal_string(1234), "1234");
    assert_eq!(pad_value("5", 3), "005");
    assert_eq!(pad_value("abc", 3), "abc");
    assert_eq!(pad_value("12345", 3), "12345");
    assert_eq!(pad_value("007", 2), "007");
    assert_eq!(pad_value("07", 4), "0007");
}

#[test]
fn path_helpers() {
    assert_eq!(extension("dir.d/file.tar.gz"), Some("gz"));
    assert_eq!(extension(".hidden"), None);
    assert_eq!(extension("a/.."), None);
    assert_eq!(extension("noext"), None);
    assert_eq!(underscore_prefixed("a/b/c.txt"), "a/b/_c.txt");
    assert_eq!(underscore_prefixed("c.txt"), "_c.txt");
    assert_eq!(count_separators("a/b/c"), 2);
}

#[test]
fn providers_over_lists() {
    let v = vec!["zero", "one"];
    assert_eq!(v.provide(&Capture::Index(1)), Some("one"));
    assert_eq!(v.provide(&Capture::Index(2)), None);
    assert_eq!(v.provide(&Capture::Name("one".to_string())), None);
    assert_eq!(Capture::from_token("12"), Capture::Index(12));
    assert_eq!(Capture::from_token("x1"), Capture::Name("x1".to_string()));
    assert_eq!(Capture::from_token("+3"), Capture::Index(3));
    assert_eq!(Capture::from_token("+"), Capture::Name("+".to_string()));
}

#[test]
fn error_values() {
    assert_eq!(SortOrderError::new("up").message(), "invalid sort order: up");
    assert_eq!(SourceError::new("bad".to_string()).message(), "bad");
    assert_eq!(StrError::boxed("oops").message(), "oops");
}

#[test]
fn positional_arguments() {
    let mut cli = Cli {
        test: false,
        mkdir: false,
        overwrite: false,
        extension: false,
        directory: None,
        max_depth: None,
        depth: None,
        generate: None,
        print: false,
        map: None,
        sort: None,
        regex: None,
        output: vec!["pat".to_string(), "out".to_string()],
    };
    assert_eq!(
        cli.pattern_and_output().unwrap(),
        (Some("pat".to_string()), Some("out".to_string()))
    );
    cli.regex = Some("r".to_string());
    assert!(cli.pattern_and_output().is_err());
    cli.output.remove(0);
    assert_eq!(
        cli.pattern_and_output().unwrap(),
        (Some("r".to_string()), Some("out".to_string()))
    );
}
