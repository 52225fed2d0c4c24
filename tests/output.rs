use nomino::errors::FormatError;
use nomino::template::{read_output, Output};

#[test]
fn output_test_valid_formats() {
    let mut format_vars_expected = vec![
        ("{}", vec!["first"], ""),
        ("{}{}{3}", vec!["first"], ""),
        ("{1}", vec!["first", "second"], "second"),
        (
            "{1}:{1}.{1}",
            vec!["first", "second"],
            "second:second.second",
        ),
        ("{:2}", vec!["1"], ""),
        ("{:2}{:1}", vec!["1", "2"], "02"),
        ("{1:3}", vec!["1", "2"], "002"),
        ("{}.{}", vec!["first", "second"], "second."),
        ("{1}.{0}", vec!["first", "second"], "second.first"),
        ("{1}.{}", vec!["first", "second"], "second.second"),
        (
            "{1} - {} - {} - {}",
            vec!["first", "second", "third"],
            "second - second - third - ",
        ),
        (
            "init {}{} end",
            vec!["first", "second"],
            "init second end",
        ),
        (r"init \{{}\} end", vec!["first"], "init {} end"),
        (
            r"init \{{1:2}:{0:2}\} end",
            vec!["1", "2"],
            "init {02:01} end",
        ),
        (
            r"init \{{1:2}\{\}\{:\}{0:2}\} end",
            vec!["1", "2"],
            "init {02{}{:}01} end",
        ),
        (
            r"init {:5}\{\}{:2} end",
            vec!["1", "2"],
            "init 00002{} end",
        ),
    ];

    while let Some((format, vars, expected)) = format_vars_expected.pop() {
        let output =
            Output::new(format).expect(format!("unable to parse format '{}'", format).as_str());
        let actual = output.format(vars.as_slice());
        assert_eq!(actual, expected);
    }
}

#[test]
fn output_test_invalid_formats() {
    let mut format_error = vec![
        ("}", FormatError::UnopenedPlaceholder),
        (r"\a", FormatError::InvalidEscapeCharacter(1, 'a')),
        ("2:5}", FormatError::UnopenedPlaceholder),
        (r"\{2:5}", FormatError::UnopenedPlaceholder),
        (r"{2:5\}", FormatError::UnclosedPlaceholder),
        ("{{2:5}}", FormatError::InvalidIndex("{2".to_string())),
        ("{a}", FormatError::InvalidIndex("a".to_string())),
        ("{2:5a}", FormatError::InvalidPadding("5a".to_string())),
        ("init {2:5", FormatError::UnclosedPlaceholder),
        ("init {2:5 end", FormatError::UnclosedPlaceholder),
    ];

    while let Some((format, err)) = format_error.pop() {
        assert_eq!(Output::new(format), Err(err));
    }
}

#[test]
fn output_backslash_is_escaped() {
    let o = Output::new(r"{1}\\{0}").unwrap();
    assert_eq!(o.format(&["first", "second"]), r"second\first");
    assert_eq!(
        Output::new(r"a\b"),
        Err(FormatError::InvalidEscapeCharacter(2, 'b'))
    );
}

#[test]
fn output_and_formatter_agree_on_defaults() {
    let o = Output::new("{}-{:3}").unwrap();
    let f = nomino::template::Formatter::new("{}-{:3}").unwrap();
    assert_eq!(o.format(&["a", "b", "7"]), "b-007");
    assert_eq!(f.format(vec!["a", "b", "7"]), "b-007");
    assert_eq!(Output::new("{+2:+3}").unwrap().format(&["a", "b", "7"]), "007");
}

#[test]
fn read_output_compiles_when_present() {
    assert!(matches!(read_output(None), Ok(None)));
    let f = read_output(Some("{1}-x")).unwrap().unwrap();
    assert_eq!(f.format(vec!["a", "b"]), "b-x");
    assert_eq!(read_output(Some("{")).err(), Some(FormatError::UnclosedPlaceholder));
}
