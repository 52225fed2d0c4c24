use nomino::errors::FormatError;
use nomino::template::Formatter;

#[test]
fn formatter_test_valid_formats() {
    let mut format_vars_expected = vec![
        ("{}", vec!["first", "second"], "second"),
        (r"{1}\\{0}", vec!["first", "second"], r"second\first"),
        (r"{1}\\\{{0}\}", vec!["first", "second"], r"second\{first}"),
        ("{}{}{3}", vec!["first", "second"], "second"),
        ("{1}", vec!["first", "second"], "second"),
        (
            "{1}:{1}.{1}",
            vec!["first", "second"],
            "second:second.second",
        ),
        ("{:3}", vec!["0", "1"], "001"),
        ("{:3}", vec!["0", "-1"], "-1"),
        ("{:3}", vec!["0", "a"], "a"),
        ("{:2}{:1}", vec!["0", "1", "2"], "012"),
        ("{1:3}", vec!["1", "2"], "002"),
        ("{}.{}", vec!["first", "second", "third"], "second.third"),
        ("{1}.{0}", vec!["first", "second"], "second.first"),
        ("{1}.{}", vec!["first", "second"], "second.second"),
        (
            "{2} - {} - {} - {}",
            vec!["first", "second", "third", "fourth"],
            "third - second - third - fourth",
        ),
        (
            "init {}{} end",
            vec!["first", "second", "third"],
            "init secondthird end",
        ),
        (
            r"init \{{}\} end",
            vec!["first", "second"],
            "init {second} end",
        ),
        (
            r"init \{{1:2}:{0:2}\} end",
            vec!["1", "2"],
            "init {02:01} end",
        ),
        (
            r"init \{{1:2}\{\}\{:\}{0:2}\} end",
            vec!["1", "2"],
            "init {02{}{:}01} end",
        ),
        (
            r"init {:5}\{\}{:2} end",
            vec!["0", "1", "2"],
            "init 00001{}02 end",
        ),
    ];

    while let Some((format, vars, expected)) = format_vars_expected.pop() {
        let output = Formatter::new(format)
            .expect(format!("unable to parse format '{}'", format).as_str());
        let actual = output.format(vars);
        assert_eq!(actual, expected);
    }
}

#[test]
fn formatter_test_invalid_formats() {
    let mut format_error = vec![
        ("}", FormatError::UnopenedPlaceholder),
        (r"\a", FormatError::InvalidEscapeCharacter(1, 'a')),
        ("2:5}", FormatError::UnopenedPlaceholder),
        (r"\{2:5}", FormatError::UnopenedPlaceholder),
        (r"{2:5\}", FormatError::UnclosedPlaceholder),
        ("{2:5a}", FormatError::InvalidPadding("5a".to_string())),
        ("init {2:5", FormatError::UnclosedPlaceholder),
        ("init {2:5 end", FormatError::UnclosedPlaceholder),
    ];

    while let Some((format, err)) = format_error.pop() {
        assert_eq!(Formatter::new(format), Err(err));
    }
}

#[test]
fn formatter_named_reference_over_plain_list_is_empty() {
    let f = Formatter::new("a{name}b").unwrap();
    assert_eq!(f.format(vec!["x", "y"]), "ab");
}

#[test]
fn formatter_padding_never_truncates() {
    let f = Formatter::new("{:2}").unwrap();
    assert_eq!(f.format(vec!["0", "12345"]), "12345");
    assert_eq!(f.format(vec!["0", "7"]), "07");
    assert_eq!(f.format(vec!["0", "07"]), "07");
    assert_eq!(f.format(vec!["0", "007"]), "007");
    assert_eq!(f.format(vec!["0", "18446744073709551616"]), "18446744073709551616");
    assert_eq!(f.format(vec!["0", "+7"]), "+7");
}

#[test]
fn formatter_padding_is_idempotent() {
    let f = Formatter::new("{:4}").unwrap();
    let once = f.format(vec!["0", "42"]);
    assert_eq!(once, "0042");
    let twice = f.format(vec!["0", once.as_str()]);
    assert_eq!(twice, once);
}

#[test]
fn formatter_auto_references_count_only_defaults() {
    let f = Formatter::new("{}{5}{}{0}{}").unwrap();
    assert_eq!(f.format(vec!["z", "a", "b", "c", "d", "e"]), "aebzc");
    let g = Formatter::new("{:1}-{:1}").unwrap();
    assert_eq!(g.format(vec!["z", "a", "b"]), "a-b");
}

#[test]
fn formatter_reports_every_error_kind() {
    assert_eq!(Formatter::new("x}"), Err(FormatError::UnopenedPlaceholder));
    assert_eq!(Formatter::new("{x"), Err(FormatError::UnclosedPlaceholder));
    assert_eq!(
        Formatter::new("ab\\q"),
        Err(FormatError::InvalidEscapeCharacter(3, 'q'))
    );
    assert_eq!(
        Formatter::new("{1:x}"),
        Err(FormatError::InvalidPadding("x".to_string()))
    );
    assert!(Formatter::new("{a}").is_ok());
    assert_eq!(Formatter::new("{+1:+3}").unwrap().format(vec!["a", "5"]), "005");
}

#[test]
fn format_error_messages() {
    assert_eq!(
        FormatError::InvalidEscapeCharacter(12, 'a').message(),
        "[output-format] invalid escape character of 'a' at '12'"
    );
    assert_eq!(
        FormatError::InvalidIndex("x".to_string()).message(),
        "[output-format] unable to parse index of 'x'"
    );
    assert_eq!(
        FormatError::EmptyFormatter.message(),
        "[output-format] output formatter must be set"
    );
    assert_eq!(
        FormatError::UnclosedPlaceholder.message(),
        "[output-format] all opened placeholders must be closed by '}'"
    );
}
