use highwater::cli::{global, named_options, required, required_option, trim_trailing_slashes, Arguments, CliError};

#[test]
fn parses_named_options_without_accepting_unknown_flags() {
    let values = named_options(
        Arguments::new(vec!["--id".to_owned(), "one".to_owned()]),
        &["--id"],
    )
    .unwrap();
    assert_eq!(required(&values, "--id").unwrap(), "one");
    assert!(named_options(Arguments::new(vec!["--other".to_owned()]), &["--id"]).is_err());
}

#[test]
fn named_options_report_missing_values_and_required_options() {
    assert!(matches!(
        named_options(Arguments::new(vec!["--id".to_owned()]), &["--id"]),
        Err(CliError::MissingValue(o)) if o == "--id"
    ));
    let values = named_options(Arguments::new(Vec::new()), &["--id"]).unwrap();
    assert!(matches!(required(&values, "--id"), Err(CliError::Required(o)) if o == "--id"));
    assert_eq!(values.get("--id"), None);
    assert_eq!(
        required_option(Arguments::new(vec!["--name".to_owned(), "x".to_owned()]), "--name").unwrap(),
        "x"
    );
}

#[test]
fn global_options_are_read_anywhere_on_the_command_line() {
    let options = global(
        vec![
            "stream".to_owned(),
            "--address".to_owned(),
            "http://host:1//".to_owned(),
            "list".to_owned(),
            "--api-key".to_owned(),
            "key".to_owned(),
        ],
        "http://127.0.0.1:7233".to_owned(),
        None,
    )
    .unwrap();
    assert_eq!(options.address, "http://host:1");
    assert_eq!(options.api_key.as_deref(), Some("key"));
    assert_eq!(
        options.arguments.into_vec(),
        vec!["stream".to_owned(), "list".to_owned()]
    );
    assert!(matches!(
        global(vec!["--address".to_owned(), " ".to_owned()], "x".to_owned(), None),
        Err(CliError::EmptyAddress)
    ));
    assert!(matches!(
        global(vec!["--api-key".to_owned(), "".to_owned()], "x".to_owned(), None),
        Err(CliError::EmptyApiKey)
    ));
    assert!(matches!(
        global(vec!["--api-key".to_owned()], "x".to_owned(), None),
        Err(CliError::MissingValue(o)) if o == "--api-key"
    ));
}

#[test]
fn trailing_slashes_are_trimmed() {
    assert_eq!(trim_trailing_slashes("http://a///"), "http://a");
    assert_eq!(trim_trailing_slashes("///"), "");
    assert_eq!(trim_trailing_slashes("a/b"), "a/b");
}

#[test]
fn arguments_are_taken_from_the_front() {
    let mut arguments = Arguments::new(vec!["a".to_owned(), "b".to_owned()]);
    assert!(!arguments.is_empty());
    assert_eq!(arguments.next().as_deref(), Some("a"));
    assert_eq!(arguments.required("--x").unwrap(), "b");
    assert!(arguments.is_empty());
    assert!(matches!(arguments.required("--x"), Err(CliError::MissingValue(o)) if o == "--x"));
}
