use bookmark_store::bookmark::Bookmark;
use bookmark_store::dispatch::control;
use bookmark_store::dispatch::output_sink;
use bookmark_store::dispatch::Arguments;
use bookmark_store::dispatch::Operation;
use bookmark_store::dispatch::Request;
use bookmark_store::dispatch::Sink;
use bookmark_store::error::ErrorKind;
use bookmark_store::error::ManagerError;

fn text(value: &str) -> Option<String> {
    Some(value.to_string())
}

fn request(subcommand: Option<&str>, name: Option<&str>, offset: Option<f64>) -> Request {
    Request {
        subcommand: subcommand.map(|word| word.to_string()),
        file: text("bookmarks"),
        arguments: Some(Arguments {
            name: name.map(|word| word.to_string()),
            offset: offset.map(|value| value.to_bits()),
        }),
    }
}

fn usage_message(request: Request) -> String {
    let error = control(request).unwrap_err();
    assert_eq!(error.kind, ErrorKind::Usage);
    error.message
}

#[test]
fn control_plans_an_addition() {
    let plan = control(request(Some("add"), Some("alpha"), Some(3.5))).unwrap();
    assert_eq!(plan.file, "bookmarks");
    match plan.operation {
        Operation::Add { name, offset } => {
            assert_eq!(name, "alpha");
            assert_eq!(offset, 3.5f64.to_bits());
        }
        other => panic!("{:?}", other),
    }
}

#[test]
fn control_plans_a_removal() {
    let plan = control(request(Some("remove"), Some("alpha"), None)).unwrap();
    assert_eq!(plan.file, "bookmarks");
    match plan.operation {
        Operation::Remove { name } => assert_eq!(name, "alpha"),
        other => panic!("{:?}", other),
    }
}

#[test]
fn control_plans_a_query() {
    let plan = control(request(Some("query"), Some("alpha"), None)).unwrap();
    assert_eq!(plan.file, "bookmarks");
    match plan.operation {
        Operation::Query { name } => assert_eq!(name, "alpha"),
        other => panic!("{:?}", other),
    }
}

#[test]
fn control_refuses_an_addition_under_an_empty_name() {
    assert_eq!(
        usage_message(request(Some("add"), Some(""), Some(0.0))),
        "The argument 'name' is empty"
    );
    assert_eq!(
        usage_message(request(Some("add"), Some(""), None)),
        "The argument 'name' is empty"
    );
}

#[test]
fn control_takes_an_empty_name_to_look_for() {
    let plan = control(request(Some("remove"), Some(""), None)).unwrap();
    match plan.operation {
        Operation::Remove { name } => assert_eq!(name, ""),
        other => panic!("{:?}", other),
    }
    let plan = control(request(Some("query"), Some(""), None)).unwrap();
    match plan.operation {
        Operation::Query { name } => assert_eq!(name, ""),
        other => panic!("{:?}", other),
    }
}

#[test]
fn control_refuses_a_missing_subcommand() {
    assert_eq!(usage_message(request(None, Some("alpha"), Some(1.0))), "Unable to match subcommand");
}

#[test]
fn control_refuses_an_unknown_subcommand() {
    assert_eq!(
        usage_message(request(Some("list"), Some("alpha"), Some(1.0))),
        "Unable to match subcommand"
    );
    assert_eq!(
        usage_message(request(Some("Add"), Some("alpha"), Some(1.0))),
        "Unable to match subcommand"
    );
    assert_eq!(usage_message(request(Some(""), Some("alpha"), Some(1.0))), "Unable to match subcommand");
}

#[test]
fn control_refuses_a_missing_file() {
    for word in ["add", "remove", "query"] {
        let mut asked = request(Some(word), Some("alpha"), Some(1.0));
        asked.file = None;
        assert_eq!(usage_message(asked), "The argument 'file' wasn't found");
    }
}

#[test]
fn control_refuses_a_subcommand_without_arguments() {
    for word in ["add", "remove", "query"] {
        let mut asked = request(Some(word), Some("alpha"), Some(1.0));
        asked.arguments = None;
        assert_eq!(usage_message(asked), format!("Failed to find {} subcommand", word));
    }
}

#[test]
fn control_refuses_a_missing_name() {
    for word in ["add", "remove", "query"] {
        assert_eq!(
            usage_message(request(Some(word), None, Some(1.0))),
            "The argument 'name' wasn't found"
        );
    }
}

#[test]
fn control_refuses_an_addition_without_offset() {
    assert_eq!(
        usage_message(request(Some("add"), Some("alpha"), None)),
        "The argument 'offset' wasn't found or isn't a valid value"
    );
}

#[test]
fn control_reports_the_first_fault() {
    let asked = Request { subcommand: text("add"), file: None, arguments: None };
    assert_eq!(usage_message(asked), "The argument 'file' wasn't found");
    let asked = Request {
        subcommand: text("add"),
        file: text("bookmarks"),
        arguments: Some(Arguments { name: None, offset: None }),
    };
    assert_eq!(usage_message(asked), "The argument 'name' wasn't found");
}

#[test]
fn only_an_addition_creates_the_file() {
    assert!(Operation::Add { name: "a".to_string(), offset: 0 }.creates_file());
    assert!(!Operation::Remove { name: "a".to_string() }.creates_file());
    assert!(!Operation::Query { name: "a".to_string() }.creates_file());
}

#[test]
fn apply_runs_the_addition() {
    let operation = Operation::Add { name: "alpha".to_string(), offset: 1.0f64.to_bits() };
    let loaded = vec![Bookmark::new("alpha".to_string(), 3.5f64.to_bits())];
    let outcome = operation.apply(Ok(loaded)).unwrap();
    let written = outcome.rewrite.unwrap();
    assert_eq!(written.len(), 1);
    assert_eq!(written[0].name, "alpha");
    assert_eq!(written[0].offset, 1.0f64.to_bits());
    assert!(outcome.record.is_none());
}

#[test]
fn apply_runs_the_addition_after_a_failed_load() {
    let operation = Operation::Add { name: "alpha".to_string(), offset: 1.0f64.to_bits() };
    let failure = ManagerError::of_kind(ErrorKind::Parse, "mapping values are not allowed".to_string());
    let outcome = operation.apply(Err(failure)).unwrap();
    let written = outcome.rewrite.unwrap();
    assert_eq!(written.len(), 1);
    assert_eq!(written[0].name, "alpha");
    assert_eq!(written[0].offset, 1.0f64.to_bits());
}

#[test]
fn apply_runs_the_removal() {
    let operation = Operation::Remove { name: "alpha".to_string() };
    let loaded = vec![
        Bookmark::new("alpha".to_string(), 1.0f64.to_bits()),
        Bookmark::new("beta".to_string(), 2.0f64.to_bits()),
    ];
    let outcome = operation.apply(Ok(loaded)).unwrap();
    let record = outcome.record.unwrap();
    assert_eq!(record.name, "alpha");
    assert_eq!(record.offset, 1.0f64.to_bits());
    let written = outcome.rewrite.unwrap();
    assert_eq!(written.len(), 1);
    assert_eq!(written[0].name, "beta");
    assert_eq!(written[0].offset, 2.0f64.to_bits());
}

#[test]
fn apply_runs_the_query() {
    let operation = Operation::Query { name: "beta".to_string() };
    let loaded = vec![
        Bookmark::new("alpha".to_string(), 1.0f64.to_bits()),
        Bookmark::new("beta".to_string(), 2.0f64.to_bits()),
    ];
    let outcome = operation.apply(Ok(loaded)).unwrap();
    let record = outcome.record.unwrap();
    assert_eq!(record.name, "beta");
    assert_eq!(record.offset, 2.0f64.to_bits());
    assert!(outcome.rewrite.is_none());
}

#[test]
fn apply_fails_a_removal_and_a_query_where_the_load_failed() {
    let failure = ManagerError::of_kind(ErrorKind::Parse, "mapping values are not allowed".to_string());
    let error = Operation::Remove { name: "a".to_string() }.apply(Err(failure.clone())).unwrap_err();
    assert_eq!(error.kind, ErrorKind::Parse);
    assert_eq!(error.message, "mapping values are not allowed");
    let error = Operation::Query { name: "a".to_string() }.apply(Err(failure)).unwrap_err();
    assert_eq!(error.kind, ErrorKind::Parse);
    assert_eq!(error.message, "mapping values are not allowed");
}

#[test]
fn a_dash_is_the_standard_output() {
    assert!(matches!(output_sink(text("-")), Sink::Standard));
    assert!(matches!(output_sink(None), Sink::Standard));
}

#[test]
fn any_other_path_is_a_file() {
    match output_sink(text("out.txt")) {
        Sink::File(path) => assert_eq!(path, "out.txt"),
        Sink::Standard => panic!("a path is no standard output"),
    }
    match output_sink(text("--")) {
        Sink::File(path) => assert_eq!(path, "--"),
        Sink::Standard => panic!("a path is no standard output"),
    }
    match output_sink(text("")) {
        Sink::File(path) => assert_eq!(path, ""),
        Sink::Standard => panic!("a path is no standard output"),
    }
}

fn invoke(
    file: &mut Option<Vec<Bookmark>>,
    subcommand: &str,
    name: &str,
    offset: Option<f64>,
) -> Result<Option<(String, f64)>, ManagerError> {
    let plan = control(request(Some(subcommand), Some(name), offset))?;
    let loaded = match file.clone() {
        Some(bookmarks) => Ok(bookmarks),
        None if plan.operation.creates_file() => {
            Err(ManagerError::of_kind(ErrorKind::Parse, "EOF while parsing a value".to_string()))
        }
        None => return Err(ManagerError::of_kind(ErrorKind::Io, "No such file".to_string())),
    };
    let outcome = plan.operation.apply(loaded)?;
    if let Some(bookmarks) = outcome.rewrite {
        *file = Some(bookmarks);
    }
    Ok(outcome.record.map(|bookmark| (bookmark.name, f64::from_bits(bookmark.offset))))
}

fn held(file: &Option<Vec<Bookmark>>) -> Vec<(String, f64)> {
    match file {
        Some(bookmarks) => bookmarks
            .iter()
            .map(|bookmark| (bookmark.name.clone(), f64::from_bits(bookmark.offset)))
            .collect(),
        None => panic!("there is no file"),
    }
}

#[test]
fn a_run_of_invocations_on_one_file() {
    let mut file: Option<Vec<Bookmark>> = None;

    let error = invoke(&mut file, "query", "alpha", None).unwrap_err();
    assert_eq!(error.kind, ErrorKind::Io);
    assert!(file.is_none());

    assert_eq!(invoke(&mut file, "add", "alpha", Some(3.5)).unwrap(), None);
    assert_eq!(held(&file), vec![("alpha".to_string(), 3.5)]);

    assert_eq!(invoke(&mut file, "add", "beta", Some(2.0)).unwrap(), None);
    assert_eq!(held(&file), vec![("beta".to_string(), 2.0), ("alpha".to_string(), 3.5)]);

    assert_eq!(invoke(&mut file, "add", "alpha", Some(1.0)).unwrap(), None);
    assert_eq!(held(&file), vec![("alpha".to_string(), 1.0), ("beta".to_string(), 2.0)]);

    assert_eq!(invoke(&mut file, "add", "alpha", Some(1.0)).unwrap(), None);
    assert_eq!(held(&file), vec![("alpha".to_string(), 1.0), ("beta".to_string(), 2.0)]);

    assert_eq!(
        invoke(&mut file, "query", "beta", None).unwrap(),
        Some(("beta".to_string(), 2.0))
    );
    assert_eq!(invoke(&mut file, "query", "missing", None).unwrap(), None);
    assert_eq!(held(&file), vec![("alpha".to_string(), 1.0), ("beta".to_string(), 2.0)]);

    assert_eq!(
        invoke(&mut file, "remove", "alpha", None).unwrap(),
        Some(("alpha".to_string(), 1.0))
    );
    assert_eq!(held(&file), vec![("beta".to_string(), 2.0)]);

    assert_eq!(invoke(&mut file, "remove", "alpha", None).unwrap(), None);
    assert_eq!(held(&file), vec![("beta".to_string(), 2.0)]);

    assert_eq!(
        invoke(&mut file, "remove", "beta", None).unwrap(),
        Some(("beta".to_string(), 2.0))
    );
    assert_eq!(held(&file), Vec::<(String, f64)>::new());

    let error = invoke(&mut file, "list", "beta", None).unwrap_err();
    assert_eq!(error.kind, ErrorKind::Usage);
    assert_eq!(held(&file), Vec::<(String, f64)>::new());
}
