use bookmark_store::error::ErrorKind;
use bookmark_store::error::ManagerError;

#[test]
fn new_is_a_usage_error_with_the_message() {
    let error = ManagerError::new("Unable to match subcommand");
    assert_eq!(error.kind, ErrorKind::Usage);
    assert_eq!(error.message, "Unable to match subcommand");
}

#[test]
fn new_takes_an_owned_message() {
    let error = ManagerError::new(String::from("Failed to find add subcommand"));
    assert_eq!(error.kind, ErrorKind::Usage);
    assert_eq!(error.message, "Failed to find add subcommand");
}

#[test]
fn of_kind_keeps_kind_and_message() {
    for kind in [ErrorKind::Usage, ErrorKind::Io, ErrorKind::Parse, ErrorKind::Serialization] {
        let error = ManagerError::of_kind(kind, "it failed".to_string());
        assert_eq!(error.kind, kind);
        assert_eq!(error.message, "it failed");
    }
}

#[test]
fn the_text_of_an_error_is_its_message() {
    let error = ManagerError::of_kind(ErrorKind::Io, "No such file or directory".to_string());
    assert_eq!(error.to_text(), "No such file or directory");
    assert_eq!(ManagerError::new("").to_text(), "");
}
