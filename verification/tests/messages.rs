use syspath::error::decimal_text;
use syspath::PathError;

#[test]
fn message_of_a_failed_lookup() {
    let error = PathError::Lookup {
        name: String::from("PATH"),
        cause: String::from("environment variable not found"),
    };
    assert_eq!(error.message(), "Unable to get path PATH. becuase environment variable not found");
}

#[test]
fn message_of_what_is_no_directory() {
    assert_eq!(PathError::NotADirectory.message(), "path provided is not a directory");
}

#[test]
fn message_of_a_failed_resolution() {
    let error = PathError::Resolution { candidate: String::from("./bin") };
    assert_eq!(error.message(), "Unable to convert ./bin to a full path");
}

#[test]
fn message_of_an_absent_directory() {
    assert_eq!(PathError::NotOnPath.message(), "The given directory is not on the path");
}

#[test]
fn message_of_an_index_out_of_range() {
    let error = PathError::IndexOutOfRange { index: 12, length: 4 };
    assert_eq!(
        error.message(),
        "Attempt to remove at index 12 however the length of the path is only 4"
    );
}

#[test]
fn message_of_a_removal_without_a_target() {
    assert_eq!(PathError::NoTargetSpecified.message(), "No folder has been set to be removed");
}

#[test]
fn message_of_an_invalid_pattern() {
    let error = PathError::InvalidPattern { pattern: String::from("foo(") };
    assert_eq!(error.message(), "Unable to use foo( as a pattern");
}

#[test]
fn message_of_a_failed_listing() {
    let error = PathError::Listing { directory: String::from("/gone") };
    assert_eq!(error.message(), "Unable to list the directory /gone");
}

#[test]
fn decimal_text_writes_numbers_as_std_does() {
    for n in [0usize, 1, 9, 10, 11, 99, 100, 101, 1234567890, usize::MAX - 1, usize::MAX] {
        assert_eq!(decimal_text(n), n.to_string());
    }
    assert_eq!(decimal_text(0), "0");
    assert_eq!(decimal_text(407), "407");
}
