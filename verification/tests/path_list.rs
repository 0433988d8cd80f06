use syspath::{Candidate, Delimiter, PathError, SystemPath};

fn directory(path: &str) -> Candidate {
    Candidate {
        path: String::from(path),
        is_directory: true,
        canonical: Some(String::from(path)),
    }
}

fn entries(path: &SystemPath) -> Vec<String> {
    path.directories().clone()
}

#[test]
fn from() {
    let test_paths = vec!["/bin:/lib:/temp"];

    for test_path in test_paths {
        let sys_path =
            SystemPath::from(String::from("_TEST_CAM_"), Ok(String::from(test_path))).unwrap();
        assert_eq!(sys_path.to_string().unwrap(), test_path);
    }
}

#[test]
fn add() {
    let test_paths = vec![("/bin:/lib:/temp", "/proc", "/bin:/lib:/temp:/proc")];

    for (test_path, added_dir, expected_path) in test_paths {
        let mut sys_path =
            SystemPath::from(String::from("_TEST_CAM_"), Ok(String::from(test_path))).unwrap();
        let path = directory(added_dir);
        sys_path.add(&path).unwrap();

        assert_eq!(sys_path.to_string().unwrap(), expected_path);
    }
}

#[test]
fn remove() {
    let test_paths = vec![("/bin:/lib:/temp:/proc", "/proc", "/bin:/lib:/temp")];

    for (test_path, added_dir, expected_path) in test_paths {
        let mut sys_path =
            SystemPath::from(String::from("_TEST_CAM_"), Ok(String::from(test_path))).unwrap();
        let path = directory(added_dir);
        sys_path.remove(&path).unwrap();

        assert_eq!(sys_path.to_string().unwrap(), expected_path);
    }
}

#[test]
fn remove_at() {
    let test_paths = vec![("/bin:/lib:/temp:/proc", "/bin:/lib:/temp")];

    for (test_path, expected_path) in test_paths {
        let mut sys_path =
            SystemPath::from(String::from("_TEST_CAM_"), Ok(String::from(test_path))).unwrap();
        sys_path.remove_at(&3).unwrap();

        assert_eq!(sys_path.to_string().unwrap(), expected_path);
    }
}

#[test]
fn remove_either() {
    let test_paths = vec![("/bin:/lib:/temp:/proc", "/bin:/lib:/temp")];

    for (test_path, expected_path) in test_paths {
        let mut sys_path =
            SystemPath::from(String::from("_TEST_CAM_"), Ok(String::from(test_path))).unwrap();
        sys_path.remove_either(&None, &Some(3)).unwrap();

        assert_eq!(sys_path.to_string().unwrap(), expected_path);
    }

    let test_paths = vec![("/bin:/lib:/temp:/proc", "/proc", "/bin:/lib:/temp")];

    for (test_path, added_dir, expected_path) in test_paths {
        let mut sys_path =
            SystemPath::from(String::from("_TEST_CAM_"), Ok(String::from(test_path))).unwrap();
        let path = directory(added_dir);
        sys_path.remove_either(&Some(path), &None).unwrap();

        assert_eq!(sys_path.to_string().unwrap(), expected_path);
    }
}

#[test]
fn from_reports_a_variable_that_cannot_be_read() {
    let outcome = SystemPath::from(
        String::from("_TEST_CAM_"),
        Err(String::from("environment variable not found")),
    );
    assert_eq!(
        outcome,
        Err(PathError::Lookup {
            name: String::from("_TEST_CAM_"),
            cause: String::from("environment variable not found"),
        })
    );
}

#[test]
fn seporator_is_one_of_the_two_delimiters() {
    let text = SystemPath::seporator();
    assert!(text == ":" || text == ";");
    assert_eq!(text, Delimiter::native().as_str());
}

#[test]
fn parse_keeps_every_piece() {
    let path = SystemPath::parse("/bin::/usr/bin: /opt :", Delimiter::Colon);
    assert_eq!(entries(&path), vec!["/bin", "", "/usr/bin", " /opt ", ""]);
    assert_eq!(path.len(), 5);
    assert_eq!(path.delimiter(), Delimiter::Colon);
}

#[test]
fn parse_of_the_empty_text_is_one_empty_entry() {
    let path = SystemPath::parse("", Delimiter::Colon);
    assert_eq!(entries(&path), vec![""]);
    assert_eq!(path.to_string().unwrap(), "");
}

#[test]
fn parse_with_semicolons_leaves_colons_alone() {
    let path = SystemPath::parse("C:\\Users;C:\\Windows", Delimiter::Semicolon);
    assert_eq!(entries(&path), vec!["C:\\Users", "C:\\Windows"]);
    assert_eq!(path.to_string().unwrap(), "C:\\Users;C:\\Windows");
}

#[test]
fn parse_handles_characters_of_several_bytes() {
    let path = SystemPath::parse("/ヅ/bin:/opt/é:ü", Delimiter::Colon);
    assert_eq!(entries(&path), vec!["/ヅ/bin", "/opt/é", "ü"]);
    assert_eq!(path.to_string().unwrap(), "/ヅ/bin:/opt/é:ü");
}

#[test]
fn writing_a_parsed_text_gives_the_text_back() {
    for text in ["", ":", "::", "a", "a:", ":a", "/bin:/lib:/temp", "a;b:c;d", "x::y:::z"] {
        for delimiter in [Delimiter::Colon, Delimiter::Semicolon] {
            let path = SystemPath::parse(text, delimiter);
            assert_eq!(path.to_string().unwrap(), text);
        }
    }
}

#[test]
fn add_appends_the_canonical_form() {
    let mut path = SystemPath::parse("A:B", Delimiter::Colon);
    let candidate = Candidate {
        path: String::from("C"),
        is_directory: true,
        canonical: Some(String::from("/abs/C")),
    };
    let printed = path.add(&candidate).unwrap();
    assert_eq!(entries(&path), vec!["A", "B", "/abs/C"]);
    assert_eq!(printed, "A:B:/abs/C");
    assert_eq!(printed, path.to_string().unwrap());
}

#[test]
fn add_keeps_duplicates() {
    let mut path = SystemPath::parse("/bin:/lib", Delimiter::Colon);
    path.add(&directory("/bin")).unwrap();
    assert_eq!(entries(&path), vec!["/bin", "/lib", "/bin"]);
}

#[test]
fn add_refuses_what_is_no_directory() {
    let mut path = SystemPath::parse("A:B", Delimiter::Colon);
    let candidate = Candidate {
        path: String::from("C"),
        is_directory: false,
        canonical: Some(String::from("/abs/C")),
    };
    assert_eq!(path.add(&candidate), Err(PathError::NotADirectory));
    assert_eq!(entries(&path), vec!["A", "B"]);
}

#[test]
fn add_refuses_what_cannot_be_resolved() {
    let mut path = SystemPath::parse("A:B", Delimiter::Colon);
    let candidate = Candidate { path: String::from("C"), is_directory: true, canonical: None };
    assert_eq!(
        path.add(&candidate),
        Err(PathError::Resolution { candidate: String::from("C") })
    );
    assert_eq!(entries(&path), vec!["A", "B"]);
}

#[test]
fn remove_takes_the_named_entry_out() {
    let mut path = SystemPath::parse("A:B:C", Delimiter::Colon);
    let printed = path.remove(&directory("B")).unwrap();
    assert_eq!(entries(&path), vec!["A", "C"]);
    assert_eq!(printed, "A:C");
}

#[test]
fn remove_of_an_absent_directory_changes_nothing() {
    let mut path = SystemPath::parse("A:B:C", Delimiter::Colon);
    assert_eq!(path.remove(&directory("D")), Err(PathError::NotOnPath));
    assert_eq!(entries(&path), vec!["A", "B", "C"]);
}

#[test]
fn remove_takes_the_last_of_equal_entries() {
    let mut path = SystemPath::parse("A:B:A:C", Delimiter::Colon);
    path.remove(&directory("A")).unwrap();
    assert_eq!(entries(&path), vec!["A", "B", "C"]);
}

#[test]
fn remove_compares_the_name_as_given() {
    let mut path = SystemPath::parse("/abs/B:B", Delimiter::Colon);
    let candidate = Candidate {
        path: String::from("B"),
        is_directory: true,
        canonical: Some(String::from("/abs/B")),
    };
    path.remove(&candidate).unwrap();
    assert_eq!(entries(&path), vec!["/abs/B"]);
}

#[test]
fn remove_refuses_what_is_no_directory() {
    let mut path = SystemPath::parse("A:B:C", Delimiter::Colon);
    let candidate = Candidate { path: String::from("B"), is_directory: false, canonical: None };
    assert_eq!(path.remove(&candidate), Err(PathError::NotADirectory));
    assert_eq!(entries(&path), vec!["A", "B", "C"]);
}

#[test]
fn remove_at_the_last_index_and_one_past_it() {
    let mut path = SystemPath::parse("A:B:C:D", Delimiter::Colon);
    assert_eq!(
        path.remove_at(&4),
        Err(PathError::IndexOutOfRange { index: 4, length: 4 })
    );
    assert_eq!(entries(&path), vec!["A", "B", "C", "D"]);
    assert_eq!(path.remove_at(&3), Ok(String::from("A:B:C")));
    assert_eq!(entries(&path), vec!["A", "B", "C"]);
}

#[test]
fn remove_at_shifts_the_later_entries_down() {
    let mut path = SystemPath::parse("A:B:C:D", Delimiter::Colon);
    path.remove_at(&1).unwrap();
    assert_eq!(entries(&path), vec!["A", "C", "D"]);
    path.remove_at(&0).unwrap();
    assert_eq!(entries(&path), vec!["C", "D"]);
}

#[test]
fn remove_at_far_out_of_range() {
    let mut path = SystemPath::parse("A", Delimiter::Colon);
    assert_eq!(
        path.remove_at(&usize::MAX),
        Err(PathError::IndexOutOfRange { index: usize::MAX, length: 1 })
    );
}

#[test]
fn remove_either_prefers_the_directory() {
    let mut path = SystemPath::parse("A:B:C", Delimiter::Colon);
    path.remove_either(&Some(directory("C")), &Some(0)).unwrap();
    assert_eq!(entries(&path), vec!["A", "B"]);

    let mut path = SystemPath::parse("A:B:C", Delimiter::Colon);
    assert_eq!(
        path.remove_either(&Some(directory("D")), &Some(0)),
        Err(PathError::NotOnPath)
    );
    assert_eq!(entries(&path), vec!["A", "B", "C"]);
}

#[test]
fn remove_either_without_a_target() {
    let mut path = SystemPath::parse("A:B:C", Delimiter::Colon);
    assert_eq!(path.remove_either(&None, &None), Err(PathError::NoTargetSpecified));
    assert_eq!(entries(&path), vec!["A", "B", "C"]);
}

#[test]
fn removing_and_adding_again_moves_the_entry_to_the_end() {
    let mut path = SystemPath::parse("A:B:C", Delimiter::Colon);
    path.remove_at(&0).unwrap();
    path.add(&directory("A")).unwrap();
    assert_eq!(entries(&path), vec!["B", "C", "A"]);
    assert_eq!(path.directories()[2], "A");

    let mut path = SystemPath::parse("A:B:C", Delimiter::Colon);
    path.remove_at(&2).unwrap();
    path.add(&directory("C")).unwrap();
    assert_eq!(entries(&path), vec!["A", "B", "C"]);
}

#[test]
fn delimiter_of_a_convention() {
    assert_eq!(Delimiter::of_convention(true), Delimiter::Semicolon);
    assert_eq!(Delimiter::of_convention(false), Delimiter::Colon);
    assert_eq!(Delimiter::Colon.to_char(), ':');
    assert_eq!(Delimiter::Semicolon.to_char(), ';');
    assert_eq!(Delimiter::Colon.as_str(), ":");
    assert_eq!(Delimiter::Semicolon.as_str(), ";");
}

#[test]
fn native_delimiter_follows_the_platform() {
    let expected = if std::path::MAIN_SEPARATOR == '\\' {
        Delimiter::Semicolon
    } else {
        Delimiter::Colon
    };
    assert_eq!(Delimiter::native(), expected);
    let path = SystemPath::from(String::from("PATH"), Ok(String::from("a:b;c"))).unwrap();
    assert_eq!(path.delimiter(), expected);
}
