use qasmsim::humanize::{expectation, hint, human_description, humanize, humanize_error, list_of_choices, HumanDescription};
use qasmsim::QasmSimError;

#[test]
fn humanize_test_eof_error() {
    let error = HumanDescription {
        msg: r#"expected ";", found EOF"#.into(),
        lineno: 777,
        startpos: 10,
        endpos: None,
        linesrc: "qreg q[10]".into(),
        help: Some(r#"add ";" here"#.into()),
    };
    let mut buffer = String::new();
    humanize(&mut buffer, &error);
    assert_eq!(
        buffer,
        "error: expected \";\", found EOF\n    |\n777 | qreg q[10]\n    |           ^ help: add \";\" here\n"
    );
}

#[test]
fn humanize_test_complete_error() {
    let error = HumanDescription {
        msg: r#"expected ";", found "qreg""#.into(),
        lineno: 778,
        startpos: 0,
        endpos: Some(4),
        linesrc: "qreg r[10]\n".into(),
        help: Some(r#"add ";" at the end of the previous line"#.into()),
    };
    let mut buffer = String::new();
    humanize(&mut buffer, &error);
    assert_eq!(
        buffer,
        "error: expected \";\", found \"qreg\"\n    |\n778 | qreg r[10]\n    | ^^^^ help: add \";\" at the end of the previous line\n"
    );
}

#[test]
fn humanize_test_no_hint_error() {
    let error = HumanDescription {
        msg: r#"unexpected keyword `qreg` found"#.into(),
        lineno: 778,
        startpos: 0,
        endpos: Some(4),
        linesrc: "qreg r[10]\n".into(),
        help: None,
    };
    let mut buffer = String::new();
    humanize(&mut buffer, &error);
    assert_eq!(
        buffer,
        "error: unexpected keyword `qreg` found\n    |\n778 | qreg r[10]\n    | ^^^^ help: unexpected keyword `qreg` found\n"
    );
}

#[test]
fn humanize_test_trim_line_source_end() {
    let error = HumanDescription {
        msg: r#"unexpected keyword `qreg` found"#.into(),
        lineno: 778,
        startpos: 0,
        endpos: Some(4),
        linesrc: "qreg r[10]    \n".into(),
        help: None,
    };
    let mut buffer = String::new();
    humanize(&mut buffer, &error);
    assert_eq!(
        buffer,
        "error: unexpected keyword `qreg` found\n    |\n778 | qreg r[10]\n    | ^^^^ help: unexpected keyword `qreg` found\n"
    );
}

#[test]
fn humanize_test_preserve_line_source_start() {
    let error = HumanDescription {
        msg: r#"unexpected keyword `qreg` found"#.into(),
        lineno: 778,
        startpos: 2,
        endpos: Some(6),
        linesrc: "  qreg r[10]    \n".into(),
        help: None,
    };
    let mut buffer = String::new();
    humanize(&mut buffer, &error);
    assert_eq!(
        buffer,
        "error: unexpected keyword `qreg` found\n    |\n778 |   qreg r[10]\n    |   ^^^^ help: unexpected keyword `qreg` found\n"
    );
}

#[test]
fn list_of_choices_joins_with_or() {
    assert_eq!(list_of_choices(&vec![]), None);
    assert_eq!(list_of_choices(&vec!["a".to_string()]), Some("a".to_string()));
    assert_eq!(
        list_of_choices(&vec!["a".to_string(), "b".to_string(), "c".to_string()]),
        Some("a, b, or c".to_string())
    );
}

#[test]
fn expectations_and_hints() {
    assert_eq!(expectation(&vec!["\";\"".to_string()]), "expected \";\"".to_string());
    assert_eq!(hint(&vec!["\";\"".to_string()]), "consider adding \";\"".to_string());
    assert_eq!(hint(&vec!["a".to_string()]), "consider adding one of a".to_string());
}

#[test]
fn human_description_of_an_unexpected_end_of_file() {
    let error = QasmSimError::UnexpectedEOF {
        source: "qreg q[10]".into(),
        lineno: 2,
        startpos: 10,
        endpos: None,
        token: None,
        expected: vec!["\";\"".into()],
    };
    let description = human_description(&error).unwrap();
    assert_eq!(description.lineno, 2);
    assert_eq!(description.startpos, 10);
    assert_eq!(description.linesrc, "qreg q[10]".to_string());
    let mut buffer = String::new();
    humanize_error(&mut buffer, &error);
    assert!(buffer.starts_with("error: "));
    assert!(buffer.contains("2 | qreg q[10]\n"));
}

#[test]
fn unknown_errors_are_shown_by_their_message() {
    let error = QasmSimError::UnknownError("boom".into());
    assert!(error.is_describable());
    assert!(human_description(&error).is_none());
    assert_eq!(error.display(), "boom".to_string());
}

#[test]
fn descriptions_copy_positions_as_they_are() {
    let error = QasmSimError::InvalidToken {
        source: "qreg q;".into(),
        lineno: 1,
        startpos: 5,
        endpos: Some(2),
        token: None,
        expected: vec![],
    };
    let description = human_description(&error).unwrap();
    assert_eq!(description.startpos, 5);
    assert_eq!(description.endpos, Some(2));
    assert!(!error.is_describable());
}
