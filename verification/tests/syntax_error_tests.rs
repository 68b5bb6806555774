use qasmsim::grammar::lexer::Tok;
use qasmsim::parse_and_link;
use qasmsim::QasmSimError;

#[test]
fn test_missing_semicolon_at_eof() {
    let source = "OPENQASM 2.0;\nqreg q[10]";
    let err = parse_and_link(source).unwrap_err();
    assert_eq!(
        err,
        QasmSimError::UnexpectedEOF {
            source: "qreg q[10]".into(),
            lineno: 2,
            startpos: 10,
            endpos: None,
            token: None,
            expected: vec!["\";\"".into()]
        }
    );
}

#[test]
fn test_missing_semicolon_almost_at_eof() {
    let source = "OPENQASM 2.0;\nqreg q[10]\n";
    let err = parse_and_link(source).unwrap_err();
    assert_eq!(
        err,
        QasmSimError::UnexpectedEOF {
            source: "qreg q[10]\n".into(),
            lineno: 2,
            startpos: 10,
            endpos: None,
            token: None,
            expected: vec!["\";\"".into()]
        }
    );
}

#[test]
fn test_missing_semicolon_between_two_instructions() {
    let source = "OPENQASM 2.0;\nqreg q[10]\nqreg r[10];\n";
    let err = parse_and_link(source).unwrap_err();
    assert_eq!(
        err,
        QasmSimError::UnexpectedToken {
            source: "qreg r[10];\n".into(),
            lineno: 3,
            startpos: 0,
            endpos: Some(4),
            token: Some(Tok::QReg),
            expected: vec!["\";\"".into()]
        }
    );
}

#[test]
fn test_missing_bracket() {
    let source = "OPENQASM 2.0;\nqreg q[10;\n";
    let err = parse_and_link(source).unwrap_err();
    assert_eq!(
        err,
        QasmSimError::UnexpectedToken {
            source: "qreg q[10;\n".into(),
            lineno: 2,
            startpos: 9,
            endpos: Some(10),
            token: Some(Tok::Semi),
            expected: vec!["\"]\"".into()]
        }
    );
}

#[test]
fn test_missing_openqasm_header() {
    let source = "qreg q[10];\n";
    let err = parse_and_link(source).unwrap_err();
    assert_eq!(
        err,
        QasmSimError::UnexpectedToken {
            source: "qreg q[10];\n".into(),
            lineno: 1,
            startpos: 0,
            endpos: Some(4),
            token: Some(Tok::QReg),
            expected: vec!["\"OPENQASM\"".into()]
        }
    );
}

#[test]
fn test_misspelling_openqasm_header() {
    let source = "OEPNQASM 2.0;\nqreg q[10];\n";
    let err = parse_and_link(source).unwrap_err();
    assert_eq!(
        err,
        QasmSimError::InvalidToken {
            source: "OEPNQASM 2.0;\n".into(),
            lineno: 1,
            startpos: 0,
            endpos: None,
            token: None,
            expected: Vec::new()
        }
    );
}

#[test]
fn test_missing_openqasm_version() {
    let source = "OPENQASM;\nqreg q[10];\n";
    let err = parse_and_link(source).unwrap_err();
    assert_eq!(
        err,
        QasmSimError::UnexpectedToken {
            source: "OPENQASM;\n".into(),
            lineno: 1,
            startpos: 8,
            endpos: Some(9),
            token: Some(Tok::Semi),
            expected: vec!["version".into()]
        }
    );
}

#[test]
#[should_panic]
fn test_missing_arrow() {
    let source = "OPENQASM 2.0;\nqreg q[1];\ncreg c[1];\nmeasure q c;\n";
    let err = parse_and_link(source).unwrap_err();
    assert_eq!(
        err,
        QasmSimError::UnexpectedToken {
            source: "measure q c;\n".into(),
            lineno: 4,
            startpos: 10,
            endpos: Some(11),
            token: Some(Tok::Id { repr: "c".into() }),
            expected: vec!["\"->\"".into()]
        }
    );
}

#[test]
fn missing_library_is_reported_at_its_include() {
    let source = "OPENQASM 2.0;\ninclude \"nowhere.inc\";\n";
    let err = parse_and_link(source).unwrap_err();
    assert_eq!(
        err,
        QasmSimError::LibraryNotFound {
            source: "include \"nowhere.inc\";\n".into(),
            libpath: "nowhere.inc".into(),
            lineno: 2
        }
    );
}
