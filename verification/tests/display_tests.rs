use qasmsim::error::runtime_error_is_located;
use qasmsim::interpreter::runtime::RuntimeError;
use qasmsim::grammar::lexer::{LexicalError, Location, Tok};
use qasmsim::QasmType;

#[test]
fn tokens_are_shown_as_in_reports() {
    assert_eq!(Tok::Arrow.display(), "=>");
    assert_eq!(Tok::QReg.display(), "keyword `qreg`");
    assert_eq!(Tok::QASMHeader.display(), "qasm header `OPENQASM`");
    assert_eq!(Tok::Id { repr: "q".into() }.display(), "identifier `q`");
    assert_eq!(Tok::Str { repr: "a.inc".into() }.display(), "string literal `\"a.inc\"`");
    assert_eq!(Tok::Version { repr: "2.0".into() }.display(), "open qasm version `2.0`");
}

#[test]
fn locations_and_lexical_errors_are_shown_by_character() {
    assert_eq!(Location(42).display(), "character 42");
    assert_eq!(Location::new().display(), "character 0");
    assert_eq!(LexicalError::new_at(Location::new_at(7)).display(), "invalid token at character 7");
}

#[test]
fn qasm_types_are_shown_in_words() {
    assert_eq!(QasmType::RealValue.display(), "real value");
    assert_eq!(QasmType::Register.display(), "register");
    assert_eq!(QasmType::QuantumRegister.display(), "quantum register");
    assert_eq!(QasmType::ClassicalRegister.display(), "classical register");
}

#[test]
fn runtime_errors_are_reported_at_their_line() {
    let source = "OPENQASM 2.0;\nqreg q[2];\nU(0, 0, 0) q[7];\n";
    let program = qasmsim::parse_and_link(source).unwrap();
    let semantics = qasmsim::semantics::extract_semantics(&program).unwrap();
    let steps = qasmsim::interpreter::runtime::compile(&program, &semantics);
    let error = match &steps[1] {
        qasmsim::interpreter::runtime::Step::Run(Err(e)) => e.clone(),
        other => panic!("unexpected step {:?}", other),
    };
    let error = qasmsim::QasmSimError::from_runtime_error(source, error);
    assert_eq!(
        error,
        qasmsim::QasmSimError::IndexOutOfBounds {
            source: "U(0, 0, 0) q[7];\n".into(),
            lineno: 3,
            symbol_name: "q".into(),
            index: 7,
            size: 2
        }
    );
    assert!(error.is_describable());
    let text = error.display();
    assert!(text.contains("3 | U(0, 0, 0) q[7];"));
}

#[test]
fn runtime_errors_outside_the_source_are_not_located() {
    let error = RuntimeError::UndefinedGate { location: Location(3), symbol_name: "g".into() };
    assert!(runtime_error_is_located("abcd", &error));
    assert!(!runtime_error_is_located("ab", &error));
    assert!(!runtime_error_is_located("", &error));
    assert!(runtime_error_is_located("", &RuntimeError::Other));
}
