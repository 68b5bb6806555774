use qasmsim::api::{compile, gate_docstring};
use qasmsim::error::extract_line;
use qasmsim::{compile_with_linker, default_linker, get_gate_info, parse_and_link, ExecutionTimes, QasmSimError};

#[test]
fn get_gate_info_returns_docstring_and_signature() {
    let (docstring, (name, real_params, quantum_params)) = get_gate_info(
        r#"
    OPENQASM 2.0;
    // 3-parameter 2-pulse single qubit gate
    gate u3(theta,phi,lambda) q { U(theta,phi,lambda) q; }
"#,
        "u3",
    )
    .unwrap();
    assert_eq!(docstring, String::from(" 3-parameter 2-pulse single qubit gate\n"));
    assert_eq!(name, String::from("u3"));
    assert_eq!(
        real_params,
        vec![String::from("theta"), String::from("phi"), String::from("lambda")]
    );
    assert_eq!(quantum_params, vec![String::from("q")]);
}

#[test]
fn get_gate_info_fails_for_unknown_gates() {
    let err = get_gate_info("OPENQASM 2.0;\nqreg q[1];\n", "nope").unwrap_err();
    assert_eq!(
        err,
        QasmSimError::UndefinedGate {
            source: "".into(),
            lineno: 0,
            symbol_name: "nope".into()
        }
    );
}

#[test]
fn get_gate_info_of_qelib_gates() {
    let (_, (name, reals, args)) =
        get_gate_info("OPENQASM 2.0;\ninclude \"qelib1.inc\";\n", "cx").unwrap();
    assert_eq!(name, "cx");
    assert!(reals.is_empty());
    assert_eq!(args, vec!["c".to_string(), "t".to_string()]);
}

#[test]
fn docstrings_are_the_comments_right_above_a_gate() {
    let source = "// not this one\n\n// first\n// second\ngate g q {}\n";
    assert_eq!(gate_docstring(source, "g"), " first\n second\n".to_string());
    assert_eq!(gate_docstring(source, "h"), "".to_string());
}

#[test]
fn parse_and_link_includes_qelib() {
    let program = parse_and_link("OPENQASM 2.0;\ninclude \"qelib1.inc\";\nqreg q[1];\n").unwrap();
    assert!(program.program.len() > 20);
    let compiled = compile_with_linker("OPENQASM 2.0;\ninclude \"qelib1.inc\";\nqreg q[1];\n", default_linker()).unwrap();
    assert_eq!(program, compiled);
}

#[test]
fn compile_does_not_link() {
    let program = compile("OPENQASM 2.0;\ninclude \"qelib1.inc\";\n").unwrap();
    assert_eq!(program.program.len(), 1);
}

#[test]
fn extract_line_finds_the_line_of_an_offset() {
    let doc = "line 1\nline 2\nline 3";
    assert_eq!(extract_line(0, None, doc), ("line 1\n".to_string(), 1, 0, None));
    assert_eq!(extract_line(9, Some(11), doc), ("line 2\n".to_string(), 2, 2, Some(4)));
    assert_eq!(extract_line(16, None, doc), ("line 3".to_string(), 3, 2, None));
}

#[test]
fn execution_times_keep_their_values() {
    let times = ExecutionTimes::new(3, 5);
    assert_eq!(times.parsing_time, 3);
    assert_eq!(times.simulation_time, 5);
}

#[test]
fn compile_with_linker_reports_missing_libraries_by_message() {
    let err = compile_with_linker("OPENQASM 2.0;\ninclude \"nowhere.inc\";\n", default_linker()).unwrap_err();
    assert_eq!(err, QasmSimError::UnknownError("Library `nowhere.inc` not found".to_string()));
}
