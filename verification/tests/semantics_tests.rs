use std::collections::HashMap;
use std::iter::FromIterator;

use qasmsim::grammar::ast::{Argument, Expression, GateOperation, Opcode, UnitaryOperation};
use qasmsim::grammar::lexer::Location;
use qasmsim::grammar::parse_program;
use qasmsim::interpreter::argument_solver::ArgumentSolver;
use qasmsim::semantics::{
    extract_semantics, try_extract_semantics, MacroDefinition, MemoryMapEntry, RegisterEntry,
    RegisterType, SemanticError,
};

const FOUR_REGISTERS: &str = "
    OPENQASM 2.0;
    qreg q[2];
    creg c[2];
    qreg r[10];
    creg d[10];
    ";

#[test]
fn semantics_test_symbol_table_stores_register_info() {
    let source = "OPENQASM 2.0;\nqreg q[2];\ncreg c[2];\nqreg r[10];\ncreg d[10];\n";
    let tree = parse_program(source).unwrap();
    let semantics_result = extract_semantics(&tree);
    assert!(semantics_result.is_ok());

    let expected_register_table = HashMap::from_iter(vec![
        (
            "q".to_owned(),
            RegisterEntry("q".to_owned(), RegisterType::Q, 2, Location(14)),
        ),
        (
            "r".to_owned(),
            RegisterEntry("r".to_owned(), RegisterType::Q, 10, Location(36)),
        ),
        (
            "c".to_owned(),
            RegisterEntry("c".to_owned(), RegisterType::C, 2, Location(25)),
        ),
        (
            "d".to_owned(),
            RegisterEntry("d".to_owned(), RegisterType::C, 10, Location(48)),
        ),
    ]);
    if let Ok(semantics) = semantics_result {
        let table: HashMap<String, RegisterEntry> = HashMap::from_iter(semantics.register_table);
        assert_eq!(table, expected_register_table);
    }
}

#[test]
fn semantics_test_total_quantum_memory_size_is_ok() {
    let tree = parse_program(FOUR_REGISTERS).unwrap();
    let semantics_result = extract_semantics(&tree);
    assert!(semantics_result.is_ok());
    if let Ok(semantics) = semantics_result {
        assert_eq!(semantics.quantum_memory_size, 12);
    }
}

#[test]
fn semantics_test_total_classical_memory_size_is_ok() {
    let tree = parse_program(FOUR_REGISTERS).unwrap();
    let semantics_result = extract_semantics(&tree);
    assert!(semantics_result.is_ok());
    if let Ok(semantics) = semantics_result {
        assert_eq!(semantics.classical_memory_size, 12);
    }
}

#[test]
fn semantics_test_cannot_redeclare_a_register() {
    let sources = vec![
        "OPENQASM 2.0;\nqreg r[2];\nqreg r[2];\n",
        "OPENQASM 2.0;\nqreg r[2];\ncreg r[2];\n",
        "OPENQASM 2.0;\ncreg r[2];\ncreg r[2];\n",
        "OPENQASM 2.0;\ncreg r[2];\nqreg r[2];\n",
        "OPENQASM 2.0;\nqreg r[2];\nqreg r[20];\n",
        "OPENQASM 2.0;\ncreg r[2];\ncreg r[20];\n",
    ];
    for (index, source) in sources.iter().enumerate() {
        let tree = parse_program(source).unwrap();
        let error = extract_semantics(&tree).expect_err("should be a redeclaration error");
        println!("Using source sample #{}", index);
        assert_eq!(
            error,
            SemanticError::RedefinitionError {
                symbol_name: "r".into(),
                location: Location(25),
                previous_location: Location(14)
            }
        );
    }
}

#[test]
fn test_memory_map() {
    let tree = parse_program(FOUR_REGISTERS).unwrap();
    let semantics_result = extract_semantics(&tree);
    assert!(semantics_result.is_ok());
    let expected_memory_map = HashMap::from_iter(vec![
        ("q".to_owned(), MemoryMapEntry("q".to_owned(), 0, 1)),
        ("r".to_owned(), MemoryMapEntry("r".to_owned(), 2, 11)),
        ("c".to_owned(), MemoryMapEntry("c".to_owned(), 0, 1)),
        ("d".to_owned(), MemoryMapEntry("d".to_owned(), 0, 9)),
    ]);
    if let Ok(semantics) = semantics_result {
        let map: HashMap<String, MemoryMapEntry> = HashMap::from_iter(semantics.memory_map);
        assert_eq!(map, expected_memory_map);
    }
}

#[test]
fn test_macro_definitions() {
    let source = "OPENQASM 2.0;\ngate only_qubits q {\n  h q;\n}\nqreg q[2];\nU(0, 0, 0) q;\ngate reals_and_qubits (a, b) q, r {\n  U(a/b, 0, 0) q;\n}\n";
    let tree = parse_program(source).unwrap();
    let semantics_result = extract_semantics(&tree);
    assert!(semantics_result.is_ok());
    let expected_definitions = HashMap::from_iter(vec![
        (
            "only_qubits".to_owned(),
            MacroDefinition(
                "only_qubits".to_owned(),
                vec![],
                vec!["q".to_owned()],
                vec![GateOperation::Unitary(UnitaryOperation(
                    "h".to_owned(),
                    vec![],
                    vec![Argument::Id("q".to_owned())],
                ))],
                Location(14),
            ),
        ),
        (
            "reals_and_qubits".to_owned(),
            MacroDefinition(
                "reals_and_qubits".to_owned(),
                vec!["a".to_owned(), "b".to_owned()],
                vec!["q".to_owned(), "r".to_owned()],
                vec![GateOperation::Unitary(UnitaryOperation(
                    "U".to_owned(),
                    vec![
                        Expression::Op(
                            Opcode::Div,
                            Box::new(Expression::Id("a".to_owned())),
                            Box::new(Expression::Id("b".to_owned())),
                        ),
                        Expression::Int(0),
                        Expression::Int(0),
                    ],
                    vec![Argument::Id("q".to_owned())],
                ))],
                Location(69),
            ),
        ),
    ]);
    if let Ok(semantics) = semantics_result {
        let definitions: HashMap<String, MacroDefinition> =
            HashMap::from_iter(semantics.macro_definitions);
        assert_eq!(definitions, expected_definitions);
    }
}

#[test]
fn test_replace_formal_parameter_with_actual_parameter() {
    let actual_argument = Argument::Item("actual".to_owned(), 0);
    let bindings = vec![("formal".to_owned(), actual_argument.clone())];
    let solver = ArgumentSolver::new(&bindings);
    let formal_argument = Argument::Id("formal".to_owned());
    assert_eq!(solver.solve(&formal_argument), actual_argument);
}

#[test]
fn argument_solver_reports_unbound_names() {
    let bindings = vec![("formal".to_owned(), Argument::Id("q".to_owned()))];
    let solver = ArgumentSolver::new(&bindings);
    assert_eq!(
        solver.try_solve(&Argument::Id("other".to_owned())),
        Err("other".to_owned())
    );
    assert_eq!(
        solver.try_solve(&Argument::Item("formal".to_owned(), 1)),
        Err("formal".to_owned())
    );
    assert_eq!(
        solver.try_solve(&Argument::Id("formal".to_owned())),
        Ok(Argument::Id("q".to_owned()))
    );
}

#[test]
fn gate_redefinition_is_reported_at_both_places() {
    let source = "OPENQASM 2.0;\ngate g q {}\ngate g q {}\n";
    let tree = parse_program(source).unwrap();
    assert_eq!(
        extract_semantics(&tree),
        Err(SemanticError::RedefinitionError {
            symbol_name: "g".into(),
            location: Location(26),
            previous_location: Location(14)
        })
    );
}

#[test]
fn quantum_registers_are_laid_out_one_after_another() {
    let source = "OPENQASM 2.0;\nqreg a[1];\nqreg b[3];\nqreg c[2];\n";
    let tree = parse_program(source).unwrap();
    let semantics = extract_semantics(&tree).unwrap();
    let map: HashMap<String, MemoryMapEntry> = HashMap::from_iter(semantics.memory_map);
    assert_eq!(map["a"], MemoryMapEntry("a".to_owned(), 0, 0));
    assert_eq!(map["b"], MemoryMapEntry("b".to_owned(), 1, 3));
    assert_eq!(map["c"], MemoryMapEntry("c".to_owned(), 4, 5));
    assert_eq!(semantics.quantum_memory_size, 6);
    assert_eq!(semantics.classical_memory_size, 0);
}

#[test]
fn empty_registers_cannot_be_collected() {
    let tree = parse_program("OPENQASM 2.0;\nqreg q[0];\n").unwrap();
    assert!(try_extract_semantics(&tree).is_none());
    let tree = parse_program("OPENQASM 2.0;\ncreg c[0];\n").unwrap();
    assert!(try_extract_semantics(&tree).is_none());
    let tree = parse_program(FOUR_REGISTERS).unwrap();
    let checked = try_extract_semantics(&tree).unwrap().unwrap();
    assert_eq!(checked, extract_semantics(&tree).unwrap());
}

#[test]
fn mod_test_symbol_table_stores_register_info() {
    let tree = parse_program(FOUR_REGISTERS).unwrap();
    let semantics_result = extract_semantics(&tree);
    assert!(semantics_result.is_ok());
    let expected_register_table: HashMap<String, (String, RegisterType, usize)> = HashMap::from_iter(vec![
        ("q".to_owned(), ("q".to_owned(), RegisterType::Q, 2)),
        ("r".to_owned(), ("r".to_owned(), RegisterType::Q, 10)),
        ("c".to_owned(), ("c".to_owned(), RegisterType::C, 2)),
        ("d".to_owned(), ("d".to_owned(), RegisterType::C, 10)),
    ]);
    if let Ok(semantics) = semantics_result {
        let table: HashMap<String, (String, RegisterType, usize)> = semantics
            .register_table
            .into_iter()
            .map(|(name, entry)| (name, (entry.0, entry.1, entry.2)))
            .collect();
        assert_eq!(table, expected_register_table);
    }
}

#[test]
fn mod_test_total_quantum_memory_size_is_ok() {
    let tree = parse_program(FOUR_REGISTERS).unwrap();
    let semantics_result = extract_semantics(&tree);
    assert!(semantics_result.is_ok());
    if let Ok(semantics) = semantics_result {
        assert_eq!(semantics.quantum_memory_size, 12);
    }
}

#[test]
fn mod_test_total_classical_memory_size_is_ok() {
    let tree = parse_program(FOUR_REGISTERS).unwrap();
    let semantics_result = extract_semantics(&tree);
    assert!(semantics_result.is_ok());
    if let Ok(semantics) = semantics_result {
        assert_eq!(semantics.classical_memory_size, 12);
    }
}

#[test]
fn memory_entries_are_named_after_their_registers() {
    let tree = parse_program(FOUR_REGISTERS).unwrap();
    let semantics = extract_semantics(&tree).unwrap();
    for (name, entry) in &semantics.memory_map {
        assert_eq!(name, &entry.0);
    }
}
