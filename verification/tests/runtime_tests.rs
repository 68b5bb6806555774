use qasmsim::grammar::ast::{Expression, Opcode};
use qasmsim::grammar::lexer::Location;
use qasmsim::grammar::parse_program;
use qasmsim::interpreter::runtime::{
    compile, initial_memory, macros_are_well_formed, program_is_well_formed, record_measurement,
    should_run, Instruction, RuntimeError, Step,
};
use qasmsim::semantics::extract_semantics;
use qasmsim::{parse_and_link, QasmType};

fn steps_of(source: &str) -> Vec<Step> {
    let program = parse_and_link(source).unwrap();
    let semantics = extract_semantics(&program).unwrap();
    assert!(program_is_well_formed(&program));
    assert!(macros_are_well_formed(&semantics));
    compile(&program, &semantics)
}

fn instructions(steps: Vec<Step>) -> Vec<Instruction> {
    let mut out = Vec::new();
    for step in steps {
        match step {
            Step::Run(Ok(v)) => out.extend(v),
            other => panic!("unexpected step {:?}", other),
        }
    }
    out
}

#[test]
fn bell_circuit_compiles_to_primitive_instructions() {
    let source = "OPENQASM 2.0;\nqreg q[2];\ncreg c[2];\nU(pi/2, 0, pi) q[0];\nCX q[0], q[1];\nmeasure q -> c;\n";
    let compiled = instructions(steps_of(source));
    assert_eq!(
        compiled,
        vec![
            Instruction::U(
                Expression::Op(Opcode::Div, Box::new(Expression::Pi), Box::new(Expression::Int(2))),
                Expression::Int(0),
                Expression::Pi,
                0
            ),
            Instruction::CX(0, 1),
            Instruction::Measure(0, "c".to_string(), 0),
            Instruction::Measure(1, "c".to_string(), 1),
        ]
    );
}

#[test]
fn gates_on_whole_registers_expand_over_their_qubits() {
    let source = "OPENQASM 2.0;\nqreg a[1];\nqreg b[2];\nU(0, 0, 0) b;\n";
    let compiled = instructions(steps_of(source));
    assert_eq!(
        compiled,
        vec![
            Instruction::U(Expression::Int(0), Expression::Int(0), Expression::Int(0), 1),
            Instruction::U(Expression::Int(0), Expression::Int(0), Expression::Int(0), 2),
        ]
    );
}

#[test]
fn custom_gates_substitute_their_parameters() {
    let source = "OPENQASM 2.0;\ngate g(t) x, y { U(t, 0, 0) x; CX x, y; }\nqreg q[2];\ng(pi) q[1], q[0];\n";
    let compiled = instructions(steps_of(source));
    assert_eq!(
        compiled,
        vec![
            Instruction::U(Expression::Pi, Expression::Int(0), Expression::Int(0), 1),
            Instruction::CX(1, 0),
        ]
    );
}

#[test]
fn out_of_bounds_index_is_an_error_at_the_statement() {
    let source = "OPENQASM 2.0;\nqreg q[2];\nU(0, 0, 0) q[5];\n";
    let steps = steps_of(source);
    assert_eq!(
        steps[1],
        Step::Run(Err(RuntimeError::IndexOutOfBounds {
            location: Location(25),
            symbol_name: "q".to_string(),
            index: 5,
            size: 2
        }))
    );
}

#[test]
fn undefined_gate_and_unknown_register_are_errors() {
    let source = "OPENQASM 2.0;\nqreg q[2];\nfoo q;\nU(0, 0, 0) r;\n";
    let steps = steps_of(source);
    assert_eq!(
        steps[1],
        Step::Run(Err(RuntimeError::UndefinedGate {
            location: Location(25),
            symbol_name: "foo".to_string()
        }))
    );
    assert_eq!(
        steps[2],
        Step::Run(Err(RuntimeError::SymbolNotFound {
            location: Location(32),
            symbol_name: "r".to_string(),
            expected: QasmType::QuantumRegister
        }))
    );
}

#[test]
fn wrong_number_of_parameters_is_an_error() {
    let source = "OPENQASM 2.0;\ngate g(t) x { U(t, 0, 0) x; }\nqreg q[1];\ng q[0];\n";
    let steps = steps_of(source);
    match &steps[2] {
        Step::Run(Err(RuntimeError::WrongNumberOfParameters {
            are_registers,
            symbol_name,
            expected,
            given,
            ..
        })) => {
            assert!(!are_registers);
            assert_eq!(symbol_name, "g");
            assert_eq!(*expected, 1);
            assert_eq!(*given, 0);
        }
        other => panic!("unexpected step {:?}", other),
    }
}

#[test]
fn register_size_mismatch_is_an_error() {
    let source = "OPENQASM 2.0;\nqreg a[2];\nqreg b[3];\nCX a, b;\n";
    let steps = steps_of(source);
    match &steps[2] {
        Step::Run(Err(RuntimeError::RegisterSizeMismatch { symbol_name, sizes, .. })) => {
            assert_eq!(symbol_name, "CX");
            assert_eq!(sizes, &vec![2, 3]);
        }
        other => panic!("unexpected step {:?}", other),
    }
}

#[test]
fn conditional_steps_run_only_on_matching_memory() {
    let source = "OPENQASM 2.0;\nqreg q[1];\ncreg c[2];\nif (c==2) U(0, 0, 0) q[0];\n";
    let program = parse_and_link(source).unwrap();
    let semantics = extract_semantics(&program).unwrap();
    let steps = compile(&program, &semantics);
    let mut memory = initial_memory(&semantics);
    assert_eq!(memory, vec![("c".to_string(), 0)]);
    assert!(!should_run(&steps[2], &memory));
    record_measurement(&mut memory, &"c".to_string(), 1, 1);
    assert_eq!(memory, vec![("c".to_string(), 2)]);
    assert!(should_run(&steps[2], &memory));
    assert!(should_run(&steps[0], &memory));
}

#[test]
fn measurements_add_the_weight_of_their_bit() {
    let mut memory = vec![("a".to_string(), 0), ("b".to_string(), 1)];
    record_measurement(&mut memory, &"b".to_string(), 3, 1);
    record_measurement(&mut memory, &"b".to_string(), 2, 0);
    assert_eq!(memory, vec![("a".to_string(), 0), ("b".to_string(), 9)]);
}

#[test]
fn qelib_gates_compile() {
    let source = "OPENQASM 2.0;\ninclude \"qelib1.inc\";\nqreg q[2];\nh q[0];\ncx q[0], q[1];\n";
    let compiled = instructions(steps_of(source));
    assert_eq!(compiled.len(), 2);
    assert!(matches!(compiled[0], Instruction::U(_, _, _, 0)));
    assert_eq!(compiled[1], Instruction::CX(0, 1));
}

#[test]
fn compiled_instructions_stay_within_memory() {
    let source = "OPENQASM 2.0;\ninclude \"qelib1.inc\";\nqreg a[2];\nqreg b[3];\ncreg c[3];\nh b;\ncx a[1], b[2];\nccx a[0], a[1], b[0];\nmeasure b -> c;\n";
    let program = parse_and_link(source).unwrap();
    let semantics = extract_semantics(&program).unwrap();
    let qsize = semantics.quantum_memory_size;
    assert_eq!(qsize, 5);
    let mut count = 0;
    for step in compile(&program, &semantics) {
        if let Step::Run(Ok(instructions)) = step {
            for instruction in instructions {
                count += 1;
                match instruction {
                    Instruction::U(_, _, _, t) => assert!(t < qsize),
                    Instruction::CX(c, t) => assert!(c < qsize && t < qsize && c != t),
                    Instruction::Measure(q, r, b) => {
                        assert!(q < qsize);
                        assert_eq!(r, "c");
                        assert!(b < 3);
                    }
                }
            }
        }
    }
    assert!(count > 10);
}

#[test]
fn gates_nest_as_deep_as_their_definitions() {
    let source = "OPENQASM 2.0;\ngate a x { U(0, 0, 0) x; }\ngate b x { a x; }\ngate c x { b x; }\nqreg q[1];\nc q[0];\n";
    let compiled = instructions(steps_of(source));
    assert_eq!(compiled, vec![Instruction::U(Expression::Int(0), Expression::Int(0), Expression::Int(0), 0)]);
}

#[test]
fn recursive_gates_are_an_unknown_error() {
    let source = "OPENQASM 2.0;\ngate a x { b x; }\ngate b x { a x; }\nqreg q[1];\na q[0];\n";
    let steps = steps_of(source);
    assert_eq!(steps[3], Step::Run(Err(RuntimeError::Other)));
}
