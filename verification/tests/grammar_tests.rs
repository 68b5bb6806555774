use qasmsim::grammar::ast::{
    Argument, Expression, GateOperation, Opcode, OpenQasmProgram, QuantumOperation, Span,
    Statement, UnitaryOperation,
};
use qasmsim::grammar::lexer::Location;
use qasmsim::grammar::{parse_expression, parse_program, parse_program_body, parse_statement};

fn span(left: usize, node: Statement, right: usize) -> Span<Statement> {
    Span {
        boundaries: (Location(left), Location(right)),
        node: Box::new(node),
    }
}

fn nodes(spans: Vec<Span<Statement>>) -> Vec<Statement> {
    spans.into_iter().map(|s| *s.node).collect()
}

#[test]
fn grammar_test_parse_open_qasm() {
    let source = "OPENQASM 2.0;\nqreg q[2];\ncreg c[2];\n";
    let tree = parse_program(source).unwrap();
    assert_eq!(
        tree,
        OpenQasmProgram {
            version: "2.0".to_string(),
            program: vec![
                span(14, Statement::QRegDecl("q".to_string(), 2), 24),
                span(25, Statement::CRegDecl("c".to_string(), 2), 35)
            ]
        }
    );
}

#[test]
fn grammar_test_parse_id_gate_macro() {
    let source = "
    gate id q {}
    ";
    let tree = parse_statement(source).unwrap();
    assert_eq!(
        tree,
        Statement::GateDecl("id".to_string(), vec![], vec!["q".to_string()], vec![])
    );
}

#[test]
fn grammar_test_parse_id_gate_macro_with_parenthesis() {
    let source = "
    gate id () q {}
    ";
    let tree = parse_statement(source).unwrap();
    assert_eq!(
        tree,
        Statement::GateDecl("id".to_string(), vec![], vec!["q".to_string()], vec![])
    );
}

#[test]
fn grammar_test_parse_cx_gate_macro() {
    let source = "
    gate cx c, t {
      CX c, t;
    }
    ";
    let tree = parse_statement(source).unwrap();
    assert_eq!(
        tree,
        Statement::GateDecl(
            "cx".to_string(),
            vec![],
            vec!["c".to_string(), "t".to_string()],
            vec![GateOperation::Unitary(UnitaryOperation(
                "CX".to_owned(),
                vec![],
                vec![Argument::Id("c".to_owned()), Argument::Id("t".to_owned())]
            ))]
        )
    );
}

#[test]
fn grammar_test_parse_u_gate_macro() {
    let source = "
    gate u (theta, phi, lambda) q {
      U (theta, phi, lambda) q;
    }
    ";
    let tree = parse_statement(source).unwrap();
    assert_eq!(
        tree,
        Statement::GateDecl(
            "u".to_string(),
            vec!["theta".to_string(), "phi".to_string(), "lambda".to_string()],
            vec!["q".to_string()],
            vec![GateOperation::Unitary(UnitaryOperation(
                "U".to_owned(),
                vec![
                    Expression::Id("theta".to_owned()),
                    Expression::Id("phi".to_owned()),
                    Expression::Id("lambda".to_owned()),
                ],
                vec![Argument::Id("q".to_owned())]
            ))]
        )
    );
}

#[test]
fn grammar_test_parse_gate_macro_with_gate_expansion() {
    let source = "
    gate rz (phi) a {
      u1 (phi) a;
    }
    ";
    let tree = parse_statement(source).unwrap();
    assert_eq!(
        tree,
        Statement::GateDecl(
            "rz".to_string(),
            vec!["phi".to_string()],
            vec!["a".to_string()],
            vec![GateOperation::Unitary(UnitaryOperation(
                "u1".to_string(),
                vec![Expression::Id("phi".to_string())],
                vec![Argument::Id("a".to_string())]
            ))]
        )
    );
}

#[test]
fn test_parse_expressions_in_arguments() {
    let source = "
    U(pi/2, 0, pi) q;
    ";
    let tree = parse_statement(source).unwrap();
    assert_eq!(
        tree,
        Statement::QuantumOperation(QuantumOperation::Unitary(UnitaryOperation(
            "U".to_owned(),
            vec![
                Expression::Op(
                    Opcode::Div,
                    Box::new(Expression::Pi),
                    Box::new(Expression::Int(2))
                ),
                Expression::Int(0),
                Expression::Pi,
            ],
            vec![Argument::Id("q".to_owned())]
        )))
    );
}

#[test]
fn test_operator_precedence() {
    let source = "
    -pi + (1 - 2) * 3 / 4
    ";
    let tree = parse_expression(source).unwrap();
    assert_eq!(
        tree,
        Expression::Op(
            Opcode::Add,
            Box::new(Expression::Minus(Box::new(Expression::Pi))),
            Box::new(Expression::Op(
                Opcode::Div,
                Box::new(Expression::Op(
                    Opcode::Mul,
                    Box::new(Expression::Op(
                        Opcode::Sub,
                        Box::new(Expression::Int(1)),
                        Box::new(Expression::Int(2))
                    )),
                    Box::new(Expression::Int(3))
                )),
                Box::new(Expression::Int(4))
            ))
        )
    );
}

#[test]
fn grammar_test_parse_program_without_version_string() {
    let source = "qreg q[1];\ncreg c[1];\nh q;\n";
    let tree = parse_program_body(source).unwrap();
    assert_eq!(
        tree,
        vec![
            span(0, Statement::QRegDecl("q".to_string(), 1), 10),
            span(11, Statement::CRegDecl("c".to_string(), 1), 21),
            span(
                22,
                Statement::QuantumOperation(QuantumOperation::Unitary(UnitaryOperation(
                    "h".to_string(),
                    vec![],
                    vec![Argument::Id("q".to_string())]
                ))),
                26
            )
        ]
    );
}

#[test]
fn grammar_test_program_with_measure_and_reset() {
    let source = "qreg q[1];\ncreg c[1];\nh q;\nmeasure q -> c;\nreset q;\n";
    let tree = parse_program_body(source).unwrap();
    assert_eq!(
        tree,
        vec![
            span(0, Statement::QRegDecl("q".to_string(), 1), 10),
            span(11, Statement::CRegDecl("c".to_string(), 1), 21),
            span(
                22,
                Statement::QuantumOperation(QuantumOperation::Unitary(UnitaryOperation(
                    "h".to_string(),
                    vec![],
                    vec![Argument::Id("q".to_string())]
                ))),
                26
            ),
            span(
                27,
                Statement::QuantumOperation(QuantumOperation::Measure(
                    Argument::Id("q".to_string()),
                    Argument::Id("c".to_string())
                )),
                42
            ),
            span(
                43,
                Statement::QuantumOperation(QuantumOperation::Reset(Argument::Id(
                    "q".to_string()
                ))),
                51
            )
        ]
    );
}

#[test]
fn test_comments() {
    let source = "// Comment 1\nOPENQASM 2.0;\n// Comment 2\n\n// Comment 3\ngate id q {} // Comment 4\n// Comment 5\n";
    let tree = parse_program(source).unwrap();
    assert_eq!(
        tree,
        OpenQasmProgram {
            version: "2.0".to_string(),
            program: vec![span(
                54,
                Statement::GateDecl(String::from("id"), vec![], vec![String::from("q")], vec![]),
                66
            ),]
        }
    );
}

#[test]
fn test_conditional_application() {
    let source = "
    if (c==5) cx c, t;
    ";
    let tree = parse_statement(source).unwrap();
    assert_eq!(
        tree,
        Statement::Conditional(
            Argument::Id(String::from("c")),
            5_u64,
            QuantumOperation::Unitary(UnitaryOperation(
                String::from("cx"),
                vec![],
                vec![
                    Argument::Id(String::from("c")),
                    Argument::Id(String::from("t"))
                ]
            ))
        )
    );
}

#[test]
fn mod_test_parse_open_qasm() {
    let source = "
  OPENQASM 2.0;
  qreg q[2];
  creg c[2];
  ";
    let tree = parse_program(source).unwrap();
    assert_eq!(tree.version, "2.0".to_string());
    assert_eq!(
        nodes(tree.program),
        vec![
            Statement::QRegDecl("q".to_string(), 2),
            Statement::CRegDecl("c".to_string(), 2)
        ]
    );
}

#[test]
fn mod_test_parse_id_gate_macro() {
    let source = "
  gate id q {}
  ";
    let tree = parse_statement(source).unwrap();
    assert_eq!(
        tree,
        Statement::GateDecl("id".to_string(), vec![], vec!["q".to_string()], vec![])
    );
}

#[test]
fn mod_test_parse_id_gate_macro_with_parenthesis() {
    let source = "
  gate id () q {}
  ";
    let tree = parse_statement(source).unwrap();
    assert_eq!(
        tree,
        Statement::GateDecl("id".to_string(), vec![], vec!["q".to_string()], vec![])
    );
}

#[test]
fn mod_test_parse_cx_gate_macro() {
    let source = "
  gate cx c, t {
    CX c, t;
  }
  ";
    let tree = parse_statement(source).unwrap();
    assert_eq!(
        tree,
        Statement::GateDecl(
            "cx".to_string(),
            vec![],
            vec!["c".to_string(), "t".to_string()],
            vec![GateOperation::Unitary(UnitaryOperation(
                "CX".to_string(),
                vec![],
                vec![Argument::Id("c".to_string()), Argument::Id("t".to_string())]
            ))]
        )
    );
}

#[test]
fn mod_test_parse_u_gate_macro() {
    let source = "
  gate u (theta, phi, lambda) q {
    U (theta, phi, lambda) q;
  }
  ";
    let tree = parse_statement(source).unwrap();
    assert_eq!(
        tree,
        Statement::GateDecl(
            "u".to_string(),
            vec!["theta".to_string(), "phi".to_string(), "lambda".to_string()],
            vec!["q".to_string()],
            vec![GateOperation::Unitary(UnitaryOperation(
                "U".to_string(),
                vec![
                    Expression::Id("theta".to_string()),
                    Expression::Id("phi".to_string()),
                    Expression::Id("lambda".to_string())
                ],
                vec![Argument::Id("q".to_string())]
            ))]
        )
    );
}

#[test]
fn mod_test_parse_gate_macro_with_gate_expansion() {
    let source = "
  gate rz (phi) a {
    u1 (phi) a;
  }
  ";
    let tree = parse_statement(source).unwrap();
    assert_eq!(
        tree,
        Statement::GateDecl(
            "rz".to_string(),
            vec!["phi".to_string()],
            vec!["a".to_string()],
            vec![GateOperation::Unitary(UnitaryOperation(
                "u1".to_string(),
                vec![Expression::Id("phi".to_string())],
                vec![Argument::Id("a".to_string())]
            ))]
        )
    );
}

#[test]
fn mod_test_parse_program_without_version_string() {
    let source = "
  qreg q[1];
  creg c[1];
  h q;
  ";
    let tree = parse_program_body(source).unwrap();
    assert_eq!(
        nodes(tree),
        vec![
            Statement::QRegDecl("q".to_string(), 1),
            Statement::CRegDecl("c".to_string(), 1),
            Statement::QuantumOperation(QuantumOperation::Unitary(UnitaryOperation(
                "h".to_string(),
                vec![],
                vec![Argument::Id("q".to_string())]
            )))
        ]
    );
}

#[test]
fn mod_test_program_with_measure_and_reset() {
    let source = "
  qreg q[1];
  creg c[1];
  h q;
  measure q -> c;
  reset q;
  ";
    let tree = parse_program_body(source).unwrap();
    assert_eq!(
        nodes(tree),
        vec![
            Statement::QRegDecl("q".to_string(), 1),
            Statement::CRegDecl("c".to_string(), 1),
            Statement::QuantumOperation(QuantumOperation::Unitary(UnitaryOperation(
                "h".to_string(),
                vec![],
                vec![Argument::Id("q".to_string())]
            ))),
            Statement::QuantumOperation(QuantumOperation::Measure(
                Argument::Id("q".to_string()),
                Argument::Id("c".to_string())
            )),
            Statement::QuantumOperation(QuantumOperation::Reset(Argument::Id("q".to_string())))
        ]
    );
}

#[test]
fn parse_real_literals_keep_their_text() {
    let tree = parse_expression("1.5 * .3e2").unwrap();
    assert_eq!(
        tree,
        Expression::Op(
            Opcode::Mul,
            Box::new(Expression::Real("1.5".to_string())),
            Box::new(Expression::Real(".3e2".to_string()))
        )
    );
}

#[test]
fn parse_power_and_functions() {
    let tree = parse_expression("sin(pi) ^ 2").unwrap();
    assert_eq!(
        tree,
        Expression::Op(
            Opcode::Pow,
            Box::new(Expression::Function(
                qasmsim::grammar::ast::Funccode::Sin,
                Box::new(Expression::Pi)
            )),
            Box::new(Expression::Int(2))
        )
    );
}

#[test]
fn parse_barrier_and_opaque_declarations() {
    let tree = parse_program_body("opaque g(a) q;\nbarrier q, r[1];\n").unwrap();
    assert_eq!(
        nodes(tree),
        vec![
            Statement::OpaqueGateDecl("g".to_string(), vec!["a".to_string()], vec!["q".to_string()]),
            Statement::Barrier(qasmsim::grammar::ast::BarrierPragma(vec![
                Argument::Id("q".to_string()),
                Argument::Item("r".to_string(), 1)
            ]))
        ]
    );
}

#[test]
fn parse_include_statement() {
    let tree = parse_program("OPENQASM 2.0;\ninclude \"qelib1.inc\";\n").unwrap();
    assert_eq!(
        nodes(tree.program),
        vec![Statement::Include("qelib1.inc".to_string())]
    );
}
