use qasmsim::grammar::ast::{OpenQasmProgram, Span, Statement};
use qasmsim::grammar::lexer::Location;
use qasmsim::grammar::parse_program;
use qasmsim::linker::{Linker, LinkerError};

fn span(left: usize, node: Statement, right: usize) -> Span<Statement> {
    Span {
        boundaries: (Location(left), Location(right)),
        node: Box::new(node),
    }
}

#[test]
fn linker_test_linker_loads_embedded_libraries() {
    let source = "OPENQASM 2.0;\ninclude \"test.inc\";\n";
    let linker = Linker::with_embedded(vec![(
        "test.inc".to_owned(),
        "gate test () q {}".to_owned(),
    )]);
    let tree = parse_program(source).unwrap();
    assert!(linker.can_link(&tree));
    let linked_tree = linker.link(tree).unwrap();
    assert_eq!(
        linked_tree,
        OpenQasmProgram {
            version: "2.0".to_owned(),
            program: vec![span(
                14,
                Statement::GateDecl("test".to_owned(), vec![], vec!["q".to_string()], vec![]),
                33
            )]
        }
    )
}

#[test]
fn mod_test_linker_loads_embedded_libraries() {
    let source = "
  OPENQASM 2.0;
  include \"test.inc\";
  ";
    let linker = Linker::with_embedded(vec![(
        "test.inc".to_owned(),
        "gate test () q {}".to_owned(),
    )]);
    let tree = parse_program(source).unwrap();
    let linked_tree = linker.link(tree).unwrap();
    assert_eq!(linked_tree.version, "2.0".to_owned());
    let nodes: Vec<Statement> = linked_tree.program.into_iter().map(|s| *s.node).collect();
    assert_eq!(
        nodes,
        vec![Statement::GateDecl("test".to_owned(), vec![], vec!["q".to_string()], vec![])]
    );
}

#[test]
fn linker_keeps_statements_around_includes_in_order() {
    let source = "OPENQASM 2.0;\nqreg q[1];\ninclude \"two.inc\";\ncreg c[1];\n";
    let linker = Linker::with_embedded(vec![(
        "two.inc".to_owned(),
        "gate a q {}\ngate b q {}".to_owned(),
    )]);
    let tree = parse_program(source).unwrap();
    let linked = linker.link(tree).unwrap();
    let nodes: Vec<Statement> = linked.program.into_iter().map(|s| *s.node).collect();
    assert_eq!(
        nodes,
        vec![
            Statement::QRegDecl("q".to_owned(), 1),
            Statement::GateDecl("a".to_owned(), vec![], vec!["q".to_owned()], vec![]),
            Statement::GateDecl("b".to_owned(), vec![], vec!["q".to_owned()], vec![]),
            Statement::CRegDecl("c".to_owned(), 1),
        ]
    );
}

#[test]
fn linker_fails_on_unknown_libraries() {
    let source = "OPENQASM 2.0;\ninclude \"missing.inc\";\n";
    let linker = Linker::new();
    let tree = parse_program(source).unwrap();
    assert_eq!(
        linker.link(tree),
        Err(LinkerError::LibraryNotFound {
            location: Location(14),
            libpath: "missing.inc".to_owned()
        })
    );
}

#[test]
fn linker_finds_embedded_sources() {
    let linker = Linker::with_embedded(vec![("x.inc".to_owned(), "gate x q {}".to_owned())]);
    assert_eq!(linker.sources(&"x.inc".to_owned()), Some(&"gate x q {}".to_owned()));
    assert_eq!(linker.sources(&"y.inc".to_owned()), None);
}

#[test]
fn linking_a_program_without_includes_changes_nothing() {
    let source = "OPENQASM 2.0;\nqreg q[2];\ngate g a { U(0, 0, 0) a; }\ng q[1];\n";
    let linker = Linker::with_embedded(vec![("x.inc".to_owned(), "gate x q {}".to_owned())]);
    let tree = parse_program(source).unwrap();
    let same = parse_program(source).unwrap();
    assert!(linker.can_link(&tree));
    assert_eq!(linker.link(tree).unwrap(), same);
}
