use qasmsim::grammar::lexer::{keywords, LexicalError, Lexer, Location, Tok};

#[test]
fn test_all_blankspace() {
    let source = "  \t\t\n\n\n\t\t  ";
    let lexer = Lexer::new(source);
    assert_eq!(lexer.tokens(), vec![]);
}

#[test]
fn test_literals() {
    let source = "0 1 20 .3 .4e5 0.6E-7 \"8910\"";
    let lexer = Lexer::new(source);
    assert_eq!(
        lexer.tokens(),
        vec![
            Ok((
                Location(0),
                Tok::Int {
                    repr: String::from("0")
                },
                Location(1)
            )),
            Ok((
                Location(2),
                Tok::Int {
                    repr: String::from("1")
                },
                Location(3),
            )),
            Ok((
                Location(4),
                Tok::Int {
                    repr: String::from("20")
                },
                Location(6),
            )),
            Ok((
                Location(7),
                Tok::Real {
                    repr: String::from(".3")
                },
                Location(9),
            )),
            Ok((
                Location(10),
                Tok::Real {
                    repr: String::from(".4e5")
                },
                Location(14)
            )),
            Ok((
                Location(15),
                Tok::Real {
                    repr: String::from("0.6E-7")
                },
                Location(21)
            )),
            Ok((
                Location(22),
                Tok::Str {
                    repr: String::from("8910")
                },
                Location(28)
            )),
        ]
    );
}

#[test]
fn test_some_blankspace() {
        let source = "

    OPENQASM
    \t
    ";
        let lexer = Lexer::new(source);
        assert_eq!(
            lexer.tokens(),
            vec![Ok((Location(4 + 2), Tok::QASMHeader, Location(12 + 2))),]
        );
}

#[test]
fn test_openqasm_header_sequence() {
        let source = "
    OPENQASM 2.0;
    ";
        let lexer = Lexer::new(source);
        assert_eq!(
            lexer.tokens(),
            vec![
                Ok((Location(4 + 1), Tok::QASMHeader, Location(12 + 1))),
                Ok((
                    Location(13 + 1),
                    Tok::Version {
                        repr: String::from("2.0")
                    },
                    Location(16 + 1)
                )),
                Ok((Location(16 + 1), Tok::Semi, Location(17 + 1)))
            ]
        );
}

#[test]
fn test_simple_symbols() {
    let source = "+-*/[]{}();,^";
    let lexer = Lexer::new(source);
    assert_eq!(
        lexer.tokens(),
        vec![
            Ok((Location(0), Tok::Add, Location(1))),
            Ok((Location(1), Tok::Minus, Location(2))),
            Ok((Location(2), Tok::Mult, Location(3))),
            Ok((Location(3), Tok::Div, Location(4))),
            Ok((Location(4), Tok::LBracket, Location(5))),
            Ok((Location(5), Tok::RBracket, Location(6))),
            Ok((Location(6), Tok::LBrace, Location(7))),
            Ok((Location(7), Tok::RBrace, Location(8))),
            Ok((Location(8), Tok::LParent, Location(9))),
            Ok((Location(9), Tok::RParent, Location(10))),
            Ok((Location(10), Tok::Semi, Location(11))),
            Ok((Location(11), Tok::Comma, Location(12))),
            Ok((Location(12), Tok::Pow, Location(13)))
        ]
    );
}

#[test]
fn test_composite_symbols() {
    let source = "->==//";
    let lexer = Lexer::new(source);
    assert_eq!(
        lexer.tokens(),
        vec![
            Ok((Location(0), Tok::Arrow, Location(2))),
            Ok((Location(2), Tok::Equal, Location(4)))
        ]
    );
}

#[test]
fn test_keywords() {
    for (keyword, token) in keywords() {
        let lexer = Lexer::new(&keyword);
        assert_eq!(
            lexer.tokens(),
            vec![Ok((Location(0), token, Location(keyword.len())))]
        );
    }
}

#[test]
fn test_gates() {
    let source = "CX U";
    let lexer = Lexer::new(source);
    assert_eq!(
        lexer.tokens(),
        vec![
            Ok((Location(0), Tok::CX, Location(2))),
            Ok((Location(3), Tok::U, Location(4)))
        ]
    );
}

#[test]
fn test_ids() {
    let source = "a b c";
    let lexer = Lexer::new(source);
    assert_eq!(
        lexer.tokens(),
        vec![
            Ok((Location(0), Tok::Id { repr: "a".into() }, Location(1))),
            Ok((Location(2), Tok::Id { repr: "b".into() }, Location(3))),
            Ok((Location(4), Tok::Id { repr: "c".into() }, Location(5)))
        ]
    );
}

#[test]
fn test_dont_admit_all_mayus_ids() {
    let source = "a B c";
    let lexer = Lexer::new(source);
    assert_eq!(
        lexer.tokens(),
        vec![
            Ok((Location(0), Tok::Id { repr: "a".into() }, Location(1))),
            Err(LexicalError {
                location: Location(2)
            })
        ]
    );
}

#[test]
fn test_comments_right_before_gate_token_are_docstring() {
    let source = "// Documentation of the\n// id gate\ngate";
    let lexer = Lexer::new(source);
    assert_eq!(
        lexer.tokens(),
        vec![
            Ok((
                Location(0),
                Tok::DocStr {
                    repr: String::from(" Documentation of the\n id gate\n")
                },
                Location(35)
            )),
            Ok((Location(35), Tok::Gate, Location(39)))
        ]
    );
}

#[test]
fn test_comments_right_before_opaque_gates_are_docstring() {
    let source = "// Documentation of the\n// id gate\nopaque gate";
    let lexer = Lexer::new(source);
    assert_eq!(
        lexer.tokens(),
        vec![
            Ok((
                Location(0),
                Tok::DocStr {
                    repr: String::from(" Documentation of the\n id gate\n")
                },
                Location(35)
            )),
            Ok((Location(35), Tok::Opaque, Location(41))),
            Ok((Location(42), Tok::Gate, Location(46)))
        ]
    );
}

#[test]
fn test_only_comments_right_before_gate_token_are_docstring() {
    let source = "// No docstring\n\n// Documentation of the\n// id gate\ngate";
    let lexer = Lexer::new(source);
    assert_eq!(
        lexer.tokens(),
        vec![
            Ok((
                Location(17),
                Tok::DocStr {
                    repr: String::from(" Documentation of the\n id gate\n")
                },
                Location(52)
            )),
            Ok((Location(52), Tok::Gate, Location(56)))
        ]
    );
}

#[test]
fn test_gate_call() {
    let source = "U(pi/2, 0, pi) q;";
    let lexer = Lexer::new(source);
    assert_eq!(
        lexer.tokens(),
        vec![
            Ok((Location(0), Tok::U, Location(1))),
            Ok((Location(1), Tok::LParent, Location(2))),
            Ok((Location(2), Tok::ConstPi, Location(4))),
            Ok((Location(4), Tok::Div, Location(5))),
            Ok((
                Location(5),
                Tok::Int {
                    repr: String::from("2")
                },
                Location(6)
            )),
            Ok((Location(6), Tok::Comma, Location(7))),
            Ok((
                Location(8),
                Tok::Int {
                    repr: String::from("0")
                },
                Location(9)
            )),
            Ok((Location(9), Tok::Comma, Location(10))),
            Ok((Location(11), Tok::ConstPi, Location(13))),
            Ok((Location(13), Tok::RParent, Location(14))),
            Ok((
                Location(15),
                Tok::Id {
                    repr: String::from("q")
                },
                Location(16)
            )),
            Ok((Location(16), Tok::Semi, Location(17))),
        ]
    );
}

#[test]
fn test_error_at_the_begining() {
    let source = "XXX"; // unrecognized ID (all caps), and not a keyword.
    let lexer = Lexer::new(source);
    assert_eq!(
        lexer.tokens(),
        vec![Err(LexicalError {
            location: Location(0)
        })]
    );
}

#[test]
fn test_blank_lines_are_considered_empty_lines_and_separate_comments() {
    let source = "// No docstring\n  \n// Documentation of the\n// id gate\ngate";
    let lexer = Lexer::new(source);
    assert_eq!(
        lexer.tokens(),
        vec![
            Ok((
                Location(19),
                Tok::DocStr {
                    repr: String::from(" Documentation of the\n id gate\n")
                },
                Location(54)
            )),
            Ok((Location(54), Tok::Gate, Location(58)))
        ]
    );
}

#[test]
fn lexer_answers_nothing_after_an_unrecognised_sequence() {
    let mut lexer = Lexer::new("qreg $ q");
    assert!(matches!(lexer.next(), Some(Ok(_))));
    assert_eq!(lexer.next(), Some(Err(LexicalError::new_at(Location(5)))));
    assert_eq!(lexer.next(), None);
    assert_eq!(lexer.next(), None);
}

#[test]
fn token_texts_are_the_source_between_their_locations() {
    let source = "OPENQASM 2.0;\nqreg q_1[12];\ninclude \"a\\\"b.inc\";\nU(1.5e3) q_1[0];";
    let chars: Vec<char> = source.chars().collect();
    for item in Lexer::new(source).tokens() {
        let (Location(s), tok, Location(e)) = item.unwrap();
        let text: String = chars[s..e].iter().collect();
        match tok {
            Tok::Id { repr } | Tok::Int { repr } | Tok::Real { repr } | Tok::Version { repr } => {
                assert_eq!(repr, text)
            }
            Tok::Str { repr } => assert_eq!(format!("\"{}\"", repr), text),
            Tok::QReg => assert_eq!(text, "qreg"),
            Tok::Include => assert_eq!(text, "include"),
            Tok::QASMHeader => assert_eq!(text, "OPENQASM"),
            Tok::U => assert_eq!(text, "U"),
            _ => assert_eq!(text.chars().count(), 1),
        }
    }
}

#[test]
fn tokens_come_in_order_without_overlap() {
    let source = "OPENQASM 2.0;\n// doc\ngate g(a) q { U(a, 0, pi) q; }\nif (c==1) measure q[0] -> c[1];";
    let items = Lexer::new(source).tokens();
    let mut last_end = 0;
    for item in items {
        let (Location(s), tok, Location(e)) = item.unwrap();
        if let Tok::DocStr { .. } = tok {
            continue;
        }
        assert!(last_end <= s && s <= e);
        last_end = e;
    }
}

#[test]
fn strings_start_at_their_quote_or_at_a_new_line() {
    let tokens = Lexer::new("include \"a.inc\";").tokens();
    assert_eq!(
        tokens[1],
        Ok((Location(8), Tok::Str { repr: "a.inc".into() }, Location(15)))
    );
    let tokens = Lexer::new("include \"\nb\";").tokens();
    assert_eq!(
        tokens[1],
        Ok((Location(9), Tok::Str { repr: "b".into() }, Location(12)))
    );
}
