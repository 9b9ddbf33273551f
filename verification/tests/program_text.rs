use uplc::ast::{BuiltinId, Constant, Name, Program, Term};
use uplc::integer::Integer;

fn name(text: &str, unique: isize) -> Name {
    Name { text: text.to_string(), unique }
}

fn var(text: &str, unique: isize) -> Term {
    Term::Var(name(text, unique))
}

fn program(term: Term) -> Program {
    Program { version: (1, 0, 0), term }
}

fn constant(constant: Constant) -> Term {
    Term::Constant(constant)
}

#[test]
fn bool_constant_program() {
    let p = program(constant(Constant::Bool(true)));
    assert_eq!(p.to_pretty(), "(program\n1.0.0\n(\ncon bool true\n)\n)");
}

#[test]
fn bool_constant_program_on_one_line() {
    // The same document, laid out as one group on a page that holds it.
    let p = program(constant(Constant::Bool(true)));
    let flat = p.to_doc().group().pretty(80).to_string();
    assert_eq!(flat, "(program 1.0.0 (con bool true))");
}

#[test]
fn application_uses_square_brackets() {
    let p = program(Term::Apply {
        function: Box::new(var("f", 0)),
        argument: Box::new(var("x", 1)),
    });
    let text = p.to_pretty();
    assert_eq!(text, "(program\n1.0.0\n[\nf_0\nx_1\n]\n)");
    assert!(text.contains("[\nf_0\nx_1\n]"));
    assert!(!text.contains("(\nf_0"));
}

#[test]
fn negative_integer_constant() {
    let p = program(constant(Constant::Integer(Integer::from_i128(-42))));
    assert_eq!(p.to_pretty(), "(program\n1.0.0\n(\ncon integer -42\n)\n)");
    let body = Constant::Integer(Integer::from_i128(-42)).to_doc().pretty(20).to_string();
    assert_eq!(body, "integer -42");
}

#[test]
fn false_constant() {
    let p = program(constant(Constant::Bool(false)));
    assert_eq!(p.to_pretty(), "(program\n1.0.0\n(\ncon bool false\n)\n)");
}

#[test]
fn unit_constant() {
    let p = program(constant(Constant::Unit));
    assert_eq!(p.to_pretty(), "(program\n1.0.0\n(\ncon unit ()\n)\n)");
}

#[test]
fn string_constant_is_written_as_it_stands() {
    let p = program(constant(Constant::String("a \"b\" (c) [d]\n\\e".to_string())));
    assert_eq!(p.to_pretty(), "(program\n1.0.0\n(\ncon string a \"b\" (c) [d]\n\\e\n)\n)");
}

#[test]
fn empty_string_constant() {
    let p = program(constant(Constant::String(String::new())));
    assert_eq!(p.to_pretty(), "(program\n1.0.0\n(\ncon string \n)\n)");
}

#[test]
fn bytestring_constant_in_lowercase_hex() {
    let p = program(constant(Constant::ByteString(vec![0x00, 0xff, 0x1a, 0xb2, 0x09])));
    assert_eq!(p.to_pretty(), "(program\n1.0.0\n(\ncon bytestring 00ff1ab209\n)\n)");
}

#[test]
fn empty_bytestring_constant() {
    let p = program(constant(Constant::ByteString(Vec::new())));
    assert_eq!(p.to_pretty(), "(program\n1.0.0\n(\ncon bytestring \n)\n)");
}

#[test]
fn bytestring_text_decodes_back() {
    let bytes: Vec<u8> = (0..=255).collect();
    let p = program(constant(Constant::ByteString(bytes.clone())));
    let text = p.to_pretty();
    let lead = "(program\n1.0.0\n(\ncon bytestring ";
    let tail = "\n)\n)";
    assert!(text.starts_with(lead));
    assert!(text.ends_with(tail));
    let digits = &text[lead.len()..text.len() - tail.len()];
    assert_eq!(digits.len(), 2 * bytes.len());
    assert_eq!(hex::decode(digits).unwrap(), bytes);
    assert_eq!(digits, digits.to_lowercase());
}

#[test]
fn delay_term() {
    let p = program(Term::Delay(Box::new(var("x", 7))));
    assert_eq!(p.to_pretty(), "(program\n1.0.0\n(\ndelay\nx_7\n)\n)");
}

#[test]
fn force_term() {
    let p = program(Term::Force(Box::new(var("x", 7))));
    assert_eq!(p.to_pretty(), "(program\n1.0.0\n(\nforce\nx_7\n)\n)");
}

#[test]
fn lambda_term() {
    let p = program(Term::Lambda {
        parameter_name: name("x", 0),
        body: Box::new(var("x", 0)),
    });
    assert_eq!(p.to_pretty(), "(program\n1.0.0\n(\nx_0\nx_0\n)\n)");
}

#[test]
fn error_term() {
    let p = program(Term::Error);
    assert_eq!(p.to_pretty(), "(program\n1.0.0\n(\nerror\n)\n)");
}

#[test]
fn builtin_term() {
    let p = program(Term::Builtin(BuiltinId { name: "addInteger".to_string() }));
    assert_eq!(p.to_pretty(), "(program\n1.0.0\n(\nbuiltin\naddInteger\n)\n)");
}

#[test]
fn version_numbers_in_decimal() {
    let p = Program { version: (11, 22, 33), term: Term::Error };
    assert_eq!(p.to_pretty(), "(program\n11.22.33\n(\nerror\n)\n)");
    let q = Program { version: (0, 0, usize::MAX), term: Term::Error };
    assert_eq!(
        q.to_pretty(),
        format!("(program\n0.0.{}\n(\nerror\n)\n)", usize::MAX)
    );
}

#[test]
fn counter_is_always_written() {
    let p = program(var("already_unique", 0));
    assert_eq!(p.to_pretty(), "(program\n1.0.0\nalready_unique_0\n)");
    let q = program(var("", -3));
    assert_eq!(q.to_pretty(), "(program\n1.0.0\n_-3\n)");
}

#[test]
fn identifier_occurs_in_text() {
    let p = program(Term::Lambda {
        parameter_name: name("arg", 12),
        body: Box::new(Term::Apply {
            function: Box::new(var("fun", isize::MIN)),
            argument: Box::new(var("arg", 12)),
        }),
    });
    let text = p.to_pretty();
    assert!(text.contains("arg_12"));
    assert!(text.contains(&format!("fun_{}", isize::MIN)));
}

#[test]
fn nested_terms() {
    let p = program(Term::Apply {
        function: Box::new(Term::Lambda {
            parameter_name: name("x", 0),
            body: Box::new(Term::Force(Box::new(Term::Delay(Box::new(var("x", 0)))))),
        }),
        argument: Box::new(constant(Constant::Integer(Integer::from_i128(5)))),
    });
    assert_eq!(
        p.to_pretty(),
        "(program\n1.0.0\n[\n(\nx_0\n(\nforce\n(\ndelay\nx_0\n)\n)\n)\n(\ncon integer 5\n)\n]\n)"
    );
}

#[test]
fn nested_terms_on_one_line() {
    let p = program(Term::Apply {
        function: Box::new(Term::Lambda {
            parameter_name: name("x", 0),
            body: Box::new(Term::Force(Box::new(Term::Delay(Box::new(var("x", 0)))))),
        }),
        argument: Box::new(Term::Builtin(BuiltinId { name: "trace".to_string() })),
    });
    let flat = p.to_doc().group().pretty(200).to_string();
    assert_eq!(
        flat,
        "(program 1.0.0 [(x_0 (force (delay x_0))) (builtin trace)])"
    );
}

#[test]
fn same_program_same_text() {
    let p = program(Term::Apply {
        function: Box::new(var("f", 0)),
        argument: Box::new(constant(Constant::ByteString(vec![1, 2, 3]))),
    });
    let first = p.to_pretty();
    let second = p.to_pretty();
    assert_eq!(first, second);
    assert_eq!(first.as_bytes(), second.as_bytes());
}

#[test]
fn brackets_count_the_nodes() {
    // Two applications; a delay, a lambda, a force, an error, a builtin and
    // a constant.
    let p = program(Term::Apply {
        function: Box::new(Term::Apply {
            function: Box::new(Term::Delay(Box::new(Term::Error))),
            argument: Box::new(Term::Lambda {
                parameter_name: name("x", 0),
                body: Box::new(Term::Force(Box::new(var("x", 0)))),
            }),
        }),
        argument: Box::new(Term::Apply {
            function: Box::new(Term::Builtin(BuiltinId { name: "ifThenElse".to_string() })),
            argument: Box::new(constant(Constant::Bool(true))),
        }),
    });
    let text = p.to_pretty();
    let count = |c: char| text.chars().filter(|x| *x == c).count();
    assert_eq!(count('['), 3);
    assert_eq!(count(']'), 3);
    // One more pair for the program itself.
    assert_eq!(count('('), 6 + 1);
    assert_eq!(count(')'), 6 + 1);
}

#[test]
fn char_constant_is_found() {
    let p = program(Term::Apply {
        function: Box::new(Term::Delay(Box::new(constant(Constant::Char('a'))))),
        argument: Box::new(constant(Constant::Char('b'))),
    });
    assert_eq!(p.unsupported_char(), Some('a'));
    assert_eq!(p.term.unsupported_char(), Some('a'));
    assert_eq!(Constant::Char('z').unsupported_char(), Some('z'));
}

#[test]
fn no_char_constant_is_found() {
    let p = program(Term::Apply {
        function: Box::new(Term::Lambda {
            parameter_name: name("char", 0),
            body: Box::new(Term::Force(Box::new(Term::Error))),
        }),
        argument: Box::new(constant(Constant::String("char".to_string()))),
    });
    assert_eq!(p.unsupported_char(), None);
    assert_eq!(Constant::Unit.unsupported_char(), None);
    assert_eq!(Constant::Bool(true).unsupported_char(), None);
}

#[test]
fn identifier_text() {
    assert_eq!(uplc::printer::identifier(&name("x", 0)), "x_0");
    assert_eq!(uplc::printer::identifier(&name("a_b", -12)), "a_b_-12");
    assert_eq!(
        uplc::printer::identifier(&name("", isize::MAX)),
        format!("_{}", isize::MAX)
    );
}

#[test]
fn version_text() {
    assert_eq!(uplc::printer::version_string(&(1, 0, 0)), "1.0.0");
    assert_eq!(uplc::printer::version_string(&(10, 203, 7)), "10.203.7");
}

#[test]
fn page_width() {
    assert_eq!(uplc::printer::WIDTH, 20);
}

#[test]
fn term_document_in_a_group() {
    // A group is laid out on one line where the line holds it, and with
    // every break taken where it does not.
    let t = Term::Delay(Box::new(var("x", 7)));
    assert_eq!(t.to_doc().group().pretty(13).to_string(), "(delay x_7)");
    assert_eq!(t.to_doc().group().pretty(10).to_string(), "(\ndelay\nx_7\n)");
    let e = Term::Error;
    assert_eq!(e.to_doc().group().pretty(20).to_string(), "(error)");
    assert_eq!(e.to_doc().pretty(20).to_string(), "(\nerror\n)");
}

#[test]
fn constant_document_has_no_break() {
    let c = Constant::ByteString(vec![0xde, 0xad, 0xbe, 0xef]);
    assert_eq!(c.to_doc().pretty(1).to_string(), "bytestring deadbeef");
    assert_eq!(c.to_doc().group().pretty(80).to_string(), "bytestring deadbeef");
}

#[test]
fn constant_term_breaks_inside_its_brackets() {
    let t = constant(Constant::Unit);
    assert_eq!(t.to_doc().pretty(1).to_string(), "(\ncon unit ()\n)");
    // The one-line form is thirteen columns wide.
    assert_eq!(t.to_doc().group().pretty(12).to_string(), "(\ncon unit ()\n)");
    assert_eq!(t.to_doc().group().pretty(13).to_string(), "(con unit ())");
}

#[test]
fn checked_text_of_a_program() {
    let p = program(constant(Constant::Bool(true)));
    assert_eq!(p.try_to_pretty(), Ok(p.to_pretty()));
    assert_eq!(
        p.try_to_pretty(),
        Ok("(program\n1.0.0\n(\ncon bool true\n)\n)".to_string())
    );
}

#[test]
fn checked_text_stops_at_a_char_constant() {
    let deep = program(Term::Lambda {
        parameter_name: name("x", 0),
        body: Box::new(Term::Apply {
            function: Box::new(Term::Force(Box::new(Term::Delay(Box::new(constant(
                Constant::Char('q'),
            )))))),
            argument: Box::new(constant(Constant::Char('r'))),
        }),
    });
    assert_eq!(deep.try_to_pretty(), Err('q'));
    let right = program(Term::Apply {
        function: Box::new(var("f", 0)),
        argument: Box::new(constant(Constant::Char('r'))),
    });
    assert_eq!(right.try_to_pretty(), Err('r'));
    assert_eq!(program(constant(Constant::Char('c'))).try_to_pretty(), Err('c'));
}

#[test]
fn checked_documents() {
    let t = Term::Delay(Box::new(constant(Constant::Char('d'))));
    assert_eq!(t.try_to_doc().err(), Some('d'));
    assert_eq!(Constant::Char('e').try_to_doc().err(), Some('e'));
    let w = Term::Delay(Box::new(var("x", 7)));
    assert_eq!(
        w.try_to_doc().ok().map(|d| d.pretty(20).to_string()),
        Some("(\ndelay\nx_7\n)".to_string())
    );
    assert_eq!(
        Constant::Bool(false).try_to_doc().ok().map(|d| d.pretty(20).to_string()),
        Some("bool false".to_string())
    );
}

#[test]
fn program_document() {
    let p = program(Term::Error);
    assert_eq!(p.to_doc().pretty(20).to_string(), p.to_pretty());
    assert_eq!(p.to_doc().group().pretty(80).to_string(), "(program 1.0.0 (error))");
}

#[test]
fn brackets_in_labels_are_counted_too() {
    let p = program(Term::Apply {
        function: Box::new(var("f[", 0)),
        argument: Box::new(constant(Constant::String("[(".to_string()))),
    });
    let text = p.to_pretty();
    let count = |c: char| text.chars().filter(|x| *x == c).count();
    assert_eq!(count('['), 1 + 2);
    assert_eq!(count(']'), 1);
    assert_eq!(count('('), 1 + 1 + 1);
    assert_eq!(count(')'), 1 + 1);
}

#[test]
fn large_integer_constant() {
    let p = program(constant(Constant::Integer(Integer::new(
        true,
        vec![0, 0, 0, 0, 1],
    ))));
    assert_eq!(
        p.to_pretty(),
        "(program\n1.0.0\n(\ncon integer -340282366920938463463374607431768211456\n)\n)"
    );
}
