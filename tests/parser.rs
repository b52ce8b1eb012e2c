use pascal_compiler::diagnostics::line_and_column;
use pascal_compiler::ast::{is_equality_operator, is_valid_identifier, parse_program, SyntaxMessage};
use pascal_compiler::definitions::{Factor, Statement, SuperType, UnsignedConstant};

#[test]
fn identifiers() {
    assert!(is_valid_identifier("A1B2"));
    assert!(!is_valid_identifier("1AB"));
    assert!(!is_valid_identifier("BEGIN"));
    assert!(!is_valid_identifier("A_B"));
    assert!(!is_valid_identifier(""));
}

#[test]
fn relational_operators() {
    for op in ["<", "<=", "=", "<>", ">=", ">", "IN"] {
        assert!(is_equality_operator(op));
    }
    assert!(!is_equality_operator("+"));
    assert!(!is_equality_operator(":="));
}

#[test]
fn parses_hello() {
    let p = parse_program("PROGRAM hello; BEGIN WRITELN('Hello, world!') END.").unwrap();
    match p.body.body {
        Statement::StatementList(list) => {
            assert_eq!(list.len(), 1);
            match &list[0] {
                Statement::ProcedureCall(name, args, _, _) => {
                    assert_eq!(name, "WRITELN");
                    assert_eq!(args.len(), 1);
                    match &args[0].operand1.operands[0].operands[0] {
                        Factor::Constant(UnsignedConstant::Quote(q)) => assert_eq!(q, "Hello, world!"),
                        _ => panic!("expected a quote"),
                    }
                },
                _ => panic!("expected a call"),
            }
        },
        _ => panic!("expected a statement list"),
    }
}

#[test]
fn parses_declarations() {
    let p = parse_program(
        "PROGRAM arr; CONST n = 3; VAR a: ARRAY[1..3] OF INTEGER; i, s: INTEGER; BEGIN s := 0 END.",
    )
    .unwrap();
    assert_eq!(p.body.constants.len(), 1);
    assert_eq!(p.body.constants[0].name, "N");
    let names: Vec<&str> = p.body.local_variables.iter().map(|v| v.name.as_str()).collect();
    assert_eq!(names, vec!["A", "I", "S"]);
    assert!(matches!(p.body.local_variables[0].tipe, SuperType::Array(_, _, _)));
    assert!(matches!(p.body.local_variables[2].tipe, SuperType::Integer));
}

#[test]
fn real_literal_counts_its_digits() {
    let p = parse_program("PROGRAM r; VAR x: REAL; BEGIN x := 1.05 END.").unwrap();
    match p.body.body {
        Statement::StatementList(list) => match &list[0] {
            Statement::Assignment(_, e, _, _) => match &e.operand1.operands[0].operands[0] {
                Factor::Constant(UnsignedConstant::UnsignedReal(w, f, d)) => {
                    assert_eq!((*w, *f, *d), (1, 5, 2));
                },
                _ => panic!("expected a real"),
            },
            _ => panic!("expected an assignment"),
        },
        _ => panic!("expected a statement list"),
    }
}

#[test]
fn expression_shape() {
    let p = parse_program("PROGRAM e; BEGIN x := -a + b * c DIV d OR e < 3 END.").unwrap();
    match p.body.body {
        Statement::StatementList(list) => match &list[0] {
            Statement::Assignment(name, e, _, _) => {
                assert_eq!(name, "X");
                assert_eq!(e.operator, "<");
                assert!(!e.operand1.positive);
                assert_eq!(e.operand1.operators, vec!["+", "OR"]);
                assert_eq!(e.operand1.operands.len(), 3);
                assert_eq!(e.operand1.operands[1].operators, vec!["*", "DIV"]);
            },
            _ => panic!("expected an assignment"),
        },
        _ => panic!("expected a statement list"),
    }
}

#[test]
fn empty_statement_list_is_a_syntax_error() {
    let e = parse_program("PROGRAM x; BEGIN END.").err().unwrap();
    assert_eq!(e.message, SyntaxMessage::EmptyStatementList);
    assert_eq!(e.message.text(), "Empty statement list");
    assert_eq!((e.start, e.end), (17, 20));
}

#[test]
fn missing_program_keyword() {
    let e = parse_program("BEGIN x := 1 END.").err().unwrap();
    assert_eq!(e.message, SyntaxMessage::MissingProgram);
}

#[test]
fn missing_semicolon() {
    let e = parse_program("PROGRAM x BEGIN y := 1 END.").err().unwrap();
    assert_eq!(e.message, SyntaxMessage::ExpectedSemicolon);
}

#[test]
fn unexpected_end() {
    let e = parse_program("PROGRAM x; BEGIN y := 1").err().unwrap();
    assert_eq!(e.message, SyntaxMessage::UnexpectedEnd);
}

#[test]
fn control_flow_statements() {
    let p = parse_program(
        "PROGRAM c; VAR i: INTEGER; BEGIN FOR i := 1 TO 10 DO WRITELN(i); \
         WHILE i > 0 DO i := i - 1; REPEAT i := i + 1 UNTIL i = 3; \
         IF i > 3 THEN WRITELN('yes') ELSE WRITELN('no'); READ(i) END.",
    )
    .unwrap();
    match p.body.body {
        Statement::StatementList(list) => {
            assert_eq!(list.len(), 5);
            assert!(matches!(list[0], Statement::ForLoop(_, _, _, _, _, _, _, true, _)));
            assert!(matches!(list[1], Statement::WhileLoop(_, _, _, _)));
            assert!(matches!(list[2], Statement::RepeatLoop(_, _, _, _)));
            assert!(matches!(list[3], Statement::IfStatement(_, _, _, _, _)));
            assert!(matches!(list[4], Statement::ReadCall(_, _, _)));
        },
        _ => panic!("expected a statement list"),
    }
}

#[test]
fn multiple_var_sections_fail() {
    let e = parse_program("PROGRAM x; VAR a: INTEGER; VAR b: INTEGER; BEGIN a := 1 END.").err().unwrap();
    assert_eq!(e.message, SyntaxMessage::MultipleVar);
}

#[test]
fn line_and_column_of_offsets() {
    let code = "PROGRAM a;\nBEGIN\n  x := 1\nEND.";
    assert_eq!(line_and_column(code, 0), (1, 1));
    assert_eq!(line_and_column(code, 8), (1, 9));
    assert_eq!(line_and_column(code, 11), (2, 1));
    assert_eq!(line_and_column(code, 19), (3, 3));
}

#[test]
fn reserved_words_in_any_case_are_not_identifiers() {
    assert!(!is_valid_identifier("begin"));
    assert!(!is_valid_identifier("Begin"));
    assert!(!is_valid_identifier("wHiLe"));
    assert!(is_valid_identifier("beginning"));
}

fn first_value(code: &str, check: impl Fn(&UnsignedConstant) -> bool) -> bool {
    let p = parse_program(code).unwrap();
    match p.body.body {
        Statement::StatementList(list) => match &list[0] {
            Statement::Assignment(_, e, _, _) => match &e.operand1.operands[0].operands[0] {
                Factor::Constant(c) => check(c),
                _ => panic!("expected a constant"),
            },
            _ => panic!("expected an assignment"),
        },
        _ => panic!("expected a statement list"),
    }
}

#[test]
fn literal_factors() {
    assert!(first_value("PROGRAM p; BEGIN x := 'x' END.", |c| matches!(c, UnsignedConstant::Char(120))));
    assert!(first_value("PROGRAM p; BEGIN x := 'xy' END.", |c| matches!(c, UnsignedConstant::Quote(q) if q == "xy")));
    assert!(first_value("PROGRAM p; BEGIN x := 42 END.", |c| matches!(c, UnsignedConstant::UnsignedInteger(42))));
    assert!(first_value("PROGRAM p; BEGIN x := 3.14 END.", |c| matches!(c, UnsignedConstant::UnsignedReal(3, 14, 2))));
}

#[test]
fn multiple_const_sections_fail() {
    let e = parse_program("PROGRAM x; CONST CONST a = 1; BEGIN a := 1 END.").err().unwrap();
    assert_eq!(e.message, SyntaxMessage::MultipleConst);
    let e = parse_program("PROGRAM x; CONST a = 1; CONST b = 2; BEGIN a := 1 END.").err().unwrap();
    assert_eq!(e.message, SyntaxMessage::MultipleConst);
}
