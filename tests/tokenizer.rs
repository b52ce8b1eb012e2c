use pascal_compiler::tokenizer::{last_token, next_token, LexError};

fn tokens(code: &str) -> Vec<String> {
    let mut i: usize = 0;
    let mut out = Vec::new();
    while let Ok(t) = next_token(code, &mut i) {
        out.push(t);
    }
    out
}

#[test]
fn reads_tokens_and_folds_case() {
    assert_eq!(tokens("program Hello; begin end."), vec!["PROGRAM", "HELLO", ";", "BEGIN", "END", "."]);
}

#[test]
fn longest_symbol_wins() {
    assert_eq!(tokens("a:=1..2<=3>=4<>5(*c*)"), vec!["A", ":=", "1", "..", "2", "<=", "3", ">=", "4", "<>", "5"]);
}

#[test]
fn peek_keeps_cursor_and_matches_advance() {
    let code = "  x := 5";
    let mut i: usize = 0;
    let a = last_token(code, &mut i).unwrap();
    assert_eq!(i, 0);
    let b = last_token(code, &mut i).unwrap();
    assert_eq!(i, 0);
    let c = next_token(code, &mut i).unwrap();
    assert_eq!(a, "X");
    assert_eq!(a, b);
    assert_eq!(a, c);
    assert_eq!(i, 3);
}

#[test]
fn comments_are_skipped_and_nest() {
    assert_eq!(tokens("a { outer { inner } still } b"), vec!["A", "B"]);
    assert_eq!(tokens("a (* x (* y *) z *) b"), vec!["A", "B"]);
    assert_eq!(tokens("a // to the end\nb"), vec!["A", "B"]);
    assert_eq!(tokens("a {it's} b"), vec!["A", "B"]);
}

#[test]
fn comments_between_tokens_change_nothing() {
    assert_eq!(tokens("x:=y+1"), tokens("x{c}:=(*d*)y//e\n+1"));
}

#[test]
fn case_mixture_changes_nothing() {
    assert_eq!(tokens("BeGiN wRiTeLn(Abc) EnD"), tokens("begin writeln(ABC) end"));
}

#[test]
fn unicode_aliases_are_normalised() {
    assert_eq!(tokens("a ≤ b ≠ c ≥ d ∧ e ∨ f ¬ g ~ h (. 1 .)"),
        tokens("a <= b <> c >= d AND e OR f NOT g NOT h [ 1 ]"));
}

#[test]
fn quotes_keep_their_text() {
    assert_eq!(tokens("x := 'Hello, world!'"), vec!["X", ":=", "'Hello, world!'"]);
}

#[test]
fn unmatched_quote_fails() {
    let mut i: usize = 0;
    assert_eq!(next_token("'abc", &mut i), Err(LexError::UnmatchedQuote));
}

#[test]
fn end_of_input_fails() {
    let mut i: usize = 0;
    assert_eq!(next_token("  { only a comment }  ", &mut i), Err(LexError::UnexpectedEnd));
    let mut j: usize = 100;
    assert_eq!(next_token("abc", &mut j), Err(LexError::UnexpectedEnd));
}
