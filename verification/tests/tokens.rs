use amber::token::{tokenize, LexFault};

fn words(code: &str) -> Vec<String> {
    tokenize(code).unwrap().into_iter().map(|t| t.word).collect()
}

#[test]
fn words_and_symbols_are_split() {
    assert_eq!(words("pub fun f(){g()}"), vec!["pub", "fun", "f", "(", ")", "{", "g", "(", ")", "}"]);
}

#[test]
fn import_directive_is_four_tokens() {
    let tokens = tokenize("import * from \"dir/my lib.ab\"").unwrap();
    let found: Vec<(String, usize, usize)> = tokens.into_iter().map(|t| (t.word, t.row, t.col)).collect();
    assert_eq!(
        found,
        vec![
            ("import".to_string(), 1, 1),
            ("*".to_string(), 1, 8),
            ("from".to_string(), 1, 10),
            ("\"dir/my lib.ab\"".to_string(), 1, 15),
        ]
    );
}

#[test]
fn command_is_one_token() {
    assert_eq!(words("$echo (a) {b} * $ f()"), vec!["$echo (a) {b} * $", "f", "(", ")"]);
}

#[test]
fn rows_are_counted() {
    let tokens = tokenize("f()\n  g()").unwrap();
    assert_eq!(tokens[3].word, "g");
    assert_eq!((tokens[3].row, tokens[3].col), (2, 3));
}

#[test]
fn empty_text_has_no_tokens() {
    assert!(tokenize("").unwrap().is_empty());
    assert!(tokenize("  \n\t ").unwrap().is_empty());
}

#[test]
fn unclosed_string_fails() {
    let failure = tokenize("import * from \"lib").unwrap_err();
    assert_eq!(failure.fault, LexFault::Unclosed);
    assert_eq!(failure.region, "\"");
}

#[test]
fn unclosed_command_fails() {
    let failure = tokenize("$echo").unwrap_err();
    assert_eq!(failure.fault, LexFault::Unclosed);
    assert_eq!(failure.region, "$");
}

#[test]
fn text_beyond_ascii_is_kept() {
    assert_eq!(words("$echo zażółć$ \"gęś\""), vec!["$echo zażółć$", "\"gęś\""]);
}
