use amber::error::{ErrorKind, Position};
use amber::memory::{FunctionDecl, Memory};
use amber::statement::{
    check_enclosed, check_keyword, check_name, check_name_start, parse_body, parse_function,
    parse_simple, take_inner, token_is, token_position,
};
use amber::syntax::Statement;
use amber::token::tokenize;

fn memory_with(names: &[&str]) -> Memory {
    let mut memory = Memory::new();
    for name in names {
        memory.add_function(FunctionDecl {
            name: name.to_string(),
            is_public: false,
            position: Position { row: 0, col: 0 },
        });
    }
    memory
}

#[test]
fn names_are_letters_digits_and_underscores() {
    assert!(check_name(&"f".to_string()));
    assert!(check_name(&"_do_it2".to_string()));
    assert!(check_name(&"Zed".to_string()));
    assert!(!check_name(&"".to_string()));
    assert!(!check_name(&"2f".to_string()));
    assert!(!check_name(&"a-b".to_string()));
    assert!(!check_name(&"gęś".to_string()));
    assert!(!check_name(&"{".to_string()));
    assert!(check_name_start('a') && check_name_start('z') && check_name_start('A'));
    assert!(check_name_start('Z') && check_name_start('_'));
    assert!(!check_name_start('0') && !check_name_start('`') && !check_name_start('['));
}

#[test]
fn keywords_are_no_names() {
    for word in ["import", "from", "pub", "fun"] {
        assert!(check_keyword(&word.to_string()));
        assert!(!check_name(&word.to_string()));
    }
    assert!(!check_keyword(&"funny".to_string()));
    assert!(check_name(&"funny".to_string()));
}

#[test]
fn enclosed_text_and_its_inner_part() {
    assert!(check_enclosed(&"$echo$".to_string(), '$'));
    assert!(check_enclosed(&"$$".to_string(), '$'));
    assert!(!check_enclosed(&"$".to_string(), '$'));
    assert!(!check_enclosed(&"$echo".to_string(), '$'));
    assert!(!check_enclosed(&"\"x\"".to_string(), '$'));
    assert_eq!(take_inner(&"$echo hi$".to_string()), "echo hi");
    assert_eq!(take_inner(&"\"\"".to_string()), "");
    assert_eq!(take_inner(&"\"żółw\"".to_string()), "żółw");
}

#[test]
fn token_helpers_read_the_stream() {
    let tokens = tokenize("f ( )").unwrap();
    assert!(token_is(&tokens, 0, "f"));
    assert!(!token_is(&tokens, 0, "g"));
    assert!(!token_is(&tokens, 3, "f"));
    assert_eq!(token_position(&tokens, 1), Some(Position { row: 1, col: 3 }));
    assert_eq!(token_position(&tokens, 3), None);
}

#[test]
fn command_is_a_statement() {
    let tokens = tokenize("$ls -l$ f()").unwrap();
    let (statement, next) = parse_simple(&tokens, 0, &Memory::new()).unwrap();
    assert_eq!(next, 1);
    match statement {
        Statement::Command { text } => assert_eq!(text, "ls -l"),
        other => panic!("{:?}", other),
    }
}

#[test]
fn call_needs_a_declared_function() {
    let tokens = tokenize("f()").unwrap();
    let (statement, next) = parse_simple(&tokens, 0, &memory_with(&["f"])).unwrap();
    assert_eq!(next, 3);
    match statement {
        Statement::Call { name } => assert_eq!(name, "f"),
        other => panic!("{:?}", other),
    }
    let fault = parse_simple(&tokens, 0, &memory_with(&["g"])).unwrap_err();
    assert_eq!(fault.kind, ErrorKind::Parse);
    assert_eq!(fault.message, "Function 'f' does not exist");
    assert_eq!(fault.position, Some(Position { row: 1, col: 1 }));
}

#[test]
fn broken_statements_say_what_was_expected() {
    let memory = memory_with(&["f"]);
    let fault = parse_simple(&tokenize("f").unwrap(), 0, &memory).unwrap_err();
    assert_eq!(fault.message, "Expected '('");
    assert_eq!(fault.position, None);
    let fault = parse_simple(&tokenize("f(x").unwrap(), 0, &memory).unwrap_err();
    assert_eq!(fault.message, "Expected ')'");
    assert_eq!(fault.position, Some(Position { row: 1, col: 3 }));
    let fault = parse_simple(&tokenize(")").unwrap(), 0, &memory).unwrap_err();
    assert_eq!(fault.message, "Expected a statement");
    assert_eq!(fault.position, Some(Position { row: 1, col: 1 }));
    let fault = parse_simple(&tokenize("").unwrap(), 0, &memory).unwrap_err();
    assert_eq!(fault.message, "Expected a statement");
    assert_eq!(fault.position, None);
}

#[test]
fn body_runs_to_the_closing_brace() {
    let tokens = tokenize("{ $a$ f() $b$ } $c$").unwrap();
    let (statements, next) = parse_body(&tokens, 1, &memory_with(&["f"])).unwrap();
    assert_eq!(statements.len(), 3);
    assert_eq!(next, 7);
    let fault = parse_body(&tokenize("{ $a$").unwrap(), 1, &Memory::new()).unwrap_err();
    assert_eq!(fault.message, "Expected '}'");
    assert_eq!(fault.position, None);
    let fault = parse_body(&tokenize("{ fun").unwrap(), 1, &Memory::new()).unwrap_err();
    assert_eq!(fault.message, "Expected a statement");
}

#[test]
fn function_declaration_is_parsed() {
    let tokens = tokenize("pub fun greet() { $echo hi$ }").unwrap();
    let (decl, body, next) = parse_function(&tokens, 0, &Memory::new()).unwrap();
    assert_eq!(decl.name, "greet");
    assert!(decl.is_public);
    assert_eq!(decl.position, Position { row: 1, col: 9 });
    assert!(!body.scopeless);
    assert_eq!(body.statements.len(), 1);
    assert_eq!(next, 8);
    let tokens = tokenize("fun quiet() { }").unwrap();
    let (decl, body, next) = parse_function(&tokens, 0, &Memory::new()).unwrap();
    assert!(!decl.is_public);
    assert!(body.statements.is_empty());
    assert_eq!(next, 6);
}

#[test]
fn function_may_not_call_itself() {
    let tokens = tokenize("fun f() { f() }").unwrap();
    let fault = parse_function(&tokens, 0, &Memory::new()).unwrap_err();
    assert_eq!(fault.message, "Function 'f' does not exist");
}

#[test]
fn function_name_must_be_free() {
    let tokens = tokenize("fun f() { }").unwrap();
    let fault = parse_function(&tokens, 0, &memory_with(&["f"])).unwrap_err();
    assert_eq!(fault.kind, ErrorKind::Redefinition);
    assert_eq!(fault.message, "Function 'f' is already defined");
    assert_eq!(fault.position, Some(Position { row: 1, col: 5 }));
}

#[test]
fn broken_declarations_say_what_was_expected() {
    let memory = Memory::new();
    let cases = [
        ("pub f() { }", "Expected 'fun'"),
        ("fun 1() { }", "Expected a function name"),
        ("fun f) { }", "Expected '('"),
        ("fun f( { }", "Expected ')'"),
        ("fun f() }", "Expected '{'"),
        ("fun f() { $a$", "Expected '}'"),
        ("pub", "Expected 'fun'"),
    ];
    for (code, message) in cases {
        let fault = parse_function(&tokenize(code).unwrap(), 0, &memory).unwrap_err();
        assert_eq!(fault.kind, ErrorKind::Parse);
        assert_eq!(fault.message, message);
    }
}

#[test]
fn state_knows_the_functions_of_the_shell_text() {
    let mut meta = amber::state::ParserState::new(vec![], None, None);
    let (f, g) = ("f".to_string(), "g".to_string());
    let (one, two) = ("echo 1\n".to_string(), "echo 2\n".to_string());
    assert!(!meta.clashes(&f, &one));
    meta.add_shell_function(f.clone(), one.clone());
    assert!(!meta.clashes(&f, &one));
    assert!(meta.clashes(&f, &two));
    assert!(!meta.clashes(&g, &two));
    meta.add_shell_function(g.clone(), two.clone());
    assert!(meta.clashes(&g, &one));
    assert_eq!(meta.shell_functions.len(), 2);
    assert_eq!(meta.shell_functions[1].name, "g");
    assert_eq!(meta.shell_functions[1].text, "echo 2\n");
}
