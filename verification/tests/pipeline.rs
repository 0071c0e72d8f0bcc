use amber::compiler::{compile, Outcome};
use amber::error::ErrorKind;
use amber::source::SourceFile;

fn file(path: &str, text: &str) -> SourceFile {
    SourceFile { path: path.to_string(), contents: Ok(text.to_string()) }
}

fn done(outcome: Outcome) -> String {
    match outcome {
        Outcome::Done(text) => text,
        other => panic!("expected shell text, got {:?}", other),
    }
}

fn failed(outcome: Outcome) -> amber::error::CompileError {
    match outcome {
        Outcome::Failed(error) => error,
        other => panic!("expected an error, got {:?}", other),
    }
}

#[test]
fn inline_command_compiles_to_its_text() {
    let out = done(compile("$echo Hello World$", None, &vec![]));
    assert_eq!(out, "echo Hello World\n");
}

#[test]
fn empty_program_is_the_empty_command() {
    assert_eq!(done(compile("", None, &vec![])), ":\n");
}

#[test]
fn function_and_call() {
    let out = done(compile("fun greet() { $echo hi$ }\ngreet()", None, &vec![]));
    assert_eq!(out, "greet() {\n    echo hi\n}\ngreet\n");
}

#[test]
fn missing_import_is_needed() {
    match compile("import * from \"lib.ab\"", Some("dir/main.ab".to_string()), &vec![]) {
        Outcome::Needs(path) => assert_eq!(path, "dir/lib.ab"),
        other => panic!("{:?}", other),
    }
}

#[test]
fn import_brings_exported_function() {
    let sources = vec![file("dir/lib.ab", "pub fun g() { $echo g$ }\nfun h() { $echo h$ }")];
    let out = done(compile("import * from \"lib.ab\"\ng()", Some("dir/main.ab".to_string()), &sources));
    assert_eq!(out, "g() {\n    echo g\n}\nh() {\n    echo h\n}\ng\n");
    let error = failed(compile("import * from \"lib.ab\"\nh()", Some("dir/main.ab".to_string()), &sources));
    assert_eq!(error.kind(), ErrorKind::Parse);
}

#[test]
fn unclosed_string_is_a_lex_error() {
    let error = failed(compile("import * from \"lib.ab", None, &vec![]));
    assert_eq!(error.kind(), ErrorKind::Lex);
}

#[test]
fn compiling_twice_gives_the_same_text() {
    let code = "pub fun a() { $echo a$ }\nfun b() { a() }\nb()\n$exit 0$";
    let first = done(compile(code, None, &vec![]));
    let second = done(compile(code, None, &vec![file("x.ab", "$true$")]));
    assert_eq!(first, second);
    assert_eq!(first, "a() {\n    echo a\n}\nb() {\n    a\n}\nb\nexit 0\n");
}

#[test]
fn text_without_imports_needs_no_file() {
    let outcome = compile("fun f() { }\nf()", Some("nowhere/main.ab".to_string()), &vec![]);
    assert_eq!(done(outcome), "f() {\n    :\n}\nf\n");
}

#[test]
fn lex_error_is_reported_against_the_text() {
    let error = failed(compile("$echo", Some("main.ab".to_string()), &vec![]));
    assert_eq!(error.kind(), ErrorKind::Lex);
    assert_eq!(error.fault.message, "$ unclosed");
    assert_eq!(error.path, Some("main.ab".to_string()));
    assert!(error.trace.is_empty());
    assert!(error.fault.position.is_some());
}

#[test]
fn parse_error_is_reported_against_the_token() {
    let error = failed(compile("$a$\n  }", None, &vec![]));
    assert_eq!(error.kind(), ErrorKind::Parse);
    assert_eq!(error.fault.message, "Expected a statement");
    assert_eq!(error.fault.position, Some(amber::error::Position { row: 2, col: 3 }));
    assert_eq!(error.path, None);
}

#[test]
fn redefinition_in_one_file_fails() {
    let error = failed(compile("fun f() { }\nfun f() { }", None, &vec![]));
    assert_eq!(error.kind(), ErrorKind::Redefinition);
    assert_eq!(error.fault.position, Some(amber::error::Position { row: 2, col: 5 }));
}

#[test]
fn unreadable_source_is_a_file_read_error() {
    let sources = vec![SourceFile { path: "gone.ab".to_string(), contents: Err("gone".to_string()) }];
    let error = failed(compile("import * from \"gone.ab\"", None, &sources));
    assert_eq!(error.kind(), ErrorKind::FileRead);
    assert_eq!(error.fault.message, "Failed to read file 'gone.ab'");
}
