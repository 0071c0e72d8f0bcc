use amber::syntax::{Block, Import, Statement};
use amber::translate::TranslateState;

fn command(text: &str) -> Statement {
    Statement::Command { text: text.to_string() }
}

#[test]
fn state_starts_outside_every_block() {
    let state = TranslateState::new();
    assert_eq!(state.indent, None);
    assert_eq!(state.margin(), "");
}

#[test]
fn entering_goes_one_step_deeper() {
    let mut state = TranslateState::new();
    let outside = state.enter();
    assert_eq!(outside, None);
    assert_eq!(state.indent, Some("".to_string()));
    let first = state.enter();
    assert_eq!(first, Some("".to_string()));
    assert_eq!(state.margin(), "    ");
    let second = state.enter();
    assert_eq!(state.margin(), "        ");
    state.leave(second);
    assert_eq!(state.margin(), "    ");
    state.leave(first);
    state.leave(outside);
    assert_eq!(state.indent, None);
}

#[test]
fn statements_are_lines_at_the_margin() {
    let mut state = TranslateState { indent: Some("  ".to_string()) };
    assert_eq!(command("ls").translate(&mut state), "  ls\n");
    assert_eq!(Statement::Call { name: "f".to_string() }.translate(&mut state), "  f\n");
    assert_eq!(state.indent, Some("  ".to_string()));
}

#[test]
fn empty_scope_is_the_empty_command() {
    let mut state = TranslateState::new();
    assert_eq!(Block::new(vec![], false).translate(&mut state), ":\n");
    assert_eq!(Block::new(vec![], true).translate(&mut state), "");
    let function = Statement::Function { name: "f".to_string(), body: Block::new(vec![], false) };
    let root = Block::new(vec![function], false);
    assert_eq!(root.translate(&mut state), "f() {\n    :\n}\n");
    assert_eq!(state.indent, None);
}

#[test]
fn scopeless_block_is_written_where_it_stands() {
    let mut state = TranslateState::new();
    let imported = Block::new(vec![command("echo b")], true);
    let import = Import { path: "b.ab".to_string(), block: imported };
    let root = Block::new(vec![command("echo a"), Statement::Import(import), command("echo c")], false);
    assert_eq!(root.translate(&mut state), "echo a\necho b\necho c\n");
}

#[test]
fn scope_inside_scope_is_written_deeper() {
    let mut state = TranslateState::new();
    let inner = Block::new(vec![command("echo deep")], false);
    let outer = Block::new(vec![Statement::Import(Import { path: "x".to_string(), block: inner })], false);
    assert_eq!(outer.translate(&mut state), "    echo deep\n");
    let mut block = Block::new(vec![command("echo deep")], false);
    block.set_scopeless();
    assert!(block.scopeless);
    let outer = Block::new(vec![Statement::Import(Import { path: "x".to_string(), block })], false);
    assert_eq!(outer.translate(&mut state), "echo deep\n");
}

#[test]
fn import_translates_to_its_block() {
    let mut state = TranslateState::new();
    let import = Import { path: "b.ab".to_string(), block: Block::new(vec![command("true")], true) };
    assert_eq!(import.translate(&mut state), "true\n");
    let fresh = Import::new();
    assert_eq!(fresh.path, "");
    assert!(fresh.block.statements.is_empty());
    assert!(!fresh.block.scopeless);
}
