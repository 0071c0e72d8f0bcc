use amber::error::Position;
use amber::memory::{ExportUnit, FunctionDecl, Memory};

fn decl(name: &str, is_public: bool) -> FunctionDecl {
    FunctionDecl { name: name.to_string(), is_public, position: Position { row: 1, col: 5 } }
}

#[test]
fn new_memory_is_empty() {
    let memory = Memory::new();
    assert!(memory.functions.is_empty());
    assert!(memory.exports.is_empty());
    assert!(!memory.has_function(&"f".to_string()));
}

#[test]
fn public_function_is_exported() {
    let mut memory = Memory::new();
    assert!(memory.add_function(decl("g", true)));
    assert!(memory.add_function(decl("h", false)));
    assert!(memory.has_function(&"g".to_string()));
    assert!(memory.has_function(&"h".to_string()));
    assert_eq!(memory.functions.len(), 2);
    assert_eq!(memory.exports.len(), 1);
    match &memory.exports[0] {
        ExportUnit::Function(unit) => {
            assert_eq!(unit.name, "g");
            assert!(unit.is_public);
            assert_eq!(unit.position, Position { row: 1, col: 5 });
        }
    }
}

#[test]
fn taken_name_is_refused_and_nothing_changes() {
    let mut memory = Memory::new();
    assert!(memory.add_function(decl("f", false)));
    assert!(!memory.add_function(decl("f", true)));
    assert_eq!(memory.functions.len(), 1);
    assert!(!memory.functions[0].is_public);
    assert!(memory.exports.is_empty());
    assert!(!memory.add_existing_function_declaration(decl("f", false)));
    assert_eq!(memory.functions.len(), 1);
}

#[test]
fn existing_declaration_is_not_exported() {
    let mut memory = Memory::new();
    assert!(memory.add_existing_function_declaration(decl("f", false)));
    assert_eq!(memory.functions.len(), 1);
    assert!(memory.exports.is_empty());
}

#[test]
fn duplicate_keeps_every_field() {
    let copy = decl("f", true).duplicate();
    assert_eq!(copy.name, "f");
    assert!(copy.is_public);
    assert_eq!(copy.position, Position { row: 1, col: 5 });
}
