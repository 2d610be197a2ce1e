use k_language_server::diagnostics::CheckerOutcome;
use k_language_server::position::{Position, Span};
use k_language_server::store::{DocumentStore, StoreError};

fn span(line: usize, from: usize, to: usize) -> Span {
    Span::new(Position::new(line, from), Position::new(line, to))
}

const DOC: &str = "file:///work/main.k";

#[test]
fn store_starts_empty() {
    let store = DocumentStore::new();
    assert_eq!(store.text(DOC), None);
    assert_eq!(store.generation(DOC), None);
    assert!(!store.is_current(DOC, 0));
}

#[test]
fn store_follows_open_change_close() {
    let mut store = DocumentStore::new();
    store.did_open(DOC.to_string(), "x: 1\n".to_string());
    assert_eq!(store.text(DOC).as_deref(), Some("x: 1\n"));
    store.did_change(DOC.to_string(), "x: 1\ny: x\n".to_string());
    assert_eq!(store.text(DOC).as_deref(), Some("x: 1\ny: x\n"));
    store.did_close(DOC);
    assert_eq!(store.text(DOC), None);
    store.did_close(DOC);
    assert_eq!(store.text(DOC), None);
}

#[test]
fn store_keeps_documents_apart() {
    let mut store = DocumentStore::new();
    store.did_open("a".to_string(), "one".to_string());
    store.did_open("b".to_string(), "two".to_string());
    store.did_change("a".to_string(), "three".to_string());
    assert_eq!(store.text("a").as_deref(), Some("three"));
    assert_eq!(store.text("b").as_deref(), Some("two"));
    store.did_close("a");
    assert_eq!(store.text("a"), None);
    assert_eq!(store.text("b").as_deref(), Some("two"));
    assert_eq!(store.text("A"), None);
    assert_eq!(store.text(""), None);
}

#[test]
fn store_change_keeps_the_whole_text() {
    let mut store = DocumentStore::new();
    store.did_open(DOC.to_string(), "x: 1".to_string());
    store.did_change(DOC.to_string(), "x: 1\r\n\ny: 2\n\n".to_string());
    assert_eq!(store.text(DOC).as_deref(), Some("x: 1\r\n\ny: 2\n\n"));
}

#[test]
fn store_change_opens_an_unknown_document() {
    let mut store = DocumentStore::new();
    store.did_change(DOC.to_string(), "x: 1".to_string());
    assert_eq!(store.text(DOC).as_deref(), Some("x: 1"));
}

#[test]
fn generations_grow_with_every_change() {
    let mut store = DocumentStore::new();
    let first = store.did_open("a".to_string(), "one".to_string());
    let second = store.did_open("b".to_string(), "two".to_string());
    let third = store.did_change("a".to_string(), "three".to_string());
    assert_eq!((first, second, third), (0, 1, 2));
    assert_eq!(store.generation("a"), Some(2));
    assert_eq!(store.generation("b"), Some(1));
    assert!(store.is_current("a", third));
    assert!(!store.is_current("a", first));
    assert!(store.is_current("b", second));
    assert!(!store.is_current("b", third));
    store.did_close("a");
    assert!(!store.is_current("a", third));
    let fourth = store.did_open("a".to_string(), "one".to_string());
    assert_eq!(fourth, 3);
    assert!(!store.is_current("a", first));
    assert!(store.is_current("a", fourth));
}

#[test]
fn definition_through_the_store() {
    let mut store = DocumentStore::new();
    store.did_open(DOC.to_string(), "x: 1\ny: x + 2\n".to_string());
    assert_eq!(store.goto_definition(DOC, Position::new(1, 3)), Ok(Some(span(0, 0, 1))));
    assert_eq!(store.goto_definition(DOC, Position::new(1, 2)), Ok(None));
    assert_eq!(store.goto_definition(DOC, Position::new(9, 9)), Ok(None));
    store.did_change(DOC.to_string(), "y: x + 2\nx: 1\n".to_string());
    assert_eq!(store.goto_definition(DOC, Position::new(0, 3)), Ok(Some(span(1, 0, 1))));
}

#[test]
fn definition_in_an_unknown_document_fails() {
    let mut store = DocumentStore::new();
    assert_eq!(
        store.goto_definition(DOC, Position::new(0, 0)),
        Err(StoreError::UnknownDocument)
    );
    store.did_open(DOC.to_string(), "x: 1".to_string());
    store.did_close(DOC);
    assert_eq!(
        store.goto_definition(DOC, Position::new(0, 0)),
        Err(StoreError::UnknownDocument)
    );
}

#[test]
fn rename_through_the_store() {
    let mut store = DocumentStore::new();
    store.did_open(DOC.to_string(), "x: 1\ny: x + 2\n".to_string());
    let set = store.rename(DOC, Position::new(1, 3), "z").unwrap();
    assert!(!set.is_empty());
    let edits = set.edits_for(DOC).unwrap();
    assert_eq!(edits.len(), 2);
    assert_eq!(edits[0].range, span(0, 0, 1));
    assert_eq!(edits[1].range, span(1, 3, 4));
    assert_eq!(edits[0].new_text, "z");
    assert_eq!(edits[1].new_text, "z");
    assert!(set.edits_for("file:///other.k").is_none());
    assert_eq!(store.text(DOC).as_deref(), Some("x: 1\ny: x + 2\n"));
}

#[test]
fn rename_without_a_symbol_is_empty() {
    let mut store = DocumentStore::new();
    store.did_open(DOC.to_string(), "x: 1\ny: w + 2\n".to_string());
    assert!(store.rename(DOC, Position::new(1, 2), "z").unwrap().is_empty());
    assert!(store.rename(DOC, Position::new(1, 3), "z").unwrap().is_empty());
    assert!(store.rename(DOC, Position::new(4, 0), "z").unwrap().is_empty());
    assert!(store.rename(DOC, Position::new(1, 3), "z").unwrap().edits_for(DOC).is_none());
}

#[test]
fn rename_in_an_unknown_document_fails() {
    let store = DocumentStore::new();
    assert_eq!(
        store.rename(DOC, Position::new(0, 0), "z").err(),
        Some(StoreError::UnknownDocument)
    );
}

#[test]
fn diagnostics_input_is_generation_and_trimmed_lines() {
    let mut store = DocumentStore::new();
    store.did_open("other".to_string(), "".to_string());
    let generation = store.did_open(DOC.to_string(), "  x: 1 \n\ty: (\n".to_string());
    let (tagged, lines) = store.diagnostics_input(DOC).unwrap();
    assert_eq!(tagged, generation);
    assert_eq!(tagged, 1);
    assert_eq!(lines, vec!["x: 1", "y: (", ""]);
    assert_eq!(store.diagnostics_input("nowhere").err(), Some(StoreError::UnknownDocument));
}

#[test]
fn diagnostics_of_a_current_pass_are_published() {
    let mut store = DocumentStore::new();
    store.did_open(DOC.to_string(), "x: 1\nbad token\n".to_string());
    let (generation, lines) = store.diagnostics_input(DOC).unwrap();
    let rejected = CheckerOutcome::Rejected("bad token\n    ^\n".to_string());
    let found = store.diagnostics(DOC, generation, &rejected, &lines).unwrap();
    assert_eq!(found.len(), 1);
    assert_eq!(found[0].range, span(1, 4, 5));
    let found = store.diagnostics(DOC, generation, &CheckerOutcome::Accepted, &lines).unwrap();
    assert!(found.is_empty());
    assert!(store.diagnostics(DOC, generation, &CheckerOutcome::Unavailable, &lines).is_none());
}

#[test]
fn diagnostics_of_a_stale_pass_are_dropped() {
    let mut store = DocumentStore::new();
    store.did_open(DOC.to_string(), "bad token\n".to_string());
    let (generation, lines) = store.diagnostics_input(DOC).unwrap();
    store.did_change(DOC.to_string(), "x: 1\n".to_string());
    let rejected = CheckerOutcome::Rejected("bad token\n    ^\n".to_string());
    assert!(store.diagnostics(DOC, generation, &rejected, &lines).is_none());
    assert!(store.diagnostics(DOC, generation, &CheckerOutcome::Accepted, &lines).is_none());
    store.did_close(DOC);
    assert!(store.diagnostics(DOC, generation + 1, &rejected, &lines).is_none());
}
