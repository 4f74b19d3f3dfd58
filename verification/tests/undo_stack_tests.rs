use dirbuf::undo_stack::UndoStack;

#[test]
fn undo_after_push_gives_the_snapshot_and_its_cursor() {
    let mut stack = UndoStack::new();
    stack.push("one\ntwo".to_string(), 3, 2);
    assert_eq!(stack.undo(), Some("one\ntwo".to_string()));
    assert_eq!(stack.get_pointers(), Some((3, 2)));
}

#[test]
fn undo_on_an_empty_history_gives_nothing() {
    let mut stack = UndoStack::new();
    assert_eq!(stack.undo(), None);
    assert_eq!(stack.redo(), None);
    assert_eq!(stack.get_pointers(), None);
}

#[test]
fn redo_after_undo_gives_the_same_snapshot() {
    let mut stack = UndoStack::new();
    stack.push("a".to_string(), 1, 1);
    stack.push("b".to_string(), 2, 2);
    assert_eq!(stack.get_pointers(), None);
    assert_eq!(stack.undo(), Some("b".to_string()));
    assert_eq!(stack.redo(), Some("b".to_string()));
    assert_eq!(stack.redo(), None);
    assert_eq!(stack.get_pointers(), None);
}

#[test]
fn undo_walks_back_to_the_start() {
    let mut stack = UndoStack::new();
    stack.push("a".to_string(), 1, 1);
    stack.push("b".to_string(), 2, 2);
    assert_eq!(stack.undo(), Some("b".to_string()));
    assert_eq!(stack.undo(), Some("a".to_string()));
    assert_eq!(stack.get_pointers(), Some((1, 1)));
    assert_eq!(stack.undo(), None);
    assert_eq!(stack.redo(), Some("a".to_string()));
    assert_eq!(stack.get_pointers(), Some((2, 2)));
}

#[test]
fn push_after_undo_moves_to_the_end() {
    let mut stack = UndoStack::new();
    stack.push("a".to_string(), 1, 1);
    stack.push("b".to_string(), 2, 2);
    assert_eq!(stack.undo(), Some("b".to_string()));
    assert_eq!(stack.undo(), Some("a".to_string()));
    stack.push("c".to_string(), 3, 3);
    assert_eq!(stack.redo(), None);
    assert_eq!(stack.undo(), Some("c".to_string()));
    assert_eq!(stack.undo(), Some("b".to_string()));
}
