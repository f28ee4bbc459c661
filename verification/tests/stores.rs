use neuramancy::knot_store::{KnotState, KnotStatus};
use neuramancy::notes_store::{NoteStatus, NoteVm, NotesState};
use neuramancy::schema::{Knot, Note, RecordId, Snippet, SnippetData, TextSnippet};

fn saved(id: &str) -> NoteVm {
    NoteVm {
        id: Some(id.to_string()),
        local_key: format!("note:{id}"),
        snippet_count: 1,
        status: NoteStatus::Saved,
        last_op: None,
    }
}

fn record(table: &str, key: &str) -> RecordId {
    RecordId { table: table.into(), key: key.into() }
}

fn knot(key: &str) -> Knot {
    Knot {
        id: record("knot", key),
        id_: Some(key.to_string()),
        label: "label".into(),
        intent: "intent".into(),
        notes: vec![],
        knots: vec![],
    }
}

#[test]
fn create_inserts_pending_note_in_front() {
    let mut state = NotesState { items: vec![saved("a")], last_error: Some("old".into()) };
    let undo = state.begin_create(7);
    assert_eq!(undo.temp_key, "temp:7");
    assert_eq!(state.items.len(), 2);
    assert_eq!(state.items[0].local_key, "note:temp:7");
    assert_eq!(state.items[0].id, None);
    assert_eq!(state.items[0].last_op, Some(7));
    assert_eq!(
        state.items[0].status,
        NoteStatus::PendingCreate { op_id: 7, temp_key: "temp:7".into() }
    );
    assert_eq!(state.last_error, None);
}

#[test]
fn create_then_commit_restores_list() {
    let mut state = NotesState { items: vec![saved("a"), saved("b")], last_error: None };
    let before = state.items.clone();
    state.begin_create(3);
    state.commit_create(3);
    assert_eq!(state.items, before);
}

#[test]
fn create_then_rollback_restores_list_and_reports() {
    let mut state = NotesState { items: vec![saved("a")], last_error: None };
    let before = state.items.clone();
    let undo = state.begin_create(12);
    state.rollback_create(12, undo, "boom");
    assert_eq!(state.items, before);
    assert_eq!(state.last_error.as_deref(), Some("Failed to create note (op=12): boom"));
}

#[test]
fn rollback_of_one_create_keeps_the_other_pending() {
    let mut state = NotesState::default();
    let first = state.begin_create(1);
    state.begin_create(2);
    state.rollback_create(1, first, "x");
    assert_eq!(state.items.len(), 1);
    assert_eq!(state.items[0].local_key, "note:temp:2");
}

#[test]
fn delete_then_rollback_restores_position() {
    let mut state = NotesState { items: vec![saved("a"), saved("b"), saved("c")], last_error: None };
    let undo = state.begin_delete(9, &"b".to_string());
    assert_eq!(state.items.len(), 2);
    assert_eq!(undo.removed.as_ref().map(|r| r.0), Some(1));
    state.rollback_delete(undo, "offline");
    assert_eq!(state.items.len(), 3);
    assert_eq!(state.items[1].id.as_deref(), Some("b"));
    assert_eq!(state.items[1].status, NoteStatus::Error { message: "Delete failed: offline".into() });
    assert_eq!(state.items[1].last_op, Some(9));
    assert_eq!(state.last_error.as_deref(), Some("Failed to delete note: offline"));
}

#[test]
fn delete_of_unknown_id_changes_nothing() {
    let mut state = NotesState { items: vec![saved("a")], last_error: Some("e".into()) };
    let undo = state.begin_delete(1, &"zzz".to_string());
    assert!(undo.removed.is_none());
    assert_eq!(state.items.len(), 1);
    assert_eq!(state.last_error, None);
}

#[test]
fn refresh_keeps_pending_after_server_notes() {
    let mut state = NotesState { items: vec![saved("old")], last_error: Some("e".into()) };
    state.begin_create(5);
    let server = vec![
        Note {
            id: record("note", "x"),
            id_: Some("x".into()),
            snippets: vec![Snippet {
                id: record("text_snippet", "s"),
                id_: Some("s".into()),
                data: SnippetData::TextSnippet(TextSnippet { content: "hi".into(), embedding: vec![] }),
            }],
        },
        Note { id: record("note", "y"), id_: None, snippets: vec![] },
    ];
    state.apply_refresh(server);
    assert_eq!(state.items.len(), 3);
    assert_eq!(state.items[0].local_key, "note:x");
    assert_eq!(state.items[0].snippet_count, 1);
    assert_eq!(state.items[1].local_key, "note:unknown");
    assert_eq!(state.items[2].local_key, "note:temp:5");
    assert_eq!(state.last_error, None);
}

#[test]
fn refresh_failure_reports() {
    let mut state = NotesState::default();
    state.refresh_failed("no network");
    assert_eq!(state.last_error.as_deref(), Some("Failed to refresh notes: no network"));
}

#[test]
fn knot_create_commit_puts_saved_knot_in_front() {
    let mut state = KnotState::default();
    let undo = state.begin_create(4);
    assert_eq!(undo.temp_key, "temp:4");
    assert_eq!(state.items[0].local_key, "knot:temp:4");
    state.commit_create(4, knot("k1"));
    assert_eq!(state.items.len(), 1);
    assert_eq!(state.items[0].local_key, "knot:k1");
    assert_eq!(state.items[0].status, KnotStatus::Saved);
    assert_eq!(state.items[0].last_op, Some(4));
}

#[test]
fn knot_rollbacks_report() {
    let mut state = KnotState::default();
    let undo = state.begin_create(8);
    state.rollback_create(8, undo, "bad");
    assert!(state.items.is_empty());
    assert_eq!(state.last_error.as_deref(), Some("Failed to create knot (op=8): bad"));

    state.apply_refresh(vec![knot("a"), knot("b")]);
    let undo = state.begin_delete(2, &"a".to_string());
    assert_eq!(state.items.len(), 1);
    state.rollback_delete(undo, "nope");
    assert_eq!(state.items[0].local_key, "knot:a");
    assert_eq!(state.items[0].status, KnotStatus::Error { message: "Delete failed: nope".into() });
    assert_eq!(state.last_error.as_deref(), Some("Failed to delete knot: nope"));
    state.refresh_failed("x");
    assert_eq!(state.last_error.as_deref(), Some("Failed to refresh knots: x"));
}

#[test]
fn knot_refresh_keeps_pending_after_server_knots() {
    let mut state = KnotState::default();
    state.apply_refresh(vec![knot("old")]);
    state.begin_create(9);
    state.apply_refresh(vec![knot("a"), knot("b")]);
    assert_eq!(state.items.len(), 3);
    assert_eq!(state.items[0].local_key, "knot:a");
    assert_eq!(state.items[1].local_key, "knot:b");
    assert_eq!(state.items[2].local_key, "knot:temp:9");
    assert_eq!(state.last_error, None);
}
