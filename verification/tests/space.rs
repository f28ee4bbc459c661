use neuramancy::graph::{EdgeKind, NodeKind, SpaceTier};
use neuramancy::knot_store::{KnotState, KnotStatus, KnotVm};
use neuramancy::notes_store::{NoteStatus, NoteVm, NotesState};
use neuramancy::schema::{Knot, Note, RecordId};
use neuramancy::space::{knot_inputs, note_inputs, snippet_inputs, tier_graph};

fn record(table: &str, key: &str) -> RecordId {
    RecordId { table: table.into(), key: key.into() }
}

fn notes() -> NotesState {
    NotesState {
        items: vec![
            NoteVm {
                id: Some("a".into()),
                local_key: "note:a".into(),
                snippet_count: 2,
                status: NoteStatus::Saved,
                last_op: None,
            },
            NoteVm {
                id: None,
                local_key: "note:temp:3".into(),
                snippet_count: 0,
                status: NoteStatus::PendingCreate { op_id: 3, temp_key: "temp:3".into() },
                last_op: Some(3),
            },
        ],
        last_error: None,
    }
}

fn knots() -> KnotState {
    let child = Knot {
        id: record("knot", "c"),
        id_: Some("c".into()),
        label: "child".into(),
        intent: "i".into(),
        notes: vec![],
        knots: vec![],
    };
    let parent = Knot {
        id: record("knot", "p"),
        id_: Some("p".into()),
        label: "parent".into(),
        intent: "i".into(),
        notes: vec![
            Note { id: record("note", "a"), id_: Some("a".into()), snippets: vec![] },
            Note { id: record("note", "b"), id_: Some("b".into()), snippets: vec![] },
            Note { id: record("note", "z"), id_: None, snippets: vec![] },
        ],
        knots: vec![child],
    };
    KnotState {
        items: vec![
            KnotVm {
                id: Some("p".into()),
                local_key: "knot:p".into(),
                knot: Some(parent),
                status: KnotStatus::Saved,
                last_op: None,
            },
            KnotVm {
                id: Some("c".into()),
                local_key: "knot:c".into(),
                knot: None,
                status: KnotStatus::Saved,
                last_op: None,
            },
        ],
        last_error: None,
    }
}

#[test]
fn inputs_from_caches() {
    let n = notes();
    let s = snippet_inputs(&n);
    assert_eq!(s[0].note_id, "a");
    assert_eq!(s[1].note_id, "note:temp:3");
    let ni = note_inputs(&n);
    assert_eq!(ni[0].snippet_count, 2);
    let k = knot_inputs(&knots());
    assert_eq!(k[0].id, "p");
    assert_eq!(k[0].label.as_deref(), Some("parent"));
    assert_eq!(k[0].child_knot_ids, vec!["c".to_string()]);
    assert_eq!(k[0].note_ids, vec!["a".to_string(), "b".to_string()]);
    assert_eq!(k[1].label, None);
    assert!(k[1].note_ids.is_empty());
}

#[test]
fn graphs_per_tier() {
    let n = notes();
    let k = knots();
    let (nodes, edges) = tier_graph(SpaceTier::Snippet, &n, &k);
    assert_eq!(nodes.len(), 2);
    assert_eq!(nodes[1].id, "snippet:a:1");
    assert_eq!(edges.len(), 1);

    let (nodes, edges) = tier_graph(SpaceTier::Note, &n, &k);
    assert!(nodes.iter().all(|x| x.kind == NodeKind::Note));
    assert_eq!(edges.len(), 1);
    assert_eq!(edges[0].kind, EdgeKind::KnotMembership);

    let (nodes, edges) = tier_graph(SpaceTier::KnotIntermediate, &n, &k);
    assert_eq!(nodes.len(), 2);
    assert_eq!(edges.len(), 1);
    assert_eq!((edges[0].from.as_str(), edges[0].to.as_str()), ("p", "c"));

    let (nodes, edges) = tier_graph(SpaceTier::KnotRoot, &n, &k);
    assert_eq!(nodes.len(), 1);
    assert_eq!(nodes[0].id, "p");
    assert!(edges.is_empty());
}
