use neuramancy::decimal::decimal_string;
use neuramancy::inflight::{begin_inflight, end_inflight, Inflight, InflightKind};
use neuramancy::layout::{reduction_plan, scatter_rows, ReductionPlan};
use neuramancy::schema::{Knot, Note, RecordId, Snippet, SnippetData, SurrealRecord, VideoSnippet};
use std::collections::HashMap;

fn record(table: &str, key: &str) -> RecordId {
    RecordId { table: table.into(), key: key.into() }
}

#[test]
fn decimal_rendering() {
    assert_eq!(decimal_string(0), "0");
    assert_eq!(decimal_string(9), "9");
    assert_eq!(decimal_string(10), "10");
    assert_eq!(decimal_string(4096), "4096");
    assert_eq!(decimal_string(u64::MAX), u64::MAX.to_string());
}

#[test]
fn put_id_fills_every_level() {
    let snippet = Snippet {
        id: record("video_snippet", "v1"),
        id_: None,
        data: SnippetData::VideoSnippet(VideoSnippet { path: "/v.mp4".into(), embedding: vec![] }),
    };
    let note = Note { id: record("note", "n1"), id_: None, snippets: vec![snippet] };
    let child = Knot {
        id: record("knot", "c"),
        id_: None,
        label: "c".into(),
        intent: "i".into(),
        notes: vec![],
        knots: vec![],
    };
    let mut knot = Knot {
        id: record("knot", "p"),
        id_: Some("stale".into()),
        label: "p".into(),
        intent: "i".into(),
        notes: vec![note],
        knots: vec![child],
    };
    knot.put_id();
    assert_eq!(knot.id_.as_deref(), Some("p"));
    assert_eq!(knot.notes[0].id_.as_deref(), Some("n1"));
    assert_eq!(knot.notes[0].snippets[0].id_.as_deref(), Some("v1"));
    assert_eq!(knot.knots[0].id_.as_deref(), Some("c"));
    assert_eq!(knot.label, "p");
}

#[test]
fn inflight_begin_then_end() {
    let mut map: HashMap<u64, Inflight> = HashMap::new();
    map.insert(1, Inflight { kind: InflightKind::Refresh, started: 1 });
    let before = map.clone();
    begin_inflight(&mut map, 2, InflightKind::Custom("sync"));
    assert_eq!(map.get(&2), Some(&Inflight { kind: InflightKind::Custom("sync"), started: 2 }));
    end_inflight(&mut map, 2);
    assert_eq!(map, before);
}

#[test]
fn reduction_plan_picks_modal_length() {
    assert_eq!(reduction_plan(&[]), ReductionPlan::Grid);
    assert_eq!(reduction_plan(&[0, 0]), ReductionPlan::Grid);
    assert_eq!(reduction_plan(&[768, 0, 384]), ReductionPlan::Grid);
    assert_eq!(
        reduction_plan(&[768, 0, 384, 768, 384, 768]),
        ReductionPlan::Reduce { dim: 768, rows: vec![0, 3, 5] }
    );
}

#[test]
fn scatter_puts_rows_back() {
    let mut base = vec![10, 11, 12, 13];
    scatter_rows(&mut base, &[3, 1], &[7, 9]);
    assert_eq!(base, vec![10, 9, 12, 7]);
}
