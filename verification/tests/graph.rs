use neuramancy::graph::{
    build_knot_intermediate_edges, build_note_edges, build_snippet_edges, edges_to_draw, grid_cell,
    pairwise_edges, plan_knot_intermediate_nodes, plan_knot_root_nodes, plan_note_nodes,
    plan_snippet_nodes, snippet_id_string, snippet_ids, EdgeKind, GraphEdgeInput, KnotInput,
    MeshKind, NodeKind, NoteInput, SnippetInput, SpaceTier, KNOT_INTERMEDIATE_COLOR,
    KNOT_ROOT_COLOR, NOTE_COLOR, SNIPPET_COLOR,
};

// --- snippet builders ---

#[test]
fn snippet_nodes_multiple_notes() {
    let inputs = vec![
        SnippetInput {
            note_id: "note:a".into(),
            snippet_count: 2,
        },
        SnippetInput {
            note_id: "note:b".into(),
            snippet_count: 3,
        },
    ];
    let nodes = plan_snippet_nodes(&inputs);

    assert_eq!(nodes.len(), 5);
    assert!(nodes.iter().all(|n| n.kind == NodeKind::Snippet));
    assert!(nodes.iter().all(|n| n.mesh_kind == MeshKind::Sphere));

    assert_eq!(nodes[0].group_id.as_deref(), Some("note:a"));
    assert_eq!(nodes[1].group_id.as_deref(), Some("note:a"));
    assert_eq!(nodes[2].group_id.as_deref(), Some("note:b"));
    assert_eq!(nodes[3].group_id.as_deref(), Some("note:b"));
    assert_eq!(nodes[4].group_id.as_deref(), Some("note:b"));

    assert_eq!(nodes[0].id, "snippet:note:a:0");
    assert_eq!(nodes[1].id, "snippet:note:a:1");
    assert_eq!(nodes[2].id, "snippet:note:b:0");
}

#[test]
fn snippet_nodes_empty() {
    let nodes = plan_snippet_nodes(&[]);
    assert!(nodes.is_empty());
}

#[test]
fn snippet_nodes_zero_snippets() {
    let inputs = vec![SnippetInput {
        note_id: "note:a".into(),
        snippet_count: 0,
    }];
    let nodes = plan_snippet_nodes(&inputs);
    assert!(nodes.is_empty());
}

#[test]
fn snippet_edges_per_note() {
    let inputs = vec![
        SnippetInput {
            note_id: "note:a".into(),
            snippet_count: 3,
        },
        SnippetInput {
            note_id: "note:b".into(),
            snippet_count: 2,
        },
    ];
    let edges = build_snippet_edges(&inputs);

    assert_eq!(edges.len(), 4);
    assert!(edges.iter().all(|e| e.kind == EdgeKind::NoteMembership));
    assert!(edges.iter().all(|e| !e.visible));

    assert!(edges[0].from.starts_with("snippet:note:a:"));
    assert!(edges[0].to.starts_with("snippet:note:a:"));
    assert!(edges[3].from.starts_with("snippet:note:b:"));
    assert!(edges[3].to.starts_with("snippet:note:b:"));
}

#[test]
fn snippet_edges_single_snippet_no_edges() {
    let inputs = vec![SnippetInput {
        note_id: "note:a".into(),
        snippet_count: 1,
    }];
    let edges = build_snippet_edges(&inputs);
    assert!(edges.is_empty());
}

// --- note builders ---

#[test]
fn note_nodes() {
    let inputs = vec![
        NoteInput {
            id: "note:1".into(),
            snippet_count: 3,
        },
        NoteInput {
            id: "note:2".into(),
            snippet_count: 1,
        },
        NoteInput {
            id: "note:3".into(),
            snippet_count: 0,
        },
    ];
    let nodes = plan_note_nodes(&inputs);

    assert_eq!(nodes.len(), 3);
    assert!(nodes.iter().all(|n| n.kind == NodeKind::Note));
    assert!(nodes.iter().all(|n| n.mesh_kind == MeshKind::Cube));
    assert!(nodes.iter().all(|n| n.group_id.is_none()));
    assert_eq!(nodes[0].id, "note:1");
    assert_eq!(nodes[1].id, "note:2");
    assert_eq!(nodes[2].id, "note:3");
}

#[test]
fn note_nodes_includes_pending() {
    let inputs = vec![NoteInput {
        id: "note:temp:42".into(),
        snippet_count: 1,
    }];
    let nodes = plan_note_nodes(&inputs);

    assert_eq!(nodes.len(), 1);
    assert_eq!(nodes[0].id, "note:temp:42");
}

#[test]
fn note_nodes_empty() {
    let nodes = plan_note_nodes(&[]);
    assert!(nodes.is_empty());
}

#[test]
fn note_edges() {
    let inputs = vec![KnotInput {
        id: "knot:1".into(),
        label: Some("test".into()),
        child_knot_ids: vec![],
        note_ids: vec!["note:a".into(), "note:b".into(), "note:c".into()],
    }];
    let edges = build_note_edges(&inputs);

    assert_eq!(edges.len(), 3);
    assert!(edges.iter().all(|e| e.kind == EdgeKind::KnotMembership));
    assert!(edges.iter().all(|e| e.visible));
}

#[test]
fn note_edges_multiple_knots() {
    let inputs = vec![
        KnotInput {
            id: "knot:1".into(),
            label: None,
            child_knot_ids: vec![],
            note_ids: vec!["note:a".into(), "note:b".into()],
        },
        KnotInput {
            id: "knot:2".into(),
            label: None,
            child_knot_ids: vec![],
            note_ids: vec!["note:c".into(), "note:d".into(), "note:e".into()],
        },
    ];
    let edges = build_note_edges(&inputs);

    assert_eq!(edges.len(), 4);
}

// --- knot intermediate builders ---

#[test]
fn knot_intermediate_nodes() {
    let inputs = vec![
        KnotInput {
            id: "knot:a".into(),
            label: Some("parent".into()),
            child_knot_ids: vec![],
            note_ids: vec![],
        },
        KnotInput {
            id: "knot:b".into(),
            label: Some("child".into()),
            child_knot_ids: vec![],
            note_ids: vec![],
        },
    ];
    let nodes = plan_knot_intermediate_nodes(&inputs);

    assert_eq!(nodes.len(), 2);
    assert!(nodes.iter().all(|n| n.kind == NodeKind::Knot));
    assert!(nodes.iter().all(|n| n.mesh_kind == MeshKind::Capsule));
    assert_eq!(nodes[0].id, "knot:a");
    assert_eq!(nodes[1].id, "knot:b");
}

#[test]
fn knot_intermediate_nodes_includes_pending() {
    let inputs = vec![KnotInput {
        id: "knot:temp:1".into(),
        label: None,
        child_knot_ids: vec![],
        note_ids: vec![],
    }];
    let nodes = plan_knot_intermediate_nodes(&inputs);

    assert_eq!(nodes.len(), 1);
    assert_eq!(nodes[0].id, "knot:temp:1");
}

#[test]
fn knot_intermediate_edges() {
    let inputs = vec![
        KnotInput {
            id: "knot:parent".into(),
            label: Some("parent".into()),
            child_knot_ids: vec!["knot:child1".into(), "knot:child2".into()],
            note_ids: vec![],
        },
        KnotInput {
            id: "knot:child1".into(),
            label: Some("child1".into()),
            child_knot_ids: vec![],
            note_ids: vec![],
        },
    ];
    let edges = build_knot_intermediate_edges(&inputs);

    assert_eq!(edges.len(), 2);
    assert!(edges.iter().all(|e| e.kind == EdgeKind::ParentChild));
    assert!(edges.iter().all(|e| e.visible));
    assert_eq!(edges[0].from, "knot:parent");
    assert_eq!(edges[0].to, "knot:child1");
    assert_eq!(edges[1].from, "knot:parent");
    assert_eq!(edges[1].to, "knot:child2");
}

#[test]
fn knot_intermediate_edges_no_children() {
    let inputs = vec![KnotInput {
        id: "knot:leaf".into(),
        label: None,
        child_knot_ids: vec![],
        note_ids: vec![],
    }];
    let edges = build_knot_intermediate_edges(&inputs);
    assert!(edges.is_empty());
}

// --- knot root builders ---

#[test]
fn knot_root_filters_children() {
    let inputs = vec![
        KnotInput {
            id: "knot:root1".into(),
            label: Some("root1".into()),
            child_knot_ids: vec!["knot:child".into()],
            note_ids: vec![],
        },
        KnotInput {
            id: "knot:child".into(),
            label: Some("child".into()),
            child_knot_ids: vec![],
            note_ids: vec![],
        },
        KnotInput {
            id: "knot:root2".into(),
            label: Some("root2".into()),
            child_knot_ids: vec![],
            note_ids: vec![],
        },
    ];
    let nodes = plan_knot_root_nodes(&inputs);

    assert_eq!(nodes.len(), 2);
    let ids: Vec<&str> = nodes.iter().map(|n| n.id.as_str()).collect();
    assert!(ids.contains(&"knot:root1"));
    assert!(ids.contains(&"knot:root2"));
    assert!(!ids.contains(&"knot:child"));
}

#[test]
fn knot_root_includes_pending() {
    let inputs = vec![KnotInput {
        id: "knot:temp:1".into(),
        label: None,
        child_knot_ids: vec![],
        note_ids: vec![],
    }];
    let nodes = plan_knot_root_nodes(&inputs);

    assert_eq!(nodes.len(), 1);
    assert_eq!(nodes[0].id, "knot:temp:1");
}

#[test]
fn knot_root_empty() {
    let nodes = plan_knot_root_nodes(&[]);
    assert!(nodes.is_empty());
}

// --- pairwise edges ---

#[test]
fn pairwise_four_ids() {
    let ids: Vec<String> = vec!["a".into(), "b".into(), "c".into(), "d".into()];
    let edges = pairwise_edges(&ids, EdgeKind::NoteMembership, false);

    assert_eq!(edges.len(), 6);
    assert!(edges.iter().all(|e| e.kind == EdgeKind::NoteMembership));
    assert!(edges.iter().all(|e| !e.visible));
}

#[test]
fn pairwise_two_ids() {
    let ids: Vec<String> = vec!["x".into(), "y".into()];
    let edges = pairwise_edges(&ids, EdgeKind::KnotMembership, true);

    assert_eq!(edges.len(), 1);
    assert_eq!(edges[0].from, "x");
    assert_eq!(edges[0].to, "y");
    assert!(edges[0].visible);
}

#[test]
fn pairwise_single_id() {
    let ids: Vec<String> = vec!["solo".into()];
    let edges = pairwise_edges(&ids, EdgeKind::ParentChild, true);
    assert!(edges.is_empty());
}

#[test]
fn pairwise_empty() {
    let edges = pairwise_edges(&[], EdgeKind::ParentChild, true);
    assert!(edges.is_empty());
}

// --- further cases ---

#[test]
fn pairwise_order_and_every_pair() {
    let ids: Vec<String> = vec!["a".into(), "b".into(), "c".into()];
    let edges = pairwise_edges(&ids, EdgeKind::NoteMembership, false);
    let pairs: Vec<(&str, &str)> = edges.iter().map(|e| (e.from.as_str(), e.to.as_str())).collect();
    assert_eq!(pairs, vec![("a", "b"), ("a", "c"), ("b", "c")]);
}

#[test]
fn pairwise_count_formula() {
    for n in 0..9usize {
        let ids: Vec<String> = (0..n).map(|i| format!("id{i}")).collect();
        assert_eq!(pairwise_edges(&ids, EdgeKind::KnotMembership, true).len(), n * (n.saturating_sub(1)) / 2);
    }
}

#[test]
fn note_edges_join_notes_of_one_knot() {
    let inputs = vec![
        KnotInput {
            id: "knot:1".into(),
            label: None,
            child_knot_ids: vec![],
            note_ids: vec!["note:a".into(), "note:b".into()],
        },
        KnotInput {
            id: "knot:2".into(),
            label: None,
            child_knot_ids: vec![],
            note_ids: vec!["note:c".into(), "note:d".into()],
        },
    ];
    let edges = build_note_edges(&inputs);
    assert_eq!(edges[0].from, "note:a");
    assert_eq!(edges[0].to, "note:b");
    assert_eq!(edges[1].from, "note:c");
    assert_eq!(edges[1].to, "note:d");
}

#[test]
fn snippet_ids_render_decimal_indices() {
    let note = String::from("note:x");
    assert_eq!(snippet_id_string(&note, 0), "snippet:note:x:0");
    assert_eq!(snippet_id_string(&note, 12), "snippet:note:x:12");
    assert_eq!(snippet_id_string(&note, 1057), "snippet:note:x:1057");
    assert_eq!(snippet_ids(&note, 3), vec!["snippet:note:x:0", "snippet:note:x:1", "snippet:note:x:2"]);
}

#[test]
fn node_colors_and_slots() {
    let notes = plan_note_nodes(&[NoteInput { id: "n".into(), snippet_count: 0 }]);
    assert_eq!(notes[0].color, NOTE_COLOR);
    assert_eq!(NOTE_COLOR, [120, 210, 165, 255]);
    let snippets = plan_snippet_nodes(&[
        SnippetInput { note_id: "a".into(), snippet_count: 2 },
        SnippetInput { note_id: "b".into(), snippet_count: 1 },
    ]);
    assert_eq!(snippets.iter().map(|n| n.layout_index).collect::<Vec<_>>(), vec![0, 1, 2]);
    assert_eq!(snippets[0].color, SNIPPET_COLOR);
    assert_eq!(SNIPPET_COLOR, [118, 167, 255, 255]);
    let knot = KnotInput { id: "k".into(), label: None, child_knot_ids: vec![], note_ids: vec![] };
    assert_eq!(plan_knot_intermediate_nodes(&[knot.clone()])[0].color, KNOT_INTERMEDIATE_COLOR);
    assert_eq!(KNOT_INTERMEDIATE_COLOR, [252, 200, 114, 255]);
    assert_eq!(plan_knot_root_nodes(&[knot])[0].color, KNOT_ROOT_COLOR);
    assert_eq!(KNOT_ROOT_COLOR, [250, 186, 120, 255]);
}

#[test]
fn knot_root_slots_count_roots_only() {
    let inputs = vec![
        KnotInput { id: "c".into(), label: None, child_knot_ids: vec![], note_ids: vec![] },
        KnotInput { id: "p".into(), label: None, child_knot_ids: vec!["c".into()], note_ids: vec![] },
        KnotInput { id: "q".into(), label: None, child_knot_ids: vec![], note_ids: vec![] },
    ];
    let nodes = plan_knot_root_nodes(&inputs);
    assert_eq!(nodes.iter().map(|n| (n.id.as_str(), n.layout_index)).collect::<Vec<_>>(), vec![("p", 0), ("q", 1)]);
}

#[test]
fn grid_cells() {
    assert_eq!(grid_cell(0, 4), (0, 0));
    assert_eq!(grid_cell(3, 4), (0, 3));
    assert_eq!(grid_cell(4, 4), (1, 0));
    assert_eq!(grid_cell(11, 5), (2, 1));
}

fn edge(from: &str, to: &str, kind: EdgeKind, visible: bool) -> GraphEdgeInput {
    GraphEdgeInput { from: from.into(), to: to.into(), kind, visible }
}

#[test]
fn edges_to_draw_skips_hidden_and_dangling() {
    let ids: Vec<String> = vec!["a".into(), "b".into(), "c".into()];
    let edges = vec![
        edge("a", "b", EdgeKind::KnotMembership, true),
        edge("a", "c", EdgeKind::NoteMembership, false),
        edge("a", "zzz", EdgeKind::ParentChild, true),
        edge("c", "b", EdgeKind::ParentChild, true),
    ];
    let draws = edges_to_draw(SpaceTier::Note, &ids, &edges);
    assert_eq!(draws.len(), 2);
    assert_eq!((draws[0].from_node, draws[0].to_node, draws[0].color), (0, 1, [120, 210, 165]));
    assert_eq!((draws[1].from_node, draws[1].to_node, draws[1].color), (2, 1, [252, 200, 114]));
}

#[test]
fn edges_to_draw_root_tier_draws_nothing() {
    let ids: Vec<String> = vec!["a".into(), "b".into()];
    let edges = vec![edge("a", "b", EdgeKind::ParentChild, true)];
    assert!(edges_to_draw(SpaceTier::KnotRoot, &ids, &edges).is_empty());
}

#[test]
fn edges_to_draw_later_node_shadows_earlier() {
    let ids: Vec<String> = vec!["a".into(), "b".into(), "a".into()];
    let edges = vec![edge("a", "b", EdgeKind::NoteMembership, true)];
    let draws = edges_to_draw(SpaceTier::Snippet, &ids, &edges);
    assert_eq!((draws[0].from_node, draws[0].to_node, draws[0].color), (2, 1, [120, 168, 255]));
}

fn knot_with(id: &str, notes: &[&str], children: &[&str]) -> KnotInput {
    KnotInput {
        id: id.into(),
        label: None,
        child_knot_ids: children.iter().map(|c| c.to_string()).collect(),
        note_ids: notes.iter().map(|n| n.to_string()).collect(),
    }
}

#[test]
fn edges_of_concatenated_knot_lists() {
    let a = vec![knot_with("knot:1", &["note:a", "note:b"], &["knot:2"]), knot_with("knot:2", &["note:c"], &[])];
    let b = vec![knot_with("knot:3", &["note:d", "note:e", "note:f"], &["knot:1", "knot:2"])];
    let mut ab = a.clone();
    ab.extend(b.iter().cloned());

    let mut notes = build_note_edges(&a);
    notes.extend(build_note_edges(&b));
    assert_eq!(build_note_edges(&ab), notes);
    assert_eq!(notes.len(), 4);

    let mut children = build_knot_intermediate_edges(&a);
    children.extend(build_knot_intermediate_edges(&b));
    assert_eq!(build_knot_intermediate_edges(&ab), children);
    assert_eq!(children.len(), 3);
}
