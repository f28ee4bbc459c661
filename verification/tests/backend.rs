use neuramancy::backend::{
    create_knot_statements, create_note_statements, deletion_result, embed_kind_for_table,
    created_knot, created_note, delete_knot_statements, delete_note_statements, embedding_job,
    existing_snippet_step, first_embedding, note_preparation, transcript_text, BindValue, NewNote, NotePrep,
    StoreError, EmbedKind, SnippetDataOrId, Statement,
};
use neuramancy::schema::{AudioSnippet, ImageSnippet, Knot, Note, RecordId, SnippetData, TextSnippet, VideoSnippet};

fn texts(plan: &[Statement]) -> Vec<&str> {
    plan.iter().map(|s| s.text.as_str()).collect()
}

#[test]
fn embedding_jobs_by_kind() {
    let text = SnippetData::TextSnippet(TextSnippet { content: "hello".into(), embedding: vec![] });
    assert_eq!(embedding_job(&text), Some((EmbedKind::Text, "hello".to_string())));
    let audio = SnippetData::AudioSnippet(AudioSnippet { path: "/a.wav".into(), embedding: vec![] });
    assert_eq!(embedding_job(&audio), Some((EmbedKind::Transcript, "/a.wav".to_string())));
    let image = SnippetData::ImageSnippet(ImageSnippet { path: "/i.png".into(), embedding: vec![] });
    assert_eq!(embedding_job(&image), Some((EmbedKind::Image, "/i.png".to_string())));
    let video = SnippetData::VideoSnippet(VideoSnippet { path: "/v.mp4".into(), embedding: vec![1] });
    assert_eq!(embedding_job(&video), None);
}

#[test]
fn embed_kind_by_table() {
    assert_eq!(embed_kind_for_table(&"text_snippet".to_string()), Ok(EmbedKind::Text));
    assert_eq!(embed_kind_for_table(&"audio_snippet".to_string()), Ok(EmbedKind::Transcript));
    assert_eq!(embed_kind_for_table(&"image_snippet".to_string()), Ok(EmbedKind::Image));
    assert_eq!(embed_kind_for_table(&"video_snippet".to_string()), Ok(EmbedKind::Transcript));
    assert_eq!(
        embed_kind_for_table(&"note".to_string()),
        Err("unsupported snippet table: note".to_string())
    );
}

#[test]
fn deletion_answers() {
    let id = "abc".to_string();
    assert_eq!(deletion_result(Some(0), "note", &id), Err("note:abc".to_string()));
    assert_eq!(deletion_result(Some(1), "note", &id), Ok(()));
    assert_eq!(deletion_result(None, "knot", &id), Ok(()));
}

#[test]
fn note_transaction() {
    let snippets = vec![
        SnippetDataOrId::Data(SnippetData::TextSnippet(TextSnippet { content: "Yes".into(), embedding: vec![] })),
        SnippetDataOrId::Id(("audio_snippet".into(), "s1".into())),
    ];
    let plan = create_note_statements(&snippets);
    assert_eq!(
        texts(&plan),
        vec![
            "BEGIN",
            "LET $note = CREATE ONLY note",
            "LET $snippet0 = CREATE ONLY text_snippet SET content = $value0, embedding = $embedding0",
            "RELATE $note->contain->$snippet0",
            "LET $existing_snippet1 = SELECT * FROM type::thing($table1, $id1)",
            "IF array::len($existing_snippet1) == 0 { THROW 'Snippet not found: ' + $table1 + ':' + $id1 }",
            "RELATE $note->contain->type::thing($table1, $id1)",
            "LET $note_id = record::id($note.id)",
            "LET $snippet_ids = (SELECT VALUE record::id(out.id) FROM $note->contain)",
            "RETURN { id: $note_id, snippet_ids: $snippet_ids }",
            "COMMIT",
        ]
    );
    assert_eq!(
        plan[2].bindings,
        vec![
            ("value0".to_string(), BindValue::Text("Yes".into())),
            ("embedding0".to_string(), BindValue::Embedding(0)),
        ]
    );
    assert_eq!(
        plan[4].bindings,
        vec![
            ("table1".to_string(), BindValue::Text("audio_snippet".into())),
            ("id1".to_string(), BindValue::Text("s1".into())),
        ]
    );
}

#[test]
fn knot_transaction_and_answer_slot() {
    let notes = vec!["n1".to_string()];
    let knots = vec!["k1".to_string(), "k2".to_string()];
    let (plan, select_index) = create_knot_statements("knot 1".into(), "use it everywhere".into(), &notes, &knots);
    assert_eq!(select_index, 1 + 4 * 3);
    assert_eq!(plan.len(), select_index + 3);
    assert!(plan[select_index + 1].text.starts_with("SELECT *,"));
    assert_eq!(plan[1].text, "LET $knot = CREATE knot SET label = $label, intent = $intent");
    assert_eq!(plan[2].text, "LET $note0 = SELECT * FROM type::thing('note', $note_id0)");
    assert_eq!(plan[3].text, "IF array::len($note0) == 0 { THROW 'Note not found: ' + $note_id0 }");
    assert_eq!(plan[6].text, "LET $existing_knot1 = SELECT * FROM type::thing('knot', $knot_id1)");
    assert_eq!(plan[8].text, "LET $note_record0 = type::thing('note', $note_id0)");
    assert_eq!(plan[9].text, "RELATE $note_record0->converge->$knot");
    assert_eq!(plan[12].text, "LET $knot_record1 = type::thing('knot', $knot_id1)");
    assert_eq!(plan[12].bindings, vec![("knot_id1".to_string(), BindValue::Text("k2".into()))]);
    assert_eq!(plan[plan.len() - 1].text, "COMMIT");
}

#[test]
fn existing_snippet_steps() {
    let id = "s1".to_string();
    let text = "text_snippet".to_string();
    let audio = "audio_snippet".to_string();
    assert_eq!(
        existing_snippet_step(&"note".to_string(), None, &id),
        Err("unsupported snippet table: note".to_string())
    );
    assert_eq!(
        existing_snippet_step(&"note".to_string(), Some(true), &id),
        Err("unsupported snippet table: note".to_string())
    );
    assert_eq!(existing_snippet_step(&text, None, &id), Err("snippet not found: text_snippet:s1".to_string()));
    assert_eq!(existing_snippet_step(&text, Some(false), &id), Ok(None));
    assert_eq!(existing_snippet_step(&text, Some(true), &id), Ok(Some(EmbedKind::Text)));
    assert_eq!(existing_snippet_step(&audio, Some(true), &id), Ok(Some(EmbedKind::Transcript)));
    assert_eq!(
        existing_snippet_step(&"image_snippet".to_string(), Some(true), &id),
        Ok(Some(EmbedKind::Image))
    );
    assert_eq!(
        existing_snippet_step(&"video_snippet".to_string(), Some(true), &id),
        Ok(Some(EmbedKind::Transcript))
    );
}

#[test]
fn transcripts_join_trimmed_segments() {
    let segs = vec!["  hello ".to_string(), "   ".to_string(), "world\n".to_string(), "".to_string(), " again".to_string()];
    assert_eq!(transcript_text(&segs), Ok("hello world again".to_string()));
    assert_eq!(transcript_text(&["one".to_string()]), Ok("one".to_string()));
    let empty = "audio transcription produced empty transcript".to_string();
    assert_eq!(transcript_text(&[]), Err(empty.clone()));
    assert_eq!(transcript_text(&[" ".to_string(), "\t".to_string()]), Err(empty));
}

#[test]
fn first_embedding_or_error() {
    assert_eq!(first_embedding(vec![vec![1u32, 2], vec![3]]), Ok(vec![1, 2]));
    assert_eq!(
        first_embedding(Vec::<Vec<u32>>::new()),
        Err("text embedding returned no vectors".to_string())
    );
}

#[test]
fn note_preparation_order() {
    let snippets = vec![
        SnippetDataOrId::Data(SnippetData::TextSnippet(TextSnippet { content: "hi".into(), embedding: vec![] })),
        SnippetDataOrId::Id(("audio_snippet".into(), "a1".into())),
        SnippetDataOrId::Data(SnippetData::ImageSnippet(ImageSnippet { path: "/i.png".into(), embedding: vec![7] })),
        SnippetDataOrId::Data(SnippetData::VideoSnippet(VideoSnippet { path: "/v.mp4".into(), embedding: vec![] })),
        SnippetDataOrId::Id(("text_snippet".into(), "t1".into())),
    ];
    assert_eq!(
        note_preparation(&snippets),
        vec![
            NotePrep::EnsureExisting("audio_snippet".into(), "a1".into()),
            NotePrep::EnsureExisting("text_snippet".into(), "t1".into()),
            NotePrep::Embed(0, EmbedKind::Text, "hi".into()),
            NotePrep::Embed(3, EmbedKind::Transcript, "/v.mp4".into()),
        ]
    );
    assert!(note_preparation(&[]).is_empty());
}

#[test]
fn reading_created_records() {
    let note = NewNote { id: "n1".into(), snippet_ids: vec!["s1".into()] };
    assert_eq!(created_note(Some(note.clone())), Ok(note));
    assert_eq!(created_note(None), Err(StoreError::TxFailure));

    let child = Knot {
        id: RecordId { table: "knot".into(), key: "c".into() },
        id_: None,
        label: "child".into(),
        intent: "i".into(),
        notes: vec![Note { id: RecordId { table: "note".into(), key: "n".into() }, id_: None, snippets: vec![] }],
        knots: vec![],
    };
    let parent = Knot {
        id: RecordId { table: "knot".into(), key: "p".into() },
        id_: None,
        label: "parent".into(),
        intent: "i".into(),
        notes: vec![],
        knots: vec![child],
    };
    let k = created_knot(vec![parent.clone()]).unwrap();
    assert_eq!(k.id_.as_deref(), Some("p"));
    assert_eq!(k.knots[0].id_.as_deref(), Some("c"));
    assert_eq!(k.knots[0].notes[0].id_.as_deref(), Some("n"));
    assert_eq!(parent.clone(), parent);
    assert_eq!(created_knot(vec![]), Err(StoreError::NotFound("knot".into())));
}

#[test]
fn deletion_transactions() {
    let id = "x".to_string();
    let (plan, answer) = delete_note_statements(&id);
    assert_eq!(answer, 2);
    assert_eq!(
        texts(&plan),
        vec![
            "BEGIN",
            "DELETE FROM contain WHERE in = type::thing('note', $id)",
            "DELETE FROM note WHERE id = type::thing('note', $id)",
            "COMMIT",
        ]
    );
    assert_eq!(plan[1].bindings, vec![("id".to_string(), BindValue::Text("x".into()))]);

    let (plan, answer) = delete_knot_statements(&id, false);
    assert_eq!(answer, 2);
    assert_eq!(plan.len(), 4);
    assert_eq!(plan[2].text, "DELETE FROM knot WHERE id = type::thing('knot', $id)");

    let (plan, answer) = delete_knot_statements(&id, true);
    assert_eq!(answer, 7);
    assert_eq!(plan.len(), 9);
    assert_eq!(plan[1].bindings, vec![("id".to_string(), BindValue::Text("x".into()))]);
    assert_eq!(plan[7].text, "DELETE $knot_to_delete");
}
