use neuramancy::knot_form::{validate_create_knot, CreateKnotError, KnotForm};
use neuramancy::text::is_blank;

#[test]
fn blank_text() {
    assert!(is_blank(""));
    assert!(is_blank("  \t\n"));
    assert!(is_blank("\u{3000}\u{a0}"));
    assert!(!is_blank(" a "));
    assert!(!is_blank("\u{200b}"));
}

#[test]
fn validation_order_and_messages() {
    let ids = vec!["note:1".to_string()];
    let none: Vec<String> = vec![];
    assert_eq!(validate_create_knot("l", "i", &none, &none), Err(CreateKnotError::MissingIds));
    assert_eq!(validate_create_knot(" ", " ", &none, &none), Err(CreateKnotError::MissingIds));
    assert_eq!(validate_create_knot("  ", "i", &ids, &none), Err(CreateKnotError::EmptyLabel));
    assert_eq!(validate_create_knot("l", "\u{3000}", &none, &ids), Err(CreateKnotError::EmptyIntent));
    assert_eq!(validate_create_knot("l", "i", &ids, &none), Ok(()));
    assert_eq!(CreateKnotError::MissingIds.message(), "At least one knot ID or note ID must be provided");
    assert_eq!(CreateKnotError::EmptyLabel.message(), "Label cannot be empty");
    assert_eq!(CreateKnotError::EmptyIntent.message(), "Intent cannot be empty");
}

#[test]
fn form_fields_edit() {
    let mut form = KnotForm::new();
    form.add_note_field();
    form.add_note_field();
    form.add_knot_field();
    form.update_note_id(1, "note:b".into());
    form.update_note_id(5, "ignored".into());
    assert_eq!(form.note_ids, vec!["".to_string(), "note:b".to_string()]);
    form.remove_note_field(0);
    form.remove_note_field(9);
    assert_eq!(form.note_ids, vec!["note:b".to_string()]);
    form.update_knot_id(0, "knot:z".into());
    form.remove_knot_field(0);
    assert!(form.knot_ids.is_empty());
}

#[test]
fn form_validity() {
    let mut form = KnotForm::new();
    assert!(!form.is_valid());
    form.label = "label".into();
    form.intent = "intent".into();
    form.add_note_field();
    assert!(!form.is_valid());
    form.update_note_id(0, "   ".into());
    assert!(!form.is_valid());
    form.add_knot_field();
    form.update_knot_id(0, "knot:1".into());
    assert!(form.is_valid());
    form.label = " ".into();
    assert!(!form.is_valid());
}

#[test]
fn save_sends_filled_ids_and_passes_validation() {
    let mut form = KnotForm::new();
    form.label = "label".into();
    form.intent = "intent".into();
    for id in ["", "note:1", " ", "note:2"] {
        form.add_note_field();
        let last = form.note_ids.len() - 1;
        form.update_note_id(last, id.into());
    }
    form.error_message = Some("old".into());
    let request = form.begin_save().expect("valid form");
    assert!(form.is_saving);
    assert_eq!(form.error_message, None);
    assert_eq!(request.note_ids, vec!["note:1".to_string(), "note:2".to_string()]);
    assert!(request.knot_ids.is_empty());
    assert_eq!(
        validate_create_knot(&request.label, &request.intent, &request.note_ids, &request.knot_ids),
        Ok(())
    );
    form.finish_save(Some("server down"));
    assert!(!form.is_saving);
    assert_eq!(form.error_message.as_deref(), Some("Failed to create knot: server down"));
}

#[test]
fn save_of_invalid_form_does_nothing() {
    let mut form = KnotForm::new();
    form.label = "label".into();
    let before = form.clone();
    assert!(form.begin_save().is_none());
    assert_eq!(form, before);
}

#[test]
fn field_editors_leave_saving_state_and_error() {
    let mut form = KnotForm::new();
    form.is_saving = true;
    form.error_message = Some("earlier".into());
    form.add_note_field();
    form.add_knot_field();
    form.update_note_id(0, "note:1".into());
    form.update_knot_id(0, "knot:1".into());
    form.remove_note_field(0);
    form.remove_knot_field(0);
    assert!(form.is_saving);
    assert_eq!(form.error_message.as_deref(), Some("earlier"));
    assert!(form.note_ids.is_empty());
    assert!(form.knot_ids.is_empty());
}
