//! Creating a knot: the editor's form, which decides when a knot may be
//! saved and what request it sends, and the server's check of that request.

use vstd::prelude::*;
use vstd::string::*;
use crate::graph::{opt_str, strs};
use crate::text::{blank, cat, is_blank};

verus! {

/// Why the server refuses to create a knot.
#[derive(Clone, Copy, Debug, PartialEq, Eq, Structural)]
pub enum CreateKnotError {
    /// Neither a note id nor a knot id was given.
    MissingIds,
    /// The label holds nothing but white space.
    EmptyLabel,
    /// The intent holds nothing but white space.
    EmptyIntent,
}

impl CreateKnotError {
    /// The message the server answers with.
    pub fn message(&self) -> (m: &'static str)
        ensures
            m@ == match self {
                CreateKnotError::MissingIds => "At least one knot ID or note ID must be provided"@,
                CreateKnotError::EmptyLabel => "Label cannot be empty"@,
                CreateKnotError::EmptyIntent => "Intent cannot be empty"@,
            },
    {
        match self {
            CreateKnotError::MissingIds => "At least one knot ID or note ID must be provided",
            CreateKnotError::EmptyLabel => "Label cannot be empty",
            CreateKnotError::EmptyIntent => "Intent cannot be empty",
        }
    }
}

/// The server's verdict on a request to create a knot: the ids are checked
/// first, then the label, then the intent.
pub open spec fn create_knot_verdict(
    label: Seq<char>,
    intent: Seq<char>,
    note_count: nat,
    knot_count: nat,
) -> Result<(), CreateKnotError> {
    if note_count == 0 && knot_count == 0 {
        Err(CreateKnotError::MissingIds)
    } else if blank(label) {
        Err(CreateKnotError::EmptyLabel)
    } else if blank(intent) {
        Err(CreateKnotError::EmptyIntent)
    } else {
        Ok(())
    }
}

/// Checks a request to create a knot before it reaches the database.
pub fn validate_create_knot(label: &str, intent: &str, note_ids: &[String], knot_ids: &[String]) -> (r: Result<
    (),
    CreateKnotError,
>)
    ensures
        r == create_knot_verdict(label@, intent@, note_ids@.len(), knot_ids@.len()),
{
    if knot_ids.len() == 0 && note_ids.len() == 0 {
        Err(CreateKnotError::MissingIds)
    } else if is_blank(label) {
        Err(CreateKnotError::EmptyLabel)
    } else if is_blank(intent) {
        Err(CreateKnotError::EmptyIntent)
    } else {
        Ok(())
    }
}

/// A request to create a knot.
#[derive(Clone, Debug, PartialEq)]
pub struct CreateKnotRequest {
    pub label: String,
    pub intent: String,
    pub note_ids: Vec<String>,
    pub knot_ids: Vec<String>,
}

/// The state of the knot editor.
#[derive(Clone, Debug, PartialEq)]
pub struct KnotForm {
    pub label: String,
    pub intent: String,
    /// One entry per id field, possibly blank.
    pub note_ids: Vec<String>,
    pub knot_ids: Vec<String>,
    pub is_saving: bool,
    pub error_message: Option<String>,
}

/// Some id among `ids` is not blank.
pub open spec fn any_filled(ids: Seq<Seq<char>>) -> bool {
    exists|i: int| 0 <= i < ids.len() && !blank(#[trigger] ids[i])
}

/// The ids of `ids` that are not blank, in order.
pub open spec fn filled(ids: Seq<Seq<char>>) -> Seq<Seq<char>>
    decreases ids.len(),
{
    if ids.len() == 0 {
        ids
    } else if blank(ids.last()) {
        filled(ids.drop_last())
    } else {
        filled(ids.drop_last()).push(ids.last())
    }
}

/// The form may be saved: label and intent are not blank and some note id
/// or knot id is filled in.
pub open spec fn form_valid(form: KnotForm) -> bool {
    &&& !blank(form.label@)
    &&& !blank(form.intent@)
    &&& (any_filled(strs(form.note_ids@)) || any_filled(strs(form.knot_ids@)))
}

fn any_filled_exec(ids: &Vec<String>) -> (b: bool)
    ensures
        b == any_filled(strs(ids@)),
{
    let n = ids.len();
    let mut i: usize = 0;
    while i < n
        invariant
            i <= n,
            n == ids@.len(),
            forall|j: int| 0 <= j < i ==> blank(#[trigger] strs(ids@)[j]),
        decreases n - i,
    {
        if !is_blank(ids[i].as_str()) {
            assert(!blank(strs(ids@)[i as int]));
            return true;
        }
        i = i + 1;
    }
    false
}

fn filled_exec(ids: &Vec<String>) -> (out: Vec<String>)
    ensures
        strs(out@) == filled(strs(ids@)),
{
    let ghost v = strs(ids@);
    let mut out: Vec<String> = Vec::new();
    let n = ids.len();
    let mut i: usize = 0;
    while i < n
        invariant
            i <= n,
            n == ids@.len(),
            v == strs(ids@),
            strs(out@) == filled(v.take(i as int)),
        decreases n - i,
    {
        assert(v.take(i + 1).drop_last() =~= v.take(i as int));
        assert(v.take(i + 1).last() == ids@[i as int]@);
        if !is_blank(ids[i].as_str()) {
            let ghost before = out@;
            out.push(ids[i].clone());
            assert(strs(out@) =~= strs(before).push(ids@[i as int]@));
        }
        i = i + 1;
    }
    assert(v.take(n as int) =~= v);
    out
}

/// Some filled-in id survives the filter.
proof fn lemma_filled_nonempty(ids: Seq<Seq<char>>)
    requires
        any_filled(ids),
    ensures
        filled(ids).len() > 0,
    decreases ids.len(),
{
    if !blank(ids.last()) {
    } else {
        let i = choose|i: int| 0 <= i < ids.len() && !blank(#[trigger] ids[i]);
        assert(ids.drop_last()[i] == ids[i]);
        lemma_filled_nonempty(ids.drop_last());
    }
}

impl KnotForm {
    /// An empty form: no label, no intent, no id fields, not saving, no error.
    pub fn new() -> (form: Self)
        ensures
            form.label@.len() == 0,
            form.intent@.len() == 0,
            form.note_ids@.len() == 0,
            form.knot_ids@.len() == 0,
            !form.is_saving,
            form.error_message is None,
    {
        KnotForm {
            label: String::new(),
            intent: String::new(),
            note_ids: Vec::new(),
            knot_ids: Vec::new(),
            is_saving: false,
            error_message: None,
        }
    }

    /// Whether the form may be saved.
    pub fn is_valid(&self) -> (b: bool)
        ensures
            b == form_valid(*self),
    {
        !is_blank(self.label.as_str()) && !is_blank(self.intent.as_str()) && (any_filled_exec(
            &self.note_ids,
        ) || any_filled_exec(&self.knot_ids))
    }

    /// Adds an empty note id field at the end.
    pub fn add_note_field(&mut self)
        ensures
            final(self).note_ids@.len() == old(self).note_ids@.len() + 1,
            final(self).note_ids@.drop_last() == old(self).note_ids@,
            final(self).note_ids@.last()@.len() == 0,
            final(self).knot_ids == old(self).knot_ids,
            final(self).label == old(self).label,
            final(self).intent == old(self).intent,
            final(self).is_saving == old(self).is_saving,
            final(self).error_message == old(self).error_message,
    {
        self.note_ids.push(String::new());
        assert(self.note_ids@.drop_last() =~= old(self).note_ids@);
    }

    /// Adds an empty knot id field at the end.
    pub fn add_knot_field(&mut self)
        ensures
            final(self).knot_ids@.len() == old(self).knot_ids@.len() + 1,
            final(self).knot_ids@.drop_last() == old(self).knot_ids@,
            final(self).knot_ids@.last()@.len() == 0,
            final(self).note_ids == old(self).note_ids,
            final(self).label == old(self).label,
            final(self).intent == old(self).intent,
            final(self).is_saving == old(self).is_saving,
            final(self).error_message == old(self).error_message,
    {
        self.knot_ids.push(String::new());
        assert(self.knot_ids@.drop_last() =~= old(self).knot_ids@);
    }

    /// Replaces the note id in field `index`, if there is such a field.
    pub fn update_note_id(&mut self, index: usize, value: String)
        ensures
            final(self).note_ids@ == if index < old(self).note_ids@.len() {
                old(self).note_ids@.update(index as int, value)
            } else {
                old(self).note_ids@
            },
            final(self).knot_ids == old(self).knot_ids,
            final(self).label == old(self).label,
            final(self).intent == old(self).intent,
            final(self).is_saving == old(self).is_saving,
            final(self).error_message == old(self).error_message,
    {
        if index < self.note_ids.len() {
            self.note_ids.set(index, value);
        }
    }

    /// Replaces the knot id in field `index`, if there is such a field.
    pub fn update_knot_id(&mut self, index: usize, value: String)
        ensures
            final(self).knot_ids@ == if index < old(self).knot_ids@.len() {
                old(self).knot_ids@.update(index as int, value)
            } else {
                old(self).knot_ids@
            },
            final(self).note_ids == old(self).note_ids,
            final(self).label == old(self).label,
            final(self).intent == old(self).intent,
            final(self).is_saving == old(self).is_saving,
            final(self).error_message == old(self).error_message,
    {
        if index < self.knot_ids.len() {
            self.knot_ids.set(index, value);
        }
    }

    /// Removes note id field `index`, if there is such a field.
    pub fn remove_note_field(&mut self, index: usize)
        ensures
            final(self).note_ids@ == if index < old(self).note_ids@.len() {
                old(self).note_ids@.remove(index as int)
            } else {
                old(self).note_ids@
            },
            final(self).knot_ids == old(self).knot_ids,
            final(self).label == old(self).label,
            final(self).intent == old(self).intent,
            final(self).is_saving == old(self).is_saving,
            final(self).error_message == old(self).error_message,
    {
        if index < self.note_ids.len() {
            self.note_ids.remove(index);
        }
    }

    /// Removes knot id field `index`, if there is such a field.
    pub fn remove_knot_field(&mut self, index: usize)
        ensures
            final(self).knot_ids@ == if index < old(self).knot_ids@.len() {
                old(self).knot_ids@.remove(index as int)
            } else {
                old(self).knot_ids@
            },
            final(self).note_ids == old(self).note_ids,
            final(self).label == old(self).label,
            final(self).intent == old(self).intent,
            final(self).is_saving == old(self).is_saving,
            final(self).error_message == old(self).error_message,
    {
        if index < self.knot_ids.len() {
            self.knot_ids.remove(index);
        }
    }

    /// Saving: nothing happens unless the form is valid; otherwise the form
    /// turns to saving, its error is cleared, and the request carries the
    /// label, the intent and the filled-in ids, in order.
    pub fn begin_save(&mut self) -> (request: Option<CreateKnotRequest>)
        ensures
            !form_valid(*old(self)) ==> request is None && *final(self) == *old(self),
            form_valid(*old(self)) ==> {
                &&& request matches Some(r) && {
                    &&& r.label == old(self).label
                    &&& r.intent == old(self).intent
                    &&& strs(r.note_ids@) == filled(strs(old(self).note_ids@))
                    &&& strs(r.knot_ids@) == filled(strs(old(self).knot_ids@))
                }
                &&& final(self).is_saving
                &&& final(self).error_message is None
                &&& final(self).label == old(self).label
                &&& final(self).intent == old(self).intent
                &&& final(self).note_ids == old(self).note_ids
                &&& final(self).knot_ids == old(self).knot_ids
            },
    {
        if !self.is_valid() {
            return None;
        }
        self.is_saving = true;
        self.error_message = None;
        Some(
            CreateKnotRequest {
                label: self.label.clone(),
                intent: self.intent.clone(),
                note_ids: filled_exec(&self.note_ids),
                knot_ids: filled_exec(&self.knot_ids),
            },
        )
    }

    /// The server's answer: on failure the error reads `Failed to create
    /// knot: {error}`; either way the form stops saving.
    pub fn finish_save(&mut self, error: Option<&str>)
        ensures
            !final(self).is_saving,
            match error {
                Some(e) => opt_str(final(self).error_message) == Some("Failed to create knot: "@ + e@),
                None => final(self).error_message == old(self).error_message,
            },
            final(self).label == old(self).label,
            final(self).intent == old(self).intent,
            final(self).note_ids == old(self).note_ids,
            final(self).knot_ids == old(self).knot_ids,
    {
        match error {
            Some(e) => {
                self.error_message = Some(cat("Failed to create knot: ", e));
            },
            None => {},
        }
        self.is_saving = false;
    }
}

/// A request the editor sends is never refused by the server's check: a
/// valid form yields a label and an intent that are not blank, and at least
/// one filled-in id.
pub proof fn lemma_saved_request_accepted(form: KnotForm, note_ids: Seq<Seq<char>>, knot_ids: Seq<Seq<char>>)
    requires
        form_valid(form),
        note_ids == filled(strs(form.note_ids@)),
        knot_ids == filled(strs(form.knot_ids@)),
    ensures
        create_knot_verdict(form.label@, form.intent@, note_ids.len(), knot_ids.len()) == Ok::<(), CreateKnotError>(()),
{
    if any_filled(strs(form.note_ids@)) {
        lemma_filled_nonempty(strs(form.note_ids@));
    } else {
        lemma_filled_nonempty(strs(form.knot_ids@));
    }
}

} // verus!
