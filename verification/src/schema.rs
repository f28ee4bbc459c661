//! Notes, snippets and knots as records of the database, and the
//! bookkeeping that copies each record's key into its `id_` field.
//!
//! Embeddings are held as the IEEE-754 bit patterns of their `f32` values,
//! and a record id as its table and its key already rendered as text.

use vstd::prelude::*;
use crate::graph::opt_str;

verus! {

/// A record id: the table and the key, rendered as the database renders it.
#[derive(Clone, Debug, PartialEq)]
pub struct RecordId {
    pub table: String,
    pub key: String,
}

/// An audio snippet stored at `path`.
#[derive(Clone, Debug, PartialEq)]
pub struct AudioSnippet {
    pub path: String,
    pub embedding: Vec<u32>,
}

/// An image snippet stored at `path`.
#[derive(Clone, Debug, PartialEq)]
pub struct ImageSnippet {
    pub path: String,
    pub embedding: Vec<u32>,
}

/// A text snippet.
#[derive(Clone, Debug, PartialEq)]
pub struct TextSnippet {
    pub content: String,
    pub embedding: Vec<u32>,
}

/// A video snippet stored at `path`.
#[derive(Clone, Debug, PartialEq)]
pub struct VideoSnippet {
    pub path: String,
    pub embedding: Vec<u32>,
}

/// The content of a snippet.
#[derive(Clone, Debug, PartialEq)]
pub enum SnippetData {
    AudioSnippet(AudioSnippet),
    ImageSnippet(ImageSnippet),
    TextSnippet(TextSnippet),
    VideoSnippet(VideoSnippet),
}

impl SnippetData {
    /// The embedding of this snippet (as `f32` bit patterns); empty when
    /// none has been computed.
    pub fn embedding(&self) -> (e: &[u32])
        ensures
            e@ == match self {
                SnippetData::AudioSnippet(s) => s.embedding@,
                SnippetData::ImageSnippet(s) => s.embedding@,
                SnippetData::TextSnippet(s) => s.embedding@,
                SnippetData::VideoSnippet(s) => s.embedding@,
            },
    {
        match self {
            SnippetData::AudioSnippet(s) => s.embedding.as_slice(),
            SnippetData::ImageSnippet(s) => s.embedding.as_slice(),
            SnippetData::TextSnippet(s) => s.embedding.as_slice(),
            SnippetData::VideoSnippet(s) => s.embedding.as_slice(),
        }
    }
}

/// A snippet record.
#[derive(Clone, Debug, PartialEq)]
pub struct Snippet {
    pub id: RecordId,
    pub id_: Option<String>,
    pub data: SnippetData,
}

/// A note record and its snippets.
#[derive(Clone, Debug, PartialEq)]
pub struct Note {
    pub id: RecordId,
    pub id_: Option<String>,
    pub snippets: Vec<Snippet>,
}

/// A knot record: the notes and the knots that converge into it.
#[derive(Debug, PartialEq)]
pub struct Knot {
    pub id: RecordId,
    pub id_: Option<String>,
    pub label: String,
    pub intent: String,
    pub notes: Vec<Note>,
    pub knots: Vec<Knot>,
}

/// A copy of a knot and of the knots nested in it.
fn copy_knot(k: &Knot) -> (c: Knot)
    decreases k,
{
    let mut knots: Vec<Knot> = Vec::new();
    let n = k.knots.len();
    let mut i: usize = 0;
    while i < n
        invariant
            i <= n,
            n == k.knots@.len(),
        decreases n - i,
    {
        assert(decreases_to!(k => k.knots@[i as int]));
        knots.push(copy_knot(&k.knots[i]));
        i = i + 1;
    }
    Knot {
        id: k.id.clone(),
        id_: k.id_.clone(),
        label: k.label.clone(),
        intent: k.intent.clone(),
        notes: k.notes.clone(),
        knots,
    }
}

impl Clone for Knot {
    fn clone(&self) -> Self {
        copy_knot(self)
    }
}

/// A record that can copy the key of its id into its `id_` field, and into
/// those of the records nested in it.
pub trait SurrealRecord {
    fn put_id(&mut self);
}

/// `new` is `old` with its key copied into `id_`.
pub open spec fn snippet_put(old: Snippet, new: Snippet) -> bool {
    &&& new.id == old.id
    &&& opt_str(new.id_) == Some(old.id.key@)
    &&& new.data == old.data
}

/// `new` is `old` with its key, and those of its snippets, copied into `id_`.
pub open spec fn note_put(old: Note, new: Note) -> bool {
    &&& new.id == old.id
    &&& opt_str(new.id_) == Some(old.id.key@)
    &&& new.snippets@.len() == old.snippets@.len()
    &&& forall|i: int|
        0 <= i < old.snippets@.len() ==> #[trigger] snippet_put(old.snippets@[i], new.snippets@[i])
}

/// `new` is `old` with its key, and those of every note and knot nested in
/// it, copied into `id_`.
pub open spec fn knot_put(old: Knot, new: Knot) -> bool
    decreases old, 0nat,
{
    &&& new.id == old.id
    &&& opt_str(new.id_) == Some(old.id.key@)
    &&& new.label == old.label
    &&& new.intent == old.intent
    &&& new.notes@.len() == old.notes@.len()
    &&& forall|i: int| 0 <= i < old.notes@.len() ==> #[trigger] note_put(old.notes@[i], new.notes@[i])
    &&& new.knots@.len() == old.knots@.len()
    &&& knots_put(old.knots@, new.knots@, old.knots@.len())
}

/// The first `n` knots of `news` are those of `olds` with their ids put.
pub open spec fn knots_put(olds: Seq<Knot>, news: Seq<Knot>, n: nat) -> bool
    decreases olds, n,
{
    if n == 0 {
        true
    } else {
        &&& n <= olds.len()
        &&& knots_put(olds, news, (n - 1) as nat)
        &&& knot_put(olds[n - 1], news[n - 1])
    }
}

proof fn lemma_knots_put_frame(olds: Seq<Knot>, news: Seq<Knot>, other: Seq<Knot>, n: nat)
    requires
        knots_put(olds, news, n),
        n <= news.len(),
        n <= other.len(),
        forall|j: int| 0 <= j < n ==> news[j] == other[j],
    ensures
        knots_put(olds, other, n),
    decreases n,
{
    if n > 0 {
        lemma_knots_put_frame(olds, news, other, (n - 1) as nat);
    }
}

impl SurrealRecord for Snippet {
    fn put_id(&mut self)
        ensures
            snippet_put(*old(self), *final(self)),
    {
        self.id_ = Some(self.id.key.clone());
    }
}

impl SurrealRecord for Note {
    fn put_id(&mut self)
        ensures
            note_put(*old(self), *final(self)),
    {
        self.id_ = Some(self.id.key.clone());
        let n = self.snippets.len();
        let mut i: usize = 0;
        while i < n
            invariant
                i <= n,
                n == old(self).snippets@.len(),
                self.id == old(self).id,
                opt_str(self.id_) == Some(old(self).id.key@),
                self.snippets@.len() == n,
                forall|j: int| 0 <= j < i ==> #[trigger] snippet_put(old(self).snippets@[j], self.snippets@[j]),
                forall|j: int| i <= j < n ==> #[trigger] self.snippets@[j] == old(self).snippets@[j],
            decreases n - i,
        {
            self.snippets[i].put_id();
            i = i + 1;
        }
    }
}

impl SurrealRecord for Knot {
    fn put_id(&mut self)
        ensures
            knot_put(*old(self), *final(self)),
        decreases *old(self),
    {
        self.id_ = Some(self.id.key.clone());
        let n = self.notes.len();
        let mut i: usize = 0;
        while i < n
            invariant
                i <= n,
                n == old(self).notes@.len(),
                self.id == old(self).id,
                self.label == old(self).label,
                self.intent == old(self).intent,
                self.knots == old(self).knots,
                opt_str(self.id_) == Some(old(self).id.key@),
                self.notes@.len() == n,
                forall|j: int| 0 <= j < i ==> #[trigger] note_put(old(self).notes@[j], self.notes@[j]),
                forall|j: int| i <= j < n ==> #[trigger] self.notes@[j] == old(self).notes@[j],
            decreases n - i,
        {
            self.notes[i].put_id();
            i = i + 1;
        }
        let m = self.knots.len();
        let mut k: usize = 0;
        while k < m
            invariant
                k <= m,
                m == old(self).knots@.len(),
                self.id == old(self).id,
                self.label == old(self).label,
                self.intent == old(self).intent,
                opt_str(self.id_) == Some(old(self).id.key@),
                self.notes@.len() == old(self).notes@.len(),
                forall|j: int|
                    0 <= j < old(self).notes@.len() ==> #[trigger] note_put(old(self).notes@[j], self.notes@[j]),
                self.knots@.len() == m,
                knots_put(old(self).knots@, self.knots@, k as nat),
                forall|j: int| k <= j < m ==> #[trigger] self.knots@[j] == old(self).knots@[j],
            decreases m - k,
        {
            assert(decreases_to!(*old(self) => old(self).knots@[k as int]));
            let ghost before = self.knots@;
            self.knots[k].put_id();
            proof {
                lemma_knots_put_frame(old(self).knots@, before, self.knots@, k as nat);
            }
            k = k + 1;
        }
    }
}

/// The note and each of its snippets carry their keys in `id_`.
pub open spec fn note_ids_present(note: Note) -> bool {
    &&& opt_str(note.id_) == Some(note.id.key@)
    &&& forall|i: int|
        0 <= i < note.snippets@.len() ==> #[trigger] opt_str(note.snippets@[i].id_) == Some(
            note.snippets@[i].id.key@,
        )
}

/// The knot and every note and knot nested in it carry their keys in `id_`.
pub open spec fn knot_ids_present(knot: Knot) -> bool
    decreases knot, 0nat,
{
    &&& opt_str(knot.id_) == Some(knot.id.key@)
    &&& forall|i: int| 0 <= i < knot.notes@.len() ==> #[trigger] note_ids_present(knot.notes@[i])
    &&& knots_ids_present(knot.knots@, knot.knots@.len())
}

/// The first `n` knots of `knots` carry their keys, all the way down.
pub open spec fn knots_ids_present(knots: Seq<Knot>, n: nat) -> bool
    decreases knots, n,
{
    if n == 0 {
        true
    } else {
        &&& n <= knots.len()
        &&& knots_ids_present(knots, (n - 1) as nat)
        &&& knot_ids_present(knots[n - 1])
    }
}

/// After `put_id`, the knot and everything nested in it carry their keys.
pub proof fn lemma_put_id_complete(old: Knot, new: Knot)
    requires
        knot_put(old, new),
    ensures
        knot_ids_present(new),
    decreases old, 0nat,
{
    assert forall|i: int| 0 <= i < new.notes@.len() implies #[trigger] note_ids_present(new.notes@[i]) by {
        let on = old.notes@[i];
        let nn = new.notes@[i];
        assert(note_put(on, nn));
        assert forall|j: int| 0 <= j < nn.snippets@.len() implies #[trigger] opt_str(nn.snippets@[j].id_) == Some(
            nn.snippets@[j].id.key@,
        ) by {
            assert(snippet_put(on.snippets@[j], nn.snippets@[j]));
        }
    }
    lemma_knots_put_complete(old.knots@, new.knots@, old.knots@.len());
}

proof fn lemma_knots_put_complete(olds: Seq<Knot>, news: Seq<Knot>, n: nat)
    requires
        knots_put(olds, news, n),
        olds.len() == news.len(),
    ensures
        knots_ids_present(news, n),
    decreases olds, n,
{
    if n > 0 {
        lemma_knots_put_complete(olds, news, (n - 1) as nat);
        lemma_put_id_complete(olds[n - 1], news[n - 1]);
    }
}

} // verus!
