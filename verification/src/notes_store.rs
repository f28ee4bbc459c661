//! The local cache of notes the UI renders, and how each optimistic
//! operation changes it: a pending note appears at once when a note is
//! created, a note disappears at once when it is deleted, and the server's
//! answer later confirms, hydrates or rolls back the change.

use vstd::prelude::*;
use vstd::string::*;
use crate::cache::{CachedItem, lemma_commit_undoes_insert, lemma_pending_only_exact, lemma_reinsert_restores, lemma_rollback_undoes_insert, is_first_with_id, pending_only, remove_first_pending, remove_first_with_id, remove_with_key, take_pending, without_first_pending, without_key};
use crate::decimal::{decimal, lemma_decimal_injective};
use crate::graph::opt_str;
use crate::schema::Note;
use crate::text::{cat, cat3, copy_opt, with_decimal};

verus! {

/// A unique identifier for an optimistic operation.
pub type OpId = u64;

/// Where a cached note stands with respect to the server.
#[derive(Clone, Debug, PartialEq)]
pub enum NoteStatus {
    Saved,
    PendingCreate { op_id: OpId, temp_key: String },
    Error { message: String },
}

/// What the UI shows of a note.
#[derive(Clone, Debug, PartialEq)]
pub struct NoteVm {
    /// Server-authored note id, when known.
    pub id: Option<String>,
    /// A stable key for rendering, also while the id is not known.
    pub local_key: String,
    pub snippet_count: usize,
    pub status: NoteStatus,
    /// The last operation that changed this note.
    pub last_op: Option<OpId>,
}

impl CachedItem for NoteVm {
    open spec fn key_view(&self) -> Seq<char> {
        self.local_key@
    }

    open spec fn id_view(&self) -> Option<Seq<char>> {
        opt_str(self.id)
    }

    open spec fn pending_op(&self) -> Option<u64> {
        match self.status {
            NoteStatus::PendingCreate { op_id, .. } => Some(op_id),
            _ => None,
        }
    }

    fn has_key(&self, key: &String) -> (b: bool) {
        self.local_key == *key
    }

    fn has_id(&self, id: &String) -> (b: bool) {
        match &self.id {
            Some(s) => *s == *id,
            None => false,
        }
    }

    fn is_pending_for(&self, op_id: u64) -> (b: bool) {
        match &self.status {
            NoteStatus::PendingCreate { op_id: op, .. } => *op == op_id,
            _ => false,
        }
    }

    fn is_pending(&self) -> (b: bool) {
        match &self.status {
            NoteStatus::PendingCreate { .. } => true,
            _ => false,
        }
    }
}

/// The notes cache.
#[derive(Clone, Debug, PartialEq)]
pub struct NotesState {
    /// The notes rendered by the UI, in order.
    pub items: Vec<NoteVm>,
    /// The last error worth showing, if any.
    pub last_error: Option<String>,
}

impl Default for NotesState {
    fn default() -> (s: Self)
        ensures
            s.items@.len() == 0,
            s.last_error is None,
    {
        NotesState { items: Vec::new(), last_error: None }
    }
}

/// What rolling back a creation needs: the temporary key of the pending note.
#[derive(Clone, Debug)]
pub struct CreateUndo {
    pub temp_key: String,
}

/// What rolling back a deletion needs: the operation, and the note it took
/// away with the position it held.
#[derive(Clone, Debug)]
pub struct DeleteUndo {
    pub op_id: OpId,
    pub removed: Option<(usize, NoteVm)>,
}

/// The temporary key of the note that operation `op` creates: `temp:{op}`.
pub open spec fn temp_key(op: u64) -> Seq<char> {
    "temp:"@ + decimal(op as nat)
}

/// The render key of a note known by `id` (or a temporary key): `note:{id}`.
pub open spec fn note_key(id: Seq<char>) -> Seq<char> {
    "note:"@ + id
}

/// `vm` is the pending note that operation `op` inserts.
pub open spec fn is_pending_note(vm: NoteVm, op: u64) -> bool {
    &&& vm.id is None
    &&& vm.local_key@ == note_key(temp_key(op))
    &&& vm.snippet_count == 0
    &&& vm.status matches NoteStatus::PendingCreate { op_id, temp_key: t } && op_id == op && t@ == temp_key(op)
    &&& vm.last_op == Some(op)
}

/// `vm` is the cached form of the server note `note`.
pub open spec fn is_saved_note(vm: NoteVm, note: Note) -> bool {
    &&& opt_str(vm.id) == opt_str(note.id_)
    &&& vm.local_key@ == match note.id_ {
        Some(id) => note_key(id@),
        None => "note:unknown"@,
    }
    &&& vm.snippet_count == note.snippets@.len()
    &&& vm.status == NoteStatus::Saved
    &&& vm.last_op is None
}

/// `new` is `old` marked as having failed to delete with `error`, by operation `op`.
pub open spec fn is_failed_delete(old: NoteVm, new: NoteVm, op: u64, error: Seq<char>) -> bool {
    &&& new.id == old.id
    &&& new.local_key == old.local_key
    &&& new.snippet_count == old.snippet_count
    &&& new.status matches NoteStatus::Error { message } && message@ == "Delete failed: "@ + error
    &&& new.last_op == Some(op)
}

/// Position `i` clamped to a list of length `len`.
pub open spec fn clamp(i: int, len: int) -> int {
    if i < len {
        i
    } else {
        len
    }
}

impl NotesState {
    /// Optimistic part of creating a note: a pending note with key
    /// `note:temp:{op_id}` goes in front of the list and the error is cleared.
    pub fn begin_create(&mut self, op_id: OpId) -> (undo: CreateUndo)
        ensures
            final(self).items@.len() == old(self).items@.len() + 1,
            is_pending_note(final(self).items@[0], op_id),
            final(self).items@ == seq![final(self).items@[0]] + old(self).items@,
            final(self).last_error is None,
            undo.temp_key@ == temp_key(op_id),
    {
        let temp = with_decimal("temp:", op_id);
        let vm = NoteVm {
            id: None,
            local_key: cat("note:", temp.as_str()),
            snippet_count: 0,
            status: NoteStatus::PendingCreate { op_id, temp_key: temp.clone() },
            last_op: Some(op_id),
        };
        self.items.insert(0, vm);
        self.last_error = None;
        assert(self.items@ =~= seq![self.items@[0]] + old(self).items@);
        CreateUndo { temp_key: temp }
    }

    /// Confirmation of a creation: the first note pending for `op_id` leaves
    /// the list (the caller then refreshes from the server).
    pub fn commit_create(&mut self, op_id: OpId)
        ensures
            final(self).items@ == without_first_pending(old(self).items@, op_id),
            final(self).last_error == old(self).last_error,
    {
        remove_first_pending(&mut self.items, op_id);
    }

    /// Rollback of a creation: every note keyed `note:{temp_key}` leaves the
    /// list and the error reads `Failed to create note (op={op_id}): {error}`.
    pub fn rollback_create(&mut self, op_id: OpId, undo: CreateUndo, error: &str)
        ensures
            final(self).items@ == without_key(old(self).items@, note_key(undo.temp_key@)),
            opt_str(final(self).last_error) == Some(
                "Failed to create note (op="@ + decimal(op_id as nat) + "): "@ + error@,
            ),
    {
        let key = cat("note:", undo.temp_key.as_str());
        remove_with_key(&mut self.items, &key);
        let head = with_decimal("Failed to create note (op=", op_id);
        let msg = cat3(head.as_str(), "): ", error);
        self.last_error = Some(msg);
    }

    /// Optimistic part of deleting the note with server id `id`: the first
    /// such note leaves the list and the error is cleared; the undo keeps
    /// the note and its position.
    pub fn begin_delete(&mut self, op_id: OpId, id: &String) -> (undo: DeleteUndo)
        ensures
            undo.op_id == op_id,
            match undo.removed {
                Some((i, vm)) => {
                    &&& is_first_with_id(old(self).items@, id@, i as int)
                    &&& vm == old(self).items@[i as int]
                    &&& final(self).items@ == old(self).items@.remove(i as int)
                },
                None => {
                    &&& forall|j: int|
                        0 <= j < old(self).items@.len() ==> #[trigger] old(self).items@[j].id_view() != Some(id@)
                    &&& final(self).items@ == old(self).items@
                },
            },
            final(self).last_error is None,
    {
        let removed = remove_first_with_id(&mut self.items, id);
        self.last_error = None;
        DeleteUndo { op_id, removed }
    }

    /// Rollback of a deletion: the removed note comes back at its position
    /// (or at the end, if the list got shorter), marked `Delete failed:
    /// {error}` and as last changed by the deleting operation; the error
    /// reads `Failed to delete note: {error}`.
    pub fn rollback_delete(&mut self, undo: DeleteUndo, error: &str)
        ensures
            match undo.removed {
                Some((i, vm)) => {
                    let c = clamp(i as int, old(self).items@.len() as int);
                    &&& final(self).items@.len() == old(self).items@.len() + 1
                    &&& is_failed_delete(vm, final(self).items@[c], undo.op_id, error@)
                    &&& final(self).items@ == old(self).items@.insert(c, final(self).items@[c])
                },
                None => final(self).items@ == old(self).items@,
            },
            opt_str(final(self).last_error) == Some("Failed to delete note: "@ + error@),
    {
        match undo.removed {
            Some((index, vm)) => {
                let failed = NoteVm {
                    id: vm.id,
                    local_key: vm.local_key,
                    snippet_count: vm.snippet_count,
                    status: NoteStatus::Error { message: cat("Delete failed: ", error) },
                    last_op: Some(undo.op_id),
                };
                let len = self.items.len();
                let at = if index < len {
                    index
                } else {
                    len
                };
                self.items.insert(at, failed);
            },
            None => {},
        }
        self.last_error = Some(cat("Failed to delete note: ", error));
    }

    /// Hydration from the server: the server's notes, in order, followed by
    /// the notes still pending creation, in order; the error is cleared.
    pub fn apply_refresh(&mut self, server_notes: Vec<Note>)
        ensures
            final(self).items@.len() == server_notes@.len() + pending_only(old(self).items@).len(),
            forall|k: int|
                0 <= k < server_notes@.len() ==> #[trigger] is_saved_note(final(self).items@[k], server_notes@[k]),
            final(self).items@.subrange(server_notes@.len() as int, final(self).items@.len() as int)
                == pending_only(old(self).items@),
            final(self).last_error is None,
    {
        let mut pending = take_pending(&mut self.items);
        let mut vms: Vec<NoteVm> = Vec::new();
        let n = server_notes.len();
        let mut k: usize = 0;
        while k < n
            invariant
                k <= n,
                n == server_notes@.len(),
                vms@.len() == k,
                forall|j: int| 0 <= j < k ==> #[trigger] is_saved_note(vms@[j], server_notes@[j]),
            decreases n - k,
        {
            let note = &server_notes[k];
            let local_key = match &note.id_ {
                Some(id) => cat("note:", id.as_str()),
                None => String::from_str("note:unknown"),
            };
            vms.push(
                NoteVm {
                    id: copy_opt(&note.id_),
                    local_key,
                    snippet_count: note.snippets.len(),
                    status: NoteStatus::Saved,
                    last_op: None,
                },
            );
            k = k + 1;
        }
        let ghost p = pending@;
        vms.append(&mut pending);
        assert(vms@.subrange(n as int, vms@.len() as int) =~= p);
        self.items = vms;
        self.last_error = None;
    }

    /// A failed refresh leaves the notes as they are; the error reads
    /// `Failed to refresh notes: {error}`.
    pub fn refresh_failed(&mut self, error: &str)
        ensures
            final(self).items == old(self).items,
            opt_str(final(self).last_error) == Some("Failed to refresh notes: "@ + error@),
    {
        self.last_error = Some(cat("Failed to refresh notes: ", error));
    }
}

/// Confirming a creation takes away exactly the pending note its optimistic
/// step put in front, whatever else the list holds.
pub proof fn lemma_create_then_commit(items: Seq<NoteVm>, pending: NoteVm, op: OpId)
    requires
        is_pending_note(pending, op),
    ensures
        without_first_pending(seq![pending] + items, op) == items,
{
    lemma_commit_undoes_insert(items, pending, op);
}

/// Rolling back a creation takes away exactly the pending note its
/// optimistic step put in front, as long as no other note has its key.
pub proof fn lemma_create_then_rollback(items: Seq<NoteVm>, pending: NoteVm, op: OpId)
    requires
        is_pending_note(pending, op),
        forall|j: int| 0 <= j < items.len() ==> #[trigger] items[j].local_key@ != note_key(temp_key(op)),
    ensures
        without_key(seq![pending] + items, note_key(temp_key(op))) == items,
{
    lemma_rollback_undoes_insert(items, pending);
}

/// Rolling back a deletion puts the note back where it was: the list is the
/// one before the deletion, with that note replaced by its failed form.
pub proof fn lemma_delete_then_rollback(items: Seq<NoteVm>, i: int, failed: NoteVm)
    requires
        0 <= i < items.len(),
    ensures
        items.remove(i).insert(clamp(i, items.len() - 1), failed) == items.update(i, failed),
{
    lemma_reinsert_restores(items, i, failed);
}

/// Two operations never share a pending key, so rolling one back never
/// takes away the other's pending note.
pub proof fn lemma_pending_keys_distinct(a: OpId, b: OpId)
    requires
        a != b,
    ensures
        note_key(temp_key(a)) != note_key(temp_key(b)),
{
    if note_key(temp_key(a)) == note_key(temp_key(b)) {
        let p = "note:"@ + "temp:"@;
        assert(note_key(temp_key(a)) =~= p + decimal(a as nat));
        assert(note_key(temp_key(b)) =~= p + decimal(b as nat));
        assert(decimal(a as nat) =~= note_key(temp_key(a)).subrange(p.len() as int, note_key(temp_key(a)).len() as int));
        assert(decimal(b as nat) =~= note_key(temp_key(b)).subrange(p.len() as int, note_key(temp_key(b)).len() as int));
        lemma_decimal_injective(a as nat, b as nat);
    }
}

/// A refresh keeps every note that is pending creation, and only those,
/// after the server's notes.
pub proof fn lemma_refresh_keeps_pending(items: Seq<NoteVm>, vm: NoteVm)
    ensures
        pending_only(items).contains(vm) <==> items.contains(vm) && vm.pending_op() is Some,
{
    lemma_pending_only_exact(items, vm);
}

} // verus!
