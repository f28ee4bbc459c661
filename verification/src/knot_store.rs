//! The local cache of knots the UI renders, and how each optimistic
//! operation changes it: a pending knot appears at once when a knot is
//! created, a knot disappears at once when it is deleted, and the server's
//! answer later confirms (with the created knot), hydrates or rolls back the
//! change.

use vstd::prelude::*;
use vstd::string::*;
use crate::cache::{CachedItem, is_first_with_id, lemma_commit_undoes_insert, lemma_pending_only_exact, lemma_reinsert_restores, lemma_rollback_undoes_insert, pending_only, remove_first_pending, remove_first_with_id, remove_with_key, take_pending, without_first_pending, without_key};
use crate::decimal::{decimal, lemma_decimal_injective};
use crate::graph::opt_str;
use crate::notes_store::{OpId, clamp, temp_key};
use crate::schema::Knot;
use crate::text::{cat, cat3, copy_opt, with_decimal};

verus! {

/// Where a cached knot stands with respect to the server.
#[derive(Clone, Debug, PartialEq)]
pub enum KnotStatus {
    Saved,
    PendingCreate { op_id: OpId, temp_key: String },
    Error { message: String },
}

/// What the UI shows of a knot.
#[derive(Clone, Debug, PartialEq)]
pub struct KnotVm {
    /// Server-authored knot id, when known.
    pub id: Option<String>,
    /// A stable key for rendering, also while the id is not known.
    pub local_key: String,
    /// The knot record, once the server has sent it.
    pub knot: Option<Knot>,
    pub status: KnotStatus,
    /// The last operation that changed this knot.
    pub last_op: Option<OpId>,
}

impl CachedItem for KnotVm {
    open spec fn key_view(&self) -> Seq<char> {
        self.local_key@
    }

    open spec fn id_view(&self) -> Option<Seq<char>> {
        opt_str(self.id)
    }

    open spec fn pending_op(&self) -> Option<u64> {
        match self.status {
            KnotStatus::PendingCreate { op_id, .. } => Some(op_id),
            _ => None,
        }
    }

    fn has_key(&self, key: &String) -> (b: bool) {
        self.local_key == *key
    }

    fn has_id(&self, id: &String) -> (b: bool) {
        match &self.id {
            Some(s) => *s == *id,
            None => false,
        }
    }

    fn is_pending_for(&self, op_id: u64) -> (b: bool) {
        match &self.status {
            KnotStatus::PendingCreate { op_id: op, .. } => *op == op_id,
            _ => false,
        }
    }

    fn is_pending(&self) -> (b: bool) {
        match &self.status {
            KnotStatus::PendingCreate { .. } => true,
            _ => false,
        }
    }
}

/// The knots cache.
#[derive(Clone, Debug, PartialEq)]
pub struct KnotState {
    /// The knots rendered by the UI, in order.
    pub items: Vec<KnotVm>,
    /// The last error worth showing, if any.
    pub last_error: Option<String>,
}

impl Default for KnotState {
    fn default() -> (s: Self)
        ensures
            s.items@.len() == 0,
            s.last_error is None,
    {
        KnotState { items: Vec::new(), last_error: None }
    }
}

/// What rolling back a creation needs: the temporary key of the pending knot.
#[derive(Clone, Debug)]
pub struct CreateUndo {
    pub temp_key: String,
}

/// What rolling back a deletion needs: the operation, and the knot it took
/// away with the position it held.
#[derive(Debug)]
pub struct DeleteUndo {
    pub op_id: OpId,
    pub removed: Option<(usize, KnotVm)>,
}

/// The render key of a knot known by `id` (or a temporary key): `knot:{id}`.
pub open spec fn knot_key(id: Seq<char>) -> Seq<char> {
    "knot:"@ + id
}

/// `vm` is the pending knot that operation `op` inserts.
pub open spec fn is_pending_knot(vm: KnotVm, op: u64) -> bool {
    &&& vm.id is None
    &&& vm.local_key@ == knot_key(temp_key(op))
    &&& vm.knot is None
    &&& vm.status matches KnotStatus::PendingCreate { op_id, temp_key: t } && op_id == op && t@ == temp_key(op)
    &&& vm.last_op == Some(op)
}

/// `vm` is the cached form of the server knot `knot`, last changed by `op`.
pub open spec fn is_saved_knot(vm: KnotVm, knot: Knot, op: Option<u64>) -> bool {
    &&& opt_str(vm.id) == opt_str(knot.id_)
    &&& vm.local_key@ == match knot.id_ {
        Some(id) => knot_key(id@),
        None => "knot:unknown"@,
    }
    &&& vm.knot == Some(knot)
    &&& vm.status == KnotStatus::Saved
    &&& vm.last_op == op
}

/// `new` is `old` marked as having failed to delete with `error`, by operation `op`.
pub open spec fn is_failed_delete(old: KnotVm, new: KnotVm, op: u64, error: Seq<char>) -> bool {
    &&& new.id == old.id
    &&& new.local_key == old.local_key
    &&& new.knot == old.knot
    &&& new.status matches KnotStatus::Error { message } && message@ == "Delete failed: "@ + error
    &&& new.last_op == Some(op)
}

/// The cached form of a knot the server sent, last changed by `last_op`.
fn saved_knot(knot: Knot, last_op: Option<OpId>) -> (vm: KnotVm)
    ensures
        is_saved_knot(vm, knot, last_op),
{
    let id = copy_opt(&knot.id_);
    let local_key = match &knot.id_ {
        Some(id) => cat("knot:", id.as_str()),
        None => String::from_str("knot:unknown"),
    };
    KnotVm { id, local_key, knot: Some(knot), status: KnotStatus::Saved, last_op }
}

impl KnotState {
    /// Optimistic part of creating a knot: a pending knot with key
    /// `knot:temp:{op_id}` goes in front of the list and the error is cleared.
    pub fn begin_create(&mut self, op_id: OpId) -> (undo: CreateUndo)
        ensures
            final(self).items@.len() == old(self).items@.len() + 1,
            is_pending_knot(final(self).items@[0], op_id),
            final(self).items@ == seq![final(self).items@[0]] + old(self).items@,
            final(self).last_error is None,
            undo.temp_key@ == temp_key(op_id),
    {
        let temp = with_decimal("temp:", op_id);
        let vm = KnotVm {
            id: None,
            local_key: cat("knot:", temp.as_str()),
            knot: None,
            status: KnotStatus::PendingCreate { op_id, temp_key: temp.clone() },
            last_op: Some(op_id),
        };
        self.items.insert(0, vm);
        self.last_error = None;
        assert(self.items@ =~= seq![self.items@[0]] + old(self).items@);
        CreateUndo { temp_key: temp }
    }

    /// Confirmation of a creation: the first knot pending for `op_id` leaves
    /// the list, the created knot goes in front as saved (last changed by
    /// `op_id`) and the error is cleared (the caller then refreshes).
    pub fn commit_create(&mut self, op_id: OpId, created: Knot)
        ensures
            final(self).items@.len() >= 1,
            is_saved_knot(final(self).items@[0], created, Some(op_id)),
            final(self).items@ == seq![final(self).items@[0]] + without_first_pending(old(self).items@, op_id),
            final(self).last_error is None,
    {
        remove_first_pending(&mut self.items, op_id);
        let ghost rest = self.items@;
        let vm = saved_knot(created, Some(op_id));
        self.items.insert(0, vm);
        assert(self.items@ =~= seq![self.items@[0]] + rest);
        self.last_error = None;
    }

    /// Rollback of a creation: every knot keyed `knot:{temp_key}` leaves the
    /// list and the error reads `Failed to create knot (op={op_id}): {error}`.
    pub fn rollback_create(&mut self, op_id: OpId, undo: CreateUndo, error: &str)
        ensures
            final(self).items@ == without_key(old(self).items@, knot_key(undo.temp_key@)),
            opt_str(final(self).last_error) == Some(
                "Failed to create knot (op="@ + decimal(op_id as nat) + "): "@ + error@,
            ),
    {
        let key = cat("knot:", undo.temp_key.as_str());
        remove_with_key(&mut self.items, &key);
        let head = with_decimal("Failed to create knot (op=", op_id);
        let msg = cat3(head.as_str(), "): ", error);
        self.last_error = Some(msg);
    }

    /// Optimistic part of deleting the knot with server id `id`: the first
    /// such knot leaves the list and the error is cleared; the undo keeps
    /// the knot and its position.
    pub fn begin_delete(&mut self, op_id: OpId, id: &String) -> (undo: DeleteUndo)
        ensures
            undo.op_id == op_id,
            match undo.removed {
                Some((i, vm)) => {
                    &&& is_first_with_id(old(self).items@, id@, i as int)
                    &&& vm == old(self).items@[i as int]
                    &&& final(self).items@ == old(self).items@.remove(i as int)
                },
                None => {
                    &&& forall|j: int|
                        0 <= j < old(self).items@.len() ==> #[trigger] old(self).items@[j].id_view() != Some(id@)
                    &&& final(self).items@ == old(self).items@
                },
            },
            final(self).last_error is None,
    {
        let removed = remove_first_with_id(&mut self.items, id);
        self.last_error = None;
        DeleteUndo { op_id, removed }
    }

    /// Rollback of a deletion: the removed knot comes back at its position
    /// (or at the end, if the list got shorter), marked `Delete failed:
    /// {error}` and as last changed by the deleting operation; the error
    /// reads `Failed to delete knot: {error}`.
    pub fn rollback_delete(&mut self, undo: DeleteUndo, error: &str)
        ensures
            match undo.removed {
                Some((i, vm)) => {
                    let c = clamp(i as int, old(self).items@.len() as int);
                    &&& final(self).items@.len() == old(self).items@.len() + 1
                    &&& is_failed_delete(vm, final(self).items@[c], undo.op_id, error@)
                    &&& final(self).items@ == old(self).items@.insert(c, final(self).items@[c])
                },
                None => final(self).items@ == old(self).items@,
            },
            opt_str(final(self).last_error) == Some("Failed to delete knot: "@ + error@),
    {
        match undo.removed {
            Some((index, vm)) => {
                let failed = KnotVm {
                    id: vm.id,
                    local_key: vm.local_key,
                    knot: vm.knot,
                    status: KnotStatus::Error { message: cat("Delete failed: ", error) },
                    last_op: Some(undo.op_id),
                };
                let len = self.items.len();
                let at = if index < len {
                    index
                } else {
                    len
                };
                self.items.insert(at, failed);
            },
            None => {},
        }
        self.last_error = Some(cat("Failed to delete knot: ", error));
    }

    /// Hydration from the server: the server's knots, in order, followed by
    /// the knots still pending creation, in order; the error is cleared.
    pub fn apply_refresh(&mut self, server_knots: Vec<Knot>)
        ensures
            final(self).items@.len() == server_knots@.len() + pending_only(old(self).items@).len(),
            forall|k: int|
                0 <= k < server_knots@.len() ==> #[trigger] is_saved_knot(
                    final(self).items@[k],
                    server_knots@[k],
                    None,
                ),
            final(self).items@.subrange(server_knots@.len() as int, final(self).items@.len() as int)
                == pending_only(old(self).items@),
            final(self).last_error is None,
    {
        let mut pending = take_pending(&mut self.items);
        let mut vms: Vec<KnotVm> = Vec::new();
        let ghost all = server_knots@;
        let mut rest = server_knots;
        let n = rest.len();
        let mut k: usize = 0;
        while rest.len() > 0
            invariant
                k + rest@.len() == n,
                n == all.len(),
                rest@ == all.subrange(k as int, n as int),
                vms@.len() == k,
                forall|j: int| 0 <= j < k ==> #[trigger] is_saved_knot(vms@[j], all[j], None),
            decreases rest@.len(),
        {
            let knot = rest.remove(0);
            assert(knot == all[k as int]);
            vms.push(saved_knot(knot, None));
            k = k + 1;
            assert(rest@ =~= all.subrange(k as int, n as int));
        }
        let ghost p = pending@;
        vms.append(&mut pending);
        assert(vms@.subrange(n as int, vms@.len() as int) =~= p);
        self.items = vms;
        self.last_error = None;
    }

    /// A failed refresh leaves the knots as they are; the error reads
    /// `Failed to refresh knots: {error}`.
    pub fn refresh_failed(&mut self, error: &str)
        ensures
            final(self).items == old(self).items,
            opt_str(final(self).last_error) == Some("Failed to refresh knots: "@ + error@),
    {
        self.last_error = Some(cat("Failed to refresh knots: ", error));
    }
}

/// Confirming a creation replaces exactly the pending knot its optimistic
/// step put in front: what follows the saved knot is the list as it was.
pub proof fn lemma_create_then_commit(items: Seq<KnotVm>, pending: KnotVm, op: OpId)
    requires
        is_pending_knot(pending, op),
    ensures
        without_first_pending(seq![pending] + items, op) == items,
{
    lemma_commit_undoes_insert(items, pending, op);
}

/// Rolling back a creation takes away exactly the pending knot its
/// optimistic step put in front, as long as no other knot has its key.
pub proof fn lemma_create_then_rollback(items: Seq<KnotVm>, pending: KnotVm, op: OpId)
    requires
        is_pending_knot(pending, op),
        forall|j: int| 0 <= j < items.len() ==> #[trigger] items[j].local_key@ != knot_key(temp_key(op)),
    ensures
        without_key(seq![pending] + items, knot_key(temp_key(op))) == items,
{
    lemma_rollback_undoes_insert(items, pending);
}

/// Rolling back a deletion puts the knot back where it was: the list is the
/// one before the deletion, with that knot replaced by its failed form.
pub proof fn lemma_delete_then_rollback(items: Seq<KnotVm>, i: int, failed: KnotVm)
    requires
        0 <= i < items.len(),
    ensures
        items.remove(i).insert(clamp(i, items.len() - 1), failed) == items.update(i, failed),
{
    lemma_reinsert_restores(items, i, failed);
}

/// Two operations never share a pending key, so rolling one back never
/// takes away the other's pending knot.
pub proof fn lemma_pending_keys_distinct(a: OpId, b: OpId)
    requires
        a != b,
    ensures
        knot_key(temp_key(a)) != knot_key(temp_key(b)),
{
    if knot_key(temp_key(a)) == knot_key(temp_key(b)) {
        let p = "knot:"@ + "temp:"@;
        assert(knot_key(temp_key(a)) =~= p + decimal(a as nat));
        assert(knot_key(temp_key(b)) =~= p + decimal(b as nat));
        assert(decimal(a as nat) =~= knot_key(temp_key(a)).subrange(p.len() as int, knot_key(temp_key(a)).len() as int));
        assert(decimal(b as nat) =~= knot_key(temp_key(b)).subrange(p.len() as int, knot_key(temp_key(b)).len() as int));
        lemma_decimal_injective(a as nat, b as nat);
    }
}

/// A refresh keeps every knot that is pending creation, and only those,
/// after the server's knots.
pub proof fn lemma_refresh_keeps_pending(items: Seq<KnotVm>, vm: KnotVm)
    ensures
        pending_only(items).contains(vm) <==> items.contains(vm) && vm.pending_op() is Some,
{
    lemma_pending_only_exact(items, vm);
}

} // verus!
