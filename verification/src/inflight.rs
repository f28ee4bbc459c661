//! Bookkeeping of optimistic operations in flight: an operation is recorded
//! when it starts and forgotten when the server has answered.

use vstd::prelude::*;
use std::collections::HashMap;
use crate::notes_store::OpId;

verus! {

broadcast use vstd::std_specs::hash::group_hash_axioms;

/// The category of an operation in flight, for UI affordances.
#[derive(Clone, Copy, Debug, PartialEq, Eq)]
pub enum InflightKind {
    Refresh,
    Create,
    Update,
    Delete,
    /// A domain-specific tag.
    Custom(&'static str),
}

/// The record of an operation in flight.
#[derive(Clone, Copy, Debug, PartialEq, Eq)]
pub struct Inflight {
    pub kind: InflightKind,
    /// When it started, measured by operation ids (the id itself).
    pub started: OpId,
}

/// Records that operation `op_id` of the given kind has started.
pub fn begin_inflight(inflight: &mut HashMap<OpId, Inflight>, op_id: OpId, kind: InflightKind)
    ensures
        final(inflight)@ == old(inflight)@.insert(op_id, Inflight { kind, started: op_id }),
{
    inflight.insert(op_id, Inflight { kind, started: op_id });
}

/// Forgets operation `op_id` once the server has answered.
pub fn end_inflight(inflight: &mut HashMap<OpId, Inflight>, op_id: OpId)
    ensures
        final(inflight)@ == old(inflight)@.remove(op_id),
{
    inflight.remove(&op_id);
}

/// An operation that starts and then ends leaves the record of operations
/// in flight as it found it.
pub proof fn lemma_begin_then_end(m: Map<OpId, Inflight>, op_id: OpId, kind: InflightKind)
    requires
        !m.contains_key(op_id),
    ensures
        m.insert(op_id, Inflight { kind, started: op_id }).remove(op_id) == m,
{
    assert(m.insert(op_id, Inflight { kind, started: op_id }).remove(op_id) =~= m);
}

} // verus!
