//! The list operations shared by the optimistic note and knot caches: the
//! items of a cache are told apart by a local key, a server id (once known)
//! and, while their creation is in flight, the operation that creates them.

use vstd::prelude::*;

verus! {

/// An item of an optimistic cache.
pub trait CachedItem: Sized {
    /// The stable key the item is rendered under.
    spec fn key_view(&self) -> Seq<char>;

    /// The server-authored id, once known.
    spec fn id_view(&self) -> Option<Seq<char>>;

    /// The operation that is creating this item, while it is pending.
    spec fn pending_op(&self) -> Option<u64>;

    fn has_key(&self, key: &String) -> (b: bool)
        ensures
            b == (self.key_view() == key@),
    ;

    fn has_id(&self, id: &String) -> (b: bool)
        ensures
            b == (self.id_view() == Some(id@)),
    ;

    fn is_pending_for(&self, op_id: u64) -> (b: bool)
        ensures
            b == (self.pending_op() == Some(op_id)),
    ;

    fn is_pending(&self) -> (b: bool)
        ensures
            b == (self.pending_op() is Some),
    ;
}

/// `i` is the first position of an item pending for `op`.
pub open spec fn is_first_pending<T: CachedItem>(s: Seq<T>, op: u64, i: int) -> bool {
    &&& 0 <= i < s.len()
    &&& s[i].pending_op() == Some(op)
    &&& forall|j: int| 0 <= j < i ==> #[trigger] s[j].pending_op() != Some(op)
}

/// `s` without its first item pending for `op` (unchanged if there is none).
pub open spec fn without_first_pending<T: CachedItem>(s: Seq<T>, op: u64) -> Seq<T> {
    if exists|i: int| is_first_pending(s, op, i) {
        s.remove(choose|i: int| is_first_pending(s, op, i))
    } else {
        s
    }
}

/// `i` is the first position of an item with server id `id`.
pub open spec fn is_first_with_id<T: CachedItem>(s: Seq<T>, id: Seq<char>, i: int) -> bool {
    &&& 0 <= i < s.len()
    &&& s[i].id_view() == Some(id)
    &&& forall|j: int| 0 <= j < i ==> #[trigger] s[j].id_view() != Some(id)
}

/// `s` without the items whose key is `key`, in order.
pub open spec fn without_key<T: CachedItem>(s: Seq<T>, key: Seq<char>) -> Seq<T>
    decreases s.len(),
{
    if s.len() == 0 {
        s
    } else if s.last().key_view() == key {
        without_key(s.drop_last(), key)
    } else {
        without_key(s.drop_last(), key).push(s.last())
    }
}

/// The items of `s` that are pending, in order.
pub open spec fn pending_only<T: CachedItem>(s: Seq<T>) -> Seq<T>
    decreases s.len(),
{
    if s.len() == 0 {
        s
    } else if s.last().pending_op() is Some {
        pending_only(s.drop_last()).push(s.last())
    } else {
        pending_only(s.drop_last())
    }
}

proof fn lemma_first_pending_unique<T: CachedItem>(s: Seq<T>, op: u64, i: int, j: int)
    requires
        is_first_pending(s, op, i),
        is_first_pending(s, op, j),
    ensures
        i == j,
{
}

/// Removes the first item pending for `op_id`, if any.
pub fn remove_first_pending<T: CachedItem>(items: &mut Vec<T>, op_id: u64)
    ensures
        final(items)@ == without_first_pending(old(items)@, op_id),
{
    let n = items.len();
    let mut i: usize = 0;
    while i < n
        invariant
            i <= n,
            n == items@.len(),
            *items == *old(items),
            forall|j: int| 0 <= j < i ==> #[trigger] items@[j].pending_op() != Some(op_id),
        decreases n - i,
    {
        if items[i].is_pending_for(op_id) {
            proof {
                assert(is_first_pending(items@, op_id, i as int));
                let c = choose|c: int| is_first_pending(items@, op_id, c);
                lemma_first_pending_unique(items@, op_id, i as int, c);
            }
            items.remove(i);
            return;
        }
        i = i + 1;
    }
    assert(!exists|c: int| is_first_pending(items@, op_id, c));
}

/// Removes the first item whose server id is `id`, and hands it back with
/// the position it held.
pub fn remove_first_with_id<T: CachedItem>(items: &mut Vec<T>, id: &String) -> (removed: Option<(usize, T)>)
    ensures
        match removed {
            Some((i, item)) => {
                &&& is_first_with_id(old(items)@, id@, i as int)
                &&& item == old(items)@[i as int]
                &&& final(items)@ == old(items)@.remove(i as int)
            },
            None => {
                &&& forall|j: int| 0 <= j < old(items)@.len() ==> #[trigger] old(items)@[j].id_view() != Some(id@)
                &&& final(items)@ == old(items)@
            },
        },
{
    let n = items.len();
    let mut i: usize = 0;
    while i < n
        invariant
            i <= n,
            n == items@.len(),
            *items == *old(items),
            forall|j: int| 0 <= j < i ==> #[trigger] items@[j].id_view() != Some(id@),
        decreases n - i,
    {
        if items[i].has_id(id) {
            let item = items.remove(i);
            return Some((i, item));
        }
        i = i + 1;
    }
    None
}

/// Removes every item whose key is `key`, keeping the others in order.
pub fn remove_with_key<T: CachedItem>(items: &mut Vec<T>, key: &String)
    ensures
        final(items)@ == without_key(old(items)@, key@),
{
    let mut kept: Vec<T> = Vec::new();
    let ghost orig = items@;
    let total = items.len();
    let mut taken: usize = 0;
    while items.len() > 0
        invariant
            taken + items@.len() == orig.len(),
            orig.len() == total,
            items@ == orig.subrange(taken as int, orig.len() as int),
            kept@ == without_key(orig.take(taken as int), key@),
        decreases items@.len(),
    {
        let item = items.remove(0);
        assert(orig.take(taken + 1).drop_last() =~= orig.take(taken as int));
        assert(orig.take(taken + 1).last() == item);
        if !item.has_key(key) {
            kept.push(item);
        }
        taken = taken + 1;
        assert(items@ =~= orig.subrange(taken as int, orig.len() as int));
    }
    assert(orig.take(taken as int) =~= orig);
    *items = kept;
}

/// Moves the pending items out of `items`, in order, leaving it empty.
pub fn take_pending<T: CachedItem>(items: &mut Vec<T>) -> (pending: Vec<T>)
    ensures
        pending@ == pending_only(old(items)@),
        final(items)@.len() == 0,
{
    let mut kept: Vec<T> = Vec::new();
    let ghost orig = items@;
    let total = items.len();
    let mut taken: usize = 0;
    while items.len() > 0
        invariant
            taken + items@.len() == orig.len(),
            orig.len() == total,
            items@ == orig.subrange(taken as int, orig.len() as int),
            kept@ == pending_only(orig.take(taken as int)),
        decreases items@.len(),
    {
        let item = items.remove(0);
        assert(orig.take(taken + 1).drop_last() =~= orig.take(taken as int));
        assert(orig.take(taken + 1).last() == item);
        if item.is_pending() {
            kept.push(item);
        }
        taken = taken + 1;
        assert(items@ =~= orig.subrange(taken as int, orig.len() as int));
    }
    assert(orig.take(taken as int) =~= orig);
    kept
}

/// Confirming a creation undoes its optimistic insertion: an item pending
/// for `op` put in front of `s` is exactly what `without_first_pending`
/// takes away again.
pub proof fn lemma_commit_undoes_insert<T: CachedItem>(s: Seq<T>, x: T, op: u64)
    requires
        x.pending_op() == Some(op),
    ensures
        without_first_pending(seq![x] + s, op) == s,
{
    let t = seq![x] + s;
    assert(is_first_pending(t, op, 0));
    let c = choose|c: int| is_first_pending(t, op, c);
    lemma_first_pending_unique(t, op, 0, c);
    assert(t.remove(0) =~= s);
}

proof fn lemma_without_key_absent<T: CachedItem>(s: Seq<T>, key: Seq<char>)
    requires
        forall|j: int| 0 <= j < s.len() ==> #[trigger] s[j].key_view() != key,
    ensures
        without_key(s, key) == s,
    decreases s.len(),
{
    if s.len() > 0 {
        lemma_without_key_absent(s.drop_last(), key);
        assert(s.drop_last().push(s.last()) =~= s);
    }
}

proof fn lemma_without_key_front<T: CachedItem>(x: T, s: Seq<T>, key: Seq<char>)
    requires
        x.key_view() == key,
    ensures
        without_key(seq![x] + s, key) == without_key(s, key),
    decreases s.len(),
{
    let t = seq![x] + s;
    if s.len() == 0 {
        assert(t.last() == x);
        assert(t.drop_last() =~= s);
        assert(without_key(t, key) == without_key(t.drop_last(), key));
    } else {
        assert(t.last() == s.last());
        assert(t.drop_last() =~= seq![x] + s.drop_last());
        lemma_without_key_front(x, s.drop_last(), key);
        if s.last().key_view() == key {
            assert(without_key(t, key) == without_key(t.drop_last(), key));
            assert(without_key(s, key) == without_key(s.drop_last(), key));
        } else {
            assert(without_key(t, key) == without_key(t.drop_last(), key).push(t.last()));
            assert(without_key(s, key) == without_key(s.drop_last(), key).push(s.last()));
        }
    }
}

/// Rolling back a failed creation undoes its optimistic insertion: removing
/// the items with the pending item's key gives back the list it was put in
/// front of, as long as no item there had that key.
pub proof fn lemma_rollback_undoes_insert<T: CachedItem>(s: Seq<T>, x: T)
    requires
        forall|j: int| 0 <= j < s.len() ==> #[trigger] s[j].key_view() != x.key_view(),
    ensures
        without_key(seq![x] + s, x.key_view()) == s,
{
    lemma_without_key_front(x, s, x.key_view());
    lemma_without_key_absent(s, x.key_view());
}

/// Putting a removed item back at the position it held (clamped to the
/// length) restores the list, with the item replaced by `y`.
pub proof fn lemma_reinsert_restores<T>(s: Seq<T>, i: int, y: T)
    requires
        0 <= i < s.len(),
    ensures
        s.remove(i).insert(if i < s.len() - 1 { i } else { s.len() - 1 }, y) == s.update(i, y),
{
    assert(s.remove(i).insert(i, y) =~= s.update(i, y));
}

/// Every pending item of `s`, and nothing else, survives `pending_only`, in order.
pub proof fn lemma_pending_only_exact<T: CachedItem>(s: Seq<T>, x: T)
    ensures
        pending_only(s).contains(x) <==> s.contains(x) && x.pending_op() is Some,
    decreases s.len(),
{
    if s.len() > 0 {
        let p = s.drop_last();
        let last = s.last();
        lemma_pending_only_exact(p, x);
        let ps = pending_only(s);
        let pp = pending_only(p);
        if last.pending_op() is Some {
            assert(ps == pp.push(last));
        } else {
            assert(ps == pp);
        }
        if ps.contains(x) {
            let k = choose|k: int| 0 <= k < ps.len() && ps[k] == x;
            if last.pending_op() is Some && k == pp.len() {
                assert(s[s.len() - 1] == x);
            } else {
                assert(pp[k] == x);
                let i = choose|i: int| 0 <= i < p.len() && p[i] == x;
                assert(s[i] == x);
            }
        }
        if s.contains(x) && x.pending_op() is Some {
            let i = choose|i: int| 0 <= i < s.len() && s[i] == x;
            if i == s.len() - 1 {
                assert(ps[pp.len() as int] == x);
            } else {
                assert(p[i] == x);
                let k = choose|k: int| 0 <= k < pp.len() && pp[k] == x;
                assert(ps[k] == x);
            }
        }
    }
}

} // verus!
