//! The integer side of laying out embeddings in 3D: which embeddings take
//! part in the dimension reduction, and how its rows are put back in place.

use vstd::prelude::*;
use std::collections::HashMap;

verus! {

broadcast use vstd::std_specs::hash::group_hash_axioms;

/// How many of `lengths` equal `d`.
pub open spec fn count_of(lengths: Seq<usize>, d: usize) -> nat
    decreases lengths.len(),
{
    if lengths.len() == 0 {
        0
    } else {
        count_of(lengths.drop_last(), d) + if lengths.last() == d {
            1nat
        } else {
            0nat
        }
    }
}

/// The positions of `lengths` whose value is `d`, in order.
pub open spec fn positions_of(lengths: Seq<usize>, d: usize) -> Seq<usize>
    decreases lengths.len(),
{
    if lengths.len() == 0 {
        Seq::empty()
    } else if lengths.last() == d {
        positions_of(lengths.drop_last(), d).push((lengths.len() - 1) as usize)
    } else {
        positions_of(lengths.drop_last(), d)
    }
}

/// `d` is a most common non-zero length of `lengths`.
pub open spec fn is_modal_length(lengths: Seq<usize>, d: usize) -> bool {
    &&& d != 0
    &&& count_of(lengths, d) > 0
    &&& forall|e: usize| e != 0 ==> #[trigger] count_of(lengths, e) <= count_of(lengths, d)
}

/// What the layout of a batch of embeddings rests on.
#[derive(Clone, Debug, PartialEq)]
pub enum ReductionPlan {
    /// Too few comparable embeddings: lay every one out on a grid.
    Grid,
    /// Reduce the embeddings of length `dim` (at `rows`, in order) together;
    /// the others go on the grid.
    Reduce { dim: usize, rows: Vec<usize> },
}

proof fn lemma_count_take(lengths: Seq<usize>, d: usize, i: int)
    requires
        0 <= i < lengths.len(),
    ensures
        count_of(lengths.take(i + 1), d) == count_of(lengths.take(i), d) + if lengths[i] == d {
            1nat
        } else {
            0nat
        },
{
    assert(lengths.take(i + 1).drop_last() =~= lengths.take(i));
}

proof fn lemma_count_zero_if_absent(lengths: Seq<usize>, d: usize)
    requires
        forall|i: int| 0 <= i < lengths.len() ==> lengths[i] != d,
    ensures
        count_of(lengths, d) == 0,
    decreases lengths.len(),
{
    if lengths.len() > 0 {
        lemma_count_zero_if_absent(lengths.drop_last(), d);
    }
}

proof fn lemma_count_positive(lengths: Seq<usize>, d: usize, i: int)
    requires
        0 <= i < lengths.len(),
        lengths[i] == d,
    ensures
        count_of(lengths, d) > 0,
    decreases lengths.len(),
{
    if i < lengths.len() - 1 {
        lemma_count_positive(lengths.drop_last(), d, i);
    }
}

proof fn lemma_count_bound(lengths: Seq<usize>, d: usize)
    ensures
        count_of(lengths, d) <= lengths.len(),
    decreases lengths.len(),
{
    if lengths.len() > 0 {
        lemma_count_bound(lengths.drop_last(), d);
    }
}

/// How many embeddings have each non-zero length: a key for every non-zero
/// length that occurs, mapped to its count.
fn length_counts(lengths: &[usize]) -> (counts: HashMap<usize, usize>)
    ensures
        forall|e: usize| #[trigger] counts@.contains_key(e) <==> e != 0 && count_of(lengths@, e) > 0,
        forall|e: usize| #[trigger] counts@.contains_key(e) ==> counts@[e] == count_of(lengths@, e),
{
    let n = lengths.len();
    let mut counts: HashMap<usize, usize> = HashMap::new();
    let mut i: usize = 0;
    while i < n
        invariant
            i <= n,
            n == lengths@.len(),
            forall|e: usize|
                #[trigger] counts@.contains_key(e) <==> e != 0 && count_of(lengths@.take(i as int), e) > 0,
            forall|e: usize|
                #[trigger] counts@.contains_key(e) ==> counts@[e] == count_of(lengths@.take(i as int), e),
        decreases n - i,
    {
        let d = lengths[i];
        proof {
            assert forall|e: usize| true implies count_of(lengths@.take(i + 1), e) == count_of(lengths@.take(i as int), e)
                + if lengths@[i as int] == e { 1nat } else { 0nat } by {
                lemma_count_take(lengths@, e, i as int);
            }
            lemma_count_bound(lengths@.take(i as int), d);
        }
        if d != 0 {
            let c: usize = match counts.get(&d) {
                Some(c) => *c,
                None => 0,
            };
            counts.insert(d, c + 1);
        }
        i = i + 1;
    }
    assert(lengths@.take(n as int) =~= lengths@);
    counts
}

fn positions_exec(lengths: &[usize], d: usize) -> (rows: Vec<usize>)
    ensures
        rows@ == positions_of(lengths@, d),
{
    let n = lengths.len();
    let mut rows: Vec<usize> = Vec::new();
    let mut i: usize = 0;
    while i < n
        invariant
            i <= n,
            n == lengths@.len(),
            rows@ == positions_of(lengths@.take(i as int), d),
        decreases n - i,
    {
        assert(lengths@.take(i + 1).drop_last() =~= lengths@.take(i as int));
        if lengths[i] == d {
            rows.push(i);
        }
        i = i + 1;
    }
    assert(lengths@.take(n as int) =~= lengths@);
    rows
}

/// Chooses the embeddings to reduce together, given their lengths: those of
/// the most common non-zero length (the first to reach the highest count,
/// in input order). With no non-zero length, or fewer than two embeddings
/// of that length, everything goes on the grid.
pub fn reduction_plan(lengths: &[usize]) -> (plan: ReductionPlan)
    ensures
        match plan {
            ReductionPlan::Grid => (forall|d: usize| #[trigger] is_modal_length(lengths@, d) ==> count_of(lengths@, d) < 2),
            ReductionPlan::Reduce { dim, rows } => {
                &&& is_modal_length(lengths@, dim)
                &&& rows@ == positions_of(lengths@, dim)
                &&& rows@.len() >= 2
            },
        },
{
    let n = lengths.len();
    let counts = length_counts(lengths);
    let mut best: usize = 0;
    let mut best_count: usize = 0;
    let mut i: usize = 0;
    while i < n
        invariant
            i <= n,
            n == lengths@.len(),
            forall|e: usize| #[trigger] counts@.contains_key(e) <==> e != 0 && count_of(lengths@, e) > 0,
            forall|e: usize| #[trigger] counts@.contains_key(e) ==> counts@[e] == count_of(lengths@, e),
            best != 0 ==> best_count == count_of(lengths@, best),
            best == 0 ==> best_count == 0,
            best != 0 ==> best_count > 0,
            forall|j: int| 0 <= j < i && lengths@[j] != 0 ==> count_of(lengths@, #[trigger] lengths@[j]) <= best_count,
        decreases n - i,
    {
        let d = lengths[i];
        if d != 0 {
            proof {
                lemma_count_positive(lengths@, d, i as int);
            }
            let c: usize = match counts.get(&d) {
                Some(c) => *c,
                None => 0,
            };
            if c > best_count {
                best = d;
                best_count = c;
            }
        }
        i = i + 1;
    }
    assert forall|e: usize| e != 0 implies #[trigger] count_of(lengths@, e) <= best_count by {
        if exists|j: int| 0 <= j < lengths@.len() && lengths@[j] == e {
            let j = choose|j: int| 0 <= j < lengths@.len() && lengths@[j] == e;
            assert(count_of(lengths@, lengths@[j]) <= best_count);
        } else {
            lemma_count_zero_if_absent(lengths@, e);
        }
    }
    if best == 0 || best_count < 2 {
        return ReductionPlan::Grid;
    }
    let rows = positions_exec(lengths, best);
    proof {
        lemma_positions_count(lengths@, best);
    }
    ReductionPlan::Reduce { dim: best, rows }
}

proof fn lemma_positions_count(lengths: Seq<usize>, d: usize)
    ensures
        positions_of(lengths, d).len() == count_of(lengths, d),
    decreases lengths.len(),
{
    if lengths.len() > 0 {
        lemma_positions_count(lengths.drop_last(), d);
    }
}

/// Puts `values[r]` at position `rows[r]` of `base`, for every `r`, leaving
/// the other positions as they are.
pub fn scatter_rows<T: Copy>(base: &mut Vec<T>, rows: &[usize], values: &[T])
    requires
        rows@.len() == values@.len(),
        forall|r: int| 0 <= r < rows@.len() ==> #[trigger] rows@[r] < old(base)@.len(),
        forall|r: int, s: int| 0 <= r < s < rows@.len() ==> rows@[r] != rows@[s],
    ensures
        final(base)@.len() == old(base)@.len(),
        forall|r: int| 0 <= r < rows@.len() ==> #[trigger] final(base)@[rows@[r] as int] == values@[r],
        forall|k: int|
            0 <= k < old(base)@.len() && (forall|r: int| 0 <= r < rows@.len() ==> rows@[r] != k)
                ==> #[trigger] final(base)@[k] == old(base)@[k],
{
    let n = rows.len();
    let mut r: usize = 0;
    while r < n
        invariant
            r <= n,
            n == rows@.len(),
            rows@.len() == values@.len(),
            base@.len() == old(base)@.len(),
            forall|q: int| 0 <= q < rows@.len() ==> #[trigger] rows@[q] < old(base)@.len(),
            forall|q: int, s: int| 0 <= q < s < rows@.len() ==> rows@[q] != rows@[s],
            forall|q: int| 0 <= q < r ==> #[trigger] base@[rows@[q] as int] == values@[q],
            forall|k: int|
                0 <= k < old(base)@.len() && (forall|q: int| 0 <= q < r ==> rows@[q] != k)
                    ==> #[trigger] base@[k] == old(base)@[k],
        decreases n - r,
    {
        let at = rows[r];
        base.set(at, values[r]);
        r = r + 1;
    }
}

/// The rows chosen for a reduction are distinct positions inside the batch.
pub proof fn lemma_positions_valid(lengths: Seq<usize>, d: usize)
    requires
        lengths.len() <= usize::MAX,
    ensures
        forall|r: int|
            0 <= r < positions_of(lengths, d).len() ==> #[trigger] positions_of(lengths, d)[r] < lengths.len()
                && lengths[positions_of(lengths, d)[r] as int] == d,
        forall|r: int, s: int|
            0 <= r < s < positions_of(lengths, d).len() ==> positions_of(lengths, d)[r] < positions_of(
                lengths,
                d,
            )[s],
    decreases lengths.len(),
{
    if lengths.len() > 0 {
        let p = lengths.drop_last();
        lemma_positions_valid(p, d);
        let pp = positions_of(p, d);
        let ps = positions_of(lengths, d);
        if lengths.last() == d {
            assert(ps == pp.push((lengths.len() - 1) as usize));
        } else {
            assert(ps == pp);
        }
        assert forall|r: int| 0 <= r < ps.len() implies #[trigger] ps[r] < lengths.len() && lengths[ps[r] as int] == d by {
            if r < pp.len() {
                assert(ps[r] == pp[r]);
                assert(p[pp[r] as int] == lengths[pp[r] as int]);
            }
        }
        assert forall|r: int, s: int| 0 <= r < s < ps.len() implies ps[r] < ps[s] by {
            assert(ps[r] == pp[r]);
            assert(pp[r] < p.len());
            if s < pp.len() {
                assert(ps[s] == pp[s]);
            }
        }
    }
}

} // verus!
