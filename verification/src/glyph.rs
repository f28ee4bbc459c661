//! The integer side of glyphs: how an embedding is cut into strokes, which
//! values of a normalised slice become points and which the colour, and
//! which earlier point a new stroke is anchored to. The arithmetic on the
//! `f32` values themselves is left to the caller; points are handled here
//! as the bit patterns of their coordinates.

use vstd::prelude::*;
use core::ops::Range;

verus! {

/// Partitions an embedding of a given length into the index ranges of its strokes.
pub trait SliceStrategy {
    fn slice(&self, embedding_len: usize) -> Vec<Range<usize>>;
}

/// Uniform slicing: every stroke gets exactly `dims_per_stroke` values;
/// dimensions left over at the end are dropped.
#[derive(Clone, Copy, Debug, PartialEq, Eq)]
pub struct UniformSlice {
    pub dims_per_stroke: usize,
}

impl Default for UniformSlice {
    fn default() -> (s: Self)
        ensures
            s.dims_per_stroke == 12,
    {
        UniformSlice { dims_per_stroke: 12 }
    }
}

impl SliceStrategy for UniformSlice {
    /// For `n = dims_per_stroke > 0`, the ranges `i*n .. (i+1)*n` for every
    /// `i < len / n`; none when `n` is zero.
    fn slice(&self, embedding_len: usize) -> (ranges: Vec<Range<usize>>)
        ensures
            ranges@.len() == if self.dims_per_stroke == 0 {
                0
            } else {
                embedding_len / self.dims_per_stroke
            },
            forall|i: int|
                0 <= i < ranges@.len() ==> #[trigger] ranges@[i].start == i * self.dims_per_stroke
                    && ranges@[i].end == (i + 1) * self.dims_per_stroke,
    {
        let n = self.dims_per_stroke;
        let mut ranges: Vec<Range<usize>> = Vec::new();
        if n == 0 {
            return ranges;
        }
        let count = embedding_len / n;
        let mut i: usize = 0;
        while i < count
            invariant
                n == self.dims_per_stroke,
                n > 0,
                count == embedding_len / n,
                i <= count,
                ranges@.len() == i,
                forall|j: int|
                    0 <= j < i ==> #[trigger] ranges@[j].start == j * n && ranges@[j].end == (j + 1) * n,
            decreases count - i,
        {
            assert((i + 1) * n <= count * n) by (nonlinear_arith)
                requires
                    i < count,
                    n > 0,
            ;
            assert(count * n <= embedding_len) by (nonlinear_arith)
                requires
                    count == embedding_len / n,
                    n > 0,
            ;
            assert(i * n <= (i + 1) * n) by (nonlinear_arith)
                requires
                    n > 0,
            ;
            ranges.push(Range { start: i * n, end: (i + 1) * n });
            i = i + 1;
        }
        assert(forall|j: int|
            0 <= j < ranges@.len() ==> #[trigger] ranges@[j].start == j * self.dims_per_stroke
                && ranges@[j].end == (j + 1) * self.dims_per_stroke);
        ranges
    }
}

/// Every range of a uniform slicing lies inside the embedding, and the
/// ranges follow one another without gap or overlap.
pub proof fn lemma_uniform_ranges_fit(n: usize, len: usize, i: int)
    requires
        n > 0,
        0 <= i < len / n,
    ensures
        0 <= i * n,
        (i + 1) * n <= len,
        (i + 1) * n == i * n + n,
{
    assert((i + 1) * n <= (len / n) * n) by (nonlinear_arith)
        requires
            i < len / n,
            n > 0,
    ;
    assert((len / n) * n <= len) by (nonlinear_arith)
        requires
            n > 0,
    ;
    assert(0 <= i * n && (i + 1) * n == i * n + n) by (nonlinear_arith)
        requires
            i >= 0,
    ;
}

/// Which values of a normalised slice a stroke is made of: its points, and
/// the three values its colour comes from.
#[derive(Clone, Debug, PartialEq)]
pub struct StrokeLayout<T> {
    /// Consecutive triples of the values before the last three.
    pub points: Vec<[T; 3]>,
    /// The last three values, when there are at least three; the stroke's
    /// colour is made of them, each channel kept in `[0, 1]`.
    pub colour: Option<[T; 3]>,
}

/// The default reading of a normalised slice as a stroke.
#[derive(Clone, Copy, Debug, PartialEq, Eq)]
pub struct DefaultStroke;

impl DefaultStroke {
    /// The colour from the last three values, if there are three; with six
    /// values or more, one point per complete triple of the values before
    /// them, and no point otherwise.
    pub fn layout<T: Copy>(&self, normalised: &[T]) -> (layout: StrokeLayout<T>)
        ensures
            normalised@.len() >= 3 ==> layout.colour == Some(
                [
                    normalised@[normalised@.len() - 3],
                    normalised@[normalised@.len() - 2],
                    normalised@[normalised@.len() - 1],
                ],
            ),
            normalised@.len() < 3 ==> layout.colour is None,
            layout.points@.len() == if normalised@.len() < 6 {
                0
            } else {
                (normalised@.len() - 3) / 3
            },
            forall|i: int|
                0 <= i < layout.points@.len() ==> #[trigger] layout.points@[i] == [
                    normalised@[3 * i],
                    normalised@[3 * i + 1],
                    normalised@[3 * i + 2],
                ],
    {
        let len = normalised.len();
        let colour = if len >= 3 {
            Some([normalised[len - 3], normalised[len - 2], normalised[len - 1]])
        } else {
            None
        };
        let mut points: Vec<[T; 3]> = Vec::new();
        if len < 6 {
            return StrokeLayout { points, colour };
        }
        let num_points = (len - 3) / 3;
        let mut i: usize = 0;
        while i < num_points
            invariant
                len == normalised@.len(),
                len >= 6,
                num_points == (len - 3) / 3,
                i <= num_points,
                points@.len() == i,
                forall|j: int|
                    0 <= j < i ==> #[trigger] points@[j] == [
                        normalised@[3 * j],
                        normalised@[3 * j + 1],
                        normalised@[3 * j + 2],
                    ],
            decreases num_points - i,
        {
            let base = i * 3;
            points.push([normalised[base], normalised[base + 1], normalised[base + 2]]);
            i = i + 1;
        }
        StrokeLayout { points, colour }
    }
}

/// A stroke's control points, each coordinate as the bit pattern of its `f32`.
#[derive(Clone, Debug, PartialEq)]
pub struct StrokeBits {
    pub points: Vec<[u32; 3]>,
}

/// The points of a sequence of strokes.
pub open spec fn strokes_points(s: Seq<StrokeBits>) -> Seq<Seq<[u32; 3]>> {
    s.map_values(|st: StrokeBits| st.points@)
}

/// One step of the stroke hash: times 31, plus each coordinate, wrapping.
pub open spec fn hash_step(acc: u64, p: [u32; 3]) -> u64 {
    acc.wrapping_mul(31).wrapping_add(p[0] as u64).wrapping_add(p[1] as u64).wrapping_add(p[2] as u64)
}

/// The hash of a stroke's points, folded from the first point on.
pub open spec fn stroke_hash(points: Seq<[u32; 3]>) -> u64
    decreases points.len(),
{
    if points.len() == 0 {
        0
    } else {
        hash_step(stroke_hash(points.drop_last()), points.last())
    }
}

/// The anchor of a stroke with points `current` among the strokes `previous`:
/// none without previous strokes; otherwise, by the stroke's hash, one of
/// the last (up to) four strokes, and a point of it; if that stroke has no
/// point, the last point of the most recent stroke, if any.
pub open spec fn connect_spec(current: Seq<[u32; 3]>, previous: Seq<Seq<[u32; 3]>>) -> Option<[u32; 3]> {
    if previous.len() == 0 {
        None
    } else {
        let hash = stroke_hash(current);
        let window = if previous.len() < 4 {
            previous.len()
        } else {
            4
        };
        let back = (#[verifier::truncate] (hash as usize)) as int % (window as int);
        let selected = previous[previous.len() - 1 - back];
        if selected.len() == 0 {
            let last = previous.last();
            if last.len() == 0 {
                None
            } else {
                Some(last.last())
            }
        } else {
            Some(selected[(#[verifier::truncate] ((hash >> 2) as usize)) as int % (selected.len() as int)])
        }
    }
}

/// The hash of a stroke's points.
pub fn stroke_hash_exec(points: &Vec<[u32; 3]>) -> (h: u64)
    ensures
        h == stroke_hash(points@),
{
    let mut acc: u64 = 0;
    let n = points.len();
    let mut i: usize = 0;
    while i < n
        invariant
            i <= n,
            n == points@.len(),
            acc == stroke_hash(points@.take(i as int)),
        decreases n - i,
    {
        let p = points[i];
        assert(points@.take(i + 1).drop_last() =~= points@.take(i as int));
        acc = acc.wrapping_mul(31).wrapping_add(p[0] as u64).wrapping_add(p[1] as u64).wrapping_add(
            p[2] as u64,
        );
        i = i + 1;
    }
    assert(points@.take(n as int) =~= points@);
    acc
}

/// Where a new stroke begins: a point chosen deterministically, from the
/// stroke's own points, among the points of the last (up to) four previous
/// strokes (see `connect_spec`).
pub fn natural_connect(current: &StrokeBits, previous: &[StrokeBits]) -> (anchor: Option<[u32; 3]>)
    ensures
        anchor == connect_spec(current.points@, strokes_points(previous@)),
{
    let ghost prev = strokes_points(previous@);
    if previous.len() == 0 {
        return None;
    }
    let hash = stroke_hash_exec(&current.points);
    let window = if previous.len() < 4 {
        previous.len()
    } else {
        4
    };
    let back = (hash as usize) % window;
    let selected = &previous[previous.len() - 1 - back];
    assert(selected.points@ == prev[prev.len() - 1 - back]);
    if selected.points.len() == 0 {
        let last = &previous[previous.len() - 1];
        assert(last.points@ == prev.last());
        if last.points.len() == 0 {
            return None;
        }
        return Some(last.points[last.points.len() - 1]);
    }
    let point_idx = ((hash >> 2) as usize) % selected.points.len();
    Some(selected.points[point_idx])
}

/// The anchor of a stroke, when there is one, is a point of one of the last
/// four previous strokes.
pub proof fn lemma_anchor_from_recent(current: Seq<[u32; 3]>, previous: Seq<Seq<[u32; 3]>>)
    ensures
        connect_spec(current, previous) matches Some(p) ==> exists|s: int, k: int|
            previous.len() - 4 <= s < previous.len() && 0 <= s && 0 <= k < previous[s].len()
                && #[trigger] previous[s][k] == p,
{
    if previous.len() > 0 {
        let hash = stroke_hash(current);
        let window = if previous.len() < 4 {
            previous.len()
        } else {
            4
        };
        let h = #[verifier::truncate] (hash as usize);
        let back = h as int % (window as int);
        assert(0 <= back < window);
        let s = previous.len() - 1 - back;
        let selected = previous[s];
        if selected.len() == 0 {
            let last = previous.last();
            if last.len() > 0 {
                let t = previous.len() - 1;
                assert(previous[t][last.len() - 1] == last.last());
                assert(connect_spec(current, previous) == Some(last.last()));
            }
        } else {
            let h2 = #[verifier::truncate] ((hash >> 2) as usize);
            let k = h2 as int % (selected.len() as int);
            assert(0 <= k < selected.len());
            assert(connect_spec(current, previous) == Some(previous[s][k]));
        }
    }
}

} // verus!
