//! The fill rules a `CGContext` fills a path by: which spans between the
//! crossings of a scanline with the path's edges are inside it.
//!
//! Where the crossings fall is geometry and stays with the caller; here are
//! the crossings in order along the scanline, by the direction each edge
//! crosses it in.

use vstd::prelude::*;

verus! {

/// What rasterising a path is to do with it.
#[derive(Clone, Copy, Debug, PartialEq, Eq, Structural)]
pub enum PathRaster {
    /// Fill by the non-zero winding rule, CoreGraphics' default and what
    /// `CGContextFillPath` selects.
    FillNonZero,
    /// Fill by the even-odd rule, which `CGContextEOFillPath` selects.
    FillEvenOdd,
    Stroke,
}

/// Whether the span after crossing `index` is inside the path, where
/// `winding` is the running signed sum of crossings up to and including it.
pub open spec fn inside(mode: PathRaster, index: int, winding: int) -> bool {
    match mode {
        PathRaster::FillEvenOdd => index % 2 == 0,
        _ => winding != 0,
    }
}

/// Whether the span between crossing `index` and the next one is inside the
/// path, under the fill rule in force. The even-odd rule ignores direction
/// and counts instead: `index + 1` edges have been crossed to reach this
/// span, so it is inside when that count is odd.
pub fn span_is_inside(mode: PathRaster, index: usize, winding: i32) -> (r: bool)
    ensures
        r == inside(mode, index as int, winding as int),
{
    match mode {
        PathRaster::FillEvenOdd => index % 2 == 0,
        _ => winding != 0,
    }
}

/// The signed sum of the first `n` crossing directions.
pub open spec fn winding_of(directions: Seq<i32>, n: int) -> int
    decreases n,
{
    if n <= 0 {
        0
    } else {
        winding_of(directions, n - 1) + directions[n - 1]
    }
}

/// The spans of a scanline that are inside the path, by the index of the
/// crossing each starts at, given the direction (1 or -1) each crossing's edge
/// runs in, ordered along the scanline.
pub open spec fn spans_inside(mode: PathRaster, directions: Seq<i32>) -> Seq<int> {
    spans_inside_upto(mode, directions, directions.len() - 1)
}

/// The spans inside among the first `n`.
pub open spec fn spans_inside_upto(mode: PathRaster, directions: Seq<i32>, n: int) -> Seq<int>
    decreases n,
{
    if n <= 0 {
        Seq::empty()
    } else if inside(mode, n - 1, winding_of(directions, n)) {
        spans_inside_upto(mode, directions, n - 1).push(n - 1)
    } else {
        spans_inside_upto(mode, directions, n - 1)
    }
}

proof fn lemma_winding_bounded(directions: Seq<i32>, n: int)
    requires
        0 <= n <= directions.len(),
        forall|i: int| 0 <= i < directions.len() ==> directions[i] == 1 || directions[i] == -1,
    ensures
        -n <= winding_of(directions, n) <= n,
    decreases n,
{
    if n > 0 {
        lemma_winding_bounded(directions, n - 1);
    }
}

/// The spans of a scanline inside the path: for each span between two
/// crossings in order along the scanline, whether the fill rule puts it
/// inside, by the index of the crossing that starts it.
pub fn inside_spans(mode: PathRaster, directions: &[i32]) -> (r: Vec<usize>)
    requires
        directions@.len() < i32::MAX,
        forall|i: int| 0 <= i < directions@.len() ==> directions@[i] == 1 || directions@[i] == -1,
    ensures
        r@.map_values(|i: usize| i as int) == spans_inside(mode, directions@),
{
    let mut r: Vec<usize> = Vec::new();
    if directions.len() < 2 {
        assert(r@.map_values(|i: usize| i as int) =~= spans_inside(mode, directions@));
        return r;
    }
    let mut winding: i32 = 0;
    let mut pair: usize = 0;
    while pair < directions.len() - 1
        invariant
            directions@.len() >= 2,
            directions@.len() < i32::MAX,
            forall|i: int| 0 <= i < directions@.len() ==> directions@[i] == 1 || directions@[i] == -1,
            pair <= directions@.len() - 1,
            winding == winding_of(directions@, pair as int),
            r@.map_values(|i: usize| i as int) == spans_inside_upto(mode, directions@, pair as int),
        decreases directions@.len() - 1 - pair,
    {
        proof {
            lemma_winding_bounded(directions@, pair + 1);
        }
        winding = winding + directions[pair];
        let ghost before = r@.map_values(|i: usize| i as int);
        if span_is_inside(mode, pair, winding) {
            r.push(pair);
            assert(r@.map_values(|i: usize| i as int) =~= before.push(pair as int));
        }
        pair = pair + 1;
    }
    r
}

} // verus!
