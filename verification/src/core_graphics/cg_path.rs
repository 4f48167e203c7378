//! The path a `CGPath` or a `CGContext` builds up: runs of points, each of
//! which may be closed.
//!
//! Curves are flattened to line segments as they are added, so a path is
//! nothing but its points. The structure is kept here over any point type;
//! the geometry that computes points is the caller's.

use vstd::prelude::*;

verus! {

/// One connected run of points. `closed` decides whether the last point joins
/// back to the first.
#[derive(Clone, Debug, Default)]
pub struct Subpath<P> {
    pub points: Vec<P>,
    pub closed: bool,
}

/// A path: its subpaths in the order they were begun.
#[derive(Clone, Debug, Default)]
pub struct Path<P> {
    pub subpaths: Vec<Subpath<P>>,
}

/// A subpath as its points and whether it is closed.
pub open spec fn subpath_view<P>(s: Subpath<P>) -> (Seq<P>, bool) {
    (s.points@, s.closed)
}

impl<P> View for Path<P> {
    type V = Seq<(Seq<P>, bool)>;

    open spec fn view(&self) -> Seq<(Seq<P>, bool)> {
        self.subpaths@.map_values(|s: Subpath<P>| subpath_view(s))
    }
}

/// The point a path would continue from: the last point of its last
/// subpath.
pub open spec fn current_point_of<P>(v: Seq<(Seq<P>, bool)>) -> Option<P> {
    if v.len() > 0 && v.last().0.len() > 0 {
        Some(v.last().0.last())
    } else {
        None
    }
}

/// `v` with a new subpath of the one point `p`.
pub open spec fn moved_to<P>(v: Seq<(Seq<P>, bool)>, p: P) -> Seq<(Seq<P>, bool)> {
    v.push((seq![p], false))
}

/// `v` with a line to `p`: added to the last subpath where that is open,
/// else starting a new subpath at `p`.
pub open spec fn lined_to<P>(v: Seq<(Seq<P>, bool)>, p: P) -> Seq<(Seq<P>, bool)> {
    if v.len() > 0 && !v.last().1 {
        v.drop_last().push((v.last().0.push(p), false))
    } else {
        moved_to(v, p)
    }
}

/// Drawing to a point, by a move or by a line, makes it the point the path
/// continues from.
pub proof fn lemma_drawing_sets_current_point<P>(v: Seq<(Seq<P>, bool)>, p: P)
    ensures
        current_point_of(moved_to(v, p)) == Some(p),
        current_point_of(lined_to(v, p)) == Some(p),
{
}

/// A line never adds a segment to a closed subpath: a path whose last
/// subpath is closed gets a new subpath of the one point.
pub proof fn lemma_line_after_close_starts_anew<P>(v: Seq<(Seq<P>, bool)>, p: P)
    requires
        v.len() > 0,
        v.last().1,
    ensures
        lined_to(v, p) == v.push((seq![p], false)),
{
}

impl<P: Copy> Path<P> {
    /// A path with no subpaths.
    pub fn new() -> (r: Path<P>)
        ensures
            r@ == Seq::<(Seq<P>, bool)>::empty(),
    {
        let r = Path { subpaths: Vec::new() };
        assert(r@ =~= Seq::<(Seq<P>, bool)>::empty());
        r
    }

    /// A path is empty when no subpath has a segment in it.
    pub fn is_empty(&self) -> (r: bool)
        ensures
            r == forall|i: int| 0 <= i < self@.len() ==> (#[trigger] self@[i]).0.len() < 2,
    {
        let mut i: usize = 0;
        while i < self.subpaths.len()
            invariant
                i <= self@.len(),
                self@.len() == self.subpaths@.len(),
                forall|k: int| 0 <= k < i ==> (#[trigger] self@[k]).0.len() < 2,
            decreases self.subpaths@.len() - i,
        {
            assert(self@[i as int] == subpath_view(self.subpaths@[i as int]));
            if self.subpaths[i].points.len() >= 2 {
                return false;
            }
            i = i + 1;
        }
        true
    }

    pub fn clear(&mut self)
        ensures
            final(self)@ == Seq::<(Seq<P>, bool)>::empty(),
    {
        self.subpaths.clear();
        assert(self@ =~= Seq::<(Seq<P>, bool)>::empty());
    }

    pub fn current_point(&self) -> (r: Option<P>)
        ensures
            r == current_point_of(self@),
    {
        let n = self.subpaths.len();
        if n == 0 {
            return None;
        }
        assert(self@.last() == subpath_view(self.subpaths@[n - 1]));
        let last = &self.subpaths[n - 1];
        let m = last.points.len();
        if m == 0 {
            None
        } else {
            Some(last.points[m - 1])
        }
    }

    /// Begin a new subpath at `point`.
    pub fn move_to(&mut self, point: P)
        ensures
            final(self)@ == moved_to(old(self)@, point),
    {
        let ghost before = self@;
        let mut points: Vec<P> = Vec::new();
        points.push(point);
        assert(points@ =~= seq![point]);
        self.subpaths.push(Subpath { points, closed: false });
        assert(self@ =~= moved_to(before, point));
    }

    /// A line to `point`. A line with no open subpath to continue starts one
    /// at that point.
    pub fn line_to(&mut self, point: P)
        ensures
            final(self)@ == lined_to(old(self)@, point),
    {
        let ghost before = self@;
        let n = self.subpaths.len();
        if n > 0 && !self.subpaths[n - 1].closed {
            assert(before.last() == subpath_view(self.subpaths@[n - 1]));
            let mut last = self.subpaths.pop().unwrap();
            assert(self@ =~= before.drop_last());
            last.points.push(point);
            self.subpaths.push(last);
            assert(self@ =~= before.drop_last().push((before.last().0.push(point), false)));
        } else {
            self.move_to(point);
        }
    }

    /// Close the last subpath, if there is one.
    pub fn close(&mut self)
        ensures
            old(self)@.len() == 0 ==> final(self)@ == old(self)@,
            old(self)@.len() > 0 ==> final(self)@ == old(self)@.drop_last().push(
                (old(self)@.last().0, true),
            ),
    {
        let ghost before = self@;
        let n = self.subpaths.len();
        if n > 0 {
            assert(before.last() == subpath_view(self.subpaths@[n - 1]));
            let mut last = self.subpaths.pop().unwrap();
            assert(self@ =~= before.drop_last());
            last.closed = true;
            self.subpaths.push(last);
            assert(self@ =~= before.drop_last().push((before.last().0, true)));
        }
    }

    /// Append every subpath of `other`, each point passed through
    /// `transform`, keeping each subpath closed or open as it was.
    pub fn append<F: Fn(P) -> P>(&mut self, other: &Path<P>, transform: F)
        requires
            forall|p: P| call_requires(transform, (p,)),
        ensures
            final(self)@.len() == old(self)@.len() + other@.len(),
            final(self)@.subrange(0, old(self)@.len() as int) == old(self)@,
            forall|i: int|
                0 <= i < other@.len() ==> {
                    let s = #[trigger] final(self)@[old(self)@.len() + i];
                    &&& s.1 == other@[i].1
                    &&& s.0.len() == other@[i].0.len()
                    &&& forall|j: int|
                        0 <= j < s.0.len() ==> call_ensures(transform, (other@[i].0[j],), s.0[j])
                },
    {
        let ghost before = self@;
        let mut i: usize = 0;
        while i < other.subpaths.len()
            invariant
                forall|p: P| call_requires(transform, (p,)),
                i <= other@.len(),
                other@.len() == other.subpaths@.len(),
                self@.len() == before.len() + i,
                self@.subrange(0, before.len() as int) == before,
                forall|k: int|
                    0 <= k < i ==> {
                        let s = #[trigger] self@[before.len() + k];
                        &&& s.1 == other@[k].1
                        &&& s.0.len() == other@[k].0.len()
                        &&& forall|j: int|
                            0 <= j < s.0.len() ==> call_ensures(
                                transform,
                                (other@[k].0[j],),
                                s.0[j],
                            )
                    },
            decreases other.subpaths@.len() - i,
        {
            let source = &other.subpaths[i];
            assert(other@[i as int] == subpath_view(*source));
            let mut points: Vec<P> = Vec::new();
            let mut j: usize = 0;
            while j < source.points.len()
                invariant
                    forall|p: P| call_requires(transform, (p,)),
                    j <= source.points@.len(),
                    points@.len() == j,
                    forall|m: int|
                        0 <= m < j ==> call_ensures(transform, (source.points@[m],), #[trigger] points@[m]),
                decreases source.points@.len() - j,
            {
                let q = transform(source.points[j]);
                points.push(q);
                j = j + 1;
            }
            let ghost mid = self@;
            self.subpaths.push(Subpath { points, closed: source.closed });
            assert(self@ =~= mid.push((points@, source.closed)));
            assert(self@.subrange(0, before.len() as int) =~= mid.subrange(0, before.len() as int));
            i = i + 1;
        }
    }
}

} // verus!
