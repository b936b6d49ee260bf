//! The spatial index: a bulk-built structure over entity positions that
//! answers "which points lie within radius `r` of `c`" with an exact
//! contract. It is rebuilt from the population's current positions before
//! every phase that queries it.

use vstd::prelude::*;
use crate::vec::{dist_sq, in_coord_range, Vec2};

verus! {

/// `p` lies within (inclusive) Euclidean distance `r` of `c`.
pub open spec fn in_radius(p: Vec2, c: Vec2, r: int) -> bool {
    dist_sq(p, c) <= r * r
}

/// The indices (in increasing order) of the first `n` points that lie
/// within radius `r` of `c`.
pub open spec fn radius_indices(pts: Seq<Vec2>, c: Vec2, r: int, n: int) -> Seq<usize>
    decreases n,
{
    if n <= 0 {
        Seq::empty()
    } else {
        let pre = radius_indices(pts, c, r, n - 1);
        if in_radius(pts[n - 1], c, r) {
            pre.push((n - 1) as usize)
        } else {
            pre
        }
    }
}

/// The query result is exactly the set of in-radius indices below `n`,
/// listed in strictly increasing order.
pub proof fn lemma_radius_indices_complete(pts: Seq<Vec2>, c: Vec2, r: int, n: int)
    requires
        0 <= n <= pts.len(),
        n <= usize::MAX,
    ensures
        forall|j: int| 0 <= j < radius_indices(pts, c, r, n).len()
            ==> #[trigger] radius_indices(pts, c, r, n)[j] < n
                && in_radius(pts[radius_indices(pts, c, r, n)[j] as int], c, r),
        forall|k: int| 0 <= k < n && in_radius(pts[k], c, r)
            ==> radius_indices(pts, c, r, n).contains(k as usize),
        forall|j1: int, j2: int|
            0 <= j1 < j2 < radius_indices(pts, c, r, n).len()
            ==> radius_indices(pts, c, r, n)[j1] < radius_indices(pts, c, r, n)[j2],
        radius_indices(pts, c, r, n).len() <= n,
    decreases n,
{
    if n > 0 {
        lemma_radius_indices_complete(pts, c, r, n - 1);
        let pre = radius_indices(pts, c, r, n - 1);
        let res = radius_indices(pts, c, r, n);
        if in_radius(pts[n - 1], c, r) {
            assert(res == pre.push((n - 1) as usize));
            assert forall|k: int| 0 <= k < n && in_radius(pts[k], c, r)
                implies res.contains(k as usize) by {
                if k < n - 1 {
                    assert(pre.contains(k as usize));
                    let j = choose|j: int| 0 <= j < pre.len() && pre[j] == k as usize;
                    assert(res[j] == k as usize);
                } else {
                    assert(res[res.len() - 1] == k as usize);
                }
            }
        } else {
            assert(res == pre);
            assert forall|k: int| 0 <= k < n && in_radius(pts[k], c, r)
                implies res.contains(k as usize) by {
                assert(k != n - 1);
                assert(pre.contains(k as usize));
            }
        }
    }
}

/// A radius-query structure over a snapshot of positions.
pub struct SpatialIndex {
    pub pts: Vec<Vec2>,
}

impl SpatialIndex {
    /// Every indexed point is within the admissible coordinate range.
    pub open spec fn wf(self) -> bool {
        forall|i: int| 0 <= i < self.pts@.len() ==> in_coord_range(#[trigger] self.pts@[i])
    }

    /// Bulk construction from a snapshot of positions.
    pub fn build(points: Vec<Vec2>) -> (s: Self)
        requires
            forall|i: int| 0 <= i < points@.len() ==> in_coord_range(#[trigger] points@[i]),
        ensures
            s.pts@ == points@,
            s.wf(),
    {
        SpatialIndex { pts: points }
    }

    /// The number of indexed points.
    pub fn len(&self) -> (n: usize)
        ensures
            n == self.pts@.len(),
    {
        self.pts.len()
    }

    /// All indices of points within (inclusive) distance `radius` of
    /// `centre`, in increasing order.
    pub fn query_radius(&self, centre: Vec2, radius: i64) -> (res: Vec<usize>)
        requires
            self.wf(),
            in_coord_range(centre),
            0 <= radius <= 4_000_000_000_000_000,
        ensures
            res@ == radius_indices(self.pts@, centre, radius as int, self.pts@.len() as int),
    {
        let mut res: Vec<usize> = Vec::new();
        let mut i: usize = 0;
        let n = self.pts.len();
        while i < n
            invariant
                0 <= i <= n,
                n == self.pts@.len(),
                self.wf(),
                in_coord_range(centre),
                0 <= radius <= 4_000_000_000_000_000,
                res@ == radius_indices(self.pts@, centre, radius as int, i as int),
            decreases n - i,
        {
            let p = self.pts[i];
            let dx: i128 = (p.x as i128) - (centre.x as i128);
            let dy: i128 = (p.y as i128) - (centre.y as i128);
            proof {
                assert(dx * dx <= 64_000_000_000_000_000_000_000_000_000_000
                    && dx * dx >= 0) by (nonlinear_arith)
                    requires -8_000_000_000_000_000 <= dx <= 8_000_000_000_000_000;
                assert(dy * dy <= 64_000_000_000_000_000_000_000_000_000_000
                    && dy * dy >= 0) by (nonlinear_arith)
                    requires -8_000_000_000_000_000 <= dy <= 8_000_000_000_000_000;
                assert((radius as i128) * (radius as i128)
                    <= 16_000_000_000_000_000_000_000_000_000_000int) by (nonlinear_arith)
                    requires 0 <= radius <= 4_000_000_000_000_000;
            }
            let sq: i128 = dx * dx + dy * dy;
            if sq <= (radius as i128) * (radius as i128) {
                res.push(i);
            }
            i = i + 1;
        }
        res
    }
}

} // verus!
