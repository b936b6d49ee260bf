//! The simulation state and the discrete tick.
//!
//! One tick rebuilds the spatial index, computes every decision against
//! the frozen snapshot, applies every turn, advances every position,
//! rebuilds the index, and resolves predation. The contract of `update`
//! pins the whole new population down as a function of the old one.

use vstd::prelude::*;
use crate::boi::{Boi, Species, DT_MAX, POS_LIMIT};
use crate::fix::iabs;
use crate::spatial::SpatialIndex;
use crate::strategy::POP_LIMIT;
use crate::vec::Vec2;

verus! {

/// Largest admissible arena radius, in milli-units.
pub const ARENA_LIMIT: i64 = 1_000_000_000;

/// The kill radius: a Prey entity within this distance (in milli-units)
/// of a Predator is removed.
pub const KILL_RADIUS: i64 = 1000;

/// The simulation state: the population, the spatial index over its
/// positions, and the arena.
pub struct MainState {
    pub bois: Vec<Boi>,
    pub boi_index: SpatialIndex,
    pub arena_centre: Vec2,
    pub arena_radius: i64,
}

impl MainState {
    /// The population is bounded, every entity is within its ranges,
    /// and identities strictly increase along the population (hence are
    /// unique).
    pub open spec fn bois_wf(self) -> bool {
        &&& self.bois@.len() <= POP_LIMIT as int
        &&& forall|i: int| 0 <= i < self.bois@.len() ==> (#[trigger] self.bois@[i]).wf()
        &&& forall|i: int, j: int|
            0 <= i < j < self.bois@.len()
                ==> #[trigger] self.bois@[i].id < #[trigger] self.bois@[j].id
    }

    /// The spatial index was built from the population's current
    /// positions: queries against it speak about the live entities.
    pub open spec fn index_synced(self) -> bool {
        &&& self.boi_index.pts@.len() == self.bois@.len()
        &&& forall|i: int| 0 <= i < self.bois@.len()
            ==> self.boi_index.pts@[i] == (#[trigger] self.bois@[i]).position
    }

    /// The arena parameters are within their ranges.
    pub open spec fn arena_wf(self) -> bool {
        &&& 0 <= self.arena_radius <= ARENA_LIMIT
        &&& iabs(self.arena_centre.x as int) <= POS_LIMIT as int
        &&& iabs(self.arena_centre.y as int) <= POS_LIMIT as int
    }

    /// The full state invariant.
    pub open spec fn wf(self) -> bool {
        self.bois_wf() && self.index_synced() && self.arena_wf()
    }
}

/// The positions of a population, in order, for building the index.
pub fn positions_of(bois: &Vec<Boi>) -> (pts: Vec<Vec2>)
    ensures
        pts@.len() == bois@.len(),
        forall|i: int| 0 <= i < bois@.len()
            ==> pts@[i] == (#[trigger] bois@[i]).position,
{
    let mut pts: Vec<Vec2> = Vec::new();
    let mut i: usize = 0;
    while i < bois.len()
        invariant
            0 <= i <= bois@.len(),
            pts@.len() == i,
            forall|k: int| 0 <= k < i ==> pts@[k] == (#[trigger] bois@[k]).position,
        decreases bois@.len() - i,
    {
        pts.push(bois[i].position);
        i = i + 1;
    }
    pts
}

/// The turned form of one entity: its heading after acting on a
/// decision, everything else unchanged.
pub open spec fn turned_boi(b: Boi, d: (int, int), dt: int) -> Boi {
    Boi {
        direction: crate::boi::act_spec(
            b.direction as int, b.turning_speed as int, dt, d.0, d.1) as i64,
        ..b
    }
}

/// The first `n` entities, each turned toward its own decision against
/// the frozen snapshot.
pub open spec fn turned_upto(bois: Seq<Boi>, centre: Vec2, radius: int, dt: int, n: int)
    -> Seq<Boi>
    decreases n,
{
    if n <= 0 {
        Seq::empty()
    } else {
        turned_upto(bois, centre, radius, dt, n - 1).push(
            turned_boi(
                bois[n - 1],
                crate::strategy::decide_spec(bois[n - 1], bois, centre, radius),
                dt,
            ),
        )
    }
}

/// Index form of `turned_upto`.
pub proof fn lemma_turned_index(bois: Seq<Boi>, centre: Vec2, radius: int, dt: int, n: int)
    requires
        0 <= n,
    ensures
        turned_upto(bois, centre, radius, dt, n).len() == n,
        forall|k: int| 0 <= k < n
            ==> turned_upto(bois, centre, radius, dt, n)[k]
                == turned_boi(
                    bois[k],
                    crate::strategy::decide_spec(#[trigger] bois[k], bois, centre, radius),
                    dt,
                ),
    decreases n,
{
    if n > 0 {
        lemma_turned_index(bois, centre, radius, dt, n - 1);
    }
}

/// A coordinate clamped into the admissible position range.
pub open spec fn clamp_coord(v: int) -> int {
    if v > POS_LIMIT as int {
        POS_LIMIT as int
    } else if v < -(POS_LIMIT as int) {
        -(POS_LIMIT as int)
    } else {
        v
    }
}

/// The advanced form of one entity: its position moved along its
/// heading by `speed * dt`, clamped into the admissible range.
pub open spec fn advanced_boi(b: Boi, dt: int) -> Boi {
    let dv = crate::fix::dirvec_spec(b.direction as int);
    let sp = (b.speed * dt) / 1000;
    let step_x = crate::fix::fdiv(dv.0 * sp, 1000);
    let step_y = crate::fix::fdiv(dv.1 * sp, 1000);
    Boi {
        position: Vec2 {
            x: clamp_coord(b.position.x + step_x) as i64,
            y: clamp_coord(b.position.y + step_y) as i64,
        },
        ..b
    }
}

/// The first `n` entities, each advanced.
pub open spec fn advanced_upto(bois: Seq<Boi>, dt: int, n: int) -> Seq<Boi>
    decreases n,
{
    if n <= 0 {
        Seq::empty()
    } else {
        advanced_upto(bois, dt, n - 1).push(advanced_boi(bois[n - 1], dt))
    }
}

/// Index form of `advanced_upto`.
pub proof fn lemma_advanced_index(bois: Seq<Boi>, dt: int, n: int)
    requires
        0 <= n,
    ensures
        advanced_upto(bois, dt, n).len() == n,
        forall|k: int| 0 <= k < n
            ==> advanced_upto(bois, dt, n)[k] == advanced_boi(#[trigger] bois[k], dt),
    decreases n,
{
    if n > 0 {
        lemma_advanced_index(bois, dt, n - 1);
    }
}

/// Whether any other entity among the first `n` is a Predator within
/// the kill radius of `me`.
pub open spec fn any_predator_near(bois: Seq<Boi>, me: Boi, n: int) -> bool
    decreases n,
{
    if n <= 0 {
        false
    } else {
        any_predator_near(bois, me, n - 1) || {
            let b = bois[n - 1];
            b.id != me.id && b.species == Species::Predator
                && crate::spatial::in_radius(b.position, me.position, KILL_RADIUS as int)
        }
    }
}

/// `any_predator_near` says exactly that some other Predator is within
/// the kill radius.
pub proof fn lemma_any_predator_near_iff(bois: Seq<Boi>, me: Boi, n: int)
    requires
        0 <= n <= bois.len(),
    ensures
        any_predator_near(bois, me, n) <==> exists|k: int|
            0 <= k < n && (#[trigger] bois[k]).id != me.id
                && bois[k].species == Species::Predator
                && crate::spatial::in_radius(bois[k].position, me.position, KILL_RADIUS as int),
    decreases n,
{
    if n > 0 {
        lemma_any_predator_near_iff(bois, me, n - 1);
    }
}

/// Whether entity `i` survives the consequence-resolution step:
/// Predators always do; a Prey survives unless some Predator stands
/// within the kill radius.
pub open spec fn keeps(bois: Seq<Boi>, i: int) -> bool {
    bois[i].species == Species::Predator
        || !any_predator_near(bois, bois[i], bois.len() as int)
}

/// Consequence resolution in one statement: an entity survives the
/// predation pass exactly when it is a Predator, or when no other
/// entity is a Predator within the kill radius of its position.
pub proof fn lemma_keeps_characterised(bois: Seq<Boi>, i: int)
    requires
        0 <= i < bois.len(),
    ensures
        keeps(bois, i) <==> (bois[i].species == Species::Predator
            || !(exists|k: int|
                0 <= k < bois.len() && (#[trigger] bois[k]).id != bois[i].id
                    && bois[k].species == Species::Predator
                    && crate::spatial::in_radius(
                        bois[k].position, bois[i].position, KILL_RADIUS as int))),
{
    lemma_any_predator_near_iff(bois, bois[i], bois.len() as int);
}

/// The survivors among the first `n` entities, in order.
pub open spec fn survivors_upto(bois: Seq<Boi>, n: int) -> Seq<Boi>
    decreases n,
{
    if n <= 0 {
        Seq::empty()
    } else {
        let pre = survivors_upto(bois, n - 1);
        if keeps(bois, n - 1) {
            pre.push(bois[n - 1])
        } else {
            pre
        }
    }
}

/// Predators are never removed by consequence resolution.
pub proof fn lemma_predators_survive(bois: Seq<Boi>, n: int)
    requires
        0 <= n <= bois.len(),
    ensures
        forall|k: int| 0 <= k < n && (#[trigger] bois[k]).species == Species::Predator
            ==> survivors_upto(bois, n).contains(bois[k]),
    decreases n,
{
    if n > 0 {
        lemma_predators_survive(bois, n - 1);
        let pre = survivors_upto(bois, n - 1);
        let res = survivors_upto(bois, n);
        assert forall|k: int| 0 <= k < n && (#[trigger] bois[k]).species == Species::Predator
            implies res.contains(bois[k]) by {
            if k < n - 1 {
                assert(pre.contains(bois[k]));
                let j = choose|j: int| 0 <= j < pre.len() && pre[j] == bois[k];
                if keeps(bois, n - 1) {
                    assert(res == pre.push(bois[n - 1]));
                    assert(res[j] == bois[k]);
                } else {
                    assert(res == pre);
                }
            } else {
                assert(keeps(bois, n - 1));
                assert(res.last() == bois[k]);
            }
        }
    }
}

/// When the predation rule keeps every entity, consequence resolution
/// removes nothing: the population stays the same, member for member,
/// in the same order.
pub proof fn lemma_no_predation_no_removal(bois: Seq<Boi>, n: int)
    requires
        0 <= n <= bois.len(),
        forall|k: int| 0 <= k < n ==> #[trigger] keeps(bois, k),
    ensures
        survivors_upto(bois, n) == bois.take(n),
    decreases n,
{
    if n > 0 {
        lemma_no_predation_no_removal(bois, n - 1);
        assert(keeps(bois, n - 1));
        assert(survivors_upto(bois, n) =~= bois.take(n));
    } else {
        assert(survivors_upto(bois, 0) =~= bois.take(0));
    }
}

/// `e` is one of the first `n` entities, and one that the predation
/// rule keeps.
pub open spec fn survivor_from(bois: Seq<Boi>, n: int, e: Boi) -> bool {
    exists|j: int| 0 <= j < n && e == #[trigger] bois[j] && keeps(bois, j)
}

/// Every survivor is one of the entities, and one that the predation
/// rule keeps.
pub proof fn lemma_survivor_members(bois: Seq<Boi>, n: int)
    requires
        0 <= n <= bois.len(),
    ensures
        forall|t: int| 0 <= t < survivors_upto(bois, n).len()
            ==> survivor_from(bois, n, #[trigger] survivors_upto(bois, n)[t]),
    decreases n,
{
    if n > 0 {
        lemma_survivor_members(bois, n - 1);
        let pre = survivors_upto(bois, n - 1);
        let res = survivors_upto(bois, n);
        assert forall|t: int| 0 <= t < res.len()
            implies survivor_from(bois, n, res[t]) by {
            if t < pre.len() {
                assert(res[t] == pre[t]);
                assert(survivor_from(bois, n - 1, pre[t]));
                let j = choose|j: int|
                    0 <= j < n - 1 && pre[t] == bois[j] && keeps(bois, j);
                assert(res[t] == bois[j] && keeps(bois, j));
            } else {
                assert(keeps(bois, n - 1) && res[t] == bois[n - 1]);
            }
        }
    }
}

/// A Prey entity with a Predator inside the kill radius is removed by
/// consequence resolution (identities are assumed unique, as the state
/// invariant guarantees).
pub proof fn lemma_prey_caught_removed(bois: Seq<Boi>, i: int)
    requires
        0 <= i < bois.len(),
        forall|a: int, b: int| 0 <= a < b < bois.len()
            ==> #[trigger] bois[a].id < #[trigger] bois[b].id,
        bois[i].species == Species::Prey,
        any_predator_near(bois, bois[i], bois.len() as int),
    ensures
        !survivors_upto(bois, bois.len() as int).contains(bois[i]),
{
    let n = bois.len() as int;
    let res = survivors_upto(bois, n);
    lemma_survivor_members(bois, n);
    if res.contains(bois[i]) {
        let t = choose|t: int| 0 <= t < res.len() && res[t] == bois[i];
        assert(survivor_from(bois, n, res[t]));
        let j = choose|j: int| 0 <= j < n && res[t] == bois[j] && keeps(bois, j);
        assert(bois[j] == bois[i]);
        if j < i {
            assert(bois[j].id < bois[i].id);
        }
        if i < j {
            assert(bois[i].id < bois[j].id);
        }
        assert(j == i);
        assert(!keeps(bois, i));
    }
}

/// One complete tick over a frozen population: decisions, turns, moves,
/// then predation, in that order.
pub open spec fn tick_spec(bois: Seq<Boi>, centre: Vec2, radius: int, dt: int) -> Seq<Boi> {
    let turned = turned_upto(bois, centre, radius, dt, bois.len() as int);
    let moved = advanced_upto(turned, dt, turned.len() as int);
    survivors_upto(moved, moved.len() as int)
}

/// `n` ticks in sequence.
pub open spec fn run_spec(bois: Seq<Boi>, centre: Vec2, radius: int, dt: int, n: int)
    -> Seq<Boi>
    decreases n,
{
    if n <= 0 {
        bois
    } else {
        tick_spec(run_spec(bois, centre, radius, dt, n - 1), centre, radius, dt)
    }
}

/// The tick is a function of the population alone: two identically
/// seeded runs driven for the same number of ticks stay identical,
/// state for state.
pub proof fn lemma_run_deterministic(
    b1: Seq<Boi>,
    b2: Seq<Boi>,
    centre: Vec2,
    radius: int,
    dt: int,
    n: int,
)
    requires
        b1 == b2,
    ensures
        run_spec(b1, centre, radius, dt, n) == run_spec(b2, centre, radius, dt, n),
{
}

/// Whether any entity listed by `idxs` is a Predator other than `me`.
pub open spec fn any_pred_in_idxs(bois: Seq<Boi>, idxs: Seq<usize>, me: Boi) -> bool
    decreases idxs.len(),
{
    if idxs.len() == 0 {
        false
    } else {
        any_pred_in_idxs(bois, idxs.drop_last(), me) || {
            let b = bois[idxs.last() as int];
            b.id != me.id && b.species == Species::Predator
        }
    }
}

/// Scanning the kill-radius query for a foreign Predator is the same as
/// asking whether any other Predator stands within the kill radius.
pub proof fn lemma_pred_query_eq(bois: Seq<Boi>, pts: Seq<Vec2>, me: Boi, n: int)
    requires
        pts.len() == bois.len(),
        forall|i: int| 0 <= i < bois.len() ==> pts[i] == (#[trigger] bois[i]).position,
        0 <= n <= bois.len(),
        bois.len() <= usize::MAX,
    ensures
        any_pred_in_idxs(
            bois,
            crate::spatial::radius_indices(pts, me.position, KILL_RADIUS as int, n),
            me,
        ) == any_predator_near(bois, me, n),
    decreases n,
{
    if n > 0 {
        lemma_pred_query_eq(bois, pts, me, n - 1);
        let ri_pre = crate::spatial::radius_indices(pts, me.position, KILL_RADIUS as int, n - 1);
        let ri = crate::spatial::radius_indices(pts, me.position, KILL_RADIUS as int, n);
        if crate::spatial::in_radius(pts[n - 1], me.position, KILL_RADIUS as int) {
            assert(ri == ri_pre.push((n - 1) as usize));
            assert(ri.drop_last() =~= ri_pre);
            assert(ri.last() == (n - 1) as usize);
        } else {
            assert(ri == ri_pre);
        }
    }
}

impl MainState {
    /// Every entity's decision against the frozen snapshot, in order.
    #[verifier::loop_isolation(false)]
    fn compute_decisions(&self) -> (ds: Vec<Vec2>)
        requires
            self.wf(),
        ensures
            ds@.len() == self.bois@.len(),
            forall|k: int| 0 <= k < ds@.len()
                ==> ((#[trigger] ds@[k]).x as int) == crate::strategy::decide_spec(
                    self.bois@[k], self.bois@, self.arena_centre,
                    self.arena_radius as int).0
                    && (ds@[k].y as int) == crate::strategy::decide_spec(
                        self.bois@[k], self.bois@, self.arena_centre,
                        self.arena_radius as int).1
                    && iabs(ds@[k].x as int) <= 1000
                    && iabs(ds@[k].y as int) <= 1000,
    {
        let mut ds: Vec<Vec2> = Vec::new();
        let mut i: usize = 0;
        while i < self.bois.len()
            invariant
                0 <= i <= self.bois@.len(),
                ds@.len() == i,
                forall|k: int| 0 <= k < i
                    ==> ((#[trigger] ds@[k]).x as int) == crate::strategy::decide_spec(
                        self.bois@[k], self.bois@, self.arena_centre,
                        self.arena_radius as int).0
                        && (ds@[k].y as int) == crate::strategy::decide_spec(
                            self.bois@[k], self.bois@, self.arena_centre,
                            self.arena_radius as int).1
                        && iabs(ds@[k].x as int) <= 1000
                        && iabs(ds@[k].y as int) <= 1000,
            decreases self.bois@.len() - i,
        {
            let b = self.bois[i];
            proof {
                assert(b.wf());
            }
            let d = b.decide(self);
            ds.push(d);
            i = i + 1;
        }
        ds
    }

    /// Applies every entity's turn, `ds` being the decisions computed
    /// against the frozen snapshot.
    #[verifier::loop_isolation(false)]
    fn apply_turns(&mut self, ds: &Vec<Vec2>, dt: u64)
        requires
            1 <= dt <= DT_MAX,
            ds@.len() == old(self).bois@.len(),
            forall|k: int| 0 <= k < ds@.len()
                ==> ((#[trigger] ds@[k]).x as int) == crate::strategy::decide_spec(
                    old(self).bois@[k], old(self).bois@, old(self).arena_centre,
                    old(self).arena_radius as int).0
                    && (ds@[k].y as int) == crate::strategy::decide_spec(
                        old(self).bois@[k], old(self).bois@, old(self).arena_centre,
                        old(self).arena_radius as int).1
                    && iabs(ds@[k].x as int) <= 1000
                    && iabs(ds@[k].y as int) <= 1000,
            forall|k: int| 0 <= k < old(self).bois@.len()
                ==> (#[trigger] old(self).bois@[k]).wf(),
        ensures
            final(self).bois@ == turned_upto(
                old(self).bois@, old(self).arena_centre, old(self).arena_radius as int,
                dt as int, old(self).bois@.len() as int),
            forall|k: int| 0 <= k < final(self).bois@.len()
                ==> (#[trigger] final(self).bois@[k]).wf(),
            final(self).arena_centre == old(self).arena_centre,
            final(self).arena_radius == old(self).arena_radius,
            final(self).boi_index == old(self).boi_index,
    {
        let ghost bois0 = self.bois@;
        let ghost centre = self.arena_centre;
        let ghost radius = self.arena_radius as int;
        let n = self.bois.len();
        proof {
            lemma_turned_index(bois0, centre, radius, dt as int, n as int);
        }
        let ghost turned = turned_upto(bois0, centre, radius, dt as int, n as int);
        let mut i: usize = 0;
        while i < n
            invariant
                0 <= i <= n,
                self.bois@.len() == n,
                self.arena_centre == centre,
                self.arena_radius as int == radius,
                self.boi_index == old(self).boi_index,
                forall|k: int| 0 <= k < i ==> self.bois@[k] == turned[k],
                forall|k: int| i <= k < n ==> self.bois@[k] == bois0[k],
                forall|k: int| 0 <= k < n ==> (#[trigger] self.bois@[k]).wf(),
            decreases n - i,
        {
            let mut b = self.bois[i];
            let d = ds[i];
            b.action(dt, &d);
            self.bois.set(i, b);
            proof {
                let dec = crate::strategy::decide_spec(bois0[i as int], bois0, centre, radius);
                assert(b.direction as int == crate::boi::act_spec(
                    bois0[i as int].direction as int,
                    bois0[i as int].turning_speed as int,
                    dt as int, dec.0, dec.1));
                assert(turned[i as int].direction as int == crate::boi::act_spec(
                    bois0[i as int].direction as int,
                    bois0[i as int].turning_speed as int,
                    dt as int, dec.0, dec.1));
                assert(self.bois@[i as int] == turned[i as int]);
            }
            i = i + 1;
        }
        proof {
            assert(self.bois@ =~= turned);
        }
    }

    /// Advances every entity's position along its heading by
    /// `speed * dt`, clamped into the admissible range.
    #[verifier::loop_isolation(false)]
    fn apply_moves(&mut self, dt: u64)
        requires
            1 <= dt <= DT_MAX,
            forall|k: int| 0 <= k < old(self).bois@.len()
                ==> (#[trigger] old(self).bois@[k]).wf(),
        ensures
            final(self).bois@ == advanced_upto(
                old(self).bois@, dt as int, old(self).bois@.len() as int),
            forall|k: int| 0 <= k < final(self).bois@.len()
                ==> (#[trigger] final(self).bois@[k]).wf(),
            forall|k: int| 0 <= k < final(self).bois@.len()
                ==> (#[trigger] final(self).bois@[k]).id == old(self).bois@[k].id,
            final(self).arena_centre == old(self).arena_centre,
            final(self).arena_radius == old(self).arena_radius,
            final(self).boi_index == old(self).boi_index,
    {
        let ghost bois1 = self.bois@;
        let n = self.bois.len();
        proof {
            lemma_advanced_index(bois1, dt as int, n as int);
        }
        let ghost moved = advanced_upto(bois1, dt as int, n as int);
        let mut i: usize = 0;
        while i < n
            invariant
                0 <= i <= n,
                self.bois@.len() == n,
                self.arena_centre == old(self).arena_centre,
                self.arena_radius == old(self).arena_radius,
                self.boi_index == old(self).boi_index,
                forall|k: int| 0 <= k < i ==> self.bois@[k] == moved[k],
                forall|k: int| i <= k < n ==> self.bois@[k] == bois1[k],
                forall|k: int| 0 <= k < n ==> (#[trigger] self.bois@[k]).wf(),
            decreases n - i,
        {
            let b = self.bois[i];
            let dv = b.direction_vector();
            proof {
                assert((b.speed as int) * (dt as int) <= 10_000_000_000int)
                    by (nonlinear_arith)
                    requires 0 <= b.speed <= 1_000_000, 0 <= dt <= 10_000;
                crate::fix::lemma_div_bound((b.speed as int) * (dt as int), 10_000_000, 1000);
            }
            let sp: i64 = (((b.speed as u64) * dt) / 1000) as i64;
            proof {
                assert(iabs((dv.x as int) * (sp as int)) <= 10_000_000 * 1000)
                    by (nonlinear_arith)
                    requires iabs(dv.x as int) <= 1000, 0 <= sp <= 10_000_000;
                assert(iabs((dv.y as int) * (sp as int)) <= 10_000_000 * 1000)
                    by (nonlinear_arith)
                    requires iabs(dv.y as int) <= 1000, 0 <= sp <= 10_000_000;
                crate::fix::lemma_fdiv_le_k((dv.x as int) * (sp as int), 1000, 10_000_000);
                crate::fix::lemma_fdiv_le_k((dv.y as int) * (sp as int), 1000, 10_000_000);
            }
            let delta = dv.mul(sp);
            let nx0: i64 = b.position.x + delta.x;
            let ny0: i64 = b.position.y + delta.y;
            let nx: i64 = if nx0 > POS_LIMIT {
                POS_LIMIT
            } else if nx0 < -POS_LIMIT {
                -POS_LIMIT
            } else {
                nx0
            };
            let ny: i64 = if ny0 > POS_LIMIT {
                POS_LIMIT
            } else if ny0 < -POS_LIMIT {
                -POS_LIMIT
            } else {
                ny0
            };
            let b2 = Boi { position: Vec2 { x: nx, y: ny }, ..b };
            self.bois.set(i, b2);
            proof {
                assert(b2.wf());
                assert(moved[i as int] == advanced_boi(bois1[i as int], dt as int));
                assert(b == bois1[i as int]);
                let dvs = crate::fix::dirvec_spec(b.direction as int);
                assert(dv.x as int == dvs.0 && dv.y as int == dvs.1);
                assert(sp as int == (b.speed as int * dt as int) / 1000);
                assert(delta.x as int == crate::fix::fdiv(dvs.0 * (sp as int), 1000));
                assert(delta.y as int == crate::fix::fdiv(dvs.1 * (sp as int), 1000));
                assert(nx as int == clamp_coord(b.position.x as int + delta.x as int));
                assert(ny as int == clamp_coord(b.position.y as int + delta.y as int));
                assert(self.bois@[i as int] == moved[i as int]);
            }
            i = i + 1;
        }
        proof {
            assert(self.bois@ =~= moved);
        }
    }

    /// The keep flag of every entity: false exactly for a Prey with a
    /// Predator inside the kill radius. Queries the freshly rebuilt
    /// index.
    #[verifier::loop_isolation(false)]
    fn compute_keeps(&self) -> (keep: Vec<bool>)
        requires
            self.wf(),
        ensures
            keep@.len() == self.bois@.len(),
            forall|k: int| 0 <= k < keep@.len()
                ==> keep@[k] == keeps(self.bois@, k),
    {
        let ghost moved = self.bois@;
        let ghost mpts = self.boi_index.pts@;
        let n = self.bois.len();
        proof {
            assert forall|i2: int| 0 <= i2 < mpts.len()
                implies crate::vec::in_coord_range(#[trigger] mpts[i2]) by {
                assert(self.bois@[i2].wf());
            }
        }
        let mut keep: Vec<bool> = Vec::new();
        let mut i: usize = 0;
        while i < n
            invariant
                0 <= i <= n,
                keep@.len() == i,
                forall|k: int| 0 <= k < i ==> keep@[k] == keeps(moved, k),
            decreases n - i,
        {
            let b = self.bois[i];
            if matches!(b.species, Species::Prey) {
                proof {
                    crate::spatial::lemma_radius_indices_complete(
                        mpts, b.position, KILL_RADIUS as int, n as int);
                }
                let q = self.boi_index.query_radius(b.position, KILL_RADIUS);
                let mut found = false;
                let mut j: usize = 0;
                while j < q.len()
                    invariant
                        0 <= j <= q@.len(),
                        found == any_pred_in_idxs(moved, q@.take(j as int), b),
                    decreases q@.len() - j,
                {
                    let c = self.bois[q[j]];
                    if c.id != b.id && matches!(c.species, Species::Predator) {
                        found = true;
                    }
                    proof {
                        assert(q@.take(j as int + 1).drop_last() =~= q@.take(j as int));
                        assert(q@.take(j as int + 1).last() == q@[j as int]);
                    }
                    j = j + 1;
                }
                proof {
                    assert(q@.take(q@.len() as int) =~= q@);
                    lemma_pred_query_eq(moved, mpts, b, n as int);
                    assert(found == any_predator_near(moved, b, n as int));
                }
                keep.push(!found);
            } else {
                keep.push(true);
                proof {
                    assert(b.species == Species::Predator);
                    assert(keeps(moved, i as int));
                }
            }
            i = i + 1;
        }
        keep
    }

    /// Removes the entities whose keep flag is false, in one pass,
    /// keeping the survivors' relative order.
    #[verifier::loop_isolation(false)]
    fn apply_removals(&mut self, keep: &Vec<bool>)
        requires
            keep@.len() == old(self).bois@.len(),
            forall|k: int| 0 <= k < keep@.len()
                ==> keep@[k] == keeps(old(self).bois@, k),
            forall|k: int| 0 <= k < old(self).bois@.len()
                ==> (#[trigger] old(self).bois@[k]).wf(),
            forall|i: int, j: int| 0 <= i < j < old(self).bois@.len()
                ==> #[trigger] old(self).bois@[i].id < #[trigger] old(self).bois@[j].id,
        ensures
            final(self).bois@ == survivors_upto(
                old(self).bois@, old(self).bois@.len() as int),
            final(self).bois@.len() <= old(self).bois@.len(),
            forall|k: int| 0 <= k < final(self).bois@.len()
                ==> (#[trigger] final(self).bois@[k]).wf(),
            forall|i: int, j: int| 0 <= i < j < final(self).bois@.len()
                ==> #[trigger] final(self).bois@[i].id < #[trigger] final(self).bois@[j].id,
            final(self).arena_centre == old(self).arena_centre,
            final(self).arena_radius == old(self).arena_radius,
            final(self).boi_index == old(self).boi_index,
    {
        let ghost moved = self.bois@;
        let n = self.bois.len();
        let mut surv: Vec<Boi> = Vec::new();
        let mut i: usize = 0;
        while i < n
            invariant
                0 <= i <= n,
                surv@ == survivors_upto(moved, i as int),
                surv@.len() <= i,
                self.bois@ == moved,
                self.boi_index == old(self).boi_index,
                forall|t: int| 0 <= t < surv@.len() ==> (#[trigger] surv@[t]).wf(),
                forall|t1: int, t2: int| 0 <= t1 < t2 < surv@.len()
                    ==> #[trigger] surv@[t1].id < #[trigger] surv@[t2].id,
                forall|t: int, j2: int|
                    0 <= t < surv@.len() && i <= j2 < n
                        ==> #[trigger] surv@[t].id < #[trigger] moved[j2].id,
            decreases n - i,
        {
            if keep[i] {
                surv.push(self.bois[i]);
            }
            i = i + 1;
        }
        self.bois = surv;
    }

    /// One discrete tick: rebuild the index, decide for every entity
    /// against the frozen snapshot, apply every turn, advance every
    /// position, rebuild the index, resolve predation, and drop the
    /// removed entities. The new population is exactly `tick_spec` of
    /// the old one.
    pub fn update(&mut self, dt: u64)
        requires
            old(self).wf(),
            1 <= dt <= DT_MAX,
        ensures
            final(self).wf(),
            final(self).bois@ == tick_spec(
                old(self).bois@,
                old(self).arena_centre,
                old(self).arena_radius as int,
                dt as int,
            ),
            final(self).arena_centre == old(self).arena_centre,
            final(self).arena_radius == old(self).arena_radius,
    {
        let ghost bois0 = self.bois@;
        let ghost centre = self.arena_centre;
        let ghost radius = self.arena_radius as int;
        let ghost n0 = self.bois@.len() as int;

        // rebuild the spatial index from the tick-start positions
        let pts = positions_of(&self.bois);
        proof {
            assert forall|i: int| 0 <= i < pts@.len()
                implies crate::vec::in_coord_range(#[trigger] pts@[i]) by {
                assert(self.bois@[i].wf());
            }
        }
        self.boi_index = SpatialIndex::build(pts);
        proof {
            assert(self.wf());
        }

        // decide for every entity against the frozen snapshot
        let ds = self.compute_decisions();

        // apply every turn, then advance every position
        self.apply_turns(&ds, dt);
        let ghost turned = self.bois@;
        self.apply_moves(dt);
        let ghost moved = self.bois@;
        proof {
            lemma_turned_index(bois0, centre, radius, dt as int, n0);
            lemma_advanced_index(turned, dt as int, n0);
            assert forall|i: int, j: int| 0 <= i < j < moved.len()
                implies #[trigger] moved[i].id < #[trigger] moved[j].id by {
                assert(moved[i].id == turned[i].id);
                assert(turned[i] == turned_boi(
                    bois0[i],
                    crate::strategy::decide_spec(bois0[i], bois0, centre, radius),
                    dt as int));
                assert(turned[i].id == bois0[i].id);
                assert(moved[j].id == turned[j].id);
                assert(turned[j] == turned_boi(
                    bois0[j],
                    crate::strategy::decide_spec(bois0[j], bois0, centre, radius),
                    dt as int));
                assert(turned[j].id == bois0[j].id);
            }
        }

        // rebuild the index from the advanced positions
        let pts2 = positions_of(&self.bois);
        proof {
            assert forall|i2: int| 0 <= i2 < pts2@.len()
                implies crate::vec::in_coord_range(#[trigger] pts2@[i2]) by {
                assert(self.bois@[i2].wf());
            }
        }
        self.boi_index = SpatialIndex::build(pts2);

        // resolve predation and drop the removed entities
        let keep = self.compute_keeps();
        self.apply_removals(&keep);

        // rebuild the index for the new population
        let pts3 = positions_of(&self.bois);
        proof {
            assert forall|i3: int| 0 <= i3 < pts3@.len()
                implies crate::vec::in_coord_range(#[trigger] pts3@[i3]) by {
                assert(self.bois@[i3].wf());
            }
        }
        self.boi_index = SpatialIndex::build(pts3);
        proof {
            assert(self.bois@ == survivors_upto(moved, n0));
            assert(tick_spec(bois0, centre, radius, dt as int)
                == survivors_upto(moved, n0));
            assert(self.wf());
        }
    }
}

impl MainState {
    /// A fresh simulation: `num_bois` entities spawned from a seeded
    /// nest (positions uniform per axis over the arena's bounding
    /// square, headings uniform over one turn, attributes from the
    /// standard template), and the index built over their positions.
    #[verifier::loop_isolation(false)]
    pub fn new(arena_radius: i64, num_bois: usize, seed: u64) -> (s: Self)
        requires
            1 <= arena_radius <= ARENA_LIMIT,
            num_bois <= crate::strategy::POP_LIMIT,
        ensures
            s.wf(),
            s.bois@.len() == num_bois,
            s.arena_radius == arena_radius,
            s.arena_centre == (Vec2 { x: 0, y: 0 }),
            forall|k: int| 0 <= k < num_bois ==> (#[trigger] s.bois@[k]).id == k,
            forall|k: int| 0 <= k < num_bois
                ==> -arena_radius <= (#[trigger] s.bois@[k]).position.x < arena_radius
                    && -arena_radius <= s.bois@[k].position.y < arena_radius
                    && 0 <= s.bois@[k].direction < 6283
                    && 2000 <= s.bois@[k].speed < 3000
                    && 2000 <= s.bois@[k].vision < 10000
                    && 100 <= s.bois@[k].turning_speed < 500,
    {
        let arena_centre = Vec2 { x: 0, y: 0 };
        let mut nest = crate::nest::Nest {
            rng: crate::nest::seed_rng(seed),
            pos_lo: -arena_radius,
            pos_hi: arena_radius,
            dir_lo: 0,
            dir_hi: crate::fix::TAU_MR,
            template: crate::nest::BoiTemplate {
                speed_lo: 2000,
                speed_hi: 3000,
                vision_lo: 2000,
                vision_hi: 10000,
                turning_lo: 100,
                turning_hi: 500,
            },
        };
        let mut bois: Vec<Boi> = Vec::new();
        let mut i: usize = 0;
        while i < num_bois
            invariant
                0 <= i <= num_bois,
                bois@.len() == i,
                nest.pos_lo == -arena_radius,
                nest.pos_hi == arena_radius,
                nest.dir_lo == 0,
                nest.dir_hi == 6283,
                nest.template == (crate::nest::BoiTemplate {
                    speed_lo: 2000int as i64,
                    speed_hi: 3000int as i64,
                    vision_lo: 2000int as i64,
                    vision_hi: 10000int as i64,
                    turning_lo: 100int as i64,
                    turning_hi: 500int as i64,
                }),
                nest.wf(),
                forall|k: int| 0 <= k < i ==> (#[trigger] bois@[k]).id == k,
                forall|k: int| 0 <= k < i ==> (#[trigger] bois@[k]).wf(),
                forall|k: int| 0 <= k < i
                    ==> -arena_radius <= (#[trigger] bois@[k]).position.x < arena_radius
                        && -arena_radius <= bois@[k].position.y < arena_radius
                        && 0 <= bois@[k].direction < 6283
                        && 2000 <= bois@[k].speed < 3000
                        && 2000 <= bois@[k].vision < 10000
                        && 100 <= bois@[k].turning_speed < 500,
            decreases num_bois - i,
        {
            let b = nest.spawn(i as u64);
            bois.push(b);
            i = i + 1;
        }
        let pts = positions_of(&bois);
        proof {
            assert forall|k: int| 0 <= k < pts@.len()
                implies crate::vec::in_coord_range(#[trigger] pts@[k]) by {
                assert(bois@[k].wf());
            }
        }
        let boi_index = SpatialIndex::build(pts);
        let s = MainState { bois, boi_index, arena_centre, arena_radius };
        proof {
            assert(s.wf());
        }
        s
    }

    /// Advances the simulation by `ticks` whole ticks of `dt`
    /// milliseconds each.
    #[verifier::loop_isolation(false)]
    pub fn run_ticks(&mut self, dt: u64, ticks: u64)
        requires
            old(self).wf(),
            1 <= dt <= DT_MAX,
        ensures
            final(self).wf(),
            final(self).bois@ == run_spec(
                old(self).bois@,
                old(self).arena_centre,
                old(self).arena_radius as int,
                dt as int,
                ticks as int,
            ),
            final(self).arena_centre == old(self).arena_centre,
            final(self).arena_radius == old(self).arena_radius,
    {
        let ghost bois0 = self.bois@;
        let ghost centre = self.arena_centre;
        let ghost radius = self.arena_radius as int;
        let mut t: u64 = 0;
        while t < ticks
            invariant
                0 <= t <= ticks,
                self.wf(),
                self.arena_centre == centre,
                self.arena_radius as int == radius,
                self.bois@ == run_spec(bois0, centre, radius, dt as int, t as int),
            decreases ticks - t,
        {
            self.update(dt);
            t = t + 1;
        }
    }

    /// The number of live entities.
    pub fn population(&self) -> (n: usize)
        ensures
            n == self.bois@.len(),
    {
        self.bois.len()
    }
}

} // verus!
