//! The steering strategy: the per-entity decision function.
//!
//! `decide` consumes a frozen world snapshot and produces one desired
//! direction vector from up to six weighted signals: separation,
//! alignment and cohesion over same-species neighbours, arena
//! containment, and chase/flight toward or away from the nearest
//! entity of the other species. This module holds the exact
//! specification of every signal and the lemmas relating the spatial
//! index to direct neighbour selection.

use vstd::prelude::*;
use crate::boi::{Boi, Species, POS_LIMIT};
use crate::fix::{
    contain_weight_spec, dirvec_spec, fdiv, iabs, isqrt_spec, lemma_fdiv_abs, lemma_fdiv_le_k,
    CONTAIN_EPS_MAX,
};
use crate::game::MainState;
use crate::spatial::{in_radius, radius_indices};
use crate::vec::{dist_sq, distance_spec, in_coord_range, norm_spec, Vec2};

verus! {

/// Largest admissible population size.
pub const POP_LIMIT: usize = 100_000;

/// The weight (in milli-units) of the chase and flight signals.
pub const CHASE_WEIGHT: i64 = 5000;

/// The neighbours of `me` among the first `n` entities: every entity
/// with a different identity whose position lies within `me`'s vision
/// radius, in population order.
pub open spec fn neighbors_upto(bois: Seq<Boi>, me: Boi, n: int) -> Seq<Boi>
    decreases n,
{
    if n <= 0 {
        Seq::empty()
    } else {
        let pre = neighbors_upto(bois, me, n - 1);
        let b = bois[n - 1];
        if b.id != me.id && in_radius(b.position, me.position, me.vision as int) {
            pre.push(b)
        } else {
            pre
        }
    }
}

/// The entities of species `sp` among the first `n` of `nbrs`.
pub open spec fn same_species_upto(nbrs: Seq<Boi>, sp: Species, n: int) -> Seq<Boi>
    decreases n,
{
    if n <= 0 {
        Seq::empty()
    } else {
        let pre = same_species_upto(nbrs, sp, n - 1);
        if nbrs[n - 1].species == sp {
            pre.push(nbrs[n - 1])
        } else {
            pre
        }
    }
}

/// The entities of a species other than `sp` among the first `n` of
/// `nbrs`.
pub open spec fn other_species_upto(nbrs: Seq<Boi>, sp: Species, n: int) -> Seq<Boi>
    decreases n,
{
    if n <= 0 {
        Seq::empty()
    } else {
        let pre = other_species_upto(nbrs, sp, n - 1);
        if nbrs[n - 1].species != sp {
            pre.push(nbrs[n - 1])
        } else {
            pre
        }
    }
}

/// One separation contribution: the unit vector away from the friend,
/// divided (in fixed point) by the distance, so that nearer friends
/// dominate. A distance rounded down to zero is treated as one
/// milli-unit.
pub open spec fn sep_term(me: Boi, b: Boi) -> (int, int) {
    let u = norm_spec(
        me.position.x - b.position.x,
        me.position.y - b.position.y,
    );
    let d = distance_spec(me.position, b.position);
    let dd = if d < 1 { 1int } else { d };
    (fdiv(u.0 * 1000, dd), fdiv(u.1 * 1000, dd))
}

/// The sum of the first `n` separation contributions.
pub open spec fn sep_sum(me: Boi, friends: Seq<Boi>, n: int) -> (int, int)
    decreases n,
{
    if n <= 0 {
        (0int, 0int)
    } else {
        let pre = sep_sum(me, friends, n - 1);
        let t = sep_term(me, friends[n - 1]);
        (pre.0 + t.0, pre.1 + t.1)
    }
}

/// The separation signal: absent without friends, else the normalised
/// sum of the contributions.
pub open spec fn separation_spec(me: Boi, friends: Seq<Boi>) -> Option<(int, int)> {
    if friends.len() == 0 {
        None
    } else {
        let s = sep_sum(me, friends, friends.len() as int);
        Some(norm_spec(s.0, s.1))
    }
}

/// The sum of the first `n` friends' heading unit vectors.
pub open spec fn align_sum(friends: Seq<Boi>, n: int) -> (int, int)
    decreases n,
{
    if n <= 0 {
        (0int, 0int)
    } else {
        let pre = align_sum(friends, n - 1);
        let t = dirvec_spec(friends[n - 1].direction as int);
        (pre.0 + t.0, pre.1 + t.1)
    }
}

/// The alignment signal: absent without friends, else the normalised
/// sum of their heading vectors.
pub open spec fn alignment_spec(friends: Seq<Boi>) -> Option<(int, int)> {
    if friends.len() == 0 {
        None
    } else {
        let s = align_sum(friends, friends.len() as int);
        Some(norm_spec(s.0, s.1))
    }
}

/// One cohesion contribution: the friend's position divided (in fixed
/// point) by the friend count, so the contributions sum to the
/// centroid.
pub open spec fn coh_term(b: Boi, nf: int) -> (int, int) {
    (fdiv(b.position.x * 1000, nf * 1000), fdiv(b.position.y * 1000, nf * 1000))
}

/// The sum of the first `n` cohesion contributions, with `nf` friends
/// in all.
pub open spec fn coh_sum(friends: Seq<Boi>, nf: int, n: int) -> (int, int)
    decreases n,
{
    if n <= 0 {
        (0int, 0int)
    } else {
        let pre = coh_sum(friends, nf, n - 1);
        let t = coh_term(friends[n - 1], nf);
        (pre.0 + t.0, pre.1 + t.1)
    }
}

/// The cohesion signal: absent without friends, else the normalised
/// vector from `me` toward the friends' centroid.
pub open spec fn cohesion_spec(me: Boi, friends: Seq<Boi>) -> Option<(int, int)> {
    if friends.len() == 0 {
        None
    } else {
        let s = coh_sum(friends, friends.len() as int, friends.len() as int);
        Some(norm_spec(s.0 - me.position.x, s.1 - me.position.y))
    }
}

/// The nearest entity of species `want` among the first `n` foes
/// (nearest by rounded Euclidean distance; the earliest wins a tie).
pub open spec fn nearest_spec(me: Boi, foes: Seq<Boi>, want: Species, n: int) -> Option<Boi>
    decreases n,
{
    if n <= 0 {
        None
    } else {
        let pre = nearest_spec(me, foes, want, n - 1);
        let b = foes[n - 1];
        if b.species != want {
            pre
        } else {
            match pre {
                None => Some(b),
                Some(c) => if distance_spec(me.position, b.position)
                    < distance_spec(me.position, c.position) {
                    Some(b)
                } else {
                    Some(c)
                },
            }
        }
    }
}

/// The attack signal: the unit vector toward the nearest Prey foe,
/// absent when there is none.
pub open spec fn attack_spec(me: Boi, foes: Seq<Boi>) -> Option<(int, int)> {
    match nearest_spec(me, foes, Species::Prey, foes.len() as int) {
        None => None,
        Some(b) => Some(norm_spec(
            b.position.x - me.position.x,
            b.position.y - me.position.y,
        )),
    }
}

/// The defence signal: the unit vector away from the nearest Predator
/// foe, absent when there is none.
pub open spec fn defend_spec(me: Boi, foes: Seq<Boi>) -> Option<(int, int)> {
    match nearest_spec(me, foes, Species::Predator, foes.len() as int) {
        None => None,
        Some(b) => Some(norm_spec(
            me.position.x - b.position.x,
            me.position.y - b.position.y,
        )),
    }
}

/// The containment signal: the unit vector toward the arena centre,
/// present exactly when the entity is strictly outside the arena.
pub open spec fn escape_spec(me: Boi, centre: Vec2, radius: int) -> Option<(int, int)> {
    if dist_sq(me.position, centre) > radius * radius {
        Some(norm_spec(centre.x - me.position.x, centre.y - me.position.y))
    } else {
        None
    }
}

/// The containment weight: the fixed-point `overshoot ^ 1.1`, where the
/// overshoot is the rounded distance past the arena radius (capped at
/// `CONTAIN_EPS_MAX`, far beyond any reachable overshoot). The value is
/// at scale `SCALE * SCALE`; the combination divides it by `SCALE` so it
/// weighs against the other signals at the common milli scale.
pub open spec fn escape_weight_spec(me: Boi, centre: Vec2, radius: int) -> int {
    let d = isqrt_spec(dist_sq(me.position, centre));
    let eps = if d - radius < 0 { 0int } else { d - radius };
    let capped = if eps > CONTAIN_EPS_MAX as int { CONTAIN_EPS_MAX as int } else { eps };
    contain_weight_spec(capped)
}

/// At the arena boundary (no overshoot) the containment weight is
/// exactly zero.
pub proof fn lemma_escape_weight_zero_at_boundary(me: Boi, centre: Vec2, radius: int)
    requires
        isqrt_spec(dist_sq(me.position, centre)) <= radius,
    ensures
        escape_weight_spec(me, centre, radius) == 0,
{
    crate::fix::lemma_contain_weight_zero();
}

/// The containment weight grows strictly with the overshoot: of two
/// entities beyond the boundary, the one further out gets the strictly
/// larger weight.
pub proof fn lemma_escape_weight_increasing(me1: Boi, me2: Boi, centre: Vec2, radius: int)
    requires
        radius <= isqrt_spec(dist_sq(me1.position, centre)),
        isqrt_spec(dist_sq(me1.position, centre))
            < isqrt_spec(dist_sq(me2.position, centre)),
        isqrt_spec(dist_sq(me2.position, centre)) - radius <= CONTAIN_EPS_MAX as int,
    ensures
        escape_weight_spec(me1, centre, radius)
            < escape_weight_spec(me2, centre, radius),
{
    let e1 = isqrt_spec(dist_sq(me1.position, centre)) - radius;
    let e2 = isqrt_spec(dist_sq(me2.position, centre)) - radius;
    crate::fix::lemma_contain_weight_strictly_increasing(e1, e2);
}

/// A signal scaled by its weight, in fixed point.
pub open spec fn weighted(sig: Option<(int, int)>, w: int) -> Option<(int, int)> {
    match sig {
        None => None,
        Some(v) => Some((fdiv(v.0 * w, 1000), fdiv(v.1 * w, 1000))),
    }
}

/// Adds a signal to an accumulated sum; an absent signal adds nothing.
pub open spec fn add_opt(acc: (int, int), s: Option<(int, int)>) -> (int, int) {
    match s {
        None => acc,
        Some(v) => (acc.0 + v.0, acc.1 + v.1),
    }
}

/// The complete decision: the weighted sum of the present signals,
/// renormalised; an entity with no signal at all -- or whose present
/// signals cancel or round to nothing -- keeps its current heading
/// direction.
pub open spec fn decide_spec(me: Boi, bois: Seq<Boi>, centre: Vec2, radius: int) -> (int, int) {
    let nbrs = neighbors_upto(bois, me, bois.len() as int);
    let friends = same_species_upto(nbrs, me.species, nbrs.len() as int);
    let foes = other_species_upto(nbrs, me.species, nbrs.len() as int);
    let sep = separation_spec(me, friends);
    let ali = alignment_spec(friends);
    let coh = cohesion_spec(me, friends);
    let esc = escape_spec(me, centre, radius);
    let att = attack_spec(me, foes);
    let def = defend_spec(me, foes);
    if sep is None && ali is None && coh is None && esc is None && att is None
        && def is None {
        dirvec_spec(me.direction as int)
    } else {
        let w_att: int = if me.species == Species::Predator { 5000 } else { 0 };
        let w_def: int = if me.species == Species::Prey { 5000 } else { 0 };
        let w_esc = fdiv(escape_weight_spec(me, centre, radius), 1000);
        let total = add_opt(
            add_opt(
                add_opt(
                    add_opt(
                        add_opt(
                            add_opt((0int, 0int), weighted(sep, 1000)),
                            weighted(ali, 1000),
                        ),
                        weighted(coh, 1000),
                    ),
                    weighted(esc, w_esc),
                ),
                weighted(att, w_att),
            ),
            weighted(def, w_def),
        );
        if total.0 == 0 && total.1 == 0 {
            dirvec_spec(me.direction as int)
        } else {
            norm_spec(total.0, total.1)
        }
    }
}

/// The entities picked out of `bois` by a sequence of indices, minus
/// `me` itself (by identity), in index order.
pub open spec fn gather_spec(bois: Seq<Boi>, idxs: Seq<usize>, me: Boi) -> Seq<Boi>
    decreases idxs.len(),
{
    if idxs.len() == 0 {
        Seq::empty()
    } else {
        let pre = gather_spec(bois, idxs.drop_last(), me);
        let b = bois[idxs.last() as int];
        if b.id != me.id {
            pre.push(b)
        } else {
            pre
        }
    }
}

/// Walking the spatial index's query result and dropping `me` yields
/// exactly the direct neighbour selection: the index adds nothing and
/// loses nothing.
pub proof fn lemma_gather_radius_eq(bois: Seq<Boi>, pts: Seq<Vec2>, me: Boi, n: int)
    requires
        pts.len() == bois.len(),
        forall|i: int| 0 <= i < bois.len() ==> pts[i] == #[trigger] bois[i].position,
        0 <= n <= bois.len(),
        bois.len() <= usize::MAX,
    ensures
        gather_spec(bois, radius_indices(pts, me.position, me.vision as int, n), me)
            == neighbors_upto(bois, me, n),
    decreases n,
{
    if n > 0 {
        lemma_gather_radius_eq(bois, pts, me, n - 1);
        let ri_pre = radius_indices(pts, me.position, me.vision as int, n - 1);
        let ri = radius_indices(pts, me.position, me.vision as int, n);
        if in_radius(pts[n - 1], me.position, me.vision as int) {
            assert(ri == ri_pre.push((n - 1) as usize));
            assert(ri.drop_last() =~= ri_pre);
            assert(ri.last() == (n - 1) as usize);
        } else {
            assert(ri == ri_pre);
        }
    }
}

/// An entity with no neighbour in sight has an empty neighbour
/// selection.
pub proof fn lemma_neighbors_empty(bois: Seq<Boi>, me: Boi, n: int)
    requires
        0 <= n <= bois.len(),
        forall|k: int| 0 <= k < bois.len() && (#[trigger] bois[k]).id != me.id
            ==> !in_radius(bois[k].position, me.position, me.vision as int),
    ensures
        neighbors_upto(bois, me, n) == Seq::<Boi>::empty(),
    decreases n,
{
    if n > 0 {
        lemma_neighbors_empty(bois, me, n - 1);
    }
}

/// An entity with zero neighbours that sits inside the arena decides to
/// keep its current heading direction.
pub proof fn lemma_decide_isolated(me: Boi, bois: Seq<Boi>, centre: Vec2, radius: int)
    requires
        forall|k: int| 0 <= k < bois.len() && (#[trigger] bois[k]).id != me.id
            ==> !in_radius(bois[k].position, me.position, me.vision as int),
        dist_sq(me.position, centre) <= radius * radius,
    ensures
        decide_spec(me, bois, centre, radius) == dirvec_spec(me.direction as int),
{
    lemma_neighbors_empty(bois, me, bois.len() as int);
    let nbrs = neighbors_upto(bois, me, bois.len() as int);
    assert(nbrs.len() == 0);
    assert(same_species_upto(nbrs, me.species, 0) == Seq::<Boi>::empty());
    assert(other_species_upto(nbrs, me.species, 0) == Seq::<Boi>::empty());
}

/// The neighbours of `me` in the live population, read through the
/// spatial index and filtered by identity.
#[verifier::loop_isolation(false)]
fn gather_neighbors(state: &MainState, me: &Boi) -> (nbrs: Vec<Boi>)
    requires
        state.wf(),
        me.wf(),
    ensures
        nbrs@ == neighbors_upto(state.bois@, *me, state.bois@.len() as int),
        forall|k: int| 0 <= k < nbrs@.len() ==> (#[trigger] nbrs@[k]).wf(),
        nbrs@.len() <= state.bois@.len(),
{
    proof {
        assert forall|i: int| 0 <= i < state.boi_index.pts@.len()
            implies in_coord_range(#[trigger] state.boi_index.pts@[i]) by {
            assert(state.bois@[i].wf());
        }
        assert(state.boi_index.wf());
    }
    let q: Vec<usize> = state.boi_index.query_radius(me.position, me.vision);
    proof {
        crate::spatial::lemma_radius_indices_complete(
            state.boi_index.pts@,
            me.position,
            me.vision as int,
            state.bois@.len() as int,
        );
    }
    let mut nbrs: Vec<Boi> = Vec::new();
    let mut j: usize = 0;
    while j < q.len()
        invariant
            0 <= j <= q@.len(),
            nbrs@ == gather_spec(state.bois@, q@.take(j as int), *me),
            nbrs@.len() <= j,
            forall|k: int| 0 <= k < nbrs@.len() ==> (#[trigger] nbrs@[k]).wf(),
        decreases q@.len() - j,
    {
        let bi: usize = q[j];
        let b = state.bois[bi];
        if b.id != me.id {
            nbrs.push(b);
        }
        proof {
            assert(q@.take(j as int + 1).drop_last() =~= q@.take(j as int));
            assert(q@.take(j as int + 1).last() == q@[j as int]);
        }
        j = j + 1;
    }
    proof {
        assert(q@.take(q@.len() as int) =~= q@);
        lemma_gather_radius_eq(
            state.bois@,
            state.boi_index.pts@,
            *me,
            state.bois@.len() as int,
        );
    }
    nbrs
}

/// Splits the neighbours into friends (same species) and foes (other
/// species), keeping order.
#[verifier::loop_isolation(false)]
fn split_species(nbrs: &Vec<Boi>, sp: Species) -> (pair: (Vec<Boi>, Vec<Boi>))
    requires
        forall|k: int| 0 <= k < nbrs@.len() ==> (#[trigger] nbrs@[k]).wf(),
    ensures
        pair.0@ == same_species_upto(nbrs@, sp, nbrs@.len() as int),
        pair.1@ == other_species_upto(nbrs@, sp, nbrs@.len() as int),
        pair.0@.len() + pair.1@.len() == nbrs@.len(),
        forall|k: int| 0 <= k < pair.0@.len() ==> (#[trigger] pair.0@[k]).wf(),
        forall|k: int| 0 <= k < pair.1@.len() ==> (#[trigger] pair.1@[k]).wf(),
{
    let mut friends: Vec<Boi> = Vec::new();
    let mut foes: Vec<Boi> = Vec::new();
    let mut k: usize = 0;
    while k < nbrs.len()
        invariant
            0 <= k <= nbrs@.len(),
            friends@ == same_species_upto(nbrs@, sp, k as int),
            foes@ == other_species_upto(nbrs@, sp, k as int),
            friends@.len() + foes@.len() == k,
            forall|t: int| 0 <= t < friends@.len() ==> (#[trigger] friends@[t]).wf(),
            forall|t: int| 0 <= t < foes@.len() ==> (#[trigger] foes@[t]).wf(),
        decreases nbrs@.len() - k,
    {
        let b = nbrs[k];
        if b.species == sp {
            friends.push(b);
        } else {
            foes.push(b);
        }
        k = k + 1;
    }
    (friends, foes)
}

/// The separation signal over the friends, executable.
#[verifier::loop_isolation(false)]
fn separation_signal(me: &Boi, friends: &Vec<Boi>) -> (s: Option<Vec2>)
    requires
        me.wf(),
        forall|k: int| 0 <= k < friends@.len() ==> (#[trigger] friends@[k]).wf(),
        friends@.len() <= POP_LIMIT as int,
    ensures
        (s is None) == (separation_spec(*me, friends@) is None),
        s matches Some(v) ==> separation_spec(*me, friends@)
            == Some((v.x as int, v.y as int)),
        s matches Some(v) ==> iabs(v.x as int) <= 1000 && iabs(v.y as int) <= 1000,
{
    let nf = friends.len();
    if nf == 0 {
        return None;
    }
    let mut acc = Vec2 { x: 0, y: 0 };
    let mut i: usize = 0;
    while i < nf
        invariant
            0 <= i <= nf,
            acc.x == sep_sum(*me, friends@, i as int).0,
            acc.y == sep_sum(*me, friends@, i as int).1,
            iabs(acc.x as int) <= 1_000_000 * i,
            iabs(acc.y as int) <= 1_000_000 * i,
        decreases nf - i,
    {
        let b = friends[i];
        let diff = me.position.sub(&b.position);
        let u = diff.normalise();
        let dvar = me.position.distance(&b.position);
        let dd: i64 = if dvar < 1 { 1 } else { dvar };
        proof {
            lemma_fdiv_abs((u.x as int) * 1000, dd as int);
            lemma_fdiv_abs((u.y as int) * 1000, dd as int);
        }
        let t = u.div(dd);
        acc = acc.add(&t);
        i = i + 1;
    }
    Some(acc.normalise())
}

/// The alignment signal over the friends, executable.
#[verifier::loop_isolation(false)]
fn alignment_signal(friends: &Vec<Boi>) -> (s: Option<Vec2>)
    requires
        forall|k: int| 0 <= k < friends@.len() ==> (#[trigger] friends@[k]).wf(),
        friends@.len() <= POP_LIMIT as int,
    ensures
        (s is None) == (alignment_spec(friends@) is None),
        s matches Some(v) ==> alignment_spec(friends@) == Some((v.x as int, v.y as int)),
        s matches Some(v) ==> iabs(v.x as int) <= 1000 && iabs(v.y as int) <= 1000,
{
    let nf = friends.len();
    if nf == 0 {
        return None;
    }
    let mut acc = Vec2 { x: 0, y: 0 };
    let mut i: usize = 0;
    while i < nf
        invariant
            0 <= i <= nf,
            acc.x == align_sum(friends@, i as int).0,
            acc.y == align_sum(friends@, i as int).1,
            iabs(acc.x as int) <= 1000 * i,
            iabs(acc.y as int) <= 1000 * i,
        decreases nf - i,
    {
        let b = friends[i];
        let t = b.direction_vector();
        acc = acc.add(&t);
        i = i + 1;
    }
    Some(acc.normalise())
}

/// The cohesion signal over the friends, executable.
#[verifier::loop_isolation(false)]
fn cohesion_signal(me: &Boi, friends: &Vec<Boi>) -> (s: Option<Vec2>)
    requires
        me.wf(),
        forall|k: int| 0 <= k < friends@.len() ==> (#[trigger] friends@[k]).wf(),
        friends@.len() <= POP_LIMIT as int,
    ensures
        (s is None) == (cohesion_spec(*me, friends@) is None),
        s matches Some(v) ==> cohesion_spec(*me, friends@) == Some((v.x as int, v.y as int)),
        s matches Some(v) ==> iabs(v.x as int) <= 1000 && iabs(v.y as int) <= 1000,
{
    let nf = friends.len();
    if nf == 0 {
        return None;
    }
    let ghost tb = POS_LIMIT as int / (nf as int) + 1;
    proof {
        vstd::arithmetic::div_mod::lemma_fundamental_div_mod(POS_LIMIT as int, nf as int);
        vstd::arithmetic::div_mod::lemma_mod_bound(POS_LIMIT as int, nf as int);
        vstd::arithmetic::div_mod::lemma_div_pos_is_pos(POS_LIMIT as int, nf as int);
    }
    let mut acc = Vec2 { x: 0, y: 0 };
    let mut i: usize = 0;
    while i < nf
        invariant
            0 <= i <= nf,
            acc.x == coh_sum(friends@, nf as int, i as int).0,
            acc.y == coh_sum(friends@, nf as int, i as int).1,
            iabs(acc.x as int) <= tb * i,
            iabs(acc.y as int) <= tb * i,
        decreases nf - i,
    {
        let b = friends[i];
        proof {
            assert(iabs((b.position.x as int) * 1000) <= tb * ((nf as int) * 1000))
                by (nonlinear_arith)
                requires
                    iabs(b.position.x as int) <= POS_LIMIT as int,
                    tb == POS_LIMIT as int / (nf as int) + 1,
                    (POS_LIMIT as int / (nf as int)) * (nf as int)
                        >= POS_LIMIT as int - (nf as int) + 1,
                    1 <= nf as int;
            assert(iabs((b.position.y as int) * 1000) <= tb * ((nf as int) * 1000))
                by (nonlinear_arith)
                requires
                    iabs(b.position.y as int) <= POS_LIMIT as int,
                    tb == POS_LIMIT as int / (nf as int) + 1,
                    (POS_LIMIT as int / (nf as int)) * (nf as int)
                        >= POS_LIMIT as int - (nf as int) + 1,
                    1 <= nf as int;
            lemma_fdiv_le_k((b.position.x as int) * 1000, (nf as int) * 1000, tb);
            lemma_fdiv_le_k((b.position.y as int) * 1000, (nf as int) * 1000, tb);
            assert(tb * (i as int) + tb == tb * (i as int + 1)) by (nonlinear_arith);
            assert(tb * (i as int + 1) <= tb * (nf as int)) by (nonlinear_arith)
                requires 0 < tb, i as int + 1 <= nf as int;
            assert(tb * (nf as int) <= POS_LIMIT as int + nf as int) by (nonlinear_arith)
                requires
                    tb == POS_LIMIT as int / (nf as int) + 1,
                    (POS_LIMIT as int / (nf as int)) * (nf as int) <= POS_LIMIT as int,
                    1 <= nf as int;
        }
        let t = b.position.div((nf as i64) * 1000);
        acc = acc.add(&t);
        i = i + 1;
    }
    proof {
        assert(tb * (nf as int) <= POS_LIMIT as int + nf as int) by (nonlinear_arith)
            requires
                tb == POS_LIMIT as int / (nf as int) + 1,
                (POS_LIMIT as int / (nf as int)) * (nf as int) <= POS_LIMIT as int,
                1 <= nf as int;
    }
    Some(acc.sub(&me.position).normalise())
}

/// The nearest foe of the wanted species, executable.
#[verifier::loop_isolation(false)]
fn nearest_foe(me: &Boi, foes: &Vec<Boi>, want: Species) -> (best: Option<Boi>)
    requires
        me.wf(),
        forall|k: int| 0 <= k < foes@.len() ==> (#[trigger] foes@[k]).wf(),
    ensures
        best == nearest_spec(*me, foes@, want, foes@.len() as int),
        best matches Some(b) ==> b.wf(),
{
    let mut best: Option<Boi> = None;
    let mut k: usize = 0;
    while k < foes.len()
        invariant
            0 <= k <= foes@.len(),
            best == nearest_spec(*me, foes@, want, k as int),
            best matches Some(b) ==> b.wf(),
        decreases foes@.len() - k,
    {
        let b = foes[k];
        if b.species == want {
            match best {
                None => {
                    best = Some(b);
                },
                Some(c) => {
                    let db = me.position.distance(&b.position);
                    let dc = me.position.distance(&c.position);
                    if db < dc {
                        best = Some(b);
                    }
                },
            }
        }
        k = k + 1;
    }
    best
}

/// The mathematical value of an optional signal vector.
pub open spec fn opt_view(o: Option<Vec2>) -> Option<(int, int)> {
    match o {
        None => None,
        Some(v) => Some((v.x as int, v.y as int)),
    }
}

/// The containment signal and its weight (brought down to the common
/// milli scale of the other signal weights), executable.
fn containment_signal(me: &Boi, centre: Vec2, radius: i64) -> (r: (Option<Vec2>, i64))
    requires
        me.wf(),
        iabs(centre.x as int) <= POS_LIMIT as int,
        iabs(centre.y as int) <= POS_LIMIT as int,
        0 <= radius <= 1_000_000_000,
    ensures
        opt_view(r.0) == escape_spec(*me, centre, radius as int),
        r.0 is Some ==> r.1 == fdiv(escape_weight_spec(*me, centre, radius as int), 1000),
        0 <= r.1 <= 5_000_000_000_000,
        r.0 matches Some(v) ==> iabs(v.x as int) <= 1000 && iabs(v.y as int) <= 1000,
{
    let dcx: i128 = (me.position.x as i128) - (centre.x as i128);
    let dcy: i128 = (me.position.y as i128) - (centre.y as i128);
    proof {
        assert(dcx * dcx <= 4_000_000_000_000_000_000_000_000_000_000
            && dcx * dcx >= 0) by (nonlinear_arith)
            requires -2_000_000_000_000_000 <= dcx <= 2_000_000_000_000_000;
        assert(dcy * dcy <= 4_000_000_000_000_000_000_000_000_000_000
            && dcy * dcy >= 0) by (nonlinear_arith)
            requires -2_000_000_000_000_000 <= dcy <= 2_000_000_000_000_000;
        assert((radius as i128) * (radius as i128)
            <= 1_000_000_000_000_000_000int) by (nonlinear_arith)
            requires 0 <= radius <= 1_000_000_000;
    }
    let dc_sq: i128 = dcx * dcx + dcy * dcy;
    let r_sq: i128 = (radius as i128) * (radius as i128);
    if dc_sq > r_sq {
        let ev = centre.sub(&me.position).normalise();
        let dvar = me.position.distance(&centre);
        let eps0: i64 = dvar - radius;
        let eps: i64 = if eps0 < 0 { 0 } else { eps0 };
        let capped: i64 = if eps > 1_000_000_000 { 1_000_000_000 } else { eps };
        let w = (crate::fix::contain_weight(capped as u64) / 1000) as i64;
        (Some(ev), w)
    } else {
        (None, 0)
    }
}

/// The weighted sum of the present signals, in the fixed order
/// separation, alignment, cohesion, containment, attack, defence.
pub open spec fn combine_spec(
    sep: Option<(int, int)>,
    ali: Option<(int, int)>,
    coh: Option<(int, int)>,
    esc: Option<(int, int)>,
    att: Option<(int, int)>,
    def: Option<(int, int)>,
    w_esc: int,
    w_att: int,
    w_def: int,
) -> (int, int) {
    add_opt(
        add_opt(
            add_opt(
                add_opt(
                    add_opt(
                        add_opt((0int, 0int), weighted(sep, 1000)),
                        weighted(ali, 1000),
                    ),
                    weighted(coh, 1000),
                ),
                weighted(esc, w_esc),
            ),
            weighted(att, w_att),
        ),
        weighted(def, w_def),
    )
}

/// Adds one weighted signal to the running sum; an absent signal adds
/// nothing, and a present one at most its weight per coordinate.
fn weighted_add(acc: Vec2, sig: Option<Vec2>, w: i64) -> (r: Vec2)
    requires
        sig matches Some(v) ==> iabs(v.x as int) <= 1000 && iabs(v.y as int) <= 1000,
        0 <= w <= 5_000_000_000_000,
        iabs(acc.x as int) <= 6_000_000_000_000,
        iabs(acc.y as int) <= 6_000_000_000_000,
    ensures
        r.x == add_opt((acc.x as int, acc.y as int), weighted(opt_view(sig), w as int)).0,
        r.y == add_opt((acc.x as int, acc.y as int), weighted(opt_view(sig), w as int)).1,
        iabs(r.x as int) <= iabs(acc.x as int) + w,
        iabs(r.y as int) <= iabs(acc.y as int) + w,
{
    match sig {
        None => acc,
        Some(v) => {
            proof {
                assert(iabs((v.x as int) * (w as int)) <= 1000 * (w as int))
                    by (nonlinear_arith)
                    requires iabs(v.x as int) <= 1000, 0 <= w;
                assert(iabs((v.y as int) * (w as int)) <= 1000 * (w as int))
                    by (nonlinear_arith)
                    requires iabs(v.y as int) <= 1000, 0 <= w;
                lemma_fdiv_le_k((v.x as int) * (w as int), 1000, w as int);
                lemma_fdiv_le_k((v.y as int) * (w as int), 1000, w as int);
            }
            acc.add(&v.mul(w))
        },
    }
}

/// Accumulates the weighted signal sum, executable.
fn combine_signals(
    sep: Option<Vec2>,
    ali: Option<Vec2>,
    coh: Option<Vec2>,
    esc: Option<Vec2>,
    att: Option<Vec2>,
    def: Option<Vec2>,
    w_esc: i64,
    w_att: i64,
    w_def: i64,
) -> (total: Vec2)
    requires
        sep matches Some(v) ==> iabs(v.x as int) <= 1000 && iabs(v.y as int) <= 1000,
        ali matches Some(v) ==> iabs(v.x as int) <= 1000 && iabs(v.y as int) <= 1000,
        coh matches Some(v) ==> iabs(v.x as int) <= 1000 && iabs(v.y as int) <= 1000,
        esc matches Some(v) ==> iabs(v.x as int) <= 1000 && iabs(v.y as int) <= 1000,
        att matches Some(v) ==> iabs(v.x as int) <= 1000 && iabs(v.y as int) <= 1000,
        def matches Some(v) ==> iabs(v.x as int) <= 1000 && iabs(v.y as int) <= 1000,
        0 <= w_esc <= 5_000_000_000_000,
        0 <= w_att <= 5000,
        0 <= w_def <= 5000,
    ensures
        total.x == combine_spec(
            opt_view(sep), opt_view(ali), opt_view(coh), opt_view(esc), opt_view(att),
            opt_view(def), w_esc as int, w_att as int, w_def as int).0,
        total.y == combine_spec(
            opt_view(sep), opt_view(ali), opt_view(coh), opt_view(esc), opt_view(att),
            opt_view(def), w_esc as int, w_att as int, w_def as int).1,
        iabs(total.x as int) <= 5_000_000_013_000,
        iabs(total.y as int) <= 5_000_000_013_000,
{
    let t0 = Vec2 { x: 0, y: 0 };
    let t1 = weighted_add(t0, sep, 1000);
    let t2 = weighted_add(t1, ali, 1000);
    let t3 = weighted_add(t2, coh, 1000);
    let t4 = weighted_add(t3, esc, w_esc);
    let t5 = weighted_add(t4, att, w_att);
    let t6 = weighted_add(t5, def, w_def);
    t6
}

impl Boi {
    /// The complete decision for this entity against the frozen world
    /// snapshot: one direction vector, as `decide_spec` states.
    #[verifier::rlimit(100)]
    pub fn decide(&self, state: &MainState) -> (d: Vec2)
        requires
            self.wf(),
            state.wf(),
        ensures
            d.x == decide_spec(
                *self, state.bois@, state.arena_centre, state.arena_radius as int).0,
            d.y == decide_spec(
                *self, state.bois@, state.arena_centre, state.arena_radius as int).1,
            iabs(d.x as int) <= 1000,
            iabs(d.y as int) <= 1000,
    {
        let nbrs = gather_neighbors(state, self);
        let (friends, foes) = split_species(&nbrs, self.species);
        let ghost friends_s = friends@;
        let ghost foes_s = foes@;
        let ghost centre = state.arena_centre;
        let ghost radius = state.arena_radius as int;

        let sep = separation_signal(self, &friends);
        let ali = alignment_signal(&friends);
        let coh = cohesion_signal(self, &friends);
        let att: Option<Vec2> = match nearest_foe(self, &foes, Species::Prey) {
            None => None,
            Some(b) => Some(b.position.sub(&self.position).normalise()),
        };
        let def: Option<Vec2> = match nearest_foe(self, &foes, Species::Predator) {
            None => None,
            Some(b) => Some(self.position.sub(&b.position).normalise()),
        };
        let (esc, esc_w) = containment_signal(self, state.arena_centre, state.arena_radius);
        proof {
            assert(opt_view(sep) == separation_spec(*self, friends_s));
            assert(opt_view(ali) == alignment_spec(friends_s));
            assert(opt_view(coh) == cohesion_spec(*self, friends_s));
            assert(opt_view(att) == attack_spec(*self, foes_s));
            assert(opt_view(def) == defend_spec(*self, foes_s));
        }

        let any = !(matches!(sep, None) && matches!(ali, None) && matches!(coh, None)
            && matches!(esc, None) && matches!(att, None) && matches!(def, None));
        if !any {
            let d = self.direction_vector();
            proof {
                assert(decide_spec(*self, state.bois@, centre, radius)
                    == dirvec_spec(self.direction as int));
            }
            return d;
        }

        let w_att: i64 = if matches!(self.species, Species::Predator) {
            CHASE_WEIGHT
        } else {
            0
        };
        let w_def: i64 = if matches!(self.species, Species::Prey) {
            CHASE_WEIGHT
        } else {
            0
        };
        let total = combine_signals(sep, ali, coh, esc, att, def, esc_w, w_att, w_def);
        proof {
            let ghost w_esc_s = fdiv(escape_weight_spec(*self, centre, radius), 1000);
            assert(weighted(opt_view(esc), esc_w as int)
                == weighted(escape_spec(*self, centre, radius), w_esc_s));
            let ghost totals = combine_spec(
                opt_view(sep), opt_view(ali), opt_view(coh), opt_view(esc),
                opt_view(att), opt_view(def), esc_w as int, w_att as int,
                w_def as int);
            assert(decide_spec(*self, state.bois@, centre, radius)
                == if totals.0 == 0 && totals.1 == 0 {
                    dirvec_spec(self.direction as int)
                } else {
                    norm_spec(totals.0, totals.1)
                });
        }
        let d = if total.x == 0 && total.y == 0 {
            self.direction_vector()
        } else {
            total.normalise()
        };
        d
    }
}

} // verus!
