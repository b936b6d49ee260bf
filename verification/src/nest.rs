//! The entity factory: spawns entities at sampled positions, headings
//! and attributes, with a weighted species choice, from a seedable
//! uniform random source.
//!
//! The random draws come from the rand crate through trusted wrappers;
//! everything proved downstream holds for every value the source can
//! return.

use vstd::prelude::*;
use crate::boi::{Boi, Species, HEAD_LIMIT, POS_LIMIT, SPEED_LIMIT, TURN_LIMIT, VISION_LIMIT};
use crate::fix::iabs;
use crate::vec::Vec2;

verus! {

#[verifier::external_type_specification]
#[verifier::external_body]
pub struct ExStdRng(rand::rngs::StdRng);

/// Relies on rand's `SeedableRng::seed_from_u64` for `StdRng`: builds a
/// pseudo-random generator from a 64-bit seed.
#[verifier::external_body]
pub(crate) fn seed_rng(seed: u64) -> (rng: rand::rngs::StdRng) {
    <rand::rngs::StdRng as rand::SeedableRng>::seed_from_u64(seed)
}

/// Relies on rand's `Rng::gen_range`: a uniform draw from `[lo, hi)`,
/// which panics only on an empty range.
#[verifier::external_body]
fn rand_range(rng: &mut rand::rngs::StdRng, lo: u64, hi: u64) -> (r: u64)
    requires
        lo < hi,
    ensures
        lo <= r < hi,
{
    rand::Rng::gen_range(rng, lo..hi)
}

/// The per-species attribute ranges an entity is sampled from; each
/// attribute is uniform over `[lo, hi)`.
#[derive(Debug, Clone, Copy, PartialEq, Eq, Structural)]
pub struct BoiTemplate {
    pub speed_lo: i64,
    pub speed_hi: i64,
    pub vision_lo: i64,
    pub vision_hi: i64,
    pub turning_lo: i64,
    pub turning_hi: i64,
}

impl BoiTemplate {
    /// Non-empty ranges within the entity's admissible bounds.
    pub open spec fn wf(self) -> bool {
        &&& 0 <= self.speed_lo < self.speed_hi <= SPEED_LIMIT
        &&& 0 <= self.vision_lo < self.vision_hi <= VISION_LIMIT
        &&& 0 <= self.turning_lo < self.turning_hi <= TURN_LIMIT
    }

    /// Spawns one entity at the given position and heading: the species
    /// is a weighted choice (Predator weight 1, Prey weight 5), the
    /// attributes are sampled from this template's ranges.
    pub fn spawn(&self, rng: &mut rand::rngs::StdRng, position: &Vec2, facing: i64, id: u64)
        -> (b: Boi)
        requires
            self.wf(),
            iabs(position.x as int) <= POS_LIMIT as int,
            iabs(position.y as int) <= POS_LIMIT as int,
            iabs(facing as int) <= HEAD_LIMIT as int,
        ensures
            b.id == id,
            b.position == *position,
            b.direction == facing,
            self.speed_lo <= b.speed < self.speed_hi,
            self.vision_lo <= b.vision < self.vision_hi,
            self.turning_lo <= b.turning_speed < self.turning_hi,
            b.species == Species::Predator || b.species == Species::Prey,
            b.wf(),
    {
        let w = rand_range(rng, 0, 6);
        let species = if w == 0 {
            Species::Predator
        } else {
            Species::Prey
        };
        let speed = self.speed_lo
            + rand_range(rng, 0, (self.speed_hi - self.speed_lo) as u64) as i64;
        let vision = self.vision_lo
            + rand_range(rng, 0, (self.vision_hi - self.vision_lo) as u64) as i64;
        let turning_speed = self.turning_lo
            + rand_range(rng, 0, (self.turning_hi - self.turning_lo) as u64) as i64;
        Boi {
            id,
            species,
            position: *position,
            direction: facing,
            speed,
            vision,
            turning_speed,
        }
    }
}

/// The nest: samples a position and heading for each new entity and
/// lets the template fill in the rest.
pub struct Nest {
    pub rng: rand::rngs::StdRng,
    pub pos_lo: i64,
    pub pos_hi: i64,
    pub dir_lo: i64,
    pub dir_hi: i64,
    pub template: BoiTemplate,
}

impl Nest {
    /// Non-empty sampling ranges within the admissible bounds.
    pub open spec fn wf(self) -> bool {
        &&& -(POS_LIMIT as int) <= self.pos_lo < self.pos_hi <= POS_LIMIT as int
        &&& 0 <= self.dir_lo < self.dir_hi <= HEAD_LIMIT as int
        &&& self.template.wf()
    }

    /// Spawns one entity: position uniform per axis over
    /// `[pos_lo, pos_hi)`, heading uniform over `[dir_lo, dir_hi)`,
    /// everything else from the template.
    pub fn spawn(&mut self, id: u64) -> (b: Boi)
        requires
            old(self).wf(),
        ensures
            final(self).pos_lo == old(self).pos_lo,
            final(self).pos_hi == old(self).pos_hi,
            final(self).dir_lo == old(self).dir_lo,
            final(self).dir_hi == old(self).dir_hi,
            final(self).template == old(self).template,
            final(self).wf(),
            b.id == id,
            old(self).pos_lo <= b.position.x < old(self).pos_hi,
            old(self).pos_lo <= b.position.y < old(self).pos_hi,
            old(self).dir_lo <= b.direction < old(self).dir_hi,
            old(self).template.speed_lo <= b.speed < old(self).template.speed_hi,
            old(self).template.vision_lo <= b.vision < old(self).template.vision_hi,
            old(self).template.turning_lo <= b.turning_speed
                < old(self).template.turning_hi,
            b.species == Species::Predator || b.species == Species::Prey,
            b.wf(),
    {
        let span: u64 = (self.pos_hi - self.pos_lo) as u64;
        let px = self.pos_lo + rand_range(&mut self.rng, 0, span) as i64;
        let py = self.pos_lo + rand_range(&mut self.rng, 0, span) as i64;
        let dspan: u64 = (self.dir_hi - self.dir_lo) as u64;
        let facing = self.dir_lo + rand_range(&mut self.rng, 0, dspan) as i64;
        let position = Vec2 { x: px, y: py };
        let template = self.template;
        template.spawn(&mut self.rng, &position, facing, id)
    }
}

} // verus!
