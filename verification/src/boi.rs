//! The agent ("boi") record: species, pose and fixed attributes, and the
//! heading update that applies a steering decision at a bounded angular
//! rate.

use vstd::prelude::*;
use crate::fix::{atan2_spec, cos_mr, cos_mr_spec, emod_tau, iabs, sin_mr, sin_mr_spec};
use crate::vec::Vec2;

verus! {

/// The two kinds of agent in the simulation.
#[derive(Debug, Clone, Copy, PartialEq, Eq, Structural)]
pub enum Species {
    Predator,
    Prey,
}

/// Largest admissible coordinate magnitude for an entity position, in
/// milli-units.
pub const POS_LIMIT: i64 = 1_000_000_000_000_000;

/// Largest admissible heading magnitude, in milli-radians. Headings are
/// not reduced after a turn, so they drift; past this bound (which no
/// realistic run reaches) they are pulled back into one turn.
pub const HEAD_LIMIT: i64 = 4_000_000_000_000_000_000;

/// Largest admissible speed, in milli-units per second.
pub const SPEED_LIMIT: i64 = 1_000_000;

/// Largest admissible vision radius, in milli-units.
pub const VISION_LIMIT: i64 = 1_000_000_000;

/// Largest admissible turning speed, in milli-radians per second.
pub const TURN_LIMIT: i64 = 1_000_000;

/// Largest admissible time step, in milliseconds.
pub const DT_MAX: u64 = 10_000;

/// An agent. `position` and `direction` change every tick; the other
/// fields are fixed at spawn. `id` is the stable identity used to skip
/// an entity's own entry in neighbour queries.
#[derive(Debug, Clone, Copy, PartialEq, Eq, Structural)]
pub struct Boi {
    pub id: u64,
    pub species: Species,
    pub position: Vec2,
    /// Heading in milli-radians; grows or shrinks freely as the entity
    /// turns.
    pub direction: i64,
    /// Speed in milli-units per second.
    pub speed: i64,
    /// Vision radius in milli-units.
    pub vision: i64,
    /// Bound on the turning rate, in milli-radians per second.
    pub turning_speed: i64,
}

impl Boi {
    /// All fields within the admissible ranges.
    pub open spec fn wf(self) -> bool {
        &&& iabs(self.position.x as int) <= POS_LIMIT as int
        &&& iabs(self.position.y as int) <= POS_LIMIT as int
        &&& iabs(self.direction as int) <= HEAD_LIMIT as int
        &&& 0 <= self.speed <= SPEED_LIMIT
        &&& 0 <= self.vision <= VISION_LIMIT
        &&& 0 <= self.turning_speed <= TURN_LIMIT
    }

    /// The unit vector (at scale `SCALE`) the boi is facing.
    pub fn direction_vector(&self) -> (r: Vec2)
        requires
            iabs(self.direction as int) <= HEAD_LIMIT as int,
        ensures
            r.x == cos_mr_spec(self.direction as int),
            r.y == sin_mr_spec(self.direction as int),
            iabs(r.x as int) <= 1000,
            iabs(r.y as int) <= 1000,
    {
        Vec2 { x: cos_mr(self.direction), y: sin_mr(self.direction) }
    }
}

/// The heading after one action step: the gap to the target direction is
/// wrapped into one turn, folded back across a half turn (the
/// `pi - delta` correction, a deliberate steering policy that differs
/// from the conventional shortest-arc formula for gaps near a full
/// turn), clamped to `turning_speed * dt`, and added to the heading. A
/// heading pushed past `HEAD_LIMIT` is pulled back into a single turn.
pub open spec fn act_spec(h: int, ts: int, dt: int, dx: int, dy: int) -> int {
    let target = atan2_spec(dy, dx);
    let dm = (target - h) % 6283;
    let delta = if dm > 3141 {
        3141 - dm
    } else {
        dm
    };
    let limit = (ts * dt) / 1000;
    let clamped = if delta >= 0 {
        if delta <= limit {
            delta
        } else {
            limit
        }
    } else {
        if -delta <= limit {
            delta
        } else {
            -limit
        }
    };
    let nh = h + clamped;
    if iabs(nh) <= HEAD_LIMIT as int {
        nh
    } else {
        nh % 6283
    }
}

impl Boi {
    /// Turns the heading toward `direction` by at most
    /// `turning_speed * dt / 1000` milli-radians; everything else is
    /// unchanged.
    pub fn action(&mut self, dt: u64, direction: &Vec2)
        requires
            old(self).wf(),
            1 <= dt <= DT_MAX,
            direction.x > i64::MIN,
            direction.y > i64::MIN,
        ensures
            final(self).direction == act_spec(
                old(self).direction as int,
                old(self).turning_speed as int,
                dt as int,
                direction.x as int,
                direction.y as int,
            ),
            final(self).id == old(self).id,
            final(self).species == old(self).species,
            final(self).position == old(self).position,
            final(self).speed == old(self).speed,
            final(self).vision == old(self).vision,
            final(self).turning_speed == old(self).turning_speed,
            final(self).wf(),
    {
        let target: i64 = direction.direction_radians();
        let dm: u64 = emod_tau(target - self.direction);
        proof {
            vstd::arithmetic::div_mod::lemma_mod_bound(
                target as int - self.direction as int, 6283);
        }
        let delta: i64 = if dm > 3141 {
            3141 - (dm as i64)
        } else {
            dm as i64
        };
        proof {
            assert((self.turning_speed as int) * (dt as int) <= 10_000_000_000int)
                by (nonlinear_arith)
                requires 0 <= self.turning_speed <= 1_000_000, 0 <= dt <= 10_000;
            crate::fix::lemma_div_bound(
                (self.turning_speed as int) * (dt as int), 10_000_000, 1000);
        }
        let limit: i64 = (((self.turning_speed as u64) * dt) / 1000) as i64;
        let clamped: i64 = if delta >= 0 {
            if delta <= limit {
                delta
            } else {
                limit
            }
        } else {
            if -delta <= limit {
                delta
            } else {
                -limit
            }
        };
        let nh: i64 = self.direction + clamped;
        if nh > HEAD_LIMIT || nh < -HEAD_LIMIT {
            self.direction = emod_tau(nh) as i64;
        } else {
            self.direction = nh;
        }
    }
}

/// One action step never changes the heading by more than
/// `turning_speed * dt / 1000` milli-radians, however large the angular
/// gap to the target is (stated away from the heading-magnitude guard,
/// which no bounded run reaches).
pub proof fn lemma_action_turn_bounded(h: int, ts: int, dt: int, dx: int, dy: int)
    requires
        0 <= ts,
        0 <= dt,
        iabs(h) <= HEAD_LIMIT as int - 3142,
    ensures
        iabs(act_spec(h, ts, dt, dx, dy) - h) <= (ts * dt) / 1000,
{
    let target = atan2_spec(dy, dx);
    vstd::arithmetic::div_mod::lemma_mod_bound(target - h, 6283);
    let limit = (ts * dt) / 1000;
    assert(limit >= 0) by {
        assert(ts * dt >= 0) by (nonlinear_arith)
            requires ts >= 0, dt >= 0;
        vstd::arithmetic::div_mod::lemma_mod_bound(ts * dt, 1000);
        vstd::arithmetic::div_mod::lemma_fundamental_div_mod(ts * dt, 1000);
        assert(1000 * limit == ts * dt - (ts * dt) % 1000);
    }
}

} // verus!
