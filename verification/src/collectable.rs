//! Falling collectibles: a box with a polarity, integrated each frame
//! under a constant per-object acceleration.

use vstd::prelude::*;

use crate::math::{
    Bounds2D, Vec2, COORD_LIMIT, SPEED_LIMIT, UNIT, abs_int, spec_step_sat, step_sat,
};

verus! {

/// A falling collectible. `hurtful` objects cost the player a boost on
/// contact; helpful ones grant two.
#[derive(Clone, Copy, PartialEq, Eq, Structural, Debug)]
pub struct JumpBoost {
    pub bounds: Bounds2D,
    pub hurtful: bool,
    pub velocity: Vec2,
    pub acceleration: Vec2,
}

impl JumpBoost {
    /// Well-formed: coordinates, size, velocity and acceleration inside
    /// the model's bounds; every operation below preserves this.
    pub open spec fn wf(self) -> bool {
        &&& abs_int(self.bounds.top_left.x as int) <= COORD_LIMIT
        &&& abs_int(self.bounds.top_left.y as int) <= COORD_LIMIT
        &&& 0 <= self.bounds.size.x <= UNIT
        &&& 0 <= self.bounds.size.y <= UNIT
        &&& abs_int(self.velocity.x as int) <= SPEED_LIMIT
        &&& abs_int(self.velocity.y as int) <= SPEED_LIMIT
        &&& abs_int(self.acceleration.x as int) <= UNIT
        &&& abs_int(self.acceleration.y as int) <= UNIT
    }

    pub fn new(position: Vec2, size: Vec2, hurtful: bool, acceleration: Vec2) -> (b: JumpBoost)
        requires
            abs_int(position.x as int) <= COORD_LIMIT,
            abs_int(position.y as int) <= COORD_LIMIT,
            0 <= size.x <= UNIT,
            0 <= size.y <= UNIT,
            abs_int(acceleration.x as int) <= UNIT,
            abs_int(acceleration.y as int) <= UNIT,
        ensures
            b.bounds.top_left == position,
            b.bounds.size == size,
            b.hurtful == hurtful,
            b.velocity.x == 0 && b.velocity.y == 0,
            b.acceleration == acceleration,
            b.wf(),
    {
        JumpBoost {
            bounds: Bounds2D::new(position, size),
            hurtful,
            velocity: Vec2::zero(),
            acceleration,
        }
    }

    /// The velocity after one frame: `v + a * dt`, saturated.
    pub open spec fn spec_vel_after(self, dt_ms: int) -> Vec2 {
        Vec2 {
            x: spec_step_sat(
                self.velocity.x as int,
                self.acceleration.x as int,
                dt_ms,
                SPEED_LIMIT as int,
            ) as i64,
            y: spec_step_sat(
                self.velocity.y as int,
                self.acceleration.y as int,
                dt_ms,
                SPEED_LIMIT as int,
            ) as i64,
        }
    }

    /// The position after one frame: `p + v' * dt`, saturated.
    pub open spec fn spec_pos_after(self, dt_ms: int) -> Vec2 {
        let v = self.spec_vel_after(dt_ms);
        Vec2 {
            x: spec_step_sat(
                self.bounds.top_left.x as int,
                v.x as int,
                dt_ms,
                COORD_LIMIT as int,
            ) as i64,
            y: spec_step_sat(
                self.bounds.top_left.y as int,
                v.y as int,
                dt_ms,
                COORD_LIMIT as int,
            ) as i64,
        }
    }

    /// The whole frame's effect on a collectible.
    pub open spec fn spec_updated(self, dt_ms: int) -> JumpBoost {
        JumpBoost {
            bounds: Bounds2D { top_left: self.spec_pos_after(dt_ms), size: self.bounds.size },
            hurtful: self.hurtful,
            velocity: self.spec_vel_after(dt_ms),
            acceleration: self.acceleration,
        }
    }

    /// Integrate one frame: accelerate, then move by the new velocity.
    pub fn update(&mut self, dt_ms: u32)
        ensures
            *final (self) == old(self).spec_updated(dt_ms as int),
            old(self).wf() ==> final (self).wf(),
    {
        self.velocity.x = step_sat(self.velocity.x, self.acceleration.x, dt_ms, SPEED_LIMIT);
        self.velocity.y = step_sat(self.velocity.y, self.acceleration.y, dt_ms, SPEED_LIMIT);
        self.bounds.top_left.x = step_sat(
            self.bounds.top_left.x,
            self.velocity.x,
            dt_ms,
            COORD_LIMIT,
        );
        self.bounds.top_left.y = step_sat(
            self.bounds.top_left.y,
            self.velocity.y,
            dt_ms,
            COORD_LIMIT,
        );
    }
}

} // verus!
