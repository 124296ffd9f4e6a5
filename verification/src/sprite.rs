//! The player sprite: pointer-directed boost impulses, gravity, border
//! bounce, velocity clamping and damping, and position clamping, all in
//! fixed-point units.

use vstd::prelude::*;

use crate::math::{
    Bounds2D, Vec2, COORD_LIMIT, UNIT, abs_int, clamp_i64, clamp_int, clamp_speed, div_trunc,
    isqrt_u64, lemma_abs_div_trunc, normalize_dir, spec_clamp_speed, spec_isqrt, spec_normalize,
    spec_step_sat, step_sat,
};
use crate::timer::Timer;

verus! {

/// Largest per-axis speed the sprite can keep after clamping, in units
/// per second.
pub const SPRITE_VEL_MAX: i64 = 10_000_000;

/// Downward velocity gained each frame.
pub const GRAVITY_PER_FRAME: i64 = 150_000;

/// Scalar applied to the normalized pointer direction on a boost.
pub const BOOST_SPEED_INCREASE: i64 = 20;

/// The two discrete view radii, in units.
pub const VIEW_RADIUS_LARGE: i64 = 468_750;

pub const VIEW_RADIUS_SMALL: i64 = 138_888;

/// Milliseconds between two boosts.
pub const BOOST_COOLDOWN_MS: u64 = 500;

/// Boosts a fresh sprite starts with.
pub const START_BOOST_COUNT: i32 = 10;

/// The player sprite's size and starting position, in units.
pub const SPRITE_SIZE_X: i64 = 117_187;

pub const SPRITE_SIZE_Y: i64 = 208_333;

pub const SPRITE_START_X: i64 = 500_000;

pub const SPRITE_START_Y: i64 = 500_000;

/// Side effects a frame asks of the audio collaborator.
#[derive(Clone, Copy, PartialEq, Eq, Structural, Debug)]
pub struct SpriteEffects {
    pub boost_sound: bool,
    pub bounce_sound: bool,
}

pub struct Sprite {
    pub boost_counter: i32,
    pub view_radius: i64,
    pub position: Vec2,
    pub size: Vec2,
    pub velocity: Vec2,
    pub boost_timer: Timer,
    pub boost_cooldown_ms: u64,
}

impl Sprite {
    /// Well-formed: on screen horizontally, at or below the top edge,
    /// speed within the clamp, a nonnegative boost stock, and one of
    /// the two view radii.
    pub open spec fn wf(self) -> bool {
        &&& 0 <= self.boost_counter
        &&& self.view_radius == VIEW_RADIUS_SMALL || self.view_radius == VIEW_RADIUS_LARGE
        &&& 0 < self.size.x <= UNIT / 2
        &&& 0 < self.size.y <= UNIT / 2
        &&& 0 <= self.position.x <= UNIT - self.size.x
        &&& 0 <= self.position.y <= COORD_LIMIT
        &&& abs_int(self.velocity.x as int) <= SPRITE_VEL_MAX
        &&& abs_int(self.velocity.y as int) <= SPRITE_VEL_MAX
    }

    pub open spec fn spec_bounds(self) -> Bounds2D {
        Bounds2D { top_left: self.position, size: self.size }
    }

    /// The sprite a fresh round starts with: centered, still, with the
    /// large view radius and the full boost stock.
    pub open spec fn spec_initial(now_ms: u64) -> Sprite {
        Sprite {
            boost_counter: START_BOOST_COUNT,
            view_radius: VIEW_RADIUS_LARGE,
            position: Vec2 { x: SPRITE_START_X, y: SPRITE_START_Y },
            size: Vec2 { x: SPRITE_SIZE_X, y: SPRITE_SIZE_Y },
            velocity: Vec2 { x: 0, y: 0 },
            boost_timer: Timer { start_ms: now_ms },
            boost_cooldown_ms: BOOST_COOLDOWN_MS,
        }
    }

    pub fn new(position: Vec2, size: Vec2, starting_view_radius: i64, now_ms: u64) -> (s: Sprite)
        requires
            0 < size.x <= UNIT / 2,
            0 < size.y <= UNIT / 2,
            0 <= position.x <= UNIT - size.x,
            0 <= position.y <= COORD_LIMIT,
            starting_view_radius == VIEW_RADIUS_SMALL || starting_view_radius
                == VIEW_RADIUS_LARGE,
        ensures
            s.boost_counter == START_BOOST_COUNT,
            s.view_radius == starting_view_radius,
            s.position == position,
            s.size == size,
            s.velocity.x == 0 && s.velocity.y == 0,
            s.boost_timer.start_ms == now_ms,
            s.boost_cooldown_ms == BOOST_COOLDOWN_MS,
            s.wf(),
    {
        Sprite {
            boost_counter: START_BOOST_COUNT,
            view_radius: starting_view_radius,
            position,
            size,
            velocity: Vec2::zero(),
            boost_timer: Timer::new(now_ms),
            boost_cooldown_ms: BOOST_COOLDOWN_MS,
        }
    }

    pub fn get_bounds(&self) -> (b: Bounds2D)
        ensures
            b == self.spec_bounds(),
    {
        Bounds2D::new(self.position, self.size)
    }

    /// The sprite's center, components rounded down.
    pub open spec fn spec_center(self) -> Vec2 {
        Vec2 {
            x: (self.position.x + self.size.x / 2) as i64,
            y: (self.position.y + self.size.y / 2) as i64,
        }
    }

    /// Direction from the center toward the pointer.
    pub open spec fn spec_dir(self, pointer: Vec2) -> Vec2 {
        Vec2 {
            x: (pointer.x - self.spec_center().x) as i64,
            y: (pointer.y - self.spec_center().y) as i64,
        }
    }

    /// A boost fires when the pointer gives a direction, the key is
    /// down, the cooldown has passed, and a boost is in stock.
    pub open spec fn spec_boost_fires(
        self,
        pointer: Vec2,
        boost_pressed: bool,
        now_ms: int,
    ) -> bool {
        &&& !self.spec_dir(pointer).is_zero()
        &&& boost_pressed
        &&& now_ms - self.boost_timer.start_ms >= self.boost_cooldown_ms
        &&& self.boost_counter > 0
    }

    /// Velocity after the boost impulse (if any) and gravity.
    pub open spec fn spec_vel_after_input(
        self,
        pointer: Vec2,
        boost_pressed: bool,
        now_ms: int,
    ) -> Vec2 {
        let v = if self.spec_boost_fires(pointer, boost_pressed, now_ms) {
            let n = spec_normalize(self.spec_dir(pointer));
            Vec2 {
                x: (self.velocity.x + n.x * BOOST_SPEED_INCREASE) as i64,
                y: (self.velocity.y + n.y * BOOST_SPEED_INCREASE) as i64,
            }
        } else {
            self.velocity
        };
        Vec2 { x: v.x, y: (v.y + GRAVITY_PER_FRAME) as i64 }
    }

    /// Unit force away from any touched border: left and right edges
    /// push back along x, the top edge pushes down.
    pub open spec fn spec_border_force(self) -> Vec2 {
        let fx: i64 = if self.position.x == 0 {
            1
        } else if self.position.x == UNIT - self.size.x {
            -1i64
        } else {
            0
        };
        let fy: i64 = if self.position.y == 0 {
            1
        } else {
            0
        };
        Vec2 { x: fx, y: fy }
    }

    /// Velocity after the border bounce: the normalized force scaled by
    /// twice the current speed.
    pub open spec fn spec_vel_after_border(self, v: Vec2) -> Vec2 {
        let f = self.spec_border_force();
        if f.is_zero() {
            v
        } else {
            let speed = spec_isqrt(v.len_sq() as nat) as int;
            let n = spec_normalize(Vec2 { x: (f.x * UNIT) as i64, y: (f.y * UNIT) as i64 });
            Vec2 {
                x: (v.x + div_trunc(n.x * (2 * speed), UNIT as int)) as i64,
                y: (v.y + div_trunc(n.y * (2 * speed), UNIT as int)) as i64,
            }
        }
    }

    /// The whole frame: impulse, gravity, bounce, the clamp of the
    /// velocity's magnitude to the maximum speed, move, damping,
    /// position clamp; plus the boost bookkeeping.
    pub open spec fn spec_update(
        self,
        dt_ms: int,
        pointer: Vec2,
        boost_pressed: bool,
        now_ms: int,
    ) -> Sprite {
        let fires = self.spec_boost_fires(pointer, boost_pressed, now_ms);
        let v2 = self.spec_vel_after_input(pointer, boost_pressed, now_ms);
        let v3 = self.spec_vel_after_border(v2);
        let v4 = spec_clamp_speed(v3, SPRITE_VEL_MAX as int);
        let p1 = Vec2 {
            x: spec_step_sat(self.position.x as int, v4.x as int, dt_ms, COORD_LIMIT as int)
                as i64,
            y: spec_step_sat(self.position.y as int, v4.y as int, dt_ms, COORD_LIMIT as int)
                as i64,
        };
        let v5 = Vec2 {
            x: div_trunc(v4.x * 99, 100) as i64,
            y: div_trunc(v4.y * 99, 100) as i64,
        };
        let p2 = Vec2 {
            x: clamp_int(p1.x as int, 0, UNIT - self.size.x) as i64,
            y: clamp_int(p1.y as int, 0, COORD_LIMIT as int) as i64,
        };
        Sprite {
            boost_counter: if fires {
                (self.boost_counter - 1) as i32
            } else {
                self.boost_counter
            },
            boost_timer: if fires {
                Timer { start_ms: now_ms as u64 }
            } else {
                self.boost_timer
            },
            position: p2,
            velocity: v5,
            ..self
        }
    }

    /// Advance the sprite one frame from the sampled inputs: the
    /// pointer position (in units), whether the boost key is down, and
    /// the current instant.
    #[verifier::rlimit(100)]
    pub fn update(&mut self, dt_ms: u32, pointer: Vec2, boost_pressed: bool, now_ms: u64) -> (
        effects: SpriteEffects)
        requires
            old(self).wf(),
            old(self).boost_timer.start_ms <= now_ms,
            abs_int(pointer.x as int) <= COORD_LIMIT,
            abs_int(pointer.y as int) <= COORD_LIMIT,
        ensures
            *final (self) == old(self).spec_update(
                dt_ms as int,
                pointer,
                boost_pressed,
                now_ms as int,
            ),
            effects.boost_sound == old(self).spec_boost_fires(
                pointer,
                boost_pressed,
                now_ms as int,
            ),
            effects.bounce_sound == !old(self).spec_border_force().is_zero(),
            final (self).wf(),
    {
        let ghost s0 = *self;
        let cx: i64 = self.position.x + self.size.x / 2;
        let cy: i64 = self.position.y + self.size.y / 2;
        let dir = Vec2::new(pointer.x - cx, pointer.y - cy);
        proof {
            assert(dir == s0.spec_dir(pointer));
        }
        let mut boost_sound = false;
        if !(dir.x == 0 && dir.y == 0) && boost_pressed && self.boost_timer.has_elapsed(
            now_ms,
            self.boost_cooldown_ms,
        ) && self.boost_counter > 0 {
            let n = normalize_dir(dir);
            self.velocity.x = self.velocity.x + n.x * BOOST_SPEED_INCREASE;
            self.velocity.y = self.velocity.y + n.y * BOOST_SPEED_INCREASE;
            self.boost_timer.reset(now_ms);
            self.boost_counter = self.boost_counter - 1;
            boost_sound = true;
        }
        self.velocity.y = self.velocity.y + GRAVITY_PER_FRAME;
        proof {
            assert(self.velocity == s0.spec_vel_after_input(pointer, boost_pressed, now_ms as int));
            assert(abs_int(self.velocity.x as int) <= 30_000_000);
            assert(abs_int(self.velocity.y as int) <= 30_150_000);
        }
        let fx: i64 = if self.position.x == 0 {
            1
        } else if self.position.x == UNIT - self.size.x {
            -1
        } else {
            0
        };
        let fy: i64 = if self.position.y == 0 {
            1
        } else {
            0
        };
        let bounce_sound = fx != 0 || fy != 0;
        if bounce_sound {
            let ghost v2 = self.velocity;
            proof {
                assert(0 <= self.velocity.x as int * self.velocity.x as int
                    <= 910_000_000_000_000 && 0 <= self.velocity.y as int * self.velocity.y as int
                    <= 910_000_000_000_000) by (nonlinear_arith)
                    requires
                        -30_150_000 <= self.velocity.x as int <= 30_150_000,
                        -30_150_000 <= self.velocity.y as int <= 30_150_000,
                ;
            }
            let sqx: i128 = self.velocity.x as i128 * self.velocity.x as i128;
            let sqy: i128 = self.velocity.y as i128 * self.velocity.y as i128;
            let speed: u64 = isqrt_u64((sqx + sqy) as u64);
            proof {
                assert(speed as int <= 43_000_000) by (nonlinear_arith)
                    requires
                        0 <= speed as int,
                        speed as int * speed as int <= 1_820_000_000_000_000,
                ;
            }
            let n = normalize_dir(Vec2::new(fx * UNIT, fy * UNIT));
            let twice: i64 = 2 * (speed as i64);
            proof {
                assert(-90_000_000_000_000 <= n.x as int * twice as int <= 90_000_000_000_000
                    && -90_000_000_000_000 <= n.y as int * twice as int <= 90_000_000_000_000)
                    by (nonlinear_arith)
                    requires
                        -1_000_000 <= n.x as int <= 1_000_000,
                        -1_000_000 <= n.y as int <= 1_000_000,
                        0 <= twice as int <= 86_000_000,
                ;
            }
            self.velocity.x = self.velocity.x + (n.x * twice) / UNIT;
            self.velocity.y = self.velocity.y + (n.y * twice) / UNIT;
            proof {
                lemma_abs_div_trunc(n.x as int * twice as int, UNIT as int);
                lemma_abs_div_trunc(n.y as int * twice as int, UNIT as int);
                vstd::arithmetic::div_mod::lemma_div_is_ordered(
                    abs_int(n.x as int * twice as int),
                    90_000_000_000_000,
                    UNIT as int,
                );
                vstd::arithmetic::div_mod::lemma_div_is_ordered(
                    abs_int(n.y as int * twice as int),
                    90_000_000_000_000,
                    UNIT as int,
                );
                assert(self.velocity == s0.spec_vel_after_border(v2));
                assert(abs_int(self.velocity.x as int) <= 121_000_000);
                assert(abs_int(self.velocity.y as int) <= 121_000_000);
            }
        }
        proof {
            assert(self.velocity == s0.spec_vel_after_border(
                s0.spec_vel_after_input(pointer, boost_pressed, now_ms as int),
            ));
        }
        proof {
            assert(abs_int(self.velocity.x as int) <= 121_000_000);
            assert(abs_int(self.velocity.y as int) <= 121_000_000);
        }
        self.velocity = clamp_speed(self.velocity, SPRITE_VEL_MAX);
        self.position.x = step_sat(self.position.x, self.velocity.x, dt_ms, COORD_LIMIT);
        self.position.y = step_sat(self.position.y, self.velocity.y, dt_ms, COORD_LIMIT);
        proof {
            lemma_abs_div_trunc(self.velocity.x as int * 99, 100);
            lemma_abs_div_trunc(self.velocity.y as int * 99, 100);
        }
        self.velocity.x = (self.velocity.x * 99) / 100;
        self.velocity.y = (self.velocity.y * 99) / 100;
        self.position.x = clamp_i64(self.position.x, 0, UNIT - self.size.x);
        self.position.y = clamp_i64(self.position.y, 0, COORD_LIMIT);
        SpriteEffects { boost_sound, bounce_sound }
    }
}

} // verus!
