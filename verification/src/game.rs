//! The game itself: the phase machine (menu, playing, end screen), the
//! per-frame pipeline over the player and the collectible field, and
//! the session bookkeeping against the shared leaderboard.
//!
//! Rendering, audio and input live outside; each step takes the
//! sampled inputs as plain values and reports requested side effects
//! back as flags and notification values.

use vstd::prelude::*;

use crate::client::{Client, LeaderboardStore, Notification, spec_withdraw};
use crate::collectable::JumpBoost;
use crate::math::{
    Bounds2D, Vec2, COORD_LIMIT, UNIT, abs_int, clamp_int, spec_center_of, spec_intersects,
    spec_within_radius, within_radius,
};
use crate::rng::gen_range_i64;
use crate::sprite::{
    Sprite, SpriteEffects, SPRITE_SIZE_X, SPRITE_SIZE_Y, SPRITE_START_X, SPRITE_START_Y,
    VIEW_RADIUS_LARGE, VIEW_RADIUS_SMALL,
};
use crate::timer::Timer;

verus! {

/// Cap on live collectibles.
pub const MAX_BOOSTS: usize = 15;

/// Largest batch one spawn pass may add.
pub const MAX_BOOSTS_ADD: usize = 7;

/// Milliseconds between spawn passes.
pub const BOOST_SPAWN_COOLDOWN_MS: u64 = 1000;

/// Milliseconds between the death latch and the end screen.
pub const DEAD_DELAY_MS: u64 = 2000;

/// Milliseconds the name warning stays up.
pub const NAME_WARNING_MS: u64 = 3000;

/// Tries per collectible before a spawn draw is given up.
pub const SPAWN_ATTEMPTS: u32 = 100;

/// Collectible side length range, in units.
pub const BOOST_SIZE_MIN: i64 = 19_531;

pub const BOOST_SIZE_MAX: i64 = 39_062;

/// Floor of the per-axis acceleration draw bound, in units.
pub const ACCEL_FLOOR: i64 = 200_000;

#[derive(Clone, Copy, PartialEq, Eq, Structural, Debug)]
pub enum GameState {
    Menu,
    Playing,
    EndScreen,
}

/// Everything one game session owns.
pub struct Game {
    pub game_state: GameState,
    pub player: Sprite,
    pub jump_boosts: Vec<JumpBoost>,
    pub jump_boost_timer: Timer,
    pub dead_timer: Timer,
    pub is_dead: bool,
    pub start_time_ms: u64,
    pub time_played_ms: u64,
    pub client: Client,
    pub show_name_already_exists: bool,
    pub show_name_timer: Timer,
}

/// The visible screen: the unit square.
pub open spec fn spec_screen_bounds() -> Bounds2D {
    Bounds2D { top_left: Vec2 { x: 0, y: 0 }, size: Vec2 { x: UNIT, y: UNIT } }
}

pub fn screen_bounds() -> (b: Bounds2D)
    ensures
        b == spec_screen_bounds(),
{
    Bounds2D::new(Vec2::new(0, 0), Vec2::new(UNIT, UNIT))
}

impl Game {
    /// Well-formed: the player and every collectible are, and the field
    /// respects its cap.
    pub open spec fn wf(self) -> bool {
        &&& self.player.wf()
        &&& self.jump_boosts@.len() <= MAX_BOOSTS
        &&& forall|i: int| 0 <= i < self.jump_boosts@.len() ==> self.jump_boosts@[i].wf()
    }

    /// All the instants this session remembers lie at or before `now_ms`.
    pub open spec fn timers_le(self, now_ms: u64) -> bool {
        &&& self.jump_boost_timer.start_ms <= now_ms
        &&& self.dead_timer.start_ms <= now_ms
        &&& self.show_name_timer.start_ms <= now_ms
        &&& self.player.boost_timer.start_ms <= now_ms
        &&& self.start_time_ms <= now_ms
    }
}

/// A fresh player sprite in the screen's middle, with the large view
/// radius.
pub fn new_sprite(now_ms: u64) -> (s: Sprite)
    ensures
        s == Sprite::spec_initial(now_ms),
        s.wf(),
{
    Sprite::new(
        Vec2::new(SPRITE_START_X, SPRITE_START_Y),
        Vec2::new(SPRITE_SIZE_X, SPRITE_SIZE_Y),
        VIEW_RADIUS_LARGE,
        now_ms,
    )
}

/// A fresh session around the given client, entering `game_state`.
pub fn create_game(game_state: GameState, client: Client, now_ms: u64) -> (g: Game)
    ensures
        g.game_state == game_state,
        g.player == Sprite::spec_initial(now_ms),
        g.jump_boosts@.len() == 0,
        g.jump_boost_timer.start_ms == now_ms,
        g.dead_timer.start_ms == now_ms,
        !g.is_dead,
        g.start_time_ms == now_ms,
        g.time_played_ms == 0,
        g.client == client,
        !g.show_name_already_exists,
        g.show_name_timer.start_ms == now_ms,
        g.wf(),
        g.timers_le(now_ms),
{
    Game {
        game_state,
        player: new_sprite(now_ms),
        jump_boosts: Vec::new(),
        jump_boost_timer: Timer::new(now_ms),
        dead_timer: Timer::new(now_ms),
        is_dead: false,
        start_time_ms: now_ms,
        time_played_ms: 0,
        client,
        show_name_already_exists: false,
        show_name_timer: Timer::new(now_ms),
    }
}

/// Reset every playing-phase field for a new round under the same
/// client and phase.
pub fn reset_game(game: &mut Game, now_ms: u64)
    ensures
        final (game).game_state == old(game).game_state,
        final (game).client == old(game).client,
        final (game).player == Sprite::spec_initial(now_ms),
        final (game).jump_boosts@.len() == 0,
        final (game).jump_boost_timer.start_ms == now_ms,
        final (game).dead_timer.start_ms == now_ms,
        !final (game).is_dead,
        final (game).start_time_ms == now_ms,
        final (game).time_played_ms == 0,
        !final (game).show_name_already_exists,
        final (game).show_name_timer.start_ms == old(game).show_name_timer.start_ms,
        final (game).wf(),
{
    game.player = new_sprite(now_ms);
    game.jump_boosts = Vec::new();
    game.jump_boost_timer = Timer::new(now_ms);
    game.dead_timer = Timer::new(now_ms);
    game.is_dead = false;
    game.start_time_ms = now_ms;
    game.time_played_ms = 0;
    game.show_name_already_exists = false;
}

/// All of a session's fields except the player agree.
pub open spec fn eq_except_player(a: Game, b: Game) -> bool {
    &&& a.game_state == b.game_state
    &&& a.jump_boosts@ == b.jump_boosts@
    &&& a.jump_boost_timer == b.jump_boost_timer
    &&& a.dead_timer == b.dead_timer
    &&& a.is_dead == b.is_dead
    &&& a.start_time_ms == b.start_time_ms
    &&& a.time_played_ms == b.time_played_ms
    &&& a.client == b.client
    &&& a.show_name_already_exists == b.show_name_already_exists
    &&& a.show_name_timer == b.show_name_timer
}

/// All of a session's fields except the collectible field agree.
pub open spec fn eq_except_boosts(a: Game, b: Game) -> bool {
    &&& a.game_state == b.game_state
    &&& a.player == b.player
    &&& a.jump_boost_timer == b.jump_boost_timer
    &&& a.dead_timer == b.dead_timer
    &&& a.is_dead == b.is_dead
    &&& a.start_time_ms == b.start_time_ms
    &&& a.time_played_ms == b.time_played_ms
    &&& a.client == b.client
    &&& a.show_name_already_exists == b.show_name_already_exists
    &&& a.show_name_timer == b.show_name_timer
}

/// The collectible field after one integration step.
pub open spec fn spec_updated_boosts(s: Seq<JumpBoost>, dt_ms: int) -> Seq<JumpBoost> {
    Seq::new(s.len(), |i: int| s[i].spec_updated(dt_ms))
}

/// Integrate every collectible, and the player unless the death latch
/// is set.
pub fn update_entities(
    game: &mut Game,
    dt_ms: u32,
    pointer: Vec2,
    boost_pressed: bool,
    now_ms: u64,
) -> (effects: SpriteEffects)
    requires
        old(game).wf(),
        old(game).player.boost_timer.start_ms <= now_ms,
        abs_int(pointer.x as int) <= COORD_LIMIT,
        abs_int(pointer.y as int) <= COORD_LIMIT,
    ensures
        final (game).jump_boosts@ == spec_updated_boosts(old(game).jump_boosts@, dt_ms as int),
        !old(game).is_dead ==> final (game).player == old(game).player.spec_update(
            dt_ms as int,
            pointer,
            boost_pressed,
            now_ms as int,
        ) && effects.boost_sound == old(game).player.spec_boost_fires(
            pointer,
            boost_pressed,
            now_ms as int,
        ) && effects.bounce_sound == !old(game).player.spec_border_force().is_zero(),
        old(game).is_dead ==> final (game).player == old(game).player && effects
            == (SpriteEffects { boost_sound: false, bounce_sound: false }),
        final (game).game_state == old(game).game_state,
        final (game).jump_boost_timer == old(game).jump_boost_timer,
        final (game).dead_timer == old(game).dead_timer,
        final (game).is_dead == old(game).is_dead,
        final (game).start_time_ms == old(game).start_time_ms,
        final (game).time_played_ms == old(game).time_played_ms,
        final (game).client == old(game).client,
        final (game).show_name_already_exists == old(game).show_name_already_exists,
        final (game).show_name_timer == old(game).show_name_timer,
        final (game).wf(),
{
    let n = game.jump_boosts.len();
    let mut i: usize = 0;
    while i < n
        invariant
            old(game).wf(),
            n == game.jump_boosts@.len(),
            n == old(game).jump_boosts@.len(),
            i <= n,
            eq_except_boosts(*game, *old(game)),
            forall|j: int|
                0 <= j < i ==> game.jump_boosts@[j] == old(game).jump_boosts@[j].spec_updated(
                    dt_ms as int,
                ),
            forall|j: int| i <= j < n ==> game.jump_boosts@[j] == old(game).jump_boosts@[j],
            forall|j: int| 0 <= j < n ==> game.jump_boosts@[j].wf(),
        decreases n - i,
    {
        let mut b = game.jump_boosts[i];
        proof {
            assert(b.wf());
        }
        b.update(dt_ms);
        game.jump_boosts.set(i, b);
        i = i + 1;
    }
    proof {
        assert(game.jump_boosts@ =~= spec_updated_boosts(old(game).jump_boosts@, dt_ms as int));
    }
    if !game.is_dead {
        game.player.update(dt_ms, pointer, boost_pressed, now_ms)
    } else {
        SpriteEffects { boost_sound: false, bounce_sound: false }
    }
}

/// Saturating boost-counter arithmetic at the `i32` bounds.
pub open spec fn spec_hit_counter(c: int, hurtful: bool) -> int {
    if hurtful {
        if c - 1 < i32::MIN {
            i32::MIN as int
        } else {
            c - 1
        }
    } else {
        if c + 2 > i32::MAX {
            i32::MAX as int
        } else {
            c + 2
        }
    }
}

/// The boost counter after applying every overlapping collectible, in
/// order.
pub open spec fn spec_counter_after_hits(c: int, s: Seq<JumpBoost>, pb: Bounds2D) -> int
    decreases s.len(),
{
    if s.len() == 0 {
        c
    } else {
        let prev = spec_counter_after_hits(c, s.drop_last(), pb);
        if spec_intersects(s.last().bounds, pb) {
            spec_hit_counter(prev, s.last().hurtful)
        } else {
            prev
        }
    }
}

/// The view radius after applying every overlapping collectible, in
/// order: a hurtful hit shrinks it, a helpful one grows it.
pub open spec fn spec_radius_after_hits(r: i64, s: Seq<JumpBoost>, pb: Bounds2D) -> i64
    decreases s.len(),
{
    if s.len() == 0 {
        r
    } else {
        let prev = spec_radius_after_hits(r, s.drop_last(), pb);
        if spec_intersects(s.last().bounds, pb) {
            if s.last().hurtful {
                VIEW_RADIUS_SMALL
            } else {
                VIEW_RADIUS_LARGE
            }
        } else {
            prev
        }
    }
}

/// The counter after a full resolution pass: every hit applied, then
/// the clamp to zero.
pub open spec fn spec_resolved_counter(c: int, s: Seq<JumpBoost>, pb: Bounds2D) -> int {
    let after = spec_counter_after_hits(c, s, pb);
    if after < 0 {
        0
    } else {
        after
    }
}

/// Apply every collectible overlapping the player: hurtful ones cost a
/// boost and shrink the view, helpful ones grant two and grow it; the
/// counter is then clamped at zero, so it never ends a pass negative.
pub fn resolve_collisions(game: &mut Game)
    requires
        old(game).wf(),
    ensures
        final (game).wf(),
        old(game).is_dead ==> *final (game) == *old(game),
        !old(game).is_dead ==> ({
            let pb = old(game).player.spec_bounds();
            &&& final (game).player.boost_counter == spec_resolved_counter(
                old(game).player.boost_counter as int,
                old(game).jump_boosts@,
                pb,
            )
            &&& final (game).player.view_radius == spec_radius_after_hits(
                old(game).player.view_radius,
                old(game).jump_boosts@,
                pb,
            )
            &&& final (game).player == (Sprite {
                boost_counter: final (game).player.boost_counter,
                view_radius: final (game).player.view_radius,
                ..old(game).player
            })
            &&& eq_except_player(*final (game), *old(game))
        }),
        final (game).player.boost_counter >= 0,
{
    if game.is_dead {
        return ;
    }
    let pb = game.player.get_bounds();
    let n = game.jump_boosts.len();
    let ghost c0 = game.player.boost_counter as int;
    let ghost r0 = game.player.view_radius;
    let mut counter: i32 = game.player.boost_counter;
    let mut radius: i64 = game.player.view_radius;
    let mut i: usize = 0;
    while i < n
        invariant
            n == game.jump_boosts@.len(),
            i <= n,
            *game == *old(game),
            pb == old(game).player.spec_bounds(),
            c0 == old(game).player.boost_counter as int,
            r0 == old(game).player.view_radius,
            counter as int == spec_counter_after_hits(
                c0,
                game.jump_boosts@.subrange(0, i as int),
                pb,
            ),
            radius == spec_radius_after_hits(r0, game.jump_boosts@.subrange(0, i as int), pb),
            radius == VIEW_RADIUS_SMALL || radius == VIEW_RADIUS_LARGE,
        decreases n - i,
    {
        let b = game.jump_boosts[i];
        let ghost pre = game.jump_boosts@.subrange(0, i as int);
        if b.bounds.intersects(pb) {
            if b.hurtful {
                if counter != i32::MIN {
                    counter = counter - 1;
                }
                radius = VIEW_RADIUS_SMALL;
            } else {
                if counter > i32::MAX - 2 {
                    counter = i32::MAX;
                } else {
                    counter = counter + 2;
                }
                radius = VIEW_RADIUS_LARGE;
            }
        }
        proof {
            let post = game.jump_boosts@.subrange(0, i + 1 as int);
            assert(post.drop_last() =~= pre);
            assert(post.last() == game.jump_boosts@[i as int]);
        }
        i = i + 1;
    }
    proof {
        assert(game.jump_boosts@.subrange(0, n as int) =~= game.jump_boosts@);
    }
    if counter < 0 {
        counter = 0;
    }
    game.player.boost_counter = counter;
    game.player.view_radius = radius;
}

/// A collectible survives cleanup while it still touches the screen
/// and has not been consumed by the player.
pub open spec fn spec_keep(b: JumpBoost, pb: Bounds2D) -> bool {
    spec_intersects(b.bounds, spec_screen_bounds()) && !spec_intersects(b.bounds, pb)
}

/// The field after one cleanup pass, in order.
pub open spec fn spec_cleanup(s: Seq<JumpBoost>, pb: Bounds2D) -> Seq<JumpBoost>
    decreases s.len(),
{
    if s.len() == 0 {
        s
    } else {
        let rest = spec_cleanup(s.drop_last(), pb);
        if spec_keep(s.last(), pb) {
            rest.push(s.last())
        } else {
            rest
        }
    }
}

/// Cleanup of one more element keeps or drops exactly that element.
proof fn lemma_cleanup_push(s: Seq<JumpBoost>, b: JumpBoost, pb: Bounds2D)
    ensures
        spec_keep(b, pb) ==> spec_cleanup(s.push(b), pb) == spec_cleanup(s, pb).push(b),
        !spec_keep(b, pb) ==> spec_cleanup(s.push(b), pb) == spec_cleanup(s, pb),
{
    assert(s.push(b).drop_last() =~= s);
    assert(s.push(b).last() == b);
}

/// Cleanup never grows the field.
proof fn lemma_cleanup_le_len(s: Seq<JumpBoost>, pb: Bounds2D)
    ensures
        spec_cleanup(s, pb).len() <= s.len(),
    decreases s.len(),
{
    if s.len() > 0 {
        lemma_cleanup_le_len(s.drop_last(), pb);
    }
}

/// Cleanup keeps only well-formed survivors of a well-formed field.
proof fn lemma_cleanup_wf(s: Seq<JumpBoost>, pb: Bounds2D)
    requires
        forall|i: int| 0 <= i < s.len() ==> s[i].wf(),
    ensures
        forall|i: int| 0 <= i < spec_cleanup(s, pb).len() ==> spec_cleanup(s, pb)[i].wf(),
    decreases s.len(),
{
    if s.len() > 0 {
        assert forall|i: int| 0 <= i < s.drop_last().len() implies s.drop_last()[i].wf() by {
            assert(s.drop_last()[i] == s[i]);
        }
        lemma_cleanup_wf(s.drop_last(), pb);
        let rest = spec_cleanup(s.drop_last(), pb);
        if spec_keep(s.last(), pb) {
            assert forall|i: int| 0 <= i < spec_cleanup(s, pb).len() implies spec_cleanup(
                s,
                pb,
            )[i].wf() by {
                if i < rest.len() {
                    assert(spec_cleanup(s, pb)[i] == rest[i]);
                } else {
                    assert(spec_cleanup(s, pb)[i] == s.last());
                }
            }
        }
    }
}

/// Law: cleanup is idempotent — a second pass with no update in
/// between keeps exactly the survivors of the first.
pub proof fn lemma_cleanup_idempotent(s: Seq<JumpBoost>, pb: Bounds2D)
    ensures
        spec_cleanup(spec_cleanup(s, pb), pb) == spec_cleanup(s, pb),
    decreases s.len(),
{
    if s.len() > 0 {
        lemma_cleanup_idempotent(s.drop_last(), pb);
        if spec_keep(s.last(), pb) {
            lemma_cleanup_push(spec_cleanup(s.drop_last(), pb), s.last(), pb);
        }
    }
}

/// Drop every collectible that left the screen or was consumed by the
/// player.
pub fn cleanup_boosts(game: &mut Game)
    requires
        old(game).wf(),
    ensures
        final (game).jump_boosts@ == spec_cleanup(
            old(game).jump_boosts@,
            old(game).player.spec_bounds(),
        ),
        eq_except_boosts(*final (game), *old(game)),
        final (game).wf(),
{
    let pb = game.player.get_bounds();
    let sb = screen_bounds();
    let n = game.jump_boosts.len();
    let mut kept: Vec<JumpBoost> = Vec::new();
    let mut i: usize = 0;
    while i < n
        invariant
            n == game.jump_boosts@.len(),
            i <= n,
            *game == *old(game),
            pb == old(game).player.spec_bounds(),
            sb == spec_screen_bounds(),
            kept@ == spec_cleanup(game.jump_boosts@.subrange(0, i as int), pb),
        decreases n - i,
    {
        let b = game.jump_boosts[i];
        let ghost pre = game.jump_boosts@.subrange(0, i as int);
        proof {
            let post = game.jump_boosts@.subrange(0, i + 1 as int);
            assert(post =~= pre.push(game.jump_boosts@[i as int]));
            lemma_cleanup_push(pre, game.jump_boosts@[i as int], pb);
        }
        if b.bounds.intersects(sb) && !b.bounds.intersects(pb) {
            kept.push(b);
        }
        i = i + 1;
    }
    proof {
        assert(game.jump_boosts@.subrange(0, n as int) =~= game.jump_boosts@);
        lemma_cleanup_le_len(game.jump_boosts@, pb);
        lemma_cleanup_wf(game.jump_boosts@, pb);
    }
    game.jump_boosts = kept;
}

/// Per-axis bound of the acceleration draw after `elapsed_ms` of play:
/// it starts at the floor and creeps toward one unit as the round runs
/// on, so later collectibles fall harder.
pub open spec fn spec_accel_bound(elapsed_ms: int) -> int {
    if elapsed_ms <= 0 {
        ACCEL_FLOOR as int
    } else {
        clamp_int(UNIT - 20_000_000_000int / elapsed_ms, ACCEL_FLOOR as int, UNIT as int)
    }
}

/// Draw a fresh collectible's acceleration: each axis uniform within
/// the elapsed-time bound.
pub fn random_boost_acceleration(
    game: &Game,
    rng: &macroquad::rand::RandGenerator,
    now_ms: u64,
) -> (a: Vec2)
    requires
        game.start_time_ms <= now_ms,
    ensures
        ({
            let ub = spec_accel_bound(now_ms - game.start_time_ms);
            -ub <= a.x < ub && -ub <= a.y < ub
        }),
        abs_int(a.x as int) <= UNIT,
        abs_int(a.y as int) <= UNIT,
{
    let elapsed: u64 = now_ms - game.start_time_ms;
    let ub: i64 = if elapsed == 0 {
        ACCEL_FLOOR
    } else {
        let q: u64 = 20_000_000_000u64 / elapsed;
        if q >= 800_000 {
            ACCEL_FLOOR
        } else {
            UNIT - (q as i64)
        }
    };
    proof {
        assert(ub == spec_accel_bound(now_ms - game.start_time_ms));
    }
    Vec2::new(gen_range_i64(rng, -ub, ub), gen_range_i64(rng, -ub, ub))
}

/// What every freshly spawned collectible satisfies: well-formed, on
/// screen, sized within the draw range, still, clear of the player,
/// and accelerated within the elapsed-time bound.
pub open spec fn spec_spawned_ok(b: JumpBoost, pb: Bounds2D, elapsed_ms: int) -> bool {
    &&& b.wf()
    &&& !spec_intersects(b.bounds, pb)
    &&& 0 <= b.bounds.top_left.x < UNIT
    &&& 0 <= b.bounds.top_left.y < UNIT
    &&& BOOST_SIZE_MIN <= b.bounds.size.x <= BOOST_SIZE_MAX
    &&& b.bounds.size.y == b.bounds.size.x
    &&& b.velocity.x == 0 && b.velocity.y == 0
    &&& -spec_accel_bound(elapsed_ms) <= b.acceleration.x < spec_accel_bound(elapsed_ms)
    &&& -spec_accel_bound(elapsed_ms) <= b.acceleration.y < spec_accel_bound(elapsed_ms)
}

/// No candidate the draw can produce — any position on screen, any
/// side in the size range — overlaps the box `pb`. While this holds of
/// the player (for one, whenever the player has fallen well below the
/// screen), rejection sampling cannot fail, so a spawn is owed.
pub open spec fn spec_no_candidate_overlaps(pb: Bounds2D) -> bool {
    forall|p: Vec2, side: i64|
        0 <= p.x < UNIT && 0 <= p.y < UNIT && BOOST_SIZE_MIN <= side <= BOOST_SIZE_MAX
            ==> !spec_intersects(Bounds2D { top_left: p, size: Vec2 { x: side, y: side } }, pb)
}

/// Draw one collectible by rejection sampling: position and size are
/// redrawn while the candidate overlaps the player, up to a fixed
/// number of attempts; `None` when every attempt overlapped.
pub fn gen_random_boost(game: &Game, rng: &macroquad::rand::RandGenerator, now_ms: u64) -> (r:
    Option<JumpBoost>)
    requires
        game.player.wf(),
        game.start_time_ms <= now_ms,
    ensures
        r matches Some(b) ==> spec_spawned_ok(
            b,
            game.player.spec_bounds(),
            now_ms - game.start_time_ms,
        ),
        spec_no_candidate_overlaps(game.player.spec_bounds()) ==> r is Some,
{
    let pb = game.player.get_bounds();
    let mut attempt: u32 = 0;
    while attempt < SPAWN_ATTEMPTS
        invariant
            pb == game.player.spec_bounds(),
            game.player.wf(),
            game.start_time_ms <= now_ms,
            attempt > 0 ==> !spec_no_candidate_overlaps(pb),
        decreases SPAWN_ATTEMPTS - attempt,
    {
        let px = gen_range_i64(rng, 0, UNIT);
        let py = gen_range_i64(rng, 0, UNIT);
        let side = gen_range_i64(rng, BOOST_SIZE_MIN, BOOST_SIZE_MAX + 1);
        let pos = Vec2::new(px, py);
        let size = Vec2::new(side, side);
        let cand = Bounds2D::new(pos, size);
        if !cand.intersects(pb) {
            let hurtful = gen_range_i64(rng, 0, 2) == 1;
            let accel = random_boost_acceleration(game, rng, now_ms);
            return Some(JumpBoost::new(pos, size, hurtful, accel));
        }
        proof {
            assert(spec_intersects(Bounds2D { top_left: pos, size: Vec2 { x: side, y: side } }, pb));
            assert(!spec_no_candidate_overlaps(pb));
        }
        attempt = attempt + 1;
    }
    None
}

/// One spawn pass: while below the cap and past the cooldown, add up
/// to a batch of fresh collectibles, each clear of the player; the
/// field never exceeds its cap.
pub fn spawn_boosts(game: &mut Game, rng: &macroquad::rand::RandGenerator, now_ms: u64)
    requires
        old(game).wf(),
        old(game).jump_boost_timer.start_ms <= now_ms,
        old(game).start_time_ms <= now_ms,
    ensures
        final (game).wf(),
        final (game).jump_boosts@.len() <= MAX_BOOSTS,
        (old(game).jump_boosts@.len() >= MAX_BOOSTS || now_ms
            - old(game).jump_boost_timer.start_ms < BOOST_SPAWN_COOLDOWN_MS) ==> *final (game)
            == *old(game),
        (old(game).jump_boosts@.len() < MAX_BOOSTS && now_ms
            - old(game).jump_boost_timer.start_ms >= BOOST_SPAWN_COOLDOWN_MS) ==> ({
            let len0 = old(game).jump_boosts@.len() as int;
            &&& final (game).jump_boost_timer.start_ms == now_ms
            &&& len0 <= final (game).jump_boosts@.len() <= len0 + MAX_BOOSTS_ADD
            &&& (spec_no_candidate_overlaps(old(game).player.spec_bounds())
                ==> final (game).jump_boosts@.len() == (if len0 + MAX_BOOSTS_ADD <= MAX_BOOSTS {
                    len0 + MAX_BOOSTS_ADD
                } else {
                    MAX_BOOSTS as int
                }))
            &&& final (game).jump_boosts@.subrange(0, len0) == old(game).jump_boosts@
            &&& forall|i: int|
                len0 <= i < final (game).jump_boosts@.len() ==> spec_spawned_ok(
                    final (game).jump_boosts@[i],
                    old(game).player.spec_bounds(),
                    now_ms - old(game).start_time_ms,
                )
            &&& final (game).player == old(game).player
            &&& final (game).game_state == old(game).game_state
            &&& final (game).dead_timer == old(game).dead_timer
            &&& final (game).is_dead == old(game).is_dead
            &&& final (game).start_time_ms == old(game).start_time_ms
            &&& final (game).time_played_ms == old(game).time_played_ms
            &&& final (game).client == old(game).client
            &&& final (game).show_name_already_exists == old(game).show_name_already_exists
            &&& final (game).show_name_timer == old(game).show_name_timer
        }),
{
    if game.jump_boosts.len() >= MAX_BOOSTS || !game.jump_boost_timer.has_elapsed(
        now_ms,
        BOOST_SPAWN_COOLDOWN_MS,
    ) {
        return ;
    }
    game.jump_boost_timer.reset(now_ms);
    let len0 = game.jump_boosts.len();
    let to_add: usize = if MAX_BOOSTS - len0 < MAX_BOOSTS_ADD {
        MAX_BOOSTS - len0
    } else {
        MAX_BOOSTS_ADD
    };
    let mut k: usize = 0;
    while k < to_add
        invariant
            k <= to_add,
            len0 + to_add <= MAX_BOOSTS,
            len0 == old(game).jump_boosts@.len(),
            game.player == old(game).player,
            game.player.wf(),
            game.game_state == old(game).game_state,
            game.jump_boost_timer.start_ms == now_ms,
            game.dead_timer == old(game).dead_timer,
            game.is_dead == old(game).is_dead,
            game.start_time_ms == old(game).start_time_ms,
            game.start_time_ms <= now_ms,
            game.time_played_ms == old(game).time_played_ms,
            game.client == old(game).client,
            game.show_name_already_exists == old(game).show_name_already_exists,
            game.show_name_timer == old(game).show_name_timer,
            len0 <= game.jump_boosts@.len() <= len0 + k,
            spec_no_candidate_overlaps(old(game).player.spec_bounds())
                ==> game.jump_boosts@.len() == len0 + k,
            game.jump_boosts@.subrange(0, len0 as int) == old(game).jump_boosts@,
            forall|i: int|
                len0 <= i < game.jump_boosts@.len() ==> spec_spawned_ok(
                    game.jump_boosts@[i],
                    old(game).player.spec_bounds(),
                    now_ms - old(game).start_time_ms,
                ),
            forall|i: int| 0 <= i < game.jump_boosts@.len() ==> game.jump_boosts@[i].wf(),
        decreases to_add - k,
    {
        let drawn = gen_random_boost(game, rng, now_ms);
        match drawn {
            Some(b) => {
                let ghost pre = game.jump_boosts@;
                game.jump_boosts.push(b);
                proof {
                    assert(game.jump_boosts@.subrange(0, len0 as int) =~= pre.subrange(
                        0,
                        len0 as int,
                    ));
                }
            },
            None => {},
        }
        k = k + 1;
    }
}

/// The rendering filter: a collectible is drawn only within the
/// player's view radius of the player's center.
pub fn boost_visible(player: &Sprite, boost: &JumpBoost) -> (r: bool)
    requires
        player.wf(),
        boost.wf(),
    ensures
        r == spec_within_radius(
            spec_center_of(player.spec_bounds()),
            spec_center_of(boost.bounds),
            player.view_radius,
        ),
{
    let pc = player.get_bounds().get_center();
    let bc = boost.bounds.get_center();
    within_radius(pc, bc, player.view_radius)
}

/// The player at the frame's end: moved by its update, then credited
/// and debited by every overlapping collectible.
pub open spec fn spec_player_after_frame(
    g: Game,
    dt_ms: int,
    pointer: Vec2,
    boost_pressed: bool,
    now_ms: int,
) -> Sprite {
    if g.is_dead {
        g.player
    } else {
        let p1 = g.player.spec_update(dt_ms, pointer, boost_pressed, now_ms);
        let boosts1 = spec_updated_boosts(g.jump_boosts@, dt_ms);
        Sprite {
            boost_counter: spec_resolved_counter(
                p1.boost_counter as int,
                boosts1,
                p1.spec_bounds(),
            ) as i32,
            view_radius: spec_radius_after_hits(p1.view_radius, boosts1, p1.spec_bounds()),
            ..p1
        }
    }
}

/// The collectible field after integration and cleanup, before any
/// spawn.
pub open spec fn spec_boosts_after_cleanup(
    g: Game,
    dt_ms: int,
    pointer: Vec2,
    boost_pressed: bool,
    now_ms: int,
) -> Seq<JumpBoost> {
    spec_cleanup(
        spec_updated_boosts(g.jump_boosts@, dt_ms),
        spec_player_after_frame(g, dt_ms, pointer, boost_pressed, now_ms).spec_bounds(),
    )
}

/// Whether this frame latches death: the live player's bounds stopped
/// touching the screen.
pub open spec fn spec_death_latches(
    g: Game,
    dt_ms: int,
    pointer: Vec2,
    boost_pressed: bool,
    now_ms: int,
) -> bool {
    !g.is_dead && !spec_intersects(
        spec_player_after_frame(g, dt_ms, pointer, boost_pressed, now_ms).spec_bounds(),
        spec_screen_bounds(),
    )
}

/// What one playing frame asks of the world outside.
#[derive(Debug)]
pub struct PlayingEffects {
    /// Sounds the player's own update requested.
    pub sprite: SpriteEffects,
    /// Death was latched this frame: stop the soundtrack, play the
    /// death sound.
    pub died: bool,
    /// The time report to send to the host, while alive.
    pub report: Option<Notification>,
    /// The death delay ran out: the end screen begins.
    pub entered_end_screen: bool,
}

/// One full playing-phase frame: integrate, resolve, clean up, spawn,
/// report the time, and evaluate both death transitions.
pub fn playing_state(
    game: &mut Game,
    rng: &macroquad::rand::RandGenerator,
    dt_ms: u32,
    pointer: Vec2,
    boost_pressed: bool,
    now_ms: u64,
) -> (fx: PlayingEffects)
    requires
        old(game).wf(),
        old(game).game_state == GameState::Playing,
        old(game).timers_le(now_ms),
        now_ms <= 0x7fff_ffff_ffff_ffff,
        abs_int(pointer.x as int) <= COORD_LIMIT,
        abs_int(pointer.y as int) <= COORD_LIMIT,
    ensures
        final (game).wf(),
        final (game).timers_le(now_ms),
        final (game).player == spec_player_after_frame(
            *old(game),
            dt_ms as int,
            pointer,
            boost_pressed,
            now_ms as int,
        ),
        ({
            let base = spec_boosts_after_cleanup(
                *old(game),
                dt_ms as int,
                pointer,
                boost_pressed,
                now_ms as int,
            );
            let spawn_open = base.len() < MAX_BOOSTS && now_ms
                - old(game).jump_boost_timer.start_ms >= BOOST_SPAWN_COOLDOWN_MS;
            &&& final (game).jump_boosts@.len() <= MAX_BOOSTS
            &&& final (game).jump_boosts@.subrange(0, base.len() as int) == base
            &&& (!spawn_open ==> final (game).jump_boosts@ == base
                && final (game).jump_boost_timer == old(game).jump_boost_timer)
            &&& (spawn_open ==> final (game).jump_boost_timer.start_ms == now_ms && base.len()
                <= final (game).jump_boosts@.len() <= base.len() + MAX_BOOSTS_ADD
                && forall|i: int|
                    base.len() <= i < final (game).jump_boosts@.len() ==> spec_spawned_ok(
                        final (game).jump_boosts@[i],
                        final (game).player.spec_bounds(),
                        now_ms - old(game).start_time_ms,
                    ))
            &&& (spawn_open && spec_no_candidate_overlaps(final (game).player.spec_bounds())
                ==> final (game).jump_boosts@.len() == (if base.len() + MAX_BOOSTS_ADD
                    <= MAX_BOOSTS {
                    base.len() + MAX_BOOSTS_ADD
                } else {
                    MAX_BOOSTS as int
                }))
        }),
        !old(game).is_dead ==> fx.report == Some(
            Notification::Time {
                name: old(game).client.client_name,
                time_ms: (now_ms - old(game).start_time_ms) as i64,
            },
        ),
        old(game).is_dead ==> fx.report is None,
        !old(game).is_dead ==> fx.sprite.boost_sound == old(game).player.spec_boost_fires(
            pointer,
            boost_pressed,
            now_ms as int,
        ) && fx.sprite.bounce_sound == !old(game).player.spec_border_force().is_zero(),
        old(game).is_dead ==> fx.sprite == (SpriteEffects {
            boost_sound: false,
            bounce_sound: false,
        }),
        fx.entered_end_screen == (old(game).is_dead && now_ms - old(game).dead_timer.start_ms
            >= DEAD_DELAY_MS),
        final (game).game_state == if fx.entered_end_screen {
            GameState::EndScreen
        } else {
            GameState::Playing
        },
        fx.died == spec_death_latches(
            *old(game),
            dt_ms as int,
            pointer,
            boost_pressed,
            now_ms as int,
        ),
        final (game).is_dead == (old(game).is_dead || fx.died),
        fx.died ==> final (game).dead_timer.start_ms == now_ms && final (game).time_played_ms
            == now_ms - old(game).start_time_ms,
        !fx.died ==> final (game).dead_timer == old(game).dead_timer
            && final (game).time_played_ms == old(game).time_played_ms,
        final (game).start_time_ms == old(game).start_time_ms,
        final (game).client == old(game).client,
        final (game).show_name_already_exists == old(game).show_name_already_exists,
        final (game).show_name_timer == old(game).show_name_timer,
{
    let fx_sprite = update_entities(game, dt_ms, pointer, boost_pressed, now_ms);
    resolve_collisions(game);
    cleanup_boosts(game);
    proof {
        assert(game.jump_boosts@ == spec_boosts_after_cleanup(
            *old(game),
            dt_ms as int,
            pointer,
            boost_pressed,
            now_ms as int,
        ));
    }
    spawn_boosts(game, rng, now_ms);
    proof {
        let base = spec_boosts_after_cleanup(
            *old(game),
            dt_ms as int,
            pointer,
            boost_pressed,
            now_ms as int,
        );
        assert(base.subrange(0, base.len() as int) =~= base);
    }
    let report: Option<Notification> = if !game.is_dead {
        let t: u64 = now_ms - game.start_time_ms;
        Some(game.client.register_time(t as i64))
    } else {
        None
    };
    let mut entered_end_screen = false;
    if game.is_dead && game.dead_timer.has_elapsed(now_ms, DEAD_DELAY_MS) {
        game.game_state = GameState::EndScreen;
        entered_end_screen = true;
    }
    let mut died = false;
    if !game.is_dead && !game.player.get_bounds().intersects(screen_bounds()) {
        game.is_dead = true;
        game.dead_timer.reset(now_ms);
        game.time_played_ms = now_ms - game.start_time_ms;
        died = true;
    }
    PlayingEffects { sprite: fx_sprite, died, report, entered_end_screen }
}

/// The menu's play press: claim the entered name against the store and
/// start playing; an empty or taken name only raises the timed warning.
pub fn menu_state(game: &mut Game, store: &mut LeaderboardStore, name: String, now_ms: u64) -> (
    r: Option<Notification>)
    requires
        old(game).wf(),
        old(store).wf(),
        old(game).game_state == GameState::Menu,
    ensures
        final (game).wf(),
        final (store).wf(),
        ({
            let fails = name@.len() == 0 || old(store)@.contains_key(name@);
            &&& (fails ==> {
                &&& *final (store) == *old(store)
                &&& r is None
                &&& final (game).game_state == GameState::Menu
                &&& final (game).show_name_already_exists
                &&& final (game).show_name_timer.start_ms == now_ms
                &&& final (game).client == old(game).client
                &&& final (game).player == old(game).player
                &&& final (game).jump_boosts@ == old(game).jump_boosts@
                &&& final (game).is_dead == old(game).is_dead
                &&& final (game).start_time_ms == old(game).start_time_ms
            })
            &&& (!fails ==> {
                &&& final (store)@ == old(store)@.insert(name@, 0)
                &&& final (game).game_state == GameState::Playing
                &&& final (game).client.client_name@ == name@
                &&& !final (game).client.withdrawal_sent
                &&& final (game).client.leaderboard.entries@ == final (store).entries@
                &&& final (game).player == Sprite::spec_initial(now_ms)
                &&& final (game).jump_boosts@.len() == 0
                &&& !final (game).is_dead
                &&& final (game).start_time_ms == now_ms
                &&& final (game).time_played_ms == 0
                &&& !final (game).show_name_already_exists
                &&& final (game).show_name_timer == old(game).show_name_timer
                &&& (r matches Some(n) && n matches Notification::Register { name: rn } && rn@
                    == name@)
            })
        }),
{
    match Client::new(name, store) {
        Err(_) => {
            game.show_name_already_exists = true;
            game.show_name_timer = Timer::new(now_ms);
            None
        },
        Ok(client) => {
            let n = client.register_name();
            game.game_state = GameState::Playing;
            game.client = client;
            reset_game(game, now_ms);
            Some(n)
        },
    }
}

/// Clear the name warning once its timer has run out.
pub fn menu_update_warning(game: &mut Game, now_ms: u64)
    requires
        old(game).show_name_timer.start_ms <= now_ms,
    ensures
        final (game).show_name_already_exists == (old(game).show_name_already_exists && now_ms
            - old(game).show_name_timer.start_ms < NAME_WARNING_MS),
        eq_except_player(*final (game), Game { show_name_already_exists: final (game).show_name_already_exists, ..*old(game) }),
        final (game).player == old(game).player,
        final (game).jump_boosts@ == old(game).jump_boosts@,
{
    if game.show_name_already_exists && game.show_name_timer.has_elapsed(
        now_ms,
        NAME_WARNING_MS,
    ) {
        game.show_name_already_exists = false;
    }
}

/// "Play again": a fresh round under the same session identity.
pub fn end_screen_play_again(game: &mut Game, now_ms: u64)
    requires
        old(game).game_state == GameState::EndScreen,
    ensures
        final (game).wf(),
        final (game).game_state == GameState::Playing,
        final (game).client == old(game).client,
        final (game).player == Sprite::spec_initial(now_ms),
        final (game).jump_boosts@.len() == 0,
        !final (game).is_dead,
        final (game).start_time_ms == now_ms,
        final (game).time_played_ms == 0,
{
    game.game_state = GameState::Playing;
    reset_game(game, now_ms);
}

/// "Main menu": withdraw the score (at most once per session) and
/// return to the menu; the session stays bound to its name.
pub fn end_screen_main_menu(game: &mut Game) -> (r: Option<Notification>)
    requires
        old(game).game_state == GameState::EndScreen,
    ensures
        final (game).game_state == GameState::Menu,
        (final (game).client, r) == spec_withdraw(old(game).client),
        final (game).player == old(game).player,
        final (game).jump_boosts@ == old(game).jump_boosts@,
        final (game).is_dead == old(game).is_dead,
        final (game).time_played_ms == old(game).time_played_ms,
        final (game).start_time_ms == old(game).start_time_ms,
        final (game).show_name_already_exists == old(game).show_name_already_exists,
{
    game.game_state = GameState::Menu;
    game.client.withdraw()
}

} // verus!
