use macroquad::rand::RandGenerator;

use speedy_jumper::client::{Client, Notification};
use speedy_jumper::collectable::JumpBoost;
use speedy_jumper::game::{
    boost_visible, cleanup_boosts, create_game, end_screen_main_menu, end_screen_play_again,
    menu_state, menu_update_warning, playing_state, random_boost_acceleration,
    resolve_collisions, screen_bounds, spawn_boosts, update_entities, Game, GameState,
    MAX_BOOSTS,
};
use speedy_jumper::client::LeaderboardStore;
use speedy_jumper::math::{Vec2, UNIT};
use speedy_jumper::sprite::{VIEW_RADIUS_LARGE, VIEW_RADIUS_SMALL};

fn fresh_game(state: GameState) -> Game {
    create_game(state, Client::empty(), 0)
}

fn overlapping_boost(game: &Game, hurtful: bool) -> JumpBoost {
    JumpBoost::new(
        game.player.get_bounds().get_position(),
        Vec2::new(10_000, 10_000),
        hurtful,
        Vec2::new(0, 0),
    )
}

#[test]
fn initial_game_state() {
    let g = fresh_game(GameState::Menu);
    assert!(matches!(g.game_state, GameState::Menu));
    assert_eq!(g.player.boost_counter, 10);
    assert_eq!(g.player.view_radius, VIEW_RADIUS_LARGE);
    assert_eq!(g.jump_boosts.len(), 0);
    assert!(!g.is_dead);
}

#[test]
fn sixteen_spawn_requests_never_exceed_the_cap() {
    // Scenario: repeated spawn passes against a cap of 15 fill the
    // field to exactly 15 live collectibles and never 16.
    let rng = RandGenerator::new();
    rng.srand(7);
    let mut g = fresh_game(GameState::Playing);
    let mut now: u64 = 0;
    for pass in 0..16u64 {
        now += 1000;
        spawn_boosts(&mut g, &rng, now);
        assert!(g.jump_boosts.len() <= MAX_BOOSTS, "pass {pass} overfilled the field");
    }
    assert_eq!(g.jump_boosts.len(), MAX_BOOSTS);
}

#[test]
fn spawned_collectibles_never_overlap_the_player() {
    let rng = RandGenerator::new();
    rng.srand(99);
    let mut g = fresh_game(GameState::Playing);
    let mut now: u64 = 0;
    for _ in 0..4 {
        now += 1000;
        spawn_boosts(&mut g, &rng, now);
    }
    assert!(g.jump_boosts.len() > 0);
    let pb = g.player.get_bounds();
    for b in g.jump_boosts.iter() {
        assert!(!b.bounds.intersects(pb));
        assert!(b.bounds.get_position().x >= 0 && b.bounds.get_position().x < UNIT);
        assert!(b.bounds.get_position().y >= 0 && b.bounds.get_position().y < UNIT);
    }
    // the draws actually vary: not every collectible landed on one spot
    let first = g.jump_boosts[0].bounds.get_position();
    assert!(g
        .jump_boosts
        .iter()
        .any(|b| b.bounds.get_position().x != first.x || b.bounds.get_position().y != first.y));
}

#[test]
fn spawn_respects_the_cooldown() {
    let rng = RandGenerator::new();
    rng.srand(3);
    let mut g = fresh_game(GameState::Playing);
    spawn_boosts(&mut g, &rng, 999);
    assert_eq!(g.jump_boosts.len(), 0);
    spawn_boosts(&mut g, &rng, 1000);
    assert_eq!(g.jump_boosts.len(), 7);
    spawn_boosts(&mut g, &rng, 1500);
    assert_eq!(g.jump_boosts.len(), 7);
}

#[test]
fn hurtful_pileup_clamps_the_counter_at_zero() {
    // Many hurtful collectibles at once never push the counter below 0.
    let mut g = fresh_game(GameState::Playing);
    g.player.boost_counter = 1;
    for _ in 0..3 {
        let b = overlapping_boost(&g, true);
        g.jump_boosts.push(b);
    }
    resolve_collisions(&mut g);
    assert_eq!(g.player.boost_counter, 0);
    assert_eq!(g.player.view_radius, VIEW_RADIUS_SMALL);
}

#[test]
fn helpful_hits_grant_two_each_and_grow_the_view() {
    let mut g = fresh_game(GameState::Playing);
    g.player.view_radius = VIEW_RADIUS_SMALL;
    let b1 = overlapping_boost(&g, false);
    let b2 = overlapping_boost(&g, false);
    g.jump_boosts.push(b1);
    g.jump_boosts.push(b2);
    resolve_collisions(&mut g);
    assert_eq!(g.player.boost_counter, 14);
    assert_eq!(g.player.view_radius, VIEW_RADIUS_LARGE);
}

#[test]
fn resolution_skips_nonoverlapping_collectibles() {
    let mut g = fresh_game(GameState::Playing);
    let far = JumpBoost::new(Vec2::new(0, 0), Vec2::new(10_000, 10_000), true, Vec2::new(0, 0));
    g.jump_boosts.push(far);
    resolve_collisions(&mut g);
    assert_eq!(g.player.boost_counter, 10);
    assert_eq!(g.player.view_radius, VIEW_RADIUS_LARGE);
}

#[test]
fn cleanup_drops_offscreen_and_consumed_collectibles() {
    let mut g = fresh_game(GameState::Playing);
    let offscreen =
        JumpBoost::new(Vec2::new(2 * UNIT, 0), Vec2::new(10_000, 10_000), true, Vec2::new(0, 0));
    let consumed = overlapping_boost(&g, false);
    let kept =
        JumpBoost::new(Vec2::new(10_000, 10_000), Vec2::new(10_000, 10_000), false, Vec2::new(0, 0));
    g.jump_boosts.push(offscreen);
    g.jump_boosts.push(consumed);
    g.jump_boosts.push(kept);
    cleanup_boosts(&mut g);
    assert_eq!(g.jump_boosts.len(), 1);
    assert_eq!(g.jump_boosts[0].bounds.get_position().x, 10_000);
}

#[test]
fn cleanup_twice_keeps_the_same_survivors() {
    // Scenario for idempotence: a second cleanup with no update in
    // between changes nothing.
    let mut g = fresh_game(GameState::Playing);
    let offscreen =
        JumpBoost::new(Vec2::new(2 * UNIT, 0), Vec2::new(10_000, 10_000), true, Vec2::new(0, 0));
    let kept1 =
        JumpBoost::new(Vec2::new(10_000, 10_000), Vec2::new(10_000, 10_000), false, Vec2::new(0, 0));
    let kept2 =
        JumpBoost::new(Vec2::new(800_000, 100_000), Vec2::new(20_000, 20_000), true, Vec2::new(0, 0));
    g.jump_boosts.push(offscreen);
    g.jump_boosts.push(kept1);
    g.jump_boosts.push(kept2);
    cleanup_boosts(&mut g);
    let after_first: Vec<(i64, i64)> = g
        .jump_boosts
        .iter()
        .map(|b| (b.bounds.get_position().x, b.bounds.get_position().y))
        .collect();
    cleanup_boosts(&mut g);
    let after_second: Vec<(i64, i64)> = g
        .jump_boosts
        .iter()
        .map(|b| (b.bounds.get_position().x, b.bounds.get_position().y))
        .collect();
    assert_eq!(after_first, after_second);
    assert_eq!(after_first.len(), 2);
}

#[test]
fn collectible_integration_is_exact() {
    let mut g = fresh_game(GameState::Playing);
    g.is_dead = true;  // leave the player out of this frame
    let b = JumpBoost::new(Vec2::new(100_000, 0), Vec2::new(10_000, 10_000), false, Vec2::new(1000, 0));
    g.jump_boosts.push(b);
    update_entities(&mut g, 1000, Vec2::new(0, 0), false, 1000);
    let moved = g.jump_boosts[0];
    assert_eq!(moved.velocity.x, 1000);
    assert_eq!(moved.velocity.y, 0);
    assert_eq!(moved.bounds.get_position().x, 101_000);
}

#[test]
fn gravity_and_damping_are_exact() {
    let mut g = fresh_game(GameState::Playing);
    // pointer at the player's center: no direction, no boost impulse
    let center = g.player.get_bounds().get_center();
    update_entities(&mut g, 1000, center, false, 1000);
    // gravity adds 150_000; the position integrates it; damping keeps 99%
    assert_eq!(g.player.position.y, 650_000);
    assert_eq!(g.player.velocity.y, 148_500);
    assert_eq!(g.player.velocity.x, 0);
    assert_eq!(g.player.boost_counter, 10);
}

#[test]
fn boost_fires_and_consumes_one() {
    let mut g = fresh_game(GameState::Playing);
    let fx = update_entities(&mut g, 16, Vec2::new(0, 0), true, 600);
    assert!(fx.boost_sound);
    assert_eq!(g.player.boost_counter, 9);
}

#[test]
fn boost_respects_the_cooldown() {
    let mut g = fresh_game(GameState::Playing);
    let fx = update_entities(&mut g, 16, Vec2::new(0, 0), true, 400);
    assert!(!fx.boost_sound);
    assert_eq!(g.player.boost_counter, 10);
}

#[test]
fn acceleration_bound_follows_the_elapsed_time() {
    let rng = RandGenerator::new();
    rng.srand(5);
    let g = fresh_game(GameState::Playing);
    // early in the round the bound sits at its floor of 200_000
    for _ in 0..50 {
        let a = random_boost_acceleration(&g, &rng, 1000);
        assert!(-200_000 <= a.x && a.x < 200_000);
        assert!(-200_000 <= a.y && a.y < 200_000);
    }
    // after 100 seconds the bound has grown to 1_000_000 - 200_000
    for _ in 0..50 {
        let a = random_boost_acceleration(&g, &rng, 100_000);
        assert!(-800_000 <= a.x && a.x < 800_000);
        assert!(-800_000 <= a.y && a.y < 800_000);
    }
}

#[test]
fn boost_impulse_is_clamped_and_integrated() {
    let mut g = fresh_game(GameState::Playing);
    // pointer straight below the center: the impulse is (0, 20 units/s),
    // clamped to the 10 units/s speed cap
    let center = g.player.get_bounds().get_center();
    let below = Vec2::new(center.x, center.y + 1000);
    let fx = update_entities(&mut g, 16, below, true, 600);
    assert!(fx.boost_sound);
    assert_eq!(g.player.velocity.x, 0);
    // clamped to 10_000_000, moved 10_000_000 * 16 / 1000, then damped by 1%
    assert_eq!(g.player.position.y, 500_000 + 160_000);
    assert_eq!(g.player.velocity.y, 9_900_000);
    assert_eq!(g.player.boost_counter, 9);
}

#[test]
fn falling_off_screen_latches_death_once_then_ends() {
    // Scenario: the player sits fully below the visible rectangle for
    // two seconds of simulated time; the phase goes Playing to
    // EndScreen exactly once, latched at the first off-screen frame.
    let rng = RandGenerator::new();
    rng.srand(1);
    let mut g = fresh_game(GameState::Playing);
    g.player.position = Vec2::new(500_000, 2 * UNIT);
    let pointer = Vec2::new(0, 0);
    let mut latches = 0;
    let mut transitions = 0;
    let mut now: u64 = 0;
    for _ in 0..200 {
        now += 16;
        let fx = playing_state(&mut g, &rng, 16, pointer, false, now);
        if fx.died {
            latches += 1;
            assert_eq!(g.time_played_ms, now);
        }
        if fx.entered_end_screen {
            transitions += 1;
        }
        if matches!(g.game_state, GameState::EndScreen) {
            break;
        }
    }
    assert_eq!(latches, 1);
    assert_eq!(transitions, 1);
    assert!(matches!(g.game_state, GameState::EndScreen));
    assert!(g.is_dead);
    // the latch happened on the very first frame
    assert_eq!(g.time_played_ms, 16);
    // and the end screen began once the two-second delay ran out
    assert!(now >= 16 + 2000);
}

#[test]
fn alive_frames_report_the_elapsed_time() {
    let rng = RandGenerator::new();
    rng.srand(2);
    let mut g = fresh_game(GameState::Playing);
    let center = g.player.get_bounds().get_center();
    let fx = playing_state(&mut g, &rng, 16, center, false, 16);
    match fx.report {
        Some(Notification::Time { name, time_ms }) => {
            assert_eq!(name, "empty".to_string());
            assert_eq!(time_ms, 16);
        }
        _ => panic!("an alive frame must report the elapsed time"),
    }
}

#[test]
fn menu_claim_starts_playing() {
    let mut g = fresh_game(GameState::Menu);
    let mut store = LeaderboardStore::new();
    let r = menu_state(&mut g, &mut store, "ann".to_string(), 50);
    match r {
        Some(Notification::Register { name }) => assert_eq!(name, "ann".to_string()),
        _ => panic!("a successful claim must announce the name"),
    }
    assert!(matches!(g.game_state, GameState::Playing));
    assert_eq!(store.get(&"ann".to_string()), Some(0));
    assert_eq!(g.start_time_ms, 50);
    assert!(!g.show_name_already_exists);
}

#[test]
fn menu_conflict_raises_the_timed_warning() {
    let mut g = fresh_game(GameState::Menu);
    let mut store = LeaderboardStore::new();
    store.upsert("ann".to_string(), 3);
    let r = menu_state(&mut g, &mut store, "ann".to_string(), 50);
    assert!(r.is_none());
    assert!(matches!(g.game_state, GameState::Menu));
    assert!(g.show_name_already_exists);
    // the warning stays up for three seconds, then clears
    menu_update_warning(&mut g, 50 + 2999);
    assert!(g.show_name_already_exists);
    menu_update_warning(&mut g, 50 + 3000);
    assert!(!g.show_name_already_exists);
}

#[test]
fn empty_name_raises_the_warning_too() {
    let mut g = fresh_game(GameState::Menu);
    let mut store = LeaderboardStore::new();
    let r = menu_state(&mut g, &mut store, String::new(), 10);
    assert!(r.is_none());
    assert!(g.show_name_already_exists);
    assert!(store.is_empty());
}

#[test]
fn play_again_resets_the_round() {
    let mut g = fresh_game(GameState::Playing);
    g.game_state = GameState::EndScreen;
    g.is_dead = true;
    g.time_played_ms = 12345;
    end_screen_play_again(&mut g, 9000);
    assert!(matches!(g.game_state, GameState::Playing));
    assert!(!g.is_dead);
    assert_eq!(g.time_played_ms, 0);
    assert_eq!(g.start_time_ms, 9000);
    assert_eq!(g.jump_boosts.len(), 0);
}

#[test]
fn main_menu_withdraws_once() {
    let mut g = fresh_game(GameState::Playing);
    g.game_state = GameState::EndScreen;
    let first = end_screen_main_menu(&mut g);
    match first {
        Some(Notification::Time { time_ms, .. }) => assert!(time_ms < 0),
        _ => panic!("leaving to the menu must withdraw the score"),
    }
    assert!(matches!(g.game_state, GameState::Menu));
    g.game_state = GameState::EndScreen;
    assert!(end_screen_main_menu(&mut g).is_none());
}

#[test]
fn visibility_follows_the_view_radius() {
    let g = fresh_game(GameState::Playing);
    let near = JumpBoost::new(
        g.player.get_bounds().get_center(),
        Vec2::new(10_000, 10_000),
        false,
        Vec2::new(0, 0),
    );
    assert!(boost_visible(&g.player, &near));
    let far = JumpBoost::new(Vec2::new(0, 0), Vec2::new(10_000, 10_000), false, Vec2::new(0, 0));
    // the far corner lies outside even the large radius
    assert!(!boost_visible(&g.player, &far));
}

#[test]
fn screen_is_the_unit_square() {
    let sb = screen_bounds();
    assert_eq!(sb.get_position().x, 0);
    assert_eq!(sb.get_size().x, UNIT);
    assert_eq!(sb.get_size().y, UNIT);
}
