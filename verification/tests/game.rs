use space_warior::game_object::{GameObject, Visual};
use space_warior::world::{Effects, FrameInput, GameState, World};

const FIELD_W: i64 = 800_000;
const FIELD_H: i64 = 600_000;

fn idle_input(now_ms: u64, dt_ms: i64) -> FrameInput {
    FrameInput {
        now_ms,
        dt_ms,
        fire_pressed: false,
        pause_pressed: false,
        left_down: false,
        right_down: false,
        up_down: false,
        down_down: false,
        left_pressed: false,
        right_pressed: false,
    }
}

fn enemy_at(x: i64, y: i64, size: i64) -> GameObject {
    GameObject {
        width: size,
        height: size,
        speed: 300,
        x,
        y,
        collided: false,
        visual: Visual::EnemyBig,
        animation_num: 0,
    }
}

fn bullet_at(x: i64, y: i64) -> GameObject {
    GameObject {
        width: 32_000,
        height: 32_000,
        speed: 400,
        x,
        y,
        collided: false,
        visual: Visual::Bullet,
        animation_num: 1,
    }
}

fn playing_world() -> World {
    let mut w = World::new(FIELD_W, FIELD_H, 0);
    w.state = GameState::Playing;
    w
}

#[test]
fn new_world_starts_in_main_menu() {
    let w = World::new(FIELD_W, FIELD_H, 17);
    assert_eq!(w.state, GameState::MainMenu);
    assert_eq!(w.score, 0);
    assert_eq!(w.high_score, 17);
    assert_eq!(w.player.x, FIELD_W / 2);
    assert_eq!(w.player.y, FIELD_H / 2);
    assert!(w.enemies.is_empty());
    assert!(w.bullets.is_empty());
}

#[test]
fn menu_quit_key_requests_exit() {
    let mut w = World::new(FIELD_W, FIELD_H, 0);
    let mut input = idle_input(0, 16);
    input.pause_pressed = true;
    let eff: Effects = w.step_frame(input, None);
    assert!(eff.exit);
    assert_eq!(w.state, GameState::MainMenu);
}

#[test]
fn menu_fire_key_starts_fresh_session() {
    let mut w = World::new(FIELD_W, FIELD_H, 123);
    w.enemies.push(enemy_at(100_000, 100_000, 80_000));
    w.bullets.push(bullet_at(50_000, 50_000));
    w.score = 7; // leftover from a previous session
    let mut input = idle_input(0, 16);
    input.fire_pressed = true;
    let eff = w.step_frame(input, None);
    assert!(!eff.exit);
    assert_eq!(w.state, GameState::Playing);
    assert_eq!(w.score, 0);
    assert_eq!(w.high_score, 123);
    assert!(w.enemies.is_empty());
    assert!(w.bullets.is_empty());
    assert_eq!(w.player.x, FIELD_W / 2);
    assert_eq!(w.player.y, FIELD_H / 2);
}

#[test]
fn pause_and_resume_keep_entities() {
    let mut w = playing_world();
    w.enemies.push(enemy_at(100_000, 100_000, 80_000));
    let mut input = idle_input(1_000, 16);
    input.pause_pressed = true;
    w.step_frame(input, None);
    assert_eq!(w.state, GameState::Paused);
    assert_eq!(w.enemies.len(), 1);

    let mut resume = idle_input(2_000, 16);
    resume.fire_pressed = true;
    w.step_frame(resume, None);
    assert_eq!(w.state, GameState::Playing);
    assert_eq!(w.enemies.len(), 1);
}

#[test]
fn paused_pause_key_wins_over_fire() {
    let mut w = playing_world();
    w.state = GameState::Paused;
    let mut input = idle_input(0, 16);
    input.fire_pressed = true;
    input.pause_pressed = true;
    w.step_frame(input, None);
    assert_eq!(w.state, GameState::MainMenu);
}

#[test]
fn game_over_fire_key_resets() {
    let mut w = playing_world();
    w.state = GameState::GameOver;
    w.score = 40;
    w.high_score = 40;
    w.enemies.push(enemy_at(100_000, 100_000, 80_000));
    let mut input = idle_input(0, 16);
    input.fire_pressed = true;
    w.step_frame(input, None);
    assert_eq!(w.state, GameState::Playing);
    assert_eq!(w.score, 0);
    assert_eq!(w.high_score, 40);
    assert!(w.enemies.is_empty());
}

#[test]
fn game_over_both_keys_end_in_menu_with_cleared_entities() {
    let mut w = playing_world();
    w.state = GameState::GameOver;
    w.enemies.push(enemy_at(100_000, 100_000, 80_000));
    let mut input = idle_input(0, 16);
    input.fire_pressed = true;
    input.pause_pressed = true;
    w.step_frame(input, None);
    assert_eq!(w.state, GameState::MainMenu);
    assert!(w.enemies.is_empty());
}

#[test]
fn overlapping_enemy_ends_session() {
    // Player at field center, one enemy directly overlapping its rectangle:
    // the next frame transitions to GameOver.
    let mut w = playing_world();
    w.enemies.push(enemy_at(FIELD_W / 2, FIELD_H / 2, 100_000));
    let eff = w.step_frame(idle_input(0, 0), None);
    assert_eq!(w.state, GameState::GameOver);
    assert!(eff.explosions.is_empty());
    // The frozen battlefield is retained.
    assert_eq!(w.enemies.len(), 1);
}

#[test]
fn session_end_persists_fresh_high_score_exactly_once() {
    let mut w = playing_world();
    w.score = 50;
    w.high_score = 50;
    w.enemies.push(enemy_at(FIELD_W / 2, FIELD_H / 2, 100_000));
    let eff = w.step_frame(idle_input(0, 0), None);
    assert_eq!(w.state, GameState::GameOver);
    assert_eq!(eff.persist_high_score, Some(50));
    // Staying in game over writes nothing further.
    let eff2 = w.step_frame(idle_input(16, 16), None);
    assert_eq!(eff2.persist_high_score, None);
    assert_eq!(w.state, GameState::GameOver);
}

#[test]
fn session_end_without_record_persists_nothing() {
    let mut w = playing_world();
    w.score = 10;
    w.high_score = 50;
    w.enemies.push(enemy_at(FIELD_W / 2, FIELD_H / 2, 100_000));
    let eff = w.step_frame(idle_input(0, 0), None);
    assert_eq!(w.state, GameState::GameOver);
    assert_eq!(eff.persist_high_score, None);
}

#[test]
fn fire_twice_within_cooldown_makes_one_bullet() {
    // Cooldown is 100 ms; two presses 50 ms apart yield exactly one bullet.
    let mut w = playing_world();
    let mut first = idle_input(1_000, 0);
    first.fire_pressed = true;
    let eff1 = w.step_frame(first, None);
    assert!(eff1.play_laser);
    assert_eq!(w.bullets.len(), 1);

    let mut second = idle_input(1_050, 0);
    second.fire_pressed = true;
    let eff2 = w.step_frame(second, None);
    assert!(!eff2.play_laser);
    assert_eq!(w.bullets.len(), 1);

    let mut third = idle_input(1_100, 0);
    third.fire_pressed = true;
    let eff3 = w.step_frame(third, None);
    assert!(eff3.play_laser);
    assert_eq!(w.bullets.len(), 2);
}

#[test]
fn bullet_spawns_above_player_at_double_speed() {
    let mut w = playing_world();
    let mut input = idle_input(1_000, 0);
    input.fire_pressed = true;
    w.step_frame(input, None);
    assert_eq!(w.bullets.len(), 1);
    assert_eq!(w.bullets[0].x, w.player.x);
    assert_eq!(w.bullets[0].y, w.player.y - 24_000);
    assert_eq!(w.bullets[0].speed, 2 * w.player.speed);
    assert_eq!(w.bullets[0].visual, Visual::Bullet);
}

#[test]
fn bullet_kill_scores_rounded_enemy_size() {
    let mut w = playing_world();
    let e = enemy_at(200_000, 200_000, 96_499);
    w.enemies.push(e);
    w.bullets.push(bullet_at(200_000, 200_000));
    let eff = w.step_frame(idle_input(0, 0), None);
    // 96499 units round to 96 whole pixels.
    assert_eq!(w.score, 96);
    assert_eq!(w.high_score, 96);
    assert_eq!(w.enemies.len(), 0);
    assert_eq!(w.bullets.len(), 0);
    assert_eq!(eff.explosions.len(), 1);
    assert_eq!(eff.explosions[0].x, 200_000);
    assert_eq!(eff.explosions[0].y, 200_000);
    assert_eq!(eff.explosions[0].amount, 96);
}

#[test]
fn one_bullet_can_destroy_two_overlapping_enemies() {
    // The pairwise pass has no one-hit guard: a bullet overlapping two
    // enemies scores both in the same frame.
    let mut w = playing_world();
    w.enemies.push(enemy_at(200_000, 200_000, 100_000));
    w.enemies.push(enemy_at(210_000, 200_000, 100_000));
    w.bullets.push(bullet_at(205_000, 200_000));
    let eff = w.step_frame(idle_input(0, 0), None);
    assert_eq!(w.score, 200);
    assert_eq!(w.enemies.len(), 0);
    assert_eq!(w.bullets.len(), 0);
    assert_eq!(eff.explosions.len(), 2);
}

#[test]
fn score_is_monotone_over_session_frames() {
    let mut w = playing_world();
    w.enemies.push(enemy_at(200_000, 200_000, 100_000));
    w.bullets.push(bullet_at(200_000, 200_000));
    let mut last_score = w.score;
    for f in 0..10u64 {
        w.step_frame(idle_input(f * 16, 16), None);
        assert!(w.score >= last_score);
        last_score = w.score;
        if w.state != GameState::Playing {
            break;
        }
    }
}

#[test]
fn enemies_move_down_and_bullets_up() {
    let mut w = playing_world();
    w.enemies.push(enemy_at(200_000, 100_000, 80_000));
    w.bullets.push(bullet_at(300_000, 400_000));
    w.step_frame(idle_input(0, 100), None);
    // enemy speed 300 units/ms over 100 ms; bullet speed 400 units/ms.
    assert_eq!(w.enemies[0].y, 100_000 + 300 * 100);
    assert_eq!(w.bullets[0].y, 400_000 - 400 * 100);
}

#[test]
fn player_clamps_at_field_edge() {
    let mut w = playing_world();
    w.player.x = 100_000;
    let mut input = idle_input(0, 1_000);
    input.left_down = true;
    w.step_frame(input, None);
    // 200 units/ms over 1000 ms would reach -100000; the clamp holds the
    // player one full width from the edge.
    assert_eq!(w.player.x, w.player.width);
}

#[test]
fn offscreen_enemy_is_culled_and_cull_is_idempotent() {
    let mut w = playing_world();
    // Just past the removal line, exactly on it, and still visible.
    w.enemies.push(enemy_at(100_000, FIELD_H + 80_000, 80_000));
    w.enemies.push(enemy_at(200_000, FIELD_H + 79_999, 80_000));
    w.step_frame(idle_input(0, 0), None);
    assert_eq!(w.enemies.len(), 1);
    assert_eq!(w.enemies[0].x, 200_000);
    // A second pass with no movement removes nothing more.
    w.step_frame(idle_input(0, 0), None);
    assert_eq!(w.enemies.len(), 1);
    assert_eq!(w.enemies[0].x, 200_000);
}

#[test]
fn offscreen_bullet_is_culled() {
    let mut w = playing_world();
    w.bullets.push(bullet_at(100_000, -32_000));
    w.bullets.push(bullet_at(200_000, -31_999));
    w.step_frame(idle_input(0, 0), None);
    assert_eq!(w.bullets.len(), 1);
    assert_eq!(w.bullets[0].x, 200_000);
}

#[test]
fn spawned_enemy_enters_and_moves_same_frame() {
    let mut w = playing_world();
    let e = enemy_at(300_000, -80_000, 80_000);
    w.step_frame(idle_input(0, 100), Some(e));
    assert_eq!(w.enemies.len(), 1);
    assert_eq!(w.enemies[0].y, -80_000 + 300 * 100);
}

#[test]
fn sideways_animation_debounces() {
    let mut w = playing_world();
    let mut input = idle_input(600, 0);
    input.right_down = true;
    input.right_pressed = true;
    // First press: 600 ms since the (zero) timer, past the 500 ms switch.
    w.step_frame(input, None);
    assert_eq!(w.player.animation_num, 4);
    // Held shortly after the press: the slight lean shows.
    let mut held = idle_input(700, 0);
    held.right_down = true;
    w.step_frame(held, None);
    assert_eq!(w.player.animation_num, 3);
    // Still held long after the press: the full lean returns.
    let mut later = idle_input(1_200, 0);
    later.right_down = true;
    w.step_frame(later, None);
    assert_eq!(w.player.animation_num, 2 + 2);
}

#[test]
fn idle_player_shows_idle_animation() {
    let mut w = playing_world();
    w.player.animation_num = 4;
    w.step_frame(idle_input(0, 16), None);
    assert_eq!(w.player.animation_num, 0);
}

#[test]
fn left_key_overrides_right_animation() {
    let mut w = playing_world();
    let mut input = idle_input(600, 0);
    input.right_down = true;
    input.left_down = true;
    w.step_frame(input, None);
    assert_eq!(w.player.animation_num, 2);
    // Opposite keys cancel the movement.
    assert_eq!(w.player.x, FIELD_W / 2);
}

#[test]
fn extents_stay_positive_through_frames() {
    let mut w = playing_world();
    w.enemies.push(enemy_at(200_000, 100_000, 80_000));
    w.bullets.push(bullet_at(300_000, 400_000));
    for f in 0..5u64 {
        let mut input = idle_input(f * 16 + 200, 16);
        input.fire_pressed = true;
        w.step_frame(input, None);
        assert!(w.player.width > 0 && w.player.height > 0);
        for e in &w.enemies {
            assert!(e.width > 0 && e.height > 0);
        }
        for b in &w.bullets {
            assert!(b.width > 0 && b.height > 0);
        }
        if w.state != GameState::Playing {
            break;
        }
    }
}

#[test]
fn high_score_follows_score_and_survives_reset() {
    let mut w = playing_world();
    w.enemies.push(enemy_at(200_000, 200_000, 100_000));
    w.bullets.push(bullet_at(200_000, 200_000));
    w.step_frame(idle_input(0, 0), None);
    assert_eq!(w.score, 100);
    assert_eq!(w.high_score, 100);
    // End the session, reset, and the high score stays.
    w.state = GameState::GameOver;
    let mut input = idle_input(16, 16);
    input.fire_pressed = true;
    w.step_frame(input, None);
    assert_eq!(w.score, 0);
    assert_eq!(w.high_score, 100);
}

#[test]
fn persisted_values_never_decrease_across_sessions() {
    let mut w = playing_world();
    w.score = 30;
    w.high_score = 30;
    w.enemies.push(enemy_at(FIELD_W / 2, FIELD_H / 2, 100_000));
    let eff1 = w.step_frame(idle_input(0, 0), None);
    let first = eff1.persist_high_score.unwrap();

    // New session: score a larger record, then end it.
    let mut fire = idle_input(100, 0);
    fire.fire_pressed = true;
    w.step_frame(fire, None);
    assert_eq!(w.state, GameState::Playing);
    w.enemies.push(enemy_at(200_000, 200_000, 100_000));
    w.bullets.push(bullet_at(200_000, 200_000));
    w.step_frame(idle_input(200, 0), None);
    assert_eq!(w.score, 100);
    w.enemies.push(enemy_at(FIELD_W / 2, FIELD_H / 2, 100_000));
    let eff2 = w.step_frame(idle_input(300, 0), None);
    let second = eff2.persist_high_score.unwrap();
    assert!(second >= first);
    assert_eq!(second, 100);
}

#[test]
fn pause_request_during_play_is_honored_after_the_frame() {
    let mut w = playing_world();
    w.enemies.push(enemy_at(200_000, 100_000, 80_000));
    let mut input = idle_input(0, 100);
    input.pause_pressed = true;
    w.step_frame(input, None);
    assert_eq!(w.state, GameState::Paused);
    // The frame still processed: the enemy moved.
    assert_eq!(w.enemies[0].y, 100_000 + 300 * 100);
}

#[test]
fn collision_beats_pause_request() {
    let mut w = playing_world();
    w.enemies.push(enemy_at(FIELD_W / 2, FIELD_H / 2, 100_000));
    let mut input = idle_input(0, 0);
    input.pause_pressed = true;
    w.step_frame(input, None);
    assert_eq!(w.state, GameState::GameOver);
}
