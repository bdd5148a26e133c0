use zombie_shooter::rules::{heal, spawn_batch, wave_spawn_budget, PLAYER_MAX_HP, WAVE_BUDGET_CAP};
use zombie_shooter::scoring::{Combo, COMBO_BASE_QUARTERS, COMBO_MAX_QUARTERS};

#[test]
fn wave_budget_grows_by_five_per_wave() {
    assert_eq!(wave_spawn_budget(0), 8);
    assert_eq!(wave_spawn_budget(1), 13);
    assert_eq!(wave_spawn_budget(2), 18);
    assert_eq!(wave_spawn_budget(22), 118);
}

#[test]
fn wave_budget_is_capped() {
    assert_eq!(wave_spawn_budget(23), 120);
    assert_eq!(wave_spawn_budget(100), WAVE_BUDGET_CAP);
    assert_eq!(wave_spawn_budget(u32::MAX), 120);
}

#[test]
fn wave_budget_never_shrinks() {
    let mut prev = wave_spawn_budget(1);
    for w in 2..200u32 {
        let b = wave_spawn_budget(w);
        assert!(b >= prev);
        assert!(b <= 120);
        prev = b;
    }
}

#[test]
fn spawn_batch_grows_with_wave() {
    assert_eq!(spawn_batch(1, 0, 13), 1);
    assert_eq!(spawn_batch(2, 0, 18), 2);
    assert_eq!(spawn_batch(4, 5, 28), 3);
    assert_eq!(spawn_batch(9, 0, 53), 5);
}

#[test]
fn spawn_batch_limited_by_budget() {
    assert_eq!(spawn_batch(10, 0, 2), 2);
    assert_eq!(spawn_batch(10, 0, 0), 0);
}

#[test]
fn spawn_batch_stops_when_field_is_full() {
    // wave 1 allows at most 12 alive before spawning pauses
    assert_eq!(spawn_batch(1, 11, 13), 1);
    assert_eq!(spawn_batch(1, 12, 13), 0);
    assert_eq!(spawn_batch(5, 20, 30), 0);
    assert_eq!(spawn_batch(5, 19, 30), 3);
}

#[test]
fn spawn_batch_huge_wave() {
    assert_eq!(spawn_batch(u32::MAX, 0, 120), 120);
    assert_eq!(spawn_batch(u32::MAX, 1000, 7), 7);
}

#[test]
fn heal_caps_at_max() {
    assert_eq!(heal(5, 2), PLAYER_MAX_HP);
    assert_eq!(heal(3, 2), 5);
    assert_eq!(heal(6, 1), 6);
    assert_eq!(heal(-2, 1), -1);
    assert_eq!(heal(0, 1), 1);
}

#[test]
fn combo_starts_at_one_and_caps_at_four() {
    let mut c = Combo::base();
    assert_eq!(c.quarters, COMBO_BASE_QUARTERS);
    for _ in 0..20 {
        c = c.after_kill();
    }
    assert_eq!(c.quarters, COMBO_MAX_QUARTERS);
    assert_eq!(c.after_kill().quarters, 16);
}

#[test]
fn kill_points_round_half_up() {
    assert_eq!(Combo { quarters: 4 }.kill_points(), 10);
    assert_eq!(Combo { quarters: 5 }.kill_points(), 13); // 12.5
    assert_eq!(Combo { quarters: 6 }.kill_points(), 15);
    assert_eq!(Combo { quarters: 7 }.kill_points(), 18); // 17.5
    assert_eq!(Combo { quarters: 16 }.kill_points(), 40);
}

#[test]
fn kill_points_match_float_rounding() {
    for q in 4u32..=16 {
        let combo = q as f32 / 4.0;
        let expected = (10.0 * combo).round() as u32;
        assert_eq!(Combo { quarters: q }.kill_points(), expected);
    }
}
