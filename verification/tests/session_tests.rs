use zombie_shooter::horde::{ZKind, Zombie};
use zombie_shooter::rules::PLAYER_MAX_HP;
use zombie_shooter::scoring::Combo;
use zombie_shooter::session::{collect_powerups, Boost, Drop, Powerup, Session, State};

fn horde(n: u32) -> Vec<Zombie<u32>> {
    (0..n).map(|k| Zombie::new(k, ZKind::Normal)).collect()
}

#[test]
fn new_game_state() {
    let s = Session::new();
    assert_eq!(s.score, 0);
    assert_eq!(s.combo.quarters, 4);
    assert_eq!(s.wave, 1);
    assert_eq!(s.state, State::Running);
    assert_eq!(s.spawn_budget_left, 13);
    assert_eq!(s.hp, PLAYER_MAX_HP);
}

#[test]
fn spawning_draws_from_the_budget() {
    let mut s = Session::new();
    let mut spawned = 0;
    let mut frames = 0;
    while s.spawn_budget_left > 0 {
        let batch = s.take_spawn_batch(0);
        assert_eq!(batch, 1);
        spawned += batch;
        frames += 1;
    }
    assert_eq!(spawned, 13);
    assert_eq!(frames, 13);
    assert_eq!(s.take_spawn_batch(0), 0);
}

#[test]
fn spawning_pauses_on_a_full_field() {
    let mut s = Session::new();
    assert_eq!(s.take_spawn_batch(12), 0);
    assert_eq!(s.spawn_budget_left, 13);
}

#[test]
fn kills_raise_score_and_combo() {
    let mut s = Session::new();
    assert!(s.kills_fit(3));
    s.register_kills(3);
    assert_eq!(s.score, 10 + 13 + 15);
    assert_eq!(s.combo.quarters, 7);
    s.register_kills(1);
    assert_eq!(s.score, 38 + 18);
    assert_eq!(s.combo.quarters, 8);
}

#[test]
fn long_kill_streak_caps_multiplier() {
    let mut s = Session::new();
    s.register_kills(20);
    // 10,13,15,18,20,23,25,28,30,33,35,38 then 40 for the remaining 8
    assert_eq!(s.score, 288 + 8 * 40);
    assert_eq!(s.combo.quarters, 16);
}

#[test]
fn combo_timer_resets_multiplier() {
    let mut s = Session::new();
    s.register_kills(5);
    s.tick_combo(false);
    assert_eq!(s.combo.quarters, 9);
    s.tick_combo(true);
    assert_eq!(s.combo, Combo::base());
    assert_eq!(s.score, 10 + 13 + 15 + 18 + 20);
}

#[test]
fn kills_fit_detects_overflow() {
    let mut s = Session::new();
    s.score = u32::MAX - 20;
    assert!(s.kills_fit(1));
    assert!(!s.kills_fit(2));
    assert!(s.kills_fit(0));
    s.score = u32::MAX;
    assert!(!s.kills_fit(1));
}

#[test]
fn hits_cost_hit_points_until_game_over() {
    let mut s = Session::new();
    s.take_hits(2);
    assert_eq!(s.hp, 4);
    assert_eq!(s.state, State::Running);
    s.take_hits(0);
    assert_eq!(s.hp, 4);
    s.take_hits(4);
    assert_eq!(s.hp, 0);
    assert_eq!(s.state, State::GameOver);
    s.take_hits(3);
    assert_eq!(s.hp, -3);
    assert_eq!(s.state, State::GameOver);
}

#[test]
fn player_contacts_remove_zombies() {
    let mut s = Session::new();
    let mut zs = horde(4);
    let hits = s.resolve_player_contacts(&mut zs, vec![false, true, false, true]);
    assert_eq!(hits, 2);
    assert_eq!(s.hp, 4);
    let left: Vec<u32> = zs.iter().map(|z| z.body).collect();
    assert_eq!(left, vec![0, 2]);
}

#[test]
fn last_hit_point_ends_the_game() {
    let mut s = Session::new();
    s.hp = 1;
    let mut zs = horde(2);
    assert_eq!(s.resolve_player_contacts(&mut zs, vec![true, false]), 1);
    assert_eq!(s.state, State::GameOver);
    assert_eq!(s.hp, 0);
}

#[test]
fn heal_powerup() {
    let mut s = Session::new();
    s.hp = 3;
    let mut zs = horde(2);
    assert_eq!(s.apply_powerup(Drop::Heal, &mut zs, vec![true, true]), Boost::Nothing);
    assert_eq!(s.hp, 5);
    assert_eq!(zs.len(), 2);
    s.apply_powerup(Drop::Heal, &mut zs, vec![false, false]);
    assert_eq!(s.hp, 6);
}

#[test]
fn bomb_powerup_scores_fifteen_per_kill() {
    let mut s = Session::new();
    let mut zs = horde(5);
    let boost = s.apply_powerup(Drop::Bomb, &mut zs, vec![true, false, true, true, false]);
    assert_eq!(boost, Boost::Nothing);
    assert_eq!(s.score, 45);
    let left: Vec<u32> = zs.iter().map(|z| z.body).collect();
    assert_eq!(left, vec![4, 1]);
    assert_eq!(s.combo.quarters, 4);
}

#[test]
fn bomb_with_nothing_in_range() {
    let mut s = Session::new();
    let mut zs = horde(3);
    s.apply_powerup(Drop::Bomb, &mut zs, vec![false, false, false]);
    assert_eq!(s.score, 0);
    assert_eq!(zs.len(), 3);
}

#[test]
fn timed_powerups_name_their_boost() {
    let mut s = Session::new();
    let before = s;
    let mut zs = horde(1);
    assert_eq!(s.apply_powerup(Drop::Rapid, &mut zs, vec![true]), Boost::RapidFire);
    assert_eq!(s.apply_powerup(Drop::Slow, &mut zs, vec![true]), Boost::SlowZombies);
    assert_eq!(s, before);
    assert_eq!(zs.len(), 1);
}

#[test]
fn wave_clears_only_when_nothing_is_left() {
    let mut s = Session::new();
    assert!(!s.check_wave_cleared(0));
    assert_eq!(s.state, State::Running);
    s.spawn_budget_left = 0;
    assert!(!s.check_wave_cleared(3));
    assert!(s.check_wave_cleared(0));
    assert_eq!(s.state, State::InterWave);
}

#[test]
fn next_wave_after_intermission() {
    let mut s = Session::new();
    s.spawn_budget_left = 0;
    s.hp = 3;
    s.score = 77;
    s.check_wave_cleared(0);
    s.next_wave();
    assert_eq!(s.wave, 2);
    assert_eq!(s.spawn_budget_left, 18);
    assert_eq!(s.state, State::Running);
    assert_eq!(s.hp, 4);
    assert_eq!(s.score, 77);
    // outside an intermission nothing happens
    s.next_wave();
    assert_eq!(s.wave, 2);
}

#[test]
fn wave_heal_is_capped() {
    let mut s = Session::new();
    s.state = State::InterWave;
    s.next_wave();
    assert_eq!(s.hp, 6);
}

#[test]
fn restart_after_game_over() {
    let mut s = Session::new();
    s.register_kills(4);
    s.take_hits(6);
    assert_eq!(s.state, State::GameOver);
    s.restart();
    assert_eq!(s, Session::new());
}

#[test]
fn restart_ignored_while_running() {
    let mut s = Session::new();
    s.register_kills(2);
    let before = s;
    s.restart();
    assert_eq!(s, before);
}

#[test]
fn collect_powerups_expired_and_reached() {
    let mut drops: Vec<Powerup<u32>> = vec![
        Powerup { body: 0, kind: Drop::Heal },
        Powerup { body: 1, kind: Drop::Bomb },
        Powerup { body: 2, kind: Drop::Rapid },
        Powerup { body: 3, kind: Drop::Slow },
    ];
    // 0 expired, 1 reached, 2 untouched, 3 expired and reached
    let picked = collect_powerups(
        &mut drops,
        vec![true, false, false, true],
        vec![false, true, false, true],
    );
    let picked_bodies: Vec<u32> = picked.iter().map(|p| p.body).collect();
    assert_eq!(picked_bodies, vec![1]);
    assert_eq!(picked[0].kind, Drop::Bomb);
    let left: Vec<u32> = drops.iter().map(|p| p.body).collect();
    assert_eq!(left, vec![2]);
}

#[test]
fn collect_powerups_pickup_order() {
    let mut drops: Vec<Powerup<u32>> = (0..4).map(|k| Powerup { body: k, kind: Drop::Heal }).collect();
    let picked = collect_powerups(&mut drops, vec![false; 4], vec![true, false, false, true]);
    let picked_bodies: Vec<u32> = picked.iter().map(|p| p.body).collect();
    // 0 is taken, 3 moves into its slot and is taken next
    assert_eq!(picked_bodies, vec![0, 3]);
    let left: Vec<u32> = drops.iter().map(|p| p.body).collect();
    assert_eq!(left, vec![2, 1]);
}

#[test]
fn split_streak_scores_like_one_streak() {
    for first in 0..12usize {
        let mut a = Session::new();
        a.register_kills(first);
        a.register_kills(15 - first);
        let mut b = Session::new();
        b.register_kills(15);
        assert_eq!(a, b);
    }
}

#[test]
fn one_at_a_time_kills_match_a_batch() {
    let mut a = Session::new();
    for _ in 0..7 {
        a.register_kills(1);
    }
    let mut b = Session::new();
    b.register_kills(7);
    assert_eq!(a.score, b.score);
    assert_eq!(a.combo, b.combo);
}

#[test]
fn streak_points_stay_between_ten_and_forty_each() {
    for n in 0..40usize {
        let mut s = Session::new();
        s.register_kills(n);
        assert!(s.score as usize >= 10 * n && s.score as usize <= 40 * n);
    }
}

#[test]
fn budget_left_never_exceeds_wave_budget() {
    let mut s = Session::new();
    for _ in 0..30 {
        while s.take_spawn_batch(0) > 0 {}
        assert!(s.check_wave_cleared(0));
        s.next_wave();
        assert_eq!(s.spawn_budget_left, zombie_shooter::rules::wave_spawn_budget(s.wave));
        assert!(s.spawn_budget_left <= 120);
    }
    assert_eq!(s.wave, 31);
}

fn near(z: &Zombie<u32>) -> bool {
    z.body % 2 == 0
}

#[test]
fn second_bomb_changes_nothing() {
    let mut s = Session::new();
    let mut zs = horde(5);
    let flags: Vec<bool> = zs.iter().map(near).collect();
    s.apply_powerup(Drop::Bomb, &mut zs, flags);
    assert_eq!(s.score, 45);
    let after_once = s;
    let left: Vec<u32> = zs.iter().map(|z| z.body).collect();
    let flags: Vec<bool> = zs.iter().map(near).collect();
    s.apply_powerup(Drop::Bomb, &mut zs, flags);
    assert_eq!(s, after_once);
    assert_eq!(zs.iter().map(|z| z.body).collect::<Vec<u32>>(), left);
}

#[test]
fn powerups_never_lower_hit_points() {
    for kind in [Drop::Heal, Drop::Bomb, Drop::Rapid, Drop::Slow] {
        for hp in 0..=6 {
            let mut s = Session::new();
            s.hp = hp;
            let mut zs = horde(3);
            s.apply_powerup(kind, &mut zs, vec![true, false, true]);
            assert!(s.hp >= hp && s.hp <= PLAYER_MAX_HP);
        }
    }
}

#[test]
fn powerup_score_tracks_removed_zombies() {
    for kind in [Drop::Heal, Drop::Bomb, Drop::Rapid, Drop::Slow] {
        let mut s = Session::new();
        s.score = 100;
        let mut zs = horde(4);
        s.apply_powerup(kind, &mut zs, vec![false, true, true, true]);
        assert_eq!(s.score - 100, 15 * (4 - zs.len() as u32));
    }
}
