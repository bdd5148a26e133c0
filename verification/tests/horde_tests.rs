use zombie_shooter::horde::{remove_flagged, resolve_bullet_hits, ZKind, Zombie};

fn z(tag: u32, kind: ZKind) -> Zombie<u32> {
    Zombie::new(tag, kind)
}

fn tags(zs: &Vec<Zombie<u32>>) -> Vec<u32> {
    zs.iter().map(|z| z.body).collect()
}

#[test]
fn starting_hit_points_by_kind() {
    assert_eq!(ZKind::Normal.starting_hp(), 2);
    assert_eq!(ZKind::Fast.starting_hp(), 1);
    assert_eq!(ZKind::Tank.starting_hp(), 3);
    let t = z(7, ZKind::Tank);
    assert_eq!(t.hp, 3);
    assert_eq!(t.body, 7);
    assert_eq!(t.kind, ZKind::Tank);
}

#[test]
fn remove_flagged_swaps_in_the_last() {
    let mut items = vec![1, 2, 3, 4, 5];
    let removed = remove_flagged(&mut items, vec![true, false, true, false, false]);
    assert_eq!(removed, vec![1, 3]);
    assert_eq!(items, vec![5, 2, 4]);
}

#[test]
fn remove_flagged_rechecks_the_swapped_entry() {
    let mut items = vec![10, 20, 30];
    let removed = remove_flagged(&mut items, vec![true, false, true]);
    // 30 moves into slot 0 and is removed there as well
    assert_eq!(removed, vec![10, 30]);
    assert_eq!(items, vec![20]);
}

#[test]
fn remove_flagged_nothing_and_everything() {
    let mut items = vec![1, 2, 3];
    assert!(remove_flagged(&mut items, vec![false, false, false]).is_empty());
    assert_eq!(items, vec![1, 2, 3]);
    let removed = remove_flagged(&mut items, vec![true, true, true]);
    assert_eq!(removed, vec![1, 3, 2]);
    assert!(items.is_empty());
    let mut empty: Vec<u8> = vec![];
    assert!(remove_flagged(&mut empty, vec![]).is_empty());
}

#[test]
fn remove_flagged_keeps_every_entry_once() {
    let mut items: Vec<u32> = (0..9).collect();
    let flags: Vec<bool> = (0..9).map(|k| k % 3 != 1).collect();
    let removed = remove_flagged(&mut items, flags);
    assert_eq!(removed.len(), 6);
    let mut all: Vec<u32> = items.iter().chain(removed.iter()).copied().collect();
    all.sort();
    assert_eq!(all, (0..9).collect::<Vec<u32>>());
    for x in &items {
        assert_eq!(x % 3, 1);
    }
    for x in &removed {
        assert_ne!(x % 3, 1);
    }
}

#[test]
fn bullet_kills_fast_zombie() {
    let mut zombies = vec![z(0, ZKind::Fast), z(1, ZKind::Normal)];
    let mut bullets = vec!['a', 'b'];
    let hits = vec![vec![false, true], vec![false, false]];
    let killed = resolve_bullet_hits(&mut zombies, &mut bullets, &hits);
    assert_eq!(tags(&killed), vec![0]);
    assert_eq!(killed[0].hp, 0);
    assert_eq!(tags(&zombies), vec![1]);
    assert_eq!(zombies[0].hp, 2);
    assert_eq!(bullets, vec!['a']);
}

#[test]
fn one_bullet_per_zombie_per_frame() {
    // both bullets overlap the tank; it takes only the first
    let mut zombies = vec![z(0, ZKind::Tank)];
    let mut bullets = vec!['a', 'b'];
    let hits = vec![vec![true, true]];
    let killed = resolve_bullet_hits(&mut zombies, &mut bullets, &hits);
    assert!(killed.is_empty());
    assert_eq!(zombies[0].hp, 2);
    assert_eq!(bullets, vec!['b']);
}

#[test]
fn used_bullet_is_not_reused() {
    // one bullet overlapping two zombies strikes only the first
    let mut zombies = vec![z(0, ZKind::Normal), z(1, ZKind::Fast)];
    let mut bullets = vec!['a'];
    let hits = vec![vec![true], vec![true]];
    let killed = resolve_bullet_hits(&mut zombies, &mut bullets, &hits);
    assert!(killed.is_empty());
    assert_eq!(tags(&zombies), vec![0, 1]);
    assert_eq!(zombies[0].hp, 1);
    assert_eq!(zombies[1].hp, 1);
    assert!(bullets.is_empty());
}

#[test]
fn dead_zombie_swapped_out_and_replacement_checked() {
    // zombie 0 dies; zombie 2 moves into slot 0 and is checked next
    let mut zombies = vec![z(0, ZKind::Fast), z(1, ZKind::Normal), z(2, ZKind::Fast)];
    let mut bullets = vec!['a', 'b', 'c'];
    let hits = vec![
        vec![true, false, false],
        vec![false, false, false],
        vec![false, false, true],
    ];
    let killed = resolve_bullet_hits(&mut zombies, &mut bullets, &hits);
    assert_eq!(tags(&killed), vec![0, 2]);
    assert_eq!(tags(&zombies), vec![1]);
    assert_eq!(zombies[0].hp, 2);
    assert_eq!(bullets, vec!['b']);
}

#[test]
fn bullet_order_after_swap_remove_decides_the_hit() {
    // bullet 'a' is used by zombie 0; 'c' moves into slot 0 and is found first
    // by zombie 1, which overlaps both 'b' and 'c'
    let mut zombies = vec![z(0, ZKind::Normal), z(1, ZKind::Normal)];
    let mut bullets = vec!['a', 'b', 'c'];
    let hits = vec![vec![true, false, false], vec![false, true, true]];
    let killed = resolve_bullet_hits(&mut zombies, &mut bullets, &hits);
    assert!(killed.is_empty());
    assert_eq!(bullets, vec!['b']);
    assert_eq!(zombies[0].hp, 1);
    assert_eq!(zombies[1].hp, 1);
}

#[test]
fn no_bullets_no_hits() {
    let mut zombies = vec![z(0, ZKind::Fast)];
    let mut bullets: Vec<char> = vec![];
    let hits = vec![vec![]];
    let killed = resolve_bullet_hits(&mut zombies, &mut bullets, &hits);
    assert!(killed.is_empty());
    assert_eq!(zombies.len(), 1);
    assert_eq!(zombies[0].hp, 1);
}

#[test]
fn bullet_counts_add_up() {
    let mut zombies: Vec<Zombie<u32>> = (0..6)
        .map(|k| z(k, if k % 2 == 0 { ZKind::Fast } else { ZKind::Tank }))
        .collect();
    let mut bullets: Vec<u32> = (0..8).collect();
    let hits: Vec<Vec<bool>> = (0..6).map(|zi| (0..8).map(|b| (zi + b) % 3 == 0).collect()).collect();
    let killed = resolve_bullet_hits(&mut zombies, &mut bullets, &hits);
    assert_eq!(zombies.len() + killed.len(), 6);
    let used = 8 - bullets.len();
    assert!(killed.len() <= used && used <= 6);
    for k in &killed {
        assert!(k.hp <= 0);
    }
}
