//! The counted state of a game (score, combo, wave, phase, spawn budget, the
//! player's hit points) and the decisions each frame makes on it.

use vstd::prelude::*;

use crate::horde::{
    count_true, count_where, flagged_and, indices, lemma_count_where_all,
    lemma_remove_flagged_counts, lemma_remove_flagged_laws, lemma_swap_filter_map, remove_flagged,
    removal_accounts_for, stands_flagged, swap_filter, Zombie,
};
use crate::rules::{
    heal, spawn_batch, spec_heal, spec_spawn_batch, spec_wave_spawn_budget, wave_spawn_budget,
    PLAYER_MAX_HP,
};
use crate::scoring::{
    lemma_kill_bonus_bounds, spec_combo_after, spec_kill_bonus, Combo, COMBO_BASE_QUARTERS,
    COMBO_MAX_QUARTERS,
};

verus! {

/// Phase of the game.
#[derive(Clone, Copy, PartialEq, Eq, Structural, Debug)]
pub enum State {
    /// A wave is being fought.
    Running,
    /// A wave was cleared; the next one starts after a short pause.
    InterWave,
    /// The player ran out of hit points; waiting for a restart.
    GameOver,
}

/// Kinds of powerup a dead zombie may leave behind.
#[derive(Clone, Copy, PartialEq, Eq, Structural, Debug)]
pub enum Drop {
    /// Restores two hit points.
    Heal,
    /// Kills every zombie in the blast around the player, fifteen points each.
    Bomb,
    /// Shortens the gun's cooldown for a while.
    Rapid,
    /// Slows all zombies for a while.
    Slow,
}

/// Timed effect a powerup starts; the caller runs its clock.
#[derive(Clone, Copy, PartialEq, Eq, Structural, Debug)]
pub enum Boost {
    Nothing,
    RapidFire,
    SlowZombies,
}

/// The session and horde after applying a powerup of kind `kind`, with
/// `in_blast` flagging the zombies in a bomb's blast.
pub open spec fn spec_apply_powerup<B>(
    s: Session,
    kind: Drop,
    zombies: Seq<Zombie<B>>,
    in_blast: Seq<bool>,
) -> (Session, Seq<Zombie<B>>) {
    match kind {
        Drop::Heal => (
            Session { hp: spec_heal(s.hp as int, HEAL_POWERUP_HP as int) as i32, ..s },
            zombies,
        ),
        Drop::Bomb => (
            Session { score: (s.score + BOMB_POINTS * count_true(in_blast)) as u32, ..s },
            swap_filter(zombies, in_blast, 0).0,
        ),
        Drop::Rapid => (s, zombies),
        Drop::Slow => (s, zombies),
    }
}

/// The blast flags of a horde when being in the blast is a property `in_range`
/// of the zombie itself (where it stands).
pub open spec fn blast_flags<B>(zombies: Seq<Zombie<B>>, in_range: spec_fn(Zombie<B>) -> bool) -> Seq<bool> {
    zombies.map_values(in_range)
}

/// A powerup lying in the arena: its kind, and a `body` the rules never look
/// into (where it lies, how long it stays).
pub struct Powerup<B> {
    pub body: B,
    pub kind: Drop,
}

/// Points a bomb earns per zombie it kills.
pub const BOMB_POINTS: u32 = 15;

/// Hit points a heal powerup restores.
pub const HEAL_POWERUP_HP: i32 = 2;

/// Hit points restored between waves.
pub const WAVE_HEAL_HP: i32 = 1;

/// Everything of a game that the rules count.
#[derive(Clone, Copy, PartialEq, Eq, Structural, Debug)]
pub struct Session {
    pub score: u32,
    pub combo: Combo,
    pub wave: u32,
    pub state: State,
    pub spawn_budget_left: usize,
    pub hp: i32,
}

/// The state a game starts in: no score, combo x1.00, wave one running with its
/// full budget, and the player at full health.
pub open spec fn fresh_session() -> Session {
    Session {
        score: 0,
        combo: Combo { quarters: COMBO_BASE_QUARTERS },
        wave: 1,
        state: State::Running,
        spawn_budget_left: spec_wave_spawn_budget(1) as usize,
        hp: PLAYER_MAX_HP,
    }
}

impl Session {
    /// The invariant every reachable game keeps: a valid combo, hit points at
    /// most the maximum, a wave numbered from one, and no more zombies left to
    /// spawn than the wave's budget.
    pub open spec fn wf(self) -> bool {
        &&& self.combo.wf()
        &&& self.hp <= PLAYER_MAX_HP
        &&& 1 <= self.wave
        &&& self.spawn_budget_left <= spec_wave_spawn_budget(self.wave as int)
    }

    /// A fresh game.
    pub fn new() -> (s: Session)
        ensures
            s == fresh_session(),
            s.wf(),
    {
        Session {
            score: 0,
            combo: Combo::base(),
            wave: 1,
            state: State::Running,
            spawn_budget_left: wave_spawn_budget(1),
            hp: PLAYER_MAX_HP,
        }
    }

    /// Once the combo timer has run out, the multiplier falls back to x1.00.
    pub fn tick_combo(&mut self, timer_ran_out: bool)
        requires
            old(self).wf(),
        ensures
            final(self).wf(),
            *final(self) == (if timer_ran_out {
                Session { combo: Combo { quarters: COMBO_BASE_QUARTERS }, ..*old(self) }
            } else {
                *old(self)
            }),
    {
        if timer_ran_out {
            self.combo = Combo::base();
        }
    }

    /// Zombies to spawn this frame with `alive` zombies on the field; they are
    /// taken from the wave's budget.
    pub fn take_spawn_batch(&mut self, alive: usize) -> (batch: usize)
        requires
            old(self).wf(),
        ensures
            final(self).wf(),
            batch == spec_spawn_batch(
                old(self).wave as int,
                alive as int,
                old(self).spawn_budget_left as int,
            ),
            *final(self) == (Session {
                spawn_budget_left: (old(self).spawn_budget_left - batch) as usize,
                ..*old(self)
            }),
    {
        let batch = spawn_batch(self.wave, alive, self.spawn_budget_left);
        self.spawn_budget_left = self.spawn_budget_left - batch;
        batch
    }

    /// Whether scoring `kills` more kills keeps the score within `u32`.
    pub fn kills_fit(&self, kills: usize) -> (fits: bool)
        requires
            self.wf(),
        ensures
            fits == (self.score + spec_kill_bonus(self.combo.quarters as int, kills as nat)
                <= u32::MAX),
    {
        let ghost q = self.combo.quarters as int;
        let mut total: u64 = self.score as u64;
        let mut combo = self.combo;
        let mut k: usize = 0;
        while k < kills
            invariant
                k <= kills,
                combo.wf(),
                combo.quarters == spec_combo_after(q, k as int),
                total == self.score + spec_kill_bonus(q, k as nat),
                total <= u32::MAX,
                q == self.combo.quarters as int,
                COMBO_BASE_QUARTERS <= q <= COMBO_MAX_QUARTERS,
            decreases kills - k,
        {
            proof {
                lemma_kill_bonus_bounds(q, (k + 1) as nat, (k + 1) as nat);
            }
            total = total + combo.kill_points() as u64;
            combo = combo.after_kill();
            k += 1;
            if total > u32::MAX as u64 {
                proof {
                    lemma_kill_bonus_bounds(q, k as nat, kills as nat);
                }
                return false;
            }
        }
        true
    }

    /// Scores `kills` kills in a row: each earns points at the current
    /// multiplier, then raises it by a quarter, up to x4.00.
    pub fn register_kills(&mut self, kills: usize)
        requires
            old(self).wf(),
            old(self).score + spec_kill_bonus(old(self).combo.quarters as int, kills as nat)
                <= u32::MAX,
        ensures
            final(self).wf(),
            *final(self) == (Session {
                score: (old(self).score + spec_kill_bonus(
                    old(self).combo.quarters as int,
                    kills as nat,
                )) as u32,
                combo: Combo {
                    quarters: spec_combo_after(old(self).combo.quarters as int, kills as int) as u32,
                },
                ..*old(self)
            }),
    {
        let ghost q = self.combo.quarters as int;
        let ghost s0 = self.score as int;
        let mut k: usize = 0;
        while k < kills
            invariant
                k <= kills,
                self.wf(),
                self.combo.quarters == spec_combo_after(q, k as int),
                self.score == s0 + spec_kill_bonus(q, k as nat),
                s0 + spec_kill_bonus(q, kills as nat) <= u32::MAX,
                COMBO_BASE_QUARTERS <= q <= COMBO_MAX_QUARTERS,
                self.hp == old(self).hp,
                self.wave == old(self).wave,
                self.state == old(self).state,
                self.spawn_budget_left == old(self).spawn_budget_left,
            decreases kills - k,
        {
            proof {
                lemma_kill_bonus_bounds(q, (k + 1) as nat, kills as nat);
            }
            self.score = self.score + self.combo.kill_points();
            self.combo = self.combo.after_kill();
            k += 1;
        }
    }

    /// The player is touched by `hits` zombies: one hit point each, and the game
    /// is over once a hit leaves none.
    pub fn take_hits(&mut self, hits: usize)
        requires
            old(self).wf(),
            old(self).hp - hits >= i32::MIN,
        ensures
            final(self).wf(),
            *final(self) == (Session {
                hp: (old(self).hp - hits) as i32,
                state: if hits > 0 && old(self).hp - hits <= 0 {
                    State::GameOver
                } else {
                    old(self).state
                },
                ..*old(self)
            }),
    {
        let hp: i64 = self.hp as i64 - hits as i64;
        self.hp = hp as i32;
        if hits > 0 && hp <= 0 {
            self.state = State::GameOver;
        }
    }

    /// Applies a powerup the player picked up. A heal restores two hit points
    /// (up to the maximum); a bomb kills every zombie whose `in_blast` flag is
    /// set, removing them the game's way and scoring fifteen points each; rapid
    /// fire and slow zombies leave the session as it is and name the boost the
    /// caller starts.
    pub fn apply_powerup<B>(
        &mut self,
        kind: Drop,
        zombies: &mut Vec<Zombie<B>>,
        in_blast: Vec<bool>,
    ) -> (boost: Boost)
        requires
            old(self).wf(),
            in_blast.len() == old(zombies).len(),
            kind == Drop::Bomb ==> old(self).score + BOMB_POINTS * count_true(in_blast@)
                <= u32::MAX,
        ensures
            final(self).wf(),
            (*final(self), final(zombies)@) == spec_apply_powerup(
                *old(self),
                kind,
                old(zombies)@,
                in_blast@,
            ),
            kind == Drop::Heal ==> {
                &&& *final(self) == (Session {
                    hp: spec_heal(old(self).hp as int, HEAL_POWERUP_HP as int) as i32,
                    ..*old(self)
                })
                &&& final(zombies)@ == old(zombies)@
                &&& boost == Boost::Nothing
            },
            kind == Drop::Bomb ==> {
                &&& *final(self) == (Session {
                    score: (old(self).score + BOMB_POINTS * count_true(in_blast@)) as u32,
                    ..*old(self)
                })
                &&& final(zombies)@ == swap_filter(old(zombies)@, in_blast@, 0).0
                &&& boost == Boost::Nothing
            },
            kind == Drop::Rapid ==> {
                &&& *final(self) == *old(self)
                &&& final(zombies)@ == old(zombies)@
                &&& boost == Boost::RapidFire
            },
            kind == Drop::Slow ==> {
                &&& *final(self) == *old(self)
                &&& final(zombies)@ == old(zombies)@
                &&& boost == Boost::SlowZombies
            },
    {
        match kind {
            Drop::Heal => {
                self.hp = heal(self.hp, HEAL_POWERUP_HP);
                Boost::Nothing
            },
            Drop::Bomb => {
                proof {
                    lemma_remove_flagged_laws(zombies@, in_blast@);
                }
                let killed = remove_flagged(zombies, in_blast);
                let n: u32 = killed.len() as u32;
                self.score = self.score + n * BOMB_POINTS;
                Boost::Nothing
            },
            Drop::Rapid => Boost::RapidFire,
            Drop::Slow => Boost::SlowZombies,
        }
    }

    /// At the end of a fighting frame: with no zombie alive and none left to
    /// spawn, the wave is cleared and the intermission begins.
    pub fn check_wave_cleared(&mut self, alive: usize) -> (cleared: bool)
        requires
            old(self).wf(),
        ensures
            final(self).wf(),
            cleared == (alive == 0 && old(self).spawn_budget_left == 0),
            *final(self) == (if cleared {
                Session { state: State::InterWave, ..*old(self) }
            } else {
                *old(self)
            }),
    {
        if alive == 0 && self.spawn_budget_left == 0 {
            self.state = State::InterWave;
            true
        } else {
            false
        }
    }

    /// When the intermission ends: the next wave starts with its full budget and
    /// the player regains a hit point (up to the maximum). Outside an
    /// intermission nothing changes.
    pub fn next_wave(&mut self)
        requires
            old(self).wf(),
            old(self).state == State::InterWave ==> old(self).wave < u32::MAX,
        ensures
            final(self).wf(),
            *final(self) == (if old(self).state == State::InterWave {
                Session {
                    wave: (old(self).wave + 1) as u32,
                    spawn_budget_left: spec_wave_spawn_budget(old(self).wave + 1) as usize,
                    state: State::Running,
                    hp: spec_heal(old(self).hp as int, WAVE_HEAL_HP as int) as i32,
                    ..*old(self)
                }
            } else {
                *old(self)
            }),
    {
        if self.state == State::InterWave {
            self.wave = self.wave + 1;
            self.spawn_budget_left = wave_spawn_budget(self.wave);
            self.state = State::Running;
            self.hp = heal(self.hp, WAVE_HEAL_HP);
        }
    }

    /// Zombies reaching the player: every zombie whose `touching` flag is set is
    /// removed the game's way and costs the player a hit point; the game is over
    /// once a hit leaves none. Returns the number of hits.
    pub fn resolve_player_contacts<B>(
        &mut self,
        zombies: &mut Vec<Zombie<B>>,
        touching: Vec<bool>,
    ) -> (hits: usize)
        requires
            old(self).wf(),
            touching.len() == old(zombies).len(),
            old(self).hp - count_true(touching@) >= i32::MIN,
        ensures
            final(self).wf(),
            hits == count_true(touching@),
            final(zombies)@ == swap_filter(old(zombies)@, touching@, 0).0,
            *final(self) == (Session {
                hp: (old(self).hp - hits) as i32,
                state: if hits > 0 && old(self).hp - hits <= 0 {
                    State::GameOver
                } else {
                    old(self).state
                },
                ..*old(self)
            }),
    {
        proof {
            lemma_remove_flagged_laws(zombies@, touching@);
        }
        let gone = remove_flagged(zombies, touching);
        let hits = gone.len();
        self.take_hits(hits);
        hits
    }

    /// The restart key: after a game over, everything starts afresh; otherwise
    /// nothing changes.
    pub fn restart(&mut self)
        requires
            old(self).wf(),
        ensures
            final(self).wf(),
            *final(self) == (if old(self).state == State::GameOver {
                fresh_session()
            } else {
                *old(self)
            }),
    {
        if self.state == State::GameOver {
            *self = Session::new();
        }
    }
}

/// Whether each powerup leaves the arena this frame: it expired, or the player
/// reached it.
pub open spec fn pickup_flags(expired: Seq<bool>, reached: Seq<bool>) -> Seq<bool> {
    Seq::new(expired.len(), |k: int| expired[k] || reached[k])
}

/// The entries whose aligned `gone` flag is clear, in order.
pub open spec fn keep_unflagged<T>(items: Seq<T>, gone: Seq<bool>) -> Seq<T>
    decreases items.len(),
{
    if items.len() == 0 {
        Seq::empty()
    } else {
        let rest = keep_unflagged(items.drop_first(), gone.drop_first());
        if gone[0] { rest } else { seq![items[0]] + rest }
    }
}

/// The powerups left in the arena and the ones the player picked up, in the
/// order the game meets them: walking the powerups, each expired one vanishes,
/// each one the player reached is picked up, and either leaves by swapping in
/// the last powerup.
pub open spec fn spec_collect_powerups<B>(
    drops: Seq<Powerup<B>>,
    expired: Seq<bool>,
    reached: Seq<bool>,
) -> (Seq<Powerup<B>>, Seq<Powerup<B>>) {
    let f = pickup_flags(expired, reached);
    (
        swap_filter(drops, f, 0).0,
        keep_unflagged(swap_filter(drops, f, 0).1, swap_filter(expired, f, 0).1),
    )
}

/// Removes from `drops` the powerups that expired (flag in `expired`) or that
/// the player reached (flag in `reached`), the game's way, and returns those
/// picked up (reached and not expired) in the order they are met.
pub fn collect_powerups<B>(
    drops: &mut Vec<Powerup<B>>,
    expired: Vec<bool>,
    reached: Vec<bool>,
) -> (picked: Vec<Powerup<B>>)
    requires
        old(drops).len() == expired.len(),
        expired.len() == reached.len(),
    ensures
        (final(drops)@, picked@) == spec_collect_powerups(old(drops)@, expired@, reached@),
{
    let ghost f = pickup_flags(expired@, reached@);
    let n = expired.len();
    let mut f1: Vec<bool> = Vec::new();
    let mut f2: Vec<bool> = Vec::new();
    let mut k: usize = 0;
    while k < n
        invariant
            k <= n,
            n == expired.len(),
            n == reached.len(),
            f1@ == f.take(k as int),
            f2@ == f.take(k as int),
            f == pickup_flags(expired@, reached@),
        decreases n - k,
    {
        let b = expired[k] || reached[k];
        f1.push(b);
        f2.push(b);
        k += 1;
        assert(f1@ =~= f.take(k as int));
        assert(f2@ =~= f.take(k as int));
    }
    assert(f1@ =~= f);
    assert(f2@ =~= f);
    let mut gone_expired = expired;
    let mut gone = remove_flagged(drops, f1);
    let ghost all_gone = gone@;
    let ghost all_expired = swap_filter(expired@, f, 0).1;
    proof {
        lemma_remove_flagged_laws(expired@, f);
        lemma_remove_flagged_laws(old(drops)@, f);
    }
    // the expiry flags of the removed powerups, in removal order
    let mut exp_left = remove_flagged(&mut gone_expired, f2);
    let mut picked: Vec<Powerup<B>> = Vec::new();
    while gone.len() > 0
        invariant
            gone@.len() == exp_left@.len(),
            keep_unflagged(all_gone, all_expired) == picked@ + keep_unflagged(gone@, exp_left@),
        decreases gone.len(),
    {
        let ghost g0 = gone@;
        let ghost e0 = exp_left@;
        let p = gone.remove(0);
        let e = exp_left.remove(0);
        assert(gone@ =~= g0.drop_first());
        assert(exp_left@ =~= e0.drop_first());
        if !e {
            assert(picked@.push(p) + keep_unflagged(gone@, exp_left@) =~= picked@ + (seq![p]
                + keep_unflagged(gone@, exp_left@)));
            picked.push(p);
        }
    }
    assert(picked@ + keep_unflagged(gone@, exp_left@) =~= picked@);
    picked
}

/// `p` is a powerup of `drops` that the player reached before it expired.
pub open spec fn picked_up_at<B>(
    drops: Seq<Powerup<B>>,
    expired: Seq<bool>,
    reached: Seq<bool>,
    p: Powerup<B>,
) -> bool {
    exists|k: int|
        #![trigger drops[k]]
        0 <= k < drops.len() && drops[k] == p && reached[k] && !expired[k]
}

/// `p` is a powerup of `drops` that neither expired nor was reached.
pub open spec fn still_lying_at<B>(
    drops: Seq<Powerup<B>>,
    expired: Seq<bool>,
    reached: Seq<bool>,
    p: Powerup<B>,
) -> bool {
    exists|k: int|
        #![trigger drops[k]]
        0 <= k < drops.len() && drops[k] == p && !reached[k] && !expired[k]
}

/// `x` is `d(s[t])` for a position `t` of `s` where `e(s[t])` is clear.
spec fn unflagged_image<T>(s: Seq<int>, d: spec_fn(int) -> T, e: spec_fn(int) -> bool, x: T) -> bool {
    exists|t: int| #![trigger s[t]] 0 <= t < s.len() && x == d(s[t]) && !e(s[t])
}

proof fn lemma_keep_unflagged_images<T>(s: Seq<int>, d: spec_fn(int) -> T, e: spec_fn(int) -> bool)
    ensures
        forall|j: int|
            0 <= j < keep_unflagged(s.map_values(d), s.map_values(e)).len() ==> unflagged_image(
                s,
                d,
                e,
                #[trigger] keep_unflagged(s.map_values(d), s.map_values(e))[j],
            ),
    decreases s.len(),
{
    let r = keep_unflagged(s.map_values(d), s.map_values(e));
    if s.len() > 0 {
        let t = s.drop_first();
        lemma_keep_unflagged_images(t, d, e);
        assert(s.map_values(d).drop_first() =~= t.map_values(d));
        assert(s.map_values(e).drop_first() =~= t.map_values(e));
        let rest = keep_unflagged(t.map_values(d), t.map_values(e));
        assert forall|j: int| 0 <= j < r.len() implies unflagged_image(s, d, e, #[trigger] r[j]) by {
            if !e(s[0]) && j == 0 {
                assert(r[0] == d(s[0]));
            } else {
                let jj = if e(s[0]) { j } else { j - 1 };
                assert(r[j] == rest[jj]);
                assert(unflagged_image(t, d, e, rest[jj]));
                let w = choose|w: int| #![trigger t[w]] 0 <= w < t.len() && rest[jj] == d(t[w]) && !e(t[w]);
                assert(s[w + 1] == t[w]);
            }
        }
    }
}

/// What collecting powerups keeps: every powerup picked up is one the player
/// reached before it expired, every powerup left lies where it was neither
/// reached nor expired, and exactly the expired or reached ones leave.
pub proof fn lemma_collect_powerups_laws<B>(drops: Seq<Powerup<B>>, expired: Seq<bool>, reached: Seq<bool>)
    requires
        drops.len() == expired.len(),
        expired.len() == reached.len(),
    ensures
        ({
            let r = spec_collect_powerups(drops, expired, reached);
            &&& forall|j: int|
                0 <= j < r.1.len() ==> picked_up_at(drops, expired, reached, #[trigger] r.1[j])
            &&& forall|j: int|
                0 <= j < r.0.len() ==> still_lying_at(drops, expired, reached, #[trigger] r.0[j])
            &&& r.0.len() == drops.len() - count_true(pickup_flags(expired, reached))
        }),
{
    let n = drops.len() as int;
    let f = pickup_flags(expired, reached);
    let idx = indices(n);
    let d = |k: int| drops[k];
    let e = |k: int| expired[k];
    assert(drops =~= idx.map_values(d));
    assert(expired =~= idx.map_values(e));
    lemma_swap_filter_map(idx, f, 0, d);
    lemma_swap_filter_map(idx, f, 0, e);
    lemma_remove_flagged_laws(idx, f);
    lemma_remove_flagged_laws(drops, f);
    let ri = swap_filter(idx, f, 0);
    let r = spec_collect_powerups(drops, expired, reached);
    assert(r.1 == keep_unflagged(ri.1.map_values(d), ri.1.map_values(e)));
    lemma_keep_unflagged_images(ri.1, d, e);
    assert forall|j: int| 0 <= j < r.1.len() implies picked_up_at(drops, expired, reached, #[trigger] r.1[j]) by {
        assert(unflagged_image(ri.1, d, e, r.1[j]));
        let t = choose|t: int| #![trigger ri.1[t]] 0 <= t < ri.1.len() && r.1[j] == d(ri.1[t]) && !e(ri.1[t]);
        assert(stands_flagged(idx, f, 0, ri.1[t], true));
        let k = choose|k: int| #![trigger idx[k]] 0 <= k < idx.len() && idx[k] == ri.1[t] && f[k] == true;
        assert(drops[k] == r.1[j] && reached[k] && !expired[k]);
    }
    assert forall|j: int| 0 <= j < r.0.len() implies still_lying_at(drops, expired, reached, #[trigger] r.0[j]) by {
        assert(r.0[j] == d(ri.0[j]));
        assert(stands_flagged(idx, f, 0, ri.0[j], false));
        let k = choose|k: int| #![trigger idx[k]] 0 <= k < idx.len() && idx[k] == ri.0[j] && f[k] == false;
        assert(drops[k] == r.0[j] && !reached[k] && !expired[k]);
    }
}

/// A bomb earns fifteen points for each zombie it removes, and removes exactly
/// the zombies flagged as in the blast.
pub proof fn lemma_bomb_points_per_zombie<B>(zombies: Seq<Zombie<B>>, in_blast: Seq<bool>)
    requires
        in_blast.len() == zombies.len(),
    ensures
        BOMB_POINTS * (zombies.len() - swap_filter(zombies, in_blast, 0).0.len()) == BOMB_POINTS
            * count_true(in_blast),
        swap_filter(zombies, in_blast, 0).1.len() == count_true(in_blast),
{
    lemma_remove_flagged_laws(zombies, in_blast);
}

/// With no flag set, removing flagged entries keeps every entry in place.
proof fn lemma_swap_filter_none<T>(items: Seq<T>, flags: Seq<bool>, i: int)
    requires
        0 <= i <= items.len(),
        flags.len() == items.len(),
        forall|k: int| 0 <= k < flags.len() ==> !flags[k],
    ensures
        swap_filter(items, flags, i) == (items, Seq::<T>::empty()),
    decreases items.len() - i,
{
    if i < items.len() {
        lemma_swap_filter_none(items, flags, i + 1);
    }
}

/// A bomb, rapid-fire or slow powerup applied a second time, with the blast
/// measured again on the horde the first one left, changes nothing: the first
/// bomb already removed every zombie in range.
pub proof fn lemma_repeat_powerup_changes_nothing<B>(
    s: Session,
    kind: Drop,
    zombies: Seq<Zombie<B>>,
    in_range: spec_fn(Zombie<B>) -> bool,
)
    requires
        kind != Drop::Heal,
    ensures
        ({
            let once = spec_apply_powerup(s, kind, zombies, blast_flags(zombies, in_range));
            spec_apply_powerup(once.0, kind, once.1, blast_flags(once.1, in_range)) == once
        }),
{
    let f = blast_flags(zombies, in_range);
    let once = spec_apply_powerup(s, kind, zombies, f);
    if kind == Drop::Bomb {
        lemma_remove_flagged_laws(zombies, f);
        let left = once.1;
        let g = blast_flags(left, in_range);
        assert forall|k: int| 0 <= k < g.len() implies !g[k] by {
            assert(stands_flagged(zombies, f, 0, left[k], false));
            let t = choose|t: int|
                #![trigger zombies[t]]
                0 <= t < zombies.len() && zombies[t] == left[k] && f[t] == false;
            assert(f[t] == in_range(zombies[t]));
        }
        lemma_swap_filter_none(left, g, 0);
        assert(!g.contains(true));
        assert(g.to_multiset().count(true) == 0) by {
            broadcast use vstd::seq_lib::group_to_multiset_ensures;
        }
        assert(count_true(g) == 0);
    }
}

/// No powerup lowers the player's hit points or lifts them above the maximum.
pub proof fn lemma_powerup_hit_points<B>(s: Session, kind: Drop, zombies: Seq<Zombie<B>>, in_blast: Seq<bool>)
    requires
        s.wf(),
    ensures
        s.hp <= spec_apply_powerup(s, kind, zombies, in_blast).0.hp <= PLAYER_MAX_HP,
{
}

/// A powerup never adds zombies and never lowers the score; the score rises by
/// exactly fifteen for each zombie it removes, and only then.
pub proof fn lemma_powerup_score_per_removed_zombie<B>(
    s: Session,
    kind: Drop,
    zombies: Seq<Zombie<B>>,
    in_blast: Seq<bool>,
)
    requires
        in_blast.len() == zombies.len(),
        s.score + BOMB_POINTS * zombies.len() <= u32::MAX,
    ensures
        ({
            let after = spec_apply_powerup(s, kind, zombies, in_blast);
            &&& after.1.len() <= zombies.len()
            &&& after.0.score >= s.score
            &&& after.0.score - s.score == BOMB_POINTS * (zombies.len() - after.1.len())
        }),
{
    lemma_remove_flagged_laws(zombies, in_blast);
}

proof fn lemma_keep_unflagged_count<T>(
    s: Seq<int>,
    d: spec_fn(int) -> T,
    e: spec_fn(int) -> bool,
    p: spec_fn(T) -> bool,
    q: spec_fn(int) -> bool,
)
    requires
        forall|k: int| #[trigger] q(k) == (!e(k) && p(d(k))),
    ensures
        count_where(keep_unflagged(s.map_values(d), s.map_values(e)), p) == count_where(s, q),
    decreases s.len(),
{
    if s.len() > 0 {
        let t = s.drop_first();
        lemma_keep_unflagged_count(t, d, e, p, q);
        assert(s.map_values(d).drop_first() =~= t.map_values(d));
        assert(s.map_values(e).drop_first() =~= t.map_values(e));
        let rest = keep_unflagged(t.map_values(d), t.map_values(e));
        assert(q(s[0]) == (!e(s[0]) && p(d(s[0]))));
        if !e(s[0]) {
            assert((seq![d(s[0])] + rest).drop_first() =~= rest);
        }
    }
}

/// Collecting powerups hands out exactly the ones the player reached before
/// they expired: for any powerup `v`, it is picked up as many times as it lies
/// at a reached, unexpired position, and as many powerups are picked up as
/// there are reached, unexpired positions.
pub proof fn lemma_collect_powerups_counts<B>(
    drops: Seq<Powerup<B>>,
    expired: Seq<bool>,
    reached: Seq<bool>,
    v: Powerup<B>,
)
    requires
        drops.len() == expired.len(),
        expired.len() == reached.len(),
    ensures
        count_where(spec_collect_powerups(drops, expired, reached).1, |x: Powerup<B>| x == v)
            == count_true(
            Seq::new(drops.len(), |k: int| reached[k] && !expired[k] && drops[k] == v),
        ),
        spec_collect_powerups(drops, expired, reached).1.len() == count_true(
            Seq::new(drops.len(), |k: int| reached[k] && !expired[k]),
        ),
{
    let n = drops.len() as int;
    let f = pickup_flags(expired, reached);
    let idx = indices(n);
    let d = |k: int| drops[k];
    let e = |k: int| expired[k];
    assert(drops =~= idx.map_values(d));
    assert(expired =~= idx.map_values(e));
    lemma_swap_filter_map(idx, f, 0, d);
    lemma_swap_filter_map(idx, f, 0, e);
    let ri = swap_filter(idx, f, 0);
    let r = spec_collect_powerups(drops, expired, reached);
    assert(r.1 == keep_unflagged(ri.1.map_values(d), ri.1.map_values(e)));
    // copies of v
    let pv = |x: Powerup<B>| x == v;
    let qv = |k: int| !e(k) && pv(d(k));
    lemma_keep_unflagged_count(ri.1, d, e, pv, qv);
    lemma_remove_flagged_counts(idx, f, qv);
    assert(flagged_and(idx, f, qv) =~= Seq::new(
        drops.len(),
        |k: int| reached[k] && !expired[k] && drops[k] == v,
    ));
    // all picked
    let pa = |x: Powerup<B>| true;
    let qa = |k: int| !e(k) && pa(d(k));
    lemma_keep_unflagged_count(ri.1, d, e, pa, qa);
    lemma_remove_flagged_counts(idx, f, qa);
    lemma_count_where_all(r.1, pa);
    assert(flagged_and(idx, f, qa) =~= Seq::new(drops.len(), |k: int| reached[k] && !expired[k]));
}

/// What each powerup does, in numbers: a heal adds two hit points up to six, a
/// bomb adds fifteen points per zombie in its blast and leaves the rest of the
/// session alone, rapid fire and slow zombies change nothing counted; and the
/// intermission heal is one hit point.
pub proof fn lemma_powerup_effects<B>(s: Session, kind: Drop, zombies: Seq<Zombie<B>>, in_blast: Seq<bool>)
    ensures
        ({
            let after = spec_apply_powerup(s, kind, zombies, in_blast);
            &&& kind == Drop::Heal ==> after.0.hp == (if s.hp + 2 <= 6 { s.hp + 2 } else { 6 })
                && after.0.score == s.score && after.1 == zombies
            &&& kind == Drop::Bomb ==> after.0.score == (s.score + 15 * count_true(in_blast)) as u32
                && after.0.hp == s.hp && after.0.combo == s.combo && after.0.wave == s.wave
                && after.0.state == s.state
            &&& (kind == Drop::Rapid || kind == Drop::Slow) ==> after == (s, zombies)
        }),
        WAVE_HEAL_HP == 1,
        PLAYER_MAX_HP == 6,
{
}

} // verus!
