//! Integer rules of the game: wave budgets, spawn batches, hit points.

use vstd::prelude::*;

verus! {

/// Hit points of a fresh player, and the most a player can hold.
pub const PLAYER_MAX_HP: i32 = 6;

/// Largest number of zombies a single wave may spawn.
pub const WAVE_BUDGET_CAP: usize = 120;

/// Number of zombies wave `wave` spawns: eight plus five per wave, capped at 120.
pub open spec fn spec_wave_spawn_budget(wave: int) -> int {
    if 8 + 5 * wave <= 120 { 8 + 5 * wave } else { 120 }
}

/// Number of zombies that may be alive at once before wave `wave` stops spawning.
pub open spec fn spec_max_alive(wave: int) -> int {
    10 + 2 * wave
}

/// Zombies spawned in one frame: while fewer than `spec_max_alive(wave)` are alive
/// and the wave still has budget, a batch of `1 + wave / 2`, but no more than the
/// budget left.
pub open spec fn spec_spawn_batch(wave: int, alive: int, budget_left: int) -> int {
    if alive < spec_max_alive(wave) && budget_left > 0 {
        if 1 + wave / 2 <= budget_left { 1 + wave / 2 } else { budget_left }
    } else {
        0
    }
}

/// Hit points after healing `amount`, never above the maximum.
pub open spec fn spec_heal(hp: int, amount: int) -> int {
    if hp + amount <= PLAYER_MAX_HP { hp + amount } else { PLAYER_MAX_HP as int }
}

/// Number of zombies wave `wave` spawns over its whole run.
pub fn wave_spawn_budget(wave: u32) -> (n: usize)
    ensures
        n == spec_wave_spawn_budget(wave as int),
{
    if wave >= 23 {
        WAVE_BUDGET_CAP
    } else {
        8 + (wave as usize) * 5
    }
}

/// Number of zombies to spawn this frame in wave `wave`, with `alive` zombies
/// on the field and `budget_left` still to come in this wave.
pub fn spawn_batch(wave: u32, alive: usize, budget_left: usize) -> (batch: usize)
    ensures
        batch == spec_spawn_batch(wave as int, alive as int, budget_left as int),
{
    let max_alive: u64 = 10 + (wave as u64) * 2;
    if (alive as u64) < max_alive && budget_left > 0 {
        let want: usize = 1 + (wave / 2) as usize;
        if want <= budget_left {
            want
        } else {
            budget_left
        }
    } else {
        0
    }
}

/// Hit points after healing `amount`, capped at `PLAYER_MAX_HP`.
pub fn heal(hp: i32, amount: i32) -> (healed: i32)
    requires
        0 <= amount,
        hp + amount <= i32::MAX,
    ensures
        healed == spec_heal(hp as int, amount as int),
{
    let raised = hp + amount;
    if raised <= PLAYER_MAX_HP {
        raised
    } else {
        PLAYER_MAX_HP
    }
}

/// A later wave never spawns fewer zombies than an earlier one, and no wave
/// spawns more than the cap; every wave spawns at least thirteen from wave one on.
pub proof fn lemma_wave_budget_monotone(a: int, b: int)
    requires
        1 <= a <= b,
    ensures
        spec_wave_spawn_budget(a) <= spec_wave_spawn_budget(b),
        13 <= spec_wave_spawn_budget(a) <= WAVE_BUDGET_CAP,
{
}

/// A spawn batch never exceeds the budget left, and is positive exactly when
/// there is room on the field and budget left.
pub proof fn lemma_spawn_batch_bounds(wave: int, alive: int, budget_left: int)
    requires
        0 <= wave,
        0 <= budget_left,
    ensures
        0 <= spec_spawn_batch(wave, alive, budget_left) <= budget_left,
        spec_spawn_batch(wave, alive, budget_left) > 0
            <==> (alive < spec_max_alive(wave) && budget_left > 0),
        spec_spawn_batch(wave, alive, budget_left) <= 1 + wave / 2,
{
}

/// Healing never lifts hit points above the maximum, never lowers them, and
/// a player already at or above the maximum is brought to exactly the maximum.
pub proof fn lemma_heal_bounds(hp: int, amount: int)
    requires
        0 <= amount,
    ensures
        spec_heal(hp, amount) <= PLAYER_MAX_HP,
        hp <= PLAYER_MAX_HP ==> hp <= spec_heal(hp, amount),
        hp + amount >= PLAYER_MAX_HP ==> spec_heal(hp, amount) == PLAYER_MAX_HP,
{
}

/// Wave zero spawns eight zombies, and each wave spawns exactly five more than
/// the one before until the cap of 120 is reached, which holds from then on.
pub proof fn lemma_wave_budget_steps(w: int)
    requires
        0 <= w,
    ensures
        spec_wave_spawn_budget(0) == 8,
        8 + 5 * (w + 1) <= 120 ==> spec_wave_spawn_budget(w + 1) == spec_wave_spawn_budget(w) + 5,
        8 + 5 * w > 120 ==> spec_wave_spawn_budget(w) == 120,
        spec_wave_spawn_budget(w) <= spec_wave_spawn_budget(w + 1) <= 120,
{
}

/// With room on the field (fewer than ten plus two per wave alive) and budget
/// left, a frame spawns exactly `1 + wave / 2` zombies, or the whole remaining
/// budget when that is smaller; otherwise it spawns none.
pub proof fn lemma_spawn_batch_exact(wave: int, alive: int, budget_left: int)
    requires
        0 <= wave,
        0 <= budget_left,
    ensures
        alive < 10 + 2 * wave && budget_left > 0 && 1 + wave / 2 <= budget_left
            ==> spec_spawn_batch(wave, alive, budget_left) == 1 + wave / 2,
        alive < 10 + 2 * wave && budget_left > 0 && 1 + wave / 2 > budget_left
            ==> spec_spawn_batch(wave, alive, budget_left) == budget_left,
        alive >= 10 + 2 * wave ==> spec_spawn_batch(wave, alive, budget_left) == 0,
        budget_left == 0 ==> spec_spawn_batch(wave, alive, budget_left) == 0,
{
}

/// Healing adds exactly the amount while the result stays within the maximum,
/// and gives exactly the maximum otherwise.
pub proof fn lemma_heal_exact(hp: int, amount: int)
    ensures
        hp + amount <= PLAYER_MAX_HP ==> spec_heal(hp, amount) == hp + amount,
        hp + amount > PLAYER_MAX_HP ==> spec_heal(hp, amount) == PLAYER_MAX_HP,
{
}

} // verus!
