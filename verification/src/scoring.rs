//! Score for kills: a combo multiplier that grows with each kill, counted in
//! quarter steps from x1.00 to x4.00, and the points a kill earns under it.

use vstd::prelude::*;

verus! {

/// The combo multiplier x1.00, in quarters.
pub const COMBO_BASE_QUARTERS: u32 = 4;

/// The largest combo multiplier, x4.00, in quarters.
pub const COMBO_MAX_QUARTERS: u32 = 16;

/// Combo multiplier after `kills` more kills from `quarters`: each kill adds a
/// quarter, up to the maximum.
pub open spec fn spec_combo_after(quarters: int, kills: int) -> int {
    if quarters + kills <= COMBO_MAX_QUARTERS { quarters + kills } else { COMBO_MAX_QUARTERS as int }
}

/// Points one kill earns at a multiplier of `quarters / 4`: ten times the
/// multiplier, rounded to the nearest point, halves rounded up.
pub open spec fn spec_kill_points(quarters: int) -> int {
    (10 * quarters + 2) / 4
}

/// Points earned by `kills` kills in a row from a multiplier of `quarters / 4`,
/// each kill scored at the multiplier reached by the kills before it.
pub open spec fn spec_kill_bonus(quarters: int, kills: nat) -> int
    decreases kills,
{
    if kills == 0 {
        0
    } else {
        spec_kill_bonus(quarters, (kills - 1) as nat) + spec_kill_points(
            spec_combo_after(quarters, kills - 1),
        )
    }
}

/// A kill-combo multiplier, counted in quarters (4 is x1.00, 16 is x4.00).
#[derive(Clone, Copy, PartialEq, Eq, Structural, Debug)]
pub struct Combo {
    pub quarters: u32,
}

impl Combo {
    /// The multiplier lies between x1.00 and x4.00.
    pub open spec fn wf(self) -> bool {
        COMBO_BASE_QUARTERS <= self.quarters <= COMBO_MAX_QUARTERS
    }

    /// The multiplier a game starts with and falls back to: x1.00.
    pub fn base() -> (c: Combo)
        ensures
            c.quarters == COMBO_BASE_QUARTERS,
            c.wf(),
    {
        Combo { quarters: COMBO_BASE_QUARTERS }
    }

    /// The multiplier after one more kill: a quarter more, at most x4.00.
    pub fn after_kill(&self) -> (c: Combo)
        requires
            self.wf(),
        ensures
            c.quarters == spec_combo_after(self.quarters as int, 1),
            c.wf(),
    {
        if self.quarters < COMBO_MAX_QUARTERS {
            Combo { quarters: self.quarters + 1 }
        } else {
            Combo { quarters: COMBO_MAX_QUARTERS }
        }
    }

    /// Points one kill earns at this multiplier.
    pub fn kill_points(&self) -> (p: u32)
        requires
            self.wf(),
        ensures
            p == spec_kill_points(self.quarters as int),
    {
        (10 * self.quarters + 2) / 4
    }
}

/// A kill earns between ten and forty points, more at a higher multiplier.
pub proof fn lemma_kill_points_bounds(q: int, r: int)
    requires
        COMBO_BASE_QUARTERS <= q <= r <= COMBO_MAX_QUARTERS,
    ensures
        10 <= spec_kill_points(q) <= spec_kill_points(r) <= 40,
{
}

/// `kills` kills in a row earn between ten and forty points each, and a run of
/// kills earns at least as much as any shorter run.
pub proof fn lemma_kill_bonus_bounds(q: int, kills: nat, more: nat)
    requires
        COMBO_BASE_QUARTERS <= q <= COMBO_MAX_QUARTERS,
        kills <= more,
    ensures
        10 * kills <= spec_kill_bonus(q, kills) <= 40 * kills,
        spec_kill_bonus(q, kills) <= spec_kill_bonus(q, more),
    decreases more,
{
    if more > kills {
        lemma_kill_bonus_bounds(q, kills, (more - 1) as nat);
        lemma_kill_points_bounds(spec_combo_after(q, more - 1), spec_combo_after(q, more - 1));
    } else if kills > 0 {
        lemma_kill_bonus_bounds(q, (kills - 1) as nat, (kills - 1) as nat);
        lemma_kill_points_bounds(spec_combo_after(q, kills - 1), spec_combo_after(q, kills - 1));
    }
}

/// Scoring a streak in two parts earns what scoring it at once does: the
/// second part starts at the multiplier the first part reached.
pub proof fn lemma_kill_bonus_split(q: int, first: nat, second: nat)
    requires
        COMBO_BASE_QUARTERS <= q <= COMBO_MAX_QUARTERS,
    ensures
        spec_kill_bonus(q, first + second) == spec_kill_bonus(q, first) + spec_kill_bonus(
            spec_combo_after(q, first as int),
            second,
        ),
        spec_combo_after(spec_combo_after(q, first as int), second as int) == spec_combo_after(
            q,
            (first + second) as int,
        ),
    decreases second,
{
    if second > 0 {
        lemma_kill_bonus_split(q, first, (second - 1) as nat);
        assert(spec_combo_after(spec_combo_after(q, first as int), second - 1) == spec_combo_after(
            q,
            first + second - 1,
        ));
    }
}

/// A kill earns ten times the multiplier rounded to the nearest point, halves
/// rounded up: `points - 1/2 <= 10 * quarters / 4 < points + 1/2`.
pub proof fn lemma_kill_points_round(q: int)
    requires
        0 <= q,
    ensures
        4 * spec_kill_points(q) - 2 <= 10 * q < 4 * spec_kill_points(q) + 2,
{
}

/// Each kill raises the multiplier by one quarter until it reaches x4.00, where
/// it stays; no kills leave it as it was.
pub proof fn lemma_combo_steps(q: int, n: int)
    requires
        COMBO_BASE_QUARTERS <= q <= COMBO_MAX_QUARTERS,
        0 <= n,
    ensures
        spec_combo_after(q, 0) == q,
        spec_combo_after(q, n) < 16 ==> spec_combo_after(q, n + 1) == spec_combo_after(q, n) + 1,
        spec_combo_after(q, n) == 16 ==> spec_combo_after(q, n + 1) == 16,
        COMBO_BASE_QUARTERS == 4,
        COMBO_MAX_QUARTERS == 16,
{
}

/// No kills earn nothing, and a single kill earns the points at the current
/// multiplier; with the split law this fixes what every streak earns.
pub proof fn lemma_kill_bonus_single(q: int)
    requires
        COMBO_BASE_QUARTERS <= q <= COMBO_MAX_QUARTERS,
    ensures
        spec_kill_bonus(q, 0) == 0,
        spec_kill_bonus(q, 1) == spec_kill_points(q),
{
    assert(spec_combo_after(q, 0) == q);
}

} // verus!
