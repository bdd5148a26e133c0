//! Zombies, and the bookkeeping of the game's collections: removing flagged
//! entries the way the game does (swap with the last, then pop), and resolving
//! which bullets strike which zombies.

use vstd::multiset::Multiset;
use vstd::prelude::*;

verus! {

broadcast use vstd::seq_lib::group_to_multiset_ensures;

/// The sequence after removing position `i`: the last entry takes its place.
pub open spec fn swap_out<T>(s: Seq<T>, i: int) -> Seq<T> {
    s.update(i, s.last()).drop_last()
}

/// Number of `true` entries.
pub open spec fn count_true(flags: Seq<bool>) -> nat {
    flags.to_multiset().count(true)
}

/// Removing a position by swapping in the last entry removes exactly one copy
/// of that entry from the multiset.
proof fn lemma_swap_out_multiset<T>(s: Seq<T>, i: int)
    requires
        0 <= i < s.len(),
    ensures
        swap_out(s, i).to_multiset() == s.to_multiset().remove(s[i]),
        swap_out(s, i).len() == s.len() - 1,
{
    let n = s.len() as int;
    if i == n - 1 {
        assert(swap_out(s, i) =~= s.remove(i));
    } else {
        let a = s.subrange(0, i);
        let mid = s.subrange(i + 1, n - 1);
        let l = seq![s[n - 1]];
        assert(swap_out(s, i) =~= a + (l + mid));
        assert(s.remove(i) =~= a + (mid + l));
        vstd::seq_lib::lemma_multiset_commutative(a, l + mid);
        vstd::seq_lib::lemma_multiset_commutative(a, mid + l);
        vstd::seq_lib::lemma_multiset_commutative(l, mid);
        vstd::seq_lib::lemma_multiset_commutative(mid, l);
        assert((l + mid).to_multiset() =~= (mid + l).to_multiset());
    }
}

/// Walks `items` from position `i` on, removing each entry whose aligned flag is
/// set by moving the last entry into its place and looking at that position
/// again. Gives the entries that stay, in their final order, and the removed
/// entries in the order they were removed.
pub open spec fn swap_filter<T>(items: Seq<T>, flags: Seq<bool>, i: int) -> (Seq<T>, Seq<T>)
    decreases items.len() - i,
{
    if i < 0 || i >= items.len() {
        (items, Seq::empty())
    } else if flags[i] {
        let rest = swap_filter(swap_out(items, i), swap_out(flags, i), i);
        (rest.0, seq![items[i]] + rest.1)
    } else {
        swap_filter(items, flags, i + 1)
    }
}

/// `x` stands in `items` at some position from `i` on whose flag is `flag`.
pub open spec fn stands_flagged<T>(items: Seq<T>, flags: Seq<bool>, i: int, x: T, flag: bool) -> bool {
    exists|k: int| #![trigger items[k]] i <= k < items.len() && items[k] == x && flags[k] == flag
}

/// How the entries kept and removed by walking `items` from position `i` on
/// account for the original: every entry is either kept or removed (as a
/// multiset), as many are removed as flags are set from `i` on, entries before
/// `i` stay in place, every removed entry was flagged, and every entry kept
/// from `i` on was not.
pub open spec fn removal_accounts_for<T>(
    items: Seq<T>,
    flags: Seq<bool>,
    i: int,
    kept: Seq<T>,
    removed: Seq<T>,
) -> bool {
    &&& kept.len() + removed.len() == items.len()
    &&& kept.len() >= i
    &&& kept.to_multiset().add(removed.to_multiset()) == items.to_multiset()
    &&& removed.len() == count_true(flags.subrange(i, items.len() as int))
    &&& forall|j: int| 0 <= j < i ==> kept[j] == items[j]
    &&& forall|j: int|
        0 <= j < removed.len() ==> stands_flagged(items, flags, i, #[trigger] removed[j], true)
    &&& forall|j: int|
        i <= j < kept.len() ==> stands_flagged(items, flags, i, #[trigger] kept[j], false)
}

proof fn lemma_swap_filter<T>(items: Seq<T>, flags: Seq<bool>, i: int)
    requires
        0 <= i <= items.len(),
        flags.len() == items.len(),
    ensures
        removal_accounts_for(items, flags, i, swap_filter(items, flags, i).0, swap_filter(items, flags, i).1),
    decreases items.len() - i,
{
    broadcast use vstd::multiset::group_multiset_axioms;

    let n = items.len() as int;
    let r = swap_filter(items, flags, i);
    if i == n {
        assert(flags.subrange(i, n) =~= Seq::<bool>::empty());
        assert(r.1 =~= Seq::<T>::empty());
        assert(r.1.to_multiset() =~= Multiset::empty());
        assert(r.0.to_multiset().add(r.1.to_multiset()) =~= items.to_multiset());
    } else if flags[i] {
        let si = swap_out(items, i);
        let sf = swap_out(flags, i);
        lemma_swap_filter(si, sf, i);
        lemma_swap_out_multiset(items, i);
        let rest = swap_filter(si, sf, i);
        assert(r.0 == rest.0);
        assert(r.1 == seq![items[i]] + rest.1);
        let x = items[i];
        vstd::seq_lib::lemma_multiset_commutative(seq![x], rest.1);
        assert(seq![x] =~= Seq::<T>::empty().push(x));
        assert(seq![x].to_multiset() =~= Multiset::empty().insert(x));
        assert(r.1.to_multiset() =~= rest.1.to_multiset().insert(x));
        assert(rest.0.to_multiset().add(rest.1.to_multiset()) == si.to_multiset());
        assert(items.to_multiset().count(x) > 0) by {
            assert(items.contains(x));
        }
        assert(si.to_multiset().insert(x) =~= items.to_multiset());
        assert(r.0.to_multiset().add(r.1.to_multiset()) =~= items.to_multiset());
        // count of set flags in the tail
        let tf = flags.subrange(i, n);
        assert(sf.subrange(i, n - 1) =~= swap_out(tf, 0));
        lemma_swap_out_multiset(tf, 0);
        assert(tf[0]);
        assert(tf.to_multiset().count(true) > 0) by {
            assert(tf.contains(tf[0]));
        }
        assert forall|j: int| 0 <= j < i implies r.0[j] == items[j] by {
            assert(si[j] == items[j]);
        }
        assert forall|j: int| #![trigger r.1[j]] 0 <= j < r.1.len() implies stands_flagged(items, flags, i, r.1[j], true) by {
            if j == 0 {
                assert(items[i] == r.1[0]);
            } else {
                assert(r.1[j] == rest.1[j - 1]);
                assert(stands_flagged(si, sf, i, rest.1[j - 1], true));
                let k2 = choose|k: int|
                    #![trigger si[k]]
                    i <= k < si.len() && si[k] == rest.1[j - 1] && sf[k] == true;
                if k2 == i {
                    assert(items[n - 1] == r.1[j] && flags[n - 1]);
                } else {
                    assert(items[k2] == r.1[j] && flags[k2]);
                }
            }
        }
        assert forall|j: int| #![trigger r.0[j]] i <= j < r.0.len() implies stands_flagged(items, flags, i, r.0[j], false) by {
            assert(stands_flagged(si, sf, i, rest.0[j], false));
            let k2 = choose|k: int|
                #![trigger si[k]]
                i <= k < si.len() && si[k] == rest.0[j] && sf[k] == false;
            if k2 == i {
                assert(items[n - 1] == r.0[j] && !flags[n - 1]);
            } else {
                assert(items[k2] == r.0[j] && !flags[k2]);
            }
        }
    } else {
        lemma_swap_filter(items, flags, i + 1);
        let rest = swap_filter(items, flags, i + 1);
        assert(r == rest);
        let tf = flags.subrange(i, n);
        assert(tf =~= seq![flags[i]] + flags.subrange(i + 1, n));
        vstd::seq_lib::lemma_multiset_commutative(seq![flags[i]], flags.subrange(i + 1, n));
        assert(seq![flags[i]] =~= Seq::<bool>::empty().push(flags[i]));
        assert forall|j: int| #![trigger r.1[j]] 0 <= j < r.1.len() implies stands_flagged(items, flags, i, r.1[j], true) by {
            assert(rest.1[j] == r.1[j]);
            assert(stands_flagged(items, flags, i + 1, rest.1[j], true));
            let k2 = choose|k: int|
                #![trigger items[k]]
                i + 1 <= k < items.len() && items[k] == rest.1[j] && flags[k] == true;
            assert(i <= k2 < items.len() && items[k2] == r.1[j] && flags[k2]);
        }
        assert forall|j: int| #![trigger r.0[j]] i <= j < r.0.len() implies stands_flagged(items, flags, i, r.0[j], false) by {
            if j == i {
                assert(items[i] == r.0[i] && !flags[i]);
            } else {
                assert(rest.0[j] == r.0[j]);
                assert(stands_flagged(items, flags, i + 1, rest.0[j], false));
                let k2 = choose|k: int|
                    #![trigger items[k]]
                    i + 1 <= k < items.len() && items[k] == rest.0[j] && flags[k] == false;
                assert(i <= k2 < items.len() && items[k2] == r.0[j] && !flags[k2]);
            }
        }
    }
}

/// What removing flagged entries keeps: no entry is lost or made up (the kept and
/// the removed together are the original entries, with their multiplicities), as
/// many are removed as flags are set, every removed entry was flagged and every
/// kept entry was not.
pub proof fn lemma_remove_flagged_laws<T>(items: Seq<T>, flags: Seq<bool>)
    requires
        flags.len() == items.len(),
    ensures
        removal_accounts_for(
            items,
            flags,
            0,
            swap_filter(items, flags, 0).0,
            swap_filter(items, flags, 0).1,
        ),
        swap_filter(items, flags, 0).1.len() == count_true(flags),
        swap_filter(items, flags, 0).0.len() == items.len() - count_true(flags),
{
    lemma_swap_filter(items, flags, 0);
    assert(flags.subrange(0, items.len() as int) =~= flags);
}

/// Removes from `items` every entry whose aligned flag is set, swapping the last
/// entry into the freed position, and returns the removed entries in removal order.
pub fn remove_flagged<T>(items: &mut Vec<T>, flags: Vec<bool>) -> (removed: Vec<T>)
    requires
        old(items).len() == flags.len(),
    ensures
        (final(items)@, removed@) == swap_filter(old(items)@, flags@, 0),
{
    let ghost start_items = items@;
    let ghost start_flags = flags@;
    let mut flags = flags;
    let mut removed: Vec<T> = Vec::new();
    let mut i: usize = 0;
    while i < items.len()
        invariant
            items.len() == flags.len(),
            i <= items.len(),
            swap_filter(start_items, start_flags, 0) == (
                swap_filter(items@, flags@, i as int).0,
                removed@ + swap_filter(items@, flags@, i as int).1,
            ),
        decreases items.len() - i,
    {
        if flags[i] {
            let ghost before_items = items@;
            let ghost before_flags = flags@;
            let ghost rest = swap_filter(swap_out(before_items, i as int), swap_out(before_flags, i as int), i as int);
            let x = items.swap_remove(i);
            flags.swap_remove(i);
            assert(removed@.push(x) + rest.1 =~= removed@ + (seq![x] + rest.1));
            removed.push(x);
        } else {
            i += 1;
        }
    }
    removed
}


/// The three kinds of zombie.
#[derive(Clone, Copy, PartialEq, Eq, Structural, Debug)]
pub enum ZKind {
    Normal,
    Fast,
    Tank,
}

/// Hit points a zombie of kind `kind` starts with.
pub open spec fn spec_starting_hp(kind: ZKind) -> i32 {
    match kind {
        ZKind::Normal => 2,
        ZKind::Fast => 1,
        ZKind::Tank => 3,
    }
}

impl ZKind {
    /// Hit points a zombie of this kind starts with: a tank takes three bullets,
    /// a normal zombie two, a fast one a single bullet.
    pub fn starting_hp(&self) -> (hp: i32)
        ensures
            hp == spec_starting_hp(*self),
    {
        match self {
            ZKind::Normal => 2,
            ZKind::Fast => 1,
            ZKind::Tank => 3,
        }
    }
}

/// A zombie: what the rules count (its kind and hit points) and a `body` the
/// rules never look into (where it stands, how fast it walks).
pub struct Zombie<B> {
    pub body: B,
    pub kind: ZKind,
    pub hp: i32,
}

impl<B> Zombie<B> {
    /// A fresh zombie of kind `kind`, with that kind's starting hit points.
    pub fn new(body: B, kind: ZKind) -> (z: Zombie<B>)
        ensures
            z.body == body,
            z.kind == kind,
            z.hp == spec_starting_hp(kind),
    {
        let hp = kind.starting_hp();
        Zombie { body, kind, hp }
    }
}

/// The zombie after taking one bullet.
pub open spec fn struck<B>(z: Zombie<B>) -> Zombie<B> {
    Zombie { body: z.body, kind: z.kind, hp: (z.hp - 1) as i32 }
}

/// The indices `0, 1, ..., n - 1`.
pub open spec fn indices(n: int) -> Seq<int> {
    Seq::new(n as nat, |k: int| k)
}

/// A sequence of `usize` read as integers.
pub open spec fn as_ints(s: Seq<usize>) -> Seq<int> {
    s.map_values(|x: usize| x as int)
}

/// Position, from `j` on, of the first bullet in `bullets` (given by original
/// index) that `row` marks as striking; the number of bullets when none does.
pub open spec fn first_hit(row: Seq<bool>, bullets: Seq<int>, j: int) -> int
    decreases bullets.len() - j,
{
    if j < 0 || j >= bullets.len() {
        bullets.len() as int
    } else if row[bullets[j]] {
        j
    } else {
        first_hit(row, bullets, j + 1)
    }
}

/// Resolves bullets against zombies the way one frame of the game does, from
/// zombie position `i` on. `zids` and `bids` give the original index of each
/// zombie and bullet, and `hits[z][b]` says whether original bullet `b` overlaps
/// original zombie `z`. Each zombie in turn takes the first remaining bullet
/// that overlaps it, if any; that bullet is removed (swapped out), the zombie
/// loses a hit point, and a zombie left with none is removed (swapped out, its
/// position looked at again) and recorded as killed.
/// Gives the zombies left, their original indices, the original indices of the
/// bullets left, and the killed zombies in the order they died.
pub open spec fn resolve_hits<B>(
    zs: Seq<Zombie<B>>,
    zids: Seq<int>,
    bids: Seq<int>,
    hits: Seq<Seq<bool>>,
    i: int,
) -> (Seq<Zombie<B>>, Seq<int>, Seq<int>, Seq<Zombie<B>>)
    decreases zs.len() - i,
{
    if i < 0 || i >= zs.len() {
        (zs, zids, bids, Seq::empty())
    } else {
        let j = first_hit(hits[zids[i]], bids, 0);
        if j >= bids.len() {
            resolve_hits(zs, zids, bids, hits, i + 1)
        } else {
            let z = struck(zs[i]);
            if z.hp <= 0 {
                let rest = resolve_hits(
                    swap_out(zs, i),
                    swap_out(zids, i),
                    swap_out(bids, j),
                    hits,
                    i,
                );
                (rest.0, rest.1, rest.2, seq![z] + rest.3)
            } else {
                resolve_hits(zs.update(i, z), zids, swap_out(bids, j), hits, i + 1)
            }
        }
    }
}

proof fn lemma_as_ints_swap_out(s: Seq<usize>, i: int)
    requires
        0 <= i < s.len(),
    ensures
        as_ints(swap_out(s, i)) == swap_out(as_ints(s), i),
{
    assert(as_ints(swap_out(s, i)) =~= swap_out(as_ints(s), i));
}

/// Position of the first bullet in `bids` whose column in `row` is set, or the
/// number of bullets when there is none.
fn find_first_hit(row: &Vec<bool>, bids: &Vec<usize>) -> (j: usize)
    requires
        forall|k: int| 0 <= k < bids.len() ==> bids[k] < row.len(),
    ensures
        j == first_hit(row@, as_ints(bids@), 0),
{
    let mut j: usize = 0;
    while j < bids.len()
        invariant
            j <= bids.len(),
            forall|k: int| 0 <= k < bids.len() ==> bids[k] < row.len(),
            first_hit(row@, as_ints(bids@), 0) == first_hit(row@, as_ints(bids@), j as int),
        decreases bids.len() - j,
    {
        if row[bids[j]] {
            return j;
        }
        j += 1;
    }
    j
}

/// One frame of bullets striking zombies. `hits[z][b]` says whether bullet `b`
/// overlaps zombie `z` (both by their position at the call). Each zombie in turn
/// is struck by at most one bullet, the first remaining one that overlaps it;
/// that bullet is used up, and a zombie brought to no hit points dies. Bullets
/// and dead zombies are removed by swapping in the last entry. Returns the
/// killed zombies in the order they died.
pub fn resolve_bullet_hits<B, T>(
    zombies: &mut Vec<Zombie<B>>,
    bullets: &mut Vec<T>,
    hits: &Vec<Vec<bool>>,
) -> (killed: Vec<Zombie<B>>)
    requires
        hits.len() == old(zombies).len(),
        forall|r: int| 0 <= r < hits.len() ==> #[trigger] hits[r].len() == old(bullets).len(),
        forall|k: int| 0 <= k < old(zombies).len() ==> #[trigger] old(zombies)[k].hp > i32::MIN,
    ensures
        ({
            let r = resolve_hits(
                old(zombies)@,
                indices(old(zombies).len() as int),
                indices(old(bullets).len() as int),
                hits.deep_view(),
                0,
            );
            &&& final(zombies)@ == r.0
            &&& killed@ == r.3
            &&& final(bullets)@ == r.2.map_values(|b: int| old(bullets)@[b])
        }),
{
    let ghost hv = hits.deep_view();
    let ghost start_z = zombies@;
    let ghost start_b = bullets@;
    let ghost goal = resolve_hits(
        start_z,
        indices(start_z.len() as int),
        indices(start_b.len() as int),
        hv,
        0,
    );
    let n = zombies.len();
    let m = bullets.len();
    let mut zids: Vec<usize> = Vec::new();
    let mut k: usize = 0;
    while k < n
        invariant
            k <= n,
            zids.len() == k,
            forall|t: int| 0 <= t < k ==> zids[t] == t,
        decreases n - k,
    {
        zids.push(k);
        k += 1;
    }
    let mut bids: Vec<usize> = Vec::new();
    k = 0;
    while k < m
        invariant
            k <= m,
            bids.len() == k,
            forall|t: int| 0 <= t < k ==> bids[t] == t,
        decreases m - k,
    {
        bids.push(k);
        k += 1;
    }
    assert(as_ints(zids@) =~= indices(n as int));
    assert(as_ints(bids@) =~= indices(m as int));
    let mut killed: Vec<Zombie<B>> = Vec::new();
    let mut i: usize = 0;
    assert(killed@ + goal.3 =~= goal.3);
    while i < zombies.len()
        invariant
            zombies.len() == zids.len(),
            bullets.len() == bids.len(),
            i <= zombies.len(),
            hits.len() == n,
            hv == hits.deep_view(),
            forall|r: int| 0 <= r < n ==> #[trigger] hits[r].len() == m,
            forall|t: int| 0 <= t < zids.len() ==> #[trigger] zids[t] < n,
            forall|t: int| 0 <= t < bids.len() ==> #[trigger] bids[t] < m,
            forall|t: int| 0 <= t < bullets.len() ==> #[trigger] bullets@[t] == start_b[bids[t] as int],
            forall|t: int| i <= t < zombies.len() ==> #[trigger] zombies[t].hp > i32::MIN,
            goal == ({
                let cur = resolve_hits(zombies@, as_ints(zids@), as_ints(bids@), hv, i as int);
                (cur.0, cur.1, cur.2, killed@ + cur.3)
            }),
        decreases zombies.len() - i,
    {
        let ghost zs = zombies@;
        let ghost zi = as_ints(zids@);
        let row = &hits[zids[i]];
        assert(hv[zi[i as int]] == row@);
        let j = find_first_hit(row, &bids);
        if j < bids.len() {
            proof {
                lemma_as_ints_swap_out(bids@, j as int);
            }
            bullets.swap_remove(j);
            bids.swap_remove(j);
            let hp = zombies[i].hp - 1;
            if hp <= 0 {
                proof {
                    lemma_as_ints_swap_out(zids@, i as int);
                }
                let mut z = zombies.swap_remove(i);
                zids.swap_remove(i);
                z.hp = hp;
                let ghost rest = resolve_hits(zombies@, as_ints(zids@), as_ints(bids@), hv, i as int);
                assert(z == struck(zs[i as int]));
                assert(killed@.push(z) + rest.3 =~= killed@ + (seq![z] + rest.3));
                killed.push(z);
            } else {
                zombies[i].hp = hp;
                assert(zombies@ =~= zs.update(i as int, struck(zs[i as int])));
                i += 1;
            }
        } else {
            i += 1;
        }
    }
    assert(bullets@ =~= goal.2.map_values(|b: int| start_b[b]));
    killed
}


/// `x` is `z0[id]`, or `z0[id]` after one bullet, for an original index `id`.
pub open spec fn from_original<B>(z0: Seq<Zombie<B>>, id: int, x: Zombie<B>) -> bool {
    &&& 0 <= id < z0.len()
    &&& (x == z0[id] || x == struck(z0[id]))
}

/// `x` is some original zombie after one bullet.
pub open spec fn struck_original<B>(z0: Seq<Zombie<B>>, x: Zombie<B>) -> bool {
    exists|id: int| #![trigger z0[id]] 0 <= id < z0.len() && x == struck(z0[id])
}

proof fn lemma_first_hit_bound(row: Seq<bool>, bids: Seq<int>, j: int)
    requires
        0 <= j <= bids.len(),
    ensures
        j <= first_hit(row, bids, j) <= bids.len(),
        first_hit(row, bids, j) < bids.len() ==> row[bids[first_hit(row, bids, j)]],
    decreases bids.len() - j,
{
    if j < bids.len() && !row[bids[j]] {
        lemma_first_hit_bound(row, bids, j + 1);
    }
}

proof fn lemma_resolve_hits<B>(
    zs: Seq<Zombie<B>>,
    zids: Seq<int>,
    bids: Seq<int>,
    hits: Seq<Seq<bool>>,
    i: int,
    z0: Seq<Zombie<B>>,
)
    requires
        0 <= i <= zs.len(),
        zids.len() == zs.len(),
        forall|k: int| 0 <= k < zs.len() ==> from_original(z0, #[trigger] zids[k], zs[k]),
        forall|k: int| i <= k < zs.len() ==> #[trigger] zs[k] == z0[zids[k]],
    ensures
        ({
            let r = resolve_hits(zs, zids, bids, hits, i);
            &&& r.0.len() == r.1.len()
            &&& r.0.len() + r.3.len() == zs.len()
            &&& r.2.len() + r.3.len() <= bids.len()
            &&& bids.len() - r.2.len() <= zs.len() - i
            &&& forall|k: int| 0 <= k < r.3.len() ==> (#[trigger] r.3[k]).hp <= 0
            &&& forall|k: int| 0 <= k < r.3.len() ==> struck_original(z0, #[trigger] r.3[k])
            &&& forall|k: int| 0 <= k < r.0.len() ==> from_original(z0, #[trigger] r.1[k], r.0[k])
            &&& forall|k: int| 0 <= k < r.2.len() ==> bids.contains(#[trigger] r.2[k])
        }),
    decreases zs.len() - i,
{
    let r = resolve_hits(zs, zids, bids, hits, i);
    if i == zs.len() {
    } else {
        let j = first_hit(hits[zids[i]], bids, 0);
        lemma_first_hit_bound(hits[zids[i]], bids, 0);
        if j >= bids.len() {
            lemma_resolve_hits(zs, zids, bids, hits, i + 1, z0);
        } else {
            let z = struck(zs[i]);
            let nb = swap_out(bids, j);
            assert forall|k: int| 0 <= k < nb.len() implies bids.contains(#[trigger] nb[k]) by {
                if k == j {
                    assert(nb[k] == bids[bids.len() - 1]);
                } else {
                    assert(nb[k] == bids[k]);
                }
            }
            if z.hp <= 0 {
                let nz = swap_out(zs, i);
                let nzi = swap_out(zids, i);
                assert forall|k: int| 0 <= k < nz.len() implies from_original(z0, #[trigger] nzi[k], nz[k]) by {
                    if k == i {
                        assert(nzi[k] == zids[zs.len() - 1] && nz[k] == zs[zs.len() - 1]);
                    } else {
                        assert(nzi[k] == zids[k] && nz[k] == zs[k]);
                    }
                }
                assert forall|k: int| i <= k < nz.len() implies #[trigger] nz[k] == z0[nzi[k]] by {
                    if k == i {
                        assert(nzi[k] == zids[zs.len() - 1] && nz[k] == zs[zs.len() - 1]);
                    } else {
                        assert(nzi[k] == zids[k] && nz[k] == zs[k]);
                    }
                }
                lemma_resolve_hits(nz, nzi, nb, hits, i, z0);
                let rest = resolve_hits(nz, nzi, nb, hits, i);
                assert(r.3 == seq![z] + rest.3);
                assert(z == struck(z0[zids[i]]));
                assert forall|k: int| 0 <= k < r.3.len() implies struck_original(z0, #[trigger] r.3[k]) by {
                    if k > 0 {
                        assert(r.3[k] == rest.3[k - 1]);
                    }
                }
                assert forall|k: int| 0 <= k < r.3.len() implies (#[trigger] r.3[k]).hp <= 0 by {
                    if k > 0 {
                        assert(r.3[k] == rest.3[k - 1]);
                    }
                }
                assert forall|k: int| 0 <= k < r.2.len() implies bids.contains(#[trigger] r.2[k]) by {
                    assert(nb.contains(r.2[k]));
                }
            } else {
                let nz = zs.update(i, z);
                assert forall|k: int| 0 <= k < nz.len() implies from_original(z0, #[trigger] zids[k], nz[k]) by {
                    if k == i {
                        assert(zs[k] == z0[zids[k]]);
                    }
                }
                lemma_resolve_hits(nz, zids, nb, hits, i + 1, z0);
                assert forall|k: int| 0 <= k < r.2.len() implies bids.contains(#[trigger] r.2[k]) by {
                    assert(nb.contains(r.2[k]));
                }
            }
        }
    }
}

/// What one frame of bullets striking zombies keeps: every zombie either
/// survives or is killed; each kill uses up a bullet and each zombie uses up at
/// most one; killed zombies have no hit points left; every survivor is an
/// original zombie (identified by its original index) with at most one hit
/// point taken; every killed zombie is an original zombie after one bullet; and
/// the bullets left are original bullets.
pub proof fn lemma_bullet_hits_laws<B>(zs: Seq<Zombie<B>>, n_bullets: int, hits: Seq<Seq<bool>>)
    requires
        0 <= n_bullets,
    ensures
        ({
            let r = resolve_hits(zs, indices(zs.len() as int), indices(n_bullets), hits, 0);
            &&& r.0.len() + r.3.len() == zs.len()
            &&& r.2.len() + r.3.len() <= n_bullets
            &&& n_bullets - r.2.len() <= zs.len()
            &&& forall|k: int| 0 <= k < r.3.len() ==> (#[trigger] r.3[k]).hp <= 0
            &&& forall|k: int| 0 <= k < r.3.len() ==> struck_original(zs, #[trigger] r.3[k])
            &&& forall|k: int| 0 <= k < r.0.len() ==> from_original(zs, #[trigger] r.1[k], r.0[k])
            &&& forall|k: int| 0 <= k < r.2.len() ==> 0 <= #[trigger] r.2[k] < n_bullets
        }),
{
    let ids = indices(zs.len() as int);
    let bids = indices(n_bullets);
    assert forall|k: int| 0 <= k < zs.len() implies from_original(zs, #[trigger] ids[k], zs[k]) by {
        assert(ids[k] == k);
    }
    assert forall|k: int| 0 <= k < zs.len() implies #[trigger] zs[k] == zs[ids[k]] by {
        assert(ids[k] == k);
    }
    lemma_resolve_hits(zs, ids, bids, hits, 0, zs);
    let r = resolve_hits(zs, ids, bids, hits, 0);
    assert forall|k: int| 0 <= k < r.2.len() implies 0 <= #[trigger] r.2[k] < n_bullets by {
        assert(bids.contains(r.2[k]));
        let t = choose|t: int| 0 <= t < bids.len() && bids[t] == r.2[k];
    }
}


/// Removing flagged entries commutes with transforming every entry by `g`.
pub proof fn lemma_swap_filter_map<T, U>(items: Seq<T>, flags: Seq<bool>, i: int, g: spec_fn(T) -> U)
    requires
        0 <= i <= items.len(),
        flags.len() == items.len(),
    ensures
        swap_filter(items.map_values(g), flags, i) == (
            swap_filter(items, flags, i).0.map_values(g),
            swap_filter(items, flags, i).1.map_values(g),
        ),
    decreases items.len() - i,
{
    let r = swap_filter(items, flags, i);
    let mi = items.map_values(g);
    if i == items.len() {
        assert(r.1.map_values(g) =~= Seq::<U>::empty());
    } else if flags[i] {
        assert(swap_out(mi, i) =~= swap_out(items, i).map_values(g));
        lemma_swap_filter_map(swap_out(items, i), swap_out(flags, i), i, g);
        let rest = swap_filter(swap_out(items, i), swap_out(flags, i), i);
        assert(seq![g(items[i])] + rest.1.map_values(g) =~= (seq![items[i]] + rest.1).map_values(g));
    } else {
        lemma_swap_filter_map(items, flags, i + 1, g);
    }
}

/// Sum of the hit points of a sequence of zombies.
pub open spec fn hp_total<B>(zs: Seq<Zombie<B>>) -> int
    decreases zs.len(),
{
    if zs.len() == 0 {
        0
    } else {
        hp_total(zs.drop_last()) + zs.last().hp
    }
}

proof fn lemma_hp_total_concat<B>(a: Seq<Zombie<B>>, b: Seq<Zombie<B>>)
    ensures
        hp_total(a + b) == hp_total(a) + hp_total(b),
    decreases b.len(),
{
    if b.len() == 0 {
        assert(a + b =~= a);
    } else {
        lemma_hp_total_concat(a, b.drop_last());
        assert((a + b).drop_last() =~= a + b.drop_last());
    }
}

proof fn lemma_hp_total_update<B>(s: Seq<Zombie<B>>, i: int, x: Zombie<B>)
    requires
        0 <= i < s.len(),
    ensures
        hp_total(s.update(i, x)) == hp_total(s) - s[i].hp + x.hp,
    decreases s.len(),
{
    if i < s.len() - 1 {
        lemma_hp_total_update(s.drop_last(), i, x);
        assert(s.update(i, x).drop_last() =~= s.drop_last().update(i, x));
    } else {
        assert(s.update(i, x).drop_last() =~= s.drop_last());
    }
}

proof fn lemma_hp_total_swap_out<B>(s: Seq<Zombie<B>>, i: int)
    requires
        0 <= i < s.len(),
    ensures
        hp_total(swap_out(s, i)) == hp_total(s) - s[i].hp,
{
    lemma_hp_total_update(s, i, s.last());
    let u = s.update(i, s.last());
    assert(u.last() == s.last());
}

proof fn lemma_resolve_hits_accounting<B>(
    zs: Seq<Zombie<B>>,
    zids: Seq<int>,
    bids: Seq<int>,
    hits: Seq<Seq<bool>>,
    i: int,
)
    requires
        0 <= i <= zs.len(),
        forall|k: int| 0 <= k < zs.len() ==> #[trigger] zs[k].hp > i32::MIN,
    ensures
        ({
            let r = resolve_hits(zs, zids, bids, hits, i);
            &&& hp_total(r.0) + hp_total(r.3) + (bids.len() - r.2.len()) == hp_total(zs)
            &&& (forall|k: int| 0 <= k < zs.len() ==> #[trigger] zs[k].hp > 0) ==> (forall|k: int|
                0 <= k < r.0.len() ==> #[trigger] r.0[k].hp > 0)
        }),
    decreases zs.len() - i,
{
    let r = resolve_hits(zs, zids, bids, hits, i);
    if i == zs.len() {
        assert(r.3 =~= Seq::<Zombie<B>>::empty());
    } else {
        let j = first_hit(hits[zids[i]], bids, 0);
        lemma_first_hit_bound(hits[zids[i]], bids, 0);
        if j >= bids.len() {
            lemma_resolve_hits_accounting(zs, zids, bids, hits, i + 1);
        } else {
            let z = struck(zs[i]);
            let nb = swap_out(bids, j);
            if z.hp <= 0 {
                let nz = swap_out(zs, i);
                assert forall|k: int| 0 <= k < nz.len() implies #[trigger] nz[k].hp > i32::MIN by {
                    if k == i {
                        assert(nz[k] == zs[zs.len() - 1]);
                    } else {
                        assert(nz[k] == zs[k]);
                    }
                }
                lemma_resolve_hits_accounting(nz, swap_out(zids, i), nb, hits, i);
                lemma_hp_total_swap_out(zs, i);
                let rest = resolve_hits(nz, swap_out(zids, i), nb, hits, i);
                lemma_hp_total_concat(seq![z], rest.3);
                assert(seq![z].drop_last() =~= Seq::<Zombie<B>>::empty());
                assert(hp_total(Seq::<Zombie<B>>::empty()) == 0);
                assert(seq![z].last() == z);
                assert(hp_total(seq![z]) == z.hp);
                if forall|k: int| 0 <= k < zs.len() ==> #[trigger] zs[k].hp > 0 {
                    assert forall|k: int| 0 <= k < nz.len() implies #[trigger] nz[k].hp > 0 by {
                        if k == i {
                            assert(nz[k] == zs[zs.len() - 1]);
                        } else {
                            assert(nz[k] == zs[k]);
                        }
                    }
                }
            } else {
                let nz = zs.update(i, z);
                assert forall|k: int| 0 <= k < nz.len() implies #[trigger] nz[k].hp > i32::MIN by {
                    if k != i {
                        assert(nz[k] == zs[k]);
                    }
                }
                lemma_resolve_hits_accounting(nz, zids, nb, hits, i + 1);
                lemma_hp_total_update(zs, i, z);
                if forall|k: int| 0 <= k < zs.len() ==> #[trigger] zs[k].hp > 0 {
                    assert forall|k: int| 0 <= k < nz.len() implies #[trigger] nz[k].hp > 0 by {
                        if k != i {
                            assert(nz[k] == zs[k]);
                        }
                    }
                }
            }
        }
    }
}

/// Bullets take hit points one for one: the hit points of the survivors and of
/// the killed add up to the hit points the horde started with, less one for
/// every bullet used up. And no zombie is left standing without hit points:
/// when every zombie starts the frame alive, every survivor ends it with hit
/// points above zero, whatever its kind (a zombie brought to zero dies).
pub proof fn lemma_bullet_hits_accounting<B>(zs: Seq<Zombie<B>>, n_bullets: int, hits: Seq<Seq<bool>>)
    requires
        0 <= n_bullets,
        forall|k: int| 0 <= k < zs.len() ==> #[trigger] zs[k].hp > i32::MIN,
    ensures
        ({
            let r = resolve_hits(zs, indices(zs.len() as int), indices(n_bullets), hits, 0);
            &&& hp_total(r.0) + hp_total(r.3) + (n_bullets - r.2.len()) == hp_total(zs)
            &&& (forall|k: int| 0 <= k < zs.len() ==> #[trigger] zs[k].hp > 0) ==> (forall|k: int|
                0 <= k < r.0.len() ==> #[trigger] r.0[k].hp > 0)
        }),
{
    lemma_resolve_hits_accounting(zs, indices(zs.len() as int), indices(n_bullets), hits, 0);
}

/// No remaining bullet overlaps the zombie with original index `id`.
pub open spec fn no_bullet_overlaps(hits: Seq<Seq<bool>>, id: int, bids: Seq<int>) -> bool {
    forall|t: int| 0 <= t < bids.len() ==> !hits[id][#[trigger] bids[t]]
}

proof fn lemma_swap_out_no_overlap(hits: Seq<Seq<bool>>, id: int, bids: Seq<int>, j: int)
    requires
        0 <= j < bids.len(),
        no_bullet_overlaps(hits, id, bids),
    ensures
        no_bullet_overlaps(hits, id, swap_out(bids, j)),
{
    let nb = swap_out(bids, j);
    assert forall|t: int| 0 <= t < nb.len() implies !hits[id][#[trigger] nb[t]] by {
        if t == j {
            assert(nb[t] == bids[bids.len() - 1]);
        } else {
            assert(nb[t] == bids[t]);
        }
    }
}

proof fn lemma_first_hit_none(row: Seq<bool>, bids: Seq<int>, j: int)
    requires
        0 <= j <= bids.len(),
        first_hit(row, bids, j) >= bids.len(),
    ensures
        forall|t: int| j <= t < bids.len() ==> !row[#[trigger] bids[t]],
    decreases bids.len() - j,
{
    if j < bids.len() {
        lemma_first_hit_none(row, bids, j + 1);
    }
}

proof fn lemma_resolve_untouched<B>(
    zs: Seq<Zombie<B>>,
    zids: Seq<int>,
    bids: Seq<int>,
    hits: Seq<Seq<bool>>,
    i: int,
    z0: Seq<Zombie<B>>,
)
    requires
        0 <= i <= zs.len(),
        zids.len() == zs.len(),
        forall|k: int| 0 <= k < z0.len() ==> #[trigger] z0[k].hp > i32::MIN,
        forall|k: int| 0 <= k < zs.len() ==> from_original(z0, #[trigger] zids[k], zs[k]),
        forall|k: int| i <= k < zs.len() ==> #[trigger] zs[k] == z0[zids[k]],
        forall|k: int|
            0 <= k < i && #[trigger] zs[k] == z0[zids[k]] ==> no_bullet_overlaps(hits, zids[k], bids),
    ensures
        ({
            let r = resolve_hits(zs, zids, bids, hits, i);
            forall|k: int|
                0 <= k < r.0.len() && #[trigger] r.0[k] == z0[r.1[k]] ==> no_bullet_overlaps(
                    hits,
                    r.1[k],
                    r.2,
                )
        }),
    decreases zs.len() - i,
{
    let r = resolve_hits(zs, zids, bids, hits, i);
    if i == zs.len() {
        assert forall|k: int|
            0 <= k < r.0.len() && #[trigger] r.0[k] == z0[r.1[k]] implies no_bullet_overlaps(
            hits,
            r.1[k],
            r.2,
        ) by {
            assert(r.0[k] == zs[k] && r.1[k] == zids[k]);
        }
    } else {
        let j = first_hit(hits[zids[i]], bids, 0);
        lemma_first_hit_bound(hits[zids[i]], bids, 0);
        if j >= bids.len() {
            lemma_first_hit_none(hits[zids[i]], bids, 0);
            assert(no_bullet_overlaps(hits, zids[i], bids));
            lemma_resolve_untouched(zs, zids, bids, hits, i + 1, z0);
            assert(r == resolve_hits(zs, zids, bids, hits, i + 1));
        } else {
            let z = struck(zs[i]);
            let nb = swap_out(bids, j);
            assert forall|k: int|
                0 <= k < i && #[trigger] zs[k] == z0[zids[k]] implies no_bullet_overlaps(
                hits,
                zids[k],
                nb,
            ) by {
                lemma_swap_out_no_overlap(hits, zids[k], bids, j);
            }
            if z.hp <= 0 {
                let nz = swap_out(zs, i);
                let nzi = swap_out(zids, i);
                assert forall|k: int| 0 <= k < nz.len() implies from_original(z0, #[trigger] nzi[k], nz[k]) by {
                    if k == i {
                        assert(nzi[k] == zids[zs.len() - 1] && nz[k] == zs[zs.len() - 1]);
                    } else {
                        assert(nzi[k] == zids[k] && nz[k] == zs[k]);
                    }
                }
                assert forall|k: int| i <= k < nz.len() implies #[trigger] nz[k] == z0[nzi[k]] by {
                    if k == i {
                        assert(nzi[k] == zids[zs.len() - 1] && nz[k] == zs[zs.len() - 1]);
                    } else {
                        assert(nzi[k] == zids[k] && nz[k] == zs[k]);
                    }
                }
                assert forall|k: int|
                    0 <= k < i && #[trigger] nz[k] == z0[nzi[k]] implies no_bullet_overlaps(
                    hits,
                    nzi[k],
                    nb,
                ) by {
                    assert(nzi[k] == zids[k] && nz[k] == zs[k]);
                }
                lemma_resolve_untouched(nz, nzi, nb, hits, i, z0);
                let rest = resolve_hits(nz, nzi, nb, hits, i);
                assert(r.0 == rest.0 && r.1 == rest.1 && r.2 == rest.2);
            } else {
                let nz = zs.update(i, z);
                assert(zs[i] == z0[zids[i]]);
                assert(z.hp != zs[i].hp);
                assert forall|k: int| 0 <= k < nz.len() implies from_original(z0, #[trigger] zids[k], nz[k]) by {
                    if k == i {
                        assert(zs[k] == z0[zids[k]]);
                    }
                }
                assert forall|k: int|
                    0 <= k < i + 1 && #[trigger] nz[k] == z0[zids[k]] implies no_bullet_overlaps(
                    hits,
                    zids[k],
                    nb,
                ) by {
                    if k == i {
                        assert(nz[k] == z);
                    }
                }
                lemma_resolve_untouched(nz, zids, nb, hits, i + 1, z0);
                assert(r == resolve_hits(nz, zids, nb, hits, i + 1));
            }
        }
    }
}

/// A zombie the frame leaves untouched (same hit points as before) has no
/// bullet still flying that overlaps it: a zombie is passed over only when no
/// remaining bullet overlaps it, and bullets only ever leave.
pub proof fn lemma_untouched_zombies_not_overlapped<B>(
    zs: Seq<Zombie<B>>,
    n_bullets: int,
    hits: Seq<Seq<bool>>,
)
    requires
        0 <= n_bullets,
        forall|k: int| 0 <= k < zs.len() ==> #[trigger] zs[k].hp > i32::MIN,
    ensures
        ({
            let r = resolve_hits(zs, indices(zs.len() as int), indices(n_bullets), hits, 0);
            forall|k: int|
                0 <= k < r.0.len() && #[trigger] r.0[k] == zs[r.1[k]] ==> no_bullet_overlaps(
                    hits,
                    r.1[k],
                    r.2,
                )
        }),
{
    let ids = indices(zs.len() as int);
    assert forall|k: int| 0 <= k < zs.len() implies from_original(zs, #[trigger] ids[k], zs[k]) by {
        assert(ids[k] == k);
    }
    assert forall|k: int| 0 <= k < zs.len() implies #[trigger] zs[k] == zs[ids[k]] by {
        assert(ids[k] == k);
    }
    lemma_resolve_untouched(zs, ids, indices(n_bullets), hits, 0, zs);
}

/// Number of entries of `s` that satisfy `p`.
pub open spec fn count_where<T>(s: Seq<T>, p: spec_fn(T) -> bool) -> nat
    decreases s.len(),
{
    if s.len() == 0 {
        0
    } else {
        (if p(s[0]) { 1nat } else { 0nat }) + count_where(s.drop_first(), p)
    }
}

/// For each position, whether its flag is set and its entry satisfies `p`.
pub open spec fn flagged_and<T>(items: Seq<T>, flags: Seq<bool>, p: spec_fn(T) -> bool) -> Seq<bool> {
    Seq::new(items.len(), |k: int| flags[k] && p(items[k]))
}

/// Every entry satisfies `p`, so all of them are counted.
pub proof fn lemma_count_where_all<T>(s: Seq<T>, p: spec_fn(T) -> bool)
    requires
        forall|x: T| #[trigger] p(x),
    ensures
        count_where(s, p) == s.len(),
    decreases s.len(),
{
    if s.len() > 0 {
        lemma_count_where_all(s.drop_first(), p);
    }
}

proof fn lemma_count_true_swap_out_front(t: Seq<bool>)
    requires
        t.len() > 0,
    ensures
        count_true(t) == count_true(swap_out(t, 0)) + (if t[0] { 1nat } else { 0nat }),
{
    broadcast use vstd::multiset::group_multiset_axioms;

    lemma_swap_out_multiset(t, 0);
    assert(t.to_multiset().count(t[0]) > 0) by {
        assert(t.contains(t[0]));
    }
}

proof fn lemma_swap_filter_count<T>(items: Seq<T>, flags: Seq<bool>, i: int, p: spec_fn(T) -> bool)
    requires
        0 <= i <= items.len(),
        flags.len() == items.len(),
    ensures
        count_where(swap_filter(items, flags, i).1, p) == count_true(
            flagged_and(items, flags, p).subrange(i, items.len() as int),
        ),
    decreases items.len() - i,
{
    broadcast use vstd::multiset::group_multiset_axioms;

    let n = items.len() as int;
    let h = flagged_and(items, flags, p);
    let r = swap_filter(items, flags, i);
    if i == n {
        assert(h.subrange(i, n) =~= Seq::<bool>::empty());
        assert(r.1 =~= Seq::<T>::empty());
    } else if flags[i] {
        let si = swap_out(items, i);
        let sf = swap_out(flags, i);
        lemma_swap_filter_count(si, sf, i, p);
        let rest = swap_filter(si, sf, i);
        assert(flagged_and(si, sf, p) =~= swap_out(h, i));
        let t = h.subrange(i, n);
        assert(swap_out(h, i).subrange(i, n - 1) =~= swap_out(t, 0));
        lemma_count_true_swap_out_front(t);
        assert(r.1 == seq![items[i]] + rest.1);
        assert((seq![items[i]] + rest.1).drop_first() =~= rest.1);
    } else {
        lemma_swap_filter_count(items, flags, i + 1, p);
        let t = h.subrange(i, n);
        assert(t =~= seq![false] + h.subrange(i + 1, n));
        vstd::seq_lib::lemma_multiset_commutative(seq![false], h.subrange(i + 1, n));
        assert(seq![false] =~= Seq::<bool>::empty().push(false));
    }
}

/// The removed entries that satisfy `p` are exactly as many as the flagged
/// positions whose entry satisfies `p`.
pub proof fn lemma_remove_flagged_counts<T>(items: Seq<T>, flags: Seq<bool>, p: spec_fn(T) -> bool)
    requires
        flags.len() == items.len(),
    ensures
        count_where(swap_filter(items, flags, 0).1, p) == count_true(flagged_and(items, flags, p)),
{
    lemma_swap_filter_count(items, flags, 0, p);
    assert(flagged_and(items, flags, p).subrange(0, items.len() as int) =~= flagged_and(
        items,
        flags,
        p,
    ));
}

/// A fast zombie falls to one bullet, a normal zombie to two, a tank to three.
pub proof fn lemma_starting_hp_bullets()
    ensures
        spec_starting_hp(ZKind::Fast) == 1,
        spec_starting_hp(ZKind::Normal) == 2,
        spec_starting_hp(ZKind::Tank) == 3,
{
}

} // verus!
