use vstd::prelude::*;

use crate::enigma::{
    SettingsView, can_add_plug, is_triple_unique, plug_well_formed, plugboard_valid, plugs_disjoint,
    settings_valid, triple_distinct, triple_in_range, Settings, MAX_PLUGS, MAX_RING_SETTINGS_NUM,
    MAX_ROTOR_NUM, MAX_ROTOR_POSITIONS_NUM,
};
use crate::random::{choose_plug, choose_three, flip_coin, gen_range_inclusive};
use rand::rngs::StdRng;

verus! {

/// How many draws a rejection-repair loop makes before it gives up.
pub const MAX_REPAIR_ATTEMPTS: usize = 100000;

/// Why a genetic operator produced no configuration.
#[derive(Clone, Copy, Debug, PartialEq, Eq, Structural)]
pub enum GenError {
    /// A rejection-repair loop found no acceptable value within
    /// `MAX_REPAIR_ATTEMPTS` draws.
    RepairExhausted,
    /// Crossover was handed fewer than two parents.
    TooFewParents,
}

/// Every cable of the plugboard universe: each unordered pair of different
/// letters, the smaller letter first.
pub fn plug_universe() -> (r: Vec<(char, char)>)
    ensures
        r@.len() == 325,
        forall|k: int| 0 <= k < r@.len() ==> plug_well_formed(#[trigger] r@[k]) && r@[k].0 < r@[k].1,
        forall|a: char, b: char| 'A' <= a < b <= 'Z' ==> r@.contains((a, b)),
{
    let mut plugs: Vec<(char, char)> = Vec::new();
    let mut i: u8 = 0;
    while i < 26
        invariant
            i <= 26,
            plugs@.len() == i * (51 - i) / 2,
            forall|k: int|
                0 <= k < plugs@.len() ==> plug_well_formed(#[trigger] plugs@[k]) && plugs@[k].0
                    < plugs@[k].1,
            forall|a: char, b: char|
                'A' <= a < b <= 'Z' && (a as u32) < 65 + i ==> plugs@.contains((a, b)),
        decreases 26 - i,
    {
        let first = (65u8 + i) as char;
        let mut j: u8 = i + 1;
        while j < 26
            invariant
                i < 26,
                i + 1 <= j <= 26,
                first as u32 == 65 + i,
                plugs@.len() == i * (51 - i) / 2 + (j - i - 1),
                forall|k: int|
                    0 <= k < plugs@.len() ==> plug_well_formed(#[trigger] plugs@[k]) && plugs@[k].0
                        < plugs@[k].1,
                forall|a: char, b: char|
                    'A' <= a < b <= 'Z' && (a as u32) < 65 + i ==> plugs@.contains((a, b)),
                forall|b: char|
                    first < b <= 'Z' && (#[trigger] (b as u32)) < 65 + j ==> plugs@.contains(
                        (first, b),
                    ),
            decreases 26 - j,
        {
            let ghost old_plugs = plugs@;
            let second = (65u8 + j) as char;
            let next = (first, second);
            plugs.push(next);
            proof {
                assert(plugs@[old_plugs.len() as int] == next);
                assert forall|p: (char, char)| old_plugs.contains(p) implies plugs@.contains(p) by {
                    let k = choose|k: int| 0 <= k < old_plugs.len() && old_plugs[k] == p;
                    assert(plugs@[k] == p);
                }
                assert forall|a: char, b: char|
                    'A' <= a < b <= 'Z' && (a as u32) < 65 + i implies plugs@.contains((a, b)) by {
                    assert(old_plugs.contains((a, b)));
                }
                assert forall|b: char|
                    first < b <= 'Z' && (#[trigger] (b as u32)) < 65 + j + 1 implies plugs@.contains(
                    (first, b),
                ) by {
                    if (b as u32) == 65 + j {
                        assert(b == second);
                    } else {
                        assert(old_plugs.contains((first, b)));
                    }
                }
            }
            j = j + 1;
        }
        proof {
            assert forall|a: char, b: char|
                'A' <= a < b <= 'Z' && (a as u32) < 65 + i + 1 implies plugs@.contains((a, b)) by {
                if (a as u32) == 65 + i {
                    assert(a == first);
                    assert((b as u32) < 91);
                }
            }
        }
        assert((i + 1) * (51 - (i + 1)) / 2 == i * (51 - i) / 2 + (25 - i)) by (nonlinear_arith)
            requires
                i < 26,
        ;
        i = i + 1;
    }
    plugs
}

/// Three distinct values drawn from `[from, to]`.
pub fn gen_triple_unique(from: u8, to: u8, rng: &mut StdRng) -> (r: (u8, u8, u8))
    requires
        from <= to,
        to - from >= 2,
    ensures
        triple_distinct(r),
        triple_in_range(r, from, to),
{
    let v = choose_three(rng, from, to);
    assert(v@[0] != v@[1] && v@[1] != v@[2] && v@[0] != v@[2]);
    assert(from <= v@[0] <= to && from <= v@[1] <= to && from <= v@[2] <= to);
    (v[0], v[1], v[2])
}

/// A value drawn from `[from, to]`.
fn gen_value(from: u8, to: u8, rng: &mut StdRng) -> (r: u8)
    requires
        from <= to,
    ensures
        from <= r <= to,
{
    gen_range_inclusive(rng, from as usize, to as usize) as u8
}

/// Three values drawn independently from `[from, to]`.
pub fn gen_triple(from: u8, to: u8, rng: &mut StdRng) -> (r: (u8, u8, u8))
    requires
        from <= to,
    ensures
        triple_in_range(r, from, to),
{
    let a = gen_value(from, to, rng);
    let b = gen_value(from, to, rng);
    let c = gen_value(from, to, rng);
    (a, b, c)
}

/// A rotor choice: three distinct rotor numbers.
pub fn gen_rotors(rng: &mut StdRng) -> (r: (u8, u8, u8))
    ensures
        triple_distinct(r),
        triple_in_range(r, 1, MAX_ROTOR_NUM),
{
    gen_triple_unique(1, MAX_ROTOR_NUM, rng)
}

/// Three ring settings.
pub fn gen_ring_settings(rng: &mut StdRng) -> (r: (u8, u8, u8))
    ensures
        triple_in_range(r, 1, MAX_RING_SETTINGS_NUM),
{
    gen_triple(1, MAX_RING_SETTINGS_NUM, rng)
}

/// Three starting positions.
pub fn gen_rotor_positions(rng: &mut StdRng) -> (r: (u8, u8, u8))
    ensures
        triple_in_range(r, 1, MAX_ROTOR_POSITIONS_NUM),
{
    gen_triple(1, MAX_ROTOR_POSITIONS_NUM, rng)
}

/// Draws cables from `universe` until one shares no letter with `plugs`.
fn draw_free_plug(plugs: &[(char, char)], universe: &[(char, char)], rng: &mut StdRng) -> (r:
    Result<(char, char), GenError>)
    requires
        universe@.len() > 0,
    ensures
        r matches Ok(p) ==> universe@.contains(p) && forall|i: int|
            0 <= i < plugs@.len() ==> plugs_disjoint(#[trigger] plugs@[i], p),
        r matches Err(e) ==> e == GenError::RepairExhausted,
{
    let mut attempt: usize = 0;
    while attempt < MAX_REPAIR_ATTEMPTS
        invariant
            universe@.len() > 0,
        decreases MAX_REPAIR_ATTEMPTS - attempt,
    {
        let next = choose_plug(rng, universe);
        if can_add_plug(plugs, next) {
            return Ok(next);
        }
        attempt = attempt + 1;
    }
    Err(GenError::RepairExhausted)
}

/// A plugboard of `count` cables drawn from `universe`, each draw repeated
/// until the cable's letters are still free.
pub fn fill_plugboard(count: usize, universe: &[(char, char)], rng: &mut StdRng) -> (r: Result<
    Vec<(char, char)>,
    GenError,
>)
    requires
        count <= MAX_PLUGS,
        universe@.len() > 0,
        forall|m: int| 0 <= m < universe@.len() ==> plug_well_formed(#[trigger] universe@[m]),
    ensures
        r matches Ok(p) ==> plugboard_valid(p@) && p@.len() == count && forall|k: int|
            0 <= k < p@.len() ==> universe@.contains(#[trigger] p@[k]),
        count == 0 ==> (r matches Ok(p) && p@.len() == 0),
        r matches Err(e) ==> e == GenError::RepairExhausted,
{
    let mut plugs: Vec<(char, char)> = Vec::new();
    let mut k: usize = 0;
    while k < count
        invariant
            count <= MAX_PLUGS,
            k <= count,
            plugs@.len() == k,
            plugboard_valid(plugs@),
            universe@.len() > 0,
            forall|m: int| 0 <= m < universe@.len() ==> plug_well_formed(#[trigger] universe@[m]),
            forall|m: int| 0 <= m < plugs@.len() ==> universe@.contains(#[trigger] plugs@[m]),
        decreases count - k,
    {
        let next = match draw_free_plug(plugs.as_slice(), universe, rng) {
            Ok(p) => p,
            Err(e) => {
                return Err(e);
            },
        };
        let ghost old_plugs = plugs@;
        plugs.push(next);
        proof {
            assert(plugs@.last() == next);
            let m = choose|m: int| 0 <= m < universe@.len() && universe@[m] == next;
            assert(plug_well_formed(universe@[m]));
            assert forall|i: int| 0 <= i < plugs@.len() implies universe@.contains(
                #[trigger] plugs@[i],
            ) by {
                if i < k {
                    assert(plugs@[i] == old_plugs[i]);
                }
            }
            assert forall|i: int| 0 <= i < plugs@.len() implies plug_well_formed(
                #[trigger] plugs@[i],
            ) by {
                if i < k {
                    assert(plugs@[i] == old_plugs[i]);
                }
            }
            assert forall|i: int, j: int|
                0 <= i < plugs@.len() && 0 <= j < plugs@.len() && i != j implies plugs_disjoint(
                plugs@[i],
                plugs@[j],
            ) by {
                if i == k as int {
                    assert(plugs_disjoint(old_plugs[j], next));
                } else if j == k as int {
                    assert(plugs_disjoint(old_plugs[i], next));
                } else {
                    assert(plugs_disjoint(old_plugs[i], old_plugs[j]));
                }
            }
        }
        k = k + 1;
    }
    Ok(plugs)
}

/// A random plugboard: a cable count drawn from `[0, MAX_PLUGS]`, then cables
/// drawn from the universe, each kept only if its letters are still free.
pub fn gen_plugboard(rng: &mut StdRng) -> (r: Result<Vec<(char, char)>, GenError>)
    ensures
        r matches Ok(p) ==> plugboard_valid(p@) && forall|k: int|
            0 <= k < p@.len() ==> 'A' <= (#[trigger] p@[k]).0 < p@[k].1 <= 'Z',
        r matches Err(e) ==> e == GenError::RepairExhausted,
{
    let universe = plug_universe();
    let plugs_cnt = gen_range_inclusive(rng, 0, MAX_PLUGS);
    let r = fill_plugboard(plugs_cnt, universe.as_slice(), rng);
    proof {
        if r is Ok {
            let p = r->Ok_0;
            assert forall|k: int| 0 <= k < p@.len() implies 'A' <= (#[trigger] p@[k]).0 < p@[k].1
                <= 'Z' by {
                assert(universe@.contains(p@[k]));
                let m = choose|m: int| 0 <= m < universe@.len() && universe@[m] == p@[k];
                assert(plug_well_formed(universe@[m]) && universe@[m].0 < universe@[m].1);
            }
        }
    }
    r
}

/// Builds random valid configurations for the initial population.
pub struct SettingsBuilder;

impl SettingsBuilder {
    /// A fresh random configuration; the index of the genome in the
    /// population plays no part.
    pub fn build_genome(&self, index: usize, rng: &mut StdRng) -> (r: Result<Settings, GenError>)
        ensures
            r matches Ok(s) ==> settings_valid(s@) && forall|k: int|
                0 <= k < s.plugboard@.len() ==> 'A' <= (#[trigger] s.plugboard@[k]).0
                    < s.plugboard@[k].1 <= 'Z',
            r matches Err(e) ==> e == GenError::RepairExhausted,
    {
        let rotors = gen_rotors(rng);
        let ring_settings = gen_ring_settings(rng);
        let rotor_positions = gen_rotor_positions(rng);
        let plugboard = gen_plugboard(rng)?;
        Ok(Settings { rotors, ring_settings, rotor_positions, plugboard })
    }
}

/// The value that a coin picks: `x` on heads, `y` on tails.
pub open spec fn pick(coin: bool, x: u8, y: u8) -> u8 {
    if coin {
        x
    } else {
        y
    }
}

/// Uniform crossover of two triples under three given coins.
pub open spec fn crossed_triple(x: (u8, u8, u8), y: (u8, u8, u8), coins: (bool, bool, bool)) -> (
    u8,
    u8,
    u8,
) {
    (pick(coins.0, x.0, y.0), pick(coins.1, x.1, y.1), pick(coins.2, x.2, y.2))
}

/// Each value of `r` is the value at the same place in `x` or in `y`.
pub open spec fn taken_positionally(r: (u8, u8, u8), x: (u8, u8, u8), y: (u8, u8, u8)) -> bool {
    (r.0 == x.0 || r.0 == y.0) && (r.1 == x.1 || r.1 == y.1) && (r.2 == x.2 || r.2 == y.2)
}

/// The plugboard that crossover builds from `p1` and `p2` under the coins
/// `coins`: at each index the coin names a parent, and that parent's cable at
/// the index, if it has one, is kept when it shares no letter with the cables
/// kept so far.
pub open spec fn merged_plugs(p1: Seq<(char, char)>, p2: Seq<(char, char)>, coins: Seq<bool>) -> Seq<
    (char, char),
>
    decreases coins.len(),
{
    if coins.len() == 0 {
        Seq::empty()
    } else {
        let prev = merged_plugs(p1, p2, coins.drop_last());
        let i = coins.len() - 1;
        let cand = if coins.last() {
            p1
        } else {
            p2
        };
        if i < cand.len() && forall|k: int| 0 <= k < prev.len() ==> plugs_disjoint(#[trigger] prev[k], cand[i]) {
            prev.push(cand[i])
        } else {
            prev
        }
    }
}

/// The larger of two lengths.
pub open spec fn max_len(a: nat, b: nat) -> nat {
    if a >= b {
        a
    } else {
        b
    }
}

/// `c` is a crossover child of `a` and `b`: each place of each triple comes
/// from one of them, and the plugboard is merged from theirs under some coins,
/// one per index of the longer plugboard.
pub open spec fn is_cross_of(c: SettingsView, a: SettingsView, b: SettingsView) -> bool {
    &&& taken_positionally(c.rotors, a.rotors, b.rotors)
    &&& taken_positionally(c.ring_settings, a.ring_settings, b.ring_settings)
    &&& taken_positionally(c.rotor_positions, a.rotor_positions, b.rotor_positions)
    &&& exists|coins: Seq<bool>|
        coins.len() == max_len(a.plugboard.len(), b.plugboard.len()) && c.plugboard
            == merged_plugs(a.plugboard, b.plugboard, coins)
}

/// `c` is a crossover child of two parents at distinct indices of `parents`.
pub open spec fn bred_from(c: SettingsView, parents: Seq<Settings>) -> bool {
    exists|i: int, j: int|
        0 <= i < parents.len() && 0 <= j < parents.len() && i != j && #[trigger] is_cross_of(
            c,
            parents[i]@,
            parents[j]@,
        )
}

/// Uniform crossover of two triples under given coins.
pub fn pick_positionally(x: (u8, u8, u8), y: (u8, u8, u8), coins: (bool, bool, bool)) -> (r: (
    u8,
    u8,
    u8,
))
    ensures
        r == crossed_triple(x, y, coins),
{
    (
        if coins.0 {
            x.0
        } else {
            y.0
        },
        if coins.1 {
            x.1
        } else {
            y.1
        },
        if coins.2 {
            x.2
        } else {
            y.2
        },
    )
}

/// Uniform crossover of two triples: a fair coin for each place.
pub fn cross_positionally(x: (u8, u8, u8), y: (u8, u8, u8), rng: &mut StdRng) -> (r: (u8, u8, u8))
    ensures
        taken_positionally(r, x, y),
        exists|coins: (bool, bool, bool)| r == crossed_triple(x, y, coins),
{
    let c0 = flip_coin(rng);
    let c1 = flip_coin(rng);
    let c2 = flip_coin(rng);
    pick_positionally(x, y, (c0, c1, c2))
}

/// Every uniform crossover of the two rotor choices has distinct rotors, so
/// no coin can make the crossover draw again.
pub open spec fn rotor_crosses_distinct(rotors1: (u8, u8, u8), rotors2: (u8, u8, u8)) -> bool {
    forall|c: (bool, bool, bool)| #[trigger] triple_distinct(crossed_triple(rotors1, rotors2, c))
}

/// Every pair of parents at distinct indices has only crossovers with
/// distinct rotors.
pub open spec fn parents_cross_distinct(parents: Seq<Settings>) -> bool {
    forall|i: int, j: int|
        0 <= i < parents.len() && 0 <= j < parents.len() && i != j ==> #[trigger] rotor_crosses_distinct(
            parents[i].rotors,
            parents[j].rotors,
        )
}

/// Crossover of two rotor choices: uniform crossover, drawn again as a whole
/// until the three rotors are distinct.
pub fn cross_rotors(rotors1: (u8, u8, u8), rotors2: (u8, u8, u8), rng: &mut StdRng) -> (r: Result<
    (u8, u8, u8),
    GenError,
>)
    ensures
        r matches Ok(t) ==> triple_distinct(t) && taken_positionally(t, rotors1, rotors2),
        rotor_crosses_distinct(rotors1, rotors2) ==> r is Ok,
        r matches Err(e) ==> e == GenError::RepairExhausted,
{
    let mut attempt: usize = 0;
    while attempt < MAX_REPAIR_ATTEMPTS
        invariant
            rotor_crosses_distinct(rotors1, rotors2) ==> attempt == 0,
        decreases MAX_REPAIR_ATTEMPTS - attempt,
    {
        let t = cross_positionally(rotors1, rotors2, rng);
        proof {
            let c = choose|c: (bool, bool, bool)| t == crossed_triple(rotors1, rotors2, c);
            if rotor_crosses_distinct(rotors1, rotors2) {
                assert(triple_distinct(crossed_triple(rotors1, rotors2, c)));
            }
        }
        if is_triple_unique(t) {
            return Ok(t);
        }
        attempt = attempt + 1;
    }
    Err(GenError::RepairExhausted)
}

/// Crossover of two plugboards under given coins, one coin per index.
pub fn merge_plugboards(plugs1: &[(char, char)], plugs2: &[(char, char)], coins: &[bool]) -> (r: Vec<
    (char, char),
>)
    ensures
        r@ == merged_plugs(plugs1@, plugs2@, coins@),
        r@.len() <= coins@.len(),
        forall|i: int, j: int|
            0 <= i < r@.len() && 0 <= j < r@.len() && i != j ==> plugs_disjoint(r@[i], r@[j]),
        forall|i: int|
            0 <= i < r@.len() ==> plugs1@.contains(#[trigger] r@[i]) || plugs2@.contains(r@[i]),
{
    let mut plugs: Vec<(char, char)> = Vec::new();
    let mut i: usize = 0;
    while i < coins.len()
        invariant
            i <= coins@.len(),
            plugs@ == merged_plugs(plugs1@, plugs2@, coins@.subrange(0, i as int)),
            plugs@.len() <= i,
            forall|a: int, b: int|
                0 <= a < plugs@.len() && 0 <= b < plugs@.len() && a != b ==> plugs_disjoint(
                    plugs@[a],
                    plugs@[b],
                ),
            forall|a: int|
                0 <= a < plugs@.len() ==> plugs1@.contains(#[trigger] plugs@[a]) || plugs2@.contains(
                    plugs@[a],
                ),
        decreases coins@.len() - i,
    {
        let ghost prev = plugs@;
        proof {
            assert(coins@.subrange(0, i + 1).drop_last() =~= coins@.subrange(0, i as int));
        }
        let c = coins[i];
        let mut added = false;
        if c && i < plugs1.len() && can_add_plug(plugs.as_slice(), plugs1[i]) {
            plugs.push(plugs1[i]);
            added = true;
        }
        if !c && i < plugs2.len() && can_add_plug(plugs.as_slice(), plugs2[i]) {
            plugs.push(plugs2[i]);
            added = true;
        }
        proof {
            if added {
                let p = plugs@.last();
                assert(plugs@ == prev.push(p));
                assert(plugs1@.contains(p) || plugs2@.contains(p)) by {
                    if c {
                        assert(plugs1@[i as int] == p);
                    } else {
                        assert(plugs2@[i as int] == p);
                    }
                }
                assert forall|a: int, b: int|
                    0 <= a < plugs@.len() && 0 <= b < plugs@.len() && a != b implies plugs_disjoint(
                    plugs@[a],
                    plugs@[b],
                ) by {
                    if a == prev.len() {
                        assert(plugs_disjoint(prev[b], p));
                    } else if b == prev.len() {
                        assert(plugs_disjoint(prev[a], p));
                    } else {
                        assert(plugs_disjoint(prev[a], prev[b]));
                    }
                }
                assert forall|a: int| 0 <= a < plugs@.len() implies plugs1@.contains(
                    #[trigger] plugs@[a],
                ) || plugs2@.contains(plugs@[a]) by {
                    if a < prev.len() {
                        assert(plugs@[a] == prev[a]);
                    }
                }
            }
        }
        i = i + 1;
    }
    proof {
        assert(coins@.subrange(0, i as int) =~= coins@);
    }
    plugs
}

/// Crossover of two plugboards: a fair coin for each index up to the longer
/// plugboard.
pub fn cross_plugboards(plugs1: &[(char, char)], plugs2: &[(char, char)], rng: &mut StdRng) -> (r:
    Vec<(char, char)>)
    ensures
        exists|coins: Seq<bool>|
            coins.len() == max_len(plugs1@.len(), plugs2@.len()) && r@ == merged_plugs(
                plugs1@,
                plugs2@,
                coins,
            ),
        r@.len() <= max_len(plugs1@.len(), plugs2@.len()),
        forall|i: int, j: int|
            0 <= i < r@.len() && 0 <= j < r@.len() && i != j ==> plugs_disjoint(r@[i], r@[j]),
        forall|i: int|
            0 <= i < r@.len() ==> plugs1@.contains(#[trigger] r@[i]) || plugs2@.contains(r@[i]),
{
    let n = if plugs1.len() >= plugs2.len() {
        plugs1.len()
    } else {
        plugs2.len()
    };
    let mut coins: Vec<bool> = Vec::new();
    let mut i: usize = 0;
    while i < n
        invariant
            i <= n,
            coins@.len() == i,
        decreases n - i,
    {
        coins.push(flip_coin(rng));
        i = i + 1;
    }
    merge_plugboards(plugs1, plugs2, coins.as_slice())
}

/// A crossover child of two configurations: uniform crossover of each triple
/// (the rotors drawn again until distinct) and of the plugboards.
pub fn cross_settings(sett1: &Settings, sett2: &Settings, rng: &mut StdRng) -> (r: Result<
    Settings,
    GenError,
>)
    requires
        settings_valid(sett1@),
        settings_valid(sett2@),
    ensures
        r matches Ok(s) ==> settings_valid(s@) && is_cross_of(s@, sett1@, sett2@),
        rotor_crosses_distinct(sett1.rotors, sett2.rotors) ==> r is Ok,
        r matches Err(e) ==> e == GenError::RepairExhausted,
{
    let rotors = cross_rotors(sett1.rotors, sett2.rotors, rng)?;
    let ring_settings = cross_positionally(sett1.ring_settings, sett2.ring_settings, rng);
    let rotor_positions = cross_positionally(sett1.rotor_positions, sett2.rotor_positions, rng);
    let plugboard = cross_plugboards(sett1.plugboard.as_slice(), sett2.plugboard.as_slice(), rng);
    proof {
        assert forall|i: int| 0 <= i < plugboard@.len() implies plug_well_formed(
            #[trigger] plugboard@[i],
        ) by {
            if sett1.plugboard@.contains(plugboard@[i]) {
                let k = choose|k: int| 0 <= k < sett1.plugboard@.len() && sett1.plugboard@[k] == plugboard@[i];
                assert(plug_well_formed(sett1.plugboard@[k]));
            } else {
                let k = choose|k: int| 0 <= k < sett2.plugboard@.len() && sett2.plugboard@[k] == plugboard@[i];
                assert(plug_well_formed(sett2.plugboard@[k]));
            }
        }
    }
    Ok(Settings { rotors, ring_settings, rotor_positions, plugboard })
}

/// Uniform crossover of configurations.
#[derive(Debug, Clone, Copy)]
pub struct SettingsCrossover;

impl SettingsCrossover {
    /// The operator's name.
    pub fn name() -> (r: String)
        ensures
            r@ == "Settings-Crossover"@,
    {
        String::from_str("Settings-Crossover")
    }

    /// One child per parent; each child is the crossover of two parents at
    /// distinct indices, drawn afresh for every child.
    pub fn crossover(&self, parents: &Vec<Settings>, rng: &mut StdRng) -> (r: Result<
        Vec<Settings>,
        GenError,
    >)
        requires
            forall|i: int| 0 <= i < parents@.len() ==> settings_valid(#[trigger] parents@[i]@),
        ensures
            parents@.len() < 2 <==> r == Err::<Vec<Settings>, GenError>(GenError::TooFewParents),
            r matches Ok(children) ==> children@.len() == parents@.len() && forall|k: int|
                0 <= k < children@.len() ==> settings_valid(#[trigger] children@[k]@) && bred_from(
                    children@[k]@,
                    parents@,
                ),
            parents@.len() >= 2 && parents_cross_distinct(parents@) ==> r is Ok,
            r matches Err(e) ==> e == GenError::TooFewParents || e == GenError::RepairExhausted,
    {
        let num_parents = parents.len();
        if num_parents < 2 {
            return Err(GenError::TooFewParents);
        }
        let mut offsprings: Vec<Settings> = Vec::new();
        let mut k: usize = 0;
        while k < num_parents
            invariant
                num_parents == parents@.len(),
                2 <= num_parents,
                k <= num_parents,
                offsprings@.len() == k,
                forall|i: int| 0 <= i < parents@.len() ==> settings_valid(#[trigger] parents@[i]@),
                forall|m: int|
                    0 <= m < offsprings@.len() ==> settings_valid(#[trigger] offsprings@[m]@) && bred_from(
                        offsprings@[m]@,
                        parents@,
                    ),
            decreases num_parents - k,
        {
            let i = gen_range_inclusive(rng, 0, num_parents - 1);
            let mut j = gen_range_inclusive(rng, 0, num_parents - 2);
            if j >= i {
                j = j + 1;
            }
            proof {
                if parents_cross_distinct(parents@) {
                    assert(rotor_crosses_distinct(parents@[i as int].rotors, parents@[j as int].rotors));
                }
            }
            let child = match cross_settings(&parents[i], &parents[j], rng) {
                Ok(c) => c,
                Err(e) => {
                    return Err(e);
                },
            };
            let ghost old_offsprings = offsprings@;
            offsprings.push(child);
            proof {
                assert(i != j);
                assert(is_cross_of(offsprings@[k as int]@, parents@[i as int]@, parents@[j as int]@));
                assert(bred_from(offsprings@[k as int]@, parents@));
                assert forall|m: int| 0 <= m < offsprings@.len() implies settings_valid(
                    #[trigger] offsprings@[m]@,
                ) && bred_from(offsprings@[m]@, parents@) by {
                    if m < k {
                        assert(offsprings@[m] == old_offsprings[m]);
                    }
                }
            }
            k = k + 1;
        }
        Ok(offsprings)
    }
}

/// `t` with the value at place `pos` replaced by `v`.
pub open spec fn with_value(t: (u8, u8, u8), pos: u8, v: u8) -> (u8, u8, u8) {
    if pos == 0 {
        (v, t.1, t.2)
    } else if pos == 1 {
        (t.0, v, t.2)
    } else {
        (t.0, t.1, v)
    }
}

/// `u` is `t` with at most the value at one place replaced by one in
/// `[from, to]`.
pub open spec fn one_value_changed(t: (u8, u8, u8), u: (u8, u8, u8), from: u8, to: u8) -> bool {
    exists|pos: u8, v: u8| pos < 3 && from <= v <= to && u == with_value(t, pos, v)
}

/// `q` is `p` with at most the cable at one index replaced.
pub open spec fn one_plug_changed(p: Seq<(char, char)>, q: Seq<(char, char)>) -> bool {
    q.len() == p.len() && (p.len() == 0 || exists|idx: int|
        0 <= idx < p.len() && #[trigger] q.update(idx, p[idx]) == p)
}

/// `s` is `t` with one field mutated as the mutation operator does it.
pub open spec fn one_field_mutated(t: SettingsView, s: SettingsView) -> bool {
    ||| (one_value_changed(t.rotors, s.rotors, 1, MAX_ROTOR_NUM) && s.ring_settings
        == t.ring_settings && s.rotor_positions == t.rotor_positions && s.plugboard == t.plugboard)
    ||| (s.rotors == t.rotors && one_value_changed(t.ring_settings, s.ring_settings, 1, MAX_RING_SETTINGS_NUM)
        && s.rotor_positions == t.rotor_positions && s.plugboard == t.plugboard)
    ||| (s.rotors == t.rotors && s.ring_settings == t.ring_settings && one_value_changed(
        t.rotor_positions,
        s.rotor_positions,
        1,
        MAX_ROTOR_POSITIONS_NUM,
    ) && s.plugboard == t.plugboard)
    ||| (s.rotors == t.rotors && s.ring_settings == t.ring_settings && s.rotor_positions
        == t.rotor_positions && one_plug_changed(t.plugboard, s.plugboard))
}

/// `t` with the value at place `pos` replaced by one drawn from `[from, to]`.
pub fn change_triple(t: (u8, u8, u8), pos: u8, from: u8, to: u8, rng: &mut StdRng) -> (r: (
    u8,
    u8,
    u8,
))
    requires
        pos < 3,
        from <= to,
    ensures
        exists|v: u8| from <= v <= to && r == with_value(t, pos, v),
{
    let v = gen_value(from, to, rng);
    let r = if pos == 0 {
        (v, t.1, t.2)
    } else if pos == 1 {
        (t.0, v, t.2)
    } else {
        (t.0, t.1, v)
    };
    assert(r == with_value(t, pos, v));
    r
}

/// `t` with one place, chosen at random, given a value drawn from `[from, to]`.
pub fn mutate_triple(t: (u8, u8, u8), from: u8, to: u8, rng: &mut StdRng) -> (r: (u8, u8, u8))
    requires
        from <= to,
    ensures
        one_value_changed(t, r, from, to),
{
    let pos = gen_range_inclusive(rng, 0, 2) as u8;
    change_triple(t, pos, from, to, rng)
}

/// Like `mutate_triple`, for a triple of distinct values: one place is chosen,
/// and its new value is drawn again until the three values are distinct.
pub fn mutate_triple_unique(t: (u8, u8, u8), from: u8, to: u8, rng: &mut StdRng) -> (r: Result<
    (u8, u8, u8),
    GenError,
>)
    requires
        from <= to,
    ensures
        r matches Ok(u) ==> triple_distinct(u) && one_value_changed(t, u, from, to),
        r matches Err(e) ==> e == GenError::RepairExhausted,
{
    let pos = gen_range_inclusive(rng, 0, 2) as u8;
    let mut attempt: usize = 0;
    while attempt < MAX_REPAIR_ATTEMPTS
        invariant
            pos < 3,
            from <= to,
        decreases MAX_REPAIR_ATTEMPTS - attempt,
    {
        let next = change_triple(t, pos, from, to, rng);
        if is_triple_unique(next) {
            return Ok(next);
        }
        attempt = attempt + 1;
    }
    Err(GenError::RepairExhausted)
}

/// Mutation of a rotor choice.
pub fn mutate_rotors(rotors: (u8, u8, u8), rng: &mut StdRng) -> (r: Result<(u8, u8, u8), GenError>)
    ensures
        r matches Ok(u) ==> triple_distinct(u) && one_value_changed(rotors, u, 1, MAX_ROTOR_NUM),
        r matches Err(e) ==> e == GenError::RepairExhausted,
{
    mutate_triple_unique(rotors, 1, MAX_ROTOR_NUM, rng)
}

/// Mutation of the ring settings.
pub fn mutate_ring_settings(sett: (u8, u8, u8), rng: &mut StdRng) -> (r: (u8, u8, u8))
    ensures
        one_value_changed(sett, r, 1, MAX_RING_SETTINGS_NUM),
{
    mutate_triple(sett, 1, MAX_RING_SETTINGS_NUM, rng)
}

/// Mutation of the starting positions.
pub fn mutate_rotor_positions(pos: (u8, u8, u8), rng: &mut StdRng) -> (r: (u8, u8, u8))
    ensures
        one_value_changed(pos, r, 1, MAX_ROTOR_POSITIONS_NUM),
{
    mutate_triple(pos, 1, MAX_ROTOR_POSITIONS_NUM, rng)
}

/// Whether `next` shares no letter with any cable of `plugs` but the one at
/// `skip`.
pub fn can_replace_plug(plugs: &[(char, char)], skip: usize, next: (char, char)) -> (r: bool)
    ensures
        r == forall|i: int|
            0 <= i < plugs@.len() && i != skip ==> plugs_disjoint(#[trigger] plugs@[i], next),
{
    let mut k: usize = 0;
    while k < plugs.len()
        invariant
            k <= plugs@.len(),
            forall|i: int| 0 <= i < k && i != skip ==> plugs_disjoint(#[trigger] plugs@[i], next),
        decreases plugs@.len() - k,
    {
        if k != skip {
            let p = plugs[k];
            if !(p.0 != next.0 && p.1 != next.0 && p.0 != next.1 && p.1 != next.1) {
                assert(!plugs_disjoint(plugs@[k as int], next));
                return false;
            }
        }
        k = k + 1;
    }
    true
}

/// Mutation of a plugboard: one cable, chosen at random, is replaced by one
/// drawn from the universe until it shares no letter with the other cables.
/// An empty plugboard stays empty.
pub fn mutate_plugboard(plugs: &[(char, char)], rng: &mut StdRng) -> (r: Result<
    Vec<(char, char)>,
    GenError,
>)
    requires
        plugboard_valid(plugs@),
    ensures
        r matches Ok(p) ==> plugboard_valid(p@) && one_plug_changed(plugs@, p@),
        plugs@.len() == 0 ==> (r matches Ok(p) && p@.len() == 0),
        r matches Err(e) ==> e == GenError::RepairExhausted,
{
    let mut mutated = crate::enigma::copy_plugs(plugs);
    if plugs.len() == 0 {
        return Ok(mutated);
    }
    let universe = plug_universe();
    let idx = gen_range_inclusive(rng, 0, plugs.len() - 1);
    let mut attempt: usize = 0;
    while attempt < MAX_REPAIR_ATTEMPTS
        invariant
            mutated@ == plugs@,
            plugboard_valid(plugs@),
            idx < plugs@.len(),
            universe@.len() == 325,
            forall|m: int| 0 <= m < universe@.len() ==> plug_well_formed(#[trigger] universe@[m]),
        decreases MAX_REPAIR_ATTEMPTS - attempt,
    {
        let next = choose_plug(rng, universe.as_slice());
        if can_replace_plug(mutated.as_slice(), idx, next) {
            mutated.set(idx, next);
            proof {
                let m = mutated@;
                assert(m.update(idx as int, plugs@[idx as int]) =~= plugs@);
                assert forall|i: int| 0 <= i < m.len() implies plug_well_formed(#[trigger] m[i]) by {
                    if i != idx {
                        assert(m[i] == plugs@[i]);
                    }
                }
                assert forall|i: int, j: int|
                    0 <= i < m.len() && 0 <= j < m.len() && i != j implies plugs_disjoint(
                    m[i],
                    m[j],
                ) by {
                    if i == idx {
                        assert(plugs_disjoint(plugs@[j], next));
                    } else if j == idx {
                        assert(plugs_disjoint(plugs@[i], next));
                    } else {
                        assert(plugs_disjoint(plugs@[i], plugs@[j]));
                    }
                }
            }
            return Ok(mutated);
        }
        attempt = attempt + 1;
    }
    Err(GenError::RepairExhausted)
}

/// Mutation of configurations: one of the four fields, chosen at random, is
/// mutated and the others are kept.
#[derive(Debug, Clone, Copy)]
pub struct SettingsMutator;

impl SettingsMutator {
    /// The operator's name.
    pub fn name() -> (r: String)
        ensures
            r@ == "Settings-Mutator"@,
    {
        String::from_str("Settings-Mutator")
    }

    /// `sett` with one field mutated.
    pub fn mutate(&self, sett: Settings, rng: &mut StdRng) -> (r: Result<Settings, GenError>)
        requires
            settings_valid(sett@),
        ensures
            r matches Ok(s) ==> settings_valid(s@) && one_field_mutated(sett@, s@),
            r matches Err(e) ==> e == GenError::RepairExhausted,
    {
        let field = gen_range_inclusive(rng, 0, 3);
        self.mutate_field(sett, field, rng)
    }

    /// `sett` with the field numbered `field` mutated: 0 the rotors, 1 the
    /// ring settings, 2 the starting positions, 3 the plugboard.
    pub fn mutate_field(&self, sett: Settings, field: usize, rng: &mut StdRng) -> (r: Result<
        Settings,
        GenError,
    >)
        requires
            settings_valid(sett@),
            field <= 3,
        ensures
            r matches Ok(s) ==> settings_valid(s@) && one_field_mutated(sett@, s@),
            field == 0 ==> (r matches Ok(s) ==> s.ring_settings == sett.ring_settings
                && s.rotor_positions == sett.rotor_positions && s.plugboard@ == sett.plugboard@
                && one_value_changed(sett.rotors, s.rotors, 1, MAX_ROTOR_NUM)),
            field == 1 ==> (r matches Ok(s) && s.rotors == sett.rotors && one_value_changed(
                sett.ring_settings,
                s.ring_settings,
                1,
                MAX_RING_SETTINGS_NUM,
            ) && s.rotor_positions == sett.rotor_positions && s.plugboard@ == sett.plugboard@),
            field == 2 ==> (r matches Ok(s) && s.rotors == sett.rotors && s.ring_settings
                == sett.ring_settings && one_value_changed(
                sett.rotor_positions,
                s.rotor_positions,
                1,
                MAX_ROTOR_POSITIONS_NUM,
            ) && s.plugboard@ == sett.plugboard@),
            field == 3 ==> (r matches Ok(s) ==> s.rotors == sett.rotors && s.ring_settings
                == sett.ring_settings && s.rotor_positions == sett.rotor_positions
                && one_plug_changed(sett.plugboard@, s.plugboard@)),
            field == 3 && sett.plugboard@.len() == 0 ==> (r matches Ok(s) && s@ == sett@),
            r matches Err(e) ==> e == GenError::RepairExhausted,
    {
        let mut mutated = sett.clone();
        if field == 0 {
            mutated.rotors = mutate_rotors(sett.rotors, rng)?;
            let ghost u = mutated.rotors;
            assert(triple_in_range(u, 1, MAX_ROTOR_NUM));
        } else if field == 1 {
            mutated.ring_settings = mutate_ring_settings(sett.ring_settings, rng);
        } else if field == 2 {
            mutated.rotor_positions = mutate_rotor_positions(sett.rotor_positions, rng);
        } else {
            mutated.plugboard = mutate_plugboard(sett.plugboard.as_slice(), rng)?;
            proof {
                if sett.plugboard@.len() == 0 {
                    assert(mutated.plugboard@ =~= sett.plugboard@);
                }
            }
        }
        Ok(mutated)
    }
}

} // verus!
