//! Enemy kinds, wave modifiers and the integer side of wave management:
//! which modifier a wave gets, which enemies it sends and in which order,
//! and the bookkeeping of a running wave.

use vstd::prelude::*;
use crate::economy::{sat_add, PlayerEconomy};
use crate::rules::spec_interest;

verus! {

/// Enemy types.
#[derive(Clone, Copy, PartialEq, Eq, Debug, Hash, Structural)]
pub enum EnemyType {
    Basic,
    Fast,
    Tank,
    Armored,  // Resistant to damage
    Flying,  // Ignores some path (takes shortcuts)
    Boss,  // Big and tough
    Splitter,  // Splits into mini-splitters on death
    MiniSplitter,  // Small fast enemy spawned from Splitter
}

impl EnemyType {
    pub open spec fn spec_reward(self) -> u32 {
        match self {
            EnemyType::Basic => 5,
            EnemyType::Fast => 8,
            EnemyType::Tank => 20,
            EnemyType::Armored => 16,
            EnemyType::Flying => 10,
            EnemyType::Boss => 120,
            EnemyType::Splitter => 12,
            EnemyType::MiniSplitter => 2,
        }
    }

    /// Declaration index of the kind, used as its statistics key.
    pub open spec fn spec_key(self) -> u8 {
        match self {
            EnemyType::Basic => 0,
            EnemyType::Fast => 1,
            EnemyType::Tank => 2,
            EnemyType::Armored => 3,
            EnemyType::Flying => 4,
            EnemyType::Boss => 5,
            EnemyType::Splitter => 6,
            EnemyType::MiniSplitter => 7,
        }
    }

    pub open spec fn spec_from_key(key: u8) -> Option<EnemyType> {
        if key == 0 {
            Some(EnemyType::Basic)
        } else if key == 1 {
            Some(EnemyType::Fast)
        } else if key == 2 {
            Some(EnemyType::Tank)
        } else if key == 3 {
            Some(EnemyType::Armored)
        } else if key == 4 {
            Some(EnemyType::Flying)
        } else if key == 5 {
            Some(EnemyType::Boss)
        } else if key == 6 {
            Some(EnemyType::Splitter)
        } else if key == 7 {
            Some(EnemyType::MiniSplitter)
        } else {
            None
        }
    }

    /// Gold paid for killing this kind.
    pub fn reward(&self) -> (r: u32)
        ensures
            r == self.spec_reward(),
            2 <= r <= 120,
    {
        match self {
            EnemyType::Basic => 5,
            EnemyType::Fast => 8,
            EnemyType::Tank => 20,
            EnemyType::Armored => 16,
            EnemyType::Flying => 10,
            EnemyType::Boss => 120,
            EnemyType::Splitter => 12,
            EnemyType::MiniSplitter => 2,
        }
    }

    /// Declaration index of the kind (0 for Basic up to 7 for MiniSplitter).
    pub fn key(&self) -> (k: u8)
        ensures
            k == self.spec_key(),
            k < 8,
    {
        match self {
            EnemyType::Basic => 0,
            EnemyType::Fast => 1,
            EnemyType::Tank => 2,
            EnemyType::Armored => 3,
            EnemyType::Flying => 4,
            EnemyType::Boss => 5,
            EnemyType::Splitter => 6,
            EnemyType::MiniSplitter => 7,
        }
    }

    /// Whether this enemy can fly (skip path sections).
    pub fn is_flying(&self) -> (b: bool)
        ensures
            b == (*self == EnemyType::Flying),
    {
        match self {
            EnemyType::Flying => true,
            _ => false,
        }
    }

    /// Whether this enemy splits into smaller enemies on death.
    pub fn is_splitter(&self) -> (b: bool)
        ensures
            b == (*self == EnemyType::Splitter),
    {
        match self {
            EnemyType::Splitter => true,
            _ => false,
        }
    }
}

/// Keys and kinds correspond one to one.
pub proof fn lemma_enemy_key_roundtrip(t: EnemyType, key: u8)
    ensures
        EnemyType::spec_from_key(t.spec_key()) == Some(t),
        EnemyType::spec_from_key(key) matches Some(u) ==> u.spec_key() == key,
        EnemyType::spec_from_key(key).is_some() <==> key < 8,
{
}

/// Wave modifiers for variety.
#[derive(Clone, Copy, PartialEq, Eq, Debug, Structural)]
pub enum WaveModifier {
    Normal,  // No modifier
    SpeedBoost,  // Enemies 50% faster
    ArmoredWave,  // All enemies +25% armor
    Swarm,  // 2x enemies, 50% HP each
    Regen,  // Enemies heal 2% HP/sec
    GoldRush,  // 2x gold, 1.5x enemy count
}

impl WaveModifier {
    pub open spec fn spec_name(self) -> Seq<char> {
        match self {
            WaveModifier::Normal => ""@,
            WaveModifier::SpeedBoost => "SPEED BOOST"@,
            WaveModifier::ArmoredWave => "ARMORED WAVE"@,
            WaveModifier::Swarm => "SWARM"@,
            WaveModifier::Regen => "REGENERATION"@,
            WaveModifier::GoldRush => "GOLD RUSH"@,
        }
    }

    pub fn name(&self) -> (s: &'static str)
        ensures
            s@ == self.spec_name(),
    {
        match self {
            WaveModifier::Normal => "",
            WaveModifier::SpeedBoost => "SPEED BOOST",
            WaveModifier::ArmoredWave => "ARMORED WAVE",
            WaveModifier::Swarm => "SWARM",
            WaveModifier::Regen => "REGENERATION",
            WaveModifier::GoldRush => "GOLD RUSH",
        }
    }
}

/// The modifier of wave `w`: from wave 6 on, every third wave cycles
/// through speed boost, swarm, armored, gold rush and regeneration.
pub open spec fn spec_wave_modifier(w: nat) -> WaveModifier {
    if w >= 6 && w % 3 == 0 {
        let r = (w / 3) % 5;
        if r == 0 {
            WaveModifier::SpeedBoost
        } else if r == 1 {
            WaveModifier::Swarm
        } else if r == 2 {
            WaveModifier::ArmoredWave
        } else if r == 3 {
            WaveModifier::GoldRush
        } else {
            WaveModifier::Regen
        }
    } else {
        WaveModifier::Normal
    }
}

/// The modifier of wave `wave_num`.
pub fn wave_modifier_for(wave_num: usize) -> (m: WaveModifier)
    ensures
        m == spec_wave_modifier(wave_num as nat),
{
    if wave_num >= 6 && wave_num % 3 == 0 {
        match (wave_num / 3) % 5 {
            0 => WaveModifier::SpeedBoost,
            1 => WaveModifier::Swarm,
            2 => WaveModifier::ArmoredWave,
            3 => WaveModifier::GoldRush,
            _ => WaveModifier::Regen,
        }
    } else {
        WaveModifier::Normal
    }
}

/// Enemy-count factor of a modifier, in tenths: swarm doubles the count,
/// gold rush adds half, the others leave it.
pub fn modifier_count_factor_tenths(modifier: WaveModifier) -> (f: u32)
    ensures
        f == (match modifier {
            WaveModifier::Swarm => 20u32,
            WaveModifier::GoldRush => 15u32,
            _ => 10u32,
        }),
{
    match modifier {
        WaveModifier::Swarm => 20,
        WaveModifier::GoldRush => 15,
        _ => 10,
    }
}

/// Whether wave `w` is a boss wave (every tenth wave).
pub open spec fn spec_is_boss_wave(w: nat) -> bool {
    w % 10 == 0 && w > 0
}

/// Share of the base count that sets the size of wave `w`, in tenths:
/// 4 for boss waves (escorts), and by `w % 5`: 12 for swarm waves (1),
/// 7 for speed waves (2), 6 for tank waves (3), 8 for mixed waves (4),
/// 5 for mini-boss waves (0).
pub open spec fn spec_wave_count_factor_tenths(w: nat) -> u32 {
    if spec_is_boss_wave(w) {
        4
    } else {
        let t = w % 5;
        if t == 1 {
            12
        } else if t == 2 {
            7
        } else if t == 3 {
            6
        } else if t == 4 {
            8
        } else {
            5
        }
    }
}

/// Share of the base count that sets the size of wave `wave_num`, in tenths.
pub fn wave_count_factor_tenths(wave_num: usize) -> (f: u32)
    ensures
        f == spec_wave_count_factor_tenths(wave_num as nat),
{
    if wave_num % 10 == 0 && wave_num > 0 {
        4
    } else {
        match wave_num % 5 {
            1 => 12,
            2 => 7,
            3 => 6,
            4 => 8,
            _ => 5,
        }
    }
}

/// `n` enemies of kind `t`.
pub open spec fn rep(t: EnemyType, n: nat) -> Seq<EnemyType> {
    Seq::new(n, |i: int| t)
}

/// `n` alternating pairs `a, b`.
pub open spec fn pairs(a: EnemyType, b: EnemyType, n: nat) -> Seq<EnemyType> {
    Seq::new(2 * n, |i: int| if i % 2 == 0 {
        a
    } else {
        b
    })
}

pub open spec fn min_nat(a: nat, b: nat) -> nat {
    if a <= b {
        a
    } else {
        b
    }
}

pub open spec fn clamp_nat(v: nat, lo: nat, hi: nat) -> nat {
    if v < lo {
        lo
    } else if v > hi {
        hi
    } else {
        v
    }
}

pub open spec fn rep_if(c: bool, t: EnemyType, n: nat) -> Seq<EnemyType> {
    if c {
        rep(t, n)
    } else {
        Seq::empty()
    }
}

/// The enemies of wave `w` before shuffling, where `count` is the wave's
/// size (the base count scaled by [`spec_wave_count_factor_tenths`]).
pub open spec fn spec_wave_roster(w: nat, count: nat) -> Seq<EnemyType> {
    if spec_is_boss_wave(w) {
        // Up to three bosses and half as many fast/basic escort pairs
        rep(EnemyType::Boss, min_nat(w / 10, 3)) + pairs(EnemyType::Fast, EnemyType::Basic, count / 2)
    } else if w % 5 == 1 {
        // Swarm wave - lots of weak enemies
        rep(EnemyType::Basic, count) + rep_if(w >= 4, EnemyType::Fast, count / 4)
    } else if w % 5 == 2 {
        // Speed wave - fast enemies, basics as filler, fliers late
        rep(EnemyType::Fast, count) + rep(EnemyType::Basic, count / 2) + rep_if(
            w >= 12,
            EnemyType::Flying,
            count / 3,
        )
    } else if w % 5 == 3 {
        // Tank wave - heavy enemies (delayed introduction)
        rep(EnemyType::Basic, count) + rep_if(w >= 8, EnemyType::Tank, count / 3) + rep_if(
            w >= 8,
            EnemyType::Splitter,
            clamp_nat(((w - 7) / 4) as nat, 1, 3),
        ) + rep_if(w >= 13, EnemyType::Armored, count / 4)
    } else if w % 5 == 4 {
        // Mixed wave - variety
        rep(EnemyType::Basic, count) + rep(EnemyType::Fast, count / 3) + rep_if(
            w >= 9,
            EnemyType::Tank,
            count / 4,
        ) + rep_if(w >= 7, EnemyType::Splitter, clamp_nat(((w - 6) / 3) as nat, 1, 5))
    } else {
        // Mini-boss wave every 5 (but not 10, 20, etc.)
        rep(EnemyType::Basic, count) + rep(EnemyType::Fast, count / 2) + rep_if(
            w >= 5,
            EnemyType::Tank,
            min_nat(w / 5, 4),
        )
    }
}

/// Swap of two positions of a sequence.
pub open spec fn seq_swap(s: Seq<EnemyType>, i: int, j: int) -> Seq<EnemyType> {
    s.update(i, s[j]).update(j, s[i])
}

/// The deterministic shuffle after its first `k` steps: step `i` swaps
/// position `i` with position `(i + 7 w) % len`.
pub open spec fn shuffle_upto(s: Seq<EnemyType>, w: nat, k: nat) -> Seq<EnemyType>
    decreases k,
{
    if k == 0 {
        s
    } else {
        let prev = shuffle_upto(s, w, (k - 1) as nat);
        seq_swap(prev, k - 1, ((k - 1) + 7 * w) % (s.len() as int))
    }
}

/// The deterministic shuffle of a wave's enemies.
pub open spec fn spec_shuffle(s: Seq<EnemyType>, w: nat) -> Seq<EnemyType> {
    shuffle_upto(s, w, s.len())
}

/// The enemies of wave `w` in spawn-list order.
pub open spec fn spec_wave_enemies(w: nat, count: nat) -> Seq<EnemyType> {
    spec_shuffle(spec_wave_roster(w, count), w)
}

fn push_n(v: &mut Vec<EnemyType>, t: EnemyType, n: usize)
    ensures
        final(v)@ == old(v)@ + rep(t, n as nat),
{
    let ghost start = v@;
    let mut i: usize = 0;
    while i < n
        invariant
            i <= n,
            v@ == start + rep(t, i as nat),
        decreases n - i,
    {
        v.push(t);
        i += 1;
        proof {
            assert(v@ =~= start + rep(t, i as nat));
        }
    }
}

fn push_pairs(v: &mut Vec<EnemyType>, a: EnemyType, b: EnemyType, n: usize)
    ensures
        final(v)@ == old(v)@ + pairs(a, b, n as nat),
{
    let ghost start = v@;
    let mut i: usize = 0;
    while i < n
        invariant
            i <= n,
            v@ == start + pairs(a, b, i as nat),
        decreases n - i,
    {
        v.push(a);
        v.push(b);
        i += 1;
        proof {
            assert(v@ =~= start + pairs(a, b, i as nat)) by {
                assert forall|k: int| 0 <= k < 2 * i implies #[trigger] pairs(a, b, i as nat)[k]
                    == (if k % 2 == 0 {
                    a
                } else {
                    b
                }) by {}
            }
        }
    }
}

/// The enemies of wave `wave_num` before shuffling, where `count` is the
/// wave's size.
pub fn wave_roster(wave_num: usize, count: usize) -> (enemies: Vec<EnemyType>)
    ensures
        enemies@ == spec_wave_roster(wave_num as nat, count as nat),
{
    let mut enemies: Vec<EnemyType> = Vec::new();
    let ghost w = wave_num as nat;
    if wave_num % 10 == 0 && wave_num > 0 {
        let boss_count = if wave_num / 10 < 3 {
            wave_num / 10
        } else {
            3
        };
        push_n(&mut enemies, EnemyType::Boss, boss_count);
        push_pairs(&mut enemies, EnemyType::Fast, EnemyType::Basic, count / 2);
    } else if wave_num % 5 == 1 {
        push_n(&mut enemies, EnemyType::Basic, count);
        if wave_num >= 4 {
            push_n(&mut enemies, EnemyType::Fast, count / 4);
        } else {
            assert(enemies@ =~= enemies@ + rep_if(false, EnemyType::Fast, (count / 4) as nat));
        }
    } else if wave_num % 5 == 2 {
        push_n(&mut enemies, EnemyType::Fast, count);
        push_n(&mut enemies, EnemyType::Basic, count / 2);
        if wave_num >= 12 {
            push_n(&mut enemies, EnemyType::Flying, count / 3);
        } else {
            assert(enemies@ =~= enemies@ + rep_if(false, EnemyType::Flying, (count / 3) as nat));
        }
    } else if wave_num % 5 == 3 {
        push_n(&mut enemies, EnemyType::Basic, count);
        if wave_num >= 8 {
            push_n(&mut enemies, EnemyType::Tank, count / 3);
            let raw = (wave_num - 7) / 4;
            let splitter_count = if raw < 1 {
                1
            } else if raw > 3 {
                3
            } else {
                raw
            };
            push_n(&mut enemies, EnemyType::Splitter, splitter_count);
        } else {
            assert(enemies@ =~= enemies@ + rep_if(false, EnemyType::Tank, (count / 3) as nat)
                + rep_if(false, EnemyType::Splitter, 0));
        }
        if wave_num >= 13 {
            push_n(&mut enemies, EnemyType::Armored, count / 4);
        } else {
            assert(enemies@ =~= enemies@ + rep_if(false, EnemyType::Armored, (count / 4) as nat));
        }
    } else if wave_num % 5 == 4 {
        push_n(&mut enemies, EnemyType::Basic, count);
        push_n(&mut enemies, EnemyType::Fast, count / 3);
        if wave_num >= 9 {
            push_n(&mut enemies, EnemyType::Tank, count / 4);
        } else {
            assert(enemies@ =~= enemies@ + rep_if(false, EnemyType::Tank, (count / 4) as nat));
        }
        if wave_num >= 7 {
            let raw = (wave_num - 6) / 3;
            let splitter_count = if raw < 1 {
                1
            } else if raw > 5 {
                5
            } else {
                raw
            };
            push_n(&mut enemies, EnemyType::Splitter, splitter_count);
        } else {
            assert(enemies@ =~= enemies@ + rep_if(false, EnemyType::Splitter, 0));
        }
    } else {
        push_n(&mut enemies, EnemyType::Basic, count);
        push_n(&mut enemies, EnemyType::Fast, count / 2);
        if wave_num >= 5 {
            let tank_count = if wave_num / 5 < 4 {
                wave_num / 5
            } else {
                4
            };
            push_n(&mut enemies, EnemyType::Tank, tank_count);
        } else {
            assert(enemies@ =~= enemies@ + rep_if(false, EnemyType::Tank, 0));
        }
    }
    enemies
}


proof fn lemma_swap_multiset(s: Seq<EnemyType>, i: int, j: int)
    requires
        0 <= i < s.len(),
        0 <= j < s.len(),
    ensures
        seq_swap(s, i, j).to_multiset() == s.to_multiset(),
        seq_swap(s, i, j).len() == s.len(),
{
    broadcast use vstd::seq_lib::to_multiset_update;
    broadcast use vstd::multiset::group_multiset_axioms;
    broadcast use vstd::seq_lib::group_to_multiset_ensures;

    let s1 = s.update(i, s[j]);
    assert(s1[j] == s[j]);
    let m = s.to_multiset();
    assert(s1.to_multiset() == m.insert(s[j]).remove(s[i]));
    assert(seq_swap(s, i, j).to_multiset() == s1.to_multiset().insert(s[i]).remove(s[j]));
    assert(m.count(s[i]) > 0) by {
        assert(s.contains(s[i]));
    }
    assert(m.insert(s[j]).remove(s[i]).insert(s[i]).remove(s[j]) =~= m);
}

/// Shuffle the enemies of wave `wave_num` for variety (deterministic: step
/// `i` swaps position `i` with position `(i + 7 * wave_num) % len`).
pub fn shuffle_enemies(enemies: &mut Vec<EnemyType>, wave_num: usize)
    ensures
        final(enemies)@ == spec_shuffle(old(enemies)@, wave_num as nat),
        final(enemies)@.to_multiset() == old(enemies)@.to_multiset(),
        final(enemies)@.len() == old(enemies)@.len(),
{
    let ghost s0 = enemies@;
    let len = enemies.len();
    if len == 0 {
        return;
    }
    let offset: u128 = (wave_num as u128 * 7) % (len as u128);
    let mut i: usize = 0;
    while i < len
        invariant
            0 < len == s0.len(),
            i <= len,
            offset == (7 * wave_num) % (len as int),
            enemies@ == shuffle_upto(s0, wave_num as nat, i as nat),
            enemies@.len() == len,
            enemies@.to_multiset() == s0.to_multiset(),
        decreases len - i,
    {
        let swap_idx = ((i as u128 + offset) % (len as u128)) as usize;
        proof {
            vstd::arithmetic::div_mod::lemma_add_mod_noop_right(
                i as int,
                7 * wave_num as int,
                len as int,
            );
            assert(swap_idx == (i + 7 * wave_num) % (len as int));
            lemma_swap_multiset(enemies@, i as int, swap_idx as int);
        }
        let a = enemies[i];
        let b = enemies[swap_idx];
        enemies.set(i, b);
        enemies.set(swap_idx, a);
        i += 1;
    }
}

/// The enemies of wave `wave_num` in spawn-list order, where `count` is the
/// wave's size: the roster, shuffled.
pub fn generate_wave_enemies(wave_num: usize, count: usize) -> (enemies: Vec<EnemyType>)
    ensures
        enemies@ == spec_wave_enemies(wave_num as nat, count as nat),
        enemies@.to_multiset() == spec_wave_roster(wave_num as nat, count as nat).to_multiset(),
{
    let mut enemies = wave_roster(wave_num, count);
    shuffle_enemies(&mut enemies, wave_num);
    enemies
}

/// Number of occurrences of `t` in `s`.
pub open spec fn count_of(s: Seq<EnemyType>, t: EnemyType) -> nat
    decreases s.len(),
{
    if s.len() == 0 {
        0
    } else {
        count_of(s.drop_last(), t) + (if s.last() == t {
            1nat
        } else {
            0nat
        })
    }
}

fn count_kind(s: &Vec<EnemyType>, t: EnemyType) -> (n: usize)
    ensures
        n == count_of(s@, t),
{
    let mut n: usize = 0;
    let mut i: usize = 0;
    while i < s.len()
        invariant
            i <= s@.len(),
            n <= i,
            n == count_of(s@.subrange(0, i as int), t),
        decreases s.len() - i,
    {
        proof {
            let sub = s@.subrange(0, i as int + 1);
            assert(sub.drop_last() =~= s@.subrange(0, i as int));
        }
        if s[i] == t {
            n += 1;
        }
        i += 1;
    }
    proof {
        assert(s@.subrange(0, s@.len() as int) =~= s@);
    }
    n
}

/// Preview data for the next wave: how many enemies of each kind it sends,
/// and its modifier.
pub struct WavePreview {
    pub counts: Vec<(EnemyType, usize)>,
    pub modifier: WaveModifier,
}

/// `counts` lists exactly the kinds present in `s`, in key order, each with
/// its number of occurrences.
pub open spec fn counts_describe(counts: Seq<(EnemyType, usize)>, s: Seq<EnemyType>) -> bool {
    &&& forall|k: int|
        0 <= k < counts.len() ==> (#[trigger] counts[k]).1 == count_of(s, counts[k].0)
            && counts[k].1 > 0
    &&& forall|k: int, l: int|
        0 <= k < l < counts.len() ==> (#[trigger] counts[k]).0.spec_key()
            < (#[trigger] counts[l]).0.spec_key()
    &&& forall|t: EnemyType|
        count_of(s, t) > 0 ==> exists|k: int| 0 <= k < counts.len() && (#[trigger] counts[k]).0 == t
}

/// The number a preview's counts give for kind `t` (zero where it is not
/// listed).
pub open spec fn preview_count(counts: Seq<(EnemyType, usize)>, t: EnemyType) -> nat
    decreases counts.len(),
{
    if counts.len() == 0 {
        0
    } else if counts.last().0 == t {
        counts.last().1 as nat
    } else {
        preview_count(counts.drop_last(), t)
    }
}

proof fn lemma_preview_count_at(counts: Seq<(EnemyType, usize)>, t: EnemyType)
    requires
        forall|k: int, l: int|
            0 <= k < l < counts.len() ==> (#[trigger] counts[k]).0 != (#[trigger] counts[l]).0,
    ensures
        forall|k: int| 0 <= k < counts.len() && (#[trigger] counts[k]).0 == t ==> preview_count(counts, t) == counts[k].1,
        (forall|k: int| 0 <= k < counts.len() ==> (#[trigger] counts[k]).0 != t) ==> preview_count(counts, t) == 0,
    decreases counts.len(),
{
    if counts.len() > 0 {
        let rest = counts.drop_last();
        assert forall|k: int, l: int| 0 <= k < l < rest.len() implies (#[trigger] rest[k]).0 != (#[trigger] rest[l]).0 by {
            assert(rest[k] == counts[k] && rest[l] == counts[l]);
        }
        lemma_preview_count_at(rest, t);
        assert forall|k: int| 0 <= k < counts.len() && (#[trigger] counts[k]).0 == t implies preview_count(counts, t) == counts[k].1 by {
            if k < counts.len() - 1 {
                assert(rest[k] == counts[k]);
                assert(counts[k].0 != counts[counts.len() - 1].0);
            }
        }
        if forall|k: int| 0 <= k < counts.len() ==> (#[trigger] counts[k]).0 != t {
            assert(counts[counts.len() - 1].0 != t);
            assert forall|k: int| 0 <= k < rest.len() implies (#[trigger] rest[k]).0 != t by {
                assert(rest[k] == counts[k]);
            }
        }
    }
}

/// Starting a wave sends what its preview announced: for every kind, the
/// wave's spawn list holds exactly as many enemies of it as counts that
/// describe the list give (none for a kind they leave out).
pub proof fn lemma_start_matches_preview(wave: nat, enemy_count: nat, counts: Seq<(EnemyType, usize)>, t: EnemyType)
    requires
        counts_describe(counts, spec_wave_enemies(wave, enemy_count)),
    ensures
        count_of(spec_wave_enemies(wave, enemy_count), t) == preview_count(counts, t),
{
    let s = spec_wave_enemies(wave, enemy_count);
    assert forall|k: int, l: int| 0 <= k < l < counts.len() implies (#[trigger] counts[k]).0 != (#[trigger] counts[l]).0 by {
        assert(counts[k].0.spec_key() < counts[l].0.spec_key());
    }
    lemma_preview_count_at(counts, t);
    if count_of(s, t) > 0 {
        let k = choose|k: int| 0 <= k < counts.len() && (#[trigger] counts[k]).0 == t;
        assert(counts[k].1 == count_of(s, counts[k].0));
    } else {
        assert forall|k: int| 0 <= k < counts.len() implies (#[trigger] counts[k]).0 != t by {
            assert(counts[k].1 == count_of(s, counts[k].0) && counts[k].1 > 0);
        }
    }
}

/// Aggregate counts per enemy kind, in key order, leaving out absent kinds.
pub fn count_by_kind(enemies: &Vec<EnemyType>) -> (counts: Vec<(EnemyType, usize)>)
    ensures
        counts_describe(counts@, enemies@),
{
    let mut counts: Vec<(EnemyType, usize)> = Vec::with_capacity(8);
    let mut key: u8 = 0;
    while key < 8
        invariant
            key <= 8,
            forall|k: int|
                0 <= k < counts@.len() ==> (#[trigger] counts@[k]).1 == count_of(
                    enemies@,
                    counts@[k].0,
                ) && counts@[k].1 > 0 && counts@[k].0.spec_key() < key,
            forall|k: int, l: int|
                0 <= k < l < counts@.len() ==> (#[trigger] counts@[k]).0.spec_key()
                    < (#[trigger] counts@[l]).0.spec_key(),
            forall|t: EnemyType|
                t.spec_key() < key && count_of(enemies@, t) > 0 ==> exists|k: int|
                    0 <= k < counts@.len() && (#[trigger] counts@[k]).0 == t,
        decreases 8 - key,
    {
        let t = match key {
            0 => EnemyType::Basic,
            1 => EnemyType::Fast,
            2 => EnemyType::Tank,
            3 => EnemyType::Armored,
            4 => EnemyType::Flying,
            5 => EnemyType::Boss,
            6 => EnemyType::Splitter,
            _ => EnemyType::MiniSplitter,
        };
        assert(t.spec_key() == key);
        let n = count_kind(enemies, t);
        if n > 0 {
            let ghost before = counts@;
            counts.push((t, n));
            proof {
                assert forall|u: EnemyType|
                    u.spec_key() < key + 1 && count_of(enemies@, u) > 0 implies exists|k: int|
                    0 <= k < counts@.len() && (#[trigger] counts@[k]).0 == u by {
                    if u.spec_key() == key {
                        assert(u == t);
                        assert(counts@[counts@.len() - 1].0 == u);
                    } else {
                        let k = choose|k: int| 0 <= k < before.len() && (#[trigger] before[k]).0 == u;
                        assert(counts@[k] == before[k]);
                    }
                }
            }
        } else {
            proof {
                assert forall|u: EnemyType|
                    u.spec_key() < key + 1 && count_of(enemies@, u) > 0 implies exists|k: int|
                    0 <= k < counts@.len() && (#[trigger] counts@[k]).0 == u by {
                    if u.spec_key() == key {
                        assert(u == t);
                    }
                }
            }
        }
        key += 1;
    }
    proof {
        assert forall|t: EnemyType| count_of(enemies@, t) > 0 implies exists|k: int|
            0 <= k < counts@.len() && (#[trigger] counts@[k]).0 == t by {
            assert(t.spec_key() < 8);
        }
    }
    counts
}


/// Integer square root: the largest `r` with `r * r <= n`.
pub open spec fn spec_isqrt(n: nat) -> nat
    decreases n,
{
    if n == 0 {
        0
    } else {
        let r = spec_isqrt((n - 1) as nat);
        if (r + 1) * (r + 1) <= n {
            r + 1
        } else {
            r
        }
    }
}

proof fn lemma_isqrt_bounds(n: nat)
    ensures
        spec_isqrt(n) * spec_isqrt(n) <= n < (spec_isqrt(n) + 1) * (spec_isqrt(n) + 1),
    decreases n,
{
    if n > 0 {
        lemma_isqrt_bounds((n - 1) as nat);
        let r = spec_isqrt((n - 1) as nat);
        assert(n <= (r + 1) * (r + 1));
        assert((r + 1) * (r + 1) < (r + 2) * (r + 2)) by (nonlinear_arith);
        let q = spec_isqrt(n);
        if (r + 1) * (r + 1) <= n {
            assert(q == r + 1);
            assert(q * q <= n);
            assert((q + 1) * (q + 1) == (r + 2) * (r + 2));
            assert(n < (q + 1) * (q + 1));
        } else {
            assert(q == r);
            assert(q * q <= n);
            assert(n < (q + 1) * (q + 1));
        }
    } else {
        assert(n == 0);
        assert(spec_isqrt(n) == 0);
        let q = spec_isqrt(n);
        assert(q * q == 0 && (q + 1) * (q + 1) == 1) by (nonlinear_arith)
            requires
                q == 0,
        ;
    }
}

proof fn lemma_isqrt_unique(n: nat, r: nat)
    requires
        r * r <= n < (r + 1) * (r + 1),
    ensures
        r == spec_isqrt(n),
{
    lemma_isqrt_bounds(n);
    let q = spec_isqrt(n);
    if r < q {
        assert((r + 1) * (r + 1) <= q * q) by (nonlinear_arith)
            requires
                r + 1 <= q,
        ;
    } else if q < r {
        assert((q + 1) * (q + 1) <= r * r) by (nonlinear_arith)
            requires
                q + 1 <= r,
        ;
    }
}

/// Integer square root of `n`.
pub fn isqrt(n: u64) -> (r: u64)
    ensures
        r == spec_isqrt(n as nat),
{
    let mut lo: u64 = 0;
    let mut hi: u64 = 0x1_0000_0000;
    assert(n < 0x1_0000_0000 * 0x1_0000_0000);
    while hi - lo > 1
        invariant
            lo < hi <= 0x1_0000_0000,
            lo * lo <= n,
            n < hi * hi,
        decreases hi - lo,
    {
        let mid = lo + (hi - lo) / 2;
        assert(mid * mid <= 0xffff_ffff * 0xffff_ffff) by (nonlinear_arith)
            requires
                mid < 0x1_0000_0000,
        ;
        if mid * mid <= n {
            lo = mid;
        } else {
            hi = mid;
        }
    }
    proof {
        lemma_isqrt_unique(n as nat, lo as nat);
    }
    lo
}

/// Wave completion bonus before the perfect-wave boost:
/// `12 + 3 w + floor(4 sqrt(w))`.
pub open spec fn spec_base_wave_bonus(w: nat) -> nat {
    12 + 3 * w + spec_isqrt(16 * w)
}

/// Wave completion bonus: a perfect wave (no leaks) pays 40% more, rounded
/// down and saturated at `u32::MAX`.
pub open spec fn spec_wave_bonus(w: nat, perfect: bool) -> nat {
    let base = spec_base_wave_bonus(w);
    if perfect {
        if base * 14 / 10 > u32::MAX {
            u32::MAX as nat
        } else {
            base * 14 / 10
        }
    } else {
        base
    }
}

/// Whether the bonus of wave `wave` before the perfect-wave boost fits in a
/// `u32`, as [`WaveManager::wave_bonus`] and [`WaveManager::complete_wave`]
/// need.
pub fn base_wave_bonus_fits(wave: usize) -> (b: bool)
    ensures
        b == (spec_base_wave_bonus(wave as nat) <= u32::MAX),
{
    let w = wave as u64;
    if w > 0x1_0000_0000 {
        return false;
    }
    let root = isqrt(16 * w);
    proof {
        lemma_isqrt_bounds((16 * w) as nat);
        assert(root * root <= 16 * w);
        if root > 0x4_0000 {
            assert(root * root > 0x4_0000 * 0x4_0000) by (nonlinear_arith)
                requires
                    root > 0x4_0000,
            ;
        }
    }
    12 + 3 * w + root <= 0xffff_ffff
}

/// Wave manager - infinite scaling survival mode. Spawn timing, the health
/// multiplier and the completion time are kept by the caller.
pub struct WaveManager {
    pub current_wave: usize,
    pub enemies_to_spawn: Vec<EnemyType>,
    pub wave_active: bool,
    pub enemies_alive: u32,
    pub perfect_wave: bool,  // No enemies escaped this wave
    pub last_interest: u32,  // Interest earned last wave (for UI)
    pub last_bonus: u32,  // Bonus earned last wave (for UI)
    pub current_modifier: WaveModifier,  // Active wave modifier
}

impl WaveManager {
    /// Before the first wave.
    pub fn new() -> (m: Self)
        ensures
            m.current_wave == 0,
            m.enemies_to_spawn@.len() == 0,
            !m.wave_active,
            m.enemies_alive == 0,
            m.perfect_wave,
            m.last_interest == 0,
            m.last_bonus == 0,
            m.current_modifier == WaveModifier::Normal,
    {
        WaveManager {
            current_wave: 0,
            enemies_to_spawn: Vec::new(),
            wave_active: false,
            enemies_alive: 0,
            perfect_wave: true,
            last_interest: 0,
            last_bonus: 0,
            current_modifier: WaveModifier::Normal,
        }
    }

    /// Generate and start the next wave, whose size is `enemy_count`.
    pub fn start_wave(&mut self, enemy_count: usize)
        requires
            old(self).current_wave < usize::MAX,
        ensures
            final(self).current_modifier == spec_wave_modifier((old(self).current_wave + 1) as nat),
            final(self).enemies_to_spawn@ == spec_wave_enemies(
                (old(self).current_wave + 1) as nat,
                enemy_count as nat,
            ),
            final(self).wave_active,
            final(self).perfect_wave,
            final(self).current_wave == old(self).current_wave,
            final(self).enemies_alive == old(self).enemies_alive,
            final(self).last_interest == old(self).last_interest,
            final(self).last_bonus == old(self).last_bonus,
    {
        let wave_num = self.current_wave + 1;
        self.current_modifier = wave_modifier_for(wave_num);
        self.enemies_to_spawn = generate_wave_enemies(wave_num, enemy_count);
        self.wave_active = true;
        self.perfect_wave = true;
    }

    /// Preview the next wave composition (without starting it), whose size
    /// is `enemy_count`.
    pub fn preview_next_wave(&self, enemy_count: usize) -> (p: WavePreview)
        requires
            self.current_wave < usize::MAX,
        ensures
            p.modifier == spec_wave_modifier((self.current_wave + 1) as nat),
            counts_describe(
                p.counts@,
                spec_wave_enemies((self.current_wave + 1) as nat, enemy_count as nat),
            ),
    {
        let wave_num = self.current_wave + 1;
        let modifier = wave_modifier_for(wave_num);
        let enemies = generate_wave_enemies(wave_num, enemy_count);
        WavePreview { counts: count_by_kind(&enemies), modifier }
    }

    /// Calculate the wave completion bonus for the current wave.
    pub fn wave_bonus(&self) -> (bonus: u32)
        requires
            spec_base_wave_bonus(self.current_wave as nat) <= u32::MAX,
        ensures
            bonus == spec_wave_bonus(self.current_wave as nat, self.perfect_wave),
    {
        let wave = self.current_wave as u64;
        let root = isqrt(16 * wave);
        let base_bonus: u64 = 12 + 3 * wave + root;
        if self.perfect_wave {
            let boosted = base_bonus * 14 / 10;  // 40% bonus for no leaks
            if boosted > 0xffff_ffff {
                u32::MAX
            } else {
                boosted as u32
            }
        } else {
            base_bonus as u32
        }
    }

    /// Take the next enemy to spawn (the last of the spawn list).
    pub fn next_spawn(&mut self) -> (e: Option<EnemyType>)
        ensures
            old(self).enemies_to_spawn@.len() == 0 ==> e.is_none()
                && final(self).enemies_to_spawn@ == old(self).enemies_to_spawn@,
            old(self).enemies_to_spawn@.len() > 0 ==> e == Some(old(self).enemies_to_spawn@.last())
                && final(self).enemies_to_spawn@ == old(self).enemies_to_spawn@.drop_last(),
            final(self).current_wave == old(self).current_wave,
            final(self).wave_active == old(self).wave_active,
            final(self).enemies_alive == old(self).enemies_alive,
            final(self).perfect_wave == old(self).perfect_wave,
            final(self).current_modifier == old(self).current_modifier,
    {
        self.enemies_to_spawn.pop()
    }

    /// `n` enemies entered the field.
    pub fn enemies_spawned(&mut self, n: u32)
        requires
            old(self).enemies_alive + n <= u32::MAX,
        ensures
            final(self).enemies_alive == old(self).enemies_alive + n,
            final(self).current_wave == old(self).current_wave,
            final(self).enemies_to_spawn@ == old(self).enemies_to_spawn@,
            final(self).wave_active == old(self).wave_active,
            final(self).perfect_wave == old(self).perfect_wave,
    {
        self.enemies_alive = self.enemies_alive + n;
    }

    /// An enemy was killed.
    pub fn enemy_killed(&mut self)
        ensures
            final(self).enemies_alive == (if old(self).enemies_alive == 0 {
                0
            } else {
                old(self).enemies_alive - 1
            }),
            final(self).perfect_wave == old(self).perfect_wave,
            final(self).current_wave == old(self).current_wave,
            final(self).enemies_to_spawn@ == old(self).enemies_to_spawn@,
            final(self).wave_active == old(self).wave_active,
    {
        self.enemies_alive = self.enemies_alive.saturating_sub(1);
    }

    /// An enemy reached the exit: the wave is no longer perfect.
    pub fn enemy_escaped(&mut self)
        ensures
            final(self).enemies_alive == (if old(self).enemies_alive == 0 {
                0
            } else {
                old(self).enemies_alive - 1
            }),
            !final(self).perfect_wave,
            final(self).current_wave == old(self).current_wave,
            final(self).enemies_to_spawn@ == old(self).enemies_to_spawn@,
            final(self).wave_active == old(self).wave_active,
    {
        self.enemies_alive = self.enemies_alive.saturating_sub(1);
        self.perfect_wave = false;
    }

    /// When the active wave has spawned everything and nothing is alive, the
    /// wave is complete: interest on the current gold is paid first, then
    /// the wave bonus (which also scores), both saturating; the wave counter
    /// advances. Returns `(bonus, interest)`; otherwise nothing changes.
    pub fn complete_wave(&mut self, economy: &mut PlayerEconomy) -> (paid: Option<(u32, u32)>)
        requires
            old(self).current_wave < usize::MAX,
            spec_base_wave_bonus(old(self).current_wave as nat) <= u32::MAX,
        ensures
            paid.is_some() == (old(self).wave_active && old(self).enemies_to_spawn@.len() == 0
                && old(self).enemies_alive == 0),
            paid.is_none() ==> *final(economy) == *old(economy) && final(self).current_wave
                == old(self).current_wave && final(self).wave_active == old(self).wave_active
                && final(self).last_bonus == old(self).last_bonus && final(self).last_interest
                == old(self).last_interest,
            paid matches Some((bonus, interest)) ==> {
                let i = spec_interest(
                    old(economy).gold as nat,
                    old(economy).interest_rate_percent as nat,
                );
                let b = spec_wave_bonus(old(self).current_wave as nat, old(self).perfect_wave);
                &&& interest == i
                &&& bonus == b
                &&& final(economy).gold == sat_add(sat_add(old(economy).gold as nat, i), b)
                &&& final(economy).score == sat_add(old(economy).score as nat, b)
                &&& final(economy).lives == old(economy).lives
                &&& final(economy).interest_rate_percent == old(economy).interest_rate_percent
                &&& final(self).last_interest == interest
                &&& final(self).last_bonus == bonus
                &&& !final(self).wave_active
                &&& final(self).current_wave == old(self).current_wave + 1
            },
            final(self).enemies_to_spawn@ == old(self).enemies_to_spawn@,
            final(self).enemies_alive == old(self).enemies_alive,
            final(self).perfect_wave == old(self).perfect_wave,
            final(self).current_modifier == old(self).current_modifier,
    {
        if self.wave_active && self.enemies_to_spawn.len() == 0 && self.enemies_alive == 0 {
            // Award interest on current gold (before bonus)
            let interest = economy.calculate_interest();
            economy.earn_gold(interest);

            // Award wave completion bonus
            let bonus = self.wave_bonus();
            economy.earn_gold(bonus);
            economy.add_score(bonus);

            // Store interest and bonus for UI display
            self.last_interest = interest;
            self.last_bonus = bonus;

            self.wave_active = false;
            self.current_wave = self.current_wave + 1;
            Some((bonus, interest))
        } else {
            None
        }
    }
}

/// From wave 6 on, modifiers repeat every 15 waves, fall only on multiples
/// of 3, and the first waves have none.
pub proof fn lemma_modifier_schedule(w: nat)
    ensures
        w >= 6 ==> spec_wave_modifier(w + 15) == spec_wave_modifier(w),
        w % 3 != 0 ==> spec_wave_modifier(w) == WaveModifier::Normal,
        w < 6 ==> spec_wave_modifier(w) == WaveModifier::Normal,
{
    if w >= 6 && w % 3 == 0 {
        assert((w + 15) / 3 == w / 3 + 5);
    }
}

/// A perfect wave never pays less than a leaky one, and pays at least
/// twelve gold plus three per wave survived.
pub proof fn lemma_perfect_bonus_dominates(w: nat)
    requires
        spec_base_wave_bonus(w) <= u32::MAX,
    ensures
        spec_wave_bonus(w, true) >= spec_wave_bonus(w, false),
        spec_wave_bonus(w, false) >= 12 + 3 * w,
{
}

/// No wave sends more than three bosses, and bosses only come on every
/// tenth wave.
pub proof fn lemma_boss_waves(w: nat, count: nat)
    ensures
        count_of(spec_wave_roster(w, count), EnemyType::Boss) <= 3,
        !spec_is_boss_wave(w) ==> !spec_wave_roster(w, count).contains(EnemyType::Boss),
{
    let r = spec_wave_roster(w, count);
    if spec_is_boss_wave(w) {
        let bosses = rep(EnemyType::Boss, min_nat(w / 10, 3));
        let escorts = pairs(EnemyType::Fast, EnemyType::Basic, count / 2);
        lemma_count_concat(bosses, escorts, EnemyType::Boss);
        lemma_count_rep(EnemyType::Boss, min_nat(w / 10, 3));
        lemma_count_absent(escorts, EnemyType::Boss);
    } else {
        assert(!r.contains(EnemyType::Boss));
        lemma_count_absent(r, EnemyType::Boss);
    }
}

/// Strong kinds come late: fliers only from wave 12, armored enemies from
/// wave 13, splitters from wave 7 and tanks from wave 5, and the first wave
/// sends basic enemies only.
pub proof fn lemma_late_kinds(w: nat, count: nat)
    ensures
        w < 12 ==> !spec_wave_roster(w, count).contains(EnemyType::Flying),
        w < 13 ==> !spec_wave_roster(w, count).contains(EnemyType::Armored),
        w < 7 ==> !spec_wave_roster(w, count).contains(EnemyType::Splitter),
        w < 5 ==> !spec_wave_roster(w, count).contains(EnemyType::Tank),
        w == 1 ==> spec_wave_roster(w, count) == rep(EnemyType::Basic, count),
{
    let r = spec_wave_roster(w, count);
    if w == 1 {
        assert(r =~= rep(EnemyType::Basic, count));
    }
    if w < 12 {
        assert forall|i: int| 0 <= i < r.len() implies r[i] != EnemyType::Flying by {}
    }
    if w < 13 {
        assert forall|i: int| 0 <= i < r.len() implies r[i] != EnemyType::Armored by {}
    }
    if w < 7 {
        assert forall|i: int| 0 <= i < r.len() implies r[i] != EnemyType::Splitter by {}
    }
    if w < 5 {
        assert forall|i: int| 0 <= i < r.len() implies r[i] != EnemyType::Tank by {}
    }
}

/// A mini-boss wave (every fifth wave that is not a boss wave) sends `count`
/// basic enemies, half as many fast ones, and one tank per five waves, at
/// most four; nothing else.
pub proof fn lemma_mini_boss_wave(w: nat, count: nat)
    requires
        w % 10 == 5,
    ensures
        count_of(spec_wave_roster(w, count), EnemyType::Basic) == count,
        count_of(spec_wave_roster(w, count), EnemyType::Fast) == count / 2,
        count_of(spec_wave_roster(w, count), EnemyType::Tank) == (if w < 20 {
            w / 5
        } else {
            4
        }),
        spec_wave_roster(w, count).len() == count + count / 2 + (if w < 20 {
            w / 5
        } else {
            4
        }),
{
    let tanks: nat = if w < 20 {
        w / 5
    } else {
        4
    };
    let a = rep(EnemyType::Basic, count);
    let b = rep(EnemyType::Fast, count / 2);
    let c = rep(EnemyType::Tank, tanks);
    assert(spec_wave_roster(w, count) =~= a + b + c);
    lemma_count_rep(EnemyType::Basic, count);
    lemma_count_rep(EnemyType::Fast, count / 2);
    lemma_count_rep(EnemyType::Tank, tanks);
    assert(!a.contains(EnemyType::Fast) && !a.contains(EnemyType::Tank));
    assert(!b.contains(EnemyType::Basic) && !b.contains(EnemyType::Tank));
    assert(!c.contains(EnemyType::Basic) && !c.contains(EnemyType::Fast));
    lemma_count_absent(a, EnemyType::Fast);
    lemma_count_absent(a, EnemyType::Tank);
    lemma_count_absent(b, EnemyType::Basic);
    lemma_count_absent(b, EnemyType::Tank);
    lemma_count_absent(c, EnemyType::Basic);
    lemma_count_absent(c, EnemyType::Fast);
    lemma_count_concat(a, b, EnemyType::Basic);
    lemma_count_concat(a + b, c, EnemyType::Basic);
    lemma_count_concat(a, b, EnemyType::Fast);
    lemma_count_concat(a + b, c, EnemyType::Fast);
    lemma_count_concat(a, b, EnemyType::Tank);
    lemma_count_concat(a + b, c, EnemyType::Tank);
}

proof fn lemma_count_rep_any(a: EnemyType, n: nat, t: EnemyType)
    ensures
        count_of(rep(a, n), t) == (if a == t {
            n
        } else {
            0
        }),
    decreases n,
{
    if n > 0 {
        lemma_count_rep_any(a, (n - 1) as nat, t);
        assert(rep(a, n).drop_last() =~= rep(a, (n - 1) as nat));
    }
}

proof fn lemma_count_rep_if(c: bool, a: EnemyType, n: nat, t: EnemyType)
    ensures
        count_of(rep_if(c, a, n), t) == (if c && a == t {
            n
        } else {
            0
        }),
{
    lemma_count_rep_any(a, n, t);
}

proof fn lemma_count_pairs(a: EnemyType, b: EnemyType, n: nat, t: EnemyType)
    ensures
        count_of(pairs(a, b, n), t) == (if a == t {
            n
        } else {
            0
        }) + (if b == t {
            n
        } else {
            0
        }),
    decreases n,
{
    if n > 0 {
        lemma_count_pairs(a, b, (n - 1) as nat, t);
        let p = pairs(a, b, n);
        let q = pairs(a, b, (n - 1) as nat);
        assert(p.drop_last().drop_last() =~= q);
        assert(p.last() == b);
        assert(p.drop_last().last() == a);
        assert(count_of(p.drop_last(), t) == count_of(q, t) + (if a == t {
            1nat
        } else {
            0nat
        }));
        assert(count_of(p, t) == count_of(p.drop_last(), t) + (if b == t {
            1nat
        } else {
            0nat
        }));
    } else {
        assert(pairs(a, b, n).len() == 0);
    }
}

/// The number of enemies of each kind in wave `w` of size `count`, by wave
/// type: a boss wave (every tenth) sends one boss per ten waves (at most
/// three) and `count / 2` fast/basic pairs; the other waves cycle through
/// swarm (`w % 5 == 1`: `count` basics, plus `count / 4` fast from wave 4),
/// speed (`count` fast, `count / 2` basics, plus `count / 3` fliers from
/// wave 12), tank (`count` basics; from wave 8 `count / 3` tanks and
/// `(w - 7) / 4` splitters kept within 1 to 3; from wave 13 `count / 4`
/// armored), mixed (`count` basics, `count / 3` fast; from wave 9
/// `count / 4` tanks; from wave 7 `(w - 6) / 3` splitters kept within 1 to
/// 5) and mini-boss waves (`count` basics, `count / 2` fast, from wave 5 one
/// tank per five waves, at most four).
pub proof fn lemma_wave_composition(w: nat, count: nat, t: EnemyType)
    ensures
        count_of(spec_wave_roster(w, count), t) == if w % 10 == 0 && w > 0 {
            (if t == EnemyType::Boss {
                if w / 10 < 3 {
                    w / 10
                } else {
                    3
                }
            } else {
                0
            }) + (if t == EnemyType::Fast || t == EnemyType::Basic {
                count / 2
            } else {
                0
            })
        } else if w % 5 == 1 {
            (if t == EnemyType::Basic {
                count
            } else {
                0
            }) + (if t == EnemyType::Fast && w >= 4 {
                count / 4
            } else {
                0
            })
        } else if w % 5 == 2 {
            (if t == EnemyType::Fast {
                count
            } else {
                0
            }) + (if t == EnemyType::Basic {
                count / 2
            } else {
                0
            }) + (if t == EnemyType::Flying && w >= 12 {
                count / 3
            } else {
                0
            })
        } else if w % 5 == 3 {
            (if t == EnemyType::Basic {
                count
            } else {
                0
            }) + (if t == EnemyType::Tank && w >= 8 {
                count / 3
            } else {
                0
            }) + (if t == EnemyType::Splitter && w >= 8 {
                let n: nat = ((w - 7) / 4) as nat;
                if n < 1 {
                    1
                } else if n > 3 {
                    3
                } else {
                    n
                }
            } else {
                0
            }) + (if t == EnemyType::Armored && w >= 13 {
                count / 4
            } else {
                0
            })
        } else if w % 5 == 4 {
            (if t == EnemyType::Basic {
                count
            } else {
                0
            }) + (if t == EnemyType::Fast {
                count / 3
            } else {
                0
            }) + (if t == EnemyType::Tank && w >= 9 {
                count / 4
            } else {
                0
            }) + (if t == EnemyType::Splitter && w >= 7 {
                let n: nat = ((w - 6) / 3) as nat;
                if n < 1 {
                    1
                } else if n > 5 {
                    5
                } else {
                    n
                }
            } else {
                0
            })
        } else {
            (if t == EnemyType::Basic {
                count
            } else {
                0
            }) + (if t == EnemyType::Fast {
                count / 2
            } else {
                0
            }) + (if t == EnemyType::Tank && w >= 5 {
                if w < 20 {
                    w / 5
                } else {
                    4
                }
            } else {
                0
            })
        },
{
    if w % 10 == 0 && w > 0 {
        let a = rep(EnemyType::Boss, min_nat(w / 10, 3));
        let b = pairs(EnemyType::Fast, EnemyType::Basic, count / 2);
        lemma_count_concat(a, b, t);
        lemma_count_rep_any(EnemyType::Boss, min_nat(w / 10, 3), t);
        lemma_count_pairs(EnemyType::Fast, EnemyType::Basic, count / 2, t);
    } else if w % 5 == 1 {
        let a = rep(EnemyType::Basic, count);
        let b = rep_if(w >= 4, EnemyType::Fast, count / 4);
        lemma_count_concat(a, b, t);
        lemma_count_rep_any(EnemyType::Basic, count, t);
        lemma_count_rep_if(w >= 4, EnemyType::Fast, count / 4, t);
    } else if w % 5 == 2 {
        let a = rep(EnemyType::Fast, count);
        let b = rep(EnemyType::Basic, count / 2);
        let c = rep_if(w >= 12, EnemyType::Flying, count / 3);
        lemma_count_concat(a, b, t);
        lemma_count_concat(a + b, c, t);
        lemma_count_rep_any(EnemyType::Fast, count, t);
        lemma_count_rep_any(EnemyType::Basic, count / 2, t);
        lemma_count_rep_if(w >= 12, EnemyType::Flying, count / 3, t);
    } else if w % 5 == 3 {
        let n = clamp_nat(((w - 7) / 4) as nat, 1, 3);
        let a = rep(EnemyType::Basic, count);
        let b = rep_if(w >= 8, EnemyType::Tank, count / 3);
        let c = rep_if(w >= 8, EnemyType::Splitter, n);
        let d = rep_if(w >= 13, EnemyType::Armored, count / 4);
        lemma_count_concat(a, b, t);
        lemma_count_concat(a + b, c, t);
        lemma_count_concat(a + b + c, d, t);
        lemma_count_rep_any(EnemyType::Basic, count, t);
        lemma_count_rep_if(w >= 8, EnemyType::Tank, count / 3, t);
        lemma_count_rep_if(w >= 8, EnemyType::Splitter, n, t);
        lemma_count_rep_if(w >= 13, EnemyType::Armored, count / 4, t);
    } else if w % 5 == 4 {
        let n = clamp_nat(((w - 6) / 3) as nat, 1, 5);
        let a = rep(EnemyType::Basic, count);
        let b = rep(EnemyType::Fast, count / 3);
        let c = rep_if(w >= 9, EnemyType::Tank, count / 4);
        let d = rep_if(w >= 7, EnemyType::Splitter, n);
        lemma_count_concat(a, b, t);
        lemma_count_concat(a + b, c, t);
        lemma_count_concat(a + b + c, d, t);
        lemma_count_rep_any(EnemyType::Basic, count, t);
        lemma_count_rep_any(EnemyType::Fast, count / 3, t);
        lemma_count_rep_if(w >= 9, EnemyType::Tank, count / 4, t);
        lemma_count_rep_if(w >= 7, EnemyType::Splitter, n, t);
    } else {
        let a = rep(EnemyType::Basic, count);
        let b = rep(EnemyType::Fast, count / 2);
        let c = rep_if(w >= 5, EnemyType::Tank, min_nat(w / 5, 4));
        lemma_count_concat(a, b, t);
        lemma_count_concat(a + b, c, t);
        lemma_count_rep_any(EnemyType::Basic, count, t);
        lemma_count_rep_any(EnemyType::Fast, count / 2, t);
        lemma_count_rep_if(w >= 5, EnemyType::Tank, min_nat(w / 5, 4), t);
    }
}

proof fn lemma_count_is_multiset(s: Seq<EnemyType>, t: EnemyType)
    ensures
        count_of(s, t) == s.to_multiset().count(t),
    decreases s.len(),
{
    broadcast use vstd::multiset::group_multiset_axioms;
    broadcast use vstd::seq_lib::group_to_multiset_ensures;

    if s.len() == 0 {
        assert(s.to_multiset() =~= vstd::multiset::Multiset::<EnemyType>::empty());
    } else {
        lemma_count_is_multiset(s.drop_last(), t);
        assert(s.drop_last().push(s.last()) =~= s);
        vstd::seq_lib::to_multiset_build(s.drop_last(), s.last());
    }
}

proof fn lemma_shuffle_upto_multiset(s: Seq<EnemyType>, w: nat, k: nat)
    requires
        k <= s.len(),
    ensures
        shuffle_upto(s, w, k).to_multiset() == s.to_multiset(),
        shuffle_upto(s, w, k).len() == s.len(),
    decreases k,
{
    if k > 0 {
        lemma_shuffle_upto_multiset(s, w, (k - 1) as nat);
        let prev = shuffle_upto(s, w, (k - 1) as nat);
        lemma_swap_multiset(prev, k - 1, ((k - 1) + 7 * w) % (s.len() as int));
    }
}

/// Shuffling keeps every kind's count: wave `w` spawns exactly the enemies
/// of its roster, each kind as often.
pub proof fn lemma_wave_enemies_keep_counts(w: nat, count: nat, t: EnemyType)
    ensures
        count_of(spec_wave_enemies(w, count), t) == count_of(spec_wave_roster(w, count), t),
        spec_wave_enemies(w, count).len() == spec_wave_roster(w, count).len(),
{
    let r = spec_wave_roster(w, count);
    lemma_shuffle_upto_multiset(r, w, r.len());
    lemma_count_is_multiset(r, t);
    lemma_count_is_multiset(spec_wave_enemies(w, count), t);
}

proof fn lemma_count_concat(a: Seq<EnemyType>, b: Seq<EnemyType>, t: EnemyType)
    ensures
        count_of(a + b, t) == count_of(a, t) + count_of(b, t),
    decreases b.len(),
{
    if b.len() == 0 {
        assert(a + b =~= a);
    } else {
        lemma_count_concat(a, b.drop_last(), t);
        assert((a + b).drop_last() =~= a + b.drop_last());
    }
}

proof fn lemma_count_rep(t: EnemyType, n: nat)
    ensures
        count_of(rep(t, n), t) == n,
    decreases n,
{
    if n > 0 {
        lemma_count_rep(t, (n - 1) as nat);
        assert(rep(t, n).drop_last() =~= rep(t, (n - 1) as nat));
    }
}

proof fn lemma_count_absent(s: Seq<EnemyType>, t: EnemyType)
    requires
        !s.contains(t),
    ensures
        count_of(s, t) == 0,
    decreases s.len(),
{
    if s.len() > 0 {
        assert(s.last() == s[s.len() - 1]);
        assert forall|i: int| 0 <= i < s.drop_last().len() implies s.drop_last()[i] != t by {
            assert(s.drop_last()[i] == s[i]);
        }
        lemma_count_absent(s.drop_last(), t);
    }
}

} // verus!
