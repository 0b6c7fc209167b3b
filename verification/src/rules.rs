//! Pure game formulas: upgrade pricing, resale value and their laws.

use vstd::prelude::*;
use crate::tower::{SynergyType, TowerType};

verus! {

/// `2^n`.
pub open spec fn pow2(n: nat) -> nat
    decreases n,
{
    if n == 0 {
        1
    } else {
        2 * pow2((n - 1) as nat)
    }
}

/// `3^n`.
pub open spec fn pow3(n: nat) -> nat
    decreases n,
{
    if n == 0 {
        1
    } else {
        3 * pow3((n - 1) as nat)
    }
}

/// Exact price of upgrading away from `level`: `base * 0.5 * 1.5^(level - 1)`,
/// rounded down, i.e. `base * 3^(level-1) / 2^level`.
pub open spec fn raw_upgrade_cost(base: nat, level: nat) -> nat {
    (base * pow3((level - 1) as nat)) / pow2(level)
}

/// Upgrade price as a `u32`: the exact price, saturated at `u32::MAX`.
pub open spec fn spec_upgrade_cost(base: nat, level: nat) -> nat {
    let r = raw_upgrade_cost(base, level);
    if r > u32::MAX {
        u32::MAX as nat
    } else {
        r
    }
}

/// Sum of the upgrade prices paid from level 1 up to (not including) `level`.
pub open spec fn spec_upgrade_cost_total(base: nat, level: nat) -> nat
    decreases level,
{
    if level <= 1 {
        0
    } else {
        spec_upgrade_cost_total(base, (level - 1) as nat) + spec_upgrade_cost(
            base,
            (level - 1) as nat,
        )
    }
}

/// Resale value: three quarters of everything invested, rounded down.
pub open spec fn spec_sell_value(base: nat, level: nat) -> nat {
    (3 * (base + spec_upgrade_cost_total(base, level))) / 4
}

proof fn lemma_pow2_positive(n: nat)
    ensures
        pow2(n) > 0,
    decreases n,
{
    if n > 0 {
        lemma_pow2_positive((n - 1) as nat);
    }
}

proof fn lemma_pow3_positive(n: nat)
    ensures
        pow3(n) > 0,
    decreases n,
{
    if n > 0 {
        lemma_pow3_positive((n - 1) as nat);
    }
}

proof fn lemma_pow2_add(a: nat, b: nat)
    ensures
        pow2(a + b) == pow2(a) * pow2(b),
    decreases a,
{
    if a > 0 {
        lemma_pow2_add((a - 1) as nat, b);
        assert(pow2(a + b) == 2 * pow2((a - 1 + b) as nat));
        assert(pow2(a) * pow2(b) == 2 * (pow2((a - 1) as nat) * pow2(b))) by (nonlinear_arith)
            requires
                pow2(a) == 2 * pow2((a - 1) as nat),
        ;
    } else {
        assert(pow2(0) == 1);
        assert(a + b == b);
        assert(pow2(a) * pow2(b) == pow2(b)) by (nonlinear_arith)
            requires
                pow2(a) == 1,
        ;
    }
}

proof fn lemma_pow2_mono(a: nat, b: nat)
    requires
        a <= b,
    ensures
        pow2(a) <= pow2(b),
    decreases b,
{
    if a < b {
        lemma_pow2_mono(a, (b - 1) as nat);
        lemma_pow2_positive((b - 1) as nat);
    }
}

proof fn lemma_pow3_mono(a: nat, b: nat)
    requires
        a <= b,
    ensures
        pow3(a) <= pow3(b),
    decreases b,
{
    if a < b {
        lemma_pow3_mono(a, (b - 1) as nat);
        lemma_pow3_positive((b - 1) as nat);
    }
}

/// `3^(2m) >= 2^(3m)`, since `9 >= 8`.
proof fn lemma_pow3_outgrows_pow2(m: nat)
    ensures
        pow3(2 * m) >= pow2(3 * m),
    decreases m,
{
    if m > 0 {
        let p = (m - 1) as nat;
        lemma_pow3_outgrows_pow2(p);
        assert(pow3(2 * m) == 9 * pow3(2 * p)) by {
            assert(pow3(2 * m) == 3 * pow3((2 * m - 1) as nat));
            assert(pow3((2 * m - 1) as nat) == 3 * pow3(2 * p));
        }
        assert(pow2(3 * m) == 8 * pow2(3 * p)) by {
            assert(pow2(3 * m) == 2 * pow2((3 * m - 1) as nat));
            assert(pow2((3 * m - 1) as nat) == 2 * pow2((3 * m - 2) as nat));
            assert(pow2((3 * m - 2) as nat) == 2 * pow2(3 * p));
        }
    }
}

proof fn lemma_pow2_32()
    ensures
        pow2(32) == 0x1_0000_0000,
{
    reveal_with_fuel(pow2, 33);
}

proof fn lemma_pow2_90()
    ensures
        pow2(90) == 0x400_0000_0000_0000_0000_0000,
{
    reveal_with_fuel(pow2, 31);
    assert(pow2(30) == 0x4000_0000);
    lemma_pow2_add(30, 30);
    lemma_pow2_add(60, 30);
}

/// Once the exponent reaches 90, `3^k` exceeds `2^32 * 2^(k+1)`: an
/// unsaturated upgrade price therefore never needs more than 90 steps.
proof fn lemma_growth_bound(k: nat)
    requires
        k >= 90,
    ensures
        pow3(k) >= 0x1_0000_0000 * pow2(k + 1),
{
    let m = k / 2;
    lemma_pow3_mono(2 * m, k);
    lemma_pow3_outgrows_pow2(m);
    lemma_pow2_mono(k + 33, 3 * m);
    lemma_pow2_add(32, k + 1);
    lemma_pow2_32();
}

/// The exact price never decreases from one level to the next.
proof fn lemma_raw_cost_step(base: nat, level: nat)
    requires
        level >= 1,
    ensures
        raw_upgrade_cost(base, level) <= raw_upgrade_cost(base, level + 1),
{
    let n = base * pow3((level - 1) as nat);
    let d = pow2(level);
    lemma_pow2_positive(level);
    assert(pow3(level) == 3 * pow3((level - 1) as nat));
    assert(base * pow3(level) == 3 * n) by (nonlinear_arith)
        requires
            pow3(level) == 3 * pow3((level - 1) as nat),
            n == base * pow3((level - 1) as nat),
    ;
    assert(pow2(level + 1) == 2 * d);
    assert(n / d <= (3 * n) / (2 * d)) by (nonlinear_arith)
        requires
            d > 0,
    {
        let q = n / d;
        assert(q * d <= n);
        assert(q * (2 * d) <= 3 * n);
    }
}

proof fn lemma_raw_cost_mono(base: nat, l1: nat, l2: nat)
    requires
        1 <= l1 <= l2,
    ensures
        raw_upgrade_cost(base, l1) <= raw_upgrade_cost(base, l2),
    decreases l2,
{
    if l1 < l2 {
        lemma_raw_cost_mono(base, l1, (l2 - 1) as nat);
        lemma_raw_cost_step(base, (l2 - 1) as nat);
    }
}

/// Upgrade cost for a tower at its current level.
/// Level 1: 50% of base, Level 2: 75%, Level 3: 112%, Level 4: 168%...
pub fn upgrade_cost(base_cost: u32, level: u32) -> (cost: u32)
    requires
        level >= 1,
    ensures
        cost == spec_upgrade_cost(base_cost as nat, level as nat),
{
    if base_cost == 0 {
        proof {
            lemma_pow2_positive(level as nat);
        }
        return 0;
    }
    let cap: u128 = 0x1_0000_0000;
    let mut num: u128 = base_cost as u128;
    let mut den: u128 = 2;
    let mut k: u32 = 0;
    proof {
        reveal_with_fuel(pow2, 2);
        reveal_with_fuel(pow3, 1);
        assert(pow3(0) == 1);
        assert(num == base_cost * pow3(0));
    }
    while k < level - 1
        invariant
            0 < base_cost,
            1 <= level,
            k <= level - 1,
            k < 90,
            cap == 0x1_0000_0000,
            num == base_cost * pow3(k as nat),
            den == pow2((k + 1) as nat),
            num < cap * den,
        decreases level - 1 - k,
    {
        proof {
            lemma_pow2_mono((k + 1) as nat, 90);
            lemma_pow2_90();
            assert(pow3((k + 1) as nat) == 3 * pow3(k as nat));
            assert(base_cost * pow3((k + 1) as nat) == 3 * num) by (nonlinear_arith)
                requires
                    pow3((k + 1) as nat) == 3 * pow3(k as nat),
                    num == base_cost * pow3(k as nat),
            ;
        }
        num = num * 3;
        den = den * 2;
        k = k + 1;
        if num >= cap * den {
            proof {
                let kk = k as nat;
                assert(raw_upgrade_cost(base_cost as nat, kk + 1) == num / den);
                lemma_pow2_positive(kk + 1);
                assert(num / den >= cap) by (nonlinear_arith)
                    requires
                        num >= cap * den,
                        den > 0,
                ;
                lemma_raw_cost_mono(base_cost as nat, kk + 1, level as nat);
            }
            return u32::MAX;
        }
        proof {
            if k >= 90 {
                lemma_growth_bound(k as nat);
                assert(num >= pow3(k as nat)) by (nonlinear_arith)
                    requires
                        num == base_cost * pow3(k as nat),
                        base_cost >= 1,
                ;
            }
        }
    }
    proof {
        lemma_pow2_positive(level as nat);
        assert(num / den < cap) by (nonlinear_arith)
            requires
                num < cap * den,
                den > 0,
        ;
    }
    (num / den) as u32
}

proof fn lemma_total_mono(base: nat, l1: nat, l2: nat)
    requires
        l1 <= l2,
    ensures
        spec_upgrade_cost_total(base, l1) <= spec_upgrade_cost_total(base, l2),
    decreases l2,
{
    if l1 < l2 {
        lemma_total_mono(base, l1, (l2 - 1) as nat);
    }
}

/// Total gold spent on upgrades from level 1 to the given level.
pub fn upgrade_cost_total(base_cost: u32, level: u32) -> (total: u32)
    requires
        spec_upgrade_cost_total(base_cost as nat, level as nat) <= u32::MAX,
    ensures
        total == spec_upgrade_cost_total(base_cost as nat, level as nat),
{
    let mut total: u32 = 0;
    let mut lvl: u32 = 1;
    if level <= 1 {
        return 0;
    }
    while lvl < level
        invariant
            1 <= lvl <= level,
            total == spec_upgrade_cost_total(base_cost as nat, lvl as nat),
            spec_upgrade_cost_total(base_cost as nat, level as nat) <= u32::MAX,
        decreases level - lvl,
    {
        let step = upgrade_cost(base_cost, lvl);
        proof {
            lemma_total_mono(base_cost as nat, (lvl + 1) as nat, level as nat);
        }
        total = total + step;
        lvl = lvl + 1;
    }
    total
}

/// Sell value: 75% of total invested (base cost + all upgrade costs).
pub fn sell_value(base_cost: u32, level: u32) -> (value: u32)
    requires
        base_cost + spec_upgrade_cost_total(base_cost as nat, level as nat) <= u32::MAX,
    ensures
        value == spec_sell_value(base_cost as nat, level as nat),
{
    let invested = base_cost + upgrade_cost_total(base_cost, level);
    ((3 * (invested as u64)) / 4) as u32
}

/// The price of an upgrade never goes down as the tower climbs levels.
pub proof fn lemma_upgrade_cost_monotone(base: nat, l1: nat, l2: nat)
    requires
        1 <= l1 <= l2,
    ensures
        spec_upgrade_cost(base, l1) <= spec_upgrade_cost(base, l2),
{
    lemma_raw_cost_mono(base, l1, l2);
}

/// From level 1 the upgrade costs half the base price.
pub proof fn lemma_upgrade_cost_first_level(base: nat)
    requires
        base <= u32::MAX,
    ensures
        spec_upgrade_cost(base, 1) == base / 2,
{
    reveal_with_fuel(pow2, 2);
    reveal_with_fuel(pow3, 1);
    assert(pow3(0) == 1);
    assert(base * pow3(0) == base);
}

/// For a base price of at least 4, every further level costs strictly
/// more than the one before, until the price saturates at `u32::MAX`.
pub proof fn lemma_upgrade_cost_strictly_increases(base: nat, level: nat)
    requires
        base >= 4,
        level >= 1,
        spec_upgrade_cost(base, level + 1) < u32::MAX,
    ensures
        spec_upgrade_cost(base, level) < spec_upgrade_cost(base, level + 1),
{
    let n = base * pow3((level - 1) as nat);
    let d = pow2(level);
    lemma_pow2_positive(level);
    lemma_raw_cost_mono(base, 1, level);
    reveal_with_fuel(pow2, 2);
    reveal_with_fuel(pow3, 1);
    assert(pow3(0) == 1);
    assert(base * pow3(0) == base);
    assert(raw_upgrade_cost(base, 1) == base / 2);
    assert(pow3(level) == 3 * pow3((level - 1) as nat));
    assert(base * pow3(level) == 3 * n) by (nonlinear_arith)
        requires
            pow3(level) == 3 * pow3((level - 1) as nat),
            n == base * pow3((level - 1) as nat),
    ;
    assert(pow2(level + 1) == 2 * d);
    assert(n / d < (3 * n) / (2 * d)) by (nonlinear_arith)
        requires
            d > 0,
            n / d >= 2,
    {
        let q = n / d;
        assert(q * d <= n);
        assert((q + 1) * (2 * d) <= 3 * n);
    }
    lemma_raw_cost_step(base, level);
}

/// Upgrade spending accumulates: reaching `level + 1` costs what reaching
/// `level` cost plus the price of the upgrade bought at `level`.
pub proof fn lemma_upgrade_cost_total_accumulates(base: nat, level: nat)
    requires
        level >= 1,
    ensures
        spec_upgrade_cost_total(base, level + 1) == spec_upgrade_cost_total(base, level)
            + spec_upgrade_cost(base, level),
        spec_upgrade_cost_total(base, 1) == 0,
{
}

/// A tower never sells for more than was invested in it.
pub proof fn lemma_sell_value_never_exceeds_invested(base: nat, level: nat)
    ensures
        spec_sell_value(base, level) <= base + spec_upgrade_cost_total(base, level),
{
}

// =============================================================================
// ECONOMY FORMULAS
// =============================================================================

/// Interest on `gold` at `rate_percent`, capped at [`INTEREST_CAP`].
pub open spec fn spec_interest(gold: nat, rate_percent: nat) -> nat {
    let raw = (gold * rate_percent) / 100;
    if raw > 50 {
        50
    } else {
        raw
    }
}

/// Combo gold multiplier in tenths: 1x at 0-1 kills, +0.1x per additional
/// kill, capped at 2x (11+ kills).
pub open spec fn spec_streak_multiplier_tenths(count: nat) -> nat {
    if count <= 1 {
        10
    } else if count - 1 >= 10 {
        20
    } else {
        (10 + count - 1) as nat
    }
}

/// Kill streak gold multiplier, in tenths (10 = 1.0x, 20 = 2.0x).
pub fn kill_streak_multiplier(count: u32) -> (m: u32)
    ensures
        m == spec_streak_multiplier_tenths(count as nat),
        10 <= m <= 20,
{
    if count <= 1 {
        10
    } else if count - 1 >= 10 {
        20
    } else {
        10 + (count - 1)
    }
}

/// Interest earned on `gold` at `rate_percent` (capped at 50).
pub fn calculate_interest(gold: u32, rate_percent: u32) -> (interest: u32)
    ensures
        interest == spec_interest(gold as nat, rate_percent as nat),
        interest <= 50,
{
    assert((gold as u64) * (rate_percent as u64) <= 0xffff_ffff * 0xffff_ffff) by (nonlinear_arith)
        requires
            gold <= 0xffff_ffff,
            rate_percent <= 0xffff_ffff,
    ;
    let raw: u64 = (gold as u64 * rate_percent as u64) / 100;
    if raw > 50 {
        50
    } else {
        raw as u32
    }
}

/// Gold-rush multiplier in hundredths: 2x, growing by 0.05x per wave up to 3x.
pub open spec fn spec_gold_rush_hundredths(wave: nat) -> nat {
    if 5 * wave >= 100 {
        300
    } else {
        200 + 5 * wave
    }
}

/// Gold paid for a kill: the enemy's reward scaled by the combo multiplier
/// and, during a gold rush, by the gold-rush multiplier; rounded down and
/// saturated at `u32::MAX`.
pub open spec fn spec_kill_reward(reward: nat, streak: nat, gold_rush: bool, wave: nat) -> nat {
    let rush = if gold_rush {
        spec_gold_rush_hundredths(wave)
    } else {
        100
    };
    let raw = (reward * spec_streak_multiplier_tenths(streak) * rush) / 1000;
    if raw > u32::MAX {
        u32::MAX as nat
    } else {
        raw
    }
}

/// Gold paid for a kill (see [`spec_kill_reward`]).
pub fn kill_reward(reward: u32, streak_count: u32, gold_rush: bool, wave: usize) -> (gold: u32)
    ensures
        gold == spec_kill_reward(reward as nat, streak_count as nat, gold_rush, wave as nat),
{
    let streak = kill_streak_multiplier(streak_count) as u64;
    let rush: u64 = if gold_rush {
        if wave >= 20 {
            300
        } else {
            200 + 5 * (wave as u64)
        }
    } else {
        100
    };
    assert(reward * streak <= 0xffff_ffff * 20) by (nonlinear_arith)
        requires
            reward <= 0xffff_ffff,
            streak <= 20,
    ;
    assert((reward * streak) * rush <= (0xffff_ffff * 20) * 300) by (nonlinear_arith)
        requires
            reward * streak <= 0xffff_ffff * 20,
            rush <= 300,
    ;
    let raw: u64 = (reward as u64 * streak * rush) / 1000;
    if raw > 0xffff_ffff {
        u32::MAX
    } else {
        raw as u32
    }
}


// =============================================================================
// SYNERGY DETECTION
// =============================================================================

/// The synergy a tower of kind `t` forms with its neighbours, if any: a
/// Sniper next to a Sniper, Slow next to Poison (either way round), Rapid
/// next to Buff, Chain next to Chain.
pub open spec fn spec_synergy_of(t: TowerType, adjacent: Seq<TowerType>) -> Option<SynergyType> {
    match t {
        TowerType::Sniper => if adjacent.contains(TowerType::Sniper) {
            Some(SynergyType::SniperPair)
        } else {
            None
        },
        TowerType::Slow => if adjacent.contains(TowerType::Poison) {
            Some(SynergyType::SlowPoison)
        } else {
            None
        },
        TowerType::Poison => if adjacent.contains(TowerType::Slow) {
            Some(SynergyType::SlowPoison)
        } else {
            None
        },
        TowerType::Rapid => if adjacent.contains(TowerType::Buff) {
            Some(SynergyType::RapidBuff)
        } else {
            None
        },
        TowerType::Chain => if adjacent.contains(TowerType::Chain) {
            Some(SynergyType::ChainPair)
        } else {
            None
        },
        _ => None,
    }
}

/// Result of synergy detection for a single tower. Bonuses are integers:
/// percentages for range and poison duration, a whole multiplier for the
/// buff effect.
#[derive(Debug, PartialEq, Eq)]
pub struct SynergyResult {
    pub synergies: Vec<SynergyType>,
    pub range_bonus_percent: u32,
    pub poison_duration_bonus_percent: u32,
    pub speed_buff_multiplier: u32,
    pub extra_chain_bounces: u32,
}

impl SynergyResult {
    /// The result for a tower of kind `t` with the given neighbours: the
    /// synergy found, if any, and the bonus it grants (+15% range for a
    /// sniper pair, +50% poison duration for slow/poison, double buff effect
    /// for rapid/buff, one extra bounce for a chain pair).
    pub open spec fn describes(&self, t: TowerType, adjacent: Seq<TowerType>) -> bool {
        let s = spec_synergy_of(t, adjacent);
        &&& self.synergies@ == (match s {
            Some(k) => seq![k],
            None => Seq::<SynergyType>::empty(),
        })
        &&& self.range_bonus_percent == (if s == Some(SynergyType::SniperPair) {
            15u32
        } else {
            0u32
        })
        &&& self.poison_duration_bonus_percent == (if s == Some(SynergyType::SlowPoison) {
            50u32
        } else {
            0u32
        })
        &&& self.speed_buff_multiplier == (if s == Some(SynergyType::RapidBuff) {
            2u32
        } else {
            1u32
        })
        &&& self.extra_chain_bounces == (if s == Some(SynergyType::ChainPair) {
            1u32
        } else {
            0u32
        })
    }
}

/// Whether `t` occurs among `types`.
fn contains_type(types: &[TowerType], t: TowerType) -> (b: bool)
    ensures
        b == types@.contains(t),
{
    let mut i: usize = 0;
    while i < types.len()
        invariant
            i <= types@.len(),
            forall|j: int| 0 <= j < i ==> types@[j] != t,
        decreases types.len() - i,
    {
        if types[i] == t {
            assert(types@[i as int] == t);
            return true;
        }
        i += 1;
    }
    proof {
        if types@.contains(t) {
            let k = choose|k: int| 0 <= k < types@.len() && types@[k] == t;
            assert(types@[k] != t);
        }
    }
    false
}

/// Detect synergies for a tower based on its type and adjacent tower types.
pub fn detect_synergies(tower_type: TowerType, adjacent_types: &[TowerType]) -> (result: SynergyResult)
    ensures
        result.describes(tower_type, adjacent_types@),
{
    let mut result = SynergyResult {
        synergies: Vec::new(),
        range_bonus_percent: 0,
        poison_duration_bonus_percent: 0,
        speed_buff_multiplier: 1,
        extra_chain_bounces: 0,
    };

    match tower_type {
        TowerType::Sniper => {
            if contains_type(adjacent_types, TowerType::Sniper) {
                result.synergies.push(SynergyType::SniperPair);
                result.range_bonus_percent = 15;
            }
        },
        TowerType::Slow => {
            if contains_type(adjacent_types, TowerType::Poison) {
                result.synergies.push(SynergyType::SlowPoison);
                result.poison_duration_bonus_percent = 50;
            }
        },
        TowerType::Poison => {
            if contains_type(adjacent_types, TowerType::Slow) {
                result.synergies.push(SynergyType::SlowPoison);
                result.poison_duration_bonus_percent = 50;
            }
        },
        TowerType::Rapid => {
            if contains_type(adjacent_types, TowerType::Buff) {
                result.synergies.push(SynergyType::RapidBuff);
                result.speed_buff_multiplier = 2;
            }
        },
        TowerType::Chain => {
            if contains_type(adjacent_types, TowerType::Chain) {
                result.synergies.push(SynergyType::ChainPair);
                result.extra_chain_bounces = 1;
            }
        },
        _ => {},
    }
    proof {
        assert(result.synergies@ =~= (match spec_synergy_of(tower_type, adjacent_types@) {
            Some(k) => seq![k],
            None => Seq::<SynergyType>::empty(),
        }));
    }
    result
}

/// Synergies depend only on which kinds are adjacent: duplicates and order
/// of the neighbours do not matter, and at most one synergy is granted.
pub proof fn lemma_synergy_depends_on_kinds(t: TowerType, a: Seq<TowerType>, b: Seq<TowerType>)
    requires
        forall|k: TowerType| a.contains(k) <==> b.contains(k),
    ensures
        spec_synergy_of(t, a) == spec_synergy_of(t, b),
{
}

/// Slow/poison is symmetric: a slow tower next to a poison tower and that
/// poison tower next to the slow tower both gain it.
pub proof fn lemma_slow_poison_symmetric(a: Seq<TowerType>, b: Seq<TowerType>)
    requires
        a.contains(TowerType::Poison),
        b.contains(TowerType::Slow),
    ensures
        spec_synergy_of(TowerType::Slow, a) == Some(SynergyType::SlowPoison),
        spec_synergy_of(TowerType::Poison, b) == Some(SynergyType::SlowPoison),
{
}

/// Each pairing grants exactly its own bonus, stated by the kinds involved:
/// +15% range only to a sniper next to a sniper, +50% poison duration only
/// to slow next to poison (either way round), a doubled buff only to rapid
/// next to buff, one extra bounce only to chain next to chain; at most one
/// synergy is listed, and it is listed exactly when a bonus is granted.
pub proof fn lemma_synergy_bonuses(r: SynergyResult, t: TowerType, adj: Seq<TowerType>)
    requires
        r.describes(t, adj),
    ensures
        r.range_bonus_percent == (if t == TowerType::Sniper && adj.contains(TowerType::Sniper) {
            15u32
        } else {
            0u32
        }),
        r.poison_duration_bonus_percent == (if (t == TowerType::Slow && adj.contains(TowerType::Poison))
            || (t == TowerType::Poison && adj.contains(TowerType::Slow)) {
            50u32
        } else {
            0u32
        }),
        r.speed_buff_multiplier == (if t == TowerType::Rapid && adj.contains(TowerType::Buff) {
            2u32
        } else {
            1u32
        }),
        r.extra_chain_bounces == (if t == TowerType::Chain && adj.contains(TowerType::Chain) {
            1u32
        } else {
            0u32
        }),
        r.synergies@.len() <= 1,
        r.synergies@.len() == 1 <==> (r.range_bonus_percent > 0 || r.poison_duration_bonus_percent
            > 0 || r.speed_buff_multiplier > 1 || r.extra_chain_bounces > 0),
{
}

/// How a kill is paid: a first kill without a gold rush pays the enemy's
/// reward; the combo adds a tenth of the reward per kill after the first,
/// up to double; a gold rush multiplies by 2 plus 5% per wave, up to 3.
/// Results are rounded down and capped at `u32::MAX`.
pub proof fn lemma_kill_reward_scaling(reward: nat, streak: nat, wave: nat)
    ensures
        spec_kill_reward(reward, 1, false, wave) == (if reward > u32::MAX {
            u32::MAX as nat
        } else {
            reward
        }),
        streak >= 1 ==> spec_kill_reward(reward, streak, false, wave) == ({
            let tenths: nat = if streak >= 11 {
                20
            } else {
                (9 + streak) as nat
            };
            if reward * tenths / 10 > u32::MAX {
                u32::MAX as nat
            } else {
                reward * tenths / 10
            }
        }),
        spec_kill_reward(reward, 1, true, wave) == ({
            let percent: nat = if wave >= 20 {
                300
            } else {
                200 + 5 * wave
            };
            if reward * percent / 100 > u32::MAX {
                u32::MAX as nat
            } else {
                reward * percent / 100
            }
        }),
{
    assert(reward * 10 * 100 / 1000 == reward) by (nonlinear_arith);
    let tenths: nat = if streak >= 11 {
        20
    } else {
        (9 + streak) as nat
    };
    assert(reward * tenths * 100 / 1000 == reward * tenths / 10) by (nonlinear_arith);
    let percent: nat = if wave >= 20 {
        300
    } else {
        200 + 5 * wave
    };
    assert(reward * 10 * percent / 1000 == reward * percent / 100) by (nonlinear_arith);
}

} // verus!
