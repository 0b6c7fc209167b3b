//! The player's purse and the kill-streak combo counter.

use vstd::prelude::*;
use crate::rules::{kill_streak_multiplier, spec_interest, spec_streak_multiplier_tenths};

verus! {

/// Interest paid at the end of a wave never exceeds this many gold.
pub const INTEREST_CAP: u32 = 50;

/// `a + b`, saturated at `u32::MAX`.
pub open spec fn sat_add(a: nat, b: nat) -> nat {
    if a + b > u32::MAX {
        u32::MAX as nat
    } else {
        a + b
    }
}

/// Player's economy state. The interest rate is held in whole percent.
pub struct PlayerEconomy {
    pub gold: u32,
    pub lives: u32,
    pub score: u32,
    pub interest_rate_percent: u32,
}

impl PlayerEconomy {
    /// The economy a new game starts with: 160 gold, 10 lives, no score,
    /// 10% interest.
    pub fn new() -> (e: Self)
        ensures
            e.gold == 160,
            e.lives == 10,
            e.score == 0,
            e.interest_rate_percent == 10,
    {
        PlayerEconomy { gold: 160, lives: 10, score: 0, interest_rate_percent: 10 }
    }

    /// Calculate interest earned on current gold (capped at 50).
    pub fn calculate_interest(&self) -> (interest: u32)
        ensures
            interest == spec_interest(self.gold as nat, self.interest_rate_percent as nat),
            interest <= INTEREST_CAP,
    {
        assert((self.gold as u64) * (self.interest_rate_percent as u64) <= 0xffff_ffff
            * 0xffff_ffff) by (nonlinear_arith)
            requires
                self.gold <= 0xffff_ffff,
                self.interest_rate_percent <= 0xffff_ffff,
        ;
        let raw: u64 = (self.gold as u64 * self.interest_rate_percent as u64) / 100;
        if raw > 50 {
            50
        } else {
            raw as u32
        }
    }

    /// Adds gold, saturating at `u32::MAX`.
    pub fn earn_gold(&mut self, amount: u32)
        ensures
            final(self).gold == sat_add(old(self).gold as nat, amount as nat),
            final(self).lives == old(self).lives,
            final(self).score == old(self).score,
            final(self).interest_rate_percent == old(self).interest_rate_percent,
    {
        self.gold = self.gold.saturating_add(amount);
    }

    /// Adds to the score, saturating at `u32::MAX`.
    pub fn add_score(&mut self, amount: u32)
        ensures
            final(self).score == sat_add(old(self).score as nat, amount as nat),
            final(self).gold == old(self).gold,
            final(self).lives == old(self).lives,
            final(self).interest_rate_percent == old(self).interest_rate_percent,
    {
        self.score = self.score.saturating_add(amount);
    }

    /// Takes `amount` gold if the purse holds that much; returns whether it did.
    pub fn try_spend(&mut self, amount: u32) -> (spent: bool)
        ensures
            spent == (old(self).gold >= amount),
            final(self).gold == (if spent {
                old(self).gold - amount
            } else {
                old(self).gold as int
            }),
            final(self).lives == old(self).lives,
            final(self).score == old(self).score,
            final(self).interest_rate_percent == old(self).interest_rate_percent,
    {
        if self.gold >= amount {
            self.gold = self.gold - amount;
            true
        } else {
            false
        }
    }

    /// An enemy reached the exit: one life is lost (never below zero).
    /// Returns true when no life is left, which ends the game.
    pub fn lose_life(&mut self) -> (game_over: bool)
        ensures
            final(self).lives == (if old(self).lives == 0 {
                0
            } else {
                old(self).lives - 1
            }),
            game_over == (final(self).lives == 0),
            final(self).gold == old(self).gold,
            final(self).score == old(self).score,
            final(self).interest_rate_percent == old(self).interest_rate_percent,
    {
        self.lives = self.lives.saturating_sub(1);
        self.lives == 0
    }
}

/// Kill streak tracking for the combo system. The two-second expiry timer
/// is kept by the caller, which calls [`KillStreak::expire`] when it runs out.
pub struct KillStreak {
    pub count: u32,
    pub max_reached: u32,
    pub active: bool,
}

impl KillStreak {
    /// No kills yet.
    pub fn new() -> (s: Self)
        ensures
            s.count == 0,
            s.max_reached == 0,
            !s.active,
    {
        KillStreak { count: 0, max_reached: 0, active: false }
    }

    /// Register a kill - increases the combo and records the best combo.
    pub fn register_kill(&mut self)
        requires
            old(self).count < u32::MAX,
        ensures
            final(self).count == old(self).count + 1,
            final(self).active,
            final(self).max_reached == (if old(self).count + 1 > old(self).max_reached {
                old(self).count + 1
            } else {
                old(self).max_reached as int
            }),
    {
        self.count = self.count + 1;
        self.active = true;
        if self.count > self.max_reached {
            self.max_reached = self.count;
        }
    }

    /// The combo timer ran out: the streak resets.
    pub fn expire(&mut self)
        ensures
            final(self).count == 0,
            !final(self).active,
            final(self).max_reached == old(self).max_reached,
    {
        self.count = 0;
        self.active = false;
    }

    /// Gold multiplier of the current streak, in tenths (10 = 1.0x).
    pub fn multiplier(&self) -> (m: u32)
        ensures
            m == spec_streak_multiplier_tenths(self.count as nat),
            10 <= m <= 20,
    {
        kill_streak_multiplier(self.count)
    }

    /// Check if combo is active and worth displaying (3+ kills).
    pub fn is_displayable(&self) -> (b: bool)
        ensures
            b == (self.active && self.count >= 3),
    {
        self.active && self.count >= 3
    }
}

} // verus!
