//! Contextual first-session tips: which tip to show at a given moment of
//! play. Each tip is shown once per player.

use vstd::prelude::*;
use crate::persistence::TipsShown;

verus! {

#[derive(Clone, Copy, PartialEq, Eq, Debug, Structural)]
pub enum TipKind {
    Welcome,
    Economy,
    Specialization,
    Synergy,
    EarlySend,
    Targeting,
}

impl TipKind {
    pub open spec fn spec_text(self) -> Seq<char> {
        match self {
            TipKind::Welcome => "Survive as many waves as you can!\nPlace towers (1-8) to stop enemies from reaching the exit.\nSpend gold wisely — you earn interest on savings between waves."@,
            TipKind::Economy => "You earned interest on your saved gold!\nHold gold between waves for 10% interest (max 50g).\nSend waves early for a bonus — but don't fall behind!"@,
            TipKind::Specialization => "Towers branch into specializations at Level 3 — choose wisely!"@,
            TipKind::Synergy => "Place matching towers adjacent to each other for synergy bonuses. Press ? to see all synergies."@,
            TipKind::EarlySend => "Send the next wave early for a gold bonus! Press Space between waves."@,
            TipKind::Targeting => "Press T on a selected tower to cycle targeting: First, Closest, Lowest HP, Highest HP, Fastest."@,
        }
    }

    pub fn text(self) -> (s: &'static str)
        ensures
            s@ == self.spec_text(),
    {
        match self {
            TipKind::Welcome => "Survive as many waves as you can!\nPlace towers (1-8) to stop enemies from reaching the exit.\nSpend gold wisely — you earn interest on savings between waves.",
            TipKind::Economy => "You earned interest on your saved gold!\nHold gold between waves for 10% interest (max 50g).\nSend waves early for a bonus — but don't fall behind!",
            TipKind::Specialization => "Towers branch into specializations at Level 3 — choose wisely!",
            TipKind::Synergy => "Place matching towers adjacent to each other for synergy bonuses. Press ? to see all synergies.",
            TipKind::EarlySend => "Send the next wave early for a gold bonus! Press Space between waves.",
            TipKind::Targeting => "Press T on a selected tower to cycle targeting: First, Closest, Lowest HP, Highest HP, Fastest.",
        }
    }
}

/// Whether `kind` was already shown.
pub open spec fn was_shown(t: TipsShown, kind: TipKind) -> bool {
    match kind {
        TipKind::Welcome => t.welcome,
        TipKind::Economy => t.economy,
        TipKind::Specialization => t.specialization,
        TipKind::Synergy => t.synergy,
        TipKind::EarlySend => t.early_send,
        TipKind::Targeting => t.targeting,
    }
}

/// `t` with `kind` marked as shown.
pub open spec fn mark_shown(t: TipsShown, kind: TipKind) -> TipsShown {
    match kind {
        TipKind::Welcome => TipsShown { welcome: true, ..t },
        TipKind::Economy => TipsShown { economy: true, ..t },
        TipKind::Specialization => TipsShown { specialization: true, ..t },
        TipKind::Synergy => TipsShown { synergy: true, ..t },
        TipKind::EarlySend => TipsShown { early_send: true, ..t },
        TipKind::Targeting => TipsShown { targeting: true, ..t },
    }
}

/// Whether the moment of play calls for `kind`: the first game ever for the
/// welcome; the pause after wave 1 for economy; a tower at level 2 for
/// specialization; three towers for synergy; the pause after wave 2 for
/// sending early; wave 5 for targeting.
pub open spec fn tip_due(
    kind: TipKind,
    total_games: u32,
    current_wave: usize,
    wave_active: bool,
    tower_levels: Seq<u32>,
) -> bool {
    match kind {
        TipKind::Welcome => total_games == 0,
        TipKind::Economy => current_wave >= 1 && !wave_active,
        TipKind::Specialization => exists|i: int|
            0 <= i < tower_levels.len() && #[trigger] tower_levels[i] >= 2,
        TipKind::Synergy => tower_levels.len() >= 3,
        TipKind::EarlySend => current_wave >= 2 && !wave_active,
        TipKind::Targeting => current_wave >= 5,
    }
}

/// The tip order: earlier tips take precedence.
pub open spec fn tip_rank(kind: TipKind) -> int {
    match kind {
        TipKind::Welcome => 0,
        TipKind::Economy => 1,
        TipKind::Specialization => 2,
        TipKind::Synergy => 3,
        TipKind::EarlySend => 4,
        TipKind::Targeting => 5,
    }
}

/// A tip that is not shown yet and whose moment has come.
pub open spec fn tip_ready(
    shown: TipsShown,
    kind: TipKind,
    total_games: u32,
    current_wave: usize,
    wave_active: bool,
    tower_levels: Seq<u32>,
) -> bool {
    !was_shown(shown, kind) && tip_due(kind, total_games, current_wave, wave_active, tower_levels)
}

fn any_at_least_two(tower_levels: &[u32]) -> (r: bool)
    ensures
        r == exists|i: int| 0 <= i < tower_levels@.len() && #[trigger] tower_levels@[i] >= 2,
{
    let mut i: usize = 0;
    while i < tower_levels.len()
        invariant
            i <= tower_levels@.len(),
            forall|j: int| 0 <= j < i ==> #[trigger] tower_levels@[j] < 2,
        decreases tower_levels@.len() - i,
    {
        if tower_levels[i] >= 2 {
            assert(tower_levels@[i as int] >= 2);
            return true;
        }
        i = i + 1;
    }
    false
}

/// Picks the tip to show now, if any, and marks it as shown. No tip is
/// picked while one is on screen. Otherwise the first tip in the order
/// welcome, economy, specialization, synergy, early send, targeting that
/// is ready is picked; `tower_levels` holds the level of each placed tower.
pub fn choose_tip(
    shown: &mut TipsShown,
    tip_on_screen: bool,
    total_games: u32,
    current_wave: usize,
    wave_active: bool,
    tower_levels: &[u32],
) -> (tip: Option<TipKind>)
    ensures
        tip_on_screen ==> tip.is_none(),
        match tip {
            Some(k) => {
                &&& tip_ready(*old(shown), k, total_games, current_wave, wave_active, tower_levels@)
                &&& forall|k2: TipKind|
                    tip_rank(k2) < tip_rank(k) ==> !tip_ready(
                        *old(shown),
                        k2,
                        total_games,
                        current_wave,
                        wave_active,
                        tower_levels@,
                    )
                &&& *final(shown) == mark_shown(*old(shown), k)
            },
            None => {
                &&& *final(shown) == *old(shown)
                &&& !tip_on_screen ==> forall|k2: TipKind|
                    !tip_ready(
                        *old(shown),
                        k2,
                        total_games,
                        current_wave,
                        wave_active,
                        tower_levels@,
                    )
            },
        },
{
    if tip_on_screen {
        return None;
    }
    if !shown.welcome && total_games == 0 {
        shown.welcome = true;
        return Some(TipKind::Welcome);
    }
    if !shown.economy && current_wave >= 1 && !wave_active {
        shown.economy = true;
        return Some(TipKind::Economy);
    }
    if !shown.specialization && any_at_least_two(tower_levels) {
        shown.specialization = true;
        return Some(TipKind::Specialization);
    }
    if !shown.synergy && tower_levels.len() >= 3 {
        shown.synergy = true;
        return Some(TipKind::Synergy);
    }
    if !shown.early_send && current_wave >= 2 && !wave_active {
        shown.early_send = true;
        return Some(TipKind::EarlySend);
    }
    if !shown.targeting && current_wave >= 5 {
        shown.targeting = true;
        return Some(TipKind::Targeting);
    }
    None
}

/// A tip is never picked twice: once picked it counts as shown, and a
/// second call with the same moment of play picks a different tip or none.
pub proof fn lemma_tip_shown_once(
    shown: TipsShown,
    kind: TipKind,
    total_games: u32,
    current_wave: usize,
    wave_active: bool,
    tower_levels: Seq<u32>,
)
    ensures
        was_shown(mark_shown(shown, kind), kind),
        !tip_ready(
            mark_shown(shown, kind),
            kind,
            total_games,
            current_wave,
            wave_active,
            tower_levels,
        ),
        forall|k2: TipKind| k2 != kind ==> was_shown(mark_shown(shown, kind), k2) == was_shown(shown, k2),
{
}

} // verus!
