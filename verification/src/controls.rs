//! Keyboard controls: picking the tower kind to build, and the shortcuts
//! for the selected placed tower.

use vstd::prelude::*;
use crate::tower::{Tower, TowerType};
use crate::stats::tower_key;

verus! {

/// The tower kind picked by number key `digit` (1 to 8, in shop order).
pub open spec fn spec_tower_for_digit(digit: u32) -> Option<TowerType> {
    if digit == 1 {
        Some(TowerType::Basic)
    } else if digit == 2 {
        Some(TowerType::Splash)
    } else if digit == 3 {
        Some(TowerType::Slow)
    } else if digit == 4 {
        Some(TowerType::Sniper)
    } else if digit == 5 {
        Some(TowerType::Rapid)
    } else if digit == 6 {
        Some(TowerType::Chain)
    } else if digit == 7 {
        Some(TowerType::Poison)
    } else if digit == 8 {
        Some(TowerType::Buff)
    } else {
        None
    }
}

pub fn tower_for_digit(digit: u32) -> (t: Option<TowerType>)
    ensures
        t == spec_tower_for_digit(digit),
{
    match digit {
        1 => Some(TowerType::Basic),
        2 => Some(TowerType::Splash),
        3 => Some(TowerType::Slow),
        4 => Some(TowerType::Sniper),
        5 => Some(TowerType::Rapid),
        6 => Some(TowerType::Chain),
        7 => Some(TowerType::Poison),
        8 => Some(TowerType::Buff),
        _ => None,
    }
}

/// Each number key picks a different kind, and every kind has a key.
pub proof fn lemma_digits_pick_every_kind(t: TowerType)
    ensures
        exists|d: u32| 1 <= d <= 8 && spec_tower_for_digit(d) == Some(t),
        forall|a: u32, b: u32|
            spec_tower_for_digit(a) is Some && spec_tower_for_digit(a) == spec_tower_for_digit(b)
                ==> a == b,
{
    match t {
        TowerType::Basic => assert(spec_tower_for_digit(1) == Some(t)),
        TowerType::Splash => assert(spec_tower_for_digit(2) == Some(t)),
        TowerType::Slow => assert(spec_tower_for_digit(3) == Some(t)),
        TowerType::Sniper => assert(spec_tower_for_digit(4) == Some(t)),
        TowerType::Rapid => assert(spec_tower_for_digit(5) == Some(t)),
        TowerType::Chain => assert(spec_tower_for_digit(6) == Some(t)),
        TowerType::Poison => assert(spec_tower_for_digit(7) == Some(t)),
        TowerType::Buff => assert(spec_tower_for_digit(8) == Some(t)),
    }
}

/// Number key `d` (1 to 8) picks the kind at position `d` of the shop order
/// Basic, Splash, Slow, Sniper, Rapid, Chain, Poison, Buff, which is the
/// kinds' declaration order (their statistics key plus one); other keys
/// pick nothing.
pub proof fn lemma_digit_is_shop_position(d: u32, t: TowerType)
    ensures
        spec_tower_for_digit((tower_key(t) + 1) as u32) == Some(t),
        spec_tower_for_digit(d) matches Some(k) ==> tower_key(k) + 1 == d,
        spec_tower_for_digit(d) is Some <==> 1 <= d <= 8,
{
}

/// What the keys pressed this frame do to the selected placed tower.
#[derive(Clone, Copy, PartialEq, Eq, Debug, Structural)]
pub struct ShortcutActions {
    pub deselect: bool,
    pub upgrade: bool,
    pub sell: bool,
}

/// Escape drops the selection (and nothing else happens). Otherwise, with a
/// tower selected, U upgrades it when no specialization choice is pending
/// and the gold covers the price, and S sells it and drops the selection.
pub fn tower_shortcuts(
    escape: bool,
    upgrade_key: bool,
    sell_key: bool,
    selected: Option<&Tower>,
    gold: u32,
) -> (a: ShortcutActions)
    requires
        selected matches Some(t) ==> t.wf(),
    ensures
        escape && selected is Some ==> a == (ShortcutActions { deselect: true, upgrade: false, sell: false }),
        selected is None ==> a == (ShortcutActions { deselect: false, upgrade: false, sell: false }),
        !escape && selected is Some ==> {
            let t = selected->0;
            &&& a.upgrade == (upgrade_key && !t.spec_needs_specialization() && gold
                >= t.spec_upgrade_cost())
            &&& a.sell == sell_key
            &&& a.deselect == sell_key
        },
{
    let none = ShortcutActions { deselect: false, upgrade: false, sell: false };
    match selected {
        None => none,
        Some(t) => {
            if escape {
                return ShortcutActions { deselect: true, upgrade: false, sell: false };
            }
            let upgrade = upgrade_key && t.can_upgrade() && gold >= t.upgrade_cost();
            ShortcutActions { deselect: sell_key, upgrade, sell: sell_key }
        },
    }
}

} // verus!
