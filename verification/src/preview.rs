//! Text shown in the next-wave preview panel.

use vstd::prelude::*;
use crate::enemy::{EnemyType, WavePreview, WaveModifier};
use crate::text::{decimal, push_decimal};

verus! {

/// The label shown for `count` enemies of one kind: exact up to three,
/// then a rounded bucket.
pub open spec fn fuzzy_label(count: nat) -> Seq<char> {
    if count == 0 {
        "0"@
    } else if count == 1 {
        "1"@
    } else if count == 2 {
        "2"@
    } else if count == 3 {
        "3"@
    } else if count <= 7 {
        "5+"@
    } else if count <= 12 {
        "10+"@
    } else if count <= 18 {
        "15+"@
    } else if count <= 27 {
        "25+"@
    } else {
        "30+"@
    }
}

/// Fuzzy enemy count for the wave preview: 0..3 exactly, then
/// "5+", "10+", "15+", "25+" and "30+".
pub fn fuzzy_count(count: usize) -> (label: &'static str)
    ensures
        label@ == fuzzy_label(count as nat),
{
    if count == 0 {
        "0"
    } else if count == 1 {
        "1"
    } else if count == 2 {
        "2"
    } else if count == 3 {
        "3"
    } else if count <= 7 {
        "5+"
    } else if count <= 12 {
        "10+"
    } else if count <= 18 {
        "15+"
    } else if count <= 27 {
        "25+"
    } else {
        "30+"
    }
}

/// How an enemy kind is listed in the preview.
pub open spec fn spec_preview_name(t: EnemyType) -> Seq<char> {
    match t {
        EnemyType::Basic => "Basic"@,
        EnemyType::Fast => "Fast (quick)"@,
        EnemyType::Tank => "Tank (tough)"@,
        EnemyType::Armored => "Armored (resists)"@,
        EnemyType::Flying => "Flying (skips path)"@,
        EnemyType::Boss => "BOSS (high HP)"@,
        EnemyType::Splitter => "Splitter"@,
        EnemyType::MiniSplitter => "Mini"@,
    }
}

pub fn preview_name(t: EnemyType) -> (s: &'static str)
    ensures
        s@ == spec_preview_name(t),
{
    match t {
        EnemyType::Basic => "Basic",
        EnemyType::Fast => "Fast (quick)",
        EnemyType::Tank => "Tank (tough)",
        EnemyType::Armored => "Armored (resists)",
        EnemyType::Flying => "Flying (skips path)",
        EnemyType::Boss => "BOSS (high HP)",
        EnemyType::Splitter => "Splitter",
        EnemyType::MiniSplitter => "Mini",
    }
}

/// The preview's count lines: `"\n  <name> x<label>"`
/// each.
pub open spec fn count_lines(counts: Seq<(EnemyType, usize)>) -> Seq<char>
    decreases counts.len(),
{
    if counts.len() == 0 {
        Seq::empty()
    } else {
        count_lines(counts.drop_last()) + "\n  "@ + spec_preview_name(counts.last().0) + " x"@
            + fuzzy_label(counts.last().1 as nat)
    }
}

/// The text of the next-wave panel: the wave number, the modifier's name
/// on its own line when there is one, then one line per enemy kind with a
/// fuzzy count.
pub open spec fn spec_preview_text(next_wave: nat, preview_modifier: WaveModifier, counts: Seq<(EnemyType, usize)>) -> Seq<char> {
    "NEXT: Wave "@ + decimal(next_wave) + (if preview_modifier != WaveModifier::Normal {
        "\n"@ + preview_modifier.spec_name()
    } else {
        Seq::empty()
    }) + count_lines(counts)
}

pub fn preview_text(next_wave: usize, preview: &WavePreview) -> (text: String)
    ensures
        text@ == spec_preview_text(next_wave as nat, preview.modifier, preview.counts@),
{
    let mut text = String::from_str("NEXT: Wave ");
    push_decimal(&mut text, next_wave as u64);
    if preview.modifier != WaveModifier::Normal {
        text.append("\n");
        text.append(preview.modifier.name());
    }
    let ghost with_modifier = text@;
    assert(with_modifier == "NEXT: Wave "@ + decimal(next_wave as nat) + (if preview.modifier
        != WaveModifier::Normal {
        "\n"@ + preview.modifier.spec_name()
    } else {
        Seq::empty()
    }));
    let mut i: usize = 0;
    assert(preview.counts@.take(0) =~= Seq::<(EnemyType, usize)>::empty());
    assert(with_modifier + Seq::<char>::empty() =~= with_modifier);
    while i < preview.counts.len()
        invariant
            i <= preview.counts@.len(),
            text@ == with_modifier + count_lines(preview.counts@.take(i as int)),
        decreases preview.counts@.len() - i,
    {
        let (kind, count) = preview.counts[i];
        let ghost before = text@;
        text.append("\n  ");
        text.append(preview_name(kind));
        text.append(" x");
        text.append(fuzzy_count(count));
        proof {
            let taken = preview.counts@.take(i + 1);
            assert(taken.drop_last() =~= preview.counts@.take(i as int));
            assert(taken.last() == (kind, count));
            assert(text@ =~= with_modifier + count_lines(taken));
        }
        i = i + 1;
    }
    assert(preview.counts@.take(i as int) =~= preview.counts@);
    text
}

} // verus!
