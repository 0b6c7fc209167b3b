//! The text form in which settings, high scores, lifetime totals and
//! shown tips are saved in browser storage: a small JSON-like record,
//! written and read without a JSON library. Reading is lenient: unknown
//! fields are ignored and unreadable values fall back to defaults.

use vstd::prelude::*;
use crate::persistence::{
    GameSettings,
    HighScoreEntry,
    HighScores,
    LifetimeStats,
    ParticleDensity,
    TipsShown,
    entries_map,
};
use crate::text::{
    lemma_decimal,
    lemma_parse_decimal,
    after_prefix,
    is_space,
    lemma_not_prefix,
    lemma_prefix_concat,
    lemma_split_concat,
    lemma_split_single,
    lemma_trim_unchanged,
    bool_text,
    chars_of,
    decimal,
    has_prefix,
    parse_unsigned,
    parse_window,
    push_bool,
    push_decimal,
    split_on,
    split_window,
    strip_char_window,
    strip_ends_window,
    strip_leading,
    strip_trailing,
    trim,
    trim_window,
    window_equals,
    window_has_prefix,
};

verus! {

// ── Shared reading steps ──

/// The inside of a record: trimmed, then stripped of leading `{` and
/// trailing `}`.
pub open spec fn record_body(json: Seq<char>) -> Seq<char> {
    strip_trailing(strip_leading(trim(json), '{'), '}')
}

/// The comma-separated fields of a flat record.
pub open spec fn record_fields(json: Seq<char>) -> Seq<Seq<char>> {
    split_on(record_body(json), ',')
}

/// Fields joined by commas.
pub open spec fn join_fields(fs: Seq<Seq<char>>) -> Seq<char>
    decreases fs.len(),
{
    if fs.len() == 0 {
        Seq::empty()
    } else if fs.len() == 1 {
        fs[0]
    } else {
        join_fields(fs.drop_last()) + seq![','] + fs.last()
    }
}

/// A flat record: its fields joined by commas, in braces.
pub open spec fn record_text(fs: Seq<Seq<char>>) -> Seq<char> {
    seq!['{'] + join_fields(fs) + seq!['}']
}

/// A number read from a field, or 0 when it does not read.
pub open spec fn number_or_zero(t: Seq<char>, max: nat) -> nat {
    match parse_unsigned(t, max) {
        Some(n) => n,
        None => 0,
    }
}

/// A flag read from a field: exactly `true` after trimming.
pub open spec fn flag_of(t: Seq<char>) -> bool {
    trim(t) == "true"@
}

fn body_window(v: &Vec<char>) -> (r: (usize, usize))
    ensures
        r.0 <= r.1 <= v@.len(),
        v@.subrange(r.0 as int, r.1 as int) == record_body(v@),
{
    let (a, b) = trim_window(v, 0, v.len());
    assert(v@.subrange(0, v@.len() as int) =~= v@);
    strip_ends_window(v, a, b, '{', '}')
}

/// When the trimmed window starts with `key`: the bounds of what follows.
fn field_after(v: &Vec<char>, lo: usize, hi: usize, key: &str) -> (r: Option<(usize, usize)>)
    requires
        lo <= hi <= v@.len(),
    ensures
        match r {
            Some(w) => {
                &&& has_prefix(trim(v@.subrange(lo as int, hi as int)), key@)
                &&& lo <= w.0 <= w.1 <= hi
                &&& v@.subrange(w.0 as int, w.1 as int) == after_prefix(
                    trim(v@.subrange(lo as int, hi as int)),
                    key@,
                )
            },
            None => !has_prefix(trim(v@.subrange(lo as int, hi as int)), key@),
        },
{
    let (a, b) = trim_window(v, lo, hi);
    if window_has_prefix(v, a, b, key) {
        let k = a + key.unicode_len();
        assert(v@.subrange(k as int, b as int) =~= after_prefix(
            v@.subrange(a as int, b as int),
            key@,
        ));
        Some((k, b))
    } else {
        None
    }
}

/// The flag in the window.
fn flag_window(v: &Vec<char>, lo: usize, hi: usize) -> (b: bool)
    requires
        lo <= hi <= v@.len(),
    ensures
        b == flag_of(v@.subrange(lo as int, hi as int)),
{
    let (c, d) = trim_window(v, lo, hi);
    window_equals(v, c, d, "true")
}

/// Appends a field made of `key` and a flag, after a comma unless it is
/// the first field.
fn push_flag_field(t: &mut String, first: bool, key: &str, b: bool)
    ensures
        final(t)@ == old(t)@ + (if first {
            Seq::<char>::empty()
        } else {
            seq![',']
        }) + (key@ + bool_text(b)),
{
    proof {
        reveal_strlit(",");
    }
    if !first {
        t.append(",");
    }
    t.append(key);
    push_bool(t, b);
    assert(final(t)@ =~= old(t)@ + (if first {
        Seq::<char>::empty()
    } else {
        seq![',']
    }) + (key@ + bool_text(b)));
}

/// Appends a field made of `key` and a number, after a comma unless it
/// is the first field.
fn push_number_field(t: &mut String, first: bool, key: &str, n: u64)
    ensures
        final(t)@ == old(t)@ + (if first {
            Seq::<char>::empty()
        } else {
            seq![',']
        }) + (key@ + decimal(n as nat)),
{
    proof {
        reveal_strlit(",");
    }
    if !first {
        t.append(",");
    }
    t.append(key);
    push_decimal(t, n);
    assert(final(t)@ =~= old(t)@ + (if first {
        Seq::<char>::empty()
    } else {
        seq![',']
    }) + (key@ + decimal(n as nat)));
}

/// The number in the window, or 0.
fn number_window(v: &Vec<char>, lo: usize, hi: usize, max: u64) -> (n: u64)
    requires
        lo <= hi <= v@.len(),
    ensures
        n == number_or_zero(trim(v@.subrange(lo as int, hi as int)), max as nat),
        n <= max,
{
    let (c, d) = trim_window(v, lo, hi);
    match parse_window(v, c, d, max) {
        Some(n) => n,
        None => 0,
    }
}

// ── Settings ──

pub open spec fn settings_apply(s: GameSettings, part: Seq<char>) -> GameSettings {
    let p = trim(part);
    if has_prefix(p, "\"shake\":"@) {
        GameSettings { screen_shake: flag_of(after_prefix(p, "\"shake\":"@)), ..s }
    } else if has_prefix(p, "\"particles\":"@) {
        GameSettings {
            particle_density: ParticleDensity::spec_from_name(
                strip_trailing(strip_leading(trim(after_prefix(p, "\"particles\":"@)), '"'), '"'),
            ),
            ..s
        }
    } else if has_prefix(p, "\"damage_numbers\":"@) {
        GameSettings { show_damage_numbers: flag_of(after_prefix(p, "\"damage_numbers\":"@)), ..s }
    } else if has_prefix(p, "\"range_hover\":"@) {
        GameSettings { show_range_on_hover: flag_of(after_prefix(p, "\"range_hover\":"@)), ..s }
    } else if has_prefix(p, "\"reduce_motion\":"@) {
        GameSettings { reduce_motion: flag_of(after_prefix(p, "\"reduce_motion\":"@)), ..s }
    } else {
        s
    }
}

impl GameSettings {
    /// The settings read from saved text.
    pub open spec fn spec_from_json(json: Seq<char>) -> GameSettings {
        settings_from_fields(record_fields(json))
    }
}

/// The settings that a list of fields sets, starting from the defaults.
pub open spec fn settings_from_fields(parts: Seq<Seq<char>>) -> GameSettings
    decreases parts.len(),
{
    if parts.len() == 0 {
        GameSettings::spec_default()
    } else {
        settings_apply(settings_from_fields(parts.drop_last()), parts.last())
    }
}

/// The fields in which settings are saved, in order.
pub open spec fn settings_fields(s: GameSettings) -> Seq<Seq<char>> {
    seq![
        "\"shake\":"@ + bool_text(s.screen_shake),
        "\"particles\":"@ + ("\""@ + s.particle_density.spec_name() + "\""@),
        "\"damage_numbers\":"@ + bool_text(s.show_damage_numbers),
        "\"range_hover\":"@ + bool_text(s.show_range_on_hover),
        "\"reduce_motion\":"@ + bool_text(s.reduce_motion),
    ]
}

/// The saved text of settings.
pub open spec fn settings_text(s: GameSettings) -> Seq<char> {
    record_text(settings_fields(s))
}

fn settings_apply_window(v: &Vec<char>, lo: usize, hi: usize, s: GameSettings) -> (r:
    GameSettings)
    requires
        lo <= hi <= v@.len(),
    ensures
        r == settings_apply(s, v@.subrange(lo as int, hi as int)),
{
    let mut r = s;
    if let Some((a, b)) = field_after(v, lo, hi, "\"shake\":") {
        r.screen_shake = flag_window(v, a, b);
    } else if let Some((a, b)) = field_after(v, lo, hi, "\"particles\":") {
        let (c, d) = trim_window(v, a, b);
        let (e, f) = strip_char_window(v, c, d, '"');
        let mut name = Vec::new();
        let mut i = e;
        while i < f
            invariant
                e <= i <= f <= v@.len(),
                name@ == v@.subrange(e as int, i as int),
            decreases f - i,
        {
            name.push(v[i]);
            i = i + 1;
            assert(name@ =~= v@.subrange(e as int, i as int));
        }
        r.particle_density = density_of_chars(&name);
    } else if let Some((a, b)) = field_after(v, lo, hi, "\"damage_numbers\":") {
        r.show_damage_numbers = flag_window(v, a, b);
    } else if let Some((a, b)) = field_after(v, lo, hi, "\"range_hover\":") {
        r.show_range_on_hover = flag_window(v, a, b);
    } else if let Some((a, b)) = field_after(v, lo, hi, "\"reduce_motion\":") {
        r.reduce_motion = flag_window(v, a, b);
    }
    r
}

fn density_of_chars(name: &Vec<char>) -> (d: ParticleDensity)
    ensures
        d == ParticleDensity::spec_from_name(name@),
{
    let n = name.len();
    if window_equals(name, 0, n, "LOW") {
        assert(name@.subrange(0, n as int) =~= name@);
        ParticleDensity::Low
    } else if window_equals(name, 0, n, "MED") {
        assert(name@.subrange(0, n as int) =~= name@);
        ParticleDensity::Medium
    } else if window_equals(name, 0, n, "HIGH") {
        assert(name@.subrange(0, n as int) =~= name@);
        ParticleDensity::High
    } else {
        assert(name@.subrange(0, n as int) =~= name@);
        ParticleDensity::Medium
    }
}

impl GameSettings {
    /// The saved text of these settings.
    #[verifier::spinoff_prover]
    pub fn to_json(&self) -> (t: String)
        ensures
            t@ == settings_text(*self),
    {
        let ghost fs = settings_fields(*self);
        proof {
            reveal_strlit("{");
            reveal_strlit(",");
            reveal_strlit("}");
            reveal_strlit("\"");
        }
        let mut t = String::from_str("{");
        push_flag_field(&mut t, true, "\"shake\":", self.screen_shake);
        proof {
            lemma_record_step(fs, 0);
            assert(t@ =~= seq!['{'] + join_fields(fs.take(1)));
        }
        let ghost before = t@;
        t.append(",");
        t.append("\"particles\":");
        t.append("\"");
        t.append(self.particle_density.name());
        t.append("\"");
        proof {
            lemma_record_step(fs, 1);
            assert(t@ =~= before + seq![','] + fs[1]);
        }
        push_flag_field(&mut t, false, "\"damage_numbers\":", self.show_damage_numbers);
        proof {
            lemma_record_step(fs, 2);
        }
        push_flag_field(&mut t, false, "\"range_hover\":", self.show_range_on_hover);
        proof {
            lemma_record_step(fs, 3);
        }
        push_flag_field(&mut t, false, "\"reduce_motion\":", self.reduce_motion);
        proof {
            lemma_record_step(fs, 4);
            assert(fs.take(5) =~= fs);
        }
        t.append("}");
        t
    }

    /// Reads saved settings. Each known field sets its setting; unknown
    /// fields are ignored and missing ones keep their default.
    pub fn from_json(json: &str) -> (s: GameSettings)
        ensures
            s == GameSettings::spec_from_json(json@),
    {
        let v = chars_of(json);
        let (lo, hi) = body_window(&v);
        let parts = split_window(&v, lo, hi, ',');
        let ghost fields = record_fields(json@);
        let mut s = GameSettings::default();
        let mut k: usize = 0;
        assert(fields.take(0) =~= Seq::<Seq<char>>::empty());
        while k < parts.len()
            invariant
                v@ == json@,
                k <= parts@.len(),
                parts@.len() == fields.len(),
                fields == split_on(v@.subrange(lo as int, hi as int), ','),
                forall|i: int|
                    0 <= i < parts@.len() ==> {
                        &&& lo <= (#[trigger] parts@[i]).0 <= parts@[i].1 <= hi
                        &&& v@.subrange(parts@[i].0 as int, parts@[i].1 as int) == fields[i]
                    },
                hi <= v@.len(),
                s == settings_from_fields(fields.take(k as int)),
            decreases parts@.len() - k,
        {
            let (a, b) = parts[k];
            s = settings_apply_window(&v, a, b, s);
            assert(fields.take(k + 1).drop_last() =~= fields.take(k as int));
            k = k + 1;
        }
        assert(fields.take(k as int) =~= fields);
        s
    }
}

// ── Reading back what was written ──

/// Opening brace and the first `k + 1` fields, written one after another.
pub proof fn lemma_record_step(fs: Seq<Seq<char>>, k: int)
    requires
        0 <= k < fs.len(),
    ensures
        k == 0 ==> seq!['{'] + join_fields(fs.take(1)) == seq!['{'] + fs[0],
        k > 0 ==> seq!['{'] + join_fields(fs.take(k + 1)) == seq!['{'] + join_fields(
            fs.take(k),
        ) + seq![','] + fs[k],
{
    if k == 0 {
        assert(fs.take(1).len() == 1);
        assert(fs.take(1)[0] == fs[0]);
    } else {
        assert(fs.take(k + 1).drop_last() =~= fs.take(k));
        assert(fs.take(k + 1).last() == fs[k]);
        assert(seq!['{'] + join_fields(fs.take(k + 1)) =~= seq!['{'] + join_fields(fs.take(k))
            + seq![','] + fs[k]);
    }
}

pub open spec fn no_comma(f: Seq<char>) -> bool {
    forall|i: int| 0 <= i < f.len() ==> #[trigger] f[i] != ','
}

proof fn lemma_join_shape(fs: Seq<Seq<char>>)
    requires
        fs.len() >= 1,
        fs[0].len() > 0,
        fs.last().len() > 0,
    ensures
        join_fields(fs).len() > 0,
        join_fields(fs)[0] == fs[0][0],
        join_fields(fs).last() == fs.last().last(),
{
    if fs.len() > 1 {
        lemma_join_shape_first(fs.drop_last());
    }
}

proof fn lemma_join_shape_first(fs: Seq<Seq<char>>)
    requires
        fs.len() >= 1,
        fs[0].len() > 0,
    ensures
        join_fields(fs).len() > 0,
        join_fields(fs)[0] == fs[0][0],
    decreases fs.len(),
{
    if fs.len() > 1 {
        let init = fs.drop_last();
        lemma_join_shape_first(init);
    }
}

/// Splitting fields without commas, joined by commas, gives them back.
pub proof fn lemma_split_join(fs: Seq<Seq<char>>)
    requires
        fs.len() >= 1,
        forall|i: int| 0 <= i < fs.len() ==> no_comma(#[trigger] fs[i]),
    ensures
        split_on(join_fields(fs), ',') == fs,
    decreases fs.len(),
{
    if fs.len() == 1 {
        lemma_split_single(fs[0], ',');
        assert(seq![fs[0]] =~= fs);
    } else {
        let init = fs.drop_last();
        assert forall|i: int| 0 <= i < init.len() implies no_comma(#[trigger] init[i]) by {
            assert(init[i] == fs[i]);
        }
        lemma_split_join(init);
        assert(no_comma(fs[fs.len() - 1]));
        lemma_split_single(fs.last(), ',');
        lemma_split_concat(join_fields(init), fs.last(), ',');
        assert(init.push(fs.last()) =~= fs);
    }
}

/// The fields of a written record read back as written, when none holds a
/// comma, the first begins with neither a space nor `{`, and the last ends
/// with neither a space nor `}`.
pub proof fn lemma_record_roundtrip(fs: Seq<Seq<char>>)
    requires
        fs.len() >= 1,
        forall|i: int| 0 <= i < fs.len() ==> no_comma(#[trigger] fs[i]),
        fs[0].len() > 0,
        !is_space(fs[0][0]),
        fs[0][0] != '{',
        fs.last().len() > 0,
        !is_space(fs.last().last()),
        fs.last().last() != '}',
    ensures
        record_fields(record_text(fs)) == fs,
{
    let j = join_fields(fs);
    let t = record_text(fs);
    lemma_join_shape(fs);
    lemma_trim_unchanged(t);
    assert(t.drop_first() =~= j + seq!['}']);
    assert(strip_leading(t.drop_first(), '{') == t.drop_first());
    assert((j + seq!['}']).drop_last() =~= j);
    assert(strip_trailing(j, '}') == j);
    assert(record_body(t) == j);
    lemma_split_join(fs);
}

proof fn lemma_bool_text(b: bool)
    ensures
        bool_text(b).len() > 0,
        !is_space(bool_text(b)[0]),
        !is_space(bool_text(b).last()),
        bool_text(b).last() != '}',
        no_comma(bool_text(b)),
        trim(bool_text(b)) == bool_text(b),
        flag_of(bool_text(b)) == b,
{
    reveal_strlit("true");
    reveal_strlit("false");
    lemma_trim_unchanged(bool_text(b));
    if !b {
        assert(bool_text(b).len() != "true"@.len());
    }
}

/// A field: `key` followed by a flag.
proof fn lemma_flag_field(key: Seq<char>, b: bool)
    requires
        key.len() > 0,
        !is_space(key[0]),
        no_comma(key),
    ensures
        ({
            let f = key + bool_text(b);
            &&& no_comma(f)
            &&& trim(f) == f
            &&& has_prefix(f, key)
            &&& flag_of(after_prefix(f, key)) == b
            &&& f.last() == bool_text(b).last()
            &&& !is_space(f.last())
            &&& f.last() != '}'
            &&& f[0] == key[0]
        }),
{
    let f = key + bool_text(b);
    lemma_bool_text(b);
    assert forall|i: int| 0 <= i < f.len() implies #[trigger] f[i] != ',' by {
        if i >= key.len() {
            assert(f[i] == bool_text(b)[i - key.len()]);
        }
    }
    assert(f.last() == bool_text(b).last());
    lemma_trim_unchanged(f);
    lemma_prefix_concat(key, bool_text(b));
}

proof fn lemma_settings_field_facts(s: GameSettings)
    ensures
        ({
            let fs = settings_fields(s);
            &&& fs.len() == 5
            &&& forall|i: int| 0 <= i < fs.len() ==> no_comma(#[trigger] fs[i])
            &&& forall|i: int| 0 <= i < fs.len() ==> trim(#[trigger] fs[i]) == fs[i]
            &&& fs[0].len() > 0 && fs[0][0] == '"'
            &&& fs[4].len() > 0 && !is_space(fs[4].last()) && fs[4].last() != '}'
            &&& has_prefix(fs[0], "\"shake\":"@)
            &&& flag_of(after_prefix(fs[0], "\"shake\":"@)) == s.screen_shake
            &&& has_prefix(fs[1], "\"particles\":"@)
            &&& ParticleDensity::spec_from_name(
                strip_trailing(
                    strip_leading(trim(after_prefix(fs[1], "\"particles\":"@)), '"'),
                    '"',
                ),
            ) == s.particle_density
            &&& has_prefix(fs[2], "\"damage_numbers\":"@)
            &&& flag_of(after_prefix(fs[2], "\"damage_numbers\":"@)) == s.show_damage_numbers
            &&& has_prefix(fs[3], "\"range_hover\":"@)
            &&& flag_of(after_prefix(fs[3], "\"range_hover\":"@)) == s.show_range_on_hover
            &&& has_prefix(fs[4], "\"reduce_motion\":"@)
            &&& flag_of(after_prefix(fs[4], "\"reduce_motion\":"@)) == s.reduce_motion
            &&& !has_prefix(fs[1], "\"shake\":"@)
            &&& !has_prefix(fs[2], "\"shake\":"@)
            &&& !has_prefix(fs[2], "\"particles\":"@)
            &&& !has_prefix(fs[3], "\"shake\":"@)
            &&& !has_prefix(fs[3], "\"particles\":"@)
            &&& !has_prefix(fs[3], "\"damage_numbers\":"@)
            &&& !has_prefix(fs[4], "\"shake\":"@)
            &&& !has_prefix(fs[4], "\"particles\":"@)
            &&& !has_prefix(fs[4], "\"damage_numbers\":"@)
            &&& !has_prefix(fs[4], "\"range_hover\":"@)
        }),
{
    reveal_strlit("\"shake\":");
    reveal_strlit("\"particles\":");
    reveal_strlit("\"damage_numbers\":");
    reveal_strlit("\"range_hover\":");
    reveal_strlit("\"reduce_motion\":");
    reveal_strlit("\"");
    reveal_strlit("LOW");
    reveal_strlit("MED");
    reveal_strlit("HIGH");
    let fs = settings_fields(s);
    let k1 = "\"shake\":"@;
    let k2 = "\"particles\":"@;
    let k3 = "\"damage_numbers\":"@;
    let k4 = "\"range_hover\":"@;
    let k5 = "\"reduce_motion\":"@;
    assert(no_comma(k1));
    assert(no_comma(k3));
    assert(no_comma(k4));
    assert(no_comma(k5));
    lemma_flag_field(k1, s.screen_shake);
    lemma_flag_field(k3, s.show_damage_numbers);
    lemma_flag_field(k4, s.show_range_on_hover);
    lemma_flag_field(k5, s.reduce_motion);
    // The density field.
    let name = s.particle_density.spec_name();
    let q = "\""@;
    let inner = q + name + q;
    let f2 = k2 + inner;
    assert(f2 == fs[1]);
    assert forall|i: int| 0 <= i < f2.len() implies #[trigger] f2[i] != ',' by {
        if i >= k2.len() {
            assert(f2[i] == inner[i - k2.len()]);
        }
    }
    lemma_prefix_concat(k2, inner);
    assert(f2.last() == '"');
    lemma_trim_unchanged(f2);
    lemma_trim_unchanged(inner);
    assert(inner.drop_first() =~= name + q);
    assert(strip_leading(inner.drop_first(), '"') == inner.drop_first());
    assert((name + q).drop_last() =~= name);
    assert(strip_trailing(name, '"') == name);
    crate::persistence::lemma_density_name_roundtrip(s.particle_density);
    assert forall|i: int| 0 <= i < fs.len() implies no_comma(#[trigger] fs[i]) && trim(fs[i])
        == fs[i] by {
        if i == 0 {
        } else if i == 1 {
        } else if i == 2 {
        } else if i == 3 {
        } else {
        }
    }
    // Fields are told apart by their keys.
    lemma_not_prefix(fs[1], k1, 1);
    lemma_not_prefix(fs[2], k1, 1);
    lemma_not_prefix(fs[2], k2, 1);
    lemma_not_prefix(fs[3], k1, 1);
    lemma_not_prefix(fs[3], k2, 1);
    lemma_not_prefix(fs[3], k3, 1);
    lemma_not_prefix(fs[4], k1, 1);
    lemma_not_prefix(fs[4], k2, 1);
    lemma_not_prefix(fs[4], k3, 1);
    lemma_not_prefix(fs[4], k4, 2);
}

/// Reading the saved text of settings gives the same settings.
#[verifier::spinoff_prover]
#[verifier::rlimit(30)]
pub proof fn lemma_settings_roundtrip(s: GameSettings)
    ensures
        GameSettings::spec_from_json(settings_text(s)) == s,
{
    let fs = settings_fields(s);
    lemma_settings_field_facts(s);
    lemma_record_roundtrip(fs);
    let d = GameSettings::spec_default();
    assert(fs.take(1).drop_last() =~= Seq::<Seq<char>>::empty());
    assert(settings_from_fields(Seq::<Seq<char>>::empty()) == d);
    assert(fs.take(1).last() == fs[0]);
    assert(fs.take(2).last() == fs[1]);
    assert(fs.take(3).last() == fs[2]);
    assert(fs.take(4).last() == fs[3]);
    assert(fs.take(2).drop_last() =~= fs.take(1));
    assert(fs.take(3).drop_last() =~= fs.take(2));
    assert(fs.take(4).drop_last() =~= fs.take(3));
    assert(fs.drop_last() =~= fs.take(4));
    assert(settings_from_fields(fs.take(1)) == settings_apply(d, fs[0]));
    assert(settings_from_fields(fs.take(2)) == settings_apply(settings_from_fields(fs.take(1)), fs[1]));
    assert(settings_from_fields(fs.take(3)) == settings_apply(settings_from_fields(fs.take(2)), fs[2]));
    assert(settings_from_fields(fs.take(4)) == settings_apply(settings_from_fields(fs.take(3)), fs[3]));
    assert(settings_from_fields(fs) == settings_apply(settings_from_fields(fs.take(4)), fs[4]));
}

// ── Tips shown ──

pub open spec fn tips_apply(t: TipsShown, part: Seq<char>) -> TipsShown {
    let p = trim(part);
    if has_prefix(p, "\"spec\":"@) {
        TipsShown { specialization: flag_of(after_prefix(p, "\"spec\":"@)), ..t }
    } else if has_prefix(p, "\"syn\":"@) {
        TipsShown { synergy: flag_of(after_prefix(p, "\"syn\":"@)), ..t }
    } else if has_prefix(p, "\"early\":"@) {
        TipsShown { early_send: flag_of(after_prefix(p, "\"early\":"@)), ..t }
    } else if has_prefix(p, "\"targ\":"@) {
        TipsShown { targeting: flag_of(after_prefix(p, "\"targ\":"@)), ..t }
    } else if has_prefix(p, "\"welcome\":"@) {
        TipsShown { welcome: flag_of(after_prefix(p, "\"welcome\":"@)), ..t }
    } else if has_prefix(p, "\"economy\":"@) {
        TipsShown { economy: flag_of(after_prefix(p, "\"economy\":"@)), ..t }
    } else {
        t
    }
}

/// No tip shown.
pub open spec fn tips_none() -> TipsShown {
    TipsShown {
        specialization: false,
        synergy: false,
        early_send: false,
        targeting: false,
        welcome: false,
        economy: false,
    }
}

pub open spec fn tips_from_fields(parts: Seq<Seq<char>>) -> TipsShown
    decreases parts.len(),
{
    if parts.len() == 0 {
        tips_none()
    } else {
        tips_apply(tips_from_fields(parts.drop_last()), parts.last())
    }
}

pub open spec fn tips_fields(t: TipsShown) -> Seq<Seq<char>> {
    seq![
        "\"spec\":"@ + bool_text(t.specialization),
        "\"syn\":"@ + bool_text(t.synergy),
        "\"early\":"@ + bool_text(t.early_send),
        "\"targ\":"@ + bool_text(t.targeting),
        "\"welcome\":"@ + bool_text(t.welcome),
        "\"economy\":"@ + bool_text(t.economy),
    ]
}

fn tips_apply_window(v: &Vec<char>, lo: usize, hi: usize, t: TipsShown) -> (r: TipsShown)
    requires
        lo <= hi <= v@.len(),
    ensures
        r == tips_apply(t, v@.subrange(lo as int, hi as int)),
{
    let mut r = t;
    if let Some((a, b)) = field_after(v, lo, hi, "\"spec\":") {
        r.specialization = flag_window(v, a, b);
    } else if let Some((a, b)) = field_after(v, lo, hi, "\"syn\":") {
        r.synergy = flag_window(v, a, b);
    } else if let Some((a, b)) = field_after(v, lo, hi, "\"early\":") {
        r.early_send = flag_window(v, a, b);
    } else if let Some((a, b)) = field_after(v, lo, hi, "\"targ\":") {
        r.targeting = flag_window(v, a, b);
    } else if let Some((a, b)) = field_after(v, lo, hi, "\"welcome\":") {
        r.welcome = flag_window(v, a, b);
    } else if let Some((a, b)) = field_after(v, lo, hi, "\"economy\":") {
        r.economy = flag_window(v, a, b);
    }
    r
}

impl TipsShown {
    pub open spec fn spec_from_json(json: Seq<char>) -> TipsShown {
        tips_from_fields(record_fields(json))
    }

    /// The saved text of the shown tips.
    #[verifier::spinoff_prover]
    pub fn to_json(&self) -> (j: String)
        ensures
            j@ == record_text(tips_fields(*self)),
    {
        let ghost fs = tips_fields(*self);
        proof {
            reveal_strlit("{");
            reveal_strlit("}");
        }
        let mut j = String::from_str("{");
        push_flag_field(&mut j, true, "\"spec\":", self.specialization);
        proof {
            lemma_record_step(fs, 0);
            assert(j@ =~= seq!['{'] + join_fields(fs.take(1)));
        }
        push_flag_field(&mut j, false, "\"syn\":", self.synergy);
        proof {
            lemma_record_step(fs, 1);
        }
        push_flag_field(&mut j, false, "\"early\":", self.early_send);
        proof {
            lemma_record_step(fs, 2);
        }
        push_flag_field(&mut j, false, "\"targ\":", self.targeting);
        proof {
            lemma_record_step(fs, 3);
        }
        push_flag_field(&mut j, false, "\"welcome\":", self.welcome);
        proof {
            lemma_record_step(fs, 4);
        }
        push_flag_field(&mut j, false, "\"economy\":", self.economy);
        proof {
            lemma_record_step(fs, 5);
            assert(fs.take(6) =~= fs);
        }
        j.append("}");
        j
    }

    /// Reads saved tips; each known field sets its flag, unknown fields
    /// are ignored and missing ones stay unshown.
    pub fn from_json(json: &str) -> (t: TipsShown)
        ensures
            t == TipsShown::spec_from_json(json@),
    {
        let v = chars_of(json);
        let (lo, hi) = body_window(&v);
        let parts = split_window(&v, lo, hi, ',');
        let ghost fields = record_fields(json@);
        let mut t = TipsShown::new();
        let mut k: usize = 0;
        assert(fields.take(0) =~= Seq::<Seq<char>>::empty());
        while k < parts.len()
            invariant
                v@ == json@,
                k <= parts@.len(),
                parts@.len() == fields.len(),
                fields == split_on(v@.subrange(lo as int, hi as int), ','),
                forall|i: int|
                    0 <= i < parts@.len() ==> {
                        &&& lo <= (#[trigger] parts@[i]).0 <= parts@[i].1 <= hi
                        &&& v@.subrange(parts@[i].0 as int, parts@[i].1 as int) == fields[i]
                    },
                hi <= v@.len(),
                t == tips_from_fields(fields.take(k as int)),
            decreases parts@.len() - k,
        {
            let (a, b) = parts[k];
            t = tips_apply_window(&v, a, b, t);
            assert(fields.take(k + 1).drop_last() =~= fields.take(k as int));
            k = k + 1;
        }
        assert(fields.take(k as int) =~= fields);
        t
    }
}

proof fn lemma_tips_field_facts(t: TipsShown)
    ensures
        ({
            let fs = tips_fields(t);
            &&& fs.len() == 6
            &&& forall|i: int| 0 <= i < fs.len() ==> no_comma(#[trigger] fs[i])
            &&& forall|i: int| 0 <= i < fs.len() ==> trim(#[trigger] fs[i]) == fs[i]
            &&& fs[0].len() > 0 && fs[0][0] == '"'
            &&& fs[5].len() > 0 && !is_space(fs[5].last()) && fs[5].last() != '}'
            &&& has_prefix(fs[0], "\"spec\":"@)
            &&& flag_of(after_prefix(fs[0], "\"spec\":"@)) == t.specialization
            &&& has_prefix(fs[1], "\"syn\":"@)
            &&& flag_of(after_prefix(fs[1], "\"syn\":"@)) == t.synergy
            &&& has_prefix(fs[2], "\"early\":"@)
            &&& flag_of(after_prefix(fs[2], "\"early\":"@)) == t.early_send
            &&& has_prefix(fs[3], "\"targ\":"@)
            &&& flag_of(after_prefix(fs[3], "\"targ\":"@)) == t.targeting
            &&& has_prefix(fs[4], "\"welcome\":"@)
            &&& flag_of(after_prefix(fs[4], "\"welcome\":"@)) == t.welcome
            &&& has_prefix(fs[5], "\"economy\":"@)
            &&& flag_of(after_prefix(fs[5], "\"economy\":"@)) == t.economy
            &&& !has_prefix(fs[1], "\"spec\":"@)
            &&& !has_prefix(fs[2], "\"spec\":"@)
            &&& !has_prefix(fs[2], "\"syn\":"@)
            &&& !has_prefix(fs[3], "\"spec\":"@)
            &&& !has_prefix(fs[3], "\"syn\":"@)
            &&& !has_prefix(fs[3], "\"early\":"@)
            &&& !has_prefix(fs[4], "\"spec\":"@)
            &&& !has_prefix(fs[4], "\"syn\":"@)
            &&& !has_prefix(fs[4], "\"early\":"@)
            &&& !has_prefix(fs[4], "\"targ\":"@)
            &&& !has_prefix(fs[5], "\"spec\":"@)
            &&& !has_prefix(fs[5], "\"syn\":"@)
            &&& !has_prefix(fs[5], "\"early\":"@)
            &&& !has_prefix(fs[5], "\"targ\":"@)
            &&& !has_prefix(fs[5], "\"welcome\":"@)
        }),
{
    reveal_strlit("\"spec\":");
    reveal_strlit("\"syn\":");
    reveal_strlit("\"early\":");
    reveal_strlit("\"targ\":");
    reveal_strlit("\"welcome\":");
    reveal_strlit("\"economy\":");
    let fs = tips_fields(t);
    let k0 = "\"spec\":"@;
    let k1 = "\"syn\":"@;
    let k2 = "\"early\":"@;
    let k3 = "\"targ\":"@;
    let k4 = "\"welcome\":"@;
    let k5 = "\"economy\":"@;
    assert(no_comma(k0));
    assert(no_comma(k1));
    assert(no_comma(k2));
    assert(no_comma(k3));
    assert(no_comma(k4));
    assert(no_comma(k5));
    lemma_flag_field(k0, t.specialization);
    lemma_flag_field(k1, t.synergy);
    lemma_flag_field(k2, t.early_send);
    lemma_flag_field(k3, t.targeting);
    lemma_flag_field(k4, t.welcome);
    lemma_flag_field(k5, t.economy);
    assert forall|i: int| 0 <= i < fs.len() implies no_comma(#[trigger] fs[i]) && trim(fs[i])
        == fs[i] by {
        if i == 0 {
        } else if i == 1 {
        } else if i == 2 {
        } else if i == 3 {
        } else if i == 4 {
        } else {
        }
    }
    lemma_not_prefix(fs[1], k0, 2);
    lemma_not_prefix(fs[2], k0, 1);
    lemma_not_prefix(fs[2], k1, 1);
    lemma_not_prefix(fs[3], k0, 1);
    lemma_not_prefix(fs[3], k1, 1);
    lemma_not_prefix(fs[3], k2, 1);
    lemma_not_prefix(fs[4], k0, 1);
    lemma_not_prefix(fs[4], k1, 1);
    lemma_not_prefix(fs[4], k2, 1);
    lemma_not_prefix(fs[4], k3, 1);
    lemma_not_prefix(fs[5], k0, 1);
    lemma_not_prefix(fs[5], k1, 1);
    lemma_not_prefix(fs[5], k2, 2);
    lemma_not_prefix(fs[5], k3, 1);
    lemma_not_prefix(fs[5], k4, 1);
}

/// Reading the saved text of the shown tips gives the same flags.
#[verifier::spinoff_prover]
#[verifier::rlimit(30)]
pub proof fn lemma_tips_roundtrip(t: TipsShown)
    ensures
        TipsShown::spec_from_json(record_text(tips_fields(t))) == t,
{
    let fs = tips_fields(t);
    lemma_tips_field_facts(t);
    lemma_record_roundtrip(fs);
    assert(fs.take(1).drop_last() =~= Seq::<Seq<char>>::empty());
    assert(tips_from_fields(Seq::<Seq<char>>::empty()) == tips_none());
    assert(fs.take(2).drop_last() =~= fs.take(1));
    assert(fs.take(3).drop_last() =~= fs.take(2));
    assert(fs.take(4).drop_last() =~= fs.take(3));
    assert(fs.take(5).drop_last() =~= fs.take(4));
    assert(fs.drop_last() =~= fs.take(5));
    assert(fs.take(1).last() == fs[0]);
    assert(fs.take(2).last() == fs[1]);
    assert(fs.take(3).last() == fs[2]);
    assert(fs.take(4).last() == fs[3]);
    assert(fs.take(5).last() == fs[4]);
    assert(tips_from_fields(fs.take(1)) == tips_apply(tips_none(), fs[0]));
    assert(tips_from_fields(fs.take(2)) == tips_apply(tips_from_fields(fs.take(1)), fs[1]));
    assert(tips_from_fields(fs.take(3)) == tips_apply(tips_from_fields(fs.take(2)), fs[2]));
    assert(tips_from_fields(fs.take(4)) == tips_apply(tips_from_fields(fs.take(3)), fs[3]));
    assert(tips_from_fields(fs.take(5)) == tips_apply(tips_from_fields(fs.take(4)), fs[4]));
    assert(tips_from_fields(fs) == tips_apply(tips_from_fields(fs.take(5)), fs[5]));
}

// ── Lifetime statistics ──

pub open spec fn lifetime_apply(t: LifetimeStats, part: Seq<char>) -> LifetimeStats {
    let p = trim(part);
    if has_prefix(p, "\"games\":"@) {
        LifetimeStats {
            total_games: number_or_zero(trim(after_prefix(p, "\"games\":"@)), u32::MAX as nat) as u32,
            ..t
        }
    } else if has_prefix(p, "\"kills\":"@) {
        LifetimeStats {
            total_kills: number_or_zero(trim(after_prefix(p, "\"kills\":"@)), u32::MAX as nat) as u32,
            ..t
        }
    } else if has_prefix(p, "\"waves\":"@) {
        LifetimeStats {
            total_waves: number_or_zero(trim(after_prefix(p, "\"waves\":"@)), u32::MAX as nat) as u32,
            ..t
        }
    } else if has_prefix(p, "\"gold\":"@) {
        LifetimeStats {
            total_gold_earned: number_or_zero(trim(after_prefix(p, "\"gold\":"@)), u32::MAX as nat)
                as u32,
            ..t
        }
    } else if has_prefix(p, "\"best_wave\":"@) {
        LifetimeStats {
            best_wave_ever: number_or_zero(trim(after_prefix(p, "\"best_wave\":"@)), usize::MAX as nat)
                as usize,
            ..t
        }
    } else {
        t
    }
}

/// All totals zero.
pub open spec fn lifetime_zero() -> LifetimeStats {
    LifetimeStats {
        total_games: 0,
        total_kills: 0,
        total_waves: 0,
        total_gold_earned: 0,
        best_wave_ever: 0,
    }
}

pub open spec fn lifetime_from_fields(parts: Seq<Seq<char>>) -> LifetimeStats
    decreases parts.len(),
{
    if parts.len() == 0 {
        lifetime_zero()
    } else {
        lifetime_apply(lifetime_from_fields(parts.drop_last()), parts.last())
    }
}

pub open spec fn lifetime_fields(t: LifetimeStats) -> Seq<Seq<char>> {
    seq![
        "\"games\":"@ + decimal(t.total_games as nat),
        "\"kills\":"@ + decimal(t.total_kills as nat),
        "\"waves\":"@ + decimal(t.total_waves as nat),
        "\"gold\":"@ + decimal(t.total_gold_earned as nat),
        "\"best_wave\":"@ + decimal(t.best_wave_ever as nat),
    ]
}

fn lifetime_apply_window(v: &Vec<char>, lo: usize, hi: usize, t: LifetimeStats) -> (r:
    LifetimeStats)
    requires
        lo <= hi <= v@.len(),
    ensures
        r == lifetime_apply(t, v@.subrange(lo as int, hi as int)),
{
    let mut r = t;
    if let Some((a, b)) = field_after(v, lo, hi, "\"games\":") {
        r.total_games = number_window(v, a, b, u32::MAX as u64) as u32;
    } else if let Some((a, b)) = field_after(v, lo, hi, "\"kills\":") {
        r.total_kills = number_window(v, a, b, u32::MAX as u64) as u32;
    } else if let Some((a, b)) = field_after(v, lo, hi, "\"waves\":") {
        r.total_waves = number_window(v, a, b, u32::MAX as u64) as u32;
    } else if let Some((a, b)) = field_after(v, lo, hi, "\"gold\":") {
        r.total_gold_earned = number_window(v, a, b, u32::MAX as u64) as u32;
    } else if let Some((a, b)) = field_after(v, lo, hi, "\"best_wave\":") {
        r.best_wave_ever = number_window(v, a, b, usize::MAX as u64) as usize;
    }
    r
}

impl LifetimeStats {
    pub open spec fn spec_from_json(json: Seq<char>) -> LifetimeStats {
        lifetime_from_fields(record_fields(json))
    }

    /// The saved text of the totals.
    #[verifier::spinoff_prover]
    pub fn to_json(&self) -> (j: String)
        ensures
            j@ == record_text(lifetime_fields(*self)),
    {
        let ghost fs = lifetime_fields(*self);
        proof {
            reveal_strlit("{");
            reveal_strlit("}");
        }
        let mut j = String::from_str("{");
        push_number_field(&mut j, true, "\"games\":", self.total_games as u64);
        proof {
            lemma_record_step(fs, 0);
            assert(j@ =~= seq!['{'] + join_fields(fs.take(1)));
        }
        push_number_field(&mut j, false, "\"kills\":", self.total_kills as u64);
        proof {
            lemma_record_step(fs, 1);
        }
        push_number_field(&mut j, false, "\"waves\":", self.total_waves as u64);
        proof {
            lemma_record_step(fs, 2);
        }
        push_number_field(&mut j, false, "\"gold\":", self.total_gold_earned as u64);
        proof {
            lemma_record_step(fs, 3);
        }
        push_number_field(&mut j, false, "\"best_wave\":", self.best_wave_ever as u64);
        proof {
            lemma_record_step(fs, 4);
            assert(fs.take(5) =~= fs);
        }
        j.append("}");
        j
    }

    /// Reads saved totals; each known field sets its total (0 when its
    /// number does not read), unknown fields are ignored.
    pub fn from_json(json: &str) -> (t: LifetimeStats)
        ensures
            t == LifetimeStats::spec_from_json(json@),
    {
        let v = chars_of(json);
        let (lo, hi) = body_window(&v);
        let parts = split_window(&v, lo, hi, ',');
        let ghost fields = record_fields(json@);
        let mut t = LifetimeStats::new();
        let mut k: usize = 0;
        assert(fields.take(0) =~= Seq::<Seq<char>>::empty());
        while k < parts.len()
            invariant
                v@ == json@,
                k <= parts@.len(),
                parts@.len() == fields.len(),
                fields == split_on(v@.subrange(lo as int, hi as int), ','),
                forall|i: int|
                    0 <= i < parts@.len() ==> {
                        &&& lo <= (#[trigger] parts@[i]).0 <= parts@[i].1 <= hi
                        &&& v@.subrange(parts@[i].0 as int, parts@[i].1 as int) == fields[i]
                    },
                hi <= v@.len(),
                t == lifetime_from_fields(fields.take(k as int)),
            decreases parts@.len() - k,
        {
            let (a, b) = parts[k];
            t = lifetime_apply_window(&v, a, b, t);
            assert(fields.take(k + 1).drop_last() =~= fields.take(k as int));
            k = k + 1;
        }
        assert(fields.take(k as int) =~= fields);
        t
    }
}

/// A field: `key` followed by the number `n`, no larger than `max`.
proof fn lemma_number_field(key: Seq<char>, n: nat, max: nat)
    requires
        key.len() > 0,
        !is_space(key[0]),
        no_comma(key),
        n <= max,
    ensures
        ({
            let f = key + decimal(n);
            &&& no_comma(f)
            &&& trim(f) == f
            &&& has_prefix(f, key)
            &&& number_or_zero(trim(after_prefix(f, key)), max) == n
            &&& !is_space(f.last())
            &&& f.last() != '}'
        }),
{
    let f = key + decimal(n);
    lemma_decimal(n);
    lemma_parse_decimal(n, max);
    assert forall|i: int| 0 <= i < f.len() implies #[trigger] f[i] != ',' by {
        if i >= key.len() {
            assert(f[i] == decimal(n)[i - key.len()]);
        }
    }
    assert(f.last() == decimal(n)[decimal(n).len() - 1]);
    lemma_trim_unchanged(f);
    lemma_trim_unchanged(decimal(n));
    lemma_prefix_concat(key, decimal(n));
}

proof fn lemma_lifetime_field_facts(t: LifetimeStats)
    ensures
        ({
            let fs = lifetime_fields(t);
            &&& fs.len() == 5
            &&& forall|i: int| 0 <= i < fs.len() ==> no_comma(#[trigger] fs[i])
            &&& forall|i: int| 0 <= i < fs.len() ==> trim(#[trigger] fs[i]) == fs[i]
            &&& fs[0].len() > 0 && fs[0][0] == '"'
            &&& fs[4].len() > 0 && !is_space(fs[4].last()) && fs[4].last() != '}'
            &&& has_prefix(fs[0], "\"games\":"@)
            &&& number_or_zero(trim(after_prefix(fs[0], "\"games\":"@)), u32::MAX as nat)
                == t.total_games
            &&& has_prefix(fs[1], "\"kills\":"@)
            &&& number_or_zero(trim(after_prefix(fs[1], "\"kills\":"@)), u32::MAX as nat)
                == t.total_kills
            &&& has_prefix(fs[2], "\"waves\":"@)
            &&& number_or_zero(trim(after_prefix(fs[2], "\"waves\":"@)), u32::MAX as nat)
                == t.total_waves
            &&& has_prefix(fs[3], "\"gold\":"@)
            &&& number_or_zero(trim(after_prefix(fs[3], "\"gold\":"@)), u32::MAX as nat)
                == t.total_gold_earned
            &&& has_prefix(fs[4], "\"best_wave\":"@)
            &&& number_or_zero(trim(after_prefix(fs[4], "\"best_wave\":"@)), usize::MAX as nat)
                == t.best_wave_ever
            &&& !has_prefix(fs[1], "\"games\":"@)
            &&& !has_prefix(fs[2], "\"games\":"@)
            &&& !has_prefix(fs[2], "\"kills\":"@)
            &&& !has_prefix(fs[3], "\"games\":"@)
            &&& !has_prefix(fs[3], "\"kills\":"@)
            &&& !has_prefix(fs[3], "\"waves\":"@)
            &&& !has_prefix(fs[4], "\"games\":"@)
            &&& !has_prefix(fs[4], "\"kills\":"@)
            &&& !has_prefix(fs[4], "\"waves\":"@)
            &&& !has_prefix(fs[4], "\"gold\":"@)
        }),
{
    reveal_strlit("\"games\":");
    reveal_strlit("\"kills\":");
    reveal_strlit("\"waves\":");
    reveal_strlit("\"gold\":");
    reveal_strlit("\"best_wave\":");
    let fs = lifetime_fields(t);
    let k0 = "\"games\":"@;
    let k1 = "\"kills\":"@;
    let k2 = "\"waves\":"@;
    let k3 = "\"gold\":"@;
    let k4 = "\"best_wave\":"@;
    assert(no_comma(k0));
    assert(no_comma(k1));
    assert(no_comma(k2));
    assert(no_comma(k3));
    assert(no_comma(k4));
    lemma_number_field(k0, t.total_games as nat, u32::MAX as nat);
    lemma_number_field(k1, t.total_kills as nat, u32::MAX as nat);
    lemma_number_field(k2, t.total_waves as nat, u32::MAX as nat);
    lemma_number_field(k3, t.total_gold_earned as nat, u32::MAX as nat);
    lemma_number_field(k4, t.best_wave_ever as nat, usize::MAX as nat);
    assert forall|i: int| 0 <= i < fs.len() implies no_comma(#[trigger] fs[i]) && trim(fs[i])
        == fs[i] by {
        if i == 0 {
        } else if i == 1 {
        } else if i == 2 {
        } else if i == 3 {
        } else {
        }
    }
    lemma_not_prefix(fs[1], k0, 1);
    lemma_not_prefix(fs[2], k0, 1);
    lemma_not_prefix(fs[2], k1, 1);
    lemma_not_prefix(fs[3], k0, 2);
    lemma_not_prefix(fs[3], k1, 1);
    lemma_not_prefix(fs[3], k2, 1);
    lemma_not_prefix(fs[4], k0, 1);
    lemma_not_prefix(fs[4], k1, 1);
    lemma_not_prefix(fs[4], k2, 1);
    lemma_not_prefix(fs[4], k3, 1);
}

/// Reading the saved text of the lifetime totals gives the same totals.
#[verifier::spinoff_prover]
#[verifier::rlimit(30)]
pub proof fn lemma_lifetime_roundtrip(t: LifetimeStats)
    ensures
        LifetimeStats::spec_from_json(record_text(lifetime_fields(t))) == t,
{
    let fs = lifetime_fields(t);
    lemma_lifetime_field_facts(t);
    lemma_record_roundtrip(fs);
    assert(fs.take(1).drop_last() =~= Seq::<Seq<char>>::empty());
    assert(lifetime_from_fields(Seq::<Seq<char>>::empty()) == lifetime_zero());
    assert(fs.take(2).drop_last() =~= fs.take(1));
    assert(fs.take(3).drop_last() =~= fs.take(2));
    assert(fs.take(4).drop_last() =~= fs.take(3));
    assert(fs.drop_last() =~= fs.take(4));
    assert(fs.take(1).last() == fs[0]);
    assert(fs.take(2).last() == fs[1]);
    assert(fs.take(3).last() == fs[2]);
    assert(fs.take(4).last() == fs[3]);
    assert(lifetime_from_fields(fs.take(1)) == lifetime_apply(lifetime_zero(), fs[0]));
    assert(lifetime_from_fields(fs.take(2)) == lifetime_apply(lifetime_from_fields(fs.take(1)), fs[1]));
    assert(lifetime_from_fields(fs.take(3)) == lifetime_apply(lifetime_from_fields(fs.take(2)), fs[2]));
    assert(lifetime_from_fields(fs.take(4)) == lifetime_apply(lifetime_from_fields(fs.take(3)), fs[3]));
    assert(lifetime_from_fields(fs) == lifetime_apply(lifetime_from_fields(fs.take(4)), fs[4]));
}

// ── High scores ──
//
// The record maps each map name to an object with a wave and a score:
// `{"Name":{"wave":12,"score":3400},...}`. It is read by a scanner that
// takes a quoted name, skips colons and spaces, and takes everything up to
// the next `}` as the object; separators between entries are spaces,
// commas and newlines.

pub open spec fn is_entry_separator(c: char) -> bool {
    c == ' ' || c == ',' || c == '\n'
}

pub open spec fn skip_separators(s: Seq<char>) -> Seq<char>
    decreases s.len(),
{
    if s.len() > 0 && is_entry_separator(s[0]) {
        skip_separators(s.drop_first())
    } else {
        s
    }
}

pub open spec fn skip_colons(s: Seq<char>) -> Seq<char>
    decreases s.len(),
{
    if s.len() > 0 && (s[0] == ':' || s[0] == ' ') {
        skip_colons(s.drop_first())
    } else {
        s
    }
}

/// What comes before the first `c` (all of `s` if there is none).
pub open spec fn before_char(s: Seq<char>, c: char) -> Seq<char>
    decreases s.len(),
{
    if s.len() == 0 {
        s
    } else if s[0] == c {
        Seq::empty()
    } else {
        seq![s[0]] + before_char(s.drop_first(), c)
    }
}

/// What comes after the first `c` (nothing if there is none).
pub open spec fn after_char(s: Seq<char>, c: char) -> Seq<char>
    decreases s.len(),
{
    if s.len() == 0 {
        s
    } else if s[0] == c {
        s.drop_first()
    } else {
        after_char(s.drop_first(), c)
    }
}

pub proof fn lemma_skip_separators_len(s: Seq<char>)
    ensures
        skip_separators(s).len() <= s.len(),
    decreases s.len(),
{
    if s.len() > 0 && is_entry_separator(s[0]) {
        lemma_skip_separators_len(s.drop_first());
    }
}

pub proof fn lemma_skip_colons_len(s: Seq<char>)
    ensures
        skip_colons(s).len() <= s.len(),
    decreases s.len(),
{
    if s.len() > 0 && (s[0] == ':' || s[0] == ' ') {
        lemma_skip_colons_len(s.drop_first());
    }
}

pub proof fn lemma_after_char_len(s: Seq<char>, c: char)
    ensures
        after_char(s, c).len() <= s.len(),
    decreases s.len(),
{
    if s.len() > 0 && s[0] != c {
        lemma_after_char_len(s.drop_first(), c);
    }
}

pub open spec fn entry_apply(e: HighScoreEntry, part: Seq<char>) -> HighScoreEntry {
    let p = trim(part);
    if has_prefix(p, "\"wave\":"@) {
        HighScoreEntry {
            wave: number_or_zero(trim(after_prefix(p, "\"wave\":"@)), usize::MAX as nat) as usize,
            ..e
        }
    } else if has_prefix(p, "\"score\":"@) {
        HighScoreEntry {
            score: number_or_zero(trim(after_prefix(p, "\"score\":"@)), u32::MAX as nat) as u32,
            ..e
        }
    } else {
        e
    }
}

pub open spec fn entry_from_fields(parts: Seq<Seq<char>>) -> HighScoreEntry
    decreases parts.len(),
{
    if parts.len() == 0 {
        HighScoreEntry { wave: 0, score: 0 }
    } else {
        entry_apply(entry_from_fields(parts.drop_last()), parts.last())
    }
}

/// The entry an object's text gives: wave and score read from its
/// comma-separated fields, 0 where missing or unreadable.
pub open spec fn entry_of(obj: Seq<char>) -> HighScoreEntry {
    entry_from_fields(split_on(obj, ','))
}

/// The (name, entry) pairs the scanner finds in `s`, in order.
pub open spec fn scan_scores(s: Seq<char>) -> Seq<(Seq<char>, HighScoreEntry)>
    decreases s.len(),
{
    let t = skip_separators(s);
    if t.len() == 0 || t[0] != '"' {
        Seq::empty()
    } else {
        let k = t.drop_first();
        let r = skip_colons(after_char(k, '"'));
        if r.len() == 0 || r[0] != '{' {
            Seq::empty()
        } else {
            let o = r.drop_first();
            proof {
                lemma_skip_separators_len(s);
                lemma_after_char_len(k, '"');
                lemma_skip_colons_len(after_char(k, '"'));
                lemma_after_char_len(o, '}');
            }
            seq![(before_char(k, '"'), entry_of(before_char(o, '}')))] + scan_scores(
                after_char(o, '}'),
            )
        }
    }
}

impl HighScores {
    /// The records read from saved text; a name found twice keeps its
    /// later entry.
    pub open spec fn spec_from_json(json: Seq<char>) -> Map<Seq<char>, HighScoreEntry> {
        entries_map(scan_scores(record_body(json)))
    }
}

/// The saved text of one record.
pub open spec fn score_item(name: Seq<char>, e: HighScoreEntry) -> Seq<char> {
    "\""@ + name + "\":{"@ + score_object(e) + "}"@
}

/// The object holding a record's wave and score.
pub open spec fn score_object(e: HighScoreEntry) -> Seq<char> {
    "\"wave\":"@ + decimal(e.wave as nat) + ","@ + ("\"score\":"@ + decimal(e.score as nat))
}

pub open spec fn score_items(entries: Seq<(Seq<char>, HighScoreEntry)>) -> Seq<Seq<char>> {
    entries.map_values(|p: (Seq<char>, HighScoreEntry)| score_item(p.0, p.1))
}

fn skip_separators_at(v: &Vec<char>, i: usize, hi: usize) -> (j: usize)
    requires
        i <= hi <= v@.len(),
    ensures
        i <= j <= hi,
        v@.subrange(j as int, hi as int) == skip_separators(v@.subrange(i as int, hi as int)),
{
    let mut j = i;
    while j < hi && (v[j] == ' ' || v[j] == ',' || v[j] == '\n')
        invariant
            i <= j <= hi <= v@.len(),
            skip_separators(v@.subrange(i as int, hi as int)) == skip_separators(
                v@.subrange(j as int, hi as int),
            ),
        decreases hi - j,
    {
        assert(v@.subrange(j as int, hi as int).drop_first() =~= v@.subrange(
            j + 1,
            hi as int,
        ));
        j = j + 1;
    }
    j
}

fn skip_colons_at(v: &Vec<char>, i: usize, hi: usize) -> (j: usize)
    requires
        i <= hi <= v@.len(),
    ensures
        i <= j <= hi,
        v@.subrange(j as int, hi as int) == skip_colons(v@.subrange(i as int, hi as int)),
{
    let mut j = i;
    while j < hi && (v[j] == ':' || v[j] == ' ')
        invariant
            i <= j <= hi <= v@.len(),
            skip_colons(v@.subrange(i as int, hi as int)) == skip_colons(
                v@.subrange(j as int, hi as int),
            ),
        decreases hi - j,
    {
        assert(v@.subrange(j as int, hi as int).drop_first() =~= v@.subrange(
            j + 1,
            hi as int,
        ));
        j = j + 1;
    }
    j
}

/// The index of the first `c` in the window, or `hi`; the text before it
/// and after it are `before_char` and `after_char` of the window.
fn find_in_window(v: &Vec<char>, i: usize, hi: usize, c: char) -> (r: usize)
    requires
        i <= hi <= v@.len(),
    ensures
        i <= r <= hi,
        before_char(v@.subrange(i as int, hi as int), c) == v@.subrange(i as int, r as int),
        r < hi ==> after_char(v@.subrange(i as int, hi as int), c) == v@.subrange(
            r + 1,
            hi as int,
        ),
        r == hi ==> after_char(v@.subrange(i as int, hi as int), c) == Seq::<char>::empty(),
{
    let mut r = i;
    while r < hi && v[r] != c
        invariant
            i <= r <= hi <= v@.len(),
            before_char(v@.subrange(i as int, hi as int), c) == v@.subrange(i as int, r as int)
                + before_char(v@.subrange(r as int, hi as int), c),
            after_char(v@.subrange(i as int, hi as int), c) == after_char(
                v@.subrange(r as int, hi as int),
                c,
            ),
        decreases hi - r,
    {
        let ghost w = v@.subrange(r as int, hi as int);
        assert(w.drop_first() =~= v@.subrange(r + 1, hi as int));
        assert(w[0] == v@[r as int]);
        assert(v@.subrange(i as int, r + 1) =~= v@.subrange(i as int, r as int) + seq![
            v@[r as int],
        ]);
        r = r + 1;
    }
    if r < hi {
        assert(v@.subrange(r as int, hi as int).drop_first() =~= v@.subrange(r + 1, hi as int));
    }
    assert(v@.subrange(i as int, r as int) + Seq::<char>::empty() =~= v@.subrange(
        i as int,
        r as int,
    ));
    r
}

fn entry_apply_window(v: &Vec<char>, lo: usize, hi: usize, e: HighScoreEntry) -> (r:
    HighScoreEntry)
    requires
        lo <= hi <= v@.len(),
    ensures
        r == entry_apply(e, v@.subrange(lo as int, hi as int)),
{
    let mut r = e;
    if let Some((a, b)) = field_after(v, lo, hi, "\"wave\":") {
        r.wave = number_window(v, a, b, usize::MAX as u64) as usize;
    } else if let Some((a, b)) = field_after(v, lo, hi, "\"score\":") {
        r.score = number_window(v, a, b, u32::MAX as u64) as u32;
    }
    r
}

fn entry_window(v: &Vec<char>, lo: usize, hi: usize) -> (e: HighScoreEntry)
    requires
        lo <= hi <= v@.len(),
    ensures
        e == entry_of(v@.subrange(lo as int, hi as int)),
{
    let parts = split_window(v, lo, hi, ',');
    let ghost fields = split_on(v@.subrange(lo as int, hi as int), ',');
    let mut e = HighScoreEntry { wave: 0, score: 0 };
    let mut k: usize = 0;
    assert(fields.take(0) =~= Seq::<Seq<char>>::empty());
    while k < parts.len()
        invariant
            k <= parts@.len(),
            parts@.len() == fields.len(),
            forall|i: int|
                0 <= i < parts@.len() ==> {
                    &&& lo <= (#[trigger] parts@[i]).0 <= parts@[i].1 <= hi
                    &&& v@.subrange(parts@[i].0 as int, parts@[i].1 as int) == fields[i]
                },
            hi <= v@.len(),
            e == entry_from_fields(fields.take(k as int)),
        decreases parts@.len() - k,
    {
        let (a, b) = parts[k];
        e = entry_apply_window(v, a, b, e);
        assert(fields.take(k + 1).drop_last() =~= fields.take(k as int));
        k = k + 1;
    }
    assert(fields.take(k as int) =~= fields);
    e
}

impl HighScores {
    /// The saved text of the records, in the order they are stored.
    pub fn to_json(&self) -> (j: String)
        requires
            self.wf(),
        ensures
            j@ == record_text(score_items(self.entry_views())),
    {
        let ghost fs = score_items(self.entry_views());
        proof {
            reveal_strlit("{");
            reveal_strlit("}");
            reveal_strlit(",");
        }
        let n = self.len();
        let mut j = String::from_str("{");
        let mut i: usize = 0;
        assert(fs.take(0) =~= Seq::<Seq<char>>::empty());
        while i < n
            invariant
                n == fs.len(),
                fs == score_items(self.entry_views()),
                n == self.entry_views().len(),
                i <= n,
                j@ == seq!['{'] + join_fields(fs.take(i as int)),
            decreases n - i,
        {
            let (name, e) = self.entry_at(i);
            let ghost before = j@;
            if i > 0 {
                j.append(",");
            }
            j.append("\"");
            j.append(name);
            j.append("\":{");
            j.append("\"wave\":");
            push_decimal(&mut j, e.wave as u64);
            j.append(",");
            j.append("\"score\":");
            push_decimal(&mut j, e.score as u64);
            j.append("}");
            proof {
                reveal_strlit(",");
                lemma_record_step(fs, i as int);
                assert(fs[i as int] == score_item(name@, e));
                if i == 0 {
                    assert(j@ =~= seq!['{'] + fs[0]);
                } else {
                    assert(j@ =~= before + seq![','] + fs[i as int]);
                }
            }
            i = i + 1;
        }
        j.append("}");
        assert(fs.take(n as int) =~= fs);
        j
    }

    /// Reads saved records. Entries are scanned in order; scanning stops at
    /// the first text that is not a quoted name followed by an object.
    pub fn from_json(json: &str) -> (h: HighScores)
        ensures
            h.wf(),
            h@ == HighScores::spec_from_json(json@),
    {
        let v = chars_of(json);
        let (lo, hi) = body_window(&v);
        let mut h = HighScores::new();
        let mut pos = lo;
        let ghost done: Seq<(Seq<char>, HighScoreEntry)> = Seq::empty();
        let ghost all = scan_scores(v@.subrange(lo as int, hi as int));
        assert(done + all =~= all);
        while pos < hi
            invariant
                v@ == json@,
                lo <= pos <= hi <= v@.len(),
                all == scan_scores(v@.subrange(lo as int, hi as int)),
                h.wf(),
                h@ == entries_map(done),
                done + scan_scores(v@.subrange(pos as int, hi as int)) == all,
            decreases hi - pos,
        {
            let ghost s = v@.subrange(pos as int, hi as int);
            let t = skip_separators_at(&v, pos, hi);
            if t >= hi || v[t] != '"' {
                proof {
                    assert(scan_scores(s) == Seq::<(Seq<char>, HighScoreEntry)>::empty());
                    assert(done + Seq::<(Seq<char>, HighScoreEntry)>::empty() =~= done);
                    assert(scan_scores(v@.subrange(hi as int, hi as int)) =~= Seq::<
                        (Seq<char>, HighScoreEntry),
                    >::empty());
                }
                pos = hi;
            } else {
                assert(v@.subrange(t as int, hi as int).drop_first() =~= v@.subrange(
                    t + 1,
                    hi as int,
                ));
                let kq = find_in_window(&v, t + 1, hi, '"');
                let after_name = if kq < hi {
                    kq + 1
                } else {
                    hi
                };
                assert(v@.subrange(after_name as int, hi as int) == after_char(
                    v@.subrange(t + 1, hi as int),
                    '"',
                )) by {
                    if kq == hi {
                        assert(v@.subrange(hi as int, hi as int) =~= Seq::<char>::empty());
                    }
                }
                let r = skip_colons_at(&v, after_name, hi);
                if r >= hi || v[r] != '{' {
                    proof {
                        assert(scan_scores(s) == Seq::<(Seq<char>, HighScoreEntry)>::empty());
                        assert(done + Seq::<(Seq<char>, HighScoreEntry)>::empty() =~= done);
                        assert(scan_scores(v@.subrange(hi as int, hi as int)) =~= Seq::<
                            (Seq<char>, HighScoreEntry),
                        >::empty());
                    }
                    pos = hi;
                } else {
                    assert(v@.subrange(r as int, hi as int).drop_first() =~= v@.subrange(
                        r + 1,
                        hi as int,
                    ));
                    let oe = find_in_window(&v, r + 1, hi, '}');
                    let entry = entry_window(&v, r + 1, oe);
                    let name = json.substring_char(t + 1, kq);
                    let next = if oe < hi {
                        oe + 1
                    } else {
                        hi
                    };
                    proof {
                        if oe == hi {
                            assert(v@.subrange(hi as int, hi as int) =~= Seq::<char>::empty());
                        }
                        assert(scan_scores(s) == seq![(name@, entry)] + scan_scores(
                            v@.subrange(next as int, hi as int),
                        ));
                    }
                    h.insert(name, entry);
                    proof {
                        let d2 = done.push((name@, entry));
                        assert(d2.drop_last() =~= done);
                        assert(d2 + scan_scores(v@.subrange(next as int, hi as int)) =~= done
                            + scan_scores(s));
                        done = d2;
                    }
                    pos = next;
                }
            }
        }
        assert(v@.subrange(hi as int, hi as int) =~= Seq::<char>::empty());
        assert(scan_scores(v@.subrange(hi as int, hi as int)) =~= Seq::<
            (Seq<char>, HighScoreEntry),
        >::empty());
        assert(done + Seq::<(Seq<char>, HighScoreEntry)>::empty() =~= done);
        h
    }
}

pub open spec fn has_no(s: Seq<char>, c: char) -> bool {
    forall|i: int| 0 <= i < s.len() ==> #[trigger] s[i] != c
}

proof fn lemma_char_split(a: Seq<char>, c: char, b: Seq<char>)
    requires
        has_no(a, c),
    ensures
        before_char(a + seq![c] + b, c) == a,
        after_char(a + seq![c] + b, c) == b,
    decreases a.len(),
{
    let s = a + seq![c] + b;
    if a.len() == 0 {
        assert(s.drop_first() =~= b);
        assert(s[0] == c);
    } else {
        assert(s.drop_first() =~= a.drop_first() + seq![c] + b);
        assert(a[0] != c);
        lemma_char_split(a.drop_first(), c, b);
        assert(seq![a[0]] + a.drop_first() =~= a);
    }
}

proof fn lemma_char_absent(a: Seq<char>, c: char)
    requires
        has_no(a, c),
    ensures
        before_char(a, c) == a,
        after_char(a, c) == Seq::<char>::empty(),
    decreases a.len(),
{
    if a.len() > 0 {
        assert(a[0] != c);
        lemma_char_absent(a.drop_first(), c);
        assert(seq![a[0]] + a.drop_first() =~= a);
    }
}

/// The object of a record reads back as the record's wave and score, and
/// holds no `}`.
proof fn lemma_score_object(e: HighScoreEntry)
    ensures
        entry_of(score_object(e)) == e,
        has_no(score_object(e), '}'),
{
    reveal_strlit("\"wave\":");
    reveal_strlit("\"score\":");
    reveal_strlit(",");
    let kw = "\"wave\":"@;
    let ks = "\"score\":"@;
    assert(no_comma(kw));
    assert(no_comma(ks));
    let fw = kw + decimal(e.wave as nat);
    let fs = ks + decimal(e.score as nat);
    lemma_number_field(kw, e.wave as nat, usize::MAX as nat);
    lemma_number_field(ks, e.score as nat, u32::MAX as nat);
    lemma_decimal(e.wave as nat);
    lemma_decimal(e.score as nat);
    let obj = score_object(e);
    assert(obj =~= fw + seq![','] + fs);
    lemma_split_single(fw, ',');
    lemma_split_single(fs, ',');
    lemma_split_concat(fw, fs, ',');
    let parts = split_on(obj, ',');
    assert(parts =~= seq![fw, fs]);
    lemma_not_prefix(fs, kw, 1);
    assert(parts.drop_last() =~= seq![fw]);
    assert(seq![fw].drop_last() =~= Seq::<Seq<char>>::empty());
    assert(entry_from_fields(Seq::<Seq<char>>::empty()) == HighScoreEntry { wave: 0, score: 0 });
    assert(entry_from_fields(seq![fw]) == entry_apply(HighScoreEntry { wave: 0, score: 0 }, fw));
    assert(has_no(obj, '}')) by {
        assert forall|i: int| 0 <= i < obj.len() implies #[trigger] obj[i] != '}' by {
            if i >= kw.len() && i < kw.len() + decimal(e.wave as nat).len() {
                assert(obj[i] == decimal(e.wave as nat)[i - kw.len()]);
            } else if i >= kw.len() + decimal(e.wave as nat).len() + 1 + ks.len() {
                assert(obj[i] == decimal(e.score as nat)[i - kw.len() - decimal(
                    e.wave as nat,
                ).len() - 1 - ks.len()]);
            }
        }
    }
}

/// What the scanner reads from one record's text without its closing
/// brace, followed by `tail` (nothing, or text that begins with `}`).
#[verifier::spinoff_prover]
proof fn lemma_scan_item(name: Seq<char>, e: HighScoreEntry, tail: Seq<char>)
    requires
        has_no(name, '"'),
        tail.len() == 0 || tail[0] == '}',
    ensures
        scan_scores("\""@ + name + "\":{"@ + score_object(e) + tail) == seq![(name, e)]
            + scan_scores(
            if tail.len() == 0 {
                tail
            } else {
                tail.drop_first()
            },
        ),
{
    reveal_strlit("\"");
    reveal_strlit("\":{");
    let obj = score_object(e);
    let s = "\""@ + name + "\":{"@ + obj + tail;
    lemma_score_object(e);
    assert(skip_separators(s) == s);
    let k = s.drop_first();
    assert(k =~= name + seq!['"'] + (seq![':', '{'] + obj + tail));
    lemma_char_split(name, '"', seq![':', '{'] + obj + tail);
    let r0 = seq![':', '{'] + obj + tail;
    assert(r0.drop_first() =~= seq!['{'] + obj + tail);
    assert(skip_colons(r0) == skip_colons(r0.drop_first()));
    assert(skip_colons(r0.drop_first()) == r0.drop_first());
    let o = (seq!['{'] + obj + tail).drop_first();
    assert(o =~= obj + tail);
    let rest = if tail.len() == 0 {
        tail
    } else {
        tail.drop_first()
    };
    if tail.len() == 0 {
        assert(o =~= obj);
        lemma_char_absent(obj, '}');
    } else {
        assert(o =~= obj + seq!['}'] + tail.drop_first());
        lemma_char_split(obj, '}', tail.drop_first());
    }
    assert(before_char(o, '}') == obj);
    assert(after_char(o, '}') == rest);
}

/// A separator before the records is skipped.
proof fn lemma_scan_comma(rest: Seq<char>)
    ensures
        scan_scores(seq![','] + rest) == scan_scores(rest),
{
    let s = seq![','] + rest;
    assert(s.drop_first() =~= rest);
    assert(skip_separators(s) == skip_separators(rest));
}

proof fn lemma_join_cons(x: Seq<char>, xs: Seq<Seq<char>>)
    requires
        xs.len() >= 1,
    ensures
        join_fields(seq![x] + xs) == x + seq![','] + join_fields(xs),
    decreases xs.len(),
{
    let all = seq![x] + xs;
    if xs.len() == 1 {
        assert(all.drop_last() =~= seq![x]);
        assert(all.last() == xs[0]);
        assert(join_fields(seq![x]) == x);
        assert(join_fields(xs) == xs[0]);
    } else {
        lemma_join_cons(x, xs.drop_last());
        assert(all.drop_last() =~= seq![x] + xs.drop_last());
        assert(all.last() == xs.last());
        assert(join_fields(all) =~= x + seq![','] + join_fields(xs));
    }
}

proof fn lemma_score_items_cons(
    first: (Seq<char>, HighScoreEntry),
    rest: Seq<(Seq<char>, HighScoreEntry)>,
)
    ensures
        score_items(seq![first] + rest) == seq![score_item(first.0, first.1)] + score_items(rest),
{
    assert(score_items(seq![first] + rest) =~= seq![score_item(first.0, first.1)] + score_items(
        rest,
    ));
}

/// The text of a non-empty list of records, without its final brace,
/// scans back to the list.
proof fn lemma_scan_items(entries: Seq<(Seq<char>, HighScoreEntry)>)
    requires
        entries.len() >= 1,
        forall|i: int| 0 <= i < entries.len() ==> has_no(#[trigger] entries[i].0, '"'),
    ensures
        scan_scores(join_fields(score_items(entries)).drop_last()) == entries,
    decreases entries.len(),
{
    reveal_strlit("}");
    let first = entries[0];
    let rest = entries.drop_first();
    assert(entries =~= seq![first] + rest);
    lemma_score_items_cons(first, rest);
    let item = score_item(first.0, first.1);
    let open = "\""@ + first.0 + "\":{"@ + score_object(first.1);
    assert(item =~= open + seq!['}']);
    assert(has_no(entries[0].0, '"'));
    if rest.len() == 0 {
        assert(score_items(entries) =~= seq![item]);
        assert(item.drop_last() =~= open);
        lemma_scan_item(first.0, first.1, Seq::empty());
        assert(open + Seq::<char>::empty() =~= open);
        assert(scan_scores(Seq::<char>::empty()) =~= Seq::<(Seq<char>, HighScoreEntry)>::empty());
        assert(seq![(first.0, first.1)] + Seq::<(Seq<char>, HighScoreEntry)>::empty() =~= entries);
    } else {
        assert forall|i: int| 0 <= i < rest.len() implies has_no(#[trigger] rest[i].0, '"') by {
            assert(rest[i] == entries[i + 1]);
        }
        lemma_scan_items(rest);
        let rest_items = score_items(rest);
        lemma_join_cons(item, rest_items);
        let jr = join_fields(rest_items);
        assert(jr.len() > 0) by {
            lemma_join_nonempty(rest_items);
        }
        let tail = seq!['}'] + (seq![','] + jr.drop_last());
        assert(join_fields(score_items(entries)).drop_last() =~= open + tail);
        lemma_scan_item(first.0, first.1, tail);
        assert(tail.drop_first() =~= seq![','] + jr.drop_last());
        lemma_scan_comma(jr.drop_last());
        assert(seq![(first.0, first.1)] + rest =~= entries);
    }
}

proof fn lemma_join_nonempty(items: Seq<Seq<char>>)
    requires
        items.len() >= 1,
        items.last().len() > 0,
    ensures
        join_fields(items).len() > 0,
        join_fields(items).last() == items.last().last(),
    decreases items.len(),
{
}

/// The body of the text of a non-empty list of records is that text
/// without its braces and without the last record's closing brace.
#[verifier::spinoff_prover]
proof fn lemma_scores_body(entries: Seq<(Seq<char>, HighScoreEntry)>)
    ensures
        entries.len() == 0 ==> record_body(record_text(score_items(entries))) == Seq::<
            char,
        >::empty(),
        entries.len() > 0 ==> record_body(record_text(score_items(entries))) == join_fields(
            score_items(entries),
        ).drop_last(),
{
    reveal_strlit("\"");
    reveal_strlit("}");
    let items = score_items(entries);
    let j = join_fields(items);
    let t = record_text(items);
    if entries.len() == 0 {
        assert(items.len() == 0);
        assert(t =~= seq!['{', '}']);
        lemma_trim_unchanged(t);
        assert(t.drop_first() =~= seq!['}']);
        assert(strip_leading(seq!['}'], '{') == seq!['}']);
        assert(seq!['}'].drop_last() =~= Seq::<char>::empty());
        assert(strip_trailing(Seq::<char>::empty(), '}') == Seq::<char>::empty());
    } else {
        let last = entries.last();
        let item = score_item(last.0, last.1);
        assert(items.last() == item);
        assert(items[0] == score_item(entries[0].0, entries[0].1));
        assert(items[0][0] == '"');
        lemma_join_shape_first(items);
        lemma_join_nonempty(items);
        lemma_decimal(last.1.score as nat);
        let dec = decimal(last.1.score as nat);
        assert(item.last() == '}');
        assert(item[item.len() - 2] == dec.last());
        assert(j[j.len() - 2] == item[item.len() - 2]) by {
            if items.len() > 1 {
                assert(j =~= join_fields(items.drop_last()) + seq![','] + item);
            }
        }
        assert(dec.last() == dec[dec.len() - 1]);
        lemma_trim_unchanged(t);
        assert(t.drop_first() =~= j + seq!['}']);
        assert(strip_leading(t.drop_first(), '{') == t.drop_first());
        assert((j + seq!['}']).drop_last() =~= j);
        assert(strip_trailing(j + seq!['}'], '}') == strip_trailing(j, '}'));
        assert(strip_trailing(j, '}') == strip_trailing(j.drop_last(), '}'));
        assert(j.drop_last().last() == j[j.len() - 2]);
        assert(strip_trailing(j.drop_last(), '}') == j.drop_last());
    }
}

impl HighScores {
    /// No stored map name holds a double quote.
    pub open spec fn names_unquoted(&self) -> bool {
        forall|i: int|
            0 <= i < self.entry_views().len() ==> has_no(#[trigger] self.entry_views()[i].0, '"')
    }

    /// Reading the saved text of the records gives the same records, when
    /// no map name holds a double quote.
    pub proof fn lemma_roundtrip(&self)
        requires
            self.names_unquoted(),
        ensures
            HighScores::spec_from_json(record_text(score_items(self.entry_views()))) == self@,
    {
        let entries = self.entry_views();
        lemma_scores_body(entries);
        if entries.len() == 0 {
            assert(scan_scores(Seq::<char>::empty()) =~= Seq::<(Seq<char>, HighScoreEntry)>::empty());
            assert(entries =~= Seq::<(Seq<char>, HighScoreEntry)>::empty());
        } else {
            lemma_scan_items(entries);
        }
    }
}

} // verus!
