//! Records kept between sessions: settings, high scores per map,
//! lifetime totals and which first-session tips were already shown.
//! Their text encodings live in `crate::saved`.

use vstd::prelude::*;

verus! {

// ── Game settings ──

#[derive(Clone, Copy, PartialEq, Eq, Debug, Structural)]
pub enum ParticleDensity {
    Low,
    Medium,
    High,
}

impl ParticleDensity {
    pub open spec fn spec_name(self) -> Seq<char> {
        match self {
            ParticleDensity::Low => "LOW"@,
            ParticleDensity::Medium => "MED"@,
            ParticleDensity::High => "HIGH"@,
        }
    }

    /// The density a stored name stands for; unknown names mean Medium.
    pub open spec fn spec_from_name(name: Seq<char>) -> ParticleDensity {
        if name == "LOW"@ {
            ParticleDensity::Low
        } else if name == "MED"@ {
            ParticleDensity::Medium
        } else if name == "HIGH"@ {
            ParticleDensity::High
        } else {
            ParticleDensity::Medium
        }
    }

    pub open spec fn spec_next(self) -> ParticleDensity {
        match self {
            ParticleDensity::Low => ParticleDensity::Medium,
            ParticleDensity::Medium => ParticleDensity::High,
            ParticleDensity::High => ParticleDensity::Low,
        }
    }

    pub fn name(&self) -> (s: &'static str)
        ensures
            s@ == self.spec_name(),
    {
        match self {
            ParticleDensity::Low => "LOW",
            ParticleDensity::Medium => "MED",
            ParticleDensity::High => "HIGH",
        }
    }

    /// Low → Medium → High → Low.
    pub fn next(&self) -> (n: Self)
        ensures
            n == self.spec_next(),
    {
        match self {
            ParticleDensity::Low => ParticleDensity::Medium,
            ParticleDensity::Medium => ParticleDensity::High,
            ParticleDensity::High => ParticleDensity::Low,
        }
    }

    /// Particles spawned when an enemy dies.
    pub fn death_particle_count(&self) -> (n: usize)
        ensures
            n == match self {
                ParticleDensity::Low => 3usize,
                ParticleDensity::Medium => 5usize,
                ParticleDensity::High => 10usize,
            },
    {
        match self {
            ParticleDensity::Low => 3,
            ParticleDensity::Medium => 5,
            ParticleDensity::High => 10,
        }
    }

    /// Only every n-th projectile frame leaves a trail particle.
    pub fn trail_skip(&self) -> (n: u32)
        ensures
            n == match self {
                ParticleDensity::Low => 3u32,
                ParticleDensity::Medium => 1u32,
                ParticleDensity::High => 1u32,
            },
    {
        match self {
            ParticleDensity::Low => 3,
            ParticleDensity::Medium => 1,
            ParticleDensity::High => 1,
        }
    }

    /// Reads a stored density name ("LOW", "MED", "HIGH"); anything else
    /// gives Medium.
    pub fn from_str(s: &str) -> (d: Self)
        ensures
            d == Self::spec_from_name(s@),
    {
        if crate::text::str_equals(s, "LOW") {
            ParticleDensity::Low
        } else if crate::text::str_equals(s, "MED") {
            ParticleDensity::Medium
        } else if crate::text::str_equals(s, "HIGH") {
            ParticleDensity::High
        } else {
            ParticleDensity::Medium
        }
    }
}

/// Cycling the density three times comes back to where it started.
pub proof fn lemma_density_cycle(d: ParticleDensity)
    ensures
        d.spec_next().spec_next().spec_next() == d,
        d.spec_next() != d,
{
}

/// A density's stored name reads back as that density.
pub proof fn lemma_density_name_roundtrip(d: ParticleDensity)
    ensures
        ParticleDensity::spec_from_name(d.spec_name()) == d,
{
    reveal_strlit("LOW");
    reveal_strlit("MED");
    reveal_strlit("HIGH");
    assert("MED"@[0] != "LOW"@[0]);
    assert("HIGH"@.len() != "LOW"@.len());
    assert("HIGH"@.len() != "MED"@.len());
}

pub struct GameSettings {
    pub screen_shake: bool,
    pub particle_density: ParticleDensity,
    pub show_damage_numbers: bool,
    pub show_range_on_hover: bool,
    pub reduce_motion: bool,
}

impl GameSettings {
    /// Shake on, medium particles, damage numbers and range preview on,
    /// reduced motion off.
    pub open spec fn spec_default() -> GameSettings {
        GameSettings {
            screen_shake: true,
            particle_density: ParticleDensity::Medium,
            show_damage_numbers: true,
            show_range_on_hover: true,
            reduce_motion: false,
        }
    }
}

impl Clone for GameSettings {
    fn clone(&self) -> (c: Self)
        ensures
            c == *self,
    {
        GameSettings {
            screen_shake: self.screen_shake,
            particle_density: self.particle_density,
            show_damage_numbers: self.show_damage_numbers,
            show_range_on_hover: self.show_range_on_hover,
            reduce_motion: self.reduce_motion,
        }
    }
}

impl Default for GameSettings {
    fn default() -> (s: Self)
        ensures
            s == GameSettings::spec_default(),
    {
        GameSettings {
            screen_shake: true,
            particle_density: ParticleDensity::Medium,
            show_damage_numbers: true,
            show_range_on_hover: true,
            reduce_motion: false,
        }
    }
}

/// A row of the settings panel.
#[derive(Clone, Copy, PartialEq, Eq, Debug, Structural)]
pub enum SettingField {
    ScreenShake,
    ParticleDensity,
    DamageNumbers,
    RangeOnHover,
    ReduceMotion,
}

impl GameSettings {
    /// The settings after pressing the button of `field`: flags flip, the
    /// density moves to the next level.
    pub open spec fn spec_press(self, field: SettingField) -> GameSettings {
        match field {
            SettingField::ScreenShake => GameSettings { screen_shake: !self.screen_shake, ..self },
            SettingField::ParticleDensity => GameSettings {
                particle_density: self.particle_density.spec_next(),
                ..self
            },
            SettingField::DamageNumbers => GameSettings {
                show_damage_numbers: !self.show_damage_numbers,
                ..self
            },
            SettingField::RangeOnHover => GameSettings {
                show_range_on_hover: !self.show_range_on_hover,
                ..self
            },
            SettingField::ReduceMotion => GameSettings { reduce_motion: !self.reduce_motion, ..self },
        }
    }

    /// Whether the row of `field` is drawn as switched on; the density row
    /// always is.
    pub open spec fn spec_is_on(self, field: SettingField) -> bool {
        match field {
            SettingField::ScreenShake => self.screen_shake,
            SettingField::ParticleDensity => true,
            SettingField::DamageNumbers => self.show_damage_numbers,
            SettingField::RangeOnHover => self.show_range_on_hover,
            SettingField::ReduceMotion => self.reduce_motion,
        }
    }

    pub open spec fn spec_value_label(self, field: SettingField) -> Seq<char> {
        match field {
            SettingField::ParticleDensity => self.particle_density.spec_name(),
            _ => if self.spec_is_on(field) {
                "ON"@
            } else {
                "OFF"@
            },
        }
    }

    /// Applies a press of the button of `field`.
    pub fn press(&mut self, field: SettingField)
        ensures
            *final(self) == old(self).spec_press(field),
    {
        match field {
            SettingField::ScreenShake => {
                self.screen_shake = !self.screen_shake;
            },
            SettingField::ParticleDensity => {
                self.particle_density = self.particle_density.next();
            },
            SettingField::DamageNumbers => {
                self.show_damage_numbers = !self.show_damage_numbers;
            },
            SettingField::RangeOnHover => {
                self.show_range_on_hover = !self.show_range_on_hover;
            },
            SettingField::ReduceMotion => {
                self.reduce_motion = !self.reduce_motion;
            },
        }
    }

    pub fn is_on(&self, field: SettingField) -> (b: bool)
        ensures
            b == self.spec_is_on(field),
    {
        match field {
            SettingField::ScreenShake => self.screen_shake,
            SettingField::ParticleDensity => true,
            SettingField::DamageNumbers => self.show_damage_numbers,
            SettingField::RangeOnHover => self.show_range_on_hover,
            SettingField::ReduceMotion => self.reduce_motion,
        }
    }

    /// The text shown on the row of `field`: "ON" or "OFF", or the density
    /// name.
    pub fn value_label(&self, field: SettingField) -> (s: &'static str)
        ensures
            s@ == self.spec_value_label(field),
    {
        match field {
            SettingField::ParticleDensity => self.particle_density.name(),
            _ => if self.is_on(field) {
                "ON"
            } else {
                "OFF"
            },
        }
    }
}

/// Pressing a switch twice, or the density button three times, restores
/// the settings; a press changes nothing but its own row.
pub proof fn lemma_press_restores(s: GameSettings, field: SettingField)
    ensures
        field != SettingField::ParticleDensity ==> s.spec_press(field).spec_press(field) == s,
        s.spec_press(SettingField::ParticleDensity).spec_press(
            SettingField::ParticleDensity,
        ).spec_press(SettingField::ParticleDensity) == s,
        forall|other: SettingField|
            other != field ==> #[trigger] s.spec_press(field).spec_is_on(other) == s.spec_is_on(
                other,
            ),
        field != SettingField::ParticleDensity ==> s.spec_press(field).spec_is_on(field)
            != s.spec_is_on(field),
{
}

// ── High scores ──

#[derive(Clone, Copy, Debug, PartialEq, Eq, Structural)]
pub struct HighScoreEntry {
    pub wave: usize,
    pub score: u32,
}

/// `(wave, score)` beats `entry`: a later wave, or the same wave with a
/// higher score.
pub open spec fn beats(wave: usize, score: u32, entry: HighScoreEntry) -> bool {
    wave > entry.wave || (wave == entry.wave && score > entry.score)
}

/// The best result per map name.
pub struct HighScores {
    scores: Vec<(String, HighScoreEntry)>,
}

/// The map that a list of (name, entry) pairs describes, a later pair
/// overriding an earlier one with the same name.
pub open spec fn entries_map(entries: Seq<(Seq<char>, HighScoreEntry)>) -> Map<
    Seq<char>,
    HighScoreEntry,
>
    decreases entries.len(),
{
    if entries.len() == 0 {
        Map::empty()
    } else {
        entries_map(entries.drop_last()).insert(entries.last().0, entries.last().1)
    }
}

/// The names of a list of pairs are pairwise different.
pub open spec fn names_distinct(entries: Seq<(Seq<char>, HighScoreEntry)>) -> bool {
    forall|i: int, j: int|
        0 <= i < j < entries.len() ==> #[trigger] entries[i].0 != #[trigger] entries[j].0
}

pub proof fn lemma_entries_map_index(entries: Seq<(Seq<char>, HighScoreEntry)>, i: int)
    requires
        names_distinct(entries),
        0 <= i < entries.len(),
    ensures
        entries_map(entries).contains_key(entries[i].0),
        entries_map(entries)[entries[i].0] == entries[i].1,
    decreases entries.len(),
{
    if i < entries.len() - 1 {
        let init = entries.drop_last();
        assert(init[i] == entries[i]);
        assert(names_distinct(init)) by {
            assert forall|a: int, b: int| 0 <= a < b < init.len() implies #[trigger] init[a].0
                != #[trigger] init[b].0 by {
                assert(init[a] == entries[a]);
                assert(init[b] == entries[b]);
            }
        }
        lemma_entries_map_index(init, i);
        assert(entries[i].0 != entries.last().0);
    }
}

pub proof fn lemma_entries_map_domain(entries: Seq<(Seq<char>, HighScoreEntry)>, k: Seq<char>)
    ensures
        entries_map(entries).contains_key(k) <==> exists|i: int|
            0 <= i < entries.len() && #[trigger] entries[i].0 == k,
    decreases entries.len(),
{
    if entries.len() > 0 {
        let init = entries.drop_last();
        lemma_entries_map_domain(init, k);
        if entries_map(entries).contains_key(k) {
            if k == entries.last().0 {
                assert(entries[entries.len() - 1].0 == k);
            } else {
                let i = choose|i: int| 0 <= i < init.len() && #[trigger] init[i].0 == k;
                assert(entries[i] == init[i]);
            }
        }
        if exists|i: int| 0 <= i < entries.len() && #[trigger] entries[i].0 == k {
            let i = choose|i: int| 0 <= i < entries.len() && #[trigger] entries[i].0 == k;
            if i < entries.len() - 1 {
                assert(init[i] == entries[i]);
            }
        }
    }
}

/// Replacing the value of the pair at `i` updates the map at that name.
pub proof fn lemma_entries_map_update(
    entries: Seq<(Seq<char>, HighScoreEntry)>,
    i: int,
    e: HighScoreEntry,
)
    requires
        names_distinct(entries),
        0 <= i < entries.len(),
    ensures
        names_distinct(entries.update(i, (entries[i].0, e))),
        entries_map(entries.update(i, (entries[i].0, e))) == entries_map(entries).insert(
            entries[i].0,
            e,
        ),
    decreases entries.len(),
{
    let upd = entries.update(i, (entries[i].0, e));
    assert forall|a: int, b: int| 0 <= a < b < upd.len() implies #[trigger] upd[a].0
        != #[trigger] upd[b].0 by {
        assert(upd[a].0 == entries[a].0);
        assert(upd[b].0 == entries[b].0);
    }
    let init = entries.drop_last();
    assert(names_distinct(init)) by {
        assert forall|a: int, b: int| 0 <= a < b < init.len() implies #[trigger] init[a].0
            != #[trigger] init[b].0 by {
            assert(init[a] == entries[a]);
            assert(init[b] == entries[b]);
        }
    }
    if i == entries.len() - 1 {
        assert(upd.drop_last() =~= init);
        assert(entries_map(upd) == entries_map(init).insert(entries[i].0, e));
        assert(entries_map(entries).insert(entries[i].0, e) =~= entries_map(init).insert(
            entries[i].0,
            e,
        ));
    } else {
        lemma_entries_map_update(init, i, e);
        assert(upd.drop_last() =~= init.update(i, (init[i].0, e)));
        assert(entries[i].0 != entries.last().0);
        assert(entries_map(upd) =~= entries_map(entries).insert(entries[i].0, e));
    }
}

impl View for HighScores {
    type V = Map<Seq<char>, HighScoreEntry>;

    open spec fn view(&self) -> Map<Seq<char>, HighScoreEntry> {
        entries_map(self.entry_views())
    }
}

impl HighScores {
    /// The stored pairs, names taken by their text.
    pub closed spec fn entry_views(&self) -> Seq<(Seq<char>, HighScoreEntry)> {
        self.scores@.map_values(|p: (String, HighScoreEntry)| (p.0@, p.1))
    }

    /// No map name is stored twice.
    pub closed spec fn wf(&self) -> bool {
        names_distinct(self.entry_views())
    }

    /// No records yet.
    pub fn new() -> (h: Self)
        ensures
            h.wf(),
            h@ == Map::<Seq<char>, HighScoreEntry>::empty(),
            h.entry_views().len() == 0,
    {
        let h = HighScores { scores: Vec::new() };
        assert(h.entry_views() =~= Seq::empty());
        h
    }

    /// Number of maps with a record.
    pub fn len(&self) -> (n: usize)
        requires
            self.wf(),
        ensures
            n == self@.len(),
            n == self.entry_views().len(),
    {
        proof {
            self.lemma_view_len();
        }
        self.scores.len()
    }

    proof fn lemma_view_len(&self)
        requires
            self.wf(),
        ensures
            self@.len() == self.entry_views().len(),
            self@.dom().finite(),
    {
        lemma_entries_map_len(self.entry_views());
    }

    /// The name and record stored at position `i`.
    pub fn entry_at(&self, i: usize) -> (r: (&str, HighScoreEntry))
        requires
            i < self.entry_views().len(),
        ensures
            r.0@ == self.entry_views()[i as int].0,
            r.1 == self.entry_views()[i as int].1,
    {
        let p = &self.scores[i];
        (p.0.as_str(), p.1)
    }

    /// Position of `name` among the stored pairs.
    fn find(&self, name: &str) -> (r: Option<usize>)
        ensures
            match r {
                Some(i) => i < self.entry_views().len() && self.entry_views()[i as int].0
                    == name@,
                None => forall|i: int|
                    0 <= i < self.entry_views().len() ==> #[trigger] self.entry_views()[i].0
                        != name@,
            },
    {
        let mut i: usize = 0;
        while i < self.scores.len()
            invariant
                i <= self.scores.len(),
                self.entry_views().len() == self.scores.len(),
                forall|j: int| 0 <= j < i ==> #[trigger] self.entry_views()[j].0 != name@,
            decreases self.scores.len() - i,
        {
            if crate::text::str_equals(self.scores[i].0.as_str(), name) {
                return Some(i);
            }
            i = i + 1;
        }
        None
    }

    /// The record for `map_name`, if any.
    pub fn get(&self, map_name: &str) -> (r: Option<&HighScoreEntry>)
        requires
            self.wf(),
        ensures
            match r {
                Some(e) => self@.contains_key(map_name@) && *e == self@[map_name@],
                None => !self@.contains_key(map_name@),
            },
    {
        match self.find(map_name) {
            Some(i) => {
                proof {
                    lemma_entries_map_index(self.entry_views(), i as int);
                }
                Some(&self.scores[i].1)
            },
            None => {
                proof {
                    lemma_entries_map_domain(self.entry_views(), map_name@);
                }
                None
            },
        }
    }

    /// Stores `(wave, score)` for `map_name` and returns true when the map
    /// had no record or the new result beats it; otherwise leaves the
    /// records unchanged and returns false.
    pub fn update_if_better(&mut self, map_name: &str, wave: usize, score: u32) -> (new_record:
        bool)
        requires
            old(self).wf(),
        ensures
            final(self).wf(),
            new_record == (!old(self)@.contains_key(map_name@) || beats(
                wave,
                score,
                old(self)@[map_name@],
            )),
            new_record ==> final(self)@ == old(self)@.insert(
                map_name@,
                HighScoreEntry { wave, score },
            ),
            !new_record ==> final(self)@ == old(self)@,
    {
        let entry = HighScoreEntry { wave, score };
        match self.find(map_name) {
            Some(i) => {
                proof {
                    lemma_entries_map_index(self.entry_views(), i as int);
                }
                let existing = self.scores[i].1;
                if wave > existing.wave || (wave == existing.wave && score > existing.score) {
                    let ghost before = self.entry_views();
                    let key = self.scores[i].0.clone();
                    self.scores.set(i, (key, entry));
                    proof {
                        lemma_entries_map_update(before, i as int, entry);
                        assert(self.entry_views() =~= before.update(
                            i as int,
                            (before[i as int].0, entry),
                        ));
                    }
                    true
                } else {
                    false
                }
            },
            None => {
                proof {
                    lemma_entries_map_domain(self.entry_views(), map_name@);
                }
                self.push_new(map_name, entry);
                true
            },
        }
    }

    /// Appends a pair for a name not stored yet.
    pub(crate) fn push_new(&mut self, map_name: &str, entry: HighScoreEntry)
        requires
            old(self).wf(),
            !old(self)@.contains_key(map_name@),
        ensures
            final(self).wf(),
            final(self)@ == old(self)@.insert(map_name@, entry),
            final(self).entry_views() == old(self).entry_views().push((map_name@, entry)),
    {
        let ghost before = self.entry_views();
        proof {
            lemma_entries_map_domain(before, map_name@);
        }
        self.scores.push((String::from_str(map_name), entry));
        proof {
            assert(self.entry_views() =~= before.push((map_name@, entry)));
            assert(self.entry_views().drop_last() =~= before);
            let ev = self.entry_views();
            assert forall|a: int, b: int| 0 <= a < b < ev.len() implies #[trigger] ev[a].0
                != #[trigger] ev[b].0 by {
                if b == ev.len() - 1 {
                    assert(ev[a] == before[a]);
                } else {
                    assert(ev[a] == before[a]);
                    assert(ev[b] == before[b]);
                }
            }
        }
    }

    /// Stores `entry` under `map_name`, replacing any record it had.
    pub(crate) fn insert(&mut self, map_name: &str, entry: HighScoreEntry)
        requires
            old(self).wf(),
        ensures
            final(self).wf(),
            final(self)@ == old(self)@.insert(map_name@, entry),
    {
        match self.find(map_name) {
            Some(i) => {
                let ghost before = self.entry_views();
                let key = self.scores[i].0.clone();
                self.scores.set(i, (key, entry));
                proof {
                    lemma_entries_map_update(before, i as int, entry);
                    assert(self.entry_views() =~= before.update(
                        i as int,
                        (before[i as int].0, entry),
                    ));
                }
            },
            None => {
                proof {
                    lemma_entries_map_domain(self.entry_views(), map_name@);
                }
                self.push_new(map_name, entry);
            },
        }
    }
}

impl Default for HighScores {
    fn default() -> (h: Self)
        ensures
            h.wf(),
            h@ == Map::<Seq<char>, HighScoreEntry>::empty(),
    {
        HighScores::new()
    }
}

pub proof fn lemma_entries_map_len(entries: Seq<(Seq<char>, HighScoreEntry)>)
    requires
        names_distinct(entries),
    ensures
        entries_map(entries).dom().finite(),
        entries_map(entries).len() == entries.len(),
    decreases entries.len(),
{
    if entries.len() > 0 {
        let init = entries.drop_last();
        assert(names_distinct(init)) by {
            assert forall|a: int, b: int| 0 <= a < b < init.len() implies #[trigger] init[a].0
                != #[trigger] init[b].0 by {
                assert(init[a] == entries[a]);
                assert(init[b] == entries[b]);
            }
        }
        lemma_entries_map_len(init);
        lemma_entries_map_domain(init, entries.last().0);
        if entries_map(init).contains_key(entries.last().0) {
            let i = choose|i: int| 0 <= i < init.len() && #[trigger] init[i].0 == entries.last().0;
            assert(init[i] == entries[i]);
        }
    }
}

/// Submitting the same result twice: the second submission is no new
/// record and changes nothing.
pub proof fn lemma_update_if_better_idempotent(
    m: Map<Seq<char>, HighScoreEntry>,
    name: Seq<char>,
    wave: usize,
    score: u32,
)
    ensures
        ({
            let m1 = m.insert(name, HighScoreEntry { wave, score });
            &&& m1.contains_key(name)
            &&& !beats(wave, score, m1[name])
            &&& m1.insert(name, HighScoreEntry { wave, score }) == m1
        }),
{
    let m1 = m.insert(name, HighScoreEntry { wave, score });
    assert(m1.insert(name, HighScoreEntry { wave, score }) =~= m1);
}

// ── Lifetime statistics ──

#[derive(Clone, Copy, Debug)]
pub struct LifetimeStats {
    pub total_games: u32,
    pub total_kills: u32,
    pub total_waves: u32,
    pub total_gold_earned: u32,
    pub best_wave_ever: usize,
}

impl LifetimeStats {
    /// All totals zero.
    pub fn new() -> (s: Self)
        ensures
            s.total_games == 0,
            s.total_kills == 0,
            s.total_waves == 0,
            s.total_gold_earned == 0,
            s.best_wave_ever == 0,
    {
        LifetimeStats {
            total_games: 0,
            total_kills: 0,
            total_waves: 0,
            total_gold_earned: 0,
            best_wave_ever: 0,
        }
    }

    /// Adds one finished game. The wave count is added to the total as its
    /// low 32 bits.
    pub fn record_game(&mut self, kills: u32, waves: usize, gold_earned: u32)
        requires
            old(self).total_games < u32::MAX,
            old(self).total_kills + kills <= u32::MAX,
            old(self).total_waves + (waves as u32) <= u32::MAX,
            old(self).total_gold_earned + gold_earned <= u32::MAX,
        ensures
            final(self).total_games == old(self).total_games + 1,
            final(self).total_kills == old(self).total_kills + kills,
            final(self).total_waves == old(self).total_waves + (waves as u32),
            final(self).total_gold_earned == old(self).total_gold_earned + gold_earned,
            final(self).best_wave_ever == if waves > old(self).best_wave_ever {
                waves
            } else {
                old(self).best_wave_ever
            },
    {
        self.total_games = self.total_games + 1;
        self.total_kills = self.total_kills + kills;
        self.total_waves = self.total_waves + (waves as u32);
        self.total_gold_earned = self.total_gold_earned + gold_earned;
        if waves > self.best_wave_ever {
            self.best_wave_ever = waves;
        }
    }
}

impl Default for LifetimeStats {
    fn default() -> (s: Self)
        ensures
            s.total_games == 0,
            s.total_kills == 0,
            s.total_waves == 0,
            s.total_gold_earned == 0,
            s.best_wave_ever == 0,
    {
        LifetimeStats::new()
    }
}

// ── Tips ──

/// Which first-session tips the player has already seen.
#[derive(Clone, Copy, Debug)]
pub struct TipsShown {
    pub specialization: bool,
    pub synergy: bool,
    pub early_send: bool,
    pub targeting: bool,
    pub welcome: bool,
    pub economy: bool,
}

impl TipsShown {
    /// None shown yet.
    pub fn new() -> (t: Self)
        ensures
            !t.specialization && !t.synergy && !t.early_send && !t.targeting && !t.welcome
                && !t.economy,
    {
        TipsShown {
            specialization: false,
            synergy: false,
            early_send: false,
            targeting: false,
            welcome: false,
            economy: false,
        }
    }
}

impl Default for TipsShown {
    fn default() -> (t: Self)
        ensures
            !t.specialization && !t.synergy && !t.early_send && !t.targeting && !t.welcome
                && !t.economy,
    {
        TipsShown::new()
    }
}

} // verus!
