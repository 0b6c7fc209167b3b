use neon_command::analytics::{properties_json, with_version};
use neon_command::challenge::ChallengeParams;
use neon_command::persistence::{
    GameSettings, HighScoreEntry, HighScores, LifetimeStats, ParticleDensity, SettingField,
    TipsShown,
};
use neon_command::tips::{choose_tip, TipKind};

// --- Settings ---

#[test]
fn default_settings_text() {
    let s = GameSettings::default();
    assert_eq!(
        s.to_json(),
        "{\"shake\":true,\"particles\":\"MED\",\"damage_numbers\":true,\"range_hover\":true,\"reduce_motion\":false}"
    );
}

#[test]
fn settings_read_back_what_was_written() {
    let mut s = GameSettings::default();
    s.screen_shake = false;
    s.particle_density = ParticleDensity::High;
    s.reduce_motion = true;
    let t = GameSettings::from_json(&s.to_json());
    assert!(!t.screen_shake);
    assert_eq!(t.particle_density, ParticleDensity::High);
    assert!(t.show_damage_numbers);
    assert!(t.show_range_on_hover);
    assert!(t.reduce_motion);
}

#[test]
fn settings_reading_is_lenient() {
    let t = GameSettings::from_json("  { \"shake\": false , \"particles\": \"LOW\" , \"bogus\":1 }  ");
    assert!(!t.screen_shake);
    assert_eq!(t.particle_density, ParticleDensity::Low);
    assert!(t.show_damage_numbers);
    let g = GameSettings::from_json("not a record");
    assert!(g.screen_shake);
    assert_eq!(g.particle_density, ParticleDensity::Medium);
    let u = GameSettings::from_json("{\"particles\":\"ULTRA\",\"shake\":yes}");
    assert_eq!(u.particle_density, ParticleDensity::Medium);
    assert!(!u.screen_shake);
}

#[test]
fn density_cycle_and_names() {
    let d = ParticleDensity::Low;
    assert_eq!(d.next(), ParticleDensity::Medium);
    assert_eq!(d.next().next().next(), d);
    assert_eq!(ParticleDensity::High.name(), "HIGH");
    assert_eq!(ParticleDensity::from_str("HIGH"), ParticleDensity::High);
    assert_eq!(ParticleDensity::from_str("high"), ParticleDensity::Medium);
    assert_eq!(ParticleDensity::Low.death_particle_count(), 3);
    assert_eq!(ParticleDensity::High.death_particle_count(), 10);
    assert_eq!(ParticleDensity::Low.trail_skip(), 3);
    assert_eq!(ParticleDensity::Medium.trail_skip(), 1);
}

#[test]
fn settings_panel_presses() {
    let mut s = GameSettings::default();
    assert_eq!(s.value_label(SettingField::ScreenShake), "ON");
    s.press(SettingField::ScreenShake);
    assert!(!s.screen_shake);
    assert_eq!(s.value_label(SettingField::ScreenShake), "OFF");
    assert!(!s.is_on(SettingField::ScreenShake));
    s.press(SettingField::ScreenShake);
    assert!(s.screen_shake);
    s.press(SettingField::ParticleDensity);
    assert_eq!(s.value_label(SettingField::ParticleDensity), "HIGH");
    assert!(s.is_on(SettingField::ParticleDensity));
    s.press(SettingField::ReduceMotion);
    assert!(s.reduce_motion);
}

// --- High scores ---

#[test]
fn high_score_only_improves() {
    let mut h = HighScores::new();
    assert!(h.update_if_better("Sprint", 5, 1000));
    assert!(!h.update_if_better("Sprint", 4, 9000));
    assert!(!h.update_if_better("Sprint", 5, 1000));
    assert!(h.update_if_better("Sprint", 5, 1001));
    assert!(h.update_if_better("Sprint", 6, 10));
    assert_eq!(h.get("Sprint"), Some(&HighScoreEntry { wave: 6, score: 10 }));
    assert_eq!(h.get("Spiral"), None);
    assert_eq!(h.len(), 1);
}

#[test]
fn high_score_text() {
    let mut h = HighScores::new();
    h.update_if_better("Sprint", 12, 3400);
    assert_eq!(h.to_json(), "{\"Sprint\":{\"wave\":12,\"score\":3400}}");
    h.update_if_better("Long Road", 3, 7);
    assert_eq!(
        h.to_json(),
        "{\"Sprint\":{\"wave\":12,\"score\":3400},\"Long Road\":{\"wave\":3,\"score\":7}}"
    );
    assert_eq!(HighScores::new().to_json(), "{}");
}

#[test]
fn high_scores_read_back_what_was_written() {
    let mut h = HighScores::new();
    h.update_if_better("Random", 30, 99999);
    h.update_if_better("Serpentine", 1, 0);
    h.update_if_better("a,b {c}", 7, 8);
    let back = HighScores::from_json(&h.to_json());
    assert_eq!(back.len(), 3);
    assert_eq!(back.get("Random"), Some(&HighScoreEntry { wave: 30, score: 99999 }));
    assert_eq!(back.get("Serpentine"), Some(&HighScoreEntry { wave: 1, score: 0 }));
    assert_eq!(back.get("a,b {c}"), Some(&HighScoreEntry { wave: 7, score: 8 }));
}

#[test]
fn high_scores_reading_is_lenient() {
    let h = HighScores::from_json("{ \"A\" : {\"wave\": 3, \"score\": 9} , \"B\":{\"wave\":1}}");
    assert_eq!(h.get("A"), Some(&HighScoreEntry { wave: 3, score: 9 }));
    assert_eq!(h.get("B"), Some(&HighScoreEntry { wave: 1, score: 0 }));
    assert_eq!(HighScores::from_json("{}").len(), 0);
    assert_eq!(HighScores::from_json("").len(), 0);
    // Scanning stops at the first entry that is not a quoted name.
    let h = HighScores::from_json("{\"A\":{\"wave\":2,\"score\":2},B:{\"wave\":1}}");
    assert_eq!(h.len(), 1);
    // A name given twice keeps the later entry.
    let h = HighScores::from_json("{\"A\":{\"wave\":2,\"score\":2},\"A\":{\"wave\":1,\"score\":5}}");
    assert_eq!(h.get("A"), Some(&HighScoreEntry { wave: 1, score: 5 }));
    // Unreadable numbers are 0.
    let h = HighScores::from_json("{\"A\":{\"wave\":x,\"score\":99999999999}}");
    assert_eq!(h.get("A"), Some(&HighScoreEntry { wave: 0, score: 0 }));
}

// --- Lifetime statistics ---

#[test]
fn lifetime_record_and_text() {
    let mut l = LifetimeStats::new();
    l.record_game(120, 17, 5000);
    l.record_game(30, 4, 900);
    assert_eq!(l.total_games, 2);
    assert_eq!(l.total_kills, 150);
    assert_eq!(l.total_waves, 21);
    assert_eq!(l.total_gold_earned, 5900);
    assert_eq!(l.best_wave_ever, 17);
    assert_eq!(
        l.to_json(),
        "{\"games\":2,\"kills\":150,\"waves\":21,\"gold\":5900,\"best_wave\":17}"
    );
    let back = LifetimeStats::from_json(&l.to_json());
    assert_eq!(back.total_games, 2);
    assert_eq!(back.total_kills, 150);
    assert_eq!(back.total_waves, 21);
    assert_eq!(back.total_gold_earned, 5900);
    assert_eq!(back.best_wave_ever, 17);
}

#[test]
fn lifetime_reading_is_lenient() {
    let l = LifetimeStats::from_json("{\"games\":abc,\"kills\": +5 ,\"waves\":4294967296,\"gold\":-1}");
    assert_eq!(l.total_games, 0);
    assert_eq!(l.total_kills, 5);
    assert_eq!(l.total_waves, 0);
    assert_eq!(l.total_gold_earned, 0);
    assert_eq!(l.best_wave_ever, 0);
}

// --- Tips ---

#[test]
fn tips_text_round_trip() {
    let mut t = TipsShown::new();
    t.synergy = true;
    t.welcome = true;
    let text = t.to_json();
    assert_eq!(
        text,
        "{\"spec\":false,\"syn\":true,\"early\":false,\"targ\":false,\"welcome\":true,\"economy\":false}"
    );
    let back = TipsShown::from_json(&text);
    assert!(back.synergy && back.welcome);
    assert!(!back.specialization && !back.early_send && !back.targeting && !back.economy);
}

#[test]
fn welcome_tip_on_the_first_game_only_once() {
    let mut t = TipsShown::new();
    assert_eq!(choose_tip(&mut t, false, 0, 0, false, &[]), Some(TipKind::Welcome));
    assert!(t.welcome);
    assert_eq!(choose_tip(&mut t, false, 0, 0, false, &[]), None);
}

#[test]
fn no_tip_while_one_is_showing() {
    let mut t = TipsShown::new();
    assert_eq!(choose_tip(&mut t, true, 0, 0, false, &[]), None);
    assert!(!t.welcome);
}

#[test]
fn tips_follow_their_order() {
    let mut t = TipsShown::new();
    t.welcome = true;
    // Between waves after wave 2 with a level-2 tower and three towers:
    // economy first, then specialization, synergy, early send.
    let levels = [1u32, 2, 1];
    assert_eq!(choose_tip(&mut t, false, 3, 2, false, &levels), Some(TipKind::Economy));
    assert_eq!(choose_tip(&mut t, false, 3, 2, false, &levels), Some(TipKind::Specialization));
    assert_eq!(choose_tip(&mut t, false, 3, 2, false, &levels), Some(TipKind::Synergy));
    assert_eq!(choose_tip(&mut t, false, 3, 2, false, &levels), Some(TipKind::EarlySend));
    assert_eq!(choose_tip(&mut t, false, 3, 2, false, &levels), None);
    assert_eq!(choose_tip(&mut t, false, 3, 5, true, &levels), Some(TipKind::Targeting));
    assert!(TipKind::Targeting.text().starts_with("Press T"));
}

// --- Challenge links ---

#[test]
fn challenge_link_is_read() {
    let p = ChallengeParams::from_query("?c=Sprint,12,3400");
    assert_eq!(p.map_name.as_deref(), Some("Sprint"));
    assert_eq!(p.wave, Some(12));
    assert_eq!(p.score, Some(3400));
    let p = ChallengeParams::from_query("?c=Spiral,x");
    assert_eq!(p.map_name.as_deref(), Some("Spiral"));
    assert_eq!(p.wave, None);
    assert_eq!(p.score, None);
    let p = ChallengeParams::from_query("?c=Spiral");
    assert!(p.map_name.is_none());
    let p = ChallengeParams::from_query("?x=Spiral,1,2");
    assert!(p.map_name.is_none() && p.wave.is_none() && p.score.is_none());
    let p = ChallengeParams::from_query("?c=Random,4,99999999999");
    assert_eq!(p.wave, Some(4));
    assert_eq!(p.score, None);
}

// --- Analytics ---

#[test]
fn event_properties_text() {
    assert_eq!(properties_json(&[]), "{}");
    assert_eq!(properties_json(&[("map", "Sprint"), ("wave", "12")]), "{\"map\":\"Sprint\",\"wave\":\"12\"}");
    let all = with_version("0.1.0", &[("map", "Sprint")]);
    assert_eq!(all, vec![("game_version", "0.1.0"), ("map", "Sprint")]);
}
