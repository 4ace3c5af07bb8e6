use plumbline_core::config::{carried_panes, should_rescue, Church, PaneRef, Settings, SettingsWire, StudyMode, HISTORY_CAP};
use plumbline_core::font::Font;

fn pane(book: &str, chapter: u16, verse: Option<u16>) -> PaneRef {
    PaneRef { book: book.to_string(), chapter, verse, lang: String::new() }
}

/// The wire a file of `{}` becomes.
fn empty_wire() -> SettingsWire {
    Settings::defaults().to_wire()
}

#[test]
fn an_empty_file_reads_as_the_defaults() {
    let d = Settings::defaults();
    assert_eq!(d.mode, StudyMode::Simple);
    assert!(d.panes.is_empty());
    assert_eq!(d.active, 0);
    assert_eq!(d.bible_reads, -1);
    assert!(d.verse_numbers && d.added_italics);
    assert!(!d.verse_per_line && !d.page_turn);
    assert_eq!(d.text_font, Font::EbGaramond);
    assert_eq!(d.copy_style, "verseRef");
    assert_eq!(d.language, "");
    assert!(d.present_shares_as_new);
    assert!(!d.human_analysis && !d.machine_analysis);
    assert_eq!(d.sunday_service, None);
}

#[test]
fn a_bad_mode_falls_back_to_simple() {
    let mut w = empty_wire();
    w.study_mode = "wat".to_string();
    assert_eq!(Settings::from_wire(&w).mode, StudyMode::Simple);
    w.study_mode = "full".to_string();
    assert_eq!(Settings::from_wire(&w).mode, StudyMode::Full);
}

#[test]
fn the_active_pane_is_clamped_to_the_pane_list() {
    let mut w = empty_wire();
    w.open_panes = vec![pane("Gen", 1, None), pane("John", 3, None)];
    w.active_pane = 9;
    assert_eq!(Settings::from_wire(&w).active, 1);
    let mut w = empty_wire();
    w.active_pane = 3;
    assert_eq!(Settings::from_wire(&w).active, 0);
}

#[test]
fn only_a_shipped_language_is_kept() {
    let mut w = empty_wire();
    w.language = Some("de".to_string());
    assert_eq!(Settings::from_wire(&w).language, "de");
    w.language = Some("it".to_string());
    assert_eq!(Settings::from_wire(&w).language, "");
    w.language = None;
    assert_eq!(Settings::from_wire(&w).language, "");
}

#[test]
fn an_out_of_range_service_time_is_dropped() {
    let mut w = empty_wire();
    w.sunday_service = Some(4000);
    assert_eq!(Settings::from_wire(&w).sunday_service, None);
    w.sunday_service = Some(600);
    assert_eq!(Settings::from_wire(&w).sunday_service, Some(600));
}

#[test]
fn panes_are_brought_into_range() {
    let mut w = empty_wire();
    w.open_panes = vec![pane("Gen", 0, Some(0)), pane("Ps", 23, Some(4))];
    let s = Settings::from_wire(&w);
    assert_eq!(s.panes[0], pane("Gen", 1, None));
    assert_eq!(s.panes[1], pane("Ps", 23, Some(4)));
}

#[test]
fn history_is_capped_and_carries_no_verse() {
    let mut w = empty_wire();
    w.history = (0..60).map(|i| pane("Gen", i as u16 + 1, Some(2))).collect();
    let s = Settings::from_wire(&w);
    assert_eq!(s.history.len(), HISTORY_CAP);
    assert_eq!(s.history[0], pane("Gen", 1, None));
}

#[test]
fn unknown_tokens_fall_back() {
    let mut w = empty_wire();
    w.copy_style = "poster".to_string();
    w.text_font = "comic".to_string();
    w.intro = Some("bored".to_string());
    let s = Settings::from_wire(&w);
    assert_eq!(s.copy_style, "verseRef");
    assert_eq!(s.text_font, Font::EbGaramond);
    assert_eq!(s.intro, "");
    w.intro = Some("curious".to_string());
    assert_eq!(Settings::from_wire(&w).intro, "curious");
}

#[test]
fn settings_survive_a_save_and_load() {
    let mut w = empty_wire();
    w.study_mode = "full".to_string();
    w.open_panes = vec![pane("Gen", 1, None), pane("John", 3, Some(16))];
    w.active_pane = 1;
    w.page_turn = true;
    w.sunday_service = Some(630);
    w.akjv_overlay = Some(true);
    w.concept_study = Some("  grace  ".to_string());
    w.church = Some(Church { name: " Grace Chapel ".to_string(), service: Some(600), url: "https://g.example".to_string() });
    let once = Settings::from_wire(&w);
    let twice = Settings::from_wire(&once.to_wire());
    assert_eq!(twice.mode, StudyMode::Full);
    assert_eq!(twice.panes, once.panes);
    assert_eq!(twice.active, 1);
    assert!(twice.page_turn);
    assert_eq!(twice.sunday_service, Some(630));
    assert!(twice.akjv_overlay);
    assert_eq!(twice.concept_study, "grace");
    assert_eq!(twice.church, once.church);
    assert_eq!(twice.church.name, "Grace Chapel");
}

#[test]
fn default_valued_keys_stay_off_the_file() {
    let w = empty_wire();
    assert_eq!(w.sunday_service, None);
    assert_eq!(w.church, None);
    assert_eq!(w.language, None);
    assert_eq!(w.devotional_seeded, None);
    assert_eq!(w.intro, None);
}

#[test]
fn a_pane_keeps_unknown_keys_only_in_the_same_chapter() {
    let old = vec![pane("Gen", 1, None), pane("John", 3, Some(16))];
    let new = vec![pane("Gen", 1, Some(4)), pane("John", 4, None), pane("Ps", 23, None)];
    assert_eq!(carried_panes(&old, &new), vec![true, false, false]);
    assert!(carried_panes(&old, &[]).is_empty());
}

#[test]
fn only_real_damage_spends_the_rescue_slot() {
    assert!(should_rescue(br#"{"bodySize":21.5,"#, false));
    assert!(!should_rescue(b"\n", false));
    assert!(!should_rescue(b" \t\r\n", false));
    assert!(!should_rescue(b"", false));
    assert!(!should_rescue(b"{{{", true));
}
