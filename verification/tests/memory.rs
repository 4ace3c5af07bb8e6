use plumbline_core::memory::{activity_by_day, lcs_hits, recall_words, DayActivity};
use plumbline_core::memory::{card_list, coverage, coverage_by_section, due_queue, CardModel};
use plumbline_core::memory::{
    blank_out, card_label, card_verses, due_on, first_letters, mastery_of, passage_end, Grade, Mastery, MAX_BLANK_LEVEL,
};
use plumbline_core::reference::VRef;

#[test]
fn first_letters_prompt() {
    assert_eq!(first_letters("For God so loved the world,"), "F G s l t w,");
    assert_eq!(first_letters("(the LORD)"), "(t L)");
}

#[test]
fn blank_out_progressive() {
    let v = "For God so loved the world";
    assert_eq!(blank_out(v, 0), v); // nothing hidden at level 0
    assert_eq!(blank_out(v, MAX_BLANK_LEVEL).replace(['_', ' '], ""), ""); // all letters gone
    let mid = blank_out(v, 2);
    assert!(mid.contains('_') && mid.split_whitespace().any(|w| !w.contains('_')));
}

#[test]
fn a_drill_keeps_punctuation_and_collapses_spacing() {
    assert_eq!(first_letters("  \"Jesus  wept.\"  "), "\"J w.\"");
    assert_eq!(first_letters("— !"), "— !");
    assert_eq!(blank_out("(the LORD),", MAX_BLANK_LEVEL), "(___ ____),");
    assert_eq!(blank_out("a  b", 0), "a b");
    // Past the top level is the top level.
    assert_eq!(blank_out("For God so", 200), blank_out("For God so", MAX_BLANK_LEVEL));
}

#[test]
fn grades_parse_and_pass() {
    assert_eq!(Grade::parse("again"), Some(Grade::Again));
    assert_eq!(Grade::parse("easy"), Some(Grade::Easy));
    assert_eq!(Grade::parse("Good"), None);
    assert!(!Grade::Again.passed());
    assert!(Grade::Hard.passed());
    assert_eq!(Grade::Good.quality(), 4);
}

#[test]
fn mastery_buckets() {
    assert_eq!(mastery_of(false, 0, 0), Mastery::New);
    assert_eq!(mastery_of(true, 0, 1), Mastery::Learning);
    assert_eq!(mastery_of(true, 2, 6), Mastery::Young);
    assert_eq!(mastery_of(true, 4, 21), Mastery::Mature);
    assert!(due_on("2026-01-01", "2026-01-01T00:00:00Z"));
    assert!(!due_on("2026-01-02", "2026-01-01T00:00:00Z"));
    assert!(due_on("garbage", "2026-01-01"), "an unreadable date is due");
}

#[test]
fn passage_card_spans_verses_and_normalizes_its_end() {
    let start = VRef::new("Ps", 23, 1);
    let end = passage_end(&start, &VRef::new("Ps", 23, 6));
    assert_eq!(end, Some(VRef::new("Ps", 23, 6)));
    assert_eq!(passage_end(&start, &VRef::new("Ps", 24, 6)), None);
    assert_eq!(passage_end(&start, &VRef::new("John", 23, 6)), None);
    assert_eq!(passage_end(&start, &VRef::new("Ps", 23, 1)), None);
    let vs = card_verses(&start, Some(6));
    assert_eq!(vs.len(), 6);
    assert_eq!(vs[5], VRef::new("Ps", 23, 6));
    assert_eq!(card_verses(&start, None), vec![start.clone()]);
    assert_eq!(card_label(&start, Some(6)), "Ps 23:1\u{2013}6");
    assert_eq!(card_label(&start, None), "Ps 23:1");
}

#[test]
fn recall_scoring_lines_words_up_despite_skips() {
    let hits = recall_words("for god so the WORLD", "For God so loved the world,");
    let marks: Vec<(String, bool)> = hits.into_iter().map(|h| (h.word, h.ok)).collect();
    assert_eq!(
        marks,
        vec![
            ("For".to_string(), true),
            ("God".to_string(), true),
            ("so".to_string(), true),
            ("loved".to_string(), false),
            ("the".to_string(), true),
            ("world,".to_string(), true),
        ]
    );
    let s = |v: &[&str]| v.iter().map(|w| w.to_string()).collect::<Vec<_>>();
    assert_eq!(lcs_hits(&s(&["a", "b", "c"]), &s(&["x", "c", "a"])), vec![false, false, true]);
    assert_eq!(lcs_hits(&s(&["a", "b"]), &s(&[])), vec![false, false]);
    assert!(recall_words("anything", "").is_empty());
    // Letters only, case folded beyond ASCII.
    assert!(recall_words("ÉGLISE", "église!").iter().all(|h| h.ok));
}

#[test]
fn activity_groups_reviews_by_day_oldest_first() {
    let stamps: Vec<String> = vec![
        "2026-01-03T00:00:00Z".into(),
        "2026-01-01T00:00:00Z".into(),
        "2026-01-03T18:30:00Z".into(),
        "2025-12-31".into(),
        "short".into(),
    ];
    assert_eq!(
        activity_by_day(&stamps),
        vec![
            DayActivity { day: "2025-12-31".into(), reviews: 1 },
            DayActivity { day: "2026-01-01".into(), reviews: 1 },
            DayActivity { day: "2026-01-03".into(), reviews: 2 },
        ]
    );
}

#[test]
fn activity_of_no_reviews_is_empty() {
    assert_eq!(activity_by_day(&[]), vec![]);
    // Ten bytes that split a character name no day.
    assert_eq!(activity_by_day(&["2026-01-0\u{e9}T".to_string()]), vec![]);
}

#[test]
fn mastery_buckets_and_due() {
    // A new card is due now.
    assert_eq!(mastery_of(false, 0, 0), Mastery::New);
    assert!(due_on("2026-01-01", "2026-01-01T00:00:00Z"));
    // An interval of 21 days or more is mature.
    assert_eq!(mastery_of(true, 6, 21), Mastery::Mature);
    assert_eq!(mastery_of(true, 6, 20), Mastery::Young);
    // Due exactly on its scheduled day, but not the day before.
    assert!(due_on("2026-03-15", "2026-03-15T00:00:00Z"));
    assert!(!due_on("2026-03-15", "2026-03-14T00:00:00Z"));
}

#[test]
fn coverage_and_activity() {
    // Two reviews of one card, on the 1st and the 3rd.
    let stamps: Vec<String> = vec!["2026-01-01T00:00:00Z".into(), "2026-01-03T00:00:00Z".into()];
    assert_eq!(
        activity_by_day(&stamps),
        vec![
            DayActivity { day: "2026-01-01".into(), reviews: 1 },
            DayActivity { day: "2026-01-03".into(), reviews: 1 },
        ]
    );
}

#[test]
fn recall_scoring_is_alignment_tolerant() {
    let actual = "For God so loved the world";
    assert!(recall_words("for god so loved the world", actual).iter().all(|w| w.ok));
    // A skipped word: the rest still align, not a cascade of misses.
    let s = recall_words("For God loved the world", actual);
    assert_eq!(s.iter().filter(|w| w.ok).count(), 5);
    assert!(!s[2].ok && s[2].word == "so");
}

#[test]
fn the_top_blank_out_level_masks_every_word() {
    let text = vec!["a"; 10_000].join(" ");
    let masked = blank_out(&text, MAX_BLANK_LEVEL);
    assert!(!masked.contains('a'));
    assert!(!blank_out(&text, 3).chars().all(|c| c == '_' || c == ' '));
}

fn card(book: &str, ch: u16, v: u16, through: Option<u16>, due: &str, reviews: &[&str]) -> CardModel {
    CardModel {
        verse: VRef::new(book, ch, v),
        through,
        reps: reviews.len() as u32,
        lapses: 0,
        interval_days: if reviews.is_empty() { 0 } else { 25 },
        due: due.to_string(),
        reviews: reviews.iter().map(|s| s.to_string()).collect(),
    }
}

#[test]
fn the_queue_holds_due_cards_in_reading_order() {
    let cards = vec![
        card("John", 3, 16, None, "2026-01-01", &[]),
        card("Gen", 1, 1, None, "2026-01-05", &[]),
        card("Ps", 23, 1, None, "2026-02-01", &[]),
        card("Gen", 1, 3, None, "2025-12-31", &[]),
    ];
    let q = due_queue(&cards, "2026-01-10T00:00:00Z");
    assert_eq!(q, vec![VRef::new("Gen", 1, 1), VRef::new("Gen", 1, 3), VRef::new("John", 3, 16)]);
    assert!(due_queue(&cards, "2025-01-01").is_empty());
}

#[test]
fn the_card_list_and_coverage_map_follow_reading_order() {
    let cards = vec![
        card("John", 3, 16, None, "2026-03-01", &["2026-01-01T00:00:00Z", "2026-01-03T00:00:00Z"]),
        card("Ps", 23, 1, Some(3), "2026-01-01", &[]),
    ];
    let list = card_list(&cards, "2026-01-10T00:00:00Z");
    assert_eq!(list.len(), 2);
    assert_eq!(list[0].ref_key, "Ps 23:1");
    assert_eq!(list[0].label, "Ps 23:1\u{2013}3");
    assert_eq!(list[0].verses, 3);
    assert_eq!(list[0].mastery, Mastery::New);
    assert!(list[0].due);
    assert_eq!(list[1].ref_key, "John 3:16");
    assert_eq!(list[1].mastery, Mastery::Mature);
    assert!(!list[1].due);
    let cov = coverage(&cards, "2026-01-10T00:00:00Z");
    let keys: Vec<&str> = cov.iter().map(|c| c.ref_key.as_str()).collect();
    assert_eq!(keys, vec!["Ps 23:1", "Ps 23:2", "Ps 23:3", "John 3:16"]);
    assert_eq!(cov[3].reps, 2);
    assert_eq!(cov[3].last_at.as_deref(), Some("2026-01-03T00:00:00Z"));
    assert_eq!(cov[0].last_at, None);
}

#[test]
fn coverage_rolls_up_to_the_section_holding_each_book() {
    let segments: [(&'static str, usize, usize); 3] = [("Law", 0, 4), ("Gospels", 39, 42), ("Rest", 0, 65)];
    let cards = vec![
        card("John", 3, 16, None, "2026-03-01", &["2026-01-01T00:00:00Z", "2026-01-03T00:00:00Z"]),
        card("Gen", 1, 1, Some(3), "2026-03-01", &[]),
        card("Ps", 23, 1, None, "2026-03-01", &["2026-01-01T00:00:00Z"]),
        card("Nowhere", 1, 1, None, "2026-03-01", &["2026-01-01T00:00:00Z"]),
    ];
    let sec = coverage_by_section(&cards, &segments);
    assert_eq!(sec.len(), 3);
    assert_eq!((sec[0].label, sec[0].cards, sec[0].mature, sec[0].reviews), ("Law", 3, 0, 0));
    assert_eq!((sec[1].label, sec[1].cards, sec[1].mature, sec[1].reviews), ("Gospels", 1, 1, 2));
    // A book in two ranges counts in the first; an unknown book counts nowhere.
    assert_eq!((sec[2].cards, sec[2].reviews), (1, 1));
}

#[test]
fn the_card_format_tag_is_checked() {
    assert!(plumbline_core::memory::is_card_format("overlay-memory-v1"));
    assert!(!plumbline_core::memory::is_card_format("overlay-memory-v2"));
}
