use plumbline_core::devotional::{
    mark_done, next_day, BookletText, Devotional, Entry, EntryText, Run, ScriptureRef, Section, BASE_LANG,
};

fn et(title: &str, refl: &[&str], activity: &str) -> EntryText {
    EntryText { title: title.into(), reflection: refl.iter().map(|s| s.to_string()).collect(), activity: activity.into() }
}

fn sr(book: &str, chapter: u16, verse: u16, end: Option<u16>) -> ScriptureRef {
    ScriptureRef { book: book.into(), chapter, verse, end }
}

/// The three-day sample booklet.
fn sample() -> Devotional {
    Devotional {
        id: "sample".into(),
        days: 3,
        new_believer: false,
        sections: vec![
            Section { from: 1, to: 2, title: "First".into() },
            Section { from: 3, to: 3, title: "Second".into() },
        ],
        entries: vec![
            Entry { day: 1, scripture: vec![sr("John", 3, 16, Some(21))], texts: vec![("en".into(), et("One", &["a", "b"], "do"))] },
            Entry {
                day: 2,
                scripture: vec![sr("John", 14, 15, Some(18)), sr("John", 14, 25, Some(27))],
                texts: vec![("en".into(), et("Two", &["c"], "do")), ("de".into(), et("Zwei", &["c"], "tu"))],
            },
            Entry { day: 3, scripture: vec![sr("Luke", 5, 16, None)], texts: vec![("en".into(), et("Three", &["d"], "do"))] },
        ],
        texts: vec![("en".into(), BookletText { name: "Sample".into(), closing: vec!["bye".into()] })],
    }
}

#[test]
fn parses_a_catalogue() {
    let d = sample();
    assert_eq!(d.id, "sample");
    assert_eq!(d.entries.len(), 3);
    assert_eq!(d.entry(3).unwrap().scripture[0].end, None);
    assert_eq!(d.entry(2).unwrap().scripture.len(), 2);
}

#[test]
fn sections_and_entries_are_found_by_day() {
    let d = sample();
    assert_eq!(d.section(1).unwrap().title, "First");
    assert_eq!(d.section(2).unwrap().title, "First");
    assert_eq!(d.section(3).unwrap().title, "Second");
    assert!(d.section(4).is_none());
    assert!(d.entry(4).is_none());
}

#[test]
fn an_untranslated_entry_falls_back_to_english() {
    let d = sample();
    assert_eq!(d.entry(2).unwrap().text("de").unwrap().title, "Zwei");
    assert_eq!(d.entry(1).unwrap().text("de").unwrap().title, "One");
    assert!(d.has_lang("en"));
    assert!(!d.has_lang("de"));
    assert_eq!(d.text("de").unwrap().name, "Sample");
    assert_eq!(BASE_LANG, "en");
}

#[test]
fn a_fresh_run_opens_on_day_one() {
    let run = Run::new("sample", "2026-08-26T10:00:00Z", Some("en"));
    let t = next_day(&run, 3, "2026-08-26").unwrap();
    assert_eq!((t.day, t.days_done, t.days_total), (1, 0, 3));
    assert!(t.available, "nothing has been banked, so today's entry is on offer");
}

#[test]
fn the_next_entry_waits_for_the_next_local_day() {
    let mut run = Run::new("sample", "2026-08-26T10:00:00Z", Some("en"));
    assert!(mark_done(&mut run, 1, "2026-08-26"));
    let same_day = next_day(&run, 3, "2026-08-26").unwrap();
    assert_eq!(same_day.day, 2, "the entry advances immediately — it is only the INVITATION that waits");
    assert_eq!(same_day.days_done, 1);
    assert!(!same_day.available, "a day was already banked today");
    let tomorrow = next_day(&run, 3, "2026-08-27").unwrap();
    assert_eq!(tomorrow.day, 2);
    assert!(tomorrow.available);
}

#[test]
fn banking_a_day_twice_cannot_push_tomorrow_further_away() {
    let mut run = Run::new("sample", "2026-08-26T10:00:00Z", Some("en"));
    assert!(mark_done(&mut run, 1, "2026-08-26"));
    assert!(!mark_done(&mut run, 1, "2026-08-27"));
    assert_eq!(run.last_done.as_deref(), Some("2026-08-26"));
    assert!(next_day(&run, 3, "2026-08-27").unwrap().available);
    assert_eq!(run.done, vec![1]);
}

#[test]
fn days_banked_out_of_order_still_advance_to_the_lowest_gap() {
    let mut run = Run::new("sample", "2026-08-26T10:00:00Z", Some("en"));
    mark_done(&mut run, 2, "2026-08-26");
    let t = next_day(&run, 3, "2026-08-27").unwrap();
    assert_eq!(t.day, 1, "the lowest unbanked day is what is open");
    assert_eq!(t.days_done, 1);
}

#[test]
fn a_finished_booklet_asks_nothing() {
    let mut run = Run::new("sample", "2026-08-26T10:00:00Z", Some("en"));
    for day in 1..=3 {
        mark_done(&mut run, day, "2026-08-26");
    }
    assert!(next_day(&run, 3, "2026-08-30").is_none());
}

#[test]
fn a_backwards_clock_unlocks_rather_than_locking_out() {
    let mut run = Run::new("sample", "2026-08-26T10:00:00Z", Some("en"));
    mark_done(&mut run, 1, "2026-08-26");
    assert!(next_day(&run, 3, "2026-08-25").unwrap().available);
}

#[test]
fn banked_days_stay_in_order() {
    let mut run = Run::new("sample", "s", None);
    for d in [5, 1, 3, 3, 2] {
        mark_done(&mut run, d, "2026-01-01");
    }
    assert_eq!(run.done, vec![1, 2, 3, 5]);
    assert_eq!(run.format, "plumbline-devotional-run-v1");
    assert!(run.lang.is_none());
    // Days past the booklet's end are not counted against it.
    let t = next_day(&run, 4, "2026-01-02").unwrap();
    assert_eq!((t.day, t.days_done), (4, 3));
}

#[test]
fn format_tags_and_banked_day_order_are_checked() {
    assert!(plumbline_core::devotional::is_catalogue_format("devotional-v1"));
    assert!(!plumbline_core::devotional::is_catalogue_format("devotional-v2"));
    assert!(plumbline_core::devotional::is_run_format("plumbline-devotional-run-v1"));
    assert!(!plumbline_core::devotional::is_run_format(""));
    assert!(plumbline_core::devotional::days_ascending(&[1, 2, 5]));
    assert!(plumbline_core::devotional::days_ascending(&[]));
    assert!(!plumbline_core::devotional::days_ascending(&[1, 5, 5]));
    assert!(!plumbline_core::devotional::days_ascending(&[3, 2]));
}
