use plumbline_core::panel::{go_uri, parse_link, Gates, PanelLink};

#[test]
fn go_links_carry_book_chapter_and_optional_verse() {
    assert_eq!(
        parse_link("go:1 John:3:16"),
        Some(PanelLink::Go { book: "1 John".to_string(), chapter: 3, verse: Some(16) })
    );
    assert_eq!(parse_link("go:Gen:1"), Some(PanelLink::Go { book: "Gen".to_string(), chapter: 1, verse: None }));
    assert_eq!(parse_link("go:Gen"), None);
    assert_eq!(parse_link("go:Gen:x"), None);
    assert_eq!(parse_link("go:Gen:1:y"), None);
}

#[test]
fn only_https_survives_an_external_link() {
    assert_eq!(
        parse_link("ext:https://example.org/a:b"),
        Some(PanelLink::External { url: "https://example.org/a:b".to_string() })
    );
    assert_eq!(parse_link("ext:http://example.org"), None);
}

#[test]
fn code_and_rendering_links_split_at_the_first_colon() {
    assert_eq!(
        parse_link("code:H1254:create"),
        Some(PanelLink::CodeStudy { code: "H1254".to_string(), word: "create".to_string() })
    );
    assert_eq!(parse_link("code:H1254"), Some(PanelLink::CodeStudy { code: "H1254".to_string(), word: String::new() }));
    assert_eq!(
        parse_link("rend:G26:love"),
        Some(PanelLink::Rendering { code: "G26".to_string(), rendering: "love".to_string() })
    );
    assert_eq!(parse_link("rend:G26"), None);
    assert_eq!(parse_link("occ:H1254"), Some(PanelLink::Occurrences { code: "H1254".to_string() }));
}

#[test]
fn index_verbs_need_a_number() {
    assert_eq!(parse_link("thread:4"), Some(PanelLink::Thread { index: 4 }));
    assert_eq!(parse_link("tag:0"), Some(PanelLink::Tag { index: 0 }));
    assert_eq!(parse_link("weave:12"), Some(PanelLink::Weave { index: 12 }));
    assert_eq!(parse_link("thread:"), None);
    assert_eq!(parse_link("tag:-1"), None);
    assert_eq!(
        parse_link("untag:2:Gen 1:1"),
        Some(PanelLink::Untag { tag: 2, refkey: "Gen 1:1".to_string() })
    );
    assert_eq!(parse_link("editentrynote:3:7"), Some(PanelLink::EditEntryNote { thread: 3, entry: 7 }));
    assert_eq!(parse_link("editentrynote:3"), None);
}

#[test]
fn bare_verbs_and_unknown_verbs() {
    assert_eq!(parse_link("guide"), Some(PanelLink::Guide));
    assert_eq!(parse_link("about:"), Some(PanelLink::About));
    assert_eq!(parse_link("addtag:Gen 1:1"), Some(PanelLink::AddTag { refkey: "Gen 1:1".to_string() }));
    assert_eq!(parse_link("nope:1"), None);
    assert_eq!(parse_link(""), None);
}

#[test]
fn go_uri_splits_the_reference_at_its_last_space() {
    assert_eq!(go_uri("Gen 1:7"), "go:Gen:1:7");
    assert_eq!(go_uri("1 John 3:16"), "go:1 John:3:16");
    assert_eq!(go_uri("Obad"), "go:Obad");
}

#[test]
fn a_verse_link_round_trips_through_the_router() {
    assert_eq!(
        parse_link(&go_uri("Song of Solomon 2:4")),
        Some(PanelLink::Go { book: "Song of Solomon".to_string(), chapter: 2, verse: Some(4) })
    );
}

#[test]
fn gates_from_the_wire_and_the_legacy_flag() {
    let g = Gates::from_bits(2);
    assert!(!g.human && g.machine);
    assert!(g.any());
    assert!(!Gates::from_bits(0).any());
    let f = Gates::from_full(true);
    assert!(f.human && f.machine);
    assert!(!Gates::text_only().any());
    assert!(Gates::all().any());
}
