use plumbline_core::corpus::{Corpus, Token, Verse};
use plumbline_core::export::{copy_text, parse_kind, plain_join, CopyKind};
use plumbline_core::reference::VRef;

fn words(ws: &[&str]) -> Vec<Token> {
    ws.iter()
        .map(|w| Token { pre: String::new(), word: (*w).to_string(), post: String::new(), strongs: vec![], flags: 0 })
        .collect()
}

/// The three verses of the sample corpus (John 3:16–18).
fn sample() -> Corpus {
    let v = |n: u16, ws: &[&str]| Verse { book: "John".into(), chapter: 3, verse: n, tokens: words(ws) };
    let verses = vec![
        v(16, &["For", "God", "so", "loved"]),
        v(17, &["For", "God", "sent"]),
        v(18, &["He", "that", "believeth"]),
    ];
    Corpus::from_parsed("kjv1769-tok2".into(), 3, verses).unwrap()
}

#[test]
fn verse_shapes() {
    let c = sample();
    let v = VRef::new("John", 3, 16);
    assert_eq!(copy_text(&c, &v, CopyKind::Verse, "John 3:16", "John 3").unwrap(), "For God so loved");
    assert_eq!(
        copy_text(&c, &v, CopyKind::VerseRef, "John 3:16", "John 3").unwrap(),
        "For God so loved — John 3:16 (KJV)"
    );
    assert_eq!(
        copy_text(&c, &v, CopyKind::VerseMarkdown, "John 3:16", "John 3").unwrap(),
        "> For God so loved\n>\n> — *John 3:16* (KJV)"
    );
}

#[test]
fn chapter_shapes() {
    let c = sample();
    let v = VRef::new("John", 3, 16);
    let plain = copy_text(&c, &v, CopyKind::Chapter, "John 3:16", "John 3").unwrap();
    assert!(plain.starts_with("16 For God so loved\n17 For God sent\n18 He that believeth"));
    assert!(plain.ends_with("— John 3 (KJV)"));
    let md = copy_text(&c, &v, CopyKind::ChapterMarkdown, "John 3:16", "John 3").unwrap();
    assert!(md.starts_with("> **16** For God so loved"));
    assert!(md.ends_with("> — *John 3* (KJV)"));
}

#[test]
fn a_copied_chapter_is_named_in_the_readers_language() {
    let c = sample();
    let v = VRef::new("John", 3, 16);
    // The reader's own rendering of the chapter and the verse, as the shell
    // hands them over for a German reader.
    let (verse_de, chapter_de) = ("Johannes 3,16", "Johannes 3");
    let plain = copy_text(&c, &v, CopyKind::Chapter, verse_de, chapter_de).unwrap();
    assert!(plain.ends_with(&format!("— {} (KJV)", chapter_de)), "{plain}");
    assert!(!plain.contains("John 3"), "the English book name survived: {plain}");
    let one = copy_text(&c, &v, CopyKind::VerseRef, verse_de, chapter_de).unwrap();
    assert!(one.contains("Johannes"), "{one}");
}

#[test]
fn unknown_verse_is_none() {
    let c = sample();
    assert!(copy_text(&c, &VRef::new("John", 99, 1), CopyKind::Verse, "John 99:1", "John 99").is_none());
    assert!(copy_text(&c, &VRef::new("John", 99, 1), CopyKind::Chapter, "John 99:1", "John 99").is_none());
}

#[test]
fn kind_tokens_roundtrip() {
    for k in [CopyKind::Verse, CopyKind::VerseRef, CopyKind::VerseMarkdown, CopyKind::Chapter, CopyKind::ChapterMarkdown] {
        assert_eq!(parse_kind(k.token()), Some(k));
    }
    assert_eq!(parse_kind("nope"), None);
}

#[test]
fn the_whole_chapter_markdown_quotes_every_line() {
    let c = sample();
    let v = VRef::new("John", 3, 17);
    let md = copy_text(&c, &v, CopyKind::ChapterMarkdown, "John 3:17", "John 3").unwrap();
    assert_eq!(
        md,
        "> **16** For God so loved\n> **17** For God sent\n> **18** He that believeth\n>\n> — *John 3* (KJV)"
    );
    let plain = copy_text(&c, &v, CopyKind::Chapter, "John 3:17", "John 3").unwrap();
    assert_eq!(plain, "16 For God so loved\n17 For God sent\n18 He that believeth\n— John 3 (KJV)");
    assert_eq!(plain_join(c.chapter_verses("John", 3)), "For God so loved For God sent He that believeth");
}
