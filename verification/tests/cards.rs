use vstd::seq::Seq;
use plumbline_core::cards::snippet_blocks;
use plumbline_core::i18n::{Catalog, Catalogs, Lang};
use plumbline_core::panel::{
    code_study_card, code_study_card_gated, word_study, word_study_gated, BridgePartnerView, ChipView, ConceptView,
    LeitwortView, RenderingView, StrongsView,
};
use plumbline_core::panel::{
    about_blocks_in, compare_card, concordance, guide_blocks_in, rendering_concordance, search, suggested,
    tag_detail, tags_list, thread_detail, threads_list, verse_extras, weaves_list, Block, Color, Gates,
    OccurrencesView, PanelSource, RenderingRefsView, Run, SearchHitView, SearchView, Size, StudyXrefView,
    SuggestedLinkView, SuggestedView, TagMemberView, TagView, ThreadEntryView, ThreadView, TokenView,
    VerseTokensView, WeaveLinkView, WeaveView, XrefView,
};

fn catalogs() -> Catalogs {
    let mut cats = Catalogs::new();
    cats.set(
        Lang::En,
        Catalog::from_pairs(
            [
                ("panel.more", "… {n} more"),
                ("panel.noOccurrences", "No occurrences of {code}."),
                ("panel.noRendering", "{code} is never rendered “{rendering}”."),
                ("panel.threads", "Threads ({n})"),
                ("panel.passages.one", "{n} passage"),
                ("panel.passages.other", "{n} passages"),
                ("panel.tagsCount", "Tags ({n})"),
                ("panel.members.one", "{n} member"),
                ("panel.members.other", "{n} members"),
                ("panel.makeWeave", "make a weave"),
                ("panel.weaves", "Weaves ({n})"),
                ("panel.links.one", "{n} link"),
                ("panel.links.other", "{n} links"),
                ("panel.results.one", "{n} result"),
                ("panel.results.other", "{n} results"),
                ("panel.goTo", "Go to {passage}"),
                ("panel.approve", "approve"),
                ("panel.reject", "reject"),
                ("panel.compare", "compare"),
                ("panel.note", "note"),
                ("panel.inWeaves.one", "In {n} weave"),
                ("panel.inWeaves.other", "In {n} weaves"),
                ("panel.xrefs", "Cross-references ({n})"),
                ("panel.occurrences.one", "{n} occurrence"),
                ("panel.occurrences.other", "{n} occurrences"),
                ("panel.notInDictionary", "Not in the dictionary."),
                ("study.noStrongs", "No Strong's number."),
                ("panel.yourNote", "Your note"),
                ("panel.addNote", "add"),
                ("panel.editNote", "edit"),
                ("study.aiMark", "(AI)"),
                ("study.lexCaveat", "Machine-translated; renderings from {bible}."),
                ("study.lexCaveatLink", "report"),
                ("guide.title", "Guide"),
                ("about.heading", "About"),
            ]
            .iter()
            .map(|(k, v)| (k.to_string(), v.to_string()))
            .collect(),
        ),
    );
    cats
}

fn texts(b: &Block) -> Vec<String> {
    match b {
        Block::Para { runs, .. } => runs.iter().map(|r| r.text.clone()).collect(),
        Block::Section { title, .. } => vec![title.clone()],
        Block::Rule => Vec::new(),
    }
}

fn runs(b: &Block) -> &[Run] {
    match b {
        Block::Para { runs, .. } => runs,
        _ => panic!("not a paragraph: {b:?}"),
    }
}

#[derive(Default)]
struct Fake {
    occ: OccurrencesView,
    rendering: Option<RenderingRefsView>,
    threads: Vec<ThreadView>,
    tags: Vec<TagView>,
    xrefs: Vec<XrefView>,
    study: Vec<StudyXrefView>,
    verse_tags: Vec<(usize, String)>,
    notes: Vec<String>,
    suggested: Vec<SuggestedView>,
    weaves: Vec<WeaveView>,
    tokens: Option<VerseTokensView>,
    answer: Option<SearchView>,
    body: Option<String>,
    word: Option<String>,
    not_kjv: bool,
    localized: bool,
    display: Option<String>,
    printed: Option<String>,
    morph: Option<String>,
    count: usize,
    entry: Option<StrongsView>,
    renderings: Vec<RenderingView>,
    word_codes: Vec<String>,
    partners: Vec<BridgePartnerView>,
    concept: Option<ConceptView>,
    user_note: Option<String>,
}

impl PanelSource for Fake {
    // The answers' names exist for the proofs; only the methods run.
    fn token_word_of(&self, _verse: Seq<char>, _token: u32) -> Option<String> {
        unreachable!()
    }
    fn is_kjv_text_of(&self) -> bool {
        unreachable!()
    }
    fn lexicon_localized_of(&self) -> bool {
        unreachable!()
    }
    fn verse_display_of(&self, _refkey: Seq<char>) -> Option<String> {
        unreachable!()
    }
    fn printed_note_of(&self, _refkey: Seq<char>) -> Option<String> {
        unreachable!()
    }
    fn morph_gloss_of(&self, _verse: Seq<char>, _token: u32) -> Option<String> {
        unreachable!()
    }
    fn occurrence_count_of(&self, _code: Seq<char>) -> usize {
        unreachable!()
    }
    fn strongs_of(&self, _code: Seq<char>) -> Option<StrongsView> {
        unreachable!()
    }
    fn gloss_of(&self, _code: Seq<char>) -> Option<String> {
        unreachable!()
    }
    fn chip_of(&self, _code: Seq<char>) -> ChipView {
        unreachable!()
    }
    fn renderings_of(&self, _code: Seq<char>) -> Vec<RenderingView> {
        unreachable!()
    }
    fn render_key_of(&self, _text: Seq<char>) -> String {
        unreachable!()
    }
    fn word_codes_of(&self, _word: Seq<char>) -> Vec<String> {
        unreachable!()
    }
    fn bridge_partners_of(&self, _code: Seq<char>) -> Vec<BridgePartnerView> {
        unreachable!()
    }
    fn concept_of(&self, _code: Seq<char>) -> Option<ConceptView> {
        unreachable!()
    }
    fn user_note_of(&self, _verse: Seq<char>) -> Option<String> {
        unreachable!()
    }
    fn occurrences_of(&self, _code: Seq<char>) -> OccurrencesView {
        unreachable!()
    }
    fn rendering_refs_of(&self, _code: Seq<char>, _rendering: Seq<char>) -> Option<RenderingRefsView> {
        unreachable!()
    }
    fn threads_of(&self) -> Vec<ThreadView> {
        unreachable!()
    }
    fn tags_of(&self) -> Vec<TagView> {
        unreachable!()
    }
    fn verse_xrefs_of(&self, _verse: Seq<char>) -> Vec<XrefView> {
        unreachable!()
    }
    fn study_xrefs_of(&self, _verse: Seq<char>) -> Vec<StudyXrefView> {
        unreachable!()
    }
    fn verse_tags_of(&self, _verse: Seq<char>) -> Vec<(usize, String)> {
        unreachable!()
    }
    fn verse_notes_of(&self, _verse: Seq<char>) -> Vec<String> {
        unreachable!()
    }
    fn suggested_of(&self) -> Vec<SuggestedView> {
        unreachable!()
    }
    fn weaves_of(&self) -> Vec<WeaveView> {
        unreachable!()
    }
    fn verse_tokens_of(&self, _refkey: Seq<char>) -> Option<VerseTokensView> {
        unreachable!()
    }
    fn search_of(&self, _query: Seq<char>) -> SearchView {
        unreachable!()
    }
    fn verse_body_of(&self, _refkey: Seq<char>) -> Option<String> {
        unreachable!()
    }
    fn occurrences(&self, _code: &str) -> OccurrencesView {
        self.occ.clone()
    }
    fn rendering_refs(&self, _code: &str, _rendering: &str) -> Option<RenderingRefsView> {
        self.rendering.clone()
    }
    fn threads(&self) -> Vec<ThreadView> {
        self.threads.clone()
    }
    fn tags(&self) -> Vec<TagView> {
        self.tags.clone()
    }
    fn verse_xrefs(&self, _verse: &str) -> Vec<XrefView> {
        self.xrefs.clone()
    }
    fn study_xrefs(&self, _verse: &str) -> Vec<StudyXrefView> {
        self.study.clone()
    }
    fn verse_tags(&self, _verse: &str) -> Vec<(usize, String)> {
        self.verse_tags.clone()
    }
    fn verse_notes(&self, _verse: &str) -> Vec<String> {
        self.notes.clone()
    }
    fn suggested(&self) -> Vec<SuggestedView> {
        self.suggested.clone()
    }
    fn weaves(&self) -> Vec<WeaveView> {
        self.weaves.clone()
    }
    fn verse_tokens(&self, _refkey: &str) -> Option<VerseTokensView> {
        self.tokens.clone()
    }
    fn search(&self, _query: &str) -> SearchView {
        self.answer.clone().unwrap()
    }
    fn verse_body(&self, _refkey: &str) -> Option<String> {
        self.body.clone()
    }
    fn token_word(&self, _verse: &str, _token: u32) -> Option<String> {
        self.word.clone()
    }
    fn is_kjv_text(&self) -> bool {
        !self.not_kjv
    }
    fn lexicon_localized(&self) -> bool {
        self.localized
    }
    fn verse_display(&self, _refkey: &str) -> Option<String> {
        self.display.clone()
    }
    fn printed_note(&self, _refkey: &str) -> Option<String> {
        self.printed.clone()
    }
    fn morph_gloss(&self, _verse: &str, _token: u32) -> Option<String> {
        self.morph.clone()
    }
    fn occurrence_count(&self, _code: &str) -> usize {
        self.count
    }
    fn strongs(&self, _code: &str) -> Option<StrongsView> {
        self.entry.clone()
    }
    fn gloss(&self, code: &str) -> Option<String> {
        if code == "G5368" {
            Some("kiss".to_string())
        } else {
            None
        }
    }
    fn chip(&self, code: &str) -> ChipView {
        ChipView { code: code.to_string(), gloss: Some(format!("gloss-{code}")), lemma: Some(format!("lemma-{code}")) }
    }
    fn renderings(&self, _code: &str) -> Vec<RenderingView> {
        self.renderings.clone()
    }
    fn render_key(&self, text: &str) -> String {
        text.to_lowercase()
    }
    fn word_codes(&self, _word: &str) -> Vec<String> {
        self.word_codes.clone()
    }
    fn bridge_partners(&self, _code: &str) -> Vec<BridgePartnerView> {
        self.partners.clone()
    }
    fn concept(&self, _code: &str) -> Option<ConceptView> {
        self.concept.clone()
    }
    fn user_note(&self, _verse: &str) -> Option<String> {
        self.user_note.clone()
    }
}

fn study_source() -> Fake {
    Fake {
        word: Some("loved".to_string()),
        display: Some("John 3:16".to_string()),
        count: 143,
        entry: Some(StrongsView {
            lemma: Some("ἀγαπάω".to_string()),
            xlit: Some("agapáō".to_string()),
            pron: Some("ag-ap-ah'-o".to_string()),
            deriv: None,
            def: Some("to love".to_string()),
            kjv: Some("love, beloved".to_string()),
        }),
        renderings: vec![
            RenderingView { rendering: "love".to_string(), total: 135 },
            RenderingView { rendering: "Loved".to_string(), total: 8 },
        ],
        word_codes: vec!["G25".to_string(), "G5368".to_string()],
        partners: (0..8)
            .map(|i| BridgePartnerView {
                code: format!("H{i}"),
                sources: vec!["Strong's".to_string(), "BDB".to_string()],
                tiers: vec!["human".to_string(), "machine".to_string()],
                research_grade: i == 0,
            })
            .collect(),
        concept: Some(ConceptView {
            community: (0..10).map(|i| format!("G{i}")).collect(),
            top_books: vec![("John".to_string(), 37), ("1 John".to_string(), 28)],
            ot: 0,
            nt: 143,
            leitwort: Some(LeitwortView { n: 143, win_count: 65, score: "4.2".to_string(), label: "John".to_string() }),
        }),
        ..Fake::default()
    }
}

fn find<'a>(blocks: &'a [Block], title: &str) -> Option<usize> {
    blocks.iter().position(|b| matches!(b, Block::Section { title: t, .. } if t == title))
}

fn pair(k: &str, d: &str) -> (String, String) {
    (k.to_string(), d.to_string())
}

#[test]
fn a_code_with_no_occurrences_says_so() {
    let blocks = concordance(&Fake::default(), &catalogs(), Lang::En, "H9999");
    assert_eq!(blocks.len(), 1);
    assert_eq!(texts(&blocks[0]), vec!["No occurrences of H9999."]);
    assert!(runs(&blocks[0])[0].italic);
}

#[test]
fn a_concordance_lists_its_verses_and_counts_the_rest() {
    let src = Fake {
        occ: OccurrencesView { total: 5, verses: vec![pair("Gen 1:1", "Genesis 1:1"), pair("John 1:3", "John 1:3")] },
        entry: Some(StrongsView { lemma: Some("בָּרָא".to_string()), ..StrongsView::default() }),
        ..Fake::default()
    };
    let blocks = concordance(&src, &catalogs(), Lang::En, "H1254");
    assert_eq!(texts(&blocks[0]), vec!["H1254", "  בָּרָא"]);
    assert!(runs(&blocks[0])[0].bold);
    assert_eq!(texts(&blocks[1]), vec!["5 occurrences"]);
    assert_eq!(runs(&blocks[2])[0].uri.as_deref(), Some("go:Gen:1:1"));
    assert_eq!(runs(&blocks[3])[0].text, "John 1:3");
    assert_eq!(texts(&blocks[4]), vec!["… 3 more"]);
    assert_eq!(blocks.len(), 5);
}

#[test]
fn one_occurrence_is_singular() {
    let src = Fake { occ: OccurrencesView { total: 1, verses: vec![pair("Gen 1:1", "Gen 1:1")] }, ..Fake::default() };
    let blocks = concordance(&src, &catalogs(), Lang::En, "H1");
    assert_eq!(texts(&blocks[1]), vec!["1 occurrence"]);
    assert_eq!(blocks.len(), 3);
}

#[test]
fn a_rendering_card_quotes_the_rendering() {
    let none = rendering_concordance(&Fake::default(), &catalogs(), Lang::En, "G26", "love");
    assert_eq!(texts(&none[0]), vec!["G26 is never rendered “love”."]);
    let src = Fake {
        rendering: Some(RenderingRefsView { rendering: "love".into(), total: 1, refs: vec![pair("John 3:16", "John 3:16")] }),
        ..Fake::default()
    };
    let blocks = rendering_concordance(&src, &catalogs(), Lang::En, "G26", "love");
    assert_eq!(texts(&blocks[0]), vec!["G26", "  “love”"]);
    assert_eq!(texts(&blocks[1]), vec!["1 verse rendered “love”"]);
    assert_eq!(blocks.len(), 3);
}

fn thread() -> ThreadView {
    ThreadView {
        name: "Grace".into(),
        notes: "why it matters".into(),
        entries: vec![
            ThreadEntryView {
                verse: "Eph 2:8".into(),
                display: "Ephesians 2:8".into(),
                text: "For by grace are ye saved through faith; and that not of yourselves: it is the gift of God"
                    .split(' ')
                    .map(String::from)
                    .collect(),
                note: Some("the heart of it".into()),
            },
            ThreadEntryView { verse: "Rom 3:24".into(), display: "Romans 3:24".into(), text: vec![], note: None },
        ],
    }
}

#[test]
fn the_threads_list_counts_passages_and_links_each_thread() {
    let empty = threads_list(&Fake::default(), &catalogs(), Lang::En);
    assert_eq!(empty.len(), 2);
    assert_eq!(texts(&empty[0]), vec!["Threads (0)"]);
    let src = Fake { threads: vec![thread()], ..Fake::default() };
    let blocks = threads_list(&src, &catalogs(), Lang::En);
    assert_eq!(blocks.len(), 2);
    assert_eq!(texts(&blocks[1]), vec!["Grace", "   2 passages"]);
    assert_eq!(runs(&blocks[1])[0].uri.as_deref(), Some("thread:0"));
}

#[test]
fn a_thread_card_snapshots_each_passage() {
    let src = Fake { threads: vec![thread()], ..Fake::default() };
    let blocks = thread_detail(&src, &catalogs(), Lang::En, 0);
    assert_eq!(texts(&blocks[0]), vec!["Grace"]);
    assert_eq!(runs(&blocks[1])[2].uri.as_deref(), Some("editthreadnotes:0"));
    assert_eq!(runs(&blocks[1])[4].uri.as_deref(), Some("deletethread:0"));
    assert_eq!(texts(&blocks[2]), vec!["why it matters"]);
    assert_eq!(blocks[3], Block::Rule);
    assert_eq!(runs(&blocks[4])[2].uri.as_deref(), Some("editentrynote:0:0"));
    let snap = &runs(&blocks[5])[0].text;
    assert_eq!(snap, "“For by grace are ye saved through faith; and that not of yourselves: i…”");
    assert_eq!(texts(&blocks[6]), vec!["— the heart of it"]);
    assert_eq!(blocks[7], Block::Rule);
    assert_eq!(runs(&blocks[8])[2].uri.as_deref(), Some("editentrynote:0:1"));
    assert_eq!(blocks.len(), 9);
    // No such thread: the list instead.
    assert_eq!(texts(&thread_detail(&src, &catalogs(), Lang::En, 4)[0]), vec!["Threads (1)"]);
}

fn member(kind: &str, verse: Option<&str>, strongs: Option<&str>, note: Option<&str>) -> TagMemberView {
    TagMemberView {
        kind: kind.into(),
        verse: verse.map(String::from),
        display: None,
        strongs: strongs.map(String::from),
        note: note.map(String::from),
    }
}

#[test]
fn a_tag_with_two_verses_offers_a_weave() {
    let tag = TagView {
        name: "Light".into(),
        members: vec![
            member("verse", Some("Gen 1:3"), None, Some("first light")),
            member("strongs", None, Some("H216"), None),
            member("verse", Some("John 8:12"), None, Some("")),
        ],
    };
    let src = Fake { tags: vec![tag], ..Fake::default() };
    let list = tags_list(&src, &catalogs(), Lang::En);
    assert_eq!(texts(&list[1]), vec!["Light", "   3 members"]);
    let blocks = tag_detail(&src, &catalogs(), Lang::En, 0);
    assert_eq!(runs(&blocks[1])[2].uri.as_deref(), Some("deletetag:0"));
    assert_eq!(runs(&blocks[2])[0].uri.as_deref(), Some("makeweave:0"));
    assert_eq!(texts(&blocks[3]), vec!["Gen 1:3", "   first light"]);
    assert_eq!(runs(&blocks[3])[0].uri.as_deref(), Some("go:Gen:1:3"));
    assert_eq!(texts(&blocks[4]), vec!["≈ H216"]);
    assert_eq!(runs(&blocks[4])[0].uri.as_deref(), Some("occ:H216"));
    assert_eq!(texts(&blocks[5]), vec!["John 8:12"]);
    assert_eq!(blocks.len(), 6);
}

fn link(a: &str, b: &str, label: &str) -> WeaveLinkView {
    WeaveLinkView {
        a: a.into(),
        a_display: a.into(),
        b: b.into(),
        b_display: b.into(),
        label: label.into(),
        span_a: Some([1, 2]),
        span_b: None,
    }
}

fn weave(index: usize, name: &str, links: usize, suggested: bool) -> WeaveView {
    WeaveView {
        index,
        name: name.into(),
        kind_label: "chain".into(),
        notes: String::new(),
        suggested,
        links: (0..links).map(|_| link("Gen 1:1", "John 1:1", "")).collect(),
    }
}

#[test]
fn the_weave_library_lists_the_most_linked_first() {
    let src = Fake {
        weaves: vec![weave(0, "a", 1, false), weave(1, "b", 3, true), weave(2, "c", 1, false), weave(3, "d", 2, false)],
        ..Fake::default()
    };
    let blocks = weaves_list(&src, &catalogs(), Lang::En);
    let names: Vec<String> = blocks[1..].iter().map(|b| runs(b)[0].text.clone()).collect();
    assert_eq!(names, vec!["b", "d", "a", "c"]);
    assert_eq!(texts(&blocks[1]), vec!["b", "   chain · 3 links · suggested"]);
    assert_eq!(runs(&blocks[1])[0].uri.as_deref(), Some("weave:1"));
}

#[test]
fn a_compare_card_sets_both_verses_side_by_side() {
    let mut w = weave(0, "light", 1, false);
    w.links[0].label = "the same light".into();
    let src = Fake {
        weaves: vec![w],
        tokens: Some(VerseTokensView {
            tokens: vec![
                TokenView { render: "And".into(), added: false },
                TokenView { render: "God".into(), added: false },
                TokenView { render: "said".into(), added: true },
            ],
        }),
        ..Fake::default()
    };
    let blocks = compare_card(&src, &catalogs(), Lang::En, true, 0);
    assert_eq!(texts(&blocks[0]), vec!["light", "   chain"]);
    assert_eq!(runs(&blocks[1])[4].uri.as_deref(), Some("deleteweave:0"));
    assert_eq!(blocks[2], Block::Rule);
    assert_eq!(texts(&blocks[3]), vec!["“the same light”"]);
    let side = runs(&blocks[5]);
    assert_eq!(side.iter().map(|r| r.bold).collect::<Vec<_>>(), vec![false, true, true]);
    assert!(side[2].italic && side[2].color == Color::Faded);
    assert_eq!(side[0].text, "And ");
    // The second side has no span: nothing bold.
    assert!(runs(&blocks[7]).iter().all(|r| !r.bold));
    assert_eq!(blocks.len(), 8);
    assert!(compare_card(&src, &catalogs(), Lang::En, true, 1).is_empty());
}

#[test]
fn a_suggestion_carries_its_review_actions() {
    let s = SuggestedView {
        index: 2,
        name: "echo".into(),
        kind: "thematic".into(),
        notes: String::new(),
        lib_index: Some(7),
        links: vec![SuggestedLinkView {
            a: "Gen 1:1".into(),
            a_display: "Gen 1:1".into(),
            b: "John 1:1".into(),
            b_display: "John 1:1".into(),
            label: "beginning".into(),
        }],
    };
    let src = Fake { suggested: vec![s], ..Fake::default() };
    let blocks = suggested(&src, &catalogs(), Lang::En);
    assert_eq!(blocks[1], Block::Rule);
    assert_eq!(texts(&blocks[3]), vec!["Gen 1:1", "  ↔  ", "John 1:1", "   beginning"]);
    let uris: Vec<Option<String>> = runs(&blocks[4]).iter().map(|r| r.uri.clone()).collect();
    assert_eq!(
        uris,
        vec![
            Some("weave:7".into()),
            None,
            Some("approve:2".into()),
            None,
            Some("reject:2".into()),
            None,
            Some("editweavenotes:7".into())
        ]
    );
}

#[test]
fn a_reference_search_is_one_go_link() {
    let src = Fake {
        answer: Some(SearchView::Goto { book: "John".into(), chapter: 3, verse: Some(16), display: "John 3:16".into() }),
        ..Fake::default()
    };
    let blocks = search(&src, &catalogs(), Lang::En, "jn 3:16");
    assert_eq!(blocks.len(), 1);
    assert_eq!(texts(&blocks[0]), vec!["Go to John 3:16"]);
    assert_eq!(runs(&blocks[0])[0].uri.as_deref(), Some("go:John:3:16"));
    assert_eq!(runs(&blocks[0])[0].size, Size::SearchGoto);
}

#[test]
fn hits_come_with_a_windowed_snippet() {
    let hit = SearchHitView { verse: "John 3:16".into(), display: "John 3:16".into(), note: false, why: "word".into() };
    let src = Fake {
        answer: Some(SearchView::Hits { how: String::new(), total: 3, capped: true, hits: vec![hit] }),
        body: Some("For God so loved the world".into()),
        ..Fake::default()
    };
    let blocks = search(&src, &catalogs(), Lang::En, "LOVED much");
    assert_eq!(texts(&blocks[0]), vec!["3 results"]);
    assert_eq!(texts(&blocks[1]), vec!["John 3:16", "   word"]);
    assert_eq!(texts(&blocks[2]), vec!["For God so ", "loved", " the world"]);
    assert!(runs(&blocks[2])[1].bold);
    assert_eq!(texts(&blocks[3]), vec!["… 2 more"]);
    assert_eq!(blocks.len(), 4);
}

#[test]
fn a_long_verse_is_windowed_at_word_boundaries() {
    let body = format!("{} needle {}", "aaaa ".repeat(20), "bbbb ".repeat(20));
    let b = snippet_blocks(Some(&body), "needle");
    let t = texts(&b[0]);
    assert_eq!(t[0], "…");
    assert_eq!(t[2], "needle");
    assert_eq!(t.last().unwrap(), "…");
    assert!(t[1].starts_with("aaaa"));
    assert!(snippet_blocks(None, "x").is_empty());
    assert!(snippet_blocks(Some(""), "x").is_empty());
    // No match: the first 92 characters, snapped to a word.
    let t = texts(&snippet_blocks(Some(&body), "zzz")[0]);
    assert_eq!(t.len(), 2);
}

#[test]
fn nothing_matched_says_what_to_try() {
    let src = Fake {
        answer: Some(SearchView::Hits { how: "fuzzy".into(), total: 0, capped: false, hits: vec![] }),
        ..Fake::default()
    };
    let blocks = search(&src, &catalogs(), Lang::En, "qqq");
    assert_eq!(texts(&blocks[0]), vec!["0 results"]);
    assert_eq!(texts(&blocks[1]), vec!["fuzzy"]);
    assert!(texts(&blocks[2])[0].starts_with("Nothing matched."));
    assert_eq!(blocks.len(), 3);
}

#[test]
fn a_verse_names_each_of_its_weaves_once() {
    let x = |v: &str, w: &str, i: Option<usize>| XrefView {
        verse: v.into(),
        display: v.into(),
        weave: w.into(),
        weave_index: i,
    };
    let src = Fake {
        xrefs: vec![x("Gen 1:1", "creation", Some(0)), x("Ps 33:6", "creation", Some(0)), x("Heb 11:3", "faith", None)],
        study: vec![StudyXrefView { to: "Isa 45:18".into(), to_display: "Isa 45:18".into(), end: None, end_display: None }],
        verse_tags: vec![(4, "origins".into())],
        notes: vec!["Heb. the heavens".into()],
        ..Fake::default()
    };
    let blocks = verse_extras(&src, &catalogs(), Lang::En, "John 1:1", Gates::from_full(false));
    assert_eq!(runs(&blocks[0])[0].uri.as_deref(), Some("addtag:John 1:1"));
    assert_eq!(texts(&blocks[1]), vec!["In 2 weaves"]);
    assert_eq!(runs(&blocks[2])[0].uri.as_deref(), Some("weave:0"));
    assert_eq!(runs(&blocks[3])[0].uri, None);
    assert_eq!(texts(&blocks[4]), vec!["Cross-references (3)"]);
    // No human gate: no study cross-references; the tags and notes follow.
    assert_eq!(runs(&blocks[9])[2].uri.as_deref(), Some("untag:4:John 1:1"));
    assert_eq!(texts(&blocks[11]), vec!["Heb. the heavens"]);
    assert_eq!(blocks.len(), 12);
    let full = verse_extras(&src, &catalogs(), Lang::En, "John 1:1", Gates::from_full(true));
    assert_eq!(full.len(), 14);
}

#[test]
fn the_guide_closes_with_the_about_card() {
    let cats = catalogs();
    let guide = guide_blocks_in(&cats, Lang::En);
    let about = about_blocks_in(&cats, Lang::En);
    assert_eq!(texts(&guide[0]), vec!["Guide"]);
    assert_eq!(texts(&about[0]), vec!["About"]);
    assert_eq!(&guide[guide.len() - about.len()..], &about[..]);
    assert_eq!(guide[guide.len() - about.len() - 1], Block::Rule);
    // An id with no text anywhere shows itself.
    assert_eq!(texts(&guide[1]), vec!["guide.lede"]);
}

#[test]
fn code_study_shows_the_entry_and_every_tier_when_all_gates_are_open() {
    let blocks = code_study_card(&study_source(), &catalogs(), Lang::En, true, "G25", "loved");
    assert!(matches!(blocks[0], Block::Rule));
    assert_eq!(texts(&blocks[1]), vec!["G25", "   ", "143 occurrences"]);
    assert_eq!(runs(&blocks[1])[2].uri.as_deref(), Some("occ:G25"));
    assert_eq!(texts(&blocks[2]), vec!["ἀγαπάω"]);
    assert_eq!(texts(&blocks[4]), vec!["/ag-ap-ah'-o/"]);
    assert_eq!(texts(&blocks[5]), vec!["to love"]);
    assert_eq!(texts(&blocks[6]), vec!["KJV: love, beloved"]);
    let r = find(&blocks, "RENDERINGS").unwrap();
    let lens = runs(&blocks[r + 1]);
    assert_eq!(lens[0].text, "love");
    assert!(!lens[0].bold);
    assert_eq!(lens[0].uri.as_deref(), Some("rend:G25:love"));
    assert_eq!(lens[1].text, " ×135");
    assert_eq!(lens[2].text, "  ·  ");
    assert_eq!(lens[3].text, "Loved");
    assert!(lens[3].bold, "the tapped word's own rendering is bold");
    // The reverse lens leaves out the code itself.
    assert_eq!(texts(&blocks[r + 2]), vec!["“loved” also translates ", "G5368 (kiss)"]);
    assert_eq!(runs(&blocks[r + 2])[1].uri.as_deref(), Some("code:G5368:loved"));
    let p = find(&blocks, "SAME ROOT ACROSS TESTAMENTS").unwrap();
    // At most six partners.
    let a = find(&blocks, "APPEARS ALONGSIDE").unwrap();
    assert_eq!(a - p - 1, 6);
    assert_eq!(texts(&blocks[p + 1]), vec!["gloss-H0", " lemma-H0", "   Strong's + BDB", " †", " ≈", " ⚗"]);
    // At most eight community chips, separated by middots.
    let chips = runs(&blocks[a + 1]);
    assert_eq!(chips.iter().filter(|r| r.uri.is_some()).count(), 8);
    let m = find(&blocks, "MOST USED IN").unwrap();
    assert_eq!(texts(&blocks[m + 1]), vec!["John ×37 · 1 John ×28", "   (OT 0 · NT 143)"]);
    let l = find(&blocks, "LEITWORT").unwrap();
    assert_eq!(texts(&blocks[l + 1]), vec!["65 of its 143 uses cluster in John ", "(p ≈ 10^−4.2)"]);
    assert_eq!(texts(blocks.last().unwrap())[0], "where this comes from:  ");
}

#[test]
fn code_study_without_gates_is_the_dictionary_alone() {
    let blocks = code_study_card(&study_source(), &catalogs(), Lang::En, false, "G25", "loved");
    assert_eq!(blocks.len(), 7);
    assert!(find(&blocks, "RENDERINGS").is_none());
    let human_only = code_study_card_gated(&study_source(), &catalogs(), Lang::En, Gates { human: true, machine: false }, "G25", "loved");
    assert!(find(&human_only, "RENDERINGS").is_some());
    assert!(find(&human_only, "LEITWORT").is_none());
}

#[test]
fn a_code_outside_the_dictionary_says_so() {
    let src = Fake { count: 1, ..Fake::default() };
    let blocks = code_study_card(&src, &catalogs(), Lang::En, false, "H9999", "");
    assert_eq!(texts(&blocks[1]), vec!["H9999", "   ", "1 occurrence"]);
    assert_eq!(texts(&blocks[2]), vec!["Not in the dictionary."]);
}

#[test]
fn a_localized_machine_translated_dictionary_is_marked_and_caveated() {
    let src = Fake { localized: true, ..study_source() };
    let blocks = code_study_card(&src, &catalogs(), Lang::De, false, "G25", "");
    let def = runs(&blocks[5]);
    assert_eq!(def.len(), 3);
    assert_eq!(texts(&blocks[6]), vec!["Luther: love, beloved"]);
    let caveat = runs(blocks.last().unwrap());
    assert_eq!(caveat[2].uri.as_deref(), Some("ext:https://github.com/glendonjklassen/plumbline/issues"));
}

#[test]
fn word_study_heads_with_the_verse_and_word_and_ends_with_the_legend() {
    let src = Fake { printed: Some("Luther 3,16".to_string()), morph: Some("verb".to_string()), ..study_source() };
    let codes = vec!["G25".to_string()];
    let blocks = word_study(&src, &catalogs(), Lang::En, true, "John 3:16", 4, &codes);
    assert_eq!(texts(&blocks[0]), vec!["John 3:16", "  ", "Luther 3,16"]);
    assert!(runs(&blocks[0])[0].bold);
    assert_eq!(texts(&blocks[1]), vec!["loved"]);
    assert_eq!(texts(&blocks[2]), vec!["verb"]);
    assert_eq!(texts(&blocks[3]), vec!["Your note", "   ", "add"]);
    assert!(matches!(blocks[4], Block::Rule));
    assert_eq!(texts(blocks.last().unwrap())[0], "where this comes from:  ");
    let bare = word_study_gated(&src, &catalogs(), Lang::En, Gates { human: false, machine: false }, "John 3:16", 4, &Vec::new());
    assert!(bare.iter().any(|b| texts(b) == vec!["No Strong's number."]));
    assert!(bare.iter().all(|b| texts(b).first().map(|t| t.as_str()) != Some("where this comes from:  ")));
}
