//! The study-panel **content model** and the cards built from it. A card is a
//! typed list of blocks; each shell walks the blocks with a small renderer.
//! A [`Run`] carries a semantic colour role, a size role, bold / italic and an
//! optional `uri` that the shell routes back through [`crate::panel::parse_link`].
//!
//! Data reaches a card through the [`PanelSource`] trait, which each shell
//! implements over its own state. Every card is built by a pure function that
//! takes what the source answered as arguments, so what a card shows is stated
//! exactly for every answer.

use vstd::prelude::*;

use crate::i18n::{args_view, plural, t, t_spec, Catalogs, Lang};
use crate::memory::joined as joined_words;
use crate::panel::{
    go_uri, go_uri_spec, BridgePartnerView, ChipView, Color, ConceptView, Gates, OccurrencesView, RenderingView,
    StrongsView, RenderingRefsView, StudyXrefView, TagMemberView, TagView,
    SuggestedLinkView, SuggestedView, ThreadEntryView, ThreadView, TokenView, VerseTokensView, WeaveLinkView,
    SearchHitView, SearchView, WeaveView, XrefView,
};
use crate::text::{
    ascii_lower, chars_of, dec, dec_string, is_white, lead_white, lower_ascii, push_char, push_dec, push_str,
    str_eq, string_from, string_of_range, trim_end, trimmed_end, white,
};

verus! {

// ── the block model ──────────────────────────────────────────────────────────

/// A logical size role. The shell maps each role to a point size, so the
/// hierarchy stays consistent across cards.
#[derive(Debug, Clone, Copy, PartialEq, Eq, Structural)]
pub enum Size {
    Word,
    Lemma,
    Title,
    SearchGoto,
    SuggestHead,
    Label,
    Body,
    List,
    Small,
    Note,
    Caption,
    Fine,
    Mark,
}

/// One styled span of text. `uri`, when present, makes the run a link.
#[derive(Debug, Clone, PartialEq)]
pub struct Run {
    pub text: String,
    pub size: Size,
    pub color: Color,
    pub bold: bool,
    pub italic: bool,
    pub uri: Option<String>,
}

/// A run as plain values: text, size, colour, bold, italic, link.
pub type RunModel = (Seq<char>, Size, Color, bool, bool, Option<Seq<char>>);

impl View for Run {
    type V = RunModel;

    open spec fn view(&self) -> RunModel {
        (
            self.text@,
            self.size,
            self.color,
            self.bold,
            self.italic,
            match self.uri {
                Some(u) => Some(u@),
                None => None,
            },
        )
    }
}

/// The views of a run of runs.
pub open spec fn runs_view(rs: Seq<Run>) -> Seq<RunModel> {
    rs.map_values(|r: Run| r@)
}

/// A panel block: a section header with an optional tier mark, a flowing
/// paragraph of runs (`indent` insets it, `top_gap` adds space above), or a
/// horizontal rule.
#[derive(Debug, Clone, PartialEq)]
pub enum Block {
    Section { title: String, mark: Option<(String, Color)> },
    Para { runs: Vec<Run>, indent: bool, top_gap: bool },
    Rule,
}

/// A block as plain values.
pub enum BlockModel {
    Section { title: Seq<char>, mark: Option<(Seq<char>, Color)> },
    Para { runs: Seq<RunModel>, indent: bool, top_gap: bool },
    Rule,
}

impl View for Block {
    type V = BlockModel;

    open spec fn view(&self) -> BlockModel {
        match self {
            Block::Section { title, mark } => BlockModel::Section {
                title: title@,
                mark: match mark {
                    Some(m) => Some((m.0@, m.1)),
                    None => None,
                },
            },
            Block::Para { runs, indent, top_gap } => BlockModel::Para {
                runs: runs_view(runs@),
                indent: *indent,
                top_gap: *top_gap,
            },
            Block::Rule => BlockModel::Rule,
        }
    }
}

/// The views of a card's blocks.
pub open spec fn blocks_view(bs: Seq<Block>) -> Seq<BlockModel> {
    bs.map_values(|b: Block| b@)
}

/// A plain run.
pub open spec fn run(text: Seq<char>, size: Size, color: Color) -> RunModel {
    (text, size, color, false, false, None)
}

/// The run in bold.
pub open spec fn bolded(r: RunModel) -> RunModel {
    (r.0, r.1, r.2, true, r.4, r.5)
}

/// The run in italics.
pub open spec fn italicized(r: RunModel) -> RunModel {
    (r.0, r.1, r.2, r.3, true, r.5)
}

/// The run as a link to `uri`.
pub open spec fn linked(r: RunModel, uri: Seq<char>) -> RunModel {
    (r.0, r.1, r.2, r.3, r.4, Some(uri))
}

/// A flowing paragraph, neither inset nor spaced.
pub open spec fn para(runs: Seq<RunModel>) -> BlockModel {
    BlockModel::Para { runs, indent: false, top_gap: false }
}

/// A gold link that navigates to a verse.
pub open spec fn go_run(refkey: Seq<char>, display: Seq<char>, size: Size) -> RunModel {
    linked(run(display, size, Color::Gold), go_uri_spec(refkey))
}

impl Run {
    /// A plain run.
    pub fn new(text: &str, size: Size, color: Color) -> (r: Run)
        ensures
            r@ == run(text@, size, color),
    {
        Run { text: string_from(text), size, color, bold: false, italic: false, uri: None }
    }

    /// The same run in bold.
    pub fn bold(self) -> (r: Run)
        ensures
            r@ == bolded(self@),
    {
        Run { bold: true, ..self }
    }

    /// The same run in italics.
    pub fn italic(self) -> (r: Run)
        ensures
            r@ == italicized(self@),
    {
        Run { italic: true, ..self }
    }

    /// The same run as a link.
    pub fn link(self, uri: String) -> (r: Run)
        ensures
            r@ == linked(self@, uri@),
    {
        Run { uri: Some(uri), ..self }
    }
}

fn para_of(runs: Vec<Run>) -> (b: Block)
    ensures
        b@ == para(runs_view(runs@)),
{
    Block::Para { runs, indent: false, top_gap: false }
}

fn one(r: Run) -> (b: Block)
    ensures
        b@ == para(seq![r@]),
{
    let mut v: Vec<Run> = Vec::new();
    v.push(r);
    assert(runs_view(v@) =~= seq![r@]);
    para_of(v)
}

fn two(a: Run, b: Run) -> (r: Block)
    ensures
        r@ == para(seq![a@, b@]),
{
    let mut v: Vec<Run> = Vec::new();
    v.push(a);
    v.push(b);
    assert(runs_view(v@) =~= seq![a@, b@]);
    para_of(v)
}

fn go(refkey: &str, display: &str, size: Size) -> (r: Run)
    ensures
        r@ == go_run(refkey@, display@, size),
{
    Run::new(display, size, Color::Gold).link(go_uri(refkey))
}

fn joined(a: &str, b: &str) -> (r: String)
    ensures
        r@ == a@ + b@,
{
    let mut s = string_from(a);
    push_str(&mut s, b);
    s
}

fn push_block(out: &mut Vec<Block>, b: Block)
    ensures
        blocks_view(final(out)@) == blocks_view(old(out)@).push(b@),
{
    out.push(b);
    assert(blocks_view(out@) =~= blocks_view(old(out)@).push(b@));
}

// ── catalogue strings ────────────────────────────────────────────────────────

/// The catalogues as plain values.
pub type CatsModel = Seq<Seq<(Seq<char>, Seq<char>)>>;

/// A catalogue string with no arguments.
pub open spec fn s_text(cats: CatsModel, lang: Lang, id: Seq<char>) -> Seq<char> {
    t_spec(cats, lang, id, Seq::empty())
}

/// A catalogue string with `{n}` filled.
pub open spec fn n_text(cats: CatsModel, lang: Lang, id: Seq<char>, n: nat) -> Seq<char> {
    t_spec(cats, lang, id, seq![("n"@, dec(n))])
}

/// The one-or-other form of a catalogue string by `n`, with `{n}` filled.
pub open spec fn p_text(cats: CatsModel, lang: Lang, one: Seq<char>, other: Seq<char>, n: nat) -> Seq<
    char,
> {
    t_spec(
        cats,
        lang,
        if n == 1 {
            one
        } else {
            other
        },
        seq![("n"@, dec(n))],
    )
}

fn s(cats: &Catalogs, lang: Lang, id: &str) -> (r: String)
    ensures
        r@ == s_text(cats@, lang, id@),
{
    let none: Vec<(&str, &str)> = Vec::new();
    assert(args_view(none@) =~= Seq::empty());
    t(cats, lang, id, none.as_slice())
}

fn sn(cats: &Catalogs, lang: Lang, id: &str, n: u64) -> (r: String)
    ensures
        r@ == n_text(cats@, lang, id@, n as nat),
{
    let count = dec_string(n);
    let mut args: Vec<(&str, &str)> = Vec::new();
    args.push(("n", count.as_str()));
    assert(args_view(args@) =~= seq![("n"@, dec(n as nat))]);
    t(cats, lang, id, args.as_slice())
}

fn sp(cats: &Catalogs, lang: Lang, one: &str, other: &str, n: u64) -> (r: String)
    ensures
        r@ == p_text(cats@, lang, one@, other@, n as nat),
{
    let none: Vec<(&str, &str)> = Vec::new();
    assert(seq![("n"@, dec(n as nat))] + args_view(none@) =~= seq![("n"@, dec(n as nat))]);
    plural(cats, lang, one, other, n, none.as_slice())
}

// ── the source of a card's data ──────────────────────────────────────────────

/// What a shell answers when a card asks. Each shell implements it over its
/// own state, and every method is a thin projection of that state: each
/// answer is named by a spec function of the shell and the question, which
/// the method returns. The cards only read it.
pub trait PanelSource {
    /// The surface word at a token, if the verse and token resolve.
    spec fn token_word_of(&self, verse: Seq<char>, token: u32) -> Option<String>;

    fn token_word(&self, verse: &str, token: u32) -> (r: Option<String>)
        ensures
            r == self.token_word_of(verse@, token),
    ;

    /// Whether the open text is the KJV, which every analytic tier is tagged
    /// against.
    spec fn is_kjv_text_of(&self) -> bool;

    fn is_kjv_text(&self) -> (r: bool)
        ensures
            r == self.is_kjv_text_of(),
    ;

    /// Whether the loaded dictionary is a localized one rather than the
    /// English source.
    spec fn lexicon_localized_of(&self) -> bool;

    fn lexicon_localized(&self) -> (r: bool)
        ensures
            r == self.lexicon_localized_of(),
    ;

    /// A verse's display form, if it resolves.
    spec fn verse_display_of(&self, refkey: Seq<char>) -> Option<String>;

    fn verse_display(&self, refkey: &str) -> (r: Option<String>)
        ensures
            r == self.verse_display_of(refkey@),
    ;

    /// What a printed Bible in the reader's language calls a verse, where its
    /// numbering differs.
    spec fn printed_note_of(&self, refkey: Seq<char>) -> Option<String>;

    fn printed_note(&self, refkey: &str) -> (r: Option<String>)
        ensures
            r == self.printed_note_of(refkey@),
    ;

    /// The morphology gloss of a token, when there is one.
    spec fn morph_gloss_of(&self, verse: Seq<char>, token: u32) -> Option<String>;

    fn morph_gloss(&self, verse: &str, token: u32) -> (r: Option<String>)
        ensures
            r == self.morph_gloss_of(verse@, token),
    ;

    /// How often a code occurs.
    spec fn occurrence_count_of(&self, code: Seq<char>) -> usize;

    fn occurrence_count(&self, code: &str) -> (r: usize)
        ensures
            r == self.occurrence_count_of(code@),
    ;

    /// A code's dictionary entry.
    spec fn strongs_of(&self, code: Seq<char>) -> Option<StrongsView>;

    fn strongs(&self, code: &str) -> (r: Option<StrongsView>)
        ensures
            r == self.strongs_of(code@),
    ;

    /// The usual rendering of a code, when it has one.
    spec fn gloss_of(&self, code: Seq<char>) -> Option<String>;

    fn gloss(&self, code: &str) -> (r: Option<String>)
        ensures
            r == self.gloss_of(code@),
    ;

    /// A code's chip: its gloss and lemma.
    spec fn chip_of(&self, code: Seq<char>) -> ChipView;

    fn chip(&self, code: &str) -> (r: ChipView)
        ensures
            r == self.chip_of(code@),
    ;

    /// Every rendering of a code, most frequent first.
    spec fn renderings_of(&self, code: Seq<char>) -> Vec<RenderingView>;

    fn renderings(&self, code: &str) -> (r: Vec<RenderingView>)
        ensures
            r == self.renderings_of(code@),
    ;

    /// The key a rendering is compared by, so the tapped word's own rendering
    /// can be found among a code's.
    spec fn render_key_of(&self, text: Seq<char>) -> String;

    fn render_key(&self, text: &str) -> (r: String)
        ensures
            r == self.render_key_of(text@),
    ;

    /// The codes a surface word translates.
    spec fn word_codes_of(&self, word: Seq<char>) -> Vec<String>;

    fn word_codes(&self, word: &str) -> (r: Vec<String>)
        ensures
            r == self.word_codes_of(word@),
    ;

    /// A code's same-root partners across the testaments.
    spec fn bridge_partners_of(&self, code: Seq<char>) -> Vec<BridgePartnerView>;

    fn bridge_partners(&self, code: &str) -> (r: Vec<BridgePartnerView>)
        ensures
            r == self.bridge_partners_of(code@),
    ;

    /// The concept engine's view of a code.
    spec fn concept_of(&self, code: Seq<char>) -> Option<ConceptView>;

    fn concept(&self, code: &str) -> (r: Option<ConceptView>)
        ensures
            r == self.concept_of(code@),
    ;

    /// The reader's own note on a verse.
    spec fn user_note_of(&self, verse: Seq<char>) -> Option<String>;

    fn user_note(&self, verse: &str) -> (r: Option<String>)
        ensures
            r == self.user_note_of(verse@),
    ;

    /// A code's full concordance.
    spec fn occurrences_of(&self, code: Seq<char>) -> OccurrencesView;

    fn occurrences(&self, code: &str) -> (r: OccurrencesView)
        ensures
            r == self.occurrences_of(code@),
    ;

    /// The verses where a code is rendered one way, when it ever is.
    spec fn rendering_refs_of(&self, code: Seq<char>, rendering: Seq<char>) -> Option<RenderingRefsView>;

    fn rendering_refs(&self, code: &str, rendering: &str) -> (r: Option<RenderingRefsView>)
        ensures
            r == self.rendering_refs_of(code@, rendering@),
    ;

    /// The reader's threads.
    spec fn threads_of(&self) -> Vec<ThreadView>;

    fn threads(&self) -> (r: Vec<ThreadView>)
        ensures
            r == self.threads_of(),
    ;

    /// The reader's tags.
    spec fn tags_of(&self) -> Vec<TagView>;

    fn tags(&self) -> (r: Vec<TagView>)
        ensures
            r == self.tags_of(),
    ;

    /// The weave partners of a verse.
    spec fn verse_xrefs_of(&self, verse: Seq<char>) -> Vec<XrefView>;

    fn verse_xrefs(&self, verse: &str) -> (r: Vec<XrefView>)
        ensures
            r == self.verse_xrefs_of(verse@),
    ;

    /// The study cross-references of a verse.
    spec fn study_xrefs_of(&self, verse: Seq<char>) -> Vec<StudyXrefView>;

    fn study_xrefs(&self, verse: &str) -> (r: Vec<StudyXrefView>)
        ensures
            r == self.study_xrefs_of(verse@),
    ;

    /// The reader's tags on a verse, as `(tag index, name)`.
    spec fn verse_tags_of(&self, verse: Seq<char>) -> Vec<(usize, String)>;

    fn verse_tags(&self, verse: &str) -> (r: Vec<(usize, String)>)
        ensures
            r == self.verse_tags_of(verse@),
    ;

    /// The translators' margin notes on a verse.
    spec fn verse_notes_of(&self, verse: Seq<char>) -> Vec<String>;

    fn verse_notes(&self, verse: &str) -> (r: Vec<String>)
        ensures
            r == self.verse_notes_of(verse@),
    ;

    /// The weaves awaiting review.
    spec fn suggested_of(&self) -> Vec<SuggestedView>;

    fn suggested(&self) -> (r: Vec<SuggestedView>)
        ensures
            r == self.suggested_of(),
    ;

    /// The weave library.
    spec fn weaves_of(&self) -> Vec<WeaveView>;

    fn weaves(&self) -> (r: Vec<WeaveView>)
        ensures
            r == self.weaves_of(),
    ;

    /// A verse's tokens, when the verse exists.
    spec fn verse_tokens_of(&self, refkey: Seq<char>) -> Option<VerseTokensView>;

    fn verse_tokens(&self, refkey: &str) -> (r: Option<VerseTokensView>)
        ensures
            r == self.verse_tokens_of(refkey@),
    ;

    /// The answer to a search query.
    spec fn search_of(&self, query: Seq<char>) -> SearchView;

    fn search(&self, query: &str) -> (r: SearchView)
        ensures
            r == self.search_of(query@),
    ;

    /// A verse's plain text, when the verse exists.
    spec fn verse_body_of(&self, refkey: Seq<char>) -> Option<String>;

    fn verse_body(&self, refkey: &str) -> (r: Option<String>)
        ensures
            r == self.verse_body_of(refkey@),
    ;
}

// ── concordance ──────────────────────────────────────────────────────────────

/// The plural "s" of an English count.
pub open spec fn plural_s(n: nat) -> Seq<char> {
    if n == 1 {
        Seq::empty()
    } else {
        "s"@
    }
}

/// The "… N more" tail of a capped list, when `total` exceeds what is shown.
pub open spec fn more_tail(cats: CatsModel, lang: Lang, total: nat, shown: nat) -> Seq<BlockModel> {
    if total > shown {
        seq![para(seq![italicized(run(n_text(cats, lang, "panel.more"@, (total - shown) as nat), Size::Caption, Color::Faded))])]
    } else {
        Seq::empty()
    }
}

/// One verse link per `(ref key, display)` pair.
pub open spec fn verse_links(refs: Seq<(Seq<char>, Seq<char>)>) -> Seq<BlockModel> {
    refs.map_values(|p: (Seq<char>, Seq<char>)| para(seq![go_run(p.0, p.1, Size::List)]))
}

/// The pairs as plain values.
pub open spec fn pairs_view(ps: Seq<(String, String)>) -> Seq<(Seq<char>, Seq<char>)> {
    ps.map_values(|p: (String, String)| (p.0@, p.1@))
}

/// The concordance card of `code`, given its occurrences and its lemma.
pub open spec fn concordance_card(
    cats: CatsModel,
    lang: Lang,
    code: Seq<char>,
    total: u32,
    verses: Seq<(Seq<char>, Seq<char>)>,
    lemma: Option<Seq<char>>,
) -> Seq<BlockModel> {
    if total == 0 && verses.len() == 0 {
        seq![para(seq![italicized(run(t_spec(cats, lang, "panel.noOccurrences"@, seq![("code"@, code)]), Size::Body, Color::Faded))])]
    } else {
        let head = seq![bolded(run(code, Size::Title, Color::Ink))] + match lemma {
            Some(l) => seq![run("  "@ + l, Size::Title, Color::Ink)],
            None => Seq::empty(),
        };
        seq![
            para(head),
            para(seq![run(dec(total as nat) + " occurrence"@ + plural_s(total as nat), Size::Small, Color::Gold)]),
        ] + verse_links(verses) + more_tail(cats, lang, total as nat, verses.len())
    }
}

fn push_more(out: &mut Vec<Block>, cats: &Catalogs, lang: Lang, total: u64, shown: u64)
    ensures
        blocks_view(final(out)@) == blocks_view(old(out)@) + more_tail(cats@, lang, total as nat, shown as nat),
{
    if total > shown {
        let r = Run::new(sn(cats, lang, "panel.more", total - shown).as_str(), Size::Caption, Color::Faded).italic();
        push_block(out, one(r));
    } else {
        assert(blocks_view(out@) =~= blocks_view(out@) + Seq::<BlockModel>::empty());
    }
}

fn push_verse_links(out: &mut Vec<Block>, refs: &Vec<(String, String)>)
    ensures
        blocks_view(final(out)@) == blocks_view(old(out)@) + verse_links(pairs_view(refs@)),
{
    let ghost start = blocks_view(out@);
    let ghost want = verse_links(pairs_view(refs@));
    let mut i: usize = 0;
    while i < refs.len()
        invariant
            i <= refs.len(),
            want == verse_links(pairs_view(refs@)),
            blocks_view(out@) == start + want.take(i as int),
        decreases refs.len() - i,
    {
        let b = one(go(refs[i].0.as_str(), refs[i].1.as_str(), Size::List));
        push_block(out, b);
        assert(want.take(i + 1) =~= want.take(i as int).push(b@));
        i = i + 1;
    }
    assert(want.take(refs.len() as int) =~= want);
}

/// The concordance card, from what the source answered.
pub fn concordance_blocks(
    cats: &Catalogs,
    lang: Lang,
    code: &str,
    occ: &OccurrencesView,
    lemma: Option<&str>,
) -> (r: Vec<Block>)
    ensures
        blocks_view(r@) == concordance_card(
            cats@,
            lang,
            code@,
            occ.total,
            pairs_view(occ.verses@),
            match lemma {
                Some(l) => Some(l@),
                None => None,
            },
        ),
{
    let mut out: Vec<Block> = Vec::new();
    if occ.total == 0 && occ.verses.len() == 0 {
        let mut args: Vec<(&str, &str)> = Vec::new();
        args.push(("code", code));
        assert(args_view(args@) =~= seq![("code"@, code@)]);
        let r = Run::new(t(cats, lang, "panel.noOccurrences", args.as_slice()).as_str(), Size::Body, Color::Faded).italic();
        push_block(&mut out, one(r));
        assert(blocks_view(out@) =~= seq![one_view(r@)]);
        return out;
    }
    let mut head: Vec<Run> = Vec::new();
    head.push(Run::new(code, Size::Title, Color::Ink).bold());
    match lemma {
        Some(l) => {
            head.push(Run::new(joined("  ", l).as_str(), Size::Title, Color::Ink));
        },
        None => {},
    }
    let ghost hv = runs_view(head@);
    push_block(&mut out, para_of(head));
    let mut count = dec_string(occ.total as u64);
    push_str(&mut count, " occurrence");
    if occ.total != 1 {
        push_str(&mut count, "s");
    }
    push_block(&mut out, one(Run::new(count.as_str(), Size::Small, Color::Gold)));
    push_verse_links(&mut out, &occ.verses);
    push_more(&mut out, cats, lang, occ.total as u64, occ.verses.len() as u64);
    proof {
        let l2 = match lemma {
            Some(l) => Some(l@),
            None => None::<Seq<char>>,
        };
        let want = concordance_card(cats@, lang, code@, occ.total, pairs_view(occ.verses@), l2);
        assert(hv =~= seq![bolded(run(code@, Size::Title, Color::Ink))] + match l2 {
            Some(l) => seq![run("  "@ + l, Size::Title, Color::Ink)],
            None => Seq::empty(),
        });
        assert(blocks_view(out@) =~= want);
    }
    out
}

/// A single-paragraph card's view.
pub open spec fn one_view(r: RunModel) -> BlockModel {
    para(seq![r])
}

/// The concordance card of a code.
pub fn concordance<S: PanelSource>(src: &S, cats: &Catalogs, lang: Lang, code: &str) -> (r: Vec<Block>)
    ensures
        blocks_view(r@) == concordance_card(
            cats@,
            lang,
            code@,
            src.occurrences_of(code@).total,
            pairs_view(src.occurrences_of(code@).verses@),
            match src.strongs_of(code@) {
                Some(e) => opt_text(e.lemma),
                None => None,
            },
        ),
{
    let occ = src.occurrences(code);
    let entry = src.strongs(code);
    let l: Option<&str> = match &entry {
        Some(e) => match &e.lemma {
            Some(x) => Some(x.as_str()),
            None => None,
        },
        None => None,
    };
    concordance_blocks(cats, lang, code, &occ, l)
}

/// The card of the verses where `code` is rendered one way; `None` when the
/// source has no such rendering.
pub open spec fn rendering_card(
    cats: CatsModel,
    lang: Lang,
    code: Seq<char>,
    rendering: Seq<char>,
    found: Option<(Seq<char>, u32, Seq<(Seq<char>, Seq<char>)>)>,
) -> Seq<BlockModel> {
    match found {
        None => seq![para(seq![italicized(run(t_spec(cats, lang, "panel.noRendering"@, seq![("rendering"@, rendering), ("code"@, code)]), Size::Body, Color::Faded))])],
        Some((r, total, refs)) => seq![
            para(seq![bolded(run(code, Size::Title, Color::Ink)), run("  \u{201c}"@ + r + "\u{201d}"@, Size::Title, Color::Ink)]),
            para(seq![run(dec(total as nat) + " verse"@ + plural_s(total as nat) + " rendered \u{201c}"@ + r + "\u{201d}"@, Size::Small, Color::Gold)]),
        ] + verse_links(refs) + more_tail(cats, lang, total as nat, refs.len()),
    }
}

/// The rendering-filtered concordance card, from what the source answered.
pub fn rendering_blocks(
    cats: &Catalogs,
    lang: Lang,
    code: &str,
    rendering: &str,
    found: Option<&RenderingRefsView>,
) -> (r: Vec<Block>)
    ensures
        blocks_view(r@) == rendering_card(
            cats@,
            lang,
            code@,
            rendering@,
            match found {
                Some(m) => Some((m.rendering@, m.total, pairs_view(m.refs@))),
                None => None,
            },
        ),
{
    let mut out: Vec<Block> = Vec::new();
    match found {
        None => {
            let mut args: Vec<(&str, &str)> = Vec::new();
            args.push(("rendering", rendering));
            args.push(("code", code));
            assert(args_view(args@) =~= seq![("rendering"@, rendering@), ("code"@, code@)]);
            let r = Run::new(t(cats, lang, "panel.noRendering", args.as_slice()).as_str(), Size::Body, Color::Faded).italic();
            push_block(&mut out, one(r));
            assert(blocks_view(out@) =~= seq![one_view(r@)]);
            out
        },
        Some(m) => {
            let mut quoted = string_from("  \u{201c}");
            push_str(&mut quoted, m.rendering.as_str());
            push_str(&mut quoted, "\u{201d}");
            assert(quoted@ == "  \u{201c}"@ + m.rendering@ + "\u{201d}"@);
            push_block(&mut out, two(Run::new(code, Size::Title, Color::Ink).bold(), Run::new(quoted.as_str(), Size::Title, Color::Ink)));
            let mut count = dec_string(m.total as u64);
            push_str(&mut count, " verse");
            if m.total != 1 {
                push_str(&mut count, "s");
            }
            push_str(&mut count, " rendered \u{201c}");
            push_str(&mut count, m.rendering.as_str());
            push_str(&mut count, "\u{201d}");
            assert(count@ == dec(m.total as nat) + " verse"@ + plural_s(m.total as nat) + " rendered \u{201c}"@ + m.rendering@ + "\u{201d}"@);
            push_block(&mut out, one(Run::new(count.as_str(), Size::Small, Color::Gold)));
            push_verse_links(&mut out, &m.refs);
            push_more(&mut out, cats, lang, m.total as u64, m.refs.len() as u64);
            proof {
                let want = rendering_card(cats@, lang, code@, rendering@, Some((m.rendering@, m.total, pairs_view(m.refs@))));
                assert(blocks_view(out@) =~= want);
            }
            out
        },
    }
}

/// The concordance card filtered to one rendering of a code.
pub fn rendering_concordance<S: PanelSource>(
    src: &S,
    cats: &Catalogs,
    lang: Lang,
    code: &str,
    rendering: &str,
) -> (r: Vec<Block>)
    ensures
        blocks_view(r@) == rendering_card(
            cats@,
            lang,
            code@,
            rendering@,
            match src.rendering_refs_of(code@, rendering@) {
                Some(m) => Some((m.rendering@, m.total, pairs_view(m.refs@))),
                None => None,
            },
        ),
{
    let found = src.rendering_refs(code, rendering);
    rendering_blocks(cats, lang, code, rendering, found.as_ref())
}

// ── threads and tags ─────────────────────────────────────────────────────────

/// A thread passage as plain values: verse, display, word snapshot, note.
pub type EntryModel = (Seq<char>, Seq<char>, Seq<Seq<char>>, Option<Seq<char>>);

/// A thread as plain values: name, notes, passages.
pub type ThreadModel = (Seq<char>, Seq<char>, Seq<EntryModel>);

/// The words of a snapshot as plain values.
pub open spec fn words_view(ws: Seq<String>) -> Seq<Seq<char>> {
    ws.map_values(|w: String| w@)
}

/// An optional text as plain values.
pub open spec fn opt_text(o: Option<String>) -> Option<Seq<char>> {
    match o {
        Some(s) => Some(s@),
        None => None,
    }
}

impl View for ThreadEntryView {
    type V = EntryModel;

    open spec fn view(&self) -> EntryModel {
        (self.verse@, self.display@, words_view(self.text@), opt_text(self.note))
    }
}

impl View for ThreadView {
    type V = ThreadModel;

    open spec fn view(&self) -> ThreadModel {
        (self.name@, self.notes@, self.entries@.map_values(|e: ThreadEntryView| e@))
    }
}

/// The threads as plain values.
pub open spec fn threads_view(ts: Seq<ThreadView>) -> Seq<ThreadModel> {
    ts.map_values(|t: ThreadView| t@)
}

/// A numbered verb, such as `thread:3`.
pub open spec fn verb_at(verb: Seq<char>, i: nat) -> Seq<char> {
    verb + dec(i)
}

fn verb_uri(verb: &str, i: u64) -> (r: String)
    ensures
        r@ == verb_at(verb@, i as nat),
{
    let mut u = string_from(verb);
    push_dec(&mut u, i);
    u
}

/// The list of the reader's threads.
pub open spec fn threads_card(cats: CatsModel, lang: Lang, ts: Seq<ThreadModel>) -> Seq<BlockModel> {
    seq![para(seq![bolded(run(n_text(cats, lang, "panel.threads"@, ts.len()), Size::Title, Color::Ink))])] + (if ts.len() == 0 {
        seq![para(seq![italicized(run("No threads yet \u{2014} open a word study and \u{201c}\u{ff0b} add to thread\u{201d}."@, Size::Small, Color::Faded))])]
    } else {
        Seq::empty()
    }) + Seq::new(
        ts.len(),
        |i: int|
            para(
                seq![
                    linked(run(ts[i].0, Size::Body, Color::Gold), verb_at("thread:"@, i as nat)),
                    run("   "@ + p_text(cats, lang, "panel.passages.one"@, "panel.passages.other"@, ts[i].2.len()), Size::Caption, Color::Faded),
                ],
            ),
    )
}

/// The threads list, from what the source answered.
pub fn threads_blocks(cats: &Catalogs, lang: Lang, threads: &Vec<ThreadView>) -> (r: Vec<Block>)
    ensures
        blocks_view(r@) == threads_card(cats@, lang, threads_view(threads@)),
{
    let ghost tv = threads_view(threads@);
    let mut out: Vec<Block> = Vec::new();
    push_block(&mut out, one(Run::new(sn(cats, lang, "panel.threads", threads.len() as u64).as_str(), Size::Title, Color::Ink).bold()));
    if threads.len() == 0 {
        push_block(&mut out, one(Run::new("No threads yet \u{2014} open a word study and \u{201c}\u{ff0b} add to thread\u{201d}.", Size::Small, Color::Faded).italic()));
    }
    let ghost start = blocks_view(out@);
    let ghost rows = Seq::new(
        tv.len(),
        |i: int|
            para(
                seq![
                    linked(run(tv[i].0, Size::Body, Color::Gold), verb_at("thread:"@, i as nat)),
                    run("   "@ + p_text(cats@, lang, "panel.passages.one"@, "panel.passages.other"@, tv[i].2.len()), Size::Caption, Color::Faded),
                ],
            ),
    );
    let mut i: usize = 0;
    while i < threads.len()
        invariant
            i <= threads.len(),
            tv == threads_view(threads@),
            rows.len() == tv.len(),
            forall|k: int| 0 <= k < rows.len() ==> rows[k] == para(
                seq![
                    linked(run(tv[k].0, Size::Body, Color::Gold), verb_at("thread:"@, k as nat)),
                    run("   "@ + p_text(cats@, lang, "panel.passages.one"@, "panel.passages.other"@, tv[k].2.len()), Size::Caption, Color::Faded),
                ],
            ),
            blocks_view(out@) == start + rows.take(i as int),
        decreases threads.len() - i,
    {
        let th = &threads[i];
        let name = Run::new(th.name.as_str(), Size::Body, Color::Gold).link(verb_uri("thread:", i as u64));
        let count = joined("   ", sp(cats, lang, "panel.passages.one", "panel.passages.other", th.entries.len() as u64).as_str());
        proof {
            assert(th.entries@.map_values(|e: ThreadEntryView| e@).len() == th.entries.len());
        }
        let b = two(name, Run::new(count.as_str(), Size::Caption, Color::Faded));
        push_block(&mut out, b);
        assert(rows.take(i + 1) =~= rows.take(i as int).push(b@));
        i = i + 1;
    }
    assert(rows.take(threads.len() as int) =~= rows);
    assert(blocks_view(out@) =~= threads_card(cats@, lang, tv));
    out
}

/// A passage's word snapshot as one line, cut to seventy characters.
pub open spec fn snapshot(ws: Seq<Seq<char>>) -> Seq<char> {
    let j = joined_words(ws);
    if j.len() > 70 {
        trim_end(j.take(70)) + seq!['\u{2026}']
    } else {
        j
    }
}

/// The blocks of one thread passage, the `e`-th of thread `index`.
pub open spec fn entry_blocks(cats: CatsModel, lang: Lang, index: nat, e: nat, en: EntryModel) -> Seq<
    BlockModel,
> {
    let snap = snapshot(en.2);
    seq![
        BlockModel::Rule,
        para(seq![
            go_run(en.0, en.1, Size::List),
            run("   "@, Size::List, Color::Ink),
            linked(run(s_text(cats, lang, "panel.note"@), Size::Caption, Color::Faded), verb_at("editentrynote:"@, index) + seq![':'] + dec(e)),
        ]),
    ] + (if snap.len() > 0 {
        seq![para(seq![italicized(run(seq!['\u{201c}'] + snap + seq!['\u{201d}'], Size::Note, Color::Faded))])]
    } else {
        Seq::empty()
    }) + match en.3 {
        Some(n) => if n.len() > 0 {
            seq![para(seq![run("\u{2014} "@ + n, Size::Note, Color::Mono)])]
        } else {
            Seq::empty()
        },
        None => Seq::empty(),
    }
}

/// The blocks of a thread's passages, in order.
pub open spec fn entries_blocks(cats: CatsModel, lang: Lang, index: nat, es: Seq<EntryModel>) -> Seq<
    BlockModel,
>
    decreases es.len(),
{
    if es.len() == 0 {
        Seq::empty()
    } else {
        entries_blocks(cats, lang, index, es.drop_last()) + entry_blocks(
            cats,
            lang,
            index,
            (es.len() - 1) as nat,
            es.last(),
        )
    }
}

/// The card of thread `index`; the threads list when there is no such thread.
pub open spec fn thread_card(cats: CatsModel, lang: Lang, ts: Seq<ThreadModel>, index: nat) -> Seq<
    BlockModel,
> {
    if index < ts.len() {
        let t = ts[index as int];
        seq![
            para(seq![bolded(run(t.0, Size::Title, Color::Ink))]),
            para(seq![
                run(p_text(cats, lang, "panel.passages.one"@, "panel.passages.other"@, t.2.len()), Size::Small, Color::Faded),
                run("   "@, Size::Small, Color::Ink),
                linked(run(s_text(cats, lang, "panel.notes"@), Size::Caption, Color::Faded), verb_at("editthreadnotes:"@, index)),
                run("   "@, Size::Small, Color::Ink),
                linked(run(s_text(cats, lang, "panel.deleteThread"@), Size::Caption, Color::Faded), verb_at("deletethread:"@, index)),
            ]),
        ] + (if t.1.len() > 0 {
            seq![para(seq![run(t.1, Size::Note, Color::Faded)])]
        } else {
            Seq::empty()
        }) + entries_blocks(cats, lang, index, t.2)
    } else {
        threads_card(cats, lang, ts)
    }
}

fn join_spaced(ws: &Vec<String>) -> (r: String)
    ensures
        r@ == joined_words(words_view(ws@)),
{
    let ghost wv = words_view(ws@);
    if ws.len() == 0 {
        return String::new();
    }
    let mut out = string_from(ws[0].as_str());
    assert(wv.take(1).drop_last() =~= Seq::<Seq<char>>::empty());
    let mut i: usize = 1;
    while i < ws.len()
        invariant
            1 <= i <= ws.len(),
            wv == words_view(ws@),
            out@ == joined_words(wv.take(i as int)),
        decreases ws.len() - i,
    {
        push_char(&mut out, ' ');
        push_str(&mut out, ws[i].as_str());
        assert(wv.take(i + 1).drop_last() =~= wv.take(i as int));
        i = i + 1;
    }
    assert(wv.take(ws.len() as int) =~= wv);
    out
}

fn snapshot_of(ws: &Vec<String>) -> (r: String)
    ensures
        r@ == snapshot(words_view(ws@)),
{
    let j = join_spaced(ws);
    let cs = crate::text::chars_of(j.as_str());
    if cs.len() > 70 {
        let head = crate::text::string_of_range(cs.as_slice(), 0, 70);
        assert(cs@.subrange(0, 70) =~= j@.take(70));
        let mut out = trimmed_end(head.as_str());
        push_char(&mut out, '\u{2026}');
        out
    } else {
        j
    }
}

fn push_entry(out: &mut Vec<Block>, cats: &Catalogs, lang: Lang, index: usize, e: usize, en: &ThreadEntryView)
    ensures
        blocks_view(final(out)@) == blocks_view(old(out)@) + entry_blocks(cats@, lang, index as nat, e as nat, en@),
{
    let ghost start = blocks_view(out@);
    push_block(out, Block::Rule);
    let mut uri = verb_uri("editentrynote:", index as u64);
    push_char(&mut uri, ':');
    push_dec(&mut uri, e as u64);
    assert(uri@ == verb_at("editentrynote:"@, index as nat) + seq![':'] + dec(e as nat));
    let r1 = go(en.verse.as_str(), en.display.as_str(), Size::List);
    let r2 = Run::new("   ", Size::List, Color::Ink);
    let r3 = Run::new(s(cats, lang, "panel.note").as_str(), Size::Caption, Color::Faded).link(uri);
    let ghost rv = seq![r1@, r2@, r3@];
    let mut runs: Vec<Run> = Vec::new();
    runs.push(r1);
    runs.push(r2);
    runs.push(r3);
    assert(runs_view(runs@) =~= rv);
    push_block(out, para_of(runs));
    let snap = snapshot_of(&en.text);
    let ghost mid = blocks_view(out@);
    let ghost sp_part = if snap@.len() > 0 {
        seq![para(seq![italicized(run(seq!['\u{201c}'] + snap@ + seq!['\u{201d}'], Size::Note, Color::Faded))])]
    } else {
        Seq::<BlockModel>::empty()
    };
    if !crate::text::is_empty_str(snap.as_str()) {
        let mut q = String::new();
        push_char(&mut q, '\u{201c}');
        push_str(&mut q, snap.as_str());
        push_char(&mut q, '\u{201d}');
        assert(q@ =~= seq!['\u{201c}'] + snap@ + seq!['\u{201d}']);
        let b = one(Run::new(q.as_str(), Size::Note, Color::Faded).italic());
        assert(b@ == sp_part[0]);
        push_block(out, b);
    }
    assert(blocks_view(out@) =~= mid + sp_part);
    let ghost mid2 = blocks_view(out@);
    let ghost note_part = match en@.3 {
        Some(n) => if n.len() > 0 {
            seq![para(seq![run("\u{2014} "@ + n, Size::Note, Color::Mono)])]
        } else {
            Seq::<BlockModel>::empty()
        },
        None => Seq::<BlockModel>::empty(),
    };
    match &en.note {
        Some(n) => {
            if !crate::text::is_empty_str(n.as_str()) {
                push_block(out, one(Run::new(joined("\u{2014} ", n.as_str()).as_str(), Size::Note, Color::Mono)));
            }
        },
        None => {},
    }
    assert(blocks_view(out@) =~= mid2 + note_part);
    proof {
        assert(rv =~= seq![
            go_run(en.verse@, en.display@, Size::List),
            run("   "@, Size::List, Color::Ink),
            linked(run(s_text(cats@, lang, "panel.note"@), Size::Caption, Color::Faded), verb_at("editentrynote:"@, index as nat) + seq![':'] + dec(e as nat)),
        ]);
        assert(blocks_view(out@) =~= start + entry_blocks(cats@, lang, index as nat, e as nat, en@));
    }
}

/// The card of one thread, from the threads the source answered.
pub fn thread_blocks(cats: &Catalogs, lang: Lang, threads: &Vec<ThreadView>, index: usize) -> (r: Vec<Block>)
    ensures
        blocks_view(r@) == thread_card(cats@, lang, threads_view(threads@), index as nat),
{
    if index >= threads.len() {
        return threads_blocks(cats, lang, threads);
    }
    let th = &threads[index];
    let ghost tv = th@;
    let mut out: Vec<Block> = Vec::new();
    push_block(&mut out, one(Run::new(th.name.as_str(), Size::Title, Color::Ink).bold()));
    let mut runs: Vec<Run> = Vec::new();
    runs.push(Run::new(sp(cats, lang, "panel.passages.one", "panel.passages.other", th.entries.len() as u64).as_str(), Size::Small, Color::Faded));
    runs.push(Run::new("   ", Size::Small, Color::Ink));
    runs.push(Run::new(s(cats, lang, "panel.notes").as_str(), Size::Caption, Color::Faded).link(verb_uri("editthreadnotes:", index as u64)));
    runs.push(Run::new("   ", Size::Small, Color::Ink));
    runs.push(Run::new(s(cats, lang, "panel.deleteThread").as_str(), Size::Caption, Color::Faded).link(verb_uri("deletethread:", index as u64)));
    let ghost rv = runs_view(runs@);
    push_block(&mut out, para_of(runs));
    if !crate::text::is_empty_str(th.notes.as_str()) {
        push_block(&mut out, one(Run::new(th.notes.as_str(), Size::Note, Color::Faded)));
    }
    let ghost start = blocks_view(out@);
    let ghost es = tv.2;
    let mut e: usize = 0;
    while e < th.entries.len()
        invariant
            e <= th.entries.len(),
            es == th.entries@.map_values(|x: ThreadEntryView| x@),
            blocks_view(out@) == start + entries_blocks(cats@, lang, index as nat, es.take(e as int)),
        decreases th.entries.len() - e,
    {
        push_entry(&mut out, cats, lang, index, e, &th.entries[e]);
        proof {
            assert(es.take(e + 1).drop_last() =~= es.take(e as int));
            assert(es.take(e + 1).last() == th.entries@[e as int]@);
            i_assoc(start, entries_blocks(cats@, lang, index as nat, es.take(e as int)), entry_blocks(cats@, lang, index as nat, e as nat, th.entries@[e as int]@));
        }
        e = e + 1;
    }
    assert(es.take(th.entries.len() as int) =~= es);
    proof {
        assert(th.entries@.map_values(|x: ThreadEntryView| x@).len() == th.entries.len());
        assert(rv =~= seq![
            run(p_text(cats@, lang, "panel.passages.one"@, "panel.passages.other"@, tv.2.len()), Size::Small, Color::Faded),
            run("   "@, Size::Small, Color::Ink),
            linked(run(s_text(cats@, lang, "panel.notes"@), Size::Caption, Color::Faded), verb_at("editthreadnotes:"@, index as nat)),
            run("   "@, Size::Small, Color::Ink),
            linked(run(s_text(cats@, lang, "panel.deleteThread"@), Size::Caption, Color::Faded), verb_at("deletethread:"@, index as nat)),
        ]);
        assert(threads_view(threads@)[index as int] == tv);
        assert(blocks_view(out@) =~= thread_card(cats@, lang, threads_view(threads@), index as nat));
    }
    out
}

proof fn i_assoc(a: Seq<BlockModel>, b: Seq<BlockModel>, c: Seq<BlockModel>)
    ensures
        a + (b + c) == (a + b) + c,
{
    assert(a + (b + c) =~= (a + b) + c);
}

/// The card of one thread, or the threads list when there is no such thread.
pub fn thread_detail<S: PanelSource>(src: &S, cats: &Catalogs, lang: Lang, index: usize) -> (r: Vec<Block>)
    ensures
        blocks_view(r@) == thread_card(cats@, lang, threads_view(src.threads_of()@), index as nat),
{
    let ts = src.threads();
    thread_blocks(cats, lang, &ts, index)
}

/// A tag member as plain values: kind, verse, display, Strong's code, note.
pub type MemberModel = (Seq<char>, Option<Seq<char>>, Option<Seq<char>>, Option<Seq<char>>, Option<Seq<char>>);

/// A tag as plain values: name and members.
pub type TagModel = (Seq<char>, Seq<MemberModel>);

impl View for TagMemberView {
    type V = MemberModel;

    open spec fn view(&self) -> MemberModel {
        (self.kind@, opt_text(self.verse), opt_text(self.display), opt_text(self.strongs), opt_text(self.note))
    }
}

impl View for TagView {
    type V = TagModel;

    open spec fn view(&self) -> TagModel {
        (self.name@, self.members@.map_values(|m: TagMemberView| m@))
    }
}

/// The tags as plain values.
pub open spec fn tags_view(ts: Seq<TagView>) -> Seq<TagModel> {
    ts.map_values(|t: TagView| t@)
}

/// The row of tag `i` in the tags list.
pub open spec fn tag_row(cats: CatsModel, lang: Lang, t: TagModel, i: nat) -> BlockModel {
    para(
        seq![
            linked(run(t.0, Size::Body, Color::Gold), verb_at("tag:"@, i)),
            run("   "@ + p_text(cats, lang, "panel.members.one"@, "panel.members.other"@, t.1.len()), Size::Caption, Color::Faded),
        ],
    )
}

/// The list of the reader's tags.
pub open spec fn tags_card(cats: CatsModel, lang: Lang, ts: Seq<TagModel>) -> Seq<BlockModel> {
    seq![para(seq![bolded(run(n_text(cats, lang, "panel.tagsCount"@, ts.len()), Size::Title, Color::Ink))])] + (if ts.len() == 0 {
        seq![para(seq![italicized(run("No tags yet \u{2014} open a word study and \u{201c}\u{ff0b} tag verse\u{201d}."@, Size::Small, Color::Faded))])]
    } else {
        Seq::empty()
    }) + Seq::new(ts.len(), |i: int| tag_row(cats, lang, ts[i], i as nat))
}

/// How many members are verses.
pub open spec fn verse_members(ms: Seq<MemberModel>) -> nat
    decreases ms.len(),
{
    if ms.len() == 0 {
        0
    } else {
        verse_members(ms.drop_last()) + if ms.last().0 == "verse"@ {
            1nat
        } else {
            0nat
        }
    }
}

/// The runs of one tag member: a verse link, or the code it names; then its
/// note.
pub open spec fn member_runs(m: MemberModel) -> Seq<RunModel> {
    (if m.0 == "verse"@ && m.1 is Some {
        let v = m.1.unwrap();
        seq![go_run(v, match m.2 {
            Some(d) => d,
            None => v,
        }, Size::List)]
    } else {
        let code = match m.3 {
            Some(x) => x,
            None => Seq::empty(),
        };
        seq![linked(run("\u{2248} "@ + code, Size::List, Color::Gold), "occ:"@ + code)]
    }) + match m.4 {
        Some(n) => if n.len() > 0 {
            seq![run("   "@ + n, Size::Caption, Color::Mono)]
        } else {
            Seq::empty()
        },
        None => Seq::empty(),
    }
}

/// The card of tag `index`; the tags list when there is no such tag.
pub open spec fn tag_card(cats: CatsModel, lang: Lang, ts: Seq<TagModel>, index: nat) -> Seq<BlockModel> {
    if index < ts.len() {
        let t = ts[index as int];
        seq![
            para(seq![bolded(run(t.0, Size::Title, Color::Ink))]),
            para(seq![
                run(p_text(cats, lang, "panel.members.one"@, "panel.members.other"@, t.1.len()), Size::Small, Color::Faded),
                run("   "@, Size::Small, Color::Ink),
                linked(run(s_text(cats, lang, "panel.deleteTag"@), Size::Caption, Color::Faded), verb_at("deletetag:"@, index)),
            ]),
        ] + (if verse_members(t.1) >= 2 {
            seq![para(seq![
                linked(run(s_text(cats, lang, "panel.makeWeave"@), Size::List, Color::Gold), verb_at("makeweave:"@, index)),
                run("   "@ + s_text(cats, lang, "panel.makeWeaveHint"@), Size::Caption, Color::Faded),
            ])]
        } else {
            Seq::empty()
        }) + t.1.map_values(|m: MemberModel| para(member_runs(m)))
    } else {
        tags_card(cats, lang, ts)
    }
}

/// The tags list, from what the source answered.
pub fn tags_blocks(cats: &Catalogs, lang: Lang, tags: &Vec<TagView>) -> (r: Vec<Block>)
    ensures
        blocks_view(r@) == tags_card(cats@, lang, tags_view(tags@)),
{
    let ghost tv = tags_view(tags@);
    let mut out: Vec<Block> = Vec::new();
    push_block(&mut out, one(Run::new(sn(cats, lang, "panel.tagsCount", tags.len() as u64).as_str(), Size::Title, Color::Ink).bold()));
    if tags.len() == 0 {
        push_block(&mut out, one(Run::new("No tags yet \u{2014} open a word study and \u{201c}\u{ff0b} tag verse\u{201d}.", Size::Small, Color::Faded).italic()));
    }
    let ghost start = blocks_view(out@);
    let ghost rows = Seq::new(tv.len(), |i: int| tag_row(cats@, lang, tv[i], i as nat));
    let mut i: usize = 0;
    while i < tags.len()
        invariant
            i <= tags.len(),
            tv == tags_view(tags@),
            rows == Seq::new(tv.len(), |i: int| tag_row(cats@, lang, tv[i], i as nat)),
            blocks_view(out@) == start + rows.take(i as int),
        decreases tags.len() - i,
    {
        let tg = &tags[i];
        let name = Run::new(tg.name.as_str(), Size::Body, Color::Gold).link(verb_uri("tag:", i as u64));
        let count = joined("   ", sp(cats, lang, "panel.members.one", "panel.members.other", tg.members.len() as u64).as_str());
        proof {
            assert(tg.members@.map_values(|m: TagMemberView| m@).len() == tg.members.len());
        }
        let b = two(name, Run::new(count.as_str(), Size::Caption, Color::Faded));
        push_block(&mut out, b);
        assert(rows.take(i + 1) =~= rows.take(i as int).push(b@));
        i = i + 1;
    }
    assert(rows.take(tags.len() as int) =~= rows);
    assert(blocks_view(out@) =~= tags_card(cats@, lang, tv));
    out
}

fn member_block(m: &TagMemberView) -> (b: Block)
    ensures
        b@ == para(member_runs(m@)),
{
    let mut runs: Vec<Run> = Vec::new();
    let is_verse = str_eq(m.kind.as_str(), "verse");
    let first = match (is_verse, &m.verse) {
        (true, Some(v)) => {
            let d = match &m.display {
                Some(d) => d.as_str(),
                None => v.as_str(),
            };
            go(v.as_str(), d, Size::List)
        },
        _ => {
            let code = match &m.strongs {
                Some(x) => x.as_str(),
                None => "",
            };
            proof {
                reveal_strlit("");
                if m.strongs is None {
                    assert(""@ =~= Seq::<char>::empty());
                }
            }
            Run::new(joined("\u{2248} ", code).as_str(), Size::List, Color::Gold).link(joined("occ:", code))
        },
    };
    runs.push(first);
    match &m.note {
        Some(n) => {
            if !crate::text::is_empty_str(n.as_str()) {
                runs.push(Run::new(joined("   ", n.as_str()).as_str(), Size::Caption, Color::Mono));
            }
        },
        None => {},
    }
    assert(runs_view(runs@) =~= member_runs(m@));
    para_of(runs)
}

/// The card of one tag, from the tags the source answered.
pub fn tag_blocks(cats: &Catalogs, lang: Lang, tags: &Vec<TagView>, index: usize) -> (r: Vec<Block>)
    ensures
        blocks_view(r@) == tag_card(cats@, lang, tags_view(tags@), index as nat),
{
    if index >= tags.len() {
        return tags_blocks(cats, lang, tags);
    }
    let tg = &tags[index];
    let ghost tv = tg@;
    let ghost ms = tv.1;
    let mut out: Vec<Block> = Vec::new();
    push_block(&mut out, one(Run::new(tg.name.as_str(), Size::Title, Color::Ink).bold()));
    let r1 = Run::new(sp(cats, lang, "panel.members.one", "panel.members.other", tg.members.len() as u64).as_str(), Size::Small, Color::Faded);
    let r2 = Run::new("   ", Size::Small, Color::Ink);
    let r3 = Run::new(s(cats, lang, "panel.deleteTag").as_str(), Size::Caption, Color::Faded).link(verb_uri("deletetag:", index as u64));
    let ghost rv = seq![r1@, r2@, r3@];
    let mut runs: Vec<Run> = Vec::new();
    runs.push(r1);
    runs.push(r2);
    runs.push(r3);
    assert(runs_view(runs@) =~= rv);
    push_block(&mut out, para_of(runs));
    // count the verse members
    let mut k: usize = 0;
    let mut nv: usize = 0;
    while k < tg.members.len()
        invariant
            k <= tg.members.len(),
            ms == tg.members@.map_values(|m: TagMemberView| m@),
            nv == verse_members(ms.take(k as int)),
            nv <= k,
        decreases tg.members.len() - k,
    {
        assert(ms.take(k + 1).drop_last() =~= ms.take(k as int));
        if str_eq(tg.members[k].kind.as_str(), "verse") {
            nv = nv + 1;
        }
        k = k + 1;
    }
    assert(ms.take(tg.members.len() as int) =~= ms);
    let ghost mid = blocks_view(out@);
    if nv >= 2 {
        let a = Run::new(s(cats, lang, "panel.makeWeave").as_str(), Size::List, Color::Gold).link(verb_uri("makeweave:", index as u64));
        let b = Run::new(joined("   ", s(cats, lang, "panel.makeWeaveHint").as_str()).as_str(), Size::Caption, Color::Faded);
        push_block(&mut out, two(a, b));
    }
    let ghost start = blocks_view(out@);
    let ghost rows = ms.map_values(|m: MemberModel| para(member_runs(m)));
    let mut i: usize = 0;
    while i < tg.members.len()
        invariant
            i <= tg.members.len(),
            ms == tg.members@.map_values(|m: TagMemberView| m@),
            rows == ms.map_values(|m: MemberModel| para(member_runs(m))),
            blocks_view(out@) == start + rows.take(i as int),
        decreases tg.members.len() - i,
    {
        let b = member_block(&tg.members[i]);
        push_block(&mut out, b);
        assert(rows.take(i + 1) =~= rows.take(i as int).push(b@));
        i = i + 1;
    }
    assert(rows.take(tg.members.len() as int) =~= rows);
    proof {
        assert(ms.len() == tg.members.len());
        assert(tags_view(tags@)[index as int] == tv);
        assert(blocks_view(out@) =~= tag_card(cats@, lang, tags_view(tags@), index as nat));
    }
    out
}

/// The list of the reader's tags.
pub fn tags_list<S: PanelSource>(src: &S, cats: &Catalogs, lang: Lang) -> (r: Vec<Block>)
    ensures
        blocks_view(r@) == tags_card(cats@, lang, tags_view(src.tags_of()@)),
{
    let ts = src.tags();
    tags_blocks(cats, lang, &ts)
}

/// The card of one tag, or the tags list when there is no such tag.
pub fn tag_detail<S: PanelSource>(src: &S, cats: &Catalogs, lang: Lang, index: usize) -> (r: Vec<Block>)
    ensures
        blocks_view(r@) == tag_card(cats@, lang, tags_view(src.tags_of()@), index as nat),
{
    let ts = src.tags();
    tag_blocks(cats, lang, &ts, index)
}

// ── the verse extras of a word study ─────────────────────────────────────────

/// A weave partner of a verse as plain values: verse, display, weave name,
/// weave index.
pub type XrefModel = (Seq<char>, Seq<char>, Seq<char>, Option<usize>);

/// A study cross-reference as plain values: target, its display, and the end
/// of a range with its display.
pub type StudyModel = (Seq<char>, Seq<char>, Option<Seq<char>>, Option<Seq<char>>);

impl View for XrefView {
    type V = XrefModel;

    open spec fn view(&self) -> XrefModel {
        (self.verse@, self.display@, self.weave@, self.weave_index)
    }
}

impl View for StudyXrefView {
    type V = StudyModel;

    open spec fn view(&self) -> StudyModel {
        (self.to@, self.to_display@, opt_text(self.end), opt_text(self.end_display))
    }
}

/// At most the first forty.
pub open spec fn cap40<A>(s: Seq<A>) -> Seq<A> {
    if s.len() > 40 {
        s.take(40)
    } else {
        s
    }
}

/// Whether some weave in `ws` has this name.
pub open spec fn has_weave(ws: Seq<(Seq<char>, Option<usize>)>, name: Seq<char>) -> bool
    decreases ws.len(),
{
    ws.len() > 0 && (ws.last().0 == name || has_weave(ws.drop_last(), name))
}

/// The weaves a verse is in, once each by name, in the order its partners
/// first name them.
pub open spec fn weaves_of(xs: Seq<XrefModel>) -> Seq<(Seq<char>, Option<usize>)>
    decreases xs.len(),
{
    if xs.len() == 0 {
        Seq::empty()
    } else {
        let d = weaves_of(xs.drop_last());
        if has_weave(d, xs.last().2) {
            d
        } else {
            d.push((xs.last().2, xs.last().3))
        }
    }
}

/// The action row under a word study: tag the verse, add it to a thread.
pub open spec fn actions_block(cats: CatsModel, lang: Lang, verse: Seq<char>) -> BlockModel {
    BlockModel::Para {
        runs: seq![
            linked(run(s_text(cats, lang, "panel.tagVerse"@), Size::List, Color::Gold), "addtag:"@ + verse),
            run("     "@, Size::List, Color::Ink),
            linked(run(s_text(cats, lang, "panel.addToThread"@), Size::List, Color::Gold), "addthread:"@ + verse),
        ],
        indent: false,
        top_gap: true,
    }
}

/// The weave a partner comes from, linked when it resolves.
pub open spec fn weave_name_run(name: Seq<char>, index: Option<usize>, size: Size, color: Color) -> RunModel {
    match index {
        Some(i) => linked(run(name, size, color), verb_at("weave:"@, i as nat)),
        None => run(name, size, color),
    }
}

/// Which weaves the verse is in.
pub open spec fn in_weaves_part(cats: CatsModel, lang: Lang, xs: Seq<XrefModel>) -> Seq<BlockModel> {
    let ws = weaves_of(xs);
    if ws.len() > 0 {
        seq![para(seq![bolded(run(p_text(cats, lang, "panel.inWeaves.one"@, "panel.inWeaves.other"@, ws.len()), Size::Label, Color::Ink))])]
            + ws.map_values(|w: (Seq<char>, Option<usize>)| para(seq![weave_name_run(w.0, w.1, Size::List, Color::Gold)]))
    } else {
        Seq::empty()
    }
}

/// The verse's weave partners, at most forty.
pub open spec fn xrefs_part(cats: CatsModel, lang: Lang, xs: Seq<XrefModel>) -> Seq<BlockModel> {
    if xs.len() > 0 {
        seq![para(seq![bolded(run(n_text(cats, lang, "panel.xrefs"@, xs.len()), Size::Label, Color::Ink))])]
            + cap40(xs).map_values(|p: XrefModel| para(seq![
                go_run(p.0, p.1, Size::List),
                run("   "@, Size::List, Color::Ink),
                weave_name_run(p.2, p.3, Size::Caption, Color::Faded),
            ]))
    } else {
        Seq::empty()
    }
}

/// One study cross-reference: its target, and the end of its range.
pub open spec fn study_runs(r: StudyModel) -> Seq<RunModel> {
    seq![go_run(r.0, r.1, Size::List)] + match (r.2, r.3) {
        (Some(end), Some(ed)) => seq![run("\u{2013}"@, Size::List, Color::Ink), go_run(end, ed, Size::List)],
        _ => Seq::empty(),
    }
}

/// The study cross-references, at most forty and a count of the rest; only
/// under the human gate.
pub open spec fn study_part(cats: CatsModel, lang: Lang, human: bool, sx: Seq<StudyModel>) -> Seq<BlockModel> {
    if human && sx.len() > 0 {
        seq![para(seq![
            bolded(run(n_text(cats, lang, "panel.studyXrefs"@, sx.len()), Size::Label, Color::Ink)),
            run("  TSK"@, Size::Fine, Color::Mono),
            run("  \u{2020}"@, Size::Mark, Color::TierHuman),
        ])] + cap40(sx).map_values(|r: StudyModel| para(study_runs(r))) + more_tail(cats, lang, sx.len(), 40)
    } else {
        Seq::empty()
    }
}

/// The tags the verse carries, each with its untag link.
pub open spec fn verse_tags_part(cats: CatsModel, lang: Lang, verse: Seq<char>, tags: Seq<(usize, Seq<char>)>) -> Seq<
    BlockModel,
> {
    if tags.len() > 0 {
        seq![para(seq![bolded(run(s_text(cats, lang, "panel.tags"@), Size::Label, Color::Ink))])]
            + tags.map_values(|p: (usize, Seq<char>)| para(seq![
                linked(run(p.1, Size::List, Color::Gold), verb_at("tag:"@, p.0 as nat)),
                run("  "@, Size::List, Color::Ink),
                linked(run("\u{2715}"@, Size::List, Color::Faded), verb_at("untag:"@, p.0 as nat) + seq![':'] + verse),
            ]))
    } else {
        Seq::empty()
    }
}

/// The translators' margin notes on the verse.
pub open spec fn margin_part(cats: CatsModel, lang: Lang, notes: Seq<Seq<char>>) -> Seq<BlockModel> {
    if notes.len() > 0 {
        seq![para(seq![bolded(run(s_text(cats, lang, "panel.marginNotes"@), Size::Label, Color::Ink)), run("  \u{2020}"@, Size::Mark, Color::TierHuman)])]
            + notes.map_values(|n: Seq<char>| para(seq![run(n, Size::Note, Color::Faded)]))
    } else {
        Seq::empty()
    }
}

/// The extras after a word's code blocks: the author actions, the weaves the
/// verse is in and its partners, the study cross-references (human gate), its
/// tags and its margin notes.
pub open spec fn verse_extras_card(
    cats: CatsModel,
    lang: Lang,
    verse: Seq<char>,
    gates: Gates,
    xs: Seq<XrefModel>,
    sx: Seq<StudyModel>,
    tags: Seq<(usize, Seq<char>)>,
    notes: Seq<Seq<char>>,
) -> Seq<BlockModel> {
    seq![actions_block(cats, lang, verse)] + in_weaves_part(cats, lang, xs) + xrefs_part(cats, lang, xs)
        + study_part(cats, lang, gates.human, sx) + verse_tags_part(cats, lang, verse, tags) + margin_part(
        cats,
        lang,
        notes,
    )
}

/// The partners as plain values.
pub open spec fn xrefs_view(xs: Seq<XrefView>) -> Seq<XrefModel> {
    xs.map_values(|x: XrefView| x@)
}

/// The study cross-references as plain values.
pub open spec fn study_view(xs: Seq<StudyXrefView>) -> Seq<StudyModel> {
    xs.map_values(|x: StudyXrefView| x@)
}

/// The verse's tags as plain values.
pub open spec fn verse_tags_view(ts: Seq<(usize, String)>) -> Seq<(usize, Seq<char>)> {
    ts.map_values(|p: (usize, String)| (p.0, p.1@))
}

fn weave_run(name: &str, index: Option<usize>, size: Size, color: Color) -> (r: Run)
    ensures
        r@ == weave_name_run(name@, index, size, color),
{
    let r = Run::new(name, size, color);
    match index {
        Some(i) => r.link(verb_uri("weave:", i as u64)),
        None => r,
    }
}

fn has_weave_in(ws: &Vec<(&str, Option<usize>)>, name: &str) -> (r: bool)
    ensures
        r == has_weave(ws@.map_values(|w: (&str, Option<usize>)| (w.0@, w.1)), name@),
{
    let ghost wv = ws@.map_values(|w: (&str, Option<usize>)| (w.0@, w.1));
    let mut i: usize = 0;
    while i < ws.len()
        invariant
            i <= ws.len(),
            wv == ws@.map_values(|w: (&str, Option<usize>)| (w.0@, w.1)),
            forall|j: int| 0 <= j < i ==> wv[j].0 != name@,
        decreases ws.len() - i,
    {
        if str_eq(ws[i].0, name) {
            proof {
                lemma_has_weave_at(wv, name@, i as int);
            }
            return true;
        }
        i = i + 1;
    }
    proof {
        lemma_has_weave_none(wv, name@);
    }
    false
}

proof fn lemma_has_weave_at(ws: Seq<(Seq<char>, Option<usize>)>, name: Seq<char>, j: int)
    requires
        0 <= j < ws.len(),
        ws[j].0 == name,
    ensures
        has_weave(ws, name),
    decreases ws.len(),
{
    if ws.last().0 != name {
        lemma_has_weave_at(ws.drop_last(), name, j);
    }
}

proof fn lemma_has_weave_none(ws: Seq<(Seq<char>, Option<usize>)>, name: Seq<char>)
    requires
        forall|j: int| 0 <= j < ws.len() ==> ws[j].0 != name,
    ensures
        !has_weave(ws, name),
    decreases ws.len(),
{
    if ws.len() > 0 {
        lemma_has_weave_none(ws.drop_last(), name);
    }
}

fn push_in_weaves(out: &mut Vec<Block>, cats: &Catalogs, lang: Lang, xrefs: &Vec<XrefView>)
    ensures
        blocks_view(final(out)@) == blocks_view(old(out)@) + in_weaves_part(cats@, lang, xrefs_view(xrefs@)),
{
    let ghost xv = xrefs_view(xrefs@);
    let mut ws: Vec<(&str, Option<usize>)> = Vec::new();
    let mut i: usize = 0;
    while i < xrefs.len()
        invariant
            i <= xrefs.len(),
            xv == xrefs_view(xrefs@),
            ws@.map_values(|w: (&str, Option<usize>)| (w.0@, w.1)) == weaves_of(xv.take(i as int)),
        decreases xrefs.len() - i,
    {
        let ghost before = ws@.map_values(|w: (&str, Option<usize>)| (w.0@, w.1));
        assert(xv.take(i + 1).drop_last() =~= xv.take(i as int));
        assert(xv.take(i + 1).last() == xrefs@[i as int]@);
        if !has_weave_in(&ws, xrefs[i].weave.as_str()) {
            ws.push((xrefs[i].weave.as_str(), xrefs[i].weave_index));
            assert(ws@.map_values(|w: (&str, Option<usize>)| (w.0@, w.1)) =~= before.push((xrefs@[i as int].weave@, xrefs@[i as int].weave_index)));
        }
        i = i + 1;
    }
    assert(xv.take(xrefs.len() as int) =~= xv);
    let ghost wv = weaves_of(xv);
    if ws.len() == 0 {
        assert(blocks_view(out@) =~= blocks_view(out@) + Seq::<BlockModel>::empty());
        return;
    }
    let ghost start = blocks_view(out@);
    push_block(out, one(Run::new(sp(cats, lang, "panel.inWeaves.one", "panel.inWeaves.other", ws.len() as u64).as_str(), Size::Label, Color::Ink).bold()));
    let ghost mid = blocks_view(out@);
    let ghost rows = wv.map_values(|w: (Seq<char>, Option<usize>)| para(seq![weave_name_run(w.0, w.1, Size::List, Color::Gold)]));
    let mut k: usize = 0;
    while k < ws.len()
        invariant
            k <= ws.len(),
            wv == ws@.map_values(|w: (&str, Option<usize>)| (w.0@, w.1)),
            rows == wv.map_values(|w: (Seq<char>, Option<usize>)| para(seq![weave_name_run(w.0, w.1, Size::List, Color::Gold)])),
            blocks_view(out@) == mid + rows.take(k as int),
        decreases ws.len() - k,
    {
        let b = one(weave_run(ws[k].0, ws[k].1, Size::List, Color::Gold));
        push_block(out, b);
        assert(rows.take(k + 1) =~= rows.take(k as int).push(b@));
        k = k + 1;
    }
    assert(rows.take(ws.len() as int) =~= rows);
    assert(blocks_view(out@) =~= start + in_weaves_part(cats@, lang, xv));
}

fn push_xrefs(out: &mut Vec<Block>, cats: &Catalogs, lang: Lang, xrefs: &Vec<XrefView>)
    ensures
        blocks_view(final(out)@) == blocks_view(old(out)@) + xrefs_part(cats@, lang, xrefs_view(xrefs@)),
{
    let ghost xv = xrefs_view(xrefs@);
    if xrefs.len() == 0 {
        assert(blocks_view(out@) =~= blocks_view(out@) + Seq::<BlockModel>::empty());
        return;
    }
    let ghost start = blocks_view(out@);
    push_block(out, one(Run::new(sn(cats, lang, "panel.xrefs", xrefs.len() as u64).as_str(), Size::Label, Color::Ink).bold()));
    let ghost mid = blocks_view(out@);
    let ghost rows = cap40(xv).map_values(|p: XrefModel| para(seq![
        go_run(p.0, p.1, Size::List),
        run("   "@, Size::List, Color::Ink),
        weave_name_run(p.2, p.3, Size::Caption, Color::Faded),
    ]));
    let n = if xrefs.len() > 40 {
        40
    } else {
        xrefs.len()
    };
    let mut i: usize = 0;
    while i < n
        invariant
            i <= n,
            n == cap40(xv).len(),
            n <= xrefs.len(),
            xv == xrefs_view(xrefs@),
            rows == cap40(xv).map_values(|p: XrefModel| para(seq![
                go_run(p.0, p.1, Size::List),
                run("   "@, Size::List, Color::Ink),
                weave_name_run(p.2, p.3, Size::Caption, Color::Faded),
            ])),
            blocks_view(out@) == mid + rows.take(i as int),
        decreases n - i,
    {
        let x = &xrefs[i];
        let r1 = go(x.verse.as_str(), x.display.as_str(), Size::List);
        let r2 = Run::new("   ", Size::List, Color::Ink);
        let r3 = weave_run(x.weave.as_str(), x.weave_index, Size::Caption, Color::Faded);
        let ghost rv = seq![r1@, r2@, r3@];
        let mut runs: Vec<Run> = Vec::new();
        runs.push(r1);
        runs.push(r2);
        runs.push(r3);
        assert(runs_view(runs@) =~= rv);
        let b = para_of(runs);
        assert(cap40(xv)[i as int] == x@);
        push_block(out, b);
        assert(rows.take(i + 1) =~= rows.take(i as int).push(b@));
        i = i + 1;
    }
    assert(rows.take(n as int) =~= rows);
    assert(blocks_view(out@) =~= start + xrefs_part(cats@, lang, xv));
}

fn study_block(r: &StudyXrefView) -> (b: Block)
    ensures
        b@ == para(study_runs(r@)),
{
    let mut runs: Vec<Run> = Vec::new();
    runs.push(go(r.to.as_str(), r.to_display.as_str(), Size::List));
    match (&r.end, &r.end_display) {
        (Some(end), Some(ed)) => {
            runs.push(Run::new("\u{2013}", Size::List, Color::Ink));
            runs.push(go(end.as_str(), ed.as_str(), Size::List));
        },
        _ => {},
    }
    assert(runs_view(runs@) =~= study_runs(r@));
    para_of(runs)
}

fn push_study(out: &mut Vec<Block>, cats: &Catalogs, lang: Lang, human: bool, sx: &Vec<StudyXrefView>)
    ensures
        blocks_view(final(out)@) == blocks_view(old(out)@) + study_part(cats@, lang, human, study_view(sx@)),
{
    let ghost v = study_view(sx@);
    if !human || sx.len() == 0 {
        assert(blocks_view(out@) =~= blocks_view(out@) + Seq::<BlockModel>::empty());
        return;
    }
    let ghost start = blocks_view(out@);
    let r1 = Run::new(sn(cats, lang, "panel.studyXrefs", sx.len() as u64).as_str(), Size::Label, Color::Ink).bold();
    let r2 = Run::new("  TSK", Size::Fine, Color::Mono);
    let r3 = Run::new("  \u{2020}", Size::Mark, Color::TierHuman);
    let ghost rv = seq![r1@, r2@, r3@];
    let mut runs: Vec<Run> = Vec::new();
    runs.push(r1);
    runs.push(r2);
    runs.push(r3);
    assert(runs_view(runs@) =~= rv);
    push_block(out, para_of(runs));
    let ghost mid = blocks_view(out@);
    let ghost rows = cap40(v).map_values(|r: StudyModel| para(study_runs(r)));
    let n = if sx.len() > 40 {
        40
    } else {
        sx.len()
    };
    let mut i: usize = 0;
    while i < n
        invariant
            i <= n,
            n == cap40(v).len(),
            n <= sx.len(),
            v == study_view(sx@),
            rows == cap40(v).map_values(|r: StudyModel| para(study_runs(r))),
            blocks_view(out@) == mid + rows.take(i as int),
        decreases n - i,
    {
        let b = study_block(&sx[i]);
        assert(cap40(v)[i as int] == sx@[i as int]@);
        push_block(out, b);
        assert(rows.take(i + 1) =~= rows.take(i as int).push(b@));
        i = i + 1;
    }
    assert(rows.take(n as int) =~= rows);
    let ghost mid2 = blocks_view(out@);
    push_more(out, cats, lang, sx.len() as u64, 40);
    assert(blocks_view(out@) =~= start + study_part(cats@, lang, human, v));
}

fn push_verse_tags(out: &mut Vec<Block>, cats: &Catalogs, lang: Lang, verse: &str, tags: &Vec<(usize, String)>)
    ensures
        blocks_view(final(out)@) == blocks_view(old(out)@) + verse_tags_part(cats@, lang, verse@, verse_tags_view(tags@)),
{
    let ghost v = verse_tags_view(tags@);
    if tags.len() == 0 {
        assert(blocks_view(out@) =~= blocks_view(out@) + Seq::<BlockModel>::empty());
        return;
    }
    let ghost start = blocks_view(out@);
    push_block(out, one(Run::new(s(cats, lang, "panel.tags").as_str(), Size::Label, Color::Ink).bold()));
    let ghost mid = blocks_view(out@);
    let ghost rows = v.map_values(|p: (usize, Seq<char>)| para(seq![
        linked(run(p.1, Size::List, Color::Gold), verb_at("tag:"@, p.0 as nat)),
        run("  "@, Size::List, Color::Ink),
        linked(run("\u{2715}"@, Size::List, Color::Faded), verb_at("untag:"@, p.0 as nat) + seq![':'] + verse@),
    ]));
    let mut i: usize = 0;
    while i < tags.len()
        invariant
            i <= tags.len(),
            v == verse_tags_view(tags@),
            rows == v.map_values(|p: (usize, Seq<char>)| para(seq![
                linked(run(p.1, Size::List, Color::Gold), verb_at("tag:"@, p.0 as nat)),
                run("  "@, Size::List, Color::Ink),
                linked(run("\u{2715}"@, Size::List, Color::Faded), verb_at("untag:"@, p.0 as nat) + seq![':'] + verse@),
            ])),
            blocks_view(out@) == mid + rows.take(i as int),
        decreases tags.len() - i,
    {
        let ti = tags[i].0;
        let mut untag = verb_uri("untag:", ti as u64);
        push_char(&mut untag, ':');
        push_str(&mut untag, verse);
        assert(untag@ == verb_at("untag:"@, ti as nat) + seq![':'] + verse@);
        assert(v[i as int] == (ti, tags@[i as int].1@));
        let r1 = Run::new(tags[i].1.as_str(), Size::List, Color::Gold).link(verb_uri("tag:", ti as u64));
        let r2 = Run::new("  ", Size::List, Color::Ink);
        let r3 = Run::new("\u{2715}", Size::List, Color::Faded).link(untag);
        let ghost rv = seq![r1@, r2@, r3@];
        let mut runs: Vec<Run> = Vec::new();
        runs.push(r1);
        runs.push(r2);
        runs.push(r3);
        assert(runs_view(runs@) =~= rv);
        let b = para_of(runs);
        push_block(out, b);
        assert(rows.take(i + 1) =~= rows.take(i as int).push(b@));
        i = i + 1;
    }
    assert(rows.take(tags.len() as int) =~= rows);
    assert(blocks_view(out@) =~= start + verse_tags_part(cats@, lang, verse@, v));
}

fn push_margin(out: &mut Vec<Block>, cats: &Catalogs, lang: Lang, notes: &Vec<String>)
    ensures
        blocks_view(final(out)@) == blocks_view(old(out)@) + margin_part(cats@, lang, words_view(notes@)),
{
    let ghost v = words_view(notes@);
    if notes.len() == 0 {
        assert(blocks_view(out@) =~= blocks_view(out@) + Seq::<BlockModel>::empty());
        return;
    }
    let ghost start = blocks_view(out@);
    push_block(out, two(Run::new(s(cats, lang, "panel.marginNotes").as_str(), Size::Label, Color::Ink).bold(), Run::new("  \u{2020}", Size::Mark, Color::TierHuman)));
    let ghost mid = blocks_view(out@);
    let ghost rows = v.map_values(|n: Seq<char>| para(seq![run(n, Size::Note, Color::Faded)]));
    let mut i: usize = 0;
    while i < notes.len()
        invariant
            i <= notes.len(),
            v == words_view(notes@),
            rows == v.map_values(|n: Seq<char>| para(seq![run(n, Size::Note, Color::Faded)])),
            blocks_view(out@) == mid + rows.take(i as int),
        decreases notes.len() - i,
    {
        let b = one(Run::new(notes[i].as_str(), Size::Note, Color::Faded));
        push_block(out, b);
        assert(rows.take(i + 1) =~= rows.take(i as int).push(b@));
        i = i + 1;
    }
    assert(rows.take(notes.len() as int) =~= rows);
    assert(blocks_view(out@) =~= start + margin_part(cats@, lang, v));
}

/// The verse extras of a word study, from what the source answered: the weave
/// partners, the study cross-references (read only under the human gate), the
/// verse's tags and its margin notes.
pub fn verse_extras_blocks(
    cats: &Catalogs,
    lang: Lang,
    verse: &str,
    gates: Gates,
    xrefs: &Vec<XrefView>,
    study: &Vec<StudyXrefView>,
    tags: &Vec<(usize, String)>,
    notes: &Vec<String>,
) -> (r: Vec<Block>)
    ensures
        blocks_view(r@) == verse_extras_card(
            cats@,
            lang,
            verse@,
            gates,
            xrefs_view(xrefs@),
            study_view(study@),
            verse_tags_view(tags@),
            words_view(notes@),
        ),
{
    let mut out: Vec<Block> = Vec::new();
    let r1 = Run::new(s(cats, lang, "panel.tagVerse").as_str(), Size::List, Color::Gold).link(joined("addtag:", verse));
    let r2 = Run::new("     ", Size::List, Color::Ink);
    let r3 = Run::new(s(cats, lang, "panel.addToThread").as_str(), Size::List, Color::Gold).link(joined("addthread:", verse));
    let ghost rv = seq![r1@, r2@, r3@];
    let mut runs: Vec<Run> = Vec::new();
    runs.push(r1);
    runs.push(r2);
    runs.push(r3);
    assert(runs_view(runs@) =~= rv);
    push_block(&mut out, Block::Para { runs, indent: false, top_gap: true });
    let ghost a = blocks_view(out@);
    push_in_weaves(&mut out, cats, lang, xrefs);
    let ghost b = blocks_view(out@);
    push_xrefs(&mut out, cats, lang, xrefs);
    let ghost c = blocks_view(out@);
    push_study(&mut out, cats, lang, gates.human, study);
    let ghost d = blocks_view(out@);
    push_verse_tags(&mut out, cats, lang, verse, tags);
    let ghost e = blocks_view(out@);
    push_margin(&mut out, cats, lang, notes);
    proof {
        assert(a =~= seq![actions_block(cats@, lang, verse@)]);
    }
    out
}

/// The verse extras of a word study.
pub fn verse_extras<S: PanelSource>(src: &S, cats: &Catalogs, lang: Lang, verse: &str, gates: Gates) -> (r: Vec<
    Block,
>)
    ensures
        blocks_view(r@) == verse_extras_card(
            cats@,
            lang,
            verse@,
            gates,
            xrefs_view(src.verse_xrefs_of(verse@)@),
            if gates.human {
                study_view(src.study_xrefs_of(verse@)@)
            } else {
                Seq::empty()
            },
            verse_tags_view(src.verse_tags_of(verse@)@),
            words_view(src.verse_notes_of(verse@)@),
        ),
{
    let xrefs = src.verse_xrefs(verse);
    let study = if gates.human {
        src.study_xrefs(verse)
    } else {
        Vec::new()
    };
    let tags = src.verse_tags(verse);
    let notes = src.verse_notes(verse);
    assert(study_view(study@) =~= if gates.human {
        study_view(src.study_xrefs_of(verse@)@)
    } else {
        Seq::empty()
    });
    verse_extras_blocks(cats, lang, verse, gates, &xrefs, &study, &tags, &notes)
}

// ── the suggested review queue ───────────────────────────────────────────────

/// A suggested link as plain values: both verses with their displays, and
/// its label.
pub type SuggestedLinkModel = (Seq<char>, Seq<char>, Seq<char>, Seq<char>, Seq<char>);

/// A suggested weave as plain values: review index, name, kind, notes,
/// library index, links.
pub type SuggestedModel = (usize, Seq<char>, Seq<char>, Seq<char>, Option<usize>, Seq<SuggestedLinkModel>);

impl View for SuggestedLinkView {
    type V = SuggestedLinkModel;

    open spec fn view(&self) -> SuggestedLinkModel {
        (self.a@, self.a_display@, self.b@, self.b_display@, self.label@)
    }
}

impl View for SuggestedView {
    type V = SuggestedModel;

    open spec fn view(&self) -> SuggestedModel {
        (
            self.index,
            self.name@,
            self.kind@,
            self.notes@,
            self.lib_index,
            self.links@.map_values(|l: SuggestedLinkView| l@),
        )
    }
}

/// The suggestions as plain values.
pub open spec fn suggested_view(ws: Seq<SuggestedView>) -> Seq<SuggestedModel> {
    ws.map_values(|w: SuggestedView| w@)
}

/// One link of a suggestion: both verses, and its label when it has one.
pub open spec fn suggested_link_runs(l: SuggestedLinkModel) -> Seq<RunModel> {
    seq![
        go_run(l.0, l.1, Size::List),
        run("  \u{2194}  "@, Size::List, Color::Ink),
        go_run(l.2, l.3, Size::List),
    ] + if l.4.len() > 0 {
        seq![run("   "@ + l.4, Size::Caption, Color::Faded)]
    } else {
        Seq::empty()
    }
}

/// The review actions of a suggestion: compare (when it resolves in the
/// library), approve, reject, and its note.
pub open spec fn suggested_actions(cats: CatsModel, lang: Lang, w: SuggestedModel) -> Seq<RunModel> {
    (match w.4 {
        Some(li) => seq![
            linked(run(s_text(cats, lang, "panel.compare"@), Size::List, Color::Gold), verb_at("weave:"@, li as nat)),
            run("   "@, Size::List, Color::Ink),
        ],
        None => Seq::empty(),
    }) + seq![
        linked(run(s_text(cats, lang, "panel.approve"@), Size::List, Color::Gold), verb_at("approve:"@, w.0 as nat)),
        run("   "@, Size::List, Color::Ink),
        linked(run(s_text(cats, lang, "panel.reject"@), Size::List, Color::Gold), verb_at("reject:"@, w.0 as nat)),
    ] + match w.4 {
        Some(li) => seq![
            run("   "@, Size::List, Color::Ink),
            linked(run(s_text(cats, lang, "panel.note"@), Size::Caption, Color::Faded), verb_at("editweavenotes:"@, li as nat)),
        ],
        None => Seq::empty(),
    }
}

/// The blocks of one suggestion.
pub open spec fn suggestion_blocks(cats: CatsModel, lang: Lang, w: SuggestedModel) -> Seq<BlockModel> {
    seq![
        BlockModel::Rule,
        para(seq![bolded(run(w.1, Size::SuggestHead, Color::Ink)), run("   "@ + w.2, Size::Caption, Color::Mono)]),
    ] + (if w.3.len() > 0 {
        seq![para(seq![run(w.3, Size::Note, Color::Faded)])]
    } else {
        Seq::empty()
    }) + cap40(w.5).map_values(|l: SuggestedLinkModel| para(suggested_link_runs(l))) + more_tail(
        cats,
        lang,
        w.5.len(),
        40,
    ) + seq![para(suggested_actions(cats, lang, w))]
}

/// The blocks of the suggestions, in order.
pub open spec fn suggestions_blocks(cats: CatsModel, lang: Lang, ws: Seq<SuggestedModel>) -> Seq<BlockModel>
    decreases ws.len(),
{
    if ws.len() == 0 {
        Seq::empty()
    } else {
        suggestions_blocks(cats, lang, ws.drop_last()) + suggestion_blocks(cats, lang, ws.last())
    }
}

/// The review queue card.
pub open spec fn suggested_card(cats: CatsModel, lang: Lang, ws: Seq<SuggestedModel>) -> Seq<BlockModel> {
    seq![para(seq![bolded(run(n_text(cats, lang, "panel.suggestedWeaves"@, ws.len()), Size::Title, Color::Ink))])]
        + (if ws.len() == 0 {
        seq![para(seq![italicized(run(s_text(cats, lang, "panel.emptyQueue"@), Size::Small, Color::Faded))])]
    } else {
        Seq::empty()
    }) + suggestions_blocks(cats, lang, ws)
}

fn suggested_link_block(l: &SuggestedLinkView) -> (b: Block)
    ensures
        b@ == para(suggested_link_runs(l@)),
{
    let mut runs: Vec<Run> = Vec::new();
    runs.push(go(l.a.as_str(), l.a_display.as_str(), Size::List));
    runs.push(Run::new("  \u{2194}  ", Size::List, Color::Ink));
    runs.push(go(l.b.as_str(), l.b_display.as_str(), Size::List));
    if !crate::text::is_empty_str(l.label.as_str()) {
        runs.push(Run::new(joined("   ", l.label.as_str()).as_str(), Size::Caption, Color::Faded));
    }
    assert(runs_view(runs@) =~= suggested_link_runs(l@));
    para_of(runs)
}

fn push_run(runs: &mut Vec<Run>, r: Run)
    ensures
        runs_view(final(runs)@) == runs_view(old(runs)@).push(r@),
{
    runs.push(r);
    assert(runs_view(runs@) =~= runs_view(old(runs)@).push(r@));
}

fn suggested_actions_block(cats: &Catalogs, lang: Lang, w: &SuggestedView) -> (b: Block)
    ensures
        b@ == para(suggested_actions(cats@, lang, w@)),
{
    let mut runs: Vec<Run> = Vec::new();
    match w.lib_index {
        Some(li) => {
            push_run(&mut runs, Run::new(s(cats, lang, "panel.compare").as_str(), Size::List, Color::Gold).link(verb_uri("weave:", li as u64)));
            push_run(&mut runs, Run::new("   ", Size::List, Color::Ink));
        },
        None => {},
    }
    push_run(&mut runs, Run::new(s(cats, lang, "panel.approve").as_str(), Size::List, Color::Gold).link(verb_uri("approve:", w.index as u64)));
    push_run(&mut runs, Run::new("   ", Size::List, Color::Ink));
    push_run(&mut runs, Run::new(s(cats, lang, "panel.reject").as_str(), Size::List, Color::Gold).link(verb_uri("reject:", w.index as u64)));
    match w.lib_index {
        Some(li) => {
            push_run(&mut runs, Run::new("   ", Size::List, Color::Ink));
            push_run(&mut runs, Run::new(s(cats, lang, "panel.note").as_str(), Size::Caption, Color::Faded).link(verb_uri("editweavenotes:", li as u64)));
        },
        None => {},
    }
    assert(runs_view(runs@) =~= suggested_actions(cats@, lang, w@));
    para_of(runs)
}

fn push_suggestion(out: &mut Vec<Block>, cats: &Catalogs, lang: Lang, w: &SuggestedView)
    ensures
        blocks_view(final(out)@) == blocks_view(old(out)@) + suggestion_blocks(cats@, lang, w@),
{
    let ghost start = blocks_view(out@);
    let ghost wv = w@;
    push_block(out, Block::Rule);
    push_block(out, two(Run::new(w.name.as_str(), Size::SuggestHead, Color::Ink).bold(), Run::new(joined("   ", w.kind.as_str()).as_str(), Size::Caption, Color::Mono)));
    if !crate::text::is_empty_str(w.notes.as_str()) {
        push_block(out, one(Run::new(w.notes.as_str(), Size::Note, Color::Faded)));
    }
    let ghost mid = blocks_view(out@);
    let ghost ls = wv.5;
    let ghost rows = cap40(ls).map_values(|l: SuggestedLinkModel| para(suggested_link_runs(l)));
    let n = if w.links.len() > 40 {
        40
    } else {
        w.links.len()
    };
    let mut i: usize = 0;
    while i < n
        invariant
            i <= n,
            ls == w.links@.map_values(|l: SuggestedLinkView| l@),
            n == cap40(ls).len(),
            n <= w.links.len(),
            rows == cap40(ls).map_values(|l: SuggestedLinkModel| para(suggested_link_runs(l))),
            blocks_view(out@) == mid + rows.take(i as int),
        decreases n - i,
    {
        let b = suggested_link_block(&w.links[i]);
        assert(cap40(ls)[i as int] == w.links@[i as int]@);
        push_block(out, b);
        assert(rows.take(i + 1) =~= rows.take(i as int).push(b@));
        i = i + 1;
    }
    assert(rows.take(n as int) =~= rows);
    push_more(out, cats, lang, w.links.len() as u64, 40);
    push_block(out, suggested_actions_block(cats, lang, w));
    assert(blocks_view(out@) =~= start + suggestion_blocks(cats@, lang, wv));
}

/// The review queue card, from the suggestions the source answered.
pub fn suggested_blocks(cats: &Catalogs, lang: Lang, items: &Vec<SuggestedView>) -> (r: Vec<Block>)
    ensures
        blocks_view(r@) == suggested_card(cats@, lang, suggested_view(items@)),
{
    let ghost v = suggested_view(items@);
    let mut out: Vec<Block> = Vec::new();
    push_block(&mut out, one(Run::new(sn(cats, lang, "panel.suggestedWeaves", items.len() as u64).as_str(), Size::Title, Color::Ink).bold()));
    if items.len() == 0 {
        push_block(&mut out, one(Run::new(s(cats, lang, "panel.emptyQueue").as_str(), Size::Small, Color::Faded).italic()));
    }
    let ghost start = blocks_view(out@);
    let mut i: usize = 0;
    while i < items.len()
        invariant
            i <= items.len(),
            v == suggested_view(items@),
            blocks_view(out@) == start + suggestions_blocks(cats@, lang, v.take(i as int)),
        decreases items.len() - i,
    {
        push_suggestion(&mut out, cats, lang, &items[i]);
        proof {
            assert(v.take(i + 1).drop_last() =~= v.take(i as int));
            assert(v.take(i + 1).last() == items@[i as int]@);
            i_assoc(start, suggestions_blocks(cats@, lang, v.take(i as int)), suggestion_blocks(cats@, lang, items@[i as int]@));
        }
        i = i + 1;
    }
    assert(v.take(items.len() as int) =~= v);
    assert(blocks_view(out@) =~= suggested_card(cats@, lang, v));
    out
}

/// The review queue card.
pub fn suggested<S: PanelSource>(src: &S, cats: &Catalogs, lang: Lang) -> (r: Vec<Block>)
    ensures
        blocks_view(r@) == suggested_card(cats@, lang, suggested_view(src.suggested_of()@)),
{
    let items = src.suggested();
    suggested_blocks(cats, lang, &items)
}

// ── the weave library ────────────────────────────────────────────────────────

/// A weave link as plain values: both verses with displays, label, and the
/// token span highlighted on each side.
pub type WeaveLinkModel = (
    Seq<char>,
    Seq<char>,
    Seq<char>,
    Seq<char>,
    Seq<char>,
    Option<(u16, u16)>,
    Option<(u16, u16)>,
);

/// A weave as plain values: library index, name, kind label, notes, whether
/// it is a suggestion, links.
pub type WeaveModel = (usize, Seq<char>, Seq<char>, Seq<char>, bool, Seq<WeaveLinkModel>);

/// A highlighted token span as plain values.
pub open spec fn span_view(s: Option<[u16; 2]>) -> Option<(u16, u16)> {
    match s {
        Some(x) => Some((x@[0], x@[1])),
        None => None,
    }
}

impl View for WeaveLinkView {
    type V = WeaveLinkModel;

    open spec fn view(&self) -> WeaveLinkModel {
        (self.a@, self.a_display@, self.b@, self.b_display@, self.label@, span_view(self.span_a), span_view(self.span_b))
    }
}

impl View for WeaveView {
    type V = WeaveModel;

    open spec fn view(&self) -> WeaveModel {
        (self.index, self.name@, self.kind_label@, self.notes@, self.suggested, self.links@.map_values(|l: WeaveLinkView| l@))
    }
}

/// The weaves as plain values.
pub open spec fn weaves_view(ws: Seq<WeaveView>) -> Seq<WeaveModel> {
    ws.map_values(|w: WeaveView| w@)
}

/// A weave sorts by its link count, most links first. (The count is held to
/// the `i64` range, which no library reaches.)
impl crate::order::SortKey for WeaveView {
    open spec fn sort_key(&self) -> int {
        if self.links.len() <= i64::MAX {
            -(self.links.len() as int)
        } else {
            -(i64::MAX as int)
        }
    }

    fn key_of(&self) -> (k: i64) {
        let n = self.links.len();
        if n as u64 <= i64::MAX as u64 {
            -(n as i64)
        } else {
            -i64::MAX
        }
    }
}

/// The row of one weave in the library list.
pub open spec fn weave_row(cats: CatsModel, lang: Lang, w: WeaveModel) -> BlockModel {
    para(
        seq![
            linked(run(w.1, Size::Body, Color::Gold), verb_at("weave:"@, w.0 as nat)),
            run(
                "   "@ + w.2 + " \u{b7} "@ + p_text(cats, lang, "panel.links.one"@, "panel.links.other"@, w.5.len())
                    + if w.4 {
                    " \u{b7} suggested"@
                } else {
                    Seq::empty()
                },
                Size::Caption,
                Color::Faded,
            ),
        ],
    )
}

/// The weave library list, the weaves given in the order they are shown.
pub open spec fn weaves_card(cats: CatsModel, lang: Lang, ws: Seq<WeaveModel>) -> Seq<BlockModel> {
    seq![para(seq![bolded(run(n_text(cats, lang, "panel.weaves"@, ws.len()), Size::Title, Color::Ink))])] + (if ws.len() == 0 {
        seq![para(seq![italicized(run(s_text(cats, lang, "panel.noWeaves"@), Size::Small, Color::Faded))])]
    } else {
        Seq::empty()
    }) + ws.map_values(|w: WeaveModel| weave_row(cats, lang, w))
}

/// The weave library list, from the weaves in the order they are shown.
pub fn weaves_blocks(cats: &Catalogs, lang: Lang, ws: &Vec<WeaveView>) -> (r: Vec<Block>)
    ensures
        blocks_view(r@) == weaves_card(cats@, lang, weaves_view(ws@)),
{
    let ghost v = weaves_view(ws@);
    let mut out: Vec<Block> = Vec::new();
    push_block(&mut out, one(Run::new(sn(cats, lang, "panel.weaves", ws.len() as u64).as_str(), Size::Title, Color::Ink).bold()));
    if ws.len() == 0 {
        push_block(&mut out, one(Run::new(s(cats, lang, "panel.noWeaves").as_str(), Size::Small, Color::Faded).italic()));
    }
    let ghost start = blocks_view(out@);
    let ghost rows = v.map_values(|w: WeaveModel| weave_row(cats@, lang, w));
    let mut i: usize = 0;
    while i < ws.len()
        invariant
            i <= ws.len(),
            v == weaves_view(ws@),
            rows == v.map_values(|w: WeaveModel| weave_row(cats@, lang, w)),
            blocks_view(out@) == start + rows.take(i as int),
        decreases ws.len() - i,
    {
        let w = &ws[i];
        let mut tail = joined("   ", w.kind_label.as_str());
        push_str(&mut tail, " \u{b7} ");
        push_str(&mut tail, sp(cats, lang, "panel.links.one", "panel.links.other", w.links.len() as u64).as_str());
        if w.suggested {
            push_str(&mut tail, " \u{b7} suggested");
        }
        proof {
            assert(w.links@.map_values(|l: WeaveLinkView| l@).len() == w.links.len());
            reveal_strlit("");
        }
        let b = two(Run::new(w.name.as_str(), Size::Body, Color::Gold).link(verb_uri("weave:", w.index as u64)), Run::new(tail.as_str(), Size::Caption, Color::Faded));
        assert(b@ == weave_row(cats@, lang, w@));
        push_block(&mut out, b);
        assert(rows.take(i + 1) =~= rows.take(i as int).push(b@));
        i = i + 1;
    }
    assert(rows.take(ws.len() as int) =~= rows);
    assert(blocks_view(out@) =~= weaves_card(cats@, lang, v));
    out
}

/// The whole weave library, most-linked first; weaves with as many links
/// keep the source's order.
pub fn weaves_list<S: PanelSource>(src: &S, cats: &Catalogs, lang: Lang) -> (r: Vec<Block>)
    ensures
        exists|sorted: Seq<WeaveView>|
            #[trigger] crate::order::stable_sorted(src.weaves_of()@, sorted) && blocks_view(r@) == weaves_card(
                cats@,
                lang,
                weaves_view(sorted),
            ),
{
    let given = src.weaves();
    let ghost g = given@;
    let ws = crate::order::stable_sort(given);
    let r = weaves_blocks(cats, lang, &ws);
    assert(crate::order::stable_sorted(g, ws@));
    r
}

/// A verse token as plain values: its rendered form and whether the
/// translators supplied it.
pub type TokenModel = (Seq<char>, bool);

/// A verse's tokens as plain values.
pub open spec fn tokens_view(v: VerseTokensView) -> Seq<TokenModel> {
    v.tokens@.map_values(|t: TokenView| (t.render@, t.added))
}

/// Whether token `ti` falls in the highlighted span.
pub open spec fn in_span(span: Option<(u16, u16)>, ti: int) -> bool {
    match span {
        Some((lo, hi)) => ti as u16 >= lo && ti as u16 <= hi,
        None => false,
    }
}

/// One side of a compare card: the verse link, then its text, inset and small,
/// with span words bold and translator-supplied words italic grey.
pub open spec fn compare_side(
    refkey: Seq<char>,
    display: Seq<char>,
    span: Option<(u16, u16)>,
    tokens: Option<Seq<TokenModel>>,
) -> Seq<BlockModel> {
    seq![para(seq![go_run(refkey, display, Size::List)])] + match tokens {
        Some(ts) => seq![BlockModel::Para {
            runs: Seq::new(
                ts.len(),
                |ti: int|
                    (
                        ts[ti].0 + seq![' '],
                        Size::Note,
                        if ts[ti].1 {
                            Color::Faded
                        } else {
                            Color::Ink
                        },
                        in_span(span, ti),
                        ts[ti].1,
                        None::<Seq<char>>,
                    ),
            ),
            indent: true,
            top_gap: false,
        }],
        None => Seq::empty(),
    }
}

/// The tokens fetched for side `j` of the shown links (sides alternate a, b).
pub open spec fn side_at(sides: Seq<Option<Seq<TokenModel>>>, j: int) -> Option<Seq<TokenModel>> {
    if 0 <= j < sides.len() {
        sides[j]
    } else {
        None
    }
}

/// The blocks of the `k`-th shown link of a compare card.
pub open spec fn compare_link(l: WeaveLinkModel, sides: Seq<Option<Seq<TokenModel>>>, k: int) -> Seq<BlockModel> {
    seq![BlockModel::Rule] + (if l.4.len() > 0 {
        seq![para(seq![run(seq!['\u{201c}'] + l.4 + seq!['\u{201d}'], Size::Note, Color::Gold)])]
    } else {
        Seq::empty()
    }) + compare_side(l.0, l.1, l.5, side_at(sides, 2 * k)) + compare_side(l.2, l.3, l.6, side_at(sides, 2 * k + 1))
}

/// The blocks of the shown links, in order.
pub open spec fn compare_links(ls: Seq<WeaveLinkModel>, sides: Seq<Option<Seq<TokenModel>>>) -> Seq<BlockModel>
    decreases ls.len(),
{
    if ls.len() == 0 {
        Seq::empty()
    } else {
        compare_links(ls.drop_last(), sides) + compare_link(ls.last(), sides, ls.len() - 1)
    }
}

/// The compare card of weave `index`, given the tokens fetched for both sides
/// of each shown link; nothing when there is no such weave.
pub open spec fn compare_card_spec(
    cats: CatsModel,
    lang: Lang,
    ws: Seq<WeaveModel>,
    index: nat,
    sides: Seq<Option<Seq<TokenModel>>>,
) -> Seq<BlockModel> {
    if index < ws.len() {
        let w = ws[index as int];
        seq![
            para(seq![
                bolded(run(w.1, Size::Title, Color::Ink)),
                run("   "@ + w.2 + if w.4 {
                    "  (suggested)"@
                } else {
                    Seq::empty()
                }, Size::Caption, Color::Mono),
            ]),
            para(seq![
                run(p_text(cats, lang, "panel.links.one"@, "panel.links.other"@, w.5.len()), Size::Small, Color::Faded),
                run("   "@, Size::Small, Color::Ink),
                linked(run(s_text(cats, lang, "panel.note"@), Size::Caption, Color::Faded), verb_at("editweavenotes:"@, index)),
            ] + if !w.4 {
                seq![
                    run("   "@, Size::Small, Color::Ink),
                    linked(run(s_text(cats, lang, "panel.deleteWeave"@), Size::Caption, Color::Faded), verb_at("deleteweave:"@, index)),
                ]
            } else {
                Seq::empty()
            }),
        ] + (if w.3.len() > 0 {
            seq![para(seq![run(w.3, Size::Note, Color::Faded)])]
        } else {
            Seq::empty()
        }) + compare_links(cap40(w.5), sides) + more_tail(cats, lang, w.5.len(), 40)
    } else {
        Seq::empty()
    }
}

/// The fetched tokens as plain values.
pub open spec fn sides_view(sides: Seq<Option<VerseTokensView>>) -> Seq<Option<Seq<TokenModel>>> {
    sides.map_values(|o: Option<VerseTokensView>| match o {
        Some(v) => Some(tokens_view(v)),
        None => None,
    })
}

fn push_side(out: &mut Vec<Block>, refkey: &str, display: &str, span: Option<[u16; 2]>, tokens: Option<&VerseTokensView>)
    ensures
        blocks_view(final(out)@) == blocks_view(old(out)@) + compare_side(refkey@, display@, span_view(span), match tokens {
            Some(v) => Some(tokens_view(*v)),
            None => None,
        }),
{
    let ghost start = blocks_view(out@);
    push_block(out, one(go(refkey, display, Size::List)));
    match tokens {
        Some(vt) => {
            let ghost tv = tokens_view(*vt);
            let ghost sv = span_view(span);
            let mut runs: Vec<Run> = Vec::new();
            let mut ti: usize = 0;
            while ti < vt.tokens.len()
                invariant
                    ti <= vt.tokens.len(),
                    tv == tokens_view(*vt),
                    sv == span_view(span),
                    runs_view(runs@) == Seq::new(
                        ti as nat,
                        |k: int|
                            (
                                tv[k].0 + seq![' '],
                                Size::Note,
                                if tv[k].1 {
                                    Color::Faded
                                } else {
                                    Color::Ink
                                },
                                in_span(sv, k),
                                tv[k].1,
                                None::<Seq<char>>,
                            ),
                    ),
                decreases vt.tokens.len() - ti,
            {
                let t = &vt.tokens[ti];
                let mut text = string_from(t.render.as_str());
                push_char(&mut text, ' ');
                let hit = match span {
                    Some(sp) => ti as u16 >= sp[0] && ti as u16 <= sp[1],
                    None => false,
                };
                let r = Run {
                    text,
                    size: Size::Note,
                    color: if t.added {
                        Color::Faded
                    } else {
                        Color::Ink
                    },
                    bold: hit,
                    italic: t.added,
                    uri: None,
                };
                let ghost before = runs_view(runs@);
                assert(tv[ti as int] == (t.render@, t.added));
                assert(hit == in_span(sv, ti as int));
                assert(r@ == (tv[ti as int].0 + seq![' '], Size::Note, if tv[ti as int].1 { Color::Faded } else { Color::Ink }, in_span(sv, ti as int), tv[ti as int].1, None::<Seq<char>>));
                runs.push(r);
                assert(runs_view(runs@) =~= before.push(r@));
                ti = ti + 1;
                assert(runs_view(runs@) =~= Seq::new(
                    ti as nat,
                    |k: int|
                        (
                            tv[k].0 + seq![' '],
                            Size::Note,
                            if tv[k].1 {
                                Color::Faded
                            } else {
                                Color::Ink
                            },
                            in_span(sv, k),
                            tv[k].1,
                            None::<Seq<char>>,
                        ),
                ));
            }
            push_block(out, Block::Para { runs, indent: true, top_gap: false });
        },
        None => {},
    }
    assert(blocks_view(out@) =~= start + compare_side(refkey@, display@, span_view(span), match tokens {
        Some(v) => Some(tokens_view(*v)),
        None => None,
    }));
}

/// The compare card of one weave, from the weaves the source answered and the
/// tokens fetched for both sides of each shown link, in order (`a`, then `b`).
pub fn compare_blocks(
    cats: &Catalogs,
    lang: Lang,
    weaves: &Vec<WeaveView>,
    index: usize,
    sides: &Vec<Option<VerseTokensView>>,
) -> (r: Vec<Block>)
    ensures
        blocks_view(r@) == compare_card_spec(cats@, lang, weaves_view(weaves@), index as nat, sides_view(sides@)),
{
    let mut out: Vec<Block> = Vec::new();
    if index >= weaves.len() {
        assert(blocks_view(out@) =~= Seq::<BlockModel>::empty());
        return out;
    }
    let w = &weaves[index];
    let ghost wv = w@;
    let ghost sv = sides_view(sides@);
    let mut label = joined("   ", w.kind_label.as_str());
    if w.suggested {
        push_str(&mut label, "  (suggested)");
    }
    proof {
        reveal_strlit("");
    }
    assert(label@ == "   "@ + wv.2 + if wv.4 { "  (suggested)"@ } else { Seq::<char>::empty() });
    push_block(&mut out, two(Run::new(w.name.as_str(), Size::Title, Color::Ink).bold(), Run::new(label.as_str(), Size::Caption, Color::Mono)));
    let ghost b1 = blocks_view(out@);
    let mut head: Vec<Run> = Vec::new();
    push_run(&mut head, Run::new(sp(cats, lang, "panel.links.one", "panel.links.other", w.links.len() as u64).as_str(), Size::Small, Color::Faded));
    push_run(&mut head, Run::new("   ", Size::Small, Color::Ink));
    push_run(&mut head, Run::new(s(cats, lang, "panel.note").as_str(), Size::Caption, Color::Faded).link(verb_uri("editweavenotes:", index as u64)));
    if !w.suggested {
        push_run(&mut head, Run::new("   ", Size::Small, Color::Ink));
        push_run(&mut head, Run::new(s(cats, lang, "panel.deleteWeave").as_str(), Size::Caption, Color::Faded).link(verb_uri("deleteweave:", index as u64)));
    }
    proof {
        assert(w.links@.map_values(|l: WeaveLinkView| l@).len() == w.links.len());
    }
    let ghost hv = runs_view(head@);
    assert(hv =~= seq![
        run(p_text(cats@, lang, "panel.links.one"@, "panel.links.other"@, wv.5.len()), Size::Small, Color::Faded),
        run("   "@, Size::Small, Color::Ink),
        linked(run(s_text(cats@, lang, "panel.note"@), Size::Caption, Color::Faded), verb_at("editweavenotes:"@, index as nat)),
    ] + if !wv.4 {
        seq![
            run("   "@, Size::Small, Color::Ink),
            linked(run(s_text(cats@, lang, "panel.deleteWeave"@), Size::Caption, Color::Faded), verb_at("deleteweave:"@, index as nat)),
        ]
    } else {
        Seq::empty()
    });
    push_block(&mut out, para_of(head));
    let ghost b2 = blocks_view(out@);
    if !crate::text::is_empty_str(w.notes.as_str()) {
        push_block(&mut out, one(Run::new(w.notes.as_str(), Size::Note, Color::Faded)));
    }
    let ghost start = blocks_view(out@);
    let ghost ls = cap40(wv.5);
    let n = if w.links.len() > 40 {
        40
    } else {
        w.links.len()
    };
    let mut k: usize = 0;
    while k < n
        invariant
            k <= n,
            n == ls.len(),
            n <= w.links.len(),
            wv == w@,
            ls == cap40(wv.5),
            sv == sides_view(sides@),
            blocks_view(out@) == start + compare_links(ls.take(k as int), sv),
        decreases n - k,
    {
        let l = &w.links[k];
        let ghost before = blocks_view(out@);
        push_block(&mut out, Block::Rule);
        if !crate::text::is_empty_str(l.label.as_str()) {
            let mut q = String::new();
            push_char(&mut q, '\u{201c}');
            push_str(&mut q, l.label.as_str());
            push_char(&mut q, '\u{201d}');
            assert(q@ =~= seq!['\u{201c}'] + l.label@ + seq!['\u{201d}']);
            push_block(&mut out, one(Run::new(q.as_str(), Size::Note, Color::Gold)));
        }
        let ta = if 2 * k < sides.len() {
            match &sides[2 * k] {
                Some(v) => Some(v),
                None => None,
            }
        } else {
            None
        };
        push_side(&mut out, l.a.as_str(), l.a_display.as_str(), l.span_a, ta);
        let tb = if 2 * k + 1 < sides.len() {
            match &sides[2 * k + 1] {
                Some(v) => Some(v),
                None => None,
            }
        } else {
            None
        };
        push_side(&mut out, l.b.as_str(), l.b_display.as_str(), l.span_b, tb);
        proof {
            assert(ls[k as int] == l@);
            assert(ls.take(k + 1).drop_last() =~= ls.take(k as int));
            assert(ls.take(k + 1).last() == l@);
            assert(blocks_view(out@) =~= before + compare_link(l@, sv, k as int));
            i_assoc(start, compare_links(ls.take(k as int), sv), compare_link(l@, sv, k as int));
        }
        k = k + 1;
    }
    assert(ls.take(n as int) =~= ls);
    push_more(&mut out, cats, lang, w.links.len() as u64, 40);
    proof {
        assert(weaves_view(weaves@)[index as int] == wv);
        assert(blocks_view(out@) =~= compare_card_spec(cats@, lang, weaves_view(weaves@), index as nat, sv));
    }
    out
}

/// The verse tokens of both sides of the first `k` links, side A first.
pub open spec fn link_sides<S: PanelSource>(src: &S, links: Seq<WeaveLinkView>, k: int) -> Seq<Option<VerseTokensView>> {
    Seq::new(
        (2 * k) as nat,
        |i: int|
            if i % 2 == 0 {
                src.verse_tokens_of(links[i / 2].a@)
            } else {
                src.verse_tokens_of(links[i / 2].b@)
            },
    )
}

/// The verse tokens the compare card of weave `index` shows: both sides of
/// each of its first forty links.
pub open spec fn sides_of<S: PanelSource>(src: &S, ws: Seq<WeaveView>, index: int) -> Seq<Option<VerseTokensView>> {
    if 0 <= index < ws.len() {
        link_sides(src, ws[index].links@, capped(ws[index].links@.len(), 40) as int)
    } else {
        Seq::empty()
    }
}

/// The compare card of one weave: each shown link's two verses side by side.
/// `full` is unused: a reader's own note and author actions are never gated.
pub fn compare_card<S: PanelSource>(src: &S, cats: &Catalogs, lang: Lang, full: bool, index: usize) -> (r: Vec<
    Block,
>)
    ensures
        blocks_view(r@) == compare_card_spec(
            cats@,
            lang,
            weaves_view(src.weaves_of()@),
            index as nat,
            sides_view(sides_of(src, src.weaves_of()@, index as int)),
        ),
{
    let weaves = src.weaves();
    let mut sides: Vec<Option<VerseTokensView>> = Vec::new();
    if index < weaves.len() {
        let w = &weaves[index];
        let mut k: usize = 0;
        while k < w.links.len() && k < 40
            invariant
                k <= w.links@.len(),
                k <= 40,
                *w == weaves@[index as int],
                sides@ =~= link_sides(src, w.links@, k as int),
            decreases w.links.len() - k,
        {
            let ghost before = sides@;
            sides.push(src.verse_tokens(w.links[k].a.as_str()));
            sides.push(src.verse_tokens(w.links[k].b.as_str()));
            assert(sides@ =~= link_sides(src, w.links@, k + 1));
            k = k + 1;
        }
        assert(sides@ =~= sides_of(src, weaves@, index as int));
    } else {
        assert(sides@ =~= sides_of(src, weaves@, index as int));
    }
    compare_blocks(cats, lang, &weaves, index, &sides)
}

// ── search results ───────────────────────────────────────────────────────────

/// The first white-space-separated word of `q`.
pub open spec fn first_word(q: Seq<char>) -> Seq<char> {
    let rest = q.skip(lead_white(q) as int);
    rest.take(first_white(rest))
}

/// Where the first white character of `s` is, or its length.
pub open spec fn first_white(s: Seq<char>) -> int
    decreases s.len(),
{
    if s.len() == 0 {
        0
    } else if is_white(s[0]) {
        0
    } else {
        1 + first_white(s.drop_first())
    }
}

/// `n` matches `h` at `i`, ASCII case folded.
pub open spec fn matches_at(h: Seq<char>, n: Seq<char>, i: int) -> bool {
    forall|j: int| 0 <= j < n.len() ==> ascii_lower(#[trigger] h[i + j]) == ascii_lower(n[j])
}

/// The first match of `n` in `h` at or after `i`.
pub open spec fn match_from(h: Seq<char>, n: Seq<char>, i: int) -> Option<int>
    decreases h.len() - n.len() + 1 - i,
{
    if i < 0 || i > h.len() - n.len() {
        None
    } else if matches_at(h, n, i) {
        Some(i)
    } else {
        match_from(h, n, i + 1)
    }
}

/// Case-insensitive (ASCII-fold) search: the first place `n` occurs in `h`,
/// never for an empty `n`.
pub open spec fn find_ci(h: Seq<char>, n: Seq<char>) -> Option<int> {
    if n.len() == 0 || n.len() > h.len() {
        None
    } else {
        match_from(h, n, 0)
    }
}

/// `s` moved back to the start of the word it falls in.
pub open spec fn snap_start(cs: Seq<char>, s: int) -> int
    decreases s,
{
    if s > 0 && s <= cs.len() && cs[s - 1] != ' ' {
        snap_start(cs, s - 1)
    } else {
        s
    }
}

/// `e` moved forward to the end of the word it falls in.
pub open spec fn snap_end(cs: Seq<char>, e: int) -> int
    decreases cs.len() - e,
{
    if 0 <= e < cs.len() && cs[e] != ' ' {
        snap_end(cs, e + 1)
    } else {
        e
    }
}

/// The context window of a hit before snapping to words: 46 characters either
/// side of the match, or the first 92 when the query's word is not found.
pub open spec fn window(len: int, at: Option<int>, n: int) -> (int, int) {
    match at {
        None => (0, if len < 92 {
            len
        } else {
            92
        }),
        Some(a) => (if a >= 46 {
            a - 46
        } else {
            0
        }, if a + n + 46 < len {
            a + n + 46
        } else {
            len
        }),
    }
}

/// A one-line context snippet for a hit: the verse text windowed around the
/// first match of the query's first word, the match in bold. Nothing for a
/// verse with no text.
pub open spec fn snippet_spec(body: Option<Seq<char>>, query: Seq<char>) -> Seq<BlockModel> {
    match body {
        None => Seq::empty(),
        Some(cs) => if cs.len() == 0 {
            Seq::empty()
        } else {
            let needle = first_word(query);
            let at = find_ci(cs, needle);
            let w = window(cs.len() as int, at, needle.len() as int);
            let start = snap_start(cs, w.0);
            let end = snap_end(cs, w.1);
            seq![BlockModel::Para {
                runs: (if start > 0 {
                    seq![run("\u{2026}"@, Size::Caption, Color::Faded)]
                } else {
                    Seq::empty()
                }) + match at {
                    Some(a) => seq![
                        run(cs.subrange(start, a), Size::Caption, Color::Faded),
                        bolded(run(cs.subrange(a, a + needle.len()), Size::Caption, Color::Ink)),
                        run(cs.subrange(a + needle.len(), end), Size::Caption, Color::Faded),
                    ],
                    None => seq![run(cs.subrange(start, end), Size::Caption, Color::Faded)],
                } + (if end < cs.len() {
                    seq![run("\u{2026}"@, Size::Caption, Color::Faded)]
                } else {
                    Seq::empty()
                }),
                indent: true,
                top_gap: false,
            }]
        },
    }
}

proof fn lemma_match_from(h: Seq<char>, n: Seq<char>, i: int)
    ensures
        match match_from(h, n, i) {
            Some(a) => i <= a <= h.len() - n.len() && matches_at(h, n, a),
            None => true,
        },
    decreases h.len() - n.len() + 1 - i,
{
    if !(i < 0 || i > h.len() - n.len()) && !matches_at(h, n, i) {
        lemma_match_from(h, n, i + 1);
    }
}

proof fn lemma_snap(cs: Seq<char>, s: int, e: int)
    requires
        0 <= s <= cs.len(),
        0 <= e <= cs.len(),
    ensures
        0 <= snap_start(cs, s) <= s,
        e <= snap_end(cs, e) <= cs.len(),
    decreases cs.len() - e + s,
{
    if s > 0 && cs[s - 1] != ' ' {
        lemma_snap(cs, s - 1, e);
    } else if e < cs.len() && cs[e] != ' ' {
        lemma_snap(cs, s, e + 1);
    }
}

fn find_ci_in(h: &Vec<char>, n: &Vec<char>) -> (r: Option<usize>)
    ensures
        match find_ci(h@, n@) {
            Some(a) => r == Some(a as usize),
            None => r is None,
        },
{
    if n.len() == 0 || n.len() > h.len() {
        return None;
    }
    let last = h.len() - n.len();
    let mut i: usize = 0;
    while i <= last
        invariant
            n.len() > 0,
            last == h.len() - n.len(),
            i <= last + 1,
            match_from(h@, n@, 0) == match_from(h@, n@, i as int),
        decreases last + 1 - i,
    {
        let mut j: usize = 0;
        let mut ok = true;
        while j < n.len()
            invariant
                i <= last,
                last == h.len() - n.len(),
                j <= n.len(),
                ok ==> forall|k: int| 0 <= k < j ==> ascii_lower(#[trigger] h@[i + k]) == ascii_lower(n@[k]),
                !ok ==> !matches_at(h@, n@, i as int),
            decreases n.len() - j,
        {
            if lower_ascii(h[i + j]) != lower_ascii(n[j]) {
                ok = false;
                assert(!matches_at(h@, n@, i as int)) by {
                    assert(ascii_lower(h@[i + j]) != ascii_lower(n@[j as int]));
                }
            }
            j = j + 1;
        }
        if ok {
            assert(matches_at(h@, n@, i as int));
            return Some(i);
        }
        i = i + 1;
    }
    None
}

fn first_word_of(q: &str) -> (r: Vec<char>)
    ensures
        r@ == first_word(q@),
{
    let cs = chars_of(q);
    let mut a: usize = 0;
    assert(cs@.skip(0) =~= cs@);
    while a < cs.len() && white(cs[a])
        invariant
            a <= cs.len(),
            lead_white(cs@) == a + lead_white(cs@.skip(a as int)),
        decreases cs.len() - a,
    {
        assert(cs@.skip(a as int).drop_first() =~= cs@.skip(a + 1));
        a = a + 1;
    }
    assert(lead_white(cs@.skip(a as int)) == 0);
    let mut b: usize = a;
    while b < cs.len() && !white(cs[b])
        invariant
            a <= b <= cs.len(),
            first_white(cs@.skip(a as int)) == (b - a) + first_white(cs@.skip(b as int)),
        decreases cs.len() - b,
    {
        assert(cs@.skip(b as int).drop_first() =~= cs@.skip(b + 1));
        b = b + 1;
    }
    assert(first_white(cs@.skip(b as int)) == 0);
    let mut out: Vec<char> = Vec::new();
    let mut k: usize = a;
    while k < b
        invariant
            a <= k <= b <= cs.len(),
            out@ == cs@.subrange(a as int, k as int),
        decreases b - k,
    {
        out.push(cs[k]);
        assert(cs@.subrange(a as int, k + 1) =~= cs@.subrange(a as int, k as int).push(cs@[k as int]));
        k = k + 1;
    }
    assert(cs@.skip(a as int).take(b - a) =~= cs@.subrange(a as int, b as int));
    out
}

/// The snippet of one hit, from the verse text the source answered.
pub fn snippet_blocks(body: Option<&str>, query: &str) -> (r: Vec<Block>)
    ensures
        blocks_view(r@) == snippet_spec(match body {
            Some(b) => Some(b@),
            None => None,
        }, query@),
{
    let mut out: Vec<Block> = Vec::new();
    push_snippet(&mut out, body, query);
    assert(blocks_view(out@) =~= Seq::<BlockModel>::empty() + snippet_spec(match body {
        Some(b) => Some(b@),
        None => None,
    }, query@));
    out
}

fn push_snippet(out: &mut Vec<Block>, body: Option<&str>, query: &str)
    ensures
        blocks_view(final(out)@) == blocks_view(old(out)@) + snippet_spec(match body {
            Some(b) => Some(b@),
            None => None,
        }, query@),
{
    let ghost before = blocks_view(out@);
    let text = match body {
        Some(b) => b,
        None => {
            assert(blocks_view(out@) =~= before + Seq::<BlockModel>::empty());
            return;
        },
    };
    let cs = chars_of(text);
    if cs.len() == 0 {
        assert(blocks_view(out@) =~= before + Seq::<BlockModel>::empty());
        return;
    }
    let needle = first_word_of(query);
    let at = find_ci_in(&cs, &needle);
    proof {
        lemma_match_from(cs@, needle@, 0);
    }
    let len = cs.len();
    let (mut start, mut end) = match at {
        None => (0usize, if len < 92 {
            len
        } else {
            92
        }),
        Some(a) => (if a >= 46 {
            a - 46
        } else {
            0
        }, if len - (a + needle.len()) > 46 {
            a + needle.len() + 46
        } else {
            len
        }),
    };
    assert(match at {
        Some(a) => a + needle.len() <= len,
        None => true,
    });
    let ghost w = window(len as int, find_ci(cs@, needle@), needle@.len() as int);
    assert(start == w.0 && end == w.1);
    while start > 0 && cs[start - 1] != ' '
        invariant
            start <= len,
            len == cs.len(),
            snap_start(cs@, w.0) == snap_start(cs@, start as int),
        decreases start,
    {
        start = start - 1;
    }
    while end < len && cs[end] != ' '
        invariant
            end <= len,
            len == cs.len(),
            snap_end(cs@, w.1) == snap_end(cs@, end as int),
        decreases len - end,
    {
        end = end + 1;
    }
    proof {
        lemma_snap(cs@, w.0, w.1);
        assert(snap_start(cs@, start as int) == start);
        assert(snap_end(cs@, end as int) == end);
    }
    let ghost ss = snap_start(cs@, w.0);
    let ghost ee = snap_end(cs@, w.1);
    assert(start == ss && end == ee);
    let mut runs: Vec<Run> = Vec::new();
    if start > 0 {
        push_run(&mut runs, Run::new("\u{2026}", Size::Caption, Color::Faded));
    }
    match at {
        Some(a) => {
            let k = a + needle.len();
            push_run(&mut runs, Run::new(string_of_range(cs.as_slice(), start, a).as_str(), Size::Caption, Color::Faded));
            push_run(&mut runs, Run::new(string_of_range(cs.as_slice(), a, k).as_str(), Size::Caption, Color::Ink).bold());
            push_run(&mut runs, Run::new(string_of_range(cs.as_slice(), k, end).as_str(), Size::Caption, Color::Faded));
        },
        None => {
            push_run(&mut runs, Run::new(string_of_range(cs.as_slice(), start, end).as_str(), Size::Caption, Color::Faded));
        },
    }
    if end < len {
        push_run(&mut runs, Run::new("\u{2026}", Size::Caption, Color::Faded));
    }
    let ghost at_s = find_ci(cs@, needle@);
    assert(runs_view(runs@) =~= (if ss > 0 {
        seq![run("\u{2026}"@, Size::Caption, Color::Faded)]
    } else {
        Seq::empty()
    }) + match at_s {
        Some(a) => seq![
            run(cs@.subrange(ss, a), Size::Caption, Color::Faded),
            bolded(run(cs@.subrange(a, a + needle@.len()), Size::Caption, Color::Ink)),
            run(cs@.subrange(a + needle@.len(), ee), Size::Caption, Color::Faded),
        ],
        None => seq![run(cs@.subrange(ss, ee), Size::Caption, Color::Faded)],
    } + (if ee < cs@.len() {
        seq![run("\u{2026}"@, Size::Caption, Color::Faded)]
    } else {
        Seq::empty()
    }));
    push_block(out, Block::Para { runs, indent: true, top_gap: false });
    assert(text@ == cs@);
    assert(blocks_view(out@) =~= before + snippet_spec(Some(text@), query@));
}

/// The "go to" link of a reference search.
pub open spec fn goto_uri(book: Seq<char>, chapter: u32, verse: Option<u32>) -> Seq<char> {
    "go:"@ + book + seq![':'] + dec(chapter as nat) + match verse {
        Some(v) => seq![':'] + dec(v as nat),
        None => Seq::empty(),
    }
}

/// A hit as plain values: verse, display, has a note, why it matched.
pub type HitModel = (Seq<char>, Seq<char>, bool, Seq<char>);

impl View for SearchHitView {
    type V = HitModel;

    open spec fn view(&self) -> HitModel {
        (self.verse@, self.display@, self.note, self.why@)
    }
}

/// The hits as plain values.
pub open spec fn hits_view(hs: Seq<SearchHitView>) -> Seq<HitModel> {
    hs.map_values(|h: SearchHitView| h@)
}

/// The row of one hit: its verse, why it matched, whether it has a note.
pub open spec fn hit_runs(cats: CatsModel, lang: Lang, h: HitModel) -> Seq<RunModel> {
    seq![go_run(h.0, h.1, Size::List)] + (if h.3.len() > 0 {
        seq![run("   "@ + h.3, Size::Caption, Color::Mono)]
    } else {
        Seq::empty()
    }) + if h.2 {
        seq![run("   "@ + s_text(cats, lang, "panel.hasNote"@), Size::Caption, Color::Gold)]
    } else {
        Seq::empty()
    }
}

/// The verse text fetched for hit `k`.
pub open spec fn body_at(bodies: Seq<Option<Seq<char>>>, k: int) -> Option<Seq<char>> {
    if 0 <= k < bodies.len() {
        bodies[k]
    } else {
        None
    }
}

/// The rows of the hits, each followed by its snippet.
pub open spec fn hits_blocks(
    cats: CatsModel,
    lang: Lang,
    hs: Seq<HitModel>,
    bodies: Seq<Option<Seq<char>>>,
    query: Seq<char>,
) -> Seq<BlockModel>
    decreases hs.len(),
{
    if hs.len() == 0 {
        Seq::empty()
    } else {
        hits_blocks(cats, lang, hs.drop_last(), bodies, query) + seq![para(hit_runs(cats, lang, hs.last()))]
            + snippet_spec(body_at(bodies, hs.len() - 1), query)
    }
}

/// The prompt shown when a search matched nothing.
pub open spec fn nothing_matched() -> Seq<char> {
    "Nothing matched. Try a single word (its other forms are found too), a reference like John 3:16 or 1 Cor 13, or a Strong's code like H430."@
}

/// The search results card, given the source's answer and the verse text of
/// each hit.
pub open spec fn search_card(
    cats: CatsModel,
    lang: Lang,
    query: Seq<char>,
    answer: SearchAnswer,
    bodies: Seq<Option<Seq<char>>>,
) -> Seq<BlockModel> {
    match answer {
        SearchAnswer::Goto { book, chapter, verse, display } => seq![para(seq![linked(run(t_spec(cats, lang, "panel.goTo"@, seq![("passage"@, display)]), Size::SearchGoto, Color::Gold), goto_uri(book, chapter, verse))])],
        SearchAnswer::Hits { how, total, capped, hits } => seq![para(seq![bolded(run(p_text(cats, lang, "panel.results.one"@, "panel.results.other"@, total as nat), Size::SuggestHead, Color::Ink))])]
            + (if how.len() > 0 {
            seq![para(seq![italicized(run(how, Size::Caption, Color::Faded))])]
        } else {
            Seq::empty()
        }) + (if total == 0 {
            seq![para(seq![italicized(run(nothing_matched(), Size::Small, Color::Faded))])]
        } else {
            Seq::empty()
        }) + hits_blocks(cats, lang, hits, bodies, query) + if capped {
            seq![para(seq![italicized(run("\u{2026} "@ + dec(if total >= hits.len() { (total - hits.len()) as nat } else { 0 }) + " more"@, Size::Caption, Color::Faded))])]
        } else {
            Seq::empty()
        },
    }
}

/// A search answer as plain values.
pub enum SearchAnswer {
    Goto { book: Seq<char>, chapter: u32, verse: Option<u32>, display: Seq<char> },
    Hits { how: Seq<char>, total: usize, capped: bool, hits: Seq<HitModel> },
}

impl View for SearchView {
    type V = SearchAnswer;

    open spec fn view(&self) -> SearchAnswer {
        match self {
            SearchView::Goto { book, chapter, verse, display } => SearchAnswer::Goto {
                book: book@,
                chapter: *chapter,
                verse: *verse,
                display: display@,
            },
            SearchView::Hits { how, total, capped, hits } => SearchAnswer::Hits {
                how: how@,
                total: *total,
                capped: *capped,
                hits: hits_view(hits@),
            },
        }
    }
}

/// The fetched verse texts as plain values.
pub open spec fn bodies_view(bs: Seq<Option<String>>) -> Seq<Option<Seq<char>>> {
    bs.map_values(|b: Option<String>| opt_text(b))
}

fn hit_block(cats: &Catalogs, lang: Lang, h: &SearchHitView) -> (b: Block)
    ensures
        b@ == para(hit_runs(cats@, lang, h@)),
{
    let mut runs: Vec<Run> = Vec::new();
    push_run(&mut runs, go(h.verse.as_str(), h.display.as_str(), Size::List));
    if !crate::text::is_empty_str(h.why.as_str()) {
        push_run(&mut runs, Run::new(joined("   ", h.why.as_str()).as_str(), Size::Caption, Color::Mono));
    }
    if h.note {
        push_run(&mut runs, Run::new(joined("   ", s(cats, lang, "panel.hasNote").as_str()).as_str(), Size::Caption, Color::Gold));
    }
    assert(runs_view(runs@) =~= hit_runs(cats@, lang, h@));
    para_of(runs)
}

/// The search results card, from the source's answer and the verse text of
/// each hit, in hit order.
pub fn search_blocks(
    cats: &Catalogs,
    lang: Lang,
    query: &str,
    answer: &SearchView,
    bodies: &Vec<Option<String>>,
) -> (r: Vec<Block>)
    ensures
        blocks_view(r@) == search_card(cats@, lang, query@, answer@, bodies_view(bodies@)),
{
    let mut out: Vec<Block> = Vec::new();
    match answer {
        SearchView::Goto { book, chapter, verse, display } => {
            let mut uri = string_from("go:");
            push_str(&mut uri, book.as_str());
            push_char(&mut uri, ':');
            push_dec(&mut uri, *chapter as u64);
            match verse {
                Some(v) => {
                    push_char(&mut uri, ':');
                    push_dec(&mut uri, *v as u64);
                },
                None => {},
            }
            assert(uri@ =~= goto_uri(book@, *chapter, *verse));
            let mut args: Vec<(&str, &str)> = Vec::new();
            args.push(("passage", display.as_str()));
            assert(args_view(args@) =~= seq![("passage"@, display@)]);
            let r = Run::new(t(cats, lang, "panel.goTo", args.as_slice()).as_str(), Size::SearchGoto, Color::Gold).link(uri);
            push_block(&mut out, one(r));
            assert(blocks_view(out@) =~= search_card(cats@, lang, query@, answer@, bodies_view(bodies@)));
            out
        },
        SearchView::Hits { how, total, capped, hits } => {
            let ghost hv = hits_view(hits@);
            let ghost bv = bodies_view(bodies@);
            push_block(&mut out, one(Run::new(sp(cats, lang, "panel.results.one", "panel.results.other", *total as u64).as_str(), Size::SuggestHead, Color::Ink).bold()));
            if !crate::text::is_empty_str(how.as_str()) {
                push_block(&mut out, one(Run::new(how.as_str(), Size::Caption, Color::Faded).italic()));
            }
            if *total == 0 {
                push_block(&mut out, one(Run::new("Nothing matched. Try a single word (its other forms are found too), a reference like John 3:16 or 1 Cor 13, or a Strong's code like H430.", Size::Small, Color::Faded).italic()));
            }
            let ghost start = blocks_view(out@);
            let mut i: usize = 0;
            while i < hits.len()
                invariant
                    i <= hits.len(),
                    hv == hits_view(hits@),
                    bv == bodies_view(bodies@),
                    blocks_view(out@) == start + hits_blocks(cats@, lang, hv.take(i as int), bv, query@),
                decreases hits.len() - i,
            {
                let ghost before = blocks_view(out@);
                push_block(&mut out, hit_block(cats, lang, &hits[i]));
                let body = if i < bodies.len() {
                    match &bodies[i] {
                        Some(b) => Some(b.as_str()),
                        None => None,
                    }
                } else {
                    None
                };
                push_snippet(&mut out, body, query);
                proof {
                    assert(hv.take(i + 1).drop_last() =~= hv.take(i as int));
                    assert(hv.take(i + 1).last() == hits@[i as int]@);
                    assert(body_at(bv, i as int) == match body {
                        Some(b) => Some(b@),
                        None => None::<Seq<char>>,
                    });
                    assert(blocks_view(out@) =~= start + hits_blocks(cats@, lang, hv.take(i + 1), bv, query@));
                }
                i = i + 1;
            }
            assert(hv.take(hits.len() as int) =~= hv);
            let ghost mid = blocks_view(out@);
            if *capped {
                let shown = hits.len();
                let rest = if *total >= shown {
                    *total - shown
                } else {
                    0
                };
                let mut m = string_from("\u{2026} ");
                push_dec(&mut m, rest as u64);
                push_str(&mut m, " more");
                push_block(&mut out, one(Run::new(m.as_str(), Size::Caption, Color::Faded).italic()));
            }
            proof {
                assert(hv.len() == hits.len());
                assert(blocks_view(out@) =~= search_card(cats@, lang, query@, answer@, bv));
            }
            out
        },
    }
}

/// The verse bodies a search card shows: one per hit, none for a go-to.
pub open spec fn bodies_of<S: PanelSource>(src: &S, answer: SearchView) -> Seq<Option<String>> {
    match answer {
        SearchView::Hits { hits, .. } => hits@.map_values(|h: SearchHitView| src.verse_body_of(h.verse@)),
        SearchView::Goto { .. } => Seq::empty(),
    }
}

/// The search results card: a direct "go to" for a reference, or the ranked
/// hits, each with a context snippet.
pub fn search<S: PanelSource>(src: &S, cats: &Catalogs, lang: Lang, query: &str) -> (r: Vec<Block>)
    ensures
        blocks_view(r@) == search_card(
            cats@,
            lang,
            query@,
            src.search_of(query@)@,
            bodies_view(bodies_of(src, src.search_of(query@))),
        ),
{
    let answer = src.search(query);
    let mut bodies: Vec<Option<String>> = Vec::new();
    match &answer {
        SearchView::Hits { hits, .. } => {
            let mut i: usize = 0;
            while i < hits.len()
                invariant
                    i <= hits@.len(),
                    bodies@ =~= hits@.take(i as int).map_values(|h: SearchHitView| src.verse_body_of(h.verse@)),
                decreases hits.len() - i,
            {
                bodies.push(src.verse_body(hits[i].verse.as_str()));
                assert(hits@.take(i + 1) =~= hits@.take(i as int).push(hits@[i as int]));
                i = i + 1;
            }
            assert(hits@.take(hits@.len() as int) =~= hits@);
        },
        SearchView::Goto { .. } => {},
    }
    assert(bodies@ =~= bodies_of(src, answer));
    search_blocks(cats, lang, query, &answer, &bodies)
}

// ── the in-app guide and the About card ──────────────────────────────────────

/// The ids as plain values.
pub open spec fn ids_view(ids: Seq<&str>) -> Seq<Seq<char>> {
    ids.map_values(|p: &str| p@)
}

/// A body paragraph of the guide, from its catalogue id.
pub open spec fn guide_para(cats: CatsModel, lang: Lang, id: Seq<char>) -> BlockModel {
    para(seq![run(s_text(cats, lang, id), Size::Body, Color::Ink)])
}

/// A guide section: its heading and its paragraphs, given as catalogue ids.
pub open spec fn guide_section(cats: CatsModel, lang: Lang, title: Seq<char>, paras: Seq<Seq<char>>) -> Seq<
    BlockModel,
> {
    seq![BlockModel::Section { title: s_text(cats, lang, title), mark: None }] + paras.map_values(
        |p: Seq<char>| guide_para(cats, lang, p),
    )
}

/// A step inside a guide section: a bold line and its paragraphs.
pub open spec fn guide_step(cats: CatsModel, lang: Lang, title: Seq<char>, paras: Seq<Seq<char>>) -> Seq<
    BlockModel,
> {
    seq![para(seq![bolded(run(s_text(cats, lang, title), Size::Label, Color::Ink))])] + paras.map_values(
        |p: Seq<char>| guide_para(cats, lang, p),
    )
}

/// The About content: edition, provenance, covenant.
pub open spec fn about_card(cats: CatsModel, lang: Lang) -> Seq<BlockModel> {
    seq![
        para(seq![bolded(run(s_text(cats, lang, "about.heading"@), Size::Title, Color::Ink))]),
        para(seq![run(s_text(cats, lang, "about.lede"@), Size::Body, Color::Ink)]),
    ] + guide_section(cats, lang, "about.text.title"@, seq!["about.text.p1"@, "about.text.p2"@])
        + guide_section(cats, lang, "about.provenance.title"@, seq!["about.provenance.p1"@])
        + guide_section(cats, lang, "about.covenant.title"@, seq!["about.covenant.p1"@])
}

/// The in-app guide, organised by what the reader came to do, with the About
/// content at its foot.
pub open spec fn guide_card(cats: CatsModel, lang: Lang) -> Seq<BlockModel> {
    seq![
        para(seq![bolded(run(s_text(cats, lang, "guide.title"@), Size::Title, Color::Ink))]),
        para(seq![run(s_text(cats, lang, "guide.lede"@), Size::Body, Color::Faded)]),
    ] + guide_section(cats, lang, "guide.read.title"@, seq!["guide.read.p1"@, "guide.read.p2"@, "guide.read.p3"@])
        + guide_step(cats, lang, "guide.plain.title"@, seq!["guide.plain.p1"@])
        + guide_step(cats, lang, "guide.map.title"@, seq!["guide.map.p1"@, "guide.map.p2"@, "guide.map.p3"@, "guide.map.p4"@])
        + guide_section(cats, lang, "guide.gospel.title"@, seq!["guide.gospel.p1"@])
        + guide_step(cats, lang, "guide.shareThread.title"@, seq!["guide.shareThread.p1"@, "guide.shareThread.p2"@])
        + guide_step(cats, lang, "guide.church.title"@, seq!["guide.church.p1"@, "guide.church.p2"@])
        + guide_section(cats, lang, "guide.teach.title"@, seq!["guide.teach.p1"@, "guide.teach.p2"@])
        + guide_step(cats, lang, "guide.preach.title"@, seq!["guide.preach.p1"@])
        + guide_section(cats, lang, "guide.study.title"@, seq!["guide.study.p1"@, "guide.study.p2"@])
        + guide_step(cats, lang, "guide.weaves.title"@, seq!["guide.weaves.p1"@, "guide.weaves.p2"@, "guide.weaves.p3"@])
        + guide_step(cats, lang, "guide.tags.title"@, seq!["guide.tags.p1"@])
        + guide_section(cats, lang, "guide.memorize.title"@, seq!["guide.memorize.p1"@, "guide.memorize.p2"@])
        + guide_section(cats, lang, "guide.yours.title"@, seq!["guide.yours.p1"@, "guide.yours.p2"@, "guide.yours.p3"@])
        + seq![
        BlockModel::Rule,
        para(seq![run(s_text(cats, lang, "panel.shortcutsHint"@), Size::Small, Color::Faded)]),
        BlockModel::Rule,
    ] + about_card(cats, lang)
}

fn push_paras(out: &mut Vec<Block>, cats: &Catalogs, lang: Lang, paras: &[&str])
    ensures
        blocks_view(final(out)@) == blocks_view(old(out)@) + ids_view(paras@).map_values(
            |p: Seq<char>| guide_para(cats@, lang, p),
        ),
{
    let ghost start = blocks_view(out@);
    let ghost rows = ids_view(paras@).map_values(|p: Seq<char>| guide_para(cats@, lang, p));
    let mut i: usize = 0;
    while i < paras.len()
        invariant
            i <= paras.len(),
            rows == ids_view(paras@).map_values(|p: Seq<char>| guide_para(cats@, lang, p)),
            blocks_view(out@) == start + rows.take(i as int),
        decreases paras.len() - i,
    {
        let b = one(Run::new(s(cats, lang, paras[i]).as_str(), Size::Body, Color::Ink));
        push_block(out, b);
        assert(rows.take(i + 1) =~= rows.take(i as int).push(b@));
        i = i + 1;
    }
    assert(rows.take(paras.len() as int) =~= rows);
}

fn push_section(out: &mut Vec<Block>, cats: &Catalogs, lang: Lang, title: &str, paras: &[&str])
    ensures
        blocks_view(final(out)@) == blocks_view(old(out)@) + guide_section(cats@, lang, title@, ids_view(paras@)),
{
    let ghost start = blocks_view(out@);
    push_block(out, Block::Section { title: s(cats, lang, title), mark: None });
    push_paras(out, cats, lang, paras);
    assert(blocks_view(out@) =~= start + guide_section(cats@, lang, title@, ids_view(paras@)));
}

fn push_step(out: &mut Vec<Block>, cats: &Catalogs, lang: Lang, title: &str, paras: &[&str])
    ensures
        blocks_view(final(out)@) == blocks_view(old(out)@) + guide_step(cats@, lang, title@, ids_view(paras@)),
{
    let ghost start = blocks_view(out@);
    push_block(out, one(Run::new(s(cats, lang, title).as_str(), Size::Label, Color::Ink).bold()));
    push_paras(out, cats, lang, paras);
    assert(blocks_view(out@) =~= start + guide_step(cats@, lang, title@, ids_view(paras@)));
}

proof fn lemma_ids1(a: &str)
    ensures
        ids_view(seq![a]) == seq![a@],
{
    assert(ids_view(seq![a]) =~= seq![a@]);
}

proof fn lemma_ids2(a: &str, b: &str)
    ensures
        ids_view(seq![a, b]) == seq![a@, b@],
{
    assert(ids_view(seq![a, b]) =~= seq![a@, b@]);
}

proof fn lemma_ids3(a: &str, b: &str, c: &str)
    ensures
        ids_view(seq![a, b, c]) == seq![a@, b@, c@],
{
    assert(ids_view(seq![a, b, c]) =~= seq![a@, b@, c@]);
}

proof fn lemma_ids4(a: &str, b: &str, c: &str, d: &str)
    ensures
        ids_view(seq![a, b, c, d]) == seq![a@, b@, c@, d@],
{
    assert(ids_view(seq![a, b, c, d]) =~= seq![a@, b@, c@, d@]);
}

fn push_about(out: &mut Vec<Block>, cats: &Catalogs, lang: Lang)
    ensures
        blocks_view(final(out)@) == blocks_view(old(out)@) + about_card(cats@, lang),
{
    let ghost start = blocks_view(out@);
    push_block(out, one(Run::new(s(cats, lang, "about.heading").as_str(), Size::Title, Color::Ink).bold()));
    push_block(out, one(Run::new(s(cats, lang, "about.lede").as_str(), Size::Body, Color::Ink)));
    let p = ["about.text.p1", "about.text.p2"];
    proof { lemma_ids2("about.text.p1", "about.text.p2"); }
    push_section(out, cats, lang, "about.text.title", &p);
    let p = ["about.provenance.p1"];
    proof { lemma_ids1("about.provenance.p1"); }
    push_section(out, cats, lang, "about.provenance.title", &p);
    let p = ["about.covenant.p1"];
    proof { lemma_ids1("about.covenant.p1"); }
    push_section(out, cats, lang, "about.covenant.title", &p);
    assert(blocks_view(out@) =~= start + about_card(cats@, lang));
}

/// The About card in an explicit language.
pub fn about_blocks_in(cats: &Catalogs, lang: Lang) -> (r: Vec<Block>)
    ensures
        blocks_view(r@) == about_card(cats@, lang),
{
    let mut out: Vec<Block> = Vec::new();
    push_about(&mut out, cats, lang);
    assert(blocks_view(out@) =~= about_card(cats@, lang));
    out
}

/// The in-app guide in an explicit language.
pub fn guide_blocks_in(cats: &Catalogs, lang: Lang) -> (r: Vec<Block>)
    ensures
        blocks_view(r@) == guide_card(cats@, lang),
{
    let mut out: Vec<Block> = Vec::new();
    push_block(&mut out, one(Run::new(s(cats, lang, "guide.title").as_str(), Size::Title, Color::Ink).bold()));
    push_block(&mut out, one(Run::new(s(cats, lang, "guide.lede").as_str(), Size::Body, Color::Faded)));
    let ghost g0 = blocks_view(out@);
    let p = ["guide.read.p1", "guide.read.p2", "guide.read.p3"];
    proof { lemma_ids3("guide.read.p1", "guide.read.p2", "guide.read.p3"); }
    push_section(&mut out, cats, lang, "guide.read.title", &p);
    let p = ["guide.plain.p1"];
    proof { lemma_ids1("guide.plain.p1"); }
    push_step(&mut out, cats, lang, "guide.plain.title", &p);
    let p = ["guide.map.p1", "guide.map.p2", "guide.map.p3", "guide.map.p4"];
    proof { lemma_ids4("guide.map.p1", "guide.map.p2", "guide.map.p3", "guide.map.p4"); }
    push_step(&mut out, cats, lang, "guide.map.title", &p);
    let p = ["guide.gospel.p1"];
    proof { lemma_ids1("guide.gospel.p1"); }
    push_section(&mut out, cats, lang, "guide.gospel.title", &p);
    let p = ["guide.shareThread.p1", "guide.shareThread.p2"];
    proof { lemma_ids2("guide.shareThread.p1", "guide.shareThread.p2"); }
    push_step(&mut out, cats, lang, "guide.shareThread.title", &p);
    let p = ["guide.church.p1", "guide.church.p2"];
    proof { lemma_ids2("guide.church.p1", "guide.church.p2"); }
    push_step(&mut out, cats, lang, "guide.church.title", &p);
    let ghost g1 = blocks_view(out@);
    let p = ["guide.teach.p1", "guide.teach.p2"];
    proof { lemma_ids2("guide.teach.p1", "guide.teach.p2"); }
    push_section(&mut out, cats, lang, "guide.teach.title", &p);
    let p = ["guide.preach.p1"];
    proof { lemma_ids1("guide.preach.p1"); }
    push_step(&mut out, cats, lang, "guide.preach.title", &p);
    let p = ["guide.study.p1", "guide.study.p2"];
    proof { lemma_ids2("guide.study.p1", "guide.study.p2"); }
    push_section(&mut out, cats, lang, "guide.study.title", &p);
    let p = ["guide.weaves.p1", "guide.weaves.p2", "guide.weaves.p3"];
    proof { lemma_ids3("guide.weaves.p1", "guide.weaves.p2", "guide.weaves.p3"); }
    push_step(&mut out, cats, lang, "guide.weaves.title", &p);
    let p = ["guide.tags.p1"];
    proof { lemma_ids1("guide.tags.p1"); }
    push_step(&mut out, cats, lang, "guide.tags.title", &p);
    let ghost g2 = blocks_view(out@);
    let p = ["guide.memorize.p1", "guide.memorize.p2"];
    proof { lemma_ids2("guide.memorize.p1", "guide.memorize.p2"); }
    push_section(&mut out, cats, lang, "guide.memorize.title", &p);
    let p = ["guide.yours.p1", "guide.yours.p2", "guide.yours.p3"];
    proof { lemma_ids3("guide.yours.p1", "guide.yours.p2", "guide.yours.p3"); }
    push_section(&mut out, cats, lang, "guide.yours.title", &p);
    push_block(&mut out, Block::Rule);
    push_block(&mut out, one(Run::new(s(cats, lang, "panel.shortcutsHint").as_str(), Size::Small, Color::Faded)));
    push_block(&mut out, Block::Rule);
    push_about(&mut out, cats, lang);
    assert(blocks_view(out@) =~= guide_card(cats@, lang));
    out
}

/// The list of the reader's threads.
pub fn threads_list<S: PanelSource>(src: &S, cats: &Catalogs, lang: Lang) -> (r: Vec<Block>)
    ensures
        blocks_view(r@) == threads_card(cats@, lang, threads_view(src.threads_of()@)),
{
    let ts = src.threads();
    threads_blocks(cats, lang, &ts)
}


// ── code study and word study ────────────────────────────────────────────────

/// A dictionary entry as plain values: lemma, transliteration, pronunciation,
/// derivation, definition, renderings line.
pub type StrongsModel = (
    Option<Seq<char>>,
    Option<Seq<char>>,
    Option<Seq<char>>,
    Option<Seq<char>>,
    Option<Seq<char>>,
    Option<Seq<char>>,
);

impl View for StrongsView {
    type V = StrongsModel;

    open spec fn view(&self) -> StrongsModel {
        (opt_text(self.lemma), opt_text(self.xlit), opt_text(self.pron), opt_text(self.deriv), opt_text(self.def), opt_text(self.kjv))
    }
}

/// A rendering and its count.
pub type RenderingModel = (Seq<char>, u32);

impl View for RenderingView {
    type V = RenderingModel;

    open spec fn view(&self) -> RenderingModel {
        (self.rendering@, self.total)
    }
}

/// A chip's gloss and lemma.
pub type ChipModel = (Option<Seq<char>>, Option<Seq<char>>);

impl View for ChipView {
    type V = ChipModel;

    open spec fn view(&self) -> ChipModel {
        (opt_text(self.gloss), opt_text(self.lemma))
    }
}

/// A same-root partner: code, witness sources, tiers, research-grade flag.
pub type PartnerModel = (Seq<char>, Seq<Seq<char>>, Seq<Seq<char>>, bool);

impl View for BridgePartnerView {
    type V = PartnerModel;

    open spec fn view(&self) -> PartnerModel {
        (self.code@, words_view(self.sources@), words_view(self.tiers@), self.research_grade)
    }
}

/// A leitwort finding: uses, clustered uses, significance exponent, label.
pub type LeitwortModel = (usize, usize, Seq<char>, Seq<char>);

/// The concept view: community, top books, OT and NT counts, leitwort.
pub type ConceptModel = (Seq<Seq<char>>, Seq<(Seq<char>, u32)>, u32, u32, Option<LeitwortModel>);

impl View for ConceptView {
    type V = ConceptModel;

    open spec fn view(&self) -> ConceptModel {
        (
            words_view(self.community@),
            self.top_books@.map_values(|b: (String, u32)| (b.0@, b.1)),
            self.ot,
            self.nt,
            match self.leitwort {
                Some(lw) => Some((lw.n, lw.win_count, lw.score@, lw.label@)),
                None => None,
            },
        )
    }
}

/// What the source answered about one code, for its study.
pub struct CodeStudyData {
    /// How often the code occurs.
    pub occurrences: u64,
    /// Its dictionary entry, when it has one.
    pub entry: Option<StrongsView>,
    /// Its renderings, most frequent first (read under the human gate).
    pub renderings: Vec<RenderingView>,
    /// For each rendering, whether it is the tapped word's.
    pub tapped: Vec<bool>,
    /// The other codes the tapped word translates, each with its gloss.
    pub others: Vec<(String, Option<String>)>,
    /// Its same-root partners (read under the human gate).
    pub partners: Vec<BridgePartnerView>,
    /// The chip of each partner shown.
    pub partner_chips: Vec<ChipView>,
    /// Its concept view (read under the machine gate).
    pub concept: Option<ConceptView>,
    /// The chip of each community member shown.
    pub community_chips: Vec<ChipView>,
}

/// [`CodeStudyData`] as plain values.
#[verifier::ext_equal]
pub struct CodeStudyModel {
    pub occurrences: u64,
    pub entry: Option<StrongsModel>,
    pub renderings: Seq<RenderingModel>,
    pub tapped: Seq<bool>,
    pub others: Seq<(Seq<char>, Option<Seq<char>>)>,
    pub partners: Seq<PartnerModel>,
    pub partner_chips: Seq<ChipModel>,
    pub concept: Option<ConceptModel>,
    pub community_chips: Seq<ChipModel>,
}

impl View for CodeStudyData {
    type V = CodeStudyModel;

    open spec fn view(&self) -> CodeStudyModel {
        CodeStudyModel {
            occurrences: self.occurrences,
            entry: match self.entry {
                Some(e) => Some(e@),
                None => None,
            },
            renderings: self.renderings@.map_values(|r: RenderingView| r@),
            tapped: self.tapped@,
            others: self.others@.map_values(|o: (String, Option<String>)| (o.0@, opt_text(o.1))),
            partners: self.partners@.map_values(|p: BridgePartnerView| p@),
            partner_chips: self.partner_chips@.map_values(|c: ChipView| c@),
            concept: match self.concept {
                Some(c) => Some(c@),
                None => None,
            },
            community_chips: self.community_chips@.map_values(|c: ChipView| c@),
        }
    }
}

/// A separator run before every item but the first.
pub open spec fn sep_run(i: int, text: Seq<char>, size: Size, color: Color) -> Seq<RunModel> {
    if i > 0 {
        seq![run(text, size, color)]
    } else {
        Seq::empty()
    }
}

/// The chip at `i`, or an empty one.
pub open spec fn chip_at(chips: Seq<ChipModel>, i: int) -> ChipModel {
    if 0 <= i < chips.len() {
        chips[i]
    } else {
        (None, None)
    }
}

/// A chip's label: its gloss, else its lemma, else the code.
pub open spec fn chip_label(code: Seq<char>, c: ChipModel) -> Seq<char> {
    match c.0 {
        Some(g) => g,
        None => match c.1 {
            Some(l) => l,
            None => code,
        },
    }
}

/// One chip: its label linking to the code's concordance, and the lemma
/// beside a gloss.
pub open spec fn chip_runs(code: Seq<char>, c: ChipModel) -> Seq<RunModel> {
    seq![linked(run(chip_label(code, c), Size::List, Color::Gold), "occ:"@ + code)] + if c.0 is Some && c.1 is Some {
        seq![run(" "@ + c.1->0, Size::Note, Color::Lemma)]
    } else {
        Seq::empty()
    }
}

/// The chips of the first `k` codes, separated by middots.
pub open spec fn chips_upto(codes: Seq<Seq<char>>, chips: Seq<ChipModel>, k: nat) -> Seq<RunModel>
    decreases k,
{
    if k == 0 {
        Seq::empty()
    } else {
        chips_upto(codes, chips, (k - 1) as nat) + sep_run(k - 1, "  ·  "@, Size::List, Color::Ink) + chip_runs(
            codes[k - 1],
            chip_at(chips, k - 1),
        )
    }
}

/// The first `k` items joined by `sep`.
pub open spec fn join_upto(xs: Seq<Seq<char>>, sep: Seq<char>, k: nat) -> Seq<char>
    decreases k,
{
    if k == 0 {
        Seq::empty()
    } else {
        join_upto(xs, sep, (k - 1) as nat) + (if k - 1 > 0 {
            sep
        } else {
            Seq::empty()
        }) + xs[k - 1]
    }
}

/// The tier marks: one glyph per tier held, never one winning tier, and a
/// flask for research grade.
pub open spec fn tier_marks(tiers: Seq<Seq<char>>, research: bool) -> Seq<RunModel> {
    (if tiers.contains("god"@) {
        seq![run(" ✝"@, Size::Mark, Color::TierGod)]
    } else {
        Seq::empty()
    }) + (if tiers.contains("human"@) {
        seq![run(" †"@, Size::Mark, Color::TierHuman)]
    } else {
        Seq::empty()
    }) + (if tiers.contains("machine"@) {
        seq![run(" ≈"@, Size::Mark, Color::TierMachine)]
    } else {
        Seq::empty()
    }) + (if research {
        seq![run(" ⚗"@, Size::Mark, Color::TierResearch)]
    } else {
        Seq::empty()
    })
}

/// The occurrences line that opens a code's study.
pub open spec fn code_head(cats: CatsModel, lang: Lang, code: Seq<char>, n: u64) -> Seq<BlockModel> {
    seq![
        BlockModel::Rule,
        para(seq![
            bolded(run(code, Size::Body, Color::Ink)),
            run("   "@, Size::Body, Color::Ink),
            linked(
                run(p_text(cats, lang, "panel.occurrences.one"@, "panel.occurrences.other"@, n as nat), Size::Body, Color::Gold),
                "occ:"@ + code,
            ),
        ]),
    ]
}

/// A one-run paragraph when `o` holds text.
pub open spec fn opt_line(o: Option<Seq<char>>, size: Size, color: Color, italic: bool) -> Seq<BlockModel> {
    match o {
        Some(t) => seq![para(seq![(t, size, color, false, italic, None)])],
        None => Seq::empty(),
    }
}

/// A definition, marked when it is machine-translated.
pub open spec fn def_part(cats: CatsModel, lang: Lang, ai: bool, d: Option<Seq<char>>) -> Seq<BlockModel> {
    match d {
        Some(d) => seq![para(seq![run(d, Size::Body, Color::Ink)] + if ai {
            seq![run("  "@, Size::Note, Color::Faded), italicized(run(s_text(cats, lang, "study.aiMark"@), Size::Note, Color::Faded))]
        } else {
            Seq::empty()
        })],
        None => Seq::empty(),
    }
}

/// The lines of a dictionary entry; `ai` marks a machine-translated
/// definition, `label` names the Bible its renderings come from.
pub open spec fn entry_lines(cats: CatsModel, lang: Lang, ai: bool, label: Seq<char>, e: StrongsModel) -> Seq<BlockModel> {
    opt_line(e.0, Size::Lemma, Color::Ink, false) + opt_line(e.1, Size::Small, Color::Ink, true) + opt_line(
        match e.2 {
            Some(p) => Some("/"@ + p + "/"@),
            None => None,
        },
        Size::Small,
        Color::Mono,
        false,
    ) + opt_line(e.3, Size::Small, Color::Faded, true) + def_part(cats, lang, ai, e.4) + opt_line(
        match e.5 {
            Some(k) => Some(label + ": "@ + k),
            None => None,
        },
        Size::Note,
        Color::Faded,
        false,
    )
}

/// The dictionary entry of a code, or a note that it has none.
#[verifier::opaque]
pub open spec fn entry_part(cats: CatsModel, lang: Lang, ai: bool, label: Seq<char>, e: Option<StrongsModel>) -> Seq<BlockModel> {
    match e {
        None => seq![para(seq![italicized(run(s_text(cats, lang, "panel.notInDictionary"@), Size::Body, Color::Faded))])],
        Some(e) => entry_lines(cats, lang, ai, label, e),
    }
}

/// Whether rendering `i` is the tapped word's.
pub open spec fn tap_at(tapped: Seq<bool>, i: int) -> bool {
    0 <= i < tapped.len() && tapped[i]
}

/// The first `k` renderings of `code`, each a link, the tapped one in bold.
pub open spec fn rends_upto(code: Seq<char>, rs: Seq<RenderingModel>, tapped: Seq<bool>, k: nat) -> Seq<RunModel>
    decreases k,
{
    if k == 0 {
        Seq::empty()
    } else {
        let r = rs[k - 1];
        rends_upto(code, rs, tapped, (k - 1) as nat) + sep_run(k - 1, "  ·  "@, Size::List, Color::Ink) + seq![
            (r.0, Size::List, Color::Gold, tap_at(tapped, k - 1), false, Some("rend:"@ + code + ":"@ + r.0)),
            run(" ×"@ + dec(r.1 as nat), Size::Fine, Color::Faded),
        ]
    }
}

/// Another code the tapped word translates, labelled with its gloss.
pub open spec fn other_label(o: (Seq<char>, Option<Seq<char>>)) -> Seq<char> {
    match o.1 {
        Some(g) => o.0 + " ("@ + g + ")"@,
        None => o.0,
    }
}

/// The first `k` other codes, each linking to its own study.
pub open spec fn others_upto(word: Seq<char>, os: Seq<(Seq<char>, Option<Seq<char>>)>, k: nat) -> Seq<RunModel>
    decreases k,
{
    if k == 0 {
        Seq::empty()
    } else {
        others_upto(word, os, (k - 1) as nat) + sep_run(k - 1, ", "@, Size::Fine, Color::Faded) + seq![
            linked(run(other_label(os[k - 1]), Size::Fine, Color::Gold), "code:"@ + os[k - 1].0 + ":"@ + word),
        ]
    }
}

/// The renderings lens and, below it, the reverse lens.
#[verifier::opaque]
pub open spec fn rends_part(
    code: Seq<char>,
    word: Seq<char>,
    rs: Seq<RenderingModel>,
    tapped: Seq<bool>,
    os: Seq<(Seq<char>, Option<Seq<char>>)>,
) -> Seq<BlockModel> {
    if rs.len() > 0 {
        seq![
            BlockModel::Section { title: "RENDERINGS"@, mark: Some(("†"@, Color::TierHuman)) },
            para(rends_upto(code, rs, tapped, rs.len())),
        ] + if word.len() > 0 && os.len() > 0 {
            seq![para(seq![run("“"@ + word + "” also translates "@, Size::Fine, Color::Faded)] + others_upto(word, os, os.len()))]
        } else {
            Seq::empty()
        }
    } else {
        Seq::empty()
    }
}

/// One same-root partner: its chip, its sources, its tier marks.
pub open spec fn partner_para(p: PartnerModel, c: ChipModel) -> BlockModel {
    para(chip_runs(p.0, c) + seq![run("   "@ + join_upto(p.1, " + "@, p.1.len()), Size::Fine, Color::Faded)] + tier_marks(p.2, p.3))
}

/// The first `k` partners.
pub open spec fn partners_upto(ps: Seq<PartnerModel>, chips: Seq<ChipModel>, k: nat) -> Seq<BlockModel>
    decreases k,
{
    if k == 0 {
        Seq::empty()
    } else {
        partners_upto(ps, chips, (k - 1) as nat).push(partner_para(ps[k - 1], chip_at(chips, k - 1)))
    }
}

/// At most `cap` of `n`.
pub open spec fn capped(n: nat, cap: nat) -> nat {
    if n > cap {
        cap
    } else {
        n
    }
}

/// The same-root partners, at most six.
#[verifier::opaque]
pub open spec fn partners_part(ps: Seq<PartnerModel>, chips: Seq<ChipModel>) -> Seq<BlockModel> {
    if ps.len() > 0 {
        seq![BlockModel::Section { title: "SAME ROOT ACROSS TESTAMENTS"@, mark: None }] + partners_upto(ps, chips, capped(ps.len(), 6))
    } else {
        Seq::empty()
    }
}

/// The first `k` books, each with its count, joined by middots.
pub open spec fn books_upto(bs: Seq<(Seq<char>, u32)>, k: nat) -> Seq<char>
    decreases k,
{
    if k == 0 {
        Seq::empty()
    } else {
        books_upto(bs, (k - 1) as nat) + (if k - 1 > 0 {
            " · "@
        } else {
            Seq::empty()
        }) + bs[k - 1].0 + " ×"@ + dec(bs[k - 1].1 as nat)
    }
}

/// A machine-tier section header.
pub open spec fn machine_section(title: Seq<char>) -> BlockModel {
    BlockModel::Section { title, mark: Some(("≈"@, Color::TierMachine)) }
}

/// The concept engine's findings.
#[verifier::opaque]
pub open spec fn concept_part(c: Option<ConceptModel>, chips: Seq<ChipModel>) -> Seq<BlockModel> {
    match c {
        None => Seq::empty(),
        Some(c) => (if c.0.len() > 0 {
            seq![machine_section("APPEARS ALONGSIDE"@), para(chips_upto(c.0, chips, capped(c.0.len(), 8)))]
        } else {
            Seq::empty()
        }) + (if c.1.len() > 0 {
            seq![
                machine_section("MOST USED IN"@),
                para(seq![
                    run(books_upto(c.1, c.1.len()), Size::Small, Color::Ink),
                    run("   (OT "@ + dec(c.2 as nat) + " · NT "@ + dec(c.3 as nat) + ")"@, Size::Caption, Color::Faded),
                ]),
            ]
        } else {
            Seq::empty()
        }) + match c.4 {
            Some(lw) => seq![
                machine_section("LEITWORT"@),
                para(seq![
                    run(dec(lw.1 as nat) + " of its "@ + dec(lw.0 as nat) + " uses cluster in "@ + lw.3 + " "@, Size::Small, Color::Ink),
                    run("(p ≈ 10^−"@ + lw.2 + ")"@, Size::Caption, Color::Faded),
                ]),
            ],
            None => Seq::empty(),
        },
    }
}

/// The study of one code: its occurrences and dictionary entry, then, for the
/// KJV text with a gate open, the renderings lens and same-root partners
/// (human gate) and the concept engine's findings (machine gate).
#[verifier::opaque]
pub open spec fn code_study_part(
    cats: CatsModel,
    lang: Lang,
    code: Seq<char>,
    word: Seq<char>,
    gates: Gates,
    kjv: bool,
    ai: bool,
    label: Seq<char>,
    d: CodeStudyModel,
) -> Seq<BlockModel> {
    code_head(cats, lang, code, d.occurrences) + entry_part(cats, lang, ai, label, d.entry) + if (gates.human || gates.machine)
        && kjv {
        (if gates.human {
            rends_part(code, word, d.renderings, d.tapped, d.others) + partners_part(d.partners, d.partner_chips)
        } else {
            Seq::empty()
        }) + if gates.machine {
            concept_part(d.concept, d.community_chips)
        } else {
            Seq::empty()
        }
    } else {
        Seq::empty()
    }
}

/// The machine-translation caveat, when the dictionary's definitions are
/// machine-translated; `bible` names the Bible its renderings come from.
pub open spec fn caveat_part(cats: CatsModel, lang: Lang, ai: bool, bible: Seq<char>) -> Seq<BlockModel> {
    if ai {
        seq![para(seq![
            italicized(run(t_spec(cats, lang, "study.lexCaveat"@, seq![("bible"@, bible)]), Size::Note, Color::Faded)),
            run("  "@, Size::Note, Color::Faded),
            linked(run(s_text(cats, lang, "study.lexCaveatLink"@), Size::Note, Color::Gold), "ext:https://github.com/glendonjklassen/plumbline/issues"@),
        ])]
    } else {
        Seq::empty()
    }
}

/// The provenance legend at the foot of a study card.
pub open spec fn legend_block() -> BlockModel {
    para(seq![
        run("where this comes from:  "@, Size::Mark, Color::Faded),
        run("✝"@, Size::Mark, Color::TierGod),
        run(" the text  ·  "@, Size::Mark, Color::Faded),
        run("†"@, Size::Mark, Color::TierHuman),
        run(" curated scholarship  ·  "@, Size::Mark, Color::Faded),
        run("≈"@, Size::Mark, Color::TierMachine),
        run(" machine-derived, weigh it  ·  "@, Size::Mark, Color::Faded),
        run("⚗"@, Size::Mark, Color::TierResearch),
        run(" research-grade"@, Size::Mark, Color::Faded),
    ])
}

/// The standalone study card of one code.
pub open spec fn code_card_spec(
    cats: CatsModel,
    lang: Lang,
    code: Seq<char>,
    word: Seq<char>,
    gates: Gates,
    kjv: bool,
    ai: bool,
    label: Seq<char>,
    d: CodeStudyModel,
) -> Seq<BlockModel> {
    code_study_part(cats, lang, code, word, gates, kjv, ai, label, d) + caveat_part(cats, lang, ai, label) + if (gates.human
        || gates.machine) && kjv {
        seq![legend_block()]
    } else {
        Seq::empty()
    }
}


/// The chips as plain values.
pub open spec fn chips_view(cs: Seq<ChipView>) -> Seq<ChipModel> {
    cs.map_values(|c: ChipView| c@)
}

fn chip_into(runs: &mut Vec<Run>, code: &str, c: &ChipView)
    ensures
        runs_view(final(runs)@) == runs_view(old(runs)@) + chip_runs(code@, c@),
{
    let label: String = match &c.gloss {
        Some(g) => g.clone(),
        None => match &c.lemma {
            Some(l) => l.clone(),
            None => string_from(code),
        },
    };
    assert(label@ == chip_label(code@, c@));
    push_run(runs, Run::new(label.as_str(), Size::List, Color::Gold).link(joined("occ:", code)));
    let ghost mid = runs_view(runs@);
    match (&c.gloss, &c.lemma) {
        (Some(_), Some(l)) => {
            push_run(runs, Run::new(joined(" ", l.as_str()).as_str(), Size::Note, Color::Lemma));
        },
        _ => {},
    }
    assert(runs_view(runs@) =~= runs_view(old(runs)@) + chip_runs(code@, c@));
}

fn chips_into(runs: &mut Vec<Run>, codes: &Vec<String>, chips: &Vec<ChipView>, k: usize)
    requires
        k <= codes@.len(),
    ensures
        runs_view(final(runs)@) == runs_view(old(runs)@) + chips_upto(words_view(codes@), chips_view(chips@), k as nat),
{
    let ghost cv = words_view(codes@);
    let ghost hv = chips_view(chips@);
    let mut i: usize = 0;
    assert(runs_view(runs@) =~= runs_view(old(runs)@) + chips_upto(cv, hv, 0));
    while i < k
        invariant
            i <= k <= codes@.len(),
            cv == words_view(codes@),
            hv == chips_view(chips@),
            runs_view(runs@) == runs_view(old(runs)@) + chips_upto(cv, hv, i as nat),
        decreases k - i,
    {
        let ghost before = runs_view(runs@);
        if i > 0 {
            push_run(runs, Run::new("  ·  ", Size::List, Color::Ink));
        }
        let empty = ChipView { code: String::new(), gloss: None, lemma: None };
        let c: &ChipView = if i < chips.len() {
            &chips[i]
        } else {
            &empty
        };
        assert(c@ == chip_at(hv, i as int));
        assert(cv[i as int] == codes@[i as int]@);
        chip_into(runs, codes[i].as_str(), c);
        assert(runs_view(runs@) =~= before + sep_run(i as int, "  ·  "@, Size::List, Color::Ink) + chip_runs(cv[i as int], chip_at(hv, i as int)));
        i = i + 1;
    }
}

fn join_into(s: &mut String, xs: &Vec<String>, sep: &str)
    ensures
        final(s)@ == old(s)@ + join_upto(words_view(xs@), sep@, xs@.len()),
{
    let ghost xv = words_view(xs@);
    let mut i: usize = 0;
    assert(s@ =~= old(s)@ + join_upto(xv, sep@, 0));
    while i < xs.len()
        invariant
            i <= xs@.len(),
            xv == words_view(xs@),
            s@ == old(s)@ + join_upto(xv, sep@, i as nat),
        decreases xs@.len() - i,
    {
        let ghost before = s@;
        if i > 0 {
            push_str(s, sep);
        }
        push_str(s, xs[i].as_str());
        assert(s@ =~= before + (if i > 0 { sep@ } else { Seq::empty() }) + xv[i as int]);
        i = i + 1;
    }
}

fn has_text(xs: &Vec<String>, w: &str) -> (r: bool)
    ensures
        r == words_view(xs@).contains(w@),
{
    let ghost xv = words_view(xs@);
    let mut i: usize = 0;
    while i < xs.len()
        invariant
            i <= xs@.len(),
            xv == words_view(xs@),
            forall|j: int| 0 <= j < i ==> xv[j] != w@,
        decreases xs@.len() - i,
    {
        if str_eq(xs[i].as_str(), w) {
            assert(xv[i as int] == w@);
            return true;
        }
        i = i + 1;
    }
    false
}

fn tier_marks_into(runs: &mut Vec<Run>, tiers: &Vec<String>, research: bool)
    ensures
        runs_view(final(runs)@) == runs_view(old(runs)@) + tier_marks(words_view(tiers@), research),
{
    let ghost tv = words_view(tiers@);
    let ghost a = runs_view(runs@);
    if has_text(tiers, "god") {
        push_run(runs, Run::new(" ✝", Size::Mark, Color::TierGod));
    }
    let ghost b = runs_view(runs@);
    assert(b =~= a + (if tv.contains("god"@) { seq![run(" ✝"@, Size::Mark, Color::TierGod)] } else { Seq::empty() }));
    if has_text(tiers, "human") {
        push_run(runs, Run::new(" †", Size::Mark, Color::TierHuman));
    }
    let ghost c = runs_view(runs@);
    assert(c =~= b + (if tv.contains("human"@) { seq![run(" †"@, Size::Mark, Color::TierHuman)] } else { Seq::empty() }));
    if has_text(tiers, "machine") {
        push_run(runs, Run::new(" ≈", Size::Mark, Color::TierMachine));
    }
    let ghost d = runs_view(runs@);
    assert(d =~= c + (if tv.contains("machine"@) { seq![run(" ≈"@, Size::Mark, Color::TierMachine)] } else { Seq::empty() }));
    if research {
        push_run(runs, Run::new(" ⚗", Size::Mark, Color::TierResearch));
    }
    assert(runs_view(runs@) =~= a + tier_marks(tv, research));
}

fn opt_line_into(out: &mut Vec<Block>, o: &Option<String>, size: Size, color: Color, italic: bool)
    ensures
        blocks_view(final(out)@) == blocks_view(old(out)@) + opt_line(opt_text(*o), size, color, italic),
{
    match o {
        Some(t) => {
            let r = Run::new(t.as_str(), size, color);
            let r = if italic { r.italic() } else { r };
            push_block(out, one(r));
        },
        None => {},
    }
    assert(blocks_view(out@) =~= blocks_view(old(out)@) + opt_line(opt_text(*o), size, color, italic));
}

fn def_into(out: &mut Vec<Block>, cats: &Catalogs, lang: Lang, ai: bool, def: &Option<String>)
    ensures
        blocks_view(final(out)@) == blocks_view(old(out)@) + def_part(cats@, lang, ai, opt_text(*def)),
{
    match def {
        Some(d) => {
            let mut runs: Vec<Run> = Vec::new();
            push_run(&mut runs, Run::new(d.as_str(), Size::Body, Color::Ink));
            let ghost r1 = runs_view(runs@);
            if ai {
                push_run(&mut runs, Run::new("  ", Size::Note, Color::Faded));
                push_run(&mut runs, Run::new(s(cats, lang, "study.aiMark").as_str(), Size::Note, Color::Faded).italic());
            }
            assert(runs_view(runs@) =~= seq![run(d@, Size::Body, Color::Ink)] + if ai {
                seq![run("  "@, Size::Note, Color::Faded), italicized(run(s_text(cats@, lang, "study.aiMark"@), Size::Note, Color::Faded))]
            } else {
                Seq::empty()
            });
            push_block(out, para_of(runs));
        },
        None => {},
    }
    assert(blocks_view(out@) =~= blocks_view(old(out)@) + def_part(cats@, lang, ai, opt_text(*def)));
}

fn pron_text(p: &Option<String>) -> (r: Option<String>)
    ensures
        opt_text(r) == match opt_text(*p) {
            Some(t) => Some("/"@ + t + "/"@),
            None => None,
        },
{
    match p {
        Some(t) => {
            let mut u = joined("/", t.as_str());
            push_str(&mut u, "/");
            Some(u)
        },
        None => None,
    }
}

fn labelled_text(label: &str, k: &Option<String>) -> (r: Option<String>)
    ensures
        opt_text(r) == match opt_text(*k) {
            Some(t) => Some(label@ + ": "@ + t),
            None => None,
        },
{
    match k {
        Some(t) => {
            let mut u = joined(label, ": ");
            push_str(&mut u, t.as_str());
            Some(u)
        },
        None => None,
    }
}

#[verifier::rlimit(40)]
fn entry_lines_into(out: &mut Vec<Block>, cats: &Catalogs, lang: Lang, ai: bool, label: &str, x: &StrongsView)
    ensures
        blocks_view(final(out)@) == blocks_view(old(out)@) + entry_lines(cats@, lang, ai, label@, x@),
{
    let ghost v = x@;
    let ghost o0 = blocks_view(out@);
    opt_line_into(out, &x.lemma, Size::Lemma, Color::Ink, false);
    opt_line_into(out, &x.xlit, Size::Small, Color::Ink, true);
    let pron = pron_text(&x.pron);
    opt_line_into(out, &pron, Size::Small, Color::Mono, false);
    opt_line_into(out, &x.deriv, Size::Small, Color::Faded, true);
    def_into(out, cats, lang, ai, &x.def);
    let kl = labelled_text(label, &x.kjv);
    opt_line_into(out, &kl, Size::Note, Color::Faded, false);
    assert(blocks_view(out@) =~= o0 + entry_lines(cats@, lang, ai, label@, v));
}

fn entry_into(out: &mut Vec<Block>, cats: &Catalogs, lang: Lang, ai: bool, label: &str, e: &Option<StrongsView>)
    ensures
        blocks_view(final(out)@) == blocks_view(old(out)@) + entry_part(
            cats@,
            lang,
            ai,
            label@,
            match *e {
                Some(x) => Some(x@),
                None => None,
            },
        ),
{
    reveal(entry_part);
    match e {
        None => {
            push_block(out, one(Run::new(s(cats, lang, "panel.notInDictionary").as_str(), Size::Body, Color::Faded).italic()));
        },
        Some(x) => {
            entry_lines_into(out, cats, lang, ai, label, x);
        },
    }
}

fn rends_into(runs: &mut Vec<Run>, code: &str, rs: &Vec<RenderingView>, tapped: &Vec<bool>)
    ensures
        runs_view(final(runs)@) == runs_view(old(runs)@) + rends_upto(
            code@,
            rs@.map_values(|r: RenderingView| r@),
            tapped@,
            rs@.len(),
        ),
{
    let ghost rv = rs@.map_values(|r: RenderingView| r@);
    let mut i: usize = 0;
    assert(runs_view(runs@) =~= runs_view(old(runs)@) + rends_upto(code@, rv, tapped@, 0));
    while i < rs.len()
        invariant
            i <= rs@.len(),
            rv == rs@.map_values(|r: RenderingView| r@),
            runs_view(runs@) == runs_view(old(runs)@) + rends_upto(code@, rv, tapped@, i as nat),
        decreases rs@.len() - i,
    {
        let ghost before = runs_view(runs@);
        if i > 0 {
            push_run(runs, Run::new("  ·  ", Size::List, Color::Ink));
        }
        let r = &rs[i];
        let tap = i < tapped.len() && tapped[i];
        let mut uri = joined("rend:", code);
        push_str(&mut uri, ":");
        push_str(&mut uri, r.rendering.as_str());
        let mut link = Run::new(r.rendering.as_str(), Size::List, Color::Gold).link(uri);
        link.bold = tap;
        push_run(runs, link);
        let mut cnt = string_from(" ×");
        push_dec(&mut cnt, r.total as u64);
        push_run(runs, Run::new(cnt.as_str(), Size::Fine, Color::Faded));
        assert(rv[i as int] == r@);
        assert(runs_view(runs@) =~= before + sep_run(i as int, "  ·  "@, Size::List, Color::Ink) + seq![
            (rv[i as int].0, Size::List, Color::Gold, tap_at(tapped@, i as int), false, Some("rend:"@ + code@ + ":"@ + rv[i as int].0)),
            run(" ×"@ + dec(rv[i as int].1 as nat), Size::Fine, Color::Faded),
        ]);
        i = i + 1;
    }
}

/// The other codes as plain values.
pub open spec fn others_view(os: Seq<(String, Option<String>)>) -> Seq<(Seq<char>, Option<Seq<char>>)> {
    os.map_values(|o: (String, Option<String>)| (o.0@, opt_text(o.1)))
}

fn others_into(runs: &mut Vec<Run>, word: &str, os: &Vec<(String, Option<String>)>)
    ensures
        runs_view(final(runs)@) == runs_view(old(runs)@) + others_upto(word@, others_view(os@), os@.len()),
{
    let ghost ov = others_view(os@);
    let mut i: usize = 0;
    assert(runs_view(runs@) =~= runs_view(old(runs)@) + others_upto(word@, ov, 0));
    while i < os.len()
        invariant
            i <= os@.len(),
            ov == others_view(os@),
            runs_view(runs@) == runs_view(old(runs)@) + others_upto(word@, ov, i as nat),
        decreases os@.len() - i,
    {
        let ghost before = runs_view(runs@);
        if i > 0 {
            push_run(runs, Run::new(", ", Size::Fine, Color::Faded));
        }
        let o = &os[i];
        let mut label = string_from(o.0.as_str());
        match &o.1 {
            Some(g) => {
                push_str(&mut label, " (");
                push_str(&mut label, g.as_str());
                push_str(&mut label, ")");
            },
            None => {},
        }
        assert(ov[i as int] == (o.0@, opt_text(o.1)));
        assert(label@ == other_label(ov[i as int]));
        let mut uri = joined("code:", o.0.as_str());
        push_str(&mut uri, ":");
        push_str(&mut uri, word);
        push_run(runs, Run::new(label.as_str(), Size::Fine, Color::Gold).link(uri));
        assert(runs_view(runs@) =~= before + sep_run(i as int, ", "@, Size::Fine, Color::Faded) + seq![
            linked(run(other_label(ov[i as int]), Size::Fine, Color::Gold), "code:"@ + ov[i as int].0 + ":"@ + word@),
        ]);
        i = i + 1;
    }
}


/// The partners as plain values.
pub open spec fn partners_view(ps: Seq<BridgePartnerView>) -> Seq<PartnerModel> {
    ps.map_values(|p: BridgePartnerView| p@)
}

fn partner_block(p: &BridgePartnerView, c: &ChipView) -> (b: Block)
    ensures
        b@ == partner_para(p@, c@),
{
    let mut runs: Vec<Run> = Vec::new();
    chip_into(&mut runs, p.code.as_str(), c);
    let ghost a = runs_view(runs@);
    let mut src = string_from("   ");
    join_into(&mut src, &p.sources, " + ");
    push_run(&mut runs, Run::new(src.as_str(), Size::Fine, Color::Faded));
    tier_marks_into(&mut runs, &p.tiers, p.research_grade);
    assert(runs_view(runs@) =~= chip_runs(p.code@, c@) + seq![run("   "@ + join_upto(p@.1, " + "@, p@.1.len()), Size::Fine, Color::Faded)] + tier_marks(p@.2, p@.3));
    para_of(runs)
}

fn partners_into(out: &mut Vec<Block>, ps: &Vec<BridgePartnerView>, chips: &Vec<ChipView>)
    ensures
        blocks_view(final(out)@) == blocks_view(old(out)@) + partners_part(partners_view(ps@), chips_view(chips@)),
{
    reveal(partners_part);
    let ghost pv = partners_view(ps@);
    let ghost hv = chips_view(chips@);
    if ps.len() == 0 {
        assert(blocks_view(out@) =~= blocks_view(old(out)@) + partners_part(pv, hv));
        return;
    }
    let ghost base = blocks_view(out@);
    push_block(out, Block::Section { title: string_from("SAME ROOT ACROSS TESTAMENTS"), mark: None });
    let ghost start = blocks_view(out@);
    let k: usize = if ps.len() > 6 { 6 } else { ps.len() };
    let mut i: usize = 0;
    assert(blocks_view(out@) =~= start + partners_upto(pv, hv, 0));
    while i < k
        invariant
            i <= k <= ps@.len(),
            pv == partners_view(ps@),
            hv == chips_view(chips@),
            blocks_view(out@) == start + partners_upto(pv, hv, i as nat),
        decreases k - i,
    {
        let empty = ChipView { code: String::new(), gloss: None, lemma: None };
        let c: &ChipView = if i < chips.len() {
            &chips[i]
        } else {
            &empty
        };
        assert(c@ == chip_at(hv, i as int));
        assert(pv[i as int] == ps@[i as int]@);
        push_block(out, partner_block(&ps[i], c));
        i = i + 1;
    }
    assert(blocks_view(out@) =~= base + partners_part(pv, hv));
}

fn books_text(bs: &Vec<(String, u32)>) -> (r: String)
    ensures
        r@ == books_upto(bs@.map_values(|b: (String, u32)| (b.0@, b.1)), bs@.len()),
{
    let ghost bv = bs@.map_values(|b: (String, u32)| (b.0@, b.1));
    let mut s = String::new();
    let mut i: usize = 0;
    assert(s@ =~= books_upto(bv, 0));
    while i < bs.len()
        invariant
            i <= bs@.len(),
            bv == bs@.map_values(|b: (String, u32)| (b.0@, b.1)),
            s@ == books_upto(bv, i as nat),
        decreases bs@.len() - i,
    {
        let ghost before = s@;
        if i > 0 {
            push_str(&mut s, " · ");
        }
        push_str(&mut s, bs[i].0.as_str());
        push_str(&mut s, " ×");
        push_dec(&mut s, bs[i].1 as u64);
        assert(bv[i as int] == (bs@[i as int].0@, bs@[i as int].1));
        assert(s@ =~= before + (if i > 0 { " · "@ } else { Seq::empty() }) + bv[i as int].0 + " ×"@ + dec(bv[i as int].1 as nat));
        i = i + 1;
    }
    s
}

fn machine_header(title: &str) -> (b: Block)
    ensures
        b@ == machine_section(title@),
{
    Block::Section { title: string_from(title), mark: Some((string_from("≈"), Color::TierMachine)) }
}

#[verifier::rlimit(40)]
fn concept_into(out: &mut Vec<Block>, c: &Option<ConceptView>, chips: &Vec<ChipView>)
    ensures
        blocks_view(final(out)@) == blocks_view(old(out)@) + concept_part(
            match *c {
                Some(x) => Some(x@),
                None => None,
            },
            chips_view(chips@),
        ),
{
    reveal(concept_part);
    match c {
        None => {
            assert(blocks_view(out@) =~= blocks_view(old(out)@));
        },
        Some(x) => {
            let ghost v = x@;
            let ghost o0 = blocks_view(out@);
            if x.community.len() > 0 {
                push_block(out, machine_header("APPEARS ALONGSIDE"));
                let k: usize = if x.community.len() > 8 { 8 } else { x.community.len() };
                let mut runs: Vec<Run> = Vec::new();
                chips_into(&mut runs, &x.community, chips, k);
                assert(runs_view(runs@) =~= chips_upto(v.0, chips_view(chips@), capped(v.0.len(), 8)));
                push_block(out, para_of(runs));
            }
            let ghost o1 = blocks_view(out@);
            assert(o1 =~= o0 + if v.0.len() > 0 {
                seq![machine_section("APPEARS ALONGSIDE"@), para(chips_upto(v.0, chips_view(chips@), capped(v.0.len(), 8)))]
            } else {
                Seq::empty()
            });
            if x.top_books.len() > 0 {
                push_block(out, machine_header("MOST USED IN"));
                let joined_books = books_text(&x.top_books);
                let mut split = string_from("   (OT ");
                push_dec(&mut split, x.ot as u64);
                push_str(&mut split, " · NT ");
                push_dec(&mut split, x.nt as u64);
                push_str(&mut split, ")");
                push_block(out, two(
                    Run::new(joined_books.as_str(), Size::Small, Color::Ink),
                    Run::new(split.as_str(), Size::Caption, Color::Faded),
                ));
            }
            let ghost o2 = blocks_view(out@);
            match &x.leitwort {
                Some(lw) => {
                    push_block(out, machine_header("LEITWORT"));
                    let mut a = String::new();
                    push_dec(&mut a, lw.win_count as u64);
                    push_str(&mut a, " of its ");
                    push_dec(&mut a, lw.n as u64);
                    push_str(&mut a, " uses cluster in ");
                    push_str(&mut a, lw.label.as_str());
                    push_str(&mut a, " ");
                    let mut p = string_from("(p ≈ 10^−");
                    push_str(&mut p, lw.score.as_str());
                    push_str(&mut p, ")");
                    push_block(out, two(
                        Run::new(a.as_str(), Size::Small, Color::Ink),
                        Run::new(p.as_str(), Size::Caption, Color::Faded),
                    ));
                },
                None => {},
            }
            assert(blocks_view(out@) =~= blocks_view(old(out)@) + concept_part(Some(v), chips_view(chips@)));
        },
    }
}

fn code_head_into(out: &mut Vec<Block>, cats: &Catalogs, lang: Lang, code: &str, n: u64)
    ensures
        blocks_view(final(out)@) == blocks_view(old(out)@) + code_head(cats@, lang, code@, n),
{
    let mut runs: Vec<Run> = Vec::new();
    push_run(&mut runs, Run::new(code, Size::Body, Color::Ink).bold());
    push_run(&mut runs, Run::new("   ", Size::Body, Color::Ink));
    push_run(
        &mut runs,
        Run::new(sp(cats, lang, "panel.occurrences.one", "panel.occurrences.other", n).as_str(), Size::Body, Color::Gold).link(
            joined("occ:", code),
        ),
    );
    assert(runs_view(runs@) =~= seq![
        bolded(run(code@, Size::Body, Color::Ink)),
        run("   "@, Size::Body, Color::Ink),
        linked(
            run(p_text(cats@, lang, "panel.occurrences.one"@, "panel.occurrences.other"@, n as nat), Size::Body, Color::Gold),
            "occ:"@ + code@,
        ),
    ]);
    push_block(out, Block::Rule);
    push_block(out, para_of(runs));
    assert(blocks_view(out@) =~= blocks_view(old(out)@) + code_head(cats@, lang, code@, n));
}

fn rends_part_into(out: &mut Vec<Block>, code: &str, word: &str, d: &CodeStudyData)
    ensures
        blocks_view(final(out)@) == blocks_view(old(out)@) + rends_part(code@, word@, d@.renderings, d@.tapped, d@.others),
{
    reveal(rends_part);
    if d.renderings.len() == 0 {
        assert(blocks_view(out@) =~= blocks_view(old(out)@) + rends_part(code@, word@, d@.renderings, d@.tapped, d@.others));
        return;
    }
    push_block(out, Block::Section { title: string_from("RENDERINGS"), mark: Some((string_from("†"), Color::TierHuman)) });
    let mut runs: Vec<Run> = Vec::new();
    rends_into(&mut runs, code, &d.renderings, &d.tapped);
    assert(runs_view(runs@) =~= rends_upto(code@, d@.renderings, d@.tapped, d@.renderings.len()));
    push_block(out, para_of(runs));
    let ghost mid = blocks_view(out@);
    if !crate::text::is_empty_str(word) && d.others.len() > 0 {
        let mut lead = string_from("“");
        push_str(&mut lead, word);
        push_str(&mut lead, "” also translates ");
        let mut runs2: Vec<Run> = Vec::new();
        push_run(&mut runs2, Run::new(lead.as_str(), Size::Fine, Color::Faded));
        others_into(&mut runs2, word, &d.others);
        assert(runs_view(runs2@) =~= seq![run("“"@ + word@ + "” also translates "@, Size::Fine, Color::Faded)] + others_upto(word@, d@.others, d@.others.len()));
        push_block(out, para_of(runs2));
    }
    assert(blocks_view(out@) =~= blocks_view(old(out)@) + rends_part(code@, word@, d@.renderings, d@.tapped, d@.others));
}


fn code_study_into(
    out: &mut Vec<Block>,
    cats: &Catalogs,
    lang: Lang,
    code: &str,
    word: &str,
    gates: Gates,
    kjv: bool,
    ai: bool,
    label: &str,
    d: &CodeStudyData,
)
    ensures
        blocks_view(final(out)@) == blocks_view(old(out)@) + code_study_part(cats@, lang, code@, word@, gates, kjv, ai, label@, d@),
{
    reveal(code_study_part);
    let ghost o0 = blocks_view(out@);
    code_head_into(out, cats, lang, code, d.occurrences);
    entry_into(out, cats, lang, ai, label, &d.entry);
    let ghost o2 = blocks_view(out@);
    assert(o2 =~= o0 + code_head(cats@, lang, code@, d@.occurrences) + entry_part(cats@, lang, ai, label@, d@.entry));
    if (gates.human || gates.machine) && kjv {
        if gates.human {
            rends_part_into(out, code, word, d);
            partners_into(out, &d.partners, &d.partner_chips);
        }
        let ghost o3 = blocks_view(out@);
        if gates.machine {
            concept_into(out, &d.concept, &d.community_chips);
        }
        assert(blocks_view(out@) =~= o0 + code_study_part(cats@, lang, code@, word@, gates, kjv, ai, label@, d@));
    } else {
        assert(blocks_view(out@) =~= o0 + code_study_part(cats@, lang, code@, word@, gates, kjv, ai, label@, d@));
    }
}

fn caveat_into(out: &mut Vec<Block>, cats: &Catalogs, lang: Lang, ai: bool, bible: &str)
    ensures
        blocks_view(final(out)@) == blocks_view(old(out)@) + caveat_part(cats@, lang, ai, bible@),
{
    if ai {
        let mut args: Vec<(&str, &str)> = Vec::new();
        args.push(("bible", bible));
        assert(args_view(args@) =~= seq![("bible"@, bible@)]);
        let text = t(cats, lang, "study.lexCaveat", args.as_slice());
        let mut runs: Vec<Run> = Vec::new();
        push_run(&mut runs, Run::new(text.as_str(), Size::Note, Color::Faded).italic());
        push_run(&mut runs, Run::new("  ", Size::Note, Color::Faded));
        push_run(
            &mut runs,
            Run::new(s(cats, lang, "study.lexCaveatLink").as_str(), Size::Note, Color::Gold).link(
                string_from("ext:https://github.com/glendonjklassen/plumbline/issues"),
            ),
        );
        assert(runs_view(runs@) =~= seq![
            italicized(run(t_spec(cats@, lang, "study.lexCaveat"@, seq![("bible"@, bible@)]), Size::Note, Color::Faded)),
            run("  "@, Size::Note, Color::Faded),
            linked(run(s_text(cats@, lang, "study.lexCaveatLink"@), Size::Note, Color::Gold), "ext:https://github.com/glendonjklassen/plumbline/issues"@),
        ]);
        push_block(out, para_of(runs));
    }
    assert(blocks_view(out@) =~= blocks_view(old(out)@) + caveat_part(cats@, lang, ai, bible@));
}

fn legend() -> (b: Block)
    ensures
        b@ == legend_block(),
{
    let mut runs: Vec<Run> = Vec::new();
    push_run(&mut runs, Run::new("where this comes from:  ", Size::Mark, Color::Faded));
    push_run(&mut runs, Run::new("✝", Size::Mark, Color::TierGod));
    push_run(&mut runs, Run::new(" the text  ·  ", Size::Mark, Color::Faded));
    push_run(&mut runs, Run::new("†", Size::Mark, Color::TierHuman));
    push_run(&mut runs, Run::new(" curated scholarship  ·  ", Size::Mark, Color::Faded));
    push_run(&mut runs, Run::new("≈", Size::Mark, Color::TierMachine));
    push_run(&mut runs, Run::new(" machine-derived, weigh it  ·  ", Size::Mark, Color::Faded));
    push_run(&mut runs, Run::new("⚗", Size::Mark, Color::TierResearch));
    push_run(&mut runs, Run::new(" research-grade", Size::Mark, Color::Faded));
    assert(runs_view(runs@) =~= seq![
        run("where this comes from:  "@, Size::Mark, Color::Faded),
        run("✝"@, Size::Mark, Color::TierGod),
        run(" the text  ·  "@, Size::Mark, Color::Faded),
        run("†"@, Size::Mark, Color::TierHuman),
        run(" curated scholarship  ·  "@, Size::Mark, Color::Faded),
        run("≈"@, Size::Mark, Color::TierMachine),
        run(" machine-derived, weigh it  ·  "@, Size::Mark, Color::Faded),
        run("⚗"@, Size::Mark, Color::TierResearch),
        run(" research-grade"@, Size::Mark, Color::Faded),
    ]);
    para_of(runs)
}

/// The standalone study card of `code`, from what the source answered about
/// it. `word` is the surface that led here; `kjv` says whether the open text
/// is the KJV, which the analytic tiers are tagged against; `ai` whether the
/// dictionary's definitions are machine-translated; `label` names the Bible
/// the dictionary's renderings come from.
pub fn code_study_blocks(
    cats: &Catalogs,
    lang: Lang,
    code: &str,
    word: &str,
    gates: Gates,
    kjv: bool,
    ai: bool,
    label: &str,
    d: &CodeStudyData,
) -> (r: Vec<Block>)
    ensures
        blocks_view(r@) == code_card_spec(cats@, lang, code@, word@, gates, kjv, ai, label@, d@),
{
    let mut out: Vec<Block> = Vec::new();
    code_study_into(&mut out, cats, lang, code, word, gates, kjv, ai, label, d);
    caveat_into(&mut out, cats, lang, ai, label);
    let ghost o = blocks_view(out@);
    if (gates.human || gates.machine) && kjv {
        push_block(&mut out, legend());
    }
    assert(blocks_view(out@) =~= code_card_spec(cats@, lang, code@, word@, gates, kjv, ai, label@, d@));
    out
}

/// A study with nothing in it: what a code's study shows when the source gave
/// no answers for it.
pub open spec fn no_study() -> CodeStudyModel {
    CodeStudyModel {
        occurrences: 0,
        entry: None,
        renderings: Seq::empty(),
        tapped: Seq::empty(),
        others: Seq::empty(),
        partners: Seq::empty(),
        partner_chips: Seq::empty(),
        concept: None,
        community_chips: Seq::empty(),
    }
}

/// The answers for code `i`, or none.
pub open spec fn study_at(ds: Seq<CodeStudyModel>, i: int) -> CodeStudyModel {
    if 0 <= i < ds.len() {
        ds[i]
    } else {
        no_study()
    }
}

/// The studies of the first `k` codes of a tapped word.
pub open spec fn studies_upto(
    cats: CatsModel,
    lang: Lang,
    codes: Seq<Seq<char>>,
    word: Seq<char>,
    gates: Gates,
    kjv: bool,
    ai: bool,
    label: Seq<char>,
    ds: Seq<CodeStudyModel>,
    k: nat,
) -> Seq<BlockModel>
    decreases k,
{
    if k == 0 {
        Seq::empty()
    } else {
        studies_upto(cats, lang, codes, word, gates, kjv, ai, label, ds, (k - 1) as nat) + code_study_part(
            cats,
            lang,
            codes[k - 1],
            word,
            gates,
            kjv,
            ai,
            label,
            study_at(ds, k - 1),
        )
    }
}

/// Whether the reader's note holds any text.
pub open spec fn has_note(note: Option<Seq<char>>) -> bool {
    note matches Some(t) && t.len() > 0
}

/// The reader's own note on a verse, with its edit link; never gated.
pub open spec fn note_part(cats: CatsModel, lang: Lang, verse: Seq<char>, note: Option<Seq<char>>) -> Seq<BlockModel> {
    seq![BlockModel::Para {
        runs: seq![
            bolded(run(s_text(cats, lang, "panel.yourNote"@), Size::Label, Color::Ink)),
            run("   "@, Size::Label, Color::Ink),
            linked(
                run(s_text(cats, lang, if has_note(note) { "panel.editNote"@ } else { "panel.addNote"@ }), Size::Caption, Color::Gold),
                "editnote:"@ + verse,
            ),
        ],
        indent: false,
        top_gap: true,
    }] + if has_note(note) {
        seq![para(seq![run(note->0, Size::Note, Color::Ink)])]
    } else {
        Seq::empty()
    }
}

/// What the source answered about a tapped word, beyond its codes' studies.
pub struct WordStudyData {
    /// The verse's display form.
    pub display: String,
    /// What a printed Bible in the reader's language calls the verse, where it
    /// differs.
    pub printed: Option<String>,
    /// The tapped word.
    pub word: String,
    /// The morphology gloss of the token.
    pub morph: Option<String>,
    /// The reader's own note on the verse.
    pub note: Option<String>,
    /// One study per code, in the order of the codes.
    pub studies: Vec<CodeStudyData>,
    /// The verse's weave partners.
    pub xrefs: Vec<XrefView>,
    /// Its study cross-references (read under the human gate).
    pub study: Vec<StudyXrefView>,
    /// The reader's tags on it.
    pub tags: Vec<(usize, String)>,
    /// Its margin notes.
    pub notes: Vec<String>,
}

/// [`WordStudyData`] as plain values.
pub struct WordStudyModel {
    pub display: Seq<char>,
    pub printed: Option<Seq<char>>,
    pub word: Seq<char>,
    pub morph: Option<Seq<char>>,
    pub note: Option<Seq<char>>,
    pub studies: Seq<CodeStudyModel>,
    pub xrefs: Seq<XrefModel>,
    pub study: Seq<StudyModel>,
    pub tags: Seq<(usize, Seq<char>)>,
    pub notes: Seq<Seq<char>>,
}

impl View for WordStudyData {
    type V = WordStudyModel;

    open spec fn view(&self) -> WordStudyModel {
        WordStudyModel {
            display: self.display@,
            printed: opt_text(self.printed),
            word: self.word@,
            morph: opt_text(self.morph),
            note: opt_text(self.note),
            studies: studies_view(self.studies@),
            xrefs: xrefs_view(self.xrefs@),
            study: study_view(self.study@),
            tags: verse_tags_view(self.tags@),
            notes: words_view(self.notes@),
        }
    }
}

/// The studies as plain values.
pub open spec fn studies_view(ds: Seq<CodeStudyData>) -> Seq<CodeStudyModel> {
    ds.map_values(|d: CodeStudyData| d@)
}

/// The head of a word study: the verse (with its printed number where a
/// printed Bible differs), the word, the morphology gloss (human gate, KJV
/// text) and the reader's note.
#[verifier::opaque]
pub open spec fn word_head_part(cats: CatsModel, lang: Lang, verse: Seq<char>, gates: Gates, kjv: bool, w: WordStudyModel) -> Seq<
    BlockModel,
> {
    seq![para(seq![bolded(run(w.display, Size::Body, Color::Ink))] + match w.printed {
        Some(p) => seq![run("  "@, Size::Body, Color::Ink), run(p, Size::Fine, Color::Faded)],
        None => Seq::empty(),
    })] + (if w.word.len() > 0 {
        seq![para(seq![run(w.word, Size::Word, Color::Ink)])]
    } else {
        Seq::empty()
    }) + (match w.morph {
        Some(g) => if kjv && gates.human {
            seq![para(seq![italicized(run(g, Size::Note, Color::Morph))])]
        } else {
            Seq::empty()
        },
        None => Seq::empty(),
    }) + note_part(cats, lang, verse, w.note)
}

/// The studies of a word's codes with the dictionary caveat, or a note that
/// the word has no codes.
#[verifier::opaque]
pub open spec fn codes_part(
    cats: CatsModel,
    lang: Lang,
    codes: Seq<Seq<char>>,
    word: Seq<char>,
    gates: Gates,
    kjv: bool,
    ai: bool,
    label: Seq<char>,
    ds: Seq<CodeStudyModel>,
) -> Seq<BlockModel> {
    if codes.len() == 0 {
        seq![para(seq![italicized(run(s_text(cats, lang, "study.noStrongs"@), Size::Body, Color::Faded))])]
    } else {
        studies_upto(cats, lang, codes, word, gates, kjv, ai, label, ds, codes.len()) + caveat_part(cats, lang, ai, label)
    }
}

/// The study card of a tapped word: its head, the study of each code, the
/// verse's extras, and the provenance legend.
pub open spec fn word_card_spec(
    cats: CatsModel,
    lang: Lang,
    verse: Seq<char>,
    codes: Seq<Seq<char>>,
    gates: Gates,
    kjv: bool,
    ai: bool,
    label: Seq<char>,
    w: WordStudyModel,
) -> Seq<BlockModel> {
    word_head_part(cats, lang, verse, gates, kjv, w) + codes_part(cats, lang, codes, w.word, gates, kjv, ai, label, w.studies)
        + verse_extras_card(cats, lang, verse, gates, w.xrefs, w.study, w.tags, w.notes) + if kjv && (gates.human || gates.machine) && codes.len() > 0 {
        seq![legend_block()]
    } else {
        Seq::empty()
    }
}

fn note_into(out: &mut Vec<Block>, cats: &Catalogs, lang: Lang, verse: &str, note: &Option<String>)
    ensures
        blocks_view(final(out)@) == blocks_view(old(out)@) + note_part(cats@, lang, verse@, opt_text(*note)),
{
    let has = match note {
        Some(t) => !crate::text::is_empty_str(t.as_str()),
        None => false,
    };
    assert(has == has_note(opt_text(*note)));
    let mut runs: Vec<Run> = Vec::new();
    push_run(&mut runs, Run::new(s(cats, lang, "panel.yourNote").as_str(), Size::Label, Color::Ink).bold());
    push_run(&mut runs, Run::new("   ", Size::Label, Color::Ink));
    let id = if has { "panel.editNote" } else { "panel.addNote" };
    push_run(&mut runs, Run::new(s(cats, lang, id).as_str(), Size::Caption, Color::Gold).link(joined("editnote:", verse)));
    assert(runs_view(runs@) =~= seq![
        bolded(run(s_text(cats@, lang, "panel.yourNote"@), Size::Label, Color::Ink)),
        run("   "@, Size::Label, Color::Ink),
        linked(
            run(s_text(cats@, lang, if has_note(opt_text(*note)) { "panel.editNote"@ } else { "panel.addNote"@ }), Size::Caption, Color::Gold),
            "editnote:"@ + verse@,
        ),
    ]);
    push_block(out, Block::Para { runs, indent: false, top_gap: true });
    if has {
        match note {
            Some(t) => push_block(out, one(Run::new(t.as_str(), Size::Note, Color::Ink))),
            None => {},
        }
    }
    assert(blocks_view(out@) =~= blocks_view(old(out)@) + note_part(cats@, lang, verse@, opt_text(*note)));
}

fn word_head_into(out: &mut Vec<Block>, cats: &Catalogs, lang: Lang, gates: Gates, kjv: bool, verse: &str, w: &WordStudyData)
    ensures
        blocks_view(final(out)@) == blocks_view(old(out)@) + word_head_part(cats@, lang, verse@, gates, kjv, w@),
{
    let ghost o0 = blocks_view(out@);
    let mut head: Vec<Run> = Vec::new();
    push_run(&mut head, Run::new(w.display.as_str(), Size::Body, Color::Ink).bold());
    match &w.printed {
        Some(p) => {
            push_run(&mut head, Run::new("  ", Size::Body, Color::Ink));
            push_run(&mut head, Run::new(p.as_str(), Size::Fine, Color::Faded));
        },
        None => {},
    }
    assert(runs_view(head@) =~= seq![bolded(run(w.display@, Size::Body, Color::Ink))] + match w.printed {
        Some(p) => seq![run("  "@, Size::Body, Color::Ink), run(p@, Size::Fine, Color::Faded)],
        None => Seq::empty(),
    });
    push_block(out, para_of(head));
    let ghost o1 = blocks_view(out@);
    if !crate::text::is_empty_str(w.word.as_str()) {
        push_block(out, one(Run::new(w.word.as_str(), Size::Word, Color::Ink)));
    }
    let ghost o2 = blocks_view(out@);
    match &w.morph {
        Some(g) => {
            if kjv && gates.human {
                push_block(out, one(Run::new(g.as_str(), Size::Note, Color::Morph).italic()));
            }
        },
        None => {},
    }
    let ghost o3 = blocks_view(out@);
    note_into(out, cats, lang, verse, &w.note);
    reveal(word_head_part);
    assert(blocks_view(out@) =~= blocks_view(old(out)@) + seq![para(seq![bolded(run(w.display@, Size::Body, Color::Ink))] + match w.printed {
            Some(p) => seq![run("  "@, Size::Body, Color::Ink), run(p@, Size::Fine, Color::Faded)],
            None => Seq::empty(),
        })] + (if w.word@.len() > 0 {
            seq![para(seq![run(w.word@, Size::Word, Color::Ink)])]
        } else {
            Seq::empty()
        }) + (match w.morph {
            Some(g) => if kjv && gates.human {
                seq![para(seq![italicized(run(g@, Size::Note, Color::Morph))])]
            } else {
                Seq::empty()
            },
            None => Seq::empty(),
        }) + note_part(cats@, lang, verse@, opt_text(w.note)));
}

fn studies_into(
    out: &mut Vec<Block>,
    cats: &Catalogs,
    lang: Lang,
    codes: &Vec<String>,
    word: &str,
    gates: Gates,
    kjv: bool,
    ai: bool,
    label: &str,
    ds: &Vec<CodeStudyData>,
)
    ensures
        blocks_view(final(out)@) == blocks_view(old(out)@) + studies_upto(
            cats@,
            lang,
            words_view(codes@),
            word@,
            gates,
            kjv,
            ai,
            label@,
            studies_view(ds@),
            codes@.len(),
        ),
{
    let ghost cv = words_view(codes@);
    let ghost dv = studies_view(ds@);
    let ghost o0 = blocks_view(out@);
    let empty = CodeStudyData {
        occurrences: 0,
        entry: None,
        renderings: Vec::new(),
        tapped: Vec::new(),
        others: Vec::new(),
        partners: Vec::new(),
        partner_chips: Vec::new(),
        concept: None,
        community_chips: Vec::new(),
    };
    assert(empty@ =~= no_study());
    let mut i: usize = 0;
    assert(blocks_view(out@) =~= o0 + studies_upto(cats@, lang, cv, word@, gates, kjv, ai, label@, dv, 0));
    while i < codes.len()
        invariant
            i <= codes@.len(),
            cv == words_view(codes@),
            dv == studies_view(ds@),
            empty@ == no_study(),
            blocks_view(out@) == o0 + studies_upto(cats@, lang, cv, word@, gates, kjv, ai, label@, dv, i as nat),
        decreases codes@.len() - i,
    {
        let d: &CodeStudyData = if i < ds.len() {
            &ds[i]
        } else {
            &empty
        };
        assert(d@ == study_at(dv, i as int));
        assert(cv[i as int] == codes@[i as int]@);
        let ghost before = blocks_view(out@);
        code_study_into(out, cats, lang, codes[i].as_str(), word, gates, kjv, ai, label, d);
        assert(blocks_view(out@) =~= o0 + studies_upto(cats@, lang, cv, word@, gates, kjv, ai, label@, dv, (i + 1) as nat));
        i = i + 1;
    }
}

/// The study card of the word tapped in `verse`, whose Strong's codes are
/// `codes`, from what the source answered. `kjv`, `ai` and `label` are as for
/// [`code_study_blocks`].
pub fn word_study_blocks(
    cats: &Catalogs,
    lang: Lang,
    verse: &str,
    codes: &Vec<String>,
    gates: Gates,
    kjv: bool,
    ai: bool,
    label: &str,
    w: &WordStudyData,
) -> (r: Vec<Block>)
    ensures
        blocks_view(r@) == word_card_spec(cats@, lang, verse@, words_view(codes@), gates, kjv, ai, label@, w@),
{
    let mut out: Vec<Block> = Vec::new();
    word_head_into(&mut out, cats, lang, gates, kjv, verse, w);
    let ghost o1 = blocks_view(out@);
    codes_into(&mut out, cats, lang, codes, gates, kjv, ai, label, w);
    let ghost o2 = blocks_view(out@);
    let mut extras = verse_extras_blocks(cats, lang, verse, gates, &w.xrefs, &w.study, &w.tags, &w.notes);
    let ghost ev = extras@;
    out.append(&mut extras);
    assert(blocks_view(out@) =~= o2 + blocks_view(ev));
    let ghost o3 = blocks_view(out@);
    if kjv && (gates.human || gates.machine) && codes.len() > 0 {
        push_block(&mut out, legend());
    }
    assert(blocks_view(out@) =~= word_card_spec(cats@, lang, verse@, words_view(codes@), gates, kjv, ai, label@, w@));
    out
}

fn codes_into(
    out: &mut Vec<Block>,
    cats: &Catalogs,
    lang: Lang,
    codes: &Vec<String>,
    gates: Gates,
    kjv: bool,
    ai: bool,
    label: &str,
    w: &WordStudyData,
)
    ensures
        blocks_view(final(out)@) == blocks_view(old(out)@) + codes_part(
            cats@,
            lang,
            words_view(codes@),
            w.word@,
            gates,
            kjv,
            ai,
            label@,
            studies_view(w.studies@),
        ),
{
    reveal(codes_part);
    let ghost o0 = blocks_view(out@);
    if codes.len() == 0 {
        push_block(out, one(Run::new(s(cats, lang, "study.noStrongs").as_str(), Size::Body, Color::Faded).italic()));
    } else {
        studies_into(out, cats, lang, codes, w.word.as_str(), gates, kjv, ai, label, &w.studies);
        caveat_into(out, cats, lang, ai, label);
    }
    assert(blocks_view(out@) =~= o0 + codes_part(cats@, lang, words_view(codes@), w.word@, gates, kjv, ai, label@, studies_view(w.studies@)));
}


/// Whether the language's dictionary has machine-translated definitions.
fn lexicon_is_machine(lang: Lang) -> (r: bool)
    ensures
        r == crate::i18n::lexicon_machine(lang),
{
    match lang.spec().lexicon {
        Some(l) => l.machine_translated,
        None => false,
    }
}

/// Whether a card marks its definitions machine-translated: a localized
/// dictionary whose definitions are.
pub open spec fn ai_of<S: PanelSource>(src: &S, lang: Lang) -> bool {
    src.lexicon_localized_of() && crate::i18n::lexicon_machine(lang)
}

/// The Bible a dictionary's renderings come from: the reader's for a
/// localized dictionary, else the KJV.
pub open spec fn label_of<S: PanelSource>(src: &S, lang: Lang) -> Seq<char> {
    if src.lexicon_localized_of() {
        crate::i18n::corpus_label(lang)
    } else {
        crate::i18n::corpus_label(Lang::En)
    }
}

/// The name of the Bible a dictionary's renderings come from.
fn renderings_label(lang: Lang, localized: bool) -> (r: &'static str)
    ensures
        r@ == if localized { crate::i18n::corpus_label(lang) } else { crate::i18n::corpus_label(Lang::En) },
{
    if localized {
        lang.corpus().label
    } else {
        Lang::En.corpus().label
    }
}

/// Whether each rendering is the tapped word's: its key equals the word's,
/// which is not empty.
pub open spec fn tapped_of<S: PanelSource>(src: &S, word: Seq<char>, rs: Seq<RenderingView>) -> Seq<bool> {
    rs.map_values(
        |r: RenderingView|
            src.render_key_of(word)@.len() > 0 && src.render_key_of(word)@ == src.render_key_of(r.rendering@)@,
    )
}

/// Of the first `k` codes, those other than `code`, each with its gloss.
pub open spec fn others_upto_of<S: PanelSource>(src: &S, codes: Seq<String>, code: Seq<char>, k: nat) -> Seq<
    (Seq<char>, Option<Seq<char>>),
>
    decreases k,
{
    if k == 0 || k > codes.len() {
        Seq::empty()
    } else {
        let r = others_upto_of(src, codes, code, (k - 1) as nat);
        if codes[k - 1]@ != code {
            r.push((codes[k - 1]@, opt_text(src.gloss_of(codes[k - 1]@))))
        } else {
            r
        }
    }
}

/// The chips of the first `n` codes.
pub open spec fn chips_of<S: PanelSource>(src: &S, codes: Seq<Seq<char>>, n: nat) -> Seq<ChipModel> {
    Seq::new(n, |i: int| src.chip_of(codes[i])@)
}

/// What the source answers about `code` for its study, asked only for the
/// tiers that will show: the KJV text with a gate open; renderings, the
/// reverse lens and partners under the human gate, the concept under the
/// machine gate.
pub open spec fn gathered<S: PanelSource>(src: &S, code: Seq<char>, word: Seq<char>, gates: Gates, kjv: bool) -> CodeStudyModel {
    let open = (gates.human || gates.machine) && kjv;
    let rs = if open && gates.human { src.renderings_of(code)@ } else { Seq::empty() };
    let ps = if open && gates.human { src.bridge_partners_of(code)@ } else { Seq::empty() };
    let concept = if open && gates.machine { src.concept_of(code) } else { None };
    CodeStudyModel {
        occurrences: src.occurrence_count_of(code) as u64,
        entry: match src.strongs_of(code) {
            Some(e) => Some(e@),
            None => None,
        },
        renderings: rs.map_values(|r: RenderingView| r@),
        tapped: tapped_of(src, word, rs),
        others: if rs.len() > 0 && word.len() > 0 {
            others_upto_of(src, src.word_codes_of(word)@, code, src.word_codes_of(word)@.len())
        } else {
            Seq::empty()
        },
        partners: partners_view(ps),
        partner_chips: chips_of(src, ps.map_values(|p: BridgePartnerView| p.code@), capped(ps.len(), 6)),
        concept: match concept {
            Some(c) => Some(c@),
            None => None,
        },
        community_chips: match concept {
            Some(c) => chips_of(src, words_view(c.community@), capped(c.community@.len(), 8)),
            None => Seq::empty(),
        },
    }
}

/// Whether two strings hold the same characters and the first is not empty.
fn same_key(a: &String, b: &String) -> (r: bool)
    ensures
        r == (a@.len() > 0 && a@ == b@),
{
    !crate::text::is_empty_str(a.as_str()) && str_eq(a.as_str(), b.as_str())
}

/// The other codes a word translates, each with its gloss.
fn other_codes<S: PanelSource>(src: &S, code: &str, word: &str) -> (r: Vec<(String, Option<String>)>)
    ensures
        others_view(r@) == others_upto_of(src, src.word_codes_of(word@)@, code@, src.word_codes_of(word@)@.len()),
{
    let all = src.word_codes(word);
    let mut out: Vec<(String, Option<String>)> = Vec::new();
    let mut i: usize = 0;
    while i < all.len()
        invariant
            i <= all@.len(),
            all == src.word_codes_of(word@),
            others_view(out@) == others_upto_of(src, all@, code@, i as nat),
        decreases all@.len() - i,
    {
        let ghost before = others_view(out@);
        if !str_eq(all[i].as_str(), code) {
            let g = src.gloss(all[i].as_str());
            out.push((all[i].clone(), g));
            assert(others_view(out@) =~= before.push((all@[i as int]@, opt_text(g))));
        }
        i = i + 1;
    }
    out
}

fn chips_for<S: PanelSource>(src: &S, codes: Vec<&str>) -> (r: Vec<ChipView>)
    ensures
        chips_view(r@) == chips_of(src, codes@.map_values(|c: &str| c@), codes@.len()),
{
    let ghost cv = codes@.map_values(|c: &str| c@);
    let mut out: Vec<ChipView> = Vec::new();
    let mut i: usize = 0;
    while i < codes.len()
        invariant
            i <= codes@.len(),
            cv == codes@.map_values(|c: &str| c@),
            chips_view(out@) =~= chips_of(src, cv, i as nat),
        decreases codes@.len() - i,
    {
        let ghost before = chips_view(out@);
        let c = src.chip(codes[i]);
        out.push(c);
        assert(chips_view(out@) =~= before.push(c@));
        assert(chips_of(src, cv, (i + 1) as nat) =~= chips_of(src, cv, i as nat).push(src.chip_of(cv[i as int])@));
        i = i + 1;
    }
    out
}

/// What the source answers about one code (see [`gathered`]).
fn gather_code<S: PanelSource>(src: &S, code: &str, word: &str, gates: Gates, kjv: bool) -> (d: CodeStudyData)
    ensures
        d@ == gathered(src, code@, word@, gates, kjv),
{
    let ghost want = gathered(src, code@, word@, gates, kjv);
    let occurrences = src.occurrence_count(code) as u64;
    let entry = src.strongs(code);
    let mut renderings: Vec<RenderingView> = Vec::new();
    let mut tapped: Vec<bool> = Vec::new();
    let mut others: Vec<(String, Option<String>)> = Vec::new();
    let mut partners: Vec<BridgePartnerView> = Vec::new();
    let mut partner_chips: Vec<ChipView> = Vec::new();
    let mut concept: Option<ConceptView> = None;
    let mut community_chips: Vec<ChipView> = Vec::new();
    if (gates.human || gates.machine) && kjv {
        if gates.human {
            renderings = src.renderings(code);
            let wkey = src.render_key(word);
            let mut i: usize = 0;
            while i < renderings.len()
                invariant
                    i <= renderings@.len(),
                    wkey == src.render_key_of(word@),
                    tapped@ =~= tapped_of(src, word@, renderings@.take(i as int)),
                decreases renderings.len() - i,
            {
                let rk = src.render_key(renderings[i].rendering.as_str());
                tapped.push(same_key(&wkey, &rk));
                assert(renderings@.take(i + 1) =~= renderings@.take(i as int).push(renderings@[i as int]));
                i = i + 1;
            }
            assert(renderings@.take(renderings@.len() as int) =~= renderings@);
            if renderings.len() > 0 && !crate::text::is_empty_str(word) {
                others = other_codes(src, code, word);
            }
            partners = src.bridge_partners(code);
            let mut codes: Vec<&str> = Vec::new();
            let mut k: usize = 0;
            while k < partners.len() && k < 6
                invariant
                    k <= partners@.len(),
                    k <= 6,
                    codes@.map_values(|c: &str| c@) =~= partners@.map_values(|p: BridgePartnerView| p.code@).take(k as int),
                decreases partners.len() - k,
            {
                let ghost before = codes@.map_values(|c: &str| c@);
                codes.push(partners[k].code.as_str());
                assert(codes@.map_values(|c: &str| c@) =~= before.push(partners@[k as int].code@));
                assert(partners@.map_values(|p: BridgePartnerView| p.code@).take(k + 1) =~= partners@.map_values(
                    |p: BridgePartnerView| p.code@,
                ).take(k as int).push(partners@[k as int].code@));
                k = k + 1;
            }
            partner_chips = chips_for(src, codes);
        }
        if gates.machine {
            concept = src.concept(code);
            match &concept {
                Some(c) => {
                    let mut codes: Vec<&str> = Vec::new();
                    let mut k: usize = 0;
                    while k < c.community.len() && k < 8
                        invariant
                            k <= c.community@.len(),
                            k <= 8,
                            codes@.map_values(|x: &str| x@) =~= words_view(c.community@).take(k as int),
                        decreases c.community.len() - k,
                    {
                        let ghost before = codes@.map_values(|x: &str| x@);
                        codes.push(c.community[k].as_str());
                        assert(codes@.map_values(|x: &str| x@) =~= before.push(c.community@[k as int]@));
                        assert(words_view(c.community@).take(k + 1) =~= words_view(c.community@).take(k as int).push(
                            c.community@[k as int]@,
                        ));
                        k = k + 1;
                    }
                    community_chips = chips_for(src, codes);
                },
                None => {},
            }
        }
    }
    let d = CodeStudyData {
        occurrences,
        entry,
        renderings,
        tapped,
        others,
        partners,
        partner_chips,
        concept,
        community_chips,
    };
    assert(d@.renderings =~= want.renderings);
    assert(d@.partners =~= want.partners);
    assert(d@.partner_chips =~= want.partner_chips);
    assert(d@.community_chips =~= want.community_chips);
    assert(d@.tapped =~= want.tapped);
    assert(d@.others =~= want.others);
    d
}

/// The standalone study card of `code` with per-tier gates: its dictionary
/// entry and occurrences, and for the KJV text the gated tiers, the
/// dictionary caveat and the legend, all as the source answers them. `word`
/// is the surface that led here.
pub fn code_study_card_gated<S: PanelSource>(
    src: &S,
    cats: &Catalogs,
    lang: Lang,
    gates: Gates,
    code: &str,
    word: &str,
) -> (r: Vec<Block>)
    ensures
        blocks_view(r@) == code_card_spec(
            cats@,
            lang,
            code@,
            word@,
            gates,
            src.is_kjv_text_of(),
            ai_of(src, lang),
            label_of(src, lang),
            gathered(src, code@, word@, gates, src.is_kjv_text_of()),
        ),
{
    let kjv = src.is_kjv_text();
    let localized = src.lexicon_localized();
    let ai = localized && lexicon_is_machine(lang);
    let label = renderings_label(lang, localized);
    let d = gather_code(src, code, word, gates, kjv);
    code_study_blocks(cats, lang, code, word, gates, kjv, ai, label, &d)
}

/// [`code_study_card_gated`] with the legacy Simple/Full flag: Full switches
/// every tier on.
pub fn code_study_card<S: PanelSource>(src: &S, cats: &Catalogs, lang: Lang, full: bool, code: &str, word: &str) -> (r: Vec<
    Block,
>)
    ensures
        blocks_view(r@) == code_card_spec(
            cats@,
            lang,
            code@,
            word@,
            Gates { human: full, machine: full },
            src.is_kjv_text_of(),
            ai_of(src, lang),
            label_of(src, lang),
            gathered(src, code@, word@, Gates { human: full, machine: full }, src.is_kjv_text_of()),
        ),
{
    code_study_card_gated(src, cats, lang, Gates::from_full(full), code, word)
}

/// The tapped word, or nothing.
pub open spec fn word_of<S: PanelSource>(src: &S, verse: Seq<char>, token: u32) -> Seq<char> {
    match src.token_word_of(verse, token) {
        Some(w) => w@,
        None => Seq::empty(),
    }
}

/// What the source answers for the study of the word at `token` of `verse`
/// whose codes are `codes`.
pub open spec fn word_data<S: PanelSource>(src: &S, verse: Seq<char>, token: u32, codes: Seq<String>, gates: Gates) -> WordStudyModel {
    let kjv = src.is_kjv_text_of();
    let word = word_of(src, verse, token);
    WordStudyModel {
        display: match src.verse_display_of(verse) {
            Some(d) => d@,
            None => verse,
        },
        printed: opt_text(src.printed_note_of(verse)),
        word,
        morph: if kjv && gates.human { opt_text(src.morph_gloss_of(verse, token)) } else { None },
        note: opt_text(src.user_note_of(verse)),
        studies: codes.map_values(|c: String| gathered(src, c@, word, gates, kjv)),
        xrefs: xrefs_view(src.verse_xrefs_of(verse)@),
        study: if gates.human { study_view(src.study_xrefs_of(verse)@) } else { Seq::empty() },
        tags: verse_tags_view(src.verse_tags_of(verse)@),
        notes: words_view(src.verse_notes_of(verse)@),
    }
}

/// The study of the word at `token` of `verse`, whose Strong's codes are
/// `codes`, with per-tier gates: its head, each code's study, the verse's
/// extras and the legend, all as the source answers them.
pub fn word_study_gated<S: PanelSource>(
    src: &S,
    cats: &Catalogs,
    lang: Lang,
    gates: Gates,
    verse: &str,
    token: u32,
    codes: &Vec<String>,
) -> (r: Vec<Block>)
    ensures
        blocks_view(r@) == word_card_spec(
            cats@,
            lang,
            verse@,
            words_view(codes@),
            gates,
            src.is_kjv_text_of(),
            ai_of(src, lang),
            label_of(src, lang),
            word_data(src, verse@, token, codes@, gates),
        ),
{
    let ghost want = word_data(src, verse@, token, codes@, gates);
    let kjv = src.is_kjv_text();
    let localized = src.lexicon_localized();
    let ai = localized && lexicon_is_machine(lang);
    let label = renderings_label(lang, localized);
    let display = match src.verse_display(verse) {
        Some(d) => d,
        None => string_from(verse),
    };
    let word = match src.token_word(verse, token) {
        Some(w) => w,
        None => String::new(),
    };
    let printed = src.printed_note(verse);
    let morph = if kjv && gates.human {
        src.morph_gloss(verse, token)
    } else {
        None
    };
    let note = src.user_note(verse);
    let mut studies: Vec<CodeStudyData> = Vec::new();
    let mut i: usize = 0;
    while i < codes.len()
        invariant
            i <= codes@.len(),
            kjv == src.is_kjv_text_of(),
            word@ == word_of(src, verse@, token),
            studies_view(studies@) =~= codes@.take(i as int).map_values(|c: String| gathered(src, c@, word@, gates, kjv)),
        decreases codes@.len() - i,
    {
        let ghost before = studies_view(studies@);
        let d = gather_code(src, codes[i].as_str(), word.as_str(), gates, kjv);
        studies.push(d);
        assert(studies_view(studies@) =~= before.push(d@));
        assert(codes@.take(i + 1) =~= codes@.take(i as int).push(codes@[i as int]));
        i = i + 1;
    }
    assert(codes@.take(codes@.len() as int) =~= codes@);
    let xrefs = src.verse_xrefs(verse);
    let study = if gates.human {
        src.study_xrefs(verse)
    } else {
        Vec::new()
    };
    let tags = src.verse_tags(verse);
    let notes = src.verse_notes(verse);
    let w = WordStudyData { display, printed, word, morph, note, studies, xrefs, study, tags, notes };
    assert(w@.study =~= want.study);
    assert(w@.studies =~= want.studies);
    assert(w@ == want);
    word_study_blocks(cats, lang, verse, codes, gates, kjv, ai, label, &w)
}

/// [`word_study_gated`] with the legacy Simple/Full flag: Full switches every
/// tier on.
pub fn word_study<S: PanelSource>(
    src: &S,
    cats: &Catalogs,
    lang: Lang,
    full: bool,
    verse: &str,
    token: u32,
    codes: &Vec<String>,
) -> (r: Vec<Block>)
    ensures
        blocks_view(r@) == word_card_spec(
            cats@,
            lang,
            verse@,
            words_view(codes@),
            Gates { human: full, machine: full },
            src.is_kjv_text_of(),
            ai_of(src, lang),
            label_of(src, lang),
            word_data(src, verse@, token, codes@, Gates { human: full, machine: full }),
        ),
{
    word_study_gated(src, cats, lang, Gates::from_full(full), verse, token, codes)
}


} // verus!
