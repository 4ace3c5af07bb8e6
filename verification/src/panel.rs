//! The study-panel vocabulary shared by every shell: the semantic colour
//! roles, the projected data a panel is built from, the analysis gates, and the
//! link router that turns a panel `uri` back into a typed verb.
//!
//! Emit and parse live side by side, so the verb vocabulary is a single source:
//! a verb cannot drift between what the panel emits and what a shell handles.
//! The cards themselves (the block model and its producers) live in
//! [`crate::cards`] and are re-exported here.

use vstd::prelude::*;

use crate::text::{
    dec, find_char, find_char_in, parse_u32_spec, parse_unsigned_in, parse_usize_spec, push_char,
    push_str, rfind_char, rfind_char_in, str_eq, string_of_range, unsigned_value,
};

pub use crate::cards::{
    about_blocks_in, code_study_blocks, code_study_card, code_study_card_gated, compare_card, concordance,
    guide_blocks_in, rendering_concordance, search, suggested, tag_detail, tags_list, thread_detail, threads_list,
    verse_extras, weaves_list, word_study, word_study_blocks, word_study_gated, Block, CodeStudyData, PanelSource,
    Run, Size, WordStudyData,
};

verus! {

/// A semantic colour role. The shell owns the actual colours; every shell maps
/// these identically so the panel reads the same on each platform.
#[derive(Debug, Clone, Copy, PartialEq, Eq, Structural)]
pub enum Color {
    /// Primary body text.
    Ink,
    /// Muted / secondary text.
    Faded,
    /// A link or accent (gold).
    Gold,
    /// A section header (spaced muted gold).
    Section,
    /// Authority tier: the text itself.
    TierGod,
    /// Authority tier: curated scholarship.
    TierHuman,
    /// Authority tier: machine-derived.
    TierMachine,
    /// Authority tier: still research-grade.
    TierResearch,
    /// A neutral grey: pronunciations, kind labels, entry notes.
    Mono,
    /// The morphology gloss tint.
    Morph,
    /// A lemma shown small beside a chip.
    Lemma,
}

// ── projected data the panel is built from ───────────────────────────────────

/// A Strong's dictionary entry, projected to plain strings.
#[derive(Debug, Clone, Default)]
pub struct StrongsView {
    pub lemma: Option<String>,
    pub xlit: Option<String>,
    pub pron: Option<String>,
    pub deriv: Option<String>,
    pub def: Option<String>,
    pub kjv: Option<String>,
}

/// A concept chip: the code plus its English gloss and original lemma.
#[derive(Debug, Clone, Default)]
pub struct ChipView {
    pub code: String,
    pub gloss: Option<String>,
    pub lemma: Option<String>,
}

/// One English rendering of a code and how often it occurs.
#[derive(Debug, Clone)]
pub struct RenderingView {
    pub rendering: String,
    pub total: u32,
}

/// The verses where a code is rendered exactly one way (filtered concordance).
#[derive(Debug, Clone)]
pub struct RenderingRefsView {
    pub rendering: String,
    pub total: u32,
    /// `(ref key, display)`, already capped by the source.
    pub refs: Vec<(String, String)>,
}

/// A code's full concordance: total and `(ref key, display)` verses (capped).
#[derive(Debug, Clone, Default)]
pub struct OccurrencesView {
    pub total: u32,
    pub verses: Vec<(String, String)>,
}

/// An OT↔NT bridge partner: the code, its humanized witness sources, and the
/// authority tiers / research-grade flag driving its provenance marks.
#[derive(Debug, Clone)]
pub struct BridgePartnerView {
    pub code: String,
    /// Already lay-humanized, ready to join with " + ".
    pub sources: Vec<String>,
    pub tiers: Vec<String>,
    pub research_grade: bool,
}

/// The symbolic concept engine's view of a code: its community (same-root
/// members), its concentrating books, its testament split and its leitwort.
#[derive(Debug, Clone, Default)]
pub struct ConceptView {
    pub community: Vec<String>,
    /// `(display name, count)` for the top concentrating books.
    pub top_books: Vec<(String, u32)>,
    pub ot: u32,
    pub nt: u32,
    pub leitwort: Option<LeitwortView>,
}

/// A leitwort finding: `win_count` of a code's `n` uses cluster in `label`.
/// `score` is the significance exponent already written to one decimal
/// (`p ≈ 10^−score`).
#[derive(Debug, Clone)]
pub struct LeitwortView {
    pub n: usize,
    pub win_count: usize,
    pub score: String,
    pub label: String,
}

/// A weave cross-reference partner of a verse.
#[derive(Debug, Clone)]
pub struct XrefView {
    pub verse: String,
    pub display: String,
    pub weave: String,
    /// Library index of the weave, when it resolves (a compare-card link).
    pub weave_index: Option<usize>,
}

/// A study cross-reference (optionally a range).
#[derive(Debug, Clone)]
pub struct StudyXrefView {
    pub to: String,
    pub to_display: String,
    pub end: Option<String>,
    pub end_display: Option<String>,
}

/// A thread (an ordered passage trail).
#[derive(Debug, Clone, Default)]
pub struct ThreadView {
    pub name: String,
    pub notes: String,
    pub entries: Vec<ThreadEntryView>,
}

/// One passage of a thread.
#[derive(Debug, Clone)]
pub struct ThreadEntryView {
    pub verse: String,
    pub display: String,
    /// The passage's word snapshot.
    pub text: Vec<String>,
    pub note: Option<String>,
}

/// A tag (a labelled set of verses / codes).
#[derive(Debug, Clone, Default)]
pub struct TagView {
    pub name: String,
    pub members: Vec<TagMemberView>,
}

/// One member of a tag.
#[derive(Debug, Clone)]
pub struct TagMemberView {
    pub kind: String,
    pub verse: Option<String>,
    pub display: Option<String>,
    pub strongs: Option<String>,
    pub note: Option<String>,
}

/// A weave in the library (compare card and weaves list).
#[derive(Debug, Clone, Default)]
pub struct WeaveView {
    pub index: usize,
    pub name: String,
    pub kind_label: String,
    pub notes: String,
    pub suggested: bool,
    pub links: Vec<WeaveLinkView>,
}

/// One link of a weave.
#[derive(Debug, Clone)]
pub struct WeaveLinkView {
    pub a: String,
    pub a_display: String,
    pub b: String,
    pub b_display: String,
    pub label: String,
    pub span_a: Option<[u16; 2]>,
    pub span_b: Option<[u16; 2]>,
}

/// A weave awaiting review (the suggested queue).
#[derive(Debug, Clone, Default)]
pub struct SuggestedView {
    /// Ordinal within the suggested subset: the approve/reject handle.
    pub index: usize,
    pub name: String,
    pub kind: String,
    pub notes: String,
    /// Library index, when it resolves (compare and edit-notes links).
    pub lib_index: Option<usize>,
    pub links: Vec<SuggestedLinkView>,
}

/// One link of a suggested weave.
#[derive(Debug, Clone)]
pub struct SuggestedLinkView {
    pub a: String,
    pub a_display: String,
    pub b: String,
    pub b_display: String,
    pub label: String,
}

/// One token for a compare-card verse: its rendered form and whether the KJV
/// translators supplied it (italic grey).
#[derive(Debug, Clone)]
pub struct TokenView {
    pub render: String,
    pub added: bool,
}

/// A verse's tokens for a compare card.
#[derive(Debug, Clone, Default)]
pub struct VerseTokensView {
    pub tokens: Vec<TokenView>,
}

/// A search result: either a direct navigation, or ranked hits.
#[derive(Debug, Clone)]
pub enum SearchView {
    Goto { book: String, chapter: u32, verse: Option<u32>, display: String },
    Hits { how: String, total: usize, capped: bool, hits: Vec<SearchHitView> },
}

/// One search hit.
#[derive(Debug, Clone)]
pub struct SearchHitView {
    pub verse: String,
    pub display: String,
    pub note: bool,
    pub why: String,
}

// ── the analysis gates ───────────────────────────────────────────────────────

/// Which analysis tiers the reader has switched on. The text (and the reader's
/// own data) is always on; `human` gates the curated-scholarship tiers and
/// `machine` the learned / statistical ones.
#[derive(Debug, Clone, Copy, PartialEq, Eq, Structural)]
pub struct Gates {
    pub human: bool,
    pub machine: bool,
}

impl Gates {
    /// Everything on.
    pub fn all() -> (g: Gates)
        ensures
            g.human && g.machine,
    {
        Gates { human: true, machine: true }
    }

    /// The text alone.
    pub fn text_only() -> (g: Gates)
        ensures
            !g.human && !g.machine,
    {
        Gates { human: false, machine: false }
    }

    /// The legacy Simple/Full flag as gates (Full is everything on).
    pub fn from_full(full: bool) -> (g: Gates)
        ensures
            g.human == full,
            g.machine == full,
    {
        if full {
            Gates::all()
        } else {
            Gates::text_only()
        }
    }

    /// The wire form: bit 0 is human, bit 1 is machine.
    pub fn from_bits(bits: u32) -> (g: Gates)
        ensures
            g.human == (bits & 1 != 0),
            g.machine == (bits & 2 != 0),
    {
        Gates { human: bits & 1 != 0, machine: bits & 2 != 0 }
    }

    /// Whether any analysis tier is on.
    pub fn any(self) -> (r: bool)
        ensures
            r == (self.human || self.machine),
    {
        self.human || self.machine
    }
}

// ── the link router ──────────────────────────────────────────────────────────

/// A parsed panel link. Read verbs re-fetch a view or navigate; write verbs
/// (the `Edit*` / `Add*` / `Untag` / `Approve` / `Reject` family) drive an
/// author endpoint after the shell gathers any input.
#[derive(Debug, Clone, PartialEq, Eq)]
pub enum PanelLink {
    /// `go:BOOK:CH[:V]`: navigate the active pane (V bands the verse).
    Go { book: String, chapter: u32, verse: Option<u32> },
    /// `ext:https://…`: open an external link in the platform browser. Only
    /// https survives the parse.
    External { url: String },
    /// `occ:CODE`: the code's full concordance.
    Occurrences { code: String },
    /// `rend:CODE:RENDERING`: the concordance filtered to one rendering.
    Rendering { code: String, rendering: String },
    /// `code:CODE[:WORD]`: the standalone code-study card.
    CodeStudy { code: String, word: String },
    /// `thread:I`: open a thread.
    Thread { index: usize },
    /// `tag:I`: open a tag.
    Tag { index: usize },
    /// `weave:I`: open a weave's compare view.
    Weave { index: usize },
    /// `addtag:REF`: prompt, then tag REF.
    AddTag { refkey: String },
    /// `addthread:REF`: prompt, then add REF to a thread.
    AddThread { refkey: String },
    /// `untag:I:REF`: remove REF from tag I.
    Untag { tag: usize, refkey: String },
    /// `makeweave:I`: weave tag I's passages into a canon-ordered chain.
    MakeWeave { tag: usize },
    /// `approve:I`: accept a suggested weave (suggested ordinal).
    Approve { index: usize },
    /// `reject:I`: drop a suggested weave (suggested ordinal).
    Reject { index: usize },
    /// `deletethread:I`: delete a whole thread (library ordinal).
    DeleteThread { index: usize },
    /// `deletetag:I`: delete a whole tag.
    DeleteTag { index: usize },
    /// `deleteweave:I`: delete a whole weave.
    DeleteWeave { index: usize },
    /// `editthreadnotes:I`: prompt, then set a thread's notes.
    EditThreadNotes { index: usize },
    /// `editweavenotes:I`: prompt, then set a weave's notes.
    EditWeaveNotes { index: usize },
    /// `editentrynote:T:E`: prompt, then set thread T's entry E note.
    EditEntryNote { thread: usize, entry: usize },
    /// `editnote:REF`: prompt, then set the reader's personal note on REF.
    EditNote { refkey: String },
    /// `guide`: open the in-app guide.
    Guide,
    /// `about`: open the about card.
    About,
}

/// A [`PanelLink`] with its strings taken as character sequences.
pub enum LinkView {
    Go { book: Seq<char>, chapter: u32, verse: Option<u32> },
    External { url: Seq<char> },
    Occurrences { code: Seq<char> },
    Rendering { code: Seq<char>, rendering: Seq<char> },
    CodeStudy { code: Seq<char>, word: Seq<char> },
    Thread { index: usize },
    Tag { index: usize },
    Weave { index: usize },
    AddTag { refkey: Seq<char> },
    AddThread { refkey: Seq<char> },
    Untag { tag: usize, refkey: Seq<char> },
    MakeWeave { tag: usize },
    Approve { index: usize },
    Reject { index: usize },
    DeleteThread { index: usize },
    DeleteTag { index: usize },
    DeleteWeave { index: usize },
    EditThreadNotes { index: usize },
    EditWeaveNotes { index: usize },
    EditEntryNote { thread: usize, entry: usize },
    EditNote { refkey: Seq<char> },
    Guide,
    About,
}

impl View for PanelLink {
    type V = LinkView;

    open spec fn view(&self) -> LinkView {
        match self {
            PanelLink::Go { book, chapter, verse } => LinkView::Go {
                book: book@,
                chapter: *chapter,
                verse: *verse,
            },
            PanelLink::External { url } => LinkView::External { url: url@ },
            PanelLink::Occurrences { code } => LinkView::Occurrences { code: code@ },
            PanelLink::Rendering { code, rendering } => LinkView::Rendering {
                code: code@,
                rendering: rendering@,
            },
            PanelLink::CodeStudy { code, word } => LinkView::CodeStudy { code: code@, word: word@ },
            PanelLink::Thread { index } => LinkView::Thread { index: *index },
            PanelLink::Tag { index } => LinkView::Tag { index: *index },
            PanelLink::Weave { index } => LinkView::Weave { index: *index },
            PanelLink::AddTag { refkey } => LinkView::AddTag { refkey: refkey@ },
            PanelLink::AddThread { refkey } => LinkView::AddThread { refkey: refkey@ },
            PanelLink::Untag { tag, refkey } => LinkView::Untag { tag: *tag, refkey: refkey@ },
            PanelLink::MakeWeave { tag } => LinkView::MakeWeave { tag: *tag },
            PanelLink::Approve { index } => LinkView::Approve { index: *index },
            PanelLink::Reject { index } => LinkView::Reject { index: *index },
            PanelLink::DeleteThread { index } => LinkView::DeleteThread { index: *index },
            PanelLink::DeleteTag { index } => LinkView::DeleteTag { index: *index },
            PanelLink::DeleteWeave { index } => LinkView::DeleteWeave { index: *index },
            PanelLink::EditThreadNotes { index } => LinkView::EditThreadNotes { index: *index },
            PanelLink::EditWeaveNotes { index } => LinkView::EditWeaveNotes { index: *index },
            PanelLink::EditEntryNote { thread, entry } => LinkView::EditEntryNote {
                thread: *thread,
                entry: *entry,
            },
            PanelLink::EditNote { refkey } => LinkView::EditNote { refkey: refkey@ },
            PanelLink::Guide => LinkView::Guide,
            PanelLink::About => LinkView::About,
        }
    }
}

/// `s` split at its first `:`, if it has one.
pub open spec fn split_colon(s: Seq<char>) -> Option<(Seq<char>, Seq<char>)> {
    let k = find_char(s, ':');
    if k < s.len() {
        Some((s.take(k), s.skip(k + 1)))
    } else {
        None
    }
}

/// The payload of a `go:` link, `BOOK:CH[:V]`: the book never holds a `:`,
/// so the payload splits from the left into at most three parts.
pub open spec fn go_spec(rest: Seq<char>) -> Option<LinkView> {
    match split_colon(rest) {
        None => None,
        Some((book, tail)) => match split_colon(tail) {
            None => match parse_u32_spec(tail) {
                Some(c) => Some(LinkView::Go { book, chapter: c, verse: None }),
                None => None,
            },
            Some((ch, v)) => match (parse_u32_spec(ch), parse_u32_spec(v)) {
                (Some(c), Some(n)) => Some(LinkView::Go { book, chapter: c, verse: Some(n) }),
                _ => None,
            },
        },
    }
}

/// The link a write verb names, given its payload.
pub open spec fn write_link(verb: Seq<char>, rest: Seq<char>) -> Option<LinkView> {
    if verb == "addtag"@ {
        Some(LinkView::AddTag { refkey: rest })
    } else if verb == "addthread"@ {
        Some(LinkView::AddThread { refkey: rest })
    } else if verb == "untag"@ {
        match split_colon(rest) {
            Some((i, refkey)) => match parse_usize_spec(i) {
                Some(t) => Some(LinkView::Untag { tag: t, refkey }),
                None => None,
            },
            None => None,
        }
    } else if verb == "makeweave"@ {
        match parse_usize_spec(rest) {
            Some(i) => Some(LinkView::MakeWeave { tag: i }),
            None => None,
        }
    } else if verb == "approve"@ {
        match parse_usize_spec(rest) {
            Some(i) => Some(LinkView::Approve { index: i }),
            None => None,
        }
    } else if verb == "reject"@ {
        match parse_usize_spec(rest) {
            Some(i) => Some(LinkView::Reject { index: i }),
            None => None,
        }
    } else if verb == "deletethread"@ {
        match parse_usize_spec(rest) {
            Some(i) => Some(LinkView::DeleteThread { index: i }),
            None => None,
        }
    } else if verb == "deletetag"@ {
        match parse_usize_spec(rest) {
            Some(i) => Some(LinkView::DeleteTag { index: i }),
            None => None,
        }
    } else if verb == "deleteweave"@ {
        match parse_usize_spec(rest) {
            Some(i) => Some(LinkView::DeleteWeave { index: i }),
            None => None,
        }
    } else if verb == "editthreadnotes"@ {
        match parse_usize_spec(rest) {
            Some(i) => Some(LinkView::EditThreadNotes { index: i }),
            None => None,
        }
    } else if verb == "editweavenotes"@ {
        match parse_usize_spec(rest) {
            Some(i) => Some(LinkView::EditWeaveNotes { index: i }),
            None => None,
        }
    } else if verb == "editentrynote"@ {
        match split_colon(rest) {
            Some((t, e)) => match (parse_usize_spec(t), parse_usize_spec(e)) {
                (Some(a), Some(b)) => Some(LinkView::EditEntryNote { thread: a, entry: b }),
                _ => None,
            },
            None => None,
        }
    } else if verb == "editnote"@ {
        Some(LinkView::EditNote { refkey: rest })
    } else if verb == "guide"@ {
        Some(LinkView::Guide)
    } else if verb == "about"@ {
        Some(LinkView::About)
    } else {
        None
    }
}

/// The link a verb names, given its payload.
pub open spec fn link_for(verb: Seq<char>, rest: Seq<char>) -> Option<LinkView> {
    if verb == "go"@ {
        go_spec(rest)
    } else if verb == "ext"@ {
        if rest.len() >= 8 && rest.take(8) == "https://"@ {
            Some(LinkView::External { url: rest })
        } else {
            None
        }
    } else if verb == "occ"@ {
        Some(LinkView::Occurrences { code: rest })
    } else if verb == "rend"@ {
        match split_colon(rest) {
            Some((code, rendering)) => Some(LinkView::Rendering { code, rendering }),
            None => None,
        }
    } else if verb == "code"@ {
        match split_colon(rest) {
            Some((code, word)) => Some(LinkView::CodeStudy { code, word }),
            None => Some(LinkView::CodeStudy { code: rest, word: Seq::empty() }),
        }
    } else if verb == "thread"@ {
        match parse_usize_spec(rest) {
            Some(i) => Some(LinkView::Thread { index: i }),
            None => None,
        }
    } else if verb == "tag"@ {
        match parse_usize_spec(rest) {
            Some(i) => Some(LinkView::Tag { index: i }),
            None => None,
        }
    } else if verb == "weave"@ {
        match parse_usize_spec(rest) {
            Some(i) => Some(LinkView::Weave { index: i }),
            None => None,
        }
    } else {
        write_link(verb, rest)
    }
}

/// What [`parse_link`] makes of a `uri`: the verb before the first `:` (the
/// whole uri when there is none) and its payload after it.
pub open spec fn link_spec(uri: Seq<char>) -> Option<LinkView> {
    match split_colon(uri) {
        Some((verb, rest)) => link_for(verb, rest),
        None => link_for(uri, Seq::empty()),
    }
}

/// `cs[lo..hi]` split at its first `:`: the position of that `:`, if any.
fn colon_in(cs: &[char], lo: usize, hi: usize) -> (r: Option<usize>)
    requires
        lo <= hi <= cs@.len(),
    ensures
        match split_colon(cs@.subrange(lo as int, hi as int)) {
            Some(p) => r matches Some(k) && lo <= k < hi && p.0 == cs@.subrange(lo as int, k as int)
                && p.1 == cs@.subrange(k + 1, hi as int),
            None => r is None,
        },
{
    let k = find_char_in(cs, lo, hi, ':');
    let ghost sub = cs@.subrange(lo as int, hi as int);
    if k < hi {
        assert(sub.take(k - lo) =~= cs@.subrange(lo as int, k as int));
        assert(sub.skip(k - lo + 1) =~= cs@.subrange(k + 1, hi as int));
        Some(k)
    } else {
        None
    }
}

/// `cs[lo..hi]` read as a `usize` the way `str::parse` does.
fn usize_in(cs: &[char], lo: usize, hi: usize) -> (r: Option<usize>)
    requires
        lo <= hi <= cs@.len(),
    ensures
        r == parse_usize_spec(cs@.subrange(lo as int, hi as int)),
{
    match parse_unsigned_in(cs, lo, hi, usize::MAX as u64) {
        Some(n) => Some(n as usize),
        None => None,
    }
}

/// `cs[lo..hi]` read as a `u32` the way `str::parse` does.
fn u32_in(cs: &[char], lo: usize, hi: usize) -> (r: Option<u32>)
    requires
        lo <= hi <= cs@.len(),
    ensures
        r == parse_u32_spec(cs@.subrange(lo as int, hi as int)),
{
    match parse_unsigned_in(cs, lo, hi, u32::MAX as u64) {
        Some(n) => Some(n as u32),
        None => None,
    }
}

/// The `go:` payload in `cs[lo..hi]` (see [`go_spec`]).
fn go_link(cs: &[char], lo: usize, hi: usize) -> (r: Option<PanelLink>)
    requires
        lo <= hi <= cs@.len(),
    ensures
        match go_spec(cs@.subrange(lo as int, hi as int)) {
            Some(l) => r matches Some(x) && x@ == l,
            None => r is None,
        },
{
    let a = match colon_in(cs, lo, hi) {
        Some(a) => a,
        None => return None,
    };
    match colon_in(cs, a + 1, hi) {
        None => match u32_in(cs, a + 1, hi) {
            Some(c) => Some(PanelLink::Go { book: string_of_range(cs, lo, a), chapter: c, verse: None }),
            None => None,
        },
        Some(b) => {
            let c = match u32_in(cs, a + 1, b) {
                Some(c) => c,
                None => return None,
            };
            let v = match u32_in(cs, b + 1, hi) {
                Some(v) => v,
                None => return None,
            };
            Some(PanelLink::Go { book: string_of_range(cs, lo, a), chapter: c, verse: Some(v) })
        },
    }
}

/// The link a write verb names (see [`write_link`]), its payload `cs[lo..hi]`.
fn write_link_of(verb: &str, cs: &[char], lo: usize, hi: usize) -> (r: Option<PanelLink>)
    requires
        lo <= hi <= cs@.len(),
    ensures
        match write_link(verb@, cs@.subrange(lo as int, hi as int)) {
            Some(l) => r matches Some(x) && x@ == l,
            None => r is None,
        },
{
    if str_eq(verb, "addtag") {
        Some(PanelLink::AddTag { refkey: string_of_range(cs, lo, hi) })
    } else if str_eq(verb, "addthread") {
        Some(PanelLink::AddThread { refkey: string_of_range(cs, lo, hi) })
    } else if str_eq(verb, "untag") {
        match colon_in(cs, lo, hi) {
            Some(k) => match usize_in(cs, lo, k) {
                Some(t) => Some(PanelLink::Untag { tag: t, refkey: string_of_range(cs, k + 1, hi) }),
                None => None,
            },
            None => None,
        }
    } else if str_eq(verb, "makeweave") {
        match usize_in(cs, lo, hi) {
            Some(i) => Some(PanelLink::MakeWeave { tag: i }),
            None => None,
        }
    } else if str_eq(verb, "approve") {
        match usize_in(cs, lo, hi) {
            Some(i) => Some(PanelLink::Approve { index: i }),
            None => None,
        }
    } else if str_eq(verb, "reject") {
        match usize_in(cs, lo, hi) {
            Some(i) => Some(PanelLink::Reject { index: i }),
            None => None,
        }
    } else if str_eq(verb, "deletethread") {
        match usize_in(cs, lo, hi) {
            Some(i) => Some(PanelLink::DeleteThread { index: i }),
            None => None,
        }
    } else if str_eq(verb, "deletetag") {
        match usize_in(cs, lo, hi) {
            Some(i) => Some(PanelLink::DeleteTag { index: i }),
            None => None,
        }
    } else if str_eq(verb, "deleteweave") {
        match usize_in(cs, lo, hi) {
            Some(i) => Some(PanelLink::DeleteWeave { index: i }),
            None => None,
        }
    } else if str_eq(verb, "editthreadnotes") {
        match usize_in(cs, lo, hi) {
            Some(i) => Some(PanelLink::EditThreadNotes { index: i }),
            None => None,
        }
    } else if str_eq(verb, "editweavenotes") {
        match usize_in(cs, lo, hi) {
            Some(i) => Some(PanelLink::EditWeaveNotes { index: i }),
            None => None,
        }
    } else if str_eq(verb, "editentrynote") {
        match colon_in(cs, lo, hi) {
            Some(k) => match (usize_in(cs, lo, k), usize_in(cs, k + 1, hi)) {
                (Some(a), Some(b)) => Some(PanelLink::EditEntryNote { thread: a, entry: b }),
                _ => None,
            },
            None => None,
        }
    } else if str_eq(verb, "editnote") {
        Some(PanelLink::EditNote { refkey: string_of_range(cs, lo, hi) })
    } else if str_eq(verb, "guide") {
        Some(PanelLink::Guide)
    } else if str_eq(verb, "about") {
        Some(PanelLink::About)
    } else {
        None
    }
}

/// The link a verb names (see [`link_for`]), its payload `cs[lo..hi]`.
fn link_of(verb: &str, cs: &[char], lo: usize, hi: usize) -> (r: Option<PanelLink>)
    requires
        lo <= hi <= cs@.len(),
    ensures
        match link_for(verb@, cs@.subrange(lo as int, hi as int)) {
            Some(l) => r matches Some(x) && x@ == l,
            None => r is None,
        },
{
    let ghost rest = cs@.subrange(lo as int, hi as int);
    if str_eq(verb, "go") {
        go_link(cs, lo, hi)
    } else if str_eq(verb, "ext") {
        if hi - lo >= 8 {
            let head = string_of_range(cs, lo, lo + 8);
            assert(rest.take(8) =~= cs@.subrange(lo as int, lo + 8));
            if str_eq(head.as_str(), "https://") {
                return Some(PanelLink::External { url: string_of_range(cs, lo, hi) });
            }
        }
        None
    } else if str_eq(verb, "occ") {
        Some(PanelLink::Occurrences { code: string_of_range(cs, lo, hi) })
    } else if str_eq(verb, "rend") {
        match colon_in(cs, lo, hi) {
            Some(k) => Some(
                PanelLink::Rendering {
                    code: string_of_range(cs, lo, k),
                    rendering: string_of_range(cs, k + 1, hi),
                },
            ),
            None => None,
        }
    } else if str_eq(verb, "code") {
        match colon_in(cs, lo, hi) {
            Some(k) => Some(
                PanelLink::CodeStudy {
                    code: string_of_range(cs, lo, k),
                    word: string_of_range(cs, k + 1, hi),
                },
            ),
            None => Some(PanelLink::CodeStudy { code: string_of_range(cs, lo, hi), word: String::new() }),
        }
    } else if str_eq(verb, "thread") {
        match usize_in(cs, lo, hi) {
            Some(i) => Some(PanelLink::Thread { index: i }),
            None => None,
        }
    } else if str_eq(verb, "tag") {
        match usize_in(cs, lo, hi) {
            Some(i) => Some(PanelLink::Tag { index: i }),
            None => None,
        }
    } else if str_eq(verb, "weave") {
        match usize_in(cs, lo, hi) {
            Some(i) => Some(PanelLink::Weave { index: i }),
            None => None,
        }
    } else {
        write_link_of(verb, cs, lo, hi)
    }
}

/// Parse a panel `uri` into a typed [`PanelLink`]; `None` for an unknown verb
/// or a malformed payload (a shell then ignores the click).
pub fn parse_link(uri: &str) -> (r: Option<PanelLink>)
    ensures
        match link_spec(uri@) {
            Some(l) => r matches Some(x) && x@ == l,
            None => r is None,
        },
{
    let cs = crate::text::chars_of(uri);
    let n = cs.len();
    assert(cs@.subrange(0, n as int) =~= uri@);
    match colon_in(cs.as_slice(), 0, n) {
        Some(k) => {
            let verb = string_of_range(cs.as_slice(), 0, k);
            link_of(verb.as_str(), cs.as_slice(), k + 1, n)
        },
        None => {
            assert(cs@.subrange(n as int, n as int) =~= Seq::<char>::empty());
            link_of(uri, cs.as_slice(), n, n)
        },
    }
}

/// What [`go_uri`] makes of a ref key.
pub open spec fn go_uri_spec(refkey: Seq<char>) -> Seq<char> {
    let sp = rfind_char(refkey, ' ');
    if sp >= 0 {
        "go:"@ + refkey.take(sp) + seq![':'] + refkey.skip(sp + 1)
    } else {
        "go:"@ + refkey
    }
}

/// `"Gen 1:7"` to `"go:Gen:1:7"` (the navigate verb the shell routes).
pub fn go_uri(refkey: &str) -> (r: String)
    ensures
        r@ == go_uri_spec(refkey@),
{
    let cs = crate::text::chars_of(refkey);
    let mut out = crate::text::string_from("go:");
    match rfind_char_in(cs.as_slice(), ' ') {
        Some(sp) => {
            let book = string_of_range(cs.as_slice(), 0, sp);
            push_str(&mut out, book.as_str());
            push_char(&mut out, ':');
            let cv = string_of_range(cs.as_slice(), sp + 1, cs.len());
            push_str(&mut out, cv.as_str());
            assert(cs@.subrange(0, sp as int) =~= refkey@.take(sp as int));
            assert(cs@.subrange(sp + 1, cs@.len() as int) =~= refkey@.skip(sp + 1));
        },
        None => {
            push_str(&mut out, refkey);
        },
    }
    out
}

proof fn lemma_go_uri_of_key(book: Seq<char>, chapter: u16, verse: u16)
    ensures
        go_uri_spec(crate::reference::ref_key_spec(book, chapter, verse)) == "go:"@ + (book + seq![':']
            + (dec(chapter as nat) + seq![':'] + dec(verse as nat))),
{
    let c = dec(chapter as nat);
    let v = dec(verse as nat);
    crate::text::lemma_dec_digits(chapter as nat);
    crate::text::lemma_dec_digits(verse as nat);
    let key = crate::reference::ref_key_spec(book, chapter, verse);
    let cv = c + seq![':'] + v;
    assert(key =~= book + seq![' '] + cv);
    let bl = book.len() as int;
    assert forall|j: int| bl < j < key.len() implies key[j] != ' ' by {
        if j <= bl + c.len() {
            assert(key[j] == c[j - bl - 1]);
            assert(crate::text::is_digit(c[j - bl - 1]));
        } else if j > bl + c.len() + 1 {
            assert(key[j] == v[j - bl - c.len() - 2]);
            assert(crate::text::is_digit(v[j - bl - c.len() - 2]));
        }
    }
    crate::text::lemma_rfind_char(key, ' ', bl);
    assert(key.take(bl) =~= book);
    assert(key.skip(bl + 1) =~= cv);
}

proof fn lemma_go_verb(rest: Seq<char>)
    ensures
        link_spec("go:"@ + rest) == go_spec(rest),
{
    reveal_strlit("go:");
    reveal_strlit("go");
    let uri = "go:"@ + rest;
    assert(uri =~= seq!['g', 'o', ':'] + rest);
    crate::text::lemma_find_char(uri, ':', 2);
    assert(uri.take(2) =~= "go"@);
    assert(uri.skip(3) =~= rest);
}

proof fn lemma_go_payload(book: Seq<char>, chapter: u16, verse: u16)
    requires
        forall|i: int| 0 <= i < book.len() ==> book[i] != ':',
    ensures
        go_spec(book + seq![':'] + (dec(chapter as nat) + seq![':'] + dec(verse as nat))) == Some(
            LinkView::Go { book, chapter: chapter as u32, verse: Some(verse as u32) },
        ),
{
    let c = dec(chapter as nat);
    let v = dec(verse as nat);
    crate::text::lemma_dec_digits(chapter as nat);
    crate::text::lemma_dec_digits(verse as nat);
    crate::text::lemma_unsigned_value_dec(chapter as nat);
    crate::text::lemma_unsigned_value_dec(verse as nat);
    let cv = c + seq![':'] + v;
    let rest = book + seq![':'] + cv;
    let bl = book.len() as int;
    crate::text::lemma_find_char(rest, ':', bl);
    assert(rest.take(bl) =~= book);
    assert(rest.skip(bl + 1) =~= cv);
    assert forall|j: int| 0 <= j < c.len() implies cv[j] != ':' by {
        assert(cv[j] == c[j]);
        assert(crate::text::is_digit(c[j]));
    }
    crate::text::lemma_find_char(cv, ':', c.len() as int);
    assert(cv.take(c.len() as int) =~= c);
    assert(cv.skip(c.len() + 1int) =~= v);
}

/// A verse's navigate link routes back to that verse: the `go:` link made
/// from the ref key of `book chapter:verse` parses to `Go` with that book,
/// chapter and verse, for every book name without a `:`.
pub proof fn lemma_go_round_trip(book: Seq<char>, chapter: u16, verse: u16)
    requires
        forall|i: int| 0 <= i < book.len() ==> book[i] != ':',
    ensures
        link_spec(go_uri_spec(crate::reference::ref_key_spec(book, chapter, verse))) == Some(
            LinkView::Go { book, chapter: chapter as u32, verse: Some(verse as u32) },
        ),
{
    lemma_go_uri_of_key(book, chapter, verse);
    lemma_go_verb(book + seq![':'] + (dec(chapter as nat) + seq![':'] + dec(verse as nat)));
    lemma_go_payload(book, chapter, verse);
}

} // verus!
