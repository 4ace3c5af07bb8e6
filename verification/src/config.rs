//! Application settings that are not typography: the study mode, the reading
//! panes and history, the home church and the small switches. Stored as JSON by
//! the shell; everything a loaded file is normalised to is decided here.

use vstd::prelude::*;

use crate::font::{font_of, font_token, Font};
use crate::text::{is_blank, str_eq, string_from, trim, trimmed};

verus! {

/// How much of the app the reader sees. `Full` unlocks the study surface
/// (threads, tags, weave authoring/review); `Simple` is lookup and search only.
#[derive(Debug, Clone, Copy, PartialEq, Eq, Structural)]
pub enum StudyMode {
    Simple,
    Full,
}

impl Default for StudyMode {
    fn default() -> (r: StudyMode)
        ensures
            r == StudyMode::Simple,
    {
        StudyMode::Simple
    }
}

impl StudyMode {
    /// Frozen on-disk token.
    pub fn token(self) -> (r: &'static str)
        ensures
            r@ == study_mode_token(self),
    {
        match self {
            StudyMode::Simple => "simple",
            StudyMode::Full => "full",
        }
    }

    /// The mode a token names; `None` for anything else.
    pub fn parse(t: &str) -> (r: Option<StudyMode>)
        ensures
            r == (if t@ == "simple"@ {
                Some(StudyMode::Simple)
            } else if t@ == "full"@ {
                Some(StudyMode::Full)
            } else {
                None::<StudyMode>
            }),
    {
        if crate::text::str_eq(t, "simple") {
            Some(StudyMode::Simple)
        } else if crate::text::str_eq(t, "full") {
            Some(StudyMode::Full)
        } else {
            None
        }
    }

    /// Whether the study/authoring surface is available in this mode.
    pub fn is_full(self) -> (r: bool)
        ensures
            r == (self == StudyMode::Full),
    {
        matches!(self, StudyMode::Full)
    }
}

/// The token of a mode.
pub open spec fn study_mode_token(m: StudyMode) -> Seq<char> {
    match m {
        StudyMode::Simple => "simple"@,
        StudyMode::Full => "full"@,
    }
}

/// A mode's token parses back to the mode.
pub proof fn lemma_study_mode_round_trip(m: StudyMode)
    ensures
        study_mode_token(m) == "simple"@ ==> m == StudyMode::Simple,
        study_mode_token(m) == "full"@ ==> m == StudyMode::Full,
        study_mode_token(m) == "simple"@ || study_mode_token(m) == "full"@,
{
    reveal_strlit("simple");
    reveal_strlit("full");
    assert("simple"@.len() == 6);
    assert("full"@.len() == 4);
}

/// One reopened reading pane. `verse` is the first visible verse so a session
/// reopens mid-chapter; `None` = top of the chapter, and history entries never
/// carry it.
#[derive(Debug, Clone, PartialEq, Eq)]
pub struct PaneRef {
    pub book: String,
    pub chapter: u16,
    pub verse: Option<u16>,
    /// The text this pane reads, as a language code; empty = the reader's own.
    pub lang: String,
}

/// A pane as plain values: book, chapter, first visible verse, text language.
pub type PaneModel = (Seq<char>, u16, Option<u16>, Seq<char>);

impl View for PaneRef {
    type V = PaneModel;

    open spec fn view(&self) -> PaneModel {
        (self.book@, self.chapter, self.verse, self.lang@)
    }
}

/// The views of a run of panes.
pub open spec fn panes_view(ps: Seq<PaneRef>) -> Seq<PaneModel> {
    ps.map_values(|p: PaneRef| p@)
}

/// The reader's home church, carried in a shared link. Every part is optional;
/// an empty name means "not set".
#[derive(Debug, Clone, PartialEq, Eq)]
pub struct Church {
    pub name: String,
    /// When they meet, in minutes since local midnight.
    pub service: Option<u16>,
    pub url: String,
}

impl View for Church {
    type V = (Seq<char>, Option<u16>, Seq<char>);

    open spec fn view(&self) -> (Seq<char>, Option<u16>, Seq<char>) {
        (self.name@, self.service, self.url@)
    }
}

impl Default for Church {
    fn default() -> (r: Church)
        ensures
            r@ == (Seq::<char>::empty(), None::<u16>, Seq::<char>::empty()),
    {
        Church { name: String::new(), service: None, url: String::new() }
    }
}

impl Church {
    /// Nothing to show or share.
    pub fn is_empty(&self) -> (r: bool)
        ensures
            r == (trim(self.name@).len() == 0),
    {
        is_blank(self.name.as_str())
    }
}


// ── the persisted settings ───────────────────────────────────────────────────

/// A verse copy-shape token accepted for the default copy style.
pub open spec fn is_copy_style(s: Seq<char>) -> bool {
    s == "verse"@ || s == "verseRef"@ || s == "verseMarkdown"@
}

/// The most reading-history entries kept (persisted and returned).
pub const HISTORY_CAP: usize = 50;

/// Minutes in a day: a service time at or past it is corrupt.
pub const DAY_MINUTES: u32 = 1440;

/// The settings as the file holds them, every additive key optional: what a
/// shell hands over after reading the JSON, and what it writes back.
pub struct SettingsWire {
    pub study_mode: String,
    pub open_panes: Vec<PaneRef>,
    pub active_pane: usize,
    /// Where the reader was, per seating, keyed by slot token.
    pub slots: Vec<(String, PaneRef)>,
    pub sunday_service: Option<u32>,
    pub bible_reads: i64,
    pub bible_reads_credited: bool,
    pub verse_per_line: bool,
    pub page_turn: bool,
    pub verse_numbers: bool,
    pub added_italics: bool,
    pub text_font: String,
    pub chrome_font: String,
    pub copy_style: String,
    pub history: Vec<PaneRef>,
    pub human_analysis: Option<bool>,
    pub machine_analysis: Option<bool>,
    pub church: Option<Church>,
    pub present_shares_as_new: Option<bool>,
    pub localized_lexicon_off: Option<bool>,
    pub akjv_overlay: Option<bool>,
    pub intro: Option<String>,
    pub devotional_seeded: Option<bool>,
    pub language: Option<String>,
    pub concept_study: Option<String>,
    pub gospel_thread: Option<String>,
}

/// [`SettingsWire`] as plain values.
pub struct WireModel {
    pub study_mode: Seq<char>,
    pub open_panes: Seq<PaneModel>,
    pub active_pane: usize,
    pub slots: Seq<(Seq<char>, PaneModel)>,
    pub sunday_service: Option<u32>,
    pub bible_reads: i64,
    pub bible_reads_credited: bool,
    pub verse_per_line: bool,
    pub page_turn: bool,
    pub verse_numbers: bool,
    pub added_italics: bool,
    pub text_font: Seq<char>,
    pub chrome_font: Seq<char>,
    pub copy_style: Seq<char>,
    pub history: Seq<PaneModel>,
    pub human_analysis: Option<bool>,
    pub machine_analysis: Option<bool>,
    pub church: Option<(Seq<char>, Option<u16>, Seq<char>)>,
    pub present_shares_as_new: Option<bool>,
    pub localized_lexicon_off: Option<bool>,
    pub akjv_overlay: Option<bool>,
    pub intro: Option<Seq<char>>,
    pub devotional_seeded: Option<bool>,
    pub language: Option<Seq<char>>,
    pub concept_study: Option<Seq<char>>,
    pub gospel_thread: Option<Seq<char>>,
}

/// The saved slots' names strictly increase, as the keys of a sorted map
/// with no name twice.
pub open spec fn slots_ordered(slots: Seq<(Seq<char>, PaneModel)>) -> bool {
    forall|i: int, j: int| 0 <= i < j < slots.len() ==> crate::akjv::chars_lt(#[trigger] slots[i].0, #[trigger] slots[j].0)
}

/// The views of the slot entries.
pub open spec fn slots_view(es: Seq<(String, PaneRef)>) -> Seq<(Seq<char>, PaneModel)> {
    es.map_values(|e: (String, PaneRef)| (e.0@, e.1@))
}

/// The view of an optional string.
pub open spec fn opt_view(o: Option<String>) -> Option<Seq<char>> {
    match o {
        Some(s) => Some(s@),
        None => None,
    }
}

impl View for SettingsWire {
    type V = WireModel;

    open spec fn view(&self) -> WireModel {
        WireModel {
            study_mode: self.study_mode@,
            open_panes: panes_view(self.open_panes@),
            active_pane: self.active_pane,
            slots: slots_view(self.slots@),
            sunday_service: self.sunday_service,
            bible_reads: self.bible_reads,
            bible_reads_credited: self.bible_reads_credited,
            verse_per_line: self.verse_per_line,
            page_turn: self.page_turn,
            verse_numbers: self.verse_numbers,
            added_italics: self.added_italics,
            text_font: self.text_font@,
            chrome_font: self.chrome_font@,
            copy_style: self.copy_style@,
            history: panes_view(self.history@),
            human_analysis: self.human_analysis,
            machine_analysis: self.machine_analysis,
            church: match self.church {
                Some(c) => Some(c@),
                None => None,
            },
            present_shares_as_new: self.present_shares_as_new,
            localized_lexicon_off: self.localized_lexicon_off,
            akjv_overlay: self.akjv_overlay,
            intro: opt_view(self.intro),
            devotional_seeded: self.devotional_seeded,
            language: opt_view(self.language),
            concept_study: opt_view(self.concept_study),
            gospel_thread: opt_view(self.gospel_thread),
        }
    }
}

/// The loaded settings, every value in range. The typographic sizes and the
/// colour theme travel beside them.
pub struct Settings {
    pub mode: StudyMode,
    /// The reading panes from the last session; empty means the default passage.
    pub panes: Vec<PaneRef>,
    /// Which pane was active last session.
    pub active: usize,
    /// Where the reader was, per seating, keyed by slot token.
    pub slots: Vec<(String, PaneRef)>,
    /// Lifetime reads of the whole Bible; `-1` means never said.
    pub bible_reads: i64,
    /// Whether the current full-canon state has been counted.
    pub bible_reads_credited: bool,
    pub verse_per_line: bool,
    pub page_turn: bool,
    pub verse_numbers: bool,
    pub added_italics: bool,
    /// The face scripture is painted in.
    pub text_font: Font,
    /// The face the app's own chrome is painted in.
    pub chrome_font: Font,
    /// Default one-tap copy shape, a verse copy-kind token.
    pub copy_style: String,
    /// Reading history, most recent first, at most [`HISTORY_CAP`] long.
    pub history: Vec<PaneRef>,
    pub human_analysis: bool,
    pub machine_analysis: bool,
    pub church: Church,
    /// Sunday service start, minutes since local midnight.
    pub sunday_service: Option<u32>,
    pub present_shares_as_new: bool,
    pub akjv_overlay: bool,
    /// Which welcome this reader was given (`new` or `curious`), empty for none.
    pub intro: String,
    pub devotional_seeded: bool,
    /// The reader's language code; empty means follow the device.
    pub language: String,
    /// The id of the running concept-study plan, empty in normal reading.
    pub concept_study: String,
    /// Which thread "share the gospel" opens; empty means the default.
    pub gospel_thread: String,
    pub localized_lexicon_off: bool,
}

/// [`Settings`] as plain values.
pub struct SettingsModel {
    pub mode: StudyMode,
    pub panes: Seq<PaneModel>,
    pub active: usize,
    pub slots: Seq<(Seq<char>, PaneModel)>,
    pub bible_reads: i64,
    pub bible_reads_credited: bool,
    pub verse_per_line: bool,
    pub page_turn: bool,
    pub verse_numbers: bool,
    pub added_italics: bool,
    pub text_font: Font,
    pub chrome_font: Font,
    pub copy_style: Seq<char>,
    pub history: Seq<PaneModel>,
    pub human_analysis: bool,
    pub machine_analysis: bool,
    pub church: (Seq<char>, Option<u16>, Seq<char>),
    pub sunday_service: Option<u32>,
    pub present_shares_as_new: bool,
    pub akjv_overlay: bool,
    pub intro: Seq<char>,
    pub devotional_seeded: bool,
    pub language: Seq<char>,
    pub concept_study: Seq<char>,
    pub gospel_thread: Seq<char>,
    pub localized_lexicon_off: bool,
}

impl View for Settings {
    type V = SettingsModel;

    open spec fn view(&self) -> SettingsModel {
        SettingsModel {
            mode: self.mode,
            panes: panes_view(self.panes@),
            active: self.active,
            slots: slots_view(self.slots@),
            bible_reads: self.bible_reads,
            bible_reads_credited: self.bible_reads_credited,
            verse_per_line: self.verse_per_line,
            page_turn: self.page_turn,
            verse_numbers: self.verse_numbers,
            added_italics: self.added_italics,
            text_font: self.text_font,
            chrome_font: self.chrome_font,
            copy_style: self.copy_style@,
            history: panes_view(self.history@),
            human_analysis: self.human_analysis,
            machine_analysis: self.machine_analysis,
            church: self.church@,
            sunday_service: self.sunday_service,
            present_shares_as_new: self.present_shares_as_new,
            akjv_overlay: self.akjv_overlay,
            intro: self.intro@,
            devotional_seeded: self.devotional_seeded,
            language: self.language@,
            concept_study: self.concept_study@,
            gospel_thread: self.gospel_thread@,
            localized_lexicon_off: self.localized_lexicon_off,
        }
    }
}

/// The mode a token names, `Simple` for anything else.
pub open spec fn mode_of(t: Seq<char>) -> StudyMode {
    if t == "full"@ {
        StudyMode::Full
    } else {
        StudyMode::Simple
    }
}

/// A stored pane brought into range: chapter at least 1, a verse only when it
/// is at least 1.
pub open spec fn norm_pane(p: PaneModel) -> PaneModel {
    (
        p.0,
        if p.1 >= 1 {
            p.1
        } else {
            1
        },
        match p.2 {
            Some(v) => if v >= 1 {
                Some(v)
            } else {
                None
            },
            None => None,
        },
        p.3,
    )
}

/// A history entry: a place, not a pane, so no verse and no language.
pub open spec fn history_entry(p: PaneModel) -> PaneModel {
    (
        p.0,
        if p.1 >= 1 {
            p.1
        } else {
            1
        },
        None,
        Seq::empty(),
    )
}

/// At most the first [`HISTORY_CAP`] entries of `h`.
pub open spec fn capped(h: Seq<PaneModel>) -> Seq<PaneModel> {
    if h.len() <= HISTORY_CAP {
        h
    } else {
        h.take(HISTORY_CAP as int)
    }
}

/// A minute of the day, or nothing when out of range.
pub open spec fn day_minute(m: Option<u32>) -> Option<u32> {
    match m {
        Some(x) => if x < DAY_MINUTES {
            Some(x)
        } else {
            None
        },
        None => None,
    }
}

/// A service minute of the day, or nothing when out of range.
pub open spec fn service_minute(m: Option<u16>) -> Option<u16> {
    match m {
        Some(x) => if x < DAY_MINUTES {
            Some(x)
        } else {
            None
        },
        None => None,
    }
}

/// A face token, the default face for anything this build does not ship.
pub open spec fn face_of(t: Seq<char>) -> Font {
    match font_of(t) {
        Some(f) => f,
        None => Font::EbGaramond,
    }
}

/// An optional text trimmed, empty when absent.
pub open spec fn trimmed_or_empty(o: Option<Seq<char>>) -> Seq<char> {
    match o {
        Some(s) => trim(s),
        None => Seq::empty(),
    }
}

/// What a loaded file becomes: every value brought into range, every absent
/// key its default.
pub open spec fn settings_from(w: WireModel) -> SettingsModel {
    let n = w.open_panes.len();
    SettingsModel {
        mode: mode_of(w.study_mode),
        panes: w.open_panes.map_values(|p: PaneModel| norm_pane(p)),
        active: if n == 0 {
            0
        } else if w.active_pane < n - 1 {
            w.active_pane
        } else {
            (n - 1) as usize
        },
        slots: w.slots.map_values(|e: (Seq<char>, PaneModel)| (e.0, norm_pane(e.1))),
        bible_reads: w.bible_reads,
        bible_reads_credited: w.bible_reads_credited,
        verse_per_line: w.verse_per_line,
        page_turn: w.page_turn,
        verse_numbers: w.verse_numbers,
        added_italics: w.added_italics,
        text_font: face_of(w.text_font),
        chrome_font: face_of(w.chrome_font),
        copy_style: if is_copy_style(w.copy_style) {
            w.copy_style
        } else {
            "verseRef"@
        },
        history: capped(w.history).map_values(|p: PaneModel| history_entry(p)),
        human_analysis: w.human_analysis == Some(true),
        machine_analysis: w.machine_analysis == Some(true),
        church: match w.church {
            Some(c) => (trim(c.0), service_minute(c.1), trim(c.2)),
            None => (Seq::empty(), None, Seq::empty()),
        },
        sunday_service: day_minute(w.sunday_service),
        present_shares_as_new: w.present_shares_as_new != Some(false),
        akjv_overlay: w.akjv_overlay == Some(true),
        intro: match w.intro {
            Some(s) => if s == "new"@ {
                "new"@
            } else if s == "curious"@ {
                "curious"@
            } else {
                Seq::empty()
            },
            None => Seq::empty(),
        },
        devotional_seeded: w.devotional_seeded == Some(true),
        language: match w.language {
            Some(c) => if crate::i18n::lang_with_code(c) is Some {
                c
            } else {
                Seq::empty()
            },
            None => Seq::empty(),
        },
        concept_study: trimmed_or_empty(w.concept_study),
        gospel_thread: trimmed_or_empty(w.gospel_thread),
        localized_lexicon_off: w.localized_lexicon_off == Some(true),
    }
}

/// A text key written only when it is not empty.
pub open spec fn unless_empty(s: Seq<char>) -> Option<Seq<char>> {
    if s.len() == 0 {
        None
    } else {
        Some(s)
    }
}

/// What a save writes: default-valued additive keys stay off the file.
pub open spec fn wire_of(s: SettingsModel) -> WireModel {
    WireModel {
        study_mode: study_mode_token(s.mode),
        open_panes: s.panes,
        active_pane: s.active,
        slots: s.slots,
        sunday_service: s.sunday_service,
        bible_reads: s.bible_reads,
        bible_reads_credited: s.bible_reads_credited,
        verse_per_line: s.verse_per_line,
        page_turn: s.page_turn,
        verse_numbers: s.verse_numbers,
        added_italics: s.added_italics,
        text_font: font_token(s.text_font),
        chrome_font: font_token(s.chrome_font),
        copy_style: s.copy_style,
        history: capped(s.history).map_values(|p: PaneModel| (p.0, p.1, None::<u16>, Seq::<char>::empty())),
        human_analysis: Some(s.human_analysis),
        machine_analysis: Some(s.machine_analysis),
        church: if trim(s.church.0).len() == 0 {
            None
        } else {
            Some(s.church)
        },
        present_shares_as_new: Some(s.present_shares_as_new),
        localized_lexicon_off: Some(s.localized_lexicon_off),
        akjv_overlay: Some(s.akjv_overlay),
        intro: unless_empty(s.intro),
        devotional_seeded: if s.devotional_seeded {
            Some(true)
        } else {
            None
        },
        language: unless_empty(s.language),
        concept_study: unless_empty(s.concept_study),
        gospel_thread: unless_empty(s.gospel_thread),
    }
}

proof fn lemma_mode_round_trip(m: StudyMode)
    ensures
        mode_of(study_mode_token(m)) == m,
{
    reveal_strlit("simple");
    reveal_strlit("full");
    assert("simple"@.len() == 6);
    assert("full"@.len() == 4);
}

proof fn lemma_panes_stable(ps: Seq<PaneModel>)
    ensures
        ps.map_values(|p: PaneModel| norm_pane(p)).map_values(|p: PaneModel| norm_pane(p))
            =~= ps.map_values(|p: PaneModel| norm_pane(p)),
{
}

proof fn lemma_slots_stable(es: Seq<(Seq<char>, PaneModel)>)
    ensures
        ({
            let once = es.map_values(|e: (Seq<char>, PaneModel)| (e.0, norm_pane(e.1)));
            once.map_values(|e: (Seq<char>, PaneModel)| (e.0, norm_pane(e.1))) =~= once
        }),
{
}

proof fn lemma_history_stable(h: Seq<PaneModel>)
    ensures
        ({
            let once = capped(h).map_values(|p: PaneModel| history_entry(p));
            let written = capped(once).map_values(
                |p: PaneModel| (p.0, p.1, None::<u16>, Seq::<char>::empty()),
            );
            capped(written).map_values(|p: PaneModel| history_entry(p)) =~= once
        }),
{
    let once = capped(h).map_values(|p: PaneModel| history_entry(p));
    assert(once.len() <= HISTORY_CAP);
    assert(capped(once) == once);
    let written = once.map_values(|p: PaneModel| (p.0, p.1, None::<u16>, Seq::<char>::empty()));
    assert(written.len() <= HISTORY_CAP);
    assert(capped(written) == written);
}

proof fn lemma_intro_stable(o: Option<Seq<char>>)
    ensures
        ({
            let once = match o {
                Some(s) => if s == "new"@ {
                    "new"@
                } else if s == "curious"@ {
                    "curious"@
                } else {
                    Seq::empty()
                },
                None => Seq::empty(),
            };
            let again = match unless_empty(once) {
                Some(s) => if s == "new"@ {
                    "new"@
                } else if s == "curious"@ {
                    "curious"@
                } else {
                    Seq::empty()
                },
                None => Seq::empty(),
            };
            again == once
        }),
{
    reveal_strlit("new");
    reveal_strlit("curious");
    assert("new"@.len() == 3);
    assert("curious"@.len() == 7);
}

proof fn lemma_language_stable(o: Option<Seq<char>>)
    ensures
        ({
            let once = match o {
                Some(c) => if crate::i18n::lang_with_code(c) is Some {
                    c
                } else {
                    Seq::empty()
                },
                None => Seq::empty(),
            };
            let again = match unless_empty(once) {
                Some(c) => if crate::i18n::lang_with_code(c) is Some {
                    c
                } else {
                    Seq::empty()
                },
                None => Seq::empty(),
            };
            again == once
        }),
{
    reveal_strlit("en");
    reveal_strlit("de");
    reveal_strlit("es");
    reveal_strlit("ar");
    reveal_strlit("pa");
    reveal_strlit("hi");
    reveal_strlit("fr");
    reveal_strlit("zht");
    reveal_strlit("zhs");
}

proof fn lemma_trimmed_stable(o: Option<Seq<char>>)
    ensures
        trimmed_or_empty(unless_empty(trimmed_or_empty(o))) == trimmed_or_empty(o),
{
    match o {
        Some(x) => {
            crate::text::lemma_trim_idempotent(x);
            if trim(x).len() == 0 {
                assert(trim(x) =~= Seq::<char>::empty());
            }
        },
        None => {},
    }
}

proof fn lemma_church_stable(o: Option<(Seq<char>, Option<u16>, Seq<char>)>)
    requires
        !(o matches Some(c) && trim(c.0).len() == 0 && (service_minute(c.1) is Some || trim(
            c.2,
        ).len() > 0)),
    ensures
        ({
            let once = match o {
                Some(c) => (trim(c.0), service_minute(c.1), trim(c.2)),
                None => (Seq::empty(), None, Seq::empty()),
            };
            let written = if trim(once.0).len() == 0 {
                None
            } else {
                Some(once)
            };
            let again = match written {
                Some(c) => (trim(c.0), service_minute(c.1), trim(c.2)),
                None => (Seq::empty(), None, Seq::empty()),
            };
            again == once
        }),
{
    match o {
        Some(c) => {
            crate::text::lemma_trim_idempotent(c.0);
            crate::text::lemma_trim_idempotent(c.2);
            if trim(c.0).len() == 0 {
                assert(trim(c.0) =~= Seq::<char>::empty());
                assert(trim(c.2) =~= Seq::<char>::empty());
            }
        },
        None => {},
    }
}

/// A loaded config saves and loads back unchanged: writing the settings a
/// file loaded to, then loading what was written, gives the same settings.
/// The one exception is a church with no name but a service time or a link:
/// a nameless church is not written, so those parts do not come back.
#[verifier::rlimit(40)]
pub proof fn lemma_settings_round_trip(w: WireModel)
    requires
        !(w.church matches Some(c) && trim(c.0).len() == 0 && (service_minute(c.1) is Some
            || trim(c.2).len() > 0)),
    ensures
        settings_from(wire_of(settings_from(w))) == settings_from(w),
{
    let s = settings_from(w);
    let w2 = wire_of(s);
    let s2 = settings_from(w2);
    lemma_mode_round_trip(s.mode);
    crate::font::lemma_font_token_round_trip(s.text_font);
    crate::font::lemma_font_token_round_trip(s.chrome_font);
    lemma_panes_stable(w.open_panes);
    lemma_slots_stable(w.slots);
    lemma_history_stable(w.history);
    lemma_intro_stable(w.intro);
    lemma_language_stable(w.language);
    lemma_trimmed_stable(w.concept_study);
    lemma_trimmed_stable(w.gospel_thread);
    lemma_church_stable(w.church);
    assert(s2.mode == s.mode);
    assert(s2.panes == s.panes);
    assert(s2.active == s.active);
    assert(s2.slots == s.slots);
    assert(s2.history == s.history);
    assert(s2.church == s.church);
    assert(s2.copy_style == s.copy_style);
    assert(s2.intro == s.intro);
    assert(s2.language == s.language);
    assert(s2.concept_study == s.concept_study);
    assert(s2.gospel_thread == s.gospel_thread);
    assert(s2.text_font == s.text_font);
    assert(s2.chrome_font == s.chrome_font);
}

// ── loading and saving ───────────────────────────────────────────────────────

/// A fresh copy of a pane.
fn copy_pane(p: &PaneRef) -> (r: PaneRef)
    ensures
        r@ == p@,
{
    PaneRef { book: string_from(p.book.as_str()), chapter: p.chapter, verse: p.verse, lang: string_from(p.lang.as_str()) }
}

/// A stored pane brought into range (see [`norm_pane`]).
fn normalized_pane(p: &PaneRef) -> (r: PaneRef)
    ensures
        r@ == norm_pane(p@),
{
    PaneRef {
        book: string_from(p.book.as_str()),
        chapter: if p.chapter >= 1 {
            p.chapter
        } else {
            1
        },
        verse: match p.verse {
            Some(v) => if v >= 1 {
                Some(v)
            } else {
                None
            },
            None => None,
        },
        lang: string_from(p.lang.as_str()),
    }
}

/// Every pane of `ps` brought into range.
fn normalized_panes(ps: &Vec<PaneRef>) -> (r: Vec<PaneRef>)
    ensures
        panes_view(r@) == panes_view(ps@).map_values(|p: PaneModel| norm_pane(p)),
{
    let mut out: Vec<PaneRef> = Vec::new();
    let mut i: usize = 0;
    while i < ps.len()
        invariant
            i <= ps@.len(),
            out@.len() == i,
            forall|k: int| 0 <= k < i ==> #[trigger] out@[k]@ == norm_pane(ps@[k]@),
        decreases ps@.len() - i,
    {
        out.push(normalized_pane(&ps[i]));
        i = i + 1;
    }
    assert(panes_view(out@) =~= panes_view(ps@).map_values(|p: PaneModel| norm_pane(p)));
    out
}

/// A fresh copy of a run of panes.
fn copied_panes(ps: &Vec<PaneRef>) -> (r: Vec<PaneRef>)
    ensures
        panes_view(r@) == panes_view(ps@),
{
    let mut out: Vec<PaneRef> = Vec::new();
    let mut i: usize = 0;
    while i < ps.len()
        invariant
            i <= ps@.len(),
            out@.len() == i,
            forall|k: int| 0 <= k < i ==> #[trigger] out@[k]@ == ps@[k]@,
        decreases ps@.len() - i,
    {
        out.push(copy_pane(&ps[i]));
        i = i + 1;
    }
    assert(panes_view(out@) =~= panes_view(ps@));
    out
}

/// Every slot's pane brought into range, keys kept.
fn normalized_slots(es: &Vec<(String, PaneRef)>) -> (r: Vec<(String, PaneRef)>)
    ensures
        slots_view(r@) == slots_view(es@).map_values(
            |e: (Seq<char>, PaneModel)| (e.0, norm_pane(e.1)),
        ),
{
    let mut out: Vec<(String, PaneRef)> = Vec::new();
    let mut i: usize = 0;
    while i < es.len()
        invariant
            i <= es@.len(),
            out@.len() == i,
            forall|k: int|
                0 <= k < i ==> #[trigger] out@[k].0@ == es@[k].0@ && out@[k].1@ == norm_pane(
                    es@[k].1@,
                ),
        decreases es@.len() - i,
    {
        let e = &es[i];
        out.push((string_from(e.0.as_str()), normalized_pane(&e.1)));
        i = i + 1;
    }
    assert(slots_view(out@) =~= slots_view(es@).map_values(
        |e: (Seq<char>, PaneModel)| (e.0, norm_pane(e.1)),
    ));
    out
}

/// A fresh copy of the slot entries.
fn copied_slots(es: &Vec<(String, PaneRef)>) -> (r: Vec<(String, PaneRef)>)
    ensures
        slots_view(r@) == slots_view(es@),
{
    let mut out: Vec<(String, PaneRef)> = Vec::new();
    let mut i: usize = 0;
    while i < es.len()
        invariant
            i <= es@.len(),
            out@.len() == i,
            forall|k: int| 0 <= k < i ==> #[trigger] out@[k].0@ == es@[k].0@ && out@[k].1@ == es@[k].1@,
        decreases es@.len() - i,
    {
        let e = &es[i];
        out.push((string_from(e.0.as_str()), copy_pane(&e.1)));
        i = i + 1;
    }
    assert(slots_view(out@) =~= slots_view(es@));
    out
}

/// The first [`HISTORY_CAP`] entries of `h` as places: `norm` brings the
/// chapter into range, and neither verse nor language is kept.
fn history_of(h: &Vec<PaneRef>, norm: bool) -> (r: Vec<PaneRef>)
    ensures
        panes_view(r@) == capped(panes_view(h@)).map_values(
            |p: PaneModel|
                if norm {
                    history_entry(p)
                } else {
                    (p.0, p.1, None::<u16>, Seq::<char>::empty())
                },
        ),
{
    let n = if h.len() <= HISTORY_CAP {
        h.len()
    } else {
        HISTORY_CAP
    };
    let mut out: Vec<PaneRef> = Vec::new();
    let mut i: usize = 0;
    while i < n
        invariant
            i <= n <= h@.len(),
            n == (if h@.len() <= HISTORY_CAP { h@.len() } else { HISTORY_CAP as nat }),
            out@.len() == i,
            forall|k: int|
                0 <= k < i ==> #[trigger] out@[k]@ == (if norm {
                    history_entry(h@[k]@)
                } else {
                    (h@[k].book@, h@[k].chapter, None::<u16>, Seq::<char>::empty())
                }),
        decreases n - i,
    {
        let p = &h[i];
        let chapter = if norm && p.chapter < 1 {
            1
        } else {
            p.chapter
        };
        out.push(PaneRef { book: string_from(p.book.as_str()), chapter, verse: None, lang: String::new() });
        i = i + 1;
    }
    assert(panes_view(out@) =~= capped(panes_view(h@)).map_values(
        |p: PaneModel|
            if norm {
                history_entry(p)
            } else {
                (p.0, p.1, None::<u16>, Seq::<char>::empty())
            },
    ));
    out
}

/// An optional text trimmed, empty when absent.
fn trimmed_opt(o: &Option<String>) -> (r: String)
    ensures
        r@ == trimmed_or_empty(opt_view(*o)),
{
    match o {
        Some(s) => trimmed(s.as_str()),
        None => String::new(),
    }
}

/// A text written only when it is not empty.
fn written_unless_empty(s: &String) -> (r: Option<String>)
    ensures
        opt_view(r) == unless_empty(s@),
{
    if crate::text::is_empty_str(s.as_str()) {
        None
    } else {
        Some(string_from(s.as_str()))
    }
}

impl Settings {
    /// The settings of a file that holds nothing: every key its default.
    pub fn defaults() -> (r: Settings)
        ensures
            r@ == settings_from(WireModel {
                study_mode: "simple"@,
                open_panes: Seq::empty(),
                active_pane: 0,
                slots: Seq::empty(),
                sunday_service: None,
                bible_reads: -1i64,
                bible_reads_credited: false,
                verse_per_line: false,
                page_turn: false,
                verse_numbers: true,
                added_italics: true,
                text_font: "eb-garamond"@,
                chrome_font: "eb-garamond"@,
                copy_style: "verseRef"@,
                history: Seq::empty(),
                human_analysis: None,
                machine_analysis: None,
                church: None,
                present_shares_as_new: None,
                localized_lexicon_off: None,
                akjv_overlay: None,
                intro: None,
                devotional_seeded: None,
                language: None,
                concept_study: None,
                gospel_thread: None,
            }),
    {
        let w = SettingsWire {
            study_mode: string_from("simple"),
            open_panes: Vec::new(),
            active_pane: 0,
            slots: Vec::new(),
            sunday_service: None,
            bible_reads: -1,
            bible_reads_credited: false,
            verse_per_line: false,
            page_turn: false,
            verse_numbers: true,
            added_italics: true,
            text_font: string_from("eb-garamond"),
            chrome_font: string_from("eb-garamond"),
            copy_style: string_from("verseRef"),
            history: Vec::new(),
            human_analysis: None,
            machine_analysis: None,
            church: None,
            present_shares_as_new: None,
            localized_lexicon_off: None,
            akjv_overlay: None,
            intro: None,
            devotional_seeded: None,
            language: None,
            concept_study: None,
            gospel_thread: None,
        };
        assert(panes_view(w.open_panes@) =~= Seq::empty());
        assert(panes_view(w.history@) =~= Seq::empty());
        assert(slots_view(w.slots@) =~= Seq::empty());
        Settings::from_wire(&w)
    }

    /// What a loaded file becomes (see [`settings_from`]).
    pub fn from_wire(w: &SettingsWire) -> (r: Settings)
        ensures
            r@ == settings_from(w@),
            slots_ordered(w@.slots) ==> slots_ordered(r@.slots),
    {
        let n = w.open_panes.len();
        let mode = if crate::text::str_eq(w.study_mode.as_str(), "full") {
            StudyMode::Full
        } else {
            StudyMode::Simple
        };
        let panes = normalized_panes(&w.open_panes);
        let active = if n == 0 {
            0
        } else if w.active_pane < n - 1 {
            w.active_pane
        } else {
            n - 1
        };
        let copy_style = if crate::text::str_eq(w.copy_style.as_str(), "verse")
            || crate::text::str_eq(w.copy_style.as_str(), "verseRef") || crate::text::str_eq(
            w.copy_style.as_str(),
            "verseMarkdown",
        ) {
            string_from(w.copy_style.as_str())
        } else {
            string_from("verseRef")
        };
        let church = match &w.church {
            Some(c) => Church {
                name: trimmed(c.name.as_str()),
                service: match c.service {
                    Some(m) => if (m as u32) < DAY_MINUTES {
                        Some(m)
                    } else {
                        None
                    },
                    None => None,
                },
                url: trimmed(c.url.as_str()),
            },
            None => Church::default(),
        };
        let intro = match &w.intro {
            Some(s) => if crate::text::str_eq(s.as_str(), "new") {
                string_from("new")
            } else if crate::text::str_eq(s.as_str(), "curious") {
                string_from("curious")
            } else {
                String::new()
            },
            None => String::new(),
        };
        let language = match &w.language {
            Some(c) => if crate::i18n::code_lang(c.as_str()).is_some() {
                string_from(c.as_str())
            } else {
                String::new()
            },
            None => String::new(),
        };
        let r = Settings {
            mode,
            panes,
            active,
            slots: normalized_slots(&w.slots),
            bible_reads: w.bible_reads,
            bible_reads_credited: w.bible_reads_credited,
            verse_per_line: w.verse_per_line,
            page_turn: w.page_turn,
            verse_numbers: w.verse_numbers,
            added_italics: w.added_italics,
            text_font: match Font::parse(w.text_font.as_str()) {
                Some(f) => f,
                None => Font::EbGaramond,
            },
            chrome_font: match Font::parse(w.chrome_font.as_str()) {
                Some(f) => f,
                None => Font::EbGaramond,
            },
            copy_style,
            history: history_of(&w.history, true),
            human_analysis: w.human_analysis == Some(true),
            machine_analysis: w.machine_analysis == Some(true),
            church,
            sunday_service: match w.sunday_service {
                Some(m) => if m < DAY_MINUTES {
                    Some(m)
                } else {
                    None
                },
                None => None,
            },
            present_shares_as_new: w.present_shares_as_new != Some(false),
            akjv_overlay: w.akjv_overlay == Some(true),
            intro,
            devotional_seeded: w.devotional_seeded == Some(true),
            language,
            concept_study: trimmed_opt(&w.concept_study),
            gospel_thread: trimmed_opt(&w.gospel_thread),
            localized_lexicon_off: w.localized_lexicon_off == Some(true),
        };
        proof {
            let h = |p: PaneModel| history_entry(p);
            assert(r@.history == capped(w@.history).map_values(h));
        }
        r
    }

    /// What a save writes (see [`wire_of`]).
    pub fn to_wire(&self) -> (r: SettingsWire)
        ensures
            r@ == wire_of(self@),
            slots_ordered(self@.slots) ==> slots_ordered(r@.slots),
    {
        let history = history_of(&self.history, false);
        assert(panes_view(history@) =~= capped(self@.history).map_values(
            |p: PaneModel| (p.0, p.1, None::<u16>, Seq::<char>::empty()),
        ));
        SettingsWire {
            study_mode: string_from(self.mode.token()),
            open_panes: copied_panes(&self.panes),
            active_pane: self.active,
            slots: copied_slots(&self.slots),
            sunday_service: self.sunday_service,
            bible_reads: self.bible_reads,
            bible_reads_credited: self.bible_reads_credited,
            verse_per_line: self.verse_per_line,
            page_turn: self.page_turn,
            verse_numbers: self.verse_numbers,
            added_italics: self.added_italics,
            text_font: string_from(self.text_font.token()),
            chrome_font: string_from(self.chrome_font.token()),
            copy_style: string_from(self.copy_style.as_str()),
            history,
            human_analysis: Some(self.human_analysis),
            machine_analysis: Some(self.machine_analysis),
            church: if self.church.is_empty() {
                None
            } else {
                Some(
                    Church {
                        name: string_from(self.church.name.as_str()),
                        service: self.church.service,
                        url: string_from(self.church.url.as_str()),
                    },
                )
            },
            present_shares_as_new: Some(self.present_shares_as_new),
            localized_lexicon_off: Some(self.localized_lexicon_off),
            akjv_overlay: Some(self.akjv_overlay),
            intro: written_unless_empty(&self.intro),
            devotional_seeded: if self.devotional_seeded {
                Some(true)
            } else {
                None
            },
            language: written_unless_empty(&self.language),
            concept_study: written_unless_empty(&self.concept_study),
            gospel_thread: written_unless_empty(&self.gospel_thread),
        }
    }
}

} // verus!

verus! {

/// Whether the `i`-th pane of a save keeps the unknown keys of the pane in the
/// same slot of the file it replaces: only when that slot still holds the same
/// chapter. The lists are regenerated from the shell's state, so there is no
/// identity to match on, and keys are dropped rather than attached to a
/// passage they were never about.
pub open spec fn keeps_unknown(old: Seq<(Seq<char>, u16)>, new: Seq<(Seq<char>, u16)>, i: int) -> bool {
    i < old.len() && old[i] == new[i]
}

/// The places of a list of panes: book and chapter.
pub open spec fn places_view(ps: Seq<PaneRef>) -> Seq<(Seq<char>, u16)> {
    ps.map_values(|p: PaneRef| (p.book@, p.chapter))
}

/// For each pane of a save, whether it keeps the unknown keys of the pane in
/// the same slot of the file being replaced (see [`keeps_unknown`]).
pub fn carried_panes(old: &[PaneRef], new: &[PaneRef]) -> (r: Vec<bool>)
    ensures
        r@.len() == new@.len(),
        forall|i: int| 0 <= i < new@.len() ==> #[trigger] r@[i] == keeps_unknown(places_view(old@), places_view(new@), i),
{
    let mut out: Vec<bool> = Vec::new();
    let mut i: usize = 0;
    while i < new.len()
        invariant
            i <= new@.len(),
            out@.len() == i,
            forall|j: int| 0 <= j < i ==> #[trigger] out@[j] == keeps_unknown(places_view(old@), places_view(new@), j),
        decreases new@.len() - i,
    {
        let keep = i < old.len() && old[i].chapter == new[i].chapter && str_eq(old[i].book.as_str(), new[i].book.as_str());
        proof {
            if i < old@.len() {
                assert(places_view(old@)[i as int] == (old@[i as int].book@, old@[i as int].chapter));
            }
            assert(places_view(new@)[i as int] == (new@[i as int].book@, new@[i as int].chapter));
        }
        out.push(keep);
        i = i + 1;
    }
    out
}

} // verus!

verus! {

/// ASCII white space, as `u8::is_ascii_whitespace` has it.
pub open spec fn ascii_white(b: u8) -> bool {
    b == 0x20u8 || b == 0x09u8 || b == 0x0au8 || b == 0x0cu8 || b == 0x0du8
}

/// Whether the damaged bytes of a file that would not parse are copied aside
/// before anything can be saved over them: not when they hold nothing but
/// white space (nothing to recover), and not when a rescue copy already
/// exists (the first copy is the one that still holds the reader's data).
pub open spec fn rescue_spec(bytes: Seq<u8>, rescue_exists: bool) -> bool {
    !rescue_exists && !all_white(bytes)
}

/// Whether every byte is ASCII white space.
pub open spec fn all_white(bytes: Seq<u8>) -> bool {
    forall|i: int| 0 <= i < bytes.len() ==> ascii_white(#[trigger] bytes[i])
}

/// Whether to copy a damaged file aside (see [`rescue_spec`]).
pub fn should_rescue(bytes: &[u8], rescue_exists: bool) -> (r: bool)
    ensures
        r == rescue_spec(bytes@, rescue_exists),
{
    if rescue_exists {
        return false;
    }
    let mut i: usize = 0;
    while i < bytes.len()
        invariant
            !rescue_exists,
            i <= bytes@.len(),
            forall|j: int| 0 <= j < i ==> ascii_white(#[trigger] bytes@[j]),
        decreases bytes@.len() - i,
    {
        let b = bytes[i];
        if !(b == 0x20u8 || b == 0x09u8 || b == 0x0au8 || b == 0x0cu8 || b == 0x0du8) {
            assert(!ascii_white(bytes@[i as int]));
            return true;
        }
        i = i + 1;
    }
    false
}

} // verus!
