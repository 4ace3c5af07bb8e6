//! Memorization: the grades a reader gives, the mastery buckets a card falls
//! in, the shape of a passage card, and the text drills over a verse's words
//! (first-letter prompts and progressive blank-out).
//!
//! The spaced-repetition arithmetic itself (the ease factor) is fractional and
//! lives with the shell; everything here is exact.

use vstd::prelude::*;
use vstd::string::StringSliceAdditionalSpecFns;

use vstd::utf8::encode_utf8;

use crate::church::first_where;
use crate::civil::date_window;
use crate::order::SortKey;
use crate::reference::{ref_key_spec, VRef};
use crate::text::{dec, is_white, push_char, push_chars, push_dec, push_str, white};

verus! {

/// Blank-out levels: 0 is the full text, this many masks every word.
pub const MAX_BLANK_LEVEL: u8 = 4;

/// Interval (days) at or above which a card counts as mature.
pub const MATURE_DAYS: u32 = 21;

/// A recall grade (the four review buttons), mapped to an SM-2 quality.
#[derive(Clone, Copy, Debug, PartialEq, Eq, Structural)]
pub enum Grade {
    /// Failed to recall: a lapse; the card resets to relearning.
    Again,
    /// Recalled with serious difficulty.
    Hard,
    /// Recalled correctly.
    Good,
    /// Recalled effortlessly.
    Easy,
}

/// The grade a token names.
pub open spec fn grade_of(s: Seq<char>) -> Option<Grade> {
    if s == "again"@ {
        Some(Grade::Again)
    } else if s == "hard"@ {
        Some(Grade::Hard)
    } else if s == "good"@ {
        Some(Grade::Good)
    } else if s == "easy"@ {
        Some(Grade::Easy)
    } else {
        None
    }
}

/// The SM-2 quality of a grade (below 3 is a failed recall).
pub open spec fn quality_of(g: Grade) -> u8 {
    match g {
        Grade::Again => 1,
        Grade::Hard => 3,
        Grade::Good => 4,
        Grade::Easy => 5,
    }
}

impl Grade {
    /// Parse a grade token (`again` / `hard` / `good` / `easy`).
    pub fn parse(s: &str) -> (r: Option<Grade>)
        ensures
            r == grade_of(s@),
    {
        if crate::text::str_eq(s, "again") {
            Some(Grade::Again)
        } else if crate::text::str_eq(s, "hard") {
            Some(Grade::Hard)
        } else if crate::text::str_eq(s, "good") {
            Some(Grade::Good)
        } else if crate::text::str_eq(s, "easy") {
            Some(Grade::Easy)
        } else {
            None
        }
    }

    /// SM-2 quality (below 3 is a failed recall).
    pub fn quality(self) -> (r: u8)
        ensures
            r == quality_of(self),
    {
        match self {
            Grade::Again => 1,
            Grade::Hard => 3,
            Grade::Good => 4,
            Grade::Easy => 5,
        }
    }

    /// Whether the grade is a successful recall.
    pub fn passed(self) -> (r: bool)
        ensures
            r == (quality_of(self) >= 3),
            r == (self != Grade::Again),
    {
        self.quality() >= 3
    }
}

/// The mastery bucket a card falls in: drives the coverage-map shading.
#[derive(Clone, Copy, Debug, PartialEq, Eq, Structural)]
pub enum Mastery {
    /// Never reviewed.
    New,
    /// Touched but not yet scheduled forward, or relearning after a lapse.
    Learning,
    /// Scheduled but not yet mature.
    Young,
    /// Settled into long-term memory.
    Mature,
}

/// The bucket of a card with `reviewed` (any review logged), `reps`
/// consecutive recalls and its current interval.
pub open spec fn mastery_spec(reviewed: bool, reps: u32, interval_days: u32) -> Mastery {
    if !reviewed {
        Mastery::New
    } else if reps == 0 || interval_days < 1 {
        Mastery::Learning
    } else if interval_days < MATURE_DAYS {
        Mastery::Young
    } else {
        Mastery::Mature
    }
}

/// The mastery bucket of a card (see [`mastery_spec`]).
pub fn mastery_of(reviewed: bool, reps: u32, interval_days: u32) -> (r: Mastery)
    ensures
        r == mastery_spec(reviewed, reps, interval_days),
{
    if !reviewed {
        Mastery::New
    } else if reps == 0 || interval_days < 1 {
        Mastery::Learning
    } else if interval_days < MATURE_DAYS {
        Mastery::Young
    } else {
        Mastery::Mature
    }
}

/// Whether a card due on `due` is due at `now`: on or before today. An
/// unreadable date counts as due, so a card is never lost from the queue.
pub fn due_on(due: &str, now: &str) -> (r: bool)
    ensures
        r == match (
            crate::civil::date_to_days_spec(due.spec_bytes()),
            crate::civil::date_to_days_spec(now.spec_bytes()),
        ) {
            (Some(d), Some(t)) => d <= t,
            _ => true,
        },
{
    match (crate::civil::date_to_days(due), crate::civil::date_to_days(now)) {
        (Some(d), Some(t)) => d <= t,
        _ => true,
    }
}

/// The end of a passage card starting at `start`: `through` when it is a real,
/// forward, same-chapter run, else nothing (a single-verse card).
pub open spec fn passage_end_spec(start: (Seq<char>, u16, u16), through: (Seq<char>, u16, u16)) -> Option<
    (Seq<char>, u16, u16),
> {
    if through.0 == start.0 && through.1 == start.1 && through.2 > start.2 {
        Some(through)
    } else {
        None
    }
}

/// The normalized end of a passage card (see [`passage_end_spec`]).
pub fn passage_end(start: &VRef, through: &VRef) -> (r: Option<VRef>)
    ensures
        match passage_end_spec(start@, through@) {
            Some(t) => r matches Some(x) && x@ == t,
            None => r is None,
        },
{
    if crate::text::str_eq(through.book.as_str(), start.book.as_str()) && through.chapter == start.chapter
        && through.verse > start.verse {
        Some(VRef::new(through.book.as_str(), through.chapter, through.verse))
    } else {
        None
    }
}

/// Every verse a card starting at `start` covers, in order: the whole
/// inclusive run up to the end verse `through`, or the start alone.
pub fn card_verses(start: &VRef, through: Option<u16>) -> (r: Vec<VRef>)
    ensures
        match through {
            Some(end) => r@.len() == (if end >= start.verse {
                end - start.verse + 1
            } else {
                0
            }) && forall|i: int|
                0 <= i < r@.len() ==> #[trigger] r@[i]@ == (start.book@, start.chapter, (start.verse
                    + i) as u16),
            None => r@.len() == 1 && r@[0]@ == start@,
        },
{
    match through {
        Some(end) => {
            let mut out: Vec<VRef> = Vec::new();
            let mut v: u32 = start.verse as u32;
            while v <= end as u32
                invariant
                    start.verse <= v <= end as u32 + 1 || (v == start.verse && end < start.verse),
                    out@.len() == v - start.verse,
                    forall|i: int|
                        0 <= i < out@.len() ==> #[trigger] out@[i]@ == (start.book@, start.chapter, (
                        start.verse + i) as u16),
                decreases end as u32 + 1 - v,
            {
                out.push(VRef::new(start.book.as_str(), start.chapter, v as u16));
                v = v + 1;
            }
            out
        },
        None => {
            let mut out: Vec<VRef> = Vec::new();
            out.push(VRef::new(start.book.as_str(), start.chapter, start.verse));
            out
        },
    }
}

/// How a card is named to the reader: `Ps 23:1–6` for a passage (en dash),
/// else the plain ref key `Gen 1:7`.
pub fn card_label(start: &VRef, through: Option<u16>) -> (r: String)
    ensures
        r@ == match through {
            Some(end) => ref_key_spec(start.book@, start.chapter, start.verse) + seq!['\u{2013}']
                + dec(end as nat),
            None => ref_key_spec(start.book@, start.chapter, start.verse),
        },
{
    let mut s = start.ref_key();
    match through {
        Some(end) => {
            push_char(&mut s, '\u{2013}');
            push_dec(&mut s, end as u64);
        },
        None => {},
    }
    s
}

/// One expected word of a typed recall and whether it was recalled.
#[derive(Clone, Debug, PartialEq, Eq)]
pub struct WordHit {
    pub word: String,
    pub ok: bool,
}

/// One verse's standing, for the canon-strip coverage map.
#[derive(Clone, Debug, PartialEq, Eq)]
pub struct VerseCoverage {
    pub ref_key: String,
    pub mastery: Mastery,
    pub reps: u32,
    pub lapses: u32,
    /// UTC timestamp of the most recent review, if any.
    pub last_at: Option<String>,
    pub due: bool,
}

/// One card as the memorize hub lists it.
#[derive(Clone, Debug, PartialEq, Eq)]
pub struct CardSummary {
    /// The card's key: its first verse.
    pub ref_key: String,
    /// What to show the reader: `Ps 23:1–6` or `Gen 1:7`.
    pub label: String,
    /// How many verses this card covers (1 unless it is a passage).
    pub verses: u32,
    pub mastery: Mastery,
    pub reps: u32,
    pub lapses: u32,
    pub due: bool,
}

/// Reviews on one calendar day.
#[derive(Clone, Debug, PartialEq, Eq)]
pub struct DayActivity {
    /// `YYYY-MM-DD` (UTC).
    pub day: String,
    pub reviews: u32,
}

/// Coverage rolled up to one canon section.
#[derive(Clone, Debug, PartialEq, Eq)]
pub struct SectionCoverage {
    pub label: &'static str,
    /// Verses being memorized in this section.
    pub cards: u32,
    /// Of those verses, the ones whose card is mature.
    pub mature: u32,
    /// Total reviews logged against this section.
    pub reviews: u32,
}

// ── drills ───────────────────────────────────────────────────────────────────

/// `char::is_alphanumeric`: the Unicode `Alphabetic` or `Numeric` property.
pub uninterp spec fn is_alnum(c: char) -> bool;

/// Whether `c` is alphanumeric: calls `char::is_alphanumeric`, whose result
/// depends on `c` alone (the Unicode tables are not restated here).
#[verifier::external_body]
pub(crate) fn alphanumeric(c: char) -> (r: bool)
    ensures
        r == is_alnum(c),
{
    c.is_alphanumeric()
}

/// `str::split_whitespace`: the maximal runs of non-white characters.
pub open spec fn words(s: Seq<char>) -> Seq<Seq<char>>
    decreases s.len(),
{
    if s.len() == 0 {
        Seq::empty()
    } else {
        let w = words(s.drop_last());
        let c = s.last();
        if is_white(c) {
            w
        } else if s.len() >= 2 && !is_white(s[s.len() - 2]) {
            w.drop_last().push(w.last().push(c))
        } else {
            w.push(seq![c])
        }
    }
}

/// Words joined by single spaces.
pub open spec fn joined(ws: Seq<Seq<char>>) -> Seq<char>
    decreases ws.len(),
{
    if ws.len() == 0 {
        Seq::empty()
    } else if ws.len() == 1 {
        ws[0]
    } else {
        joined(ws.drop_last()) + seq![' '] + ws.last()
    }
}

/// Where the last alphanumeric character of `w` is, or `-1`.
pub open spec fn last_alnum(w: Seq<char>) -> int
    decreases w.len(),
{
    if w.len() == 0 {
        -1
    } else if is_alnum(w.last()) {
        w.len() - 1
    } else {
        last_alnum(w.drop_last())
    }
}

/// A word reduced to its first letter, its leading and trailing punctuation
/// kept; a word with no letter or digit stays as it is.
pub open spec fn hint(w: Seq<char>) -> Seq<char> {
    let k = first_where(w.len(), |i: int| is_alnum(w[i]));
    if k < w.len() {
        w.take(k) + seq![w[k]] + w.skip(last_alnum(w) + 1)
    } else {
        w
    }
}

/// What [`first_letters`] makes of a text.
pub open spec fn first_letters_spec(text: Seq<char>) -> Seq<char> {
    joined(words(text).map_values(|w: Seq<char>| hint(w)))
}

/// The words of `cs`, each as its characters (see [`words`]).
fn split_words(cs: &[char]) -> (r: Vec<Vec<char>>)
    ensures
        r@.map_values(|w: Vec<char>| w@) == words(cs@),
{
    let mut done: Vec<Vec<char>> = Vec::new();
    let mut cur: Vec<char> = Vec::new();
    let mut i: usize = 0;
    assert(cs@.take(0) =~= Seq::<char>::empty());
    assert(done@.map_values(|w: Vec<char>| w@) =~= Seq::<Seq<char>>::empty());
    while i < cs.len()
        invariant
            i <= cs@.len(),
            cur@.len() > 0 ==> i > 0 && !is_white(cs@[i - 1]),
            cur@.len() == 0 ==> (i == 0 || is_white(cs@[i - 1])),
            words(cs@.take(i as int)) == if cur@.len() > 0 {
                done@.map_values(|w: Vec<char>| w@).push(cur@)
            } else {
                done@.map_values(|w: Vec<char>| w@)
            },
        decreases cs@.len() - i,
    {
        let c = cs[i];
        let ghost before = done@.map_values(|w: Vec<char>| w@);
        assert(cs@.take(i + 1).drop_last() =~= cs@.take(i as int));
        assert(cs@.take(i + 1).last() == c);
        if white(c) {
            if cur.len() > 0 {
                let w = cur;
                done.push(w);
                cur = Vec::new();
                assert(done@.map_values(|w: Vec<char>| w@) =~= before.push(w@));
            }
        } else {
            let ghost old_cur = cur@;
            let had = cur.len() > 0;
            cur.push(c);
            if had {
                assert(cs@.take(i + 1)[i - 1] == cs@[i - 1]);
            } else {
                assert(cur@ =~= seq![c]);
                if i > 0 {
                    assert(cs@.take(i + 1)[i - 1] == cs@[i - 1]);
                }
            }
        }
        i = i + 1;
    }
    assert(cs@.take(cs@.len() as int) =~= cs@);
    if cur.len() > 0 {
        let ghost before = done@.map_values(|w: Vec<char>| w@);
        let w = cur;
        done.push(w);
        assert(done@.map_values(|w: Vec<char>| w@) =~= before.push(w@));
    }
    done
}

/// A word's first-letter hint (see [`hint`]).
fn word_hint(w: &[char]) -> (r: Vec<char>)
    ensures
        r@ == hint(w@),
{
    let n = w.len();
    let mut k: usize = 0;
    while k < n && !alphanumeric(w[k])
        invariant
            k <= n == w@.len(),
            forall|j: int| 0 <= j < k ==> !is_alnum(#[trigger] w@[j]),
        decreases n - k,
    {
        k = k + 1;
    }
    proof {
        crate::church::lemma_first_where(n as nat, |i: int| is_alnum(w@[i]), k as int);
    }
    if k == n {
        return crate::text::slice_to_chars(w, 0, n);
    }
    let mut j: usize = n;
    while j > 0 && !alphanumeric(w[j - 1])
        invariant
            j <= n == w@.len(),
            forall|x: int| j <= x < n ==> !is_alnum(#[trigger] w@[x]),
        decreases j,
    {
        j = j - 1;
    }
    proof {
        lemma_last_alnum(w@, j - 1);
    }
    let mut out = crate::text::slice_to_chars(w, 0, k);
    out.push(w[k]);
    let tail = crate::text::slice_to_chars(w, j, n);
    let ghost head = out@;
    let mut t: usize = 0;
    while t < tail.len()
        invariant
            t <= tail@.len(),
            out@ == head + tail@.take(t as int),
        decreases tail@.len() - t,
    {
        out.push(tail[t]);
        t = t + 1;
        assert(tail@.take(t as int) =~= tail@.take(t - 1).push(tail@[t - 1]));
    }
    assert(tail@.take(tail@.len() as int) =~= tail@);
    assert(out@ =~= w@.take(k as int) + seq![w@[k as int]] + w@.skip(j as int));
    out
}

proof fn lemma_last_alnum(w: Seq<char>, k: int)
    requires
        -1 <= k < w.len(),
        forall|x: int| k < x < w.len() ==> !is_alnum(#[trigger] w[x]),
        k >= 0 ==> is_alnum(w[k]),
    ensures
        last_alnum(w) == k,
    decreases w.len(),
{
    if w.len() > 0 && !is_alnum(w.last()) {
        lemma_last_alnum(w.drop_last(), k);
    }
}

/// First-letter prompt: each word reduced to its first letter, leading and
/// trailing punctuation kept. `For God so loved the world,` gives
/// `F G s l t w,`.
pub fn first_letters(text: &str) -> (r: String)
    ensures
        r@ == first_letters_spec(text@),
{
    let cs = crate::text::chars_of(text);
    let ws = split_words(cs.as_slice());
    let ghost all = ws@.map_values(|w: Vec<char>| w@);
    let ghost hs = all.map_values(|w: Seq<char>| hint(w));
    let mut out = String::new();
    let mut i: usize = 0;
    assert(hs.take(0) =~= Seq::<Seq<char>>::empty());
    while i < ws.len()
        invariant
            i <= ws@.len(),
            all == ws@.map_values(|w: Vec<char>| w@),
            hs == all.map_values(|w: Seq<char>| hint(w)),
            out@ == joined(hs.take(i as int)),
        decreases ws@.len() - i,
    {
        let h = word_hint(ws[i].as_slice());
        assert(hs.take(i + 1).drop_last() =~= hs.take(i as int));
        assert(hs.take(i + 1).last() == h@);
        if i > 0 {
            push_char(&mut out, ' ');
        } else {
            assert(hs.take(1) =~= seq![h@]);
        }
        push_chars(&mut out, h.as_slice());
        i = i + 1;
    }
    assert(hs.take(hs.len() as int) =~= hs);
    out
}

/// The stable per-word value in `0..65536` that spreads hidden words out.
pub open spec fn hide_value(i: usize) -> u64 {
    ((((i as nat * 2654435761nat) % 0x1_0000_0000_0000_0000nat) as u64 ^ 0x9e37_79b9u64) >> 11u64)
        & 0xffffu64
}

/// Whether word `i` is hidden at blank-out `level`: every word at
/// [`MAX_BLANK_LEVEL`] and above; below it, the words whose spread value, as a
/// fraction of 65535, falls below the level's share of [`MAX_BLANK_LEVEL`].
pub open spec fn hidden(i: usize, level: u8) -> bool {
    level >= MAX_BLANK_LEVEL || (MAX_BLANK_LEVEL as nat) * (hide_value(i) as nat) < 65535 * (level as nat)
}

/// A word with its letters and digits masked by `_`, punctuation kept.
pub open spec fn masked(w: Seq<char>) -> Seq<char> {
    w.map_values(|c: char| if is_alnum(c) { '_' } else { c })
}

/// What [`blank_out`] makes of a text.
pub open spec fn blank_out_spec(text: Seq<char>, level: u8) -> Seq<char> {
    let ws = words(text);
    joined(Seq::new(ws.len(), |i: int| if hidden(i as usize, level) { masked(ws[i]) } else { ws[i] }))
}

/// Whether word `i` hides at `level` (see [`hidden`]).
fn is_hidden(i: usize, level: u8) -> (r: bool)
    ensures
        r == hidden(i, level),
{
    if level >= MAX_BLANK_LEVEL {
        return true;
    }
    let l = level;
    let x = ((i as u64).wrapping_mul(2654435761) ^ 0x9e37_79b9) >> 11;
    let h: u64 = x & 0xffff;
    assert(h == hide_value(i));
    assert(h <= 0xffff) by (bit_vector)
        requires
            h == x & 0xffffu64,
    ;
    let m: u64 = MAX_BLANK_LEVEL as u64;
    assert(m * h <= 4 * 0xffff && 65535 * (l as u64) <= 4 * 65535) by (nonlinear_arith)
        requires
            m == 4,
            h <= 0xffff,
            l <= 4,
    ;
    m * h < 65535 * (l as u64)
}

/// A word with its letters masked (see [`masked`]).
fn mask_word(w: &[char]) -> (r: Vec<char>)
    ensures
        r@ == masked(w@),
{
    let mut out: Vec<char> = Vec::new();
    let mut i: usize = 0;
    while i < w.len()
        invariant
            i <= w@.len(),
            out@.len() == i,
            forall|j: int| 0 <= j < i ==> #[trigger] out@[j] == (if is_alnum(w@[j]) { '_' } else { w@[j] }),
        decreases w@.len() - i,
    {
        let c = w[i];
        if alphanumeric(c) {
            out.push('_');
        } else {
            out.push(c);
        }
        i = i + 1;
    }
    assert(out@ =~= masked(w@));
    out
}

/// Progressive blank-out: mask a share of the words, rising with `level`
/// (0 is the full text, [`MAX_BLANK_LEVEL`] masks every word). Which words
/// hide is fixed per position, so a level always yields the same prompt.
pub fn blank_out(text: &str, level: u8) -> (r: String)
    ensures
        r@ == blank_out_spec(text@, level),
{
    let cs = crate::text::chars_of(text);
    let ws = split_words(cs.as_slice());
    let ghost all = ws@.map_values(|w: Vec<char>| w@);
    let ghost shown = Seq::new(
        all.len(),
        |i: int|
            if hidden(i as usize, level) {
                masked(all[i])
            } else {
                all[i]
            },
    );
    let mut out = String::new();
    let mut i: usize = 0;
    assert(shown.take(0) =~= Seq::<Seq<char>>::empty());
    while i < ws.len()
        invariant
            i <= ws@.len(),
            all == ws@.map_values(|w: Vec<char>| w@),
            shown.len() == all.len(),
            forall|j: int|
                0 <= j < all.len() ==> #[trigger] shown[j] == (if hidden(j as usize, level) {
                    masked(all[j])
                } else {
                    all[j]
                }),
            out@ == joined(shown.take(i as int)),
        decreases ws@.len() - i,
    {
        let w = if is_hidden(i, level) {
            mask_word(ws[i].as_slice())
        } else {
            crate::text::slice_to_chars(ws[i].as_slice(), 0, ws[i].len())
        };
        assert(ws[i as int]@.subrange(0, ws[i as int]@.len() as int) =~= ws[i as int]@);
        assert(shown.take(i + 1).drop_last() =~= shown.take(i as int));
        assert(shown.take(i + 1).last() == w@);
        if i > 0 {
            push_char(&mut out, ' ');
        } else {
            assert(shown.take(1) =~= seq![w@]);
        }
        push_chars(&mut out, w.as_slice());
        i = i + 1;
    }
    assert(shown.take(shown.len() as int) =~= shown);
    out
}

/// Blank-out is progressive: level 0 hides nothing, and a word hidden at one
/// level stays hidden at every higher level.
pub proof fn lemma_blank_out_progressive(i: usize, a: u8, b: u8)
    requires
        a <= b,
    ensures
        !hidden(i, 0),
        hidden(i, a) ==> hidden(i, b),
{
}

/// At the top level, and above it, every word is hidden.
pub proof fn lemma_blank_out_full(i: usize, level: u8)
    requires
        level >= MAX_BLANK_LEVEL,
    ensures
        hidden(i, level),
{
}

} // verus!

verus! {

// ── recall scoring ───────────────────────────────────────────────────────────

/// The length of the longest common subsequence of `e[i..]` and `g[j..]`.
pub open spec fn lcs(e: Seq<Seq<char>>, g: Seq<Seq<char>>, i: int, j: int) -> nat
    decreases e.len() - i + g.len() - j,
{
    if i < 0 || j < 0 || i >= e.len() || j >= g.len() {
        0
    } else if e[i] == g[j] {
        1 + lcs(e, g, i + 1, j + 1)
    } else {
        let a = lcs(e, g, i + 1, j);
        let b = lcs(e, g, i, j + 1);
        if a >= b {
            a
        } else {
            b
        }
    }
}

/// The expected words a longest common subsequence matches, walking from
/// `(i, j)`: a match takes both words, otherwise the walk drops the word whose
/// loss keeps the longer match (the expected one on a tie).
pub open spec fn lcs_trace(e: Seq<Seq<char>>, g: Seq<Seq<char>>, i: int, j: int) -> Seq<int>
    decreases e.len() - i + g.len() - j,
{
    if i < 0 || j < 0 || i >= e.len() || j >= g.len() {
        Seq::empty()
    } else if e[i] == g[j] {
        seq![i] + lcs_trace(e, g, i + 1, j + 1)
    } else if lcs(e, g, i + 1, j) >= lcs(e, g, i, j + 1) {
        lcs_trace(e, g, i + 1, j)
    } else {
        lcs_trace(e, g, i, j + 1)
    }
}

/// Per expected word, whether the match takes it.
pub open spec fn lcs_hits_spec(e: Seq<Seq<char>>, g: Seq<Seq<char>>) -> Seq<bool> {
    Seq::new(e.len(), |k: int| lcs_trace(e, g, 0, 0).contains(k))
}

proof fn lemma_lcs_bound(e: Seq<Seq<char>>, g: Seq<Seq<char>>, i: int, j: int)
    requires
        0 <= i <= e.len(),
        0 <= j <= g.len(),
    ensures
        lcs(e, g, i, j) <= e.len() - i,
    decreases e.len() - i + g.len() - j,
{
    if i < e.len() && j < g.len() {
        lemma_lcs_bound(e, g, i + 1, j + 1);
        lemma_lcs_bound(e, g, i + 1, j);
        lemma_lcs_bound(e, g, i, j + 1);
    }
}

proof fn lemma_trace_range(e: Seq<Seq<char>>, g: Seq<Seq<char>>, i: int, j: int)
    requires
        0 <= i,
        0 <= j,
    ensures
        forall|k: int| 0 <= k < lcs_trace(e, g, i, j).len() ==> i <= #[trigger] lcs_trace(e, g, i, j)[k] < e.len(),
        forall|a: int, b: int|
            0 <= a < b < lcs_trace(e, g, i, j).len() ==> lcs_trace(e, g, i, j)[a] < lcs_trace(e, g, i, j)[b],
    decreases e.len() - i + g.len() - j,
{
    if i < e.len() && j < g.len() {
        lemma_trace_range(e, g, i + 1, j + 1);
        lemma_trace_range(e, g, i + 1, j);
        lemma_trace_range(e, g, i, j + 1);
        if e[i] != g[j] {
            let t = lcs_trace(e, g, i, j);
            if lcs(e, g, i + 1, j) >= lcs(e, g, i, j + 1) {
                assert(t == lcs_trace(e, g, i + 1, j));
            } else {
                assert(t == lcs_trace(e, g, i, j + 1));
            }
        }
        if e[i] == g[j] {
            let t = lcs_trace(e, g, i, j);
            let rest = lcs_trace(e, g, i + 1, j + 1);
            assert forall|k: int| 0 <= k < t.len() implies i <= #[trigger] t[k] < e.len() by {
                if k > 0 {
                    assert(t[k] == rest[k - 1]);
                }
            }
            assert forall|a: int, b: int| 0 <= a < b < t.len() implies t[a] < t[b] by {
                assert(t[b] == rest[b - 1]);
                if a > 0 {
                    assert(t[a] == rest[a - 1]);
                }
            }
        }
    }
}

/// The words a recall is marked with are a longest common subsequence: as
/// many as the longest run of words the two texts share in order, each
/// expected word taken at most once and in order.
pub proof fn lemma_lcs_trace_is_longest(e: Seq<Seq<char>>, g: Seq<Seq<char>>)
    ensures
        lcs_trace(e, g, 0, 0).len() == lcs(e, g, 0, 0),
        forall|a: int, b: int|
            0 <= a < b < lcs_trace(e, g, 0, 0).len() ==> lcs_trace(e, g, 0, 0)[a] < lcs_trace(e, g, 0, 0)[b],
{
    lemma_trace_len(e, g, 0, 0);
    lemma_trace_range(e, g, 0, 0);
}

proof fn lemma_trace_len(e: Seq<Seq<char>>, g: Seq<Seq<char>>, i: int, j: int)
    ensures
        lcs_trace(e, g, i, j).len() == lcs(e, g, i, j),
    decreases e.len() - i + g.len() - j,
{
    if !(i < 0 || j < 0 || i >= e.len() || j >= g.len()) {
        lemma_trace_len(e, g, i + 1, j + 1);
        lemma_trace_len(e, g, i + 1, j);
        lemma_trace_len(e, g, i, j + 1);
    }
}

/// The words as plain values.
pub open spec fn texts_view(ws: Seq<String>) -> Seq<Seq<char>> {
    ws.map_values(|w: String| w@)
}

/// Per expected word, whether a longest common subsequence with the typed
/// words takes it (see [`lcs_trace`]).
pub fn lcs_hits(expected: &[String], got: &[String]) -> (r: Vec<bool>)
    ensures
        r@ == lcs_hits_spec(texts_view(expected@), texts_view(got@)),
{
    let ghost e = texts_view(expected@);
    let ghost g = texts_view(got@);
    let n = expected.len();
    let m = got.len();
    // rows[k] is row n - k of the table: rows[k][j] == lcs(n - k, j).
    let mut rows: Vec<Vec<usize>> = Vec::new();
    let mut last: Vec<usize> = Vec::new();
    last.push(0);
    let mut c: usize = 0;
    while c < m
        invariant
            c <= m,
            last@.len() == c + 1,
            forall|x: int| 0 <= x <= c ==> last@[x] == 0,
        decreases m - c,
    {
        last.push(0);
        c = c + 1;
    }
    assert forall|x: int| 0 <= x <= m implies last@[x] == lcs(e, g, n as int, x) by {}
    rows.push(last);
    let mut k: usize = 0;
    while k < n
        invariant
            k <= n,
            n == expected.len(),
            m == got.len(),
            e == texts_view(expected@),
            g == texts_view(got@),
            rows@.len() == k + 1,
            forall|r: int| 0 <= r <= k ==> (#[trigger] rows@[r])@.len() == m + 1,
            forall|r: int, x: int| 0 <= r <= k && 0 <= x <= m ==> #[trigger] rows@[r]@[x] == lcs(e, g, n - r, x),
        decreases n - k,
    {
        let i = n - k - 1;
        let mut cur: Vec<usize> = Vec::new();
        cur.push(0);
        let mut c: usize = 0;
        while c < m
            invariant
                c <= m,
                cur@.len() == c + 1,
                forall|x: int| 0 <= x <= c ==> cur@[x] == 0,
            decreases m - c,
        {
            cur.push(0);
            c = c + 1;
        }
        let next = &rows[k];
        let mut j: usize = m;
        while j > 0
            invariant
                j <= m,
                i < n,
                i == n - k - 1,
                n == expected.len(),
                m == got.len(),
                e == texts_view(expected@),
                g == texts_view(got@),
                cur@.len() == m + 1,
                next@.len() == m + 1,
                forall|x: int| 0 <= x <= m ==> next@[x] == lcs(e, g, i + 1, x),
                forall|x: int| j <= x <= m ==> cur@[x] == lcs(e, g, i as int, x),
            decreases j,
        {
            let jj = j - 1;
            proof {
                lemma_lcs_bound(e, g, i + 1, jj + 1);
                lemma_lcs_bound(e, g, i as int, jj as int);
                assert(e[i as int] == expected@[i as int]@);
                assert(g[jj as int] == got@[jj as int]@);
            }
            let v = if crate::text::str_eq(expected[i].as_str(), got[jj].as_str()) {
                next[jj + 1] + 1
            } else if next[jj] >= cur[jj + 1] {
                next[jj]
            } else {
                cur[jj + 1]
            };
            cur.set(jj, v);
            j = jj;
        }
        assert(cur@[m as int] == lcs(e, g, i as int, m as int));
        rows.push(cur);
        k = k + 1;
    }
    let mut hits: Vec<bool> = Vec::new();
    let mut c: usize = 0;
    while c < n
        invariant
            c <= n,
            hits@.len() == c,
            forall|x: int| 0 <= x < c ==> !hits@[x],
        decreases n - c,
    {
        hits.push(false);
        c = c + 1;
    }
    let mut i: usize = 0;
    let mut j: usize = 0;
    let ghost mut acc: Seq<int> = Seq::empty();
    proof {
        lemma_trace_range(e, g, 0, 0);
    }
    while i < n && j < m
        invariant
            i <= n,
            j <= m,
            n == expected.len(),
            m == got.len(),
            e == texts_view(expected@),
            g == texts_view(got@),
            rows@.len() == n + 1,
            forall|r: int| 0 <= r <= n ==> (#[trigger] rows@[r])@.len() == m + 1,
            forall|r: int, x: int| 0 <= r <= n && 0 <= x <= m ==> #[trigger] rows@[r]@[x] == lcs(e, g, n - r, x),
            hits@.len() == n,
            lcs_trace(e, g, 0, 0) == acc + lcs_trace(e, g, i as int, j as int),
            forall|x: int| 0 <= x < acc.len() ==> #[trigger] acc[x] < i,
            forall|x: int| 0 <= x < n ==> hits@[x] == acc.contains(x),
        decreases n - i + m - j,
    {
        proof {
            assert(e[i as int] == expected@[i as int]@);
            assert(g[j as int] == got@[j as int]@);
        }
        if crate::text::str_eq(expected[i].as_str(), got[j].as_str()) {
            let ghost old_hits = hits@;
            hits.set(i, true);
            proof {
                let old_acc = acc;
                assert(lcs_trace(e, g, i as int, j as int) == seq![i as int] + lcs_trace(e, g, i + 1, j + 1));
                assert(acc + lcs_trace(e, g, i as int, j as int) =~= acc.push(i as int) + lcs_trace(e, g, i + 1, j + 1));
                acc = old_acc.push(i as int);
                assert forall|x: int| 0 <= x < n implies hits@[x] == acc.contains(x) by {
                    if x == i {
                        assert(acc[old_acc.len() as int] == i);
                    } else {
                        assert(hits@[x] == old_hits[x]);
                        if old_acc.contains(x) {
                            let w = choose|w: int| 0 <= w < old_acc.len() && old_acc[w] == x;
                            assert(acc[w] == x);
                        }
                        if acc.contains(x) {
                            let w = choose|w: int| 0 <= w < acc.len() && acc[w] == x;
                            if w < old_acc.len() {
                                assert(old_acc[w] == x);
                            } else {
                                assert(acc[w] == i);
                            }
                        }
                    }
                }
            }
            i = i + 1;
            j = j + 1;
        } else if rows[n - i - 1][j] >= rows[n - i][j + 1] {
            proof {
                assert(rows@[n - i - 1]@[j as int] == lcs(e, g, i + 1, j as int));
                assert(rows@[n - i as int]@[j + 1] == lcs(e, g, i as int, j + 1));
            }
            i = i + 1;
        } else {
            proof {
                assert(rows@[n - i - 1]@[j as int] == lcs(e, g, i + 1, j as int));
                assert(rows@[n - i as int]@[j + 1] == lcs(e, g, i as int, j + 1));
            }
            j = j + 1;
        }
    }
    proof {
        assert(lcs_trace(e, g, i as int, j as int) =~= Seq::<int>::empty());
        assert(acc + Seq::<int>::empty() =~= acc);
        assert(hits@ =~= lcs_hits_spec(e, g));
    }
    hits
}

} // verus!

verus! {

/// What `char::to_lowercase` makes of a character (one character or more).
pub uninterp spec fn lowercase_of(c: char) -> Seq<char>;

/// Calls `char::to_lowercase` and collects its characters. The contract claims
/// only that the result is a function of `c` alone, named [`lowercase_of`];
/// the Unicode case tables are not restated here.
#[verifier::external_body]
fn char_lowercase(c: char) -> (r: Vec<char>)
    ensures
        r@ == lowercase_of(c),
{
    c.to_lowercase().collect()
}

/// A word as recall compares it: its letters and digits only, lowercased.
pub open spec fn normalized(w: Seq<char>) -> Seq<char>
    decreases w.len(),
{
    if w.len() == 0 {
        Seq::empty()
    } else {
        normalized(w.drop_last()) + if is_alnum(w.last()) {
            lowercase_of(w.last())
        } else {
            Seq::empty()
        }
    }
}

fn normalize_word(w: &Vec<char>) -> (r: String)
    ensures
        r@ == normalized(w@),
{
    let mut out = String::new();
    let mut i: usize = 0;
    while i < w.len()
        invariant
            i <= w@.len(),
            out@ == normalized(w@.take(i as int)),
        decreases w@.len() - i,
    {
        assert(w@.take(i + 1).drop_last() =~= w@.take(i as int));
        assert(w@.take(i + 1).last() == w@[i as int]);
        if alphanumeric(w[i]) {
            let low = char_lowercase(w[i]);
            push_chars(&mut out, low.as_slice());
        } else {
            assert(out@ + Seq::<char>::empty() =~= out@);
        }
        i = i + 1;
    }
    assert(w@.take(w@.len() as int) =~= w@);
    out
}

/// What a typed recall of `actual` scores: each of the verse's words, and
/// whether it was recalled. Words compare by letters and digits, ignoring
/// case; a longest common subsequence lines them up, so a skipped or extra
/// word does not throw off the rest.
pub open spec fn recall_spec(typed: Seq<char>, actual: Seq<char>) -> Seq<(Seq<char>, bool)> {
    let expected = words(actual);
    let hits = lcs_hits_spec(
        expected.map_values(|w: Seq<char>| normalized(w)),
        words(typed).map_values(|w: Seq<char>| normalized(w)),
    );
    Seq::new(expected.len(), |k: int| (expected[k], hits[k]))
}

fn normalize_all(ws: &Vec<Vec<char>>) -> (r: Vec<String>)
    ensures
        texts_view(r@) == ws@.map_values(|w: Vec<char>| w@).map_values(|w: Seq<char>| normalized(w)),
{
    let ghost want = ws@.map_values(|w: Vec<char>| w@).map_values(|w: Seq<char>| normalized(w));
    let mut out: Vec<String> = Vec::new();
    let mut i: usize = 0;
    while i < ws.len()
        invariant
            i <= ws@.len(),
            want == ws@.map_values(|w: Vec<char>| w@).map_values(|w: Seq<char>| normalized(w)),
            texts_view(out@) == want.take(i as int),
        decreases ws@.len() - i,
    {
        let n = normalize_word(&ws[i]);
        let ghost before = texts_view(out@);
        out.push(n);
        assert(texts_view(out@) =~= before.push(n@));
        assert(want.take(i + 1) =~= want.take(i as int).push(n@));
        i = i + 1;
    }
    assert(want.take(ws@.len() as int) =~= want);
    out
}

/// Score a typed recall against the verse `actual` (see [`recall_spec`]).
pub fn recall_words(typed: &str, actual: &str) -> (r: Vec<WordHit>)
    ensures
        r@.map_values(|h: WordHit| (h.word@, h.ok)) == recall_spec(typed@, actual@),
{
    let a = crate::text::chars_of(actual);
    let t = crate::text::chars_of(typed);
    let expected = split_words(a.as_slice());
    let got = split_words(t.as_slice());
    let en = normalize_all(&expected);
    let gn = normalize_all(&got);
    let hits = lcs_hits(en.as_slice(), gn.as_slice());
    let ghost want = recall_spec(typed@, actual@);
    let mut out: Vec<WordHit> = Vec::new();
    let mut i: usize = 0;
    proof {
        assert(expected@.map_values(|w: Vec<char>| w@).len() == expected@.len());
    }
    while i < expected.len()
        invariant
            i <= expected@.len(),
            hits@.len() == expected@.len(),
            want == recall_spec(typed@, actual@),
            want.len() == expected@.len(),
            expected@.map_values(|w: Vec<char>| w@) == words(actual@),
            hits@ == lcs_hits_spec(texts_view(en@), texts_view(gn@)),
            texts_view(en@) == words(actual@).map_values(|w: Seq<char>| normalized(w)),
            texts_view(gn@) == words(typed@).map_values(|w: Seq<char>| normalized(w)),
            out@.map_values(|h: WordHit| (h.word@, h.ok)) == want.take(i as int),
        decreases expected@.len() - i,
    {
        let h = WordHit { word: crate::text::string_of(expected[i].as_slice()), ok: hits[i] };
        let ghost before = out@.map_values(|h: WordHit| (h.word@, h.ok));
        proof {
            assert(words(actual@)[i as int] == expected@[i as int]@);
        }
        out.push(h);
        assert(out@.map_values(|h: WordHit| (h.word@, h.ok)) =~= before.push((h.word@, h.ok)));
        assert(want.take(i + 1) =~= want.take(i as int).push((h.word@, h.ok)));
        i = i + 1;
    }
    assert(want.take(expected@.len() as int) =~= want);
    out
}

// ── the activity heatmap ─────────────────────────────────────────────────────

/// The calendar day a review stamp falls on: its `YYYY-MM-DD` bytes, when the
/// first ten bytes end on a character boundary.
pub open spec fn review_day(stamp: Seq<char>) -> Option<Seq<u8>> {
    date_window(encode_utf8(stamp))
}

/// How many of `stamps` fall on `day`.
pub open spec fn reviews_on(stamps: Seq<String>, day: Seq<u8>) -> nat
    decreases stamps.len(),
{
    if stamps.len() == 0 {
        0
    } else {
        reviews_on(stamps.drop_last(), day) + if review_day(stamps.last()@) == Some(day) {
            1nat
        } else {
            0nat
        }
    }
}

/// Byte-wise lexicographic order, the order `String`s compare in.
pub open spec fn bytes_lt(a: Seq<u8>, b: Seq<u8>) -> bool
    decreases a.len(),
{
    if a.len() == 0 {
        b.len() > 0
    } else if b.len() == 0 {
        false
    } else if a[0] != b[0] {
        a[0] < b[0]
    } else {
        bytes_lt(a.drop_first(), b.drop_first())
    }
}

/// The bytes of a day's label.
pub open spec fn day_bytes(a: DayActivity) -> Seq<u8> {
    encode_utf8(a.day@)
}

proof fn lemma_bytes_lt_irreflexive(a: Seq<u8>)
    ensures
        !bytes_lt(a, a),
    decreases a.len(),
{
    if a.len() > 0 {
        lemma_bytes_lt_irreflexive(a.drop_first());
    }
}

proof fn lemma_bytes_lt_transitive(a: Seq<u8>, b: Seq<u8>, c: Seq<u8>)
    requires
        bytes_lt(a, b),
        bytes_lt(b, c),
    ensures
        bytes_lt(a, c),
    decreases a.len(),
{
    if a.len() > 0 && b.len() > 0 && c.len() > 0 && a[0] == b[0] && b[0] == c[0] {
        lemma_bytes_lt_transitive(a.drop_first(), b.drop_first(), c.drop_first());
    }
}

proof fn lemma_bytes_lt_total(a: Seq<u8>, b: Seq<u8>)
    requires
        a != b,
    ensures
        bytes_lt(a, b) || bytes_lt(b, a),
    decreases a.len(),
{
    if a.len() == 0 || b.len() == 0 {
        if a.len() == 0 && b.len() == 0 {
            assert(a =~= b);
        }
    } else if a[0] == b[0] {
        if a.drop_first() =~= b.drop_first() {
            assert forall|i: int| 0 <= i < a.len() implies a[i] == b[i] by {
                if i > 0 {
                    assert(a[i] == a.drop_first()[i - 1]);
                    assert(b[i] == b.drop_first()[i - 1]);
                }
            }
            assert(a =~= b);
        } else {
            lemma_bytes_lt_total(a.drop_first(), b.drop_first());
        }
    }
}

/// Whether `a` sorts before `b` byte by byte.
fn bytes_less(a: &[u8], b: &[u8]) -> (r: bool)
    ensures
        r == bytes_lt(a@, b@),
{
    let mut i: usize = 0;
    assert(a@.skip(0) =~= a@ && b@.skip(0) =~= b@);
    while i < a.len() && i < b.len()
        invariant
            i <= a@.len(),
            i <= b@.len(),
            bytes_lt(a@, b@) == bytes_lt(a@.skip(i as int), b@.skip(i as int)),
        decreases a@.len() - i,
    {
        if a[i] != b[i] {
            return a[i] < b[i];
        }
        assert(a@.skip(i as int).drop_first() =~= a@.skip(i + 1));
        assert(b@.skip(i as int).drop_first() =~= b@.skip(i + 1));
        i = i + 1;
    }
    i < b.len()
}

/// Whether two byte strings are equal.
fn bytes_same(a: &[u8], b: &[u8]) -> (r: bool)
    ensures
        r == (a@ == b@),
{
    if a.len() != b.len() {
        return false;
    }
    let mut i: usize = 0;
    while i < a.len()
        invariant
            i <= a@.len(),
            a@.len() == b@.len(),
            forall|j: int| 0 <= j < i ==> a@[j] == b@[j],
        decreases a@.len() - i,
    {
        if a[i] != b[i] {
            return false;
        }
        i = i + 1;
    }
    assert(a@ =~= b@);
    true
}

/// A day that some stamp falls on was counted from one of them.
proof fn lemma_reviews_on_witness(stamps: Seq<String>, day: Seq<u8>)
    requires
        reviews_on(stamps, day) > 0,
    ensures
        exists|k: int| 0 <= k < stamps.len() && review_day(#[trigger] stamps[k]@) == Some(day),
    decreases stamps.len(),
{
    let t = stamps.drop_last();
    if reviews_on(t, day) > 0 {
        lemma_reviews_on_witness(t, day);
        let k = choose|k: int| 0 <= k < t.len() && review_day(#[trigger] t[k]@) == Some(day);
        assert(stamps[k] == t[k]);
    } else {
        assert(review_day(stamps[stamps.len() - 1]@) == Some(day));
    }
}

proof fn lemma_reviews_on_bound(stamps: Seq<String>, day: Seq<u8>)
    ensures
        reviews_on(stamps, day) <= stamps.len(),
    decreases stamps.len(),
{
    if stamps.len() > 0 {
        lemma_reviews_on_bound(stamps.drop_last(), day);
    }
}

/// Review counts by calendar day, oldest first: one entry per day that some
/// stamp falls on (a stamp whose first ten bytes split a character has no
/// day), each with the number of stamps on it.
#[verifier::rlimit(100)]
pub fn activity_by_day(stamps: &[String]) -> (r: Vec<DayActivity>)
    requires
        stamps@.len() <= u32::MAX,
    ensures
        forall|i: int, j: int|
            0 <= i < j < r@.len() ==> bytes_lt(day_bytes(r@[i]), day_bytes(r@[j])),
        forall|i: int|
            0 <= i < r@.len() ==> (#[trigger] r@[i]).reviews == reviews_on(
                stamps@,
                day_bytes(r@[i]),
            ),
        forall|i: int| 0 <= i < r@.len() ==> (#[trigger] r@[i]).reviews >= 1,
        forall|k: int|
            0 <= k < stamps@.len() && (#[trigger] review_day(stamps@[k]@)) is Some ==> exists|i: int|
                0 <= i < r@.len() && day_bytes(#[trigger] r@[i]) == review_day(stamps@[k]@)->0,
{
    broadcast use vstd::utf8::encode_utf8_valid_utf8;

    let mut out: Vec<DayActivity> = Vec::new();
    let mut i: usize = 0;
    while i < stamps.len()
        invariant
            i <= stamps@.len(),
            stamps@.len() <= u32::MAX,
            forall|p: int, q: int|
                0 <= p < q < out@.len() ==> bytes_lt(day_bytes(out@[p]), day_bytes(out@[q])),
            forall|p: int|
                0 <= p < out@.len() ==> (#[trigger] out@[p]).reviews == reviews_on(
                    stamps@.take(i as int),
                    day_bytes(out@[p]),
                ),
            forall|p: int| 0 <= p < out@.len() ==> (#[trigger] out@[p]).reviews >= 1,
            forall|k: int|
                0 <= k < i && (#[trigger] review_day(stamps@[k]@)) is Some ==> exists|p: int|
                    0 <= p < out@.len() && day_bytes(#[trigger] out@[p]) == review_day(
                        stamps@[k]@,
                    )->0,
        decreases stamps@.len() - i,
    {
        let ghost seen = stamps@.take(i as int);
        let ghost next = stamps@.take(i + 1);
        assert(next.drop_last() =~= seen);
        assert(next.last() == stamps@[i as int]);
        let st: &str = stamps[i].as_str();
        let b = st.as_bytes();
        assert(b@ == encode_utf8(stamps@[i as int]@));
        let has_day = b.len() >= 10 && (b.len() == 10 || !(0x80 <= b[10] && b[10] <= 0xbf));
        if !has_day {
            assert(review_day(stamps@[i as int]@) is None);
            assert forall|p: int| 0 <= p < out@.len() implies (#[trigger] out@[p]).reviews
                == reviews_on(next, day_bytes(out@[p])) by {}
        } else {
            proof {
                vstd::utf8::encode_utf8_valid_utf8(stamps@[i as int]@);
                if b@.len() == 10 {
                    vstd::utf8::is_char_boundary_start_end_of_seq(b@);
                } else {
                    vstd::utf8::is_char_boundary_iff_not_is_continuation_byte(b@, 10);
                }
            }
            let (head, _) = st.split_at(10);
            let ghost w = b@.subrange(0, 10);
            assert(w =~= b@.take(10));
            assert(review_day(stamps@[i as int]@) == Some(w));
            let hb = head.as_bytes();
            let mut p: usize = 0;
            while p < out.len() && bytes_less(out[p].day.as_str().as_bytes(), hb)
                invariant
                    p <= out@.len(),
                    hb@ == w,
                    forall|q: int| 0 <= q < p ==> bytes_lt(day_bytes(#[trigger] out@[q]), w),
                decreases out@.len() - p,
            {
                p = p + 1;
            }
            let found = p < out.len() && bytes_same(out[p].day.as_str().as_bytes(), hb);
            let ghost old_out = out@;
            if found {
                proof {
                    lemma_reviews_on_bound(seen, w);
                    assert forall|q: int| 0 <= q < old_out.len() && q != p implies day_bytes(
                        #[trigger] old_out[q],
                    ) != w by {
                        lemma_bytes_lt_irreflexive(w);
                    }
                }
                let day = out[p].day.clone();
                let n = out[p].reviews;
                out.set(p, DayActivity { day, reviews: n + 1 });
                assert forall|q: int| 0 <= q < out@.len() implies (#[trigger] out@[q]).reviews
                    == reviews_on(next, day_bytes(out@[q])) by {
                    if q != p {
                        assert(out@[q] == old_out[q]);
                    }
                }
                assert forall|k: int|
                    0 <= k < i + 1 && (#[trigger] review_day(stamps@[k]@)) is Some implies exists|
                    q: int,
                |
                    0 <= q < out@.len() && day_bytes(#[trigger] out@[q]) == review_day(
                        stamps@[k]@,
                    )->0 by {
                    if k < i {
                        let q0 = choose|q: int|
                            0 <= q < old_out.len() && day_bytes(#[trigger] old_out[q])
                                == review_day(stamps@[k]@)->0;
                        assert(day_bytes(out@[q0]) == day_bytes(old_out[q0]));
                    } else {
                        assert(day_bytes(out@[p as int]) == w);
                    }
                }
            } else {
                proof {
                    if reviews_on(seen, w) > 0 {
                        lemma_reviews_on_witness(seen, w);
                        let k = choose|k: int|
                            0 <= k < seen.len() && review_day(#[trigger] seen[k]@) == Some(w);
                        assert(seen[k] == stamps@[k]);
                        assert(review_day(stamps@[k]@) is Some);
                        let q = choose|q: int|
                            0 <= q < old_out.len() && day_bytes(#[trigger] old_out[q]) == w;
                        if q < p {
                            lemma_bytes_lt_irreflexive(w);
                        } else if q > p {
                            lemma_bytes_lt_transitive(day_bytes(old_out[p as int]), w, w);
                            lemma_bytes_lt_irreflexive(w);
                            assert(bytes_lt(day_bytes(old_out[p as int]), day_bytes(old_out[q])));
                            if !bytes_lt(day_bytes(old_out[p as int]), w) {
                                assert(false);
                            }
                        }
                    }
                    if p < old_out.len() {
                        lemma_bytes_lt_total(day_bytes(old_out[p as int]), w);
                        assert(bytes_lt(w, day_bytes(old_out[p as int])));
                    }
                }
                let day = head.to_owned();
                assert(day_bytes(DayActivity { day: day, reviews: 1 }) == w);
                out.insert(p, DayActivity { day, reviews: 1 });
                assert forall|a: int, c: int|
                    0 <= a < c < out@.len() implies bytes_lt(
                    day_bytes(out@[a]),
                    day_bytes(out@[c]),
                ) by {
                    if c < p {
                        assert(out@[a] == old_out[a] && out@[c] == old_out[c]);
                    } else if c == p {
                        assert(out@[a] == old_out[a]);
                    } else if a == p {
                        assert(out@[c] == old_out[c - 1]);
                        if c - 1 > p {
                            lemma_bytes_lt_transitive(
                                w,
                                day_bytes(old_out[p as int]),
                                day_bytes(old_out[c - 1]),
                            );
                        }
                    } else if a < p {
                        assert(out@[a] == old_out[a] && out@[c] == old_out[c - 1]);
                        if c - 1 >= p {
                            lemma_bytes_lt_transitive(day_bytes(old_out[a]), w, day_bytes(old_out[p as int]));
                            if c - 1 > p {
                                lemma_bytes_lt_transitive(
                                    day_bytes(old_out[a]),
                                    day_bytes(old_out[p as int]),
                                    day_bytes(old_out[c - 1]),
                                );
                            }
                        }
                    } else {
                        assert(out@[a] == old_out[a - 1] && out@[c] == old_out[c - 1]);
                    }
                }
                assert forall|q: int| 0 <= q < out@.len() implies (#[trigger] out@[q]).reviews
                    == reviews_on(next, day_bytes(out@[q])) by {
                    if q < p {
                        assert(out@[q] == old_out[q]);
                        assert(bytes_lt(day_bytes(old_out[q]), w));
                        lemma_bytes_lt_irreflexive(w);
                    } else if q > p {
                        assert(out@[q] == old_out[q - 1]);
                        if q - 1 > p {
                            lemma_bytes_lt_transitive(
                                w,
                                day_bytes(old_out[p as int]),
                                day_bytes(old_out[q - 1]),
                            );
                        }
                        lemma_bytes_lt_irreflexive(w);
                    }
                }
                assert forall|q: int| 0 <= q < out@.len() implies (#[trigger] out@[q]).reviews
                    >= 1 by {
                    if q < p {
                        assert(out@[q] == old_out[q]);
                    } else if q > p {
                        assert(out@[q] == old_out[q - 1]);
                    }
                }
                assert forall|k: int|
                    0 <= k < i + 1 && (#[trigger] review_day(stamps@[k]@)) is Some implies exists|
                    q: int,
                |
                    0 <= q < out@.len() && day_bytes(#[trigger] out@[q]) == review_day(
                        stamps@[k]@,
                    )->0 by {
                    if k < i {
                        let q0 = choose|q: int|
                            0 <= q < old_out.len() && day_bytes(#[trigger] old_out[q])
                                == review_day(stamps@[k]@)->0;
                        if q0 < p {
                            assert(out@[q0] == old_out[q0]);
                        } else {
                            assert(out@[q0 + 1] == old_out[q0]);
                        }
                    } else {
                        assert(day_bytes(out@[p as int]) == w);
                    }
                }
            }
        }
        i = i + 1;
    }
    assert(stamps@.take(stamps@.len() as int) =~= stamps@);
    out
}

} // verus!

verus! {

// ── the review queue ─────────────────────────────────────────────────────────

/// Whether a card due on the day `due` names is due at `now` (see [`due_on`]).
pub open spec fn due_at(due: Seq<u8>, now: Seq<u8>) -> bool {
    match (crate::civil::date_to_days_spec(due), crate::civil::date_to_days_spec(now)) {
        (Some(d), Some(t)) => d <= t,
        _ => true,
    }
}

/// The canon position of a book id; an unknown book comes after every known
/// one.
pub open spec fn book_pos(id: Seq<char>) -> int {
    if exists|i: usize| crate::canon::is_first_id(i, id) {
        (choose|i: usize| crate::canon::is_first_id(i, id)) as int
    } else {
        crate::canon::BOOK_COUNT as int
    }
}

/// Reading order: canon position, then chapter, then verse.
pub open spec fn reading_key(v: (Seq<char>, u16, u16)) -> int {
    book_pos(v.0) * 0x1_0000_0000 + v.1 * 0x1_0000 + v.2
}

/// A book's position lies in the canon's range, an unknown book just past it.
proof fn lemma_book_pos_range(id: Seq<char>)
    ensures
        0 <= book_pos(id) <= crate::canon::BOOK_COUNT,
{
    if exists|i: usize| crate::canon::is_first_id(i, id) {
        let i = choose|i: usize| crate::canon::is_first_id(i, id);
        assert(crate::canon::is_first_id(i, id));
    }
}

/// Reading order is book by book in canon order, then chapter by chapter,
/// then verse by verse: one verse comes before another exactly when its book
/// comes earlier, or the book is the same and its chapter earlier, or book
/// and chapter are the same and its verse earlier; and two verses share a
/// place only when they are the same verse of the same book.
pub proof fn lemma_reading_order(a: (Seq<char>, u16, u16), b: (Seq<char>, u16, u16))
    ensures
        reading_key(a) < reading_key(b) <==> (book_pos(a.0) < book_pos(b.0) || (book_pos(a.0) == book_pos(
            b.0,
        ) && (a.1 < b.1 || (a.1 == b.1 && a.2 < b.2)))),
        reading_key(a) == reading_key(b) <==> (book_pos(a.0) == book_pos(b.0) && a.1 == b.1 && a.2 == b.2),
{
    lemma_book_pos_range(a.0);
    lemma_book_pos_range(b.0);
    let pa = book_pos(a.0);
    let pb = book_pos(b.0);
    let ka = a.1 * 0x1_0000 + a.2;
    let kb = b.1 * 0x1_0000 + b.2;
    assert(0 <= ka < 0x1_0000_0000);
    assert(0 <= kb < 0x1_0000_0000);
    assert(ka < kb <==> (a.1 < b.1 || (a.1 == b.1 && a.2 < b.2)));
    assert(ka == kb <==> (a.1 == b.1 && a.2 == b.2));
    if pa < pb {
        assert(pa * 0x1_0000_0000 + 0x1_0000_0000 <= pb * 0x1_0000_0000) by (nonlinear_arith)
            requires
                pa < pb,
        ;
    } else if pb < pa {
        assert(pb * 0x1_0000_0000 + 0x1_0000_0000 <= pa * 0x1_0000_0000) by (nonlinear_arith)
            requires
                pb < pa,
        ;
    }
}

/// A list of verses in key order (as [`due_queue`] gives them) reads in
/// reading order: of two verses, the earlier is in an earlier book, or in an
/// earlier chapter of the same book, or no later in the same chapter.
pub proof fn lemma_key_order_is_reading_order(v: Seq<VRef>, r: Seq<VRef>)
    requires
        crate::order::stable_sorted(v, r),
    ensures
        forall|i: int, j: int|
            0 <= i < j < r.len() ==> {
                let a = (#[trigger] r[i])@;
                let b = (#[trigger] r[j])@;
                book_pos(a.0) < book_pos(b.0) || (book_pos(a.0) == book_pos(b.0) && (a.1 < b.1 || (a.1
                    == b.1 && a.2 <= b.2)))
            },
{
    assert forall|i: int, j: int| 0 <= i < j < r.len() implies {
        let a = (#[trigger] r[i])@;
        let b = (#[trigger] r[j])@;
        book_pos(a.0) < book_pos(b.0) || (book_pos(a.0) == book_pos(b.0) && (a.1 < b.1 || (a.1 == b.1
            && a.2 <= b.2)))
    } by {
        assert(r[i].sort_key() <= r[j].sort_key());
        lemma_reading_order(r[i]@, r[j]@);
    }
}

proof fn lemma_first_id_unique(i: usize, j: usize, id: Seq<char>)
    requires
        crate::canon::is_first_id(i, id),
        crate::canon::is_first_id(j, id),
    ensures
        i == j,
{
}

/// The canon position of a book id, unknown books last.
fn book_position(id: &str) -> (r: u64)
    ensures
        r as int == book_pos(id@),
        r <= crate::canon::BOOK_COUNT,
{
    match crate::canon::book_order(id) {
        Some(i) => {
            proof {
                let c = choose|j: usize| crate::canon::is_first_id(j, id@);
                lemma_first_id_unique(i, c, id@);
            }
            i as u64
        },
        None => crate::canon::BOOK_COUNT as u64,
    }
}

impl crate::order::SortKey for VRef {
    open spec fn sort_key(&self) -> int {
        reading_key(self@)
    }

    fn key_of(&self) -> (k: i64) {
        let b = book_position(self.book.as_str());
        (b * 0x1_0000_0000 + (self.chapter as u64) * 0x1_0000 + self.verse as u64) as i64
    }
}

/// A memorization card as plain values: everything the queue, the coverage
/// map and the card list read, without the fractional ease factor.
pub struct CardModel {
    /// The card's first verse, its key.
    pub verse: VRef,
    /// The last verse of a passage card.
    pub through: Option<u16>,
    pub reps: u32,
    pub lapses: u32,
    pub interval_days: u32,
    /// The day it is next due, `YYYY-MM-DD`.
    pub due: String,
    /// The review stamps, oldest first.
    pub reviews: Vec<String>,
}

/// Whether a card is due at `now`.
pub open spec fn card_due(c: CardModel, now: Seq<u8>) -> bool {
    due_at(encode_utf8(c.due@), now)
}

/// The verses of the due cards, in the cards' order.
pub open spec fn due_verses(cards: Seq<CardModel>, now: Seq<u8>) -> Seq<(Seq<char>, u16, u16)>
    decreases cards.len(),
{
    if cards.len() == 0 {
        Seq::empty()
    } else {
        let r = due_verses(cards.drop_last(), now);
        if card_due(cards.last(), now) {
            r.push(cards.last().verse@)
        } else {
            r
        }
    }
}

/// The views of some verses.
pub open spec fn vrefs_view(vs: Seq<VRef>) -> Seq<(Seq<char>, u16, u16)> {
    vs.map_values(|v: VRef| v@)
}

/// The verses due at `now`, in reading order; cards on the same verse keep
/// the order they came in.
pub fn due_queue(cards: &Vec<CardModel>, now: &str) -> (r: Vec<VRef>)
    ensures
        exists|due: Seq<VRef>|
            vrefs_view(due) == due_verses(cards@, now.spec_bytes()) && #[trigger] crate::order::stable_sorted(due, r@),
{
    let mut due: Vec<VRef> = Vec::new();
    let mut i: usize = 0;
    while i < cards.len()
        invariant
            i <= cards@.len(),
            vrefs_view(due@) == due_verses(cards@.take(i as int), now.spec_bytes()),
        decreases cards@.len() - i,
    {
        let c = &cards[i];
        assert(cards@.take(i + 1).drop_last() =~= cards@.take(i as int));
        assert(cards@.take(i + 1).last() == cards@[i as int]);
        let ghost before = due@;
        if due_on(c.due.as_str(), now) {
            due.push(VRef::new(c.verse.book.as_str(), c.verse.chapter, c.verse.verse));
            assert(vrefs_view(due@) =~= vrefs_view(before).push(c.verse@));
        } else {
            assert(vrefs_view(due@) =~= vrefs_view(before));
        }
        i = i + 1;
    }
    assert(cards@.take(cards@.len() as int) =~= cards@);
    let ghost d = due@;
    let r = crate::order::stable_sort(due);
    assert(crate::order::stable_sorted(d, r@));
    r
}


/// The verses a card starting at `start` covers (see [`card_verses`]).
pub open spec fn card_span(start: (Seq<char>, u16, u16), through: Option<u16>) -> Seq<(Seq<char>, u16, u16)> {
    match through {
        Some(end) => Seq::new(
            if end >= start.2 { (end - start.2 + 1) as nat } else { 0 },
            |i: int| (start.0, start.1, (start.2 + i) as u16),
        ),
        None => seq![start],
    }
}

/// A card's label (see [`card_label`]).
pub open spec fn label_spec(start: (Seq<char>, u16, u16), through: Option<u16>) -> Seq<char> {
    match through {
        Some(end) => ref_key_spec(start.0, start.1, start.2) + seq!['\u{2013}'] + dec(end as nat),
        None => ref_key_spec(start.0, start.1, start.2),
    }
}

/// An item with its sort key.
pub struct Keyed<T> {
    pub key: i64,
    pub item: T,
}

impl<T> crate::order::SortKey for Keyed<T> {
    open spec fn sort_key(&self) -> int {
        self.key as int
    }

    fn key_of(&self) -> (k: i64) {
        self.key
    }
}

/// A card summary as plain values.
pub open spec fn summary_view(s: CardSummary) -> (Seq<char>, Seq<char>, u32, Mastery, u32, u32, bool) {
    (s.ref_key@, s.label@, s.verses, s.mastery, s.reps, s.lapses, s.due)
}

/// The hub's row for a card.
pub open spec fn card_summary_spec(c: CardModel, now: Seq<u8>) -> (Seq<char>, Seq<char>, u32, Mastery, u32, u32, bool) {
    (
        ref_key_spec(c.verse@.0, c.verse@.1, c.verse@.2),
        label_spec(c.verse@, c.through),
        card_span(c.verse@, c.through).len() as u32,
        mastery_spec(c.reviews@.len() > 0, c.reps, c.interval_days),
        c.reps,
        c.lapses,
        card_due(c, now),
    )
}

/// Every card's row with its verse's reading key, in the cards' order.
pub open spec fn card_rows(cards: Seq<CardModel>, now: Seq<u8>) -> Seq<(int, (Seq<char>, Seq<char>, u32, Mastery, u32, u32, bool))> {
    cards.map_values(|c: CardModel| (reading_key(c.verse@), card_summary_spec(c, now)))
}

fn card_verses_view(start: &VRef, through: Option<u16>) -> (r: Vec<VRef>)
    ensures
        vrefs_view(r@) == card_span(start@, through),
{
    let r = card_verses(start, through);
    assert(vrefs_view(r@) =~= card_span(start@, through));
    r
}

/// Every card, one row each, in reading order of its first verse; cards on
/// the same verse keep the order they came in.
pub fn card_list(cards: &Vec<CardModel>, now: &str) -> (r: Vec<CardSummary>)
    ensures
        exists|rows: Seq<Keyed<CardSummary>>, sorted: Seq<Keyed<CardSummary>>|
            rows.map_values(|k: Keyed<CardSummary>| (k.key as int, summary_view(k.item))) == card_rows(
                cards@,
                now.spec_bytes(),
            ) && #[trigger] crate::order::stable_sorted(rows, sorted) && r@.map_values(
                |s: CardSummary| summary_view(s),
            ) == sorted.map_values(|k: Keyed<CardSummary>| summary_view(k.item)),
{
    let ghost want = card_rows(cards@, now.spec_bytes());
    let mut rows: Vec<Keyed<CardSummary>> = Vec::new();
    let mut i: usize = 0;
    while i < cards.len()
        invariant
            i <= cards@.len(),
            want == card_rows(cards@, now.spec_bytes()),
            rows@.map_values(|k: Keyed<CardSummary>| (k.key as int, summary_view(k.item))) == want.take(i as int),
        decreases cards@.len() - i,
    {
        let c = &cards[i];
        let vs = card_verses_view(&c.verse, c.through);
        assert(vs@.len() == card_span(c.verse@, c.through).len());
        assert(vs@.len() <= 65536);
        let summary = CardSummary {
            ref_key: c.verse.ref_key(),
            label: card_label(&c.verse, c.through),
            verses: vs.len() as u32,
            mastery: mastery_of(c.reviews.len() > 0, c.reps, c.interval_days),
            reps: c.reps,
            lapses: c.lapses,
            due: due_on(c.due.as_str(), now),
        };
        let key = c.verse.key_of();
        assert(summary_view(summary) == card_summary_spec(*c, now.spec_bytes()));
        assert(want[i as int] == (reading_key(c.verse@), card_summary_spec(*c, now.spec_bytes())));
        let ghost before = rows@.map_values(|k: Keyed<CardSummary>| (k.key as int, summary_view(k.item)));
        rows.push(Keyed { key, item: summary });
        assert(want.take(i + 1) =~= want.take(i as int).push(want[i as int]));
        assert(rows@.map_values(|k: Keyed<CardSummary>| (k.key as int, summary_view(k.item))) =~= want.take(i + 1));
        i = i + 1;
    }
    assert(want.take(cards@.len() as int) =~= want);
    let ghost all = rows@;
    let mut sorted = crate::order::stable_sort(rows);
    let ghost srt = sorted@;
    assert(crate::order::stable_sorted(all, srt));
    let mut out: Vec<CardSummary> = Vec::new();
    let ghost mut taken: int = 0;
    while sorted.len() > 0
        invariant
            0 <= taken <= srt.len(),
            sorted@ == srt.skip(taken),
            out@.map_values(|s: CardSummary| summary_view(s)) == srt.take(taken).map_values(
                |k: Keyed<CardSummary>| summary_view(k.item),
            ),
        decreases sorted@.len(),
    {
        let k = sorted.remove(0);
        let ghost kv = summary_view(k.item);
        let ghost before = out@.map_values(|s: CardSummary| summary_view(s));
        out.push(k.item);
        assert(out@.map_values(|s: CardSummary| summary_view(s)) =~= before.push(kv));
        proof {
            assert(srt.skip(taken)[0] == srt[taken]);
            assert(srt.skip(taken).remove(0) =~= srt.skip(taken + 1));
            assert(srt.take(taken + 1) =~= srt.take(taken).push(srt[taken]));
            assert(out@.map_values(|s: CardSummary| summary_view(s)) =~= srt.take(taken + 1).map_values(
                |k: Keyed<CardSummary>| summary_view(k.item),
            ));
            taken = taken + 1;
        }
    }
    assert(srt.take(taken) =~= srt);
    out
}

/// A verse's coverage as plain values.
pub open spec fn coverage_view(v: VerseCoverage) -> (Seq<char>, Mastery, u32, u32, Option<Seq<char>>, bool) {
    (
        v.ref_key@,
        v.mastery,
        v.reps,
        v.lapses,
        match v.last_at {
            Some(t) => Some(t@),
            None => None,
        },
        v.due,
    )
}

/// The stamp of a card's latest review.
pub open spec fn last_review(c: CardModel) -> Option<Seq<char>> {
    if c.reviews@.len() > 0 {
        Some(c.reviews@.last()@)
    } else {
        None
    }
}

/// The coverage rows of one card: one per verse it covers, each with that
/// verse's reading key.
pub open spec fn card_coverage(c: CardModel, now: Seq<u8>) -> Seq<(int, (Seq<char>, Mastery, u32, u32, Option<Seq<char>>, bool))> {
    card_span(c.verse@, c.through).map_values(
        |v: (Seq<char>, u16, u16)|
            (
                reading_key(v),
                (
                    ref_key_spec(v.0, v.1, v.2),
                    mastery_spec(c.reviews@.len() > 0, c.reps, c.interval_days),
                    c.reps,
                    c.lapses,
                    last_review(c),
                    card_due(c, now),
                ),
            ),
    )
}

/// The coverage rows of every card, in the cards' order.
pub open spec fn coverage_rows(cards: Seq<CardModel>, now: Seq<u8>) -> Seq<(int, (Seq<char>, Mastery, u32, u32, Option<Seq<char>>, bool))>
    decreases cards.len(),
{
    if cards.len() == 0 {
        Seq::empty()
    } else {
        coverage_rows(cards.drop_last(), now) + card_coverage(cards.last(), now)
    }
}

fn push_card_coverage(rows: &mut Vec<Keyed<VerseCoverage>>, c: &CardModel, now: &str)
    ensures
        final(rows)@.map_values(|k: Keyed<VerseCoverage>| (k.key as int, coverage_view(k.item))) == old(rows)@.map_values(
            |k: Keyed<VerseCoverage>| (k.key as int, coverage_view(k.item)),
        ) + card_coverage(*c, now.spec_bytes()),
{
    let vs = card_verses_view(&c.verse, c.through);
    let m = mastery_of(c.reviews.len() > 0, c.reps, c.interval_days);
    let due = due_on(c.due.as_str(), now);
    let ghost base = rows@.map_values(|k: Keyed<VerseCoverage>| (k.key as int, coverage_view(k.item)));
    let ghost want = card_coverage(*c, now.spec_bytes());
    let mut j: usize = 0;
    while j < vs.len()
        invariant
            j <= vs@.len(),
            vrefs_view(vs@) == card_span(c.verse@, c.through),
            want == card_coverage(*c, now.spec_bytes()),
            m == mastery_spec(c.reviews@.len() > 0, c.reps, c.interval_days),
            due == card_due(*c, now.spec_bytes()),
            rows@.map_values(|k: Keyed<VerseCoverage>| (k.key as int, coverage_view(k.item))) == base + want.take(j as int),
        decreases vs@.len() - j,
    {
        let last_at = if c.reviews.len() > 0 {
            Some(c.reviews[c.reviews.len() - 1].clone())
        } else {
            None
        };
        let v = &vs[j];
        assert(v@ == card_span(c.verse@, c.through)[j as int]);
        let item = VerseCoverage { ref_key: v.ref_key(), mastery: m, reps: c.reps, lapses: c.lapses, last_at, due };
        let key = v.key_of();
        let ghost before = rows@.map_values(|k: Keyed<VerseCoverage>| (k.key as int, coverage_view(k.item)));
        rows.push(Keyed { key, item });
        assert(want.take(j + 1) =~= want.take(j as int).push(want[j as int]));
        assert(rows@.map_values(|k: Keyed<VerseCoverage>| (k.key as int, coverage_view(k.item))) =~= before.push(want[j as int]));
        j = j + 1;
    }
    assert(want.take(vs@.len() as int) =~= want);
}

/// Per-verse coverage across every card, in reading order: a passage card
/// shades every verse it covers. Rows on the same verse keep the order of the
/// cards they came from.
pub fn coverage(cards: &Vec<CardModel>, now: &str) -> (r: Vec<VerseCoverage>)
    ensures
        exists|rows: Seq<Keyed<VerseCoverage>>, sorted: Seq<Keyed<VerseCoverage>>|
            rows.map_values(|k: Keyed<VerseCoverage>| (k.key as int, coverage_view(k.item))) == coverage_rows(
                cards@,
                now.spec_bytes(),
            ) && #[trigger] crate::order::stable_sorted(rows, sorted) && r@.map_values(
                |v: VerseCoverage| coverage_view(v),
            ) == sorted.map_values(|k: Keyed<VerseCoverage>| coverage_view(k.item)),
{
    let mut rows: Vec<Keyed<VerseCoverage>> = Vec::new();
    let mut i: usize = 0;
    while i < cards.len()
        invariant
            i <= cards@.len(),
            rows@.map_values(|k: Keyed<VerseCoverage>| (k.key as int, coverage_view(k.item))) == coverage_rows(
                cards@.take(i as int),
                now.spec_bytes(),
            ),
        decreases cards@.len() - i,
    {
        assert(cards@.take(i + 1).drop_last() =~= cards@.take(i as int));
        assert(cards@.take(i + 1).last() == cards@[i as int]);
        push_card_coverage(&mut rows, &cards[i], now);
        i = i + 1;
    }
    assert(cards@.take(cards@.len() as int) =~= cards@);
    let ghost all = rows@;
    let mut sorted = crate::order::stable_sort(rows);
    let ghost srt = sorted@;
    assert(crate::order::stable_sorted(all, srt));
    let mut out: Vec<VerseCoverage> = Vec::new();
    let ghost mut taken: int = 0;
    while sorted.len() > 0
        invariant
            0 <= taken <= srt.len(),
            sorted@ == srt.skip(taken),
            out@.map_values(|v: VerseCoverage| coverage_view(v)) == srt.take(taken).map_values(
                |k: Keyed<VerseCoverage>| coverage_view(k.item),
            ),
        decreases sorted@.len(),
    {
        let k = sorted.remove(0);
        let ghost kv = coverage_view(k.item);
        let ghost before = out@.map_values(|v: VerseCoverage| coverage_view(v));
        out.push(k.item);
        assert(out@.map_values(|v: VerseCoverage| coverage_view(v)) =~= before.push(kv));
        proof {
            assert(srt.skip(taken)[0] == srt[taken]);
            assert(srt.skip(taken).remove(0) =~= srt.skip(taken + 1));
            assert(srt.take(taken + 1) =~= srt.take(taken).push(srt[taken]));
            assert(out@.map_values(|v: VerseCoverage| coverage_view(v)) =~= srt.take(taken + 1).map_values(
                |k: Keyed<VerseCoverage>| coverage_view(k.item),
            ));
            taken = taken + 1;
        }
    }
    assert(srt.take(taken) =~= srt);
    out
}


// ── coverage by canon section ────────────────────────────────────────────────

/// The first section from `k` on whose book range holds canon position `bi`.
pub open spec fn section_from(segs: Seq<(&'static str, usize, usize)>, bi: int, k: int) -> Option<int>
    decreases segs.len() - k,
{
    if k < 0 || k >= segs.len() {
        None
    } else if segs[k].1 <= bi <= segs[k].2 {
        Some(k)
    } else {
        section_from(segs, bi, k + 1)
    }
}

/// How many verses a card covers.
pub open spec fn card_size(c: CardModel) -> nat {
    card_span(c.verse@, c.through).len()
}

/// What the cards add up to in each section: verses, mature verses, reviews.
/// A card whose book is not in the canon, or in no section, adds nothing.
pub open spec fn section_tally(cards: Seq<CardModel>, segs: Seq<(&'static str, usize, usize)>) -> Seq<(nat, nat, nat)>
    decreases cards.len(),
{
    if cards.len() == 0 {
        Seq::new(segs.len(), |i: int| (0nat, 0nat, 0nat))
    } else {
        let t = section_tally(cards.drop_last(), segs);
        let c = cards.last();
        let bi = book_pos(c.verse@.0);
        if bi < crate::canon::BOOK_COUNT {
            match section_from(segs, bi, 0) {
                Some(s) => t.update(
                    s,
                    (
                        t[s].0 + card_size(c),
                        t[s].1 + if mastery_spec(c.reviews@.len() > 0, c.reps, c.interval_days) == Mastery::Mature {
                            card_size(c)
                        } else {
                            0
                        },
                        t[s].2 + c.reviews@.len(),
                    ),
                ),
                None => t,
            }
        } else {
            t
        }
    }
}

/// The verses and reviews of all the cards together.
pub open spec fn card_load(cards: Seq<CardModel>) -> nat
    decreases cards.len(),
{
    if cards.len() == 0 {
        0
    } else {
        card_load(cards.drop_last()) + card_size(cards.last()) + cards.last().reviews@.len()
    }
}

proof fn lemma_section_from(segs: Seq<(&'static str, usize, usize)>, bi: int, k: int)
    ensures
        section_from(segs, bi, k) matches Some(s) ==> k <= s < segs.len() && segs[s].1 <= bi <= segs[s].2,
    decreases segs.len() - k,
{
    if 0 <= k < segs.len() && !(segs[k].1 <= bi <= segs[k].2) {
        lemma_section_from(segs, bi, k + 1);
    }
}

proof fn lemma_tally_bound(cards: Seq<CardModel>, segs: Seq<(&'static str, usize, usize)>)
    ensures
        section_tally(cards, segs).len() == segs.len(),
        forall|s: int|
            0 <= s < segs.len() ==> (#[trigger] section_tally(cards, segs)[s]).0 + section_tally(cards, segs)[s].2
                <= card_load(cards) && section_tally(cards, segs)[s].1 <= section_tally(cards, segs)[s].0,
    decreases cards.len(),
{
    if cards.len() > 0 {
        lemma_tally_bound(cards.drop_last(), segs);
        let c = cards.last();
        lemma_section_from(segs, book_pos(c.verse@.0), 0);
    }
}

fn section_of(segs: &[(&'static str, usize, usize)], bi: usize) -> (r: Option<usize>)
    ensures
        match section_from(segs@, bi as int, 0) {
            Some(s) => r == Some(s as usize),
            None => r is None,
        },
{
    let mut k: usize = 0;
    while k < segs.len()
        invariant
            k <= segs@.len(),
            section_from(segs@, bi as int, 0) == section_from(segs@, bi as int, k as int),
        decreases segs@.len() - k,
    {
        if segs[k].1 <= bi && bi <= segs[k].2 {
            return Some(k);
        }
        k = k + 1;
    }
    None
}

/// A section's coverage as plain values.
pub open spec fn section_view(c: SectionCoverage) -> (Seq<char>, nat, nat, nat) {
    (c.label@, c.cards as nat, c.mature as nat, c.reviews as nat)
}

/// Coverage rolled up to the sections of the canon that `segments` lays out,
/// each a label and an inclusive range of canon positions: per section, the
/// verses its cards cover, those of them on mature cards, and the reviews
/// logged. A card counts in the first section whose range holds its book.
pub fn coverage_by_section(cards: &Vec<CardModel>, segments: &[(&'static str, usize, usize)]) -> (r: Vec<SectionCoverage>)
    requires
        card_load(cards@) <= u32::MAX,
    ensures
        r@.len() == segments@.len(),
        forall|s: int|
            0 <= s < r@.len() ==> section_view(#[trigger] r@[s]) == (
                segments@[s].0@,
                section_tally(cards@, segments@)[s].0,
                section_tally(cards@, segments@)[s].1,
                section_tally(cards@, segments@)[s].2,
            ),
{
    let mut acc: Vec<SectionCoverage> = Vec::new();
    let mut k: usize = 0;
    while k < segments.len()
        invariant
            k <= segments@.len(),
            acc@.len() == k,
            forall|s: int| 0 <= s < k ==> section_view(#[trigger] acc@[s]) == (segments@[s].0@, 0nat, 0nat, 0nat),
        decreases segments@.len() - k,
    {
        acc.push(SectionCoverage { label: segments[k].0, cards: 0, mature: 0, reviews: 0 });
        k = k + 1;
    }
    proof {
        assert(cards@.take(0) =~= Seq::<CardModel>::empty());
    }
    let mut i: usize = 0;
    while i < cards.len()
        invariant
            i <= cards@.len(),
            card_load(cards@) <= u32::MAX,
            acc@.len() == segments@.len(),
            forall|s: int|
                0 <= s < acc@.len() ==> section_view(#[trigger] acc@[s]) == (
                    segments@[s].0@,
                    section_tally(cards@.take(i as int), segments@)[s].0,
                    section_tally(cards@.take(i as int), segments@)[s].1,
                    section_tally(cards@.take(i as int), segments@)[s].2,
                ),
        decreases cards@.len() - i,
    {
        let ghost pre = cards@.take(i as int);
        let ghost next = cards@.take(i + 1);
        assert(next.drop_last() =~= pre);
        assert(next.last() == cards@[i as int]);
        proof {
            lemma_tally_bound(next, segments@);
            lemma_tally_bound(pre, segments@);
            lemma_load_prefix(cards@, i + 1);
        }
        let c = &cards[i];
        let b = book_position(c.verse.book.as_str());
        let ghost t = section_tally(pre, segments@);
        if b < crate::canon::BOOK_COUNT as u64 {
            let bu = b as usize;
            assert(bu as int == b as int);
            match section_of(segments, bu) {
                Some(s) => {
                    proof {
                        lemma_section_from(segments@, b as int, 0);
                    }
                    let vs = card_verses_view(&c.verse, c.through);
                    let n = vs.len() as u32;
                    let m = mastery_of(c.reviews.len() > 0, c.reps, c.interval_days);
                    let old_c = acc[s].cards;
                    let old_m = acc[s].mature;
                    let old_r = acc[s].reviews;
                    let add_m: u32 = if m == Mastery::Mature { n } else { 0 };
                    let label = acc[s].label;
                    let ghost add: nat = if mastery_spec(c.reviews@.len() > 0, c.reps, c.interval_days) == Mastery::Mature {
                        card_size(*c)
                    } else {
                        0
                    };
                    assert(vs@.len() == card_size(*c));
                    assert(next.last() == *c);
                    assert(book_pos(c.verse@.0) == b as int);
                    assert(section_from(segments@, bu as int, 0) is Some);
                    let ghost x = section_from(segments@, bu as int, 0)->0;
                    let nseg = segments.len();
                    assert(0 <= x < nseg);
                    assert(s as int == x);
                    assert(section_from(segments@, b as int, 0) == Some(s as int));
                    assert(section_tally(next, segments@) == t.update(
                        s as int,
                        (t[s as int].0 + card_size(*c), t[s as int].1 + add, t[s as int].2 + c.reviews@.len()),
                    ));
                    assert(section_tally(next, segments@)[s as int] == (
                        t[s as int].0 + card_size(*c),
                        t[s as int].1 + add,
                        t[s as int].2 + c.reviews@.len(),
                    ));
                    assert(section_view(acc@[s as int]) == (segments@[s as int].0@, t[s as int].0, t[s as int].1, t[s as int].2));
                    acc.set(s, SectionCoverage {
                        label,
                        cards: old_c + n,
                        mature: old_m + add_m,
                        reviews: old_r + c.reviews.len() as u32,
                    });
                },
                None => {
                    assert(section_tally(next, segments@) == t);
                },
            }
        } else {
            assert(section_tally(next, segments@) == t);
        }
        i = i + 1;
    }
    assert(cards@.take(cards@.len() as int) =~= cards@);
    acc
}

proof fn lemma_load_prefix(cards: Seq<CardModel>, k: int)
    requires
        0 <= k <= cards.len(),
    ensures
        card_load(cards.take(k)) <= card_load(cards),
    decreases cards.len(),
{
    if k < cards.len() {
        assert(cards.drop_last().take(k) =~= cards.take(k));
        lemma_load_prefix(cards.drop_last(), k);
    } else {
        assert(cards.take(k) =~= cards);
    }
}


/// The format tag of a memorization card file.
pub const CARD_FORMAT: &'static str = "overlay-memory-v1";

/// Whether a card file's format tag is the one this reader understands.
pub fn is_card_format(tag: &str) -> (r: bool)
    ensures
        r == (tag@ == CARD_FORMAT@),
{
    crate::text::str_eq(tag, CARD_FORMAT)
}

} // verus!
