//! The plain-English overlay. Where the American King James Version words a
//! verse differently from the KJV, the overlay says so as a delta over the
//! KJV's frozen tokens: per verse, runs of tokens `[start, end]` and the phrase
//! that takes their place (empty: the run is dropped). The overlay is a
//! reading aid only; the KJV text underneath is never changed.
//!
//! The text form (JSONL) is read by the shell into [`AkjvVerseRecord`]s; the
//! packed form (`.akjvb`) is read and written here, byte for byte.

use vstd::prelude::*;
use vstd::bytes::{
    spec_u16_from_le_bytes, spec_u16_to_le_bytes, spec_u32_from_le_bytes, spec_u32_to_le_bytes,
    u16_from_le_bytes, u16_to_le_bytes, u32_from_le_bytes, u32_to_le_bytes,
};
use vstd::utf8::{decode_utf8, encode_utf8, valid_utf8};

use crate::reference::VRef;
use crate::text::chars_of;

verus! {

// ── the model ────────────────────────────────────────────────────────────────

/// A run of KJV tokens the AKJV words differently. `text` empty = the AKJV
/// drops the run.
#[derive(Debug, Clone, PartialEq, Eq)]
pub struct AkjvSpan {
    pub start: u16,
    pub end: u16,
    pub text: String,
}

impl View for AkjvSpan {
    type V = (u16, u16, Seq<char>);

    open spec fn view(&self) -> (u16, u16, Seq<char>) {
        (self.start, self.end, self.text@)
    }
}

/// The views of a list of spans.
pub open spec fn spans_view(v: Seq<AkjvSpan>) -> Seq<(u16, u16, Seq<char>)> {
    v.map_values(|s: AkjvSpan| s@)
}

/// One verse of the overlay as the shell read it from a JSONL line: the verse
/// and its runs, as written.
#[derive(Debug)]
pub struct AkjvVerseRecord {
    pub book: String,
    pub chapter: u16,
    pub verse: u16,
    pub spans: Vec<AkjvSpan>,
}

/// Whether a span covers token `tok`.
pub open spec fn covers(s: (u16, u16, Seq<char>), tok: u16) -> bool {
    s.0 <= tok && tok <= s.1
}

/// `s` with `x` placed after every leading span whose start is at most `x`'s.
pub open spec fn insert_by_start(
    s: Seq<(u16, u16, Seq<char>)>,
    x: (u16, u16, Seq<char>),
) -> Seq<(u16, u16, Seq<char>)>
    decreases s.len(),
{
    if s.len() == 0 {
        seq![x]
    } else if s[0].0 <= x.0 {
        seq![s[0]] + insert_by_start(s.drop_first(), x)
    } else {
        seq![x] + s
    }
}

/// The runs of a verse as the overlay keeps them: those with `start <= end`,
/// in order of start, runs with equal starts in the order they were written.
pub open spec fn arrange_spans(ss: Seq<(u16, u16, Seq<char>)>) -> Seq<(u16, u16, Seq<char>)>
    decreases ss.len(),
{
    if ss.len() == 0 {
        Seq::empty()
    } else {
        let prev = arrange_spans(ss.drop_last());
        if ss.last().0 <= ss.last().1 {
            insert_by_start(prev, ss.last())
        } else {
            prev
        }
    }
}

/// Lexicographic order of character sequences, by code point.
pub open spec fn chars_lt(a: Seq<char>, b: Seq<char>) -> bool
    decreases a.len(),
{
    if a.len() == 0 {
        b.len() > 0
    } else if b.len() == 0 {
        false
    } else if a[0] != b[0] {
        (a[0] as u32) < (b[0] as u32)
    } else {
        chars_lt(a.drop_first(), b.drop_first())
    }
}

/// The order of verses in the packed file: by book id, then chapter, then verse.
pub open spec fn key_lt(a: (Seq<char>, u16, u16), b: (Seq<char>, u16, u16)) -> bool {
    chars_lt(a.0, b.0) || (a.0 == b.0 && (a.1 < b.1 || (a.1 == b.1 && a.2 < b.2)))
}

/// Verse keys strictly increase along `es`.
pub open spec fn keys_sorted(
    es: Seq<((Seq<char>, u16, u16), Seq<(u16, u16, Seq<char>)>)>,
) -> bool {
    forall|i: int, j: int| 0 <= i < j < es.len() ==> key_lt(es[i].0, es[j].0)
}

/// `es` with the entry `e` put in its place: replacing the entry of the same
/// verse, or inserted in key order.
pub open spec fn upsert(
    es: Seq<((Seq<char>, u16, u16), Seq<(u16, u16, Seq<char>)>)>,
    e: ((Seq<char>, u16, u16), Seq<(u16, u16, Seq<char>)>),
) -> Seq<((Seq<char>, u16, u16), Seq<(u16, u16, Seq<char>)>)>
    decreases es.len(),
{
    if es.len() == 0 {
        seq![e]
    } else if key_lt(e.0, es[0].0) {
        seq![e] + es
    } else if e.0 == es[0].0 {
        seq![e] + es.drop_first()
    } else {
        seq![es[0]] + upsert(es.drop_first(), e)
    }
}

/// The spans the overlay holds for verse `k` (empty when it has none).
pub open spec fn spans_for(
    es: Seq<((Seq<char>, u16, u16), Seq<(u16, u16, Seq<char>)>)>,
    k: (Seq<char>, u16, u16),
) -> Seq<(u16, u16, Seq<char>)>
    decreases es.len(),
{
    if es.len() == 0 {
        Seq::empty()
    } else if es[0].0 == k {
        es[0].1
    } else {
        spans_for(es.drop_first(), k)
    }
}

/// The first span of `ss` that covers `tok`.
pub open spec fn span_at_spec(ss: Seq<(u16, u16, Seq<char>)>, tok: u16) -> Option<
    (u16, u16, Seq<char>),
>
    decreases ss.len(),
{
    if ss.len() == 0 {
        None
    } else if covers(ss[0], tok) {
        Some(ss[0])
    } else {
        span_at_spec(ss.drop_first(), tok)
    }
}

/// The entry a verse record becomes.
pub open spec fn record_entry(r: AkjvVerseRecord) -> (
    (Seq<char>, u16, u16),
    Seq<(u16, u16, Seq<char>)>,
) {
    ((r.book@, r.chapter, r.verse), arrange_spans(spans_view(r.spans@)))
}

/// The overlay built from records in order: a record with no usable run is
/// skipped, and a later record for the same verse replaces an earlier one.
pub open spec fn entries_from_records(recs: Seq<AkjvVerseRecord>) -> Seq<
    ((Seq<char>, u16, u16), Seq<(u16, u16, Seq<char>)>),
>
    decreases recs.len(),
{
    if recs.len() == 0 {
        Seq::empty()
    } else {
        let es = entries_from_records(recs.drop_last());
        let e = record_entry(recs.last());
        if e.1.len() > 0 {
            upsert(es, e)
        } else {
            es
        }
    }
}

// ── order lemmas ─────────────────────────────────────────────────────────────

proof fn lemma_chars_lt_irreflexive(a: Seq<char>)
    ensures
        !chars_lt(a, a),
    decreases a.len(),
{
    if a.len() > 0 {
        lemma_chars_lt_irreflexive(a.drop_first());
    }
}

proof fn lemma_chars_lt_transitive(a: Seq<char>, b: Seq<char>, c: Seq<char>)
    requires
        chars_lt(a, b),
        chars_lt(b, c),
    ensures
        chars_lt(a, c),
    decreases a.len(),
{
    if a.len() > 0 && b.len() > 0 && c.len() > 0 && a[0] == b[0] && b[0] == c[0] {
        lemma_chars_lt_transitive(a.drop_first(), b.drop_first(), c.drop_first());
    }
}

proof fn lemma_chars_lt_total(a: Seq<char>, b: Seq<char>)
    requires
        a != b,
    ensures
        chars_lt(a, b) || chars_lt(b, a),
    decreases a.len(),
{
    if a.len() == 0 || b.len() == 0 {
        if a.len() == 0 && b.len() == 0 {
            assert(a =~= b);
        }
    } else if a[0] != b[0] {
        vstd::utf8::char_u32_cast(a[0], a[0] as u32);
        vstd::utf8::char_u32_cast(b[0], b[0] as u32);
    } else {
        if a.drop_first() =~= b.drop_first() {
            assert forall|i: int| 0 <= i < a.len() implies a[i] == b[i] by {
                if i > 0 {
                    assert(a[i] == a.drop_first()[i - 1]);
                    assert(b[i] == b.drop_first()[i - 1]);
                }
            }
            assert(a =~= b);
        } else {
            lemma_chars_lt_total(a.drop_first(), b.drop_first());
        }
    }
}

proof fn lemma_chars_lt_asymmetric(a: Seq<char>, b: Seq<char>)
    requires
        chars_lt(a, b),
    ensures
        !chars_lt(b, a),
{
    if chars_lt(b, a) {
        lemma_chars_lt_transitive(a, b, a);
        lemma_chars_lt_irreflexive(a);
    }
}

proof fn lemma_key_order(a: (Seq<char>, u16, u16), b: (Seq<char>, u16, u16))
    ensures
        !key_lt(a, a),
        key_lt(a, b) ==> !key_lt(b, a),
        a != b ==> key_lt(a, b) || key_lt(b, a),
{
    lemma_chars_lt_irreflexive(a.0);
    if chars_lt(a.0, b.0) {
        lemma_chars_lt_asymmetric(a.0, b.0);
    }
    if chars_lt(b.0, a.0) {
        lemma_chars_lt_asymmetric(b.0, a.0);
    }
    if a.0 != b.0 {
        lemma_chars_lt_total(a.0, b.0);
    }
}

proof fn lemma_key_lt_transitive(
    a: (Seq<char>, u16, u16),
    b: (Seq<char>, u16, u16),
    c: (Seq<char>, u16, u16),
)
    requires
        key_lt(a, b),
        key_lt(b, c),
    ensures
        key_lt(a, c),
{
    if chars_lt(a.0, b.0) && chars_lt(b.0, c.0) {
        lemma_chars_lt_transitive(a.0, b.0, c.0);
    }
}

/// Comparing the remainders after an equal prefix decides the order.
proof fn lemma_chars_lt_skip(a: Seq<char>, b: Seq<char>, i: int)
    requires
        0 <= i <= a.len(),
        i <= b.len(),
        a.take(i) == b.take(i),
    ensures
        chars_lt(a, b) == chars_lt(a.skip(i), b.skip(i)),
    decreases i,
{
    if i > 0 {
        assert(a[0] == a.take(i)[0]);
        assert(b[0] == b.take(i)[0]);
        assert(a.drop_first().take(i - 1) == a.take(i).drop_first());
        assert(b.drop_first().take(i - 1) == b.take(i).drop_first());
        lemma_chars_lt_skip(a.drop_first(), b.drop_first(), i - 1);
        assert(a.drop_first().skip(i - 1) == a.skip(i));
        assert(b.drop_first().skip(i - 1) == b.skip(i));
    } else {
        assert(a.skip(0) == a);
        assert(b.skip(0) == b);
    }
}

/// Where `upsert` puts an entry: after the keys below it, replacing an equal key.
proof fn lemma_upsert_at(
    es: Seq<((Seq<char>, u16, u16), Seq<(u16, u16, Seq<char>)>)>,
    e: ((Seq<char>, u16, u16), Seq<(u16, u16, Seq<char>)>),
    p: int,
)
    requires
        0 <= p <= es.len(),
        forall|i: int| 0 <= i < p ==> key_lt(#[trigger] es[i].0, e.0),
        p < es.len() ==> !key_lt(es[p].0, e.0),
    ensures
        upsert(es, e) == if p < es.len() && es[p].0 == e.0 {
            es.take(p) + seq![e] + es.skip(p + 1)
        } else {
            es.take(p) + seq![e] + es.skip(p)
        },
    decreases p,
{
    if p == 0 {
        if es.len() > 0 {
            lemma_key_order(es[0].0, e.0);
            assert(es.skip(1) == es.drop_first());
        }
        assert(es.skip(0) == es);
        assert(es.take(0) + seq![e] == seq![e]);
    } else {
        lemma_key_order(es[0].0, e.0);
        let t = es.drop_first();
        assert forall|i: int| 0 <= i < p - 1 implies key_lt(#[trigger] t[i].0, e.0) by {
            assert(t[i] == es[i + 1]);
        }
        lemma_upsert_at(t, e, p - 1);
        assert(es.take(p) == seq![es[0]] + t.take(p - 1));
        if p < es.len() {
            assert(t.skip(p) == es.skip(p + 1));
        }
        assert(t.skip(p - 1) == es.skip(p));
    }
}

// ── the overlay ──────────────────────────────────────────────────────────────

/// The whole overlay: per verse, the runs that differ, in token order. Verses
/// are held in key order, each at most once.
#[derive(Debug)]
pub struct Akjv {
    entries: Vec<(VRef, Vec<AkjvSpan>)>,
    source: String,
}

/// The model of one stored entry.
pub open spec fn entry_view(e: (VRef, Vec<AkjvSpan>)) -> (
    (Seq<char>, u16, u16),
    Seq<(u16, u16, Seq<char>)>,
) {
    (e.0@, spans_view(e.1@))
}

impl View for Akjv {
    /// The entries in key order, and the provenance line.
    type V = (Seq<((Seq<char>, u16, u16), Seq<(u16, u16, Seq<char>)>)>, Seq<char>);

    closed spec fn view(&self) -> (
        Seq<((Seq<char>, u16, u16), Seq<(u16, u16, Seq<char>)>)>,
        Seq<char>,
    ) {
        (self.entries@.map_values(|e: (VRef, Vec<AkjvSpan>)| entry_view(e)), self.source@)
    }
}

impl Akjv {
    #[verifier::type_invariant]
    closed spec fn inv(self) -> bool {
        keys_sorted(self@.0)
    }

    /// An overlay with no verses.
    pub fn empty() -> (r: Akjv)
        ensures
            r@ == (Seq::<((Seq<char>, u16, u16), Seq<(u16, u16, Seq<char>)>)>::empty(), Seq::<
                char,
            >::empty()),
    {
        let r = Akjv { entries: Vec::new(), source: String::new() };
        assert(r@.0 =~= Seq::empty());
        r
    }

    /// Provenance line from the header.
    pub fn source(&self) -> (r: &str)
        ensures
            r@ == self@.1,
    {
        self.source.as_str()
    }

    /// How many verses carry at least one re-rendering.
    pub fn verse_count(&self) -> (r: usize)
        ensures
            r == self@.0.len(),
    {
        self.entries.len()
    }

    /// The runs this verse re-renders, in token order.
    pub fn spans(&self, vref: &VRef) -> (r: &[AkjvSpan])
        ensures
            spans_view(r@) == spans_for(self@.0, vref@),
    {
        let ghost es = self@.0;
        let mut i: usize = 0;
        assert(es.skip(0) == es);
        while i < self.entries.len()
            invariant
                i <= self.entries@.len(),
                es == self@.0,
                es.len() == self.entries@.len(),
                spans_for(es, vref@) == spans_for(es.skip(i as int), vref@),
            decreases self.entries@.len() - i,
        {
            assert(es[i as int] == entry_view(self.entries@[i as int]));
            if self.entries[i].0 == *vref {
                assert(es.skip(i as int)[0] == es[i as int]);
                return self.entries[i].1.as_slice();
            }
            assert(es.skip(i as int).drop_first() == es.skip(i + 1));
            i = i + 1;
        }
        let empty: &[AkjvSpan] = &[];
        assert(spans_view(empty@) =~= Seq::empty());
        empty
    }

    /// The run covering `tok`, if the AKJV re-renders it. The reader uses this
    /// twice: to know a word is marked, and to answer "what did this replace?".
    pub fn span_at(&self, vref: &VRef, tok: u16) -> (r: Option<&AkjvSpan>)
        ensures
            match span_at_spec(spans_for(self@.0, vref@), tok) {
                Some(s) => r matches Some(x) && x@ == s,
                None => r is None,
            },
    {
        let ss = self.spans(vref);
        let ghost sv = spans_view(ss@);
        let mut i: usize = 0;
        assert(sv.skip(0) == sv);
        while i < ss.len()
            invariant
                i <= ss@.len(),
                sv == spans_view(ss@),
                sv == spans_for(self@.0, vref@),
                sv.len() == ss@.len(),
                span_at_spec(sv, tok) == span_at_spec(sv.skip(i as int), tok),
            decreases ss@.len() - i,
        {
            assert(sv.skip(i as int)[0] == ss@[i as int]@);
            if ss[i].start <= tok && tok <= ss[i].end {
                assert(covers(sv.skip(i as int)[0], tok));
                return Some(&ss[i]);
            }
            assert(sv.skip(i as int).drop_first() == sv.skip(i + 1));
            i = i + 1;
        }
        None
    }

    /// Build the overlay from the header's tokenization stamp and provenance
    /// line and the verse records that followed it. `None` when the stamp is
    /// not `tok_version`: a stale overlay must not be shown over the wrong
    /// text. Runs with `start > end` are dropped, the rest put in token order;
    /// a verse left with no run is skipped, and a later record for a verse
    /// replaces an earlier one.
    pub fn from_records(
        tok_version: &str,
        tokenization: &str,
        source: String,
        records: Vec<AkjvVerseRecord>,
    ) -> (r: Option<Akjv>)
        ensures
            tokenization@ != tok_version@ ==> r is None,
            tokenization@ == tok_version@ ==> (r matches Some(a) && a@ == (
                entries_from_records(records@),
                source@,
            ) && keys_sorted(a@.0)),
    {
        if !crate::text::str_eq(tokenization, tok_version) {
            return None;
        }
        let ghost orig = records@;
        let mut rev = reverse_records(records);
        let mut entries: Vec<(VRef, Vec<AkjvSpan>)> = Vec::new();
        let ghost mut done: int = 0;
        assert(entries@.map_values(|e: (VRef, Vec<AkjvSpan>)| entry_view(e)) =~= Seq::empty());
        while rev.len() > 0
            invariant
                0 <= done <= orig.len(),
                rev@.len() + done == orig.len(),
                forall|i: int| 0 <= i < rev@.len() ==> #[trigger] rev@[i] == orig[orig.len() - 1 - i],
                entries@.map_values(|e: (VRef, Vec<AkjvSpan>)| entry_view(e))
                    == entries_from_records(orig.take(done)),
                keys_sorted(entries@.map_values(|e: (VRef, Vec<AkjvSpan>)| entry_view(e))),
            decreases rev@.len(),
        {
            let rec = rev.pop().unwrap();
            assert(rec == orig[done]);
            assert(orig.take(done + 1).drop_last() == orig.take(done));
            let AkjvVerseRecord { book, chapter, verse, spans } = rec;
            let arranged = arrange(spans);
            if arranged.len() > 0 {
                let key = VRef { book, chapter, verse };
                upsert_entry(&mut entries, key, arranged);
            }
            proof {
                done = done + 1;
            }
        }
        assert(orig.take(orig.len() as int) == orig);
        Some(Akjv { entries, source })
    }
}

impl Default for Akjv {
    fn default() -> (r: Akjv)
        ensures
            r@.0.len() == 0,
            r@.1.len() == 0,
    {
        Akjv::empty()
    }
}

/// `records` back to front.
fn reverse_records(records: Vec<AkjvVerseRecord>) -> (r: Vec<AkjvVerseRecord>)
    ensures
        r@.len() == records@.len(),
        forall|i: int| 0 <= i < r@.len() ==> #[trigger] r@[i] == records@[records@.len() - 1 - i],
{
    let ghost orig = records@;
    let mut src = records;
    let mut out: Vec<AkjvVerseRecord> = Vec::new();
    while src.len() > 0
        invariant
            src@ == orig.take(src@.len() as int),
            out@.len() + src@.len() == orig.len(),
            forall|i: int| 0 <= i < out@.len() ==> #[trigger] out@[i] == orig[orig.len() - 1 - i],
        decreases src@.len(),
    {
        let x = src.pop().unwrap();
        out.push(x);
    }
    out
}

/// `spans` back to front.
fn reverse_spans(spans: Vec<AkjvSpan>) -> (r: Vec<AkjvSpan>)
    ensures
        r@.len() == spans@.len(),
        forall|i: int| 0 <= i < r@.len() ==> #[trigger] r@[i] == spans@[spans@.len() - 1 - i],
{
    let ghost orig = spans@;
    let mut src = spans;
    let mut out: Vec<AkjvSpan> = Vec::new();
    while src.len() > 0
        invariant
            src@ == orig.take(src@.len() as int),
            out@.len() + src@.len() == orig.len(),
            forall|i: int| 0 <= i < out@.len() ==> #[trigger] out@[i] == orig[orig.len() - 1 - i],
        decreases src@.len(),
    {
        let x = src.pop().unwrap();
        out.push(x);
    }
    out
}

proof fn lemma_insert_by_start_at(s: Seq<(u16, u16, Seq<char>)>, x: (u16, u16, Seq<char>), p: int)
    requires
        0 <= p <= s.len(),
        forall|i: int| 0 <= i < p ==> (#[trigger] s[i]).0 <= x.0,
        p < s.len() ==> s[p].0 > x.0,
    ensures
        insert_by_start(s, x) == s.take(p) + seq![x] + s.skip(p),
    decreases p,
{
    if p == 0 {
        assert(s.skip(0) == s);
        assert(s.take(0) + seq![x] == seq![x]);
    } else {
        let t = s.drop_first();
        assert forall|i: int| 0 <= i < p - 1 implies (#[trigger] t[i]).0 <= x.0 by {
            assert(t[i] == s[i + 1]);
        }
        lemma_insert_by_start_at(t, x, p - 1);
        assert(s.take(p) == seq![s[0]] + t.take(p - 1));
        assert(t.skip(p - 1) == s.skip(p));
    }
}

/// The runs of one verse as the overlay keeps them (see [`arrange_spans`]).
fn arrange(spans: Vec<AkjvSpan>) -> (r: Vec<AkjvSpan>)
    ensures
        spans_view(r@) == arrange_spans(spans_view(spans@)),
{
    let ghost orig = spans@;
    let mut rev = reverse_spans(spans);
    let mut out: Vec<AkjvSpan> = Vec::new();
    let ghost mut done: int = 0;
    assert(spans_view(out@) =~= arrange_spans(spans_view(orig.take(0))));
    while rev.len() > 0
        invariant
            0 <= done <= orig.len(),
            rev@.len() + done == orig.len(),
            forall|i: int| 0 <= i < rev@.len() ==> #[trigger] rev@[i] == orig[orig.len() - 1 - i],
            spans_view(out@) == arrange_spans(spans_view(orig.take(done))),
        decreases rev@.len(),
    {
        let x = rev.pop().unwrap();
        assert(x == orig[done]);
        let ghost prev = spans_view(orig.take(done));
        assert(spans_view(orig.take(done + 1)) == prev.push(x@));
        assert(spans_view(orig.take(done + 1)).drop_last() == prev);
        if x.start <= x.end {
            let mut p: usize = 0;
            while p < out.len()
                invariant
                    p <= out@.len(),
                    forall|i: int| 0 <= i < p ==> (#[trigger] out@[i]).start <= x.start,
                ensures
                    p <= out@.len(),
                    forall|i: int| 0 <= i < p ==> (#[trigger] out@[i]).start <= x.start,
                    p < out@.len() ==> out@[p as int].start > x.start,
                decreases out@.len() - p,
            {
                if out[p].start > x.start {
                    break;
                }
                p = p + 1;
            }
            let ghost before = spans_view(out@);
            proof {
                assert forall|i: int| 0 <= i < p implies (#[trigger] before[i]).0 <= x@.0 by {
                    assert(before[i] == out@[i]@);
                }
                if p < out@.len() {
                    assert(before[p as int] == out@[p as int]@);
                }
                lemma_insert_by_start_at(before, x@, p as int);
            }
            out.insert(p, x);
            assert(spans_view(out@) =~= before.take(p as int) + seq![x@] + before.skip(p as int));
        }
        proof {
            done = done + 1;
        }
    }
    assert(orig.take(orig.len() as int) == orig);
    out
}

/// The order of two verse keys: -1, 0 or 1.
pub(crate) fn compare_keys(a: &VRef, b: &VRef) -> (r: i8)
    ensures
        r == -1 <==> key_lt(a@, b@),
        r == 0 <==> a@ == b@,
        r == 1 <==> key_lt(b@, a@),
        -1 <= r <= 1,
{
    proof {
        lemma_key_order(a@, b@);
    }
    let x = chars_of(a.book.as_str());
    let y = chars_of(b.book.as_str());
    let mut i: usize = 0;
    while i < x.len() && i < y.len()
        invariant
            i <= x@.len(),
            i <= y@.len(),
            x@ == a.book@,
            y@ == b.book@,
            x@.take(i as int) == y@.take(i as int),
        decreases x@.len() - i,
    {
        if x[i] != y[i] {
            proof {
                lemma_chars_lt_skip(x@, y@, i as int);
                lemma_chars_lt_skip(y@, x@, i as int);
                vstd::utf8::char_u32_cast(x@[i as int], x@[i as int] as u32);
                vstd::utf8::char_u32_cast(y@[i as int], y@[i as int] as u32);
                assert(x@.skip(i as int)[0] == x@[i as int]);
                assert(y@.skip(i as int)[0] == y@[i as int]);
                assert(x@ != y@);
            }
            if (x[i] as u32) < (y[i] as u32) {
                return -1;
            } else {
                return 1;
            }
        }
        assert(x@.take(i + 1) == x@.take(i as int).push(x@[i as int]));
        assert(y@.take(i + 1) == y@.take(i as int).push(y@[i as int]));
        i = i + 1;
    }
    proof {
        lemma_chars_lt_skip(x@, y@, i as int);
        lemma_chars_lt_skip(y@, x@, i as int);
    }
    if x.len() < y.len() {
        assert(x@ != y@);
        return -1;
    }
    if y.len() < x.len() {
        assert(x@ != y@);
        return 1;
    }
    assert(x@ =~= x@.take(i as int));
    assert(y@ =~= y@.take(i as int));
    if a.chapter < b.chapter {
        -1
    } else if a.chapter > b.chapter {
        1
    } else if a.verse < b.verse {
        -1
    } else if a.verse > b.verse {
        1
    } else {
        0
    }
}

/// Put `(key, spans)` into key-ordered entries (see [`upsert`]).
fn upsert_entry(entries: &mut Vec<(VRef, Vec<AkjvSpan>)>, key: VRef, spans: Vec<AkjvSpan>)
    requires
        keys_sorted(old(entries)@.map_values(|e: (VRef, Vec<AkjvSpan>)| entry_view(e))),
    ensures
        final(entries)@.map_values(|e: (VRef, Vec<AkjvSpan>)| entry_view(e)) == upsert(
            old(entries)@.map_values(|e: (VRef, Vec<AkjvSpan>)| entry_view(e)),
            (key@, spans_view(spans@)),
        ),
        keys_sorted(final(entries)@.map_values(|e: (VRef, Vec<AkjvSpan>)| entry_view(e))),
{
    let ghost es = entries@.map_values(|e: (VRef, Vec<AkjvSpan>)| entry_view(e));
    let ghost e = (key@, spans_view(spans@));
    let mut p: usize = 0;
    let mut c: i8 = 1;
    while p < entries.len()
        invariant
            p <= entries@.len(),
            es == entries@.map_values(|e: (VRef, Vec<AkjvSpan>)| entry_view(e)),
            e.0 == key@,
            forall|i: int| 0 <= i < p ==> key_lt(#[trigger] es[i].0, e.0),
        ensures
            p <= entries@.len(),
            forall|i: int| 0 <= i < p ==> key_lt(#[trigger] es[i].0, e.0),
            p < entries@.len() ==> !key_lt(es[p as int].0, e.0) && (c == 0) == (es[p as int].0
                == e.0),
        decreases entries@.len() - p,
    {
        c = compare_keys(&entries[p].0, &key);
        assert(es[p as int].0 == entries@[p as int].0@);
        proof {
            lemma_key_order(es[p as int].0, e.0);
        }
        if c >= 0 {
            break;
        }
        p = p + 1;
    }
    proof {
        lemma_upsert_at(es, e, p as int);
    }
    let equal = p < entries.len() && c == 0;
    if equal {
        entries.set(p, (key, spans));
    } else {
        entries.insert(p, (key, spans));
    }
    let ghost ns = entries@.map_values(|e: (VRef, Vec<AkjvSpan>)| entry_view(e));
    proof {
        if equal {
            assert(ns =~= es.take(p as int) + seq![e] + es.skip(p + 1));
        } else {
            assert(ns =~= es.take(p as int) + seq![e] + es.skip(p as int));
        }
        assert forall|i: int, j: int| 0 <= i < j < ns.len() implies key_lt(ns[i].0, ns[j].0) by {
            if i < p && j > p {
                if equal {
                    assert(ns[j] == es[j]);
                    lemma_key_order(es[p as int].0, e.0);
                    assert(key_lt(es[i].0, es[j].0));
                } else {
                    assert(ns[j] == es[j - 1]);
                    if j - 1 > p {
                        assert(key_lt(es[p as int].0, es[j - 1].0));
                        lemma_key_order(es[p as int].0, e.0);
                        if es[p as int].0 != e.0 {
                            lemma_key_lt_transitive(e.0, es[p as int].0, es[j - 1].0);
                        }
                    } else {
                        lemma_key_order(es[p as int].0, e.0);
                    }
                    lemma_key_lt_transitive(es[i].0, e.0, es[j - 1].0);
                }
            } else if i == p && j > p {
                lemma_key_order(es[p as int].0, e.0);
                if equal {
                    assert(ns[j] == es[j]);
                    assert(key_lt(es[p as int].0, es[j].0));
                } else {
                    assert(ns[j] == es[j - 1]);
                    if j - 1 > p {
                        assert(key_lt(es[p as int].0, es[j - 1].0));
                        lemma_key_lt_transitive(e.0, es[p as int].0, es[j - 1].0);
                    }
                }
            } else if i > p {
                if equal {
                    assert(ns[i] == es[i] && ns[j] == es[j]);
                } else {
                    assert(ns[i] == es[i - 1] && ns[j] == es[j - 1]);
                }
            }
        }
    }
}

} // verus!

verus! {

// ── the packed form (`.akjvb`) ───────────────────────────────────────────────
//
//   0..8    magic "PLAKJV01"
//   8..12   verse_count u32
//   12..16  span_count  u32
//   16..20  text_count  u32
//   20..24  reserved    u32
//   then    tokenization, then source: u32 length + UTF-8 bytes, padded to 4
//   then    the replacement table, each entry the same way
//   then    verses: book u16, chapter u16, verse u16, n_spans u16
//   then    spans:  start u16, end u16, text u16, pad u16
//
// All integers little-endian. Book ids share the replacement table with the
// replacement phrases: every string is stored once, at its first use.

/// The magic bytes `PLAKJV01`.
pub open spec fn akjvb_magic() -> Seq<u8> {
    seq![0x50u8, 0x4cu8, 0x41u8, 0x4bu8, 0x4au8, 0x56u8, 0x30u8, 0x31u8]
}

/// Little-endian `u16`.
pub open spec fn le16(x: u16) -> Seq<u8> {
    spec_u16_to_le_bytes(x)
}

/// Little-endian `u32`.
pub open spec fn le32(x: u32) -> Seq<u8> {
    spec_u32_to_le_bytes(x)
}

/// `n` zero bytes.
pub open spec fn zeros(n: nat) -> Seq<u8> {
    Seq::new(n, |i: int| 0u8)
}

/// The padding after `n` bytes of string data.
pub open spec fn pad4(n: nat) -> nat {
    ((4 - n % 4) % 4) as nat
}

/// The next multiple of four at or after `e`.
pub open spec fn up4(e: int) -> int {
    e + (4 - e % 4) % 4
}

/// A string as stored: its UTF-8 length, its bytes, zero padding.
pub open spec fn framed(s: Seq<char>) -> Seq<u8> {
    let b = encode_utf8(s);
    le32(b.len() as u32) + b + zeros(pad4(b.len()))
}

/// Several strings stored one after another.
pub open spec fn framed_all(ts: Seq<Seq<char>>) -> Seq<u8>
    decreases ts.len(),
{
    if ts.len() == 0 {
        Seq::empty()
    } else {
        framed_all(ts.drop_last()) + framed(ts.last())
    }
}

/// A record of four `u16`s.
pub open spec fn quad(q: (u16, u16, u16, u16)) -> Seq<u8> {
    le16(q.0) + le16(q.1) + le16(q.2) + le16(q.3)
}

/// Records stored one after another.
pub open spec fn quads(qs: Seq<(u16, u16, u16, u16)>) -> Seq<u8>
    decreases qs.len(),
{
    if qs.len() == 0 {
        Seq::empty()
    } else {
        quads(qs.drop_last()) + quad(qs.last())
    }
}

/// The table with `x` in it: unchanged when it already holds `x`.
pub open spec fn intern_one(t: Seq<Seq<char>>, x: Seq<char>) -> Seq<Seq<char>> {
    if t.contains(x) {
        t
    } else {
        t.push(x)
    }
}

/// The table after the replacement phrases of `ss`.
pub open spec fn intern_spans(t: Seq<Seq<char>>, ss: Seq<(u16, u16, Seq<char>)>) -> Seq<Seq<char>>
    decreases ss.len(),
{
    if ss.len() == 0 {
        t
    } else {
        intern_one(intern_spans(t, ss.drop_last()), ss.last().2)
    }
}

/// The string table of the packed form: every book id and phrase, once, in
/// order of first use (per verse, its book id, then its phrases).
pub open spec fn string_table(es: Seq<((Seq<char>, u16, u16), Seq<(u16, u16, Seq<char>)>)>) -> Seq<
    Seq<char>,
>
    decreases es.len(),
{
    if es.len() == 0 {
        Seq::empty()
    } else {
        intern_spans(intern_one(string_table(es.drop_last()), es.last().0.0), es.last().1)
    }
}

/// Where `x` first stands in `t`.
pub open spec fn first_index(t: Seq<Seq<char>>, x: Seq<char>) -> int
    decreases t.len(),
{
    if t.len() == 0 {
        0
    } else if t[0] == x {
        0
    } else {
        1 + first_index(t.drop_first(), x)
    }
}

/// The verse records: book's table index, chapter, verse, number of runs.
pub open spec fn verse_quads(
    es: Seq<((Seq<char>, u16, u16), Seq<(u16, u16, Seq<char>)>)>,
    t: Seq<Seq<char>>,
) -> Seq<(u16, u16, u16, u16)>
    decreases es.len(),
{
    if es.len() == 0 {
        Seq::empty()
    } else {
        let e = es.last();
        verse_quads(es.drop_last(), t).push(
            (first_index(t, e.0.0) as u16, e.0.1, e.0.2, e.1.len() as u16),
        )
    }
}

/// The span records of one verse: start, end, phrase's table index, zero.
pub open spec fn run_quads(ss: Seq<(u16, u16, Seq<char>)>, t: Seq<Seq<char>>) -> Seq<
    (u16, u16, u16, u16),
> {
    ss.map_values(|s: (u16, u16, Seq<char>)| (s.0, s.1, first_index(t, s.2) as u16, 0u16))
}

/// The span records of every verse, in verse order.
pub open spec fn span_quads(
    es: Seq<((Seq<char>, u16, u16), Seq<(u16, u16, Seq<char>)>)>,
    t: Seq<Seq<char>>,
) -> Seq<(u16, u16, u16, u16)>
    decreases es.len(),
{
    if es.len() == 0 {
        Seq::empty()
    } else {
        span_quads(es.drop_last(), t) + run_quads(es.last().1, t)
    }
}

/// Whether an overlay fits the packed widths: at most 65,536 distinct
/// strings, 65,535 runs per verse, `u32` counts and string lengths.
pub open spec fn akjvb_fits(
    tok: Seq<char>,
    m: (Seq<((Seq<char>, u16, u16), Seq<(u16, u16, Seq<char>)>)>, Seq<char>),
) -> bool {
    let es = m.0;
    let t = string_table(es);
    &&& t.len() <= 65536
    &&& forall|i: int| 0 <= i < es.len() ==> (#[trigger] es[i]).1.len() <= 65535
    &&& es.len() <= u32::MAX
    &&& span_quads(es, t).len() <= u32::MAX
    &&& encode_utf8(tok).len() <= u32::MAX
    &&& encode_utf8(m.1).len() <= u32::MAX
    &&& forall|i: int| 0 <= i < t.len() ==> encode_utf8(#[trigger] t[i]).len() <= u32::MAX
}

/// The packed bytes of an overlay.
#[verifier::opaque]
pub open spec fn akjvb_bytes(
    tok: Seq<char>,
    m: (Seq<((Seq<char>, u16, u16), Seq<(u16, u16, Seq<char>)>)>, Seq<char>),
) -> Seq<u8> {
    let es = m.0;
    let t = string_table(es);
    let sq = span_quads(es, t);
    akjvb_magic() + le32(es.len() as u32) + le32(sq.len() as u32) + le32(t.len() as u32) + le32(0)
        + framed(tok) + framed(m.1) + framed_all(t) + quads(verse_quads(es, t)) + quads(sq)
}

// ── reading the packed form ──────────────────────────────────────────────────

/// The `u16` at `o`, if the bytes reach that far.
pub open spec fn rd16(b: Seq<u8>, o: int) -> Option<u16> {
    if 0 <= o && o + 2 <= b.len() {
        Some(spec_u16_from_le_bytes(b.subrange(o, o + 2)))
    } else {
        None
    }
}

/// The `u32` at `o`, if the bytes reach that far.
pub open spec fn rd32(b: Seq<u8>, o: int) -> Option<u32> {
    if 0 <= o && o + 4 <= b.len() {
        Some(spec_u32_from_le_bytes(b.subrange(o, o + 4)))
    } else {
        None
    }
}

/// The string stored at `o` and where the next item starts: `None` when the
/// bytes end early or are not UTF-8.
pub open spec fn rdstr(b: Seq<u8>, o: int) -> Option<(Seq<char>, int)> {
    match rd32(b, o) {
        Some(n) => {
            let e = o + 4 + n;
            if e <= b.len() && valid_utf8(b.subrange(o + 4, e)) && up4(e) <= b.len() {
                Some((decode_utf8(b.subrange(o + 4, e)), up4(e)))
            } else {
                None
            }
        },
        None => None,
    }
}

/// `k` strings stored from `o` on.
pub open spec fn rdstrs(b: Seq<u8>, o: int, k: nat) -> Option<(Seq<Seq<char>>, int)>
    decreases k,
{
    if k == 0 {
        Some((Seq::empty(), o))
    } else {
        match rdstrs(b, o, (k - 1) as nat) {
            Some((ts, p)) => match rdstr(b, p) {
                Some((s, q)) => Some((ts.push(s), q)),
                None => None,
            },
            None => None,
        }
    }
}

/// `n` span records from `s` on, their phrases looked up in `t`.
pub open spec fn rdspans(b: Seq<u8>, t: Seq<Seq<char>>, s: int, n: nat) -> Option<
    Seq<(u16, u16, Seq<char>)>,
>
    decreases n,
{
    if n == 0 {
        Some(Seq::empty())
    } else {
        match rdspans(b, t, s, (n - 1) as nat) {
            Some(ss) => {
                let o = s + 8 * (n - 1);
                match (rd16(b, o), rd16(b, o + 2), rd16(b, o + 4)) {
                    (Some(st), Some(en), Some(ti)) => if (ti as int) < t.len() {
                        Some(ss.push((st, en, t[ti as int])))
                    } else {
                        None
                    },
                    _ => None,
                }
            },
            None => None,
        }
    }
}

/// The first `k` verses: records from `vat` on, their spans from `sat` on.
/// Also where the spans of the next verse start.
pub open spec fn rdverses(b: Seq<u8>, t: Seq<Seq<char>>, vat: int, sat: int, k: nat) -> Option<
    (Seq<((Seq<char>, u16, u16), Seq<(u16, u16, Seq<char>)>)>, int),
>
    decreases k,
{
    if k == 0 {
        Some((Seq::empty(), sat))
    } else {
        match rdverses(b, t, vat, sat, (k - 1) as nat) {
            Some((es, s)) => {
                let v = vat + 8 * (k - 1);
                match (rd16(b, v), rd16(b, v + 2), rd16(b, v + 4), rd16(b, v + 6)) {
                    (Some(bi), Some(c), Some(vv), Some(n)) => if (bi as int) < t.len() {
                        match rdspans(b, t, s, n as nat) {
                            Some(ss) => Some((es.push(((t[bi as int], c, vv), ss)), s + 8 * n)),
                            None => None,
                        }
                    } else {
                        None
                    },
                    _ => None,
                }
            },
            None => None,
        }
    }
}

/// Entries put in one after another, later ones replacing earlier ones.
pub open spec fn upsert_all(
    es: Seq<((Seq<char>, u16, u16), Seq<(u16, u16, Seq<char>)>)>,
    items: Seq<((Seq<char>, u16, u16), Seq<(u16, u16, Seq<char>)>)>,
) -> Seq<((Seq<char>, u16, u16), Seq<(u16, u16, Seq<char>)>)>
    decreases items.len(),
{
    if items.len() == 0 {
        es
    } else {
        upsert(upsert_all(es, items.drop_last()), items.last())
    }
}

/// What a packed file holds for tokenization `tok`: `None` on a foreign,
/// short or stale file.
#[verifier::opaque]
pub open spec fn decode_akjvb(tok: Seq<char>, b: Seq<u8>) -> Option<
    (Seq<((Seq<char>, u16, u16), Seq<(u16, u16, Seq<char>)>)>, Seq<char>),
> {
    if b.len() < 24 || b.take(8) != akjvb_magic() {
        None
    } else {
        let vc = rd32(b, 8).unwrap() as int;
        let sc = rd32(b, 12).unwrap() as int;
        let tc = rd32(b, 16).unwrap();
        match rdstr(b, 24) {
            Some((tk, p1)) => if tk != tok {
                None
            } else {
                match rdstr(b, p1) {
                    Some((src, p2)) => match rdstrs(b, p2, tc as nat) {
                        Some((t, p3)) => if p3 + 8 * vc + 8 * sc > b.len() {
                            None
                        } else {
                            match rdverses(b, t, p3, p3 + 8 * vc, vc as nat) {
                                Some((list, _)) => Some((upsert_all(Seq::empty(), list), src)),
                                None => None,
                            }
                        },
                        None => None,
                    },
                    None => None,
                }
            },
            None => None,
        }
    }
}

} // verus!

verus! {

// ── writing and reading, executable ──────────────────────────────────────────

fn push_le16(out: &mut Vec<u8>, x: u16)
    ensures
        final(out)@ == old(out)@ + le16(x),
{
    let b = u16_to_le_bytes(x);
    crate::text::push_bytes(out, b.as_slice());
}

pub(crate) fn push_le32(out: &mut Vec<u8>, x: u32)
    ensures
        final(out)@ == old(out)@ + le32(x),
{
    let b = u32_to_le_bytes(x);
    crate::text::push_bytes(out, b.as_slice());
}

fn push_quad(out: &mut Vec<u8>, q: (u16, u16, u16, u16))
    ensures
        final(out)@ == old(out)@ + quad(q),
{
    push_le16(out, q.0);
    push_le16(out, q.1);
    push_le16(out, q.2);
    push_le16(out, q.3);
    assert(out@ =~= old(out)@ + quad(q));
}

/// Appends a stored string; the output stays a multiple of four long.
fn push_framed(out: &mut Vec<u8>, s: &str)
    requires
        old(out)@.len() % 4 == 0,
        encode_utf8(s@).len() <= u32::MAX,
    ensures
        final(out)@ == old(out)@ + framed(s@),
        final(out)@.len() % 4 == 0,
{
    let b = s.as_bytes();
    assert(b@ == encode_utf8(s@));
    push_le32(out, b.len() as u32);
    crate::text::push_bytes(out, b);
    let ghost n = b@.len();
    let ghost base = old(out)@ + le32(n as u32) + b@;
    let ghost mut k: nat = 0;
    assert(le32(n as u32).len() == 4) by {
        vstd::bytes::lemma_auto_spec_u32_to_from_le_bytes();
    }
    assert(out@ =~= base + zeros(0));
    while out.len() % 4 != 0
        invariant
            out@ == base + zeros(k),
            base.len() == old(out)@.len() + 4 + n,
            old(out)@.len() % 4 == 0,
            k <= pad4(n),
        decreases pad4(n) - k,
    {
        out.push(0u8);
        proof {
            k = k + 1;
            assert(out@ =~= base + zeros(k));
        }
    }
}

fn read16(b: &[u8], o: usize) -> (r: Option<u16>)
    ensures
        r == rd16(b@, o as int),
{
    if o <= b.len() && b.len() - o >= 2 {
        Some(u16_from_le_bytes(vstd::slice::slice_subrange(b, o, o + 2)))
    } else {
        None
    }
}

pub(crate) fn read32(b: &[u8], o: usize) -> (r: Option<u32>)
    ensures
        r == rd32(b@, o as int),
{
    if o <= b.len() && b.len() - o >= 4 {
        Some(u32_from_le_bytes(vstd::slice::slice_subrange(b, o, o + 4)))
    } else {
        None
    }
}

fn read_str(b: &[u8], o: usize) -> (r: Option<(String, usize)>)
    ensures
        match rdstr(b@, o as int) {
            Some((s, p)) => r matches Some((x, q)) && x@ == s && q as int == p,
            None => r is None,
        },
{
    let n32 = read32(b, o);
    if n32.is_none() {
        return None;
    }
    let n = n32.unwrap() as usize;
    let len = b.len();
    assert(o + 4 <= len);
    let start = o + 4;
    if n > b.len() - start {
        return None;
    }
    let e = start + n;
    let s = match crate::text::utf8_string(vstd::slice::slice_subrange(b, start, e)) {
        Some(s) => s,
        None => return None,
    };
    let pad = (4 - e % 4) % 4;
    if pad > b.len() - e {
        return None;
    }
    Some((s, e + pad))
}

/// The index of `s` in the table, adding it at the end if it is new. `None`
/// when it is new and the table already holds 65,536 strings.
fn intern<'a>(texts: &mut Vec<&'a str>, s: &'a str) -> (r: Option<u16>)
    requires
        old(texts)@.len() <= 65536,
    ensures
        ({
            let tv = old(texts)@.map_values(|x: &str| x@);
            let nv = final(texts)@.map_values(|x: &str| x@);
            &&& r is Some <==> (tv.contains(s@) || tv.len() < 65536)
            &&& r matches Some(i) ==> nv == intern_one(tv, s@) && i as int == first_index(nv, s@)
                && nv.len() <= 65536
        }),
{
    let ghost tv = texts@.map_values(|x: &str| x@);
    let mut i: usize = 0;
    while i < texts.len()
        invariant
            i <= texts@.len(),
            texts@.len() <= 65536,
            tv == texts@.map_values(|x: &str| x@),
            forall|j: int| 0 <= j < i ==> tv[j] != s@,
        decreases texts@.len() - i,
    {
        if crate::text::str_eq(texts[i], s) {
            proof {
                assert(tv[i as int] == s@);
                lemma_first_index_at(tv, s@, i as int);
            }
            return Some(i as u16);
        }
        i = i + 1;
    }
    assert(!tv.contains(s@));
    if texts.len() >= 65536 {
        return None;
    }
    let k = texts.len();
    texts.push(s);
    proof {
        let nv = texts@.map_values(|x: &str| x@);
        assert(nv =~= tv.push(s@));
        assert forall|j: int| 0 <= j < k implies nv[j] != s@ by {
            assert(nv[j] == tv[j]);
        }
        lemma_first_index_at(nv, s@, k as int);
    }
    Some(k as u16)
}

/// Where `x` first stands, when it first stands at `i`.
proof fn lemma_first_index_at(t: Seq<Seq<char>>, x: Seq<char>, i: int)
    requires
        0 <= i < t.len(),
        t[i] == x,
        forall|j: int| 0 <= j < i ==> t[j] != x,
    ensures
        first_index(t, x) == i,
    decreases i,
{
    if i > 0 {
        let u = t.drop_first();
        assert forall|j: int| 0 <= j < i - 1 implies u[j] != x by {
            assert(u[j] == t[j + 1]);
        }
        lemma_first_index_at(u, x, i - 1);
    }
}

} // verus!

verus! {

// ── packing ──────────────────────────────────────────────────────────────────

proof fn lemma_intern_one_contains(t: Seq<Seq<char>>, x: Seq<char>)
    ensures
        intern_one(t, x).contains(x),
        is_prefix(t, intern_one(t, x)),
{
    if !t.contains(x) {
        assert(t.push(x)[t.len() as int] == x);
    }
}

/// `a` is a prefix of `b`.
pub open spec fn is_prefix(a: Seq<Seq<char>>, b: Seq<Seq<char>>) -> bool {
    a.len() <= b.len() && forall|k: int| 0 <= k < a.len() ==> a[k] == b[k]
}

proof fn lemma_intern_spans_prefix(t: Seq<Seq<char>>, ss: Seq<(u16, u16, Seq<char>)>, j: int)
    requires
        0 <= j <= ss.len(),
    ensures
        is_prefix(intern_spans(t, ss.take(j)), intern_spans(t, ss)),
        is_prefix(t, intern_spans(t, ss)),
    decreases ss.len(),
{
    if ss.len() > 0 {
        let d = ss.drop_last();
        if j < ss.len() {
            assert(d.take(j) == ss.take(j));
            lemma_intern_spans_prefix(t, d, j);
        } else {
            assert(ss.take(j) == ss);
            lemma_intern_spans_prefix(t, d, 0);
        }
        lemma_intern_spans_prefix(t, d, 0);
    } else {
        assert(ss.take(j) == ss);
    }
}

proof fn lemma_table_prefix(
    es: Seq<((Seq<char>, u16, u16), Seq<(u16, u16, Seq<char>)>)>,
    i: int,
)
    requires
        0 <= i <= es.len(),
    ensures
        is_prefix(string_table(es.take(i)), string_table(es)),
    decreases es.len(),
{
    if i == es.len() {
        assert(es.take(i) == es);
    } else {
        let d = es.drop_last();
        assert(d.take(i) == es.take(i));
        lemma_table_prefix(d, i);
        let t0 = string_table(d);
        let t1 = intern_one(t0, es.last().0.0);
        lemma_intern_spans_prefix(t1, es.last().1, 0);
    }
}

proof fn lemma_first_index_prefix(t: Seq<Seq<char>>, u: Seq<Seq<char>>, x: Seq<char>)
    requires
        is_prefix(t, u),
        t.contains(x),
    ensures
        first_index(u, x) == first_index(t, x),
        0 <= first_index(t, x) < t.len(),
        t[first_index(t, x)] == x,
{
    let i = choose|i: int| 0 <= i < t.len() && t[i] == x;
    lemma_first_occurrence(t, x, i);
    let k = first_index(t, x);
    lemma_first_index_at(u, x, k);
}

/// Where `x` first stands is at or before any place it stands.
proof fn lemma_first_occurrence(t: Seq<Seq<char>>, x: Seq<char>, i: int)
    requires
        0 <= i < t.len(),
        t[i] == x,
    ensures
        0 <= first_index(t, x) <= i,
        t[first_index(t, x)] == x,
        forall|j: int| 0 <= j < first_index(t, x) ==> t[j] != x,
    decreases i,
{
    if i > 0 && t[0] != x {
        let u = t.drop_first();
        assert(u[i - 1] == x);
        lemma_first_occurrence(u, x, i - 1);
        assert forall|j: int| 0 <= j < first_index(t, x) implies t[j] != x by {
            if j > 0 {
                assert(t[j] == u[j - 1]);
            }
        }
    }
}

/// Intern the phrases of one verse's runs and append their span records.
/// `false` when the table would pass 65,536 strings.
fn intern_runs<'a>(
    texts: &mut Vec<&'a str>,
    out: &mut Vec<(u16, u16, u16, u16)>,
    runs: &'a [AkjvSpan],
    Ghost(t1): Ghost<Seq<Seq<char>>>,
    Ghost(t): Ghost<Seq<Seq<char>>>,
) -> (ok: bool)
    requires
        old(texts)@.map_values(|x: &str| x@) == t1,
        old(texts)@.len() <= 65536,
        is_prefix(intern_spans(t1, spans_view(runs@)), t),
    ensures
        ok ==> final(texts)@.map_values(|x: &str| x@) == intern_spans(t1, spans_view(runs@)),
        ok ==> final(out)@ == old(out)@ + run_quads(spans_view(runs@), t),
        ok ==> final(texts)@.len() <= 65536,
        !ok ==> t.len() > 65536,
{
    let ghost ss = spans_view(runs@);
    let ghost base = out@;
    let ns = runs.len();
    let mut j: usize = 0;
    assert(ss.take(0) =~= Seq::<(u16, u16, Seq<char>)>::empty());
    assert(run_quads(ss.take(0), t) =~= Seq::<(u16, u16, u16, u16)>::empty());
    assert(out@ =~= base + run_quads(ss.take(0), t));
    while j < ns
        invariant
            j <= ns,
            ns == runs@.len(),
            ss == spans_view(runs@),
            ss.len() == ns,
            is_prefix(intern_spans(t1, ss), t),
            texts@.map_values(|x: &str| x@) == intern_spans(t1, ss.take(j as int)),
            texts@.len() <= 65536,
            out@ == base + run_quads(ss.take(j as int), t),
        decreases ns - j,
    {
        let sp = &runs[j];
        assert(ss[j as int] == sp@);
        proof {
            lemma_intern_spans_prefix(t1, ss, j + 1);
            assert(ss.take(j + 1).drop_last() == ss.take(j as int));
            assert(ss.take(j + 1).last() == ss[j as int]);
        }
        let ti = match intern(texts, sp.text.as_str()) {
            Some(k) => k,
            None => {
                proof {
                    let cur = intern_spans(t1, ss.take(j + 1));
                    assert(cur.len() == 65537);
                }
                return false;
            },
        };
        proof {
            let cur = intern_spans(t1, ss.take(j + 1));
            lemma_intern_one_contains(intern_spans(t1, ss.take(j as int)), sp.text@);
            lemma_first_index_prefix(cur, t, sp.text@);
        }
        out.push((sp.start, sp.end, ti, 0u16));
        proof {
            assert(run_quads(ss.take(j + 1), t) =~= run_quads(ss.take(j as int), t).push(
                (sp.start, sp.end, ti, 0u16),
            ));
        }
        j = j + 1;
    }
    assert(ss.take(ns as int) == ss);
    true
}

/// The string table and the verse and span records of an overlay; `None`
/// when the table would pass 65,536 strings or a verse has more than 65,535
/// runs.
fn intern_all<'a>(a: &'a Akjv) -> (r: Option<
    (Vec<&'a str>, Vec<(u16, u16, u16, u16)>, Vec<(u16, u16, u16, u16)>),
>)
    ensures
        ({
            let es = a@.0;
            let t = string_table(es);
            &&& r is None ==> !(t.len() <= 65536 && forall|i: int|
                0 <= i < es.len() ==> (#[trigger] es[i]).1.len() <= 65535)
            &&& r matches Some((tx, vq, sq)) ==> {
                &&& tx@.map_values(|x: &str| x@) == t
                &&& vq@ == verse_quads(es, t)
                &&& sq@ == span_quads(es, t)
                &&& t.len() <= 65536
                &&& forall|i: int| 0 <= i < es.len() ==> (#[trigger] es[i]).1.len() <= 65535
            }
        }),
{
    let ghost es = a@.0;
    let ghost t = string_table(es);
    let n = a.entries.len();
    let mut texts: Vec<&str> = Vec::new();
    let mut verses: Vec<(u16, u16, u16, u16)> = Vec::new();
    let mut spans: Vec<(u16, u16, u16, u16)> = Vec::new();
    let mut i: usize = 0;
    assert(es.take(0) =~= Seq::<((Seq<char>, u16, u16), Seq<(u16, u16, Seq<char>)>)>::empty());
    assert(texts@.map_values(|x: &str| x@) =~= Seq::<Seq<char>>::empty());
    while i < n
        invariant
            i <= n,
            n == a.entries@.len(),
            es == a@.0,
            es.len() == n,
            t == string_table(es),
            texts@.map_values(|x: &str| x@) == string_table(es.take(i as int)),
            texts@.len() <= 65536,
            verses@ == verse_quads(es.take(i as int), t),
            spans@ == span_quads(es.take(i as int), t),
            forall|j: int| 0 <= j < i ==> (#[trigger] es[j]).1.len() <= 65535,
        decreases n - i,
    {
        let ghost ti = string_table(es.take(i as int));
        let entry = &a.entries[i];
        assert(es[i as int] == entry_view(*entry));
        proof {
            lemma_table_prefix(es, i + 1);
            assert(es.take(i + 1).drop_last() == es.take(i as int));
            assert(es.take(i + 1).last() == es[i as int]);
        }
        let ghost t1 = intern_one(ti, es[i as int].0.0);
        let bi = match intern(&mut texts, entry.0.book.as_str()) {
            Some(k) => k,
            None => {
                proof {
                    lemma_intern_spans_prefix(t1, es[i as int].1, 0);
                    assert(t1.len() == 65537);
                }
                return None;
            },
        };
        proof {
            lemma_intern_spans_prefix(t1, es[i as int].1, 0);
            lemma_intern_one_contains(ti, es[i as int].0.0);
            lemma_first_index_prefix(t1, t, es[i as int].0.0);
        }
        let ns = entry.1.len();
        if ns > 65535 {
            return None;
        }
        verses.push((bi, entry.0.chapter, entry.0.verse, ns as u16));
        if !intern_runs(&mut texts, &mut spans, entry.1.as_slice(), Ghost(t1), Ghost(t)) {
            return None;
        }
        proof {
            assert(verse_quads(es.take(i + 1), t) == verse_quads(es.take(i as int), t).push(
                (bi, entry.0.chapter, entry.0.verse, ns as u16),
            ));
        }
        i = i + 1;
    }
    assert(es.take(n as int) == es);
    Some((texts, verses, spans))
}

/// Pack an overlay; `None` when it does not fit the packed widths.
fn pack(tok: &str, a: &Akjv) -> (r: Option<Vec<u8>>)
    ensures
        r is Some <==> akjvb_fits(tok@, a@),
        r matches Some(b) ==> b@ == akjvb_bytes(tok@, a@),
{
    let ghost es = a@.0;
    let ghost t = string_table(es);
    let n = a.entries.len();
    let (texts, verses, spans) = match intern_all(a) {
        Some(x) => x,
        None => return None,
    };
    if spans.len() > 0xffff_ffff || n > 0xffff_ffff {
        return None;
    }
    if tok.as_bytes().len() > 0xffff_ffff || a.source.as_str().as_bytes().len() > 0xffff_ffff {
        return None;
    }
    let mut k: usize = 0;
    while k < texts.len()
        invariant
            k <= texts@.len(),
            texts@.map_values(|x: &str| x@) == t,
            t == string_table(a@.0),
            forall|m: int| 0 <= m < k ==> encode_utf8(#[trigger] t[m]).len() <= u32::MAX,
        decreases texts@.len() - k,
    {
        if texts[k].as_bytes().len() > 0xffff_ffff {
            assert(encode_utf8(t[k as int]).len() > u32::MAX);
            return None;
        }
        k = k + 1;
    }
    let mut out: Vec<u8> = Vec::new();
    out.push(0x50u8);
    out.push(0x4cu8);
    out.push(0x41u8);
    out.push(0x4bu8);
    out.push(0x4au8);
    out.push(0x56u8);
    out.push(0x30u8);
    out.push(0x31u8);
    push_le32(&mut out, n as u32);
    push_le32(&mut out, spans.len() as u32);
    push_le32(&mut out, texts.len() as u32);
    push_le32(&mut out, 0u32);
    proof {
        vstd::bytes::lemma_auto_spec_u32_to_from_le_bytes();
    }
    push_framed(&mut out, tok);
    push_framed(&mut out, a.source.as_str());
    let ghost head = out@;
    let mut k: usize = 0;
    assert(t.take(0) =~= Seq::<Seq<char>>::empty());
    while k < texts.len()
        invariant
            k <= texts@.len(),
            texts@.map_values(|x: &str| x@) == t,
            forall|m: int| 0 <= m < t.len() ==> encode_utf8(#[trigger] t[m]).len() <= u32::MAX,
            out@ == head + framed_all(t.take(k as int)),
            out@.len() % 4 == 0,
        decreases texts@.len() - k,
    {
        assert(t[k as int] == texts@[k as int]@);
        push_framed(&mut out, texts[k]);
        assert(t.take(k + 1).drop_last() == t.take(k as int));
        k = k + 1;
    }
    assert(t.take(t.len() as int) == t);
    let ghost head2 = out@;
    let mut k: usize = 0;
    assert(verses@.take(0) =~= Seq::<(u16, u16, u16, u16)>::empty());
    while k < verses.len()
        invariant
            k <= verses@.len(),
            out@ == head2 + quads(verses@.take(k as int)),
        decreases verses@.len() - k,
    {
        push_quad(&mut out, verses[k]);
        assert(verses@.take(k + 1).drop_last() == verses@.take(k as int));
        k = k + 1;
    }
    assert(verses@.take(verses@.len() as int) == verses@);
    let ghost head3 = out@;
    let mut k: usize = 0;
    assert(spans@.take(0) =~= Seq::<(u16, u16, u16, u16)>::empty());
    while k < spans.len()
        invariant
            k <= spans@.len(),
            out@ == head3 + quads(spans@.take(k as int)),
        decreases spans@.len() - k,
    {
        push_quad(&mut out, spans[k]);
        assert(spans@.take(k + 1).drop_last() == spans@.take(k as int));
        k = k + 1;
    }
    assert(spans@.take(spans@.len() as int) == spans@);
    reveal(akjvb_bytes);
    assert(out@ =~= akjvb_bytes(tok@, a@));
    Some(out)
}

/// Pack the overlay read from JSONL (its header's stamp and provenance line and
/// its verse records, see [`Akjv::from_records`]). `None` if it is stale, or
/// larger than the packed widths allow: the caller then keeps shipping the
/// JSONL rather than a silently truncated file.
pub fn encode_akjv_bin(
    tok_version: &str,
    tokenization: &str,
    source: String,
    records: Vec<AkjvVerseRecord>,
) -> (r: Option<Vec<u8>>)
    ensures
        tokenization@ != tok_version@ ==> r is None,
        tokenization@ == tok_version@ ==> ({
            let m = (entries_from_records(records@), source@);
            &&& r is Some <==> akjvb_fits(tok_version@, m)
            &&& r matches Some(b) ==> b@ == akjvb_bytes(tok_version@, m)
        }),
{
    match Akjv::from_records(tok_version, tokenization, source, records) {
        Some(a) => pack(tok_version, &a),
        None => None,
    }
}

} // verus!

verus! {

// ── unpacking ────────────────────────────────────────────────────────────────

proof fn lemma_rdstrs_none(b: Seq<u8>, o: int, m: nat, k: nat)
    requires
        m <= k,
        rdstrs(b, o, m) is None,
    ensures
        rdstrs(b, o, k) is None,
    decreases k,
{
    if k > m {
        lemma_rdstrs_none(b, o, m, (k - 1) as nat);
    }
}

proof fn lemma_rdspans_none(b: Seq<u8>, t: Seq<Seq<char>>, s: int, m: nat, k: nat)
    requires
        m <= k,
        rdspans(b, t, s, m) is None,
    ensures
        rdspans(b, t, s, k) is None,
    decreases k,
{
    if k > m {
        lemma_rdspans_none(b, t, s, m, (k - 1) as nat);
    }
}

proof fn lemma_rdverses_none(b: Seq<u8>, t: Seq<Seq<char>>, vat: int, sat: int, m: nat, k: nat)
    requires
        m <= k,
        rdverses(b, t, vat, sat, m) is None,
    ensures
        rdverses(b, t, vat, sat, k) is None,
    decreases k,
{
    if k > m {
        lemma_rdverses_none(b, t, vat, sat, m, (k - 1) as nat);
    }
}

/// `k` stored strings from `o` on.
fn read_table(b: &[u8], o: usize, k: u32) -> (r: Option<(Vec<String>, usize)>)
    ensures
        match rdstrs(b@, o as int, k as nat) {
            Some((ts, p)) => r matches Some((v, q)) && v@.map_values(|x: String| x@) == ts && q
                as int == p,
            None => r is None,
        },
{
    let mut texts: Vec<String> = Vec::new();
    let mut at = o;
    let mut j: u32 = 0;
    assert(texts@.map_values(|x: String| x@) =~= Seq::<Seq<char>>::empty());
    while j < k
        invariant
            j <= k,
            rdstrs(b@, o as int, j as nat) == Some((texts@.map_values(|x: String| x@), at as int)),
        decreases k - j,
    {
        let (s, next) = match read_str(b, at) {
            Some(x) => x,
            None => {
                proof {
                    lemma_rdstrs_none(b@, o as int, (j + 1) as nat, k as nat);
                }
                return None;
            },
        };
        let ghost before = texts@.map_values(|x: String| x@);
        texts.push(s);
        assert(texts@.map_values(|x: String| x@) =~= before.push(s@));
        at = next;
        j = j + 1;
    }
    Some((texts, at))
}

/// `n` span records from `s` on, their phrases looked up in `texts`.
fn read_runs(b: &[u8], texts: &Vec<String>, s: u128, n: u16) -> (r: Option<Vec<AkjvSpan>>)
    requires
        s <= 0xffff_ffff_ffff_ffff_ffff,
    ensures
        match rdspans(b@, texts@.map_values(|x: String| x@), s as int, n as nat) {
            Some(ss) => r matches Some(v) && spans_view(v@) == ss,
            None => r is None,
        },
{
    let ghost tv = texts@.map_values(|x: String| x@);
    let len = b.len();
    let mut out: Vec<AkjvSpan> = Vec::new();
    let mut j: u16 = 0;
    assert(spans_view(out@) =~= Seq::empty());
    while j < n
        invariant
            j <= n,
            len == b@.len(),
            s <= 0xffff_ffff_ffff_ffff_ffff,
            tv == texts@.map_values(|x: String| x@),
            rdspans(b@, tv, s as int, j as nat) == Some(spans_view(out@)),
        decreases n - j,
    {
        let o = s + 8 * (j as u128);
        if o + 6 > len as u128 {
            proof {
                lemma_rdspans_none(b@, tv, s as int, (j + 1) as nat, n as nat);
            }
            return None;
        }
        let ou = o as usize;
        let st = read16(b, ou).unwrap();
        let en = read16(b, ou + 2).unwrap();
        let ti = read16(b, ou + 4).unwrap();
        if ti as usize >= texts.len() {
            proof {
                lemma_rdspans_none(b@, tv, s as int, (j + 1) as nat, n as nat);
            }
            return None;
        }
        assert(tv[ti as int] == texts@[ti as int]@);
        let text = crate::text::string_from(texts[ti as usize].as_str());
        let ghost before = spans_view(out@);
        out.push(AkjvSpan { start: st, end: en, text });
        assert(spans_view(out@) =~= before.push((st, en, tv[ti as int])));
        j = j + 1;
    }
    Some(out)
}

/// One verse record at `v`, its runs read from `s_at` on; also its run count.
fn read_verse(b: &[u8], texts: &Vec<String>, v: usize, s_at: u128) -> (r: Option<
    (VRef, Vec<AkjvSpan>, u16),
>)
    requires
        v + 8 <= b@.len(),
        s_at <= 0xffff_ffff_ffff_ffff_ffff,
    ensures
        ({
            let tv = texts@.map_values(|x: String| x@);
            let bi = rd16(b@, v as int).unwrap();
            let n = rd16(b@, v + 6).unwrap();
            &&& rd16(b@, v as int) is Some && rd16(b@, v + 2) is Some && rd16(b@, v + 4) is Some
                && rd16(b@, v + 6) is Some
            &&& if (bi as int) < tv.len() {
                match rdspans(b@, tv, s_at as int, n as nat) {
                    Some(ss) => r matches Some((k, runs, m)) && k@ == (
                        tv[bi as int],
                        rd16(b@, v + 2).unwrap(),
                        rd16(b@, v + 4).unwrap(),
                    ) && spans_view(runs@) == ss && m == n,
                    None => r is None,
                }
            } else {
                r is None
            }
        }),
{
    let len = b.len();
    assert(v + 8 <= len);
    let bi = read16(b, v).unwrap();
    let c = read16(b, v + 2).unwrap();
    let vv = read16(b, v + 4).unwrap();
    let n = read16(b, v + 6).unwrap();
    if bi as usize >= texts.len() {
        return None;
    }
    let runs = match read_runs(b, texts, s_at, n) {
        Some(x) => x,
        None => return None,
    };
    assert(texts@.map_values(|x: String| x@)[bi as int] == texts@[bi as int]@);
    let book = crate::text::string_from(texts[bi as usize].as_str());
    Some((VRef { book, chapter: c, verse: vv }, runs, n))
}

/// Whether the bytes open with the magic tag.
fn has_magic(b: &[u8]) -> (r: bool)
    requires
        b@.len() >= 8,
    ensures
        r == (b@.take(8) == akjvb_magic()),
{
    let r = b[0] == 0x50u8 && b[1] == 0x4cu8 && b[2] == 0x41u8 && b[3] == 0x4bu8 && b[4] == 0x4au8
        && b[5] == 0x56u8 && b[6] == 0x30u8 && b[7] == 0x31u8;
    if r {
        assert(b@.take(8) =~= akjvb_magic());
    } else {
        assert(b@.take(8) != akjvb_magic()) by {
            if b@.take(8) == akjvb_magic() {
                assert(b@.take(8)[0] == b@[0]);
                assert(b@.take(8)[1] == b@[1]);
                assert(b@.take(8)[2] == b@[2]);
                assert(b@.take(8)[3] == b@[3]);
                assert(b@.take(8)[4] == b@[4]);
                assert(b@.take(8)[5] == b@[5]);
                assert(b@.take(8)[6] == b@[6]);
                assert(b@.take(8)[7] == b@[7]);
            }
        }
    }
    r
}

/// Read the packed form. `None` on a foreign, short or stale file (the
/// tokenization stamp rides inside it). A verse that appears twice keeps its
/// last record.
pub fn parse_akjv_bin(tok_version: &str, bytes: &[u8]) -> (r: Option<Akjv>)
    ensures
        match decode_akjvb(tok_version@, bytes@) {
            Some(m) => r matches Some(a) && a@ == m,
            None => r is None,
        },
{
    reveal(decode_akjvb);
    let len = bytes.len();
    if len < 24 {
        return None;
    }
    if !has_magic(bytes) {
        return None;
    }
    let vc = read32(bytes, 8).unwrap();
    let sc = read32(bytes, 12).unwrap();
    let tc = read32(bytes, 16).unwrap();
    let (tk, p1) = match read_str(bytes, 24) {
        Some(x) => x,
        None => return None,
    };
    if !crate::text::str_eq(tk.as_str(), tok_version) {
        return None;
    }
    let (source, p2) = match read_str(bytes, p1) {
        Some(x) => x,
        None => return None,
    };
    let (texts, p3) = match read_table(bytes, p2, tc) {
        Some(x) => x,
        None => return None,
    };
    let ghost tv = texts@.map_values(|x: String| x@);
    if (p3 as u128) + 8 * (vc as u128) + 8 * (sc as u128) > len as u128 {
        return None;
    }
    let vat = p3;
    let sat = p3 + 8 * (vc as usize);
    assert(decode_akjvb(tok_version@, bytes@) == match rdverses(
        bytes@,
        tv,
        vat as int,
        sat as int,
        vc as nat,
    ) {
        Some((l, _)) => Some((upsert_all(Seq::empty(), l), source@)),
        None => None,
    });
    let mut entries: Vec<(VRef, Vec<AkjvSpan>)> = Vec::new();
    let ghost mut list: Seq<((Seq<char>, u16, u16), Seq<(u16, u16, Seq<char>)>)> = Seq::empty();
    let mut s_at: u128 = sat as u128;
    let mut i: u32 = 0;
    assert(entries@.map_values(|e: (VRef, Vec<AkjvSpan>)| entry_view(e)) =~= Seq::empty());
    while i < vc
        invariant
            i <= vc,
            len == bytes@.len(),
            vat as int + 8 * vc <= len,
            sat == vat + 8 * vc,
            tv == texts@.map_values(|x: String| x@),
            decode_akjvb(tok_version@, bytes@) == match rdverses(
                bytes@,
                tv,
                vat as int,
                sat as int,
                vc as nat,
            ) {
                Some((l, _)) => Some((upsert_all(Seq::empty(), l), source@)),
                None => None,
            },
            rdverses(bytes@, tv, vat as int, sat as int, i as nat) == Some((list, s_at as int)),
            s_at <= sat + 524288 * (i as int),
            entries@.map_values(|e: (VRef, Vec<AkjvSpan>)| entry_view(e)) == upsert_all(
                Seq::empty(),
                list,
            ),
            keys_sorted(entries@.map_values(|e: (VRef, Vec<AkjvSpan>)| entry_view(e))),
        decreases vc - i,
    {
        let v = vat + 8 * (i as usize);
        assert(s_at <= 0xffff_ffff_ffff_ffff_ffff) by {
            assert(524288 * (i as int) <= 524288 * 0xffff_ffffint);
        }
        let (key, runs, n) = match read_verse(bytes, &texts, v, s_at) {
            Some(x) => x,
            None => {
                proof {
                    assert(rdverses(bytes@, tv, vat as int, sat as int, (i + 1) as nat) is None);
                    lemma_rdverses_none(bytes@, tv, vat as int, sat as int, (i + 1) as nat, vc as nat);
                }
                return None;
            },
        };
        let ghost before = list;
        let ghost e = (key@, spans_view(runs@));
        proof {
            list = list.push(e);
            assert(list.drop_last() == before);
        }
        upsert_entry(&mut entries, key, runs);
        assert(rdverses(bytes@, tv, vat as int, sat as int, (i + 1) as nat) == Some(
            (list, s_at + 8 * n),
        ));
        s_at = s_at + 8 * (n as u128);
        assert(s_at <= sat + 524288 * (i as int) + 524288);
        i = i + 1;
    }
    Some(Akjv { entries, source })
}

} // verus!

verus! {

// ── the packed form reads back what was packed ───────────────────────────────

/// `x` stands in `b` at `o`.
pub open spec fn at(b: Seq<u8>, o: int, x: Seq<u8>) -> bool {
    0 <= o && o + x.len() <= b.len() && b.subrange(o, o + x.len()) == x
}

proof fn lemma_at_split(b: Seq<u8>, o: int, x: Seq<u8>, y: Seq<u8>)
    requires
        at(b, o, x + y),
    ensures
        at(b, o, x),
        at(b, o + x.len(), y),
{
    let w = b.subrange(o, o + x.len() + y.len());
    assert forall|i: int| 0 <= i < x.len() implies b.subrange(o, o + x.len())[i] == x[i] by {
        assert(w[i] == b[o + i]);
        assert(w[i] == (x + y)[i]);
    }
    assert(b.subrange(o, o + x.len()) =~= x);
    assert forall|i: int| 0 <= i < y.len() implies b.subrange(
        o + x.len(),
        o + x.len() + y.len(),
    )[i] == y[i] by {
        assert(w[x.len() + i] == b[o + x.len() + i]);
        assert(w[x.len() + i] == (x + y)[x.len() + i]);
    }
    assert(b.subrange(o + x.len(), o + x.len() + y.len()) =~= y);
}

proof fn lemma_rd16_at(b: Seq<u8>, o: int, x: u16)
    requires
        at(b, o, le16(x)),
    ensures
        rd16(b, o) == Some(x),
{
    vstd::bytes::lemma_auto_spec_u16_to_from_le_bytes();
}

proof fn lemma_rd32_at(b: Seq<u8>, o: int, x: u32)
    requires
        at(b, o, le32(x)),
    ensures
        rd32(b, o) == Some(x),
{
    vstd::bytes::lemma_auto_spec_u32_to_from_le_bytes();
}

proof fn lemma_framed_len(s: Seq<char>)
    ensures
        framed(s).len() == 4 + encode_utf8(s).len() + pad4(encode_utf8(s).len()),
        framed(s).len() % 4 == 0,
{
    let n = encode_utf8(s).len();
    assert(le32(n as u32).len() == 4) by {
        vstd::bytes::lemma_auto_spec_u32_to_from_le_bytes();
    }
    assert((4 + n + pad4(n)) % 4 == 0) by {
        let r = n % 4;
        assert(n == 4 * (n / 4) + r);
    }
}

proof fn lemma_rdstr_at(b: Seq<u8>, o: int, s: Seq<char>)
    requires
        o % 4 == 0,
        at(b, o, framed(s)),
        encode_utf8(s).len() <= u32::MAX,
    ensures
        rdstr(b, o) == Some((s, o + framed(s).len())),
{
    let e = encode_utf8(s);
    let n = e.len();
    lemma_framed_len(s);
    vstd::bytes::lemma_auto_spec_u32_to_from_le_bytes();
    lemma_at_split(b, o, le32(n as u32) + e, zeros(pad4(n)));
    lemma_at_split(b, o, le32(n as u32), e);
    lemma_rd32_at(b, o, n as u32);
    vstd::utf8::encode_utf8_valid_utf8(s);
    vstd::utf8::encode_utf8_decode_utf8(s);
    assert(up4(o + 4 + n) == o + 4 + n + pad4(n));
}

proof fn lemma_rdstrs_at(b: Seq<u8>, o: int, ts: Seq<Seq<char>>)
    requires
        o % 4 == 0,
        at(b, o, framed_all(ts)),
        forall|i: int| 0 <= i < ts.len() ==> encode_utf8(#[trigger] ts[i]).len() <= u32::MAX,
    ensures
        rdstrs(b, o, ts.len()) == Some((ts, o + framed_all(ts).len())),
        framed_all(ts).len() % 4 == 0,
    decreases ts.len(),
{
    if ts.len() > 0 {
        let d = ts.drop_last();
        lemma_at_split(b, o, framed_all(d), framed(ts.last()));
        assert forall|i: int| 0 <= i < d.len() implies encode_utf8(#[trigger] d[i]).len()
            <= u32::MAX by {
            assert(d[i] == ts[i]);
        }
        lemma_rdstrs_at(b, o, d);
        lemma_framed_len(ts.last());
        lemma_rdstr_at(b, o + framed_all(d).len(), ts.last());
        assert(d.push(ts.last()) == ts);
        assert((ts.len() - 1) as nat == d.len());
    } else {
        assert(ts == Seq::<Seq<char>>::empty());
    }
}

proof fn lemma_quads_len(q: Seq<(u16, u16, u16, u16)>)
    ensures
        quads(q).len() == 8 * q.len(),
    decreases q.len(),
{
    vstd::bytes::lemma_auto_spec_u16_to_from_le_bytes();
    if q.len() > 0 {
        lemma_quads_len(q.drop_last());
    }
}

proof fn lemma_quads_add(p: Seq<(u16, u16, u16, u16)>, q: Seq<(u16, u16, u16, u16)>)
    ensures
        quads(p + q) == quads(p) + quads(q),
    decreases q.len(),
{
    if q.len() == 0 {
        assert(p + q == p);
        assert(quads(p) + quads(q) =~= quads(p));
    } else {
        assert((p + q).drop_last() == p + q.drop_last());
        assert((p + q).last() == q.last());
        lemma_quads_add(p, q.drop_last());
        assert(quads(p + q) =~= quads(p) + quads(q));
    }
}

/// The quad at position `k` of a run of quads.
proof fn lemma_quad_at(b: Seq<u8>, o: int, q: Seq<(u16, u16, u16, u16)>, k: int)
    requires
        at(b, o, quads(q)),
        0 <= k < q.len(),
    ensures
        rd16(b, o + 8 * k) == Some(q[k].0),
        rd16(b, o + 8 * k + 2) == Some(q[k].1),
        rd16(b, o + 8 * k + 4) == Some(q[k].2),
        rd16(b, o + 8 * k + 6) == Some(q[k].3),
{
    let a = q.take(k);
    let rest = q.skip(k + 1);
    assert(q == a + seq![q[k]] + rest);
    lemma_quads_add(a, seq![q[k]]);
    lemma_quads_add(a + seq![q[k]], rest);
    lemma_quads_len(a);
    assert(quads(seq![q[k]]) =~= quad(q[k])) by {
        assert(seq![q[k]].drop_last() =~= Seq::<(u16, u16, u16, u16)>::empty());
        reveal_with_fuel(quads, 2);
        assert(quads(Seq::<(u16, u16, u16, u16)>::empty()) == Seq::<u8>::empty());
    }
    lemma_at_split(b, o, quads(a) + quad(q[k]), quads(rest));
    lemma_at_split(b, o, quads(a), quad(q[k]));
    vstd::bytes::lemma_auto_spec_u16_to_from_le_bytes();
    let o2 = o + 8 * k;
    lemma_at_split(b, o2, le16(q[k].0) + le16(q[k].1) + le16(q[k].2), le16(q[k].3));
    lemma_at_split(b, o2, le16(q[k].0) + le16(q[k].1), le16(q[k].2));
    lemma_at_split(b, o2, le16(q[k].0), le16(q[k].1));
    lemma_rd16_at(b, o2, q[k].0);
    lemma_rd16_at(b, o2 + 2, q[k].1);
    lemma_rd16_at(b, o2 + 4, q[k].2);
    lemma_rd16_at(b, o2 + 6, q[k].3);
}

proof fn lemma_rdspans_at(b: Seq<u8>, t: Seq<Seq<char>>, s: int, ss: Seq<(u16, u16, Seq<char>)>)
    requires
        at(b, s, quads(run_quads(ss, t))),
        forall|i: int| 0 <= i < ss.len() ==> t.contains(#[trigger] ss[i].2),
        t.len() <= 65536,
    ensures
        rdspans(b, t, s, ss.len()) == Some(ss),
    decreases ss.len(),
{
    if ss.len() > 0 {
        let d = ss.drop_last();
        let k = ss.len() - 1;
        let q = run_quads(ss, t);
        assert(run_quads(ss, t) == run_quads(d, t).push(q[k]));
        lemma_quads_add(run_quads(d, t), seq![q[k]]);
        assert(run_quads(d, t) + seq![q[k]] == run_quads(ss, t));
        lemma_at_split(b, s, quads(run_quads(d, t)), quads(seq![q[k]]));
        assert forall|i: int| 0 <= i < d.len() implies t.contains(#[trigger] d[i].2) by {
            assert(d[i] == ss[i]);
        }
        lemma_rdspans_at(b, t, s, d);
        lemma_quad_at(b, s, q, k);
        let x = ss[k].2;
        assert(t.contains(x));
        lemma_first_index_prefix(t, t, x);
        assert(d.push(ss[k]) == ss);
        assert((ss.len() - 1) as nat == d.len());
    } else {
        assert(ss == Seq::<(u16, u16, Seq<char>)>::empty());
    }
}

/// Every string of the overlay is in its table.
pub open spec fn table_holds(
    es: Seq<((Seq<char>, u16, u16), Seq<(u16, u16, Seq<char>)>)>,
    t: Seq<Seq<char>>,
) -> bool {
    forall|i: int|
        0 <= i < es.len() ==> t.contains((#[trigger] es[i]).0.0) && forall|j: int|
            0 <= j < es[i].1.len() ==> t.contains(#[trigger] es[i].1[j].2)
}

proof fn lemma_contains_grows(t: Seq<Seq<char>>, u: Seq<Seq<char>>, x: Seq<char>)
    requires
        is_prefix(t, u),
        t.contains(x),
    ensures
        u.contains(x),
{
    let i = choose|i: int| 0 <= i < t.len() && t[i] == x;
    assert(u[i] == x);
}

proof fn lemma_intern_spans_holds(t: Seq<Seq<char>>, ss: Seq<(u16, u16, Seq<char>)>)
    ensures
        forall|j: int| 0 <= j < ss.len() ==> intern_spans(t, ss).contains(#[trigger] ss[j].2),
    decreases ss.len(),
{
    if ss.len() > 0 {
        let d = ss.drop_last();
        lemma_intern_spans_holds(t, d);
        let u = intern_spans(t, d);
        lemma_intern_one_contains(u, ss.last().2);
        assert forall|j: int| 0 <= j < ss.len() implies intern_spans(t, ss).contains(
            #[trigger] ss[j].2,
        ) by {
            if j < ss.len() - 1 {
                assert(ss[j] == d[j]);
                lemma_contains_grows(u, intern_spans(t, ss), d[j].2);
            }
        }
    }
}

proof fn lemma_table_holds(es: Seq<((Seq<char>, u16, u16), Seq<(u16, u16, Seq<char>)>)>)
    ensures
        table_holds(es, string_table(es)),
    decreases es.len(),
{
    if es.len() > 0 {
        let d = es.drop_last();
        let e = es.last();
        lemma_table_holds(d);
        let t0 = string_table(d);
        let t1 = intern_one(t0, e.0.0);
        let t = string_table(es);
        lemma_intern_one_contains(t0, e.0.0);
        lemma_intern_spans_prefix(t1, e.1, 0);
        lemma_intern_spans_holds(t1, e.1);
        assert forall|i: int| 0 <= i < es.len() implies t.contains((#[trigger] es[i]).0.0)
            && forall|j: int| 0 <= j < es[i].1.len() ==> t.contains(#[trigger] es[i].1[j].2) by {
            if i < es.len() - 1 {
                assert(es[i] == d[i]);
                lemma_contains_grows(t0, t1, d[i].0.0);
                lemma_contains_grows(t1, t, d[i].0.0);
                assert forall|j: int| 0 <= j < es[i].1.len() implies t.contains(
                    #[trigger] es[i].1[j].2,
                ) by {
                    assert(t0.contains(d[i].1[j].2));
                    lemma_contains_grows(t0, t1, d[i].1[j].2);
                    lemma_contains_grows(t1, t, d[i].1[j].2);
                }
            } else {
                lemma_contains_grows(t1, t, e.0.0);
            }
        }
    }
}

proof fn lemma_rdverses_at(
    b: Seq<u8>,
    t: Seq<Seq<char>>,
    vat: int,
    sat: int,
    es: Seq<((Seq<char>, u16, u16), Seq<(u16, u16, Seq<char>)>)>,
)
    requires
        at(b, vat, quads(verse_quads(es, t))),
        at(b, sat, quads(span_quads(es, t))),
        table_holds(es, t),
        t.len() <= 65536,
        forall|i: int| 0 <= i < es.len() ==> (#[trigger] es[i]).1.len() <= 65535,
    ensures
        rdverses(b, t, vat, sat, es.len()) == Some((es, sat + 8 * span_quads(es, t).len())),
    decreases es.len(),
{
    if es.len() > 0 {
        let d = es.drop_last();
        let e = es.last();
        let k = es.len() - 1;
        let vq = verse_quads(es, t);
        let sd = span_quads(d, t);
        let rq = run_quads(e.1, t);
        lemma_verse_quads_len(es, t);
        assert(verse_quads(d, t) + seq![vq[k]] =~= vq);
        lemma_quads_add(verse_quads(d, t), seq![vq[k]]);
        lemma_at_split(b, vat, quads(verse_quads(d, t)), quads(seq![vq[k]]));
        lemma_quads_add(sd, rq);
        lemma_at_split(b, sat, quads(sd), quads(rq));
        assert forall|i: int| 0 <= i < d.len() implies (#[trigger] d[i]).1.len() <= 65535 by {
            assert(d[i] == es[i]);
        }
        assert(table_holds(d, t)) by {
            assert forall|i: int| 0 <= i < d.len() implies t.contains((#[trigger] d[i]).0.0)
                && forall|j: int| 0 <= j < d[i].1.len() ==> t.contains(#[trigger] d[i].1[j].2) by {
                assert(d[i] == es[i]);
            }
        }
        lemma_rdverses_at(b, t, vat, sat, d);
        lemma_quad_at(b, vat, vq, k);
        assert(t.contains(e.0.0));
        lemma_first_index_prefix(t, t, e.0.0);
        lemma_quads_len(sd);
        assert forall|i: int| 0 <= i < e.1.len() implies t.contains(#[trigger] e.1[i].2) by {
            assert(t.contains(es[k].1[i].2));
        }
        lemma_rdspans_at(b, t, sat + 8 * sd.len(), e.1);
        assert(d.push(e) == es);
        assert((es.len() - 1) as nat == d.len());
        assert(span_quads(es, t).len() == sd.len() + e.1.len());
    } else {
        assert(es == Seq::<((Seq<char>, u16, u16), Seq<(u16, u16, Seq<char>)>)>::empty());
    }
}

proof fn lemma_verse_quads_len(
    es: Seq<((Seq<char>, u16, u16), Seq<(u16, u16, Seq<char>)>)>,
    t: Seq<Seq<char>>,
)
    ensures
        verse_quads(es, t).len() == es.len(),
    decreases es.len(),
{
    if es.len() > 0 {
        lemma_verse_quads_len(es.drop_last(), t);
    }
}

proof fn lemma_upsert_all_sorted(es: Seq<((Seq<char>, u16, u16), Seq<(u16, u16, Seq<char>)>)>)
    requires
        keys_sorted(es),
    ensures
        upsert_all(Seq::empty(), es) == es,
    decreases es.len(),
{
    if es.len() > 0 {
        let d = es.drop_last();
        assert(keys_sorted(d));
        lemma_upsert_all_sorted(d);
        assert forall|i: int| 0 <= i < d.len() implies key_lt(#[trigger] d[i].0, es.last().0) by {
            assert(d[i] == es[i]);
        }
        lemma_upsert_at(d, es.last(), d.len() as int);
        assert(d.take(d.len() as int) + seq![es.last()] + d.skip(d.len() as int) =~= es);
    }
}

proof fn lemma_header(b: Seq<u8>, h: Seq<u8>, vc: u32, sc: u32, tc: u32)
    requires
        h == akjvb_magic() + le32(vc) + le32(sc) + le32(tc) + le32(0),
        at(b, 0, h),
    ensures
        b.len() >= 24,
        b.take(8) == akjvb_magic(),
        rd32(b, 8) == Some(vc),
        rd32(b, 12) == Some(sc),
        rd32(b, 16) == Some(tc),
{
    vstd::bytes::lemma_auto_spec_u32_to_from_le_bytes();
    let m = akjvb_magic();
    lemma_at_split(b, 0, m + le32(vc) + le32(sc) + le32(tc), le32(0));
    lemma_at_split(b, 0, m + le32(vc) + le32(sc), le32(tc));
    lemma_at_split(b, 0, m + le32(vc), le32(sc));
    lemma_at_split(b, 0, m, le32(vc));
    lemma_rd32_at(b, 8, vc);
    lemma_rd32_at(b, 12, sc);
    lemma_rd32_at(b, 16, tc);
    assert(b.take(8) =~= b.subrange(0, 8));
}

/// What the packed form holds is exactly the overlay that was packed: for
/// every overlay that fits the packed widths, reading its packed bytes back
/// with the same tokenization stamp gives the same verses, runs and
/// provenance line.
pub proof fn lemma_packed_round_trip(
    tok: Seq<char>,
    m: (Seq<((Seq<char>, u16, u16), Seq<(u16, u16, Seq<char>)>)>, Seq<char>),
)
    requires
        keys_sorted(m.0),
        akjvb_fits(tok, m),
    ensures
        decode_akjvb(tok, akjvb_bytes(tok, m)) == Some(m),
{
    let es = m.0;
    let t = string_table(es);
    let sq = span_quads(es, t);
    let b = akjvb_bytes(tok, m);
    let p1: int = 24 + framed(tok).len() as int;
    let p2: int = p1 + framed(m.1).len();
    let p3: int = p2 + framed_all(t).len();
    let qv = quads(verse_quads(es, t));
    lemma_layout(tok, m);
    lemma_framed_len(tok);
    lemma_framed_len(m.1);
    assert(rdstr(b, 24) == Some((tok, p1))) by {
        lemma_rdstr_at(b, 24, tok);
    }
    assert(rdstr(b, p1) == Some((m.1, p2))) by {
        lemma_rdstr_at(b, p1, m.1);
    }
    assert(rdstrs(b, p2, t.len()) == Some((t, p3)) && p3 % 4 == 0) by {
        lemma_rdstrs_at(b, p2, t);
    }
    assert(qv.len() == 8 * es.len() && quads(sq).len() == 8 * sq.len()) by {
        lemma_verse_quads_len(es, t);
        lemma_quads_len(verse_quads(es, t));
        lemma_quads_len(sq);
    }
    assert(rdverses(b, t, p3, p3 + 8 * es.len(), es.len()) == Some(
        (es, p3 + 8 * es.len() + 8 * sq.len()),
    )) by {
        lemma_table_holds(es);
        lemma_rdverses_at(b, t, p3, p3 + 8 * es.len(), es);
    }
    assert(upsert_all(Seq::empty(), es) == es) by {
        lemma_upsert_all_sorted(es);
    }
    assert(t.len() as u32 as nat == t.len());
    let vc = es.len() as u32;
    let sc = sq.len() as u32;
    assert(vc == es.len() && sc == sq.len());
    assert(rd32(b, 8) == Some(vc) && rd32(b, 12) == Some(sc));
    assert(p3 + 8 * vc + 8 * sc <= b.len());
    lemma_decode_by_parts(tok, b, m.1, t, es, p1, p2, p3, vc, sc);
    assert(m == (es, m.1));
}

/// Where each part of the packed bytes stands.
proof fn lemma_layout(
    tok: Seq<char>,
    m: (Seq<((Seq<char>, u16, u16), Seq<(u16, u16, Seq<char>)>)>, Seq<char>),
)
    requires
        akjvb_fits(tok, m),
    ensures
        ({
            let es = m.0;
            let t = string_table(es);
            let sq = span_quads(es, t);
            let b = akjvb_bytes(tok, m);
            let p1: int = 24 + framed(tok).len() as int;
            let p2: int = p1 + framed(m.1).len();
            let p3: int = p2 + framed_all(t).len();
            let qv = quads(verse_quads(es, t));
            &&& b.len() >= 24
            &&& b.take(8) == akjvb_magic()
            &&& rd32(b, 8) == Some(es.len() as u32)
            &&& rd32(b, 12) == Some(sq.len() as u32)
            &&& rd32(b, 16) == Some(t.len() as u32)
            &&& at(b, 24, framed(tok))
            &&& at(b, p1, framed(m.1))
            &&& at(b, p2, framed_all(t))
            &&& at(b, p3, qv)
            &&& at(b, p3 + qv.len(), quads(sq))
            &&& b.len() == p3 + qv.len() + quads(sq).len()
        }),
{
    let es = m.0;
    let t = string_table(es);
    let vq = verse_quads(es, t);
    let sq = span_quads(es, t);
    let h = akjvb_magic() + le32(es.len() as u32) + le32(sq.len() as u32) + le32(t.len() as u32)
        + le32(0);
    let f1 = framed(tok);
    let f2 = framed(m.1);
    let fa = framed_all(t);
    let qv = quads(vq);
    let qs = quads(sq);
    let b = akjvb_bytes(tok, m);
    reveal(akjvb_bytes);
    vstd::bytes::lemma_auto_spec_u32_to_from_le_bytes();
    assert(h.len() == 24);
    let x4 = h + f1 + f2 + fa;
    let x3 = h + f1 + f2;
    let x2 = h + f1;
    assert(at(b, 0, b)) by {
        assert(b.subrange(0, b.len() as int) =~= b);
    }
    lemma_at_split(b, 0, x4 + qv, qs);
    lemma_at_split(b, 0, x4, qv);
    lemma_at_split(b, 0, x3, fa);
    lemma_at_split(b, 0, x2, f2);
    lemma_at_split(b, 0, h, f1);
    lemma_header(b, h, es.len() as u32, sq.len() as u32, t.len() as u32);
}

proof fn lemma_decode_by_parts(
    tok: Seq<char>,
    b: Seq<u8>,
    src: Seq<char>,
    t: Seq<Seq<char>>,
    es: Seq<((Seq<char>, u16, u16), Seq<(u16, u16, Seq<char>)>)>,
    p1: int,
    p2: int,
    p3: int,
    vc: u32,
    sc: u32,
)
    requires
        b.len() >= 24,
        b.take(8) == akjvb_magic(),
        rd32(b, 8) == Some(vc),
        rd32(b, 12) == Some(sc),
        rd32(b, 16) == Some(t.len() as u32),
        t.len() as u32 as nat == t.len(),
        rdstr(b, 24) == Some((tok, p1)),
        rdstr(b, p1) == Some((src, p2)),
        rdstrs(b, p2, t.len()) == Some((t, p3)),
        p3 + 8 * vc + 8 * sc <= b.len(),
        vc == es.len(),
        rdverses(b, t, p3, p3 + 8 * vc, vc as nat) matches Some((l, _)) && l == es,
    ensures
        decode_akjvb(tok, b) == Some((upsert_all(Seq::empty(), es), src)),
{
    reveal(decode_akjvb);
}

/// What [`parse_akjv_bin`] gives back of what [`encode_akjv_bin`] wrote: the
/// overlay itself, verse for verse and run for run.
pub proof fn lemma_encode_then_parse(
    tok: Seq<char>,
    source: Seq<char>,
    records: Seq<AkjvVerseRecord>,
)
    requires
        akjvb_fits(tok, (entries_from_records(records), source)),
    ensures
        decode_akjvb(tok, akjvb_bytes(tok, (entries_from_records(records), source))) == Some(
            (entries_from_records(records), source),
        ),
{
    lemma_records_sorted(records);
    lemma_packed_round_trip(tok, (entries_from_records(records), source));
}

proof fn lemma_upsert_sorted(
    es: Seq<((Seq<char>, u16, u16), Seq<(u16, u16, Seq<char>)>)>,
    e: ((Seq<char>, u16, u16), Seq<(u16, u16, Seq<char>)>),
)
    requires
        keys_sorted(es),
    ensures
        keys_sorted(upsert(es, e)),
    decreases es.len(),
{
    if es.len() > 0 {
        lemma_key_order(e.0, es[0].0);
        let d = es.drop_first();
        assert(keys_sorted(d));
        lemma_upsert_sorted(d, e);
        let u = upsert(es, e);
        if key_lt(e.0, es[0].0) {
            assert forall|i: int, j: int| 0 <= i < j < u.len() implies key_lt(u[i].0, u[j].0) by {
                if i == 0 && j > 1 {
                    lemma_key_lt_transitive(e.0, es[0].0, es[j - 1].0);
                }
            }
        } else if e.0 == es[0].0 {
        } else {
            let ud = upsert(d, e);
            lemma_upsert_members(d, e);
            assert forall|i: int, j: int| 0 <= i < j < u.len() implies key_lt(u[i].0, u[j].0) by {
                if i == 0 {
                    assert(u[j] == ud[j - 1]);
                    if ud[j - 1] != e {
                        let k = choose|k: int| 0 <= k < d.len() && d[k] == ud[j - 1];
                        assert(d[k] == es[k + 1]);
                    }
                }
            }
        }
    }
}

proof fn lemma_upsert_members(
    es: Seq<((Seq<char>, u16, u16), Seq<(u16, u16, Seq<char>)>)>,
    e: ((Seq<char>, u16, u16), Seq<(u16, u16, Seq<char>)>),
)
    ensures
        forall|i: int|
            0 <= i < upsert(es, e).len() ==> (#[trigger] upsert(es, e)[i]) == e || exists|k: int|
                0 <= k < es.len() && es[k] == upsert(es, e)[i],
    decreases es.len(),
{
    if es.len() > 0 {
        let d = es.drop_first();
        lemma_upsert_members(d, e);
        let u = upsert(es, e);
        assert forall|i: int| 0 <= i < u.len() implies (#[trigger] u[i]) == e || exists|k: int|
            0 <= k < es.len() && es[k] == u[i] by {
            if key_lt(e.0, es[0].0) {
                if i > 0 {
                    assert(es[i - 1] == u[i]);
                }
            } else if e.0 == es[0].0 {
                if i > 0 {
                    assert(es[i] == u[i]);
                }
            } else {
                if i == 0 {
                    assert(es[0] == u[0]);
                } else {
                    let ud = upsert(d, e);
                    assert(u[i] == ud[i - 1]);
                    if ud[i - 1] != e {
                        let k = choose|k: int| 0 <= k < d.len() && d[k] == ud[i - 1];
                        assert(es[k + 1] == u[i]);
                    }
                }
            }
        }
    }
}

proof fn lemma_records_sorted(records: Seq<AkjvVerseRecord>)
    ensures
        keys_sorted(entries_from_records(records)),
    decreases records.len(),
{
    if records.len() > 0 {
        lemma_records_sorted(records.drop_last());
        let e = record_entry(records.last());
        if e.1.len() > 0 {
            lemma_upsert_sorted(entries_from_records(records.drop_last()), e);
        }
    }
}

} // verus!
