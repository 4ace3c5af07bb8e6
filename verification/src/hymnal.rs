//! The hymnal (`hymnal-v1`): public-domain hymns with ChordPro chords inline
//! (`A[G]mazing [C]grace`). A line splits into (chord, text) segments for the
//! shells to paint, and transposition rewrites chord roots by semitones. An
//! unparseable bracket stays in the text as literal characters, so a typo in
//! the maintainer-authored data stays visible.

use vstd::prelude::*;

use crate::text::{chars_eq, chars_of, find_char, find_char_in, push_char, push_chars, push_str, str_eq};

verus! {

/// The frozen format tag. Loaders refuse anything else.
pub const FORMAT: &'static str = "hymnal-v1";

// ── chords and keys ──────────────────────────────────────────────────────────

/// The number of quality tokens the chord grammar accepts.
pub const QUALITY_COUNT: usize = 23;

/// The quality tokens, in scan order: every token precedes its own prefixes
/// (`maj7` before `m`, `add9` before `9`, `dim7` before `dim`), because the scan
/// takes the first that matches.
pub open spec fn quality_tokens() -> Seq<Seq<char>> {
    seq![
        "mmaj7"@, "7sus4"@, "add11"@, "add13"@, "m7b5"@, "maj7"@, "dim7"@, "aug7"@, "sus2"@,
        "sus4"@, "add9"@, "add2"@, "maj"@, "min"@, "dim"@, "aug"@, "m7"@, "11"@, "13"@, "m"@,
        "6"@, "7"@, "9"@,
    ]
}

/// Quality token `i` (see [`quality_tokens`]).
pub fn quality_token(i: usize) -> (t: &'static str)
    requires
        i < QUALITY_COUNT,
    ensures
        t@ == quality_tokens()[i as int],
{
    match i {
        0 => "mmaj7",
        1 => "7sus4",
        2 => "add11",
        3 => "add13",
        4 => "m7b5",
        5 => "maj7",
        6 => "dim7",
        7 => "aug7",
        8 => "sus2",
        9 => "sus4",
        10 => "add9",
        11 => "add2",
        12 => "maj",
        13 => "min",
        14 => "dim",
        15 => "aug",
        16 => "m7",
        17 => "11",
        18 => "13",
        19 => "m",
        20 => "6",
        21 => "7",
        _ => "9",
    }
}

proof fn lemma_quality_tokens_nonempty()
    ensures
        forall|i: int| 0 <= i < QUALITY_COUNT ==> (#[trigger] quality_tokens()[i]).len() > 0,
{
    reveal_strlit("mmaj7");
    reveal_strlit("7sus4");
    reveal_strlit("add11");
    reveal_strlit("add13");
    reveal_strlit("m7b5");
    reveal_strlit("maj7");
    reveal_strlit("dim7");
    reveal_strlit("aug7");
    reveal_strlit("sus2");
    reveal_strlit("sus4");
    reveal_strlit("add9");
    reveal_strlit("add2");
    reveal_strlit("maj");
    reveal_strlit("min");
    reveal_strlit("dim");
    reveal_strlit("aug");
    reveal_strlit("m7");
    reveal_strlit("11");
    reveal_strlit("13");
    reveal_strlit("m");
    reveal_strlit("6");
    reveal_strlit("7");
    reveal_strlit("9");
}

/// Whether `p` is a prefix of `s`.
pub open spec fn has_prefix(s: Seq<char>, p: Seq<char>) -> bool {
    p.len() <= s.len() && s.take(p.len() as int) == p
}

/// The first quality token (from position `from` on) that prefixes `q`.
pub open spec fn first_token_from(q: Seq<char>, from: int) -> Option<int>
    decreases QUALITY_COUNT - from,
{
    if from >= QUALITY_COUNT || from < 0 {
        None
    } else if has_prefix(q, quality_tokens()[from]) {
        Some(from)
    } else {
        first_token_from(q, from + 1)
    }
}

proof fn lemma_first_token(q: Seq<char>, from: int)
    ensures
        first_token_from(q, from) matches Some(j) ==> from <= j < QUALITY_COUNT && has_prefix(
            q,
            quality_tokens()[j],
        ),
    decreases QUALITY_COUNT - from,
{
    if 0 <= from < QUALITY_COUNT && !has_prefix(q, quality_tokens()[from]) {
        lemma_first_token(q, from + 1);
    }
}

/// Whether a quality string is built from the accepted tokens, scanning
/// greedily as the grammar promises.
pub open spec fn valid_quality_spec(q: Seq<char>) -> bool
    decreases q.len(),
{
    if q.len() == 0 {
        true
    } else {
        match first_token_from(q, 0) {
            Some(i) => if 0 <= i < QUALITY_COUNT && 0 < quality_tokens()[i].len() <= q.len() {
                valid_quality_spec(q.skip(quality_tokens()[i].len() as int))
            } else {
                false
            },
            None => false,
        }
    }
}

/// Note letter → pitch class.
pub open spec fn letter_pitch_spec(c: char) -> Option<int> {
    if c == 'C' {
        Some(0)
    } else if c == 'D' {
        Some(2)
    } else if c == 'E' {
        Some(4)
    } else if c == 'F' {
        Some(5)
    } else if c == 'G' {
        Some(7)
    } else if c == 'A' {
        Some(9)
    } else if c == 'B' {
        Some(11)
    } else {
        None
    }
}

/// A root (`A`, `F#`, `Bb`) at the head of `s`: its pitch class (0–11) and
/// the rest of `s`.
pub open spec fn parse_root_spec(s: Seq<char>) -> Option<(int, Seq<char>)> {
    if s.len() == 0 {
        None
    } else {
        match letter_pitch_spec(s[0]) {
            Some(p) => {
                let rest = s.drop_first();
                if rest.len() > 0 && rest[0] == '#' {
                    Some(((p + 1) % 12, rest.drop_first()))
                } else if rest.len() > 0 && rest[0] == 'b' {
                    Some(((p - 1) % 12, rest.drop_first()))
                } else {
                    Some((p, rest))
                }
            },
            None => None,
        }
    }
}

/// Whether bracket content is a chord: a root, a quality built from the
/// tokens, and optionally `/` and a bass root with nothing after it.
pub open spec fn is_chord_spec(s: Seq<char>) -> bool {
    match parse_root_spec(s) {
        Some((_, rest)) => {
            let k = find_char(rest, '/');
            if k < rest.len() {
                valid_quality_spec(rest.take(k)) && match parse_root_spec(rest.skip(k + 1)) {
                    Some((_, tail)) => tail.len() == 0,
                    None => false,
                }
            } else {
                valid_quality_spec(rest)
            }
        },
        None => false,
    }
}

fn letter_pitch(c: char) -> (r: Option<i64>)
    ensures
        r matches Some(p) ==> letter_pitch_spec(c) == Some(p as int),
        r is None ==> letter_pitch_spec(c) is None,
{
    if c == 'C' {
        Some(0)
    } else if c == 'D' {
        Some(2)
    } else if c == 'E' {
        Some(4)
    } else if c == 'F' {
        Some(5)
    } else if c == 'G' {
        Some(7)
    } else if c == 'A' {
        Some(9)
    } else if c == 'B' {
        Some(11)
    } else {
        None
    }
}

/// The root at `s[lo..hi]`: its pitch class and where the rest begins.
fn parse_root_at(s: &[char], lo: usize, hi: usize) -> (r: Option<(i64, usize)>)
    requires
        lo <= hi <= s@.len(),
    ensures
        match parse_root_spec(s@.subrange(lo as int, hi as int)) {
            Some((p, rest)) => r matches Some((q, k)) && q == p && lo < k <= hi && rest == s@.subrange(
                k as int,
                hi as int,
            ),
            None => r is None,
        },
{
    if lo >= hi {
        return None;
    }
    let p = match letter_pitch(s[lo]) {
        Some(p) => p,
        None => return None,
    };
    let ghost sub = s@.subrange(lo as int, hi as int);
    assert(sub[0] == s@[lo as int]);
    assert(sub.drop_first() == s@.subrange(lo + 1, hi as int));
    if lo + 1 < hi && s[lo + 1] == '#' {
        assert(sub.drop_first().drop_first() == s@.subrange(lo + 2, hi as int));
        Some(((p + 1) % 12, lo + 2))
    } else if lo + 1 < hi && s[lo + 1] == 'b' {
        assert(sub.drop_first().drop_first() == s@.subrange(lo + 2, hi as int));
        Some((((p - 1) % 12 + 12) % 12, lo + 2))
    } else {
        Some((p, lo + 1))
    }
}

/// Whether `s[k..hi]` starts with `t`.
pub fn starts_with_at(s: &[char], k: usize, hi: usize, t: &[char]) -> (r: bool)
    requires
        k <= hi <= s@.len(),
    ensures
        r == has_prefix(s@.subrange(k as int, hi as int), t@),
{
    let ghost sub = s@.subrange(k as int, hi as int);
    if t.len() > hi - k {
        return false;
    }
    let mut j: usize = 0;
    while j < t.len()
        invariant
            j <= t@.len(),
            k + t@.len() <= hi <= s@.len(),
            sub == s@.subrange(k as int, hi as int),
            forall|i: int| 0 <= i < j ==> s@[k + i] == t@[i],
        decreases t@.len() - j,
    {
        if s[k + j] != t[j] {
            assert(sub.take(t@.len() as int)[j as int] != t@[j as int]);
            return false;
        }
        j = j + 1;
    }
    assert(sub.take(t@.len() as int) =~= t@);
    true
}

/// Whether `s[lo..hi]` is a quality built from the accepted tokens.
fn valid_quality_at(s: &[char], lo: usize, hi: usize) -> (r: bool)
    requires
        lo <= hi <= s@.len(),
    ensures
        r == valid_quality_spec(s@.subrange(lo as int, hi as int)),
{
    proof {
        lemma_quality_tokens_nonempty();
    }
    let mut k = lo;
    while k < hi
        invariant
            lo <= k <= hi <= s@.len(),
            forall|i: int| 0 <= i < QUALITY_COUNT ==> (#[trigger] quality_tokens()[i]).len() > 0,
            valid_quality_spec(s@.subrange(lo as int, hi as int)) == valid_quality_spec(
                s@.subrange(k as int, hi as int),
            ),
        decreases hi - k,
    {
        let ghost q = s@.subrange(k as int, hi as int);
        let mut i: usize = 0;
        while i < QUALITY_COUNT
            invariant
                i <= QUALITY_COUNT,
                k <= hi <= s@.len(),
                q == s@.subrange(k as int, hi as int),
                first_token_from(q, 0) == first_token_from(q, i as int),
            ensures
                i <= QUALITY_COUNT,
                first_token_from(q, 0) == first_token_from(q, i as int),
                i < QUALITY_COUNT ==> has_prefix(q, quality_tokens()[i as int]),
            decreases QUALITY_COUNT - i,
        {
            let t = chars_of(quality_token(i));
            if starts_with_at(s, k, hi, t.as_slice()) {
                break;
            }
            i = i + 1;
        }
        if i >= QUALITY_COUNT {
            return false;
        }
        assert(first_token_from(q, i as int) == Some(i as int));
        let n = chars_of(quality_token(i)).len();
        assert(q.skip(n as int) == s@.subrange(k + n, hi as int));
        k = k + n;
    }
    true
}

/// Whether `s[lo..hi]` is a chord.
fn is_chord_at(s: &[char], lo: usize, hi: usize) -> (r: bool)
    requires
        lo <= hi <= s@.len(),
    ensures
        r == is_chord_spec(s@.subrange(lo as int, hi as int)),
{
    let (_, k) = match parse_root_at(s, lo, hi) {
        Some(x) => x,
        None => return false,
    };
    let slash = find_char_in(s, k, hi, '/');
    let ghost rest = s@.subrange(k as int, hi as int);
    if slash < hi {
        assert(rest.take(slash - k) == s@.subrange(k as int, slash as int));
        assert(rest.skip(slash - k + 1) == s@.subrange(slash + 1, hi as int));
        if !valid_quality_at(s, k, slash) {
            return false;
        }
        match parse_root_at(s, slash + 1, hi) {
            Some((_, e)) => e == hi,
            None => false,
        }
    } else {
        valid_quality_at(s, k, hi)
    }
}

/// Whether bracket content is a chord: root, optional quality, optional
/// `/bass`.
pub fn is_chord(s: &str) -> (r: bool)
    ensures
        r == is_chord_spec(s@),
{
    let cs = chars_of(s);
    assert(cs@.subrange(0, cs@.len() as int) == cs@);
    is_chord_at(cs.as_slice(), 0, cs.len())
}

} // verus!

verus! {

// ── ChordPro lines ───────────────────────────────────────────────────────────

/// A run of text with the chord (if any) struck at its first syllable.
#[derive(Debug, Clone, PartialEq, Eq)]
pub struct Segment {
    pub chord: Option<String>,
    pub text: String,
}

/// A segment as plain values.
pub type SegmentV = (Option<Seq<char>>, Seq<char>);

impl View for Segment {
    type V = SegmentV;

    open spec fn view(&self) -> SegmentV {
        (
            match self.chord {
                Some(c) => Some(c@),
                None => None,
            },
            self.text@,
        )
    }
}

/// The segments of a vector, as plain values.
pub open spec fn segs_view(v: Seq<Segment>) -> Seq<SegmentV> {
    v.map_values(|s: Segment| s@)
}

/// Close a line: the pending segment is kept when it carries a chord or
/// text, and an empty line still paints as one empty segment.
pub open spec fn finish_line(segs: Seq<SegmentV>, text: Seq<char>, chord: Option<Seq<char>>) -> Seq<SegmentV> {
    if chord is Some || text.len() > 0 || segs.len() == 0 {
        segs.push((chord, text))
    } else {
        segs
    }
}

/// The segmentation of `rest`, given the segments so far and the pending
/// chord and text. A bracket whose content is a chord starts a new segment;
/// any other bracket, and an unclosed `[`, stays in the text.
pub open spec fn parse_from(
    rest: Seq<char>,
    segs: Seq<SegmentV>,
    text: Seq<char>,
    chord: Option<Seq<char>>,
) -> Seq<SegmentV>
    decreases rest.len(),
{
    let at = find_char(rest, '[');
    if at >= rest.len() || at < 0 {
        finish_line(segs, text + rest, chord)
    } else {
        let text2 = text + rest.take(at);
        let after = rest.skip(at + 1);
        let end = find_char(after, ']');
        if 0 <= end < after.len() {
            let inner = after.take(end);
            if is_chord_spec(inner) {
                let segs2 = if chord is Some || text2.len() > 0 {
                    segs.push((chord, text2))
                } else {
                    segs
                };
                parse_from(after.skip(end + 1), segs2, Seq::empty(), Some(inner))
            } else {
                parse_from(after.skip(end + 1), segs, text2 + seq!['['] + inner + seq![']'], chord)
            }
        } else {
            finish_line(segs, text2 + seq!['['] + after, chord)
        }
    }
}

/// The segments of one ChordPro line.
pub open spec fn parse_line_spec(line: Seq<char>) -> Seq<SegmentV> {
    parse_from(line, Seq::empty(), Seq::empty(), None)
}

/// A chord written back in its brackets (nothing for no chord).
pub open spec fn bracketed(chord: Option<Seq<char>>) -> Seq<char> {
    match chord {
        Some(c) => seq!['['] + c + seq![']'],
        None => Seq::empty(),
    }
}

/// Segments written back as a ChordPro line.
pub open spec fn render_segments(segs: Seq<SegmentV>) -> Seq<char>
    decreases segs.len(),
{
    if segs.len() == 0 {
        Seq::empty()
    } else {
        render_segments(segs.drop_last()) + bracketed(segs.last().0) + segs.last().1
    }
}

proof fn lemma_render_push(segs: Seq<SegmentV>, s: SegmentV)
    ensures
        render_segments(segs.push(s)) == render_segments(segs) + bracketed(s.0) + s.1,
{
    assert(segs.push(s).drop_last() == segs);
}

proof fn lemma_render_finish(segs: Seq<SegmentV>, text: Seq<char>, chord: Option<Seq<char>>)
    ensures
        render_segments(finish_line(segs, text, chord)) == render_segments(segs) + bracketed(chord) + text,
{
    lemma_render_push(segs, (chord, text));
    if !(chord is Some || text.len() > 0 || segs.len() == 0) {
        assert(bracketed(chord) + text =~= Seq::<char>::empty());
        assert(render_segments(segs) + bracketed(chord) + text =~= render_segments(segs));
    }
}

#[verifier::spinoff_prover]
#[verifier::rlimit(40)]
proof fn lemma_render_parse_from(
    rest: Seq<char>,
    segs: Seq<SegmentV>,
    text: Seq<char>,
    chord: Option<Seq<char>>,
)
    ensures
        render_segments(parse_from(rest, segs, text, chord)) == render_segments(segs) + bracketed(chord)
            + text + rest,
    decreases rest.len(),
{
    crate::text::lemma_find_char_props(rest, '[');
    let at = find_char(rest, '[');
    if at >= rest.len() || at < 0 {
        lemma_render_finish(segs, text + rest, chord);
        assert(render_segments(segs) + bracketed(chord) + (text + rest) =~= render_segments(segs)
            + bracketed(chord) + text + rest);
    } else {
        let text2 = text + rest.take(at);
        let after = rest.skip(at + 1);
        crate::text::lemma_find_char_props(after, ']');
        let end = find_char(after, ']');
        assert(rest =~= rest.take(at) + seq!['['] + after);
        if 0 <= end < after.len() {
            let inner = after.take(end);
            let rest2 = after.skip(end + 1);
            assert(after =~= inner + seq![']'] + rest2);
            if is_chord_spec(inner) {
                let segs2 = if chord is Some || text2.len() > 0 {
                    segs.push((chord, text2))
                } else {
                    segs
                };
                lemma_render_parse_from(rest2, segs2, Seq::empty(), Some(inner));
                lemma_render_push(segs, (chord, text2));
                assert(render_segments(segs2) =~= render_segments(segs) + bracketed(chord) + text2);
                assert(render_segments(segs2) + bracketed(Some(inner)) + Seq::<char>::empty() + rest2
                    =~= render_segments(segs) + bracketed(chord) + text + rest);
            } else {
                lemma_render_parse_from(rest2, segs, text2 + seq!['['] + inner + seq![']'], chord);
                assert(render_segments(segs) + bracketed(chord) + (text2 + seq!['['] + inner + seq![']'])
                    + rest2 =~= render_segments(segs) + bracketed(chord) + text + rest);
            }
        } else {
            lemma_render_finish(segs, text2 + seq!['['] + after, chord);
            assert(render_segments(segs) + bracketed(chord) + (text2 + seq!['['] + after)
                =~= render_segments(segs) + bracketed(chord) + text + rest);
        }
    }
}

/// Writing a line's segments back out gives the line: lyrics keep their
/// exact spelling, chords their brackets, and every other bracket stays.
pub proof fn lemma_parse_line_renders_back(line: Seq<char>)
    ensures
        render_segments(parse_line_spec(line)) == line,
{
    lemma_render_parse_from(line, Seq::empty(), Seq::empty(), None);
    assert(render_segments(Seq::<SegmentV>::empty()) =~= Seq::<char>::empty());
    assert(Seq::<char>::empty() + bracketed(None) + Seq::<char>::empty() + line =~= line);
}

/// Where the chords stand in a line's segments: every chord a segment carries
/// is a chord by [`is_chord`], and only the first segment may carry none.
pub open spec fn chords_well_placed(segs: Seq<SegmentV>) -> bool {
    forall|i: int|
        0 <= i < segs.len() ==> (#[trigger] segs[i].0 matches Some(c) ==> is_chord_spec(c)) && (i > 0
            ==> segs[i].0 is Some)
}

/// What holds between the segments so far and the pending chord while a line
/// is read.
spec fn pending_ok(segs: Seq<SegmentV>, chord: Option<Seq<char>>) -> bool {
    &&& chords_well_placed(segs)
    &&& chord matches Some(c) ==> is_chord_spec(c)
    &&& segs.len() > 0 ==> chord is Some
}

proof fn lemma_push_keeps_placement(segs: Seq<SegmentV>, chord: Option<Seq<char>>, text: Seq<char>)
    requires
        pending_ok(segs, chord),
    ensures
        chords_well_placed(segs.push((chord, text))),
{
    let out = segs.push((chord, text));
    assert forall|i: int| 0 <= i < out.len() implies (#[trigger] out[i].0 matches Some(c)
        ==> is_chord_spec(c)) && (i > 0 ==> out[i].0 is Some) by {
        if i < segs.len() {
            assert(out[i] == segs[i]);
        }
    }
}

#[verifier::spinoff_prover]
#[verifier::rlimit(40)]
proof fn lemma_parse_from_placement(
    rest: Seq<char>,
    segs: Seq<SegmentV>,
    text: Seq<char>,
    chord: Option<Seq<char>>,
)
    requires
        pending_ok(segs, chord),
    ensures
        chords_well_placed(parse_from(rest, segs, text, chord)),
        parse_from(rest, segs, text, chord).len() >= 1,
    decreases rest.len(),
{
    crate::text::lemma_find_char_props(rest, '[');
    let at = find_char(rest, '[');
    if at >= rest.len() || at < 0 {
        lemma_push_keeps_placement(segs, chord, text + rest);
    } else {
        let text2 = text + rest.take(at);
        let after = rest.skip(at + 1);
        crate::text::lemma_find_char_props(after, ']');
        let end = find_char(after, ']');
        if 0 <= end < after.len() {
            let inner = after.take(end);
            let rest2 = after.skip(end + 1);
            if is_chord_spec(inner) {
                let segs2 = if chord is Some || text2.len() > 0 {
                    segs.push((chord, text2))
                } else {
                    segs
                };
                lemma_push_keeps_placement(segs, chord, text2);
                lemma_parse_from_placement(rest2, segs2, Seq::empty(), Some(inner));
            } else {
                lemma_parse_from_placement(rest2, segs, text2 + seq!['['] + inner + seq![']'], chord);
            }
        } else {
            lemma_push_keeps_placement(segs, chord, text2 + seq!['['] + after);
        }
    }
}

/// A line always paints as at least one segment; every chord it strikes is a
/// chord by [`is_chord`] (any other bracket stayed in the text), and every
/// segment after the first begins at a chord.
pub proof fn lemma_parse_line_places_chords(line: Seq<char>)
    ensures
        parse_line_spec(line).len() >= 1,
        chords_well_placed(parse_line_spec(line)),
{
    lemma_parse_from_placement(line, Seq::empty(), Seq::empty(), None);
}

/// Appends `s[lo..hi]` to `v`.
fn extend_range(v: &mut Vec<char>, s: &[char], lo: usize, hi: usize)
    requires
        lo <= hi <= s@.len(),
    ensures
        final(v)@ == old(v)@ + s@.subrange(lo as int, hi as int),
{
    let mut i = lo;
    while i < hi
        invariant
            lo <= i <= hi <= s@.len(),
            v@ == old(v)@ + s@.subrange(lo as int, i as int),
        decreases hi - i,
    {
        v.push(s[i]);
        i = i + 1;
        assert(s@.subrange(lo as int, i as int) == s@.subrange(lo as int, i - 1).push(s@[i - 1]));
    }
}

/// A segment built from a pending chord and text.
fn make_segment(chord: &Option<Vec<char>>, text: &Vec<char>) -> (r: Segment)
    ensures
        r@ == (match chord {
            Some(c) => Some(c@),
            None => None,
        }, text@),
{
    let c = match chord {
        Some(c) => Some(crate::text::string_of(c.as_slice())),
        None => None,
    };
    Segment { chord: c, text: crate::text::string_of(text.as_slice()) }
}

/// The pending chord as a plain value.
pub open spec fn chord_view(c: Option<Vec<char>>) -> Option<Seq<char>> {
    match c {
        Some(v) => Some(v@),
        None => None,
    }
}

/// Split one line into segments at its `[chord]` brackets. Text before the
/// first bracket is a chordless segment, so a chord landing mid-word
/// (`A[G]mazing`) keeps the lyric's spelling; a bracket whose content is not a
/// chord, and an unclosed `[`, stay in the text.
pub fn parse_line(line: &str) -> (r: Vec<Segment>)
    ensures
        segs_view(r@) == parse_line_spec(line@),
{
    let cs = chars_of(line);
    let s = cs.as_slice();
    let n = cs.len();
    let mut segs: Vec<Segment> = Vec::new();
    let mut text: Vec<char> = Vec::new();
    let mut chord: Option<Vec<char>> = None;
    let mut pos: usize = 0;
    assert(s@.skip(0) == line@);
    assert(segs_view(segs@) =~= Seq::<SegmentV>::empty());
    assert(text@ =~= Seq::<char>::empty());
    loop
        invariant_except_break
            pos <= n == s@.len(),
            s@ == line@,
            parse_from(s@.skip(pos as int), segs_view(segs@), text@, chord_view(chord)) == parse_line_spec(
                line@,
            ),
        ensures
            finish_line(segs_view(segs@), text@, chord_view(chord)) == parse_line_spec(line@),
        decreases n - pos,
    {
        let ghost rest = s@.skip(pos as int);
        let ghost sv0 = segs_view(segs@);
        let ghost t0 = text@;
        let ghost c0 = chord_view(chord);
        assert(rest == s@.subrange(pos as int, n as int));
        let at = find_char_in(s, pos, n, '[');
        if at >= n {
            extend_range(&mut text, s, pos, n);
            assert(parse_from(rest, sv0, t0, c0) == finish_line(sv0, t0 + rest, c0));
            break;
        }
        assert(rest.take(at - pos) == s@.subrange(pos as int, at as int));
        extend_range(&mut text, s, pos, at);
        let ghost t2 = text@;
        let ghost after = rest.skip(at - pos + 1);
        assert(after == s@.subrange(at + 1, n as int));
        let end = find_char_in(s, at + 1, n, ']');
        if end < n {
            let ghost inner = after.take(end - at - 1);
            let ghost rest2 = after.skip(end - at);
            assert(inner == s@.subrange(at + 1, end as int));
            assert(rest2 == s@.skip(end + 1));
            if is_chord_at(s, at + 1, end) {
                let ghost sv2 = if c0 is Some || t2.len() > 0 { sv0.push((c0, t2)) } else { sv0 };
                assert(parse_from(rest, sv0, t0, c0) == parse_from(rest2, sv2, Seq::empty(), Some(inner)));
                if chord.is_some() || text.len() > 0 {
                    let seg = make_segment(&chord, &text);
                    let ghost before = segs@;
                    segs.push(seg);
                    assert(segs_view(segs@) =~= segs_view(before).push(seg@));
                }
                let mut c: Vec<char> = Vec::new();
                extend_range(&mut c, s, at + 1, end);
                chord = Some(c);
                text = Vec::new();
                assert(text@ =~= Seq::<char>::empty());
                assert(c@ =~= inner);
            } else {
                assert(parse_from(rest, sv0, t0, c0) == parse_from(
                    rest2,
                    sv0,
                    t2 + seq!['['] + inner + seq![']'],
                    c0,
                ));
                text.push('[');
                extend_range(&mut text, s, at + 1, end);
                text.push(']');
                assert(text@ =~= t2 + seq!['['] + inner + seq![']']);
            }
            pos = end + 1;
        } else {
            assert(parse_from(rest, sv0, t0, c0) == finish_line(sv0, t2 + seq!['['] + after, c0));
            text.push('[');
            extend_range(&mut text, s, at + 1, n);
            assert(text@ =~= t2 + seq!['['] + after);
            break;
        }
    }
    if chord.is_some() || text.len() > 0 || segs.len() == 0 {
        let seg = make_segment(&chord, &text);
        let ghost before = segs@;
        segs.push(seg);
        assert(segs_view(segs@) =~= segs_view(before).push(seg@));
    }
    segs
}

} // verus!

verus! {

/// Pitch-class names spelled with sharps.
pub open spec fn sharp_names() -> Seq<Seq<char>> {
    seq!["C"@, "C#"@, "D"@, "D#"@, "E"@, "F"@, "F#"@, "G"@, "G#"@, "A"@, "A#"@, "B"@]
}

/// Pitch-class names spelled with flats.
pub open spec fn flat_names() -> Seq<Seq<char>> {
    seq!["C"@, "Db"@, "D"@, "Eb"@, "E"@, "F"@, "Gb"@, "G"@, "Ab"@, "A"@, "Bb"@, "B"@]
}

/// The name of pitch `p` (any integer; taken modulo 12).
pub open spec fn spell_spec(p: int, flats: bool) -> Seq<char> {
    if flats { flat_names()[p % 12] } else { sharp_names()[p % 12] }
}

fn spell(p: i64, flats: bool) -> (r: &'static str)
    ensures
        r@ == spell_spec(p as int, flats),
{
    let k = ((p % 12) + 12) % 12;
    assert(k == p as int % 12);
    if flats {
        match k {
            0 => "C",
            1 => "Db",
            2 => "D",
            3 => "Eb",
            4 => "E",
            5 => "F",
            6 => "Gb",
            7 => "G",
            8 => "Ab",
            9 => "A",
            10 => "Bb",
            _ => "B",
        }
    } else {
        match k {
            0 => "C",
            1 => "C#",
            2 => "D",
            3 => "D#",
            4 => "E",
            5 => "F",
            6 => "F#",
            7 => "G",
            8 => "G#",
            9 => "A",
            10 => "A#",
            _ => "B",
        }
    }
}

/// A chord transposed by `semis` semitones: the root and any slash bass move
/// and are respelled (with flats when `flats`); the quality is carried through
/// untouched. A non-chord comes back unchanged.
pub open spec fn transpose_chord_spec(c: Seq<char>, semis: int, flats: bool) -> Seq<char> {
    if !is_chord_spec(c) {
        c
    } else {
        let (p, rest) = parse_root_spec(c)->0;
        let k = find_char(rest, '/');
        if k < rest.len() {
            let bass = parse_root_spec(rest.skip(k + 1))->0;
            let bp = bass.0;
            spell_spec(p + semis, flats) + rest.take(k) + seq!['/'] + spell_spec(bp + semis, flats)
        } else {
            spell_spec(p + semis, flats) + rest
        }
    }
}

/// Transpose one chord by `semis` semitones, spelling roots with flats when
/// the target key is a flat key. Only the root and the slash bass move.
pub fn transpose_chord(chord: &str, semis: i32, flats: bool) -> (r: String)
    ensures
        r@ == transpose_chord_spec(chord@, semis as int, flats),
{
    let cs = chars_of(chord);
    let s = cs.as_slice();
    let n = cs.len();
    assert(s@.subrange(0, n as int) == s@);
    if !is_chord_at(s, 0, n) {
        return crate::text::string_of(s);
    }
    let (p, k) = match parse_root_at(s, 0, n) {
        Some(x) => x,
        None => return crate::text::string_of(s),
    };
    let slash = find_char_in(s, k, n, '/');
    let ghost rest = s@.subrange(k as int, n as int);
    let mut out = String::new();
    push_str(&mut out, spell(p + semis as i64, flats));
    if slash < n {
        assert(rest.take(slash - k) == s@.subrange(k as int, slash as int));
        assert(rest.skip(slash - k + 1) == s@.subrange(slash + 1, n as int));
        let q = crate::text::string_of_range(s, k, slash);
        push_str(&mut out, q.as_str());
        push_char(&mut out, '/');
        match parse_root_at(s, slash + 1, n) {
            Some((bp, _)) => {
                push_str(&mut out, spell(bp + semis as i64, flats));
            },
            None => {},
        }
    } else {
        let q = crate::text::string_of_range(s, k, n);
        push_str(&mut out, q.as_str());
    }
    out
}

/// Whether a major key with tonic pitch `p` is spelled with flats.
pub open spec fn flat_major(p: int) -> bool {
    let k = p % 12;
    k == 1 || k == 3 || k == 5 || k == 6 || k == 8 || k == 10
}

/// Whether `key` (a major tonic like `"Eb"`, or a minor like `"Em"`) is
/// spelled with flats. A minor key answers for its relative major.
pub open spec fn key_uses_flats_spec(key: Seq<char>) -> bool {
    match parse_root_spec(key) {
        Some((p, rest)) => flat_major(if rest == seq!['m'] { p + 3 } else { p }),
        None => false,
    }
}

/// Whether `key` is spelled with flats; E minor carries G major's one sharp.
pub fn key_uses_flats(key: &str) -> (r: bool)
    ensures
        r == key_uses_flats_spec(key@),
{
    let cs = chars_of(key);
    let s = cs.as_slice();
    let n = cs.len();
    assert(s@.subrange(0, n as int) == s@);
    let (p, k) = match parse_root_at(s, 0, n) {
        Some(x) => x,
        None => return false,
    };
    let minor = k < n && k + 1 == n && s[k] == 'm';
    proof {
        let rest = s@.subrange(k as int, n as int);
        if minor {
            assert(rest =~= seq!['m']);
        } else if rest.len() == 1 {
            assert(rest[0] != 'm');
        }
    }
    let major = if minor { p + 3 } else { p };
    let m = major % 12;
    m == 1 || m == 3 || m == 5 || m == 6 || m == 8 || m == 10
}

/// The key `semis` above `key`, spelled by its own signature. A key that is
/// not a tonic with an optional `m` transposes to itself.
pub open spec fn transpose_key_spec(key: Seq<char>, semis: int) -> Seq<char> {
    match parse_root_spec(key) {
        Some((p, rest)) => if rest.len() == 0 || rest == seq!['m'] {
            let target = p + semis;
            let minor = rest == seq!['m'];
            let flats = flat_major(if minor { target + 3 } else { target });
            if minor { spell_spec(target, flats).push('m') } else { spell_spec(target, flats) }
        } else {
            key
        },
        None => key,
    }
}

/// The key signatures: a major key is written with flats exactly when its
/// tonic is D♭, E♭, F, G♭, A♭ or B♭ (pitch classes 1, 3, 5, 6, 8 and 10;
/// C, G, D, A, E, B and F♯ take sharps or nothing), and a minor key exactly
/// when its relative major, three semitones up, is.
pub proof fn lemma_flat_key_signatures(key: Seq<char>)
    requires
        parse_root_spec(key) is Some,
    ensures
        ({
            let (p, rest) = parse_root_spec(key)->0;
            let k = (if rest == seq!['m'] { p + 3 } else { p }) % 12;
            key_uses_flats_spec(key) <==> (k == 1 || k == 3 || k == 5 || k == 6 || k == 8 || k == 10)
        }),
{
}

/// Transposing a key lands on the tonic `semis` semitones up (its relative
/// major deciding for a minor key), named with flats exactly in the six flat
/// signatures D♭, E♭, F, G♭, A♭, B♭: C up three is E♭, not D♯.
pub proof fn lemma_transposed_key_spelling(key: Seq<char>, semis: int)
    requires
        parse_root_spec(key) is Some,
        (parse_root_spec(key)->0).1.len() == 0 || (parse_root_spec(key)->0).1 == seq!['m'],
    ensures
        ({
            let (p, rest) = parse_root_spec(key)->0;
            let minor = rest == seq!['m'];
            let t = (p + semis) % 12;
            let k = (if minor { p + semis + 3 } else { p + semis }) % 12;
            let name = if k == 1 || k == 3 || k == 5 || k == 6 || k == 8 || k == 10 {
                flat_names()[t]
            } else {
                sharp_names()[t]
            };
            transpose_key_spec(key, semis) == if minor { name.push('m') } else { name }
        }),
{
}

/// `x` modulo 12, in `0..12` whatever the sign of `x`.
fn mod12(x: i64) -> (r: i64)
    requires
        x > i64::MIN,
    ensures
        r == x as int % 12,
        0 <= r < 12,
{
    if x >= 0 {
        x % 12
    } else {
        let y = -x;
        let q = y / 12;
        let b = y % 12;
        assert(y == q * 12 + b);
        if b == 0 {
            proof {
                vstd::arithmetic::div_mod::lemma_fundamental_div_mod_converse(
                    x as int,
                    12,
                    -(q as int),
                    0,
                );
            }
            0
        } else {
            proof {
                vstd::arithmetic::div_mod::lemma_fundamental_div_mod_converse(
                    x as int,
                    12,
                    -(q as int) - 1,
                    12 - b,
                );
            }
            12 - b
        }
    }
}

/// The key `semis` above `key`, spelled by its own signature (`G` up three is
/// `Bb`, not `A#`).
pub fn transpose_key(key: &str, semis: i32) -> (r: String)
    ensures
        r@ == transpose_key_spec(key@, semis as int),
{
    let cs = chars_of(key);
    let s = cs.as_slice();
    let n = cs.len();
    assert(s@.subrange(0, n as int) == s@);
    let (p, k) = match parse_root_at(s, 0, n) {
        Some(x) => x,
        None => return crate::text::string_of(s),
    };
    let ghost rest = s@.subrange(k as int, n as int);
    let minor = k < n && k + 1 == n && s[k] == 'm';
    proof {
        if minor {
            assert(rest =~= seq!['m']);
        } else if rest.len() == 1 {
            assert(rest[0] != 'm');
        }
    }
    if !(k == n || minor) {
        return crate::text::string_of(s);
    }
    let target = p + semis as i64;
    let major = if minor { target + 3 } else { target };
    let m = mod12(major);
    let flats = m == 1 || m == 3 || m == 5 || m == 6 || m == 8 || m == 10;
    let mut out = crate::text::string_from(spell(target, flats));
    if minor {
        push_char(&mut out, 'm');
    }
    out
}

// ── stanzas ──────────────────────────────────────────────────────────────────

/// A line's segments with every chord transposed by `semis` and spelled for a
/// `flats` key; at 0 semitones the author's own spelling passes through.
pub open spec fn transposed_segs(segs: Seq<SegmentV>, semis: int, flats: bool) -> Seq<SegmentV> {
    if semis == 0 {
        segs
    } else {
        segs.map_values(
            |s: SegmentV|
                (
                    match s.0 {
                        Some(c) => Some(transpose_chord_spec(c, semis, flats)),
                        None => None,
                    },
                    s.1,
                ),
        )
    }
}

/// A stanza's painted lines: each line (split at `\n`) segmented, its chords
/// transposed.
pub open spec fn stanza_lines_spec(stanza: Seq<char>, semis: int, flats: bool) -> Seq<Seq<SegmentV>> {
    crate::text::split_chars(stanza, '\n').map_values(
        |line: Seq<char>| transposed_segs(parse_line_spec(line), semis, flats),
    )
}

/// Parse a whole stanza (lines joined with `\n`) into painted lines, with
/// every chord transposed by `semis` and spelled for a `flats` key.
pub fn stanza_lines(stanza: &str, semis: i32, flats: bool) -> (r: Vec<Vec<Segment>>)
    ensures
        r@.len() == stanza_lines_spec(stanza@, semis as int, flats).len(),
        forall|i: int|
            0 <= i < r@.len() ==> segs_view(#[trigger] r@[i]@) == stanza_lines_spec(
                stanza@,
                semis as int,
                flats,
            )[i],
{
    let lines = crate::text::split_on(stanza, '\n');
    let ghost spec = stanza_lines_spec(stanza@, semis as int, flats);
    let mut out: Vec<Vec<Segment>> = Vec::new();
    let mut i: usize = 0;
    while i < lines.len()
        invariant
            i <= lines@.len(),
            lines@.len() == crate::text::split_chars(stanza@, '\n').len(),
            forall|j: int| 0 <= j < lines@.len() ==> (#[trigger] lines@[j])@ == crate::text::split_chars(stanza@, '\n')[j],
            spec == stanza_lines_spec(stanza@, semis as int, flats),
            out@.len() == i,
            forall|j: int| 0 <= j < i ==> segs_view(#[trigger] out@[j]@) == spec[j],
        decreases lines@.len() - i,
    {
        let segs = parse_line(lines[i].as_str());
        let line_segs = if semis == 0 {
            segs
        } else {
            let mut t: Vec<Segment> = Vec::new();
            let mut k: usize = 0;
            while k < segs.len()
                invariant
                    k <= segs@.len(),
                    t@.len() == k,
                    forall|x: int|
                        0 <= x < k ==> (#[trigger] t@[x])@ == (
                            match segs@[x]@.0 {
                                Some(c) => Some(transpose_chord_spec(c, semis as int, flats)),
                                None => None,
                            },
                            segs@[x]@.1,
                        ),
                decreases segs@.len() - k,
            {
                let s = &segs[k];
                let chord = match &s.chord {
                    Some(c) => Some(transpose_chord(c.as_str(), semis, flats)),
                    None => None,
                };
                t.push(Segment { chord, text: crate::text::string_from(s.text.as_str()) });
                k = k + 1;
            }
            assert(segs_view(t@) =~= transposed_segs(segs_view(segs@), semis as int, flats));
            t
        };
        out.push(line_segs);
        i = i + 1;
    }
    out
}

// ── the book ─────────────────────────────────────────────────────────────────

/// One language's text of a hymn.
#[derive(Debug, Clone)]
pub struct HymnText {
    pub title: String,
    pub author: String,
    pub translator: Option<String>,
    pub year: Option<u32>,
    /// One string per stanza; lines joined with `\n`, chords in brackets.
    pub stanzas: Vec<String>,
    /// The refrain, stanza-shaped, sung after every stanza.
    pub chorus: Option<String>,
}

/// One hymn: a stable number, a tune, and a text per language.
#[derive(Debug, Clone)]
pub struct Hymn {
    pub id: String,
    pub number: u32,
    pub tune: String,
    pub meter: String,
    /// The key the charts are written in (e.g. `G`, `Em`).
    pub key: String,
    /// Language code and text, one pair per language.
    pub texts: Vec<(String, HymnText)>,
}

impl crate::order::SortKey for Hymn {
    open spec fn sort_key(&self) -> int {
        self.number as int
    }

    fn key_of(&self) -> (k: i64) {
        self.number as i64
    }
}

/// The loaded book, in `number` order.
#[derive(Debug, Clone)]
pub struct Hymnal {
    pub hymns: Vec<Hymn>,
}

impl Hymnal {
    /// An empty book.
    pub fn empty() -> (r: Hymnal)
        ensures
            r.hymns@.len() == 0,
    {
        Hymnal { hymns: Vec::new() }
    }

    /// The book of `hymns`, put in number order; hymns sharing a number keep
    /// the order they came in.
    pub fn from_hymns(hymns: Vec<Hymn>) -> (r: Hymnal)
        ensures
            crate::order::stable_sorted(hymns@, r.hymns@),
            r.hymns@.len() == hymns@.len(),
    {
        Hymnal { hymns: crate::order::stable_sort(hymns) }
    }

    /// The hymn with id `id`: the first so named.
    pub fn get(&self, id: &str) -> (r: Option<&Hymn>)
        ensures
            ({
                let k = crate::church::first_where(self.hymns@.len(), |i: int| self.hymns@[i].id@ == id@);
                if k < self.hymns@.len() {
                    r == Some(&self.hymns@[k])
                } else {
                    r is None
                }
            }),
    {
        let mut i: usize = 0;
        while i < self.hymns.len() && !str_eq(self.hymns[i].id.as_str(), id)
            invariant
                i <= self.hymns@.len(),
                forall|j: int| 0 <= j < i ==> !(#[trigger] self.hymns@[j].id@ == id@),
            decreases self.hymns@.len() - i,
        {
            i = i + 1;
        }
        proof {
            crate::church::lemma_first_where(self.hymns@.len(), |j: int| self.hymns@[j].id@ == id@, i as int);
        }
        if i < self.hymns.len() {
            Some(&self.hymns[i])
        } else {
            None
        }
    }
}

} // verus!

verus! {

// ── transposition round trip ─────────────────────────────────────────────────

proof fn lemma_token_heads()
    ensures
        forall|i: int|
            0 <= i < QUALITY_COUNT ==> {
                let h = (#[trigger] quality_tokens()[i])[0];
                h != '#' && h != 'b' && h != '/'
            },
{
    lemma_quality_tokens_nonempty();
    reveal_strlit("mmaj7");
    reveal_strlit("7sus4");
    reveal_strlit("add11");
    reveal_strlit("add13");
    reveal_strlit("m7b5");
    reveal_strlit("maj7");
    reveal_strlit("dim7");
    reveal_strlit("aug7");
    reveal_strlit("sus2");
    reveal_strlit("sus4");
    reveal_strlit("add9");
    reveal_strlit("add2");
    reveal_strlit("maj");
    reveal_strlit("min");
    reveal_strlit("dim");
    reveal_strlit("aug");
    reveal_strlit("m7");
    reveal_strlit("11");
    reveal_strlit("13");
    reveal_strlit("m");
    reveal_strlit("6");
    reveal_strlit("7");
    reveal_strlit("9");
}

/// A quality never opens with an accidental or a slash.
proof fn lemma_quality_head(q: Seq<char>)
    requires
        valid_quality_spec(q),
        q.len() > 0,
    ensures
        q[0] != '#' && q[0] != 'b' && q[0] != '/',
{
    lemma_first_token(q, 0);
    lemma_token_heads();
    lemma_quality_tokens_nonempty();
    let i = first_token_from(q, 0)->0;
    assert(q.take(quality_tokens()[i].len() as int) == quality_tokens()[i]);
    assert(q[0] == q.take(quality_tokens()[i].len() as int)[0]);
}

/// A pitch spelled for a key reads back as that pitch, and its spelling
/// matches the key: a flat key's names carry no sharp, a sharp key's no flat.
pub proof fn lemma_spelling_reads_back(p: int, flats: bool)
    ensures
        parse_root_spec(spell_spec(p, flats)) == Some((p % 12, Seq::<char>::empty())),
        forall|i: int|
            0 <= i < spell_spec(p, flats).len() ==> #[trigger] spell_spec(p, flats)[i] != (if flats {
                '#'
            } else {
                'b'
            }),
{
    lemma_spell_parse(p, flats, Seq::empty());
    assert(spell_spec(p, flats) + Seq::<char>::empty() =~= spell_spec(p, flats));
    reveal_strlit("C");
    reveal_strlit("C#");
    reveal_strlit("Db");
    reveal_strlit("D");
    reveal_strlit("D#");
    reveal_strlit("Eb");
    reveal_strlit("E");
    reveal_strlit("F");
    reveal_strlit("F#");
    reveal_strlit("Gb");
    reveal_strlit("G");
    reveal_strlit("G#");
    reveal_strlit("Ab");
    reveal_strlit("A");
    reveal_strlit("A#");
    reveal_strlit("Bb");
    reveal_strlit("B");
}

/// A spelled pitch reads back as that pitch, whatever follows it, so long as
/// what follows does not open with an accidental.
#[verifier::rlimit(40)]
proof fn lemma_spell_parse(p: int, flats: bool, rest: Seq<char>)
    requires
        rest.len() == 0 || (rest[0] != '#' && rest[0] != 'b'),
    ensures
        parse_root_spec(spell_spec(p, flats) + rest) == Some((p % 12, rest)),
{
    reveal_strlit("C");
    reveal_strlit("C#");
    reveal_strlit("Db");
    reveal_strlit("D");
    reveal_strlit("D#");
    reveal_strlit("Eb");
    reveal_strlit("E");
    reveal_strlit("F");
    reveal_strlit("F#");
    reveal_strlit("Gb");
    reveal_strlit("G");
    reveal_strlit("G#");
    reveal_strlit("Ab");
    reveal_strlit("A");
    reveal_strlit("A#");
    reveal_strlit("Bb");
    reveal_strlit("B");
    let i = p % 12;
    let name = spell_spec(p, flats);
    let s = name + rest;
    if name.len() == 1 {
        assert(s.drop_first() =~= rest);
    } else {
        assert(name.len() == 2);
        assert(s.drop_first().drop_first() =~= rest);
        assert(s.drop_first()[0] == name[1]);
    }
    assert(s[0] == name[0]);
}

proof fn lemma_mod_shift(p: int, k: int)
    ensures
        ((p + k) % 12 - k) % 12 == p % 12,
{
    let m = (p + k) / 12;
    assert((p + k) % 12 == p + k - 12 * m);
    assert((p - 12 * m) % 12 == p % 12) by {
        vstd::arithmetic::div_mod::lemma_mod_multiples_vanish(-m, p, 12);
    }
}

#[verifier::spinoff_prover]
#[verifier::rlimit(100)]
proof fn lemma_round_trip_slash(c: Seq<char>, semis: int, flats: bool)
    requires
        is_chord_spec(c),
        find_char((parse_root_spec(c)->0).1, '/') < (parse_root_spec(c)->0).1.len(),
    ensures
        transpose_chord_spec(transpose_chord_spec(c, semis, flats), -semis, false) == transpose_chord_spec(
            c,
            0,
            false,
        ),
{
    let (p, rest) = parse_root_spec(c)->0;
    let kk = find_char(rest, '/');
    crate::text::lemma_find_char_props(rest, '/');
    lemma_mod_shift(p, semis);
    let q = rest.take(kk);
    let bass = parse_root_spec(rest.skip(kk + 1))->0;
    let bp = bass.0;
    lemma_mod_shift(bp, semis);
    let up_bass = spell_spec(bp + semis, flats);
    let rest2 = q + seq!['/'] + up_bass;
    let up = spell_spec(p + semis, flats);
    let t = up + rest2;
    assert(transpose_chord_spec(c, semis, flats) == t);
    if q.len() > 0 {
        lemma_quality_head(q);
        assert(rest2[0] == q[0]);
    } else {
        assert(rest2[0] == '/');
    }
    lemma_spell_parse(p + semis, flats, rest2);
    assert forall|j: int| 0 <= j < q.len() implies rest2[j] != '/' by {
        assert(rest2[j] == rest[j]);
    }
    assert(rest2[q.len() as int] == '/');
    crate::text::lemma_find_char(rest2, '/', q.len() as int);
    assert(rest2.take(q.len() as int) =~= q);
    assert(rest2.skip(q.len() as int + 1) =~= up_bass + Seq::<char>::empty());
    lemma_spell_parse(bp + semis, flats, Seq::empty());
    assert(parse_root_spec(t) == Some(((p + semis) % 12, rest2)));
    assert(parse_root_spec(rest2.skip(q.len() as int + 1)) == Some(((bp + semis) % 12, Seq::<char>::empty())));
    assert(is_chord_spec(t));
    let back = transpose_chord_spec(t, -semis, false);
    assert(back == spell_spec((p + semis) % 12 + -semis, false) + q + seq!['/'] + spell_spec(
        (bp + semis) % 12 + -semis,
        false,
    ));
    assert(spell_spec((p + semis) % 12 + -semis, false) == spell_spec(p + 0, false));
    assert(spell_spec((bp + semis) % 12 + -semis, false) == spell_spec(bp + 0, false));
}

#[verifier::spinoff_prover]
#[verifier::rlimit(100)]
proof fn lemma_round_trip_plain(c: Seq<char>, semis: int, flats: bool)
    requires
        is_chord_spec(c),
        find_char((parse_root_spec(c)->0).1, '/') >= (parse_root_spec(c)->0).1.len(),
    ensures
        transpose_chord_spec(transpose_chord_spec(c, semis, flats), -semis, false) == transpose_chord_spec(
            c,
            0,
            false,
        ),
{
    let (p, rest) = parse_root_spec(c)->0;
    crate::text::lemma_find_char_props(rest, '/');
    lemma_mod_shift(p, semis);
    let t = spell_spec(p + semis, flats) + rest;
    assert(transpose_chord_spec(c, semis, flats) == t);
    if rest.len() > 0 {
        lemma_quality_head(rest);
    }
    lemma_spell_parse(p + semis, flats, rest);
    assert(parse_root_spec(t) == Some(((p + semis) % 12, rest)));
    assert(is_chord_spec(t));
    assert(spell_spec((p + semis) % 12 + -semis, false) == spell_spec(p + 0, false));
}

/// Transposing a chord moves its root by `semis` semitones: the result reads
/// as a root whose pitch is the old root's plus `semis`, modulo the octave.
pub proof fn lemma_transpose_moves_root(c: Seq<char>, semis: int, flats: bool)
    requires
        is_chord_spec(c),
    ensures
        parse_root_spec(transpose_chord_spec(c, semis, flats)) is Some,
        (parse_root_spec(transpose_chord_spec(c, semis, flats))->0).0 == ((parse_root_spec(c)->0).0 + semis)
            % 12,
{
    let (p, rest) = parse_root_spec(c)->0;
    crate::text::lemma_find_char_props(rest, '/');
    let kk = find_char(rest, '/');
    if kk < rest.len() {
        let q = rest.take(kk);
        let bass = parse_root_spec(rest.skip(kk + 1))->0;
        let rest2 = q + seq!['/'] + spell_spec(bass.0 + semis, flats);
        assert(transpose_chord_spec(c, semis, flats) == spell_spec(p + semis, flats) + rest2);
        if q.len() > 0 {
            lemma_quality_head(q);
            assert(rest2[0] == q[0]);
        } else {
            assert(rest2[0] == '/');
        }
        lemma_spell_parse(p + semis, flats, rest2);
    } else {
        if rest.len() > 0 {
            lemma_quality_head(rest);
        }
        lemma_spell_parse(p + semis, flats, rest);
    }
}

/// Transposing a chord by `semis` (spelled either way) and back again gives
/// the chord as it reads spelled with sharps; a root already spelled that way
/// comes back exactly.
pub proof fn lemma_transpose_round_trip(c: Seq<char>, semis: int, flats: bool)
    ensures
        transpose_chord_spec(transpose_chord_spec(c, semis, flats), -semis, false) == transpose_chord_spec(
            c,
            0,
            false,
        ),
{
    if is_chord_spec(c) {
        if find_char((parse_root_spec(c)->0).1, '/') < (parse_root_spec(c)->0).1.len() {
            lemma_round_trip_slash(c, semis, flats);
        } else {
            lemma_round_trip_plain(c, semis, flats);
        }
    }
}


/// Whether a hymnal's format tag is the one this reader understands.
pub fn is_hymnal_format(tag: &str) -> (r: bool)
    ensures
        r == (tag@ == FORMAT@),
{
    str_eq(tag, FORMAT)
}

} // verus!
