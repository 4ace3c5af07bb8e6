//! The cross-reference tier: topical study links per verse, ranked by reader
//! votes. The hydrated file is tab-separated text, one reference per row:
//! `from \t to \t range-end-or-empty \t votes`. Absent the file, the index is
//! empty and the reader runs fine.
//!
//! The index can be built in one call ([`parse_cross_refs`]) or a slice at a
//! time ([`XRefIxBuilder`]), so a long parse never holds up the reader; the
//! two give the same index.

use vstd::prelude::*;

use crate::reference::{parse_ref_key_spec, VRef};
use crate::text::{
    all_digits, chars_of, digits_value, find_char, find_char_in, split_chars, split_on, trim,
    trimmed, unsigned_value,
};

verus! {

/// One reference out of a verse: the target (with an optional range end when
/// the pointer spans verses) and its vote count.
#[derive(Debug, Clone, PartialEq, Eq)]
pub struct CrossRef {
    pub to: VRef,
    pub end: Option<VRef>,
    pub votes: i32,
}

/// The characters of an optional verse.
pub open spec fn opt_ref_view(o: Option<VRef>) -> Option<(Seq<char>, u16, u16)> {
    match o {
        Some(r) => Some(r@),
        None => None,
    }
}

impl View for CrossRef {
    type V = ((Seq<char>, u16, u16), Option<(Seq<char>, u16, u16)>, i32);

    open spec fn view(&self) -> ((Seq<char>, u16, u16), Option<(Seq<char>, u16, u16)>, i32) {
        (self.to@, opt_ref_view(self.end), self.votes)
    }
}

/// The views of a list of references.
pub open spec fn refs_view(v: Seq<CrossRef>) -> Seq<
    ((Seq<char>, u16, u16), Option<(Seq<char>, u16, u16)>, i32),
> {
    v.map_values(|r: CrossRef| r@)
}

// ── one row ──────────────────────────────────────────────────────────────────

/// `str::parse::<i32>`: an optional sign, then one or more digits, in range.
pub open spec fn parse_i32_spec(s: Seq<char>) -> Option<i32> {
    if s.len() > 0 && s[0] == '-' {
        let b = s.drop_first();
        if b.len() > 0 && all_digits(b) && digits_value(b) <= 2147483648 {
            Some((0 - digits_value(b)) as i32)
        } else {
            None
        }
    } else {
        match unsigned_value(s) {
            Some(n) => if n <= 2147483647 {
                Some(n as i32)
            } else {
                None
            },
            None => None,
        }
    }
}

/// Reads a signed 32-bit number the way `str::parse` does.
pub fn parse_i32(s: &[char]) -> (r: Option<i32>)
    ensures
        r == parse_i32_spec(s@),
{
    if s.len() > 0 && s[0] == '-' {
        let body = crate::text::slice_to_chars(s, 1, s.len());
        assert(body@ == s@.drop_first());
        if body.len() == 0 || body[0] == '+' {
            proof {
                if body@.len() > 0 {
                    assert(!crate::text::is_digit(body@[0]));
                }
            }
            return None;
        }
        assert(unsigned_value(body@) == (if body@.len() > 0 && all_digits(body@) {
            Some(digits_value(body@))
        } else {
            None::<nat>
        }));
        match crate::text::parse_unsigned(body.as_slice(), 2147483648) {
            Some(n) => {
                let v: i64 = 0 - (n as i64);
                Some(v as i32)
            },
            None => None,
        }
    } else {
        match crate::text::parse_unsigned(s, 2147483647) {
            Some(n) => Some(n as i32),
            None => None,
        }
    }
}

/// One row as the index reads it: `None` for a comment (`#…`), a row without
/// exactly four tab-separated columns, or one whose verses or votes do not
/// parse. An empty third column is "no range".
pub open spec fn parse_xref_spec(line: Seq<char>) -> Option<
    ((Seq<char>, u16, u16), ((Seq<char>, u16, u16), Option<(Seq<char>, u16, u16)>, i32)),
> {
    let cols = split_chars(line, '\t');
    if line.len() > 0 && line[0] == '#' {
        None
    } else if cols.len() != 4 {
        None
    } else {
        match (
            parse_ref_key_spec(cols[0]),
            parse_ref_key_spec(cols[1]),
            parse_i32_spec(trim(cols[3])),
        ) {
            (Some(f), Some(t), Some(v)) => if cols[2].len() == 0 {
                Some((f, (t, None, v)))
            } else {
                match parse_ref_key_spec(cols[2]) {
                    Some(e) => Some((f, (t, Some(e), v))),
                    None => None,
                }
            },
            _ => None,
        }
    }
}

/// Parse one TSV row: `from \t to \t range-end-or-empty \t votes`. Comment
/// lines and malformed rows yield `None`.
pub fn parse_xref_line(line: &str) -> (r: Option<(VRef, CrossRef)>)
    ensures
        match parse_xref_spec(line@) {
            Some((f, c)) => r matches Some((x, y)) && x@ == f && y@ == c,
            None => r is None,
        },
{
    let cs = chars_of(line);
    if cs.len() > 0 && cs[0] == '#' {
        return None;
    }
    let cols = split_on(line, '\t');
    if cols.len() != 4 {
        return None;
    }
    let from = match VRef::parse_ref_key(cols[0].as_str()) {
        Some(v) => v,
        None => return None,
    };
    let to = match VRef::parse_ref_key(cols[1].as_str()) {
        Some(v) => v,
        None => return None,
    };
    let vt = trimmed(cols[3].as_str());
    let vc = chars_of(vt.as_str());
    let votes = match parse_i32(vc.as_slice()) {
        Some(v) => v,
        None => return None,
    };
    let end = if chars_of(cols[2].as_str()).len() == 0 {
        None
    } else {
        match VRef::parse_ref_key(cols[2].as_str()) {
            Some(v) => Some(v),
            None => return None,
        }
    };
    Some((from, CrossRef { to, end, votes }))
}

/// A line with a carriage return dropped from its end.
pub open spec fn strip_cr(l: Seq<char>) -> Seq<char> {
    if l.len() > 0 && l.last() == '\r' {
        l.drop_last()
    } else {
        l
    }
}

/// A row reads the same with a trailing carriage return: it can only end the
/// votes column, which is trimmed.
pub proof fn lemma_parse_ignores_cr(line: Seq<char>)
    ensures
        parse_xref_spec(strip_cr(line)) == parse_xref_spec(line),
{
    if line.len() > 0 && line.last() == '\r' {
        let s = strip_cr(line);
        assert(line == s.push('\r'));
        lemma_split_push(s, '\t', '\r');
        let cs = split_chars(s, '\t');
        let cl = split_chars(line, '\t');
        if cs.len() == 4 {
            crate::text::lemma_trim_cr(cs[3]);
            assert(cl[0] == cl.drop_last()[0] && cs[0] == cs.drop_last()[0]);
            assert(cl[1] == cl.drop_last()[1] && cs[1] == cs.drop_last()[1]);
            assert(cl[2] == cl.drop_last()[2] && cs[2] == cs.drop_last()[2]);
            assert(cl[3] == cs[3].push('\r'));
        }
        if s.len() > 0 {
            assert(line[0] == s[0]);
        }
    }
}

/// Appending a character other than the separator extends the last piece.
proof fn lemma_split_push(s: Seq<char>, c: char, x: char)
    requires
        x != c,
    ensures
        split_chars(s.push(x), c).len() == split_chars(s, c).len(),
        split_chars(s.push(x), c).drop_last() == split_chars(s, c).drop_last(),
        split_chars(s.push(x), c).last() == split_chars(s, c).last().push(x),
    decreases s.len(),
{
    let k = find_char(s, c);
    crate::text::lemma_find_char_props(s, c);
    crate::text::lemma_find_char_props(s.push(x), c);
    if k < s.len() {
        assert(s.push(x)[k] == c);
        assert forall|j: int| 0 <= j < k implies s.push(x)[j] != c by {
            assert(s.push(x)[j] == s[j]);
        }
        crate::text::lemma_find_char(s.push(x), c, k);
        assert(s.push(x).take(k) == s.take(k));
        assert(s.push(x).skip(k + 1) == s.skip(k + 1).push(x));
        lemma_split_push(s.skip(k + 1), c, x);
        let rest = split_chars(s.skip(k + 1), c);
        let rest2 = split_chars(s.skip(k + 1).push(x), c);
        assert(split_chars(s, c) == seq![s.take(k)] + rest);
        assert(split_chars(s.push(x), c) == seq![s.take(k)] + rest2);
        assert((seq![s.take(k)] + rest2).drop_last() == seq![s.take(k)] + rest2.drop_last());
        assert((seq![s.take(k)] + rest).drop_last() == seq![s.take(k)] + rest.drop_last());
    } else {
        assert forall|j: int| 0 <= j < s.push(x).len() implies s.push(x)[j] != c by {
            if j < s.len() {
                assert(s.push(x)[j] == s[j]);
            }
        }
        crate::text::lemma_find_char(s.push(x), c, s.len() + 1int);
        assert(split_chars(s, c) == seq![s]);
        assert(split_chars(s.push(x), c) == seq![s.push(x)]);
    }
}

} // verus!

verus! {

// ── lines ────────────────────────────────────────────────────────────────────

/// `str::lines`: pieces between `\n`s, a `\r` dropped from the end of each
/// terminated line; a final unterminated piece is kept as it is, and there is
/// no empty piece after a final `\n`.
pub open spec fn std_lines(s: Seq<char>) -> Seq<Seq<char>>
    decreases s.len(),
{
    if s.len() == 0 {
        Seq::empty()
    } else {
        let e = find_char(s, '\n');
        if 0 <= e < s.len() {
            seq![strip_cr(s.take(e))] + std_lines(s.skip(e + 1))
        } else {
            seq![s]
        }
    }
}

/// The lines a [`XRefIxBuilder`] reads, one step at a time: like
/// [`std_lines`], except that a final unterminated line loses a trailing
/// `\r` too.
pub open spec fn feed_lines(s: Seq<char>) -> Seq<Seq<char>>
    decreases s.len(),
{
    if s.len() == 0 {
        Seq::empty()
    } else {
        let e = find_char(s, '\n');
        if 0 <= e < s.len() {
            seq![strip_cr(s.take(e))] + feed_lines(s.skip(e + 1))
        } else {
            seq![strip_cr(s)]
        }
    }
}

// ── the index ────────────────────────────────────────────────────────────────

/// `ix` with one more reference out of verse `row.0`: appended to that verse's
/// list, or a new entry at the end.
pub open spec fn add_row(
    ix: Seq<((Seq<char>, u16, u16), Seq<((Seq<char>, u16, u16), Option<(Seq<char>, u16, u16)>, i32)>)>,
    row: ((Seq<char>, u16, u16), ((Seq<char>, u16, u16), Option<(Seq<char>, u16, u16)>, i32)),
) -> Seq<((Seq<char>, u16, u16), Seq<((Seq<char>, u16, u16), Option<(Seq<char>, u16, u16)>, i32)>)>
    decreases ix.len(),
{
    if ix.len() == 0 {
        seq![(row.0, seq![row.1])]
    } else if ix[0].0 == row.0 {
        seq![(ix[0].0, ix[0].1.push(row.1))] + ix.drop_first()
    } else {
        seq![ix[0]] + add_row(ix.drop_first(), row)
    }
}

/// `ix` with the rows of `lines` added in order; unparsable lines are skipped.
pub open spec fn index_lines(
    ix: Seq<((Seq<char>, u16, u16), Seq<((Seq<char>, u16, u16), Option<(Seq<char>, u16, u16)>, i32)>)>,
    lines: Seq<Seq<char>>,
) -> Seq<((Seq<char>, u16, u16), Seq<((Seq<char>, u16, u16), Option<(Seq<char>, u16, u16)>, i32)>)>
    decreases lines.len(),
{
    if lines.len() == 0 {
        ix
    } else {
        let next = match parse_xref_spec(lines[0]) {
            Some(row) => add_row(ix, row),
            None => ix,
        };
        index_lines(next, lines.drop_first())
    }
}

/// Adds the row `line` holds, if it holds one.
fn read_row(ix: &mut XRefIx, line: &str)
    ensures
        final(ix)@ == index_lines(old(ix)@, seq![line@]),
{
    let ghost one = seq![line@];
    assert(one.drop_first() =~= Seq::<Seq<char>>::empty());
    assert(one[0] == line@);
    match parse_xref_line(line) {
        Some((from, r)) => ix.add(from, r),
        None => {},
    }
    proof {
        reveal_with_fuel(index_lines, 2);
    }
}

/// Adding the rows of `a` and then of `b` is adding the rows of `a + b`.
proof fn lemma_index_lines_append(
    ix: Seq<((Seq<char>, u16, u16), Seq<((Seq<char>, u16, u16), Option<(Seq<char>, u16, u16)>, i32)>)>,
    a: Seq<Seq<char>>,
    b: Seq<Seq<char>>,
)
    ensures
        index_lines(ix, a + b) == index_lines(index_lines(ix, a), b),
    decreases a.len(),
{
    if a.len() == 0 {
        assert(a + b =~= b);
    } else {
        let next = match parse_xref_spec(a[0]) {
            Some(row) => add_row(ix, row),
            None => ix,
        };
        assert((a + b).drop_first() =~= a.drop_first() + b);
        lemma_index_lines_append(next, a.drop_first(), b);
    }
}

/// Text splits into no lines exactly when it is empty.
proof fn lemma_feed_lines_empty(s: Seq<char>)
    ensures
        (feed_lines(s).len() == 0) == (s.len() == 0),
{
}

/// `s` with `x` after every leading reference voted at least as high.
pub open spec fn insert_by_votes(
    s: Seq<((Seq<char>, u16, u16), Option<(Seq<char>, u16, u16)>, i32)>,
    x: ((Seq<char>, u16, u16), Option<(Seq<char>, u16, u16)>, i32),
) -> Seq<((Seq<char>, u16, u16), Option<(Seq<char>, u16, u16)>, i32)>
    decreases s.len(),
{
    if s.len() == 0 {
        seq![x]
    } else if s[0].2 >= x.2 {
        seq![s[0]] + insert_by_votes(s.drop_first(), x)
    } else {
        seq![x] + s
    }
}

/// References best-voted first; equal votes keep their order.
pub open spec fn sort_by_votes(s: Seq<((Seq<char>, u16, u16), Option<(Seq<char>, u16, u16)>, i32)>) -> Seq<
    ((Seq<char>, u16, u16), Option<(Seq<char>, u16, u16)>, i32),
>
    decreases s.len(),
{
    if s.len() == 0 {
        Seq::empty()
    } else {
        insert_by_votes(sort_by_votes(s.drop_last()), s.last())
    }
}

/// Every verse's references sorted best-voted first.
pub open spec fn sort_all(
    ix: Seq<((Seq<char>, u16, u16), Seq<((Seq<char>, u16, u16), Option<(Seq<char>, u16, u16)>, i32)>)>,
) -> Seq<((Seq<char>, u16, u16), Seq<((Seq<char>, u16, u16), Option<(Seq<char>, u16, u16)>, i32)>)> {
    ix.map_values(
        |e: ((Seq<char>, u16, u16), Seq<((Seq<char>, u16, u16), Option<(Seq<char>, u16, u16)>, i32)>)|
            (e.0, sort_by_votes(e.1)),
    )
}

/// The index of a cross-reference file: per source verse (in order of first
/// appearance), its references best-voted first.
pub open spec fn xref_index(text: Seq<char>) -> Seq<
    ((Seq<char>, u16, u16), Seq<((Seq<char>, u16, u16), Option<(Seq<char>, u16, u16)>, i32)>),
> {
    sort_all(index_lines(Seq::empty(), std_lines(text)))
}

/// Reading the lines a slice at a time indexes exactly what `str::lines`
/// does, from any starting index.
pub proof fn lemma_feed_lines_agree(
    ix: Seq<((Seq<char>, u16, u16), Seq<((Seq<char>, u16, u16), Option<(Seq<char>, u16, u16)>, i32)>)>,
    s: Seq<char>,
)
    ensures
        index_lines(ix, feed_lines(s)) == index_lines(ix, std_lines(s)),
    decreases s.len(),
{
    if s.len() > 0 {
        let e = find_char(s, '\n');
        crate::text::lemma_find_char_props(s, '\n');
        if e < s.len() {
            let head = strip_cr(s.take(e));
            let next = match parse_xref_spec(head) {
                Some(row) => add_row(ix, row),
                None => ix,
            };
            lemma_feed_lines_agree(next, s.skip(e + 1));
            assert((seq![head] + feed_lines(s.skip(e + 1))).drop_first() == feed_lines(
                s.skip(e + 1),
            ));
            assert((seq![head] + std_lines(s.skip(e + 1))).drop_first() == std_lines(
                s.skip(e + 1),
            ));
        } else {
            lemma_parse_ignores_cr(s);
            assert(seq![strip_cr(s)].drop_first() =~= Seq::<Seq<char>>::empty());
            assert(seq![s].drop_first() =~= Seq::<Seq<char>>::empty());
        }
    }
}

/// The views of stored index entries.
pub open spec fn ix_view(e: Seq<(VRef, Vec<CrossRef>)>) -> Seq<
    ((Seq<char>, u16, u16), Seq<((Seq<char>, u16, u16), Option<(Seq<char>, u16, u16)>, i32)>),
> {
    e.map_values(|x: (VRef, Vec<CrossRef>)| (x.0@, refs_view(x.1@)))
}

/// Source verse → its references.
#[derive(Debug, PartialEq)]
pub struct XRefIx {
    entries: Vec<(VRef, Vec<CrossRef>)>,
}

impl View for XRefIx {
    type V = Seq<
        ((Seq<char>, u16, u16), Seq<((Seq<char>, u16, u16), Option<(Seq<char>, u16, u16)>, i32)>),
    >;

    closed spec fn view(&self) -> Seq<
        ((Seq<char>, u16, u16), Seq<((Seq<char>, u16, u16), Option<(Seq<char>, u16, u16)>, i32)>),
    > {
        ix_view(self.entries@)
    }
}

/// The references of the first entry for verse `k` (none when it has none).
pub open spec fn xref_get(
    ix: Seq<((Seq<char>, u16, u16), Seq<((Seq<char>, u16, u16), Option<(Seq<char>, u16, u16)>, i32)>)>,
    k: (Seq<char>, u16, u16),
) -> Seq<((Seq<char>, u16, u16), Option<(Seq<char>, u16, u16)>, i32)>
    decreases ix.len(),
{
    if ix.len() == 0 {
        Seq::empty()
    } else if ix[0].0 == k {
        ix[0].1
    } else {
        xref_get(ix.drop_first(), k)
    }
}

/// The number of references across the index.
pub open spec fn ref_total(
    ix: Seq<((Seq<char>, u16, u16), Seq<((Seq<char>, u16, u16), Option<(Seq<char>, u16, u16)>, i32)>)>,
) -> nat
    decreases ix.len(),
{
    if ix.len() == 0 {
        0
    } else {
        ref_total(ix.drop_last()) + ix.last().1.len()
    }
}

impl XRefIx {
    /// An index with no verses.
    pub fn new() -> (r: XRefIx)
        ensures
            r@ == Seq::<
                (
                    (Seq<char>, u16, u16),
                    Seq<((Seq<char>, u16, u16), Option<(Seq<char>, u16, u16)>, i32)>,
                ),
            >::empty(),
    {
        let r = XRefIx { entries: Vec::new() };
        assert(r@ =~= Seq::empty());
        r
    }

    /// How many source verses carry references.
    pub fn len(&self) -> (r: usize)
        ensures
            r == self@.len(),
    {
        self.entries.len()
    }

    /// Whether no verse carries references.
    pub fn is_empty(&self) -> (r: bool)
        ensures
            r == (self@.len() == 0),
    {
        self.entries.len() == 0
    }

    /// The references out of `v`, best-voted first once finished.
    pub fn get(&self, v: &VRef) -> (r: &[CrossRef])
        ensures
            refs_view(r@) == xref_get(self@, v@),
    {
        let ghost es = self@;
        let mut i: usize = 0;
        assert(es.skip(0) == es);
        while i < self.entries.len()
            invariant
                i <= self.entries@.len(),
                es == self@,
                es == ix_view(self.entries@),
                xref_get(es, v@) == xref_get(es.skip(i as int), v@),
            decreases self.entries@.len() - i,
        {
            assert(es.skip(i as int)[0] == es[i as int]);
            if self.entries[i].0 == *v {
                return self.entries[i].1.as_slice();
            }
            assert(es.skip(i as int).drop_first() == es.skip(i + 1));
            i = i + 1;
        }
        let empty: &[CrossRef] = &[];
        assert(refs_view(empty@) =~= Seq::empty());
        empty
    }

    /// Add one reference (see [`add_row`]).
    fn add(&mut self, from: VRef, r: CrossRef)
        ensures
            final(self)@ == add_row(old(self)@, (from@, r@)),
    {
        let ghost es = self@;
        let mut p: usize = 0;
        assert(es.skip(0) == es);
        while p < self.entries.len()
            invariant
                p <= self.entries@.len(),
                es == ix_view(self.entries@),
                es == old(self)@,
                forall|i: int| 0 <= i < p ==> (#[trigger] es[i]).0 != from@,
            ensures
                p <= self.entries@.len(),
                es == ix_view(self.entries@),
                forall|i: int| 0 <= i < p ==> (#[trigger] es[i]).0 != from@,
                p < self.entries@.len() ==> es[p as int].0 == from@,
            decreases self.entries@.len() - p,
        {
            assert(es[p as int].0 == self.entries@[p as int].0@);
            if self.entries[p].0 == from {
                break;
            }
            p = p + 1;
        }
        proof {
            lemma_add_row_at(es, (from@, r@), p as int);
        }
        if p < self.entries.len() {
            let (k, mut refs) = self.entries.remove(p);
            let ghost old_refs = refs@;
            refs.push(r);
            self.entries.insert(p, (k, refs));
            proof {
                assert(refs_view(old_refs.push(r)) =~= refs_view(old_refs).push(r@));
            }
            assert(self@ =~= es.update(p as int, (es[p as int].0, es[p as int].1.push(r@))));
        } else {
            let ghost rv = r@;
            let mut l: Vec<CrossRef> = Vec::new();
            l.push(r);
            assert(refs_view(l@) =~= seq![rv]);
            self.entries.push((from, l));
            assert(self@ =~= es.push((from@, seq![rv])));
        }
    }

    /// The total number of references (at most `usize::MAX`).
    pub fn count(&self) -> (r: usize)
        ensures
            r == (if ref_total(self@) <= usize::MAX {
                ref_total(self@)
            } else {
                usize::MAX as nat
            }),
    {
        let ghost es = self@;
        let mut total: usize = 0;
        let mut i: usize = 0;
        assert(es.take(0) =~= Seq::<
            (
                (Seq<char>, u16, u16),
                Seq<((Seq<char>, u16, u16), Option<(Seq<char>, u16, u16)>, i32)>,
            ),
        >::empty());
        while i < self.entries.len()
            invariant
                i <= self.entries@.len(),
                es == ix_view(self.entries@),
                es == self@,
                total == (if ref_total(es.take(i as int)) <= usize::MAX {
                    ref_total(es.take(i as int))
                } else {
                    usize::MAX as nat
                }),
            decreases self.entries@.len() - i,
        {
            assert(es.take(i + 1).drop_last() == es.take(i as int));
            assert(es[i as int].1.len() == self.entries@[i as int].1@.len());
            let n = self.entries[i].1.len();
            if n > usize::MAX - total {
                total = usize::MAX;
            } else {
                total = total + n;
            }
            i = i + 1;
        }
        assert(es.take(es.len() as int) == es);
        total
    }
}

proof fn lemma_add_row_at(
    ix: Seq<((Seq<char>, u16, u16), Seq<((Seq<char>, u16, u16), Option<(Seq<char>, u16, u16)>, i32)>)>,
    row: ((Seq<char>, u16, u16), ((Seq<char>, u16, u16), Option<(Seq<char>, u16, u16)>, i32)),
    p: int,
)
    requires
        0 <= p <= ix.len(),
        forall|i: int| 0 <= i < p ==> (#[trigger] ix[i]).0 != row.0,
        p < ix.len() ==> ix[p].0 == row.0,
    ensures
        add_row(ix, row) == if p < ix.len() {
            ix.update(p, (ix[p].0, ix[p].1.push(row.1)))
        } else {
            ix.push((row.0, seq![row.1]))
        },
    decreases p,
{
    if p == 0 {
        if ix.len() > 0 {
            assert(seq![(ix[0].0, ix[0].1.push(row.1))] + ix.drop_first() =~= ix.update(
                0,
                (ix[0].0, ix[0].1.push(row.1)),
            ));
        } else {
            assert(seq![(row.0, seq![row.1])] =~= ix.push((row.0, seq![row.1])));
        }
    } else {
        let t = ix.drop_first();
        assert forall|i: int| 0 <= i < p - 1 implies (#[trigger] t[i]).0 != row.0 by {
            assert(t[i] == ix[i + 1]);
        }
        lemma_add_row_at(t, row, p - 1);
        if p < ix.len() {
            assert(seq![ix[0]] + t.update(p - 1, (t[p - 1].0, t[p - 1].1.push(row.1))) =~= ix.update(
                p,
                (ix[p].0, ix[p].1.push(row.1)),
            ));
        } else {
            assert(seq![ix[0]] + t.push((row.0, seq![row.1])) =~= ix.push((row.0, seq![row.1])));
        }
    }
}

} // verus!

verus! {

// ── sorting ──────────────────────────────────────────────────────────────────

proof fn lemma_insert_by_votes_at(
    s: Seq<((Seq<char>, u16, u16), Option<(Seq<char>, u16, u16)>, i32)>,
    x: ((Seq<char>, u16, u16), Option<(Seq<char>, u16, u16)>, i32),
    p: int,
)
    requires
        0 <= p <= s.len(),
        forall|i: int| 0 <= i < p ==> (#[trigger] s[i]).2 >= x.2,
        p < s.len() ==> s[p].2 < x.2,
    ensures
        insert_by_votes(s, x) == s.take(p) + seq![x] + s.skip(p),
    decreases p,
{
    if p == 0 {
        assert(s.skip(0) == s);
        assert(s.take(0) + seq![x] == seq![x]);
    } else {
        let t = s.drop_first();
        assert forall|i: int| 0 <= i < p - 1 implies (#[trigger] t[i]).2 >= x.2 by {
            assert(t[i] == s[i + 1]);
        }
        lemma_insert_by_votes_at(t, x, p - 1);
        assert(s.take(p) == seq![s[0]] + t.take(p - 1));
        assert(t.skip(p - 1) == s.skip(p));
    }
}

fn reverse_refs(v: Vec<CrossRef>) -> (r: Vec<CrossRef>)
    ensures
        r@.len() == v@.len(),
        forall|i: int| 0 <= i < r@.len() ==> #[trigger] r@[i] == v@[v@.len() - 1 - i],
{
    let ghost orig = v@;
    let mut src = v;
    let mut out: Vec<CrossRef> = Vec::new();
    while src.len() > 0
        invariant
            src@ == orig.take(src@.len() as int),
            out@.len() + src@.len() == orig.len(),
            forall|i: int| 0 <= i < out@.len() ==> #[trigger] out@[i] == orig[orig.len() - 1 - i],
        decreases src@.len(),
    {
        let x = src.pop().unwrap();
        out.push(x);
    }
    out
}

/// `v` best-voted first, equal votes in their order.
fn sort_refs(v: Vec<CrossRef>) -> (r: Vec<CrossRef>)
    ensures
        refs_view(r@) == sort_by_votes(refs_view(v@)),
{
    let ghost orig = v@;
    let mut rev = reverse_refs(v);
    let mut out: Vec<CrossRef> = Vec::new();
    let ghost mut done: int = 0;
    assert(refs_view(out@) =~= sort_by_votes(refs_view(orig.take(0))));
    while rev.len() > 0
        invariant
            0 <= done <= orig.len(),
            rev@.len() + done == orig.len(),
            forall|i: int| 0 <= i < rev@.len() ==> #[trigger] rev@[i] == orig[orig.len() - 1 - i],
            refs_view(out@) == sort_by_votes(refs_view(orig.take(done))),
        decreases rev@.len(),
    {
        let x = rev.pop().unwrap();
        assert(x == orig[done]);
        let ghost prev = refs_view(orig.take(done));
        assert(refs_view(orig.take(done + 1)) == prev.push(x@));
        assert(refs_view(orig.take(done + 1)).drop_last() == prev);
        let mut p: usize = 0;
        while p < out.len()
            invariant
                p <= out@.len(),
                forall|i: int| 0 <= i < p ==> (#[trigger] out@[i]).votes >= x.votes,
            ensures
                p <= out@.len(),
                forall|i: int| 0 <= i < p ==> (#[trigger] out@[i]).votes >= x.votes,
                p < out@.len() ==> out@[p as int].votes < x.votes,
            decreases out@.len() - p,
        {
            if out[p].votes < x.votes {
                break;
            }
            p = p + 1;
        }
        let ghost before = refs_view(out@);
        proof {
            assert forall|i: int| 0 <= i < p implies (#[trigger] before[i]).2 >= x@.2 by {
                assert(before[i] == out@[i]@);
            }
            if p < out@.len() {
                assert(before[p as int] == out@[p as int]@);
            }
            lemma_insert_by_votes_at(before, x@, p as int);
        }
        out.insert(p, x);
        assert(refs_view(out@) =~= before.take(p as int) + seq![x@] + before.skip(p as int));
        proof {
            done = done + 1;
        }
    }
    assert(orig.take(orig.len() as int) == orig);
    out
}

impl XRefIx {
    /// Every verse's references sorted best-voted first (see [`sort_all`]).
    fn sorted(self) -> (r: XRefIx)
        ensures
            r@ == sort_all(self@),
    {
        let ghost es = self@;
        let mut rev: Vec<(VRef, Vec<CrossRef>)> = Vec::new();
        let mut src = self.entries;
        let ghost orig = src@;
        while src.len() > 0
            invariant
                src@ == orig.take(src@.len() as int),
                rev@.len() + src@.len() == orig.len(),
                forall|i: int| 0 <= i < rev@.len() ==> #[trigger] rev@[i] == orig[orig.len() - 1 - i],
            decreases src@.len(),
        {
            let x = src.pop().unwrap();
            rev.push(x);
        }
        let mut out: Vec<(VRef, Vec<CrossRef>)> = Vec::new();
        let ghost mut done: int = 0;
        assert(ix_view(out@) =~= sort_all(ix_view(orig).take(0)));
        while rev.len() > 0
            invariant
                0 <= done <= orig.len(),
                es == ix_view(orig),
                rev@.len() + done == orig.len(),
                forall|i: int| 0 <= i < rev@.len() ==> #[trigger] rev@[i] == orig[orig.len() - 1 - i],
                ix_view(out@) == sort_all(es.take(done)),
            decreases rev@.len(),
        {
            let (k, refs) = rev.pop().unwrap();
            assert(es[done] == (k@, refs_view(refs@)));
            let sorted = sort_refs(refs);
            let ghost before = ix_view(out@);
            out.push((k, sorted));
            assert(ix_view(out@) =~= before.push((es[done].0, sort_by_votes(es[done].1))));
            assert(sort_all(es.take(done + 1)) =~= sort_all(es.take(done)).push(
                (es[done].0, sort_by_votes(es[done].1)),
            ));
            proof {
                done = done + 1;
            }
        }
        assert(es.take(es.len() as int) == es);
        XRefIx { entries: out }
    }
}

// ── building the index ───────────────────────────────────────────────────────

/// The cross-reference index, built a slice at a time so a long parse never
/// holds up the reader: [`XRefIxBuilder::feed`] reads some lines,
/// [`XRefIxBuilder::finish`] sorts and hands over the index.
pub struct XRefIxBuilder {
    text: Vec<char>,
    /// Position of the next unread line.
    at: usize,
    ix: XRefIx,
}

impl XRefIxBuilder {
    /// The text being read.
    pub closed spec fn source(&self) -> Seq<char> {
        self.text@
    }

    /// Whether every line has been read.
    pub closed spec fn finished(&self) -> bool {
        self.at >= self.text@.len()
    }

    /// The lines not read yet, split as `str::lines` splits them.
    pub closed spec fn lines_left(&self) -> Seq<Seq<char>> {
        feed_lines(self.text@.skip(self.at as int))
    }

    /// How much text is left to read.
    pub closed spec fn remaining(&self) -> nat {
        (self.text@.len() - self.at) as nat
    }

    /// The index of the lines read so far, unsorted.
    pub closed spec fn partial(&self) -> Seq<
        ((Seq<char>, u16, u16), Seq<((Seq<char>, u16, u16), Option<(Seq<char>, u16, u16)>, i32)>),
    > {
        self.ix@
    }

    /// The lines read so far and the lines left make up the whole text.
    pub closed spec fn wf(&self) -> bool {
        &&& self.at <= self.text@.len()
        &&& index_lines(self.ix@, feed_lines(self.text@.skip(self.at as int))) == index_lines(
            Seq::empty(),
            feed_lines(self.text@),
        )
    }

    /// A builder over `text`.
    pub fn from_text(text: &str) -> (r: XRefIxBuilder)
        ensures
            r.wf(),
            r.source() == text@,
            r.finished() == (text@.len() == 0),
            r.partial().len() == 0,
            r.lines_left() == feed_lines(text@),
    {
        let r = XRefIxBuilder { text: chars_of(text), at: 0, ix: XRefIx::new() };
        assert(r.text@.skip(0) == r.text@);
        r
    }

    /// A builder with nothing to parse: it finishes as an empty index.
    pub fn empty() -> (r: XRefIxBuilder)
        ensures
            r.wf(),
            r.source().len() == 0,
            r.finished(),
            r.partial().len() == 0,
            r.lines_left().len() == 0,
    {
        let r = XRefIxBuilder { text: Vec::new(), at: 0, ix: XRefIx::new() };
        assert(r.text@.skip(0) == r.text@);
        r
    }

    /// Parse up to `n` more lines: exactly the next `min(n, lines left)`
    /// lines are read, each row among them added to the index. `true` while
    /// any remain, that is when more than `n` lines were left.
    pub fn feed(&mut self, n: usize) -> (more: bool)
        requires
            old(self).wf(),
        ensures
            final(self).wf(),
            final(self).source() == old(self).source(),
            more == !final(self).finished(),
            more == (final(self).lines_left().len() > 0),
            ({
                let ll = old(self).lines_left();
                let k = if n < ll.len() { n as int } else { ll.len() as int };
                &&& final(self).lines_left() == ll.skip(k)
                &&& final(self).partial() == index_lines(old(self).partial(), ll.take(k))
                &&& more == (ll.len() > n)
            }),
            old(self).finished() ==> !more,
            n > 0 && !old(self).finished() ==> final(self).remaining() < old(self).remaining(),
    {
        let len = self.text.len();
        let ghost ll = old(self).lines_left();
        let ghost ix0 = old(self).partial();
        let mut k: usize = 0;
        proof {
            lemma_feed_lines_empty(self.text@.skip(self.at as int));
            assert(ll.skip(0) =~= ll);
            assert(ll.take(0) =~= Seq::<Seq<char>>::empty());
        }
        while k < n
            invariant
                self.wf(),
                self.source() == old(self).source(),
                len == self.text@.len(),
                self.remaining() <= old(self).remaining(),
                old(self).finished() ==> self.finished(),
                k > 0 && !old(self).finished() ==> self.remaining() < old(self).remaining(),
                ll == old(self).lines_left(),
                ix0 == old(self).partial(),
                k <= ll.len(),
                k <= n,
                self.lines_left() == ll.skip(k as int),
                self.partial() == index_lines(ix0, ll.take(k as int)),
                self.finished() == (self.lines_left().len() == 0),
            decreases n - k,
        {
            if self.at >= len {
                return false;
            }
            let ghost ixk = self.partial();
            let at = self.at;
            let ghost rest = self.text@.skip(at as int);
            let e = find_char_in(self.text.as_slice(), at, len, '\n');
            assert(rest == self.text@.subrange(at as int, len as int));
            let mut stop = e;
            if stop > at && self.text[stop - 1] == '\r' {
                stop = stop - 1;
            }
            let line = crate::text::string_of_range(self.text.as_slice(), at, stop);
            let ghost raw = rest.take(e - at);
            assert(raw == self.text@.subrange(at as int, e as int));
            assert(line@ == strip_cr(raw));
            let next = if e < len {
                e + 1
            } else {
                len
            };
            proof {
                crate::text::lemma_find_char_props(rest, '\n');
                if e < len {
                    assert(rest.skip(e - at + 1) == self.text@.skip(next as int));
                } else {
                    assert(raw == rest);
                    assert(self.text@.skip(next as int) =~= Seq::<char>::empty());
                }
                assert(feed_lines(rest) == seq![line@] + feed_lines(self.text@.skip(next as int)));
                assert((seq![line@] + feed_lines(self.text@.skip(next as int))).drop_first()
                    == feed_lines(self.text@.skip(next as int)));
            }
            let mut ix = XRefIx::new();
            std::mem::swap(&mut ix, &mut self.ix);
            read_row(&mut ix, line.as_str());
            self.ix = ix;
            self.at = next;
            proof {
                let one = seq![line@];
                let tail = feed_lines(self.text@.skip(next as int));
                assert(feed_lines(rest) == one + tail);
                lemma_index_lines_append(ixk, one, tail);
                let cur = ll.skip(k as int);
                assert(cur[0] == line@);
                assert(ll.skip(k + 1) =~= cur.drop_first());
                assert(ll.take(k + 1) =~= ll.take(k as int) + seq![line@]);
                lemma_index_lines_append(ix0, ll.take(k as int), one);
                lemma_feed_lines_empty(self.text@.skip(self.at as int));
            }
            k = k + 1;
        }
        assert(self.lines_left().len() == ll.len() - n);
        self.at < len
    }

    /// Sort each verse's references best-voted first and hand over the index.
    /// Once every line is read, this is exactly [`parse_cross_refs`]'s index,
    /// whatever slices the lines were read in.
    pub fn finish(self) -> (r: XRefIx)
        requires
            self.wf(),
        ensures
            r@ == sort_all(self.partial()),
            self.finished() ==> r@ == xref_index(self.source()),
    {
        proof {
            if self.finished() {
                assert(self.text@.skip(self.at as int) =~= Seq::<char>::empty());
                lemma_feed_lines_agree(Seq::empty(), self.text@);
            }
        }
        self.ix.sorted()
    }
}

/// Parse the TSV text into a per-verse index, references sorted by votes
/// (descending, stable) within each verse.
pub fn parse_cross_refs(text: &str) -> (r: XRefIx)
    ensures
        r@ == xref_index(text@),
{
    let mut b = XRefIxBuilder::from_text(text);
    while b.feed(4096)
        invariant
            b.wf(),
            b.source() == text@,
        decreases b.remaining(),
    {
    }
    b.finish()
}

/// Total references across the index (at most `usize::MAX`).
pub fn xref_count(ix: &XRefIx) -> (r: usize)
    ensures
        r == (if ref_total(ix@) <= usize::MAX {
            ref_total(ix@)
        } else {
            usize::MAX as nat
        }),
{
    ix.count()
}

} // verus!
