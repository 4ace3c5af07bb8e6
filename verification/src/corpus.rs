//! Canonical tokenized text: tokens, verses, the corpus and its lookups.
//!
//! A verse is a sequence of word tokens; weave and thread spans address words
//! by their index in this sequence, so the token layout and the tokenizer that
//! produced it are frozen (see [`crate::canon::TOKENIZATION_VERSION`]). The
//! shell reads the JSONL file into [`Verse`]s; the checks and the indices are
//! built here.

use vstd::prelude::*;

use crate::reference::VRef;
use crate::Error;
use crate::text::{push_char, push_str, str_eq};

verus! {

/// KJV italics: word supplied by the translators.
pub const FLAG_ADDED: u32 = 1;

/// Divine name (LORD), traditionally small caps.
pub const FLAG_DIVINE: u32 = 2;

/// Part of a canonical superscription (psalm titles).
pub const FLAG_TITLE: u32 = 4;

/// A 1769 paragraph mark (¶) preceded this word.
pub const FLAG_PARA: u32 = 8;

/// One word token: leading punctuation, the word, trailing punctuation, its
/// normalized Strong's refs, and the flag bitfield.
#[derive(Debug, Clone, PartialEq, Eq)]
pub struct Token {
    pub pre: String,
    pub word: String,
    pub post: String,
    pub strongs: Vec<String>,
    pub flags: u32,
}

impl View for Token {
    type V = (Seq<char>, Seq<char>, Seq<char>, Seq<Seq<char>>, u32);

    open spec fn view(&self) -> (Seq<char>, Seq<char>, Seq<char>, Seq<Seq<char>>, u32) {
        (self.pre@, self.word@, self.post@, self.strongs@.map_values(|s: String| s@), self.flags)
    }
}

/// A token as printed: its punctuation around its word.
pub open spec fn token_text(t: (Seq<char>, Seq<char>, Seq<char>, Seq<Seq<char>>, u32)) -> Seq<char> {
    t.0 + t.1 + t.2
}

/// Whether a token belongs to a superscription.
pub open spec fn is_title(t: (Seq<char>, Seq<char>, Seq<char>, Seq<Seq<char>>, u32)) -> bool {
    t.4 & FLAG_TITLE != 0
}

/// Tokens printed one after another, separated by single spaces.
pub open spec fn rendered(ts: Seq<(Seq<char>, Seq<char>, Seq<char>, Seq<Seq<char>>, u32)>) -> Seq<
    char,
>
    decreases ts.len(),
{
    if ts.len() == 0 {
        Seq::empty()
    } else if ts.len() == 1 {
        token_text(ts[0])
    } else {
        rendered(ts.drop_last()) + seq![' '] + token_text(ts.last())
    }
}

/// The tokens of `ts` that are (`title`) or are not part of a superscription.
pub open spec fn select(ts: Seq<(Seq<char>, Seq<char>, Seq<char>, Seq<Seq<char>>, u32)>, title: bool) -> Seq<
    (Seq<char>, Seq<char>, Seq<char>, Seq<Seq<char>>, u32),
>
    decreases ts.len(),
{
    if ts.len() == 0 {
        Seq::empty()
    } else if is_title(ts.last()) == title {
        select(ts.drop_last(), title).push(ts.last())
    } else {
        select(ts.drop_last(), title)
    }
}

/// The views of a run of tokens.
pub open spec fn tokens_view(v: Seq<Token>) -> Seq<(Seq<char>, Seq<char>, Seq<char>, Seq<Seq<char>>, u32)> {
    v.map_values(|t: Token| t@)
}

impl Token {
    /// Whether the given flag bit is set.
    pub fn has_flag(&self, flag: u32) -> (r: bool)
        ensures
            r == (self.flags & flag != 0),
    {
        self.flags & flag != 0
    }

    /// The token rendered with its surrounding punctuation: pre + word + post.
    pub fn render(&self) -> (r: String)
        ensures
            r@ == token_text(self@),
    {
        let mut s = crate::text::string_from(self.pre.as_str());
        push_str(&mut s, self.word.as_str());
        push_str(&mut s, self.post.as_str());
        s
    }
}

/// Render a run of tokens space-separated, each keeping its own punctuation.
pub fn render_tokens(tokens: &[Token]) -> (r: String)
    ensures
        r@ == rendered(tokens_view(tokens@)),
{
    render_selected(tokens, None)
}

/// Render the tokens of `tokens` that are (`Some(true)`) or are not
/// (`Some(false)`) part of a superscription, or all of them (`None`).
fn render_selected(tokens: &[Token], which: Option<bool>) -> (r: String)
    ensures
        r@ == rendered(
            match which {
                Some(t) => select(tokens_view(tokens@), t),
                None => tokens_view(tokens@),
            },
        ),
{
    let ghost all = tokens_view(tokens@);
    let mut out = String::new();
    let mut first = true;
    let mut i: usize = 0;
    assert(all.take(0) =~= Seq::empty());
    while i < tokens.len()
        invariant
            i <= tokens@.len(),
            all == tokens_view(tokens@),
            out@ == rendered(
                match which {
                    Some(t) => select(all.take(i as int), t),
                    None => all.take(i as int),
                },
            ),
            first == ((match which {
                Some(t) => select(all.take(i as int), t),
                None => all.take(i as int),
            }).len() == 0),
        decreases tokens@.len() - i,
    {
        let t = &tokens[i];
        let ghost prev = match which {
            Some(w) => select(all.take(i as int), w),
            None => all.take(i as int),
        };
        assert(all.take(i + 1).drop_last() == all.take(i as int));
        assert(all.take(i + 1).last() == t@);
        let keep = match which {
            Some(w) => (t.flags & FLAG_TITLE != 0) == w,
            None => true,
        };
        if keep {
            if !first {
                push_char(&mut out, ' ');
            }
            let text = t.render();
            push_str(&mut out, text.as_str());
            proof {
                let next = prev.push(t@);
                assert(next.drop_last() == prev);
                if prev.len() == 0 {
                    assert(next == seq![t@]);
                }
            }
            first = false;
        }
        i = i + 1;
    }
    assert(all.take(all.len() as int) == all);
    out
}

/// One verse: OSIS book id, chapter, verse, and its token stream.
#[derive(Debug, Clone, PartialEq, Eq)]
pub struct Verse {
    pub book: String,
    pub chapter: u16,
    pub verse: u16,
    pub tokens: Vec<Token>,
}

impl View for Verse {
    type V = (Seq<char>, u16, u16, Seq<(Seq<char>, Seq<char>, Seq<char>, Seq<Seq<char>>, u32)>);

    open spec fn view(&self) -> (
        Seq<char>,
        u16,
        u16,
        Seq<(Seq<char>, Seq<char>, Seq<char>, Seq<Seq<char>>, u32)>,
    ) {
        (self.book@, self.chapter, self.verse, tokens_view(self.tokens@))
    }
}

impl Verse {
    /// This verse's address.
    pub fn vref(&self) -> (r: VRef)
        ensures
            r@ == (self.book@, self.chapter, self.verse),
    {
        VRef::new(self.book.as_str(), self.chapter, self.verse)
    }

    /// Verse text without any superscription (psalm titles excluded).
    pub fn body(&self) -> (r: String)
        ensures
            r@ == rendered(select(tokens_view(self.tokens@), false)),
    {
        render_selected(self.tokens.as_slice(), Some(false))
    }

    /// Superscription text (psalm titles), empty for most verses.
    pub fn title(&self) -> (r: String)
        ensures
            r@ == rendered(select(tokens_view(self.tokens@), true)),
    {
        render_selected(self.tokens.as_slice(), Some(true))
    }
}

/// The views of a run of verses.
pub open spec fn verses_view(v: Seq<Verse>) -> Seq<
    (Seq<char>, u16, u16, Seq<(Seq<char>, Seq<char>, Seq<char>, Seq<Seq<char>>, u32)>),
> {
    v.map_values(|x: Verse| x@)
}

} // verus!

verus! {

// ── the corpus ───────────────────────────────────────────────────────────────

/// The verses grouped into chapters: each run of consecutive verses with the
/// same book and chapter is one chapter.
pub open spec fn group_runs(
    vs: Seq<(Seq<char>, u16, u16, Seq<(Seq<char>, Seq<char>, Seq<char>, Seq<Seq<char>>, u32)>)>,
) -> Seq<
    (
        Seq<char>,
        u16,
        Seq<(Seq<char>, u16, u16, Seq<(Seq<char>, Seq<char>, Seq<char>, Seq<Seq<char>>, u32)>)>,
    ),
>
    decreases vs.len(),
{
    if vs.len() == 0 {
        Seq::empty()
    } else {
        let g = group_runs(vs.drop_last());
        let v = vs.last();
        if g.len() > 0 && g.last().0 == v.0 && g.last().1 == v.1 {
            g.drop_last().push((g.last().0, g.last().1, g.last().2.push(v)))
        } else {
            g.push((v.0, v.1, seq![v]))
        }
    }
}

/// Every verse of the chapters, in order.
pub open spec fn flat(
    chs: Seq<
        (
            Seq<char>,
            u16,
            Seq<(Seq<char>, u16, u16, Seq<(Seq<char>, Seq<char>, Seq<char>, Seq<Seq<char>>, u32)>)>,
        ),
    >,
) -> Seq<(Seq<char>, u16, u16, Seq<(Seq<char>, Seq<char>, Seq<char>, Seq<Seq<char>>, u32)>)>
    decreases chs.len(),
{
    if chs.len() == 0 {
        Seq::empty()
    } else {
        flat(chs.drop_last()) + chs.last().2
    }
}

/// Grouping a verse stream into chapters loses and reorders nothing: the
/// chapters, read front to back, give back the stream.
pub proof fn lemma_flat_group(
    vs: Seq<(Seq<char>, u16, u16, Seq<(Seq<char>, Seq<char>, Seq<char>, Seq<Seq<char>>, u32)>)>,
)
    ensures
        flat(group_runs(vs)) == vs,
    decreases vs.len(),
{
    if vs.len() > 0 {
        lemma_flat_group(vs.drop_last());
        let g = group_runs(vs.drop_last());
        let v = vs.last();
        if g.len() > 0 && g.last().0 == v.0 && g.last().1 == v.1 {
            let ng = g.drop_last().push((g.last().0, g.last().1, g.last().2.push(v)));
            assert(ng.drop_last() == g.drop_last());
            assert(flat(g) == flat(g.drop_last()) + g.last().2);
            assert(flat(ng) == flat(g.drop_last()) + g.last().2.push(v));
            assert(flat(g.drop_last()) + g.last().2.push(v) =~= (flat(g.drop_last()) + g.last().2).push(v));
            assert(vs.drop_last().push(v) =~= vs);
        } else {
            assert(g.push((v.0, v.1, seq![v])).drop_last() == g);
            assert(flat(g.push((v.0, v.1, seq![v]))) =~= vs);
        }
    }
}

/// The first chapter `(book, chapter)`, or the number of chapters.
pub open spec fn find_chapter(
    chs: Seq<
        (
            Seq<char>,
            u16,
            Seq<(Seq<char>, u16, u16, Seq<(Seq<char>, Seq<char>, Seq<char>, Seq<Seq<char>>, u32)>)>,
        ),
    >,
    book: Seq<char>,
    chapter: u16,
) -> int {
    crate::church::first_where(chs.len(), |k: int| is_chapter(chs, book, chapter, k))
}

/// Whether chapter slot `k` holds `(book, chapter)`.
pub open spec fn is_chapter(
    chs: Seq<
        (
            Seq<char>,
            u16,
            Seq<(Seq<char>, u16, u16, Seq<(Seq<char>, Seq<char>, Seq<char>, Seq<Seq<char>>, u32)>)>,
        ),
    >,
    book: Seq<char>,
    chapter: u16,
    k: int,
) -> bool {
    chs[k].0 == book && chs[k].1 == chapter
}

/// Whether verse `k` of a chapter is numbered `verse`.
pub open spec fn is_verse(
    vs: Seq<(Seq<char>, u16, u16, Seq<(Seq<char>, Seq<char>, Seq<char>, Seq<Seq<char>>, u32)>)>,
    verse: u16,
    k: int,
) -> bool {
    vs[k].2 == verse
}

/// The first verse numbered `verse` in a chapter, or its length.
pub open spec fn find_verse(
    vs: Seq<(Seq<char>, u16, u16, Seq<(Seq<char>, Seq<char>, Seq<char>, Seq<Seq<char>>, u32)>)>,
    verse: u16,
) -> int {
    crate::church::first_where(vs.len(), |k: int| is_verse(vs, verse, k))
}

/// The verses of chapter `(book, chapter)`; empty when there is no such chapter.
pub open spec fn chapter_lookup(
    chs: Seq<
        (
            Seq<char>,
            u16,
            Seq<(Seq<char>, u16, u16, Seq<(Seq<char>, Seq<char>, Seq<char>, Seq<Seq<char>>, u32)>)>,
        ),
    >,
    book: Seq<char>,
    chapter: u16,
) -> Seq<(Seq<char>, u16, u16, Seq<(Seq<char>, Seq<char>, Seq<char>, Seq<Seq<char>>, u32)>)> {
    let k = find_chapter(chs, book, chapter);
    if k < chs.len() {
        chs[k].2
    } else {
        Seq::empty()
    }
}

/// The verse `book chapter:verse`: the first so numbered in its chapter.
pub open spec fn verse_lookup(
    chs: Seq<
        (
            Seq<char>,
            u16,
            Seq<(Seq<char>, u16, u16, Seq<(Seq<char>, Seq<char>, Seq<char>, Seq<Seq<char>>, u32)>)>,
        ),
    >,
    book: Seq<char>,
    chapter: u16,
    verse: u16,
) -> Option<(Seq<char>, u16, u16, Seq<(Seq<char>, Seq<char>, Seq<char>, Seq<Seq<char>>, u32)>)> {
    let vs = chapter_lookup(chs, book, chapter);
    let j = find_verse(vs, verse);
    if j < vs.len() {
        Some(vs[j])
    } else {
        None
    }
}

/// The highest chapter of `book`, if the corpus has any of it.
pub open spec fn max_chapter(
    chs: Seq<
        (
            Seq<char>,
            u16,
            Seq<(Seq<char>, u16, u16, Seq<(Seq<char>, Seq<char>, Seq<char>, Seq<Seq<char>>, u32)>)>,
        ),
    >,
    book: Seq<char>,
) -> Option<u16>
    decreases chs.len(),
{
    if chs.len() == 0 {
        None
    } else {
        let prev = max_chapter(chs.drop_last(), book);
        if chs.last().0 == book {
            match prev {
                Some(m) => Some(
                    if m >= chs.last().1 {
                        m
                    } else {
                        chs.last().1
                    },
                ),
                None => Some(chs.last().1),
            }
        } else {
            prev
        }
    }
}

/// The loaded corpus: chapters in canonical order, each with its verses.
#[derive(Debug)]
pub struct Corpus {
    chapters: Vec<(String, u16, Vec<Verse>)>,
    total: usize,
    tok_version: String,
}

/// The views of stored chapters.
pub open spec fn chapters_view(c: Seq<(String, u16, Vec<Verse>)>) -> Seq<
    (
        Seq<char>,
        u16,
        Seq<(Seq<char>, u16, u16, Seq<(Seq<char>, Seq<char>, Seq<char>, Seq<Seq<char>>, u32)>)>,
    ),
> {
    c.map_values(|x: (String, u16, Vec<Verse>)| (x.0@, x.1, verses_view(x.2@)))
}

impl View for Corpus {
    /// The chapters, and the tokenization stamp.
    type V = (
        Seq<
            (
                Seq<char>,
                u16,
                Seq<(Seq<char>, u16, u16, Seq<(Seq<char>, Seq<char>, Seq<char>, Seq<Seq<char>>, u32)>)>,
            ),
        >,
        Seq<char>,
    );

    closed spec fn view(&self) -> (
        Seq<
            (
                Seq<char>,
                u16,
                Seq<(Seq<char>, u16, u16, Seq<(Seq<char>, Seq<char>, Seq<char>, Seq<Seq<char>>, u32)>)>,
            ),
        >,
        Seq<char>,
    ) {
        (chapters_view(self.chapters@), self.tok_version@)
    }
}

impl Corpus {
    #[verifier::type_invariant]
    closed spec fn inv(self) -> bool {
        self.total == flat(chapters_view(self.chapters@)).len()
    }

    /// The tokenization version stamped in the file header.
    pub fn tokenization_version(&self) -> (r: &str)
        ensures
            r@ == self@.1,
    {
        self.tok_version.as_str()
    }

    /// Total verse count.
    pub fn len(&self) -> (r: usize)
        ensures
            r == flat(self@.0).len(),
    {
        proof {
            use_type_invariant(self);
        }
        self.total
    }

    /// Whether the corpus has no verses.
    pub fn is_empty(&self) -> (r: bool)
        ensures
            r == (flat(self@.0).len() == 0),
    {
        proof {
            use_type_invariant(self);
        }
        self.total == 0
    }

    fn slot_of(&self, book: &str, chapter: u16) -> (r: usize)
        ensures
            r == find_chapter(self@.0, book@, chapter),
            r <= self@.0.len(),
    {
        let ghost chs = self@.0;
        let mut k: usize = 0;
        while k < self.chapters.len() && !(self.chapters[k].1 == chapter && str_eq(
            self.chapters[k].0.as_str(),
            book,
        ))
            invariant
                k <= self.chapters@.len(),
                chs == chapters_view(self.chapters@),
                forall|j: int| 0 <= j < k ==> !is_chapter(chs, book@, chapter, j),
            decreases self.chapters@.len() - k,
        {
            assert(chs[k as int].0 == self.chapters@[k as int].0@);
            k = k + 1;
        }
        proof {
            if k < chs.len() {
                assert(chs[k as int].0 == self.chapters@[k as int].0@);
            }
            crate::church::lemma_first_where(
                chs.len(),
                |j: int| is_chapter(chs, book@, chapter, j),
                k as int,
            );
        }
        k
    }

    /// The verses of one chapter, in order (empty if the chapter does not exist).
    pub fn chapter_verses(&self, book: &str, chapter: u16) -> (r: &[Verse])
        ensures
            verses_view(r@) == chapter_lookup(self@.0, book@, chapter),
    {
        let k = self.slot_of(book, chapter);
        if k < self.chapters.len() {
            self.chapters[k].2.as_slice()
        } else {
            let empty: &[Verse] = &[];
            assert(verses_view(empty@) =~= Seq::empty());
            empty
        }
    }

    /// Number of chapters in a book (1 if unknown).
    pub fn chapter_count(&self, book: &str) -> (r: u16)
        ensures
            r == match max_chapter(self@.0, book@) {
                Some(m) => m,
                None => 1u16,
            },
    {
        let ghost chs = self@.0;
        let mut best: Option<u16> = None;
        let mut k: usize = 0;
        assert(chs.take(0) =~= Seq::empty());
        while k < self.chapters.len()
            invariant
                k <= self.chapters@.len(),
                chs == chapters_view(self.chapters@),
                best == max_chapter(chs.take(k as int), book@),
            decreases self.chapters@.len() - k,
        {
            assert(chs.take(k + 1).drop_last() == chs.take(k as int));
            assert(chs[k as int].0 == self.chapters@[k as int].0@);
            if str_eq(self.chapters[k].0.as_str(), book) {
                let c = self.chapters[k].1;
                best = match best {
                    Some(m) => Some(
                        if m >= c {
                            m
                        } else {
                            c
                        },
                    ),
                    None => Some(c),
                };
            }
            k = k + 1;
        }
        assert(chs.take(chs.len() as int) == chs);
        match best {
            Some(m) => m,
            None => 1,
        }
    }

    /// A verse by address.
    pub fn verse(&self, r: &VRef) -> (out: Option<&Verse>)
        ensures
            match verse_lookup(self@.0, r.book@, r.chapter, r.verse) {
                Some(x) => out matches Some(v) && v@ == x,
                None => out is None,
            },
    {
        let k = self.slot_of(r.book.as_str(), r.chapter);
        if k >= self.chapters.len() {
            return None;
        }
        let vs = &self.chapters[k].2;
        let j = position_of(vs.as_slice(), r.verse);
        assert(verses_view(vs@) == self@.0[k as int].2);
        if j < vs.len() {
            Some(&vs[j])
        } else {
            None
        }
    }

    /// The canonical index of a verse address.
    pub fn index_of(&self, r: &VRef) -> (out: Option<usize>)
        ensures
            ({
                let k = find_chapter(self@.0, r.book@, r.chapter);
                if k < self@.0.len() && find_verse(self@.0[k].2, r.verse) < self@.0[k].2.len() {
                    out == Some((flat(self@.0.take(k)).len() + find_verse(self@.0[k].2, r.verse)) as usize)
                } else {
                    out is None
                }
            }),
    {
        proof {
            use_type_invariant(self);
        }
        let ghost chs = self@.0;
        let k = self.slot_of(r.book.as_str(), r.chapter);
        if k >= self.chapters.len() {
            return None;
        }
        let vs = &self.chapters[k].2;
        let j = position_of(vs.as_slice(), r.verse);
        assert(verses_view(vs@) == chs[k as int].2);
        if j >= vs.len() {
            return None;
        }
        let mut start: usize = 0;
        let mut x: usize = 0;
        assert(chs.take(0) =~= Seq::empty());
        while x < k
            invariant
                x <= k < self.chapters@.len(),
                chs == chapters_view(self.chapters@),
                start == flat(chs.take(x as int)).len(),
                self.total == flat(chs).len(),
            decreases k - x,
        {
            assert(chs.take(x + 1).drop_last() == chs.take(x as int));
            proof {
                lemma_flat_prefix_len(chs, x + 1);
            }
            start = start + self.chapters[x].2.len();
            x = x + 1;
        }
        proof {
            lemma_flat_prefix_len(chs, k + 1);
            assert(chs.take(k + 1).drop_last() == chs.take(k as int));
        }
        Some(start + j)
    }

    /// The verse at a canonical index, if in range.
    pub fn verse_at(&self, i: usize) -> (out: Option<&Verse>)
        ensures
            i < flat(self@.0).len() ==> (out matches Some(v) && v@ == flat(self@.0)[i as int]),
            i >= flat(self@.0).len() ==> out is None,
    {
        let ghost chs = self@.0;
        let mut rest = i;
        let mut k: usize = 0;
        assert(chs.skip(0) == chs);
        proof {
            lemma_flat_skip(chs, 0);
        }
        while k < self.chapters.len()
            invariant
                k <= self.chapters@.len(),
                chs == chapters_view(self.chapters@),
                rest <= i,
                i < flat(chs).len() <==> rest < flat(chs.skip(k as int)).len(),
                rest < flat(chs.skip(k as int)).len() ==> flat(chs)[i as int] == flat(
                    chs.skip(k as int),
                )[rest as int],
            decreases self.chapters@.len() - k,
        {
            let n = self.chapters[k].2.len();
            proof {
                lemma_flat_skip(chs, k as int);
            }
            if rest < n {
                assert(verses_view(self.chapters@[k as int].2@) == chs[k as int].2);
                return Some(&self.chapters[k].2[rest]);
            }
            rest = rest - n;
            k = k + 1;
        }
        assert(chs.skip(k as int) =~= Seq::empty());
        None
    }

    /// Every verse in canonical order.
    pub fn verses_iter(&self) -> (r: Vec<&Verse>)
        ensures
            r@.map_values(|v: &Verse| v@) == flat(self@.0),
    {
        let ghost chs = self@.0;
        let mut out: Vec<&Verse> = Vec::new();
        let mut k: usize = 0;
        assert(chs.take(0) =~= Seq::empty());
        while k < self.chapters.len()
            invariant
                k <= self.chapters@.len(),
                chs == chapters_view(self.chapters@),
                out@.map_values(|v: &Verse| v@) == flat(chs.take(k as int)),
            decreases self.chapters@.len() - k,
        {
            let vs = &self.chapters[k].2;
            let ghost base = out@.map_values(|v: &Verse| v@);
            let mut j: usize = 0;
            while j < vs.len()
                invariant
                    j <= vs@.len(),
                    out@.map_values(|v: &Verse| v@) == base + verses_view(vs@).take(j as int),
                decreases vs@.len() - j,
            {
                let ghost before = out@;
                out.push(&vs[j]);
                proof {
                    assert(out@ == before.push(&vs@[j as int]));
                    assert(verses_view(vs@).take(j + 1) =~= verses_view(vs@).take(j as int).push(
                        vs@[j as int]@,
                    ));
                    assert(out@.map_values(|v: &Verse| v@) =~= before.map_values(|v: &Verse| v@).push(
                        vs@[j as int]@,
                    ));
                }
                j = j + 1;
            }
            assert(verses_view(vs@).take(vs@.len() as int) == verses_view(vs@));
            assert(chs.take(k + 1).drop_last() == chs.take(k as int));
            assert(chs[k as int].2 == verses_view(vs@));
            k = k + 1;
        }
        assert(chs.take(chs.len() as int) == chs);
        out
    }
}

proof fn lemma_flat_prefix_len(
    chs: Seq<
        (
            Seq<char>,
            u16,
            Seq<(Seq<char>, u16, u16, Seq<(Seq<char>, Seq<char>, Seq<char>, Seq<Seq<char>>, u32)>)>,
        ),
    >,
    k: int,
)
    requires
        0 <= k <= chs.len(),
    ensures
        flat(chs.take(k)).len() <= flat(chs).len(),
    decreases chs.len() - k,
{
    if k < chs.len() {
        lemma_flat_prefix_len(chs, k + 1);
        assert(chs.take(k + 1).drop_last() == chs.take(k));
    } else {
        assert(chs.take(k) == chs);
    }
}

proof fn lemma_flat_append(
    a: Seq<
        (
            Seq<char>,
            u16,
            Seq<(Seq<char>, u16, u16, Seq<(Seq<char>, Seq<char>, Seq<char>, Seq<Seq<char>>, u32)>)>,
        ),
    >,
    b: Seq<
        (
            Seq<char>,
            u16,
            Seq<(Seq<char>, u16, u16, Seq<(Seq<char>, Seq<char>, Seq<char>, Seq<Seq<char>>, u32)>)>,
        ),
    >,
)
    ensures
        flat(a + b) == flat(a) + flat(b),
    decreases b.len(),
{
    if b.len() == 0 {
        assert(a + b =~= a);
        assert(flat(a) + flat(b) =~= flat(a));
    } else {
        lemma_flat_append(a, b.drop_last());
        assert((a + b).drop_last() =~= a + b.drop_last());
        assert((a + b).last() == b.last());
        assert(flat(a) + flat(b.drop_last()) + b.last().2 =~= flat(a) + (flat(b.drop_last())
            + b.last().2));
    }
}

proof fn lemma_flat_skip(
    chs: Seq<
        (
            Seq<char>,
            u16,
            Seq<(Seq<char>, u16, u16, Seq<(Seq<char>, Seq<char>, Seq<char>, Seq<Seq<char>>, u32)>)>,
        ),
    >,
    k: int,
)
    requires
        0 <= k <= chs.len(),
    ensures
        flat(chs) == flat(chs.take(k)) + flat(chs.skip(k)),
        k < chs.len() ==> flat(chs.skip(k)) == chs[k].2 + flat(chs.skip(k + 1)),
{
    assert(chs.take(k) + chs.skip(k) =~= chs);
    lemma_flat_append(chs.take(k), chs.skip(k));
    if k < chs.len() {
        let one = seq![chs[k]];
        assert(one + chs.skip(k + 1) =~= chs.skip(k));
        lemma_flat_append(one, chs.skip(k + 1));
        assert(flat(one) == flat(one.drop_last()) + one.last().2);
        assert(flat(one.drop_last()).len() == 0);
        assert(flat(one) =~= chs[k].2);
    }
}

/// Whether every verse stands in the chapter its reference names, no chapter
/// comes twice, and no verse number comes twice in a chapter: the shape of
/// a corpus read from a sound source.
pub open spec fn keys_unique(
    chs: Seq<
        (
            Seq<char>,
            u16,
            Seq<(Seq<char>, u16, u16, Seq<(Seq<char>, Seq<char>, Seq<char>, Seq<Seq<char>>, u32)>)>,
        ),
    >,
) -> bool {
    &&& forall|k: int, j: int|
        0 <= k < chs.len() && 0 <= j < chs[k].2.len() ==> (#[trigger] chs[k].2[j]).0 == chs[k].0 && chs[k].2[j].1
            == chs[k].1
    &&& forall|a: int, b: int|
        0 <= a < b < chs.len() ==> !(#[trigger] chs[a].0 == #[trigger] chs[b].0 && chs[a].1 == chs[b].1)
    &&& forall|k: int, a: int, b: int|
        0 <= k < chs.len() && 0 <= a < b < chs[k].2.len() ==> #[trigger] chs[k].2[a].2 != #[trigger] chs[k].2[b].2
}

proof fn lemma_locate(
    chs: Seq<
        (
            Seq<char>,
            u16,
            Seq<(Seq<char>, u16, u16, Seq<(Seq<char>, Seq<char>, Seq<char>, Seq<Seq<char>>, u32)>)>,
        ),
    >,
    i: int,
) -> (kj: (int, int))
    requires
        0 <= i < flat(chs).len(),
    ensures
        0 <= kj.0 < chs.len(),
        0 <= kj.1 < chs[kj.0].2.len(),
        i == flat(chs.take(kj.0)).len() + kj.1,
        flat(chs)[i] == chs[kj.0].2[kj.1],
    decreases chs.len(),
{
    let d = chs.drop_last();
    if i < flat(d).len() {
        let (k, j) = lemma_locate(d, i);
        assert(d.take(k) =~= chs.take(k));
        assert(d[k] == chs[k]);
        (k, j)
    } else {
        let k = chs.len() - 1;
        assert(chs.take(k) =~= d);
        (k, i - flat(d).len())
    }
}

/// Reading back by reference what was read by position: in a corpus of the
/// shape [`keys_unique`] describes, the reference of the verse at position
/// `i` leads [`Corpus::index_of`] back to `i`.
pub proof fn lemma_index_of_verse_at(
    chs: Seq<
        (
            Seq<char>,
            u16,
            Seq<(Seq<char>, u16, u16, Seq<(Seq<char>, Seq<char>, Seq<char>, Seq<Seq<char>>, u32)>)>,
        ),
    >,
    i: int,
)
    requires
        keys_unique(chs),
        0 <= i < flat(chs).len(),
    ensures
        ({
            let v = flat(chs)[i];
            let k = find_chapter(chs, v.0, v.1);
            &&& k < chs.len()
            &&& find_verse(chs[k].2, v.2) < chs[k].2.len()
            &&& flat(chs.take(k)).len() + find_verse(chs[k].2, v.2) == i
        }),
{
    let (k, j) = lemma_locate(chs, i);
    let v = flat(chs)[i];
    assert(v == chs[k].2[j]);
    assert(v.0 == chs[k].0 && v.1 == chs[k].1);
    assert forall|x: int| 0 <= x < k implies !#[trigger] is_chapter(chs, v.0, v.1, x) by {
        assert(!(chs[x].0 == chs[k].0 && chs[x].1 == chs[k].1));
    }
    crate::church::lemma_first_where(chs.len(), |x: int| is_chapter(chs, v.0, v.1, x), k);
    assert forall|y: int| 0 <= y < j implies !#[trigger] is_verse(chs[k].2, v.2, y) by {
        assert(chs[k].2[y].2 != chs[k].2[j].2);
    }
    crate::church::lemma_first_where(chs[k].2.len(), |y: int| is_verse(chs[k].2, v.2, y), j);
}

/// The model of one verse: book, chapter, verse number, tokens.
pub type VerseModel = (Seq<char>, u16, u16, Seq<(Seq<char>, Seq<char>, Seq<char>, Seq<Seq<char>>, u32)>);

/// No verse of `vs` breaks canonical order (what [`check_ascending`] lets
/// through).
pub open spec fn in_canonical_order(vs: Seq<VerseModel>) -> bool {
    forall|i: int| 1 <= i < vs.len() ==> !#[trigger] disorder_at(vs, i)
}

/// `a` comes before `b` within one book.
spec fn ascends(a: VerseModel, b: VerseModel) -> bool {
    a.1 < b.1 || (a.1 == b.1 && a.2 < b.2)
}

proof fn lemma_order_is_first_disorder(vs: Seq<VerseModel>)
    requires
        first_disorder(vs) >= vs.len(),
    ensures
        in_canonical_order(vs),
{
    crate::church::lemma_first_where_props(vs.len(), |i: int| disorder_at(vs, i));
    assert forall|i: int| 1 <= i < vs.len() implies !#[trigger] disorder_at(vs, i) by {
        assert(!(|x: int| disorder_at(vs, x))(i));
    }
}

proof fn lemma_same_book_ascends(vs: Seq<VerseModel>, j: int, i: int)
    requires
        in_canonical_order(vs),
        0 <= j < i < vs.len(),
        vs[j].0 == vs[i].0,
    ensures
        ascends(vs[j], vs[i]),
    decreases i,
{
    assert(!disorder_at(vs, i));
    if vs[i - 1].0 == vs[i].0 {
        if j < i - 1 {
            lemma_same_book_ascends(vs, j, i - 1);
        }
    } else {
        assert(vs[j].0 == vs[i].0);
    }
}

proof fn lemma_order_prefix(vs: Seq<VerseModel>)
    requires
        in_canonical_order(vs),
        vs.len() > 0,
    ensures
        in_canonical_order(vs.drop_last()),
{
    let d = vs.drop_last();
    assert forall|i: int| 1 <= i < d.len() implies !#[trigger] disorder_at(d, i) by {
        assert(!disorder_at(vs, i));
        assert(d[i] == vs[i] && d[i - 1] == vs[i - 1]);
        if d[i].0 != d[i - 1].0 {
            if exists|j: int| 0 <= j < i && #[trigger] d[j].0 == d[i].0 {
                let j = choose|j: int| 0 <= j < i && #[trigger] d[j].0 == d[i].0;
                assert(vs[j].0 == vs[i].0);
            }
        }
    }
}

#[verifier::spinoff_prover]
#[verifier::rlimit(60)]
proof fn lemma_groups_of_ordered(vs: Seq<VerseModel>)
    requires
        in_canonical_order(vs),
    ensures
        keys_unique(group_runs(vs)),
        forall|k: int| 0 <= k < group_runs(vs).len() ==> (#[trigger] group_runs(vs)[k]).2.len() > 0,
        forall|k: int, j: int|
            0 <= k < group_runs(vs).len() && 0 <= j < group_runs(vs)[k].2.len() ==> vs.contains(
                #[trigger] group_runs(vs)[k].2[j],
            ),
        vs.len() > 0 ==> group_runs(vs).len() > 0 && group_runs(vs).last().2.len() > 0 && group_runs(
            vs,
        ).last().2.last() == vs.last(),
    decreases vs.len(),
{
    if vs.len() > 0 {
        let d = vs.drop_last();
        let n = vs.len() as int;
        lemma_order_prefix(vs);
        lemma_groups_of_ordered(d);
        let g = group_runs(d);
        let v = vs.last();
        assert(group_runs(vs) == (if g.len() > 0 && g.last().0 == v.0 && g.last().1 == v.1 {
            g.drop_last().push((g.last().0, g.last().1, g.last().2.push(v)))
        } else {
            g.push((v.0, v.1, seq![v]))
        }));
        assert forall|x: VerseModel| d.contains(x) implies vs.contains(x) by {
            let idx = choose|idx: int| 0 <= idx < d.len() && d[idx] == x;
            assert(vs[idx] == x);
        }
        if g.len() > 0 && g.last().0 == v.0 && g.last().1 == v.1 {
            let last = g.last();
            let nl = (last.0, last.1, last.2.push(v));
            let ng = g.drop_last().push(nl);
            assert(group_runs(vs) == ng);
            let m = g.len() - 1;
            assert forall|k: int| 0 <= k < ng.len() implies (#[trigger] ng[k]).2.len() > 0 by {
                if k < m {
                    assert(ng[k] == g[k]);
                }
            }
            assert forall|k: int, j: int| 0 <= k < ng.len() && 0 <= j < ng[k].2.len() implies vs.contains(
                #[trigger] ng[k].2[j],
            ) by {
                if k < m {
                    assert(ng[k] == g[k]);
                    assert(d.contains(g[k].2[j]));
                } else if j < last.2.len() {
                    assert(ng[k].2[j] == g[m].2[j]);
                    assert(d.contains(g[m].2[j]));
                } else {
                    assert(ng[k].2[j] == vs[n - 1]);
                }
            }
            assert forall|k: int, j: int| 0 <= k < ng.len() && 0 <= j < ng[k].2.len() implies (
            #[trigger] ng[k].2[j]).0 == ng[k].0 && ng[k].2[j].1 == ng[k].1 by {
                if k < m {
                    assert(ng[k] == g[k]);
                    assert(g[k].2[j].0 == g[k].0);
                } else if j < last.2.len() {
                    assert(ng[k].2[j] == g[m].2[j]);
                    assert(g[m].2[j].0 == g[m].0);
                }
            }
            assert forall|a: int, b: int| 0 <= a < b < ng.len() implies !(#[trigger] ng[a].0
                == #[trigger] ng[b].0 && ng[a].1 == ng[b].1) by {
                assert(ng[a] == g[a]);
                if b < m {
                    assert(ng[b] == g[b]);
                }
                assert(ng[b].0 == g[b].0 && ng[b].1 == g[b].1);
            }
            assert forall|k: int, a: int, b: int|
                0 <= k < ng.len() && 0 <= a < b < ng[k].2.len() implies #[trigger] ng[k].2[a].2
                != #[trigger] ng[k].2[b].2 by {
                if k < m {
                    assert(ng[k] == g[k]);
                } else if b < last.2.len() {
                    assert(ng[k].2[a] == g[m].2[a]);
                    assert(ng[k].2[b] == g[m].2[b]);
                } else {
                    let w = g[m].2[a];
                    assert(ng[k].2[a] == w);
                    assert(ng[k].2[b] == v);
                    assert(d.contains(w));
                    let idx = choose|idx: int| 0 <= idx < d.len() && d[idx] == w;
                    assert(w.0 == g[m].0 && w.1 == g[m].1);
                    assert(vs[idx] == w);
                    lemma_same_book_ascends(vs, idx, n - 1);
                }
            }
        } else {
            let ng = g.push((v.0, v.1, seq![v]));
            assert(group_runs(vs) == ng);
            let m = g.len() as int;
            assert forall|k: int| 0 <= k < ng.len() implies (#[trigger] ng[k]).2.len() > 0 by {
                if k < m {
                    assert(ng[k] == g[k]);
                }
            }
            assert forall|k: int, j: int| 0 <= k < ng.len() && 0 <= j < ng[k].2.len() implies vs.contains(
                #[trigger] ng[k].2[j],
            ) by {
                if k < m {
                    assert(ng[k] == g[k]);
                    assert(d.contains(g[k].2[j]));
                } else {
                    assert(ng[k].2[j] == vs[n - 1]);
                }
            }
            assert forall|k: int, j: int| 0 <= k < ng.len() && 0 <= j < ng[k].2.len() implies (
            #[trigger] ng[k].2[j]).0 == ng[k].0 && ng[k].2[j].1 == ng[k].1 by {
                if k < m {
                    assert(ng[k] == g[k]);
                    assert(g[k].2[j].0 == g[k].0);
                }
            }
            assert forall|a: int| 0 <= a < m implies !(g[a].0 == v.0 && g[a].1 == v.1) by {
                if g[a].0 == v.0 && g[a].1 == v.1 {
                    let w = g[a].2[0];
                    assert(d.contains(w));
                    let idx = choose|idx: int| 0 <= idx < d.len() && d[idx] == w;
                    assert(vs[idx] == w);
                    assert(w.0 == g[a].0 && w.1 == g[a].1);
                    let p = vs[n - 2];
                    assert(p == g.last().2.last());
                    assert(p.0 == g.last().0 && p.1 == g.last().1);
                    assert(!disorder_at(vs, n - 1));
                    if p.0 == v.0 {
                        if idx < n - 2 {
                            lemma_same_book_ascends(vs, idx, n - 2);
                        }
                    } else {
                        assert(vs[idx].0 == vs[n - 1].0);
                    }
                }
            }
            assert forall|a: int, b: int| 0 <= a < b < ng.len() implies !(#[trigger] ng[a].0
                == #[trigger] ng[b].0 && ng[a].1 == ng[b].1) by {
                assert(ng[a] == g[a]);
                if b < m {
                    assert(ng[b] == g[b]);
                }
            }
            assert forall|k: int, a: int, b: int|
                0 <= k < ng.len() && 0 <= a < b < ng[k].2.len() implies #[trigger] ng[k].2[a].2
                != #[trigger] ng[k].2[b].2 by {
                if k < m {
                    assert(ng[k] == g[k]);
                }
            }
        }
    }
}

/// Reading back by reference what was read by position, for every corpus
/// that [`Corpus::from_parsed`] accepts: its verse stream is in canonical
/// order, so the reference of the verse at position `i` leads
/// [`Corpus::index_of`] back to `i`.
pub proof fn lemma_ordered_corpus_reads_back(vs: Seq<VerseModel>, i: int)
    requires
        first_disorder(vs) >= vs.len(),
        0 <= i < vs.len(),
    ensures
        ({
            let chs = group_runs(vs);
            let v = vs[i];
            let k = find_chapter(chs, v.0, v.1);
            &&& flat(chs)[i] == v
            &&& k < chs.len()
            &&& find_verse(chs[k].2, v.2) < chs[k].2.len()
            &&& flat(chs.take(k)).len() + find_verse(chs[k].2, v.2) == i
        }),
{
    lemma_order_is_first_disorder(vs);
    lemma_groups_of_ordered(vs);
    lemma_flat_group(vs);
    lemma_index_of_verse_at(group_runs(vs), i);
}

/// Where the first verse numbered `verse` stands in `vs` (or its length).
fn position_of(vs: &[Verse], verse: u16) -> (r: usize)
    ensures
        r == find_verse(verses_view(vs@), verse),
        r <= vs@.len(),
{
    let ghost vv = verses_view(vs@);
    let mut j: usize = 0;
    while j < vs.len() && vs[j].verse != verse
        invariant
            j <= vs@.len(),
            vv == verses_view(vs@),
            forall|x: int| 0 <= x < j ==> !is_verse(vv, verse, x),
        decreases vs@.len() - j,
    {
        j = j + 1;
    }
    proof {
        if j < vv.len() {
            assert(vv[j as int].2 == vs@[j as int].verse);
        }
        crate::church::lemma_first_where(vv.len(), |x: int| is_verse(vv, verse, x), j as int);
    }
    j
}


// ── building and checking ────────────────────────────────────────────────────

/// Verse `i` breaks canonical order: within a book `(chapter, verse)` must
/// strictly ascend, and a book may not come back once another has followed it.
pub open spec fn disorder_at(
    vs: Seq<(Seq<char>, u16, u16, Seq<(Seq<char>, Seq<char>, Seq<char>, Seq<Seq<char>>, u32)>)>,
    i: int,
) -> bool {
    1 <= i < vs.len() && {
        let p = vs[i - 1];
        let c = vs[i];
        if c.0 == p.0 {
            c.1 < p.1 || (c.1 == p.1 && c.2 <= p.2)
        } else {
            exists|j: int| 0 <= j < i && #[trigger] vs[j].0 == c.0
        }
    }
}

/// The first verse that breaks canonical order, or the stream's length.
pub open spec fn first_disorder(
    vs: Seq<(Seq<char>, u16, u16, Seq<(Seq<char>, Seq<char>, Seq<char>, Seq<Seq<char>>, u32)>)>,
) -> int {
    crate::church::first_where(vs.len(), |i: int| disorder_at(vs, i))
}

/// The message for a stream out of order at `(book, chapter, verse)`.
pub open spec fn order_message(book: Seq<char>, chapter: u16, verse: u16) -> Seq<char> {
    "corpus not in canonical order at "@ + crate::reference::ref_key_spec(book, chapter, verse)
}

/// The message for a header count that the verse lines do not match.
pub open spec fn count_message(declared: nat, found: nat) -> Seq<char> {
    "verse count mismatch: header says "@ + crate::text::dec(declared) + ", file has "@
        + crate::text::dec(found)
}

/// Validate that the verse stream is grouped by book and strictly ascending by
/// `(chapter, verse)` within each book, with no book recurring once passed.
pub fn check_ascending(verses: &[Verse]) -> (r: Result<(), Error>)
    ensures
        ({
            let vv = verses_view(verses@);
            let k = first_disorder(vv);
            if k < vv.len() {
                r matches Err(Error::Corpus(m)) && m@ == order_message(vv[k].0, vv[k].1, vv[k].2)
            } else {
                r is Ok
            }
        }),
{
    let ghost vv = verses_view(verses@);
    let mut i: usize = 1;
    if verses.len() == 0 {
        proof {
            crate::church::lemma_first_where(0, |x: int| disorder_at(vv, x), 0);
        }
        return Ok(());
    }
    while i < verses.len()
        invariant
            1 <= i <= verses@.len(),
            vv == verses_view(verses@),
            forall|x: int| 0 <= x < i ==> !#[trigger] disorder_at(vv, x),
        decreases verses@.len() - i,
    {
        let p = &verses[i - 1];
        let c = &verses[i];
        assert(vv[i - 1] == p@ && vv[i as int] == c@);
        let bad = if str_eq(c.book.as_str(), p.book.as_str()) {
            c.chapter < p.chapter || (c.chapter == p.chapter && c.verse <= p.verse)
        } else {
            let mut seen = false;
            let mut j: usize = 0;
            while j < i
                invariant
                    j <= i < verses@.len(),
                    vv == verses_view(verses@),
                    c.book@ == vv[i as int].0,
                    seen == exists|x: int| 0 <= x < j && #[trigger] vv[x].0 == vv[i as int].0,
                decreases i - j,
            {
                assert(vv[j as int].0 == verses@[j as int].book@);
                if str_eq(verses[j].book.as_str(), c.book.as_str()) {
                    seen = true;
                }
                proof {
                    if !seen {
                        assert forall|x: int| 0 <= x < j + 1 implies #[trigger] vv[x].0 != vv[i as int].0 by {
                            if x == j {
                            }
                        }
                    }
                }
                j = j + 1;
            }
            seen
        };
        assert(bad == disorder_at(vv, i as int));
        if bad {
            let mut m = crate::text::string_from("corpus not in canonical order at ");
            let key = c.vref().ref_key();
            push_str(&mut m, key.as_str());
            proof {
                crate::church::lemma_first_where(vv.len(), |x: int| disorder_at(vv, x), i as int);
            }
            return Err(Error::Corpus(m));
        }
        i = i + 1;
    }
    proof {
        crate::church::lemma_first_where(vv.len(), |x: int| disorder_at(vv, x), vv.len() as int);
    }
    Ok(())
}

impl Corpus {
    /// Build the corpus from a verse stream: each run of consecutive verses
    /// with the same book and chapter becomes one chapter.
    pub fn from_verses(tok_version: String, verses: Vec<Verse>) -> (c: Corpus)
        ensures
            c@ == (group_runs(verses_view(verses@)), tok_version@),
    {
        let ghost orig = verses@;
        let ghost ov = verses_view(orig);
        let n = verses.len();
        let mut verses = verses;
        let mut rev: Vec<Verse> = Vec::new();
        while verses.len() > 0
            invariant
                n == orig.len(),
                verses@ == orig.take(verses@.len() as int),
                rev@.len() + verses@.len() == n,
                forall|x: int| 0 <= x < rev@.len() ==> #[trigger] rev@[x] == orig[n - 1 - x],
            decreases verses@.len(),
        {
            let ghost before = verses@;
            let v = verses.pop().unwrap();
            assert(verses@ =~= orig.take(verses@.len() as int));
            rev.push(v);
        }
        let mut done: Vec<(String, u16, Vec<Verse>)> = Vec::new();
        let mut run: Vec<Verse> = Vec::new();
        assert(ov.take(0) =~= Seq::empty());
        while rev.len() > 0
            invariant
                n == orig.len(),
                ov == verses_view(orig),
                rev@.len() <= n,
                forall|x: int| 0 <= x < rev@.len() ==> #[trigger] rev@[x] == orig[n - 1 - x],
                run@.len() == 0 ==> rev@.len() == n && done@.len() == 0,
                run@.len() > 0 ==> group_runs(ov.take(n - rev@.len())) == chapters_view(done@).push(
                    (run@[0].book@, run@[0].chapter, verses_view(run@)),
                ),
            decreases rev@.len(),
        {
            let ghost k = n - rev@.len();
            let v = rev.pop().unwrap();
            assert(v == orig[k]);
            let ghost vv = v@;
            assert(ov[k] == vv);
            assert(ov.take(k + 1).drop_last() =~= ov.take(k));
            assert(ov.take(k + 1).last() == vv);
            if run.len() == 0 {
                assert(ov.take(k) =~= Seq::empty());
                assert(group_runs(ov.take(k)).len() == 0);
                run.push(v);
                assert(verses_view(run@) =~= seq![vv]);
                assert(chapters_view(done@) =~= Seq::empty());
                assert(group_runs(ov.take(k + 1)) =~= chapters_view(done@).push(
                    (run@[0].book@, run@[0].chapter, verses_view(run@)),
                ));
            } else {
                let same = run[0].chapter == v.chapter && str_eq(run[0].book.as_str(), v.book.as_str());
                let ghost g = group_runs(ov.take(k));
                let ghost cur = (run@[0].book@, run@[0].chapter, verses_view(run@));
                assert(g.last() == cur);
                assert(g.drop_last() =~= chapters_view(done@));
                if same {
                    run.push(v);
                    assert(verses_view(run@) =~= cur.2.push(vv));
                    assert(group_runs(ov.take(k + 1)) =~= chapters_view(done@).push(
                        (run@[0].book@, run@[0].chapter, verses_view(run@)),
                    ));
                } else {
                    let book = crate::text::string_from(run[0].book.as_str());
                    let ch = run[0].chapter;
                    let full = run;
                    done.push((book, ch, full));
                    assert(chapters_view(done@) =~= g);
                    run = Vec::new();
                    run.push(v);
                    assert(verses_view(run@) =~= seq![vv]);
                    assert(group_runs(ov.take(k + 1)) == g.push((vv.0, vv.1, seq![vv])));
                    assert(group_runs(ov.take(k + 1)) =~= chapters_view(done@).push(
                        (run@[0].book@, run@[0].chapter, verses_view(run@)),
                    ));
                }
            }
        }
        assert(ov.take(n as int) =~= ov);
        if run.len() > 0 {
            let book = crate::text::string_from(run[0].book.as_str());
            let ch = run[0].chapter;
            done.push((book, ch, run));
            assert(chapters_view(done@) =~= group_runs(ov));
        } else {
            assert(chapters_view(done@) =~= Seq::empty());
        }
        proof {
            lemma_flat_group(ov);
        }
        Corpus { chapters: done, total: n, tok_version }
    }

    /// Validate a parsed verse stream against its header and build the corpus:
    /// the stream must be in canonical order, then hold as many verses as the
    /// header declares.
    pub fn from_parsed(tok_version: String, declared: usize, verses: Vec<Verse>) -> (r: Result<
        Corpus,
        Error,
    >)
        ensures
            ({
                let vv = verses_view(verses@);
                let k = first_disorder(vv);
                if k < vv.len() {
                    r matches Err(Error::Corpus(m)) && m@ == order_message(vv[k].0, vv[k].1, vv[k].2)
                } else if vv.len() != declared {
                    r matches Err(Error::Corpus(m)) && m@ == count_message(
                        declared as nat,
                        vv.len(),
                    )
                } else {
                    r matches Ok(c) && c@ == (group_runs(vv), tok_version@)
                }
            }),
    {
        match check_ascending(verses.as_slice()) {
            Err(e) => return Err(e),
            Ok(()) => {},
        }
        if verses.len() != declared {
            let mut m = crate::text::string_from("verse count mismatch: header says ");
            crate::text::push_dec(&mut m, declared as u64);
            push_str(&mut m, ", file has ");
            crate::text::push_dec(&mut m, verses.len() as u64);
            return Err(Error::Corpus(m));
        }
        Ok(Corpus::from_verses(tok_version, verses))
    }
}

/// The cache file that sits next to a corpus source: `<source>.idxcache`.
pub fn cache_path(path: &str) -> (r: String)
    ensures
        r@ == path@ + ".idxcache"@,
{
    let mut s = crate::text::string_from(path);
    push_str(&mut s, ".idxcache");
    s
}

} // verus!

verus! {

// ── the chapter-directory cache's framing ────────────────────────────────────
//
// A parsed corpus is cached next to its source as `magic | dir_len | dir |
// payload`: an eight-byte magic, the directory's length as a little-endian
// `u32`, the directory (the source stamp, the tokenization and one entry per
// chapter), then each chapter's verses, separately decodable. Encoding the
// directory and the chapters is the shell's; the framing, the freshness rule
// and the bounds of each chapter are decided here.

/// The magic that opens a chapter-directory cache: `PLBC0001`.
pub open spec fn dir_cache_magic() -> Seq<u8> {
    seq![0x50u8, 0x4cu8, 0x42u8, 0x43u8, 0x30u8, 0x30u8, 0x30u8, 0x31u8]
}

/// A framed cache: magic, directory length, directory, payload.
pub open spec fn dir_cache_bytes(dir: Seq<u8>, payload: Seq<u8>) -> Seq<u8> {
    dir_cache_magic() + crate::akjv::le32(dir.len() as u32) + dir + payload
}

/// How a cache file reads.
#[derive(Debug, Clone, Copy, PartialEq, Eq, Structural)]
pub enum CacheFrame {
    /// Not a chapter-directory cache: the whole-corpus layout of earlier
    /// versions, to be decoded as one.
    Whole,
    /// The directory lies in `dir_start..dir_end`; the payload starts at
    /// `dir_end`.
    Directory { dir_start: usize, dir_end: usize },
    /// The magic is there but the file ends inside the directory.
    Truncated,
}

/// What a cache file's bytes are.
pub open spec fn frame_of(b: Seq<u8>) -> CacheFrame {
    if b.len() < 8 || b.take(8) != dir_cache_magic() {
        CacheFrame::Whole
    } else {
        match crate::akjv::rd32(b, 8) {
            Some(n) => if 12 + n <= b.len() {
                CacheFrame::Directory { dir_start: 12, dir_end: (12 + n) as usize }
            } else {
                CacheFrame::Truncated
            },
            None => CacheFrame::Truncated,
        }
    }
}

/// Frame an encoded directory and payload as a cache file.
pub fn frame_dir_cache(dir: &[u8], payload: &[u8]) -> (r: Vec<u8>)
    requires
        dir@.len() <= u32::MAX,
    ensures
        r@ == dir_cache_bytes(dir@, payload@),
{
    let mut out: Vec<u8> = Vec::new();
    out.push(0x50u8);
    out.push(0x4cu8);
    out.push(0x42u8);
    out.push(0x43u8);
    out.push(0x30u8);
    out.push(0x30u8);
    out.push(0x30u8);
    out.push(0x31u8);
    assert(out@ =~= dir_cache_magic());
    crate::akjv::push_le32(&mut out, dir.len() as u32);
    crate::text::push_bytes(&mut out, dir);
    crate::text::push_bytes(&mut out, payload);
    out
}

fn has_dir_magic(b: &[u8]) -> (r: bool)
    requires
        b@.len() >= 8,
    ensures
        r == (b@.take(8) == dir_cache_magic()),
{
    let r = b[0] == 0x50u8 && b[1] == 0x4cu8 && b[2] == 0x42u8 && b[3] == 0x43u8 && b[4] == 0x30u8
        && b[5] == 0x30u8 && b[6] == 0x30u8 && b[7] == 0x31u8;
    if r {
        assert(b@.take(8) =~= dir_cache_magic());
    } else {
        assert(b@.take(8) != dir_cache_magic()) by {
            if b@.take(8) == dir_cache_magic() {
                assert(b@.take(8)[0] == b@[0]);
                assert(b@.take(8)[1] == b@[1]);
                assert(b@.take(8)[2] == b@[2]);
                assert(b@.take(8)[3] == b@[3]);
                assert(b@.take(8)[4] == b@[4]);
                assert(b@.take(8)[5] == b@[5]);
                assert(b@.take(8)[6] == b@[6]);
                assert(b@.take(8)[7] == b@[7]);
            }
        }
    }
    r
}

/// Read a cache file's framing (see [`frame_of`]).
pub fn read_dir_frame(b: &[u8]) -> (r: CacheFrame)
    ensures
        r == frame_of(b@),
{
    if b.len() < 8 || !has_dir_magic(b) {
        return CacheFrame::Whole;
    }
    match crate::akjv::read32(b, 8) {
        Some(n) => {
            if (n as usize) <= b.len() - 12 {
                CacheFrame::Directory { dir_start: 12, dir_end: 12 + n as usize }
            } else {
                CacheFrame::Truncated
            }
        },
        None => CacheFrame::Truncated,
    }
}

/// A framed cache reads back as its directory and payload.
pub proof fn lemma_dir_frame_round_trip(dir: Seq<u8>, payload: Seq<u8>)
    requires
        dir.len() <= u32::MAX,
    ensures
        frame_of(dir_cache_bytes(dir, payload)) == (CacheFrame::Directory {
            dir_start: 12,
            dir_end: (12 + dir.len()) as usize,
        }),
        dir_cache_bytes(dir, payload).subrange(12, 12 + dir.len() as int) == dir,
        dir_cache_bytes(dir, payload).skip(12 + dir.len() as int) == payload,
{
    let b = dir_cache_bytes(dir, payload);
    let l = crate::akjv::le32(dir.len() as u32);
    vstd::bytes::lemma_auto_spec_u32_to_from_le_bytes();
    assert(l.len() == 4);
    assert(b.take(8) =~= dir_cache_magic());
    assert(b.subrange(8, 12) =~= l);
    assert(b.subrange(12, 12 + dir.len() as int) =~= dir);
    assert(b.skip(12 + dir.len() as int) =~= payload);
}

/// Whether a cache was written from this source by a tokenizer this build
/// agrees with: its tokenization is one a shipped language reads, and, when
/// the source file's `(length, mtime)` is known, the cache was stamped with
/// the same.
pub open spec fn cache_fresh_spec(src_len: u64, src_mtime: i64, tok: Seq<char>, stamp: Option<(u64, i64)>) -> bool {
    crate::i18n::lang_for_tokenization(tok) is Some && match stamp {
        Some((len, mtime)) => src_len == len && src_mtime == mtime,
        None => true,
    }
}

/// Whether a cache is fresh (see [`cache_fresh_spec`]).
pub fn cache_is_fresh(src_len: u64, src_mtime: i64, tok: &str, stamp: Option<(u64, i64)>) -> (r: bool)
    ensures
        r == cache_fresh_spec(src_len, src_mtime, tok@, stamp),
{
    crate::i18n::Lang::for_tokenization(tok).is_some() && match stamp {
        Some((len, mtime)) => src_len == len && src_mtime == mtime,
        None => true,
    }
}

/// Where a chapter's verses lie in the cache: `off` into the payload that
/// starts at `payload`, `len` bytes long; nothing when they would run past the
/// end of the file (a truncated cache).
pub open spec fn chapter_span_spec(payload: nat, off: u32, len: u32, total: nat) -> Option<(nat, nat)> {
    if payload + off + len <= total {
        Some(((payload + off) as nat, len as nat))
    } else {
        None
    }
}

/// A chapter's byte range in the cache (see [`chapter_span_spec`]).
pub fn chapter_span(payload: usize, off: u32, len: u32, total: usize) -> (r: Option<(usize, usize)>)
    ensures
        match chapter_span_spec(payload as nat, off, len, total as nat) {
            Some((s, n)) => r == Some((s as usize, n as usize)),
            None => r is None,
        },
{
    if payload > total {
        return None;
    }
    let room = total - payload;
    if (off as usize) <= room && (len as usize) <= room - off as usize {
        Some((payload + off as usize, len as usize))
    } else {
        None
    }
}

/// Whether bytes open with the gzip magic (an earlier, compressed cache).
pub fn is_gzip(b: &[u8]) -> (r: bool)
    ensures
        r == (b@.len() >= 2 && b@[0] == 0x1fu8 && b@[1] == 0x8bu8),
{
    b.len() >= 2 && b[0] == 0x1fu8 && b[1] == 0x8bu8
}

/// Names what `flate2::read::GzDecoder`, read to its end, makes of `b`: the
/// data of the first gzip member, or `None` when the bytes will not decode.
pub uninterp spec fn gunzipped(b: Seq<u8>) -> Option<Seq<u8>>;

/// `flate2::read::GzDecoder` over `b`, read to its end: the data of the
/// first gzip member, or `None` where decoding fails. The contract names the
/// result and says no more of it.
#[verifier::external_body]
fn gunzip(b: &[u8]) -> (r: Option<Vec<u8>>)
    ensures
        match r {
            Some(v) => gunzipped(b@) == Some(v@),
            None => gunzipped(b@) is None,
        },
{
    let mut gz = flate2::read::GzDecoder::new(b);
    let mut raw: Vec<u8> = Vec::new();
    match std::io::Read::read_to_end(&mut gz, &mut raw) {
        Ok(_) => Some(raw),
        Err(_) => None,
    }
}

/// Whether bytes open with the gzip magic.
pub open spec fn is_gzip_spec(b: Seq<u8>) -> bool {
    b.len() >= 2 && b[0] == 0x1fu8 && b[1] == 0x8bu8
}

/// The payload of a whole-corpus cache: inflated when it is gzipped, else
/// the bytes as they are. `None` exactly when gzipped bytes will not inflate.
pub fn cache_v1_payload(b: &[u8]) -> (r: Option<Vec<u8>>)
    ensures
        match r {
            Some(v) => if is_gzip_spec(b@) {
                gunzipped(b@) == Some(v@)
            } else {
                v@ == b@
            },
            None => is_gzip_spec(b@) && gunzipped(b@) is None,
        },
{
    if is_gzip(b) {
        gunzip(b)
    } else {
        Some(vstd::slice::slice_to_vec(b))
    }
}

} // verus!

verus! {

// ── the canonical order of a cache's chapters ────────────────────────────────

/// A book's canon position from `i` on, or `usize::MAX` for a book the canon
/// does not have.
pub open spec fn canon_pos_from(id: Seq<char>, i: nat) -> nat
    decreases crate::canon::BOOK_COUNT - i,
{
    if i >= crate::canon::BOOK_COUNT {
        usize::MAX as nat
    } else if crate::canon::book_row(i as usize).id@ == id {
        i
    } else {
        canon_pos_from(id, i + 1)
    }
}

/// A book's canon position, or `usize::MAX` for a book the canon does not have.
pub open spec fn canon_pos(id: Seq<char>) -> nat {
    canon_pos_from(id, 0)
}

/// The order of chapters in a cache: by canon position, then by book id (so
/// books outside the canon still sort the same way every time), then by
/// chapter.
pub open spec fn slot_lt(a: (Seq<char>, u16), b: (Seq<char>, u16)) -> bool {
    canon_pos(a.0) < canon_pos(b.0) || (canon_pos(a.0) == canon_pos(b.0) && crate::akjv::key_lt(
        (a.0, a.1, 0),
        (b.0, b.1, 0),
    ))
}

/// Where chapter `k` goes among the ordered `s`: after every chapter that does
/// not sort after it.
pub open spec fn place_of(keys: Seq<(Seq<char>, u16)>, s: Seq<int>, k: (Seq<char>, u16)) -> int
    decreases s.len(),
{
    if s.len() == 0 {
        0
    } else if slot_lt(k, keys[s.last()]) {
        place_of(keys, s.drop_last(), k)
    } else {
        s.len() as int
    }
}

/// The chapters' indices in cache order; chapters with equal keys keep their
/// stored order.
pub open spec fn cache_order_spec(keys: Seq<(Seq<char>, u16)>) -> Seq<int>
    decreases keys.len(),
{
    if keys.len() == 0 {
        Seq::empty()
    } else {
        let s = cache_order_spec(keys.drop_last());
        s.insert(place_of(keys, s, keys.last()), keys.len() - 1)
    }
}

proof fn lemma_canon_pos(id: Seq<char>, i: usize)
    requires
        forall|j: usize| j < i ==> crate::canon::book_row(j).id@ != id,
        i <= crate::canon::BOOK_COUNT,
    ensures
        canon_pos(id) == canon_pos_from(id, i as nat),
    decreases i,
{
    if i > 0 {
        lemma_canon_pos_step(id, (i - 1) as nat);
        lemma_canon_pos(id, (i - 1) as usize);
    }
}

proof fn lemma_canon_pos_step(id: Seq<char>, j: nat)
    requires
        j < crate::canon::BOOK_COUNT,
        crate::canon::book_row(j as usize).id@ != id,
    ensures
        canon_pos_from(id, j) == canon_pos_from(id, j + 1),
{
}

fn canon_position(id: &str) -> (r: usize)
    ensures
        r as nat == canon_pos(id@),
{
    match crate::canon::book_order(id) {
        Some(i) => {
            proof {
                lemma_canon_pos(id@, i);
            }
            i
        },
        None => {
            proof {
                lemma_canon_pos(id@, crate::canon::BOOK_COUNT);
            }
            usize::MAX
        },
    }
}

fn slot_less(a: &str, ac: u16, pa: usize, b: &str, bc: u16, pb: usize) -> (r: bool)
    requires
        pa as nat == canon_pos(a@),
        pb as nat == canon_pos(b@),
    ensures
        r == slot_lt((a@, ac), (b@, bc)),
{
    if pa != pb {
        return pa < pb;
    }
    let x = VRef::new(a, ac, 0);
    let y = VRef::new(b, bc, 0);
    crate::akjv::compare_keys(&x, &y) == -1
}

impl Corpus {
    /// How many chapters the corpus holds.
    pub fn slot_count(&self) -> (r: usize)
        ensures
            r == self@.0.len(),
    {
        self.chapters.len()
    }

    /// The `i`-th stored chapter: its book, number and verses.
    pub fn slot(&self, i: usize) -> (r: (&str, u16, &[Verse]))
        requires
            i < self@.0.len(),
        ensures
            (r.0@, r.1, verses_view(r.2@)) == self@.0[i as int],
    {
        let c = &self.chapters[i];
        (c.0.as_str(), c.1, c.2.as_slice())
    }

    /// The chapters' indices in the order a cache lays them out (see
    /// [`cache_order_spec`]).
    pub fn cache_order(&self) -> (r: Vec<usize>)
        ensures
            r@.map_values(|i: usize| i as int) == cache_order_spec(self@.0.map_values(
                |c: (Seq<char>, u16, Seq<(Seq<char>, u16, u16, Seq<(Seq<char>, Seq<char>, Seq<char>, Seq<Seq<char>>, u32)>)>)| (c.0, c.1),
            )),
    {
        let ghost keys = self@.0.map_values(
            |c: (Seq<char>, u16, Seq<(Seq<char>, u16, u16, Seq<(Seq<char>, Seq<char>, Seq<char>, Seq<Seq<char>>, u32)>)>)| (c.0, c.1),
        );
        let n = self.chapters.len();
        let mut pos: Vec<usize> = Vec::new();
        let mut k: usize = 0;
        while k < n
            invariant
                k <= n,
                n == self.chapters.len(),
                pos@.len() == k,
                forall|j: int| 0 <= j < k ==> pos@[j] as nat == canon_pos(#[trigger] self.chapters@[j].0@),
            decreases n - k,
        {
            pos.push(canon_position(self.chapters[k].0.as_str()));
            k = k + 1;
        }
        let mut out: Vec<usize> = Vec::new();
        let mut i: usize = 0;
        assert(keys.take(0) =~= Seq::<(Seq<char>, u16)>::empty());
        while i < n
            invariant
                i <= n,
                n == self.chapters.len(),
                keys.len() == n,
                keys == self@.0.map_values(
                    |c: (Seq<char>, u16, Seq<(Seq<char>, u16, u16, Seq<(Seq<char>, Seq<char>, Seq<char>, Seq<Seq<char>>, u32)>)>)| (c.0, c.1),
                ),
                pos@.len() == n,
                forall|j: int| 0 <= j < n ==> pos@[j] as nat == canon_pos(#[trigger] self.chapters@[j].0@),
                out@.map_values(|x: usize| x as int) == cache_order_spec(keys.take(i as int)),
                forall|j: int| 0 <= j < out@.len() ==> out@[j] < i,
                out@.len() == i,
            decreases n - i,
        {
            let ghost s = out@.map_values(|x: usize| x as int);
            let ghost ki = keys[i as int];
            assert(keys.take(i + 1).drop_last() =~= keys.take(i as int));
            assert(keys.take(i + 1).last() == ki);
            assert(ki == (self.chapters@[i as int].0@, self.chapters@[i as int].1));
            let mut p: usize = out.len();
            let mut done = false;
            assert(s.take(out@.len() as int) =~= s);
            while p > 0 && !done
                invariant
                    done ==> p > 0 && !slot_lt(ki, keys.take(i + 1)[s[p - 1]]),
                    p <= out@.len(),
                    s == out@.map_values(|x: usize| x as int),
                    forall|j: int| 0 <= j < out@.len() ==> out@[j] < i,
                    i < n,
                    n == self.chapters.len(),
                    keys.len() == n,
                    pos@.len() == n,
                    forall|j: int| 0 <= j < n ==> pos@[j] as nat == canon_pos(#[trigger] self.chapters@[j].0@),
                    keys == self@.0.map_values(
                        |c: (Seq<char>, u16, Seq<(Seq<char>, u16, u16, Seq<(Seq<char>, Seq<char>, Seq<char>, Seq<Seq<char>>, u32)>)>)| (c.0, c.1),
                    ),
                    ki == keys[i as int],
                    place_of(keys.take(i + 1), s, ki) == place_of(keys.take(i + 1), s.take(p as int), ki),
                decreases p + if done { 0int } else { 1int },
            {
                let j = out[p - 1];
                proof {
                    assert(s.take(p as int).last() == j as int);
                    assert(keys.take(i + 1)[j as int] == keys[j as int]);
                    assert(keys[j as int] == (self.chapters@[j as int].0@, self.chapters@[j as int].1));
                }
                let c = &self.chapters[i];
                let d = &self.chapters[j];
                if !slot_less(c.0.as_str(), c.1, pos[i], d.0.as_str(), d.1, pos[j]) {
                    done = true;
                } else {
                    assert(s.take(p as int).drop_last() =~= s.take(p - 1));
                    p = p - 1;
                }
            }
            proof {
                lemma_place_stop(keys.take(i + 1), s, ki, p as int);
                lemma_place_same_keys(keys.take(i + 1), keys.take(i as int), s, ki);
            }
            out.insert(p, i);
            assert(out@.map_values(|x: usize| x as int) =~= s.insert(p as int, i as int));
            i = i + 1;
        }
        assert(keys.take(n as int) =~= keys);
        out
    }
}

proof fn lemma_place_stop(keys: Seq<(Seq<char>, u16)>, s: Seq<int>, k: (Seq<char>, u16), p: int)
    requires
        0 <= p <= s.len(),
        place_of(keys, s, k) == place_of(keys, s.take(p), k),
        p > 0 ==> !slot_lt(k, keys[s[p - 1]]),
    ensures
        place_of(keys, s, k) == p,
{
    if p > 0 {
        assert(s.take(p).last() == s[p - 1]);
    }
}

proof fn lemma_place_same_keys(
    long: Seq<(Seq<char>, u16)>,
    short: Seq<(Seq<char>, u16)>,
    s: Seq<int>,
    k: (Seq<char>, u16),
)
    requires
        short.len() <= long.len(),
        forall|j: int| 0 <= j < short.len() ==> long[j] == short[j],
        forall|j: int| 0 <= j < s.len() ==> 0 <= #[trigger] s[j] < short.len(),
    ensures
        place_of(long, s, k) == place_of(short, s, k),
    decreases s.len(),
{
    if s.len() > 0 {
        lemma_place_same_keys(long, short, s.drop_last(), k);
    }
}

} // verus!

verus! {

/// The sum of the first `n` lengths.
pub open spec fn sum_lens(lens: Seq<usize>, n: int) -> int
    decreases n,
{
    if n <= 0 {
        0
    } else {
        sum_lens(lens, n - 1) + lens[n - 1]
    }
}

/// Each chapter's `(offset, length)` in the payload, chapters laid end to end
/// in the given order, both written as the directory's `u32` fields.
pub fn payload_offsets(lens: &[usize]) -> (r: Vec<(u32, u32)>)
    requires
        sum_lens(lens@, lens@.len() as int) <= usize::MAX,
    ensures
        r@.len() == lens@.len(),
        forall|i: int|
            0 <= i < lens@.len() ==> #[trigger] r@[i] == (sum_lens(lens@, i) as u32, lens@[i] as u32),
{
    let mut out: Vec<(u32, u32)> = Vec::new();
    let mut at: usize = 0;
    let mut i: usize = 0;
    while i < lens.len()
        invariant
            i <= lens@.len(),
            at == sum_lens(lens@, i as int),
            sum_lens(lens@, lens@.len() as int) <= usize::MAX,
            out@.len() == i,
            forall|j: int| 0 <= j < i ==> #[trigger] out@[j] == (sum_lens(lens@, j) as u32, lens@[j] as u32),
        decreases lens@.len() - i,
    {
        proof {
            lemma_sum_lens_mono(lens@, i + 1, lens@.len() as int);
        }
        out.push((at as u32, lens[i] as u32));
        at = at + lens[i];
        i = i + 1;
    }
    out
}

proof fn lemma_sum_lens_mono(lens: Seq<usize>, a: int, b: int)
    requires
        0 <= a <= b <= lens.len(),
    ensures
        sum_lens(lens, a) <= sum_lens(lens, b),
    decreases b - a,
{
    if a < b {
        lemma_sum_lens_mono(lens, a, b - 1);
    }
}

} // verus!
