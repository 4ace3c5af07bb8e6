//! Formatting verses and chapters for the clipboard.
//!
//! There is no clipboard logic here, only the text a shell copies, produced
//! once so that every shell yields byte-identical output. Three shapes, one
//! per context-menu affordance:
//! - plain: just the verse or chapter text;
//! - ref-suffixed: `text — John 3:16 (KJV)`;
//! - markdown: a blockquote with an attribution line.
//!
//! The reference labels (`John 3:16`, `John 3`) are rendered for the reader's
//! language by the caller and handed in, so this module reads no language
//! state of its own.

use vstd::prelude::*;

use crate::corpus::{
    chapter_lookup, render_tokens, rendered, select, tokens_view, verse_lookup, verses_view, Corpus,
    Verse,
};
use crate::reference::VRef;
use crate::text::{dec, push_char, push_dec, push_str, string_from, trim_end, trimmed_end};

verus! {

/// What to copy and in which shape.
#[derive(Debug, Clone, Copy, PartialEq, Eq, Structural)]
pub enum CopyKind {
    /// The verse text alone.
    Verse,
    /// The verse text followed by ` — <display> (KJV)`.
    VerseRef,
    /// The verse as a markdown blockquote with an attribution line.
    VerseMarkdown,
    /// The whole chapter, one `N text` line per verse, then a trailing ref.
    Chapter,
    /// The whole chapter as a markdown blockquote (bold verse numbers).
    ChapterMarkdown,
}

/// The frozen wire token of a kind.
pub open spec fn kind_token(k: CopyKind) -> Seq<char> {
    match k {
        CopyKind::Verse => "verse"@,
        CopyKind::VerseRef => "verseRef"@,
        CopyKind::VerseMarkdown => "verseMarkdown"@,
        CopyKind::Chapter => "chapter"@,
        CopyKind::ChapterMarkdown => "chapterMarkdown"@,
    }
}

/// The kind a wire token names, if any.
pub open spec fn kind_of(t: Seq<char>) -> Option<CopyKind> {
    if t == "verse"@ {
        Some(CopyKind::Verse)
    } else if t == "verseRef"@ {
        Some(CopyKind::VerseRef)
    } else if t == "verseMarkdown"@ {
        Some(CopyKind::VerseMarkdown)
    } else if t == "chapter"@ {
        Some(CopyKind::Chapter)
    } else if t == "chapterMarkdown"@ {
        Some(CopyKind::ChapterMarkdown)
    } else {
        None
    }
}

impl CopyKind {
    /// The frozen wire token (for the copy endpoint).
    pub fn token(self) -> (r: &'static str)
        ensures
            r@ == kind_token(self),
    {
        match self {
            CopyKind::Verse => "verse",
            CopyKind::VerseRef => "verseRef",
            CopyKind::VerseMarkdown => "verseMarkdown",
            CopyKind::Chapter => "chapter",
            CopyKind::ChapterMarkdown => "chapterMarkdown",
        }
    }
}

/// Parse a wire token into a [`CopyKind`]; `None` for an unknown token.
pub fn parse_kind(t: &str) -> (r: Option<CopyKind>)
    ensures
        r == kind_of(t@),
{
    if crate::text::str_eq(t, "verse") {
        Some(CopyKind::Verse)
    } else if crate::text::str_eq(t, "verseRef") {
        Some(CopyKind::VerseRef)
    } else if crate::text::str_eq(t, "verseMarkdown") {
        Some(CopyKind::VerseMarkdown)
    } else if crate::text::str_eq(t, "chapter") {
        Some(CopyKind::Chapter)
    } else if crate::text::str_eq(t, "chapterMarkdown") {
        Some(CopyKind::ChapterMarkdown)
    } else {
        None
    }
}

/// Every kind's token parses back to that kind.
pub proof fn lemma_kind_round_trip(k: CopyKind)
    ensures
        kind_of(kind_token(k)) == Some(k),
{
    reveal_strlit("verse");
    reveal_strlit("verseRef");
    reveal_strlit("verseMarkdown");
    reveal_strlit("chapter");
    reveal_strlit("chapterMarkdown");
    assert("verse"@.len() == 5);
    assert("verseRef"@.len() == 8);
    assert("verseMarkdown"@.len() == 13);
    assert("chapter"@.len() == 7);
    assert("chapterMarkdown"@.len() == 15);
    assert("verseRef"@[0] != "chapter"@[0]);
    assert("verseMarkdown"@[0] != "chapterMarkdown"@[0]);
}

/// The full text of one verse: superscription (psalm title) then body, so
/// nothing is dropped when a psalm's first verse carries a title.
pub open spec fn verse_text(
    v: (Seq<char>, u16, u16, Seq<(Seq<char>, Seq<char>, Seq<char>, Seq<Seq<char>>, u32)>),
) -> Seq<char> {
    let title = rendered(select(v.3, true));
    let body = rendered(select(v.3, false));
    if title.len() > 0 && body.len() > 0 {
        title + seq![' '] + body
    } else if title.len() > 0 {
        title
    } else {
        body
    }
}

/// Copying a verse drops nothing: the copy opens with the verse's title (a
/// psalm's superscription), ends with its body, and holds exactly one space
/// between them when both are there, and nothing else.
pub proof fn lemma_verse_text_keeps_title_and_body(
    v: (Seq<char>, u16, u16, Seq<(Seq<char>, Seq<char>, Seq<char>, Seq<Seq<char>>, u32)>),
)
    ensures
        ({
            let title = rendered(select(v.3, true));
            let body = rendered(select(v.3, false));
            let both = title.len() > 0 && body.len() > 0;
            let t = verse_text(v);
            &&& t.len() == title.len() + body.len() + (if both { 1int } else { 0int })
            &&& t.take(title.len() as int) == title
            &&& t.skip(t.len() - body.len()) == body
            &&& both ==> t[title.len() as int] == ' '
        }),
{
    let title = rendered(select(v.3, true));
    let body = rendered(select(v.3, false));
    let t = verse_text(v);
    if title.len() > 0 && body.len() > 0 {
        assert(t.take(title.len() as int) =~= title);
        assert(t.skip(t.len() - body.len()) =~= body);
    } else if title.len() > 0 {
        assert(t.take(title.len() as int) =~= title);
        assert(t.skip(t.len() - body.len()) =~= body);
    } else {
        assert(t.take(title.len() as int) =~= title);
        assert(t.skip(t.len() - body.len()) =~= body);
    }
}

/// A chapter's verses, one line each: a title line where the verse has one,
/// then the verse number (bold in `markdown`), a space and the body.
pub open spec fn chapter_lines(
    vs: Seq<(Seq<char>, u16, u16, Seq<(Seq<char>, Seq<char>, Seq<char>, Seq<Seq<char>>, u32)>)>,
    markdown: bool,
) -> Seq<char>
    decreases vs.len(),
{
    if vs.len() == 0 {
        Seq::empty()
    } else {
        let v = vs.last();
        let title = rendered(select(v.3, true));
        let head = if title.len() > 0 {
            title + seq!['\n']
        } else {
            Seq::empty()
        };
        let num = if markdown {
            "**"@ + dec(v.2 as nat) + "**"@
        } else {
            dec(v.2 as nat)
        };
        chapter_lines(vs.drop_last(), markdown) + head + num + seq![' '] + rendered(select(v.3, false))
            + seq!['\n']
    }
}

/// `s` with each line break (`\n` or `\r\n`) followed by the quote marker `> `.
pub open spec fn quote_rest(s: Seq<char>) -> Seq<char>
    decreases s.len(),
{
    if s.len() == 0 {
        Seq::empty()
    } else if s.last() == '\n' {
        if s.len() >= 2 && s[s.len() - 2] == '\r' {
            quote_rest(s.take(s.len() - 2)) + "\n> "@
        } else {
            quote_rest(s.drop_last()) + "\n> "@
        }
    } else {
        quote_rest(s.drop_last()).push(s.last())
    }
}

/// Text that does not end in a line break, as a markdown blockquote: every
/// line prefixed with `> `.
pub open spec fn quote(s: Seq<char>) -> Seq<char> {
    if s.len() == 0 {
        Seq::empty()
    } else {
        "> "@ + quote_rest(s)
    }
}

/// What [`copy_text`] produces: `None` when the verse (or, for the chapter
/// kinds, the chapter) is not in the corpus.
pub open spec fn copy_spec(
    chs: Seq<
        (
            Seq<char>,
            u16,
            Seq<(Seq<char>, u16, u16, Seq<(Seq<char>, Seq<char>, Seq<char>, Seq<Seq<char>>, u32)>)>,
        ),
    >,
    r: (Seq<char>, u16, u16),
    kind: CopyKind,
    verse_label: Seq<char>,
    chapter_label: Seq<char>,
) -> Option<Seq<char>> {
    match kind {
        CopyKind::Verse | CopyKind::VerseRef | CopyKind::VerseMarkdown => match verse_lookup(
            chs,
            r.0,
            r.1,
            r.2,
        ) {
            None => None,
            Some(v) => {
                let text = verse_text(v);
                Some(
                    match kind {
                        CopyKind::Verse => text,
                        CopyKind::VerseRef => text + " — "@ + verse_label + " (KJV)"@,
                        _ => "> "@ + text + "\n>\n> — *"@ + verse_label + "* (KJV)"@,
                    },
                )
            },
        },
        _ => {
            let vs = chapter_lookup(chs, r.0, r.1);
            if vs.len() == 0 {
                None
            } else {
                let body = trim_end(chapter_lines(vs, kind == CopyKind::ChapterMarkdown));
                Some(
                    if kind == CopyKind::Chapter {
                        body + "\n— "@ + chapter_label + " (KJV)"@
                    } else {
                        quote(body) + "\n>\n> — *"@ + chapter_label + "* (KJV)"@
                    },
                )
            }
        },
    }
}

/// The full text of one verse (see [`verse_text`]).
fn verse_text_of(v: &Verse) -> (r: String)
    ensures
        r@ == verse_text(v@),
{
    let title = v.title();
    let body = v.body();
    let no_title = crate::text::is_empty_str(title.as_str());
    let no_body = crate::text::is_empty_str(body.as_str());
    if !no_title && !no_body {
        let mut s = title;
        push_char(&mut s, ' ');
        push_str(&mut s, body.as_str());
        s
    } else if !no_title {
        title
    } else {
        body
    }
}

/// The chapter's lines (see [`chapter_lines`]).
fn chapter_text(vs: &[Verse], markdown: bool) -> (r: String)
    ensures
        r@ == chapter_lines(verses_view(vs@), markdown),
{
    let ghost all = verses_view(vs@);
    let mut out = String::new();
    let mut i: usize = 0;
    assert(all.take(0) =~= Seq::empty());
    while i < vs.len()
        invariant
            i <= vs@.len(),
            all == verses_view(vs@),
            out@ == chapter_lines(all.take(i as int), markdown),
        decreases vs@.len() - i,
    {
        let v = &vs[i];
        assert(all.take(i + 1).drop_last() == all.take(i as int));
        assert(all.take(i + 1).last() == v@);
        let title = v.title();
        if !crate::text::is_empty_str(title.as_str()) {
            push_str(&mut out, title.as_str());
            push_char(&mut out, '\n');
        }
        if markdown {
            push_str(&mut out, "**");
            push_dec(&mut out, v.verse as u64);
            push_str(&mut out, "**");
        } else {
            push_dec(&mut out, v.verse as u64);
        }
        push_char(&mut out, ' ');
        let body = v.body();
        push_str(&mut out, body.as_str());
        push_char(&mut out, '\n');
        i = i + 1;
        proof {
            let t = rendered(select(v@.3, true));
            let head = if t.len() > 0 {
                t + seq!['\n']
            } else {
                Seq::empty()
            };
            let num = if markdown {
                "**"@ + dec(v.verse as nat) + "**"@
            } else {
                dec(v.verse as nat)
            };
            assert(out@ =~= chapter_lines(all.take(i - 1), markdown) + head + num + seq![' ']
                + rendered(select(v@.3, false)) + seq!['\n']);
        }
    }
    assert(all.take(vs@.len() as int) == all);
    out
}

/// `s` as a blockquote (see [`quote`]).
fn quoted(s: &str) -> (r: String)
    ensures
        r@ == quote(s@),
{
    let cs = crate::text::chars_of(s);
    let n = cs.len();
    if n == 0 {
        return String::new();
    }
    let mut out = string_from("> ");
    let ghost head = out@;
    let mut i: usize = 0;
    assert(cs@.take(0) =~= Seq::empty());
    while i < n
        invariant
            n == cs@.len(),
            i <= n,
            out@ == head + quote_rest(cs@.take(i as int)),
            i > 0 && cs@[i - 1] == '\r' ==> i >= n || cs@[i as int] != '\n',
        decreases n - i,
    {
        let c = cs[i];
        if c == '\r' && i + 1 < n && cs[i + 1] == '\n' {
            push_str(&mut out, "\n> ");
            i = i + 2;
            proof {
                let t = cs@.take(i as int);
                assert(t.last() == '\n' && t[t.len() - 2] == '\r');
                assert(t.take(t.len() - 2) =~= cs@.take(i - 2));
                assert(out@ =~= head + quote_rest(t));
            }
        } else if c == '\n' {
            push_str(&mut out, "\n> ");
            i = i + 1;
            proof {
                let t = cs@.take(i as int);
                assert(t.drop_last() =~= cs@.take(i - 1));
                assert(t.last() == '\n');
                assert(!(t.len() >= 2 && t[t.len() - 2] == '\r'));
                assert(out@ =~= head + quote_rest(t));
            }
        } else {
            push_char(&mut out, c);
            i = i + 1;
            proof {
                let t = cs@.take(i as int);
                assert(t.drop_last() =~= cs@.take(i - 1));
                assert(t.last() == c);
                assert(out@ =~= head + quote_rest(t));
            }
        }
    }
    assert(cs@.take(n as int) == cs@);
    out
}

/// The clipboard text for `vref` (its chapter, for the `Chapter*` kinds) in
/// the requested shape, attributed with `verse_label` or `chapter_label` (the
/// reference as the reader sees it). `None` when the verse or chapter is not
/// in the corpus.
pub fn copy_text(
    corpus: &Corpus,
    vref: &VRef,
    kind: CopyKind,
    verse_label: &str,
    chapter_label: &str,
) -> (r: Option<String>)
    ensures
        match copy_spec(corpus@.0, vref@, kind, verse_label@, chapter_label@) {
            Some(s) => r matches Some(x) && x@ == s,
            None => r is None,
        },
{
    match kind {
        CopyKind::Verse | CopyKind::VerseRef | CopyKind::VerseMarkdown => {
            let v = match corpus.verse(vref) {
                Some(v) => v,
                None => return None,
            };
            let text = verse_text_of(v);
            match kind {
                CopyKind::Verse => Some(text),
                CopyKind::VerseRef => {
                    let mut s = text;
                    push_str(&mut s, " — ");
                    push_str(&mut s, verse_label);
                    push_str(&mut s, " (KJV)");
                    Some(s)
                },
                _ => {
                    let mut s = string_from("> ");
                    push_str(&mut s, text.as_str());
                    push_str(&mut s, "\n>\n> — *");
                    push_str(&mut s, verse_label);
                    push_str(&mut s, "* (KJV)");
                    Some(s)
                },
            }
        },
        _ => {
            let verses = corpus.chapter_verses(vref.book.as_str(), vref.chapter);
            if verses.len() == 0 {
                return None;
            }
            let markdown = match kind {
                CopyKind::ChapterMarkdown => true,
                _ => false,
            };
            let lines = chapter_text(verses, markdown);
            let body = trimmed_end(lines.as_str());
            match kind {
                CopyKind::Chapter => {
                    let mut s = body;
                    push_str(&mut s, "\n— ");
                    push_str(&mut s, chapter_label);
                    push_str(&mut s, " (KJV)");
                    Some(s)
                },
                _ => {
                    let mut s = quoted(body.as_str());
                    push_str(&mut s, "\n>\n> — *");
                    push_str(&mut s, chapter_label);
                    push_str(&mut s, "* (KJV)");
                    Some(s)
                },
            }
        },
    }
}

/// The plain text of a run of verses, every token, space-joined.
pub open spec fn plain_spec(
    vs: Seq<(Seq<char>, u16, u16, Seq<(Seq<char>, Seq<char>, Seq<char>, Seq<Seq<char>>, u32)>)>,
) -> Seq<char>
    decreases vs.len(),
{
    if vs.len() == 0 {
        Seq::empty()
    } else if vs.len() == 1 {
        rendered(vs[0].3)
    } else {
        plain_spec(vs.drop_last()) + seq![' '] + rendered(vs.last().3)
    }
}

/// Space-joined text of a run of verses, without numbering.
pub fn plain_join(verses: &[Verse]) -> (r: String)
    ensures
        r@ == plain_spec(verses_view(verses@)),
{
    let ghost all = verses_view(verses@);
    let mut out = String::new();
    let mut i: usize = 0;
    assert(all.take(0) =~= Seq::empty());
    while i < verses.len()
        invariant
            i <= verses@.len(),
            all == verses_view(verses@),
            out@ == plain_spec(all.take(i as int)),
        decreases verses@.len() - i,
    {
        let v = &verses[i];
        assert(all.take(i + 1).drop_last() == all.take(i as int));
        assert(all.take(i + 1).last() == v@);
        if i > 0 {
            push_char(&mut out, ' ');
        } else {
            assert(all.take(1) =~= seq![v@]);
        }
        let text = render_tokens(v.tokens.as_slice());
        push_str(&mut out, text.as_str());
        i = i + 1;
    }
    assert(all.take(verses@.len() as int) == all);
    out
}

} // verus!
