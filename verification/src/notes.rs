//! The 1769 KJV translators' margin notes (`kjv-notes.jsonl`).
//!
//! One JSON object per line, `{"b":OSIS,"c":ch,"v":vs,"note":text}`, with no
//! header. A shell decodes the lines it can and hands the records here in file
//! order; lines that do not decode are simply not handed over. Notes are grouped
//! by verse, and several notes on one verse keep their file order.

use vstd::prelude::*;

use crate::reference::VRef;

verus! {

/// A verse address as plain values.
pub type VerseKey = (Seq<char>, u16, u16);

/// The notes of each verse, in order of first appearance.
pub type NotesModel = Seq<(VerseKey, Seq<Seq<char>>)>;

/// The notes on `k`, in file order.
pub open spec fn notes_on(recs: Seq<(VerseKey, Seq<char>)>, k: VerseKey) -> Seq<Seq<char>>
    decreases recs.len(),
{
    if recs.len() == 0 {
        Seq::empty()
    } else {
        let rest = notes_on(recs.drop_last(), k);
        if recs.last().0 == k {
            rest.push(recs.last().1)
        } else {
            rest
        }
    }
}

/// Where `k` sits among the grouped entries, or -1.
pub open spec fn key_index(es: NotesModel, k: VerseKey) -> int
    decreases es.len(),
{
    if es.len() == 0 {
        -1
    } else if es.last().0 == k {
        es.len() - 1
    } else {
        key_index(es.drop_last(), k)
    }
}

/// The records grouped by verse: a verse's first note opens its entry, later
/// notes join it.
pub open spec fn group_notes(recs: Seq<(VerseKey, Seq<char>)>) -> NotesModel
    decreases recs.len(),
{
    if recs.len() == 0 {
        Seq::empty()
    } else {
        let g = group_notes(recs.drop_last());
        let (k, n) = recs.last();
        let i = key_index(g, k);
        if i >= 0 {
            g.update(i, (k, g[i].1.push(n)))
        } else {
            g.push((k, seq![n]))
        }
    }
}

/// No verse has two entries.
pub open spec fn keys_distinct(es: NotesModel) -> bool {
    forall|i: int, j: int| 0 <= i < j < es.len() ==> es[i].0 != es[j].0
}

/// The records as plain values.
pub open spec fn records_view(recs: Seq<(VRef, String)>) -> Seq<(VerseKey, Seq<char>)> {
    recs.map_values(|r: (VRef, String)| (r.0@, r.1@))
}

proof fn lemma_key_index(es: NotesModel, k: VerseKey)
    ensures
        -1 <= key_index(es, k) < es.len(),
        key_index(es, k) >= 0 ==> es[key_index(es, k)].0 == k,
        key_index(es, k) < 0 ==> forall|i: int| 0 <= i < es.len() ==> es[i].0 != k,
    decreases es.len(),
{
    if es.len() > 0 && es.last().0 != k {
        let pre = es.drop_last();
        lemma_key_index(pre, k);
        assert forall|i: int| 0 <= i < pre.len() implies pre[i] == es[i] by {}
    }
}

/// Grouping keeps every verse once, and each verse's entry holds exactly its
/// notes in file order; a verse with no note has no entry.
pub proof fn lemma_group_notes(recs: Seq<(VerseKey, Seq<char>)>)
    ensures
        keys_distinct(group_notes(recs)),
        forall|i: int|
            0 <= i < group_notes(recs).len() ==> #[trigger] group_notes(recs)[i].1 == notes_on(
                recs,
                group_notes(recs)[i].0,
            ) && group_notes(recs)[i].1.len() > 0,
        forall|k: VerseKey|
            key_index(group_notes(recs), k) < 0 ==> #[trigger] notes_on(recs, k).len() == 0,
    decreases recs.len(),
{
    if recs.len() > 0 {
        let pre = recs.drop_last();
        lemma_group_notes(pre);
        let g = group_notes(pre);
        let (k, n) = recs.last();
        lemma_key_index(g, k);
        let gg = group_notes(recs);
        let ki = key_index(g, k);
        assert(recs.last() == (k, n));
        if ki >= 0 {
            assert(gg == g.update(ki, (k, g[ki].1.push(n))));
        } else {
            assert(gg == g.push((k, seq![n])));
            assert(notes_on(pre, k).len() == 0);
        }
        assert forall|i: int| 0 <= i < gg.len() implies #[trigger] gg[i].1 == notes_on(recs, gg[i].0)
            && gg[i].1.len() > 0 by {
            if i < g.len() {
                assert(g[i].1 == notes_on(pre, g[i].0));
                if i != ki {
                    assert(gg[i] == g[i]);
                    assert(g[i].0 != k);
                }
            }
        }
        assert forall|i: int, j: int| 0 <= i < j < gg.len() implies gg[i].0 != gg[j].0 by {
            if j < g.len() {
                assert(gg[i].0 == g[i].0);
                assert(gg[j].0 == g[j].0);
            } else {
                assert(gg[i].0 == g[i].0);
            }
        }
        assert forall|kk: VerseKey| key_index(gg, kk) < 0 implies #[trigger] notes_on(recs, kk).len()
            == 0 by {
            lemma_key_index(gg, kk);
            lemma_key_index(g, kk);
            if key_index(g, kk) >= 0 {
                let j = key_index(g, kk);
                assert(gg[j].0 == kk);
            }
            if kk == k {
                if ki >= 0 {
                    assert(gg[ki].0 == k);
                } else {
                    assert(gg[g.len() as int].0 == k);
                }
            } else {
                assert(key_index(g, kk) < 0);
                assert(notes_on(pre, kk).len() == 0);
                assert(notes_on(recs, kk) == notes_on(pre, kk));
            }
        }
    }
}

/// The notes of a file, grouped by verse.
pub struct Notes {
    entries: Vec<(VRef, Vec<String>)>,
}

/// The notes of a verse as plain values.
pub open spec fn note_texts(ns: Seq<String>) -> Seq<Seq<char>> {
    ns.map_values(|s: String| s@)
}

impl View for Notes {
    type V = NotesModel;

    closed spec fn view(&self) -> NotesModel {
        self.entries@.map_values(|e: (VRef, Vec<String>)| (e.0@, note_texts(e.1@)))
    }
}

impl Notes {
    /// No notes.
    pub fn new() -> (r: Notes)
        ensures
            r@ == Seq::<(VerseKey, Seq<Seq<char>>)>::empty(),
    {
        let r = Notes { entries: Vec::new() };
        assert(r@ =~= Seq::<(VerseKey, Seq<Seq<char>>)>::empty());
        r
    }

    /// The decoded records of a file, in file order, grouped by verse.
    pub fn from_records(recs: Vec<(VRef, String)>) -> (r: Notes)
        ensures
            r@ == group_notes(records_view(recs@)),
    {
        let ghost all = records_view(recs@);
        let mut out = Notes::new();
        let mut i: usize = 0;
        while i < recs.len()
            invariant
                i <= recs.len(),
                all == records_view(recs@),
                out@ == group_notes(all.take(i as int)),
            decreases recs.len() - i,
        {
            let k = VRef::new(recs[i].0.book.as_str(), recs[i].0.chapter, recs[i].0.verse);
            let n = crate::text::string_from(recs[i].1.as_str());
            proof {
                assert(all.take(i as int + 1).drop_last() =~= all.take(i as int));
                assert(all.take(i as int + 1).last() == (k@, n@));
            }
            out.add(k, n);
            i = i + 1;
        }
        assert(all.take(recs.len() as int) =~= all);
        out
    }

    fn find(&self, k: &VRef) -> (r: Option<usize>)
        ensures
            match r {
                Some(i) => i as int == key_index(self@, k@) && i < self.entries.len(),
                None => key_index(self@, k@) < 0,
            },
    {
        let mut j: usize = self.entries.len();
        assert(self@.take(j as int) =~= self@);
        while j > 0
            invariant
                j <= self.entries.len(),
                key_index(self@, k@) == key_index(self@.take(j as int), k@),
            decreases j,
        {
            proof {
                assert(self@.take(j as int).drop_last() =~= self@.take(j as int - 1));
            }
            if self.entries[j - 1].0 == *k {
                return Some(j - 1);
            }
            j = j - 1;
        }
        None
    }

    fn add(&mut self, k: VRef, n: String)
        ensures
            final(self)@ == ({
                let g = old(self)@;
                let i = key_index(g, k@);
                if i >= 0 {
                    g.update(i, (k@, g[i].1.push(n@)))
                } else {
                    g.push((k@, seq![n@]))
                }
            }),
    {
        proof {
            lemma_key_index(self@, k@);
        }
        match self.find(&k) {
            Some(i) => {
                let mut e = self.entries.remove(i);
                let ghost before = e.1@;
                e.1.push(n);
                assert(note_texts(e.1@) =~= note_texts(before).push(n@));
                self.entries.insert(i, e);
                assert(self@ =~= old(self)@.update(i as int, (k@, old(self)@[i as int].1.push(n@))));
            },
            None => {
                let mut ns: Vec<String> = Vec::new();
                ns.push(n);
                assert(note_texts(ns@) =~= seq![n@]);
                self.entries.push((k, ns));
                assert(self@ =~= old(self)@.push((k@, seq![n@])));
            },
        }
    }

    /// How many verses have notes.
    pub fn len(&self) -> (r: usize)
        ensures
            r == self@.len(),
    {
        self.entries.len()
    }

    /// Whether no verse has a note.
    pub fn is_empty(&self) -> (r: bool)
        ensures
            r == (self@.len() == 0),
    {
        self.entries.len() == 0
    }

    /// The notes on one verse, in file order; `None` when it has none.
    pub fn get(&self, k: &VRef) -> (r: Option<&[String]>)
        ensures
            match r {
                Some(ns) => key_index(self@, k@) >= 0 && note_texts(ns@) == self@[key_index(
                    self@,
                    k@,
                )].1,
                None => key_index(self@, k@) < 0,
            },
    {
        match self.find(k) {
            Some(i) => {
                assert(self@[i as int] == (self.entries@[i as int].0@, note_texts(self.entries@[i as int].1@)));
                Some(self.entries[i].1.as_slice())
            },
            None => None,
        }
    }

    /// Whether a verse has a note.
    pub fn contains_key(&self, k: &VRef) -> (r: bool)
        ensures
            r == (key_index(self@, k@) >= 0),
    {
        self.find(k).is_some()
    }
}

} // verus!
