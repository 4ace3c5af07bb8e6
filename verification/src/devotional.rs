//! Devotionals: a bundled booklet of dated readings, one entry a day.
//!
//! The catalogue is authored content that ships with the app: a numbered run
//! of entries, each with a scripture passage, a reflection and an activity,
//! its text keyed by language. A run is the reader's own data: which booklet,
//! when started, which days finished.
//!
//! The pacing is sequence-anchored, one entry a day: today's entry is the
//! lowest day not yet marked done, completion is declared by the reader, and
//! having banked a day the next waits for the reader's next local date.

use vstd::prelude::*;

use crate::church::first_where;
use crate::text::{str_eq, string_from};

verus! {

/// The catalogue's format tag.
pub const FORMAT: &'static str = "devotional-v1";

/// A run file's format tag.
pub const RUN_FORMAT: &'static str = "plumbline-devotional-run-v1";

/// The language every booklet ships in, and the fallback for a language not
/// yet translated.
pub const BASE_LANG: &'static str = "en";

/// One passage an entry sits on; `end` absent is a single verse.
#[derive(Debug, Clone, PartialEq, Eq)]
pub struct ScriptureRef {
    /// OSIS book id.
    pub book: String,
    pub chapter: u16,
    pub verse: u16,
    pub end: Option<u16>,
}

/// One entry's words, in one language.
#[derive(Debug, Clone, PartialEq, Eq)]
pub struct EntryText {
    pub title: String,
    /// The reflection, one string per paragraph.
    pub reflection: Vec<String>,
    pub activity: String,
}

/// One day of a booklet.
#[derive(Debug, Clone, PartialEq, Eq)]
pub struct Entry {
    /// 1-based, contiguous across the booklet.
    pub day: u32,
    pub scripture: Vec<ScriptureRef>,
    /// Language code and words, one pair per language.
    pub texts: Vec<(String, EntryText)>,
}

/// A titled run of days.
#[derive(Debug, Clone, PartialEq, Eq)]
pub struct Section {
    pub from: u32,
    pub to: u32,
    pub title: String,
}

/// A booklet's own words, in one language.
#[derive(Debug, Clone, PartialEq, Eq)]
pub struct BookletText {
    /// What every list shows the booklet under.
    pub name: String,
    /// The send-off, shown at the foot of the last day.
    pub closing: Vec<String>,
}

/// One devotional booklet.
#[derive(Debug, Clone, PartialEq, Eq)]
pub struct Devotional {
    pub id: String,
    pub days: u32,
    /// Whether the new-believer welcome starts this booklet automatically.
    pub new_believer: bool,
    pub sections: Vec<Section>,
    pub entries: Vec<Entry>,
    /// Language code and words, one pair per language.
    pub texts: Vec<(String, BookletText)>,
}

/// The position of the first pair keyed `k`, or the length.
pub open spec fn key_pos<T>(ps: Seq<(String, T)>, k: Seq<char>) -> int {
    first_where(ps.len(), |i: int| ps[i].0@ == k)
}

/// The position of the pair for `lang`, else for the base language, else the
/// length.
pub open spec fn text_pos<T>(ps: Seq<(String, T)>, lang: Seq<char>) -> int {
    if key_pos(ps, lang) < ps.len() {
        key_pos(ps, lang)
    } else {
        key_pos(ps, "en"@)
    }
}

/// Where the first pair keyed `k` stands (see [`key_pos`]).
fn find_key<T>(ps: &Vec<(String, T)>, k: &str) -> (r: usize)
    ensures
        r == key_pos(ps@, k@),
        r <= ps@.len(),
{
    let mut i: usize = 0;
    while i < ps.len() && !str_eq(ps[i].0.as_str(), k)
        invariant
            i <= ps@.len(),
            forall|j: int| 0 <= j < i ==> !(#[trigger] ps@[j].0@ == k@),
        decreases ps@.len() - i,
    {
        i = i + 1;
    }
    proof {
        crate::church::lemma_first_where(ps@.len(), |j: int| ps@[j].0@ == k@, i as int);
    }
    i
}

/// Where the pair for `lang` stands, falling back to the base language.
fn find_text<T>(ps: &Vec<(String, T)>, lang: &str) -> (r: usize)
    ensures
        r == text_pos(ps@, lang@),
        r <= ps@.len(),
{
    let k = find_key(ps, lang);
    if k < ps.len() {
        k
    } else {
        find_key(ps, BASE_LANG)
    }
}

impl Devotional {
    /// Day `day`'s entry (1-based), if the booklet has one: the first so numbered.
    pub fn entry(&self, day: u32) -> (r: Option<&Entry>)
        ensures
            ({
                let k = first_where(self.entries@.len(), |i: int| self.entries@[i].day == day);
                if k < self.entries@.len() {
                    r == Some(&self.entries@[k])
                } else {
                    r is None
                }
            }),
    {
        let mut i: usize = 0;
        while i < self.entries.len() && self.entries[i].day != day
            invariant
                i <= self.entries@.len(),
                forall|j: int| 0 <= j < i ==> !(#[trigger] self.entries@[j].day == day),
            decreases self.entries@.len() - i,
        {
            i = i + 1;
        }
        proof {
            crate::church::lemma_first_where(
                self.entries@.len(),
                |j: int| self.entries@[j].day == day,
                i as int,
            );
        }
        if i < self.entries.len() {
            Some(&self.entries[i])
        } else {
            None
        }
    }

    /// The section `day` falls in, if the booklet is sectioned: the first whose
    /// range holds it.
    pub fn section(&self, day: u32) -> (r: Option<&Section>)
        ensures
            ({
                let k = first_where(
                    self.sections@.len(),
                    |i: int| self.sections@[i].from <= day <= self.sections@[i].to,
                );
                if k < self.sections@.len() {
                    r == Some(&self.sections@[k])
                } else {
                    r is None
                }
            }),
    {
        let mut i: usize = 0;
        while i < self.sections.len() && !(self.sections[i].from <= day && day <= self.sections[i].to)
            invariant
                i <= self.sections@.len(),
                forall|j: int|
                    0 <= j < i ==> !(#[trigger] self.sections@[j].from <= day <= self.sections@[j].to),
            decreases self.sections@.len() - i,
        {
            i = i + 1;
        }
        proof {
            crate::church::lemma_first_where(
                self.sections@.len(),
                |j: int| self.sections@[j].from <= day <= self.sections@[j].to,
                i as int,
            );
        }
        if i < self.sections.len() {
            Some(&self.sections[i])
        } else {
            None
        }
    }

    /// The booklet's words in `lang`, falling back to the base language.
    pub fn text(&self, lang: &str) -> (r: Option<&BookletText>)
        ensures
            ({
                let k = text_pos(self.texts@, lang@);
                if k < self.texts@.len() {
                    r == Some(&self.texts@[k].1)
                } else {
                    r is None
                }
            }),
    {
        let k = find_text(&self.texts, lang);
        if k < self.texts.len() {
            Some(&self.texts[k].1)
        } else {
            None
        }
    }

    /// Whether this booklet has been translated into `lang`: an exact hit for
    /// the booklet and for every entry, not the fallback.
    pub fn has_lang(&self, lang: &str) -> (r: bool)
        ensures
            r == (key_pos(self.texts@, lang@) < self.texts@.len() && forall|i: int|
                0 <= i < self.entries@.len() ==> key_pos(#[trigger] self.entries@[i].texts@, lang@)
                    < self.entries@[i].texts@.len()),
    {
        if find_key(&self.texts, lang) >= self.texts.len() {
            return false;
        }
        let mut i: usize = 0;
        while i < self.entries.len()
            invariant
                i <= self.entries@.len(),
                forall|j: int|
                    0 <= j < i ==> key_pos(#[trigger] self.entries@[j].texts@, lang@)
                        < self.entries@[j].texts@.len(),
            decreases self.entries@.len() - i,
        {
            if find_key(&self.entries[i].texts, lang) >= self.entries[i].texts.len() {
                return false;
            }
            i = i + 1;
        }
        true
    }
}

impl Entry {
    /// This entry's words in `lang`, falling back to the base language, so a
    /// half-translated language reads English rather than a blank page.
    pub fn text(&self, lang: &str) -> (r: Option<&EntryText>)
        ensures
            ({
                let k = text_pos(self.texts@, lang@);
                if k < self.texts@.len() {
                    r == Some(&self.texts@[k].1)
                } else {
                    r is None
                }
            }),
    {
        let k = find_text(&self.texts, lang);
        if k < self.texts.len() {
            Some(&self.texts[k].1)
        } else {
            None
        }
    }
}

// ── a reader's run ───────────────────────────────────────────────────────────

/// One running booklet. `done` holds 1-based day numbers, ascending, each once.
#[derive(Clone, Debug, PartialEq, Eq)]
pub struct Run {
    pub format: String,
    /// The catalogue id this run follows.
    pub id: String,
    pub started: String,
    /// The language the run was started in; absent means unknown.
    pub lang: Option<String>,
    pub done: Vec<u32>,
    /// The reader's local date a day was last banked.
    pub last_done: Option<String>,
    /// Set aside, kept whole.
    pub paused: bool,
}

impl Run {
    /// A fresh run of `id`, started now.
    pub fn new(id: &str, started: &str, lang: Option<&str>) -> (r: Run)
        ensures
            r.format@ == RUN_FORMAT@,
            r.id@ == id@,
            r.started@ == started@,
            match lang {
                Some(l) => r.lang matches Some(x) && x@ == l@,
                None => r.lang is None,
            },
            r.done@.len() == 0,
            r.last_done is None,
            !r.paused,
    {
        Run {
            format: string_from(RUN_FORMAT),
            id: string_from(id),
            started: string_from(started),
            lang: match lang {
                Some(l) => Some(string_from(l)),
                None => None,
            },
            done: Vec::new(),
            last_done: None,
            paused: false,
        }
    }
}

/// Where a run stands today.
#[derive(Clone, Debug, PartialEq, Eq)]
pub struct Today {
    /// The 1-based day now open: the lowest not yet banked.
    pub day: u32,
    pub days_done: u32,
    pub days_total: u32,
    /// Whether this entry is offered today: false for the rest of the day after
    /// a Done.
    pub available: bool,
}

/// How many of the days `1..=n` are in `done`.
pub open spec fn banked(done: Seq<u32>, n: nat) -> nat
    decreases n,
{
    if n == 0 {
        0
    } else if done.contains(n as u32) {
        banked(done, (n - 1) as nat) + 1
    } else {
        banked(done, (n - 1) as nat)
    }
}

/// The lowest day of `1..=n` not in `done`, as its index `day - 1` (or `n`).
pub open spec fn first_open(done: Seq<u32>, n: nat) -> int {
    first_where(n, |i: int| !done.contains((i + 1) as u32))
}

/// Where a run stands on the reader's local `today`, or `None` when every day
/// has been banked.
pub open spec fn next_day_spec(done: Seq<u32>, last_done: Option<Seq<char>>, days_total: u32, today: Seq<char>) -> Option<
    (u32, u32, u32, bool),
> {
    let k = first_open(done, days_total as nat);
    if k < days_total {
        Some(((k + 1) as u32, banked(done, days_total as nat) as u32, days_total, last_done != Some(today)))
    } else {
        None
    }
}

proof fn lemma_banked_le(done: Seq<u32>, n: nat)
    ensures
        banked(done, n) <= n,
    decreases n,
{
    if n > 0 {
        lemma_banked_le(done, (n - 1) as nat);
    }
}

/// Where `run` stands on the reader's local `today` (`YYYY-MM-DD`), or `None`
/// when every day has been banked. `days_total` comes from the catalogue.
pub fn next_day(run: &Run, days_total: u32, today: &str) -> (r: Option<Today>)
    ensures
        match next_day_spec(
            run.done@,
            match run.last_done {
                Some(s) => Some(s@),
                None => None,
            },
            days_total,
            today@,
        ) {
            Some(t) => r matches Some(x) && x.day == t.0 && x.days_done == t.1 && x.days_total == t.2
                && x.available == t.3,
            None => r is None,
        },
{
    let ghost done = run.done@;
    let mut days_done: u32 = 0;
    let mut next: Option<u32> = None;
    let mut day: u64 = 1;
    while day <= days_total as u64
        invariant
            1 <= day <= days_total as nat + 1,
            done == run.done@,
            days_done == banked(done, (day - 1) as nat),
            days_done <= day - 1,
            match next {
                Some(d) => 1 <= d < day && first_open(done, (day - 1) as nat) == d - 1,
                None => first_open(done, (day - 1) as nat) == day - 1,
            },
        decreases days_total as nat + 1 - day,
    {
        let d = day as u32;
        let mut has = false;
        let mut j: usize = 0;
        while j < run.done.len()
            invariant
                j <= run.done@.len(),
                done == run.done@,
                has == exists|x: int| 0 <= x < j && #[trigger] done[x] == d,
            decreases run.done@.len() - j,
        {
            if run.done[j] == d {
                has = true;
            }
            j = j + 1;
        }
        assert(has == done.contains(d));
        proof {
            let p = |i: int| !done.contains((i + 1) as u32);
            let n = (day - 1) as nat;
            assert(first_open(done, day as nat) == first_where(day as nat, p));
            assert(((n as int) + 1) as u32 == d);
        }
        if has {
            days_done = days_done + 1;
        } else if next.is_none() {
            next = Some(d);
        }
        day = day + 1;
    }
    proof {
        lemma_banked_le(done, days_total as nat);
    }
    match next {
        Some(d) => {
            let available = match &run.last_done {
                Some(s) => !str_eq(s.as_str(), today),
                None => true,
            };
            Some(Today { day: d, days_done, days_total, available })
        },
        None => None,
    }
}

/// Whether `s` ascends strictly.
pub open spec fn ascending(s: Seq<u32>) -> bool {
    forall|i: int, j: int| 0 <= i < j < s.len() ==> s[i] < s[j]
}

/// Where `d` goes in the ascending `s`: before the first element not below it.
pub open spec fn insert_at(s: Seq<u32>, d: u32) -> int {
    first_where(s.len(), |i: int| s[i] >= d)
}

/// Bank day `day` on the reader's local `today`. Returns whether it was new:
/// a second Done on a day already banked changes nothing, including the date,
/// so it cannot push tomorrow's entry further away.
pub fn mark_done(run: &mut Run, day: u32, today: &str) -> (r: bool)
    requires
        ascending(old(run).done@),
    ensures
        r == !old(run).done@.contains(day),
        !r ==> *final(run) == *old(run),
        r ==> {
            let k = insert_at(old(run).done@, day);
            &&& final(run).done@ == old(run).done@.insert(k, day)
            &&& final(run).last_done matches Some(s) && s@ == today@
            &&& final(run).format == old(run).format
            &&& final(run).id == old(run).id
            &&& final(run).started == old(run).started
            &&& final(run).lang == old(run).lang
            &&& final(run).paused == old(run).paused
        },
{
    let ghost s = run.done@;
    let mut k: usize = 0;
    while k < run.done.len() && run.done[k] < day
        invariant
            k <= run.done@.len(),
            s == run.done@,
            forall|j: int| 0 <= j < k ==> !(#[trigger] s[j] >= day),
        decreases run.done@.len() - k,
    {
        k = k + 1;
    }
    proof {
        crate::church::lemma_first_where(s.len(), |i: int| s[i] >= day, k as int);
    }
    if k < run.done.len() && run.done[k] == day {
        return false;
    }
    proof {
        assert forall|x: int| 0 <= x < s.len() implies s[x] != day by {
            if x >= k as int && k < s.len() {
                assert(s[x] >= s[k as int]);
            }
        }
    }
    run.done.insert(k, day);
    run.last_done = Some(string_from(today));
    true
}

/// Banking a day keeps the run's days ascending, and the days afterwards are
/// the days before with the banked one added.
pub proof fn lemma_mark_done_keeps_order(s: Seq<u32>, day: u32)
    requires
        ascending(s),
        !s.contains(day),
    ensures
        ascending(s.insert(insert_at(s, day), day)),
        s.insert(insert_at(s, day), day).to_set() == s.to_set().insert(day),
{
    let k = insert_at(s, day);
    let p = |i: int| s[i] >= day;
    crate::church::lemma_first_where_props(s.len(), p);
    let t = s.insert(k, day);
    assert forall|i: int, j: int| 0 <= i < j < t.len() implies t[i] < t[j] by {
        if j < k {
        } else if j == k {
            assert(!p(i));
            assert(t[i] == s[i]);
        } else if i == k {
            assert(s[j - 1] >= day);
            assert(s[j - 1] != day);
        } else if i < k {
            assert(t[j] == s[j - 1]);
        } else {
            assert(t[i] == s[i - 1] && t[j] == s[j - 1]);
        }
    }
    assert forall|x: u32| t.to_set().contains(x) == s.to_set().insert(day).contains(x) by {
        if s.contains(x) {
            let i = choose|i: int| 0 <= i < s.len() && s[i] == x;
            if i < k {
                assert(t[i] == x);
            } else {
                assert(t[i + 1] == x);
            }
        }
        if t.contains(x) {
            let i = choose|i: int| 0 <= i < t.len() && t[i] == x;
            if i < k {
                assert(s[i] == x);
            } else if i > k {
                assert(s[i - 1] == x);
            }
        }
        assert(t[k] == day);
    }
    assert(t.to_set() =~= s.to_set().insert(day));
}


/// Whether a catalogue's format tag is the one this reader understands.
pub fn is_catalogue_format(tag: &str) -> (r: bool)
    ensures
        r == (tag@ == FORMAT@),
{
    str_eq(tag, FORMAT)
}

/// Whether a run file's format tag is the one this reader understands.
pub fn is_run_format(tag: &str) -> (r: bool)
    ensures
        r == (tag@ == RUN_FORMAT@),
{
    str_eq(tag, RUN_FORMAT)
}

/// Whether banked days are strictly ascending, as [`mark_done`] needs them.
pub fn days_ascending(days: &[u32]) -> (r: bool)
    ensures
        r == ascending(days@),
{
    let mut i: usize = 1;
    if days.len() < 2 {
        return true;
    }
    while i < days.len()
        invariant
            1 <= i <= days@.len(),
            forall|a: int, b: int| 0 <= a < b < i ==> days@[a] < days@[b],
        decreases days@.len() - i,
    {
        if days[i - 1] >= days[i] {
            return false;
        }
        i = i + 1;
    }
    true
}

} // verus!
