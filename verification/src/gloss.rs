//! A short English gloss distilled from a Strong's definition or renderings
//! line: the asides in brackets dropped, the first clause that holds a
//! letter taken, capped, and its edge punctuation trimmed. A fallback for
//! codes the corpus gives no usual rendering.

use vstd::prelude::*;

use crate::memory::{alphanumeric, is_alnum};
use crate::text::{chars_of, string_of_range, trim, trim_range};

verus! {

/// An opening bracket.
pub open spec fn opener(c: char) -> bool {
    c == '(' || c == '[' || c == '{'
}

/// A closing bracket.
pub open spec fn closer(c: char) -> bool {
    c == ')' || c == ']' || c == '}'
}

/// The text kept so far and the bracket depth after reading `s`: brackets
/// nest, a stray closer does not go below zero, and only what stands outside
/// every bracket is kept.
pub open spec fn strip_state(s: Seq<char>) -> (Seq<char>, nat)
    decreases s.len(),
{
    if s.len() == 0 {
        (Seq::empty(), 0)
    } else {
        let (out, d) = strip_state(s.drop_last());
        let c = s.last();
        if opener(c) {
            (out, d + 1)
        } else if closer(c) {
            (out, if d > 0 { (d - 1) as nat } else { 0 })
        } else if d == 0 {
            (out.push(c), 0)
        } else {
            (out, d)
        }
    }
}

/// A clause separator.
pub open spec fn clause_sep(c: char) -> bool {
    c == ',' || c == ';'
}

/// Where the clause starting at `a` ends: the next separator, or the end.
pub open spec fn clause_end(s: Seq<char>, a: int) -> int
    decreases s.len() - a,
{
    if a < 0 || a >= s.len() {
        s.len() as int
    } else if clause_sep(s[a]) {
        a
    } else {
        clause_end(s, a + 1)
    }
}

pub proof fn lemma_clause_end(s: Seq<char>, a: int)
    requires
        0 <= a <= s.len(),
    ensures
        a <= clause_end(s, a) <= s.len(),
        clause_end(s, a) < s.len() ==> clause_sep(s[clause_end(s, a)]),
    decreases s.len() - a,
{
    if a < s.len() && !clause_sep(s[a]) {
        lemma_clause_end(s, a + 1);
    }
}

/// `char::is_alphabetic`: the Unicode `Alphabetic` property.
pub uninterp spec fn is_alpha(c: char) -> bool;

/// Whether `c` is alphabetic: calls `char::is_alphabetic`, whose result
/// depends on `c` alone (the Unicode tables are not restated here).
#[verifier::external_body]
fn alphabetic(c: char) -> (r: bool)
    ensures
        r == is_alpha(c),
{
    c.is_alphabetic()
}

/// Whether any character of `s` is alphabetic.
pub open spec fn has_alpha(s: Seq<char>) -> bool {
    exists|i: int| 0 <= i < s.len() && is_alpha(#[trigger] s[i])
}

/// The first clause from `a` on, trimmed, that holds a letter.
pub open spec fn first_alpha_clause(s: Seq<char>, a: int) -> Option<Seq<char>>
    decreases s.len() - a,
{
    if a < 0 || a > s.len() {
        None
    } else {
        let b = clause_end(s, a);
        let piece = trim(s.subrange(a, b));
        if has_alpha(piece) {
            Some(piece)
        } else if b < s.len() {
            proof {
                lemma_clause_end(s, a);
            }
            first_alpha_clause(s, b + 1)
        } else {
            None
        }
    }
}

/// How many characters lead `s` that are not alphanumeric.
pub open spec fn lead_non(s: Seq<char>) -> nat
    decreases s.len(),
{
    if s.len() > 0 && !is_alnum(s[0]) {
        1 + lead_non(s.drop_first())
    } else {
        0
    }
}

/// How many characters end `s` that are not alphanumeric.
pub open spec fn trail_non(s: Seq<char>) -> nat
    decreases s.len(),
{
    if s.len() > 0 && !is_alnum(s.last()) {
        1 + trail_non(s.drop_last())
    } else {
        0
    }
}

/// `s` without the characters at either end that are not alphanumeric.
pub open spec fn edge_trim(s: Seq<char>) -> Seq<char> {
    let a = s.skip(lead_non(s) as int);
    a.take(a.len() - trail_non(a))
}

/// What [`distil_gloss`] makes of a definition.
pub open spec fn gloss_spec(raw: Seq<char>) -> Option<Seq<char>> {
    match first_alpha_clause(strip_state(raw).0, 0) {
        Some(p) => {
            let g = edge_trim(p.take(if p.len() > 30 { 30 } else { p.len() as int }));
            if g.len() > 0 {
                Some(g)
            } else {
                None
            }
        },
        None => None,
    }
}

proof fn lemma_lead_non(s: Seq<char>, k: int)
    requires
        0 <= k <= s.len(),
        forall|j: int| 0 <= j < k ==> !is_alnum(s[j]),
        k < s.len() ==> is_alnum(s[k]),
    ensures
        lead_non(s) == k,
    decreases k,
{
    if k > 0 {
        let t = s.drop_first();
        assert forall|j: int| 0 <= j < k - 1 implies !is_alnum(t[j]) by {
            assert(t[j] == s[j + 1]);
        }
        lemma_lead_non(t, k - 1);
    }
}

proof fn lemma_trail_non(s: Seq<char>, k: int)
    requires
        0 <= k <= s.len(),
        forall|j: int| s.len() - k <= j < s.len() ==> !is_alnum(s[j]),
        k < s.len() ==> is_alnum(s[s.len() - 1 - k]),
    ensures
        trail_non(s) == k,
    decreases k,
{
    if k > 0 {
        let t = s.drop_last();
        assert forall|j: int| t.len() - (k - 1) <= j < t.len() implies !is_alnum(t[j]) by {
            assert(t[j] == s[j]);
        }
        if k - 1 < t.len() {
            assert(t[t.len() - 1 - (k - 1)] == s[s.len() - 1 - k]);
        }
        lemma_trail_non(t, k - 1);
    }
}

/// The bounds of `cs[lo..hi]` with its non-alphanumeric edges trimmed.
fn edge_range(cs: &[char], lo: usize, hi: usize) -> (r: (usize, usize))
    requires
        lo <= hi <= cs@.len(),
    ensures
        lo <= r.0 <= r.1 <= hi,
        cs@.subrange(r.0 as int, r.1 as int) == edge_trim(cs@.subrange(lo as int, hi as int)),
{
    let ghost s = cs@.subrange(lo as int, hi as int);
    let mut a = lo;
    while a < hi && !alphanumeric(cs[a])
        invariant
            lo <= a <= hi,
            hi <= cs@.len(),
            forall|j: int| lo <= j < a ==> !is_alnum(cs@[j]),
        decreases hi - a,
    {
        a = a + 1;
    }
    let mut b = hi;
    while b > a && !alphanumeric(cs[b - 1])
        invariant
            a <= b <= hi,
            hi <= cs@.len(),
            forall|j: int| b <= j < hi ==> !is_alnum(cs@[j]),
        decreases b - a,
    {
        b = b - 1;
    }
    proof {
        assert forall|j: int| 0 <= j < a - lo implies !is_alnum(s[j]) by {
            assert(s[j] == cs@[lo + j]);
        }
        if a < hi {
            assert(s[a - lo] == cs@[a as int]);
        }
        lemma_lead_non(s, a - lo);
        let t = s.skip(a - lo);
        assert(t == cs@.subrange(a as int, hi as int));
        assert forall|j: int| t.len() - (hi - b) <= j < t.len() implies !is_alnum(t[j]) by {
            assert(t[j] == cs@[a + j]);
        }
        if hi - b < t.len() {
            assert(t[t.len() - 1 - (hi - b)] == cs@[b - 1]);
        }
        lemma_trail_non(t, hi - b);
        assert(t.take(t.len() - (hi - b)) == cs@.subrange(a as int, b as int));
    }
    (a, b)
}

/// Whether `cs[lo..hi]` holds a letter.
fn any_alpha(cs: &[char], lo: usize, hi: usize) -> (r: bool)
    requires
        lo <= hi <= cs@.len(),
    ensures
        r == has_alpha(cs@.subrange(lo as int, hi as int)),
{
    let ghost s = cs@.subrange(lo as int, hi as int);
    let mut i = lo;
    while i < hi
        invariant
            lo <= i <= hi,
            hi <= cs@.len(),
            s == cs@.subrange(lo as int, hi as int),
            forall|j: int| lo <= j < i ==> !is_alpha(cs@[j]),
        decreases hi - i,
    {
        if alphabetic(cs[i]) {
            assert(s[i - lo] == cs@[i as int]);
            return true;
        }
        i = i + 1;
    }
    assert forall|j: int| 0 <= j < s.len() implies !is_alpha(#[trigger] s[j]) by {
        assert(s[j] == cs@[lo + j]);
    }
    false
}

/// Distil the first clean English fragment from a Strong's definition or
/// renderings line: drop bracketed asides, take the first comma- or
/// semicolon-delimited clause that holds a letter, cap it at thirty
/// characters, and trim the punctuation left at its edges. `None` when
/// nothing is left.
pub fn distil_gloss(raw: &str) -> (r: Option<String>)
    ensures
        match gloss_spec(raw@) {
            Some(g) => r matches Some(x) && x@ == g,
            None => r is None,
        },
{
    let cs = chars_of(raw);
    let mut cleaned: Vec<char> = Vec::new();
    let mut depth: usize = 0;
    let mut i: usize = 0;
    assert(cs@.take(0) =~= Seq::<char>::empty());
    while i < cs.len()
        invariant
            i <= cs@.len(),
            cs@ == raw@,
            depth <= i,
            (cleaned@, depth as nat) == strip_state(cs@.take(i as int)),
        decreases cs@.len() - i,
    {
        let c = cs[i];
        assert(cs@.take(i + 1).drop_last() =~= cs@.take(i as int));
        assert(cs@.take(i + 1).last() == c);
        if c == '(' || c == '[' || c == '{' {
            depth = depth + 1;
        } else if c == ')' || c == ']' || c == '}' {
            if depth > 0 {
                depth = depth - 1;
            }
        } else if depth == 0 {
            cleaned.push(c);
        }
        i = i + 1;
    }
    assert(cs@.take(cs@.len() as int) =~= cs@);
    let ghost s = cleaned@;
    let n = cleaned.len();
    let mut a: usize = 0;
    loop
        invariant
            a <= n,
            n == s.len(),
            s == cleaned@,
            s == strip_state(raw@).0,
            first_alpha_clause(s, 0) == first_alpha_clause(s, a as int),
        decreases n - a,
    {
        let mut b = a;
        while b < n && cleaned[b] != ',' && cleaned[b] != ';'
            invariant
                a <= b <= n,
                n == s.len(),
                s == cleaned@,
                clause_end(s, a as int) == clause_end(s, b as int),
            decreases n - b,
        {
            b = b + 1;
        }
        assert(clause_end(s, b as int) == b as int);
        let (ta, tb) = trim_range(cleaned.as_slice(), a, b);
        if any_alpha(cleaned.as_slice(), ta, tb) {
            let ghost piece = cleaned@.subrange(ta as int, tb as int);
            assert(first_alpha_clause(s, a as int) == Some(piece));
            let cap = if tb - ta > 30 { ta + 30 } else { tb };
            assert(piece.take(if piece.len() > 30 { 30 } else { piece.len() as int }) =~= cleaned@.subrange(
                ta as int,
                cap as int,
            ));
            let (ga, gb) = edge_range(cleaned.as_slice(), ta, cap);
            if ga == gb {
                return None;
            }
            return Some(string_of_range(cleaned.as_slice(), ga, gb));
        }
        if b >= n {
            return None;
        }
        a = b + 1;
    }
}

} // verus!
