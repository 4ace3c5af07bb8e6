//! Verse addresses. A [`VRef`] names one verse by OSIS book id, chapter and
//! verse; its frozen storage form, the refKey, is `"Book C:V"` (`"Gen 1:7"`),
//! the same in every language.

use vstd::prelude::*;

use crate::text::{
    chars_of, dec, parse_unsigned_in, push_char, push_dec, push_str, rfind_char, rfind_char_in,
    find_char, find_char_in, string_of_range, unsigned_value, lemma_unsigned_value_dec,
    lemma_find_char_props, lemma_rfind_char, lemma_dec_digits, all_digits,
};

verus! {

/// One verse: OSIS book id, chapter, verse.
#[derive(Debug, Clone, Hash)]
pub struct VRef {
    pub book: String,
    pub chapter: u16,
    pub verse: u16,
}

impl View for VRef {
    type V = (Seq<char>, u16, u16);

    open spec fn view(&self) -> (Seq<char>, u16, u16) {
        (self.book@, self.chapter, self.verse)
    }
}

impl PartialEq for VRef {
    fn eq(&self, other: &Self) -> (r: bool) {
        self.book == other.book && self.chapter == other.chapter && self.verse == other.verse
    }
}

impl vstd::std_specs::cmp::PartialEqSpecImpl for VRef {
    open spec fn obeys_eq_spec() -> bool {
        true
    }

    open spec fn eq_spec(&self, other: &VRef) -> bool {
        self@ == other@
    }
}

impl Eq for VRef {}

/// The refKey of a verse: `"Book C:V"`.
pub open spec fn ref_key_spec(book: Seq<char>, chapter: u16, verse: u16) -> Seq<char> {
    book + seq![' '] + dec(chapter as nat) + seq![':'] + dec(verse as nat)
}

/// What [`VRef::parse_ref_key`] reads out of `s`: everything before the last
/// space is the book (it may not be empty), and after it comes `C:V`, both
/// numbers in `u16` range.
pub open spec fn parse_ref_key_spec(s: Seq<char>) -> Option<(Seq<char>, u16, u16)> {
    let sp = rfind_char(s, ' ');
    let book = s.take(sp);
    let cv = s.skip(sp + 1);
    let colon = find_char(cv, ':');
    if sp >= 1 && colon < cv.len() {
        match (unsigned_value(cv.take(colon)), unsigned_value(cv.skip(colon + 1))) {
            (Some(c), Some(v)) => if c <= u16::MAX && v <= u16::MAX {
                Some((book, c as u16, v as u16))
            } else {
                None
            },
            _ => None,
        }
    } else {
        None
    }
}

impl VRef {
    /// The verse `book chapter:verse`.
    pub fn new(book: &str, chapter: u16, verse: u16) -> (r: VRef)
        ensures
            r@ == (book@, chapter, verse),
    {
        VRef { book: crate::text::string_from(book), chapter, verse }
    }

    /// The frozen storage key, `"Gen 1:7"`.
    pub fn ref_key(&self) -> (r: String)
        ensures
            r@ == ref_key_spec(self.book@, self.chapter, self.verse),
    {
        let mut s = String::new();
        push_str(&mut s, self.book.as_str());
        push_char(&mut s, ' ');
        push_dec(&mut s, self.chapter as u64);
        push_char(&mut s, ':');
        push_dec(&mut s, self.verse as u64);
        assert(s@ =~= ref_key_spec(self.book@, self.chapter, self.verse));
        s
    }

    /// Read a refKey back (`"John 3:16"`); `None` when it is not one.
    pub fn parse_ref_key(s: &str) -> (r: Option<VRef>)
        ensures
            match parse_ref_key_spec(s@) {
                Some((b, c, v)) => r matches Some(x) && x@ == (b, c, v),
                None => r is None,
            },
    {
        let cs = chars_of(s);
        let sp = match rfind_char_in(cs.as_slice(), ' ') {
            Some(k) => k,
            None => return None,
        };
        if sp < 1 {
            return None;
        }
        let n = cs.len();
        let colon = find_char_in(cs.as_slice(), sp + 1, n, ':');
        let ghost cv = cs@.skip(sp + 1);
        assert(cv == cs@.subrange(sp + 1, n as int));
        if colon >= n {
            return None;
        }
        assert(cv.take(colon - sp - 1) == cs@.subrange(sp + 1, colon as int));
        assert(cv.skip(colon - sp) == cs@.subrange(colon + 1, n as int));
        let c = match parse_unsigned_in(cs.as_slice(), sp + 1, colon, 65535) {
            Some(c) => c,
            None => return None,
        };
        let v = match parse_unsigned_in(cs.as_slice(), colon + 1, n, 65535) {
            Some(v) => v,
            None => return None,
        };
        let book = string_of_range(cs.as_slice(), 0, sp);
        assert(cs@.subrange(0, sp as int) == cs@.take(sp as int));
        Some(VRef { book, chapter: c as u16, verse: v as u16 })
    }
}

/// A refKey reads back as the verse it was written from, for any book id
/// that is not empty and has no space in it.
pub proof fn lemma_ref_key_round_trip(book: Seq<char>, chapter: u16, verse: u16)
    requires
        book.len() > 0,
        forall|i: int| 0 <= i < book.len() ==> book[i] != ' ',
    ensures
        parse_ref_key_spec(ref_key_spec(book, chapter, verse)) == Some((book, chapter, verse)),
{
    let s = ref_key_spec(book, chapter, verse);
    let dc = dec(chapter as nat);
    let dv = dec(verse as nat);
    lemma_dec_digits(chapter as nat);
    lemma_dec_digits(verse as nat);
    let sp = book.len() as int;
    assert forall|j: int| sp < j < s.len() implies s[j] != ' ' by {
        if j < sp + 1 + dc.len() {
            assert(s[j] == dc[j - sp - 1]);
        } else if j > sp + 1 + dc.len() {
            assert(s[j] == dv[j - sp - 2 - dc.len()]);
        }
    }
    lemma_rfind_char(s, ' ', sp);
    let cv = s.skip(sp + 1);
    assert(cv =~= dc + seq![':'] + dv);
    assert forall|j: int| 0 <= j < dc.len() implies cv[j] != ':' by {
        assert(cv[j] == dc[j]);
    }
    crate::text::lemma_find_char(cv, ':', dc.len() as int);
    assert(s.take(sp) =~= book);
    assert(cv.take(dc.len() as int) =~= dc);
    assert(cv.skip(dc.len() as int + 1) =~= dv);
    lemma_unsigned_value_dec(chapter as nat);
    lemma_unsigned_value_dec(verse as nat);
}

} // verus!
