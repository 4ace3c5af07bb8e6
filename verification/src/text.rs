//! Small text primitives the rest of the library is written over: a string's
//! characters as a vector, building strings from characters, decimal numbers
//! written and read back, and equality of string slices.

use vstd::prelude::*;

verus! {

// ── characters ───────────────────────────────────────────────────────────────

/// The characters of `s`, in order.
pub fn chars_of(s: &str) -> (r: Vec<char>)
    ensures
        r@ == s@,
{
    let mut out: Vec<char> = Vec::new();
    let mut it = s.chars();
    for c in iter: it
        invariant
            out@ == iter.seq().take(iter.index() as int),
    {
        out.push(c);
    }
    out
}

/// Appends one character to `s` (`String::push`).
#[verifier::external_body]
pub fn push_char(s: &mut String, c: char)
    ensures
        final(s)@ == old(s)@.push(c),
{
    s.push(c);
}

/// Appends every character of `cs` to `s`.
pub fn push_chars(s: &mut String, cs: &[char])
    ensures
        final(s)@ == old(s)@ + cs@,
{
    let mut i: usize = 0;
    while i < cs.len()
        invariant
            i <= cs@.len(),
            s@ == old(s)@ + cs@.take(i as int),
        decreases cs@.len() - i,
    {
        push_char(s, cs[i]);
        i = i + 1;
        assert(cs@.take(i as int) == cs@.take(i - 1).push(cs@[i - 1]));
    }
    assert(cs@.take(cs@.len() as int) == cs@);
}

/// Appends the string slice `t` to `s`.
pub fn push_str(s: &mut String, t: &str)
    ensures
        final(s)@ == old(s)@ + t@,
{
    let cs = chars_of(t);
    push_chars(s, cs.as_slice());
}

/// A fresh string holding exactly `cs`.
pub fn string_of(cs: &[char]) -> (r: String)
    ensures
        r@ == cs@,
{
    let mut s = String::new();
    push_chars(&mut s, cs);
    s
}

/// A fresh string holding exactly the characters of `t`.
pub fn string_from(t: &str) -> (r: String)
    ensures
        r@ == t@,
{
    let mut s = String::new();
    push_str(&mut s, t);
    s
}

/// Whether two character runs are equal.
pub fn chars_eq(a: &[char], b: &[char]) -> (r: bool)
    ensures
        r == (a@ == b@),
{
    if a.len() != b.len() {
        return false;
    }
    let mut i: usize = 0;
    while i < a.len()
        invariant
            a@.len() == b@.len(),
            i <= a@.len(),
            forall|j: int| 0 <= j < i ==> a@[j] == b@[j],
        decreases a@.len() - i,
    {
        if a[i] != b[i] {
            return false;
        }
        i = i + 1;
    }
    assert(a@ =~= b@);
    true
}

/// Whether `s` holds no characters.
pub fn is_empty_str(s: &str) -> (r: bool)
    ensures
        r == (s@.len() == 0),
{
    s.unicode_len() == 0
}

/// Whether two string slices hold the same characters.
pub fn str_eq(a: &str, b: &str) -> (r: bool)
    ensures
        r == (a@ == b@),
{
    let x = chars_of(a);
    let y = chars_of(b);
    chars_eq(x.as_slice(), y.as_slice())
}

// ── decimal numbers ──────────────────────────────────────────────────────────

/// The ASCII digit for `d` (0–9).
pub open spec fn digit_char(d: nat) -> char {
    ((d + 48) as u32) as char
}

/// Whether `c` is an ASCII decimal digit.
pub open spec fn is_digit(c: char) -> bool {
    '0' <= c && c <= '9'
}

/// The value of an ASCII digit.
pub open spec fn digit_value(c: char) -> nat {
    (c as u32 - 48) as nat
}

/// `n` written in decimal, with no leading zeros (`"0"` for zero).
pub open spec fn dec(n: nat) -> Seq<char>
    decreases n,
{
    if n < 10 {
        seq![digit_char(n)]
    } else {
        dec(n / 10).push(digit_char(n % 10))
    }
}

/// `s` left-padded with `'0'` to at least `width` characters.
pub open spec fn zero_pad(s: Seq<char>, width: nat) -> Seq<char> {
    if s.len() >= width {
        s
    } else {
        Seq::new((width - s.len()) as nat, |i: int| '0') + s
    }
}

/// Whether every character of `s` is a decimal digit.
pub open spec fn all_digits(s: Seq<char>) -> bool {
    forall|i: int| 0 <= i < s.len() ==> is_digit(#[trigger] s[i])
}

/// The value of a run of decimal digits.
pub open spec fn digits_value(s: Seq<char>) -> nat
    decreases s.len(),
{
    if s.len() == 0 {
        0
    } else {
        digits_value(s.drop_last()) * 10 + digit_value(s.last())
    }
}

/// What `str::parse` makes of an unsigned number: an optional `+`, then one or
/// more digits.
pub open spec fn unsigned_value(s: Seq<char>) -> Option<nat> {
    let body = if s.len() > 0 && s[0] == '+' { s.drop_first() } else { s };
    if body.len() > 0 && all_digits(body) {
        Some(digits_value(body))
    } else {
        None
    }
}

/// `str::parse::<u16>`.
pub open spec fn parse_u16_spec(s: Seq<char>) -> Option<u16> {
    match unsigned_value(s) {
        Some(n) => if n <= u16::MAX { Some(n as u16) } else { None },
        None => None,
    }
}

/// `str::parse::<u32>`.
pub open spec fn parse_u32_spec(s: Seq<char>) -> Option<u32> {
    match unsigned_value(s) {
        Some(n) => if n <= u32::MAX { Some(n as u32) } else { None },
        None => None,
    }
}

/// `str::parse::<usize>`.
pub open spec fn parse_usize_spec(s: Seq<char>) -> Option<usize> {
    match unsigned_value(s) {
        Some(n) => if n <= usize::MAX { Some(n as usize) } else { None },
        None => None,
    }
}

pub proof fn lemma_digit_char(d: nat)
    requires
        d < 10,
    ensures
        is_digit(digit_char(d)),
        digit_value(digit_char(d)) == d,
        digit_char(d) as u32 == d + 48,
{
}

pub proof fn lemma_dec_digits(n: nat)
    ensures
        dec(n).len() > 0,
        all_digits(dec(n)),
        digits_value(dec(n)) == n,
        dec(n)[0] != '+',
    decreases n,
{
    lemma_digit_char(n % 10);
    if n >= 10 {
        lemma_dec_digits(n / 10);
        let d = dec(n);
        assert(d.drop_last() == dec(n / 10));
        assert forall|i: int| 0 <= i < d.len() implies is_digit(#[trigger] d[i]) by {
            if i < d.len() - 1 {
                assert(d[i] == dec(n / 10)[i]);
            }
        }
        assert(d.last() == digit_char(n % 10));
        assert(n == (n / 10) * 10 + n % 10);
        assert(digits_value(d) == digits_value(dec(n / 10)) * 10 + digit_value(digit_char(n % 10)));
    } else {
        lemma_digit_char(n);
        let d = dec(n);
        assert(d.drop_last() =~= Seq::<char>::empty());
        assert(digits_value(d) == digits_value(d.drop_last()) * 10 + digit_value(d.last()));
    }
}

/// Reading back a number written by [`dec`] gives the number.
pub proof fn lemma_unsigned_value_dec(n: nat)
    ensures
        unsigned_value(dec(n)) == Some(n),
{
    lemma_dec_digits(n);
}

proof fn lemma_digits_value_prefix_le(s: Seq<char>, i: int)
    requires
        0 <= i <= s.len(),
        all_digits(s),
    ensures
        digits_value(s.take(i)) <= digits_value(s),
    decreases s.len(),
{
    if i < s.len() {
        let t = s.drop_last();
        assert(all_digits(t)) by {
            assert forall|j: int| 0 <= j < t.len() implies is_digit(#[trigger] t[j]) by {
                assert(t[j] == s[j]);
            }
        }
        lemma_digits_value_prefix_le(t, i);
        assert(t.take(i) == s.take(i));
    } else {
        assert(s.take(i) == s);
    }
}

/// Reads an unsigned decimal number out of `s` the way `str::parse` does,
/// refusing a value above `max`.
pub fn parse_unsigned(s: &[char], max: u64) -> (r: Option<u64>)
    ensures
        match unsigned_value(s@) {
            Some(n) => if n <= max { r == Some(n as u64) } else { r is None },
            None => r is None,
        },
{
    let start: usize = if s.len() > 0 && s[0] == '+' { 1 } else { 0 };
    let ghost body = if s@.len() > 0 && s@[0] == '+' { s@.drop_first() } else { s@ };
    assert(body == s@.subrange(start as int, s@.len() as int));
    if start >= s.len() {
        return None;
    }
    let mut acc: u64 = 0;
    let mut i: usize = start;
    while i < s.len()
        invariant
            start <= i <= s@.len(),
            start < s@.len(),
            body == s@.subrange(start as int, s@.len() as int),
            body == (if s@.len() > 0 && s@[0] == '+' { s@.drop_first() } else { s@ }),
            all_digits(body.take(i - start)),
            acc as nat == digits_value(body.take(i - start)),
            acc <= max,
        decreases s@.len() - i,
    {
        let c = s[i];
        assert(body[i - start] == c);
        if !('0' <= c && c <= '9') {
            assert(!is_digit(body[i - start]));
            return None;
        }
        let ghost prev = body.take(i - start);
        let ghost next = body.take(i - start + 1);
        assert(next.drop_last() == prev);
        assert(next.last() == c);
        let d: u64 = (c as u32 - 48) as u64;
        assert(all_digits(next)) by {
            assert forall|j: int| 0 <= j < next.len() implies is_digit(#[trigger] next[j]) by {
                if j < next.len() - 1 {
                    assert(next[j] == prev[j]);
                }
            }
        }
        let wide: u128 = (acc as u128) * 10 + (d as u128);
        assert(digits_value(next) == wide);
        if wide > max as u128 {
            // Whatever digits follow, the value only grows.
            proof {
                if all_digits(body) {
                    lemma_digits_value_prefix_le(body, i - start + 1);
                }
            }
            return None;
        }
        acc = wide as u64;
        i = i + 1;
    }
    assert(body.take(i - start) == body);
    Some(acc)
}

/// Appends `n` in decimal to `s`.
pub fn push_dec(s: &mut String, n: u64)
    ensures
        final(s)@ == old(s)@ + dec(n as nat),
    decreases n,
{
    if n >= 10 {
        push_dec(s, n / 10);
    }
    let d = (n % 10) as u32 + 48;
    let c = char_from_ascii(d);
    push_char(s, c);
    proof {
        if n >= 10 {
            assert(dec(n as nat) == dec((n / 10) as nat).push(digit_char((n % 10) as nat)));
        }
    }
}

/// The character with ASCII code `code`.
pub fn char_from_ascii(code: u32) -> (c: char)
    requires
        code < 128,
    ensures
        c == (code as char),
        c as u32 == code,
{
    let b = code as u8;
    b as char
}

/// `n` in decimal, as a fresh string.
pub fn dec_string(n: u64) -> (r: String)
    ensures
        r@ == dec(n as nat),
{
    let mut s = String::new();
    push_dec(&mut s, n);
    s
}

} // verus!

verus! {

// ── bytes ────────────────────────────────────────────────────────────────────

/// Where the first `b` is in `s`, or `s.len()` when there is none.
pub open spec fn find_byte(s: Seq<u8>, b: u8) -> int
    decreases s.len(),
{
    if s.len() == 0 {
        0
    } else if s[0] == b {
        0
    } else {
        1 + find_byte(s.drop_first(), b)
    }
}

/// [`find_byte`] is the first position holding `b`, or the end.
pub proof fn lemma_find_byte(s: Seq<u8>, b: u8, k: int)
    requires
        0 <= k <= s.len(),
        forall|j: int| 0 <= j < k ==> s[j] != b,
        k < s.len() ==> s[k] == b,
    ensures
        find_byte(s, b) == k,
    decreases s.len(),
{
    if s.len() > 0 && s[0] != b {
        assert forall|j: int| 0 <= j < k - 1 implies s.drop_first()[j] != b by {
            assert(s.drop_first()[j] == s[j + 1]);
        }
        lemma_find_byte(s.drop_first(), b, k - 1);
    }
}

/// The position of the first `sep` in `b[lo..hi]`, as an index into `b`
/// (`hi` when there is none).
pub fn find_byte_in(b: &[u8], lo: usize, hi: usize, sep: u8) -> (k: usize)
    requires
        lo <= hi <= b@.len(),
    ensures
        lo <= k <= hi,
        k - lo == find_byte(b@.subrange(lo as int, hi as int), sep),
{
    let mut k = lo;
    while k < hi && b[k] != sep
        invariant
            lo <= k <= hi,
            hi <= b@.len(),
            forall|j: int| lo <= j < k ==> b@[j] != sep,
        decreases hi - k,
    {
        k = k + 1;
    }
    proof {
        let sub = b@.subrange(lo as int, hi as int);
        assert forall|j: int| 0 <= j < k - lo implies sub[j] != sep by {
            assert(sub[j] == b@[lo + j]);
        }
        lemma_find_byte(sub, sep, k - lo);
    }
    k
}

/// Whether `c` is an ASCII digit byte.
pub open spec fn is_digit_byte(c: u8) -> bool {
    48 <= c && c <= 57
}

/// Whether every byte of `s` is an ASCII digit.
pub open spec fn all_digit_bytes(s: Seq<u8>) -> bool {
    forall|i: int| 0 <= i < s.len() ==> is_digit_byte(#[trigger] s[i])
}

/// The value of a run of ASCII digit bytes.
pub open spec fn digit_bytes_value(s: Seq<u8>) -> nat
    decreases s.len(),
{
    if s.len() == 0 {
        0
    } else {
        digit_bytes_value(s.drop_last()) * 10 + (s.last() - 48) as nat
    }
}

/// What `str::parse::<i64>` makes of the bytes `s`: an optional sign, then
/// one or more digits, within range.
pub open spec fn parse_i64_spec(s: Seq<u8>) -> Option<i64> {
    let neg = s.len() > 0 && s[0] == 45;
    let body = if s.len() > 0 && (s[0] == 45 || s[0] == 43) { s.drop_first() } else { s };
    if body.len() > 0 && all_digit_bytes(body) {
        let v: int = if neg { -(digit_bytes_value(body) as int) } else { digit_bytes_value(body) as int };
        if i64::MIN <= v <= i64::MAX { Some(v as i64) } else { None }
    } else {
        None
    }
}

proof fn lemma_digit_bytes_prefix_le(s: Seq<u8>, i: int)
    requires
        0 <= i <= s.len(),
        all_digit_bytes(s),
    ensures
        digit_bytes_value(s.take(i)) <= digit_bytes_value(s),
    decreases s.len(),
{
    if i < s.len() {
        let t = s.drop_last();
        assert(all_digit_bytes(t)) by {
            assert forall|j: int| 0 <= j < t.len() implies is_digit_byte(#[trigger] t[j]) by {
                assert(t[j] == s[j]);
            }
        }
        lemma_digit_bytes_prefix_le(t, i);
        assert(t.take(i) == s.take(i));
    } else {
        assert(s.take(i) == s);
    }
}

/// `b[lo..hi]` read as an `i64` the way `str::parse` does.
pub fn parse_i64_in(b: &[u8], lo: usize, hi: usize) -> (r: Option<i64>)
    requires
        lo <= hi <= b@.len(),
    ensures
        r == parse_i64_spec(b@.subrange(lo as int, hi as int)),
{
    let ghost s = b@.subrange(lo as int, hi as int);
    if lo >= hi {
        return None;
    }
    let neg = b[lo] == 45;
    let start: usize = if b[lo] == 45 || b[lo] == 43 { lo + 1 } else { lo };
    let ghost body = if s.len() > 0 && (s[0] == 45 || s[0] == 43) { s.drop_first() } else { s };
    assert(body == b@.subrange(start as int, hi as int));
    if start >= hi {
        return None;
    }
    // The magnitude may reach 2^63 for i64::MIN.
    let limit: u64 = if neg { 9223372036854775808u64 } else { 9223372036854775807u64 };
    let mut acc: u64 = 0;
    let mut i: usize = start;
    while i < hi
        invariant
            lo < start <= i <= hi || (lo == start && start <= i <= hi),
            start < hi,
            hi <= b@.len(),
            body == b@.subrange(start as int, hi as int),
            s == b@.subrange(lo as int, hi as int),
            body == (if s.len() > 0 && (s[0] == 45 || s[0] == 43) { s.drop_first() } else { s }),
            neg == (s.len() > 0 && s[0] == 45),
            limit == (if neg { 9223372036854775808u64 } else { 9223372036854775807u64 }),
            all_digit_bytes(body.take(i - start)),
            acc as nat == digit_bytes_value(body.take(i - start)),
            acc <= limit,
        decreases hi - i,
    {
        let c = b[i];
        assert(body[i - start] == c);
        if !(48 <= c && c <= 57) {
            assert(!is_digit_byte(body[i - start]));
            return None;
        }
        let ghost prev = body.take(i - start);
        let ghost next = body.take(i - start + 1);
        assert(next.drop_last() == prev);
        assert(all_digit_bytes(next)) by {
            assert forall|j: int| 0 <= j < next.len() implies is_digit_byte(#[trigger] next[j]) by {
                if j < next.len() - 1 {
                    assert(next[j] == prev[j]);
                }
            }
        }
        let wide: u128 = (acc as u128) * 10 + ((c - 48) as u128);
        assert(digit_bytes_value(next) == wide);
        if wide > limit as u128 {
            proof {
                if all_digit_bytes(body) {
                    lemma_digit_bytes_prefix_le(body, i - start + 1);
                }
            }
            return None;
        }
        acc = wide as u64;
        i = i + 1;
    }
    assert(body.take(i - start) == body);
    if neg {
        if acc == 9223372036854775808u64 {
            Some(i64::MIN)
        } else {
            Some(-(acc as i64))
        }
    } else {
        Some(acc as i64)
    }
}

} // verus!

verus! {

/// `n` in decimal, as characters.
pub fn dec_chars(n: u64) -> (r: Vec<char>)
    ensures
        r@ == dec(n as nat),
    decreases n,
{
    let mut v: Vec<char> = if n >= 10 { dec_chars(n / 10) } else { Vec::new() };
    let ghost before = v@;
    let c = char_from_ascii((n % 10) as u32 + 48);
    v.push(c);
    proof {
        if n >= 10 {
            assert(dec(n as nat) == dec((n / 10) as nat).push(digit_char((n % 10) as nat)));
        } else {
            assert(before == Seq::<char>::empty());
            assert(v@ =~= seq![digit_char(n as nat)]);
        }
    }
    v
}

/// Appends `n` in decimal, left-padded with zeros to `width` characters.
pub fn push_dec_padded(s: &mut String, n: u64, width: usize)
    ensures
        final(s)@ == old(s)@ + zero_pad(dec(n as nat), width as nat),
{
    let digits = dec_chars(n);
    let ghost start = s@;
    if digits.len() < width {
        let mut k: usize = digits.len();
        while k < width
            invariant
                digits.len() <= k <= width,
                s@ == start + Seq::new((k - digits.len()) as nat, |i: int| '0'),
            decreases width - k,
        {
            push_char(s, '0');
            k = k + 1;
            assert(Seq::new((k - digits.len()) as nat, |i: int| '0') =~= Seq::new(
                (k - 1 - digits.len()) as nat,
                |i: int| '0',
            ).push('0'));
        }
    }
    push_chars(s, digits.as_slice());
    assert(s@ =~= start + zero_pad(dec(n as nat), width as nat));
}

/// `v` in decimal as `format!("{:0w$}")` writes it: the sign first, then the
/// magnitude zero-padded so the whole takes at least `width` characters.
pub open spec fn fmt_signed_padded(v: int, width: nat) -> Seq<char> {
    if v < 0 {
        seq!['-'] + zero_pad(dec((-v) as nat), if width > 0 { (width - 1) as nat } else { 0 })
    } else {
        zero_pad(dec(v as nat), width)
    }
}

/// Appends `v` the way `format!("{:0w$}", v)` writes it.
pub fn push_i64_padded(s: &mut String, v: i64, width: usize)
    ensures
        final(s)@ == old(s)@ + fmt_signed_padded(v as int, width as nat),
{
    if v < 0 {
        push_char(s, '-');
        let mag: u64 = if v == i64::MIN { 9223372036854775808u64 } else { (-v) as u64 };
        let w = if width > 0 { width - 1 } else { 0 };
        let ghost mid = s@;
        push_dec_padded(s, mag, w);
        assert(s@ =~= old(s)@ + fmt_signed_padded(v as int, width as nat));
    } else {
        push_dec_padded(s, v as u64, width);
    }
}

} // verus!

verus! {

// ── searching characters ─────────────────────────────────────────────────────

/// Where the first `c` is in `s`, or `s.len()` when there is none.
pub open spec fn find_char(s: Seq<char>, c: char) -> int
    decreases s.len(),
{
    if s.len() == 0 {
        0
    } else if s[0] == c {
        0
    } else {
        1 + find_char(s.drop_first(), c)
    }
}

/// [`find_char`] is the first position holding `c`, or the end.
pub proof fn lemma_find_char(s: Seq<char>, c: char, k: int)
    requires
        0 <= k <= s.len(),
        forall|j: int| 0 <= j < k ==> s[j] != c,
        k < s.len() ==> s[k] == c,
    ensures
        find_char(s, c) == k,
    decreases s.len(),
{
    if s.len() > 0 && s[0] != c {
        assert forall|j: int| 0 <= j < k - 1 implies s.drop_first()[j] != c by {
            assert(s.drop_first()[j] == s[j + 1]);
        }
        lemma_find_char(s.drop_first(), c, k - 1);
    }
}

/// The characterization of [`find_char`], the other way round.
pub proof fn lemma_find_char_props(s: Seq<char>, c: char)
    ensures
        0 <= find_char(s, c) <= s.len(),
        forall|j: int| 0 <= j < find_char(s, c) ==> s[j] != c,
        find_char(s, c) < s.len() ==> s[find_char(s, c)] == c,
    decreases s.len(),
{
    if s.len() > 0 && s[0] != c {
        lemma_find_char_props(s.drop_first(), c);
        assert forall|j: int| 0 <= j < find_char(s, c) implies s[j] != c by {
            if j > 0 {
                assert(s[j] == s.drop_first()[j - 1]);
            }
        }
    }
}

/// Where the last `c` is in `s`, or `-1` when there is none.
pub open spec fn rfind_char(s: Seq<char>, c: char) -> int
    decreases s.len(),
{
    if s.len() == 0 {
        -1
    } else if s.last() == c {
        s.len() - 1
    } else {
        rfind_char(s.drop_last(), c)
    }
}

/// [`rfind_char`] is the last position holding `c`, or `-1`.
pub proof fn lemma_rfind_char(s: Seq<char>, c: char, k: int)
    requires
        -1 <= k < s.len(),
        forall|j: int| k < j < s.len() ==> s[j] != c,
        k >= 0 ==> s[k] == c,
    ensures
        rfind_char(s, c) == k,
    decreases s.len(),
{
    if s.len() > 0 && s.last() != c {
        lemma_rfind_char(s.drop_last(), c, k);
    }
}

/// The position of the first `c` in `s[lo..hi]`, as an index into `s` (`hi`
/// when there is none).
pub fn find_char_in(s: &[char], lo: usize, hi: usize, c: char) -> (k: usize)
    requires
        lo <= hi <= s@.len(),
    ensures
        lo <= k <= hi,
        k - lo == find_char(s@.subrange(lo as int, hi as int), c),
        forall|j: int| lo <= j < k ==> s@[j] != c,
        k < hi ==> s@[k as int] == c,
{
    let mut k = lo;
    while k < hi && s[k] != c
        invariant
            lo <= k <= hi,
            hi <= s@.len(),
            forall|j: int| lo <= j < k ==> s@[j] != c,
        decreases hi - k,
    {
        k = k + 1;
    }
    proof {
        let sub = s@.subrange(lo as int, hi as int);
        assert forall|j: int| 0 <= j < k - lo implies sub[j] != c by {
            assert(sub[j] == s@[lo + j]);
        }
        lemma_find_char(sub, c, k - lo);
    }
    k
}

/// The position of the last `c` in `s`, or `None`.
pub fn rfind_char_in(s: &[char], c: char) -> (r: Option<usize>)
    ensures
        r matches Some(k) ==> rfind_char(s@, c) == k && k < s@.len() && s@[k as int] == c,
        r is None ==> rfind_char(s@, c) == -1,
{
    let mut k = s.len();
    while k > 0 && s[k - 1] != c
        invariant
            k <= s@.len(),
            forall|j: int| k <= j < s@.len() ==> s@[j] != c,
        decreases k,
    {
        k = k - 1;
    }
    if k == 0 {
        proof {
            lemma_rfind_char(s@, c, -1);
        }
        None
    } else {
        proof {
            lemma_rfind_char(s@, c, k - 1);
        }
        Some(k - 1)
    }
}

/// A fresh string holding `s[lo..hi]`.
pub fn string_of_range(s: &[char], lo: usize, hi: usize) -> (r: String)
    requires
        lo <= hi <= s@.len(),
    ensures
        r@ == s@.subrange(lo as int, hi as int),
{
    let mut out = String::new();
    let mut i = lo;
    while i < hi
        invariant
            lo <= i <= hi,
            hi <= s@.len(),
            out@ == s@.subrange(lo as int, i as int),
        decreases hi - i,
    {
        push_char(&mut out, s[i]);
        i = i + 1;
        assert(s@.subrange(lo as int, i as int) == s@.subrange(lo as int, i - 1).push(s@[i - 1]));
    }
    out
}

/// `s[lo..hi]` read as an unsigned number, refusing a value above `max`.
pub fn parse_unsigned_in(s: &[char], lo: usize, hi: usize, max: u64) -> (r: Option<u64>)
    requires
        lo <= hi <= s@.len(),
    ensures
        match unsigned_value(s@.subrange(lo as int, hi as int)) {
            Some(n) => if n <= max { r == Some(n as u64) } else { r is None },
            None => r is None,
        },
{
    let mut v: Vec<char> = Vec::new();
    let mut i = lo;
    while i < hi
        invariant
            lo <= i <= hi,
            hi <= s@.len(),
            v@ == s@.subrange(lo as int, i as int),
        decreases hi - i,
    {
        v.push(s[i]);
        i = i + 1;
        assert(s@.subrange(lo as int, i as int) == s@.subrange(lo as int, i - 1).push(s@[i - 1]));
    }
    parse_unsigned(v.as_slice(), max)
}

} // verus!

verus! {

// ── splitting ────────────────────────────────────────────────────────────────

/// `str::split` on one character: the pieces between occurrences of `c`
/// (always at least one piece).
pub open spec fn split_chars(s: Seq<char>, c: char) -> Seq<Seq<char>>
    decreases s.len(),
{
    let k = find_char(s, c);
    if k >= s.len() || k < 0 {
        seq![s]
    } else {
        seq![s.take(k)] + split_chars(s.skip(k + 1), c)
    }
}

/// The pieces of `s` between occurrences of `c`.
pub fn split_on(s: &str, c: char) -> (r: Vec<String>)
    ensures
        r@.len() == split_chars(s@, c).len(),
        forall|i: int| 0 <= i < r@.len() ==> (#[trigger] r@[i])@ == split_chars(s@, c)[i],
{
    let cs = chars_of(s);
    let v = cs.as_slice();
    let n = cs.len();
    let mut out: Vec<String> = Vec::new();
    let mut pos: usize = 0;
    assert(v@.skip(0) == s@);
    loop
        invariant_except_break
            pos <= n == v@.len(),
            v@ == s@,
            out@.len() + split_chars(v@.skip(pos as int), c).len() == split_chars(s@, c).len(),
            forall|i: int| 0 <= i < out@.len() ==> (#[trigger] out@[i])@ == split_chars(s@, c)[i],
            forall|i: int|
                0 <= i < split_chars(v@.skip(pos as int), c).len() ==> split_chars(s@, c)[out@.len() + i]
                    == #[trigger] split_chars(v@.skip(pos as int), c)[i],
        ensures
            out@.len() == split_chars(s@, c).len(),
            forall|i: int| 0 <= i < out@.len() ==> (#[trigger] out@[i])@ == split_chars(s@, c)[i],
        decreases n - pos,
    {
        let ghost rest = v@.skip(pos as int);
        assert(rest == v@.subrange(pos as int, n as int));
        let k = find_char_in(v, pos, n, c);
        let piece = string_of_range(v, pos, k);
        assert(rest.take(k - pos) == v@.subrange(pos as int, k as int));
        let ghost old_len: int = out@.len() as int;
        if k >= n {
            assert(split_chars(rest, c) == seq![rest]);
            assert(rest.take(k - pos) == rest);
            assert(split_chars(s@, c)[old_len + 0] == split_chars(rest, c)[0]);
            out.push(piece);
            assert(out@[old_len]@ == split_chars(s@, c)[old_len]);
            break;
        }
        assert(rest.skip(k - pos + 1) == v@.skip(k + 1));
        assert(split_chars(rest, c) == seq![rest.take(k - pos)] + split_chars(v@.skip(k + 1), c));
        assert(split_chars(s@, c)[old_len + 0] == split_chars(rest, c)[0]);
        assert(split_chars(rest, c)[0] == rest.take(k - pos));
        out.push(piece);
        assert(out@[old_len]@ == split_chars(s@, c)[old_len]);
        let ghost old_pos = pos;
        pos = k + 1;
        assert forall|i: int| 0 <= i < split_chars(v@.skip(pos as int), c).len() implies split_chars(
            s@,
            c,
        )[out@.len() + i] == #[trigger] split_chars(v@.skip(pos as int), c)[i] by {
            assert(split_chars(rest, c)[i + 1] == split_chars(v@.skip(pos as int), c)[i]);
            assert(split_chars(s@, c)[old_len + (i + 1)] == split_chars(rest, c)[i + 1]);
        }
    }
    out
}

} // verus!

verus! {

// ── bytes ────────────────────────────────────────────────────────────────────

/// The string whose UTF-8 encoding is `b` (`String::from_utf8`): `None`
/// exactly when `b` is not valid UTF-8.
#[verifier::external_body]
pub fn utf8_string(b: &[u8]) -> (r: Option<String>)
    ensures
        r is Some <==> vstd::utf8::valid_utf8(b@),
        r matches Some(s) ==> s@ == vstd::utf8::decode_utf8(b@),
{
    String::from_utf8(b.to_vec()).ok()
}

/// Appends every byte of `b` to `out`.
pub fn push_bytes(out: &mut Vec<u8>, b: &[u8])
    ensures
        final(out)@ == old(out)@ + b@,
{
    let mut i: usize = 0;
    while i < b.len()
        invariant
            i <= b@.len(),
            out@ == old(out)@ + b@.take(i as int),
        decreases b@.len() - i,
    {
        out.push(b[i]);
        i = i + 1;
        assert(b@.take(i as int) == b@.take(i - 1).push(b@[i - 1]));
    }
    assert(b@.take(b@.len() as int) == b@);
}

} // verus!

verus! {

// ── whitespace and ASCII classes ─────────────────────────────────────────────

/// `char::is_whitespace`: the Unicode `White_Space` property.
pub open spec fn is_white(c: char) -> bool {
    let u = c as u32;
    (9 <= u <= 13) || u == 32 || u == 0x85 || u == 0xa0 || u == 0x1680 || (0x2000 <= u <= 0x200a)
        || u == 0x2028 || u == 0x2029 || u == 0x202f || u == 0x205f || u == 0x3000
}

/// Whether `c` is white space (see [`is_white`]).
pub fn white(c: char) -> (r: bool)
    ensures
        r == is_white(c),
{
    let u = c as u32;
    (9 <= u && u <= 13) || u == 32 || u == 0x85 || u == 0xa0 || u == 0x1680 || (0x2000 <= u && u
        <= 0x200a) || u == 0x2028 || u == 0x2029 || u == 0x202f || u == 0x205f || u == 0x3000
}

/// The number of white characters `s` starts with.
pub open spec fn lead_white(s: Seq<char>) -> nat
    decreases s.len(),
{
    if s.len() > 0 && is_white(s[0]) {
        1 + lead_white(s.drop_first())
    } else {
        0
    }
}

/// The number of white characters `s` ends with.
pub open spec fn trail_white(s: Seq<char>) -> nat
    decreases s.len(),
{
    if s.len() > 0 && is_white(s.last()) {
        1 + trail_white(s.drop_last())
    } else {
        0
    }
}

/// `str::trim`: `s` without leading and trailing white space.
pub open spec fn trim(s: Seq<char>) -> Seq<char> {
    let a = s.skip(lead_white(s) as int);
    a.take(a.len() - trail_white(a))
}

proof fn lemma_lead_white(s: Seq<char>, k: int)
    requires
        0 <= k <= s.len(),
        forall|j: int| 0 <= j < k ==> is_white(s[j]),
        k < s.len() ==> !is_white(s[k]),
    ensures
        lead_white(s) == k,
    decreases k,
{
    if k > 0 {
        let t = s.drop_first();
        assert forall|j: int| 0 <= j < k - 1 implies is_white(t[j]) by {
            assert(t[j] == s[j + 1]);
        }
        lemma_lead_white(t, k - 1);
    }
}

pub proof fn lemma_trail_white(s: Seq<char>, k: int)
    requires
        0 <= k <= s.len(),
        forall|j: int| s.len() - k <= j < s.len() ==> is_white(s[j]),
        k < s.len() ==> !is_white(s[s.len() - 1 - k]),
    ensures
        trail_white(s) == k,
    decreases k,
{
    if k > 0 {
        let t = s.drop_last();
        assert forall|j: int| t.len() - (k - 1) <= j < t.len() implies is_white(t[j]) by {
            assert(t[j] == s[j]);
        }
        if k - 1 < t.len() {
            assert(t[t.len() - 1 - (k - 1)] == s[s.len() - 1 - k]);
        }
        lemma_trail_white(t, k - 1);
    }
}

/// `str::trim_end`: `s` without trailing white space.
pub open spec fn trim_end(s: Seq<char>) -> Seq<char> {
    s.take(s.len() - trail_white(s))
}

/// A fresh string holding `s` without its trailing white space.
pub fn trimmed_end(s: &str) -> (r: String)
    ensures
        r@ == trim_end(s@),
{
    let cs = chars_of(s);
    let mut end = cs.len();
    while end > 0 && white(cs[end - 1])
        invariant
            end <= cs@.len(),
            forall|j: int| end <= j < cs@.len() ==> is_white(cs@[j]),
        decreases end,
    {
        end = end - 1;
    }
    proof {
        lemma_trail_white(cs@, cs@.len() - end);
    }
    string_of_range(cs.as_slice(), 0, end)
}

/// The bounds of the trimmed part of `cs[lo..hi]`.
pub fn trim_range(cs: &[char], lo: usize, hi: usize) -> (r: (usize, usize))
    requires
        lo <= hi <= cs@.len(),
    ensures
        lo <= r.0 <= r.1 <= hi,
        cs@.subrange(r.0 as int, r.1 as int) == trim(cs@.subrange(lo as int, hi as int)),
{
    let ghost s = cs@.subrange(lo as int, hi as int);
    let mut a = lo;
    while a < hi && white(cs[a])
        invariant
            lo <= a <= hi,
            hi <= cs@.len(),
            forall|j: int| lo <= j < a ==> is_white(cs@[j]),
        decreases hi - a,
    {
        a = a + 1;
    }
    let mut b = hi;
    while b > a && white(cs[b - 1])
        invariant
            a <= b <= hi,
            hi <= cs@.len(),
            forall|j: int| b <= j < hi ==> is_white(cs@[j]),
        decreases b - a,
    {
        b = b - 1;
    }
    proof {
        assert forall|j: int| 0 <= j < a - lo implies is_white(s[j]) by {
            assert(s[j] == cs@[lo + j]);
        }
        if a < hi {
            assert(s[a - lo] == cs@[a as int]);
        }
        lemma_lead_white(s, a - lo);
        let t = s.skip(a - lo);
        assert(t == cs@.subrange(a as int, hi as int));
        assert forall|j: int| t.len() - (hi - b) <= j < t.len() implies is_white(t[j]) by {
            assert(t[j] == cs@[a + j]);
        }
        if hi - b < t.len() {
            assert(t[t.len() - 1 - (hi - b)] == cs@[b - 1]);
        }
        lemma_trail_white(t, hi - b);
        assert(t.take(t.len() - (hi - b)) == cs@.subrange(a as int, b as int));
    }
    (a, b)
}

/// `s` trimmed, as a fresh string.
pub fn trimmed(s: &str) -> (r: String)
    ensures
        r@ == trim(s@),
{
    let cs = chars_of(s);
    let (a, b) = trim_range(cs.as_slice(), 0, cs.len());
    assert(cs@.subrange(0, cs@.len() as int) == cs@);
    string_of_range(cs.as_slice(), a, b)
}

/// Whether `s` is empty once trimmed.
pub fn is_blank(s: &str) -> (r: bool)
    ensures
        r == (trim(s@).len() == 0),
{
    let cs = chars_of(s);
    let (a, b) = trim_range(cs.as_slice(), 0, cs.len());
    assert(cs@.subrange(0, cs@.len() as int) == cs@);
    a == b
}

/// `s` cut to its first `max` characters.
pub open spec fn cut(s: Seq<char>, max: nat) -> Seq<char> {
    if s.len() <= max {
        s
    } else {
        s.take(max as int)
    }
}

/// `s` trimmed and cut to `max` characters, as a fresh string.
pub fn trimmed_cut(s: &str, max: usize) -> (r: String)
    ensures
        r@ == cut(trim(s@), max as nat),
{
    let cs = chars_of(s);
    let (a, b) = trim_range(cs.as_slice(), 0, cs.len());
    assert(cs@.subrange(0, cs@.len() as int) == cs@);
    let e = if b - a <= max {
        b
    } else {
        a + max
    };
    assert(cs@.subrange(a as int, e as int) == cut(cs@.subrange(a as int, b as int), max as nat));
    string_of_range(cs.as_slice(), a, e)
}

/// ASCII letter.
pub open spec fn is_alpha(c: char) -> bool {
    ('a' as u32 <= c as u32 && c as u32 <= 'z' as u32) || ('A' as u32 <= c as u32 && c as u32
        <= 'Z' as u32)
}

/// ASCII digit.
pub open spec fn is_ascii_digit(c: char) -> bool {
    '0' as u32 <= c as u32 && c as u32 <= '9' as u32
}

/// ASCII control character.
pub open spec fn is_control(c: char) -> bool {
    (c as u32) < 32 || c as u32 == 127
}

/// `c` lowered, for ASCII letters only.
pub open spec fn ascii_lower(c: char) -> char {
    if 'A' as u32 <= c as u32 && c as u32 <= 'Z' as u32 {
        ((c as u32) + 32) as char
    } else {
        c
    }
}

/// ASCII letter.
pub fn alpha(c: char) -> (r: bool)
    ensures
        r == is_alpha(c),
{
    let u = c as u32;
    (97 <= u && u <= 122) || (65 <= u && u <= 90)
}

/// ASCII digit.
pub fn ascii_digit(c: char) -> (r: bool)
    ensures
        r == is_ascii_digit(c),
{
    let u = c as u32;
    48 <= u && u <= 57
}

/// ASCII control character.
pub fn control(c: char) -> (r: bool)
    ensures
        r == is_control(c),
{
    let u = c as u32;
    u < 32 || u == 127
}

/// `c` lowered, for ASCII letters only.
pub fn lower_ascii(c: char) -> (r: char)
    ensures
        r == ascii_lower(c),
{
    let u = c as u32;
    if 65 <= u && u <= 90 {
        char_from_ascii(u + 32)
    } else {
        c
    }
}

/// `s` with ASCII letters lowered (`str::to_ascii_lowercase`).
pub open spec fn lower_all(s: Seq<char>) -> Seq<char> {
    s.map_values(|c: char| ascii_lower(c))
}

/// `s` with its ASCII letters lowered.
pub fn ascii_lowercase(s: &[char]) -> (r: Vec<char>)
    ensures
        r@ == lower_all(s@),
{
    let mut out: Vec<char> = Vec::new();
    let mut i: usize = 0;
    while i < s.len()
        invariant
            i <= s@.len(),
            out@ == lower_all(s@.take(i as int)),
        decreases s@.len() - i,
    {
        out.push(lower_ascii(s[i]));
        i = i + 1;
        assert(lower_all(s@.take(i as int)) =~= lower_all(s@.take(i - 1)).push(ascii_lower(s@[i - 1])));
    }
    assert(s@.take(s@.len() as int) == s@);
    out
}

} // verus!

verus! {

/// The position of the last `c` in `s[lo..hi]`, as an index into `s`.
pub fn rfind_char_from(s: &[char], lo: usize, hi: usize, c: char) -> (r: Option<usize>)
    requires
        lo <= hi <= s@.len(),
    ensures
        r matches Some(k) ==> lo <= k < hi && s@[k as int] == c && rfind_char(
            s@.subrange(lo as int, hi as int),
            c,
        ) == k - lo,
        r is None ==> rfind_char(s@.subrange(lo as int, hi as int), c) == -1,
{
    let ghost sub = s@.subrange(lo as int, hi as int);
    let mut k = hi;
    while k > lo && s[k - 1] != c
        invariant
            lo <= k <= hi,
            hi <= s@.len(),
            forall|j: int| k <= j < hi ==> s@[j] != c,
        decreases k,
    {
        k = k - 1;
    }
    proof {
        assert forall|j: int| k - lo <= j < sub.len() implies sub[j] != c by {
            assert(sub[j] == s@[lo + j]);
        }
    }
    if k == lo {
        proof {
            lemma_rfind_char(sub, c, -1);
        }
        None
    } else {
        proof {
            assert(sub[k - 1 - lo] == s@[k - 1]);
            lemma_rfind_char(sub, c, k - 1 - lo);
        }
        Some(k - 1)
    }
}

/// A fresh vector holding `s[lo..hi]`.
pub fn slice_to_chars(s: &[char], lo: usize, hi: usize) -> (r: Vec<char>)
    requires
        lo <= hi <= s@.len(),
    ensures
        r@ == s@.subrange(lo as int, hi as int),
{
    let mut out: Vec<char> = Vec::new();
    let mut i = lo;
    while i < hi
        invariant
            lo <= i <= hi,
            hi <= s@.len(),
            out@ == s@.subrange(lo as int, i as int),
        decreases hi - i,
    {
        out.push(s[i]);
        i = i + 1;
        assert(s@.subrange(lo as int, i as int) == s@.subrange(lo as int, i - 1).push(s@[i - 1]));
    }
    out
}

} // verus!

verus! {

proof fn lemma_lead_white_le(s: Seq<char>)
    ensures
        lead_white(s) <= s.len(),
    decreases s.len(),
{
    if s.len() > 0 && is_white(s[0]) {
        lemma_lead_white_le(s.drop_first());
    }
}

pub proof fn lemma_trail_white_le(s: Seq<char>)
    ensures
        trail_white(s) <= s.len(),
    decreases s.len(),
{
    if s.len() > 0 && is_white(s.last()) {
        lemma_trail_white_le(s.drop_last());
    }
}

pub proof fn lemma_lead_white_stop(s: Seq<char>)
    ensures
        lead_white(s) <= s.len(),
        lead_white(s) < s.len() ==> !is_white(s[lead_white(s) as int]),
    decreases s.len(),
{
    if s.len() > 0 && is_white(s[0]) {
        lemma_lead_white_stop(s.drop_first());
        if lead_white(s) < s.len() {
            assert(s[lead_white(s) as int] == s.drop_first()[lead_white(s.drop_first()) as int]);
        }
    }
}

proof fn lemma_trail_white_stop(s: Seq<char>)
    ensures
        trail_white(s) <= s.len(),
        trail_white(s) < s.len() ==> !is_white(s[s.len() - 1 - trail_white(s)]),
    decreases s.len(),
{
    if s.len() > 0 && is_white(s.last()) {
        lemma_trail_white_stop(s.drop_last());
        if trail_white(s) < s.len() {
            assert(s[s.len() - 1 - trail_white(s)] == s.drop_last()[s.drop_last().len() - 1
                - trail_white(s.drop_last())]);
        }
    }
}

proof fn lemma_lead_white_all(s: Seq<char>)
    ensures
        forall|j: int| 0 <= j < lead_white(s) ==> is_white(#[trigger] s[j]),
    decreases s.len(),
{
    lemma_lead_white_le(s);
    if s.len() > 0 && is_white(s[0]) {
        lemma_lead_white_le(s.drop_first());
        lemma_lead_white_all(s.drop_first());
        assert forall|j: int| 0 <= j < lead_white(s) implies is_white(#[trigger] s[j]) by {
            if j > 0 {
                assert(s[j] == s.drop_first()[j - 1]);
            }
        }
    }
}

proof fn lemma_trail_white_all(s: Seq<char>)
    ensures
        forall|j: int| s.len() - trail_white(s) <= j < s.len() ==> is_white(#[trigger] s[j]),
    decreases s.len(),
{
    lemma_trail_white_le(s);
    if s.len() > 0 && is_white(s.last()) {
        lemma_trail_white_le(s.drop_last());
        lemma_trail_white_all(s.drop_last());
        assert forall|j: int| s.len() - trail_white(s) <= j < s.len() implies is_white(
            #[trigger] s[j],
        ) by {
            if j < s.len() - 1 {
                assert(s[j] == s.drop_last()[j]);
            }
        }
    }
}

/// Text with a character that is not white space trims to something, and
/// what it trims to starts with a character that is not white space.
pub proof fn lemma_trim_nonempty(s: Seq<char>, i: int)
    requires
        0 <= i < s.len(),
        !is_white(s[i]),
    ensures
        trim(s).len() > 0,
        !is_white(trim(s)[0]),
{
    lemma_lead_white_all(s);
    lemma_lead_white_stop(s);
    let l = lead_white(s);
    assert(l <= i);
    let a = s.skip(l as int);
    lemma_trail_white_all(a);
    assert(a[i - l] == s[i]);
    assert(trail_white(a) <= a.len() - 1 - (i - l));
    assert(trim(s)[0] == s[l as int]);
}

/// Text with no white space is its own trim.
pub proof fn lemma_trim_plain(s: Seq<char>)
    requires
        forall|i: int| 0 <= i < s.len() ==> !is_white(#[trigger] s[i]),
    ensures
        trim(s) == s,
{
    if s.len() > 0 {
        assert(!is_white(s[0]));
        assert(!is_white(s.last()));
    }
    assert(lead_white(s) == 0);
    assert(s.skip(0) =~= s);
    assert(trail_white(s) == 0);
    assert(s.take(s.len() as int) =~= s);
}

/// Trimming twice is trimming once.
pub proof fn lemma_trim_idempotent(s: Seq<char>)
    ensures
        trim(trim(s)) == trim(s),
{
    let l = lead_white(s);
    lemma_lead_white_stop(s);
    let a = s.skip(l as int);
    lemma_trail_white_stop(a);
    let t = trim(s);
    if t.len() > 0 {
        assert(t[0] == s[l as int]);
        assert(t.last() == a[a.len() - 1 - trail_white(a)]);
        assert(lead_white(t) == 0);
        assert(trail_white(t) == 0);
        assert(t.skip(0) =~= t);
        assert(t.take(t.len() as int) =~= t);
    } else {
        assert(lead_white(t) == 0);
        assert(t.skip(0) =~= t);
        assert(trail_white(t) == 0);
    }
}

proof fn lemma_lead_white_push(s: Seq<char>, x: char)
    requires
        is_white(x),
    ensures
        lead_white(s) < s.len() ==> lead_white(s.push(x)) == lead_white(s),
        lead_white(s) == s.len() ==> lead_white(s.push(x)) == s.len() + 1,
    decreases s.len(),
{
    lemma_lead_white_le(s);
    if s.len() == 0 {
        assert(s.push(x) == seq![x]);
        assert(seq![x].drop_first() =~= Seq::<char>::empty());
        assert(lead_white(Seq::<char>::empty()) == 0);
        assert(lead_white(seq![x]) == 1);
    } else {
        assert(s.push(x)[0] == s[0]);
        assert(s.push(x).drop_first() == s.drop_first().push(x));
        if is_white(s[0]) {
            lemma_lead_white_push(s.drop_first(), x);
        }
    }
}

/// A trailing carriage return is trimmed away with the rest of the white space.
pub proof fn lemma_trim_cr(s: Seq<char>)
    ensures
        trim(s.push('\r')) == trim(s),
{
    let t = s.push('\r');
    lemma_lead_white_push(s, '\r');
    lemma_lead_white_le(s);
    let l = lead_white(s);
    if l < s.len() {
        let a = s.skip(l as int);
        assert(t.skip(l as int) == a.push('\r'));
        assert(a.push('\r').drop_last() == a);
        lemma_trail_white_le(a);
        assert(a.push('\r').take(a.len() - trail_white(a)) == a.take(a.len() - trail_white(a)));
    } else {
        assert(t.skip(l + 1int) =~= Seq::<char>::empty());
        assert(s.skip(l as int) =~= Seq::<char>::empty());
    }
}

} // verus!
