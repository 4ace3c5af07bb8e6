//! The home church a shared link carries: the clamps, the link, and the checks.
//!
//! One QR hands over both the Bible and the people who sent it: whoever shares
//! sets their church in Settings, the link they share carries it, and whoever
//! opens that link has it saved locally and sees it in the welcome.
//!
//! Carried as readable query parameters rather than an encoded blob, so someone
//! deciding whether to open a link can see what is in it. The encoding is the
//! web's form encoding (`URLSearchParams`), which is what round-trips a literal
//! `+`.

use vstd::prelude::*;
use vstd::string::StringSliceAdditionalSpecFns;
use vstd::utf8::{decode_utf8, encode_utf8, valid_utf8};

use crate::config::Church;
use crate::text::{
    alpha, ascii_digit, ascii_lowercase, char_from_ascii, chars_of, control, cut, dec, find_char,
    find_char_in, is_alpha, is_ascii_digit, is_blank, is_control, lower_all, push_char, push_chars,
    push_str, rfind_char, rfind_char_in, split_chars, split_on, string_of, string_of_range, trim,
    trimmed, trimmed_cut, unsigned_value,
};

verus! {

/// The hosted PWA: what every share hands over.
pub const PWA_URL: &'static str = "https://plumblinebible.org/";

/// The cap on a church's name, in characters. These end up in a URL, in a QR,
/// and on a welcome screen, and the length that still scans is finite.
pub const NAME_MAX: usize = 80;

/// The cap on a church's site address, in characters.
pub const URL_MAX: usize = 200;

/// The longest a thread name or devotional id may be in a link.
pub const TARGET_MAX: usize = 120;

/// What a shared link says beyond the church itself.
#[derive(Clone, Copy, Debug, Default, PartialEq, Eq)]
pub struct ShareOpts<'a> {
    /// The verse the recipient opens at, as a refKey (`"Ps 23:1"`).
    pub at: Option<&'a str>,
    /// The language the recipient reads in (`?lang=pa`).
    pub lang: Option<&'a str>,
    /// A thread the recipient lands on (`?thread=Romans+Road`), by name.
    pub thread: Option<&'a str>,
    /// A devotional booklet the recipient lands on.
    pub devotional: Option<&'a str>,
}

/// The characters of an optional string.
pub open spec fn opt_view(o: Option<&str>) -> Option<Seq<char>> {
    match o {
        Some(s) => Some(s@),
        None => None,
    }
}

// ── the church ───────────────────────────────────────────────────────────────

/// Whether a church has been set at all: a name is the minimum.
pub open spec fn has_spec(c: (Seq<char>, Option<u16>, Seq<char>)) -> bool {
    trim(c.0).len() > 0
}

/// A church normalised: name and address trimmed and cut to their caps (in
/// characters, so no character is split), a meeting time outside the day
/// dropped.
pub open spec fn clean_spec(c: (Seq<char>, Option<u16>, Seq<char>)) -> (
    Seq<char>,
    Option<u16>,
    Seq<char>,
) {
    (
        cut(trim(c.0), NAME_MAX as nat),
        match c.1 {
            Some(m) => if m < 1440 {
                Some(m)
            } else {
                None
            },
            None => None,
        },
        cut(trim(c.2), URL_MAX as nat),
    )
}

/// Whether a church has been set at all: a name is the minimum.
pub fn has(c: &Church) -> (r: bool)
    ensures
        r == has_spec(c@),
{
    !is_blank(c.name.as_str())
}

/// Normalise whatever came off a query string or a settings field.
pub fn clean(c: &Church) -> (r: Church)
    ensures
        r@ == clean_spec(c@),
{
    let service = match c.service {
        Some(m) => if m < 1440 {
            Some(m)
        } else {
            None
        },
        None => None,
    };
    Church {
        name: trimmed_cut(c.name.as_str(), NAME_MAX),
        service,
        url: trimmed_cut(c.url.as_str(), URL_MAX),
    }
}

// ── first positions ──────────────────────────────────────────────────────────

/// The least `i < n` with `p(i)`, or `n`.
pub open spec fn first_where(n: nat, p: spec_fn(int) -> bool) -> int
    decreases n,
{
    if n == 0 {
        0
    } else {
        let f = first_where((n - 1) as nat, p);
        if f < n - 1 {
            f
        } else if p(n - 1) {
            n - 1
        } else {
            n as int
        }
    }
}

pub proof fn lemma_first_where(n: nat, p: spec_fn(int) -> bool, k: int)
    requires
        0 <= k <= n,
        forall|j: int| 0 <= j < k ==> !#[trigger] p(j),
        k < n ==> p(k),
    ensures
        first_where(n, p) == k,
    decreases n,
{
    if n > 0 {
        if k < n - 1 {
            lemma_first_where((n - 1) as nat, p, k);
        } else {
            lemma_first_where((n - 1) as nat, p, n - 1);
        }
    }
}

/// The characterization of [`first_where`]: in range, `p` fails before it,
/// and holds at it unless it is `n`.
pub proof fn lemma_first_where_props(n: nat, p: spec_fn(int) -> bool)
    ensures
        0 <= first_where(n, p) <= n,
        forall|j: int| 0 <= j < first_where(n, p) ==> !#[trigger] p(j),
        first_where(n, p) < n ==> p(first_where(n, p)),
    decreases n,
{
    if n > 0 {
        lemma_first_where_props((n - 1) as nat, p);
    }
}

// ── safe links ───────────────────────────────────────────────────────────────

/// A character that may stand in a URL scheme after its first letter.
pub open spec fn scheme_char(c: char) -> bool {
    is_alpha(c) || is_ascii_digit(c) || c == '+' || c == '-' || c == '.'
}

/// The scheme of `t` if it names one: `https` for `https://x`, `mailto` for
/// `mailto:a@b`. `None` when there is no scheme to speak of, including for a
/// bare `host:port`.
pub open spec fn scheme_spec(t: Seq<char>) -> Option<Seq<char>> {
    let k = find_char(t, ':');
    let head = t.take(k);
    let rest = t.skip(k + 1);
    if k >= t.len() {
        None
    } else if head.len() == 0 || !is_alpha(head[0]) {
        None
    } else if !(forall|i: int| 0 <= i < head.len() ==> scheme_char(#[trigger] head[i])) {
        None
    } else if rest.len() > 0 && is_ascii_digit(rest[0]) {
        None
    } else {
        Some(head)
    }
}

/// `"://"` starts at `i`.
pub open spec fn css_at(s: Seq<char>, i: int) -> bool {
    0 <= i && i + 3 <= s.len() && s[i] == ':' && s[i + 1] == '/' && s[i + 2] == '/'
}

/// Ends an authority: a path, query or fragment delimiter.
pub open spec fn ends_authority(c: char) -> bool {
    c == '/' || c == '?' || c == '#'
}

/// The host a full URL names: after `://`, up to the first path/query/fragment
/// delimiter, after any userinfo `@`, before any `:port`.
pub open spec fn host_of(f: Seq<char>) -> Option<Seq<char>> {
    let j = first_where(f.len(), |i: int| css_at(f, i));
    if j >= f.len() {
        None
    } else {
        let rest = f.skip(j + 3);
        let auth = rest.take(first_where(rest.len(), |i: int| ends_authority(rest[i])));
        let h0 = auth.skip(rfind_char(auth, '@') + 1);
        Some(h0.take(find_char(h0, ':')))
    }
}

/// The church's own site as a link we are willing to open, or `None`. Only
/// http(s) survives; a missing scheme gets `https://` supplied, a scheme we do
/// not allow is refused. The host must have a dot and no space; control
/// characters are refused.
pub open spec fn safe_url_spec(url: Seq<char>) -> Option<Seq<char>> {
    let t = trim(url);
    if t.len() == 0 || encode_utf8(t).len() > URL_MAX * 4 || (exists|i: int|
        0 <= i < t.len() && is_control(#[trigger] t[i])) {
        None
    } else {
        let full = match scheme_spec(t) {
            Some(sc) => if lower_all(sc) == "http"@ || lower_all(sc) == "https"@ {
                Some(t)
            } else {
                None
            },
            None => Some("https://"@ + t),
        };
        match full {
            None => None,
            Some(f) => match host_of(f) {
                Some(host) => if host.len() == 0 || !host.contains('.') || host.contains(' ') {
                    None
                } else {
                    Some(f)
                },
                None => None,
            },
        }
    }
}

/// Where the scheme of `t` ends (the `:`), when [`scheme_spec`] finds one.
fn scheme_end(t: &[char]) -> (r: Option<usize>)
    ensures
        match scheme_spec(t@) {
            Some(h) => r == Some(find_char(t@, ':') as usize) && h == t@.take(find_char(t@, ':'))
                && 0 <= find_char(t@, ':') < t@.len(),
            None => r is None,
        },
{
    let n = t.len();
    let k = find_char_in(t, 0, n, ':');
    assert(t@.subrange(0, n as int) == t@);
    if k >= n {
        return None;
    }
    let ghost head = t@.take(k as int);
    if k == 0 || !alpha(t[0]) {
        return None;
    }
    let mut i: usize = 0;
    while i < k
        invariant
            i <= k,
            k < t@.len(),
            head == t@.take(k as int),
            k as int == find_char(t@, ':'),
            k > 0,
            is_alpha(t@[0]),
            forall|j: int| 0 <= j < i ==> scheme_char(#[trigger] head[j]),
        decreases k - i,
    {
        let c = t[i];
        assert(head[i as int] == c);
        if !(alpha(c) || ascii_digit(c) || c == '+' || c == '-' || c == '.') {
            assert(!scheme_char(head[i as int]));
            return None;
        }
        i = i + 1;
    }
    if k + 1 < n && ascii_digit(t[k + 1]) {
        assert(t@.skip(k + 1)[0] == t@[k + 1]);
        return None;
    }
    Some(k)
}

/// Whether `s` is `http` or `https`, in any case.
fn is_http_scheme(s: &[char]) -> (r: bool)
    ensures
        r == (lower_all(s@) == "http"@ || lower_all(s@) == "https"@),
{
    let l = ascii_lowercase(s);
    proof {
        reveal_strlit("http");
        reveal_strlit("https");
    }
    let a = crate::text::chars_eq(l.as_slice(), chars_of("http").as_slice());
    let b = crate::text::chars_eq(l.as_slice(), chars_of("https").as_slice());
    a || b
}

/// The host of a full URL (see [`host_of`]).
fn host_range(f: &[char]) -> (r: Option<(usize, usize)>)
    ensures
        match host_of(f@) {
            Some(h) => r matches Some((a, b)) && a <= b <= f@.len() && f@.subrange(
                a as int,
                b as int,
            ) == h,
            None => r is None,
        },
{
    let n = f.len();
    let ghost p = |i: int| css_at(f@, i);
    let mut j: usize = 0;
    while j < n && !(n - j >= 3 && f[j] == ':' && f[j + 1] == '/' && f[j + 2] == '/')
        invariant
            j <= n,
            n == f@.len(),
            forall|i: int| 0 <= i < j ==> !css_at(f@, i),
        decreases n - j,
    {
        j = j + 1;
    }
    proof {
        lemma_first_where(n as nat, |i: int| css_at(f@, i), j as int);
    }
    if j >= n {
        return None;
    }
    let s = j + 3;
    let ghost rest = f@.skip(s as int);
    let mut e = s;
    while e < n && !(f[e] == '/' || f[e] == '?' || f[e] == '#')
        invariant
            s <= e <= n,
            n == f@.len(),
            rest == f@.skip(s as int),
            forall|i: int| 0 <= i < e - s ==> !ends_authority(rest[i]),
        decreases n - e,
    {
        assert(rest[e - s] == f@[e as int]);
        e = e + 1;
    }
    proof {
        if e < n {
            assert(rest[e - s] == f@[e as int]);
        }
        lemma_first_where(rest.len(), |i: int| ends_authority(rest[i]), e - s);
    }
    let ghost auth = rest.take(e - s);
    assert(auth == f@.subrange(s as int, e as int));
    let at = crate::text::rfind_char_from(f, s, e, '@');
    let h = match at {
        Some(k) => k + 1,
        None => s,
    };
    let ghost h0 = auth.skip(rfind_char(auth, '@') + 1);
    assert(h0 == f@.subrange(h as int, e as int));
    let c = find_char_in(f, h, e, ':');
    assert(h0.take(find_char(h0, ':')) == f@.subrange(h as int, c as int));
    Some((h, c))
}

/// The church's own site, if it is one we are willing to open; `None` is the
/// shell's cue to fall back to the title. The string comes back trimmed but
/// otherwise untouched, so the address bar shows what the reader typed.
pub fn safe_url(url: &str) -> (r: Option<String>)
    ensures
        match safe_url_spec(url@) {
            Some(s) => r matches Some(x) && x@ == s,
            None => r is None,
        },
{
    let t = trimmed(url);
    let tc = chars_of(t.as_str());
    let n = tc.len();
    if n == 0 {
        return None;
    }
    let blen = t.as_str().as_bytes().len();
    assert(blen == encode_utf8(t@).len());
    if blen > URL_MAX * 4 {
        return None;
    }
    let mut i: usize = 0;
    while i < n
        invariant
            i <= n,
            n == tc@.len(),
            tc@ == trim(url@),
            n > 0,
            forall|j: int| 0 <= j < i ==> !is_control(#[trigger] tc@[j]),
        decreases n - i,
    {
        if control(tc[i]) {
            assert(is_control(tc@[i as int]));
            return None;
        }
        i = i + 1;
    }
    let ghost fspec = match scheme_spec(tc@) {
        Some(sc) => if lower_all(sc) == "http"@ || lower_all(sc) == "https"@ {
            Some(tc@)
        } else {
            None
        },
        None => Some("https://"@ + tc@),
    };
    assert(!(exists|i: int| 0 <= i < tc@.len() && is_control(#[trigger] tc@[i])));
    assert(safe_url_spec(url@) == match fspec {
        None => None,
        Some(f) => match host_of(f) {
            Some(host) => if host.len() == 0 || !host.contains('.') || host.contains(' ') {
                None
            } else {
                Some(f)
            },
            None => None,
        },
    });
    let full: Vec<char> = match scheme_end(tc.as_slice()) {
        Some(k) => {
            let head = crate::text::slice_to_chars(tc.as_slice(), 0, k);
            assert(head@ == tc@.take(k as int));
            if !is_http_scheme(head.as_slice()) {
                return None;
            }
            tc
        },
        None => {
            let mut f = chars_of("https://");
            let mut j: usize = 0;
            let ghost base = f@;
            while j < n
                invariant
                    j <= n,
                    n == tc@.len(),
                    f@ == base + tc@.take(j as int),
                decreases n - j,
            {
                f.push(tc[j]);
                j = j + 1;
                assert(tc@.take(j as int) == tc@.take(j - 1).push(tc@[j - 1]));
            }
            assert(tc@.take(n as int) == tc@);
            f
        },
    };
    assert(fspec == Some(full@));
    let (a, b) = match host_range(full.as_slice()) {
        Some(x) => x,
        None => return None,
    };
    let ghost host = full@.subrange(a as int, b as int);
    assert(safe_url_spec(url@) == (if host.len() == 0 || !host.contains('.') || host.contains(' ') {
        None
    } else {
        Some(full@)
    }));
    if a == b {
        return None;
    }
    let mut has_dot = false;
    let mut k = a;
    while k < b
        invariant
            a <= k <= b,
            b <= full@.len(),
            host == full@.subrange(a as int, b as int),
            safe_url_spec(url@) == (if host.len() == 0 || !host.contains('.') || host.contains(' ') {
                None
            } else {
                Some(full@)
            }),
            forall|j: int| a <= j < k ==> full@[j] != ' ',
            has_dot == (exists|j: int| a <= j < k && full@[j] == '.'),
        decreases b - k,
    {
        if full[k] == ' ' {
            assert(host[k - a] == ' ');
            return None;
        }
        if full[k] == '.' {
            has_dot = true;
        }
        k = k + 1;
    }
    if !has_dot {
        assert(!host.contains('.')) by {
            if host.contains('.') {
                let j = choose|j: int| 0 <= j < host.len() && host[j] == '.';
                assert(full@[a + j] == '.');
            }
        }
        return None;
    }
    proof {
        let j = choose|j: int| a <= j < b && full@[j] == '.';
        assert(host[j - a] == '.');
        assert(!host.contains(' ')) by {
            if host.contains(' ') {
                let j = choose|j: int| 0 <= j < host.len() && host[j] == ' ';
                assert(full@[a + j] == ' ');
            }
        }
    }
    Some(string_of(full.as_slice()))
}

} // verus!

verus! {

// ── form encoding ────────────────────────────────────────────────────────────

/// Names what `String::from_utf8_lossy` makes of bytes: the decoding, with
/// each invalid sequence replaced by U+FFFD.
pub uninterp spec fn utf8_lossy(b: Seq<u8>) -> Seq<char>;

/// `String::from_utf8_lossy`: the decoding of `b`, invalid sequences replaced.
#[verifier::external_body]
fn lossy_string(b: &[u8]) -> (r: String)
    ensures
        r@ == utf8_lossy(b@),
        valid_utf8(b@) ==> r@ == decode_utf8(b@),
{
    String::from_utf8_lossy(b).into_owned()
}

/// A byte that form encoding leaves as it is: ASCII alphanumerics and `*-._`.
pub open spec fn unreserved(b: u8) -> bool {
    (65 <= b <= 90) || (97 <= b <= 122) || (48 <= b <= 57) || b == 42 || b == 45 || b == 46 || b
        == 95
}

/// The uppercase hex digit for `n < 16`.
pub open spec fn hex_char(n: u8) -> char {
    if n < 10 {
        ((48 + n) as u32) as char
    } else {
        ((55 + n) as u32) as char
    }
}

/// One byte, form-encoded.
pub open spec fn enc_byte(b: u8) -> Seq<char> {
    if unreserved(b) {
        seq![(b as u32) as char]
    } else if b == 32 {
        seq!['+']
    } else {
        seq!['%', hex_char(b / 16), hex_char(b % 16)]
    }
}

/// Bytes, form-encoded one after another.
pub open spec fn enc_bytes(bs: Seq<u8>) -> Seq<char>
    decreases bs.len(),
{
    if bs.len() == 0 {
        Seq::empty()
    } else {
        enc_bytes(bs.drop_last()) + enc_byte(bs.last())
    }
}

/// `application/x-www-form-urlencoded`, byte for byte what `URLSearchParams`
/// emits: alphanumerics and `*-._` survive, a space becomes `+`, everything
/// else becomes uppercase percent escapes of its UTF-8 bytes.
pub open spec fn form_encode_spec(s: Seq<char>) -> Seq<char> {
    enc_bytes(encode_utf8(s))
}

/// The value of a hex digit, either case.
pub open spec fn hex_val(c: u8) -> Option<u8> {
    if 48 <= c <= 57 {
        Some((c - 48) as u8)
    } else if 97 <= c <= 102 {
        Some((c - 87) as u8)
    } else if 65 <= c <= 70 {
        Some((c - 55) as u8)
    } else {
        None
    }
}

/// Form-decoding on bytes: `+` is a space, `%XY` the byte `XY`; an invalid
/// escape stays as typed.
pub open spec fn unescape(b: Seq<u8>) -> Seq<u8>
    decreases b.len(),
{
    if b.len() == 0 {
        Seq::empty()
    } else if b[0] == 43 {
        seq![32u8] + unescape(b.skip(1))
    } else if b[0] == 37 && b.len() >= 3 && hex_val(b[1]) is Some && hex_val(b[2]) is Some {
        seq![(hex_val(b[1]).unwrap() * 16 + hex_val(b[2]).unwrap()) as u8] + unescape(b.skip(3))
    } else {
        seq![b[0]] + unescape(b.skip(1))
    }
}

/// The inverse of form encoding; bytes that are not UTF-8 after unescaping are
/// decoded lossily.
pub open spec fn form_decode_spec(s: Seq<char>) -> Seq<char> {
    let u = unescape(encode_utf8(s));
    if valid_utf8(u) {
        decode_utf8(u)
    } else {
        utf8_lossy(u)
    }
}

fn hex_digit(n: u8) -> (c: char)
    requires
        n < 16,
    ensures
        c == hex_char(n),
{
    if n < 10 {
        char_from_ascii(48 + n as u32)
    } else {
        char_from_ascii(55 + n as u32)
    }
}

/// Appends `s`, form-encoded, to `out`.
pub fn form_encode(s: &str, out: &mut String)
    ensures
        final(out)@ == old(out)@ + form_encode_spec(s@),
{
    let b = s.as_bytes();
    let ghost bs = b@;
    assert(bs == encode_utf8(s@));
    let mut i: usize = 0;
    assert(bs.take(0) =~= Seq::<u8>::empty());
    assert(out@ =~= old(out)@ + enc_bytes(bs.take(0)));
    while i < b.len()
        invariant
            i <= bs.len(),
            bs == b@,
            out@ == old(out)@ + enc_bytes(bs.take(i as int)),
        decreases bs.len() - i,
    {
        let x = b[i];
        assert(bs.take(i + 1).drop_last() == bs.take(i as int));
        assert(bs.take(i + 1).last() == x);
        if (65 <= x && x <= 90) || (97 <= x && x <= 122) || (48 <= x && x <= 57) || x == 42 || x
            == 45 || x == 46 || x == 95 {
            push_char(out, char_from_ascii(x as u32));
        } else if x == 32 {
            push_char(out, '+');
        } else {
            push_char(out, '%');
            push_char(out, hex_digit(x / 16));
            push_char(out, hex_digit(x % 16));
        }
        i = i + 1;
        assert(out@ =~= old(out)@ + enc_bytes(bs.take(i as int)));
    }
    assert(bs.take(bs.len() as int) == bs);
}

fn hex_value(c: u8) -> (r: Option<u8>)
    ensures
        r == hex_val(c),
{
    if 48 <= c && c <= 57 {
        Some(c - 48)
    } else if 97 <= c && c <= 102 {
        Some(c - 87)
    } else if 65 <= c && c <= 70 {
        Some(c - 55)
    } else {
        None
    }
}

/// Form-decode `s`. Invalid escapes are left as typed rather than dropped.
pub fn form_decode(s: &str) -> (r: String)
    ensures
        r@ == form_decode_spec(s@),
{
    let b = s.as_bytes();
    let ghost bs = b@;
    assert(bs == encode_utf8(s@));
    let mut out: Vec<u8> = Vec::new();
    let mut i: usize = 0;
    assert(bs.skip(0) == bs);
    while i < b.len()
        invariant
            i <= bs.len(),
            bs == b@,
            out@ + unescape(bs.skip(i as int)) == unescape(bs),
        decreases bs.len() - i,
    {
        let ghost rest = bs.skip(i as int);
        let x = b[i];
        assert(rest[0] == x);
        if x == 43 {
            assert(rest.skip(1) == bs.skip(i + 1));
            out.push(32u8);
            i = i + 1;
            assert(out@ + unescape(bs.skip(i as int)) =~= unescape(bs));
        } else {
            let mut done = false;
            if x == 37 && b.len() - i >= 3 {
                let hi = hex_value(b[i + 1]);
                let lo = hex_value(b[i + 2]);
                assert(rest[1] == b@[i + 1] && rest[2] == b@[i + 2]);
                if hi.is_some() && lo.is_some() {
                    let v = hi.unwrap() * 16 + lo.unwrap();
                    assert(rest.skip(3) == bs.skip(i + 3));
                    out.push(v);
                    i = i + 3;
                    assert(out@ + unescape(bs.skip(i as int)) =~= unescape(bs));
                    done = true;
                }
            }
            if !done {
                assert(rest.skip(1) == bs.skip(i + 1));
                out.push(x);
                i = i + 1;
                assert(out@ + unescape(bs.skip(i as int)) =~= unescape(bs));
            }
        }
    }
    assert(bs.skip(bs.len() as int) =~= Seq::<u8>::empty());
    assert(out@ =~= unescape(bs));
    lossy_string(out.as_slice())
}

} // verus!

verus! {

// ── query strings ────────────────────────────────────────────────────────────

/// `s` without a leading `?`.
pub open spec fn strip_qmark(s: Seq<char>) -> Seq<char> {
    if s.len() > 0 && s[0] == '?' {
        s.skip(1)
    } else {
        s
    }
}

/// The query part of a search string: after an optional `?`, before any `#`.
pub open spec fn query_of(search: Seq<char>) -> Seq<char> {
    let q = strip_qmark(search);
    q.take(find_char(q, '#'))
}

/// The key of a `k=v` pair (the whole pair when it has no `=`).
pub open spec fn pair_key(p: Seq<char>) -> Seq<char> {
    p.take(find_char(p, '='))
}

/// The value of a `k=v` pair (empty when it has no `=`).
pub open spec fn pair_value(p: Seq<char>) -> Seq<char> {
    if find_char(p, '=') < p.len() {
        p.skip(find_char(p, '=') + 1)
    } else {
        Seq::empty()
    }
}

/// The value of the first pair whose decoded key is `key`, decoded.
pub open spec fn lookup_pairs(ps: Seq<Seq<char>>, key: Seq<char>) -> Option<Seq<char>>
    decreases ps.len(),
{
    if ps.len() == 0 {
        None
    } else if form_decode_spec(pair_key(ps[0])) == key {
        Some(form_decode_spec(pair_value(ps[0])))
    } else {
        lookup_pairs(ps.drop_first(), key)
    }
}

/// `URLSearchParams.get`: the first value for `key`, form-decoded.
pub open spec fn query_get_spec(search: Seq<char>, key: Seq<char>) -> Option<Seq<char>> {
    lookup_pairs(split_chars(query_of(search), '&'), key)
}

/// The first value for `key` in a search string, form-decoded.
fn query_get(search: &str, key: &str) -> (r: Option<String>)
    ensures
        match query_get_spec(search@, key@) {
            Some(v) => r matches Some(x) && x@ == v,
            None => r is None,
        },
{
    let cs = chars_of(search);
    let n = cs.len();
    let start: usize = if n > 0 && cs[0] == '?' {
        1
    } else {
        0
    };
    let h = find_char_in(cs.as_slice(), start, n, '#');
    let ghost q0 = strip_qmark(search@);
    assert(q0 == cs@.subrange(start as int, n as int));
    let q = string_of_range(cs.as_slice(), start, h);
    assert(q@ == query_of(search@));
    let pieces = split_on(q.as_str(), '&');
    let ghost ps = split_chars(q@, '&');
    let mut i: usize = 0;
    assert(ps.skip(0) == ps);
    while i < pieces.len()
        invariant
            i <= pieces@.len(),
            pieces@.len() == ps.len(),
            forall|j: int| 0 <= j < pieces@.len() ==> (#[trigger] pieces@[j])@ == ps[j],
            query_get_spec(search@, key@) == lookup_pairs(ps, key@),
            lookup_pairs(ps, key@) == lookup_pairs(ps.skip(i as int), key@),
        decreases pieces@.len() - i,
    {
        let p = &pieces[i];
        let pc = chars_of(p.as_str());
        let m = pc.len();
        let e = find_char_in(pc.as_slice(), 0, m, '=');
        assert(pc@.subrange(0, m as int) == pc@);
        assert(ps.skip(i as int)[0] == ps[i as int]);
        let k = string_of_range(pc.as_slice(), 0, e);
        assert(pc@ == ps[i as int]);
        assert(k@ == pair_key(ps[i as int]));
        let dk = form_decode(k.as_str());
        if crate::text::str_eq(dk.as_str(), key) {
            let v = if e < m {
                string_of_range(pc.as_slice(), e + 1, m)
            } else {
                String::new()
            };
            assert(v@ == pair_value(ps[i as int]));
            return Some(form_decode(v.as_str()));
        }
        assert(ps.skip(i as int).drop_first() == ps.skip(i + 1));
        i = i + 1;
    }
    None
}

/// The characters of a list of `(key, value)` pairs.
pub open spec fn pairs_view(ps: Seq<(&str, &str)>) -> Seq<(Seq<char>, Seq<char>)> {
    ps.map_values(|p: (&str, &str)| (p.0@, p.1@))
}

/// The keys of a list of pairs.
pub open spec fn keys_of(ps: Seq<(Seq<char>, Seq<char>)>) -> Seq<Seq<char>> {
    ps.map_values(|p: (Seq<char>, Seq<char>)| p.0)
}

/// The non-empty pieces of an existing query whose decoded key is not about to
/// be set.
pub open spec fn kept(pieces: Seq<Seq<char>>, keys: Seq<Seq<char>>) -> Seq<Seq<char>>
    decreases pieces.len(),
{
    if pieces.len() == 0 {
        Seq::empty()
    } else {
        let prev = kept(pieces.drop_last(), keys);
        let p = pieces.last();
        if p.len() > 0 && !keys.contains(form_decode_spec(pair_key(p))) {
            prev.push(p)
        } else {
            prev
        }
    }
}

/// One pair, form-encoded: `k=v`.
pub open spec fn encoded_pair(p: (Seq<char>, Seq<char>)) -> Seq<char> {
    form_encode_spec(p.0) + seq!['='] + form_encode_spec(p.1)
}

/// Items joined with `&`.
pub open spec fn amp_join(items: Seq<Seq<char>>) -> Seq<char>
    decreases items.len(),
{
    if items.len() == 0 {
        Seq::empty()
    } else if items.len() == 1 {
        items[0]
    } else {
        amp_join(items.drop_last()) + seq!['&'] + items.last()
    }
}

/// `?` and the items joined with `&`; nothing when there are none.
pub open spec fn query_suffix(items: Seq<Seq<char>>) -> Seq<char> {
    if items.len() == 0 {
        Seq::empty()
    } else {
        seq!['?'] + amp_join(items)
    }
}

/// `url` with `ps` set in its query (`URLSearchParams.set`, not `append`): the
/// pairs already there under those keys are dropped, the others kept in order,
/// the new ones appended in order; a fragment stays at the end.
pub open spec fn set_query_spec(url: Seq<char>, ps: Seq<(Seq<char>, Seq<char>)>) -> Seq<char> {
    let i = find_char(url, '#');
    let head = url.take(i);
    let frag = url.skip(i);
    let j = find_char(head, '?');
    let path = head.take(j);
    let query = if j < head.len() {
        head.skip(j + 1)
    } else {
        Seq::empty()
    };
    path + query_suffix(
        kept(split_chars(query, '&'), keys_of(ps)) + ps.map_values(
            |p: (Seq<char>, Seq<char>)| encoded_pair(p),
        ),
    ) + frag
}

proof fn lemma_query_suffix_push(items: Seq<Seq<char>>, x: Seq<char>)
    ensures
        query_suffix(items.push(x)) == query_suffix(items) + (if items.len() == 0 {
            seq!['?']
        } else {
            seq!['&']
        }) + x,
{
    if items.len() == 0 {
        assert(items.push(x) == seq![x]);
        assert(query_suffix(items.push(x)) =~= seq!['?'] + x);
    } else {
        assert(items.push(x).drop_last() == items);
        assert(query_suffix(items.push(x)) =~= query_suffix(items) + seq!['&'] + x);
    }
}

/// Append one item to a query being built.
fn push_item(out: &mut String, first: bool, item: &str, Ghost(items): Ghost<Seq<Seq<char>>>)
    requires
        first == (items.len() == 0),
    ensures
        final(out)@ == old(out)@ + (if first {
            seq!['?']
        } else {
            seq!['&']
        }) + item@,
{
    if first {
        push_char(out, '?');
    } else {
        push_char(out, '&');
    }
    push_str(out, item);
}

/// Whether `k` is one of the keys of `ps`.
fn has_key(ps: &[(&str, &str)], k: &str) -> (r: bool)
    ensures
        r == keys_of(pairs_view(ps@)).contains(k@),
{
    let ghost ks = keys_of(pairs_view(ps@));
    let mut i: usize = 0;
    while i < ps.len()
        invariant
            i <= ps@.len(),
            ks == keys_of(pairs_view(ps@)),
            ks.len() == ps@.len(),
            forall|j: int| 0 <= j < i ==> ks[j] != k@,
        decreases ps@.len() - i,
    {
        assert(ks[i as int] == ps@[i as int].0@);
        if crate::text::str_eq(ps[i].0, k) {
            return true;
        }
        i = i + 1;
    }
    false
}

/// Append `pairs` to `url`'s query (see [`set_query_spec`]).
fn set_query(url: &str, pairs: &[(&str, &str)]) -> (r: String)
    ensures
        r@ == set_query_spec(url@, pairs_view(pairs@)),
{
    let ghost pv = pairs_view(pairs@);
    let cs = chars_of(url);
    let n = cs.len();
    let i = find_char_in(cs.as_slice(), 0, n, '#');
    assert(cs@.subrange(0, n as int) == cs@);
    let j = find_char_in(cs.as_slice(), 0, i, '?');
    let path = string_of_range(cs.as_slice(), 0, j);
    let query = if j < i {
        string_of_range(cs.as_slice(), j + 1, i)
    } else {
        String::new()
    };
    let ghost head = url@.take(i as int);
    assert(head == cs@.subrange(0, i as int));
    assert(path@ == head.take(j as int));
    assert(query@ == (if j < head.len() {
        head.skip(j + 1)
    } else {
        Seq::empty()
    }));
    let pieces = split_on(query.as_str(), '&');
    let ghost ps = split_chars(query@, '&');
    let ghost keys = keys_of(pv);
    let mut out = path;
    let ghost base = out@;
    let mut first = true;
    let ghost mut items: Seq<Seq<char>> = Seq::empty();
    let mut k: usize = 0;
    assert(ps.take(0) =~= Seq::<Seq<char>>::empty());
    while k < pieces.len()
        invariant
            k <= pieces@.len(),
            pieces@.len() == ps.len(),
            forall|x: int| 0 <= x < pieces@.len() ==> (#[trigger] pieces@[x])@ == ps[x],
            keys == keys_of(pairs_view(pairs@)),
            items == kept(ps.take(k as int), keys),
            first == (items.len() == 0),
            out@ == base + query_suffix(items),
        decreases pieces@.len() - k,
    {
        let p = &pieces[k];
        assert(p@ == ps[k as int]);
        assert(ps.take(k + 1).drop_last() == ps.take(k as int));
        assert(ps.take(k + 1).last() == ps[k as int]);
        let pc = chars_of(p.as_str());
        let m = pc.len();
        if m > 0 {
            let e = find_char_in(pc.as_slice(), 0, m, '=');
            assert(pc@.subrange(0, m as int) == pc@);
            let key = string_of_range(pc.as_slice(), 0, e);
            let dk = form_decode(key.as_str());
            if !has_key(pairs, dk.as_str()) {
                proof {
                    lemma_query_suffix_push(items, p@);
                }
                push_item(&mut out, first, p.as_str(), Ghost(items));
                proof {
                    items = items.push(p@);
                }
                first = false;
            }
        }
        k = k + 1;
    }
    assert(ps.take(ps.len() as int) == ps);
    let ghost enc = pv.map_values(|p: (Seq<char>, Seq<char>)| encoded_pair(p));
    let ghost kept_items = items;
    let mut t: usize = 0;
    assert(enc.take(0) =~= Seq::<Seq<char>>::empty());
    assert(items =~= kept_items + enc.take(0));
    while t < pairs.len()
        invariant
            t <= pairs@.len(),
            pv == pairs_view(pairs@),
            enc == pv.map_values(|p: (Seq<char>, Seq<char>)| encoded_pair(p)),
            enc.len() == pairs@.len(),
            items == kept_items + enc.take(t as int),
            first == (items.len() == 0),
            out@ == base + query_suffix(items),
        decreases pairs@.len() - t,
    {
        let (pk, pvv) = pairs[t];
        let mut e = String::new();
        form_encode(pk, &mut e);
        push_char(&mut e, '=');
        form_encode(pvv, &mut e);
        assert(e@ == enc[t as int]);
        proof {
            lemma_query_suffix_push(items, e@);
        }
        push_item(&mut out, first, e.as_str(), Ghost(items));
        proof {
            assert(enc.take(t + 1) == enc.take(t as int).push(e@));
            items = items.push(e@);
        }
        first = false;
        t = t + 1;
    }
    assert(enc.take(enc.len() as int) == enc);
    let ghost before_frag = out@;
    let mut x = i;
    while x < n
        invariant
            i <= x <= n,
            n == cs@.len(),
            out@ == before_frag + cs@.subrange(i as int, x as int),
        decreases n - x,
    {
        push_char(&mut out, cs[x]);
        x = x + 1;
        assert(cs@.subrange(i as int, x as int) == cs@.subrange(i as int, x - 1).push(cs@[x - 1]));
    }
    assert(cs@.subrange(i as int, n as int) == url@.skip(i as int));
    out
}

} // verus!

verus! {

// ── the link ─────────────────────────────────────────────────────────────────

/// The pair for an optional destination: present when it trims to something.
pub open spec fn opt_pair(key: Seq<char>, v: Option<Seq<char>>) -> Seq<(Seq<char>, Seq<char>)> {
    match v {
        Some(x) => if trim(x).len() > 0 {
            seq![(key, trim(x))]
        } else {
            Seq::empty()
        },
        None => Seq::empty(),
    }
}

/// The pairs a (clean) church contributes: none when it is unset; otherwise
/// its name, its meeting time in minutes when it has one, its site when it
/// has one.
pub open spec fn church_pairs(c: (Seq<char>, Option<u16>, Seq<char>)) -> Seq<
    (Seq<char>, Seq<char>),
> {
    if has_spec(c) {
        seq![("church"@, c.0)] + (match c.1 {
            Some(m) => seq![("churchService"@, dec(m as nat))],
            None => Seq::empty(),
        }) + (if c.2.len() > 0 {
            seq![("churchUrl"@, c.2)]
        } else {
            Seq::empty()
        })
    } else {
        Seq::empty()
    }
}

/// Everything a share link sets, in order.
pub open spec fn share_pairs(
    c: (Seq<char>, Option<u16>, Seq<char>),
    at: Option<Seq<char>>,
    lang: Option<Seq<char>>,
    thread: Option<Seq<char>>,
    devotional: Option<Seq<char>>,
) -> Seq<(Seq<char>, Seq<char>)> {
    church_pairs(clean_spec(c)) + opt_pair("at"@, at) + opt_pair("lang"@, lang) + opt_pair(
        "thread"@,
        thread,
    ) + opt_pair("devotional"@, devotional)
}

/// `o` trimmed, or empty.
fn opt_trimmed(o: Option<&str>) -> (r: String)
    ensures
        r@ == match o {
            Some(s) => trim(s@),
            None => Seq::empty(),
        },
{
    match o {
        Some(s) => trimmed(s),
        None => String::new(),
    }
}

/// Push the pair `(key, v)` when `v` is not empty.
fn push_opt<'a>(pairs: &mut Vec<(&'a str, &'a str)>, key: &'a str, v: &'a str)
    ensures
        pairs_view(final(pairs)@) == pairs_view(old(pairs)@) + (if v@.len() > 0 {
            seq![(key@, v@)]
        } else {
            Seq::empty()
        }),
{
    if chars_of(v).len() > 0 {
        pairs.push((key, v));
        assert(pairs_view(pairs@) =~= pairs_view(old(pairs)@) + seq![(key@, v@)]);
    } else {
        assert(pairs_view(pairs@) =~= pairs_view(old(pairs)@) + Seq::empty());
    }
}

/// A share link for `base` carrying `church` (plain `base` when unset), and
/// the destinations `opts` names.
pub fn share_url(base: &str, church: &Church, opts: &ShareOpts) -> (r: String)
    ensures
        r@ == set_query_spec(
            base@,
            share_pairs(
                church@,
                opt_view(opts.at),
                opt_view(opts.lang),
                opt_view(opts.thread),
                opt_view(opts.devotional),
            ),
        ),
{
    let c = clean(church);
    let service = match c.service {
        Some(m) => crate::text::dec_string(m as u64),
        None => String::new(),
    };
    let at = opt_trimmed(opts.at);
    let lang = opt_trimmed(opts.lang);
    let thread = opt_trimmed(opts.thread);
    let devotional = opt_trimmed(opts.devotional);
    let mut pairs: Vec<(&str, &str)> = Vec::new();
    assert(pairs_view(pairs@) =~= Seq::empty());
    if has(&c) {
        pairs.push(("church", c.name.as_str()));
        if c.service.is_some() {
            pairs.push(("churchService", service.as_str()));
        }
        if chars_of(c.url.as_str()).len() > 0 {
            pairs.push(("churchUrl", c.url.as_str()));
        }
        assert(pairs_view(pairs@) =~= church_pairs(c@));
    }
    let ghost cp = pairs_view(pairs@);
    assert(cp == church_pairs(clean_spec(church@)));
    push_opt(&mut pairs, "at", at.as_str());
    push_opt(&mut pairs, "lang", lang.as_str());
    push_opt(&mut pairs, "thread", thread.as_str());
    push_opt(&mut pairs, "devotional", devotional.as_str());
    assert(pairs_view(pairs@) =~= share_pairs(
        church@,
        opt_view(opts.at),
        opt_view(opts.lang),
        opt_view(opts.thread),
        opt_view(opts.devotional),
    ));
    set_query(base, pairs.as_slice())
}

/// Add the opening verse to an already-built share link. An empty `ref_key`
/// leaves the link alone.
pub fn with_at(link: &str, ref_key: &str) -> (r: String)
    ensures
        trim(ref_key@).len() == 0 ==> r@ == link@,
        trim(ref_key@).len() > 0 ==> r@ == set_query_spec(link@, seq![("at"@, trim(ref_key@))]),
{
    let at = trimmed(ref_key);
    if crate::text::is_blank(ref_key) {
        return crate::text::string_from(link);
    }
    let pairs: Vec<(&str, &str)> = vec![("at", at.as_str())];
    assert(pairs_view(pairs@) =~= seq![("at"@, trim(ref_key@))]);
    set_query(link, pairs.as_slice())
}

/// A value, or empty.
pub open spec fn or_empty(v: Option<Seq<char>>) -> Seq<char> {
    match v {
        Some(x) => x,
        None => Seq::empty(),
    }
}

/// The church a query string carries: its three parameters, cleaned, when it
/// has a name. A meeting time that is not a number of minutes in `u16` range
/// reads as "never said".
pub open spec fn from_query_spec(search: Seq<char>) -> Option<(Seq<char>, Option<u16>, Seq<char>)> {
    let raw = (
        or_empty(query_get_spec(search, "church"@)),
        match query_get_spec(search, "churchService"@) {
            Some(v) => crate::text::parse_u16_spec(trim(v)),
            None => None,
        },
        or_empty(query_get_spec(search, "churchUrl"@)),
    );
    let c = clean_spec(raw);
    if has_spec(c) {
        Some(c)
    } else {
        None
    }
}

/// The church encoded in a query string, if any. `search` may keep its
/// leading `?`.
pub fn from_query(search: &str) -> (r: Option<Church>)
    ensures
        match from_query_spec(search@) {
            Some(c) => r matches Some(x) && x@ == c,
            None => r is None,
        },
{
    let name = match query_get(search, "church") {
        Some(v) => v,
        None => String::new(),
    };
    let service = match query_get(search, "churchService") {
        Some(v) => {
            let t = trimmed(v.as_str());
            let tc = chars_of(t.as_str());
            match crate::text::parse_unsigned(tc.as_slice(), 65535) {
                Some(n) => Some(n as u16),
                None => None,
            }
        },
        None => None,
    };
    let url = match query_get(search, "churchUrl") {
        Some(v) => v,
        None => String::new(),
    };
    let c = clean(&Church { name, service, url });
    if has(&c) {
        Some(c)
    } else {
        None
    }
}

/// Bytes that are ASCII letters or digits.
pub open spec fn class_byte(b: u8, digits: bool) -> bool {
    if digits {
        48 <= b <= 57
    } else {
        (65 <= b <= 90) || (97 <= b <= 122)
    }
}

/// How many bytes from `i` on are of the class.
pub open spec fn run_len(b: Seq<u8>, i: int, digits: bool) -> nat
    decreases b.len() - i,
{
    if 0 <= i < b.len() && class_byte(b[i], digits) {
        1 + run_len(b, i + 1, digits)
    } else {
        0
    }
}

/// `[1-3]?[A-Za-z]{2,6} \d{1,3}:\d{1,3}`: the shape of a refKey.
pub open spec fn ref_shaped(b: Seq<u8>) -> bool {
    let i0: int = if b.len() > 0 && 49 <= b[0] <= 51 {
        1
    } else {
        0
    };
    let l = run_len(b, i0, false);
    let i1 = i0 + l;
    let ch = run_len(b, i1 + 1, true);
    let i2 = i1 + 1 + ch;
    let vs = run_len(b, i2 + 1, true);
    &&& 2 <= l <= 6
    &&& i1 < b.len() && b[i1] == 32
    &&& 1 <= ch <= 3
    &&& i2 < b.len() && b[i2] == 58
    &&& 1 <= vs <= 3
    &&& i2 + 1 + vs == b.len()
}

proof fn lemma_run_len(b: Seq<u8>, i: int, digits: bool, k: int)
    requires
        0 <= i,
        0 <= k,
        i + k <= b.len(),
        forall|j: int| i <= j < i + k ==> class_byte(#[trigger] b[j], digits),
        i + k < b.len() ==> !class_byte(b[i + k], digits),
    ensures
        run_len(b, i, digits) == k,
    decreases k,
{
    if k > 0 {
        lemma_run_len(b, i + 1, digits, k - 1);
    }
}

fn class_of(x: u8, digits: bool) -> (r: bool)
    ensures
        r == class_byte(x, digits),
{
    if digits {
        48 <= x && x <= 57
    } else {
        (65 <= x && x <= 90) || (97 <= x && x <= 122)
    }
}

/// How many bytes from `i` on are of the class.
fn count_run(b: &[u8], i: usize, digits: bool) -> (n: usize)
    requires
        i <= b@.len(),
    ensures
        n == run_len(b@, i as int, digits),
        i + n <= b@.len(),
{
    let mut k = i;
    while k < b.len() && class_of(b[k], digits)
        invariant
            i <= k <= b@.len(),
            forall|j: int| i <= j < k ==> class_byte(#[trigger] b@[j], digits),
        decreases b@.len() - k,
    {
        k = k + 1;
    }
    proof {
        lemma_run_len(b@, i as int, digits, k - i);
    }
    k - i
}

/// Whether `s` has the shape of a refKey (see [`ref_shaped`]).
fn is_ref_shaped(s: &str) -> (r: bool)
    ensures
        r == ref_shaped(encode_utf8(s@)),
{
    let b = s.as_bytes();
    let n = b.len();
    let i0: usize = if n > 0 && 49 <= b[0] && b[0] <= 51 {
        1
    } else {
        0
    };
    let l = count_run(b, i0, false);
    if !(2 <= l && l <= 6) {
        return false;
    }
    let i1 = i0 + l;
    if !(i1 < n && b[i1] == 32) {
        return false;
    }
    let ch = count_run(b, i1 + 1, true);
    if !(1 <= ch && ch <= 3) {
        return false;
    }
    let i2 = i1 + 1 + ch;
    if !(i2 < n && b[i2] == 58) {
        return false;
    }
    let vs = count_run(b, i2 + 1, true);
    1 <= vs && vs <= 3 && i2 + 1 + vs == n
}

/// The verse a link opens at (`?at=Ps 23:1`), or `None`: shape-checked so a
/// stranger's query string cannot send the reader somewhere absurd.
pub fn shared_at_ref(search: &str) -> (r: Option<String>)
    ensures
        match query_get_spec(search@, "at"@) {
            Some(v) => if ref_shaped(encode_utf8(trim(v))) {
                r matches Some(x) && x@ == trim(v)
            } else {
                r is None
            },
            None => r is None,
        },
{
    let raw = match query_get(search, "at") {
        Some(v) => v,
        None => return None,
    };
    let t = trimmed(raw.as_str());
    if is_ref_shaped(t.as_str()) {
        Some(t)
    } else {
        None
    }
}

/// A named destination off a query string: trimmed, non-empty, at most
/// [`TARGET_MAX`] characters.
pub open spec fn shared_target_spec(search: Seq<char>, key: Seq<char>) -> Option<Seq<char>> {
    match query_get_spec(search, key) {
        Some(v) => if trim(v).len() > 0 && trim(v).len() <= TARGET_MAX {
            Some(trim(v))
        } else {
            None
        },
        None => None,
    }
}

fn shared_target(search: &str, key: &str) -> (r: Option<String>)
    ensures
        match shared_target_spec(search@, key@) {
            Some(v) => r matches Some(x) && x@ == v,
            None => r is None,
        },
{
    let raw = match query_get(search, key) {
        Some(v) => v,
        None => return None,
    };
    let t = trimmed(raw.as_str());
    let n = chars_of(t.as_str()).len();
    if n > 0 && n <= TARGET_MAX {
        Some(t)
    } else {
        None
    }
}

/// The thread a link opens on (`?thread=Romans+Road`), by name, or `None`.
pub fn shared_thread(search: &str) -> (r: Option<String>)
    ensures
        match shared_target_spec(search@, "thread"@) {
            Some(v) => r matches Some(x) && x@ == v,
            None => r is None,
        },
{
    shared_target(search, "thread")
}

/// The devotional booklet a link opens on (`?devotional=new-believer-30`), or
/// `None`.
pub fn shared_devotional(search: &str) -> (r: Option<String>)
    ensures
        match shared_target_spec(search@, "devotional"@) {
            Some(v) => r matches Some(x) && x@ == v,
            None => r is None,
        },
{
    shared_target(search, "devotional")
}

} // verus!

verus! {

// ── what the reader sees ─────────────────────────────────────────────────────

/// The clock for a meeting time: 12-hour with AM/PM for English, 24-hour
/// otherwise. Minutes are read modulo a day.
pub open spec fn clock_spec(lang: crate::i18n::Lang, minutes: u16) -> Seq<char> {
    let m = (minutes % 1440) as nat;
    let h = m / 60;
    let mi = m % 60;
    if lang == crate::i18n::Lang::En {
        dec(
            if h % 12 == 0 {
                12
            } else {
                h % 12
            },
        ) + seq![':'] + crate::text::zero_pad(dec(mi), 2) + seq![' '] + (if h < 12 {
            "AM"@
        } else {
            "PM"@
        })
    } else {
        crate::text::zero_pad(dec(h), 2) + seq![':'] + crate::text::zero_pad(dec(mi), 2)
    }
}

/// The hour of the day that a twelve-hour dial reading names: `12` reads as
/// zero, and PM adds twelve.
pub open spec fn dial_hour(h12: nat, pm: bool) -> nat {
    (h12 % 12) + (if pm { 12nat } else { 0nat })
}

/// The English clock names the hour of the day on a twelve-hour dial and the
/// half of the day it falls in: the text is `h:mm AM` or `h:mm PM`, where `h`
/// runs from 1 to 12, `mm` is the minutes past the hour, and the dial
/// reading gives back the hour of the day. So the text ends in `AM` for a
/// time before noon and in `PM` from noon on (18:30 is 6:30 PM).
pub proof fn lemma_english_clock_halves_the_day(minutes: u16)
    ensures
        forall|h12: nat, pm: bool|
            1 <= h12 <= 12 && #[trigger] dial_hour(h12, pm) == (minutes % 1440) / 60 ==> clock_spec(
                crate::i18n::Lang::En,
                minutes,
            ) == dec(h12) + seq![':'] + crate::text::zero_pad(dec(((minutes % 1440) % 60) as nat), 2)
                + seq![' '] + (if pm {
                "PM"@
            } else {
                "AM"@
            }),
        ({
            let c = clock_spec(crate::i18n::Lang::En, minutes);
            &&& c.len() >= 2
            &&& c.skip(c.len() - 2) == (if minutes % 1440 >= 720 {
                "PM"@
            } else {
                "AM"@
            })
        }),
{
    reveal_strlit("AM");
    reveal_strlit("PM");
    let m = (minutes % 1440) as nat;
    let h = m / 60;
    assert forall|h12: nat, pm: bool|
        1 <= h12 <= 12 && #[trigger] dial_hour(h12, pm) == h implies (h12 == (if h % 12 == 0 {
        12
    } else {
        h % 12
    }) && (pm <==> h >= 12)) by {}
    let c = clock_spec(crate::i18n::Lang::En, minutes);
    let suffix = if h < 12 {
        "AM"@
    } else {
        "PM"@
    };
    let head = dec(if h % 12 == 0 { 12 } else { h % 12 }) + seq![':'] + crate::text::zero_pad(
        dec(m % 60),
        2,
    ) + seq![' '];
    assert(c == head + suffix);
    assert(c.skip(c.len() - 2) =~= suffix);
}

/// The clock alone, 12-hour for English and 24-hour otherwise.
pub fn clock(lang: crate::i18n::Lang, minutes: u16) -> (r: String)
    ensures
        r@ == clock_spec(lang, minutes),
{
    let m = minutes % 1440;
    let h = m / 60;
    let min = m % 60;
    let mut s = String::new();
    if lang == crate::i18n::Lang::En {
        let h12 = if h % 12 == 0 {
            12
        } else {
            h % 12
        };
        crate::text::push_dec(&mut s, h12 as u64);
        push_char(&mut s, ':');
        crate::text::push_dec_padded(&mut s, min as u64, 2);
        push_char(&mut s, ' ');
        if h < 12 {
            push_str(&mut s, "AM");
        } else {
            push_str(&mut s, "PM");
        }
    } else {
        crate::text::push_dec_padded(&mut s, h as u64, 2);
        push_char(&mut s, ':');
        crate::text::push_dec_padded(&mut s, min as u64, 2);
    }
    s
}

/// "Sundays 10:00 AM": when the church meets, in the reader's words (the
/// `church.meets` string with the clock as `{time}`).
pub fn service_line(cats: &crate::i18n::Catalogs, lang: crate::i18n::Lang, minutes: u16) -> (r:
    String)
    ensures
        r@ == crate::i18n::t_spec(
            cats@,
            lang,
            "church.meets"@,
            seq![("time"@, clock_spec(lang, minutes))],
        ),
{
    let c = clock(lang, minutes);
    let args: Vec<(&str, &str)> = vec![("time", c.as_str())];
    assert(crate::i18n::args_view(args@) =~= seq![("time"@, clock_spec(lang, minutes))]);
    crate::i18n::t(cats, lang, "church.meets", args.as_slice())
}

/// What the reader sees on the Church button when there is no site to open:
/// the name and the meeting line that are not empty, joined with `": "`, or
/// the `shell.churchFallback` string when both are.
pub open spec fn title_spec(
    cats: Seq<Seq<(Seq<char>, Seq<char>)>>,
    lang: crate::i18n::Lang,
    c: (Seq<char>, Option<u16>, Seq<char>),
) -> Seq<char> {
    let cc = clean_spec(c);
    let svc = match cc.1 {
        Some(m) => crate::i18n::t_spec(
            cats,
            lang,
            "church.meets"@,
            seq![("time"@, clock_spec(lang, m))],
        ),
        None => Seq::empty(),
    };
    if cc.0.len() == 0 && svc.len() == 0 {
        crate::i18n::t_spec(cats, lang, "shell.churchFallback"@, Seq::empty())
    } else if cc.0.len() == 0 {
        svc
    } else if svc.len() == 0 {
        cc.0
    } else {
        cc.0 + ": "@ + svc
    }
}

/// The church's title in the reader's language.
pub fn title_in(cats: &crate::i18n::Catalogs, lang: crate::i18n::Lang, c: &Church) -> (r: String)
    ensures
        r@ == title_spec(cats@, lang, c@),
{
    let c = clean(c);
    let svc = match c.service {
        Some(m) => service_line(cats, lang, m),
        None => String::new(),
    };
    let nn = chars_of(c.name.as_str()).len();
    let sn = chars_of(svc.as_str()).len();
    if nn == 0 && sn == 0 {
        let none: Vec<(&str, &str)> = Vec::new();
        assert(crate::i18n::args_view(none@) =~= Seq::empty());
        return crate::i18n::t(cats, lang, "shell.churchFallback", none.as_slice());
    }
    if nn == 0 {
        return svc;
    }
    if sn == 0 {
        return c.name;
    }
    let mut s = c.name;
    push_str(&mut s, ": ");
    push_str(&mut s, svc.as_str());
    s
}

/// The church's title in English.
pub fn title(cats: &crate::i18n::Catalogs, c: &Church) -> (r: String)
    ensures
        r@ == title_spec(cats@, crate::i18n::Lang::En, c@),
{
    title_in(cats, crate::i18n::Lang::En, c)
}

/// The language a link asks to be read in (`?lang=pa`), as the canonical
/// code of a shipped language, or `None`.
pub fn shared_lang(search: &str) -> (r: Option<&'static str>)
    ensures
        match query_get_spec(search@, "lang"@) {
            Some(v) => match crate::i18n::shipped_spec(trim(v)) {
                Some(l) => r matches Some(x) && x@ == crate::i18n::lang_code(l),
                None => r is None,
            },
            None => r is None,
        },
{
    let raw = match query_get(search, "lang") {
        Some(v) => v,
        None => return None,
    };
    let t = trimmed(raw.as_str());
    match crate::i18n::Lang::shipped(t.as_str()) {
        Some(l) => Some(l.code()),
        None => None,
    }
}

} // verus!

verus! {

// ── what a link carries comes back out ──────────────────────────────────────

/// The hex digit for `n < 16`, as a byte.
spec fn hex_byte(n: u8) -> u8 {
    if n < 10 {
        (48 + n) as u8
    } else {
        (55 + n) as u8
    }
}

/// One byte, form-encoded, as bytes.
spec fn enc_byte_b(b: u8) -> Seq<u8> {
    if unreserved(b) {
        seq![b]
    } else if b == 32 {
        seq![43u8]
    } else {
        seq![37u8, hex_byte(b / 16), hex_byte(b % 16)]
    }
}

/// Bytes, form-encoded, as bytes.
spec fn enc_b(bs: Seq<u8>) -> Seq<u8>
    decreases bs.len(),
{
    if bs.len() == 0 {
        Seq::empty()
    } else {
        enc_b(bs.drop_last()) + enc_byte_b(bs.last())
    }
}

/// A character that form encoding may emit.
spec fn enc_char(c: char) -> bool {
    ('0' <= c <= '9') || ('A' <= c <= 'Z') || ('a' <= c <= 'z') || c == '*' || c == '-' || c == '.'
        || c == '_' || c == '+' || c == '%'
}

proof fn lemma_enc_byte(b: u8)
    ensures
        enc_byte(b).len() == enc_byte_b(b).len(),
        forall|i: int|
            0 <= i < enc_byte(b).len() ==> #[trigger] enc_byte(b)[i] as u8 == enc_byte_b(b)[i]
                && enc_char(enc_byte(b)[i]),
{
    let hi = b / 16;
    let lo = b % 16;
    assert(hex_char(hi) as u8 == hex_byte(hi) && enc_char(hex_char(hi)));
    assert(hex_char(lo) as u8 == hex_byte(lo) && enc_char(hex_char(lo)));
    if unreserved(b) {
        assert(((b as u32) as char) as u8 == b);
    }
}

/// The characters of an encoding are form characters, and as bytes they are
/// the byte-level encoding.
proof fn lemma_enc_bytes(bs: Seq<u8>)
    ensures
        enc_bytes(bs).len() == enc_b(bs).len(),
        forall|i: int|
            0 <= i < enc_bytes(bs).len() ==> #[trigger] enc_bytes(bs)[i] as u8 == enc_b(bs)[i]
                && enc_char(enc_bytes(bs)[i]),
    decreases bs.len(),
{
    if bs.len() > 0 {
        lemma_enc_bytes(bs.drop_last());
        lemma_enc_byte(bs.last());
        let a = enc_bytes(bs.drop_last());
        let e = enc_byte(bs.last());
        assert forall|i: int| 0 <= i < enc_bytes(bs).len() implies #[trigger] enc_bytes(bs)[i] as u8
            == enc_b(bs)[i] && enc_char(enc_bytes(bs)[i]) by {
            if i < a.len() {
                assert(enc_bytes(bs)[i] == a[i]);
                assert(enc_b(bs)[i] == enc_b(bs.drop_last())[i]);
            } else {
                assert(enc_bytes(bs)[i] == e[i - a.len()]);
                assert(enc_b(bs)[i] == enc_byte_b(bs.last())[i - a.len()]);
            }
        }
    }
}

proof fn lemma_enc_utf8(bs: Seq<u8>)
    ensures
        encode_utf8(enc_bytes(bs)) == enc_b(bs),
{
    lemma_enc_bytes(bs);
    let x = enc_bytes(bs);
    assert(vstd::utf8::is_ascii_chars(x)) by {
        assert forall|i: int| 0 <= i < x.len() implies '\0' <= #[trigger] x[i] <= '\u{7f}' by {
            assert(enc_char(x[i]));
        }
    }
    vstd::utf8::is_ascii_chars_encode_utf8(x);
    assert(encode_utf8(x) =~= enc_b(bs));
}

proof fn lemma_enc_b_append(a: Seq<u8>, b: Seq<u8>)
    ensures
        enc_b(a + b) == enc_b(a) + enc_b(b),
    decreases b.len(),
{
    if b.len() == 0 {
        assert(a + b =~= a);
        assert(enc_b(a) + enc_b(b) =~= enc_b(a));
    } else {
        lemma_enc_b_append(a, b.drop_last());
        assert((a + b).drop_last() =~= a + b.drop_last());
        assert(enc_b(a) + enc_b(b.drop_last()) + enc_byte_b(b.last()) =~= enc_b(a) + (enc_b(
            b.drop_last(),
        ) + enc_byte_b(b.last())));
    }
}

proof fn lemma_unescape_one(b: u8, rest: Seq<u8>)
    ensures
        unescape(enc_byte_b(b) + rest) == seq![b] + unescape(rest),
{
    let e = enc_byte_b(b) + rest;
    if unreserved(b) {
        assert(e.skip(1) =~= rest);
    } else if b == 32 {
        assert(e.skip(1) =~= rest);
    } else {
        let hi = b / 16;
        let lo = b % 16;
        assert(hex_val(hex_byte(hi)) == Some(hi));
        assert(hex_val(hex_byte(lo)) == Some(lo));
        assert(e[1] == hex_byte(hi) && e[2] == hex_byte(lo));
        assert(e.skip(3) =~= rest);
        assert((hi * 16 + lo) as u8 == b);
    }
}

proof fn lemma_unescape_enc(bs: Seq<u8>)
    ensures
        unescape(enc_b(bs)) == bs,
    decreases bs.len(),
{
    if bs.len() > 0 {
        let t = bs.drop_first();
        assert(bs =~= seq![bs[0]] + t);
        lemma_enc_b_append(seq![bs[0]], t);
        let one = seq![bs[0]];
        assert(one.drop_last() =~= Seq::<u8>::empty());
        assert(enc_b(one.drop_last()).len() == 0);
        assert(one.last() == bs[0]);
        assert(enc_b(one) =~= enc_byte_b(bs[0]));
        lemma_unescape_one(bs[0], enc_b(t));
        lemma_unescape_enc(t);
    }
}

/// Form-decoding undoes form-encoding: every text comes back as it went in.
pub proof fn lemma_form_round_trip(s: Seq<char>)
    ensures
        form_decode_spec(form_encode_spec(s)) == s,
{
    let bs = encode_utf8(s);
    lemma_enc_utf8(bs);
    lemma_unescape_enc(bs);
    vstd::utf8::encode_utf8_valid_utf8(s);
    vstd::utf8::encode_utf8_decode_utf8(s);
}

/// No form-encoded text holds a `&`, a `=` or a `#`.
proof fn lemma_enc_plain(s: Seq<char>)
    ensures
        forall|i: int|
            0 <= i < form_encode_spec(s).len() ==> enc_char(#[trigger] form_encode_spec(s)[i]),
{
    lemma_enc_bytes(encode_utf8(s));
}

proof fn lemma_amp_front(items: Seq<Seq<char>>)
    requires
        items.len() >= 2,
    ensures
        amp_join(items) == items[0] + seq!['&'] + amp_join(items.drop_first()),
    decreases items.len(),
{
    let d = items.drop_last();
    if items.len() == 2 {
        assert(d =~= seq![items[0]]);
        assert(items.drop_first() =~= seq![items[1]]);
        assert(amp_join(d) == items[0]);
        assert(amp_join(items.drop_first()) == items[1]);
    } else {
        lemma_amp_front(d);
        assert(d.drop_first() =~= items.drop_first().drop_last());
        assert(items.drop_first().last() == items.last());
        assert(amp_join(items) =~= items[0] + seq!['&'] + amp_join(items.drop_first()));
    }
}

/// Joining pieces that hold no `&` with `&`, then splitting at `&`, gives the
/// pieces back.
proof fn lemma_split_amp(items: Seq<Seq<char>>)
    requires
        items.len() >= 1,
        forall|i: int, j: int| 0 <= i < items.len() && 0 <= j < items[i].len() ==> #[trigger] items[i][j] != '&',
    ensures
        split_chars(amp_join(items), '&') == items,
    decreases items.len(),
{
    if items.len() == 1 {
        crate::text::lemma_find_char(items[0], '&', items[0].len() as int);
        assert(seq![items[0]] =~= items);
    } else {
        lemma_amp_front(items);
        let rest = items.drop_first();
        let s = amp_join(items);
        let a = items[0];
        assert forall|j: int| 0 <= j < a.len() implies s[j] != '&' by {
            assert(s[j] == a[j]);
        }
        crate::text::lemma_find_char(s, '&', a.len() as int);
        assert(s.take(a.len() as int) =~= a);
        assert(s.skip(a.len() + 1int) =~= amp_join(rest));
        assert forall|i: int, j: int| 0 <= i < rest.len() && 0 <= j < rest[i].len() implies #[trigger] rest[i][j] != '&' by {
            assert(rest[i] == items[i + 1]);
        }
        lemma_split_amp(rest);
        assert(seq![a] + rest =~= items);
    }
}

/// Every character of `amp_join(items)` is `&` or a character of an item.
proof fn lemma_amp_chars(items: Seq<Seq<char>>, c: char)
    requires
        c != '&',
        forall|i: int, j: int| 0 <= i < items.len() && 0 <= j < items[i].len() ==> #[trigger] items[i][j] != c,
    ensures
        forall|k: int| 0 <= k < amp_join(items).len() ==> #[trigger] amp_join(items)[k] != c,
    decreases items.len(),
{
    if items.len() > 1 {
        let d = items.drop_last();
        assert forall|i: int, j: int| 0 <= i < d.len() && 0 <= j < d[i].len() implies #[trigger] d[i][j] != c by {
            assert(d[i] == items[i]);
        }
        lemma_amp_chars(d, c);
        let a = amp_join(d);
        let l = items.last();
        assert forall|k: int| 0 <= k < amp_join(items).len() implies #[trigger] amp_join(items)[k] != c by {
            if k < a.len() {
                assert(amp_join(items)[k] == a[k]);
            } else if k > a.len() {
                assert(amp_join(items)[k] == l[k - a.len() - 1]);
                assert(l == items[items.len() - 1]);
            }
        }
    } else if items.len() == 1 {
        assert forall|k: int| 0 <= k < amp_join(items).len() implies #[trigger] amp_join(items)[k] != c by {
            assert(amp_join(items)[k] == items[0][k]);
        }
    }
}

/// The value of the first pair keyed `key`.
pub open spec fn plain_lookup(ps: Seq<(Seq<char>, Seq<char>)>, key: Seq<char>) -> Option<Seq<char>>
    decreases ps.len(),
{
    if ps.len() == 0 {
        None
    } else if ps[0].0 == key {
        Some(ps[0].1)
    } else {
        plain_lookup(ps.drop_first(), key)
    }
}

proof fn lemma_encoded_pair(p: (Seq<char>, Seq<char>))
    ensures
        form_decode_spec(pair_key(encoded_pair(p))) == p.0,
        form_decode_spec(pair_value(encoded_pair(p))) == p.1,
        forall|j: int| 0 <= j < encoded_pair(p).len() ==> #[trigger] encoded_pair(p)[j] != '&'
            && encoded_pair(p)[j] != '#' && encoded_pair(p)[j] != '?',
{
    let k = form_encode_spec(p.0);
    let v = form_encode_spec(p.1);
    let e = encoded_pair(p);
    lemma_enc_plain(p.0);
    lemma_enc_plain(p.1);
    assert forall|j: int| 0 <= j < k.len() implies e[j] != '=' by {
        assert(e[j] == k[j]);
        assert(enc_char(k[j]));
    }
    crate::text::lemma_find_char(e, '=', k.len() as int);
    assert(e.take(k.len() as int) =~= k);
    assert(e.skip(k.len() + 1int) =~= v);
    lemma_form_round_trip(p.0);
    lemma_form_round_trip(p.1);
    assert forall|j: int| 0 <= j < e.len() implies #[trigger] e[j] != '&' && e[j] != '#' && e[j] != '?' by {
        if j < k.len() {
            assert(e[j] == k[j]);
            assert(enc_char(k[j]));
        } else if j > k.len() {
            assert(e[j] == v[j - k.len() - 1]);
            assert(enc_char(v[j - k.len() - 1]));
        }
    }
}

proof fn lemma_lookup_encoded(ps: Seq<(Seq<char>, Seq<char>)>, key: Seq<char>)
    ensures
        lookup_pairs(ps.map_values(|p: (Seq<char>, Seq<char>)| encoded_pair(p)), key)
            == plain_lookup(ps, key),
    decreases ps.len(),
{
    if ps.len() > 0 {
        let enc = ps.map_values(|p: (Seq<char>, Seq<char>)| encoded_pair(p));
        lemma_encoded_pair(ps[0]);
        assert(enc[0] == encoded_pair(ps[0]));
        assert(enc.drop_first() =~= ps.drop_first().map_values(
            |p: (Seq<char>, Seq<char>)| encoded_pair(p),
        ));
        lemma_lookup_encoded(ps.drop_first(), key);
    }
}

proof fn lemma_plain_lookup_concat(a: Seq<(Seq<char>, Seq<char>)>, b: Seq<(Seq<char>, Seq<char>)>, key: Seq<char>)
    ensures
        plain_lookup(a + b, key) == match plain_lookup(a, key) {
            Some(v) => Some(v),
            None => plain_lookup(b, key),
        },
    decreases a.len(),
{
    if a.len() == 0 {
        assert(a + b =~= b);
    } else {
        assert((a + b)[0] == a[0]);
        assert((a + b).drop_first() =~= a.drop_first() + b);
        lemma_plain_lookup_concat(a.drop_first(), b, key);
    }
}

proof fn lemma_opt_pair_absent(k: Seq<char>, v: Option<Seq<char>>, key: Seq<char>)
    requires
        k != key,
    ensures
        plain_lookup(opt_pair(k, v), key) is None,
{
    match v {
        Some(x) => if trim(x).len() > 0 {
            assert(opt_pair(k, v).drop_first() =~= Seq::<(Seq<char>, Seq<char>)>::empty());
            assert(plain_lookup(opt_pair(k, v).drop_first(), key) is None);
            assert(opt_pair(k, v)[0].0 == k);
        },
        None => {},
    }
}

/// A set church stays set once cleaned.
proof fn lemma_has_clean(c: (Seq<char>, Option<u16>, Seq<char>))
    requires
        has_spec(c),
    ensures
        has_spec(clean_spec(c)),
{
    let t = trim(c.0);
    crate::text::lemma_lead_white_stop(c.0);
    let l = crate::text::lead_white(c.0);
    let a = c.0.skip(l as int);
    crate::text::lemma_trail_white_le(a);
    assert(t == a.take(a.len() - crate::text::trail_white(a)));
    assert(t[0] == a[0]);
    assert(t[0] == c.0[l as int]);
    let x = cut(t, NAME_MAX as nat);
    assert(x[0] == t[0]);
    crate::text::lemma_trim_nonempty(x, 0);
}

proof fn lemma_keys_distinct()
    ensures
        "church"@ != "churchService"@,
        "church"@ != "churchUrl"@,
        "churchService"@ != "churchUrl"@,
        "at"@ != "church"@ && "at"@ != "churchService"@ && "at"@ != "churchUrl"@,
        "lang"@ != "church"@ && "lang"@ != "churchService"@ && "lang"@ != "churchUrl"@,
        "thread"@ != "church"@ && "thread"@ != "churchService"@ && "thread"@ != "churchUrl"@,
        "devotional"@ != "church"@ && "devotional"@ != "churchService"@ && "devotional"@
            != "churchUrl"@,
{
    reveal_strlit("church");
    reveal_strlit("churchService");
    reveal_strlit("churchUrl");
    reveal_strlit("at");
    reveal_strlit("lang");
    reveal_strlit("thread");
    reveal_strlit("devotional");
    assert("church"@.len() == 6);
    assert("churchService"@.len() == 13);
    assert("churchUrl"@.len() == 9);
    assert("at"@.len() == 2);
    assert("lang"@.len() == 4);
    assert("thread"@.len() == 6);
    assert("devotional"@.len() == 10);
    assert("thread"@[0] != "church"@[0]);
}

/// The share pairs, looked up by one of the church's keys.
proof fn lemma_share_lookup(
    c: (Seq<char>, Option<u16>, Seq<char>),
    at: Option<Seq<char>>,
    lang: Option<Seq<char>>,
    thread: Option<Seq<char>>,
    devotional: Option<Seq<char>>,
    key: Seq<char>,
)
    requires
        has_spec(c),
        key == "church"@ || key == "churchService"@ || key == "churchUrl"@,
    ensures
        plain_lookup(share_pairs(c, at, lang, thread, devotional), key) == plain_lookup(
            church_pairs(clean_spec(c)),
            key,
        ),
{
    lemma_keys_distinct();
    let cp = church_pairs(clean_spec(c));
    let oa = opt_pair("at"@, at);
    let ol = opt_pair("lang"@, lang);
    let ot = opt_pair("thread"@, thread);
    let od = opt_pair("devotional"@, devotional);
    lemma_opt_pair_absent("at"@, at, key);
    lemma_opt_pair_absent("lang"@, lang, key);
    lemma_opt_pair_absent("thread"@, thread, key);
    lemma_opt_pair_absent("devotional"@, devotional, key);
    lemma_plain_lookup_concat(cp, oa, key);
    lemma_plain_lookup_concat(cp + oa, ol, key);
    lemma_plain_lookup_concat(cp + oa + ol, ot, key);
    lemma_plain_lookup_concat(cp + oa + ol + ot, od, key);
}

/// The church's own pairs, looked up by each of its keys.
proof fn lemma_church_lookup(c: (Seq<char>, Option<u16>, Seq<char>))
    requires
        has_spec(c),
    ensures
        plain_lookup(church_pairs(c), "church"@) == Some(c.0),
        plain_lookup(church_pairs(c), "churchService"@) == match c.1 {
            Some(m) => Some(dec(m as nat)),
            None => None,
        },
        plain_lookup(church_pairs(c), "churchUrl"@) == if c.2.len() > 0 {
            Some(c.2)
        } else {
            None
        },
{
    lemma_keys_distinct();
    let name = seq![("church"@, c.0)];
    let svc: Seq<(Seq<char>, Seq<char>)> = match c.1 {
        Some(m) => seq![("churchService"@, dec(m as nat))],
        None => Seq::empty(),
    };
    let url: Seq<(Seq<char>, Seq<char>)> = if c.2.len() > 0 {
        seq![("churchUrl"@, c.2)]
    } else {
        Seq::empty()
    };
    assert(church_pairs(c) == name + svc + url);
    assert(name.drop_first() =~= Seq::<(Seq<char>, Seq<char>)>::empty());
    if svc.len() > 0 {
        assert(svc.drop_first() =~= Seq::<(Seq<char>, Seq<char>)>::empty());
    }
    if url.len() > 0 {
        assert(url.drop_first() =~= Seq::<(Seq<char>, Seq<char>)>::empty());
    }
    assert(plain_lookup(Seq::<(Seq<char>, Seq<char>)>::empty(), "churchService"@) is None);
    assert(plain_lookup(Seq::<(Seq<char>, Seq<char>)>::empty(), "churchUrl"@) is None);
    assert(plain_lookup(name.drop_first(), "churchService"@) is None);
    assert(plain_lookup(name.drop_first(), "churchUrl"@) is None);
    assert(plain_lookup(name, "churchService"@) is None);
    assert(plain_lookup(name, "churchUrl"@) is None);
    assert(plain_lookup(name, "church"@) == Some(c.0));
    if svc.len() > 0 {
        assert(plain_lookup(svc.drop_first(), "churchUrl"@) is None);
    }
    assert(plain_lookup(svc, "churchUrl"@) is None);
    if url.len() > 0 {
        assert(plain_lookup(url.drop_first(), "churchService"@) is None);
    }
    assert(plain_lookup(url, "churchService"@) is None);
    lemma_plain_lookup_concat(name, svc, "church"@);
    lemma_plain_lookup_concat(name + svc, url, "church"@);
    lemma_plain_lookup_concat(name, svc, "churchService"@);
    lemma_plain_lookup_concat(name + svc, url, "churchService"@);
    lemma_plain_lookup_concat(name, svc, "churchUrl"@);
    lemma_plain_lookup_concat(name + svc, url, "churchUrl"@);
}

/// What a share link carries comes back out of it: reading the church off the
/// query of a link built on `base` (an address with no query or fragment of
/// its own), with or without the query's leading `?`, gives the church the
/// link was made from, cleaned as a settings field is cleaned.
pub proof fn lemma_share_round_trip(
    base: Seq<char>,
    c: (Seq<char>, Option<u16>, Seq<char>),
    at: Option<Seq<char>>,
    lang: Option<Seq<char>>,
    thread: Option<Seq<char>>,
    devotional: Option<Seq<char>>,
)
    requires
        forall|i: int| 0 <= i < base.len() ==> base[i] != '?' && base[i] != '#',
        has_spec(c),
    ensures
        from_query_spec(
            set_query_spec(base, share_pairs(c, at, lang, thread, devotional)).skip(base.len() as int),
        ) == Some(clean_spec(clean_spec(c))),
        from_query_spec(
            set_query_spec(base, share_pairs(c, at, lang, thread, devotional)).skip(base.len() + 1int),
        ) == Some(clean_spec(clean_spec(c))),
{
    let cc = clean_spec(c);
    lemma_has_clean(c);
    lemma_has_clean(cc);
    let ps = share_pairs(c, at, lang, thread, devotional);
    let enc = ps.map_values(|p: (Seq<char>, Seq<char>)| encoded_pair(p));
    assert(church_pairs(cc).len() >= 1);
    assert(ps.len() >= 1);
    // the link is the base, `?`, and the encoded pairs
    crate::text::lemma_find_char(base, '#', base.len() as int);
    assert(base.take(base.len() as int) =~= base);
    crate::text::lemma_find_char(base, '?', base.len() as int);
    assert(base.skip(base.len() as int) =~= Seq::<char>::empty());
    crate::text::lemma_find_char(Seq::<char>::empty(), '&', 0);
    assert(split_chars(Seq::<char>::empty(), '&') =~= seq![Seq::<char>::empty()]);
    let pieces = seq![Seq::<char>::empty()];
    assert(pieces.drop_last() =~= Seq::<Seq<char>>::empty());
    assert(pieces.last().len() == 0);
    assert(kept(pieces.drop_last(), keys_of(ps)).len() == 0);
    assert(kept(pieces, keys_of(ps)) =~= Seq::<Seq<char>>::empty());
    assert(Seq::<Seq<char>>::empty() + enc =~= enc);
    let url = set_query_spec(base, ps);
    assert(url =~= base + (seq!['?'] + amp_join(enc)) + Seq::<char>::empty());
    let search = url.skip(base.len() as int);
    assert(search =~= seq!['?'] + amp_join(enc));
    // its query is the encoded pairs, joined
    assert forall|i: int, j: int| 0 <= i < enc.len() && 0 <= j < enc[i].len() implies #[trigger] enc[i][j]
        != '&' && enc[i][j] != '#' by {
        lemma_encoded_pair(ps[i]);
    }
    lemma_amp_chars(enc, '#');
    let q = amp_join(enc);
    assert(strip_qmark(search) =~= q);
    crate::text::lemma_find_char(q, '#', q.len() as int);
    assert(q.take(q.len() as int) =~= q);
    assert(query_of(search) == q);
    lemma_split_amp(enc);
    // each key reads back its pair
    lemma_keys_distinct();
    lemma_lookup_encoded(ps, "church"@);
    lemma_lookup_encoded(ps, "churchService"@);
    lemma_lookup_encoded(ps, "churchUrl"@);
    lemma_share_lookup(c, at, lang, thread, devotional, "church"@);
    lemma_share_lookup(c, at, lang, thread, devotional, "churchService"@);
    lemma_share_lookup(c, at, lang, thread, devotional, "churchUrl"@);
    lemma_church_lookup(cc);
    let svc = match query_get_spec(search, "churchService"@) {
        Some(v) => crate::text::parse_u16_spec(trim(v)),
        None => None,
    };
    match cc.1 {
        Some(m) => {
            crate::text::lemma_dec_digits(m as nat);
            crate::text::lemma_trim_plain(dec(m as nat));
            crate::text::lemma_unsigned_value_dec(m as nat);
            assert(svc == Some(m));
        },
        None => {},
    }
    let raw = (
        or_empty(query_get_spec(search, "church"@)),
        svc,
        or_empty(query_get_spec(search, "churchUrl"@)),
    );
    assert(raw.2 =~= cc.2);
    assert(raw == cc);
    // without the leading `?` the query reads the same
    assert forall|i: int, j: int| 0 <= i < enc.len() && 0 <= j < enc[i].len() implies #[trigger] enc[i][j]
        != '?' by {
        lemma_encoded_pair(ps[i]);
    }
    lemma_amp_chars(enc, '?');
    let bare = url.skip(base.len() + 1int);
    assert(bare =~= q);
    assert(strip_qmark(bare) =~= q);
    assert(query_of(bare) == query_of(search));
    assert(from_query_spec(bare) == from_query_spec(search));
}

} // verus!

