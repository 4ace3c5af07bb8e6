//! Civil-date arithmetic at day granularity over the proleptic Gregorian
//! calendar, with day 0 at 1970-01-01. Timestamps arrive as RFC3339 text; this
//! module turns their date part into a day count and back.

use vstd::prelude::*;
use vstd::string::StringSliceAdditionalSpecFns;

use vstd::utf8::{encode_utf8, is_ascii_chars, is_ascii_chars_encode_utf8};

use crate::text::{
    all_digit_bytes, all_digits, dec, digit_bytes_value, digits_value, find_byte, find_byte_in,
    fmt_signed_padded, is_digit, lemma_dec_digits, lemma_find_byte, parse_i64_in,
    parse_i64_spec, push_char, push_dec_padded, push_i64_padded, zero_pad,
};

verus! {

// ── the calendar ─────────────────────────────────────────────────────────────

/// Gregorian leap years.
pub open spec fn is_leap(y: int) -> bool {
    (y % 4 == 0 && y % 100 != 0) || y % 400 == 0
}

/// Days in month `m` (1–12) of year `y`.
pub open spec fn days_in_month(y: int, m: int) -> int {
    if m == 2 {
        if is_leap(y) { 29 } else { 28 }
    } else if m == 4 || m == 6 || m == 9 || m == 11 {
        30
    } else {
        31
    }
}

/// A real calendar date.
pub open spec fn valid_date(y: int, m: int, d: int) -> bool {
    1 <= m <= 12 && 1 <= d <= days_in_month(y, m)
}

/// Integer division rounding toward zero, as Rust's `/` does.
pub open spec fn trunc_div(a: int, b: int) -> int {
    if a >= 0 { a / b } else { -((-a) / b) }
}

/// The day number of `(y, m, d)`, counted from 1970-01-01 (Howard Hinnant's
/// formula over March-based years and 400-year eras). Total over all
/// integers; for a real date it counts days, as the laws below show.
pub open spec fn days_from_civil_spec(y: int, m: int, d: int) -> int {
    let y2 = if m <= 2 { y - 1 } else { y };
    let era = y2 / 400;
    let yoe = y2 - era * 400;
    let mp = if m > 2 { m - 3 } else { m + 9 };
    let doy = trunc_div(153 * mp + 2, 5) + d - 1;
    let doe = yoe * 365 + yoe / 4 - yoe / 100 + doy;
    era * 146097 + doe - 719468
}

/// The date of day number `z` (the inverse of [`days_from_civil_spec`]).
pub open spec fn civil_from_days_spec(z: int) -> (int, int, int) {
    let z2 = z + 719468;
    let era = z2 / 146097;
    let doe = z2 - era * 146097;
    let yoe = (doe - doe / 1460 + doe / 36524 - doe / 146096) / 365;
    let y = yoe + era * 400;
    let doy = doe - (365 * yoe + yoe / 4 - yoe / 100);
    let mp = (5 * doy + 2) / 153;
    let d = doy - (153 * mp + 2) / 5 + 1;
    let m = if mp < 10 { mp + 3 } else { mp - 9 };
    (if m <= 2 { y + 1 } else { y }, m, d)
}

/// First day of year-of-era `k` within its era.
pub open spec fn year_start(k: int) -> int {
    365 * k + k / 4 - k / 100
}

/// Days in March-based year-of-era `k`: it holds February of era year `k + 1`.
pub open spec fn year_len(k: int) -> int {
    if is_leap(k + 1) { 366 } else { 365 }
}

/// The year-of-era formula of [`civil_from_days_spec`].
pub open spec fn yoe_of(doe: int) -> int {
    (doe - doe / 1460 + doe / 36524 - doe / 146096) / 365
}

#[verifier::spinoff_prover]
#[verifier::rlimit(50)]
proof fn lemma_year_inversion(yoe: int, doy: int)
    requires
        0 <= yoe <= 399,
        0 <= doy < year_len(yoe),
    ensures
        yoe_of(year_start(yoe) + doy) == yoe,
{
}

#[verifier::spinoff_prover]
#[verifier::rlimit(50)]
proof fn lemma_year_of_era(doe: int)
    requires
        0 <= doe <= 146096,
    ensures
        0 <= yoe_of(doe) <= 399,
        0 <= doe - year_start(yoe_of(doe)) < year_len(yoe_of(doe)),
{
}

proof fn lemma_leap_shift(a: int, e: int)
    ensures
        is_leap(a + 400 * e) == is_leap(a),
{
    assert((a + 400 * e) % 4 == a % 4);
    assert((a + 400 * e) % 100 == a % 100);
    assert((a + 400 * e) % 400 == a % 400);
}

/// Reading a day number back as a date gives a real date, and that date
/// counts back to the same day number.
pub proof fn lemma_civil_from_days_round_trip(z: int)
    ensures
        ({
            let (y, m, d) = civil_from_days_spec(z);
            valid_date(y, m, d) && days_from_civil_spec(y, m, d) == z
        }),
{
    let z2 = z + 719468;
    let era = z2 / 146097;
    let doe = z2 - era * 146097;
    assert(0 <= doe <= 146096);
    lemma_year_of_era(doe);
    let yoe = yoe_of(doe);
    let doy = doe - year_start(yoe);
    let (y, m, d) = civil_from_days_spec(z);
    let mp = (5 * doy + 2) / 153;
    assert(0 <= mp <= 11);
    lemma_leap_shift(yoe + 1, era);
    if m <= 2 {
        assert(y == yoe + era * 400 + 1);
    }
    let y2 = if m <= 2 { y - 1 } else { y };
    assert(y2 == yoe + era * 400);
    assert(y2 / 400 == era);
}

/// A real date counts to a day number that reads back as the same date.
pub proof fn lemma_days_from_civil_round_trip(y: int, m: int, d: int)
    requires
        valid_date(y, m, d),
    ensures
        civil_from_days_spec(days_from_civil_spec(y, m, d)) == (y, m, d),
{
    let y2 = if m <= 2 { y - 1 } else { y };
    let era = y2 / 400;
    let yoe = y2 - era * 400;
    let mp = if m > 2 { m - 3 } else { m + 9 };
    let doy = (153 * mp + 2) / 5 + d - 1;
    lemma_leap_shift(yoe + 1, era);
    assert(0 <= doy < year_len(yoe));
    lemma_year_inversion(yoe, doy);
    let z = days_from_civil_spec(y, m, d);
    assert(z + 719468 == era * 146097 + year_start(yoe) + doy);
    assert((z + 719468) / 146097 == era);
}

/// Day 0 is 1970-01-01.
pub proof fn lemma_epoch()
    ensures
        days_from_civil_spec(1970, 1, 1) == 0,
{
}

/// The next day of the month is the next day number.
pub proof fn lemma_next_day(y: int, m: int, d: int)
    ensures
        days_from_civil_spec(y, m, d + 1) == days_from_civil_spec(y, m, d) + 1,
{
}

/// The first of a month follows the last of the month before it.
pub proof fn lemma_next_month(y: int, m: int)
    requires
        1 <= m <= 11,
    ensures
        days_from_civil_spec(y, m + 1, 1) == days_from_civil_spec(y, m, days_in_month(y, m)) + 1,
{
    if m == 2 {
        let e = (y - 1) / 400;
        lemma_leap_shift(y - 400 * e, e);
    }
}

/// New Year's Day follows New Year's Eve.
pub proof fn lemma_next_year(y: int)
    ensures
        days_from_civil_spec(y + 1, 1, 1) == days_from_civil_spec(y, 12, 31) + 1,
{
}

// ── day numbers from text and back ───────────────────────────────────────────

/// Floor division written with truncating division: shift a negative
/// numerator down by `b - 1` first.
proof fn lemma_floor_by_trunc_400(a: int)
    ensures
        a / 400 == (if a >= 0 { trunc_div(a, 400) } else { trunc_div(a - 399, 400) }),
{
}

/// The same, for the era length in days.
proof fn lemma_floor_by_trunc_146097(a: int)
    ensures
        a / 146097 == (if a >= 0 { trunc_div(a, 146097) } else { trunc_div(a - 146096, 146097) }),
{
}

/// Whether an integer fits an `i64`.
pub open spec fn in_i64(x: int) -> bool {
    i64::MIN <= x <= i64::MAX
}

/// Whether every step of [`days_from_civil`]'s arithmetic on `(y, m, d)`
/// stays within `i64`: the inputs on which it neither overflows nor panics.
pub open spec fn civil_fits(y: int, m: int, d: int) -> bool {
    let y2 = if m <= 2 { y - 1 } else { y };
    let era = y2 / 400;
    let yoe = y2 - era * 400;
    let mp = if m > 2 { m - 3 } else { m + 9 };
    let t = trunc_div(153 * mp + 2, 5);
    let doe = yoe * 365 + yoe / 4 - yoe / 100 + (t + d - 1);
    &&& in_i64(y2)
    &&& in_i64(if y2 >= 0 { y2 } else { y2 - 399 })
    &&& in_i64(153 * mp)
    &&& in_i64(153 * mp + 2)
    &&& in_i64(t + d)
    &&& in_i64(t + d - 1)
    &&& in_i64(doe)
    &&& in_i64(era * 146097)
    &&& in_i64(era * 146097 + doe)
    &&& in_i64(era * 146097 + doe - 719468)
}

/// The day number of `(y, m, d)` (proleptic Gregorian; 1970-01-01 is 0), for
/// every `(y, m, d)` the computation does not overflow on.
#[verifier::spinoff_prover]
pub fn days_from_civil(y: i64, m: i64, d: i64) -> (r: i64)
    requires
        civil_fits(y as int, m as int, d as int),
    ensures
        r == days_from_civil_spec(y as int, m as int, d as int),
{
    let y = if m <= 2 { y - 1 } else { y };
    proof {
        lemma_floor_by_trunc_400(y as int);
    }
    let era = if y >= 0 { y } else { y - 399 } / 400;
    let yoe = y - era * 400;
    let doy = (153 * (if m > 2 { m - 3 } else { m + 9 }) + 2) / 5 + d - 1;
    let doe = yoe * 365 + yoe / 4 - yoe / 100 + doy;
    era * 146097 + doe - 719468
}

/// The date of day number `z`, as `(year, month, day)`.
#[verifier::spinoff_prover]
pub fn civil_from_days(z: i64) -> (r: (i64, i64, i64))
    requires
        z <= i64::MAX - 719468,
    ensures
        (r.0 as int, r.1 as int, r.2 as int) == civil_from_days_spec(z as int),
        valid_date(r.0 as int, r.1 as int, r.2 as int),
        days_from_civil_spec(r.0 as int, r.1 as int, r.2 as int) == z,
{
    proof {
        lemma_civil_from_days_round_trip(z as int);
        lemma_year_of_era((z + 719468) - ((z + 719468) / 146097) * 146097);
    }
    let z = z + 719468;
    proof {
        lemma_floor_by_trunc_146097(z as int);
    }
    let era = if z >= 0 { z } else { z - 146096 } / 146097;
    let doe = z - era * 146097;
    let yoe = (doe - doe / 1460 + doe / 36524 - doe / 146096) / 365;
    let y = yoe + era * 400;
    let doy = doe - (365 * yoe + yoe / 4 - yoe / 100);
    let mp = (5 * doy + 2) / 153;
    let d = doy - (153 * mp + 2) / 5 + 1;
    let m = if mp < 10 { mp + 3 } else { mp - 9 };
    (if m <= 2 { y + 1 } else { y }, m, d)
}

/// The first ten bytes of a stamp, when they end on a character boundary
/// (`str::get(0..10)`).
pub open spec fn date_window(s: Seq<u8>) -> Option<Seq<u8>> {
    if s.len() >= 10 && (s.len() == 10 || !is_continuation_byte(s[10])) {
        Some(s.take(10))
    } else {
        None
    }
}

/// The three `-`-separated fields of a date window, each read as an `i64`.
pub open spec fn date_fields(w: Seq<u8>) -> Option<(i64, i64, i64)> {
    let k1 = find_byte(w, 45);
    let r1 = w.skip(k1 + 1);
    let k2 = find_byte(r1, 45);
    let r2 = r1.skip(k2 + 1);
    let k3 = find_byte(r2, 45);
    if k1 < w.len() && k2 < r1.len() {
        match (parse_i64_spec(w.take(k1)), parse_i64_spec(r1.take(k2)), parse_i64_spec(r2.take(k3))) {
            (Some(y), Some(m), Some(d)) => Some((y, m, d)),
            _ => None,
        }
    } else {
        None
    }
}

/// The day number a stamp's `YYYY-MM-DD` date part names, or `None`.
pub open spec fn date_to_days_spec(s: Seq<u8>) -> Option<int> {
    match date_window(s) {
        Some(w) => match date_fields(w) {
            Some((y, m, d)) => Some(days_from_civil_spec(y as int, m as int, d as int)),
            None => None,
        },
        None => None,
    }
}

/// A byte that continues a multi-byte UTF-8 sequence.
pub open spec fn is_continuation_byte(b: u8) -> bool {
    0x80 <= b <= 0xbf
}

pub open spec fn pow10(n: nat) -> nat
    decreases n,
{
    if n == 0 { 1 } else { 10 * pow10((n - 1) as nat) }
}

proof fn lemma_digit_bytes_bound(s: Seq<u8>)
    requires
        crate::text::all_digit_bytes(s),
    ensures
        crate::text::digit_bytes_value(s) < pow10(s.len()),
    decreases s.len(),
{
    if s.len() > 0 {
        let t = s.drop_last();
        assert(crate::text::all_digit_bytes(t)) by {
            assert forall|j: int| 0 <= j < t.len() implies crate::text::is_digit_byte(#[trigger] t[j]) by {
                assert(t[j] == s[j]);
            }
        }
        lemma_digit_bytes_bound(t);
        assert(crate::text::is_digit_byte(s[s.len() - 1]));
    }
}

proof fn lemma_parse_i64_small(s: Seq<u8>)
    requires
        s.len() <= 10,
        parse_i64_spec(s) is Some,
    ensures
        -10_000_000_000 < parse_i64_spec(s)->0 < 10_000_000_000,
{
    let body = if s.len() > 0 && (s[0] == 45 || s[0] == 43) { s.drop_first() } else { s };
    lemma_digit_bytes_bound(body);
    assert(pow10(10) == 10_000_000_000) by {
        reveal_with_fuel(pow10, 11);
    }
    lemma_pow10_mono(body.len(), 10);
}

proof fn lemma_pow10_mono(a: nat, b: nat)
    requires
        a <= b,
    ensures
        pow10(a) <= pow10(b),
    decreases b,
{
    if a < b {
        lemma_pow10_mono(a, (b - 1) as nat);
    }
}

/// Parse the `YYYY-MM-DD` date out of an RFC3339 stamp into a day number.
/// A bare date (`"2026-07-28"`) reads the same as a full stamp.
pub fn date_to_days(stamp: &str) -> (r: Option<i64>)
    ensures
        r matches Some(v) ==> date_to_days_spec(stamp.spec_bytes()) == Some(v as int),
        r is None ==> date_to_days_spec(stamp.spec_bytes()) is None,
        r matches Some(v) ==> -100_000_000_000_000 < v < 100_000_000_000_000,
{
    let b = stamp.as_bytes();
    let ghost s = b@;
    if b.len() < 10 {
        return None;
    }
    if b.len() > 10 && 0x80 <= b[10] && b[10] <= 0xbf {
        return None;
    }
    let ghost w = s.take(10);
    assert(w == b@.subrange(0, 10));
    let k1 = find_byte_in(b, 0, 10, 45);
    if k1 >= 10 {
        return None;
    }
    let ghost r1 = w.skip(k1 + 1);
    assert(r1 == b@.subrange(k1 + 1, 10));
    let k2 = find_byte_in(b, k1 + 1, 10, 45);
    if k2 >= 10 {
        return None;
    }
    let ghost r2 = r1.skip(k2 - k1);
    assert(r2 == b@.subrange(k2 + 1, 10));
    let k3 = find_byte_in(b, k2 + 1, 10, 45);
    assert(w.take(k1 as int) == b@.subrange(0, k1 as int));
    assert(r1.take(k2 - k1 - 1) == b@.subrange(k1 + 1, k2 as int));
    assert(r2.take(k3 - k2 - 1) == b@.subrange(k2 + 1, k3 as int));
    let y = match parse_i64_in(b, 0, k1) {
        Some(v) => v,
        None => return None,
    };
    let m = match parse_i64_in(b, k1 + 1, k2) {
        Some(v) => v,
        None => return None,
    };
    let d = match parse_i64_in(b, k2 + 1, k3) {
        Some(v) => v,
        None => return None,
    };
    proof {
        lemma_parse_i64_small(b@.subrange(0, k1 as int));
        lemma_parse_i64_small(b@.subrange(k1 + 1, k2 as int));
        lemma_parse_i64_small(b@.subrange(k2 + 1, k3 as int));
    }
    Some(days_from_civil(y, m, d))
}

/// A date written `YYYY-MM-DD`, the year zero-padded to four digits.
pub open spec fn date_text(y: int, m: int, d: int) -> Seq<char> {
    fmt_signed_padded(y, 4) + seq!['-'] + zero_pad(dec(m as nat), 2) + seq!['-'] + zero_pad(
        dec(d as nat),
        2,
    )
}

/// Day number `days` written back as `YYYY-MM-DD`.
pub fn days_to_date(days: i64) -> (r: String)
    requires
        days <= i64::MAX - 719468,
    ensures
        ({
            let (y, m, d) = civil_from_days_spec(days as int);
            r@ == date_text(y, m, d)
        }),
{
    let (y, m, d) = civil_from_days(days);
    let mut s = String::new();
    push_i64_padded(&mut s, y, 4);
    push_char(&mut s, '-');
    push_dec_padded(&mut s, m as u64, 2);
    push_char(&mut s, '-');
    push_dec_padded(&mut s, d as u64, 2);
    assert(s@ =~= date_text(y as int, m as int, d as int));
    s
}

/// `stamp`'s date advanced by `n` days, as `YYYY-MM-DD` (an unreadable stamp
/// counts from 1970-01-01).
pub fn add_days(stamp: &str, n: i64) -> (r: String)
    requires
        ({
            let base = match date_to_days_spec(stamp.spec_bytes()) {
                Some(v) => v,
                None => 0,
            };
            i64::MIN <= base + n <= i64::MAX - 719468
        }),
    ensures
        ({
            let base = match date_to_days_spec(stamp.spec_bytes()) {
                Some(v) => v,
                None => 0,
            };
            let (y, m, d) = civil_from_days_spec(base + n);
            r@ == date_text(y, m, d)
        }),
{
    let base = match date_to_days(stamp) {
        Some(v) => v,
        None => 0,
    };
    days_to_date(base + n)
}

/// The wire stamp `YYYY-MM-DDThh:mm:ssZ` for a count of Unix seconds (UTC,
/// no leap seconds).
pub open spec fn epoch_stamp(secs: int) -> Seq<char> {
    let days = secs / 86400;
    let rem = secs % 86400;
    let (y, m, d) = civil_from_days_spec(days);
    date_text(y, m, d) + seq!['T'] + zero_pad(dec((rem / 3600) as nat), 2) + seq![':'] + zero_pad(
        dec(((rem % 3600) / 60) as nat),
        2,
    ) + seq![':'] + zero_pad(dec((rem % 60) as nat), 2) + seq!['Z']
}

/// Unix seconds as the wire stamp `YYYY-MM-DDThh:mm:ssZ`. A pre-epoch instant
/// lands on the right day: the division floors.
#[verifier::rlimit(40)]
pub fn stamp_from_epoch_secs(secs: i64) -> (r: String)
    ensures
        r@ == epoch_stamp(secs as int),
{
    let mut days = secs / 86400;
    let mut rem = secs % 86400;
    if rem < 0 {
        days = days - 1;
        rem = rem + 86400;
    }
    assert(days == secs as int / 86400 && rem == secs as int % 86400);
    let mut s = days_to_date(days);
    push_char(&mut s, 'T');
    push_dec_padded(&mut s, (rem / 3600) as u64, 2);
    push_char(&mut s, ':');
    push_dec_padded(&mut s, ((rem % 3600) / 60) as u64, 2);
    push_char(&mut s, ':');
    push_dec_padded(&mut s, (rem % 60) as u64, 2);
    push_char(&mut s, 'Z');
    assert(s@ =~= epoch_stamp(secs as int));
    s
}

/// Whole days from `from` to `to` (negative when `to` comes first); `None` if
/// either stamp is unreadable.
pub fn days_between(from: &str, to: &str) -> (r: Option<i64>)
    ensures
        r matches Some(v) ==> date_to_days_spec(to.spec_bytes()) is Some && date_to_days_spec(
            from.spec_bytes(),
        ) is Some && v == date_to_days_spec(to.spec_bytes())->0 - date_to_days_spec(
            from.spec_bytes(),
        )->0,
        r is None ==> date_to_days_spec(to.spec_bytes()) is None || date_to_days_spec(
            from.spec_bytes(),
        ) is None,
{
    let t = match date_to_days(to) {
        Some(v) => v,
        None => return None,
    };
    let f = match date_to_days(from) {
        Some(v) => v,
        None => return None,
    };
    Some(t - f)
}

// ── the stamp reads back ─────────────────────────────────────────────────────

/// A run of `'0'` characters is worth nothing.
proof fn lemma_zero_run(z: Seq<char>)
    requires
        forall|i: int| 0 <= i < z.len() ==> z[i] == '0',
    ensures
        all_digits(z),
        digits_value(z) == 0,
    decreases z.len(),
{
    if z.len() > 0 {
        lemma_zero_run(z.drop_last());
    }
}

/// Leading zeros do not change the value of a run of digits.
proof fn lemma_leading_zeros(z: Seq<char>, s: Seq<char>)
    requires
        forall|i: int| 0 <= i < z.len() ==> z[i] == '0',
        all_digits(s),
    ensures
        all_digits(z + s),
        digits_value(z + s) == digits_value(s),
    decreases s.len(),
{
    if s.len() == 0 {
        assert(z + s =~= z);
        lemma_zero_run(z);
    } else {
        let t = s.drop_last();
        assert((z + s).drop_last() =~= z + t);
        lemma_leading_zeros(z, t);
    }
}

/// A number written in decimal and zero-padded to `w` places.
proof fn lemma_padded(n: nat, w: nat)
    ensures
        all_digits(zero_pad(dec(n), w)),
        digits_value(zero_pad(dec(n), w)) == n,
        zero_pad(dec(n), w).len() == if dec(n).len() >= w { dec(n).len() } else { w },
{
    lemma_dec_digits(n);
    if dec(n).len() < w {
        let z = Seq::new((w - dec(n).len()) as nat, |i: int| '0');
        lemma_leading_zeros(z, dec(n));
    }
}

/// A number below `10^k` takes at most `k` digits.
proof fn lemma_dec_len(n: nat, k: nat)
    requires
        1 <= k,
        n < pow10(k),
    ensures
        dec(n).len() <= k,
    decreases n,
{
    if n >= 10 {
        assert(pow10(1) == 10) by {
            reveal_with_fuel(pow10, 2);
        }
        assert(k >= 2);
        let p = pow10((k - 1) as nat);
        assert(n / 10 < p) by (nonlinear_arith)
            requires
                n < 10 * p,
        ;
        lemma_dec_len(n / 10, (k - 1) as nat);
    }
}

/// Digit characters read as bytes keep their value.
proof fn lemma_digit_bytes_of_chars(s: Seq<char>, t: Seq<u8>)
    requires
        s.len() == t.len(),
        all_digits(s),
        forall|i: int| 0 <= i < s.len() ==> t[i] == s[i] as u8,
    ensures
        all_digit_bytes(t),
        digit_bytes_value(t) == digits_value(s),
    decreases s.len(),
{
    assert forall|i: int| 0 <= i < t.len() implies crate::text::is_digit_byte(#[trigger] t[i]) by {
        assert(is_digit(s[i]));
    }
    if s.len() > 0 {
        lemma_digit_bytes_of_chars(s.drop_last(), t.drop_last());
        assert(is_digit(s.last()));
    }
}

/// A two- or four-place field of a stamp parses back to the number written.
proof fn lemma_field_parses(n: nat, w: nat, t: Seq<u8>)
    requires
        1 <= w <= 4,
        n < pow10(w),
        t.len() == w,
        forall|i: int| 0 <= i < w ==> t[i] == zero_pad(dec(n), w)[i] as u8,
    ensures
        parse_i64_spec(t) == Some(n as i64),
        forall|i: int| 0 <= i < w ==> t[i] != 45u8,
{
    lemma_padded(n, w);
    lemma_dec_len(n, w);
    let s = zero_pad(dec(n), w);
    lemma_digit_bytes_of_chars(s, t);
    assert(crate::text::is_digit_byte(t[0]));
    assert forall|i: int| 0 <= i < w implies t[i] != 45u8 by {
        assert(crate::text::is_digit_byte(t[i]));
    }
    lemma_pow10_fits(w, n);
}

proof fn lemma_pow10_fits(w: nat, n: nat)
    requires
        n < pow10(w),
        w <= 4,
    ensures
        n < 10000,
{
    assert(pow10(4) == 10000) by {
        reveal_with_fuel(pow10, 5);
    }
    lemma_pow10_mono(w, 4);
}

/// Whatever the instant, from year 0 through year 9999, the stamp
/// [`stamp_from_epoch_secs`] writes is one [`date_to_days`] reads back as the
/// day that instant falls on.
pub proof fn lemma_stamp_reads_back(secs: int)
    requires
        0 <= civil_from_days_spec(secs / 86400).0 <= 9999,
    ensures
        date_to_days_spec(encode_utf8(epoch_stamp(secs))) == Some(secs / 86400),
{
    let z = secs / 86400;
    let rem = secs % 86400;
    let (y, m, d) = civil_from_days_spec(z);
    lemma_civil_from_days_round_trip(z);
    assert(pow10(2) == 100 && pow10(4) == 10000) by {
        reveal_with_fuel(pow10, 5);
    }
    let ys = zero_pad(dec(y as nat), 4);
    let ms = zero_pad(dec(m as nat), 2);
    let ds = zero_pad(dec(d as nat), 2);
    let hs = zero_pad(dec((rem / 3600) as nat), 2);
    let ns = zero_pad(dec(((rem % 3600) / 60) as nat), 2);
    let ss = zero_pad(dec((rem % 60) as nat), 2);
    lemma_padded(y as nat, 4);
    lemma_padded(m as nat, 2);
    lemma_padded(d as nat, 2);
    lemma_padded((rem / 3600) as nat, 2);
    lemma_padded(((rem % 3600) / 60) as nat, 2);
    lemma_padded((rem % 60) as nat, 2);
    lemma_dec_len(y as nat, 4);
    lemma_dec_len(m as nat, 2);
    lemma_dec_len(d as nat, 2);
    let dt = ys + seq!['-'] + ms + seq!['-'] + ds;
    assert(date_text(y, m, d) == dt);
    assert(dt.len() == 10);
    let c = epoch_stamp(secs);
    assert(c == dt + seq!['T'] + hs + seq![':'] + ns + seq![':'] + ss + seq!['Z']);
    assert(is_ascii_chars(c)) by {
        assert forall|i: int| 0 <= i < c.len() implies '\0' <= #[trigger] c[i] <= '\u{7f}' by {
            if i < 4 {
                assert(is_digit(ys[i]));
            } else if 5 <= i < 7 {
                assert(is_digit(ms[i - 5]));
            } else if 8 <= i < 10 {
                assert(is_digit(ds[i - 8]));
            } else if 11 <= i < 11 + hs.len() {
                assert(is_digit(hs[i - 11]));
            } else if 12 + hs.len() <= i < 12 + hs.len() + ns.len() {
                assert(is_digit(ns[i - 12 - hs.len()]));
            } else if 13 + hs.len() + ns.len() <= i < 13 + hs.len() + ns.len() + ss.len() {
                assert(is_digit(ss[i - 13 - hs.len() - ns.len()]));
            }
        }
    }
    is_ascii_chars_encode_utf8(c);
    let b = encode_utf8(c);
    assert(c[10] == 'T');
    assert(b[10] == 84u8);
    let w = b.take(10);
    assert(date_window(b) == Some(w));
    let yt = w.take(4);
    assert forall|i: int| 0 <= i < 4 implies yt[i] == ys[i] as u8 by {
        assert(c[i] == ys[i]);
    }
    lemma_field_parses(y as nat, 4, yt);
    assert(c[4] == '-');
    lemma_find_byte(w, 45, 4);
    let r1 = w.skip(5);
    let mt = r1.take(2);
    assert forall|i: int| 0 <= i < 2 implies mt[i] == ms[i] as u8 by {
        assert(c[5 + i] == ms[i]);
    }
    lemma_field_parses(m as nat, 2, mt);
    assert(c[7] == '-');
    lemma_find_byte(r1, 45, 2);
    let r2 = r1.skip(3);
    assert(r2.len() == 2);
    assert forall|i: int| 0 <= i < 2 implies r2[i] == ds[i] as u8 by {
        assert(c[8 + i] == ds[i]);
    }
    lemma_field_parses(d as nat, 2, r2);
    lemma_find_byte(r2, 45, 2);
    assert(r2.take(2) =~= r2);
}

/// A bare `YYYY-MM-DD` reads as the same day as any stamp it opens: the
/// first ten bytes of a stamp whose date part ends on a character boundary
/// name the same day as the whole stamp.
pub proof fn lemma_bare_date_reads_the_same(s: Seq<u8>)
    requires
        date_window(s) is Some,
    ensures
        date_to_days_spec(s.take(10)) == date_to_days_spec(s),
{
    assert(s.take(10).take(10) =~= s.take(10));
}

} // verus!
