//! Timestamp normalization: every provider's timestamp becomes epoch
//! milliseconds.
//!
//! A timestamp arrives as an ISO-8601 date-time string, or as a number. A
//! number with a fractional part is seconds; an integer is already
//! milliseconds when it is at least 10^11 (mid-1973 as milliseconds, far
//! beyond the year 5000 as seconds) and seconds otherwise. Anything
//! unparseable yields `None`, never an error.

use vstd::prelude::*;

use crate::json::JsonValue;

verus! {

/// A decimal digit.
pub open spec fn is_digit(c: char) -> bool {
    48 <= c as u32 && c as u32 <= 57
}

/// The value of one decimal digit.
pub open spec fn digit_val(c: char) -> int {
    (c as u32) - 48
}

/// Every character of `s` is a decimal digit.
pub open spec fn all_digits(s: Seq<char>) -> bool {
    forall|i: int| 0 <= i < s.len() ==> is_digit(s[i])
}

/// The value of a run of decimal digits, most significant first.
pub open spec fn digits_val(s: Seq<char>) -> int
    decreases s.len(),
{
    if s.len() == 0 {
        0
    } else {
        digits_val(s.drop_last()) * 10 + digit_val(s.last())
    }
}

/// Ten to the `n`.
pub open spec fn pow10(n: nat) -> int
    decreases n,
{
    if n == 0 {
        1
    } else {
        10 * pow10((n - 1) as nat)
    }
}

/// A digit run's value is bounded by ten to its length.
pub proof fn lemma_digits_val_bound(s: Seq<char>)
    requires
        all_digits(s),
    ensures
        0 <= digits_val(s) < pow10(s.len()),
    decreases s.len(),
{
    if s.len() > 0 {
        assert(all_digits(s.drop_last()));
        lemma_digits_val_bound(s.drop_last());
        assert(0 <= digit_val(s.last()) <= 9);
    }
}

/// The first position at or after `i` that does not hold a digit.
pub open spec fn digit_run_end(s: Seq<char>, i: int) -> int
    decreases s.len() - i,
{
    if 0 <= i < s.len() && is_digit(s[i]) {
        digit_run_end(s, i + 1)
    } else {
        i
    }
}

/// Decides whether one character is a decimal digit.
fn digit_char(c: char) -> (r: bool)
    ensures
        r == is_digit(c),
{
    let u = c as u32;
    48 <= u && u <= 57
}

/// Finds the end of the digit run starting at `from`.
fn scan_digits(s: &str, from: usize) -> (e: usize)
    requires
        from <= s@.len(),
    ensures
        from <= e <= s@.len(),
        e == digit_run_end(s@, from as int),
        forall|k: int| from <= k < e ==> is_digit(s@[k]),
        e < s@.len() ==> !is_digit(s@[e as int]),
{
    let n = s.unicode_len();
    let mut i: usize = from;
    while i < n
        invariant
            from <= i <= n,
            n == s@.len(),
            digit_run_end(s@, from as int) == digit_run_end(s@, i as int),
            forall|k: int| from <= k < i ==> is_digit(s@[k]),
        decreases n - i,
    {
        let c = s.get_char(i);
        if !digit_char(c) {
            return i;
        }
        i = i + 1;
    }
    i
}

/// Reads the value of the digits in `s[start..end]`.
fn parse_digit_run(s: &str, start: usize, end: usize) -> (r: u64)
    requires
        start <= end <= s@.len(),
        end - start <= 18,
        forall|k: int| start <= k < end ==> is_digit(s@[k]),
    ensures
        r == digits_val(s@.subrange(start as int, end as int)),
        r < pow10((end - start) as nat),
{
    let mut acc: u64 = 0;
    let mut i: usize = start;
    proof {
        assert(s@.subrange(start as int, start as int) =~= Seq::<char>::empty());
        lemma_pow10_steps();
    }
    while i < end
        invariant
            start <= i <= end <= s@.len(),
            end - start <= 18,
            forall|k: int| start <= k < end ==> is_digit(s@[k]),
            acc == digits_val(s@.subrange(start as int, i as int)),
            acc < pow10((i - start) as nat),
            pow10(17) == 100_000_000_000_000_000,
            pow10(18) == 1_000_000_000_000_000_000,
        decreases end - i,
    {
        let c = s.get_char(i);
        proof {
            assert(is_digit(s@[i as int]));
            lemma_pow10_mono((i - start) as nat, 17);
            assert(acc < pow10(17));
        }
        let d = (c as u32) - 48;
        acc = acc * 10 + (d as u64);
        proof {
            assert(s@.subrange(start as int, i + 1).drop_last() =~= s@.subrange(
                start as int,
                i as int,
            ));
            assert(s@.subrange(start as int, i + 1).last() == s@[i as int]);
        }
        i = i + 1;
    }
    acc
}

/// Concrete powers of ten, unfolded once for all.
proof fn lemma_pow10_steps()
    ensures
        pow10(2) == 100,
        pow10(3) == 1000,
        pow10(4) == 10_000,
        pow10(11) == 100_000_000_000,
        pow10(15) == 1_000_000_000_000_000,
        pow10(17) == 100_000_000_000_000_000,
        pow10(18) == 1_000_000_000_000_000_000,
{
    assert(pow10(0) == 1);
    assert(pow10(1) == 10);
    assert(pow10(2) == 100);
    assert(pow10(3) == 1000);
    assert(pow10(4) == 10_000);
    assert(pow10(5) == 100_000);
    assert(pow10(6) == 1_000_000);
    assert(pow10(7) == 10_000_000);
    assert(pow10(8) == 100_000_000);
    assert(pow10(9) == 1_000_000_000);
    assert(pow10(10) == 10_000_000_000);
    assert(pow10(11) == 100_000_000_000);
    assert(pow10(12) == 1_000_000_000_000);
    assert(pow10(13) == 10_000_000_000_000);
    assert(pow10(14) == 100_000_000_000_000);
    assert(pow10(15) == 1_000_000_000_000_000);
    assert(pow10(16) == 10_000_000_000_000_000);
    assert(pow10(17) == 100_000_000_000_000_000);
    assert(pow10(18) == 1_000_000_000_000_000_000);
}

/// Powers of ten grow with the exponent.
proof fn lemma_pow10_mono(a: nat, b: nat)
    requires
        a <= b,
    ensures
        pow10(a) <= pow10(b),
        pow10(a) >= 1,
    decreases b,
{
    if a < b {
        lemma_pow10_mono(a, (b - 1) as nat);
    } else if b > 0 {
        lemma_pow10_mono((a - 1) as nat, (b - 1) as nat);
    }
}

/// The year is a leap year in the proleptic Gregorian calendar.
pub open spec fn is_leap(y: int) -> bool {
    y % 4 == 0 && (y % 100 != 0 || y % 400 == 0)
}

/// Days in one month of one year.
pub open spec fn days_in_month(y: int, m: int) -> int {
    if m == 2 {
        if is_leap(y) {
            29
        } else {
            28
        }
    } else if m == 4 || m == 6 || m == 9 || m == 11 {
        30
    } else {
        31
    }
}

/// Days from 1970-01-01 to the given civil date, by the standard
/// era-of-400-years computation.
pub open spec fn days_from_epoch(y: int, m: int, d: int) -> int {
    let yy = if m <= 2 {
        y - 1
    } else {
        y
    };
    let era = yy / 400;
    let yoe = yy % 400;
    let mp = if m > 2 {
        m - 3
    } else {
        m + 9
    };
    let doy = (153 * mp + 2) / 5 + d - 1;
    let doe = yoe * 365 + yoe / 4 - yoe / 100 + doy;
    era * 146097 + doe - 719468
}

/// The structural shape of an ISO-8601 date-time: `YYYY-MM-DDTHH:MM:SS` at
/// the front.
pub open spec fn iso_base_ok(s: Seq<char>) -> bool {
    s.len() >= 19 && s[4] == '-' && s[7] == '-' && s[10] == 'T' && s[13] == ':' && s[16] == ':'
        && all_digits(s.subrange(0, 4)) && all_digits(s.subrange(5, 7)) && all_digits(
        s.subrange(8, 10),
    ) && all_digits(s.subrange(11, 13)) && all_digits(s.subrange(14, 16)) && all_digits(
        s.subrange(17, 19),
    )
}

pub open spec fn year_of(s: Seq<char>) -> int {
    digits_val(s.subrange(0, 4))
}

pub open spec fn month_of(s: Seq<char>) -> int {
    digits_val(s.subrange(5, 7))
}

pub open spec fn day_of(s: Seq<char>) -> int {
    digits_val(s.subrange(8, 10))
}

pub open spec fn hour_of(s: Seq<char>) -> int {
    digits_val(s.subrange(11, 13))
}

pub open spec fn minute_of(s: Seq<char>) -> int {
    digits_val(s.subrange(14, 16))
}

pub open spec fn second_of(s: Seq<char>) -> int {
    digits_val(s.subrange(17, 19))
}

/// The date and time fields lie in their calendar ranges; years before 1970
/// are not accepted.
pub open spec fn iso_fields_ok(s: Seq<char>) -> bool {
    1970 <= year_of(s) <= 9999 && 1 <= month_of(s) <= 12 && 1 <= day_of(s) <= days_in_month(
        year_of(s),
        month_of(s),
    ) && hour_of(s) <= 23 && minute_of(s) <= 59 && second_of(s) <= 59
}

/// Where the time-zone suffix starts: after the fractional seconds when
/// present, else right after the seconds.
pub open spec fn iso_off_start(s: Seq<char>) -> int {
    if s.len() > 19 && s[19] == '.' {
        digit_run_end(s, 20)
    } else {
        19
    }
}

/// The fractional part scaled to milliseconds: the first three fraction
/// digits, padded with zeros on the right.
pub open spec fn iso_frac_ms(s: Seq<char>) -> int {
    if s.len() > 19 && s[19] == '.' {
        let d = s.subrange(20, iso_off_start(s));
        if d.len() >= 3 {
            digits_val(d.take(3))
        } else if d.len() == 2 {
            digits_val(d) * 10
        } else {
            digits_val(d) * 100
        }
    } else {
        0
    }
}

/// The time-zone suffix starting at `p`, in milliseconds east of UTC: empty
/// or `Z` means UTC, otherwise a signed `HH:MM` offset.
pub open spec fn iso_offset_ms(s: Seq<char>, p: int) -> Option<int> {
    if p == s.len() {
        Some(0)
    } else if s[p] == 'Z' && p + 1 == s.len() {
        Some(0)
    } else if (s[p] == '+' || s[p] == '-') && p + 6 == s.len() && is_digit(s[p + 1]) && is_digit(
        s[p + 2],
    ) && s[p + 3] == ':' && is_digit(s[p + 4]) && is_digit(s[p + 5]) {
        let oh = digits_val(s.subrange(p + 1, p + 3));
        let om = digits_val(s.subrange(p + 4, p + 6));
        if oh <= 23 && om <= 59 {
            let v = (oh * 3600 + om * 60) * 1000;
            if s[p] == '-' {
                Some(-v)
            } else {
                Some(v)
            }
        } else {
            None
        }
    } else {
        None
    }
}

/// Epoch milliseconds denoted by an ISO-8601 date-time string, when it has
/// the accepted shape.
pub open spec fn iso_millis(s: Seq<char>) -> Option<i64> {
    if !(iso_base_ok(s) && iso_fields_ok(s)) {
        None
    } else if s.len() > 19 && s[19] == '.' && iso_off_start(s) == 20 {
        None
    } else {
        match iso_offset_ms(s, iso_off_start(s)) {
            None => None,
            Some(off) => Some(
                (((days_from_epoch(year_of(s), month_of(s), day_of(s)) * 86400 + hour_of(s) * 3600
                    + minute_of(s) * 60 + second_of(s)) * 1000 + iso_frac_ms(s)) - off) as i64,
            ),
        }
    }
}

/// Epoch milliseconds denoted by a decimal number literal: an integer is
/// milliseconds when at least 10^11 and seconds otherwise; a literal with a
/// fractional part is seconds, its fraction kept to the millisecond.
pub open spec fn num_millis(lit: Seq<char>) -> Option<i64> {
    let e1 = digit_run_end(lit, 0);
    if e1 < 1 {
        None
    } else {
        let whole = digits_val(lit.subrange(0, e1));
        if e1 == lit.len() {
            if e1 > 18 {
                None
            } else if whole >= 100_000_000_000 {
                Some(whole as i64)
            } else {
                Some((whole * 1000) as i64)
            }
        } else if lit[e1] == '.' {
            let e2 = digit_run_end(lit, e1 + 1);
            if e2 == e1 + 1 || e2 != lit.len() || e1 > 15 {
                None
            } else {
                let d = lit.subrange(e1 + 1, e2);
                let frac = if d.len() >= 3 {
                    digits_val(d.take(3))
                } else if d.len() == 2 {
                    digits_val(d) * 10
                } else {
                    digits_val(d) * 100
                };
                Some((whole * 1000 + frac) as i64)
            }
        } else {
            None
        }
    }
}

/// What a timestamp value denotes: a string is read as ISO-8601, a number by
/// the magnitude convention; any other shape is no timestamp.
pub open spec fn ts_of(v: JsonValue) -> Option<i64> {
    match v {
        JsonValue::Str(s) => iso_millis(s@),
        JsonValue::Num(l) => num_millis(l@),
        _ => None,
    }
}

/// Checks that `s[a..b]` holds only digits.
fn check_digits(s: &str, a: usize, b: usize) -> (r: bool)
    requires
        a <= b <= s@.len(),
    ensures
        r == all_digits(s@.subrange(a as int, b as int)),
        r == (forall|k: int| a <= k < b ==> is_digit(s@[k])),
{
    let mut i: usize = a;
    while i < b
        invariant
            a <= i <= b <= s@.len(),
            forall|k: int| a <= k < i ==> is_digit(s@[k]),
        decreases b - i,
    {
        let c = s.get_char(i);
        if !digit_char(c) {
            assert(!is_digit(s@.subrange(a as int, b as int)[i - a]));
            return false;
        }
        i = i + 1;
    }
    assert forall|k: int| 0 <= k < b - a implies is_digit(
        s@.subrange(a as int, b as int)[k],
    ) by {
        assert(s@.subrange(a as int, b as int)[k] == s@[a + k]);
    }
    true
}

/// Reads the time-zone suffix starting at `p`.
fn parse_offset(s: &str, p: usize) -> (r: Option<i64>)
    requires
        p <= s@.len(),
    ensures
        match r {
            Some(off) => iso_offset_ms(s@, p as int) == Some(off as int) && -86_400_000 <= off
                <= 86_400_000,
            None => iso_offset_ms(s@, p as int) is None,
        },
{
    let n = s.unicode_len();
    if p == n {
        return Some(0);
    }
    let c = s.get_char(p);
    if c == 'Z' && p + 1 == n {
        return Some(0);
    }
    if (c == '+' || c == '-') && n - p == 6 {
        let d1 = digit_char(s.get_char(p + 1));
        let d2 = digit_char(s.get_char(p + 2));
        let colon = s.get_char(p + 3) == ':';
        let d4 = digit_char(s.get_char(p + 4));
        let d5 = digit_char(s.get_char(p + 5));
        if d1 && d2 && colon && d4 && d5 {
            let oh = parse_digit_run(s, p + 1, p + 3);
            let om = parse_digit_run(s, p + 4, p + 6);
            proof {
                lemma_digits_val_bound(s@.subrange(p + 1, p + 3));
                lemma_digits_val_bound(s@.subrange(p + 4, p + 6));
                lemma_pow10_steps();
            }
            if oh <= 23 && om <= 59 {
                let v: i64 = (oh as i64 * 3600 + om as i64 * 60) * 1000;
                if c == '-' {
                    return Some(-v);
                } else {
                    return Some(v);
                }
            } else {
                return None;
            }
        }
        return None;
    }
    None
}

/// Days from the epoch to a civil date, by the era computation; every
/// intermediate is small.
fn civil_days(y: u64, mo: u64, d: u64) -> (days: i64)
    requires
        1970 <= y <= 9999,
        1 <= mo <= 12,
        1 <= d <= 31,
    ensures
        days == days_from_epoch(y as int, mo as int, d as int),
        -719_468 <= days < 4_000_000,
{
    let yy: u64 = if mo <= 2 {
        y - 1
    } else {
        y
    };
    let era: u64 = yy / 400;
    let yoe: u64 = yy % 400;
    let mp: u64 = if mo > 2 {
        mo - 3
    } else {
        mo + 9
    };
    let doy: u64 = (153 * mp + 2) / 5 + d - 1;
    let doe: u64 = yoe * 365 + yoe / 4 - yoe / 100 + doy;
    assert(era <= 24 && yoe <= 399 && doy <= 396 && doe <= 146_130);
    (era * 146097 + doe) as i64 - 719468
}

/// Reads an ISO-8601 date-time string as epoch milliseconds.
#[verifier::rlimit(60)]
pub fn iso_to_millis(s: &str) -> (r: Option<i64>)
    ensures
        r == iso_millis(s@),
{
    let n = s.unicode_len();
    if n < 19 {
        return None;
    }
    if !(s.get_char(4) == '-' && s.get_char(7) == '-' && s.get_char(10) == 'T' && s.get_char(13)
        == ':' && s.get_char(16) == ':') {
        return None;
    }
    if !(check_digits(s, 0, 4) && check_digits(s, 5, 7) && check_digits(s, 8, 10) && check_digits(
        s,
        11,
        13,
    ) && check_digits(s, 14, 16) && check_digits(s, 17, 19)) {
        return None;
    }
    assert(iso_base_ok(s@));
    let y = parse_digit_run(s, 0, 4);
    let mo = parse_digit_run(s, 5, 7);
    let d = parse_digit_run(s, 8, 10);
    let h = parse_digit_run(s, 11, 13);
    let mi = parse_digit_run(s, 14, 16);
    let sec = parse_digit_run(s, 17, 19);
    proof {
        lemma_pow10_steps();
        assert(y == year_of(s@) && mo == month_of(s@) && d == day_of(s@));
        assert(h == hour_of(s@) && mi == minute_of(s@) && sec == second_of(s@));
        lemma_digits_val_bound(s@.subrange(0, 4));
        lemma_digits_val_bound(s@.subrange(5, 7));
        lemma_digits_val_bound(s@.subrange(8, 10));
        lemma_digits_val_bound(s@.subrange(11, 13));
        lemma_digits_val_bound(s@.subrange(14, 16));
        lemma_digits_val_bound(s@.subrange(17, 19));
    }
    let leap = y % 4 == 0 && (y % 100 != 0 || y % 400 == 0);
    let dim: u64 = if mo == 2 {
        if leap {
            29
        } else {
            28
        }
    } else if mo == 4 || mo == 6 || mo == 9 || mo == 11 {
        30
    } else {
        31
    };
    if !(1970 <= y && 1 <= mo && mo <= 12 && 1 <= d && d <= dim && h <= 23 && mi <= 59 && sec
        <= 59) {
        assert(!iso_fields_ok(s@));
        return None;
    }
    assert(iso_fields_ok(s@));

    // Fractional seconds, then the offset position.
    let mut frac: u64 = 0;
    let mut p: usize = 19;
    if n > 19 && s.get_char(19) == '.' {
        let e = scan_digits(s, 20);
        if e == 20 {
            return None;
        }
        let fd = if e - 20 >= 3 {
            parse_digit_run(s, 20, 23)
        } else {
            parse_digit_run(s, 20, e)
        };
        proof {
            let dd = s@.subrange(20, digit_run_end(s@, 20));
            if e - 20 >= 3 {
                assert(s@.subrange(20, 23) =~= dd.take(3));
            } else {
                assert(s@.subrange(20, e as int) =~= dd);
            }
            lemma_digits_val_bound(s@.subrange(20, if e - 20 >= 3 {
                23int
            } else {
                e as int
            }));
            lemma_pow10_steps();
        }
        frac = if e - 20 >= 3 {
            fd
        } else if e - 20 == 2 {
            fd * 10
        } else {
            fd * 100
        };
        assert(frac == iso_frac_ms(s@) && frac < 1000);
        p = e;
    } else {
        assert(iso_frac_ms(s@) == 0);
    }
    assert(p == iso_off_start(s@) && frac == iso_frac_ms(s@) && frac < 1000);

    match parse_offset(s, p) {
        None => None,
        Some(off) => {
            let days = civil_days(y, mo, d);
            let ms: i64 = ((days * 86400 + h as i64 * 3600 + mi as i64 * 60 + sec as i64) * 1000
                + frac as i64) - off;
            Some(ms)
        },
    }
}

/// Reads a decimal number literal as epoch milliseconds by the magnitude
/// convention.
pub fn num_to_millis(lit: &str) -> (r: Option<i64>)
    ensures
        r == num_millis(lit@),
{
    let n = lit.unicode_len();
    let e1 = scan_digits(lit, 0);
    if e1 < 1 {
        return None;
    }
    if e1 == n {
        if e1 > 18 {
            return None;
        }
        let whole = parse_digit_run(lit, 0, e1);
        proof {
            lemma_digits_val_bound(lit@.subrange(0, e1 as int));
            lemma_pow10_steps();
            lemma_pow10_mono((e1 - 0) as nat, 18);
        }
        if whole >= 100_000_000_000 {
            return Some(whole as i64);
        } else {
            return Some((whole * 1000) as i64);
        }
    }
    if lit.get_char(e1) == '.' {
        let e2 = scan_digits(lit, e1 + 1);
        if e2 == e1 + 1 || e2 != n || e1 > 15 {
            return None;
        }
        let whole = parse_digit_run(lit, 0, e1);
        proof {
            lemma_digits_val_bound(lit@.subrange(0, e1 as int));
            lemma_pow10_steps();
            lemma_pow10_mono((e1 - 0) as nat, 15);
        }
        let fd = if e2 - (e1 + 1) >= 3 {
            parse_digit_run(lit, e1 + 1, e1 + 4)
        } else {
            parse_digit_run(lit, e1 + 1, e2)
        };
        proof {
            let dd = lit@.subrange(e1 + 1, digit_run_end(lit@, e1 + 1));
            if e2 - (e1 + 1) >= 3 {
                assert(lit@.subrange(e1 + 1, e1 + 4) =~= dd.take(3));
            } else {
                assert(lit@.subrange(e1 + 1, e2 as int) =~= dd);
            }
            lemma_digits_val_bound(lit@.subrange(e1 + 1, if e2 - (e1 + 1) >= 3 {
                e1 + 4
            } else {
                e2 as int
            }));
            lemma_pow10_steps();
        }
        let frac = if e2 - (e1 + 1) >= 3 {
            fd
        } else if e2 - (e1 + 1) == 2 {
            fd * 10
        } else {
            fd * 100
        };
        return Some((whole * 1000 + frac) as i64);
    }
    None
}

/// The character of one decimal digit value.
pub open spec fn digit_chr(d: int) -> char {
    if d == 0 {
        '0'
    } else if d == 1 {
        '1'
    } else if d == 2 {
        '2'
    } else if d == 3 {
        '3'
    } else if d == 4 {
        '4'
    } else if d == 5 {
        '5'
    } else if d == 6 {
        '6'
    } else if d == 7 {
        '7'
    } else if d == 8 {
        '8'
    } else {
        '9'
    }
}

/// The decimal rendering of a non-negative integer.
pub open spec fn dec_digits(n: int) -> Seq<char>
    decreases n,
{
    if n < 10 {
        seq![digit_chr(n)]
    } else {
        dec_digits(n / 10).push(digit_chr(n % 10))
    }
}

/// A three-digit, zero-padded rendering of a fraction of a second, in
/// milliseconds.
pub open spec fn frac3(f: int) -> Seq<char> {
    seq![digit_chr(f / 100), digit_chr((f / 10) % 10), digit_chr(f % 10)]
}

/// The seconds-with-fraction rendering of an epoch instant.
pub open spec fn seconds_literal(ms: int) -> Seq<char> {
    dec_digits(ms / 1000) + seq!['.'] + frac3(ms % 1000)
}

/// A digit value renders as a digit character of that value.
proof fn lemma_digit_chr(d: int)
    requires
        0 <= d <= 9,
    ensures
        is_digit(digit_chr(d)),
        digit_val(digit_chr(d)) == d,
{
}

/// The decimal rendering reads back as the number it renders.
proof fn lemma_dec_digits(n: int)
    requires
        n >= 0,
    ensures
        all_digits(dec_digits(n)),
        digits_val(dec_digits(n)) == n,
        dec_digits(n).len() >= 1,
    decreases n,
{
    if n < 10 {
        lemma_digit_chr(n);
        let s = dec_digits(n);
        assert(s.len() == 1);
        assert(s.last() == digit_chr(n));
        assert(s.drop_last() =~= Seq::<char>::empty());
        assert(digits_val(Seq::<char>::empty()) == 0);
        assert(digits_val(s) == digits_val(s.drop_last()) * 10 + digit_val(s.last()));
        assert(digits_val(s) == n);
    } else {
        lemma_dec_digits(n / 10);
        lemma_digit_chr(n % 10);
        let s = dec_digits(n / 10);
        let w = s.push(digit_chr(n % 10));
        assert(w.drop_last() =~= s);
        assert(w.last() == digit_chr(n % 10));
        assert(digits_val(w) == n);
        assert forall|i: int| 0 <= i < w.len() implies is_digit(w[i]) by {
            if i < s.len() {
                assert(w[i] == s[i]);
            }
        }
    }
}

/// A number below ten to the `k` renders in at most `k` digits.
proof fn lemma_dec_digits_len(n: int, k: nat)
    requires
        0 <= n < pow10(k),
        k >= 1,
    ensures
        dec_digits(n).len() <= k,
    decreases n,
{
    if n < 10 {
    } else {
        lemma_pow10_mono(1, k);
        if k == 1 {
            assert(pow10(1) == 10 * pow10(0));
            assert(false);
        }
        assert(pow10(k) == 10 * pow10((k - 1) as nat));
        assert(n / 10 < pow10((k - 1) as nat));
        lemma_dec_digits_len(n / 10, (k - 1) as nat);
    }
}

/// A run of digits up to a non-digit (or the end) ends exactly there.
proof fn lemma_run_to(s: Seq<char>, i: int, k: int)
    requires
        0 <= i <= k <= s.len(),
        forall|j: int| i <= j < k ==> is_digit(#[trigger] s[j]),
        k == s.len() || !is_digit(s[k]),
    ensures
        digit_run_end(s, i) == k,
    decreases k - i,
{
    if i < k {
        lemma_run_to(s, i + 1, k);
    }
}

/// One instant, two renderings: the integer-milliseconds literal and the
/// seconds-with-fraction literal of the same epoch instant parse to the same
/// epoch milliseconds. The integer form must be large enough to fall on the
/// milliseconds side of the magnitude convention.
pub proof fn lemma_timestamp_forms_agree(ms: i64)
    requires
        100_000_000_000 <= ms < 1_000_000_000_000_000_000,
    ensures
        num_millis(dec_digits(ms as int)) == Some(ms),
        num_millis(seconds_literal(ms as int)) == Some(ms),
{
    lemma_pow10_steps();
    let m = ms as int;

    // The integer-milliseconds literal.
    let lit = dec_digits(m);
    lemma_dec_digits(m);
    lemma_dec_digits_len(m, 18);
    lemma_run_to(lit, 0, lit.len() as int);
    assert(lit.subrange(0, lit.len() as int) =~= lit);
    assert(num_millis(lit) == Some(ms));

    // The seconds-with-fraction literal.
    let sec = m / 1000;
    let f = m % 1000;
    let a = dec_digits(sec);
    let b = frac3(f);
    let lit2 = seconds_literal(m);
    lemma_dec_digits(sec);
    lemma_dec_digits_len(sec, 15);
    lemma_digit_chr(f / 100);
    lemma_digit_chr((f / 10) % 10);
    lemma_digit_chr(f % 10);
    let al = a.len() as int;
    assert(lit2.len() == al + 4);
    assert forall|j: int| 0 <= j < al implies is_digit(#[trigger] lit2[j]) by {
        assert(lit2[j] == a[j]);
    }
    assert(lit2[al] == '.');
    assert(!is_digit('.'));
    assert forall|j: int| al + 1 <= j < lit2.len() implies is_digit(#[trigger] lit2[j]) by {
        assert(lit2[j] == b[j - (al + 1)]);
    }
    lemma_run_to(lit2, 0, al);
    lemma_run_to(lit2, al + 1, lit2.len() as int);
    assert(lit2.subrange(0, al) =~= a);
    let d = lit2.subrange(al + 1, lit2.len() as int);
    assert(d =~= b);
    assert(d.take(3) =~= b);

    // The three fraction digits read back as the fraction.
    let q1 = f / 10;
    assert(f == 10 * q1 + f % 10);
    assert(q1 == 10 * (q1 / 10) + q1 % 10);
    assert(f / 100 == q1 / 10) by {
        assert(f == 100 * (q1 / 10) + (10 * (q1 % 10) + f % 10));
        assert(0 <= 10 * (q1 % 10) + f % 10 < 100);
    }
    let c0 = digit_chr(f / 100);
    let c1 = digit_chr((f / 10) % 10);
    let c2 = digit_chr(f % 10);
    assert(seq![c0].last() == c0 && seq![c0].drop_last() =~= Seq::<char>::empty());
    assert(digits_val(Seq::<char>::empty()) == 0);
    assert(digits_val(seq![c0]) == digit_val(c0));
    assert(seq![c0, c1].last() == c1 && seq![c0, c1].drop_last() =~= seq![c0]);
    assert(digits_val(seq![c0, c1]) == digit_val(c0) * 10 + digit_val(c1));
    assert(b.last() == c2 && b.drop_last() =~= seq![c0, c1]);
    assert(digits_val(b) == digits_val(seq![c0, c1]) * 10 + digit_val(c2));
    assert(digits_val(b) == ((q1 / 10) * 10 + q1 % 10) * 10 + f % 10);
    assert(digits_val(b) == f);

    assert(m == 1000 * sec + f);
    assert(num_millis(lit2) == Some(ms));
}

/// The fixed-width, zero-padded decimal rendering of `n`.
pub open spec fn padded(n: int, w: nat) -> Seq<char>
    decreases w,
{
    if w == 0 {
        Seq::empty()
    } else {
        padded(n / 10, (w - 1) as nat).push(digit_chr(n % 10))
    }
}

/// A fixed-width rendering is all digits and reads back as its number.
proof fn lemma_padded(n: int, w: nat)
    requires
        0 <= n < pow10(w),
    ensures
        padded(n, w).len() == w,
        all_digits(padded(n, w)),
        digits_val(padded(n, w)) == n,
    decreases w,
{
    if w == 0 {
    } else {
        assert(pow10(w) == 10 * pow10((w - 1) as nat));
        assert(n / 10 < pow10((w - 1) as nat));
        lemma_padded(n / 10, (w - 1) as nat);
        lemma_digit_chr(n % 10);
        let s = padded(n / 10, (w - 1) as nat);
        let p = padded(n, w);
        assert(p.drop_last() =~= s);
        assert(p.last() == digit_chr(n % 10));
        assert(digits_val(p) == (n / 10) * 10 + n % 10);
        assert forall|i: int| 0 <= i < p.len() implies is_digit(p[i]) by {
            if i < s.len() {
                assert(p[i] == s[i]);
            }
        }
    }
}

/// The canonical ISO-8601 rendering of a civil instant, in UTC.
pub open spec fn iso_literal(y: int, mo: int, d: int, h: int, mi: int, sec: int) -> Seq<char> {
    padded(y, 4) + seq!['-'] + padded(mo, 2) + seq!['-'] + padded(d, 2) + seq!['T'] + padded(h, 2)
        + seq![':'] + padded(mi, 2) + seq![':'] + padded(sec, 2) + seq!['Z']
}

/// The canonical rendering of a valid civil instant parses back to exactly
/// that instant's epoch milliseconds.
pub proof fn lemma_iso_literal_parses(y: int, mo: int, d: int, h: int, mi: int, sec: int)
    requires
        1970 <= y <= 9999,
        1 <= mo <= 12,
        1 <= d <= days_in_month(y, mo),
        0 <= h <= 23,
        0 <= mi <= 59,
        0 <= sec <= 59,
    ensures
        iso_millis(iso_literal(y, mo, d, h, mi, sec)) == Some(
            ((days_from_epoch(y, mo, d) * 86400 + h * 3600 + mi * 60 + sec) * 1000) as i64,
        ),
{
    lemma_pow10_steps();
    lemma_padded(y, 4);
    lemma_padded(mo, 2);
    lemma_padded(d, 2);
    lemma_padded(h, 2);
    lemma_padded(mi, 2);
    lemma_padded(sec, 2);
    let s = iso_literal(y, mo, d, h, mi, sec);
    assert(s.len() == 20);
    assert(s.subrange(0, 4) =~= padded(y, 4));
    assert(s[4] == '-');
    assert(s.subrange(5, 7) =~= padded(mo, 2));
    assert(s[7] == '-');
    assert(s.subrange(8, 10) =~= padded(d, 2));
    assert(s[10] == 'T');
    assert(s.subrange(11, 13) =~= padded(h, 2));
    assert(s[13] == ':');
    assert(s.subrange(14, 16) =~= padded(mi, 2));
    assert(s[16] == ':');
    assert(s.subrange(17, 19) =~= padded(sec, 2));
    assert(s[19] == 'Z');
    assert(iso_base_ok(s));
    assert(year_of(s) == y && month_of(s) == mo && day_of(s) == d);
    assert(hour_of(s) == h && minute_of(s) == mi && second_of(s) == sec);
    assert(iso_fields_ok(s));
    assert(iso_off_start(s) == 19);
    assert(iso_frac_ms(s) == 0);
    assert(iso_offset_ms(s, 19) == Some(0int));
}

/// One civil instant, three renderings: its canonical ISO-8601 string, the
/// integer-milliseconds literal of its value, and the seconds-with-fraction
/// literal of its value all parse to the same epoch milliseconds. Years
/// before 1975 are left out: such an instant's millisecond count falls below
/// the magnitude threshold, and its integer rendering would be read as
/// seconds.
pub proof fn lemma_renderings_agree(y: int, mo: int, d: int, h: int, mi: int, sec: int)
    requires
        1975 <= y <= 9999,
        1 <= mo <= 12,
        1 <= d <= days_in_month(y, mo),
        0 <= h <= 23,
        0 <= mi <= 59,
        0 <= sec <= 59,
    ensures
        ({
            let v = (days_from_epoch(y, mo, d) * 86400 + h * 3600 + mi * 60 + sec) * 1000;
            iso_millis(iso_literal(y, mo, d, h, mi, sec)) == Some(v as i64) && num_millis(
                dec_digits(v),
            ) == Some(v as i64) && num_millis(seconds_literal(v)) == Some(v as i64)
        }),
{
    lemma_iso_literal_parses(y, mo, d, h, mi, sec);
    let days = days_from_epoch(y, mo, d);
    let yy = if mo <= 2 {
        y - 1
    } else {
        y
    };
    let era = yy / 400;
    let yoe = yy % 400;
    assert(yy == 400 * era + yoe);
    assert(era * 146097 + yoe * 365 == 365 * yy + 97 * era);
    assert(4 <= era <= 24);
    assert(0 <= yoe <= 399);
    assert(yy >= 1974);
    assert(days >= 1427);
    assert(days < 4_000_000);
    let v = (days * 86400 + h * 3600 + mi * 60 + sec) * 1000;
    assert(100_000_000_000 <= v < 1_000_000_000_000_000_000);
    lemma_timestamp_forms_agree(v as i64);
}

/// One instant, three renderings: an ISO-8601 string the parser accepts, the
/// seconds-with-fraction literal of its value, and the integer-milliseconds
/// literal of its value all parse to that same value. The instant must lie on
/// the milliseconds side of the magnitude convention: for an earlier instant
/// the integer rendering would be read as seconds.
pub proof fn lemma_timestamp_representations_agree(s: Seq<char>, v: i64)
    requires
        iso_millis(s) == Some(v),
        100_000_000_000 <= v < 1_000_000_000_000_000_000,
    ensures
        num_millis(dec_digits(v as int)) == Some(v),
        num_millis(seconds_literal(v as int)) == Some(v),
{
    lemma_timestamp_forms_agree(v);
}

/// Reads a timestamp value as epoch milliseconds.
pub fn parse_timestamp(v: &JsonValue) -> (r: Option<i64>)
    ensures
        r == ts_of(*v),
{
    match v {
        JsonValue::Str(s) => iso_to_millis(s.as_str()),
        JsonValue::Num(l) => num_to_millis(l.as_str()),
        _ => None,
    }
}

} // verus!
