//! Parsing of ISO-8601 modification timestamps (`YYYY-MM-DDTHH:MM:SS[.fff]Z`)
//! into seconds since the Unix epoch. A timestamp that does not fit the form
//! yields `None`, for which callers substitute the current time.

use vstd::prelude::*;
use vstd::string::StringSliceAdditionalSpecFns;
use crate::bytesutil::{all_digits, digits_val, first_occ, lemma_first_occ, parse_decimal_capped};

verus! {

/// Gregorian leap-year rule: divisible by 4, excluding centuries unless
/// divisible by 400.
pub open spec fn spec_is_leap(y: u64) -> bool {
    (y % 4 == 0 && y % 100 != 0) || y % 400 == 0
}

pub fn is_leap(y: u64) -> (r: bool)
    ensures
        r == spec_is_leap(y),
{
    (y % 4 == 0 && y % 100 != 0) || y % 400 == 0
}

/// Days in the year `y`.
pub open spec fn spec_days_in_year(y: u64) -> u64 {
    if spec_is_leap(y) {
        366
    } else {
        365
    }
}

/// Days between 1970-01-01 and the start of year `y`; zero for years before
/// 1970 (the parser treats such dates as if the epoch year had just begun).
pub open spec fn days_before_year(y: u64) -> int
    decreases y,
{
    if y <= 1970 {
        0
    } else {
        days_before_year((y - 1) as u64) + spec_days_in_year((y - 1) as u64)
    }
}

/// Days in month `m` (1-based) of year `y`.
pub open spec fn spec_days_in_month(y: u64, m: u64) -> u64
    recommends
        1 <= m <= 12,
{
    if m == 1 {
        31
    } else if m == 2 {
        if spec_is_leap(y) {
            29
        } else {
            28
        }
    } else if m == 3 {
        31
    } else if m == 4 {
        30
    } else if m == 5 {
        31
    } else if m == 6 {
        30
    } else if m == 7 {
        31
    } else if m == 8 {
        31
    } else if m == 9 {
        30
    } else if m == 10 {
        31
    } else if m == 11 {
        30
    } else {
        31
    }
}

/// Days between the start of year `y` and the start of its month `m`.
pub open spec fn days_before_month(y: u64, m: u64) -> int
    decreases m,
{
    if m <= 1 {
        0
    } else {
        days_before_month(y, (m - 1) as u64) + spec_days_in_month(y, (m - 1) as u64)
    }
}

/// Seconds since the epoch for a civil date and time.
pub open spec fn spec_epoch_seconds(y: u64, mo: u64, d: u64, h: u64, mi: u64, sec: u64) -> int
    recommends
        1 <= mo <= 12,
        1 <= d,
{
    (days_before_year(y) + days_before_month(y, mo) + d - 1) * 86400 + h * 3600 + mi * 60 + sec
}

/// Whitespace trimmed at both ends of a timestamp.
pub open spec fn is_iso_ws(b: u8) -> bool {
    b == 32 || b == 9 || b == 10 || b == 13
}

pub open spec fn drop_leading_ws(s: Seq<u8>) -> Seq<u8>
    decreases s.len(),
{
    if s.len() > 0 && is_iso_ws(s[0]) {
        drop_leading_ws(s.skip(1))
    } else {
        s
    }
}

pub open spec fn drop_trailing_ws(s: Seq<u8>) -> Seq<u8>
    decreases s.len(),
{
    if s.len() > 0 && is_iso_ws(s.last()) {
        drop_trailing_ws(s.drop_last())
    } else {
        s
    }
}

/// Trailing `Z` suffixes removed.
pub open spec fn drop_trailing_z(s: Seq<u8>) -> Seq<u8>
    decreases s.len(),
{
    if s.len() > 0 && s.last() == 90 {
        drop_trailing_z(s.drop_last())
    } else {
        s
    }
}

/// The timestamp body the parser works on: whitespace trimmed, then trailing
/// `Z` markers removed.
pub open spec fn iso_body(s: Seq<u8>) -> Seq<u8> {
    drop_trailing_z(drop_trailing_ws(drop_leading_ws(s)))
}

/// Split at the only occurrence of `sep`: `None` unless `sep` occurs exactly
/// once.
pub open spec fn split_once_exact(s: Seq<u8>, sep: u8) -> Option<(Seq<u8>, Seq<u8>)> {
    let i = first_occ(s, sep);
    if i < 0 {
        None
    } else {
        let rest = s.skip(i + 1);
        if first_occ(rest, sep) >= 0 {
            None
        } else {
            Some((s.subrange(0, i), rest))
        }
    }
}

/// Split at exactly two occurrences of `sep` into three parts.
pub open spec fn split_three_exact(s: Seq<u8>, sep: u8) -> Option<(Seq<u8>, Seq<u8>, Seq<u8>)> {
    let i = first_occ(s, sep);
    if i < 0 {
        None
    } else {
        let rest = s.skip(i + 1);
        match split_once_exact(rest, sep) {
            Some((a, b)) => Some((s.subrange(0, i), a, b)),
            None => None,
        }
    }
}

/// The prefix of `s` before the first `sep`, or all of `s`.
pub open spec fn take_until(s: Seq<u8>, sep: u8) -> Seq<u8> {
    let i = first_occ(s, sep);
    if i < 0 {
        s
    } else {
        s.subrange(0, i)
    }
}

/// The parsed fields of a well-formed timestamp: exactly one `T`, a
/// three-part date, a three-part time (fractional seconds ignored), every
/// part a digit string, and each field within its civil range (years up to
/// 9999, months 1 to 12, days 1 to 31, hours to 23, minutes and seconds to
/// 59).
pub open spec fn spec_parse_iso_fields(s: Seq<u8>) -> Option<(u64, u64, u64, u64, u64, u64)> {
    let body = iso_body(s);
    match split_once_exact(body, 84) {
        None => None,
        Some((date, time)) => match split_three_exact(date, 45) {
            None => None,
            Some((ys, ms, ds)) => {
                let core = take_until(time, 46);
                match split_three_exact(core, 58) {
                    None => None,
                    Some((hs, mis, ses)) => {
                        if all_digits(ys) && all_digits(ms) && all_digits(ds) && all_digits(hs)
                            && all_digits(mis) && all_digits(ses) && digits_val(ys) <= 9999
                            && 1 <= digits_val(ms) <= 12 && 1 <= digits_val(ds) <= 31 && digits_val(
                            hs,
                        ) <= 23 && digits_val(mis) <= 59 && digits_val(ses) <= 59 {
                            Some(
                                (
                                    digits_val(ys) as u64,
                                    digits_val(ms) as u64,
                                    digits_val(ds) as u64,
                                    digits_val(hs) as u64,
                                    digits_val(mis) as u64,
                                    digits_val(ses) as u64,
                                ),
                            )
                        } else {
                            None
                        }
                    },
                }
            },
        },
    }
}

/// The epoch seconds of a well-formed timestamp.
pub open spec fn spec_parse_iso(s: Seq<u8>) -> Option<u64> {
    match spec_parse_iso_fields(s) {
        None => None,
        Some((y, mo, d, h, mi, sec)) => Some(spec_epoch_seconds(y, mo, d, h, mi, sec) as u64),
    }
}

proof fn lemma_days_before_year_bound(y: u64)
    requires
        y <= 9999,
    ensures
        0 <= days_before_year(y),
        y <= 1970 ==> days_before_year(y) == 0,
        y > 1970 ==> days_before_year(y) <= 366 * (y - 1970),
    decreases y,
{
    if y > 1970 {
        lemma_days_before_year_bound((y - 1) as u64);
    }
}

proof fn lemma_days_before_month_bound(y: u64, m: u64)
    requires
        m <= 13,
    ensures
        0 <= days_before_month(y, m),
        m >= 1 ==> days_before_month(y, m) <= 31 * (m - 1),
    decreases m,
{
    if m > 1 {
        lemma_days_before_month_bound(y, (m - 1) as u64);
    }
}

fn days_in_month_exec(y: u64, m: u64) -> (r: u64)
    requires
        1 <= m <= 12,
    ensures
        r == spec_days_in_month(y, m),
{
    if m == 2 {
        if is_leap(y) {
            29
        } else {
            28
        }
    } else if m == 4 || m == 6 || m == 9 || m == 11 {
        30
    } else {
        31
    }
}

fn days_before_year_exec(y: u64) -> (r: u64)
    requires
        y <= 9999,
    ensures
        r == days_before_year(y),
        r <= 366 * 8029,
{
    let mut total: u64 = 0;
    let mut cur: u64 = 1970;
    while cur < y
        invariant
            1970 <= cur <= if y <= 1970 {
                1970u64
            } else {
                y
            },
            total == days_before_year(cur),
            y <= 9999,
        decreases y - cur,
    {
        proof {
            lemma_days_before_year_bound(cur);
            lemma_days_before_year_bound((cur + 1) as u64);
        }
        if is_leap(cur) {
            total = total + 366;
        } else {
            total = total + 365;
        }
        cur += 1;
    }
    proof {
        lemma_days_before_year_bound(y);
        if y <= 1970 {
            assert(days_before_year(y) == 0);
        }
    }
    total
}

fn days_before_month_exec(y: u64, m: u64) -> (r: u64)
    requires
        1 <= m <= 12,
    ensures
        r == days_before_month(y, m),
        r <= 366,
{
    let mut total: u64 = 0;
    let mut cur: u64 = 1;
    while cur < m
        invariant
            1 <= cur <= m <= 12,
            total == days_before_month(y, cur),
        decreases m - cur,
    {
        proof {
            lemma_days_before_month_bound(y, cur);
            lemma_days_before_month_bound(y, (cur + 1) as u64);
        }
        total = total + days_in_month_exec(y, cur);
        cur += 1;
    }
    proof {
        lemma_days_before_month_bound(y, m);
    }
    total
}

/// Byte-slice split at the only occurrence of `sep`, as `split_once_exact`.
fn split_once_exec<'a>(s: &'a [u8], sep: u8) -> (r: Option<(&'a [u8], &'a [u8])>)
    ensures
        r matches Some((a, b)) ==> split_once_exact(s@, sep) == Some((a@, b@)),
        r is None ==> split_once_exact(s@, sep) is None,
{
    let n = s.len();
    proof {
        lemma_first_occ(s@, sep);
    }
    match crate::bytesutil::find_byte(s, sep) {
        None => None,
        Some(i) => {
            let a = &s[0..i];
            let b = &s[i + 1..n];
            proof {
                assert(b@ =~= s@.skip(i + 1));
                lemma_first_occ(b@, sep);
            }
            match crate::bytesutil::find_byte(b, sep) {
                Some(_) => None,
                None => Some((a, b)),
            }
        },
    }
}

/// Byte-slice split at exactly two occurrences of `sep`.
fn split_three_exec<'a>(s: &'a [u8], sep: u8) -> (r: Option<(&'a [u8], &'a [u8], &'a [u8])>)
    ensures
        r matches Some((a, b, c)) ==> split_three_exact(s@, sep) == Some((a@, b@, c@)),
        r is None ==> split_three_exact(s@, sep) is None,
{
    let n = s.len();
    proof {
        lemma_first_occ(s@, sep);
    }
    match crate::bytesutil::find_byte(s, sep) {
        None => None,
        Some(i) => {
            let a = &s[0..i];
            let rest = &s[i + 1..n];
            proof {
                assert(rest@ =~= s@.skip(i + 1));
            }
            match split_once_exec(rest, sep) {
                None => None,
                Some((b, c)) => Some((a, b, c)),
            }
        },
    }
}

/// Parses an ISO-8601 timestamp into seconds since the Unix epoch; `None`
/// when the string is not of the `YYYY-MM-DDTHH:MM:SS[.fff]Z` form, in which
/// case the caller substitutes the current time.
pub fn parse_iso_to_systemtime(iso: &str) -> (r: Option<u64>)
    ensures
        r == spec_parse_iso(iso.spec_bytes()),
{
    let bytes = iso.as_bytes();
    let n = bytes.len();

    // trim whitespace at both ends
    let mut start: usize = 0;
    proof {
        assert(bytes@.skip(0) =~= bytes@);
    }
    while start < n && (bytes[start] == 32 || bytes[start] == 9 || bytes[start] == 10
        || bytes[start] == 13)
        invariant
            0 <= start <= n,
            n == bytes@.len(),
            drop_leading_ws(bytes@) == drop_leading_ws(bytes@.skip(start as int)),
        decreases n - start,
    {
        proof {
            assert(bytes@.skip(start as int).skip(1) =~= bytes@.skip(start + 1));
        }
        start += 1;
    }
    let ghost led = bytes@.skip(start as int);
    proof {
        assert(drop_leading_ws(bytes@) == led);
    }
    let mut end: usize = n;
    proof {
        assert(bytes@.skip(start as int).subrange(0, n - start) =~= bytes@.skip(start as int));
    }
    while end > start && (bytes[end - 1] == 32 || bytes[end - 1] == 9 || bytes[end - 1] == 10
        || bytes[end - 1] == 13)
        invariant
            start <= end <= n,
            n == bytes@.len(),
            drop_trailing_ws(led) == drop_trailing_ws(bytes@.skip(start as int).subrange(
                0,
                end - start,
            )),
            led == bytes@.skip(start as int),
        decreases end,
    {
        proof {
            assert(led.subrange(0, end - start)[end - 1 - start] == bytes@[end - 1]);
            assert(led.subrange(0, end - start).drop_last() =~= led.subrange(0, end - 1 - start));
        }
        end -= 1;
    }
    let ghost trimmed = led.subrange(0, (end - start) as int);
    proof {
        assert(led.subrange(0, led.len() as int) =~= led);
        if end > start {
            assert(trimmed[(end - start - 1) as int] == bytes@[end - 1]);
        }
        assert(drop_trailing_ws(led) == trimmed);
    }

    // strip trailing Z markers
    let mut zend: usize = end;
    proof {
        assert(trimmed.subrange(0, (end - start) as int) =~= trimmed);
    }
    while zend > start && bytes[zend - 1] == 90
        invariant
            start <= zend <= end <= n,
            n == bytes@.len(),
            drop_trailing_z(trimmed) == drop_trailing_z(trimmed.subrange(0, zend - start)),
            trimmed == led.subrange(0, (end - start) as int),
            led == bytes@.skip(start as int),
        decreases zend,
    {
        proof {
            assert(trimmed.subrange(0, zend - start)[(zend - start - 1) as int] == bytes@[zend
                - 1]);
            assert(trimmed.subrange(0, zend - start).drop_last() =~= trimmed.subrange(
                0,
                zend - 1 - start,
            ));
        }
        zend -= 1;
    }
    let body = &bytes[start..zend];
    proof {
        assert(trimmed.subrange(0, trimmed.len() as int) =~= trimmed);
        assert(body@ =~= trimmed.subrange(0, zend - start));
        if zend > start {
            assert(body@[(zend - start - 1) as int] == bytes@[zend - 1]);
        }
        assert(iso_body(bytes@) == body@);
    }

    // date and time, separated by exactly one 'T'
    let (date, time) = match split_once_exec(body, 84) {
        Some(p) => p,
        None => {
            return None;
        },
    };
    let (ys, ms, ds) = match split_three_exec(date, 45) {
        Some(p) => p,
        None => {
            return None;
        },
    };
    // ignore fractional seconds
    let core = match crate::bytesutil::find_byte(time, 46) {
        Some(i) => {
            proof {
                lemma_first_occ(time@, 46);
            }
            &time[0..i]
        },
        None => time,
    };
    let (hs, mis, ses) = match split_three_exec(core, 58) {
        Some(p) => p,
        None => {
            return None;
        },
    };

    let y = match parse_decimal_capped(ys, 9999) {
        Some(v) => v,
        None => {
            return None;
        },
    };
    let mo = match parse_decimal_capped(ms, 12) {
        Some(v) => v,
        None => {
            return None;
        },
    };
    let d = match parse_decimal_capped(ds, 31) {
        Some(v) => v,
        None => {
            return None;
        },
    };
    let h = match parse_decimal_capped(hs, 23) {
        Some(v) => v,
        None => {
            return None;
        },
    };
    let mi = match parse_decimal_capped(mis, 59) {
        Some(v) => v,
        None => {
            return None;
        },
    };
    let sec = match parse_decimal_capped(ses, 59) {
        Some(v) => v,
        None => {
            return None;
        },
    };
    if mo < 1 || d < 1 {
        return None;
    }

    let days = days_before_year_exec(y) + days_before_month_exec(y, mo) + (d - 1);
    let total = days * 86400 + h * 3600 + mi * 60 + sec;
    Some(total)
}

} // verus!
