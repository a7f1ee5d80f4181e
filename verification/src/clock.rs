//! Reading the clock and formatting instants through `chrono`.
//!
//! Instants are whole seconds since the Unix epoch. A local date or time is
//! the UTC one of the instant shifted by the local time zone's offset then in
//! force; the offset depends on the machine's time zone, so it is only known
//! to lie within a day either way.

use vstd::prelude::*;
use crate::text::{all_digits, digits_value};

verus! {

/// Largest instant `chrono` can represent as a whole second:
/// 262142-12-31T23:59:59Z.
pub open spec fn chrono_max_secs() -> int {
    8_210_266_876_799
}

/// Instants at or after the epoch that `chrono` can represent.
pub open spec fn representable_secs(secs: int) -> bool {
    0 <= secs <= chrono_max_secs()
}

/// `chrono::Utc::now().timestamp()`: the current instant. `Utc::now` only
/// returns for clocks between the epoch and chrono's largest date (it panics
/// before the epoch and past that date).
#[verifier::external_body]
pub(crate) fn now_unix_secs() -> (r: i64)
    ensures
        representable_secs(r as int),
{
    chrono::Utc::now().timestamp()
}

/// Largest number of days `chrono::Duration::days` accepts without panicking.
pub open spec fn max_delta_days() -> int {
    106_751_991_167
}

/// A calendar day as chrono's `%Y-%m-%d` writes it: the year (four digits
/// for years 0 to 9999, else a sign and at least four digits), a dash, the
/// month as two digits (01 to 12), a dash, and the day of the month as two
/// digits (01 to 31).
pub open spec fn is_date_key(k: Seq<char>) -> bool {
    let n = k.len() as int;
    let y = k.take(n - 6);
    let m = k.subrange(n - 5, n - 3);
    let d = k.subrange(n - 2, n);
    &&& n >= 10
    &&& k[n - 6] == '-'
    &&& k[n - 3] == '-'
    &&& all_digits(m) && 1 <= digits_value(m) <= 12
    &&& all_digits(d) && 1 <= digits_value(d) <= 31
    &&& (y.len() == 4 && all_digits(y)) || (y.len() >= 5 && (y[0] == '+' || y[0] == '-') && all_digits(
        y.skip(1),
    ))
}

/// Instants that chrono turns into a date and a time: from before the year
/// -250000 up to its largest second.
pub open spec fn in_chrono_range(secs: int) -> bool {
    -8_000_000_000_000 <= secs <= chrono_max_secs()
}

/// An offset of a time zone from UTC in seconds: under one day either way
/// (the bound of chrono's `FixedOffset`).
pub open spec fn is_offset(off: int) -> bool {
    -86_400 < off < 86_400
}

/// `DateTime::from_timestamp(secs, 0)`, `with_timezone(&Local)`,
/// `offset().local_minus_utc()`: the offset from UTC of the local time zone
/// in force at the instant `secs`. Which offset that is depends on the
/// machine's time zone and is left unsaid.
#[verifier::external_body]
pub(crate) fn local_offset_secs(secs: i64) -> (r: Option<i32>)
    ensures
        in_chrono_range(secs as int) ==> r is Some,
        r matches Some(o) ==> is_offset(o as int),
{
    match chrono::DateTime::from_timestamp(secs, 0) {
        Some(t) => Some(t.with_timezone(&chrono::Local).offset().local_minus_utc()),
        None => None,
    }
}

/// Name for `DateTime::from_timestamp(secs, 0)` followed by
/// `format("%Y-%m-%d")`: the UTC calendar day of the instant `secs`.
pub uninterp spec fn spec_utc_date_key(secs: i64) -> Seq<char>;

/// The UTC calendar day of the instant `secs` as `%Y-%m-%d` writes it;
/// `None` for an instant chrono does not accept.
#[verifier::external_body]
pub(crate) fn utc_date_key(secs: i64) -> (r: Option<String>)
    ensures
        in_chrono_range(secs as int) ==> r is Some,
        r matches Some(k) ==> k@ == spec_utc_date_key(secs) && is_date_key(k@),
{
    match chrono::DateTime::from_timestamp(secs, 0) {
        Some(t) => Some(t.format("%Y-%m-%d").to_string()),
        None => None,
    }
}

/// The local calendar day `days` days before the instant `now`, when the
/// local offset in force at that earlier instant is `off`: the UTC day of the
/// instant shifted by the offset, which is the date chrono's local time has.
pub open spec fn local_day_back(now: i64, days: int, off: int) -> Seq<char> {
    spec_utc_date_key((now - 86_400 * days + off) as i64)
}

/// The local calendar day `days` days before the instant `now`
/// (`(now - Duration::days(days)).format("%Y-%m-%d")` in the local time zone).
/// Should the local time pass chrono's largest date, the UTC day is given.
pub fn local_day_key_back(now: i64, days: i64) -> (r: String)
    requires
        in_chrono_range(now as int),
        in_chrono_range(now - 86_400 * days),
    ensures
        is_date_key(r@),
        exists|off: int| is_offset(off) && r@ == #[trigger] local_day_back(now, days as int, off),
{
    let x: i64 = now - 86_400 * days;
    let off = local_offset_secs(x).unwrap();
    let y: i64 = x + off as i64;
    match utc_date_key(y) {
        Some(k) => {
            assert(k@ == local_day_back(now, days as int, off as int));
            k
        },
        None => {
            let k = utc_date_key(x).unwrap();
            assert(k@ == local_day_back(now, days as int, 0));
            k
        },
    }
}

/// The first day of the month of the day `k`.
pub open spec fn month_start(k: Seq<char>) -> Seq<char> {
    k.take(k.len() - 2) + "01"@
}

/// The first day of the month of the day `key` (`with_day(1)`).
pub fn month_start_key(key: &String) -> (r: String)
    requires
        is_date_key(key@),
    ensures
        r@ == month_start(key@),
        is_date_key(r@),
{
    let v = crate::text::chars_of(key.as_str());
    let mut out = crate::text::copy_span(&v, 0, v.len() - 2);
    crate::text::push_str(&mut out, "01");
    proof {
        reveal_strlit("01");
        let r = out@;
        let n = r.len() as int;
        assert(r.take(n - 6) =~= key@.take(n - 6));
        assert(r.subrange(n - 5, n - 3) =~= key@.subrange(n - 5, n - 3));
        assert(r.subrange(n - 2, n) =~= seq!['0', '1']);
        assert(seq!['0', '1'].drop_last() =~= seq!['0']);
        assert(seq!['0'].drop_last() =~= Seq::<char>::empty());
        reveal_with_fuel(digits_value, 3);
        assert(digits_value(seq!['0', '1']) == 1);
        assert(all_digits(seq!['0', '1']));
    }
    crate::text::string_from_chars(&out)
}

/// Two digits whose value lies in `lo..=hi`.
pub open spec fn two_digits_in(s: Seq<char>, lo: int, hi: int) -> bool {
    s.len() == 2 && all_digits(s) && lo <= digits_value(s) <= hi
}

/// A date and time as chrono's `%Y-%m-%d %H:%M:%S` writes it: a date as
/// `is_date_key` describes, a space, and the hour (00 to 23), minute and
/// second (00 to 59) as two digits each, separated by colons.
pub open spec fn is_datetime_text(t: Seq<char>) -> bool {
    let n = t.len() as int;
    &&& n >= 19
    &&& is_date_key(t.take(n - 9))
    &&& t[n - 9] == ' '
    &&& two_digits_in(t.subrange(n - 8, n - 6), 0, 23)
    &&& t[n - 6] == ':'
    &&& two_digits_in(t.subrange(n - 5, n - 3), 0, 59)
    &&& t[n - 3] == ':'
    &&& two_digits_in(t.subrange(n - 2, n), 0, 59)
}

/// Name for `DateTime::from_timestamp(secs, 0)` followed by
/// `format("%Y-%m-%d %H:%M:%S")`: the UTC date and time of the instant `secs`.
pub uninterp spec fn spec_utc_datetime_text(secs: i64) -> Seq<char>;

/// The UTC date and time of the instant `secs` as `%Y-%m-%d %H:%M:%S` writes
/// it; `None` for an instant chrono does not accept.
#[verifier::external_body]
pub(crate) fn utc_datetime_text(secs: i64) -> (r: Option<String>)
    ensures
        in_chrono_range(secs as int) ==> r is Some,
        r matches Some(t) ==> t@ == spec_utc_datetime_text(secs) && is_datetime_text(t@),
{
    match chrono::DateTime::from_timestamp(secs, 0) {
        Some(t) => Some(t.format("%Y-%m-%d %H:%M:%S").to_string()),
        None => None,
    }
}

/// The local date and time at the instant `now` when the local offset then
/// is `off`: the UTC date and time of the instant shifted by the offset.
pub open spec fn local_time(now: i64, off: int) -> Seq<char> {
    spec_utc_datetime_text((now + off) as i64)
}

/// `t` is the local date and time at some reading of the clock.
pub open spec fn is_local_time_text(t: Seq<char>) -> bool {
    exists|now: i64, off: int| representable_secs(now as int) && is_offset(off) && t == #[trigger] local_time(now, off)
}

/// The current local date and time (`Local::now().format("%Y-%m-%d %H:%M:%S")`).
/// Should the local time pass chrono's largest date, the UTC time is given.
pub fn local_time_now() -> (r: String)
    ensures
        is_local_time_text(r@),
        is_datetime_text(r@),
{
    let now = now_unix_secs();
    let off = local_offset_secs(now).unwrap();
    let y: i64 = now + off as i64;
    match utc_datetime_text(y) {
        Some(t) => {
            assert(t@ == local_time(now, off as int));
            t
        },
        None => {
            let t = utc_datetime_text(now).unwrap();
            assert(t@ == local_time(now, 0));
            t
        },
    }
}

/// Name for `DateTime::from_timestamp(secs, nsecs)` followed by
/// `DateTime::to_rfc3339` (UTC, `+00:00` offset, fractional seconds as needed).
pub uninterp spec fn spec_rfc3339(secs: i64, nsecs: u32) -> Option<Seq<char>>;

/// `DateTime::from_timestamp(secs, nsecs)` as RFC 3339 text (`to_rfc3339`);
/// `None` for an instant or nanosecond count chrono does not accept.
#[verifier::external_body]
pub(crate) fn utc_rfc3339(secs: i64, nsecs: u32) -> (r: Option<String>)
    ensures
        match r {
            Some(s) => spec_rfc3339(secs, nsecs) == Some(s@),
            None => spec_rfc3339(secs, nsecs) is None,
        },
{
    match chrono::DateTime::from_timestamp(secs, nsecs) {
        Some(t) => Some(t.to_rfc3339()),
        None => None,
    }
}

/// Name for `DateTime::from_timestamp(secs, 0)` followed by
/// `to_rfc3339_opts(SecondsFormat::Secs, true)` (whole seconds, `Z` suffix).
pub uninterp spec fn spec_rfc3339_z(secs: i64) -> Seq<char>;

/// The instant `secs` as RFC 3339 text with whole seconds and a `Z` suffix.
#[verifier::external_body]
pub(crate) fn utc_rfc3339_z(secs: i64) -> (r: Option<String>)
    ensures
        match r {
            Some(s) => s@ == spec_rfc3339_z(secs),
            None => true,
        },
        representable_secs(secs as int) ==> r is Some,
{
    match chrono::DateTime::from_timestamp(secs, 0) {
        Some(t) => Some(t.to_rfc3339_opts(chrono::SecondsFormat::Secs, true)),
        None => None,
    }
}

/// The current time as RFC 3339 text with whole seconds and a `Z` suffix.
pub fn utc_now_stamp() -> (r: String)
    ensures
        exists|t: i64| representable_secs(t as int) && r@ == #[trigger] spec_rfc3339_z(t),
{
    let now = now_unix_secs();
    utc_rfc3339_z(now).unwrap()
}

/// The current local calendar day, as `%Y-%m-%d` writes it (`YYYY-MM-DD`
/// for years up to 9999).
pub fn today_key() -> (r: String)
    ensures
        is_date_key(r@),
        exists|now: i64, off: int|
            representable_secs(now as int) && is_offset(off) && r@ == #[trigger] local_day_back(now, 0, off),
{
    let now = now_unix_secs();
    local_day_key_back(now, 0)
}

} // verus!
