//! wireproxy's `/metrics` text and the statistics WirePort derives from it.

use vstd::prelude::*;
use crate::clock::{spec_rfc3339, utc_rfc3339};
use crate::text::{
    chars_eq_str, chars_of, find_char, fold_lines, lemma_fold_lines_step, next_index_of,
    parse_signed, parse_signed_span, parse_unsigned, parse_unsigned_span, trim, trim_span,
};

verus! {

/// The counters wireproxy reports.
#[derive(Clone, Copy, Debug, PartialEq, Eq)]
pub struct ProxyMetrics {
    pub tx_bytes: u64,
    pub rx_bytes: u64,
    pub last_handshake_sec: i64,
    pub last_handshake_nsec: i32,
}

pub open spec fn u64_or_zero(s: Seq<char>) -> u64 {
    match parse_unsigned(s, u64::MAX as nat) {
        Some(v) => v as u64,
        None => 0,
    }
}

pub open spec fn i64_or_zero(s: Seq<char>) -> i64 {
    match parse_signed(s, 0x8000_0000_0000_0000, 0x7fff_ffff_ffff_ffff) {
        Some(v) => v as i64,
        None => 0,
    }
}

pub open spec fn i32_or_zero(s: Seq<char>) -> i32 {
    match parse_signed(s, 0x8000_0000, 0x7fff_ffff) {
        Some(v) => v as i32,
        None => 0,
    }
}

/// One `key = value` line of the metrics text; a value that does not parse
/// counts as zero, unknown keys and lines without `=` are ignored.
pub open spec fn metrics_line(st: ProxyMetrics, line: Seq<char>) -> ProxyMetrics {
    match find_char(line, '=') {
        Some(i) => {
            let key = trim(line.take(i));
            let val = trim(line.skip(i + 1));
            if key == "tx_bytes"@ {
                ProxyMetrics { tx_bytes: u64_or_zero(val), ..st }
            } else if key == "rx_bytes"@ {
                ProxyMetrics { rx_bytes: u64_or_zero(val), ..st }
            } else if key == "last_handshake_time_sec"@ {
                ProxyMetrics { last_handshake_sec: i64_or_zero(val), ..st }
            } else if key == "last_handshake_time_nsec"@ {
                ProxyMetrics { last_handshake_nsec: i32_or_zero(val), ..st }
            } else {
                st
            }
        },
        None => st,
    }
}

pub open spec fn metrics_line_fn() -> spec_fn(ProxyMetrics, Seq<char>) -> ProxyMetrics {
    |st: ProxyMetrics, l: Seq<char>| metrics_line(st, l)
}

pub open spec fn metrics_of(body: Seq<char>) -> ProxyMetrics {
    fold_lines(
        ProxyMetrics { tx_bytes: 0, rx_bytes: 0, last_handshake_sec: 0, last_handshake_nsec: 0 },
        body,
        metrics_line_fn(),
    )
}

fn metrics_scan_line(v: &Vec<char>, lo: usize, hi: usize, st: &mut ProxyMetrics)
    requires
        lo <= hi <= v.len(),
    ensures
        *final(st) == metrics_line(*old(st), v@.subrange(lo as int, hi as int)),
{
    let ghost line = v@.subrange(lo as int, hi as int);
    let e = next_index_of(v, lo, hi, '=');
    if e == hi {
        return;
    }
    assert(line.take(e - lo) =~= v@.subrange(lo as int, e as int));
    assert(line.skip(e - lo + 1) =~= v@.subrange(e + 1, hi as int));
    let (ka, kb) = trim_span(v, lo, e);
    let (va, vb) = trim_span(v, e + 1, hi);
    let key = crate::text::copy_span(v, ka, kb);
    if chars_eq_str(&key, "tx_bytes") {
        st.tx_bytes = match parse_unsigned_span(v, va, vb, u64::MAX) {
            Some(x) => x,
            None => 0,
        };
    } else if chars_eq_str(&key, "rx_bytes") {
        st.rx_bytes = match parse_unsigned_span(v, va, vb, u64::MAX) {
            Some(x) => x,
            None => 0,
        };
    } else if chars_eq_str(&key, "last_handshake_time_sec") {
        st.last_handshake_sec = match parse_signed_span(v, va, vb, 0x8000_0000_0000_0000, 0x7fff_ffff_ffff_ffff) {
            Some(x) => x as i64,
            None => 0,
        };
    } else if chars_eq_str(&key, "last_handshake_time_nsec") {
        st.last_handshake_nsec = match parse_signed_span(v, va, vb, 0x8000_0000, 0x7fff_ffff) {
            Some(x) => x as i32,
            None => 0,
        };
    }
}

/// Reads wireproxy's metrics text: byte counters and the last handshake time.
pub fn parse_metrics(body: &str) -> (m: ProxyMetrics)
    ensures
        m == metrics_of(body@),
{
    let v = chars_of(body);
    let mut st = ProxyMetrics { tx_bytes: 0, rx_bytes: 0, last_handshake_sec: 0, last_handshake_nsec: 0 };
    assert(v@.skip(0) =~= v@);
    let mut pos: usize = 0;
    loop
        invariant_except_break
            metrics_of(v@) == fold_lines(st, v@.skip(pos as int), metrics_line_fn()),
        invariant
            pos <= v.len(),
        ensures
            metrics_of(v@) == st,
        decreases v.len() - pos,
    {
        let e = next_index_of(&v, pos, v.len(), '\n');
        let ghost before = st;
        metrics_scan_line(&v, pos, e, &mut st);
        proof {
            lemma_fold_lines_step(before, v@, pos as int, e as int, metrics_line_fn());
        }
        if e == v.len() {
            break;
        }
        pos = e + 1;
    }
    st
}

/// Byte counters seen at the previous poll of a running profile.
#[derive(Clone, Copy, Debug, PartialEq, Eq)]
pub struct StatsBaseline {
    pub last_tx_bytes: u64,
    pub last_rx_bytes: u64,
}

/// Traffic since the previous poll (counters that went backwards count as none).
pub fn usage_deltas(prev: StatsBaseline, tx_bytes: u64, rx_bytes: u64) -> (r: (u64, u64))
    ensures
        r.0 == (if tx_bytes >= prev.last_tx_bytes { (tx_bytes - prev.last_tx_bytes) as u64 } else { 0 }),
        r.1 == (if rx_bytes >= prev.last_rx_bytes { (rx_bytes - prev.last_rx_bytes) as u64 } else { 0 }),
{
    (tx_bytes.saturating_sub(prev.last_tx_bytes), rx_bytes.saturating_sub(prev.last_rx_bytes))
}

/// Statistics of a profile's proxy as shown in the dashboard.
#[derive(Clone, Debug)]
pub struct ProxyStats {
    pub status: String,
    pub uploaded_bytes_total: u64,
    pub downloaded_bytes_total: u64,
    pub upload_speed_bytes_per_sec: u64,
    pub download_speed_bytes_per_sec: u64,
    pub last_handshake: String,
    pub last_handshake_age_secs: Option<u64>,
    pub connected_for_secs: u64,
}

/// Statistics of a profile whose proxy is not running: all counters zero and
/// no handshake.
pub fn idle_stats(status: &str) -> (s: ProxyStats)
    ensures
        s.status@ == status@,
        s.uploaded_bytes_total == 0,
        s.downloaded_bytes_total == 0,
        s.upload_speed_bytes_per_sec == 0,
        s.download_speed_bytes_per_sec == 0,
        s.last_handshake@ == "Never"@,
        s.last_handshake_age_secs is None,
        s.connected_for_secs == 0,
{
    ProxyStats {
        status: status.to_owned(),
        uploaded_bytes_total: 0,
        downloaded_bytes_total: 0,
        upload_speed_bytes_per_sec: 0,
        download_speed_bytes_per_sec: 0,
        last_handshake: "Never".to_owned(),
        last_handshake_age_secs: None,
        connected_for_secs: 0,
    }
}

/// The last handshake as RFC 3339 text, or `Never` when there was none
/// (second zero) or chrono rejects the instant.
pub fn handshake_label(sec: i64, nsec: i32) -> (r: String)
    ensures
        r@ == (if sec == 0 {
            "Never"@
        } else {
            match spec_rfc3339(sec, nsec as u32) {
                Some(t) => t,
                None => "Never"@,
            }
        }),
{
    if sec == 0 {
        return "Never".to_owned();
    }
    match utc_rfc3339(sec, nsec as u32) {
        Some(t) => t,
        None => "Never".to_owned(),
    }
}

/// Seconds since the last handshake (`None` when there was none).
pub fn handshake_age(sec: i64, now_unix: u64) -> (r: Option<u64>)
    ensures
        r == (if sec == 0 {
            None
        } else if now_unix >= (sec as u64) {
            Some((now_unix - (sec as u64)) as u64)
        } else {
            Some(0u64)
        }),
{
    if sec == 0 {
        None
    } else {
        Some(now_unix.saturating_sub(sec as u64))
    }
}

} // verus!
