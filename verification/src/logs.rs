//! Log lines of the wireproxy process: level classification, prefix
//! stripping, worker-start aggregation and the per-profile log buffers.

use std::collections::VecDeque;
use vstd::prelude::*;
use crate::clock::{is_local_time_text, local_time_now};
use crate::text::{
    chars_eq_str, chars_of, contains, ends_with, lead_len, next_index_of, spec_lowercase,
    spec_uppercase, starts_with, str_contains, utf8_len, utf8_len_span, lowercase_span,
    uppercase_span, span_starts_with, span_ends_with, decimal, push_decimal, push_str,
    string_from_chars, string_views, text_lines, text_lines_of,
};

verus! {

// ---------------------------------------------------------------------------
// Level of a stderr line
// ---------------------------------------------------------------------------

/// The level of a stderr line, given the line in lowercase: `ERROR` when it
/// mentions an error, a fatal condition, a panic, a failure, "unable" or
/// "cannot"; else `WARN` when it mentions a warning; else `DEBUG`.
pub open spec fn stderr_level(lower: Seq<char>) -> Seq<char> {
    if contains(lower, "error"@) || contains(lower, "fatal"@) || contains(lower, "panic"@)
        || contains(lower, "failed"@) || contains(lower, "unable"@) || contains(lower, "cannot"@) {
        "ERROR"@
    } else if contains(lower, "warn"@) || contains(lower, "warning"@) {
        "WARN"@
    } else {
        "DEBUG"@
    }
}

/// The level of a stderr line whose lowercase form is `lower`.
pub fn stderr_level_of(lower: &Vec<char>) -> (r: &'static str)
    ensures
        r@ == stderr_level(lower@),
{
    if str_contains(lower, "error") || str_contains(lower, "fatal") || str_contains(lower, "panic")
        || str_contains(lower, "failed") || str_contains(lower, "unable") || str_contains(
        lower,
        "cannot",
    ) {
        "ERROR"
    } else if str_contains(lower, "warn") || str_contains(lower, "warning") {
        "WARN"
    } else {
        "DEBUG"
    }
}

/// The level of a wireproxy stderr line (case-insensitive keyword match).
pub fn classify_stderr_line(line: &str) -> (r: &'static str)
    ensures
        r@ == stderr_level(spec_lowercase(line@)),
{
    let v = chars_of(line);
    let lower = lowercase_span(&v, 0, v.len());
    assert(v@.subrange(0, v@.len() as int) =~= v@);
    stderr_level_of(&lower)
}

// ---------------------------------------------------------------------------
// wireproxy's own prefix: `LEVEL: YYYY/MM/DD HH:MM:SS message`
// ---------------------------------------------------------------------------

pub open spec fn is_level_tag(u: Seq<char>) -> bool {
    u == "DEBUG:"@ || u == "INFO:"@ || u == "WARN:"@ || u == "ERROR:"@
}

/// Ten bytes with `/` as the fifth and eighth characters.
pub open spec fn is_date_shaped(d: Seq<char>) -> bool {
    utf8_len(d) == 10 && d.len() > 7 && d[4] == '/' && d[7] == '/'
}

/// Eight bytes with `:` as the third and sixth characters.
pub open spec fn is_time_shaped(t: Seq<char>) -> bool {
    utf8_len(t) == 8 && t.len() > 5 && t[2] == ':' && t[5] == ':'
}

/// The line without wireproxy's prefix: when the line splits at its first
/// three spaces into a level tag (compared in uppercase), a date, a time and
/// a rest, the rest; otherwise the whole line.
pub open spec fn stripped_message(line: Seq<char>) -> Seq<char> {
    let i1 = lead_len(line, ' ') as int;
    let r1 = line.skip(i1 + 1);
    let i2 = lead_len(r1, ' ') as int;
    let r2 = r1.skip(i2 + 1);
    let i3 = lead_len(r2, ' ') as int;
    if i1 < line.len() && i2 < r1.len() && i3 < r2.len() && is_level_tag(
        spec_uppercase(line.take(i1)),
    ) && is_date_shaped(r1.take(i2)) && is_time_shaped(r2.take(i3)) {
        r2.skip(i3 + 1)
    } else {
        line
    }
}

fn is_level_tag_exec(u: &Vec<char>) -> (b: bool)
    ensures
        b == is_level_tag(u@),
{
    chars_eq_str(u, "DEBUG:") || chars_eq_str(u, "INFO:") || chars_eq_str(u, "WARN:")
        || chars_eq_str(u, "ERROR:")
}

/// Removes wireproxy's `LEVEL: date time ` prefix from a log line.
#[verifier::rlimit(40)]
pub fn strip_wireproxy_prefix(line: &str) -> (r: &str)
    ensures
        r@ == stripped_message(line@),
{
    let v = chars_of(line);
    let n = v.len();
    let i1 = next_index_of(&v, 0, n, ' ');
    assert(v@.subrange(0, n as int) =~= v@);
    if i1 == n {
        return line;
    }
    let i2 = next_index_of(&v, i1 + 1, n, ' ');
    assert(v@.subrange(i1 + 1, n as int) =~= v@.skip(i1 + 1));
    if i2 == n {
        return line;
    }
    let i3 = next_index_of(&v, i2 + 1, n, ' ');
    let ghost r1 = v@.skip(i1 + 1);
    assert(v@.subrange(i2 + 1, n as int) =~= r1.skip(i2 - i1));
    if i3 == n {
        return line;
    }
    let ghost r2 = r1.skip(i2 - i1);
    assert(r1.take(i2 - i1 - 1) =~= v@.subrange(i1 + 1, i2 as int));
    assert(r2.take(i3 - i2 - 1) =~= v@.subrange(i2 + 1, i3 as int));
    assert(v@.take(i1 as int) =~= v@.subrange(0, i1 as int));
    let lvl = uppercase_span(&v, 0, i1);
    let level_ok = is_level_tag_exec(&lvl);
    let date_ok = utf8_len_span(&v, i1 + 1, i2) == 10 && i2 - i1 - 1 > 7 && v[i1 + 5] == '/'
        && v[i1 + 8] == '/';
    let time_ok = utf8_len_span(&v, i2 + 1, i3) == 8 && i3 - i2 - 1 > 5 && v[i2 + 3] == ':'
        && v[i2 + 6] == ':';
    if level_ok && date_ok && time_ok {
        assert(r2.skip(i3 - i2) =~= v@.subrange(i3 + 1, n as int));
        line.substring_char(i3 + 1, n)
    } else {
        line
    }
}

// ---------------------------------------------------------------------------
// Worker start lines
// ---------------------------------------------------------------------------

/// Kind of WireGuard worker routine whose start wireproxy reports.
#[derive(Clone, Copy, Debug, PartialEq, Eq)]
pub enum WorkerType {
    Encryption,
    Decryption,
    Handshake,
}

/// The worker a `Routine: ... - started` message reports, if any.
pub open spec fn worker_type_of(m: Seq<char>) -> Option<WorkerType> {
    if !starts_with(m, "Routine: "@) || !ends_with(m, " - started"@) {
        None
    } else if contains(m, " encryption worker "@) {
        Some(WorkerType::Encryption)
    } else if contains(m, " decryption worker "@) {
        Some(WorkerType::Decryption)
    } else if contains(m, " handshake worker "@) {
        Some(WorkerType::Handshake)
    } else {
        None
    }
}

/// Recognises the start message of an encryption, decryption or handshake worker.
pub fn parse_worker_log(message: &str) -> (r: Option<WorkerType>)
    ensures
        r == worker_type_of(message@),
{
    let v = chars_of(message);
    let n = v.len();
    assert(v@.subrange(0, n as int) =~= v@);
    let p1 = chars_of("Routine: ");
    let p2 = chars_of(" - started");
    if !span_starts_with(&v, 0, n, &p1) || !span_ends_with(&v, 0, n, &p2) {
        return None;
    }
    if str_contains(&v, " encryption worker ") {
        Some(WorkerType::Encryption)
    } else if str_contains(&v, " decryption worker ") {
        Some(WorkerType::Decryption)
    } else if str_contains(&v, " handshake worker ") {
        Some(WorkerType::Handshake)
    } else {
        None
    }
}


// ---------------------------------------------------------------------------
// Log entries and per-profile buffers
// ---------------------------------------------------------------------------

/// One line of a profile's log.
#[derive(Clone, Debug)]
pub struct LogEntry {
    pub timestamp: String,
    pub level: String,
    pub message: String,
}

/// The text of a log entry.
pub struct LogLine {
    pub timestamp: Seq<char>,
    pub level: Seq<char>,
    pub message: Seq<char>,
}

pub open spec fn line_of(e: LogEntry) -> LogLine {
    LogLine { timestamp: e.timestamp@, level: e.level@, message: e.message@ }
}

pub open spec fn lines_of(es: Seq<LogEntry>) -> Seq<LogLine> {
    es.map_values(|e: LogEntry| line_of(e))
}

impl LogEntry {
    /// A copy of the entry.
    pub fn duplicate(&self) -> (r: LogEntry)
        ensures
            line_of(r) == line_of(*self),
    {
        LogEntry {
            timestamp: self.timestamp.clone(),
            level: self.level.clone(),
            message: self.message.clone(),
        }
    }
}

/// How many workers of each kind a profile's wireproxy has reported started.
#[derive(Clone, Copy, Debug, PartialEq, Eq)]
pub struct WorkerStartupCount {
    pub encryption: usize,
    pub decryption: usize,
    pub handshake: usize,
}

impl Default for WorkerStartupCount {
    fn default() -> (r: Self)
        ensures
            r == (WorkerStartupCount { encryption: 0, decryption: 0, handshake: 0 }),
    {
        WorkerStartupCount { encryption: 0, decryption: 0, handshake: 0 }
    }
}

/// Most entries kept per profile; the oldest go first.
pub open spec fn log_capacity() -> nat {
    1000
}

/// How many of the most recent entries are searched for the worker summary.
pub open spec fn summary_lookback() -> nat {
    10
}

pub open spec fn summary_prefix() -> Seq<char> {
    "WireGuard workers initialized:"@
}

/// `es` with `e` appended, dropping the oldest entry beyond the capacity.
pub open spec fn push_capped(es: Seq<LogLine>, e: LogLine) -> Seq<LogLine> {
    let n = es.push(e);
    if n.len() > log_capacity() {
        n.drop_first()
    } else {
        n
    }
}

/// Index of the most recent worker summary among the last `summary_lookback()`
/// entries, searching from the `i`-th most recent on.
pub open spec fn summary_index_from(es: Seq<LogLine>, i: nat) -> Option<int>
    decreases summary_lookback() - i,
{
    let lookback = if es.len() > summary_lookback() { summary_lookback() } else { es.len() };
    if i >= lookback {
        None
    } else if starts_with(es[es.len() - 1 - i].message, summary_prefix()) {
        Some(es.len() - 1 - i)
    } else {
        summary_index_from(es, i + 1)
    }
}

pub open spec fn summary_index(es: Seq<LogLine>) -> Option<int> {
    summary_index_from(es, 0)
}

/// The worker summary message for the given counts.
pub open spec fn workers_message(c: WorkerStartupCount) -> Seq<char> {
    "WireGuard workers initialized: "@ + decimal(c.encryption as nat) + " encryption, "@ + decimal(
        c.decryption as nat,
    ) + " decryption, "@ + decimal(c.handshake as nat) + " handshake"@
}

/// `c` with one more worker of kind `w`.
pub open spec fn bumped(c: WorkerStartupCount, w: WorkerType) -> WorkerStartupCount {
    match w {
        WorkerType::Encryption => WorkerStartupCount { encryption: (c.encryption + 1) as usize, ..c },
        WorkerType::Decryption => WorkerStartupCount { decryption: (c.decryption + 1) as usize, ..c },
        WorkerType::Handshake => WorkerStartupCount { handshake: (c.handshake + 1) as usize, ..c },
    }
}

/// The entries after a worker summary with `msg` at time `ts`: it replaces the
/// most recent summary among the last entries, or is appended.
pub open spec fn with_summary(es: Seq<LogLine>, msg: Seq<char>, ts: Seq<char>) -> Seq<LogLine> {
    let e = LogLine { timestamp: ts, level: "DEBUG"@, message: msg };
    match summary_index(es) {
        Some(i) => es.update(i, e),
        None => push_capped(es, e),
    }
}

/// A profile's entries and worker counts after logging `message` at `level`
/// and time `ts`. The message loses wireproxy's prefix; a worker start message
/// bumps the counts and becomes (or refreshes) the worker summary; any other
/// message is appended.
pub open spec fn after_append(
    es: Seq<LogLine>,
    c: WorkerStartupCount,
    level: Seq<char>,
    message: Seq<char>,
    ts: Seq<char>,
) -> (Seq<LogLine>, WorkerStartupCount) {
    let clean = stripped_message(message);
    match worker_type_of(clean) {
        Some(w) => (with_summary(es, workers_message(bumped(c, w)), ts), bumped(c, w)),
        None => (push_capped(es, LogLine { timestamp: ts, level: level, message: clean }), c),
    }
}

/// The count of workers of kind `w`.
pub open spec fn count_of(c: WorkerStartupCount, w: WorkerType) -> int {
    match w {
        WorkerType::Encryption => c.encryption as int,
        WorkerType::Decryption => c.decryption as int,
        WorkerType::Handshake => c.handshake as int,
    }
}

/// Logging `message` can count the worker it reports, if any, without the
/// count passing the largest `usize`.
pub open spec fn can_log(c: WorkerStartupCount, message: Seq<char>) -> bool {
    match worker_type_of(stripped_message(message)) {
        Some(w) => count_of(c, w) < usize::MAX,
        None => true,
    }
}

struct ProfileLog {
    profile_id: String,
    entries: VecDeque<LogEntry>,
}

struct ProfileWorkers {
    profile_id: String,
    counts: WorkerStartupCount,
}

/// Logs and worker counts of every profile.
pub struct LogBook {
    logs: Vec<ProfileLog>,
    workers: Vec<ProfileWorkers>,
}

/// The value stored under the first occurrence of `id`, if any.
pub open spec fn first_value<T>(s: Seq<(Seq<char>, T)>, id: Seq<char>) -> Option<T>
    decreases s.len(),
{
    if s.len() == 0 {
        None
    } else if s[0].0 == id {
        Some(s[0].1)
    } else {
        first_value(s.drop_first(), id)
    }
}

/// `first_value` is the value at the first index holding `id`.
pub proof fn lemma_first_value<T>(s: Seq<(Seq<char>, T)>, id: Seq<char>, i: int)
    requires
        0 <= i <= s.len(),
        forall|j: int| 0 <= j < i ==> s[j].0 != id,
        i < s.len() ==> s[i].0 == id,
    ensures
        first_value(s, id) == if i < s.len() {
            Some(s[i].1)
        } else {
            None
        },
    decreases i,
{
    if i > 0 {
        lemma_first_value(s.drop_first(), id, i - 1);
    }
}

/// Index of the first occurrence of `id` (the length when there is none).
pub open spec fn first_index<T>(s: Seq<(Seq<char>, T)>, id: Seq<char>) -> int
    decreases s.len(),
{
    if s.len() == 0 || s[0].0 == id {
        0
    } else {
        1 + first_index(s.drop_first(), id)
    }
}

pub proof fn lemma_first_index<T>(s: Seq<(Seq<char>, T)>, id: Seq<char>)
    ensures
        0 <= first_index(s, id) <= s.len(),
        forall|j: int| 0 <= j < first_index(s, id) ==> s[j].0 != id,
        first_index(s, id) < s.len() ==> s[first_index(s, id)].0 == id,
    decreases s.len(),
{
    if s.len() > 0 && s[0].0 != id {
        lemma_first_index(s.drop_first(), id);
        assert forall|j: int| 0 <= j < first_index(s, id) implies s[j].0 != id by {
            if j > 0 {
                assert(s[j] == s.drop_first()[j - 1]);
            }
        }
    }
}

/// Replacing the value at the first occurrence of `id` changes what `id`
/// looks up and nothing else.
pub proof fn lemma_first_value_update<T>(s: Seq<(Seq<char>, T)>, id: Seq<char>, i: int, x: T, other: Seq<char>)
    requires
        0 <= i < s.len(),
        forall|j: int| 0 <= j < i ==> s[j].0 != id,
        s[i].0 == id,
    ensures
        first_value(s.update(i, (id, x)), other) == if other == id {
            Some(x)
        } else {
            first_value(s, other)
        },
{
    let t = s.update(i, (id, x));
    if other == id {
        lemma_first_value(t, id, i);
    } else {
        lemma_first_index(s, other);
        let k = first_index(s, other);
        lemma_first_value(s, other, k);
        assert forall|j: int| 0 <= j < k implies t[j].0 != other by {
            if j != i {
                assert(t[j] == s[j]);
            }
        }
        if k < s.len() {
            assert(t[k] == s[k]);
        }
        lemma_first_value(t, other, k);
    }
}

/// Appending `id` when it is absent changes what `id` looks up and nothing else.
pub proof fn lemma_first_value_push<T>(s: Seq<(Seq<char>, T)>, id: Seq<char>, x: T, other: Seq<char>)
    requires
        forall|j: int| 0 <= j < s.len() ==> s[j].0 != id,
    ensures
        first_value(s.push((id, x)), other) == if other == id {
            Some(x)
        } else {
            first_value(s, other)
        },
{
    let t = s.push((id, x));
    if other == id {
        lemma_first_value(t, id, s.len() as int);
    } else {
        lemma_first_index(s, other);
        let k = first_index(s, other);
        lemma_first_value(s, other, k);
        assert forall|j: int| 0 <= j < k implies t[j].0 != other by {
            assert(t[j] == s[j]);
        }
        if k < s.len() {
            assert(t[k] == s[k]);
            lemma_first_value(t, other, k);
        } else {
            assert(t[k].0 == id);
            lemma_first_value(t, other, k + 1);
        }
    }
}

impl LogBook {
    spec fn log_pairs(&self) -> Seq<(Seq<char>, Seq<LogLine>)> {
        self.logs@.map_values(|p: ProfileLog| (p.profile_id@, lines_of(p.entries@)))
    }

    spec fn worker_pairs(&self) -> Seq<(Seq<char>, WorkerStartupCount)> {
        self.workers@.map_values(|p: ProfileWorkers| (p.profile_id@, p.counts))
    }

    /// The log of profile `id` (empty when it has none).
    pub closed spec fn log_of(&self, id: Seq<char>) -> Seq<LogLine> {
        match first_value(self.log_pairs(), id) {
            Some(l) => l,
            None => Seq::empty(),
        }
    }

    /// The worker counts of profile `id` (zero when it has none).
    pub closed spec fn counts_of(&self, id: Seq<char>) -> WorkerStartupCount {
        match first_value(self.worker_pairs(), id) {
            Some(c) => c,
            None => WorkerStartupCount { encryption: 0, decryption: 0, handshake: 0 },
        }
    }

    /// An empty log book.
    pub fn new() -> (r: Self)
        ensures
            forall|id: Seq<char>| #[trigger] r.log_of(id) == Seq::<LogLine>::empty(),
            forall|id: Seq<char>| #[trigger] r.counts_of(id) == (WorkerStartupCount { encryption: 0, decryption: 0, handshake: 0 }),
    {
        let r = LogBook { logs: Vec::new(), workers: Vec::new() };
        assert(r.log_pairs() =~= Seq::<(Seq<char>, Seq<LogLine>)>::empty());
        assert(r.worker_pairs() =~= Seq::<(Seq<char>, WorkerStartupCount)>::empty());
        r
    }

    /// Index of profile `id` among the logs (the count when absent).
    fn log_index(&self, id: &String) -> (i: usize)
        ensures
            i <= self.log_pairs().len(),
            forall|j: int| 0 <= j < i ==> self.log_pairs()[j].0 != id@,
            i < self.log_pairs().len() ==> self.log_pairs()[i as int].0 == id@,
    {
        let mut i: usize = 0;
        while i < self.logs.len()
            invariant
                i <= self.logs@.len(),
                self.log_pairs().len() == self.logs@.len(),
                forall|j: int| 0 <= j < i ==> self.log_pairs()[j].0 != id@,
            decreases self.logs@.len() - i,
        {
            if self.logs[i].profile_id == *id {
                return i;
            }
            i = i + 1;
        }
        i
    }

    /// Index of profile `id` among the worker counts (the count when absent).
    fn workers_index(&self, id: &String) -> (i: usize)
        ensures
            i <= self.worker_pairs().len(),
            forall|j: int| 0 <= j < i ==> self.worker_pairs()[j].0 != id@,
            i < self.worker_pairs().len() ==> self.worker_pairs()[i as int].0 == id@,
    {
        let mut i: usize = 0;
        while i < self.workers.len()
            invariant
                i <= self.workers@.len(),
                self.worker_pairs().len() == self.workers@.len(),
                forall|j: int| 0 <= j < i ==> self.worker_pairs()[j].0 != id@,
            decreases self.workers@.len() - i,
        {
            if self.workers[i].profile_id == *id {
                return i;
            }
            i = i + 1;
        }
        i
    }

    /// The worker counts of profile `id`.
    pub fn worker_counts(&self, id: &String) -> (c: WorkerStartupCount)
        ensures
            c == self.counts_of(id@),
    {
        let i = self.workers_index(id);
        proof {
            lemma_first_value(self.worker_pairs(), id@, i as int);
        }
        if i < self.workers.len() {
            self.workers[i].counts
        } else {
            WorkerStartupCount { encryption: 0, decryption: 0, handshake: 0 }
        }
    }

    /// Sets the worker counts of profile `id`.
    pub fn set_worker_counts(&mut self, id: &String, c: WorkerStartupCount)
        ensures
            final(self).counts_of(id@) == c,
            forall|other: Seq<char>| other != id@ ==> #[trigger] final(self).counts_of(other) == old(self).counts_of(other),
            forall|other: Seq<char>| #[trigger] final(self).log_of(other) == old(self).log_of(other),
    {
        let i = self.workers_index(id);
        let ghost s = self.worker_pairs();
        if i < self.workers.len() {
            self.workers.set(i, ProfileWorkers { profile_id: id.clone(), counts: c });
            assert(self.worker_pairs() =~= s.update(i as int, (id@, c)));
            proof {
                assert forall|other: Seq<char>| #[trigger] first_value(self.worker_pairs(), other) == if other == id@ { Some(c) } else { first_value(s, other) } by {
                    lemma_first_value_update(s, id@, i as int, c, other);
                }
            }
        } else {
            self.workers.push(ProfileWorkers { profile_id: id.clone(), counts: c });
            assert(self.worker_pairs() =~= s.push((id@, c)));
            proof {
                assert forall|other: Seq<char>| #[trigger] first_value(self.worker_pairs(), other) == if other == id@ { Some(c) } else { first_value(s, other) } by {
                    lemma_first_value_push(s, id@, c, other);
                }
            }
        }
        assert(self.counts_of(id@) == c);
    }

    /// A copy of the log of profile `id`, oldest first.
    pub fn profile_logs(&self, id: &String) -> (r: Vec<LogEntry>)
        ensures
            lines_of(r@) == self.log_of(id@),
    {
        let i = self.log_index(id);
        proof {
            lemma_first_value(self.log_pairs(), id@, i as int);
        }
        let mut r: Vec<LogEntry> = Vec::new();
        if i < self.logs.len() {
            let es = &self.logs[i].entries;
            let mut j: usize = 0;
            while j < es.len()
                invariant
                    j <= es@.len(),
                    lines_of(r@) == lines_of(es@).take(j as int),
                decreases es@.len() - j,
            {
                let e = es[j].duplicate();
                assert(line_of(e) == line_of(es@[j as int]));
                let ghost before = r@;
                r.push(e);
                assert(r@ == before.push(e));
                assert(lines_of(r@) =~= lines_of(before).push(line_of(e)));
                assert(lines_of(es@)[j as int] == line_of(es@[j as int]));
                assert(lines_of(es@).take(j + 1) =~= lines_of(es@).take(j as int).push(lines_of(es@)[j as int]));
                j = j + 1;
            }
            assert(lines_of(es@).take(j as int) =~= lines_of(es@));
        } else {
            assert(lines_of(r@) =~= Seq::<LogLine>::empty());
        }
        r
    }

    /// Replaces the log of profile `id`.
    fn put_log(&mut self, id: &String, entries: VecDeque<LogEntry>)
        ensures
            final(self).log_of(id@) == lines_of(entries@),
            forall|other: Seq<char>| other != id@ ==> #[trigger] final(self).log_of(other) == old(self).log_of(other),
            forall|other: Seq<char>| #[trigger] final(self).counts_of(other) == old(self).counts_of(other),
    {
        let i = self.log_index(id);
        let ghost s = self.log_pairs();
        let ghost l = lines_of(entries@);
        if i < self.logs.len() {
            self.logs.set(i, ProfileLog { profile_id: id.clone(), entries });
            assert(self.log_pairs() =~= s.update(i as int, (id@, l)));
            proof {
                assert forall|other: Seq<char>| #[trigger] first_value(self.log_pairs(), other) == if other == id@ { Some(l) } else { first_value(s, other) } by {
                    lemma_first_value_update(s, id@, i as int, l, other);
                }
            }
        } else {
            self.logs.push(ProfileLog { profile_id: id.clone(), entries });
            assert(self.log_pairs() =~= s.push((id@, l)));
            proof {
                assert forall|other: Seq<char>| #[trigger] first_value(self.log_pairs(), other) == if other == id@ { Some(l) } else { first_value(s, other) } by {
                    lemma_first_value_push(s, id@, l, other);
                }
            }
        }
        assert(self.log_of(id@) == l);
    }

    /// Takes the log of profile `id` out (leaving it empty).
    fn take_log(&mut self, id: &String) -> (r: VecDeque<LogEntry>)
        ensures
            lines_of(r@) == old(self).log_of(id@),
            final(self).log_of(id@) == Seq::<LogLine>::empty(),
            forall|other: Seq<char>| other != id@ ==> #[trigger] final(self).log_of(other) == old(self).log_of(other),
            forall|other: Seq<char>| #[trigger] final(self).counts_of(other) == old(self).counts_of(other),
    {
        let i = self.log_index(id);
        proof {
            lemma_first_value(self.log_pairs(), id@, i as int);
        }
        if i < self.logs.len() {
            let p = self.logs.remove(i);
            let empty: VecDeque<LogEntry> = VecDeque::new();
            assert(lines_of(empty@) =~= Seq::<LogLine>::empty());
            self.logs.insert(i, ProfileLog { profile_id: p.profile_id, entries: empty });
            proof {
                let s = old(self).log_pairs();
                let e: Seq<LogLine> = Seq::empty();
                assert(self.log_pairs() =~= s.update(i as int, (id@, e)));
                assert forall|other: Seq<char>| #[trigger] first_value(self.log_pairs(), other) == if other == id@ { Some(e) } else { first_value(s, other) } by {
                    lemma_first_value_update(s, id@, i as int, e, other);
                }
            }
            p.entries
        } else {
            let r = VecDeque::new();
            assert(lines_of(r@) =~= Seq::<LogLine>::empty());
            r
        }
    }

    /// Empties the log of profile `id`.
    pub fn clear_profile_logs(&mut self, id: &String)
        ensures
            final(self).log_of(id@) == Seq::<LogLine>::empty(),
            forall|other: Seq<char>| other != id@ ==> #[trigger] final(self).log_of(other) == old(self).log_of(other),
            forall|other: Seq<char>| #[trigger] final(self).counts_of(other) == old(self).counts_of(other),
    {
        let _ = self.take_log(id);
    }

    /// Empties every profile's log (worker counts stay).
    pub fn clear_all_logs(&mut self)
        ensures
            forall|id: Seq<char>| #[trigger] final(self).log_of(id) == Seq::<LogLine>::empty(),
            forall|id: Seq<char>| #[trigger] final(self).counts_of(id) == old(self).counts_of(id),
    {
        self.logs.clear();
        assert(self.log_pairs() =~= Seq::<(Seq<char>, Seq<LogLine>)>::empty());
    }
}


/// The worker summary message for the given counts.
pub fn workers_message_text(c: WorkerStartupCount) -> (r: String)
    ensures
        r@ == workers_message(c),
{
    let mut out: Vec<char> = Vec::new();
    push_str(&mut out, "WireGuard workers initialized: ");
    push_decimal(&mut out, c.encryption as u64);
    push_str(&mut out, " encryption, ");
    push_decimal(&mut out, c.decryption as u64);
    push_str(&mut out, " decryption, ");
    push_decimal(&mut out, c.handshake as u64);
    push_str(&mut out, " handshake");
    assert(out@ =~= workers_message(c));
    string_from_chars(&out)
}

/// Index of the most recent worker summary among the last entries.
fn find_summary(es: &VecDeque<LogEntry>) -> (r: Option<usize>)
    ensures
        match r {
            Some(i) => summary_index(lines_of(es@)) == Some(i as int) && i < es@.len(),
            None => summary_index(lines_of(es@)) is None,
        },
{
    let ghost l = lines_of(es@);
    let len = es.len();
    let lookback = if len > 10 { 10 } else { len };
    let prefix = chars_of("WireGuard workers initialized:");
    let mut i: usize = 0;
    while i < lookback
        invariant
            len == es@.len(),
            l == lines_of(es@),
            lookback == (if l.len() > summary_lookback() { summary_lookback() } else { l.len() }),
            i <= lookback,
            prefix@ == summary_prefix(),
            summary_index(l) == summary_index_from(l, i as nat),
        decreases lookback - i,
    {
        let idx = len - 1 - i;
        let m = chars_of(es[idx].message.as_str());
        assert(m@ == l[idx as int].message);
        assert(m@.subrange(0, m@.len() as int) =~= m@);
        if span_starts_with(&m, 0, m.len(), &prefix) {
            return Some(idx);
        }
        i = i + 1;
    }
    None
}

/// Appends `e`, dropping the oldest entry beyond the capacity.
fn push_entry(es: &mut VecDeque<LogEntry>, e: LogEntry)
    ensures
        lines_of(final(es)@) == push_capped(lines_of(old(es)@), line_of(e)),
{
    let ghost before = es@;
    es.push_back(e);
    assert(lines_of(es@) =~= lines_of(before).push(line_of(e)));
    if es.len() > 1000 {
        let _ = es.pop_front();
        assert(lines_of(es@) =~= lines_of(before).push(line_of(e)).drop_first());
    }
}

impl LogBook {
    /// Whether `message` can be logged for profile `id`: a worker it reports
    /// can still be counted.
    pub fn can_log_message(&self, id: &String, message: &str) -> (r: bool)
        ensures
            r == can_log(self.counts_of(id@), message@),
    {
        let c = self.worker_counts(id);
        match parse_worker_log(strip_wireproxy_prefix(message)) {
            Some(WorkerType::Encryption) => c.encryption < usize::MAX,
            Some(WorkerType::Decryption) => c.decryption < usize::MAX,
            Some(WorkerType::Handshake) => c.handshake < usize::MAX,
            None => true,
        }
    }
}

/// Logs `message` at `level` and time `timestamp` in the log of `profile_id`;
/// does nothing when logging is disabled.
pub fn append_log_at(
    book: &mut LogBook,
    disabled: bool,
    profile_id: &String,
    level: &str,
    message: &str,
    timestamp: String,
)
    requires
        !disabled ==> can_log(old(book).counts_of(profile_id@), message@),
    ensures
        disabled ==> forall|id: Seq<char>| #[trigger] final(book).log_of(id) == old(book).log_of(id),
        disabled ==> forall|id: Seq<char>| #[trigger] final(book).counts_of(id) == old(book).counts_of(id),
        !disabled ==> ({
            let r = after_append(
                old(book).log_of(profile_id@),
                old(book).counts_of(profile_id@),
                level@,
                message@,
                timestamp@,
            );
            &&& final(book).log_of(profile_id@) == r.0
            &&& final(book).counts_of(profile_id@) == r.1
        }),
        forall|id: Seq<char>| id != profile_id@ ==> #[trigger] final(book).log_of(id) == old(book).log_of(id),
        forall|id: Seq<char>| id != profile_id@ ==> #[trigger] final(book).counts_of(id) == old(book).counts_of(id),
{
    if disabled {
        return;
    }
    let clean = strip_wireproxy_prefix(message);
    match parse_worker_log(clean) {
        Some(w) => {
            let mut c = book.worker_counts(profile_id);
            match w {
                WorkerType::Encryption => c.encryption = c.encryption + 1,
                WorkerType::Decryption => c.decryption = c.decryption + 1,
                WorkerType::Handshake => c.handshake = c.handshake + 1,
            }
            assert(c == bumped(old(book).counts_of(profile_id@), w));
            book.set_worker_counts(profile_id, c);
            let msg = workers_message_text(c);
            let ghost mid = *book;
            let mut es = book.take_log(profile_id);
            let ghost l = lines_of(es@);
            let e = LogEntry { timestamp, level: "DEBUG".to_owned(), message: msg };
            match find_summary(&es) {
                Some(i) => {
                    let _ = es.remove(i);
                    es.insert(i, e);
                    assert(lines_of(es@) =~= l.update(i as int, line_of(e)));
                },
                None => {
                    push_entry(&mut es, e);
                },
            }
            proof {
                reveal_strlit("DEBUG");
            }
            assert(lines_of(es@) == with_summary(l, workers_message(c), timestamp@));
            book.put_log(profile_id, es);
        },
        None => {
            let mut es = book.take_log(profile_id);
            let e = LogEntry { timestamp, level: level.to_owned(), message: clean.to_owned() };
            push_entry(&mut es, e);
            book.put_log(profile_id, es);
        },
    }
}

/// Logs `message` at `level` in the log of `profile_id`, stamped with the
/// current local date and time; does nothing when logging is disabled.
pub fn append_log(book: &mut LogBook, disabled: bool, profile_id: &String, level: &str, message: &str)
    requires
        !disabled ==> can_log(old(book).counts_of(profile_id@), message@),
    ensures
        disabled ==> forall|id: Seq<char>| #[trigger] final(book).log_of(id) == old(book).log_of(id),
        disabled ==> forall|id: Seq<char>| #[trigger] final(book).counts_of(id) == old(book).counts_of(id),
        !disabled ==> exists|ts: Seq<char>|
            is_local_time_text(ts) && (final(book).log_of(profile_id@), final(book).counts_of(profile_id@)) == #[trigger] after_append(
                old(book).log_of(profile_id@),
                old(book).counts_of(profile_id@),
                level@,
                message@,
                ts,
            ),
        forall|id: Seq<char>| id != profile_id@ ==> #[trigger] final(book).log_of(id) == old(book).log_of(id),
        forall|id: Seq<char>| id != profile_id@ ==> #[trigger] final(book).counts_of(id) == old(book).counts_of(id),
{
    let ts = local_time_now();
    let ghost tsv = ts@;
    append_log_at(book, disabled, profile_id, level, message, ts);
    assert(!disabled ==> (book.log_of(profile_id@), book.counts_of(profile_id@)) == after_append(
        old(book).log_of(profile_id@),
        old(book).counts_of(profile_id@),
        level@,
        message@,
        tsv,
    ));
}

/// A message that does not end like a worker start message never counts as one,
/// with or without wireproxy's prefix.
pub proof fn lemma_not_worker_message(line: Seq<char>)
    requires
        !ends_with(line, " - started"@),
    ensures
        worker_type_of(stripped_message(line)) is None,
{
    let p = " - started"@;
    let m = stripped_message(line);
    let i1 = lead_len(line, ' ') as int;
    let r1 = line.skip(i1 + 1);
    let i2 = lead_len(r1, ' ') as int;
    let r2 = r1.skip(i2 + 1);
    let i3 = lead_len(r2, ' ') as int;
    if m != line {
        let k = i1 + i2 + i3 + 3;
        assert(r2.skip(i3 + 1) =~= line.skip(k));
        if ends_with(m, p) {
            assert(m.skip(m.len() - p.len()) =~= line.skip(line.len() - p.len()));
        }
    }
}

/// The two messages logged when the wireproxy process is found to have exited.
pub proof fn lemma_exit_messages_not_workers(code: Option<i32>)
    ensures
        worker_type_of(stripped_message("Process exited unexpectedly"@)) is None,
        worker_type_of(stripped_message(crate::process::unexpected_exit_text(code))) is None,
{
    reveal_strlit(" - started");
    reveal_strlit("Process exited unexpectedly");
    reveal_strlit(")");
    let a = "Process exited unexpectedly"@;
    let p = " - started"@;
    assert(a.skip(a.len() - p.len())[p.len() - 1] != p[p.len() - 1]);
    lemma_not_worker_message(a);
    let b = crate::process::unexpected_exit_text(code);
    assert(b[b.len() - 1] == ')');
    if b.len() >= p.len() {
        assert(b.skip(b.len() - p.len())[p.len() - 1] == b[b.len() - 1]);
    }
    lemma_not_worker_message(b);
}

/// A profile's entries and counts after the two messages logged when its
/// process exited with `code`, at times `t1` and `t2`.
pub open spec fn after_exit_log(
    es: Seq<LogLine>,
    c: WorkerStartupCount,
    code: Option<i32>,
    t1: Seq<char>,
    t2: Seq<char>,
) -> (Seq<LogLine>, WorkerStartupCount) {
    let a = after_append(es, c, "ERROR"@, "Process exited unexpectedly"@, t1);
    after_append(a.0, a.1, "ERROR"@, crate::process::unexpected_exit_text(code), t2)
}

/// Logs that the process of `profile_id` exited unexpectedly with `code`.
pub fn log_unexpected_exit(book: &mut LogBook, disabled: bool, profile_id: &String, code: Option<i32>)
    ensures
        disabled ==> forall|id: Seq<char>| #[trigger] final(book).log_of(id) == old(book).log_of(id),
        disabled ==> forall|id: Seq<char>| #[trigger] final(book).counts_of(id) == old(book).counts_of(id),
        !disabled ==> exists|t1: Seq<char>, t2: Seq<char>|
            is_local_time_text(t1) && is_local_time_text(t2) && (
                final(book).log_of(profile_id@),
                final(book).counts_of(profile_id@),
            ) == #[trigger] after_exit_log(
                old(book).log_of(profile_id@),
                old(book).counts_of(profile_id@),
                code,
                t1,
                t2,
            ),
        forall|id: Seq<char>| id != profile_id@ ==> #[trigger] final(book).log_of(id) == old(book).log_of(id),
        forall|id: Seq<char>| id != profile_id@ ==> #[trigger] final(book).counts_of(id) == old(book).counts_of(id),
{
    proof {
        lemma_exit_messages_not_workers(code);
    }
    let ghost b0 = *book;
    let t1 = local_time_now();
    append_log_at(book, disabled, profile_id, "ERROR", "Process exited unexpectedly", t1.clone());
    let ghost b1 = *book;
    let msg = crate::process::unexpected_exit_message(code);
    let t2 = local_time_now();
    append_log_at(book, disabled, profile_id, "ERROR", msg.as_str(), t2.clone());
    assert(!disabled ==> (book.log_of(profile_id@), book.counts_of(profile_id@)) == after_exit_log(
        b0.log_of(profile_id@),
        b0.counts_of(profile_id@),
        code,
        t1@,
        t2@,
    ));
}

/// Logs a failed start of `profile_id`: the reason, then that the process
/// exited with an unknown code. Returns the reason.
pub fn fail_start(book: &mut LogBook, disabled: bool, profile_id: &String, message: String) -> (r: String)
    requires
        !disabled ==> can_log(old(book).counts_of(profile_id@), message@),
    ensures
        r@ == message@,
        disabled ==> forall|id: Seq<char>| #[trigger] final(book).log_of(id) == old(book).log_of(id),
        disabled ==> forall|id: Seq<char>| #[trigger] final(book).counts_of(id) == old(book).counts_of(id),
        !disabled ==> exists|t0: Seq<char>, t1: Seq<char>, t2: Seq<char>|
            is_local_time_text(t0) && is_local_time_text(t1) && is_local_time_text(t2) && (
                final(book).log_of(profile_id@),
                final(book).counts_of(profile_id@),
            ) == #[trigger] after_exit_log(
                after_append(
                    old(book).log_of(profile_id@),
                    old(book).counts_of(profile_id@),
                    "ERROR"@,
                    message@,
                    t0,
                ).0,
                after_append(
                    old(book).log_of(profile_id@),
                    old(book).counts_of(profile_id@),
                    "ERROR"@,
                    message@,
                    t0,
                ).1,
                None,
                t1,
                t2,
            ),
        forall|id: Seq<char>| id != profile_id@ ==> #[trigger] final(book).log_of(id) == old(book).log_of(id),
        forall|id: Seq<char>| id != profile_id@ ==> #[trigger] final(book).counts_of(id) == old(book).counts_of(id),
{
    let ghost b0 = *book;
    let t0 = local_time_now();
    append_log_at(book, disabled, profile_id, "ERROR", message.as_str(), t0.clone());
    let ghost b1 = *book;
    log_unexpected_exit(book, disabled, profile_id, None);
    proof {
        if !disabled {
            let a = after_append(
                b0.log_of(profile_id@),
                b0.counts_of(profile_id@),
                "ERROR"@,
                message@,
                t0@,
            );
            assert(b1.log_of(profile_id@) == a.0 && b1.counts_of(profile_id@) == a.1);
            let (t1, t2) = choose|t1: Seq<char>, t2: Seq<char>|
                is_local_time_text(t1) && is_local_time_text(t2) && (
                    book.log_of(profile_id@),
                    book.counts_of(profile_id@),
                ) == #[trigger] after_exit_log(
                    b1.log_of(profile_id@),
                    b1.counts_of(profile_id@),
                    None,
                    t1,
                    t2,
                );
            assert((book.log_of(profile_id@), book.counts_of(profile_id@)) == after_exit_log(
                a.0,
                a.1,
                None,
                t1,
                t2,
            ));
        }
    }
    message
}

/// A profile's log never grows past its capacity: logging into a log within
/// the capacity leaves it within.
pub proof fn lemma_log_within_capacity(
    es: Seq<LogLine>,
    c: WorkerStartupCount,
    level: Seq<char>,
    message: Seq<char>,
    ts: Seq<char>,
)
    requires
        es.len() <= log_capacity(),
    ensures
        after_append(es, c, level, message, ts).0.len() <= log_capacity(),
{
    lemma_summary_index_in_range(es, 0);
}

/// The worker summary found is one of the entries.
proof fn lemma_summary_index_in_range(es: Seq<LogLine>, i: nat)
    ensures
        summary_index_from(es, i) matches Some(k) ==> 0 <= k < es.len(),
    decreases summary_lookback() - i,
{
    let lookback = if es.len() > summary_lookback() { summary_lookback() } else { es.len() };
    if i < lookback && !starts_with(es[es.len() - 1 - i].message, summary_prefix()) {
        lemma_summary_index_in_range(es, i + 1);
    }
}

/// The level and text of each line a process wrote: its standard output at
/// `INFO`, then its standard error at the level its words call for.
pub open spec fn output_entries(stdout: Seq<char>, stderr: Seq<char>) -> Seq<(Seq<char>, Seq<char>)> {
    text_lines(stdout).map_values(|l: Seq<char>| ("INFO"@, l)) + text_lines(stderr).map_values(
        |l: Seq<char>| (stderr_level(spec_lowercase(l)), l),
    )
}

/// A profile's entries and counts after logging `entries` (level, message) in
/// order, the last at time `ts.last()` and each earlier one at the time before.
pub open spec fn after_entries(
    es: Seq<LogLine>,
    c: WorkerStartupCount,
    entries: Seq<(Seq<char>, Seq<char>)>,
    ts: Seq<Seq<char>>,
) -> (Seq<LogLine>, WorkerStartupCount)
    decreases entries.len(),
{
    if entries.len() == 0 {
        (es, c)
    } else {
        let r = after_entries(es, c, entries.drop_last(), ts.drop_last());
        after_append(r.0, r.1, entries.last().0, entries.last().1, ts.last())
    }
}

/// How many of `entries` (level, message) report a worker of kind `w`.
pub open spec fn workers_in(entries: Seq<(Seq<char>, Seq<char>)>, w: WorkerType) -> int
    decreases entries.len(),
{
    if entries.len() == 0 {
        0
    } else {
        workers_in(entries.drop_last(), w) + if worker_type_of(stripped_message(entries.last().1)) == Some(w) {
            1int
        } else {
            0int
        }
    }
}

/// Every count can take the workers that `entries` report without passing
/// the largest `usize`.
pub open spec fn room_for(c: WorkerStartupCount, entries: Seq<(Seq<char>, Seq<char>)>) -> bool {
    &&& count_of(c, WorkerType::Encryption) + workers_in(entries, WorkerType::Encryption) <= usize::MAX
    &&& count_of(c, WorkerType::Decryption) + workers_in(entries, WorkerType::Decryption) <= usize::MAX
    &&& count_of(c, WorkerType::Handshake) + workers_in(entries, WorkerType::Handshake) <= usize::MAX
}

proof fn lemma_workers_in_prefix(entries: Seq<(Seq<char>, Seq<char>)>, j: int, w: WorkerType)
    requires
        0 <= j <= entries.len(),
    ensures
        0 <= workers_in(entries.take(j), w) <= workers_in(entries, w),
    decreases entries.len(),
{
    if j < entries.len() {
        lemma_workers_in_prefix(entries.drop_last(), j, w);
        assert(entries.drop_last().take(j) =~= entries.take(j));
    } else {
        assert(entries.take(j) =~= entries);
        if entries.len() > 0 {
            lemma_workers_in_prefix(entries.drop_last(), j - 1, w);
            assert(entries.drop_last().take(j - 1) =~= entries.drop_last());
        }
    }
}

proof fn lemma_log_entry_step(
    es: Seq<LogLine>,
    c: WorkerStartupCount,
    entries: Seq<(Seq<char>, Seq<char>)>,
    ts: Seq<Seq<char>>,
    i: int,
    t: Seq<char>,
)
    requires
        0 <= i < entries.len(),
        ts.len() == i,
    ensures
        after_entries(es, c, entries.take(i + 1), ts.push(t)) == ({
            let r = after_entries(es, c, entries.take(i), ts);
            after_append(r.0, r.1, entries[i].0, entries[i].1, t)
        }),
        forall|w: WorkerType| #[trigger] workers_in(entries.take(i + 1), w) == workers_in(entries.take(i), w) + if worker_type_of(
            stripped_message(entries[i].1),
        ) == Some(w) {
            1int
        } else {
            0int
        },
{
    assert(entries.take(i + 1).drop_last() =~= entries.take(i));
    assert(ts.push(t).drop_last() =~= ts);
    assert(entries.take(i + 1).last() == entries[i]);
}

/// Logging a message bumps at most the count of the worker it reports.
proof fn lemma_append_counts(
    es: Seq<LogLine>,
    c: WorkerStartupCount,
    level: Seq<char>,
    message: Seq<char>,
    ts: Seq<char>,
)
    requires
        can_log(c, message),
    ensures
        forall|w: WorkerType| #[trigger] count_of(after_append(es, c, level, message, ts).1, w) == count_of(c, w)
            + if worker_type_of(stripped_message(message)) == Some(w) {
            1int
        } else {
            0int
        },
{
}

/// The entry logged for a line a process wrote on standard error (`true`) or
/// standard output.
pub open spec fn output_entry(line: Seq<char>, from_stderr: bool) -> (Seq<char>, Seq<char>) {
    if from_stderr {
        (stderr_level(spec_lowercase(line)), line)
    } else {
        ("INFO"@, line)
    }
}

/// Logs `lines` as the entries of `entries` from index `offset` on.
fn log_lines(
    book: &mut LogBook,
    profile_id: &String,
    lines: &Vec<String>,
    from_stderr: bool,
    Ghost(entries): Ghost<Seq<(Seq<char>, Seq<char>)>>,
    Ghost(offset): Ghost<int>,
    Ghost(es0): Ghost<Seq<LogLine>>,
    Ghost(c0): Ghost<WorkerStartupCount>,
    Ghost(ts0): Ghost<Seq<Seq<char>>>,
) -> (ts: Ghost<Seq<Seq<char>>>)
    requires
        0 <= offset,
        offset + lines@.len() <= entries.len(),
        forall|j: int| 0 <= j < lines@.len() ==> entries[offset + j] == output_entry(#[trigger] lines@[j]@, from_stderr),
        room_for(c0, entries),
        ts0.len() == offset,
        forall|i: int| 0 <= i < ts0.len() ==> is_local_time_text(#[trigger] ts0[i]),
        (old(book).log_of(profile_id@), old(book).counts_of(profile_id@)) == after_entries(es0, c0, entries.take(offset), ts0),
        forall|w: WorkerType| #[trigger] count_of(old(book).counts_of(profile_id@), w) == count_of(c0, w)
            + workers_in(entries.take(offset), w),
    ensures
        ts@.len() == offset + lines@.len(),
        forall|i: int| 0 <= i < ts@.len() ==> is_local_time_text(#[trigger] ts@[i]),
        (final(book).log_of(profile_id@), final(book).counts_of(profile_id@)) == after_entries(
            es0,
            c0,
            entries.take(offset + lines@.len()),
            ts@,
        ),
        forall|w: WorkerType| #[trigger] count_of(final(book).counts_of(profile_id@), w) == count_of(c0, w)
            + workers_in(entries.take(offset + lines@.len()), w),
        forall|id: Seq<char>| id != profile_id@ ==> #[trigger] final(book).log_of(id) == old(book).log_of(id),
        forall|id: Seq<char>| id != profile_id@ ==> #[trigger] final(book).counts_of(id) == old(book).counts_of(id),
{
    let ghost mut ts = ts0;
    let mut j: usize = 0;
    while j < lines.len()
        invariant
            0 <= offset,
            offset + lines@.len() <= entries.len(),
            forall|j: int| 0 <= j < lines@.len() ==> entries[offset + j] == output_entry(#[trigger] lines@[j]@, from_stderr),
            room_for(c0, entries),
            j <= lines@.len(),
            ts.len() == offset + j,
            forall|i: int| 0 <= i < ts.len() ==> is_local_time_text(#[trigger] ts[i]),
            (book.log_of(profile_id@), book.counts_of(profile_id@)) == after_entries(es0, c0, entries.take(offset + j), ts),
            forall|w: WorkerType| #[trigger] count_of(book.counts_of(profile_id@), w) == count_of(c0, w)
                + workers_in(entries.take(offset + j), w),
            forall|id: Seq<char>| id != profile_id@ ==> #[trigger] book.log_of(id) == old(book).log_of(id),
            forall|id: Seq<char>| id != profile_id@ ==> #[trigger] book.counts_of(id) == old(book).counts_of(id),
        decreases lines@.len() - j,
    {
        let ghost k = offset + j;
        let t = local_time_now();
        let line = lines[j].as_str();
        assert(entries[k] == output_entry(lines@[j as int]@, from_stderr));
        proof {
            lemma_log_entry_step(es0, c0, entries, ts, k, t@);
            match worker_type_of(stripped_message(entries[k].1)) {
                Some(w) => {
                    lemma_workers_in_prefix(entries, k + 1, w);
                },
                None => {},
            }
        }
        if from_stderr {
            let level = classify_stderr_line(line);
            append_log_at(book, false, profile_id, level, line, t.clone());
        } else {
            append_log_at(book, false, profile_id, "INFO", line, t.clone());
        }
        proof {
            let prev = after_entries(es0, c0, entries.take(k), ts);
            lemma_append_counts(prev.0, prev.1, entries[k].0, entries[k].1, t@);
            ts = ts.push(t@);
        }
        j = j + 1;
    }
    Ghost(ts)
}

/// Logs the lines a process wrote before it exited: each line of its standard
/// output at `INFO`, then each line of its standard error at the level its
/// words call for. Does nothing when logging is disabled.
pub fn log_process_output(book: &mut LogBook, disabled: bool, profile_id: &String, stdout: &str, stderr: &str)
    requires
        !disabled ==> room_for(old(book).counts_of(profile_id@), output_entries(stdout@, stderr@)),
    ensures
        disabled ==> forall|id: Seq<char>| #[trigger] final(book).log_of(id) == old(book).log_of(id),
        disabled ==> forall|id: Seq<char>| #[trigger] final(book).counts_of(id) == old(book).counts_of(id),
        !disabled ==> exists|ts: Seq<Seq<char>>|
            ts.len() == output_entries(stdout@, stderr@).len() && (forall|i: int|
                0 <= i < ts.len() ==> is_local_time_text(#[trigger] ts[i])) && (
                final(book).log_of(profile_id@),
                final(book).counts_of(profile_id@),
            ) == #[trigger] after_entries(
                old(book).log_of(profile_id@),
                old(book).counts_of(profile_id@),
                output_entries(stdout@, stderr@),
                ts,
            ),
        forall|id: Seq<char>| id != profile_id@ ==> #[trigger] final(book).log_of(id) == old(book).log_of(id),
        forall|id: Seq<char>| id != profile_id@ ==> #[trigger] final(book).counts_of(id) == old(book).counts_of(id),
{
    if disabled {
        return;
    }
    let out_lines = text_lines_of(stdout);
    let err_lines = text_lines_of(stderr);
    let ghost entries = output_entries(stdout@, stderr@);
    let ghost es0 = old(book).log_of(profile_id@);
    let ghost c0 = old(book).counts_of(profile_id@);
    let ghost n_out = out_lines@.len() as int;
    proof {
        assert(entries.len() == out_lines@.len() + err_lines@.len());
        assert forall|j: int| 0 <= j < out_lines@.len() implies entries[0 + j] == output_entry(
            #[trigger] out_lines@[j]@,
            false,
        ) by {
            assert(string_views(out_lines@)[j] == out_lines@[j]@);
        }
        assert forall|j: int| 0 <= j < err_lines@.len() implies entries[n_out + j] == output_entry(
            #[trigger] err_lines@[j]@,
            true,
        ) by {
            assert(string_views(err_lines@)[j] == err_lines@[j]@);
        }
        assert(entries.take(0) =~= Seq::<(Seq<char>, Seq<char>)>::empty());
    }
    let Ghost(ts1) = log_lines(
        book,
        profile_id,
        &out_lines,
        false,
        Ghost(entries),
        Ghost(0),
        Ghost(es0),
        Ghost(c0),
        Ghost(Seq::empty()),
    );
    let Ghost(ts2) = log_lines(
        book,
        profile_id,
        &err_lines,
        true,
        Ghost(entries),
        Ghost(n_out),
        Ghost(es0),
        Ghost(c0),
        Ghost(ts1),
    );
    assert(entries.take(entries.len() as int) =~= entries);
}

} // verus!
