//! Persistent data-usage accounting: bytes per local calendar day, and the
//! today / last 24 hours / week / month / all-time overview.

use vstd::prelude::*;
use crate::clock::{
    in_chrono_range, is_offset, local_day_back, local_day_key_back, max_delta_days, month_start,
    month_start_key, now_unix_secs, representable_secs, spec_rfc3339_z, utc_now_stamp,
};
use crate::text::chars_of;

verus! {

/// One calendar day's accumulated bytes.
#[derive(Clone, Copy, Debug, PartialEq, Eq)]
pub struct UsageDay {
    pub uploaded: u64,
    pub downloaded: u64,
}

impl Default for UsageDay {
    fn default() -> (r: Self)
        ensures
            r == (UsageDay { uploaded: 0, downloaded: 0 }),
    {
        UsageDay { uploaded: 0, downloaded: 0 }
    }
}

// ---------------------------------------------------------------------------
// Order of day keys: the order of `str` (code point by code point).
// ---------------------------------------------------------------------------

/// `a < b` in the order of `str`: lexicographic by code point.
pub open spec fn key_lt(a: Seq<char>, b: Seq<char>) -> bool
    decreases a.len(),
{
    if a.len() == 0 {
        b.len() > 0
    } else if b.len() == 0 {
        false
    } else if a[0] != b[0] {
        a[0] < b[0]
    } else {
        key_lt(a.drop_first(), b.drop_first())
    }
}

pub proof fn lemma_key_lt_irreflexive(a: Seq<char>)
    ensures
        !key_lt(a, a),
    decreases a.len(),
{
    if a.len() > 0 {
        lemma_key_lt_irreflexive(a.drop_first());
    }
}

pub proof fn lemma_key_lt_transitive(a: Seq<char>, b: Seq<char>, c: Seq<char>)
    requires
        key_lt(a, b),
        key_lt(b, c),
    ensures
        key_lt(a, c),
    decreases a.len(),
{
    if a.len() > 0 && b.len() > 0 && c.len() > 0 && a[0] == b[0] && b[0] == c[0] {
        lemma_key_lt_transitive(a.drop_first(), b.drop_first(), c.drop_first());
    }
}

pub proof fn lemma_key_lt_total(a: Seq<char>, b: Seq<char>)
    requires
        a != b,
    ensures
        key_lt(a, b) || key_lt(b, a),
    decreases a.len(),
{
    if a.len() > 0 && b.len() > 0 && a[0] == b[0] {
        if a.drop_first() == b.drop_first() {
            assert(a =~= seq![a[0]] + a.drop_first());
            assert(b =~= seq![b[0]] + b.drop_first());
        }
        lemma_key_lt_total(a.drop_first(), b.drop_first());
    } else if a.len() == 0 && b.len() == 0 {
        assert(a =~= b);
    }
}

/// Result of comparing two day keys.
pub enum KeyOrder {
    Less,
    Equal,
    Greater,
}

proof fn lemma_key_lt_skip_step(a: Seq<char>, b: Seq<char>, i: int)
    requires
        0 <= i < a.len(),
        i < b.len(),
        a[i] == b[i],
    ensures
        key_lt(a.skip(i), b.skip(i)) == key_lt(a.skip(i + 1), b.skip(i + 1)),
{
    assert(a.skip(i).drop_first() =~= a.skip(i + 1));
    assert(b.skip(i).drop_first() =~= b.skip(i + 1));
}

/// Compares two keys in the order of `str`.
pub fn compare_keys(a: &Vec<char>, b: &Vec<char>) -> (r: KeyOrder)
    ensures
        match r {
            KeyOrder::Less => key_lt(a@, b@),
            KeyOrder::Equal => a@ == b@,
            KeyOrder::Greater => key_lt(b@, a@),
        },
{
    let mut i: usize = 0;
    assert(a@.skip(0) =~= a@ && b@.skip(0) =~= b@);
    while i < a.len() && i < b.len() && a[i] == b[i]
        invariant
            i <= a.len(),
            i <= b.len(),
            a@.take(i as int) == b@.take(i as int),
            key_lt(a@, b@) == key_lt(a@.skip(i as int), b@.skip(i as int)),
            key_lt(b@, a@) == key_lt(b@.skip(i as int), a@.skip(i as int)),
        decreases a.len() - i,
    {
        proof {
            lemma_key_lt_skip_step(a@, b@, i as int);
            lemma_key_lt_skip_step(b@, a@, i as int);
            assert(a@.take(i + 1) =~= a@.take(i as int).push(a@[i as int]));
            assert(b@.take(i + 1) =~= b@.take(i as int).push(b@[i as int]));
        }
        i = i + 1;
    }
    if i == a.len() && i == b.len() {
        assert(a@ =~= a@.take(i as int) && b@ =~= b@.take(i as int));
        KeyOrder::Equal
    } else if i == a.len() {
        assert(a@.skip(i as int).len() == 0);
        KeyOrder::Less
    } else if i == b.len() {
        assert(b@.skip(i as int).len() == 0);
        KeyOrder::Greater
    } else {
        assert(a@.skip(i as int)[0] == a@[i as int] && b@.skip(i as int)[0] == b@[i as int]);
        if a[i] < b[i] {
            KeyOrder::Less
        } else {
            KeyOrder::Greater
        }
    }
}

// ---------------------------------------------------------------------------
// Sorted day lists and the maps they stand for.
// ---------------------------------------------------------------------------

/// Keys strictly increase along the list (so each day occurs once).
pub open spec fn keys_sorted(s: Seq<(Seq<char>, UsageDay)>) -> bool {
    forall|i: int, j: int| 0 <= i < j < s.len() ==> key_lt(s[i].0, s[j].0)
}

/// The map from day key to bytes that a day list stands for.
pub open spec fn entries_map(s: Seq<(Seq<char>, UsageDay)>) -> Map<Seq<char>, UsageDay>
    decreases s.len(),
{
    if s.len() == 0 {
        Map::empty()
    } else {
        entries_map(s.drop_last()).insert(s.last().0, s.last().1)
    }
}

pub proof fn lemma_entries_map(s: Seq<(Seq<char>, UsageDay)>)
    requires
        keys_sorted(s),
    ensures
        forall|k: Seq<char>| #[trigger]
            entries_map(s).contains_key(k) <==> exists|i: int| 0 <= i < s.len() && s[i].0 == k,
        forall|i: int| 0 <= i < s.len() ==> #[trigger] entries_map(s)[s[i].0] == s[i].1,
    decreases s.len(),
{
    if s.len() > 0 {
        let t = s.drop_last();
        assert(keys_sorted(t)) by {
            assert forall|i: int, j: int| 0 <= i < j < t.len() implies key_lt(t[i].0, t[j].0) by {
                assert(t[i] == s[i] && t[j] == s[j]);
            }
        }
        lemma_entries_map(t);
        assert forall|k: Seq<char>| #[trigger]
            entries_map(s).contains_key(k) <==> exists|i: int| 0 <= i < s.len() && s[i].0 == k by {
            if entries_map(s).contains_key(k) {
                if k == s.last().0 {
                    assert(s[s.len() - 1].0 == k);
                } else {
                    assert(entries_map(t).contains_key(k));
                    let i = choose|i: int| 0 <= i < t.len() && t[i].0 == k;
                    assert(s[i] == t[i]);
                }
            }
            if exists|i: int| 0 <= i < s.len() && s[i].0 == k {
                let i = choose|i: int| 0 <= i < s.len() && s[i].0 == k;
                if i < s.len() - 1 {
                    assert(t[i].0 == k);
                    assert(entries_map(t).contains_key(k));
                }
            }
        }
        assert forall|i: int| 0 <= i < s.len() implies #[trigger] entries_map(s)[s[i].0] == s[i].1 by {
            if i < s.len() - 1 {
                assert(key_lt(s[i].0, s.last().0));
                lemma_key_lt_irreflexive(s[i].0);
                assert(t[i] == s[i]);
                assert(entries_map(t)[t[i].0] == t[i].1);
            }
        }
    }
}

/// The stored days, with their last persisted update time.
#[derive(Clone, Debug)]
pub struct UsageStore {
    days: Vec<DayEntry>,
    last_updated: Option<String>,
}

#[derive(Clone, Debug)]
struct DayEntry {
    key: String,
    day: UsageDay,
}

spec fn entry_view(e: DayEntry) -> (Seq<char>, UsageDay) {
    (e.key@, e.day)
}

impl UsageStore {
    /// The stored days in increasing key order.
    pub closed spec fn entries(&self) -> Seq<(Seq<char>, UsageDay)> {
        self.days@.map_values(|e: DayEntry| entry_view(e))
    }

    /// When the store was last persisted (RFC 3339), if ever.
    pub closed spec fn stamp(&self) -> Option<String> {
        self.last_updated
    }

    /// When the store was last persisted (RFC 3339), if ever.
    pub fn last_updated(&self) -> (r: Option<String>)
        ensures
            r == self.stamp(),
    {
        match &self.last_updated {
            Some(t) => Some(t.clone()),
            None => None,
        }
    }

    /// Sets the time of the last persisted update.
    pub fn set_last_updated(&mut self, t: Option<String>)
        ensures
            final(self).stamp() == t,
            final(self).entries() == old(self).entries(),
    {
        self.last_updated = t;
    }

    /// Day keys are kept in increasing order.
    pub open spec fn wf(&self) -> bool {
        keys_sorted(self.entries())
    }

    /// The stored bytes by day key.
    pub open spec fn day_map(&self) -> Map<Seq<char>, UsageDay> {
        entries_map(self.entries())
    }

    /// An empty store.
    pub fn new() -> (r: Self)
        ensures
            r.wf(),
            r.entries() == Seq::<(Seq<char>, UsageDay)>::empty(),
            r.day_map() == Map::<Seq<char>, UsageDay>::empty(),
            r.stamp() is None,
    {
        let r = UsageStore { days: Vec::new(), last_updated: None };
        assert(r.entries() =~= Seq::<(Seq<char>, UsageDay)>::empty());
        r
    }

    /// Number of stored days.
    pub fn len(&self) -> (n: usize)
        ensures
            n == self.entries().len(),
    {
        self.days.len()
    }

    /// Whether no day is stored.
    pub fn is_empty(&self) -> (b: bool)
        requires
            self.wf(),
        ensures
            b == (self.day_map() == Map::<Seq<char>, UsageDay>::empty()),
    {
        proof {
            lemma_entries_map(self.entries());
            if self.entries().len() > 0 {
                assert(self.day_map().contains_key(self.entries()[0].0));
            } else {
                assert(self.day_map() =~= Map::<Seq<char>, UsageDay>::empty());
            }
        }
        self.days.len() == 0
    }

    /// The key and bytes of the `i`-th stored day, in increasing key order.
    pub fn entry_at(&self, i: usize) -> (r: (String, UsageDay))
        requires
            i < self.entries().len(),
        ensures
            r.0@ == self.entries()[i as int].0,
            r.1 == self.entries()[i as int].1,
    {
        (self.days[i].key.clone(), self.days[i].day)
    }

    /// Position of `key`: the first index whose key is not below `key`.
    fn position(&self, key: &Vec<char>) -> (r: (usize, bool))
        requires
            self.wf(),
        ensures
            r.0 <= self.entries().len(),
            forall|j: int| 0 <= j < r.0 ==> key_lt(#[trigger] self.entries()[j].0, key@),
            r.1 ==> r.0 < self.entries().len() && self.entries()[r.0 as int].0 == key@,
            !r.1 && r.0 < self.entries().len() ==> key_lt(key@, self.entries()[r.0 as int].0),
    {
        let mut i: usize = 0;
        while i < self.days.len()
            invariant
                i <= self.days@.len(),
                self.entries().len() == self.days@.len(),
                forall|j: int| 0 <= j < i ==> key_lt(#[trigger] self.entries()[j].0, key@),
            decreases self.days@.len() - i,
        {
            let k = chars_of(self.days[i].key.as_str());
            assert(k@ == self.entries()[i as int].0);
            match compare_keys(&k, key) {
                KeyOrder::Less => {},
                KeyOrder::Equal => {
                    return (i, true);
                },
                KeyOrder::Greater => {
                    return (i, false);
                },
            }
            i = i + 1;
        }
        (i, false)
    }

    /// The bytes stored for `key`, if any.
    pub fn day(&self, key: &str) -> (r: Option<UsageDay>)
        requires
            self.wf(),
        ensures
            r == (if self.day_map().contains_key(key@) {
                Some(self.day_map()[key@])
            } else {
                None
            }),
    {
        let k = chars_of(key);
        let (i, found) = self.position(&k);
        proof {
            lemma_entries_map(self.entries());
            if !found {
                assert forall|j: int| 0 <= j < self.entries().len() implies self.entries()[j].0
                    != key@ by {
                    if j < i {
                        lemma_key_lt_irreflexive(key@);
                    } else {
                        if j > i {
                            lemma_key_lt_transitive(key@, self.entries()[i as int].0, self.entries()[j].0);
                        }
                        lemma_key_lt_irreflexive(key@);
                    }
                }
            }
        }
        if found {
            Some(self.days[i].day)
        } else {
            None
        }
    }

    /// Whether a day is stored under `key`.
    pub fn contains_key(&self, key: &str) -> (b: bool)
        requires
            self.wf(),
        ensures
            b == self.day_map().contains_key(key@),
    {
        self.day(key).is_some()
    }

    /// Stores `day` under `key`, replacing what was stored there.
    pub fn insert_day(&mut self, key: String, day: UsageDay)
        requires
            old(self).wf(),
        ensures
            final(self).wf(),
            final(self).day_map() == old(self).day_map().insert(key@, day),
            final(self).stamp() == old(self).stamp(),
    {
        let k = chars_of(key.as_str());
        let (i, found) = self.position(&k);
        let ghost s = self.entries();
        proof {
            lemma_entries_map(s);
        }
        if found {
            self.days.set(i, DayEntry { key, day });
            let ghost s2 = self.entries();
            assert(s2 =~= s.update(i as int, (k@, day)));
            assert(keys_sorted(s2));
            proof {
                lemma_entries_map(s2);
                assert forall|x: Seq<char>| #[trigger]
                    entries_map(s2).contains_key(x) == entries_map(s).insert(k@, day).contains_key(x) by {
                    if exists|j: int| 0 <= j < s.len() && s[j].0 == x {
                        let j = choose|j: int| 0 <= j < s.len() && s[j].0 == x;
                        assert(s2[j].0 == x);
                    }
                    if exists|j: int| 0 <= j < s2.len() && s2[j].0 == x {
                        let j = choose|j: int| 0 <= j < s2.len() && s2[j].0 == x;
                        assert(s[j].0 == x);
                    }
                }
                assert forall|x: Seq<char>| #[trigger] entries_map(s2).contains_key(x) implies entries_map(
                    s2,
                )[x] == entries_map(s).insert(k@, day)[x] by {
                    let j = choose|j: int| 0 <= j < s2.len() && s2[j].0 == x;
                    assert(entries_map(s2)[s2[j].0] == s2[j].1);
                    if j != i {
                        assert(entries_map(s)[s[j].0] == s[j].1);
                        lemma_key_lt_irreflexive(k@);
                        assert(s[j].0 != s[i as int].0);
                    }
                }
                assert(entries_map(s2) =~= entries_map(s).insert(k@, day));
            }
        } else {
            self.days.insert(i, DayEntry { key, day });
            let ghost s2 = self.entries();
            assert(s2 =~= s.insert(i as int, (k@, day)));
            assert(keys_sorted(s2)) by {
                assert forall|a: int, b: int| 0 <= a < b < s2.len() implies key_lt(s2[a].0, s2[b].0) by {
                    if a < i && b == i {
                    } else if a < i && b > i {
                        assert(s2[b] == s[b - 1]);
                        if b - 1 > i {
                            lemma_key_lt_transitive(k@, s[i as int].0, s[b - 1].0);
                        }
                        lemma_key_lt_transitive(s2[a].0, k@, s2[b].0);
                    } else if a == i {
                        assert(s2[b] == s[b - 1]);
                        if b - 1 > i {
                            lemma_key_lt_transitive(k@, s[i as int].0, s[b - 1].0);
                        }
                    } else if a < i {
                    } else {
                        assert(s2[a] == s[a - 1] && s2[b] == s[b - 1]);
                    }
                }
            }
            proof {
                lemma_entries_map(s2);
                assert forall|x: Seq<char>| #[trigger]
                    entries_map(s2).contains_key(x) == entries_map(s).insert(k@, day).contains_key(x) by {
                    if x == k@ {
                        assert(s2[i as int].0 == x);
                    }
                    if exists|j: int| 0 <= j < s.len() && s[j].0 == x {
                        let j = choose|j: int| 0 <= j < s.len() && s[j].0 == x;
                        if j < i {
                            assert(s2[j].0 == x);
                        } else {
                            assert(s2[j + 1].0 == x);
                        }
                    }
                    if exists|j: int| 0 <= j < s2.len() && s2[j].0 == x {
                        let j = choose|j: int| 0 <= j < s2.len() && s2[j].0 == x;
                        if j < i {
                            assert(s[j].0 == x);
                        } else if j > i {
                            assert(s[j - 1].0 == x);
                        }
                    }
                }
                assert forall|x: Seq<char>| #[trigger] entries_map(s2).contains_key(x) implies entries_map(
                    s2,
                )[x] == entries_map(s).insert(k@, day)[x] by {
                    let j = choose|j: int| 0 <= j < s2.len() && s2[j].0 == x;
                    assert(entries_map(s2)[s2[j].0] == s2[j].1);
                    if j < i {
                        assert(entries_map(s)[s[j].0] == s[j].1);
                        lemma_key_lt_irreflexive(k@);
                    } else if j > i {
                        assert(s2[j] == s[j - 1]);
                        assert(entries_map(s)[s[j - 1].0] == s[j - 1].1);
                        lemma_key_lt_irreflexive(k@);
                        if j - 1 > i {
                            lemma_key_lt_transitive(k@, s[i as int].0, s[j - 1].0);
                        }
                    }
                }
                assert(entries_map(s2) =~= entries_map(s).insert(k@, day));
            }
        }
    }
}


// ---------------------------------------------------------------------------
// Recording and pruning
// ---------------------------------------------------------------------------

/// `u64::saturating_add`.
pub open spec fn add_sat(a: u64, b: u64) -> u64 {
    if a + b > u64::MAX {
        u64::MAX
    } else {
        (a + b) as u64
    }
}

/// The day stored under `key` after adding a byte delta to it (a missing day
/// counts as zero bytes; sums saturate at `u64::MAX`).
pub open spec fn recorded_day(m: Map<Seq<char>, UsageDay>, key: Seq<char>, up: u64, down: u64) -> UsageDay {
    let d = if m.contains_key(key) {
        m[key]
    } else {
        UsageDay { uploaded: 0, downloaded: 0 }
    };
    UsageDay { uploaded: add_sat(d.uploaded, up), downloaded: add_sat(d.downloaded, down) }
}

/// The days after recording a delta under `key`; a zero delta changes nothing.
pub open spec fn recorded(m: Map<Seq<char>, UsageDay>, key: Seq<char>, up: u64, down: u64) -> Map<
    Seq<char>,
    UsageDay,
> {
    if up == 0 && down == 0 {
        m
    } else {
        m.insert(key, recorded_day(m, key, up, down))
    }
}

/// The days kept when days before `cutoff` are dropped.
pub open spec fn kept_from(m: Map<Seq<char>, UsageDay>, cutoff: Seq<char>) -> Map<Seq<char>, UsageDay> {
    Map::new(|k: Seq<char>| m.contains_key(k) && !key_lt(k, cutoff), |k: Seq<char>| m[k])
}

/// Adds a byte delta to the day `key`. A zero delta leaves the store as it is.
pub fn record_usage_delta_on(store: &mut UsageStore, key: String, uploaded_delta: u64, downloaded_delta: u64)
    requires
        old(store).wf(),
    ensures
        final(store).wf(),
        final(store).day_map() == recorded(old(store).day_map(), key@, uploaded_delta, downloaded_delta),
        final(store).stamp() == old(store).stamp(),
{
    if uploaded_delta == 0 && downloaded_delta == 0 {
        return;
    }
    let d = match store.day(key.as_str()) {
        Some(d) => d,
        None => UsageDay { uploaded: 0, downloaded: 0 },
    };
    let nd = UsageDay {
        uploaded: d.uploaded.saturating_add(uploaded_delta),
        downloaded: d.downloaded.saturating_add(downloaded_delta),
    };
    store.insert_day(key, nd);
}

/// Adds a byte delta to today's day (the local calendar day, read from the
/// clock). A zero delta leaves the store as it is.
pub fn record_usage_delta(store: &mut UsageStore, uploaded_delta: u64, downloaded_delta: u64)
    requires
        old(store).wf(),
    ensures
        final(store).wf(),
        final(store).stamp() == old(store).stamp(),
        exists|now: i64, off: int|
            representable_secs(now as int) && is_offset(off) && final(store).day_map() == recorded(
                old(store).day_map(),
                #[trigger] local_day_back(now, 0, off),
                uploaded_delta,
                downloaded_delta,
            ),
{
    if uploaded_delta == 0 && downloaded_delta == 0 {
        assert(old(store).day_map() == recorded(old(store).day_map(), local_day_back(0, 0, 0), 0, 0));
        return;
    }
    let now = now_unix_secs();
    let key = local_day_key_back(now, 0);
    let ghost off = choose|off: int| is_offset(off) && key@ == #[trigger] local_day_back(now, 0, off);
    record_usage_delta_on(store, key, uploaded_delta, downloaded_delta);
    assert(store.day_map() == recorded(old(store).day_map(), local_day_back(now, 0, off), uploaded_delta, downloaded_delta));
}

/// Drops every day whose key is below `cutoff`.
pub fn prune_days_before(store: &mut UsageStore, cutoff: &str)
    requires
        old(store).wf(),
    ensures
        final(store).wf(),
        final(store).day_map() == kept_from(old(store).day_map(), cutoff@),
        final(store).stamp() == old(store).stamp(),
{
    let c = chars_of(cutoff);
    let ghost s = store.entries();
    let mut m: usize = 0;
    while m < store.days.len()
        invariant
            m <= store.days@.len(),
            store.entries() == s,
            store.entries().len() == store.days@.len(),
            forall|j: int| 0 <= j < m ==> key_lt(#[trigger] s[j].0, c@),
        ensures
            m <= store.days@.len(),
            store.entries() == s,
            forall|j: int| 0 <= j < m ==> key_lt(#[trigger] s[j].0, c@),
            m < s.len() ==> !key_lt(s[m as int].0, c@),
        decreases store.days@.len() - m,
    {
        let k = chars_of(store.days[m].key.as_str());
        assert(k@ == s[m as int].0);
        match compare_keys(&k, &c) {
            KeyOrder::Less => {},
            KeyOrder::Equal => {
                proof {
                    lemma_key_lt_irreflexive(c@);
                }
                break;
            },
            KeyOrder::Greater => {
                proof {
                    if key_lt(k@, c@) {
                        lemma_key_lt_transitive(k@, c@, k@);
                        lemma_key_lt_irreflexive(k@);
                    }
                }
                break;
            },
        }
        m = m + 1;
    }
    let tail = store.days.split_off(m);
    store.days = tail;
    let ghost s2 = store.entries();
    assert(s2 =~= s.skip(m as int));
    proof {
        lemma_entries_map(s);
        lemma_entries_map(s2);
        let km = kept_from(entries_map(s), c@);
        assert forall|a: int, b: int| 0 <= a < b < s2.len() implies key_lt(s2[a].0, s2[b].0) by {
            assert(s2[a] == s[a + m] && s2[b] == s[b + m]);
        }
        assert forall|x: Seq<char>| #[trigger] entries_map(s2).contains_key(x) == km.contains_key(x) by {
            if exists|j: int| 0 <= j < s2.len() && s2[j].0 == x {
                let j = choose|j: int| 0 <= j < s2.len() && s2[j].0 == x;
                assert(s[j + m].0 == x);
                if key_lt(x, c@) {
                    if j > 0 {
                        lemma_key_lt_transitive(s[m as int].0, x, c@);
                    }
                }
            }
            if km.contains_key(x) {
                let j = choose|j: int| 0 <= j < s.len() && s[j].0 == x;
                if j < m {
                } else {
                    assert(s2[j - m].0 == x);
                }
            }
        }
        assert forall|x: Seq<char>| #[trigger] entries_map(s2).contains_key(x) implies entries_map(s2)[x]
            == km[x] by {
            let j = choose|j: int| 0 <= j < s2.len() && s2[j].0 == x;
            assert(entries_map(s2)[s2[j].0] == s2[j].1);
            assert(s2[j] == s[j + m]);
            assert(entries_map(s)[s[j + m].0] == s[j + m].1);
        }
        assert(entries_map(s2) =~= km);
    }
}

/// The store's days `new` after dropping, at the instant `now`, the days more
/// than `retain` days old: every day before the local calendar day `retain`
/// days back is dropped; when that day lies outside chrono's range nothing is.
pub open spec fn pruned_at(old: Map<Seq<char>, UsageDay>, new: Map<Seq<char>, UsageDay>, now: i64, retain: int) -> bool {
    &&& representable_secs(now as int)
    &&& if in_chrono_range(now - 86_400 * retain) {
        exists|off: int| is_offset(off) && new == kept_from(old, #[trigger] local_day_back(now, retain, off))
    } else {
        new == old
    }
}

/// Drops the days more than `retain_days` days before today (the local
/// calendar day `retain_days` days before now is kept).
pub fn prune_old_days(store: &mut UsageStore, retain_days: i64)
    requires
        old(store).wf(),
        -max_delta_days() <= retain_days <= max_delta_days(),
    ensures
        final(store).wf(),
        final(store).stamp() == old(store).stamp(),
        exists|now: i64| #[trigger] pruned_at(old(store).day_map(), final(store).day_map(), now, retain_days as int),
{
    let now = now_unix_secs();
    let x: i128 = now as i128 - 86_400i128 * retain_days as i128;
    if -8_000_000_000_000i128 <= x && x <= 8_210_266_876_799i128 {
        let cutoff = local_day_key_back(now, retain_days);
        let ghost off = choose|off: int| is_offset(off) && cutoff@ == #[trigger] local_day_back(now, retain_days as int, off);
        prune_days_before(store, cutoff.as_str());
        assert(store.day_map() == kept_from(old(store).day_map(), local_day_back(now, retain_days as int, off)));
    }
    assert(pruned_at(old(store).day_map(), store.day_map(), now, retain_days as int));
}

impl UsageStore {
    /// A copy of the store.
    pub fn duplicate(&self) -> (r: Self)
        ensures
            r.entries() == self.entries(),
            r.stamp() == self.stamp(),
    {
        let mut days: Vec<DayEntry> = Vec::new();
        let mut i: usize = 0;
        while i < self.days.len()
            invariant
                i <= self.days@.len(),
                days@.len() == i,
                forall|j: int| 0 <= j < i ==> entry_view(#[trigger] days@[j]) == entry_view(self.days@[j]),
            decreases self.days@.len() - i,
        {
            days.push(DayEntry { key: self.days[i].key.clone(), day: self.days[i].day });
            i = i + 1;
        }
        let r = UsageStore { days, last_updated: self.last_updated() };
        assert(r.entries() =~= self.entries());
        r
    }

    /// Removes every day and records `stamp` as the last update time.
    pub fn clear_days(&mut self, stamp: Option<String>)
        ensures
            final(self).wf(),
            final(self).day_map() == Map::<Seq<char>, UsageDay>::empty(),
            final(self).stamp() == stamp,
    {
        self.days.clear();
        self.last_updated = stamp;
        assert(self.entries() =~= Seq::<(Seq<char>, UsageDay)>::empty());
        assert(self.day_map() =~= Map::<Seq<char>, UsageDay>::empty());
    }
}

/// Clears all accumulated usage and stamps the store with the current time
/// (RFC 3339, whole seconds, `Z`).
pub fn reset_usage_store(store: &mut UsageStore)
    ensures
        final(store).wf(),
        final(store).day_map() == Map::<Seq<char>, UsageDay>::empty(),
        exists|t: i64| #[trigger] stamped_at(final(store).stamp(), t),
{
    let stamp = utc_now_stamp();
    store.clear_days(Some(stamp));
    let ghost t = choose|t: i64| representable_secs(t as int) && stamp@ == #[trigger] spec_rfc3339_z(t);
    assert(stamped_at(store.stamp(), t));
}

/// The stamp is the instant `t` as RFC 3339 text with a `Z` suffix.
pub open spec fn stamped_at(stamp: Option<String>, t: i64) -> bool {
    stamp matches Some(s) && s@ == spec_rfc3339_z(t)
}

/// The store as it is written to disk: stamped with the current time and
/// without the days more than 90 days old.
pub fn usage_snapshot_for_disk(store: &UsageStore) -> (r: UsageStore)
    requires
        store.wf(),
    ensures
        r.wf(),
        exists|t: i64| #[trigger] stamped_at(r.stamp(), t),
        exists|now: i64| #[trigger] pruned_at(store.day_map(), r.day_map(), now, 90),
{
    let mut r = store.duplicate();
    let stamp = utc_now_stamp();
    let ghost t = choose|t: i64| representable_secs(t as int) && stamp@ == #[trigger] spec_rfc3339_z(t);
    r.set_last_updated(Some(stamp));
    assert(stamped_at(r.stamp(), t));
    let ghost before = r.day_map();
    assert(before == store.day_map());
    prune_old_days(&mut r, 90);
    let ghost now = choose|now: i64| #[trigger] pruned_at(before, r.day_map(), now, 90);
    assert(pruned_at(store.day_map(), r.day_map(), now, 90));
    r
}

impl Default for UsageStore {
    fn default() -> (r: Self)
        ensures
            r.wf(),
            r.day_map() == Map::<Seq<char>, UsageDay>::empty(),
            r.stamp() is None,
    {
        UsageStore::new()
    }
}


// ---------------------------------------------------------------------------
// Overview
// ---------------------------------------------------------------------------

/// Uploaded and downloaded bytes of one window.
#[derive(Clone, Copy, Debug, PartialEq, Eq)]
pub struct UsageBucket {
    pub uploaded: u64,
    pub downloaded: u64,
}

/// Usage per window: today, today and yesterday, the last seven calendar days,
/// the current month, and every recorded day.
#[derive(Clone, Copy, Debug, PartialEq, Eq)]
pub struct UsageOverview {
    pub today: UsageBucket,
    pub last_24h: UsageBucket,
    pub week: UsageBucket,
    pub month: UsageBucket,
    pub total: UsageBucket,
}

/// The day keys that delimit the overview's windows.
pub struct UsageWindows {
    pub today: String,
    pub yesterday: String,
    pub week_start: String,
    pub month_start: String,
}

/// Sum of the uploaded (`up`) or downloaded bytes of the days whose key satisfies `p`.
pub open spec fn window_sum(s: Seq<(Seq<char>, UsageDay)>, p: spec_fn(Seq<char>) -> bool, up: bool) -> nat
    decreases s.len(),
{
    if s.len() == 0 {
        0
    } else {
        window_sum(s.drop_last(), p, up) + if p(s.last().0) {
            if up {
                s.last().1.uploaded as nat
            } else {
                s.last().1.downloaded as nat
            }
        } else {
            0nat
        }
    }
}

pub open spec fn is_day(d: Seq<char>) -> spec_fn(Seq<char>) -> bool {
    |k: Seq<char>| k == d
}

pub open spec fn is_either_day(d1: Seq<char>, d2: Seq<char>) -> spec_fn(Seq<char>) -> bool {
    |k: Seq<char>| k == d1 || k == d2
}

pub open spec fn from_day(d: Seq<char>) -> spec_fn(Seq<char>) -> bool {
    |k: Seq<char>| !key_lt(k, d)
}

pub open spec fn any_day() -> spec_fn(Seq<char>) -> bool {
    |k: Seq<char>| true
}

pub open spec fn bucket_is(b: UsageBucket, s: Seq<(Seq<char>, UsageDay)>, p: spec_fn(Seq<char>) -> bool) -> bool {
    b.uploaded == window_sum(s, p, true) && b.downloaded == window_sum(s, p, false)
}

/// `o` is the overview of the days `s` for the window keys today `t`,
/// yesterday `y`, week start `ws` and month start `ms`: today counts the day
/// `t`, the last 24 hours the days `t` and `y`, the week and the month every
/// day from `ws` and from `ms` on, the total every day.
pub open spec fn overview_is(
    o: UsageOverview,
    s: Seq<(Seq<char>, UsageDay)>,
    t: Seq<char>,
    y: Seq<char>,
    ws: Seq<char>,
    ms: Seq<char>,
) -> bool {
    &&& bucket_is(o.today, s, is_day(t))
    &&& bucket_is(o.last_24h, s, is_either_day(t, y))
    &&& bucket_is(o.week, s, from_day(ws))
    &&& bucket_is(o.month, s, from_day(ms))
    &&& bucket_is(o.total, s, any_day())
}

/// All-time totals fit in `u64`.
pub open spec fn totals_fit(s: Seq<(Seq<char>, UsageDay)>) -> bool {
    window_sum(s, any_day(), true) <= u64::MAX && window_sum(s, any_day(), false) <= u64::MAX
}

/// A window sums no more than a wider window.
pub proof fn lemma_window_sum_mono(
    s: Seq<(Seq<char>, UsageDay)>,
    p: spec_fn(Seq<char>) -> bool,
    q: spec_fn(Seq<char>) -> bool,
    up: bool,
)
    requires
        forall|k: Seq<char>| #[trigger] p(k) ==> q(k),
    ensures
        window_sum(s, p, up) <= window_sum(s, q, up),
    decreases s.len(),
{
    if s.len() > 0 {
        lemma_window_sum_mono(s.drop_last(), p, q, up);
    }
}

/// A window over a prefix of the days sums no more than over all of them.
pub proof fn lemma_window_sum_prefix(s: Seq<(Seq<char>, UsageDay)>, i: int, p: spec_fn(Seq<char>) -> bool, up: bool)
    requires
        0 <= i <= s.len(),
    ensures
        window_sum(s.take(i), p, up) <= window_sum(s, p, up),
    decreases s.len(),
{
    if i < s.len() {
        lemma_window_sum_prefix(s.drop_last(), i, p, up);
        assert(s.drop_last().take(i) =~= s.take(i));
    } else {
        assert(s.take(i) =~= s);
    }
}

proof fn lemma_window_sum_step(s: Seq<(Seq<char>, UsageDay)>, i: int, p: spec_fn(Seq<char>) -> bool, up: bool)
    requires
        0 <= i < s.len(),
    ensures
        window_sum(s.take(i + 1), p, up) == window_sum(s.take(i), p, up) + if p(s[i].0) {
            if up {
                s[i].1.uploaded as nat
            } else {
                s[i].1.downloaded as nat
            }
        } else {
            0nat
        },
{
    assert(s.take(i + 1).drop_last() =~= s.take(i));
    assert(s.take(i + 1).last() == s[i]);
}

/// Adds the day `d` to `b` when `inside`, keeping `b` equal to the window sum over `s.take(i + 1)`.
fn add_if(b: &mut UsageBucket, inside: bool, d: UsageDay, Ghost(s): Ghost<Seq<(Seq<char>, UsageDay)>>, Ghost(i): Ghost<int>, Ghost(p): Ghost<spec_fn(Seq<char>) -> bool>)
    requires
        0 <= i < s.len(),
        s[i].1 == d,
        inside == p(s[i].0),
        bucket_is(*old(b), s.take(i), p),
        totals_fit(s),
    ensures
        bucket_is(*final(b), s.take(i + 1), p),
{
    proof {
        lemma_window_sum_step(s, i, p, true);
        lemma_window_sum_step(s, i, p, false);
        lemma_window_sum_mono(s.take(i + 1), p, any_day(), true);
        lemma_window_sum_mono(s.take(i + 1), p, any_day(), false);
        lemma_window_sum_prefix(s, i + 1, any_day(), true);
        lemma_window_sum_prefix(s, i + 1, any_day(), false);
    }
    if inside {
        b.uploaded = b.uploaded + d.uploaded;
        b.downloaded = b.downloaded + d.downloaded;
    }
}

/// The overview of the stored days for the given window keys.
pub fn compute_usage_overview_at(store: &UsageStore, w: &UsageWindows) -> (o: UsageOverview)
    requires
        totals_fit(store.entries()),
    ensures
        overview_is(o, store.entries(), w.today@, w.yesterday@, w.week_start@, w.month_start@),
{
    let ghost s = store.entries();
    let t = chars_of(w.today.as_str());
    let y = chars_of(w.yesterday.as_str());
    let ws = chars_of(w.week_start.as_str());
    let ms = chars_of(w.month_start.as_str());
    let zero = UsageBucket { uploaded: 0, downloaded: 0 };
    let mut today_b = zero;
    let mut last24_b = zero;
    let mut week_b = zero;
    let mut month_b = zero;
    let mut total_b = zero;
    let mut i: usize = 0;
    assert(s.take(0) =~= Seq::<(Seq<char>, UsageDay)>::empty());
    while i < store.days.len()
        invariant
            i <= store.days@.len(),
            s == store.entries(),
            s.len() == store.days@.len(),
            totals_fit(s),
            t@ == w.today@,
            y@ == w.yesterday@,
            ws@ == w.week_start@,
            ms@ == w.month_start@,
            bucket_is(today_b, s.take(i as int), is_day(w.today@)),
            bucket_is(last24_b, s.take(i as int), is_either_day(w.today@, w.yesterday@)),
            bucket_is(week_b, s.take(i as int), from_day(w.week_start@)),
            bucket_is(month_b, s.take(i as int), from_day(w.month_start@)),
            bucket_is(total_b, s.take(i as int), any_day()),
        decreases store.days@.len() - i,
    {
        let k = chars_of(store.days[i].key.as_str());
        let d = store.days[i].day;
        assert(k@ == s[i as int].0 && d == s[i as int].1);
        let is_today = match compare_keys(&k, &t) {
            KeyOrder::Equal => true,
            _ => false,
        };
        let is_yesterday = match compare_keys(&k, &y) {
            KeyOrder::Equal => true,
            _ => false,
        };
        let in_week = match compare_keys(&k, &ws) {
            KeyOrder::Less => false,
            _ => true,
        };
        let in_month = match compare_keys(&k, &ms) {
            KeyOrder::Less => false,
            _ => true,
        };
        proof {
            if !is_today {
                lemma_key_lt_irreflexive(k@);
            }
            if !is_yesterday {
                lemma_key_lt_irreflexive(k@);
            }
            if in_week && key_lt(k@, ws@) {
                lemma_key_lt_irreflexive(k@);
                if k@ != ws@ {
                    lemma_key_lt_transitive(k@, ws@, k@);
                }
            }
            if in_month && key_lt(k@, ms@) {
                lemma_key_lt_irreflexive(k@);
                if k@ != ms@ {
                    lemma_key_lt_transitive(k@, ms@, k@);
                }
            }
        }
        add_if(&mut total_b, true, d, Ghost(s), Ghost(i as int), Ghost(any_day()));
        add_if(&mut today_b, is_today, d, Ghost(s), Ghost(i as int), Ghost(is_day(w.today@)));
        add_if(&mut last24_b, is_today || is_yesterday, d, Ghost(s), Ghost(i as int), Ghost(is_either_day(w.today@, w.yesterday@)));
        add_if(&mut week_b, in_week, d, Ghost(s), Ghost(i as int), Ghost(from_day(w.week_start@)));
        add_if(&mut month_b, in_month, d, Ghost(s), Ghost(i as int), Ghost(from_day(w.month_start@)));
        i = i + 1;
    }
    assert(s.take(i as int) =~= s);
    UsageOverview { today: today_b, last_24h: last24_b, week: week_b, month: month_b, total: total_b }
}

/// The window keys read at the instant `now`, with the local offsets `o0`,
/// `o1` and `o6` in force now, a day ago and six days ago: today, yesterday,
/// the first of the seven calendar days ending today, and the first day of
/// the current month.
pub open spec fn windows_read(now: i64, o0: int, o1: int, o6: int, t: Seq<char>, y: Seq<char>, ws: Seq<char>, ms: Seq<char>) -> bool {
    &&& representable_secs(now as int)
    &&& is_offset(o0) && is_offset(o1) && is_offset(o6)
    &&& t == local_day_back(now, 0, o0)
    &&& y == local_day_back(now, 1, o1)
    &&& ws == local_day_back(now, 6, o6)
    &&& ms == month_start(t)
}

/// The overview for the current local date, from one reading of the clock:
/// today, yesterday, the seven calendar days ending today, and the current
/// month from its first day.
pub fn compute_usage_overview(store: &UsageStore) -> (o: UsageOverview)
    requires
        totals_fit(store.entries()),
    ensures
        exists|now: i64, o0: int, o1: int, o6: int|
            #[trigger] windows_read(
                now,
                o0,
                o1,
                o6,
                local_day_back(now, 0, o0),
                local_day_back(now, 1, o1),
                local_day_back(now, 6, o6),
                month_start(local_day_back(now, 0, o0)),
            ) && overview_is(
                o,
                store.entries(),
                local_day_back(now, 0, o0),
                local_day_back(now, 1, o1),
                local_day_back(now, 6, o6),
                month_start(local_day_back(now, 0, o0)),
            ),
{
    let now = now_unix_secs();
    let today = local_day_key_back(now, 0);
    let yesterday = local_day_key_back(now, 1);
    let week_start = local_day_key_back(now, 6);
    let month_start_day = month_start_key(&today);
    let ghost o0 = choose|off: int| is_offset(off) && today@ == #[trigger] local_day_back(now, 0, off);
    let ghost o1 = choose|off: int| is_offset(off) && yesterday@ == #[trigger] local_day_back(now, 1, off);
    let ghost o6 = choose|off: int| is_offset(off) && week_start@ == #[trigger] local_day_back(now, 6, off);
    let w = UsageWindows { today, yesterday, week_start, month_start: month_start_day };
    let o = compute_usage_overview_at(store, &w);
    assert(windows_read(
        now,
        o0,
        o1,
        o6,
        local_day_back(now, 0, o0),
        local_day_back(now, 1, o1),
        local_day_back(now, 6, o6),
        month_start(local_day_back(now, 0, o0)),
    ));
    o
}

impl UsageStore {
    /// Whether the all-time totals fit in `u64`, as the overview needs.
    pub fn totals_fit(&self) -> (b: bool)
        ensures
            b == totals_fit(self.entries()),
    {
        let ghost s = self.entries();
        let mut up: u128 = 0;
        let mut down: u128 = 0;
        let mut i: usize = 0;
        assert(s.take(0) =~= Seq::<(Seq<char>, UsageDay)>::empty());
        while i < self.days.len()
            invariant
                i <= self.days@.len(),
                s == self.entries(),
                s.len() == self.days@.len(),
                up == window_sum(s.take(i as int), any_day(), true),
                down == window_sum(s.take(i as int), any_day(), false),
                up <= u64::MAX,
                down <= u64::MAX,
            decreases self.days@.len() - i,
        {
            proof {
                lemma_window_sum_step(s, i as int, any_day(), true);
                lemma_window_sum_step(s, i as int, any_day(), false);
            }
            up = up + self.days[i].day.uploaded as u128;
            down = down + self.days[i].day.downloaded as u128;
            if up > u64::MAX as u128 || down > u64::MAX as u128 {
                proof {
                    lemma_window_sum_prefix(s, i + 1, any_day(), true);
                    lemma_window_sum_prefix(s, i + 1, any_day(), false);
                }
                return false;
            }
            i = i + 1;
        }
        assert(s.take(i as int) =~= s);
        true
    }
}

// ---------------------------------------------------------------------------
// Laws
// ---------------------------------------------------------------------------

/// The window of a single day sums exactly what is stored for that day.
pub proof fn lemma_window_sum_day(s: Seq<(Seq<char>, UsageDay)>, d: Seq<char>, up: bool)
    requires
        keys_sorted(s),
    ensures
        window_sum(s, is_day(d), up) == if entries_map(s).contains_key(d) {
            if up {
                entries_map(s)[d].uploaded as nat
            } else {
                entries_map(s)[d].downloaded as nat
            }
        } else {
            0nat
        },
    decreases s.len(),
{
    if s.len() > 0 {
        let t = s.drop_last();
        assert(keys_sorted(t)) by {
            assert forall|i: int, j: int| 0 <= i < j < t.len() implies key_lt(t[i].0, t[j].0) by {
                assert(t[i] == s[i] && t[j] == s[j]);
            }
        }
        lemma_window_sum_day(t, d, up);
        if s.last().0 == d {
            lemma_entries_map(t);
            if entries_map(t).contains_key(d) {
                let i = choose|i: int| 0 <= i < t.len() && t[i].0 == d;
                assert(key_lt(s[i].0, s[s.len() - 1].0));
                lemma_key_lt_irreflexive(d);
            }
        }
    }
}

/// Recording a delta under today's key adds exactly that delta to today's
/// window (when the day's counters do not saturate).
pub proof fn lemma_record_adds_to_today(old_store: UsageStore, new_store: UsageStore, today: Seq<char>, up: u64, down: u64)
    requires
        old_store.wf(),
        new_store.wf(),
        new_store.day_map() == recorded(old_store.day_map(), today, up, down),
        window_sum(old_store.entries(), is_day(today), true) + up <= u64::MAX,
        window_sum(old_store.entries(), is_day(today), false) + down <= u64::MAX,
    ensures
        window_sum(new_store.entries(), is_day(today), true) == window_sum(old_store.entries(), is_day(today), true) + up,
        window_sum(new_store.entries(), is_day(today), false) == window_sum(old_store.entries(), is_day(today), false) + down,
{
    lemma_window_sum_day(old_store.entries(), today, true);
    lemma_window_sum_day(old_store.entries(), today, false);
    lemma_window_sum_day(new_store.entries(), today, true);
    lemma_window_sum_day(new_store.entries(), today, false);
}

/// Today lies within the last 24 hours, and every window within the total.
pub proof fn lemma_overview_bounds(
    o: UsageOverview,
    s: Seq<(Seq<char>, UsageDay)>,
    t: Seq<char>,
    y: Seq<char>,
    ws: Seq<char>,
    ms: Seq<char>,
)
    requires
        overview_is(o, s, t, y, ws, ms),
    ensures
        o.today.uploaded <= o.last_24h.uploaded <= o.total.uploaded,
        o.today.downloaded <= o.last_24h.downloaded <= o.total.downloaded,
        o.week.uploaded <= o.total.uploaded,
        o.week.downloaded <= o.total.downloaded,
        o.month.uploaded <= o.total.uploaded,
        o.month.downloaded <= o.total.downloaded,
{
    lemma_window_sum_mono(s, is_day(t), is_either_day(t, y), true);
    lemma_window_sum_mono(s, is_day(t), is_either_day(t, y), false);
    lemma_window_sum_mono(s, is_either_day(t, y), any_day(), true);
    lemma_window_sum_mono(s, is_either_day(t, y), any_day(), false);
    lemma_window_sum_mono(s, from_day(ws), any_day(), true);
    lemma_window_sum_mono(s, from_day(ws), any_day(), false);
    lemma_window_sum_mono(s, from_day(ms), any_day(), true);
    lemma_window_sum_mono(s, from_day(ms), any_day(), false);
}

/// A window starting no later than another contains it: the month covers the
/// week whenever the month starts no later than the week.
pub proof fn lemma_earlier_start_covers(s: Seq<(Seq<char>, UsageDay)>, early: Seq<char>, late: Seq<char>, up: bool)
    requires
        !key_lt(late, early),
    ensures
        window_sum(s, from_day(late), up) <= window_sum(s, from_day(early), up),
{
    assert forall|k: Seq<char>| #[trigger] from_day(late)(k) implies from_day(early)(k) by {
        if key_lt(k, early) && late != early {
            lemma_key_lt_total(late, early);
            lemma_key_lt_transitive(k, early, late);
        }
    }
    lemma_window_sum_mono(s, from_day(late), from_day(early), up);
}

} // verus!
