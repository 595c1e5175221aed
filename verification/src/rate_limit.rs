//! The failed-authentication rate limiter: five failures from one IP address within thirty
//! seconds ban that address for five minutes.
//!
//! Times are milliseconds on a monotonic clock that the caller reads.
use vstd::prelude::*;

verus! {

/// Failures older than this (in milliseconds) no longer count.
pub const FAILURE_WINDOW_MS: u64 = 30_000;

/// How long (in milliseconds) a ban lasts.
pub const BAN_DURATION_MS: u64 = 300_000;

/// The number of recent failures that bans an address.
pub const MAX_FAILURES: usize = 5;

/// What the server remembers of one client address.
#[derive(Debug, PartialEq, Eq)]
pub struct ConnectionTracker {
    /// Times of the failed authentications that are still counted, oldest first.
    pub timestamps: Vec<u64>,
    /// The time at which the current ban ends, if the address was banned.
    pub banned_until: Option<u64>,
}

/// The mathematical value of a `ConnectionTracker`.
pub struct TrackerView {
    pub timestamps: Seq<u64>,
    pub banned_until: Option<u64>,
}

impl View for ConnectionTracker {
    type V = TrackerView;

    open spec fn view(&self) -> TrackerView {
        TrackerView { timestamps: self.timestamps@, banned_until: self.banned_until }
    }
}

/// An address on the list of banned addresses, with the whole seconds left of its ban.
#[derive(Debug, PartialEq, Eq)]
pub struct BannedIpInfo {
    pub ip: String,
    pub expires_in_secs: u64,
}

/// The history of every address, in the order in which the addresses were first seen.
pub type HistoryView = Seq<(Seq<char>, TrackerView)>;

/// A tracker with no failures and no ban.
pub open spec fn empty_tracker() -> TrackerView {
    TrackerView { timestamps: Seq::empty(), banned_until: None }
}

/// No address occurs twice.
pub open spec fn unique_ips(h: HistoryView) -> bool {
    forall|i: int, j: int| 0 <= i < j < h.len() ==> h[i].0 != h[j].0
}

/// The history holds an entry for `ip`.
pub open spec fn has_ip(h: HistoryView, ip: Seq<char>) -> bool {
    exists|i: int| 0 <= i < h.len() && h[i].0 == ip
}

/// The position of the entry for `ip` (meaningful when `has_ip`).
pub open spec fn index_of(h: HistoryView, ip: Seq<char>) -> int {
    choose|i: int| 0 <= i < h.len() && h[i].0 == ip
}

/// The tracker of `ip`; an address never seen has an empty tracker.
pub open spec fn tracker_of(h: HistoryView, ip: Seq<char>) -> TrackerView {
    if has_ip(h, ip) {
        h[index_of(h, ip)].1
    } else {
        empty_tracker()
    }
}

/// The history with the tracker of `ip` replaced by `t` (a new address goes at the end).
pub open spec fn set_tracker(h: HistoryView, ip: Seq<char>, t: TrackerView) -> HistoryView {
    if has_ip(h, ip) {
        h.update(index_of(h, ip), (ip, t))
    } else {
        h.push((ip, t))
    }
}

/// A failure at time `t` still counts at time `now`.
pub open spec fn within_window(now: u64, t: u64) -> bool {
    t >= now || now - t < FAILURE_WINDOW_MS
}

/// The failures of `ts` that still count at `now`, in their order.
pub open spec fn recent_failures(ts: Seq<u64>, now: u64) -> Seq<u64>
    decreases ts.len(),
{
    if ts.len() == 0 {
        ts
    } else {
        let prev = recent_failures(ts.drop_last(), now);
        if within_window(now, ts.last()) {
            prev.push(ts.last())
        } else {
            prev
        }
    }
}

/// The tracker after a failed authentication at `now`: old failures are forgotten, the new
/// one is counted, and reaching the limit bans the address until `now` plus the ban length.
pub open spec fn after_failure(t: TrackerView, now: u64) -> TrackerView {
    let ts = recent_failures(t.timestamps, now).push(now);
    TrackerView {
        timestamps: ts,
        banned_until: if ts.len() >= MAX_FAILURES {
            Some((now + BAN_DURATION_MS) as u64)
        } else {
            t.banned_until
        },
    }
}

/// The address is banned at `now`.
pub open spec fn banned_at(t: TrackerView, now: u64) -> bool {
    match t.banned_until {
        Some(b) => now < b,
        None => false,
    }
}

/// The tracker after a ban check at `now`: a ban that has run out is dropped.
pub open spec fn after_ban_check(t: TrackerView, now: u64) -> TrackerView {
    match t.banned_until {
        Some(b) => if now < b {
            t
        } else {
            TrackerView { timestamps: t.timestamps, banned_until: None }
        },
        None => t,
    }
}

/// The history after a successful authentication (or an unban) of `ip`: a known address
/// loses its failures and its ban; an unknown one stays unknown.
pub open spec fn after_clear(h: HistoryView, ip: Seq<char>) -> HistoryView {
    if has_ip(h, ip) {
        set_tracker(h, ip, empty_tracker())
    } else {
        h
    }
}

/// The seconds left of a ban that ends at `until`, seen at `now`.
pub open spec fn seconds_left(until: u64, now: u64) -> u64 {
    ((until - now) / 1000) as u64
}

/// The banned addresses at `now`, in history order, with the seconds left of each ban.
pub open spec fn banned_report(h: HistoryView, now: u64) -> Seq<(Seq<char>, u64)>
    decreases h.len(),
{
    if h.len() == 0 {
        Seq::empty()
    } else {
        let prev = banned_report(h.drop_last(), now);
        let (ip, t) = h.last();
        match t.banned_until {
            Some(b) => if now < b {
                prev.push((ip, seconds_left(b, now)))
            } else {
                prev
            },
            None => prev,
        }
    }
}

/// The failure history of every client address.
pub struct ConnectionHistory {
    entries: Vec<(String, ConnectionTracker)>,
}

impl View for ConnectionHistory {
    type V = HistoryView;

    closed spec fn view(&self) -> HistoryView {
        self.entries@.map_values(|e: (String, ConnectionTracker)| (e.0@, e.1@))
    }
}

impl ConnectionHistory {
    #[verifier::type_invariant]
    closed spec fn wf(self) -> bool {
        unique_ips(self@)
    }

    /// An empty history.
    pub fn new() -> (h: Self)
        ensures
            h@ == Seq::<(Seq<char>, TrackerView)>::empty(),
            unique_ips(h@),
    {
        let h = ConnectionHistory { entries: Vec::new() };
        assert(h@ =~= Seq::<(Seq<char>, TrackerView)>::empty());
        h
    }

    /// The number of addresses in the history.
    pub fn len(&self) -> (n: usize)
        ensures
            n == self@.len(),
            unique_ips(self@),
    {
        proof { use_type_invariant(self); }
        self.entries.len()
    }

    /// The position of `ip` in the history, if it is there.
    fn find(&self, ip: &String) -> (r: Option<usize>)
        ensures
            match r {
                Some(i) => i < self@.len() && has_ip(self@, ip@) && index_of(self@, ip@) == i
                    && self@[i as int].0 == ip@,
                None => !has_ip(self@, ip@),
            },
    {
        proof { use_type_invariant(self); }
        let mut i: usize = 0;
        while i < self.entries.len()
            invariant
                i <= self.entries@.len(),
                self@.len() == self.entries@.len(),
                unique_ips(self@),
                forall|k: int| 0 <= k < i ==> self@[k].0 != ip@,
            decreases self.entries.len() - i,
        {
            assert(self@[i as int].0 == self.entries@[i as int].0@);
            if self.entries[i].0 == *ip {
                proof {
                    assert(self@[i as int].0 == ip@);
                    assert(unique_ips(self@));
                    let j = index_of(self@, ip@);
                    assert(0 <= j < self@.len() && self@[j].0 == ip@);
                    if j != i {
                        if j < i {
                            assert(self@[j].0 != self@[i as int].0);
                        } else {
                            assert(self@[i as int].0 != self@[j].0);
                        }
                    }
                }
                return Some(i);
            }
            i = i + 1;
        }
        None
    }

    /// Puts `t` in as the tracker of `ip`, which sits at position `i`.
    fn replace_at(&mut self, i: usize, ip: String, t: ConnectionTracker)
        requires
            i < old(self)@.len(),
            old(self)@[i as int].0 == ip@,
        ensures
            final(self)@ == old(self)@.update(i as int, (ip@, t@)),
    {
        proof { use_type_invariant(&*self); }
        let ghost new_entries = self.entries@.update(i as int, (ip, t));
        proof {
            let f = |e: (String, ConnectionTracker)| (e.0@, e.1@);
            assert(new_entries.map_values(f) =~= self@.update(i as int, (ip@, t@)));
            lemma_update_keeps_unique(self@, i as int, ip@, t@);
        }
        let mut entries: Vec<(String, ConnectionTracker)> = Vec::new();
        std::mem::swap(&mut entries, &mut self.entries);
        entries.set(i, (ip, t));
        self.entries = entries;
        assert(self@ =~= old(self)@.update(i as int, (ip@, t@)));
    }

    /// Adds `ip`, which is not in the history yet, with tracker `t`.
    fn add(&mut self, ip: String, t: ConnectionTracker)
        requires
            !has_ip(old(self)@, ip@),
        ensures
            final(self)@ == old(self)@.push((ip@, t@)),
    {
        proof { use_type_invariant(&*self); }
        let ghost new_entries = self.entries@.push((ip, t));
        proof {
            let f = |e: (String, ConnectionTracker)| (e.0@, e.1@);
            assert(new_entries.map_values(f) =~= self@.push((ip@, t@)));
            lemma_push_keeps_unique(self@, ip@, t@);
        }
        let mut entries: Vec<(String, ConnectionTracker)> = Vec::new();
        std::mem::swap(&mut entries, &mut self.entries);
        entries.push((ip, t));
        self.entries = entries;
        assert(self@ =~= old(self)@.push((ip@, t@)));
    }

    /// Stores `t` as the tracker of `ip`.
    fn store(&mut self, ip: String, t: ConnectionTracker)
        ensures
            final(self)@ == set_tracker(old(self)@, ip@, t@),
    {
        match self.find(&ip) {
            Some(i) => self.replace_at(i, ip, t),
            None => self.add(ip, t),
        }
    }

    /// A copy of the tracker of `ip` (an empty one for an unknown address).
    fn tracker_copy(&self, ip: &String) -> (t: ConnectionTracker)
        ensures
            t@ == tracker_of(self@, ip@),
    {
        match self.find(ip) {
            Some(i) => {
                let old_t = &self.entries[i].1;
                assert(old_t@ == self@[i as int].1);
                let ts = old_t.timestamps.clone();
                assert(ts@ =~= old_t.timestamps@);
                ConnectionTracker { timestamps: ts, banned_until: old_t.banned_until }
            },
            None => ConnectionTracker { timestamps: Vec::new(), banned_until: None },
        }
    }

    /// Whether `ip` is banned at `now`. An unknown address is added with an empty tracker, and
    /// a ban that has run out is dropped.
    pub fn is_ip_banned(&mut self, ip: &str, now: u64) -> (banned: bool)
        ensures
            banned == banned_at(tracker_of(old(self)@, ip@), now),
            final(self)@ == set_tracker(
                old(self)@,
                ip@,
                after_ban_check(tracker_of(old(self)@, ip@), now),
            ),
            unique_ips(final(self)@),
    {
        let key = ip.to_owned();
        let mut t = self.tracker_copy(&key);
        let banned = match t.banned_until {
            Some(b) => {
                if now < b {
                    true
                } else {
                    t.banned_until = None;
                    false
                }
            },
            None => false,
        };
        self.store(key, t);
        proof { use_type_invariant(&*self); }
        banned
    }

    /// Counts a failed authentication from `ip` at `now`. Failures outside the window are
    /// forgotten; reaching the limit bans the address. Returns whether the limit was reached.
    pub fn record_failed_auth(&mut self, ip: &str, now: u64) -> (limit_reached: bool)
        requires
            now <= u64::MAX - BAN_DURATION_MS,
        ensures
            final(self)@ == set_tracker(old(self)@, ip@, after_failure(tracker_of(old(self)@, ip@), now)),
            limit_reached == (after_failure(tracker_of(old(self)@, ip@), now).timestamps.len()
                >= MAX_FAILURES),
            unique_ips(final(self)@),
    {
        let key = ip.to_owned();
        let old_t = self.tracker_copy(&key);
        let mut kept: Vec<u64> = Vec::new();
        let mut i: usize = 0;
        while i < old_t.timestamps.len()
            invariant
                i <= old_t.timestamps@.len(),
                kept@ == recent_failures(old_t.timestamps@.take(i as int), now),
            decreases old_t.timestamps@.len() - i,
        {
            let t = old_t.timestamps[i];
            proof {
                assert(old_t.timestamps@.take(i + 1).drop_last() =~= old_t.timestamps@.take(i as int));
                assert(old_t.timestamps@.take(i + 1).last() == t);
            }
            if t >= now || now - t < FAILURE_WINDOW_MS {
                kept.push(t);
            }
            i = i + 1;
        }
        assert(old_t.timestamps@.take(old_t.timestamps@.len() as int) =~= old_t.timestamps@);
        kept.push(now);
        let limit_reached = kept.len() >= MAX_FAILURES;
        let banned_until = if limit_reached {
            Some(now + BAN_DURATION_MS)
        } else {
            old_t.banned_until
        };
        let t = ConnectionTracker { timestamps: kept, banned_until };
        self.store(key, t);
        proof { use_type_invariant(&*self); }
        limit_reached
    }

    /// Forgets the failures and the ban of a known address; returns whether it was known.
    pub fn unban_ip(&mut self, ip: &str) -> (known: bool)
        ensures
            known == has_ip(old(self)@, ip@),
            final(self)@ == after_clear(old(self)@, ip@),
            unique_ips(final(self)@),
    {
        let key = ip.to_owned();
        let known = match self.find(&key) {
            Some(i) => {
                self.replace_at(i, key, ConnectionTracker { timestamps: Vec::new(), banned_until: None });
                true
            },
            None => false,
        };
        proof { use_type_invariant(&*self); }
        known
    }

    /// A successful authentication from `ip` clears its failures and its ban.
    pub fn record_successful_auth(&mut self, ip: &str)
        ensures
            final(self)@ == after_clear(old(self)@, ip@),
            unique_ips(final(self)@),
    {
        let _ = self.unban_ip(ip);
    }

    /// The number of failures of `ip` that the history holds.
    pub fn failure_count(&self, ip: &str) -> (n: usize)
        ensures
            n == tracker_of(self@, ip@).timestamps.len(),
            unique_ips(self@),
    {
        proof { use_type_invariant(self); }
        let key = ip.to_owned();
        match self.find(&key) {
            Some(i) => self.entries[i].1.timestamps.len(),
            None => 0,
        }
    }

    /// The end of the ban of `ip`, if one is recorded.
    pub fn banned_until(&self, ip: &str) -> (b: Option<u64>)
        ensures
            b == tracker_of(self@, ip@).banned_until,
            unique_ips(self@),
    {
        proof { use_type_invariant(self); }
        let key = ip.to_owned();
        match self.find(&key) {
            Some(i) => self.entries[i].1.banned_until,
            None => None,
        }
    }

    /// The addresses banned at `now`, in history order, with the whole seconds left.
    pub fn banned_ips(&self, now: u64) -> (r: Vec<BannedIpInfo>)
        ensures
            r@.map_values(|b: BannedIpInfo| (b.ip@, b.expires_in_secs)) == banned_report(self@, now),
            unique_ips(self@),
    {
        proof { use_type_invariant(self); }
        let mut r: Vec<BannedIpInfo> = Vec::new();
        let mut i: usize = 0;
        while i < self.entries.len()
            invariant
                i <= self.entries@.len(),
                self@.len() == self.entries@.len(),
                r@.map_values(|b: BannedIpInfo| (b.ip@, b.expires_in_secs)) == banned_report(
                    self@.take(i as int),
                    now,
                ),
            decreases self.entries.len() - i,
        {
            let entry = &self.entries[i];
            proof {
                assert(self@.take(i + 1).drop_last() =~= self@.take(i as int));
                assert(self@.take(i + 1).last() == (entry.0@, entry.1@));
            }
            let ghost before = r@;
            match entry.1.banned_until {
                Some(b) => {
                    if now < b {
                        let ip = entry.0.clone();
                        r.push(BannedIpInfo { ip, expires_in_secs: (b - now) / 1000 });
                        assert(r@.map_values(|b: BannedIpInfo| (b.ip@, b.expires_in_secs))
                            =~= before.map_values(|b: BannedIpInfo| (b.ip@, b.expires_in_secs)).push(
                            (entry.0@, seconds_left(b, now)),
                        ));
                    }
                },
                None => {},
            }
            i = i + 1;
        }
        assert(self@.take(self@.len() as int) =~= self@);
        r
    }
}

proof fn lemma_update_keeps_unique(h: HistoryView, i: int, ip: Seq<char>, t: TrackerView)
    requires
        unique_ips(h),
        0 <= i < h.len(),
        h[i].0 == ip,
    ensures
        unique_ips(h.update(i, (ip, t))),
{
    let g = h.update(i, (ip, t));
    assert forall|a: int, b: int| 0 <= a < b < g.len() implies g[a].0 != g[b].0 by {
        assert(g[a].0 == h[a].0);
        assert(g[b].0 == h[b].0);
    }
}

proof fn lemma_push_keeps_unique(h: HistoryView, ip: Seq<char>, t: TrackerView)
    requires
        unique_ips(h),
        !has_ip(h, ip),
    ensures
        unique_ips(h.push((ip, t))),
{
    let g = h.push((ip, t));
    assert forall|a: int, b: int| 0 <= a < b < g.len() implies g[a].0 != g[b].0 by {
        if b == h.len() {
            assert(g[a].0 == h[a].0);
        } else {
            assert(g[a].0 == h[a].0);
            assert(g[b].0 == h[b].0);
        }
    }
}

} // verus!

verus! {

// ---------------------------------------------------------------------------
// Laws of the rate limiter
// ---------------------------------------------------------------------------

/// The tracker after failures at each of `times`, in order.
pub open spec fn failures_applied(t: TrackerView, times: Seq<u64>) -> TrackerView
    decreases times.len(),
{
    if times.len() == 0 {
        t
    } else {
        after_failure(failures_applied(t, times.drop_last()), times.last())
    }
}

/// The history after failures of `ip` at each of `times`, in order.
pub open spec fn history_after_failures(h: HistoryView, ip: Seq<char>, times: Seq<u64>) -> HistoryView
    decreases times.len(),
{
    if times.len() == 0 {
        h
    } else {
        let prev = history_after_failures(h, ip, times.drop_last());
        set_tracker(prev, ip, after_failure(tracker_of(prev, ip), times.last()))
    }
}

/// Each time is at most the next one, and none is so late that a ban from it would overflow.
pub open spec fn valid_failure_times(times: Seq<u64>) -> bool {
    &&& forall|i: int, j: int| 0 <= i <= j < times.len() ==> times[i] <= times[j]
    &&& forall|i: int| 0 <= i < times.len() ==> times[i] <= u64::MAX - BAN_DURATION_MS
}

/// Storing a tracker for one address leaves every other address as it was, and the stored
/// tracker is the one that address then has.
pub proof fn law_store_frame(h: HistoryView, ip: Seq<char>, t: TrackerView, other: Seq<char>)
    requires
        unique_ips(h),
    ensures
        unique_ips(set_tracker(h, ip, t)),
        tracker_of(set_tracker(h, ip, t), ip) == t,
        other != ip ==> tracker_of(set_tracker(h, ip, t), other) == tracker_of(h, other),
        has_ip(set_tracker(h, ip, t), ip),
        other != ip ==> (has_ip(set_tracker(h, ip, t), other) <==> has_ip(h, other)),
{
    let g = set_tracker(h, ip, t);
    if has_ip(h, ip) {
        let i = index_of(h, ip);
        lemma_update_keeps_unique(h, i, ip, t);
        assert(g[i].0 == ip);
        assert(has_ip(g, ip));
        lemma_index_unique(g, ip, i);
    } else {
        lemma_push_keeps_unique(h, ip, t);
        assert(g[h.len() as int].0 == ip);
        assert(has_ip(g, ip));
        lemma_index_unique(g, ip, h.len() as int);
    }
    if other != ip {
        if has_ip(h, other) {
            let k = index_of(h, other);
            assert(g[k].0 == other);
            assert(has_ip(g, other));
            lemma_index_unique(g, other, k);
        }
        if has_ip(g, other) {
            let k = index_of(g, other);
            assert(h[k].0 == other);
        }
    }
}

proof fn lemma_index_unique(h: HistoryView, ip: Seq<char>, i: int)
    requires
        unique_ips(h),
        0 <= i < h.len(),
        h[i].0 == ip,
    ensures
        has_ip(h, ip),
        index_of(h, ip) == i,
{
    assert(has_ip(h, ip));
    let j = index_of(h, ip);
    if j < i {
        assert(h[j].0 != h[i].0);
    } else if j > i {
        assert(h[i].0 != h[j].0);
    }
}

/// The history after failures of one address holds, for that address, the tracker after
/// those failures.
pub proof fn law_history_failures(h: HistoryView, ip: Seq<char>, times: Seq<u64>)
    requires
        unique_ips(h),
    ensures
        unique_ips(history_after_failures(h, ip, times)),
        tracker_of(history_after_failures(h, ip, times), ip) == failures_applied(tracker_of(h, ip), times),
    decreases times.len(),
{
    if times.len() > 0 {
        law_history_failures(h, ip, times.drop_last());
        let prev = history_after_failures(h, ip, times.drop_last());
        law_store_frame(prev, ip, after_failure(tracker_of(prev, ip), times.last()), ip);
    }
}

proof fn lemma_recent_keeps_suffix(a: Seq<u64>, s: Seq<u64>, now: u64)
    requires
        forall|j: int| 0 <= j < s.len() ==> within_window(now, #[trigger] s[j]),
    ensures
        recent_failures(a + s, now) == recent_failures(a, now) + s,
    decreases s.len(),
{
    if s.len() == 0 {
        assert(a + s =~= a);
        assert(recent_failures(a, now) + s =~= recent_failures(a, now));
    } else {
        let p = s.drop_last();
        lemma_recent_keeps_suffix(a, p, now);
        assert((a + s).drop_last() =~= a + p);
        assert((a + s).last() == s.last());
        assert(within_window(now, s[s.len() - 1]));
        assert(recent_failures(a, now) + p.push(s.last()) =~= (recent_failures(a, now) + p).push(
            s.last(),
        ));
        assert(p.push(s.last()) =~= s);
    }
}

proof fn lemma_recent_len(ts: Seq<u64>, now: u64)
    ensures
        recent_failures(ts, now).len() <= ts.len(),
    decreases ts.len(),
{
    if ts.len() > 0 {
        lemma_recent_len(ts.drop_last(), now);
    }
}

proof fn lemma_failures_keep_window(t: TrackerView, times: Seq<u64>)
    requires
        times.len() > 0,
        valid_failure_times(times),
        times.last() - times[0] < FAILURE_WINDOW_MS,
    ensures
        ({
            let ts = failures_applied(t, times).timestamps;
            ts.len() >= times.len() && ts.subrange(ts.len() - times.len(), ts.len() as int) == times
        }),
    decreases times.len(),
{
    let x = times.last();
    let p = times.drop_last();
    let prev = failures_applied(t, p);
    if p.len() == 0 {
        let ts = failures_applied(t, times).timestamps;
        assert(ts == recent_failures(prev.timestamps, x).push(x));
        assert(ts.subrange(ts.len() - 1, ts.len() as int) =~= times);
    } else {
        assert(p.last() == times[times.len() - 2]);
        assert(p.last() - p[0] < FAILURE_WINDOW_MS);
        lemma_failures_keep_window(t, p);
        let pts = prev.timestamps;
        let a = pts.subrange(0, pts.len() - p.len());
        assert(pts =~= a + p);
        assert forall|j: int| 0 <= j < p.len() implies within_window(x, #[trigger] p[j]) by {
            assert(p[j] == times[j]);
            assert(times[0] <= times[j]);
            assert(times[j] <= times[times.len() - 1]);
        }
        lemma_recent_keeps_suffix(a, p, x);
        let ts = failures_applied(t, times).timestamps;
        assert(ts == (recent_failures(a, x) + p).push(x));
        assert(ts.subrange(ts.len() - times.len(), ts.len() as int) =~= times);
    }
}

/// Five failures from one address within the window ban it: after them the address is banned
/// at exactly the times before the last failure plus the ban length.
pub proof fn law_failures_within_window_ban(h: HistoryView, ip: Seq<char>, times: Seq<u64>, at: u64)
    requires
        unique_ips(h),
        times.len() == MAX_FAILURES,
        valid_failure_times(times),
        times.last() - times[0] < FAILURE_WINDOW_MS,
    ensures
        banned_at(tracker_of(history_after_failures(h, ip, times), ip), at) <==> at < times.last()
            + BAN_DURATION_MS,
{
    law_history_failures(h, ip, times);
    lemma_failures_keep_window(tracker_of(h, ip), times);
    let t = failures_applied(tracker_of(h, ip), times);
    assert(t == after_failure(failures_applied(tracker_of(h, ip), times.drop_last()), times.last()));
}

/// Failures alone do not ban an address that is not banned while its recorded failures and
/// the new ones stay below the limit.
pub proof fn law_few_failures_no_ban(h: HistoryView, ip: Seq<char>, times: Seq<u64>, at: u64)
    requires
        unique_ips(h),
        tracker_of(h, ip).banned_until is None,
        tracker_of(h, ip).timestamps.len() + times.len() < MAX_FAILURES,
    ensures
        !banned_at(tracker_of(history_after_failures(h, ip, times), ip), at),
{
    law_history_failures(h, ip, times);
    lemma_few_failures(tracker_of(h, ip), times);
}

proof fn lemma_few_failures(t: TrackerView, times: Seq<u64>)
    requires
        t.banned_until is None,
        t.timestamps.len() + times.len() < MAX_FAILURES,
    ensures
        failures_applied(t, times).banned_until is None,
        failures_applied(t, times).timestamps.len() <= t.timestamps.len() + times.len(),
    decreases times.len(),
{
    if times.len() > 0 {
        lemma_few_failures(t, times.drop_last());
        let prev = failures_applied(t, times.drop_last());
        lemma_recent_len(prev.timestamps, times.last());
    }
}

/// Each failure comes a whole window or more after the one before it.
pub open spec fn spaced_by_window(times: Seq<u64>) -> bool {
    forall|i: int| 0 < i < times.len() ==> times[i - 1] + FAILURE_WINDOW_MS <= #[trigger] times[i]
}

/// Failures that come a whole window or more apart never ban an address: from an address
/// that is not banned and whose recorded failures are a window or more older than the first
/// new one (an address never seen, for one), each failure forgets the one before it, so the
/// address ends with only the last failure counted and no ban.
pub proof fn law_spaced_failures_never_ban(h: HistoryView, ip: Seq<char>, times: Seq<u64>, at: u64)
    requires
        unique_ips(h),
        times.len() > 0,
        spaced_by_window(times),
        tracker_of(h, ip).banned_until is None,
        forall|j: int|
            0 <= j < tracker_of(h, ip).timestamps.len() ==> #[trigger] tracker_of(h, ip).timestamps[j]
                + FAILURE_WINDOW_MS <= times[0],
    ensures
        tracker_of(history_after_failures(h, ip, times), ip) == (TrackerView {
            timestamps: seq![times.last()],
            banned_until: None,
        }),
        !banned_at(tracker_of(history_after_failures(h, ip, times), ip), at),
{
    law_history_failures(h, ip, times);
    lemma_spaced_failures(tracker_of(h, ip), times);
}

proof fn lemma_recent_none(ts: Seq<u64>, now: u64)
    requires
        forall|j: int| 0 <= j < ts.len() ==> !within_window(now, #[trigger] ts[j]),
    ensures
        recent_failures(ts, now).len() == 0,
    decreases ts.len(),
{
    if ts.len() > 0 {
        lemma_recent_none(ts.drop_last(), now);
        assert(!within_window(now, ts[ts.len() - 1]));
    }
}

proof fn lemma_spaced_failures(t: TrackerView, times: Seq<u64>)
    requires
        times.len() > 0,
        spaced_by_window(times),
        t.banned_until is None,
        forall|j: int| 0 <= j < t.timestamps.len() ==> #[trigger] t.timestamps[j] + FAILURE_WINDOW_MS
            <= times[0],
    ensures
        failures_applied(t, times) == (TrackerView {
            timestamps: seq![times.last()],
            banned_until: None,
        }),
    decreases times.len(),
{
    let x = times.last();
    let p = times.drop_last();
    if p.len() == 0 {
        assert(x == times[0]);
        lemma_recent_none(t.timestamps, x);
        assert(recent_failures(t.timestamps, x).push(x) =~= seq![x]);
    } else {
        assert forall|i: int| 0 < i < p.len() implies p[i - 1] + FAILURE_WINDOW_MS
            <= #[trigger] p[i] by {
            assert(times[i - 1] + FAILURE_WINDOW_MS <= times[i]);
        }
        lemma_spaced_failures(t, p);
        let prev = failures_applied(t, p);
        assert(times[times.len() - 2] + FAILURE_WINDOW_MS <= times[times.len() - 1]);
        assert(prev.timestamps[0] == p.last());
        lemma_recent_none(prev.timestamps, x);
        assert(recent_failures(prev.timestamps, x).push(x) =~= seq![x]);
    }
}

/// A successful authentication (or an unban) leaves the address with no failures and no ban.
pub proof fn law_clear_unbans(h: HistoryView, ip: Seq<char>, at: u64)
    requires
        unique_ips(h),
    ensures
        !banned_at(tracker_of(after_clear(h, ip), ip), at),
        tracker_of(after_clear(h, ip), ip).timestamps.len() == 0,
{
    if has_ip(h, ip) {
        law_store_frame(h, ip, empty_tracker(), ip);
    }
}

/// Clearing one address (a successful authentication, or an unban) leaves every other address
/// as it was: its failures, its ban, and whether it is known at all.
pub proof fn law_clear_keeps_others(h: HistoryView, ip: Seq<char>, other: Seq<char>, at: u64)
    requires
        unique_ips(h),
        other != ip,
    ensures
        tracker_of(after_clear(h, ip), other) == tracker_of(h, other),
        banned_at(tracker_of(after_clear(h, ip), other), at) == banned_at(tracker_of(h, other), at),
        has_ip(after_clear(h, ip), other) == has_ip(h, other),
        unique_ips(after_clear(h, ip)),
{
    if has_ip(h, ip) {
        law_store_frame(h, ip, empty_tracker(), other);
    }
}

/// Each address on the banned list is an address of the history whose ban runs past `now`,
/// shown with the whole seconds left: that many seconds, and less than one more, remain.
pub proof fn law_report_seconds_left(h: HistoryView, now: u64, k: int)
    requires
        0 <= k < banned_report(h, now).len(),
    ensures
        exists|i: int|
            0 <= i < h.len() && (#[trigger] h[i]).0 == banned_report(h, now)[k].0 && (h[i].1.banned_until
                matches Some(b) && now < b && banned_report(h, now)[k].1 * 1000 <= b - now < (
            banned_report(h, now)[k].1 + 1) * 1000),
    decreases h.len(),
{
    let p = h.drop_last();
    let prev = banned_report(p, now);
    let r = banned_report(h, now);
    if k < prev.len() {
        assert(r[k] == prev[k]);
        law_report_seconds_left(p, now, k);
        let i = choose|i: int|
            0 <= i < p.len() && (#[trigger] p[i]).0 == prev[k].0 && (p[i].1.banned_until matches Some(b)
                && now < b && prev[k].1 * 1000 <= b - now < (prev[k].1 + 1) * 1000);
        assert(h[i] == p[i]);
    } else {
        let b = h.last().1.banned_until->0;
        assert(r[k] == (h.last().0, seconds_left(b, now)));
        let d = b - now;
        assert(seconds_left(b, now) * 1000 <= d < (seconds_left(b, now) + 1) * 1000) by (nonlinear_arith)
            requires
                d > 0,
                seconds_left(b, now) == d / 1000,
        ;
        assert(h[h.len() - 1] == h.last());
    }
}

/// A ban check changes neither the failures nor whether the address is banned at that time
/// or later.
pub proof fn law_ban_check_observes(t: TrackerView, now: u64, later: u64)
    requires
        now <= later,
    ensures
        after_ban_check(t, now).timestamps == t.timestamps,
        banned_at(after_ban_check(t, now), later) == banned_at(t, later),
{
}

/// The list of banned addresses holds exactly the known addresses that are banned at that
/// time.
pub proof fn law_report_lists_banned(h: HistoryView, now: u64, ip: Seq<char>)
    requires
        unique_ips(h),
    ensures
        (exists|k: int| 0 <= k < banned_report(h, now).len() && #[trigger] banned_report(h, now)[k].0 == ip)
            <==> (has_ip(h, ip) && banned_at(tracker_of(h, ip), now)),
    decreases h.len(),
{
    if h.len() > 0 {
        let p = h.drop_last();
        assert(unique_ips(p)) by {
            assert forall|a: int, b: int| 0 <= a < b < p.len() implies p[a].0 != p[b].0 by {
                assert(p[a] == h[a]);
                assert(p[b] == h[b]);
            }
        }
        law_report_lists_banned(p, now, ip);
        let prev = banned_report(p, now);
        let r = banned_report(h, now);
        let last = h.last();
        if last.0 == ip {
            lemma_index_unique(h, ip, h.len() - 1);
            if has_ip(p, ip) {
                let k = index_of(p, ip);
                assert(h[k].0 == ip);
                assert(h[k].0 != h[h.len() - 1].0);
            }
            if banned_at(last.1, now) {
                assert(r[r.len() - 1].0 == ip);
            } else {
                assert(r == prev);
            }
        } else {
            assert(has_ip(h, ip) <==> has_ip(p, ip)) by {
                if has_ip(h, ip) {
                    let k = index_of(h, ip);
                    assert(k != h.len() - 1);
                    assert(p[k].0 == ip);
                }
                if has_ip(p, ip) {
                    let k = index_of(p, ip);
                    assert(h[k].0 == ip);
                }
            }
            if has_ip(p, ip) {
                let k = index_of(p, ip);
                assert(h[k] == p[k]);
                lemma_index_unique(h, ip, k);
            }
            if (exists|k: int| 0 <= k < r.len() && #[trigger] r[k].0 == ip) {
                let k = choose|k: int| 0 <= k < r.len() && #[trigger] r[k].0 == ip;
                if k < prev.len() {
                    assert(r[k] == prev[k]);
                }
            }
            if (exists|k: int| 0 <= k < prev.len() && #[trigger] prev[k].0 == ip) {
                let k = choose|k: int| 0 <= k < prev.len() && #[trigger] prev[k].0 == ip;
                assert(r[k] == prev[k]);
            }
        }
    }
}

} // verus!
