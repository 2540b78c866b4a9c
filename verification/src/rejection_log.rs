use vstd::prelude::*;

verus! {

/// Why a window is not managed.
#[derive(Clone, Copy, Debug, PartialEq, Eq, Structural)]
pub enum RejectionReason {
    NoTitle,
    Role,
    Subrole,
    NotRoot,
    PositionNotSettable,
    SizeNotSettable,
    MainNotSettable,
    Minimized,
    IgnoredByRule,
}

/// How long, in nanoseconds, a logged rejection suppresses the next one:
/// an hour, so a persisting rejection is logged again about hourly.
pub const REJECTION_TTL_NS: u64 = 3_600_000_000_000;

/// One remembered rejection of a window, keyed by window id and pid.
#[derive(Clone, Copy, Debug, PartialEq, Eq, Structural)]
pub struct RejectionEntry {
    pub cg: u32,
    pub pid: i32,
    pub reason: RejectionReason,
    /// When the rejection was last logged, in nanoseconds of the monotonic clock.
    pub last_seen: u64,
}

pub open spec fn entry_key(e: RejectionEntry) -> (u32, i32) {
    (e.cg, e.pid)
}

/// Whether `k` is the key of some entry of `s`.
pub open spec fn has_key(s: Seq<RejectionEntry>, k: (u32, i32)) -> bool {
    exists|i: int| 0 <= i < s.len() && entry_key(#[trigger] s[i]) == k
}

/// No two entries share a key.
pub open spec fn keys_unique(s: Seq<RejectionEntry>) -> bool {
    forall|i: int, j: int|
        0 <= i < s.len() && 0 <= j < s.len() && i != j ==> entry_key(#[trigger] s[i]) != entry_key(
            #[trigger] s[j],
        )
}

/// The entries as a map from key to the remembered reason and time.
pub open spec fn entries_map(s: Seq<RejectionEntry>) -> Map<(u32, i32), (RejectionReason, u64)> {
    Map::new(
        |k: (u32, i32)| has_key(s, k),
        |k: (u32, i32)|
            {
                let i = choose|i: int| 0 <= i < s.len() && entry_key(#[trigger] s[i]) == k;
                (s[i].reason, s[i].last_seen)
            },
    )
}

/// Nanoseconds from `then` to `now`, zero when `now` is earlier.
pub open spec fn elapsed_spec(now: u64, then: u64) -> int {
    if now >= then {
        now - then
    } else {
        0
    }
}

/// Whether recording `reason` for key `k` is to be logged, and the map after.
pub open spec fn record_spec(
    m: Map<(u32, i32), (RejectionReason, u64)>,
    k: (u32, i32),
    reason: RejectionReason,
    now: u64,
) -> (Map<(u32, i32), (RejectionReason, u64)>, bool) {
    if m.contains_key(k) && m[k].0 == reason {
        (m, false)
    } else {
        (m.insert(k, (reason, now)), true)
    }
}

/// The map after forgetting rejections older than the TTL at `now`.
pub open spec fn prune_spec(m: Map<(u32, i32), (RejectionReason, u64)>, now: u64) -> Map<
    (u32, i32),
    (RejectionReason, u64),
> {
    m.restrict(m.dom().filter(|k: (u32, i32)| elapsed_spec(now, m[k].1) <= REJECTION_TTL_NS))
}

/// Deduplicates the logging of unmanageable windows: a rejection is logged
/// once per window and reason, and again after an hour or when the reason
/// changes.
pub struct RejectionLogFilter {
    entries: Vec<RejectionEntry>,
}

impl View for RejectionLogFilter {
    type V = Map<(u32, i32), (RejectionReason, u64)>;

    closed spec fn view(&self) -> Map<(u32, i32), (RejectionReason, u64)> {
        entries_map(self.entries@)
    }
}

proof fn lemma_lookup(s: Seq<RejectionEntry>, i: int)
    requires
        keys_unique(s),
        0 <= i < s.len(),
    ensures
        entries_map(s).contains_key(entry_key(s[i])),
        entries_map(s)[entry_key(s[i])] == (s[i].reason, s[i].last_seen),
{
    let k = entry_key(s[i]);
    assert(has_key(s, k));
    let j = choose|j: int| 0 <= j < s.len() && entry_key(#[trigger] s[j]) == k;
    assert(j == i);
}

impl RejectionLogFilter {
    pub closed spec fn wf(&self) -> bool {
        keys_unique(self.entries@)
    }

    pub fn new() -> (r: RejectionLogFilter)
        ensures
            r.wf(),
            r@ == Map::<(u32, i32), (RejectionReason, u64)>::empty(),
    {
        let r = RejectionLogFilter { entries: Vec::new() };
        assert(r@ =~= Map::<(u32, i32), (RejectionReason, u64)>::empty());
        r
    }

    /// The index of the entry for window `cg` of process `pid`, if any.
    fn find(&self, cg: u32, pid: i32) -> (r: Option<usize>)
        requires
            self.wf(),
        ensures
            r matches Some(i) ==> i < self.entries@.len() && entry_key(self.entries@[i as int]) == (
                cg,
                pid,
            ),
            r is None ==> !has_key(self.entries@, (cg, pid)),
    {
        let mut i: usize = 0;
        while i < self.entries.len()
            invariant
                i <= self.entries@.len(),
                forall|j: int| 0 <= j < i ==> entry_key(#[trigger] self.entries@[j]) != (cg, pid),
            decreases self.entries@.len() - i,
        {
            if self.entries[i].cg == cg && self.entries[i].pid == pid {
                return Some(i);
            }
            i = i + 1;
        }
        None
    }

    /// Records a rejection and says whether to log it: not when the same
    /// reason is already remembered for this window, whose time is then left
    /// alone.
    pub fn record_and_should_log(
        &mut self,
        cg: u32,
        pid: i32,
        reason: RejectionReason,
        now: u64,
    ) -> (log: bool)
        requires
            old(self).wf(),
        ensures
            final(self).wf(),
            (final(self)@, log) == record_spec(old(self)@, (cg, pid), reason, now),
    {
        let ghost old_s = self.entries@;
        let entry = RejectionEntry { cg, pid, reason, last_seen: now };
        match self.find(cg, pid) {
            Some(i) => {
                proof {
                    lemma_lookup(old_s, i as int);
                }
                if self.entries[i].reason == reason {
                    return false;
                }
                self.entries.set(i, entry);
                proof {
                    let s = self.entries@;
                    assert(keys_unique(s));
                    assert forall|k: (u32, i32)| #[trigger]
                        entries_map(s).contains_key(k) == old(self)@.insert(
                            (cg, pid),
                            (reason, now),
                        ).contains_key(k) by {
                        if has_key(old_s, k) {
                            let j = choose|j: int| 0 <= j < old_s.len() && entry_key(#[trigger] old_s[j]) == k;
                            assert(entry_key(s[j]) == k);
                        }
                        if has_key(s, k) {
                            let j = choose|j: int| 0 <= j < s.len() && entry_key(#[trigger] s[j]) == k;
                            if j != i {
                                assert(entry_key(old_s[j]) == k);
                            }
                        }
                    }
                    assert forall|k: (u32, i32)| #[trigger]
                        entries_map(s).contains_key(k) implies entries_map(s)[k] == old(
                        self,
                    )@.insert((cg, pid), (reason, now))[k] by {
                        let j = choose|j: int| 0 <= j < s.len() && entry_key(#[trigger] s[j]) == k;
                        lemma_lookup(s, j);
                        if j != i {
                            lemma_lookup(old_s, j);
                        }
                    }
                    assert(entries_map(s) =~= old(self)@.insert((cg, pid), (reason, now)));
                }
                true
            },
            None => {
                self.entries.push(entry);
                proof {
                    let s = self.entries@;
                    assert(s[s.len() - 1] == entry);
                    assert forall|a: int, b: int|
                        0 <= a < s.len() && 0 <= b < s.len() && a != b implies entry_key(
                        #[trigger] s[a],
                    ) != entry_key(#[trigger] s[b]) by {
                        if a < old_s.len() && b < old_s.len() {
                            assert(s[a] == old_s[a] && s[b] == old_s[b]);
                        } else if a < old_s.len() {
                            assert(s[a] == old_s[a]);
                        } else {
                            assert(s[b] == old_s[b]);
                        }
                    }
                    assert forall|k: (u32, i32)| #[trigger]
                        entries_map(s).contains_key(k) == old(self)@.insert(
                            (cg, pid),
                            (reason, now),
                        ).contains_key(k) by {
                        if has_key(old_s, k) {
                            let j = choose|j: int| 0 <= j < old_s.len() && entry_key(#[trigger] old_s[j]) == k;
                            assert(entry_key(s[j]) == k);
                        }
                        if k == (cg, pid) {
                            assert(entry_key(s[s.len() - 1]) == k);
                        }
                        if has_key(s, k) {
                            let j = choose|j: int| 0 <= j < s.len() && entry_key(#[trigger] s[j]) == k;
                            if j < old_s.len() {
                                assert(entry_key(old_s[j]) == k);
                            }
                        }
                    }
                    assert forall|k: (u32, i32)| #[trigger]
                        entries_map(s).contains_key(k) implies entries_map(s)[k] == old(
                        self,
                    )@.insert((cg, pid), (reason, now))[k] by {
                        let j = choose|j: int| 0 <= j < s.len() && entry_key(#[trigger] s[j]) == k;
                        lemma_lookup(s, j);
                        if j < old_s.len() {
                            lemma_lookup(old_s, j);
                        }
                    }
                    assert(entries_map(s) =~= old(self)@.insert((cg, pid), (reason, now)));
                }
                true
            },
        }
    }

    /// Forgets every rejection logged more than `REJECTION_TTL_NS` before
    /// `now`.
    pub fn prune(&mut self, now: u64)
        requires
            old(self).wf(),
        ensures
            final(self).wf(),
            final(self)@ == prune_spec(old(self)@, now),
    {
        let ghost old_s = self.entries@;
        let mut kept: Vec<RejectionEntry> = Vec::new();
        let ghost mut idx: Seq<int> = Seq::empty();
        let mut i: usize = 0;
        while i < self.entries.len()
            invariant
                old_s == self.entries@,
                keys_unique(old_s),
                i <= old_s.len(),
                idx.len() == kept@.len(),
                forall|a: int| 0 <= a < idx.len() ==> 0 <= #[trigger] idx[a] < i,
                forall|a: int, b: int| 0 <= a < b < idx.len() ==> #[trigger] idx[a] < #[trigger] idx[b],
                forall|a: int| 0 <= a < idx.len() ==> kept@[a] == old_s[#[trigger] idx[a]],
                forall|j: int|
                    0 <= j < i ==> (elapsed_spec(now, #[trigger] old_s[j].last_seen) <= REJECTION_TTL_NS
                        <==> exists|a: int| 0 <= a < idx.len() && idx[a] == j),
            decreases old_s.len() - i,
        {
            let e = self.entries[i];
            let elapsed: u64 = if now >= e.last_seen {
                now - e.last_seen
            } else {
                0
            };
            if elapsed <= REJECTION_TTL_NS {
                kept.push(e);
                proof {
                    let ghost old_idx = idx;
                    idx = idx.push(i as int);
                    assert forall|j: int|
                        0 <= j < i + 1 implies (elapsed_spec(now, #[trigger] old_s[j].last_seen)
                        <= REJECTION_TTL_NS <==> exists|a: int| 0 <= a < idx.len() && idx[a] == j) by {
                        if j == i {
                            assert(idx[idx.len() - 1] == j);
                        } else if elapsed_spec(now, old_s[j].last_seen) <= REJECTION_TTL_NS {
                            let a = choose|a: int| 0 <= a < old_idx.len() && old_idx[a] == j;
                            assert(idx[a] == j);
                        } else {
                            if exists|a: int| 0 <= a < idx.len() && idx[a] == j {
                                let a = choose|a: int| 0 <= a < idx.len() && idx[a] == j;
                                assert(a < idx.len() - 1);
                            }
                        }
                    }
                }
            } else {
                proof {
                    assert forall|j: int|
                        0 <= j < i + 1 implies (elapsed_spec(now, #[trigger] old_s[j].last_seen)
                        <= REJECTION_TTL_NS <==> exists|a: int| 0 <= a < idx.len() && idx[a] == j) by {
                        if j == i {
                            if exists|a: int| 0 <= a < idx.len() && idx[a] == j {
                                let a = choose|a: int| 0 <= a < idx.len() && idx[a] == j;
                                assert(idx[a] < i);
                            }
                        }
                    }
                }
            }
            i = i + 1;
        }
        proof {
            let s = kept@;
            let target = old(self)@.restrict(
                old(self)@.dom().filter(
                    |k: (u32, i32)| elapsed_spec(now, old(self)@[k].1) <= REJECTION_TTL_NS,
                ),
            );
            assert(keys_unique(s)) by {
                assert forall|a: int, b: int|
                    0 <= a < s.len() && 0 <= b < s.len() && a != b implies entry_key(#[trigger] s[a])
                    != entry_key(#[trigger] s[b]) by {
                    if a < b {
                        assert(idx[a] < idx[b]);
                    } else {
                        assert(idx[b] < idx[a]);
                    }
                }
            }
            assert forall|k: (u32, i32)| #[trigger]
                entries_map(s).contains_key(k) == target.contains_key(k) by {
                if has_key(s, k) {
                    let a = choose|a: int| 0 <= a < s.len() && entry_key(#[trigger] s[a]) == k;
                    let j = idx[a];
                    lemma_lookup(old_s, j);
                    assert(elapsed_spec(now, old_s[j].last_seen) <= REJECTION_TTL_NS);
                }
                if target.contains_key(k) {
                    let j = choose|j: int| 0 <= j < old_s.len() && entry_key(#[trigger] old_s[j]) == k;
                    lemma_lookup(old_s, j);
                    let a = choose|a: int| 0 <= a < idx.len() && idx[a] == j;
                    assert(entry_key(s[a]) == k);
                }
            }
            assert forall|k: (u32, i32)| #[trigger]
                entries_map(s).contains_key(k) implies entries_map(s)[k] == target[k] by {
                let a = choose|a: int| 0 <= a < s.len() && entry_key(#[trigger] s[a]) == k;
                lemma_lookup(s, a);
                lemma_lookup(old_s, idx[a]);
            }
            assert(entries_map(s) =~= target);
        }
        self.entries = kept;
    }
}

/// A rejection is logged once: recording the same reason for the same
/// window again is not logged and leaves the remembered time alone.
pub proof fn law_same_reason_logged_once(
    m: Map<(u32, i32), (RejectionReason, u64)>,
    k: (u32, i32),
    reason: RejectionReason,
    now: u64,
    later: u64,
)
    ensures
        record_spec(record_spec(m, k, reason, now).0, k, reason, later).1 == false,
        record_spec(record_spec(m, k, reason, now).0, k, reason, later).0 == record_spec(
            m,
            k,
            reason,
            now,
        ).0,
{
}

/// A changed reason is logged again, and windows are told apart by both
/// their window id and their process id.
pub proof fn law_new_reason_or_window_relogs(
    m: Map<(u32, i32), (RejectionReason, u64)>,
    k: (u32, i32),
    other: (u32, i32),
    reason: RejectionReason,
    new_reason: RejectionReason,
    now: u64,
)
    requires
        reason != new_reason,
        !m.contains_key(other),
        other != k,
    ensures
        record_spec(record_spec(m, k, reason, now).0, k, new_reason, now).1,
        record_spec(record_spec(m, k, reason, now).0, other, reason, now).1,
{
}

/// Pruning keeps a newly logged rejection up to the TTL after it was logged
/// and forgets it right after, so that it is logged again.
pub proof fn law_prune_expires_after_ttl(
    m: Map<(u32, i32), (RejectionReason, u64)>,
    k: (u32, i32),
    reason: RejectionReason,
    now: u64,
)
    requires
        now as int + REJECTION_TTL_NS + 1 <= u64::MAX,
        !(m.contains_key(k) && m[k].0 == reason),
    ensures
        ({
            let logged = record_spec(m, k, reason, now).0;
            &&& prune_spec(logged, (now + REJECTION_TTL_NS) as u64).contains_key(k)
            &&& !record_spec(prune_spec(logged, (now + REJECTION_TTL_NS) as u64), k, reason, (now + REJECTION_TTL_NS) as u64).1
            &&& !prune_spec(logged, (now + REJECTION_TTL_NS + 1) as u64).contains_key(k)
            &&& record_spec(prune_spec(logged, (now + REJECTION_TTL_NS + 1) as u64), k, reason, (now + REJECTION_TTL_NS + 1) as u64).1
        }),
{
    let logged = record_spec(m, k, reason, now).0;
    assert(logged.contains_key(k));
    assert(logged[k] == (reason, now));
    let t1 = (now + REJECTION_TTL_NS) as u64;
    let t2 = (now + REJECTION_TTL_NS + 1) as u64;
    assert(logged.dom().filter(|q: (u32, i32)| elapsed_spec(t1, logged[q].1) <= REJECTION_TTL_NS).contains(k));
    assert(!logged.dom().filter(|q: (u32, i32)| elapsed_spec(t2, logged[q].1) <= REJECTION_TTL_NS).contains(k));
}

} // verus!
