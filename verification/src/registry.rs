use vstd::prelude::*;

use std::collections::HashMap;

use crate::geometry::PixelRect;
use crate::placement::{at_hidden_spec, hidden_position_spec, move_offscreen, OffscreenPlacement};
use crate::monitor::{borderless_outcome, float_monitor_outcome, work_area_listing, MonitorRegistry};
use crate::window_state::{moved_spec, DebounceBurst, PositionedState, WindowControl, WindowEffect, WindowState};

verus! {

broadcast use vstd::std_specs::hash::group_hash_axioms;

/// A window Dome manages: its handle, its window server id, its layout id,
/// the process that owns it, and its placement state.
#[derive(Debug)]
pub struct ManagedWindow<E> {
    pub ext: E,
    pub cg_id: u32,
    pub window_id: u64,
    pub pid: i32,
    pub control: WindowControl,
}

pub open spec fn has_cg<E>(s: Seq<ManagedWindow<E>>, cg: u32) -> bool {
    exists|i: int| 0 <= i < s.len() && (#[trigger] s[i]).cg_id == cg
}

/// No two entries share a window server id.
pub open spec fn ids_unique<E>(s: Seq<ManagedWindow<E>>) -> bool {
    forall|i: int, j: int|
        0 <= i < s.len() && 0 <= j < s.len() && i != j ==> (#[trigger] s[i]).cg_id != (
        #[trigger] s[j]).cg_id
}

/// The entries as a map from window server id to entry.
pub open spec fn windows_map<E>(s: Seq<ManagedWindow<E>>) -> Map<u32, ManagedWindow<E>> {
    Map::new(
        |cg: u32| has_cg(s, cg),
        |cg: u32| s[choose|i: int| 0 <= i < s.len() && (#[trigger] s[i]).cg_id == cg],
    )
}

proof fn lemma_entry_lookup<E>(s: Seq<ManagedWindow<E>>, i: int)
    requires
        ids_unique(s),
        0 <= i < s.len(),
    ensures
        windows_map(s).contains_key(s[i].cg_id),
        windows_map(s)[s[i].cg_id] == s[i],
{
    let cg = s[i].cg_id;
    assert(has_cg(s, cg));
    let j = choose|j: int| 0 <= j < s.len() && (#[trigger] s[j]).cg_id == cg;
    assert(j == i);
}

/// Whether `w` is parked offscreen but no longer sits at the hidden
/// position for `monitors`, as happens when the monitors change.
pub open spec fn needs_rehide<E>(w: ManagedWindow<E>, monitors: Seq<PixelRect>) -> bool {
    w.control.state matches WindowState::Positioned(PositionedState::Offscreen(o)) && !at_hidden_spec(
        o.actual,
        monitors,
    )
}

/// Filtering a sequence with one more element at the end.
proof fn lemma_filter_push<A>(s: Seq<A>, a: A, p: spec_fn(A) -> bool)
    ensures
        s.push(a).filter(p) == (if p(a) {
            s.filter(p).push(a)
        } else {
            s.filter(p)
        }),
{
    reveal(Seq::filter);
    assert(s.push(a).drop_last() =~= s);
}

/// A filter that keeps every element keeps the sequence.
proof fn lemma_filter_keeps_all<A>(s: Seq<A>, p: spec_fn(A) -> bool)
    requires
        forall|i: int| 0 <= i < s.len() ==> p(#[trigger] s[i]),
    ensures
        s.filter(p) == s,
    decreases s.len(),
{
    if s.len() > 0 {
        lemma_filter_keeps_all(s.drop_last(), p);
        lemma_filter_push(s.drop_last(), s.last(), p);
        assert(s.drop_last().push(s.last()) =~= s);
    } else {
        reveal(Seq::filter);
    }
}

/// Filters whose predicates agree on the elements give the same result.
proof fn lemma_filter_agree<A>(s: Seq<A>, p: spec_fn(A) -> bool, q: spec_fn(A) -> bool)
    requires
        forall|i: int| 0 <= i < s.len() ==> p(#[trigger] s[i]) == q(s[i]),
    ensures
        s.filter(p) == s.filter(q),
    decreases s.len(),
{
    if s.len() > 0 {
        lemma_filter_agree(s.drop_last(), p, q);
        lemma_filter_push(s.drop_last(), s.last(), p);
        lemma_filter_push(s.drop_last(), s.last(), q);
        assert(s.drop_last().push(s.last()) =~= s);
    } else {
        reveal(Seq::filter);
    }
}

/// Filtering twice is filtering by both predicates.
proof fn lemma_filter_twice<A>(s: Seq<A>, p: spec_fn(A) -> bool, q: spec_fn(A) -> bool)
    ensures
        s.filter(p).filter(q) == s.filter(|x: A| p(x) && q(x)),
    decreases s.len(),
{
    if s.len() > 0 {
        lemma_filter_twice(s.drop_last(), p, q);
        lemma_filter_push(s.drop_last(), s.last(), p);
        lemma_filter_push(s.drop_last(), s.last(), |x: A| p(x) && q(x));
        lemma_filter_push(s.drop_last().filter(p), s.last(), q);
        assert(s.drop_last().push(s.last()) =~= s);
    } else {
        reveal(Seq::filter);
    }
}

/// Removing the element at `i` of a sequence without duplicates is
/// filtering that element out.
proof fn lemma_remove_is_filter<A>(s: Seq<A>, i: int)
    requires
        s.no_duplicates(),
        0 <= i < s.len(),
    ensures
        s.remove(i) == s.filter(|x: A| x != s[i]),
{
    let p = |x: A| x != s[i];
    let a = s.subrange(0, i);
    let b = s.subrange(i + 1, s.len() as int);
    assert(s =~= a + (seq![s[i]] + b));
    Seq::filter_distributes_over_add(a, seq![s[i]] + b, p);
    Seq::filter_distributes_over_add(seq![s[i]], b, p);
    lemma_filter_keeps_all(a, p);
    lemma_filter_keeps_all(b, p);
    lemma_filter_push(Seq::<A>::empty(), s[i], p);
    assert(Seq::<A>::empty().push(s[i]) =~= seq![s[i]]);
    reveal(Seq::filter);
    assert(s.remove(i) =~= a + b);
}

/// Drops, in order, each window of `cgs` still tracked in `m`, together
/// with its layout id in `ids`: the windows left, the layout ids left and
/// the window server id and layout id of each window dropped.
pub open spec fn drop_all<E>(m: Map<u32, ManagedWindow<E>>, ids: Map<u64, u32>, cgs: Seq<u32>) -> (
    Map<u32, ManagedWindow<E>>,
    Map<u64, u32>,
    Seq<(u32, u64)>,
)
    decreases cgs.len(),
{
    if cgs.len() == 0 {
        (m, ids, seq![])
    } else {
        let (m1, i1, r1) = drop_all(m, ids, cgs.drop_last());
        let c = cgs.last();
        if m1.contains_key(c) {
            (m1.remove(c), i1.remove(m1[c].window_id), r1.push((c, m1[c].window_id)))
        } else {
            (m1, i1, r1)
        }
    }
}

/// The per-process lists after window `cg` leaves the list of `pid`; an
/// emptied list goes.
pub open spec fn unlist(m: Map<i32, Seq<u32>>, pid: i32, cg: u32) -> Map<i32, Seq<u32>> {
    if m.contains_key(pid) {
        let rest = m[pid].filter(other_than(cg));
        if rest.len() == 0 {
            m.remove(pid)
        } else {
            m.insert(pid, rest)
        }
    } else {
        m
    }
}

/// Whether a window server id is another than `cg`.
pub open spec fn other_than(cg: u32) -> spec_fn(u32) -> bool {
    |c: u32| c != cg
}

/// Whether `v` holds `x`.
fn listed_in(v: &Vec<u32>, x: u32) -> (r: bool)
    ensures
        r == v@.contains(x),
{
    let mut i: usize = 0;
    while i < v.len()
        invariant
            i <= v@.len(),
            forall|j: int| 0 <= j < i ==> v@[j] != x,
        decreases v@.len() - i,
    {
        if v[i] == x {
            assert(v@[i as int] == x);
            return true;
        }
        i = i + 1;
    }
    false
}

/// `v` without `x`.
fn without(v: &Vec<u32>, x: u32) -> (r: Vec<u32>)
    ensures
        r@ == v@.filter(other_than(x)),
{
    let mut out: Vec<u32> = Vec::new();
    let mut i: usize = 0;
    while i < v.len()
        invariant
            i <= v@.len(),
            out@ == v@.take(i as int).filter(other_than(x)),
        decreases v@.len() - i,
    {
        proof {
            assert(v@.take(i + 1) =~= v@.take(i as int).push(v@[i as int]));
            lemma_filter_push(v@.take(i as int), v@[i as int], other_than(x));
        }
        if v[i] != x {
            out.push(v[i]);
        }
        i = i + 1;
    }
    proof {
        assert(v@.take(v@.len() as int) =~= v@);
    }
    out
}

/// The window server ids listed under process `pid` in `m`, none when it
/// has no list.
pub open spec fn pid_list(m: Map<i32, Seq<u32>>, pid: i32) -> Seq<u32> {
    if m.contains_key(pid) {
        m[pid]
    } else {
        seq![]
    }
}

/// The windows Dome manages, found by window server id, by layout id and by
/// owning process.
pub struct WindowRegistry<E> {
    windows: Vec<ManagedWindow<E>>,
    /// Layout id to window server id.
    id_to_cg: HashMap<u64, u32>,
    /// Process to the window server ids tracked for it, in tracking order.
    pid_to_cg: HashMap<i32, Vec<u32>>,
}

impl<E> View for WindowRegistry<E> {
    type V = Map<u32, ManagedWindow<E>>;

    closed spec fn view(&self) -> Map<u32, ManagedWindow<E>> {
        windows_map(self.windows@)
    }
}

impl<E> WindowRegistry<E> {
    /// The entries are keyed by their window server id.
    pub open spec fn wf(&self) -> bool {
        &&& self.wf_inner()
        &&& forall|cg: u32| #[trigger] self@.contains_key(cg) ==> self@[cg].cg_id == cg
        &&& self.order().no_duplicates()
        &&& forall|cg: u32| #[trigger] self.order().contains(cg) <==> self@.contains_key(cg)
    }

    /// The window server ids of the tracked windows, in the order they were
    /// first tracked.
    pub closed spec fn order(&self) -> Seq<u32> {
        self.windows@.map_values(|w: ManagedWindow<E>| w.cg_id)
    }

    /// Where each layout id leads: the window server id it was last tracked
    /// under.
    pub closed spec fn ids(&self) -> Map<u64, u32> {
        self.id_to_cg@
    }

    /// The window server ids tracked for each process, in tracking order; a
    /// window tracked twice is listed twice.
    pub closed spec fn pids(&self) -> Map<i32, Seq<u32>> {
        self.pid_to_cg@.map_values(|v: Vec<u32>| v@)
    }

    pub closed spec fn wf_inner(&self) -> bool {
        ids_unique(self.windows@)
    }

    proof fn lemma_wf(&self)
        requires
            self.wf_inner(),
        ensures
            self.wf(),
    {
        let s = self.windows@;
        assert forall|cg: u32| #[trigger] self@.contains_key(cg) implies self@[cg].cg_id == cg by {
            let i = choose|i: int| 0 <= i < s.len() && (#[trigger] s[i]).cg_id == cg;
            lemma_entry_lookup(s, i);
        }
        let o = self.order();
        assert forall|i: int, j: int| 0 <= i < o.len() && 0 <= j < o.len() && i != j implies o[i] != o[j] by {
            assert(o[i] == s[i].cg_id && o[j] == s[j].cg_id);
        }
        assert forall|cg: u32| #[trigger] o.contains(cg) <==> self@.contains_key(cg) by {
            if o.contains(cg) {
                let i = choose|i: int| 0 <= i < o.len() && o[i] == cg;
                assert(s[i].cg_id == cg);
            }
            if self@.contains_key(cg) {
                let i = choose|i: int| 0 <= i < s.len() && (#[trigger] s[i]).cg_id == cg;
                assert(o[i] == cg);
            }
        }
    }

    pub fn new() -> (r: WindowRegistry<E>)
        ensures
            r.wf(),
            r@ == Map::<u32, ManagedWindow<E>>::empty(),
            r.order() == Seq::<u32>::empty(),
            r.ids() == Map::<u64, u32>::empty(),
            r.pids() == Map::<i32, Seq<u32>>::empty(),
    {
        let r = WindowRegistry { windows: Vec::new(), id_to_cg: HashMap::new(), pid_to_cg: HashMap::new() };
        assert(r.pids() =~= Map::<i32, Seq<u32>>::empty());
        assert(r@ =~= Map::<u32, ManagedWindow<E>>::empty());
        assert(r.order() =~= Seq::<u32>::empty());
        proof {
            r.lemma_wf();
        }
        r
    }

    fn index_of(&self, cg_id: u32) -> (r: Option<usize>)
        ensures
            r matches Some(i) ==> i < self.windows@.len() && self.windows@[i as int].cg_id == cg_id,
            r is None ==> !has_cg(self.windows@, cg_id),
    {
        let mut i: usize = 0;
        while i < self.windows.len()
            invariant
                i <= self.windows@.len(),
                forall|j: int| 0 <= j < i ==> (#[trigger] self.windows@[j]).cg_id != cg_id,
            decreases self.windows@.len() - i,
        {
            if self.windows[i].cg_id == cg_id {
                return Some(i);
            }
            i = i + 1;
        }
        None
    }

    pub fn contains(&self, cg_id: u32) -> (r: bool)
        requires
            self.wf(),
        ensures
            r == self@.contains_key(cg_id),
    {
        self.index_of(cg_id).is_some()
    }

    /// The entry of window `cg_id`, if Dome manages it.
    pub fn get(&self, cg_id: u32) -> (r: Option<&ManagedWindow<E>>)
        requires
            self.wf(),
        ensures
            r matches Some(w) ==> self@.contains_key(cg_id) && *w == self@[cg_id],
            r is None ==> !self@.contains_key(cg_id),
    {
        match self.index_of(cg_id) {
            Some(i) => {
                proof {
                    lemma_entry_lookup(self.windows@, i as int);
                }
                Some(&self.windows[i])
            },
            None => None,
        }
    }

    /// Whether layout id `window_id` leads to a tracked window.
    pub open spec fn finds(&self, window_id: u64) -> bool {
        self.ids().contains_key(window_id) && self@.contains_key(self.ids()[window_id])
    }

    /// The window server id that layout id `window_id` leads to, if that
    /// window is tracked.
    pub fn cg_for_id(&self, window_id: u64) -> (r: Option<u32>)
        requires
            self.wf(),
        ensures
            r == (if self.finds(window_id) {
                Some(self.ids()[window_id])
            } else {
                None
            }),
    {
        match self.id_to_cg.get(&window_id) {
            Some(cg) => {
                if self.contains(*cg) {
                    Some(*cg)
                } else {
                    None
                }
            },
            None => None,
        }
    }

    /// The entry of the window that layout id `window_id` leads to.
    pub fn by_id(&self, window_id: u64) -> (r: Option<&ManagedWindow<E>>)
        requires
            self.wf(),
        ensures
            r matches Some(w) ==> self.finds(window_id) && *w == self@[self.ids()[window_id]],
            r is None ==> !self.finds(window_id),
    {
        match self.cg_for_id(window_id) {
            Some(cg) => self.get(cg),
            None => None,
        }
    }

    /// Starts tracking a window. Dome never manages its own windows, so a
    /// window of process `own_pid` is ignored. An entry with the same window
    /// server id is replaced in place; layout id `window_id` now leads to
    /// this window, and the window is listed (again) under process `pid`.
    pub fn insert(
        &mut self,
        ext: E,
        cg_id: u32,
        pid: i32,
        window_id: u64,
        state: WindowState,
        own_pid: u32,
    )
        requires
            old(self).wf(),
        ensures
            final(self).wf(),
            pid as u32 == own_pid ==> final(self)@ == old(self)@ && final(self).ids() == old(self).ids()
                && final(self).pids() == old(self).pids() && final(self).order() == old(self).order(),
            pid as u32 != own_pid ==> {
                &&& final(self)@ == old(self)@.insert(
                    cg_id,
                    ManagedWindow {
                        ext,
                        cg_id,
                        window_id,
                        pid,
                        control: WindowControl { state, is_minimized: false, is_moving: false },
                    },
                )
                &&& final(self).ids() == old(self).ids().insert(window_id, cg_id)
                &&& final(self).pids() == old(self).pids().insert(
                    pid,
                    pid_list(old(self).pids(), pid).push(cg_id),
                )
                &&& final(self).order() == if old(self)@.contains_key(cg_id) {
                    old(self).order()
                } else {
                    old(self).order().push(cg_id)
                }
            },
    {
        if pid as u32 == own_pid {
            return;
        }
        self.id_to_cg.insert(window_id, cg_id);
        let mut list = match self.pid_to_cg.remove(&pid) {
            Some(v) => v,
            None => Vec::new(),
        };
        list.push(cg_id);
        self.pid_to_cg.insert(pid, list);
        proof {
            assert(self.pids() =~= old(self).pids().insert(pid, pid_list(old(self).pids(), pid).push(cg_id)));
        }
        let ghost old_s = self.windows@;
        let entry = ManagedWindow { ext, cg_id, window_id, pid, control: WindowControl::new(state) };
        let ghost e = entry;
        match self.index_of(cg_id) {
            Some(i) => {
                proof {
                    lemma_entry_lookup(old_s, i as int);
                }
                self.windows.set(i, entry);
                proof {
                    let s = self.windows@;
                    assert(ids_unique(s)) by {
                        assert forall|a: int, b: int|
                            0 <= a < s.len() && 0 <= b < s.len() && a != b implies (
                        #[trigger] s[a]).cg_id != (#[trigger] s[b]).cg_id by {
                            if a == i {
                                lemma_entry_lookup(old_s, b);
                            } else if b == i {
                                lemma_entry_lookup(old_s, a);
                            }
                        }
                    }
                    self.lemma_map_after_set(old_s, i as int, e);
                    assert(self.order() =~= old(self).order());
                }
            },
            None => {
                self.windows.push(entry);
                proof {
                    let s = self.windows@;
                    assert(s[s.len() - 1] == e);
                    assert(ids_unique(s)) by {
                        assert forall|a: int, b: int|
                            0 <= a < s.len() && 0 <= b < s.len() && a != b implies (
                        #[trigger] s[a]).cg_id != (#[trigger] s[b]).cg_id by {
                            if a == s.len() - 1 {
                                assert(s[b] == old_s[b]);
                                lemma_entry_lookup(old_s, b);
                            } else if b == s.len() - 1 {
                                assert(s[a] == old_s[a]);
                                lemma_entry_lookup(old_s, a);
                            } else {
                                assert(s[a] == old_s[a] && s[b] == old_s[b]);
                            }
                        }
                    }
                    assert forall|cg: u32| #[trigger]
                        windows_map(s).contains_key(cg) == windows_map(old_s).insert(cg_id, e).contains_key(
                            cg,
                        ) by {
                        if has_cg(old_s, cg) {
                            let j = choose|j: int| 0 <= j < old_s.len() && (#[trigger] old_s[j]).cg_id == cg;
                            assert(s[j] == old_s[j]);
                        }
                        if cg == cg_id {
                            assert(s[s.len() - 1].cg_id == cg);
                        }
                        if has_cg(s, cg) {
                            let j = choose|j: int| 0 <= j < s.len() && (#[trigger] s[j]).cg_id == cg;
                            if j < old_s.len() {
                                assert(s[j] == old_s[j]);
                            }
                        }
                    }
                    assert forall|cg: u32| #[trigger]
                        windows_map(s).contains_key(cg) implies windows_map(s)[cg] == windows_map(
                        old_s,
                    ).insert(cg_id, e)[cg] by {
                        let j = choose|j: int| 0 <= j < s.len() && (#[trigger] s[j]).cg_id == cg;
                        lemma_entry_lookup(s, j);
                        if j < old_s.len() {
                            assert(s[j] == old_s[j]);
                            lemma_entry_lookup(old_s, j);
                        }
                    }
                    assert(windows_map(s) =~= windows_map(old_s).insert(cg_id, e));
                    assert(self.order() =~= old(self).order().push(cg_id));
                }
            },
        }
        proof {
            self.lemma_wf();
        }
    }

    /// After entry `i` of `old_s` is replaced by `e` with the same window
    /// server id, the map holds `e` at that id.
    proof fn lemma_map_after_set(&self, old_s: Seq<ManagedWindow<E>>, i: int, e: ManagedWindow<E>)
        requires
            ids_unique(old_s),
            ids_unique(self.windows@),
            0 <= i < old_s.len(),
            self.windows@ == old_s.update(i, e),
            old_s[i].cg_id == e.cg_id,
        ensures
            self@ == windows_map(old_s).insert(e.cg_id, e),
    {
        let s = self.windows@;
        assert forall|cg: u32| #[trigger]
            windows_map(s).contains_key(cg) == windows_map(old_s).insert(e.cg_id, e).contains_key(cg) by {
            if has_cg(old_s, cg) {
                let j = choose|j: int| 0 <= j < old_s.len() && (#[trigger] old_s[j]).cg_id == cg;
                assert(s[j].cg_id == cg);
            }
            if has_cg(s, cg) {
                let j = choose|j: int| 0 <= j < s.len() && (#[trigger] s[j]).cg_id == cg;
                assert(old_s[j].cg_id == cg);
            }
        }
        assert forall|cg: u32| #[trigger]
            windows_map(s).contains_key(cg) implies windows_map(s)[cg] == windows_map(old_s).insert(
            e.cg_id,
            e,
        )[cg] by {
            let j = choose|j: int| 0 <= j < s.len() && (#[trigger] s[j]).cg_id == cg;
            lemma_entry_lookup(s, j);
            lemma_entry_lookup(old_s, j);
        }
        assert(windows_map(s) =~= windows_map(old_s).insert(e.cg_id, e));
    }

    /// Stops tracking window `cg_id`, returning its layout id if it was tracked.
    /// Drops the entry of window `cg_id` and its layout id, returning its
    /// layout id and process; the per-process lists are left alone.
    fn remove_entry(&mut self, cg_id: u32) -> (r: Option<(u64, i32)>)
        requires
            old(self).wf(),
        ensures
            final(self).wf(),
            final(self)@ == old(self)@.remove(cg_id),
            final(self).order() == old(self).order().filter(|c: u32| c != cg_id),
            final(self).pids() == old(self).pids(),
            r == (if old(self)@.contains_key(cg_id) {
                Some((old(self)@[cg_id].window_id, old(self)@[cg_id].pid))
            } else {
                None
            }),
            final(self).ids() == if old(self)@.contains_key(cg_id) {
                old(self).ids().remove(old(self)@[cg_id].window_id)
            } else {
                old(self).ids()
            },
    {
        let ghost old_s = self.windows@;
        match self.index_of(cg_id) {
            Some(i) => {
                proof {
                    lemma_entry_lookup(old_s, i as int);
                }
                let entry = self.windows.remove(i);
                proof {
                    let s = self.windows@;
                    assert(s =~= old_s.remove(i as int));
                    assert forall|a: int| 0 <= a < s.len() implies #[trigger] s[a] == old_s[if a < i {
                        a
                    } else {
                        a + 1
                    }] by {}
                    assert(ids_unique(s)) by {
                        assert forall|a: int, b: int|
                            0 <= a < s.len() && 0 <= b < s.len() && a != b implies (
                        #[trigger] s[a]).cg_id != (#[trigger] s[b]).cg_id by {
                            let a2 = if a < i {
                                a
                            } else {
                                a + 1
                            };
                            let b2 = if b < i {
                                b
                            } else {
                                b + 1
                            };
                            assert(s[a] == old_s[a2] && s[b] == old_s[b2]);
                        }
                    }
                    assert forall|cg: u32| #[trigger]
                        windows_map(s).contains_key(cg) == windows_map(old_s).remove(cg_id).contains_key(
                            cg,
                        ) by {
                        if has_cg(old_s, cg) && cg != cg_id {
                            let j = choose|j: int| 0 <= j < old_s.len() && (#[trigger] old_s[j]).cg_id == cg;
                            assert(j != i);
                            let j2 = if j < i {
                                j
                            } else {
                                j - 1
                            };
                            assert(s[j2] == old_s[j]);
                        }
                        if has_cg(s, cg) {
                            let j = choose|j: int| 0 <= j < s.len() && (#[trigger] s[j]).cg_id == cg;
                            let j2 = if j < i {
                                j
                            } else {
                                j + 1
                            };
                            assert(s[j] == old_s[j2]);
                            assert(j2 != i);
                        }
                    }
                    assert forall|cg: u32| #[trigger]
                        windows_map(s).contains_key(cg) implies windows_map(s)[cg] == windows_map(
                        old_s,
                    ).remove(cg_id)[cg] by {
                        let j = choose|j: int| 0 <= j < s.len() && (#[trigger] s[j]).cg_id == cg;
                        let j2 = if j < i {
                            j
                        } else {
                            j + 1
                        };
                        lemma_entry_lookup(s, j);
                        lemma_entry_lookup(old_s, j2);
                    }
                    assert(windows_map(s) =~= windows_map(old_s).remove(cg_id));
                    self.lemma_wf();
                    let o = old(self).order();
                    assert(self.order() =~= o.remove(i as int));
                    lemma_remove_is_filter(o, i as int);
                    lemma_filter_agree(o, |x: u32| x != o[i as int], |c: u32| c != cg_id);
                }
                self.id_to_cg.remove(&entry.window_id);
                Some((entry.window_id, entry.pid))
            },
            None => {
                proof {
                    assert(windows_map(old_s).remove(cg_id) =~= windows_map(old_s));
                    self.lemma_wf();
                    let o = old(self).order();
                    assert forall|j: int| 0 <= j < o.len() implies (|c: u32| c != cg_id)(#[trigger] o[j]) by {
                        assert(o.contains(o[j]));
                    }
                    lemma_filter_keeps_all(o, |c: u32| c != cg_id);
                }
                None
            },
        }
    }

    /// Stops tracking window `cg_id`: its entry goes, its layout id no
    /// longer leads anywhere, and it leaves the list of its process, which
    /// goes when it empties. Returns its layout id.
    pub fn remove(&mut self, cg_id: u32) -> (r: Option<u64>)
        requires
            old(self).wf(),
        ensures
            final(self).wf(),
            final(self)@ == old(self)@.remove(cg_id),
            final(self).order() == old(self).order().filter(|c: u32| c != cg_id),
            r == (if old(self)@.contains_key(cg_id) {
                Some(old(self)@[cg_id].window_id)
            } else {
                None
            }),
            final(self).ids() == if old(self)@.contains_key(cg_id) {
                old(self).ids().remove(old(self)@[cg_id].window_id)
            } else {
                old(self).ids()
            },
            final(self).pids() == if old(self)@.contains_key(cg_id) {
                unlist(old(self).pids(), old(self)@[cg_id].pid, cg_id)
            } else {
                old(self).pids()
            },
    {
        match self.remove_entry(cg_id) {
            None => None,
            Some((window_id, pid)) => {
                let ghost mid = self.pids();
                let ghost before_map = self.pid_to_cg@;
                if let Some(list) = self.pid_to_cg.remove(&pid) {
                    proof {
                        assert(before_map.contains_key(pid) && before_map[pid] == list);
                        assert(mid.contains_key(pid) && mid[pid] == list@);
                        assert(self.pid_to_cg@ == before_map.remove(pid));
                    }
                    let kept = without(&list, cg_id);
                    if kept.len() > 0 {
                        self.pid_to_cg.insert(pid, kept);
                        proof {
                            assert(self.pids() =~= mid.insert(pid, mid[pid].filter(other_than(cg_id))));
                        }
                    } else {
                        proof {
                            assert(self.pids() =~= mid.remove(pid));
                        }
                    }
                } else {
                    proof {
                        assert(!mid.contains_key(pid));
                    }
                }
                Some(window_id)
            },
        }
    }

    /// The window server ids of all tracked windows, in the order they were
    /// first tracked.
    pub fn all_ids(&self) -> (r: Vec<u32>)
        requires
            self.wf(),
        ensures
            r@ == self.order(),
    {
        let mut out: Vec<u32> = Vec::new();
        let mut i: usize = 0;
        while i < self.windows.len()
            invariant
                i <= self.windows@.len(),
                out@ == self.order().take(i as int),
            decreases self.windows@.len() - i,
        {
            out.push(self.windows[i].cg_id);
            proof {
                assert(out@ =~= self.order().take(i + 1));
            }
            i = i + 1;
        }
        proof {
            assert(self.order().take(self.windows@.len() as int) =~= self.order());
        }
        out
    }

    /// Whether a window server id is tracked.
    pub open spec fn tracks(&self) -> spec_fn(u32) -> bool {
        |c: u32| self@.contains_key(c)
    }

    /// The tracked windows listed under process `pid`, in the order they
    /// were listed (a window tracked twice for it comes twice).
    pub fn for_pid(&self, pid: i32) -> (r: Vec<u32>)
        requires
            self.wf(),
        ensures
            r@ == pid_list(self.pids(), pid).filter(self.tracks()),
    {
        let mut out: Vec<u32> = Vec::new();
        match self.pid_to_cg.get(&pid) {
            None => {
                proof {
                    reveal(Seq::filter);
                    assert(pid_list(self.pids(), pid) =~= Seq::<u32>::empty());
                }
            },
            Some(list) => {
                let ghost l = list@;
                proof {
                    assert(pid_list(self.pids(), pid) == l);
                    reveal(Seq::filter);
                    assert(l.take(0) =~= Seq::<u32>::empty());
                }
                let mut i: usize = 0;
                while i < list.len()
                    invariant
                        l == list@,
                        i <= l.len(),
                        self.wf(),
                        out@ == l.take(i as int).filter(self.tracks()),
                    decreases l.len() - i,
                {
                    proof {
                        assert(l.take(i + 1) =~= l.take(i as int).push(l[i as int]));
                        lemma_filter_push(l.take(i as int), l[i as int], self.tracks());
                    }
                    if self.contains(list[i]) {
                        out.push(list[i]);
                    }
                    i = i + 1;
                }
                proof {
                    assert(l.take(l.len() as int) =~= l);
                }
            },
        }
        out
    }

    /// Stops tracking the windows listed under process `pid`: its list goes,
    /// and each listed window still tracked is dropped with its layout id, in
    /// list order. Returns the window server id and layout id of each window
    /// dropped.
    pub fn remove_by_pid(&mut self, pid: i32) -> (removed: Vec<(u32, u64)>)
        requires
            old(self).wf(),
        ensures
            final(self).wf(),
            final(self).pids() == old(self).pids().remove(pid),
            (final(self)@, final(self).ids(), removed@) == drop_all(
                old(self)@,
                old(self).ids(),
                pid_list(old(self).pids(), pid),
            ),
            final(self).order() == old(self).order().filter(final(self).tracks()),
    {
        let mut removed: Vec<(u32, u64)> = Vec::new();
        let ghost m0 = self@;
        let ghost i0 = self.ids();
        let ghost p0 = self.pids();
        let ghost o0 = self.order();
        proof {
            assert forall|j: int| 0 <= j < o0.len() implies self.tracks()(#[trigger] o0[j]) by {
                assert(o0.contains(o0[j]));
            }
            lemma_filter_keeps_all(o0, self.tracks());
        }
        let ghost before_map = self.pid_to_cg@;
        match self.pid_to_cg.remove(&pid) {
            None => {
                proof {
                    assert(self.pids() =~= p0.remove(pid));
                    assert(pid_list(p0, pid) =~= Seq::<u32>::empty());
                }
            },
            Some(list) => {
                let ghost l = list@;
                proof {
                    assert(before_map[pid] == list);
                    assert(pid_list(p0, pid) == l);
                    assert(self.pids() =~= p0.remove(pid));
                    assert(l.take(0) =~= Seq::<u32>::empty());
                }
                let mut k: usize = 0;
                while k < list.len()
                    invariant
                        l == list@,
                        k <= l.len(),
                        self.wf(),
                        self.pids() == p0.remove(pid),
                        (self@, self.ids(), removed@) == drop_all(m0, i0, l.take(k as int)),
                        self.order() == o0.filter(self.tracks()),
                    decreases l.len() - k,
                {
                    let cg = list[k];
                    let ghost m1 = self@;
                    let ghost ord1 = self.order();
                    proof {
                        assert(l.take(k + 1).drop_last() =~= l.take(k as int));
                        assert(l.take(k + 1).last() == cg);
                    }
                    match self.remove_entry(cg) {
                        Some((window_id, _)) => {
                            removed.push((cg, window_id));
                        },
                        None => {},
                    }
                    proof {
                        let p = |c: u32| m1.contains_key(c);
                        let q = |c: u32| self@.contains_key(c);
                        assert(ord1 == o0.filter(p));
                        lemma_filter_twice(o0, p, other_than(cg));
                        assert forall|j: int| 0 <= j < o0.len() implies (|x: u32| p(x) && other_than(cg)(x))(
                            #[trigger] o0[j],
                        ) == q(o0[j]) by {}
                        lemma_filter_agree(o0, |x: u32| p(x) && other_than(cg)(x), q);
                        lemma_filter_agree(ord1, |c: u32| c != cg, other_than(cg));
                        assert(self.tracks() == q);
                    }
                    k = k + 1;
                }
                proof {
                    assert(l.take(l.len() as int) =~= l);
                }
            },
        }
        removed
    }

    /// The placement state of the window that layout id `window_id` leads
    /// to.
    pub fn control(&self, window_id: u64) -> (r: Option<WindowControl>)
        requires
            self.wf(),
        ensures
            r == (if self.finds(window_id) {
                Some(self@[self.ids()[window_id]].control)
            } else {
                None
            }),
    {
        match self.by_id(window_id) {
            Some(w) => Some(w.control),
            None => None,
        }
    }

    /// Sets the placement state of the window that layout id `window_id`
    /// leads to; returns false, changing nothing, when it leads to none.
    pub fn set_control(&mut self, window_id: u64, control: WindowControl) -> (found: bool)
        requires
            old(self).wf(),
        ensures
            final(self).wf(),
            final(self).order() == old(self).order(),
            final(self).ids() == old(self).ids(),
            final(self).pids() == old(self).pids(),
            found == old(self).finds(window_id),
            !found ==> final(self)@ == old(self)@,
            found ==> final(self)@ == old(self)@.insert(
                old(self).ids()[window_id],
                ManagedWindow { control, ..old(self)@[old(self).ids()[window_id]] },
            ),
    {
        let ghost old_s = self.windows@;
        let cg = match self.cg_for_id(window_id) {
            Some(cg) => cg,
            None => {
                return false;
            },
        };
        match self.index_of(cg) {
            Some(i) => {
                proof {
                    lemma_entry_lookup(old_s, i as int);
                }
                let mut entry = self.windows.remove(i);
                entry.control = control;
                self.windows.insert(i, entry);
                proof {
                    let s = self.windows@;
                    let e = ManagedWindow { control, ..old_s[i as int] };
                    assert(s =~= old_s.update(i as int, e));
                    assert(ids_unique(s)) by {
                        assert forall|a: int, b: int|
                            0 <= a < s.len() && 0 <= b < s.len() && a != b implies (
                        #[trigger] s[a]).cg_id != (#[trigger] s[b]).cg_id by {
                            assert(s[a].cg_id == old_s[a].cg_id);
                            assert(s[b].cg_id == old_s[b].cg_id);
                        }
                    }
                    self.lemma_map_after_set(old_s, i as int, e);
                    self.lemma_wf();
                    assert(self.order() =~= old(self).order());
                }
                true
            },
            None => {
                proof {
                    assert(false);
                }
                false
            },
        }
    }

    /// Marks every window of process `pid` as moving, or not.
    pub fn set_pid_moving(&mut self, pid: i32, moving: bool)
        requires
            old(self).wf(),
        ensures
            final(self).wf(),
            final(self).order() == old(self).order(),
            final(self).ids() == old(self).ids(),
            final(self).pids() == old(self).pids(),
            final(self)@.dom() == old(self)@.dom(),
            forall|cg: u32| #[trigger]
                old(self)@.contains_key(cg) ==> final(self)@[cg] == (if pid_list(old(self).pids(), pid).contains(cg) {
                    ManagedWindow {
                        control: WindowControl { is_moving: moving, ..old(self)@[cg].control },
                        ..old(self)@[cg]
                    }
                } else {
                    old(self)@[cg]
                }),
    {
        let ghost old_s = self.windows@;
        let ghost lst = pid_list(self.pids(), pid);
        let mut i: usize = 0;
        while i < self.windows.len()
            invariant
                self.windows@.len() == old_s.len(),
                ids_unique(old_s),
                i <= old_s.len(),
                lst == pid_list(self.pids(), pid),
                self.pids() == old(self).pids(),
                self.ids() == old(self).ids(),
                forall|j: int|
                    0 <= j < old_s.len() ==> (#[trigger] self.windows@[j]) == (if j < i && lst.contains(
                        old_s[j].cg_id,
                    ) {
                        ManagedWindow {
                            control: WindowControl { is_moving: moving, ..old_s[j].control },
                            ..old_s[j]
                        }
                    } else {
                        old_s[j]
                    }),
            decreases old_s.len() - i,
        {
            let cg = self.windows[i].cg_id;
            let listed = match self.pid_to_cg.get(&pid) {
                Some(l) => listed_in(l, cg),
                None => false,
            };
            if listed {
                let mut entry = self.windows.remove(i);
                entry.control.is_moving = moving;
                self.windows.insert(i, entry);
            }
            i = i + 1;
        }
        proof {
            let s = self.windows@;
            assert(ids_unique(s)) by {
                assert forall|a: int, b: int|
                    0 <= a < s.len() && 0 <= b < s.len() && a != b implies (#[trigger] s[a]).cg_id
                    != (#[trigger] s[b]).cg_id by {
                    assert(s[a].cg_id == old_s[a].cg_id && s[a].window_id == old_s[a].window_id);
                    assert(s[b].cg_id == old_s[b].cg_id && s[b].window_id == old_s[b].window_id);
                }
            }
            assert forall|cg: u32| #[trigger] windows_map(s).contains_key(cg) == windows_map(old_s).contains_key(cg) by {
                if has_cg(old_s, cg) {
                    let j = choose|j: int| 0 <= j < old_s.len() && (#[trigger] old_s[j]).cg_id == cg;
                    assert(s[j].cg_id == cg);
                }
                if has_cg(s, cg) {
                    let j = choose|j: int| 0 <= j < s.len() && (#[trigger] s[j]).cg_id == cg;
                    assert(old_s[j].cg_id == cg);
                }
            }
            assert(windows_map(s).dom() =~= windows_map(old_s).dom());
            assert forall|cg: u32| #[trigger] old(self)@.contains_key(cg) implies self@[cg] == (if lst.contains(cg) {
                ManagedWindow {
                    control: WindowControl { is_moving: moving, ..old(self)@[cg].control },
                    ..old(self)@[cg]
                }
            } else {
                old(self)@[cg]
            }) by {
                let j = choose|j: int| 0 <= j < old_s.len() && (#[trigger] old_s[j]).cg_id == cg;
                assert(old_s[j].cg_id == cg);
                lemma_entry_lookup(old_s, j);
                lemma_entry_lookup(s, j);
            }
            self.lemma_wf();
        }
    }

    /// Replaces the handle of tracked window `cg_id` by `ext`, whose process
    /// is `pid` (normally the same process). The per-process lists are left
    /// as they are. Returns true if the window was tracked.
    pub fn replace_ext(&mut self, cg_id: u32, ext: E, pid: i32) -> (found: bool)
        requires
            old(self).wf(),
        ensures
            final(self).wf(),
            final(self).order() == old(self).order(),
            final(self).ids() == old(self).ids(),
            final(self).pids() == old(self).pids(),
            found == old(self)@.contains_key(cg_id),
            found ==> final(self)@ == old(self)@.insert(cg_id, ManagedWindow { ext, pid, ..old(self)@[cg_id] }),
            !found ==> final(self)@ == old(self)@,
    {
        let ghost old_s = self.windows@;
        match self.index_of(cg_id) {
            Some(i) => {
                proof {
                    lemma_entry_lookup(old_s, i as int);
                }
                let mut entry = self.windows.remove(i);
                entry.ext = ext;
                entry.pid = pid;
                self.windows.insert(i, entry);
                proof {
                    let s = self.windows@;
                    let e = ManagedWindow { ext, pid, ..old_s[i as int] };
                    assert(s =~= old_s.update(i as int, e));
                    assert(ids_unique(s)) by {
                        assert forall|a: int, b: int|
                            0 <= a < s.len() && 0 <= b < s.len() && a != b implies (
                        #[trigger] s[a]).cg_id != (#[trigger] s[b]).cg_id by {
                            assert(s[a].cg_id == old_s[a].cg_id && s[a].window_id == old_s[a].window_id);
                            assert(s[b].cg_id == old_s[b].cg_id && s[b].window_id == old_s[b].window_id);
                        }
                    }
                    self.lemma_map_after_set(old_s, i as int, e);
                    self.lemma_wf();
                    assert(self.order() =~= old(self).order());
                }
                true
            },
            None => {
                proof {
                    self.lemma_wf();
                }
                false
            },
        }
    }

    /// The windows parked offscreen that must be moved again to stay hidden
    /// on `monitors`, each with the position to move it to, in the order
    /// they were first tracked.
    pub fn rehide_offscreen_windows(&self, monitors: &[PixelRect]) -> (r: Vec<(u32, i64, i64)>)
        requires
            self.wf(),
            monitors@.len() > 0,
        ensures
            forall|k: int|
                0 <= k < r@.len() ==> {
                    &&& self@.contains_key(#[trigger] r@[k].0)
                    &&& needs_rehide(self@[r@[k].0], monitors@)
                    &&& r@[k].1 == hidden_position_spec(monitors@).0 as i64
                    &&& r@[k].2 == hidden_position_spec(monitors@).1 as i64
                },
            forall|cg: u32|
                #[trigger] self@.contains_key(cg) && needs_rehide(self@[cg], monitors@) ==> exists|k: int|
                    0 <= k < r@.len() && r@[k].0 == cg,
            forall|a: int, b: int| 0 <= a < b < r@.len() ==> (#[trigger] r@[a]).0 != (#[trigger] r@[b]).0,
            r@.map_values(|e: (u32, i64, i64)| e.0) == self.order().filter(
                |cg: u32| needs_rehide(self@[cg], monitors@),
            ),
    {
        let mut out: Vec<(u32, i64, i64)> = Vec::new();
        let ghost s = self.windows@;
        let ghost o = self.order();
        let ghost q = |cg: u32| needs_rehide(self@[cg], monitors@);
        // The index in `s` of the window each entry of `out` comes from.
        let ghost mut from: Seq<int> = Seq::empty();
        let ghost hx = hidden_position_spec(monitors@).0 as i64;
        let ghost hy = hidden_position_spec(monitors@).1 as i64;
        let mut i: usize = 0;
        while i < self.windows.len()
            invariant
                s == self.windows@,
                ids_unique(s),
                i <= s.len(),
                monitors@.len() > 0,
                hx == hidden_position_spec(monitors@).0 as i64,
                hy == hidden_position_spec(monitors@).1 as i64,
                o == self.order(),
                q == (|cg: u32| needs_rehide(self@[cg], monitors@)),
                out@.map_values(|e: (u32, i64, i64)| e.0) == o.take(i as int).filter(q),
                from.len() == out@.len(),
                forall|k: int|
                    0 <= k < out@.len() ==> 0 <= #[trigger] from[k] < i && s[from[k]].cg_id == out@[k].0
                        && needs_rehide(s[from[k]], monitors@) && out@[k].1 == hx && out@[k].2 == hy,
                forall|a: int, b: int| 0 <= a < b < out@.len() ==> #[trigger] from[a] < #[trigger] from[b],
                forall|j: int|
                    0 <= j < i && needs_rehide(#[trigger] s[j], monitors@) ==> exists|k: int|
                        0 <= k < out@.len() && from[k] == j,
            decreases s.len() - i,
        {
            let ghost before = out@;
            let ghost from_before = from;
            proof {
                lemma_entry_lookup(s, i as int);
                assert(o.take(i + 1) =~= o.take(i as int).push(o[i as int]));
                lemma_filter_push(o.take(i as int), o[i as int], q);
                assert(q(o[i as int]) == needs_rehide(s[i as int], monitors@));
            }
            if let WindowState::Positioned(PositionedState::Offscreen(o)) = self.windows[i].control.state {
                if let Some((x, y)) = move_offscreen(monitors, &o.actual) {
                    out.push((self.windows[i].cg_id, x, y));
                    proof {
                        from = from.push(i as int);
                        assert(needs_rehide(s[i as int], monitors@));
                        assert forall|k: int| 0 <= k < before.len() implies #[trigger] out@[k] == before[k]
                            && from[k] == from_before[k] by {}
                    }
                }
            }
            proof {
                if needs_rehide(s[i as int], monitors@) {
                    assert(out@.map_values(|e: (u32, i64, i64)| e.0) =~= before.map_values(
                        |e: (u32, i64, i64)| e.0,
                    ).push(o[i as int]));
                } else {
                    assert(out@ == before);
                }
                assert forall|j: int|
                    0 <= j < i + 1 && needs_rehide(#[trigger] s[j], monitors@) implies exists|k: int|
                    0 <= k < out@.len() && from[k] == j by {
                    if j < i {
                        let k = choose|k: int| 0 <= k < before.len() && from_before[k] == j;
                        assert(from[k] == j);
                    } else {
                        assert(from[out@.len() - 1] == j);
                    }
                }
            }
            i = i + 1;
        }
        proof {
            assert(o.take(o.len() as int) =~= o);
            assert(s.len() == o.len());
            assert forall|k: int| 0 <= k < out@.len() implies {
                &&& self@.contains_key(#[trigger] out@[k].0)
                &&& needs_rehide(self@[out@[k].0], monitors@)
                &&& out@[k].1 == hidden_position_spec(monitors@).0 as i64
                &&& out@[k].2 == hidden_position_spec(monitors@).1 as i64
            } by {
                assert(0 <= from[k] < s.len());
                lemma_entry_lookup(s, from[k]);
            }
            assert forall|cg: u32|
                #[trigger] self@.contains_key(cg) && needs_rehide(self@[cg], monitors@) implies exists|k: int|
                0 <= k < out@.len() && out@[k].0 == cg by {
                let j = choose|j: int| 0 <= j < s.len() && (#[trigger] s[j]).cg_id == cg;
                lemma_entry_lookup(s, j);
                assert(needs_rehide(s[j], monitors@));
                let k = choose|k: int| 0 <= k < out@.len() && from[k] == j;
                assert(out@[k].0 == cg);
            }
            assert forall|a: int, b: int| 0 <= a < b < out@.len() implies (#[trigger] out@[a]).0
                != (#[trigger] out@[b]).0 by {
                assert(from[a] < from[b]);
                assert(s[from[a]].cg_id != s[from[b]].cg_id);
            }
        }
        out
    }
}

/// How a newly listed window at `rect` starts out: whether the layout hub
/// must keep it fullscreen (it fills a monitor's work area, borderless
/// fullscreen), and its placement state, borderless fullscreen or parked
/// offscreen at `rect` until the layout shows it.
pub fn initial_state(monitors: &MonitorRegistry, rect: PixelRect) -> (r: (bool, WindowState))
    requires
        monitors.wf(),
    ensures
        borderless_outcome(monitors@.0, rect, r.0),
        r.1 == if r.0 {
            WindowState::BorderlessFullscreen
        } else {
            WindowState::Positioned(
                PositionedState::Offscreen(OffscreenPlacement { actual: rect, retries: 0 }),
            )
        },
{
    let borderless = monitors.is_borderless_fullscreen_at(rect);
    let state = if borderless {
        WindowState::BorderlessFullscreen
    } else {
        WindowState::Positioned(PositionedState::Offscreen(OffscreenPlacement::new(rect)))
    };
    (borderless, state)
}

/// Whether some monitor of `monitors` shows window `window_id`.
pub open spec fn displayed_on_some(monitors: MonitorRegistry, window_id: u64) -> bool {
    exists|d: u32| #[trigger] monitors@.0.contains_key(d) && monitors@.0[d].2.contains(window_id)
}

/// Handles a window with layout id `window_id` observed at `new_placement`
/// after a burst of move/resize notifications: the window's placement state
/// decides (`WindowControl::window_moved`), given whether the frame makes it
/// borderless fullscreen, whether a monitor shows it, the work areas to hide
/// on and the monitor a moved float lands on. Its new state is stored and the
/// effects to carry out are returned; an untracked window asks for nothing.
/// The monitors are unordered, so the monitor chosen
/// between equal candidates, and the order of the work areas, are not fixed.
pub fn window_moved<E>(
    windows: &mut WindowRegistry<E>,
    monitors: &MonitorRegistry,
    window_id: u64,
    new_placement: PixelRect,
    observed_at: DebounceBurst,
) -> (effects: Vec<WindowEffect>)
    requires
        old(windows).wf(),
        monitors.wf(),
        monitors@.0.contains_key(monitors@.1),
    ensures
        final(windows).wf(),
        final(windows).order() == old(windows).order(),
        final(windows).ids() == old(windows).ids(),
        final(windows).pids() == old(windows).pids(),
        !old(windows).finds(window_id) ==> effects@.len() == 0 && final(windows)@ == old(windows)@,
        old(windows).finds(window_id) ==> exists|bfs: bool, fm: u64, ws: Seq<PixelRect>|
            #![trigger moved_spec(old(windows)@[old(windows).ids()[window_id]].control, displayed_on_some(*monitors, window_id), new_placement, observed_at, bfs, ws, fm)]
            {
                let cg = old(windows).ids()[window_id];
                let (c, e) = moved_spec(
                    old(windows)@[cg].control,
                    displayed_on_some(*monitors, window_id),
                    new_placement,
                    observed_at,
                    bfs,
                    ws,
                    fm,
                );
                &&& borderless_outcome(monitors@.0, new_placement, bfs)
                &&& float_monitor_outcome(monitors@.0, monitors@.1, new_placement, fm)
                &&& work_area_listing(monitors@.0, ws)
                &&& final(windows)@ == old(windows)@.insert(cg, ManagedWindow { control: c, ..old(windows)@[cg] })
                &&& effects@ == e
            },
{
    match windows.control(window_id) {
        None => Vec::new(),
        Some(control) => {
            let bfs = monitors.is_borderless_fullscreen_at(new_placement);
            let areas = monitors.all_work_areas();
            let fm = monitors.float_monitor_for(new_placement);
            let displayed = monitors.is_displayed(window_id);
            proof {
                let p = monitors@.0[monitors@.1].1;
                assert(areas@.contains(p));
            }
            let mut c = control;
            let effects = c.window_moved(displayed, new_placement, observed_at, bfs, areas.as_slice(), fm);
            let _ = windows.set_control(window_id, c);
            proof {
                let cg = old(windows).ids()[window_id];
                assert(displayed == displayed_on_some(*monitors, window_id));
                let witness = moved_spec(
                    old(windows)@[cg].control,
                    displayed_on_some(*monitors, window_id),
                    new_placement,
                    observed_at,
                    bfs,
                    areas@,
                    fm,
                );
            }
            effects
        },
    }
}

/// Tracking a new window under a fresh layout id and then forgetting it
/// leaves the windows and the layout ids as they were.
pub proof fn law_insert_then_remove<E>(
    m: Map<u32, ManagedWindow<E>>,
    ids: Map<u64, u32>,
    cg: u32,
    e: ManagedWindow<E>,
)
    requires
        !m.contains_key(cg),
        !ids.contains_key(e.window_id),
    ensures
        m.insert(cg, e).remove(cg) == m,
        ids.insert(e.window_id, cg).remove(m.insert(cg, e)[cg].window_id) == ids,
{
    assert(m.insert(cg, e).remove(cg) =~= m);
    assert(ids.insert(e.window_id, cg).remove(e.window_id) =~= ids);
}

/// A window just tracked is found both by its window server id and by its
/// layout id, which now leads to it whatever window it led to before.
pub proof fn law_tracked_window_found_by_both_ids<E>(
    m: Map<u32, ManagedWindow<E>>,
    ids: Map<u64, u32>,
    cg: u32,
    e: ManagedWindow<E>,
)
    ensures
        m.insert(cg, e).contains_key(cg),
        m.insert(cg, e)[cg] == e,
        ids.insert(e.window_id, cg).contains_key(e.window_id),
        ids.insert(e.window_id, cg)[e.window_id] == cg,
{
}

} // verus!
