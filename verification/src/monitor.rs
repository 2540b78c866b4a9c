use vstd::prelude::*;

use std::collections::HashMap;

use crate::geometry::{overlap_area, overlap_area_spec, PixelRect};

verus! {

broadcast use vstd::std_specs::hash::group_hash_axioms;

/// A monitor Dome lays windows out on: its display id, its layout id, its
/// work area and the windows Dome currently shows on it.
#[derive(Debug)]
pub struct MonitorEntry {
    pub display_id: u32,
    pub id: u64,
    pub work_area: PixelRect,
    /// The display's full bounds, menu bar and dock included.
    pub bounds: PixelRect,
    pub displayed: Vec<u64>,
}

/// A monitor as a value: layout id, work area, displayed windows and full
/// display bounds.
pub type MonitorRecord = (u64, PixelRect, Set<u64>, PixelRect);

pub open spec fn record_of(e: MonitorEntry) -> MonitorRecord {
    (e.id, e.work_area, e.displayed@.to_set(), e.bounds)
}

pub open spec fn has_display(s: Seq<MonitorEntry>, d: u32) -> bool {
    exists|i: int| 0 <= i < s.len() && (#[trigger] s[i]).display_id == d
}

/// No two monitors share a display id.
pub open spec fn monitors_unique(s: Seq<MonitorEntry>) -> bool {
    forall|i: int, j: int|
        0 <= i < s.len() && 0 <= j < s.len() && i != j ==> (#[trigger] s[i]).display_id != (
        #[trigger] s[j]).display_id
}

pub open spec fn monitors_map(s: Seq<MonitorEntry>) -> Map<u32, MonitorRecord> {
    Map::new(
        |d: u32| has_display(s, d),
        |d: u32| record_of(s[choose|i: int| 0 <= i < s.len() && (#[trigger] s[i]).display_id == d]),
    )
}

proof fn lemma_monitor_lookup(s: Seq<MonitorEntry>, i: int)
    requires
        monitors_unique(s),
        0 <= i < s.len(),
    ensures
        monitors_map(s).contains_key(s[i].display_id),
        monitors_map(s)[s[i].display_id] == record_of(s[i]),
{
    let d = s[i].display_id;
    assert(has_display(s, d));
    let j = choose|j: int| 0 <= j < s.len() && (#[trigger] s[j]).display_id == d;
    assert(j == i);
}

/// Two sequences with the same display ids and records at every index give
/// the same map.
proof fn lemma_same_records(s: Seq<MonitorEntry>, t: Seq<MonitorEntry>)
    requires
        monitors_unique(s),
        monitors_unique(t),
        s.len() == t.len(),
        forall|i: int| 0 <= i < s.len() ==> (#[trigger] s[i]).display_id == t[i].display_id,
    ensures
        monitors_map(s).dom() == monitors_map(t).dom(),
        forall|i: int| 0 <= i < s.len() ==> #[trigger] monitors_map(t)[t[i].display_id] == record_of(t[i]),
{
    assert forall|d: u32| #[trigger] monitors_map(s).contains_key(d) == monitors_map(t).contains_key(d) by {
        if has_display(s, d) {
            let i = choose|i: int| 0 <= i < s.len() && (#[trigger] s[i]).display_id == d;
            assert(t[i].display_id == d);
        }
        if has_display(t, d) {
            let i = choose|i: int| 0 <= i < t.len() && (#[trigger] t[i]).display_id == d;
            assert(s[i].display_id == d);
        }
    }
    assert(monitors_map(s).dom() =~= monitors_map(t).dom());
    assert forall|i: int| 0 <= i < s.len() implies #[trigger] monitors_map(t)[t[i].display_id] == record_of(t[i]) by {
        lemma_monitor_lookup(t, i);
    }
}

/// Whether display `d` of `m` has the bounds that overlap `dim` the most,
/// by a positive area.
pub open spec fn is_closest_spec(m: Map<u32, MonitorRecord>, dim: PixelRect, d: u32) -> bool {
    &&& m.contains_key(d)
    &&& overlap_area_spec(dim, m[d].3) > 0
    &&& forall|e: u32| #[trigger] m.contains_key(e) ==> overlap_area_spec(dim, m[e].3) <= overlap_area_spec(dim, m[d].3)
}

/// Whether the bounds of some monitor of `m` overlap `dim`.
pub open spec fn overlaps_some_spec(m: Map<u32, MonitorRecord>, dim: PixelRect) -> bool {
    exists|d: u32| #[trigger] m.contains_key(d) && overlap_area_spec(dim, m[d].3) > 0
}

/// The one-pixel square at the origin of `rect`.
pub open spec fn origin_point(rect: PixelRect) -> PixelRect {
    PixelRect { x: rect.x, y: rect.y, width: 1, height: 1 }
}

pub open spec fn within_two(a: int, b: int) -> bool {
    -2 <= a - b <= 2
}

/// Whether `rect` matches the work area `wa` to within two pixels on its
/// origin and on its size: a window zoomed to fill the screen.
pub open spec fn fills_work_area_spec(rect: PixelRect, wa: PixelRect) -> bool {
    &&& within_two(rect.x as int, wa.x as int)
    &&& within_two(rect.y as int, wa.y as int)
    &&& within_two(rect.width as int, wa.width as int)
    &&& within_two(rect.height as int, wa.height as int)
}

/// Whether `b` is what the borderless-fullscreen test can answer for a
/// window at `rect`: whether it fills the work area of a monitor closest to
/// its origin pixel, and false when no monitor holds that pixel.
pub open spec fn borderless_outcome(m: Map<u32, MonitorRecord>, rect: PixelRect, b: bool) -> bool {
    if overlaps_some_spec(m, origin_point(rect)) {
        exists|d: u32| #[trigger] is_closest_spec(m, origin_point(rect), d) && fills_work_area_spec(rect, m[d].1) == b
    } else {
        !b
    }
}

/// Whether `id` is a monitor a float at `rect` can be said to belong to:
/// one closest to it, or the primary monitor when none overlaps it.
pub open spec fn float_monitor_outcome(m: Map<u32, MonitorRecord>, primary: u32, rect: PixelRect, id: u64) -> bool {
    if overlaps_some_spec(m, rect) {
        exists|d: u32| #[trigger] is_closest_spec(m, rect, d) && m[d].0 == id
    } else {
        id == m[primary].0
    }
}

/// Whether `ws` lists the work areas of the monitors of `m`, one per
/// monitor, in some order.
pub open spec fn work_area_listing(m: Map<u32, MonitorRecord>, ws: Seq<PixelRect>) -> bool {
    &&& forall|a: PixelRect| ws.contains(a) <==> exists|d: u32| #[trigger] m.contains_key(d) && m[d].1 == a
    &&& ws.len() == m.dom().len()
}

/// Whether `v` holds `x`.
fn listed_u32(v: &Vec<u32>, x: u32) -> (r: bool)
    ensures
        r == v@.contains(x),
{
    let mut i: usize = 0;
    while i < v.len()
        invariant
            i <= v@.len(),
            forall|j: int| 0 <= j < i ==> v@[j] != x,
        decreases v@.len() - i,
    {
        if v[i] == x {
            assert(v@[i as int] == x);
            return true;
        }
        i = i + 1;
    }
    false
}

/// The monitors Dome knows, found by display id and by layout id, and which
/// display is the primary one.
pub struct MonitorRegistry {
    entries: Vec<MonitorEntry>,
    /// Layout id to display id.
    reverse: HashMap<u64, u32>,
    primary_display_id: u32,
}

impl View for MonitorRegistry {
    type V = (Map<u32, MonitorRecord>, u32);

    closed spec fn view(&self) -> (Map<u32, MonitorRecord>, u32) {
        (monitors_map(self.entries@), self.primary_display_id)
    }
}

impl MonitorRegistry {
    /// The entries are keyed by their display id.
    pub open spec fn wf(&self) -> bool {
        self.wf_inner()
    }

    /// Layout id to the display it was last placed on.
    pub closed spec fn reverse(&self) -> Map<u64, u32> {
        self.reverse@
    }

    pub closed spec fn wf_inner(&self) -> bool {
        monitors_unique(self.entries@)
    }

    proof fn lemma_wf(&self)
        requires
            self.wf_inner(),
        ensures
            self.wf(),
    {
    }

    /// A registry holding only the primary monitor.
    pub fn new(
        primary_display_id: u32,
        primary_monitor_id: u64,
        work_area: PixelRect,
        bounds: PixelRect,
    ) -> (r: MonitorRegistry)
        ensures
            r.wf(),
            r@ == (
                Map::<u32, MonitorRecord>::empty().insert(
                    primary_display_id,
                    (primary_monitor_id, work_area, Set::<u64>::empty(), bounds),
                ),
                primary_display_id,
            ),
            r.reverse() == Map::<u64, u32>::empty().insert(primary_monitor_id, primary_display_id),
    {
        let mut entries: Vec<MonitorEntry> = Vec::new();
        entries.push(
            MonitorEntry {
                display_id: primary_display_id,
                id: primary_monitor_id,
                work_area,
                bounds,
                displayed: Vec::new(),
            },
        );
        let mut reverse: HashMap<u64, u32> = HashMap::new();
        reverse.insert(primary_monitor_id, primary_display_id);
        let r = MonitorRegistry { entries, reverse, primary_display_id };
        proof {
            let s = r.entries@;
            lemma_monitor_lookup(s, 0);
            assert(s[0].displayed@.to_set() =~= Set::<u64>::empty());
            assert(monitors_map(s) =~= Map::<u32, MonitorRecord>::empty().insert(
                primary_display_id,
                (primary_monitor_id, work_area, Set::<u64>::empty(), bounds),
            ));
            r.lemma_wf();
        }
        r
    }

    fn index_of(&self, display_id: u32) -> (r: Option<usize>)
        ensures
            r matches Some(i) ==> i < self.entries@.len() && self.entries@[i as int].display_id
                == display_id,
            r is None ==> !has_display(self.entries@, display_id),
    {
        let mut i: usize = 0;
        while i < self.entries.len()
            invariant
                i <= self.entries@.len(),
                forall|j: int| 0 <= j < i ==> (#[trigger] self.entries@[j]).display_id != display_id,
            decreases self.entries@.len() - i,
        {
            if self.entries[i].display_id == display_id {
                return Some(i);
            }
            i = i + 1;
        }
        None
    }

    pub fn contains(&self, display_id: u32) -> (r: bool)
        requires
            self.wf(),
        ensures
            r == self@.0.contains_key(display_id),
    {
        self.index_of(display_id).is_some()
    }

    /// The layout id of the monitor of display `display_id`.
    pub fn get(&self, display_id: u32) -> (r: Option<u64>)
        requires
            self.wf(),
        ensures
            r matches Some(id) ==> self@.0.contains_key(display_id) && self@.0[display_id].0 == id,
            r is None ==> !self@.0.contains_key(display_id),
    {
        match self.index_of(display_id) {
            Some(i) => {
                proof {
                    lemma_monitor_lookup(self.entries@, i as int);
                }
                Some(self.entries[i].id)
            },
            None => None,
        }
    }

    /// Whether layout id `monitor_id` leads to a known monitor.
    pub open spec fn has_monitor(&self, monitor_id: u64) -> bool {
        self.reverse().contains_key(monitor_id) && self@.0.contains_key(self.reverse()[monitor_id])
    }

    /// The monitor that layout id `monitor_id` leads to.
    pub fn monitor(&self, monitor_id: u64) -> (r: &MonitorEntry)
        requires
            self.wf(),
            self.has_monitor(monitor_id),
        ensures
            r.display_id == self.reverse()[monitor_id],
            self@.0[r.display_id] == record_of(*r),
    {
        let d = *self.reverse.get(&monitor_id).unwrap();
        match self.index_of(d) {
            Some(i) => {
                proof {
                    lemma_monitor_lookup(self.entries@, i as int);
                }
                &self.entries[i]
            },
            None => {
                proof {
                    assert(false);
                }
                &self.entries[0]
            },
        }
    }

    /// Records the windows Dome shows on the monitor that layout id
    /// `monitor_id` leads to.
    pub fn set_displayed_windows(&mut self, monitor_id: u64, displayed: Vec<u64>)
        requires
            old(self).wf(),
            old(self).has_monitor(monitor_id),
        ensures
            final(self).wf(),
            final(self).reverse() == old(self).reverse(),
            final(self)@ == ({
                let d = old(self).reverse()[monitor_id];
                let rec = old(self)@.0[d];
                (old(self)@.0.insert(d, (rec.0, rec.1, displayed@.to_set(), rec.3)), old(self)@.1)
            }),
    {
        let ghost old_s = self.entries@;
        let d = *self.reverse.get(&monitor_id).unwrap();
        match self.index_of(d) {
            Some(i) => {
                proof {
                    lemma_monitor_lookup(old_s, i as int);
                }
                let mut entry = self.entries.remove(i);
                entry.displayed = displayed;
                self.entries.insert(i, entry);
                proof {
                    let s = self.entries@;
                    assert(forall|j: int| 0 <= j < s.len() && j != i ==> #[trigger] s[j] == old_s[j]);
                    assert(monitors_unique(s)) by {
                        assert forall|a: int, b: int|
                            0 <= a < s.len() && 0 <= b < s.len() && a != b implies (
                        #[trigger] s[a]).display_id != (#[trigger] s[b]).display_id by {
                            assert(s[a].display_id == old_s[a].display_id);
                            assert(s[b].display_id == old_s[b].display_id);
                        }
                    }
                    lemma_same_records(old_s, s);
                    let rec = old(self)@.0[d];
                    let expected = old(self)@.0.insert(d, (rec.0, rec.1, displayed@.to_set(), rec.3));
                    assert forall|x: u32| #[trigger] monitors_map(s).contains_key(x) implies monitors_map(s)[x]
                        == expected[x] by {
                        let j = choose|j: int| 0 <= j < s.len() && (#[trigger] s[j]).display_id == x;
                        lemma_monitor_lookup(s, j);
                        if j != i {
                            lemma_monitor_lookup(old_s, j);
                        }
                    }
                    assert(monitors_map(s) =~= expected);
                }
            },
            None => {
                proof {
                    assert(false);
                }
            },
        }
    }

    /// The primary monitor.
    pub fn primary_monitor(&self) -> (r: &MonitorEntry)
        requires
            self.wf(),
            self@.0.contains_key(self@.1),
        ensures
            r.display_id == self@.1,
            self@.0[self@.1] == record_of(*r),
    {
        match self.index_of(self.primary_display_id) {
            Some(i) => {
                proof {
                    lemma_monitor_lookup(self.entries@, i as int);
                }
                &self.entries[i]
            },
            None => {
                proof {
                    assert(false);
                }
                &self.entries[0]
            },
        }
    }

    /// The index of the first entry whose bounds overlap `dim` the most, by
    /// a positive area.
    fn closest_index(&self, dim: PixelRect) -> (r: Option<usize>)
        ensures
            r matches Some(i) ==> i < self.entries@.len() && overlap_area_spec(dim, self.entries@[i as int].bounds)
                > 0 && forall|j: int|
                0 <= j < self.entries@.len() ==> overlap_area_spec(dim, (#[trigger] self.entries@[j]).bounds)
                    <= overlap_area_spec(dim, self.entries@[i as int].bounds),
            r is None ==> forall|j: int|
                0 <= j < self.entries@.len() ==> overlap_area_spec(dim, (#[trigger] self.entries@[j]).bounds)
                    <= 0,
    {
        let ghost s = self.entries@;
        let mut best: Option<usize> = None;
        let mut best_area: i128 = 0;
        let mut i: usize = 0;
        while i < self.entries.len()
            invariant
                s == self.entries@,
                i <= s.len(),
                best matches Some(b) ==> b < i && best_area == overlap_area_spec(dim, s[b as int].bounds)
                    && best_area > 0,
                best is None ==> best_area == 0,
                forall|j: int| 0 <= j < i ==> overlap_area_spec(dim, (#[trigger] s[j]).bounds) <= best_area,
            decreases s.len() - i,
        {
            let area = overlap_area(dim, self.entries[i].bounds);
            if area > best_area {
                best = Some(i);
                best_area = area;
            }
            i = i + 1;
        }
        best
    }

    /// The layout id of the monitor whose full bounds overlap `dim` the
    /// most, or `None` when no monitor overlaps it. Between monitors that
    /// overlap it equally (mirrored displays) any one may be returned.
    pub fn find_closest_monitor(&self, dim: PixelRect) -> (r: Option<u64>)
        requires
            self.wf(),
        ensures
            r is None <==> !overlaps_some_spec(self@.0, dim),
            r matches Some(id) ==> exists|d: u32| #[trigger] is_closest_spec(self@.0, dim, d) && self@.0[d].0 == id,
    {
        let ghost s = self.entries@;
        match self.closest_index(dim) {
            Some(i) => {
                proof {
                    self.lemma_closest_entry(dim, i as int);
                }
                Some(self.entries[i].id)
            },
            None => {
                proof {
                    if overlaps_some_spec(self@.0, dim) {
                        let d = choose|d: u32| #[trigger] self@.0.contains_key(d) && overlap_area_spec(dim, self@.0[d].3) > 0;
                        let j = choose|j: int| 0 <= j < s.len() && (#[trigger] s[j]).display_id == d;
                        lemma_monitor_lookup(s, j);
                        assert(overlap_area_spec(dim, s[j].bounds) <= 0);
                    }
                }
                None
            },
        }
    }

    /// An entry of largest overlap is a closest monitor of the map.
    proof fn lemma_closest_entry(&self, dim: PixelRect, i: int)
        requires
            self.wf(),
            0 <= i < self.entries@.len(),
            overlap_area_spec(dim, self.entries@[i].bounds) > 0,
            forall|j: int|
                0 <= j < self.entries@.len() ==> overlap_area_spec(dim, (#[trigger] self.entries@[j]).bounds)
                    <= overlap_area_spec(dim, self.entries@[i].bounds),
        ensures
            is_closest_spec(self@.0, dim, self.entries@[i].display_id),
            self@.0[self.entries@[i].display_id] == record_of(self.entries@[i]),
            overlaps_some_spec(self@.0, dim),
    {
        let s = self.entries@;
        lemma_monitor_lookup(s, i);
        assert forall|e: u32| #[trigger] self@.0.contains_key(e) implies overlap_area_spec(dim, self@.0[e].3)
            <= overlap_area_spec(dim, self@.0[s[i].display_id].3) by {
            let j = choose|j: int| 0 <= j < s.len() && (#[trigger] s[j]).display_id == e;
            lemma_monitor_lookup(s, j);
        }
        assert(self@.0.contains_key(s[i].display_id));
    }

    /// Whether a window at `rect` fills the work area of the monitor it
    /// starts on (the monitor whose bounds overlap its origin pixel the
    /// most) to within two pixels: a window zoomed to fill the screen
    /// without a Space of its own. Between equally close monitors any one
    /// may be the one compared against.
    pub fn is_borderless_fullscreen_at(&self, rect: PixelRect) -> (r: bool)
        requires
            self.wf(),
        ensures
            r ==> exists|d: u32| #[trigger] is_closest_spec(self@.0, origin_point(rect), d) && fills_work_area_spec(
                rect,
                self@.0[d].1,
            ),
            !r ==> !overlaps_some_spec(self@.0, origin_point(rect)) || exists|d: u32| #[trigger]
                is_closest_spec(self@.0, origin_point(rect), d) && !fills_work_area_spec(rect, self@.0[d].1),
            !overlaps_some_spec(self@.0, origin_point(rect)) ==> !r,
            borderless_outcome(self@.0, rect, r),
    {
        let point = PixelRect { x: rect.x, y: rect.y, width: 1, height: 1 };
        let ghost s = self.entries@;
        match self.closest_index(point) {
            Some(i) => {
                proof {
                    self.lemma_closest_entry(point, i as int);
                }
                let wa = self.entries[i].work_area;
                let dx: i64 = rect.x as i64 - wa.x as i64;
                let dy: i64 = rect.y as i64 - wa.y as i64;
                let dw: i64 = rect.width as i64 - wa.width as i64;
                let dh: i64 = rect.height as i64 - wa.height as i64;
                let fills = -2 <= dx && dx <= 2 && -2 <= dy && dy <= 2 && -2 <= dw && dw <= 2 && -2 <= dh
                    && dh <= 2;
                proof {
                    let d = s[i as int].display_id;
                    assert(point == origin_point(rect));
                    assert(is_closest_spec(self@.0, origin_point(rect), d));
                    assert(self@.0[d].1 == wa);
                    assert(fills == fills_work_area_spec(rect, self@.0[d].1));
                }
                fills
            },
            None => {
                proof {
                    if overlaps_some_spec(self@.0, point) {
                        let d = choose|d: u32| #[trigger] self@.0.contains_key(d) && overlap_area_spec(point, self@.0[d].3) > 0;
                        let j = choose|j: int| 0 <= j < s.len() && (#[trigger] s[j]).display_id == d;
                        lemma_monitor_lookup(s, j);
                        assert(overlap_area_spec(point, s[j].bounds) <= 0);
                    }
                }
                false
            },
        }
    }

    /// The monitor a float moved to `rect` now belongs to: the one whose
    /// bounds overlap it the most, or the primary monitor when none does.
    pub fn float_monitor_for(&self, rect: PixelRect) -> (r: u64)
        requires
            self.wf(),
            self@.0.contains_key(self@.1),
        ensures
            !overlaps_some_spec(self@.0, rect) ==> r == self@.0[self@.1].0,
            overlaps_some_spec(self@.0, rect) ==> exists|d: u32| #[trigger] is_closest_spec(self@.0, rect, d)
                && self@.0[d].0 == r,
            float_monitor_outcome(self@.0, self@.1, rect, r),
    {
        match self.find_closest_monitor(rect) {
            Some(id) => id,
            None => self.primary_monitor_id(),
        }
    }

    /// Whether the primary display has a monitor entry.
    pub fn has_primary(&self) -> (r: bool)
        requires
            self.wf(),
        ensures
            r == self@.0.contains_key(self@.1),
    {
        self.contains(self.primary_display_id)
    }

    /// The layout id of the primary monitor.
    pub fn primary_monitor_id(&self) -> (r: u64)
        requires
            self.wf(),
            self@.0.contains_key(self@.1),
        ensures
            r == self@.0[self@.1].0,
    {
        self.primary_monitor().id
    }

    pub fn set_primary_display_id(&mut self, display_id: u32)
        requires
            old(self).wf(),
        ensures
            final(self).wf(),
            final(self).reverse() == old(self).reverse(),
            final(self)@ == (old(self)@.0, display_id),
    {
        self.primary_display_id = display_id;
    }

    /// Moves the primary monitor's entry, with its layout id and displayed
    /// windows, to display `display_id` with work area `work_area` (the
    /// primary display was replaced, e.g. by mirroring), which avoids
    /// removing and re-adding its workspaces.
    pub fn replace_primary(&mut self, display_id: u32, work_area: PixelRect, bounds: PixelRect)
        requires
            old(self).wf(),
            !old(self)@.0.contains_key(display_id),
        ensures
            final(self).wf(),
            old(self)@.0.contains_key(old(self)@.1) ==> final(self).reverse() == old(self).reverse().insert(
                old(self)@.0[old(self)@.1].0,
                display_id,
            ),
            !old(self)@.0.contains_key(old(self)@.1) ==> final(self).reverse() == old(self).reverse(),
            old(self)@.0.contains_key(old(self)@.1) ==> final(self)@ == (
                old(self)@.0.remove(old(self)@.1).insert(
                    display_id,
                    (old(self)@.0[old(self)@.1].0, work_area, old(self)@.0[old(self)@.1].2, bounds),
                ),
                display_id,
            ),
            !old(self)@.0.contains_key(old(self)@.1) ==> final(self)@ == old(self)@,
    {
        let ghost old_s = self.entries@;
        match self.index_of(self.primary_display_id) {
            Some(i) => {
                proof {
                    lemma_monitor_lookup(old_s, i as int);
                }
                let mut entry = self.entries.remove(i);
                entry.display_id = display_id;
                entry.work_area = work_area;
                entry.bounds = bounds;
                self.reverse.insert(entry.id, display_id);
                self.entries.insert(i, entry);
                self.primary_display_id = display_id;
                proof {
                    let s = self.entries@;
                    let old_p = old(self)@.1;
                    assert(forall|j: int| 0 <= j < s.len() && j != i ==> #[trigger] s[j] == old_s[j]);
                    assert(monitors_unique(s)) by {
                        assert forall|a: int, b: int|
                            0 <= a < s.len() && 0 <= b < s.len() && a != b implies (
                        #[trigger] s[a]).display_id != (#[trigger] s[b]).display_id by {
                            if a == i {
                                assert(s[b] == old_s[b]);
                                lemma_monitor_lookup(old_s, b);
                            } else if b == i {
                                assert(s[a] == old_s[a]);
                                lemma_monitor_lookup(old_s, a);
                            } else {
                                assert(s[a] == old_s[a] && s[b] == old_s[b]);
                            }
                        }
                    }
                    let expected = old(self)@.0.remove(old_p).insert(
                        display_id,
                        (old(self)@.0[old_p].0, work_area, old(self)@.0[old_p].2, bounds),
                    );
                    assert forall|d: u32| #[trigger] monitors_map(s).contains_key(d) == expected.contains_key(d) by {
                        if has_display(s, d) {
                            let j = choose|j: int| 0 <= j < s.len() && (#[trigger] s[j]).display_id == d;
                            if j != i {
                                assert(old_s[j].display_id == d);
                                assert(d != old_p);
                            }
                        }
                        if has_display(old_s, d) && d != old_p {
                            let j = choose|j: int| 0 <= j < old_s.len() && (#[trigger] old_s[j]).display_id == d;
                            assert(j != i);
                            assert(s[j].display_id == d);
                        }
                        if d == display_id {
                            assert(s[i as int].display_id == d);
                        }
                    }
                    assert forall|d: u32| #[trigger] monitors_map(s).contains_key(d) implies monitors_map(s)[d] == expected[d] by {
                        let j = choose|j: int| 0 <= j < s.len() && (#[trigger] s[j]).display_id == d;
                        lemma_monitor_lookup(s, j);
                        if j != i {
                            lemma_monitor_lookup(old_s, j);
                        }
                    }
                    assert(monitors_map(s) =~= expected);
                    self.lemma_wf();
                }
            },
            None => {
                proof {
                    self.lemma_wf();
                }
            },
        }
    }

    /// Makes display `display_id`, reported as the primary one, the primary
    /// monitor. A display not known yet takes over the entry of the old
    /// primary, and the layout id and work area the layout hub must be told
    /// about are returned.
    pub fn adopt_primary(
        &mut self,
        display_id: u32,
        work_area: PixelRect,
        bounds: PixelRect,
    ) -> (r: Option<(u64, PixelRect)>)
        requires
            old(self).wf(),
            old(self)@.0.contains_key(old(self)@.1),
        ensures
            final(self).wf(),
            old(self)@.0.contains_key(display_id) ==> final(self).reverse() == old(self).reverse(),
            !old(self)@.0.contains_key(display_id) ==> final(self).reverse() == old(self).reverse().insert(
                old(self)@.0[old(self)@.1].0,
                display_id,
            ),
            old(self)@.0.contains_key(display_id) ==> r is None && final(self)@ == (old(self)@.0, display_id),
            !old(self)@.0.contains_key(display_id) ==> r == Some((old(self)@.0[old(self)@.1].0, work_area))
                && final(self)@ == (
                old(self)@.0.remove(old(self)@.1).insert(
                    display_id,
                    (old(self)@.0[old(self)@.1].0, work_area, old(self)@.0[old(self)@.1].2, bounds),
                ),
                display_id,
            ),
    {
        if self.contains(display_id) {
            self.set_primary_display_id(display_id);
            return None;
        }
        let ghost old_primary_id = self@.0[self@.1].0;
        self.replace_primary(display_id, work_area, bounds);
        proof {
            assert(self@.0.contains_key(self@.1));
        }
        let id = self.primary_monitor_id();
        Some((id, work_area))
    }

    /// Adds the monitor of display `display_id` with layout id `monitor_id`
    /// and no displayed windows; an entry for the same display is replaced,
    /// and layout id `monitor_id` now leads to this display.
    pub fn insert(
        &mut self,
        display_id: u32,
        work_area: PixelRect,
        bounds: PixelRect,
        monitor_id: u64,
    )
        requires
            old(self).wf(),
        ensures
            final(self).wf(),
            final(self)@ == (
                old(self)@.0.insert(display_id, (monitor_id, work_area, Set::<u64>::empty(), bounds)),
                old(self)@.1,
            ),
            final(self).reverse() == old(self).reverse().insert(monitor_id, display_id),
    {
        self.reverse.insert(monitor_id, display_id);
        let ghost old_s = self.entries@;
        let entry = MonitorEntry { display_id, id: monitor_id, work_area, bounds, displayed: Vec::new() };
        proof {
            assert(entry.displayed@.to_set() =~= Set::<u64>::empty());
        }
        let expected = Ghost(old(self)@.0.insert(display_id, (monitor_id, work_area, Set::<u64>::empty(), bounds)));
        match self.index_of(display_id) {
            Some(i) => {
                self.entries.remove(i);
                self.entries.insert(i, entry);
                proof {
                    let s = self.entries@;
                    assert(forall|j: int| 0 <= j < s.len() && j != i ==> #[trigger] s[j] == old_s[j]);
                    assert(monitors_unique(s)) by {
                        assert forall|a: int, b: int|
                            0 <= a < s.len() && 0 <= b < s.len() && a != b implies (
                        #[trigger] s[a]).display_id != (#[trigger] s[b]).display_id by {
                            if a == i {
                                assert(s[b] == old_s[b]);
                                lemma_monitor_lookup(old_s, b);
                            } else if b == i {
                                assert(s[a] == old_s[a]);
                                lemma_monitor_lookup(old_s, a);
                            } else {
                                assert(s[a] == old_s[a] && s[b] == old_s[b]);
                            }
                        }
                    }
                    lemma_same_records(old_s, s);
                    assert forall|d: u32| #[trigger] monitors_map(s).contains_key(d) implies monitors_map(s)[d] == expected@[d] by {
                        let j = choose|j: int| 0 <= j < s.len() && (#[trigger] s[j]).display_id == d;
                        lemma_monitor_lookup(s, j);
                        if j != i {
                            lemma_monitor_lookup(old_s, j);
                        }
                    }
                    assert forall|d: u32| #[trigger] monitors_map(s).contains_key(d) == expected@.contains_key(d) by {
                        if d == display_id {
                            assert(s[i as int].display_id == d);
                        }
                    }
                    assert(monitors_map(s) =~= expected@);
                }
            },
            None => {
                self.entries.push(entry);
                proof {
                    let s = self.entries@;
                    assert(monitors_unique(s)) by {
                        assert forall|a: int, b: int|
                            0 <= a < s.len() && 0 <= b < s.len() && a != b implies (
                        #[trigger] s[a]).display_id != (#[trigger] s[b]).display_id by {
                            if a == s.len() - 1 {
                                assert(s[b] == old_s[b]);
                                lemma_monitor_lookup(old_s, b);
                            } else if b == s.len() - 1 {
                                assert(s[a] == old_s[a]);
                                lemma_monitor_lookup(old_s, a);
                            } else {
                                assert(s[a] == old_s[a] && s[b] == old_s[b]);
                            }
                        }
                    }
                    assert forall|d: u32| #[trigger] monitors_map(s).contains_key(d) == expected@.contains_key(d) by {
                        if has_display(old_s, d) {
                            let j = choose|j: int| 0 <= j < old_s.len() && (#[trigger] old_s[j]).display_id == d;
                            assert(s[j] == old_s[j]);
                        }
                        if d == display_id {
                            assert(s[s.len() - 1].display_id == d);
                        }
                        if has_display(s, d) {
                            let j = choose|j: int| 0 <= j < s.len() && (#[trigger] s[j]).display_id == d;
                            if j < old_s.len() {
                                assert(s[j] == old_s[j]);
                            }
                        }
                    }
                    assert forall|d: u32| #[trigger] monitors_map(s).contains_key(d) implies monitors_map(s)[d] == expected@[d] by {
                        let j = choose|j: int| 0 <= j < s.len() && (#[trigger] s[j]).display_id == d;
                        lemma_monitor_lookup(s, j);
                        if j < old_s.len() {
                            assert(s[j] == old_s[j]);
                            lemma_monitor_lookup(old_s, j);
                        }
                    }
                    assert(monitors_map(s) =~= expected@);
                }
            },
        }
        proof {
            self.lemma_wf();
        }
    }

    /// Whether some monitor shows window `window_id`.
    pub fn is_displayed(&self, window_id: u64) -> (r: bool)
        requires
            self.wf(),
        ensures
            r == exists|d: u32| #[trigger] self@.0.contains_key(d) && self@.0[d].2.contains(window_id),
    {
        let ghost s = self.entries@;
        let mut i: usize = 0;
        while i < self.entries.len()
            invariant
                s == self.entries@,
                monitors_unique(s),
                i <= s.len(),
                forall|j: int| 0 <= j < i ==> !(#[trigger] s[j]).displayed@.contains(window_id),
            decreases s.len() - i,
        {
            let mut k: usize = 0;
            while k < self.entries[i].displayed.len()
                invariant
                    s == self.entries@,
                    monitors_unique(s),
                    i < s.len(),
                    k <= s[i as int].displayed@.len(),
                    forall|a: int| 0 <= a < k ==> s[i as int].displayed@[a] != window_id,
                decreases s[i as int].displayed@.len() - k,
            {
                if self.entries[i].displayed[k] == window_id {
                    proof {
                        lemma_monitor_lookup(s, i as int);
                        assert(s[i as int].displayed@.contains(window_id));
                        assert(self@.0[s[i as int].display_id].2.contains(window_id));
                    }
                    return true;
                }
                k = k + 1;
            }
            i = i + 1;
        }
        proof {
            if exists|d: u32| #[trigger] self@.0.contains_key(d) && self@.0[d].2.contains(window_id) {
                let d = choose|d: u32| #[trigger] self@.0.contains_key(d) && self@.0[d].2.contains(window_id);
                let j = choose|j: int| 0 <= j < s.len() && (#[trigger] s[j]).display_id == d;
                lemma_monitor_lookup(s, j);
                assert(s[j].displayed@.to_set().contains(window_id));
                assert(false);
            }
        }
        false
    }

    /// Forgets window `window_id` on every monitor.
    pub fn remove_displayed_window(&mut self, window_id: u64)
        requires
            old(self).wf(),
        ensures
            final(self).wf(),
            final(self).reverse() == old(self).reverse(),
            final(self)@.1 == old(self)@.1,
            final(self)@.0.dom() == old(self)@.0.dom(),
            forall|d: u32| #[trigger]
                old(self)@.0.contains_key(d) ==> final(self)@.0[d] == (
                    old(self)@.0[d].0,
                    old(self)@.0[d].1,
                    old(self)@.0[d].2.remove(window_id),
                    old(self)@.0[d].3,
                ),
    {
        let ghost old_s = self.entries@;
        let mut i: usize = 0;
        while i < self.entries.len()
            invariant
                self.entries@.len() == old_s.len(),
                self.primary_display_id == old(self).primary_display_id,
                self.reverse@ == old(self).reverse@,
                monitors_unique(old_s),
                i <= old_s.len(),
                forall|j: int|
                    0 <= j < old_s.len() ==> (#[trigger] self.entries@[j]).display_id == old_s[j].display_id
                        && self.entries@[j].id == old_s[j].id && self.entries@[j].work_area
                        == old_s[j].work_area && self.entries@[j].bounds == old_s[j].bounds && self.entries@[j].displayed@.to_set() == (if j < i {
                        old_s[j].displayed@.to_set().remove(window_id)
                    } else {
                        old_s[j].displayed@.to_set()
                    }),
            decreases old_s.len() - i,
        {
            let mut entry = self.entries.remove(i);
            let mut kept: Vec<u64> = Vec::new();
            let mut k: usize = 0;
            while k < entry.displayed.len()
                invariant
                    k <= entry.displayed@.len(),
                    forall|w: u64| kept@.contains(w) <==> exists|a: int|
                        0 <= a < k && entry.displayed@[a] == w && w != window_id,
                decreases entry.displayed@.len() - k,
            {
                let w = entry.displayed[k];
                let ghost before = kept@;
                if w != window_id {
                    kept.push(w);
                }
                proof {
                    assert forall|v: u64| kept@.contains(v) <==> exists|a: int|
                        0 <= a < k + 1 && entry.displayed@[a] == v && v != window_id by {
                        if kept@.contains(v) {
                            let b = choose|b: int| 0 <= b < kept@.len() && kept@[b] == v;
                            if b < before.len() {
                                assert(before[b] == v);
                                assert(before.contains(v));
                            }
                        }
                        if exists|a: int| 0 <= a < k + 1 && entry.displayed@[a] == v && v != window_id {
                            let a = choose|a: int| 0 <= a < k + 1 && entry.displayed@[a] == v && v != window_id;
                            if a < k {
                                assert(before.contains(v));
                                let b = choose|b: int| 0 <= b < before.len() && before[b] == v;
                                assert(kept@[b] == v);
                            } else {
                                assert(kept@[kept@.len() - 1] == v);
                            }
                        }
                    }
                }
                k = k + 1;
            }
            proof {
                assert(kept@.to_set() =~= entry.displayed@.to_set().remove(window_id)) by {
                    assert forall|v: u64| kept@.to_set().contains(v) == entry.displayed@.to_set().remove(window_id).contains(v) by {
                        if entry.displayed@.contains(v) && v != window_id {
                            let a = choose|a: int| 0 <= a < entry.displayed@.len() && entry.displayed@[a] == v;
                        }
                    }
                }
            }
            entry.displayed = kept;
            self.entries.insert(i, entry);
            i = i + 1;
        }
        proof {
            let s = self.entries@;
            assert(monitors_unique(s)) by {
                assert forall|a: int, b: int|
                    0 <= a < s.len() && 0 <= b < s.len() && a != b implies (#[trigger] s[a]).display_id
                    != (#[trigger] s[b]).display_id by {}
            }
            lemma_same_records(old_s, s);
            assert forall|d: u32| #[trigger] old(self)@.0.contains_key(d) implies self@.0[d] == (
                old(self)@.0[d].0,
                old(self)@.0[d].1,
                old(self)@.0[d].2.remove(window_id),
                old(self)@.0[d].3,
            ) by {
                let j = choose|j: int| 0 <= j < old_s.len() && (#[trigger] old_s[j]).display_id == d;
                lemma_monitor_lookup(old_s, j);
                assert(s[j].display_id == d);
            }
            self.lemma_wf();
        }
    }

    /// Drops the monitor of display `d`.
    fn remove_display(&mut self, d: u32)
        requires
            old(self).wf(),
        ensures
            final(self).wf(),
            final(self)@ == (old(self)@.0.remove(d), old(self)@.1),
            final(self).reverse() == old(self).reverse(),
    {
        let ghost old_s = self.entries@;
        match self.index_of(d) {
            Some(i) => {
                proof {
                    lemma_monitor_lookup(old_s, i as int);
                }
                self.entries.remove(i);
                proof {
                    let s = self.entries@;
                    assert(s =~= old_s.remove(i as int));
                    assert forall|a: int| 0 <= a < s.len() implies #[trigger] s[a] == old_s[if a < i {
                        a
                    } else {
                        a + 1
                    }] by {}
                    assert(monitors_unique(s)) by {
                        assert forall|a: int, b: int|
                            0 <= a < s.len() && 0 <= b < s.len() && a != b implies (
                        #[trigger] s[a]).display_id != (#[trigger] s[b]).display_id by {
                            let a2 = if a < i { a } else { a + 1 };
                            let b2 = if b < i { b } else { b + 1 };
                            assert(s[a] == old_s[a2] && s[b] == old_s[b2]);
                        }
                    }
                    let expected = monitors_map(old_s).remove(d);
                    assert forall|x: u32| #[trigger] monitors_map(s).contains_key(x) == expected.contains_key(x) by {
                        if has_display(old_s, x) && x != d {
                            let j = choose|j: int| 0 <= j < old_s.len() && (#[trigger] old_s[j]).display_id == x;
                            assert(j != i);
                            let j2 = if j < i { j } else { j - 1 };
                            assert(s[j2] == old_s[j]);
                        }
                        if has_display(s, x) {
                            let j = choose|j: int| 0 <= j < s.len() && (#[trigger] s[j]).display_id == x;
                            let j2 = if j < i { j } else { j + 1 };
                            assert(s[j] == old_s[j2]);
                            assert(j2 != i);
                        }
                    }
                    assert forall|x: u32| #[trigger] monitors_map(s).contains_key(x) implies monitors_map(s)[x]
                        == expected[x] by {
                        let j = choose|j: int| 0 <= j < s.len() && (#[trigger] s[j]).display_id == x;
                        let j2 = if j < i { j } else { j + 1 };
                        lemma_monitor_lookup(s, j);
                        lemma_monitor_lookup(old_s, j2);
                    }
                    assert(monitors_map(s) =~= expected);
                }
            },
            None => {
                proof {
                    assert(monitors_map(old_s).remove(d) =~= monitors_map(old_s));
                }
            },
        }
    }

    /// Removes the monitors whose display is not in `current`: each such
    /// monitor's layout id is returned, and each of those ids is dropped
    /// together with the monitor it leads to.
    pub fn remove_stale(&mut self, current: &Vec<u32>) -> (removed: Vec<u64>)
        requires
            old(self).wf(),
        ensures
            final(self).wf(),
            final(self)@.1 == old(self)@.1,
            forall|id: u64| removed@.contains(id) <==> exists|d: u32| #[trigger] old(self)@.0.contains_key(d)
                && !current@.contains(d) && old(self)@.0[d].0 == id,
            final(self).reverse() == old(self).reverse().remove_keys(removed@.to_set()),
            final(self)@.0 == old(self)@.0.remove_keys(
                Set::new(
                    |d: u32|
                        exists|id: u64|
                            #![trigger old(self).reverse()[id]]
                            removed@.contains(id) && old(self).reverse().contains_key(id) && old(
                                self,
                            ).reverse()[id] == d,
                ),
            ),
    {
        let ghost s0 = self.entries@;
        let ghost m0 = self@.0;
        let ghost r0 = self.reverse();
        let mut stale: Vec<u64> = Vec::new();
        let mut i: usize = 0;
        while i < self.entries.len()
            invariant
                s0 == self.entries@,
                monitors_unique(s0),
                m0 == monitors_map(s0),
                i <= s0.len(),
                forall|id: u64| stale@.contains(id) <==> exists|j: int|
                    0 <= j < i && (#[trigger] s0[j]).id == id && !current@.contains(s0[j].display_id),
            decreases s0.len() - i,
        {
            let ghost before = stale@;
            let e_id = self.entries[i].id;
            let in_current = listed_u32(current, self.entries[i].display_id);
            if !in_current {
                stale.push(e_id);
            }
            proof {
                assert forall|id: u64| stale@.contains(id) <==> exists|j: int|
                    0 <= j < i + 1 && (#[trigger] s0[j]).id == id && !current@.contains(s0[j].display_id) by {
                    if stale@.contains(id) {
                        let a = choose|a: int| 0 <= a < stale@.len() && stale@[a] == id;
                        if a < before.len() {
                            assert(before[a] == id);
                            assert(before.contains(id));
                        }
                    }
                    if exists|j: int| 0 <= j < i + 1 && (#[trigger] s0[j]).id == id && !current@.contains(s0[j].display_id) {
                        let j = choose|j: int| 0 <= j < i + 1 && (#[trigger] s0[j]).id == id && !current@.contains(s0[j].display_id);
                        if j < i {
                            assert(before.contains(id));
                            let a = choose|a: int| 0 <= a < before.len() && before[a] == id;
                            assert(stale@[a] == id);
                        } else {
                            assert(stale@[stale@.len() - 1] == id);
                        }
                    }
                }
            }
            i = i + 1;
        }
        proof {
            assert forall|id: u64| stale@.contains(id) <==> exists|d: u32| #[trigger] m0.contains_key(d)
                && !current@.contains(d) && m0[d].0 == id by {
                if stale@.contains(id) {
                    let j = choose|j: int| 0 <= j < s0.len() && (#[trigger] s0[j]).id == id && !current@.contains(s0[j].display_id);
                    lemma_monitor_lookup(s0, j);
                }
                if exists|d: u32| #[trigger] m0.contains_key(d) && !current@.contains(d) && m0[d].0 == id {
                    let d = choose|d: u32| #[trigger] m0.contains_key(d) && !current@.contains(d) && m0[d].0 == id;
                    let j = choose|j: int| 0 <= j < s0.len() && (#[trigger] s0[j]).display_id == d;
                    lemma_monitor_lookup(s0, j);
                }
            }
            assert(stale@.take(0).to_set() =~= Set::<u64>::empty());
            assert(r0.remove_keys(Set::<u64>::empty()) =~= r0);
            assert(m0.remove_keys(Set::<u32>::empty()) =~= m0);
            assert(Set::new(|d: u32| exists|a: int| 0 <= a < 0 && r0.contains_key(stale@[a]) && r0[stale@[a]] == d)
                =~= Set::<u32>::empty());
        }
        let ghost p0 = self@.1;
        let mut k: usize = 0;
        while k < stale.len()
            invariant
                k <= stale@.len(),
                self.wf(),
                self@.1 == p0,
                self.reverse() == r0.remove_keys(stale@.take(k as int).to_set()),
                self@.0 == m0.remove_keys(
                    Set::new(|d: u32| exists|a: int| 0 <= a < k && r0.contains_key(stale@[a]) && r0[stale@[a]] == d),
                ),
            decreases stale@.len() - k,
        {
            let id = stale[k];
            let ghost rv = self.reverse();
            let ghost mp = self@.0;
            let ghost t0 = stale@.take(k as int);
            let ghost t1 = stale@.take(k + 1);
            proof {
                assert(t1 =~= t0.push(id));
                assert forall|x: u64| #[trigger] t1.to_set().contains(x) == (t0.to_set().contains(x) || x == id) by {
                    if t1.contains(x) {
                        let a = choose|a: int| 0 <= a < t1.len() && t1[a] == x;
                        if a < t0.len() {
                            assert(t0[a] == x);
                        }
                    }
                    if t0.contains(x) {
                        let a = choose|a: int| 0 <= a < t0.len() && t0[a] == x;
                        assert(t1[a] == x);
                    }
                    if x == id {
                        assert(t1[t0.len() as int] == x);
                    }
                }
            }
            let ghost s_k = Set::new(|d: u32| exists|a: int| 0 <= a < k && r0.contains_key(stale@[a]) && r0[stale@[a]] == d);
            let ghost s_k1 = Set::new(|d: u32| exists|a: int| 0 <= a < k + 1 && r0.contains_key(stale@[a]) && r0[stale@[a]] == d);
            match self.reverse.remove(&id) {
                Some(d) => {
                    proof {
                        assert(rv.contains_key(id) && rv[id] == d);
                        assert(!t0.to_set().contains(id));
                        assert(r0.contains_key(id) && r0[id] == d);
                        assert forall|x: u32| #[trigger] s_k1.contains(x) == (s_k.contains(x) || x == d) by {
                            if s_k1.contains(x) {
                                let a = choose|a: int| 0 <= a < k + 1 && r0.contains_key(stale@[a]) && r0[stale@[a]] == x;
                                if a < k {
                                    assert(s_k.contains(x));
                                }
                            }
                            if s_k.contains(x) {
                                let a = choose|a: int| 0 <= a < k && r0.contains_key(stale@[a]) && r0[stale@[a]] == x;
                                assert(0 <= a < k + 1);
                            }
                            if x == d {
                                assert(stale@[k as int] == id);
                            }
                        }
                    }
                    self.remove_display(d);
                    proof {
                        assert(self@.0 =~= m0.remove_keys(s_k1));
                        assert(self.reverse() =~= r0.remove_keys(t1.to_set()));
                    }
                },
                None => {
                    proof {
                        assert(!rv.contains_key(id));
                        assert forall|x: u32| #[trigger] s_k1.contains(x) == s_k.contains(x) by {
                            if s_k1.contains(x) {
                                let a = choose|a: int| 0 <= a < k + 1 && r0.contains_key(stale@[a]) && r0[stale@[a]] == x;
                                if a == k {
                                    // the id was already dropped by an earlier entry of the list
                                    assert(t0.to_set().contains(id));
                                    let b = choose|b: int| 0 <= b < t0.len() && t0[b] == id;
                                    assert(stale@[b] == id);
                                    assert(s_k.contains(x));
                                }
                            }
                        }
                        assert(s_k1 =~= s_k);
                        assert(self.reverse() =~= r0.remove_keys(t1.to_set()));
                    }
                },
            }
            k = k + 1;
        }
        proof {
            assert(stale@.take(stale@.len() as int) =~= stale@);
            let fin = Set::new(|d: u32| exists|a: int| 0 <= a < stale@.len() && r0.contains_key(stale@[a]) && r0[stale@[a]] == d);
            let want = Set::new(
                |d: u32|
                    exists|id: u64|
                        #![trigger r0[id]]
                        stale@.contains(id) && r0.contains_key(id) && r0[id] == d,
            );
            assert forall|d: u32| #[trigger] fin.contains(d) == want.contains(d) by {
                if fin.contains(d) {
                    let a = choose|a: int| 0 <= a < stale@.len() && r0.contains_key(stale@[a]) && r0[stale@[a]] == d;
                    assert(stale@.contains(stale@[a]));
                    let id = stale@[a];
                    assert(r0[id] == d);
                }
                if want.contains(d) {
                    let id = choose|id: u64| stale@.contains(id) && r0.contains_key(id) && r0[id] == d;
                    let a = choose|a: int| 0 <= a < stale@.len() && stale@[a] == id;
                }
            }
            assert(fin =~= want);
        }
        stale
    }

    /// The work areas of all monitors, in registry order.
    pub fn all_work_areas(&self) -> (r: Vec<PixelRect>)
        requires
            self.wf(),
        ensures
            forall|a: PixelRect| r@.contains(a) <==> exists|d: u32| #[trigger] self@.0.contains_key(d)
                && self@.0[d].1 == a,
            r@.len() == self@.0.dom().len(),
            work_area_listing(self@.0, r@),
    {
        let ghost s = self.entries@;
        let mut out: Vec<PixelRect> = Vec::new();
        let mut i: usize = 0;
        while i < self.entries.len()
            invariant
                s == self.entries@,
                i <= s.len(),
                out@.len() == i,
                forall|j: int| 0 <= j < i ==> out@[j] == (#[trigger] s[j]).work_area,
            decreases s.len() - i,
        {
            out.push(self.entries[i].work_area);
            i = i + 1;
        }
        proof {
            assert forall|a: PixelRect| out@.contains(a) <==> exists|d: u32| #[trigger] self@.0.contains_key(d)
                && self@.0[d].1 == a by {
                if out@.contains(a) {
                    let j = choose|j: int| 0 <= j < out@.len() && out@[j] == a;
                    lemma_monitor_lookup(s, j);
                    assert(self@.0.contains_key(s[j].display_id) && self@.0[s[j].display_id].1 == a);
                }
                if exists|d: u32| #[trigger] self@.0.contains_key(d) && self@.0[d].1 == a {
                    let d = choose|d: u32| #[trigger] self@.0.contains_key(d) && self@.0[d].1 == a;
                    let j = choose|j: int| 0 <= j < s.len() && (#[trigger] s[j]).display_id == d;
                    lemma_monitor_lookup(s, j);
                    assert(out@[j] == a);
                }
            }
            lemma_dom_len(s);
        }
        out
    }

    /// Updates the work area and bounds of the monitor of display `display_id`,
    /// returning its layout id and its previous work area.
    pub fn update_monitor(
        &mut self,
        display_id: u32,
        work_area: PixelRect,
        bounds: PixelRect,
    ) -> (r: Option<(u64, PixelRect)>)
        requires
            old(self).wf(),
        ensures
            final(self).wf(),
            final(self).reverse() == old(self).reverse(),
            old(self)@.0.contains_key(display_id) ==> r == Some((old(self)@.0[display_id].0, old(self)@.0[display_id].1))
                && final(self)@ == (
                old(self)@.0.insert(
                    display_id,
                    (old(self)@.0[display_id].0, work_area, old(self)@.0[display_id].2, bounds),
                ),
                old(self)@.1,
            ),
            !old(self)@.0.contains_key(display_id) ==> r is None && final(self)@ == old(self)@,
    {
        let ghost old_s = self.entries@;
        match self.index_of(display_id) {
            Some(i) => {
                proof {
                    lemma_monitor_lookup(old_s, i as int);
                }
                let mut entry = self.entries.remove(i);
                let old_area = entry.work_area;
                let id = entry.id;
                entry.work_area = work_area;
                entry.bounds = bounds;
                self.entries.insert(i, entry);
                proof {
                    let s = self.entries@;
                    assert(forall|j: int| 0 <= j < s.len() && j != i ==> #[trigger] s[j] == old_s[j]);
                    assert(monitors_unique(s)) by {
                        assert forall|a: int, b: int|
                            0 <= a < s.len() && 0 <= b < s.len() && a != b implies (
                        #[trigger] s[a]).display_id != (#[trigger] s[b]).display_id by {
                            assert(s[a].display_id == old_s[a].display_id && s[a].id == old_s[a].id);
                            assert(s[b].display_id == old_s[b].display_id && s[b].id == old_s[b].id);
                        }
                    }
                    lemma_same_records(old_s, s);
                    let expected = old(self)@.0.insert(
                        display_id,
                        (old(self)@.0[display_id].0, work_area, old(self)@.0[display_id].2, bounds),
                    );
                    assert forall|d: u32| #[trigger] monitors_map(s).contains_key(d) implies monitors_map(s)[d] == expected[d] by {
                        let j = choose|j: int| 0 <= j < s.len() && (#[trigger] s[j]).display_id == d;
                        lemma_monitor_lookup(s, j);
                        if j != i {
                            lemma_monitor_lookup(old_s, j);
                        }
                    }
                    assert(monitors_map(s) =~= expected);
                    self.lemma_wf();
                }
                Some((id, old_area))
            },
            None => None,
        }
    }
}

proof fn lemma_dom_len(s: Seq<MonitorEntry>)
    requires
        monitors_unique(s),
    ensures
        monitors_map(s).dom().len() == s.len(),
        monitors_map(s).dom().finite(),
    decreases s.len(),
{
    if s.len() == 0 {
        assert(monitors_map(s).dom() =~= Set::<u32>::empty());
    } else {
        let p = s.drop_last();
        assert(monitors_unique(p)) by {
            assert forall|a: int, b: int|
                0 <= a < p.len() && 0 <= b < p.len() && a != b implies (#[trigger] p[a]).display_id
                != (#[trigger] p[b]).display_id by {
                assert(p[a] == s[a] && p[b] == s[b]);
            }
        }
        lemma_dom_len(p);
        let last = s.last().display_id;
        assert(monitors_map(s).dom() =~= monitors_map(p).dom().insert(last)) by {
            assert forall|d: u32| #[trigger] monitors_map(s).dom().contains(d) == monitors_map(p).dom().insert(last).contains(d) by {
                if has_display(s, d) {
                    let j = choose|j: int| 0 <= j < s.len() && (#[trigger] s[j]).display_id == d;
                    if j < p.len() {
                        assert(p[j] == s[j]);
                    }
                }
                if has_display(p, d) {
                    let j = choose|j: int| 0 <= j < p.len() && (#[trigger] p[j]).display_id == d;
                    assert(s[j] == p[j]);
                }
                if d == last {
                    assert(s[s.len() - 1].display_id == d);
                }
            }
        }
        if has_display(p, last) {
            let j = choose|j: int| 0 <= j < p.len() && (#[trigger] p[j]).display_id == last;
            assert(s[j] == p[j]);
            assert(false);
        }
    }
}

} // verus!
