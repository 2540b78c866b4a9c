use vstd::prelude::*;

use crate::geometry::PixelRect;

verus! {

/// How many times a drifted window is put back before Dome gives up on it.
pub const MAX_ENFORCEMENT_RETRIES: u8 = 5;

/// A size limit learned from watching a window refuse a target.
#[derive(Clone, Copy, Debug, PartialEq, Eq, Structural)]
pub enum LimitUpdate {
    Unchanged,
    /// The window is known to refuse sizes past this many pixels.
    SetTo(i32),
}

/// The limits a window revealed by settling on another size than its target.
#[derive(Clone, Copy, Debug, PartialEq, Eq, Structural)]
pub struct LimitObservation {
    pub min_width: LimitUpdate,
    pub min_height: LimitUpdate,
    pub max_width: LimitUpdate,
    pub max_height: LimitUpdate,
}

/// `retries + 1`, stopping at `u8::MAX`.
pub open spec fn saturating_inc(retries: u8) -> u8 {
    if retries == u8::MAX {
        u8::MAX
    } else {
        (retries + 1) as u8
    }
}

/// The key by which the monitor that hides windows is chosen: how far its
/// bottom-right corner lies from the origin.
pub open spec fn corner_key(r: PixelRect) -> int {
    r.right_spec() + r.bottom_spec()
}

/// The index of the monitor that hides windows: the one with the largest
/// `corner_key`, the last of them on a tie.
pub open spec fn hidden_index_spec(monitors: Seq<PixelRect>) -> int
    decreases monitors.len(),
{
    if monitors.len() <= 1 {
        0
    } else {
        let prefix = monitors.drop_last();
        let best = hidden_index_spec(prefix);
        if corner_key(monitors.last()) >= corner_key(prefix[best]) {
            monitors.len() - 1
        } else {
            best
        }
    }
}

/// The point where hidden windows are parked: one pixel inside the
/// bottom-right corner of the hiding monitor's work area.
pub open spec fn hidden_position_spec(monitors: Seq<PixelRect>) -> (int, int) {
    let m = monitors[hidden_index_spec(monitors)];
    (m.right_spec() - 1, m.bottom_spec() - 1)
}

/// Whether a window at `actual` already sits at the hidden position (on
/// either axis, since macOS may clamp the other one).
pub open spec fn at_hidden_spec(actual: PixelRect, monitors: Seq<PixelRect>) -> bool {
    let (hx, hy) = hidden_position_spec(monitors);
    actual.x == hx || actual.y == hy
}

/// The hidden monitor is the last one of largest `corner_key`.
pub proof fn lemma_hidden_index_is_last_max(monitors: Seq<PixelRect>)
    requires
        monitors.len() > 0,
    ensures
        0 <= hidden_index_spec(monitors) < monitors.len(),
        forall|j: int|
            0 <= j < monitors.len() ==> corner_key(#[trigger] monitors[j]) <= corner_key(
                monitors[hidden_index_spec(monitors)],
            ),
        forall|j: int|
            hidden_index_spec(monitors) < j < monitors.len() ==> corner_key(#[trigger] monitors[j])
                < corner_key(monitors[hidden_index_spec(monitors)]),
    decreases monitors.len(),
{
    if monitors.len() > 1 {
        let prefix = monitors.drop_last();
        lemma_hidden_index_is_last_max(prefix);
        assert forall|j: int| 0 <= j < prefix.len() implies prefix[j] == monitors[j] by {}
    }
}

/// The index of the monitor whose work area hides windows: the monitor whose
/// bottom-right corner is furthest from the origin, so a window parked there
/// is not visible on any other screen.
pub fn hidden_monitor(monitors: &[PixelRect]) -> (idx: usize)
    requires
        monitors@.len() > 0,
    ensures
        idx == hidden_index_spec(monitors@),
        idx < monitors@.len(),
{
    let mut best: usize = 0;
    let mut i: usize = 1;
    proof {
        lemma_hidden_index_is_last_max(monitors@);
        assert(monitors@.take(1).drop_last() =~= Seq::<PixelRect>::empty());
    }
    while i < monitors.len()
        invariant
            1 <= i <= monitors@.len(),
            best < i,
            best == hidden_index_spec(monitors@.take(i as int)),
        decreases monitors@.len() - i,
    {
        proof {
            assert(monitors@.take(i as int + 1).drop_last() =~= monitors@.take(i as int));
            assert(monitors@.take(i as int)[best as int] == monitors@[best as int]);
        }
        let key_i: i64 = monitors[i].right() + monitors[i].bottom();
        let key_best: i64 = monitors[best].right() + monitors[best].bottom();
        if key_i >= key_best {
            best = i;
        }
        i = i + 1;
    }
    proof {
        assert(monitors@.take(monitors@.len() as int) =~= monitors@);
    }
    best
}

/// Where a hidden window is parked. macOS refuses to put a window wholly
/// offscreen, so one pixel of it stays on the hiding monitor.
pub fn hidden_position(monitors: &[PixelRect]) -> (r: (i64, i64))
    requires
        monitors@.len() > 0,
    ensures
        r.0 == hidden_position_spec(monitors@).0,
        r.1 == hidden_position_spec(monitors@).1,
{
    let idx = hidden_monitor(monitors);
    (monitors[idx].right() - 1, monitors[idx].bottom() - 1)
}

/// Whether a window whose frame is `actual` sits at the hidden position.
pub fn is_at_hidden_position(monitors: &[PixelRect], actual: &PixelRect) -> (r: bool)
    requires
        monitors@.len() > 0,
    ensures
        r == at_hidden_spec(*actual, monitors@),
{
    let (hidden_x, hidden_y) = hidden_position(monitors);
    actual.x as i64 == hidden_x || actual.y as i64 == hidden_y
}

/// The position to move a window to in order to hide it, or `None` when it
/// already sits there. When spaces change or monitors come and go, hidden
/// windows may be brought back into view, so callers re-hide with this.
pub fn move_offscreen(monitors: &[PixelRect], actual: &PixelRect) -> (r: Option<(i64, i64)>)
    requires
        monitors@.len() > 0,
    ensures
        r == (if at_hidden_spec(*actual, monitors@) {
            None
        } else {
            Some((hidden_position_spec(monitors@).0 as i64, hidden_position_spec(monitors@).1 as i64))
        }),
{
    let (hidden_x, hidden_y) = hidden_position(monitors);
    if actual.x as i64 == hidden_x || actual.y as i64 == hidden_y {
        return None;
    }
    Some((hidden_x, hidden_y))
}

/// A window Dome moved offscreen. `actual` is the last observed frame, which
/// may differ from the hidden position if monitors changed since it was hidden.
#[derive(Clone, Copy, Debug, PartialEq, Eq, Structural)]
pub struct OffscreenPlacement {
    pub actual: PixelRect,
    pub retries: u8,
}

impl OffscreenPlacement {
    pub fn new(actual: PixelRect) -> (r: OffscreenPlacement)
        ensures
            r.actual == actual,
            r.retries == 0,
    {
        OffscreenPlacement { actual, retries: 0 }
    }

    /// Updates `actual` unconditionally. Returns true if the window is NOT at
    /// the hidden position (i.e. it fought back), and then consumes a retry.
    pub fn record_drift(&mut self, new_actual: PixelRect, monitors: &[PixelRect]) -> (fought: bool)
        requires
            monitors@.len() > 0,
        ensures
            final(self).actual == new_actual,
            fought == !at_hidden_spec(new_actual, monitors@),
            final(self).retries == (if fought {
                saturating_inc(old(self).retries)
            } else {
                old(self).retries
            }),
    {
        self.actual = new_actual;
        if is_at_hidden_position(monitors, &new_actual) {
            return false;
        }
        self.retries = self.retries.saturating_add(1);
        true
    }

    pub fn should_retry(&self) -> (r: bool)
        ensures
            r == (self.retries <= MAX_ENFORCEMENT_RETRIES),
    {
        self.retries <= MAX_ENFORCEMENT_RETRIES
    }

    /// Whether the retry budget was exhausted by the latest drift.
    pub fn just_gave_up(&self) -> (r: bool)
        ensures
            r == (self.retries == MAX_ENFORCEMENT_RETRIES + 1),
    {
        self.retries == MAX_ENFORCEMENT_RETRIES + 1
    }
}

/// Lightweight placement state for floating windows. Floats accept the
/// OS-reported geometry as ground truth, so there is no `actual` and no
/// retry machinery.
#[derive(Clone, Copy, Debug, PartialEq, Eq, Structural)]
pub struct FloatPlacement {
    /// Last rect reconciled with the OS.
    pub target: PixelRect,
    /// When `target` was last bumped by an outbound frame change, in
    /// nanoseconds of the monotonic clock.
    pub placed_at: u64,
}

impl FloatPlacement {
    pub fn new(target: PixelRect, now: u64) -> (r: FloatPlacement)
        ensures
            r.target == target,
            r.placed_at == now,
    {
        FloatPlacement { target, placed_at: now }
    }

    /// Returns true if the frame must be set.
    pub fn set_target(&mut self, target: PixelRect, now: u64) -> (changed: bool)
        ensures
            changed == (old(self).target != target),
            changed ==> *final(self) == (FloatPlacement { target, placed_at: now }),
            !changed ==> *final(self) == *old(self),
    {
        if self.target == target {
            return false;
        }
        self.target = target;
        self.placed_at = now;
        true
    }
}

/// Placement state of a tiled window: where Dome wants it, where it last
/// was seen, and how many corrections it has been given.
#[derive(Clone, Copy, Debug, PartialEq, Eq, Structural)]
pub struct Placement {
    pub target: PixelRect,
    pub actual: PixelRect,
    pub retries: u8,
    /// When the last placement was issued, in nanoseconds of the monotonic
    /// clock. Notifications generated before it reflect pre-placement state.
    pub placed_at: u64,
}

/// Whether `new_actual` has at least one vertical and one horizontal edge
/// misaligned with `target`, i.e. drift rather than an edge-anchored resize.
pub open spec fn has_drifted_spec(target: PixelRect, new_actual: PixelRect) -> bool {
    let left = new_actual.x == target.x;
    let right = new_actual.right_spec() == target.right_spec();
    let top = new_actual.y == target.y;
    let bottom = new_actual.bottom_spec() == target.bottom_spec();
    !((left || right) && (top || bottom))
}

/// What one observed drift does to a placement, and the target to re-issue.
pub open spec fn observe_drift_spec(p: Placement, new_actual: PixelRect) -> (Placement, Option<PixelRect>) {
    let retries = saturating_inc(p.retries);
    (
        Placement { retries, actual: new_actual, ..p },
        if retries <= MAX_ENFORCEMENT_RETRIES {
            Some(p.target)
        } else {
            None
        },
    )
}

pub open spec fn limit_spec(seen: i32, bigger: bool) -> LimitUpdate {
    if bigger {
        LimitUpdate::SetTo(seen)
    } else {
        LimitUpdate::Unchanged
    }
}

/// The limits a window revealed by settling on `actual` instead of `target`:
/// a larger actual size is a minimum, a smaller one a maximum.
pub open spec fn constraint_spec(actual: PixelRect, target: PixelRect) -> Option<LimitObservation> {
    if actual.width == target.width && actual.height == target.height {
        None
    } else {
        Some(
            LimitObservation {
                min_width: limit_spec(actual.width, actual.width > target.width),
                min_height: limit_spec(actual.height, actual.height > target.height),
                max_width: limit_spec(actual.width, actual.width < target.width),
                max_height: limit_spec(actual.height, actual.height < target.height),
            },
        )
    }
}

impl Placement {
    pub fn new(actual: PixelRect, target: PixelRect, now: u64) -> (r: Placement)
        ensures
            r == (Placement { target, actual, retries: 0, placed_at: now }),
    {
        Placement { target, actual, retries: 0, placed_at: now }
    }

    /// Returns true if the frame must be set. A new target restarts the
    /// retry budget and the placement clock.
    pub fn set_target(&mut self, target: PixelRect, now: u64) -> (changed: bool)
        ensures
            changed == (old(self).target != target),
            changed ==> *final(self) == (Placement {
                target,
                actual: old(self).actual,
                retries: 0,
                placed_at: now,
            }),
            !changed ==> *final(self) == *old(self),
    {
        let target_changed = self.target != target;
        self.target = target;
        if target_changed {
            self.retries = 0;
            self.placed_at = now;
        }
        target_changed
    }

    /// Returns true if `new_actual` has at least one vertical *and* one
    /// horizontal edge misaligned with the target. The caller must follow
    /// up with `observe_drift` to consume a retry.
    pub fn has_drifted(&self, new_actual: PixelRect) -> (r: bool)
        ensures
            r == has_drifted_spec(self.target, new_actual),
    {
        let target = self.target;
        let left = new_actual.x() == target.x();
        let right = new_actual.right() == target.right();
        let top = new_actual.y() == target.y();
        let bottom = new_actual.bottom() == target.bottom();
        !((left || right) && (top || bottom))
    }

    /// Returns the target to re-issue while retries remain, and `None` once
    /// the budget is exhausted.
    pub fn observe_drift(&mut self, new_actual: PixelRect) -> (r: Option<PixelRect>)
        ensures
            (*final(self), r) == observe_drift_spec(*old(self), new_actual),
    {
        self.retries = self.retries.saturating_add(1);
        self.actual = new_actual;
        if self.should_retry() {
            Some(self.target)
        } else {
            None
        }
    }

    pub fn should_retry(&self) -> (r: bool)
        ensures
            r == (self.retries <= MAX_ENFORCEMENT_RETRIES),
    {
        self.retries <= MAX_ENFORCEMENT_RETRIES
    }

    /// Whether we just crossed the retry limit (for one-time logging).
    pub fn just_gave_up(&self) -> (r: bool)
        ensures
            r == (self.retries == MAX_ENFORCEMENT_RETRIES + 1),
    {
        self.retries == MAX_ENFORCEMENT_RETRIES + 1
    }

    /// The size limits the window revealed, or `None` when it took the
    /// target size.
    pub fn detect_constraint(&self) -> (r: Option<LimitObservation>)
        ensures
            r == constraint_spec(self.actual, self.target),
    {
        let (actual, target) = (self.actual, self.target);
        let min_w = if actual.width > target.width {
            LimitUpdate::SetTo(actual.width)
        } else {
            LimitUpdate::Unchanged
        };
        let min_h = if actual.height > target.height {
            LimitUpdate::SetTo(actual.height)
        } else {
            LimitUpdate::Unchanged
        };
        let max_w = if actual.width < target.width {
            LimitUpdate::SetTo(actual.width)
        } else {
            LimitUpdate::Unchanged
        };
        let max_h = if actual.height < target.height {
            LimitUpdate::SetTo(actual.height)
        } else {
            LimitUpdate::Unchanged
        };
        if actual.width == target.width && actual.height == target.height {
            return None;
        }
        Some(LimitObservation { min_width: min_w, min_height: min_h, max_width: max_w, max_height: max_h })
    }
}

/// Feeds a sequence of drifted frames to a placement. Returns the final
/// placement and how many times the target was re-issued.
pub open spec fn drift_run(p: Placement, frames: Seq<PixelRect>) -> (Placement, nat)
    decreases frames.len(),
{
    if frames.len() == 0 {
        (p, 0)
    } else {
        let (p1, reissue) = observe_drift_spec(p, frames[0]);
        let (p2, n) = drift_run(p1, frames.drop_first());
        (p2, n + if reissue is Some { 1nat } else { 0nat })
    }
}

/// A drifting window gets its target re-issued at most
/// `MAX_ENFORCEMENT_RETRIES` times between target changes: a fresh budget is
/// spent on the first drifts, after which Dome leaves the window be.
pub proof fn law_drift_budget(p: Placement, frames: Seq<PixelRect>)
    ensures
        drift_run(p, frames).1 == (if p.retries >= MAX_ENFORCEMENT_RETRIES {
            0
        } else {
            vstd::math::min(frames.len() as int, MAX_ENFORCEMENT_RETRIES - p.retries)
        }),
        drift_run(p, frames).0.target == p.target,
    decreases frames.len(),
{
    if frames.len() > 0 {
        let (p1, reissue) = observe_drift_spec(p, frames[0]);
        law_drift_budget(p1, frames.drop_first());
    }
}

/// Each drift observation spends one retry, until the counter saturates.
pub proof fn lemma_drift_run_retries(p: Placement, frames: Seq<PixelRect>)
    ensures
        drift_run(p, frames).0.retries == vstd::math::min(p.retries + frames.len(), 255),
    decreases frames.len(),
{
    if frames.len() > 0 {
        let (p1, reissue) = observe_drift_spec(p, frames[0]);
        lemma_drift_run_retries(p1, frames.drop_first());
    }
}

/// After `n` drift observations of a fresh placement whose target did not
/// change, Dome still retries exactly while `n <= MAX_ENFORCEMENT_RETRIES`,
/// and it has just given up exactly after the observation that exceeds the
/// budget, so the give-up is logged once.
pub proof fn law_gives_up_once(actual: PixelRect, target: PixelRect, now: u64, frames: Seq<PixelRect>)
    ensures
        ({
            let q = drift_run(Placement { target, actual, retries: 0, placed_at: now }, frames).0;
            &&& q.target == target
            &&& (q.retries <= MAX_ENFORCEMENT_RETRIES) == (frames.len() <= MAX_ENFORCEMENT_RETRIES)
            &&& (q.retries == MAX_ENFORCEMENT_RETRIES + 1) == (frames.len() == MAX_ENFORCEMENT_RETRIES + 1)
            &&& q.retries == MAX_ENFORCEMENT_RETRIES + 1 ==> !(q.retries <= MAX_ENFORCEMENT_RETRIES)
        }),
{
    let p = Placement { target, actual, retries: 0, placed_at: now };
    lemma_drift_run_retries(p, frames);
    law_drift_budget(p, frames);
}

/// Giving a placement a new target restarts its retry budget: whatever
/// drift follows, the new target is re-issued up to
/// `MAX_ENFORCEMENT_RETRIES` times.
pub proof fn law_new_target_restarts_budget(
    p: Placement,
    target: PixelRect,
    now: u64,
    frames: Seq<PixelRect>,
)
    requires
        p.target != target,
    ensures
        drift_run(Placement { target, actual: p.actual, retries: 0, placed_at: now }, frames).1
            == vstd::math::min(frames.len() as int, MAX_ENFORCEMENT_RETRIES as int),
{
    law_drift_budget(Placement { target, actual: p.actual, retries: 0, placed_at: now }, frames);
}

/// A frame that keeps a horizontal and a vertical edge of the target is a
/// resize anchored at those edges, not drift; in particular the target
/// itself is never drift.
pub proof fn law_anchored_resize_is_not_drift(target: PixelRect, new_actual: PixelRect)
    ensures
        (new_actual.x == target.x || new_actual.right_spec() == target.right_spec()) && (new_actual.y
            == target.y || new_actual.bottom_spec() == target.bottom_spec()) ==> !has_drifted_spec(
            target,
            new_actual,
        ),
        !has_drifted_spec(target, target),
{
}

/// A window that took its target size reveals no limits; one that did not
/// reveals, on each axis where it differs, exactly one of a minimum (when it
/// stayed larger) or a maximum (when it stayed smaller).
pub proof fn law_constraint_shape(actual: PixelRect, target: PixelRect)
    ensures
        constraint_spec(actual, target) is None <==> (actual.width == target.width && actual.height
            == target.height),
        constraint_spec(actual, target) matches Some(o) ==> {
            &&& (o.min_width is SetTo <==> actual.width > target.width)
            &&& (o.max_width is SetTo <==> actual.width < target.width)
            &&& (o.min_height is SetTo <==> actual.height > target.height)
            &&& (o.max_height is SetTo <==> actual.height < target.height)
            &&& !(o.min_width is SetTo && o.max_width is SetTo)
            &&& !(o.min_height is SetTo && o.max_height is SetTo)
        },
{
}

/// The hidden position lies inside the work area of the hiding monitor (one
/// pixel in from its bottom-right corner), which is the monitor whose corner
/// lies furthest from the origin.
pub proof fn law_hidden_position_on_hiding_monitor(monitors: Seq<PixelRect>)
    requires
        monitors.len() > 0,
        forall|i: int| 0 <= i < monitors.len() ==> !(#[trigger] monitors[i]).is_empty_spec(),
    ensures
        ({
            let m = monitors[hidden_index_spec(monitors)];
            let (hx, hy) = hidden_position_spec(monitors);
            &&& m.x <= hx < m.right_spec()
            &&& m.y <= hy < m.bottom_spec()
            &&& forall|j: int| 0 <= j < monitors.len() ==> corner_key(#[trigger] monitors[j]) <= corner_key(m)
        }),
{
    lemma_hidden_index_is_last_max(monitors);
}

/// A window parked at the hidden position counts as hidden, so Dome does not
/// move it again.
pub proof fn law_parked_window_is_hidden(monitors: Seq<PixelRect>, parked: PixelRect)
    requires
        monitors.len() > 0,
        parked.x == hidden_position_spec(monitors).0 || parked.y == hidden_position_spec(monitors).1,
    ensures
        at_hidden_spec(parked, monitors),
{
}

} // verus!
