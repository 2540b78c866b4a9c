use vstd::prelude::*;

use crate::geometry::{clip_spec, clip_to_bounds, PixelRect};

verus! {

/// The content box of a window framed by a border of `border` pixels: the
/// frame shrunk by the border on every side, never below zero size.
pub open spec fn inset_spec(frame: PixelRect, border: i32) -> PixelRect {
    PixelRect {
        x: (frame.x + border) as i32,
        y: (frame.y + border) as i32,
        width: if frame.width - 2 * border >= 0 {
            (frame.width - 2 * border) as i32
        } else {
            0
        },
        height: if frame.height - 2 * border >= 0 {
            (frame.height - 2 * border) as i32
        } else {
            0
        },
    }
}

/// Whether insetting `frame` by `border` stays within `i32`.
pub open spec fn inset_fits(frame: PixelRect, border: i32) -> bool {
    &&& i32::MIN <= frame.x + border <= i32::MAX
    &&& i32::MIN <= frame.y + border <= i32::MAX
    &&& frame.width - 2 * border <= i32::MAX
    &&& frame.height - 2 * border <= i32::MAX
}

/// The content box inside a window's frame.
pub fn apply_inset(frame: PixelRect, border: i32) -> (r: PixelRect)
    requires
        inset_fits(frame, border),
    ensures
        r == inset_spec(frame, border),
{
    let w: i64 = frame.width as i64 - 2 * border as i64;
    let h: i64 = frame.height as i64 - 2 * border as i64;
    PixelRect {
        x: (frame.x as i64 + border as i64) as i32,
        y: (frame.y as i64 + border as i64) as i32,
        width: if w >= 0 {
            w as i32
        } else {
            0
        },
        height: if h >= 0 {
            h as i32
        } else {
            0
        },
    }
}

/// A window as the layout places it: its frame and the part of the monitor
/// it may be shown in.
#[derive(Clone, Copy, Debug, PartialEq, Eq, Structural)]
pub struct WindowPlacement {
    pub id: u64,
    pub frame: PixelRect,
    pub visible_frame: PixelRect,
}

/// What to do with one window of a monitor's layout.
#[derive(Clone, Copy, Debug, PartialEq, Eq, Structural)]
pub enum PlacementCommand {
    /// Show the window tiled with this content box.
    ShowTiling(u64, PixelRect),
    /// Show the window floating with this content box.
    ShowFloat(u64, PixelRect),
    /// Move the window offscreen.
    MoveOffscreen(u64),
}

/// The command for a tiled window: shown with its content box clipped to
/// the visible frame, or moved offscreen when none of it is visible (macOS
/// does not reliably place windows partly offscreen).
pub open spec fn tiling_command(wp: WindowPlacement, border: i32) -> PlacementCommand {
    match clip_spec(inset_spec(wp.frame, border), wp.visible_frame) {
        Some(t) => PlacementCommand::ShowTiling(wp.id, t),
        None => PlacementCommand::MoveOffscreen(wp.id),
    }
}

/// The command for a floating window: only the focused float is shown,
/// with its whole content box (floats are screen-absolute and the OS clips
/// them); others are moved offscreen.
pub open spec fn float_command(wp: WindowPlacement, border: i32, focused: Option<u64>) -> PlacementCommand {
    if focused == Some(wp.id) {
        PlacementCommand::ShowFloat(wp.id, inset_spec(wp.frame, border))
    } else {
        PlacementCommand::MoveOffscreen(wp.id)
    }
}

pub open spec fn tiling_commands(ws: Seq<WindowPlacement>, border: i32) -> Seq<PlacementCommand>
    decreases ws.len(),
{
    if ws.len() == 0 {
        seq![]
    } else {
        tiling_commands(ws.drop_last(), border).push(tiling_command(ws.last(), border))
    }
}

pub open spec fn float_commands(ws: Seq<WindowPlacement>, border: i32, focused: Option<u64>) -> Seq<
    PlacementCommand,
>
    decreases ws.len(),
{
    if ws.len() == 0 {
        seq![]
    } else {
        float_commands(ws.drop_last(), border, focused).push(
            float_command(ws.last(), border, focused),
        )
    }
}

/// The commands that apply a monitor's normal layout: its tiled windows in
/// order, then its floats in order.
pub fn plan_monitor_placements(
    tiling: &Vec<WindowPlacement>,
    floats: &Vec<WindowPlacement>,
    border: i32,
    focused: Option<u64>,
) -> (r: Vec<PlacementCommand>)
    requires
        forall|i: int| 0 <= i < tiling@.len() ==> inset_fits(#[trigger] tiling@[i].frame, border),
        forall|i: int| 0 <= i < floats@.len() ==> inset_fits(#[trigger] floats@[i].frame, border),
    ensures
        r@ == tiling_commands(tiling@, border) + float_commands(floats@, border, focused),
{
    let mut out: Vec<PlacementCommand> = Vec::new();
    let mut i: usize = 0;
    while i < tiling.len()
        invariant
            i <= tiling@.len(),
            forall|j: int| 0 <= j < tiling@.len() ==> inset_fits(#[trigger] tiling@[j].frame, border),
            out@ == tiling_commands(tiling@.take(i as int), border),
        decreases tiling@.len() - i,
    {
        let wp = tiling[i];
        let content = apply_inset(wp.frame, border);
        match clip_to_bounds(content, wp.visible_frame) {
            Some(target) => out.push(PlacementCommand::ShowTiling(wp.id, target)),
            None => out.push(PlacementCommand::MoveOffscreen(wp.id)),
        }
        proof {
            assert(tiling@.take(i + 1).drop_last() =~= tiling@.take(i as int));
        }
        i = i + 1;
    }
    proof {
        assert(tiling@.take(tiling@.len() as int) =~= tiling@);
    }
    let ghost base = out@;
    let mut k: usize = 0;
    while k < floats.len()
        invariant
            k <= floats@.len(),
            forall|j: int| 0 <= j < floats@.len() ==> inset_fits(#[trigger] floats@[j].frame, border),
            base == tiling_commands(tiling@, border),
            out@ == base + float_commands(floats@.take(k as int), border, focused),
        decreases floats@.len() - k,
    {
        let wp = floats[k];
        let content = apply_inset(wp.frame, border);
        let is_focused = match focused {
            Some(f) => f == wp.id,
            None => false,
        };
        if is_focused {
            out.push(PlacementCommand::ShowFloat(wp.id, content));
        } else {
            out.push(PlacementCommand::MoveOffscreen(wp.id));
        }
        proof {
            assert(floats@.take(k + 1).drop_last() =~= floats@.take(k as int));
            assert(out@ =~= base + float_commands(floats@.take(k + 1), border, focused));
        }
        k = k + 1;
    }
    proof {
        assert(floats@.take(floats@.len() as int) =~= floats@);
    }
    out
}

/// The windows of `previous` that are not in `now`, in order: the windows a
/// monitor displayed that the new layout no longer shows, and so must hide.
pub open spec fn difference_spec(previous: Seq<u64>, now: Seq<u64>) -> Seq<u64>
    decreases previous.len(),
{
    if previous.len() == 0 {
        seq![]
    } else {
        difference_spec(previous.drop_last(), now) + if now.contains(previous.last()) {
            seq![]
        } else {
            seq![previous.last()]
        }
    }
}

/// The windows displayed before and not displayed now.
pub fn windows_to_hide(previous: &Vec<u64>, now: &Vec<u64>) -> (r: Vec<u64>)
    ensures
        r@ == difference_spec(previous@, now@),
{
    let mut out: Vec<u64> = Vec::new();
    let mut i: usize = 0;
    while i < previous.len()
        invariant
            i <= previous@.len(),
            out@ == difference_spec(previous@.take(i as int), now@),
        decreases previous@.len() - i,
    {
        let w = previous[i];
        let mut found = false;
        let mut j: usize = 0;
        while j < now.len()
            invariant
                j <= now@.len(),
                found == exists|a: int| 0 <= a < j && now@[a] == w,
            decreases now@.len() - j,
        {
            if now[j] == w {
                found = true;
            }
            j = j + 1;
        }
        proof {
            assert(found == now@.contains(w));
            assert(previous@.take(i + 1).drop_last() =~= previous@.take(i as int));
            assert(previous@.take(i + 1).last() == w);
        }
        if !found {
            out.push(w);
        }
        proof {
            assert(out@ =~= difference_spec(previous@.take(i + 1), now@));
        }
        i = i + 1;
    }
    proof {
        assert(previous@.take(previous@.len() as int) =~= previous@);
    }
    out
}

/// A window is hidden exactly when it was displayed and is displayed no more.
pub proof fn law_hidden_means_no_longer_displayed(previous: Seq<u64>, now: Seq<u64>, w: u64)
    ensures
        difference_spec(previous, now).contains(w) <==> previous.contains(w) && !now.contains(w),
    decreases previous.len(),
{
    if previous.len() > 0 {
        let prefix = previous.drop_last();
        law_hidden_means_no_longer_displayed(prefix, now, w);
        let tail: Seq<u64> = if now.contains(previous.last()) {
            seq![]
        } else {
            seq![previous.last()]
        };
        let d = difference_spec(prefix, now);
        assert(difference_spec(previous, now) == d + tail);
        if (d + tail).contains(w) {
            let j = choose|j: int| 0 <= j < (d + tail).len() && (d + tail)[j] == w;
            if j < d.len() {
                assert(d[j] == w);
                let a = choose|a: int| 0 <= a < prefix.len() && prefix[a] == w;
                assert(previous[a] == w);
            } else {
                assert(previous[previous.len() - 1] == w);
            }
        }
        if previous.contains(w) && !now.contains(w) {
            let a = choose|a: int| 0 <= a < previous.len() && previous[a] == w;
            if a < prefix.len() {
                assert(prefix[a] == w);
                let j = choose|j: int| 0 <= j < d.len() && d[j] == w;
                assert((d + tail)[j] == w);
            } else {
                assert((d + tail)[d.len() as int] == w);
            }
        }
    }
}

/// A shown tiled window lies within its visible frame and inside its
/// content box, and is never empty.
pub proof fn law_shown_tiling_stays_visible(wp: WindowPlacement, border: i32)
    requires
        tiling_command(wp, border) is ShowTiling,
        !wp.visible_frame.is_empty_spec(),
        !inset_spec(wp.frame, border).is_empty_spec(),
    ensures
        ({
            let t = tiling_command(wp, border)->ShowTiling_1;
            let c = inset_spec(wp.frame, border);
            &&& wp.visible_frame.x <= t.x && t.right_spec() <= wp.visible_frame.right_spec()
            &&& wp.visible_frame.y <= t.y && t.bottom_spec() <= wp.visible_frame.bottom_spec()
            &&& c.x <= t.x && t.right_spec() <= c.right_spec()
            &&& c.y <= t.y && t.bottom_spec() <= c.bottom_spec()
            &&& !t.is_empty_spec()
        }),
{
    crate::geometry::lemma_clip_within(inset_spec(wp.frame, border), wp.visible_frame);
}

/// Only the focused float is shown.
pub proof fn law_only_focused_float_shown(wp: WindowPlacement, border: i32, focused: Option<u64>)
    ensures
        float_command(wp, border, focused) is ShowFloat <==> focused == Some(wp.id),
{
}

/// How a visible window is shown, which decides its stacking.
#[derive(Clone, Copy, Debug, PartialEq, Eq, Structural)]
pub enum ShowKind {
    Tiled,
    Floating,
    Fullscreen,
}

pub open spec fn stack_rank(k: ShowKind) -> int {
    match k {
        ShowKind::Tiled => 0,
        ShowKind::Floating => 1,
        ShowKind::Fullscreen => 2,
    }
}

/// The indices of `kinds` of rank `rank`, in order.
pub open spec fn indices_of_rank(kinds: Seq<ShowKind>, rank: int) -> Seq<int>
    decreases kinds.len(),
{
    if kinds.len() == 0 {
        seq![]
    } else {
        indices_of_rank(kinds.drop_last(), rank) + if stack_rank(kinds.last()) == rank {
            seq![kinds.len() - 1]
        } else {
            seq![]
        }
    }
}

/// The order in which windows are stacked, bottom first: tiled windows,
/// then floats, then fullscreen windows, each group in its given order (a
/// stable sort by that rank).
pub open spec fn stack_order_spec(kinds: Seq<ShowKind>) -> Seq<int> {
    indices_of_rank(kinds, 0) + indices_of_rank(kinds, 1) + indices_of_rank(kinds, 2)
}

pub open spec fn as_ints(s: Seq<usize>) -> Seq<int> {
    s.map_values(|x: usize| x as int)
}

fn collect_rank(kinds: &Vec<ShowKind>, rank: u8, out: &mut Vec<usize>)
    requires
        rank <= 2,
    ensures
        as_ints(final(out)@) == as_ints(old(out)@) + indices_of_rank(kinds@, rank as int),
{
    let ghost base = as_ints(out@);
    let mut i: usize = 0;
    while i < kinds.len()
        invariant
            i <= kinds@.len(),
            rank <= 2,
            as_ints(out@) == base + indices_of_rank(kinds@.take(i as int), rank as int),
        decreases kinds@.len() - i,
    {
        let r: u8 = match kinds[i] {
            ShowKind::Tiled => 0,
            ShowKind::Floating => 1,
            ShowKind::Fullscreen => 2,
        };
        proof {
            assert(kinds@.take(i + 1).drop_last() =~= kinds@.take(i as int));
            assert(kinds@.take(i + 1).last() == kinds@[i as int]);
        }
        let ghost before = out@;
        if r == rank {
            out.push(i);
            proof {
                assert(as_ints(out@) =~= as_ints(before).push(i as int));
            }
        }
        proof {
            assert(as_ints(out@) =~= base + indices_of_rank(kinds@.take(i + 1), rank as int));
        }
        i = i + 1;
    }
    proof {
        assert(kinds@.take(kinds@.len() as int) =~= kinds@);
    }
}

/// The stacking order of the visible windows, as indices into `kinds`.
pub fn stack_order(kinds: &Vec<ShowKind>) -> (r: Vec<usize>)
    ensures
        as_ints(r@) == stack_order_spec(kinds@),
{
    let mut out: Vec<usize> = Vec::new();
    proof {
        assert(as_ints(out@) =~= Seq::<int>::empty());
    }
    collect_rank(kinds, 0, &mut out);
    collect_rank(kinds, 1, &mut out);
    collect_rank(kinds, 2, &mut out);
    proof {
        assert(Seq::<int>::empty() + indices_of_rank(kinds@, 0) =~= indices_of_rank(kinds@, 0));
    }
    out
}

/// A direction on screen.
#[derive(Clone, Copy, Debug, PartialEq, Eq, Structural)]
pub enum Cardinal {
    Up,
    Down,
    Left,
    Right,
}

/// An axis of the layout tree.
#[derive(Clone, Copy, Debug, PartialEq, Eq, Structural)]
pub enum Axis {
    Horizontal,
    Vertical,
}

/// The axis and sense in which a focus or move toward `c` steps through the
/// layout: up and down walk the vertical axis, left and right the
/// horizontal one; down and right step forward.
pub fn cardinal_step(c: Cardinal) -> (r: (Axis, bool))
    ensures
        r.0 == (if c is Up || c is Down {
            Axis::Vertical
        } else {
            Axis::Horizontal
        }),
        r.1 == (c is Down || c is Right),
{
    match c {
        Cardinal::Up => (Axis::Vertical, false),
        Cardinal::Down => (Axis::Vertical, true),
        Cardinal::Left => (Axis::Horizontal, false),
        Cardinal::Right => (Axis::Horizontal, true),
    }
}

/// The indices of rank `rank` are exactly the positions of windows of that
/// rank, in increasing order.
pub proof fn lemma_indices_of_rank(kinds: Seq<ShowKind>, rank: int)
    ensures
        forall|i: int| 0 <= i < kinds.len() ==> (indices_of_rank(kinds, rank).contains(i) <==> stack_rank(#[trigger] kinds[i]) == rank),
        forall|a: int| 0 <= a < indices_of_rank(kinds, rank).len() ==> 0 <= #[trigger] indices_of_rank(kinds, rank)[a] < kinds.len(),
    decreases kinds.len(),
{
    if kinds.len() > 0 {
        let p = kinds.drop_last();
        lemma_indices_of_rank(p, rank);
        let tail: Seq<int> = if stack_rank(kinds.last()) == rank {
            seq![kinds.len() - 1]
        } else {
            seq![]
        };
        let q = indices_of_rank(p, rank);
        let r = indices_of_rank(kinds, rank);
        assert(r == q + tail);
        assert forall|a: int| 0 <= a < r.len() implies 0 <= #[trigger] r[a] < kinds.len() by {
            if a < q.len() {
                assert(r[a] == q[a]);
            }
        }
        assert forall|i: int| 0 <= i < kinds.len() implies (r.contains(i) <==> stack_rank(#[trigger] kinds[i]) == rank) by {
            if i < p.len() {
                assert(p[i] == kinds[i]);
                if r.contains(i) {
                    let j = choose|j: int| 0 <= j < r.len() && r[j] == i;
                    if j < q.len() {
                        assert(q[j] == i);
                    }
                }
                if q.contains(i) {
                    let j = choose|j: int| 0 <= j < q.len() && q[j] == i;
                    assert(r[j] == i);
                }
            } else {
                if r.contains(i) {
                    let j = choose|j: int| 0 <= j < r.len() && r[j] == i;
                    if j < q.len() {
                        assert(q[j] == i);
                        assert(q[j] < p.len());
                    }
                }
                if stack_rank(kinds[i]) == rank {
                    assert(r[q.len() as int] == i);
                }
            }
        }
    }
}

/// A window of lower rank is stacked below one of higher rank: tiled
/// windows below floats, floats below fullscreen windows.
pub proof fn law_stacking_puts_fullscreen_on_top(kinds: Seq<ShowKind>, i: int, j: int)
    requires
        0 <= i < kinds.len(),
        0 <= j < kinds.len(),
        stack_rank(kinds[i]) < stack_rank(kinds[j]),
    ensures
        exists|a: int, b: int|
            0 <= a < b < stack_order_spec(kinds).len() && stack_order_spec(kinds)[a] == i
                && stack_order_spec(kinds)[b] == j,
{
    let t = indices_of_rank(kinds, 0);
    let f = indices_of_rank(kinds, 1);
    let u = indices_of_rank(kinds, 2);
    lemma_indices_of_rank(kinds, 0);
    lemma_indices_of_rank(kinds, 1);
    lemma_indices_of_rank(kinds, 2);
    let s = t + f + u;
    let ri = stack_rank(kinds[i]);
    let rj = stack_rank(kinds[j]);
    let gi = indices_of_rank(kinds, ri);
    let gj = indices_of_rank(kinds, rj);
    assert(gi.contains(i));
    assert(gj.contains(j));
    let ai = choose|a: int| 0 <= a < gi.len() && gi[a] == i;
    let bj = choose|b: int| 0 <= b < gj.len() && gj[b] == j;
    let oi = if ri == 0 { 0 } else if ri == 1 { t.len() as int } else { (t.len() + f.len()) as int };
    let oj = if rj == 0 { 0 } else if rj == 1 { t.len() as int } else { (t.len() + f.len()) as int };
    assert(s == stack_order_spec(kinds));
    assert(s[oi + ai] == i);
    assert(s[oj + bj] == j);
    assert(oi + ai < oj + bj);
    assert(0 <= oi + ai < oj + bj < stack_order_spec(kinds).len() && stack_order_spec(kinds)[oi + ai] == i
        && stack_order_spec(kinds)[oj + bj] == j);
}

/// Each float of a monitor gets one command, in order: the focused float
/// is shown at its frame inset by the border (its frame is screen-absolute,
/// so the monitor's visible frame does not clip it), every other float is
/// moved offscreen.
pub proof fn law_float_commands_show_only_the_focused_float(
    ws: Seq<WindowPlacement>,
    border: i32,
    focused: Option<u64>,
)
    requires
        forall|i: int| 0 <= i < ws.len() ==> inset_fits(#[trigger] ws[i].frame, border),
    ensures
        float_commands(ws, border, focused).len() == ws.len(),
        forall|i: int|
            0 <= i < ws.len() ==> {
                let wp = ws[i];
                let c = #[trigger] float_commands(ws, border, focused)[i];
                &&& focused == Some(wp.id) ==> (c matches PlacementCommand::ShowFloat(id, r) && id == wp.id
                    && r.x == wp.frame.x + border && r.y == wp.frame.y + border && r.width == vstd::math::max(
                    wp.frame.width - 2 * border,
                    0,
                ) && r.height == vstd::math::max(wp.frame.height - 2 * border, 0))
                &&& focused != Some(wp.id) ==> c == PlacementCommand::MoveOffscreen(wp.id)
            },
        forall|i: int, other: WindowPlacement|
            #![trigger float_commands(ws, border, focused)[i], float_command(other, border, focused)]
            0 <= i < ws.len() && other.id == ws[i].id && other.frame == ws[i].frame ==> float_commands(
                ws,
                border,
                focused,
            )[i] == float_command(other, border, focused),
    decreases ws.len(),
{
    if ws.len() > 0 {
        law_float_commands_show_only_the_focused_float(ws.drop_last(), border, focused);
        assert forall|i: int| 0 <= i < ws.len() - 1 implies ws.drop_last()[i] == ws[i] by {}
    }
}

} // verus!
