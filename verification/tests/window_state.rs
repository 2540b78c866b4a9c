use dome::geometry::PixelRect;
use dome::placement::{FloatPlacement, LimitObservation, LimitUpdate, OffscreenPlacement, Placement};
use dome::window_state::{
    DebounceBurst, PositionedState, WindowControl, WindowEffect, WindowState,
};

fn rect(x: i32, y: i32, w: i32, h: i32) -> PixelRect {
    PixelRect::new(x, y, w, h)
}

fn monitors() -> Vec<PixelRect> {
    vec![rect(0, 0, 1920, 1080)]
}

fn tiling(target: PixelRect, placed_at: u64) -> WindowControl {
    WindowControl::new(WindowState::Positioned(PositionedState::Tiling(Placement::new(
        target, target, placed_at * MS,
    ))))
}

/// Nanoseconds in a millisecond.
const MS: u64 = 1_000_000;

fn burst(first: u64, last: u64) -> DebounceBurst {
    DebounceBurst { first: first * MS, last: last * MS }
}

#[test]
fn stale_burst_is_ignored() {
    let mut w = tiling(rect(0, 0, 800, 600), 5000);
    let before = w;
    let effects = w.window_moved(true, rect(10, 10, 100, 100), burst(100, 4999), false, &monitors(), 1);
    assert!(effects.is_empty());
    assert_eq!(w, before);
}

#[test]
fn window_at_target_needs_nothing() {
    let mut w = tiling(rect(0, 0, 800, 600), 5000);
    let effects = w.window_moved(true, rect(0, 0, 800, 600), burst(5000, 5100), false, &monitors(), 1);
    assert!(effects.is_empty());
}

#[test]
fn drift_right_after_placement_is_corrected() {
    let mut w = tiling(rect(0, 0, 800, 600), 5000);
    let effects = w.window_moved(true, rect(30, 30, 800, 600), burst(5500, 5600), false, &monitors(), 1);
    assert_eq!(effects, vec![WindowEffect::SetFrame(rect(0, 0, 800, 600))]);
    match w.state {
        WindowState::Positioned(PositionedState::Tiling(p)) => {
            assert_eq!(p.retries, 1);
            assert_eq!(p.actual, rect(30, 30, 800, 600));
        }
        _ => panic!("still tiled"),
    }
}

#[test]
fn settled_size_reveals_a_limit() {
    let mut w = tiling(rect(0, 0, 800, 600), 5000);
    let effects = w.window_moved(true, rect(0, 0, 900, 600), burst(5900, 6000), false, &monitors(), 1);
    assert_eq!(
        effects,
        vec![WindowEffect::HubSetConstraint(LimitObservation {
            min_width: LimitUpdate::SetTo(900),
            min_height: LimitUpdate::Unchanged,
            max_width: LimitUpdate::Unchanged,
            max_height: LimitUpdate::Unchanged,
        })]
    );
}

#[test]
fn late_anchored_resize_counts_as_drift() {
    let mut w = tiling(rect(0, 0, 800, 600), 5000);
    let effects = w.window_moved(true, rect(0, 0, 900, 600), burst(6001, 6100), false, &monitors(), 1);
    assert_eq!(effects, vec![WindowEffect::SetFrame(rect(0, 0, 800, 600))]);
}

#[test]
fn corrections_stop_after_the_budget() {
    let mut w = tiling(rect(0, 0, 800, 600), 0);
    let mut corrections = 0;
    for n in 0..8u64 {
        let effects = w.window_moved(true, rect(40, 40, 800, 600), burst(10_000 + n, 10_000 + n), false, &monitors(), 1);
        corrections += effects.len();
    }
    assert_eq!(corrections, 5);
}

#[test]
fn tiled_window_filling_the_monitor_turns_fullscreen() {
    let mut w = tiling(rect(0, 0, 800, 600), 0);
    let effects = w.window_moved(true, rect(0, 0, 1920, 1080), burst(10, 10), true, &monitors(), 1);
    assert_eq!(effects, vec![WindowEffect::HubSetFullscreen]);
    assert_eq!(w.state, WindowState::BorderlessFullscreen);
}

#[test]
fn minimized_window_coming_back_is_unminimized_first() {
    let mut w = tiling(rect(0, 0, 800, 600), 0);
    w.is_minimized = true;
    let effects = w.window_moved(true, rect(0, 0, 800, 600), burst(10, 10), false, &monitors(), 1);
    assert_eq!(effects, vec![WindowEffect::HubUnminimize]);
    assert!(!w.is_minimized);
}

#[test]
fn hidden_window_that_fights_back_is_rehidden() {
    let mut w = WindowControl::new(WindowState::Positioned(PositionedState::Offscreen(
        OffscreenPlacement::new(rect(1919, 1079, 300, 300)),
    )));
    let effects = w.window_moved(true, rect(100, 100, 300, 300), burst(0, 0), false, &monitors(), 1);
    assert_eq!(effects, vec![WindowEffect::HideAt(1919, 1079)]);
    let effects = w.window_moved(true, rect(1919, 1079, 300, 300), burst(0, 0), false, &monitors(), 1);
    assert!(effects.is_empty());
}

#[test]
fn hidden_window_turning_fullscreen_is_minimized() {
    let mut w = WindowControl::new(WindowState::Positioned(PositionedState::Offscreen(
        OffscreenPlacement::new(rect(1919, 1079, 300, 300)),
    )));
    let effects = w.window_moved(false, rect(0, 0, 1920, 1080), burst(0, 0), true, &monitors(), 1);
    assert_eq!(effects, vec![WindowEffect::HubSetFullscreen, WindowEffect::Minimize]);
    assert_eq!(w.state, WindowState::BorderlessMinimized { retries: 0 });
}

#[test]
fn resurfacing_borderless_window_is_minimized_five_times() {
    let mut w = WindowControl::new(WindowState::BorderlessMinimized { retries: 0 });
    let mut minimizes = 0;
    for _ in 0..9 {
        let effects = w.window_moved(false, rect(0, 0, 1920, 1080), burst(0, 0), true, &monitors(), 1);
        minimizes += effects.iter().filter(|e| **e == WindowEffect::Minimize).count();
    }
    assert_eq!(minimizes, 5);
}

#[test]
fn borderless_minimized_leaving_fullscreen_goes_offscreen() {
    let mut w = WindowControl::new(WindowState::BorderlessMinimized { retries: 2 });
    let effects = w.window_moved(false, rect(10, 10, 300, 300), burst(0, 0), false, &monitors(), 1);
    assert_eq!(
        effects,
        vec![WindowEffect::Unminimize, WindowEffect::HideAt(1919, 1079), WindowEffect::HubUnsetFullscreen]
    );
    assert_eq!(
        w.state,
        WindowState::Positioned(PositionedState::Offscreen(OffscreenPlacement { actual: rect(10, 10, 300, 300), retries: 0 }))
    );
}

#[test]
fn native_fullscreen_exit_on_hidden_workspace_minimizes() {
    let mut w = WindowControl::new(WindowState::NativeFullscreen);
    let effects = w.window_moved(false, rect(0, 0, 1920, 1080), burst(0, 0), true, &monitors(), 1);
    assert_eq!(effects, vec![WindowEffect::Minimize]);
    let mut v = WindowControl::new(WindowState::NativeFullscreen);
    let effects = v.window_moved(true, rect(0, 0, 1920, 1080), burst(0, 0), true, &monitors(), 1);
    assert!(effects.is_empty());
    assert_eq!(v.state, WindowState::BorderlessFullscreen);
    let mut u = WindowControl::new(WindowState::NativeFullscreen);
    let effects = u.window_moved(true, rect(5, 5, 500, 500), burst(0, 0), false, &monitors(), 1);
    assert_eq!(effects, vec![WindowEffect::HubUnsetFullscreen]);
}

#[test]
fn float_drag_updates_the_hub() {
    let mut w = WindowControl::new(WindowState::Positioned(PositionedState::Float(FloatPlacement::new(
        rect(0, 0, 300, 300),
        100,
    ))));
    let effects = w.window_moved(true, rect(50, 60, 300, 300), burst(200, 200), false, &monitors(), 1);
    assert_eq!(effects, vec![WindowEffect::HubUpdateFloatRect(rect(50, 60, 300, 300), 1)]);
    let effects = w.window_moved(true, rect(50, 60, 300, 300), burst(300, 300), false, &monitors(), 1);
    assert!(effects.is_empty());
}

#[test]
fn hiding_a_tiled_window_moves_it_offscreen_once() {
    let mut w = tiling(rect(0, 0, 800, 600), 0);
    let effects = w.hide_window(&monitors());
    assert_eq!(effects, vec![WindowEffect::HideAt(1919, 1079)]);
    let state = w.state;
    w.hide_window(&monitors());
    assert_eq!(w.state, state);
}

#[test]
fn hiding_a_borderless_window_minimizes_it() {
    let mut w = WindowControl::new(WindowState::BorderlessFullscreen);
    assert_eq!(w.hide_window(&monitors()), vec![WindowEffect::Minimize]);
    assert_eq!(w.state, WindowState::BorderlessMinimized { retries: 0 });
    let mut m = tiling(rect(0, 0, 800, 600), 0);
    m.is_minimized = true;
    assert!(m.hide_window(&monitors()).is_empty());
}

#[test]
fn showing_tiled_twice_sets_the_frame_once() {
    let mut w = WindowControl::new(WindowState::Positioned(PositionedState::Offscreen(
        OffscreenPlacement::new(rect(1919, 1079, 300, 300)),
    )));
    assert_eq!(w.show_tiling(rect(0, 0, 960, 1080), 10), vec![WindowEffect::SetFrame(rect(0, 0, 960, 1080))]);
    assert!(w.show_tiling(rect(0, 0, 960, 1080), 20).is_empty());
    match w.state {
        WindowState::Positioned(PositionedState::Tiling(p)) => {
            assert_eq!(p.actual, rect(1919, 1079, 300, 300));
            assert_eq!(p.placed_at, 10);
        }
        _ => panic!("tiled"),
    }
}

#[test]
fn a_moving_window_is_left_alone() {
    let mut w = tiling(rect(0, 0, 800, 600), 0);
    w.is_moving = true;
    assert!(w.show_tiling(rect(0, 0, 10, 10), 5).is_empty());
    assert!(w.show_float(rect(0, 0, 10, 10), 5).is_empty());
}

#[test]
fn showing_float_restores_a_minimized_window() {
    let mut w = tiling(rect(0, 0, 800, 600), 0);
    w.is_minimized = true;
    assert_eq!(
        w.show_float(rect(5, 5, 100, 100), 7),
        vec![WindowEffect::Unminimize, WindowEffect::SetFrame(rect(5, 5, 100, 100))]
    );
    assert_eq!(
        w.state,
        WindowState::Positioned(PositionedState::Float(FloatPlacement { target: rect(5, 5, 100, 100), placed_at: 7 }))
    );
}

#[test]
fn fullscreen_placement() {
    let wa = rect(0, 25, 1920, 1055);
    let mut w = WindowControl::new(WindowState::BorderlessMinimized { retries: 3 });
    assert_eq!(w.place_fullscreen_window(wa, 1), vec![WindowEffect::Unminimize]);
    assert_eq!(w.state, WindowState::BorderlessFullscreen);
    assert!(w.place_fullscreen_window(wa, 2).is_empty());
    let mut n = WindowControl::new(WindowState::NativeFullscreen);
    assert!(n.place_fullscreen_window(wa, 1).is_empty());
    let mut t = tiling(rect(0, 0, 10, 10), 0);
    assert_eq!(t.place_fullscreen_window(wa, 1), vec![WindowEffect::SetFrame(wa)]);
}

#[test]
fn entering_native_fullscreen() {
    let mut w = tiling(rect(0, 0, 10, 10), 0);
    w.is_minimized = true;
    assert_eq!(
        w.window_entered_native_fullscreen(),
        vec![WindowEffect::HubUnminimize, WindowEffect::HubSetFullscreen]
    );
    assert_eq!(w.state, WindowState::NativeFullscreen);
    assert!(!w.is_minimized);
}

#[test]
fn moving_offscreen_keeps_the_last_frame() {
    let mut w = WindowControl::new(WindowState::Positioned(PositionedState::Float(FloatPlacement::new(
        rect(40, 40, 300, 300),
        0,
    ))));
    assert_eq!(w.move_window_offscreen(&monitors()), vec![WindowEffect::HideAt(1919, 1079)]);
    assert_eq!(
        w.state,
        WindowState::Positioned(PositionedState::Offscreen(OffscreenPlacement { actual: rect(40, 40, 300, 300), retries: 0 }))
    );
}

#[test]
fn a_dragged_float_lands_on_the_monitor_it_overlaps() {
    let mut monitors = dome::monitor::MonitorRegistry::new(1, 100, rect(0, 0, 1920, 1080), rect(0, 0, 1920, 1080));
    monitors.insert(2, rect(1920, 0, 2560, 1440), rect(1920, 0, 2560, 1440), 200);
    let mut windows: dome::registry::WindowRegistry<()> = dome::registry::WindowRegistry::new();
    let float = WindowState::Positioned(PositionedState::Float(FloatPlacement::new(rect(0, 0, 300, 300), 100)));
    windows.insert((), 30, 7, 9, float, 1);
    let effects = dome::registry::window_moved(&mut windows, &monitors, 9, rect(2000, 100, 300, 300), burst(200, 200));
    assert_eq!(effects, vec![WindowEffect::HubUpdateFloatRect(rect(2000, 100, 300, 300), 200)]);
    let effects = dome::registry::window_moved(&mut windows, &monitors, 9, rect(-900, -900, 300, 300), burst(300, 300));
    assert_eq!(effects, vec![WindowEffect::HubUpdateFloatRect(rect(-900, -900, 300, 300), 100)]);
    // A window zoomed to fill the first monitor turns borderless fullscreen.
    let effects = dome::registry::window_moved(&mut windows, &monitors, 9, rect(0, 0, 1920, 1080), burst(400, 400));
    assert_eq!(effects, vec![WindowEffect::HubSetFullscreen]);
    assert!(dome::registry::window_moved(&mut windows, &monitors, 77, rect(0, 0, 10, 10), burst(500, 500)).is_empty());
}
