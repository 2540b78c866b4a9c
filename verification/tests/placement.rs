use dome::geometry::{clip_to_bounds, is_completely_offscreen, overlap_area, tab_bar_dimension, PixelRect};
use dome::placement::{
    hidden_monitor, hidden_position, move_offscreen, FloatPlacement, LimitObservation, LimitUpdate,
    OffscreenPlacement, Placement, MAX_ENFORCEMENT_RETRIES,
};

fn rect(x: i32, y: i32, w: i32, h: i32) -> PixelRect {
    PixelRect::new(x, y, w, h)
}

#[test]
fn clip_keeps_the_visible_part() {
    assert_eq!(clip_to_bounds(rect(-10, 20, 100, 50), rect(0, 0, 80, 60)), Some(rect(0, 20, 80, 40)));
}

#[test]
fn clip_of_a_rect_outside_is_none() {
    assert_eq!(clip_to_bounds(rect(100, 0, 10, 10), rect(0, 0, 100, 100)), None);
    assert_eq!(clip_to_bounds(rect(0, -10, 10, 10), rect(0, 0, 100, 100)), None);
}

#[test]
fn clip_of_a_rect_inside_is_itself() {
    assert_eq!(clip_to_bounds(rect(5, 5, 10, 10), rect(0, 0, 100, 100)), Some(rect(5, 5, 10, 10)));
}

#[test]
fn rect_edges() {
    let r = rect(i32::MAX, i32::MIN, i32::MAX, 1);
    assert_eq!(r.right(), 2 * i32::MAX as i64);
    assert_eq!(r.bottom(), i32::MIN as i64 + 1);
    assert!(rect(0, 0, 0, 5).is_empty());
    assert!(!rect(0, 0, 1, 1).is_empty());
}

#[test]
fn hidden_monitor_is_furthest_corner_last_on_tie() {
    let a = rect(0, 0, 1920, 1080);
    let b = rect(1920, 0, 1000, 1000);
    let c = rect(0, 1080, 2920, 1000 - 1080 + 1000);
    // a: 1920 + 1080 = 3000; b: 2920 + 1000 = 3920; c: 2920 + 2000 = 4920
    assert_eq!(hidden_monitor(&[a, b, c]), 2);
    assert_eq!(hidden_monitor(&[b, a]), 0);
    let twin = rect(1920, 0, 1000, 1000);
    assert_eq!(hidden_monitor(&[b, twin]), 1);
}

#[test]
fn hidden_position_is_one_pixel_inside_the_corner() {
    let a = rect(0, 25, 1920, 1055);
    assert_eq!(hidden_position(&[a]), (1919, 1079));
}

#[test]
fn move_offscreen_skips_a_window_already_hidden() {
    let monitors = [rect(0, 0, 1920, 1080)];
    assert_eq!(move_offscreen(&monitors, &rect(1919, 500, 800, 600)), None);
    assert_eq!(move_offscreen(&monitors, &rect(10, 1079, 800, 600)), None);
    assert_eq!(move_offscreen(&monitors, &rect(10, 10, 800, 600)), Some((1919, 1079)));
}

#[test]
fn offscreen_drift_consumes_retries() {
    let monitors = [rect(0, 0, 1920, 1080)];
    let mut off = OffscreenPlacement::new(rect(1919, 1079, 100, 100));
    assert!(!off.record_drift(rect(1919, 1079, 100, 100), &monitors));
    assert_eq!(off.retries, 0);
    for n in 1..=MAX_ENFORCEMENT_RETRIES {
        assert!(off.record_drift(rect(50, 50, 100, 100), &monitors));
        assert_eq!(off.retries, n);
        assert!(off.should_retry());
        assert!(!off.just_gave_up());
    }
    assert!(off.record_drift(rect(50, 50, 100, 100), &monitors));
    assert!(!off.should_retry());
    assert!(off.just_gave_up());
    assert!(off.record_drift(rect(51, 50, 100, 100), &monitors));
    assert!(!off.just_gave_up());
    assert_eq!(off.actual, rect(51, 50, 100, 100));
}

#[test]
fn placement_reissues_its_target_five_times() {
    let target = rect(0, 0, 500, 500);
    let mut p = Placement::new(rect(9, 9, 9, 9), target, 100);
    let mut reissued = 0;
    for _ in 0..10 {
        if let Some(t) = p.observe_drift(rect(3, 3, 400, 400)) {
            assert_eq!(t, target);
            reissued += 1;
        }
    }
    assert_eq!(reissued, MAX_ENFORCEMENT_RETRIES);
    assert_eq!(p.actual, rect(3, 3, 400, 400));
    assert_eq!(p.retries, 10);
}

#[test]
fn a_new_target_restarts_the_budget() {
    let mut p = Placement::new(rect(0, 0, 10, 10), rect(0, 0, 500, 500), 100);
    for _ in 0..7 {
        p.observe_drift(rect(3, 3, 400, 400));
    }
    assert!(!p.set_target(rect(0, 0, 500, 500), 200));
    assert_eq!(p.placed_at, 100);
    assert_eq!(p.retries, 7);
    assert!(p.set_target(rect(0, 0, 600, 500), 300));
    assert_eq!(p.retries, 0);
    assert_eq!(p.placed_at, 300);
    assert_eq!(p.observe_drift(rect(1, 1, 1, 1)), Some(rect(0, 0, 600, 500)));
}

#[test]
fn anchored_resize_is_not_drift() {
    let p = Placement::new(rect(0, 0, 1, 1), rect(100, 100, 400, 300), 0);
    // left and top kept
    assert!(!p.has_drifted(rect(100, 100, 500, 350)));
    // right and bottom kept
    assert!(!p.has_drifted(rect(50, 80, 450, 320)));
    // left kept but neither vertical edge
    assert!(p.has_drifted(rect(100, 90, 400, 300)));
    // moved away entirely
    assert!(p.has_drifted(rect(10, 10, 400, 300)));
}

#[test]
fn constraint_reports_min_and_max() {
    let mut p = Placement::new(rect(0, 0, 1, 1), rect(0, 0, 400, 300), 0);
    p.actual = rect(0, 0, 400, 300);
    assert_eq!(p.detect_constraint(), None);
    p.actual = rect(0, 0, 500, 250);
    assert_eq!(
        p.detect_constraint(),
        Some(LimitObservation {
            min_width: LimitUpdate::SetTo(500),
            min_height: LimitUpdate::Unchanged,
            max_width: LimitUpdate::Unchanged,
            max_height: LimitUpdate::SetTo(250),
        })
    );
}

#[test]
fn float_target_change_restamps() {
    let mut f = FloatPlacement::new(rect(0, 0, 10, 10), 5);
    assert!(!f.set_target(rect(0, 0, 10, 10), 9));
    assert_eq!(f.placed_at, 5);
    assert!(f.set_target(rect(1, 0, 10, 10), 9));
    assert_eq!(f, FloatPlacement { target: rect(1, 0, 10, 10), placed_at: 9 });
}

#[test]
fn gives_up_once_after_the_budget() {
    let target = rect(0, 0, 800, 600);
    let mut p = Placement::new(target, target, 0);
    for n in 1..=20u32 {
        p.observe_drift(rect(n as i32, 0, 800, 600));
        assert_eq!(p.should_retry(), n <= MAX_ENFORCEMENT_RETRIES as u32);
        assert_eq!(p.just_gave_up(), n == MAX_ENFORCEMENT_RETRIES as u32 + 1);
    }
}

#[test]
fn tab_bar_is_the_top_strip() {
    assert_eq!(tab_bar_dimension(rect(10, 20, 300, 400), 24), rect(10, 20, 300, 24));
}

#[test]
fn offscreen_only_when_wholly_outside() {
    let screen = rect(0, 0, 1920, 1080);
    assert!(is_completely_offscreen(rect(1920, 0, 100, 100), screen));
    assert!(is_completely_offscreen(rect(-100, 0, 100, 100), screen));
    assert!(is_completely_offscreen(rect(0, 1080, 100, 100), screen));
    assert!(!is_completely_offscreen(rect(1919, 1079, 100, 100), screen));
}

#[test]
fn overlap_areas() {
    assert_eq!(overlap_area(rect(0, 0, 10, 10), rect(5, 5, 10, 10)), 25);
    assert_eq!(overlap_area(rect(0, 0, 10, 10), rect(10, 0, 10, 10)), 0);
    assert_eq!(overlap_area(rect(0, 0, 10, 10), rect(-5, -5, 30, 30)), 100);
}
