use dome::geometry::PixelRect;
use dome::monitor::MonitorRegistry;
use dome::placement::{hidden_monitor, OffscreenPlacement};
use dome::window_state::{PositionedState, WindowState};

fn rect(x: i32, y: i32, w: i32, h: i32) -> PixelRect {
    PixelRect::new(x, y, w, h)
}

#[test]
fn primary_is_known_from_the_start() {
    let reg = MonitorRegistry::new(1, 100, rect(0, 25, 1920, 1055), rect(0, 25, 1920, 1055));
    assert!(reg.contains(1));
    assert_eq!(reg.get(1), Some(100));
    assert_eq!(reg.primary_monitor_id(), 100);
    assert_eq!(reg.primary_monitor().work_area, rect(0, 25, 1920, 1055));
    assert_eq!(reg.monitor(100).display_id, 1);
}

#[test]
fn displayed_windows_per_monitor() {
    let mut reg = MonitorRegistry::new(1, 100, rect(0, 0, 1920, 1080), rect(0, 0, 1920, 1080));
    reg.insert(2, rect(1920, 0, 2560, 1440), rect(1920, 0, 2560, 1440), 200);
    reg.set_displayed_windows(100, vec![5, 6]);
    reg.set_displayed_windows(200, vec![7]);
    assert!(reg.is_displayed(6));
    assert!(reg.is_displayed(7));
    assert!(!reg.is_displayed(8));
    reg.remove_displayed_window(6);
    assert!(!reg.is_displayed(6));
    assert_eq!(reg.monitor(100).displayed, vec![5]);
}

#[test]
fn stale_monitors_are_removed() {
    let mut reg = MonitorRegistry::new(1, 100, rect(0, 0, 1920, 1080), rect(0, 0, 1920, 1080));
    reg.insert(2, rect(1920, 0, 2560, 1440), rect(1920, 0, 2560, 1440), 200);
    reg.insert(3, rect(-800, 0, 800, 600), rect(-800, 0, 800, 600), 300);
    assert_eq!(reg.remove_stale(&vec![1, 3]), vec![200]);
    assert!(!reg.contains(2));
    assert!(reg.contains(3));
    assert_eq!(reg.all_work_areas(), vec![rect(0, 0, 1920, 1080), rect(-800, 0, 800, 600)]);
}

#[test]
fn replaced_primary_keeps_its_layout_id() {
    let mut reg = MonitorRegistry::new(1, 100, rect(0, 0, 1920, 1080), rect(0, 0, 1920, 1080));
    reg.set_displayed_windows(100, vec![9]);
    assert_eq!(reg.adopt_primary(5, rect(0, 0, 3840, 2160), rect(0, 0, 3840, 2160)), Some((100, rect(0, 0, 3840, 2160))));
    assert!(!reg.contains(1));
    assert_eq!(reg.get(5), Some(100));
    assert!(reg.is_displayed(9));
    reg.insert(7, rect(3840, 0, 100, 100), rect(3840, 0, 100, 100), 700);
    assert_eq!(reg.adopt_primary(7, rect(3840, 0, 100, 100), rect(3840, 0, 100, 100)), None);
    assert_eq!(reg.primary_monitor_id(), 700);
}

#[test]
fn work_area_updates_report_the_old_one() {
    let mut reg = MonitorRegistry::new(1, 100, rect(0, 0, 1920, 1080), rect(0, 0, 1920, 1080));
    assert_eq!(reg.update_monitor(1, rect(0, 30, 1920, 1050), rect(0, 30, 1920, 1050)), Some((100, rect(0, 0, 1920, 1080))));
    assert_eq!(reg.update_monitor(9, rect(0, 0, 1, 1), rect(0, 0, 1, 1)), None);
    assert_eq!(reg.primary_monitor().work_area, rect(0, 30, 1920, 1050));
}

#[test]
fn hiding_monitor_from_registry_work_areas() {
    let mut reg = MonitorRegistry::new(1, 100, rect(0, 0, 1920, 1080), rect(0, 0, 1920, 1080));
    reg.insert(2, rect(1920, 0, 2560, 1440), rect(1920, 0, 2560, 1440), 200);
    let areas = reg.all_work_areas();
    assert_eq!(areas[hidden_monitor(&areas)], rect(1920, 0, 2560, 1440));
}

#[test]
fn a_reused_monitor_layout_id_leads_to_the_latest_display() {
    let mut reg = MonitorRegistry::new(1, 100, rect(0, 0, 1920, 1080), rect(0, 0, 1920, 1080));
    reg.insert(2, rect(1920, 0, 800, 600), rect(1920, 0, 800, 600), 100);
    assert!(reg.contains(1) && reg.contains(2));
    assert_eq!(reg.monitor(100).display_id, 2);
    // Display 2 goes stale; its layout id leads to display 2, which is dropped.
    assert_eq!(reg.remove_stale(&vec![1]), vec![100]);
    assert!(reg.contains(1));
    assert!(!reg.contains(2));
}

#[test]
fn closest_monitor_by_overlap() {
    let mut reg = MonitorRegistry::new(1, 100, rect(0, 25, 1920, 1055), rect(0, 0, 1920, 1080));
    reg.insert(2, rect(1920, 0, 2560, 1440), rect(1920, 0, 2560, 1440), 200);
    // Mostly on the second monitor.
    assert_eq!(reg.find_closest_monitor(rect(1800, 100, 400, 300)), Some(200));
    // Mostly on the first.
    assert_eq!(reg.find_closest_monitor(rect(1700, 100, 300, 300)), Some(100));
    assert_eq!(reg.find_closest_monitor(rect(-500, -500, 100, 100)), None);
    assert_eq!(reg.float_monitor_for(rect(-500, -500, 100, 100)), 100);
    assert_eq!(reg.float_monitor_for(rect(2000, 100, 100, 100)), 200);
}

#[test]
fn borderless_fullscreen_within_two_pixels_of_the_work_area() {
    let reg = MonitorRegistry::new(1, 100, rect(0, 25, 1920, 1055), rect(0, 0, 1920, 1080));
    assert!(reg.is_borderless_fullscreen_at(rect(0, 25, 1920, 1055)));
    assert!(reg.is_borderless_fullscreen_at(rect(2, 27, 1918, 1053)));
    assert!(!reg.is_borderless_fullscreen_at(rect(3, 25, 1920, 1055)));
    assert!(!reg.is_borderless_fullscreen_at(rect(0, 25, 1000, 1055)));
    assert!(!reg.is_borderless_fullscreen_at(rect(-3000, 25, 1920, 1055)));
}

#[test]
fn new_windows_start_parked_unless_they_fill_the_screen() {
    let reg = MonitorRegistry::new(1, 100, rect(0, 25, 1920, 1055), rect(0, 0, 1920, 1080));
    assert_eq!(dome::registry::initial_state(&reg, rect(0, 25, 1920, 1055)), (true, WindowState::BorderlessFullscreen));
    assert_eq!(
        dome::registry::initial_state(&reg, rect(10, 40, 800, 600)),
        (false, WindowState::Positioned(PositionedState::Offscreen(OffscreenPlacement::new(rect(10, 40, 800, 600)))))
    );
}
