use dome::geometry::PixelRect;
use dome::placement::OffscreenPlacement;
use dome::registry::WindowRegistry;
use dome::window_state::{PositionedState, WindowState};

fn offscreen() -> WindowState {
    WindowState::Positioned(PositionedState::Offscreen(OffscreenPlacement::new(PixelRect::new(0, 0, 10, 10))))
}

#[test]
fn insert_find_remove() {
    let mut reg: WindowRegistry<&str> = WindowRegistry::new();
    reg.insert("term", 100, 7, 1, offscreen(), 999);
    reg.insert("browser", 101, 8, 2, WindowState::NativeFullscreen, 999);
    assert!(reg.contains(100));
    assert_eq!(reg.get(101).map(|w| w.window_id), Some(2));
    assert_eq!(reg.by_id(1).map(|w| w.cg_id), Some(100));
    assert_eq!(reg.cg_for_id(2), Some(101));
    assert_eq!(reg.remove(100), Some(1));
    assert_eq!(reg.remove(100), None);
    assert!(reg.by_id(1).is_none());
    assert!(!reg.contains(100));
}

#[test]
fn own_windows_are_not_tracked() {
    let mut reg: WindowRegistry<u8> = WindowRegistry::new();
    reg.insert(0, 5, 42, 1, offscreen(), 42);
    assert!(!reg.contains(5));
}

#[test]
fn windows_by_process_in_insertion_order() {
    let mut reg: WindowRegistry<()> = WindowRegistry::new();
    reg.insert((), 30, 7, 1, offscreen(), 1);
    reg.insert((), 10, 8, 2, offscreen(), 1);
    reg.insert((), 20, 7, 3, offscreen(), 1);
    assert_eq!(reg.for_pid(7), vec![30, 20]);
    assert!(reg.for_pid(9).is_empty());
}

#[test]
fn moving_flag_follows_the_process() {
    let mut reg: WindowRegistry<()> = WindowRegistry::new();
    reg.insert((), 30, 7, 1, offscreen(), 1);
    reg.insert((), 10, 8, 2, offscreen(), 1);
    reg.set_pid_moving(7, true);
    assert!(reg.get(30).unwrap().control.is_moving);
    assert!(!reg.get(10).unwrap().control.is_moving);
    reg.set_pid_moving(7, false);
    assert!(!reg.get(30).unwrap().control.is_moving);
}

#[test]
fn control_and_handle_updates() {
    let mut reg: WindowRegistry<&str> = WindowRegistry::new();
    reg.insert("old", 30, 7, 1, offscreen(), 1);
    let mut c = reg.control(1).unwrap();
    c.is_minimized = true;
    assert!(reg.set_control(1, c));
    assert!(!reg.set_control(2, c));
    assert!(reg.get(30).unwrap().control.is_minimized);
    assert!(reg.replace_ext(30, "new", 7));
    assert!(!reg.replace_ext(31, "x", 7));
    assert_eq!(reg.get(30).unwrap().ext, "new");
    assert_eq!(reg.get(30).unwrap().pid, 7);
}

#[test]
fn reinserting_a_window_replaces_it() {
    let mut reg: WindowRegistry<&str> = WindowRegistry::new();
    reg.insert("a", 30, 7, 1, offscreen(), 1);
    reg.insert("b", 30, 7, 1, WindowState::BorderlessFullscreen, 1);
    assert_eq!(reg.get(30).unwrap().ext, "b");
    // Tracked twice for the process, so listed twice.
    assert_eq!(reg.for_pid(7), vec![30, 30]);
    // Dropping it once takes it out of the list altogether.
    assert_eq!(reg.remove(30), Some(1));
    assert!(reg.for_pid(7).is_empty());
}

#[test]
fn removing_an_app_removes_all_its_windows() {
    let mut reg: WindowRegistry<()> = WindowRegistry::new();
    reg.insert((), 30, 7, 1, offscreen(), 1);
    reg.insert((), 10, 8, 2, offscreen(), 1);
    reg.insert((), 20, 7, 3, offscreen(), 1);
    assert_eq!(reg.remove_by_pid(7), vec![(30, 1), (20, 3)]);
    assert!(!reg.contains(30) && !reg.contains(20));
    assert!(reg.contains(10));
    assert!(reg.remove_by_pid(7).is_empty());
}

#[test]
fn offscreen_windows_follow_a_monitor_change() {
    let mut reg: WindowRegistry<()> = WindowRegistry::new();
    let parked = |x: i32, y: i32| {
        WindowState::Positioned(PositionedState::Offscreen(OffscreenPlacement::new(PixelRect::new(x, y, 10, 10))))
    };
    // Parked at the bottom-right corner of a 1920x1080 monitor.
    reg.insert((), 30, 7, 1, parked(1919, 1079), 1);
    reg.insert((), 40, 7, 2, parked(1919, 500), 1);
    reg.insert((), 50, 8, 3, WindowState::NativeFullscreen, 1);
    let same = vec![PixelRect::new(0, 0, 1920, 1080)];
    assert!(reg.rehide_offscreen_windows(&same).is_empty());
    // A second monitor to the right takes over as the hiding monitor.
    let grown = vec![PixelRect::new(0, 0, 1920, 1080), PixelRect::new(1920, 0, 2560, 1440)];
    assert_eq!(reg.rehide_offscreen_windows(&grown), vec![(30, 4479, 1439), (40, 4479, 1439)]);
}

#[test]
fn a_reused_layout_id_leads_to_the_latest_window() {
    let mut reg: WindowRegistry<()> = WindowRegistry::new();
    reg.insert((), 30, 7, 1, offscreen(), 1);
    reg.insert((), 40, 7, 1, offscreen(), 1);
    assert!(reg.contains(30) && reg.contains(40));
    assert_eq!(reg.cg_for_id(1), Some(40));
    assert_eq!(reg.by_id(1).map(|w| w.cg_id), Some(40));
    // Dropping the older window forgets the layout id, which led to the newer one.
    assert_eq!(reg.remove(30), Some(1));
    assert_eq!(reg.cg_for_id(1), None);
    assert!(reg.contains(40));
    reg.insert((), 50, 1, 2, offscreen(), 1);
    assert!(!reg.contains(50));
}

#[test]
fn removing_a_process_keeps_the_others_in_order() {
    let mut reg: WindowRegistry<()> = WindowRegistry::new();
    reg.insert((), 30, 7, 1, offscreen(), 1);
    reg.insert((), 10, 8, 2, offscreen(), 1);
    reg.insert((), 20, 7, 3, offscreen(), 1);
    reg.insert((), 40, 8, 4, offscreen(), 1);
    assert_eq!(reg.remove_by_pid(7), vec![(30, 1), (20, 3)]);
    assert_eq!(reg.for_pid(8), vec![10, 40]);
    reg.remove(10);
    reg.insert((), 10, 8, 2, offscreen(), 1);
    assert_eq!(reg.for_pid(8), vec![40, 10]);
}
