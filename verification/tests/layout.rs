use dome::decoration::{
    first_matching_rule, on_open_actions, should_ignore, spawn_colors, toplevel_layout_states,
    SpawnMode,
};
use dome::geometry::PixelRect;
use dome::layout::{apply_inset, plan_monitor_placements, windows_to_hide, PlacementCommand, WindowPlacement};

fn rect(x: i32, y: i32, w: i32, h: i32) -> PixelRect {
    PixelRect::new(x, y, w, h)
}

#[test]
fn inset_shrinks_by_the_border() {
    assert_eq!(apply_inset(rect(10, 20, 100, 50), 2), rect(12, 22, 96, 46));
    assert_eq!(apply_inset(rect(10, 20, 3, 50), 2), rect(12, 22, 0, 46));
}

#[test]
fn placements_of_a_monitor() {
    let visible = rect(0, 0, 1000, 800);
    let tiling = vec![
        WindowPlacement { id: 1, frame: rect(0, 0, 500, 800), visible_frame: visible },
        WindowPlacement { id: 2, frame: rect(500, -100, 600, 400), visible_frame: visible },
        WindowPlacement { id: 3, frame: rect(2000, 0, 100, 100), visible_frame: visible },
    ];
    let floats = vec![
        WindowPlacement { id: 4, frame: rect(100, 100, 200, 200), visible_frame: visible },
        WindowPlacement { id: 5, frame: rect(150, 150, 200, 200), visible_frame: visible },
    ];
    let commands = plan_monitor_placements(&tiling, &floats, 1, Some(5));
    assert_eq!(
        commands,
        vec![
            PlacementCommand::ShowTiling(1, rect(1, 1, 498, 798)),
            PlacementCommand::ShowTiling(2, rect(501, 0, 499, 299)),
            PlacementCommand::MoveOffscreen(3),
            PlacementCommand::MoveOffscreen(4),
            PlacementCommand::ShowFloat(5, rect(151, 151, 198, 198)),
        ]
    );
}

#[test]
fn windows_no_longer_displayed_are_hidden() {
    assert_eq!(windows_to_hide(&vec![1, 2, 3, 4], &vec![4, 2, 9]), vec![1, 3]);
    assert!(windows_to_hide(&vec![], &vec![1]).is_empty());
}

#[test]
fn layout_states_per_mode() {
    let tiled = toplevel_layout_states(false, false);
    assert!(!tiled.fullscreen && tiled.maximized && tiled.tiled_left && tiled.tiled_right);
    assert!(tiled.tiled_top && tiled.tiled_bottom);
    let full = toplevel_layout_states(true, false);
    assert!(full.fullscreen && !full.maximized && !full.tiled_left);
    let float = toplevel_layout_states(false, true);
    assert!(!float.fullscreen && !float.maximized && !float.tiled_bottom);
}

#[test]
fn spawn_indicator_marks_one_edge() {
    assert_eq!(spawn_colors(SpawnMode::Tab, 'f', 's'), ['s', 'f', 'f', 'f']);
    assert_eq!(spawn_colors(SpawnMode::Vertical, 'f', 's'), ['f', 's', 'f', 'f']);
    assert_eq!(spawn_colors(SpawnMode::Horizontal, 'f', 's'), ['f', 'f', 'f', 's']);
}

#[test]
fn first_matching_rule_wins() {
    assert_eq!(first_matching_rule(&[false, true, true]), Some(1));
    assert_eq!(on_open_actions(&[false, false]), None);
    assert!(should_ignore(&[false, true]));
    assert!(!should_ignore(&[]));
}

use dome::layout::{cardinal_step, stack_order, Axis, Cardinal, ShowKind};

#[test]
fn stacking_is_stable_by_kind() {
    let kinds = vec![
        ShowKind::Fullscreen,
        ShowKind::Tiled,
        ShowKind::Floating,
        ShowKind::Tiled,
        ShowKind::Floating,
    ];
    assert_eq!(stack_order(&kinds), vec![1, 3, 2, 4, 0]);
    assert!(stack_order(&vec![]).is_empty());
}

#[test]
fn cardinal_directions_step_along_their_axis() {
    assert_eq!(cardinal_step(Cardinal::Up), (Axis::Vertical, false));
    assert_eq!(cardinal_step(Cardinal::Down), (Axis::Vertical, true));
    assert_eq!(cardinal_step(Cardinal::Left), (Axis::Horizontal, false));
    assert_eq!(cardinal_step(Cardinal::Right), (Axis::Horizontal, true));
}
