use dome::decoration::{macos_matches, set_toplevel_layout_states, wayland_matches, ToplevelState};
use dome::decoration::FieldMatch::{Absent, Matched, Missed};

#[test]
fn macos_matcher_needs_every_constrained_field() {
    assert!(macos_matches(Matched, Absent, Absent, true, false, false));
    assert!(macos_matches(Matched, Matched, Matched, true, true, true));
    assert!(!macos_matches(Matched, Missed, Absent, true, true, false));
    assert!(!macos_matches(Absent, Absent, Missed, true, false, true));
}

#[test]
fn empty_macos_matcher_matches_nothing() {
    assert!(!macos_matches(Absent, Absent, Absent, true, true, true));
    assert!(!macos_matches(Absent, Absent, Absent, false, false, false));
}

#[test]
fn macos_window_without_fields_matches_nothing() {
    assert!(!macos_matches(Matched, Absent, Absent, false, false, false));
}

#[test]
fn wayland_matcher_outcomes() {
    assert!(wayland_matches(Matched, Absent));
    assert!(wayland_matches(Absent, Matched));
    assert!(wayland_matches(Matched, Matched));
    assert!(!wayland_matches(Absent, Absent));
    assert!(!wayland_matches(Missed, Matched));
    assert!(!wayland_matches(Matched, Missed));
}

fn has(states: &[ToplevelState], s: ToplevelState) -> bool {
    states.contains(&s)
}

#[test]
fn layout_states_leave_the_other_states_alone() {
    let mut states = vec![ToplevelState::Activated, ToplevelState::Fullscreen, ToplevelState::Resizing];
    set_toplevel_layout_states(&mut states, false, false);
    assert!(has(&states, ToplevelState::Activated) && has(&states, ToplevelState::Resizing));
    assert!(!has(&states, ToplevelState::Fullscreen));
    for s in [ToplevelState::Maximized, ToplevelState::TiledLeft, ToplevelState::TiledRight, ToplevelState::TiledTop, ToplevelState::TiledBottom] {
        assert!(has(&states, s));
    }
    set_toplevel_layout_states(&mut states, false, true);
    assert_eq!(states, vec![ToplevelState::Activated, ToplevelState::Resizing]);
    set_toplevel_layout_states(&mut states, true, false);
    assert!(has(&states, ToplevelState::Fullscreen) && has(&states, ToplevelState::Activated));
    assert!(!has(&states, ToplevelState::Maximized));
}
