use vstd::prelude::*;

verus! {

/// The xdg_toplevel layout states a window is configured with.
#[derive(Clone, Copy, Debug, PartialEq, Eq, Structural)]
pub struct ToplevelLayoutStates {
    pub fullscreen: bool,
    pub maximized: bool,
    pub tiled_left: bool,
    pub tiled_right: bool,
    pub tiled_top: bool,
    pub tiled_bottom: bool,
}

/// The layout states that tell a client how Dome manages its window: a
/// fullscreen window covers its output and hides decorations; a tiled
/// window is maximized and tiled on all four edges, so it draws no shadows
/// or rounded corners there; a float gets none of these and draws full
/// decorations.
pub fn toplevel_layout_states(is_fullscreen: bool, is_float: bool) -> (r: ToplevelLayoutStates)
    ensures
        r.fullscreen == is_fullscreen,
        r.maximized == (!is_fullscreen && !is_float),
        r.tiled_left == (!is_fullscreen && !is_float),
        r.tiled_right == (!is_fullscreen && !is_float),
        r.tiled_top == (!is_fullscreen && !is_float),
        r.tiled_bottom == (!is_fullscreen && !is_float),
{
    let tiled = !is_fullscreen && !is_float;
    ToplevelLayoutStates {
        fullscreen: is_fullscreen,
        maximized: tiled,
        tiled_left: tiled,
        tiled_right: tiled,
        tiled_top: tiled,
        tiled_bottom: tiled,
    }
}

/// The states of an xdg_toplevel window.
#[derive(Clone, Copy, Debug, PartialEq, Eq, Structural)]
pub enum ToplevelState {
    Maximized,
    Fullscreen,
    Resizing,
    Activated,
    TiledLeft,
    TiledRight,
    TiledTop,
    TiledBottom,
    Suspended,
}

/// Whether `x` is one of the states Dome's layout decides.
pub open spec fn is_layout_state(x: ToplevelState) -> bool {
    !(x is Resizing || x is Activated || x is Suspended)
}

/// Whether layout state `x` belongs to a window in that mode.
pub open spec fn layout_state_on(x: ToplevelState, is_fullscreen: bool, is_float: bool) -> bool {
    if x is Fullscreen {
        is_fullscreen
    } else {
        !is_fullscreen && !is_float
    }
}

/// Puts state `s` into the set `states` (`on`) or takes it out, leaving
/// the other states as they are.
pub fn set_state(states: &mut Vec<ToplevelState>, s: ToplevelState, on: bool)
    ensures
        forall|x: ToplevelState| #[trigger] final(states)@.contains(x) == if x == s {
            on
        } else {
            old(states)@.contains(x)
        },
{
    let mut kept: Vec<ToplevelState> = Vec::new();
    let mut i: usize = 0;
    while i < states.len()
        invariant
            i <= states@.len(),
            states@ == old(states)@,
            forall|x: ToplevelState| #[trigger] kept@.contains(x) == (x != s && exists|j: int|
                0 <= j < i && states@[j] == x),
        decreases states@.len() - i,
    {
        let x = states[i];
        let ghost before = kept@;
        if x != s {
            kept.push(x);
        }
        proof {
            assert forall|y: ToplevelState| #[trigger] kept@.contains(y) == (y != s && exists|j: int|
                0 <= j < i + 1 && states@[j] == y) by {
                if kept@.contains(y) && !before.contains(y) {
                    assert(kept@[kept@.len() - 1] == y);
                }
                if before.contains(y) {
                    let k = choose|k: int| 0 <= k < before.len() && before[k] == y;
                    assert(kept@[k] == y);
                }
                if y != s && states@[i as int] == y {
                    assert(kept@[kept@.len() - 1] == y);
                }
            }
        }
        i = i + 1;
    }
    let ghost base = kept@;
    proof {
        assert forall|x: ToplevelState| #[trigger] base.contains(x) == (x != s && old(states)@.contains(x)) by {
            if x != s && old(states)@.contains(x) {
                let j = choose|j: int| 0 <= j < states@.len() && states@[j] == x;
                assert(exists|j: int| 0 <= j < i && states@[j] == x);
            }
            if base.contains(x) {
                let j = choose|j: int| 0 <= j < i && states@[j] == x;
                assert(old(states)@[j] == x);
            }
        }
    }
    if on {
        kept.push(s);
        proof {
            assert forall|x: ToplevelState| #[trigger] kept@.contains(x) == (base.contains(x) || x == s) by {
                if kept@.contains(x) {
                    let k = choose|k: int| 0 <= k < kept@.len() && kept@[k] == x;
                    if k < base.len() {
                        assert(base[k] == x);
                    }
                }
                if base.contains(x) {
                    let k = choose|k: int| 0 <= k < base.len() && base[k] == x;
                    assert(kept@[k] == x);
                }
                if x == s {
                    assert(kept@[kept@.len() - 1] == x);
                }
            }
        }
    }
    *states = kept;
}

/// Applies the layout states of a window in the given mode to its state
/// set: the layout states are set or unset as `toplevel_layout_states`
/// decides, and every other state (activated, resizing, suspended) keeps
/// its membership.
pub fn set_toplevel_layout_states(states: &mut Vec<ToplevelState>, is_fullscreen: bool, is_float: bool)
    ensures
        forall|x: ToplevelState| #[trigger] final(states)@.contains(x) == if is_layout_state(x) {
            layout_state_on(x, is_fullscreen, is_float)
        } else {
            old(states)@.contains(x)
        },
{
    let l = toplevel_layout_states(is_fullscreen, is_float);
    set_state(states, ToplevelState::Fullscreen, l.fullscreen);
    set_state(states, ToplevelState::Maximized, l.maximized);
    set_state(states, ToplevelState::TiledLeft, l.tiled_left);
    set_state(states, ToplevelState::TiledRight, l.tiled_right);
    set_state(states, ToplevelState::TiledTop, l.tiled_top);
    set_state(states, ToplevelState::TiledBottom, l.tiled_bottom);
}

/// Where the next window spawned in the focused container goes.
#[derive(Clone, Copy, Debug, PartialEq, Eq, Structural)]
pub enum SpawnMode {
    Horizontal,
    Vertical,
    Tab,
}

/// The colors of the focused window's border edges, as
/// `[top, bottom, left, right]`: the edge where the next window will appear
/// takes the spawn indicator color (the top for a new tab, the bottom for a
/// vertical split, the right for a horizontal one), the others the focused
/// color.
pub fn spawn_colors<C: Copy>(spawn: SpawnMode, focused: C, indicator: C) -> (r: [C; 4])
    ensures
        r@ == seq![
            if spawn is Tab { indicator } else { focused },
            if spawn is Vertical { indicator } else { focused },
            focused,
            if spawn is Horizontal { indicator } else { focused },
        ],
{
    let top = match spawn {
        SpawnMode::Tab => indicator,
        _ => focused,
    };
    let bottom = match spawn {
        SpawnMode::Vertical => indicator,
        _ => focused,
    };
    let right = match spawn {
        SpawnMode::Horizontal => indicator,
        _ => focused,
    };
    let r = [top, bottom, focused, right];
    assert(r@ =~= seq![top, bottom, focused, right]);
    r
}

/// The index of the first rule that matches a window, given for each rule
/// of the configuration whether it matches.
pub fn first_matching_rule(rule_matches: &[bool]) -> (r: Option<usize>)
    ensures
        r matches Some(i) ==> i < rule_matches@.len() && rule_matches@[i as int] && forall|j: int|
            0 <= j < i ==> !rule_matches@[j],
        r is None ==> forall|j: int| 0 <= j < rule_matches@.len() ==> !rule_matches@[j],
{
    let mut i: usize = 0;
    while i < rule_matches.len()
        invariant
            i <= rule_matches@.len(),
            forall|j: int| 0 <= j < i ==> !rule_matches@[j],
        decreases rule_matches@.len() - i,
    {
        if rule_matches[i] {
            return Some(i);
        }
        i = i + 1;
    }
    None
}

/// The on-open rule whose actions run for a newly opened window: the first
/// one that matches it.
pub fn on_open_actions(rule_matches: &[bool]) -> (r: Option<usize>)
    ensures
        r matches Some(i) ==> i < rule_matches@.len() && rule_matches@[i as int] && forall|j: int|
            0 <= j < i ==> !rule_matches@[j],
        r is None ==> forall|j: int| 0 <= j < rule_matches@.len() ==> !rule_matches@[j],
{
    first_matching_rule(rule_matches)
}

/// Whether an ignore rule keeps a window unmanaged: some rule matches it.
pub fn should_ignore(rule_matches: &[bool]) -> (r: bool)
    ensures
        r == exists|j: int| 0 <= j < rule_matches@.len() && rule_matches@[j],
{
    first_matching_rule(rule_matches).is_some()
}

/// How one field of a window matcher fared against a window.
#[derive(Clone, Copy, Debug, PartialEq, Eq, Structural)]
pub enum FieldMatch {
    /// The matcher does not constrain this field.
    Absent,
    /// The window has the field and the matcher's pattern matches it.
    Matched,
    /// The window lacks the field, or the pattern does not match it.
    Missed,
}

/// Whether a matcher with these field outcomes matches a macOS window
/// that has the given fields.
pub open spec fn macos_match_spec(
    app: FieldMatch,
    bundle_id: FieldMatch,
    title: FieldMatch,
    has_app: bool,
    has_bundle_id: bool,
    has_title: bool,
) -> bool {
    &&& !(app is Missed) && !(bundle_id is Missed) && !(title is Missed)
    &&& has_app || has_bundle_id || has_title
    &&& !(app is Absent) || !(bundle_id is Absent) || !(title is Absent)
}

/// Whether a matcher with these field outcomes matches a Wayland window.
pub open spec fn wayland_match_spec(app_id: FieldMatch, title: FieldMatch) -> bool {
    &&& !(app_id is Missed) && !(title is Missed)
    &&& !(app_id is Absent) || !(title is Absent)
}

/// Whether a matcher matches a macOS window, given how each of its app,
/// bundle id and title fields fared and which of those the window has: no
/// field may miss, a window with none of them matches nothing, and a
/// matcher must constrain at least one of them.
pub fn macos_matches(
    app: FieldMatch,
    bundle_id: FieldMatch,
    title: FieldMatch,
    has_app: bool,
    has_bundle_id: bool,
    has_title: bool,
) -> (r: bool)
    ensures
        r == macos_match_spec(app, bundle_id, title, has_app, has_bundle_id, has_title),
        app is Missed || bundle_id is Missed || title is Missed ==> !r,
{
    if app == FieldMatch::Missed || bundle_id == FieldMatch::Missed || title == FieldMatch::Missed {
        return false;
    }
    if !has_app && !has_bundle_id && !has_title {
        return false;
    }
    app != FieldMatch::Absent || bundle_id != FieldMatch::Absent || title != FieldMatch::Absent
}

/// Whether a matcher matches a Wayland window, given how its app id and
/// title fields fared: neither may miss and at least one must be
/// constrained. Fields meant for other platforms are ignored.
pub fn wayland_matches(app_id: FieldMatch, title: FieldMatch) -> (r: bool)
    ensures
        r == wayland_match_spec(app_id, title),
        app_id is Missed || title is Missed ==> !r,
{
    if app_id == FieldMatch::Missed || title == FieldMatch::Missed {
        return false;
    }
    app_id != FieldMatch::Absent || title != FieldMatch::Absent
}

/// A matcher that constrains no field matches no window, on either
/// platform, whatever fields the window has.
pub proof fn law_empty_matcher_matches_nothing(has_app: bool, has_bundle_id: bool, has_title: bool)
    ensures
        !macos_match_spec(
            FieldMatch::Absent,
            FieldMatch::Absent,
            FieldMatch::Absent,
            has_app,
            has_bundle_id,
            has_title,
        ),
        !wayland_match_spec(FieldMatch::Absent, FieldMatch::Absent),
{
}

/// A matcher whose every constrained field matches still matches nothing
/// on a macOS window that has none of the fields.
pub proof fn law_window_without_fields_matches_nothing(
    app: FieldMatch,
    bundle_id: FieldMatch,
    title: FieldMatch,
)
    ensures
        !macos_match_spec(app, bundle_id, title, false, false, false),
{
}

/// A matcher any of whose constrained fields misses the window never
/// matches it, on either platform; one whose constrained fields all match,
/// with at least one constrained, matches any macOS window that has some
/// app name, bundle id or title, and any Wayland window.
pub proof fn law_missed_field_never_matches(
    app: FieldMatch,
    bundle_id: FieldMatch,
    title: FieldMatch,
    has_app: bool,
    has_bundle_id: bool,
    has_title: bool,
)
    ensures
        app is Missed ==> !macos_match_spec(app, bundle_id, title, has_app, has_bundle_id, has_title),
        bundle_id is Missed ==> !macos_match_spec(app, bundle_id, title, has_app, has_bundle_id, has_title),
        title is Missed ==> !macos_match_spec(app, bundle_id, title, has_app, has_bundle_id, has_title),
        app is Missed ==> !wayland_match_spec(app, title),
        title is Missed ==> !wayland_match_spec(app, title),
        (!(app is Missed) && !(bundle_id is Missed) && !(title is Missed) && (app is Matched
            || bundle_id is Matched || title is Matched) && (has_app || has_bundle_id || has_title))
            ==> macos_match_spec(app, bundle_id, title, has_app, has_bundle_id, has_title),
        (!(app is Missed) && !(title is Missed) && (app is Matched || title is Matched))
            ==> wayland_match_spec(app, title),
{
}

} // verus!
