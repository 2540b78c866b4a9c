use vstd::prelude::*;

use crate::geometry::PixelRect;
use crate::placement::{
    at_hidden_spec, constraint_spec, has_drifted_spec, hidden_position_spec, move_offscreen,
    observe_drift_spec, saturating_inc, FloatPlacement, LimitObservation, OffscreenPlacement,
    Placement, MAX_ENFORCEMENT_RETRIES,
};

verus! {

/// Observations that begin within this many nanoseconds of a placement
/// are taken to be caused by it.
pub const PLACEMENT_SETTLE_NS: u64 = 1_000_000_000;

/// How Dome positions a window it controls.
#[derive(Clone, Copy, Debug, PartialEq, Eq, Structural)]
pub enum PositionedState {
    /// Moved offscreen by Dome.
    Offscreen(OffscreenPlacement),
    Tiling(Placement),
    Float(FloatPlacement),
}

/// The placement state of a managed window.
#[derive(Clone, Copy, Debug, PartialEq, Eq, Structural)]
pub enum WindowState {
    Positioned(PositionedState),
    /// Window is in a macOS native fullscreen Space.
    NativeFullscreen,
    /// Window was zoomed to fill the screen without a Space of its own.
    BorderlessFullscreen,
    /// Borderless-fullscreen window minimized by Dome because its workspace
    /// is inactive.
    BorderlessMinimized { retries: u8 },
}

/// Timestamps (nanoseconds of the monotonic clock) of the first and last
/// move/resize notifications of a coalesced debounce burst.
#[derive(Clone, Copy, Debug, PartialEq, Eq, Structural)]
pub struct DebounceBurst {
    pub first: u64,
    pub last: u64,
}

/// Outside work a placement decision asks for, in the order given.
#[derive(Clone, Copy, Debug, PartialEq, Eq, Structural)]
pub enum WindowEffect {
    /// Set the window's frame to this rectangle.
    SetFrame(PixelRect),
    /// Move the window to this position to hide it.
    HideAt(i64, i64),
    /// Minimize the window.
    Minimize,
    /// Take the window out of the Dock.
    Unminimize,
    /// Tell the layout hub the window is fullscreen and must stay so.
    HubSetFullscreen,
    /// Tell the layout hub the window is no longer fullscreen.
    HubUnsetFullscreen,
    /// Tell the layout hub the window is no longer minimized.
    HubUnminimize,
    /// Tell the layout hub about size limits the window revealed.
    HubSetConstraint(LimitObservation),
    /// Tell the layout hub a float was moved by the user to this rectangle,
    /// now on the monitor with this layout id.
    HubUpdateFloatRect(PixelRect, u64),
}

/// The part of a managed window that placement decisions read and change.
#[derive(Clone, Copy, Debug, PartialEq, Eq, Structural)]
pub struct WindowControl {
    pub state: WindowState,
    /// Minimized by the user.
    pub is_minimized: bool,
    /// Its application is in the middle of a move/resize burst.
    pub is_moving: bool,
}

/// The hide request for a window at `actual`: nothing when it is already
/// at the hidden position.
pub open spec fn hide_effects(monitors: Seq<PixelRect>, actual: PixelRect) -> Seq<WindowEffect> {
    if at_hidden_spec(actual, monitors) {
        seq![]
    } else {
        seq![
            WindowEffect::HideAt(
                hidden_position_spec(monitors).0 as i64,
                hidden_position_spec(monitors).1 as i64,
            ),
        ]
    }
}

pub open spec fn frame_effects(target: Option<PixelRect>) -> Seq<WindowEffect> {
    match target {
        Some(t) => seq![WindowEffect::SetFrame(t)],
        None => seq![],
    }
}

pub open spec fn constraint_effects(obs: Option<LimitObservation>) -> Seq<WindowEffect> {
    match obs {
        Some(o) => seq![WindowEffect::HubSetConstraint(o)],
        None => seq![],
    }
}

/// Whether deciding on a move needs the monitor list (it hides the window).
pub open spec fn moved_needs_monitors(state: WindowState, borderless_fullscreen: bool) -> bool {
    !borderless_fullscreen && (state matches WindowState::Positioned(PositionedState::Offscreen(_))
        || state is BorderlessMinimized)
}

/// What an observed frame does to a window in `state`.
pub open spec fn moved_state_spec(
    state: WindowState,
    is_displayed: bool,
    new: PixelRect,
    burst: DebounceBurst,
    bfs: bool,
    monitors: Seq<PixelRect>,
    float_monitor: u64,
) -> (WindowState, Seq<WindowEffect>) {
    match state {
        WindowState::Positioned(PositionedState::Offscreen(off)) => {
            if bfs {
                (
                    WindowState::BorderlessMinimized { retries: 0 },
                    seq![WindowEffect::HubSetFullscreen, WindowEffect::Minimize],
                )
            } else if at_hidden_spec(new, monitors) {
                (
                    WindowState::Positioned(
                        PositionedState::Offscreen(OffscreenPlacement { actual: new, ..off }),
                    ),
                    seq![],
                )
            } else {
                let off2 = OffscreenPlacement { actual: new, retries: saturating_inc(off.retries) };
                (
                    WindowState::Positioned(PositionedState::Offscreen(off2)),
                    if off2.retries <= MAX_ENFORCEMENT_RETRIES {
                        hide_effects(monitors, new)
                    } else {
                        seq![]
                    },
                )
            }
        },
        WindowState::Positioned(PositionedState::Tiling(p)) => {
            if burst.last < p.placed_at {
                (state, seq![])
            } else if new == p.target {
                (
                    WindowState::Positioned(
                        PositionedState::Tiling(Placement { actual: new, ..p }),
                    ),
                    seq![],
                )
            } else if bfs {
                (WindowState::BorderlessFullscreen, seq![WindowEffect::HubSetFullscreen])
            } else if burst.first <= p.placed_at + PLACEMENT_SETTLE_NS && !has_drifted_spec(
                p.target,
                new,
            ) {
                (
                    WindowState::Positioned(
                        PositionedState::Tiling(Placement { actual: new, ..p }),
                    ),
                    constraint_effects(constraint_spec(new, p.target)),
                )
            } else {
                let (p2, reissue) = observe_drift_spec(p, new);
                (WindowState::Positioned(PositionedState::Tiling(p2)), frame_effects(reissue))
            }
        },
        WindowState::Positioned(PositionedState::Float(fp)) => {
            if burst.last < fp.placed_at || new == fp.target {
                (state, seq![])
            } else if bfs {
                (WindowState::BorderlessFullscreen, seq![WindowEffect::HubSetFullscreen])
            } else {
                (
                    WindowState::Positioned(
                        PositionedState::Float(FloatPlacement { target: new, ..fp }),
                    ),
                    seq![WindowEffect::HubUpdateFloatRect(new, float_monitor)],
                )
            }
        },
        WindowState::BorderlessMinimized { retries } => {
            if bfs {
                let r2 = saturating_inc(retries);
                (
                    WindowState::BorderlessMinimized { retries: r2 },
                    if r2 > MAX_ENFORCEMENT_RETRIES {
                        seq![]
                    } else {
                        seq![WindowEffect::Minimize]
                    },
                )
            } else {
                (
                    WindowState::Positioned(
                        PositionedState::Offscreen(OffscreenPlacement { actual: new, retries: 0 }),
                    ),
                    seq![WindowEffect::Unminimize] + hide_effects(monitors, new) + seq![
                        WindowEffect::HubUnsetFullscreen,
                    ],
                )
            }
        },
        WindowState::BorderlessFullscreen => {
            if bfs {
                (state, seq![])
            } else {
                (
                    WindowState::Positioned(
                        PositionedState::Offscreen(OffscreenPlacement { actual: new, retries: 0 }),
                    ),
                    seq![WindowEffect::HubUnsetFullscreen],
                )
            }
        },
        WindowState::NativeFullscreen => {
            if bfs {
                if is_displayed {
                    (WindowState::BorderlessFullscreen, seq![])
                } else {
                    (WindowState::BorderlessMinimized { retries: 0 }, seq![WindowEffect::Minimize])
                }
            } else {
                (
                    WindowState::Positioned(
                        PositionedState::Offscreen(OffscreenPlacement { actual: new, retries: 0 }),
                    ),
                    seq![WindowEffect::HubUnsetFullscreen],
                )
            }
        },
    }
}

/// What an observed frame does to a window: a user-minimized window that
/// shows up again is no longer minimized, then the state decides.
pub open spec fn moved_spec(
    w: WindowControl,
    is_displayed: bool,
    new: PixelRect,
    burst: DebounceBurst,
    bfs: bool,
    monitors: Seq<PixelRect>,
    float_monitor: u64,
) -> (WindowControl, Seq<WindowEffect>) {
    let (state, effects) = moved_state_spec(w.state, is_displayed, new, burst, bfs, monitors, float_monitor);
    let pre: Seq<WindowEffect> = if w.is_minimized {
        seq![WindowEffect::HubUnminimize]
    } else {
        seq![]
    };
    (WindowControl { state, is_minimized: false, ..w }, pre + effects)
}

/// What hiding does to a window.
pub open spec fn hide_spec(w: WindowControl, monitors: Seq<PixelRect>) -> (WindowControl, Seq<WindowEffect>) {
    if w.is_minimized {
        (w, seq![])
    } else {
        match w.state {
            WindowState::BorderlessFullscreen => (
                WindowControl { state: WindowState::BorderlessMinimized { retries: 0 }, ..w },
                seq![WindowEffect::Minimize],
            ),
            WindowState::NativeFullscreen => (w, seq![]),
            WindowState::BorderlessMinimized { .. } => (w, seq![]),
            WindowState::Positioned(ps) => offscreen_spec(w, ps, monitors),
        }
    }
}

/// What moving a positioned window offscreen does to it.
pub open spec fn offscreen_spec(w: WindowControl, ps: PositionedState, monitors: Seq<PixelRect>) -> (
    WindowControl,
    Seq<WindowEffect>,
) {
    let actual = match ps {
        PositionedState::Tiling(p) => p.actual,
        PositionedState::Float(fp) => fp.target,
        PositionedState::Offscreen(off) => off.actual,
    };
    let state = match ps {
        PositionedState::Offscreen(_) => w.state,
        _ => WindowState::Positioned(
            PositionedState::Offscreen(OffscreenPlacement { actual, retries: 0 }),
        ),
    };
    (WindowControl { state, ..w }, hide_effects(monitors, actual))
}

/// What showing a window as tiled at `target` does to it.
pub open spec fn show_tiling_spec(w: WindowControl, target: PixelRect, now: u64) -> (WindowControl, Seq<WindowEffect>) {
    if w.is_moving {
        (w, seq![])
    } else {
        let pre: Seq<WindowEffect> = if w.is_minimized {
            seq![WindowEffect::Unminimize]
        } else {
            seq![]
        };
        let (state, effects) = match w.state {
            WindowState::Positioned(PositionedState::Tiling(p)) => {
                if p.target == target {
                    (w.state, seq![])
                } else {
                    (
                        WindowState::Positioned(
                            PositionedState::Tiling(
                                Placement { target, actual: p.actual, retries: 0, placed_at: now },
                            ),
                        ),
                        seq![WindowEffect::SetFrame(target)],
                    )
                }
            },
            WindowState::Positioned(PositionedState::Offscreen(off)) => (
                WindowState::Positioned(
                    PositionedState::Tiling(
                        Placement { target, actual: off.actual, retries: 0, placed_at: now },
                    ),
                ),
                seq![WindowEffect::SetFrame(target)],
            ),
            _ => (
                WindowState::Positioned(
                    PositionedState::Tiling(
                        Placement { target, actual: target, retries: 0, placed_at: now },
                    ),
                ),
                seq![WindowEffect::SetFrame(target)],
            ),
        };
        (WindowControl { state, is_minimized: false, ..w }, pre + effects)
    }
}

/// What showing a window as a float at `target` does to it.
pub open spec fn show_float_spec(w: WindowControl, target: PixelRect, now: u64) -> (WindowControl, Seq<WindowEffect>) {
    if w.is_moving {
        (w, seq![])
    } else {
        let pre: Seq<WindowEffect> = if w.is_minimized {
            seq![WindowEffect::Unminimize]
        } else {
            seq![]
        };
        let (state, effects) = match w.state {
            WindowState::Positioned(PositionedState::Float(fp)) => {
                if fp.target == target {
                    (w.state, seq![])
                } else {
                    (
                        WindowState::Positioned(
                            PositionedState::Float(FloatPlacement { target, placed_at: now }),
                        ),
                        seq![WindowEffect::SetFrame(target)],
                    )
                }
            },
            _ => (
                WindowState::Positioned(
                    PositionedState::Float(FloatPlacement { target, placed_at: now }),
                ),
                seq![WindowEffect::SetFrame(target)],
            ),
        };
        (WindowControl { state, is_minimized: false, ..w }, pre + effects)
    }
}

/// What placing a fullscreen window on a monitor whose work area is
/// `target` does to it.
pub open spec fn fullscreen_spec(w: WindowControl, target: PixelRect, now: u64) -> (WindowControl, Seq<WindowEffect>) {
    match w.state {
        WindowState::BorderlessMinimized { .. } => (
            WindowControl { state: WindowState::BorderlessFullscreen, ..w },
            seq![WindowEffect::Unminimize],
        ),
        WindowState::Positioned(PositionedState::Offscreen(off)) => (
            WindowControl {
                state: WindowState::Positioned(
                    PositionedState::Tiling(
                        Placement { target, actual: off.actual, retries: 0, placed_at: now },
                    ),
                ),
                ..w
            },
            seq![WindowEffect::SetFrame(target)],
        ),
        WindowState::Positioned(PositionedState::Tiling(p)) => {
            if p.target == target {
                (w, seq![])
            } else {
                (
                    WindowControl {
                        state: WindowState::Positioned(
                            PositionedState::Tiling(
                                Placement { target, actual: p.actual, retries: 0, placed_at: now },
                            ),
                        ),
                        ..w
                    },
                    seq![WindowEffect::SetFrame(target)],
                )
            }
        },
        WindowState::Positioned(PositionedState::Float(fp)) => {
            if fp.target == target {
                (w, seq![])
            } else {
                (
                    WindowControl {
                        state: WindowState::Positioned(
                            PositionedState::Float(FloatPlacement { target, placed_at: now }),
                        ),
                        ..w
                    },
                    seq![WindowEffect::SetFrame(target)],
                )
            }
        },
        WindowState::NativeFullscreen => (w, seq![]),
        WindowState::BorderlessFullscreen => (w, seq![]),
    }
}

impl WindowControl {
    /// A freshly tracked window.
    pub fn new(state: WindowState) -> (r: WindowControl)
        ensures
            r == (WindowControl { state, is_minimized: false, is_moving: false }),
    {
        WindowControl { state, is_minimized: false, is_moving: false }
    }

    /// Decides what to do about a window that was observed at
    /// `new_placement`. `is_borderless_fullscreen` says whether that frame
    /// fills a monitor's work area (`MonitorRegistry::is_borderless_fullscreen_at`);
    /// `is_displayed` whether Dome currently shows the window;
    /// `float_monitor` the monitor a float at that frame belongs to
    /// (`MonitorRegistry::float_monitor_for`).
    pub fn window_moved(
        &mut self,
        is_displayed: bool,
        new_placement: PixelRect,
        observed_at: DebounceBurst,
        is_borderless_fullscreen: bool,
        monitors: &[PixelRect],
        float_monitor: u64,
    ) -> (effects: Vec<WindowEffect>)
        requires
            moved_needs_monitors(old(self).state, is_borderless_fullscreen) ==> monitors@.len() > 0,
        ensures
            (*final(self), effects@) == moved_spec(
                *old(self),
                is_displayed,
                new_placement,
                observed_at,
                is_borderless_fullscreen,
                monitors@,
                float_monitor,
            ),
    {
        let mut effects: Vec<WindowEffect> = Vec::new();
        // A user-minimized window brought back to screen.
        if self.is_minimized {
            effects.push(WindowEffect::HubUnminimize);
            self.is_minimized = false;
        }
        let ghost pre = effects@;
        let bfs = is_borderless_fullscreen;
        match self.state {
            WindowState::Positioned(PositionedState::Offscreen(offscreen)) => {
                if bfs {
                    // Turned fullscreen while hidden, so it is hidden again.
                    effects.push(WindowEffect::HubSetFullscreen);
                    self.state = WindowState::BorderlessMinimized { retries: 0 };
                    effects.push(WindowEffect::Minimize);
                } else {
                    let mut off = offscreen;
                    if off.record_drift(new_placement, monitors) {
                        if off.should_retry() {
                            if let Some((x, y)) = move_offscreen(monitors, &off.actual) {
                                effects.push(WindowEffect::HideAt(x, y));
                            }
                        }
                    }
                    self.state = WindowState::Positioned(PositionedState::Offscreen(off));
                }
            },
            WindowState::Positioned(PositionedState::Tiling(placement)) => {
                let mut p = placement;
                if observed_at.last < p.placed_at {
                    // Stale: the burst ended before the latest placement.
                } else if new_placement == p.target {
                    p.actual = new_placement;
                    self.state = WindowState::Positioned(PositionedState::Tiling(p));
                } else if bfs {
                    self.state = WindowState::BorderlessFullscreen;
                    effects.push(WindowEffect::HubSetFullscreen);
                } else if (observed_at.first as u128) <= (p.placed_at as u128)
                    + PLACEMENT_SETTLE_NS as u128 && !p.has_drifted(new_placement) {
                    // Caused by the placement itself: the window settled on
                    // another size, which reveals its limits.
                    p.actual = new_placement;
                    if let Some(observation) = p.detect_constraint() {
                        effects.push(WindowEffect::HubSetConstraint(observation));
                    }
                    self.state = WindowState::Positioned(PositionedState::Tiling(p));
                } else {
                    if let Some(target) = p.observe_drift(new_placement) {
                        effects.push(WindowEffect::SetFrame(target));
                    }
                    self.state = WindowState::Positioned(PositionedState::Tiling(p));
                }
            },
            WindowState::Positioned(PositionedState::Float(fp)) => {
                if observed_at.last < fp.placed_at || new_placement == fp.target {
                } else if bfs {
                    self.state = WindowState::BorderlessFullscreen;
                    effects.push(WindowEffect::HubSetFullscreen);
                } else {
                    let mut f = fp;
                    f.target = new_placement;
                    self.state = WindowState::Positioned(PositionedState::Float(f));
                    effects.push(WindowEffect::HubUpdateFloatRect(new_placement, float_monitor));
                }
            },
            WindowState::BorderlessMinimized { retries } => {
                if bfs {
                    let r2 = retries.saturating_add(1);
                    self.state = WindowState::BorderlessMinimized { retries: r2 };
                    if r2 <= MAX_ENFORCEMENT_RETRIES {
                        effects.push(WindowEffect::Minimize);
                    }
                } else {
                    effects.push(WindowEffect::Unminimize);
                    let off = OffscreenPlacement::new(new_placement);
                    if let Some((x, y)) = move_offscreen(monitors, &off.actual) {
                        effects.push(WindowEffect::HideAt(x, y));
                    }
                    self.state = WindowState::Positioned(PositionedState::Offscreen(off));
                    effects.push(WindowEffect::HubUnsetFullscreen);
                }
            },
            WindowState::BorderlessFullscreen => {
                // Hidden until the layout shows it again, since it may
                // belong to an inactive workspace.
                if !bfs {
                    self.state = WindowState::Positioned(
                        PositionedState::Offscreen(OffscreenPlacement::new(new_placement)),
                    );
                    effects.push(WindowEffect::HubUnsetFullscreen);
                }
            },
            WindowState::NativeFullscreen => {
                if bfs {
                    if is_displayed {
                        self.state = WindowState::BorderlessFullscreen;
                    } else {
                        // Left native fullscreen on an unfocused workspace.
                        self.state = WindowState::BorderlessMinimized { retries: 0 };
                        effects.push(WindowEffect::Minimize);
                    }
                } else {
                    self.state = WindowState::Positioned(
                        PositionedState::Offscreen(OffscreenPlacement::new(new_placement)),
                    );
                    effects.push(WindowEffect::HubUnsetFullscreen);
                }
            },
        }
        proof {
            let (s, tail) = moved_state_spec(
                old(self).state,
                is_displayed,
                new_placement,
                observed_at,
                is_borderless_fullscreen,
                monitors@,
                float_monitor,
            );
            assert(effects@ =~= pre + tail);
        }
        effects
    }

    /// Decides how to take a window out of view.
    pub fn hide_window(&mut self, monitors: &[PixelRect]) -> (effects: Vec<WindowEffect>)
        requires
            !old(self).is_minimized && old(self).state is Positioned ==> monitors@.len() > 0,
        ensures
            (*final(self), effects@) == hide_spec(*old(self), monitors@),
    {
        if self.is_minimized {
            return Vec::new();
        }
        match self.state {
            WindowState::BorderlessFullscreen => {
                // Minimized rather than moved: a zoomed window keeps its
                // fullscreen size, so moving it is futile.
                self.state = WindowState::BorderlessMinimized { retries: 0 };
                let mut effects: Vec<WindowEffect> = Vec::new();
                effects.push(WindowEffect::Minimize);
                effects
            },
            WindowState::NativeFullscreen => Vec::new(),
            WindowState::BorderlessMinimized { .. } => Vec::new(),
            WindowState::Positioned(_) => self.move_window_offscreen(monitors),
        }
    }

    /// Decides how to move a window Dome positions offscreen.
    pub fn move_window_offscreen(&mut self, monitors: &[PixelRect]) -> (effects: Vec<WindowEffect>)
        requires
            old(self).state is Positioned,
            monitors@.len() > 0,
        ensures
            (*final(self), effects@) == offscreen_spec(*old(self), old(self).state->Positioned_0, monitors@),
    {
        let mut effects: Vec<WindowEffect> = Vec::new();
        let actual = match self.state {
            WindowState::Positioned(PositionedState::Tiling(placement)) => {
                self.state = WindowState::Positioned(
                    PositionedState::Offscreen(OffscreenPlacement::new(placement.actual)),
                );
                placement.actual
            },
            WindowState::Positioned(PositionedState::Float(fp)) => {
                self.state = WindowState::Positioned(
                    PositionedState::Offscreen(OffscreenPlacement::new(fp.target)),
                );
                fp.target
            },
            WindowState::Positioned(PositionedState::Offscreen(offscreen)) => offscreen.actual,
            _ => {
                proof {
                    assert(false);
                }
                return effects;
            },
        };
        if let Some((x, y)) = move_offscreen(monitors, &actual) {
            effects.push(WindowEffect::HideAt(x, y));
        }
        proof {
            assert(effects@ =~= hide_effects(monitors@, actual));
        }
        effects
    }

    /// Decides how to show a window as tiled with content box `target`.
    pub fn show_tiling(&mut self, target: PixelRect, now: u64) -> (effects: Vec<WindowEffect>)
        requires
            !target.is_empty_spec(),
            !old(self).is_moving ==> old(self).state is Positioned,
        ensures
            (*final(self), effects@) == show_tiling_spec(*old(self), target, now),
    {
        let mut effects: Vec<WindowEffect> = Vec::new();
        if self.is_moving {
            return effects;
        }
        // A user-minimized window being restored.
        if self.is_minimized {
            self.is_minimized = false;
            effects.push(WindowEffect::Unminimize);
        }
        let ghost pre = effects@;
        match self.state {
            WindowState::Positioned(PositionedState::Tiling(placement)) => {
                let mut p = placement;
                if p.set_target(target, now) {
                    effects.push(WindowEffect::SetFrame(target));
                }
                self.state = WindowState::Positioned(PositionedState::Tiling(p));
            },
            WindowState::Positioned(PositionedState::Offscreen(offscreen)) => {
                // Keep the last seen frame so drift correction starts from a
                // real coordinate.
                self.state = WindowState::Positioned(
                    PositionedState::Tiling(Placement::new(offscreen.actual, target, now)),
                );
                effects.push(WindowEffect::SetFrame(target));
            },
            _ => {
                // Toggled tiling-ward, so rebuilt as tiling.
                self.state = WindowState::Positioned(
                    PositionedState::Tiling(Placement::new(target, target, now)),
                );
                effects.push(WindowEffect::SetFrame(target));
            },
        }
        proof {
            let (s, tail) = show_tiling_spec(*old(self), target, now);
            assert(effects@ =~= tail);
        }
        effects
    }

    /// Decides how to show a window as a float with content box `target`.
    pub fn show_float(&mut self, target: PixelRect, now: u64) -> (effects: Vec<WindowEffect>)
        requires
            !target.is_empty_spec(),
            !old(self).is_moving ==> old(self).state is Positioned,
        ensures
            (*final(self), effects@) == show_float_spec(*old(self), target, now),
    {
        let mut effects: Vec<WindowEffect> = Vec::new();
        if self.is_moving {
            return effects;
        }
        if self.is_minimized {
            self.is_minimized = false;
            effects.push(WindowEffect::Unminimize);
        }
        match self.state {
            WindowState::Positioned(PositionedState::Float(fp)) => {
                let mut f = fp;
                if f.set_target(target, now) {
                    effects.push(WindowEffect::SetFrame(target));
                }
                self.state = WindowState::Positioned(PositionedState::Float(f));
            },
            _ => {
                self.state = WindowState::Positioned(
                    PositionedState::Float(FloatPlacement::new(target, now)),
                );
                effects.push(WindowEffect::SetFrame(target));
            },
        }
        proof {
            let (s, tail) = show_float_spec(*old(self), target, now);
            assert(effects@ =~= tail);
        }
        effects
    }

    /// Decides how to place a fullscreen window on a monitor whose work
    /// area is `work_area`.
    pub fn place_fullscreen_window(&mut self, work_area: PixelRect, now: u64) -> (effects: Vec<
        WindowEffect,
    >)
        ensures
            (*final(self), effects@) == fullscreen_spec(*old(self), work_area, now),
    {
        let mut effects: Vec<WindowEffect> = Vec::new();
        match self.state {
            WindowState::BorderlessMinimized { .. } => {
                effects.push(WindowEffect::Unminimize);
                self.state = WindowState::BorderlessFullscreen;
            },
            WindowState::Positioned(PositionedState::Offscreen(offscreen)) => {
                // Fullscreen is tiling-shaped, so it always gets a tiling placement.
                self.state = WindowState::Positioned(
                    PositionedState::Tiling(Placement::new(offscreen.actual, work_area, now)),
                );
                effects.push(WindowEffect::SetFrame(work_area));
            },
            WindowState::Positioned(PositionedState::Tiling(placement)) => {
                let mut p = placement;
                if p.set_target(work_area, now) {
                    effects.push(WindowEffect::SetFrame(work_area));
                }
                self.state = WindowState::Positioned(PositionedState::Tiling(p));
            },
            WindowState::Positioned(PositionedState::Float(fp)) => {
                let mut f = fp;
                if f.set_target(work_area, now) {
                    effects.push(WindowEffect::SetFrame(work_area));
                }
                self.state = WindowState::Positioned(PositionedState::Float(f));
            },
            // Native fullscreen windows cannot be touched, and borderless
            // ones may fight any move in an endless loop.
            WindowState::NativeFullscreen => {},
            WindowState::BorderlessFullscreen => {},
        }
        proof {
            let (s, tail) = fullscreen_spec(*old(self), work_area, now);
            assert(effects@ =~= tail);
        }
        effects
    }

    /// Records that the window entered a native fullscreen Space.
    pub fn window_entered_native_fullscreen(&mut self) -> (effects: Vec<WindowEffect>)
        ensures
            *final(self) == (WindowControl {
                state: WindowState::NativeFullscreen,
                is_minimized: false,
                is_moving: old(self).is_moving,
            }),
            effects@ == (if old(self).is_minimized {
                seq![WindowEffect::HubUnminimize, WindowEffect::HubSetFullscreen]
            } else {
                seq![WindowEffect::HubSetFullscreen]
            }),
    {
        let mut effects: Vec<WindowEffect> = Vec::new();
        if self.is_minimized {
            effects.push(WindowEffect::HubUnminimize);
            self.is_minimized = false;
        }
        self.state = WindowState::NativeFullscreen;
        effects.push(WindowEffect::HubSetFullscreen);
        proof {
            if old(self).is_minimized {
                assert(effects@ =~= seq![WindowEffect::HubUnminimize, WindowEffect::HubSetFullscreen]);
            } else {
                assert(effects@ =~= seq![WindowEffect::HubSetFullscreen]);
            }
        }
        effects
    }
}

/// Notifications of a burst that ended before the latest placement reflect
/// the window's state before it and are ignored: the placement stays as it
/// is and nothing but the un-minimizing of a user-minimized window happens.
pub proof fn law_stale_observation_ignored(
    w: WindowControl,
    is_displayed: bool,
    new: PixelRect,
    burst: DebounceBurst,
    bfs: bool,
    monitors: Seq<PixelRect>,
    float_monitor: u64,
)
    requires
        match w.state {
            WindowState::Positioned(PositionedState::Tiling(p)) => burst.last < p.placed_at,
            WindowState::Positioned(PositionedState::Float(fp)) => burst.last < fp.placed_at,
            _ => false,
        },
    ensures
        moved_spec(w, is_displayed, new, burst, bfs, monitors, float_monitor).0.state == w.state,
        moved_spec(w, is_displayed, new, burst, bfs, monitors, float_monitor).1 == (if w.is_minimized {
            seq![WindowEffect::HubUnminimize]
        } else {
            seq![]
        }),
{
    let pre: Seq<WindowEffect> = if w.is_minimized {
        seq![WindowEffect::HubUnminimize]
    } else {
        seq![]
    };
    assert(pre + seq![] =~= pre);
}

/// A tiled window observed exactly at its target needs no correction.
pub proof fn law_window_at_target_needs_nothing(
    w: WindowControl,
    is_displayed: bool,
    burst: DebounceBurst,
    bfs: bool,
    monitors: Seq<PixelRect>,
    float_monitor: u64,
)
    requires
        w.state matches WindowState::Positioned(PositionedState::Tiling(p)) && burst.last
            >= p.placed_at,
        !w.is_minimized,
    ensures
        ({
            let p = w.state->Positioned_0->Tiling_0;
            let (w2, effects) = moved_spec(w, is_displayed, p.target, burst, bfs, monitors, float_monitor);
            &&& effects.len() == 0
            &&& w2.state == WindowState::Positioned(
                PositionedState::Tiling(Placement { actual: p.target, ..p }),
            )
        }),
{
    let p = w.state->Positioned_0->Tiling_0;
    assert(seq![] + seq![] =~= Seq::<WindowEffect>::empty());
}

/// Every frame correction a tiled window receives spends one retry of its
/// budget, and none is issued once the budget is spent.
pub proof fn law_tiling_corrections_spend_budget(
    w: WindowControl,
    is_displayed: bool,
    new: PixelRect,
    burst: DebounceBurst,
    bfs: bool,
    monitors: Seq<PixelRect>,
    float_monitor: u64,
)
    requires
        w.state matches WindowState::Positioned(PositionedState::Tiling(_)),
    ensures
        ({
            let p = w.state->Positioned_0->Tiling_0;
            let (w2, effects) = moved_spec(w, is_displayed, new, burst, bfs, monitors, float_monitor);
            (exists|i: int| 0 <= i < effects.len() && effects[i] is SetFrame) ==> {
                &&& w2.state matches WindowState::Positioned(PositionedState::Tiling(p2))
                &&& p2.retries == saturating_inc(p.retries)
                &&& p2.retries <= MAX_ENFORCEMENT_RETRIES
                &&& p2.target == p.target
                &&& effects.contains(WindowEffect::SetFrame(p.target))
            }
        }),
{
    let p = w.state->Positioned_0->Tiling_0;
    let (w2, effects) = moved_spec(w, is_displayed, new, burst, bfs, monitors, float_monitor);
    let (s, tail) = moved_state_spec(w.state, is_displayed, new, burst, bfs, monitors, float_monitor);
    let pre: Seq<WindowEffect> = if w.is_minimized {
        seq![WindowEffect::HubUnminimize]
    } else {
        seq![]
    };
    assert(effects == pre + tail);
    if exists|i: int| 0 <= i < effects.len() && effects[i] is SetFrame {
        let i = choose|i: int| 0 <= i < effects.len() && effects[i] is SetFrame;
        if w.is_minimized {
            assert(effects[0] is HubUnminimize);
            assert(tail[i - 1] == effects[i]);
        } else {
            assert(tail[i] == effects[i]);
        }
        assert(tail.len() == 1);
        assert(effects[effects.len() - 1] == WindowEffect::SetFrame(p.target));
    }
}

/// A borderless-fullscreen window that keeps resurfacing on an inactive
/// workspace is minimized again at most `MAX_ENFORCEMENT_RETRIES` times:
/// every re-minimize spends one retry.
pub proof fn law_resurface_minimize_spends_budget(
    w: WindowControl,
    is_displayed: bool,
    new: PixelRect,
    burst: DebounceBurst,
    monitors: Seq<PixelRect>,
    float_monitor: u64,
)
    requires
        w.state is BorderlessMinimized,
    ensures
        ({
            let (w2, effects) = moved_spec(w, is_displayed, new, burst, true, monitors, float_monitor);
            &&& w2.state == WindowState::BorderlessMinimized {
                retries: saturating_inc(w.state->retries),
            }
            &&& effects.contains(WindowEffect::Minimize) <==> saturating_inc(w.state->retries)
                <= MAX_ENFORCEMENT_RETRIES
        }),
{
    let (w2, effects) = moved_spec(w, is_displayed, new, burst, true, monitors, float_monitor);
    let (s, tail) = moved_state_spec(w.state, is_displayed, new, burst, true, monitors, float_monitor);
    let pre: Seq<WindowEffect> = if w.is_minimized {
        seq![WindowEffect::HubUnminimize]
    } else {
        seq![]
    };
    assert(effects == pre + tail);
    if saturating_inc(w.state->retries) <= MAX_ENFORCEMENT_RETRIES {
        assert(effects[effects.len() - 1] == WindowEffect::Minimize);
    } else {
        assert(tail.len() == 0);
        assert(effects =~= pre);
    }
}

/// A hidden window reported at the hidden position stays where it is: no
/// effect is asked for and no retry is spent.
pub proof fn law_hidden_window_at_rest(
    w: WindowControl,
    is_displayed: bool,
    new: PixelRect,
    burst: DebounceBurst,
    monitors: Seq<PixelRect>,
    float_monitor: u64,
)
    requires
        w.state matches WindowState::Positioned(PositionedState::Offscreen(_)),
        !w.is_minimized,
        at_hidden_spec(new, monitors),
    ensures
        ({
            let off = w.state->Positioned_0->Offscreen_0;
            let (w2, effects) = moved_spec(w, is_displayed, new, burst, false, monitors, float_monitor);
            &&& effects.len() == 0
            &&& w2.state == WindowState::Positioned(
                PositionedState::Offscreen(OffscreenPlacement { actual: new, retries: off.retries }),
            )
        }),
{
    assert(seq![] + seq![] =~= Seq::<WindowEffect>::empty());
}

/// The layout hub is told a window is fullscreen only for a frame that fills
/// a monitor, and told it no longer is only for one that does not.
pub proof fn law_fullscreen_reports_follow_the_frame(
    w: WindowControl,
    is_displayed: bool,
    new: PixelRect,
    burst: DebounceBurst,
    bfs: bool,
    monitors: Seq<PixelRect>,
    float_monitor: u64,
)
    ensures
        ({
            let effects = moved_spec(w, is_displayed, new, burst, bfs, monitors, float_monitor).1;
            &&& effects.contains(WindowEffect::HubSetFullscreen) ==> bfs
            &&& effects.contains(WindowEffect::HubUnsetFullscreen) ==> !bfs
        }),
{
    let effects = moved_spec(w, is_displayed, new, burst, bfs, monitors, float_monitor).1;
    let (s, tail) = moved_state_spec(w.state, is_displayed, new, burst, bfs, monitors, float_monitor);
    let pre: Seq<WindowEffect> = if w.is_minimized {
        seq![WindowEffect::HubUnminimize]
    } else {
        seq![]
    };
    assert(effects == pre + tail);
    if effects.contains(WindowEffect::HubSetFullscreen) {
        let i = choose|i: int| 0 <= i < effects.len() && effects[i] == WindowEffect::HubSetFullscreen;
        if w.is_minimized {
            assert(tail[i - 1] == effects[i]);
        } else {
            assert(tail[i] == effects[i]);
        }
    }
    if effects.contains(WindowEffect::HubUnsetFullscreen) {
        let i = choose|i: int| 0 <= i < effects.len() && effects[i] == WindowEffect::HubUnsetFullscreen;
        if w.is_minimized {
            assert(tail[i - 1] == effects[i]);
        } else {
            assert(tail[i] == effects[i]);
        }
        if !bfs {
        } else {
            match w.state {
                WindowState::Positioned(PositionedState::Offscreen(off)) => {
                    assert(tail =~= seq![WindowEffect::HubSetFullscreen, WindowEffect::Minimize]);
                },
                _ => {},
            }
        }
    }
}

/// Hiding a window twice leaves it as hiding it once does.
pub proof fn law_hide_settles(w: WindowControl, monitors: Seq<PixelRect>)
    requires
        monitors.len() > 0,
    ensures
        hide_spec(hide_spec(w, monitors).0, monitors).0 == hide_spec(w, monitors).0,
{
}

/// Showing a window as tiled at the target it already has asks for nothing.
pub proof fn law_show_tiling_settles(w: WindowControl, target: PixelRect, now: u64, later: u64)
    ensures
        show_tiling_spec(show_tiling_spec(w, target, now).0, target, later).1.len() == 0,
        show_tiling_spec(show_tiling_spec(w, target, now).0, target, later).0 == show_tiling_spec(
            w,
            target,
            now,
        ).0,
{
}

/// Showing a window as a float at the rectangle it already has asks for
/// nothing.
pub proof fn law_show_float_settles(w: WindowControl, target: PixelRect, now: u64, later: u64)
    ensures
        show_float_spec(show_float_spec(w, target, now).0, target, later).1.len() == 0,
        show_float_spec(show_float_spec(w, target, now).0, target, later).0 == show_float_spec(
            w,
            target,
            now,
        ).0,
{
}

/// Placing a fullscreen window on the same monitor twice asks for nothing the
/// second time.
pub proof fn law_fullscreen_placement_settles(
    w: WindowControl,
    work_area: PixelRect,
    now: u64,
    later: u64,
)
    ensures
        fullscreen_spec(fullscreen_spec(w, work_area, now).0, work_area, later).1.len() == 0,
        fullscreen_spec(fullscreen_spec(w, work_area, now).0, work_area, later).0 == fullscreen_spec(
            w,
            work_area,
            now,
        ).0,
{
}

/// Whether `w` is already placed as a float at `target`.
pub open spec fn float_at(w: WindowControl, target: PixelRect) -> bool {
    w.state matches WindowState::Positioned(PositionedState::Float(fp)) && fp.target == target
}

/// Whether `w` is already placed as a tiled window at `target`.
pub open spec fn tiled_at(w: WindowControl, target: PixelRect) -> bool {
    w.state matches WindowState::Positioned(PositionedState::Tiling(p)) && p.target == target
}

/// Showing a window as a float (outside a move/resize burst) leaves it a
/// float whose target is `target`, restored if the user had minimized it.
/// Its frame is set to `target` exactly when it was not already a float
/// there, and nothing else is asked for; a float moved to a new target is
/// placed at `now`. During a burst nothing changes.
pub proof fn law_show_float_places_the_window(w: WindowControl, target: PixelRect, now: u64)
    ensures
        ({
            let (w2, e) = show_float_spec(w, target, now);
            &&& !w.is_moving ==> {
                &&& w2.state matches WindowState::Positioned(PositionedState::Float(fp2)) && fp2.target == target
                &&& !float_at(w, target) ==> w2.state == WindowState::Positioned(
                    PositionedState::Float(FloatPlacement { target, placed_at: now }),
                )
                &&& float_at(w, target) ==> w2.state == w.state
                &&& e.contains(WindowEffect::SetFrame(target)) <==> !float_at(w, target)
                &&& e.contains(WindowEffect::Unminimize) <==> w.is_minimized
                &&& forall|k: int| 0 <= k < e.len() ==> #[trigger] e[k] == WindowEffect::SetFrame(target)
                    || e[k] == WindowEffect::Unminimize
                &&& !w2.is_minimized
                &&& w2.is_moving == w.is_moving
            }
            &&& w.is_moving ==> w2 == w && e.len() == 0
        }),
{
    let (w2, e) = show_float_spec(w, target, now);
    if !w.is_moving {
        if w.is_minimized {
            assert(e[0] == WindowEffect::Unminimize);
        }
        if !float_at(w, target) {
            assert(e[e.len() - 1] == WindowEffect::SetFrame(target));
        }
    }
}

/// Showing a window as tiled (outside a move/resize burst) leaves it tiled
/// with target `target`, restored if the user had minimized it. Its frame
/// is set to `target` exactly when it was not already tiled there, and then
/// its retry budget starts afresh at `now`; nothing else is asked for.
pub proof fn law_show_tiling_places_the_window(w: WindowControl, target: PixelRect, now: u64)
    ensures
        ({
            let (w2, e) = show_tiling_spec(w, target, now);
            &&& !w.is_moving ==> {
                &&& w2.state matches WindowState::Positioned(PositionedState::Tiling(p2)) && p2.target == target
                &&& !tiled_at(w, target) ==> (w2.state matches WindowState::Positioned(
                    PositionedState::Tiling(p2),
                ) && p2.retries == 0 && p2.placed_at == now)
                &&& tiled_at(w, target) ==> w2.state == w.state
                &&& e.contains(WindowEffect::SetFrame(target)) <==> !tiled_at(w, target)
                &&& e.contains(WindowEffect::Unminimize) <==> w.is_minimized
                &&& forall|k: int| 0 <= k < e.len() ==> #[trigger] e[k] == WindowEffect::SetFrame(target)
                    || e[k] == WindowEffect::Unminimize
                &&& !w2.is_minimized
            }
            &&& w.is_moving ==> w2 == w && e.len() == 0
        }),
{
    let (w2, e) = show_tiling_spec(w, target, now);
    if !w.is_moving {
        if w.is_minimized {
            assert(e[0] == WindowEffect::Unminimize);
        }
        if !tiled_at(w, target) {
            assert(e[e.len() - 1] == WindowEffect::SetFrame(target));
        }
    }
}

/// Hiding a window never sets its frame: a zoomed (borderless fullscreen)
/// window is minimized instead, a positioned one is parked offscreen at
/// the hidden position unless it is already there, and a window in a
/// native fullscreen Space, already minimized by Dome or by the user is
/// left alone.
pub proof fn law_hide_parks_or_minimizes(w: WindowControl, monitors: Seq<PixelRect>)
    requires
        monitors.len() > 0,
    ensures
        ({
            let (w2, e) = hide_spec(w, monitors);
            &&& forall|k: int| 0 <= k < e.len() ==> !(#[trigger] e[k] is SetFrame)
            &&& w.is_minimized ==> w2 == w && e.len() == 0
            &&& !w.is_minimized && w.state is BorderlessFullscreen ==> w2.state
                == WindowState::BorderlessMinimized { retries: 0 } && e == seq![WindowEffect::Minimize]
            &&& !w.is_minimized && (w.state is NativeFullscreen || w.state is BorderlessMinimized) ==> w2
                == w && e.len() == 0
            &&& !w.is_minimized && w.state is Positioned ==> {
                &&& w2.state matches WindowState::Positioned(PositionedState::Offscreen(_))
                &&& e.len() <= 1
                &&& forall|k: int| 0 <= k < e.len() ==> #[trigger] e[k] == WindowEffect::HideAt(
                    hidden_position_spec(monitors).0 as i64,
                    hidden_position_spec(monitors).1 as i64,
                )
            }
        }),
{
}

/// Placing a fullscreen window on a monitor makes a window Dome positions
/// fill the monitor's work area `target` (its frame is set exactly when its
/// target changes), brings a minimized zoomed window back, and leaves
/// windows in fullscreen of their own alone.
pub proof fn law_fullscreen_placement_fills_the_monitor(w: WindowControl, target: PixelRect, now: u64)
    ensures
        ({
            let (w2, e) = fullscreen_spec(w, target, now);
            &&& w.state is Positioned ==> {
                &&& (w2.state matches WindowState::Positioned(PositionedState::Tiling(p2)) && p2.target == target)
                    || (w2.state matches WindowState::Positioned(PositionedState::Float(fp2)) && fp2.target
                    == target)
                &&& e.contains(WindowEffect::SetFrame(target)) <==> !(tiled_at(w, target) || float_at(w, target))
                &&& forall|k: int| 0 <= k < e.len() ==> #[trigger] e[k] == WindowEffect::SetFrame(target)
            }
            &&& w.state is BorderlessMinimized ==> w2.state == WindowState::BorderlessFullscreen && e
                == seq![WindowEffect::Unminimize]
            &&& (w.state is NativeFullscreen || w.state is BorderlessFullscreen) ==> w2 == w && e.len() == 0
            &&& w2.is_minimized == w.is_minimized
        }),
{
    let (w2, e) = fullscreen_spec(w, target, now);
    if w.state is Positioned && !(tiled_at(w, target) || float_at(w, target)) {
        assert(e[0] == WindowEffect::SetFrame(target));
    }
}

/// What an observed frame does, by the window's state: a zoomed window
/// whose frame no longer fills a monitor leaves fullscreen (the layout hub
/// is told) and is parked offscreen until the layout shows it; one still
/// filling it stays as it is. A window leaving native fullscreen likewise
/// tells the hub and is parked. A hidden window that turns zoomed is
/// reported fullscreen and minimized. A float the user dragged to a new
/// frame (a burst after its placement) takes that frame as its target and
/// the hub is told which monitor it is now on. A user-minimized window
/// that shows up is no longer minimized, and the hub hears so first.
pub proof fn law_moved_by_state(
    w: WindowControl,
    is_displayed: bool,
    new: PixelRect,
    burst: DebounceBurst,
    bfs: bool,
    monitors: Seq<PixelRect>,
    float_monitor: u64,
)
    ensures
        ({
            let (w2, e) = moved_spec(w, is_displayed, new, burst, bfs, monitors, float_monitor);
            let parked = WindowState::Positioned(
                PositionedState::Offscreen(OffscreenPlacement { actual: new, retries: 0 }),
            );
            &&& (w.state is BorderlessFullscreen && !bfs) ==> w2.state == parked && e.contains(
                WindowEffect::HubUnsetFullscreen,
            )
            &&& (w.state is BorderlessFullscreen && bfs) ==> w2.state == w.state && !e.contains(
                WindowEffect::HubUnsetFullscreen,
            ) && !e.contains(WindowEffect::HubSetFullscreen)
            &&& (w.state is NativeFullscreen && !bfs) ==> w2.state == parked && e.contains(
                WindowEffect::HubUnsetFullscreen,
            )
            &&& (w.state matches WindowState::Positioned(PositionedState::Offscreen(_)) && bfs) ==> w2.state
                == WindowState::BorderlessMinimized { retries: 0 } && e.contains(WindowEffect::HubSetFullscreen)
                && e.contains(WindowEffect::Minimize)
            &&& w.state matches WindowState::Positioned(PositionedState::Float(fp)) ==> (burst.last
                >= fp.placed_at && new != fp.target && !bfs ==> w2.state == WindowState::Positioned(
                PositionedState::Float(FloatPlacement { target: new, placed_at: fp.placed_at }),
            ) && e.contains(WindowEffect::HubUpdateFloatRect(new, float_monitor)))
            &&& (w.state is BorderlessMinimized && !bfs) ==> w2.state == parked && e.contains(
                WindowEffect::Unminimize,
            ) && e.contains(WindowEffect::HubUnsetFullscreen)
            &&& (w.state is NativeFullscreen && bfs && is_displayed) ==> w2.state
                == WindowState::BorderlessFullscreen && !e.contains(WindowEffect::Minimize)
            &&& (w.state is NativeFullscreen && bfs && !is_displayed) ==> w2.state
                == WindowState::BorderlessMinimized { retries: 0 } && e.contains(WindowEffect::Minimize)
            &&& w.is_minimized ==> e.len() > 0 && e[0] == WindowEffect::HubUnminimize
            &&& !w2.is_minimized
        }),
{
    let (w2, e) = moved_spec(w, is_displayed, new, burst, bfs, monitors, float_monitor);
    let (s, tail) = moved_state_spec(w.state, is_displayed, new, burst, bfs, monitors, float_monitor);
    let pre: Seq<WindowEffect> = if w.is_minimized {
        seq![WindowEffect::HubUnminimize]
    } else {
        seq![]
    };
    assert(e == pre + tail);
    if tail.len() > 0 {
        assert(e[pre.len() as int] == tail[0]);
    }
    if tail.len() > 1 {
        assert(e[pre.len() as int + 1] == tail[1]);
    }
    if w.is_minimized {
        assert(e[0] == WindowEffect::HubUnminimize);
    }
    if w.state is BorderlessFullscreen && bfs {
        assert(tail.len() == 0);
        assert(e == pre);
    }
    if w.state is NativeFullscreen && bfs && is_displayed {
        assert(e == pre);
    }
    if w.state is BorderlessMinimized && !bfs {
        assert(e[e.len() - 1] == WindowEffect::HubUnsetFullscreen);
    }
}

} // verus!
