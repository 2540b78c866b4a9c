//! Verified window-management logic of the Dome tiling window manager.
//!
//! - `geometry`: integer screen rectangles and clipping to bounds.
//! - `placement`: the retry and drift budgets that enforce a window's
//!   target frame, and where a window is parked when it is hidden.
//! - `window_state`: the per-window placement state machine, which turns
//!   observations and layout requests into effects on the window.
//! - `registry`, `monitor`: the managed windows and the monitors, each
//!   viewed as a map.
//! - `reconcile`: which tracked windows leave, are refreshed or are added
//!   after the window server is enumerated.
//! - `rejection_log`: which rejected windows are worth logging again.
//! - `layout`: placements per monitor, what to hide and the stacking order.
//! - `decoration`: layout states, border colors and window rules.
//! - `keymap`: the modal keymap view and its publisher.
//! - `environ`: the environment handed to spawned programs.
//! - `text`: byte and string comparison.

pub mod text;
pub mod geometry;
pub mod placement;
pub mod window_state;
pub mod rejection_log;
pub mod keymap;
pub mod environ;
pub mod reconcile;
pub mod registry;
pub mod decoration;
pub mod layout;
pub mod monitor;
