# dome

The window-management logic of the Dome tiling window manager, written in
Verus: every function in `src/` that does its own work carries a contract that
Verus proves (the one call into std's channel is trusted, and says so), and
the laws that relate several functions (what a placement keeps, what a
registry update undoes, what a keymap reload preserves) stand there as
public proof functions.

- `src/` is the verified library; `src/lib.rs` lists its modules.
- `tests/` runs the library on concrete values.
- `app/` is the ordinary Rust around it: the command line, the clock and
  the environment, the floating-point pointer and bar geometry, and the
  code that carries out the library's placement effects against a window
  and a layout hub.
