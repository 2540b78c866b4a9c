use std::collections::HashMap;

use dome::keymap::{KeymapPublisher, KeymapView, Keystroke, ModalKeymaps, Modifiers, BASE_MODE};

fn km(key: &str, mods: Modifiers) -> Keystroke {
    Keystroke { key: key.to_string(), modifiers: mods }
}

fn make_keymaps(base: Vec<Keystroke>, modes: Vec<(&str, Vec<Keystroke>)>) -> ModalKeymaps {
    let mut all: HashMap<String, Vec<Keystroke>> = HashMap::new();
    all.insert(BASE_MODE.to_string(), base);
    for (name, keys) in modes {
        all.insert(name.to_string(), keys);
    }
    let mut keymaps = ModalKeymaps::new();
    for (name, keys) in all {
        keymaps.add_mode(&name);
        for k in keys {
            keymaps.bind(&name, k);
        }
    }
    keymaps
}

fn view_with(keymaps: &ModalKeymaps) -> KeymapView {
    let mut view = KeymapView::new();
    view.update_keymaps(keymaps);
    view
}

#[test]
fn resolve_in_base_mode() {
    let cmd_h = km("h", Modifiers::meta());
    let cmd_j = km("j", Modifiers::meta());
    let view = view_with(&make_keymaps(vec![cmd_h.clone()], vec![]));
    assert_eq!(view.resolve(&cmd_h).as_deref(), Some(BASE_MODE));
    assert!(view.resolve(&cmd_j).is_none());
}

#[test]
fn resolve_in_custom_mode_ignores_base_bindings() {
    let cmd_h = km("h", Modifiers::meta());
    let h = km("h", Modifiers::empty());
    let keymaps = make_keymaps(vec![cmd_h.clone()], vec![("resize", vec![h.clone()])]);
    let mut view = view_with(&keymaps);
    view.switch_mode("resize");

    assert_eq!(view.resolve(&h).as_deref(), Some("resize"));
    assert!(view.resolve(&cmd_h).is_none());
}

#[test]
fn switch_to_unknown_mode_stays_in_current_mode() {
    let cmd_h = km("h", Modifiers::meta());
    let h = km("h", Modifiers::empty());
    let keymaps = make_keymaps(vec![cmd_h.clone()], vec![("resize", vec![h.clone()])]);
    let mut view = view_with(&keymaps);
    view.switch_mode("resize");
    view.switch_mode("nonexistent");

    assert_eq!(view.resolve(&h).as_deref(), Some("resize"));
    assert!(view.resolve(&cmd_h).is_none());
}

#[test]
fn update_keymaps_preserves_active_mode_when_still_present() {
    let h = km("h", Modifiers::empty());
    let j = km("j", Modifiers::empty());
    let keymaps = make_keymaps(vec![], vec![("resize", vec![h.clone()])]);
    let mut view = view_with(&keymaps);
    view.switch_mode("resize");

    view.update_keymaps(&make_keymaps(vec![], vec![("resize", vec![j.clone()])]));
    assert_eq!(view.resolve(&j).as_deref(), Some("resize"));
    assert!(view.resolve(&h).is_none());
}

#[test]
fn resolve_falls_back_to_base_when_active_mode_missing() {
    let cmd_h = km("h", Modifiers::meta());
    let keymaps = make_keymaps(vec![cmd_h.clone()], vec![("resize", vec![])]);
    let mut view = view_with(&keymaps);
    view.switch_mode("resize");

    view.update_keymaps(&make_keymaps(vec![cmd_h.clone()], vec![]));
    assert_eq!(view.resolve(&cmd_h).as_deref(), Some(BASE_MODE));
}

#[test]
fn keymap_publisher_streams_a_copy_on_each_change() {
    let h = km("h", Modifiers::empty());
    let cmd_h = km("h", Modifiers::meta());
    let keymaps = make_keymaps(vec![cmd_h.clone()], vec![("resize", vec![h.clone()])]);
    let (tx, rx) = std::sync::mpsc::channel();
    let mut publisher = KeymapPublisher::new(KeymapView::new(), tx);

    publisher.update_keymaps(&keymaps);
    rx.recv().unwrap();
    publisher.switch_mode("resize");
    assert_eq!(rx.recv().unwrap().resolve(&h).as_deref(), Some("resize"));

    // active_mode stays "resize" but no longer exists, so resolve falls back to base.
    publisher.update_keymaps(&make_keymaps(vec![cmd_h.clone()], vec![]));
    assert_eq!(rx.recv().unwrap().resolve(&cmd_h).as_deref(), Some(BASE_MODE));
}

#[test]
fn a_new_view_resolves_nothing() {
    let view = KeymapView::new();
    assert!(view.resolve(&km("h", Modifiers::meta())).is_none());
}

#[test]
fn modifiers_tell_keystrokes_apart() {
    let keymaps = make_keymaps(vec![km("h", Modifiers::meta().union(Modifiers::shift()))], vec![]);
    let view = view_with(&keymaps);
    assert!(view.resolve(&km("h", Modifiers::meta())).is_none());
    assert_eq!(
        view.resolve(&km("h", Modifiers::shift().union(Modifiers::meta()))).as_deref(),
        Some(BASE_MODE)
    );
}

#[test]
fn binding_twice_keeps_one_binding() {
    let mut keymaps = ModalKeymaps::new();
    keymaps.bind("resize", km("l", Modifiers::empty()));
    keymaps.bind("resize", km("l", Modifiers::empty()));
    let mut view = view_with(&keymaps);
    view.switch_mode("resize");
    assert_eq!(view.resolve(&km("l", Modifiers::empty())).as_deref(), Some("resize"));
}
