use vstd::prelude::*;

verus! {

/// The name of the mode that is active until another one is switched to.
pub const BASE_MODE: &'static str = "base";

/// A set of modifier keys, one bit each.
#[derive(Clone, Copy, Debug, PartialEq, Eq, Structural, Hash)]
pub struct Modifiers {
    pub bits: u8,
}

impl Modifiers {
    pub fn empty() -> (r: Modifiers)
        ensures
            r.bits == 0,
    {
        Modifiers { bits: 0 }
    }

    pub fn shift() -> (r: Modifiers)
        ensures
            r.bits == 1,
    {
        Modifiers { bits: 1 }
    }

    pub fn ctrl() -> (r: Modifiers)
        ensures
            r.bits == 2,
    {
        Modifiers { bits: 2 }
    }

    pub fn alt() -> (r: Modifiers)
        ensures
            r.bits == 4,
    {
        Modifiers { bits: 4 }
    }

    pub fn meta() -> (r: Modifiers)
        ensures
            r.bits == 8,
    {
        Modifiers { bits: 8 }
    }

    /// Both sets of modifiers together.
    pub fn union(self, other: Modifiers) -> (r: Modifiers)
        ensures
            r.bits == self.bits | other.bits,
    {
        Modifiers { bits: self.bits | other.bits }
    }
}

/// A key pressed with a set of modifiers.
#[derive(Clone, Debug)]
pub struct Keystroke {
    pub key: String,
    pub modifiers: Modifiers,
}

/// A keystroke as a value: the key's characters and the modifier bits.
pub type KeystrokeView = (Seq<char>, u8);

impl View for Keystroke {
    type V = KeystrokeView;

    open spec fn view(&self) -> KeystrokeView {
        (self.key@, self.modifiers.bits)
    }
}

impl Keystroke {
    pub fn new(key: &str, modifiers: Modifiers) -> (r: Keystroke)
        ensures
            r@ == (key@, modifiers.bits),
    {
        Keystroke { key: key.to_owned(), modifiers }
    }

    /// Whether both keystrokes are the same key with the same modifiers.
    pub fn same_as(&self, other: &Keystroke) -> (r: bool)
        ensures
            r == (self@ == other@),
    {
        self.modifiers.bits == other.modifiers.bits && self.key == other.key
    }

    pub fn copy(&self) -> (r: Keystroke)
        ensures
            r@ == self@,
    {
        Keystroke { key: self.key.clone(), modifiers: self.modifiers }
    }
}

/// The keystrokes bound in one mode.
#[derive(Debug)]
pub struct ModeKeys {
    pub name: String,
    pub keys: Vec<Keystroke>,
}

/// The views of the keystrokes of `keys`.
pub open spec fn key_set(keys: Seq<Keystroke>) -> Set<KeystrokeView> {
    Set::new(|v: KeystrokeView| exists|j: int| 0 <= j < keys.len() && (#[trigger] keys[j])@ == v)
}

pub open spec fn has_mode(s: Seq<ModeKeys>, name: Seq<char>) -> bool {
    exists|i: int| 0 <= i < s.len() && (#[trigger] s[i]).name@ == name
}

/// No two modes share a name.
pub open spec fn names_unique(s: Seq<ModeKeys>) -> bool {
    forall|i: int, j: int|
        0 <= i < s.len() && 0 <= j < s.len() && i != j ==> (#[trigger] s[i]).name@ != (
        #[trigger] s[j]).name@
}

/// The modes as a map from mode name to bound keystrokes.
pub open spec fn modes_map(s: Seq<ModeKeys>) -> Map<Seq<char>, Set<KeystrokeView>> {
    Map::new(
        |name: Seq<char>| has_mode(s, name),
        |name: Seq<char>|
            key_set(s[choose|i: int| 0 <= i < s.len() && (#[trigger] s[i]).name@ == name].keys@),
    )
}

proof fn lemma_mode_lookup(s: Seq<ModeKeys>, i: int)
    requires
        names_unique(s),
        0 <= i < s.len(),
    ensures
        modes_map(s).contains_key(s[i].name@),
        modes_map(s)[s[i].name@] == key_set(s[i].keys@),
{
    let name = s[i].name@;
    assert(has_mode(s, name));
    let j = choose|j: int| 0 <= j < s.len() && (#[trigger] s[j]).name@ == name;
    assert(j == i);
}

/// The index of the mode named `name` in `modes`, if there is one.
fn find_mode(modes: &Vec<ModeKeys>, name: &str) -> (r: Option<usize>)
    ensures
        r matches Some(i) ==> i < modes@.len() && modes@[i as int].name@ == name@,
        r is None ==> !has_mode(modes@, name@),
{
    let mut i: usize = 0;
    while i < modes.len()
        invariant
            i <= modes@.len(),
            forall|j: int| 0 <= j < i ==> (#[trigger] modes@[j]).name@ != name@,
        decreases modes@.len() - i,
    {
        if crate::text::str_eq(modes[i].name.as_str(), name) {
            return Some(i);
        }
        i = i + 1;
    }
    None
}

/// Whether `keys` holds a keystroke equal to `keystroke`.
fn contains_keystroke(keys: &Vec<Keystroke>, keystroke: &Keystroke) -> (r: bool)
    ensures
        r == key_set(keys@).contains(keystroke@),
{
    let mut j: usize = 0;
    while j < keys.len()
        invariant
            j <= keys@.len(),
            forall|a: int| 0 <= a < j ==> (#[trigger] keys@[a])@ != keystroke@,
        decreases keys@.len() - j,
    {
        if keys[j].same_as(keystroke) {
            assert(key_set(keys@).contains(keystroke@));
            return true;
        }
        j = j + 1;
    }
    false
}

fn copy_keys(keys: &Vec<Keystroke>) -> (r: Vec<Keystroke>)
    ensures
        r@.len() == keys@.len(),
        forall|j: int| 0 <= j < keys@.len() ==> (#[trigger] r@[j])@ == keys@[j]@,
        key_set(r@) == key_set(keys@),
{
    let mut out: Vec<Keystroke> = Vec::new();
    let mut j: usize = 0;
    while j < keys.len()
        invariant
            j <= keys@.len(),
            out@.len() == j,
            forall|a: int| 0 <= a < j ==> (#[trigger] out@[a])@ == keys@[a]@,
        decreases keys@.len() - j,
    {
        out.push(keys[j].copy());
        j = j + 1;
    }
    assert(key_set(out@) =~= key_set(keys@)) by {
        assert forall|v: KeystrokeView| key_set(keys@).contains(v) implies key_set(out@).contains(v) by {
            let j = choose|j: int| 0 <= j < keys@.len() && (#[trigger] keys@[j])@ == v;
            assert(out@[j]@ == v);
        }
        assert forall|v: KeystrokeView| key_set(out@).contains(v) implies key_set(keys@).contains(v) by {
            let j = choose|j: int| 0 <= j < out@.len() && (#[trigger] out@[j])@ == v;
            assert(keys@[j]@ == v);
        }
    }
    out
}

/// A deep copy of the modes.
fn copy_modes(modes: &Vec<ModeKeys>) -> (r: Vec<ModeKeys>)
    requires
        names_unique(modes@),
    ensures
        names_unique(r@),
        modes_map(r@) == modes_map(modes@),
{
    let mut out: Vec<ModeKeys> = Vec::new();
    let mut i: usize = 0;
    while i < modes.len()
        invariant
            i <= modes@.len(),
            out@.len() == i,
            forall|a: int|
                0 <= a < i ==> (#[trigger] out@[a]).name@ == modes@[a].name@ && key_set(out@[a].keys@)
                    == key_set(modes@[a].keys@),
        decreases modes@.len() - i,
    {
        let m = &modes[i];
        out.push(ModeKeys { name: m.name.clone(), keys: copy_keys(&m.keys) });
        i = i + 1;
    }
    proof {
        let s = out@;
        let t = modes@;
        assert(names_unique(s)) by {
            assert forall|a: int, b: int|
                0 <= a < s.len() && 0 <= b < s.len() && a != b implies (#[trigger] s[a]).name@ != (
            #[trigger] s[b]).name@ by {
                assert(t[a].name@ != t[b].name@);
            }
        }
        assert forall|name: Seq<char>| #[trigger]
            modes_map(s).contains_key(name) == modes_map(t).contains_key(name) by {
            if has_mode(s, name) {
                let a = choose|a: int| 0 <= a < s.len() && (#[trigger] s[a]).name@ == name;
                assert(t[a].name@ == name);
            }
            if has_mode(t, name) {
                let a = choose|a: int| 0 <= a < t.len() && (#[trigger] t[a]).name@ == name;
                assert(s[a].name@ == name);
            }
        }
        assert forall|name: Seq<char>| #[trigger]
            modes_map(s).contains_key(name) implies modes_map(s)[name] == modes_map(t)[name] by {
            let a = choose|a: int| 0 <= a < s.len() && (#[trigger] s[a]).name@ == name;
            lemma_mode_lookup(s, a);
            lemma_mode_lookup(t, a);
        }
        assert(modes_map(s) =~= modes_map(t));
    }
    out
}

/// The keystrokes bound in each mode, without what they run.
#[derive(Debug)]
pub struct ModalKeymaps {
    modes: Vec<ModeKeys>,
}

impl View for ModalKeymaps {
    type V = Map<Seq<char>, Set<KeystrokeView>>;

    closed spec fn view(&self) -> Map<Seq<char>, Set<KeystrokeView>> {
        modes_map(self.modes@)
    }
}

impl ModalKeymaps {
    pub closed spec fn wf(&self) -> bool {
        names_unique(self.modes@)
    }

    pub fn new() -> (r: ModalKeymaps)
        ensures
            r.wf(),
            r@ == Map::<Seq<char>, Set<KeystrokeView>>::empty(),
    {
        let r = ModalKeymaps { modes: Vec::new() };
        assert(r@ =~= Map::<Seq<char>, Set<KeystrokeView>>::empty());
        r
    }

    /// Adds `keystroke` to the bindings of `mode`, creating the mode if it
    /// has none yet.
    pub fn bind(&mut self, mode: &str, keystroke: Keystroke)
        requires
            old(self).wf(),
        ensures
            final(self).wf(),
            final(self)@ == old(self)@.insert(
                mode@,
                if old(self)@.contains_key(mode@) {
                    old(self)@[mode@].insert(keystroke@)
                } else {
                    set![keystroke@]
                },
            ),
    {
        self.add_mode(mode);
        let ghost mid = self.modes@;
        assert(modes_map(mid).contains_key(mode@));
        assert(has_mode(mid, mode@));
        let i = match find_mode(&self.modes, mode) {
            Some(i) => i,
            None => {
                return;
            },
        };
        proof {
            lemma_mode_lookup(mid, i as int);
        }
        let mut entry = ModeKeys { name: String::new(), keys: Vec::new() };
        std::mem::swap(&mut entry, &mut self.modes[i]);
        let ghost before = entry.keys@;
        entry.keys.push(keystroke);
        proof {
            assert(key_set(entry.keys@) =~= key_set(before).insert(entry.keys@.last()@)) by {
                assert forall|v: KeystrokeView| #[trigger] key_set(entry.keys@).contains(v) implies key_set(before).insert(entry.keys@.last()@).contains(v) by {
                    let j = choose|j: int| 0 <= j < entry.keys@.len() && (#[trigger] entry.keys@[j])@ == v;
                    if j < before.len() {
                        assert(before[j]@ == v);
                    }
                }
                assert forall|v: KeystrokeView| #[trigger] key_set(before).insert(entry.keys@.last()@).contains(v) implies key_set(entry.keys@).contains(v) by {
                    if v != entry.keys@.last()@ {
                        let j = choose|j: int| 0 <= j < before.len() && (#[trigger] before[j])@ == v;
                        assert(entry.keys@[j]@ == v);
                    } else {
                        assert(entry.keys@[entry.keys@.len() - 1]@ == v);
                    }
                }
            }
        }
        self.modes.set(i, entry);
        proof {
            let s = self.modes@;
            assert(names_unique(s)) by {
                assert forall|a: int, b: int|
                    0 <= a < s.len() && 0 <= b < s.len() && a != b implies (#[trigger] s[a]).name@
                    != (#[trigger] s[b]).name@ by {
                    assert(s[a].name@ == mid[a].name@ && s[b].name@ == mid[b].name@);
                }
            }
            let expected = old(self)@.insert(
                mode@,
                if old(self)@.contains_key(mode@) {
                    old(self)@[mode@].insert(keystroke@)
                } else {
                    set![keystroke@]
                },
            );
            assert forall|name: Seq<char>| #[trigger]
                modes_map(s).contains_key(name) == modes_map(mid).contains_key(name) by {
                if has_mode(s, name) {
                    let a = choose|a: int| 0 <= a < s.len() && (#[trigger] s[a]).name@ == name;
                    assert(mid[a].name@ == name);
                }
                if has_mode(mid, name) {
                    let a = choose|a: int| 0 <= a < mid.len() && (#[trigger] mid[a]).name@ == name;
                    assert(s[a].name@ == name);
                }
            }
            assert forall|name: Seq<char>| #[trigger]
                modes_map(s).contains_key(name) implies modes_map(s)[name] == expected[name] by {
                let a = choose|a: int| 0 <= a < s.len() && (#[trigger] s[a]).name@ == name;
                lemma_mode_lookup(s, a);
                lemma_mode_lookup(mid, a);
            }
            assert(modes_map(s) =~= expected);
        }
    }

    /// Makes sure `mode` exists, with no bindings if it is new.
    pub fn add_mode(&mut self, mode: &str)
        requires
            old(self).wf(),
        ensures
            final(self).wf(),
            final(self)@ == (if old(self)@.contains_key(mode@) {
                old(self)@
            } else {
                old(self)@.insert(mode@, Set::empty())
            }),
    {
        match find_mode(&self.modes, mode) {
            Some(i) => {
                proof {
                    lemma_mode_lookup(self.modes@, i as int);
                }
            },
            None => {
                let ghost old_s = self.modes@;
                self.modes.push(ModeKeys { name: mode.to_owned(), keys: Vec::new() });
                proof {
                    let s = self.modes@;
                    assert(key_set(s[s.len() - 1].keys@) =~= Set::<KeystrokeView>::empty());
                    assert(names_unique(s)) by {
                        assert forall|a: int, b: int|
                            0 <= a < s.len() && 0 <= b < s.len() && a != b implies (
                        #[trigger] s[a]).name@ != (#[trigger] s[b]).name@ by {
                            if a < old_s.len() {
                                assert(s[a] == old_s[a]);
                            }
                            if b < old_s.len() {
                                assert(s[b] == old_s[b]);
                            }
                        }
                    }
                    let expected = old_s;
                    assert forall|name: Seq<char>| #[trigger]
                        modes_map(s).contains_key(name) == modes_map(old_s).insert(
                            mode@,
                            Set::empty(),
                        ).contains_key(name) by {
                        if has_mode(s, name) {
                            let a = choose|a: int| 0 <= a < s.len() && (#[trigger] s[a]).name@ == name;
                            if a < old_s.len() {
                                assert(old_s[a].name@ == name);
                            }
                        }
                        if has_mode(old_s, name) {
                            let a = choose|a: int| 0 <= a < old_s.len() && (#[trigger] old_s[a]).name@ == name;
                            assert(s[a].name@ == name);
                        }
                        if name == mode@ {
                            assert(s[s.len() - 1].name@ == name);
                        }
                    }
                    assert forall|name: Seq<char>| #[trigger]
                        modes_map(s).contains_key(name) implies modes_map(s)[name] == modes_map(
                        old_s,
                    ).insert(mode@, Set::empty())[name] by {
                        let a = choose|a: int| 0 <= a < s.len() && (#[trigger] s[a]).name@ == name;
                        lemma_mode_lookup(s, a);
                        if a < old_s.len() {
                            assert(old_s[a] == s[a]);
                            lemma_mode_lookup(old_s, a);
                        }
                    }
                    assert(modes_map(s) =~= modes_map(old_s).insert(mode@, Set::empty()));
                }
            },
        }
    }
}

/// The keymap as the keyboard thread sees it: the bound keystrokes of each
/// mode, without their functions, and the active mode.
#[derive(Debug)]
pub struct KeymapView {
    bound: Vec<ModeKeys>,
    active_mode: String,
}

/// A keymap view as values: bound keystrokes per mode, and the active mode.
pub type KeymapModel = (Map<Seq<char>, Set<KeystrokeView>>, Seq<char>);

impl View for KeymapView {
    type V = KeymapModel;

    closed spec fn view(&self) -> KeymapModel {
        (modes_map(self.bound@), self.active_mode@)
    }
}

/// The mode whose binding a keystroke resolves to: the active mode when it
/// binds the keystroke; the base mode when the active mode has gone missing
/// and the base mode binds it; otherwise none.
pub open spec fn resolve_spec(m: KeymapModel, ks: KeystrokeView) -> Option<Seq<char>> {
    let (bound, active) = m;
    if bound.contains_key(active) {
        if bound[active].contains(ks) {
            Some(active)
        } else {
            None
        }
    } else if bound.contains_key(BASE_MODE@) && bound[BASE_MODE@].contains(ks) {
        Some(BASE_MODE@)
    } else {
        None
    }
}

/// Switching to a mode that has bindings makes it active; switching to an
/// unknown mode stays in the current one.
pub open spec fn switch_mode_spec(m: KeymapModel, name: Seq<char>) -> KeymapModel {
    if m.0.contains_key(name) {
        (m.0, name)
    } else {
        m
    }
}

impl KeymapView {
    pub closed spec fn wf(&self) -> bool {
        names_unique(self.bound@)
    }

    pub fn new() -> (r: KeymapView)
        ensures
            r.wf(),
            r@ == (Map::<Seq<char>, Set<KeystrokeView>>::empty(), BASE_MODE@),
    {
        let r = KeymapView { bound: Vec::new(), active_mode: BASE_MODE.to_owned() };
        assert(modes_map(r.bound@) =~= Map::<Seq<char>, Set<KeystrokeView>>::empty());
        r
    }

    /// The mode whose binding `keystroke` triggers, if any.
    pub fn resolve(&self, keystroke: &Keystroke) -> (r: Option<String>)
        requires
            self.wf(),
        ensures
            r matches Some(name) ==> resolve_spec(self@, keystroke@) == Some(name@),
            r is None ==> resolve_spec(self@, keystroke@) is None,
    {
        let i = match find_mode(&self.bound, self.active_mode.as_str()) {
            Some(i) => i,
            None => {
                // The active mode is missing from the keymaps: fall back
                // to the base mode.
                match find_mode(&self.bound, BASE_MODE) {
                    Some(b) => b,
                    None => {
                        return None;
                    },
                }
            },
        };
        proof {
            lemma_mode_lookup(self.bound@, i as int);
        }
        if contains_keystroke(&self.bound[i].keys, keystroke) {
            Some(self.bound[i].name.clone())
        } else {
            None
        }
    }

    /// Activates mode `name` if it has bindings, else stays in the current mode.
    pub fn switch_mode(&mut self, name: &str)
        requires
            old(self).wf(),
        ensures
            final(self).wf(),
            final(self)@ == switch_mode_spec(old(self)@, name@),
    {
        match find_mode(&self.bound, name) {
            Some(i) => {
                proof {
                    lemma_mode_lookup(self.bound@, i as int);
                }
                self.active_mode = name.to_owned();
            },
            None => {},
        }
    }

    /// Replaces the bindings and keeps the active mode. If the new keymaps
    /// drop it, `resolve` falls back to the base mode.
    pub fn update_keymaps(&mut self, keymaps: &ModalKeymaps)
        requires
            old(self).wf(),
            keymaps.wf(),
        ensures
            final(self).wf(),
            final(self)@ == (keymaps@, old(self)@.1),
    {
        self.bound = copy_modes(&keymaps.modes);
    }

    /// A copy of this view.
    pub fn snapshot(&self) -> (r: KeymapView)
        requires
            self.wf(),
        ensures
            r.wf(),
            r@ == self@,
    {
        KeymapView { bound: copy_modes(&self.bound), active_mode: self.active_mode.clone() }
    }
}

#[verifier::external_type_specification]
#[verifier::external_body]
#[verifier::reject_recursive_types(T)]
pub struct ExSender<T>(std::sync::mpsc::Sender<T>);

/// The keymap views handed to `std::sync::mpsc::Sender::send` through this
/// sender, in order: the channel's side of what a publisher streams.
pub uninterp spec fn sent_views(
    tx: std::sync::mpsc::Sender<KeymapView>,
) -> Seq<(Map<Seq<char>, Set<KeystrokeView>>, Seq<char>)>;

/// Hands `view` to `std::sync::mpsc::Sender::send`. The claim is only that
/// the view is handed over once, appended to `sent_views`; a send that fails
/// because the receiver is gone is ignored, and nothing is stated of what a
/// receiver gets.
#[verifier::external_body]
fn publish(tx: &mut std::sync::mpsc::Sender<KeymapView>, view: KeymapView)
    ensures
        sent_views(*final(tx)) == sent_views(*old(tx)).push(view@),
{
    let _ = tx.send(view);
}

/// Streams a copy of the keymap view on each change, which keeps the
/// keyboard thread's keypress path lock-free.
pub struct KeymapPublisher {
    view: KeymapView,
    tx: std::sync::mpsc::Sender<KeymapView>,
}

impl KeymapPublisher {
    pub closed spec fn current(&self) -> KeymapModel {
        self.view@
    }

    pub closed spec fn wf(&self) -> bool {
        self.view.wf()
    }

    /// The views this publisher's channel has been handed so far.
    pub closed spec fn sent(&self) -> Seq<KeymapModel> {
        sent_views(self.tx)
    }

    pub fn new(view: KeymapView, tx: std::sync::mpsc::Sender<KeymapView>) -> (r: KeymapPublisher)
        requires
            view.wf(),
        ensures
            r.wf(),
            r.current() == view@,
            r.sent() == sent_views(tx),
    {
        KeymapPublisher { view, tx }
    }

    /// Switches mode as `KeymapView::switch_mode` does and sends a copy of
    /// the resulting view.
    pub fn switch_mode(&mut self, name: &str)
        requires
            old(self).wf(),
        ensures
            final(self).wf(),
            final(self).current() == switch_mode_spec(old(self).current(), name@),
            final(self).sent() == old(self).sent().push(final(self).current()),
    {
        self.view.switch_mode(name);
        let copy = self.view.snapshot();
        publish(&mut self.tx, copy);
    }

    /// Replaces the bindings as `KeymapView::update_keymaps` does and sends a
    /// copy of the resulting view.
    pub fn update_keymaps(&mut self, keymaps: &ModalKeymaps)
        requires
            old(self).wf(),
            keymaps.wf(),
        ensures
            final(self).wf(),
            final(self).current() == (keymaps@, old(self).current().1),
            final(self).sent() == old(self).sent().push(final(self).current()),
    {
        self.view.update_keymaps(keymaps);
        let copy = self.view.snapshot();
        publish(&mut self.tx, copy);
    }
}

/// A keystroke resolves only to a mode that binds it.
pub proof fn law_resolve_names_a_binding_mode(m: KeymapModel, ks: KeystrokeView)
    ensures
        resolve_spec(m, ks) matches Some(name) ==> m.0.contains_key(name) && m.0[name].contains(ks),
{
}

/// In a mode that exists, only its own bindings count: a keystroke bound in
/// the base mode alone does not resolve there.
pub proof fn law_active_mode_ignores_other_bindings(m: KeymapModel, ks: KeystrokeView)
    requires
        m.0.contains_key(m.1),
        !m.0[m.1].contains(ks),
    ensures
        resolve_spec(m, ks) is None,
{
}

/// Switching to a mode without bindings leaves the view as it was.
pub proof fn law_unknown_mode_keeps_the_view(m: KeymapModel, name: Seq<char>)
    requires
        !m.0.contains_key(name),
    ensures
        switch_mode_spec(m, name) == m,
{
}

/// After switching to a bound mode, keystrokes resolve against that mode.
pub proof fn law_switched_mode_resolves(m: KeymapModel, name: Seq<char>, ks: KeystrokeView)
    requires
        m.0.contains_key(name),
    ensures
        resolve_spec(switch_mode_spec(m, name), ks) == (if m.0[name].contains(ks) {
            Some(name)
        } else {
            None
        }),
{
}

/// Reloading the keymaps keeps the active mode: while the new keymaps still
/// have it, keystrokes resolve against its new bindings; once they drop it,
/// against the base mode's.
pub proof fn law_reload_keeps_active_mode(
    m: KeymapModel,
    keymaps: Map<Seq<char>, Set<KeystrokeView>>,
    ks: KeystrokeView,
)
    ensures
        keymaps.contains_key(m.1) ==> resolve_spec((keymaps, m.1), ks) == (if keymaps[m.1].contains(
            ks,
        ) {
            Some(m.1)
        } else {
            None
        }),
        !keymaps.contains_key(m.1) ==> resolve_spec((keymaps, m.1), ks) == (if keymaps.contains_key(
            BASE_MODE@,
        ) && keymaps[BASE_MODE@].contains(ks) {
            Some(BASE_MODE@)
        } else {
            None
        }),
{
}

} // verus!
