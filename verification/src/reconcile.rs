use vstd::prelude::*;

use crate::geometry::PixelRect;
use crate::rejection_log::{record_spec, RejectionLogFilter, RejectionReason};

verus! {

/// What the accessibility API reports about a window that decides whether
/// Dome can manage it.
#[derive(Clone, Copy, Debug, PartialEq, Eq, Structural)]
pub struct WindowTraits {
    pub has_title: bool,
    pub role_is_window: bool,
    pub subrole_is_standard: bool,
    pub is_root: bool,
    pub position_settable: bool,
    pub size_settable: bool,
    pub main_settable: bool,
    pub is_minimized: bool,
}

/// The first reason, in the order checked, that keeps a window unmanaged.
pub open spec fn rejection_spec(t: WindowTraits) -> Option<RejectionReason> {
    if !t.has_title {
        Some(RejectionReason::NoTitle)
    } else if !t.role_is_window {
        Some(RejectionReason::Role)
    } else if !t.subrole_is_standard {
        Some(RejectionReason::Subrole)
    } else if !t.is_root {
        Some(RejectionReason::NotRoot)
    } else if !t.position_settable {
        Some(RejectionReason::PositionNotSettable)
    } else if !t.size_settable {
        Some(RejectionReason::SizeNotSettable)
    } else if !t.main_settable {
        Some(RejectionReason::MainNotSettable)
    } else if t.is_minimized {
        Some(RejectionReason::Minimized)
    } else {
        None
    }
}

/// Why Dome cannot manage a window, or `None` when it can: it needs a
/// title, the window role with the standard subrole, to be a root window
/// with settable position, size and main attribute, and not be minimized.
pub fn check_unmanageable(t: &WindowTraits) -> (r: Option<RejectionReason>)
    ensures
        r == rejection_spec(*t),
{
    if !t.has_title {
        return Some(RejectionReason::NoTitle);
    }
    if !t.role_is_window {
        return Some(RejectionReason::Role);
    }
    if !t.subrole_is_standard {
        return Some(RejectionReason::Subrole);
    }
    if !t.is_root {
        return Some(RejectionReason::NotRoot);
    }
    if !t.position_settable {
        return Some(RejectionReason::PositionNotSettable);
    }
    if !t.size_settable {
        return Some(RejectionReason::SizeNotSettable);
    }
    if !t.main_settable {
        return Some(RejectionReason::MainNotSettable);
    }
    if t.is_minimized {
        return Some(RejectionReason::Minimized);
    }
    None
}

/// Whether Dome can manage a window with these traits.
pub fn is_manageable(t: &WindowTraits) -> (r: bool)
    ensures
        r == (rejection_spec(*t) is None),
        r == (t.has_title && t.role_is_window && t.subrole_is_standard && t.is_root
            && t.position_settable && t.size_settable && t.main_settable && !t.is_minimized),
{
    check_unmanageable(t).is_none()
}

/// What a reconcile pass learned about a window Dome already tracks.
#[derive(Clone, Copy, Debug, PartialEq, Eq, Structural)]
pub struct TrackedFacts {
    pub cg_id: u32,
    /// Its accessibility handle still answers.
    pub is_valid: bool,
    /// Minimized by the user, as Dome recorded.
    pub minimized_by_user: bool,
    /// Minimized by Dome as a borderless-fullscreen window of an inactive workspace.
    pub minimized_by_dome: bool,
    /// Dome has it in a native fullscreen Space.
    pub tracked_native_fullscreen: bool,
    /// The accessibility API reports it minimized.
    pub reports_minimized: bool,
    /// The accessibility API reports it in native fullscreen.
    pub reports_native_fullscreen: bool,
    /// Its frame, when both position and size could be read.
    pub frame: Option<PixelRect>,
}

/// What to do about a known window.
#[derive(Clone, Copy, Debug, PartialEq, Eq, Structural)]
pub enum TrackedAction {
    /// Nothing changed that this pass acts on.
    Keep,
    /// The window is gone.
    Remove,
    /// The user minimized it.
    Minimize,
    EnterNativeFullscreen,
    /// It left native fullscreen and now has this frame.
    ExitNativeFullscreen(PixelRect),
}

/// The decision for one known window: whether its accessibility handle is
/// to be replaced by a fresh one, and what to do about it.
#[derive(Clone, Copy, Debug, PartialEq, Eq, Structural)]
pub struct TrackedDecision {
    pub refresh: bool,
    pub action: TrackedAction,
}

/// What happens to a known window, given whether the app still lists it.
pub open spec fn tracked_spec(f: TrackedFacts, listed: bool) -> TrackedDecision {
    if !f.is_valid && !listed {
        TrackedDecision { refresh: false, action: TrackedAction::Remove }
    } else {
        let refresh = !f.is_valid;
        let already_minimized = f.minimized_by_user || f.minimized_by_dome;
        let action = if !already_minimized && f.reports_minimized {
            TrackedAction::Minimize
        } else if already_minimized {
            TrackedAction::Keep
        } else if !f.tracked_native_fullscreen && f.reports_native_fullscreen {
            TrackedAction::EnterNativeFullscreen
        } else if f.tracked_native_fullscreen && !f.reports_native_fullscreen {
            match f.frame {
                Some(r) => TrackedAction::ExitNativeFullscreen(r),
                None => TrackedAction::Keep,
            }
        } else {
            TrackedAction::Keep
        };
        TrackedDecision { refresh, action }
    }
}

/// Decides what to do about a known window. A handle that stopped
/// answering is refreshed when the app still lists the window (Cocoa
/// recycles window views) and the window removed otherwise. Native
/// fullscreen changes are picked up here because macOS does not reliably
/// report them for unfocused windows.
pub fn classify_tracked(f: &TrackedFacts, listed: bool) -> (r: TrackedDecision)
    ensures
        r == tracked_spec(*f, listed),
        r.action is EnterNativeFullscreen ==> !f.tracked_native_fullscreen && f.reports_native_fullscreen,
{
    if !f.is_valid && !listed {
        return TrackedDecision { refresh: false, action: TrackedAction::Remove };
    }
    let refresh = !f.is_valid;
    let already_minimized = f.minimized_by_user || f.minimized_by_dome;
    let action = if !already_minimized && f.reports_minimized {
        TrackedAction::Minimize
    } else if already_minimized {
        TrackedAction::Keep
    } else if !f.tracked_native_fullscreen && f.reports_native_fullscreen {
        TrackedAction::EnterNativeFullscreen
    } else if f.tracked_native_fullscreen && !f.reports_native_fullscreen {
        match f.frame {
            Some(r) => TrackedAction::ExitNativeFullscreen(r),
            None => TrackedAction::Keep,
        }
    } else {
        TrackedAction::Keep
    };
    TrackedDecision { refresh, action }
}

/// What a reconcile pass learned about a window the app lists.
#[derive(Clone, Copy, Debug, PartialEq, Eq, Structural)]
pub struct ListedFacts {
    pub cg_id: u32,
    pub pid: i32,
    /// Why Dome cannot manage it, if it cannot.
    pub rejection: Option<RejectionReason>,
    /// An ignore rule of the configuration matches it.
    pub ignored_by_rule: bool,
    pub native_fullscreen: bool,
    /// Its frame, when both position and size could be read.
    pub frame: Option<PixelRect>,
}

/// What to do about a window the app lists.
#[derive(Clone, Copy, Debug, PartialEq, Eq, Structural)]
pub enum ListedAction {
    /// Tracked already: nothing to do.
    Skip,
    /// Tracked, but its handle needs replacing with this fresh one.
    Refresh,
    /// Not managed, for this reason.
    Reject(RejectionReason),
    AddNativeFullscreen,
    AddPositioned(PixelRect),
}

/// What happens to a listed window.
pub open spec fn listed_spec(f: ListedFacts, needs_refresh: bool, known: bool) -> ListedAction {
    if needs_refresh {
        ListedAction::Refresh
    } else if known {
        ListedAction::Skip
    } else if f.rejection is Some {
        ListedAction::Reject(f.rejection->0)
    } else if f.ignored_by_rule {
        ListedAction::Reject(RejectionReason::IgnoredByRule)
    } else if f.native_fullscreen {
        ListedAction::AddNativeFullscreen
    } else {
        match f.frame {
            Some(r) => ListedAction::AddPositioned(r),
            None => ListedAction::Skip,
        }
    }
}

/// Decides what to do about a window the app lists.
pub fn classify_listed(f: &ListedFacts, needs_refresh: bool, known: bool) -> (r: ListedAction)
    ensures
        r == listed_spec(*f, needs_refresh, known),
{
    if needs_refresh {
        return ListedAction::Refresh;
    }
    if known {
        return ListedAction::Skip;
    }
    if let Some(reason) = f.rejection {
        return ListedAction::Reject(reason);
    }
    if f.ignored_by_rule {
        return ListedAction::Reject(RejectionReason::IgnoredByRule);
    }
    if f.native_fullscreen {
        return ListedAction::AddNativeFullscreen;
    }
    match f.frame {
        Some(r) => ListedAction::AddPositioned(r),
        None => ListedAction::Skip,
    }
}

/// A window to add to Dome: its id, and its frame unless it is in native
/// fullscreen (which has no frame Dome uses).
#[derive(Clone, Copy, Debug, PartialEq, Eq, Structural)]
pub struct PendingAdd {
    pub cg_id: u32,
    pub frame: Option<PixelRect>,
}

/// What one reconcile pass over an app asks Dome to do.
#[derive(Debug)]
pub struct ReconcileResult {
    pub to_remove: Vec<u32>,
    pub to_minimize: Vec<u32>,
    pub to_add: Vec<PendingAdd>,
    pub to_enter_native_fullscreen: Vec<u32>,
    pub to_exit_native_fullscreen: Vec<(u32, PixelRect)>,
    /// Listed windows whose known handle is to be replaced.
    pub refresh: Vec<u32>,
    /// Rejections of listed windows to log, with their reasons.
    pub log_rejections: Vec<(u32, RejectionReason)>,
}

pub open spec fn listed_ids(windows: Seq<ListedFacts>) -> Set<u32> {
    Set::new(|cg: u32| exists|i: int| 0 <= i < windows.len() && (#[trigger] windows[i]).cg_id == cg)
}

pub open spec fn tracked_ids(known: Seq<TrackedFacts>) -> Set<u32> {
    Set::new(|cg: u32| exists|i: int| 0 <= i < known.len() && (#[trigger] known[i]).cg_id == cg)
}

/// The known windows whose handle needs refreshing.
pub open spec fn refresh_ids(known: Seq<TrackedFacts>, windows: Seq<ListedFacts>) -> Set<u32> {
    Set::new(
        |cg: u32|
            exists|i: int|
                0 <= i < known.len() && (#[trigger] known[i]).cg_id == cg && tracked_spec(
                    known[i],
                    listed_ids(windows).contains(cg),
                ).refresh,
    )
}

/// The ids of the known windows whose decision satisfies `pred`, in order.
pub open spec fn tracked_where(
    known: Seq<TrackedFacts>,
    windows: Seq<ListedFacts>,
    pred: spec_fn(TrackedAction) -> bool,
) -> Seq<u32>
    decreases known.len(),
{
    if known.len() == 0 {
        seq![]
    } else {
        let f = known.last();
        tracked_where(known.drop_last(), windows, pred) + if pred(
            tracked_spec(f, listed_ids(windows).contains(f.cg_id)).action,
        ) {
            seq![f.cg_id]
        } else {
            seq![]
        }
    }
}

/// The frames of the known windows leaving native fullscreen, in order.
pub open spec fn exits(known: Seq<TrackedFacts>, windows: Seq<ListedFacts>) -> Seq<(u32, PixelRect)>
    decreases known.len(),
{
    if known.len() == 0 {
        seq![]
    } else {
        let f = known.last();
        exits(known.drop_last(), windows) + match tracked_spec(
            f,
            listed_ids(windows).contains(f.cg_id),
        ).action {
            TrackedAction::ExitNativeFullscreen(r) => seq![(f.cg_id, r)],
            _ => seq![],
        }
    }
}

pub open spec fn listed_action(
    known: Seq<TrackedFacts>,
    managed: Seq<u32>,
    windows: Seq<ListedFacts>,
    f: ListedFacts,
) -> ListedAction {
    listed_spec(f, refresh_ids(known, windows).contains(f.cg_id), managed.contains(f.cg_id))
}

/// The listed windows to add, in order.
pub open spec fn adds(
    known: Seq<TrackedFacts>,
    managed: Seq<u32>,
    all: Seq<ListedFacts>,
    windows: Seq<ListedFacts>,
) -> Seq<PendingAdd>
    decreases windows.len(),
{
    if windows.len() == 0 {
        seq![]
    } else {
        let f = windows.last();
        adds(known, managed, all, windows.drop_last()) + match listed_action(known, managed, all, f) {
            ListedAction::AddNativeFullscreen => seq![PendingAdd { cg_id: f.cg_id, frame: None }],
            ListedAction::AddPositioned(r) => seq![PendingAdd { cg_id: f.cg_id, frame: Some(r) }],
            _ => seq![],
        }
    }
}

/// The listed windows to refresh, in order.
pub open spec fn refreshes(
    known: Seq<TrackedFacts>,
    managed: Seq<u32>,
    all: Seq<ListedFacts>,
    windows: Seq<ListedFacts>,
) -> Seq<u32>
    decreases windows.len(),
{
    if windows.len() == 0 {
        seq![]
    } else {
        let f = windows.last();
        refreshes(known, managed, all, windows.drop_last()) + if listed_action(known, managed, all, f) is Refresh {
            seq![f.cg_id]
        } else {
            seq![]
        }
    }
}

/// The listed windows rejected, with their reasons, in order.
pub open spec fn rejections(
    known: Seq<TrackedFacts>,
    managed: Seq<u32>,
    all: Seq<ListedFacts>,
    windows: Seq<ListedFacts>,
) -> Seq<(u32, RejectionReason)>
    decreases windows.len(),
{
    if windows.len() == 0 {
        seq![]
    } else {
        let f = windows.last();
        rejections(known, managed, all, windows.drop_last()) + match listed_action(known, managed, all, f) {
            ListedAction::Reject(reason) => seq![(f.cg_id, reason)],
            _ => seq![],
        }
    }
}

fn contains_id(v: &Vec<u32>, x: u32) -> (r: bool)
    ensures
        r == v@.contains(x),
{
    let mut i: usize = 0;
    while i < v.len()
        invariant
            i <= v@.len(),
            forall|j: int| 0 <= j < i ==> v@[j] != x,
        decreases v@.len() - i,
    {
        if v[i] == x {
            assert(v@[i as int] == x);
            return true;
        }
        i = i + 1;
    }
    false
}

fn lists(windows: &Vec<ListedFacts>, cg: u32) -> (r: bool)
    ensures
        r == listed_ids(windows@).contains(cg),
{
    let mut i: usize = 0;
    while i < windows.len()
        invariant
            i <= windows@.len(),
            forall|j: int| 0 <= j < i ==> (#[trigger] windows@[j]).cg_id != cg,
        decreases windows@.len() - i,
    {
        if windows[i].cg_id == cg {
            assert(windows@[i as int].cg_id == cg);
            return true;
        }
        i = i + 1;
    }
    false
}

pub open spec fn is_remove(a: TrackedAction) -> bool {
    a is Remove
}

pub open spec fn is_minimize(a: TrackedAction) -> bool {
    a is Minimize
}

pub open spec fn is_enter(a: TrackedAction) -> bool {
    a is EnterNativeFullscreen
}

/// Decides one reconcile pass over an app whose window list may have been
/// unavailable (`None`: the screen is locked, the app is suspended or the
/// accessibility call failed). Without a list every tracked window is kept
/// as it is and nothing is asked for; with one, the pass is
/// `compute_reconciliation`'s.
pub fn reconcile_app(
    known: &Vec<TrackedFacts>,
    managed: &Vec<u32>,
    windows: &Option<Vec<ListedFacts>>,
) -> (r: ReconcileResult)
    ensures
        windows is None ==> {
            &&& r.to_remove@.len() == 0
            &&& r.to_minimize@.len() == 0
            &&& r.to_add@.len() == 0
            &&& r.to_enter_native_fullscreen@.len() == 0
            &&& r.to_exit_native_fullscreen@.len() == 0
            &&& r.refresh@.len() == 0
            &&& r.log_rejections@.len() == 0
        },
        windows matches Some(w) ==> {
            &&& r.to_remove@ == tracked_where(known@, w@, |a: TrackedAction| is_remove(a))
            &&& r.to_minimize@ == tracked_where(known@, w@, |a: TrackedAction| is_minimize(a))
            &&& r.to_enter_native_fullscreen@ == tracked_where(known@, w@, |a: TrackedAction| is_enter(a))
            &&& r.to_exit_native_fullscreen@ == exits(known@, w@)
            &&& r.to_add@ == adds(known@, managed@, w@, w@)
            &&& r.refresh@ == refreshes(known@, managed@, w@, w@)
            &&& r.log_rejections@ == rejections(known@, managed@, w@, w@)
        },
{
    match windows {
        Some(w) => compute_reconciliation(known, managed, w),
        None => ReconcileResult {
            to_remove: Vec::new(),
            to_minimize: Vec::new(),
            to_add: Vec::new(),
            to_enter_native_fullscreen: Vec::new(),
            to_exit_native_fullscreen: Vec::new(),
            refresh: Vec::new(),
            log_rejections: Vec::new(),
        },
    }
}

/// Decides one reconcile pass over an app: `known` are the windows of the
/// app that Dome tracks, `managed` the window server ids of every window
/// Dome tracks (of any app), `windows` those the app lists. Tracked windows are
/// removed, minimized, moved in or out of native fullscreen or refreshed;
/// listed windows not tracked yet are added unless rejected.
pub fn compute_reconciliation(
    known: &Vec<TrackedFacts>,
    managed: &Vec<u32>,
    windows: &Vec<ListedFacts>,
) -> (r: ReconcileResult)
    ensures
        r.to_remove@ == tracked_where(known@, windows@, |a: TrackedAction| is_remove(a)),
        r.to_minimize@ == tracked_where(known@, windows@, |a: TrackedAction| is_minimize(a)),
        r.to_enter_native_fullscreen@ == tracked_where(known@, windows@, |a: TrackedAction| is_enter(a)),
        r.to_exit_native_fullscreen@ == exits(known@, windows@),
        r.to_add@ == adds(known@, managed@, windows@, windows@),
        r.refresh@ == refreshes(known@, managed@, windows@, windows@),
        r.log_rejections@ == rejections(known@, managed@, windows@, windows@),
{
    let ghost kn = known@;
    let ghost ws = windows@;
    let mut to_remove: Vec<u32> = Vec::new();
    let mut to_minimize: Vec<u32> = Vec::new();
    let mut to_enter: Vec<u32> = Vec::new();
    let mut to_exit: Vec<(u32, PixelRect)> = Vec::new();
    let mut needs_refresh: Vec<u32> = Vec::new();
    let mut i: usize = 0;
    while i < known.len()
        invariant
            kn == known@,
            ws == windows@,
            i <= kn.len(),
            to_remove@ == tracked_where(kn.take(i as int), ws, |a: TrackedAction| is_remove(a)),
            to_minimize@ == tracked_where(kn.take(i as int), ws, |a: TrackedAction| is_minimize(a)),
            to_enter@ == tracked_where(kn.take(i as int), ws, |a: TrackedAction| is_enter(a)),
            to_exit@ == exits(kn.take(i as int), ws),
            forall|cg: u32|
                needs_refresh@.contains(cg) <==> exists|j: int|
                    0 <= j < i && (#[trigger] kn[j]).cg_id == cg && tracked_spec(
                        kn[j],
                        listed_ids(ws).contains(cg),
                    ).refresh,
        decreases kn.len() - i,
    {
        let f = known[i];
        let listed = lists(windows, f.cg_id);
        let d = classify_tracked(&f, listed);
        proof {
            assert(kn.take(i + 1).drop_last() =~= kn.take(i as int));
            assert(kn.take(i + 1).last() == f);
        }
        let ghost old_refresh = needs_refresh@;
        if d.refresh {
            needs_refresh.push(f.cg_id);
        }
        proof {
            assert forall|cg: u32|
                needs_refresh@.contains(cg) <==> exists|j: int|
                    0 <= j < i + 1 && (#[trigger] kn[j]).cg_id == cg && tracked_spec(
                        kn[j],
                        listed_ids(ws).contains(cg),
                    ).refresh by {
                if needs_refresh@.contains(cg) {
                    let a = choose|a: int| 0 <= a < needs_refresh@.len() && needs_refresh@[a] == cg;
                    if a < old_refresh.len() {
                        assert(old_refresh[a] == cg);
                        assert(old_refresh.contains(cg));
                    } else {
                        assert(kn[i as int].cg_id == cg);
                    }
                }
                if exists|j: int|
                    0 <= j < i + 1 && (#[trigger] kn[j]).cg_id == cg && tracked_spec(
                        kn[j],
                        listed_ids(ws).contains(cg),
                    ).refresh {
                    let j = choose|j: int|
                        0 <= j < i + 1 && (#[trigger] kn[j]).cg_id == cg && tracked_spec(
                            kn[j],
                            listed_ids(ws).contains(cg),
                        ).refresh;
                    if j < i {
                        assert(old_refresh.contains(cg));
                        let a = choose|a: int| 0 <= a < old_refresh.len() && old_refresh[a] == cg;
                        assert(needs_refresh@[a] == cg);
                    } else {
                        assert(needs_refresh@[needs_refresh@.len() - 1] == cg);
                    }
                }
            }
        }
        match d.action {
            TrackedAction::Remove => {
                to_remove.push(f.cg_id);
            },
            TrackedAction::Minimize => {
                to_minimize.push(f.cg_id);
            },
            TrackedAction::EnterNativeFullscreen => {
                to_enter.push(f.cg_id);
            },
            TrackedAction::ExitNativeFullscreen(rect) => {
                to_exit.push((f.cg_id, rect));
            },
            TrackedAction::Keep => {},
        }
        proof {
            assert(to_remove@ =~= tracked_where(kn.take(i + 1), ws, |a: TrackedAction| is_remove(a)));
            assert(to_minimize@ =~= tracked_where(kn.take(i + 1), ws, |a: TrackedAction| is_minimize(a)));
            assert(to_enter@ =~= tracked_where(kn.take(i + 1), ws, |a: TrackedAction| is_enter(a)));
            assert(to_exit@ =~= exits(kn.take(i + 1), ws));
        }
        i = i + 1;
    }
    proof {
        assert(kn.take(kn.len() as int) =~= kn);
        assert forall|cg: u32| needs_refresh@.contains(cg) == refresh_ids(kn, ws).contains(cg) by {}
    }
    let mut to_add: Vec<PendingAdd> = Vec::new();
    let mut refresh: Vec<u32> = Vec::new();
    let mut log_rejections: Vec<(u32, RejectionReason)> = Vec::new();
    let mut k: usize = 0;
    while k < windows.len()
        invariant
            kn == known@,
            ws == windows@,
            k <= ws.len(),
            forall|cg: u32| needs_refresh@.contains(cg) == refresh_ids(kn, ws).contains(cg),
            to_add@ == adds(kn, managed@, ws, ws.take(k as int)),
            refresh@ == refreshes(kn, managed@, ws, ws.take(k as int)),
            log_rejections@ == rejections(kn, managed@, ws, ws.take(k as int)),
        decreases ws.len() - k,
    {
        let w = windows[k];
        let nr = contains_id(&needs_refresh, w.cg_id);
        let is_known = contains_id(managed, w.cg_id);
        let a = classify_listed(&w, nr, is_known);
        proof {
            let t = ws.take(k + 1);
            assert(t.drop_last() =~= ws.take(k as int));
            assert(t.last() == w);
        }
        match a {
            ListedAction::Refresh => {
                refresh.push(w.cg_id);
            },
            ListedAction::Skip => {},
            ListedAction::Reject(reason) => {
                log_rejections.push((w.cg_id, reason));
            },
            ListedAction::AddNativeFullscreen => {
                to_add.push(PendingAdd { cg_id: w.cg_id, frame: None });
            },
            ListedAction::AddPositioned(rect) => {
                to_add.push(PendingAdd { cg_id: w.cg_id, frame: Some(rect) });
            },
        }
        proof {
            assert(to_add@ =~= adds(kn, managed@, ws, ws.take(k + 1)));
            assert(refresh@ =~= refreshes(kn, managed@, ws, ws.take(k + 1)));
            assert(log_rejections@ =~= rejections(kn, managed@, ws, ws.take(k + 1)));
        }
        k = k + 1;
    }
    proof {
        assert(ws.take(ws.len() as int) =~= ws);
    }
    ReconcileResult {
        to_remove,
        to_minimize,
        to_add,
        to_enter_native_fullscreen: to_enter,
        to_exit_native_fullscreen: to_exit,
        refresh,
        log_rejections,
    }
}

/// The pids of `pids` that are not in `excluded`, in order.
pub open spec fn pids_outside(pids: Seq<i32>, excluded: Seq<i32>) -> Seq<i32>
    decreases pids.len(),
{
    if pids.len() == 0 {
        seq![]
    } else {
        pids_outside(pids.drop_last(), excluded) + if excluded.contains(pids.last()) {
            seq![]
        } else {
            seq![pids.last()]
        }
    }
}

/// The observed apps that are no longer running.
pub fn terminated_pids(observed: &Vec<i32>, running: &Vec<i32>) -> (r: Vec<i32>)
    ensures
        r@ == pids_outside(observed@, running@),
{
    let mut out: Vec<i32> = Vec::new();
    let mut i: usize = 0;
    while i < observed.len()
        invariant
            i <= observed@.len(),
            out@ == pids_outside(observed@.take(i as int), running@),
        decreases observed@.len() - i,
    {
        let pid = observed[i];
        let mut j: usize = 0;
        let mut found = false;
        while j < running.len()
            invariant
                j <= running@.len(),
                found == exists|a: int| 0 <= a < j && running@[a] == pid,
            decreases running@.len() - j,
        {
            if running[j] == pid {
                found = true;
            }
            j = j + 1;
        }
        proof {
            assert(observed@.take(i + 1).drop_last() =~= observed@.take(i as int));
            assert(observed@.take(i + 1).last() == pid);
            assert(found == running@.contains(pid));
        }
        if !found {
            out.push(pid);
        }
        proof {
            assert(out@ =~= pids_outside(observed@.take(i + 1), running@));
        }
        i = i + 1;
    }
    proof {
        assert(observed@.take(observed@.len() as int) =~= observed@);
    }
    out
}

/// A terminated app is one that was observed and is not running.
pub proof fn law_terminated_means_observed_and_gone(observed: Seq<i32>, running: Seq<i32>, pid: i32)
    ensures
        pids_outside(observed, running).contains(pid) <==> observed.contains(pid) && !running.contains(
            pid,
        ),
    decreases observed.len(),
{
    if observed.len() > 0 {
        let prefix = observed.drop_last();
        law_terminated_means_observed_and_gone(prefix, running, pid);
        let tail: Seq<i32> = if running.contains(observed.last()) {
            seq![]
        } else {
            seq![observed.last()]
        };
        let p = pids_outside(prefix, running);
        assert(pids_outside(observed, running) == p + tail);
        if (p + tail).contains(pid) {
            let j = choose|j: int| 0 <= j < (p + tail).len() && (p + tail)[j] == pid;
            if j < p.len() {
                assert(p[j] == pid);
                let a = choose|a: int| 0 <= a < prefix.len() && prefix[a] == pid;
                assert(observed[a] == pid);
            } else {
                assert(observed[observed.len() - 1] == pid);
            }
        }
        if observed.contains(pid) && !running.contains(pid) {
            let a = choose|a: int| 0 <= a < observed.len() && observed[a] == pid;
            if a < prefix.len() {
                assert(prefix[a] == pid);
                let j = choose|j: int| 0 <= j < p.len() && p[j] == pid;
                assert((p + tail)[j] == pid);
            } else {
                assert((p + tail)[p.len() as int] == pid);
            }
        }
    }
}

/// A tracked window is removed only when its handle stopped answering and
/// the app no longer lists it; a stale handle of a listed window is
/// refreshed instead; a window already minimized is left alone.
pub proof fn law_tracked_window_fates(f: TrackedFacts, listed: bool)
    ensures
        tracked_spec(f, listed).action is Remove <==> !f.is_valid && !listed,
        tracked_spec(f, listed).refresh <==> !f.is_valid && listed,
        f.minimized_by_user || f.minimized_by_dome ==> tracked_spec(f, listed).action is Keep
            || tracked_spec(f, listed).action is Remove,
        tracked_spec(f, listed).action is Minimize ==> f.reports_minimized,
{
}

/// A listed window is added only when Dome does not track it yet and it is
/// manageable and matched by no ignore rule; every rejection names why.
pub proof fn law_only_manageable_new_windows_added(f: ListedFacts, needs_refresh: bool, is_known: bool)
    ensures
        (listed_spec(f, needs_refresh, is_known) is AddPositioned || listed_spec(
            f,
            needs_refresh,
            is_known,
        ) is AddNativeFullscreen) ==> !needs_refresh && !is_known && f.rejection is None
            && !f.ignored_by_rule,
        listed_spec(f, needs_refresh, is_known) matches ListedAction::Reject(reason) ==> (
        f.rejection == Some(reason) || (f.rejection is None && f.ignored_by_rule && reason
            == RejectionReason::IgnoredByRule)),
{
}

/// Native fullscreen changes of a tracked window: it is asked to enter
/// native fullscreen only when Dome does not have it there yet and the
/// window reports it, and to leave it only when Dome has it there, the
/// window no longer reports it and its frame could be read; a window Dome
/// already has in native fullscreen, still reporting it, is kept. A window
/// that still answers (or is still listed), is not minimized and newly
/// reports native fullscreen is always asked to enter it.
pub proof fn law_native_fullscreen_transitions(f: TrackedFacts, listed: bool)
    ensures
        tracked_spec(f, listed).action is EnterNativeFullscreen ==> !f.tracked_native_fullscreen
            && f.reports_native_fullscreen,
        tracked_spec(f, listed).action matches TrackedAction::ExitNativeFullscreen(r) ==> f.tracked_native_fullscreen
            && !f.reports_native_fullscreen && f.frame == Some(r),
        f.tracked_native_fullscreen && f.reports_native_fullscreen ==> !(tracked_spec(
            f,
            listed,
        ).action is EnterNativeFullscreen) && !(tracked_spec(f, listed).action is ExitNativeFullscreen),
        (f.is_valid || listed) && !f.minimized_by_user && !f.minimized_by_dome && !f.reports_minimized
            && !f.tracked_native_fullscreen && f.reports_native_fullscreen ==> tracked_spec(f, listed).action
            is EnterNativeFullscreen,
        (f.is_valid || listed) && !f.minimized_by_user && !f.minimized_by_dome && !f.reports_minimized
            && f.tracked_native_fullscreen && !f.reports_native_fullscreen && f.frame is Some
            ==> tracked_spec(f, listed).action == TrackedAction::ExitNativeFullscreen(f.frame->0),
{
}

/// A tracked window is listed for an action exactly when its own decision
/// is that action: every window of `to_remove` was decided removed, every
/// window decided removed is in it, and likewise for minimizing and for
/// entering native fullscreen.
pub proof fn law_tracked_lists_follow_the_decisions(
    known: Seq<TrackedFacts>,
    windows: Seq<ListedFacts>,
    pred: spec_fn(TrackedAction) -> bool,
)
    ensures
        forall|x: u32|
            tracked_where(known, windows, pred).contains(x) <==> exists|j: int|
                0 <= j < known.len() && (#[trigger] known[j]).cg_id == x && pred(
                    tracked_spec(known[j], listed_ids(windows).contains(x)).action,
                ),
    decreases known.len(),
{
    if known.len() > 0 {
        let p = known.drop_last();
        law_tracked_lists_follow_the_decisions(p, windows, pred);
        let f = known.last();
        let tail: Seq<u32> = if pred(tracked_spec(f, listed_ids(windows).contains(f.cg_id)).action) {
            seq![f.cg_id]
        } else {
            seq![]
        };
        let r = tracked_where(known, windows, pred);
        assert(r == tracked_where(p, windows, pred) + tail);
        assert forall|x: u32|
            r.contains(x) <==> exists|j: int|
                0 <= j < known.len() && (#[trigger] known[j]).cg_id == x && pred(
                    tracked_spec(known[j], listed_ids(windows).contains(x)).action,
                ) by {
            let pr = tracked_where(p, windows, pred);
            if r.contains(x) {
                let a = choose|a: int| 0 <= a < r.len() && r[a] == x;
                if a < pr.len() {
                    assert(pr[a] == x);
                    assert(pr.contains(x));
                    let j = choose|j: int|
                        0 <= j < p.len() && (#[trigger] p[j]).cg_id == x && pred(
                            tracked_spec(p[j], listed_ids(windows).contains(x)).action,
                        );
                    assert(known[j] == p[j]);
                } else {
                    assert(known[known.len() - 1] == f);
                }
            }
            if exists|j: int|
                0 <= j < known.len() && (#[trigger] known[j]).cg_id == x && pred(
                    tracked_spec(known[j], listed_ids(windows).contains(x)).action,
                ) {
                let j = choose|j: int|
                    0 <= j < known.len() && (#[trigger] known[j]).cg_id == x && pred(
                        tracked_spec(known[j], listed_ids(windows).contains(x)).action,
                    );
                if j < p.len() {
                    assert(p[j] == known[j]);
                    assert(pr.contains(x));
                    let a = choose|a: int| 0 <= a < pr.len() && pr[a] == x;
                    assert(r[a] == x);
                } else {
                    assert(r[pr.len() as int] == x);
                }
            }
        }
    }
}

/// Every window to add is listed by the app, not tracked anywhere, not
/// refreshed, not rejected and not ignored by a rule; it is added in
/// native fullscreen when it reports so, and otherwise at its read frame.
pub proof fn law_added_windows_are_new_and_accepted(
    known: Seq<TrackedFacts>,
    managed: Seq<u32>,
    all: Seq<ListedFacts>,
    windows: Seq<ListedFacts>,
)
    ensures
        forall|k: int|
            #![trigger adds(known, managed, all, windows)[k]]
            0 <= k < adds(known, managed, all, windows).len() ==> exists|j: int|
                #![trigger windows[j]]
                0 <= j < windows.len() && {
                    let f = windows[j];
                    let a = adds(known, managed, all, windows)[k];
                    &&& a.cg_id == f.cg_id
                    &&& !managed.contains(f.cg_id)
                    &&& !refresh_ids(known, all).contains(f.cg_id)
                    &&& f.rejection is None
                    &&& !f.ignored_by_rule
                    &&& (f.native_fullscreen ==> a.frame is None)
                    &&& (!f.native_fullscreen ==> a.frame is Some && a.frame == f.frame)
                },
    decreases windows.len(),
{
    if windows.len() > 0 {
        let p = windows.drop_last();
        law_added_windows_are_new_and_accepted(known, managed, all, p);
        let pa = adds(known, managed, all, p);
        let r = adds(known, managed, all, windows);
        let f = windows.last();
        assert forall|k: int| #![trigger r[k]] 0 <= k < r.len() implies exists|j: int|
            #![trigger windows[j]]
            0 <= j < windows.len() && {
                let g = windows[j];
                let a = r[k];
                &&& a.cg_id == g.cg_id
                &&& !managed.contains(g.cg_id)
                &&& !refresh_ids(known, all).contains(g.cg_id)
                &&& g.rejection is None
                &&& !g.ignored_by_rule
                &&& (g.native_fullscreen ==> a.frame is None)
                &&& (!g.native_fullscreen ==> a.frame is Some && a.frame == g.frame)
            } by {
            if k < pa.len() {
                assert(r[k] == pa[k]);
                let j = choose|j: int|
                    #![trigger p[j]]
                    0 <= j < p.len() && {
                        let g = p[j];
                        let a = pa[k];
                        &&& a.cg_id == g.cg_id
                        &&& !managed.contains(g.cg_id)
                        &&& !refresh_ids(known, all).contains(g.cg_id)
                        &&& g.rejection is None
                        &&& !g.ignored_by_rule
                        &&& (g.native_fullscreen ==> a.frame is None)
                        &&& (!g.native_fullscreen ==> a.frame is Some && a.frame == g.frame)
                    };
                assert(windows[j] == p[j]);
            } else {
                assert(windows[windows.len() - 1] == f);
            }
        }
    }
}

} // verus!
