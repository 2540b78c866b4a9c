use dome::geometry::PixelRect;
use dome::reconcile::{
    check_unmanageable, classify_listed, classify_tracked, compute_reconciliation, is_manageable, reconcile_app,
    terminated_pids, ListedAction, ListedFacts, PendingAdd, TrackedAction, TrackedFacts,
    WindowTraits,
};
use dome::rejection_log::RejectionReason;

fn good_traits() -> WindowTraits {
    WindowTraits {
        has_title: true,
        role_is_window: true,
        subrole_is_standard: true,
        is_root: true,
        position_settable: true,
        size_settable: true,
        main_settable: true,
        is_minimized: false,
    }
}

fn known(cg_id: u32) -> TrackedFacts {
    TrackedFacts {
        cg_id,
        is_valid: true,
        minimized_by_user: false,
        minimized_by_dome: false,
        tracked_native_fullscreen: false,
        reports_minimized: false,
        reports_native_fullscreen: false,
        frame: Some(PixelRect::new(0, 0, 100, 100)),
    }
}

fn listed(cg_id: u32) -> ListedFacts {
    ListedFacts {
        cg_id,
        pid: 42,
        rejection: None,
        ignored_by_rule: false,
        native_fullscreen: false,
        frame: Some(PixelRect::new(10, 20, 300, 400)),
    }
}

#[test]
fn manageable_window() {
    assert!(is_manageable(&good_traits()));
    assert_eq!(check_unmanageable(&good_traits()), None);
}

#[test]
fn first_failing_check_names_the_reason() {
    let mut t = good_traits();
    t.is_minimized = true;
    t.size_settable = false;
    assert_eq!(check_unmanageable(&t), Some(RejectionReason::SizeNotSettable));
    t.has_title = false;
    assert_eq!(check_unmanageable(&t), Some(RejectionReason::NoTitle));
    let mut m = good_traits();
    m.is_minimized = true;
    assert_eq!(check_unmanageable(&m), Some(RejectionReason::Minimized));
    assert!(!is_manageable(&m));
    let mut r = good_traits();
    r.role_is_window = false;
    assert_eq!(check_unmanageable(&r), Some(RejectionReason::Role));
    let mut s = good_traits();
    s.subrole_is_standard = false;
    assert_eq!(check_unmanageable(&s), Some(RejectionReason::Subrole));
    let mut n = good_traits();
    n.is_root = false;
    assert_eq!(check_unmanageable(&n), Some(RejectionReason::NotRoot));
    let mut p = good_traits();
    p.position_settable = false;
    assert_eq!(check_unmanageable(&p), Some(RejectionReason::PositionNotSettable));
    let mut q = good_traits();
    q.main_settable = false;
    assert_eq!(check_unmanageable(&q), Some(RejectionReason::MainNotSettable));
}

#[test]
fn gone_window_is_removed_and_stale_handle_refreshed() {
    let mut f = known(7);
    f.is_valid = false;
    let gone = classify_tracked(&f, false);
    assert!(!gone.refresh);
    assert_eq!(gone.action, TrackedAction::Remove);
    let stale = classify_tracked(&f, true);
    assert!(stale.refresh);
    assert_eq!(stale.action, TrackedAction::Keep);
}

#[test]
fn tracked_window_transitions() {
    let mut f = known(7);
    f.reports_minimized = true;
    assert_eq!(classify_tracked(&f, true).action, TrackedAction::Minimize);
    f.minimized_by_user = true;
    assert_eq!(classify_tracked(&f, true).action, TrackedAction::Keep);
    let mut g = known(8);
    g.reports_native_fullscreen = true;
    assert_eq!(classify_tracked(&g, true).action, TrackedAction::EnterNativeFullscreen);
    let mut h = known(9);
    h.tracked_native_fullscreen = true;
    assert_eq!(
        classify_tracked(&h, true).action,
        TrackedAction::ExitNativeFullscreen(PixelRect::new(0, 0, 100, 100))
    );
    h.frame = None;
    assert_eq!(classify_tracked(&h, true).action, TrackedAction::Keep);
}

#[test]
fn listed_window_decisions() {
    assert_eq!(classify_listed(&listed(1), true, true), ListedAction::Refresh);
    assert_eq!(classify_listed(&listed(1), false, true), ListedAction::Skip);
    let mut r = listed(1);
    r.rejection = Some(RejectionReason::Subrole);
    r.ignored_by_rule = true;
    assert_eq!(classify_listed(&r, false, false), ListedAction::Reject(RejectionReason::Subrole));
    let mut i = listed(1);
    i.ignored_by_rule = true;
    assert_eq!(classify_listed(&i, false, false), ListedAction::Reject(RejectionReason::IgnoredByRule));
    let mut n = listed(1);
    n.native_fullscreen = true;
    assert_eq!(classify_listed(&n, false, false), ListedAction::AddNativeFullscreen);
    assert_eq!(
        classify_listed(&listed(1), false, false),
        ListedAction::AddPositioned(PixelRect::new(10, 20, 300, 400))
    );
    let mut u = listed(1);
    u.frame = None;
    assert_eq!(classify_listed(&u, false, false), ListedAction::Skip);
}

#[test]
fn a_full_reconcile_pass() {
    let mut gone = known(1);
    gone.is_valid = false;
    let mut stale = known(2);
    stale.is_valid = false;
    let mut minimized = known(3);
    minimized.reports_minimized = true;
    let steady = known(4);
    let known_windows = vec![gone, stale, minimized, steady];

    let mut rejected = listed(6);
    rejected.rejection = Some(RejectionReason::NoTitle);
    let windows = vec![listed(2), listed(3), listed(4), listed(5), rejected];

    let managed: Vec<u32> = known_windows.iter().map(|f| f.cg_id).collect();
    let r = compute_reconciliation(&known_windows, &managed, &windows);
    assert_eq!(r.to_remove, vec![1]);
    assert_eq!(r.to_minimize, vec![3]);
    assert_eq!(r.refresh, vec![2]);
    assert_eq!(
        r.to_add,
        vec![PendingAdd { cg_id: 5, frame: Some(PixelRect::new(10, 20, 300, 400)) }]
    );
    assert_eq!(r.log_rejections, vec![(6, RejectionReason::NoTitle)]);
    assert!(r.to_enter_native_fullscreen.is_empty());
    assert!(r.to_exit_native_fullscreen.is_empty());
}

#[test]
fn terminated_apps_are_observed_and_not_running() {
    assert_eq!(terminated_pids(&vec![10, 20, 30], &vec![30, 10, 40]), vec![20]);
    assert!(terminated_pids(&vec![], &vec![1]).is_empty());
}

#[test]
fn an_unreadable_window_list_keeps_every_window() {
    let mut gone = known(1);
    gone.is_valid = false;
    let known_windows = vec![gone, known(2)];
    let managed = vec![1, 2];
    let r = reconcile_app(&known_windows, &managed, &None);
    assert!(r.to_remove.is_empty());
    assert!(r.to_minimize.is_empty());
    assert!(r.to_add.is_empty());
    assert!(r.refresh.is_empty());
    assert!(r.log_rejections.is_empty());
    assert!(r.to_enter_native_fullscreen.is_empty());
    assert!(r.to_exit_native_fullscreen.is_empty());
    let r = reconcile_app(&known_windows, &managed, &Some(vec![listed(2)]));
    assert_eq!(r.to_remove, vec![1]);
}

#[test]
fn a_window_tracked_for_another_app_is_not_added_again() {
    let known_windows = vec![known(1)];
    // Window 9 is tracked, under another process.
    let managed = vec![1, 9];
    let r = compute_reconciliation(&known_windows, &managed, &vec![listed(1), listed(9), listed(5)]);
    assert_eq!(r.to_add, vec![PendingAdd { cg_id: 5, frame: Some(PixelRect::new(10, 20, 300, 400)) }]);
    assert!(r.to_remove.is_empty());
}
