use dome::rejection_log::{RejectionLogFilter, RejectionReason};

const MS: u64 = 1_000_000;
const SEC: u64 = 1000 * MS;

#[test]
fn first_call_logs() {
    let mut filter = RejectionLogFilter::new();
    let t0: u64 = 5_000_000;

    assert!(filter.record_and_should_log(1, 10, RejectionReason::Role, t0));
    assert!(!filter.record_and_should_log(1, 10, RejectionReason::Role, t0));
}

#[test]
fn same_reason_hit_dedups_and_does_not_refresh_last_seen() {
    let mut filter = RejectionLogFilter::new();
    let t0: u64 = 5_000_000;

    assert!(filter.record_and_should_log(1, 10, RejectionReason::Role, t0));

    let t_half = t0 + 30 * 60 * SEC;
    assert!(!filter.record_and_should_log(1, 10, RejectionReason::Role, t_half));

    // Prune just past the TTL from t0. Had the time been refreshed to
    // t_half, the entry would survive.
    let t_expire = t0 + 60 * 60 * SEC + MS;
    filter.prune(t_expire);

    assert!(filter.record_and_should_log(1, 10, RejectionReason::Role, t_expire));
}

#[test]
fn reason_change_relogs() {
    let mut filter = RejectionLogFilter::new();
    let t0: u64 = 5_000_000;

    assert!(filter.record_and_should_log(1, 10, RejectionReason::Role, t0));
    assert!(filter.record_and_should_log(1, 10, RejectionReason::Subrole, t0));
    assert!(!filter.record_and_should_log(1, 10, RejectionReason::Subrole, t0));
}

#[test]
fn composite_key_does_not_collide() {
    let mut filter = RejectionLogFilter::new();
    let t0: u64 = 5_000_000;

    assert!(filter.record_and_should_log(1, 10, RejectionReason::Role, t0));
    assert!(filter.record_and_should_log(1, 11, RejectionReason::Role, t0));

    assert!(!filter.record_and_should_log(1, 10, RejectionReason::Role, t0));
    assert!(!filter.record_and_should_log(1, 11, RejectionReason::Role, t0));
}

#[test]
fn prune_drops_stale() {
    let mut filter = RejectionLogFilter::new();
    let t0: u64 = 5_000_000;

    assert!(filter.record_and_should_log(1, 10, RejectionReason::Role, t0));

    let t_expire = t0 + 60 * 60 * SEC + MS;
    filter.prune(t_expire);

    assert!(filter.record_and_should_log(1, 10, RejectionReason::Role, t_expire));
}

#[test]
fn prune_keeps_fresh() {
    let mut filter = RejectionLogFilter::new();
    let t0: u64 = 5_000_000;

    assert!(filter.record_and_should_log(1, 10, RejectionReason::Role, t0));

    let t_boundary = t0 + 60 * 60 * SEC;
    filter.prune(t_boundary);

    assert!(!filter.record_and_should_log(1, 10, RejectionReason::Role, t_boundary));
}

#[test]
fn prune_empty_is_noop() {
    let mut filter = RejectionLogFilter::new();
    let t0: u64 = 5_000_000;

    filter.prune(t0);

    assert!(filter.record_and_should_log(1, 10, RejectionReason::Role, t0));
}

#[test]
fn prune_drops_only_expired_subset() {
    let mut filter = RejectionLogFilter::new();
    let t0: u64 = 5_000_000;

    assert!(filter.record_and_should_log(1, 10, RejectionReason::Role, t0));

    let t_mid = t0 + 30 * 60 * SEC;
    assert!(filter.record_and_should_log(2, 20, RejectionReason::Role, t_mid));

    let t_expire = t0 + 60 * 60 * SEC + MS;
    filter.prune(t_expire);

    assert!(filter.record_and_should_log(1, 10, RejectionReason::Role, t_expire));
    assert!(!filter.record_and_should_log(2, 20, RejectionReason::Role, t_expire));
}

#[test]
fn a_clock_that_went_back_keeps_the_entry() {
    let mut filter = RejectionLogFilter::new();
    assert!(filter.record_and_should_log(3, 30, RejectionReason::NotRoot, 10 * SEC));
    filter.prune(0);
    assert!(!filter.record_and_should_log(3, 30, RejectionReason::NotRoot, 0));
}

#[test]
fn expiry_is_measured_below_a_millisecond() {
    let mut filter = RejectionLogFilter::new();
    let t0: u64 = 5 * SEC;
    assert!(filter.record_and_should_log(1, 10, RejectionReason::Role, t0));
    // Four tenths of a millisecond past the TTL is already past it.
    filter.prune(t0 + 60 * 60 * SEC + 400_000);
    assert!(filter.record_and_should_log(1, 10, RejectionReason::Role, t0 + 60 * 60 * SEC + 400_000));
}
