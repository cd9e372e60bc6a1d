//! Who owns which session.

use hyperpanes_core::session::claims::{ClaimOutcome, ClaimRegistry};

#[test]
fn conn_ids_are_monotonic_and_never_zero() {
    let mut r = ClaimRegistry::new();
    let a = r.next_conn_id();
    let b = r.next_conn_id();
    assert_ne!(a, 0);
    assert!(b > a);
}

#[test]
fn first_claim_wins_and_the_second_is_told_who_holds_it() {
    let mut r = ClaimRegistry::new();
    assert_eq!(r.claim("pane-a", 1), ClaimOutcome::Granted);
    assert_eq!(r.claim("pane-a", 2), ClaimOutcome::Denied(1));
    assert_eq!(r.owner_of("pane-a"), Some(1));
}

#[test]
fn reclaiming_your_own_uid_is_idempotent() {
    let mut r = ClaimRegistry::new();
    assert!(r.claim("pane-a", 7).granted());
    assert!(r.claim("pane-a", 7).granted());
    assert_eq!(r.snapshot().len(), 1);
}

#[test]
fn a_non_owner_cannot_release_someone_elses_claim() {
    let mut r = ClaimRegistry::new();
    r.claim("pane-a", 1);
    assert!(!r.release("pane-a", 2));
    assert_eq!(r.owner_of("pane-a"), Some(1));
    assert!(r.release("pane-a", 1));
    assert_eq!(r.owner_of("pane-a"), None);
}

#[test]
fn release_conn_drops_exactly_that_connections_claims() {
    let mut r = ClaimRegistry::new();
    r.claim("pane-a", 1);
    r.claim("pane-b", 1);
    r.claim("pane-c", 2);
    assert!(r.release_conn(1));
    let snap = r.snapshot();
    assert_eq!(snap.len(), 1);
    assert_eq!(snap[0].uid, "pane-c");
    assert!(!r.release_conn(1));
}

#[test]
fn a_released_uid_is_immediately_claimable_by_the_next_process() {
    let mut r = ClaimRegistry::new();
    r.claim("pane-a", 1);
    r.release_conn(1); // the owner "crashed"
    assert_eq!(r.claim("pane-a", 2), ClaimOutcome::Granted);
}

#[test]
fn forget_uid_and_clear_drop_claims_regardless_of_owner() {
    let mut r = ClaimRegistry::new();
    r.claim("pane-a", 1);
    r.claim("pane-b", 2);
    assert!(r.forget_uid("pane-a"));
    assert!(!r.forget_uid("pane-a"));
    assert!(r.clear());
    assert!(r.snapshot().is_empty());
    assert!(!r.clear());
}

#[test]
fn snapshot_is_sorted_by_uid() {
    let mut r = ClaimRegistry::new();
    r.claim("pane-c", 1);
    r.claim("pane-a", 2);
    r.claim("pane-b", 3);
    let uids: Vec<String> = r.snapshot().into_iter().map(|c| c.uid).collect();
    assert_eq!(uids, vec!["pane-a", "pane-b", "pane-c"]);
}

#[test]
fn sixteen_claims_of_one_uid_have_one_winner() {
    let mut r = ClaimRegistry::new();
    let wins = (0..16).map(|i| r.claim("pane-contended", i + 1).granted()).filter(|g| *g).count();
    assert_eq!(wins, 1, "exactly one connection may own a uid");
}

#[test]
fn a_denied_claim_names_its_owner() {
    assert_eq!(ClaimOutcome::Granted.owner(), None);
    assert_eq!(ClaimOutcome::Denied(4).owner(), Some(4));
    assert!(!ClaimOutcome::Denied(4).granted());
}

#[test]
fn connection_ids_count_up_from_one() {
    let mut r = ClaimRegistry::new();
    assert_eq!(r.next_conn_id(), 1);
    assert_eq!(r.next_conn_id(), 2);
}

#[test]
fn a_refused_claim_changes_nothing() {
    let mut r = ClaimRegistry::new();
    r.claim("pane-a", 1);
    r.claim("pane-b", 2);
    assert_eq!(r.claim("pane-b", 1), ClaimOutcome::Denied(2));
    let held: Vec<(String, u64)> = r.snapshot().into_iter().map(|c| (c.uid, c.owner)).collect();
    assert_eq!(held, vec![("pane-a".to_string(), 1), ("pane-b".to_string(), 2)]);
}
