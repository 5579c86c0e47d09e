use xnode_demo::ledger::{Ledger, LedgerError, PublicXnode, Reservation};
use xnode_demo::record::{parse_reservation, serialize_reservation};

fn pool(ids: &[&str]) -> Ledger {
    Ledger::new(ids.iter().map(|s| s.to_string()).collect(), 3600)
}

#[test]
fn reserve_sets_owner_and_expiry() {
    let mut l = pool(&["node-a"]);
    let r = l.reserve(&"node-a".to_string(), &"S".to_string(), 0).unwrap();
    assert_eq!(r.reserved_by, "S");
    assert_eq!(r.reserved_until, 3600);
}

#[test]
fn reserve_unknown_node_fails() {
    let mut l = pool(&["node-a"]);
    let r = l.reserve(&"node-z".to_string(), &"S".to_string(), 0);
    assert_eq!(r.unwrap_err(), LedgerError::UnknownNode);
}

#[test]
fn second_reserve_before_expiry_fails() {
    let mut l = pool(&["node-a"]);
    l.reserve(&"node-a".to_string(), &"S".to_string(), 0).unwrap();
    let again = l.reserve(&"node-a".to_string(), &"T".to_string(), 100);
    assert_eq!(again.unwrap_err(), LedgerError::AlreadyReserved);
    let last_moment = l.reserve(&"node-a".to_string(), &"T".to_string(), 3599);
    assert_eq!(last_moment.unwrap_err(), LedgerError::AlreadyReserved);
}

#[test]
fn reserve_after_expiry_succeeds_and_queues_cleanup() {
    let mut l = pool(&["node-a"]);
    l.reserve(&"node-a".to_string(), &"S".to_string(), 0).unwrap();
    let r = l.reserve(&"node-a".to_string(), &"T".to_string(), 3600).unwrap();
    assert_eq!(r.reserved_by, "T");
    assert_eq!(r.reserved_until, 7200);
    assert_eq!(l.take_reclaims(), vec!["node-a"]);
}

#[test]
fn get_reports_live_reservation_until_expiry() {
    let mut l = pool(&["node-a"]);
    l.reserve(&"node-a".to_string(), &"S".to_string(), 0).unwrap();
    let x = l.get_xnode(&"node-a".to_string(), 3599);
    let res = x.reservation.unwrap();
    assert_eq!(res.reserved_by, "S");
    assert_eq!(res.reserved_until, 3600);
    assert_eq!(l.take_reclaims(), Vec::<String>::new());
}

#[test]
fn first_late_read_deletes_record() {
    let mut l = pool(&["node-a"]);
    l.reserve(&"node-a".to_string(), &"S".to_string(), 0).unwrap();
    let x = l.get_xnode(&"node-a".to_string(), 3600);
    assert!(x.reservation.is_none());
    assert_eq!(l.take_reclaims(), vec!["node-a"]);
    let again = l.get_xnode(&"node-a".to_string(), 3600);
    assert!(again.reservation.is_none());
    assert_eq!(l.take_reclaims(), Vec::<String>::new());
}

#[test]
fn get_unknown_node_reports_unreserved() {
    let mut l = pool(&["node-a"]);
    let x = l.get_xnode(&"node-z".to_string(), 0);
    assert_eq!(x.id, "node-z");
    assert!(x.reservation.is_none());
}

#[test]
fn listing_follows_configuration_order() {
    let mut l = pool(&["node-a", "node-b", "node-c"]);
    l.reserve(&"node-b".to_string(), &"S".to_string(), 0).unwrap();
    let xs = l.get_xnodes(10);
    assert_eq!(xs.len(), 3);
    assert_eq!(xs[0].id, "node-a");
    assert_eq!(xs[1].id, "node-b");
    assert_eq!(xs[2].id, "node-c");
    assert!(xs[0].reservation.is_none());
    assert_eq!(xs[1].reservation.as_ref().unwrap().reserved_by, "S");
    assert!(xs[2].reservation.is_none());
}

#[test]
fn listing_reclaims_expired_nodes_in_order() {
    let mut l = pool(&["node-a", "node-b"]);
    l.reserve(&"node-a".to_string(), &"S".to_string(), 0).unwrap();
    l.reserve(&"node-b".to_string(), &"T".to_string(), 0).unwrap();
    let xs = l.get_xnodes(3600);
    assert!(xs[0].reservation.is_none());
    assert!(xs[1].reservation.is_none());
    assert_eq!(l.take_reclaims(), vec!["node-a", "node-b"]);
}

#[test]
fn repeated_identifiers_count_once() {
    let mut l = pool(&["node-a", "node-a", "node-b"]);
    let xs = l.get_xnodes(0);
    assert_eq!(xs.len(), 2);
    assert_eq!(xs[0].id, "node-a");
    assert_eq!(xs[1].id, "node-b");
}

#[test]
fn ledger_error_messages() {
    assert_eq!(LedgerError::AlreadyReserved.message(), "Xnode is already reserved.");
    assert_eq!(LedgerError::UnknownNode.message(), "Invalid Xnode id.");
}

#[test]
fn public_view_carries_expiry_only() {
    let mut l = pool(&["node-a"]);
    l.reserve(&"node-a".to_string(), &"S".to_string(), 0).unwrap();
    let x = l.get_xnode(&"node-a".to_string(), 1);
    let p = PublicXnode::of_xnode(&x);
    assert_eq!(p.xnode_id, "node-a");
    assert_eq!(p.reserved_until, Some(3600));
}

#[test]
fn restored_record_expires_like_any_other() {
    let mut l = pool(&["node-a"]);
    let kept = l.restore(
        &"node-a".to_string(),
        Reservation { reserved_by: "S".to_string(), reserved_until: 3600 },
    );
    assert!(kept);
    let live = l.get_xnode(&"node-a".to_string(), 100).reservation.unwrap();
    assert_eq!(live.reserved_by, "S");
    assert_eq!(live.reserved_until, 3600);
    let late = l.get_xnode(&"node-a".to_string(), 3600);
    assert!(late.reservation.is_none());
    assert_eq!(l.take_reclaims(), vec!["node-a"]);
}

#[test]
fn restoring_an_unknown_node_is_ignored() {
    let mut l = pool(&["node-a"]);
    let kept = l.restore(
        &"node-z".to_string(),
        Reservation { reserved_by: "S".to_string(), reserved_until: 3600 },
    );
    assert!(!kept);
    assert!(l.get_xnode(&"node-z".to_string(), 0).reservation.is_none());
    assert!(l.get_xnode(&"node-a".to_string(), 0).reservation.is_none());
}

#[test]
fn record_round_trips() {
    let r = Reservation { reserved_by: "S".to_string(), reserved_until: 3600 };
    let text = serialize_reservation(&r);
    assert_eq!(text, "3600 S");
    let back = parse_reservation(&text).unwrap();
    assert_eq!(back.reserved_by, "S");
    assert_eq!(back.reserved_until, 3600);
}

#[test]
fn record_keeps_owner_with_spaces() {
    let r = Reservation { reserved_by: "ip:1.2.3.4 proxy".to_string(), reserved_until: 1 };
    let text = serialize_reservation(&r);
    assert_eq!(text, "1 ip:1.2.3.4 proxy");
    let back = parse_reservation(&text).unwrap();
    assert_eq!(back.reserved_by, "ip:1.2.3.4 proxy");
    assert_eq!(back.reserved_until, 1);
}

#[test]
fn unparsable_records_are_rejected() {
    assert!(parse_reservation(&"junk".to_string()).is_none());
    assert!(parse_reservation(&"".to_string()).is_none());
    assert!(parse_reservation(&"12".to_string()).is_none());
    assert!(parse_reservation(&"x y".to_string()).is_none());
    assert!(parse_reservation(&"18446744073709551616 S".to_string()).is_none());
}
