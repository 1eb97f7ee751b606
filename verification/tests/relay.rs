use kreivo_monitor::relay::{RelaySession, TransmitOutcome};

#[test]
fn empty_batch_attempts_no_destination() {
    let s = RelaySession::begin(3, 0);
    assert_eq!(s.next_destination(), None);
}

#[test]
fn non_empty_batch_starts_at_first_destination() {
    let s = RelaySession::begin(3, 10);
    assert_eq!(s.next_destination(), Some(0));
}

#[test]
fn transport_failure_short_circuits_remaining_destinations() {
    let mut s = RelaySession::begin(2, 1);
    assert_eq!(s.next_destination(), Some(0));
    s.record(TransmitOutcome::TransportFailed);
    // the second destination is not attempted in the same call
    assert_eq!(s.next_destination(), None);
}

#[test]
fn build_failure_skips_to_next_destination() {
    let mut s = RelaySession::begin(2, 1);
    s.record(TransmitOutcome::BuildFailed);
    assert_eq!(s.next_destination(), Some(1));
}

#[test]
fn delivery_walks_all_destinations_in_order() {
    let mut s = RelaySession::begin(3, 1);
    let mut seen = Vec::new();
    while let Some(i) = s.next_destination() {
        seen.push(i);
        s.record(TransmitOutcome::Delivered);
    }
    assert_eq!(seen, vec![0, 1, 2]);
}

#[test]
fn no_destinations_means_nothing_to_do() {
    let s = RelaySession::begin(0, 5);
    assert_eq!(s.next_destination(), None);
}
