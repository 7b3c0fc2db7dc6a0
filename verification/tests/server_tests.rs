use rapid_net::chunks::chunk_bounds;
use rapid_net::server::{
    broadcast_failures, broadcast_outcome, broadcast_recipients, send_outcome, ServerError, BROADCAST_BATCH_SIZE,
};
use std::collections::HashSet;
use uuid::Uuid;

#[test]
fn send_to_unknown_client_is_not_found() {
    let id = Uuid::new_v4().as_u128();
    match send_outcome::<()>(id, None) {
        Err(ServerError::ClientNotFound(got)) => assert_eq!(got, id),
        other => panic!("Expected ClientNotFound error, got {:?}", other),
    }
}

#[test]
fn send_outcomes() {
    assert!(send_outcome::<()>(3, Some(Ok(()))).is_ok());
    match send_outcome(3, Some(Err("closed"))) {
        Err(ServerError::SendFailed(got)) => assert_eq!(got, 3),
        other => panic!("Expected SendFailed, got {:?}", other),
    }
}

#[test]
fn broadcast_skips_excluded() {
    let clients = vec![1u128, 2, 3, 4, 5];
    let exclude: HashSet<u128> = [2u128, 4, 9].into_iter().collect();
    assert_eq!(broadcast_recipients(&clients, Some(&exclude)), vec![1, 3, 5]);
    assert_eq!(broadcast_recipients(&clients, None), clients);
    assert!(broadcast_recipients(&vec![], Some(&exclude)).is_empty());
}

#[test]
fn broadcast_fails_only_when_every_send_fails() {
    match broadcast_outcome(3, vec![(), (), ()]) {
        Err(ServerError::BroadcastFailed(errs)) => assert_eq!(errs.len(), 3),
        other => panic!("Expected BroadcastFailed, got {:?}", other),
    }
    assert!(broadcast_outcome(3, vec![(), ()]).is_ok());
    assert!(broadcast_outcome(3, vec![]).is_ok());
    assert!(broadcast_outcome(0, vec![]).is_ok());
}

#[test]
fn broadcast_batches_of_one_hundred() {
    let b = chunk_bounds(256, BROADCAST_BATCH_SIZE);
    assert_eq!(b, vec![(0, 100), (100, 200), (200, 256)]);
    assert!(chunk_bounds(0, BROADCAST_BATCH_SIZE).is_empty());
    assert_eq!(chunk_bounds(100, BROADCAST_BATCH_SIZE), vec![(0, 100)]);
}

#[test]
fn broadcast_drops_failed_recipients() {
    let results: Vec<Result<(), u128>> = vec![Ok(()), Err(4), Ok(()), Err(7)];
    let (ids, failures) = broadcast_failures(&results);
    assert_eq!(ids, vec![4, 7]);
    assert_eq!(failures.len(), 2);
    let (ids, failures) = broadcast_failures(&vec![Ok(()), Ok(())]);
    assert!(ids.is_empty());
    assert!(failures.is_empty());
}
