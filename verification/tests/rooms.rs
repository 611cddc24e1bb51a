use forest_chat::meeting::protocol::PeerInfo;
use forest_chat::meeting::rooms::{JoinOutcome, RoomManager, MAX_ROOM_PARTICIPANTS};

fn admitted(outcome: JoinOutcome) -> (Vec<PeerInfo>, Vec<u64>) {
    match outcome {
        JoinOutcome::Admitted { existing_peers, existing_senders } => (existing_peers, existing_senders),
        JoinOutcome::AwaitingApproval { .. } => panic!("expected an immediate admission"),
    }
}

// Senders are named by the numbers their connections were given.
const TX1: u64 = 1;
const TX2: u64 = 2;

#[test]
fn test_room_lifecycle() {
    let mut mgr = RoomManager::new();

    // Peer 1 opens the room and hosts it
    let (existing, senders) = admitted(
        mgr.join_peer("test-room", "peer1".into(), "Alice".into(), TX1).unwrap(),
    );
    assert!(existing.is_empty());
    assert!(senders.is_empty());

    let peers = mgr.list_peers("test-room");
    assert_eq!(peers.len(), 1);
    assert!(peers[0].is_host);

    // Peer 2 knocks and is approved
    let outcome = mgr.join_peer("test-room", "peer2".into(), "Bob".into(), TX2).unwrap();
    assert!(matches!(outcome, JoinOutcome::AwaitingApproval { .. }));

    let (info, _tx, existing2, senders2) = mgr.approve_peer("test-room", "peer2").unwrap();
    assert_eq!(info.name, "Bob");
    assert!(!info.is_host);
    assert_eq!(existing2.len(), 1);
    assert_eq!(existing2[0].peer_id, "peer1");
    assert_eq!(senders2.len(), 1);

    // Direct routing test: the offer goes to peer 1's sender
    let routed = mgr.route_to_peer("test-room", "peer1");
    assert!(routed.is_some());
    assert_eq!(routed, Some(TX1));

    // Leave peer 2
    let remaining = mgr.leave_peer("test-room", "peer2");
    assert_eq!(remaining.len(), 1);

    // Leave peer 1 (empty room cleaned up)
    let remaining_after = mgr.leave_peer("test-room", "peer1");
    assert!(remaining_after.is_empty());
    assert!(mgr.list_peers("test-room").is_empty());
}

#[test]
fn a_guest_stays_out_until_the_host_approves() {
    let mut mgr = RoomManager::new();

    admitted(mgr.join_peer("room", "host".into(), "Alice".into(), TX1).unwrap());

    let outcome = mgr.join_peer("room", "guest".into(), "Bob".into(), TX2).unwrap();

    // The knock reaches the host, and the guest is not a participant yet.
    match outcome {
        JoinOutcome::AwaitingApproval { host_tx } => assert_eq!(host_tx, TX1),
        JoinOutcome::Admitted { .. } => panic!("a guest must not walk straight in"),
    }
    assert_eq!(mgr.list_peers("room").len(), 1);

    mgr.approve_peer("room", "guest").unwrap();
    assert_eq!(mgr.list_peers("room").len(), 2);
}

#[test]
fn a_rejected_guest_is_dropped_rather_than_admitted() {
    let mut mgr = RoomManager::new();

    admitted(mgr.join_peer("room", "host".into(), "Alice".into(), TX1).unwrap());
    mgr.join_peer("room", "guest".into(), "Bob".into(), TX2).unwrap();

    assert!(mgr.reject_peer("room", "guest").is_some());
    assert_eq!(mgr.list_peers("room").len(), 1);
    // A second verdict on the same guest has nothing left to act on.
    assert!(mgr.approve_peer("room", "guest").is_none());
}

#[test]
fn a_full_room_turns_people_away() {
    let mut mgr = RoomManager::new();
    admitted(mgr.join_peer("room", "p0".into(), "Host".into(), 100).unwrap());
    for i in 1..MAX_ROOM_PARTICIPANTS {
        let id = format!("p{i}");
        mgr.join_peer("room", id.clone(), "Guest".into(), 100 + i as u64).unwrap();
        mgr.approve_peer("room", &id).unwrap();
    }
    assert_eq!(mgr.list_peers("room").len(), MAX_ROOM_PARTICIPANTS);
    assert!(mgr.join_peer("room", "late".into(), "Late".into(), 999).is_err());
}

#[test]
fn only_the_first_peer_hosts() {
    let mut mgr = RoomManager::new();
    admitted(mgr.join_peer("room", "host".into(), "Alice".into(), TX1).unwrap());
    mgr.join_peer("room", "guest".into(), "Bob".into(), TX2).unwrap();
    mgr.approve_peer("room", "guest").unwrap();
    assert!(mgr.is_host("room", "host"));
    assert!(!mgr.is_host("room", "guest"));
    assert!(!mgr.is_host("elsewhere", "host"));
    assert_eq!(mgr.broadcast_except("room", "host"), vec![TX2]);
    assert_eq!(mgr.route_to_peer("room", "nobody"), None);
}

#[test]
fn a_created_room_awaits_its_host() {
    let mut mgr = RoomManager::new();
    mgr.create_room("room", "host");
    // The named host walks in; anybody else waits for it.
    let (existing, _) = admitted(mgr.join_peer("room", "host".into(), "Alice".into(), TX1).unwrap());
    assert!(existing.is_empty());
    assert!(mgr.is_host("room", "host"));
}
