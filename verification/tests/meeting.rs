use forest_chat::meeting::commands::{
    apply_signal, exclude_own_room, hosted_meeting, joined_meeting, join_address, join_decision, lan_ip_info, meeting_chat_text, meeting_name,
    meeting_room_id, meeting_url, room_code, sync_advertised_count, ClientAction,
};
use forest_chat::meeting::discovery::{is_probe, record_reply, DiscoveredRoom};
use forest_chat::meeting::protocol::{PeerInfo, SignalingMessage};
use forest_chat::meeting::rooms::RoomManager;
use forest_chat::meeting::signaling::{on_client_message, on_session_end, ServerSession};

fn s(x: &str) -> String {
    x.to_string()
}

fn room(id: &str, ip: &str, count: usize) -> DiscoveredRoom {
    DiscoveredRoom { room_id: s(id), host_name: s("Rwanda"), host_ip: s(ip), port: 8080, participant_count: count }
}

fn peer(id: &str, name: &str, host: bool) -> PeerInfo {
    PeerInfo { peer_id: s(id), name: s(name), is_host: host }
}

#[test]
fn meeting_names_and_room_ids_are_trimmed_and_required() {
    assert_eq!(meeting_name("  Ana "), Ok(s("Ana")));
    assert_eq!(meeting_name("   "), Err(s("Name cannot be empty")));
    assert_eq!(meeting_room_id(" a1b2c3\n"), Ok(s("a1b2c3")));
    assert_eq!(meeting_room_id(""), Err(s("Room ID cannot be empty")));
}

#[test]
fn a_join_target_becomes_a_signalling_url() {
    assert_eq!(meeting_url("192.168.1.78", "a1b2c3"), "ws://192.168.1.78:8080/ws/meeting/a1b2c3");
    assert_eq!(meeting_url(" 10.0.0.2:9000 ", "r"), "ws://10.0.0.2:9000/ws/meeting/r");
    assert_eq!(meeting_url("ws://host:1/ws/meeting/x ", "ignored"), "ws://host:1/ws/meeting/x");
    assert_eq!(meeting_url("wss://secure/x", "r"), "wss://secure/x");
    assert_eq!(join_address("192.168.1.78", 8080, "a1b2c3"), "ws://192.168.1.78:8080/ws/meeting/a1b2c3");
    assert_eq!(join_address("127.0.0.1", 0, "r"), "ws://127.0.0.1:0/ws/meeting/r");
}

#[test]
fn a_room_code_is_six_lower_case_characters() {
    assert_eq!(room_code("A1B2C3D4E5F6"), "a1b2c3");
    assert_eq!(room_code("abcdef"), "abcdef");
}

#[test]
fn only_the_host_decides_on_guests() {
    assert!(matches!(
        join_decision(true, true, s("g"), true),
        Ok(SignalingMessage::JoinDecision { peer_id, accept: true }) if peer_id == "g"
    ));
    assert_eq!(join_decision(false, true, s("g"), true).unwrap_err(), "Not currently in a meeting");
    assert_eq!(join_decision(true, false, s("g"), false).unwrap_err(), "Only the host can admit people");
}

#[test]
fn chat_lines_are_trimmed_and_blank_ones_dropped() {
    assert_eq!(meeting_chat_text("  hi  ", true), Ok(Some(s("hi"))));
    assert_eq!(meeting_chat_text("   ", false), Ok(None));
    assert_eq!(meeting_chat_text("hi", false), Err(s("Not currently in a meeting")));
}

#[test]
fn discovery_answers_only_its_probe_and_lists_each_room_once() {
    assert!(is_probe(b"FOREST_CHAT_DISCOVER_V1"));
    assert!(!is_probe(b"FOREST_CHAT_DISCOVER_V2"));
    assert!(!is_probe(b""));
    let mut rooms = Vec::new();
    record_reply(&mut rooms, room("a1b2c3", "0.0.0.0", 1), s("192.168.1.78"));
    record_reply(&mut rooms, room("a1b2c3", "0.0.0.0", 3), s("192.168.1.79"));
    record_reply(&mut rooms, room("zzz", "1.1.1.1", 2), s("192.168.1.80"));
    assert_eq!(rooms.len(), 2);
    assert_eq!(rooms[0].host_ip, "192.168.1.78");
    assert_eq!(rooms[0].participant_count, 1);
    assert_eq!(rooms[1].host_ip, "192.168.1.80");
    let others = exclude_own_room(rooms, Some("a1b2c3"));
    assert_eq!(others.len(), 1);
    assert_eq!(others[0].room_id, "zzz");
}

#[test]
fn the_advertised_count_follows_the_room() {
    let mut adv = Some(room("r", "ip", 1));
    sync_advertised_count(&mut adv, 4);
    assert_eq!(adv.as_ref().unwrap().participant_count, 4);
    let mut none: Option<DiscoveredRoom> = None;
    sync_advertised_count(&mut none, 4);
    assert!(none.is_none());
}

#[test]
fn the_client_tracks_participants_from_signals() {
    let mut participants = vec![peer("me", "Ana", true)];
    let mut adv = Some(room("r", "ip", 1));
    let actions = apply_signal(
        &mut participants,
        &mut adv,
        SignalingMessage::PeerJoined { peer_id: s("p2"), name: s("Bob"), existing_peers: vec![] },
    );
    assert_eq!(participants.len(), 2);
    assert_eq!(adv.as_ref().unwrap().participant_count, 2);
    assert!(matches!(&actions[0], ClientAction::ParticipantsUpdated(v) if v.len() == 2));
    assert!(matches!(&actions[1], ClientAction::Connect(p) if p == "p2"));

    // The same peer announced twice is listed once.
    apply_signal(
        &mut participants,
        &mut adv,
        SignalingMessage::PeerJoined { peer_id: s("p2"), name: s("Bob"), existing_peers: vec![] },
    );
    assert_eq!(participants.len(), 2);

    apply_signal(&mut participants, &mut adv, SignalingMessage::PeerLeft { peer_id: s("p2") });
    assert_eq!(participants.len(), 1);
    assert_eq!(adv.as_ref().unwrap().participant_count, 1);
}

#[test]
fn a_guest_is_welcomed_with_the_room_and_announced_to_it() {
    let mut rooms = RoomManager::new();
    let mut host = ServerSession::new(s("room"), 1);
    let (out, close) = on_client_message(
        &mut host,
        &mut rooms,
        SignalingMessage::JoinRoom { room_id: s("room"), peer_id: s("host"), name: s("Alice") },
    );
    assert!(!close);
    assert_eq!(out.len(), 1);
    assert_eq!(out[0].0, 1);

    let mut guest = ServerSession::new(s("room"), 2);
    let (out, _) = on_client_message(
        &mut guest,
        &mut rooms,
        SignalingMessage::JoinRoom { room_id: s("room"), peer_id: s("guest"), name: s("Bob") },
    );
    assert_eq!(out.len(), 2);
    assert!(matches!(&out[0], (1, SignalingMessage::JoinRequested { peer_id, .. }) if peer_id == "guest"));
    assert!(matches!(&out[1], (2, SignalingMessage::JoinPending { room_id }) if room_id == "room"));

    let (out, _) = on_client_message(
        &mut host,
        &mut rooms,
        SignalingMessage::JoinDecision { peer_id: s("guest"), accept: true },
    );
    assert_eq!(out.len(), 2);
    assert!(matches!(&out[0], (2, SignalingMessage::PeerJoined { existing_peers, .. }) if existing_peers.len() == 1));
    assert!(matches!(&out[1], (1, SignalingMessage::PeerJoined { existing_peers, .. }) if existing_peers.is_empty()));

    let (out, _) = on_client_message(
        &mut guest,
        &mut rooms,
        SignalingMessage::Offer { from_peer_id: s("guest"), to_peer_id: s("host"), sdp: s("v=0") },
    );
    assert!(matches!(&out[..], [(1, SignalingMessage::Offer { sdp, .. })] if sdp == "v=0"));

    let out = on_session_end(&guest, &mut rooms);
    assert!(matches!(&out[..], [(1, SignalingMessage::PeerLeft { peer_id })] if peer_id == "guest"));
    assert_eq!(rooms.list_peers("room").len(), 1);
}

#[test]
fn the_lan_address_falls_back_to_loopback() {
    let info = lan_ip_info(Some(s("192.168.1.78")));
    assert_eq!(info.local_ip, "192.168.1.78");
    assert_eq!(info.default_port, 8080);
    assert_eq!(lan_ip_info(None).local_ip, "127.0.0.1");
}

#[test]
fn meeting_records_name_the_host_and_the_guest() {
    let host = hosted_meeting(s("a1b2c3"), s("p1"), s("Ana"), s("192.168.1.78"), 8080);
    assert_eq!(host.join_address, "ws://192.168.1.78:8080/ws/meeting/a1b2c3");
    assert!(host.is_host);
    assert_eq!(host.participants, vec![peer("p1", "Ana", true)]);
    let guest = joined_meeting(s("a1b2c3"), s("p2"), s("Bob"), s("192.168.1.80"), s("ws://h:1/ws/meeting/a1b2c3"));
    assert!(!guest.is_host);
    assert_eq!(guest.join_address, "ws://h:1/ws/meeting/a1b2c3");
    assert_eq!(guest.participants, vec![peer("p2", "Bob", false)]);
}
