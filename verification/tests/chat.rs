use forest_chat::api::{check_login, check_registration, check_ws_login, WsLoginError};
use forest_chat::hub::Hub;
use forest_chat::protocol::{valid_name, valid_room, Chat, ClientMsg, ServerMsg};
use forest_chat::session::{handle, Effect};

fn s(x: &str) -> String {
    x.to_string()
}

fn none() -> Vec<(String, String)> {
    Vec::new()
}

fn rows(pairs: &[(&str, &str)]) -> Vec<(String, String)> {
    pairs.iter().map(|(r, role)| (s(r), s(role))).collect()
}

#[test]
fn names_are_letters_digits_dashes_and_underscores() {
    assert!(valid_name("alice"));
    assert!(valid_name("bob_2-x"));
    assert!(valid_name("élodie"));
    assert!(!valid_name(""));
    assert!(!valid_name("has space"));
    assert!(!valid_name("dot.name"));
    assert!(valid_name(&"a".repeat(24)));
    assert!(!valid_name(&"a".repeat(25)));
    assert!(valid_room(&"r".repeat(32)));
    assert!(!valid_room(&"r".repeat(33)));
}

#[test]
fn a_name_is_online_once() {
    let mut hub = Hub::with_rooms(vec![s("general")]);
    assert!(hub.connect("alice"));
    assert!(!hub.connect("alice"));
    assert!(hub.connect("bob"));
    assert_eq!(hub.online(), vec![s("alice"), s("bob")]);
    hub.disconnect("alice");
    assert_eq!(hub.online(), vec![s("bob")]);
    assert!(!hub.send_to_user("alice"));
    assert!(hub.send_to_user("bob"));
}

#[test]
fn room_frames_reach_online_members_only() {
    let mut hub = Hub::with_rooms(vec![s("general")]);
    hub.connect("carol");
    hub.connect("alice");
    assert!(!hub.join("general", "alice"));
    hub.join("general", "carol");
    hub.join("general", "dave");
    assert_eq!(hub.send_to_room("general", None), vec![s("alice"), s("carol")]);
    assert_eq!(hub.send_to_room("general", Some("alice")), vec![s("carol")]);
    assert!(hub.send_to_room("nowhere", None).is_empty());
    assert!(hub.join("fresh", "alice"));
    assert_eq!(hub.rooms(), vec![s("fresh"), s("general")]);
    hub.leave("general", "carol");
    assert!(!hub.is_member("general", "carol"));
    hub.disconnect("alice");
    assert!(!hub.is_member("fresh", "alice"));
    assert_eq!(hub.send_to_users(&vec![s("dave"), s("carol")]), vec![s("carol")]);
    assert_eq!(hub.broadcast(), vec![s("carol")]);
}

#[test]
fn joining_a_new_room_saves_and_announces_it() {
    let mut hub = Hub::with_rooms(vec![s("general")]);
    hub.connect("alice");
    let mine = rows(&[("rust-dev", "creator")]);
    let effects = handle("alice", ClientMsg::Join { room: s("rust-dev") }, &mut hub, &mine, 5);
    assert_eq!(effects.len(), 3);
    assert!(matches!(&effects[0], Effect::SaveRoom { room } if room == "rust-dev"));
    assert!(matches!(&effects[1], Effect::AnnounceRooms { rooms } if rooms.len() == 2));
    assert!(matches!(&effects[2], Effect::Reply(ServerMsg::Joined { room }) if room == "rust-dev"));
    let again = handle("alice", ClientMsg::Join { room: s("rust-dev") }, &mut hub, &mine, 6);
    assert_eq!(again.len(), 1);
    let bad = handle("alice", ClientMsg::Join { room: s("no spaces") }, &mut hub, &none(), 7);
    assert!(matches!(&bad[0], Effect::Reply(ServerMsg::Error { message })
        if message == "Group names use letters, numbers, - and _ (max 32)."));
}

#[test]
fn a_room_message_goes_to_its_members_and_is_saved() {
    let mut hub = Hub::with_rooms(vec![s("general")]);
    hub.connect("alice");
    hub.connect("bob");
    hub.join("general", "alice");
    hub.join("general", "bob");
    let effects = handle(
        "alice",
        ClientMsg::Send { chat: Chat::Room(s("general")), text: s("  hi there ") },
        &mut hub,
        &none(),
        42,
    );
    assert_eq!(effects.len(), 2);
    match &effects[0] {
        Effect::Deliver { users, msg: ServerMsg::Message { from, text, ts, .. } } => {
            assert_eq!(users, &vec![s("alice"), s("bob")]);
            assert_eq!(from, "alice");
            assert_eq!(text, "hi there");
            assert_eq!(*ts, 42);
        }
        other => panic!("unexpected {other:?}"),
    }
    assert!(matches!(&effects[1], Effect::SaveMessage { kind, target, body, .. }
        if kind == "room" && target == "general" && body == "hi there"));

    let blank = handle("alice", ClientMsg::Send { chat: Chat::Room(s("general")), text: s("   ") }, &mut hub, &none(), 1);
    assert!(blank.is_empty());
    let long = handle("alice", ClientMsg::Send { chat: Chat::Room(s("general")), text: "x".repeat(2001) }, &mut hub, &none(), 1);
    assert!(matches!(&long[0], Effect::Reply(ServerMsg::Error { message }) if message == "Message is too long."));
    let outside = handle("carol", ClientMsg::Send { chat: Chat::Room(s("general")), text: s("hey") }, &mut hub, &none(), 1);
    assert!(matches!(&outside[0], Effect::Reply(ServerMsg::Error { message }) if message == "Join the group first."));
}

#[test]
fn a_direct_message_reaches_both_sides_and_is_keyed_by_the_pair() {
    let mut hub = Hub::with_rooms(vec![]);
    hub.connect("bob");
    hub.connect("alice");
    let effects = handle("bob", ClientMsg::Send { chat: Chat::Dm(s("alice")), text: s("yo") }, &mut hub, &none(), 9);
    assert_eq!(effects.len(), 3);
    assert!(matches!(&effects[0], Effect::Deliver { users, msg: ServerMsg::Message { chat: Chat::Dm(k), .. } }
        if users == &vec![s("alice")] && k == "bob"));
    assert!(matches!(&effects[1], Effect::Deliver { users, msg: ServerMsg::Message { chat: Chat::Dm(k), .. } }
        if users == &vec![s("bob")] && k == "alice"));
    assert!(matches!(&effects[2], Effect::SaveMessage { kind, target, .. } if kind == "dm" && target == "alice|bob"));

    let offline = handle("bob", ClientMsg::Send { chat: Chat::Dm(s("zed")), text: s("yo") }, &mut hub, &none(), 9);
    assert_eq!(offline.len(), 2);
    let unknown = handle("bob", ClientMsg::Send { chat: Chat::Dm(s("not valid")), text: s("yo") }, &mut hub, &none(), 9);
    assert!(matches!(&unknown[0], Effect::Reply(ServerMsg::Error { message }) if message == "Unknown person."));
}

#[test]
fn history_and_typing_follow_membership() {
    let mut hub = Hub::with_rooms(vec![s("general")]);
    hub.connect("alice");
    hub.connect("bob");
    hub.join("general", "alice");
    hub.join("general", "bob");
    let h = handle("alice", ClientMsg::History { chat: Chat::Dm(s("bob")) }, &mut hub, &none(), 0);
    assert!(matches!(&h[0], Effect::LoadHistory { kind, target, .. } if kind == "dm" && target == "alice|bob"));
    let t = handle("alice", ClientMsg::Typing { chat: Chat::Room(s("general")), active: true }, &mut hub, &none(), 0);
    assert!(matches!(&t[0], Effect::Deliver { users, .. } if users == &vec![s("bob")]));
    let me = handle("alice", ClientMsg::Typing { chat: Chat::Dm(s("alice")), active: true }, &mut hub, &none(), 0);
    assert!(me.is_empty());
    let left = handle("bob", ClientMsg::Leave { room: s("general") }, &mut hub, &none(), 0);
    assert!(left.is_empty());
    assert!(!hub.is_member("general", "bob"));
}

#[test]
fn sign_up_and_sign_in_requests_are_checked() {
    assert_eq!(check_registration(" alice ", Some(" pw1 ")), Ok((s("alice"), s("pw1"))));
    assert_eq!(
        check_registration("a b", Some("secret")),
        Err(s("Name must be 1-24 letters, numbers, - or _."))
    );
    assert_eq!(check_registration("alice", Some("pw")), Err(s("Password must be at least 3 characters.")));
    assert_eq!(check_registration("alice", None), Err(s("Password must be at least 3 characters.")));
    assert_eq!(check_registration("alice", Some("é1")), Ok((s("alice"), s("é1"))));
    assert_eq!(check_login("alice", None), Ok((s("alice"), s(""))));
    assert_eq!(check_login("", Some("x")), Err(s("Invalid name.")));
    assert_eq!(check_ws_login(" bob ", Some(" t ")), Ok((s("bob"), s("t"))));
    assert_eq!(check_ws_login("bob", None), Err(WsLoginError::TokenRequired));
    assert_eq!(check_ws_login("b o b", Some("t")), Err(WsLoginError::InvalidName));
}

fn error_of(effects: &[Effect]) -> Option<&str> {
    match effects {
        [Effect::Reply(ServerMsg::Error { message })] => Some(message.as_str()),
        _ => None,
    }
}

#[test]
fn restricted_groups_are_for_approved_members_only() {
    let mut hub = Hub::with_rooms(vec![s("general"), s("rust-dev")]);
    hub.connect("alice");
    hub.connect("mallory");
    hub.join("rust-dev", "alice");
    let ask = Some("Ask to join this group first.");

    let join = handle("mallory", ClientMsg::Join { room: s("rust-dev") }, &mut hub, &none(), 1);
    assert_eq!(error_of(&join), ask);
    assert!(!hub.is_member("rust-dev", "mallory"));
    // Not in the group: the sender is told to join it first.
    let join_first = Some("Join the group first.");
    let send = handle("mallory", ClientMsg::Send { chat: Chat::Room(s("rust-dev")), text: s("hi") }, &mut hub, &none(), 1);
    assert_eq!(error_of(&send), join_first);
    let history = handle("mallory", ClientMsg::History { chat: Chat::Room(s("rust-dev")) }, &mut hub, &none(), 1);
    assert_eq!(error_of(&history), join_first);
    // In the room's connections without an approved membership: still refused.
    hub.join("rust-dev", "mallory");
    let send = handle("mallory", ClientMsg::Send { chat: Chat::Room(s("rust-dev")), text: s("hi") }, &mut hub, &none(), 1);
    assert_eq!(error_of(&send), ask);
    let history = handle("mallory", ClientMsg::History { chat: Chat::Room(s("rust-dev")) }, &mut hub, &none(), 1);
    assert_eq!(error_of(&history), ask);
    hub.leave("rust-dev", "mallory");
    let details = handle("mallory", ClientMsg::GetRoomDetails { room: s("rust-dev") }, &mut hub, &none(), 1);
    assert_eq!(error_of(&details), ask);
    let typing = handle("mallory", ClientMsg::Typing { chat: Chat::Room(s("rust-dev")), active: true }, &mut hub, &none(), 1);
    assert!(typing.is_empty());

    // An approved member gets in; general is open to everybody.
    let member = rows(&[("rust-dev", "member")]);
    let ok = handle("mallory", ClientMsg::Join { room: s("rust-dev") }, &mut hub, &member, 2);
    assert!(matches!(&ok[..], [Effect::Reply(ServerMsg::Joined { room })] if room == "rust-dev"));
    let general = handle("mallory", ClientMsg::Join { room: s("general") }, &mut hub, &none(), 2);
    assert!(matches!(&general[..], [Effect::Reply(ServerMsg::Joined { .. })]));
}

#[test]
fn creating_a_group_makes_its_creator() {
    let mut hub = Hub::with_rooms(vec![s("general")]);
    hub.connect("alice");
    let effects = handle("alice", ClientMsg::CreateRoom { room: s("rust-dev") }, &mut hub, &none(), 1);
    assert_eq!(effects.len(), 3);
    assert!(matches!(&effects[0], Effect::CreateRoom { room, creator } if room == "rust-dev" && creator == "alice"));
    assert!(matches!(&effects[1], Effect::AnnounceRooms { rooms } if rooms == &vec![s("general"), s("rust-dev")]));
    assert!(matches!(&effects[2], Effect::Reply(ServerMsg::Joined { room }) if room == "rust-dev"));
    assert!(hub.is_member("rust-dev", "alice"));

    let again = handle("bob", ClientMsg::CreateRoom { room: s("rust-dev") }, &mut hub, &none(), 1);
    assert_eq!(error_of(&again), Some("Group already exists."));
    let bad = handle("bob", ClientMsg::CreateRoom { room: s("a b") }, &mut hub, &none(), 1);
    assert_eq!(error_of(&bad), Some("Group names use letters, numbers, - and _ (max 32)."));
}

#[test]
fn join_requests_reach_the_admins() {
    let mut hub = Hub::with_rooms(vec![s("general"), s("rust-dev")]);
    hub.connect("bob");
    let effects = handle("bob", ClientMsg::RequestJoin { room: s("rust-dev") }, &mut hub, &none(), 1);
    assert_eq!(effects.len(), 3);
    assert!(matches!(&effects[0], Effect::SaveJoinRequest { room, user } if room == "rust-dev" && user == "bob"));
    assert!(matches!(&effects[1], Effect::NotifyAdmins { room, msg: ServerMsg::JoinRequested { user, .. } }
        if room == "rust-dev" && user == "bob"));
    assert!(matches!(&effects[2], Effect::SendRooms { user } if user == "bob"));

    let unknown = handle("bob", ClientMsg::RequestJoin { room: s("nowhere") }, &mut hub, &none(), 1);
    assert_eq!(error_of(&unknown), Some("Unknown group."));
    let member = rows(&[("rust-dev", "member")]);
    let twice = handle("bob", ClientMsg::RequestJoin { room: s("rust-dev") }, &mut hub, &member, 1);
    assert_eq!(error_of(&twice), Some("You are already in this group."));
}

#[test]
fn only_creators_and_admins_decide() {
    let mut hub = Hub::with_rooms(vec![s("general"), s("rust-dev")]);
    hub.connect("alice");
    hub.connect("bob");
    let creator = rows(&[("rust-dev", "creator")]);
    let approve = handle(
        "alice",
        ClientMsg::ApproveJoin { room: s("rust-dev"), user: s("bob") },
        &mut hub,
        &creator,
        1,
    );
    assert_eq!(approve.len(), 4);
    assert!(matches!(&approve[0], Effect::ApproveRequest { room, user } if room == "rust-dev" && user == "bob"));
    assert!(matches!(&approve[1], Effect::Reply(ServerMsg::JoinApproved { .. })));
    assert!(matches!(&approve[2], Effect::Deliver { users, msg: ServerMsg::JoinApproved { .. } } if users == &vec![s("bob")]));
    assert!(matches!(&approve[3], Effect::SendRooms { user } if user == "bob"));

    let admin = rows(&[("rust-dev", "admin")]);
    let reject = handle("alice", ClientMsg::RejectJoin { room: s("rust-dev"), user: s("carl") }, &mut hub, &admin, 1);
    // carl is offline, so nobody is told but the admin.
    assert_eq!(reject.len(), 3);
    assert!(matches!(&reject[0], Effect::RejectRequest { user, .. } if user == "carl"));
    let promote = handle("alice", ClientMsg::PromoteAdmin { room: s("rust-dev"), user: s("bob") }, &mut hub, &admin, 1);
    assert!(matches!(&promote[0], Effect::PromoteAdmin { user, .. } if user == "bob"));
    assert!(matches!(&promote[1], Effect::Reply(ServerMsg::AdminPromoted { .. })));

    let member = rows(&[("rust-dev", "member")]);
    let refused = handle("bob", ClientMsg::PromoteAdmin { room: s("rust-dev"), user: s("bob") }, &mut hub, &member, 1);
    assert_eq!(error_of(&refused), Some("Only group admins can do that."));
    let details = handle("bob", ClientMsg::GetRoomDetails { room: s("rust-dev") }, &mut hub, &member, 1);
    assert!(matches!(&details[..], [Effect::LoadRoomDetails { is_admin: false, .. }]));
    let details = handle("alice", ClientMsg::GetRoomDetails { room: s("rust-dev") }, &mut hub, &admin, 1);
    assert!(matches!(&details[..], [Effect::LoadRoomDetails { is_admin: true, .. }]));
}
