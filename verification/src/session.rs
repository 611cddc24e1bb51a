//! What one chat connection does with each message its client sends.
//!
//! [`handle`] decides, from the message and the hub, who is told what and what
//! is stored; the caller performs the effects it returns, in order, on the
//! connection, the other connections and the database.

use vstd::prelude::*;

use crate::db::{default_room, dm_key, is_admin_role, rows_view, spec_dm_key, spec_is_admin_role};
use crate::hub::{after_join, after_leave, members_of, room_recipients, Hub, HubView};
use crate::names::{names_view, sorted_names};
use crate::protocol::{
    spec_valid_ident, valid_name, valid_room, Chat, ChatView, ClientMsg, ServerMsg, ServerMsgView,
    MAX_NAME_LEN, MAX_ROOM_LEN, MAX_TEXT_LEN,
};
use crate::text::{chars_of, trim_str, trimmed};

verus! {

/// One thing to do after a client message.
#[derive(Debug)]
pub enum Effect {
    /// Send to this connection's own client.
    Reply(ServerMsg),
    /// Send to each of these online users.
    Deliver { users: Vec<String>, msg: ServerMsg },
    /// Record a room that has just been made.
    SaveRoom { room: String },
    /// Tell everybody online the new list of rooms, each with their own standing in them.
    AnnounceRooms { rooms: Vec<String> },
    /// Store a message of a chat.
    SaveMessage { kind: String, target: String, sender: String, body: String, ts: i64 },
    /// Load a chat's latest messages and reply with them.
    LoadHistory { kind: String, target: String, chat: Chat },
    /// Record a new group made by `creator`, who becomes its `creator`.
    CreateRoom { room: String, creator: String },
    /// Record `user`'s request to join `room`.
    SaveJoinRequest { room: String, user: String },
    /// Make `user` a member of `room`, ending its request.
    ApproveRequest { room: String, user: String },
    /// Drop `user`'s request to join `room`.
    RejectRequest { room: String, user: String },
    /// Make the member `user` an admin of `room`.
    PromoteAdmin { room: String, user: String },
    /// Send `msg` to the online creators and admins of `room`.
    NotifyAdmins { room: String, msg: ServerMsg },
    /// Send `user`, if online, the list of rooms with its own standing in them.
    SendRooms { user: String },
    /// Load the members and the requests of `room` and reply with them.
    LoadRoomDetails { room: String, is_admin: bool },
}

pub enum EffectView {
    Reply(ServerMsgView),
    Deliver { users: Seq<Seq<char>>, msg: ServerMsgView },
    SaveRoom { room: Seq<char> },
    AnnounceRooms { rooms: Seq<Seq<char>> },
    SaveMessage { kind: Seq<char>, target: Seq<char>, sender: Seq<char>, body: Seq<char>, ts: i64 },
    LoadHistory { kind: Seq<char>, target: Seq<char>, chat: ChatView },
    CreateRoom { room: Seq<char>, creator: Seq<char> },
    SaveJoinRequest { room: Seq<char>, user: Seq<char> },
    ApproveRequest { room: Seq<char>, user: Seq<char> },
    RejectRequest { room: Seq<char>, user: Seq<char> },
    PromoteAdmin { room: Seq<char>, user: Seq<char> },
    NotifyAdmins { room: Seq<char>, msg: ServerMsgView },
    SendRooms { user: Seq<char> },
    LoadRoomDetails { room: Seq<char>, is_admin: bool },
}

impl View for Effect {
    type V = EffectView;

    open spec fn view(&self) -> EffectView {
        match self {
            Effect::Reply(m) => EffectView::Reply(m@),
            Effect::Deliver { users, msg } => EffectView::Deliver { users: names_view(users@), msg: msg@ },
            Effect::SaveRoom { room } => EffectView::SaveRoom { room: room@ },
            Effect::AnnounceRooms { rooms } => EffectView::AnnounceRooms { rooms: names_view(rooms@) },
            Effect::SaveMessage { kind, target, sender, body, ts } => EffectView::SaveMessage {
                kind: kind@,
                target: target@,
                sender: sender@,
                body: body@,
                ts: *ts,
            },
            Effect::LoadHistory { kind, target, chat } => EffectView::LoadHistory {
                kind: kind@,
                target: target@,
                chat: chat@,
            },
            Effect::CreateRoom { room, creator } => EffectView::CreateRoom { room: room@, creator: creator@ },
            Effect::SaveJoinRequest { room, user } => EffectView::SaveJoinRequest { room: room@, user: user@ },
            Effect::ApproveRequest { room, user } => EffectView::ApproveRequest { room: room@, user: user@ },
            Effect::RejectRequest { room, user } => EffectView::RejectRequest { room: room@, user: user@ },
            Effect::PromoteAdmin { room, user } => EffectView::PromoteAdmin { room: room@, user: user@ },
            Effect::NotifyAdmins { room, msg } => EffectView::NotifyAdmins { room: room@, msg: msg@ },
            Effect::SendRooms { user } => EffectView::SendRooms { user: user@ },
            Effect::LoadRoomDetails { room, is_admin } => EffectView::LoadRoomDetails {
                room: room@,
                is_admin: *is_admin,
            },
        }
    }
}

pub open spec fn effects_view(e: Seq<Effect>) -> Seq<EffectView> {
    e.map_values(|x: Effect| x@)
}

/// `users` lists the set `who` in code-point order, each once.
pub open spec fn lists_in_order(users: Seq<Seq<char>>, who: Set<Seq<char>>) -> bool {
    sorted_names(users) && users.to_set() == who
}

pub open spec fn bad_group_name_text() -> Seq<char> {
    "Group names use letters, numbers, - and _ (max 32)."@
}

pub open spec fn too_long_text() -> Seq<char> {
    "Message is too long."@
}

pub open spec fn join_first_text() -> Seq<char> {
    "Join the group first."@
}

pub open spec fn unknown_person_text() -> Seq<char> {
    "Unknown person."@
}

pub open spec fn ask_first_text() -> Seq<char> {
    "Ask to join this group first."@
}

pub open spec fn group_exists_text() -> Seq<char> {
    "Group already exists."@
}

pub open spec fn unknown_group_text() -> Seq<char> {
    "Unknown group."@
}

pub open spec fn already_in_text() -> Seq<char> {
    "You are already in this group."@
}

pub open spec fn admins_only_text() -> Seq<char> {
    "Only group admins can do that."@
}

/// Whether the user whose membership rows, `(room, role)`, are `rows` may
/// read and write `room`: `general` is open to all, any other group only to
/// its approved members.
pub open spec fn approved(rows: Seq<(Seq<char>, Seq<char>)>, room: Seq<char>) -> bool {
    room == default_room() || exists|i: int| 0 <= i < rows.len() && (#[trigger] rows[i]).0 == room
}

/// Whether that user is a creator or an admin of `room`.
pub open spec fn administers(rows: Seq<(Seq<char>, Seq<char>)>, room: Seq<char>) -> bool {
    exists|i: int| 0 <= i < rows.len() && (#[trigger] rows[i]).0 == room && spec_is_admin_role(rows[i].1)
}

/// What an admin's verdict on `user` in `room` does: it is recorded, the
/// admin is answered, `user` is told if online, and gets its new standing.
pub open spec fn verdict_effects(
    h: HubView,
    record: EffectView,
    user: Seq<char>,
    msg: ServerMsgView,
) -> Seq<EffectView> {
    seq![record, EffectView::Reply(msg)] + deliver_if_online(h, user, msg) + seq![
        EffectView::SendRooms { user },
    ]
}

pub open spec fn error_reply(text: Seq<char>) -> EffectView {
    EffectView::Reply(ServerMsgView::Error { message: text })
}

/// Delivery of `msg` to `user`, if the user is online.
pub open spec fn deliver_if_online(h: HubView, user: Seq<char>, msg: ServerMsgView) -> Seq<EffectView> {
    if h.users.contains(user) {
        seq![EffectView::Deliver { users: seq![user], msg }]
    } else {
        Seq::empty()
    }
}

/// What sending `text` to `chat` does, when the text is acceptable.
pub open spec fn send_effects(
    rows: Seq<(Seq<char>, Seq<char>)>,
    name: Seq<char>,
    chat: ChatView,
    text: Seq<char>,
    h: HubView,
    ts: i64,
    effects: Seq<EffectView>,
) -> bool {
    match chat {
        ChatView::Room(room) => if !members_of(h, room).contains(name) {
            effects == seq![error_reply(join_first_text())]
        } else if !approved(rows, room) {
            effects == seq![error_reply(ask_first_text())]
        } else {
            &&& effects.len() == 2
            &&& effects[0] matches EffectView::Deliver { users, msg }
            &&& lists_in_order(users, room_recipients(h, room, None))
            &&& msg == ServerMsgView::Message { chat: ChatView::Room(room), from: name, text, ts }
            &&& effects[1] == EffectView::SaveMessage {
                kind: "room"@,
                target: room,
                sender: name,
                body: text,
                ts,
            }
        },
        ChatView::Dm(peer) => if !spec_valid_ident(peer, MAX_NAME_LEN as int) {
            effects == seq![error_reply(unknown_person_text())]
        } else {
            effects == deliver_if_online(
                h,
                peer,
                ServerMsgView::Message { chat: ChatView::Dm(name), from: name, text, ts },
            ) + (if peer != name {
                deliver_if_online(
                    h,
                    name,
                    ServerMsgView::Message { chat: ChatView::Dm(peer), from: name, text, ts },
                )
            } else {
                Seq::empty()
            }) + seq![
                EffectView::SaveMessage {
                    kind: "dm"@,
                    target: spec_dm_key(name, peer),
                    sender: name,
                    body: text,
                    ts,
                },
            ]
        },
    }
}

/// What handling `msg` from `name` does to the hub and what it asks for.
pub open spec fn handled(
    rows: Seq<(Seq<char>, Seq<char>)>,
    name: Seq<char>,
    msg: ClientMsg,
    h: HubView,
    h2: HubView,
    ts: i64,
    effects: Seq<EffectView>,
) -> bool {
    match msg {
        ClientMsg::Join { room } => if !spec_valid_ident(room@, MAX_ROOM_LEN as int) {
            h2 == h && effects == seq![error_reply(bad_group_name_text())]
        } else if !approved(rows, room@) {
            h2 == h && effects == seq![error_reply(ask_first_text())]
        } else {
            &&& h2 == after_join(h, room@, name)
            &&& if h.rooms.dom().contains(room@) {
                effects == seq![EffectView::Reply(ServerMsgView::Joined { room: room@ })]
            } else {
                &&& effects.len() == 3
                &&& effects[0] == EffectView::SaveRoom { room: room@ }
                &&& effects[1] matches EffectView::AnnounceRooms { rooms }
                &&& lists_in_order(rooms, h2.rooms.dom())
                &&& effects[2] == EffectView::Reply(ServerMsgView::Joined { room: room@ })
            }
        },
        ClientMsg::Leave { room } => h2 == after_leave(h, room@, name) && effects.len() == 0,
        ClientMsg::Send { chat, text } => {
            &&& h2 == h
            &&& if trimmed(text@).len() == 0 {
                effects.len() == 0
            } else if trimmed(text@).len() > MAX_TEXT_LEN {
                effects == seq![error_reply(too_long_text())]
            } else {
                send_effects(rows, name, chat@, trimmed(text@), h, ts, effects)
            }
        },
        ClientMsg::Typing { chat, active } => {
            &&& h2 == h
            &&& match chat@ {
                ChatView::Room(room) => if approved(rows, room) && members_of(h, room).contains(name) {
                    &&& effects.len() == 1
                    &&& effects[0] matches EffectView::Deliver { users, msg }
                    &&& lists_in_order(users, room_recipients(h, room, Some(name)))
                    &&& msg == ServerMsgView::Typing { chat: ChatView::Room(room), from: name, active }
                } else {
                    effects.len() == 0
                },
                ChatView::Dm(peer) => if peer != name {
                    effects == deliver_if_online(
                        h,
                        peer,
                        ServerMsgView::Typing { chat: ChatView::Dm(name), from: name, active },
                    )
                } else {
                    effects.len() == 0
                },
            }
        },
        ClientMsg::History { chat } => {
            &&& h2 == h
            &&& match chat@ {
                ChatView::Room(room) => if !members_of(h, room).contains(name) {
                    effects == seq![error_reply(join_first_text())]
                } else if !approved(rows, room) {
                    effects == seq![error_reply(ask_first_text())]
                } else {
                    effects == seq![EffectView::LoadHistory { kind: "room"@, target: room, chat: chat@ }]
                },
                ChatView::Dm(peer) => effects == seq![
                    EffectView::LoadHistory { kind: "dm"@, target: spec_dm_key(name, peer), chat: chat@ },
                ],
            }
        },
        ClientMsg::CreateRoom { room } => if !spec_valid_ident(room@, MAX_ROOM_LEN as int) {
            h2 == h && effects == seq![error_reply(bad_group_name_text())]
        } else if h.rooms.dom().contains(room@) {
            h2 == h && effects == seq![error_reply(group_exists_text())]
        } else {
            &&& h2 == after_join(h, room@, name)
            &&& effects.len() == 3
            &&& effects[0] == EffectView::CreateRoom { room: room@, creator: name }
            &&& effects[1] matches EffectView::AnnounceRooms { rooms }
            &&& lists_in_order(rooms, h2.rooms.dom())
            &&& effects[2] == EffectView::Reply(ServerMsgView::Joined { room: room@ })
        },
        ClientMsg::RequestJoin { room } => {
            &&& h2 == h
            &&& if !h.rooms.dom().contains(room@) {
                effects == seq![error_reply(unknown_group_text())]
            } else if approved(rows, room@) {
                effects == seq![error_reply(already_in_text())]
            } else {
                effects == seq![
                    EffectView::SaveJoinRequest { room: room@, user: name },
                    EffectView::NotifyAdmins {
                        room: room@,
                        msg: ServerMsgView::JoinRequested { room: room@, user: name },
                    },
                    EffectView::SendRooms { user: name },
                ]
            }
        },
        ClientMsg::ApproveJoin { room, user } => {
            &&& h2 == h
            &&& if !administers(rows, room@) {
                effects == seq![error_reply(admins_only_text())]
            } else {
                effects == verdict_effects(
                    h,
                    EffectView::ApproveRequest { room: room@, user: user@ },
                    user@,
                    ServerMsgView::JoinApproved { room: room@, user: user@ },
                )
            }
        },
        ClientMsg::RejectJoin { room, user } => {
            &&& h2 == h
            &&& if !administers(rows, room@) {
                effects == seq![error_reply(admins_only_text())]
            } else {
                effects == verdict_effects(
                    h,
                    EffectView::RejectRequest { room: room@, user: user@ },
                    user@,
                    ServerMsgView::JoinRejected { room: room@, user: user@ },
                )
            }
        },
        ClientMsg::PromoteAdmin { room, user } => {
            &&& h2 == h
            &&& if !administers(rows, room@) {
                effects == seq![error_reply(admins_only_text())]
            } else {
                effects == verdict_effects(
                    h,
                    EffectView::PromoteAdmin { room: room@, user: user@ },
                    user@,
                    ServerMsgView::AdminPromoted { room: room@, user: user@ },
                )
            }
        },
        ClientMsg::GetRoomDetails { room } => {
            &&& h2 == h
            &&& if !approved(rows, room@) {
                effects == seq![error_reply(ask_first_text())]
            } else {
                effects == seq![
                    EffectView::LoadRoomDetails { room: room@, is_admin: administers(rows, room@) },
                ]
            }
        },
    }
}

fn error_effect(text: &str) -> (e: Effect)
    ensures
        e@ == error_reply(text@),
{
    Effect::Reply(ServerMsg::Error { message: text.to_owned() })
}

/// A one-name list.
fn single(name: &str) -> (v: Vec<String>)
    ensures
        names_view(v@) == seq![name@],
{
    let mut v: Vec<String> = Vec::new();
    v.push(name.to_owned());
    assert(names_view(v@) =~= seq![name@]);
    v
}

/// Adds delivery of `msg` to `user` if the user is online.
fn push_if_online(out: &mut Vec<Effect>, hub: &Hub, user: &str, msg: ServerMsg)
    requires
        hub.wf(),
    ensures
        effects_view(final(out)@) == effects_view(old(out)@) + deliver_if_online(hub@, user@, msg@),
{
    if hub.send_to_user(user) {
        let ghost before = effects_view(out@);
        out.push(Effect::Deliver { users: single(user), msg });
        assert(effects_view(out@) =~= before + deliver_if_online(hub@, user@, msg@));
    } else {
        assert(effects_view(out@) =~= effects_view(out@) + deliver_if_online(hub@, user@, msg@));
    }
}

/// Whether the user with membership rows `rows` may read and write `room`
/// (see `approved`).
fn is_approved(rows: &Vec<(String, String)>, room: &str) -> (r: bool)
    ensures
        r == approved(rows_view(rows@), room@),
{
    let key = room.to_owned();
    if key.eq(&"general".to_owned()) {
        return true;
    }
    let mut i: usize = 0;
    while i < rows.len()
        invariant
            i <= rows.len(),
            key@ == room@,
            forall|j: int| 0 <= j < i ==> #[trigger] rows@[j].0@ != room@,
        decreases rows.len() - i,
    {
        if rows[i].0.eq(&key) {
            assert(rows_view(rows@)[i as int].0 == room@);
            return true;
        }
        i = i + 1;
    }
    proof {
        assert forall|j: int| 0 <= j < rows_view(rows@).len() implies (#[trigger] rows_view(rows@)[j]).0
            != room@ by {
            assert(rows_view(rows@)[j].0 == rows@[j].0@);
        }
    }
    false
}

/// Whether the user with membership rows `rows` is a creator or an admin of
/// `room` (see `administers`).
fn is_admin_of(rows: &Vec<(String, String)>, room: &str) -> (r: bool)
    ensures
        r == administers(rows_view(rows@), room@),
{
    let key = room.to_owned();
    let mut i: usize = 0;
    while i < rows.len()
        invariant
            i <= rows.len(),
            key@ == room@,
            forall|j: int| 0 <= j < i ==> !(#[trigger] rows@[j].0@ == room@ && spec_is_admin_role(rows@[j].1@)),
        decreases rows.len() - i,
    {
        if rows[i].0.eq(&key) && is_admin_role(rows[i].1.as_str()) {
            assert(rows_view(rows@)[i as int].0 == room@);
            assert(rows_view(rows@)[i as int].1 == rows@[i as int].1@);
            return true;
        }
        i = i + 1;
    }
    proof {
        assert forall|j: int| 0 <= j < rows_view(rows@).len() implies !((#[trigger] rows_view(rows@)[j]).0
            == room@ && spec_is_admin_role(rows_view(rows@)[j].1)) by {
            assert(rows_view(rows@)[j].0 == rows@[j].0@);
            assert(rows_view(rows@)[j].1 == rows@[j].1@);
        }
    }
    false
}

/// The effects of an admin's verdict (see `verdict_effects`).
fn verdict(hub: &Hub, record: Effect, user: &str, to_admin: ServerMsg, to_user: ServerMsg) -> (out: Vec<Effect>)
    requires
        hub.wf(),
        to_admin@ == to_user@,
    ensures
        effects_view(out@) == verdict_effects(hub@, record@, user@, to_admin@),
{
    let ghost rec = record@;
    let ghost m = to_admin@;
    let mut out: Vec<Effect> = Vec::new();
    out.push(record);
    out.push(Effect::Reply(to_admin));
    assert(effects_view(out@) =~= seq![rec, EffectView::Reply(m)]);
    push_if_online(&mut out, hub, user, to_user);
    let ghost before = effects_view(out@);
    out.push(Effect::SendRooms { user: user.to_owned() });
    assert(effects_view(out@) =~= before.push(EffectView::SendRooms { user: user@ }));
    out
}

/// Handles one client message from `name`, received at `ts` milliseconds.
pub fn handle(
    name: &str,
    msg: ClientMsg,
    hub: &mut Hub,
    memberships: &Vec<(String, String)>,
    ts: i64,
) -> (effects: Vec<Effect>)
    requires
        old(hub).wf(),
    ensures
        final(hub).wf(),
        handled(rows_view(memberships@), name@, msg, old(hub)@, final(hub)@, ts, effects_view(effects@)),
{
    let mut out: Vec<Effect> = Vec::new();
    match msg {
        ClientMsg::Join { room } => {
            if !valid_room(room.as_str()) {
                out.push(error_effect("Group names use letters, numbers, - and _ (max 32)."));
                assert(effects_view(out@) =~= seq![error_reply(bad_group_name_text())]);
                return out;
            }
            if !is_approved(memberships, room.as_str()) {
                out.push(error_effect("Ask to join this group first."));
                assert(effects_view(out@) =~= seq![error_reply(ask_first_text())]);
                return out;
            }
            let created = hub.join(room.as_str(), name);
            if created {
                out.push(Effect::SaveRoom { room: room.clone() });
                out.push(Effect::AnnounceRooms { rooms: hub.rooms() });
            }
            out.push(Effect::Reply(ServerMsg::Joined { room }));
            assert(created ==> effects_view(out@)[0] == out@[0]@);
            assert(created ==> effects_view(out@)[1] == out@[1]@);
            assert(!created ==> effects_view(out@) =~= seq![out@[0]@]);
            out
        },
        ClientMsg::Leave { room } => {
            hub.leave(room.as_str(), name);
            assert(effects_view(out@) =~= Seq::empty());
            out
        },
        ClientMsg::Send { chat, text } => {
            let t = trim_str(text.as_str());
            let count = chars_of(t.as_str()).len();
            if count == 0 {
                assert(effects_view(out@) =~= Seq::empty());
                return out;
            }
            if count > MAX_TEXT_LEN {
                out.push(error_effect("Message is too long."));
                assert(effects_view(out@) =~= seq![error_reply(too_long_text())]);
                return out;
            }
            match chat {
                Chat::Room(room) => {
                    if !hub.is_member(room.as_str(), name) {
                        out.push(error_effect("Join the group first."));
                        assert(effects_view(out@) =~= seq![error_reply(join_first_text())]);
                        return out;
                    }
                    if !is_approved(memberships, room.as_str()) {
                        out.push(error_effect("Ask to join this group first."));
                        assert(effects_view(out@) =~= seq![error_reply(ask_first_text())]);
                        return out;
                    }
                    let users = hub.send_to_room(room.as_str(), None);
                    let m = ServerMsg::Message {
                        chat: Chat::Room(room.clone()),
                        from: name.to_owned(),
                        text: t.clone(),
                        ts,
                    };
                    out.push(Effect::Deliver { users, msg: m });
                    out.push(Effect::SaveMessage {
                        kind: "room".to_owned(),
                        target: room,
                        sender: name.to_owned(),
                        body: t,
                        ts,
                    });
                    assert(effects_view(out@)[0] == out@[0]@);
                    assert(effects_view(out@)[1] == out@[1]@);
                    out
                },
                Chat::Dm(peer) => {
                    if !valid_name(peer.as_str()) {
                        out.push(error_effect("Unknown person."));
                        assert(effects_view(out@) =~= seq![error_reply(unknown_person_text())]);
                        return out;
                    }
                    let to_peer = ServerMsg::Message {
                        chat: Chat::Dm(name.to_owned()),
                        from: name.to_owned(),
                        text: t.clone(),
                        ts,
                    };
                    assert(effects_view(out@) =~= Seq::empty());
                    push_if_online(&mut out, hub, peer.as_str(), to_peer);
                    let ghost d_peer = deliver_if_online(hub@, peer@, ServerMsgView::Message { chat: ChatView::Dm(name@), from: name@, text: t@, ts });
                    assert(effects_view(out@) =~= d_peer);
                    let ghost after_peer = effects_view(out@);
                    let same = peer.eq(&name.to_owned());
                    if !same {
                        let to_me = ServerMsg::Message {
                            chat: Chat::Dm(peer.clone()),
                            from: name.to_owned(),
                            text: t.clone(),
                            ts,
                        };
                        push_if_online(&mut out, hub, name, to_me);
                    } else {
                        assert(effects_view(out@) =~= after_peer + Seq::empty());
                    }
                    let ghost before_save = effects_view(out@);
                    out.push(Effect::SaveMessage {
                        kind: "dm".to_owned(),
                        target: dm_key(name, peer.as_str()),
                        sender: name.to_owned(),
                        body: t,
                        ts,
                    });
                    assert(effects_view(out@) =~= before_save.push(out@[out@.len() - 1]@));
                    let ghost d_me = if peer@ != name@ {
                        deliver_if_online(hub@, name@, ServerMsgView::Message { chat: ChatView::Dm(peer@), from: name@, text: t@, ts })
                    } else {
                        Seq::<EffectView>::empty()
                    };
                    assert(before_save =~= d_peer + d_me);
                    assert(effects_view(out@) =~= d_peer + d_me + seq![EffectView::SaveMessage {
                        kind: "dm"@,
                        target: spec_dm_key(name@, peer@),
                        sender: name@,
                        body: t@,
                        ts,
                    }]);
                    out
                },
            }
        },
        ClientMsg::Typing { chat, active } => {
            match chat {
                Chat::Room(room) => {
                    if is_approved(memberships, room.as_str()) && hub.is_member(room.as_str(), name) {
                        let users = hub.send_to_room(room.as_str(), Some(name));
                        let m = ServerMsg::Typing { chat: Chat::Room(room), from: name.to_owned(), active };
                        out.push(Effect::Deliver { users, msg: m });
                        assert(effects_view(out@)[0] == out@[0]@);
                    } else {
                        assert(effects_view(out@) =~= Seq::empty());
                    }
                    out
                },
                Chat::Dm(peer) => {
                    if !peer.eq(&name.to_owned()) {
                        let m = ServerMsg::Typing {
                            chat: Chat::Dm(name.to_owned()),
                            from: name.to_owned(),
                            active,
                        };
                        assert(effects_view(out@) =~= Seq::empty());
                        push_if_online(&mut out, hub, peer.as_str(), m);
                        assert(effects_view(out@) =~= Seq::empty() + deliver_if_online(hub@, peer@, ServerMsgView::Typing { chat: ChatView::Dm(name@), from: name@, active }));
                    } else {
                        assert(effects_view(out@) =~= Seq::empty());
                    }
                    out
                },
            }
        },
        ClientMsg::History { chat } => {
            match &chat {
                Chat::Room(room) => {
                    if !hub.is_member(room.as_str(), name) {
                        out.push(error_effect("Join the group first."));
                        assert(effects_view(out@) =~= seq![error_reply(join_first_text())]);
                        return out;
                    }
                    if !is_approved(memberships, room.as_str()) {
                        out.push(error_effect("Ask to join this group first."));
                        assert(effects_view(out@) =~= seq![error_reply(ask_first_text())]);
                        return out;
                    }
                    let target = room.clone();
                    out.push(Effect::LoadHistory { kind: "room".to_owned(), target, chat: chat.duplicate() });
                    assert(effects_view(out@) =~= seq![out@[0]@]);
                    out
                },
                Chat::Dm(peer) => {
                    let target = dm_key(name, peer.as_str());
                    out.push(Effect::LoadHistory { kind: "dm".to_owned(), target, chat: chat.duplicate() });
                    assert(effects_view(out@) =~= seq![out@[0]@]);
                    out
                },
            }
        },
        ClientMsg::CreateRoom { room } => {
            if !valid_room(room.as_str()) {
                out.push(error_effect("Group names use letters, numbers, - and _ (max 32)."));
                assert(effects_view(out@) =~= seq![error_reply(bad_group_name_text())]);
                return out;
            }
            if hub.has_room(room.as_str()) {
                out.push(error_effect("Group already exists."));
                assert(effects_view(out@) =~= seq![error_reply(group_exists_text())]);
                return out;
            }
            hub.join(room.as_str(), name);
            out.push(Effect::CreateRoom { room: room.clone(), creator: name.to_owned() });
            out.push(Effect::AnnounceRooms { rooms: hub.rooms() });
            out.push(Effect::Reply(ServerMsg::Joined { room }));
            assert(effects_view(out@)[0] == out@[0]@);
            assert(effects_view(out@)[1] == out@[1]@);
            assert(effects_view(out@)[2] == out@[2]@);
            out
        },
        ClientMsg::RequestJoin { room } => {
            if !hub.has_room(room.as_str()) {
                out.push(error_effect("Unknown group."));
                assert(effects_view(out@) =~= seq![error_reply(unknown_group_text())]);
                return out;
            }
            if is_approved(memberships, room.as_str()) {
                out.push(error_effect("You are already in this group."));
                assert(effects_view(out@) =~= seq![error_reply(already_in_text())]);
                return out;
            }
            out.push(Effect::SaveJoinRequest { room: room.clone(), user: name.to_owned() });
            out.push(Effect::NotifyAdmins {
                room: room.clone(),
                msg: ServerMsg::JoinRequested { room, user: name.to_owned() },
            });
            out.push(Effect::SendRooms { user: name.to_owned() });
            assert(effects_view(out@) =~= seq![out@[0]@, out@[1]@, out@[2]@]);
            out
        },
        ClientMsg::ApproveJoin { room, user } => {
            if !is_admin_of(memberships, room.as_str()) {
                out.push(error_effect("Only group admins can do that."));
                assert(effects_view(out@) =~= seq![error_reply(admins_only_text())]);
                return out;
            }
            let record = Effect::ApproveRequest { room: room.clone(), user: user.clone() };
            let to_admin = ServerMsg::JoinApproved { room: room.clone(), user: user.clone() };
            let to_user = ServerMsg::JoinApproved { room, user: user.clone() };
            verdict(hub, record, user.as_str(), to_admin, to_user)
        },
        ClientMsg::RejectJoin { room, user } => {
            if !is_admin_of(memberships, room.as_str()) {
                out.push(error_effect("Only group admins can do that."));
                assert(effects_view(out@) =~= seq![error_reply(admins_only_text())]);
                return out;
            }
            let record = Effect::RejectRequest { room: room.clone(), user: user.clone() };
            let to_admin = ServerMsg::JoinRejected { room: room.clone(), user: user.clone() };
            let to_user = ServerMsg::JoinRejected { room, user: user.clone() };
            verdict(hub, record, user.as_str(), to_admin, to_user)
        },
        ClientMsg::PromoteAdmin { room, user } => {
            if !is_admin_of(memberships, room.as_str()) {
                out.push(error_effect("Only group admins can do that."));
                assert(effects_view(out@) =~= seq![error_reply(admins_only_text())]);
                return out;
            }
            let record = Effect::PromoteAdmin { room: room.clone(), user: user.clone() };
            let to_admin = ServerMsg::AdminPromoted { room: room.clone(), user: user.clone() };
            let to_user = ServerMsg::AdminPromoted { room, user: user.clone() };
            verdict(hub, record, user.as_str(), to_admin, to_user)
        },
        ClientMsg::GetRoomDetails { room } => {
            if !is_approved(memberships, room.as_str()) {
                out.push(error_effect("Ask to join this group first."));
                assert(effects_view(out@) =~= seq![error_reply(ask_first_text())]);
                return out;
            }
            let is_admin = is_admin_of(memberships, room.as_str());
            out.push(Effect::LoadRoomDetails { room, is_admin });
            assert(effects_view(out@) =~= seq![out@[0]@]);
            out
        },
    }
}

/// The group a message reads or writes: the room of a join, of a room
/// message, typing or history, or of a details request.
pub open spec fn group_of(msg: ClientMsg) -> Option<Seq<char>> {
    match msg {
        ClientMsg::Join { room } => Some(room@),
        ClientMsg::GetRoomDetails { room } => Some(room@),
        ClientMsg::Send { chat: Chat::Room(room), .. } => Some(room@),
        ClientMsg::Typing { chat: Chat::Room(room), .. } => Some(room@),
        ClientMsg::History { chat: Chat::Room(room) } => Some(room@),
        _ => None,
    }
}

/// Whether an effect only answers the client with an error.
pub open spec fn is_error_reply(e: EffectView) -> bool {
    e matches EffectView::Reply(ServerMsgView::Error { .. })
}

/// Messages in restricted groups are accessible only to approved members: a
/// message about a group the user is not approved for (any group but
/// `general` without a membership) changes nothing and is answered with an
/// error at most. Nothing is joined, delivered, stored or loaded.
pub proof fn law_restricted_groups_need_approval(
    rows: Seq<(Seq<char>, Seq<char>)>,
    name: Seq<char>,
    msg: ClientMsg,
    h: HubView,
    h2: HubView,
    ts: i64,
    effects: Seq<EffectView>,
)
    requires
        handled(rows, name, msg, h, h2, ts, effects),
        group_of(msg) matches Some(room) && !approved(rows, room),
    ensures
        h2 == h,
        effects.len() <= 1,
        forall|i: int| 0 <= i < effects.len() ==> is_error_reply(#[trigger] effects[i]),
{
}

/// Only creators and admins of a group approve, reject or promote in it: from
/// anybody else such a message changes nothing, records nothing and tells
/// nobody, and is answered with an error.
pub proof fn law_only_admins_manage(
    rows: Seq<(Seq<char>, Seq<char>)>,
    name: Seq<char>,
    msg: ClientMsg,
    h: HubView,
    h2: HubView,
    ts: i64,
    effects: Seq<EffectView>,
)
    requires
        handled(rows, name, msg, h, h2, ts, effects),
        match msg {
            ClientMsg::ApproveJoin { room, .. } => !administers(rows, room@),
            ClientMsg::RejectJoin { room, .. } => !administers(rows, room@),
            ClientMsg::PromoteAdmin { room, .. } => !administers(rows, room@),
            _ => false,
        },
    ensures
        h2 == h,
        effects == seq![error_reply(admins_only_text())],
{
}

/// A new group is recorded with the user who made it as its creator, and the
/// creator is in it.
pub proof fn law_creator_owns_new_group(
    rows: Seq<(Seq<char>, Seq<char>)>,
    name: Seq<char>,
    room: String,
    h: HubView,
    h2: HubView,
    ts: i64,
    effects: Seq<EffectView>,
)
    requires
        handled(rows, name, ClientMsg::CreateRoom { room }, h, h2, ts, effects),
        spec_valid_ident(room@, MAX_ROOM_LEN as int),
        !h.rooms.dom().contains(room@),
    ensures
        effects[0] == (EffectView::CreateRoom { room: room@, creator: name }),
        h2.rooms.dom().contains(room@),
        members_of(h2, room@).contains(name),
{
}

/// Opening a group shows what was said in it: for a member of a group, the
/// history asked for is loaded from the very chat (kind `room`, target the
/// group) under which a message sent to the group is stored.
pub proof fn law_history_reads_what_send_saves(
    rows: Seq<(Seq<char>, Seq<char>)>,
    name: Seq<char>,
    room: String,
    text: String,
    h: HubView,
    h2: HubView,
    h3: HubView,
    ts: i64,
    history: Seq<EffectView>,
    sent: Seq<EffectView>,
)
    requires
        handled(rows, name, ClientMsg::History { chat: Chat::Room(room) }, h, h2, ts, history),
        handled(rows, name, ClientMsg::Send { chat: Chat::Room(room), text }, h, h3, ts, sent),
        approved(rows, room@),
        members_of(h, room@).contains(name),
        0 < trimmed(text@).len() <= MAX_TEXT_LEN,
    ensures
        history.len() == 1,
        sent.len() == 2,
        history[0] matches EffectView::LoadHistory { kind, target, .. } && sent[1] matches EffectView::SaveMessage {
            kind: saved_kind,
            target: saved_target,
            ..
        } && kind == saved_kind && target == saved_target && kind == "room"@ && target == room@,
{
}

} // verus!
