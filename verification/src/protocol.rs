//! Messages exchanged over the chat WebSocket, and the rules for names.

use vstd::prelude::*;

use crate::db::{StoredMessage, StoredMessageView};
use crate::text::chars_of;

verus! {

pub const MAX_NAME_LEN: usize = 24;

pub const MAX_ROOM_LEN: usize = 32;

pub const MAX_TEXT_LEN: usize = 2000;

/// Longest file name kept for an attachment, in characters.
pub const MAX_FILE_NAME_LEN: usize = 200;

/// A conversation: a group room or a direct chat with one person.
///
/// On the wire: `{"kind": "room", "id": "general"}` or `{"kind": "dm", "id": "alice"}`.
#[derive(Debug, Clone)]
pub enum Chat {
    Room(String),
    Dm(String),
}

pub enum ChatView {
    Room(Seq<char>),
    Dm(Seq<char>),
}

impl View for Chat {
    type V = ChatView;

    open spec fn view(&self) -> ChatView {
        match self {
            Chat::Room(r) => ChatView::Room(r@),
            Chat::Dm(p) => ChatView::Dm(p@),
        }
    }
}

impl Chat {
    pub fn duplicate(&self) -> (r: Chat)
        ensures
            r@ == self@,
    {
        match self {
            Chat::Room(r) => Chat::Room(r.clone()),
            Chat::Dm(p) => Chat::Dm(p.clone()),
        }
    }
}

/// A member of a group, as the group's details list it.
#[derive(Debug, Clone)]
pub struct MemberInfo {
    /// `"creator"`, `"admin"` or `"member"`.
    pub username: String,
    pub role: String,
    pub joined_ts: i64,
}

/// A pending request to join a group.
#[derive(Debug, Clone)]
pub struct RequestInfo {
    pub username: String,
    pub created_ts: i64,
}

/// A file uploaded for a chat message.
#[derive(Debug, Clone)]
pub struct Attachment {
    pub id: String,
    pub name: String,
    pub mime: String,
    pub size: i64,
}

/// What a client asks over the WebSocket.
#[derive(Debug)]
pub enum ClientMsg {
    Join { room: String },
    Leave { room: String },
    Send { chat: Chat, text: String },
    Typing { chat: Chat, active: bool },
    History { chat: Chat },
    CreateRoom { room: String },
    RequestJoin { room: String },
    ApproveJoin { room: String, user: String },
    RejectJoin { room: String, user: String },
    PromoteAdmin { room: String, user: String },
    GetRoomDetails { room: String },
}

/// What the server sends over the WebSocket.
#[derive(Debug)]
pub enum ServerMsg {
    Welcome {
        me: String,
        users: Vec<String>,
        rooms: Vec<String>,
        joined_rooms: Vec<String>,
        pending_rooms: Vec<String>,
        admin_rooms: Vec<String>,
    },
    Presence { users: Vec<String> },
    Rooms {
        rooms: Vec<String>,
        joined_rooms: Vec<String>,
        pending_rooms: Vec<String>,
        admin_rooms: Vec<String>,
    },
    Joined { room: String },
    Message { chat: Chat, from: String, text: String, ts: i64 },
    Typing { chat: Chat, from: String, active: bool },
    History { chat: Chat, messages: Vec<StoredMessage> },
    Error { message: String },
    RoomDetails {
        room: String,
        is_admin: bool,
        members: Vec<MemberInfo>,
        requests: Vec<RequestInfo>,
    },
    JoinRequested { room: String, user: String },
    JoinApproved { room: String, user: String },
    JoinRejected { room: String, user: String },
    AdminPromoted { room: String, user: String },
}

pub open spec fn strings_view(s: Seq<String>) -> Seq<Seq<char>> {
    s.map_values(|x: String| x@)
}

pub struct MemberInfoView {
    pub username: Seq<char>,
    pub role: Seq<char>,
    pub joined_ts: i64,
}

pub struct RequestInfoView {
    pub username: Seq<char>,
    pub created_ts: i64,
}

/// What a [`ServerMsg`] says, as plain values.
pub enum ServerMsgView {
    Welcome {
        me: Seq<char>,
        users: Seq<Seq<char>>,
        rooms: Seq<Seq<char>>,
        joined_rooms: Seq<Seq<char>>,
        pending_rooms: Seq<Seq<char>>,
        admin_rooms: Seq<Seq<char>>,
    },
    Presence { users: Seq<Seq<char>> },
    Rooms {
        rooms: Seq<Seq<char>>,
        joined_rooms: Seq<Seq<char>>,
        pending_rooms: Seq<Seq<char>>,
        admin_rooms: Seq<Seq<char>>,
    },
    Joined { room: Seq<char> },
    Message { chat: ChatView, from: Seq<char>, text: Seq<char>, ts: i64 },
    Typing { chat: ChatView, from: Seq<char>, active: bool },
    History { chat: ChatView, messages: Seq<StoredMessageView> },
    Error { message: Seq<char> },
    RoomDetails {
        room: Seq<char>,
        is_admin: bool,
        members: Seq<MemberInfoView>,
        requests: Seq<RequestInfoView>,
    },
    JoinRequested { room: Seq<char>, user: Seq<char> },
    JoinApproved { room: Seq<char>, user: Seq<char> },
    JoinRejected { room: Seq<char>, user: Seq<char> },
    AdminPromoted { room: Seq<char>, user: Seq<char> },
}

impl View for ServerMsg {
    type V = ServerMsgView;

    open spec fn view(&self) -> ServerMsgView {
        match self {
            ServerMsg::Welcome { me, users, rooms, joined_rooms, pending_rooms, admin_rooms } =>
                ServerMsgView::Welcome {
                me: me@,
                users: strings_view(users@),
                rooms: strings_view(rooms@),
                joined_rooms: strings_view(joined_rooms@),
                pending_rooms: strings_view(pending_rooms@),
                admin_rooms: strings_view(admin_rooms@),
            },
            ServerMsg::Presence { users } => ServerMsgView::Presence { users: strings_view(users@) },
            ServerMsg::Rooms { rooms, joined_rooms, pending_rooms, admin_rooms } =>
                ServerMsgView::Rooms {
                rooms: strings_view(rooms@),
                joined_rooms: strings_view(joined_rooms@),
                pending_rooms: strings_view(pending_rooms@),
                admin_rooms: strings_view(admin_rooms@),
            },
            ServerMsg::Joined { room } => ServerMsgView::Joined { room: room@ },
            ServerMsg::Message { chat, from, text, ts } => ServerMsgView::Message {
                chat: chat@,
                from: from@,
                text: text@,
                ts: *ts,
            },
            ServerMsg::Typing { chat, from, active } => ServerMsgView::Typing {
                chat: chat@,
                from: from@,
                active: *active,
            },
            ServerMsg::History { chat, messages } => ServerMsgView::History {
                chat: chat@,
                messages: messages@.map_values(|m: StoredMessage| m@),
            },
            ServerMsg::Error { message } => ServerMsgView::Error { message: message@ },
            ServerMsg::RoomDetails { room, is_admin, members, requests } =>
                ServerMsgView::RoomDetails {
                room: room@,
                is_admin: *is_admin,
                members: members@.map_values(
                    |m: MemberInfo|
                        MemberInfoView {
                            username: m.username@,
                            role: m.role@,
                            joined_ts: m.joined_ts,
                        },
                ),
                requests: requests@.map_values(
                    |r: RequestInfo| RequestInfoView { username: r.username@, created_ts: r.created_ts },
                ),
            },
            ServerMsg::JoinRequested { room, user } => ServerMsgView::JoinRequested {
                room: room@,
                user: user@,
            },
            ServerMsg::JoinApproved { room, user } => ServerMsgView::JoinApproved {
                room: room@,
                user: user@,
            },
            ServerMsg::JoinRejected { room, user } => ServerMsgView::JoinRejected {
                room: room@,
                user: user@,
            },
            ServerMsg::AdminPromoted { room, user } => ServerMsgView::AdminPromoted {
                room: room@,
                user: user@,
            },
        }
    }
}

/// What `char::is_alphanumeric` answers: Unicode `Alphabetic` or `Numeric`.
pub uninterp spec fn spec_is_alphanumeric(c: char) -> bool;

pub open spec fn is_ascii_alphanumeric(c: char) -> bool {
    ('0' <= c && c <= '9') || ('a' <= c && c <= 'z') || ('A' <= c && c <= 'Z')
}

/// `char::is_alphanumeric`. Its answer is named by `spec_is_alphanumeric`;
/// the contract states, beyond that name, only the ASCII range, where the
/// alphanumeric characters are exactly the digits and the Latin letters.
#[verifier::external_body]
fn is_alphanumeric(c: char) -> (r: bool)
    ensures
        r == spec_is_alphanumeric(c),
        (c as u32) < 128 ==> (r == is_ascii_alphanumeric(c)),
{
    c.is_alphanumeric()
}

/// A character allowed in names and group names.
/// Below 128 the alphanumeric characters are the ASCII digits and letters.
pub open spec fn ident_char(c: char) -> bool {
    (if (c as u32) < 128 { is_ascii_alphanumeric(c) } else { spec_is_alphanumeric(c) }) || c == '_'
        || c == '-'
}

/// Non-empty, at most `max_len` characters, each a letter, a digit, `-` or `_`.
pub open spec fn spec_valid_ident(s: Seq<char>, max_len: int) -> bool {
    &&& s.len() > 0
    &&& s.len() <= max_len
    &&& forall|i: int| 0 <= i < s.len() ==> ident_char(#[trigger] s[i])
}

fn valid_ident(s: &str, max_len: usize) -> (r: bool)
    ensures
        r == spec_valid_ident(s@, max_len as int),
{
    let v = chars_of(s);
    if v.len() == 0 || v.len() > max_len {
        return false;
    }
    let mut i: usize = 0;
    while i < v.len()
        invariant
            i <= v.len(),
            v@ == s@,
            forall|j: int| 0 <= j < i ==> ident_char(#[trigger] v@[j]),
        decreases v.len() - i,
    {
        let c = v[i];
        if !(is_alphanumeric(c) || c == '_' || c == '-') {
            return false;
        }
        i = i + 1;
    }
    true
}

/// A user name: 1 to 24 letters, digits, `-` or `_`.
pub fn valid_name(name: &str) -> (r: bool)
    ensures
        r == spec_valid_ident(name@, MAX_NAME_LEN as int),
{
    valid_ident(name, MAX_NAME_LEN)
}

/// A group name: 1 to 32 letters, digits, `-` or `_`.
pub fn valid_room(room: &str) -> (r: bool)
    ensures
        r == spec_valid_ident(room@, MAX_ROOM_LEN as int),
{
    valid_ident(room, MAX_ROOM_LEN)
}

} // verus!
