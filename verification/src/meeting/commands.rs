//! The decisions behind the desktop shell's meeting commands, and the meeting
//! client's handling of signalling messages.

use vstd::prelude::*;

use super::discovery::{rooms_view, DiscoveredRoom, DiscoveredRoomView};
use super::protocol::{infos_view, PeerInfo, PeerInfoView, SignalView, SignalingMessage};
use crate::text::{chars_of, decimal_string, decimal_text, push_str, trim_str, trimmed};

verus! {

/// Port the signalling server listens on unless told otherwise.
pub const DEFAULT_MEETING_PORT: u16 = 8080;

/// This machine's address on the local network.
#[derive(Debug, Clone)]
pub struct LanIpInfo {
    pub local_ip: String,
    pub default_port: u16,
}

/// What creating or joining a meeting answers.
#[derive(Debug, Clone)]
pub struct MeetingRoomInfo {
    pub room_id: String,
    pub peer_id: String,
    pub local_ip: String,
    pub join_address: String,
    pub is_host: bool,
    pub participants: Vec<PeerInfo>,
}

/// The current meeting state, as the UI polls it.
#[derive(Debug, Clone)]
pub struct MeetingStatusResponse {
    pub in_meeting: bool,
    pub room_id: Option<String>,
    pub peer_id: Option<String>,
    pub is_host: bool,
    pub is_muted: bool,
    pub is_sharing_screen: bool,
    pub participants: Vec<PeerInfo>,
}

/// This machine's address as the meeting shows it: the detected LAN address,
/// or the loopback address where none was found, with the default port.
pub fn lan_ip_info(detected: Option<String>) -> (info: LanIpInfo)
    ensures
        info.default_port == DEFAULT_MEETING_PORT,
        info.local_ip@ == match detected {
            Some(ip) => ip@,
            None => "127.0.0.1"@,
        },
{
    let local_ip = match detected {
        Some(ip) => ip,
        None => String::from_str("127.0.0.1"),
    };
    LanIpInfo { local_ip, default_port: DEFAULT_MEETING_PORT }
}

pub open spec fn empty_name_text() -> Seq<char> {
    "Name cannot be empty"@
}

pub open spec fn empty_room_text() -> Seq<char> {
    "Room ID cannot be empty"@
}

/// The trimmed display name for a meeting, or why it is refused.
pub fn meeting_name(name: &str) -> (r: Result<String, String>)
    ensures
        match r {
            Ok(n) => n@ == trimmed(name@) && n@.len() > 0,
            Err(e) => trimmed(name@).len() == 0 && e@ == empty_name_text(),
        },
{
    let n = trim_str(name);
    if chars_of(n.as_str()).len() == 0 {
        return Err("Name cannot be empty".to_owned());
    }
    Ok(n)
}

/// The trimmed room id to join, or why it is refused.
pub fn meeting_room_id(room_id: &str) -> (r: Result<String, String>)
    ensures
        match r {
            Ok(n) => n@ == trimmed(room_id@) && n@.len() > 0,
            Err(e) => trimmed(room_id@).len() == 0 && e@ == empty_room_text(),
        },
{
    let n = trim_str(room_id);
    if chars_of(n.as_str()).len() == 0 {
        return Err("Room ID cannot be empty".to_owned());
    }
    Ok(n)
}

pub open spec fn starts_with(s: Seq<char>, p: Seq<char>) -> bool {
    s.len() >= p.len() && s.take(p.len() as int) == p
}

fn chars_start_with(v: &Vec<char>, p: &str) -> (r: bool)
    ensures
        r == starts_with(v@, p@),
{
    let pv = chars_of(p);
    if v.len() < pv.len() {
        return false;
    }
    let mut i: usize = 0;
    while i < pv.len()
        invariant
            i <= pv.len(),
            pv.len() <= v.len(),
            pv@ == p@,
            forall|j: int| 0 <= j < i ==> v@[j] == pv@[j],
        decreases pv.len() - i,
    {
        if v[i] != pv[i] {
            assert(v@.take(pv.len() as int)[i as int] != p@[i as int]);
            return false;
        }
        i = i + 1;
    }
    assert(v@.take(pv.len() as int) =~= p@);
    true
}

/// The signalling URL to join: a `ws://` or `wss://` URL as given (trimmed),
/// else a host, with port 8080 unless it names one, and the room's path.
pub open spec fn spec_meeting_url(join_url_or_ip: Seq<char>, room_id: Seq<char>) -> Seq<char> {
    if starts_with(join_url_or_ip, "ws://"@) || starts_with(join_url_or_ip, "wss://"@) {
        trimmed(join_url_or_ip)
    } else {
        let host = trimmed(join_url_or_ip);
        let addr = if host.contains(':') {
            host
        } else {
            host + ":8080"@
        };
        "ws://"@ + addr + "/ws/meeting/"@ + room_id
    }
}

pub fn meeting_url(join_url_or_ip: &str, room_id: &str) -> (url: String)
    ensures
        url@ == spec_meeting_url(join_url_or_ip@, room_id@),
{
    let v = chars_of(join_url_or_ip);
    if chars_start_with(&v, "ws://") || chars_start_with(&v, "wss://") {
        return trim_str(join_url_or_ip);
    }
    let host = trim_str(join_url_or_ip);
    let hv = chars_of(host.as_str());
    let mut has_colon = false;
    let mut i: usize = 0;
    while i < hv.len()
        invariant
            i <= hv.len(),
            has_colon == hv@.take(i as int).contains(':'),
        decreases hv.len() - i,
    {
        proof {
            let t0 = hv@.take(i as int);
            let t1 = hv@.take(i + 1);
            assert(t1 =~= t0.push(hv@[i as int]));
            if t0.contains(':') {
                let k = choose|k: int| 0 <= k < t0.len() && #[trigger] t0[k] == ':';
                assert(t1[k] == ':');
            }
            if t1.contains(':') && hv@[i as int] != ':' {
                let k = choose|k: int| 0 <= k < t1.len() && #[trigger] t1[k] == ':';
                assert(t0[k] == ':');
            }
            if hv@[i as int] == ':' {
                assert(t1[i as int] == ':');
            }
        }
        if hv[i] == ':' {
            has_colon = true;
        }
        i = i + 1;
    }
    assert(hv@.take(hv.len() as int) =~= hv@);
    let mut url = String::new();
    push_str(&mut url, "ws://");
    push_str(&mut url, host.as_str());
    if !has_colon {
        push_str(&mut url, ":8080");
    }
    push_str(&mut url, "/ws/meeting/");
    push_str(&mut url, room_id);
    proof {
        let addr = if host@.contains(':') { host@ } else { host@ + ":8080"@ };
        assert(url@ =~= "ws://"@ + addr + "/ws/meeting/"@ + room_id@);
    }
    url
}

/// The address others join a hosted meeting at: `ws://{ip}:{port}/ws/meeting/{room_id}`.
pub open spec fn spec_join_address(ip: Seq<char>, port: u16, room_id: Seq<char>) -> Seq<char> {
    "ws://"@ + ip + ":"@ + decimal_text(port as nat) + "/ws/meeting/"@ + room_id
}

pub fn join_address(ip: &str, port: u16, room_id: &str) -> (a: String)
    ensures
        a@ == spec_join_address(ip@, port, room_id@),
{
    let p = decimal_string(port as u64);
    let mut a = String::new();
    push_str(&mut a, "ws://");
    push_str(&mut a, ip);
    push_str(&mut a, ":");
    push_str(&mut a, p.as_str());
    push_str(&mut a, "/ws/meeting/");
    push_str(&mut a, room_id);
    assert(a@ =~= spec_join_address(ip@, port, room_id@));
    a
}

/// What hosting a meeting answers: the host's room, reachable at its join
/// address, with the host as its only participant so far.
pub fn hosted_meeting(room_id: String, peer_id: String, name: String, local_ip: String, port: u16) -> (info:
    MeetingRoomInfo)
    ensures
        info.room_id@ == room_id@,
        info.peer_id@ == peer_id@,
        info.local_ip@ == local_ip@,
        info.join_address@ == spec_join_address(local_ip@, port, room_id@),
        info.is_host,
        infos_view(info.participants@) == seq![PeerInfoView { peer_id: peer_id@, name: name@, is_host: true }],
{
    let join = join_address(local_ip.as_str(), port, room_id.as_str());
    let mut participants: Vec<PeerInfo> = Vec::new();
    participants.push(PeerInfo { peer_id: peer_id.clone(), name, is_host: true });
    assert(infos_view(participants@) =~= seq![participants@[0]@]);
    MeetingRoomInfo { room_id, peer_id, local_ip, join_address: join, is_host: true, participants }
}

/// What joining a meeting answers: the room joined through `url`, with this
/// guest as its only participant until the room's answer lists the others.
pub fn joined_meeting(room_id: String, peer_id: String, name: String, local_ip: String, url: String) -> (info:
    MeetingRoomInfo)
    ensures
        info.room_id@ == room_id@,
        info.peer_id@ == peer_id@,
        info.local_ip@ == local_ip@,
        info.join_address@ == url@,
        !info.is_host,
        infos_view(info.participants@) == seq![PeerInfoView { peer_id: peer_id@, name: name@, is_host: false }],
{
    let mut participants: Vec<PeerInfo> = Vec::new();
    participants.push(PeerInfo { peer_id: peer_id.clone(), name, is_host: false });
    assert(infos_view(participants@) =~= seq![participants@[0]@]);
    MeetingRoomInfo { room_id, peer_id, local_ip, join_address: url, is_host: false, participants }
}

/// The ASCII lower case of `c`; other characters as they are.
pub open spec fn ascii_lower(c: char) -> char {
    if 'A' <= c && c <= 'Z' {
        ((c as u32) + 32) as char
    } else {
        c
    }
}

/// A short room code: the first six characters of a generated id, in lower case.
pub open spec fn spec_room_code(id: Seq<char>) -> Seq<char> {
    id.take(6).map_values(|c: char| ascii_lower(c))
}

/// The room code of a new meeting, from the text of a generated id (ASCII).
pub fn room_code(id: &str) -> (code: String)
    requires
        id@.len() >= 6,
        forall|i: int| 0 <= i < id@.len() ==> (#[trigger] id@[i] as u32) < 128,
    ensures
        code@ == spec_room_code(id@),
{
    let v = chars_of(id);
    let mut out: Vec<char> = Vec::new();
    let mut i: usize = 0;
    while i < 6
        invariant
            i <= 6,
            v@ == id@,
            v@.len() >= 6,
            out@ == v@.take(i as int).map_values(|c: char| ascii_lower(c)),
        decreases 6 - i,
    {
        let c = v[i];
        let l = if 'A' <= c && c <= 'Z' { ((c as u8) + 32) as char } else { c };
        proof {
            if 'A' <= c && c <= 'Z' {
                assert((((c as u8) + 32) as char) == (((c as u32) + 32) as char));
            }
        }
        out.push(l);
        assert(v@.take(i + 1) =~= v@.take(i as int).push(c));
        assert(out@ =~= v@.take(i + 1).map_values(|c: char| ascii_lower(c)));
        i = i + 1;
    }
    crate::text::string_from_chars(&out)
}

/// Keeps the advertised participant count in step with the real room.
pub fn sync_advertised_count(advertised: &mut Option<DiscoveredRoom>, count: usize)
    ensures
        match (*old(advertised), *final(advertised)) {
            (Some(a), Some(b)) => b@ == (DiscoveredRoomView { participant_count: count, ..a@ }),
            (None, None) => true,
            _ => false,
        },
{
    if let Some(room) = advertised {
        room.participant_count = count;
    }
}

/// The rooms a scan found, without the one this machine hosts.
pub fn exclude_own_room(rooms: Vec<DiscoveredRoom>, own_room: Option<&str>) -> (r: Vec<DiscoveredRoom>)
    ensures
        rooms_view(r@) == rooms_view(rooms@).filter(
            |d: DiscoveredRoomView| match own_room {
                Some(o) => d.room_id != o@,
                None => true,
            },
        ),
{
    let ghost keep = |d: DiscoveredRoomView| match own_room {
        Some(o) => d.room_id != o@,
        None => true,
    };
    let own: Option<String> = match own_room { Some(o) => Some(o.to_owned()), None => None };
    let mut out: Vec<DiscoveredRoom> = Vec::new();
    let mut i: usize = 0;
    while i < rooms.len()
        invariant
            i <= rooms.len(),
            match own { Some(o) => own_room is Some && o@ == own_room.unwrap()@, None => own_room is None },
            keep == (|d: DiscoveredRoomView| match own_room {
                Some(o) => d.room_id != o@,
                None => true,
            }),
            rooms_view(out@) == rooms_view(rooms@).take(i as int).filter(keep),
        decreases rooms.len() - i,
    {
        proof {
            assert(rooms_view(rooms@).take(i + 1).drop_last() =~= rooms_view(rooms@).take(i as int));
            reveal_with_fuel(Seq::filter, 1);
        }
        let skip = match &own { Some(o) => rooms[i].room_id.eq(o), None => false };
        assert(rooms_view(rooms@).take(i + 1).last() == rooms@[i as int]@);
        proof {
            match own_room {
                Some(o) => {
                    assert(own is Some);
                    assert(own.unwrap()@ == o@);
                    assert(skip == (rooms@[i as int].room_id@ == o@));
                },
                None => {
                    assert(!skip);
                },
            }
        }
        assert(keep(rooms@[i as int]@) == !skip);
        if !skip {
            out.push(rooms[i].clone_room());
        }
        assert(rooms_view(out@) =~= rooms_view(rooms@).take(i + 1).filter(keep));
        i = i + 1;
    }
    assert(rooms_view(rooms@).take(rooms.len() as int) =~= rooms_view(rooms@));
    out
}

impl DiscoveredRoom {
    pub fn clone_room(&self) -> (r: DiscoveredRoom)
        ensures
            r@ == self@,
    {
        DiscoveredRoom {
            room_id: self.room_id.clone(),
            host_name: self.host_name.clone(),
            host_ip: self.host_ip.clone(),
            port: self.port,
            participant_count: self.participant_count,
        }
    }
}

pub open spec fn not_in_meeting_text() -> Seq<char> {
    "Not currently in a meeting"@
}

pub open spec fn host_only_text() -> Seq<char> {
    "Only the host can admit people"@
}

/// The verdict the host sends on a waiting guest, or why it cannot be sent.
pub fn join_decision(in_meeting: bool, is_host: bool, peer_id: String, accept: bool) -> (r: Result<
    SignalingMessage,
    String,
>)
    ensures
        match r {
            Ok(m) => in_meeting && is_host && m@ == SignalView::JoinDecision { peer_id: peer_id@, accept },
            Err(e) => if !in_meeting {
                e@ == not_in_meeting_text()
            } else {
                !is_host && e@ == host_only_text()
            },
        },
{
    if !in_meeting {
        return Err("Not currently in a meeting".to_owned());
    }
    if !is_host {
        return Err("Only the host can admit people".to_owned());
    }
    Ok(SignalingMessage::JoinDecision { peer_id, accept })
}

/// What sending a chat line does: a blank line is dropped (nothing is sent,
/// in a meeting or not), else outside a meeting it is refused, else the line
/// is sent trimmed.
pub fn meeting_chat_text(text: &str, in_meeting: bool) -> (r: Result<Option<String>, String>)
    ensures
        match r {
            Ok(None) => trimmed(text@).len() == 0,
            Ok(Some(t)) => trimmed(text@).len() > 0 && in_meeting && t@ == trimmed(text@),
            Err(e) => trimmed(text@).len() > 0 && !in_meeting && e@ == not_in_meeting_text(),
        },
{
    let t = trim_str(text);
    if t.as_str().is_empty() {
        return Ok(None);
    }
    if !in_meeting {
        return Err("Not currently in a meeting".to_owned());
    }
    Ok(Some(t))
}

/// The time a chat line is stamped with: milliseconds since the Unix epoch by
/// the system clock, 0 before the epoch, as the chat server stamps messages.
pub fn chrono_or_now() -> (ms: i64)
    ensures
        exists|since: Option<u128>| ms == crate::db::spec_millis_or_zero(since),
{
    crate::db::now_ms()
}

/// What the meeting client does after a signalling message.
#[derive(Debug)]
pub enum ClientAction {
    /// Show the new list of participants.
    ParticipantsUpdated(Vec<PeerInfo>),
    /// The host let this client in.
    JoinAccepted,
    /// Open a peer connection to a participant that just arrived.
    Connect(String),
    HandleOffer { from_peer_id: String, sdp: String },
    HandleAnswer { from_peer_id: String, sdp: String },
    HandleIceCandidate { from_peer_id: String, candidate: String },
    /// Close the peer connection to a participant that left.
    RemovePeer(String),
    ParticipantLeft(String),
    /// A guest knocks (shown to the host).
    JoinRequest { peer_id: String, name: String },
    JoinPending { room_id: String },
    JoinRejected { room_id: String },
    Error(String),
}

pub enum ClientActionView {
    ParticipantsUpdated(Seq<PeerInfoView>),
    JoinAccepted,
    Connect(Seq<char>),
    HandleOffer { from_peer_id: Seq<char>, sdp: Seq<char> },
    HandleAnswer { from_peer_id: Seq<char>, sdp: Seq<char> },
    HandleIceCandidate { from_peer_id: Seq<char>, candidate: Seq<char> },
    RemovePeer(Seq<char>),
    ParticipantLeft(Seq<char>),
    JoinRequest { peer_id: Seq<char>, name: Seq<char> },
    JoinPending { room_id: Seq<char> },
    JoinRejected { room_id: Seq<char> },
    Error(Seq<char>),
}

impl View for ClientAction {
    type V = ClientActionView;

    open spec fn view(&self) -> ClientActionView {
        match self {
            ClientAction::ParticipantsUpdated(v) => ClientActionView::ParticipantsUpdated(infos_view(v@)),
            ClientAction::JoinAccepted => ClientActionView::JoinAccepted,
            ClientAction::Connect(p) => ClientActionView::Connect(p@),
            ClientAction::HandleOffer { from_peer_id, sdp } => ClientActionView::HandleOffer {
                from_peer_id: from_peer_id@,
                sdp: sdp@,
            },
            ClientAction::HandleAnswer { from_peer_id, sdp } => ClientActionView::HandleAnswer {
                from_peer_id: from_peer_id@,
                sdp: sdp@,
            },
            ClientAction::HandleIceCandidate { from_peer_id, candidate } =>
                ClientActionView::HandleIceCandidate {
                from_peer_id: from_peer_id@,
                candidate: candidate@,
            },
            ClientAction::RemovePeer(p) => ClientActionView::RemovePeer(p@),
            ClientAction::ParticipantLeft(p) => ClientActionView::ParticipantLeft(p@),
            ClientAction::JoinRequest { peer_id, name } => ClientActionView::JoinRequest {
                peer_id: peer_id@,
                name: name@,
            },
            ClientAction::JoinPending { room_id } => ClientActionView::JoinPending { room_id: room_id@ },
            ClientAction::JoinRejected { room_id } => ClientActionView::JoinRejected { room_id: room_id@ },
            ClientAction::Error(m) => ClientActionView::Error(m@),
        }
    }
}

pub open spec fn actions_view(s: Seq<ClientAction>) -> Seq<ClientActionView> {
    s.map_values(|a: ClientAction| a@)
}

/// Whether some participant of `list` has id `id`.
pub open spec fn has_peer(list: Seq<PeerInfoView>, id: Seq<char>) -> bool {
    exists|i: int| 0 <= i < list.len() && #[trigger] list[i].peer_id == id
}

/// No two participants of `list` share an id.
pub open spec fn peer_ids_unique(list: Seq<PeerInfoView>) -> bool {
    forall|i: int, j: int|
        0 <= i < list.len() && 0 <= j < list.len() && i != j ==> #[trigger] list[i].peer_id
            != #[trigger] list[j].peer_id
}

/// `list` with `p` added at the end, unless its id is there already.
pub open spec fn add_participant(list: Seq<PeerInfoView>, p: PeerInfoView) -> Seq<PeerInfoView> {
    if has_peer(list, p.peer_id) {
        list
    } else {
        list.push(p)
    }
}

/// `list` with each of `add` added in turn.
pub open spec fn add_participants(list: Seq<PeerInfoView>, add: Seq<PeerInfoView>) -> Seq<PeerInfoView>
    decreases add.len(),
{
    if add.len() == 0 {
        list
    } else {
        add_participant(add_participants(list, add.drop_last()), add.last())
    }
}

/// `list` without the participant `id`.
pub open spec fn without_participant(list: Seq<PeerInfoView>, id: Seq<char>) -> Seq<PeerInfoView> {
    list.filter(|p: PeerInfoView| p.peer_id != id)
}

/// The participants after a signalling message.
pub open spec fn participants_after(list: Seq<PeerInfoView>, msg: SignalView) -> Seq<PeerInfoView> {
    match msg {
        SignalView::PeerJoined { peer_id, name, existing_peers } => if existing_peers.len() > 0 {
            add_participants(list, existing_peers)
        } else {
            add_participant(list, PeerInfoView { peer_id, name, is_host: false })
        },
        SignalView::PeerLeft { peer_id } => without_participant(list, peer_id),
        _ => list,
    }
}

/// What the client does after a signalling message, given the participants after it.
pub open spec fn actions_for(list: Seq<PeerInfoView>, msg: SignalView) -> Seq<ClientActionView> {
    match msg {
        SignalView::PeerJoined { peer_id, existing_peers, .. } => if existing_peers.len() > 0 {
            seq![ClientActionView::ParticipantsUpdated(list), ClientActionView::JoinAccepted]
        } else {
            seq![ClientActionView::ParticipantsUpdated(list), ClientActionView::Connect(peer_id)]
        },
        SignalView::Offer { from_peer_id, sdp, .. } => seq![ClientActionView::HandleOffer { from_peer_id, sdp }],
        SignalView::Answer { from_peer_id, sdp, .. } => seq![ClientActionView::HandleAnswer { from_peer_id, sdp }],
        SignalView::IceCandidate { from_peer_id, candidate, .. } => seq![
            ClientActionView::HandleIceCandidate { from_peer_id, candidate },
        ],
        SignalView::PeerLeft { peer_id } => seq![
            ClientActionView::ParticipantsUpdated(list),
            ClientActionView::RemovePeer(peer_id),
            ClientActionView::ParticipantLeft(peer_id),
        ],
        SignalView::JoinRequested { peer_id, name } => seq![ClientActionView::JoinRequest { peer_id, name }],
        SignalView::JoinPending { room_id } => seq![ClientActionView::JoinPending { room_id }],
        SignalView::JoinRejected { room_id } => seq![ClientActionView::JoinRejected { room_id }],
        SignalView::Error { message } => seq![ClientActionView::Error(message)],
        _ => Seq::empty(),
    }
}

/// Whether the message changes the list of participants.
pub open spec fn changes_participants(msg: SignalView) -> bool {
    msg is PeerJoined || msg is PeerLeft
}

fn position_of(list: &Vec<PeerInfo>, id: &String) -> (r: Option<usize>)
    ensures
        match r {
            Some(i) => i < list.len() && list@[i as int].peer_id@ == id@,
            None => !has_peer(infos_view(list@), id@),
        },
{
    let mut i: usize = 0;
    while i < list.len()
        invariant
            i <= list.len(),
            forall|j: int| 0 <= j < i ==> #[trigger] list@[j].peer_id@ != id@,
        decreases list.len() - i,
    {
        if list[i].peer_id.eq(id) {
            return Some(i);
        }
        i = i + 1;
    }
    proof {
        if has_peer(infos_view(list@), id@) {
            let j = choose|j: int| 0 <= j < list@.len() && #[trigger] infos_view(list@)[j].peer_id == id@;
            assert(list@[j].peer_id@ == id@);
        }
    }
    None
}

fn add_one(list: &mut Vec<PeerInfo>, p: PeerInfo)
    ensures
        infos_view(final(list)@) == add_participant(infos_view(old(list)@), p@),
{
    if position_of(list, &p.peer_id).is_none() {
        let ghost before = infos_view(list@);
        list.push(p);
        assert(infos_view(list@) =~= before.push(p@));
    } else {
        proof {
            let i = choose|i: int| 0 <= i < list@.len() && #[trigger] list@[i].peer_id@ == p.peer_id@;
            assert(infos_view(list@)[i].peer_id == p.peer_id@);
        }
    }
}

fn remove_all(list: &mut Vec<PeerInfo>, id: &String)
    ensures
        infos_view(final(list)@) == without_participant(infos_view(old(list)@), id@),
{
    let ghost keep = |p: PeerInfoView| p.peer_id != id@;
    let mut out: Vec<PeerInfo> = Vec::new();
    let mut i: usize = 0;
    while i < list.len()
        invariant
            i <= list.len(),
            keep == (|p: PeerInfoView| p.peer_id != id@),
            infos_view(out@) == infos_view(list@).take(i as int).filter(keep),
        decreases list.len() - i,
    {
        proof {
            assert(infos_view(list@).take(i + 1).drop_last() =~= infos_view(list@).take(i as int));
            reveal_with_fuel(Seq::filter, 1);
        }
        assert(infos_view(list@).take(i + 1).last() == list@[i as int]@);
        if !list[i].peer_id.eq(id) {
            out.push(list[i].duplicate());
        }
        assert(infos_view(out@) =~= infos_view(list@).take(i + 1).filter(keep));
        i = i + 1;
    }
    assert(infos_view(list@).take(list.len() as int) =~= infos_view(list@));
    *list = out;
}

fn single_action(a: ClientAction) -> (r: Vec<ClientAction>)
    ensures
        actions_view(r@) == seq![a@],
{
    let mut r: Vec<ClientAction> = Vec::new();
    r.push(a);
    assert(actions_view(r@) =~= seq![a@]);
    r
}

/// Handles a signalling message in the meeting client: updates the
/// participants (and the advertised count with them) and says what to do.
pub fn apply_signal(
    participants: &mut Vec<PeerInfo>,
    advertised: &mut Option<DiscoveredRoom>,
    msg: SignalingMessage,
) -> (actions: Vec<ClientAction>)
    ensures
        infos_view(final(participants)@) == participants_after(infos_view(old(participants)@), msg@),
        actions_view(actions@) == actions_for(infos_view(final(participants)@), msg@),
        match (*old(advertised), *final(advertised)) {
            (Some(a), Some(b)) => b@ == if changes_participants(msg@) {
                DiscoveredRoomView { participant_count: final(participants)@.len() as usize, ..a@ }
            } else {
                a@
            },
            (None, None) => true,
            _ => false,
        },
{
    let ghost mv = msg@;
    match msg {
        SignalingMessage::PeerJoined { peer_id, name, existing_peers } => {
            let mut actions: Vec<ClientAction> = Vec::new();
            if existing_peers.len() > 0 {
                let ghost start = infos_view(participants@);
                let mut i: usize = 0;
                while i < existing_peers.len()
                    invariant
                        i <= existing_peers.len(),
                        infos_view(participants@) == add_participants(start, infos_view(existing_peers@).take(i as int)),
                    decreases existing_peers.len() - i,
                {
                    proof {
                        assert(infos_view(existing_peers@).take(i + 1).drop_last() =~= infos_view(existing_peers@).take(i as int));
                    }
                    add_one(participants, existing_peers[i].duplicate());
                    i = i + 1;
                }
                assert(infos_view(existing_peers@).take(existing_peers.len() as int) =~= infos_view(existing_peers@));
                sync_advertised_count(advertised, participants.len());
                actions.push(ClientAction::ParticipantsUpdated(crate::meeting::protocol::duplicate_infos(participants)));
                actions.push(ClientAction::JoinAccepted);
            } else {
                add_one(participants, PeerInfo { peer_id: peer_id.clone(), name, is_host: false });
                sync_advertised_count(advertised, participants.len());
                actions.push(ClientAction::ParticipantsUpdated(crate::meeting::protocol::duplicate_infos(participants)));
                actions.push(ClientAction::Connect(peer_id));
            }
            assert(actions_view(actions@) =~= seq![actions@[0]@, actions@[1]@]);
            actions
        },
        SignalingMessage::Offer { from_peer_id, sdp, .. } => single_action(ClientAction::HandleOffer { from_peer_id, sdp }),
        SignalingMessage::Answer { from_peer_id, sdp, .. } => single_action(ClientAction::HandleAnswer { from_peer_id, sdp }),
        SignalingMessage::IceCandidate { from_peer_id, candidate, .. } => single_action(
            ClientAction::HandleIceCandidate { from_peer_id, candidate },
        ),
        SignalingMessage::PeerLeft { peer_id } => {
            remove_all(participants, &peer_id);
            sync_advertised_count(advertised, participants.len());
            let mut actions: Vec<ClientAction> = Vec::new();
            actions.push(ClientAction::ParticipantsUpdated(crate::meeting::protocol::duplicate_infos(participants)));
            actions.push(ClientAction::RemovePeer(peer_id.clone()));
            actions.push(ClientAction::ParticipantLeft(peer_id));
            assert(actions_view(actions@) =~= seq![actions@[0]@, actions@[1]@, actions@[2]@]);
            actions
        },
        SignalingMessage::JoinRequested { peer_id, name } => single_action(ClientAction::JoinRequest { peer_id, name }),
        SignalingMessage::JoinPending { room_id } => single_action(ClientAction::JoinPending { room_id }),
        SignalingMessage::JoinRejected { room_id } => single_action(ClientAction::JoinRejected { room_id }),
        SignalingMessage::Error { message } => single_action(ClientAction::Error(message)),
        _ => {
            let actions: Vec<ClientAction> = Vec::new();
            assert(actions_view(actions@) =~= Seq::empty());
            actions
        },
    }
}

/// The client's list of participants never names anybody twice, whatever
/// signalling message arrives.
pub proof fn law_participants_unique(list: Seq<PeerInfoView>, msg: SignalView)
    requires
        peer_ids_unique(list),
    ensures
        peer_ids_unique(participants_after(list, msg)),
{
    match msg {
        SignalView::PeerJoined { peer_id, name, existing_peers } => {
            if existing_peers.len() > 0 {
                lemma_add_all_unique(list, existing_peers);
            } else {
                lemma_add_unique(list, PeerInfoView { peer_id, name, is_host: false });
            }
        },
        SignalView::PeerLeft { peer_id } => {
            let keep = |p: PeerInfoView| p.peer_id != peer_id;
            lemma_filter_unique(list, keep);
        },
        _ => {},
    }
}

proof fn lemma_add_unique(list: Seq<PeerInfoView>, p: PeerInfoView)
    requires
        peer_ids_unique(list),
    ensures
        peer_ids_unique(add_participant(list, p)),
        has_peer(add_participant(list, p), p.peer_id),
{
    let t = add_participant(list, p);
    if !has_peer(list, p.peer_id) {
        assert forall|i: int, j: int|
            0 <= i < t.len() && 0 <= j < t.len() && i != j implies #[trigger] t[i].peer_id
            != #[trigger] t[j].peer_id by {
            if i < list.len() && j < list.len() {
                assert(t[i] == list[i] && t[j] == list[j]);
            } else if i < list.len() {
                assert(t[i] == list[i]);
            } else {
                assert(t[j] == list[j]);
            }
        }
        assert(t[list.len() as int].peer_id == p.peer_id);
    }
}

proof fn lemma_add_all_unique(list: Seq<PeerInfoView>, add: Seq<PeerInfoView>)
    requires
        peer_ids_unique(list),
    ensures
        peer_ids_unique(add_participants(list, add)),
    decreases add.len(),
{
    if add.len() > 0 {
        lemma_add_all_unique(list, add.drop_last());
        lemma_add_unique(add_participants(list, add.drop_last()), add.last());
    }
}

proof fn lemma_filter_in(list: Seq<PeerInfoView>, keep: spec_fn(PeerInfoView) -> bool)
    ensures
        forall|i: int| 0 <= i < list.filter(keep).len() ==> exists|k: int| 0 <= k < list.len() && #[trigger] list[k] == #[trigger] list.filter(keep)[i],
    decreases list.len(),
{
    reveal_with_fuel(Seq::filter, 1);
    if list.len() > 0 {
        let t = list.drop_last();
        lemma_filter_in(t, keep);
        let f = t.filter(keep);
        assert forall|i: int| 0 <= i < list.filter(keep).len() implies exists|k: int| 0 <= k < list.len() && #[trigger] list[k] == #[trigger] list.filter(keep)[i] by {
            if i < f.len() {
                let k = choose|k: int| 0 <= k < t.len() && #[trigger] t[k] == f[i];
                assert(list[k] == t[k]);
                assert(list.filter(keep)[i] == f[i]);
            } else {
                assert(list[list.len() - 1] == list.filter(keep)[i]);
            }
        }
    }
}

proof fn lemma_filter_unique(list: Seq<PeerInfoView>, keep: spec_fn(PeerInfoView) -> bool)
    requires
        peer_ids_unique(list),
    ensures
        peer_ids_unique(list.filter(keep)),
    decreases list.len(),
{
    reveal_with_fuel(Seq::filter, 1);
    if list.len() > 0 {
        let t = list.drop_last();
        assert forall|i: int, j: int|
            0 <= i < t.len() && 0 <= j < t.len() && i != j implies #[trigger] t[i].peer_id
            != #[trigger] t[j].peer_id by {
            assert(t[i] == list[i] && t[j] == list[j]);
        }
        lemma_filter_unique(t, keep);
        lemma_filter_in(t, keep);
        let f = t.filter(keep);
        if keep(list.last()) {
            let g = f.push(list.last());
            assert forall|i: int, j: int|
                0 <= i < g.len() && 0 <= j < g.len() && i != j implies #[trigger] g[i].peer_id
                != #[trigger] g[j].peer_id by {
                if i < f.len() && j < f.len() {
                    assert(g[i] == f[i] && g[j] == f[j]);
                } else if i < f.len() {
                    let k = choose|k: int| 0 <= k < t.len() && #[trigger] t[k] == f[i];
                    assert(list[k] == t[k]);
                    assert(g[i] == f[i]);
                    assert(g[j] == list[list.len() - 1]);
                } else {
                    let k = choose|k: int| 0 <= k < t.len() && #[trigger] t[k] == f[j];
                    assert(list[k] == t[k]);
                    assert(g[j] == f[j]);
                    assert(g[i] == list[list.len() - 1]);
                }
            }
        }
    }
}

/// Adding a participant keeps everybody who was listed.
proof fn lemma_add_one_keeps(list: Seq<PeerInfoView>, p: PeerInfoView, id: Seq<char>)
    requires
        has_peer(list, id),
    ensures
        has_peer(add_participant(list, p), id),
{
    if !has_peer(list, p.peer_id) {
        let i = choose|i: int| 0 <= i < list.len() && #[trigger] list[i].peer_id == id;
        assert(list.push(p)[i].peer_id == id);
    }
}

/// Adding participants keeps everybody who was listed.
proof fn lemma_add_keeps(list: Seq<PeerInfoView>, add: Seq<PeerInfoView>, id: Seq<char>)
    requires
        has_peer(list, id),
    ensures
        has_peer(add_participants(list, add), id),
    decreases add.len(),
{
    if add.len() > 0 {
        lemma_add_keeps(list, add.drop_last(), id);
        lemma_add_one_keeps(add_participants(list, add.drop_last()), add.last(), id);
    }
}

/// After adding participants, each of them is listed.
proof fn lemma_add_lists(list: Seq<PeerInfoView>, add: Seq<PeerInfoView>, j: int)
    requires
        0 <= j < add.len(),
    ensures
        has_peer(add_participants(list, add), add[j].peer_id),
    decreases add.len(),
{
    let l = add_participants(list, add.drop_last());
    if j < add.len() - 1 {
        lemma_add_lists(list, add.drop_last(), j);
        assert(add.drop_last()[j] == add[j]);
        lemma_add_one_keeps(l, add.last(), add[j].peer_id);
    } else if !has_peer(l, add.last().peer_id) {
        assert(l.push(add.last())[l.len() as int].peer_id == add.last().peer_id);
    }
}

/// When peers join, the client lists them: the one announced alone, or every
/// peer of the room this client was let into, and keeps everybody it listed.
pub proof fn law_joined_peers_are_listed(
    list: Seq<PeerInfoView>,
    peer_id: Seq<char>,
    name: Seq<char>,
    existing_peers: Seq<PeerInfoView>,
)
    ensures
        existing_peers.len() == 0 ==> has_peer(
            participants_after(list, SignalView::PeerJoined { peer_id, name, existing_peers }),
            peer_id,
        ),
        forall|j: int| 0 <= j < existing_peers.len() ==> has_peer(
            participants_after(list, SignalView::PeerJoined { peer_id, name, existing_peers }),
            #[trigger] existing_peers[j].peer_id,
        ),
        forall|id: Seq<char>| has_peer(list, id) ==> has_peer(
            #[trigger] participants_after(list, SignalView::PeerJoined { peer_id, name, existing_peers }),
            id,
        ),
{
    let after = participants_after(list, SignalView::PeerJoined { peer_id, name, existing_peers });
    let p = PeerInfoView { peer_id, name, is_host: false };
    if existing_peers.len() == 0 {
        if !has_peer(list, peer_id) {
            assert(list.push(p)[list.len() as int].peer_id == peer_id);
        }
    }
    assert forall|j: int| 0 <= j < existing_peers.len() implies has_peer(after, #[trigger] existing_peers[j].peer_id) by {
        lemma_add_lists(list, existing_peers, j);
    }
    assert forall|id: Seq<char>| has_peer(list, id) implies has_peer(after, id) by {
        if existing_peers.len() > 0 {
            lemma_add_keeps(list, existing_peers, id);
        } else {
            lemma_add_one_keeps(list, p, id);
        }
    }
}

/// The participants after a sequence of signalling messages, in order.
pub open spec fn participants_after_all(list: Seq<PeerInfoView>, msgs: Seq<SignalView>) -> Seq<PeerInfoView>
    decreases msgs.len(),
{
    if msgs.len() == 0 {
        list
    } else {
        participants_after(participants_after_all(list, msgs.drop_last()), msgs.last())
    }
}

/// However many signals arrive, the client lists each participant once: it
/// starts with itself alone, and every message keeps the ids distinct.
pub proof fn law_participants_unique_throughout(own: PeerInfoView, msgs: Seq<SignalView>)
    ensures
        peer_ids_unique(participants_after_all(seq![own], msgs)),
    decreases msgs.len(),
{
    if msgs.len() > 0 {
        law_participants_unique_throughout(own, msgs.drop_last());
        law_participants_unique(participants_after_all(seq![own], msgs.drop_last()), msgs.last());
    }
}

/// Negotiation answers the peer that wrote: an offer, an answer or a
/// candidate makes the client act on the connection to the message's sender,
/// with the message's own description, and leaves the participants as they
/// were.
pub proof fn law_negotiation_answers_the_sender(
    list: Seq<PeerInfoView>,
    from: Seq<char>,
    to: Seq<char>,
    payload: Seq<char>,
)
    ensures
        participants_after(list, SignalView::Offer { from_peer_id: from, to_peer_id: to, sdp: payload }) == list,
        actions_for(list, SignalView::Offer { from_peer_id: from, to_peer_id: to, sdp: payload }) == seq![
            ClientActionView::HandleOffer { from_peer_id: from, sdp: payload },
        ],
        actions_for(list, SignalView::Answer { from_peer_id: from, to_peer_id: to, sdp: payload }) == seq![
            ClientActionView::HandleAnswer { from_peer_id: from, sdp: payload },
        ],
        actions_for(
            list,
            SignalView::IceCandidate { from_peer_id: from, to_peer_id: to, candidate: payload },
        ) == seq![ClientActionView::HandleIceCandidate { from_peer_id: from, candidate: payload }],
{
}

/// After a participant leaves, the client no longer lists it.
pub proof fn law_left_participant_is_gone(list: Seq<PeerInfoView>, peer_id: Seq<char>)
    ensures
        !has_peer(participants_after(list, SignalView::PeerLeft { peer_id }), peer_id),
{
    let keep = |p: PeerInfoView| p.peer_id != peer_id;
    let t = list.filter(keep);
    if has_peer(t, peer_id) {
        let i = choose|i: int| 0 <= i < t.len() && #[trigger] t[i].peer_id == peer_id;
        list.lemma_filter_pred(keep, i);
        assert(keep(t[i]));
    }
}

} // verus!
