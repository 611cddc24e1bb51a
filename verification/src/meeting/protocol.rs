//! Messages of the meeting signalling channel and of the in-meeting data channels.

use vstd::prelude::*;

verus! {

/// A participant of a meeting room.
#[derive(Debug, Clone, PartialEq, Eq)]
pub struct PeerInfo {
    pub peer_id: String,
    pub name: String,
    pub is_host: bool,
}

/// What a [`PeerInfo`] says, as plain values.
pub struct PeerInfoView {
    pub peer_id: Seq<char>,
    pub name: Seq<char>,
    pub is_host: bool,
}

impl View for PeerInfo {
    type V = PeerInfoView;

    open spec fn view(&self) -> PeerInfoView {
        PeerInfoView { peer_id: self.peer_id@, name: self.name@, is_host: self.is_host }
    }
}

impl PeerInfo {
    /// A copy of this participant.
    pub fn duplicate(&self) -> (r: PeerInfo)
        ensures
            r@ == self@,
    {
        PeerInfo { peer_id: self.peer_id.clone(), name: self.name.clone(), is_host: self.is_host }
    }
}

/// The views of a list of participants.
pub open spec fn infos_view(s: Seq<PeerInfo>) -> Seq<PeerInfoView> {
    s.map_values(|p: PeerInfo| p@)
}

/// Copies of a list of participants.
pub fn duplicate_infos(v: &Vec<PeerInfo>) -> (r: Vec<PeerInfo>)
    ensures
        infos_view(r@) == infos_view(v@),
{
    let mut r: Vec<PeerInfo> = Vec::new();
    let mut i: usize = 0;
    while i < v.len()
        invariant
            i <= v.len(),
            r.len() == i,
            forall|j: int| 0 <= j < i ==> #[trigger] r@[j]@ == v@[j]@,
        decreases v.len() - i,
    {
        r.push(v[i].duplicate());
        i = i + 1;
    }
    assert(infos_view(r@) =~= infos_view(v@));
    r
}

/// Messages of the signalling channel between a peer and the room server.
#[derive(Debug, Clone)]
pub enum SignalingMessage {
    JoinRoom { room_id: String, peer_id: String, name: String },
    PeerJoined { peer_id: String, name: String, existing_peers: Vec<PeerInfo> },
    Offer { from_peer_id: String, to_peer_id: String, sdp: String },
    Answer { from_peer_id: String, to_peer_id: String, sdp: String },
    IceCandidate { from_peer_id: String, to_peer_id: String, candidate: String },
    /// Sent to the host when a guest is waiting to be let in.
    JoinRequested { peer_id: String, name: String },
    /// Sent to the guest: the host has been asked, hold on.
    JoinPending { room_id: String },
    /// The host's verdict on a waiting guest.
    JoinDecision { peer_id: String, accept: bool },
    /// Sent to the guest when the host says no.
    JoinRejected { room_id: String },
    PeerLeft { peer_id: String },
    LeaveRoom { room_id: String, peer_id: String },
    Error { message: String },
}

/// What a [`SignalingMessage`] says, as plain values.
pub enum SignalView {
    JoinRoom { room_id: Seq<char>, peer_id: Seq<char>, name: Seq<char> },
    PeerJoined { peer_id: Seq<char>, name: Seq<char>, existing_peers: Seq<PeerInfoView> },
    Offer { from_peer_id: Seq<char>, to_peer_id: Seq<char>, sdp: Seq<char> },
    Answer { from_peer_id: Seq<char>, to_peer_id: Seq<char>, sdp: Seq<char> },
    IceCandidate { from_peer_id: Seq<char>, to_peer_id: Seq<char>, candidate: Seq<char> },
    JoinRequested { peer_id: Seq<char>, name: Seq<char> },
    JoinPending { room_id: Seq<char> },
    JoinDecision { peer_id: Seq<char>, accept: bool },
    JoinRejected { room_id: Seq<char> },
    PeerLeft { peer_id: Seq<char> },
    LeaveRoom { room_id: Seq<char>, peer_id: Seq<char> },
    Error { message: Seq<char> },
}

impl View for SignalingMessage {
    type V = SignalView;

    open spec fn view(&self) -> SignalView {
        match self {
            SignalingMessage::JoinRoom { room_id, peer_id, name } => SignalView::JoinRoom {
                room_id: room_id@,
                peer_id: peer_id@,
                name: name@,
            },
            SignalingMessage::PeerJoined { peer_id, name, existing_peers } =>
                SignalView::PeerJoined {
                peer_id: peer_id@,
                name: name@,
                existing_peers: infos_view(existing_peers@),
            },
            SignalingMessage::Offer { from_peer_id, to_peer_id, sdp } => SignalView::Offer {
                from_peer_id: from_peer_id@,
                to_peer_id: to_peer_id@,
                sdp: sdp@,
            },
            SignalingMessage::Answer { from_peer_id, to_peer_id, sdp } => SignalView::Answer {
                from_peer_id: from_peer_id@,
                to_peer_id: to_peer_id@,
                sdp: sdp@,
            },
            SignalingMessage::IceCandidate { from_peer_id, to_peer_id, candidate } =>
                SignalView::IceCandidate {
                from_peer_id: from_peer_id@,
                to_peer_id: to_peer_id@,
                candidate: candidate@,
            },
            SignalingMessage::JoinRequested { peer_id, name } => SignalView::JoinRequested {
                peer_id: peer_id@,
                name: name@,
            },
            SignalingMessage::JoinPending { room_id } => SignalView::JoinPending {
                room_id: room_id@,
            },
            SignalingMessage::JoinDecision { peer_id, accept } => SignalView::JoinDecision {
                peer_id: peer_id@,
                accept: *accept,
            },
            SignalingMessage::JoinRejected { room_id } => SignalView::JoinRejected {
                room_id: room_id@,
            },
            SignalingMessage::PeerLeft { peer_id } => SignalView::PeerLeft { peer_id: peer_id@ },
            SignalingMessage::LeaveRoom { room_id, peer_id } => SignalView::LeaveRoom {
                room_id: room_id@,
                peer_id: peer_id@,
            },
            SignalingMessage::Error { message } => SignalView::Error { message: message@ },
        }
    }
}

/// A chat line sent inside a meeting.
#[derive(Debug, Clone)]
pub struct ChatPayload {
    pub id: String,
    pub sender_id: String,
    pub sender_name: String,
    pub text: String,
    pub timestamp: i64,
}

/// Announcements about a participant's screen share and microphone.
#[derive(Debug, Clone)]
pub enum MediaControlMessage {
    ScreenStart { peer_id: String, name: String },
    ScreenStop { peer_id: String },
    MicStatus { peer_id: String, is_muted: bool },
}

} // verus!
