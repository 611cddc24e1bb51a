//! The decisions of the signalling server for one connected peer.
//!
//! The server keeps one [`ServerSession`] per WebSocket. Each message from the
//! peer goes through [`on_client_message`], which updates the rooms and says
//! which messages go to which channel (by sender id) and whether the
//! connection is to be closed; [`on_session_end`] says who is told when the
//! connection goes away.

use vstd::prelude::*;

use super::protocol::{infos_view, PeerInfo, PeerInfoView, SignalView, SignalingMessage};
use super::rooms::{
    can_approve, join_step, lists_peers_with_senders, lists_senders, room_for_join, rooms_after_approve,
    rooms_after_join, rooms_after_leave, rooms_after_reject, JoinOutcome, JoinStep,
    RoomManager, RoomView, host_gone_text, room_full_text,
};

verus! {

/// What one signalling connection remembers.
pub struct ServerSession {
    /// The room named in the connection's URL.
    pub initial_room_id: String,
    /// The room and peer id the client joined as, once it asked to join.
    pub joined_peer: Option<(String, String)>,
    /// The sender id of the channel back to this client.
    pub tx: u64,
}

pub struct ServerSessionView {
    pub initial_room_id: Seq<char>,
    pub joined_peer: Option<(Seq<char>, Seq<char>)>,
    pub tx: u64,
}

impl View for ServerSession {
    type V = ServerSessionView;

    open spec fn view(&self) -> ServerSessionView {
        ServerSessionView {
            initial_room_id: self.initial_room_id@,
            joined_peer: match self.joined_peer {
                Some((r, p)) => Some((r@, p@)),
                None => None,
            },
            tx: self.tx,
        }
    }
}

impl ServerSession {
    pub fn new(initial_room_id: String, tx: u64) -> (s: Self)
        ensures
            s@ == (ServerSessionView { initial_room_id: initial_room_id@, joined_peer: None, tx }),
    {
        ServerSession { initial_room_id, joined_peer: None, tx }
    }
}

pub open spec fn outgoing_view(out: Seq<(u64, SignalingMessage)>) -> Seq<(u64, SignalView)> {
    out.map_values(|o: (u64, SignalingMessage)| (o.0, o.1@))
}

/// `msg` to each of `txs`, in order.
pub open spec fn notify_all(txs: Seq<u64>, msg: SignalView) -> Seq<(u64, SignalView)> {
    txs.map_values(|t: u64| (t, msg))
}

/// The room a direct message (offer, answer, candidate) is routed in: the one
/// joined, else the one of the connection's URL.
pub open spec fn target_room(s: ServerSessionView) -> Seq<char> {
    match s.joined_peer {
        Some((r, _)) => r,
        None => s.initial_room_id,
    }
}

/// Delivery of a direct message to participant `to` of `room`, if there is one.
pub open spec fn routed(m: Map<Seq<char>, RoomView>, room: Seq<char>, to: Seq<char>, msg: SignalView) -> Seq<
    (u64, SignalView),
> {
    if m.dom().contains(room) && m[room].peers.dom().contains(to) {
        seq![(m[room].peers[to].tx, msg)]
    } else {
        Seq::empty()
    }
}

/// Announcement of `peer_id` to its own channel with `infos`, then to `txs`.
pub open spec fn welcome_and_announce(
    own: u64,
    peer_id: Seq<char>,
    name: Seq<char>,
    infos: Seq<PeerInfoView>,
    txs: Seq<u64>,
) -> Seq<(u64, SignalView)> {
    seq![(own, SignalView::PeerJoined { peer_id, name, existing_peers: infos })] + notify_all(
        txs,
        SignalView::PeerJoined { peer_id, name, existing_peers: Seq::empty() },
    )
}

/// What handling `msg` does: the session and rooms after it, what is sent,
/// and whether the connection closes.
pub open spec fn signal_handled(
    s: ServerSessionView,
    s2: ServerSessionView,
    m: Map<Seq<char>, RoomView>,
    m2: Map<Seq<char>, RoomView>,
    msg: SignalView,
    out: Seq<(u64, SignalView)>,
    close: bool,
) -> bool {
    match msg {
        SignalView::JoinRoom { room_id, peer_id, name } => {
            let r = room_for_join(m, room_id, peer_id);
            &&& s2 == ServerSessionView { joined_peer: Some((room_id, peer_id)), ..s }
            &&& m2 == rooms_after_join(m, room_id, peer_id, name, s.tx)
            &&& match join_step(r, peer_id) {
                JoinStep::Full => close && out == seq![
                    (s.tx, SignalView::Error { message: room_full_text() }),
                ],
                JoinStep::HostGone => close && out == seq![
                    (s.tx, SignalView::Error { message: host_gone_text() }),
                ],
                JoinStep::Admit => !close && exists|infos: Seq<PeerInfoView>, txs: Seq<u64>|
                    lists_peers_with_senders(infos, txs, r.peers) && out == welcome_and_announce(
                        s.tx,
                        peer_id,
                        name,
                        infos,
                        txs,
                    ),
                JoinStep::Wait => !close && out == seq![
                    (r.peers[r.host].tx, SignalView::JoinRequested { peer_id, name }),
                    (s.tx, SignalView::JoinPending { room_id }),
                ],
            }
        },
        SignalView::Offer { to_peer_id, .. } => s2 == s && m2 == m && !close && out == routed(
            m,
            target_room(s),
            to_peer_id,
            msg,
        ),
        SignalView::Answer { to_peer_id, .. } => s2 == s && m2 == m && !close && out == routed(
            m,
            target_room(s),
            to_peer_id,
            msg,
        ),
        SignalView::IceCandidate { to_peer_id, .. } => s2 == s && m2 == m && !close && out == routed(
            m,
            target_room(s),
            to_peer_id,
            msg,
        ),
        SignalView::LeaveRoom { room_id, peer_id } => {
            &&& s2 == s
            &&& close
            &&& m2 == rooms_after_leave(m, room_id, peer_id)
            &&& if m2.dom().contains(room_id) {
                exists|txs: Seq<u64>|
                    lists_senders(txs, m2[room_id].peers) && out == notify_all(
                        txs,
                        SignalView::PeerLeft { peer_id },
                    )
            } else {
                out.len() == 0
            }
        },
        SignalView::JoinDecision { peer_id, accept } => {
            &&& s2 == s
            &&& !close
            &&& match s.joined_peer {
                Some((room, me)) => if m.dom().contains(room) && m[room].host == me {
                    if accept {
                        &&& m2 == rooms_after_approve(m, room, peer_id)
                        &&& if can_approve(m, room, peer_id) {
                            let entry = m[room].pending[peer_id];
                            exists|infos: Seq<PeerInfoView>, txs: Seq<u64>|
                                lists_peers_with_senders(infos, txs, m[room].peers) && out
                                    == welcome_and_announce(
                                    entry.tx,
                                    entry.info.peer_id,
                                    entry.info.name,
                                    infos,
                                    txs,
                                )
                        } else {
                            out.len() == 0
                        }
                    } else {
                        &&& m2 == rooms_after_reject(m, room, peer_id)
                        &&& out == if can_approve(m, room, peer_id) {
                            seq![(m[room].pending[peer_id].tx, SignalView::JoinRejected { room_id: room })]
                        } else {
                            Seq::empty()
                        }
                    }
                } else {
                    m2 == m && out.len() == 0
                },
                None => m2 == m && out.len() == 0,
            }
        },
        _ => s2 == s && m2 == m && !close && out.len() == 0,
    }
}

proof fn lemma_notify_push(txs: Seq<u64>, i: int, msg: SignalView)
    requires
        0 <= i < txs.len(),
    ensures
        notify_all(txs.take(i + 1), msg) == notify_all(txs.take(i), msg).push((txs[i], msg)),
{
    assert(txs.take(i + 1) =~= txs.take(i).push(txs[i]));
    assert(notify_all(txs.take(i + 1), msg) =~= notify_all(txs.take(i), msg).push((txs[i], msg)));
}

proof fn lemma_outgoing_push(s: Seq<(u64, SignalingMessage)>, o: (u64, SignalingMessage))
    ensures
        outgoing_view(s.push(o)) == outgoing_view(s).push((o.0, o.1@)),
{
    assert(outgoing_view(s.push(o)) =~= outgoing_view(s).push((o.0, o.1@)));
}

/// `msg` for each of `txs`, appended to `out`.
fn push_all(out: &mut Vec<(u64, SignalingMessage)>, txs: &Vec<u64>, peer_id: &String, name: &String)
    ensures
        outgoing_view(final(out)@) == outgoing_view(old(out)@) + notify_all(
            txs@,
            SignalView::PeerJoined { peer_id: peer_id@, name: name@, existing_peers: Seq::empty() },
        ),
{
    let ghost start = outgoing_view(out@);
    let ghost msg = SignalView::PeerJoined { peer_id: peer_id@, name: name@, existing_peers: Seq::empty() };
    let mut i: usize = 0;
    while i < txs.len()
        invariant
            i <= txs.len(),
            msg == (SignalView::PeerJoined { peer_id: peer_id@, name: name@, existing_peers: Seq::empty() }),
            outgoing_view(out@) == start + notify_all(txs@.take(i as int), msg),
        decreases txs.len() - i,
    {
        let empty: Vec<PeerInfo> = Vec::new();
        let m = SignalingMessage::PeerJoined { peer_id: peer_id.clone(), name: name.clone(), existing_peers: empty };
        assert(infos_view(empty@) =~= Seq::empty());
        assert(m@ == msg);
        proof {
            lemma_outgoing_push(out@, (txs@[i as int], m));
            lemma_notify_push(txs@, i as int, msg);
        }
        out.push((txs[i], m));
        assert(outgoing_view(out@) =~= start + notify_all(txs@.take(i + 1), msg));
        i = i + 1;
    }
    assert(txs@.take(txs.len() as int) =~= txs@);
}

/// `PeerLeft { peer_id }` for each of `txs`.
fn announce_left(txs: &Vec<u64>, peer_id: &String) -> (out: Vec<(u64, SignalingMessage)>)
    ensures
        outgoing_view(out@) == notify_all(txs@, SignalView::PeerLeft { peer_id: peer_id@ }),
{
    let mut out: Vec<(u64, SignalingMessage)> = Vec::new();
    let mut i: usize = 0;
    while i < txs.len()
        invariant
            i <= txs.len(),
            outgoing_view(out@) == notify_all(txs@.take(i as int), SignalView::PeerLeft { peer_id: peer_id@ }),
        decreases txs.len() - i,
    {
        let m = SignalingMessage::PeerLeft { peer_id: peer_id.clone() };
        proof {
            lemma_outgoing_push(out@, (txs@[i as int], m));
            lemma_notify_push(txs@, i as int, SignalView::PeerLeft { peer_id: peer_id@ });
        }
        out.push((txs[i], m));
        assert(outgoing_view(out@) =~= notify_all(txs@.take(i + 1), SignalView::PeerLeft { peer_id: peer_id@ }));
        i = i + 1;
    }
    assert(txs@.take(txs.len() as int) =~= txs@);
    out
}

/// The welcome of `peer_id` on its own channel, then its announcement to the others.
fn welcome(
    own: u64,
    peer_id: &String,
    name: &String,
    existing_peers: Vec<PeerInfo>,
    existing_senders: &Vec<u64>,
) -> (out: Vec<(u64, SignalingMessage)>)
    ensures
        outgoing_view(out@) == welcome_and_announce(
            own,
            peer_id@,
            name@,
            infos_view(existing_peers@),
            existing_senders@,
        ),
{
    let ghost infos = infos_view(existing_peers@);
    let mut out: Vec<(u64, SignalingMessage)> = Vec::new();
    out.push((
        own,
        SignalingMessage::PeerJoined { peer_id: peer_id.clone(), name: name.clone(), existing_peers },
    ));
    assert(outgoing_view(out@) =~= seq![
        (own, SignalView::PeerJoined { peer_id: peer_id@, name: name@, existing_peers: infos }),
    ]);
    push_all(&mut out, existing_senders, peer_id, name);
    out
}

fn single_out(to: u64, msg: SignalingMessage) -> (out: Vec<(u64, SignalingMessage)>)
    ensures
        outgoing_view(out@) == seq![(to, msg@)],
{
    let mut out: Vec<(u64, SignalingMessage)> = Vec::new();
    out.push((to, msg));
    assert(outgoing_view(out@) =~= seq![(out@[0].0, out@[0].1@)]);
    out
}

fn routed_out(rooms: &RoomManager, room: &String, to: &String, msg: SignalingMessage) -> (out: Vec<(u64, SignalingMessage)>)
    requires
        rooms.wf(),
    ensures
        outgoing_view(out@) == routed(rooms@, room@, to@, msg@),
{
    match rooms.route_to_peer(room.as_str(), to.as_str()) {
        Some(tx) => single_out(tx, msg),
        None => {
            let out: Vec<(u64, SignalingMessage)> = Vec::new();
            assert(outgoing_view(out@) =~= Seq::empty());
            out
        },
    }
}

fn target_room_of(session: &ServerSession) -> (r: String)
    ensures
        r@ == target_room(session@),
{
    match &session.joined_peer {
        Some((r, _)) => r.clone(),
        None => session.initial_room_id.clone(),
    }
}

/// Handles one message from the connected peer: what is sent to whom, and
/// whether the connection closes.
pub fn on_client_message(session: &mut ServerSession, rooms: &mut RoomManager, msg: SignalingMessage) -> (res: (
    Vec<(u64, SignalingMessage)>,
    bool,
))
    requires
        old(rooms).wf(),
    ensures
        final(rooms).wf(),
        signal_handled(
            old(session)@,
            final(session)@,
            old(rooms)@,
            final(rooms)@,
            msg@,
            outgoing_view(res.0@),
            res.1,
        ),
{
    let ghost mv = msg@;
    match msg {
        SignalingMessage::JoinRoom { room_id, peer_id, name } => {
            session.joined_peer = Some((room_id.clone(), peer_id.clone()));
            let tx = session.tx;
            let ghost r = room_for_join(rooms@, room_id@, peer_id@);
            let joined = rooms.join_peer(room_id.as_str(), peer_id.clone(), name.clone(), tx);
            match joined {
                Ok(JoinOutcome::Admitted { existing_peers, existing_senders }) => {
                    let ghost infos = infos_view(existing_peers@);
                    let out = welcome(tx, &peer_id, &name, existing_peers, &existing_senders);
                    assert(lists_peers_with_senders(infos, existing_senders@, r.peers));
                    (out, false)
                },
                Ok(JoinOutcome::AwaitingApproval { host_tx }) => {
                    let mut out: Vec<(u64, SignalingMessage)> = Vec::new();
                    out.push((host_tx, SignalingMessage::JoinRequested { peer_id, name }));
                    out.push((tx, SignalingMessage::JoinPending { room_id }));
                    assert(outgoing_view(out@) =~= seq![(out@[0].0, out@[0].1@), (out@[1].0, out@[1].1@)]);
                    (out, false)
                },
                Err(e) => (single_out(tx, SignalingMessage::Error { message: e }), true),
            }
        },
        SignalingMessage::Offer { from_peer_id, to_peer_id, sdp } => {
            let room = target_room_of(session);
            let m = SignalingMessage::Offer { from_peer_id, to_peer_id: to_peer_id.clone(), sdp };
            (routed_out(rooms, &room, &to_peer_id, m), false)
        },
        SignalingMessage::Answer { from_peer_id, to_peer_id, sdp } => {
            let room = target_room_of(session);
            let m = SignalingMessage::Answer { from_peer_id, to_peer_id: to_peer_id.clone(), sdp };
            (routed_out(rooms, &room, &to_peer_id, m), false)
        },
        SignalingMessage::IceCandidate { from_peer_id, to_peer_id, candidate } => {
            let room = target_room_of(session);
            let m = SignalingMessage::IceCandidate { from_peer_id, to_peer_id: to_peer_id.clone(), candidate };
            (routed_out(rooms, &room, &to_peer_id, m), false)
        },
        SignalingMessage::LeaveRoom { room_id, peer_id } => {
            let senders = rooms.leave_peer(room_id.as_str(), peer_id.as_str());
            let out = announce_left(&senders, &peer_id);
            proof {
                if !rooms@.dom().contains(room_id@) {
                    assert(senders@ =~= Seq::<u64>::empty());
                    assert(outgoing_view(out@) =~= Seq::empty());
                }
            }
            (out, true)
        },
        SignalingMessage::JoinDecision { peer_id, accept } => {
            let ghost m0 = rooms@;
            let empty: Vec<(u64, SignalingMessage)> = Vec::new();
            assert(outgoing_view(empty@) =~= Seq::empty());
            match &session.joined_peer {
                None => (empty, false),
                Some((room, me)) => {
                    if !rooms.is_host(room.as_str(), me.as_str()) {
                        return (empty, false);
                    }
                    if accept {
                        match rooms.approve_peer(room.as_str(), peer_id.as_str()) {
                            Some((info, tx, existing, senders)) => {
                                let ghost infos = infos_view(existing@);
                                let out = welcome(tx, &info.peer_id, &info.name, existing, &senders);
                                assert(lists_peers_with_senders(infos, senders@, m0[room@].peers));
                                (out, false)
                            },
                            None => (empty, false),
                        }
                    } else {
                        match rooms.reject_peer(room.as_str(), peer_id.as_str()) {
                            Some(tx) => (single_out(tx, SignalingMessage::JoinRejected { room_id: room.clone() }), false),
                            None => (empty, false),
                        }
                    }
                },
            }
        },
        _ => {
            let empty: Vec<(u64, SignalingMessage)> = Vec::new();
            assert(outgoing_view(empty@) =~= Seq::empty());
            (empty, false)
        },
    }
}

/// Who is told, and what, when the connection goes away: a joined peer leaves its room.
pub fn on_session_end(session: &ServerSession, rooms: &mut RoomManager) -> (out: Vec<(u64, SignalingMessage)>)
    requires
        old(rooms).wf(),
    ensures
        final(rooms).wf(),
        match session@.joined_peer {
            Some((room, peer)) => {
                &&& final(rooms)@ == rooms_after_leave(old(rooms)@, room, peer)
                &&& if final(rooms)@.dom().contains(room) {
                    exists|txs: Seq<u64>|
                        lists_senders(txs, final(rooms)@[room].peers) && outgoing_view(out@)
                            == notify_all(txs, SignalView::PeerLeft { peer_id: peer })
                } else {
                    out@.len() == 0
                }
            },
            None => final(rooms)@ == old(rooms)@ && out@.len() == 0,
        },
{
    match &session.joined_peer {
        Some((room, peer)) => {
            let senders = rooms.leave_peer(room.as_str(), peer.as_str());
            let out = announce_left(&senders, peer);
            proof {
                if rooms@.dom().contains(room@) {
                    assert(lists_senders(senders@, rooms@[room@].peers) && outgoing_view(out@) == notify_all(senders@, SignalView::PeerLeft { peer_id: peer@ }));
                }
                if !rooms@.dom().contains(room@) {
                    assert(senders@ =~= Seq::<u64>::empty());
                    assert(outgoing_view(out@) =~= Seq::empty());
                }
            }
            out
        },
        None => Vec::new(),
    }
}

} // verus!
