//! Meeting rooms held by the signalling server.
//!
//! The first peer in a room is its host and walks straight in; everyone after
//! that waits in the room's pending list until the host approves or rejects
//! them. A room holds at most [`MAX_ROOM_PARTICIPANTS`] peers, waiting ones
//! included. The channel that reaches a peer is held by the caller and is
//! known here by a number, its sender id.

use vstd::prelude::*;

use super::protocol::{infos_view, PeerInfo, PeerInfoView};
use crate::keyed::{
    find_key, key_map, keys_unique, lemma_find_key, lemma_key_map, lemma_key_map_push,
    lemma_key_map_remove, lemma_key_map_update, take_key, upsert, Keyed,
};

verus! {

/// Participants and waiting guests that one room holds at most.
pub const MAX_ROOM_PARTICIPANTS: usize = 6;

/// A peer in a room, with the id of the channel that reaches it.
#[derive(Debug)]
pub struct RoomPeer {
    pub info: PeerInfo,
    pub tx: u64,
}

pub struct RoomPeerView {
    pub info: PeerInfoView,
    pub tx: u64,
}

impl View for RoomPeer {
    type V = RoomPeerView;

    open spec fn view(&self) -> RoomPeerView {
        RoomPeerView { info: self.info@, tx: self.tx }
    }
}

impl Keyed for RoomPeer {
    open spec fn key_view(&self) -> Seq<char> {
        self.info.peer_id@
    }

    fn key(&self) -> (k: &String) {
        &self.info.peer_id
    }
}

/// One meeting room.
#[derive(Debug)]
pub struct Room {
    pub id: String,
    pub host_peer_id: String,
    pub peers: Vec<RoomPeer>,
    /// Guests who have knocked and are waiting on the host's verdict.
    pub pending: Vec<RoomPeer>,
}

/// A room as plain values: its participants and its waiting guests by peer id.
pub struct RoomView {
    pub id: Seq<char>,
    pub host: Seq<char>,
    pub peers: Map<Seq<char>, RoomPeerView>,
    pub pending: Map<Seq<char>, RoomPeerView>,
}

impl View for Room {
    type V = RoomView;

    open spec fn view(&self) -> RoomView {
        RoomView {
            id: self.id@,
            host: self.host_peer_id@,
            peers: key_map(self.peers@),
            pending: key_map(self.pending@),
        }
    }
}

impl Keyed for Room {
    open spec fn key_view(&self) -> Seq<char> {
        self.id@
    }

    fn key(&self) -> (k: &String) {
        &self.id
    }
}

pub open spec fn max_participants() -> int {
    MAX_ROOM_PARTICIPANTS as int
}

pub open spec fn room_full_text() -> Seq<char> {
    "Room is full (maximum 6 participants)"@
}

pub open spec fn host_gone_text() -> Seq<char> {
    "The host has left this room"@
}

pub open spec fn new_room_view(id: Seq<char>, host: Seq<char>) -> RoomView {
    RoomView { id, host, peers: Map::empty(), pending: Map::empty() }
}

/// Every room holds at most the maximum, and each entry sits under its own peer id.
pub open spec fn room_view_wf(r: RoomView) -> bool {
    &&& r.peers.dom().finite()
    &&& r.pending.dom().finite()
    &&& r.peers.len() + r.pending.len() <= max_participants()
    &&& forall|k: Seq<char>| #[trigger] r.peers.dom().contains(k) ==> r.peers[k].info.peer_id == k
    &&& forall|k: Seq<char>| #[trigger] r.pending.dom().contains(k) ==> r.pending[k].info.peer_id
        == k
}

pub open spec fn rooms_view_wf(m: Map<Seq<char>, RoomView>) -> bool {
    &&& m.dom().finite()
    &&& forall|k: Seq<char>| #[trigger] m.dom().contains(k) ==> m[k].id == k && room_view_wf(m[k])
}

/// `infos` names every entry of `m` exactly once.
pub open spec fn lists_peers(infos: Seq<PeerInfoView>, m: Map<Seq<char>, RoomPeerView>) -> bool {
    &&& forall|i: int| 0 <= i < infos.len() ==> #[trigger] m.dom().contains(infos[i].peer_id)
        && m[infos[i].peer_id].info == infos[i]
    &&& forall|i: int, j: int|
        0 <= i < infos.len() && 0 <= j < infos.len() && i != j ==> #[trigger] infos[i].peer_id
            != #[trigger] infos[j].peer_id
    &&& forall|k: Seq<char>| #[trigger] m.dom().contains(k) ==> exists|i: int|
        0 <= i < infos.len() && #[trigger] infos[i].peer_id == k
}

/// As [`lists_peers`], with `txs[i]` the sender of the peer named by `infos[i]`.
pub open spec fn lists_peers_with_senders(
    infos: Seq<PeerInfoView>,
    txs: Seq<u64>,
    m: Map<Seq<char>, RoomPeerView>,
) -> bool {
    &&& lists_peers(infos, m)
    &&& txs.len() == infos.len()
    &&& forall|i: int| 0 <= i < txs.len() ==> #[trigger] txs[i] == m[infos[i].peer_id].tx
}

/// `txs` holds the sender of every entry of `m`, one per entry.
pub open spec fn lists_senders(txs: Seq<u64>, m: Map<Seq<char>, RoomPeerView>) -> bool {
    exists|ks: Seq<Seq<char>>|
        {
            &&& ks.len() == txs.len()
            &&& forall|i: int| 0 <= i < ks.len() ==> #[trigger] m.dom().contains(ks[i]) && txs[i]
                == m[ks[i]].tx
            &&& forall|i: int, j: int|
                0 <= i < ks.len() && 0 <= j < ks.len() && i != j ==> #[trigger] ks[i]
                    != #[trigger] ks[j]
            &&& forall|k: Seq<char>| #[trigger] m.dom().contains(k) ==> exists|i: int|
                0 <= i < ks.len() && #[trigger] ks[i] == k
        }
}

/// How a room answers a peer that asks to join it.
pub enum JoinStep {
    Full,
    Admit,
    HostGone,
    Wait,
}

pub open spec fn join_step(r: RoomView, peer_id: Seq<char>) -> JoinStep {
    if r.peers.len() + r.pending.len() >= max_participants() {
        JoinStep::Full
    } else if r.peers.len() == 0 || r.host == peer_id {
        JoinStep::Admit
    } else if !r.peers.dom().contains(r.host) {
        JoinStep::HostGone
    } else {
        JoinStep::Wait
    }
}

pub open spec fn entry_view(
    peer_id: Seq<char>,
    name: Seq<char>,
    is_host: bool,
    tx: u64,
) -> RoomPeerView {
    RoomPeerView { info: PeerInfoView { peer_id, name, is_host }, tx }
}

/// The room after `peer_id` asked to join it.
pub open spec fn room_after_join(
    r: RoomView,
    peer_id: Seq<char>,
    name: Seq<char>,
    tx: u64,
) -> RoomView {
    match join_step(r, peer_id) {
        JoinStep::Admit => RoomView {
            host: peer_id,
            peers: r.peers.insert(peer_id, entry_view(peer_id, name, true, tx)),
            ..r
        },
        JoinStep::Wait => RoomView {
            pending: r.pending.insert(peer_id, entry_view(peer_id, name, false, tx)),
            ..r
        },
        _ => r,
    }
}

/// The room that a join request for `room_id` meets: the existing one, or a
/// new one hosted by the asking peer.
pub open spec fn room_for_join(
    m: Map<Seq<char>, RoomView>,
    room_id: Seq<char>,
    peer_id: Seq<char>,
) -> RoomView {
    if m.dom().contains(room_id) {
        m[room_id]
    } else {
        new_room_view(room_id, peer_id)
    }
}

pub open spec fn rooms_after_join(
    m: Map<Seq<char>, RoomView>,
    room_id: Seq<char>,
    peer_id: Seq<char>,
    name: Seq<char>,
    tx: u64,
) -> Map<Seq<char>, RoomView> {
    let r = room_for_join(m, room_id, peer_id);
    match join_step(r, peer_id) {
        JoinStep::Admit | JoinStep::Wait => m.insert(
            room_id,
            room_after_join(r, peer_id, name, tx),
        ),
        _ => m,
    }
}

/// What the answer to a join request says, given the room it met.
pub open spec fn join_outcome_matches(
    res: Result<JoinOutcome, String>,
    r: RoomView,
    peer_id: Seq<char>,
) -> bool {
    match join_step(r, peer_id) {
        JoinStep::Full => res matches Err(e) && e@ == room_full_text(),
        JoinStep::HostGone => res matches Err(e) && e@ == host_gone_text(),
        JoinStep::Admit => res matches Ok(
            JoinOutcome::Admitted { existing_peers, existing_senders },
        ) && lists_peers_with_senders(infos_view(existing_peers@), existing_senders@, r.peers),
        JoinStep::Wait => res matches Ok(JoinOutcome::AwaitingApproval { host_tx }) && host_tx
            == r.peers[r.host].tx,
    }
}

pub open spec fn can_approve(m: Map<Seq<char>, RoomView>, room_id: Seq<char>, peer_id: Seq<char>) -> bool {
    m.dom().contains(room_id) && m[room_id].pending.dom().contains(peer_id)
}

pub open spec fn room_after_approve(r: RoomView, peer_id: Seq<char>) -> RoomView {
    RoomView {
        pending: r.pending.remove(peer_id),
        peers: r.peers.insert(peer_id, r.pending[peer_id]),
        ..r
    }
}

pub open spec fn rooms_after_approve(
    m: Map<Seq<char>, RoomView>,
    room_id: Seq<char>,
    peer_id: Seq<char>,
) -> Map<Seq<char>, RoomView> {
    if can_approve(m, room_id, peer_id) {
        m.insert(room_id, room_after_approve(m[room_id], peer_id))
    } else {
        m
    }
}

pub open spec fn rooms_after_reject(
    m: Map<Seq<char>, RoomView>,
    room_id: Seq<char>,
    peer_id: Seq<char>,
) -> Map<Seq<char>, RoomView> {
    if can_approve(m, room_id, peer_id) {
        m.insert(room_id, RoomView { pending: m[room_id].pending.remove(peer_id), ..m[room_id] })
    } else {
        m
    }
}

/// The room without `peer_id`, among participants and waiting guests alike.
pub open spec fn room_without(r: RoomView, peer_id: Seq<char>) -> RoomView {
    RoomView { peers: r.peers.remove(peer_id), pending: r.pending.remove(peer_id), ..r }
}

pub open spec fn rooms_after_leave(
    m: Map<Seq<char>, RoomView>,
    room_id: Seq<char>,
    peer_id: Seq<char>,
) -> Map<Seq<char>, RoomView> {
    if !m.dom().contains(room_id) {
        m
    } else if room_without(m[room_id], peer_id).peers.len() == 0 {
        m.remove(room_id)
    } else {
        m.insert(room_id, room_without(m[room_id], peer_id))
    }
}

/// What should happen to a peer that just asked to join.
pub enum JoinOutcome {
    /// The first peer in the room is its host and walks straight in.
    Admitted { existing_peers: Vec<PeerInfo>, existing_senders: Vec<u64> },
    /// The host has been asked and the guest is waiting.
    AwaitingApproval { host_tx: u64 },
}

pub proof fn lemma_room_view_wf(r: Room)
    requires
        r.wf(),
    ensures
        room_view_wf(r@),
        r@.peers.len() == r.peers.len(),
        r@.pending.len() == r.pending.len(),
{
    lemma_key_map(r.peers@);
    lemma_key_map(r.pending@);
    assert forall|k: Seq<char>| #[trigger] r@.peers.dom().contains(k) implies r@.peers[k].info.peer_id
        == k by {
        let i = choose|i: int| 0 <= i < r.peers@.len() && #[trigger] r.peers@[i].key_view() == k;
        assert(key_map(r.peers@)[r.peers@[i].key_view()] == r.peers@[i]@);
    }
    assert forall|k: Seq<char>| #[trigger] r@.pending.dom().contains(k) implies r@.pending[
        k
    ].info.peer_id == k by {
        let i = choose|i: int| 0 <= i < r.pending@.len() && #[trigger] r.pending@[i].key_view() == k;
        assert(key_map(r.pending@)[r.pending@[i].key_view()] == r.pending@[i]@);
    }
}

/// The participants and their senders, in the order the room holds them.
fn peers_listing(peers: &Vec<RoomPeer>) -> (res: (Vec<PeerInfo>, Vec<u64>))
    requires
        keys_unique(peers@),
    ensures
        lists_peers_with_senders(infos_view(res.0@), res.1@, key_map(peers@)),
{
    let mut infos: Vec<PeerInfo> = Vec::new();
    let mut txs: Vec<u64> = Vec::new();
    let mut i: usize = 0;
    while i < peers.len()
        invariant
            i <= peers.len(),
            infos.len() == i,
            txs.len() == i,
            forall|j: int| 0 <= j < i ==> #[trigger] infos@[j]@ == peers@[j].info@ && txs@[j]
                == peers@[j].tx,
        decreases peers.len() - i,
    {
        infos.push(peers[i].info.duplicate());
        txs.push(peers[i].tx);
        i = i + 1;
    }
    proof {
        lemma_key_map(peers@);
        let iv = infos_view(infos@);
        let m = key_map(peers@);
        assert forall|j: int| 0 <= j < iv.len() implies #[trigger] m.dom().contains(iv[j].peer_id)
            && m[iv[j].peer_id].info == iv[j] by {
            assert(iv[j] == infos@[j]@);
            assert(peers@[j].key_view() == iv[j].peer_id);
            assert(m[peers@[j].key_view()] == peers@[j]@);
        }
        assert forall|a: int, b: int|
            0 <= a < iv.len() && 0 <= b < iv.len() && a != b implies #[trigger] iv[a].peer_id
            != #[trigger] iv[b].peer_id by {
            assert(iv[a] == infos@[a]@ && iv[b] == infos@[b]@);
            assert(peers@[a].key_view() != peers@[b].key_view());
        }
        assert forall|k: Seq<char>| #[trigger] m.dom().contains(k) implies exists|j: int|
            0 <= j < iv.len() && #[trigger] iv[j].peer_id == k by {
            let j = choose|j: int| 0 <= j < peers@.len() && #[trigger] peers@[j].key_view() == k;
            assert(iv[j] == infos@[j]@);
            assert(iv[j].peer_id == k);
        }
        assert forall|j: int| 0 <= j < txs@.len() implies #[trigger] txs@[j] == m[iv[j].peer_id].tx by {
            assert(iv[j] == infos@[j]@);
            assert(peers@[j].key_view() == iv[j].peer_id);
            assert(m[peers@[j].key_view()] == peers@[j]@);
        }
    }
    (infos, txs)
}

/// The senders of every participant but `except`.
fn senders_except(peers: &Vec<RoomPeer>, except: &String) -> (txs: Vec<u64>)
    requires
        keys_unique(peers@),
    ensures
        lists_senders(txs@, key_map(peers@).remove(except@)),
{
    let mut txs: Vec<u64> = Vec::new();
    let ghost mut ks: Seq<Seq<char>> = Seq::empty();
    let mut i: usize = 0;
    proof {
        lemma_key_map(peers@);
    }
    while i < peers.len()
        invariant
            i <= peers.len(),
            keys_unique(peers@),
            ks.len() == txs.len(),
            forall|j: int| 0 <= j < ks.len() ==> exists|p: int|
                0 <= p < i && #[trigger] ks[j] == peers@[p].key_view() && txs@[j] == peers@[p].tx
                    && peers@[p].key_view() != except@,
            forall|a: int, b: int|
                0 <= a < ks.len() && 0 <= b < ks.len() && a != b ==> #[trigger] ks[a]
                    != #[trigger] ks[b],
            forall|p: int|
                0 <= p < i && #[trigger] peers@[p].key_view() != except@ ==> exists|j: int|
                    0 <= j < ks.len() && #[trigger] ks[j] == peers@[p].key_view(),
        decreases peers.len() - i,
    {
        let ghost ks0 = ks;
        if !peers[i].info.peer_id.eq(except) {
            proof {
                assert forall|j: int| 0 <= j < ks.len() implies #[trigger] ks[j]
                    != peers@[i as int].key_view() by {
                    let p = choose|p: int|
                        0 <= p < i && #[trigger] ks[j] == peers@[p].key_view() && txs@[j]
                            == peers@[p].tx && peers@[p].key_view() != except@;
                    assert(peers@[p].key_view() != peers@[i as int].key_view());
                }
                let old_ks = ks;
                ks = ks.push(peers@[i as int].key_view());
                assert forall|j: int| 0 <= j < old_ks.len() implies #[trigger] ks[j] == old_ks[j] by {}
                assert(ks[old_ks.len() as int] == peers@[i as int].key_view());
            }
            txs.push(peers[i].tx);
        }
        proof {
            assert forall|p: int|
                0 <= p < i + 1 && #[trigger] peers@[p].key_view() != except@ implies exists|j: int|
                0 <= j < ks.len() && #[trigger] ks[j] == peers@[p].key_view() by {
                if p < i {
                    let j = choose|j: int| 0 <= j < ks0.len() && #[trigger] ks0[j] == peers@[p].key_view();
                    assert(ks[j] == ks0[j]);
                } else {
                    assert(ks[ks.len() - 1] == peers@[p].key_view());
                }
            }
        }
        i = i + 1;
    }
    proof {
        let m = key_map(peers@).remove(except@);
        assert forall|j: int| 0 <= j < ks.len() implies #[trigger] m.dom().contains(ks[j]) && txs@[j]
            == m[ks[j]].tx by {
            let p = choose|p: int|
                0 <= p < peers@.len() && #[trigger] ks[j] == peers@[p].key_view() && txs@[j]
                    == peers@[p].tx && peers@[p].key_view() != except@;
            assert(key_map(peers@)[peers@[p].key_view()] == peers@[p]@);
        }
        assert forall|k: Seq<char>| #[trigger] m.dom().contains(k) implies exists|j: int|
            0 <= j < ks.len() && #[trigger] ks[j] == k by {
            let p = choose|p: int| 0 <= p < peers@.len() && #[trigger] peers@[p].key_view() == k;
        }
    }
    txs
}

impl Room {
    /// Keys are unique and the room is within its capacity.
    pub open spec fn wf(&self) -> bool {
        &&& keys_unique(self.peers@)
        &&& keys_unique(self.pending@)
        &&& self.peers.len() + self.pending.len() <= MAX_ROOM_PARTICIPANTS
    }

    pub fn new(id: String, host_peer_id: String) -> (r: Self)
        ensures
            r@ == new_room_view(id@, host_peer_id@),
            r.wf(),
    {
        let r = Room { id, host_peer_id, peers: Vec::new(), pending: Vec::new() };
        assert(r@.peers =~= Map::empty());
        assert(r@.pending =~= Map::empty());
        r
    }

    /// Admits `peer_id` as host, parks it as a guest, or turns it away.
    fn join(&mut self, peer_id: String, name: String, tx: u64) -> (res: Result<JoinOutcome, String>)
        requires
            old(self).wf(),
        ensures
            final(self).wf(),
            final(self)@ == room_after_join(old(self)@, peer_id@, name@, tx),
            join_outcome_matches(res, old(self)@, peer_id@),
    {
        proof {
            lemma_room_view_wf(*self);
        }
        if self.peers.len() + self.pending.len() >= MAX_ROOM_PARTICIPANTS {
            return Err("Room is full (maximum 6 participants)".to_owned());
        }
        let is_host = self.peers.len() == 0 || self.host_peer_id.eq(&peer_id);
        if is_host {
            self.host_peer_id = peer_id.clone();
            let (existing_peers, existing_senders) = peers_listing(&self.peers);
            let entry = RoomPeer { info: PeerInfo { peer_id, name, is_host }, tx };
            upsert(&mut self.peers, entry);
            proof {
                lemma_key_map(self.peers@);
            }
            return Ok(JoinOutcome::Admitted { existing_peers, existing_senders });
        }
        let found = find_key(&self.peers, &self.host_peer_id);
        proof {
            lemma_find_key(self.peers@, self.host_peer_id@, found);
        }
        let host_tx = match found {
            Some(i) => self.peers[i].tx,
            None => {
                return Err("The host has left this room".to_owned());
            },
        };
        let entry = RoomPeer { info: PeerInfo { peer_id, name, is_host: false }, tx };
        upsert(&mut self.pending, entry);
        proof {
            lemma_key_map(self.pending@);
        }
        Ok(JoinOutcome::AwaitingApproval { host_tx })
    }

    /// Lets the waiting guest `peer_id` in.
    fn approve(&mut self, peer_id: &String) -> (res: Option<(PeerInfo, u64, Vec<PeerInfo>, Vec<u64>)>)
        requires
            old(self).wf(),
        ensures
            final(self).wf(),
            old(self)@.pending.dom().contains(peer_id@) ==> final(self)@ == room_after_approve(
                old(self)@,
                peer_id@,
            ),
            !old(self)@.pending.dom().contains(peer_id@) ==> final(self)@ == old(self)@,
            approval_matches(res, old(self)@, peer_id@),
    {
        proof {
            lemma_room_view_wf(*self);
        }
        let ghost old_pending = self.pending@;
        let taken = take_key(&mut self.pending, peer_id);
        proof {
            lemma_key_map(old_pending);
            lemma_key_map(self.pending@);
        }
        match taken {
            None => {
                assert(key_map(old_pending).remove(peer_id@) =~= key_map(old_pending));
                None
            },
            Some(peer) => {
                let (existing, senders) = peers_listing(&self.peers);
                let info = peer.info.duplicate();
                let tx = peer.tx;
                proof {
                    lemma_key_map(self.pending@);
                }
                upsert(&mut self.peers, peer);
                proof {
                    lemma_key_map(self.peers@);
                }
                Some((info, tx, existing, senders))
            },
        }
    }

    /// Turns the waiting guest `peer_id` away; returns its sender.
    fn reject(&mut self, peer_id: &String) -> (res: Option<u64>)
        requires
            old(self).wf(),
        ensures
            final(self).wf(),
            final(self)@ == (RoomView { pending: old(self)@.pending.remove(peer_id@), ..old(self)@ }),
            old(self)@.pending.dom().contains(peer_id@) == res is Some,
            res matches Some(tx) ==> tx == old(self)@.pending[peer_id@].tx,
    {
        proof {
            lemma_room_view_wf(*self);
        }
        let taken = take_key(&mut self.pending, peer_id);
        proof {
            lemma_key_map(self.pending@);
        }
        match taken {
            None => None,
            Some(peer) => Some(peer.tx),
        }
    }

    /// Drops `peer_id`, whether it is a participant or a waiting guest.
    fn remove_peer(&mut self, peer_id: &String)
        requires
            old(self).wf(),
        ensures
            final(self).wf(),
            final(self)@ == room_without(old(self)@, peer_id@),
    {
        proof {
            lemma_room_view_wf(*self);
        }
        let _ = take_key(&mut self.peers, peer_id);
        let _ = take_key(&mut self.pending, peer_id);
        proof {
            lemma_key_map(self.peers@);
            lemma_key_map(self.pending@);
        }
    }
}

/// What approving a guest answers, given the room it met.
pub open spec fn approval_matches(
    res: Option<(PeerInfo, u64, Vec<PeerInfo>, Vec<u64>)>,
    r: RoomView,
    peer_id: Seq<char>,
) -> bool {
    match res {
        Some((info, tx, existing, senders)) => {
            &&& r.pending.dom().contains(peer_id)
            &&& info@ == r.pending[peer_id].info
            &&& tx == r.pending[peer_id].tx
            &&& lists_peers_with_senders(infos_view(existing@), senders@, r.peers)
        },
        None => !r.pending.dom().contains(peer_id),
    }
}

/// All the meeting rooms of one signalling server.
pub struct RoomManager {
    rooms: Vec<Room>,
}

impl View for RoomManager {
    type V = Map<Seq<char>, RoomView>;

    closed spec fn view(&self) -> Map<Seq<char>, RoomView> {
        key_map(self.rooms@)
    }
}

impl RoomManager {
    /// Room ids are unique and every room is within its capacity.
    closed spec fn shape_wf(&self) -> bool {
        &&& keys_unique(self.rooms@)
        &&& forall|i: int| 0 <= i < self.rooms@.len() ==> #[trigger] self.rooms@[i].wf()
    }

    /// Room ids are unique, every room is within its capacity, and the only
    /// participant of a room marked as host is its host.
    pub closed spec fn wf(&self) -> bool {
        &&& self.shape_wf()
        &&& hosts_marked_right(self@)
    }

    proof fn lemma_view_wf(&self)
        requires
            self.shape_wf(),
        ensures
            rooms_view_wf(self@),
    {
        lemma_key_map(self.rooms@);
        assert forall|k: Seq<char>| #[trigger] self@.dom().contains(k) implies self@[k].id == k
            && room_view_wf(self@[k]) by {
            let i = choose|i: int| 0 <= i < self.rooms@.len() && #[trigger] self.rooms@[i].key_view() == k;
            assert(self@[self.rooms@[i].key_view()] == self.rooms@[i]@);
            lemma_room_view_wf(self.rooms@[i]);
        }
    }

    /// Puts `room` back at `i`, where a room with the same id was taken out.
    fn put_back(&mut self, i: usize, room: Room, Ghost(before): Ghost<Seq<Room>>)
        requires
            i <= old(self).rooms@.len(),
            old(self).rooms@ == before.remove(i as int),
            i < before.len(),
            keys_unique(before),
            forall|j: int| 0 <= j < before.len() ==> #[trigger] before[j].wf(),
            room.wf(),
            room.id@ == before[i as int].id@,
        ensures
            final(self).shape_wf(),
            final(self)@ == key_map(before).insert(room.id@, room@),
    {
        let ghost r = room;
        self.rooms.insert(i, room);
        proof {
            assert(self.rooms@ =~= before.update(i as int, r));
            lemma_key_map_update(before, i as int, r);
        }
    }

    pub fn new() -> (m: Self)
        ensures
            m.wf(),
            m@ == Map::<Seq<char>, RoomView>::empty(),
    {
        let m = RoomManager { rooms: Vec::new() };
        assert(m@ =~= Map::empty());
        m
    }

    /// Registers a new room created by a host, unless the room exists.
    pub fn create_room(&mut self, room_id: &str, host_peer_id: &str)
        requires
            old(self).wf(),
        ensures
            final(self).wf(),
            final(self)@ == if old(self)@.dom().contains(room_id@) {
                old(self)@
            } else {
                old(self)@.insert(room_id@, new_room_view(room_id@, host_peer_id@))
            },
    {
        proof {
            self.lemma_view_wf();
            law_one_host_per_room(self@, room_id@, host_peer_id@, Seq::empty(), 0);
        }
        let key = room_id.to_owned();
        let f = find_key(&self.rooms, &key);
        proof {
            lemma_find_key(self.rooms@, key@, f);
        }
        if f.is_none() {
            let room = Room::new(key, host_peer_id.to_owned());
            proof {
                lemma_key_map_push(self.rooms@, room);
            }
            self.rooms.push(room);
        }
    }

    /// Adds a peer to the room (opening it if needed), or parks it until the
    /// host decides.
    ///
    /// The peer that opens a room is its host and is admitted immediately.
    /// Everyone after that waits among the room's pending guests until
    /// [`approve_peer`](RoomManager::approve_peer) or
    /// [`reject_peer`](RoomManager::reject_peer) is called for them.
    pub fn join_peer(&mut self, room_id: &str, peer_id: String, name: String, tx: u64) -> (res:
        Result<JoinOutcome, String>)
        requires
            old(self).wf(),
        ensures
            final(self).wf(),
            final(self)@ == rooms_after_join(old(self)@, room_id@, peer_id@, name@, tx),
            join_outcome_matches(res, room_for_join(old(self)@, room_id@, peer_id@), peer_id@),
    {
        proof {
            self.lemma_view_wf();
            law_one_host_per_room(self@, room_id@, peer_id@, name@, tx);
        }
        let key = room_id.to_owned();
        let f = find_key(&self.rooms, &key);
        proof {
            lemma_find_key(self.rooms@, key@, f);
        }
        match f {
            Some(i) => {
                let ghost before = self.rooms@;
                let mut room = self.rooms.remove(i);
                let res = room.join(peer_id, name, tx);
                self.put_back(i, room, Ghost(before));
                proof {
                    if res is Err {
                        assert(key_map(before).insert(key@, key_map(before)[key@]) =~= key_map(before));
                    }
                }
                res
            },
            None => {
                let mut room = Room::new(key, peer_id.clone());
                let res = room.join(peer_id, name, tx);
                if res.is_ok() {
                    proof {
                        lemma_key_map_push(self.rooms@, room);
                    }
                    self.rooms.push(room);
                }
                res
            },
        }
    }

    /// Lets a waiting guest in, as the host asked.
    ///
    /// Returns the guest's own sender plus the peers already in the room, so the
    /// caller can send the welcome and announce the arrival.
    pub fn approve_peer(&mut self, room_id: &str, peer_id: &str) -> (res: Option<
        (PeerInfo, u64, Vec<PeerInfo>, Vec<u64>),
    >)
        requires
            old(self).wf(),
        ensures
            final(self).wf(),
            final(self)@ == rooms_after_approve(old(self)@, room_id@, peer_id@),
            old(self)@.dom().contains(room_id@) ==> approval_matches(res, old(self)@[room_id@], peer_id@),
            !old(self)@.dom().contains(room_id@) ==> res is None,
    {
        proof {
            self.lemma_view_wf();
            law_one_host_per_room(self@, room_id@, peer_id@, Seq::empty(), 0);
        }
        let key = room_id.to_owned();
        let pid = peer_id.to_owned();
        let f = find_key(&self.rooms, &key);
        proof {
            lemma_find_key(self.rooms@, key@, f);
        }
        match f {
            None => None,
            Some(i) => {
                let ghost before = self.rooms@;
                let mut room = self.rooms.remove(i);
                let res = room.approve(&pid);
                self.put_back(i, room, Ghost(before));
                proof {
                    if res is None {
                        assert(key_map(before).insert(key@, key_map(before)[key@]) =~= key_map(before));
                    }
                }
                res
            },
        }
    }

    /// Turns a waiting guest away. Returns its sender so it can be told.
    pub fn reject_peer(&mut self, room_id: &str, peer_id: &str) -> (res: Option<u64>)
        requires
            old(self).wf(),
        ensures
            final(self).wf(),
            final(self)@ == rooms_after_reject(old(self)@, room_id@, peer_id@),
            can_approve(old(self)@, room_id@, peer_id@) == res is Some,
            res matches Some(tx) ==> tx == old(self)@[room_id@].pending[peer_id@].tx,
    {
        proof {
            self.lemma_view_wf();
            law_one_host_per_room(self@, room_id@, peer_id@, Seq::empty(), 0);
        }
        let key = room_id.to_owned();
        let pid = peer_id.to_owned();
        let f = find_key(&self.rooms, &key);
        proof {
            lemma_find_key(self.rooms@, key@, f);
        }
        match f {
            None => None,
            Some(i) => {
                let ghost before = self.rooms@;
                let mut room = self.rooms.remove(i);
                let ghost r0 = room@;
                let res = room.reject(&pid);
                self.put_back(i, room, Ghost(before));
                proof {
                    if res is None {
                        assert(r0.pending.remove(pid@) =~= r0.pending);
                        assert(key_map(before).insert(key@, key_map(before)[key@]) =~= key_map(before));
                    }
                }
                res
            },
        }
    }

    /// The sender of participant `to_peer_id` of the room, where a direct
    /// signalling message (offer, answer, ice-candidate) for it goes.
    pub fn route_to_peer(&self, room_id: &str, to_peer_id: &str) -> (res: Option<u64>)
        requires
            self.wf(),
        ensures
            res is Some == (self@.dom().contains(room_id@) && self@[room_id@].peers.dom().contains(
                to_peer_id@,
            )),
            res matches Some(tx) ==> tx == self@[room_id@].peers[to_peer_id@].tx,
    {
        let key = room_id.to_owned();
        let pid = to_peer_id.to_owned();
        let f = find_key(&self.rooms, &key);
        proof {
            lemma_find_key(self.rooms@, key@, f);
        }
        match f {
            None => None,
            Some(i) => {
                let room = &self.rooms[i];
                assert(self.rooms@[i as int].wf());
                let g = find_key(&room.peers, &pid);
                proof {
                    lemma_find_key(room.peers@, pid@, g);
                }
                match g {
                    None => None,
                    Some(j) => Some(room.peers[j].tx),
                }
            },
        }
    }

    /// The senders of every participant of the room but `except_peer_id`,
    /// where a broadcast goes.
    pub fn broadcast_except(&self, room_id: &str, except_peer_id: &str) -> (res: Vec<u64>)
        requires
            self.wf(),
        ensures
            self@.dom().contains(room_id@) ==> lists_senders(
                res@,
                self@[room_id@].peers.remove(except_peer_id@),
            ),
            !self@.dom().contains(room_id@) ==> res@.len() == 0,
    {
        let key = room_id.to_owned();
        let pid = except_peer_id.to_owned();
        let f = find_key(&self.rooms, &key);
        proof {
            lemma_find_key(self.rooms@, key@, f);
        }
        match f {
            None => Vec::new(),
            Some(i) => {
                assert(self.rooms@[i as int].wf());
                senders_except(&self.rooms[i].peers, &pid)
            },
        }
    }

    /// Removes a peer from the room. Returns the remaining participants'
    /// senders, to notify. A room left without participants is dropped.
    pub fn leave_peer(&mut self, room_id: &str, peer_id: &str) -> (res: Vec<u64>)
        requires
            old(self).wf(),
        ensures
            final(self).wf(),
            final(self)@ == rooms_after_leave(old(self)@, room_id@, peer_id@),
            final(self)@.dom().contains(room_id@) ==> lists_senders(res@, final(self)@[room_id@].peers),
            !final(self)@.dom().contains(room_id@) ==> res@.len() == 0,
    {
        proof {
            self.lemma_view_wf();
            law_one_host_per_room(self@, room_id@, peer_id@, Seq::empty(), 0);
        }
        let key = room_id.to_owned();
        let pid = peer_id.to_owned();
        let f = find_key(&self.rooms, &key);
        proof {
            lemma_find_key(self.rooms@, key@, f);
        }
        match f {
            None => Vec::new(),
            Some(i) => {
                let ghost before = self.rooms@;
                let mut room = self.rooms.remove(i);
                room.remove_peer(&pid);
                proof {
                    lemma_room_view_wf(room);
                }
                if room.peers.len() == 0 {
                    proof {
                        lemma_key_map_remove(before, i as int);
                        assert forall|j: int| 0 <= j < self.rooms@.len() implies #[trigger] self.rooms@[j].wf() by {
                            let j2 = if j < i { j } else { j + 1 };
                            assert(self.rooms@[j] == before[j2]);
                        }
                    }
                    Vec::new()
                } else {
                    let senders = senders_except(&room.peers, &pid);
                    proof {
                        assert(room@.peers.remove(pid@) =~= room@.peers);
                    }
                    self.put_back(i, room, Ghost(before));
                    senders
                }
            },
        }
    }

    /// Whether `peer_id` hosts the room; join decisions are gated on it.
    pub fn is_host(&self, room_id: &str, peer_id: &str) -> (res: bool)
        requires
            self.wf(),
        ensures
            res == (self@.dom().contains(room_id@) && self@[room_id@].host == peer_id@),
    {
        let key = room_id.to_owned();
        let pid = peer_id.to_owned();
        let f = find_key(&self.rooms, &key);
        proof {
            lemma_find_key(self.rooms@, key@, f);
        }
        match f {
            None => false,
            Some(i) => self.rooms[i].host_peer_id.eq(&pid),
        }
    }

    /// The participants of a room, without its waiting guests.
    pub fn list_peers(&self, room_id: &str) -> (res: Vec<PeerInfo>)
        requires
            self.wf(),
        ensures
            self@.dom().contains(room_id@) ==> lists_peers(infos_view(res@), self@[room_id@].peers),
            !self@.dom().contains(room_id@) ==> res@.len() == 0,
            forall|i: int| 0 <= i < res@.len() && (#[trigger] res@[i]).is_host ==> res@[i].peer_id@
                == self@[room_id@].host,
            forall|i: int, j: int|
                0 <= i < res@.len() && 0 <= j < res@.len() && (#[trigger] res@[i]).is_host
                    && (#[trigger] res@[j]).is_host ==> i == j,
    {
        let key = room_id.to_owned();
        let f = find_key(&self.rooms, &key);
        proof {
            lemma_find_key(self.rooms@, key@, f);
        }
        match f {
            None => Vec::new(),
            Some(i) => {
                assert(self.rooms@[i as int].wf());
                let (infos, _) = peers_listing(&self.rooms[i].peers);
                proof {
                    let m = self@[room_id@].peers;
                    let v = infos_view(infos@);
                    assert(self@[room_id@] == self.rooms@[i as int]@);
                    assert(m == key_map(self.rooms@[i as int].peers@));
                    assert(lists_peers(v, m));
                    assert(v.len() == infos@.len());
                    assert(host_marked_right(self@[room_id@]));
                    assert forall|a: int| 0 <= a < infos@.len() && (#[trigger] infos@[a]).is_host implies infos@[a].peer_id@
                        == self@[room_id@].host by {
                        assert(0 <= a < v.len());
                        assert(v[a] == infos@[a]@);
                        assert(m.dom().contains(v[a].peer_id));
                        assert(m[v[a].peer_id].info == v[a]);
                    }
                    assert forall|a: int, b: int|
                        0 <= a < infos@.len() && 0 <= b < infos@.len() && (#[trigger] infos@[a]).is_host
                            && (#[trigger] infos@[b]).is_host implies a == b by {
                        assert(0 <= a < v.len() && 0 <= b < v.len());
                        assert(v[a] == infos@[a]@);
                        assert(v[b] == infos@[b]@);
                        assert(m.dom().contains(v[a].peer_id));
                        assert(m[v[a].peer_id].info == v[a]);
                        assert(m.dom().contains(v[b].peer_id));
                        assert(m[v[b].peer_id].info == v[b]);
                        if a != b {
                            assert(v[a].peer_id != v[b].peer_id);
                        }
                    }
                }
                infos
            },
        }
    }
}

/// No room ever holds more than six people, waiting guests included, and
/// every entry sits under its own peer id.
pub proof fn law_room_capacity(rm: &RoomManager)
    requires
        rm.wf(),
    ensures
        rooms_view_wf(rm@),
        hosts_marked_right(rm@),
        forall|k: Seq<char>| #[trigger] rm@.dom().contains(k) ==> rm@[k].peers.len()
            + rm@[k].pending.len() <= max_participants(),
{
    rm.lemma_view_wf();
}

/// The peer that opens a room is its host and walks straight in, alone.
pub proof fn law_first_peer_hosts(
    m: Map<Seq<char>, RoomView>,
    room_id: Seq<char>,
    peer_id: Seq<char>,
    name: Seq<char>,
    tx: u64,
)
    requires
        !m.dom().contains(room_id),
    ensures
        join_step(room_for_join(m, room_id, peer_id), peer_id) == JoinStep::Admit,
        rooms_after_join(m, room_id, peer_id, name, tx)[room_id].host == peer_id,
        rooms_after_join(m, room_id, peer_id, name, tx)[room_id].peers == map![peer_id => entry_view(peer_id, name, true, tx)],
        rooms_after_join(m, room_id, peer_id, name, tx)[room_id].pending.len() == 0,
{
    let r = room_for_join(m, room_id, peer_id);
    assert(r.peers.len() == 0 && r.pending.len() == 0);
    assert(r.peers.insert(peer_id, entry_view(peer_id, name, true, tx)) =~= map![peer_id => entry_view(peer_id, name, true, tx)]);
}

/// A guest stays out until the host approves: asking to join a room that has
/// a host leaves its participants as they were and parks the guest.
pub proof fn law_guest_waits_for_host(
    m: Map<Seq<char>, RoomView>,
    room_id: Seq<char>,
    peer_id: Seq<char>,
    name: Seq<char>,
    tx: u64,
)
    requires
        m.dom().contains(room_id),
        join_step(m[room_id], peer_id) == JoinStep::Wait,
    ensures
        rooms_after_join(m, room_id, peer_id, name, tx)[room_id].peers == m[room_id].peers,
        rooms_after_join(m, room_id, peer_id, name, tx)[room_id].pending.dom().contains(peer_id),
{
}

/// Approving a waiting guest makes it a participant, with the name it gave,
/// and it no longer waits.
pub proof fn law_approved_guest_is_admitted(
    m: Map<Seq<char>, RoomView>,
    room_id: Seq<char>,
    peer_id: Seq<char>,
)
    requires
        can_approve(m, room_id, peer_id),
    ensures
        rooms_after_approve(m, room_id, peer_id)[room_id].peers.dom().contains(peer_id),
        rooms_after_approve(m, room_id, peer_id)[room_id].peers[peer_id] == m[room_id].pending[peer_id],
        !rooms_after_approve(m, room_id, peer_id)[room_id].pending.dom().contains(peer_id),
{
}

/// A rejected guest is dropped rather than admitted: a second verdict on it
/// has nothing left to act on.
pub proof fn law_rejected_guest_is_dropped(
    m: Map<Seq<char>, RoomView>,
    room_id: Seq<char>,
    peer_id: Seq<char>,
)
    ensures
        !can_approve(rooms_after_reject(m, room_id, peer_id), room_id, peer_id),
        rooms_after_approve(rooms_after_reject(m, room_id, peer_id), room_id, peer_id)
            == rooms_after_reject(m, room_id, peer_id),
        m.dom().contains(room_id) ==> rooms_after_reject(m, room_id, peer_id)[room_id].peers
            == m[room_id].peers,
{
}

/// After leaving, a peer is neither a participant nor a waiting guest of the
/// room, and a room left without participants is gone.
pub proof fn law_leaving_removes_peer(
    m: Map<Seq<char>, RoomView>,
    room_id: Seq<char>,
    peer_id: Seq<char>,
)
    ensures
        rooms_after_leave(m, room_id, peer_id).dom().contains(room_id) ==> {
            &&& !rooms_after_leave(m, room_id, peer_id)[room_id].peers.dom().contains(peer_id)
            &&& !rooms_after_leave(m, room_id, peer_id)[room_id].pending.dom().contains(peer_id)
            &&& rooms_after_leave(m, room_id, peer_id)[room_id].peers.len() > 0
        },
        forall|k: Seq<char>| k != room_id ==> #[trigger] rooms_after_leave(m, room_id, peer_id).dom().contains(k)
            == m.dom().contains(k),
{
}

/// The host mark of a room is right: a participant marked as host is the
/// room's host, and no waiting guest is marked.
pub open spec fn host_marked_right(r: RoomView) -> bool {
    &&& forall|k: Seq<char>| #[trigger] r.peers.dom().contains(k) && r.peers[k].info.is_host ==> k == r.host
    &&& forall|k: Seq<char>| #[trigger] r.pending.dom().contains(k) ==> !r.pending[k].info.is_host
}

/// The host marks of every room are right.
pub open spec fn hosts_marked_right(m: Map<Seq<char>, RoomView>) -> bool {
    forall|k: Seq<char>| #[trigger] m.dom().contains(k) ==> host_marked_right(m[k])
}

/// At most one participant of a room is marked as host, and it is the room's
/// host: this holds with no rooms, and every operation on the rooms keeps it.
pub proof fn law_one_host_per_room(
    m: Map<Seq<char>, RoomView>,
    room_id: Seq<char>,
    peer_id: Seq<char>,
    name: Seq<char>,
    tx: u64,
)
    requires
        rooms_view_wf(m),
        hosts_marked_right(m),
    ensures
        hosts_marked_right(Map::<Seq<char>, RoomView>::empty()),
        !m.dom().contains(room_id) ==> hosts_marked_right(m.insert(room_id, new_room_view(room_id, peer_id))),
        hosts_marked_right(rooms_after_join(m, room_id, peer_id, name, tx)),
        hosts_marked_right(rooms_after_approve(m, room_id, peer_id)),
        hosts_marked_right(rooms_after_reject(m, room_id, peer_id)),
        hosts_marked_right(rooms_after_leave(m, room_id, peer_id)),
        m.dom().contains(room_id) ==> forall|a: Seq<char>, b: Seq<char>|
            #[trigger] m[room_id].peers.dom().contains(a) && #[trigger] m[room_id].peers.dom().contains(b)
                && m[room_id].peers[a].info.is_host && m[room_id].peers[b].info.is_host ==> a == b,
{
    let r = room_for_join(m, room_id, peer_id);
    assert(host_marked_right(r));
    let j = rooms_after_join(m, room_id, peer_id, name, tx);
    assert forall|k: Seq<char>| #[trigger] j.dom().contains(k) implies host_marked_right(j[k]) by {
        if k == room_id {
            match join_step(r, peer_id) {
                JoinStep::Admit => {
                    let r2 = room_after_join(r, peer_id, name, tx);
                    assert forall|q: Seq<char>| #[trigger] r2.peers.dom().contains(q) && r2.peers[q].info.is_host
                        implies q == r2.host by {
                        if q != peer_id {
                            assert(r.peers.dom().contains(q) && r.peers[q].info.is_host);
                            if r.peers.len() == 0 {
                                assert(r.peers.dom().finite());
                                vstd::set_lib::lemma_set_empty_equivalency_len(r.peers.dom());
                                assert(r.peers.dom().contains(q));
                            }
                        }
                    }
                },
                _ => {},
            }
        }
    }
    let a = rooms_after_approve(m, room_id, peer_id);
    assert forall|k: Seq<char>| #[trigger] a.dom().contains(k) implies host_marked_right(a[k]) by {
        if k == room_id && can_approve(m, room_id, peer_id) {
            assert(!m[room_id].pending[peer_id].info.is_host);
        }
    }
    let rj = rooms_after_reject(m, room_id, peer_id);
    assert forall|k: Seq<char>| #[trigger] rj.dom().contains(k) implies host_marked_right(rj[k]) by {}
    let l = rooms_after_leave(m, room_id, peer_id);
    assert forall|k: Seq<char>| #[trigger] l.dom().contains(k) implies host_marked_right(l[k]) by {}
}

/// Leaving removes only the one who leaves: while anybody else takes part in
/// the room, the room stays, with the same host and exactly the participants
/// and waiting guests it had without the leaver; a room is dropped only once
/// nobody else takes part in it; other rooms are untouched.
pub proof fn law_leaving_keeps_the_others(
    m: Map<Seq<char>, RoomView>,
    room_id: Seq<char>,
    peer_id: Seq<char>,
)
    requires
        rooms_view_wf(m),
        m.dom().contains(room_id),
    ensures
        (exists|q: Seq<char>| q != peer_id && #[trigger] m[room_id].peers.dom().contains(q)) ==> {
            let after = rooms_after_leave(m, room_id, peer_id);
            &&& after.dom().contains(room_id)
            &&& after[room_id].peers == m[room_id].peers.remove(peer_id)
            &&& after[room_id].pending == m[room_id].pending.remove(peer_id)
            &&& after[room_id].host == m[room_id].host
        },
        !rooms_after_leave(m, room_id, peer_id).dom().contains(room_id) ==> forall|q: Seq<char>|
            #[trigger] m[room_id].peers.dom().contains(q) ==> q == peer_id,
        forall|k: Seq<char>| k != room_id && #[trigger] m.dom().contains(k) ==> rooms_after_leave(m, room_id, peer_id)[k]
            == m[k],
{
    let rest = room_without(m[room_id], peer_id).peers;
    assert(rest.dom().finite());
    if exists|q: Seq<char>| q != peer_id && #[trigger] m[room_id].peers.dom().contains(q) {
        let q = choose|q: Seq<char>| q != peer_id && #[trigger] m[room_id].peers.dom().contains(q);
        assert(rest.dom().contains(q));
        vstd::set_lib::lemma_set_empty_equivalency_len(rest.dom());
    }
    if !rooms_after_leave(m, room_id, peer_id).dom().contains(room_id) {
        assert forall|q: Seq<char>| #[trigger] m[room_id].peers.dom().contains(q) implies q == peer_id by {
            if q != peer_id {
                assert(rest.dom().contains(q));
                vstd::set_lib::lemma_set_empty_equivalency_len(rest.dom());
            }
        }
    }
}

} // verus!
