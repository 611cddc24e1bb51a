//! Finding meeting rooms on the local network.
//!
//! A host answers UDP probes with a description of its room; a scan collects
//! the replies. The decisions of both sides stand here; the sockets are the
//! caller's.

use vstd::prelude::*;

use vstd::utf8::encode_utf8;

verus! {

pub const DISCOVERY_PORT: u16 = 45477;

/// What a host broadcasts about its room, and what a scan returns.
#[derive(Debug, Clone)]
pub struct DiscoveredRoom {
    pub room_id: String,
    pub host_name: String,
    pub host_ip: String,
    pub port: u16,
    pub participant_count: usize,
}

pub struct DiscoveredRoomView {
    pub room_id: Seq<char>,
    pub host_name: Seq<char>,
    pub host_ip: Seq<char>,
    pub port: u16,
    pub participant_count: usize,
}

impl View for DiscoveredRoom {
    type V = DiscoveredRoomView;

    open spec fn view(&self) -> DiscoveredRoomView {
        DiscoveredRoomView {
            room_id: self.room_id@,
            host_name: self.host_name@,
            host_ip: self.host_ip@,
            port: self.port,
            participant_count: self.participant_count,
        }
    }
}

pub open spec fn rooms_view(s: Seq<DiscoveredRoom>) -> Seq<DiscoveredRoomView> {
    s.map_values(|r: DiscoveredRoom| r@)
}

/// The bytes a scan broadcasts, and the only datagram a host answers.
pub open spec fn probe_bytes() -> Seq<u8> {
    encode_utf8("FOREST_CHAT_DISCOVER_V1"@)
}

/// Whether a datagram is a discovery probe.
pub fn is_probe(datagram: &[u8]) -> (r: bool)
    ensures
        r == (datagram@ == probe_bytes()),
{
    let probe = "FOREST_CHAT_DISCOVER_V1".as_bytes();
    if datagram.len() != probe.len() {
        return false;
    }
    let mut i: usize = 0;
    while i < datagram.len()
        invariant
            i <= datagram.len(),
            datagram.len() == probe.len(),
            probe@ == probe_bytes(),
            forall|j: int| 0 <= j < i ==> datagram@[j] == probe@[j],
        decreases datagram.len() - i,
    {
        if datagram[i] != probe[i] {
            return false;
        }
        i = i + 1;
    }
    assert(datagram@ =~= probe@);
    true
}

/// No two rooms of the list share a room id.
pub open spec fn room_ids_unique(s: Seq<DiscoveredRoomView>) -> bool {
    forall|i: int, j: int|
        0 <= i < s.len() && 0 <= j < s.len() && i != j ==> #[trigger] s[i].room_id
            != #[trigger] s[j].room_id
}

pub open spec fn lists_room(s: Seq<DiscoveredRoomView>, room_id: Seq<char>) -> bool {
    exists|i: int| 0 <= i < s.len() && #[trigger] s[i].room_id == room_id
}

/// The list after a reply describing `room` came from `from_ip`: the room, with
/// the address the reply came from, is added unless a room with its id is listed.
pub open spec fn after_reply(s: Seq<DiscoveredRoomView>, room: DiscoveredRoomView, from_ip: Seq<char>) -> Seq<
    DiscoveredRoomView,
> {
    if lists_room(s, room.room_id) {
        s
    } else {
        s.push(DiscoveredRoomView { host_ip: from_ip, ..room })
    }
}

/// Records a reply to a scan. The address the reply came from is trusted over
/// whatever the host reported, which may be a stale or badly detected one.
pub fn record_reply(rooms: &mut Vec<DiscoveredRoom>, room: DiscoveredRoom, from_ip: String)
    ensures
        rooms_view(final(rooms)@) == after_reply(rooms_view(old(rooms)@), room@, from_ip@),
{
    let mut i: usize = 0;
    while i < rooms.len()
        invariant
            i <= rooms.len(),
            forall|j: int| 0 <= j < i ==> #[trigger] rooms@[j].room_id@ != room.room_id@,
        decreases rooms.len() - i,
    {
        if rooms[i].room_id.eq(&room.room_id) {
            assert(rooms_view(rooms@)[i as int].room_id == room.room_id@);
            return;
        }
        i = i + 1;
    }
    proof {
        if lists_room(rooms_view(rooms@), room.room_id@) {
            let j = choose|j: int| 0 <= j < rooms@.len() && #[trigger] rooms_view(rooms@)[j].room_id == room.room_id@;
            assert(rooms@[j].room_id@ == room.room_id@);
        }
    }
    let ghost before = rooms_view(rooms@);
    let mut r = room;
    r.host_ip = from_ip;
    rooms.push(r);
    assert(rooms_view(rooms@) =~= before.push(r@));
}

/// A reply is recorded as the host reported it, with only its address
/// replaced by the one it came from: a room not yet listed is added at the
/// end with the same id, host name, port and participant count; a listed room
/// keeps its first entry, and nothing else changes.
pub proof fn law_reply_keeps_what_the_host_reported(
    s: Seq<DiscoveredRoomView>,
    room: DiscoveredRoomView,
    from_ip: Seq<char>,
)
    ensures
        lists_room(s, room.room_id) ==> after_reply(s, room, from_ip) == s,
        !lists_room(s, room.room_id) ==> {
            let r = after_reply(s, room, from_ip);
            &&& r.len() == s.len() + 1
            &&& r.take(s.len() as int) == s
            &&& r.last().room_id == room.room_id
            &&& r.last().host_name == room.host_name
            &&& r.last().port == room.port
            &&& r.last().participant_count == room.participant_count
            &&& r.last().host_ip == from_ip
        },
{
    if !lists_room(s, room.room_id) {
        let r = after_reply(s, room, from_ip);
        assert(r.take(s.len() as int) =~= s);
    }
}

/// A scan never lists the same room twice: recording a reply keeps room ids unique.
pub proof fn law_scan_lists_each_room_once(
    s: Seq<DiscoveredRoomView>,
    room: DiscoveredRoomView,
    from_ip: Seq<char>,
)
    requires
        room_ids_unique(s),
    ensures
        room_ids_unique(after_reply(s, room, from_ip)),
        lists_room(after_reply(s, room, from_ip), room.room_id),
{
    let t = after_reply(s, room, from_ip);
    if !lists_room(s, room.room_id) {
        assert forall|i: int, j: int|
            0 <= i < t.len() && 0 <= j < t.len() && i != j implies #[trigger] t[i].room_id
            != #[trigger] t[j].room_id by {
            if i < s.len() && j < s.len() {
                assert(t[i] == s[i] && t[j] == s[j]);
            } else if i < s.len() {
                assert(t[i] == s[i]);
            } else {
                assert(t[j] == s[j]);
            }
        }
        assert(t[s.len() as int].room_id == room.room_id);
    }
}

} // verus!
