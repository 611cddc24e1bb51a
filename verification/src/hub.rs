//! Who is online and who is in which room, for routing live traffic.
//!
//! The hub decides who a frame goes to; the connections themselves are held
//! by the caller, keyed by user name.

use vstd::prelude::*;

use crate::keyed::{
    find_key, key_map, keys_unique, lemma_find_key, lemma_key_map, lemma_key_map_pointwise,
    lemma_key_map_push, lemma_key_map_update, Keyed,
};
use crate::names::{names_view, sorted_names, NameSet};

verus! {

broadcast use vstd::seq_lib::group_seq_properties;

/// A room and its online members.
pub struct HubRoom {
    name: String,
    members: NameSet,
}

impl View for HubRoom {
    type V = Set<Seq<char>>;

    closed spec fn view(&self) -> Set<Seq<char>> {
        self.members@
    }
}

impl Keyed for HubRoom {
    closed spec fn key_view(&self) -> Seq<char> {
        self.name@
    }

    fn key(&self) -> (k: &String) {
        &self.name
    }
}

/// The hub as plain values: the online users, and each room's online members.
pub struct HubView {
    pub users: Set<Seq<char>>,
    pub rooms: Map<Seq<char>, Set<Seq<char>>>,
}

/// In-memory routing state: who is online and who is in which room.
pub struct Hub {
    users: NameSet,
    rooms: Vec<HubRoom>,
}

impl View for Hub {
    type V = HubView;

    closed spec fn view(&self) -> HubView {
        HubView { users: self.users@, rooms: key_map(self.rooms@) }
    }
}

/// The members of `room`, or nobody where there is no such room.
pub open spec fn members_of(h: HubView, room: Seq<char>) -> Set<Seq<char>> {
    if h.rooms.dom().contains(room) {
        h.rooms[room]
    } else {
        Set::empty()
    }
}

/// Who a frame for `room` reaches: its online members, but `except`.
pub open spec fn room_recipients(h: HubView, room: Seq<char>, except: Option<Seq<char>>) -> Set<
    Seq<char>,
> {
    members_of(h, room).filter(|m: Seq<char>| h.users.contains(m) && except != Some(m))
}

/// The hub after `name` came online.
pub open spec fn after_connect(h: HubView, name: Seq<char>) -> HubView {
    HubView { users: h.users.insert(name), ..h }
}

/// The hub after `name` went offline: out of the online users and every room.
pub open spec fn after_disconnect(h: HubView, name: Seq<char>) -> HubView {
    HubView {
        users: h.users.remove(name),
        rooms: h.rooms.map_values(|m: Set<Seq<char>>| m.remove(name)),
    }
}

/// The hub after `name` joined `room`, which exists from then on.
pub open spec fn after_join(h: HubView, room: Seq<char>, name: Seq<char>) -> HubView {
    HubView { rooms: h.rooms.insert(room, members_of(h, room).insert(name)), ..h }
}

/// The hub after `name` left `room`.
pub open spec fn after_leave(h: HubView, room: Seq<char>, name: Seq<char>) -> HubView {
    if h.rooms.dom().contains(room) {
        HubView { rooms: h.rooms.insert(room, h.rooms[room].remove(name)), ..h }
    } else {
        h
    }
}

impl Hub {
    pub closed spec fn wf(&self) -> bool {
        &&& self.users.wf()
        &&& keys_unique(self.rooms@)
        &&& forall|i: int| 0 <= i < self.rooms@.len() ==> (#[trigger] self.rooms@[i]).members.wf()
    }

    /// Puts back at `i` a room taken out from there, its name unchanged.
    fn put_room_back(&mut self, i: usize, room: HubRoom, Ghost(before): Ghost<Seq<HubRoom>>)
        requires
            old(self).rooms@ == before.remove(i as int),
            i < before.len(),
            keys_unique(before),
            forall|j: int| 0 <= j < before.len() ==> (#[trigger] before[j]).members.wf(),
            room.members.wf(),
            room.name@ == before[i as int].name@,
            old(self).users.wf(),
        ensures
            final(self).wf(),
            final(self)@ == (HubView { users: old(self)@.users, rooms: key_map(before).insert(room.name@, room@) }),
    {
        let ghost r = room;
        self.rooms.insert(i, room);
        proof {
            assert(self.rooms@ =~= before.update(i as int, r));
            lemma_key_map_update(before, i as int, r);
        }
    }

    /// A hub with nobody online, knowing the given rooms.
    pub fn with_rooms(rooms: Vec<String>) -> (hub: Self)
        ensures
            hub.wf(),
            hub@.users == Set::<Seq<char>>::empty(),
            hub@.rooms == Map::new(
                |k: Seq<char>| names_view(rooms@).contains(k),
                |k: Seq<char>| Set::<Seq<char>>::empty(),
            ),
    {
        let mut hub = Hub { users: NameSet::new(), rooms: Vec::new() };
        assert(key_map(hub.rooms@) =~= Map::empty());
        let mut i: usize = 0;
        while i < rooms.len()
            invariant
                i <= rooms.len(),
                hub.wf(),
                hub@.users == Set::<Seq<char>>::empty(),
                hub@.rooms == Map::new(
                    |k: Seq<char>| names_view(rooms@).take(i as int).contains(k),
                    |k: Seq<char>| Set::<Seq<char>>::empty(),
                ),
            decreases rooms.len() - i,
        {
            hub.add_room(rooms[i].as_str());
            assert(names_view(rooms@).take(i + 1) =~= names_view(rooms@).take(i as int).push(rooms@[i as int]@));
            assert(hub@.rooms =~= Map::new(
                |k: Seq<char>| names_view(rooms@).take(i + 1).contains(k),
                |k: Seq<char>| Set::<Seq<char>>::empty(),
            ));
            i = i + 1;
        }
        assert(names_view(rooms@).take(rooms.len() as int) =~= names_view(rooms@));
        hub
    }

    /// Registers a user. Returns `false` if the name is already online.
    pub fn connect(&mut self, name: &str) -> (r: bool)
        requires
            old(self).wf(),
        ensures
            final(self).wf(),
            r == !old(self)@.users.contains(name@),
            final(self)@ == after_connect(old(self)@, name@),
    {
        self.users.insert(name.to_owned())
    }

    /// Takes a user offline and out of every room.
    pub fn disconnect(&mut self, name: &str)
        requires
            old(self).wf(),
        ensures
            final(self).wf(),
            final(self)@ == after_disconnect(old(self)@, name@),
    {
        let n = name.to_owned();
        self.users.remove(&n);
        let ghost before = self.rooms@;
        let ghost users_after = self.users@;
        let mut i: usize = 0;
        while i < self.rooms.len()
            invariant
                i <= self.rooms.len(),
                self.rooms.len() == before.len(),
                self.users.wf(),
                self.users@ == users_after,
                forall|j: int| 0 <= j < i ==> (#[trigger] self.rooms@[j]).name@ == before[j].name@
                    && self.rooms@[j]@ == before[j]@.remove(n@) && self.rooms@[j].members.wf(),
                forall|j: int| i <= j < self.rooms.len() ==> #[trigger] self.rooms@[j] == before[j],
                forall|j: int| 0 <= j < before.len() ==> (#[trigger] before[j]).members.wf(),
            decreases self.rooms.len() - i,
        {
            let ghost cur = self.rooms@;
            let mut r = self.rooms.remove(i);
            r.members.remove(&n);
            self.rooms.insert(i, r);
            proof {
                assert forall|j: int| 0 <= j < self.rooms.len() && j != i implies #[trigger] self.rooms@[j] == cur[j] by {}
            }
            i = i + 1;
        }
        proof {
            let f = |m: Set<Seq<char>>| m.remove(n@);
            assert forall|j: int| 0 <= j < before.len() implies #[trigger] self.rooms@[j].key_view() == before[j].key_view() && self.rooms@[j]@ == f(before[j]@) by {}
            lemma_key_map_pointwise(before, self.rooms@, f);
            assert(key_map(self.rooms@) =~= key_map(before).map_values(|m: Set<Seq<char>>| m.remove(name@)));
            assert forall|j: int| 0 <= j < self.rooms@.len() implies (#[trigger] self.rooms@[j]).members.wf() by {}
        }
    }

    /// The online users, in code-point order.
    pub fn online(&self) -> (r: Vec<String>)
        requires
            self.wf(),
        ensures
            sorted_names(names_view(r@)),
            names_view(r@).to_set() == self@.users,
    {
        self.users.sorted()
    }

    /// The known rooms, in code-point order.
    pub fn rooms(&self) -> (r: Vec<String>)
        requires
            self.wf(),
        ensures
            sorted_names(names_view(r@)),
            names_view(r@).to_set() == self@.rooms.dom(),
    {
        let mut set = NameSet::new();
        let mut i: usize = 0;
        proof {
            lemma_key_map(self.rooms@);
        }
        while i < self.rooms.len()
            invariant
                i <= self.rooms.len(),
                set.wf(),
                set@ == Set::new(|k: Seq<char>| exists|j: int| 0 <= j < i && #[trigger] self.rooms@[j].key_view() == k),
            decreases self.rooms.len() - i,
        {
            let ghost before = set@;
            set.insert(self.rooms[i].name.clone());
            proof {
                let target = Set::new(|k: Seq<char>| exists|j: int| 0 <= j < i + 1 && #[trigger] self.rooms@[j].key_view() == k);
                assert forall|k: Seq<char>| set@.contains(k) <==> target.contains(k) by {
                    if k == self.rooms@[i as int].key_view() {
                        assert(target.contains(k));
                    } else if before.contains(k) {
                        let j = choose|j: int| 0 <= j < i && #[trigger] self.rooms@[j].key_view() == k;
                        assert(target.contains(k));
                    }
                    if target.contains(k) {
                        let j = choose|j: int| 0 <= j < i + 1 && #[trigger] self.rooms@[j].key_view() == k;
                        if j < i {
                            assert(before.contains(k));
                        }
                    }
                }
                assert(set@ =~= target);
            }
            i = i + 1;
        }
        assert(set@ =~= self@.rooms.dom());
        set.sorted()
    }

    /// Adds `name` to `room`, creating the room if needed. Returns `true` if it was created.
    pub fn join(&mut self, room: &str, name: &str) -> (created: bool)
        requires
            old(self).wf(),
        ensures
            final(self).wf(),
            created == !old(self)@.rooms.dom().contains(room@),
            final(self)@ == after_join(old(self)@, room@, name@),
    {
        let key = room.to_owned();
        let f = find_key(&self.rooms, &key);
        proof {
            lemma_find_key(self.rooms@, key@, f);
        }
        match f {
            Some(i) => {
                let ghost before = self.rooms@;
                let mut r = self.rooms.remove(i);
                assert(before[i as int].members.wf());
                r.members.insert(name.to_owned());
                self.put_room_back(i, r, Ghost(before));
                false
            },
            None => {
                let mut members = NameSet::new();
                members.insert(name.to_owned());
                let r = HubRoom { name: key, members };
                proof {
                    lemma_key_map_push(self.rooms@, r);
                }
                self.rooms.push(r);
                true
            },
        }
    }

    /// Takes `name` out of `room`.
    pub fn leave(&mut self, room: &str, name: &str)
        requires
            old(self).wf(),
        ensures
            final(self).wf(),
            final(self)@ == after_leave(old(self)@, room@, name@),
    {
        let key = room.to_owned();
        let f = find_key(&self.rooms, &key);
        proof {
            lemma_find_key(self.rooms@, key@, f);
        }
        if let Some(i) = f {
            let ghost before = self.rooms@;
            let mut r = self.rooms.remove(i);
            assert(before[i as int].members.wf());
            r.members.remove(&name.to_owned());
            self.put_room_back(i, r, Ghost(before));
        }
    }

    /// Whether the hub knows `room`.
    pub fn has_room(&self, room: &str) -> (r: bool)
        requires
            self.wf(),
        ensures
            r == self@.rooms.dom().contains(room@),
    {
        let key = room.to_owned();
        let f = find_key(&self.rooms, &key);
        proof {
            lemma_find_key(self.rooms@, key@, f);
        }
        f.is_some()
    }

    /// Whether `name` is an online member of `room`.
    pub fn is_member(&self, room: &str, name: &str) -> (r: bool)
        requires
            self.wf(),
        ensures
            r == members_of(self@, room@).contains(name@),
    {
        let key = room.to_owned();
        let f = find_key(&self.rooms, &key);
        proof {
            lemma_find_key(self.rooms@, key@, f);
        }
        match f {
            None => false,
            Some(i) => self.rooms[i].members.contains(&name.to_owned()),
        }
    }

    /// Makes `room` known, with no members, unless it already is.
    pub fn add_room(&mut self, room: &str)
        requires
            old(self).wf(),
        ensures
            final(self).wf(),
            final(self)@ == if old(self)@.rooms.dom().contains(room@) {
                old(self)@
            } else {
                HubView { rooms: old(self)@.rooms.insert(room@, Set::empty()), ..old(self)@ }
            },
    {
        let key = room.to_owned();
        let f = find_key(&self.rooms, &key);
        proof {
            lemma_find_key(self.rooms@, key@, f);
        }
        if f.is_none() {
            let r = HubRoom { name: key, members: NameSet::new() };
            proof {
                lemma_key_map_push(self.rooms@, r);
            }
            self.rooms.push(r);
        }
    }

    /// Whether a frame for `name` has a connection to go to: `false` if the user is offline.
    pub fn send_to_user(&self, name: &str) -> (r: bool)
        requires
            self.wf(),
        ensures
            r == self@.users.contains(name@),
    {
        self.users.contains(&name.to_owned())
    }

    /// The users a frame for `room` goes to: its online members, but `except`.
    pub fn send_to_room(&self, room: &str, except: Option<&str>) -> (r: Vec<String>)
        requires
            self.wf(),
        ensures
            sorted_names(names_view(r@)),
            names_view(r@).to_set() == room_recipients(
                self@,
                room@,
                match except {
                    Some(e) => Some(e@),
                    None => None,
                },
            ),
    {
        let ghost ex: Option<Seq<char>> = match except { Some(e) => Some(e@), None => None };
        let key = room.to_owned();
        let f = find_key(&self.rooms, &key);
        proof {
            lemma_find_key(self.rooms@, key@, f);
        }
        let mut out: Vec<String> = Vec::new();
        match f {
            None => {
                assert(room_recipients(self@, room@, ex) =~= Set::empty());
                assert(names_view(out@).to_set() =~= Set::empty());
            },
            Some(i) => {
                assert(self.rooms@[i as int].members.wf());
                let members = self.rooms[i].members.sorted();
                let except_name: Option<String> = match except { Some(e) => Some(e.to_owned()), None => None };
                let mut j: usize = 0;
                let ghost mut idx: Seq<int> = Seq::empty();
                let ghost ms = names_view(members@);
                while j < members.len()
                    invariant
                        j <= members.len(),
                        ms == names_view(members@),
                        sorted_names(ms),
                        idx.len() == out.len(),
                        forall|a: int| 0 <= a < idx.len() ==> 0 <= #[trigger] idx[a] < j && names_view(out@)[a] == ms[idx[a]],
                        forall|a: int, b: int| 0 <= a < b < idx.len() ==> #[trigger] idx[a] < #[trigger] idx[b],
                        forall|a: int| 0 <= a < out.len() ==> self@.users.contains(#[trigger] names_view(out@)[a]) && ex != Some(names_view(out@)[a]),
                        forall|b: int| 0 <= b < j && self@.users.contains(#[trigger] ms[b]) && ex != Some(ms[b]) ==> names_view(out@).contains(ms[b]),
                        match except_name { Some(e) => ex == Some(e@), None => ex is None },
                    decreases members.len() - j,
                {
                    let skip = match &except_name { Some(e) => members[j].eq(e), None => false };
                    let ghost out0 = names_view(out@);
                    if !skip && self.users.contains(&members[j]) {
                        out.push(members[j].clone());
                        proof {
                            idx = idx.push(j as int);
                            assert(names_view(out@) =~= out0.push(ms[j as int]));
                        }
                    }
                    proof {
                        assert forall|b: int| 0 <= b < j + 1 && self@.users.contains(#[trigger] ms[b]) && ex != Some(ms[b]) implies names_view(out@).contains(ms[b]) by {
                            if b < j {
                                let a = choose|a: int| 0 <= a < out0.len() && out0[a] == ms[b];
                                assert(names_view(out@)[a] == ms[b]);
                            } else {
                                assert(names_view(out@)[names_view(out@).len() - 1] == ms[b]);
                            }
                        }
                    }
                    j = j + 1;
                }
                assert(sorted_names(names_view(out@))) by {
                    assert forall|a: int, b: int| 0 <= a < b < out.len() implies crate::text::seq_lt(#[trigger] names_view(out@)[a], #[trigger] names_view(out@)[b]) by {
                        assert(idx[a] < idx[b]);
                    }
                }
                assert(names_view(out@).to_set() =~= room_recipients(self@, room@, ex)) by {
                    assert forall|x: Seq<char>| names_view(out@).to_set().contains(x) implies room_recipients(self@, room@, ex).contains(x) by {
                        let a = choose|a: int| 0 <= a < out.len() && names_view(out@)[a] == x;
                        assert(ms[idx[a]] == x);
                        assert(ms.to_set().contains(x));
                    }
                    assert forall|x: Seq<char>| room_recipients(self@, room@, ex).contains(x) implies names_view(out@).to_set().contains(x) by {
                        assert(ms.to_set().contains(x));
                        let b = choose|b: int| 0 <= b < members.len() && ms[b] == x;
                    }
                }
            },
        }
        out
    }

    /// The users among `users` that are online, in the given order.
    pub fn send_to_users(&self, users: &Vec<String>) -> (r: Vec<String>)
        requires
            self.wf(),
        ensures
            names_view(r@) == names_view(users@).filter(|u: Seq<char>| self@.users.contains(u)),
    {
        let mut out: Vec<String> = Vec::new();
        let mut i: usize = 0;
        while i < users.len()
            invariant
                i <= users.len(),
                names_view(out@) == names_view(users@).take(i as int).filter(|u: Seq<char>| self@.users.contains(u)),
            decreases users.len() - i,
        {
            proof {
                let p = |u: Seq<char>| self@.users.contains(u);
                assert(names_view(users@).take(i + 1).drop_last() =~= names_view(users@).take(i as int));
                reveal_with_fuel(Seq::filter, 1);
            }
            if self.users.contains(&users[i]) {
                out.push(users[i].clone());
            }
            assert(names_view(out@) =~= names_view(users@).take(i + 1).filter(|u: Seq<char>| self@.users.contains(u)));
            i = i + 1;
        }
        assert(names_view(users@).take(users.len() as int) =~= names_view(users@));
        out
    }

    /// Everybody online, where a broadcast goes.
    pub fn broadcast(&self) -> (r: Vec<String>)
        requires
            self.wf(),
        ensures
            sorted_names(names_view(r@)),
            names_view(r@).to_set() == self@.users,
    {
        self.users.sorted()
    }
}

/// A name is online at most once: after it connects, connecting it again is refused.
pub proof fn law_name_online_once(h: HubView, name: Seq<char>)
    ensures
        after_connect(h, name).users.contains(name),
{
}

/// Going offline takes a user out of the online list and out of every room,
/// and no room disappears.
pub proof fn law_disconnect_leaves_every_room(h: HubView, name: Seq<char>, room: Seq<char>)
    ensures
        !after_disconnect(h, name).users.contains(name),
        !members_of(after_disconnect(h, name), room).contains(name),
        after_disconnect(h, name).rooms.dom() == h.rooms.dom(),
{
    assert(after_disconnect(h, name).rooms.dom() =~= h.rooms.dom());
}

/// Joining makes a member of the room; leaving it again takes the member out.
pub proof fn law_join_then_leave(h: HubView, room: Seq<char>, name: Seq<char>)
    ensures
        members_of(after_join(h, room, name), room).contains(name),
        !members_of(after_leave(after_join(h, room, name), room, name), room).contains(name),
        after_leave(after_join(h, room, name), room, name).rooms.dom().contains(room),
{
}

/// A frame for a room reaches only online members, never the excluded one.
pub proof fn law_room_recipients(h: HubView, room: Seq<char>, except: Option<Seq<char>>, who: Seq<char>)
    ensures
        room_recipients(h, room, except).contains(who) ==> h.users.contains(who)
            && members_of(h, room).contains(who) && except != Some(who),
{
}

} // verus!
