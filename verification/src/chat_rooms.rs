//! The chat rooms of the server and who is in each of them.

use vstd::prelude::*;
use crate::text::{str_eq, strings_view};
pub use crate::text::{is_first_index, first_index, lemma_first_index_exists};

verus! {

/// The room that every client enters first.
pub const DEFAULT_ROOM: &'static str = "Lobby";

/// A room: its name and the names of the clients in it.
#[derive(Debug)]
pub struct ChatRoom {
    pub name: String,
    pub in_room: Vec<String>,
}

/// All rooms of the server, in the order in which they were created.
#[derive(Debug)]
pub struct ChatRooms {
    pub rooms: Vec<ChatRoom>,
}

/// What a [`ChatRoom`] holds: its name and its members, in the order in which they entered.
pub struct RoomView {
    pub name: Seq<char>,
    pub members: Seq<Seq<char>>,
}

impl View for ChatRoom {
    type V = RoomView;

    open spec fn view(&self) -> RoomView {
        RoomView { name: self.name@, members: strings_view(self.in_room@) }
    }
}

impl View for ChatRooms {
    type V = Seq<RoomView>;

    open spec fn view(&self) -> Seq<RoomView> {
        self.rooms@.map_values(|r: ChatRoom| r@)
    }
}

/// The names of the rooms, in order.
pub open spec fn room_names(rooms: Seq<RoomView>) -> Seq<Seq<char>> {
    rooms.map_values(|r: RoomView| r.name)
}

/// No two rooms share a name, and nobody is twice in one room.
pub open spec fn rooms_wf(rooms: Seq<RoomView>) -> bool {
    &&& room_names(rooms).no_duplicates()
    &&& forall|i: int| 0 <= i < rooms.len() ==> (#[trigger] rooms[i]).members.no_duplicates()
}

/// `i` is the first room called `name`.
pub open spec fn is_first_named(rooms: Seq<RoomView>, name: Seq<char>, i: int) -> bool {
    &&& 0 <= i < rooms.len()
    &&& rooms[i].name == name
    &&& forall|j: int| 0 <= j < i ==> rooms[j].name != name
}

/// The position of the room called `name`, if there is one.
pub open spec fn room_index(rooms: Seq<RoomView>, name: Seq<char>) -> Option<int> {
    if exists|i: int| is_first_named(rooms, name, i) {
        Some(choose|i: int| is_first_named(rooms, name, i))
    } else {
        None
    }
}

/// `i` is the first room that has `client` among its members.
pub open spec fn is_first_holding(rooms: Seq<RoomView>, client: Seq<char>, i: int) -> bool {
    &&& 0 <= i < rooms.len()
    &&& rooms[i].members.contains(client)
    &&& forall|j: int| 0 <= j < i ==> !rooms[j].members.contains(client)
}

/// The position of the room that `client` is in, if it is in one.
pub open spec fn current_room(rooms: Seq<RoomView>, client: Seq<char>) -> Option<int> {
    if exists|i: int| is_first_holding(rooms, client, i) {
        Some(choose|i: int| is_first_holding(rooms, client, i))
    } else {
        None
    }
}

/// `client` is a member of the room called `room`.
pub open spec fn in_room(rooms: Seq<RoomView>, client: Seq<char>, room: Seq<char>) -> bool {
    match room_index(rooms, room) {
        Some(i) => rooms[i].members.contains(client),
        None => false,
    }
}

/// The rooms after `client` enters the room called `room`; `None` where the
/// room does not exist or `client` is in it already.
pub open spec fn after_insert(rooms: Seq<RoomView>, client: Seq<char>, room: Seq<char>) -> Option<
    Seq<RoomView>,
> {
    match room_index(rooms, room) {
        Some(i) => if rooms[i].members.contains(client) {
            None
        } else {
            Some(
                rooms.update(
                    i,
                    RoomView { name: rooms[i].name, members: rooms[i].members.push(client) },
                ),
            )
        },
        None => None,
    }
}

/// The rooms after a room called `name` is created; `None` where one exists already.
pub open spec fn after_create(rooms: Seq<RoomView>, name: Seq<char>) -> Option<Seq<RoomView>> {
    match room_index(rooms, name) {
        Some(_) => None,
        None => Some(rooms.push(RoomView { name, members: Seq::empty() })),
    }
}

/// The rooms after `client` leaves the room it is in: the first of its
/// entries in that room is gone.
pub open spec fn after_remove(rooms: Seq<RoomView>, client: Seq<char>) -> Seq<RoomView> {
    match current_room(rooms, client) {
        Some(i) => rooms.update(
            i,
            RoomView {
                name: rooms[i].name,
                members: rooms[i].members.remove(first_index(rooms[i].members, client)),
            },
        ),
        None => rooms,
    }
}

/// Any name but `client`.
pub open spec fn other_than(client: Seq<char>) -> spec_fn(Seq<char>) -> bool {
    |n: Seq<char>| n != client
}

/// The other members of the room that `client` is in.
pub open spec fn participants(rooms: Seq<RoomView>, client: Seq<char>) -> Seq<Seq<char>> {
    match current_room(rooms, client) {
        Some(i) => rooms[i].members.filter(other_than(client)),
        None => Seq::empty(),
    }
}

impl ChatRooms {
    /// Well-formed: no two rooms share a name and nobody is twice in one room.
    pub open spec fn wf(&self) -> bool {
        rooms_wf(self@)
    }

    /// The rooms with nobody in them but the default room.
    pub fn new() -> (chat_rooms: ChatRooms)
        ensures
            chat_rooms@ == seq![RoomView { name: DEFAULT_ROOM@, members: Seq::empty() }],
            chat_rooms.wf(),
    {
        let mut new_room = ChatRooms { rooms: Vec::new() };
        let room = ChatRoom { name: DEFAULT_ROOM.to_owned(), in_room: Vec::new() };
        new_room.rooms.push(room);
        proof {
            assert(strings_view(new_room.rooms@[0].in_room@) =~= Seq::<Seq<char>>::empty());
            assert(new_room@ =~= seq![RoomView { name: DEFAULT_ROOM@, members: Seq::empty() }]);
            assert(room_names(new_room@) =~= seq![DEFAULT_ROOM@]);
        }
        new_room
    }

    /// Where the room called `room_name` stands, if there is one.
    fn find_room(&self, room_name: &str) -> (index: Option<usize>)
        ensures
            match room_index(self@, room_name@) {
                Some(i) => index is Some && index->0 == i,
                None => index is None,
            },
    {
        let mut i: usize = 0;
        while i < self.rooms.len()
            invariant
                i <= self.rooms@.len(),
                forall|j: int| 0 <= j < i ==> self@[j].name != room_name@,
            decreases self.rooms@.len() - i,
        {
            if str_eq(self.rooms[i].name.as_str(), room_name) {
                assert(is_first_named(self@, room_name@, i as int));
                return Some(i);
            }
            i = i + 1;
        }
        None
    }

    /// Where the room that `client_name` is in stands, if it is in one.
    fn find_client(&self, client_name: &str) -> (index: Option<usize>)
        ensures
            match current_room(self@, client_name@) {
                Some(i) => index is Some && index->0 == i,
                None => index is None,
            },
    {
        let mut i: usize = 0;
        while i < self.rooms.len()
            invariant
                i <= self.rooms@.len(),
                forall|j: int| 0 <= j < i ==> !self@[j].members.contains(client_name@),
            decreases self.rooms@.len() - i,
        {
            if member_position(&self.rooms[i].in_room, client_name).is_some() {
                assert(is_first_holding(self@, client_name@, i as int));
                return Some(i);
            }
            i = i + 1;
        }
        None
    }

    /// The room called `room_name`, to change it.
    pub fn get_room_mut(&mut self, room_name: &str) -> (room: Option<&mut ChatRoom>)
        ensures
            match room_index(old(self)@, room_name@) {
                Some(i) => room is Some && *room->0 == old(self).rooms@[i] && final(self).rooms@
                    == old(self).rooms@.update(i, *final(room->0)),
                None => room is None && *final(self) == *old(self),
            },
    {
        match self.find_room(room_name) {
            Some(i) => Some(&mut self.rooms[i]),
            None => None,
        }
    }

    /// The room called `room_name`.
    pub fn get_room(&self, room_name: &str) -> (room: Option<&ChatRoom>)
        ensures
            match room_index(self@, room_name@) {
                Some(i) => room is Some && *room->0 == self.rooms@[i],
                None => room is None,
            },
    {
        match self.find_room(room_name) {
            Some(i) => {
                proof {
                    let k = room_index(self@, room_name@)->0;
                    assert(is_first_named(self@, room_name@, k));
                    assert(k == i);
                }
                Some(&self.rooms[i])
            },
            None => None,
        }
    }

    /// Whether `client_name` is in the room called `room_name`.
    pub fn is_user_in_room(&self, client_name: &str, room_name: &str) -> (res: bool)
        ensures
            res == in_room(self@, client_name@, room_name@),
    {
        match self.get_room(room_name) {
            Some(room) => member_position(&room.in_room, client_name).is_some(),
            None => false,
        }
    }

    /// Puts `client_name` into the room called `room_name`. Fails, and changes
    /// nothing, where that room does not exist or `client_name` is in it already.
    pub fn insert_client_into_room(&mut self, client_name: &str, room_name: &str) -> (res: Result<(), ()>)
        ensures
            match after_insert(old(self)@, client_name@, room_name@) {
                Some(rooms) => res is Ok && final(self)@ == rooms,
                None => res is Err && final(self)@ == old(self)@,
            },
            old(self).wf() ==> final(self).wf(),
    {
        if self.is_user_in_room(client_name, room_name) {
            return Err(());
        }
        match self.find_room(room_name) {
            Some(i) => {
                let ghost before = self@;
                let entry = client_name.to_owned();
                self.rooms[i].in_room.push(entry);
                proof {
                    let r = before[i as int];
                    assert(strings_view(self.rooms@[i as int].in_room@) =~= r.members.push(client_name@));
                    assert(self@ =~= before.update(i as int, RoomView { name: r.name, members: r.members.push(client_name@) }));
                    lemma_insert_keeps_wf(before, client_name@, room_name@);
                }
                Ok(())
            },
            None => Err(()),
        }
    }

    /// Creates an empty room called `room_name`. Fails, and changes nothing,
    /// where a room of that name exists already.
    pub fn create_room(&mut self, room_name: &str) -> (res: Result<(), ()>)
        ensures
            match after_create(old(self)@, room_name@) {
                Some(rooms) => res is Ok && final(self)@ == rooms,
                None => res is Err && final(self)@ == old(self)@,
            },
            old(self).wf() ==> final(self).wf(),
    {
        match self.get_room(room_name) {
            None => {
                let ghost before = self@;
                let room = ChatRoom { name: room_name.to_owned(), in_room: Vec::new() };
                self.rooms.push(room);
                proof {
                    assert(strings_view(self.rooms@.last().in_room@) =~= Seq::<Seq<char>>::empty());
                    assert(self@ =~= before.push(RoomView { name: room_name@, members: Seq::empty() }));
                    lemma_create_keeps_wf(before, room_name@);
                }
                Ok(())
            },
            Some(_) => Err(()),
        }
    }

    /// Takes `client_name` out of the room it is in.
    pub fn remove_client_from_room(&mut self, client_name: &str) -> (res: Result<(), ()>)
        requires
            current_room(old(self)@, client_name@) is Some,
        ensures
            res is Ok,
            final(self)@ == after_remove(old(self)@, client_name@),
            old(self).wf() ==> final(self).wf(),
    {
        let i = self.find_client(client_name).unwrap();
        let k = member_position(&self.rooms[i].in_room, client_name).unwrap();
        let ghost before = self@;
        let _gone = self.rooms[i].in_room.remove(k);
        proof {
            let r = before[i as int];
            assert(first_index(r.members, client_name@) == k) by {
                assert(is_first_index(r.members, client_name@, k as int));
            }
            assert(strings_view(self.rooms@[i as int].in_room@) =~= r.members.remove(k as int));
            assert(self@ =~= before.update(i as int, RoomView { name: r.name, members: r.members.remove(k as int) }));
            lemma_remove_keeps_wf(before, client_name@);
        }
        Ok(())
    }

    /// The name of the room that `client_name` is in; fails where it is in none.
    pub fn get_current_room_name(&self, client_name: &str) -> (res: Result<String, ()>)
        ensures
            match current_room(self@, client_name@) {
                Some(i) => res is Ok && res->Ok_0@ == self@[i].name,
                None => res is Err,
            },
    {
        match self.find_client(client_name) {
            Some(i) => Ok(self.rooms[i].name.clone()),
            None => Err(()),
        }
    }

    /// The other members of the room that `client_name` is in, in the order in
    /// which they entered it.
    pub fn clients_room_pariticipants(&self, client_name: &str) -> (names: Vec<String>)
        requires
            current_room(self@, client_name@) is Some,
        ensures
            strings_view(names@) == participants(self@, client_name@),
    {
        let i = self.find_client(client_name).unwrap();
        let members = &self.rooms[i].in_room;
        let ghost all = strings_view(members@);
        let ghost keep = other_than(client_name@);
        let mut names: Vec<String> = Vec::new();
        let mut k: usize = 0;
        assert(all.take(0).filter(keep) =~= Seq::<Seq<char>>::empty());
        while k < members.len()
            invariant
                k <= members@.len(),
                all == strings_view(members@),
                keep == other_than(client_name@),
                strings_view(names@) == all.take(k as int).filter(keep),
            decreases members@.len() - k,
        {
            let ghost prev = strings_view(names@);
            if !str_eq(members[k].as_str(), client_name) {
                names.push(members[k].clone());
            }
            proof {
                all.take(k as int).lemma_filter_push(all[k as int], keep);
                assert(all.take(k + 1) =~= all.take(k as int).push(all[k as int]));
                if keep(all[k as int]) {
                    assert(strings_view(names@) =~= prev.push(all[k as int]));
                } else {
                    assert(strings_view(names@) =~= prev);
                }
            }
            k = k + 1;
        }
        assert(all.take(members@.len() as int) =~= all);
        names
    }

    /// The names of all rooms, in the order in which they were created.
    pub fn room_names(&self) -> (names: Vec<String>)
        ensures
            strings_view(names@) == room_names(self@),
    {
        let mut names: Vec<String> = Vec::new();
        let mut i: usize = 0;
        while i < self.rooms.len()
            invariant
                i <= self.rooms@.len(),
                strings_view(names@) =~= room_names(self@).take(i as int),
            decreases self.rooms@.len() - i,
        {
            let ghost prev = strings_view(names@);
            names.push(self.rooms[i].name.clone());
            proof {
                assert(strings_view(names@) =~= prev.push(self@[i as int].name));
                assert(room_names(self@).take(i + 1) =~= room_names(self@).take(i as int).push(
                    self@[i as int].name,
                ));
            }
            i = i + 1;
        }
        assert(room_names(self@).take(self@.len() as int) =~= room_names(self@));
        names
    }
}

/// A room called `name` at position `i` makes the first such room exist.
pub proof fn lemma_first_named_exists(rooms: Seq<RoomView>, name: Seq<char>, i: int)
    requires
        0 <= i < rooms.len(),
        rooms[i].name == name,
    ensures
        exists|k: int| is_first_named(rooms, name, k),
    decreases i,
{
    if exists|j: int| 0 <= j < i && rooms[j].name == name {
        let j = choose|j: int| 0 <= j < i && rooms[j].name == name;
        lemma_first_named_exists(rooms, name, j);
    } else {
        assert(is_first_named(rooms, name, i));
    }
}

/// A client in the room at position `i` makes the first room holding it exist.
pub proof fn lemma_first_holding_exists(rooms: Seq<RoomView>, client: Seq<char>, i: int)
    requires
        0 <= i < rooms.len(),
        rooms[i].members.contains(client),
    ensures
        exists|k: int| is_first_holding(rooms, client, k),
    decreases i,
{
    if exists|j: int| 0 <= j < i && rooms[j].members.contains(client) {
        let j = choose|j: int| 0 <= j < i && rooms[j].members.contains(client);
        lemma_first_holding_exists(rooms, client, j);
    } else {
        assert(is_first_holding(rooms, client, i));
    }
}

/// Entering a room keeps the rooms well-formed and their names as they were.
pub proof fn lemma_insert_keeps_wf(rooms: Seq<RoomView>, client: Seq<char>, room: Seq<char>)
    requires
        after_insert(rooms, client, room) is Some,
    ensures
        room_names(after_insert(rooms, client, room)->0) == room_names(rooms),
        rooms_wf(rooms) ==> rooms_wf(after_insert(rooms, client, room)->0),
{
    let i = room_index(rooms, room)->0;
    let after = after_insert(rooms, client, room)->0;
    assert(room_names(after) =~= room_names(rooms));
    if rooms_wf(rooms) {
        assert forall|j: int| 0 <= j < after.len() implies (#[trigger] after[j]).members.no_duplicates() by {
            if j == i {
                assert(rooms[j].members.no_duplicates());
            }
        }
    }
}

/// Leaving a room keeps the rooms well-formed and their names as they were.
pub proof fn lemma_remove_keeps_wf(rooms: Seq<RoomView>, client: Seq<char>)
    ensures
        room_names(after_remove(rooms, client)) == room_names(rooms),
        rooms_wf(rooms) ==> rooms_wf(after_remove(rooms, client)),
{
    let after = after_remove(rooms, client);
    assert(room_names(after) =~= room_names(rooms));
    if rooms_wf(rooms) && current_room(rooms, client) is Some {
        let i = current_room(rooms, client)->0;
        let k = first_index(rooms[i].members, client);
        lemma_first_index_exists(rooms[i].members, client);
        assert forall|j: int| 0 <= j < after.len() implies (#[trigger] after[j]).members.no_duplicates() by {
            if j == i {
                assert(rooms[j].members.no_duplicates());
                assert forall|a: int, b: int| 0 <= a < b < after[j].members.len() implies after[j].members[a] != after[j].members[b] by {
                    let ra = if a < k { a } else { a + 1 };
                    let rb = if b < k { b } else { b + 1 };
                    assert(after[j].members[a] == rooms[j].members[ra]);
                    assert(after[j].members[b] == rooms[j].members[rb]);
                }
            }
        }
    }
}

/// Creating a room keeps the rooms well-formed and adds its name at the end.
pub proof fn lemma_create_keeps_wf(rooms: Seq<RoomView>, name: Seq<char>)
    requires
        after_create(rooms, name) is Some,
    ensures
        room_names(after_create(rooms, name)->0) == room_names(rooms).push(name),
        rooms_wf(rooms) ==> rooms_wf(after_create(rooms, name)->0),
{
    let after = after_create(rooms, name)->0;
    assert(room_names(after) =~= room_names(rooms).push(name));
    assert forall|i: int| 0 <= i < rooms.len() implies rooms[i].name != name by {
        if rooms[i].name == name {
            lemma_first_named_exists(rooms, name, i);
        }
    }
    assert forall|i: int| 0 <= i < rooms.len() implies room_names(rooms)[i] != name by {
        assert(room_names(rooms)[i] == rooms[i].name);
    }
}

/// Rooms with the same names in the same order find each name at the same place.
pub proof fn lemma_same_names(a: Seq<RoomView>, b: Seq<RoomView>, name: Seq<char>)
    requires
        room_names(a) == room_names(b),
    ensures
        room_index(a, name) == room_index(b, name),
{
    assert(a.len() == room_names(a).len());
    assert(b.len() == room_names(b).len());
    assert forall|i: int| 0 <= i < a.len() implies a[i].name == b[i].name by {
        assert(room_names(a)[i] == room_names(b)[i]);
    }
    assert forall|i: int|
        is_first_named(a, name, i) <==> is_first_named(
            b,
            name,
            i,
        ) by {}
}

/// Where `name` stands among `names`, if it is there.
pub(crate) fn member_position(names: &Vec<String>, name: &str) -> (pos: Option<usize>)
    ensures
        match pos {
            Some(k) => k < names@.len() && is_first_index(strings_view(names@), name@, k as int),
            None => !strings_view(names@).contains(name@),
        },
{
    let ghost v = strings_view(names@);
    let mut k: usize = 0;
    while k < names.len()
        invariant
            k <= names@.len(),
            v == strings_view(names@),
            forall|j: int| 0 <= j < k ==> v[j] != name@,
        decreases names@.len() - k,
    {
        if str_eq(names[k].as_str(), name) {
            assert(v[k as int] == name@);
            return Some(k);
        }
        k = k + 1;
    }
    None
}

} // verus!
