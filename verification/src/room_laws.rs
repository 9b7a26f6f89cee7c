//! What the room operations promise together.

use vstd::prelude::*;
use crate::chat_rooms::{
    RoomView, room_names, room_index, is_first_named, current_room, is_first_holding, in_room,
    after_insert, after_create, after_remove, participants, other_than, rooms_wf, is_first_index, first_index,
    lemma_first_named_exists, lemma_first_holding_exists, lemma_same_names,
};

verus! {

/// A client that entered a room is in it afterwards.
pub proof fn law_insert_then_in_room(rooms: Seq<RoomView>, client: Seq<char>, room: Seq<char>)
    requires
        after_insert(rooms, client, room) is Some,
    ensures
        in_room(after_insert(rooms, client, room)->0, client, room),
{
    let i = room_index(rooms, room)->0;
    let after = after_insert(rooms, client, room)->0;
    assert(room_names(after) =~= room_names(rooms));
    lemma_same_names(rooms, after, room);
    assert(after[i].members.last() == client);
}

/// A client can enter a room only where the room exists and it is not in it yet.
pub proof fn law_insert_refused(rooms: Seq<RoomView>, client: Seq<char>, room: Seq<char>)
    ensures
        after_insert(rooms, client, room) is None <==> (room_index(rooms, room) is None
            || in_room(rooms, client, room)),
{
}

/// A client that was in no room, entered one and then left finds the rooms as
/// they were.
pub proof fn law_leave_undoes_insert(rooms: Seq<RoomView>, client: Seq<char>, room: Seq<char>)
    requires
        rooms_wf(rooms),
        current_room(rooms, client) is None,
        after_insert(rooms, client, room) is Some,
    ensures
        after_remove(after_insert(rooms, client, room)->0, client) == rooms,
{
    let i = room_index(rooms, room)->0;
    let after = after_insert(rooms, client, room)->0;
    let members = rooms[i].members;
    assert forall|j: int| 0 <= j < rooms.len() implies !rooms[j].members.contains(client) by {
        if rooms[j].members.contains(client) {
            lemma_first_holding_exists(rooms, client, j);
        }
    }
    assert(is_first_holding(after, client, i)) by {
        assert(after[i].members[members.len() as int] == client);
    }
    assert(current_room(after, client) == Some(i));
    assert(is_first_index(after[i].members, client, members.len() as int));
    assert(first_index(after[i].members, client) == members.len());
    assert(after[i].members.remove(members.len() as int) =~= members);
    assert(after_remove(after, client) =~= rooms);
}

/// A room that was just created exists, at the end, with nobody in it, and a
/// second room of that name is refused.
pub proof fn law_create_then_exists(rooms: Seq<RoomView>, name: Seq<char>)
    requires
        after_create(rooms, name) is Some,
    ensures
        room_index(after_create(rooms, name)->0, name) == Some(rooms.len() as int),
        after_create(rooms, name)->0[rooms.len() as int].members.len() == 0,
        after_create(after_create(rooms, name)->0, name) is None,
{
    let after = after_create(rooms, name)->0;
    assert forall|j: int| 0 <= j < rooms.len() implies rooms[j].name != name by {
        if rooms[j].name == name {
            lemma_first_named_exists(rooms, name, j);
        }
    }
    assert(is_first_named(after, name, rooms.len() as int));
}

/// The other members of a client's room are exactly the members of that room
/// other than the client.
pub proof fn law_participants_are_roommates(rooms: Seq<RoomView>, client: Seq<char>, other: Seq<char>)
    requires
        current_room(rooms, client) is Some,
    ensures
        participants(rooms, client).contains(other) <==> (other != client
            && rooms[current_room(rooms, client)->0].members.contains(other)),
{
    let i = current_room(rooms, client)->0;
    let keep = other_than(client);
    let members = rooms[i].members;
    if members.contains(other) && other != client {
        let k = choose|k: int| 0 <= k < members.len() && members[k] == other;
        members.lemma_filter_contains(keep, k);
    }
    if members.filter(keep).contains(other) {
        members.lemma_filter_contains_rev(keep, other);
        let k = choose|k: int| 0 <= k < members.filter(keep).len() && members.filter(keep)[k] == other;
        members.lemma_filter_pred(keep, k);
    }
}

/// The room a client is in is a room that has it as a member, and no room
/// before it does; a client is in no room exactly when no room has it.
pub proof fn law_current_room_holds_the_client(rooms: Seq<RoomView>, client: Seq<char>)
    ensures
        current_room(rooms, client) matches Some(i) ==> (0 <= i < rooms.len()
            && rooms[i].members.contains(client) && forall|j: int|
            0 <= j < i ==> !(#[trigger] rooms[j]).members.contains(client)),
        current_room(rooms, client) is None <==> forall|j: int|
            0 <= j < rooms.len() ==> !(#[trigger] rooms[j]).members.contains(client),
{
    if current_room(rooms, client) is None {
        assert forall|j: int| 0 <= j < rooms.len() implies !(#[trigger] rooms[j]).members.contains(
            client,
        ) by {
            if rooms[j].members.contains(client) {
                lemma_first_holding_exists(rooms, client, j);
            }
        }
    } else {
        let i = current_room(rooms, client)->0;
        assert(is_first_holding(rooms, client, i));
    }
}

/// Where no two rooms share a name, a client is in the room called `room`
/// exactly when some room of that name has it as a member.
pub proof fn law_in_room_means_member(rooms: Seq<RoomView>, client: Seq<char>, room: Seq<char>)
    requires
        rooms_wf(rooms),
    ensures
        in_room(rooms, client, room) <==> exists|i: int|
            0 <= i < rooms.len() && rooms[i].name == room && #[trigger] rooms[i].members.contains(
                client,
            ),
{
    if exists|i: int|
        0 <= i < rooms.len() && rooms[i].name == room && #[trigger] rooms[i].members.contains(client) {
        let i = choose|i: int|
            0 <= i < rooms.len() && rooms[i].name == room && #[trigger] rooms[i].members.contains(
                client,
            );
        lemma_first_named_exists(rooms, room, i);
        let k = room_index(rooms, room)->0;
        assert(is_first_named(rooms, room, k));
        if k != i {
            assert(room_names(rooms)[k] == room_names(rooms)[i]);
        }
    }
    if room_index(rooms, room) is Some {
        let k = room_index(rooms, room)->0;
        assert(is_first_named(rooms, room, k));
    }
}

/// Creating a room succeeds exactly when no room has that name, and then adds
/// an empty room of that name at the end and changes nothing else.
pub proof fn law_create_only_new_names(rooms: Seq<RoomView>, name: Seq<char>)
    ensures
        after_create(rooms, name) is Some <==> !room_names(rooms).contains(name),
        after_create(rooms, name) matches Some(r) ==> (r.len() == rooms.len() + 1 && r.take(
            rooms.len() as int,
        ) == rooms && r[rooms.len() as int].name == name && r[rooms.len() as int].members.len() == 0),
{
    if room_names(rooms).contains(name) {
        let i = choose|i: int| 0 <= i < room_names(rooms).len() && room_names(rooms)[i] == name;
        assert(rooms[i].name == name);
        lemma_first_named_exists(rooms, name, i);
    }
    if room_index(rooms, name) is Some {
        let k = room_index(rooms, name)->0;
        assert(is_first_named(rooms, name, k));
        assert(room_names(rooms)[k] == name);
    }
    if after_create(rooms, name) is Some {
        let r = after_create(rooms, name)->0;
        assert(r.take(rooms.len() as int) =~= rooms);
    }
}

} // verus!
