//! What the server promises over whole runs of events.

use vstd::prelude::*;
use crate::chat_rooms::{
    DEFAULT_ROOM, room_names, room_index, current_room, after_insert, after_create, after_remove,
    participants, is_first_named, is_first_holding, lemma_create_keeps_wf, lemma_same_names,
    lemma_first_holding_exists,
};
use crate::manager::{
    ManagerView, OutgoingView, manager_inv, accepts, after_new_socket, after_msg, after_join,
    msg_replies, relayed, lemma_remove_takes_out, law_msg_keeps_inv,
};
use crate::protocol::{MsgView, MsgResponseView};
use crate::room_laws::law_participants_are_roommates;

verus! {

/// A chat line goes to exactly the other members of the sender's room, each
/// once, with the sender's name and the line as it was typed.
pub proof fn law_chat_line_reaches_roommates(
    m: ManagerView,
    client: Seq<char>,
    text: Seq<char>,
    other: Seq<char>,
)
    requires
        current_room(m.rooms, client) is Some,
    ensures
        msg_replies(m, client, MsgView::RequestTypedNewMessage(text)).contains(
            relayed(client, text)(other),
        ) <==> (other != client && m.rooms[current_room(m.rooms, client)->0].members.contains(
            other,
        )),
        forall|k: int|
            0 <= k < msg_replies(m, client, MsgView::RequestTypedNewMessage(text)).len()
                ==> (#[trigger] msg_replies(m, client, MsgView::RequestTypedNewMessage(text))[k]).msg
                == MsgView::ResponseTypedMessage(MsgResponseView { client_name: client, msg: text }),
{
    let p = participants(m.rooms, client);
    let f = relayed(client, text);
    let out = msg_replies(m, client, MsgView::RequestTypedNewMessage(text));
    law_participants_are_roommates(m.rooms, client, other);
    if out.contains(f(other)) {
        let k = choose|k: int| 0 <= k < out.len() && out[k] == f(other);
        assert(out[k] == f(p[k]));
        assert(p[k] == other);
        assert(p.contains(other));
    }
    if p.contains(other) {
        let k = choose|k: int| 0 <= k < p.len() && p[k] == other;
        assert(out[k] == f(other));
    }
}

/// The room list names every room, in the order in which they were created.
pub proof fn law_room_list_names_all_rooms(m: ManagerView, client: Seq<char>, flag: bool)
    ensures
        msg_replies(m, client, MsgView::RequestRoomList(flag)) == seq![
            OutgoingView { to: client, msg: MsgView::ResponseRoomList(room_names(m.rooms)) },
        ],
        after_msg(m, client, MsgView::RequestRoomList(flag)) == m,
{
}

/// A connected client that asks to move to a room is told whether the room
/// exists; where it does, the client is then in that room and in no other,
/// and otherwise nothing changes. No room appears or disappears.
pub proof fn law_join_answers_whether_room_exists(m: ManagerView, client: Seq<char>, name: Seq<char>)
    requires
        manager_inv(m),
        m.clients.contains(client),
    ensures
        msg_replies(m, client, MsgView::RequestJoinRoom(name)) == seq![
            OutgoingView {
                to: client,
                msg: MsgView::ResponseJoinRoom(room_index(m.rooms, name) is Some),
            },
        ],
        room_names(after_msg(m, client, MsgView::RequestJoinRoom(name)).rooms) == room_names(m.rooms),
        room_index(m.rooms, name) is Some ==> current_room(
            after_msg(m, client, MsgView::RequestJoinRoom(name)).rooms,
            client,
        ) == room_index(m.rooms, name),
        room_index(m.rooms, name) is None ==> after_msg(m, client, MsgView::RequestJoinRoom(name))
            == m,
{
    if room_index(m.rooms, name) is Some {
        let i = room_index(m.rooms, name)->0;
        lemma_remove_takes_out(m.rooms, client);
        let removed = after_remove(m.rooms, client);
        crate::chat_rooms::lemma_remove_keeps_wf(m.rooms, client);
        lemma_same_names(m.rooms, removed, name);
        assert(!removed[i].members.contains(client));
        let joined = after_insert(removed, client, name);
        assert(joined is Some);
        let j = joined->0;
        crate::chat_rooms::lemma_insert_keeps_wf(removed, client, name);
        assert(j[i].members.contains(client)) by {
            assert(j[i].members[j[i].members.len() - 1] == client);
        }
        assert(is_first_holding(j, client, i)) by {
            assert forall|k: int| 0 <= k < i implies !j[k].members.contains(client) by {
                assert(j[k] == removed[k]);
            }
        }
        assert(after_join(m.rooms, client, name) == j);
    }
}

/// Rooms are never taken away: every event keeps the rooms there were, in
/// their order, and adds new ones only at the end.
pub proof fn law_rooms_never_removed(m: ManagerView, client: Seq<char>, msg: MsgView, id: Seq<char>)
    requires
        manager_inv(m),
        accepts(m, client, msg),
    ensures
        room_names(m.rooms).is_prefix_of(room_names(after_msg(m, client, msg).rooms)),
        room_names(after_new_socket(m, id).rooms) == room_names(m.rooms),
{
    if current_room(m.rooms, id) is None && after_insert(m.rooms, id, DEFAULT_ROOM@) is Some {
        crate::chat_rooms::lemma_insert_keeps_wf(m.rooms, id, DEFAULT_ROOM@);
    }
    match msg {
        MsgView::LeaveCurrentRoom(_) => {
            crate::chat_rooms::lemma_remove_keeps_wf(m.rooms, client);
        },
        MsgView::RequestCreateRoom(name) => {
            if after_create(m.rooms, name) is Some {
                lemma_create_keeps_wf(m.rooms, name);
            }
        },
        MsgView::RequestJoinRoom(name) => {
            if room_index(m.rooms, name) is Some {
                crate::chat_rooms::lemma_remove_keeps_wf(m.rooms, client);
                let removed = after_remove(m.rooms, client);
                if after_insert(removed, client, name) is Some {
                    crate::chat_rooms::lemma_insert_keeps_wf(removed, client, name);
                }
            }
        },
        _ => {},
    }
}

/// A room that a connected client has just created can be joined, and then
/// the client is in it and in no other room.
pub proof fn law_create_then_join(m: ManagerView, client: Seq<char>, name: Seq<char>)
    requires
        manager_inv(m),
        m.clients.contains(client),
        room_index(m.rooms, name) is None,
    ensures
        ({
            let created = after_msg(m, client, MsgView::RequestCreateRoom(name));
            let joined = after_msg(created, client, MsgView::RequestJoinRoom(name));
            &&& msg_replies(m, client, MsgView::RequestCreateRoom(name)) == seq![
                OutgoingView { to: client, msg: MsgView::ResponseCreateRoom(true) },
            ]
            &&& msg_replies(created, client, MsgView::RequestJoinRoom(name)) == seq![
                OutgoingView { to: client, msg: MsgView::ResponseJoinRoom(true) },
            ]
            &&& current_room(joined.rooms, client) == Some(m.rooms.len() as int)
            &&& room_names(joined.rooms) == room_names(m.rooms).push(name)
        }),
{
    let created = after_msg(m, client, MsgView::RequestCreateRoom(name));
    lemma_create_keeps_wf(m.rooms, name);
    let n = m.rooms.len() as int;
    assert(is_first_named(created.rooms, name, n)) by {
        assert forall|j: int| 0 <= j < n implies created.rooms[j].name != name by {
            if created.rooms[j].name == name {
                crate::chat_rooms::lemma_first_named_exists(m.rooms, name, j);
            }
        }
    }
    law_msg_keeps_inv(m, client, MsgView::RequestCreateRoom(name));
    law_join_answers_whether_room_exists(created, client, name);
}

/// Who may send what: any connected client may ask for the room list, create
/// a room or move to one, whatever room it is in; any client in some room,
/// whichever, may send a chat line or leave it; anything else is always taken.
pub proof fn law_who_may_ask(m: ManagerView, c: Seq<char>, msg: MsgView)
    ensures
        (msg is RequestRoomList || msg is RequestCreateRoom || msg is RequestJoinRoom) ==> (accepts(
            m,
            c,
            msg,
        ) <==> m.clients.contains(c)),
        (msg is RequestTypedNewMessage || msg is LeaveCurrentRoom) ==> (accepts(m, c, msg) <==> exists|
            i: int,
        |
            0 <= i < m.rooms.len() && #[trigger] m.rooms[i].members.contains(c)),
        !(msg is RequestRoomList || msg is RequestCreateRoom || msg is RequestJoinRoom
            || msg is RequestTypedNewMessage || msg is LeaveCurrentRoom) ==> accepts(m, c, msg),
{
    if exists|i: int| 0 <= i < m.rooms.len() && #[trigger] m.rooms[i].members.contains(c) {
        let i = choose|i: int| 0 <= i < m.rooms.len() && #[trigger] m.rooms[i].members.contains(c);
        lemma_first_holding_exists(m.rooms, c, i);
    }
    if current_room(m.rooms, c) is Some {
        let i = current_room(m.rooms, c)->0;
        assert(is_first_holding(m.rooms, c, i));
        assert(m.rooms[i].members.contains(c));
    }
}

} // verus!
