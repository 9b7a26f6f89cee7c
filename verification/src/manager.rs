//! The decisions of the server: how each event changes the rooms and the set
//! of connected clients, and which messages go out to whom.

use vstd::prelude::*;
use crate::chat_rooms::{
    ChatRooms, RoomView, DEFAULT_ROOM, room_names, room_index, current_room, after_insert,
    after_create, after_remove, participants, rooms_wf, member_position, lemma_insert_keeps_wf,
    lemma_remove_keeps_wf, lemma_create_keeps_wf, lemma_same_names, first_index,
    lemma_first_index_exists, lemma_first_holding_exists,
};
use crate::protocol::{
    MsgProtocol, MsgView, MsgResponse, MsgResponseView, NewClientResponse, NewClientResponseView,
};
use crate::text::strings_view;

verus! {

/// A message from a connected client, with the name it connected under.
#[derive(Debug)]
pub struct ProtocolWrapper {
    pub client_name: String,
    pub msg_protocol: MsgProtocol,
}

/// A message for the client connected under the name `to`.
#[derive(Debug)]
pub struct Outgoing {
    pub to: String,
    pub msg: MsgProtocol,
}

/// What an [`Outgoing`] holds.
pub struct OutgoingView {
    pub to: Seq<char>,
    pub msg: MsgView,
}

impl View for Outgoing {
    type V = OutgoingView;

    open spec fn view(&self) -> OutgoingView {
        OutgoingView { to: self.to@, msg: self.msg@ }
    }
}

/// What each of `out` holds.
pub open spec fn outgoing_view(out: Seq<Outgoing>) -> Seq<OutgoingView> {
    out.map_values(|o: Outgoing| o@)
}

/// The state of the server: its rooms and the names of the connected clients.
#[derive(Debug)]
pub struct ManagerInternal {
    pub chat_rooms: ChatRooms,
    pub clients: Vec<String>,
}

/// What a [`ManagerInternal`] holds.
pub struct ManagerView {
    pub rooms: Seq<RoomView>,
    pub clients: Seq<Seq<char>>,
}

impl View for ManagerInternal {
    type V = ManagerView;

    open spec fn view(&self) -> ManagerView {
        ManagerView { rooms: self.chat_rooms@, clients: strings_view(self.clients@) }
    }
}

/// What the server keeps true: well-formed rooms, each client connected once,
/// the default room present, only connected clients in rooms, and nobody in
/// two rooms at once.
pub open spec fn manager_inv(m: ManagerView) -> bool {
    &&& rooms_wf(m.rooms)
    &&& one_room_each(m.rooms)
    &&& m.clients.no_duplicates()
    &&& room_index(m.rooms, DEFAULT_ROOM@) is Some
    &&& forall|i: int, n: Seq<char>|
        0 <= i < m.rooms.len() && (#[trigger] m.rooms[i].members.contains(n)) ==> m.clients.contains(
            n,
        )
}

/// The state after a client connects under the name `id`: it is connected,
/// and, unless it is in a room already, it is in the default room.
///
/// A client that connects again while it is in a room stays where it is. The
/// server of old always tried to put a connecting client into the default
/// room, which refuses a client that is in it already; since the server
/// handled no move between rooms, a client in a room was always in the
/// default room, and the two rules agree on every state it could reach (see
/// [`law_new_socket_as_before_where_no_move`]). With moves between rooms, the
/// old rule would put a client that moved, and then connected again, in two
/// rooms at once, so this rule is kept on purpose.
pub open spec fn after_new_socket(m: ManagerView, id: Seq<char>) -> ManagerView {
    ManagerView {
        rooms: if current_room(m.rooms, id) is Some {
            m.rooms
        } else {
            match after_insert(m.rooms, id, DEFAULT_ROOM@) {
                Some(rooms) => rooms,
                None => m.rooms,
            }
        },
        clients: if m.clients.contains(id) {
            m.clients
        } else {
            m.clients.push(id)
        },
    }
}

/// The answer to a client that connected under the name `id`.
pub open spec fn new_socket_reply(id: Seq<char>) -> Seq<OutgoingView> {
    seq![
        OutgoingView {
            to: id,
            msg: MsgView::NewClientResponse(NewClientResponseView { id, response: true }),
        },
    ]
}

/// The server can handle `msg` from `client`: a chat line or a leave needs a
/// room to be in, and a request that is answered needs a connection.
pub open spec fn accepts(m: ManagerView, client: Seq<char>, msg: MsgView) -> bool {
    match msg {
        MsgView::RequestTypedNewMessage(_) => current_room(m.rooms, client) is Some,
        MsgView::LeaveCurrentRoom(_) => current_room(m.rooms, client) is Some,
        MsgView::RequestRoomList(_) => m.clients.contains(client),
        MsgView::RequestCreateRoom(_) => m.clients.contains(client),
        MsgView::RequestJoinRoom(_) => m.clients.contains(client),
        _ => true,
    }
}

/// The chat line `text` of `sender`, as the other members of its room get it.
pub open spec fn relayed(sender: Seq<char>, text: Seq<char>) -> spec_fn(Seq<char>) -> OutgoingView {
    |to: Seq<char>|
        OutgoingView {
            to,
            msg: MsgView::ResponseTypedMessage(MsgResponseView { client_name: sender, msg: text }),
        }
}

/// The rooms after `client` moves to the room called `room`: out of the room
/// it is in, then into that one.
pub open spec fn after_join(rooms: Seq<RoomView>, client: Seq<char>, room: Seq<char>) -> Seq<
    RoomView,
> {
    match after_insert(after_remove(rooms, client), client, room) {
        Some(r) => r,
        None => after_remove(rooms, client),
    }
}

/// The state after `msg` from `client` is handled.
pub open spec fn after_msg(m: ManagerView, client: Seq<char>, msg: MsgView) -> ManagerView {
    match msg {
        MsgView::LeaveCurrentRoom(_) => ManagerView {
            rooms: after_remove(m.rooms, client),
            clients: m.clients,
        },
        MsgView::RequestCreateRoom(name) => ManagerView {
            rooms: match after_create(m.rooms, name) {
                Some(r) => r,
                None => m.rooms,
            },
            clients: m.clients,
        },
        MsgView::RequestJoinRoom(name) => if room_index(m.rooms, name) is Some {
            ManagerView { rooms: after_join(m.rooms, client, name), clients: m.clients }
        } else {
            m
        },
        _ => m,
    }
}

/// The messages that go out when `msg` from `client` is handled.
pub open spec fn msg_replies(m: ManagerView, client: Seq<char>, msg: MsgView) -> Seq<OutgoingView> {
    match msg {
        MsgView::RequestTypedNewMessage(text) => participants(m.rooms, client).map_values(
            relayed(client, text),
        ),
        MsgView::RequestRoomList(_) => seq![
            OutgoingView { to: client, msg: MsgView::ResponseRoomList(room_names(m.rooms)) },
        ],
        MsgView::RequestCreateRoom(name) => seq![
            OutgoingView {
                to: client,
                msg: MsgView::ResponseCreateRoom(after_create(m.rooms, name) is Some),
            },
        ],
        MsgView::RequestJoinRoom(name) => seq![
            OutgoingView {
                to: client,
                msg: MsgView::ResponseJoinRoom(
                    room_index(m.rooms, name) is Some && after_insert(
                        after_remove(m.rooms, client),
                        client,
                        name,
                    ) is Some,
                ),
            },
        ],
        _ => Seq::empty(),
    }
}

impl ManagerInternal {
    /// The invariant of the server state.
    pub open spec fn inv(&self) -> bool {
        manager_inv(self@)
    }

    /// The state of a server that has just started: nobody connected, and
    /// only the default room.
    pub fn new() -> (m: ManagerInternal)
        ensures
            m@.rooms == seq![RoomView { name: DEFAULT_ROOM@, members: Seq::empty() }],
            m@.clients == Seq::<Seq<char>>::empty(),
            m.inv(),
    {
        let m = ManagerInternal { chat_rooms: ChatRooms::new(), clients: Vec::new() };
        proof {
            assert(m@.clients =~= Seq::<Seq<char>>::empty());
            assert(crate::chat_rooms::is_first_named(m@.rooms, DEFAULT_ROOM@, 0));
        }
        m
    }

    /// Whether `name` is connected.
    pub fn is_connected(&self, name: &str) -> (res: bool)
        ensures
            res == self@.clients.contains(name@),
    {
        member_position(&self.clients, name).is_some()
    }

    /// Whether the server can handle `wrapper`.
    pub fn accepts(&self, wrapper: &ProtocolWrapper) -> (res: bool)
        ensures
            res == accepts(self@, wrapper.client_name@, wrapper.msg_protocol@),
    {
        let client = wrapper.client_name.as_str();
        match &wrapper.msg_protocol {
            MsgProtocol::RequestTypedNewMessage(_) => self.chat_rooms.get_current_room_name(
                client,
            ).is_ok(),
            MsgProtocol::LeaveCurrentRoom(_) => self.chat_rooms.get_current_room_name(client).is_ok(),
            MsgProtocol::RequestRoomList(_) => self.is_connected(client),
            MsgProtocol::RequestCreateRoom(_) => self.is_connected(client),
            MsgProtocol::RequestJoinRoom(_) => self.is_connected(client),
            _ => true,
        }
    }

    /// A client connects under the name `id`: it is kept as connected, it
    /// enters the default room unless it is in a room already (on purpose: see
    /// [`after_new_socket`]), and it is told that it is accepted.
    pub fn handle_new_socket(&mut self, id: String) -> (out: Vec<Outgoing>)
        ensures
            final(self)@ == after_new_socket(old(self)@, id@),
            outgoing_view(out@) == new_socket_reply(id@),
            old(self).inv() ==> final(self).inv(),
    {
        let ghost before = self@;
        if !self.is_connected(id.as_str()) {
            self.clients.push(id.clone());
            proof {
                assert(strings_view(self.clients@) =~= before.clients.push(id@));
            }
        }
        if self.chat_rooms.get_current_room_name(id.as_str()).is_err() {
            let _entered = self.chat_rooms.insert_client_into_room(id.as_str(), DEFAULT_ROOM);
        }
        let reply = MsgProtocol::NewClientResponse(NewClientResponse { id: id.clone(), response: true });
        let mut out: Vec<Outgoing> = Vec::new();
        out.push(Outgoing { to: id, msg: reply });
        proof {
            assert(outgoing_view(out@) =~= new_socket_reply(id@));
            if manager_inv(before) {
                law_new_socket_keeps_inv(before, id@);
            }
        }
        out
    }

    /// Handles one message from a connected client: a chat line goes to the
    /// other members of its room; a leave takes it out of its room; the room
    /// list, a new room and a move to another room are answered to it.
    pub fn handle_msg_protocol(&mut self, wrapper: &ProtocolWrapper) -> (out: Vec<Outgoing>)
        requires
            accepts(old(self)@, wrapper.client_name@, wrapper.msg_protocol@),
        ensures
            final(self)@ == after_msg(old(self)@, wrapper.client_name@, wrapper.msg_protocol@),
            outgoing_view(out@) == msg_replies(
                old(self)@,
                wrapper.client_name@,
                wrapper.msg_protocol@,
            ),
            old(self).inv() ==> final(self).inv(),
    {
        let ghost before = self@;
        let client = wrapper.client_name.as_str();
        let mut out: Vec<Outgoing> = Vec::new();
        match &wrapper.msg_protocol {
            MsgProtocol::RequestTypedNewMessage(text) => {
                let names = self.chat_rooms.clients_room_pariticipants(client);
                let ghost targets = strings_view(names@);
                let ghost f = relayed(client@, text@);
                let mut k: usize = 0;
                while k < names.len()
                    invariant
                        k <= names@.len(),
                        targets == strings_view(names@),
                        f == relayed(client@, text@),
                        client@ == wrapper.client_name@,
                        out@.len() == k,
                        outgoing_view(out@) == targets.take(k as int).map_values(f),
                    decreases names@.len() - k,
                {
                    let ghost prev = outgoing_view(out@);
                    let line = MsgProtocol::ResponseTypedMessage(
                        MsgResponse { client_name: wrapper.client_name.clone(), msg: text.clone() },
                    );
                    out.push(Outgoing { to: names[k].clone(), msg: line });
                    proof {
                        let o = out@[k as int];
                        assert(o@.to == targets[k as int]);
                        assert(o@.msg == MsgView::ResponseTypedMessage(MsgResponseView { client_name: client@, msg: text@ }));
                        assert(o@ == f(targets[k as int]));
                        assert(outgoing_view(out@) =~= prev.push(f(targets[k as int])));
                        assert(targets.take(k + 1) =~= targets.take(k as int).push(targets[k as int]));
                        assert(targets.take(k + 1).map_values(f) =~= targets.take(k as int).map_values(
                            f,
                        ).push(f(targets[k as int])));
                    }
                    k = k + 1;
                }
                assert(targets.take(names@.len() as int) =~= targets);
            },
            MsgProtocol::LeaveCurrentRoom(_) => {
                let _left = self.chat_rooms.remove_client_from_room(client);
            },
            MsgProtocol::RequestRoomList(_) => {
                let rooms = self.chat_rooms.room_names();
                out.push(Outgoing { to: wrapper.client_name.clone(), msg: MsgProtocol::ResponseRoomList(rooms) });
            },
            MsgProtocol::RequestCreateRoom(name) => {
                let created = self.chat_rooms.create_room(name.as_str());
                out.push(
                    Outgoing {
                        to: wrapper.client_name.clone(),
                        msg: MsgProtocol::ResponseCreateRoom(created.is_ok()),
                    },
                );
            },
            MsgProtocol::RequestJoinRoom(name) => {
                let mut joined = false;
                if self.chat_rooms.get_room(name.as_str()).is_some() {
                    if self.chat_rooms.get_current_room_name(client).is_ok() {
                        let _left = self.chat_rooms.remove_client_from_room(client);
                    }
                    joined = self.chat_rooms.insert_client_into_room(client, name.as_str()).is_ok();
                }
                out.push(
                    Outgoing {
                        to: wrapper.client_name.clone(),
                        msg: MsgProtocol::ResponseJoinRoom(joined),
                    },
                );
            },
            _ => {},
        }
        proof {
            assert(outgoing_view(out@) =~= msg_replies(before, client@, wrapper.msg_protocol@));
            if manager_inv(before) {
                law_msg_keeps_inv(before, client@, wrapper.msg_protocol@);
            }
        }
        out
    }
}

/// Every connection keeps the invariant of the server state.
pub proof fn law_new_socket_keeps_inv(m: ManagerView, id: Seq<char>)
    requires
        manager_inv(m),
    ensures
        manager_inv(after_new_socket(m, id)),
{
    let after = after_new_socket(m, id);
    assert(after.clients.contains(id)) by {
        if !m.clients.contains(id) {
            assert(after.clients[m.clients.len() as int] == id);
        }
    }
    assert forall|n: Seq<char>| m.clients.contains(n) implies after.clients.contains(n) by {
        if !m.clients.contains(id) {
            let k = choose|k: int| 0 <= k < m.clients.len() && m.clients[k] == n;
            assert(after.clients[k] == n);
        }
    }
    if current_room(m.rooms, id) is None && after_insert(m.rooms, id, DEFAULT_ROOM@) is Some {
        assert forall|j: int| 0 <= j < m.rooms.len() implies !(#[trigger] m.rooms[j]).members.contains(id) by {
            if m.rooms[j].members.contains(id) {
                lemma_first_holding_exists(m.rooms, id, j);
            }
        }
        lemma_insert_one_room(m.rooms, id, DEFAULT_ROOM@);
        lemma_insert_keeps_wf(m.rooms, id, DEFAULT_ROOM@);
        lemma_same_names(m.rooms, after.rooms, DEFAULT_ROOM@);
        let i = room_index(m.rooms, DEFAULT_ROOM@)->0;
        assert forall|j: int, n: Seq<char>|
            0 <= j < after.rooms.len() && (#[trigger] after.rooms[j].members.contains(n)) implies after.clients.contains(n) by {
            if !(j == i && n == id) {
                if j == i {
                    let k = choose|k: int| 0 <= k < after.rooms[j].members.len() && after.rooms[j].members[k] == n;
                    assert(m.rooms[j].members[k] == n);
                }
                assert(m.rooms[j].members.contains(n));
                assert(m.clients.contains(n));
            }
        }
    }
}

/// The rooms after `id` connects, by the rule of always trying the default
/// room.
pub open spec fn after_new_socket_always_lobby(rooms: Seq<RoomView>, id: Seq<char>) -> Seq<RoomView> {
    match after_insert(rooms, id, DEFAULT_ROOM@) {
        Some(r) => r,
        None => rooms,
    }
}

/// Where a connecting client is in no room, or in the default room, a
/// connection changes the rooms exactly as always trying the default room does.
pub proof fn law_new_socket_as_before_where_no_move(m: ManagerView, id: Seq<char>)
    requires
        room_index(m.rooms, DEFAULT_ROOM@) is Some,
        current_room(m.rooms, id) is None || current_room(m.rooms, id) == room_index(
            m.rooms,
            DEFAULT_ROOM@,
        ),
    ensures
        after_new_socket(m, id).rooms == after_new_socket_always_lobby(m.rooms, id),
{
}

/// Members of the rooms after a client left were members before.
proof fn lemma_remove_members(rooms: Seq<RoomView>, client: Seq<char>, j: int, n: Seq<char>)
    requires
        0 <= j < rooms.len(),
        after_remove(rooms, client)[j].members.contains(n),
    ensures
        rooms[j].members.contains(n),
{
    let after = after_remove(rooms, client);
    if current_room(rooms, client) is Some {
        let i = current_room(rooms, client)->0;
        if j == i {
            crate::chat_rooms::lemma_first_index_exists(rooms[i].members, client);
            let f = crate::chat_rooms::first_index(rooms[i].members, client);
            let k = choose|k: int| 0 <= k < after[j].members.len() && after[j].members[k] == n;
            let rk = if k < f { k } else { k + 1 };
            assert(rooms[j].members[rk] == n);
        }
    }
}

/// Every message that the server accepts keeps the invariant of the server state.
pub proof fn law_msg_keeps_inv(m: ManagerView, client: Seq<char>, msg: MsgView)
    requires
        manager_inv(m),
        accepts(m, client, msg),
    ensures
        manager_inv(after_msg(m, client, msg)),
{
    lemma_msg_keeps_one_room(m, client, msg);
    match msg {
        MsgView::LeaveCurrentRoom(_) => {
            lemma_remove_keeps_wf(m.rooms, client);
            let after = after_remove(m.rooms, client);
            lemma_same_names(m.rooms, after, DEFAULT_ROOM@);
            assert forall|j: int, n: Seq<char>|
                0 <= j < after.len() && (#[trigger] after[j].members.contains(n)) implies m.clients.contains(n) by {
                lemma_remove_members(m.rooms, client, j, n);
            }
        },
        MsgView::RequestCreateRoom(name) => {
            if after_create(m.rooms, name) is Some {
                lemma_create_keeps_wf(m.rooms, name);
                let after = after_create(m.rooms, name)->0;
                let d = room_index(m.rooms, DEFAULT_ROOM@)->0;
                assert(crate::chat_rooms::is_first_named(after, DEFAULT_ROOM@, d));
                assert forall|j: int, n: Seq<char>|
                    0 <= j < after.len() && (#[trigger] after[j].members.contains(n)) implies m.clients.contains(n) by {
                    if j < m.rooms.len() {
                        assert(after[j] == m.rooms[j]);
                    }
                }
            }
        },
        MsgView::RequestJoinRoom(name) => {
            if room_index(m.rooms, name) is Some {
                let removed = after_remove(m.rooms, client);
                lemma_remove_keeps_wf(m.rooms, client);
                lemma_same_names(m.rooms, removed, DEFAULT_ROOM@);
                assert forall|j: int, n: Seq<char>|
                    0 <= j < removed.len() && (#[trigger] removed[j].members.contains(n)) implies m.clients.contains(n) by {
                    lemma_remove_members(m.rooms, client, j, n);
                }
                if after_insert(removed, client, name) is Some {
                    lemma_insert_keeps_wf(removed, client, name);
                    let after = after_insert(removed, client, name)->0;
                    lemma_same_names(removed, after, DEFAULT_ROOM@);
                    let i = room_index(removed, name)->0;
                    assert forall|j: int, n: Seq<char>|
                        0 <= j < after.len() && (#[trigger] after[j].members.contains(n)) implies m.clients.contains(n) by {
                        if !(j == i && n == client) {
                            if j == i {
                                let k = choose|k: int| 0 <= k < after[j].members.len() && after[j].members[k] == n;
                                assert(removed[j].members[k] == n);
                            }
                            assert(removed[j].members.contains(n));
                        }
                    }
                }
            }
        },
        _ => {},
    }
}

/// Nobody is in two rooms at once.
pub open spec fn one_room_each(rooms: Seq<RoomView>) -> bool {
    forall|i: int, j: int, c: Seq<char>|
        0 <= i < rooms.len() && 0 <= j < rooms.len() && #[trigger] rooms[i].members.contains(c)
            && #[trigger] rooms[j].members.contains(c) ==> i == j
}

/// Where nobody is in two rooms, a client that leaves its room is in no room.
pub proof fn lemma_remove_takes_out(rooms: Seq<RoomView>, client: Seq<char>)
    requires
        rooms_wf(rooms),
        one_room_each(rooms),
    ensures
        forall|j: int|
            0 <= j < rooms.len() ==> !(#[trigger] after_remove(rooms, client)[j]).members.contains(
                client,
            ),
        forall|j: int, n: Seq<char>|
            0 <= j < rooms.len() && (#[trigger] after_remove(rooms, client)[j].members.contains(n))
                ==> rooms[j].members.contains(n),
{
    let after = after_remove(rooms, client);
    if current_room(rooms, client) is Some {
        let i = current_room(rooms, client)->0;
        let members = rooms[i].members;
        lemma_first_index_exists(members, client);
        let f = first_index(members, client);
        assert forall|j: int| 0 <= j < rooms.len() implies !(#[trigger] after[j]).members.contains(
            client,
        ) by {
            if j == i {
                if after[j].members.contains(client) {
                    let k = choose|k: int| 0 <= k < after[j].members.len() && after[j].members[k] == client;
                    let rk = if k < f { k } else { k + 1 };
                    assert(members[rk] == client);
                    assert(members.no_duplicates());
                }
            } else if after[j].members.contains(client) {
                assert(rooms[j].members.contains(client));
            }
        }
        assert forall|j: int, n: Seq<char>|
            0 <= j < rooms.len() && (#[trigger] after[j].members.contains(n)) implies rooms[j].members.contains(n) by {
            if j == i {
                let k = choose|k: int| 0 <= k < after[j].members.len() && after[j].members[k] == n;
                let rk = if k < f { k } else { k + 1 };
                assert(members[rk] == n);
            }
        }
    } else {
        assert forall|j: int| 0 <= j < rooms.len() implies !(#[trigger] after[j]).members.contains(
            client,
        ) by {
            if rooms[j].members.contains(client) {
                lemma_first_holding_exists(rooms, client, j);
            }
        }
    }
}

/// Where `client` is in no room, entering one leaves everybody in one room at most.
proof fn lemma_insert_one_room(rooms: Seq<RoomView>, client: Seq<char>, room: Seq<char>)
    requires
        one_room_each(rooms),
        forall|j: int| 0 <= j < rooms.len() ==> !(#[trigger] rooms[j]).members.contains(client),
        after_insert(rooms, client, room) is Some,
    ensures
        one_room_each(after_insert(rooms, client, room)->0),
{
    let i = room_index(rooms, room)->0;
    let after = after_insert(rooms, client, room)->0;
    assert forall|a: int, b: int, c: Seq<char>|
        0 <= a < after.len() && 0 <= b < after.len() && #[trigger] after[a].members.contains(c)
            && #[trigger] after[b].members.contains(c) implies a == b by {
        if c == client {
            if a != i {
                assert(rooms[a].members.contains(c));
            }
            if b != i {
                assert(rooms[b].members.contains(c));
            }
        } else {
            if a == i {
                let k = choose|k: int| 0 <= k < after[a].members.len() && after[a].members[k] == c;
                assert(rooms[a].members[k] == c);
            }
            if b == i {
                let k = choose|k: int| 0 <= k < after[b].members.len() && after[b].members[k] == c;
                assert(rooms[b].members[k] == c);
            }
            assert(rooms[a].members.contains(c));
            assert(rooms[b].members.contains(c));
        }
    }
}

/// Handling a message never puts anybody in two rooms.
proof fn lemma_msg_keeps_one_room(m: ManagerView, client: Seq<char>, msg: MsgView)
    requires
        rooms_wf(m.rooms),
        one_room_each(m.rooms),
    ensures
        one_room_each(after_msg(m, client, msg).rooms),
{
    match msg {
        MsgView::LeaveCurrentRoom(_) => {
            lemma_remove_takes_out(m.rooms, client);
            let after = after_remove(m.rooms, client);
            assert forall|a: int, b: int, c: Seq<char>|
                0 <= a < after.len() && 0 <= b < after.len() && #[trigger] after[a].members.contains(c)
                    && #[trigger] after[b].members.contains(c) implies a == b by {
                assert(m.rooms[a].members.contains(c));
                assert(m.rooms[b].members.contains(c));
            }
        },
        MsgView::RequestCreateRoom(name) => {
            if after_create(m.rooms, name) is Some {
                let after = after_create(m.rooms, name)->0;
                assert forall|a: int, b: int, c: Seq<char>|
                    0 <= a < after.len() && 0 <= b < after.len() && #[trigger] after[a].members.contains(c)
                        && #[trigger] after[b].members.contains(c) implies a == b by {
                    if a < m.rooms.len() {
                        assert(after[a] == m.rooms[a]);
                    }
                    if b < m.rooms.len() {
                        assert(after[b] == m.rooms[b]);
                    }
                }
            }
        },
        MsgView::RequestJoinRoom(name) => {
            if room_index(m.rooms, name) is Some {
                lemma_remove_takes_out(m.rooms, client);
                let removed = after_remove(m.rooms, client);
                assert(one_room_each(removed)) by {
                    assert forall|a: int, b: int, c: Seq<char>|
                        0 <= a < removed.len() && 0 <= b < removed.len()
                            && #[trigger] removed[a].members.contains(c)
                            && #[trigger] removed[b].members.contains(c) implies a == b by {
                        assert(m.rooms[a].members.contains(c));
                        assert(m.rooms[b].members.contains(c));
                    }
                }
                if after_insert(removed, client, name) is Some {
                    lemma_insert_one_room(removed, client, name);
                }
            }
        },
        _ => {},
    }
}

} // verus!
