use rchat::manager::{ManagerInternal, Outgoing, ProtocolWrapper};
use rchat::protocol::MsgProtocol;

fn wrap(client: &str, msg: MsgProtocol) -> ProtocolWrapper {
    ProtocolWrapper { client_name: client.to_string(), msg_protocol: msg }
}

fn members(m: &ManagerInternal, room: &str) -> Vec<String> {
    m.chat_rooms.get_room(room).unwrap().in_room.clone()
}

fn connected(names: &[&str]) -> ManagerInternal {
    let mut m = ManagerInternal::new();
    for n in names {
        m.handle_new_socket(n.to_string());
    }
    m
}

fn send(m: &mut ManagerInternal, client: &str, msg: MsgProtocol) -> Vec<Outgoing> {
    let w = wrap(client, msg);
    assert!(m.accepts(&w));
    m.handle_msg_protocol(&w)
}

#[test]
fn new_socket_is_welcomed_into_lobby() {
    let mut m = ManagerInternal::new();
    let out = m.handle_new_socket("ann".to_string());
    assert_eq!(out.len(), 1);
    assert_eq!(out[0].to, "ann");
    match &out[0].msg {
        MsgProtocol::NewClientResponse(r) => {
            assert_eq!(r.id, "ann");
            assert!(r.response);
        }
        other => panic!("unexpected {:?}", other),
    }
    assert_eq!(m.clients, vec!["ann".to_string()]);
    assert_eq!(members(&m, "Lobby"), vec!["ann".to_string()]);
}

#[test]
fn reconnect_under_same_name_keeps_one_entry() {
    let mut m = connected(&["ann"]);
    let out = m.handle_new_socket("ann".to_string());
    assert_eq!(out.len(), 1);
    assert_eq!(m.clients, vec!["ann".to_string()]);
    assert_eq!(members(&m, "Lobby"), vec!["ann".to_string()]);
}

#[test]
fn reconnect_after_moving_keeps_client_in_its_room() {
    let mut m = connected(&["ann"]);
    send(&mut m, "ann", MsgProtocol::RequestCreateRoom("Kitchen".to_string()));
    send(&mut m, "ann", MsgProtocol::RequestJoinRoom("Kitchen".to_string()));
    let out = m.handle_new_socket("ann".to_string());
    assert_eq!(out.len(), 1);
    assert!(!m.chat_rooms.is_user_in_room("ann", "Lobby"));
    assert!(m.chat_rooms.is_user_in_room("ann", "Kitchen"));
    let out = send(&mut m, "ann", MsgProtocol::RequestJoinRoom("Kitchen".to_string()));
    assert!(matches!(out[0].msg, MsgProtocol::ResponseJoinRoom(true)));
    assert_eq!(members(&m, "Kitchen"), vec!["ann".to_string()]);
}

#[test]
fn reconnect_after_leaving_enters_lobby_again() {
    let mut m = connected(&["ann"]);
    send(&mut m, "ann", MsgProtocol::LeaveCurrentRoom(true));
    m.handle_new_socket("ann".to_string());
    assert_eq!(members(&m, "Lobby"), vec!["ann".to_string()]);
}

#[test]
fn join_the_room_one_is_in_is_answered_true() {
    let mut m = connected(&["ann", "bob"]);
    let out = send(&mut m, "ann", MsgProtocol::RequestJoinRoom("Lobby".to_string()));
    assert!(matches!(out[0].msg, MsgProtocol::ResponseJoinRoom(true)));
    assert_eq!(members(&m, "Lobby"), vec!["bob".to_string(), "ann".to_string()]);
}

#[test]
fn chat_line_goes_to_roommates() {
    let mut m = connected(&["ann", "bob", "cid"]);
    let out = send(&mut m, "bob", MsgProtocol::RequestTypedNewMessage("hi all".to_string()));
    let to: Vec<&str> = out.iter().map(|o| o.to.as_str()).collect();
    assert_eq!(to, vec!["ann", "cid"]);
    for o in &out {
        match &o.msg {
            MsgProtocol::ResponseTypedMessage(r) => {
                assert_eq!(r.client_name, "bob");
                assert_eq!(r.msg, "hi all");
            }
            other => panic!("unexpected {:?}", other),
        }
    }
}

#[test]
fn chat_line_stays_in_room() {
    let mut m = connected(&["ann", "bob", "cid"]);
    send(&mut m, "ann", MsgProtocol::RequestCreateRoom("Kitchen".to_string()));
    send(&mut m, "ann", MsgProtocol::RequestJoinRoom("Kitchen".to_string()));
    send(&mut m, "cid", MsgProtocol::RequestJoinRoom("Kitchen".to_string()));
    let out = send(&mut m, "ann", MsgProtocol::RequestTypedNewMessage("psst".to_string()));
    let to: Vec<&str> = out.iter().map(|o| o.to.as_str()).collect();
    assert_eq!(to, vec!["cid"]);
    let out = send(&mut m, "bob", MsgProtocol::RequestTypedNewMessage("anyone?".to_string()));
    assert!(out.is_empty());
}

#[test]
fn leave_takes_client_out_of_its_room() {
    let mut m = connected(&["ann", "bob"]);
    let out = send(&mut m, "ann", MsgProtocol::LeaveCurrentRoom(true));
    assert!(out.is_empty());
    assert_eq!(members(&m, "Lobby"), vec!["bob".to_string()]);
    let w = wrap("ann", MsgProtocol::RequestTypedNewMessage("x".to_string()));
    assert!(!m.accepts(&w));
    let w = wrap("ann", MsgProtocol::LeaveCurrentRoom(true));
    assert!(!m.accepts(&w));
}

#[test]
fn room_list_names_every_room() {
    let mut m = connected(&["ann"]);
    send(&mut m, "ann", MsgProtocol::RequestCreateRoom("Kitchen".to_string()));
    send(&mut m, "ann", MsgProtocol::RequestCreateRoom("Attic".to_string()));
    let out = send(&mut m, "ann", MsgProtocol::RequestRoomList(true));
    assert_eq!(out.len(), 1);
    assert_eq!(out[0].to, "ann");
    match &out[0].msg {
        MsgProtocol::ResponseRoomList(names) => {
            assert_eq!(names, &vec!["Lobby".to_string(), "Kitchen".to_string(), "Attic".to_string()])
        }
        other => panic!("unexpected {:?}", other),
    }
}

#[test]
fn create_room_answers_whether_it_was_new() {
    let mut m = connected(&["ann"]);
    let out = send(&mut m, "ann", MsgProtocol::RequestCreateRoom("Kitchen".to_string()));
    assert!(matches!(out[0].msg, MsgProtocol::ResponseCreateRoom(true)));
    let out = send(&mut m, "ann", MsgProtocol::RequestCreateRoom("Kitchen".to_string()));
    assert!(matches!(out[0].msg, MsgProtocol::ResponseCreateRoom(false)));
    assert_eq!(out[0].to, "ann");
}

#[test]
fn create_then_join_moves_the_client() {
    let mut m = connected(&["ann", "bob"]);
    send(&mut m, "ann", MsgProtocol::RequestCreateRoom("Kitchen".to_string()));
    let out = send(&mut m, "ann", MsgProtocol::RequestJoinRoom("Kitchen".to_string()));
    assert!(matches!(out[0].msg, MsgProtocol::ResponseJoinRoom(true)));
    assert_eq!(m.chat_rooms.get_current_room_name("ann"), Ok("Kitchen".to_string()));
    assert_eq!(members(&m, "Lobby"), vec!["bob".to_string()]);
    assert_eq!(members(&m, "Kitchen"), vec!["ann".to_string()]);
}

#[test]
fn join_missing_room_is_refused() {
    let mut m = connected(&["ann"]);
    let out = send(&mut m, "ann", MsgProtocol::RequestJoinRoom("Attic".to_string()));
    assert!(matches!(out[0].msg, MsgProtocol::ResponseJoinRoom(false)));
    assert_eq!(m.chat_rooms.get_current_room_name("ann"), Ok("Lobby".to_string()));
}

#[test]
fn join_after_leave_puts_client_back() {
    let mut m = connected(&["ann"]);
    send(&mut m, "ann", MsgProtocol::LeaveCurrentRoom(true));
    let out = send(&mut m, "ann", MsgProtocol::RequestJoinRoom("Lobby".to_string()));
    assert!(matches!(out[0].msg, MsgProtocol::ResponseJoinRoom(true)));
    assert_eq!(members(&m, "Lobby"), vec!["ann".to_string()]);
}

#[test]
fn requests_from_unknown_clients_are_not_accepted() {
    let m = connected(&["ann"]);
    assert!(!m.accepts(&wrap("zed", MsgProtocol::RequestRoomList(true))));
    assert!(!m.accepts(&wrap("zed", MsgProtocol::RequestCreateRoom("x".to_string()))));
    assert!(!m.accepts(&wrap("zed", MsgProtocol::RequestJoinRoom("Lobby".to_string()))));
    assert!(m.accepts(&wrap("zed", MsgProtocol::ResponseJoinRoom(true))));
    assert!(m.is_connected("ann"));
    assert!(!m.is_connected("zed"));
}

#[test]
fn other_messages_change_nothing() {
    let mut m = connected(&["ann"]);
    let out = send(&mut m, "ann", MsgProtocol::NewClientRequest("ann".to_string()));
    assert!(out.is_empty());
    let out = send(&mut m, "ann", MsgProtocol::ResponseCreateRoom(true));
    assert!(out.is_empty());
    assert_eq!(m.clients, vec!["ann".to_string()]);
    assert_eq!(members(&m, "Lobby"), vec!["ann".to_string()]);
}

#[test]
fn nobody_ends_up_in_two_rooms() {
    let mut m = connected(&["ann", "bob", "cid"]);
    send(&mut m, "ann", MsgProtocol::RequestCreateRoom("Kitchen".to_string()));
    send(&mut m, "bob", MsgProtocol::RequestJoinRoom("Kitchen".to_string()));
    send(&mut m, "bob", MsgProtocol::RequestJoinRoom("Kitchen".to_string()));
    send(&mut m, "cid", MsgProtocol::LeaveCurrentRoom(true));
    send(&mut m, "cid", MsgProtocol::RequestJoinRoom("Kitchen".to_string()));
    for name in ["ann", "bob", "cid"] {
        let count = m
            .chat_rooms
            .rooms
            .iter()
            .filter(|r| r.in_room.iter().any(|n| n == name))
            .count();
        assert_eq!(count, 1, "{}", name);
    }
}

#[test]
fn only_connected_clients_are_in_rooms() {
    let mut m = connected(&["ann", "bob"]);
    send(&mut m, "ann", MsgProtocol::RequestCreateRoom("Kitchen".to_string()));
    send(&mut m, "bob", MsgProtocol::RequestJoinRoom("Kitchen".to_string()));
    send(&mut m, "ann", MsgProtocol::LeaveCurrentRoom(true));
    send(&mut m, "ann", MsgProtocol::RequestJoinRoom("Attic".to_string()));
    for room in &m.chat_rooms.rooms {
        for n in &room.in_room {
            assert!(m.is_connected(n), "{}", n);
        }
    }
    let names = m.chat_rooms.room_names();
    assert_eq!(names, vec!["Lobby".to_string(), "Kitchen".to_string()]);
    assert!(m.chat_rooms.get_room("Lobby").is_some());
}

#[test]
fn reconnect_while_in_lobby_is_as_before() {
    let mut m = connected(&["ann", "bob"]);
    m.handle_new_socket("ann".to_string());
    assert_eq!(members(&m, "Lobby"), vec!["ann".to_string(), "bob".to_string()]);
    assert_eq!(m.clients, vec!["ann".to_string(), "bob".to_string()]);
}
