use rchat::app_ui::AppMsg;
use rchat::client::{
    action_for_groups, admission_notices, command_action, line_action, route_message, ClientRoute,
    InputLine, LineAction, COMMAND_PATTERN,
};
use rchat::protocol::{MsgProtocol, MsgResponse, NewClientResponse};

fn infos(route: ClientRoute) -> Vec<String> {
    match route {
        ClientRoute::ToScreen(v) => v
            .into_iter()
            .map(|m| match m {
                AppMsg::Info(s) => s,
                other => panic!("unexpected {:?}", other),
            })
            .collect(),
        other => panic!("unexpected {:?}", other),
    }
}

#[test]
fn plain_line_is_a_chat_line() {
    match line_action("hello there") {
        LineAction::Send(MsgProtocol::RequestTypedNewMessage(s)) => assert_eq!(s, "hello there"),
        other => panic!("unexpected {:?}", other),
    }
}

#[test]
fn empty_line_is_an_empty_chat_line() {
    match line_action("") {
        LineAction::Send(MsgProtocol::RequestTypedNewMessage(s)) => assert_eq!(s, ""),
        other => panic!("unexpected {:?}", other),
    }
}

#[test]
fn join_command() {
    match line_action("/join room1") {
        LineAction::Send(MsgProtocol::RequestJoinRoom(s)) => assert_eq!(s, "room1"),
        other => panic!("unexpected {:?}", other),
    }
}

#[test]
fn create_command() {
    match line_action("/create Kitchen") {
        LineAction::Send(MsgProtocol::RequestCreateRoom(s)) => assert_eq!(s, "Kitchen"),
        other => panic!("unexpected {:?}", other),
    }
}

#[test]
fn list_command() {
    assert!(matches!(
        line_action("/list rooms"),
        LineAction::Send(MsgProtocol::RequestRoomList(true))
    ));
}

#[test]
fn exit_command() {
    assert!(matches!(line_action("/exit now"), LineAction::Exit));
}

#[test]
fn unknown_command_is_refused() {
    match line_action("/dance wildly") {
        LineAction::Notify(AppMsg::Error(s)) => assert_eq!(s, "::Invalid command"),
        other => panic!("unexpected {:?}", other),
    }
}

#[test]
fn command_takes_the_last_space_as_separator() {
    match line_action("/create my room") {
        LineAction::Notify(AppMsg::Error(s)) => assert_eq!(s, "::Invalid command"),
        other => panic!("unexpected {:?}", other),
    }
    match line_action("/join  spaced") {
        LineAction::Notify(AppMsg::Error(_)) => {}
        other => panic!("unexpected {:?}", other),
    }
}

#[test]
fn command_without_argument_does_nothing() {
    assert!(matches!(line_action("/list"), LineAction::Nothing));
    assert!(matches!(line_action("/"), LineAction::Nothing));
}

#[test]
fn command_action_by_name() {
    assert!(matches!(command_action("exit", ""), LineAction::Exit));
    assert!(matches!(command_action("list", "whatever"), LineAction::Send(MsgProtocol::RequestRoomList(true))));
    assert!(matches!(command_action("JOIN", "x"), LineAction::Notify(AppMsg::Error(_))));
}

#[test]
fn groups_decide_the_action() {
    assert!(matches!(action_for_groups(None), LineAction::Nothing));
    assert!(matches!(action_for_groups(Some(None)), LineAction::Nothing));
    assert!(matches!(
        action_for_groups(Some(Some((Some("join".to_string()), None)))),
        LineAction::Nothing
    ));
    match action_for_groups(Some(Some((Some("join".to_string()), Some("Attic".to_string()))))) {
        LineAction::Send(MsgProtocol::RequestJoinRoom(s)) => assert_eq!(s, "Attic"),
        other => panic!("unexpected {:?}", other),
    }
    assert_eq!(COMMAND_PATTERN, "/(.*) (.*)");
}

#[test]
fn requests_go_to_the_server() {
    match route_message(MsgProtocol::RequestTypedNewMessage("hey".to_string())) {
        ClientRoute::ToServer(MsgProtocol::RequestTypedNewMessage(s)) => assert_eq!(s, "hey"),
        other => panic!("unexpected {:?}", other),
    }
    assert!(matches!(
        route_message(MsgProtocol::RequestRoomList(true)),
        ClientRoute::ToServer(MsgProtocol::RequestRoomList(true))
    ));
    assert!(matches!(
        route_message(MsgProtocol::RequestCreateRoom("a".to_string())),
        ClientRoute::ToServer(MsgProtocol::RequestCreateRoom(_))
    ));
    assert!(matches!(
        route_message(MsgProtocol::RequestJoinRoom("a".to_string())),
        ClientRoute::ToServer(MsgProtocol::RequestJoinRoom(_))
    ));
}

#[test]
fn chat_lines_go_to_the_screen() {
    let msg = MsgProtocol::ResponseTypedMessage(MsgResponse {
        client_name: "ann".to_string(),
        msg: "hi".to_string(),
    });
    match route_message(msg) {
        ClientRoute::ToScreen(v) => {
            assert_eq!(v.len(), 1);
            match &v[0] {
                AppMsg::ChatMsg(r) => {
                    assert_eq!(r.client_name, "ann");
                    assert_eq!(r.msg, "hi");
                }
                other => panic!("unexpected {:?}", other),
            }
        }
        other => panic!("unexpected {:?}", other),
    }
}

#[test]
fn answers_are_shown_as_notices() {
    assert_eq!(infos(route_message(MsgProtocol::ResponseCreateRoom(true))), vec!["::Created room"]);
    assert_eq!(
        infos(route_message(MsgProtocol::ResponseCreateRoom(false))),
        vec!["::Room allready exists"]
    );
    assert_eq!(infos(route_message(MsgProtocol::ResponseJoinRoom(true))), vec!["::Joined room"]);
    assert_eq!(
        infos(route_message(MsgProtocol::ResponseJoinRoom(false))),
        vec!["::Could not join room"]
    );
}

#[test]
fn room_list_is_shown_one_room_per_line() {
    let list = MsgProtocol::ResponseRoomList(vec!["Lobby".to_string(), "Kitchen".to_string()]);
    assert_eq!(infos(route_message(list)), vec!["::Rooms available are", "- Lobby", "- Kitchen"]);
    assert_eq!(infos(route_message(MsgProtocol::ResponseRoomList(vec![]))), vec!["::Rooms available are"]);
}

#[test]
fn other_messages_are_dropped() {
    assert!(matches!(route_message(MsgProtocol::LeaveCurrentRoom(true)), ClientRoute::Drop));
    assert!(matches!(route_message(MsgProtocol::NewClientRequest("a".to_string())), ClientRoute::Drop));
}

#[test]
fn acceptance_brings_the_welcome_notices() {
    let first = MsgProtocol::NewClientResponse(NewClientResponse { id: "ann".to_string(), response: true });
    let shown: Vec<String> = admission_notices(&first)
        .unwrap()
        .into_iter()
        .map(|m| match m {
            AppMsg::Info(s) => s,
            other => panic!("unexpected {:?}", other),
        })
        .collect();
    assert_eq!(
        shown,
        vec![
            "::Server allowed access!",
            "::Chat commands availbale: ",
            " /create <room_name> : Create a new room",
            " /join <room_name>   : Join a new room",
            " /list rooms         : list all rooms",
        ]
    );
}

#[test]
fn anything_else_first_is_a_refusal() {
    match admission_notices(&MsgProtocol::ResponseJoinRoom(true)) {
        Err(AppMsg::Error(s)) => assert_eq!(s, "::Server denied access!"),
        other => panic!("unexpected {:?}", other),
    }
}

#[test]
fn command_stops_at_a_line_break() {
    match line_action("/join a\nb c") {
        LineAction::Send(MsgProtocol::RequestJoinRoom(s)) => assert_eq!(s, "a"),
        other => panic!("unexpected {:?}", other),
    }
    match line_action("/ x") {
        LineAction::Notify(AppMsg::Error(_)) => {}
        other => panic!("unexpected {:?}", other),
    }
    match line_action("/join \u{e9}t\u{e9}") {
        LineAction::Send(MsgProtocol::RequestJoinRoom(s)) => assert_eq!(s, "\u{e9}t\u{e9}"),
        other => panic!("unexpected {:?}", other),
    }
    match line_action("/join ") {
        LineAction::Send(MsgProtocol::RequestJoinRoom(s)) => assert_eq!(s, ""),
        other => panic!("unexpected {:?}", other),
    }
}

#[test]
fn typing_builds_the_line_and_tells_the_screen() {
    let mut line = InputLine::new();
    match line.type_char('h') {
        AppMsg::Char(s) => assert_eq!(s, "h"),
        other => panic!("unexpected {:?}", other),
    }
    match line.type_char('\u{e9}') {
        AppMsg::Char(s) => assert_eq!(s, "\u{e9}"),
        other => panic!("unexpected {:?}", other),
    }
    assert_eq!(line.text, "h\u{e9}");
}

#[test]
fn erasing_takes_back_the_last_character() {
    let mut line = InputLine::new();
    assert!(line.erase().is_none());
    assert_eq!(line.text, "");
    line.type_char('a');
    line.type_char('b');
    assert!(matches!(line.erase(), Some(AppMsg::BackSpace)));
    assert_eq!(line.text, "a");
}

#[test]
fn entering_a_line_acts_and_clears_it() {
    let mut line = InputLine::new();
    for c in "/join Games".chars() {
        line.type_char(c);
    }
    match line.enter() {
        LineAction::Send(MsgProtocol::RequestJoinRoom(s)) => assert_eq!(s, "Games"),
        other => panic!("unexpected {:?}", other),
    }
    assert_eq!(line.text, "");
    match line.enter() {
        LineAction::Send(MsgProtocol::RequestTypedNewMessage(s)) => assert_eq!(s, ""),
        other => panic!("unexpected {:?}", other),
    }
}
