use rchat::protocol::MsgProtocol;
use rchat::text::{is_white_space_char, trim_str};

#[test]
fn frame_adds_a_line_break() {
    assert_eq!(MsgProtocol::frame_line("{\"RequestRoomList\":true}"), "{\"RequestRoomList\":true}\n");
    assert_eq!(MsgProtocol::frame_line(""), "\n");
}

#[test]
fn unframe_strips_surrounding_white_space() {
    assert_eq!(MsgProtocol::unframe_line("  {\"a\":1}\r\n"), "{\"a\":1}");
    assert_eq!(MsgProtocol::unframe_line("\u{3000}x y\u{a0}\t"), "x y");
    assert_eq!(MsgProtocol::unframe_line(" \n\t "), "");
    assert_eq!(MsgProtocol::unframe_line(""), "");
}

#[test]
fn unframe_undoes_frame() {
    for json in ["{\"LeaveCurrentRoom\":true}", "", "\"x\"", " padded "] {
        let line = MsgProtocol::frame_line(json);
        assert_eq!(MsgProtocol::unframe_line(&line), json.trim());
    }
}

#[test]
fn trim_agrees_with_std() {
    for s in ["", "  ", "a", " a ", "\u{2028}b\u{85}", "\u{200b}c", "x\u{1680}", "\u{b}d\u{c}"] {
        assert_eq!(trim_str(s), s.trim(), "{:?}", s);
    }
}

#[test]
fn white_space_agrees_with_std() {
    for u in 0u32..0x3100 {
        if let Some(c) = char::from_u32(u) {
            assert_eq!(is_white_space_char(c), c.is_whitespace(), "{:x}", u);
        }
    }
}

#[test]
fn join_request_names_the_client() {
    assert_eq!(
        MsgProtocol::NewClientRequest("ann".to_string()).requested_client_name(),
        Some("ann".to_string())
    );
    assert_eq!(MsgProtocol::RequestRoomList(true).requested_client_name(), None);
}
