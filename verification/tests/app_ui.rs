use rchat::app_ui::{markup_parts, AppMsg, AppUi};
use rchat::protocol::MsgResponse;

fn ui_with(messages: &[&str]) -> AppUi {
    let mut ui = AppUi::new();
    for m in messages {
        ui.messages.push(m.to_string());
    }
    ui
}

#[test]
fn new_is_empty() {
    let ui = AppUi::new();
    assert_eq!(ui.input, "");
    assert!(ui.messages.is_empty());
    assert_eq!(ui.get_messages_for_display(5), "");
}

#[test]
fn display_shows_the_last_messages() {
    let ui = ui_with(&["a", "b", "c"]);
    assert_eq!(ui.get_messages_for_display(2), "b\nc");
    assert_eq!(ui.get_messages_for_display(3), "a\nb\nc");
    assert_eq!(ui.get_messages_for_display(10), "a\nb\nc");
    assert_eq!(ui.get_messages_for_display(0), "");
    assert_eq!(ui.get_messages_for_display(1), "c");
}

#[test]
fn typed_characters_build_the_input() {
    let mut ui = AppUi::new();
    ui.handle_app_msg(AppMsg::Char("h".to_string()), "me");
    ui.handle_app_msg(AppMsg::Char("\u{e9}".to_string()), "me");
    assert_eq!(ui.input, "h\u{e9}");
    assert_eq!(ui.input_markup(), "{fg=white h\u{e9}}");
}

#[test]
fn backspace_removes_last_character() {
    let mut ui = AppUi::new();
    ui.input = "abc".to_string();
    ui.backspace();
    assert_eq!(ui.input, "ab");
}

#[test]
fn backspace_undoes_a_typed_character() {
    let mut ui = ui_with(&["x"]);
    ui.input = "\u{e9}t".to_string();
    ui.handle_app_msg(AppMsg::Char("z".to_string()), "me");
    ui.handle_app_msg(AppMsg::BackSpace, "me");
    assert_eq!(ui.input, "\u{e9}t");
    assert_eq!(ui.messages, vec!["x".to_string()]);
}

#[test]
fn notices_and_chat_lines_are_marked_up() {
    let mut ui = AppUi::new();
    ui.handle_app_msg(AppMsg::Info("::Joined room".to_string()), "me");
    ui.handle_app_msg(
        AppMsg::ChatMsg(MsgResponse { client_name: "ann".to_string(), msg: "hi".to_string() }),
        "me",
    );
    assert_eq!(ui.messages, vec!["{fg=magenta ::Joined room }".to_string(), "{fg=green ann: hi}".to_string()]);
}

#[test]
fn new_line_moves_the_input_to_the_messages() {
    let mut ui = AppUi::new();
    ui.input = "hello".to_string();
    ui.handle_app_msg(AppMsg::NewLine, "bob");
    assert_eq!(ui.input, "");
    assert_eq!(ui.messages, vec!["{fg=white bob: hello}".to_string()]);
}

#[test]
fn error_shows_the_refused_command() {
    let mut ui = AppUi::new();
    ui.input = "/dance x".to_string();
    ui.handle_app_msg(AppMsg::Error("::Invalid command".to_string()), "bob");
    assert_eq!(ui.input, "");
    assert_eq!(ui.messages, vec!["{fg=red ::Invalid command /dance x }".to_string()]);
}

#[test]
fn markup_parts_split_colour_and_text() {
    assert_eq!(markup_parts("{fg=green ann: hi}"), Some(("green".to_string(), "ann: hi".to_string())));
    assert_eq!(markup_parts("{fg=magenta ::Joined room }"), Some(("magenta".to_string(), "::Joined room ".to_string())));
    assert_eq!(markup_parts("{fg=white }"), Some(("white".to_string(), "".to_string())));
    assert_eq!(markup_parts("{fg=white}"), None);
    assert_eq!(markup_parts("{bg=white x}"), None);
    assert_eq!(markup_parts("plain text"), None);
    assert_eq!(markup_parts("{fg=red x"), None);
}

#[test]
fn shown_lines_are_markup() {
    let mut ui = AppUi::new();
    ui.input = "/dance x".to_string();
    ui.handle_app_msg(AppMsg::Error("::Invalid command".to_string()), "bob");
    ui.handle_app_msg(AppMsg::Info("note".to_string()), "bob");
    assert_eq!(
        markup_parts(&ui.messages[0]),
        Some(("red".to_string(), "::Invalid command /dance x ".to_string()))
    );
    assert_eq!(markup_parts(&ui.messages[1]), Some(("magenta".to_string(), "note ".to_string())));
    assert_eq!(markup_parts(&ui.input_markup()), Some(("white".to_string(), "".to_string())));
}
