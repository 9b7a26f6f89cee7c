//! What the client shows: the line being typed and the messages so far.

use vstd::prelude::*;
use vstd::string::*;
use crate::protocol::{MsgResponse, MsgResponseView};
use crate::text::{join_lines, join_lines_from, strings_view};

verus! {

/// What the screen of the client is told to show.
#[derive(Debug)]
pub enum AppMsg {
    Info(String),
    Error(String),
    Char(String),
    NewLine,
    BackSpace,
    ChatMsg(MsgResponse),
}

/// What an [`AppMsg`] holds.
pub enum AppMsgView {
    Info(Seq<char>),
    Error(Seq<char>),
    Char(Seq<char>),
    NewLine,
    BackSpace,
    ChatMsg(MsgResponseView),
}

impl View for AppMsg {
    type V = AppMsgView;

    open spec fn view(&self) -> AppMsgView {
        match self {
            AppMsg::Info(s) => AppMsgView::Info(s@),
            AppMsg::Error(s) => AppMsgView::Error(s@),
            AppMsg::Char(s) => AppMsgView::Char(s@),
            AppMsg::NewLine => AppMsgView::NewLine,
            AppMsg::BackSpace => AppMsgView::BackSpace,
            AppMsg::ChatMsg(r) => AppMsgView::ChatMsg(r@),
        }
    }
}

/// The screen of the client: the line being typed and the messages shown,
/// each in the markup of the text widget.
#[derive(Debug)]
pub struct AppUi {
    pub input: String,
    pub messages: Vec<String>,
}

/// What an [`AppUi`] holds.
pub struct AppUiView {
    pub input: Seq<char>,
    pub messages: Seq<Seq<char>>,
}

impl View for AppUi {
    type V = AppUiView;

    open spec fn view(&self) -> AppUiView {
        AppUiView { input: self.input@, messages: strings_view(self.messages@) }
    }
}

/// The last `height` of `messages` (all of them where there are fewer), one per line.
pub open spec fn displayed(messages: Seq<Seq<char>>, height: int) -> Seq<char> {
    if height > messages.len() {
        join_lines(messages)
    } else {
        join_lines(messages.subrange(messages.len() - height, messages.len() as int))
    }
}

/// The last character of `input` can be taken back: there is one, and it is
/// a single byte long.
pub open spec fn can_backspace(input: Seq<char>) -> bool {
    input.len() > 0 && (input.last() as u32) < 0x80
}

/// The screen can take `msg`: a backspace needs a character to take back.
pub open spec fn can_apply(ui: AppUiView, msg: AppMsgView) -> bool {
    match msg {
        AppMsgView::BackSpace => can_backspace(ui.input),
        _ => true,
    }
}

/// How a notice `info` is shown.
pub open spec fn info_line(info: Seq<char>) -> Seq<char> {
    "{fg=magenta "@ + info + " }"@
}

/// How a chat line `msg` of `client_name` is shown.
pub open spec fn chat_line(client_name: Seq<char>, msg: Seq<char>) -> Seq<char> {
    "{fg=green "@ + client_name + ": "@ + msg + "}"@
}

/// How a line `typed` by the user called `name` is shown.
pub open spec fn own_line(name: Seq<char>, typed: Seq<char>) -> Seq<char> {
    "{fg=white "@ + name + ": "@ + typed + "}"@
}

/// How a refused command `typed` is shown.
pub open spec fn refused_line(typed: Seq<char>) -> Seq<char> {
    "{fg=red ::Invalid command "@ + typed + " }"@
}

/// The screen after it takes `msg`, for the user called `name`.
pub open spec fn after_app_msg(ui: AppUiView, msg: AppMsgView, name: Seq<char>) -> AppUiView {
    match msg {
        AppMsgView::Char(c) => AppUiView { input: ui.input + c, messages: ui.messages },
        AppMsgView::BackSpace => AppUiView { input: ui.input.drop_last(), messages: ui.messages },
        AppMsgView::Info(info) => AppUiView {
            input: ui.input,
            messages: ui.messages.push(info_line(info)),
        },
        AppMsgView::ChatMsg(r) => AppUiView {
            input: ui.input,
            messages: ui.messages.push(chat_line(r.client_name, r.msg)),
        },
        AppMsgView::NewLine => AppUiView {
            input: Seq::empty(),
            messages: ui.messages.push(own_line(name, ui.input)),
        },
        AppMsgView::Error(_) => AppUiView {
            input: Seq::empty(),
            messages: ui.messages.push(refused_line(ui.input)),
        },
    }
}

/// A line of markup: the text `text` in the colour `color`.
pub open spec fn markup(color: Seq<char>, text: Seq<char>) -> Seq<char> {
    "{fg="@ + color + " "@ + text + "}"@
}

/// `k` is the first space of `s`.
pub open spec fn is_first_space(s: Seq<char>, k: int) -> bool {
    &&& 0 <= k < s.len()
    &&& s[k] == ' '
    &&& forall|j: int| 0 <= j < k ==> s[j] != ' '
}

/// The colour and the text of a line of markup: the line opens with `{fg=`,
/// the colour runs up to the first space after it, and the text from there to
/// the closing brace that ends the line. `None` for any other line.
pub open spec fn markup_parts_spec(line: Seq<char>) -> Option<(Seq<char>, Seq<char>)> {
    let inner = line.subrange(4, line.len() - 1);
    if line.len() >= 5 && line.take(4) == "{fg="@ && line.last() == '}' && exists|k: int|
        is_first_space(inner, k) {
        let k = choose|k: int| is_first_space(inner, k);
        Some((inner.take(k), inner.skip(k + 1)))
    } else {
        None
    }
}

impl AppUi {
    /// An empty screen.
    pub fn new() -> (ui: AppUi)
        ensures
            ui@.input == Seq::<char>::empty(),
            ui@.messages == Seq::<Seq<char>>::empty(),
    {
        let ui = AppUi { input: String::new(), messages: Vec::new() };
        assert(ui@.messages =~= Seq::<Seq<char>>::empty());
        ui
    }

    /// The last `height` messages (all of them where there are fewer), one per line.
    pub fn get_messages_for_display(&self, height: usize) -> (text: String)
        ensures
            text@ == displayed(self@.messages, height as int),
    {
        let start = if height > self.messages.len() {
            0
        } else {
            self.messages.len() - height
        };
        let text = join_lines_from(&self.messages, start);
        proof {
            let all = strings_view(self.messages@);
            if height > self.messages.len() {
                assert(all.subrange(0, all.len() as int) =~= all);
            }
        }
        text
    }

    /// Takes back the last character typed.
    pub fn backspace(&mut self)
        requires
            can_backspace(old(self)@.input),
        ensures
            final(self)@.input == old(self)@.input.drop_last(),
            final(self).messages == old(self).messages,
    {
        let n = self.input.as_str().unicode_len();
        let kept = self.input.as_str().substring_char(0, n - 1).to_owned();
        self.input = kept;
    }

    /// The line being typed, in the markup of the text widget.
    pub fn input_markup(&self) -> (markup: String)
        ensures
            markup@ == "{fg=white "@ + self@.input + "}"@,
    {
        let mut markup = "{fg=white ".to_owned();
        markup.append(self.input.as_str());
        markup.append("}");
        markup
    }

    /// Takes one message for the screen, for the user called `name`.
    pub fn handle_app_msg(&mut self, app_msg: AppMsg, name: &str)
        requires
            can_apply(old(self)@, app_msg@),
        ensures
            final(self)@ == after_app_msg(old(self)@, app_msg@, name@),
    {
        let ghost before = self@;
        match app_msg {
            AppMsg::Char(some_char) => {
                self.input.append(some_char.as_str());
            },
            AppMsg::BackSpace => {
                self.backspace();
            },
            AppMsg::Info(info) => {
                let mut line = "{fg=magenta ".to_owned();
                line.append(info.as_str());
                line.append(" }");
                self.messages.push(line);
            },
            AppMsg::ChatMsg(response) => {
                let mut line = "{fg=green ".to_owned();
                line.append(response.client_name.as_str());
                line.append(": ");
                line.append(response.msg.as_str());
                line.append("}");
                self.messages.push(line);
            },
            AppMsg::NewLine => {
                let drained = self.input.clone();
                self.input = String::new();
                let mut line = "{fg=white ".to_owned();
                line.append(name);
                line.append(": ");
                line.append(drained.as_str());
                line.append("}");
                self.messages.push(line);
            },
            AppMsg::Error(_) => {
                let copy = self.input.clone();
                self.input = String::new();
                let mut line = "{fg=red ::Invalid command ".to_owned();
                line.append(copy.as_str());
                line.append(" }");
                self.messages.push(line);
            },
        }
        proof {
            assert(self@.messages =~= after_app_msg(before, app_msg@, name@).messages);
            assert(self@.input =~= after_app_msg(before, app_msg@, name@).input);
        }
    }
}

/// The colour and the text of a line of markup.
pub fn markup_parts(line: &str) -> (parts: Option<(String, String)>)
    ensures
        match markup_parts_spec(line@) {
            Some((color, text)) => parts matches Some((c, t)) && c@ == color && t@ == text,
            None => parts is None,
        },
{
    proof {
        reveal_strlit("{fg=");
    }
    let n = line.unicode_len();
    if n < 5 || line.get_char(n - 1) != '}' {
        return None;
    }
    if line.get_char(0) != '{' || line.get_char(1) != 'f' || line.get_char(2) != 'g' || line.get_char(3) != '=' {
        proof {
            if line@.take(4) == "{fg="@ {
                assert(line@.take(4)[0] == line@[0]);
                assert(line@.take(4)[1] == line@[1]);
                assert(line@.take(4)[2] == line@[2]);
                assert(line@.take(4)[3] == line@[3]);
            }
        }
        return None;
    }
    assert(line@.take(4) =~= "{fg="@);
    let ghost inner = line@.subrange(4, n - 1);
    let mut k: usize = 4;
    while k < n - 1
        invariant
            4 <= k <= n - 1,
            n == line@.len(),
            n >= 5,
            line@.take(4) == "{fg="@,
            line@.last() == '}',
            inner == line@.subrange(4, n - 1),
            forall|j: int| 0 <= j < k - 4 ==> inner[j] != ' ',
        decreases n - 1 - k,
    {
        if line.get_char(k) == ' ' {
            assert(is_first_space(inner, k - 4));
            let color = line.substring_char(4, k).to_owned();
            let text = line.substring_char(k + 1, n - 1).to_owned();
            proof {
                let c = choose|c: int| is_first_space(inner, c);
                assert(c == k - 4);
                assert(inner.take(k - 4) =~= line@.subrange(4, k as int));
                assert(inner.skip(k - 3) =~= line@.subrange(k + 1, n - 1));
            }
            return Some((color, text));
        }
        k = k + 1;
    }
    None
}

/// The colour and the text of a line of markup come back out of it, where
/// the colour has no space in it.
pub proof fn law_markup_parts_undo_markup(color: Seq<char>, text: Seq<char>)
    requires
        !color.contains(' '),
    ensures
        markup_parts_spec(markup(color, text)) == Some((color, text)),
{
    reveal_strlit("{fg=");
    reveal_strlit(" ");
    reveal_strlit("}");
    let line = markup(color, text);
    let inner = line.subrange(4, line.len() - 1);
    assert(inner =~= color + seq![' '] + text);
    assert(line.take(4) =~= "{fg="@);
    assert(is_first_space(inner, color.len() as int)) by {
        assert forall|j: int| 0 <= j < color.len() implies inner[j] != ' ' by {
            assert(inner[j] == color[j]);
        }
    }
    let k = choose|k: int| is_first_space(inner, k);
    assert(k == color.len());
    assert(inner.take(k) =~= color);
    assert(inner.skip(k + 1) =~= text);
}

/// Every line that the screen shows is a line of markup, colour and text.
pub proof fn law_shown_lines_are_markup(info: Seq<char>, name: Seq<char>, msg: Seq<char>)
    ensures
        info_line(info) == markup("magenta"@, info + " "@),
        chat_line(name, msg) == markup("green"@, name + ": "@ + msg),
        own_line(name, msg) == markup("white"@, name + ": "@ + msg),
        refused_line(msg) == markup("red"@, "::Invalid command "@ + msg + " "@),
{
    reveal_strlit("{fg=magenta ");
    reveal_strlit("{fg=green ");
    reveal_strlit("{fg=white ");
    reveal_strlit("{fg=red ::Invalid command ");
    reveal_strlit("{fg=");
    reveal_strlit("magenta");
    reveal_strlit("green");
    reveal_strlit("white");
    reveal_strlit("red");
    reveal_strlit("::Invalid command ");
    reveal_strlit(" ");
    reveal_strlit(" }");
    reveal_strlit("}");
    reveal_strlit(": ");
    assert(info_line(info) =~= markup("magenta"@, info + " "@));
    assert(chat_line(name, msg) =~= markup("green"@, name + ": "@ + msg));
    assert(own_line(name, msg) =~= markup("white"@, name + ": "@ + msg));
    assert(refused_line(msg) =~= markup("red"@, "::Invalid command "@ + msg + " "@));
}

/// A character typed and then taken back leaves the screen as it was.
pub proof fn law_backspace_undoes_char(ui: AppUiView, c: char, name: Seq<char>)
    requires
        (c as u32) < 0x80,
    ensures
        can_apply(after_app_msg(ui, AppMsgView::Char(seq![c]), name), AppMsgView::BackSpace),
        after_app_msg(after_app_msg(ui, AppMsgView::Char(seq![c]), name), AppMsgView::BackSpace, name)
            == ui,
{
    assert((ui.input + seq![c]).drop_last() =~= ui.input);
}

/// A screen taller than the number of messages shows them all.
pub proof fn law_display_shows_all_when_room(messages: Seq<Seq<char>>, height: int)
    requires
        height >= messages.len(),
    ensures
        displayed(messages, height) == join_lines(messages),
{
    assert(messages.subrange(0, messages.len() as int) =~= messages);
}

} // verus!
