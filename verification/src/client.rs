//! The decisions of the client: what a typed line asks for, and where each
//! message from the server goes.

use vstd::prelude::*;
use vstd::string::*;
use crate::app_ui::{AppMsg, AppMsgView, can_backspace};
use crate::protocol::{MsgProtocol, MsgView};
use crate::text::{str_eq, strings_view, push_char};

verus! {

/// The shape of a command line: a slash, the command, a space, its argument.
pub const COMMAND_PATTERN: &'static str = "/(.*) (.*)";

/// What a line typed by the user asks for.
#[derive(Debug)]
pub enum LineAction {
    /// Send this to the server.
    Send(MsgProtocol),
    /// Show this on the screen.
    Notify(AppMsg),
    /// Stop reading the keyboard.
    Exit,
    /// Nothing to do.
    Nothing,
}

/// What a [`LineAction`] holds.
pub enum LineActionView {
    Send(MsgView),
    Notify(AppMsgView),
    Exit,
    Nothing,
}

impl View for LineAction {
    type V = LineActionView;

    open spec fn view(&self) -> LineActionView {
        match self {
            LineAction::Send(m) => LineActionView::Send(m@),
            LineAction::Notify(a) => LineActionView::Notify(a@),
            LineAction::Exit => LineActionView::Exit,
            LineAction::Nothing => LineActionView::Nothing,
        }
    }
}

/// The capture groups 1 and 2 of the first match of `pattern` in `haystack`,
/// as `regex::Regex::new` and `regex::Regex::captures` find them: `None` where
/// the pattern does not compile, `Some(None)` where nothing matches, and a
/// group that took no part in the match as `None`.
pub uninterp spec fn regex_first_two_groups(pattern: Seq<char>, haystack: Seq<char>) -> Option<
    Option<(Option<Seq<char>>, Option<Seq<char>>)>,
>;

/// The characters of each captured group.
pub open spec fn groups_view(groups: Option<Option<(Option<String>, Option<String>)>>) -> Option<
    Option<(Option<Seq<char>>, Option<Seq<char>>)>,
> {
    match groups {
        None => None,
        Some(None) => Some(None),
        Some(Some((a, b))) => Some(
            Some(
                (
                    match a {
                        Some(s) => Some(s@),
                        None => None,
                    },
                    match b {
                        Some(s) => Some(s@),
                        None => None,
                    },
                ),
            ),
        ),
    }
}

/// Where the first line break at or after position `i` of `h` stands; the
/// length of `h` where there is none.
pub open spec fn line_break_from(h: Seq<char>, i: int) -> int
    decreases h.len() - i,
{
    if i < 0 || i >= h.len() {
        h.len() as int
    } else if h[i] == '\n' {
        i
    } else {
        line_break_from(h, i + 1)
    }
}

/// The last space of `h` at a position from `lo` up to before `hi`; -1 where
/// there is none.
pub open spec fn last_space_before(h: Seq<char>, lo: int, hi: int) -> int
    decreases hi - lo,
{
    if hi <= lo {
        -1
    } else if h[hi - 1] == ' ' {
        hi - 1
    } else {
        last_space_before(h, lo, hi - 1)
    }
}

/// The first position from `p` on where `/(.*) (.*)` matches in `h`: a slash
/// with a space after it on the same line.
pub open spec fn slash_match_from(h: Seq<char>, p: int) -> Option<int>
    decreases h.len() - p,
{
    if p < 0 || p >= h.len() {
        None
    } else if h[p] == '/' && last_space_before(h, p + 1, line_break_from(h, p + 1)) >= 0 {
        Some(p)
    } else {
        slash_match_from(h, p + 1)
    }
}

/// The groups of `/(.*) (.*)` in `h`, as the `regex` crate's documentation
/// gives them (leftmost-first search, greedy `*`, `.` any character but a
/// line break): the match starts at the first slash that has a space after it
/// on its line; group 1 runs from after the slash to the last space of that
/// line, group 2 from after that space to the end of the line. `None` where
/// there is no match.
pub open spec fn slash_command_groups(h: Seq<char>) -> Option<(Option<Seq<char>>, Option<Seq<char>>)> {
    match slash_match_from(h, 0) {
        Some(p) => {
            let e = line_break_from(h, p + 1);
            let q = last_space_before(h, p + 1, e);
            Some((Some(h.subrange(p + 1, q)), Some(h.subrange(q + 1, e))))
        },
        None => None,
    }
}

/// Compiles `pattern` with `regex::Regex::new` and returns the groups 1 and 2
/// of `regex::Regex::captures` on `haystack`. Claimed: the result is
/// [`regex_first_two_groups`] of the two arguments; and, for the pattern
/// `/(.*) (.*)`, that it compiles and captures [`slash_command_groups`].
#[verifier::external_body]
fn first_two_groups(pattern: &str, haystack: &str) -> (groups: Option<
    Option<(Option<String>, Option<String>)>,
>)
    ensures
        groups_view(groups) == regex_first_two_groups(pattern@, haystack@),
        pattern@ == "/(.*) (.*)"@ ==> groups_view(groups) == Some(slash_command_groups(haystack@)),
{
    match regex::Regex::new(pattern) {
        Ok(re) => Some(
            re.captures(haystack).map(
                |c| (c.get(1).map(|m| m.as_str().to_string()), c.get(2).map(|m| m.as_str().to_string())),
            ),
        ),
        Err(_) => None,
    }
}

/// The line starts with a slash, which makes it a command.
pub open spec fn is_command(line: Seq<char>) -> bool {
    line.len() > 0 && line[0] == '/'
}

/// What the command `command` with the argument `argument` asks for.
pub open spec fn command_action_spec(command: Seq<char>, argument: Seq<char>) -> LineActionView {
    if command == "join"@ {
        LineActionView::Send(MsgView::RequestJoinRoom(argument))
    } else if command == "create"@ {
        LineActionView::Send(MsgView::RequestCreateRoom(argument))
    } else if command == "list"@ {
        LineActionView::Send(MsgView::RequestRoomList(true))
    } else if command == "exit"@ {
        LineActionView::Exit
    } else {
        LineActionView::Notify(AppMsgView::Error("::Invalid command"@))
    }
}

/// What a command line asks for, given the groups that the command pattern
/// captured in it: nothing unless both groups were captured.
pub open spec fn groups_action(groups: Option<Option<(Option<Seq<char>>, Option<Seq<char>>)>>) -> LineActionView {
    match groups {
        Some(Some((Some(command), Some(argument)))) => command_action_spec(command, argument),
        _ => LineActionView::Nothing,
    }
}

/// What the typed line `line` asks for: a command where it starts with a
/// slash, matched against [`COMMAND_PATTERN`] with a line break after it;
/// otherwise a chat line with the line as it is.
pub open spec fn line_action_spec(line: Seq<char>) -> LineActionView {
    if is_command(line) {
        groups_action(Some(slash_command_groups(line + "\n"@)))
    } else {
        LineActionView::Send(MsgView::RequestTypedNewMessage(line))
    }
}

/// With no line break from `i` up to `e`, and one at `e` (or `e` the end),
/// the first line break from `i` on is at `e`.
proof fn lemma_line_break_at(h: Seq<char>, i: int, e: int)
    requires
        0 <= i <= e <= h.len(),
        e < h.len() ==> h[e] == '\n',
        forall|k: int| i <= k < e ==> h[k] != '\n',
    ensures
        line_break_from(h, i) == e,
    decreases e - i,
{
    if i < e {
        lemma_line_break_at(h, i + 1, e);
    }
}

/// With a space at `q` and none after it up to before `hi`, the last space
/// from `lo` up to before `hi` is at `q`.
proof fn lemma_last_space_at(h: Seq<char>, lo: int, hi: int, q: int)
    requires
        lo <= q < hi <= h.len(),
        0 <= q,
        h[q] == ' ',
        forall|k: int| q < k < hi ==> h[k] != ' ',
    ensures
        last_space_before(h, lo, hi) == q,
    decreases hi - q,
{
    if hi - 1 > q {
        lemma_last_space_at(h, lo, hi - 1, q);
    }
}

/// With no space from `lo` up to before `hi`, there is no last space there.
proof fn lemma_no_space(h: Seq<char>, lo: int, hi: int)
    requires
        0 <= lo,
        hi <= h.len(),
        forall|k: int| lo <= k < hi ==> h[k] != ' ',
    ensures
        last_space_before(h, lo, hi) == -1,
    decreases hi - lo,
{
    if hi > lo {
        lemma_no_space(h, lo, hi - 1);
    }
}

/// A one-line command `/command argument` asks for what `command` names with
/// that argument, the two split at the last space of the line.
pub proof fn law_command_line_splits_at_last_space(line: Seq<char>, q: int)
    requires
        is_command(line),
        forall|k: int| 0 <= k < line.len() ==> line[k] != '\n',
        1 <= q < line.len(),
        line[q] == ' ',
        forall|k: int| q < k < line.len() ==> line[k] != ' ',
    ensures
        line_action_spec(line) == command_action_spec(
            line.subrange(1, q),
            line.subrange(q + 1, line.len() as int),
        ),
{
    reveal_strlit("\n");
    let h = line + "\n"@;
    let n = line.len() as int;
    assert(h.len() == n + 1);
    assert(h[n] == '\n');
    lemma_line_break_at(h, 1, n);
    lemma_last_space_at(h, 1, n, q);
    assert(slash_match_from(h, 0) == Some(0int));
    assert(h.subrange(1, q) =~= line.subrange(1, q));
    assert(h.subrange(q + 1, n) =~= line.subrange(q + 1, n));
}

/// A one-line command without a space in it asks for nothing.
pub proof fn law_command_line_without_space(line: Seq<char>)
    requires
        is_command(line),
        forall|k: int| 0 <= k < line.len() ==> line[k] != '\n' && line[k] != ' ',
    ensures
        line_action_spec(line) == LineActionView::Nothing,
{
    reveal_strlit("\n");
    let h = line + "\n"@;
    let n = line.len() as int;
    assert(h.len() == n + 1);
    assert forall|p: int| 0 <= p <= n implies slash_match_from(h, p) is None by {
        lemma_no_match_from(h, p, n);
    }
}

/// A line that does not start with a slash is a chat line, sent to the server
/// exactly as it was typed, whatever else it holds.
pub proof fn law_plain_line_is_sent_as_typed(line: Seq<char>)
    requires
        line.len() == 0 || line[0] != '/',
    ensures
        line_action_spec(line) == LineActionView::Send(MsgView::RequestTypedNewMessage(line)),
{
}

/// A one-line command `/command argument`, split at its last space, does what
/// the command names: `join` and `create` ask the server for the room named by
/// the argument, `list` asks for the room list, `exit` stops, and any other
/// command is refused with a notice.
pub proof fn law_commands_do_what_they_name(line: Seq<char>, q: int)
    requires
        line.len() > 0,
        line[0] == '/',
        forall|k: int| 0 <= k < line.len() ==> line[k] != '\n',
        1 <= q < line.len(),
        line[q] == ' ',
        forall|k: int| q < k < line.len() ==> line[k] != ' ',
    ensures
        line.subrange(1, q) == "join"@ ==> line_action_spec(line) == LineActionView::Send(
            MsgView::RequestJoinRoom(line.subrange(q + 1, line.len() as int)),
        ),
        line.subrange(1, q) == "create"@ ==> line_action_spec(line) == LineActionView::Send(
            MsgView::RequestCreateRoom(line.subrange(q + 1, line.len() as int)),
        ),
        line.subrange(1, q) == "list"@ ==> line_action_spec(line) == LineActionView::Send(
            MsgView::RequestRoomList(true),
        ),
        line.subrange(1, q) == "exit"@ ==> line_action_spec(line) == LineActionView::Exit,
        (line.subrange(1, q) != "join"@ && line.subrange(1, q) != "create"@ && line.subrange(1, q)
            != "list"@ && line.subrange(1, q) != "exit"@) ==> line_action_spec(line)
            == LineActionView::Notify(AppMsgView::Error("::Invalid command"@)),
{
    law_command_line_splits_at_last_space(line, q);
    reveal_strlit("join");
    reveal_strlit("create");
    reveal_strlit("list");
    reveal_strlit("exit");
    assert("create"@.len() != "join"@.len());
    assert("list"@[0] != "join"@[0]);
    assert("list"@.len() != "create"@.len());
    assert("exit"@[0] != "join"@[0]);
    assert("exit"@.len() != "create"@.len());
    assert("exit"@[0] != "list"@[0]);
}

/// Where no space stands before the last position `n`, and a line break stands
/// there, nothing matches from `p` on.
proof fn lemma_no_match_from(h: Seq<char>, p: int, n: int)
    requires
        0 <= p <= n,
        h.len() == n + 1,
        h[n] == '\n',
        forall|k: int| 0 <= k < n ==> h[k] != '\n' && h[k] != ' ',
    ensures
        slash_match_from(h, p) is None,
    decreases n + 1 - p,
{
    if p < n {
        lemma_line_break_at(h, p + 1, n);
        lemma_no_space(h, p + 1, n);
        lemma_no_match_from(h, p + 1, n);
    } else {
        assert(slash_match_from(h, p + 1) is None);
    }
}

/// What the command `command` with the argument `argument` asks for.
pub fn command_action(command: &str, argument: &str) -> (action: LineAction)
    ensures
        action@ == command_action_spec(command@, argument@),
{
    if str_eq(command, "join") {
        LineAction::Send(MsgProtocol::RequestJoinRoom(argument.to_owned()))
    } else if str_eq(command, "create") {
        LineAction::Send(MsgProtocol::RequestCreateRoom(argument.to_owned()))
    } else if str_eq(command, "list") {
        LineAction::Send(MsgProtocol::RequestRoomList(true))
    } else if str_eq(command, "exit") {
        LineAction::Exit
    } else {
        LineAction::Notify(AppMsg::Error("::Invalid command".to_owned()))
    }
}

/// What a command line asks for, given the groups that the command pattern
/// captured in it.
pub fn action_for_groups(groups: Option<Option<(Option<String>, Option<String>)>>) -> (action: LineAction)
    ensures
        action@ == groups_action(groups_view(groups)),
{
    match groups {
        Some(Some((Some(command), Some(argument)))) => command_action(command.as_str(), argument.as_str()),
        _ => LineAction::Nothing,
    }
}

/// What the typed line `line` asks for.
pub fn line_action(line: &str) -> (action: LineAction)
    ensures
        action@ == line_action_spec(line@),
{
    let n = line.unicode_len();
    if n > 0 && line.get_char(0) == '/' {
        let haystack = line.to_owned();
        proof {
            reveal_strlit("\n");
        }
        let haystack = haystack.concat("\n");
        let groups = first_two_groups(COMMAND_PATTERN, haystack.as_str());
        action_for_groups(groups)
    } else {
        LineAction::Send(MsgProtocol::RequestTypedNewMessage(line.to_owned()))
    }
}

/// The line that the user is typing, as the keyboard builds it.
#[derive(Debug)]
pub struct InputLine {
    pub text: String,
}

impl InputLine {
    /// An empty line.
    pub fn new() -> (line: InputLine)
        ensures
            line.text@ == Seq::<char>::empty(),
    {
        InputLine { text: String::new() }
    }

    /// The user types `c`: it goes at the end of the line, and the screen is
    /// told of it.
    pub fn type_char(&mut self, c: char) -> (shown: AppMsg)
        ensures
            final(self).text@ == old(self).text@.push(c),
            shown@ == AppMsgView::Char(seq![c]),
    {
        push_char(&mut self.text, c);
        let m = self.text.as_str().unicode_len();
        let typed = self.text.as_str().substring_char(m - 1, m).to_owned();
        assert(typed@ =~= seq![c]);
        AppMsg::Char(typed)
    }

    /// The user takes back the last character, where there is one, and the
    /// screen is told of it.
    pub fn erase(&mut self) -> (shown: Option<AppMsg>)
        requires
            old(self).text@.len() == 0 || can_backspace(old(self).text@),
        ensures
            old(self).text@.len() == 0 ==> shown is None && final(self).text@ == old(self).text@,
            old(self).text@.len() > 0 ==> (shown matches Some(m) && m@ == AppMsgView::BackSpace
                && final(self).text@ == old(self).text@.drop_last()),
    {
        let n = self.text.as_str().unicode_len();
        if n == 0 {
            return None;
        }
        let kept = self.text.as_str().substring_char(0, n - 1).to_owned();
        self.text = kept;
        Some(AppMsg::BackSpace)
    }

    /// The user ends the line: what it asks for, and an empty line to go on
    /// with. The screen takes a line break after it, unless it asks to exit.
    pub fn enter(&mut self) -> (action: LineAction)
        ensures
            action@ == line_action_spec(old(self).text@),
            final(self).text@ == Seq::<char>::empty(),
    {
        let action = line_action(self.text.as_str());
        self.text = String::new();
        action
    }
}

/// Where a message from the server, or from the keyboard, goes.
#[derive(Debug)]
pub enum ClientRoute {
    /// Write it to the server.
    ToServer(MsgProtocol),
    /// Show these on the screen.
    ToScreen(Vec<AppMsg>),
    /// Drop it.
    Drop,
}

/// What a [`ClientRoute`] holds.
pub enum ClientRouteView {
    ToServer(MsgView),
    ToScreen(Seq<AppMsgView>),
    Drop,
}

/// What each of `msgs` holds.
pub open spec fn app_msgs_view(msgs: Seq<AppMsg>) -> Seq<AppMsgView> {
    msgs.map_values(|m: AppMsg| m@)
}

impl View for ClientRoute {
    type V = ClientRouteView;

    open spec fn view(&self) -> ClientRouteView {
        match self {
            ClientRoute::ToServer(m) => ClientRouteView::ToServer(m@),
            ClientRoute::ToScreen(v) => ClientRouteView::ToScreen(app_msgs_view(v@)),
            ClientRoute::Drop => ClientRouteView::Drop,
        }
    }
}

/// How one room of a room list is shown.
pub open spec fn room_list_entry(name: Seq<char>) -> AppMsgView {
    AppMsgView::Info("- "@ + name)
}

/// Where `msg` goes: requests to the server, answers to the screen.
pub open spec fn route_spec(msg: MsgView) -> ClientRouteView {
    match msg {
        MsgView::RequestTypedNewMessage(_) => ClientRouteView::ToServer(msg),
        MsgView::RequestRoomList(_) => ClientRouteView::ToServer(msg),
        MsgView::RequestCreateRoom(_) => ClientRouteView::ToServer(msg),
        MsgView::RequestJoinRoom(_) => ClientRouteView::ToServer(msg),
        MsgView::ResponseTypedMessage(r) => ClientRouteView::ToScreen(seq![AppMsgView::ChatMsg(r)]),
        MsgView::ResponseCreateRoom(ok) => ClientRouteView::ToScreen(
            seq![
                AppMsgView::Info(
                    if ok {
                        "::Created room"@
                    } else {
                        "::Room allready exists"@
                    },
                ),
            ],
        ),
        MsgView::ResponseJoinRoom(ok) => ClientRouteView::ToScreen(
            seq![
                AppMsgView::Info(
                    if ok {
                        "::Joined room"@
                    } else {
                        "::Could not join room"@
                    },
                ),
            ],
        ),
        MsgView::ResponseRoomList(names) => ClientRouteView::ToScreen(
            seq![AppMsgView::Info("::Rooms available are"@)] + names.map_values(
                |n: Seq<char>| room_list_entry(n),
            ),
        ),
        _ => ClientRouteView::Drop,
    }
}

/// Where `msg` goes, once the server has accepted the client.
pub fn route_message(msg: MsgProtocol) -> (route: ClientRoute)
    ensures
        route@ == route_spec(msg@),
{
    match msg {
        MsgProtocol::RequestTypedNewMessage(_) => ClientRoute::ToServer(msg),
        MsgProtocol::RequestRoomList(_) => ClientRoute::ToServer(msg),
        MsgProtocol::RequestCreateRoom(_) => ClientRoute::ToServer(msg),
        MsgProtocol::RequestJoinRoom(_) => ClientRoute::ToServer(msg),
        MsgProtocol::ResponseTypedMessage(r) => {
            let mut shown: Vec<AppMsg> = Vec::new();
            shown.push(AppMsg::ChatMsg(r));
            proof {
                assert(app_msgs_view(shown@) =~= seq![AppMsgView::ChatMsg(r@)]);
            }
            ClientRoute::ToScreen(shown)
        },
        MsgProtocol::ResponseCreateRoom(ok) => {
            let text = if ok {
                "::Created room".to_owned()
            } else {
                "::Room allready exists".to_owned()
            };
            let mut shown: Vec<AppMsg> = Vec::new();
            shown.push(AppMsg::Info(text));
            proof {
                assert(app_msgs_view(shown@) =~= seq![AppMsgView::Info(text@)]);
            }
            ClientRoute::ToScreen(shown)
        },
        MsgProtocol::ResponseJoinRoom(ok) => {
            let text = if ok {
                "::Joined room".to_owned()
            } else {
                "::Could not join room".to_owned()
            };
            let mut shown: Vec<AppMsg> = Vec::new();
            shown.push(AppMsg::Info(text));
            proof {
                assert(app_msgs_view(shown@) =~= seq![AppMsgView::Info(text@)]);
            }
            ClientRoute::ToScreen(shown)
        },
        MsgProtocol::ResponseRoomList(names) => {
            let mut shown: Vec<AppMsg> = Vec::new();
            shown.push(AppMsg::Info("::Rooms available are".to_owned()));
            let ghost all = strings_view(names@);
            let ghost f = |n: Seq<char>| room_list_entry(n);
            let mut k: usize = 0;
            while k < names.len()
                invariant
                    k <= names@.len(),
                    all == strings_view(names@),
                    f == (|n: Seq<char>| room_list_entry(n)),
                    shown@.len() == k + 1,
                    app_msgs_view(shown@) == seq![AppMsgView::Info("::Rooms available are"@)]
                        + all.take(k as int).map_values(f),
                decreases names@.len() - k,
            {
                let ghost prev = app_msgs_view(shown@);
                let mut entry = "- ".to_owned();
                entry.append(names[k].as_str());
                shown.push(AppMsg::Info(entry));
                proof {
                    assert(app_msgs_view(shown@) =~= prev.push(f(all[k as int])));
                    assert(all.take(k + 1).map_values(f) =~= all.take(k as int).map_values(f).push(
                        f(all[k as int]),
                    ));
                }
                k = k + 1;
            }
            assert(all.take(names@.len() as int) =~= all);
            ClientRoute::ToScreen(shown)
        },
        _ => ClientRoute::Drop,
    }
}

/// The notices that tell the user it was accepted and which commands it has.
pub open spec fn welcome_notices() -> Seq<AppMsgView> {
    seq![
        AppMsgView::Info("::Server allowed access!"@),
        AppMsgView::Info("::Chat commands availbale: "@),
        AppMsgView::Info(" /create <room_name> : Create a new room"@),
        AppMsgView::Info(" /join <room_name>   : Join a new room"@),
        AppMsgView::Info(" /list rooms         : list all rooms"@),
    ]
}

/// What the first message from the server means: the welcome notices where
/// it accepts the client, and the notice of refusal otherwise.
pub fn admission_notices(first: &MsgProtocol) -> (notices: Result<Vec<AppMsg>, AppMsg>)
    ensures
        match first@ {
            MsgView::NewClientResponse(_) => notices is Ok && app_msgs_view(notices->Ok_0@)
                == welcome_notices(),
            _ => notices is Err && notices->Err_0@ == AppMsgView::Error(
                "::Server denied access!"@,
            ),
        },
{
    match first {
        MsgProtocol::NewClientResponse(_) => {
            let mut shown: Vec<AppMsg> = Vec::new();
            shown.push(AppMsg::Info("::Server allowed access!".to_owned()));
            shown.push(AppMsg::Info("::Chat commands availbale: ".to_owned()));
            shown.push(AppMsg::Info(" /create <room_name> : Create a new room".to_owned()));
            shown.push(AppMsg::Info(" /join <room_name>   : Join a new room".to_owned()));
            shown.push(AppMsg::Info(" /list rooms         : list all rooms".to_owned()));
            assert(app_msgs_view(shown@) =~= welcome_notices());
            Ok(shown)
        },
        _ => Err(AppMsg::Error("::Server denied access!".to_owned())),
    }
}

/// Every request goes to the server exactly as it is.
pub proof fn law_requests_go_to_server_unchanged(msg: MsgView)
    requires
        msg is RequestTypedNewMessage || msg is RequestRoomList || msg is RequestCreateRoom
            || msg is RequestJoinRoom,
    ensures
        route_spec(msg) == ClientRouteView::ToServer(msg),
{
}

/// Every answer of the server goes to the screen and none to the server: a
/// chat line as it came, and a room list as a heading and then one line per
/// room, in the order of the list, each naming its room.
pub proof fn law_answers_go_to_screen(msg: MsgView)
    ensures
        (msg is ResponseTypedMessage || msg is ResponseCreateRoom || msg is ResponseJoinRoom
            || msg is ResponseRoomList) ==> route_spec(msg) is ToScreen,
        msg matches MsgView::ResponseTypedMessage(r) ==> route_spec(msg) == ClientRouteView::ToScreen(
            seq![AppMsgView::ChatMsg(r)],
        ),
        msg matches MsgView::ResponseRoomList(names) ==> (route_spec(msg) matches ClientRouteView::ToScreen(
            shown,
        ) && shown.len() == names.len() + 1 && shown[0] == AppMsgView::Info(
            "::Rooms available are"@,
        ) && forall|k: int|
            0 <= k < names.len() ==> #[trigger] shown[k + 1] == AppMsgView::Info("- "@ + names[k])),
        !(msg is ResponseTypedMessage || msg is ResponseCreateRoom || msg is ResponseJoinRoom
            || msg is ResponseRoomList || msg is RequestTypedNewMessage || msg is RequestRoomList
            || msg is RequestCreateRoom || msg is RequestJoinRoom) ==> route_spec(msg)
            == ClientRouteView::Drop,
{
}

} // verus!
