//! The messages that client and server exchange, one per line.

use vstd::prelude::*;
use vstd::string::*;
use crate::text::{trim, trim_start, trim_end, trim_str, is_white_space};

verus! {

/// The server's answer to a client that asked to join.
#[derive(Debug)]
pub struct NewClientResponse {
    pub id: String,
    pub response: bool,
}

/// A chat line as delivered to the other members of a room.
#[derive(Debug)]
pub struct MsgResponse {
    pub client_name: String,
    pub msg: String,
}

/// Messages sent between the client and the server.
#[derive(Debug)]
pub enum MsgProtocol {
    NewClientRequest(String),
    NewClientResponse(NewClientResponse),
    RequestRoomList(bool),
    ResponseRoomList(Vec<String>),
    LeaveCurrentRoom(bool),
    RequestCreateRoom(String),
    ResponseCreateRoom(bool),
    RequestJoinRoom(String),
    ResponseJoinRoom(bool),
    RequestTypedNewMessage(String),
    ResponseTypedMessage(MsgResponse),
}

/// What a [`NewClientResponse`] holds.
pub struct NewClientResponseView {
    pub id: Seq<char>,
    pub response: bool,
}

/// What a [`MsgResponse`] holds.
pub struct MsgResponseView {
    pub client_name: Seq<char>,
    pub msg: Seq<char>,
}

/// What a [`MsgProtocol`] holds, with each string taken by its characters.
pub enum MsgView {
    NewClientRequest(Seq<char>),
    NewClientResponse(NewClientResponseView),
    RequestRoomList(bool),
    ResponseRoomList(Seq<Seq<char>>),
    LeaveCurrentRoom(bool),
    RequestCreateRoom(Seq<char>),
    ResponseCreateRoom(bool),
    RequestJoinRoom(Seq<char>),
    ResponseJoinRoom(bool),
    RequestTypedNewMessage(Seq<char>),
    ResponseTypedMessage(MsgResponseView),
}

impl View for NewClientResponse {
    type V = NewClientResponseView;

    open spec fn view(&self) -> NewClientResponseView {
        NewClientResponseView { id: self.id@, response: self.response }
    }
}

impl View for MsgResponse {
    type V = MsgResponseView;

    open spec fn view(&self) -> MsgResponseView {
        MsgResponseView { client_name: self.client_name@, msg: self.msg@ }
    }
}

impl View for MsgProtocol {
    type V = MsgView;

    open spec fn view(&self) -> MsgView {
        match self {
            MsgProtocol::NewClientRequest(s) => MsgView::NewClientRequest(s@),
            MsgProtocol::NewClientResponse(r) => MsgView::NewClientResponse(r@),
            MsgProtocol::RequestRoomList(b) => MsgView::RequestRoomList(*b),
            MsgProtocol::ResponseRoomList(v) => MsgView::ResponseRoomList(
                v@.map_values(|s: String| s@),
            ),
            MsgProtocol::LeaveCurrentRoom(b) => MsgView::LeaveCurrentRoom(*b),
            MsgProtocol::RequestCreateRoom(s) => MsgView::RequestCreateRoom(s@),
            MsgProtocol::ResponseCreateRoom(b) => MsgView::ResponseCreateRoom(*b),
            MsgProtocol::RequestJoinRoom(s) => MsgView::RequestJoinRoom(s@),
            MsgProtocol::ResponseJoinRoom(b) => MsgView::ResponseJoinRoom(*b),
            MsgProtocol::RequestTypedNewMessage(s) => MsgView::RequestTypedNewMessage(s@),
            MsgProtocol::ResponseTypedMessage(r) => MsgView::ResponseTypedMessage(r@),
        }
    }
}

/// The line that carries the serialized message `json`: `json` and a line break.
pub open spec fn framed(json: Seq<char>) -> Seq<char> {
    json.push('\n')
}

impl MsgProtocol {
    /// Ends the serialized form of a message with the line break that
    /// separates messages on the wire.
    pub fn frame_line(json: &str) -> (line: String)
        ensures
            line@ == framed(json@),
    {
        let line = json.to_owned();
        proof {
            reveal_strlit("\n");
        }
        line.concat("\n")
    }

    /// The serialized message that a received line carries: the line without
    /// its leading and trailing white space.
    pub fn unframe_line(line: &str) -> (json: &str)
        ensures
            json@ == trim(line@),
    {
        trim_str(line)
    }

    /// The name that a client asks to be known by, when this message is its
    /// request to join; the server accepts no other first message.
    pub fn requested_client_name(&self) -> (name: Option<String>)
        ensures
            match self@ {
                MsgView::NewClientRequest(n) => name is Some && name->0@ == n,
                _ => name is None,
            },
    {
        match self {
            MsgProtocol::NewClientRequest(n) => Some(n.clone()),
            _ => None,
        }
    }
}

/// Trimming the front of a sequence with one more character at its end.
proof fn lemma_trim_start_push(s: Seq<char>, c: char)
    ensures
        trim_start(s.push(c)) == if trim_start(s).len() == 0 {
            if is_white_space(c) {
                Seq::<char>::empty()
            } else {
                seq![c]
            }
        } else {
            trim_start(s).push(c)
        },
    decreases s.len(),
{
    if s.len() == 0 {
        assert(s.push(c) =~= seq![c]);
        assert(seq![c].drop_first() =~= Seq::<char>::empty());
        assert(trim_start(Seq::<char>::empty()) == Seq::<char>::empty());
        assert(trim_start(s) == Seq::<char>::empty());
        assert(seq![c][0] == c);
    } else {
        assert(s.push(c)[0] == s[0]);
        assert(s.push(c).drop_first() =~= s.drop_first().push(c));
        if is_white_space(s[0]) {
            lemma_trim_start_push(s.drop_first(), c);
        }
    }
}

/// The message that a line carries is the message that was framed into it,
/// without surrounding white space; a serialized message without surrounding
/// white space comes back as it was.
pub proof fn law_unframe_undoes_frame(json: Seq<char>)
    ensures
        trim(framed(json)) == trim(json),
        (json.len() == 0 || (!is_white_space(json[0]) && !is_white_space(json.last())))
            ==> trim(framed(json)) == json,
{
    lemma_trim_start_push(json, '\n');
    let t = trim_start(json);
    if t.len() > 0 {
        assert(t.push('\n').drop_last() =~= t);
    }
    if json.len() > 0 && !is_white_space(json[0]) && !is_white_space(json.last()) {
        assert(trim_start(json) == json);
        assert(trim_end(json) == json);
    }
}

} // verus!
