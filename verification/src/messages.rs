//! The messages that the threads of the server, and those of the client,
//! were meant to pass among themselves.

use vstd::prelude::*;

verus! {

/// A connection to be known under `name`.
pub struct RegisterConnection {
    name: String,
}

/// A chat line.
pub struct Message {
    content: String,
}

/// What one thread of the server tells another.
pub enum ServerMsg {
    RegisterConnection(RegisterConnection),
    Message(Message),
}

/// A chat line typed on the client.
pub struct NewMessage {
    content: String,
}

/// What one thread of the client tells another.
pub enum InterThreadMsg {
    NewMessage(NewMessage),
}

} // verus!
