//! A chat service: the room bookkeeping and message routing of the server,
//! the command handling and screen state of the client, and the framing of
//! the line-based protocol that connects them.

pub mod text;
pub mod protocol;
pub mod chat_rooms;
pub mod room_laws;
pub mod manager;
pub mod server_laws;
pub mod app_ui;
pub mod client;
pub mod messages;
