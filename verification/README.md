# rchat

A chat service with one server and many clients. Clients enter the room
`Lobby` when they connect, and can create rooms, move between them and list
them; a chat line reaches the other members of the sender's room.

- `src/` is the verified library: the rooms (`chat_rooms`), the server's
  decision for each event (`manager`), the client's decisions (`client`), the
  client's screen (`app_ui`), the line framing of the protocol (`protocol`),
  and the laws that tie the operations together (`room_laws`, `server_laws`).
- `app/` holds the programs around it: sockets, threads, the terminal, JSON.
  `rchat -h <host:port>` (or `rchat server -h <host:port>`) runs the server,
  `rchat client -h <host:port> [-n <name>]` a client; the same program
  installed as `rchat-client` runs a client with `-h <host:port> [-n <name>]`.

The rooms, their members and the connected clients are kept in `Vec`s in the
order in which they came, with "no name twice" as a proved invariant, where the
first version of the server used `HashMap` and `HashSet` with `String` keys.
vstd specifies those collections only for key types that obey its hash-table
model, which it grants to primitive integers, `bool` and boxes of them; for
`String` it can only be assumed, and this crate assumes nothing. Where the old
server's answers depended on hash order (which room is found first, the order
of the room list), this one answers in creation order.
