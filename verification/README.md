# aight

A small instant messenger: clients log in with a user id, send text to other users
(`:to <id> <text>`), ask for it back (`:echo <text>`) or leave (`:exit`), and a server
relays it.

Frames travel as protobuf messages, each preceded by its length as a varint. The library
in `src/` holds the protocol and the decisions of client and server, with their contracts
proved by Verus:

- `varint`, `wire`, `message`, `types`, `msg_types`: varints, protobuf fields, decoding a
  message field by field, the messages of the protocol and the frames built from them;
  decoding what was encoded gives it back.
- `codec`: splitting a byte buffer into frames and writing frames into it.
- `text`, `client`: command lines of the client, and how text from the server is shown.
- `server`: what a frame means to the server, who is online, what to write to whom, and
  the life of a connection.
- `line_server`, `chat_server`: two servers of plain-text line protocols.
- `buffer`: the `bytes::BytesMut` buffer the codecs work on.

`app/` holds the programs around it (sockets, stdin and stdout, tasks):
`aight server`, `aight client <id>`, `aight line-server`, `aight chat-server`.
