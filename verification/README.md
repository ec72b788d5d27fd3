# acfun_live_toolbox

A client library for AcFun live streaming, verified with Verus, and a small
command-line front end around it.

## Layout

- `src/` — the verified library.
  - `proto.rs`: the protobuf wire format (varints, fields, reading a message
    into its fields) and the laws that a written field reads back.
  - `messages.rs`: the messages of the danmaku link, their encodings and
    parsers; a packet header reads back as written.
  - `frame.rs`: keys, AES-256-CBC encryption of payloads, and the frame
    layout that the client writes and reads.
  - `client.rs`: the danmaku client's state and every request it sends.
  - `session.rs`: what the client does with each frame the server sends.
  - `signals.rs`: the events (comments, gifts, counters...) of pushed
    signals.
  - `query.rs`, `live.rs`: sorted query strings, request signatures and the
    requests of the live API.
  - `login.rs`: the QR login as a state machine.
  - `sdk.rs`, `commands.rs`, `text.rs`, `clock.rs`: the user and token,
    what the commands decide, decimal text, the machine's clock.
- `tests/` — tests of the library on concrete values.
- `app/` — the command-line program: HTTP, the SQLite store of the user, the
  TCP link and its heartbeat timer, and the JSON forms of the data.

The outside crates (`protobuf`, `aes`/`cbc`, `base64`, `hmac`/`sha2`,
`flate2`, `rand`) are called from the library through small wrappers whose
contracts state what their documentation and source show.
