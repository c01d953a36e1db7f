# EasyTier edge relay

The protocol core of a relay for [EasyTier](https://easytier.cn) networks that runs at
the edge, behind one WebSocket endpoint. The core is a Verus library: what each
function does stands in its contract, and what holds of the relay as a whole stands
in the `law_` functions beside them.

- `src/` is the verified library.
  - `packet` frames, forwards and answers packets.
  - `crypto`, `noise`, `replay`, `traffic`, `session` and `secure` make up the secure
    connection of a peer: handshake, proof of the network secret, packet encryption
    and protection against replayed packets; `session_laws` states what holds of the
    sessions, whatever connections use them.
  - `route_state` and `peer_center` hold what is known of a network; `route_laws`
    states what holds of the routes.
  - `fragments` and `rpc` receive, serve and answer RPCs; `rpc_laws` states what holds
    of them, above all that networks are isolated from each other.
  - `proto` has the messages as plain values, `collections`, `bytes`, `bits`, `text`
    and `totals` what the other modules build on.
- `app/` makes the library a WebAssembly module: it reads the clock, draws random
  words, and encodes and decodes the messages.
- `tests/` run the library.

Cryptography, Base64, Noise and the random source are those of the crates named in
`Cargo.toml`. The functions of `crypto` and `noise` that call them are not verified;
their contracts say what is relied on.
