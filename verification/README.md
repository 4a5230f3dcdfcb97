# qvole

Pipes, remote commands and TCP tunnels between two peers, over QUIC and
through NATs. The peers share a short code. They meet at a UDP relay, agree on
keys with SPAKE2, punch holes through their NATs, and connect directly.

The decisions, parsers and state of the program are a library verified with
[Verus](https://github.com/verus-lang/verus). Sockets, processes, TLS and the
asynchronous runtime are ordinary Rust around it.

## Layout

- `src/` is the verified library.
  - The relay: `packet` takes datagrams apart, `room`, `rooms`, `links` and
    `pending` hold the state, `model` says what a datagram does, `relay` and
    `relay_state` do it, `relay_laws`, `rate_laws` and `wire_laws` state what
    holds of it as a whole, `drop_log` words what is logged.
  - The peers: `exchange` and `session` (the exchange through the relay),
    `session_laws` (what holds of all of it),
    `punch`, `connect`, `cert`, `transport`, `resolver`.
  - The features: `copy`, `pool`, `stdin_reader`, `stats`, `pipe`, `exec`,
    `exec_run`, `tunnel`, `tunnel_request`, `tunnel_config`, `tunnel_allow`,
    `tunnel_log`, `options`.
  - The command line: `flags`, `cli`, `command`, `plan`, `logger`.
  - Below them: `clock`, `net`, `env`, `config`, `table`, `text`, `ascii`,
    `number`, `hex`, `seqs`, `random`, `role`.
- `tests/` runs the library on examples.
- `app/` is the program: it performs the I/O and asks the library what to do.

Functions whose names begin with `law_` state what holds for all inputs, over
the same definitions as the contracts of the functions they speak of.
