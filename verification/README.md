# shadowquic

The decisions of a QUIC proxy, verified with Verus, and the tasks and sockets around them.

- `src/` is the library. It is synchronous and works on plain values.
  - `white`: which sources may connect: rules, policies, the connections that were let in, and
    when the rule file is read again.
  - `squic`: UDP over a QUIC connection: context ids and the packets that wait for their socket
    (`id_store`), the tasks that send and receive (`udp`), authentication (`auth`).
  - `socks`: SOCKS5 UDP packets and the SOCKS5 client.
  - `msgs`: the bytes of SOCKS5 messages and of the UDP headers.
  - `sunnyquic`: transport parameters and answers of the QUIC endpoint.
  - `session`, `manager`: requests, their users, and the loop that hands requests on.
  - `addr`, `text`, `buffer`, `error`: what the others share.
- `tests/` runs the library.
- `app/` drives it: sockets, streams, tasks, locks, files and logging.

Calls into other crates stand behind small functions whose contracts are believed, not proved.
Each of them says what it calls and what it claims of it: `buffer` (`bytes`), `squic::notify`
(`tokio`), `white::yaml` (`serde_saphyr`), `sunnyquic` (`gm_quic`, `rustls`),
`utils::platform::fallback` (`socket2`).

The statements that relate several functions are the public proof functions whose names begin
with `law_`.
