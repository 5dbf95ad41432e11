# quinn_endpoint

The endpoint of a QUIC implementation: which connection a datagram goes to, what an endpoint does
when something happens to it, and when it ends. The decisions are verified with
[Verus](https://github.com/verus-lang/verus); sockets, tasks and locks are ordinary Rust around
them.

- `src/` is the verified library.
  - `addr`, `cid`, `transport`, `size`: addresses, connection IDs, transport parameters and byte
    sizes.
  - `connections`: the set of open connections and the routes by which datagrams reach them.
  - `recv`: from what a socket hands over to who gets which datagram.
  - `endpoint`: the state of an endpoint.
  - `laws`: what holds of the set of connections and of the endpoint as a whole.
  - `load`: the pace and the statistics of a load generator.
  - `buffer` and `tables`: what is taken on trust of the `bytes` and `rustc-hash` crates and of
    the standard library's hash tables.
- `tests/` runs the library.
- `app/` is the endpoint at work: it carries out what the library decides.

## How the parts meet

The library holds the state of an endpoint as one value and changes it in steps. A step takes what
the outside world reported (a batch of messages, an event of a connection, the protocol engine's
answer) and returns what is to be done. The application carries that out and reports back.
Channels into connections, wakers, sockets and configurations are type parameters of the state: it
keeps them and hands them out, but never looks inside.
