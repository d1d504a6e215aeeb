# Agent Communication Hub

A persistent message hub that routes envelopes between agent sessions, and its
client.

- `src/` is the library: every decision of the hub and the client, with contracts
  that Verus proves. Routing is in `hub.rs`, what holds of every sequence of routing
  steps in `history.rs`, a connection's conversation in `session.rs`, a client run
  in `run.rs` and `client.rs`.
- `app/` is the program around it: command line, sockets, files, clocks, locks, and
  the JSON and TOML shapes. Run as `agent-hub-server` it is the hub, under any other
  name the client.
- `tests/` runs the library on concrete values.

## Delivery

- One FIFO queue per agent name, in memory.
- An `await` may ask for a reply to one envelope (`--reply-to`), for one kind
  (`--kind`), or for both; an envelope must meet every condition.
- An envelope goes to at most one consumer. Among those that may have it the most
  specific wins: reply-to and kind, then reply-to, then kind, then neither; the
  oldest first among equals. With no such consumer it queues.
- An envelope is consumed when the socket takes the first byte of it. If no byte of
  it goes out, the envelope goes back to routing: to the next matching consumer, or to the
  front of its queue.
- A timeout consumes nothing.

## Exit codes of the client

| Code | Meaning |
|---|---|
| 0 | `send`: accepted; `await`: envelope on stdout |
| 1 | connection, authentication, validation, usage or protocol failure |
| 2 | `await`: timeout on the hub's side |
