# uppercut

A small actor runtime. Actors live at string addresses, receive envelopes one
at a time, and may spawn, stop and message other actors, locally or on a
remote system (`actor@host:port`).

Layout:

- `src/` — the verified library (Verus):
  - `api.rs`: envelopes;
  - `config.rs`, `time.rs`: settings and the durations they hold;
  - `runtime.rs`: the scheduler as a state machine (`transition`), its
    invariant and laws, remote routing of addresses, worker choice, and
    `System`;
  - `tags.rs`, `timer.rs`: the address-keyed map and the queue of delayed
    envelopes that the scheduler keeps;
  - `mailbox.rs`, `monitor.rs`, `metrics.rs`, `error.rs`;
  - `text.rs`: facts about UTF-8 text and the `@` of remote addresses;
  - `remote/`: the wire format of packets (`packet.rs`), address splitting
    (`client.rs`), connection decisions (`server.rs`) and host choice.
- `app/` — the runtime around it: thread pool, channels, worker threads, the
  scheduling loop, clocks, TCP client and server, and the actor traits.
- `tests/` — tests of the library.
