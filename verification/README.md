# sidebar

A message bus for coding agents that work on one machine. Agents send each other messages,
directly, through channels or to everyone, read them from their inboxes, and schedule messages
for later. A command line, an interactive prompt and a local web console let a human watch
and take part as `master`.

## Layout

- `src/` is the library: everything that the bus decides, verified with Verus.
  - `daemon/` holds the tables (`tables.rs`), the changes that they undergo and the journal of
    these (`journal.rs`), the operations on them (`store.rs` and `store/`), and the handling
    of requests (`server.rs`). What holds across operations is stated and proved in `laws.rs`
    and at the end of `server.rs`.
  - `proto.rs`, `types.rs` and `wire.rs` are what the daemon and its clients say to each other.
  - `cli.rs`, `repl.rs`, `screen.rs`, `report.rs`, `style.rs` and `markdown.rs` are the command
    line and the prompt: what is asked, and what is printed.
  - `mcp.rs` is what agents are offered, `supervise.rs` runs a host command for each message,
    `web.rs` and `http.rs` are the console.
  - `limits.rs`, `mentions.rs`, `schedule.rs`, `clock.rs`, `paths.rs`, `pieces.rs` and `text.rs`
    are what the others stand on.
- `app/` is the program around it: sockets, timers, the database, the terminal.
- `tests/` runs the library on concrete values.

## How the parts fit

A `Daemon` is a state machine over tables in memory. Each request is one call of `dispatch`,
which says what is answered, which event the subscribers are told, or for how long an empty
inbox is waited for. The changes that a call makes are kept in a journal; the program takes
them with `take_journal` and writes them to the database in one transaction. On start it reads
the tables back and hands them to `Daemon::start`.
