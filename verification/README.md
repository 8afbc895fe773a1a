# Speed Daemon

The core of a home-network probe dashboard, verified with Verus. A headless daemon (`speedd`) pings
a set of tagged targets and records round trips and losses; a viewer draws them as a strip chart;
nodes can share their targets with each other.

## Layout

- `src/` is the library. Everything in it is verified; what it takes from other crates stands
  behind a few trusted declarations, each with a doc comment that says what is believed of it.
  - `model`, `config`, `edits`: the configuration, its defaults, migration and edits
  - `icmp`, `poll`, `probes`: echo packets, the pace and state of a probe loop, stop flags
  - `db`, `clock`, `viewer`: the history and its windows, the clock, exports
  - `poller`, `handoff`: the launch agent, and passing the collecting role to a new instance
  - `json`, `wire`, `discovery`, `pairing`, `assign`, `net`, `link`, `table`: the network between
    nodes, from messages to both ends of a connection
  - `text`: searching, trimming and rendering strings
- `tests/` runs the library on concrete values.
- `app/` is the program around it: sockets, files, the database, signals.

Floating-point numbers never enter the library. Thresholds are carried as the bits of a double,
round trips are whole microseconds, a loss is a fraction of two integers, and numbers with a
fraction inside a message stay inside the message.
