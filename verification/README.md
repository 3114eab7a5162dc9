# rskynet

Services of an actor runtime, with their logic verified in Verus.

`src/` is the library. It performs no I/O: every service takes commands and events as plain
values and hands back effects (bytes to write, timers to arm, messages to send).

| module     | what it holds |
|------------|---------------|
| `net`      | TCP and UDP sockets: owners, states, write queues, waterlines, pauses |
| `http`     | HTTP/1.1 client and server exchanges, connection reuse, WebSocket upgrade |
| `quic`     | endpoints, connections, streams and datagrams over a QUIC engine |
| `timer`    | the hierarchical timing wheel and its clock |
| `logger`   | log file names, rotation and pruning |
| `plugin`   | declarations, resolution order and mounting of plugins |
| `macros`   | the rules of the service and plugin attributes |
| `signal`   | process signals and the crash report |
| `launcher` | what a command line asks for |
| `error`, `text`, `places` | shared pieces |

A function's contract speaks of the views of its arguments. What holds across functions is stated
in public proof functions whose names begin with `law_`.

Outside crates do their own work behind small functions marked `external_body`. The comment above
each of them says which call it makes and what is taken for granted about it.

`tests/` runs the library on concrete values. `app/` is the ordinary Rust around it: sockets,
files, threads, derives and token streams.
