# kmflow

KMFlow shares one keyboard and mouse between machines on a local network: push
the pointer over the edge of one screen and it goes on at the other, with the
keyboard and the clipboard following.

`src/` is the verified library. It holds the decisions of the program, each with
its contract:

| Module | What it decides |
|--------|-----------------|
| `session` | who has the focus, and what every captured or received event does |
| `edge` | when the pointer leaves the screen |
| `handshake`, `reconnect`, `state` | how two machines meet, and how a connection lives |
| `discovery`, `tls` | which peers are there, and which are trusted |
| `frame`, `proto` | the messages and how they lie on a stream |
| `evdev`, `x11`, `input` | what devices say, and how events are replayed on them |
| `clipboard` | when clipboard text is sent or taken over |
| `screen` | how large the local screen is |
| `ipc`, `cli` | what the command line asks and shows |
| `text` | strings as runs of characters |

`app/` is the program around it: sockets, devices, processes, clocks, the wire
format and everything that needs fractions. `tests/` runs the library.

Displacements of the pointer are fixed-point numbers (`proto::Delta`), scale
factors and times are carried as the bits of double-precision numbers
(`proto::Double`).
