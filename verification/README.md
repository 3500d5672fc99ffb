# agent_terminal

Driving terminal programs from tests: a shell runs in a PTY, its output is
kept (raw bytes and a rendered VT100 screen), clients talk to the session
over a Unix socket (or TCP with a token), and test scripts wait for text,
type, press keys and assert on the screen.

`src/` is the library, verified with Verus:

- `buffer` — the output buffer: the last MiB of raw bytes and the screen.
- `protocol` — requests, responses and their length-prefixed framing.
- `server` — what a session does for each client event (subscriptions,
  writes, output) and the TCP token check.
- `lock` — lock files: paths, liveness, finding a session by id prefix.
- `script`, `runner`, `dsl` — the test DSL: parsing scripts, building
  command lists, progress lines, and reading replies while waiting.
- `debug`, `debugger`, `bench`, `cli` — the command line's analysis of
  screens and escape sequences, its interactive prompt, benchmark grading,
  and its remote/test actions.
- `text`, `number`, `encoding` — string, number and base64 helpers.

`app/` is the program around it: the PTY, sockets, files, JSON, the clock
and the command line.

Screens are rendered by the `vt100` crate alone; a second terminal emulator
on `wezterm-term` (not published on crates.io) is not part of the project.
