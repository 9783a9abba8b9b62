# ruyiseek

A local file search service and desktop launcher for Linux desktops (UOS / Deepin),
written in Verus. The library in `src/` holds the logic with its contracts and proofs;
`app/` holds the programs around it.

## Library (`src/`)

- `domain`, `text`, `path`, `sorting`, `wire`: item kinds, text and byte helpers,
  Unix path components and their order, stable sorting, the escaping and line
  splitting of the wire format.
- `matching`, `query`, `query_laws`: tokenising, the relevance score of an item for a
  query (exact rationals, written with six decimals), the search engine's bounded
  best-first ranking, and its laws.
- `ipc`, `ipc_laws`: the request/response protocol, length-prefixed frames, the
  default socket path, and the round-trip laws.
- `index`, `mounts`: the bounded breadth-first scan as a state machine fed by the
  caller, stable FNV-1a identities, and the discovery of local data volumes from
  the mount table.
- `daemon`, `cli`: the daemon's and the client's command lines, the daemon's index
  state, its answers to requests and its mount refresh, and the client's report.
- `hotkey`, `keymap`: the double-Control gesture recognizer and its laws, the
  keyboard map, the raw-event listener state, and the bounded window search.
- `clipboard`: the decisions of an X11 CLIPBOARD owner.
- `launcher`, `config`, `autostart`, `tray`: the launcher's options and decisions,
  its preferences and their fallbacks, the autostart entry, and the tray icon and
  menu.

## Programs (`app/`)

One binary that runs as the daemon (`ruyiseekd`), the client (`ruyi`) or the
launcher's controller (`ruyiseek-ui`), by the name it is started under or a first
argument `daemon`, `cli` or `ui`. It does the I/O: sockets, directories, the mount
table, X11, files and processes.
