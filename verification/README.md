# conch

The backend logic of the Conch terminal as a library verified with Verus:
the tmux control-mode parser, streaming UTF-8 decoding of terminal output,
the saved SSH servers and tunnels (lookup, editing, export, import,
`~/.ssh/config` reading, migration of legacy credentials), the decisions of
SSH connections (proxies, authentication, host keys), file listings, rsync
command lines, font lists, the tunnel table, the SSH sessions of panes and
the connections they share, and the requests waiting for
the user's answer.

- `src/` — the library. Every function carries a contract over plain
  mathematical views (`Seq`, `Map`, `int`), and the library's laws stand as
  public proof functions (for example `feeding_in_pieces_equals_feeding_at_once`
  in `tmux_parser.rs`, `split_valid_utf8_decodes_whole` in `utf8_stream.rs`,
  `linking_every_credential_leaves_no_legacy_entry` in `migration.rs`).
- `tests/` — executable tests of the library.
- `app/` — a small command-line program around the library: configuration
  files, SSH over the network, the tmux process, the local file system and
  the operating system.
