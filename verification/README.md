# herdr_window_title

Configurable outer-terminal title for herdr: a template engine with
optional sections, a session-wide agent-state indicator, and a monitor that
keeps the title current.

The library under `src/` is verified with Verus:

- `template` — the template grammar (`{token}`, `[ optional ]`, `\` escapes)
  as a specification (`scan`, `parse_model`, `render_model`), the parser and
  renderer proved against it, and the laws of the language: rendering is
  compositional, escaped text renders as itself, sections vanish exactly
  when their tokens are empty, and printing a parsed template gives a
  source that parses back to it; a source fails to parse exactly when it
  leaves a `{` or `[` unclosed.
- `indicator` — agent-state aggregation over a snapshot and the
  `{indicator}` token, with its priority and scope laws; the activity does
  not depend on the order of the agents.
- `json` — herdr's replies read through `serde_json` into plain values:
  the snapshot in a `session.snapshot` reply (an error reply reads as the
  empty snapshot, a line that is not JSON as a failed exchange), the session
  in `herdr status --json`, and the request lines the monitor sends.
- `snapshot` — the snapshot as plain values and the token values it
  resolves to.
- `config` / `toml_table` — reading `config.toml` through the `toml` crate,
  key by key with per-key fallbacks and warnings: an invalid key changes
  only its own setting and adds exactly one warning, and only text that is
  not TOML earns the invalid-TOML warning.
- `render` — the whole title as one function of snapshot, configuration,
  session, host and spinner frame.
- `monitor` — the monitor's decisions as a state machine (`MonitorState`):
  when to send, when to give up (at the third transport failure since the
  last successful fetch), how the spinner advances, how fast to tick, and
  which session it serves.

`app/main.rs` is the plugin binary: environment, files, sockets, processes
and clocks around the library.
