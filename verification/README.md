# gmod_buttplug

Verified core of a Garry's Mod binary module that embeds an in-process
buttplug client and exposes it to Lua.

- `src/` — the library, verified with Verus:
  - `lifecycle` — the session state cell (`STOPPED → STARTING → RUNNING →
    STOPPING`), its start/stop edges and their laws;
  - `session` — what a session does on setup, on each client event and at its
    end, and how each event becomes a `hook.Run` call;
  - `device` — the Lua device handle, its `tostring` form and the `Linear`
    duration argument;
  - `version` — `major.minor.patch` parsing, comparison, the release tag of
    the releases API's reply and the update notice;
  - `logging` — the initial filter (`RUST_LOG` or `warn`), filter-spec
    updates for the live tracing subscriber, and which specs the parser
    handles;
  - `directive` — the `EnvFilter` parser's walk over a directive, and when
    its slices land inside a character;
  - `lockfile` — reading a crate's resolved version out of `Cargo.lock`;
  - `runtime` — handing futures to the tokio runtime;
  - `xtask` — default target, argument handling and artifact names of the
    release-build helper;
  - `text` — character helpers and decimal rendering.
- `app/` — the module shell: Lua bindings, globals, the tokio runtime, the
  event channel, network and process I/O.
- `tests/` — tests of the library.
