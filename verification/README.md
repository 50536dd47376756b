# omnyssh

The logic of an SSH host manager — its configuration parsing, `ProxyJump`
resolution, port-forward rules, login and key-unlock decisions, terminal
password prompt and snippet templating — written in Verus and verified
against its specifications.

## Layout

- `src/` — the verified library, one module per concern:
  - `ssh_config` — `~/.ssh/config` parsing, `Include` resolution;
  - `jump` — `ProxyJump` parsing and chain resolution;
  - `tunnel` — `ssh -L` rules, retry backoff, keeping tunnels in line with edits;
  - `session`, `auth` — connection failures, login keys, password and
    keyboard-interactive decisions, command output;
  - `identity`, `password` — passphrase and password bookkeeping;
  - `pty` — the inline password line and the forwarded locale;
  - `hosts`, `keysetup`, `snippets`, `tray`, `popup`, `askpass`, `dto` — the
    frontends' logic;
  - `text`, `keyed`, `registry` — text, keyed-table and id-registry helpers.
- `tests/` — scenario tests run against the compiled library.
- `app/` — the program around it: the askpass entry point, reading config
  files with their `Include`s, and loading keys from disk.

Each module states its contracts over mathematical views (`Seq`, `Map`,
`Set`) and proves them; laws that relate several operations stand as public
proof functions named `law_*`.
