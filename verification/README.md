# pi_server

The decision-making core of a gateway that runs `pi` coding-agent
processes and serves them to chat and workspace clients over HTTP and
WebSocket.

- `src/` is the library, written in Verus: every function carries a
  `requires`/`ensures` contract proved by the verifier, and the
  `lemma_*` proof functions state properties that span several
  operations (watching and leaving a session, title stability, listing
  order, PIN lockout, path safety, uploads in the snapshot baseline, ...).
- `tests/` runs the library on concrete values.
- `app/` is ordinary Rust around the library: reading JSON off the wire,
  the file system, git and pi processes, the SQLite store and LAN
  discovery.
  It converts what it reads into the library's values and acts on what
  the library decides.

Calls into outside crates (SHA-256, UUIDs, regular expressions, RFC 3339
times, zip archives, QR codes) go through a few small trusted wrappers whose contracts say what
the crates document; each wrapper's doc comment names the function it
calls.
