# Classic

The core of a small cluster runtime for Linux, written in Verus. Nodes tell each
other what hardware they have, hand out devices, pass mail between tasks, find
services by name and show all of it as a read-only 9P2000.L file tree.

`src/` holds the logic. Every function states what it returns in `ensures`, and
Verus proves it. What holds of several functions together stands beside them as
public proof functions whose names start with `law_`.

| Module    | What it is about                                                       |
|-----------|------------------------------------------------------------------------|
| `ad`      | Ads: hardware discovery, the store (last writer wins), frames, gossip  |
| `cap`     | Device capabilities: broker, cgroup scopes, device allowlists          |
| `cli`     | The `classic` command: arguments, listings, spawn sessions, groups     |
| `fs`      | 9P2000.L: codec, server, client, namespaces, the synthetic tree        |
| `mbox`    | Mailboxes, the service directory (Lamport clocks, tombstones), cleanup |
| `packed`  | The fixed-width little-endian payloads of the ad and mailbox frames    |

The other modules are shared: identities and frames (`ident`), bytes, texts,
numbers in words (`render`), line and word scanning (`scan`), sorting (`order`)
and time.

`app/` is ordinary Rust around the library: files, sockets, NVML, threads and the
command line. It reads, hands plain values to the library, and does what comes
back. Functions with a `requires` are called there only after a test of it.

A few functions in `src/` call another crate or a part of the standard library
that Verus does not know. Each is marked `external_body`, and its comment says
what is taken on trust: `bincode` for payload fields, `tokio`'s channels for
mailboxes, and the standard library for UTF-8, collecting characters and quoting.
