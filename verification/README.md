# sparkle_native

Native helpers of the Sparkle desktop client, written in Verus.

`src/` is the verified library:

- `cmdline` — quoting of Windows command-line arguments, with a model of how
  Windows splits a command line and the proof that splitting the quoted,
  space-joined arguments gives them back.
- `wide` — zero-terminated UTF-16 strings for wide-character system calls, with
  the proof that they decode back to the text.
- `elevation` — the request that runs a program elevated, and the reading of
  `ShellExecuteExW` failures (user canceled or not).
- `token` — the size of the buffer for a token's user information.
- `firewall` — the order in which firewall rules are removed and added.
- `named_map` — a map from names to values kept as a list of distinct entries.
- `rules` — collection of a rule converter's outputs into texts and infos by
  behavior name.
- `platform` — the answers of platforms without elevation, SIDs or a managed
  firewall.

`app/` holds what calls the system or crates that do I/O: the Win32 calls,
icon lookup, the rule converter, and the Node bindings.
