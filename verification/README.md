# tlac

The verified core of a Linux user-space anti-cheat, written in Verus.

`src/` is the library. Every function there carries a contract that Verus
proves, except five small `external_body` wrappers around std and `sha2`
calls (`sha256_digest`, `lossy_string`, `debug_list_string`, `chars_of`,
`string_from_chars`), whose contracts are assumed:

- `pattern`: signature text to wildcard byte patterns, first-match search.
- `scan`: which mappings are scanned for which signatures, the word reads
  (one 8-byte word every 8 bytes) and the bytes they make up.
- `event`, `features`: the eBPF event record and the 100-event window with
  its per-syscall and distinct-pid counts.
- `bans`, `ban_server`, `server`, `messages`: the ban table and what the
  servers do with each message.
- `proc_status`: kernel-module screening rules.
- `hwid`: hardware id (SHA-256 of the trimmed machine ids, lower-case hex).
- `sync`, `monitor`, `protocol`, `text`: request building, the monitor's
  decisions, message types, text rendering.

`app/` is the program around it: files, sockets, SQLite, HTTP, ptrace,
eBPF and the floating-point models.
