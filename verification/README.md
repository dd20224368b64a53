# bumble_bee

The verified core of the Bumble Bee browser shell, written in Verus.

`src/` is the library. Its functions are verified; the calls it makes into
`std`, `url`, `percent-encoding`, `http`, `sha2` and `uuid` go through small trusted
wrappers whose contracts state what those crates document:

- `execution_sandbox`, `code_security_scanner`: the pre-execution gate for
  untrusted source (size, line and nesting limits, then signature rules on
  the whitespace-free, lowercased text).
- `language_engine`, `typescript`, `infra`: language detection and the
  lowering of TypeScript and INFRA sources to JavaScript.
- `downloads`, `download_registry`, `transfer`, `checksum`: safe file names,
  `Content-Disposition` names, the table of downloads and every operation on
  it, the decisions of the transfer loop, and the SHA-256 of a finished file.
- `linux_security`, `process_policy`: the seccomp program (with a proof of
  what it decides for every call), the Landlock ruleset, and the process
  limits and mitigations.
- `cookie_policy`: the hourly cookie-store cleanup.
- `text`, `numbers`: character and number helpers shared by the above.

`app/` holds what runs around it: the download manager's threads, HTTP
client and files, the system calls that install the hardening, and the
cleanup timer thread.
