# moesniper

Escape-proof precision file editing for LLM agents: one operation,
`splice(file, start, end, hex_payload)`. Content travels hex-encoded, so no
shell quoting can corrupt it; batch manifests apply bottom-up so that line
numbers never shift; every real write is preceded by a timestamped backup
that `undo` restores.

The editing logic is written in Verus and proved against its contracts.

## Layout

- `src/` — the verified library.
  - `text`, `lines`, `num`: characters, line splitting (`split_inclusive`
    semantics) and the file rendering of an atomic write, decimal numbers.
  - `hex`: hex encoding and decoding (whitespace-tolerant, UTF-8 checked).
  - `config`: settings read from environment values.
  - `indent`: indentation style detection, the expected indentation at a
    line, validation and automatic re-indentation of replacement content.
  - `diff`: the dry-run preview.
  - `context`: the SHA-256 context hash of the lines around a range.
  - `security`: path normalisation and traversal checks.
  - `splice`, `manifest`: the single splice and the bottom-up batch of the
    command line.
  - `binding`: the edit and batch operations of the Python module, with
    their own rules and messages.
  - `backup`, `lock`, `guard`, `errors`: backup selection and retention,
    the lock protocol as a state machine, the resource gate, error hints.
  - `cli`: argument parsing and the command-line replies.
- `app/` — the program around the library: arguments, files, the
  environment, locking, backups and atomic writes, and JSON output.
- `tests/` — tests of the library on concrete values.
