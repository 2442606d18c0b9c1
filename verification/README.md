# strip_ansi

Strip ANSI escape sequences from byte streams, with the ECMA-48 state
machine, the sequence classifier, the selective filter, the color
transforms and the threat scanner proved correct by Verus.

Layout:

- `src/` — the verified library. Each module states what it computes as
  spec functions over `Seq<u8>` and friends and proves its executable code
  against them; public `law_*` proof functions state properties that span
  several calls (chunked stripping equals whole-input stripping, stripping
  is idempotent, detected presets strip every echoback vector, ...).
- `tests/` — unit tests, run against the compiled library.
- `app/` — the `strip-ansi` and `distill-ansi` programs: argument parsing,
  file and terminal I/O, TOML reading, and the floating-point palette
  code, around the library.
