# Loki DM core

A segmented, resumable download manager whose decision logic is verified
with Verus.

- `src/` is the library: segment planning and bookkeeping, retry and
  connection tuning, the persistent queue and its merge rules, categories,
  cookies, the scheduler, the link spider, browser (native messaging)
  framing and manifest locations, update selection, media playlists, and
  the decisions behind the command line and the desktop dashboard. Every
  function carries a contract that Verus proves; calls into outside crates
  (`url`, `semver`, `m3u8-rs`, `rand`, `dirs`, `reqwest`'s status names) sit
  behind small trusted wrappers whose contracts are documented where they
  are declared.
- `app/` is the `loki-dm` program around it: argument parsing, HTTP
  transfers, files, processes, the terminal and the browser pipe.
- `tests/` exercises the library on concrete values.
