# anime_player

The core of a local anime library and player, written in Verus: every function in `src/`
carries a contract that the verifier proves.

- `src/` — the verified library: text and path models, filename detection rules, library
  maintenance decisions (episode folders, root matching, rename checks, deletion tallies), the
  background job board (queue, priorities, pool limits, prerequisites and failure cascades),
  OP/ED detection planning, the block-by-block decisions of detecting one segment kind and
  fingerprint files, track preference matching, update manifests
  and downloads, the file watcher's event filter, AniList login, callback parsing and progress
  sync decisions, disk classification
  and the diagnostic log format.
- `tests/` — tests that run the compiled library.
- `app/` — a small command-line program around the library: applying a downloaded update,
  scanning a folder, checking an update manifest against an install folder, and comparing two
  audio fingerprints (the floating-point scores live here).

Outside crates are reached from `src/` only through a few trusted wrappers whose contracts
name what the crate computes: `sha2` (SHA-256), `base64` (standard encoding), `url` (URL and
form parsing) and `regex` (detection patterns).
