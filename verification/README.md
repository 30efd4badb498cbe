# filmrank

A pairwise film-ranking service for a film festival, with its logic verified
in Verus.

- `src/` — the verified library: vote bookkeeping and the per-film
  comparison counts (`models`, `bt`, `handlers`, `tally`, `consistency`),
  the stored state and its safety floor (`persistence`, `recovery`,
  `backups`, `dates`, `validity`), the read-only views (`views`), the film list format
  (`csv`, `server::csv`), text helpers (`text`, `assoc`), and the browser
  side's decisions (`client`).
- `tests/` — tests of the library on concrete values.
- `app/` — the HTTP server around the library: request handling, files on
  disk, the live vote stream, and the Bradley-Terry fit and pair scoring,
  which compute in floating point.
