# dynamic-playlist-generator

A playlist generator for a music library, with its decision logic written
in Verus and proved against its contracts.

- `src/` is the verified library:
  - `audio` — the analyser's configuration, which spectral frames are
    analysed, key names, and the tag overlap used by track similarity;
  - `db` — the stored text of tracks and playlists: tag lists as JSON
    (encoded and decoded with serde_json) and timestamps as RFC 3339 (written and read with chrono);
  - `handlers` — list limits, upload planning, and the track pairs whose
    similarity is recomputed;
  - `models` — the textual labels of a track;
  - `services` — strategy choice, mood pools, random and diverse picks, and
    the greedy expansion from seed tracks as a step-by-step state machine;
  - `rng` — the calls into `rand`, with contracts on every outcome.
- `app/` is the HTTP server around it (actix-web, SQLite through rusqlite,
  WAV decoding through hound) and the floating-point signal analysis and
  scoring.
- `tests/` exercises the library.
