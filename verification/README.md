# timeleap-memo

A handwriting memo whose strokes live on a virtual time line. Playback moves a
virtual clock forward; drawing while the clock runs past its latest time
extends the time line. A stroke created at an earlier virtual time than the
stroke before it opens a new *world line*.

Layout:

- `src/` — the verified library (Verus):
  - `instant.rs` — virtual instants, carried as binary32 bit patterns and
    ordered as `f32 <` orders them (NaN unordered, the two zeros equal);
  - `world_line.rs` — `WorldLineManager`: cutting the stroke history into world
    lines, looking them up, timeline markers;
  - `world_line_laws.rs` — proved properties of the world lines of every
    history;
  - `virtual_time.rs`, `virtual_time_laws.rs` — the virtual clock and its
    proved properties.
- `tests/` — tests of the library on concrete values.
- `app/` — the program around the library: strokes, tags and settings (which
  hold `f32` values), their storage with serde, bincode and serde_json, and the
  session's event handlers.
