# lumen_cut

The data layer of a transcript-driven audio/video editor, verified with
Verus: the transcript document (paragraphs of cues of timed words),
translations, cue splitting and merging, speaker labels, hidden cues,
search, caption projection for export, export settings, chapters, the edit
journal's state machine, caption presets and correction rebinding.

Layout:

- `src/` — the verified library. Every function carries a contract; laws
  that relate several operations are public proof functions (`law_*`).
  Times are carried as the bits of `f64` seconds and never computed with.
- `tests/` — tests of the library on concrete values.
- `app/` — the unverified layer around it: files and JSON on disk, the edit
  journal's snapshots, clocks and ids, and the computations on seconds
  (retiming, interpolation, karaoke durations, cut ranges).
