# corpus_cleaner

Filters a text corpus (plain lines or JSON lines) against a dictionary. Each line is split
into words (runs of alphabetic characters, lowercased); each word is looked up in a Bloom
filter that holds the dictionary; a line is kept when every window of `window` consecutive
words holds at least `min_valid` dictionary words (a line shorter than the window needs its
proportional share). An automatic mode searches, over a range of windows, the strictest
`min_valid` that still keeps a target number of lines.

- `src/` — the verified library (Verus):
  - `text.rs` — tokenization and normalization of dictionary entries;
  - `dictionary.rs` — the Bloom filter of the `bloomfilter` crate and how it is filled;
  - `json.rs` — the JSON lines, read with `serde_json`;
  - `window.rs` — the sliding-window test on the flags of one line;
  - `corpus.rs` — per-line flags and the lines kept, computed with `rayon`;
  - `search.rs` — the binary search per window and the choice of the strictest combination;
  - `output.rs` — the output file name and the choice between file and standard output.
- `app/` — the command line: arguments, files, standard streams, and the floating-point
  parts (the share required of short lines, the target count, percentages, the filter size).
- `tests/` — tests of the library on concrete values.
