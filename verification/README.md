# loudness

EBU R128 loudness normalization for Visual Pinball: every audio source of a
cabinet is measured once and corrected with one constant gain, written into
fields the packs already have (the `GAIN` column of an AltSound csv, the
`Volume` columns of a PUP pack).

## Layout

- `src/` is the verified library (Verus):
  - `altsound` reads an AltSound csv, lists its sounds, hands out and rewrites
    the `GAIN` column, and writes the table back, leaving every other column
    as it was;
  - `pup` reads `triggers.pup` and `playlists.pup`;
  - `cache` keeps one measurement per source and only trusts entries made
    under the current rules;
  - `stamp` computes a pack's fingerprint, which does not depend on the order
    of its files;
  - `engine` turns the figures read off the reference signal into the engine
    signature;
  - `measure` decides which files share the source meter, so a pack mixing
    layouts gets no source figure;
  - `files` picks media files and the AltSound csv by extension;
  - `table`, `text`, `digest`, `order`, `sort` are the building blocks: the
    `csv` crate, trimming and case folding, BLAKE3 and hex, byte-string
    order, and sorting by a total order on keys.
- `app/` is the command line tool: file input and output, decoding with
  Symphonia, measuring with `ebur128`, and the gain arithmetic, which is
  floating point.
- `tests/` exercises the library.
