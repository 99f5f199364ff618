# scampii

An animated pixel-art shrimp for the terminal, as a verified library and a
small command-line program.

- `src/` is the library: the sprite frames and palette, themes, the
  rasteriser, base64, a PNG encoder with stored zlib blocks, CRC-32 and
  Adler-32, the iTerm2 (OSC 1337), Kitty and Sixel sequence builders, the
  animation, and the hex and OSC 10 color parsers. Every function states its
  result exactly over spec functions, and the proof functions named `lemma_*`
  state the library's laws (for example that base64, stored zlib blocks,
  scanlines and Sixel run-length encoding read back to their input, and that
  each terminal sequence carries the image it was built from).
- `app/` is the program: argument handling, file and terminal I/O, the
  raw-mode guard, the foreground-color query, and the HSB hue rotation that
  turns a target color into a theme (floating point).
- `tests/` runs the library on concrete values.
