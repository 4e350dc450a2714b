# welly_rs

A Welly-style client for the newsmth BBS over SSH, built around a library
whose behaviour is stated in Verus contracts and proved.

- `src/` is the verified library: the terminal screen model and its
  operations (with the laws that keep wide characters whole,
  `src/wide_cells.rs`), the ANSI/CSI parser (with GB18030 decoding through
  `encoding_rs`), the key and mouse mappings to BBS byte sequences, the
  selection, URL and attachment scanners, the SSH config reader, the font
  choices, and the small formats and commands the window needs.
- `tests/` runs the library on concrete inputs.
- `app/` is the desktop program: the eframe window, painting, the SSH
  session (russh, tokio), font loading (fontdb, ab_glyph), and the
  platform glue. It calls the library for every decision it makes about
  the screen and the input.
