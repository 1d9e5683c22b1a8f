# yadoom_rs

A small Doom engine toolkit whose data handling is verified with Verus:
WAD parsing, map lumps, palettes and light tables, patch decoding and
wall-texture composition, a texture bank, the software renderer's integer
bookkeeping (solid-wall clip ranges, visplanes, the per-frame openings
pool), Bresenham lines, and the `info.c` table converter.

Layout:

- `src/` — the verified library. Every public function states its result
  in `ensures` over spec functions; laws that relate several calls are
  public `law_*` proof functions next to the functions they speak of.
  Calls into `byteorder`, `regex` and a few `std` string routines go
  through small trusted wrappers whose contracts are documented where
  they are declared.
- `tests/` — ordinary Rust tests run against the compiled library.
- `app/` — the command-line front end: a 2-D map viewer window and the
  `--info-c` table generator, both doing their file and window I/O here
  and handing plain values to the library.
