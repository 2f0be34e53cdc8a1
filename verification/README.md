# my_cava

A spectrum visualiser for the terminal. It listens to what the default sink plays, transforms it,
and draws one bar for each band of frequencies, with a cap above each bar that falls slowly.

The library under `src/` is written in Verus. Every function of it is verified, but for the
wrappers in `ring` around the calls into the ring buffer crate, whose contracts are trusted:

- `bands`: which transform bins each bar reads
- `window`: the input of the transform and the magnitudes of its output
- `ring`, `word`: the rings between the threads, and the words that they carry
- `math`: the scalar formulas of the animation, as a trait
- `motion`, `frame`: how the bars move from one frame to the next
- `glyph`, `column`, `color`: what a column of the screen shows
- `screen`, `renderer`, `drawing`: drawing by difference, cell by cell, bar by bar and frame by
  frame
- `silence`: what holds of the display while there is nothing to hear
- `control`, `flag`: what starts and ends the program

The proof functions whose names begin with `law_` state what holds of the library as a whole.

The program itself is under `app/`: audio capture, the transform, terminal output, threads, and
the formulas in floating point.
