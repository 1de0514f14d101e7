# SculptLite

A small desktop program for sculpting STL meshes. Its logic is a library whose behaviour is stated
in contracts and proved with Verus; the window, the files, the threads and the graphics device are
an ordinary program around it.

## Layout

- `src/` holds the library.
  - Numbers and vectors: `scalar`, `arithmetic`, `wide`, `optics`. A single-precision number is its
    bit pattern, a `u32`, and a double-precision one a `u64`. Comparisons are worked out on the
    patterns; sums, products, roots and the like are asked of the caller, who says only that they
    are functions.
  - The mesh: `mesh`, `soup`, `topology`, `orientation`, `winding`, `geometry`, `shapes`, `bvh`,
    `search`, `walk`, `enclosure`, `query`, `refit`, `region`, `deform`, `candidate`, `bounds`,
    `rounding`.
  - Sculpting: `brush`, `pass`, `frame`, `proposal`, `smooth`, `sculpt`, `grab`, `recording`,
    `masking`, `edit`, `stroke`.
  - Undo: `history`.
  - Files and rebuilding: `stl`, `voxel_remesh`.
  - Drawing: `upload`, `batch`.
  - The program: `camera`, `input`, `controls`, `session`, `tasks`, `editing`, `painting`,
    `course`, `viewport`, `prompts`, `text`.
  - Collections: `collections` holds the hash maps and small vectors of `hashbrown` and `smallvec`,
    `table` a map that keeps the order of its keys.
- `tests/` runs the library on concrete meshes.
- `app/` is the program: `window` and `panels` show the session, `worker` does the slow work on a
  thread of its own, `files` reads and writes, `extraction` takes a surface out of a distance field,
  `gpu` draws, and `numbers` hands the machine's floating point to the library.

## What is taken on trust

Each function marked as having an external body stands for one function of another crate or of the
standard library, and its comment says what is claimed of it: the hash maps and small vectors in
`collections`, the sorts in `collections`, `edit`, `refit` and `bvh`, and the reader and writer of
STL files in `stl`.
