# pbrt

The scene-description core of a physically based renderer, written in Verus.

- `src/` is the verified library: the PCG random number generator, integer geometry,
  the scene-file tokenizer and statement parser (which turns a scene file into a list of
  commands), parameter sets, the scene API's state machine, file-name helpers, and the
  integer side of image files and films.
- `app/` is the `pbrt` program around it: command-line handling, logging, file I/O, and
  the floating-point parts of rendering (transforms, spectra, films, filters, lights).
- `tests/` exercises the library.

Number literals in scene files are checked against the syntax of Rust's float literals
and kept as text by the library; the program converts them to floating point.
