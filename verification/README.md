# motoreel

Motor-native mathematical animation: scenes are objects posed by motor
tracks, rendered offline to deterministic numbered frames (SVG or binary
PPM), with text set either in an embedded 5 × 7 bitmap face or in real
fonts through `ab_glyph`.

## Layout

- `src/` — the `motoreel` library, verified with Verus. It holds the exact
  integer and byte logic of the pipeline, each function with a contract:
  - `font`: the bitmap face, its lookup, the spelling of a run for it, and
    the clipped pixel blocks a run lights (`glyph_run`);
  - `ppm`: the P6 header, frame buffer sizing and background fill, and
    pixel tiles;
  - `svg`: frame file names, the document header, the pinned element
    templates, text escaping, and the SVG sink's frame buffer;
  - `typeset`: faces loaded through `ab_glyph`, the face registry, and the
    errors that name a character a face cannot draw;
  - key-time verdicts, span easing, and the track and recording errors;
  - scene handles and screen anchors.

  Public `proof fn law_*` items state the properties that hold across
  calls (name order, escaping, glyph coverage, tile algebra, and so on).
- `tests/` — executable tests of the library.
- `app/` — the rest of the engine in ordinary Rust: `f64` geometry,
  projection and easing, antialiased stroke coverage and compositing,
  real-type layout, garust motors and physics, and the file system.
