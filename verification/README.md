# slopty_ui

The logic of an infinite canvas for shells, coding agents, remote windows, notes and files: which
cards there are, what they show, who has the keyboard and what the host is told. Written in Rust and
verified with Verus: each function's contract says what it returns or changes, over a mathematical
model of the state, and the laws that span functions are proof functions named `law_…`.

## Layout

- `src/` is the library. Everything in it is verified.
  - `canvas` holds the plane: the shared document (`doc`), the shells and streams on it, the view's
    state and its transitions (`view`, with `live` for what the host reports and `cards` for what
    the human does), the frame, what each card shows (`face`), finding (`search`) and dragging.
  - `file`, `browser`, `markdown` and `highlight` are what the cards hold.
  - `clipboard`, `keys`, `icons`, `kit`, `a11y`, `chrome_text`, `fonts`, `frames` and `theme` are
    the chrome around them.
- `tests/` runs the library.
- `app/` is the floating-point arithmetic around it: places, sizes, the camera and glyphs.

The functions marked `#[verifier::external_body]` call `syntect`, `similar`, `image`, `blake3` or
the standard library; what is claimed of each of those stands in its doc comment.
