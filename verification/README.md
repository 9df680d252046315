# mizu_render

The rendering side of the Mizu navigator as a verified library: what is
painted, where a click lands, what the inspector lists, what assistive
technology hears, and which images are decoded. The functions in `src/` are
verified with Verus against contracts over plain mathematical values. The few
that call an outside crate or the clock are trusted instead; their doc comments
name the outside function and say what is claimed of it.

## Layout

- `src/chrome/` — the URL bar, its keys, where its parts are, and what is
  painted of them.
- `src/history_sidebar/` — the list of visited pages.
- `src/inspector/` — the log, the panel's state, the rows of its five tabs
  (`model/`), and what is painted of them (`paint/`).
- `src/accessibility.rs`, `src/hit_test.rs`, `src/bidi.rs` — the document as
  assistive technology, the pointer and text layout see it.
- `src/image_codec.rs`, `src/webp.rs` — which images are decoded, and how long
  frames are shown.
- `src/scene.rs` — drawing commands. Painting means adding commands to a list;
  contracts say which.
- `tests/` — the library in use.
- `app/` — what turns floating-point layout, fonts, windows and pixels into the
  library's values and back.

Lengths are whole numbers of 64ths of a logical pixel. Functions that fit text
take a closure that measures it. What they paint is stated exactly for every
closure that gives each text one width; that they finish, and what they keep of
the state, is stated for any closure.

## Laws

Besides the contract of each function, public proof functions named `law_…`
state what holds over several of them: that a click goes to what was painted
there, that shortened text fits, that typing and Backspace cancel out, that no
two documents share an accessibility id.
