# Kova

The core of Kova, a GPU-rendered terminal for Linux, as a Verus library.
Verus proves every function in `src/` against its contract, except a few
small wrappers, marked `external_body`, around FreeType, unicode-width and
the standard library, whose contracts are trusted.

* `src/keybindings.rs` parses shortcut strings such as `cmd+shift+d` and
  builds the shortcut tables; `src/input.rs` turns a key press into the bytes
  written to the terminal.
* `src/bitmap.rs`, `src/font.rs` and `src/glyph_atlas.rs` draw the block and
  box glyphs, load glyph bitmaps from FreeType faces, compose them into cells
  and pack them into the atlas texture.
* `src/window.rs` models the projects and tabs of a window, the overview
  modes, the keyboard modes (help, renaming, filter) and the frame timers.
* `src/renderer.rs` holds the cursor blink, the clock and the labels of the
  status bar, the tab bar and the filter overlay.
* `src/ipc.rs`, `src/install.rs` and `src/app.rs` hold the single-instance
  protocol, the desktop entry and the application-level decisions.

`app/` is the program around the library: command line, desktop files,
the Unix socket, logging, font lookup with fontconfig, and the winit event
loop.
`tests/` exercises the library on concrete values.
