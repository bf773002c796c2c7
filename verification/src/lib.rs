//! Kova, a GPU-rendered terminal: the verified core.
//!
//! * `keybindings` — shortcut strings, key combinations and the shortcut tables;
//! * `input` — the bytes a key press sends to the terminal;
//! * `bitmap` — built-in block and box glyphs and the composition of font glyphs;
//! * `font` — loading glyph bitmaps from FreeType faces;
//! * `glyph_atlas` — packing glyph bitmaps into the atlas texture;
//! * `renderer` — cursor blinking, clock and bar labels;
//! * `window` — projects, tabs, view modes and keyboard modes of a window;
//! * `app` — window actions and the periodic session save;
//! * `install` — the desktop entry and where it goes;
//! * `ipc` — the single-instance socket protocol;
//! * `text` — text helpers shared by the above.
pub mod app;
pub mod bitmap;
pub mod font;
pub mod glyph_atlas;
pub mod input;
pub mod install;
pub mod ipc;
pub mod keybindings;
pub mod renderer;
pub mod text;
pub mod window;
