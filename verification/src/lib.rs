//! Core reading logic of the Candi document reader.

pub mod backend;
pub mod cache;
pub mod chrome;
pub mod cli;
pub mod color;
pub mod json;
pub mod keybinds;
pub mod layout;
pub mod navigation;
pub mod pdf;
pub mod prefs;
pub mod recolor;
pub mod render;
pub mod retint;
pub mod search;
pub mod session;
pub mod sidebar;
pub mod state;
pub mod strings;
pub mod text;
pub mod theme;
pub mod toc;

pub use color::Color;
pub use navigation::ViewState;
pub use text::normalize_reader_text;
