//! A procedural terminal screensaver: the cell canvas it draws into, the
//! frame encoder that turns canvases into terminal output, argument parsing,
//! the glyph font, and the scene rotation with its interactive switches.

pub mod app;
pub mod canvas;
pub mod config;
pub mod effects;
pub mod encoding;
pub mod font;
pub mod frame_text;
pub mod profile;
pub mod solids;
pub mod terminal;
