//! Terminal sticker packs, text animation frames, renderer detection and the
//! chat state machine, with their contracts.

pub mod animation;
pub mod cli;
pub mod manifest;
pub mod packs;
pub mod render;
pub mod text;
pub mod tui;
