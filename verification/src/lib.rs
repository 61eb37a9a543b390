//! Terminal emulator logic for the Godot editor.

pub mod color;
pub mod fixed;
pub mod font;
pub mod input;
pub mod paint;
pub mod path;
pub mod pathset;
pub mod plugin;
pub mod pty;
pub mod run;
pub mod sprite;
pub mod sync;
pub mod terminal;
pub mod text;
pub mod theme;
pub mod underline;
