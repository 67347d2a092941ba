//! An interactive developer-console session.
//!
//! The library models the text side of a terminal overlay: an input line
//! edited by keyboard events, a registry of named commands, output logs fed
//! by append-only text events, a clamped scroll offset, and a blinking
//! cursor driven by elapsed time. A host (window loop, game engine, plain
//! terminal) delivers events each frame and renders what comes back; all
//! decisions about the text live here.

pub mod events;
pub mod registry;
pub mod session;
pub mod text;
