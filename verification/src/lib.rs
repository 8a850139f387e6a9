//! Thumbnail montage and grid rendering core of a terminal image lister.
//!
//! Everything here is pure: the callers read the terminal, the file system
//! and the environment, hand the library plain values, and carry out the
//! actions it decides on.

pub mod ai_tagging;
pub mod errors;
pub mod filename;
pub mod filter;
pub mod grouping;
pub mod image_proc;
pub mod lifecycle;
pub mod number;
pub mod paths;
pub mod term_image;
pub mod terminal;
pub mod text;
pub mod tui_browser;
