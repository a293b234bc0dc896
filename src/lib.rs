//! The logic of a terminal file browser driven by Vim-style keys.
//!
//! - [`key`], [`binding`], [`machine`]: key presses, bindings, and the chord
//!   matcher that turns key presses (with an optional repeat count) into
//!   commands; [`laws`] states what holds of the matcher for every input.
//! - [`render`]: the canonical text of key presses and chords.
//! - [`defaults`]: the bindings the browser starts with.
//! - [`sorting`], [`state`]: the listed files, their order, the selection, and
//!   the commands that change them.
//! - [`notes`], [`text`]: file names of dated notes, decimal text.

pub mod key;
pub mod binding;
pub mod machine;
pub mod laws;
pub mod render;
pub mod text;
pub mod defaults;
pub mod sorting;
pub mod state;
pub mod notes;
