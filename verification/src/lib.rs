//! Frame-level editing core of an animated GIF / WebP editor.
//!
//! `model` holds the document state (frames, frame store, undo history,
//! selection, playback) and its single state-transition entry point;
//! `codec` holds the encode/decode boundary; `render` holds the pure
//! geometry and labelling helpers used by the views.
use vstd::prelude::*;

pub mod codec;
pub mod errors;
pub mod model;
pub mod platform;
pub mod render;
pub mod text;

pub use errors::AppError;

verus! {
} // verus!
