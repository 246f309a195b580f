//! A monophonic music engine: pitch and scale algebra, tick-based notes and
//! meters, chromatic and diatonic transposition, and a byte-exact Standard
//! MIDI File (format 0) encoder.

use vstd::prelude::*;

pub mod error;
pub mod groupings;
pub mod json;
pub mod midi;
pub mod note;
pub mod pitch;
pub mod scale;
pub mod song;
pub mod text;
pub mod time;
pub mod transpose;

pub use error::MozartError;
pub use note::{Note, NoteDuration, NoteValue, format_melody, parse_melody};
pub use pitch::{Pitch, PitchClass};
pub use scale::{Scale, ScaleType};
pub use song::{Song, SongMetadata, SongSettings};
pub use time::{AccentLevel, AccentPattern, TimeSignature};
pub use transpose::{TransposeMode, detect_scale, transpose_notes};

verus! {

/// Ticks per quarter note (standard MIDI resolution).
pub const TICKS_PER_QUARTER: u32 = 480;

} // verus!
