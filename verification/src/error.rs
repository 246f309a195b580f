//! Error values returned by the engine.
//!
//! Every fallible operation reports its failure as one of these variants;
//! nothing in the engine panics on valid input.

use vstd::prelude::*;

verus! {

/// Errors that the music engine can report.
#[derive(Debug, Clone, PartialEq, Eq)]
pub enum MozartError {
    /// Out-of-range MIDI number or unparseable pitch class.
    InvalidPitch(String),
    /// Unknown duration code.
    InvalidDuration(String),
    /// Numerator/denominator pair fails validation.
    InvalidTimeSignature { numerator: u8, denominator: u8 },
    /// Unknown scale-type name.
    InvalidScale(String),
    /// Result pitch out of range, or an internal degree lookup failure.
    TranspositionError(String),
    /// Malformed note, melody or time-signature text.
    ParseError(String),
    /// I/O failure at the persistence edge.
    FileError(String),
    /// I/O failure during a MIDI file write.
    MidiError(String),
    /// Score text encode/decode failure.
    SerializationError(String),
}

} // verus!
