//! Pitch representation.
//!
//! Handles pitch classes (C, C#, D, ...) and absolute pitches (MIDI note
//! numbers). A pitch class is a residue 0..=11 of semitones from C; an
//! absolute pitch is a MIDI number 0..=127.

use vstd::prelude::*;
use vstd::arithmetic::div_mod::{lemma_add_mod_noop, lemma_small_mod};
use crate::error::MozartError;
use crate::text::{
    eq_lit,
    parse_int_range,
    spec_is_digit,
    spec_parse_int,
    spec_trim,
    spec_upper,
    str_to_chars,
    trim_chars,
    upper_chars,
};

verus! {

/// Transposition of a pitch class, as a value: floor modulo keeps the
/// result in 0..=11 for every (also negative) semitone count.
pub open spec fn spec_transpose_class(pc: int, semitones: int) -> int {
    (pc + semitones) % 12
}

/// Ascending interval in semitones from one pitch class to another.
pub open spec fn spec_interval(from: int, to: int) -> int {
    (to - from) % 12
}

/// Pitch class (note name without octave).
/// Holds semitones from C (0 = C, 1 = C#/Db, ..., 11 = B).
#[derive(Debug, Clone, Copy, PartialEq, Eq, Hash, Structural)]
pub struct PitchClass(u8);

impl View for PitchClass {
    type V = int;

    closed spec fn view(&self) -> int {
        self.0 as int
    }
}

impl PitchClass {
    /// A pitch class is always kept reduced modulo 12.
    pub open spec fn wf(&self) -> bool {
        0 <= self@ < 12
    }

    /// Create a new pitch class from semitones, reduced modulo 12.
    pub fn new(semitones: u8) -> (r: PitchClass)
        ensures
            r@ == semitones % 12,
            r.wf(),
    {
        PitchClass(semitones % 12)
    }

    /// Get the semitone value (0-11).
    pub fn semitones(&self) -> (r: u8)
        ensures
            r as int == self@,
    {
        self.0
    }

    /// Transpose by semitones (positive = up, negative = down); the result
    /// is reduced with floor modulo, so it is always 0..=11.
    pub fn transpose(&self, semitones: i8) -> (r: PitchClass)
        requires
            self.wf(),
        ensures
            r@ == spec_transpose_class(self@, semitones as int),
            r.wf(),
    {
        let s: i32 = self.0 as i32 + semitones as i32;
        let m: i32 = s.checked_rem_euclid(12).unwrap();
        PitchClass(m as u8)
    }

    /// Ascending interval in semitones to another pitch class.
    pub fn interval_to(&self, other: PitchClass) -> (r: u8)
        requires
            self.wf(),
            other.wf(),
        ensures
            r as int == spec_interval(self@, other@),
            r < 12,
    {
        let d: i32 = other.0 as i32 - self.0 as i32;
        let m: i32 = d.checked_rem_euclid(12).unwrap();
        m as u8
    }
}

/// The pitch class a name stands for: a letter, an optional accidental
/// (sharp as '#', the sharp sign or a trailing 's'; flat as 'b' or the
/// flat sign), compared after trimming and ASCII upper-casing; enharmonic
/// spellings collapse to one pitch class.
pub open spec fn spec_parse_pitch_class(s: Seq<char>) -> Option<int> {
    let t = spec_upper(spec_trim(s));
    if t == "C"@ {
        Some(0int)
    } else if t == "C#"@ || t == "C\u{266f}"@ || t == "CS"@ {
        Some(1int)
    } else if t == "DB"@ || t == "D\u{266d}"@ {
        Some(1int)
    } else if t == "D"@ {
        Some(2int)
    } else if t == "D#"@ || t == "D\u{266f}"@ || t == "DS"@ {
        Some(3int)
    } else if t == "EB"@ || t == "E\u{266d}"@ {
        Some(3int)
    } else if t == "E"@ {
        Some(4int)
    } else if t == "F"@ {
        Some(5int)
    } else if t == "F#"@ || t == "F\u{266f}"@ || t == "FS"@ {
        Some(6int)
    } else if t == "GB"@ || t == "G\u{266d}"@ {
        Some(6int)
    } else if t == "G"@ {
        Some(7int)
    } else if t == "G#"@ || t == "G\u{266f}"@ || t == "GS"@ {
        Some(8int)
    } else if t == "AB"@ || t == "A\u{266d}"@ {
        Some(8int)
    } else if t == "A"@ {
        Some(9int)
    } else if t == "A#"@ || t == "A\u{266f}"@ || t == "AS"@ {
        Some(10int)
    } else if t == "BB"@ || t == "B\u{266d}"@ {
        Some(10int)
    } else if t == "B"@ {
        Some(11int)
    } else {
        None
    }
}

/// Parse a pitch-class name over a range of characters.
#[verifier::rlimit(30)]
pub(crate) fn parse_pitch_class_chars(v: &Vec<char>) -> (r: Result<PitchClass, MozartError>)
    ensures
        match r {
            Ok(pc) => Some(pc@) == spec_parse_pitch_class(v@) && pc.wf(),
            Err(e) => spec_parse_pitch_class(v@) is None && e is InvalidPitch,
        },
{
    let trimmed = trim_chars(v);
    let t = upper_chars(&trimmed);
    let n = t.len();
    proof {
        assert(t@.subrange(0, n as int) =~= t@);
    }
    let sem: u8 = if eq_lit(&t, 0, n, "C") {
        0
    } else if eq_lit(&t, 0, n, "C#") || eq_lit(&t, 0, n, "C\u{266f}") || eq_lit(&t, 0, n, "CS") {
        1
    } else if eq_lit(&t, 0, n, "DB") || eq_lit(&t, 0, n, "D\u{266d}") {
        1
    } else if eq_lit(&t, 0, n, "D") {
        2
    } else if eq_lit(&t, 0, n, "D#") || eq_lit(&t, 0, n, "D\u{266f}") || eq_lit(&t, 0, n, "DS") {
        3
    } else if eq_lit(&t, 0, n, "EB") || eq_lit(&t, 0, n, "E\u{266d}") {
        3
    } else if eq_lit(&t, 0, n, "E") {
        4
    } else if eq_lit(&t, 0, n, "F") {
        5
    } else if eq_lit(&t, 0, n, "F#") || eq_lit(&t, 0, n, "F\u{266f}") || eq_lit(&t, 0, n, "FS") {
        6
    } else if eq_lit(&t, 0, n, "GB") || eq_lit(&t, 0, n, "G\u{266d}") {
        6
    } else if eq_lit(&t, 0, n, "G") {
        7
    } else if eq_lit(&t, 0, n, "G#") || eq_lit(&t, 0, n, "G\u{266f}") || eq_lit(&t, 0, n, "GS") {
        8
    } else if eq_lit(&t, 0, n, "AB") || eq_lit(&t, 0, n, "A\u{266d}") {
        8
    } else if eq_lit(&t, 0, n, "A") {
        9
    } else if eq_lit(&t, 0, n, "A#") || eq_lit(&t, 0, n, "A\u{266f}") || eq_lit(&t, 0, n, "AS") {
        10
    } else if eq_lit(&t, 0, n, "BB") || eq_lit(&t, 0, n, "B\u{266d}") {
        10
    } else if eq_lit(&t, 0, n, "B") {
        11
    } else {
        return Err(MozartError::InvalidPitch(String::from_str("unknown pitch class")));
    };
    Ok(PitchClass::new(sem))
}

impl PitchClass {
    /// Parse a pitch class from text (e.g. "C", "C#", "Db"); unknown
    /// names are rejected with `InvalidPitch`.
    pub fn parse(s: &str) -> (r: Result<PitchClass, MozartError>)
        ensures
            match r {
                Ok(pc) => Some(pc@) == spec_parse_pitch_class(s@) && pc.wf(),
                Err(e) => spec_parse_pitch_class(s@) is None && e is InvalidPitch,
            },
    {
        let chars = str_to_chars(s);
        parse_pitch_class_chars(&chars)
    }

    /// The display name of a pitch class (sharps preferred, except the
    /// customary flat spellings Eb, Ab and Bb).
    pub open spec fn spec_natural_name(pc: int) -> Seq<char> {
        if pc == 0 {
            "C"@
        } else if pc == 1 {
            "C#"@
        } else if pc == 2 {
            "D"@
        } else if pc == 3 {
            "Eb"@
        } else if pc == 4 {
            "E"@
        } else if pc == 5 {
            "F"@
        } else if pc == 6 {
            "F#"@
        } else if pc == 7 {
            "G"@
        } else if pc == 8 {
            "Ab"@
        } else if pc == 9 {
            "A"@
        } else if pc == 10 {
            "Bb"@
        } else {
            "B"@
        }
    }

    /// Get the display name (one canonical spelling per pitch class).
    pub fn natural_name(&self) -> (r: &'static str)
        requires
            self.wf(),
        ensures
            r@ == Self::spec_natural_name(self@),
    {
        match self.0 {
            0 => "C",
            1 => "C#",
            2 => "D",
            3 => "Eb",
            4 => "E",
            5 => "F",
            6 => "F#",
            7 => "G",
            8 => "Ab",
            9 => "A",
            10 => "Bb",
            _ => "B",
        }
    }

    /// All pitch classes in chromatic order.
    pub fn all() -> (r: [PitchClass; 12])
        ensures
            forall|i: int| 0 <= i < 12 ==> (#[trigger] r@[i])@ == i && r@[i].wf(),
    {
        let r = [
            PitchClass(0),
            PitchClass(1),
            PitchClass(2),
            PitchClass(3),
            PitchClass(4),
            PitchClass(5),
            PitchClass(6),
            PitchClass(7),
            PitchClass(8),
            PitchClass(9),
            PitchClass(10),
            PitchClass(11),
        ];
        proof {
            assert(forall|i: int| 0 <= i < 12 ==> (#[trigger] r@[i])@ == i) by {
                assert(r@[0]@ == 0);
                assert(r@[1]@ == 1);
                assert(r@[2]@ == 2);
                assert(r@[3]@ == 3);
                assert(r@[4]@ == 4);
                assert(r@[5]@ == 5);
                assert(r@[6]@ == 6);
                assert(r@[7]@ == 7);
                assert(r@[8]@ == 8);
                assert(r@[9]@ == 9);
                assert(r@[10]@ == 10);
                assert(r@[11]@ == 11);
            }
        }
        r
    }
}

/// The position of the first character that can start an octave number (a
/// digit or a minus sign), from index `i` on.
pub open spec fn spec_first_octave_pos(s: Seq<char>, i: nat) -> Option<int>
    decreases s.len() - i,
{
    if i >= s.len() {
        None
    } else if spec_is_digit(s[i as int]) || s[i as int] == '-' {
        Some(i as int)
    } else {
        spec_first_octave_pos(s, (i + 1) as nat)
    }
}

/// The MIDI number a pitch name stands for: a pitch-class name followed by
/// a signed octave (the octave starts at the first digit or minus sign of
/// the trimmed text), when that lands in the MIDI range.
pub open spec fn spec_parse_pitch(s: Seq<char>) -> Option<int> {
    let t = spec_trim(s);
    match spec_first_octave_pos(t, 0) {
        None => None,
        Some(pos) => match spec_parse_pitch_class(t.take(pos)) {
            None => None,
            Some(pc) => match spec_parse_int(t.skip(pos), -128, 127) {
                None => None,
                Some(oct) => {
                    let m = Pitch::spec_midi_of(pc, oct);
                    if 0 <= m <= 127 {
                        Some(m)
                    } else {
                        None
                    }
                },
            },
        },
    }
}

/// A pitch class's semitone value is a byte.
pub proof fn lemma_pitch_class_view_bounds(pc: PitchClass)
    ensures
        0 <= pc@ < 256,
{
}

/// Transposing a pitch class by any amount and back returns the original
/// pitch class.
pub proof fn lemma_transpose_class_round_trip(pc: int, n: int)
    requires
        0 <= pc < 12,
    ensures
        spec_transpose_class(spec_transpose_class(pc, n), -n) == pc,
{
    let x = (pc + n) % 12;
    lemma_small_mod(x as nat, 12);
    lemma_add_mod_noop(pc + n, -n, 12);
    lemma_small_mod(pc as nat, 12);
    assert(spec_transpose_class(x, -n) == ((pc + n) + (-n)) % 12);
}

/// Absolute pitch: a MIDI note number 0..=127, where 60 is middle C.
#[derive(Debug, Clone, Copy, PartialEq, Eq, Hash, Structural)]
pub struct Pitch {
    midi: u8,
}

impl View for Pitch {
    type V = int;

    closed spec fn view(&self) -> int {
        self.midi as int
    }
}

impl Pitch {
    /// MIDI numbers run 0..=127; every constructor validates the range.
    pub open spec fn wf(&self) -> bool {
        0 <= self@ <= 127
    }

    /// The MIDI number a pitch class and octave stand for
    /// (scientific pitch notation: middle C = C4).
    pub open spec fn spec_midi_of(pitch_class: int, octave: int) -> int {
        (octave + 1) * 12 + pitch_class
    }

    /// Create a pitch from a MIDI note number; numbers above 127 are
    /// rejected with `InvalidPitch`.
    pub fn from_midi(midi: u8) -> (r: Result<Pitch, MozartError>)
        ensures
            midi <= 127 ==> (r matches Ok(p) && p@ == midi && p.wf()),
            midi > 127 ==> (r matches Err(e) && e is InvalidPitch),
    {
        if midi > 127 {
            Err(MozartError::InvalidPitch(String::from_str("MIDI note out of range (0-127)")))
        } else {
            Ok(Pitch { midi })
        }
    }

    /// Create a pitch from pitch class and octave (scientific pitch
    /// notation); fails with `InvalidPitch` when the MIDI number would
    /// leave 0..=127.
    pub fn new(pitch_class: PitchClass, octave: i8) -> (r: Result<Pitch, MozartError>)
        requires
            pitch_class.wf(),
        ensures
            0 <= Self::spec_midi_of(pitch_class@, octave as int) <= 127 ==> (r matches Ok(p)
                && p@ == Self::spec_midi_of(pitch_class@, octave as int) && p.wf()),
            !(0 <= Self::spec_midi_of(pitch_class@, octave as int) <= 127) ==> (r matches Err(e)
                && e is InvalidPitch),
    {
        let midi: i32 = (octave as i32 + 1) * 12 + pitch_class.semitones() as i32;
        if midi < 0 || midi > 127 {
            Err(MozartError::InvalidPitch(String::from_str("pitch out of MIDI range")))
        } else {
            Ok(Pitch { midi: midi as u8 })
        }
    }

    /// Parse a pitch from text (e.g. "C4", "F#5", "Bb3"): a pitch-class
    /// name followed by a signed octave. Text without an octave or with a
    /// malformed one is rejected with `ParseError`; an unknown pitch-class
    /// name or an out-of-range result with `InvalidPitch`.
    pub fn parse(s: &str) -> (r: Result<Pitch, MozartError>)
        ensures
            match r {
                Ok(p) => Some(p@) == spec_parse_pitch(s@) && p.wf(),
                Err(e) => spec_parse_pitch(s@) is None && ({
                    let t = spec_trim(s@);
                    match spec_first_octave_pos(t, 0) {
                        None => e is ParseError,
                        Some(pos) => match spec_parse_pitch_class(t.take(pos)) {
                            None => e is InvalidPitch,
                            Some(_) => match spec_parse_int(t.skip(pos), -128, 127) {
                                None => e is ParseError,
                                Some(_) => e is InvalidPitch,
                            },
                        },
                    }
                }),
            },
    {
        let chars = str_to_chars(s);
        let t = trim_chars(&chars);
        let n = t.len();

        // Find where the octave number starts.
        let mut pos: usize = 0;
        while pos < n && !(('0' <= t[pos] && t[pos] <= '9') || t[pos] == '-')
            invariant
                n == t@.len(),
                pos <= n,
                spec_first_octave_pos(t@, 0) == spec_first_octave_pos(t@, pos as nat),
            decreases n - pos,
        {
            pos = pos + 1;
        }
        if pos == n {
            return Err(MozartError::ParseError(String::from_str("no octave in pitch")));
        }
        assert(spec_first_octave_pos(t@, 0) == Some(pos as int));

        let mut class_part: Vec<char> = Vec::new();
        let mut i: usize = 0;
        while i < pos
            invariant
                i <= pos <= t@.len(),
                class_part@ == t@.subrange(0, i as int),
            decreases pos - i,
        {
            class_part.push(t[i]);
            proof {
                assert(t@.subrange(0, i + 1) =~= t@.subrange(0, i as int).push(t@[i as int]));
            }
            i = i + 1;
        }
        proof {
            assert(class_part@ =~= t@.take(pos as int));
        }

        let pitch_class = match parse_pitch_class_chars(&class_part) {
            Ok(pc) => pc,
            Err(e) => {
                return Err(e);
            },
        };

        let octave = match parse_int_range(&t, pos, n, -128, 127) {
            Some(v) => v,
            None => {
                proof {
                    assert(t@.subrange(pos as int, n as int) =~= t@.skip(pos as int));
                }
                return Err(MozartError::ParseError(String::from_str("invalid octave")));
            },
        };
        proof {
            assert(t@.subrange(pos as int, n as int) =~= t@.skip(pos as int));
        }

        Pitch::new(pitch_class, octave as i8)
    }

    /// Get the MIDI note number.
    pub fn midi(&self) -> (r: u8)
        ensures
            r as int == self@,
    {
        self.midi
    }

    /// Get the pitch class.
    pub fn pitch_class(&self) -> (r: PitchClass)
        ensures
            r@ == self@ % 12,
            r.wf(),
    {
        PitchClass::new(self.midi % 12)
    }

    /// Get the octave (scientific pitch notation).
    pub fn octave(&self) -> (r: i8)
        ensures
            r as int == self@ / 12 - 1,
    {
        (self.midi / 12) as i8 - 1
    }

    /// Transpose by semitones; fails with `TranspositionError` when the
    /// result would leave the MIDI range (no clamping).
    pub fn transpose(&self, semitones: i8) -> (r: Result<Pitch, MozartError>)
        requires
            self.wf(),
        ensures
            0 <= self@ + semitones <= 127 ==> (r matches Ok(p) && p@ == self@ + semitones
                && p.wf()),
            !(0 <= self@ + semitones <= 127) ==> (r matches Err(e) && e is TranspositionError),
    {
        let new_midi: i32 = self.midi as i32 + semitones as i32;
        if new_midi < 0 || new_midi > 127 {
            Err(MozartError::TranspositionError(
                String::from_str("transposition would put note out of MIDI range"),
            ))
        } else {
            Ok(Pitch { midi: new_midi as u8 })
        }
    }
}

} // verus!
