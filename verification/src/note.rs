//! Note representation.
//!
//! A note combines pitch, timing, duration and velocity, all quantized to
//! ticks (480 ticks to the quarter note).

use vstd::prelude::*;
use crate::pitch::{Pitch, spec_parse_pitch};
use crate::error::MozartError;
use crate::text::{
    lower_chars,
    eq_lit,
    spec_is_digit,
    spec_lower,
    spec_trim,
    str_to_chars,
    trim_bounds,
};

verus! {

/// Standard note duration values.
#[derive(Debug, Clone, Copy, PartialEq, Eq, Structural)]
pub enum NoteValue {
    Whole,
    Half,
    Quarter,
    Eighth,
    Sixteenth,
}

/// Tick count of an undotted note value.
pub open spec fn spec_value_ticks(v: NoteValue) -> int {
    match v {
        NoteValue::Whole => 1920,
        NoteValue::Half => 960,
        NoteValue::Quarter => 480,
        NoteValue::Eighth => 240,
        NoteValue::Sixteenth => 120,
    }
}

impl NoteValue {
    /// Get the duration in ticks.
    pub fn ticks(&self) -> (r: u32)
        ensures
            r as int == spec_value_ticks(*self),
    {
        match self {
            NoteValue::Whole => crate::TICKS_PER_QUARTER * 4,
            NoteValue::Half => crate::TICKS_PER_QUARTER * 2,
            NoteValue::Quarter => crate::TICKS_PER_QUARTER,
            NoteValue::Eighth => crate::TICKS_PER_QUARTER / 2,
            NoteValue::Sixteenth => crate::TICKS_PER_QUARTER / 4,
        }
    }

    /// The one-letter code of a note value.
    pub open spec fn spec_short_name(v: NoteValue) -> Seq<char> {
        match v {
            NoteValue::Whole => "w"@,
            NoteValue::Half => "h"@,
            NoteValue::Quarter => "q"@,
            NoteValue::Eighth => "e"@,
            NoteValue::Sixteenth => "s"@,
        }
    }

    /// Get the one-letter code.
    pub fn short_name(&self) -> (r: &'static str)
        ensures
            r@ == Self::spec_short_name(*self),
    {
        match self {
            NoteValue::Whole => "w",
            NoteValue::Half => "h",
            NoteValue::Quarter => "q",
            NoteValue::Eighth => "e",
            NoteValue::Sixteenth => "s",
        }
    }

    /// Parse a note value from its code or name ("w", "whole", "1", ...);
    /// unknown codes are rejected with `InvalidDuration`.
    pub fn parse(s: &str) -> (r: Result<NoteValue, MozartError>)
        ensures
            match r {
                Ok(v) => Some(v) == spec_parse_note_value(s@),
                Err(e) => spec_parse_note_value(s@) is None && e is InvalidDuration,
            },
    {
        let chars = str_to_chars(s);
        let t = lower_chars(&chars);
        let n = t.len();
        proof {
            assert(t@.subrange(0, n as int) =~= t@);
        }
        if eq_lit(&t, 0, n, "w") || eq_lit(&t, 0, n, "whole") || eq_lit(&t, 0, n, "1") {
            Ok(NoteValue::Whole)
        } else if eq_lit(&t, 0, n, "h") || eq_lit(&t, 0, n, "half") || eq_lit(&t, 0, n, "2") {
            Ok(NoteValue::Half)
        } else if eq_lit(&t, 0, n, "q") || eq_lit(&t, 0, n, "quarter") || eq_lit(&t, 0, n, "4") {
            Ok(NoteValue::Quarter)
        } else if eq_lit(&t, 0, n, "e") || eq_lit(&t, 0, n, "eighth") || eq_lit(&t, 0, n, "8") {
            Ok(NoteValue::Eighth)
        } else if eq_lit(&t, 0, n, "s") || eq_lit(&t, 0, n, "sixteenth") || eq_lit(&t, 0, n, "16") {
            Ok(NoteValue::Sixteenth)
        } else {
            Err(MozartError::InvalidDuration(String::from_str("unknown note value")))
        }
    }
}

/// The note value a code stands for, compared after ASCII lower-casing.
pub open spec fn spec_parse_note_value(s: Seq<char>) -> Option<NoteValue> {
    let t = spec_lower(s);
    if t == "w"@ || t == "whole"@ || t == "1"@ {
        Some(NoteValue::Whole)
    } else if t == "h"@ || t == "half"@ || t == "2"@ {
        Some(NoteValue::Half)
    } else if t == "q"@ || t == "quarter"@ || t == "4"@ {
        Some(NoteValue::Quarter)
    } else if t == "e"@ || t == "eighth"@ || t == "8"@ {
        Some(NoteValue::Eighth)
    } else if t == "s"@ || t == "sixteenth"@ || t == "16"@ {
        Some(NoteValue::Sixteenth)
    } else {
        None
    }
}

/// The duration a code suffix stands for: empty means an undotted quarter,
/// a trailing dot marks a dotted duration, and the rest is a note value.
pub open spec fn spec_parse_duration_code(s: Seq<char>) -> Option<NoteDuration> {
    if s.len() == 0 {
        Some(NoteDuration { value: NoteValue::Quarter, dotted: false })
    } else {
        let dotted = s.last() == '.';
        let value_str = if dotted {
            s.drop_last()
        } else {
            s
        };
        match spec_parse_note_value(value_str) {
            Some(value) => Some(NoteDuration { value, dotted }),
            None => None,
        }
    }
}

/// Parse a duration code suffix ("q", "h.", ...; empty reads as an
/// undotted quarter).
fn parse_duration_code(s: &str) -> (r: Result<NoteDuration, MozartError>)
    ensures
        match r {
            Ok(d) => Some(d) == spec_parse_duration_code(s@),
            Err(e) => spec_parse_duration_code(s@) is None && e is InvalidDuration,
        },
{
    let n = s.unicode_len();
    if n == 0 {
        return Ok(NoteDuration { value: NoteValue::Quarter, dotted: false });
    }
    let dotted = s.get_char(n - 1) == '.';
    let value_str = if dotted {
        s.substring_char(0, n - 1)
    } else {
        s
    };
    proof {
        if dotted {
            assert(value_str@ =~= s@.drop_last());
        }
    }
    match NoteValue::parse(value_str) {
        Ok(value) => Ok(NoteDuration { value, dotted }),
        Err(e) => Err(e),
    }
}

/// Note duration with an optional dot (a dot adds half the base value).
#[derive(Debug, Clone, Copy, PartialEq, Eq, Structural)]
pub struct NoteDuration {
    pub value: NoteValue,
    pub dotted: bool,
}

/// Tick count of a duration: the base value, plus half of it when dotted.
pub open spec fn spec_duration_ticks(d: NoteDuration) -> int {
    if d.dotted {
        spec_value_ticks(d.value) + spec_value_ticks(d.value) / 2
    } else {
        spec_value_ticks(d.value)
    }
}

/// One step of the closest-duration scan: a candidate displaces the best
/// found so far only when its absolute tick difference is strictly
/// smaller.
pub open spec fn spec_closer(best: (NoteDuration, int), cand: NoteDuration, ticks: int) -> (
    NoteDuration,
    int,
) {
    let diff = crate::scale::abs_val(spec_duration_ticks(cand) - ticks);
    if diff < best.1 {
        (cand, diff)
    } else {
        best
    }
}

/// The duration closest to a raw tick count: all ten candidates (five
/// values, each regular then dotted) are weighed in a fixed order, and the
/// first of any tied minimum wins.
pub open spec fn spec_closest_duration(ticks: int) -> NoteDuration {
    let b0 = (NoteDuration { value: NoteValue::Quarter, dotted: false }, 0x1_0000_0000int);
    let b1 = spec_closer(b0, NoteDuration { value: NoteValue::Whole, dotted: false }, ticks);
    let b2 = spec_closer(b1, NoteDuration { value: NoteValue::Whole, dotted: true }, ticks);
    let b3 = spec_closer(b2, NoteDuration { value: NoteValue::Half, dotted: false }, ticks);
    let b4 = spec_closer(b3, NoteDuration { value: NoteValue::Half, dotted: true }, ticks);
    let b5 = spec_closer(b4, NoteDuration { value: NoteValue::Quarter, dotted: false }, ticks);
    let b6 = spec_closer(b5, NoteDuration { value: NoteValue::Quarter, dotted: true }, ticks);
    let b7 = spec_closer(b6, NoteDuration { value: NoteValue::Eighth, dotted: false }, ticks);
    let b8 = spec_closer(b7, NoteDuration { value: NoteValue::Eighth, dotted: true }, ticks);
    let b9 = spec_closer(b8, NoteDuration { value: NoteValue::Sixteenth, dotted: false }, ticks);
    let b10 = spec_closer(b9, NoteDuration { value: NoteValue::Sixteenth, dotted: true }, ticks);
    b10.0
}

impl NoteDuration {
    /// An undotted duration.
    pub fn new(value: NoteValue) -> (r: NoteDuration)
        ensures
            r == (NoteDuration { value, dotted: false }),
    {
        NoteDuration { value, dotted: false }
    }

    /// A dotted duration.
    pub fn dotted(value: NoteValue) -> (r: NoteDuration)
        ensures
            r == (NoteDuration { value, dotted: true }),
    {
        NoteDuration { value, dotted: true }
    }

    /// Get the duration in ticks.
    pub fn ticks(&self) -> (r: u32)
        ensures
            r as int == spec_duration_ticks(*self),
            0 < r <= 2880,
    {
        let base = self.value.ticks();
        if self.dotted {
            base + base / 2
        } else {
            base
        }
    }

    /// Create from raw ticks, keeping the closest of the ten standard
    /// durations (first of any tied minimum in scan order wins).
    pub fn from_ticks(ticks: u32) -> (r: NoteDuration)
        ensures
            r == spec_closest_duration(ticks as int),
    {
        let mut best = NoteDuration { value: NoteValue::Quarter, dotted: false };
        let mut best_diff: u64 = 0x1_0000_0000;
        let candidates: [NoteDuration; 10] = [
            NoteDuration { value: NoteValue::Whole, dotted: false },
            NoteDuration { value: NoteValue::Whole, dotted: true },
            NoteDuration { value: NoteValue::Half, dotted: false },
            NoteDuration { value: NoteValue::Half, dotted: true },
            NoteDuration { value: NoteValue::Quarter, dotted: false },
            NoteDuration { value: NoteValue::Quarter, dotted: true },
            NoteDuration { value: NoteValue::Eighth, dotted: false },
            NoteDuration { value: NoteValue::Eighth, dotted: true },
            NoteDuration { value: NoteValue::Sixteenth, dotted: false },
            NoteDuration { value: NoteValue::Sixteenth, dotted: true },
        ];
        let mut i: usize = 0;
        while i < 10
            invariant
                i <= 10,
                best_diff <= 0x1_0000_0000,
                candidates@ =~= seq![
                    NoteDuration { value: NoteValue::Whole, dotted: false },
                    NoteDuration { value: NoteValue::Whole, dotted: true },
                    NoteDuration { value: NoteValue::Half, dotted: false },
                    NoteDuration { value: NoteValue::Half, dotted: true },
                    NoteDuration { value: NoteValue::Quarter, dotted: false },
                    NoteDuration { value: NoteValue::Quarter, dotted: true },
                    NoteDuration { value: NoteValue::Eighth, dotted: false },
                    NoteDuration { value: NoteValue::Eighth, dotted: true },
                    NoteDuration { value: NoteValue::Sixteenth, dotted: false },
                    NoteDuration { value: NoteValue::Sixteenth, dotted: true },
                ],
                spec_scan_closest(candidates@, ticks as int, i as nat, (best, best_diff as int))
                    == spec_scan_closest(
                    candidates@,
                    ticks as int,
                    0,
                    (NoteDuration { value: NoteValue::Quarter, dotted: false }, 0x1_0000_0000int),
                ),
            decreases 10 - i,
        {
            let cand = candidates[i];
            let ct = cand.ticks() as u64;
            let t = ticks as u64;
            let diff: u64 = if ct >= t {
                ct - t
            } else {
                t - ct
            };
            if diff < best_diff {
                best = cand;
                best_diff = diff;
            }
            i = i + 1;
        }
        proof {
            lemma_scan_closest_is_fold(candidates@, ticks as int);
        }
        best
    }
}

/// The closest-duration scan over the tail of the candidate list from
/// index `j` on, carrying the best candidate and difference found so far.
pub open spec fn spec_scan_closest(
    cands: Seq<NoteDuration>,
    ticks: int,
    j: nat,
    best: (NoteDuration, int),
) -> (NoteDuration, int)
    decreases cands.len() - j,
{
    if j >= cands.len() {
        best
    } else {
        spec_scan_closest(cands, ticks, (j + 1) as nat, spec_closer(best, cands[j as int], ticks))
    }
}

/// Scanning the fixed candidate list is the same as the fixed fold that
/// defines the closest duration.
proof fn lemma_scan_closest_is_fold(cands: Seq<NoteDuration>, ticks: int)
    requires
        cands =~= seq![
            NoteDuration { value: NoteValue::Whole, dotted: false },
            NoteDuration { value: NoteValue::Whole, dotted: true },
            NoteDuration { value: NoteValue::Half, dotted: false },
            NoteDuration { value: NoteValue::Half, dotted: true },
            NoteDuration { value: NoteValue::Quarter, dotted: false },
            NoteDuration { value: NoteValue::Quarter, dotted: true },
            NoteDuration { value: NoteValue::Eighth, dotted: false },
            NoteDuration { value: NoteValue::Eighth, dotted: true },
            NoteDuration { value: NoteValue::Sixteenth, dotted: false },
            NoteDuration { value: NoteValue::Sixteenth, dotted: true },
        ],
    ensures
        spec_scan_closest(
            cands,
            ticks,
            0,
            (NoteDuration { value: NoteValue::Quarter, dotted: false }, 0x1_0000_0000int),
        ).0 == spec_closest_duration(ticks),
{
    reveal_with_fuel(spec_scan_closest, 11);
}

/// Where the duration code of a note token starts: the position of the
/// first letter after at least one digit or minus sign has been seen, or
/// the end of the token.
pub open spec fn spec_pitch_end(s: Seq<char>, i: int, found: bool) -> int
    decreases s.len() - i,
{
    if i < 0 || i >= s.len() {
        s.len() as int
    } else if found && (('a' <= s[i] <= 'z') || ('A' <= s[i] <= 'Z')) {
        i
    } else {
        spec_pitch_end(s, i + 1, found || spec_is_digit(s[i]) || s[i] == '-')
    }
}

/// The pitch and duration a note token stands for: the pitch part up to
/// the duration code, and the code itself (empty means a quarter note).
pub open spec fn spec_parse_note_token(s: Seq<char>) -> Option<(int, NoteDuration)> {
    let t = spec_trim(s);
    if t.len() == 0 {
        None
    } else {
        let end = spec_pitch_end(t, 0, false);
        match spec_parse_pitch(t.take(end)) {
            None => None,
            Some(midi) => match spec_parse_duration_code(t.skip(end)) {
                None => None,
                Some(d) => Some((midi, d)),
            },
        }
    }
}

/// A musical note with pitch, timing, duration and velocity.
#[derive(Debug, Clone, Copy, PartialEq, Eq, Structural)]
pub struct Note {
    /// MIDI pitch (0-127).
    pub pitch: u8,
    /// Start position in ticks from the beginning of the score.
    pub start_tick: u32,
    /// Duration in ticks.
    pub duration_ticks: u32,
    /// Velocity (0-127, default 100).
    pub velocity: u8,
    /// Voice/layer (0 = main melody, 1+ = harmony voices).
    pub voice: u8,
}

impl Note {
    /// A note's end never runs past the tick range, and its pitch and
    /// velocity fit the MIDI byte range.
    pub open spec fn wf(&self) -> bool {
        &&& self.pitch <= 127
        &&& self.velocity <= 127
        &&& self.start_tick + self.duration_ticks <= u32::MAX
    }

    /// Create a new note with default velocity 100 on the main voice.
    pub fn new(pitch: u8, start_tick: u32, duration_ticks: u32) -> (r: Note)
        ensures
            r == (Note { pitch, start_tick, duration_ticks, velocity: 100, voice: 0 }),
    {
        Note { pitch, start_tick, duration_ticks, velocity: 100, voice: 0 }
    }

    /// Create a note with a specific velocity (clamped to 127) on the
    /// main voice.
    pub fn with_velocity(pitch: u8, start_tick: u32, duration_ticks: u32, velocity: u8) -> (r:
        Note)
        ensures
            r == (Note {
                pitch,
                start_tick,
                duration_ticks,
                velocity: if velocity <= 127 {
                    velocity
                } else {
                    127
                },
                voice: 0,
            }),
    {
        let v: u8 = if velocity <= 127 {
            velocity
        } else {
            127
        };
        Note { pitch, start_tick, duration_ticks, velocity: v, voice: 0 }
    }

    /// Create a note with a specific velocity (clamped to 127) and voice.
    pub fn with_voice(pitch: u8, start_tick: u32, duration_ticks: u32, velocity: u8, voice: u8)
        -> (r: Note)
        ensures
            r == (Note {
                pitch,
                start_tick,
                duration_ticks,
                velocity: if velocity <= 127 {
                    velocity
                } else {
                    127
                },
                voice,
            }),
    {
        let v: u8 = if velocity <= 127 {
            velocity
        } else {
            127
        };
        Note { pitch, start_tick, duration_ticks, velocity: v, voice }
    }

    /// Create a note from a pitch and a duration.
    pub fn from_pitch(pitch: Pitch, start_tick: u32, duration: NoteDuration) -> (r: Note)
        ensures
            r.pitch as int == pitch@,
            r.start_tick == start_tick,
            r.duration_ticks as int == spec_duration_ticks(duration),
            r.velocity == 100,
            r.voice == 0,
    {
        Note {
            pitch: pitch.midi(),
            start_tick,
            duration_ticks: duration.ticks(),
            velocity: 100,
            voice: 0,
        }
    }

    /// Parse a note from text notation ("C4q", "F#5h.", ...): a pitch
    /// name, then an optional duration code (missing means a quarter
    /// note), placed at the given start tick.
    pub fn parse(s: &str, start_tick: u32) -> (r: Result<Note, MozartError>)
        ensures
            match r {
                Ok(note) => ({
                    match spec_parse_note_token(s@) {
                        Some((midi, d)) => note.pitch as int == midi && note.start_tick
                            == start_tick && note.duration_ticks as int == spec_duration_ticks(d)
                            && note.velocity == 100 && note.voice == 0,
                        None => false,
                    }
                }),
                Err(e) => spec_parse_note_token(s@) is None && (e is ParseError
                    || e is InvalidPitch || e is InvalidDuration),
            },
    {
        let chars = str_to_chars(s);
        let (a, b) = trim_bounds(&chars);
        let ghost t = spec_trim(s@);

        if a == b {
            return Err(MozartError::ParseError(String::from_str("empty note text")));
        }

        // Find where the duration code starts: the first letter after at
        // least one digit (or minus sign) has been seen.
        let mut found_octave = false;
        let mut i: usize = a;
        while i < b && !(found_octave && (('a' <= chars[i] && chars[i] <= 'z') || ('A' <= chars[i]
            && chars[i] <= 'Z')))
            invariant
                a <= i <= b <= chars@.len(),
                t == chars@.subrange(a as int, b as int),
                spec_pitch_end(t, 0, false) == spec_pitch_end(t, i - a, found_octave),
            decreases b - i,
        {
            let c = chars[i];
            if ('0' <= c && c <= '9') || c == '-' {
                found_octave = true;
            }
            i = i + 1;
        }
        let pitch_end = i;
        let ghost end = pitch_end - a;
        assert(end == spec_pitch_end(t, 0, false));

        let pitch_str = s.substring_char(a, pitch_end);
        let duration_str = s.substring_char(pitch_end, b);
        proof {
            assert(pitch_str@ =~= t.take(end));
            assert(duration_str@ =~= t.skip(end));
        }

        let pitch = match Pitch::parse(pitch_str) {
            Ok(p) => p,
            Err(e) => {
                return Err(e);
            },
        };
        let duration = match parse_duration_code(duration_str) {
            Ok(d) => d,
            Err(e) => {
                return Err(e);
            },
        };
        Ok(Note::from_pitch(pitch, start_tick, duration))
    }

    /// Get the pitch; fails with `InvalidPitch` for a raw pitch byte
    /// outside the MIDI range.
    pub fn pitch(&self) -> (r: Result<Pitch, MozartError>)
        ensures
            self.pitch <= 127 ==> (r matches Ok(p) && p@ == self.pitch),
            self.pitch > 127 ==> (r matches Err(e) && e is InvalidPitch),
    {
        Pitch::from_midi(self.pitch)
    }

    /// Get the end tick.
    pub fn end_tick(&self) -> (r: u32)
        requires
            self.start_tick + self.duration_ticks <= u32::MAX,
        ensures
            r == self.start_tick + self.duration_ticks,
    {
        self.start_tick + self.duration_ticks
    }

    /// Get the duration as the closest standard duration.
    pub fn duration(&self) -> (r: NoteDuration)
        ensures
            r == spec_closest_duration(self.duration_ticks as int),
    {
        NoteDuration::from_ticks(self.duration_ticks)
    }
}


/// The text of an octave number (octaves of valid MIDI pitches run -1..9).
pub open spec fn spec_octave_str(o: int) -> Seq<char> {
    if o <= -1 {
        "-1"@
    } else if o == 0 {
        "0"@
    } else if o == 1 {
        "1"@
    } else if o == 2 {
        "2"@
    } else if o == 3 {
        "3"@
    } else if o == 4 {
        "4"@
    } else if o == 5 {
        "5"@
    } else if o == 6 {
        "6"@
    } else if o == 7 {
        "7"@
    } else if o == 8 {
        "8"@
    } else {
        "9"@
    }
}

/// The text notation of a note: its pitch name (canonical spelling and
/// octave), then its closest standard duration's code, with a trailing dot
/// when dotted.
pub open spec fn spec_note_text(note: Note) -> Seq<char> {
    let d = spec_closest_duration(note.duration_ticks as int);
    crate::pitch::PitchClass::spec_natural_name(note.pitch as int % 12) + spec_octave_str(
        note.pitch as int / 12 - 1,
    ) + NoteValue::spec_short_name(d.value) + (if d.dotted {
        "."@
    } else {
        Seq::<char>::empty()
    })
}

impl Note {
    /// Format as text notation (pitch name plus duration code).
    pub fn to_text(&self) -> (r: String)
        requires
            self.pitch <= 127,
        ensures
            r@ == spec_note_text(*self),
    {
        let pitch = match Pitch::from_midi(self.pitch) {
            Ok(p) => p,
            Err(_) => {
                proof {
                    assert(false);
                }
                Pitch::from_midi(0).unwrap()
            },
        };
        let duration = self.duration();
        let mut out = String::new();
        out.append(pitch.pitch_class().natural_name());
        let octave = pitch.octave();
        let octave_str: &str = match octave {
            -1 => "-1",
            0 => "0",
            1 => "1",
            2 => "2",
            3 => "3",
            4 => "4",
            5 => "5",
            6 => "6",
            7 => "7",
            8 => "8",
            _ => "9",
        };
        out.append(octave_str);
        out.append(duration.value.short_name());
        if duration.dotted {
            out.append(".");
        }
        proof {
            assert(out@ =~= spec_note_text(*self));
        }
        out
    }
}

/// The melody text of a note list: each note's text notation, space
/// separated. Rests are not reproduced: a melody that was parsed from
/// text with rests renders back without them, the gaps staying implicit
/// in the notes' tick positions.
pub open spec fn spec_format_melody(notes: Seq<Note>) -> Seq<char>
    decreases notes.len(),
{
    if notes.len() == 0 {
        Seq::empty()
    } else if notes.len() == 1 {
        spec_note_text(notes[0])
    } else {
        spec_format_melody(notes.drop_last()) + " "@ + spec_note_text(notes.last())
    }
}

/// Format notes as a melody string (text notations, space separated).
pub fn format_melody(notes: &[Note]) -> (r: String)
    requires
        forall|i: int| 0 <= i < notes@.len() ==> (#[trigger] notes@[i]).pitch <= 127,
    ensures
        r@ == spec_format_melody(notes@),
{
    let mut out = String::new();
    let n = notes.len();
    let mut i: usize = 0;
    while i < n
        invariant
            n == notes@.len(),
            i <= n,
            forall|k: int| 0 <= k < n ==> (#[trigger] notes@[k]).pitch <= 127,
            out@ == spec_format_melody(notes@.take(i as int)),
        decreases n - i,
    {
        let ghost prefix = notes@.take(i as int);
        if i > 0 {
            out.append(" ");
        }
        let text = notes[i].to_text();
        out.append(text.as_str());
        proof {
            assert(notes@.take(i + 1).drop_last() =~= prefix);
            assert(notes@.take(i + 1).last() == notes@[i as int]);
            assert(out@ =~= spec_format_melody(notes@.take(i + 1)));
        }
        i = i + 1;
    }
    proof {
        assert(notes@.take(n as int) =~= notes@);
    }
    out
}

/// The first whitespace position in a string at or after `i`, or its
/// length when none follows.
pub open spec fn spec_find_space(s: Seq<char>, i: int) -> int
    decreases s.len() - i,
{
    if i < 0 || i >= s.len() {
        s.len() as int
    } else if crate::text::spec_is_space(s[i]) {
        i
    } else {
        spec_find_space(s, i + 1)
    }
}

/// The first whitespace position never runs past the string, nor before
/// where the search began.
pub proof fn lemma_find_space_range(s: Seq<char>, i: int)
    requires
        0 <= i <= s.len(),
    ensures
        i <= spec_find_space(s, i) <= s.len(),
    decreases s.len() - i,
{
    if i < s.len() && !crate::text::spec_is_space(s[i]) {
        lemma_find_space_range(s, i + 1);
    }
}

/// The whitespace-separated tokens of a melody string, in order.
pub open spec fn spec_tokens(s: Seq<char>) -> Seq<Seq<char>>
    decreases s.len(),
    via spec_tokens_decreases
{
    if s.len() == 0 {
        Seq::empty()
    } else if crate::text::spec_is_space(s[0]) {
        spec_tokens(s.drop_first())
    } else {
        let j = spec_find_space(s, 0);
        seq![s.take(j)] + spec_tokens(s.skip(j))
    }
}

#[via_fn]
proof fn spec_tokens_decreases(s: Seq<char>) {
    if s.len() > 0 && !crate::text::spec_is_space(s[0]) {
        lemma_find_space_range(s, 1);
        assert(spec_find_space(s, 0) == spec_find_space(s, 1));
    }
}

/// The notes a token list stands for, as (pitch, start tick, duration)
/// triples, with a running tick cursor: a rest token (leading 'R' or 'r')
/// only advances the cursor by its duration; a note token is emitted at
/// the cursor and advances it by its own duration. One malformed token
/// fails the whole melody.
pub open spec fn spec_melody_plan(toks: Seq<Seq<char>>, cursor: int) -> Option<Seq<(int, int, int)>>
    decreases toks.len(),
{
    if toks.len() == 0 {
        Some(Seq::empty())
    } else {
        let tok = toks[0];
        if tok.len() > 0 && (tok[0] == 'R' || tok[0] == 'r') {
            match spec_parse_duration_code(tok.drop_first()) {
                None => None,
                Some(d) => spec_melody_plan(toks.drop_first(), cursor + spec_duration_ticks(d)),
            }
        } else {
            match spec_parse_note_token(tok) {
                None => None,
                Some((midi, d)) => match spec_melody_plan(
                    toks.drop_first(),
                    cursor + spec_duration_ticks(d),
                ) {
                    None => None,
                    Some(rest) => Some(
                        seq![(midi, cursor, spec_duration_ticks(d))] + rest,
                    ),
                },
            }
        }
    }
}

/// The notes a melody string stands for, starting the cursor at tick 0.
pub open spec fn spec_parse_melody(s: Seq<char>) -> Option<Seq<(int, int, int)>> {
    spec_melody_plan(spec_tokens(s), 0)
}

/// A melody plan with a list of already planned notes in front of it.
pub open spec fn spec_plan_concat(done: Seq<(int, int, int)>, rest: Option<Seq<(int, int, int)>>)
    -> Option<Seq<(int, int, int)>> {
    match rest {
        Some(r) => Some(done + r),
        None => None,
    }
}

/// Parse a melody string into notes: whitespace-separated tokens read
/// left to right with a running tick cursor from 0; rests (leading 'R' or
/// 'r') advance the cursor silently; each note is emitted at the cursor
/// and advances it. Any malformed token fails the whole melody, with no
/// partial result. The length bound keeps every tick position within the
/// 32-bit tick range.
pub fn parse_melody(s: &str) -> (r: Result<Vec<Note>, MozartError>)
    requires
        s@.len() <= 1000000,
    ensures
        match r {
            Ok(v) => ({
                match spec_parse_melody(s@) {
                    Some(plan) => v@.len() == plan.len() && (forall|i: int|
                        0 <= i < plan.len() ==> {
                            let note = #[trigger] v@[i];
                            note.pitch as int == plan[i].0 && note.start_tick as int == plan[i].1
                                && note.duration_ticks as int == plan[i].2 && note.velocity == 100
                                && note.voice == 0
                        }),
                    None => false,
                }
            }),
            Err(e) => spec_parse_melody(s@) is None && (e is ParseError || e is InvalidPitch
                || e is InvalidDuration),
        },
{
    let chars = crate::text::str_to_chars(s);
    let n = chars.len();
    let mut out: Vec<Note> = Vec::new();
    let ghost mut plan: Seq<(int, int, int)> = Seq::empty();
    let mut cursor: u32 = 0;
    let mut pos: usize = 0;
    proof {
        assert(chars@.skip(0) =~= chars@);
    }
    while pos < n
        invariant
            n == chars@.len() == s@.len(),
            n <= 1000000,
            chars@ == s@,
            pos <= n,
            cursor as int <= 2880 * pos,
            spec_parse_melody(s@) == spec_plan_concat(
                plan,
                spec_melody_plan(spec_tokens(chars@.skip(pos as int)), cursor as int),
            ),
            out@.len() == plan.len(),
            forall|i: int|
                0 <= i < plan.len() ==> {
                    let note = #[trigger] out@[i];
                    note.pitch as int == plan[i].0 && note.start_tick as int == plan[i].1
                        && note.duration_ticks as int == plan[i].2 && note.velocity == 100
                        && note.voice == 0
                },
        decreases n - pos,
    {
        let ghost s0 = chars@.skip(pos as int);
        let c = chars[pos];
        if c == ' ' || c == '\t' || c == '\n' || c == '\r' {
            proof {
                assert(s0[0] == chars@[pos as int]);
                assert(s0.drop_first() =~= chars@.skip(pos + 1));
            }
            pos = pos + 1;
        } else {
            // Find the end of the token.
            let mut end: usize = pos;
            while end < n && !(chars[end] == ' ' || chars[end] == '\t' || chars[end] == '\n'
                || chars[end] == '\r')
                invariant
                    pos <= end <= n == chars@.len(),
                    s0 == chars@.skip(pos as int),
                    spec_find_space(s0, 0) == spec_find_space(s0, end - pos),
                decreases n - end,
            {
                proof {
                    assert(s0[end - pos] == chars@[end as int]);
                }
                end = end + 1;
            }
            proof {
                if end < n {
                    assert(s0[end - pos] == chars@[end as int]);
                }
                assert(spec_find_space(s0, 0) == end - pos);
                assert(s0.take(end - pos) =~= chars@.subrange(pos as int, end as int));
                assert(s0.skip(end - pos) =~= chars@.skip(end as int));
                assert(spec_tokens(s0) == seq![s0.take(end - pos)] + spec_tokens(
                    chars@.skip(end as int),
                ));
            }
            let ghost tok = s0.take(end - pos);

            if c == 'R' || c == 'r' {
                let duration_str = s.substring_char(pos + 1, end);
                proof {
                    assert(duration_str@ =~= tok.drop_first());
                }
                let duration = match parse_duration_code(duration_str) {
                    Ok(d) => d,
                    Err(e) => {
                        return Err(e);
                    },
                };
                let ticks = duration.ticks();
                cursor = cursor + ticks;
                proof {
                    plan = plan;
                    assert(spec_tokens(s0).drop_first() =~= spec_tokens(chars@.skip(end as int)));
                }
            } else {
                let token_str = s.substring_char(pos, end);
                proof {
                    assert(token_str@ =~= tok);
                    assert(tok.len() > 0 && !(tok[0] == 'R' || tok[0] == 'r'));
                }
                let note = match Note::parse(token_str, cursor) {
                    Ok(nt) => nt,
                    Err(e) => {
                        return Err(e);
                    },
                };
                out.push(note);
                proof {
                    plan = plan.push(
                        (
                            note.pitch as int,
                            note.start_tick as int,
                            note.duration_ticks as int,
                        ),
                    );
                    assert(spec_tokens(s0).drop_first() =~= spec_tokens(chars@.skip(end as int)));
                    let d = spec_parse_note_token(tok).unwrap().1;
                    assert(plan + spec_melody_plan(
                        spec_tokens(chars@.skip(end as int)),
                        cursor + spec_duration_ticks(d),
                    ).unwrap() =~= plan.drop_last() + (seq![
                        (
                            note.pitch as int,
                            cursor as int,
                            spec_duration_ticks(d),
                        ),
                    ] + spec_melody_plan(
                        spec_tokens(chars@.skip(end as int)),
                        cursor + spec_duration_ticks(d),
                    ).unwrap())) by {
                        assert(plan.drop_last() + (seq![
                            (
                                note.pitch as int,
                                cursor as int,
                                spec_duration_ticks(d),
                            ),
                        ] + spec_melody_plan(
                            spec_tokens(chars@.skip(end as int)),
                            cursor + spec_duration_ticks(d),
                        ).unwrap()) =~= plan + spec_melody_plan(
                            spec_tokens(chars@.skip(end as int)),
                            cursor + spec_duration_ticks(d),
                        ).unwrap());
                    }
                }
                cursor = note.end_tick();
            }
            pos = end;
        }
    }
    proof {
        assert(chars@.skip(n as int) =~= Seq::<char>::empty());
        assert(spec_parse_melody(s@) == Some(plan));
    }
    Ok(out)
}

} // verus!

