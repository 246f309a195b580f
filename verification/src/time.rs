//! Time signatures and accent patterns.
//!
//! Supports time signatures with 2..=15 beats per measure over a beat unit
//! of 2, 4, 8 or 16, with a customizable three-level accent pattern whose
//! length always equals the numerator.

use vstd::prelude::*;
use crate::error::MozartError;
use crate::text::{parse_int_range, spec_parse_int, str_to_chars};

verus! {

/// Accent level for a beat.
#[derive(Debug, Clone, Copy, PartialEq, Eq, Structural)]
pub enum AccentLevel {
    /// Weak beat (normal volume).
    Weak,
    /// Medium accent (secondary emphasis).
    Medium,
    /// Strong accent (downbeat).
    Strong,
}

/// The accent level a numeric value stands for (3 = strong, 2 = medium,
/// anything else = weak).
pub open spec fn spec_level_of_value(v: int) -> AccentLevel {
    if v == 3 {
        AccentLevel::Strong
    } else if v == 2 {
        AccentLevel::Medium
    } else {
        AccentLevel::Weak
    }
}

/// One step of cycling an accent level: weak -> medium -> strong -> weak.
pub open spec fn spec_cycle_level(l: AccentLevel) -> AccentLevel {
    match l {
        AccentLevel::Weak => AccentLevel::Medium,
        AccentLevel::Medium => AccentLevel::Strong,
        AccentLevel::Strong => AccentLevel::Weak,
    }
}

/// The pattern after cycling the accent at one beat; out-of-range beats
/// leave the pattern unchanged.
pub open spec fn spec_cycle_pattern(s: Seq<AccentLevel>, beat: int) -> Seq<AccentLevel> {
    if 0 <= beat < s.len() {
        s.update(beat, spec_cycle_level(s[beat]))
    } else {
        s
    }
}

impl AccentLevel {
    /// Parse from a numeric value.
    pub fn from_value(v: u8) -> (r: AccentLevel)
        ensures
            r == spec_level_of_value(v as int),
    {
        match v {
            3 => AccentLevel::Strong,
            2 => AccentLevel::Medium,
            _ => AccentLevel::Weak,
        }
    }
}

/// The conventional accent pattern for a measure of `beats` beats: the
/// hard-coded metric grouping for 2..=15 beats, and strong-on-one with
/// weak elsewhere for any other count.
pub open spec fn spec_default_pattern(beats: u8) -> Seq<AccentLevel> {
    let s = AccentLevel::Strong;
    let m = AccentLevel::Medium;
    let w = AccentLevel::Weak;
    if beats == 2 {
        seq![s, w]
    } else if beats == 3 {
        seq![s, w, w]
    } else if beats == 4 {
        seq![s, w, m, w]
    } else if beats == 5 {
        seq![s, w, w, m, w]
    } else if beats == 6 {
        seq![s, w, w, m, w, w]
    } else if beats == 7 {
        seq![s, w, w, m, w, m, w]
    } else if beats == 8 {
        seq![s, w, m, w, m, w, m, w]
    } else if beats == 9 {
        seq![s, w, w, m, w, w, m, w, w]
    } else if beats == 10 {
        seq![s, w, w, m, w, m, w, m, w, w]
    } else if beats == 11 {
        seq![s, w, w, m, w, w, m, w, w, m, w]
    } else if beats == 12 {
        seq![s, w, w, m, w, w, m, w, w, m, w, w]
    } else if beats == 13 {
        seq![s, w, w, m, w, w, m, w, w, m, w, m, w]
    } else if beats == 14 {
        seq![s, w, m, w, m, w, m, w, m, w, m, w, m, w]
    } else if beats == 15 {
        seq![s, w, w, m, w, w, m, w, w, m, w, w, m, w, w]
    } else {
        Seq::new(beats as nat, |i: int| if i == 0 { s } else { w })
    }
}

/// Accent pattern for a time signature: one accent level per beat.
#[derive(Debug, Clone, PartialEq, Eq)]
pub struct AccentPattern {
    /// Accent levels for each beat in the measure.
    pub accents: Vec<AccentLevel>,
}

impl AccentPattern {
    /// Create a new accent pattern.
    pub fn new(accents: Vec<AccentLevel>) -> (r: AccentPattern)
        ensures
            r.accents == accents,
    {
        AccentPattern { accents }
    }

    /// Create a pattern from numeric values (1 = weak, 2 = medium,
    /// 3 = strong; unknown values read as weak).
    pub fn from_values(values: &[u8]) -> (r: AccentPattern)
        ensures
            r.accents@.len() == values@.len(),
            forall|i: int|
                0 <= i < values@.len() ==> #[trigger] r.accents@[i] == spec_level_of_value(
                    values@[i] as int,
                ),
    {
        let mut accents: Vec<AccentLevel> = Vec::new();
        let mut i: usize = 0;
        let n = values.len();
        while i < n
            invariant
                n == values@.len(),
                i <= n,
                accents@.len() == i,
                forall|k: int|
                    0 <= k < i ==> #[trigger] accents@[k] == spec_level_of_value(
                        values@[k] as int,
                    ),
            decreases n - i,
        {
            accents.push(AccentLevel::from_value(values[i]));
            i = i + 1;
        }
        AccentPattern { accents }
    }

    /// Create the conventional default pattern for a given number of beats.
    pub fn default_for_beats(beats: u8) -> (r: AccentPattern)
        ensures
            r.accents@ == spec_default_pattern(beats),
    {
        let s = AccentLevel::Strong;
        let m = AccentLevel::Medium;
        let w = AccentLevel::Weak;
        let accents: Vec<AccentLevel> = match beats {
            2 => vec![s, w],
            3 => vec![s, w, w],
            4 => vec![s, w, m, w],
            5 => vec![s, w, w, m, w],
            6 => vec![s, w, w, m, w, w],
            7 => vec![s, w, w, m, w, m, w],
            8 => vec![s, w, m, w, m, w, m, w],
            9 => vec![s, w, w, m, w, w, m, w, w],
            10 => vec![s, w, w, m, w, m, w, m, w, w],
            11 => vec![s, w, w, m, w, w, m, w, w, m, w],
            12 => vec![s, w, w, m, w, w, m, w, w, m, w, w],
            13 => vec![s, w, w, m, w, w, m, w, w, m, w, m, w],
            14 => vec![s, w, m, w, m, w, m, w, m, w, m, w, m, w],
            15 => vec![s, w, w, m, w, w, m, w, w, m, w, w, m, w, w],
            _ => {
                let mut p: Vec<AccentLevel> = Vec::new();
                let mut i: usize = 0;
                while i < beats as usize
                    invariant
                        i <= beats as usize,
                        p@.len() == i,
                        forall|k: int|
                            0 <= k < i ==> #[trigger] p@[k] == (if k == 0 {
                                AccentLevel::Strong
                            } else {
                                AccentLevel::Weak
                            }),
                    decreases beats as usize - i,
                {
                    if i == 0 {
                        p.push(AccentLevel::Strong);
                    } else {
                        p.push(AccentLevel::Weak);
                    }
                    i = i + 1;
                }
                p
            },
        };
        proof {
            assert(accents@ =~= spec_default_pattern(beats));
        }
        AccentPattern { accents }
    }

    /// Get the number of beats.
    pub fn len(&self) -> (r: usize)
        ensures
            r == self.accents@.len(),
    {
        self.accents.len()
    }

    /// Check whether the pattern is empty.
    pub fn is_empty(&self) -> (r: bool)
        ensures
            r == (self.accents@.len() == 0),
    {
        self.accents.len() == 0
    }

    /// Get the accent at a beat (0-indexed); out-of-range beats read as
    /// weak.
    pub fn get(&self, beat: usize) -> (r: AccentLevel)
        ensures
            r == (if beat < self.accents@.len() {
                self.accents@[beat as int]
            } else {
                AccentLevel::Weak
            }),
    {
        if beat < self.accents.len() {
            self.accents[beat]
        } else {
            AccentLevel::Weak
        }
    }

    /// Set the accent at a beat (0-indexed); out-of-range beats are left
    /// alone.
    pub fn set(&mut self, beat: usize, level: AccentLevel)
        ensures
            final(self).accents@ == (if beat < old(self).accents@.len() {
                old(self).accents@.update(beat as int, level)
            } else {
                old(self).accents@
            }),
    {
        if beat < self.accents.len() {
            self.accents[beat] = level;
        }
    }

    /// Cycle the accent at a beat: weak -> medium -> strong -> weak;
    /// out-of-range beats are left alone.
    pub fn cycle(&mut self, beat: usize)
        ensures
            final(self).accents@ == spec_cycle_pattern(old(self).accents@, beat as int),
    {
        if beat < self.accents.len() {
            let next = match self.accents[beat] {
                AccentLevel::Weak => AccentLevel::Medium,
                AccentLevel::Medium => AccentLevel::Strong,
                AccentLevel::Strong => AccentLevel::Weak,
            };
            self.accents[beat] = next;
        }
    }
}

/// Time signature with customizable accents.
#[derive(Debug, Clone, PartialEq, Eq)]
pub struct TimeSignature {
    /// Beats per measure (2-15).
    pub numerator: u8,
    /// Beat unit (4 = quarter note, 8 = eighth note).
    pub denominator: u8,
    /// Accent pattern for the measure.
    pub accents: AccentPattern,
}

/// A valid numerator counts 2..=15 beats.
pub open spec fn spec_valid_numerator(numerator: u8) -> bool {
    2 <= numerator <= 15
}

/// A valid beat unit is a half, quarter, eighth or sixteenth note.
pub open spec fn spec_valid_denominator(denominator: u8) -> bool {
    denominator == 2 || denominator == 4 || denominator == 8 || denominator == 16
}

/// Ticks per beat for a beat unit: 480 ticks to the quarter note.
pub open spec fn spec_ticks_per_beat(denominator: u8) -> int {
    if denominator == 2 {
        960
    } else if denominator == 4 {
        480
    } else if denominator == 8 {
        240
    } else if denominator == 16 {
        120
    } else {
        480
    }
}

impl TimeSignature {
    /// Construction validates the pair and keeps the accent pattern as
    /// long as the numerator.
    pub open spec fn wf(&self) -> bool {
        &&& spec_valid_numerator(self.numerator)
        &&& spec_valid_denominator(self.denominator)
        &&& self.accents.accents@.len() == self.numerator
    }

    fn validate(numerator: u8, denominator: u8) -> (r: Result<(), MozartError>)
        ensures
            r is Ok <==> spec_valid_numerator(numerator) && spec_valid_denominator(denominator),
            r matches Err(e) ==> e == (MozartError::InvalidTimeSignature { numerator, denominator }),
    {
        if numerator < 2 || numerator > 15 {
            return Err(MozartError::InvalidTimeSignature { numerator, denominator });
        }
        if denominator != 4 && denominator != 8 && denominator != 2 && denominator != 16 {
            return Err(MozartError::InvalidTimeSignature { numerator, denominator });
        }
        Ok(())
    }

    /// Create a new time signature with the default accent pattern;
    /// an invalid pair is rejected with `InvalidTimeSignature`.
    pub fn new(numerator: u8, denominator: u8) -> (r: Result<TimeSignature, MozartError>)
        ensures
            spec_valid_numerator(numerator) && spec_valid_denominator(denominator) ==> (
            r matches Ok(ts) && ts.numerator == numerator && ts.denominator == denominator
                && ts.accents.accents@ == spec_default_pattern(numerator) && ts.wf()),
            !(spec_valid_numerator(numerator) && spec_valid_denominator(denominator)) ==> r == Err::<
                TimeSignature,
                MozartError,
            >(MozartError::InvalidTimeSignature { numerator, denominator }),
    {
        match Self::validate(numerator, denominator) {
            Err(e) => Err(e),
            Ok(()) => {
                let accents = AccentPattern::default_for_beats(numerator);
                proof {
                    lemma_default_pattern_len(numerator);
                }
                Ok(TimeSignature { numerator, denominator, accents })
            },
        }
    }

    /// Create a time signature with a custom accent pattern; a pattern
    /// whose length differs from the numerator is silently replaced by
    /// the default pattern (callers must check the reported length).
    pub fn with_accents(numerator: u8, denominator: u8, accents: AccentPattern) -> (r: Result<
        TimeSignature,
        MozartError,
    >)
        ensures
            spec_valid_numerator(numerator) && spec_valid_denominator(denominator) ==> (
            r matches Ok(ts) && ts.numerator == numerator && ts.denominator == denominator
                && ts.accents.accents@ == (if accents.accents@.len() == numerator {
                accents.accents@
            } else {
                spec_default_pattern(numerator)
            }) && ts.wf()),
            !(spec_valid_numerator(numerator) && spec_valid_denominator(denominator)) ==> r == Err::<
                TimeSignature,
                MozartError,
            >(MozartError::InvalidTimeSignature { numerator, denominator }),
    {
        match Self::validate(numerator, denominator) {
            Err(e) => Err(e),
            Ok(()) => {
                let accents = if accents.len() != numerator as usize {
                    proof {
                        lemma_default_pattern_len(numerator);
                    }
                    AccentPattern::default_for_beats(numerator)
                } else {
                    accents
                };
                Ok(TimeSignature { numerator, denominator, accents })
            },
        }
    }

    /// Common time (4/4).
    pub fn common() -> (r: TimeSignature)
        ensures
            r.numerator == 4,
            r.denominator == 4,
            r.accents.accents@ == spec_default_pattern(4),
            r.wf(),
    {
        match TimeSignature::new(4, 4) {
            Ok(ts) => ts,
            Err(_) => {
                proof {
                    assert(false);
                }
                TimeSignature { numerator: 4, denominator: 4, accents: AccentPattern::default_for_beats(4) }
            },
        }
    }

    /// Waltz time (3/4).
    pub fn waltz() -> (r: TimeSignature)
        ensures
            r.numerator == 3,
            r.denominator == 4,
            r.accents.accents@ == spec_default_pattern(3),
            r.wf(),
    {
        match TimeSignature::new(3, 4) {
            Ok(ts) => ts,
            Err(_) => {
                proof {
                    assert(false);
                }
                TimeSignature { numerator: 3, denominator: 4, accents: AccentPattern::default_for_beats(3) }
            },
        }
    }

    /// Cut time (2/2).
    pub fn cut() -> (r: TimeSignature)
        ensures
            r.numerator == 2,
            r.denominator == 2,
            r.accents.accents@ == spec_default_pattern(2),
            r.wf(),
    {
        match TimeSignature::new(2, 2) {
            Ok(ts) => ts,
            Err(_) => {
                proof {
                    assert(false);
                }
                TimeSignature { numerator: 2, denominator: 2, accents: AccentPattern::default_for_beats(2) }
            },
        }
    }

    /// Compound duple time (6/8).
    pub fn compound_duple() -> (r: TimeSignature)
        ensures
            r.numerator == 6,
            r.denominator == 8,
            r.accents.accents@ == spec_default_pattern(6),
            r.wf(),
    {
        match TimeSignature::new(6, 8) {
            Ok(ts) => ts,
            Err(_) => {
                proof {
                    assert(false);
                }
                TimeSignature { numerator: 6, denominator: 8, accents: AccentPattern::default_for_beats(6) }
            },
        }
    }

    /// Get the ticks per beat for this beat unit.
    pub fn ticks_per_beat(&self) -> (r: u32)
        ensures
            r as int == spec_ticks_per_beat(self.denominator),
            r > 0,
    {
        match self.denominator {
            2 => crate::TICKS_PER_QUARTER * 2,
            4 => crate::TICKS_PER_QUARTER,
            8 => crate::TICKS_PER_QUARTER / 2,
            16 => crate::TICKS_PER_QUARTER / 4,
            _ => crate::TICKS_PER_QUARTER,
        }
    }

    /// Get the ticks per measure.
    pub fn ticks_per_measure(&self) -> (r: u32)
        ensures
            r as int == spec_ticks_per_beat(self.denominator) * self.numerator,
    {
        self.ticks_per_beat() * self.numerator as u32
    }

    /// Get which beat a given tick falls on (0-indexed within its
    /// measure).
    pub fn beat_at_tick(&self, tick: u32) -> (r: u32)
        requires
            self.numerator > 0,
        ensures
            r as int == (tick as int % (spec_ticks_per_beat(self.denominator) * self.numerator))
                / spec_ticks_per_beat(self.denominator),
    {
        (tick % self.ticks_per_measure()) / self.ticks_per_beat()
    }

    /// Get the accent level at a given tick.
    pub fn accent_at_tick(&self, tick: u32) -> (r: AccentLevel)
        requires
            self.numerator > 0,
        ensures
            ({
                let beat = (tick as int % (spec_ticks_per_beat(self.denominator)
                    * self.numerator)) / spec_ticks_per_beat(self.denominator);
                r == (if beat < self.accents.accents@.len() {
                    self.accents.accents@[beat]
                } else {
                    AccentLevel::Weak
                })
            }),
    {
        let beat = self.beat_at_tick(tick);
        self.accents.get(beat as usize)
    }

    /// Check whether a tick lies on a beat boundary.
    pub fn is_on_beat(&self, tick: u32) -> (r: bool)
        ensures
            r == (tick as int % spec_ticks_per_beat(self.denominator) == 0),
    {
        tick % self.ticks_per_beat() == 0
    }

    /// Check whether a tick lies on the downbeat of a measure.
    pub fn is_downbeat(&self, tick: u32) -> (r: bool)
        requires
            self.numerator > 0,
        ensures
            r == (tick as int % (spec_ticks_per_beat(self.denominator) * self.numerator) == 0),
    {
        tick % self.ticks_per_measure() == 0
    }

    /// Replace the accent pattern; a pattern whose length differs from
    /// the numerator is silently ignored (callers must check the
    /// reported length).
    pub fn set_accents(&mut self, accents: AccentPattern)
        ensures
            accents.accents@.len() == old(self).numerator ==> *final(self) == (TimeSignature {
                accents,
                ..*old(self)
            }),
            accents.accents@.len() != old(self).numerator ==> *final(self) == *old(self),
    {
        if accents.len() == self.numerator as usize {
            self.accents = accents;
        }
    }
}

/// The default accent pattern always has exactly one level per beat.
pub proof fn lemma_default_pattern_len(beats: u8)
    ensures
        spec_default_pattern(beats).len() == beats,
{
}

/// The display symbol of an accent level.
pub open spec fn spec_accent_symbol(l: AccentLevel) -> Seq<char> {
    match l {
        AccentLevel::Strong => ">"@,
        AccentLevel::Medium => "-"@,
        AccentLevel::Weak => "."@,
    }
}

/// The visual form of an accent pattern: one symbol per beat.
pub open spec fn spec_visual(s: Seq<AccentLevel>) -> Seq<char>
    decreases s.len(),
{
    if s.len() == 0 {
        Seq::empty()
    } else {
        spec_visual(s.drop_last()) + spec_accent_symbol(s.last())
    }
}

impl AccentPattern {
    /// Format as a visual pattern ('>' strong, '-' medium, '.' weak).
    pub fn to_visual(&self) -> (r: String)
        ensures
            r@ == spec_visual(self.accents@),
    {
        let mut out = String::new();
        let n = self.accents.len();
        let mut i: usize = 0;
        while i < n
            invariant
                n == self.accents@.len(),
                i <= n,
                out@ == spec_visual(self.accents@.take(i as int)),
            decreases n - i,
        {
            let sym: &str = match self.accents[i] {
                AccentLevel::Strong => ">",
                AccentLevel::Medium => "-",
                AccentLevel::Weak => ".",
            };
            out.append(sym);
            proof {
                assert(self.accents@.take(i + 1).drop_last() =~= self.accents@.take(i as int));
                assert(self.accents@.take(i + 1).last() == self.accents@[i as int]);
            }
            i = i + 1;
        }
        proof {
            assert(self.accents@.take(n as int) =~= self.accents@);
        }
        out
    }
}

/// The numerator/denominator pair a time-signature text names: two
/// integers around a single slash.
pub open spec fn spec_parse_time_signature(s: Seq<char>) -> Option<(int, int)> {
    match crate::scale::spec_find_char(s, '/', 0) {
        None => None,
        Some(i) => {
            match crate::scale::spec_find_char(s, '/', (i + 1) as nat) {
                Some(_) => None,
                None => {
                    let num = spec_parse_int(
                        crate::text::spec_trim(s.take(i)),
                        0,
                        255,
                    );
                    let den = spec_parse_int(
                        crate::text::spec_trim(s.skip(i + 1)),
                        0,
                        255,
                    );
                    match (num, den) {
                        (Some(n), Some(d)) => Some((n, d)),
                        _ => None,
                    }
                },
            }
        },
    }
}

impl TimeSignature {
    /// Parse a time signature from text such as "4/4" or "7/8": the two
    /// numbers around a single slash, then validated as a new time
    /// signature. Malformed text is rejected with `ParseError`, an invalid
    /// pair with `InvalidTimeSignature`.
    pub fn parse(s: &str) -> (r: Result<TimeSignature, MozartError>)
        ensures
            match r {
                Ok(ts) => ({
                    match spec_parse_time_signature(s@) {
                        Some((num, den)) => ts.numerator == num && ts.denominator == den
                            && ts.accents.accents@ == spec_default_pattern(ts.numerator)
                            && ts.wf(),
                        None => false,
                    }
                }),
                Err(e) => match spec_parse_time_signature(s@) {
                    None => e is ParseError,
                    Some((num, den)) => !(spec_valid_numerator(num as u8)
                        && spec_valid_denominator(den as u8)) && e is InvalidTimeSignature,
                },
            },
    {
        let chars = str_to_chars(s);
        let n = chars.len();

        // Find the single slash.
        let mut i: usize = 0;
        while i < n && chars[i] != '/'
            invariant
                i <= n == chars@.len(),
                chars@ == s@,
                crate::scale::spec_find_char(s@, '/', 0) == crate::scale::spec_find_char(
                    s@,
                    '/',
                    i as nat,
                ),
            decreases n - i,
        {
            i = i + 1;
        }
        if i == n {
            return Err(MozartError::ParseError(String::from_str("invalid time signature format")));
        }
        assert(crate::scale::spec_find_char(s@, '/', 0) == Some(i as int));
        let mut j: usize = i + 1;
        while j < n && chars[j] != '/'
            invariant
                i < j <= n == chars@.len(),
                chars@ == s@,
                crate::scale::spec_find_char(s@, '/', (i + 1) as nat) == crate::scale::spec_find_char(
                    s@,
                    '/',
                    j as nat,
                ),
            decreases n - j,
        {
            j = j + 1;
        }
        if j < n {
            return Err(MozartError::ParseError(String::from_str("invalid time signature format")));
        }
        assert(crate::scale::spec_find_char(s@, '/', (i + 1) as nat) is None);

        let num_part: Vec<char> = {
            let mut v: Vec<char> = Vec::new();
            let mut k: usize = 0;
            while k < i
                invariant
                    k <= i <= chars@.len(),
                    chars@ == s@,
                    v@ == s@.subrange(0, k as int),
                decreases i - k,
            {
                v.push(chars[k]);
                proof {
                    assert(s@.subrange(0, k + 1) =~= s@.subrange(0, k as int).push(s@[k as int]));
                }
                k = k + 1;
            }
            v
        };
        let den_part: Vec<char> = {
            let mut v: Vec<char> = Vec::new();
            let mut k: usize = i + 1;
            while k < n
                invariant
                    i + 1 <= k <= n == chars@.len(),
                    chars@ == s@,
                    v@ == s@.subrange(i + 1, k as int),
                decreases n - k,
            {
                v.push(chars[k]);
                proof {
                    assert(s@.subrange(i + 1, k + 1) =~= s@.subrange(i + 1, k as int).push(
                        s@[k as int],
                    ));
                }
                k = k + 1;
            }
            v
        };
        proof {
            assert(num_part@ =~= s@.take(i as int));
            assert(den_part@ =~= s@.skip(i + 1));
        }

        let num_trimmed = crate::text::trim_chars(&num_part);
        let den_trimmed = crate::text::trim_chars(&den_part);
        let nt_len = num_trimmed.len();
        let dt_len = den_trimmed.len();
        proof {
            assert(num_trimmed@.subrange(0, nt_len as int) =~= num_trimmed@);
            assert(den_trimmed@.subrange(0, dt_len as int) =~= den_trimmed@);
        }
        let numerator = match parse_int_range(&num_trimmed, 0, nt_len, 0, 255) {
            Some(v) => v,
            None => {
                return Err(MozartError::ParseError(String::from_str("invalid numerator")));
            },
        };
        let denominator = match parse_int_range(&den_trimmed, 0, dt_len, 0, 255) {
            Some(v) => v,
            None => {
                return Err(MozartError::ParseError(String::from_str("invalid denominator")));
            },
        };
        TimeSignature::new(numerator as u8, denominator as u8)
    }
}

/// Cycling an accent level three times returns it unchanged, whatever it
/// was.
pub proof fn lemma_cycle_level_period(l: AccentLevel)
    ensures
        spec_cycle_level(spec_cycle_level(spec_cycle_level(l))) == l,
{
}

/// Cycling one beat of a pattern three times leaves the whole pattern
/// unchanged.
pub proof fn lemma_cycle_period(accents: Seq<AccentLevel>, beat: int)
    ensures
        spec_cycle_pattern(spec_cycle_pattern(spec_cycle_pattern(accents, beat), beat), beat)
            =~= accents,
{
    if 0 <= beat < accents.len() {
        lemma_cycle_level_period(accents[beat]);
    }
}

} // verus!
