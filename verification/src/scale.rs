//! Scale definitions.
//!
//! Nine scale types, each a fixed ascending table of seven semitone offsets
//! from the root; scale-degree lookup and nearest-scale-tone snapping.

use vstd::prelude::*;
use crate::error::MozartError;
use crate::pitch::{PitchClass, spec_interval, spec_transpose_class, spec_parse_pitch_class};
use crate::text::{eq_lit, lower_chars, spec_lower, spec_trim, str_to_chars, trim_bounds, trim_chars};

verus! {

/// Scale types supported by the transposition engine.
#[derive(Debug, Clone, Copy, PartialEq, Eq, Hash, Structural)]
pub enum ScaleType {
    Major,
    NaturalMinor,
    HarmonicMinor,
    MelodicMinor,
    Dorian,
    Phrygian,
    Lydian,
    Mixolydian,
    Locrian,
}

/// The fixed interval table (semitones from the root) of a scale type.
pub open spec fn spec_intervals(st: ScaleType) -> Seq<int> {
    match st {
        ScaleType::Major => seq![0, 2, 4, 5, 7, 9, 11],
        ScaleType::NaturalMinor => seq![0, 2, 3, 5, 7, 8, 10],
        ScaleType::HarmonicMinor => seq![0, 2, 3, 5, 7, 8, 11],
        ScaleType::MelodicMinor => seq![0, 2, 3, 5, 7, 9, 11],
        ScaleType::Dorian => seq![0, 2, 3, 5, 7, 9, 10],
        ScaleType::Phrygian => seq![0, 1, 3, 5, 7, 8, 10],
        ScaleType::Lydian => seq![0, 2, 4, 6, 7, 9, 11],
        ScaleType::Mixolydian => seq![0, 2, 4, 5, 7, 9, 10],
        ScaleType::Locrian => seq![0, 1, 3, 5, 6, 8, 10],
    }
}

/// Every interval-table entry is a semitone offset below an octave.
pub proof fn lemma_intervals_bounds(st: ScaleType)
    ensures
        spec_intervals(st).len() == 7,
        forall|i: int| 0 <= i < 7 ==> 0 <= #[trigger] spec_intervals(st)[i] < 12,
{
    match st {
        ScaleType::Major => {
            assert(forall|i: int| 0 <= i < 7 ==> 0 <= #[trigger] spec_intervals(st)[i] < 12);
        },
        ScaleType::NaturalMinor => {
            assert(forall|i: int| 0 <= i < 7 ==> 0 <= #[trigger] spec_intervals(st)[i] < 12);
        },
        ScaleType::HarmonicMinor => {
            assert(forall|i: int| 0 <= i < 7 ==> 0 <= #[trigger] spec_intervals(st)[i] < 12);
        },
        ScaleType::MelodicMinor => {
            assert(forall|i: int| 0 <= i < 7 ==> 0 <= #[trigger] spec_intervals(st)[i] < 12);
        },
        ScaleType::Dorian => {
            assert(forall|i: int| 0 <= i < 7 ==> 0 <= #[trigger] spec_intervals(st)[i] < 12);
        },
        ScaleType::Phrygian => {
            assert(forall|i: int| 0 <= i < 7 ==> 0 <= #[trigger] spec_intervals(st)[i] < 12);
        },
        ScaleType::Lydian => {
            assert(forall|i: int| 0 <= i < 7 ==> 0 <= #[trigger] spec_intervals(st)[i] < 12);
        },
        ScaleType::Mixolydian => {
            assert(forall|i: int| 0 <= i < 7 ==> 0 <= #[trigger] spec_intervals(st)[i] < 12);
        },
        ScaleType::Locrian => {
            assert(forall|i: int| 0 <= i < 7 ==> 0 <= #[trigger] spec_intervals(st)[i] < 12);
        },
    }
}

impl ScaleType {
    /// Get the intervals (in semitones from the root) for this scale.
    pub fn intervals(&self) -> (r: [u8; 7])
        ensures
            forall|i: int| 0 <= i < 7 ==> #[trigger] r@[i] as int == spec_intervals(*self)[i],
    {
        match self {
            ScaleType::Major => [0, 2, 4, 5, 7, 9, 11],
            ScaleType::NaturalMinor => [0, 2, 3, 5, 7, 8, 10],
            ScaleType::HarmonicMinor => [0, 2, 3, 5, 7, 8, 11],
            ScaleType::MelodicMinor => [0, 2, 3, 5, 7, 9, 11],
            ScaleType::Dorian => [0, 2, 3, 5, 7, 9, 10],
            ScaleType::Phrygian => [0, 1, 3, 5, 7, 8, 10],
            ScaleType::Lydian => [0, 2, 4, 6, 7, 9, 11],
            ScaleType::Mixolydian => [0, 2, 4, 5, 7, 9, 10],
            ScaleType::Locrian => [0, 1, 3, 5, 6, 8, 10],
        }
    }

    /// Get the scale degree names.
    pub fn degree_names(&self) -> (r: [&'static str; 7]) {
        ["1", "2", "3", "4", "5", "6", "7"]
    }

    /// Get the display name.
    pub fn name(&self) -> (r: &'static str)
        ensures
            r@ == Self::spec_name(*self),
    {
        match self {
            ScaleType::Major => "Major",
            ScaleType::NaturalMinor => "Natural Minor",
            ScaleType::HarmonicMinor => "Harmonic Minor",
            ScaleType::MelodicMinor => "Melodic Minor",
            ScaleType::Dorian => "Dorian",
            ScaleType::Phrygian => "Phrygian",
            ScaleType::Lydian => "Lydian",
            ScaleType::Mixolydian => "Mixolydian",
            ScaleType::Locrian => "Locrian",
        }
    }

    /// The display name of a scale type.
    pub open spec fn spec_name(st: ScaleType) -> Seq<char> {
        match st {
            ScaleType::Major => "Major"@,
            ScaleType::NaturalMinor => "Natural Minor"@,
            ScaleType::HarmonicMinor => "Harmonic Minor"@,
            ScaleType::MelodicMinor => "Melodic Minor"@,
            ScaleType::Dorian => "Dorian"@,
            ScaleType::Phrygian => "Phrygian"@,
            ScaleType::Lydian => "Lydian"@,
            ScaleType::Mixolydian => "Mixolydian"@,
            ScaleType::Locrian => "Locrian"@,
        }
    }

    /// All scale types, in a fixed order.
    pub fn all() -> (r: [ScaleType; 9])
        ensures
            r@ =~= seq![
                ScaleType::Major,
                ScaleType::NaturalMinor,
                ScaleType::HarmonicMinor,
                ScaleType::MelodicMinor,
                ScaleType::Dorian,
                ScaleType::Phrygian,
                ScaleType::Lydian,
                ScaleType::Mixolydian,
                ScaleType::Locrian,
            ],
    {
        [
            ScaleType::Major,
            ScaleType::NaturalMinor,
            ScaleType::HarmonicMinor,
            ScaleType::MelodicMinor,
            ScaleType::Dorian,
            ScaleType::Phrygian,
            ScaleType::Lydian,
            ScaleType::Mixolydian,
            ScaleType::Locrian,
        ]
    }
}

/// The scale type a name stands for, compared after ASCII lower-casing
/// and trimming.
pub open spec fn spec_parse_scale_type(s: Seq<char>) -> Option<ScaleType> {
    let t = spec_trim(spec_lower(s));
    if t == "major"@ || t == "maj"@ || t == "ionian"@ {
        Some(ScaleType::Major)
    } else if t == "minor"@ || t == "min"@ || t == "natural minor"@ || t == "natural_minor"@ || t
        == "aeolian"@ {
        Some(ScaleType::NaturalMinor)
    } else if t == "harmonic minor"@ || t == "harmonic_minor"@ || t == "harm"@ {
        Some(ScaleType::HarmonicMinor)
    } else if t == "melodic minor"@ || t == "melodic_minor"@ || t == "mel"@ {
        Some(ScaleType::MelodicMinor)
    } else if t == "dorian"@ || t == "dor"@ {
        Some(ScaleType::Dorian)
    } else if t == "phrygian"@ || t == "phryg"@ {
        Some(ScaleType::Phrygian)
    } else if t == "lydian"@ || t == "lyd"@ {
        Some(ScaleType::Lydian)
    } else if t == "mixolydian"@ || t == "mixo"@ {
        Some(ScaleType::Mixolydian)
    } else if t == "locrian"@ || t == "loc"@ {
        Some(ScaleType::Locrian)
    } else {
        None
    }
}

impl ScaleType {
    /// Parse a scale type from its name or a common abbreviation; unknown
    /// names are rejected with `InvalidScale`.
    #[verifier::rlimit(30)]
    pub fn parse(s: &str) -> (r: Result<ScaleType, MozartError>)
        ensures
            match r {
                Ok(st) => Some(st) == spec_parse_scale_type(s@),
                Err(e) => spec_parse_scale_type(s@) is None && e is InvalidScale,
            },
    {
        let chars = str_to_chars(s);
        let lowered = lower_chars(&chars);
        let t = trim_chars(&lowered);
        let n = t.len();
        proof {
            assert(t@.subrange(0, n as int) =~= t@);
        }
        if eq_lit(&t, 0, n, "major") || eq_lit(&t, 0, n, "maj") || eq_lit(&t, 0, n, "ionian") {
            Ok(ScaleType::Major)
        } else if eq_lit(&t, 0, n, "minor") || eq_lit(&t, 0, n, "min") || eq_lit(
            &t,
            0,
            n,
            "natural minor",
        ) || eq_lit(&t, 0, n, "natural_minor") || eq_lit(&t, 0, n, "aeolian") {
            Ok(ScaleType::NaturalMinor)
        } else if eq_lit(&t, 0, n, "harmonic minor") || eq_lit(&t, 0, n, "harmonic_minor")
            || eq_lit(&t, 0, n, "harm") {
            Ok(ScaleType::HarmonicMinor)
        } else if eq_lit(&t, 0, n, "melodic minor") || eq_lit(&t, 0, n, "melodic_minor") || eq_lit(
            &t,
            0,
            n,
            "mel",
        ) {
            Ok(ScaleType::MelodicMinor)
        } else if eq_lit(&t, 0, n, "dorian") || eq_lit(&t, 0, n, "dor") {
            Ok(ScaleType::Dorian)
        } else if eq_lit(&t, 0, n, "phrygian") || eq_lit(&t, 0, n, "phryg") {
            Ok(ScaleType::Phrygian)
        } else if eq_lit(&t, 0, n, "lydian") || eq_lit(&t, 0, n, "lyd") {
            Ok(ScaleType::Lydian)
        } else if eq_lit(&t, 0, n, "mixolydian") || eq_lit(&t, 0, n, "mixo") {
            Ok(ScaleType::Mixolydian)
        } else if eq_lit(&t, 0, n, "locrian") || eq_lit(&t, 0, n, "loc") {
            Ok(ScaleType::Locrian)
        } else {
            Err(MozartError::InvalidScale(String::from_str("unknown scale")))
        }
    }
}

/// A complete scale definition with root and type.
#[derive(Debug, Clone, Copy, PartialEq, Eq, Hash, Structural)]
pub struct Scale {
    pub root: PitchClass,
    pub scale_type: ScaleType,
}

/// Whether a pitch class lies in the scale a root and a type make up.
pub open spec fn spec_contains_rt(root: int, st: ScaleType, pc: int) -> bool {
    exists|i: int| 0 <= i < 7 && #[trigger] spec_intervals(st)[i] == spec_interval(root, pc)
}

/// Whether a pitch class (given as semitones 0..=11) lies in a scale.
pub open spec fn spec_scale_contains(s: Scale, pc: int) -> bool {
    spec_contains_rt(s.root@, s.scale_type, pc)
}

/// First index at or after `i` where `tbl` holds `x`, if any.
pub open spec fn spec_find(tbl: Seq<int>, x: int, i: nat) -> Option<int>
    decreases tbl.len() - i,
{
    if i >= tbl.len() {
        None
    } else if tbl[i as int] == x {
        Some(i as int)
    } else {
        spec_find(tbl, x, (i + 1) as nat)
    }
}

/// Stepping past a non-matching entry leaves the search result unchanged.
proof fn lemma_find_step(tbl: Seq<int>, x: int, i: nat)
    requires
        i < tbl.len(),
        tbl[i as int] != x,
    ensures
        spec_find(tbl, x, i) == spec_find(tbl, x, (i + 1) as nat),
{
}

/// The search stops at a matching entry.
proof fn lemma_find_here(tbl: Seq<int>, x: int, i: nat)
    requires
        i < tbl.len(),
        tbl[i as int] == x,
    ensures
        spec_find(tbl, x, i) == Some(i as int),
{
}

/// A failed search means no entry from `i` on matches.
pub proof fn lemma_find_none_no_match(tbl: Seq<int>, x: int, i: nat)
    requires
        spec_find(tbl, x, i) is None,
    ensures
        forall|k: int| i <= k < tbl.len() ==> tbl[k] != x,
    decreases tbl.len() - i,
{
    if i < tbl.len() {
        lemma_find_none_no_match(tbl, x, (i + 1) as nat);
    }
}

/// The 1-based scale degree of a pitch class, if it is in the scale.
pub open spec fn spec_degree_of(s: Scale, pc: int) -> Option<int> {
    match spec_find(spec_intervals(s.scale_type), spec_interval(s.root@, pc), 0) {
        Some(i) => Some(i + 1),
        None => None,
    }
}

/// Magnitude of an integer.
pub open spec fn abs_val(a: int) -> int {
    if a < 0 {
        -a
    } else {
        a
    }
}

/// Result of scanning the interval table from entry `j` on for the
/// smallest absolute adjustment that moves `interval` onto a table entry;
/// for each entry the three wrapped candidates are weighed in a fixed
/// order, and only a strictly smaller magnitude displaces the best found
/// so far.
pub open spec fn spec_scan_adjustment(tbl: Seq<int>, interval: int, j: nat, best: int) -> int
    decreases 7 - j,
{
    if j >= 7 {
        best
    } else {
        let diff = tbl[j as int] - interval;
        let b1 = if abs_val(diff) < abs_val(best) {
            diff
        } else {
            best
        };
        let b2 = if abs_val(diff - 12) < abs_val(b1) {
            diff - 12
        } else {
            b1
        };
        let b3 = if abs_val(diff + 12) < abs_val(b2) {
            diff + 12
        } else {
            b2
        };
        spec_scan_adjustment(tbl, interval, (j + 1) as nat, b3)
    }
}

/// The semitone adjustment that snaps a pitch class to the nearest scale
/// tone: zero for an in-scale pitch class, else the table scan's result.
pub open spec fn spec_nearest_adjustment(s: Scale, pc: int) -> int {
    if spec_scale_contains(s, pc) {
        0
    } else {
        spec_scan_adjustment(spec_intervals(s.scale_type), spec_interval(s.root@, pc), 0, 127)
    }
}

/// Magnitude of a machine integer (the minimum value stays out, so the
/// negation cannot overflow).
fn abs_i32(x: i32) -> (r: i32)
    requires
        x != i32::MIN,
    ensures
        r as int == abs_val(x as int),
{
    if x < 0 {
        -x
    } else {
        x
    }
}

impl Scale {
    pub open spec fn wf(&self) -> bool {
        self.root.wf()
    }

    /// Create a new scale.
    pub fn new(root: PitchClass, scale_type: ScaleType) -> (r: Scale)
        ensures
            r.root == root,
            r.scale_type == scale_type,
    {
        Scale { root, scale_type }
    }

    /// The C Major scale.
    pub fn c_major() -> (r: Scale)
        ensures
            r.root@ == 0,
            r.scale_type == ScaleType::Major,
            r.wf(),
    {
        Scale::new(PitchClass::new(0), ScaleType::Major)
    }

    /// The A natural-minor scale.
    pub fn a_minor() -> (r: Scale)
        ensures
            r.root@ == 9,
            r.scale_type == ScaleType::NaturalMinor,
            r.wf(),
    {
        Scale::new(PitchClass::new(9), ScaleType::NaturalMinor)
    }

    /// Get the seven pitch classes of this scale, in degree order.
    pub fn pitch_classes(&self) -> (r: Vec<PitchClass>)
        requires
            self.wf(),
        ensures
            r@.len() == 7,
            forall|i: int|
                0 <= i < 7 ==> #[trigger] r@[i]@ == spec_transpose_class(
                    self.root@,
                    spec_intervals(self.scale_type)[i],
                ) && r@[i].wf(),
    {
        let tbl = self.scale_type.intervals();
        let mut r: Vec<PitchClass> = Vec::new();
        let mut i: usize = 0;
        while i < 7
            invariant
                self.wf(),
                i <= 7,
                r@.len() == i,
                forall|k: int| 0 <= k < 7 ==> #[trigger] tbl@[k] as int == spec_intervals(self.scale_type)[k],
                forall|k: int|
                    0 <= k < i ==> #[trigger] r@[k]@ == spec_transpose_class(
                        self.root@,
                        spec_intervals(self.scale_type)[k],
                    ) && r@[k].wf(),
            decreases 7 - i,
        {
            proof {
                lemma_intervals_bounds(self.scale_type);
            }
            r.push(self.root.transpose(tbl[i] as i8));
            i = i + 1;
        }
        r
    }

    /// Check whether a pitch class is in this scale.
    pub fn contains(&self, pitch_class: PitchClass) -> (r: bool)
        requires
            self.wf(),
            pitch_class.wf(),
        ensures
            r == spec_scale_contains(*self, pitch_class@),
    {
        let interval = self.root.interval_to(pitch_class);
        let tbl = self.scale_type.intervals();
        let mut i: usize = 0;
        while i < 7
            invariant
                0 <= (interval as int) < 12,
                interval as int == spec_interval(self.root@, pitch_class@),
                i <= 7,
                forall|k: int| 0 <= k < 7 ==> #[trigger] tbl@[k] as int == spec_intervals(self.scale_type)[k],
                forall|k: int| 0 <= k < i ==> #[trigger] spec_intervals(self.scale_type)[k] != interval as int,
            decreases 7 - i,
        {
            if tbl[i] == interval {
                return true;
            }
            i = i + 1;
        }
        false
    }

    /// Get the scale degree (1-7) for a pitch class, if it is in the scale.
    pub fn degree_of(&self, pitch_class: PitchClass) -> (r: Option<u8>)
        requires
            self.wf(),
            pitch_class.wf(),
        ensures
            match r {
                Some(d) => Some(d as int) == spec_degree_of(*self, pitch_class@),
                None => spec_degree_of(*self, pitch_class@) is None,
            },
            r is Some <==> spec_scale_contains(*self, pitch_class@),
    {
        let interval = self.root.interval_to(pitch_class);
        let tbl = self.scale_type.intervals();
        let ghost stbl = spec_intervals(self.scale_type);
        let ghost x = spec_interval(self.root@, pitch_class@);
        let mut i: usize = 0;
        while i < 7
            invariant
                0 <= (interval as int) < 12,
                interval as int == x,
                stbl == spec_intervals(self.scale_type),
                x == spec_interval(self.root@, pitch_class@),
                stbl.len() == 7,
                i <= 7,
                forall|k: int| 0 <= k < 7 ==> #[trigger] tbl@[k] as int == stbl[k],
                spec_find(stbl, x, 0) == spec_find(stbl, x, i as nat),
            decreases 7 - i,
        {
            if tbl[i] == interval {
                proof {
                    assert(tbl@[i as int] == interval);
                    assert(stbl[i as int] == interval as int);
                    assert(stbl[i as int] == x);
                    lemma_find_here(stbl, x, i as nat);
                    assert(spec_intervals(self.scale_type)[i as int] == spec_interval(
                        self.root@,
                        pitch_class@,
                    ));
                    assert(spec_scale_contains(*self, pitch_class@));
                }
                return Some((i + 1) as u8);
            }
            proof {
                assert(tbl@[i as int] as int == stbl[i as int]);
                lemma_find_step(stbl, x, i as nat);
            }
            i = i + 1;
        }
        proof {
            assert(spec_find(stbl, x, 0) is None);
            lemma_find_none_no_match(stbl, x, 0);
        }
        None
    }

    /// Get the pitch class at a given scale degree (1-7).
    pub fn degree(&self, degree: u8) -> (r: Option<PitchClass>)
        requires
            self.wf(),
        ensures
            1 <= degree <= 7 ==> (r matches Some(pc) && pc@ == spec_transpose_class(
                self.root@,
                spec_intervals(self.scale_type)[degree - 1],
            ) && pc.wf()),
            !(1 <= degree <= 7) ==> r is None,
    {
        if degree < 1 || degree > 7 {
            return None;
        }
        proof {
            lemma_intervals_bounds(self.scale_type);
        }
        let tbl = self.scale_type.intervals();
        let interval = tbl[(degree - 1) as usize];
        Some(self.root.transpose(interval as i8))
    }

    /// Find the nearest scale tone for a given pitch class.
    /// Returns the snapped pitch class and the adjustment in semitones;
    /// an in-scale pitch class comes back unchanged with adjustment 0.
    /// Ties in magnitude keep the adjustment found first in the fixed
    /// scan order over the interval table.
    pub fn nearest_scale_tone(&self, pitch_class: PitchClass) -> (r: (PitchClass, i8))
        requires
            self.wf(),
            pitch_class.wf(),
        ensures
            r.1 as int == spec_nearest_adjustment(*self, pitch_class@),
            r.0@ == spec_transpose_class(pitch_class@, r.1 as int),
            r.0.wf(),
    {
        let interval = self.root.interval_to(pitch_class);

        if self.contains(pitch_class) {
            proof {
                vstd::arithmetic::div_mod::lemma_small_mod(pitch_class@ as nat, 12);
            }
            return (pitch_class, 0);
        }

        let tbl = self.scale_type.intervals();
        let ghost stbl = spec_intervals(self.scale_type);
        let ghost x = spec_interval(self.root@, pitch_class@);
        let mut best: i32 = 127;
        let mut j: usize = 0;
        while j < 7
            invariant
                0 <= (interval as int) < 12,
                interval as int == x,
                stbl == spec_intervals(self.scale_type),
                x == spec_interval(self.root@, pitch_class@),
                stbl.len() == 7,
                j <= 7,
                -23 <= (best as int) <= 127,
                j > 0 ==> -23 <= (best as int) <= 23,
                forall|k: int| 0 <= k < 7 ==> #[trigger] tbl@[k] as int == stbl[k],
                spec_scan_adjustment(stbl, x, 0, 127) == spec_scan_adjustment(
                    stbl,
                    x,
                    j as nat,
                    best as int,
                ),
            decreases 7 - j,
        {
            proof {
                lemma_intervals_bounds(self.scale_type);
            }
            let diff: i32 = tbl[j] as i32 - interval as i32;
            if abs_i32(diff) < abs_i32(best) {
                best = diff;
            }
            if abs_i32(diff - 12) < abs_i32(best) {
                best = diff - 12;
            }
            if abs_i32(diff + 12) < abs_i32(best) {
                best = diff + 12;
            }
            j = j + 1;
        }
        let adj: i8 = best as i8;
        (pitch_class.transpose(adj), adj)
    }
}


/// The position of the first space in a string at or after `i`, if any.
pub open spec fn spec_find_char(s: Seq<char>, c: char, i: nat) -> Option<int>
    decreases s.len() - i,
{
    if i >= s.len() {
        None
    } else if s[i as int] == c {
        Some(i as int)
    } else {
        spec_find_char(s, c, (i + 1) as nat)
    }
}

/// The scale a text names: a root pitch class, optionally followed by a
/// space and a scale-type name (missing means major). The text is trimmed,
/// then split at its first space.
pub open spec fn spec_parse_scale(s: Seq<char>) -> Option<(int, ScaleType)> {
    let t = spec_trim(s);
    match spec_find_char(t, ' ', 0) {
        None => match spec_parse_pitch_class(t) {
            None => None,
            Some(pc) => Some((pc, ScaleType::Major)),
        },
        Some(i) => match spec_parse_pitch_class(t.take(i)) {
            None => None,
            Some(pc) => match spec_parse_scale_type(t.skip(i + 1)) {
                None => None,
                Some(st) => Some((pc, st)),
            },
        },
    }
}

impl Scale {
    /// Parse a scale from text (e.g. "C major", "F# minor", "Bb dorian");
    /// a bare root reads as major. A bad root is rejected with
    /// `InvalidPitch`, a bad type name with `InvalidScale`.
    pub fn parse(s: &str) -> (r: Result<Scale, MozartError>)
        ensures
            match r {
                Ok(sc) => ({
                    match spec_parse_scale(s@) {
                        Some((pc, st)) => sc.root@ == pc && sc.scale_type == st && sc.wf(),
                        None => false,
                    }
                }),
                Err(e) => spec_parse_scale(s@) is None && (e is InvalidPitch || e is InvalidScale),
            },
    {
        let chars = str_to_chars(s);
        let (a, b) = trim_bounds(&chars);
        let ghost t = spec_trim(s@);

        let mut i: usize = a;
        while i < b && chars[i] != ' '
            invariant
                a <= i <= b <= chars@.len(),
                t == chars@.subrange(a as int, b as int),
                spec_find_char(t, ' ', 0) == spec_find_char(t, ' ', (i - a) as nat),
            decreases b - i,
        {
            proof {
                assert(t[i - a] == chars@[i as int]);
            }
            i = i + 1;
        }

        if i == b {
            // No space: the whole text is the root, the type is major.
            proof {
                assert(spec_find_char(t, ' ', 0) is None);
            }
            let root_str = s.substring_char(a, b);
            proof {
                assert(root_str@ =~= t);
            }
            let root = match PitchClass::parse(root_str) {
                Ok(pc) => pc,
                Err(e) => {
                    return Err(e);
                },
            };
            Ok(Scale::new(root, ScaleType::Major))
        } else {
            proof {
                assert(t[i - a] == chars@[i as int]);
                assert(spec_find_char(t, ' ', 0) == Some((i - a) as int));
            }
            let root_str = s.substring_char(a, i);
            let type_str = s.substring_char(i + 1, b);
            proof {
                assert(root_str@ =~= t.take(i - a));
                assert(type_str@ =~= t.skip(i - a + 1));
            }
            let root = match PitchClass::parse(root_str) {
                Ok(pc) => pc,
                Err(e) => {
                    return Err(e);
                },
            };
            let scale_type = match ScaleType::parse(type_str) {
                Ok(st) => st,
                Err(e) => {
                    return Err(e);
                },
            };
            Ok(Scale::new(root, scale_type))
        }
    }
}

} // verus!

