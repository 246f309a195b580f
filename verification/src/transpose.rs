//! Transposition engine.
//!
//! Supports chromatic (semitone-exact) and diatonic (scale-relative)
//! transposition of pitches and notes, and a melody-to-scale detection
//! heuristic.

use vstd::prelude::*;
use vstd::arithmetic::div_mod::{
    lemma_add_mod_noop,
    lemma_fundamental_div_mod,
    lemma_small_mod,
    lemma_sub_mod_noop,
};
use crate::error::MozartError;
use crate::note::Note;
use crate::pitch::{Pitch, PitchClass, spec_interval, spec_transpose_class};
use crate::scale::{
    Scale,
    ScaleType,
    abs_val,
    lemma_intervals_bounds,
    spec_degree_of,
    spec_find,
    spec_intervals,
    spec_nearest_adjustment,
    spec_scale_contains,
    spec_scan_adjustment,
};

verus! {

/// Transposition mode.
#[derive(Debug, Clone, Copy, PartialEq, Eq, Structural)]
pub enum TransposeMode {
    /// Chromatic transposition by semitones.
    Chromatic { semitones: i8 },
    /// Diatonic transposition within a scale, optionally remapping into a
    /// different target scale.
    Diatonic { source_scale: Scale, target_scale: Scale, degrees: i8 },
}

impl TransposeMode {
    /// A transposition mode is valid when the scales it names are.
    pub open spec fn wf(&self) -> bool {
        match *self {
            TransposeMode::Chromatic { .. } => true,
            TransposeMode::Diatonic { source_scale, target_scale, .. } => source_scale.wf()
                && target_scale.wf(),
        }
    }

    /// Create a chromatic transposition.
    pub fn chromatic(semitones: i8) -> (r: TransposeMode)
        ensures
            r == (TransposeMode::Chromatic { semitones }),
    {
        TransposeMode::Chromatic { semitones }
    }

    /// Create a diatonic transposition within the same scale.
    pub fn diatonic(scale: Scale, degrees: i8) -> (r: TransposeMode)
        ensures
            r == (TransposeMode::Diatonic { source_scale: scale, target_scale: scale, degrees }),
    {
        TransposeMode::Diatonic { source_scale: scale, target_scale: scale, degrees }
    }

    /// Create a diatonic transposition with a key change.
    pub fn diatonic_with_key_change(source: Scale, target: Scale, degrees: i8) -> (r:
        TransposeMode)
        ensures
            r == (TransposeMode::Diatonic {
                source_scale: source,
                target_scale: target,
                degrees,
            }),
    {
        TransposeMode::Diatonic { source_scale: source, target_scale: target, degrees }
    }
}

/// The display text of a scale: its root's name and its type's name.
pub open spec fn spec_scale_text(s: Scale) -> Seq<char> {
    PitchClass::spec_natural_name(s.root@) + " "@ + ScaleType::spec_name(s.scale_type)
}

/// The name of a chromatic interval of 1..=12 semitones.
pub open spec fn spec_interval_name(n: int) -> Seq<char> {
    if n == 1 {
        "minor 2nd"@
    } else if n == 2 {
        "major 2nd"@
    } else if n == 3 {
        "minor 3rd"@
    } else if n == 4 {
        "major 3rd"@
    } else if n == 5 {
        "perfect 4th"@
    } else if n == 6 {
        "tritone"@
    } else if n == 7 {
        "perfect 5th"@
    } else if n == 8 {
        "minor 6th"@
    } else if n == 9 {
        "major 6th"@
    } else if n == 10 {
        "minor 7th"@
    } else if n == 11 {
        "major 7th"@
    } else {
        "octave"@
    }
}

/// The name of a diatonic step of 0..=7 degrees.
pub open spec fn spec_degree_name(n: int) -> Seq<char> {
    if n == 0 {
        "unison"@
    } else if n == 1 {
        "2nd"@
    } else if n == 2 {
        "3rd"@
    } else if n == 3 {
        "4th"@
    } else if n == 4 {
        "5th"@
    } else if n == 5 {
        "6th"@
    } else if n == 6 {
        "7th"@
    } else {
        "octave"@
    }
}

/// The human-readable description of a transposition mode.
pub open spec fn spec_description(mode: TransposeMode) -> Seq<char> {
    match mode {
        TransposeMode::Chromatic { semitones } => {
            let dir: Seq<char> = if semitones >= 0 {
                "up"@
            } else {
                "down"@
            };
            let interval = abs_val(semitones as int);
            if interval == 0 {
                "No transposition"@
            } else if interval <= 12 {
                dir + " a "@ + spec_interval_name(interval)
            } else {
                dir + " "@ + crate::text::spec_u32_str(interval) + " semitones"@
            }
        },
        TransposeMode::Diatonic { source_scale, target_scale, degrees } => {
            let dir: Seq<char> = if degrees >= 0 {
                "up"@
            } else {
                "down"@
            };
            let degree = abs_val(degrees as int);
            if degree > 7 {
                dir + " "@ + crate::text::spec_u32_str(degree) + " degrees"@
            } else if source_scale == target_scale {
                "Diatonic "@ + dir + " a "@ + spec_degree_name(degree) + " in "@ + spec_scale_text(
                    source_scale,
                )
            } else {
                "Diatonic "@ + dir + " a "@ + spec_degree_name(degree) + " from "@
                    + spec_scale_text(source_scale) + " to "@ + spec_scale_text(target_scale)
            }
        },
    }
}

impl TransposeMode {
    /// Get a human-readable description of the transposition.
    #[verifier::rlimit(60)]
    pub fn description(&self) -> (r: String)
        requires
            self.wf(),
        ensures
            r@ == spec_description(*self),
    {
        let mut out = String::new();
        match self {
            TransposeMode::Chromatic { semitones } => {
                let interval: u32 = if *semitones >= 0 {
                    *semitones as u32
                } else {
                    (-(*semitones as i32)) as u32
                };
                if interval == 0 {
                    out.append("No transposition");
                    proof {
                        assert(out@ =~= spec_description(*self));
                    }
                    return out;
                }
                out.append(if *semitones >= 0 {
                    "up"
                } else {
                    "down"
                });
                if interval <= 12 {
                    out.append(" a ");
                    let name: &str = match interval {
                        1 => "minor 2nd",
                        2 => "major 2nd",
                        3 => "minor 3rd",
                        4 => "major 3rd",
                        5 => "perfect 4th",
                        6 => "tritone",
                        7 => "perfect 5th",
                        8 => "minor 6th",
                        9 => "major 6th",
                        10 => "minor 7th",
                        11 => "major 7th",
                        _ => "octave",
                    };
                    out.append(name);
                } else {
                    out.append(" ");
                    crate::text::append_u32(&mut out, interval);
                    out.append(" semitones");
                }
                proof {
                    assert(out@ =~= spec_description(*self));
                }
                out
            },
            TransposeMode::Diatonic { source_scale, target_scale, degrees } => {
                let degree: u32 = if *degrees >= 0 {
                    *degrees as u32
                } else {
                    (-(*degrees as i32)) as u32
                };
                if degree > 7 {
                    out.append(if *degrees >= 0 {
                        "up"
                    } else {
                        "down"
                    });
                    out.append(" ");
                    crate::text::append_u32(&mut out, degree);
                    out.append(" degrees");
                    proof {
                        assert(out@ =~= spec_description(*self));
                    }
                    return out;
                }
                out.append("Diatonic ");
                out.append(if *degrees >= 0 {
                    "up"
                } else {
                    "down"
                });
                out.append(" a ");
                let name: &str = match degree {
                    0 => "unison",
                    1 => "2nd",
                    2 => "3rd",
                    3 => "4th",
                    4 => "5th",
                    5 => "6th",
                    6 => "7th",
                    _ => "octave",
                };
                out.append(name);
                if source_scale == target_scale {
                    out.append(" in ");
                    out.append(source_scale.root.natural_name());
                    out.append(" ");
                    out.append(source_scale.scale_type.name());
                } else {
                    out.append(" from ");
                    out.append(source_scale.root.natural_name());
                    out.append(" ");
                    out.append(source_scale.scale_type.name());
                    out.append(" to ");
                    out.append(target_scale.root.natural_name());
                    out.append(" ");
                    out.append(target_scale.scale_type.name());
                }
                proof {
                    assert(out@ =~= spec_description(*self));
                }
                out
            },
        }
    }
}

/// Sign-preserving (toward-zero) division by 7, as opposed to the floor
/// modulo used for pitch-class arithmetic.
pub open spec fn trunc_div7(a: int) -> int {
    if a >= 0 {
        a / 7
    } else {
        -((-a) / 7)
    }
}

/// Remainder of the toward-zero division by 7 (its sign follows `a`).
pub open spec fn trunc_rem7(a: int) -> int {
    a - 7 * trunc_div7(a)
}

/// The degree (1..=7) that the diatonic engine reads a pitch class as: its
/// own degree when in the source scale, else the degree of the nearest
/// scale tone (the chromatic deviation is discarded).
pub open spec fn spec_source_degree(src: Scale, pc: int) -> int {
    if spec_scale_contains(src, pc) {
        spec_degree_of(src, pc).unwrap()
    } else {
        spec_degree_of(
            src,
            spec_transpose_class(pc, spec_nearest_adjustment(src, pc)),
        ).unwrap()
    }
}

/// The MIDI number (possibly out of range) that diatonic transposition
/// computes: move the source degree by `degrees`, normalize it into 1..=7,
/// read the pitch class off the target scale, and correct the octave for
/// full seven-degree cycles and for crossing the C boundary.
pub open spec fn spec_diatonic_midi(midi: int, src: Scale, tgt: Scale, degrees: int) -> int {
    let pc = midi % 12;
    let octave = midi / 12 - 1;
    let source_degree = spec_source_degree(src, pc);
    let raw = source_degree + degrees;
    let normalized = ((raw - 1) % 7) + 1;
    let full_octaves = trunc_div7(degrees);
    let remaining = trunc_rem7(degrees);
    let target_pc = spec_transpose_class(tgt.root@, spec_intervals(tgt.scale_type)[normalized - 1]);
    let correction: int = if remaining > 0 && target_pc < pc {
        1
    } else if remaining < 0 && target_pc > pc {
        -1
    } else {
        0
    };
    Pitch::spec_midi_of(target_pc, octave + full_octaves + correction)
}

/// Transpose a single pitch chromatically; fails with
/// `TranspositionError` when the result leaves the MIDI range.
pub fn transpose_pitch_chromatic(pitch: Pitch, semitones: i8) -> (r: Result<Pitch, MozartError>)
    requires
        pitch.wf(),
    ensures
        0 <= pitch@ + semitones <= 127 ==> (r matches Ok(p) && p@ == pitch@ + semitones
            && p.wf()),
        !(0 <= pitch@ + semitones <= 127) ==> (r matches Err(e) && e is TranspositionError),
{
    pitch.transpose(semitones)
}

/// A successful adjustment scan lands on a scale tone: the scanned
/// adjustment, added to the interval, is congruent to a table entry.
proof fn lemma_scan_lands_in_scale(tbl: Seq<int>, x: int, j: nat, best: int)
    requires
        tbl.len() == 7,
        forall|i: int| 0 <= i < 7 ==> 0 <= #[trigger] tbl[i] < 12,
        0 <= x < 12,
        j <= 7,
    ensures
        ({
            let r = spec_scan_adjustment(tbl, x, j, best);
            r == best || exists|i: int| 0 <= i < 7 && #[trigger] tbl[i] == (x + r) % 12
        }),
    decreases 7 - j,
{
    if j < 7 {
        let diff = tbl[j as int] - x;
        let b1 = if abs_val(diff) < abs_val(best) {
            diff
        } else {
            best
        };
        let b2 = if abs_val(diff - 12) < abs_val(b1) {
            diff - 12
        } else {
            b1
        };
        let b3 = if abs_val(diff + 12) < abs_val(b2) {
            diff + 12
        } else {
            b2
        };
        assert((x + diff) % 12 == tbl[j as int]) by {
            lemma_small_mod(tbl[j as int] as nat, 12);
        }
        assert((x + (diff - 12)) % 12 == tbl[j as int]) by {
            lemma_sub_mod_noop(x + diff, 12, 12);
            lemma_small_mod(tbl[j as int] as nat, 12);
        }
        assert((x + (diff + 12)) % 12 == tbl[j as int]) by {
            lemma_add_mod_noop(x + diff, 12, 12);
            lemma_small_mod(tbl[j as int] as nat, 12);
        }
        lemma_scan_lands_in_scale(tbl, x, (j + 1) as nat, b3);
    }
}

/// The scan never worsens the magnitude of the adjustment it carries.
proof fn lemma_scan_magnitude(tbl: Seq<int>, x: int, j: nat, best: int)
    requires
        tbl.len() == 7,
        j <= 7,
    ensures
        abs_val(spec_scan_adjustment(tbl, x, j, best)) <= abs_val(best),
    decreases 7 - j,
{
    if j < 7 {
        let diff = tbl[j as int] - x;
        let b1 = if abs_val(diff) < abs_val(best) {
            diff
        } else {
            best
        };
        let b2 = if abs_val(diff - 12) < abs_val(b1) {
            diff - 12
        } else {
            b1
        };
        let b3 = if abs_val(diff + 12) < abs_val(b2) {
            diff + 12
        } else {
            b2
        };
        lemma_scan_magnitude(tbl, x, (j + 1) as nat, b3);
    }
}

/// The scan's result is never worse than any candidate it weighs: for
/// every table entry from `j` on, each of the three wrapped adjustments
/// has at least the result's magnitude.
proof fn lemma_scan_le_candidates(tbl: Seq<int>, x: int, j: nat, best: int)
    requires
        tbl.len() == 7,
        j <= 7,
    ensures
        forall|i: int|
            j <= i < 7 ==> abs_val(spec_scan_adjustment(tbl, x, j, best)) <= abs_val(
                #[trigger] tbl[i] - x,
            ) && abs_val(spec_scan_adjustment(tbl, x, j, best)) <= abs_val(tbl[i] - x - 12)
                && abs_val(spec_scan_adjustment(tbl, x, j, best)) <= abs_val(tbl[i] - x + 12),
    decreases 7 - j,
{
    if j < 7 {
        let diff = tbl[j as int] - x;
        let b1 = if abs_val(diff) < abs_val(best) {
            diff
        } else {
            best
        };
        let b2 = if abs_val(diff - 12) < abs_val(b1) {
            diff - 12
        } else {
            b1
        };
        let b3 = if abs_val(diff + 12) < abs_val(b2) {
            diff + 12
        } else {
            b2
        };
        lemma_scan_le_candidates(tbl, x, (j + 1) as nat, b3);
        lemma_scan_magnitude(tbl, x, (j + 1) as nat, b3);
        assert(abs_val(b3) <= abs_val(diff));
        assert(abs_val(b3) <= abs_val(diff - 12));
        assert(abs_val(b3) <= abs_val(diff + 12));
    }
}

/// Snapping really finds the nearest scale tone: no adjustment of up to
/// eleven semitones in either direction that lands in the scale has a
/// smaller magnitude than the chosen one.
pub proof fn lemma_nearest_is_minimal(s: Scale, pc: int, a: int)
    requires
        s.wf(),
        0 <= pc < 12,
        -11 <= a <= 11,
        spec_scale_contains(s, spec_transpose_class(pc, a)),
    ensures
        abs_val(spec_nearest_adjustment(s, pc)) <= abs_val(a),
{
    if spec_scale_contains(s, pc) {
        // An in-scale pitch class keeps adjustment zero.
    } else {
        let tbl = spec_intervals(s.scale_type);
        let x = spec_interval(s.root@, pc);
        lemma_intervals_bounds(s.scale_type);
        assert(0 <= x < 12) by {
            vstd::arithmetic::div_mod::lemma_mod_bound(pc - s.root@, 12);
        }

        // The snapped target's interval from the root is (x + a) mod 12,
        // so some table entry equals it.
        let snapped = spec_transpose_class(pc, a);
        assert(spec_interval(s.root@, snapped) == (x + a) % 12) by {
            lemma_sub_mod_noop(pc + a, s.root@, 12);
            lemma_small_mod(s.root@ as nat, 12);
            assert((pc + a - s.root@) % 12 == ((pc - s.root@) % 12 + a % 12) % 12) by {
                lemma_add_mod_noop(pc - s.root@, a, 12);
            }
            assert(((pc - s.root@) % 12 + a % 12) % 12 == (x + a) % 12) by {
                lemma_add_mod_noop(x, a, 12);
                lemma_small_mod(x as nat, 12);
            }
        }
        let i = choose|i: int| 0 <= i < 7 && #[trigger] tbl[i] == spec_interval(s.root@, snapped);
        let d = tbl[i] - x;

        // The landing adjustment is congruent to that entry's offset, so
        // it is one of the three candidates the scan weighs for it.
        assert((x + d) % 12 == (x + a) % 12) by {
            lemma_small_mod(tbl[i] as nat, 12);
        }
        assert((a - d) % 12 == 0) by {
            lemma_sub_mod_noop(x + a, x + d, 12);
            assert((x + a - (x + d)) % 12 == 0) by {
                lemma_mod_self_multiples(a - d, 12);
            }
        }
        assert(a == d || a == d - 12 || a == d + 12) by {
            assert(-23 <= a - d <= 23);
            if a - d == 0 {
            } else if a - d == 12 {
            } else if a - d == -12 {
            } else {
                vstd::arithmetic::div_mod::lemma_small_mod((if a - d >= 0 {
                    a - d
                } else {
                    0
                }) as nat, 12);
                assert(false);
            }
        }
        lemma_scan_le_candidates(tbl, x, 0, 127);
    }
}

/// A multiple of the modulus leaves no remainder, and nothing else in its
/// immediate reach does.
proof fn lemma_mod_self_multiples(v: int, m: int)
    requires
        0 < m,
    ensures
        (v % m == 0) <==> (exists|k: int| #[trigger] (k * m) == v),
{
    vstd::arithmetic::div_mod::lemma_fundamental_div_mod(v, m);
    if v % m == 0 {
        assert((v / m) * m == v) by {
            vstd::arithmetic::mul::lemma_mul_is_commutative(m, v / m);
        }
    }
    if exists|k: int| #[trigger] (k * m) == v {
        let k = choose|k: int| #[trigger] (k * m) == v;
        vstd::arithmetic::div_mod::lemma_mod_multiples_basic(k, m);
        assert((m * k) % m == 0) by {
            vstd::arithmetic::mul::lemma_mul_is_commutative(m, k);
        }
    }
}

/// Snapping a pitch class to its nearest scale tone always lands in the
/// scale.
pub proof fn lemma_nearest_in_scale(s: Scale, pc: int)
    requires
        s.wf(),
        0 <= pc < 12,
    ensures
        spec_scale_contains(s, spec_transpose_class(pc, spec_nearest_adjustment(s, pc))),
{
    let tbl = spec_intervals(s.scale_type);
    let x = spec_interval(s.root@, pc);
    lemma_intervals_bounds(s.scale_type);
    assert(0 <= x < 12) by {
        vstd::arithmetic::div_mod::lemma_mod_bound(pc - s.root@, 12);
    }
    if spec_scale_contains(s, pc) {
        assert(spec_nearest_adjustment(s, pc) == 0);
        lemma_small_mod(pc as nat, 12);
        assert(spec_transpose_class(pc, 0) == pc);
    } else {
        let adj = spec_scan_adjustment(tbl, x, 0, 127);
        lemma_scan_lands_in_scale(tbl, x, 0, 127);
        // The very first table entry forces a replacement, so the scan
        // cannot return its initial placeholder.
        let diff0 = tbl[0] - x;
        assert(abs_val(diff0) < 127);
        let b1 = if abs_val(diff0) < abs_val(127) {
            diff0
        } else {
            127int
        };
        let b2 = if abs_val(diff0 - 12) < abs_val(b1) {
            diff0 - 12
        } else {
            b1
        };
        let b3 = if abs_val(diff0 + 12) < abs_val(b2) {
            diff0 + 12
        } else {
            b2
        };
        assert(abs_val(b3) <= abs_val(diff0) < 127);
        lemma_scan_magnitude(tbl, x, 1, b3);
        assert(spec_scan_adjustment(tbl, x, 0, 127) == spec_scan_adjustment(tbl, x, 1, b3));
        assert(adj != 127);
        let i = choose|i: int| 0 <= i < 7 && #[trigger] tbl[i] == (x + adj) % 12;
        // The snapped pitch class has exactly that interval from the root.
        let snapped = spec_transpose_class(pc, adj);
        assert(spec_interval(s.root@, snapped) == (x + adj) % 12) by {
            lemma_sub_mod_noop(pc + adj, s.root@, 12);
            lemma_small_mod(s.root@ as nat, 12);
            assert((pc + adj - s.root@) % 12 == ((pc - s.root@) % 12 + adj % 12) % 12) by {
                lemma_add_mod_noop(pc - s.root@, adj, 12);
            }
            assert(((pc - s.root@) % 12 + adj % 12) % 12 == (x + adj) % 12) by {
                lemma_add_mod_noop(x, adj, 12);
                lemma_small_mod(x as nat, 12);
            }
        }
    }
}

/// A found index really carries the sought value.
proof fn lemma_find_some(tbl: Seq<int>, x: int, i: nat)
    requires
        spec_find(tbl, x, i) is Some,
    ensures
        ({
            let k = spec_find(tbl, x, i).unwrap();
            i <= k < tbl.len() && tbl[k] == x
        }),
    decreases tbl.len() - i,
{
    if i < tbl.len() && tbl[i as int] != x {
        lemma_find_some(tbl, x, (i + 1) as nat);
    }
}

/// The degree the diatonic engine reads is always 1..=7.
pub proof fn lemma_source_degree_range(src: Scale, pc: int)
    requires
        src.wf(),
        0 <= pc < 12,
    ensures
        1 <= spec_source_degree(src, pc) <= 7,
{
    lemma_intervals_bounds(src.scale_type);
    if spec_scale_contains(src, pc) {
        let x = spec_interval(src.root@, pc);
        let f = spec_find(spec_intervals(src.scale_type), x, 0);
        if f is None {
            crate::scale::lemma_find_none_no_match(spec_intervals(src.scale_type), x, 0);
            assert(false);
        }
        lemma_find_some(spec_intervals(src.scale_type), x, 0);
    } else {
        lemma_nearest_in_scale(src, pc);
        let snapped = spec_transpose_class(pc, spec_nearest_adjustment(src, pc));
        let x = spec_interval(src.root@, snapped);
        let f = spec_find(spec_intervals(src.scale_type), x, 0);
        if f is None {
            crate::scale::lemma_find_none_no_match(spec_intervals(src.scale_type), x, 0);
            assert(false);
        }
        lemma_find_some(spec_intervals(src.scale_type), x, 0);
    }
}

/// Transpose a single pitch diatonically: find the pitch's degree in the
/// source scale (snapping a non-scale tone to its nearest scale tone
/// first), move by the given number of degrees, and read the result off
/// the target scale; fails with `InvalidPitch` when the result leaves the
/// MIDI range.
pub fn transpose_pitch_diatonic(
    pitch: Pitch,
    source_scale: &Scale,
    target_scale: &Scale,
    degrees: i8,
) -> (r: Result<Pitch, MozartError>)
    requires
        pitch.wf(),
        source_scale.wf(),
        target_scale.wf(),
    ensures
        ({
            let m = spec_diatonic_midi(pitch@, *source_scale, *target_scale, degrees as int);
            &&& 0 <= m <= 127 ==> (r matches Ok(p) && p@ == m && p.wf())
            &&& !(0 <= m <= 127) ==> (r matches Err(e) && e is InvalidPitch)
        }),
{
    let ghost m = spec_diatonic_midi(pitch@, *source_scale, *target_scale, degrees as int);
    let pc = pitch.pitch_class();
    let octave = pitch.octave();

    proof {
        lemma_source_degree_range(*source_scale, pc@);
    }
    let source_degree: u8 = match source_scale.degree_of(pc) {
        Some(deg) => deg,
        None => {
            let (nearest_pc, _adjustment) = source_scale.nearest_scale_tone(pc);
            match source_scale.degree_of(nearest_pc) {
                Some(deg) => deg,
                None => {
                    proof {
                        lemma_nearest_in_scale(*source_scale, pc@);
                        assert(false);
                    }
                    return Err(MozartError::TranspositionError(
                        String::from_str("could not find scale degree"),
                    ));
                },
            }
        },
    };
    assert(source_degree as int == spec_source_degree(*source_scale, pc@));
    assert(1 <= source_degree <= 7);

    let raw: i32 = source_degree as i32 + degrees as i32;
    let normalized: i32 = (raw - 1).checked_rem_euclid(7).unwrap() + 1;
    assert(1 <= normalized <= 7);

    let full_octaves: i32 = (degrees as i32).checked_div(7).unwrap();
    let remaining: i32 = (degrees as i32).checked_rem(7).unwrap();
    proof {
        lemma_fundamental_div_mod(-(degrees as int), 7);
        lemma_fundamental_div_mod(degrees as int, 7);
        assert(full_octaves as int == trunc_div7(degrees as int));
        assert(remaining as int == trunc_rem7(degrees as int));
    }

    let target_pc: PitchClass = target_scale.degree(normalized as u8).unwrap();

    let old_semitones = pc.semitones();
    let new_semitones = target_pc.semitones();

    let boundary_cross: i32 = if remaining > 0 {
        if new_semitones < old_semitones {
            1
        } else {
            0
        }
    } else if remaining < 0 {
        if new_semitones > old_semitones {
            -1
        } else {
            0
        }
    } else {
        0
    };

    let new_octave: i32 = octave as i32 + full_octaves + boundary_cross;
    assert(-21 <= new_octave <= 29);
    proof {
        assert(Pitch::spec_midi_of(target_pc@, new_octave as int) == m);
    }
    Pitch::new(target_pc, new_octave as i8)
}


/// The MIDI number a transposition mode sends a note's pitch to (possibly
/// out of range).
pub open spec fn spec_transposed_midi(note: Note, mode: TransposeMode) -> int {
    match mode {
        TransposeMode::Chromatic { semitones } => note.pitch + semitones,
        TransposeMode::Diatonic { source_scale, target_scale, degrees } => spec_diatonic_midi(
            note.pitch as int,
            source_scale,
            target_scale,
            degrees as int,
        ),
    }
}

/// Whether a note can be transposed: its pitch byte is a valid MIDI
/// number and the result stays in the MIDI range.
pub open spec fn spec_note_transposable(note: Note, mode: TransposeMode) -> bool {
    note.pitch <= 127 && 0 <= spec_transposed_midi(note, mode) <= 127
}

/// The transposed note: new pitch, same timing, duration and velocity;
/// the result is placed on the main voice (voice 0), whatever voice the
/// source note carried.
pub open spec fn spec_transposed_note(note: Note, mode: TransposeMode) -> Note {
    Note {
        pitch: spec_transposed_midi(note, mode) as u8,
        start_tick: note.start_tick,
        duration_ticks: note.duration_ticks,
        velocity: note.velocity,
        voice: 0,
    }
}

/// Transpose a note: the pitch moves, timing, duration and velocity stay;
/// the result is placed on the main voice. Fails when the note's pitch
/// byte is no valid MIDI number or the transposed pitch would leave the
/// MIDI range.
pub fn transpose_note(note: &Note, mode: &TransposeMode) -> (r: Result<Note, MozartError>)
    requires
        mode.wf(),
    ensures
        spec_note_transposable(*note, *mode) ==> r == Ok::<Note, MozartError>(
            spec_transposed_note(*note, *mode),
        ),
        !spec_note_transposable(*note, *mode) ==> r is Err,
{
    let pitch = match Pitch::from_midi(note.pitch) {
        Ok(p) => p,
        Err(e) => {
            return Err(e);
        },
    };

    let new_pitch = match mode {
        TransposeMode::Chromatic { semitones } => {
            match transpose_pitch_chromatic(pitch, *semitones) {
                Ok(p) => p,
                Err(e) => {
                    return Err(e);
                },
            }
        },
        TransposeMode::Diatonic { source_scale, target_scale, degrees } => {
            match transpose_pitch_diatonic(pitch, source_scale, target_scale, *degrees) {
                Ok(p) => p,
                Err(e) => {
                    return Err(e);
                },
            }
        },
    };

    Ok(
        Note {
            pitch: new_pitch.midi(),
            start_tick: note.start_tick,
            duration_ticks: note.duration_ticks,
            velocity: note.velocity,
            voice: 0,
        },
    )
}

/// Transpose a collection of notes, all-or-nothing: the first note that
/// cannot be transposed aborts the whole batch and nothing is returned.
pub fn transpose_notes(notes: &[Note], mode: &TransposeMode) -> (r: Result<Vec<Note>, MozartError>)
    requires
        mode.wf(),
    ensures
        r is Ok <==> (forall|i: int|
            0 <= i < notes@.len() ==> spec_note_transposable(#[trigger] notes@[i], *mode)),
        r matches Ok(v) ==> v@.len() == notes@.len() && (forall|i: int|
            0 <= i < notes@.len() ==> #[trigger] v@[i] == spec_transposed_note(notes@[i], *mode)),
{
    let mut out: Vec<Note> = Vec::new();
    let n = notes.len();
    let mut i: usize = 0;
    while i < n
        invariant
            mode.wf(),
            n == notes@.len(),
            i <= n,
            out@.len() == i,
            forall|k: int| 0 <= k < i ==> spec_note_transposable(#[trigger] notes@[k], *mode),
            forall|k: int|
                0 <= k < i ==> #[trigger] out@[k] == spec_transposed_note(notes@[k], *mode),
        decreases n - i,
    {
        let note = &notes[i];
        match transpose_note(note, mode) {
            Ok(t) => {
                out.push(t);
            },
            Err(e) => {
                return Err(e);
            },
        }
        i = i + 1;
    }
    Ok(out)
}

/// Whether some note of the melody sounds the given pitch class (notes
/// with an out-of-range pitch byte are ignored).
pub open spec fn spec_pc_used(notes: Seq<Note>, pc: int) -> bool {
    exists|i: int| 0 <= i < notes.len() && (#[trigger] notes[i]).pitch <= 127 && notes[i].pitch % 12 == pc
}

/// The last note's pitch class, when the melody ends in a valid note.
pub open spec fn spec_last_pc(notes: Seq<Note>) -> Option<int> {
    if notes.len() == 0 {
        None
    } else {
        let last = notes[notes.len() - 1];
        if last.pitch <= 127 {
            Some(last.pitch as int % 12)
        } else {
            None
        }
    }
}

/// How many of the pitch classes 0..k the melody uses.
pub open spec fn spec_count_used(notes: Seq<Note>, k: nat) -> int
    decreases k,
{
    if k == 0 {
        0
    } else {
        spec_count_used(notes, (k - 1) as nat) + if spec_pc_used(notes, k - 1) {
            1int
        } else {
            0int
        }
    }
}

/// How many of the pitch classes 0..k the melody uses that also lie in
/// the scale a root and type make up.
pub open spec fn spec_count_matched(notes: Seq<Note>, root: int, st: ScaleType, k: nat) -> int
    decreases k,
{
    if k == 0 {
        0
    } else {
        spec_count_matched(notes, root, st, (k - 1) as nat) + if spec_pc_used(notes, k - 1)
            && crate::scale::spec_contains_rt(root, st, k - 1) {
            1int
        } else {
            0int
        }
    }
}

/// The matched count never exceeds the used count, and the two are equal
/// exactly when every used pitch class below `k` lies in the scale: the
/// first score component really reads "the candidate contains the whole
/// melody".
pub proof fn lemma_matches_all_iff(notes: Seq<Note>, root: int, st: ScaleType, k: nat)
    requires
        k <= 12,
    ensures
        spec_count_matched(notes, root, st, k) <= spec_count_used(notes, k),
        (spec_count_matched(notes, root, st, k) == spec_count_used(notes, k)) <==> (forall|pc: int|
            0 <= pc < k && spec_pc_used(notes, pc) ==> crate::scale::spec_contains_rt(
                root,
                st,
                pc,
            )),
    decreases k,
{
    if k > 0 {
        lemma_matches_all_iff(notes, root, st, (k - 1) as nat);
        let pc = k - 1;
        if spec_count_matched(notes, root, st, k) == spec_count_used(notes, k) {
            assert(spec_count_matched(notes, root, st, (k - 1) as nat) == spec_count_used(
                notes,
                (k - 1) as nat,
            ));
            assert(spec_pc_used(notes, pc) ==> crate::scale::spec_contains_rt(root, st, pc));
        }
        if (forall|q: int|
            0 <= q < k && spec_pc_used(notes, q) ==> crate::scale::spec_contains_rt(
                root,
                st,
                q,
            )) {
            assert(forall|q: int|
                0 <= q < k - 1 && spec_pc_used(notes, q) ==> crate::scale::spec_contains_rt(
                    root,
                    st,
                    q,
                ));
        }
    }
}

/// The root (semitones) of detection candidate `k`: candidates walk the
/// twelve roots in chromatic order, minor before major at each root.
pub open spec fn spec_cand_root(k: int) -> int {
    k / 2
}

/// The scale type of detection candidate `k`.
pub open spec fn spec_cand_type(k: int) -> ScaleType {
    if k % 2 == 0 {
        ScaleType::NaturalMinor
    } else {
        ScaleType::Major
    }
}

/// The score of a detection candidate: does it contain every used pitch
/// class, does the last note sound its root, is it minor, and how many
/// used pitch classes it contains. Scores compare lexicographically.
pub open spec fn spec_cand_score(notes: Seq<Note>, k: int) -> (bool, bool, bool, int) {
    let root = spec_cand_root(k);
    let st = spec_cand_type(k);
    (
        spec_count_matched(notes, root, st, 12) == spec_count_used(notes, 12),
        spec_last_pc(notes) == Some(root),
        st is NaturalMinor,
        spec_count_matched(notes, root, st, 12),
    )
}

/// Strict lexicographic comparison of candidate scores (true beats
/// false).
pub open spec fn spec_score_gt(a: (bool, bool, bool, int), b: (bool, bool, bool, int)) -> bool {
    let a0: int = if a.0 { 1 } else { 0 };
    let b0: int = if b.0 { 1 } else { 0 };
    let a1: int = if a.1 { 1 } else { 0 };
    let b1: int = if b.1 { 1 } else { 0 };
    let a2: int = if a.2 { 1 } else { 0 };
    let b2: int = if b.2 { 1 } else { 0 };
    if a0 != b0 {
        a0 > b0
    } else if a1 != b1 {
        a1 > b1
    } else if a2 != b2 {
        a2 > b2
    } else {
        a.3 > b.3
    }
}

/// The winning candidate index after weighing candidates `k..24` against
/// the best found so far; only a strictly greater score displaces it.
pub open spec fn spec_detect_scan(notes: Seq<Note>, k: int, best: int) -> int
    decreases 24 - k,
{
    if k < 0 || k >= 24 {
        best
    } else {
        let b = if spec_score_gt(spec_cand_score(notes, k), spec_cand_score(notes, best)) {
            k
        } else {
            best
        };
        spec_detect_scan(notes, k + 1, b)
    }
}

/// The scale the detection heuristic settles on, as root semitones and
/// scale type; none for an empty melody.
pub open spec fn spec_detected(notes: Seq<Note>) -> Option<(int, ScaleType)> {
    if notes.len() == 0 {
        None
    } else {
        let k = spec_detect_scan(notes, 1, 0);
        Some((spec_cand_root(k), spec_cand_type(k)))
    }
}


/// Diatonic transposition by exactly seven degrees within one scale is
/// chromatic transposition by one full octave: for every in-scale
/// starting pitch the computed MIDI number is the original plus twelve
/// semitones, so the two transpositions return the same pitch and fail on
/// the same inputs.
pub proof fn lemma_diatonic_seven_is_octave(midi: int, s: Scale)
    requires
        s.wf(),
        0 <= midi <= 127,
        spec_scale_contains(s, midi % 12),
    ensures
        spec_diatonic_midi(midi, s, s, 7) == midi + 12,
{
    let pc = midi % 12;
    let octave = midi / 12 - 1;
    vstd::arithmetic::div_mod::lemma_mod_bound(midi, 12);
    let tbl = spec_intervals(s.scale_type);
    let x = spec_interval(s.root@, pc);
    lemma_intervals_bounds(s.scale_type);

    // The in-scale pitch class has a degree, and its table entry is its
    // interval from the root.
    let f = spec_find(tbl, x, 0);
    if f is None {
        crate::scale::lemma_find_none_no_match(tbl, x, 0);
        assert(false);
    }
    lemma_find_some(tbl, x, 0);
    let d = spec_source_degree(s, pc);
    assert(d == f.unwrap() + 1);
    assert(1 <= d <= 7);
    assert(tbl[d - 1] == x);

    // Seven degrees up normalize back to the same degree.
    assert(((d + 7 - 1) % 7) + 1 == d) by {
        assert((d - 1 + 7) % 7 == (d - 1) % 7) by {
            lemma_add_mod_noop(d - 1, 7, 7);
            lemma_small_mod(0nat, 7);
        }
        lemma_small_mod((d - 1) as nat, 7);
    }

    // A full seven-degree move is exactly one octave, with no remainder
    // and so no boundary correction.
    assert(trunc_div7(7) == 1);
    assert(trunc_rem7(7) == 0);

    // The same degree of the same scale is the same pitch class.
    let target_pc = spec_transpose_class(s.root@, tbl[d - 1]);
    assert(target_pc == pc) by {
        assert((s.root@ + (pc - s.root@) % 12) % 12 == (s.root@ + (pc - s.root@)) % 12) by {
            vstd::arithmetic::div_mod::lemma_add_mod_noop_right(s.root@, pc - s.root@, 12);
        }
        lemma_small_mod(pc as nat, 12);
    }

    // One octave up is twelve semitones up.
    assert(Pitch::spec_midi_of(pc, octave + 1) == midi + 12) by {
        lemma_fundamental_div_mod(midi, 12);
    }
}

/// Appending one note extends the used pitch classes by exactly that
/// note's class (when its pitch byte is a valid MIDI number).
proof fn lemma_pc_used_push(s: Seq<Note>, e: Note, pc: int)
    ensures
        spec_pc_used(s.push(e), pc) == (spec_pc_used(s, pc) || (e.pitch <= 127 && e.pitch % 12
            == pc)),
{
    if spec_pc_used(s.push(e), pc) {
        let i = choose|i: int|
            0 <= i < s.push(e).len() && (#[trigger] s.push(e)[i]).pitch <= 127 && s.push(e)[i].pitch
                % 12 == pc;
        if i < s.len() {
            assert(s[i] == s.push(e)[i]);
            assert(spec_pc_used(s, pc));
        } else {
            assert(s.push(e)[i] == e);
        }
    }
    if spec_pc_used(s, pc) {
        let i = choose|i: int|
            0 <= i < s.len() && (#[trigger] s[i]).pitch <= 127 && s[i].pitch % 12 == pc;
        assert(s.push(e)[i] == s[i]);
        assert(spec_pc_used(s.push(e), pc));
    }
    if e.pitch <= 127 && e.pitch % 12 == pc {
        assert(s.push(e)[s.len() as int] == e);
        assert(spec_pc_used(s.push(e), pc));
    }
}

/// The score of detection candidate `k`, computed from the used-class
/// flags and the last note's class.
fn candidate_score(used: &[bool; 12], last_pc: Option<u8>, k: usize, Ghost(notes): Ghost<
    Seq<Note>,
>) -> (r: (bool, bool, bool, u32))
    requires
        k < 24,
        forall|pc: int| 0 <= pc < 12 ==> #[trigger] used@[pc] == spec_pc_used(notes, pc),
        match last_pc {
            Some(lp) => spec_last_pc(notes) == Some(lp as int) && lp < 12,
            None => spec_last_pc(notes) is None,
        },
    ensures
        ({
            let sc = spec_cand_score(notes, k as int);
            r.0 == sc.0 && r.1 == sc.1 && r.2 == sc.2 && r.3 as int == sc.3
        }),
{
    let root: u8 = (k / 2) as u8;
    let minor: bool = k % 2 == 0;
    let st: ScaleType = if minor {
        ScaleType::NaturalMinor
    } else {
        ScaleType::Major
    };
    let scale = Scale::new(PitchClass::new(root), st);
    assert(scale.root@ == k as int / 2);

    let mut matches: u32 = 0;
    let mut total: u32 = 0;
    let mut pc: usize = 0;
    while pc < 12
        invariant
            k < 24,
            pc <= 12,
            scale.root@ == k as int / 2,
            scale.scale_type == spec_cand_type(k as int),
            st == spec_cand_type(k as int),
            scale.wf(),
            forall|q: int| 0 <= q < 12 ==> #[trigger] used@[q] == spec_pc_used(notes, q),
            matches <= pc,
            total <= pc,
            matches as int == spec_count_matched(notes, k as int / 2, st, pc as nat),
            total as int == spec_count_used(notes, pc as nat),
        decreases 12 - pc,
    {
        let class = PitchClass::new(pc as u8);
        if used[pc] {
            total = total + 1;
            if scale.contains(class) {
                matches = matches + 1;
            }
        } else {
            proof {
                assert(!spec_pc_used(notes, pc as int));
            }
        }
        pc = pc + 1;
    }

    let matches_all = matches == total;
    let last_is_root = match last_pc {
        Some(lp) => lp == root,
        None => false,
    };
    (matches_all, last_is_root, minor, matches)
}

/// Whether score `a` beats score `b` lexicographically.
fn score_gt(a: (bool, bool, bool, u32), b: (bool, bool, bool, u32)) -> (r: bool)
    ensures
        r == spec_score_gt(
            (a.0, a.1, a.2, a.3 as int),
            (b.0, b.1, b.2, b.3 as int),
        ),
{
    if a.0 != b.0 {
        a.0
    } else if a.1 != b.1 {
        a.1
    } else if a.2 != b.2 {
        a.2
    } else {
        a.3 > b.3
    }
}

/// Analyze a melody and suggest a likely scale. Only the twelve major and
/// twelve natural-minor scales are weighed; minor is preferred over major
/// when ambiguous, and a scale whose root matches the last note is
/// preferred. Returns none for an empty melody.
pub fn detect_scale(notes: &[Note]) -> (r: Option<Scale>)
    ensures
        r is Some <==> notes@.len() > 0,
        r matches Some(s) ==> ({
            let d = spec_detected(notes@).unwrap();
            s.root@ == d.0 && s.scale_type == d.1 && s.wf()
        }),
{
    let n = notes.len();
    if n == 0 {
        return None;
    }

    let mut used: [bool; 12] = [
        false,
        false,
        false,
        false,
        false,
        false,
        false,
        false,
        false,
        false,
        false,
        false,
    ];
    let mut i: usize = 0;
    while i < n
        invariant
            n == notes@.len(),
            i <= n,
            used@.len() == 12,
            forall|pc: int|
                0 <= pc < 12 ==> #[trigger] used@[pc] == spec_pc_used(notes@.take(i as int), pc),
        decreases n - i,
    {
        let ghost prefix = notes@.take(i as int);
        let note = &notes[i];
        if note.pitch <= 127 {
            let class: usize = (note.pitch % 12) as usize;
            used[class] = true;
        }
        proof {
            assert(notes@.take(i + 1) =~= prefix.push(notes@[i as int]));
            assert(forall|pc: int|
                0 <= pc < 12 ==> spec_pc_used(notes@.take(i + 1), pc) == (spec_pc_used(prefix, pc)
                    || (notes@[i as int].pitch <= 127 && notes@[i as int].pitch % 12 == pc))) by {
                assert forall|pc: int| 0 <= pc < 12 implies spec_pc_used(notes@.take(i + 1), pc)
                    == (spec_pc_used(prefix, pc) || (notes@[i as int].pitch <= 127
                    && notes@[i as int].pitch % 12 == pc)) by {
                    lemma_pc_used_push(prefix, notes@[i as int], pc);
                }
            }
        }
        i = i + 1;
    }
    proof {
        assert(notes@.take(n as int) =~= notes@);
    }

    let last = &notes[n - 1];
    let last_pc: Option<u8> = if last.pitch <= 127 {
        Some(last.pitch % 12)
    } else {
        None
    };

    let ghost gnotes = notes@;
    let mut best_k: usize = 0;
    let mut best = candidate_score(&used, last_pc, 0, Ghost(gnotes));
    let mut k: usize = 1;
    while k < 24
        invariant
            1 <= k <= 24,
            best_k < k,
            gnotes == notes@,
            notes@.len() > 0,
            used@.len() == 12,
            forall|pc: int| 0 <= pc < 12 ==> #[trigger] used@[pc] == spec_pc_used(gnotes, pc),
            match last_pc {
                Some(lp) => spec_last_pc(gnotes) == Some(lp as int) && lp < 12,
                None => spec_last_pc(gnotes) is None,
            },
            ({
                let sc = spec_cand_score(gnotes, best_k as int);
                best.0 == sc.0 && best.1 == sc.1 && best.2 == sc.2 && best.3 as int == sc.3
            }),
            spec_detect_scan(gnotes, k as int, best_k as int) == spec_detect_scan(gnotes, 1, 0),
        decreases 24 - k,
    {
        let sc = candidate_score(&used, last_pc, k, Ghost(gnotes));
        if score_gt(sc, best) {
            best_k = k;
            best = sc;
        }
        k = k + 1;
    }

    let root: u8 = (best_k / 2) as u8;
    let minor: bool = best_k % 2 == 0;
    let st: ScaleType = if minor {
        ScaleType::NaturalMinor
    } else {
        ScaleType::Major
    };
    Some(Scale::new(PitchClass::new(root), st))
}

} // verus!


