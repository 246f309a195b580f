use mozart_core::note::parse_melody;
use mozart_core::pitch::{Pitch, PitchClass};
use mozart_core::scale::{Scale, ScaleType};
use mozart_core::transpose::{
    detect_scale, transpose_notes, transpose_pitch_chromatic, transpose_pitch_diatonic,
    TransposeMode,
};

#[test]
fn test_chromatic_transpose() {
    let c4 = Pitch::from_midi(60).unwrap();

    let e4 = transpose_pitch_chromatic(c4, 4).unwrap();
    assert_eq!(e4.pitch_class(), PitchClass::new(4));
    assert_eq!(e4.octave(), 4);

    let f3 = transpose_pitch_chromatic(c4, -7).unwrap();
    assert_eq!(f3.pitch_class(), PitchClass::new(5));
    assert_eq!(f3.octave(), 3);
}

#[test]
fn test_diatonic_transpose_within_scale() {
    let c_major = Scale::c_major();

    let c4 = Pitch::from_midi(60).unwrap();
    let result = transpose_pitch_diatonic(c4, &c_major, &c_major, 2).unwrap();
    assert_eq!(result.pitch_class(), PitchClass::new(4));
    assert_eq!(result.octave(), 4);

    let e4 = Pitch::new(PitchClass::new(4), 4).unwrap();
    let result = transpose_pitch_diatonic(e4, &c_major, &c_major, 2).unwrap();
    assert_eq!(result.pitch_class(), PitchClass::new(7));
    assert_eq!(result.octave(), 4);

    let g4 = Pitch::new(PitchClass::new(7), 4).unwrap();
    let result = transpose_pitch_diatonic(g4, &c_major, &c_major, 2).unwrap();
    assert_eq!(result.pitch_class(), PitchClass::new(11));
    assert_eq!(result.octave(), 4);

    let b4 = Pitch::new(PitchClass::new(11), 4).unwrap();
    let result = transpose_pitch_diatonic(b4, &c_major, &c_major, 2).unwrap();
    assert_eq!(result.pitch_class(), PitchClass::new(2));
    assert_eq!(result.octave(), 5);
}

#[test]
fn test_diatonic_transpose_down() {
    let c_major = Scale::c_major();

    let e4 = Pitch::new(PitchClass::new(4), 4).unwrap();
    let result = transpose_pitch_diatonic(e4, &c_major, &c_major, -2).unwrap();
    assert_eq!(result.pitch_class(), PitchClass::new(0));
    assert_eq!(result.octave(), 4);

    let c4 = Pitch::from_midi(60).unwrap();
    let result = transpose_pitch_diatonic(c4, &c_major, &c_major, -2).unwrap();
    assert_eq!(result.pitch_class(), PitchClass::new(9));
    assert_eq!(result.octave(), 3);
}

#[test]
fn test_diatonic_transpose_a_minor_octave_crossing() {
    let a_minor = Scale::a_minor();

    // A4 up a third in A minor must be C5, not C4: the regression for the
    // octave-boundary correction.
    let a4 = Pitch::new(PitchClass::new(9), 4).unwrap();
    assert_eq!(a4.midi(), 69);
    let result = transpose_pitch_diatonic(a4, &a_minor, &a_minor, 2).unwrap();
    assert_eq!(result.pitch_class(), PitchClass::new(0));
    assert_eq!(result.octave(), 5);
    assert_eq!(result.midi(), 72);

    let g4 = Pitch::new(PitchClass::new(7), 4).unwrap();
    let result = transpose_pitch_diatonic(g4, &a_minor, &a_minor, 2).unwrap();
    assert_eq!(result.pitch_class(), PitchClass::new(11));
    assert_eq!(result.octave(), 4);

    let c5 = Pitch::new(PitchClass::new(0), 5).unwrap();
    let result = transpose_pitch_diatonic(c5, &a_minor, &a_minor, -2).unwrap();
    assert_eq!(result.pitch_class(), PitchClass::new(9));
    assert_eq!(result.octave(), 4);
}

#[test]
fn test_diatonic_transpose_key_change() {
    let c_major = Scale::c_major();
    let g_major = Scale::new(PitchClass::new(7), ScaleType::Major);

    let c4 = Pitch::from_midi(60).unwrap();
    let result = transpose_pitch_diatonic(c4, &c_major, &g_major, 0).unwrap();
    assert_eq!(result.pitch_class(), PitchClass::new(7));

    let e4 = Pitch::new(PitchClass::new(4), 4).unwrap();
    let result = transpose_pitch_diatonic(e4, &c_major, &g_major, 2).unwrap();
    assert_eq!(result.pitch_class(), PitchClass::new(2));
}

#[test]
fn test_transpose_melody() {
    let melody = parse_melody("C4q D4q E4q").unwrap();
    let mode = TransposeMode::chromatic(2);

    let transposed = transpose_notes(&melody, &mode).unwrap();

    assert_eq!(transposed.len(), 3);
    assert_eq!(transposed[0].pitch, 62);
    assert_eq!(transposed[1].pitch, 64);
    assert_eq!(transposed[2].pitch, 66);
}

#[test]
fn test_transpose_melody_diatonic() {
    let melody = parse_melody("C4q E4q G4q").unwrap();
    let c_major = Scale::c_major();
    let mode = TransposeMode::diatonic(c_major, 2);

    let transposed = transpose_notes(&melody, &mode).unwrap();

    assert_eq!(transposed.len(), 3);
    assert_eq!(
        Pitch::from_midi(transposed[0].pitch).unwrap().pitch_class(),
        PitchClass::new(4)
    );
    assert_eq!(
        Pitch::from_midi(transposed[1].pitch).unwrap().pitch_class(),
        PitchClass::new(7)
    );
    assert_eq!(
        Pitch::from_midi(transposed[2].pitch).unwrap().pitch_class(),
        PitchClass::new(11)
    );
}

#[test]
fn test_detect_scale_c_major() {
    let melody = parse_melody("C4q D4q E4q F4q G4q A4q B4q").unwrap();
    let detected = detect_scale(&melody);

    assert!(detected.is_some());
    let scale = detected.unwrap();
    assert!(
        scale.root == PitchClass::new(0) || scale.root == PitchClass::new(9),
        "Expected C or A root"
    );
}

#[test]
fn test_transpose_mode_description() {
    let chromatic = TransposeMode::chromatic(4);
    assert!(chromatic.description().contains("major 3rd"));

    let diatonic = TransposeMode::diatonic(Scale::c_major(), 2);
    assert!(diatonic.description().contains("3rd"));
    assert!(diatonic.description().contains("C Major"));
}

#[test]
fn test_transpose_mode_description_cases() {
    assert_eq!(
        TransposeMode::chromatic(0).description(),
        "No transposition"
    );
    assert_eq!(
        TransposeMode::chromatic(-7).description(),
        "down a perfect 5th"
    );
    assert_eq!(
        TransposeMode::chromatic(14).description(),
        "up 14 semitones"
    );
    let key_change = TransposeMode::diatonic_with_key_change(
        Scale::c_major(),
        Scale::a_minor(),
        2,
    );
    assert_eq!(
        key_change.description(),
        "Diatonic up a 3rd from C Major to A Natural Minor"
    );
    let wide = TransposeMode::diatonic(Scale::c_major(), -9);
    assert_eq!(wide.description(), "down 9 degrees");
}

#[test]
fn test_diatonic_seven_degrees_is_an_octave() {
    // Diatonic transposition by seven degrees within one scale equals
    // chromatic transposition by a full octave, for in-scale pitches.
    let c_major = Scale::c_major();
    for midi in [60u8, 62, 64, 65, 67, 69, 71] {
        let p = Pitch::from_midi(midi).unwrap();
        let diatonic = transpose_pitch_diatonic(p, &c_major, &c_major, 7).unwrap();
        let chromatic = transpose_pitch_chromatic(p, 12).unwrap();
        assert_eq!(diatonic.midi(), chromatic.midi());
        assert_eq!(diatonic.midi(), midi + 12);
    }
}

#[test]
fn test_transpose_non_scale_tone_snaps() {
    // A non-scale tone is snapped to its nearest scale tone before the
    // move; the chromatic deviation is discarded.
    let c_major = Scale::c_major();
    let cs4 = Pitch::new(PitchClass::new(1), 4).unwrap();
    let result = transpose_pitch_diatonic(cs4, &c_major, &c_major, 1).unwrap();
    // C#4 snaps to C or D; one degree up from either lands on a scale
    // tone.
    assert!(c_major.contains(result.pitch_class()));
}

#[test]
fn test_transpose_batch_all_or_nothing() {
    // A9 is out of MIDI range already at parse time.
    let melody_err = parse_melody("C4q A9q").unwrap_err();
    assert!(matches!(melody_err, mozart_core::MozartError::InvalidPitch(_)));

    let high = vec![
        mozart_core::note::Note::new(60, 0, 480),
        mozart_core::note::Note::new(127, 480, 480),
    ];
    let mode = TransposeMode::chromatic(2);
    assert!(transpose_notes(&high, &mode).is_err());
}

#[test]
fn test_detect_scale_empty_and_minor_preference() {
    assert!(detect_scale(&[]).is_none());

    // An A-minor melody ending on its root detects as A natural minor.
    let melody = parse_melody("A4q B4q C5q D5q E5q F5q G5q A5q").unwrap();
    let scale = detect_scale(&melody).unwrap();
    assert_eq!(scale.root, PitchClass::new(9));
    assert_eq!(scale.scale_type, ScaleType::NaturalMinor);
}
