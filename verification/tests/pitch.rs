use mozart_core::pitch::{Pitch, PitchClass};

#[test]
fn test_pitch_class_parse() {
    assert_eq!(PitchClass::parse("C").unwrap(), PitchClass::new(0));
    assert_eq!(PitchClass::parse("c").unwrap(), PitchClass::new(0));
    assert_eq!(PitchClass::parse("C#").unwrap(), PitchClass::new(1));
    assert_eq!(PitchClass::parse("Db").unwrap(), PitchClass::new(1));
    assert_eq!(PitchClass::parse("F#").unwrap(), PitchClass::new(6));
    assert_eq!(PitchClass::parse("Bb").unwrap(), PitchClass::new(10));
}

#[test]
fn test_pitch_class_transpose() {
    assert_eq!(PitchClass::new(0).transpose(2), PitchClass::new(2));
    assert_eq!(PitchClass::new(0).transpose(12), PitchClass::new(0));
    assert_eq!(PitchClass::new(0).transpose(-1), PitchClass::new(11));
    assert_eq!(PitchClass::new(9).transpose(3), PitchClass::new(0));
}

#[test]
fn test_pitch_parse() {
    let c4 = Pitch::parse("C4").unwrap();
    assert_eq!(c4.midi(), 60);
    assert_eq!(c4.pitch_class(), PitchClass::new(0));
    assert_eq!(c4.octave(), 4);

    let fsharp5 = Pitch::parse("F#5").unwrap();
    assert_eq!(fsharp5.midi(), 78);

    let bb3 = Pitch::parse("Bb3").unwrap();
    assert_eq!(bb3.midi(), 58);
}

#[test]
fn test_pitch_transpose() {
    let c4 = Pitch::from_midi(60).unwrap();
    let d4 = c4.transpose(2).unwrap();
    assert_eq!(d4.midi(), 62);
    assert_eq!(d4.pitch_class(), PitchClass::new(2));
    assert_eq!(d4.octave(), 4);

    let c5 = c4.transpose(12).unwrap();
    assert_eq!(c5.midi(), 72);
    assert_eq!(c5.octave(), 5);
}

#[test]
fn test_pitch_class_transpose_round_trip_samples() {
    for pc in 0..12u8 {
        for n in [-127i8, -13, -1, 0, 1, 7, 12, 127] {
            let there = PitchClass::new(pc).transpose(n);
            let back = there.transpose(n.checked_neg().unwrap_or(127));
            if n != -128 {
                assert_eq!(back, PitchClass::new(pc));
            }
        }
    }
}

#[test]
fn test_pitch_class_unicode_accidentals() {
    assert_eq!(PitchClass::parse("C\u{266f}").unwrap(), PitchClass::new(1));
    assert_eq!(PitchClass::parse("E\u{266d}").unwrap(), PitchClass::new(3));
    assert_eq!(PitchClass::parse("Fs").unwrap(), PitchClass::new(6));
}

#[test]
fn test_pitch_errors() {
    assert!(matches!(
        PitchClass::parse("H"),
        Err(mozart_core::MozartError::InvalidPitch(_))
    ));
    assert!(matches!(
        Pitch::parse("C"),
        Err(mozart_core::MozartError::ParseError(_))
    ));
    assert!(matches!(
        Pitch::parse("C99"),
        Err(mozart_core::MozartError::InvalidPitch(_))
    ));
    assert!(matches!(
        Pitch::from_midi(128),
        Err(mozart_core::MozartError::InvalidPitch(_))
    ));
    let high = Pitch::from_midi(127).unwrap();
    assert!(matches!(
        high.transpose(1),
        Err(mozart_core::MozartError::TranspositionError(_))
    ));
}

#[test]
fn test_pitch_negative_octave() {
    let c_minus1 = Pitch::parse("C-1").unwrap();
    assert_eq!(c_minus1.midi(), 0);
    assert_eq!(c_minus1.octave(), -1);
}

#[test]
fn test_natural_names() {
    let names = [
        "C", "C#", "D", "Eb", "E", "F", "F#", "G", "Ab", "A", "Bb", "B",
    ];
    for (i, name) in names.iter().enumerate() {
        assert_eq!(PitchClass::new(i as u8).natural_name(), *name);
    }
}

#[test]
fn test_all_pitch_classes() {
    let all = PitchClass::all();
    assert_eq!(all.len(), 12);
    for (i, pc) in all.iter().enumerate() {
        assert_eq!(pc.semitones(), i as u8);
    }
}
