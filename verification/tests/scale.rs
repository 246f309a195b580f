use mozart_core::pitch::PitchClass;
use mozart_core::scale::{Scale, ScaleType};

#[test]
fn test_major_scale_intervals() {
    assert_eq!(ScaleType::Major.intervals(), [0, 2, 4, 5, 7, 9, 11]);
}

#[test]
fn test_c_major_pitch_classes() {
    let scale = Scale::c_major();
    let pcs = scale.pitch_classes();
    assert_eq!(pcs.len(), 7);
    assert_eq!(pcs[0], PitchClass::new(0));
    assert_eq!(pcs[1], PitchClass::new(2));
    assert_eq!(pcs[2], PitchClass::new(4));
    assert_eq!(pcs[3], PitchClass::new(5));
    assert_eq!(pcs[4], PitchClass::new(7));
    assert_eq!(pcs[5], PitchClass::new(9));
    assert_eq!(pcs[6], PitchClass::new(11));
}

#[test]
fn test_scale_contains() {
    let c_major = Scale::c_major();
    assert!(c_major.contains(PitchClass::new(0)));
    assert!(c_major.contains(PitchClass::new(7)));
    assert!(!c_major.contains(PitchClass::new(1)));
    assert!(!c_major.contains(PitchClass::new(6)));
}

#[test]
fn test_scale_degree() {
    let c_major = Scale::c_major();
    assert_eq!(c_major.degree_of(PitchClass::new(0)), Some(1));
    assert_eq!(c_major.degree_of(PitchClass::new(4)), Some(3));
    assert_eq!(c_major.degree_of(PitchClass::new(7)), Some(5));
    assert_eq!(c_major.degree_of(PitchClass::new(1)), None);
}

#[test]
fn test_nearest_scale_tone() {
    let c_major = Scale::c_major();

    // F# should go to F or G.
    let (nearest, adj) = c_major.nearest_scale_tone(PitchClass::new(6));
    assert!(nearest == PitchClass::new(5) || nearest == PitchClass::new(7));
    assert!(adj.abs() == 1);

    // C# should go to C or D.
    let (nearest, adj) = c_major.nearest_scale_tone(PitchClass::new(1));
    assert!(nearest == PitchClass::new(0) || nearest == PitchClass::new(2));
    assert!(adj.abs() == 1);
}

#[test]
fn test_nearest_scale_tone_in_scale() {
    let c_major = Scale::c_major();
    let (nearest, adj) = c_major.nearest_scale_tone(PitchClass::new(7));
    assert_eq!(nearest, PitchClass::new(7));
    assert_eq!(adj, 0);
}

#[test]
fn test_scale_parse() {
    let scale = Scale::parse("C major").unwrap();
    assert_eq!(scale.root, PitchClass::new(0));
    assert_eq!(scale.scale_type, ScaleType::Major);

    let scale = Scale::parse("F# minor").unwrap();
    assert_eq!(scale.root, PitchClass::new(6));
    assert_eq!(scale.scale_type, ScaleType::NaturalMinor);

    let scale = Scale::parse("Bb dorian").unwrap();
    assert_eq!(scale.root, PitchClass::new(10));
    assert_eq!(scale.scale_type, ScaleType::Dorian);
}

#[test]
fn test_scale_parse_defaults_to_major() {
    let scale = Scale::parse("G").unwrap();
    assert_eq!(scale.root, PitchClass::new(7));
    assert_eq!(scale.scale_type, ScaleType::Major);
}

#[test]
fn test_scale_parse_errors() {
    assert!(matches!(
        Scale::parse("X major"),
        Err(mozart_core::MozartError::InvalidPitch(_))
    ));
    assert!(matches!(
        Scale::parse("C nonsense"),
        Err(mozart_core::MozartError::InvalidScale(_))
    ));
    assert!(matches!(
        ScaleType::parse("blues"),
        Err(mozart_core::MozartError::InvalidScale(_))
    ));
}

#[test]
fn test_scale_type_names_and_all() {
    let all = ScaleType::all();
    assert_eq!(all.len(), 9);
    assert_eq!(all[0].name(), "Major");
    assert_eq!(all[1].name(), "Natural Minor");
    for st in all.iter() {
        // Every display name parses back to the same type.
        assert_eq!(ScaleType::parse(st.name()).unwrap(), *st);
    }
}

#[test]
fn test_all_scale_types_have_seven_intervals() {
    for st in ScaleType::all().iter() {
        let intervals = st.intervals();
        assert_eq!(intervals.len(), 7);
        assert_eq!(intervals[0], 0);
        for w in intervals.windows(2) {
            assert!(w[0] < w[1]);
        }
    }
}
