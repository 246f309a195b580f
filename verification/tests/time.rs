use mozart_core::time::{AccentLevel, AccentPattern, TimeSignature};

#[test]
fn test_time_signature_creation() {
    let ts = TimeSignature::new(4, 4).unwrap();
    assert_eq!(ts.numerator, 4);
    assert_eq!(ts.denominator, 4);
    assert_eq!(ts.accents.len(), 4);
}

#[test]
fn test_time_signature_validation() {
    assert!(TimeSignature::new(1, 4).is_err());
    assert!(TimeSignature::new(16, 4).is_err());
    assert!(TimeSignature::new(4, 3).is_err());
}

#[test]
fn test_ticks_per_measure() {
    let ts44 = TimeSignature::new(4, 4).unwrap();
    assert_eq!(ts44.ticks_per_measure(), 1920);

    let ts78 = TimeSignature::new(7, 8).unwrap();
    assert_eq!(ts78.ticks_per_measure(), 1680);
}

#[test]
fn test_beat_at_tick() {
    let ts = TimeSignature::new(4, 4).unwrap();
    assert_eq!(ts.beat_at_tick(0), 0);
    assert_eq!(ts.beat_at_tick(480), 1);
    assert_eq!(ts.beat_at_tick(960), 2);
    assert_eq!(ts.beat_at_tick(1440), 3);
    assert_eq!(ts.beat_at_tick(1920), 0);
}

#[test]
fn test_default_accents() {
    let ts = TimeSignature::common();
    assert_eq!(ts.accents.get(0), AccentLevel::Strong);
    assert_eq!(ts.accents.get(1), AccentLevel::Weak);
    assert_eq!(ts.accents.get(2), AccentLevel::Medium);
    assert_eq!(ts.accents.get(3), AccentLevel::Weak);
}

#[test]
fn test_accent_pattern_cycle() {
    let mut pattern = AccentPattern::default_for_beats(4);
    assert_eq!(pattern.get(1), AccentLevel::Weak);

    pattern.cycle(1);
    assert_eq!(pattern.get(1), AccentLevel::Medium);

    pattern.cycle(1);
    assert_eq!(pattern.get(1), AccentLevel::Strong);

    pattern.cycle(1);
    assert_eq!(pattern.get(1), AccentLevel::Weak);
}

#[test]
fn test_time_signature_parse() {
    let ts = TimeSignature::parse("7/8").unwrap();
    assert_eq!(ts.numerator, 7);
    assert_eq!(ts.denominator, 8);
}

#[test]
fn test_odd_meter_defaults() {
    let ts7 = TimeSignature::new(7, 8).unwrap();
    assert_eq!(ts7.accents.len(), 7);
    assert_eq!(ts7.accents.get(0), AccentLevel::Strong);

    let ts11 = TimeSignature::new(11, 8).unwrap();
    assert_eq!(ts11.accents.len(), 11);
    assert_eq!(ts11.accents.get(0), AccentLevel::Strong);
}

#[test]
fn test_time_signature_parse_errors() {
    assert!(matches!(
        TimeSignature::parse("44"),
        Err(mozart_core::MozartError::ParseError(_))
    ));
    assert!(matches!(
        TimeSignature::parse("a/4"),
        Err(mozart_core::MozartError::ParseError(_))
    ));
    assert!(matches!(
        TimeSignature::parse("4/4/4"),
        Err(mozart_core::MozartError::ParseError(_))
    ));
    assert!(matches!(
        TimeSignature::parse("1/4"),
        Err(mozart_core::MozartError::InvalidTimeSignature { .. })
    ));
}

#[test]
fn test_named_time_signatures() {
    assert_eq!(TimeSignature::waltz().numerator, 3);
    assert_eq!(TimeSignature::cut().denominator, 2);
    let cd = TimeSignature::compound_duple();
    assert_eq!((cd.numerator, cd.denominator), (6, 8));
    assert_eq!(cd.ticks_per_beat(), 240);
}

#[test]
fn test_accent_helpers() {
    let mut pattern = AccentPattern::from_values(&[3, 1, 2, 1]);
    assert_eq!(pattern.get(0), AccentLevel::Strong);
    assert_eq!(pattern.get(2), AccentLevel::Medium);
    // Out-of-range beats read as weak and stay untouched.
    assert_eq!(pattern.get(99), AccentLevel::Weak);
    pattern.set(99, AccentLevel::Strong);
    assert_eq!(pattern.len(), 4);
    pattern.set(1, AccentLevel::Strong);
    assert_eq!(pattern.get(1), AccentLevel::Strong);
    assert_eq!(pattern.to_visual(), ">>-.");
    assert!(!pattern.is_empty());
}

#[test]
fn test_set_accents_length_mismatch_ignored() {
    let mut ts = TimeSignature::common();
    let wrong = AccentPattern::from_values(&[3, 1]);
    ts.set_accents(wrong);
    assert_eq!(ts.accents.len(), 4);

    let right = AccentPattern::from_values(&[3, 3, 3, 3]);
    ts.set_accents(right);
    assert_eq!(ts.accents.get(1), AccentLevel::Strong);
}

#[test]
fn test_with_accents_length_mismatch_uses_default() {
    let wrong = AccentPattern::from_values(&[3, 1]);
    let ts = TimeSignature::with_accents(4, 4, wrong).unwrap();
    assert_eq!(ts.accents.len(), 4);
    assert_eq!(ts.accents.get(2), AccentLevel::Medium);
}

#[test]
fn test_accent_and_beat_queries() {
    let ts = TimeSignature::common();
    assert_eq!(ts.accent_at_tick(0), AccentLevel::Strong);
    assert_eq!(ts.accent_at_tick(960), AccentLevel::Medium);
    assert!(ts.is_on_beat(480));
    assert!(!ts.is_on_beat(481));
    assert!(ts.is_downbeat(1920));
    assert!(!ts.is_downbeat(480));
}

#[test]
fn test_groupings() {
    let g = mozart_core::groupings::five_three_two();
    assert_eq!(g.len(), 5);
    assert_eq!(g.get(0), AccentLevel::Strong);
    assert_eq!(g.get(3), AccentLevel::Medium);
    assert_eq!(mozart_core::groupings::seven_two_three_two().len(), 7);
    assert_eq!(
        mozart_core::groupings::eleven_three_three_three_two().len(),
        11
    );
    assert_eq!(
        mozart_core::groupings::eleven_three_three_two_three().len(),
        11
    );
    assert_eq!(
        mozart_core::groupings::eleven_three_two_three_three().len(),
        11
    );
    assert_eq!(
        mozart_core::groupings::eleven_two_three_three_three().len(),
        11
    );
    assert_eq!(mozart_core::groupings::five_two_three().len(), 5);
    assert_eq!(mozart_core::groupings::seven_three_two_two().len(), 7);
    assert_eq!(mozart_core::groupings::seven_two_two_three().len(), 7);
}
