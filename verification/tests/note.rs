use mozart_core::note::{format_melody, parse_melody, Note, NoteDuration, NoteValue};

#[test]
fn test_note_value_ticks() {
    assert_eq!(NoteValue::Whole.ticks(), 1920);
    assert_eq!(NoteValue::Half.ticks(), 960);
    assert_eq!(NoteValue::Quarter.ticks(), 480);
    assert_eq!(NoteValue::Eighth.ticks(), 240);
    assert_eq!(NoteValue::Sixteenth.ticks(), 120);
}

#[test]
fn test_dotted_duration() {
    let dotted_half = NoteDuration::dotted(NoteValue::Half);
    assert_eq!(dotted_half.ticks(), 1440);

    let dotted_quarter = NoteDuration::dotted(NoteValue::Quarter);
    assert_eq!(dotted_quarter.ticks(), 720);
}

#[test]
fn test_note_parse() {
    let note = Note::parse("C4q", 0).unwrap();
    assert_eq!(note.pitch, 60);
    assert_eq!(note.duration_ticks, 480);

    let note = Note::parse("F#5h", 0).unwrap();
    assert_eq!(note.pitch, 78);
    assert_eq!(note.duration_ticks, 960);

    let note = Note::parse("Bb3q.", 0).unwrap();
    assert_eq!(note.pitch, 58);
    assert_eq!(note.duration_ticks, 720);
}

#[test]
fn test_parse_melody() {
    let melody = parse_melody("C4q D4q E4q").unwrap();
    assert_eq!(melody.len(), 3);
    assert_eq!(melody[0].pitch, 60);
    assert_eq!(melody[0].start_tick, 0);
    assert_eq!(melody[1].pitch, 62);
    assert_eq!(melody[1].start_tick, 480);
    assert_eq!(melody[2].pitch, 64);
    assert_eq!(melody[2].start_tick, 960);
}

#[test]
fn test_parse_melody_with_rests() {
    let melody = parse_melody("C4q Rq E4q").unwrap();
    assert_eq!(melody.len(), 2);
    assert_eq!(melody[0].pitch, 60);
    assert_eq!(melody[0].start_tick, 0);
    assert_eq!(melody[1].pitch, 64);
    assert_eq!(melody[1].start_tick, 960);
}

#[test]
fn test_parse_melody_defaults_and_failure() {
    // A bare pitch is a quarter note; a bare rest is a quarter rest.
    let melody = parse_melody("C4 R D4").unwrap();
    assert_eq!(melody.len(), 2);
    assert_eq!(melody[1].start_tick, 960);

    // One malformed token fails the whole melody.
    assert!(parse_melody("C4q X9q E4q").is_err());
    assert!(matches!(
        parse_melody("C4z"),
        Err(mozart_core::MozartError::InvalidDuration(_))
    ));

    // The empty melody parses to no notes.
    assert_eq!(parse_melody("").unwrap().len(), 0);
    assert_eq!(parse_melody("   ").unwrap().len(), 0);
}

#[test]
fn test_format_melody() {
    let melody = parse_melody("C4q D4h. E4s").unwrap();
    assert_eq!(format_melody(&melody), "C4q D4h. E4s");
}

#[test]
fn test_format_melody_drops_rests() {
    // Rests are implicit gaps: they are not reproduced, but the notes'
    // tick positions survive a second parse.
    let melody = parse_melody("C4q Rq E4q").unwrap();
    let text = format_melody(&melody);
    assert_eq!(text, "C4q E4q");
    let again = parse_melody(&text).unwrap();
    assert_eq!(again[0].pitch, melody[0].pitch);
    assert_eq!(again[1].pitch, melody[1].pitch);
}

#[test]
fn test_duration_from_ticks() {
    assert_eq!(
        NoteDuration::from_ticks(480),
        NoteDuration::new(NoteValue::Quarter)
    );
    assert_eq!(
        NoteDuration::from_ticks(720),
        NoteDuration::dotted(NoteValue::Quarter)
    );
    assert_eq!(
        NoteDuration::from_ticks(1920),
        NoteDuration::new(NoteValue::Whole)
    );
    // Far past every candidate, the dotted whole note is the closest.
    assert_eq!(
        NoteDuration::from_ticks(100000),
        NoteDuration::dotted(NoteValue::Whole)
    );
    // An exact dotted value is found.
    assert_eq!(
        NoteDuration::from_ticks(180),
        NoteDuration::dotted(NoteValue::Sixteenth)
    );
    // Ties keep the candidate found first in scan order: 600 is as close
    // to a quarter as to a dotted quarter, and the quarter is scanned
    // first.
    assert_eq!(
        NoteDuration::from_ticks(600),
        NoteDuration::new(NoteValue::Quarter)
    );
}

#[test]
fn test_note_constructors() {
    let n = Note::new(60, 0, 480);
    assert_eq!(n.velocity, 100);
    assert_eq!(n.voice, 0);
    assert_eq!(n.end_tick(), 480);

    let clamped = Note::with_velocity(60, 0, 480, 200);
    assert_eq!(clamped.velocity, 127);

    let voiced = Note::with_voice(62, 480, 240, 90, 2);
    assert_eq!(voiced.voice, 2);
    assert_eq!(voiced.velocity, 90);

    assert_eq!(n.to_text(), "C4q");
}

#[test]
fn test_note_value_parse() {
    assert_eq!(NoteValue::parse("w").unwrap(), NoteValue::Whole);
    assert_eq!(NoteValue::parse("HALF").unwrap(), NoteValue::Half);
    assert_eq!(NoteValue::parse("16").unwrap(), NoteValue::Sixteenth);
    assert!(matches!(
        NoteValue::parse("x"),
        Err(mozart_core::MozartError::InvalidDuration(_))
    ));
}
