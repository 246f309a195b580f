use mozart_core::note::{Note, NoteDuration, NoteValue};
use mozart_core::pitch::{Pitch, PitchClass};
use mozart_core::scale::Scale;
use mozart_core::song::Song;
use mozart_core::time::TimeSignature;

#[test]
fn test_song_creation() {
    let song = Song::new();
    assert_eq!(song.version, "1.0");
    assert_eq!(song.metadata.title, "Untitled");
    assert_eq!(song.settings.tempo, 120);
    assert!(song.notes.is_empty());
}

#[test]
fn test_song_with_notes() {
    let mut song = Song::with_title("Test Song");

    let c4 = Note::from_pitch(
        Pitch::new(PitchClass::new(0), 4).unwrap(),
        0,
        NoteDuration::new(NoteValue::Quarter),
    );
    let e4 = Note::from_pitch(
        Pitch::new(PitchClass::new(4), 4).unwrap(),
        480,
        NoteDuration::new(NoteValue::Quarter),
    );

    song.add_note(c4);
    song.add_note(e4);

    assert_eq!(song.notes.len(), 2);
    assert_eq!(song.duration_ticks(), 960);
}

#[test]
fn test_song_serialization() {
    let mut song = Song::with_title("Serialization Test");
    song.add_note(Note::new(60, 0, 480));
    song.add_note(Note::new(64, 480, 480));

    let json = song.to_json().unwrap();
    let loaded = Song::from_json(&json).unwrap();

    assert_eq!(loaded.metadata.title, song.metadata.title);
    assert_eq!(loaded.notes.len(), 2);
    assert_eq!(loaded.notes[0].pitch, 60);
    assert_eq!(loaded.notes[1].pitch, 64);
}

#[test]
fn test_song_duration() {
    let mut song = Song::new();
    song.add_note(Note::new(60, 0, 480));
    song.add_note(Note::new(62, 480, 960));

    assert_eq!(song.duration_ticks(), 1440);

    // 1440 ticks are three quarter notes: 1.5 seconds at 120 BPM.
    let beats = song.duration_ticks() as f64 / 480.0;
    let duration = beats * 60.0 / song.settings.tempo as f64;
    assert!((duration - 1.5).abs() < 0.001);
}

#[test]
fn test_measure_count() {
    let mut song = Song::new();
    let ticks_per_measure = song.settings.time_signature.ticks_per_measure();
    song.add_note(Note::new(60, 0, ticks_per_measure * 2));

    assert_eq!(song.measure_count(), 2);
}

#[test]
fn test_song_mutations() {
    let mut song = Song::new();
    song.set_tempo(10);
    assert_eq!(song.settings.tempo, 20);
    song.set_tempo(400);
    assert_eq!(song.settings.tempo, 300);
    song.set_tempo(140);
    assert_eq!(song.settings.tempo, 140);

    song.set_time_signature(TimeSignature::waltz());
    assert_eq!(song.settings.time_signature.numerator, 3);

    song.set_key(Scale::a_minor());
    assert_eq!(song.settings.key.root, PitchClass::new(9));

    // Notes are kept sorted ascending by start tick after every mutation.
    song.add_note(Note::new(64, 960, 480));
    song.add_note(Note::new(60, 0, 480));
    song.add_note(Note::new(62, 480, 480));
    assert_eq!(song.notes[0].start_tick, 0);
    assert_eq!(song.notes[1].start_tick, 480);
    assert_eq!(song.notes[2].start_tick, 960);

    let removed = song.remove_note(1).unwrap();
    assert_eq!(removed.pitch, 62);
    assert_eq!(song.notes.len(), 2);
    assert!(song.remove_note(99).is_none());

    song.clear_notes();
    assert!(song.notes.is_empty());
    assert_eq!(song.duration_ticks(), 0);
}

#[test]
fn test_add_notes_stable_sort() {
    let mut song = Song::new();
    song.add_notes(vec![
        Note::with_voice(64, 480, 480, 100, 1),
        Note::with_voice(60, 0, 480, 100, 0),
        Note::with_voice(62, 480, 480, 100, 2),
    ]);
    assert_eq!(song.notes.len(), 3);
    assert_eq!(song.notes[0].start_tick, 0);
    // Two notes at the same start tick keep their insertion order.
    assert_eq!(song.notes[1].voice, 1);
    assert_eq!(song.notes[2].voice, 2);
}

#[test]
fn test_json_round_trip_full() {
    let mut song = Song::with_title("Round Trip");
    song.metadata.composer = "Anon".to_string();
    song.set_tempo(90);
    song.set_time_signature(TimeSignature::new(7, 8).unwrap());
    song.set_key(Scale::parse("F# dorian").unwrap());
    song.add_note(Note::with_voice(66, 0, 240, 90, 0));
    song.add_note(Note::with_voice(69, 240, 720, 110, 1));

    let json = song.to_json().unwrap();
    let loaded = Song::from_json(&json).unwrap();

    // Metadata, settings and notes all survive the round trip.
    assert_eq!(loaded.version, song.version);
    assert_eq!(loaded.metadata.title, song.metadata.title);
    assert_eq!(loaded.metadata.composer, song.metadata.composer);
    assert_eq!(loaded.metadata.created, song.metadata.created);
    assert_eq!(loaded.metadata.modified, song.metadata.modified);
    assert_eq!(loaded.settings.tempo, song.settings.tempo);
    assert_eq!(
        loaded.settings.time_signature.numerator,
        song.settings.time_signature.numerator
    );
    assert_eq!(
        loaded.settings.time_signature.denominator,
        song.settings.time_signature.denominator
    );
    assert_eq!(
        loaded.settings.time_signature.accents.accents,
        song.settings.time_signature.accents.accents
    );
    assert_eq!(loaded.settings.key.root, song.settings.key.root);
    assert_eq!(loaded.settings.key.scale_type, song.settings.key.scale_type);
    assert_eq!(loaded.notes, song.notes);

    // And what was loaded saves back to the identical text.
    let json2 = loaded.to_json().unwrap();
    assert_eq!(json2, json);
}

#[test]
fn test_json_escaping_round_trip() {
    let mut song = Song::with_title("He said \"hi\" \\ bye\n");
    song.add_note(Note::new(60, 0, 480));
    let json = song.to_json().unwrap();
    let loaded = Song::from_json(&json).unwrap();
    assert_eq!(loaded.metadata.title, song.metadata.title);
}

#[test]
fn test_json_rejects_garbage() {
    assert!(matches!(
        Song::from_json("not a score"),
        Err(mozart_core::MozartError::SerializationError(_))
    ));
    assert!(matches!(
        Song::from_json(""),
        Err(mozart_core::MozartError::SerializationError(_))
    ));
}

#[test]
fn test_json_accepts_whitespace_and_missing_voice() {
    // A pretty-printed score text per the persisted format: insignificant
    // whitespace between tokens, and a note without the optional voice
    // field, which defaults to the main voice.
    let lines: Vec<&str> = vec![
        "{",
        "  \"version\": \"1.0\",",
        "  \"metadata\": {",
        "    \"title\": \"Spaced Out\",",
        "    \"composer\": \"\",",
        "    \"created\": \"0Z\",",
        "    \"modified\": \"0Z\"",
        "  },",
        "  \"settings\": {",
        "    \"tempo\": 96,",
        "    \"time_signature\": {",
        "      \"numerator\": 3,",
        "      \"denominator\": 4,",
        "      \"accents\": [",
        "        3,",
        "        1,",
        "        1",
        "      ]",
        "    },",
        "    \"key\": {",
        "      \"root\": 7,",
        "      \"scale_type\": \"Major\"",
        "    }",
        "  },",
        "  \"notes\": [",
        "    {",
        "      \"pitch\": 67,",
        "      \"start_tick\": 0,",
        "      \"duration_ticks\": 480,",
        "      \"velocity\": 100,",
        "      \"voice\": 0",
        "    },",
        "    {",
        "      \"pitch\": 71,",
        "      \"start_tick\": 480,",
        "      \"duration_ticks\": 240,",
        "      \"velocity\": 90",
        "    }",
        "  ]",
        "}",
    ];
    let text_owned = lines.join("\n");
    let text = text_owned.as_str();

    let song = Song::from_json(text).unwrap();
    assert_eq!(song.metadata.title, "Spaced Out");
    assert_eq!(song.settings.tempo, 96);
    assert_eq!(song.settings.time_signature.numerator, 3);
    assert_eq!(song.settings.time_signature.accents.len(), 3);
    assert_eq!(song.settings.key.root, PitchClass::new(7));
    assert_eq!(song.notes.len(), 2);
    assert_eq!(song.notes[0].pitch, 67);
    // The elided voice reads as the main voice.
    assert_eq!(song.notes[1].voice, 0);
    assert_eq!(song.notes[1].velocity, 90);

    // What was loaded saves back canonically and loads again unchanged.
    let canonical = song.to_json().unwrap();
    let again = Song::from_json(&canonical).unwrap();
    assert_eq!(again.notes, song.notes);
    assert_eq!(again.settings.tempo, song.settings.tempo);
}

#[test]
fn test_json_empty_collections_round_trip() {
    // An empty notes list survives the round trip (the accents list of a
    // valid time signature is never empty, but the notes may be).
    let song = Song::with_title("Empty");
    let json = song.to_json().unwrap();
    let loaded = Song::from_json(&json).unwrap();
    assert!(loaded.notes.is_empty());
    assert_eq!(loaded.to_json().unwrap(), json);
}

#[test]
fn test_song_created_equals_modified_at_birth() {
    let song = Song::new();
    assert_eq!(song.metadata.created, song.metadata.modified);
    let titled = Song::with_title("T");
    assert_eq!(titled.metadata.created, titled.metadata.modified);
}
