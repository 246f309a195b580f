use mozart_core::midi::{export_to_midi, MidiExporter};
use mozart_core::note::Note;
use mozart_core::song::Song;

#[test]
fn test_midi_export_basic() {
    let mut song = Song::with_title("MIDI Test");
    song.add_note(Note::new(60, 0, 480));
    song.add_note(Note::new(64, 480, 480));

    let midi = export_to_midi(&song).unwrap();

    // Check the header.
    assert_eq!(&midi[0..4], b"MThd");
    assert_eq!(&midi[8..10], &[0, 0]);
    assert_eq!(&midi[10..12], &[0, 1]);

    // Check that the track header exists.
    let track_start = 14;
    assert_eq!(&midi[track_start..track_start + 4], b"MTrk");
}

#[test]
fn test_var_length_encoding() {
    let exporter = MidiExporter::new();

    let mut data = Vec::new();
    exporter.write_var_length(&mut data, 0);
    assert_eq!(data, vec![0]);

    data.clear();
    exporter.write_var_length(&mut data, 127);
    assert_eq!(data, vec![127]);

    data.clear();
    exporter.write_var_length(&mut data, 128);
    assert_eq!(data, vec![0x81, 0x00]);

    data.clear();
    exporter.write_var_length(&mut data, 480);
    assert_eq!(data, vec![0x83, 0x60]);
}

#[test]
fn test_midi_export_multiple_notes() {
    let mut song = Song::new();
    for (i, pitch) in [60, 62, 64, 65, 67, 69, 71, 72].iter().enumerate() {
        song.add_note(Note::new(*pitch, i as u32 * 480, 480));
    }

    let midi = export_to_midi(&song).unwrap();

    assert!(midi.len() > 100);
    assert_eq!(&midi[0..4], b"MThd");
}

#[test]
fn test_midi_track_length_matches_body() {
    let mut song = Song::with_title("Two Notes");
    song.add_note(Note::new(60, 0, 480));
    song.add_note(Note::new(64, 480, 480));

    let midi = export_to_midi(&song).unwrap();
    assert_eq!(&midi[14..18], b"MTrk");
    let len = u32::from_be_bytes([midi[18], midi[19], midi[20], midi[21]]) as usize;
    assert_eq!(midi.len(), 22 + len);
    // Division: 480 ticks per quarter note.
    assert_eq!(&midi[12..14], &[0x01, 0xE0]);
    // The track body ends with the end-of-track meta event.
    assert_eq!(&midi[midi.len() - 3..], &[0xFF, 0x2F, 0x00]);
}

#[test]
fn test_midi_event_stream_order() {
    // Two back-to-back notes: at the shared boundary the note-off comes
    // before the next note-on.
    let mut song = Song::new();
    song.metadata.title = String::new();
    song.add_note(Note::new(60, 0, 480));
    song.add_note(Note::new(64, 480, 480));

    let midi = export_to_midi(&song).unwrap();
    // Find the first note-on (0x90) in the track body.
    let body = &midi[22..];
    let first_on = body.iter().position(|&b| b == 0x90).unwrap();
    // delta 0, note on 60 at velocity 100.
    assert_eq!(&body[first_on..first_on + 3], &[0x90, 60, 100]);
    // Next: delta 480 (0x83 0x60), note off 60, then delta 0, note on 64.
    assert_eq!(
        &body[first_on + 3..first_on + 12],
        &[0x83, 0x60, 0x80, 60, 0, 0x00, 0x90, 64, 100]
    );
}

#[test]
fn test_midi_tempo_and_meta_events() {
    let mut song = Song::new();
    song.metadata.title = "T".to_string();
    song.set_tempo(120);

    let midi = export_to_midi(&song).unwrap();
    let body = &midi[22..];
    // Tempo meta: delta 0, FF 51 03, then 500000 microseconds (0x07A120).
    assert_eq!(&body[0..7], &[0x00, 0xFF, 0x51, 0x03, 0x07, 0xA1, 0x20]);
    // Time signature meta: delta 0, FF 58 04, 4/4 as numerator 4 and
    // denominator exponent 2, 24 clocks per click, 8 thirty-seconds.
    assert_eq!(&body[7..15], &[0x00, 0xFF, 0x58, 0x04, 4, 2, 24, 8]);
    // Key signature meta: delta 0, FF 59 02, C major.
    assert_eq!(&body[15..20], &[0x00, 0xFF, 0x59, 0x02, 0]);
    assert_eq!(body[20], 0);
    // Track name meta: delta 0, FF 03, length 1, 'T'.
    assert_eq!(&body[21..26], &[0x00, 0xFF, 0x03, 1, b'T']);
}

#[test]
fn test_midi_key_signature_modes() {
    let mut song = Song::new();
    song.metadata.title = String::new();
    song.set_key(mozart_core::scale::Scale::a_minor());
    let midi = export_to_midi(&song).unwrap();
    let body = &midi[22..];
    // The key byte follows the root alone (A sits at three sharps on the
    // circle of fifths); the mode byte marks minor.
    assert_eq!(&body[15..21], &[0x00, 0xFF, 0x59, 0x02, 3, 1]);

    let mut song_f = Song::new();
    song_f.metadata.title = String::new();
    song_f.set_key(mozart_core::scale::Scale::parse("F major").unwrap());
    let midi_f = export_to_midi(&song_f).unwrap();
    let body_f = &midi_f[22..];
    // F major: one flat, stored as -1 in two's complement.
    assert_eq!(&body_f[15..21], &[0x00, 0xFF, 0x59, 0x02, 0xFF, 0]);
}
