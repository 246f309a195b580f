//! MIDI export.
//!
//! Serializes a song to Standard MIDI File (SMF) format 0 bytes: one header
//! chunk and one track chunk holding tempo, time-signature, key-signature
//! and track-name meta events, the note on/off stream sorted by tick, and
//! an end-of-track meta event. All multi-byte numbers are big-endian, and
//! delta times use the variable-length quantity (VLQ) encoding.

use vstd::prelude::*;
use crate::error::MozartError;
use crate::note::Note;
use crate::scale::{Scale, ScaleType};
use crate::song::Song;

verus! {

/// The continuation bytes of a VLQ: 7-bit big-endian groups, each with the
/// high bit set.
pub open spec fn spec_vlq_cont(v: int) -> Seq<u8>
    decreases v,
{
    if v < 128 {
        seq![(v + 128) as u8]
    } else {
        spec_vlq_cont(v / 128) + seq![(v % 128 + 128) as u8]
    }
}

/// The variable-length-quantity encoding of a value: 7-bit big-endian
/// groups, the high bit set on every byte but the last; zero encodes as a
/// single zero byte.
pub open spec fn spec_vlq(v: int) -> Seq<u8> {
    if v < 128 {
        seq![v as u8]
    } else {
        spec_vlq_cont(v / 128) + seq![(v % 128) as u8]
    }
}

/// How long a VLQ encoding is, for values up to 32 bits.
proof fn lemma_vlq_cont_len(v: int)
    requires
        0 <= v,
    ensures
        v < 128 ==> spec_vlq_cont(v).len() == 1,
        v < 0x4000 ==> spec_vlq_cont(v).len() <= 2,
        v < 0x200000 ==> spec_vlq_cont(v).len() <= 3,
        v < 0x10000000 ==> spec_vlq_cont(v).len() <= 4,
        v < 0x800000000 ==> spec_vlq_cont(v).len() <= 5,
    decreases v,
{
    if v >= 128 {
        lemma_vlq_cont_len(v / 128);
    }
}

/// A VLQ of a 32-bit value takes one to five bytes.
pub proof fn lemma_vlq_len(v: int)
    requires
        0 <= v <= u32::MAX,
    ensures
        1 <= spec_vlq(v).len() <= 5,
{
    if v >= 128 {
        lemma_vlq_cont_len(v / 128);
    }
}

/// Append the continuation bytes of a VLQ.
fn push_vlq_cont(data: &mut Vec<u8>, v: u32)
    ensures
        final(data)@ == old(data)@ + spec_vlq_cont(v as int),
    decreases v,
{
    if v < 128 {
        data.push((v + 128) as u8);
    } else {
        push_vlq_cont(data, v / 128);
        data.push((v % 128 + 128) as u8);
    }
}

/// Append the VLQ encoding of a value.
fn push_vlq(data: &mut Vec<u8>, v: u32)
    ensures
        final(data)@ == old(data)@ + spec_vlq(v as int),
{
    if v < 128 {
        data.push(v as u8);
    } else {
        push_vlq_cont(data, v / 128);
        data.push((v % 128) as u8);
        proof {
            assert(final(data)@ =~= old(data)@ + spec_vlq(v as int));
        }
    }
}

/// Big-endian bytes of a 16-bit value.
pub open spec fn spec_u16_be(v: int) -> Seq<u8> {
    seq![(v / 256 % 256) as u8, (v % 256) as u8]
}

/// Big-endian bytes of a 32-bit value.
pub open spec fn spec_u32_be(v: int) -> Seq<u8> {
    seq![
        (v / 0x1000000 % 256) as u8,
        (v / 0x10000 % 256) as u8,
        (v / 256 % 256) as u8,
        (v % 256) as u8,
    ]
}

/// Append a 16-bit value big-endian.
fn push_u16_be(data: &mut Vec<u8>, v: u16)
    ensures
        final(data)@ == old(data)@ + spec_u16_be(v as int),
{
    data.push((v / 256) as u8);
    data.push((v % 256) as u8);
    proof {
        assert(final(data)@ =~= old(data)@ + spec_u16_be(v as int));
    }
}

/// Append a 32-bit value big-endian.
fn push_u32_be(data: &mut Vec<u8>, v: u32)
    ensures
        final(data)@ == old(data)@ + spec_u32_be(v as int),
{
    data.push((v / 0x1000000 % 256) as u8);
    data.push((v / 0x10000 % 256) as u8);
    data.push((v / 256 % 256) as u8);
    data.push((v % 256) as u8);
    proof {
        assert(final(data)@ =~= old(data)@ + spec_u32_be(v as int));
    }
}

/// One entry of the note on/off stream.
#[derive(Debug, Clone, Copy, PartialEq, Eq, Structural)]
pub struct NoteEvent {
    /// Absolute tick of the event.
    pub tick: u32,
    /// True for note-on, false for note-off.
    pub is_on: bool,
    /// MIDI pitch byte.
    pub pitch: u8,
    /// Velocity byte (zero for note-off).
    pub velocity: u8,
}

/// Sort key of an event: ascending tick, and note-off before note-on at
/// the same tick (prevents spurious overlap at shared boundaries).
pub open spec fn spec_event_key(e: NoteEvent) -> int {
    e.tick * 2 + if e.is_on {
        1int
    } else {
        0int
    }
}

/// The raw event stream of a note list: a note-on at each note's start
/// and a note-off at its end, note by note.
pub open spec fn spec_note_events(notes: Seq<Note>) -> Seq<NoteEvent>
    decreases notes.len(),
{
    if notes.len() == 0 {
        Seq::empty()
    } else {
        let n = notes.last();
        spec_note_events(notes.drop_last()) + seq![
            NoteEvent { tick: n.start_tick, is_on: true, pitch: n.pitch, velocity: n.velocity },
            NoteEvent {
                tick: (n.start_tick + n.duration_ticks) as u32,
                is_on: false,
                pitch: n.pitch,
                velocity: 0,
            },
        ]
    }
}

/// Where an event lands when inserted into an already sorted stream:
/// after every event whose key is at or below its own (stable insertion).
pub open spec fn spec_insert_event(s: Seq<NoteEvent>, e: NoteEvent) -> Seq<NoteEvent>
    decreases s.len(),
{
    if s.len() == 0 {
        seq![e]
    } else if spec_event_key(s[0]) <= spec_event_key(e) {
        seq![s[0]] + spec_insert_event(s.drop_first(), e)
    } else {
        seq![e] + s
    }
}

/// The event stream sorted by key (stable).
pub open spec fn spec_sort_events(s: Seq<NoteEvent>) -> Seq<NoteEvent>
    decreases s.len(),
{
    if s.len() == 0 {
        Seq::empty()
    } else {
        spec_insert_event(spec_sort_events(s.drop_last()), s.last())
    }
}

/// Inserting grows a stream by exactly one event.
proof fn lemma_insert_event_len(s: Seq<NoteEvent>, e: NoteEvent)
    ensures
        spec_insert_event(s, e).len() == s.len() + 1,
    decreases s.len(),
{
    if s.len() > 0 && spec_event_key(s[0]) <= spec_event_key(e) {
        lemma_insert_event_len(s.drop_first(), e);
    }
}

/// Sorting keeps the stream's length.
proof fn lemma_sort_events_len(s: Seq<NoteEvent>)
    ensures
        spec_sort_events(s).len() == s.len(),
    decreases s.len(),
{
    if s.len() > 0 {
        lemma_sort_events_len(s.drop_last());
        lemma_insert_event_len(spec_sort_events(s.drop_last()), s.last());
    }
}

/// The bytes of an event stream: each event is its delta time (ticks
/// since the previous event, never negative) as a VLQ, then a note-on
/// (0x90, pitch, velocity) or note-off (0x80, pitch, 0) on channel 0.
pub open spec fn spec_event_bytes(evs: Seq<NoteEvent>, prev: int) -> Seq<u8>
    decreases evs.len(),
{
    if evs.len() == 0 {
        Seq::empty()
    } else {
        let e = evs[0];
        let delta: int = if e.tick >= prev {
            e.tick - prev
        } else {
            0
        };
        spec_vlq(delta) + (if e.is_on {
            seq![0x90u8, e.pitch, e.velocity]
        } else {
            seq![0x80u8, e.pitch, 0u8]
        }) + spec_event_bytes(evs.drop_first(), e.tick as int)
    }
}

/// An event stream's bytes take at most eight bytes per event.
proof fn lemma_event_bytes_len(evs: Seq<NoteEvent>, prev: int)
    requires
        0 <= prev,
    ensures
        spec_event_bytes(evs, prev).len() <= 8 * evs.len(),
    decreases evs.len(),
{
    if evs.len() > 0 {
        let e = evs[0];
        let delta: int = if e.tick >= prev {
            e.tick - prev
        } else {
            0
        };
        lemma_vlq_len(delta);
        lemma_event_bytes_len(evs.drop_first(), e.tick as int);
    }
}

/// Microseconds per quarter note for a tempo, as the three bytes of the
/// tempo meta event.
pub open spec fn spec_tempo_bytes(tempo: int) -> Seq<u8> {
    let us = 60000000int / tempo;
    seq![(us / 0x10000 % 256) as u8, (us / 256 % 256) as u8, (us % 256) as u8]
}

/// The beat unit as a power-of-two exponent (2 -> 1, 4 -> 2, 8 -> 3,
/// 16 -> 4, anything else read as a quarter note).
pub open spec fn spec_denominator_power(denominator: u8) -> u8 {
    if denominator == 2 {
        1u8
    } else if denominator == 4 {
        2u8
    } else if denominator == 8 {
        3u8
    } else if denominator == 16 {
        4u8
    } else {
        2u8
    }
}

/// The key-signature byte for a root: its position on the circle of
/// fifths, as a signed count of sharps (positive) or flats (negative) in
/// two's complement; roots without a named signature read as C.
pub open spec fn spec_key_byte(root: int) -> u8 {
    if root == 0 {
        0u8
    } else if root == 7 {
        1u8
    } else if root == 2 {
        2u8
    } else if root == 9 {
        3u8
    } else if root == 4 {
        4u8
    } else if root == 11 {
        5u8
    } else if root == 6 {
        6u8
    } else if root == 1 {
        7u8
    } else if root == 5 {
        255u8
    } else if root == 10 {
        254u8
    } else if root == 3 {
        253u8
    } else if root == 8 {
        252u8
    } else {
        0u8
    }
}

/// The key-signature mode byte: 0 for major, 1 for everything else.
pub open spec fn spec_mode_byte(st: ScaleType) -> u8 {
    if st is Major {
        0u8
    } else {
        1u8
    }
}

/// The body of the single track chunk: tempo, time-signature,
/// key-signature and track-name meta events at time zero, the sorted note
/// on/off stream with running delta times, and the end-of-track meta
/// event.
pub open spec fn spec_track_body(song: Song) -> Seq<u8> {
    let ts = song.settings.time_signature;
    let title = vstd::utf8::encode_utf8(song.metadata.title@);
    spec_vlq(0) + seq![0xFFu8, 0x51u8, 0x03u8] + spec_tempo_bytes(song.settings.tempo as int)
        + spec_vlq(0) + seq![
        0xFFu8,
        0x58u8,
        0x04u8,
        ts.numerator,
        spec_denominator_power(ts.denominator),
        24u8,
        8u8,
    ] + spec_vlq(0) + seq![
        0xFFu8,
        0x59u8,
        0x02u8,
        spec_key_byte(song.settings.key.root@),
        spec_mode_byte(song.settings.key.scale_type),
    ] + spec_vlq(0) + seq![0xFFu8, 0x03u8] + spec_vlq(title.len() as int) + title
        + spec_event_bytes(spec_sort_events(spec_note_events(song.notes@)), 0) + spec_vlq(0)
        + seq![0xFFu8, 0x2Fu8, 0x00u8]
}

/// A whole SMF format-0 file: the "MThd" header chunk (length 6,
/// format 0, one track, ticks per quarter note), then the "MTrk" chunk
/// with its four-byte big-endian length and body.
pub open spec fn spec_midi_bytes(ticks_per_quarter: int, song: Song) -> Seq<u8> {
    let body = spec_track_body(song);
    seq![0x4Du8, 0x54u8, 0x68u8, 0x64u8] + spec_u32_be(6) + spec_u16_be(0) + spec_u16_be(1)
        + spec_u16_be(ticks_per_quarter) + seq![0x4Du8, 0x54u8, 0x72u8, 0x6Bu8] + spec_u32_be(
        body.len() as int,
    ) + body
}

/// Bounds under which a song's track body always fits the four-byte
/// length field of its chunk.
pub open spec fn spec_midi_exportable(song: Song) -> bool {
    &&& song.settings.wf()
    &&& crate::song::spec_notes_fit(song.notes@)
    &&& song.notes@.len() <= 0x100_0000
    &&& vstd::utf8::encode_utf8(song.metadata.title@).len() <= 0x100_0000
}

/// MIDI file writer.
pub struct MidiExporter {
    /// Ticks per quarter note in the output file.
    pub ticks_per_quarter: u16,
}

impl Default for MidiExporter {
    /// The standard resolution of 480 ticks per quarter note.
    fn default() -> (r: MidiExporter)
        ensures
            r.ticks_per_quarter == 480,
    {
        MidiExporter { ticks_per_quarter: 480 }
    }
}

impl MidiExporter {
    /// Create a new MIDI exporter with the standard resolution.
    pub fn new() -> (r: MidiExporter)
        ensures
            r.ticks_per_quarter == 480,
    {
        MidiExporter::default()
    }

    /// Append the VLQ encoding of a value.
    pub fn write_var_length(&self, data: &mut Vec<u8>, value: u32)
        ensures
            final(data)@ == old(data)@ + spec_vlq(value as int),
    {
        push_vlq(data, value);
    }

    /// Export a song to MIDI bytes.
    pub fn export(&self, song: &Song) -> (r: Result<Vec<u8>, MozartError>)
        requires
            spec_midi_exportable(*song),
        ensures
            r matches Ok(data) && data@ == spec_midi_bytes(self.ticks_per_quarter as int, *song),
    {
        let mut data: Vec<u8> = Vec::new();

        // Header chunk.
        data.push(0x4D);
        data.push(0x54);
        data.push(0x68);
        data.push(0x64);
        proof {
            assert(data@ =~= seq![0x4Du8, 0x54u8, 0x68u8, 0x64u8]);
        }
        push_u32_be(&mut data, 6);
        push_u16_be(&mut data, 0);
        push_u16_be(&mut data, 1);
        push_u16_be(&mut data, self.ticks_per_quarter);

        // Track chunk.
        let track = build_track(song);
        proof {
            lemma_track_body_len(*song);
        }
        data.push(0x4D);
        data.push(0x54);
        data.push(0x72);
        data.push(0x6B);
        push_u32_be(&mut data, track.len() as u32);
        let mut i: usize = 0;
        let n = track.len();
        let ghost before = data@;
        while i < n
            invariant
                n == track@.len(),
                i <= n,
                data@ == before + track@.take(i as int),
            decreases n - i,
        {
            data.push(track[i]);
            proof {
                assert(before + track@.take(i + 1) =~= (before + track@.take(i as int)).push(
                    track@[i as int],
                ));
            }
            i = i + 1;
        }
        proof {
            assert(track@.take(n as int) =~= track@);
            assert(data@ =~= spec_midi_bytes(self.ticks_per_quarter as int, *song));
        }
        Ok(data)
    }
}

/// The track body of an exportable song stays well under the four-byte
/// length limit.
proof fn lemma_track_body_len(song: Song)
    requires
        spec_midi_exportable(song),
    ensures
        spec_track_body(song).len() <= u32::MAX,
{
    lemma_vlq_len(0);
    let title = vstd::utf8::encode_utf8(song.metadata.title@);
    lemma_vlq_len(title.len() as int);
    let events = spec_sort_events(spec_note_events(song.notes@));
    lemma_note_events_len(song.notes@);
    lemma_sort_events_len(spec_note_events(song.notes@));
    lemma_event_bytes_len(events, 0);
}

/// A note list of length n makes exactly 2n raw events.
proof fn lemma_note_events_len(notes: Seq<Note>)
    ensures
        spec_note_events(notes).len() == 2 * notes.len(),
    decreases notes.len(),
{
    if notes.len() > 0 {
        lemma_note_events_len(notes.drop_last());
    }
}

/// Stable insertion lands at the first position whose event key is
/// greater.
proof fn lemma_insert_event_at(s: Seq<NoteEvent>, e: NoteEvent, p: int)
    requires
        0 <= p <= s.len(),
        forall|i: int| 0 <= i < p ==> spec_event_key(#[trigger] s[i]) <= spec_event_key(e),
        p < s.len() ==> spec_event_key(s[p]) > spec_event_key(e),
    ensures
        spec_insert_event(s, e) =~= s.take(p) + seq![e] + s.skip(p),
    decreases p,
{
    if p == 0 {
        assert(spec_insert_event(s, e) =~= s.take(0) + seq![e] + s.skip(0));
    } else {
        let t = s.drop_first();
        assert(forall|i: int|
            0 <= i < p - 1 ==> spec_event_key(#[trigger] t[i]) <= spec_event_key(e));
        lemma_insert_event_at(t, e, p - 1);
        assert(seq![s[0]] + (t.take(p - 1) + seq![e] + t.skip(p - 1)) =~= s.take(p) + seq![e]
            + s.skip(p));
    }
}

/// The sort key of an event as a machine integer.
fn event_key(e: NoteEvent) -> (r: u64)
    ensures
        r as int == spec_event_key(e),
{
    e.tick as u64 * 2 + (if e.is_on {
        1
    } else {
        0
    })
}

/// Insert an event into an already sorted stream, after every event whose
/// key is at or below its own.
fn sorted_insert_event(v: &mut Vec<NoteEvent>, e: NoteEvent)
    ensures
        final(v)@ == spec_insert_event(old(v)@, e),
{
    let ekey: u64 = event_key(e);
    let mut i: usize = 0;
    let n = v.len();
    while i < n && event_key(v[i]) <= ekey
        invariant
            n == v@.len(),
            ekey as int == spec_event_key(e),
            i <= n,
            forall|k: int| 0 <= k < i ==> spec_event_key(#[trigger] v@[k]) <= spec_event_key(e),
        decreases n - i,
    {
        i = i + 1;
    }
    proof {
        lemma_insert_event_at(v@, e, i as int);
    }
    v.insert(i, e);
}

/// Build the single track chunk's body for a song.
#[verifier::rlimit(60)]
fn build_track(song: &Song) -> (r: Vec<u8>)
    requires
        spec_midi_exportable(*song),
    ensures
        r@ == spec_track_body(*song),
{
    let mut track: Vec<u8> = Vec::new();

    // Tempo meta event (at time 0).
    let tempo_us: u32 = 60000000 / song.settings.tempo as u32;
    push_vlq(&mut track, 0);
    track.push(0xFF);
    track.push(0x51);
    track.push(0x03);
    track.push((tempo_us / 0x10000 % 256) as u8);
    track.push((tempo_us / 256 % 256) as u8);
    track.push((tempo_us % 256) as u8);

    // Time-signature meta event.
    let ts_numerator = song.settings.time_signature.numerator;
    let ts_denominator = song.settings.time_signature.denominator;
    push_vlq(&mut track, 0);
    track.push(0xFF);
    track.push(0x58);
    track.push(0x04);
    track.push(ts_numerator);
    let denom_power: u8 = match ts_denominator {
        2 => 1,
        4 => 2,
        8 => 3,
        16 => 4,
        _ => 2,
    };
    track.push(denom_power);
    track.push(24);
    track.push(8);

    // Key-signature meta event.
    push_vlq(&mut track, 0);
    track.push(0xFF);
    track.push(0x59);
    track.push(0x02);
    track.push(key_byte(&song.settings.key));
    let mode: u8 = match song.settings.key.scale_type {
        ScaleType::Major => 0,
        _ => 1,
    };
    track.push(mode);

    // Track-name meta event.
    let title = song.metadata.title.as_str().as_bytes();
    push_vlq(&mut track, 0);
    track.push(0xFF);
    track.push(0x03);
    push_vlq(&mut track, title.len() as u32);
    track.extend_from_slice(title);

    let ghost metas = track@;

    // The note on/off stream, sorted by tick with note-offs first at
    // equal ticks.
    let mut events: Vec<NoteEvent> = Vec::new();
    let n = song.notes.len();
    let mut i: usize = 0;
    while i < n
        invariant
            n == song.notes@.len(),
            crate::song::spec_notes_fit(song.notes@),
            i <= n,
            events@ == spec_note_events(song.notes@.take(i as int)),
        decreases n - i,
    {
        let ghost prefix = song.notes@.take(i as int);
        let note = &song.notes[i];
        events.push(
            NoteEvent {
                tick: note.start_tick,
                is_on: true,
                pitch: note.pitch,
                velocity: note.velocity,
            },
        );
        events.push(
            NoteEvent { tick: note.end_tick(), is_on: false, pitch: note.pitch, velocity: 0 },
        );
        proof {
            assert(song.notes@.take(i + 1).drop_last() =~= prefix);
            assert(song.notes@.take(i + 1).last() == song.notes@[i as int]);
            assert(events@ =~= spec_note_events(song.notes@.take(i + 1)));
        }
        i = i + 1;
    }
    proof {
        assert(song.notes@.take(n as int) =~= song.notes@);
    }

    let mut sorted: Vec<NoteEvent> = Vec::new();
    let m = events.len();
    let mut j: usize = 0;
    while j < m
        invariant
            m == events@.len(),
            j <= m,
            sorted@ == spec_sort_events(events@.take(j as int)),
        decreases m - j,
    {
        let ghost prefix = events@.take(j as int);
        sorted_insert_event(&mut sorted, events[j]);
        proof {
            assert(events@.take(j + 1).drop_last() =~= prefix);
            assert(events@.take(j + 1).last() == events@[j as int]);
        }
        j = j + 1;
    }
    proof {
        assert(events@.take(m as int) =~= events@);
    }

    // Write the events with running delta times.
    let ghost all_sorted = sorted@;
    proof {
        assert(sorted@.skip(0) =~= sorted@);
    }
    let mut last_tick: u32 = 0;
    let k_max = sorted.len();
    let mut k: usize = 0;
    while k < k_max
        invariant
            k_max == sorted@.len(),
            k <= k_max,
            track@ + spec_event_bytes(sorted@.skip(k as int), last_tick as int) == metas
                + spec_event_bytes(sorted@, 0),
        decreases k_max - k,
    {
        let ghost rest = sorted@.skip(k as int);
        let event = sorted[k];
        let delta: u32 = if event.tick >= last_tick {
            event.tick - last_tick
        } else {
            0
        };
        push_vlq(&mut track, delta);
        if event.is_on {
            track.push(0x90);
            track.push(event.pitch);
            track.push(event.velocity);
        } else {
            track.push(0x80);
            track.push(event.pitch);
            track.push(0);
        }
        proof {
            assert(rest[0] == sorted@[k as int]);
            assert(rest.drop_first() =~= sorted@.skip(k + 1));
            assert(track@ + spec_event_bytes(sorted@.skip(k + 1), event.tick as int) =~= metas
                + spec_event_bytes(sorted@, 0));
        }
        last_tick = event.tick;
        k = k + 1;
    }
    proof {
        assert(sorted@.skip(k_max as int) =~= Seq::<NoteEvent>::empty());
        assert(track@ =~= metas + spec_event_bytes(sorted@, 0));
    }

    // End-of-track meta event.
    push_vlq(&mut track, 0);
    track.push(0xFF);
    track.push(0x2F);
    track.push(0x00);

    proof {
        assert(track@ =~= spec_track_body(*song));
    }
    track
}

/// The key-signature byte of a scale's root.
fn key_byte(scale: &Scale) -> (r: u8)
    requires
        scale.wf(),
    ensures
        r == spec_key_byte(scale.root@),
{
    match scale.root.semitones() {
        0 => 0,
        7 => 1,
        2 => 2,
        9 => 3,
        4 => 4,
        11 => 5,
        6 => 6,
        1 => 7,
        5 => 0xFF,
        10 => 0xFE,
        3 => 0xFD,
        8 => 0xFC,
        _ => 0,
    }
}

/// Export a song to MIDI bytes at the standard resolution.
pub fn export_to_midi(song: &Song) -> (r: Result<Vec<u8>, MozartError>)
    requires
        spec_midi_exportable(*song),
    ensures
        r matches Ok(data) && data@ == spec_midi_bytes(480, *song),
{
    MidiExporter::new().export(song)
}

/// A MIDI export starts with the "MThd" header chunk declaring format 0
/// and a single track, followed at byte 14 by the "MTrk" chunk whose
/// four-byte length matches its body.
pub proof fn lemma_midi_layout(ticks_per_quarter: int, song: Song)
    requires
        spec_midi_exportable(song),
        0 <= ticks_per_quarter < 0x10000,
    ensures
        ({
            let data = spec_midi_bytes(ticks_per_quarter, song);
            let body = spec_track_body(song);
            &&& data.len() == 22 + body.len()
            &&& data.subrange(0, 4) =~= seq![0x4Du8, 0x54u8, 0x68u8, 0x64u8]
            &&& data.subrange(8, 10) =~= spec_u16_be(0)
            &&& data.subrange(10, 12) =~= spec_u16_be(1)
            &&& data.subrange(14, 18) =~= seq![0x4Du8, 0x54u8, 0x72u8, 0x6Bu8]
            &&& data.subrange(18, 22) =~= spec_u32_be(body.len() as int)
            &&& data.skip(22) =~= body
        }),
{
    lemma_track_body_len(song);
}

} // verus!
