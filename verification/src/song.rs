//! The score aggregate: metadata, settings and notes.
//!
//! The song owns its notes and keeps them sorted ascending by start tick
//! after every mutation; each mutation of the note list also refreshes the
//! `modified` timestamp.

use vstd::prelude::*;
use crate::note::Note;
use crate::scale::Scale;
use crate::time::TimeSignature;

verus! {

/// Seconds since the Unix epoch followed by 'Z', from the system clock.
///
/// Relies on std::time::SystemTime::now for the current time; the value
/// depends on the clock, so nothing is promised of it.
#[verifier::external_body]
fn current_timestamp() -> String {
    let secs = std::time::SystemTime::now().duration_since(std::time::UNIX_EPOCH).map(
        |d| d.as_secs(),
    ).unwrap_or(0);
    format!("{}Z", secs)
}

/// Song metadata.
#[derive(Debug, Clone)]
pub struct SongMetadata {
    /// Song title.
    pub title: String,
    /// Composer name.
    pub composer: String,
    /// Creation timestamp (seconds since the epoch, with a trailing 'Z').
    pub created: String,
    /// Last-modified timestamp (same form).
    pub modified: String,
}

impl Default for SongMetadata {
    /// An untitled song stamped with the current time.
    fn default() -> (r: SongMetadata)
        ensures
            r.title@ == "Untitled"@,
            r.composer@ == ""@,
            r.created == r.modified,
    {
        let now = current_timestamp();
        let now2 = now.clone();
        let composer = String::new();
        proof {
            reveal_strlit("");
            assert(composer@ =~= ""@);
        }
        SongMetadata {
            title: String::from_str("Untitled"),
            composer,
            created: now,
            modified: now2,
        }
    }
}

/// Song settings: tempo, time signature and key.
#[derive(Debug, Clone)]
pub struct SongSettings {
    /// Tempo in beats per minute (kept in 20..=300).
    pub tempo: u16,
    /// Time signature.
    pub time_signature: TimeSignature,
    /// Key/scale of the song.
    pub key: Scale,
}

impl SongSettings {
    /// The tempo stays in range and the time signature and key are valid.
    pub open spec fn wf(&self) -> bool {
        &&& 20 <= self.tempo <= 300
        &&& self.time_signature.wf()
        &&& self.key.wf()
    }
}

impl Default for SongSettings {
    /// 120 beats per minute, common time, C major.
    fn default() -> (r: SongSettings)
        ensures
            r.tempo == 120,
            r.time_signature.numerator == 4,
            r.time_signature.denominator == 4,
            r.time_signature.accents.accents@ == crate::time::spec_default_pattern(4),
            r.key.root@ == 0,
            r.key.scale_type == crate::scale::ScaleType::Major,
            r.wf(),
    {
        SongSettings { tempo: 120, time_signature: TimeSignature::common(), key: Scale::c_major() }
    }
}

/// Where a note is placed when inserted into an already sorted list:
/// after every note that starts at or before it (so insertion is stable).
pub open spec fn spec_insert_note(s: Seq<Note>, e: Note) -> Seq<Note>
    decreases s.len(),
{
    if s.len() == 0 {
        seq![e]
    } else if s[0].start_tick <= e.start_tick {
        seq![s[0]] + spec_insert_note(s.drop_first(), e)
    } else {
        seq![e] + s
    }
}

/// The note list sorted ascending by start tick; notes that start at the
/// same tick keep their relative order (a stable sort).
pub open spec fn spec_sort_notes(s: Seq<Note>) -> Seq<Note>
    decreases s.len(),
{
    if s.len() == 0 {
        Seq::empty()
    } else {
        spec_insert_note(spec_sort_notes(s.drop_last()), s.last())
    }
}

/// The largest end tick of any note; zero for an empty list.
pub open spec fn spec_total_ticks(s: Seq<Note>) -> int
    decreases s.len(),
{
    if s.len() == 0 {
        0
    } else {
        let rest = spec_total_ticks(s.drop_last());
        let end = s.last().start_tick + s.last().duration_ticks;
        if end > rest {
            end
        } else {
            rest
        }
    }
}

/// Every note's end tick fits the tick range.
pub open spec fn spec_notes_fit(s: Seq<Note>) -> bool {
    forall|i: int|
        0 <= i < s.len() ==> (#[trigger] s[i]).start_tick + s[i].duration_ticks <= u32::MAX
}

/// Notes ordered ascending by start tick.
pub open spec fn spec_notes_sorted(s: Seq<Note>) -> bool {
    forall|i: int, j: int|
        0 <= i < j < s.len() ==> (#[trigger] s[i]).start_tick <= (#[trigger] s[j]).start_tick
}

/// Inserting into a sorted list keeps it sorted.
proof fn lemma_insert_note_sorted(s: Seq<Note>, e: Note)
    requires
        spec_notes_sorted(s),
    ensures
        spec_notes_sorted(spec_insert_note(s, e)),
        spec_insert_note(s, e).to_multiset() =~= s.to_multiset().insert(e),
    decreases s.len(),
{
    broadcast use vstd::seq_lib::group_to_multiset_ensures;

    if s.len() == 0 {
        assert(seq![e] =~= Seq::<Note>::empty().push(e));
        assert(spec_insert_note(s, e).to_multiset() =~= s.to_multiset().insert(e));
    } else if s[0].start_tick <= e.start_tick {
        let t = s.drop_first();
        assert(spec_notes_sorted(t)) by {
            assert(forall|i: int| 0 <= i < t.len() ==> #[trigger] t[i] == s[i + 1]);
        }
        lemma_insert_note_sorted(t, e);
        let r = spec_insert_note(s, e);
        assert(r == seq![s[0]] + spec_insert_note(t, e));
        // The head is at or before everything inserted behind it.
        assert(spec_notes_sorted(r)) by {
            assert(forall|k: int|
                0 <= k < spec_insert_note(t, e).len() ==> s[0].start_tick <= (
                #[trigger] spec_insert_note(t, e)[k]).start_tick) by {
                lemma_insert_note_members(t, e);
            }
        }
        assert(r.to_multiset() =~= s.to_multiset().insert(e)) by {
            assert(r =~= spec_insert_note(t, e).insert(0, s[0]));
            assert(s =~= t.insert(0, s[0]));
        }
    } else {
        assert(spec_insert_note(s, e) =~= s.insert(0, e));
    }
}

/// Everything in an inserted list is either the new note or one of the
/// old ones.
proof fn lemma_insert_note_members(s: Seq<Note>, e: Note)
    ensures
        forall|k: int|
            0 <= k < spec_insert_note(s, e).len() ==> (#[trigger] spec_insert_note(s, e)[k] == e
                || exists|i: int| 0 <= i < s.len() && s[i] == spec_insert_note(s, e)[k]),
    decreases s.len(),
{
    if s.len() > 0 && s[0].start_tick <= e.start_tick {
        lemma_insert_note_members(s.drop_first(), e);
        let t = s.drop_first();
        assert(forall|k: int|
            0 <= k < spec_insert_note(s, e).len() ==> (#[trigger] spec_insert_note(s, e)[k] == e
                || exists|i: int| 0 <= i < s.len() && s[i] == spec_insert_note(s, e)[k])) by {
            assert forall|k: int| 0 <= k < spec_insert_note(s, e).len() implies (
            #[trigger] spec_insert_note(s, e)[k] == e || exists|i: int|
                0 <= i < s.len() && s[i] == spec_insert_note(s, e)[k]) by {
                if k == 0 {
                    assert(s[0] == spec_insert_note(s, e)[0]);
                } else {
                    assert(spec_insert_note(s, e)[k] == spec_insert_note(t, e)[k - 1]);
                    if spec_insert_note(t, e)[k - 1] != e {
                        let i = choose|i: int|
                            0 <= i < t.len() && t[i] == spec_insert_note(t, e)[k - 1];
                        assert(s[i + 1] == spec_insert_note(s, e)[k]);
                    }
                }
            }
        }
    }
}

/// The score's invariant: sorting really leaves the notes ordered
/// ascending by start tick, and keeps exactly the notes that went in.
pub proof fn lemma_sort_notes_sorted(s: Seq<Note>)
    ensures
        spec_notes_sorted(spec_sort_notes(s)),
        spec_sort_notes(s).to_multiset() =~= s.to_multiset(),
    decreases s.len(),
{
    broadcast use vstd::seq_lib::group_to_multiset_ensures;

    if s.len() > 0 {
        lemma_sort_notes_sorted(s.drop_last());
        lemma_insert_note_sorted(spec_sort_notes(s.drop_last()), s.last());
        assert(s =~= s.drop_last().push(s.last()));
        assert(s.drop_last().push(s.last()).to_multiset() =~= s.drop_last().to_multiset().insert(
            s.last(),
        ));
    }
}

/// Stable insertion lands at the first position whose note starts later.
proof fn lemma_insert_note_at(s: Seq<Note>, e: Note, p: int)
    requires
        0 <= p <= s.len(),
        forall|i: int| 0 <= i < p ==> (#[trigger] s[i]).start_tick <= e.start_tick,
        p < s.len() ==> s[p].start_tick > e.start_tick,
    ensures
        spec_insert_note(s, e) =~= s.take(p) + seq![e] + s.skip(p),
    decreases p,
{
    if p == 0 {
        if s.len() == 0 {
            assert(spec_insert_note(s, e) =~= s.take(0) + seq![e] + s.skip(0));
        } else {
            assert(spec_insert_note(s, e) =~= s.take(0) + seq![e] + s.skip(0));
        }
    } else {
        assert(s[0].start_tick <= e.start_tick);
        let t = s.drop_first();
        assert(forall|i: int| 0 <= i < p - 1 ==> (#[trigger] t[i]).start_tick <= e.start_tick);
        lemma_insert_note_at(t, e, p - 1);
        assert(spec_insert_note(s, e) == seq![s[0]] + spec_insert_note(t, e));
        assert(seq![s[0]] + (t.take(p - 1) + seq![e] + t.skip(p - 1)) =~= s.take(p) + seq![e]
            + s.skip(p));
    }
}

/// Insert a note into an already sorted list, after every note that
/// starts at or before it.
fn sorted_insert(v: &mut Vec<Note>, e: Note)
    ensures
        final(v)@ == spec_insert_note(old(v)@, e),
{
    let mut i: usize = 0;
    let n = v.len();
    while i < n && v[i].start_tick <= e.start_tick
        invariant
            n == v@.len(),
            i <= n,
            forall|k: int| 0 <= k < i ==> (#[trigger] v@[k]).start_tick <= e.start_tick,
        decreases n - i,
    {
        i = i + 1;
    }
    proof {
        lemma_insert_note_at(v@, e, i as int);
    }
    v.insert(i, e);
}

/// Sort notes ascending by start tick (stable).
fn sort_notes_ref(notes: &Vec<Note>) -> (r: Vec<Note>)
    ensures
        r@ == spec_sort_notes(notes@),
{
    let mut sorted: Vec<Note> = Vec::new();
    let mut i: usize = 0;
    let n = notes.len();
    while i < n
        invariant
            n == notes@.len(),
            i <= n,
            sorted@ == spec_sort_notes(notes@.take(i as int)),
        decreases n - i,
    {
        let ghost prefix = notes@.take(i as int);
        sorted_insert(&mut sorted, notes[i]);
        proof {
            assert(notes@.take(i + 1).drop_last() =~= prefix);
            assert(notes@.take(i + 1).last() == notes@[i as int]);
        }
        i = i + 1;
    }
    proof {
        assert(notes@.take(n as int) =~= notes@);
    }
    sorted
}

/// A complete song with metadata, settings and notes.
#[derive(Debug, Clone)]
pub struct Song {
    /// File format version.
    pub version: String,
    /// Song metadata.
    pub metadata: SongMetadata,
    /// Song settings.
    pub settings: SongSettings,
    /// The notes of the melody, sorted ascending by start tick.
    pub notes: Vec<Note>,
}

impl Song {
    /// Valid settings; the note list may hold any notes.
    pub open spec fn wf(&self) -> bool {
        self.settings.wf()
    }

    /// Create a new empty song.
    pub fn new() -> (r: Song)
        ensures
            r.version@ == "1.0"@,
            r.metadata.title@ == "Untitled"@,
            r.metadata.composer@ == ""@,
            r.settings.tempo == 120,
            r.settings.time_signature.numerator == 4,
            r.settings.time_signature.denominator == 4,
            r.settings.time_signature.accents.accents@ == crate::time::spec_default_pattern(4),
            r.settings.key.root@ == 0,
            r.settings.key.scale_type == crate::scale::ScaleType::Major,
            r.metadata.created == r.metadata.modified,
            r.notes@.len() == 0,
            r.wf(),
    {
        Song {
            version: String::from_str("1.0"),
            metadata: SongMetadata::default(),
            settings: SongSettings::default(),
            notes: Vec::new(),
        }
    }

    /// Create a song with a title.
    pub fn with_title(title: &str) -> (r: Song)
        ensures
            r.version@ == "1.0"@,
            r.metadata.title@ == title@,
            r.metadata.composer@ == ""@,
            r.metadata.created == r.metadata.modified,
            r.settings.tempo == 120,
            r.settings.time_signature.numerator == 4,
            r.settings.time_signature.denominator == 4,
            r.settings.time_signature.accents.accents@ == crate::time::spec_default_pattern(4),
            r.settings.key.root@ == 0,
            r.settings.key.scale_type == crate::scale::ScaleType::Major,
            r.notes@.len() == 0,
            r.wf(),
    {
        let mut song = Song::new();
        song.metadata.title = title.to_owned();
        song
    }

    /// Set the tempo, clamped to 20..=300 beats per minute.
    pub fn set_tempo(&mut self, tempo: u16)
        ensures
            final(self).settings.tempo == (if tempo < 20 {
                20u16
            } else if tempo > 300 {
                300u16
            } else {
                tempo
            }),
            final(self).settings.time_signature == old(self).settings.time_signature,
            final(self).settings.key == old(self).settings.key,
            final(self).version == old(self).version,
            final(self).metadata == old(self).metadata,
            final(self).notes == old(self).notes,
    {
        let t: u16 = if tempo < 20 {
            20
        } else if tempo > 300 {
            300
        } else {
            tempo
        };
        self.settings.tempo = t;
    }

    /// Set the time signature.
    pub fn set_time_signature(&mut self, ts: TimeSignature)
        ensures
            final(self).settings.time_signature == ts,
            final(self).settings.tempo == old(self).settings.tempo,
            final(self).settings.key == old(self).settings.key,
            final(self).version == old(self).version,
            final(self).metadata == old(self).metadata,
            final(self).notes == old(self).notes,
    {
        self.settings.time_signature = ts;
    }

    /// Set the key.
    pub fn set_key(&mut self, key: Scale)
        ensures
            final(self).settings.key == key,
            final(self).settings.tempo == old(self).settings.tempo,
            final(self).settings.time_signature == old(self).settings.time_signature,
            final(self).version == old(self).version,
            final(self).metadata == old(self).metadata,
            final(self).notes == old(self).notes,
    {
        self.settings.key = key;
    }

    /// Add a note; the note list is re-sorted (stable, by start tick) and
    /// the modified timestamp refreshed.
    pub fn add_note(&mut self, note: Note)
        ensures
            final(self).notes@ == spec_sort_notes(old(self).notes@.push(note)),
            final(self).version == old(self).version,
            final(self).settings == old(self).settings,
            final(self).metadata.title == old(self).metadata.title,
            final(self).metadata.composer == old(self).metadata.composer,
            final(self).metadata.created == old(self).metadata.created,
    {
        self.notes.push(note);
        let sorted = sort_notes_ref(&self.notes);
        self.notes = sorted;
        self.metadata.modified = current_timestamp();
    }

    /// Add several notes at once; the note list is re-sorted (stable, by
    /// start tick) and the modified timestamp refreshed.
    pub fn add_notes(&mut self, notes: Vec<Note>)
        ensures
            final(self).notes@ == spec_sort_notes(old(self).notes@ + notes@),
            final(self).version == old(self).version,
            final(self).settings == old(self).settings,
            final(self).metadata.title == old(self).metadata.title,
            final(self).metadata.composer == old(self).metadata.composer,
            final(self).metadata.created == old(self).metadata.created,
    {
        let mut incoming = notes;
        self.notes.append(&mut incoming);
        let sorted = sort_notes_ref(&self.notes);
        self.notes = sorted;
        self.metadata.modified = current_timestamp();
    }

    /// Remove the note at an index, returning it; out-of-range indices
    /// leave the song untouched and return nothing.
    pub fn remove_note(&mut self, index: usize) -> (r: Option<Note>)
        ensures
            index < old(self).notes@.len() ==> r == Some(old(self).notes@[index as int])
                && final(self).notes@ == old(self).notes@.remove(index as int),
            index >= old(self).notes@.len() ==> r is None && *final(self) == *old(self),
            final(self).version == old(self).version,
            final(self).settings == old(self).settings,
            final(self).metadata.title == old(self).metadata.title,
            final(self).metadata.composer == old(self).metadata.composer,
            final(self).metadata.created == old(self).metadata.created,
    {
        if index < self.notes.len() {
            let note = self.notes.remove(index);
            self.metadata.modified = current_timestamp();
            Some(note)
        } else {
            None
        }
    }

    /// Clear all notes and refresh the modified timestamp.
    pub fn clear_notes(&mut self)
        ensures
            final(self).notes@.len() == 0,
            final(self).version == old(self).version,
            final(self).settings == old(self).settings,
            final(self).metadata.title == old(self).metadata.title,
            final(self).metadata.composer == old(self).metadata.composer,
            final(self).metadata.created == old(self).metadata.created,
    {
        self.notes.clear();
        self.metadata.modified = current_timestamp();
    }

    /// The total duration in ticks: the largest end tick of any note.
    pub fn duration_ticks(&self) -> (r: u32)
        requires
            spec_notes_fit(self.notes@),
        ensures
            r as int == spec_total_ticks(self.notes@),
    {
        let mut best: u32 = 0;
        let mut i: usize = 0;
        let n = self.notes.len();
        while i < n
            invariant
                n == self.notes@.len(),
                spec_notes_fit(self.notes@),
                i <= n,
                best as int == spec_total_ticks(self.notes@.take(i as int)),
            decreases n - i,
        {
            let ghost prefix = self.notes@.take(i as int);
            let end = self.notes[i].end_tick();
            if end > best {
                best = end;
            }
            proof {
                assert(self.notes@.take(i + 1).drop_last() =~= prefix);
                assert(self.notes@.take(i + 1).last() == self.notes@[i as int]);
            }
            i = i + 1;
        }
        proof {
            assert(self.notes@.take(n as int) =~= self.notes@);
        }
        best
    }

    /// The number of measures the song spans (its duration rounded up to
    /// whole measures).
    pub fn measure_count(&self) -> (r: u32)
        requires
            self.settings.time_signature.wf(),
            spec_notes_fit(self.notes@),
            spec_total_ticks(self.notes@) + crate::time::spec_ticks_per_beat(
                self.settings.time_signature.denominator,
            ) * self.settings.time_signature.numerator <= u32::MAX,
        ensures
            r as int == (spec_total_ticks(self.notes@) + crate::time::spec_ticks_per_beat(
                self.settings.time_signature.denominator,
            ) * self.settings.time_signature.numerator - 1) / (crate::time::spec_ticks_per_beat(
                self.settings.time_signature.denominator,
            ) * self.settings.time_signature.numerator),
    {
        let ticks = self.duration_ticks();
        let ticks_per_measure = self.settings.time_signature.ticks_per_measure();
        proof {
            vstd::arithmetic::mul::lemma_mul_strictly_positive(
                crate::time::spec_ticks_per_beat(self.settings.time_signature.denominator),
                self.settings.time_signature.numerator as int,
            );
        }
        (ticks + ticks_per_measure - 1) / ticks_per_measure
    }
}

impl Default for Song {
    /// The same value as a newly created empty song.
    fn default() -> (r: Song)
        ensures
            r.version@ == "1.0"@,
            r.metadata.title@ == "Untitled"@,
            r.metadata.created == r.metadata.modified,
            r.settings.tempo == 120,
            r.settings.time_signature.numerator == 4,
            r.settings.time_signature.denominator == 4,
            r.settings.key.root@ == 0,
            r.settings.key.scale_type == crate::scale::ScaleType::Major,
            r.notes@.len() == 0,
            r.wf(),
    {
        Song::new()
    }
}

} // verus!
