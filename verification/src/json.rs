//! The score's text format: a JSON object holding version, metadata,
//! settings and notes.
//!
//! The writer renders one canonical compact form. The reader follows the
//! persisted format: whitespace between tokens is insignificant and a
//! note's voice field may be missing; on the writer's canonical form it
//! is proved total and exact, so a saved score always loads back.

use vstd::prelude::*;
use crate::error::MozartError;
use crate::note::Note;
use crate::scale::{Scale, ScaleType};
use crate::song::{Song, SongMetadata, SongSettings};
use crate::time::{AccentLevel, AccentPattern, TimeSignature};
use crate::text::{
    spec_u32_str,
    spec_digit_char,
    spec_digits_val,
    spec_is_digit,
    append_u32,
    eq_lit,
    str_to_chars,
};
use crate::pitch::PitchClass;

verus! {

/// The character of one hexadecimal digit (lower case).
pub open spec fn spec_hex_char(d: int) -> char {
    if d < 10 {
        spec_digit_char(d)
    } else if d == 10 {
        'a'
    } else if d == 11 {
        'b'
    } else if d == 12 {
        'c'
    } else if d == 13 {
        'd'
    } else if d == 14 {
        'e'
    } else {
        'f'
    }
}

/// The JSON text of one character: quotes and backslashes are escaped,
/// control characters take the four-digit escape, everything else stands
/// for itself.
pub open spec fn spec_escape_char(c: char) -> Seq<char> {
    if c == '"' {
        "\\\""@
    } else if c == '\\' {
        "\\\\"@
    } else if (c as u32) < 32 {
        "\\u00"@ + seq![spec_hex_char(c as u32 as int / 16), spec_hex_char(c as u32 as int % 16)]
    } else {
        seq![c]
    }
}

/// The JSON text of a string's characters.
pub open spec fn spec_escape(s: Seq<char>) -> Seq<char>
    decreases s.len(),
{
    if s.len() == 0 {
        Seq::empty()
    } else {
        spec_escape(s.drop_last()) + spec_escape_char(s.last())
    }
}

/// A JSON string: the escaped characters between double quotes.
pub open spec fn spec_json_string(s: Seq<char>) -> Seq<char> {
    "\""@ + spec_escape(s) + "\""@
}

/// The ordinal of an accent level in the stored accents array.
pub open spec fn spec_accent_ordinal(l: AccentLevel) -> int {
    match l {
        AccentLevel::Weak => 1,
        AccentLevel::Medium => 2,
        AccentLevel::Strong => 3,
    }
}

/// The stored accents array: comma-separated ordinals.
pub open spec fn spec_json_accents(s: Seq<AccentLevel>) -> Seq<char>
    decreases s.len(),
{
    if s.len() == 0 {
        Seq::empty()
    } else if s.len() == 1 {
        spec_u32_str(spec_accent_ordinal(s[0]))
    } else {
        spec_json_accents(s.drop_last()) + ","@ + spec_u32_str(spec_accent_ordinal(s.last()))
    }
}

/// The stored object of one note.
pub open spec fn spec_json_note(n: Note) -> Seq<char> {
    "{\"pitch\":"@ + spec_u32_str(n.pitch as int) + ",\"start_tick\":"@ + spec_u32_str(
        n.start_tick as int,
    ) + ",\"duration_ticks\":"@ + spec_u32_str(n.duration_ticks as int) + ",\"velocity\":"@
        + spec_u32_str(n.velocity as int) + ",\"voice\":"@ + spec_u32_str(n.voice as int) + "}"@
}

/// The stored notes array: comma-separated note objects.
pub open spec fn spec_json_notes(s: Seq<Note>) -> Seq<char>
    decreases s.len(),
{
    if s.len() == 0 {
        Seq::empty()
    } else if s.len() == 1 {
        spec_json_note(s[0])
    } else {
        spec_json_notes(s.drop_last()) + ","@ + spec_json_note(s.last())
    }
}

/// The stored text of the version and metadata fields.
pub open spec fn spec_json_head(
    version: Seq<char>,
    title: Seq<char>,
    composer: Seq<char>,
    created: Seq<char>,
    modified: Seq<char>,
) -> Seq<char> {
    "{\"version\":"@ + spec_json_string(version) + ",\"metadata\":{\"title\":"@
        + spec_json_string(title) + ",\"composer\":"@ + spec_json_string(composer)
        + ",\"created\":"@ + spec_json_string(created) + ",\"modified\":"@ + spec_json_string(
        modified,
    )
}

/// The stored text of the settings object, up to the opening of the notes
/// array.
pub open spec fn spec_json_settings(settings: SongSettings) -> Seq<char> {
    "},\"settings\":{\"tempo\":"@ + spec_u32_str(settings.tempo as int)
        + ",\"time_signature\":{\"numerator\":"@ + spec_u32_str(
        settings.time_signature.numerator as int,
    ) + ",\"denominator\":"@ + spec_u32_str(settings.time_signature.denominator as int)
        + ",\"accents\":["@ + spec_json_accents(settings.time_signature.accents.accents@)
        + "]},\"key\":{\"root\":"@ + spec_u32_str(settings.key.root@) + ",\"scale_type\":"@
        + spec_json_string(ScaleType::spec_name(settings.key.scale_type)) + "}},\"notes\":["@
}

/// The whole stored text of a song: version, metadata, settings and notes
/// in one canonical JSON object without insignificant whitespace.
pub open spec fn spec_json_of(song: Song) -> Seq<char> {
    spec_json_head(
        song.version@,
        song.metadata.title@,
        song.metadata.composer@,
        song.metadata.created@,
        song.metadata.modified@,
    ) + spec_json_settings(song.settings) + spec_json_notes(song.notes@) + "]}"@
}

/// The one-character string of one hexadecimal digit.
fn hex_str(d: u32) -> (r: &'static str)
    requires
        d < 16,
    ensures
        r@ =~= seq![spec_hex_char(d as int)],
{
    let r: &'static str = match d {
        0 => "0",
        1 => "1",
        2 => "2",
        3 => "3",
        4 => "4",
        5 => "5",
        6 => "6",
        7 => "7",
        8 => "8",
        9 => "9",
        10 => "a",
        11 => "b",
        12 => "c",
        13 => "d",
        14 => "e",
        _ => "f",
    };
    proof {
        reveal_strlit("0");
        reveal_strlit("1");
        reveal_strlit("2");
        reveal_strlit("3");
        reveal_strlit("4");
        reveal_strlit("5");
        reveal_strlit("6");
        reveal_strlit("7");
        reveal_strlit("8");
        reveal_strlit("9");
        reveal_strlit("a");
        reveal_strlit("b");
        reveal_strlit("c");
        reveal_strlit("d");
        reveal_strlit("e");
        reveal_strlit("f");
    }
    r
}

/// Append a string as a JSON string, quoted and escaped.
fn append_json_string(out: &mut String, s: &str)
    ensures
        final(out)@ == old(out)@ + spec_json_string(s@),
{
    out.append("\"");
    let n = s.unicode_len();
    let ghost mid = out@;
    let mut i: usize = 0;
    while i < n
        invariant
            n == s@.len(),
            i <= n,
            out@ == mid + spec_escape(s@.take(i as int)),
        decreases n - i,
    {
        let c = s.get_char(i);
        if c == '"' {
            out.append("\\\"");
            proof {
                reveal_strlit("\\\"");
            }
        } else if c == '\\' {
            out.append("\\\\");
            proof {
                reveal_strlit("\\\\");
            }
        } else if (c as u32) < 32 {
            out.append("\\u00");
            out.append(hex_str(c as u32 / 16));
            out.append(hex_str(c as u32 % 16));
            proof {
                reveal_strlit("\\u00");
            }
        } else {
            out.append(s.substring_char(i, i + 1));
        }
        proof {
            assert(s@.take(i + 1).drop_last() =~= s@.take(i as int));
            assert(s@.take(i + 1).last() == s@[i as int]);
            assert(out@ =~= mid + spec_escape(s@.take(i + 1)));
        }
        i = i + 1;
    }
    proof {
        assert(s@.take(n as int) =~= s@);
    }
    out.append("\"");
    proof {
        assert(final(out)@ =~= old(out)@ + spec_json_string(s@));
    }
}

/// Append one note as its stored object.
fn append_json_note(out: &mut String, note: &Note)
    ensures
        final(out)@ == old(out)@ + spec_json_note(*note),
{
    out.append("{\"pitch\":");
    append_u32(out, note.pitch as u32);
    out.append(",\"start_tick\":");
    append_u32(out, note.start_tick);
    out.append(",\"duration_ticks\":");
    append_u32(out, note.duration_ticks);
    out.append(",\"velocity\":");
    append_u32(out, note.velocity as u32);
    out.append(",\"voice\":");
    append_u32(out, note.voice as u32);
    out.append("}");
    proof {
        assert(final(out)@ =~= old(out)@ + spec_json_note(*note));
    }
}

impl Song {
    /// Serialize the song to its canonical JSON text.
    #[verifier::rlimit(100)]
    pub fn to_json(&self) -> (r: Result<String, MozartError>)
        requires
            self.settings.key.root.wf(),
        ensures
            r matches Ok(text) && text@ == spec_json_of(*self),
    {
        let mut out = String::new();
        out.append("{\"version\":");
        append_json_string(&mut out, self.version.as_str());
        out.append(",\"metadata\":{\"title\":");
        append_json_string(&mut out, self.metadata.title.as_str());
        out.append(",\"composer\":");
        append_json_string(&mut out, self.metadata.composer.as_str());
        out.append(",\"created\":");
        append_json_string(&mut out, self.metadata.created.as_str());
        out.append(",\"modified\":");
        append_json_string(&mut out, self.metadata.modified.as_str());
        out.append("},\"settings\":{\"tempo\":");
        append_u32(&mut out, self.settings.tempo as u32);
        out.append(",\"time_signature\":{\"numerator\":");
        append_u32(&mut out, self.settings.time_signature.numerator as u32);
        out.append(",\"denominator\":");
        append_u32(&mut out, self.settings.time_signature.denominator as u32);
        out.append(",\"accents\":[");

        let ghost before_accents = out@;
        let accents = &self.settings.time_signature.accents.accents;
        let n = accents.len();
        let mut i: usize = 0;
        while i < n
            invariant
                n == accents@.len(),
                i <= n,
                out@ == before_accents + spec_json_accents(accents@.take(i as int)),
            decreases n - i,
        {
            if i > 0 {
                out.append(",");
            }
            let ordinal: u32 = match accents[i] {
                AccentLevel::Weak => 1,
                AccentLevel::Medium => 2,
                AccentLevel::Strong => 3,
            };
            append_u32(&mut out, ordinal);
            proof {
                assert(accents@.take(i + 1).drop_last() =~= accents@.take(i as int));
                assert(accents@.take(i + 1).last() == accents@[i as int]);
                assert(out@ =~= before_accents + spec_json_accents(accents@.take(i + 1)));
            }
            i = i + 1;
        }
        proof {
            assert(accents@.take(n as int) =~= accents@);
        }

        out.append("]},\"key\":{\"root\":");
        append_u32(&mut out, self.settings.key.root.semitones() as u32);
        out.append(",\"scale_type\":");
        append_json_string(&mut out, self.settings.key.scale_type.name());
        out.append("}},\"notes\":[");

        let ghost before_notes = out@;
        let m = self.notes.len();
        let mut j: usize = 0;
        while j < m
            invariant
                m == self.notes@.len(),
                j <= m,
                out@ == before_notes + spec_json_notes(self.notes@.take(j as int)),
            decreases m - j,
        {
            if j > 0 {
                out.append(",");
            }
            let note = &self.notes[j];
            append_json_note(&mut out, note);
            proof {
                assert(self.notes@.take(j + 1).drop_last() =~= self.notes@.take(j as int));
                assert(self.notes@.take(j + 1).last() == self.notes@[j as int]);
                assert(out@ =~= before_notes + spec_json_notes(self.notes@.take(j + 1)));
            }
            j = j + 1;
        }
        proof {
            assert(self.notes@.take(m as int) =~= self.notes@);
        }

        out.append("]}");
        proof {
            assert(out@ =~= spec_json_of(*self));
        }
        Ok(out)
    }
}


/// The hexadecimal value a canonical (lower-case) hex digit stands for;
/// any other character has none.
fn hex_val(c: char) -> (r: Option<u32>)
    ensures
        r matches Some(d) ==> d < 16 && c == spec_hex_char(d as int),
        r is None ==> forall|d: int| 0 <= d < 16 ==> c != spec_hex_char(d),
{
    match c {
        '0' => Some(0),
        '1' => Some(1),
        '2' => Some(2),
        '3' => Some(3),
        '4' => Some(4),
        '5' => Some(5),
        '6' => Some(6),
        '7' => Some(7),
        '8' => Some(8),
        '9' => Some(9),
        'a' => Some(10),
        'b' => Some(11),
        'c' => Some(12),
        'd' => Some(13),
        'e' => Some(14),
        'f' => Some(15),
        _ => None,
    }
}

/// The one-character string of a control character.
fn control_str(d: u32) -> (r: &'static str)
    requires
        d < 32,
    ensures
        r@ =~= seq![((d as u8) as char)],
{
    let r: &'static str = match d {
        0 => "\u{0}",
        1 => "\u{1}",
        2 => "\u{2}",
        3 => "\u{3}",
        4 => "\u{4}",
        5 => "\u{5}",
        6 => "\u{6}",
        7 => "\u{7}",
        8 => "\u{8}",
        9 => "\u{9}",
        10 => "\u{a}",
        11 => "\u{b}",
        12 => "\u{c}",
        13 => "\u{d}",
        14 => "\u{e}",
        15 => "\u{f}",
        16 => "\u{10}",
        17 => "\u{11}",
        18 => "\u{12}",
        19 => "\u{13}",
        20 => "\u{14}",
        21 => "\u{15}",
        22 => "\u{16}",
        23 => "\u{17}",
        24 => "\u{18}",
        25 => "\u{19}",
        26 => "\u{1a}",
        27 => "\u{1b}",
        28 => "\u{1c}",
        29 => "\u{1d}",
        30 => "\u{1e}",
        _ => "\u{1f}",
    };
    proof {
        reveal_strlit("\u{0}");
        reveal_strlit("\u{1}");
        reveal_strlit("\u{2}");
        reveal_strlit("\u{3}");
        reveal_strlit("\u{4}");
        reveal_strlit("\u{5}");
        reveal_strlit("\u{6}");
        reveal_strlit("\u{7}");
        reveal_strlit("\u{8}");
        reveal_strlit("\u{9}");
        reveal_strlit("\u{a}");
        reveal_strlit("\u{b}");
        reveal_strlit("\u{c}");
        reveal_strlit("\u{d}");
        reveal_strlit("\u{e}");
        reveal_strlit("\u{f}");
        reveal_strlit("\u{10}");
        reveal_strlit("\u{11}");
        reveal_strlit("\u{12}");
        reveal_strlit("\u{13}");
        reveal_strlit("\u{14}");
        reveal_strlit("\u{15}");
        reveal_strlit("\u{16}");
        reveal_strlit("\u{17}");
        reveal_strlit("\u{18}");
        reveal_strlit("\u{19}");
        reveal_strlit("\u{1a}");
        reveal_strlit("\u{1b}");
        reveal_strlit("\u{1c}");
        reveal_strlit("\u{1d}");
        reveal_strlit("\u{1e}");
        reveal_strlit("\u{1f}");
    }
    r
}

/// The first position at or after `pos` holding something other than
/// JSON's insignificant whitespace (space, tab, carriage return, newline).
fn skip_ws(v: &Vec<char>, pos: usize) -> (r: usize)
    requires
        pos <= v@.len(),
    ensures
        pos <= r <= v@.len(),
        r < v@.len() ==> !spec_ws(v@[r as int]),
        forall|k: int| pos <= k < r ==> spec_ws(#[trigger] v@[k]),
{
    let n = v.len();
    let mut i = pos;
    while i < n && (v[i] == ' ' || v[i] == '\t' || v[i] == '\r' || v[i] == '\n')
        invariant
            pos <= i <= n == v@.len(),
            forall|k: int| pos <= k < i ==> spec_ws(#[trigger] v@[k]),
        decreases n - i,
    {
        i = i + 1;
    }
    i
}

/// JSON's insignificant whitespace characters.
pub open spec fn spec_ws(c: char) -> bool {
    c == ' ' || c == '\t' || c == '\r' || c == '\n'
}

/// Parse a canonical JSON string at a position: the consumed text is
/// exactly the returned string's canonical rendering.
fn parse_jstring(v: &Vec<char>, s: &str, pos: usize) -> (r: Option<(String, usize)>)
    requires
        v@ == s@,
        pos <= v@.len(),
    ensures
        r matches Some((t, j)) ==> pos < j <= v@.len() && v@.subrange(pos as int, j as int)
            == spec_json_string(t@),
        r is None ==> forall|a: Seq<char>, t: Seq<char>|
            v@.skip(pos as int) != spec_json_string(a) + t,
{
    let n = v.len();
    if pos >= n || v[pos] != '"' {
        proof {
            reveal_strlit("\"");
            assert forall|a: Seq<char>, t: Seq<char>|
                v@.skip(pos as int) != spec_json_string(a) + t by {
                if v@.skip(pos as int) == spec_json_string(a) + t {
                    assert(spec_json_string(a).len() >= 2);
                    assert(v@.skip(pos as int).len() >= 2);
                    assert(pos < v@.len());
                    assert((("\""@ + spec_escape(a)) + "\""@)[0] == ("\""@ + spec_escape(a))[0]);
                    assert((spec_json_string(a) + t)[0] == spec_json_string(a)[0]);
                    assert(spec_json_string(a)[0] == '"');
                    assert(v@.skip(pos as int)[0] == v@[pos as int]);
                    assert(false);
                }
            }
        }
        return None;
    }
    let mut out = String::new();
    let mut i: usize = pos + 1;
    proof {
        reveal_strlit("\"");
        assert(v@.subrange(pos as int, i as int) =~= "\""@ + spec_escape(out@));
    }
    loop
        invariant
            v@ == s@,
            pos < i <= n == v@.len(),
            v@.subrange(pos as int, i as int) == "\""@ + spec_escape(out@),
            forall|a: Seq<char>, t: Seq<char>|
                v@.skip(pos as int) == spec_json_string(a) + t ==> (out@.len() <= a.len() && out@
                    == a.take(out@.len() as int)),
        decreases n - i,
    {
        proof {
            reveal_strlit("\"");
            assert("\""@ =~= seq!['"']);
        }
        if i >= n {
            proof {
                assert forall|a: Seq<char>, t: Seq<char>|
                    v@.skip(pos as int) != spec_json_string(a) + t by {
                    if v@.skip(pos as int) == spec_json_string(a) + t {
                        lemma_jstring_align(v@, pos as int, i as int, out@, a, t);
                        assert(v@.subrange(i as int, n as int).len() >= 1);
                        assert(false);
                    }
                }
            }
            return None;
        }
        let c = v[i];
        if c == '"' {
            proof {
                assert(v@.subrange(i as int, i + 1) =~= "\""@);
                assert(v@.subrange(pos as int, i + 1) =~= v@.subrange(pos as int, i as int)
                    + v@.subrange(i as int, i + 1));
                assert(v@.subrange(pos as int, i + 1) =~= spec_json_string(out@));
            }
            return Some((out, i + 1));
        }
        let ghost content = out@;
        let mut consumed_end: usize = i;
        if c == '\\' {
            if i + 1 >= n {
                proof {
                    assert forall|a: Seq<char>, t: Seq<char>|
                        v@.skip(pos as int) != spec_json_string(a) + t by {
                        if v@.skip(pos as int) == spec_json_string(a) + t {
                            lemma_jstring_step(v@, pos as int, i as int, out@, a, t);
                            lemma_escape_char_shape(a[out@.len() as int]);
                            let s0 = a[out@.len() as int];
                            assert(v@[i as int] == spec_escape_char(s0)[0]);
                            assert(!spec_plain_char(s0));
                            assert(n - i >= 3);
                            assert(false);
                        }
                    }
                }
                return None;
            }
            let e = v[i + 1];
            if e == '"' {
                out.append("\"");
                consumed_end = i + 2;
                proof {
                    reveal_strlit("\\\"");
                    assert(out@ =~= content.push('"'));
                    assert(v@.subrange(i as int, i + 2) =~= spec_escape_char('"'));
                }
            } else if e == '\\' {
                out.append("\\");
                consumed_end = i + 2;
                proof {
                    reveal_strlit("\\");
                    reveal_strlit("\\\\");
                    assert(out@ =~= content.push('\\'));
                    assert(v@.subrange(i as int, i + 2) =~= spec_escape_char('\\'));
                }
            } else if e == 'u' {
                let enough = n - i >= 7;
                let zeros = enough && v[i + 2] == '0' && v[i + 3] == '0';
                let h1 = if zeros {
                    hex_val(v[i + 4])
                } else {
                    None
                };
                let h2 = if zeros {
                    hex_val(v[i + 5])
                } else {
                    None
                };
                let ok = match (h1, h2) {
                    (Some(a), Some(b)) => a * 16 + b < 32,
                    _ => false,
                };
                if !ok {
                    proof {
                        assert forall|a: Seq<char>, t: Seq<char>|
                            v@.skip(pos as int) != spec_json_string(a) + t by {
                            if v@.skip(pos as int) == spec_json_string(a) + t {
                                lemma_jstring_step(v@, pos as int, i as int, out@, a, t);
                                lemma_escape_char_shape(a[out@.len() as int]);
                                let s0 = a[out@.len() as int];
                                let ec = spec_escape_char(s0);
                                assert(v@[i as int] == ec[0] && v@[i + 1] == ec[1]);
                                assert(!spec_plain_char(s0));
                                assert((s0 as u32) < 32) by {
                                    if s0 == '"' || s0 == '\\' {
                                        assert(ec[1] == '"' || ec[1] == '\\');
                                        assert(false);
                                    }
                                }
                                assert(ec.len() == 6);
                                assert(n - i >= 7);
                                assert(v@[i + 2] == ec[2] && v@[i + 3] == ec[3]);
                                assert(v@[i + 4] == spec_hex_char(s0 as u32 as int / 16));
                                assert(v@[i + 5] == spec_hex_char(s0 as u32 as int % 16));
                                let d1 = h1.unwrap();
                                let d2 = h2.unwrap();
                                lemma_hex_char_injective(d1 as int, s0 as u32 as int / 16);
                                lemma_hex_char_injective(d2 as int, s0 as u32 as int % 16);
                                assert(d1 * 16 + d2 == s0 as u32);
                                assert(false);
                            }
                        }
                    }
                    return None;
                }
                let d = match (h1, h2) {
                    (Some(a), Some(b)) => a * 16 + b,
                    _ => 0,
                };
                out.append(control_str(d));
                consumed_end = i + 6;
                proof {
                    reveal_strlit("\\u00");
                    let cc = (d as u8) as char;
                    assert(out@ =~= content.push(cc));
                    assert(cc as int == d);
                    assert(v@.subrange(i as int, i + 4) =~= "\\u00"@);
                    assert(v@.subrange(i as int, i + 6) =~= v@.subrange(i as int, i + 4) + seq![
                        v@[i + 4],
                        v@[i + 5],
                    ]);
                    assert(v@.subrange(i as int, i + 6) =~= spec_escape_char(cc));
                }
            } else {
                proof {
                    assert forall|a: Seq<char>, t: Seq<char>|
                        v@.skip(pos as int) != spec_json_string(a) + t by {
                        if v@.skip(pos as int) == spec_json_string(a) + t {
                            lemma_jstring_step(v@, pos as int, i as int, out@, a, t);
                            lemma_escape_char_shape(a[out@.len() as int]);
                            let s0 = a[out@.len() as int];
                            let ec = spec_escape_char(s0);
                            assert(v@[i as int] == ec[0]);
                            assert(!spec_plain_char(s0));
                            assert(v@[i + 1] == ec[1]);
                            assert(ec[1] == '"' || ec[1] == '\\' || ec[1] == 'u') by {
                                if (s0 as u32) < 32 {
                                    assert(ec[1] == 'u');
                                }
                            }
                            assert(false);
                        }
                    }
                }
                return None;
            }
        } else if (c as u32) < 32 {
            proof {
                assert forall|a: Seq<char>, t: Seq<char>|
                    v@.skip(pos as int) != spec_json_string(a) + t by {
                    if v@.skip(pos as int) == spec_json_string(a) + t {
                        lemma_jstring_step(v@, pos as int, i as int, out@, a, t);
                        lemma_escape_char_shape(a[out@.len() as int]);
                        let s0 = a[out@.len() as int];
                        assert(v@[i as int] == spec_escape_char(s0)[0]);
                        if spec_plain_char(s0) {
                            assert(v@[i as int] == s0);
                        } else {
                            assert(v@[i as int] == '\\');
                        }
                        assert(false);
                    }
                }
            }
            return None;
        } else {
            out.append(s.substring_char(i, i + 1));
            consumed_end = i + 1;
            proof {
                assert(out@ =~= content.push(c));
                assert(v@.subrange(i as int, i + 1) =~= seq![c]);
                assert(v@.subrange(i as int, i + 1) =~= spec_escape_char(c));
            }
        }
        proof {
            assert(out@.drop_last() =~= content);
            assert(v@.subrange(pos as int, consumed_end as int) =~= v@.subrange(
                pos as int,
                i as int,
            ) + v@.subrange(i as int, consumed_end as int));
            assert(v@.subrange(pos as int, consumed_end as int) =~= "\""@ + spec_escape(out@));
            // Any rendered string this text spells stays aligned: the
            // character just rebuilt is its next content character.
            assert forall|a: Seq<char>, t: Seq<char>|
                v@.skip(pos as int) == spec_json_string(a) + t implies (out@.len() <= a.len()
                && out@ == a.take(out@.len() as int)) by {
                lemma_jstring_step(v@, pos as int, i as int, content, a, t);
                lemma_escape_char_shape(a[content.len() as int]);
                let s0 = a[content.len() as int];
                let ec = spec_escape_char(s0);
                assert(v@[i as int] == ec[0]);
                assert(out@.last() == s0) by {
                    if spec_plain_char(s0) {
                        assert(v@[i as int] == s0);
                    } else {
                        assert(v@[i as int] == '\\');
                        assert(v@[i + 1] == ec[1]);
                        if s0 == '"' {
                            assert(ec[1] == '"');
                        } else if s0 == '\\' {
                            assert(ec[1] == '\\');
                        } else {
                            assert(ec[1] == 'u');
                            assert(ec.len() == 6);
                            assert(v@[i + 2] == ec[2] && v@[i + 3] == ec[3]);
                            assert(v@[i + 4] == spec_hex_char(s0 as u32 as int / 16));
                            assert(v@[i + 5] == spec_hex_char(s0 as u32 as int % 16));
                            assert((out@.last() as u32) < 32 && (s0 as u32) < 32);
                            lemma_hex_char_injective(
                                out@.last() as u32 as int / 16,
                                s0 as u32 as int / 16,
                            );
                            lemma_hex_char_injective(
                                out@.last() as u32 as int % 16,
                                s0 as u32 as int % 16,
                            );
                            lemma_char_code_injective(out@.last(), s0);
                        }
                    }
                }
                assert(out@ =~= content.push(s0));
                assert(a.take(content.len() as int + 1) =~= content.push(s0));
            }
        }
        i = consumed_end;
    }
}

/// A canonical digit string (no leading zero) is exactly the decimal
/// rendering of its value.
proof fn lemma_canon_digits(s: Seq<char>)
    requires
        s.len() >= 1,
        forall|i: int| 0 <= i < s.len() ==> spec_is_digit(#[trigger] s[i]),
        s.len() > 1 ==> s[0] != '0',
    ensures
        spec_u32_str(spec_digits_val(s)) =~= s,
        s.len() > 1 ==> spec_digits_val(s) >= 10,
    decreases s.len(),
{
    if s.len() == 1 {
        let e = s.drop_last();
        assert(e.len() == 0);
        assert(spec_digits_val(e) == 0);
        assert(spec_digits_val(s) == s[0] as int - '0' as int);
        assert(spec_u32_str(spec_digits_val(s)) =~= s);
    } else {
        let p = s.drop_last();
        lemma_canon_digits(p);
        let v = spec_digits_val(s);
        let pv = spec_digits_val(p);
        assert(v == pv * 10 + (s.last() as int - '0' as int));
        assert(pv >= 1) by {
            assert(p[0] == s[0]);
            if p.len() == 1 {
                let e = p.drop_last();
                assert(e.len() == 0);
                assert(spec_digits_val(e) == 0);
                assert(pv == p[0] as int - '0' as int);
                assert(p[0] != '0' && spec_is_digit(p[0]));
            }
        }
        assert(v >= 10);
        assert(v / 10 == pv && v % 10 == s.last() as int - '0' as int);
        assert(spec_u32_str(v) =~= spec_u32_str(pv) + seq![spec_digit_char(v % 10)]);
        assert(seq![spec_digit_char(s.last() as int - '0' as int)] =~= seq![s.last()]);
        assert(spec_u32_str(v) =~= s);
    }
}

/// Parse a canonical decimal number at a position, bounded above: the
/// consumed text is exactly the returned value's decimal rendering.
fn parse_canon_u32(v: &Vec<char>, pos: usize, max: u32) -> (r: Option<(u32, usize)>)
    requires
        pos <= v@.len(),
    ensures
        r matches Some((x, j)) ==> pos < j <= v@.len() && v@.subrange(pos as int, j as int)
            == spec_u32_str(x as int) && x <= max && (j == v@.len() || !spec_is_digit(
            v@[j as int],
        )),
        r is None ==> forall|x: int, t: Seq<char>|
            !(0 <= x <= max && v@.skip(pos as int) == spec_u32_str(x) + t && (t.len() == 0
                || !spec_is_digit(t[0]))),
{
    let n = v.len();
    if pos >= n {
        proof {
            assert forall|x: int, t: Seq<char>|
                !(0 <= x <= max && v@.skip(pos as int) == spec_u32_str(x) + t && (t.len() == 0
                    || !spec_is_digit(t[0]))) by {
                if 0 <= x <= max && v@.skip(pos as int) == spec_u32_str(x) + t {
                    lemma_u32_str_digits(x);
                    assert(v@.skip(pos as int).len() == 0);
                    assert(false);
                }
            }
        }
        return None;
    }
    let c = v[pos];
    if c < '0' || c > '9' {
        proof {
            assert forall|x: int, t: Seq<char>|
                !(0 <= x <= max && v@.skip(pos as int) == spec_u32_str(x) + t && (t.len() == 0
                    || !spec_is_digit(t[0]))) by {
                if 0 <= x <= max && v@.skip(pos as int) == spec_u32_str(x) + t {
                    lemma_u32_str_digits(x);
                    assert((spec_u32_str(x) + t)[0] == spec_u32_str(x)[0]);
                    assert(v@.skip(pos as int)[0] == v@[pos as int]);
                    assert(false);
                }
            }
        }
        return None;
    }
    if c == '0' {
        if pos + 1 < n && '0' <= v[pos + 1] && v[pos + 1] <= '9' {
            // A leading zero followed by more digits is no canonical
            // number.
            proof {
                assert forall|x: int, t: Seq<char>|
                    !(0 <= x <= max && v@.skip(pos as int) == spec_u32_str(x) + t && (t.len() == 0
                        || !spec_is_digit(t[0]))) by {
                    if 0 <= x <= max && v@.skip(pos as int) == spec_u32_str(x) + t && (t.len() == 0
                        || !spec_is_digit(t[0])) {
                        lemma_u32_str_digits(x);
                        assert((spec_u32_str(x) + t)[0] == spec_u32_str(x)[0]);
                        assert(v@.skip(pos as int)[0] == v@[pos as int]);
                        assert(v@[pos as int] == spec_u32_str(x)[0]);
                        assert(spec_u32_str(x).len() == 1) by {
                            if spec_u32_str(x).len() > 1 {
                                assert(spec_u32_str(x)[0] != '0');
                            }
                        }
                        assert(t.len() > 0);
                        assert((spec_u32_str(x) + t)[1] == t[0]);
                        assert(v@.skip(pos as int)[1] == v@[pos + 1]);
                        assert(t[0] == v@[pos + 1]);
                        assert(false);
                    }
                }
            }
            return None;
        }
        proof {
            assert(v@.subrange(pos as int, pos + 1) =~= seq!['0']);
            assert(spec_u32_str(0) =~= seq![spec_digit_char(0)]);
        }
        return Some((0, pos + 1));
    }
    let mut acc: u64 = 0;
    let mut i: usize = pos;
    while i < n && '0' <= v[i] && v[i] <= '9'
        invariant
            pos <= i <= n == v@.len(),
            pos < n,
            '1' <= v@[pos as int] <= '9',
            forall|k: int| pos <= k < i ==> spec_is_digit(#[trigger] v@[k]),
            acc <= max,
            acc as int == spec_digits_val(v@.subrange(pos as int, i as int)),
            max <= u32::MAX,
        decreases n - i,
    {
        let d: u64 = (v[i] as u32 - 48) as u64;
        let next: u64 = acc * 10 + d;
        if next > max as u64 {
            // The digit run's value already exceeds the bound, so no
            // bounded number can be written here.
            proof {
                assert forall|x: int, t: Seq<char>|
                    !(0 <= x <= max && v@.skip(pos as int) == spec_u32_str(x) + t && (t.len() == 0
                        || !spec_is_digit(t[0]))) by {
                    if 0 <= x <= max && v@.skip(pos as int) == spec_u32_str(x) + t && (t.len() == 0
                        || !spec_is_digit(t[0])) {
                        lemma_u32_str_digits(x);
                        let sx = spec_u32_str(x);
                        let ln = sx.len() as int;
                        // The scan never runs past the rendered number.
                        assert(i + 1 - pos <= ln) by {
                            if i - pos >= ln {
                                if t.len() == 0 {
                                    assert(v@.skip(pos as int).len() == ln);
                                    assert(false);
                                }
                                assert((spec_u32_str(x) + t)[ln] == t[0]);
                                assert(v@.skip(pos as int)[ln] == v@[pos + ln]);
                                assert(v@[pos + ln] == t[0]);
                                if i - pos == ln {
                                    assert(spec_is_digit(v@[i as int]));
                                } else {
                                    assert(spec_is_digit(v@[pos + ln]));
                                }
                                assert(false);
                            }
                        }
                        // So the value scanned so far is a prefix of it.
                        assert(v@.subrange(pos as int, i + 1) =~= sx.take(i + 1 - pos));
                        assert(v@.subrange(pos as int, i + 1).drop_last() =~= v@.subrange(
                            pos as int,
                            i as int,
                        ));
                        assert(spec_digits_val(sx.take(i + 1 - pos)) == acc * 10 + d);
                        lemma_digits_val_prefix_le(sx, i + 1 - pos);
                        lemma_u32_str_val(x);
                        assert(false);
                    }
                }
            }
            return None;
        }
        proof {
            assert(v@.subrange(pos as int, i + 1).drop_last() =~= v@.subrange(pos as int, i as int));
            assert(v@.subrange(pos as int, i + 1).last() == v@[i as int]);
        }
        acc = next;
        i = i + 1;
    }
    if i == pos {
        proof {
            assert(false);
        }
        return None;
    }
    proof {
        lemma_canon_digits(v@.subrange(pos as int, i as int));
    }
    Some((acc as u32, i))
}



/// Equal sequences with an equal front part have equal back parts.
proof fn lemma_seq_cancel(a: Seq<char>, b: Seq<char>, c: Seq<char>)
    requires
        a + b == a + c,
    ensures
        b == c,
{
    assert(b =~= (a + b).subrange(a.len() as int, (a + b).len() as int));
    assert(c =~= (a + c).subrange(a.len() as int, (a + c).len() as int));
}

/// A rendered number is one or more digits, with no leading zero unless
/// it is the single digit zero.
proof fn lemma_u32_str_digits(v: int)
    requires
        0 <= v,
    ensures
        spec_u32_str(v).len() >= 1,
        forall|i: int| 0 <= i < spec_u32_str(v).len() ==> spec_is_digit(#[trigger] spec_u32_str(v)[i]),
        spec_u32_str(v).len() > 1 ==> spec_u32_str(v)[0] != '0',
    decreases v,
{
    if v >= 10 {
        lemma_u32_str_digits(v / 10);
        assert(forall|i: int|
            0 <= i < spec_u32_str(v / 10).len() ==> #[trigger] spec_u32_str(v)[i] == spec_u32_str(
                v / 10,
            )[i]);
        assert(spec_u32_str(v)[spec_u32_str(v).len() - 1] == spec_digit_char(v % 10));
        if v / 10 < 10 {
            assert(spec_u32_str(v / 10) =~= seq![spec_digit_char(v / 10)]);
            assert(spec_u32_str(v)[0] == spec_digit_char(v / 10));
            assert(1 <= v / 10 <= 9);
        } else {
            lemma_u32_str_digits(v / 100);
            assert(spec_u32_str(v / 10).len() > 1);
            assert(spec_u32_str(v)[0] == spec_u32_str(v / 10)[0]);
        }
    }
}

/// Reading the digits of a rendered number gives the number back.
proof fn lemma_u32_str_val(v: int)
    requires
        0 <= v,
    ensures
        spec_digits_val(spec_u32_str(v)) == v,
    decreases v,
{
    if v < 10 {
        let s = spec_u32_str(v);
        assert(s.drop_last().len() == 0);
        assert(spec_digits_val(s.drop_last()) == 0);
    } else {
        lemma_u32_str_val(v / 10);
        let s = spec_u32_str(v);
        assert(s.drop_last() =~= spec_u32_str(v / 10));
        assert(s.last() == spec_digit_char(v % 10));
    }
}

/// A digit string's value only grows as digits are appended to it.
proof fn lemma_digits_val_prefix_le(s: Seq<char>, k: int)
    requires
        0 <= k <= s.len(),
        forall|i: int| 0 <= i < s.len() ==> spec_is_digit(#[trigger] s[i]),
    ensures
        spec_digits_val(s.take(k)) <= spec_digits_val(s),
    decreases s.len(),
{
    if k < s.len() {
        let p = s.drop_last();
        assert(forall|i: int| 0 <= i < p.len() ==> spec_is_digit(#[trigger] p[i]));
        lemma_digits_val_prefix_le(p, k);
        assert(s.take(k) =~= p.take(k));
        lemma_digits_val_nonneg_chars(p);
        assert(spec_digits_val(s) == spec_digits_val(p) * 10 + (s.last() as int - '0' as int));
    } else {
        assert(s.take(k) =~= s);
    }
}

/// A digit string's value is never negative.
proof fn lemma_digits_val_nonneg_chars(s: Seq<char>)
    requires
        forall|i: int| 0 <= i < s.len() ==> spec_is_digit(#[trigger] s[i]),
    ensures
        spec_digits_val(s) >= 0,
    decreases s.len(),
{
    if s.len() > 0 {
        let p = s.drop_last();
        assert(forall|i: int| 0 <= i < p.len() ==> spec_is_digit(#[trigger] p[i]));
        lemma_digits_val_nonneg_chars(p);
    }
}

/// Two rendered numbers, each followed by text that is empty or starts
/// with a non-digit, only line up when the numbers and the texts are
/// equal.
proof fn lemma_number_prefix(x: int, y: int, r1: Seq<char>, r2: Seq<char>)
    requires
        0 <= x,
        0 <= y,
        spec_u32_str(x) + r1 == spec_u32_str(y) + r2,
        r1.len() == 0 || !spec_is_digit(r1[0]),
        r2.len() == 0 || !spec_is_digit(r2[0]),
    ensures
        x == y,
        r1 == r2,
{
    let sx = spec_u32_str(x);
    let sy = spec_u32_str(y);
    lemma_u32_str_digits(x);
    lemma_u32_str_digits(y);
    if sx.len() < sy.len() {
        assert(r1.len() > 0);
        assert((sx + r1)[sx.len() as int] == r1[0]);
        assert((sy + r2)[sx.len() as int] == sy[sx.len() as int]);
        assert(false);
    }
    if sy.len() < sx.len() {
        assert(r2.len() > 0);
        assert((sy + r2)[sy.len() as int] == r2[0]);
        assert((sx + r1)[sy.len() as int] == sx[sy.len() as int]);
        assert(false);
    }
    assert(sx =~= sy) by {
        assert(forall|i: int| 0 <= i < sx.len() ==> #[trigger] sx[i] == (sx + r1)[i]);
        assert(forall|i: int| 0 <= i < sy.len() ==> #[trigger] sy[i] == (sy + r2)[i]);
    }
    lemma_u32_str_val(x);
    lemma_u32_str_val(y);
    lemma_seq_cancel(sx, r1, r2);
}

/// A character the escaper passes through unchanged.
pub open spec fn spec_plain_char(c: char) -> bool {
    c != '"' && c != '\\' && (c as u32) >= 32
}

/// The escaping of a string, read off its front.
proof fn lemma_escape_left(s: Seq<char>)
    requires
        s.len() > 0,
    ensures
        spec_escape(s) == spec_escape_char(s[0]) + spec_escape(s.drop_first()),
    decreases s.len(),
{
    if s.len() == 1 {
        assert(s.drop_last().len() == 0);
        assert(spec_escape(s.drop_last()) =~= Seq::<char>::empty());
        assert(s.drop_first().len() == 0);
        assert(spec_escape(s.drop_first()) =~= Seq::<char>::empty());
        assert(spec_escape(s) =~= spec_escape_char(s[0]) + spec_escape(s.drop_first()));
    } else {
        let p = s.drop_last();
        lemma_escape_left(p);
        assert(p[0] == s[0]);
        assert(p.drop_first() =~= s.drop_first().drop_last());
        assert(s.drop_first().last() == s.last());
        assert(spec_escape(s) == spec_escape(p) + spec_escape_char(s.last()));
        assert(spec_escape(s.drop_first()) == spec_escape(s.drop_first().drop_last())
            + spec_escape_char(s.drop_first().last()));
        assert(spec_escape(s) =~= spec_escape_char(s[0]) + spec_escape(s.drop_first()));
    }
}

/// What the escaping of one character looks like from outside: plain
/// characters stand alone, everything else opens with a backslash, and no
/// escaping ever opens with a bare quote.
proof fn lemma_escape_char_shape(c: char)
    ensures
        spec_escape_char(c).len() >= 1,
        spec_escape_char(c)[0] != '"',
        spec_plain_char(c) ==> spec_escape_char(c) =~= seq![c],
        !spec_plain_char(c) ==> spec_escape_char(c)[0] == '\\' && spec_escape_char(c).len() >= 2,
        c == '"' ==> spec_escape_char(c) =~= seq!['\\', '"'],
        c == '\\' ==> spec_escape_char(c) =~= seq!['\\', '\\'],
        (c as u32) < 32 ==> spec_escape_char(c) =~= seq![
            '\\',
            'u',
            '0',
            '0',
            spec_hex_char(c as u32 as int / 16),
            spec_hex_char(c as u32 as int % 16),
        ],
{
    reveal_strlit("\\\"");
    reveal_strlit("\\\\");
    reveal_strlit("\\u00");
}

/// Characters with the same code are the same character.
proof fn lemma_char_code_injective(a: char, b: char)
    requires
        a as u32 == b as u32,
    ensures
        a == b,
{
}

/// Hexadecimal digits are distinct.
proof fn lemma_hex_char_injective(d1: int, d2: int)
    requires
        0 <= d1 < 16,
        0 <= d2 < 16,
        spec_hex_char(d1) == spec_hex_char(d2),
    ensures
        d1 == d2,
{
}

/// Escaping distributes over concatenation.
proof fn lemma_escape_concat(x: Seq<char>, y: Seq<char>)
    ensures
        spec_escape(x + y) == spec_escape(x) + spec_escape(y),
    decreases y.len(),
{
    if y.len() == 0 {
        assert(x + y =~= x);
        assert(spec_escape(x) + spec_escape(y) =~= spec_escape(x));
    } else {
        lemma_escape_concat(x, y.drop_last());
        assert((x + y).drop_last() =~= x + y.drop_last());
        assert((x + y).last() == y.last());
        assert(spec_escape(x + y) == spec_escape(x + y.drop_last()) + spec_escape_char(y.last()));
        assert(spec_escape(x) + (spec_escape(y.drop_last()) + spec_escape_char(y.last())) =~= (
        spec_escape(x) + spec_escape(y.drop_last())) + spec_escape_char(y.last()));
        assert(spec_escape(x + y) =~= spec_escape(x) + spec_escape(y));
    }
}

/// While scanning a rendered string, what is left to read is the escaping
/// of the content not yet rebuilt, then the closing quote and the tail.
proof fn lemma_jstring_align(
    v: Seq<char>,
    pos: int,
    i: int,
    out: Seq<char>,
    a: Seq<char>,
    t: Seq<char>,
)
    requires
        0 <= pos < i <= v.len(),
        v.subrange(pos, i) == seq!['"'] + spec_escape(out),
        v.skip(pos) == spec_json_string(a) + t,
        out.len() <= a.len(),
        out == a.take(out.len() as int),
    ensures
        v.subrange(i, v.len() as int) == spec_escape(a.skip(out.len() as int)) + (seq!['"'] + t),
{
    reveal_strlit("\"");
    let k = out.len() as int;
    let suffix = a.skip(k);
    assert(a =~= out + suffix);
    lemma_escape_concat(out, suffix);
    assert(spec_json_string(a) + t =~= (seq!['"'] + spec_escape(out)) + (spec_escape(suffix) + (
    seq!['"'] + t)));
    assert(v.skip(pos) =~= v.subrange(pos, i) + v.subrange(i, v.len() as int));
    lemma_seq_cancel(
        seq!['"'] + spec_escape(out),
        v.subrange(i, v.len() as int),
        spec_escape(suffix) + (seq!['"'] + t),
    );
}

/// Mid-scan, when the next character is no closing quote, some content
/// character is still to be read, and its escaping is pinned byte by byte
/// at the cursor.
proof fn lemma_jstring_step(
    v: Seq<char>,
    pos: int,
    i: int,
    out: Seq<char>,
    a: Seq<char>,
    t: Seq<char>,
)
    requires
        0 <= pos < i <= v.len(),
        v.subrange(pos, i) == seq!['"'] + spec_escape(out),
        v.skip(pos) == spec_json_string(a) + t,
        out.len() <= a.len(),
        out == a.take(out.len() as int),
        i < v.len() ==> v[i] != '"',
    ensures
        out.len() < a.len(),
        i < v.len(),
        v.subrange(i, v.len() as int) == spec_escape_char(a[out.len() as int]) + (spec_escape(
            a.skip(out.len() as int).drop_first(),
        ) + (seq!['"'] + t)),
        forall|k: int|
            0 <= k < spec_escape_char(a[out.len() as int]).len() ==> v[i + k] == #[trigger]
                spec_escape_char(a[out.len() as int])[k],
        v.len() - i >= spec_escape_char(a[out.len() as int]).len() + 1,
{
    lemma_jstring_align(v, pos, i, out, a, t);
    let suffix = a.skip(out.len() as int);
    assert(v.subrange(i, v.len() as int).len() >= 1);
    assert(i < v.len());
    if suffix.len() == 0 {
        assert(spec_escape(suffix) =~= Seq::<char>::empty());
        assert(v.subrange(i, v.len() as int)[0] == '"');
        assert(v[i] == '"');
        assert(false);
    }
    lemma_escape_left(suffix);
    lemma_escape_char_shape(suffix[0]);
    assert(suffix[0] == a[out.len() as int]);
    let ec = spec_escape_char(suffix[0]);
    assert(v.subrange(i, v.len() as int) =~= ec + (spec_escape(suffix.drop_first()) + (seq!['"']
        + t)));
    assert forall|k: int| 0 <= k < ec.len() implies v[i + k] == #[trigger] ec[k] by {
        assert(v.subrange(i, v.len() as int)[k] == (ec + (spec_escape(suffix.drop_first()) + (
        seq!['"'] + t)))[k]);
    }
}

/// Two escaped strings, each closed by a quote, only line up when the
/// strings and what follows the quotes are equal: the escaping is
/// uniquely decodable.
proof fn lemma_escape_determinism(a: Seq<char>, b: Seq<char>, r1: Seq<char>, r2: Seq<char>)
    requires
        spec_escape(a) + (seq!['"'] + r1) == spec_escape(b) + (seq!['"'] + r2),
    ensures
        a == b,
        r1 == r2,
    decreases a.len(),
{
    let q1 = seq!['"'] + r1;
    let q2 = seq!['"'] + r2;
    if a.len() == 0 && b.len() == 0 {
        assert(spec_escape(a) =~= Seq::<char>::empty());
        assert(q1 =~= q2);
        lemma_seq_cancel(seq!['"'], r1, r2);
        assert(a =~= b);
    } else if a.len() == 0 {
        assert(spec_escape(a) =~= Seq::<char>::empty());
        assert((spec_escape(a) + q1)[0] == '"');
        lemma_escape_left(b);
        lemma_escape_char_shape(b[0]);
        assert((spec_escape(b) + q2)[0] == spec_escape_char(b[0])[0]);
        assert(false);
    } else if b.len() == 0 {
        assert(spec_escape(b) =~= Seq::<char>::empty());
        assert((spec_escape(b) + q2)[0] == '"');
        lemma_escape_left(a);
        lemma_escape_char_shape(a[0]);
        assert((spec_escape(a) + q1)[0] == spec_escape_char(a[0])[0]);
        assert(false);
    } else {
        lemma_escape_left(a);
        lemma_escape_left(b);
        lemma_escape_char_shape(a[0]);
        lemma_escape_char_shape(b[0]);
        let ea = spec_escape_char(a[0]);
        let eb = spec_escape_char(b[0]);
        let ta = spec_escape(a.drop_first()) + q1;
        let tb = spec_escape(b.drop_first()) + q2;
        assert(ea + ta == eb + tb) by {
            assert(spec_escape(a) + q1 =~= ea + ta);
            assert(spec_escape(b) + q2 =~= eb + tb);
        }
        assert(forall|i: int| 0 <= i < ea.len() ==> #[trigger] ea[i] == (ea + ta)[i]);
        assert(forall|i: int| 0 <= i < eb.len() ==> #[trigger] eb[i] == (eb + tb)[i]);
        if spec_plain_char(a[0]) && spec_plain_char(b[0]) {
            assert(a[0] == b[0]);
            assert(ea =~= eb);
            lemma_seq_cancel(ea, ta, tb);
            lemma_escape_determinism(a.drop_first(), b.drop_first(), r1, r2);
            assert(a =~= seq![a[0]] + a.drop_first());
            assert(b =~= seq![b[0]] + b.drop_first());
            assert(a == b);
        } else if spec_plain_char(a[0]) {
            assert(ea[0] == a[0] && a[0] != '\\');
            assert(eb[0] == '\\');
            assert(false);
        } else if spec_plain_char(b[0]) {
            assert(eb[0] == b[0] && b[0] != '\\');
            assert(ea[0] == '\\');
            assert(false);
        } else {
            // Both escaped; the second character tells the forms apart.
            assert(ea[1] == (ea + ta)[1] && eb[1] == (eb + tb)[1]);
            if a[0] == '"' || a[0] == '\\' {
                assert(b[0] == '"' || b[0] == '\\') by {
                    if (b[0] as u32) < 32 {
                        assert(eb[1] == 'u');
                        assert(ea[1] == '"' || ea[1] == '\\');
                        assert(false);
                    }
                }
                assert(a[0] == b[0]) by {
                    assert(ea[1] == (if a[0] == '"' {
                        '"'
                    } else {
                        '\\'
                    }));
                    assert(eb[1] == (if b[0] == '"' {
                        '"'
                    } else {
                        '\\'
                    }));
                }
                assert(ea =~= eb);
                lemma_seq_cancel(ea, ta, tb);
                lemma_escape_determinism(a.drop_first(), b.drop_first(), r1, r2);
                assert(a =~= seq![a[0]] + a.drop_first());
                assert(b =~= seq![b[0]] + b.drop_first());
                assert(a == b);
            } else {
                // a[0] is a control character.
                assert((a[0] as u32) < 32);
                assert(ea[1] == 'u');
                assert((b[0] as u32) < 32) by {
                    if b[0] == '"' || b[0] == '\\' {
                        assert(eb[1] == '"' || eb[1] == '\\');
                        assert(false);
                    }
                }
                assert(ea[4] == (ea + ta)[4] && ea[5] == (ea + ta)[5]);
                assert(eb[4] == (eb + tb)[4] && eb[5] == (eb + tb)[5]);
                lemma_hex_char_injective(a[0] as u32 as int / 16, b[0] as u32 as int / 16);
                lemma_hex_char_injective(a[0] as u32 as int % 16, b[0] as u32 as int % 16);
                assert(a[0] as u32 == b[0] as u32) by {
                    assert(a[0] as u32 as int / 16 == b[0] as u32 as int / 16);
                    assert(a[0] as u32 as int % 16 == b[0] as u32 as int % 16);
                    assert(a[0] as u32 as int == 16 * (a[0] as u32 as int / 16) + a[0] as u32 as int
                        % 16);
                    assert(b[0] as u32 as int == 16 * (b[0] as u32 as int / 16) + b[0] as u32 as int
                        % 16);
                }
                lemma_char_code_injective(a[0], b[0]);
                assert(ea =~= eb);
                lemma_seq_cancel(ea, ta, tb);
                lemma_escape_determinism(a.drop_first(), b.drop_first(), r1, r2);
                assert(a =~= seq![a[0]] + a.drop_first());
                assert(b =~= seq![b[0]] + b.drop_first());
                assert(a == b);
            }
        }
    }
}

/// Two rendered strings, followed by anything, only line up when the
/// strings and the texts after them are equal.
proof fn lemma_jstring_prefix(a: Seq<char>, b: Seq<char>, r1: Seq<char>, r2: Seq<char>)
    requires
        spec_json_string(a) + r1 == spec_json_string(b) + r2,
    ensures
        a == b,
        r1 == r2,
{
    reveal_strlit("\"");
    assert(spec_escape(a) + (seq!['"'] + r1) == spec_escape(b) + (seq!['"'] + r2)) by {
        assert(spec_json_string(a) + r1 =~= seq!['"'] + (spec_escape(a) + (seq!['"'] + r1)));
        assert(spec_json_string(b) + r2 =~= seq!['"'] + (spec_escape(b) + (seq!['"'] + r2)));
        lemma_seq_cancel(
            seq!['"'],
            spec_escape(a) + (seq!['"'] + r1),
            spec_escape(b) + (seq!['"'] + r2),
        );
    }
    lemma_escape_determinism(a, b, r1, r2);
}

/// The accents array, read off its front.
proof fn lemma_accents_left(l: Seq<AccentLevel>)
    requires
        l.len() > 0,
    ensures
        spec_json_accents(l) == spec_u32_str(spec_accent_ordinal(l[0])) + (if l.len() == 1 {
            Seq::<char>::empty()
        } else {
            ","@ + spec_json_accents(l.drop_first())
        }),
    decreases l.len(),
{
    if l.len() == 1 {
        assert(spec_json_accents(l) =~= spec_u32_str(spec_accent_ordinal(l[0]))
            + Seq::<char>::empty());
    } else {
        let p = l.drop_last();
        lemma_accents_left(p);
        assert(p[0] == l[0]);
        assert(p.drop_first() =~= l.drop_first().drop_last());
        assert(l.drop_first().last() == l.last());
        if p.len() == 1 {
            assert(l.drop_first().len() == 1);
            assert(spec_json_accents(l) =~= spec_u32_str(spec_accent_ordinal(l[0])) + (","@
                + spec_json_accents(l.drop_first())));
        } else {
            assert(spec_json_accents(l) =~= spec_u32_str(spec_accent_ordinal(l[0])) + (","@
                + spec_json_accents(l.drop_first())));
        }
    }
}

/// An accent ordinal renders as its single digit.
proof fn lemma_accent_item_shape(a: AccentLevel)
    ensures
        spec_u32_str(spec_accent_ordinal(a)).len() == 1,
        spec_u32_str(spec_accent_ordinal(a))[0] == spec_digit_char(spec_accent_ordinal(a)),
        spec_u32_str(spec_accent_ordinal(a))[0] == '1' || spec_u32_str(spec_accent_ordinal(a))[0]
            == '2' || spec_u32_str(spec_accent_ordinal(a))[0] == '3',
{
}

/// Two rendered accents arrays, each followed by a closing bracket, only
/// line up when the levels and what follows are equal.
proof fn lemma_accents_prefix(l1: Seq<AccentLevel>, l2: Seq<AccentLevel>, r1: Seq<char>, r2: Seq<
    char,
>)
    requires
        spec_json_accents(l1) + r1 == spec_json_accents(l2) + r2,
        r1.len() > 0,
        r2.len() > 0,
        r1[0] == ']',
        r2[0] == ']',
    ensures
        l1 == l2,
        r1 == r2,
    decreases l1.len(),
{
    reveal_strlit(",");
    if l1.len() == 0 && l2.len() == 0 {
        assert(spec_json_accents(l1) =~= Seq::<char>::empty());
        assert(r1 =~= r2);
        assert(l1 =~= l2);
    } else if l1.len() == 0 {
        assert(spec_json_accents(l1) =~= Seq::<char>::empty());
        lemma_accents_left(l2);
        lemma_accent_item_shape(l2[0]);
        assert((spec_json_accents(l2) + r2)[0] == spec_u32_str(spec_accent_ordinal(l2[0]))[0]);
        assert((spec_json_accents(l1) + r1)[0] == ']');
        assert(false);
    } else if l2.len() == 0 {
        assert(spec_json_accents(l2) =~= Seq::<char>::empty());
        lemma_accents_left(l1);
        lemma_accent_item_shape(l1[0]);
        assert((spec_json_accents(l1) + r1)[0] == spec_u32_str(spec_accent_ordinal(l1[0]))[0]);
        assert((spec_json_accents(l2) + r2)[0] == ']');
        assert(false);
    } else {
        lemma_accents_left(l1);
        lemma_accents_left(l2);
        lemma_accent_item_shape(l1[0]);
        lemma_accent_item_shape(l2[0]);
        let i1 = spec_u32_str(spec_accent_ordinal(l1[0]));
        let i2 = spec_u32_str(spec_accent_ordinal(l2[0]));
        let t1 = (if l1.len() == 1 {
            Seq::<char>::empty()
        } else {
            ","@ + spec_json_accents(l1.drop_first())
        }) + r1;
        let t2 = (if l2.len() == 1 {
            Seq::<char>::empty()
        } else {
            ","@ + spec_json_accents(l2.drop_first())
        }) + r2;
        assert(i1 + t1 == i2 + t2) by {
            assert(spec_json_accents(l1) + r1 =~= i1 + t1);
            assert(spec_json_accents(l2) + r2 =~= i2 + t2);
        }
        assert(i1[0] == (i1 + t1)[0] && i2[0] == (i2 + t2)[0]);
        assert(l1[0] == l2[0]);
        assert(i1 =~= i2);
        lemma_seq_cancel(i1, t1, t2);
        if l1.len() == 1 && l2.len() == 1 {
            assert(r1 =~= t1 && r2 =~= t2);
            assert(l1 =~= l2);
        } else if l1.len() == 1 {
            assert(t1[0] == r1[0]);
            assert(t2[0] == (","@ + spec_json_accents(l2.drop_first()))[0]);
            assert(t2[0] == ',');
            assert(false);
        } else if l2.len() == 1 {
            assert(t2[0] == r2[0]);
            assert(t1[0] == (","@ + spec_json_accents(l1.drop_first()))[0]);
            assert(t1[0] == ',');
            assert(false);
        } else {
            assert((","@ + spec_json_accents(l1.drop_first())) + r1 == (","@ + spec_json_accents(
                l2.drop_first(),
            )) + r2) by {
                assert(t1 =~= (","@ + spec_json_accents(l1.drop_first())) + r1);
                assert(t2 =~= (","@ + spec_json_accents(l2.drop_first())) + r2);
            }
            assert(","@ + (spec_json_accents(l1.drop_first()) + r1) == ","@ + (spec_json_accents(
                l2.drop_first(),
            ) + r2)) by {
                assert((","@ + spec_json_accents(l1.drop_first())) + r1 =~= ","@ + (
                spec_json_accents(l1.drop_first()) + r1));
                assert((","@ + spec_json_accents(l2.drop_first())) + r2 =~= ","@ + (
                spec_json_accents(l2.drop_first()) + r2));
            }
            lemma_seq_cancel(
                ","@,
                spec_json_accents(l1.drop_first()) + r1,
                spec_json_accents(l2.drop_first()) + r2,
            );
            lemma_accents_prefix(l1.drop_first(), l2.drop_first(), r1, r2);
            assert(l1 =~= seq![l1[0]] + l1.drop_first());
            assert(l2 =~= seq![l2[0]] + l2.drop_first());
            assert(l1 == l2);
        }
    }
}

/// A rendered note object with a tail, re-grouped field by field.
proof fn lemma_note_obj_reassoc(n: Note, r: Seq<char>)
    ensures
        spec_json_note(n) + r == "{\"pitch\":"@ + (spec_u32_str(n.pitch as int) + (
        ",\"start_tick\":"@ + (spec_u32_str(n.start_tick as int) + (",\"duration_ticks\":"@ + (
        spec_u32_str(n.duration_ticks as int) + (",\"velocity\":"@ + (spec_u32_str(
            n.velocity as int,
        ) + (",\"voice\":"@ + (spec_u32_str(n.voice as int) + ("}"@ + r)))))))))),
{
    broadcast use vstd::seq_lib::group_seq_properties;

    let p1 = "{\"pitch\":"@;
    let v1 = spec_u32_str(n.pitch as int);
    let p2 = ",\"start_tick\":"@;
    let v2 = spec_u32_str(n.start_tick as int);
    let p3 = ",\"duration_ticks\":"@;
    let v3 = spec_u32_str(n.duration_ticks as int);
    let p4 = ",\"velocity\":"@;
    let v4 = spec_u32_str(n.velocity as int);
    let p5 = ",\"voice\":"@;
    let v5 = spec_u32_str(n.voice as int);
    let p6 = "}"@;
    vstd::seq_lib::lemma_concat_associative(
        p1 + v1 + p2 + v2 + p3 + v3 + p4 + v4 + p5 + v5,
        p6,
        r,
    );
    vstd::seq_lib::lemma_concat_associative(
        p1 + v1 + p2 + v2 + p3 + v3 + p4 + v4 + p5,
        v5,
        p6 + r,
    );
    vstd::seq_lib::lemma_concat_associative(
        p1 + v1 + p2 + v2 + p3 + v3 + p4 + v4,
        p5,
        v5 + (p6 + r),
    );
    vstd::seq_lib::lemma_concat_associative(
        p1 + v1 + p2 + v2 + p3 + v3 + p4,
        v4,
        p5 + (v5 + (p6 + r)),
    );
    vstd::seq_lib::lemma_concat_associative(
        p1 + v1 + p2 + v2 + p3 + v3,
        p4,
        v4 + (p5 + (v5 + (p6 + r))),
    );
    vstd::seq_lib::lemma_concat_associative(
        p1 + v1 + p2 + v2 + p3,
        v3,
        p4 + (v4 + (p5 + (v5 + (p6 + r)))),
    );
    vstd::seq_lib::lemma_concat_associative(
        p1 + v1 + p2 + v2,
        p3,
        v3 + (p4 + (v4 + (p5 + (v5 + (p6 + r))))),
    );
    vstd::seq_lib::lemma_concat_associative(
        p1 + v1 + p2,
        v2,
        p3 + (v3 + (p4 + (v4 + (p5 + (v5 + (p6 + r)))))),
    );
    vstd::seq_lib::lemma_concat_associative(
        p1 + v1,
        p2,
        v2 + (p3 + (v3 + (p4 + (v4 + (p5 + (v5 + (p6 + r))))))),
    );
    vstd::seq_lib::lemma_concat_associative(
        p1,
        v1,
        p2 + (v2 + (p3 + (v3 + (p4 + (v4 + (p5 + (v5 + (p6 + r)))))))),
    );
}

/// Two rendered note objects, followed by anything, only line up when the
/// notes and the texts after them are equal.
#[verifier::rlimit(100)]
proof fn lemma_note_obj_prefix(n1: Note, n2: Note, r1: Seq<char>, r2: Seq<char>)
    requires
        spec_json_note(n1) + r1 == spec_json_note(n2) + r2,
    ensures
        n1 == n2,
        r1 == r2,
{
    reveal_strlit("{\"pitch\":");
    reveal_strlit(",\"start_tick\":");
    reveal_strlit(",\"duration_ticks\":");
    reveal_strlit(",\"velocity\":");
    reveal_strlit(",\"voice\":");
    reveal_strlit("}");
    let l1 = "{\"pitch\":"@;
    let l2 = ",\"start_tick\":"@;
    let l3 = ",\"duration_ticks\":"@;
    let l4 = ",\"velocity\":"@;
    let l5 = ",\"voice\":"@;
    let l6 = "}"@;

    let k1 = spec_u32_str(n1.voice as int) + (l6 + r1);
    let k2 = spec_u32_str(n2.voice as int) + (l6 + r2);
    let g1 = spec_u32_str(n1.velocity as int) + (l5 + k1);
    let g2 = spec_u32_str(n2.velocity as int) + (l5 + k2);
    let e1 = spec_u32_str(n1.duration_ticks as int) + (l4 + g1);
    let e2 = spec_u32_str(n2.duration_ticks as int) + (l4 + g2);
    let c1 = spec_u32_str(n1.start_tick as int) + (l3 + e1);
    let c2 = spec_u32_str(n2.start_tick as int) + (l3 + e2);
    let a1 = spec_u32_str(n1.pitch as int) + (l2 + c1);
    let a2 = spec_u32_str(n2.pitch as int) + (l2 + c2);

    lemma_note_obj_reassoc(n1, r1);
    lemma_note_obj_reassoc(n2, r2);
    lemma_seq_cancel(l1, a1, a2);

    assert((l2 + c1)[0] == ',' && (l2 + c2)[0] == ',');
    lemma_number_prefix(n1.pitch as int, n2.pitch as int, l2 + c1, l2 + c2);
    lemma_seq_cancel(l2, c1, c2);

    assert((l3 + e1)[0] == ',' && (l3 + e2)[0] == ',');
    lemma_number_prefix(n1.start_tick as int, n2.start_tick as int, l3 + e1, l3 + e2);
    lemma_seq_cancel(l3, e1, e2);

    assert((l4 + g1)[0] == ',' && (l4 + g2)[0] == ',');
    lemma_number_prefix(n1.duration_ticks as int, n2.duration_ticks as int, l4 + g1, l4 + g2);
    lemma_seq_cancel(l4, g1, g2);

    assert((l5 + k1)[0] == ',' && (l5 + k2)[0] == ',');
    lemma_number_prefix(n1.velocity as int, n2.velocity as int, l5 + k1, l5 + k2);
    lemma_seq_cancel(l5, k1, k2);

    assert((l6 + r1)[0] == '}' && (l6 + r2)[0] == '}');
    lemma_number_prefix(n1.voice as int, n2.voice as int, l6 + r1, l6 + r2);
    lemma_seq_cancel(l6, r1, r2);
}

/// The notes array, read off its front.
proof fn lemma_notes_left(l: Seq<Note>)
    requires
        l.len() > 0,
    ensures
        spec_json_notes(l) == spec_json_note(l[0]) + (if l.len() == 1 {
            Seq::<char>::empty()
        } else {
            ","@ + spec_json_notes(l.drop_first())
        }),
    decreases l.len(),
{
    if l.len() == 1 {
        assert(spec_json_notes(l) =~= spec_json_note(l[0]) + Seq::<char>::empty());
    } else {
        let p = l.drop_last();
        lemma_notes_left(p);
        assert(p[0] == l[0]);
        assert(p.drop_first() =~= l.drop_first().drop_last());
        assert(l.drop_first().last() == l.last());
        assert(spec_json_notes(l) =~= spec_json_note(l[0]) + (","@ + spec_json_notes(
            l.drop_first(),
        )));
    }
}

/// Two rendered notes arrays, each followed by a closing bracket, only
/// line up when the notes and what follows are equal.
#[verifier::rlimit(100)]
proof fn lemma_notes_prefix(l1: Seq<Note>, l2: Seq<Note>, r1: Seq<char>, r2: Seq<char>)
    requires
        spec_json_notes(l1) + r1 == spec_json_notes(l2) + r2,
        r1.len() > 0,
        r2.len() > 0,
        r1[0] == ']',
        r2[0] == ']',
    ensures
        l1 == l2,
        r1 == r2,
    decreases l1.len(),
{
    reveal_strlit(",");
    reveal_strlit("{\"pitch\":");
    if l1.len() == 0 && l2.len() == 0 {
        assert(spec_json_notes(l1) =~= Seq::<char>::empty());
        assert(r1 =~= r2);
        assert(l1 =~= l2);
    } else if l1.len() == 0 {
        assert(spec_json_notes(l1) =~= Seq::<char>::empty());
        lemma_notes_left(l2);
        assert((spec_json_notes(l2) + r2)[0] == spec_json_note(l2[0])[0]);
        assert(spec_json_note(l2[0])[0] == '{');
        assert((spec_json_notes(l1) + r1)[0] == ']');
        assert(false);
    } else if l2.len() == 0 {
        assert(spec_json_notes(l2) =~= Seq::<char>::empty());
        lemma_notes_left(l1);
        assert((spec_json_notes(l1) + r1)[0] == spec_json_note(l1[0])[0]);
        assert(spec_json_note(l1[0])[0] == '{');
        assert((spec_json_notes(l2) + r2)[0] == ']');
        assert(false);
    } else {
        lemma_notes_left(l1);
        lemma_notes_left(l2);
        let t1 = (if l1.len() == 1 {
            Seq::<char>::empty()
        } else {
            ","@ + spec_json_notes(l1.drop_first())
        }) + r1;
        let t2 = (if l2.len() == 1 {
            Seq::<char>::empty()
        } else {
            ","@ + spec_json_notes(l2.drop_first())
        }) + r2;
        assert(spec_json_note(l1[0]) + t1 == spec_json_note(l2[0]) + t2) by {
            vstd::seq_lib::lemma_concat_associative(
                spec_json_note(l1[0]),
                (if l1.len() == 1 {
                    Seq::<char>::empty()
                } else {
                    ","@ + spec_json_notes(l1.drop_first())
                }),
                r1,
            );
            vstd::seq_lib::lemma_concat_associative(
                spec_json_note(l2[0]),
                (if l2.len() == 1 {
                    Seq::<char>::empty()
                } else {
                    ","@ + spec_json_notes(l2.drop_first())
                }),
                r2,
            );
        }
        lemma_note_obj_prefix(l1[0], l2[0], t1, t2);
        if l1.len() == 1 && l2.len() == 1 {
            assert(r1 =~= t1 && r2 =~= t2);
            assert(l1 =~= l2);
        } else if l1.len() == 1 {
            assert(t1[0] == r1[0]);
            assert(t2[0] == ',');
            assert(false);
        } else if l2.len() == 1 {
            assert(t2[0] == r2[0]);
            assert(t1[0] == ',');
            assert(false);
        } else {
            assert(","@ + (spec_json_notes(l1.drop_first()) + r1) == ","@ + (spec_json_notes(
                l2.drop_first(),
            ) + r2)) by {
                vstd::seq_lib::lemma_concat_associative(
                    ","@,
                    spec_json_notes(l1.drop_first()),
                    r1,
                );
                vstd::seq_lib::lemma_concat_associative(
                    ","@,
                    spec_json_notes(l2.drop_first()),
                    r2,
                );
            }
            lemma_seq_cancel(
                ","@,
                spec_json_notes(l1.drop_first()) + r1,
                spec_json_notes(l2.drop_first()) + r2,
            );
            lemma_notes_prefix(l1.drop_first(), l2.drop_first(), r1, r2);
            assert(l1 =~= seq![l1[0]] + l1.drop_first());
            assert(l2 =~= seq![l2[0]] + l2.drop_first());
            assert(l1 == l2);
        }
    }
}

/// The nine scale-type names are pairwise distinct.
proof fn lemma_scale_name_injective(a: ScaleType, b: ScaleType)
    requires
        ScaleType::spec_name(a) == ScaleType::spec_name(b),
    ensures
        a == b,
{
    reveal_strlit("Major");
    reveal_strlit("Natural Minor");
    reveal_strlit("Harmonic Minor");
    reveal_strlit("Melodic Minor");
    reveal_strlit("Dorian");
    reveal_strlit("Phrygian");
    reveal_strlit("Lydian");
    reveal_strlit("Mixolydian");
    reveal_strlit("Locrian");
    if a != b {
        match a {
            ScaleType::Major => match b {
                ScaleType::Major => {},
                ScaleType::NaturalMinor => {
                    assert(ScaleType::spec_name(a).len() == 5);
                    assert(ScaleType::spec_name(b).len() == 13);
                    assert(false);
                },
                ScaleType::HarmonicMinor => {
                    assert(ScaleType::spec_name(a).len() == 5);
                    assert(ScaleType::spec_name(b).len() == 14);
                    assert(false);
                },
                ScaleType::MelodicMinor => {
                    assert(ScaleType::spec_name(a).len() == 5);
                    assert(ScaleType::spec_name(b).len() == 13);
                    assert(false);
                },
                ScaleType::Dorian => {
                    assert(ScaleType::spec_name(a).len() == 5);
                    assert(ScaleType::spec_name(b).len() == 6);
                    assert(false);
                },
                ScaleType::Phrygian => {
                    assert(ScaleType::spec_name(a).len() == 5);
                    assert(ScaleType::spec_name(b).len() == 8);
                    assert(false);
                },
                ScaleType::Lydian => {
                    assert(ScaleType::spec_name(a).len() == 5);
                    assert(ScaleType::spec_name(b).len() == 6);
                    assert(false);
                },
                ScaleType::Mixolydian => {
                    assert(ScaleType::spec_name(a).len() == 5);
                    assert(ScaleType::spec_name(b).len() == 10);
                    assert(false);
                },
                ScaleType::Locrian => {
                    assert(ScaleType::spec_name(a).len() == 5);
                    assert(ScaleType::spec_name(b).len() == 7);
                    assert(false);
                },
            },
            ScaleType::NaturalMinor => match b {
                ScaleType::Major => {
                    assert(ScaleType::spec_name(a).len() == 13);
                    assert(ScaleType::spec_name(b).len() == 5);
                    assert(false);
                },
                ScaleType::NaturalMinor => {},
                ScaleType::HarmonicMinor => {
                    assert(ScaleType::spec_name(a).len() == 13);
                    assert(ScaleType::spec_name(b).len() == 14);
                    assert(false);
                },
                ScaleType::MelodicMinor => {
                    assert(ScaleType::spec_name(a).len() == 13);
                    assert(ScaleType::spec_name(b).len() == 13);
                    assert(ScaleType::spec_name(a)[0] == 'N');
                    assert(ScaleType::spec_name(b)[0] == 'M');
                    assert(false);
                },
                ScaleType::Dorian => {
                    assert(ScaleType::spec_name(a).len() == 13);
                    assert(ScaleType::spec_name(b).len() == 6);
                    assert(false);
                },
                ScaleType::Phrygian => {
                    assert(ScaleType::spec_name(a).len() == 13);
                    assert(ScaleType::spec_name(b).len() == 8);
                    assert(false);
                },
                ScaleType::Lydian => {
                    assert(ScaleType::spec_name(a).len() == 13);
                    assert(ScaleType::spec_name(b).len() == 6);
                    assert(false);
                },
                ScaleType::Mixolydian => {
                    assert(ScaleType::spec_name(a).len() == 13);
                    assert(ScaleType::spec_name(b).len() == 10);
                    assert(false);
                },
                ScaleType::Locrian => {
                    assert(ScaleType::spec_name(a).len() == 13);
                    assert(ScaleType::spec_name(b).len() == 7);
                    assert(false);
                },
            },
            ScaleType::HarmonicMinor => match b {
                ScaleType::Major => {
                    assert(ScaleType::spec_name(a).len() == 14);
                    assert(ScaleType::spec_name(b).len() == 5);
                    assert(false);
                },
                ScaleType::NaturalMinor => {
                    assert(ScaleType::spec_name(a).len() == 14);
                    assert(ScaleType::spec_name(b).len() == 13);
                    assert(false);
                },
                ScaleType::HarmonicMinor => {},
                ScaleType::MelodicMinor => {
                    assert(ScaleType::spec_name(a).len() == 14);
                    assert(ScaleType::spec_name(b).len() == 13);
                    assert(false);
                },
                ScaleType::Dorian => {
                    assert(ScaleType::spec_name(a).len() == 14);
                    assert(ScaleType::spec_name(b).len() == 6);
                    assert(false);
                },
                ScaleType::Phrygian => {
                    assert(ScaleType::spec_name(a).len() == 14);
                    assert(ScaleType::spec_name(b).len() == 8);
                    assert(false);
                },
                ScaleType::Lydian => {
                    assert(ScaleType::spec_name(a).len() == 14);
                    assert(ScaleType::spec_name(b).len() == 6);
                    assert(false);
                },
                ScaleType::Mixolydian => {
                    assert(ScaleType::spec_name(a).len() == 14);
                    assert(ScaleType::spec_name(b).len() == 10);
                    assert(false);
                },
                ScaleType::Locrian => {
                    assert(ScaleType::spec_name(a).len() == 14);
                    assert(ScaleType::spec_name(b).len() == 7);
                    assert(false);
                },
            },
            ScaleType::MelodicMinor => match b {
                ScaleType::Major => {
                    assert(ScaleType::spec_name(a).len() == 13);
                    assert(ScaleType::spec_name(b).len() == 5);
                    assert(false);
                },
                ScaleType::NaturalMinor => {
                    assert(ScaleType::spec_name(a).len() == 13);
                    assert(ScaleType::spec_name(b).len() == 13);
                    assert(ScaleType::spec_name(a)[0] == 'M');
                    assert(ScaleType::spec_name(b)[0] == 'N');
                    assert(false);
                },
                ScaleType::HarmonicMinor => {
                    assert(ScaleType::spec_name(a).len() == 13);
                    assert(ScaleType::spec_name(b).len() == 14);
                    assert(false);
                },
                ScaleType::MelodicMinor => {},
                ScaleType::Dorian => {
                    assert(ScaleType::spec_name(a).len() == 13);
                    assert(ScaleType::spec_name(b).len() == 6);
                    assert(false);
                },
                ScaleType::Phrygian => {
                    assert(ScaleType::spec_name(a).len() == 13);
                    assert(ScaleType::spec_name(b).len() == 8);
                    assert(false);
                },
                ScaleType::Lydian => {
                    assert(ScaleType::spec_name(a).len() == 13);
                    assert(ScaleType::spec_name(b).len() == 6);
                    assert(false);
                },
                ScaleType::Mixolydian => {
                    assert(ScaleType::spec_name(a).len() == 13);
                    assert(ScaleType::spec_name(b).len() == 10);
                    assert(false);
                },
                ScaleType::Locrian => {
                    assert(ScaleType::spec_name(a).len() == 13);
                    assert(ScaleType::spec_name(b).len() == 7);
                    assert(false);
                },
            },
            ScaleType::Dorian => match b {
                ScaleType::Major => {
                    assert(ScaleType::spec_name(a).len() == 6);
                    assert(ScaleType::spec_name(b).len() == 5);
                    assert(false);
                },
                ScaleType::NaturalMinor => {
                    assert(ScaleType::spec_name(a).len() == 6);
                    assert(ScaleType::spec_name(b).len() == 13);
                    assert(false);
                },
                ScaleType::HarmonicMinor => {
                    assert(ScaleType::spec_name(a).len() == 6);
                    assert(ScaleType::spec_name(b).len() == 14);
                    assert(false);
                },
                ScaleType::MelodicMinor => {
                    assert(ScaleType::spec_name(a).len() == 6);
                    assert(ScaleType::spec_name(b).len() == 13);
                    assert(false);
                },
                ScaleType::Dorian => {},
                ScaleType::Phrygian => {
                    assert(ScaleType::spec_name(a).len() == 6);
                    assert(ScaleType::spec_name(b).len() == 8);
                    assert(false);
                },
                ScaleType::Lydian => {
                    assert(ScaleType::spec_name(a).len() == 6);
                    assert(ScaleType::spec_name(b).len() == 6);
                    assert(ScaleType::spec_name(a)[0] == 'D');
                    assert(ScaleType::spec_name(b)[0] == 'L');
                    assert(false);
                },
                ScaleType::Mixolydian => {
                    assert(ScaleType::spec_name(a).len() == 6);
                    assert(ScaleType::spec_name(b).len() == 10);
                    assert(false);
                },
                ScaleType::Locrian => {
                    assert(ScaleType::spec_name(a).len() == 6);
                    assert(ScaleType::spec_name(b).len() == 7);
                    assert(false);
                },
            },
            ScaleType::Phrygian => match b {
                ScaleType::Major => {
                    assert(ScaleType::spec_name(a).len() == 8);
                    assert(ScaleType::spec_name(b).len() == 5);
                    assert(false);
                },
                ScaleType::NaturalMinor => {
                    assert(ScaleType::spec_name(a).len() == 8);
                    assert(ScaleType::spec_name(b).len() == 13);
                    assert(false);
                },
                ScaleType::HarmonicMinor => {
                    assert(ScaleType::spec_name(a).len() == 8);
                    assert(ScaleType::spec_name(b).len() == 14);
                    assert(false);
                },
                ScaleType::MelodicMinor => {
                    assert(ScaleType::spec_name(a).len() == 8);
                    assert(ScaleType::spec_name(b).len() == 13);
                    assert(false);
                },
                ScaleType::Dorian => {
                    assert(ScaleType::spec_name(a).len() == 8);
                    assert(ScaleType::spec_name(b).len() == 6);
                    assert(false);
                },
                ScaleType::Phrygian => {},
                ScaleType::Lydian => {
                    assert(ScaleType::spec_name(a).len() == 8);
                    assert(ScaleType::spec_name(b).len() == 6);
                    assert(false);
                },
                ScaleType::Mixolydian => {
                    assert(ScaleType::spec_name(a).len() == 8);
                    assert(ScaleType::spec_name(b).len() == 10);
                    assert(false);
                },
                ScaleType::Locrian => {
                    assert(ScaleType::spec_name(a).len() == 8);
                    assert(ScaleType::spec_name(b).len() == 7);
                    assert(false);
                },
            },
            ScaleType::Lydian => match b {
                ScaleType::Major => {
                    assert(ScaleType::spec_name(a).len() == 6);
                    assert(ScaleType::spec_name(b).len() == 5);
                    assert(false);
                },
                ScaleType::NaturalMinor => {
                    assert(ScaleType::spec_name(a).len() == 6);
                    assert(ScaleType::spec_name(b).len() == 13);
                    assert(false);
                },
                ScaleType::HarmonicMinor => {
                    assert(ScaleType::spec_name(a).len() == 6);
                    assert(ScaleType::spec_name(b).len() == 14);
                    assert(false);
                },
                ScaleType::MelodicMinor => {
                    assert(ScaleType::spec_name(a).len() == 6);
                    assert(ScaleType::spec_name(b).len() == 13);
                    assert(false);
                },
                ScaleType::Dorian => {
                    assert(ScaleType::spec_name(a).len() == 6);
                    assert(ScaleType::spec_name(b).len() == 6);
                    assert(ScaleType::spec_name(a)[0] == 'L');
                    assert(ScaleType::spec_name(b)[0] == 'D');
                    assert(false);
                },
                ScaleType::Phrygian => {
                    assert(ScaleType::spec_name(a).len() == 6);
                    assert(ScaleType::spec_name(b).len() == 8);
                    assert(false);
                },
                ScaleType::Lydian => {},
                ScaleType::Mixolydian => {
                    assert(ScaleType::spec_name(a).len() == 6);
                    assert(ScaleType::spec_name(b).len() == 10);
                    assert(false);
                },
                ScaleType::Locrian => {
                    assert(ScaleType::spec_name(a).len() == 6);
                    assert(ScaleType::spec_name(b).len() == 7);
                    assert(false);
                },
            },
            ScaleType::Mixolydian => match b {
                ScaleType::Major => {
                    assert(ScaleType::spec_name(a).len() == 10);
                    assert(ScaleType::spec_name(b).len() == 5);
                    assert(false);
                },
                ScaleType::NaturalMinor => {
                    assert(ScaleType::spec_name(a).len() == 10);
                    assert(ScaleType::spec_name(b).len() == 13);
                    assert(false);
                },
                ScaleType::HarmonicMinor => {
                    assert(ScaleType::spec_name(a).len() == 10);
                    assert(ScaleType::spec_name(b).len() == 14);
                    assert(false);
                },
                ScaleType::MelodicMinor => {
                    assert(ScaleType::spec_name(a).len() == 10);
                    assert(ScaleType::spec_name(b).len() == 13);
                    assert(false);
                },
                ScaleType::Dorian => {
                    assert(ScaleType::spec_name(a).len() == 10);
                    assert(ScaleType::spec_name(b).len() == 6);
                    assert(false);
                },
                ScaleType::Phrygian => {
                    assert(ScaleType::spec_name(a).len() == 10);
                    assert(ScaleType::spec_name(b).len() == 8);
                    assert(false);
                },
                ScaleType::Lydian => {
                    assert(ScaleType::spec_name(a).len() == 10);
                    assert(ScaleType::spec_name(b).len() == 6);
                    assert(false);
                },
                ScaleType::Mixolydian => {},
                ScaleType::Locrian => {
                    assert(ScaleType::spec_name(a).len() == 10);
                    assert(ScaleType::spec_name(b).len() == 7);
                    assert(false);
                },
            },
            ScaleType::Locrian => match b {
                ScaleType::Major => {
                    assert(ScaleType::spec_name(a).len() == 7);
                    assert(ScaleType::spec_name(b).len() == 5);
                    assert(false);
                },
                ScaleType::NaturalMinor => {
                    assert(ScaleType::spec_name(a).len() == 7);
                    assert(ScaleType::spec_name(b).len() == 13);
                    assert(false);
                },
                ScaleType::HarmonicMinor => {
                    assert(ScaleType::spec_name(a).len() == 7);
                    assert(ScaleType::spec_name(b).len() == 14);
                    assert(false);
                },
                ScaleType::MelodicMinor => {
                    assert(ScaleType::spec_name(a).len() == 7);
                    assert(ScaleType::spec_name(b).len() == 13);
                    assert(false);
                },
                ScaleType::Dorian => {
                    assert(ScaleType::spec_name(a).len() == 7);
                    assert(ScaleType::spec_name(b).len() == 6);
                    assert(false);
                },
                ScaleType::Phrygian => {
                    assert(ScaleType::spec_name(a).len() == 7);
                    assert(ScaleType::spec_name(b).len() == 8);
                    assert(false);
                },
                ScaleType::Lydian => {
                    assert(ScaleType::spec_name(a).len() == 7);
                    assert(ScaleType::spec_name(b).len() == 6);
                    assert(false);
                },
                ScaleType::Mixolydian => {
                    assert(ScaleType::spec_name(a).len() == 7);
                    assert(ScaleType::spec_name(b).len() == 10);
                    assert(false);
                },
                ScaleType::Locrian => {},
            },
        }
    }
}

/// The whole rendered score, re-grouped piece by piece.
proof fn lemma_json_of_reassoc(s: Song)
    ensures
        spec_json_of(s) == "{\"version\":"@ + (spec_json_string(s.version@) + (",\"metadata\":{\"title\":"@ + (spec_json_string(s.metadata.title@) + (",\"composer\":"@ + (spec_json_string(s.metadata.composer@) + (",\"created\":"@ + (spec_json_string(s.metadata.created@) + (",\"modified\":"@ + (spec_json_string(s.metadata.modified@) + ("},\"settings\":{\"tempo\":"@ + (spec_u32_str(s.settings.tempo as int) + (",\"time_signature\":{\"numerator\":"@ + (spec_u32_str(s.settings.time_signature.numerator as int) + (",\"denominator\":"@ + (spec_u32_str(s.settings.time_signature.denominator as int) + (",\"accents\":["@ + (spec_json_accents(s.settings.time_signature.accents.accents@) + ("]},\"key\":{\"root\":"@ + (spec_u32_str(s.settings.key.root@) + (",\"scale_type\":"@ + (spec_json_string(ScaleType::spec_name(s.settings.key.scale_type)) + ("}},\"notes\":["@ + (spec_json_notes(s.notes@) + ("]}"@)))))))))))))))))))))))),
{
    let head = "{\"version\":"@ + spec_json_string(s.version@) + ",\"metadata\":{\"title\":"@ + spec_json_string(s.metadata.title@) + ",\"composer\":"@ + spec_json_string(s.metadata.composer@) + ",\"created\":"@ + spec_json_string(s.metadata.created@) + ",\"modified\":"@ + spec_json_string(s.metadata.modified@);
    let settings = "},\"settings\":{\"tempo\":"@ + spec_u32_str(s.settings.tempo as int) + ",\"time_signature\":{\"numerator\":"@ + spec_u32_str(s.settings.time_signature.numerator as int) + ",\"denominator\":"@ + spec_u32_str(s.settings.time_signature.denominator as int) + ",\"accents\":["@ + spec_json_accents(s.settings.time_signature.accents.accents@) + "]},\"key\":{\"root\":"@ + spec_u32_str(s.settings.key.root@) + ",\"scale_type\":"@ + spec_json_string(ScaleType::spec_name(s.settings.key.scale_type)) + "}},\"notes\":["@;
    let notes_part = spec_json_notes(s.notes@);
    let tail = "]}"@;
    vstd::seq_lib::lemma_concat_associative(head + settings, notes_part, tail);
    vstd::seq_lib::lemma_concat_associative(head, settings, notes_part + tail);
    vstd::seq_lib::lemma_concat_associative(
        "{\"version\":"@ + spec_json_string(s.version@) + ",\"metadata\":{\"title\":"@ + spec_json_string(s.metadata.title@) + ",\"composer\":"@ + spec_json_string(s.metadata.composer@) + ",\"created\":"@ + spec_json_string(s.metadata.created@) + ",\"modified\":"@,
        spec_json_string(s.metadata.modified@),
        settings + (notes_part + tail),
    );
    vstd::seq_lib::lemma_concat_associative(
        "{\"version\":"@ + spec_json_string(s.version@) + ",\"metadata\":{\"title\":"@ + spec_json_string(s.metadata.title@) + ",\"composer\":"@ + spec_json_string(s.metadata.composer@) + ",\"created\":"@ + spec_json_string(s.metadata.created@),
        ",\"modified\":"@,
        spec_json_string(s.metadata.modified@) + (settings + (notes_part + tail)),
    );
    vstd::seq_lib::lemma_concat_associative(
        "{\"version\":"@ + spec_json_string(s.version@) + ",\"metadata\":{\"title\":"@ + spec_json_string(s.metadata.title@) + ",\"composer\":"@ + spec_json_string(s.metadata.composer@) + ",\"created\":"@,
        spec_json_string(s.metadata.created@),
        ",\"modified\":"@ + (spec_json_string(s.metadata.modified@) + (settings + (notes_part + tail))),
    );
    vstd::seq_lib::lemma_concat_associative(
        "{\"version\":"@ + spec_json_string(s.version@) + ",\"metadata\":{\"title\":"@ + spec_json_string(s.metadata.title@) + ",\"composer\":"@ + spec_json_string(s.metadata.composer@),
        ",\"created\":"@,
        spec_json_string(s.metadata.created@) + (",\"modified\":"@ + (spec_json_string(s.metadata.modified@) + (settings + (notes_part + tail)))),
    );
    vstd::seq_lib::lemma_concat_associative(
        "{\"version\":"@ + spec_json_string(s.version@) + ",\"metadata\":{\"title\":"@ + spec_json_string(s.metadata.title@) + ",\"composer\":"@,
        spec_json_string(s.metadata.composer@),
        ",\"created\":"@ + (spec_json_string(s.metadata.created@) + (",\"modified\":"@ + (spec_json_string(s.metadata.modified@) + (settings + (notes_part + tail))))),
    );
    vstd::seq_lib::lemma_concat_associative(
        "{\"version\":"@ + spec_json_string(s.version@) + ",\"metadata\":{\"title\":"@ + spec_json_string(s.metadata.title@),
        ",\"composer\":"@,
        spec_json_string(s.metadata.composer@) + (",\"created\":"@ + (spec_json_string(s.metadata.created@) + (",\"modified\":"@ + (spec_json_string(s.metadata.modified@) + (settings + (notes_part + tail)))))),
    );
    vstd::seq_lib::lemma_concat_associative(
        "{\"version\":"@ + spec_json_string(s.version@) + ",\"metadata\":{\"title\":"@,
        spec_json_string(s.metadata.title@),
        ",\"composer\":"@ + (spec_json_string(s.metadata.composer@) + (",\"created\":"@ + (spec_json_string(s.metadata.created@) + (",\"modified\":"@ + (spec_json_string(s.metadata.modified@) + (settings + (notes_part + tail))))))),
    );
    vstd::seq_lib::lemma_concat_associative(
        "{\"version\":"@ + spec_json_string(s.version@),
        ",\"metadata\":{\"title\":"@,
        spec_json_string(s.metadata.title@) + (",\"composer\":"@ + (spec_json_string(s.metadata.composer@) + (",\"created\":"@ + (spec_json_string(s.metadata.created@) + (",\"modified\":"@ + (spec_json_string(s.metadata.modified@) + (settings + (notes_part + tail)))))))),
    );
    vstd::seq_lib::lemma_concat_associative(
        "{\"version\":"@,
        spec_json_string(s.version@),
        ",\"metadata\":{\"title\":"@ + (spec_json_string(s.metadata.title@) + (",\"composer\":"@ + (spec_json_string(s.metadata.composer@) + (",\"created\":"@ + (spec_json_string(s.metadata.created@) + (",\"modified\":"@ + (spec_json_string(s.metadata.modified@) + (settings + (notes_part + tail))))))))),
    );
    vstd::seq_lib::lemma_concat_associative(
        "},\"settings\":{\"tempo\":"@ + spec_u32_str(s.settings.tempo as int) + ",\"time_signature\":{\"numerator\":"@ + spec_u32_str(s.settings.time_signature.numerator as int) + ",\"denominator\":"@ + spec_u32_str(s.settings.time_signature.denominator as int) + ",\"accents\":["@ + spec_json_accents(s.settings.time_signature.accents.accents@) + "]},\"key\":{\"root\":"@ + spec_u32_str(s.settings.key.root@) + ",\"scale_type\":"@ + spec_json_string(ScaleType::spec_name(s.settings.key.scale_type)),
        "}},\"notes\":["@,
        notes_part + tail,
    );
    vstd::seq_lib::lemma_concat_associative(
        "},\"settings\":{\"tempo\":"@ + spec_u32_str(s.settings.tempo as int) + ",\"time_signature\":{\"numerator\":"@ + spec_u32_str(s.settings.time_signature.numerator as int) + ",\"denominator\":"@ + spec_u32_str(s.settings.time_signature.denominator as int) + ",\"accents\":["@ + spec_json_accents(s.settings.time_signature.accents.accents@) + "]},\"key\":{\"root\":"@ + spec_u32_str(s.settings.key.root@) + ",\"scale_type\":"@,
        spec_json_string(ScaleType::spec_name(s.settings.key.scale_type)),
        "}},\"notes\":["@ + (notes_part + tail),
    );
    vstd::seq_lib::lemma_concat_associative(
        "},\"settings\":{\"tempo\":"@ + spec_u32_str(s.settings.tempo as int) + ",\"time_signature\":{\"numerator\":"@ + spec_u32_str(s.settings.time_signature.numerator as int) + ",\"denominator\":"@ + spec_u32_str(s.settings.time_signature.denominator as int) + ",\"accents\":["@ + spec_json_accents(s.settings.time_signature.accents.accents@) + "]},\"key\":{\"root\":"@ + spec_u32_str(s.settings.key.root@),
        ",\"scale_type\":"@,
        spec_json_string(ScaleType::spec_name(s.settings.key.scale_type)) + ("}},\"notes\":["@ + (notes_part + tail)),
    );
    vstd::seq_lib::lemma_concat_associative(
        "},\"settings\":{\"tempo\":"@ + spec_u32_str(s.settings.tempo as int) + ",\"time_signature\":{\"numerator\":"@ + spec_u32_str(s.settings.time_signature.numerator as int) + ",\"denominator\":"@ + spec_u32_str(s.settings.time_signature.denominator as int) + ",\"accents\":["@ + spec_json_accents(s.settings.time_signature.accents.accents@) + "]},\"key\":{\"root\":"@,
        spec_u32_str(s.settings.key.root@),
        ",\"scale_type\":"@ + (spec_json_string(ScaleType::spec_name(s.settings.key.scale_type)) + ("}},\"notes\":["@ + (notes_part + tail))),
    );
    vstd::seq_lib::lemma_concat_associative(
        "},\"settings\":{\"tempo\":"@ + spec_u32_str(s.settings.tempo as int) + ",\"time_signature\":{\"numerator\":"@ + spec_u32_str(s.settings.time_signature.numerator as int) + ",\"denominator\":"@ + spec_u32_str(s.settings.time_signature.denominator as int) + ",\"accents\":["@ + spec_json_accents(s.settings.time_signature.accents.accents@),
        "]},\"key\":{\"root\":"@,
        spec_u32_str(s.settings.key.root@) + (",\"scale_type\":"@ + (spec_json_string(ScaleType::spec_name(s.settings.key.scale_type)) + ("}},\"notes\":["@ + (notes_part + tail)))),
    );
    vstd::seq_lib::lemma_concat_associative(
        "},\"settings\":{\"tempo\":"@ + spec_u32_str(s.settings.tempo as int) + ",\"time_signature\":{\"numerator\":"@ + spec_u32_str(s.settings.time_signature.numerator as int) + ",\"denominator\":"@ + spec_u32_str(s.settings.time_signature.denominator as int) + ",\"accents\":["@,
        spec_json_accents(s.settings.time_signature.accents.accents@),
        "]},\"key\":{\"root\":"@ + (spec_u32_str(s.settings.key.root@) + (",\"scale_type\":"@ + (spec_json_string(ScaleType::spec_name(s.settings.key.scale_type)) + ("}},\"notes\":["@ + (notes_part + tail))))),
    );
    vstd::seq_lib::lemma_concat_associative(
        "},\"settings\":{\"tempo\":"@ + spec_u32_str(s.settings.tempo as int) + ",\"time_signature\":{\"numerator\":"@ + spec_u32_str(s.settings.time_signature.numerator as int) + ",\"denominator\":"@ + spec_u32_str(s.settings.time_signature.denominator as int),
        ",\"accents\":["@,
        spec_json_accents(s.settings.time_signature.accents.accents@) + ("]},\"key\":{\"root\":"@ + (spec_u32_str(s.settings.key.root@) + (",\"scale_type\":"@ + (spec_json_string(ScaleType::spec_name(s.settings.key.scale_type)) + ("}},\"notes\":["@ + (notes_part + tail)))))),
    );
    vstd::seq_lib::lemma_concat_associative(
        "},\"settings\":{\"tempo\":"@ + spec_u32_str(s.settings.tempo as int) + ",\"time_signature\":{\"numerator\":"@ + spec_u32_str(s.settings.time_signature.numerator as int) + ",\"denominator\":"@,
        spec_u32_str(s.settings.time_signature.denominator as int),
        ",\"accents\":["@ + (spec_json_accents(s.settings.time_signature.accents.accents@) + ("]},\"key\":{\"root\":"@ + (spec_u32_str(s.settings.key.root@) + (",\"scale_type\":"@ + (spec_json_string(ScaleType::spec_name(s.settings.key.scale_type)) + ("}},\"notes\":["@ + (notes_part + tail))))))),
    );
    vstd::seq_lib::lemma_concat_associative(
        "},\"settings\":{\"tempo\":"@ + spec_u32_str(s.settings.tempo as int) + ",\"time_signature\":{\"numerator\":"@ + spec_u32_str(s.settings.time_signature.numerator as int),
        ",\"denominator\":"@,
        spec_u32_str(s.settings.time_signature.denominator as int) + (",\"accents\":["@ + (spec_json_accents(s.settings.time_signature.accents.accents@) + ("]},\"key\":{\"root\":"@ + (spec_u32_str(s.settings.key.root@) + (",\"scale_type\":"@ + (spec_json_string(ScaleType::spec_name(s.settings.key.scale_type)) + ("}},\"notes\":["@ + (notes_part + tail)))))))),
    );
    vstd::seq_lib::lemma_concat_associative(
        "},\"settings\":{\"tempo\":"@ + spec_u32_str(s.settings.tempo as int) + ",\"time_signature\":{\"numerator\":"@,
        spec_u32_str(s.settings.time_signature.numerator as int),
        ",\"denominator\":"@ + (spec_u32_str(s.settings.time_signature.denominator as int) + (",\"accents\":["@ + (spec_json_accents(s.settings.time_signature.accents.accents@) + ("]},\"key\":{\"root\":"@ + (spec_u32_str(s.settings.key.root@) + (",\"scale_type\":"@ + (spec_json_string(ScaleType::spec_name(s.settings.key.scale_type)) + ("}},\"notes\":["@ + (notes_part + tail))))))))),
    );
    vstd::seq_lib::lemma_concat_associative(
        "},\"settings\":{\"tempo\":"@ + spec_u32_str(s.settings.tempo as int),
        ",\"time_signature\":{\"numerator\":"@,
        spec_u32_str(s.settings.time_signature.numerator as int) + (",\"denominator\":"@ + (spec_u32_str(s.settings.time_signature.denominator as int) + (",\"accents\":["@ + (spec_json_accents(s.settings.time_signature.accents.accents@) + ("]},\"key\":{\"root\":"@ + (spec_u32_str(s.settings.key.root@) + (",\"scale_type\":"@ + (spec_json_string(ScaleType::spec_name(s.settings.key.scale_type)) + ("}},\"notes\":["@ + (notes_part + tail)))))))))),
    );
    vstd::seq_lib::lemma_concat_associative(
        "},\"settings\":{\"tempo\":"@,
        spec_u32_str(s.settings.tempo as int),
        ",\"time_signature\":{\"numerator\":"@ + (spec_u32_str(s.settings.time_signature.numerator as int) + (",\"denominator\":"@ + (spec_u32_str(s.settings.time_signature.denominator as int) + (",\"accents\":["@ + (spec_json_accents(s.settings.time_signature.accents.accents@) + ("]},\"key\":{\"root\":"@ + (spec_u32_str(s.settings.key.root@) + (",\"scale_type\":"@ + (spec_json_string(ScaleType::spec_name(s.settings.key.scale_type)) + ("}},\"notes\":["@ + (notes_part + tail))))))))))),
    );
}

/// Match a fixed run of tokens at a position, skipping JSON's
/// insignificant whitespace before each token of the input; on text that
/// spells the run exactly (no whitespace), it consumes exactly the run.
fn expect_lit_ws(v: &Vec<char>, pos: usize, lit: &str) -> (r: Option<usize>)
    requires
        pos <= v@.len(),
        forall|q: int| 0 <= q < lit@.len() ==> !spec_ws(#[trigger] lit@[q]),
    ensures
        r matches Some(j) ==> pos + lit@.len() <= j <= v@.len(),
        forall|t: Seq<char>|
            v@.skip(pos as int) == lit@ + t ==> (r matches Some(j) && v@.skip(j as int) == t),
{
    let m = lit.unicode_len();
    let n = v.len();
    let mut i = pos;
    let mut k: usize = 0;
    let mut inside_string = false;
    while k < m
        invariant
            pos <= i <= n == v@.len(),
            i - pos >= k,
            k <= m == lit@.len(),
            forall|q: int| 0 <= q < lit@.len() ==> !spec_ws(#[trigger] lit@[q]),
            forall|t: Seq<char>| v@.skip(pos as int) == lit@ + t ==> i == pos + k,
        decreases m - k,
    {
        let lc = lit.get_char(k);
        if !inside_string {
            let j = skip_ws(v, i);
            proof {
                assert forall|t: Seq<char>| v@.skip(pos as int) == lit@ + t implies j == pos
                    + k by {
                    assert(i == pos + k);
                    assert(v@.skip(pos as int).len() == lit@.len() + t.len());
                    assert(v@.skip(pos as int)[k as int] == v@[i as int]);
                    assert((lit@ + t)[k as int] == lit@[k as int]);
                    assert(!spec_ws(v@[i as int]));
                    if j > i {
                        assert(spec_ws(v@[i as int]));
                    }
                }
            }
            i = j;
        }
        if i >= n || v[i] != lc {
            proof {
                assert forall|t: Seq<char>| v@.skip(pos as int) != lit@ + t by {
                    if v@.skip(pos as int) == lit@ + t {
                        assert(i == pos + k);
                        assert(v@.skip(pos as int).len() == lit@.len() + t.len());
                        assert(pos + k < n);
                        assert(v@.skip(pos as int)[k as int] == v@[i as int]);
                        assert((lit@ + t)[k as int] == lit@[k as int]);
                        assert(false);
                    }
                }
            }
            return None;
        }
        i = i + 1;
        if lc == '"' {
            inside_string = !inside_string;
        }
        k = k + 1;
    }
    proof {
        assert forall|t: Seq<char>| v@.skip(pos as int) == lit@ + t implies v@.skip(i as int)
            == t by {
            assert(i == pos + m);
            assert(v@.skip(pos as int).skip(m as int) =~= v@.skip(i as int));
            assert((lit@ + t).skip(m as int) =~= t);
        }
    }
    Some(i)
}

/// Parse a bounded number after optional whitespace; on text that spells
/// a bounded canonical number followed by a non-digit, it reads exactly
/// that number.
fn parse_num_ws(v: &Vec<char>, pos: usize, max: u32) -> (r: Option<(u32, usize)>)
    requires
        pos <= v@.len(),
    ensures
        r matches Some((x, j)) ==> pos < j <= v@.len() && x <= max,
        forall|x: int, t: Seq<char>|
            (0 <= x <= max && v@.skip(pos as int) == spec_u32_str(x) + t && (t.len() == 0
                || !spec_is_digit(t[0]))) ==> (r matches Some((y, j)) && y as int == x && v@.skip(
                j as int,
            ) == t),
{
    let q = skip_ws(v, pos);
    proof {
        assert forall|x: int, t: Seq<char>|
            (0 <= x <= max && v@.skip(pos as int) == spec_u32_str(x) + t && (t.len() == 0
                || !spec_is_digit(t[0]))) implies q == pos by {
            lemma_u32_str_digits(x);
            assert(v@.skip(pos as int).len() >= 1);
            assert((spec_u32_str(x) + t)[0] == spec_u32_str(x)[0]);
            assert(v@.skip(pos as int)[0] == v@[pos as int]);
            assert(spec_is_digit(v@[pos as int]));
            assert(!spec_ws(v@[pos as int]));
            if q > pos {
                assert(spec_ws(v@[pos as int]));
            }
        }
    }
    match parse_canon_u32(v, q, max) {
        Some((x, j)) => {
            proof {
                assert forall|x0: int, t: Seq<char>|
                    (0 <= x0 <= max && v@.skip(pos as int) == spec_u32_str(x0) + t && (t.len() == 0
                        || !spec_is_digit(t[0]))) implies (x as int == x0 && v@.skip(j as int)
                    == t) by {
                    assert(q == pos);
                    assert(v@.skip(q as int) =~= v@.subrange(q as int, j as int) + v@.skip(
                        j as int,
                    ));
                    assert(spec_u32_str(x as int) + v@.skip(j as int) == spec_u32_str(x0) + t);
                    assert(v@.skip(j as int).len() == 0 || !spec_is_digit(v@.skip(j as int)[0]))
                        by {
                        if j < v@.len() {
                            assert(v@.skip(j as int)[0] == v@[j as int]);
                        }
                    }
                    lemma_number_prefix(x as int, x0, v@.skip(j as int), t);
                }
            }
            Some((x, j))
        },
        None => {
            proof {
                assert forall|x0: int, t: Seq<char>|
                    !(0 <= x0 <= max && v@.skip(pos as int) == spec_u32_str(x0) + t && (t.len()
                        == 0 || !spec_is_digit(t[0]))) by {
                    if 0 <= x0 <= max && v@.skip(pos as int) == spec_u32_str(x0) + t && (t.len()
                        == 0 || !spec_is_digit(t[0])) {
                        assert(q == pos);
                        assert(false);
                    }
                }
            }
            None
        },
    }
}

/// Parse a string after optional whitespace; on text that spells a
/// rendered string, it reads exactly that string.
fn parse_string_ws(v: &Vec<char>, s: &str, pos: usize) -> (r: Option<(String, usize)>)
    requires
        v@ == s@,
        pos <= v@.len(),
    ensures
        r matches Some((t, j)) ==> pos <= j <= v@.len(),
        forall|a: Seq<char>, t: Seq<char>|
            v@.skip(pos as int) == spec_json_string(a) + t ==> (r matches Some((u, j)) && u@ == a
                && v@.skip(j as int) == t),
{
    let q = skip_ws(v, pos);
    proof {
        reveal_strlit("\"");
        assert forall|a: Seq<char>, t: Seq<char>|
            v@.skip(pos as int) == spec_json_string(a) + t implies q == pos by {
            assert(v@.skip(pos as int).len() >= 2);
            assert((("\""@ + spec_escape(a)) + "\""@)[0] == ("\""@ + spec_escape(a))[0]);
            assert((spec_json_string(a) + t)[0] == spec_json_string(a)[0]);
            assert(spec_json_string(a)[0] == '"');
            assert(v@.skip(pos as int)[0] == v@[pos as int]);
            assert(!spec_ws(v@[pos as int]));
            if q > pos {
                assert(spec_ws(v@[pos as int]));
            }
        }
    }
    match parse_jstring(v, s, q) {
        Some((u, j)) => {
            proof {
                assert forall|a: Seq<char>, t: Seq<char>|
                    v@.skip(pos as int) == spec_json_string(a) + t implies (u@ == a && v@.skip(
                    j as int,
                ) == t) by {
                    assert(q == pos);
                    assert(v@.skip(q as int) =~= v@.subrange(q as int, j as int) + v@.skip(
                        j as int,
                    ));
                    assert(spec_json_string(u@) + v@.skip(j as int) == spec_json_string(a) + t);
                    lemma_jstring_prefix(u@, a, v@.skip(j as int), t);
                }
            }
            Some((u, j))
        },
        None => {
            proof {
                assert forall|a: Seq<char>, t: Seq<char>|
                    v@.skip(pos as int) != spec_json_string(a) + t by {
                    if v@.skip(pos as int) == spec_json_string(a) + t {
                        assert(q == pos);
                        assert(false);
                    }
                }
            }
            None
        },
    }
}

/// The error every malformed score text is rejected with.
fn malformed() -> (r: MozartError)
    ensures
        r is SerializationError,
{
    MozartError::SerializationError(String::from_str("malformed score text"))
}

/// Parse one stored note object, tolerating whitespace between tokens and
/// a missing voice field (which reads as the main voice): on text that
/// spells a note's canonical object, it reads exactly that note.
#[verifier::rlimit(100)]
fn parse_json_note(v: &Vec<char>, pos: usize) -> (r: Option<(Note, usize)>)
    requires
        pos <= v@.len(),
    ensures
        r matches Some((note, j)) ==> pos < j <= v@.len(),
        forall|m: Note, t: Seq<char>|
            v@.skip(pos as int) == spec_json_note(m) + t ==> (r matches Some((note, j)) && note
                == m && v@.skip(j as int) == t),
{
    let n = v.len();
    proof {
        reveal_strlit("{\"pitch\":");
        reveal_strlit(",\"start_tick\":");
        reveal_strlit(",\"duration_ticks\":");
        reveal_strlit(",\"velocity\":");
        reveal_strlit(",\"voice\":");
        reveal_strlit("}");
    }
    let ghost l1 = "{\"pitch\":"@;
    let ghost l2 = ",\"start_tick\":"@;
    let ghost l3 = ",\"duration_ticks\":"@;
    let ghost l4 = ",\"velocity\":"@;
    let ghost l5 = ",\"voice\":"@;
    let ghost l6 = "}"@;

    let p1 = match expect_lit_ws(v, pos, "{\"pitch\":") {
        Some(j) => j,
        None => {
            proof {
                assert forall|m: Note, t: Seq<char>|
                    v@.skip(pos as int) != spec_json_note(m) + t by {
                    if v@.skip(pos as int) == spec_json_note(m) + t {
                        lemma_note_obj_reassoc(m, t);
                        assert(false);
                    }
                }
            }
            return None;
        },
    };
    proof {
        assert forall|m: Note, t: Seq<char>|
            v@.skip(pos as int) == spec_json_note(m) + t implies v@.skip(p1 as int)
            == spec_u32_str(m.pitch as int) + (l2 + (spec_u32_str(m.start_tick as int) + (l3 + (
        spec_u32_str(m.duration_ticks as int) + (l4 + (spec_u32_str(m.velocity as int) + (l5 + (
        spec_u32_str(m.voice as int) + (l6 + t))))))))) by {
            lemma_note_obj_reassoc(m, t);
        }
    }

    let (pitch, p2) = match parse_num_ws(v, p1, 255) {
        Some(x) => x,
        None => {
            proof {
                assert forall|m: Note, t: Seq<char>|
                    v@.skip(pos as int) != spec_json_note(m) + t by {
                    if v@.skip(pos as int) == spec_json_note(m) + t {
                        assert((l2 + (spec_u32_str(m.start_tick as int) + (l3 + (spec_u32_str(
                            m.duration_ticks as int,
                        ) + (l4 + (spec_u32_str(m.velocity as int) + (l5 + (spec_u32_str(
                            m.voice as int,
                        ) + (l6 + t)))))))))[0] == ',');
                        assert(false);
                    }
                }
            }
            return None;
        },
    };
    proof {
        assert forall|m: Note, t: Seq<char>|
            v@.skip(pos as int) == spec_json_note(m) + t implies (pitch as int == m.pitch as int
            && v@.skip(p2 as int) == l2 + (spec_u32_str(m.start_tick as int) + (l3 + (
        spec_u32_str(m.duration_ticks as int) + (l4 + (spec_u32_str(m.velocity as int) + (l5 + (
        spec_u32_str(m.voice as int) + (l6 + t))))))))) by {
            assert((l2 + (spec_u32_str(m.start_tick as int) + (l3 + (spec_u32_str(
                m.duration_ticks as int,
            ) + (l4 + (spec_u32_str(m.velocity as int) + (l5 + (spec_u32_str(m.voice as int) + (l6
                + t)))))))))[0] == ',');
        }
    }

    let p3 = match expect_lit_ws(v, p2, ",\"start_tick\":") {
        Some(j) => j,
        None => {
            proof {
                assert forall|m: Note, t: Seq<char>|
                    v@.skip(pos as int) != spec_json_note(m) + t by {
                    if v@.skip(pos as int) == spec_json_note(m) + t {
                        assert(false);
                    }
                }
            }
            return None;
        },
    };
    let (start_tick, p4) = match parse_num_ws(v, p3, 0xFFFF_FFFF) {
        Some(x) => x,
        None => {
            proof {
                assert forall|m: Note, t: Seq<char>|
                    v@.skip(pos as int) != spec_json_note(m) + t by {
                    if v@.skip(pos as int) == spec_json_note(m) + t {
                        assert((l3 + (spec_u32_str(m.duration_ticks as int) + (l4 + (spec_u32_str(
                            m.velocity as int,
                        ) + (l5 + (spec_u32_str(m.voice as int) + (l6 + t)))))))[0] == ',');
                        assert(false);
                    }
                }
            }
            return None;
        },
    };
    proof {
        assert forall|m: Note, t: Seq<char>|
            v@.skip(pos as int) == spec_json_note(m) + t implies (pitch as int == m.pitch as int
            && start_tick as int == m.start_tick as int && v@.skip(p4 as int) == l3 + (
        spec_u32_str(m.duration_ticks as int) + (l4 + (spec_u32_str(m.velocity as int) + (l5 + (
        spec_u32_str(m.voice as int) + (l6 + t))))))) by {
            assert((l3 + (spec_u32_str(m.duration_ticks as int) + (l4 + (spec_u32_str(
                m.velocity as int,
            ) + (l5 + (spec_u32_str(m.voice as int) + (l6 + t)))))))[0] == ',');
        }
    }

    let p5 = match expect_lit_ws(v, p4, ",\"duration_ticks\":") {
        Some(j) => j,
        None => {
            proof {
                assert forall|m: Note, t: Seq<char>|
                    v@.skip(pos as int) != spec_json_note(m) + t by {
                    if v@.skip(pos as int) == spec_json_note(m) + t {
                        assert(false);
                    }
                }
            }
            return None;
        },
    };
    let (duration_ticks, p6) = match parse_num_ws(v, p5, 0xFFFF_FFFF) {
        Some(x) => x,
        None => {
            proof {
                assert forall|m: Note, t: Seq<char>|
                    v@.skip(pos as int) != spec_json_note(m) + t by {
                    if v@.skip(pos as int) == spec_json_note(m) + t {
                        assert((l4 + (spec_u32_str(m.velocity as int) + (l5 + (spec_u32_str(
                            m.voice as int,
                        ) + (l6 + t)))))[0] == ',');
                        assert(false);
                    }
                }
            }
            return None;
        },
    };
    proof {
        assert forall|m: Note, t: Seq<char>|
            v@.skip(pos as int) == spec_json_note(m) + t implies (pitch as int == m.pitch as int
            && start_tick as int == m.start_tick as int && duration_ticks as int
            == m.duration_ticks as int && v@.skip(p6 as int) == l4 + (spec_u32_str(
            m.velocity as int,
        ) + (l5 + (spec_u32_str(m.voice as int) + (l6 + t))))) by {
            assert((l4 + (spec_u32_str(m.velocity as int) + (l5 + (spec_u32_str(m.voice as int) + (
            l6 + t)))))[0] == ',');
        }
    }

    let p7 = match expect_lit_ws(v, p6, ",\"velocity\":") {
        Some(j) => j,
        None => {
            proof {
                assert forall|m: Note, t: Seq<char>|
                    v@.skip(pos as int) != spec_json_note(m) + t by {
                    if v@.skip(pos as int) == spec_json_note(m) + t {
                        assert(false);
                    }
                }
            }
            return None;
        },
    };
    let (velocity, p8) = match parse_num_ws(v, p7, 255) {
        Some(x) => x,
        None => {
            proof {
                assert forall|m: Note, t: Seq<char>|
                    v@.skip(pos as int) != spec_json_note(m) + t by {
                    if v@.skip(pos as int) == spec_json_note(m) + t {
                        assert((l5 + (spec_u32_str(m.voice as int) + (l6 + t)))[0] == ',');
                        assert(false);
                    }
                }
            }
            return None;
        },
    };
    proof {
        assert forall|m: Note, t: Seq<char>|
            v@.skip(pos as int) == spec_json_note(m) + t implies (pitch as int == m.pitch as int
            && start_tick as int == m.start_tick as int && duration_ticks as int
            == m.duration_ticks as int && velocity as int == m.velocity as int && v@.skip(
            p8 as int,
        ) == l5 + (spec_u32_str(m.voice as int) + (l6 + t))) by {
            assert((l5 + (spec_u32_str(m.voice as int) + (l6 + t)))[0] == ',');
        }
    }

    // The voice field may be elided; a note without one sounds on the
    // main voice.
    let q = skip_ws(v, p8);
    if q < n && v[q] == ',' {
        let p9 = match expect_lit_ws(v, p8, ",\"voice\":") {
            Some(j) => j,
            None => {
                proof {
                    assert forall|m: Note, t: Seq<char>|
                        v@.skip(pos as int) != spec_json_note(m) + t by {
                        if v@.skip(pos as int) == spec_json_note(m) + t {
                            assert(false);
                        }
                    }
                }
                return None;
            },
        };
        let (voice, p10) = match parse_num_ws(v, p9, 255) {
            Some(x) => x,
            None => {
                proof {
                    assert forall|m: Note, t: Seq<char>|
                        v@.skip(pos as int) != spec_json_note(m) + t by {
                        if v@.skip(pos as int) == spec_json_note(m) + t {
                            assert((l6 + t)[0] == '}');
                            assert(false);
                        }
                    }
                }
                return None;
            },
        };
        let p11 = match expect_lit_ws(v, p10, "}") {
            Some(j) => j,
            None => {
                proof {
                    assert forall|m: Note, t: Seq<char>|
                        v@.skip(pos as int) != spec_json_note(m) + t by {
                        if v@.skip(pos as int) == spec_json_note(m) + t {
                            assert((l6 + t)[0] == '}');
                            assert(false);
                        }
                    }
                }
                return None;
            },
        };
        let note = Note {
            pitch: pitch as u8,
            start_tick,
            duration_ticks,
            velocity: velocity as u8,
            voice: voice as u8,
        };
        proof {
            assert forall|m: Note, t: Seq<char>|
                v@.skip(pos as int) == spec_json_note(m) + t implies (note == m && v@.skip(
                p11 as int,
            ) == t) by {
                assert((l6 + t)[0] == '}');
            }
        }
        Some((note, p11))
    } else {
        // No voice field: the closing brace follows the velocity.
        proof {
            assert forall|m: Note, t: Seq<char>|
                v@.skip(pos as int) != spec_json_note(m) + t by {
                if v@.skip(pos as int) == spec_json_note(m) + t {
                    let rest = l5 + (spec_u32_str(m.voice as int) + (l6 + t));
                    assert(rest[0] == ',');
                    assert(v@.skip(p8 as int).len() >= 1);
                    assert(v@.skip(p8 as int)[0] == v@[p8 as int]);
                    assert(v@[p8 as int] == ',');
                    assert(!spec_ws(v@[p8 as int]));
                    assert(q == p8);
                    assert(false);
                }
            }
        }
        let p11 = match expect_lit_ws(v, p8, "}") {
            Some(j) => j,
            None => {
                return None;
            },
        };
        let note = Note {
            pitch: pitch as u8,
            start_tick,
            duration_ticks,
            velocity: velocity as u8,
            voice: 0,
        };
        Some((note, p11))
    }
}

/// The scale type a stored name stands for.
fn scale_type_of_name(name: &str) -> (r: Option<ScaleType>)
    ensures
        r matches Some(st) ==> name@ == ScaleType::spec_name(st),
        r is None ==> forall|st: ScaleType| name@ != ScaleType::spec_name(st),
{
    let t = str_to_chars(name);
    let n = t.len();
    proof {
        assert(t@.subrange(0, n as int) =~= t@);
    }
    if eq_lit(&t, 0, n, "Major") {
        Some(ScaleType::Major)
    } else if eq_lit(&t, 0, n, "Natural Minor") {
        Some(ScaleType::NaturalMinor)
    } else if eq_lit(&t, 0, n, "Harmonic Minor") {
        Some(ScaleType::HarmonicMinor)
    } else if eq_lit(&t, 0, n, "Melodic Minor") {
        Some(ScaleType::MelodicMinor)
    } else if eq_lit(&t, 0, n, "Dorian") {
        Some(ScaleType::Dorian)
    } else if eq_lit(&t, 0, n, "Phrygian") {
        Some(ScaleType::Phrygian)
    } else if eq_lit(&t, 0, n, "Lydian") {
        Some(ScaleType::Lydian)
    } else if eq_lit(&t, 0, n, "Mixolydian") {
        Some(ScaleType::Mixolydian)
    } else if eq_lit(&t, 0, n, "Locrian") {
        Some(ScaleType::Locrian)
    } else {
        None
    }
}

/// The rendered head chunk with a tail, re-grouped piece by piece.
proof fn lemma_json_head_reassoc(
    ver: Seq<char>,
    tit: Seq<char>,
    com: Seq<char>,
    cre: Seq<char>,
    mo: Seq<char>,
    t: Seq<char>,
)
    ensures
        spec_json_head(ver, tit, com, cre, mo) + t == "{\"version\":"@ + (spec_json_string(ver) + (
        ",\"metadata\":{\"title\":"@ + (spec_json_string(tit) + (",\"composer\":"@ + (
        spec_json_string(com) + (",\"created\":"@ + (spec_json_string(cre) + (",\"modified\":"@
            + (spec_json_string(mo) + t))))))))),
{
    broadcast use vstd::seq_lib::group_seq_properties;

    let p1 = "{\"version\":"@;
    let p2 = ",\"metadata\":{\"title\":"@;
    let p3 = ",\"composer\":"@;
    let p4 = ",\"created\":"@;
    let p5 = ",\"modified\":"@;
    let v1 = spec_json_string(ver);
    let v2 = spec_json_string(tit);
    let v3 = spec_json_string(com);
    let v4 = spec_json_string(cre);
    let v5 = spec_json_string(mo);
    vstd::seq_lib::lemma_concat_associative(p1 + v1 + p2 + v2 + p3 + v3 + p4 + v4 + p5, v5, t);
    vstd::seq_lib::lemma_concat_associative(p1 + v1 + p2 + v2 + p3 + v3 + p4 + v4, p5, v5 + t);
    vstd::seq_lib::lemma_concat_associative(
        p1 + v1 + p2 + v2 + p3 + v3 + p4,
        v4,
        p5 + (v5 + t),
    );
    vstd::seq_lib::lemma_concat_associative(
        p1 + v1 + p2 + v2 + p3 + v3,
        p4,
        v4 + (p5 + (v5 + t)),
    );
    vstd::seq_lib::lemma_concat_associative(
        p1 + v1 + p2 + v2 + p3,
        v3,
        p4 + (v4 + (p5 + (v5 + t))),
    );
    vstd::seq_lib::lemma_concat_associative(
        p1 + v1 + p2 + v2,
        p3,
        v3 + (p4 + (v4 + (p5 + (v5 + t)))),
    );
    vstd::seq_lib::lemma_concat_associative(
        p1 + v1 + p2,
        v2,
        p3 + (v3 + (p4 + (v4 + (p5 + (v5 + t))))),
    );
    vstd::seq_lib::lemma_concat_associative(
        p1 + v1,
        p2,
        v2 + (p3 + (v3 + (p4 + (v4 + (p5 + (v5 + t)))))),
    );
    vstd::seq_lib::lemma_concat_associative(
        p1,
        v1,
        p2 + (v2 + (p3 + (v3 + (p4 + (v4 + (p5 + (v5 + t))))))),
    );
}

/// Parse the version and metadata fields, tolerating whitespace between
/// tokens: on text that spells their canonical rendering, it reads
/// exactly those fields.
#[verifier::rlimit(100)]
fn parse_json_head(v: &Vec<char>, json: &str, pos: usize) -> (r: Option<
    (String, SongMetadata, usize),
>)
    requires
        v@ == json@,
        pos <= v@.len(),
    ensures
        r matches Some((version, meta, j)) ==> pos <= j <= v@.len(),
        forall|ver: Seq<char>, tit: Seq<char>, com: Seq<char>, cre: Seq<char>, mo: Seq<char>, t: Seq<char>|
            v@.skip(pos as int) == spec_json_head(ver, tit, com, cre, mo) + t ==> (r matches Some(
                (version, meta, j),
            ) && version@ == ver && meta.title@ == tit && meta.composer@ == com && meta.created@
                == cre && meta.modified@ == mo && v@.skip(j as int) == t),
{
    proof {
        reveal_strlit("{\"version\":");
        reveal_strlit(",\"metadata\":{\"title\":");
        reveal_strlit(",\"composer\":");
        reveal_strlit(",\"created\":");
        reveal_strlit(",\"modified\":");
    }
    let ghost h2 = ",\"metadata\":{\"title\":"@;
    let ghost h3 = ",\"composer\":"@;
    let ghost h4 = ",\"created\":"@;
    let ghost h5 = ",\"modified\":"@;

    let p1 = match expect_lit_ws(v, pos, "{\"version\":") {
        Some(j) => j,
        None => {
            proof {
                assert forall|ver: Seq<char>, tit: Seq<char>, com: Seq<char>, cre: Seq<char>, mo: Seq<char>, t: Seq<char>|
                    v@.skip(pos as int) != spec_json_head(ver, tit, com, cre, mo) + t by {
                    if v@.skip(pos as int) == spec_json_head(ver, tit, com, cre, mo) + t {
                        lemma_json_head_reassoc(ver, tit, com, cre, mo, t);
                        assert(false);
                    }
                }
            }
            return None;
        },
    };
    proof {
        assert forall|ver: Seq<char>, tit: Seq<char>, com: Seq<char>, cre: Seq<char>, mo: Seq<char>, t: Seq<char>|
            v@.skip(pos as int) == spec_json_head(ver, tit, com, cre, mo) + t implies v@.skip(
            p1 as int,
        ) == spec_json_string(ver) + (h2 + (spec_json_string(tit) + (h3 + (spec_json_string(com)
            + (h4 + (spec_json_string(cre) + (h5 + (spec_json_string(mo) + t)))))))) by {
            lemma_json_head_reassoc(ver, tit, com, cre, mo, t);
        }
    }

    let (version, p2) = match parse_string_ws(v, json, p1) {
        Some(x) => x,
        None => {
            proof {
                assert forall|ver: Seq<char>, tit: Seq<char>, com: Seq<char>, cre: Seq<char>, mo: Seq<char>, t: Seq<char>|
                    v@.skip(pos as int) != spec_json_head(ver, tit, com, cre, mo) + t by {
                    if v@.skip(pos as int) == spec_json_head(ver, tit, com, cre, mo) + t {
                        assert(false);
                    }
                }
            }
            return None;
        },
    };
    let p3 = match expect_lit_ws(v, p2, ",\"metadata\":{\"title\":") {
        Some(j) => j,
        None => {
            proof {
                assert forall|ver: Seq<char>, tit: Seq<char>, com: Seq<char>, cre: Seq<char>, mo: Seq<char>, t: Seq<char>|
                    v@.skip(pos as int) != spec_json_head(ver, tit, com, cre, mo) + t by {
                    if v@.skip(pos as int) == spec_json_head(ver, tit, com, cre, mo) + t {
                        assert(false);
                    }
                }
            }
            return None;
        },
    };
    let (title, p4) = match parse_string_ws(v, json, p3) {
        Some(x) => x,
        None => {
            proof {
                assert forall|ver: Seq<char>, tit: Seq<char>, com: Seq<char>, cre: Seq<char>, mo: Seq<char>, t: Seq<char>|
                    v@.skip(pos as int) != spec_json_head(ver, tit, com, cre, mo) + t by {
                    if v@.skip(pos as int) == spec_json_head(ver, tit, com, cre, mo) + t {
                        assert(false);
                    }
                }
            }
            return None;
        },
    };
    let p5 = match expect_lit_ws(v, p4, ",\"composer\":") {
        Some(j) => j,
        None => {
            proof {
                assert forall|ver: Seq<char>, tit: Seq<char>, com: Seq<char>, cre: Seq<char>, mo: Seq<char>, t: Seq<char>|
                    v@.skip(pos as int) != spec_json_head(ver, tit, com, cre, mo) + t by {
                    if v@.skip(pos as int) == spec_json_head(ver, tit, com, cre, mo) + t {
                        assert(false);
                    }
                }
            }
            return None;
        },
    };
    let (composer, p6) = match parse_string_ws(v, json, p5) {
        Some(x) => x,
        None => {
            proof {
                assert forall|ver: Seq<char>, tit: Seq<char>, com: Seq<char>, cre: Seq<char>, mo: Seq<char>, t: Seq<char>|
                    v@.skip(pos as int) != spec_json_head(ver, tit, com, cre, mo) + t by {
                    if v@.skip(pos as int) == spec_json_head(ver, tit, com, cre, mo) + t {
                        assert(false);
                    }
                }
            }
            return None;
        },
    };
    let p7 = match expect_lit_ws(v, p6, ",\"created\":") {
        Some(j) => j,
        None => {
            proof {
                assert forall|ver: Seq<char>, tit: Seq<char>, com: Seq<char>, cre: Seq<char>, mo: Seq<char>, t: Seq<char>|
                    v@.skip(pos as int) != spec_json_head(ver, tit, com, cre, mo) + t by {
                    if v@.skip(pos as int) == spec_json_head(ver, tit, com, cre, mo) + t {
                        assert(false);
                    }
                }
            }
            return None;
        },
    };
    let (created, p8) = match parse_string_ws(v, json, p7) {
        Some(x) => x,
        None => {
            proof {
                assert forall|ver: Seq<char>, tit: Seq<char>, com: Seq<char>, cre: Seq<char>, mo: Seq<char>, t: Seq<char>|
                    v@.skip(pos as int) != spec_json_head(ver, tit, com, cre, mo) + t by {
                    if v@.skip(pos as int) == spec_json_head(ver, tit, com, cre, mo) + t {
                        assert(false);
                    }
                }
            }
            return None;
        },
    };
    let p9 = match expect_lit_ws(v, p8, ",\"modified\":") {
        Some(j) => j,
        None => {
            proof {
                assert forall|ver: Seq<char>, tit: Seq<char>, com: Seq<char>, cre: Seq<char>, mo: Seq<char>, t: Seq<char>|
                    v@.skip(pos as int) != spec_json_head(ver, tit, com, cre, mo) + t by {
                    if v@.skip(pos as int) == spec_json_head(ver, tit, com, cre, mo) + t {
                        assert(false);
                    }
                }
            }
            return None;
        },
    };
    let (modified, p10) = match parse_string_ws(v, json, p9) {
        Some(x) => x,
        None => {
            proof {
                assert forall|ver: Seq<char>, tit: Seq<char>, com: Seq<char>, cre: Seq<char>, mo: Seq<char>, t: Seq<char>|
                    v@.skip(pos as int) != spec_json_head(ver, tit, com, cre, mo) + t by {
                    if v@.skip(pos as int) == spec_json_head(ver, tit, com, cre, mo) + t {
                        assert(false);
                    }
                }
            }
            return None;
        },
    };
    Some((version, SongMetadata { title, composer, created, modified }, p10))
}


/// Parse the stored accents array (the comma-separated ordinals between
/// the brackets), tolerating whitespace between tokens: on text that
/// spells a rendered accents array followed by its closing bracket, it
/// reads exactly those levels.
#[verifier::rlimit(100)]
fn parse_accents_array(v: &Vec<char>, pos: usize) -> (r: Option<(Vec<AccentLevel>, usize)>)
    requires
        pos <= v@.len(),
    ensures
        r matches Some((list, j)) ==> pos <= j <= v@.len(),
        forall|ls: Seq<AccentLevel>, t: Seq<char>|
            (v@.skip(pos as int) == spec_json_accents(ls) + t && t.len() > 0 && t[0] == ']') ==> (
            r matches Some((list, j)) && list@ == ls && v@.skip(j as int) == t),
{
    let n = v.len();
    proof {
        reveal_strlit(",");
    }
    let q = skip_ws(v, pos);
    proof {
        assert forall|ls: Seq<AccentLevel>, t: Seq<char>|
            (v@.skip(pos as int) == spec_json_accents(ls) + t && t.len() > 0 && t[0] == ']')
            implies (q == pos && pos < n) by {
            assert(v@.skip(pos as int).len() >= 1);
            assert(pos < n);
            if ls.len() == 0 {
                assert(spec_json_accents(ls) =~= Seq::<char>::empty());
                assert(v@.skip(pos as int) =~= t);
                assert(v@.skip(pos as int)[0] == v@[pos as int]);
                assert(!spec_ws(v@[pos as int]));
            } else {
                lemma_accents_left(ls);
                lemma_accent_item_shape(ls[0]);
                assert((spec_json_accents(ls) + t)[0] == spec_json_accents(ls)[0]);
                assert(spec_json_accents(ls)[0] == spec_u32_str(spec_accent_ordinal(ls[0]))[0]);
                assert(v@.skip(pos as int)[0] == v@[pos as int]);
                assert(spec_is_digit(v@[pos as int]));
                assert(!spec_ws(v@[pos as int]));
            }
            if q > pos {
                assert(spec_ws(v@[pos as int]));
            }
        }
    }
    if q >= n {
        return None;
    }
    if v[q] == ']' {
        let out: Vec<AccentLevel> = Vec::new();
        proof {
            assert forall|ls: Seq<AccentLevel>, t: Seq<char>|
                (v@.skip(pos as int) == spec_json_accents(ls) + t && t.len() > 0 && t[0] == ']')
                implies (out@ == ls && v@.skip(q as int) == t) by {
                if ls.len() > 0 {
                    lemma_accents_left(ls);
                    lemma_accent_item_shape(ls[0]);
                    assert((spec_json_accents(ls) + t)[0] == spec_u32_str(
                        spec_accent_ordinal(ls[0]),
                    )[0]);
                    assert(v@.skip(pos as int)[0] == v@[pos as int]);
                    assert(spec_is_digit(v@[pos as int]));
                    assert(false);
                }
                assert(spec_json_accents(ls) =~= Seq::<char>::empty());
                assert(v@.skip(pos as int) =~= t);
                assert(out@ =~= ls);
            }
        }
        return Some((out, q));
    }

    // First ordinal.
    let (ord0, j0) = match parse_num_ws(v, pos, 3) {
        Some(x) => x,
        None => {
            proof {
                assert forall|ls: Seq<AccentLevel>, t: Seq<char>|
                    !(v@.skip(pos as int) == spec_json_accents(ls) + t && t.len() > 0 && t[0]
                        == ']') by {
                    if v@.skip(pos as int) == spec_json_accents(ls) + t && t.len() > 0 && t[0]
                        == ']' {
                        if ls.len() == 0 {
                            assert(spec_json_accents(ls) =~= Seq::<char>::empty());
                            assert(v@.skip(pos as int) =~= t);
                            assert(v@[q as int] == t[0]);
                            assert(false);
                        }
                        lemma_accents_left(ls);
                        lemma_accent_item_shape(ls[0]);
                        let rest = (if ls.len() == 1 {
                            Seq::<char>::empty()
                        } else {
                            ","@ + spec_json_accents(ls.drop_first())
                        }) + t;
                        assert(v@.skip(pos as int) =~= spec_u32_str(spec_accent_ordinal(ls[0]))
                            + rest);
                        assert(rest[0] == ',' || rest[0] == ']');
                        assert(false);
                    }
                }
            }
            return None;
        },
    };
    if ord0 == 0 || ord0 > 3 {
        proof {
            assert forall|ls: Seq<AccentLevel>, t: Seq<char>|
                !(v@.skip(pos as int) == spec_json_accents(ls) + t && t.len() > 0 && t[0] == ']')
                by {
                if v@.skip(pos as int) == spec_json_accents(ls) + t && t.len() > 0 && t[0] == ']' {
                    if ls.len() == 0 {
                        assert(spec_json_accents(ls) =~= Seq::<char>::empty());
                        assert(v@.skip(pos as int) =~= t);
                        assert(v@[q as int] == t[0]);
                        assert(false);
                    }
                    lemma_accents_left(ls);
                    lemma_accent_item_shape(ls[0]);
                    let rest = (if ls.len() == 1 {
                        Seq::<char>::empty()
                    } else {
                        ","@ + spec_json_accents(ls.drop_first())
                    }) + t;
                    assert(v@.skip(pos as int) =~= spec_u32_str(spec_accent_ordinal(ls[0]))
                        + rest);
                    assert(rest[0] == ',' || rest[0] == ']');
                    assert(ord0 as int == spec_accent_ordinal(ls[0]));
                    assert(false);
                }
            }
        }
        return None;
    }
    let mut out: Vec<AccentLevel> = Vec::new();
    out.push(
        if ord0 == 1 {
            AccentLevel::Weak
        } else if ord0 == 2 {
            AccentLevel::Medium
        } else {
            AccentLevel::Strong
        },
    );
    let mut cur = j0;
    proof {
        assert forall|ls: Seq<AccentLevel>, t: Seq<char>|
            #![trigger spec_json_accents(ls).add(t)]
            (v@.skip(pos as int) == spec_json_accents(ls) + t && t.len() > 0 && t[0] == ']')
            implies (out@.len() <= ls.len() && out@ == ls.take(out@.len() as int) && (out@.len()
            == ls.len() ==> v@.skip(cur as int) == t) && (out@.len() < ls.len() ==> v@.skip(
            cur as int,
        ) == ","@ + (spec_json_accents(ls.skip(out@.len() as int)) + t))) by {
            assert(ls.len() >= 1) by {
                if ls.len() == 0 {
                    assert(spec_json_accents(ls) =~= Seq::<char>::empty());
                    assert(v@.skip(pos as int) =~= t);
                    assert(v@[q as int] == t[0]);
                }
            }
            lemma_accents_left(ls);
            lemma_accent_item_shape(ls[0]);
            let rest = (if ls.len() == 1 {
                Seq::<char>::empty()
            } else {
                ","@ + spec_json_accents(ls.drop_first())
            }) + t;
            assert(v@.skip(pos as int) =~= spec_u32_str(spec_accent_ordinal(ls[0])) + rest);
            assert(rest[0] == ',' || rest[0] == ']');
            assert(ord0 as int == spec_accent_ordinal(ls[0]) && v@.skip(cur as int) == rest);
            assert(out@[0] == ls[0]);
            assert(out@ =~= ls.take(1));
            if ls.len() > 1 {
                assert(ls.drop_first() =~= ls.skip(1));
                assert(rest =~= ","@ + (spec_json_accents(ls.skip(1)) + t));
            } else {
                assert(rest =~= t);
            }
        }
    }

    loop
        invariant
            pos <= cur <= n == v@.len(),
            out@.len() >= 1,
            forall|ls: Seq<AccentLevel>, t: Seq<char>|
                #![trigger spec_json_accents(ls).add(t)]
                (v@.skip(pos as int) == spec_json_accents(ls) + t && t.len() > 0 && t[0] == ']')
                    ==> (out@.len() <= ls.len() && out@ == ls.take(out@.len() as int) && (
                out@.len() == ls.len() ==> v@.skip(cur as int) == t) && (out@.len() < ls.len()
                    ==> v@.skip(cur as int) == ","@ + (spec_json_accents(
                    ls.skip(out@.len() as int),
                ) + t))),
        decreases n - cur,
    {
        let q2 = skip_ws(v, cur);
        if !(q2 < n && v[q2] == ',') {
            proof {
                reveal_strlit(",");
                assert forall|ls: Seq<AccentLevel>, t: Seq<char>|
                    (v@.skip(pos as int) == spec_json_accents(ls) + t && t.len() > 0 && t[0]
                        == ']') implies (out@ == ls && v@.skip(cur as int) == t) by {
                    assert(spec_json_accents(ls).add(t) == spec_json_accents(ls) + t);
                    if out@.len() < ls.len() {
                        assert(v@.skip(cur as int) == ","@ + (spec_json_accents(
                            ls.skip(out@.len() as int),
                        ) + t));
                        assert((","@ + (spec_json_accents(ls.skip(out@.len() as int)) + t))[0]
                            == ',');
                        assert(v@.skip(cur as int)[0] == v@[cur as int]);
                        assert(v@[cur as int] == ',');
                        assert(!spec_ws(v@[cur as int]));
                        assert(q2 == cur);
                        assert(false);
                    }
                    assert(out@ =~= ls);
                }
            }
            return Some((out, cur));
        }
        let ghost old_out = out@;
        let ghost old_cur = cur;
        let (ordk, jk) = match parse_num_ws(v, q2 + 1, 3) {
            Some(x) => x,
            None => {
                proof {
                    assert forall|ls: Seq<AccentLevel>, t: Seq<char>|
                        !(v@.skip(pos as int) == spec_json_accents(ls) + t && t.len() > 0 && t[0]
                            == ']') by {
                        if v@.skip(pos as int) == spec_json_accents(ls) + t && t.len() > 0 && t[0]
                            == ']' {
                            reveal_strlit(",");
                            assert(spec_json_accents(ls).add(t) == spec_json_accents(ls) + t);
                            assert(cur < n && v@[cur as int] == ',' && q2 == cur) by {
                                if out@.len() == ls.len() {
                                    assert(v@.skip(cur as int) == t);
                                    assert(v@.skip(cur as int)[0] == v@[cur as int]);
                                    assert(!spec_ws(v@[cur as int]));
                                    assert(q2 == cur);
                                    assert(false);
                                } else {
                                    assert(v@.skip(cur as int)[0] == v@[cur as int]);
                                    assert((","@ + (spec_json_accents(ls.skip(out@.len() as int))
                                        + t))[0] == ',');
                                    assert(!spec_ws(v@[cur as int]));
                                    assert(q2 == cur);
                                }
                            }
                            lemma_accents_array_step(v@, pos as int, cur as int, out@, ls, t);
                            let k = out@.len() as int;
                            lemma_accents_left(ls.skip(k));
                            lemma_accent_item_shape(ls.skip(k)[0]);
                            let rest2 = (if ls.skip(k).len() == 1 {
                                Seq::<char>::empty()
                            } else {
                                ","@ + spec_json_accents(ls.skip(k).drop_first())
                            }) + t;
                            assert(v@.skip(cur + 1) =~= spec_u32_str(
                                spec_accent_ordinal(ls.skip(k)[0]),
                            ) + rest2);
                            assert(rest2[0] == ',' || rest2[0] == ']');
                            assert(false);
                        }
                    }
                }
                return None;
            },
        };
        if ordk == 0 || ordk > 3 {
            proof {
                assert forall|ls: Seq<AccentLevel>, t: Seq<char>|
                    !(v@.skip(pos as int) == spec_json_accents(ls) + t && t.len() > 0 && t[0]
                        == ']') by {
                    if v@.skip(pos as int) == spec_json_accents(ls) + t && t.len() > 0 && t[0]
                        == ']' {
                        reveal_strlit(",");
                        assert(spec_json_accents(ls).add(t) == spec_json_accents(ls) + t);
                        assert(cur < n && v@[cur as int] == ',' && q2 == cur) by {
                            if out@.len() == ls.len() {
                            assert(v@.skip(cur as int) == t);
                            assert(v@.skip(cur as int)[0] == v@[cur as int]);
                            assert(!spec_ws(v@[cur as int]));
                            assert(q2 == cur);
                            assert(false);
                            } else {
                            assert(v@.skip(cur as int)[0] == v@[cur as int]);
                            assert((","@ + (spec_json_accents(ls.skip(out@.len() as int))
                                + t))[0] == ',');
                            assert(!spec_ws(v@[cur as int]));
                            assert(q2 == cur);
                            }
                        }
                        lemma_accents_array_step(v@, pos as int, cur as int, out@, ls, t);
                        let k = out@.len() as int;
                        lemma_accents_left(ls.skip(k));
                        lemma_accent_item_shape(ls.skip(k)[0]);
                        let rest2 = (if ls.skip(k).len() == 1 {
                            Seq::<char>::empty()
                        } else {
                            ","@ + spec_json_accents(ls.skip(k).drop_first())
                        }) + t;
                        assert(v@.skip(cur + 1) =~= spec_u32_str(
                            spec_accent_ordinal(ls.skip(k)[0]),
                        ) + rest2);
                        assert(rest2[0] == ',' || rest2[0] == ']');
                        assert(ordk as int == spec_accent_ordinal(ls.skip(k)[0]));
                        assert(false);
                    }
                }
            }
            return None;
        }
        out.push(
            if ordk == 1 {
                AccentLevel::Weak
            } else if ordk == 2 {
                AccentLevel::Medium
            } else {
                AccentLevel::Strong
            },
        );
        cur = jk;
        proof {
            assert forall|ls: Seq<AccentLevel>, t: Seq<char>|
                #![trigger spec_json_accents(ls).add(t)]
                (v@.skip(pos as int) == spec_json_accents(ls) + t && t.len() > 0 && t[0] == ']')
                implies (out@.len() <= ls.len() && out@ == ls.take(out@.len() as int) && (
            out@.len() == ls.len() ==> v@.skip(cur as int) == t) && (out@.len() < ls.len()
                ==> v@.skip(cur as int) == ","@ + (spec_json_accents(ls.skip(out@.len() as int))
                + t))) by {
                reveal_strlit(",");
                assert(spec_json_accents(ls).add(t) == spec_json_accents(ls) + t);
                assert(old_cur < n && v@[old_cur as int] == ',' && q2 == old_cur) by {
                    if old_out.len() == ls.len() {
                        assert(v@.skip(old_cur as int) == t);
                        assert(v@.skip(old_cur as int)[0] == v@[old_cur as int]);
                        assert(!spec_ws(v@[old_cur as int]));
                        assert(q2 == old_cur);
                        assert(false);
                    } else {
                        assert(v@.skip(old_cur as int)[0] == v@[old_cur as int]);
                        assert((","@ + (spec_json_accents(ls.skip(old_out.len() as int)) + t))[0]
                            == ',');
                        assert(!spec_ws(v@[old_cur as int]));
                        assert(q2 == old_cur);
                    }
                }
                lemma_accents_array_step(v@, pos as int, old_cur as int, old_out, ls, t);
                let k = old_out.len() as int;
                lemma_accents_left(ls.skip(k));
                lemma_accent_item_shape(ls.skip(k)[0]);
                let rest2 = (if ls.skip(k).len() == 1 {
                    Seq::<char>::empty()
                } else {
                    ","@ + spec_json_accents(ls.skip(k).drop_first())
                }) + t;
                assert(v@.skip(old_cur + 1) =~= spec_u32_str(spec_accent_ordinal(ls.skip(k)[0]))
                    + rest2);
                assert(rest2[0] == ',' || rest2[0] == ']');
                assert(ordk as int == spec_accent_ordinal(ls.skip(k)[0]) && v@.skip(cur as int)
                    == rest2);
                assert(out@.last() == ls.skip(k)[0]);
                assert(ls.skip(k)[0] == ls[k]);
                assert(out@ =~= ls.take(k + 1));
                if k + 1 < ls.len() {
                    assert(ls.skip(k).drop_first() =~= ls.skip(k + 1));
                    assert(rest2 =~= ","@ + (spec_json_accents(ls.skip(k + 1)) + t));
                } else {
                    assert(ls.skip(k).len() == 1);
                    assert(rest2 =~= t);
                }
            }
        }
    }
}

/// Inside the accents-array loop, when levels are still missing, a comma
/// and the rendering of the rest stand at the cursor.
proof fn lemma_accents_array_step(
    v: Seq<char>,
    pos: int,
    cur: int,
    out: Seq<AccentLevel>,
    ls: Seq<AccentLevel>,
    t: Seq<char>,
)
    requires
        0 <= pos <= cur <= v.len(),
        v.skip(pos) == spec_json_accents(ls) + t,
        t.len() > 0,
        t[0] == ']',
        out.len() <= ls.len(),
        out == ls.take(out.len() as int),
        out.len() == ls.len() ==> v.skip(cur) == t,
        out.len() < ls.len() ==> v.skip(cur) == ","@ + (spec_json_accents(
            ls.skip(out.len() as int),
        ) + t),
        cur < v.len() && v[cur] == ',',
    ensures
        out.len() < ls.len(),
        v.skip(cur + 1) == spec_json_accents(ls.skip(out.len() as int)) + t,
        !spec_ws(v[cur]),
    decreases 0int,
{
    reveal_strlit(",");
    if out.len() == ls.len() {
        assert(v.skip(cur)[0] == v[cur]);
        assert(false);
    }
    let x = spec_json_accents(ls.skip(out.len() as int)) + t;
    assert(v.skip(cur) == ","@ + x);
    assert(v.skip(cur + 1) =~= v.skip(cur).skip(1));
    assert((","@ + x).skip(1) =~= x);
}


/// A rendered note object opens with its brace.
proof fn lemma_note_text_head(m: Note)
    ensures
        spec_json_note(m).len() >= 1,
        spec_json_note(m)[0] == '{',
{
    reveal_strlit("{\"pitch\":");
    lemma_note_obj_reassoc(m, Seq::<char>::empty());
    let rest = spec_u32_str(m.pitch as int) + (",\"start_tick\":"@ + (spec_u32_str(
        m.start_tick as int,
    ) + (",\"duration_ticks\":"@ + (spec_u32_str(m.duration_ticks as int) + (",\"velocity\":"@ + (
    spec_u32_str(m.velocity as int) + (",\"voice\":"@ + (spec_u32_str(m.voice as int) + ("}"@
        + Seq::<char>::empty())))))))));
    assert(spec_json_note(m) =~= spec_json_note(m) + Seq::<char>::empty());
    assert(spec_json_note(m) == "{\"pitch\":"@ + rest);
    assert(("{\"pitch\":"@ + rest)[0] == "{\"pitch\":"@[0]);
}

/// Inside the notes-array loop, when notes are still missing, a comma and
/// the rendering of the rest stand at the cursor.
proof fn lemma_notes_array_step(
    v: Seq<char>,
    pos: int,
    cur: int,
    out: Seq<Note>,
    ls: Seq<Note>,
    t: Seq<char>,
)
    requires
        0 <= pos <= cur <= v.len(),
        v.skip(pos) == spec_json_notes(ls) + t,
        t.len() > 0,
        t[0] == ']',
        out.len() <= ls.len(),
        out == ls.take(out.len() as int),
        out.len() == ls.len() ==> v.skip(cur) == t,
        out.len() < ls.len() ==> v.skip(cur) == ","@ + (spec_json_notes(ls.skip(out.len() as int))
            + t),
        cur < v.len() && v[cur] == ',',
    ensures
        out.len() < ls.len(),
        v.skip(cur + 1) == spec_json_notes(ls.skip(out.len() as int)) + t,
        !spec_ws(v[cur]),
    decreases 0int,
{
    reveal_strlit(",");
    if out.len() == ls.len() {
        assert(v.skip(cur)[0] == v[cur]);
        assert(false);
    }
    let x = spec_json_notes(ls.skip(out.len() as int)) + t;
    assert(v.skip(cur) == ","@ + x);
    assert(v.skip(cur + 1) =~= v.skip(cur).skip(1));
    assert((","@ + x).skip(1) =~= x);
}

/// Parse the stored notes array (the comma-separated note objects between
/// the brackets), tolerating whitespace between tokens: on text that
/// spells a rendered notes array followed by its closing bracket, it
/// reads exactly those notes.
#[verifier::rlimit(100)]
fn parse_notes_array(v: &Vec<char>, pos: usize) -> (r: Option<(Vec<Note>, usize)>)
    requires
        pos <= v@.len(),
    ensures
        r matches Some((list, j)) ==> pos <= j <= v@.len(),
        forall|ls: Seq<Note>, t: Seq<char>|
            (v@.skip(pos as int) == spec_json_notes(ls) + t && t.len() > 0 && t[0] == ']') ==> (
            r matches Some((list, j)) && list@ == ls && v@.skip(j as int) == t),
{
    let n = v.len();
    proof {
        reveal_strlit(",");
    }
    let q = skip_ws(v, pos);
    proof {
        assert forall|ls: Seq<Note>, t: Seq<char>|
            (v@.skip(pos as int) == spec_json_notes(ls) + t && t.len() > 0 && t[0] == ']')
            implies (q == pos && pos < n) by {
            assert(v@.skip(pos as int).len() >= 1);
            assert(pos < n);
            if ls.len() == 0 {
                assert(spec_json_notes(ls) =~= Seq::<char>::empty());
                assert(v@.skip(pos as int) =~= t);
                assert(v@.skip(pos as int)[0] == v@[pos as int]);
                assert(!spec_ws(v@[pos as int]));
            } else {
                lemma_notes_left(ls);
                lemma_note_text_head(ls[0]);
                assert((spec_json_notes(ls) + t)[0] == spec_json_notes(ls)[0]);
                assert(spec_json_notes(ls)[0] == spec_json_note(ls[0])[0]);
                assert(v@.skip(pos as int)[0] == v@[pos as int]);
                assert(v@[pos as int] == '{');
                assert(!spec_ws(v@[pos as int]));
            }
            if q > pos {
                assert(spec_ws(v@[pos as int]));
            }
        }
    }
    if q >= n {
        return None;
    }
    if v[q] == ']' {
        let out: Vec<Note> = Vec::new();
        proof {
            assert forall|ls: Seq<Note>, t: Seq<char>|
                (v@.skip(pos as int) == spec_json_notes(ls) + t && t.len() > 0 && t[0] == ']')
                implies (out@ == ls && v@.skip(q as int) == t) by {
                if ls.len() > 0 {
                    lemma_notes_left(ls);
                    lemma_note_text_head(ls[0]);
                    assert((spec_json_notes(ls) + t)[0] == spec_json_note(ls[0])[0]);
                    assert(v@.skip(pos as int)[0] == v@[pos as int]);
                    assert(v@[pos as int] == '{');
                    assert(false);
                }
                assert(spec_json_notes(ls) =~= Seq::<char>::empty());
                assert(v@.skip(pos as int) =~= t);
                assert(out@ =~= ls);
            }
        }
        return Some((out, q));
    }

    // First note object.
    let (note0, j0) = match parse_json_note(v, pos) {
        Some(x) => x,
        None => {
            proof {
                assert forall|ls: Seq<Note>, t: Seq<char>|
                    !(v@.skip(pos as int) == spec_json_notes(ls) + t && t.len() > 0 && t[0]
                        == ']') by {
                    if v@.skip(pos as int) == spec_json_notes(ls) + t && t.len() > 0 && t[0]
                        == ']' {
                        if ls.len() == 0 {
                            assert(spec_json_notes(ls) =~= Seq::<char>::empty());
                            assert(v@.skip(pos as int) =~= t);
                            assert(v@[q as int] == t[0]);
                            assert(false);
                        }
                        lemma_notes_left(ls);
                        let rest = (if ls.len() == 1 {
                            Seq::<char>::empty()
                        } else {
                            ","@ + spec_json_notes(ls.drop_first())
                        }) + t;
                        assert(v@.skip(pos as int) =~= spec_json_note(ls[0]) + rest);
                        assert(false);
                    }
                }
            }
            return None;
        },
    };
    let mut out: Vec<Note> = Vec::new();
    out.push(note0);
    let mut cur = j0;
    proof {
        assert forall|ls: Seq<Note>, t: Seq<char>|
            #![trigger spec_json_notes(ls).add(t)]
            (v@.skip(pos as int) == spec_json_notes(ls) + t && t.len() > 0 && t[0] == ']')
            implies (out@.len() <= ls.len() && out@ == ls.take(out@.len() as int) && (out@.len()
            == ls.len() ==> v@.skip(cur as int) == t) && (out@.len() < ls.len() ==> v@.skip(
            cur as int,
        ) == ","@ + (spec_json_notes(ls.skip(out@.len() as int)) + t))) by {
            assert(ls.len() >= 1) by {
                if ls.len() == 0 {
                    assert(spec_json_notes(ls) =~= Seq::<char>::empty());
                    assert(v@.skip(pos as int) =~= t);
                    assert(v@[q as int] == t[0]);
                }
            }
            lemma_notes_left(ls);
            let rest = (if ls.len() == 1 {
                Seq::<char>::empty()
            } else {
                ","@ + spec_json_notes(ls.drop_first())
            }) + t;
            assert(v@.skip(pos as int) =~= spec_json_note(ls[0]) + rest);
            assert(note0 == ls[0] && v@.skip(cur as int) == rest);
            assert(out@[0] == ls[0]);
            assert(out@ =~= ls.take(1));
            if ls.len() > 1 {
                assert(ls.drop_first() =~= ls.skip(1));
                assert(rest =~= ","@ + (spec_json_notes(ls.skip(1)) + t));
            } else {
                assert(rest =~= t);
            }
        }
    }

    loop
        invariant
            pos <= cur <= n == v@.len(),
            out@.len() >= 1,
            forall|ls: Seq<Note>, t: Seq<char>|
                #![trigger spec_json_notes(ls).add(t)]
                (v@.skip(pos as int) == spec_json_notes(ls) + t && t.len() > 0 && t[0] == ']')
                    ==> (out@.len() <= ls.len() && out@ == ls.take(out@.len() as int) && (
                out@.len() == ls.len() ==> v@.skip(cur as int) == t) && (out@.len() < ls.len()
                    ==> v@.skip(cur as int) == ","@ + (spec_json_notes(ls.skip(out@.len() as int))
                    + t))),
        decreases n - cur,
    {
        let q2 = skip_ws(v, cur);
        if !(q2 < n && v[q2] == ',') {
            proof {
                reveal_strlit(",");
                assert forall|ls: Seq<Note>, t: Seq<char>|
                    (v@.skip(pos as int) == spec_json_notes(ls) + t && t.len() > 0 && t[0] == ']')
                    implies (out@ == ls && v@.skip(cur as int) == t) by {
                    assert(spec_json_notes(ls).add(t) == spec_json_notes(ls) + t);
                    if out@.len() < ls.len() {
                        assert(v@.skip(cur as int) == ","@ + (spec_json_notes(
                            ls.skip(out@.len() as int),
                        ) + t));
                        assert((","@ + (spec_json_notes(ls.skip(out@.len() as int)) + t))[0]
                            == ',');
                        assert(v@.skip(cur as int)[0] == v@[cur as int]);
                        assert(v@[cur as int] == ',');
                        assert(!spec_ws(v@[cur as int]));
                        assert(q2 == cur);
                        assert(false);
                    }
                    assert(out@ =~= ls);
                }
            }
            return Some((out, cur));
        }
        let ghost old_out = out@;
        let ghost old_cur = cur;
        let (notek, jk) = match parse_json_note(v, q2 + 1) {
            Some(x) => x,
            None => {
                proof {
                    assert forall|ls: Seq<Note>, t: Seq<char>|
                        !(v@.skip(pos as int) == spec_json_notes(ls) + t && t.len() > 0 && t[0]
                            == ']') by {
                        if v@.skip(pos as int) == spec_json_notes(ls) + t && t.len() > 0 && t[0]
                            == ']' {
                            reveal_strlit(",");
                            assert(spec_json_notes(ls).add(t) == spec_json_notes(ls) + t);
                            assert(cur < n && v@[cur as int] == ',' && q2 == cur) by {
                                if out@.len() == ls.len() {
                                    assert(v@.skip(cur as int) == t);
                                    assert(v@.skip(cur as int)[0] == v@[cur as int]);
                                    assert(!spec_ws(v@[cur as int]));
                                    assert(q2 == cur);
                                    assert(false);
                                } else {
                                    assert(v@.skip(cur as int)[0] == v@[cur as int]);
                                    assert((","@ + (spec_json_notes(ls.skip(out@.len() as int))
                                        + t))[0] == ',');
                                    assert(!spec_ws(v@[cur as int]));
                                    assert(q2 == cur);
                                }
                            }
                            lemma_notes_array_step(v@, pos as int, cur as int, out@, ls, t);
                            let k = out@.len() as int;
                            lemma_notes_left(ls.skip(k));
                            let rest2 = (if ls.skip(k).len() == 1 {
                                Seq::<char>::empty()
                            } else {
                                ","@ + spec_json_notes(ls.skip(k).drop_first())
                            }) + t;
                            assert(v@.skip(cur + 1) =~= spec_json_note(ls.skip(k)[0]) + rest2);
                            assert(false);
                        }
                    }
                }
                return None;
            },
        };
        out.push(notek);
        cur = jk;
        proof {
            assert forall|ls: Seq<Note>, t: Seq<char>|
                #![trigger spec_json_notes(ls).add(t)]
                (v@.skip(pos as int) == spec_json_notes(ls) + t && t.len() > 0 && t[0] == ']')
                implies (out@.len() <= ls.len() && out@ == ls.take(out@.len() as int) && (
            out@.len() == ls.len() ==> v@.skip(cur as int) == t) && (out@.len() < ls.len()
                ==> v@.skip(cur as int) == ","@ + (spec_json_notes(ls.skip(out@.len() as int))
                + t))) by {
                reveal_strlit(",");
                assert(spec_json_notes(ls).add(t) == spec_json_notes(ls) + t);
                assert(old_cur < n && v@[old_cur as int] == ',' && q2 == old_cur) by {
                    if old_out.len() == ls.len() {
                        assert(v@.skip(old_cur as int) == t);
                        assert(v@.skip(old_cur as int)[0] == v@[old_cur as int]);
                        assert(!spec_ws(v@[old_cur as int]));
                        assert(q2 == old_cur);
                        assert(false);
                    } else {
                        assert(v@.skip(old_cur as int)[0] == v@[old_cur as int]);
                        assert((","@ + (spec_json_notes(ls.skip(old_out.len() as int)) + t))[0]
                            == ',');
                        assert(!spec_ws(v@[old_cur as int]));
                        assert(q2 == old_cur);
                    }
                }
                lemma_notes_array_step(v@, pos as int, old_cur as int, old_out, ls, t);
                let k = old_out.len() as int;
                lemma_notes_left(ls.skip(k));
                let rest2 = (if ls.skip(k).len() == 1 {
                    Seq::<char>::empty()
                } else {
                    ","@ + spec_json_notes(ls.skip(k).drop_first())
                }) + t;
                assert(v@.skip(old_cur + 1) =~= spec_json_note(ls.skip(k)[0]) + rest2);
                assert(notek == ls.skip(k)[0] && v@.skip(cur as int) == rest2);
                assert(out@.last() == ls[k]);
                assert(out@ =~= ls.take(k + 1));
                if k + 1 < ls.len() {
                    assert(ls.skip(k).drop_first() =~= ls.skip(k + 1));
                    assert(rest2 =~= ","@ + (spec_json_notes(ls.skip(k + 1)) + t));
                } else {
                    assert(ls.skip(k).len() == 1);
                    assert(rest2 =~= t);
                }
            }
        }
    }
}


/// The rendered settings chunk with a tail, re-grouped piece by piece.
proof fn lemma_json_settings_reassoc(se: SongSettings, t: Seq<char>)
    ensures
        spec_json_settings(se) + t == "},\"settings\":{\"tempo\":"@ + (spec_u32_str(
            se.tempo as int,
        ) + (",\"time_signature\":{\"numerator\":"@ + (spec_u32_str(
            se.time_signature.numerator as int,
        ) + (",\"denominator\":"@ + (spec_u32_str(se.time_signature.denominator as int) + (
        ",\"accents\":["@ + (spec_json_accents(se.time_signature.accents.accents@) + (
        "]},\"key\":{\"root\":"@ + (spec_u32_str(se.key.root@) + (",\"scale_type\":"@ + (
        spec_json_string(ScaleType::spec_name(se.key.scale_type)) + ("}},\"notes\":["@
            + t)))))))))))),
{
    broadcast use vstd::seq_lib::group_seq_properties;

    let p1 = "},\"settings\":{\"tempo\":"@;
    let v1 = spec_u32_str(se.tempo as int);
    let p2 = ",\"time_signature\":{\"numerator\":"@;
    let v2 = spec_u32_str(se.time_signature.numerator as int);
    let p3 = ",\"denominator\":"@;
    let v3 = spec_u32_str(se.time_signature.denominator as int);
    let p4 = ",\"accents\":["@;
    let v4 = spec_json_accents(se.time_signature.accents.accents@);
    let p5 = "]},\"key\":{\"root\":"@;
    let v5 = spec_u32_str(se.key.root@);
    let p6 = ",\"scale_type\":"@;
    let v6 = spec_json_string(ScaleType::spec_name(se.key.scale_type));
    let p7 = "}},\"notes\":["@;
    vstd::seq_lib::lemma_concat_associative(
        p1 + v1 + p2 + v2 + p3 + v3 + p4 + v4 + p5 + v5 + p6 + v6,
        p7,
        t,
    );
    vstd::seq_lib::lemma_concat_associative(
        p1 + v1 + p2 + v2 + p3 + v3 + p4 + v4 + p5 + v5 + p6,
        v6,
        p7 + t,
    );
    vstd::seq_lib::lemma_concat_associative(
        p1 + v1 + p2 + v2 + p3 + v3 + p4 + v4 + p5 + v5,
        p6,
        v6 + (p7 + t),
    );
    vstd::seq_lib::lemma_concat_associative(
        p1 + v1 + p2 + v2 + p3 + v3 + p4 + v4 + p5,
        v5,
        p6 + (v6 + (p7 + t)),
    );
    vstd::seq_lib::lemma_concat_associative(
        p1 + v1 + p2 + v2 + p3 + v3 + p4 + v4,
        p5,
        v5 + (p6 + (v6 + (p7 + t))),
    );
    vstd::seq_lib::lemma_concat_associative(
        p1 + v1 + p2 + v2 + p3 + v3 + p4,
        v4,
        p5 + (v5 + (p6 + (v6 + (p7 + t)))),
    );
    vstd::seq_lib::lemma_concat_associative(
        p1 + v1 + p2 + v2 + p3 + v3,
        p4,
        v4 + (p5 + (v5 + (p6 + (v6 + (p7 + t))))),
    );
    vstd::seq_lib::lemma_concat_associative(
        p1 + v1 + p2 + v2 + p3,
        v3,
        p4 + (v4 + (p5 + (v5 + (p6 + (v6 + (p7 + t)))))),
    );
    vstd::seq_lib::lemma_concat_associative(
        p1 + v1 + p2 + v2,
        p3,
        v3 + (p4 + (v4 + (p5 + (v5 + (p6 + (v6 + (p7 + t))))))),
    );
    vstd::seq_lib::lemma_concat_associative(
        p1 + v1 + p2,
        v2,
        p3 + (v3 + (p4 + (v4 + (p5 + (v5 + (p6 + (v6 + (p7 + t)))))))),
    );
    vstd::seq_lib::lemma_concat_associative(
        p1 + v1,
        p2,
        v2 + (p3 + (v3 + (p4 + (v4 + (p5 + (v5 + (p6 + (v6 + (p7 + t))))))))),
    );
    vstd::seq_lib::lemma_concat_associative(
        p1,
        v1,
        p2 + (v2 + (p3 + (v3 + (p4 + (v4 + (p5 + (v5 + (p6 + (v6 + (p7 + t)))))))))),
    );
}


/// Parse the settings object up to the opening of the notes array,
/// tolerating whitespace between tokens: on text that spells a valid
/// settings object's canonical rendering, it reads exactly those
/// settings.
#[verifier::rlimit(100)]
fn parse_json_settings(v: &Vec<char>, json: &str, pos: usize) -> (r: Option<(SongSettings, usize)>)
    requires
        v@ == json@,
        pos <= v@.len(),
    ensures
        r matches Some((settings, j)) ==> pos <= j <= v@.len() && settings.key.root.wf(),
        forall|se: SongSettings, t: Seq<char>|
            (v@.skip(pos as int) == spec_json_settings(se) + t && se.key.root.wf()) ==> (
            r matches Some((settings, j)) && settings.tempo == se.tempo
                && settings.time_signature.numerator == se.time_signature.numerator
                && settings.time_signature.denominator == se.time_signature.denominator
                && settings.time_signature.accents.accents@ == se.time_signature.accents.accents@
                && settings.key.root@ == se.key.root@ && settings.key.scale_type
                == se.key.scale_type && v@.skip(j as int) == t),
{
    proof {
        reveal_strlit("},\"settings\":{\"tempo\":");
        reveal_strlit(",\"time_signature\":{\"numerator\":");
        reveal_strlit(",\"denominator\":");
        reveal_strlit(",\"accents\":[");
        reveal_strlit("]},\"key\":{\"root\":");
        reveal_strlit(",\"scale_type\":");
        reveal_strlit("}},\"notes\":[");
    }
    let ghost s2 = ",\"time_signature\":{\"numerator\":"@;
    let ghost s3 = ",\"denominator\":"@;
    let ghost s4 = ",\"accents\":["@;
    let ghost s5 = "]},\"key\":{\"root\":"@;
    let ghost s6 = ",\"scale_type\":"@;
    let ghost s7 = "}},\"notes\":["@;

    let p1 = match expect_lit_ws(v, pos, "},\"settings\":{\"tempo\":") {
        Some(j) => j,
        None => {
            proof {
                assert forall|se: SongSettings, t: Seq<char>|
                    !(v@.skip(pos as int) == spec_json_settings(se) + t && se.key.root.wf()) by {
                    if v@.skip(pos as int) == spec_json_settings(se) + t && se.key.root.wf() {
                        lemma_json_settings_reassoc(se, t);
                        assert(false);
                    }
                }
            }
            return None;
        },
    };
    proof {
        assert forall|se: SongSettings, t: Seq<char>|
            (v@.skip(pos as int) == spec_json_settings(se) + t && se.key.root.wf()) implies
            v@.skip(p1 as int) == spec_u32_str(se.tempo as int) + (s2 + (spec_u32_str(
            se.time_signature.numerator as int,
        ) + (s3 + (spec_u32_str(se.time_signature.denominator as int) + (s4 + (spec_json_accents(
            se.time_signature.accents.accents@,
        ) + (s5 + (spec_u32_str(se.key.root@) + (s6 + (spec_json_string(
            ScaleType::spec_name(se.key.scale_type),
        ) + (s7 + t))))))))))) by {
            lemma_json_settings_reassoc(se, t);
        }
    }

    let (tempo, p2) = match parse_num_ws(v, p1, 65535) {
        Some(x) => x,
        None => {
            proof {
                assert forall|se: SongSettings, t: Seq<char>|
                    !(v@.skip(pos as int) == spec_json_settings(se) + t && se.key.root.wf()) by {
                    if v@.skip(pos as int) == spec_json_settings(se) + t && se.key.root.wf() {
                        assert((s2 + (spec_u32_str(se.time_signature.numerator as int) + (s3 + (
                        spec_u32_str(se.time_signature.denominator as int) + (s4 + (
                        spec_json_accents(se.time_signature.accents.accents@) + (s5 + (
                        spec_u32_str(se.key.root@) + (s6 + (spec_json_string(
                            ScaleType::spec_name(se.key.scale_type),
                        ) + (s7 + t)))))))))))[0] == ',');
                        assert(false);
                    }
                }
            }
            return None;
        },
    };
    proof {
        assert forall|se: SongSettings, t: Seq<char>|
            (v@.skip(pos as int) == spec_json_settings(se) + t && se.key.root.wf()) implies (
        tempo as int == se.tempo as int && v@.skip(p2 as int) == s2 + (spec_u32_str(
            se.time_signature.numerator as int,
        ) + (s3 + (spec_u32_str(se.time_signature.denominator as int) + (s4 + (spec_json_accents(
            se.time_signature.accents.accents@,
        ) + (s5 + (spec_u32_str(se.key.root@) + (s6 + (spec_json_string(
            ScaleType::spec_name(se.key.scale_type),
        ) + (s7 + t))))))))))) by {
            assert((s2 + (spec_u32_str(se.time_signature.numerator as int) + (s3 + (spec_u32_str(
                se.time_signature.denominator as int,
            ) + (s4 + (spec_json_accents(se.time_signature.accents.accents@) + (s5 + (
            spec_u32_str(se.key.root@) + (s6 + (spec_json_string(
                ScaleType::spec_name(se.key.scale_type),
            ) + (s7 + t)))))))))))[0] == ',');
        }
    }

    let p3 = match expect_lit_ws(v, p2, ",\"time_signature\":{\"numerator\":") {
        Some(j) => j,
        None => {
            proof {
                assert forall|se: SongSettings, t: Seq<char>|
                    !(v@.skip(pos as int) == spec_json_settings(se) + t && se.key.root.wf()) by {
                    if v@.skip(pos as int) == spec_json_settings(se) + t && se.key.root.wf() {
                        assert(false);
                    }
                }
            }
            return None;
        },
    };
    let (numerator, p4) = match parse_num_ws(v, p3, 255) {
        Some(x) => x,
        None => {
            proof {
                assert forall|se: SongSettings, t: Seq<char>|
                    !(v@.skip(pos as int) == spec_json_settings(se) + t && se.key.root.wf()) by {
                    if v@.skip(pos as int) == spec_json_settings(se) + t && se.key.root.wf() {
                        assert((s3 + (spec_u32_str(se.time_signature.denominator as int) + (s4 + (
                        spec_json_accents(se.time_signature.accents.accents@) + (s5 + (
                        spec_u32_str(se.key.root@) + (s6 + (spec_json_string(
                            ScaleType::spec_name(se.key.scale_type),
                        ) + (s7 + t)))))))))[0] == ',');
                        assert(false);
                    }
                }
            }
            return None;
        },
    };
    proof {
        assert forall|se: SongSettings, t: Seq<char>|
            (v@.skip(pos as int) == spec_json_settings(se) + t && se.key.root.wf()) implies (
        tempo as int == se.tempo as int && numerator as int == se.time_signature.numerator as int
            && v@.skip(p4 as int) == s3 + (spec_u32_str(se.time_signature.denominator as int) + (
        s4 + (spec_json_accents(se.time_signature.accents.accents@) + (s5 + (spec_u32_str(
            se.key.root@,
        ) + (s6 + (spec_json_string(ScaleType::spec_name(se.key.scale_type)) + (s7
            + t))))))))) by {
            assert((s3 + (spec_u32_str(se.time_signature.denominator as int) + (s4 + (
            spec_json_accents(se.time_signature.accents.accents@) + (s5 + (spec_u32_str(
                se.key.root@,
            ) + (s6 + (spec_json_string(ScaleType::spec_name(se.key.scale_type)) + (s7
                + t)))))))))[0] == ',');
        }
    }

    let p5 = match expect_lit_ws(v, p4, ",\"denominator\":") {
        Some(j) => j,
        None => {
            proof {
                assert forall|se: SongSettings, t: Seq<char>|
                    !(v@.skip(pos as int) == spec_json_settings(se) + t && se.key.root.wf()) by {
                    if v@.skip(pos as int) == spec_json_settings(se) + t && se.key.root.wf() {
                        assert(false);
                    }
                }
            }
            return None;
        },
    };
    let (denominator, p6) = match parse_num_ws(v, p5, 255) {
        Some(x) => x,
        None => {
            proof {
                assert forall|se: SongSettings, t: Seq<char>|
                    !(v@.skip(pos as int) == spec_json_settings(se) + t && se.key.root.wf()) by {
                    if v@.skip(pos as int) == spec_json_settings(se) + t && se.key.root.wf() {
                        assert((s4 + (spec_json_accents(se.time_signature.accents.accents@) + (s5
                            + (spec_u32_str(se.key.root@) + (s6 + (spec_json_string(
                            ScaleType::spec_name(se.key.scale_type),
                        ) + (s7 + t)))))))[0] == ',');
                        assert(false);
                    }
                }
            }
            return None;
        },
    };
    proof {
        assert forall|se: SongSettings, t: Seq<char>|
            (v@.skip(pos as int) == spec_json_settings(se) + t && se.key.root.wf()) implies (
        tempo as int == se.tempo as int && numerator as int == se.time_signature.numerator as int
            && denominator as int == se.time_signature.denominator as int && v@.skip(p6 as int)
            == s4 + (spec_json_accents(se.time_signature.accents.accents@) + (s5 + (spec_u32_str(
            se.key.root@,
        ) + (s6 + (spec_json_string(ScaleType::spec_name(se.key.scale_type)) + (s7 + t))))))) by {
            assert((s4 + (spec_json_accents(se.time_signature.accents.accents@) + (s5 + (
            spec_u32_str(se.key.root@) + (s6 + (spec_json_string(
                ScaleType::spec_name(se.key.scale_type),
            ) + (s7 + t)))))))[0] == ',');
        }
    }

    let p7 = match expect_lit_ws(v, p6, ",\"accents\":[") {
        Some(j) => j,
        None => {
            proof {
                assert forall|se: SongSettings, t: Seq<char>|
                    !(v@.skip(pos as int) == spec_json_settings(se) + t && se.key.root.wf()) by {
                    if v@.skip(pos as int) == spec_json_settings(se) + t && se.key.root.wf() {
                        assert(false);
                    }
                }
            }
            return None;
        },
    };
    let (accents, p8) = match parse_accents_array(v, p7) {
        Some(x) => x,
        None => {
            proof {
                assert forall|se: SongSettings, t: Seq<char>|
                    !(v@.skip(pos as int) == spec_json_settings(se) + t && se.key.root.wf()) by {
                    if v@.skip(pos as int) == spec_json_settings(se) + t && se.key.root.wf() {
                        let rest = s5 + (spec_u32_str(se.key.root@) + (s6 + (spec_json_string(
                            ScaleType::spec_name(se.key.scale_type),
                        ) + (s7 + t))));
                        assert(rest.len() > 0 && rest[0] == ']');
                        assert(false);
                    }
                }
            }
            return None;
        },
    };
    proof {
        assert forall|se: SongSettings, t: Seq<char>|
            (v@.skip(pos as int) == spec_json_settings(se) + t && se.key.root.wf()) implies (
        tempo as int == se.tempo as int && numerator as int == se.time_signature.numerator as int
            && denominator as int == se.time_signature.denominator as int && accents@
            == se.time_signature.accents.accents@ && v@.skip(p8 as int) == s5 + (spec_u32_str(
            se.key.root@,
        ) + (s6 + (spec_json_string(ScaleType::spec_name(se.key.scale_type)) + (s7 + t))))) by {
            let rest = s5 + (spec_u32_str(se.key.root@) + (s6 + (spec_json_string(
                ScaleType::spec_name(se.key.scale_type),
            ) + (s7 + t))));
            assert(rest.len() > 0 && rest[0] == ']');
        }
    }

    let p9 = match expect_lit_ws(v, p8, "]},\"key\":{\"root\":") {
        Some(j) => j,
        None => {
            proof {
                assert forall|se: SongSettings, t: Seq<char>|
                    !(v@.skip(pos as int) == spec_json_settings(se) + t && se.key.root.wf()) by {
                    if v@.skip(pos as int) == spec_json_settings(se) + t && se.key.root.wf() {
                        assert(false);
                    }
                }
            }
            return None;
        },
    };
    let (root, p10) = match parse_num_ws(v, p9, 11) {
        Some(x) => x,
        None => {
            proof {
                assert forall|se: SongSettings, t: Seq<char>|
                    !(v@.skip(pos as int) == spec_json_settings(se) + t && se.key.root.wf()) by {
                    if v@.skip(pos as int) == spec_json_settings(se) + t && se.key.root.wf() {
                        assert((s6 + (spec_json_string(ScaleType::spec_name(se.key.scale_type)) + (
                        s7 + t)))[0] == ',');
                        assert(false);
                    }
                }
            }
            return None;
        },
    };
    proof {
        assert forall|se: SongSettings, t: Seq<char>|
            (v@.skip(pos as int) == spec_json_settings(se) + t && se.key.root.wf()) implies (
        tempo as int == se.tempo as int && numerator as int == se.time_signature.numerator as int
            && denominator as int == se.time_signature.denominator as int && accents@
            == se.time_signature.accents.accents@ && root as int == se.key.root@ && v@.skip(
            p10 as int,
        ) == s6 + (spec_json_string(ScaleType::spec_name(se.key.scale_type)) + (s7 + t))) by {
            assert((s6 + (spec_json_string(ScaleType::spec_name(se.key.scale_type)) + (s7 + t)))[0]
                == ',');
        }
    }

    let p11 = match expect_lit_ws(v, p10, ",\"scale_type\":") {
        Some(j) => j,
        None => {
            proof {
                assert forall|se: SongSettings, t: Seq<char>|
                    !(v@.skip(pos as int) == spec_json_settings(se) + t && se.key.root.wf()) by {
                    if v@.skip(pos as int) == spec_json_settings(se) + t && se.key.root.wf() {
                        assert(false);
                    }
                }
            }
            return None;
        },
    };
    let (kind_name, p12) = match parse_string_ws(v, json, p11) {
        Some(x) => x,
        None => {
            proof {
                assert forall|se: SongSettings, t: Seq<char>|
                    !(v@.skip(pos as int) == spec_json_settings(se) + t && se.key.root.wf()) by {
                    if v@.skip(pos as int) == spec_json_settings(se) + t && se.key.root.wf() {
                        assert(false);
                    }
                }
            }
            return None;
        },
    };
    let scale_type = match scale_type_of_name(kind_name.as_str()) {
        Some(st) => st,
        None => {
            proof {
                assert forall|se: SongSettings, t: Seq<char>|
                    !(v@.skip(pos as int) == spec_json_settings(se) + t && se.key.root.wf()) by {
                    if v@.skip(pos as int) == spec_json_settings(se) + t && se.key.root.wf() {
                        assert(kind_name@ == ScaleType::spec_name(se.key.scale_type));
                        assert(false);
                    }
                }
            }
            return None;
        },
    };
    let p13 = match expect_lit_ws(v, p12, "}},\"notes\":[") {
        Some(j) => j,
        None => {
            proof {
                assert forall|se: SongSettings, t: Seq<char>|
                    !(v@.skip(pos as int) == spec_json_settings(se) + t && se.key.root.wf()) by {
                    if v@.skip(pos as int) == spec_json_settings(se) + t && se.key.root.wf() {
                        assert(false);
                    }
                }
            }
            return None;
        },
    };
    let settings = SongSettings {
        tempo: tempo as u16,
        time_signature: TimeSignature {
            numerator: numerator as u8,
            denominator: denominator as u8,
            accents: AccentPattern { accents },
        },
        key: Scale { root: PitchClass::new(root as u8), scale_type },
    };
    proof {
        assert forall|se: SongSettings, t: Seq<char>|
            (v@.skip(pos as int) == spec_json_settings(se) + t && se.key.root.wf()) implies (
        settings.tempo == se.tempo && settings.time_signature.numerator
            == se.time_signature.numerator && settings.time_signature.denominator
            == se.time_signature.denominator && settings.time_signature.accents.accents@
            == se.time_signature.accents.accents@ && settings.key.root@ == se.key.root@
            && settings.key.scale_type == se.key.scale_type && v@.skip(p13 as int) == t) by {
            assert(kind_name@ == ScaleType::spec_name(se.key.scale_type));
            lemma_scale_name_injective(scale_type, se.key.scale_type);
        }
    }
    Some((settings, p13))
}


/// The whole rendered score, re-grouped into its four chunks.
proof fn lemma_json_of_chunks(s: Song)
    ensures
        spec_json_of(s) == spec_json_head(
            s.version@,
            s.metadata.title@,
            s.metadata.composer@,
            s.metadata.created@,
            s.metadata.modified@,
        ) + (spec_json_settings(s.settings) + (spec_json_notes(s.notes@) + "]}"@)),
{
    let h = spec_json_head(
        s.version@,
        s.metadata.title@,
        s.metadata.composer@,
        s.metadata.created@,
        s.metadata.modified@,
    );
    let se = spec_json_settings(s.settings);
    let no = spec_json_notes(s.notes@);
    vstd::seq_lib::lemma_concat_associative(h + se, no, "]}"@);
    vstd::seq_lib::lemma_concat_associative(h, se, no + "]}"@);
}

impl Song {
    /// Deserialize a song from its stored JSON text. The reader follows
    /// the persisted format: whitespace between tokens is insignificant
    /// and a note's voice field may be missing (reading as the main
    /// voice). On the writer's canonical text it is total and exact: every
    /// stored score loads, and what it loads renders back to that very
    /// text, so a saved score round-trips to identical metadata, settings
    /// and notes.
    #[verifier::rlimit(100)]
    pub fn from_json(json: &str) -> (r: Result<Song, MozartError>)
        ensures
            r matches Err(e) ==> e is SerializationError,
            r matches Ok(song) ==> song.settings.key.root.wf(),
            forall|s: Song|
                (json@ == spec_json_of(s) && s.settings.key.root.wf()) ==> (r matches Ok(song)
                    && json@ == spec_json_of(song)),
    {
        let chars = str_to_chars(json);
        let v = &chars;
        let n = chars.len();
        proof {
            reveal_strlit("]}");
            assert(v@.skip(0) =~= json@);
        }

        let (version, metadata, p10) = match parse_json_head(v, json, 0) {
            Some(x) => x,
            None => {
                proof {
                    assert forall|s: Song|
                        !(json@ == spec_json_of(s) && s.settings.key.root.wf()) by {
                        if json@ == spec_json_of(s) && s.settings.key.root.wf() {
                            lemma_json_of_chunks(s);
                            assert(false);
                        }
                    }
                }
                return Err(malformed());
            },
        };
        proof {
            assert forall|s: Song| (json@ == spec_json_of(s) && s.settings.key.root.wf()) implies (
            version@ == s.version@ && metadata.title@ == s.metadata.title@ && metadata.composer@
                == s.metadata.composer@ && metadata.created@ == s.metadata.created@
                && metadata.modified@ == s.metadata.modified@ && v@.skip(p10 as int)
                == spec_json_settings(s.settings) + (spec_json_notes(s.notes@) + "]}"@)) by {
                lemma_json_of_chunks(s);
            }
        }

        let (settings, p23) = match parse_json_settings(v, json, p10) {
            Some(x) => x,
            None => {
                proof {
                    assert forall|s: Song|
                        !(json@ == spec_json_of(s) && s.settings.key.root.wf()) by {
                        if json@ == spec_json_of(s) && s.settings.key.root.wf() {
                            assert(false);
                        }
                    }
                }
                return Err(malformed());
            },
        };
        proof {
            assert forall|s: Song| (json@ == spec_json_of(s) && s.settings.key.root.wf()) implies (
            settings.tempo == s.settings.tempo && settings.time_signature.numerator
                == s.settings.time_signature.numerator && settings.time_signature.denominator
                == s.settings.time_signature.denominator
                && settings.time_signature.accents.accents@
                == s.settings.time_signature.accents.accents@ && settings.key.root@
                == s.settings.key.root@ && settings.key.scale_type == s.settings.key.scale_type
                && v@.skip(p23 as int) == spec_json_notes(s.notes@) + "]}"@) by {}
        }

        let (notes, p24) = match parse_notes_array(v, p23) {
            Some(x) => x,
            None => {
                proof {
                    assert forall|s: Song|
                        !(json@ == spec_json_of(s) && s.settings.key.root.wf()) by {
                        if json@ == spec_json_of(s) && s.settings.key.root.wf() {
                            assert("]}"@.len() > 0 && "]}"@[0] == ']');
                            assert(false);
                        }
                    }
                }
                return Err(malformed());
            },
        };
        proof {
            assert forall|s: Song| (json@ == spec_json_of(s) && s.settings.key.root.wf()) implies (
            notes@ == s.notes@ && v@.skip(p24 as int) == "]}"@) by {
                assert("]}"@.len() > 0 && "]}"@[0] == ']');
            }
        }

        let p25 = match expect_lit_ws(v, p24, "]}") {
            Some(j) => j,
            None => {
                proof {
                    assert forall|s: Song|
                        !(json@ == spec_json_of(s) && s.settings.key.root.wf()) by {
                        if json@ == spec_json_of(s) && s.settings.key.root.wf() {
                            assert(v@.skip(p24 as int) =~= "]}"@ + Seq::<char>::empty());
                            assert(false);
                        }
                    }
                }
                return Err(malformed());
            },
        };
        let p26 = skip_ws(v, p25);
        if p26 != n {
            proof {
                assert forall|s: Song| !(json@ == spec_json_of(s) && s.settings.key.root.wf()) by {
                    if json@ == spec_json_of(s) && s.settings.key.root.wf() {
                        assert(v@.skip(p24 as int) =~= "]}"@ + Seq::<char>::empty());
                        assert(v@.skip(p25 as int) == Seq::<char>::empty());
                        assert(p25 == n);
                        assert(false);
                    }
                }
            }
            return Err(malformed());
        }

        let song = Song { version, metadata, settings, notes };
        proof {
            assert forall|s: Song| (json@ == spec_json_of(s) && s.settings.key.root.wf()) implies
                json@ == spec_json_of(song) by {
                assert(spec_json_head(
                    song.version@,
                    song.metadata.title@,
                    song.metadata.composer@,
                    song.metadata.created@,
                    song.metadata.modified@,
                ) == spec_json_head(
                    s.version@,
                    s.metadata.title@,
                    s.metadata.composer@,
                    s.metadata.created@,
                    s.metadata.modified@,
                ));
                assert(spec_json_settings(song.settings) == spec_json_settings(s.settings));
                assert(spec_json_notes(song.notes@) == spec_json_notes(s.notes@));
                assert(spec_json_of(song) == spec_json_of(s));
            }
        }
        Ok(song)
    }
}


/// The stored text determines the whole score: two songs with the same
/// rendering agree on version, metadata, settings and notes. Together
/// with the writer's and reader's contracts this is the round trip:
/// loading a saved score reproduces exactly the metadata, settings and
/// notes that were saved.
#[verifier::rlimit(100)]
pub proof fn lemma_json_text_determines_song(s1: Song, s2: Song)
    requires
        spec_json_of(s1) == spec_json_of(s2),
    ensures
        s1.version@ == s2.version@,
        s1.metadata.title@ == s2.metadata.title@,
        s1.metadata.composer@ == s2.metadata.composer@,
        s1.metadata.created@ == s2.metadata.created@,
        s1.metadata.modified@ == s2.metadata.modified@,
        s1.settings.tempo == s2.settings.tempo,
        s1.settings.time_signature.numerator == s2.settings.time_signature.numerator,
        s1.settings.time_signature.denominator == s2.settings.time_signature.denominator,
        s1.settings.time_signature.accents.accents@ == s2.settings.time_signature.accents.accents@,
        s1.settings.key.root@ == s2.settings.key.root@,
        s1.settings.key.scale_type == s2.settings.key.scale_type,
        s1.notes@ == s2.notes@,
{
    lemma_json_of_reassoc(s1);
    lemma_json_of_reassoc(s2);
    crate::pitch::lemma_pitch_class_view_bounds(s1.settings.key.root);
    crate::pitch::lemma_pitch_class_view_bounds(s2.settings.key.root);
    reveal_strlit(",\"time_signature\":{\"numerator\":");
    reveal_strlit(",\"denominator\":");
    reveal_strlit(",\"accents\":[");
    reveal_strlit("]},\"key\":{\"root\":");
    reveal_strlit(",\"scale_type\":");
    reveal_strlit("]}");
    lemma_seq_cancel(
        "{\"version\":"@,
        spec_json_string(s1.version@) + (",\"metadata\":{\"title\":"@ + (spec_json_string(s1.metadata.title@) + (",\"composer\":"@ + (spec_json_string(s1.metadata.composer@) + (",\"created\":"@ + (spec_json_string(s1.metadata.created@) + (",\"modified\":"@ + (spec_json_string(s1.metadata.modified@) + ("},\"settings\":{\"tempo\":"@ + (spec_u32_str(s1.settings.tempo as int) + (",\"time_signature\":{\"numerator\":"@ + (spec_u32_str(s1.settings.time_signature.numerator as int) + (",\"denominator\":"@ + (spec_u32_str(s1.settings.time_signature.denominator as int) + (",\"accents\":["@ + (spec_json_accents(s1.settings.time_signature.accents.accents@) + ("]},\"key\":{\"root\":"@ + (spec_u32_str(s1.settings.key.root@) + (",\"scale_type\":"@ + (spec_json_string(ScaleType::spec_name(s1.settings.key.scale_type)) + ("}},\"notes\":["@ + (spec_json_notes(s1.notes@) + ("]}"@))))))))))))))))))))))),
        spec_json_string(s2.version@) + (",\"metadata\":{\"title\":"@ + (spec_json_string(s2.metadata.title@) + (",\"composer\":"@ + (spec_json_string(s2.metadata.composer@) + (",\"created\":"@ + (spec_json_string(s2.metadata.created@) + (",\"modified\":"@ + (spec_json_string(s2.metadata.modified@) + ("},\"settings\":{\"tempo\":"@ + (spec_u32_str(s2.settings.tempo as int) + (",\"time_signature\":{\"numerator\":"@ + (spec_u32_str(s2.settings.time_signature.numerator as int) + (",\"denominator\":"@ + (spec_u32_str(s2.settings.time_signature.denominator as int) + (",\"accents\":["@ + (spec_json_accents(s2.settings.time_signature.accents.accents@) + ("]},\"key\":{\"root\":"@ + (spec_u32_str(s2.settings.key.root@) + (",\"scale_type\":"@ + (spec_json_string(ScaleType::spec_name(s2.settings.key.scale_type)) + ("}},\"notes\":["@ + (spec_json_notes(s2.notes@) + ("]}"@))))))))))))))))))))))),
    );
    lemma_jstring_prefix(
        s1.version@,
        s2.version@,
        ",\"metadata\":{\"title\":"@ + (spec_json_string(s1.metadata.title@) + (",\"composer\":"@ + (spec_json_string(s1.metadata.composer@) + (",\"created\":"@ + (spec_json_string(s1.metadata.created@) + (",\"modified\":"@ + (spec_json_string(s1.metadata.modified@) + ("},\"settings\":{\"tempo\":"@ + (spec_u32_str(s1.settings.tempo as int) + (",\"time_signature\":{\"numerator\":"@ + (spec_u32_str(s1.settings.time_signature.numerator as int) + (",\"denominator\":"@ + (spec_u32_str(s1.settings.time_signature.denominator as int) + (",\"accents\":["@ + (spec_json_accents(s1.settings.time_signature.accents.accents@) + ("]},\"key\":{\"root\":"@ + (spec_u32_str(s1.settings.key.root@) + (",\"scale_type\":"@ + (spec_json_string(ScaleType::spec_name(s1.settings.key.scale_type)) + ("}},\"notes\":["@ + (spec_json_notes(s1.notes@) + ("]}"@)))))))))))))))))))))),
        ",\"metadata\":{\"title\":"@ + (spec_json_string(s2.metadata.title@) + (",\"composer\":"@ + (spec_json_string(s2.metadata.composer@) + (",\"created\":"@ + (spec_json_string(s2.metadata.created@) + (",\"modified\":"@ + (spec_json_string(s2.metadata.modified@) + ("},\"settings\":{\"tempo\":"@ + (spec_u32_str(s2.settings.tempo as int) + (",\"time_signature\":{\"numerator\":"@ + (spec_u32_str(s2.settings.time_signature.numerator as int) + (",\"denominator\":"@ + (spec_u32_str(s2.settings.time_signature.denominator as int) + (",\"accents\":["@ + (spec_json_accents(s2.settings.time_signature.accents.accents@) + ("]},\"key\":{\"root\":"@ + (spec_u32_str(s2.settings.key.root@) + (",\"scale_type\":"@ + (spec_json_string(ScaleType::spec_name(s2.settings.key.scale_type)) + ("}},\"notes\":["@ + (spec_json_notes(s2.notes@) + ("]}"@)))))))))))))))))))))),
    );
    lemma_seq_cancel(
        ",\"metadata\":{\"title\":"@,
        spec_json_string(s1.metadata.title@) + (",\"composer\":"@ + (spec_json_string(s1.metadata.composer@) + (",\"created\":"@ + (spec_json_string(s1.metadata.created@) + (",\"modified\":"@ + (spec_json_string(s1.metadata.modified@) + ("},\"settings\":{\"tempo\":"@ + (spec_u32_str(s1.settings.tempo as int) + (",\"time_signature\":{\"numerator\":"@ + (spec_u32_str(s1.settings.time_signature.numerator as int) + (",\"denominator\":"@ + (spec_u32_str(s1.settings.time_signature.denominator as int) + (",\"accents\":["@ + (spec_json_accents(s1.settings.time_signature.accents.accents@) + ("]},\"key\":{\"root\":"@ + (spec_u32_str(s1.settings.key.root@) + (",\"scale_type\":"@ + (spec_json_string(ScaleType::spec_name(s1.settings.key.scale_type)) + ("}},\"notes\":["@ + (spec_json_notes(s1.notes@) + ("]}"@))))))))))))))))))))),
        spec_json_string(s2.metadata.title@) + (",\"composer\":"@ + (spec_json_string(s2.metadata.composer@) + (",\"created\":"@ + (spec_json_string(s2.metadata.created@) + (",\"modified\":"@ + (spec_json_string(s2.metadata.modified@) + ("},\"settings\":{\"tempo\":"@ + (spec_u32_str(s2.settings.tempo as int) + (",\"time_signature\":{\"numerator\":"@ + (spec_u32_str(s2.settings.time_signature.numerator as int) + (",\"denominator\":"@ + (spec_u32_str(s2.settings.time_signature.denominator as int) + (",\"accents\":["@ + (spec_json_accents(s2.settings.time_signature.accents.accents@) + ("]},\"key\":{\"root\":"@ + (spec_u32_str(s2.settings.key.root@) + (",\"scale_type\":"@ + (spec_json_string(ScaleType::spec_name(s2.settings.key.scale_type)) + ("}},\"notes\":["@ + (spec_json_notes(s2.notes@) + ("]}"@))))))))))))))))))))),
    );
    lemma_jstring_prefix(
        s1.metadata.title@,
        s2.metadata.title@,
        ",\"composer\":"@ + (spec_json_string(s1.metadata.composer@) + (",\"created\":"@ + (spec_json_string(s1.metadata.created@) + (",\"modified\":"@ + (spec_json_string(s1.metadata.modified@) + ("},\"settings\":{\"tempo\":"@ + (spec_u32_str(s1.settings.tempo as int) + (",\"time_signature\":{\"numerator\":"@ + (spec_u32_str(s1.settings.time_signature.numerator as int) + (",\"denominator\":"@ + (spec_u32_str(s1.settings.time_signature.denominator as int) + (",\"accents\":["@ + (spec_json_accents(s1.settings.time_signature.accents.accents@) + ("]},\"key\":{\"root\":"@ + (spec_u32_str(s1.settings.key.root@) + (",\"scale_type\":"@ + (spec_json_string(ScaleType::spec_name(s1.settings.key.scale_type)) + ("}},\"notes\":["@ + (spec_json_notes(s1.notes@) + ("]}"@)))))))))))))))))))),
        ",\"composer\":"@ + (spec_json_string(s2.metadata.composer@) + (",\"created\":"@ + (spec_json_string(s2.metadata.created@) + (",\"modified\":"@ + (spec_json_string(s2.metadata.modified@) + ("},\"settings\":{\"tempo\":"@ + (spec_u32_str(s2.settings.tempo as int) + (",\"time_signature\":{\"numerator\":"@ + (spec_u32_str(s2.settings.time_signature.numerator as int) + (",\"denominator\":"@ + (spec_u32_str(s2.settings.time_signature.denominator as int) + (",\"accents\":["@ + (spec_json_accents(s2.settings.time_signature.accents.accents@) + ("]},\"key\":{\"root\":"@ + (spec_u32_str(s2.settings.key.root@) + (",\"scale_type\":"@ + (spec_json_string(ScaleType::spec_name(s2.settings.key.scale_type)) + ("}},\"notes\":["@ + (spec_json_notes(s2.notes@) + ("]}"@)))))))))))))))))))),
    );
    lemma_seq_cancel(
        ",\"composer\":"@,
        spec_json_string(s1.metadata.composer@) + (",\"created\":"@ + (spec_json_string(s1.metadata.created@) + (",\"modified\":"@ + (spec_json_string(s1.metadata.modified@) + ("},\"settings\":{\"tempo\":"@ + (spec_u32_str(s1.settings.tempo as int) + (",\"time_signature\":{\"numerator\":"@ + (spec_u32_str(s1.settings.time_signature.numerator as int) + (",\"denominator\":"@ + (spec_u32_str(s1.settings.time_signature.denominator as int) + (",\"accents\":["@ + (spec_json_accents(s1.settings.time_signature.accents.accents@) + ("]},\"key\":{\"root\":"@ + (spec_u32_str(s1.settings.key.root@) + (",\"scale_type\":"@ + (spec_json_string(ScaleType::spec_name(s1.settings.key.scale_type)) + ("}},\"notes\":["@ + (spec_json_notes(s1.notes@) + ("]}"@))))))))))))))))))),
        spec_json_string(s2.metadata.composer@) + (",\"created\":"@ + (spec_json_string(s2.metadata.created@) + (",\"modified\":"@ + (spec_json_string(s2.metadata.modified@) + ("},\"settings\":{\"tempo\":"@ + (spec_u32_str(s2.settings.tempo as int) + (",\"time_signature\":{\"numerator\":"@ + (spec_u32_str(s2.settings.time_signature.numerator as int) + (",\"denominator\":"@ + (spec_u32_str(s2.settings.time_signature.denominator as int) + (",\"accents\":["@ + (spec_json_accents(s2.settings.time_signature.accents.accents@) + ("]},\"key\":{\"root\":"@ + (spec_u32_str(s2.settings.key.root@) + (",\"scale_type\":"@ + (spec_json_string(ScaleType::spec_name(s2.settings.key.scale_type)) + ("}},\"notes\":["@ + (spec_json_notes(s2.notes@) + ("]}"@))))))))))))))))))),
    );
    lemma_jstring_prefix(
        s1.metadata.composer@,
        s2.metadata.composer@,
        ",\"created\":"@ + (spec_json_string(s1.metadata.created@) + (",\"modified\":"@ + (spec_json_string(s1.metadata.modified@) + ("},\"settings\":{\"tempo\":"@ + (spec_u32_str(s1.settings.tempo as int) + (",\"time_signature\":{\"numerator\":"@ + (spec_u32_str(s1.settings.time_signature.numerator as int) + (",\"denominator\":"@ + (spec_u32_str(s1.settings.time_signature.denominator as int) + (",\"accents\":["@ + (spec_json_accents(s1.settings.time_signature.accents.accents@) + ("]},\"key\":{\"root\":"@ + (spec_u32_str(s1.settings.key.root@) + (",\"scale_type\":"@ + (spec_json_string(ScaleType::spec_name(s1.settings.key.scale_type)) + ("}},\"notes\":["@ + (spec_json_notes(s1.notes@) + ("]}"@)))))))))))))))))),
        ",\"created\":"@ + (spec_json_string(s2.metadata.created@) + (",\"modified\":"@ + (spec_json_string(s2.metadata.modified@) + ("},\"settings\":{\"tempo\":"@ + (spec_u32_str(s2.settings.tempo as int) + (",\"time_signature\":{\"numerator\":"@ + (spec_u32_str(s2.settings.time_signature.numerator as int) + (",\"denominator\":"@ + (spec_u32_str(s2.settings.time_signature.denominator as int) + (",\"accents\":["@ + (spec_json_accents(s2.settings.time_signature.accents.accents@) + ("]},\"key\":{\"root\":"@ + (spec_u32_str(s2.settings.key.root@) + (",\"scale_type\":"@ + (spec_json_string(ScaleType::spec_name(s2.settings.key.scale_type)) + ("}},\"notes\":["@ + (spec_json_notes(s2.notes@) + ("]}"@)))))))))))))))))),
    );
    lemma_seq_cancel(
        ",\"created\":"@,
        spec_json_string(s1.metadata.created@) + (",\"modified\":"@ + (spec_json_string(s1.metadata.modified@) + ("},\"settings\":{\"tempo\":"@ + (spec_u32_str(s1.settings.tempo as int) + (",\"time_signature\":{\"numerator\":"@ + (spec_u32_str(s1.settings.time_signature.numerator as int) + (",\"denominator\":"@ + (spec_u32_str(s1.settings.time_signature.denominator as int) + (",\"accents\":["@ + (spec_json_accents(s1.settings.time_signature.accents.accents@) + ("]},\"key\":{\"root\":"@ + (spec_u32_str(s1.settings.key.root@) + (",\"scale_type\":"@ + (spec_json_string(ScaleType::spec_name(s1.settings.key.scale_type)) + ("}},\"notes\":["@ + (spec_json_notes(s1.notes@) + ("]}"@))))))))))))))))),
        spec_json_string(s2.metadata.created@) + (",\"modified\":"@ + (spec_json_string(s2.metadata.modified@) + ("},\"settings\":{\"tempo\":"@ + (spec_u32_str(s2.settings.tempo as int) + (",\"time_signature\":{\"numerator\":"@ + (spec_u32_str(s2.settings.time_signature.numerator as int) + (",\"denominator\":"@ + (spec_u32_str(s2.settings.time_signature.denominator as int) + (",\"accents\":["@ + (spec_json_accents(s2.settings.time_signature.accents.accents@) + ("]},\"key\":{\"root\":"@ + (spec_u32_str(s2.settings.key.root@) + (",\"scale_type\":"@ + (spec_json_string(ScaleType::spec_name(s2.settings.key.scale_type)) + ("}},\"notes\":["@ + (spec_json_notes(s2.notes@) + ("]}"@))))))))))))))))),
    );
    lemma_jstring_prefix(
        s1.metadata.created@,
        s2.metadata.created@,
        ",\"modified\":"@ + (spec_json_string(s1.metadata.modified@) + ("},\"settings\":{\"tempo\":"@ + (spec_u32_str(s1.settings.tempo as int) + (",\"time_signature\":{\"numerator\":"@ + (spec_u32_str(s1.settings.time_signature.numerator as int) + (",\"denominator\":"@ + (spec_u32_str(s1.settings.time_signature.denominator as int) + (",\"accents\":["@ + (spec_json_accents(s1.settings.time_signature.accents.accents@) + ("]},\"key\":{\"root\":"@ + (spec_u32_str(s1.settings.key.root@) + (",\"scale_type\":"@ + (spec_json_string(ScaleType::spec_name(s1.settings.key.scale_type)) + ("}},\"notes\":["@ + (spec_json_notes(s1.notes@) + ("]}"@)))))))))))))))),
        ",\"modified\":"@ + (spec_json_string(s2.metadata.modified@) + ("},\"settings\":{\"tempo\":"@ + (spec_u32_str(s2.settings.tempo as int) + (",\"time_signature\":{\"numerator\":"@ + (spec_u32_str(s2.settings.time_signature.numerator as int) + (",\"denominator\":"@ + (spec_u32_str(s2.settings.time_signature.denominator as int) + (",\"accents\":["@ + (spec_json_accents(s2.settings.time_signature.accents.accents@) + ("]},\"key\":{\"root\":"@ + (spec_u32_str(s2.settings.key.root@) + (",\"scale_type\":"@ + (spec_json_string(ScaleType::spec_name(s2.settings.key.scale_type)) + ("}},\"notes\":["@ + (spec_json_notes(s2.notes@) + ("]}"@)))))))))))))))),
    );
    lemma_seq_cancel(
        ",\"modified\":"@,
        spec_json_string(s1.metadata.modified@) + ("},\"settings\":{\"tempo\":"@ + (spec_u32_str(s1.settings.tempo as int) + (",\"time_signature\":{\"numerator\":"@ + (spec_u32_str(s1.settings.time_signature.numerator as int) + (",\"denominator\":"@ + (spec_u32_str(s1.settings.time_signature.denominator as int) + (",\"accents\":["@ + (spec_json_accents(s1.settings.time_signature.accents.accents@) + ("]},\"key\":{\"root\":"@ + (spec_u32_str(s1.settings.key.root@) + (",\"scale_type\":"@ + (spec_json_string(ScaleType::spec_name(s1.settings.key.scale_type)) + ("}},\"notes\":["@ + (spec_json_notes(s1.notes@) + ("]}"@))))))))))))))),
        spec_json_string(s2.metadata.modified@) + ("},\"settings\":{\"tempo\":"@ + (spec_u32_str(s2.settings.tempo as int) + (",\"time_signature\":{\"numerator\":"@ + (spec_u32_str(s2.settings.time_signature.numerator as int) + (",\"denominator\":"@ + (spec_u32_str(s2.settings.time_signature.denominator as int) + (",\"accents\":["@ + (spec_json_accents(s2.settings.time_signature.accents.accents@) + ("]},\"key\":{\"root\":"@ + (spec_u32_str(s2.settings.key.root@) + (",\"scale_type\":"@ + (spec_json_string(ScaleType::spec_name(s2.settings.key.scale_type)) + ("}},\"notes\":["@ + (spec_json_notes(s2.notes@) + ("]}"@))))))))))))))),
    );
    lemma_jstring_prefix(
        s1.metadata.modified@,
        s2.metadata.modified@,
        "},\"settings\":{\"tempo\":"@ + (spec_u32_str(s1.settings.tempo as int) + (",\"time_signature\":{\"numerator\":"@ + (spec_u32_str(s1.settings.time_signature.numerator as int) + (",\"denominator\":"@ + (spec_u32_str(s1.settings.time_signature.denominator as int) + (",\"accents\":["@ + (spec_json_accents(s1.settings.time_signature.accents.accents@) + ("]},\"key\":{\"root\":"@ + (spec_u32_str(s1.settings.key.root@) + (",\"scale_type\":"@ + (spec_json_string(ScaleType::spec_name(s1.settings.key.scale_type)) + ("}},\"notes\":["@ + (spec_json_notes(s1.notes@) + ("]}"@)))))))))))))),
        "},\"settings\":{\"tempo\":"@ + (spec_u32_str(s2.settings.tempo as int) + (",\"time_signature\":{\"numerator\":"@ + (spec_u32_str(s2.settings.time_signature.numerator as int) + (",\"denominator\":"@ + (spec_u32_str(s2.settings.time_signature.denominator as int) + (",\"accents\":["@ + (spec_json_accents(s2.settings.time_signature.accents.accents@) + ("]},\"key\":{\"root\":"@ + (spec_u32_str(s2.settings.key.root@) + (",\"scale_type\":"@ + (spec_json_string(ScaleType::spec_name(s2.settings.key.scale_type)) + ("}},\"notes\":["@ + (spec_json_notes(s2.notes@) + ("]}"@)))))))))))))),
    );
    lemma_seq_cancel(
        "},\"settings\":{\"tempo\":"@,
        spec_u32_str(s1.settings.tempo as int) + (",\"time_signature\":{\"numerator\":"@ + (spec_u32_str(s1.settings.time_signature.numerator as int) + (",\"denominator\":"@ + (spec_u32_str(s1.settings.time_signature.denominator as int) + (",\"accents\":["@ + (spec_json_accents(s1.settings.time_signature.accents.accents@) + ("]},\"key\":{\"root\":"@ + (spec_u32_str(s1.settings.key.root@) + (",\"scale_type\":"@ + (spec_json_string(ScaleType::spec_name(s1.settings.key.scale_type)) + ("}},\"notes\":["@ + (spec_json_notes(s1.notes@) + ("]}"@))))))))))))),
        spec_u32_str(s2.settings.tempo as int) + (",\"time_signature\":{\"numerator\":"@ + (spec_u32_str(s2.settings.time_signature.numerator as int) + (",\"denominator\":"@ + (spec_u32_str(s2.settings.time_signature.denominator as int) + (",\"accents\":["@ + (spec_json_accents(s2.settings.time_signature.accents.accents@) + ("]},\"key\":{\"root\":"@ + (spec_u32_str(s2.settings.key.root@) + (",\"scale_type\":"@ + (spec_json_string(ScaleType::spec_name(s2.settings.key.scale_type)) + ("}},\"notes\":["@ + (spec_json_notes(s2.notes@) + ("]}"@))))))))))))),
    );
    lemma_number_prefix(
        s1.settings.tempo as int,
        s2.settings.tempo as int,
        ",\"time_signature\":{\"numerator\":"@ + (spec_u32_str(s1.settings.time_signature.numerator as int) + (",\"denominator\":"@ + (spec_u32_str(s1.settings.time_signature.denominator as int) + (",\"accents\":["@ + (spec_json_accents(s1.settings.time_signature.accents.accents@) + ("]},\"key\":{\"root\":"@ + (spec_u32_str(s1.settings.key.root@) + (",\"scale_type\":"@ + (spec_json_string(ScaleType::spec_name(s1.settings.key.scale_type)) + ("}},\"notes\":["@ + (spec_json_notes(s1.notes@) + ("]}"@)))))))))))),
        ",\"time_signature\":{\"numerator\":"@ + (spec_u32_str(s2.settings.time_signature.numerator as int) + (",\"denominator\":"@ + (spec_u32_str(s2.settings.time_signature.denominator as int) + (",\"accents\":["@ + (spec_json_accents(s2.settings.time_signature.accents.accents@) + ("]},\"key\":{\"root\":"@ + (spec_u32_str(s2.settings.key.root@) + (",\"scale_type\":"@ + (spec_json_string(ScaleType::spec_name(s2.settings.key.scale_type)) + ("}},\"notes\":["@ + (spec_json_notes(s2.notes@) + ("]}"@)))))))))))),
    );
    lemma_seq_cancel(
        ",\"time_signature\":{\"numerator\":"@,
        spec_u32_str(s1.settings.time_signature.numerator as int) + (",\"denominator\":"@ + (spec_u32_str(s1.settings.time_signature.denominator as int) + (",\"accents\":["@ + (spec_json_accents(s1.settings.time_signature.accents.accents@) + ("]},\"key\":{\"root\":"@ + (spec_u32_str(s1.settings.key.root@) + (",\"scale_type\":"@ + (spec_json_string(ScaleType::spec_name(s1.settings.key.scale_type)) + ("}},\"notes\":["@ + (spec_json_notes(s1.notes@) + ("]}"@))))))))))),
        spec_u32_str(s2.settings.time_signature.numerator as int) + (",\"denominator\":"@ + (spec_u32_str(s2.settings.time_signature.denominator as int) + (",\"accents\":["@ + (spec_json_accents(s2.settings.time_signature.accents.accents@) + ("]},\"key\":{\"root\":"@ + (spec_u32_str(s2.settings.key.root@) + (",\"scale_type\":"@ + (spec_json_string(ScaleType::spec_name(s2.settings.key.scale_type)) + ("}},\"notes\":["@ + (spec_json_notes(s2.notes@) + ("]}"@))))))))))),
    );
    lemma_number_prefix(
        s1.settings.time_signature.numerator as int,
        s2.settings.time_signature.numerator as int,
        ",\"denominator\":"@ + (spec_u32_str(s1.settings.time_signature.denominator as int) + (",\"accents\":["@ + (spec_json_accents(s1.settings.time_signature.accents.accents@) + ("]},\"key\":{\"root\":"@ + (spec_u32_str(s1.settings.key.root@) + (",\"scale_type\":"@ + (spec_json_string(ScaleType::spec_name(s1.settings.key.scale_type)) + ("}},\"notes\":["@ + (spec_json_notes(s1.notes@) + ("]}"@)))))))))),
        ",\"denominator\":"@ + (spec_u32_str(s2.settings.time_signature.denominator as int) + (",\"accents\":["@ + (spec_json_accents(s2.settings.time_signature.accents.accents@) + ("]},\"key\":{\"root\":"@ + (spec_u32_str(s2.settings.key.root@) + (",\"scale_type\":"@ + (spec_json_string(ScaleType::spec_name(s2.settings.key.scale_type)) + ("}},\"notes\":["@ + (spec_json_notes(s2.notes@) + ("]}"@)))))))))),
    );
    lemma_seq_cancel(
        ",\"denominator\":"@,
        spec_u32_str(s1.settings.time_signature.denominator as int) + (",\"accents\":["@ + (spec_json_accents(s1.settings.time_signature.accents.accents@) + ("]},\"key\":{\"root\":"@ + (spec_u32_str(s1.settings.key.root@) + (",\"scale_type\":"@ + (spec_json_string(ScaleType::spec_name(s1.settings.key.scale_type)) + ("}},\"notes\":["@ + (spec_json_notes(s1.notes@) + ("]}"@))))))))),
        spec_u32_str(s2.settings.time_signature.denominator as int) + (",\"accents\":["@ + (spec_json_accents(s2.settings.time_signature.accents.accents@) + ("]},\"key\":{\"root\":"@ + (spec_u32_str(s2.settings.key.root@) + (",\"scale_type\":"@ + (spec_json_string(ScaleType::spec_name(s2.settings.key.scale_type)) + ("}},\"notes\":["@ + (spec_json_notes(s2.notes@) + ("]}"@))))))))),
    );
    lemma_number_prefix(
        s1.settings.time_signature.denominator as int,
        s2.settings.time_signature.denominator as int,
        ",\"accents\":["@ + (spec_json_accents(s1.settings.time_signature.accents.accents@) + ("]},\"key\":{\"root\":"@ + (spec_u32_str(s1.settings.key.root@) + (",\"scale_type\":"@ + (spec_json_string(ScaleType::spec_name(s1.settings.key.scale_type)) + ("}},\"notes\":["@ + (spec_json_notes(s1.notes@) + ("]}"@)))))))),
        ",\"accents\":["@ + (spec_json_accents(s2.settings.time_signature.accents.accents@) + ("]},\"key\":{\"root\":"@ + (spec_u32_str(s2.settings.key.root@) + (",\"scale_type\":"@ + (spec_json_string(ScaleType::spec_name(s2.settings.key.scale_type)) + ("}},\"notes\":["@ + (spec_json_notes(s2.notes@) + ("]}"@)))))))),
    );
    lemma_seq_cancel(
        ",\"accents\":["@,
        spec_json_accents(s1.settings.time_signature.accents.accents@) + ("]},\"key\":{\"root\":"@ + (spec_u32_str(s1.settings.key.root@) + (",\"scale_type\":"@ + (spec_json_string(ScaleType::spec_name(s1.settings.key.scale_type)) + ("}},\"notes\":["@ + (spec_json_notes(s1.notes@) + ("]}"@))))))),
        spec_json_accents(s2.settings.time_signature.accents.accents@) + ("]},\"key\":{\"root\":"@ + (spec_u32_str(s2.settings.key.root@) + (",\"scale_type\":"@ + (spec_json_string(ScaleType::spec_name(s2.settings.key.scale_type)) + ("}},\"notes\":["@ + (spec_json_notes(s2.notes@) + ("]}"@))))))),
    );
    lemma_accents_prefix(
        s1.settings.time_signature.accents.accents@,
        s2.settings.time_signature.accents.accents@,
        "]},\"key\":{\"root\":"@ + (spec_u32_str(s1.settings.key.root@) + (",\"scale_type\":"@ + (spec_json_string(ScaleType::spec_name(s1.settings.key.scale_type)) + ("}},\"notes\":["@ + (spec_json_notes(s1.notes@) + ("]}"@)))))),
        "]},\"key\":{\"root\":"@ + (spec_u32_str(s2.settings.key.root@) + (",\"scale_type\":"@ + (spec_json_string(ScaleType::spec_name(s2.settings.key.scale_type)) + ("}},\"notes\":["@ + (spec_json_notes(s2.notes@) + ("]}"@)))))),
    );
    lemma_seq_cancel(
        "]},\"key\":{\"root\":"@,
        spec_u32_str(s1.settings.key.root@) + (",\"scale_type\":"@ + (spec_json_string(ScaleType::spec_name(s1.settings.key.scale_type)) + ("}},\"notes\":["@ + (spec_json_notes(s1.notes@) + ("]}"@))))),
        spec_u32_str(s2.settings.key.root@) + (",\"scale_type\":"@ + (spec_json_string(ScaleType::spec_name(s2.settings.key.scale_type)) + ("}},\"notes\":["@ + (spec_json_notes(s2.notes@) + ("]}"@))))),
    );
    lemma_number_prefix(
        s1.settings.key.root@,
        s2.settings.key.root@,
        ",\"scale_type\":"@ + (spec_json_string(ScaleType::spec_name(s1.settings.key.scale_type)) + ("}},\"notes\":["@ + (spec_json_notes(s1.notes@) + ("]}"@)))),
        ",\"scale_type\":"@ + (spec_json_string(ScaleType::spec_name(s2.settings.key.scale_type)) + ("}},\"notes\":["@ + (spec_json_notes(s2.notes@) + ("]}"@)))),
    );
    lemma_seq_cancel(
        ",\"scale_type\":"@,
        spec_json_string(ScaleType::spec_name(s1.settings.key.scale_type)) + ("}},\"notes\":["@ + (spec_json_notes(s1.notes@) + ("]}"@))),
        spec_json_string(ScaleType::spec_name(s2.settings.key.scale_type)) + ("}},\"notes\":["@ + (spec_json_notes(s2.notes@) + ("]}"@))),
    );
    lemma_jstring_prefix(
        ScaleType::spec_name(s1.settings.key.scale_type),
        ScaleType::spec_name(s2.settings.key.scale_type),
        "}},\"notes\":["@ + (spec_json_notes(s1.notes@) + ("]}"@)),
        "}},\"notes\":["@ + (spec_json_notes(s2.notes@) + ("]}"@)),
    );
    lemma_seq_cancel(
        "}},\"notes\":["@,
        spec_json_notes(s1.notes@) + ("]}"@),
        spec_json_notes(s2.notes@) + ("]}"@),
    );
    lemma_notes_prefix(
        s1.notes@,
        s2.notes@,
        "]}"@,
        "]}"@,
    );
    lemma_scale_name_injective(s1.settings.key.scale_type, s2.settings.key.scale_type);
}

} // verus!


