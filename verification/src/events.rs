//! The data model: raw track events as the parser hands them over, and the
//! note/track/file summary types the extraction produces.

use vstd::prelude::*;

verus! {

/// One event of a track, reduced to the fields the extraction reads: the
/// delta time in ticks and the payload kind. Every other channel or meta
/// message is `Other` and is ignored.
pub enum RawEventKind {
    NoteOn { key: u8, vel: u8 },
    NoteOff { key: u8 },
    Tempo { micros_per_quarter: u32 },
    TrackName { bytes: Vec<u8> },
    Other,
}

/// One raw track event: ticks since the previous event, and the payload.
pub struct RawEvent {
    pub delta: u32,
    pub kind: RawEventKind,
}

/// A parsed file with metrical timing: the header's ticks-per-quarter-note
/// resolution and the event list of each track.
pub struct RawMidi {
    pub ticks_per_quarter: u16,
    pub tracks: Vec<Vec<RawEvent>>,
}

/// One note extracted from a track, with absolute millisecond timing
/// measured from the start of the track.
#[derive(Clone, Copy, Debug, PartialEq, Eq, Structural)]
pub struct MidiNote {
    pub note: u8,
    pub velocity: u8,
    pub time_ms: u64,
    pub duration_ms: u64,
}

/// One track of the file, keeping only the notes that were closed by a
/// matching note-off, sorted by start time.
#[derive(Debug)]
pub struct MidiTrack {
    pub index: usize,
    pub name: String,
    pub note_count: usize,
    pub notes: Vec<MidiNote>,
}

/// Summary of a whole file: every track that produced at least one note,
/// the total duration, and the last tempo value seen anywhere in the file.
#[derive(Debug)]
pub struct MidiFileInfo {
    pub file_name: String,
    pub duration_ms: u64,
    pub tempo_micros_per_quarter: u32,
    pub tracks: Vec<MidiTrack>,
}

impl MidiFileInfo {
    /// The file's tempo in thousandths of beats per minute, computed from
    /// the last tempo value seen: `60_000_000_000 / micros-per-quarter`.
    pub fn tempo_bpm_thousandths(&self) -> (r: u64)
        ensures
            r as nat == crate::timing::bpm_thousandths(self.tempo_micros_per_quarter as nat),
    {
        crate::timing::tempo_bpm_thousandths(self.tempo_micros_per_quarter)
    }
}

/// Why a byte stream was rejected.
#[derive(Clone, Copy, Debug, PartialEq, Eq, Structural)]
pub enum ParseError {
    /// The bytes are not a well-formed chunked MIDI container.
    MalformedHeader,
    /// The file uses timecode (frames-per-second) timing rather than
    /// ticks-per-quarter-note.
    UnsupportedTiming,
}

impl ParseError {
    /// The human-readable message surfaced to callers for this error.
    pub fn message(&self) -> (r: String)
        ensures
            *self == ParseError::MalformedHeader ==> r@ == "Failed to parse MIDI"@,
            *self == ParseError::UnsupportedTiming ==> r@ == "Timecode timing not supported"@,
    {
        match self {
            ParseError::MalformedHeader => "Failed to parse MIDI".to_owned(),
            ParseError::UnsupportedTiming => "Timecode timing not supported".to_owned(),
        }
    }
}

} // verus!
