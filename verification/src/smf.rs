//! The trusted boundary to the `midly` MIDI parser and to std's UTF-8
//! decoder. Everything here is believed, not proved: each item's contract is
//! justified by the named outside function's source.

use vstd::prelude::*;
use crate::events::{ParseError, RawEvent, RawEventKind, RawMidi};
use midly::{MetaMessage, MidiMessage, Timing, TrackEventKind};

verus! {

/// What `midly::Smf::parse` yields on the given bytes, reduced to the fields
/// the extraction reads. Parsing is a pure function of the bytes alone, so
/// the result has a name; nothing is claimed about its value, and callers
/// learn it only by calling `parse_midi_bytes`.
pub uninterp spec fn parse_smf(bytes: Seq<u8>) -> Result<RawMidi, ParseError>;

#[verifier::external_type_specification]
#[verifier::external_body]
pub struct ExTrackEvent<'a>(midly::TrackEvent<'a>);

/// Relies on the field layout of `midly::TrackEvent`: moves the delta time
/// and the payload fields of the one matching variant into `RawEvent`,
/// mapping every other variant to `Other`. Nothing is claimed here; the
/// meaning of the conversion is fixed by `parse_midi_bytes` below.
#[verifier::external_body]
fn convert_event(ev: &midly::TrackEvent<'_>) -> RawEvent {
    RawEvent {
        delta: ev.delta.as_int(),
        kind: match ev.kind {
            TrackEventKind::Midi { message: MidiMessage::NoteOn { key, vel }, .. } =>
                RawEventKind::NoteOn { key: key.as_int(), vel: vel.as_int() },
            TrackEventKind::Midi { message: MidiMessage::NoteOff { key, .. }, .. } =>
                RawEventKind::NoteOff { key: key.as_int() },
            TrackEventKind::Meta(MetaMessage::Tempo(t)) =>
                RawEventKind::Tempo { micros_per_quarter: t.as_int() },
            TrackEventKind::Meta(MetaMessage::TrackName(name)) =>
                RawEventKind::TrackName { bytes: name.to_vec() },
            _ => RawEventKind::Other,
        },
    }
}

/// Relies on `midly::Smf::parse`: it parses the chunked MIDI container,
/// failing on a malformed one, and its header carries either metrical
/// (ticks-per-quarter-note) or timecode timing. The parse is deterministic
/// in the bytes, which is all this contract states; `parse_smf` gives the
/// outcome its name.
#[verifier::external_body]
pub fn parse_midi_bytes(data: &Vec<u8>) -> (r: Result<RawMidi, ParseError>)
    ensures
        r == parse_smf(data@),
{
    let smf = match midly::Smf::parse(data) {
        Ok(s) => s,
        Err(_) => return Err(ParseError::MalformedHeader),
    };
    let ticks_per_quarter = match smf.header.timing {
        Timing::Metrical(t) => t.as_int(),
        _ => return Err(ParseError::UnsupportedTiming),
    };
    let tracks = smf.tracks.iter().map(|t| t.iter().map(convert_event).collect()).collect();
    Ok(RawMidi { ticks_per_quarter, tracks })
}

/// Relies on `std::str::from_utf8`: it succeeds exactly on valid UTF-8 and
/// decodes those bytes to their characters (`to_owned` keeps them).
#[verifier::external_body]
pub fn decode_name(bytes: &Vec<u8>) -> (r: Option<String>)
    ensures
        (r is Some) == vstd::utf8::valid_utf8(bytes@),
        r matches Some(s) ==> s@ == vstd::utf8::decode_utf8(bytes@),
{
    std::str::from_utf8(bytes).ok().map(|s| s.to_owned())
}

} // verus!
