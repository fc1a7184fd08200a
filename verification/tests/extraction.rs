use midi_keyplay::events::{MidiNote, ParseError, RawEvent, RawEventKind, RawMidi};
use midi_keyplay::extract::{parse_midi_data, summarize};
use midi_keyplay::names::make_default_name;
use midi_keyplay::timing::{sat_add, sat_sub, tempo_bpm_thousandths, ticks_to_ms};

fn on(delta: u32, key: u8, vel: u8) -> RawEvent {
    RawEvent {
        delta,
        kind: RawEventKind::NoteOn { key, vel },
    }
}

fn off(delta: u32, key: u8) -> RawEvent {
    RawEvent {
        delta,
        kind: RawEventKind::NoteOff { key },
    }
}

fn tempo(delta: u32, micros_per_quarter: u32) -> RawEvent {
    RawEvent {
        delta,
        kind: RawEventKind::Tempo { micros_per_quarter },
    }
}

fn track_name(delta: u32, bytes: &[u8]) -> RawEvent {
    RawEvent {
        delta,
        kind: RawEventKind::TrackName {
            bytes: bytes.to_vec(),
        },
    }
}

fn one_track(events: Vec<RawEvent>) -> RawMidi {
    RawMidi {
        ticks_per_quarter: 480,
        tracks: vec![events],
    }
}

#[test]
fn simple_pair_gives_one_note() {
    // One quarter note at 120 BPM: 480 ticks at 500000 us/quarter = 500 ms.
    let raw = one_track(vec![tempo(0, 500000), on(0, 60, 100), off(480, 60)]);
    let info = summarize(&raw, "song.mid".to_string());
    assert_eq!(info.file_name, "song.mid");
    assert_eq!(info.tracks.len(), 1);
    assert_eq!(info.tracks[0].index, 0);
    assert_eq!(info.tracks[0].name, "Track 1");
    assert_eq!(info.tracks[0].note_count, 1);
    assert_eq!(
        info.tracks[0].notes[0],
        MidiNote {
            note: 60,
            velocity: 100,
            time_ms: 0,
            duration_ms: 500,
        }
    );
    assert_eq!(info.duration_ms, 500);
    assert_eq!(info.tempo_micros_per_quarter, 500000);
    assert_eq!(info.tempo_bpm_thousandths(), 120000);
}

#[test]
fn immediate_off_gives_zero_duration() {
    let raw = one_track(vec![on(0, 72, 90), off(0, 72)]);
    let info = summarize(&raw, "f".to_string());
    assert_eq!(info.tracks.len(), 1);
    assert_eq!(info.tracks[0].notes.len(), 1);
    let n = info.tracks[0].notes[0];
    assert_eq!(n.note, 72);
    assert_eq!(n.velocity, 90);
    assert_eq!(n.duration_ms, 0);
}

#[test]
fn zero_velocity_note_on_closes() {
    // A note-on with velocity 0 closes like a note-off: one note, no second
    // event needed.
    let raw = one_track(vec![on(0, 64, 80), on(480, 64, 0)]);
    let info = summarize(&raw, "f".to_string());
    assert_eq!(info.tracks.len(), 1);
    assert_eq!(info.tracks[0].notes.len(), 1);
    let n = info.tracks[0].notes[0];
    assert_eq!(n.note, 64);
    assert_eq!(n.velocity, 80);
    assert_eq!(n.time_ms, 0);
    assert_eq!(n.duration_ms, 500);
}

#[test]
fn second_note_on_overwrites_first() {
    // Two note-ons for the same pitch: only the second's start survives, and
    // the first never becomes a note.
    let raw = one_track(vec![on(0, 60, 100), on(240, 60, 101), off(240, 60)]);
    let info = summarize(&raw, "f".to_string());
    assert_eq!(info.tracks.len(), 1);
    assert_eq!(info.tracks[0].notes.len(), 1);
    let n = info.tracks[0].notes[0];
    assert_eq!(n.velocity, 101);
    assert_eq!(n.time_ms, 250); // 240 ticks at 500000/480
    assert_eq!(n.duration_ms, 250); // 480 - 240 ticks
}

#[test]
fn empty_tracks_are_dropped() {
    // A track of unmatched note-offs produces nothing and is omitted; the
    // indices of kept tracks are their file positions.
    let raw = RawMidi {
        ticks_per_quarter: 480,
        tracks: vec![
            vec![off(0, 60), off(100, 61)],
            vec![on(0, 62, 50), off(480, 62)],
            vec![],
        ],
    };
    let info = summarize(&raw, "f".to_string());
    assert_eq!(info.tracks.len(), 1);
    assert_eq!(info.tracks[0].index, 1);
    assert_eq!(info.tracks[0].name, "Track 2");
    assert_eq!(info.tracks[0].note_count, 1);
}

#[test]
fn unclosed_note_is_never_emitted() {
    let raw = one_track(vec![on(0, 60, 100)]);
    let info = summarize(&raw, "f".to_string());
    assert_eq!(info.tracks.len(), 0);
    assert_eq!(info.duration_ms, 0);
}

#[test]
fn notes_are_sorted_by_start_time() {
    // Closing order differs from start order: 62 closes first but starts
    // later than 60.
    let raw = one_track(vec![
        on(0, 60, 100),
        on(240, 62, 100),
        off(240, 62),
        off(480, 60),
    ]);
    let info = summarize(&raw, "f".to_string());
    assert_eq!(info.tracks[0].notes.len(), 2);
    assert_eq!(info.tracks[0].notes[0].note, 60);
    assert_eq!(info.tracks[0].notes[0].time_ms, 0);
    assert_eq!(info.tracks[0].notes[1].note, 62);
    assert_eq!(info.tracks[0].notes[1].time_ms, 250);
}

#[test]
fn closing_tempo_converts_whole_note() {
    // A tempo change mid-note: the whole raw tick span is converted with the
    // tempo in force at the close, not integrated piecewise.
    let raw = one_track(vec![on(0, 60, 100), tempo(240, 250000), off(240, 60)]);
    let info = summarize(&raw, "f".to_string());
    let n = info.tracks[0].notes[0];
    assert_eq!(n.time_ms, 0);
    assert_eq!(n.duration_ms, 250); // 480 ticks at 250000/480, not 375
    assert_eq!(info.tempo_micros_per_quarter, 250000);
    assert_eq!(info.tempo_bpm_thousandths(), 240000);
}

#[test]
fn opening_tempo_fixes_start_time() {
    // A note opened at tick 480 under the 500000 us/quarter default keeps
    // start 500 ms even though it closes after a change to 250000; only the
    // duration uses the closing tempo.
    let raw = one_track(vec![on(480, 60, 100), tempo(0, 250000), off(480, 60)]);
    let info = summarize(&raw, "f".to_string());
    let n = info.tracks[0].notes[0];
    assert_eq!(n.time_ms, 500);
    assert_eq!(n.duration_ms, 250); // 480 ticks at 250000/480
    assert_eq!(info.duration_ms, 750);
}

#[test]
fn equal_start_times_keep_closing_order() {
    // Both notes start at tick 0; pitch 62 closes first, so it stays first
    // among the tie after the sort.
    let raw = one_track(vec![
        on(0, 60, 100),
        on(0, 62, 100),
        off(480, 62),
        off(480, 60),
    ]);
    let info = summarize(&raw, "f".to_string());
    assert_eq!(info.tracks[0].notes.len(), 2);
    assert_eq!(info.tracks[0].notes[0].note, 62);
    assert_eq!(info.tracks[0].notes[1].note, 60);
    assert_eq!(info.tracks[0].notes[0].time_ms, 0);
    assert_eq!(info.tracks[0].notes[1].time_ms, 0);
}

#[test]
fn tempo_carries_into_later_tracks() {
    // The last tempo of track 0 seeds track 1, and the file reports the last
    // tempo seen anywhere.
    let raw = RawMidi {
        ticks_per_quarter: 480,
        tracks: vec![
            vec![tempo(0, 250000)],
            vec![on(0, 60, 100), off(480, 60)],
        ],
    };
    let info = summarize(&raw, "f".to_string());
    assert_eq!(info.tracks.len(), 1);
    assert_eq!(info.tracks[0].notes[0].duration_ms, 250);
    assert_eq!(info.tempo_micros_per_quarter, 250000);
}

#[test]
fn duration_is_max_note_end_over_tracks() {
    let raw = RawMidi {
        ticks_per_quarter: 480,
        tracks: vec![
            vec![on(0, 60, 100), off(960, 60)],  // ends at 1000 ms
            vec![on(480, 62, 100), off(240, 62)], // 500..750 ms
        ],
    };
    let info = summarize(&raw, "f".to_string());
    assert_eq!(info.duration_ms, 1000);
}

#[test]
fn valid_name_event_renames_track() {
    let raw = one_track(vec![
        track_name(0, b"Lead"),
        on(0, 60, 100),
        off(480, 60),
    ]);
    let info = summarize(&raw, "f".to_string());
    assert_eq!(info.tracks[0].name, "Lead");
}

#[test]
fn invalid_or_empty_names_keep_default() {
    let raw = RawMidi {
        ticks_per_quarter: 480,
        tracks: vec![
            vec![track_name(0, &[0xff, 0xfe]), on(0, 60, 100), off(480, 60)],
            vec![track_name(0, b""), on(0, 60, 100), off(480, 60)],
        ],
    };
    let info = summarize(&raw, "f".to_string());
    assert_eq!(info.tracks[0].name, "Track 1");
    assert_eq!(info.tracks[1].name, "Track 2");
}

#[test]
fn later_name_event_wins() {
    let raw = one_track(vec![
        track_name(0, b"First"),
        track_name(0, b"Second"),
        on(0, 60, 100),
        off(480, 60),
    ]);
    let info = summarize(&raw, "f".to_string());
    assert_eq!(info.tracks[0].name, "Second");
}

// --- byte-level tests through the real parser ---

fn smf_bytes(tpq: u16, track_payload: &[u8]) -> Vec<u8> {
    let mut v = Vec::new();
    v.extend_from_slice(b"MThd");
    v.extend_from_slice(&6u32.to_be_bytes());
    v.extend_from_slice(&0u16.to_be_bytes()); // format 0
    v.extend_from_slice(&1u16.to_be_bytes()); // one track
    v.extend_from_slice(&tpq.to_be_bytes());
    v.extend_from_slice(b"MTrk");
    v.extend_from_slice(&(track_payload.len() as u32).to_be_bytes());
    v.extend_from_slice(track_payload);
    v
}

#[test]
fn parses_real_bytes_one_note() {
    // tpq 480, tempo 500000, note-on(60, 100) at tick 0, note-off at tick 480.
    let payload: &[u8] = &[
        0x00, 0xff, 0x51, 0x03, 0x07, 0xa1, 0x20, // tempo 500000
        0x00, 0x90, 0x3c, 0x64, // note on
        0x83, 0x60, 0x80, 0x3c, 0x00, // delta 480, note off
        0x00, 0xff, 0x2f, 0x00, // end of track
    ];
    let data = smf_bytes(480, payload);
    let info = parse_midi_data("demo.mid".to_string(), data).unwrap();
    assert_eq!(info.file_name, "demo.mid");
    assert_eq!(info.tracks.len(), 1);
    assert_eq!(info.tracks[0].note_count, 1);
    let n = info.tracks[0].notes[0];
    assert_eq!(n.note, 60);
    assert_eq!(n.velocity, 100);
    assert_eq!(n.time_ms, 0);
    assert_eq!(n.duration_ms, 500);
    assert_eq!(info.duration_ms, 500);
    assert_eq!(info.tempo_bpm_thousandths(), 120000);
    assert!((60_000_000.0f64 / info.tempo_micros_per_quarter as f64 - 120.0).abs() < 1e-9);
}

#[test]
fn parses_named_track_bytes() {
    let payload: &[u8] = &[
        0x00, 0xff, 0x03, 0x04, b'L', b'e', b'a', b'd', // track name "Lead"
        0x00, 0x90, 0x3c, 0x64, 0x60, 0x80, 0x3c, 0x00, // 96-tick note
        0x00, 0xff, 0x2f, 0x00,
    ];
    let data = smf_bytes(480, payload);
    let info = parse_midi_data("n.mid".to_string(), data).unwrap();
    assert_eq!(info.tracks[0].name, "Lead");
    assert_eq!(info.tracks[0].notes[0].duration_ms, 100);
}

#[test]
fn rejects_garbage_bytes() {
    let err = parse_midi_data("bad".to_string(), vec![1, 2, 3, 4]).unwrap_err();
    assert_eq!(err, ParseError::MalformedHeader);
    assert_eq!(err.message(), "Failed to parse MIDI");
}

#[test]
fn rejects_timecode_timing() {
    // Division with the high bit set: SMPTE timecode timing.
    let payload: &[u8] = &[0x00, 0xff, 0x2f, 0x00];
    let mut data = smf_bytes(0, payload);
    data[12] = 0xe8; // -24 frames/s
    data[13] = 0x28; // 40 subframes
    let err = parse_midi_data("t".to_string(), data).unwrap_err();
    assert_eq!(err, ParseError::UnsupportedTiming);
    assert_eq!(err.message(), "Timecode timing not supported");
}

// --- small helpers ---

#[test]
fn default_names_count_from_one() {
    assert_eq!(make_default_name(0), "Track 1");
    assert_eq!(make_default_name(11), "Track 12");
    assert_eq!(make_default_name(99), "Track 100");
}

#[test]
fn tick_conversion_saturates_and_handles_zero_divisor() {
    assert_eq!(ticks_to_ms(480, 500000, 480), 500);
    assert_eq!(ticks_to_ms(1, 500000, 480), 1); // 1.0416.. truncates
    assert_eq!(ticks_to_ms(7, 0, 480), 0);
    assert_eq!(ticks_to_ms(7, 500000, 0), 0);
    assert_eq!(ticks_to_ms(u64::MAX, u32::MAX, 1), u64::MAX);
    assert_eq!(sat_add(u64::MAX, 1), u64::MAX);
    assert_eq!(sat_sub(3, 5), 0);
}

#[test]
fn bpm_of_zero_tempo_saturates() {
    assert_eq!(tempo_bpm_thousandths(0), u64::MAX);
    assert_eq!(tempo_bpm_thousandths(500000), 120000);
    assert_eq!(tempo_bpm_thousandths(417000), 143884); // truncated thousandths
}
