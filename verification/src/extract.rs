//! MIDI extraction: from the parsed raw events to the per-track note lists
//! with absolute millisecond timing.
//!
//! The meaning of the extraction is one left-to-right pass per track,
//! written down by `track_step`/`track_run`: a running tick counter, a local
//! tempo seeded from whatever tempo was current when the track began (the
//! last tempo event of any earlier track, or the 500000 µs/quarter default),
//! a track name, and a table of held notes, one slot per pitch. A note-on
//! opens (or silently replaces) the slot for its pitch, remembering the
//! tempo then in force; a note-off — or a note-on with velocity zero —
//! closes it and emits a note. The note's start time is converted with the
//! tempo remembered at the note-on; its duration converts the whole raw tick
//! span with the tempo current at the close — a tempo change mid-note is
//! deliberately not integrated piecewise.

use vstd::prelude::*;
use vstd::utf8::{decode_utf8, valid_utf8};
use crate::events::{MidiFileInfo, MidiNote, MidiTrack, ParseError, RawEvent, RawEventKind, RawMidi};
use crate::names::{default_name, make_default_name};
use crate::smf::{decode_name, parse_midi_bytes, parse_smf};
use crate::sort::{keeps_tie_order, sort_notes, sorted_by_time};
use crate::timing::{ms_of, sat_add, sat_add_u64, ticks_to_ms};

verus! {

/// The running state of one track's extraction pass.
pub struct TrackState {
    /// Ticks seen so far (the sum of all deltas, saturating).
    pub ticks: nat,
    /// The tempo currently in force, in microseconds per quarter note.
    pub tempo: nat,
    /// The track's display name so far.
    pub name: Seq<char>,
    /// The held notes: pitch -> (start tick, velocity, tempo at the open).
    pub held: Map<u8, (nat, u8, nat)>,
    /// The notes closed so far, in closing order.
    pub notes: Seq<MidiNote>,
}

/// The note emitted when the pitch `key`, opened at `start` under
/// `open_tempo` with velocity `vel`, closes at tick `end` under
/// `close_tempo`: the start time uses the tempo at the open, the duration
/// the tempo at the close.
pub open spec fn note_of(
    key: u8,
    vel: u8,
    start: nat,
    end: nat,
    open_tempo: nat,
    close_tempo: nat,
    tpq: nat,
) -> MidiNote {
    MidiNote {
        note: key,
        velocity: vel,
        time_ms: ms_of(start, open_tempo, tpq) as u64,
        duration_ms: ms_of((end - start) as nat, close_tempo, tpq) as u64,
    }
}

/// Closing the pitch `key` at tick `t`: if it is held, emit its note and
/// free the slot; otherwise nothing happens.
pub open spec fn close_key(tpq: nat, st: TrackState, t: nat, key: u8) -> TrackState {
    if st.held.contains_key(key) {
        (TrackState {
            ticks: t,
            held: st.held.remove(key),
            notes: st.notes.push(
                note_of(key, st.held[key].1, st.held[key].0, t, st.held[key].2, st.tempo, tpq),
            ),
            ..st
        })
    } else {
        (TrackState { ticks: t, ..st })
    }
}

/// One event of the pass.
pub open spec fn track_step(tpq: nat, st: TrackState, ev: RawEvent) -> TrackState {
    let t = sat_add_u64(st.ticks, ev.delta as nat);
    match ev.kind {
        RawEventKind::NoteOn { key, vel } => {
            if vel > 0 {
                (TrackState { ticks: t, held: st.held.insert(key, (t, vel, st.tempo)), ..st })
            } else {
                close_key(tpq, st, t, key)
            }
        },
        RawEventKind::NoteOff { key } => close_key(tpq, st, t, key),
        RawEventKind::Tempo { micros_per_quarter } => (TrackState {
            ticks: t,
            tempo: micros_per_quarter as nat,
            ..st
        }),
        RawEventKind::TrackName { bytes } => (TrackState {
            ticks: t,
            name: if valid_utf8(bytes@) && decode_utf8(bytes@).len() > 0 {
                decode_utf8(bytes@)
            } else {
                st.name
            },
            ..st
        }),
        RawEventKind::Other => (TrackState { ticks: t, ..st }),
    }
}

/// The whole pass over a track's events.
pub open spec fn track_run(tpq: nat, init: TrackState, evs: Seq<RawEvent>) -> TrackState
    decreases evs.len(),
{
    if evs.len() == 0 {
        init
    } else {
        track_step(tpq, track_run(tpq, init, evs.drop_last()), evs.last())
    }
}

/// The state a track's pass begins in: tick zero, the tempo handed on from
/// earlier tracks, the default name, nothing held, nothing emitted.
pub open spec fn track_init(index: nat, tempo: nat) -> TrackState {
    TrackState {
        ticks: 0,
        tempo,
        name: default_name(index),
        held: Map::<u8, (nat, u8, nat)>::empty(),
        notes: Seq::<MidiNote>::empty(),
    }
}

/// The tempo in force when track `i` begins: 500000 µs/quarter before any
/// track, afterwards whatever the previous track's pass ended with.
pub open spec fn tempo_before(raw: RawMidi, i: int) -> nat
    decreases i,
{
    if i <= 0 {
        500000 as nat
    } else {
        track_run(
            raw.ticks_per_quarter as nat,
            track_init((i - 1) as nat, tempo_before(raw, i - 1)),
            raw.tracks@[i - 1]@,
        ).tempo
    }
}

/// The final state of track `i`'s pass.
pub open spec fn track_outcome(raw: RawMidi, i: int) -> TrackState {
    track_run(
        raw.ticks_per_quarter as nat,
        track_init(i as nat, tempo_before(raw, i)),
        raw.tracks@[i]@,
    )
}

/// When a note ends: its start plus its duration, saturating.
pub open spec fn note_end(n: MidiNote) -> nat {
    sat_add_u64(n.time_ms as nat, n.duration_ms as nat)
}

pub open spec fn nat_max(a: nat, b: nat) -> nat {
    if a >= b {
        a
    } else {
        b
    }
}

/// The latest note end in a list, zero for an empty list.
pub open spec fn max_end_of(notes: Seq<MidiNote>) -> nat
    decreases notes.len(),
{
    if notes.len() == 0 {
        0
    } else {
        nat_max(max_end_of(notes.drop_last()), note_end(notes.last()))
    }
}

/// The file's duration: the latest note end over the first `n` tracks.
pub open spec fn file_duration(raw: RawMidi, n: int) -> nat
    decreases n,
{
    if n <= 0 {
        0
    } else {
        nat_max(file_duration(raw, n - 1), max_end_of(track_outcome(raw, n - 1).notes))
    }
}

/// The tracks the summary keeps, in file order: each track index of the
/// first `n` whose pass emitted at least one note, paired with its outcome.
pub open spec fn kept_outcomes(raw: RawMidi, n: int) -> Seq<(int, TrackState)>
    decreases n,
{
    if n <= 0 {
        Seq::<(int, TrackState)>::empty()
    } else {
        let prev = kept_outcomes(raw, n - 1);
        let st = track_outcome(raw, n - 1);
        if st.notes.len() > 0 {
            prev.push((n - 1, st))
        } else {
            prev
        }
    }
}

/// How a summarised track reports one pass's outcome: same index, same name,
/// a correct note count, and the same notes reordered so start times never
/// decrease, notes with equal start times keeping their closing order.
pub open spec fn track_matches(index: int, st: TrackState, t: MidiTrack) -> bool {
    &&& t.index as int == index
    &&& t.name@ == st.name
    &&& t.note_count == t.notes@.len()
    &&& t.notes@.len() == st.notes.len()
    &&& t.notes@.to_multiset() == st.notes.to_multiset()
    &&& sorted_by_time(t.notes@)
    &&& keeps_tie_order(t.notes@, st.notes)
}

/// The whole contract of the extraction, given the parsed raw events: the
/// caller's file name is kept; the tempo reported is the last one seen
/// anywhere in the file; the duration is the latest note end; and the track
/// list is exactly the non-empty passes, in order.
pub open spec fn summary_matches(raw: RawMidi, file_name: Seq<char>, info: MidiFileInfo) -> bool {
    let n = raw.tracks@.len() as int;
    let kept = kept_outcomes(raw, n);
    &&& info.file_name@ == file_name
    &&& info.tempo_micros_per_quarter as nat == tempo_before(raw, n)
    &&& info.duration_ms as nat == file_duration(raw, n)
    &&& info.tracks@.len() == kept.len()
    &&& forall|i: int|
        0 <= i < kept.len() ==> track_matches(kept[i].0, kept[i].1, #[trigger] info.tracks@[i])
}

/// How the executable held-note table — one slot per pitch — represents the
/// held-note map of the pass.
pub open spec fn table_matches(tbl: Seq<Option<(u64, u8, u32)>>, held: Map<u8, (nat, u8, nat)>) -> bool {
    &&& tbl.len() == 256
    &&& forall|k: u8|
        held.contains_key(k) ==> (#[trigger] tbl[k as int]) == Some(
            (held[k].0 as u64, held[k].1, held[k].2 as u32),
        )
    &&& forall|k: u8| !held.contains_key(k) ==> (#[trigger] tbl[k as int]) is None
}

/// Every held start tick is no later than the tick counter, and every
/// remembered tempo is in range.
pub open spec fn held_wf(st: TrackState) -> bool {
    &&& st.ticks <= u64::MAX
    &&& forall|k: u8|
        st.held.contains_key(k) ==> (#[trigger] st.held[k]).0 <= st.ticks && st.held[k].2
            <= u32::MAX
}

proof fn lemma_max_end_push(s: Seq<MidiNote>, n: MidiNote)
    ensures
        max_end_of(s.push(n)) == nat_max(max_end_of(s), note_end(n)),
{
    assert(s.push(n).drop_last() =~= s);
}

/// Closes the pitch `key` at tick `t`, mirroring `close_key` on the
/// executable state: if the slot is occupied, emit the note — start time
/// under the slot's remembered tempo, duration under the tempo in force now
/// — free the slot, and keep the latest note end.
fn close_pitch(
    tpq: u16,
    tempo_now: u32,
    t: u64,
    key: u8,
    held_tbl: &mut Vec<Option<(u64, u8, u32)>>,
    notes: &mut Vec<MidiNote>,
    track_max: &mut u64,
    Ghost(st): Ghost<TrackState>,
)
    requires
        table_matches(old(held_tbl)@, st.held),
        old(notes)@ == st.notes,
        *old(track_max) as nat == max_end_of(st.notes),
        held_wf(st),
        st.tempo == tempo_now as nat,
        st.ticks <= t,
    ensures
        ({
            let st2 = close_key(tpq as nat, st, t as nat, key);
            &&& table_matches(final(held_tbl)@, st2.held)
            &&& final(notes)@ == st2.notes
            &&& *final(track_max) as nat == max_end_of(st2.notes)
        }),
{
    let slot = held_tbl[key as usize];
    match slot {
        Some(p) => {
            let (start, vel, open_tempo) = p;
            assert(st.held.contains_key(key) && start as nat == st.held[key].0 && vel
                == st.held[key].1 && open_tempo as nat == st.held[key].2);
            let time_ms = ticks_to_ms(start, open_tempo, tpq);
            let dur_ms = ticks_to_ms(t - start, tempo_now, tpq);
            let n = MidiNote { note: key, velocity: vel, time_ms, duration_ms: dur_ms };
            notes.push(n);
            held_tbl.set(key as usize, None);
            let end = sat_add(time_ms, dur_ms);
            if end > *track_max {
                *track_max = end;
            }
            proof {
                let st2 = close_key(tpq as nat, st, t as nat, key);
                assert(n == note_of(
                    key,
                    st.held[key].1,
                    st.held[key].0,
                    t as nat,
                    st.held[key].2,
                    st.tempo,
                    tpq as nat,
                ));
                assert(notes@ == st2.notes);
                lemma_max_end_push(st.notes, n);
                assert(forall|k: u8|
                    st2.held.contains_key(k) ==> (#[trigger] held_tbl@[k as int]) == Some(
                        (st2.held[k].0 as u64, st2.held[k].1, st2.held[k].2 as u32),
                    ));
            }
        },
        None => {
            proof {
                assert(!st.held.contains_key(key));
                let st2 = close_key(tpq as nat, st, t as nat, key);
                assert(st2.held =~= st.held);
            }
        },
    }
}

/// Builds the summary of a parsed file: this is the extraction pass itself,
/// verified against `summary_matches`.
pub fn summarize(raw: &RawMidi, file_name: String) -> (info: MidiFileInfo)
    ensures
        summary_matches(*raw, file_name@, info),
{
    let tpq = raw.ticks_per_quarter;
    let mut tempo_global: u32 = 500000;
    let mut tracks_out: Vec<MidiTrack> = Vec::new();
    let mut max_ms: u64 = 0;
    let n = raw.tracks.len();
    let mut ti: usize = 0;
    while ti < n
        invariant
            n == raw.tracks@.len(),
            ti <= n,
            tpq == raw.ticks_per_quarter,
            tempo_global as nat == tempo_before(*raw, ti as int),
            max_ms as nat == file_duration(*raw, ti as int),
            tracks_out@.len() == kept_outcomes(*raw, ti as int).len(),
            forall|i: int|
                0 <= i < tracks_out@.len() ==> track_matches(
                    kept_outcomes(*raw, ti as int)[i].0,
                    kept_outcomes(*raw, ti as int)[i].1,
                    #[trigger] tracks_out@[i],
                ),
        decreases n - ti,
    {
        let track: &Vec<RawEvent> = &raw.tracks[ti];
        let ghost init = track_init(ti as nat, tempo_before(*raw, ti as int));
        let mut ticks: u64 = 0;
        let mut tempo_now: u32 = tempo_global;
        let mut name: String = make_default_name(ti);
        let mut notes: Vec<MidiNote> = Vec::new();
        let mut track_max: u64 = 0;
        let mut held_tbl: Vec<Option<(u64, u8, u32)>> = Vec::new();
        let mut z: usize = 0;
        while z < 256
            invariant
                z <= 256,
                held_tbl@.len() == z,
                forall|k: int| 0 <= k < z ==> (#[trigger] held_tbl@[k]) is None,
            decreases 256 - z,
        {
            held_tbl.push(None);
            z += 1;
        }
        proof {
            assert(track@.take(0) =~= Seq::<RawEvent>::empty());
            assert(track_run(tpq as nat, init, track@.take(0)) == init);
        }
        let mut j: usize = 0;
        while j < track.len()
            invariant
                j <= track@.len(),
                tpq == raw.ticks_per_quarter,
                ({
                    let st = track_run(tpq as nat, init, track@.take(j as int));
                    &&& ticks as nat == st.ticks
                    &&& tempo_now as nat == st.tempo
                    &&& name@ == st.name
                    &&& notes@ == st.notes
                    &&& track_max as nat == max_end_of(st.notes)
                    &&& table_matches(held_tbl@, st.held)
                    &&& held_wf(st)
                }),
            decreases track@.len() - j,
        {
            let ghost st = track_run(tpq as nat, init, track@.take(j as int));
            let ghost st2 = track_step(tpq as nat, st, track@[j as int]);
            proof {
                assert(track@.take(j as int + 1).drop_last() =~= track@.take(j as int));
                assert(track@.take(j as int + 1).last() == track@[j as int]);
                assert(track_run(tpq as nat, init, track@.take(j as int + 1)) == st2);
            }
            let ev: &RawEvent = &track[j];
            let t = sat_add(ticks, ev.delta as u64);
            ticks = t;
            match &ev.kind {
                RawEventKind::NoteOn { key, vel } => {
                    if *vel > 0 {
                        held_tbl.set(*key as usize, Some((t, *vel, tempo_now)));
                        proof {
                            assert(st2.held == st.held.insert(*key, (t as nat, *vel, st.tempo)));
                            assert(forall|k: u8|
                                st2.held.contains_key(k) ==> (#[trigger] held_tbl@[k as int])
                                    == Some((
                                st2.held[k].0 as u64,
                                st2.held[k].1,
                                st2.held[k].2 as u32,
                            )));
                            assert(forall|k: u8|
                                !st2.held.contains_key(k) ==> (#[trigger] held_tbl@[k as int])
                                    is None);
                        }
                    } else {
                        close_pitch(
                            tpq,
                            tempo_now,
                            t,
                            *key,
                            &mut held_tbl,
                            &mut notes,
                            &mut track_max,
                            Ghost(st),
                        );
                    }
                },
                RawEventKind::NoteOff { key } => {
                    close_pitch(
                        tpq,
                        tempo_now,
                        t,
                        *key,
                        &mut held_tbl,
                        &mut notes,
                        &mut track_max,
                        Ghost(st),
                    );
                },
                RawEventKind::Tempo { micros_per_quarter } => {
                    tempo_now = *micros_per_quarter;
                },
                RawEventKind::TrackName { bytes } => {
                    match decode_name(bytes) {
                        Some(s) => {
                            if !s.as_str().is_empty() {
                                name = s;
                            }
                        },
                        None => {},
                    }
                },
                RawEventKind::Other => {},
            }
            j += 1;
        }
        proof {
            assert(track@.take(track@.len() as int) =~= track@);
            assert(track_run(tpq as nat, init, track@) == track_outcome(*raw, ti as int));
        }
        let ghost outcome = track_outcome(*raw, ti as int);
        let ghost old_kept = kept_outcomes(*raw, ti as int);
        tempo_global = tempo_now;
        if track_max > max_ms {
            max_ms = track_max;
        }
        if notes.len() > 0 {
            sort_notes(&mut notes);
            let count = notes.len();
            tracks_out.push(MidiTrack { index: ti, name, note_count: count, notes });
            proof {
                assert(kept_outcomes(*raw, ti as int + 1) == old_kept.push(
                    (ti as int, outcome),
                ));
                assert(track_matches(ti as int, outcome, tracks_out@.last()));
            }
        } else {
            proof {
                assert(kept_outcomes(*raw, ti as int + 1) == old_kept);
            }
        }
        ti += 1;
    }
    MidiFileInfo {
        file_name,
        duration_ms: max_ms,
        tempo_micros_per_quarter: tempo_global,
        tracks: tracks_out,
    }
}

/// Parses the bytes of a Standard MIDI File and summarises them. The parse
/// itself is `midly`'s, named `parse_smf`; everything after it is verified:
/// on a parse the summary matches the pass exactly, and a rejection is
/// returned unchanged.
pub fn parse_midi_data(file_name: String, data: Vec<u8>) -> (r: Result<MidiFileInfo, ParseError>)
    ensures
        parse_smf(data@) matches Ok(raw) ==> r matches Ok(info) && summary_matches(
            raw,
            file_name@,
            info,
        ),
        parse_smf(data@) matches Err(e) ==> r == Err::<MidiFileInfo, ParseError>(e),
{
    match parse_midi_bytes(&data) {
        Ok(raw) => Ok(summarize(&raw, file_name)),
        Err(e) => Err(e),
    }
}

/// A note-on with velocity zero closes exactly as a note-off does.
pub proof fn lemma_zero_velocity_is_note_off(tpq: nat, st: TrackState, d: u32, key: u8)
    ensures
        track_step(tpq, st, (RawEvent { delta: d, kind: RawEventKind::NoteOn { key, vel: 0 } }))
            == track_step(tpq, st, (RawEvent { delta: d, kind: RawEventKind::NoteOff { key } })),
{
}

/// A note-on immediately followed — no delta — by a note-off for the same
/// pitch emits exactly one note, and its duration is zero.
pub proof fn lemma_immediate_off_zero_duration(tpq: nat, st: TrackState, d: u32, key: u8, vel: u8)
    requires
        vel > 0,
    ensures
        ({
            let st1 = track_step(
                tpq,
                st,
                (RawEvent { delta: d, kind: RawEventKind::NoteOn { key, vel } }),
            );
            let st2 = track_step(tpq, st1, (RawEvent { delta: 0, kind: RawEventKind::NoteOff { key } }));
            &&& st2.notes == st.notes.push(st2.notes.last())
            &&& st2.notes.len() == st.notes.len() + 1
            &&& st2.notes.last().note == key
            &&& st2.notes.last().velocity == vel
            &&& st2.notes.last().time_ms == ms_of(
                sat_add_u64(st.ticks, d as nat),
                st.tempo,
                tpq,
            ) as u64
            &&& st2.notes.last().duration_ms == 0
            &&& !st2.held.contains_key(key)
        }),
{
    let st1 = track_step(tpq, st, (RawEvent { delta: d, kind: RawEventKind::NoteOn { key, vel } }));
    let st2 = track_step(tpq, st1, (RawEvent { delta: 0, kind: RawEventKind::NoteOff { key } }));
    assert(st1.held.contains_key(key));
    assert(st1.ticks == sat_add_u64(st.ticks, d as nat));
    assert(sat_add_u64(st1.ticks, 0) == st1.ticks);
    assert(st2.notes.last().duration_ms == ms_of(0, st1.tempo, tpq) as u64);
}

/// Anywhere in a track, a note-on with velocity zero and a note-off are
/// interchangeable: the whole pass ends in the same state whichever of the
/// two closes the pitch.
pub proof fn lemma_zero_velocity_track_equiv(
    tpq: nat,
    init: TrackState,
    pre: Seq<RawEvent>,
    d: u32,
    key: u8,
    post: Seq<RawEvent>,
)
    ensures
        track_run(
            tpq,
            init,
            pre.push((RawEvent { delta: d, kind: RawEventKind::NoteOn { key, vel: 0 } })) + post,
        ) == track_run(
            tpq,
            init,
            pre.push((RawEvent { delta: d, kind: RawEventKind::NoteOff { key } })) + post,
        ),
    decreases post.len(),
{
    let ev_on = RawEvent { delta: d, kind: RawEventKind::NoteOn { key, vel: 0 } };
    let ev_off = RawEvent { delta: d, kind: RawEventKind::NoteOff { key } };
    let a = pre.push(ev_on) + post;
    let b = pre.push(ev_off) + post;
    if post.len() == 0 {
        assert(a =~= pre.push(ev_on));
        assert(b =~= pre.push(ev_off));
        assert(pre.push(ev_on).drop_last() =~= pre);
        assert(pre.push(ev_off).drop_last() =~= pre);
        lemma_zero_velocity_is_note_off(tpq, track_run(tpq, init, pre), d, key);
    } else {
        assert(a.drop_last() =~= pre.push(ev_on) + post.drop_last());
        assert(b.drop_last() =~= pre.push(ev_off) + post.drop_last());
        assert(a.last() == post.last() && b.last() == post.last());
        lemma_zero_velocity_track_equiv(tpq, init, pre, d, key, post.drop_last());
    }
}

/// After any prefix of a track, a note-on immediately followed — no delta —
/// by a note-off for the same pitch leaves exactly one more note than the
/// prefix did, and that note has duration zero.
pub proof fn lemma_immediate_pair_in_track(
    tpq: nat,
    init: TrackState,
    pre: Seq<RawEvent>,
    d: u32,
    key: u8,
    vel: u8,
)
    requires
        vel > 0,
    ensures
        ({
            let st = track_run(tpq, init, pre);
            let out = track_run(
                tpq,
                init,
                pre.push((RawEvent { delta: d, kind: RawEventKind::NoteOn { key, vel } })).push(
                    (RawEvent { delta: 0, kind: RawEventKind::NoteOff { key } }),
                ),
            );
            &&& out.notes.len() == st.notes.len() + 1
            &&& out.notes == st.notes.push(out.notes.last())
            &&& out.notes.last().note == key
            &&& out.notes.last().velocity == vel
            &&& out.notes.last().time_ms == ms_of(
                sat_add_u64(st.ticks, d as nat),
                st.tempo,
                tpq,
            ) as u64
            &&& out.notes.last().duration_ms == 0
        }),
{
    let ev_on = RawEvent { delta: d, kind: RawEventKind::NoteOn { key, vel } };
    let ev_off = RawEvent { delta: 0, kind: RawEventKind::NoteOff { key } };
    let evs = pre.push(ev_on).push(ev_off);
    let st = track_run(tpq, init, pre);
    assert(evs.drop_last() =~= pre.push(ev_on));
    assert(pre.push(ev_on).drop_last() =~= pre);
    assert(track_run(tpq, init, pre.push(ev_on)) == track_step(tpq, st, ev_on));
    assert(track_run(tpq, init, evs) == track_step(tpq, track_step(tpq, st, ev_on), ev_off));
    lemma_immediate_off_zero_duration(tpq, st, d, key, vel);
}

/// A tempo change while a note is held moves only its duration: the start
/// time stays fixed by the tempo remembered at the note-on, and the whole
/// raw tick span converts with the new tempo.
pub proof fn lemma_open_tempo_fixes_start(
    tpq: nat,
    st: TrackState,
    d: u32,
    m: u32,
    d2: u32,
    key: u8,
)
    requires
        st.held.contains_key(key),
    ensures
        ({
            let st1 = track_step(
                tpq,
                st,
                (RawEvent { delta: d, kind: RawEventKind::Tempo { micros_per_quarter: m } }),
            );
            let st2 = track_step(
                tpq,
                st1,
                (RawEvent { delta: d2, kind: RawEventKind::NoteOff { key } }),
            );
            let close_tick = sat_add_u64(sat_add_u64(st.ticks, d as nat), d2 as nat);
            &&& st2.notes.len() == st.notes.len() + 1
            &&& st2.notes.last().time_ms == ms_of(st.held[key].0, st.held[key].2, tpq) as u64
            &&& st2.notes.last().duration_ms == ms_of(
                (close_tick - st.held[key].0) as nat,
                m as nat,
                tpq,
            ) as u64
        }),
{
}

/// After any prefix of a track, two note-ons for one pitch followed by a
/// note-off emit exactly one note: its start and velocity come from the
/// second note-on, and the first opening is discarded without a note.
pub proof fn lemma_overwrite_in_track(
    tpq: nat,
    init: TrackState,
    pre: Seq<RawEvent>,
    d1: u32,
    d2: u32,
    d3: u32,
    key: u8,
    v1: u8,
    v2: u8,
)
    requires
        v1 > 0,
        v2 > 0,
    ensures
        ({
            let st = track_run(tpq, init, pre);
            let t2 = sat_add_u64(sat_add_u64(st.ticks, d1 as nat), d2 as nat);
            let t3 = sat_add_u64(t2, d3 as nat);
            let out = track_run(
                tpq,
                init,
                pre.push((RawEvent { delta: d1, kind: RawEventKind::NoteOn { key, vel: v1 } }))
                    .push((RawEvent { delta: d2, kind: RawEventKind::NoteOn { key, vel: v2 } }))
                    .push((RawEvent { delta: d3, kind: RawEventKind::NoteOff { key } })),
            );
            &&& out.notes.len() == st.notes.len() + 1
            &&& out.notes == st.notes.push(out.notes.last())
            &&& out.notes.last().note == key
            &&& out.notes.last().velocity == v2
            &&& out.notes.last().time_ms == ms_of(t2, st.tempo, tpq) as u64
            &&& out.notes.last().duration_ms == ms_of((t3 - t2) as nat, st.tempo, tpq) as u64
        }),
{
    let ev1 = RawEvent { delta: d1, kind: RawEventKind::NoteOn { key, vel: v1 } };
    let ev2 = RawEvent { delta: d2, kind: RawEventKind::NoteOn { key, vel: v2 } };
    let ev3 = RawEvent { delta: d3, kind: RawEventKind::NoteOff { key } };
    let evs = pre.push(ev1).push(ev2).push(ev3);
    let st = track_run(tpq, init, pre);
    assert(evs.drop_last() =~= pre.push(ev1).push(ev2));
    assert(pre.push(ev1).push(ev2).drop_last() =~= pre.push(ev1));
    assert(pre.push(ev1).drop_last() =~= pre);
    let st1 = track_step(tpq, st, ev1);
    let st2 = track_step(tpq, st1, ev2);
    let st3 = track_step(tpq, st2, ev3);
    assert(track_run(tpq, init, pre.push(ev1)) == st1);
    assert(track_run(tpq, init, pre.push(ev1).push(ev2)) == st2);
    assert(track_run(tpq, init, evs) == st3);
    assert(st2.held[key] == (st2.ticks, v2, st.tempo));
    assert(st3.notes.last() == note_of(
        key,
        v2,
        st2.ticks,
        st3.ticks,
        st.tempo,
        st.tempo,
        tpq,
    ));
}

/// A second note-on for a pitch already held emits nothing and keeps only
/// the second start: when the pitch eventually closes, the first opening has
/// been discarded without producing a note.
pub proof fn lemma_note_on_overwrites(tpq: nat, st: TrackState, d: u32, key: u8, vel: u8)
    requires
        vel > 0,
    ensures
        ({
            let st1 = track_step(
                tpq,
                st,
                (RawEvent { delta: d, kind: RawEventKind::NoteOn { key, vel } }),
            );
            &&& st1.notes == st.notes
            &&& st1.held.contains_key(key)
            &&& st1.held[key] == ((sat_add_u64(st.ticks, d as nat), vel, st.tempo))
        }),
{
}

proof fn lemma_max_end_bounds(s: Seq<MidiNote>)
    ensures
        forall|j: int| 0 <= j < s.len() ==> note_end(#[trigger] s[j]) <= max_end_of(s),
        max_end_of(s) == 0 || exists|j: int|
            0 <= j < s.len() && note_end(s[j]) == max_end_of(s),
    decreases s.len(),
{
    if s.len() > 0 {
        lemma_max_end_bounds(s.drop_last());
        assert(forall|j: int| 0 <= j < s.len() - 1 ==> s[j] == s.drop_last()[j]);
        if max_end_of(s) != 0 {
            if max_end_of(s) == note_end(s.last()) {
                assert(note_end(s[s.len() - 1]) == max_end_of(s));
            } else {
                let j = choose|j: int|
                    0 <= j < s.drop_last().len() && note_end(s.drop_last()[j]) == max_end_of(
                        s.drop_last(),
                    );
                assert(note_end(s[j]) == max_end_of(s));
            }
        }
    }
}

proof fn lemma_file_duration_bounds(raw: RawMidi, n: int)
    ensures
        forall|i: int|
            0 <= i < n ==> max_end_of(#[trigger] track_outcome(raw, i).notes) <= file_duration(
                raw,
                n,
            ),
        file_duration(raw, n) == 0 || exists|i: int|
            0 <= i < n && max_end_of(track_outcome(raw, i).notes) == file_duration(raw, n),
    decreases n,
{
    if n > 0 {
        lemma_file_duration_bounds(raw, n - 1);
    }
}

proof fn lemma_kept_sound(raw: RawMidi, n: int)
    ensures
        forall|p: int|
            0 <= p < kept_outcomes(raw, n).len() ==> {
                let e = #[trigger] kept_outcomes(raw, n)[p];
                &&& 0 <= e.0 < n
                &&& e.1 == track_outcome(raw, e.0)
                &&& e.1.notes.len() > 0
            },
    decreases n,
{
    if n > 0 {
        lemma_kept_sound(raw, n - 1);
        let prev = kept_outcomes(raw, n - 1);
        let cur = kept_outcomes(raw, n);
        assert forall|p: int| 0 <= p < cur.len() implies {
            let e = #[trigger] cur[p];
            &&& 0 <= e.0 < n
            &&& e.1 == track_outcome(raw, e.0)
            &&& e.1.notes.len() > 0
        } by {
            if p < prev.len() {
                assert(cur[p] == prev[p]);
            } else {
                assert(cur[p] == (n - 1, track_outcome(raw, n - 1)));
            }
        }
    }
}

proof fn lemma_kept_complete(raw: RawMidi, n: int, i: int)
    requires
        0 <= i < n,
        track_outcome(raw, i).notes.len() > 0,
    ensures
        exists|p: int|
            0 <= p < kept_outcomes(raw, n).len() && kept_outcomes(raw, n)[p] == (
                i,
                track_outcome(raw, i),
            ),
    decreases n,
{
    if i == n - 1 {
        assert(kept_outcomes(raw, n).last() == (i, track_outcome(raw, i)));
    } else {
        lemma_kept_complete(raw, n - 1, i);
        let p = choose|p: int|
            0 <= p < kept_outcomes(raw, n - 1).len() && #[trigger] kept_outcomes(raw, n - 1)[p]
                == (i, track_outcome(raw, i));
        assert(kept_outcomes(raw, n)[p] == (i, track_outcome(raw, i)));
    }
}

/// The summary's duration is the latest note end over all notes in all
/// returned tracks: no note ends later, and — unless the duration is zero —
/// some note ends exactly then.
pub proof fn lemma_duration_is_max_note_end(raw: RawMidi, file_name: Seq<char>, info: MidiFileInfo)
    requires
        summary_matches(raw, file_name, info),
    ensures
        forall|i: int, j: int|
            0 <= i < info.tracks@.len() && 0 <= j < info.tracks@[i].notes@.len() ==> note_end(
                #[trigger] info.tracks@[i].notes@[j],
            ) <= info.duration_ms as nat,
        info.duration_ms > 0 ==> exists|i: int, j: int|
            0 <= i < info.tracks@.len() && 0 <= j < info.tracks@[i].notes@.len() && note_end(
                info.tracks@[i].notes@[j],
            ) == info.duration_ms as nat,
{
    broadcast use vstd::seq_lib::group_to_multiset_ensures;

    let n = raw.tracks@.len() as int;
    let kept = kept_outcomes(raw, n);
    lemma_kept_sound(raw, n);
    lemma_file_duration_bounds(raw, n);
    assert forall|i: int, j: int|
        0 <= i < info.tracks@.len() && 0 <= j < info.tracks@[i].notes@.len() implies note_end(
        #[trigger] info.tracks@[i].notes@[j],
    ) <= info.duration_ms as nat by {
        let x = info.tracks@[i].notes@[j];
        let own = kept[i].1.notes;
        assert(info.tracks@[i].notes@.contains(x));
        assert(own.to_multiset().count(x) > 0);
        assert(own.contains(x));
        let k = choose|k: int| 0 <= k < own.len() && own[k] == x;
        lemma_max_end_bounds(own);
        assert(note_end(x) <= max_end_of(own));
        assert(max_end_of(track_outcome(raw, kept[i].0).notes) <= file_duration(raw, n));
    }
    if info.duration_ms > 0 {
        let i0 = choose|i: int|
            0 <= i < n && max_end_of(track_outcome(raw, i).notes) == file_duration(raw, n);
        let own = track_outcome(raw, i0).notes;
        lemma_max_end_bounds(own);
        assert(own.len() > 0);
        lemma_kept_complete(raw, n, i0);
        let p = choose|p: int| 0 <= p < kept.len() && kept[p] == (i0, track_outcome(raw, i0));
        let k = choose|k: int| 0 <= k < own.len() && note_end(own[k]) == max_end_of(own);
        let x = own[k];
        assert(own.contains(x));
        assert(track_matches(kept[p].0, kept[p].1, info.tracks@[p]));
        assert(info.tracks@[p].notes@.to_multiset().count(x) > 0);
        assert(info.tracks@[p].notes@.contains(x));
        let j = choose|j: int|
            0 <= j < info.tracks@[p].notes@.len() && info.tracks@[p].notes@[j] == x;
        assert(note_end(info.tracks@[p].notes@[j]) == info.duration_ms as nat);
    }
}

} // verus!
