//! A verified core for a MIDI-driven key-press player.
//!
//! The library has two independent parts:
//! - MIDI extraction: turn the bytes of a Standard MIDI File into per-track
//!   note lists with absolute millisecond timing (`parse_midi_data`).
//! - Playback control: the state transitions and per-event decisions of a
//!   cancellable real-time scheduler (`ClickerState`, `clicker_step`); the
//!   embedding program supplies the clock, the background thread and the
//!   key-injection primitive.

pub mod clicker;
pub mod extract;
pub mod events;
pub mod names;
pub mod smf;
pub mod sort;
pub mod timing;
