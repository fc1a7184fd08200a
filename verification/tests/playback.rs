use midi_keyplay::clicker::{clicker_step, ClickerState, NoteEvent, PlaybackError, StepAction};

fn ev(key: &str, time_ms: u64, duration_ms: u64) -> NoteEvent {
    NoteEvent {
        key: key.to_string(),
        time_ms,
        duration_ms,
    }
}

#[test]
fn start_twice_is_rejected_and_changes_nothing() {
    let mut st = ClickerState::new();
    assert!(!st.is_clicker_running());
    assert_eq!(st.start_clicker(), Ok(()));
    assert!(st.is_clicker_running());
    let second = st.start_clicker();
    assert_eq!(second, Err(PlaybackError::AlreadyRunning));
    assert_eq!(second.unwrap_err().message(), "Clicker is already running");
    // The in-progress run is untouched: still running.
    assert!(st.is_clicker_running());
}

#[test]
fn stop_while_not_running_is_a_noop_success() {
    let mut st = ClickerState::new();
    assert_eq!(st.stop_clicker(), Ok(()));
    assert!(!st.is_clicker_running());
    // And a start afterwards still works.
    assert_eq!(st.start_clicker(), Ok(()));
}

#[test]
fn stop_then_finish_lets_a_new_run_start() {
    let mut st = ClickerState::new();
    assert_eq!(st.start_clicker(), Ok(()));
    assert_eq!(st.stop_clicker(), Ok(()));
    assert!(!st.is_clicker_running());
    // The background unit's final act keeps the flag down.
    st.finish_run();
    assert!(!st.is_clicker_running());
    assert_eq!(st.start_clicker(), Ok(()));
}

#[test]
fn lowered_flag_halts_before_any_event_fires() {
    // Once the flag is down the loop abandons every remaining event.
    let e = ev("A", 0, 50);
    assert_eq!(clicker_step(false, &e, 0), StepAction::Halt);
    assert_eq!(clicker_step(false, &e, 12345), StepAction::Halt);
}

#[test]
fn two_event_schedule_fires_at_expected_offsets() {
    // Events A at 0 ms held 50 ms, B at 100 ms held 50 ms. Walking the
    // schedule: A fires at once; after A's press-and-hold about 50 ms have
    // elapsed, so B waits the remaining 50 ms.
    let a = ev("A", 0, 50);
    let b = ev("B", 100, 50);
    assert_eq!(
        clicker_step(true, &a, 0),
        StepAction::Fire {
            wait_ms: 0,
            hold_ms: 50,
            key: Some('A'),
        }
    );
    assert_eq!(
        clicker_step(true, &b, 50),
        StepAction::Fire {
            wait_ms: 50,
            hold_ms: 50,
            key: Some('B'),
        }
    );
}

#[test]
fn late_events_fire_immediately_without_catchup() {
    let b = ev("B", 100, 50);
    assert_eq!(
        clicker_step(true, &b, 175),
        StepAction::Fire {
            wait_ms: 0,
            hold_ms: 50,
            key: Some('B'),
        }
    );
}

#[test]
fn only_the_first_character_of_a_key_matters() {
    let long = ev("Space", 10, 20);
    assert_eq!(
        clicker_step(true, &long, 0),
        StepAction::Fire {
            wait_ms: 10,
            hold_ms: 20,
            key: Some('S'),
        }
    );
    let empty = ev("", 10, 20);
    assert_eq!(
        clicker_step(true, &empty, 0),
        StepAction::Fire {
            wait_ms: 10,
            hold_ms: 20,
            key: None,
        }
    );
}
