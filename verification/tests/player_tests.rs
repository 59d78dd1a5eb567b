use zing::duration::Duration;
use zing::engine::{chord_emission_plan, scheduler_step, SchedulerStep, ToneStep};
use zing::melody::{Error, Melody};
use zing::model::{Chord, PlayData};

fn ms(n: u64) -> Duration {
    Duration::from_nanos(n * 1_000_000)
}

fn two_chord_data() -> PlayData {
    PlayData {
        chord_duration: ms(100),
        chords: vec![
            Chord { extended_duration: ms(0), notes: vec![440] },
            Chord { extended_duration: ms(0), notes: vec![493] },
        ],
    }
}

#[test]
fn empty_play_data_is_rejected() {
    let data = PlayData { chord_duration: ms(100), chords: vec![] };
    let r = Melody::from_data(data);
    assert!(matches!(r, Err(Error::NoChordsProvided)));
}

#[test]
fn fresh_melody_starts_at_first_chord_not_playing() {
    let melody = Melody::from_data(two_chord_data()).unwrap();
    assert!(!melody.is_playing());
    assert!(!melody.was_stopped());
    assert!(!melody.is_finished());
    assert_eq!(melody.get_chord().notes, vec![440]);
    assert_eq!(melody.get_chord_duration(), ms(100));
}

#[test]
fn pause_then_resume_leaves_position_unchanged() {
    let mut melody = Melody::from_data(two_chord_data()).unwrap();
    melody.resume();
    let before = melody.get_chord();
    melody.pause();
    assert!(!melody.is_playing());
    melody.resume();
    assert!(melody.is_playing());
    assert_eq!(melody.get_chord(), before);
}

#[test]
fn stop_resets_position_and_latches() {
    let mut melody = Melody::from_data(two_chord_data()).unwrap();
    melody.resume();
    melody.next_chord();
    assert_eq!(melody.get_chord().notes, vec![493]);
    melody.stop();
    assert!(melody.was_stopped());
    assert!(!melody.is_playing());
    assert_eq!(melody.get_chord().notes, vec![440]);
    // the latch survives any later transport call
    melody.resume();
    melody.pause();
    melody.next_chord();
    assert!(melody.was_stopped());
}

#[test]
fn scheduler_exits_on_stop_and_on_finish() {
    let mut melody = Melody::from_data(two_chord_data()).unwrap();
    melody.resume();
    match scheduler_step(&melody) {
        SchedulerStep::Emit(chord, d) => {
            assert_eq!(chord.notes, vec![440]);
            assert_eq!(d, ms(100));
        },
        other => panic!("expected an emission, got {:?}", other),
    }
    // the cursor on the last chord counts as finished: it is never emitted
    melody.next_chord();
    assert_eq!(scheduler_step(&melody), SchedulerStep::Finish);

    let mut stopped = Melody::from_data(two_chord_data()).unwrap();
    stopped.resume();
    stopped.stop();
    assert_eq!(scheduler_step(&stopped), SchedulerStep::Finish);
}

#[test]
fn paused_scheduler_waits_without_advancing() {
    let melody = Melody::from_data(two_chord_data()).unwrap();
    assert_eq!(scheduler_step(&melody), SchedulerStep::Wait);
}

#[test]
fn chord_time_is_split_over_its_notes() {
    let chord = Chord { extended_duration: ms(50), notes: vec![440, 493] };
    let plan = chord_emission_plan(&chord, &ms(100)).unwrap();
    assert_eq!(
        plan,
        vec![
            ToneStep { freq: 440, hold: ms(50) },
            ToneStep { freq: 493, hold: ms(50) },
            ToneStep { freq: 493, hold: ms(50) },
            ToneStep { freq: 0, hold: ms(0) },
        ]
    );
}

#[test]
fn empty_chord_plan_is_one_silence() {
    let chord = Chord { extended_duration: ms(0), notes: vec![] };
    let plan = chord_emission_plan(&chord, &ms(100)).unwrap();
    assert_eq!(plan, vec![ToneStep { freq: 0, hold: ms(0) }]);
}

#[test]
fn duration_arithmetic() {
    assert_eq!(ms(100).div(4), ms(25));
    assert_eq!(ms(1).add(&ms(2)), ms(3));
    assert_eq!(ms(1500).as_secs(), 1);
    assert_eq!(ms(1500).subsec_nanos(), 500_000_000);
    assert!(Duration::zero().is_zero());
    assert_eq!(Duration::from_millis(2), ms(2));
    assert_eq!(
        Duration::from_nanos(u64::MAX).checked_add(&Duration::from_nanos(1)),
        None
    );
}
