use zing::codec::Error;
use zing::duration::Duration;
use zing::model::{Chord, Command, PlayData};

fn round_trip(cmd: Command) -> Command {
    let bytes = cmd.as_bytes().unwrap();
    Command::from_bytes(&bytes).unwrap()
}

#[test]
fn round_trip_stop() {
    assert_eq!(round_trip(Command::Stop), Command::Stop);
}

#[test]
fn round_trip_pause() {
    assert_eq!(round_trip(Command::Pause), Command::Pause);
}

#[test]
fn round_trip_resume() {
    assert_eq!(round_trip(Command::Resume), Command::Resume);
}

#[test]
fn round_trip_play_with_multi_note_chord() {
    let data = PlayData {
        chord_duration: Duration::from_nanos(100_000_000),
        chords: vec![
            Chord { extended_duration: Duration::from_nanos(200_000_000), notes: vec![440, 493, 659] },
            Chord { extended_duration: Duration::from_nanos(0), notes: vec![] },
            Chord { extended_duration: Duration::from_nanos(7), notes: vec![16] },
        ],
    };
    let cmd = Command::Play(data);
    let bytes = cmd.as_bytes().unwrap();
    let back = Command::from_bytes(&bytes).unwrap();
    assert_eq!(back, cmd);
}

#[test]
fn simple_commands_encode_as_one_tag_byte() {
    assert_eq!(Command::Stop.as_bytes().unwrap(), vec![1]);
    assert_eq!(Command::Pause.as_bytes().unwrap(), vec![2]);
    assert_eq!(Command::Resume.as_bytes().unwrap(), vec![3]);
}

#[test]
fn empty_input_fails_to_decode() {
    assert_eq!(Command::from_bytes(&[]), Err(Error::Decode));
}

#[test]
fn unknown_tag_fails_to_decode() {
    assert_eq!(Command::from_bytes(&[9]), Err(Error::Decode));
}

#[test]
fn trailing_bytes_fail_to_decode() {
    assert_eq!(Command::from_bytes(&[1, 0]), Err(Error::Decode));
}

#[test]
fn truncated_play_body_fails_to_decode() {
    let data = PlayData {
        chord_duration: Duration::from_nanos(1),
        chords: vec![Chord { extended_duration: Duration::from_nanos(0), notes: vec![440] }],
    };
    let bytes = Command::Play(data).as_bytes().unwrap();
    assert_eq!(Command::from_bytes(&bytes[..bytes.len() - 1]), Err(Error::Decode));
}
