use midi_voices::chord::Chord;
use midi_voices::key::NamedKey;
use midi_voices::midi::{MetaMessage, MidiMessage, TrackEvent, TrackEventKind};
use midi_voices::scale::Scale;
use midi_voices::track::{AnyTrack, Piece, Track};
use std::io::{Cursor, Write};

fn left_hand(chord: Vec<i8>, start: u32, notes: Vec<(bool, u8)>) -> Chord {
    let c = str::parse::<NamedKey>("C").unwrap();
    let scale = Scale::new(c, vec![0, 2, 4, 5, 7, 9, 11]).unwrap();
    Chord { id: "chord_1".to_string(), scale, chord, octave: 3, start, notes }
}

fn on(delta: u32, key: u8) -> TrackEvent {
    TrackEvent {
        delta,
        kind: TrackEventKind::Midi { channel: 2, message: MidiMessage::NoteOn { key, vel: 127 } },
    }
}

fn off(delta: u32, key: u8) -> TrackEvent {
    TrackEvent {
        delta,
        kind: TrackEventKind::Midi { channel: 2, message: MidiMessage::NoteOff { key, vel: 127 } },
    }
}

fn first() -> TrackEvent {
    TrackEvent {
        delta: 0,
        kind: TrackEventKind::Midi {
            channel: 2,
            message: MidiMessage::ProgramChange { program: 1 },
        },
    }
}

fn last() -> TrackEvent {
    TrackEvent { delta: 0, kind: TrackEventKind::Meta(MetaMessage::EndOfTrack) }
}

#[test]
fn can_generate_left_hand_midi() {
    let c = str::parse::<NamedKey>("C").unwrap();
    let c_major_scale = Scale::new(c, vec![0, 2, 4, 5, 7, 9, 11]).unwrap();

    let left_hand = Piece {
        bpm: 120,
        tracks: vec![AnyTrack::Chord(Chord {
            id: "chord_1".to_string(),
            scale: c_major_scale,
            chord: vec![0, 2, 6],
            octave: 3,
            start: 0,
            notes: vec![(true, 12), (true, 24), (true, 24), (false, 24), (true, 12)],
        })],
    };

    let mut buffer = Cursor::new(vec![0; 100]);
    assert!(left_hand.is_playable());
    let bytes = left_hand.write_midi().unwrap();
    buffer.write_all(&bytes).unwrap();
    assert_eq!(&buffer.get_ref()[0..4], b"MThd");
}

#[test]
fn chord_notes_start_together_and_stop_together() {
    let chord = left_hand(vec![0, 2, 6], 0, vec![(true, 12), (false, 24), (true, 6)]);
    assert!(chord.is_playable());
    assert_eq!(
        chord.to_midi(1, 2),
        vec![
            first(),
            on(0, 48),
            on(0, 52),
            on(0, 59),
            off(12, 48),
            off(0, 52),
            off(0, 59),
            on(24, 48),
            on(0, 52),
            on(0, 59),
            off(6, 48),
            off(0, 52),
            off(0, 59),
            last(),
        ]
    );
}

#[test]
fn chord_start_and_rests_delay_the_first_stroke() {
    let chord = left_hand(vec![7, 0], 1, vec![(false, 10), (true, 20)]);
    assert_eq!(
        chord.to_midi(1, 2),
        vec![first(), on(34, 60), on(0, 48), off(20, 60), off(0, 48), last()]
    );
    assert_eq!(chord.get_id(), "chord_1");
    assert_eq!(*chord.get_start(), 1);
}

#[test]
fn chord_events_take_the_time_of_its_durations() {
    let chord = left_hand(vec![0, 2, 4, 7], 2, vec![(true, 12), (false, 24), (true, 6), (true, 1)]);
    let ticks: u32 = chord.to_midi(1, 0).iter().map(|event| event.delta).sum();
    assert_eq!(ticks, 48 + 12 + 24 + 6 + 1);
}

#[test]
fn chord_without_positions_makes_no_events() {
    let chord = left_hand(vec![], 1, vec![(true, 12), (false, 5), (true, 12)]);
    assert!(chord.is_playable());
    assert_eq!(chord.to_midi(1, 2), vec![first(), last()]);
}

#[test]
fn chord_with_a_position_out_of_range_is_playable_only_if_silent() {
    assert!(!left_hand(vec![0, 100], 0, vec![(true, 12)]).is_playable());
    assert!(!left_hand(vec![0, 100], 0, vec![(false, 12), (true, 12)]).is_playable());
    assert!(left_hand(vec![0, 100], 0, vec![(false, 12)]).is_playable());
    assert!(left_hand(vec![0, 100], 0, vec![]).is_playable());
    assert!(!left_hand(vec![0], 178956971, vec![]).is_playable());
}
