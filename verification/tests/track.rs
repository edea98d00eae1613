use midi_voices::key::NamedKey;
use midi_voices::midi::{MetaMessage, MidiMessage, TrackEvent, TrackEventKind, WriteError};
use midi_voices::scale::Scale;
use midi_voices::track::{AnyTrack, Piece, TimedNote, Track, Voice, TICKS_PER_BEAT};
use std::io::{Cursor, Write};

fn c_major() -> Scale {
    let c = str::parse::<NamedKey>("C").unwrap();
    Scale::new(c, vec![0, 2, 4, 5, 7, 9, 11]).unwrap()
}

fn voice(start: u32, notes: Vec<TimedNote>) -> Voice {
    Voice { id: "voice_1".to_string(), start, scale: c_major(), octave: 4, notes }
}

fn program_change(channel: u8, program: u8) -> TrackEvent {
    TrackEvent {
        delta: 0,
        kind: TrackEventKind::Midi { channel, message: MidiMessage::ProgramChange { program } },
    }
}

fn note_on(delta: u32, channel: u8, key: u8) -> TrackEvent {
    TrackEvent {
        delta,
        kind: TrackEventKind::Midi { channel, message: MidiMessage::NoteOn { key, vel: 127 } },
    }
}

fn note_off(delta: u32, channel: u8, key: u8) -> TrackEvent {
    TrackEvent {
        delta,
        kind: TrackEventKind::Midi { channel, message: MidiMessage::NoteOff { key, vel: 127 } },
    }
}

fn end_of_track() -> TrackEvent {
    TrackEvent { delta: 0, kind: TrackEventKind::Meta(MetaMessage::EndOfTrack) }
}

#[test]
fn can_generate_midi_harpsichord() {
    let c = str::parse::<NamedKey>("C").unwrap();
    let c_major_scale = Scale::new(c, vec![0, 2, 4, 5, 7, 9, 11]).unwrap();
    let octave = 4;

    let wtc_1_1_prelude = Piece {
        bpm: 120,
        tracks: vec![AnyTrack::Voice(Voice {
            id: "voice_1".to_string(),
            start: 0,
            scale: c_major_scale,
            octave,
            notes: [0, 2, 4, 7, 9, 4, 7, 9]
                .into_iter()
                .map(|position| (Some(position), TICKS_PER_BEAT / 2))
                .collect(),
        })],
    };

    let mut buffer = Cursor::new(vec![0; 100]);
    assert!(wtc_1_1_prelude.is_playable());
    let bytes = wtc_1_1_prelude.write_midi().unwrap();
    buffer.write_all(&bytes).unwrap();
    assert_eq!(&buffer.get_ref()[0..4], b"MThd");
}

#[test]
fn can_format_track() {
    let c = str::parse::<NamedKey>("C").unwrap();
    let c_major_scale = Scale::new(c, vec![0, 2, 4, 5, 7, 9, 11]).unwrap();
    let octave = 4;

    let wtc_1_1_prelude_track = Voice {
        id: "voice_1".to_string(),
        start: 0,
        scale: c_major_scale,
        octave,
        notes: [0, 2, 4, 7, 9, 4, 7, 9]
            .into_iter()
            .map(|position| (Some(position), TICKS_PER_BEAT / 2))
            .collect(),
    };

    wtc_1_1_prelude_track.to_string();
}

#[test]
fn voice_prints_names_over_note_values() {
    let line = voice(0, vec![(Some(0), 12), (None, 24), (Some(8), 6), (Some(-1), 96)]);
    assert_eq!(
        line.to_string(),
        "C4      D5  B3  \n\u{1d160}   \u{1d15f}   \u{1d161}   \u{1d15d}   "
    );
}

#[test]
fn voice_prints_every_note_value() {
    let durations: [(u8, &str); 12] = [
        (96, "\u{1d15d}   "),
        (72, "\u{1d15e}\u{1d16d}   "),
        (48, "\u{1d15e}   "),
        (36, "\u{1d15f}\u{1d16d}   "),
        (24, "\u{1d15f}   "),
        (18, "\u{1d160}\u{1d16d}   "),
        (12, "\u{1d160}   "),
        (6, "\u{1d161}   "),
        (3, "\u{1d162}   "),
        (1, "?   "),
        (0, "?   "),
        (255, "?   "),
    ];
    for (duration, sign) in durations {
        let line = voice(0, vec![(None, duration)]);
        assert_eq!(line.to_string(), format!("    \n{}", sign));
    }
    assert_eq!(voice(0, vec![]).to_string(), "\n");
}

#[test]
fn voice_prints_long_names_without_padding() {
    let c_sharp = str::parse::<NamedKey>("C#").unwrap();
    let scale = Scale::new(c_sharp, vec![0, 2, 4, 5, 7, 9, 11]).unwrap();
    let line = Voice {
        id: "low".to_string(),
        start: 0,
        scale,
        octave: -1,
        notes: vec![(Some(0), 24), (Some(1), 24)],
    };
    assert_eq!(
        line.to_string(),
        "C\u{266f}-1D\u{266f}-1\n\u{1d15f}   \u{1d15f}   "
    );
}

#[test]
fn single_voice_compiles_to_delta_timed_events() {
    let line = voice(
        0,
        vec![(None, 12), (Some(0), 12), (Some(2), 24), (None, 24), (Some(4), 12)],
    );
    assert!(line.is_playable());
    assert_eq!(
        line.to_midi(1, 0),
        vec![
            program_change(0, 1),
            note_on(12, 0, 60),
            note_off(12, 0, 60),
            note_on(0, 0, 64),
            note_off(24, 0, 64),
            note_on(24, 0, 67),
            note_off(12, 0, 67),
            end_of_track(),
        ]
    );
}

#[test]
fn voice_start_delays_the_first_note() {
    let line = voice(2, vec![(Some(0), 24)]);
    assert_eq!(
        line.to_midi(5, 3),
        vec![program_change(3, 5), note_on(48, 3, 60), note_off(24, 3, 60), end_of_track()]
    );
    let line = voice(2, vec![(None, 10), (None, 20), (Some(7), 24)]);
    assert_eq!(line.to_midi(1, 0)[1], note_on(78, 0, 72));
}

#[test]
fn rests_make_no_events() {
    let line = voice(3, vec![(None, 12), (None, 200), (None, 255)]);
    assert_eq!(line.to_midi(1, 0), vec![program_change(0, 1), end_of_track()]);
    let line = voice(0, vec![(Some(0), 12), (None, 24)]);
    assert_eq!(
        line.to_midi(1, 0),
        vec![program_change(0, 1), note_on(0, 0, 60), note_off(12, 0, 60), end_of_track()]
    );
    assert_eq!(voice(0, vec![]).to_midi(1, 0), vec![program_change(0, 1), end_of_track()]);
}

#[test]
fn voice_events_take_the_time_of_its_notes() {
    let notes = vec![(None, 12), (Some(0), 12), (Some(2), 24), (None, 24), (Some(4), 12)];
    let line = voice(1, notes);
    let ticks: u32 = line.to_midi(1, 0).iter().map(|event| event.delta).sum();
    assert_eq!(ticks, 24 + 12 + 12 + 24 + 24 + 12);
}

#[test]
fn voice_id_and_start() {
    let line = voice(7, vec![]);
    assert_eq!(line.get_id(), "voice_1");
    assert_eq!(*line.get_start(), 7);
    let copy = line.clone();
    assert_eq!(copy.get_id(), "voice_1");
    assert_eq!(copy.notes, line.notes);
}

#[test]
fn voice_with_a_note_out_of_range_is_not_playable() {
    assert!(voice(0, vec![(Some(0), 12)]).is_playable());
    assert!(voice(0, vec![(Some(39), 12)]).is_playable());
    assert!(!voice(0, vec![(Some(40), 12)]).is_playable());
    assert!(!voice(0, vec![(Some(0), 12), (Some(-36), 12)]).is_playable());
    assert!(voice(0, vec![(Some(0), 12), (Some(-35), 12)]).is_playable());
    let empty = Scale::new(str::parse::<NamedKey>("C").unwrap(), vec![]).unwrap();
    let line = Voice { id: "x".to_string(), start: 0, scale: empty, octave: 4, notes: vec![(Some(0), 1)] };
    assert!(!line.is_playable());
}

#[test]
fn voice_whose_delta_overflows_is_not_playable() {
    assert!(voice(178956970, vec![]).is_playable());
    assert!(!voice(178956971, vec![]).is_playable());
    assert!(voice(178956970, vec![(None, 15)]).is_playable());
    assert!(!voice(178956970, vec![(None, 16)]).is_playable());
    assert!(voice(178956970, vec![(Some(0), 255), (None, 255)]).is_playable());
}

#[test]
fn piece_gives_channels_out_in_order_and_wraps() {
    let tracks: Vec<AnyTrack> =
        (0..17u8).map(|i| AnyTrack::Voice(voice(0, vec![(Some(i as i8), 12)]))).collect();
    let piece = Piece { bpm: 120, tracks };
    assert!(piece.is_playable());
    let compiled = piece.to_midi();
    assert_eq!(compiled.len(), 18);
    for i in 0..17usize {
        let channel = (i % 16) as u8;
        let key = c_major().get_note(i as i8, 4).0;
        assert_eq!(
            compiled[i + 1],
            vec![
                program_change(channel, 1),
                note_on(0, channel, key),
                note_off(12, channel, key),
                end_of_track()
            ]
        );
    }
    assert_eq!(compiled[1][0], program_change(0, 1));
    assert_eq!(compiled[16][0], program_change(15, 1));
    assert_eq!(compiled[17][0], program_change(0, 1));
}

#[test]
fn piece_header_track_holds_tempo_and_time_signature() {
    let tempo_of = |bpm: u8| Piece { bpm, tracks: vec![] }.to_midi();
    let header = |tempo: u32| {
        vec![vec![
            TrackEvent { delta: 0, kind: TrackEventKind::Meta(MetaMessage::Tempo(tempo)) },
            TrackEvent {
                delta: 0,
                kind: TrackEventKind::Meta(MetaMessage::TimeSignature(4, 2, 24, 8)),
            },
            end_of_track(),
        ]]
    };
    assert_eq!(tempo_of(120), header(500000));
    assert_eq!(tempo_of(60), header(1000000));
    assert_eq!(tempo_of(255), header(235294));
    assert_eq!(tempo_of(1), header(60000000));
    assert_eq!(tempo_of(7), header(8571428));
}

#[test]
fn piece_without_tempo_is_not_playable() {
    assert!(!Piece { bpm: 0, tracks: vec![] }.is_playable());
    assert!(Piece { bpm: 1, tracks: vec![] }.is_playable());
    let bad = vec![AnyTrack::Voice(voice(0, vec![(Some(100), 1)]))];
    assert!(!Piece { bpm: 120, tracks: bad }.is_playable());
}

#[test]
fn piece_writes_a_midi_file() {
    let tracks = vec![AnyTrack::Voice(voice(0, vec![(Some(0), 12)]))];
    let piece = Piece { bpm: 120, tracks };
    let expected: Vec<u8> = vec![
        0x4d, 0x54, 0x68, 0x64, 0, 0, 0, 6, 0, 1, 0, 2, 0, 24, // header chunk
        0x4d, 0x54, 0x72, 0x6b, 0, 0, 0, 19, // first track
        0x00, 0xff, 0x51, 0x03, 0x07, 0xa1, 0x20, // tempo
        0x00, 0xff, 0x58, 0x04, 4, 2, 24, 8, // time signature
        0x00, 0xff, 0x2f, 0x00, // end of track
        0x4d, 0x54, 0x72, 0x6b, 0, 0, 0, 15, // second track
        0x00, 0xc0, 0x01, // program change
        0x00, 0x90, 60, 127, // note on
        0x0c, 0x80, 60, 127, // note off
        0x00, 0xff, 0x2f, 0x00, // end of track
    ];
    assert_eq!(piece.write_midi(), Ok(expected));
}

#[test]
fn piece_with_too_many_tracks_is_refused() {
    let tracks: Vec<AnyTrack> = (0..65535u32).map(|_| AnyTrack::Voice(voice(0, vec![]))).collect();
    let piece = Piece { bpm: 120, tracks };
    assert_eq!(piece.write_midi(), Err(WriteError::TooManyTracks));
}
