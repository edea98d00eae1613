//! Voices, and the compilation of their notes into track events.
//!
//! A voice is a line of notes and rests, each with a duration in ticks.
//! Compiled, every note becomes a note-on and a note-off; a rest becomes no
//! event but delays the next note-on.

use crate::chord::{lemma_chord_events_fit, Chord, ChordView};
use crate::midi::{
    lemma_clip_keeps_tracks_that_fit, smf_bytes, spec_clip_tracks, spec_tracks_of, write_smf,
    MetaMessage, MidiMessage, TrackEvent, TrackEventKind, WriteError,
};
use crate::scale::{Scale, ScaleView};
use crate::text::{pad_right, spec_decimal, spec_pad_right};
use vstd::arithmetic::div_mod::lemma_div_is_ordered_by_denominator;
use vstd::prelude::*;
use vstd::string::StringExecFns;

verus! {

/// The number of ticks in a beat.
pub const TICKS_PER_BEAT: u8 = 24;

/// The velocity of every note.
pub const VELOCITY: u8 = 127;

/// A note or a rest with its duration in ticks. The note is a position in
/// the scale; `None` is a rest.
pub type TimedNote = (Option<i8>, u8);

/// The event that selects the instrument of a channel, at the start of a
/// track.
pub open spec fn spec_program_change(channel: u8, program: u8) -> TrackEvent {
    TrackEvent {
        delta: 0,
        kind: TrackEventKind::Midi { channel, message: MidiMessage::ProgramChange { program } },
    }
}

/// The event that starts a key, `delta` ticks after the event before.
pub open spec fn spec_note_on(delta: u32, channel: u8, key: u8) -> TrackEvent {
    TrackEvent {
        delta,
        kind: TrackEventKind::Midi {
            channel,
            message: MidiMessage::NoteOn { key, vel: VELOCITY },
        },
    }
}

/// The event that stops a key, `delta` ticks after the event before.
pub open spec fn spec_note_off(delta: u32, channel: u8, key: u8) -> TrackEvent {
    TrackEvent {
        delta,
        kind: TrackEventKind::Midi {
            channel,
            message: MidiMessage::NoteOff { key, vel: VELOCITY },
        },
    }
}

/// The event that ends a track.
pub open spec fn spec_end_of_track() -> TrackEvent {
    TrackEvent { delta: 0, kind: TrackEventKind::Meta(MetaMessage::EndOfTrack) }
}

/// The ticks that a run of events takes: the sum of their delta times.
pub open spec fn spec_total_delta(events: Seq<TrackEvent>) -> int
    decreases events.len(),
{
    if events.len() == 0 {
        0
    } else {
        spec_total_delta(events.drop_last()) + events.last().delta
    }
}

/// Something that can be compiled into the events of one MIDI track.
pub trait Track {
    /// The name by which other tracks refer to this one.
    spec fn spec_id(&self) -> Seq<char>;

    /// The beat on which the track starts.
    spec fn spec_start(&self) -> u32;

    /// Whether the track can be compiled: every note is representable and
    /// no delta time overflows.
    spec fn spec_playable(&self) -> bool;

    /// The events of the track for an instrument on a channel.
    spec fn spec_events(&self, instrument: u8, channel: u8) -> Seq<TrackEvent>;

    /// The name by which other tracks refer to this one.
    fn get_id(&self) -> (id: &str)
        ensures
            id@ == self.spec_id(),
    ;

    /// The beat on which the track starts.
    fn get_start(&self) -> (start: &u32)
        ensures
            *start == self.spec_start(),
    ;

    /// Whether the track can be compiled.
    fn is_playable(&self) -> (ok: bool)
        ensures
            ok == self.spec_playable(),
    ;

    /// Compiles the track into events for the given instrument on the
    /// given channel.
    fn to_midi(&self, instrument: u8, channel: u8) -> (events: Vec<TrackEvent>)
        requires
            self.spec_playable(),
        ensures
            events@ == self.spec_events(instrument, channel),
    ;
}

/// A single line of notes in a scale.
pub struct Voice {
    pub id: String,
    pub scale: Scale,
    pub octave: i8,
    /// The beat on which the voice starts.
    pub start: u32,
    pub notes: Vec<TimedNote>,
}

/// What a voice holds.
pub struct VoiceView {
    pub id: Seq<char>,
    pub scale: ScaleView,
    pub octave: i8,
    pub start: u32,
    pub notes: Seq<TimedNote>,
}

impl View for Voice {
    type V = VoiceView;

    open spec fn view(&self) -> VoiceView {
        VoiceView {
            id: self.id@,
            scale: self.scale@,
            octave: self.octave,
            start: self.start,
            notes: self.notes@,
        }
    }
}

impl Clone for Voice {
    fn clone(&self) -> (copy: Self)
        ensures
            copy@ == self@,
    {
        let mut notes: Vec<TimedNote> = Vec::new();
        let mut i: usize = 0;
        while i < self.notes.len()
            invariant
                i <= self.notes@.len(),
                notes@ == self.notes@.subrange(0, i as int),
            decreases self.notes.len() - i,
        {
            notes.push(self.notes[i]);
            i += 1;
            assert(notes@ =~= self.notes@.subrange(0, i as int));
        }
        assert(notes@ =~= self.notes@);
        Voice {
            id: self.id.clone(),
            scale: self.scale.clone(),
            octave: self.octave,
            start: self.start,
            notes,
        }
    }
}

impl Voice {
    /// Whether every note of the voice is a note of its scale.
    pub open spec fn spec_in_range(&self) -> bool {
        forall|i: int|
            0 <= i < self.notes@.len() ==> match (#[trigger] self.notes@[i]).0 {
                Some(position) => self.scale.spec_has_note(position as int, self.octave as int),
                None => true,
            }
    }

    /// The ticks between the last event of the first `n` notes and what
    /// comes after them: the start of the voice and the rests since the
    /// last note.
    pub open spec fn spec_pending(&self, n: nat) -> int
        decreases n,
    {
        if n == 0 {
            self.start * TICKS_PER_BEAT
        } else {
            match self.notes@[n - 1] {
                (None, duration) => self.spec_pending((n - 1) as nat) + duration,
                (Some(_), _) => 0,
            }
        }
    }

    /// The events of the first `n` notes: for each note a note-on after the
    /// ticks pending before it, and a note-off after its duration.
    pub open spec fn spec_compiled(&self, channel: u8, n: nat) -> Seq<TrackEvent>
        decreases n,
    {
        if n == 0 {
            Seq::empty()
        } else {
            let before = self.spec_compiled(channel, (n - 1) as nat);
            match self.notes@[n - 1] {
                (None, _) => before,
                (Some(position), duration) => {
                    let key = self.scale.spec_pitch(position as int, self.octave as int) as u8;
                    before.push(
                        spec_note_on(self.spec_pending((n - 1) as nat) as u32, channel, key),
                    ).push(spec_note_off(duration as u32, channel, key))
                },
            }
        }
    }

    /// Whether every delta time of the voice fits the 28 bits that a MIDI
    /// file has for it.
    pub open spec fn spec_deltas_fit(&self) -> bool {
        forall|n: nat| n <= self.notes@.len() ==> #[trigger] self.spec_pending(n) < 0x1000_0000
    }

    /// The ticks that the first `n` notes and rests last in all.
    pub open spec fn spec_duration(&self, n: nat) -> int
        decreases n,
    {
        if n == 0 {
            0
        } else {
            self.spec_duration((n - 1) as nat) + self.notes@[n - 1].1
        }
    }

    /// The sign of a duration, with the spaces that follow it: the note
    /// value that as many sixteenths of a whole note as the duration holds
    /// stand for, or a question mark.
    pub open spec fn spec_symbol(duration: u8) -> Seq<char> {
        let sixteenths = duration as int * 16 / (TICKS_PER_BEAT as int);
        if sixteenths == 64 {
            seq!['\u{1d15d}', ' ', ' ', ' ']
        } else if sixteenths == 48 {
            seq!['\u{1d15e}', '\u{1d16d}', ' ', ' ', ' ']
        } else if sixteenths == 32 {
            seq!['\u{1d15e}', ' ', ' ', ' ']
        } else if sixteenths == 24 {
            seq!['\u{1d15f}', '\u{1d16d}', ' ', ' ', ' ']
        } else if sixteenths == 16 {
            seq!['\u{1d15f}', ' ', ' ', ' ']
        } else if sixteenths == 12 {
            seq!['\u{1d160}', '\u{1d16d}', ' ', ' ', ' ']
        } else if sixteenths == 8 {
            seq!['\u{1d160}', ' ', ' ', ' ']
        } else if sixteenths == 4 {
            seq!['\u{1d161}', ' ', ' ', ' ']
        } else if sixteenths == 2 {
            seq!['\u{1d162}', ' ', ' ', ' ']
        } else {
            seq!['?', ' ', ' ', ' ']
        }
    }

    /// The name of the note at place `i`, filled up with spaces to four
    /// characters; four spaces for a rest.
    pub open spec fn spec_name(&self, i: int) -> Seq<char> {
        match self.notes@[i].0 {
            Some(position) => {
                let (named, octave) = self.scale.spec_named_note(
                    position as int,
                    self.octave as int,
                );
                spec_pad_right(named.spec_text() + spec_decimal(octave), 4)
            },
            None => seq![' ', ' ', ' ', ' '],
        }
    }

    /// The names of the first `n` notes, one after the other.
    pub open spec fn spec_names(&self, n: nat) -> Seq<char>
        decreases n,
    {
        if n == 0 {
            Seq::empty()
        } else {
            self.spec_names((n - 1) as nat) + self.spec_name(n - 1)
        }
    }

    /// The signs of the first `n` durations, one after the other.
    pub open spec fn spec_symbols(&self, n: nat) -> Seq<char>
        decreases n,
    {
        if n == 0 {
            Seq::empty()
        } else {
            self.spec_symbols((n - 1) as nat) + Voice::spec_symbol(self.notes@[n - 1].1)
        }
    }

    /// The printed form of the voice: a line of note names and beneath it a
    /// line of note values.
    pub open spec fn spec_text(&self) -> Seq<char> {
        self.spec_names(self.notes@.len()) + seq!['\n'] + self.spec_symbols(self.notes@.len())
    }

    fn note_symbol(duration: u8) -> (s: &'static str)
        ensures
            s@ == Voice::spec_symbol(duration),
    {
        proof {
            reveal_strlit("\u{1d15d}   ");
            reveal_strlit("\u{1d15e}\u{1d16d}   ");
            reveal_strlit("\u{1d15e}   ");
            reveal_strlit("\u{1d15f}\u{1d16d}   ");
            reveal_strlit("\u{1d15f}   ");
            reveal_strlit("\u{1d160}\u{1d16d}   ");
            reveal_strlit("\u{1d160}   ");
            reveal_strlit("\u{1d161}   ");
            reveal_strlit("\u{1d162}   ");
            reveal_strlit("?   ");
        }
        let sixteenths: u32 = duration as u32 * 16 / TICKS_PER_BEAT as u32;
        let s = match sixteenths {
            64 => "\u{1d15d}   ",
            48 => "\u{1d15e}\u{1d16d}   ",
            32 => "\u{1d15e}   ",
            24 => "\u{1d15f}\u{1d16d}   ",
            16 => "\u{1d15f}   ",
            12 => "\u{1d160}\u{1d16d}   ",
            8 => "\u{1d160}   ",
            4 => "\u{1d161}   ",
            2 => "\u{1d162}   ",
            _ => "?   ",
        };
        assert(s@ =~= Voice::spec_symbol(duration));
        s
    }

    /// Prints the voice: the names of its notes in a line, four characters
    /// to a note, and beneath them the signs of their durations.
    pub fn to_string(&self) -> (s: String)
        requires
            self.spec_in_range(),
        ensures
            s@ == self.spec_text(),
    {
        let mut note_names = String::new();
        let mut note_symbols = String::new();
        let mut i: usize = 0;
        while i < self.notes.len()
            invariant
                i <= self.notes@.len(),
                self.spec_in_range(),
                note_names@ == self.spec_names(i as nat),
                note_symbols@ == self.spec_symbols(i as nat),
            decreases self.notes.len() - i,
        {
            let (position, duration) = self.notes[i];
            let note_name = match position {
                Some(position) => {
                    assert(self.notes@[i as int].0 == Some(position));
                    pad_right(self.scale.get_named_note(position, self.octave).to_string(), 4)
                },
                None => {
                    proof {
                        reveal_strlit("    ");
                    }
                    assert("    "@ =~= seq![' ', ' ', ' ', ' ']);
                    "    ".to_owned()
                },
            };
            let note_symbol = Self::note_symbol(duration);
            note_names.append(note_name.as_str());
            note_symbols.append(note_symbol);
            i += 1;
        }
        proof {
            reveal_strlit("\n");
        }
        note_names.append("\n");
        note_names.append(note_symbols.as_str());
        assert(note_names@ =~= self.spec_text());
        note_names
    }
}

impl Track for Voice {
    open spec fn spec_id(&self) -> Seq<char> {
        self.id@
    }

    open spec fn spec_start(&self) -> u32 {
        self.start
    }

    open spec fn spec_playable(&self) -> bool {
        &&& self.spec_in_range()
        &&& forall|n: nat| n <= self.notes@.len() ==> #[trigger] self.spec_pending(n) <= u32::MAX
    }

    open spec fn spec_events(&self, instrument: u8, channel: u8) -> Seq<TrackEvent> {
        seq![spec_program_change(channel, instrument)] + self.spec_compiled(
            channel,
            self.notes@.len(),
        ) + seq![spec_end_of_track()]
    }

    fn get_id(&self) -> (id: &str) {
        self.id.as_str()
    }

    fn get_start(&self) -> (start: &u32) {
        &self.start
    }

    fn is_playable(&self) -> (ok: bool) {
        let mut pending: u64 = self.start as u64 * TICKS_PER_BEAT as u64;
        if pending > u32::MAX as u64 {
            assert(self.spec_pending(0) > u32::MAX);
            return false;
        }
        let mut i: usize = 0;
        while i < self.notes.len()
            invariant
                i <= self.notes@.len(),
                pending == self.spec_pending(i as nat),
                forall|n: nat| n <= i ==> #[trigger] self.spec_pending(n) <= u32::MAX,
                forall|j: int|
                    0 <= j < i ==> match (#[trigger] self.notes@[j]).0 {
                        Some(position) => self.scale.spec_has_note(
                            position as int,
                            self.octave as int,
                        ),
                        None => true,
                    },
            decreases self.notes.len() - i,
        {
            let (note, duration) = self.notes[i];
            match note {
                Some(position) => {
                    if !self.scale.has_note(position, self.octave) {
                        return false;
                    }
                    pending = 0;
                },
                None => {
                    pending = pending + duration as u64;
                    if pending > u32::MAX as u64 {
                        assert(self.spec_pending((i + 1) as nat) > u32::MAX);
                        return false;
                    }
                },
            }
            i += 1;
        }
        true
    }

    fn to_midi(&self, instrument: u8, channel: u8) -> (events: Vec<TrackEvent>) {
        let mut track_events = Vec::<TrackEvent>::new();

        track_events.push(
            TrackEvent {
                delta: 0,
                kind: TrackEventKind::Midi {
                    channel,
                    message: MidiMessage::ProgramChange { program: instrument },
                },
            },
        );

        assert(self.spec_pending(0) <= u32::MAX);
        let mut next_note_delta: u32 = self.start * (TICKS_PER_BEAT as u32);

        let mut i: usize = 0;
        while i < self.notes.len()
            invariant
                i <= self.notes@.len(),
                self.spec_playable(),
                next_note_delta == self.spec_pending(i as nat),
                track_events@ == seq![spec_program_change(channel, instrument)]
                    + self.spec_compiled(channel, i as nat),
            decreases self.notes.len() - i,
        {
            let (note, duration) = self.notes[i];
            assert(self.spec_pending((i + 1) as nat) <= u32::MAX);

            if let Some(position) = note {
                assert(self.notes@[i as int].0 == Some(position));
                let key: u8 = self.scale.get_note(position, self.octave).0;
                track_events.push(
                    TrackEvent {
                        delta: next_note_delta,
                        kind: TrackEventKind::Midi {
                            channel,
                            message: MidiMessage::NoteOn { key, vel: VELOCITY },
                        },
                    },
                );
                track_events.push(
                    TrackEvent {
                        delta: duration as u32,
                        kind: TrackEventKind::Midi {
                            channel,
                            message: MidiMessage::NoteOff { key, vel: VELOCITY },
                        },
                    },
                );
                next_note_delta = 0;
            } else {
                next_note_delta += duration as u32;
            }
            i += 1;
            assert(track_events@ =~= seq![spec_program_change(channel, instrument)]
                + self.spec_compiled(channel, i as nat));
        }

        track_events.push(
            TrackEvent { delta: 0, kind: TrackEventKind::Meta(MetaMessage::EndOfTrack) },
        );

        track_events
    }
}

/// A track of a piece: a voice or a chord.
pub enum AnyTrack {
    Voice(Voice),
    Chord(Chord),
}

/// What a track holds.
pub enum TrackView {
    Voice(VoiceView),
    Chord(ChordView),
}

impl TrackView {
    /// The name by which other tracks refer to the track.
    pub open spec fn id(self) -> Seq<char> {
        match self {
            TrackView::Voice(voice) => voice.id,
            TrackView::Chord(chord) => chord.id,
        }
    }

    /// The beat on which the track starts.
    pub open spec fn start(self) -> u32 {
        match self {
            TrackView::Voice(voice) => voice.start,
            TrackView::Chord(chord) => chord.start,
        }
    }
}

impl View for AnyTrack {
    type V = TrackView;

    open spec fn view(&self) -> TrackView {
        match self {
            AnyTrack::Voice(voice) => TrackView::Voice(voice@),
            AnyTrack::Chord(chord) => TrackView::Chord(chord@),
        }
    }
}

impl Track for AnyTrack {
    open spec fn spec_id(&self) -> Seq<char> {
        match self {
            AnyTrack::Voice(voice) => voice.spec_id(),
            AnyTrack::Chord(chord) => chord.spec_id(),
        }
    }

    open spec fn spec_start(&self) -> u32 {
        match self {
            AnyTrack::Voice(voice) => voice.spec_start(),
            AnyTrack::Chord(chord) => chord.spec_start(),
        }
    }

    open spec fn spec_playable(&self) -> bool {
        match self {
            AnyTrack::Voice(voice) => voice.spec_playable(),
            AnyTrack::Chord(chord) => chord.spec_playable(),
        }
    }

    open spec fn spec_events(&self, instrument: u8, channel: u8) -> Seq<TrackEvent> {
        match self {
            AnyTrack::Voice(voice) => voice.spec_events(instrument, channel),
            AnyTrack::Chord(chord) => chord.spec_events(instrument, channel),
        }
    }

    fn get_id(&self) -> (id: &str) {
        match self {
            AnyTrack::Voice(voice) => voice.get_id(),
            AnyTrack::Chord(chord) => chord.get_id(),
        }
    }

    fn get_start(&self) -> (start: &u32) {
        match self {
            AnyTrack::Voice(voice) => voice.get_start(),
            AnyTrack::Chord(chord) => chord.get_start(),
        }
    }

    fn is_playable(&self) -> (ok: bool) {
        match self {
            AnyTrack::Voice(voice) => voice.is_playable(),
            AnyTrack::Chord(chord) => chord.is_playable(),
        }
    }

    fn to_midi(&self, instrument: u8, channel: u8) -> (events: Vec<TrackEvent>) {
        match self {
            AnyTrack::Voice(voice) => voice.to_midi(instrument, channel),
            AnyTrack::Chord(chord) => chord.to_midi(instrument, channel),
        }
    }
}

/// A piece: tracks that sound together at one tempo.
pub struct Piece {
    /// The tempo in beats per minute.
    pub bpm: u8,
    pub tracks: Vec<AnyTrack>,
}

/// What a piece holds.
pub struct PieceView {
    pub bpm: u8,
    pub tracks: Seq<TrackView>,
}

impl View for Piece {
    type V = PieceView;

    open spec fn view(&self) -> PieceView {
        PieceView { bpm: self.bpm, tracks: Seq::new(self.tracks@.len(), |i: int| self.tracks@[i]@) }
    }
}

impl Piece {
    /// The instrument of every track.
    pub const INSTRUMENT: u8 = 1;

    /// Whether the piece can be written: it has a tempo, and every track
    /// can be compiled.
    pub open spec fn spec_playable(&self) -> bool {
        &&& self.bpm > 0
        &&& forall|i: int| 0 <= i < self.tracks@.len() ==> (#[trigger] self.tracks@[i]).spec_playable()
    }

    /// The channel of the track at place `i`: the sixteen channels are
    /// given out in order, and again from the first after the sixteenth
    /// track.
    pub open spec fn spec_channel(i: int) -> u8 {
        (i % 16) as u8
    }

    /// The length of a beat in microseconds at the tempo of the piece: at
    /// 120 beats per minute a beat lasts 500000 microseconds.
    pub open spec fn spec_microseconds_per_beat(&self) -> u32 {
        (500000int * 120 / (self.bpm as int)) as u32
    }

    /// The first track of the file, which holds the tempo, the time
    /// signature of four quarters, and nothing else.
    pub open spec fn spec_header_track(&self) -> Seq<TrackEvent> {
        seq![
            TrackEvent {
                delta: 0,
                kind: TrackEventKind::Meta(MetaMessage::Tempo(self.spec_microseconds_per_beat())),
            },
            TrackEvent {
                delta: 0,
                kind: TrackEventKind::Meta(MetaMessage::TimeSignature(4, 2, 24, 8)),
            },
            spec_end_of_track(),
        ]
    }

    /// The tracks of the file: the header track, and after it the events
    /// of each track of the piece in order, each on its channel.
    pub open spec fn spec_tracks(&self) -> Seq<Seq<TrackEvent>> {
        Seq::new(
            self.tracks@.len() + 1,
            |t: int|
                if t == 0 {
                    self.spec_header_track()
                } else {
                    self.tracks@[t - 1].spec_events(Piece::INSTRUMENT, Piece::spec_channel(t - 1))
                },
        )
    }

    /// Whether the piece can be written.
    pub fn is_playable(&self) -> (ok: bool)
        ensures
            ok == self.spec_playable(),
    {
        if self.bpm == 0 {
            return false;
        }
        let mut i: usize = 0;
        while i < self.tracks.len()
            invariant
                i <= self.tracks@.len(),
                forall|j: int| 0 <= j < i ==> (#[trigger] self.tracks@[j]).spec_playable(),
            decreases self.tracks.len() - i,
        {
            if !self.tracks[i].is_playable() {
                return false;
            }
            i += 1;
        }
        true
    }

    /// Compiles the piece into the tracks of a MIDI file.
    pub fn to_midi(&self) -> (tracks: Vec<Vec<TrackEvent>>)
        requires
            self.spec_playable(),
        ensures
            spec_tracks_of(tracks@) == self.spec_tracks(),
    {
        let microseconds_per_beat: u32 = 500000 * 120 / (self.bpm as u32);

        let mut header_track: Vec<TrackEvent> = Vec::new();
        header_track.push(
            TrackEvent {
                delta: 0,
                kind: TrackEventKind::Meta(MetaMessage::Tempo(microseconds_per_beat)),
            },
        );
        header_track.push(
            TrackEvent {
                delta: 0,
                kind: TrackEventKind::Meta(MetaMessage::TimeSignature(4, 2, 24, 8)),
            },
        );
        header_track.push(
            TrackEvent { delta: 0, kind: TrackEventKind::Meta(MetaMessage::EndOfTrack) },
        );
        assert(header_track@ =~= self.spec_header_track());

        let mut tracks: Vec<Vec<TrackEvent>> = Vec::new();
        tracks.push(header_track);

        let mut i: usize = 0;
        while i < self.tracks.len()
            invariant
                i <= self.tracks@.len(),
                self.spec_playable(),
                tracks@.len() == i + 1,
                forall|t: int| 0 <= t <= i ==> (#[trigger] tracks@[t])@ == self.spec_tracks()[t],
            decreases self.tracks.len() - i,
        {
            let channel: u8 = (i % 16) as u8;
            let track_to_midi = self.tracks[i].to_midi(Piece::INSTRUMENT, channel);
            tracks.push(track_to_midi);
            i += 1;
        }
        assert(spec_tracks_of(tracks@) =~= self.spec_tracks());
        tracks
    }

    /// Writes the piece as a Standard MIDI File in the parallel format, at
    /// 24 ticks to the beat: a header track with the tempo and the time
    /// signature, then one track for each track of the piece, in order.
    pub fn write_midi(&self) -> (r: Result<Vec<u8>, WriteError>)
        requires
            self.spec_playable(),
        ensures
            match r {
                Ok(bytes) => smf_bytes(
                    TICKS_PER_BEAT as u16,
                    spec_clip_tracks(self.spec_tracks()),
                ) == Some(bytes@),
                Err(e) => {
                    &&& smf_bytes(TICKS_PER_BEAT as u16, spec_clip_tracks(self.spec_tracks()))
                        is None
                    &&& e == if self.tracks@.len() + 1 > 65535 {
                        WriteError::TooManyTracks
                    } else {
                        WriteError::TrackTooLong
                    }
                },
            },
    {
        let tracks = self.to_midi();
        assert(24u16 & 0x7fff == 24u16) by (bit_vector);
        write_smf(TICKS_PER_BEAT as u16, &tracks)
    }
}

/// The ticks of a run of events with one more event are those of the run
/// and the delta time of the event.
pub proof fn lemma_total_delta_push(events: Seq<TrackEvent>, event: TrackEvent)
    ensures
        spec_total_delta(events.push(event)) == spec_total_delta(events) + event.delta,
{
    assert(events.push(event).drop_last() =~= events);
}

/// A voice keeps time: the ticks that the events of its first `n` notes
/// take, and those still pending after them, are together the ticks before
/// the voice starts and the durations of the `n` notes and rests. A rest
/// makes no event; it is made up for before the next note-on.
pub proof fn lemma_voice_keeps_time(voice: Voice, channel: u8, n: nat)
    requires
        voice.spec_playable(),
        n <= voice.notes@.len(),
    ensures
        0 <= voice.spec_pending(n),
        spec_total_delta(voice.spec_compiled(channel, n)) + voice.spec_pending(n) == voice.start
            * TICKS_PER_BEAT + voice.spec_duration(n),
    decreases n,
{
    if n > 0 {
        lemma_voice_keeps_time(voice, channel, (n - 1) as nat);
        let before = voice.spec_compiled(channel, (n - 1) as nat);
        assert(voice.spec_pending((n - 1) as nat) <= u32::MAX);
        match voice.notes@[n - 1] {
            (None, _) => {},
            (Some(position), duration) => {
                let key = voice.scale.spec_pitch(position as int, voice.octave as int) as u8;
                let on = spec_note_on(voice.spec_pending((n - 1) as nat) as u32, channel, key);
                let off = spec_note_off(duration as u32, channel, key);
                lemma_total_delta_push(before, on);
                lemma_total_delta_push(before.push(on), off);
            },
        }
    }
}

/// The events of a playable voice whose delta times fit 28 bits fit a MIDI
/// file, on any of the sixteen channels and for any of the 128 instruments.
pub proof fn lemma_voice_events_fit(voice: Voice, instrument: u8, channel: u8, n: nat)
    requires
        voice.spec_playable(),
        voice.spec_deltas_fit(),
        instrument < 128,
        channel < 16,
        n <= voice.notes@.len(),
    ensures
        forall|i: int|
            0 <= i < voice.spec_compiled(channel, n).len() ==> (#[trigger] voice.spec_compiled(
                channel,
                n,
            )[i]).spec_fits(),
        n == voice.notes@.len() ==> forall|i: int|
            0 <= i < voice.spec_events(instrument, channel).len() ==> (
            #[trigger] voice.spec_events(instrument, channel)[i]).spec_fits(),
    decreases n,
{
    if n > 0 {
        lemma_voice_events_fit(voice, instrument, channel, (n - 1) as nat);
        lemma_voice_keeps_time(voice, channel, (n - 1) as nat);
        assert(voice.spec_pending((n - 1) as nat) < 0x1000_0000);
        assert(voice.notes@[n - 1].0 is Some ==> voice.scale.spec_has_note(
            voice.notes@[n - 1].0.unwrap() as int,
            voice.octave as int,
        ));
    }
}

/// Whether every delta time of a track fits the 28 bits that a MIDI file
/// has for it.
pub open spec fn spec_deltas_fit(track: AnyTrack) -> bool {
    match track {
        AnyTrack::Voice(voice) => voice.spec_deltas_fit(),
        AnyTrack::Chord(chord) => chord.spec_deltas_fit(),
    }
}

/// A playable piece at four beats per minute or more, whose delta times
/// fit 28 bits, is written as it is: no field of any event is cut. At
/// fewer than four beats per minute a beat lasts longer than the 24 bits
/// of the tempo can say.
pub proof fn lemma_piece_is_written_as_it_is(piece: Piece)
    requires
        piece.spec_playable(),
        piece.bpm >= 4,
        forall|i: int| 0 <= i < piece.tracks@.len() ==> spec_deltas_fit(#[trigger] piece.tracks@[i]),
    ensures
        spec_clip_tracks(piece.spec_tracks()) == piece.spec_tracks(),
{
    let tracks = piece.spec_tracks();
    assert forall|t: int, i: int| 0 <= t < tracks.len() && 0 <= i < tracks[t].len() implies (
    #[trigger] tracks[t][i]).spec_fits() by {
        if t == 0 {
            lemma_div_is_ordered_by_denominator(60000000, 4, piece.bpm as int);
        } else {
            let channel = Piece::spec_channel(t - 1);
            assert(piece.tracks@[t - 1].spec_playable());
            assert(spec_deltas_fit(piece.tracks@[t - 1]));
            match piece.tracks@[t - 1] {
                AnyTrack::Voice(voice) => {
                    lemma_voice_events_fit(voice, Piece::INSTRUMENT, channel, voice.notes@.len());
                },
                AnyTrack::Chord(chord) => {
                    lemma_chord_events_fit(chord, Piece::INSTRUMENT, channel, chord.notes@.len());
                },
            }
        }
    }
    lemma_clip_keeps_tracks_that_fit(tracks);
}

/// The tracks of a piece keep their order behind the header track, and
/// the track at place `i` is on channel `i` modulo 16: the seventeenth
/// track is on the channel of the first again.
pub proof fn lemma_piece_channels(piece: Piece, i: int)
    requires
        0 <= i < piece.tracks@.len(),
    ensures
        piece.spec_tracks().len() == piece.tracks@.len() + 1,
        piece.spec_tracks()[0] == piece.spec_header_track(),
        piece.spec_tracks()[i + 1] == piece.tracks@[i].spec_events(
            Piece::INSTRUMENT,
            Piece::spec_channel(i),
        ),
        Piece::spec_channel(i) < 16,
        Piece::spec_channel(i + 16) == Piece::spec_channel(i),
        Piece::spec_channel(0) == 0,
        Piece::spec_channel(16) == 0,
{
}

} // verus!
