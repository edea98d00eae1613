//! Chords: a fixed shape of scale positions that is struck, or left silent,
//! for each of a line of durations.

use crate::midi::{MetaMessage, MidiMessage, TrackEvent, TrackEventKind};
use crate::scale::{Scale, ScaleView};
use crate::track::{
    spec_end_of_track, spec_note_off, spec_note_on, spec_program_change, spec_total_delta, Track,
    TICKS_PER_BEAT, VELOCITY,
};
use vstd::prelude::*;

verus! {

/// A chord shape played to a rhythm.
pub struct Chord {
    pub id: String,
    pub scale: Scale,
    /// The positions of the scale that sound together.
    pub chord: Vec<i8>,
    pub octave: i8,
    /// The beat on which the chord track starts.
    pub start: u32,
    /// For each duration in ticks, whether the chord is struck or silent.
    pub notes: Vec<(bool, u8)>,
}

/// What a chord holds.
pub struct ChordView {
    pub id: Seq<char>,
    pub scale: ScaleView,
    pub chord: Seq<i8>,
    pub octave: i8,
    pub start: u32,
    pub notes: Seq<(bool, u8)>,
}

impl View for Chord {
    type V = ChordView;

    open spec fn view(&self) -> ChordView {
        ChordView {
            id: self.id@,
            scale: self.scale@,
            chord: self.chord@,
            octave: self.octave,
            start: self.start,
            notes: self.notes@,
        }
    }
}

impl Chord {
    /// Whether every position of the shape is a note of the scale.
    pub open spec fn spec_in_range(&self) -> bool {
        forall|j: int|
            0 <= j < self.chord@.len() ==> self.scale.spec_has_note(
                #[trigger] self.chord@[j] as int,
                self.octave as int,
            )
    }

    /// Whether the chord is struck at all.
    pub open spec fn spec_sounds(&self) -> bool {
        exists|i: int| 0 <= i < self.notes@.len() && (#[trigger] self.notes@[i]).0
    }

    /// The key of the position at place `j` of the shape.
    pub open spec fn spec_key(&self, j: int) -> u8 {
        self.scale.spec_pitch(self.chord@[j] as int, self.octave as int) as u8
    }

    /// The note-ons of one stroke: one for each position, the first after
    /// the pending ticks and the others together with it.
    pub open spec fn spec_ons(&self, pending: u32, channel: u8) -> Seq<TrackEvent> {
        Seq::new(
            self.chord@.len(),
            |j: int|
                spec_note_on(
                    if j == 0 {
                        pending
                    } else {
                        0
                    },
                    channel,
                    self.spec_key(j),
                ),
        )
    }

    /// The note-offs of one stroke: one for each position, the first after
    /// the duration and the others together with it.
    pub open spec fn spec_offs(&self, duration: u32, channel: u8) -> Seq<TrackEvent> {
        Seq::new(
            self.chord@.len(),
            |j: int|
                spec_note_off(
                    if j == 0 {
                        duration
                    } else {
                        0
                    },
                    channel,
                    self.spec_key(j),
                ),
        )
    }

    /// The ticks between the last event of the first `n` durations and
    /// what comes after them. A shape without positions makes no event
    /// when struck, so it leaves the pending ticks as they are.
    pub open spec fn spec_pending(&self, n: nat) -> int
        decreases n,
    {
        if n == 0 {
            self.start * TICKS_PER_BEAT
        } else {
            match self.notes@[n - 1] {
                (false, duration) => self.spec_pending((n - 1) as nat) + duration,
                (true, _) => if self.chord@.len() == 0 {
                    self.spec_pending((n - 1) as nat)
                } else {
                    0
                },
            }
        }
    }

    /// The events of the first `n` durations: for each stroke the note-ons
    /// of the shape and then its note-offs.
    pub open spec fn spec_compiled(&self, channel: u8, n: nat) -> Seq<TrackEvent>
        decreases n,
    {
        if n == 0 {
            Seq::empty()
        } else {
            let before = self.spec_compiled(channel, (n - 1) as nat);
            match self.notes@[n - 1] {
                (false, _) => before,
                (true, duration) => before + self.spec_ons(
                    self.spec_pending((n - 1) as nat) as u32,
                    channel,
                ) + self.spec_offs(duration as u32, channel),
            }
        }
    }

    /// Whether every delta time of the chord fits the 28 bits that a MIDI
    /// file has for it.
    pub open spec fn spec_deltas_fit(&self) -> bool {
        forall|n: nat| n <= self.notes@.len() ==> #[trigger] self.spec_pending(n) < 0x1000_0000
    }

    /// The ticks that the first `n` durations last in all.
    pub open spec fn spec_duration(&self, n: nat) -> int
        decreases n,
    {
        if n == 0 {
            0
        } else {
            self.spec_duration((n - 1) as nat) + self.notes@[n - 1].1
        }
    }

    fn in_range(&self) -> (ok: bool)
        ensures
            ok == self.spec_in_range(),
    {
        let mut j: usize = 0;
        while j < self.chord.len()
            invariant
                j <= self.chord@.len(),
                forall|k: int|
                    0 <= k < j ==> self.scale.spec_has_note(
                        #[trigger] self.chord@[k] as int,
                        self.octave as int,
                    ),
            decreases self.chord.len() - j,
        {
            if !self.scale.has_note(self.chord[j], self.octave) {
                return false;
            }
            j += 1;
        }
        true
    }
}

impl Track for Chord {
    open spec fn spec_id(&self) -> Seq<char> {
        self.id@
    }

    open spec fn spec_start(&self) -> u32 {
        self.start
    }

    open spec fn spec_playable(&self) -> bool {
        &&& self.spec_sounds() ==> self.spec_in_range()
        &&& forall|n: nat| n <= self.notes@.len() ==> #[trigger] self.spec_pending(n) <= u32::MAX
    }

    open spec fn spec_events(&self, instrument: u8, channel: u8) -> Seq<TrackEvent> {
        seq![spec_program_change(channel, instrument)] + self.spec_compiled(
            channel,
            self.notes@.len(),
        ) + seq![spec_end_of_track()]
    }

    fn get_id(&self) -> (id: &str) {
        self.id.as_str()
    }

    fn get_start(&self) -> (start: &u32) {
        &self.start
    }

    fn is_playable(&self) -> (ok: bool) {
        let in_range = self.in_range();
        let mut pending: u64 = self.start as u64 * TICKS_PER_BEAT as u64;
        if pending > u32::MAX as u64 {
            assert(self.spec_pending(0) > u32::MAX);
            return false;
        }
        let mut i: usize = 0;
        while i < self.notes.len()
            invariant
                i <= self.notes@.len(),
                in_range == self.spec_in_range(),
                pending == self.spec_pending(i as nat),
                forall|n: nat| n <= i ==> #[trigger] self.spec_pending(n) <= u32::MAX,
                forall|k: int| 0 <= k < i && (#[trigger] self.notes@[k]).0 ==> in_range,
            decreases self.notes.len() - i,
        {
            let (is_played, duration) = self.notes[i];
            if is_played {
                if !in_range {
                    return false;
                }
                if self.chord.len() > 0 {
                    pending = 0;
                }
            } else {
                pending = pending + duration as u64;
                if pending > u32::MAX as u64 {
                    assert(self.spec_pending((i + 1) as nat) > u32::MAX);
                    return false;
                }
            }
            i += 1;
        }
        true
    }

    fn to_midi(&self, instrument: u8, channel: u8) -> (events: Vec<TrackEvent>) {
        let mut track_events = Vec::<TrackEvent>::new();

        track_events.push(
            TrackEvent {
                delta: 0,
                kind: TrackEventKind::Midi {
                    channel,
                    message: MidiMessage::ProgramChange { program: instrument },
                },
            },
        );

        assert(self.spec_pending(0) <= u32::MAX);
        let mut next_note_delta: u32 = self.start * (TICKS_PER_BEAT as u32);

        let mut i: usize = 0;
        while i < self.notes.len()
            invariant
                i <= self.notes@.len(),
                self.spec_playable(),
                next_note_delta == self.spec_pending(i as nat),
                track_events@ == seq![spec_program_change(channel, instrument)]
                    + self.spec_compiled(channel, i as nat),
            decreases self.notes.len() - i,
        {
            let (is_played, duration) = self.notes[i];
            assert(self.spec_pending((i + 1) as nat) <= u32::MAX);

            if is_played {
                assert(self.notes@[i as int].0);
                let ghost before = track_events@;
                let ghost pending = next_note_delta;

                let mut j: usize = 0;
                while j < self.chord.len()
                    invariant
                        j <= self.chord@.len(),
                        self.spec_in_range(),
                        next_note_delta == if j == 0 {
                            pending
                        } else {
                            0
                        },
                        track_events@ == before + self.spec_ons(pending, channel).subrange(
                            0,
                            j as int,
                        ),
                    decreases self.chord.len() - j,
                {
                    let key: u8 = self.scale.get_note(self.chord[j], self.octave).0;
                    track_events.push(
                        TrackEvent {
                            delta: next_note_delta,
                            kind: TrackEventKind::Midi {
                                channel,
                                message: MidiMessage::NoteOn { key, vel: VELOCITY },
                            },
                        },
                    );
                    next_note_delta = 0;
                    j += 1;
                    assert(track_events@ =~= before + self.spec_ons(pending, channel).subrange(
                        0,
                        j as int,
                    ));
                }
                assert(self.spec_ons(pending, channel).subrange(0, j as int) =~= self.spec_ons(
                    pending,
                    channel,
                ));

                let ghost struck = track_events@;
                let mut j: usize = 0;
                while j < self.chord.len()
                    invariant
                        j <= self.chord@.len(),
                        self.spec_in_range(),
                        track_events@ == struck + self.spec_offs(duration as u32, channel).subrange(
                            0,
                            j as int,
                        ),
                    decreases self.chord.len() - j,
                {
                    let key: u8 = self.scale.get_note(self.chord[j], self.octave).0;
                    let delta: u32 = if j == 0 {
                        duration as u32
                    } else {
                        0
                    };
                    track_events.push(
                        TrackEvent {
                            delta,
                            kind: TrackEventKind::Midi {
                                channel,
                                message: MidiMessage::NoteOff { key, vel: VELOCITY },
                            },
                        },
                    );
                    j += 1;
                    assert(track_events@ =~= struck + self.spec_offs(
                        duration as u32,
                        channel,
                    ).subrange(0, j as int));
                }
                assert(self.spec_offs(duration as u32, channel).subrange(0, j as int)
                    =~= self.spec_offs(duration as u32, channel));
            } else {
                next_note_delta += duration as u32;
            }
            i += 1;
            assert(track_events@ =~= seq![spec_program_change(channel, instrument)]
                + self.spec_compiled(channel, i as nat));
        }

        track_events.push(
            TrackEvent { delta: 0, kind: TrackEventKind::Meta(MetaMessage::EndOfTrack) },
        );

        track_events
    }
}

/// The ticks of two runs of events one after the other are the ticks of
/// both.
pub proof fn lemma_total_delta_add(first: Seq<TrackEvent>, second: Seq<TrackEvent>)
    ensures
        spec_total_delta(first + second) == spec_total_delta(first) + spec_total_delta(second),
    decreases second.len(),
{
    if second.len() == 0 {
        assert(first + second =~= first);
    } else {
        lemma_total_delta_add(first, second.drop_last());
        assert((first + second).drop_last() =~= first + second.drop_last());
    }
}

/// A run of events of which only the first has a delta time takes that
/// many ticks.
pub proof fn lemma_total_delta_stacked(events: Seq<TrackEvent>)
    requires
        events.len() > 0,
        forall|j: int| 0 < j < events.len() ==> (#[trigger] events[j]).delta == 0,
    ensures
        spec_total_delta(events) == events[0].delta,
    decreases events.len(),
{
    let shorter = events.drop_last();
    if events.len() > 1 {
        assert forall|j: int| 0 < j < shorter.len() implies (#[trigger] shorter[j]).delta == 0 by {
            assert(shorter[j] == events[j]);
        }
        lemma_total_delta_stacked(shorter);
        assert(shorter[0] == events[0]);
        assert(events[events.len() - 1].delta == 0);
    } else {
        assert(spec_total_delta(shorter) == 0);
    }
}

/// A chord with at least one position keeps time: the ticks that the
/// events of its first `n` durations take, and those still pending after
/// them, are together the ticks before the chord starts and the `n`
/// durations. The notes of a stroke start together and stop together.
pub proof fn lemma_chord_keeps_time(chord: Chord, channel: u8, n: nat)
    requires
        chord.spec_playable(),
        chord.chord@.len() > 0,
        n <= chord.notes@.len(),
    ensures
        0 <= chord.spec_pending(n),
        spec_total_delta(chord.spec_compiled(channel, n)) + chord.spec_pending(n) == chord.start
            * TICKS_PER_BEAT + chord.spec_duration(n),
    decreases n,
{
    if n > 0 {
        lemma_chord_keeps_time(chord, channel, (n - 1) as nat);
        let before = chord.spec_compiled(channel, (n - 1) as nat);
        assert(chord.spec_pending((n - 1) as nat) <= u32::MAX);
        match chord.notes@[n - 1] {
            (false, _) => {},
            (true, duration) => {
                let ons = chord.spec_ons(chord.spec_pending((n - 1) as nat) as u32, channel);
                let offs = chord.spec_offs(duration as u32, channel);
                lemma_total_delta_stacked(ons);
                lemma_total_delta_stacked(offs);
                lemma_total_delta_add(before, ons);
                lemma_total_delta_add(before + ons, offs);
            },
        }
    }
}

/// The ticks pending in a chord are never negative.
pub proof fn lemma_chord_pending(chord: Chord, n: nat)
    requires
        n <= chord.notes@.len(),
    ensures
        0 <= chord.spec_pending(n),
    decreases n,
{
    if n > 0 {
        lemma_chord_pending(chord, (n - 1) as nat);
    }
}

/// The events of a playable chord whose delta times fit 28 bits fit a MIDI
/// file, on any of the sixteen channels and for any of the 128 instruments.
pub proof fn lemma_chord_events_fit(chord: Chord, instrument: u8, channel: u8, n: nat)
    requires
        chord.spec_playable(),
        chord.spec_deltas_fit(),
        instrument < 128,
        channel < 16,
        n <= chord.notes@.len(),
    ensures
        forall|i: int|
            0 <= i < chord.spec_compiled(channel, n).len() ==> (#[trigger] chord.spec_compiled(
                channel,
                n,
            )[i]).spec_fits(),
        n == chord.notes@.len() ==> forall|i: int|
            0 <= i < chord.spec_events(instrument, channel).len() ==> (
            #[trigger] chord.spec_events(instrument, channel)[i]).spec_fits(),
    decreases n,
{
    if n > 0 {
        lemma_chord_events_fit(chord, instrument, channel, (n - 1) as nat);
        lemma_chord_pending(chord, (n - 1) as nat);
        let pending = chord.spec_pending((n - 1) as nat);
        assert(pending < 0x1000_0000);
        let before = chord.spec_compiled(channel, (n - 1) as nat);
        let compiled = chord.spec_compiled(channel, n);
        if chord.notes@[n - 1].0 {
            assert(chord.spec_sounds());
            let ons = chord.spec_ons(pending as u32, channel);
            let offs = chord.spec_offs(chord.notes@[n - 1].1 as u32, channel);
            assert forall|j: int| 0 <= j < chord.chord@.len() implies chord.spec_key(j)
                < 128 by {
                assert(chord.scale.spec_has_note(chord.chord@[j] as int, chord.octave as int));
            }
            assert forall|i: int| 0 <= i < compiled.len() implies (
            #[trigger] compiled[i]).spec_fits() by {
                if i < before.len() {
                    assert(compiled[i] == before[i]);
                } else if i < before.len() + ons.len() {
                    assert(compiled[i] == ons[i - before.len()]);
                } else {
                    assert(compiled[i] == offs[i - before.len() - ons.len()]);
                }
            }
        }
    }
    if n == chord.notes@.len() {
        let compiled = chord.spec_compiled(channel, n);
        let events = chord.spec_events(instrument, channel);
        assert forall|i: int| 0 <= i < events.len() implies (#[trigger] events[i]).spec_fits() by {
            if 1 <= i <= compiled.len() {
                assert(events[i] == compiled[i - 1]);
            }
        }
    }
}

} // verus!
