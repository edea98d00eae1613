//! The events of a MIDI track as plain values, and their encoding as a
//! Standard MIDI File.

use vstd::prelude::*;

verus! {

/// A message on one of the sixteen MIDI channels.
#[derive(PartialEq, Eq, Clone, Copy, Debug, Structural)]
pub enum MidiMessage {
    /// Stop sounding a key.
    NoteOff { key: u8, vel: u8 },
    /// Start sounding a key.
    NoteOn { key: u8, vel: u8 },
    /// Select the instrument of the channel.
    ProgramChange { program: u8 },
}

/// A message about the track or the file rather than a channel.
#[derive(PartialEq, Eq, Clone, Copy, Debug, Structural)]
pub enum MetaMessage {
    /// The last event of every track.
    EndOfTrack,
    /// The length of a beat in microseconds.
    Tempo(u32),
    /// Numerator, denominator as a power of two, MIDI clocks per click, and
    /// 32nd notes per quarter.
    TimeSignature(u8, u8, u8, u8),
}

/// What an event does.
#[derive(PartialEq, Eq, Clone, Copy, Debug, Structural)]
pub enum TrackEventKind {
    Midi { channel: u8, message: MidiMessage },
    Meta(MetaMessage),
}

/// An event of a track: what happens, and how many ticks after the event
/// before it.
#[derive(PartialEq, Eq, Clone, Copy, Debug, Structural)]
pub struct TrackEvent {
    pub delta: u32,
    pub kind: TrackEventKind,
}

impl DeepView for TrackEvent {
    type V = TrackEvent;

    open spec fn deep_view(&self) -> TrackEvent {
        *self
    }
}

impl MidiMessage {
    /// The message with each field cut to the seven bits that MIDI has for
    /// it.
    pub open spec fn spec_clip(self) -> MidiMessage {
        match self {
            MidiMessage::NoteOff { key, vel } => MidiMessage::NoteOff {
                key: key & 0x7f,
                vel: vel & 0x7f,
            },
            MidiMessage::NoteOn { key, vel } => MidiMessage::NoteOn {
                key: key & 0x7f,
                vel: vel & 0x7f,
            },
            MidiMessage::ProgramChange { program } => MidiMessage::ProgramChange {
                program: program & 0x7f,
            },
        }
    }
}

impl MetaMessage {
    /// The message with a tempo cut to the 24 bits that MIDI has for it.
    pub open spec fn spec_clip(self) -> MetaMessage {
        match self {
            MetaMessage::Tempo(tempo) => MetaMessage::Tempo(tempo & 0xff_ffff),
            other => other,
        }
    }
}

impl TrackEvent {
    /// The event as a MIDI file can hold it: the delta time cut to 28 bits,
    /// the channel to 4, and the fields of the message to their widths.
    pub open spec fn spec_clip(self) -> TrackEvent {
        TrackEvent {
            delta: self.delta & 0xfff_ffff,
            kind: match self.kind {
                TrackEventKind::Midi { channel, message } => TrackEventKind::Midi {
                    channel: channel & 0x0f,
                    message: message.spec_clip(),
                },
                TrackEventKind::Meta(message) => TrackEventKind::Meta(message.spec_clip()),
            },
        }
    }

    /// Whether every field fits the width that MIDI has for it.
    pub open spec fn spec_fits(self) -> bool {
        &&& self.delta < 0x1000_0000
        &&& match self.kind {
            TrackEventKind::Midi { channel, message } => channel < 16 && match message {
                MidiMessage::NoteOff { key, vel } => key < 128 && vel < 128,
                MidiMessage::NoteOn { key, vel } => key < 128 && vel < 128,
                MidiMessage::ProgramChange { program } => program < 128,
            },
            TrackEventKind::Meta(MetaMessage::Tempo(tempo)) => tempo < 0x100_0000,
            TrackEventKind::Meta(_) => true,
        }
    }
}

/// The tracks as a MIDI file can hold them.
pub open spec fn spec_clip_tracks(tracks: Seq<Seq<TrackEvent>>) -> Seq<Seq<TrackEvent>> {
    Seq::new(
        tracks.len(),
        |t: int| Seq::new(tracks[t].len(), |i: int| tracks[t][i].spec_clip()),
    )
}

/// An event whose fields fit their widths is held as it is.
pub proof fn lemma_clip_keeps_what_fits(event: TrackEvent)
    requires
        event.spec_fits(),
    ensures
        event.spec_clip() == event,
{
    let delta = event.delta;
    assert(delta & 0xfff_ffff == delta) by (bit_vector)
        requires
            delta < 0x1000_0000u32,
    ;
    assert(forall|x: u8| x < 128 ==> #[trigger] (x & 0x7f) == x) by (bit_vector);
    assert(forall|x: u8| x < 16 ==> #[trigger] (x & 0x0f) == x) by (bit_vector);
    assert(forall|x: u32| x < 0x100_0000 ==> #[trigger] (x & 0xff_ffff) == x) by (bit_vector);
}

/// Whether every field of every event fits the width that MIDI has for it.
pub open spec fn spec_all_fit(tracks: Seq<Seq<TrackEvent>>) -> bool {
    forall|t: int, i: int|
        0 <= t < tracks.len() && 0 <= i < tracks[t].len() ==> (#[trigger] tracks[t][i]).spec_fits()
}

/// Tracks whose events all fit are held as they are.
pub proof fn lemma_clip_keeps_tracks_that_fit(tracks: Seq<Seq<TrackEvent>>)
    requires
        spec_all_fit(tracks),
    ensures
        spec_clip_tracks(tracks) == tracks,
{
    let clipped = spec_clip_tracks(tracks);
    assert forall|t: int| 0 <= t < tracks.len() implies #[trigger] clipped[t] == tracks[t] by {
        assert forall|i: int| 0 <= i < tracks[t].len() implies #[trigger] clipped[t][i]
            == tracks[t][i] by {
            lemma_clip_keeps_what_fits(tracks[t][i]);
        }
        assert(clipped[t] =~= tracks[t]);
    }
    assert(clipped =~= tracks);
}

/// `std::io::Error`, the error of midly's writer. Nothing is known of what
/// it holds.
#[verifier::external_type_specification]
#[verifier::external_body]
pub struct ExIoError(std::io::Error);

/// `midly::Smf`, a MIDI file in memory: a header and a list of tracks.
/// What it holds is known through `smf_tracks` and `smf_ticks_per_beat`
/// alone.
#[verifier::external_type_specification]
#[verifier::external_body]
pub struct ExSmf<'a>(midly::Smf<'a>);

/// The tracks that a `midly::Smf` holds (its field `tracks`), each event
/// with its fields as plain integers.
pub uninterp spec fn smf_tracks(smf: midly::Smf<'static>) -> Seq<Seq<TrackEvent>>;

/// The number of ticks per beat in the header of a `midly::Smf` whose
/// timing is metrical.
pub uninterp spec fn smf_ticks_per_beat(smf: midly::Smf<'static>) -> u16;

/// The bytes that `midly::write_std` writes for a header in the parallel
/// format with the given number of ticks per beat and for the given tracks;
/// `None` where it returns an error instead.
pub uninterp spec fn smf_bytes(ticks_per_beat: u16, tracks: Seq<Seq<TrackEvent>>) -> Option<
    Seq<u8>,
>;

/// `midly::Smf::new` with a header from `midly::Header::new`: parallel
/// format and metrical timing. The new file has no tracks. midly keeps 15
/// bits of the number of ticks.
#[verifier::external_body]
fn smf_new(ticks_per_beat: u16) -> (smf: midly::Smf<'static>)
    ensures
        smf_tracks(smf) == Seq::<Seq<TrackEvent>>::empty(),
        smf_ticks_per_beat(smf) == ticks_per_beat & 0x7fff,
{
    midly::Smf::new(
        midly::Header::new(midly::Format::Parallel, midly::Timing::Metrical(ticks_per_beat.into())),
    )
}

/// Pushes an empty track onto the field `tracks` of a `midly::Smf`.
#[verifier::external_body]
fn smf_add_track(smf: &mut midly::Smf<'static>)
    ensures
        smf_tracks(*final(smf)) == smf_tracks(*old(smf)).push(Seq::empty()),
        smf_ticks_per_beat(*final(smf)) == smf_ticks_per_beat(*old(smf)),
{
    smf.tracks.push(Vec::new());
}

/// The tracks after an event has been pushed onto the last of them.
pub open spec fn spec_with_event(tracks: Seq<Seq<TrackEvent>>, event: TrackEvent) -> Seq<
    Seq<TrackEvent>,
> {
    tracks.update(tracks.len() - 1, tracks.last().push(event))
}

/// Pushes a `midly::TrackEvent` with a `midly::MidiMessage::NoteOn` onto
/// the last track. midly's conversions keep 28 bits of the delta time, 4 of
/// the channel and 7 of the key and the velocity.
#[verifier::external_body]
fn smf_push_note_on(smf: &mut midly::Smf<'static>, delta: u32, channel: u8, key: u8, vel: u8)
    requires
        smf_tracks(*old(smf)).len() > 0,
    ensures
        smf_tracks(*final(smf)) == spec_with_event(
            smf_tracks(*old(smf)),
            TrackEvent {
                delta: delta & 0xfff_ffff,
                kind: TrackEventKind::Midi {
                    channel: channel & 0x0f,
                    message: MidiMessage::NoteOn { key: key & 0x7f, vel: vel & 0x7f },
                },
            },
        ),
        smf_ticks_per_beat(*final(smf)) == smf_ticks_per_beat(*old(smf)),
{
    smf.tracks.last_mut().unwrap().push(
        midly::TrackEvent {
            delta: delta.into(),
            kind: midly::TrackEventKind::Midi {
                channel: channel.into(),
                message: midly::MidiMessage::NoteOn { key: key.into(), vel: vel.into() },
            },
        },
    );
}

/// Pushes a `midly::TrackEvent` with a `midly::MidiMessage::NoteOff` onto
/// the last track. midly's conversions keep 28 bits of the delta time, 4 of
/// the channel and 7 of the key and the velocity.
#[verifier::external_body]
fn smf_push_note_off(smf: &mut midly::Smf<'static>, delta: u32, channel: u8, key: u8, vel: u8)
    requires
        smf_tracks(*old(smf)).len() > 0,
    ensures
        smf_tracks(*final(smf)) == spec_with_event(
            smf_tracks(*old(smf)),
            TrackEvent {
                delta: delta & 0xfff_ffff,
                kind: TrackEventKind::Midi {
                    channel: channel & 0x0f,
                    message: MidiMessage::NoteOff { key: key & 0x7f, vel: vel & 0x7f },
                },
            },
        ),
        smf_ticks_per_beat(*final(smf)) == smf_ticks_per_beat(*old(smf)),
{
    smf.tracks.last_mut().unwrap().push(
        midly::TrackEvent {
            delta: delta.into(),
            kind: midly::TrackEventKind::Midi {
                channel: channel.into(),
                message: midly::MidiMessage::NoteOff { key: key.into(), vel: vel.into() },
            },
        },
    );
}

/// Pushes a `midly::TrackEvent` with a `midly::MidiMessage::ProgramChange`
/// onto the last track. midly's conversions keep 28 bits of the delta time,
/// 4 of the channel and 7 of the program.
#[verifier::external_body]
fn smf_push_program_change(smf: &mut midly::Smf<'static>, delta: u32, channel: u8, program: u8)
    requires
        smf_tracks(*old(smf)).len() > 0,
    ensures
        smf_tracks(*final(smf)) == spec_with_event(
            smf_tracks(*old(smf)),
            TrackEvent {
                delta: delta & 0xfff_ffff,
                kind: TrackEventKind::Midi {
                    channel: channel & 0x0f,
                    message: MidiMessage::ProgramChange { program: program & 0x7f },
                },
            },
        ),
        smf_ticks_per_beat(*final(smf)) == smf_ticks_per_beat(*old(smf)),
{
    smf.tracks.last_mut().unwrap().push(
        midly::TrackEvent {
            delta: delta.into(),
            kind: midly::TrackEventKind::Midi {
                channel: channel.into(),
                message: midly::MidiMessage::ProgramChange { program: program.into() },
            },
        },
    );
}

/// Pushes a `midly::TrackEvent` with a `midly::MetaMessage::EndOfTrack`
/// onto the last track. midly's conversion keeps 28 bits of the delta time.
#[verifier::external_body]
fn smf_push_end_of_track(smf: &mut midly::Smf<'static>, delta: u32)
    requires
        smf_tracks(*old(smf)).len() > 0,
    ensures
        smf_tracks(*final(smf)) == spec_with_event(
            smf_tracks(*old(smf)),
            TrackEvent {
                delta: delta & 0xfff_ffff,
                kind: TrackEventKind::Meta(MetaMessage::EndOfTrack),
            },
        ),
        smf_ticks_per_beat(*final(smf)) == smf_ticks_per_beat(*old(smf)),
{
    smf.tracks.last_mut().unwrap().push(
        midly::TrackEvent {
            delta: delta.into(),
            kind: midly::TrackEventKind::Meta(midly::MetaMessage::EndOfTrack),
        },
    );
}

/// Pushes a `midly::TrackEvent` with a `midly::MetaMessage::Tempo` onto
/// the last track. midly's conversions keep 28 bits of the delta time and
/// 24 of the tempo.
#[verifier::external_body]
fn smf_push_tempo(smf: &mut midly::Smf<'static>, delta: u32, tempo: u32)
    requires
        smf_tracks(*old(smf)).len() > 0,
    ensures
        smf_tracks(*final(smf)) == spec_with_event(
            smf_tracks(*old(smf)),
            TrackEvent {
                delta: delta & 0xfff_ffff,
                kind: TrackEventKind::Meta(MetaMessage::Tempo(tempo & 0xff_ffff)),
            },
        ),
        smf_ticks_per_beat(*final(smf)) == smf_ticks_per_beat(*old(smf)),
{
    smf.tracks.last_mut().unwrap().push(
        midly::TrackEvent {
            delta: delta.into(),
            kind: midly::TrackEventKind::Meta(midly::MetaMessage::Tempo(tempo.into())),
        },
    );
}

/// Pushes a `midly::TrackEvent` with a `midly::MetaMessage::TimeSignature`
/// onto the last track. midly's conversion keeps 28 bits of the delta time;
/// the four bytes of the signature are held as they are.
#[verifier::external_body]
fn smf_push_time_signature(smf: &mut midly::Smf<'static>, delta: u32, signature: (u8, u8, u8, u8))
    requires
        smf_tracks(*old(smf)).len() > 0,
    ensures
        smf_tracks(*final(smf)) == spec_with_event(
            smf_tracks(*old(smf)),
            TrackEvent {
                delta: delta & 0xfff_ffff,
                kind: TrackEventKind::Meta(
                    MetaMessage::TimeSignature(signature.0, signature.1, signature.2, signature.3),
                ),
            },
        ),
        smf_ticks_per_beat(*final(smf)) == smf_ticks_per_beat(*old(smf)),
{
    smf.tracks.last_mut().unwrap().push(
        midly::TrackEvent {
            delta: delta.into(),
            kind: midly::TrackEventKind::Meta(
                midly::MetaMessage::TimeSignature(signature.0, signature.1, signature.2, signature.3),
            ),
        },
    );
}

/// `midly::Smf::write_std` into a byte vector. What it writes depends on
/// the header and the tracks alone. Writing into memory cannot fail, so an
/// error is midly's own: its documentation names more than 65535 tracks and
/// a track of 4 GB or more.
#[verifier::external_body]
fn smf_write_std(smf: &midly::Smf<'static>) -> (r: Result<Vec<u8>, std::io::Error>)
    ensures
        match r {
            Ok(bytes) => smf_bytes(smf_ticks_per_beat(*smf), smf_tracks(*smf)) == Some(bytes@),
            Err(_) => smf_bytes(smf_ticks_per_beat(*smf), smf_tracks(*smf)) is None,
        },
{
    let mut bytes = Vec::new();
    smf.write_std(&mut bytes).map(|_| bytes)
}

/// Why a set of tracks could not be written as a MIDI file.
#[derive(PartialEq, Eq, Clone, Copy, Debug, Structural)]
pub enum WriteError {
    /// A MIDI file holds at most 65535 tracks.
    TooManyTracks,
    /// A track is too long for the file format.
    TrackTooLong,
}

/// The events of each track.
pub open spec fn spec_tracks_of(tracks: Seq<Vec<TrackEvent>>) -> Seq<Seq<TrackEvent>> {
    Seq::new(tracks.len(), |t: int| tracks[t]@)
}

/// Pushes an event onto the last track of the file.
fn smf_push(smf: &mut midly::Smf<'static>, event: &TrackEvent)
    requires
        smf_tracks(*old(smf)).len() > 0,
    ensures
        smf_tracks(*final(smf)) == spec_with_event(smf_tracks(*old(smf)), event.spec_clip()),
        smf_ticks_per_beat(*final(smf)) == smf_ticks_per_beat(*old(smf)),
{
    match event.kind {
        TrackEventKind::Midi { channel, message } => match message {
            MidiMessage::NoteOff { key, vel } => smf_push_note_off(
                smf,
                event.delta,
                channel,
                key,
                vel,
            ),
            MidiMessage::NoteOn { key, vel } => smf_push_note_on(
                smf,
                event.delta,
                channel,
                key,
                vel,
            ),
            MidiMessage::ProgramChange { program } => smf_push_program_change(
                smf,
                event.delta,
                channel,
                program,
            ),
        },
        TrackEventKind::Meta(message) => match message {
            MetaMessage::EndOfTrack => smf_push_end_of_track(smf, event.delta),
            MetaMessage::Tempo(tempo) => smf_push_tempo(smf, event.delta, tempo),
            MetaMessage::TimeSignature(a, b, c, d) => smf_push_time_signature(
                smf,
                event.delta,
                (a, b, c, d),
            ),
        },
    }
}

/// Encodes tracks as a Standard MIDI File in the parallel format.
///
/// The file holds the tracks in their order, each event with its fields cut
/// to the widths that MIDI has for them, and 15 bits of the number of ticks
/// per beat. Where the encoder refuses the tracks, the error says whether
/// there were too many of them.
pub fn write_smf(ticks_per_beat: u16, tracks: &Vec<Vec<TrackEvent>>) -> (r: Result<
    Vec<u8>,
    WriteError,
>)
    ensures
        match r {
            Ok(bytes) => smf_bytes(
                ticks_per_beat & 0x7fff,
                spec_clip_tracks(spec_tracks_of(tracks@)),
            ) == Some(bytes@),
            Err(e) => {
                &&& smf_bytes(ticks_per_beat & 0x7fff, spec_clip_tracks(spec_tracks_of(tracks@)))
                    is None
                &&& e == if tracks@.len() > 65535 {
                    WriteError::TooManyTracks
                } else {
                    WriteError::TrackTooLong
                }
            },
        },
{
    let ghost clipped = spec_clip_tracks(spec_tracks_of(tracks@));
    let mut smf = smf_new(ticks_per_beat);
    let mut t: usize = 0;
    while t < tracks.len()
        invariant
            t <= tracks.len(),
            clipped == spec_clip_tracks(spec_tracks_of(tracks@)),
            smf_tracks(smf) == clipped.subrange(0, t as int),
            smf_ticks_per_beat(smf) == ticks_per_beat & 0x7fff,
        decreases tracks.len() - t,
    {
        smf_add_track(&mut smf);
        let track = &tracks[t];
        let mut i: usize = 0;
        assert(clipped[t as int].subrange(0, 0) =~= Seq::<TrackEvent>::empty());
        while i < track.len()
            invariant
                t < tracks.len(),
                i <= track.len(),
                track@ == tracks@[t as int]@,
                clipped == spec_clip_tracks(spec_tracks_of(tracks@)),
                smf_tracks(smf) == clipped.subrange(0, t as int).push(
                    clipped[t as int].subrange(0, i as int),
                ),
                smf_ticks_per_beat(smf) == ticks_per_beat & 0x7fff,
            decreases track.len() - i,
        {
            let ghost before = smf_tracks(smf);
            smf_push(&mut smf, &track[i]);
            i += 1;
            assert(smf_tracks(smf) =~= clipped.subrange(0, t as int).push(
                clipped[t as int].subrange(0, i as int),
            )) by {
                assert(before.last().push(track@[i - 1].spec_clip()) =~= clipped[t as int].subrange(
                    0,
                    i as int,
                ));
            }
        }
        t += 1;
        assert(smf_tracks(smf) =~= clipped.subrange(0, t as int)) by {
            assert(clipped[t - 1].subrange(0, i as int) =~= clipped[t - 1]);
        }
    }
    assert(clipped.subrange(0, t as int) =~= clipped);
    match smf_write_std(&smf) {
        Ok(bytes) => Ok(bytes),
        Err(_) => if tracks.len() > 65535 {
            Err(WriteError::TooManyTracks)
        } else {
            Err(WriteError::TrackTooLong)
        },
    }
}

} // verus!
