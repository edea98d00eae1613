//! Scale-degree music to MIDI: pitch classes, spelled note names, scales,
//! and the compilation of voices into delta-timed track events.

pub mod chord;
pub mod json_input;
pub mod key;
pub mod midi;
pub mod scale;
pub mod text;
pub mod track;

pub use chord::Chord;
pub use key::{BaseKey, Key, KeyModifier, NamedKey, NamedNote, Note};
pub use scale::Scale;
pub use track::{AnyTrack, Piece, Track, Voice, TICKS_PER_BEAT};
