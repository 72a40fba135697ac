//! Decoding of Standard MIDI Files into a musical sequence: a byte-level
//! chunk and message decoder, and a builder that pairs notes and collects
//! the tempo, time-signature and key-signature timelines.

pub mod util;
pub mod message;
pub mod io;
pub mod timeline;
pub mod sequence;
pub mod builder;

pub use crate::util::{encode_variable_length, read_variable_length};
pub use crate::message::{Event, EventStatus, MIDIFormat, MIDIMessage, Meta, MetaStatus};
pub use crate::io::{DecodeError, MIDIFile, MIDIFileIter, MIDIMessageIter, MIDITrack, MIDITrackIter};
pub use crate::sequence::{
    decode, decode_with, ControlChange, ControlGroup, KeySignature, Note, Sequence, Tempo, TimeSignature, Track,
    TrackTrans,
    DEFAULT_TEMPO,
};
