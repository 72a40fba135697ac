//! The messages of a track: channel and system events, meta events, and
//! what their status bytes and values mean.
use vstd::prelude::*;
use crate::util::{read_variable_length_at, vlq_count, window};

verus! {

/// Room for the status byte and data bytes of a channel or system message.
pub const EVENT_DATA_LEN: usize = 8;

/// A message of a track: a channel or system event, or a meta event.
#[derive(Clone, Debug, PartialEq, Eq)]
pub enum MIDIMessage {
    Event(Event),
    Meta(Meta),
}

/// A channel or system message. `data[0]` is its status byte, followed by its
/// data bytes; the unused tail is zero.
#[derive(Clone, Copy, Debug, PartialEq, Eq)]
pub struct Event {
    pub time: u32,
    pub status: EventStatus,
    pub data: [u8; EVENT_DATA_LEN],
}

/// A meta event. `data` holds its bytes as they stand in the track: `0xFF`,
/// the meta type, the length as a variable-length quantity, then the value.
#[derive(Clone, Debug, PartialEq, Eq)]
pub struct Meta {
    pub time: u32,
    pub status: MetaStatus,
    pub data: Vec<u8>,
}

#[derive(PartialEq, Eq, Structural, Copy, Clone, Debug)]
pub enum MIDIFormat {
    SingleTrack,
    MultiTrack,
    MultiSong,
}

#[derive(PartialEq, Eq, Structural, Copy, Clone, Debug)]
pub enum EventStatus {
    // Channel voice messages
    NoteOff,
    NoteOn,
    PolyphonicAfterTouch,
    ControlChange,
    ProgramChange,
    ChannelAfterTouch,
    PitchBend,
    // System common messages
    SysExStart,
    SongPositionPointer,
    SongSelect,
    TuneRequest,
    SysExEnd,
    TimingClock,
    StartSequence,
    ContinueSequence,
    StopSequence,
    ActiveSensing,
    // Meta messages
    Meta,
}

#[derive(PartialEq, Eq, Structural, Copy, Clone, Debug)]
pub enum MetaStatus {
    SequenceNumber,
    Text,
    CopyrightNote,
    TrackName,
    InstrumentName,
    Lyric,
    Marker,
    CuePoint,
    MIDIChannelPrefix,
    EndOfTrack,
    SetTempo,
    SMPTEOffset,
    TimeSignature,
    KeySignature,
    SequencerSpecificMeta,
    Unknown,
}

/// The status bytes that name a message: every channel status, and the
/// system statuses that have a meaning.
pub open spec fn is_known_status(code: u8) -> bool {
    0x80 <= code <= 0xF0 || code == 0xF2 || code == 0xF3 || code == 0xF6 || code == 0xF7
        || code == 0xF8 || code == 0xFA || code == 0xFB || code == 0xFC || code == 0xFE
        || code == 0xFF
}

/// The kind of message that a known status byte starts.
pub open spec fn status_of(code: u8) -> EventStatus {
    if 0x80 <= code <= 0x8F {
        EventStatus::NoteOff
    } else if 0x90 <= code <= 0x9F {
        EventStatus::NoteOn
    } else if 0xA0 <= code <= 0xAF {
        EventStatus::PolyphonicAfterTouch
    } else if 0xB0 <= code <= 0xBF {
        EventStatus::ControlChange
    } else if 0xC0 <= code <= 0xCF {
        EventStatus::ProgramChange
    } else if 0xD0 <= code <= 0xDF {
        EventStatus::ChannelAfterTouch
    } else if 0xE0 <= code <= 0xEF {
        EventStatus::PitchBend
    } else if code == 0xF0 {
        EventStatus::SysExStart
    } else if code == 0xF2 {
        EventStatus::SongPositionPointer
    } else if code == 0xF3 {
        EventStatus::SongSelect
    } else if code == 0xF6 {
        EventStatus::TuneRequest
    } else if code == 0xF7 {
        EventStatus::SysExEnd
    } else if code == 0xF8 {
        EventStatus::TimingClock
    } else if code == 0xFA {
        EventStatus::StartSequence
    } else if code == 0xFB {
        EventStatus::ContinueSequence
    } else if code == 0xFC {
        EventStatus::StopSequence
    } else if code == 0xFE {
        EventStatus::ActiveSensing
    } else {
        EventStatus::Meta
    }
}

/// Length in bytes, status byte included, of a message of fixed length; -1
/// for the kinds whose length is written in the message.
pub open spec fn status_len(code: u8) -> int {
    if 0x80 <= code <= 0xBF || 0xE0 <= code <= 0xEF || code == 0xF2 {
        3
    } else if 0xC0 <= code <= 0xDF || code == 0xF3 {
        2
    } else if code == 0xF0 || code == 0xFF {
        -1
    } else {
        1
    }
}

pub open spec fn meta_status_of(code: u8) -> MetaStatus {
    if code == 0x00 {
        MetaStatus::SequenceNumber
    } else if code == 0x01 {
        MetaStatus::Text
    } else if code == 0x02 {
        MetaStatus::CopyrightNote
    } else if code == 0x03 {
        MetaStatus::TrackName
    } else if code == 0x04 {
        MetaStatus::InstrumentName
    } else if code == 0x05 {
        MetaStatus::Lyric
    } else if code == 0x06 {
        MetaStatus::Marker
    } else if code == 0x07 {
        MetaStatus::CuePoint
    } else if code == 0x20 {
        MetaStatus::MIDIChannelPrefix
    } else if code == 0x2F {
        MetaStatus::EndOfTrack
    } else if code == 0x51 {
        MetaStatus::SetTempo
    } else if code == 0x54 {
        MetaStatus::SMPTEOffset
    } else if code == 0x58 {
        MetaStatus::TimeSignature
    } else if code == 0x59 {
        MetaStatus::KeySignature
    } else if code == 0x7F {
        MetaStatus::SequencerSpecificMeta
    } else {
        MetaStatus::Unknown
    }
}

impl EventStatus {
    /// The kind of message that a status byte starts, and its length in
    /// bytes (-1 where the message states its own length).
    pub fn from_status_code(status: u8) -> (r: (EventStatus, i8))
        requires
            is_known_status(status),
        ensures
            r.0 == status_of(status),
            r.1 as int == status_len(status),
    {
        if status <= 0x8F {
            (EventStatus::NoteOff, 3)
        } else if status <= 0x9F {
            (EventStatus::NoteOn, 3)
        } else if status <= 0xAF {
            (EventStatus::PolyphonicAfterTouch, 3)
        } else if status <= 0xBF {
            (EventStatus::ControlChange, 3)
        } else if status <= 0xCF {
            (EventStatus::ProgramChange, 2)
        } else if status <= 0xDF {
            (EventStatus::ChannelAfterTouch, 2)
        } else if status <= 0xEF {
            (EventStatus::PitchBend, 3)
        } else if status == 0xF0 {
            (EventStatus::SysExStart, -1)
        } else if status == 0xF2 {
            (EventStatus::SongPositionPointer, 3)
        } else if status == 0xF3 {
            (EventStatus::SongSelect, 2)
        } else if status == 0xF6 {
            (EventStatus::TuneRequest, 1)
        } else if status == 0xF7 {
            (EventStatus::SysExEnd, 1)
        } else if status == 0xF8 {
            (EventStatus::TimingClock, 1)
        } else if status == 0xFA {
            (EventStatus::StartSequence, 1)
        } else if status == 0xFB {
            (EventStatus::ContinueSequence, 1)
        } else if status == 0xFC {
            (EventStatus::StopSequence, 1)
        } else if status == 0xFE {
            (EventStatus::ActiveSensing, 1)
        } else {
            (EventStatus::Meta, -1)
        }
    }
}

impl MetaStatus {
    /// The kind of a meta event from its type byte; `Unknown` for the types
    /// without a meaning here.
    pub fn from_status_code(status: u8) -> (r: MetaStatus)
        ensures
            r == meta_status_of(status),
    {
        match status {
            0x00 => MetaStatus::SequenceNumber,
            0x01 => MetaStatus::Text,
            0x02 => MetaStatus::CopyrightNote,
            0x03 => MetaStatus::TrackName,
            0x04 => MetaStatus::InstrumentName,
            0x05 => MetaStatus::Lyric,
            0x06 => MetaStatus::Marker,
            0x07 => MetaStatus::CuePoint,
            0x20 => MetaStatus::MIDIChannelPrefix,
            0x2F => MetaStatus::EndOfTrack,
            0x51 => MetaStatus::SetTempo,
            0x54 => MetaStatus::SMPTEOffset,
            0x58 => MetaStatus::TimeSignature,
            0x59 => MetaStatus::KeySignature,
            0x7F => MetaStatus::SequencerSpecificMeta,
            _ => MetaStatus::Unknown,
        }
    }
}

/// What a message holds, with the bytes of each kind as a sequence.
#[allow(inconsistent_fields)]
pub enum MessageView {
    Event { time: u32, status: EventStatus, data: Seq<u8> },
    Meta { time: u32, status: MetaStatus, data: Seq<u8> },
}

impl View for MIDIMessage {
    type V = MessageView;

    open spec fn view(&self) -> MessageView {
        match self {
            MIDIMessage::Event(e) => MessageView::Event { time: e.time, status: e.status, data: e.data@ },
            MIDIMessage::Meta(m) => MessageView::Meta { time: m.time, status: m.status, data: m.data@ },
        }
    }
}

/// The eight bytes of an event: its status byte, the data bytes that its
/// length asks for, and zeros.
pub open spec fn event_bytes(code: u8, len: int, data: Seq<u8>) -> Seq<u8> {
    Seq::new(8, |i: int| if i == 0 { code } else if i < len { data[i - 1] } else { 0u8 })
}

impl MIDIMessage {
    /// An event of fixed length from its status byte and the data bytes that
    /// follow it.
    pub fn new_event(time: u32, status_code: u8, data: &[u8]) -> (r: Self)
        requires
            is_known_status(status_code),
            status_len(status_code) >= 1,
            data@.len() >= status_len(status_code) - 1,
        ensures
            r@ == (MessageView::Event {
                time,
                status: status_of(status_code),
                data: event_bytes(status_code, status_len(status_code), data@),
            }),
    {
        let (status, event_len) = EventStatus::from_status_code(status_code);
        let arr: [u8; EVENT_DATA_LEN] = if event_len == 3 {
            [status_code, data[0], data[1], 0, 0, 0, 0, 0]
        } else if event_len == 2 {
            [status_code, data[0], 0, 0, 0, 0, 0, 0]
        } else {
            [status_code, 0, 0, 0, 0, 0, 0, 0]
        };
        assert(arr@ =~= event_bytes(status_code, status_len(status_code), data@));
        MIDIMessage::Event(Event { time, status, data: arr })
    }

    /// A meta event from its status byte (`0xFF`) and the bytes after it: the
    /// meta type, the length and the value.
    pub fn new_meta(time: u32, status_code: u8, data: &[u8]) -> (r: Self)
        requires
            status_code == 0xFF,
            data@.len() >= 1,
        ensures
            r@ == (MessageView::Meta {
                time,
                status: meta_status_of(data@[0]),
                data: seq![status_code] + data@,
            }),
    {
        let status = MetaStatus::from_status_code(data[0]);
        let mut arr: Vec<u8> = Vec::new();
        arr.push(status_code);
        let mut i: usize = 0;
        while i < data.len()
            invariant
                0 <= i <= data@.len(),
                arr@ == seq![status_code] + data@.subrange(0, i as int),
            decreases data@.len() - i,
        {
            arr.push(data[i]);
            i = i + 1;
            assert(arr@ =~= seq![status_code] + data@.subrange(0, i as int));
        }
        assert(data@.subrange(0, data@.len() as int) =~= data@);
        MIDIMessage::Meta(Meta { time, status, data: arr })
    }
}

/// The statuses of channel messages, which carry a channel number.
pub open spec fn is_channel_status(s: EventStatus) -> bool {
    s == EventStatus::NoteOff || s == EventStatus::NoteOn || s == EventStatus::PolyphonicAfterTouch
        || s == EventStatus::ControlChange || s == EventStatus::ProgramChange
        || s == EventStatus::ChannelAfterTouch || s == EventStatus::PitchBend
}

/// The statuses whose first data byte is a key and second a velocity.
pub open spec fn is_key_status(s: EventStatus) -> bool {
    s == EventStatus::NoteOff || s == EventStatus::NoteOn || s == EventStatus::PolyphonicAfterTouch
}

impl Event {
    /// The channel (low nibble of the status byte) of a channel message.
    pub fn channel(&self) -> (r: Option<u8>)
        ensures
            r == (if is_channel_status(self.status) {
                Some((self.data@[0] % 16) as u8)
            } else {
                None
            }),
    {
        match self.status {
            EventStatus::NoteOff
            | EventStatus::NoteOn
            | EventStatus::PolyphonicAfterTouch
            | EventStatus::ControlChange
            | EventStatus::ProgramChange
            | EventStatus::ChannelAfterTouch
            | EventStatus::PitchBend => Some(self.data[0] % 16),
            _ => None,
        }
    }

    pub fn key(&self) -> (r: Option<u8>)
        ensures
            r == (if is_key_status(self.status) { Some(self.data@[1]) } else { None }),
    {
        match self.status {
            EventStatus::NoteOff | EventStatus::NoteOn | EventStatus::PolyphonicAfterTouch => Some(
                self.data[1],
            ),
            _ => None,
        }
    }

    pub fn velocity(&self) -> (r: Option<u8>)
        ensures
            r == (if is_key_status(self.status) { Some(self.data@[2]) } else { None }),
    {
        match self.status {
            EventStatus::NoteOff | EventStatus::NoteOn | EventStatus::PolyphonicAfterTouch => Some(
                self.data[2],
            ),
            _ => None,
        }
    }

    /// The controller number and value of a control change.
    pub fn control_change(&self) -> (r: Option<(u8, u8)>)
        ensures
            r == (if self.status == EventStatus::ControlChange {
                Some((self.data@[1], self.data@[2]))
            } else {
                None
            }),
    {
        match self.status {
            EventStatus::ControlChange => Some((self.data[1], self.data[2])),
            _ => None,
        }
    }

    pub fn program(&self) -> (r: Option<u8>)
        ensures
            r == (if self.status == EventStatus::ProgramChange { Some(self.data@[1]) } else { None }),
    {
        match self.status {
            EventStatus::ProgramChange => Some(self.data[1]),
            _ => None,
        }
    }
}

/// Index in the bytes of a meta event at which its value starts: after
/// `0xFF`, the type byte and the length field (at most the end of the bytes).
pub open spec fn meta_value_start(d: Seq<u8>) -> int {
    let n: int = 2 + vlq_count(window(d, 2)) as int;
    if n <= d.len() {
        n
    } else {
        d.len() as int
    }
}

/// The value of a meta event, from its bytes.
pub open spec fn meta_value_of(d: Seq<u8>) -> Seq<u8> {
    d.subrange(meta_value_start(d), d.len() as int)
}

/// The tempo, in microseconds per quarter note, that a tempo value states:
/// its first three bytes, big-endian.
pub open spec fn tempo_of(v: Seq<u8>) -> u32 {
    (v[0] as int * 0x10000 + v[1] as int * 0x100 + v[2] as int) as u32
}

pub open spec fn pow2(n: nat) -> nat
    decreases n,
{
    if n == 0 {
        1
    } else {
        2 * pow2((n - 1) as nat)
    }
}

/// Name of the key with `sf` sharps (flats where negative), major or minor.
pub open spec fn key_name(major: bool, sf: int) -> &'static str {
    if major {
        if sf == -7 { "bC" } else if sf == -6 { "bG" } else if sf == -5 { "bD" }
        else if sf == -4 { "bA" } else if sf == -3 { "bE" } else if sf == -2 { "bB" }
        else if sf == -1 { "F" } else if sf == 0 { "C" } else if sf == 1 { "G" }
        else if sf == 2 { "D" } else if sf == 3 { "A" } else if sf == 4 { "E" }
        else if sf == 5 { "B" } else if sf == 6 { "#F" } else { "#C" }
    } else {
        if sf == -7 { "ba" } else if sf == -6 { "be" } else if sf == -5 { "bb" }
        else if sf == -4 { "f" } else if sf == -3 { "c" } else if sf == -2 { "g" }
        else if sf == -1 { "d" } else if sf == 0 { "a" } else if sf == 1 { "e" }
        else if sf == 2 { "b" } else if sf == 3 { "#f" } else if sf == 4 { "#c" }
        else if sf == 5 { "#g" } else if sf == 6 { "#d" } else { "#a" }
    }
}

/// The signed count of sharps (negative: flats) that a byte encodes.
pub open spec fn signed_of(b: u8) -> int {
    if b < 128 {
        b as int
    } else {
        b as int - 256
    }
}

/// Major or minor (`true` for major) and the signed count of sharps that the
/// bytes of a key-signature event state, where the count lies in -7..=7.
pub open spec fn key_of(status: MetaStatus, d: Seq<u8>) -> Option<(bool, i8)> {
    let v = meta_value_of(d);
    if status == MetaStatus::KeySignature && v.len() >= 2 && -7 <= signed_of(v[0]) <= 7 {
        Some((v[1] == 0, signed_of(v[0]) as i8))
    } else {
        None
    }
}

impl Meta {
    /// The value of the event: the bytes after its length field.
    pub fn meta_value(&self) -> (r: &[u8])
        ensures
            r@ == meta_value_of(self.data@),
    {
        let (n, _len) = read_variable_length_at(self.data.as_slice(), 2);
        let start: usize = if 2 + (n as usize) <= self.data.len() {
            2 + n as usize
        } else {
            self.data.len()
        };
        vstd::slice::slice_subrange(self.data.as_slice(), start, self.data.len())
    }

    /// The tempo of a tempo event, in microseconds per quarter note; `None`
    /// for other events and for a value shorter than three bytes.
    pub fn tempo(&self) -> (r: Option<u32>)
        ensures
            r == (if self.status == MetaStatus::SetTempo && meta_value_of(self.data@).len() >= 3 {
                Some(tempo_of(meta_value_of(self.data@)))
            } else {
                None
            }),
    {
        match self.status {
            MetaStatus::SetTempo => {
                let v = self.meta_value();
                if v.len() >= 3 {
                    Some((v[0] as u32) * 0x10000 + (v[1] as u32) * 0x100 + v[2] as u32)
                } else {
                    None
                }
            },
            _ => None,
        }
    }

    /// Major or minor (`true` for major) and the signed count of sharps of a
    /// key-signature event; `None` for other events, for a value shorter than
    /// two bytes and for a count outside -7..=7.
    pub fn key(&self) -> (r: Option<(bool, i8)>)
        ensures
            r == key_of(self.status, self.data@),
    {
        match self.status {
            MetaStatus::KeySignature => {
                let v = self.meta_value();
                if v.len() >= 2 {
                    let sf: i16 = if v[0] < 128 {
                        v[0] as i16
                    } else {
                        v[0] as i16 - 256
                    };
                    if -7 <= sf && sf <= 7 {
                        Some((v[1] == 0, sf as i8))
                    } else {
                        None
                    }
                } else {
                    None
                }
            },
            _ => None,
        }
    }

    /// Name of the key of a key-signature event, as in `key`: a letter with
    /// `b` or `#` before it, upper case for major and lower case for minor.
    pub fn key_signature(&self) -> (r: Option<&'static str>)
        ensures
            r == (match key_of(self.status, self.data@) {
                Some(k) => Some(key_name(k.0, k.1 as int)),
                None => None,
            }),
    {
        match self.key() {
            Some((major, sf)) => Some(
                if major {
                    if sf == -7 { "bC" } else if sf == -6 { "bG" } else if sf == -5 { "bD" }
                    else if sf == -4 { "bA" } else if sf == -3 { "bE" } else if sf == -2 { "bB" }
                    else if sf == -1 { "F" } else if sf == 0 { "C" } else if sf == 1 { "G" }
                    else if sf == 2 { "D" } else if sf == 3 { "A" } else if sf == 4 { "E" }
                    else if sf == 5 { "B" } else if sf == 6 { "#F" } else { "#C" }
                } else {
                    if sf == -7 { "ba" } else if sf == -6 { "be" } else if sf == -5 { "bb" }
                    else if sf == -4 { "f" } else if sf == -3 { "c" } else if sf == -2 { "g" }
                    else if sf == -1 { "d" } else if sf == 0 { "a" } else if sf == 1 { "e" }
                    else if sf == 2 { "b" } else if sf == 3 { "#f" } else if sf == 4 { "#c" }
                    else if sf == 5 { "#g" } else if sf == 6 { "#d" } else { "#a" }
                },
            ),
            None => None,
        }
    }

    /// Numerator, denominator (two to the power that the event writes),
    /// clocks per click and 32nd notes per quarter of a time-signature event;
    /// `None` for other events, for a value shorter than four bytes and for a
    /// power above 7.
    pub fn time_signature(&self) -> (r: Option<(u8, u8, u8, u8)>)
        ensures
            r == (if self.status == MetaStatus::TimeSignature && meta_value_of(self.data@).len()
                >= 4 && meta_value_of(self.data@)[1] < 8 {
                Some(
                    (
                        meta_value_of(self.data@)[0],
                        pow2(meta_value_of(self.data@)[1] as nat) as u8,
                        meta_value_of(self.data@)[2],
                        meta_value_of(self.data@)[3],
                    ),
                )
            } else {
                None
            }),
    {
        match self.status {
            MetaStatus::TimeSignature => {
                let v = self.meta_value();
                if v.len() >= 4 && v[1] < 8 {
                    let mut d: u8 = 1;
                    let mut i: u8 = 0;
                    while i < v[1]
                        invariant
                            v@ == meta_value_of(self.data@),
                            v@.len() >= 4,
                            v@[1] < 8,
                            i <= v@[1],
                            d as nat == pow2(i as nat),
                            d <= 128,
                        decreases v@[1] - i,
                    {
                        proof {
                            lemma_pow2_bound(i as nat);
                        }
                        d = d * 2;
                        i = i + 1;
                    }
                    Some((v[0], d, v[2], v[3]))
                } else {
                    None
                }
            },
            _ => None,
        }
    }
}

proof fn lemma_pow2_bound(n: nat)
    requires
        n < 7,
    ensures
        pow2(n) <= 64,
{
    reveal_with_fuel(pow2, 8);
}

} // verus!
