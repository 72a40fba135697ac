//! The byte-level decoder: the header chunk, the scan over track chunks
//! (skipping chunks of other types), and a cursor that turns a track's bytes
//! into messages with running status resolved and absolute tick times.
use vstd::prelude::*;
use crate::message::{
    EVENT_DATA_LEN, Event, EventStatus, MIDIMessage, MIDIFormat, MessageView, event_bytes, is_known_status,
    meta_status_of, status_len, status_of,
};
use crate::util::{read_variable_length_at, vlq_count, vlq_value, window};

verus! {

/// Why a byte buffer is not a file that can be decoded.
#[derive(PartialEq, Eq, Structural, Copy, Clone, Debug)]
pub enum DecodeError {
    /// No header tag, a format other than 0, 1 or 2, or a chunk that is cut
    /// short or missing.
    MalformedContainer,
    /// A division in SMPTE frames (its top bit set).
    UnsupportedTiming,
    /// A track whose bytes do not form messages: running status with none
    /// set, an unknown status byte, a system-exclusive run from `0xF0` that
    /// is empty or not ended by `0xF7`, a delta time or length of more than four bytes, an absolute
    /// time past 32 bits, or a message cut short by the end of its track.
    /// The last is a fault of the track's bytes, not of the chunk, whose
    /// declared length fits the file (else `MalformedContainer`).
    MalformedMessage,
}

/// Where a cursor over the bytes of one track stands.
pub struct CursorView {
    pub data: Seq<u8>,
    /// Where the track ends: the cursor is done when `offset` reaches it.
    pub end: nat,
    pub offset: nat,
    /// Absolute time, in ticks, of the last message.
    pub tick: u32,
    /// Status byte of the last channel message, for running status.
    pub run_code: u8,
    /// Length of that message, status byte included; 0 while none was read.
    pub run_len: nat,
}

/// The cursor as it stands after a message at `offset` that ends at `next`.
pub open spec fn advance(c: CursorView, next: int, tick: u32, run_code: u8, run_len: nat) -> CursorView {
    CursorView { data: c.data, end: c.end, offset: next as nat, tick, run_code, run_len }
}

/// One step of a cursor: `None` at the end of the track, else the next
/// message and the cursor after it.
pub open spec fn step(c: CursorView) -> Result<Option<(MessageView, CursorView)>, DecodeError> {
    let d = c.data;
    let w = window(d, c.offset as int);
    let n: int = vlq_count(w) as int;
    let t: int = c.tick + vlq_value(w);
    let p: int = c.offset + n;
    if c.offset >= c.end {
        Ok(None)
    } else if n == 0 || t > u32::MAX || p >= d.len() {
        Err(DecodeError::MalformedMessage)
    } else {
        let s = d[p];
        if s < 0x80 {
            // running status: the status byte is left out
            let k: int = c.run_len - 1;
            if c.run_len == 0 || p + k > d.len() {
                Err(DecodeError::MalformedMessage)
            } else {
                Ok(Some((
                    MessageView::Event {
                        time: t as u32,
                        status: status_of(c.run_code),
                        data: event_bytes(c.run_code, c.run_len as int, d.subrange(p, p + k)),
                    },
                    advance(c, p + k, t as u32, c.run_code, c.run_len),
                )))
            }
        } else if s <= 0xEF {
            let len = status_len(s);
            if p + len > d.len() {
                Err(DecodeError::MalformedMessage)
            } else {
                Ok(Some((
                    MessageView::Event {
                        time: t as u32,
                        status: status_of(s),
                        data: event_bytes(s, len, d.subrange(p + 1, p + len)),
                    },
                    advance(c, p + len, t as u32, s, len as nat),
                )))
            }
        } else if s == 0xF0 || s == 0xF7 {
            // system exclusive: a length, then the bytes; a run that 0xF0
            // starts is not empty and ends with 0xF7, an escape that 0xF7
            // starts may hold any bytes
            let lw = window(d, p + 1);
            let e: int = p + 1 + vlq_count(lw) + vlq_value(lw);
            if vlq_count(lw) == 0 || e > d.len() || (s == 0xF0 && (vlq_value(lw) == 0 || d[e - 1]
                != 0xF7)) {
                Err(DecodeError::MalformedMessage)
            } else {
                Ok(Some((
                    MessageView::Event { time: t as u32, status: status_of(s), data: event_bytes(s, 1, seq![]) },
                    advance(c, e, t as u32, c.run_code, c.run_len),
                )))
            }
        } else if s == 0xFF {
            // meta event: a type byte, a length, then the value
            let lw = window(d, p + 2);
            let e: int = p + 2 + vlq_count(lw) + vlq_value(lw);
            if p + 1 >= d.len() || vlq_count(lw) == 0 || e > d.len() {
                Err(DecodeError::MalformedMessage)
            } else {
                Ok(Some((
                    MessageView::Meta {
                        time: t as u32,
                        status: meta_status_of(d[p + 1]),
                        data: d.subrange(p, e),
                    },
                    advance(c, e, t as u32, c.run_code, c.run_len),
                )))
            }
        } else if is_known_status(s) {
            // other system messages leave running status as it is
            let len = status_len(s);
            if p + len > d.len() {
                Err(DecodeError::MalformedMessage)
            } else {
                Ok(Some((
                    MessageView::Event {
                        time: t as u32,
                        status: status_of(s),
                        data: event_bytes(s, len, d.subrange(p + 1, p + len)),
                    },
                    advance(c, p + len, t as u32, c.run_code, c.run_len),
                )))
            }
        } else {
            Err(DecodeError::MalformedMessage)
        }
    }
}

/// Every message from the cursor to the end of its track.
pub open spec fn decode_from(c: CursorView) -> Result<Seq<MessageView>, DecodeError>
    decreases c.data.len() - c.offset
    via decode_from_decreases
{
    if c.offset >= c.end {
        Ok(seq![])
    } else {
        match step(c) {
            Ok(Some((m, next))) => match decode_from(next) {
                Ok(rest) => Ok(seq![m] + rest),
                Err(e) => Err(e),
            },
            Ok(None) => Ok(seq![]),
            Err(e) => Err(e),
        }
    }
}

/// Running status: after a note-on with its status byte, a message that
/// leaves the status byte out is read as a note-on of the same status, with
/// the two bytes that follow as key and velocity.
pub proof fn lemma_running_status(d1: u8, d2: u8)
    requires
        d1 < 0x80,
        d2 < 0x80,
    ensures
        decode_track(seq![d1, 0x90u8, 60u8, 100u8, d2, 62u8, 100u8]) == Ok::<Seq<MessageView>, DecodeError>(
            seq![
                MessageView::Event {
                    time: d1 as u32,
                    status: EventStatus::NoteOn,
                    data: event_bytes(0x90, 3, seq![60u8, 100u8]),
                },
                MessageView::Event {
                    time: (d1 + d2) as u32,
                    status: EventStatus::NoteOn,
                    data: event_bytes(0x90, 3, seq![62u8, 100u8]),
                },
            ],
        ),
{
    reveal_with_fuel(crate::util::vlq_count_from, 2);
    reveal_with_fuel(crate::util::vlq_acc, 2);
    let d = seq![d1, 0x90u8, 60u8, 100u8, d2, 62u8, 100u8];
    let c0 = start_cursor(d, 7);
    assert(window(d, 0)[0] == d1);
    assert(d.subrange(2, 4) =~= seq![60u8, 100u8]);
    let c1 = advance(c0, 4, d1 as u32, 0x90, 3);
    assert(step(c0) == Ok::<Option<(MessageView, CursorView)>, DecodeError>(Some((
        MessageView::Event { time: d1 as u32, status: EventStatus::NoteOn, data: event_bytes(0x90, 3, seq![60u8, 100u8]) },
        c1,
    ))));
    assert(window(d, 4)[0] == d2);
    assert(d.subrange(5, 7) =~= seq![62u8, 100u8]);
    let c2 = advance(c1, 7, (d1 + d2) as u32, 0x90, 3);
    assert(step(c1) == Ok::<Option<(MessageView, CursorView)>, DecodeError>(Some((
        MessageView::Event { time: (d1 + d2) as u32, status: EventStatus::NoteOn, data: event_bytes(0x90, 3, seq![62u8, 100u8]) },
        c2,
    ))));
    assert(decode_from(c2) == Ok::<Seq<MessageView>, DecodeError>(seq![]));
    assert(decode_from(c1) == Ok::<Seq<MessageView>, DecodeError>(seq![
        MessageView::Event { time: (d1 + d2) as u32, status: EventStatus::NoteOn, data: event_bytes(0x90, 3, seq![62u8, 100u8]) },
    ]));
    let m0 = MessageView::Event { time: d1 as u32, status: EventStatus::NoteOn, data: event_bytes(0x90, 3, seq![60u8, 100u8]) };
    let m1 = MessageView::Event { time: (d1 + d2) as u32, status: EventStatus::NoteOn, data: event_bytes(0x90, 3, seq![62u8, 100u8]) };
    assert(seq![m0] + seq![m1] =~= seq![m0, m1]);
}

/// A step keeps the bytes and the end of the track, and moves forward.
pub proof fn lemma_step_advances(c: CursorView)
    ensures
        step(c) matches Ok(Some((_, next))) ==> next.data == c.data && next.end == c.end
            && next.offset > c.offset && next.offset <= c.data.len(),
{
}

#[via_fn]
proof fn decode_from_decreases(c: CursorView) {
    lemma_step_advances(c);
    if c.offset < c.end {
        if let Ok(Some((_, next))) = step(c) {
            assert(0 <= c.data.len() - next.offset < c.data.len() - c.offset);
        }
    }
}

/// The cursor holds no byte past the end of its track, and running status,
/// where set, is that of a channel message and has its length. Every message
/// that a step reads then lies within the track.
pub open spec fn cursor_wf(c: CursorView) -> bool {
    &&& c.data.len() <= c.end
    &&& c.run_len == 0 || (0x80 <= c.run_code <= 0xEF && c.run_len == status_len(c.run_code))
}

/// A step keeps a cursor well formed.
pub proof fn lemma_step_wf(c: CursorView)
    requires
        cursor_wf(c),
    ensures
        step(c) matches Ok(Some((_, next))) ==> cursor_wf(next),
{
}

/// In a well-formed cursor, each message that a step reads ends within the
/// track: a message that would run past the end of the track is an error.
pub proof fn lemma_step_within_track(c: CursorView)
    requires
        cursor_wf(c),
    ensures
        step(c) matches Ok(Some((_, next))) ==> next.offset <= c.end,
{
    lemma_step_advances(c);
}

/// A cursor at the start of a track's bytes.
pub open spec fn start_cursor(data: Seq<u8>, end: nat) -> CursorView {
    CursorView { data, end, offset: 0, tick: 0, run_code: 0, run_len: 0 }
}

/// The messages of a track whose bytes are `data`.
pub open spec fn decode_track(data: Seq<u8>) -> Result<Seq<MessageView>, DecodeError> {
    decode_from(start_cursor(data, data.len()))
}

pub open spec fn messages_view(v: Seq<MIDIMessage>) -> Seq<MessageView> {
    v.map_values(|m: MIDIMessage| m@)
}

/// A cursor over the bytes of one track, which hands out one message at a time.
#[derive(Clone)]
pub struct MIDIMessageIter {
    data: Vec<u8>,
    bytes: usize,
    byte_offset: usize,
    tick_offset: u32,
    last_event_len: usize,
    last_status_code: u8,
}

impl View for MIDIMessageIter {
    type V = CursorView;

    closed spec fn view(&self) -> CursorView {
        CursorView {
            data: self.data@,
            end: self.bytes as nat,
            offset: self.byte_offset as nat,
            tick: self.tick_offset,
            run_code: self.last_status_code,
            run_len: self.last_event_len as nat,
        }
    }
}

impl MIDIMessageIter {
    /// A cursor at the start of a track of `bytes` bytes, the first `bytes`
    /// of `data`. It keeps no byte past them, so no message can run past
    /// the end of the track: one that would is cut short, an error.
    pub fn from_bytes(data: &[u8], bytes: usize) -> (r: MIDIMessageIter)
        ensures
            r@ == start_cursor(
                data@.take(if bytes <= data@.len() { bytes as int } else { data@.len() as int }),
                bytes as nat,
            ),
    {
        let n: usize = if bytes <= data.len() {
            bytes
        } else {
            data.len()
        };
        MIDIMessageIter {
            data: vstd::slice::slice_to_vec(vstd::slice::slice_subrange(data, 0, n)),
            bytes,
            byte_offset: 0,
            tick_offset: 0,
            last_event_len: 0,
            last_status_code: 0,
        }
    }

    /// The next message of the track, `None` at its end, or the error that
    /// its bytes give.
    pub fn next(&mut self) -> (r: Result<Option<MIDIMessage>, DecodeError>)
        requires
            cursor_wf(old(self)@),
        ensures
            cursor_wf(final(self)@),
            match step(old(self)@) {
                Ok(None) => r matches Ok(None) && final(self)@ == old(self)@,
                Ok(Some((m, c))) => (r matches Ok(Some(x)) && x@ == m) && final(self)@ == c,
                Err(e) => r == Err::<Option<MIDIMessage>, DecodeError>(e),
            },
    {
        proof {
            lemma_step_wf(self@);
        }
        if self.byte_offset >= self.bytes {
            return Ok(None);
        }
        let len = self.data.len();
        let (n, value) = read_variable_length_at(self.data.as_slice(), self.byte_offset);
        if n == 0 || value as u64 + self.tick_offset as u64 > 0xFFFF_FFFFu64 || self.byte_offset
            >= len || (n as usize) >= len - self.byte_offset {
            return Err(DecodeError::MalformedMessage);
        }
        let t: u32 = self.tick_offset + value as u32;
        let p: usize = self.byte_offset + n as usize;
        let s = self.data[p];
        if s < 0x80 {
            if self.last_event_len == 0 || self.last_event_len - 1 > len - p {
                return Err(DecodeError::MalformedMessage);
            }
            let k: usize = self.last_event_len - 1;
            let code = self.last_status_code;
            let msg = MIDIMessage::new_event(
                t,
                code,
                vstd::slice::slice_subrange(self.data.as_slice(), p, p + k),
            );
            self.byte_offset = p + k;
            self.tick_offset = t;
            Ok(Some(msg))
        } else if s <= 0xEF {
            let (_status, l) = EventStatus::from_status_code(s);
            let l = l as usize;
            if l > len - p {
                return Err(DecodeError::MalformedMessage);
            }
            let msg = MIDIMessage::new_event(
                t,
                s,
                vstd::slice::slice_subrange(self.data.as_slice(), p + 1, p + l),
            );
            self.byte_offset = p + l;
            self.tick_offset = t;
            self.last_status_code = s;
            self.last_event_len = l;
            Ok(Some(msg))
        } else if s == 0xF0 || s == 0xF7 {
            let (ln, lv) = read_variable_length_at(self.data.as_slice(), p + 1);
            if ln == 0 || (ln as usize) + lv > len - p - 1 {
                return Err(DecodeError::MalformedMessage);
            }
            let e: usize = p + 1 + ln as usize + lv;
            if s == 0xF0 && (lv == 0 || self.data[e - 1] != 0xF7) {
                return Err(DecodeError::MalformedMessage);
            }
            let (status, _l) = EventStatus::from_status_code(s);
            let arr: [u8; EVENT_DATA_LEN] = [s, 0, 0, 0, 0, 0, 0, 0];
            assert(arr@ =~= event_bytes(s, 1, seq![]));
            self.byte_offset = e;
            self.tick_offset = t;
            Ok(Some(MIDIMessage::Event(Event { time: t, status, data: arr })))
        } else if s == 0xFF {
            if p + 1 >= len {
                return Err(DecodeError::MalformedMessage);
            }
            let (ln, lv) = read_variable_length_at(self.data.as_slice(), p + 2);
            if ln == 0 || (ln as usize) + lv > len - p - 2 {
                return Err(DecodeError::MalformedMessage);
            }
            let e: usize = p + 2 + ln as usize + lv;
            let msg = MIDIMessage::new_meta(
                t,
                0xFF,
                vstd::slice::slice_subrange(self.data.as_slice(), p + 1, e),
            );
            assert(seq![0xFFu8] + self.data@.subrange(p + 1, e as int) =~= self.data@.subrange(
                p as int,
                e as int,
            ));
            self.byte_offset = e;
            self.tick_offset = t;
            Ok(Some(msg))
        } else if s == 0xF2 || s == 0xF3 || s == 0xF6 || s == 0xF8 || s == 0xFA || s == 0xFB || s
            == 0xFC || s == 0xFE {
            let (_status, l) = EventStatus::from_status_code(s);
            let l = l as usize;
            if l > len - p {
                return Err(DecodeError::MalformedMessage);
            }
            let msg = MIDIMessage::new_event(
                t,
                s,
                vstd::slice::slice_subrange(self.data.as_slice(), p + 1, p + l),
            );
            self.byte_offset = p + l;
            self.tick_offset = t;
            Ok(Some(msg))
        } else {
            Err(DecodeError::MalformedMessage)
        }
    }

    /// Every message from here to the end of the track.
    pub fn read_all(&mut self) -> (r: Result<Vec<MIDIMessage>, DecodeError>)
        requires
            cursor_wf(old(self)@),
        ensures
            match decode_from(old(self)@) {
                Ok(ms) => r matches Ok(v) && messages_view(v@) == ms,
                Err(e) => r == Err::<Vec<MIDIMessage>, DecodeError>(e),
            },
    {
        let mut out: Vec<MIDIMessage> = Vec::new();
        loop
            invariant
                cursor_wf(self@),
                self@.data == old(self)@.data,
                decode_from(old(self)@) == (match decode_from(self@) {
                    Ok(ms) => Ok(messages_view(out@) + ms),
                    Err(e) => Err::<Seq<MessageView>, DecodeError>(e),
                }),
            decreases self@.data.len() - self@.offset,
        {
            let ghost before = self@;
            proof {
                lemma_step_advances(before);
            }
            match self.next() {
                Ok(Some(m)) => {
                    let ghost old_out = out@;
                    out.push(m);
                    proof {
                        assert(messages_view(out@) =~= messages_view(old_out).push(m@));
                        assert(decode_from(before) == (match decode_from(self@) {
                            Ok(rest) => Ok(seq![m@] + rest),
                            Err(e) => Err::<Seq<MessageView>, DecodeError>(e),
                        }));
                        if let Ok(rest) = decode_from(self@) {
                            assert(messages_view(old_out) + (seq![m@] + rest) =~= messages_view(out@)
                                + rest);
                        }
                    }
                },
                Ok(None) => {
                    proof {
                        assert(messages_view(out@) + seq![] =~= messages_view(out@));
                    }
                    return Ok(out);
                },
                Err(e) => {
                    return Err(e);
                },
            }
        }
    }
}

/// Big-endian value of the four bytes of `s` from `i`.
pub open spec fn be32(s: Seq<u8>, i: int) -> nat {
    (s[i] as nat * 0x100_0000 + s[i + 1] as nat * 0x1_0000 + s[i + 2] as nat * 0x100 + s[i + 3] as nat)
}

/// Big-endian value of the two bytes of `s` from `i`.
pub open spec fn be16(s: Seq<u8>, i: int) -> nat {
    s[i] as nat * 0x100 + s[i + 1] as nat
}

/// `s` starts with the tag of a track chunk, `MTrk`.
pub open spec fn is_track_tag(s: Seq<u8>) -> bool {
    s.len() >= 4 && s[0] == 0x4D && s[1] == 0x54 && s[2] == 0x72 && s[3] == 0x6B
}

/// `s` starts with the tag of the header chunk, `MThd`.
pub open spec fn is_header_tag(s: Seq<u8>) -> bool {
    s.len() >= 4 && s[0] == 0x4D && s[1] == 0x54 && s[2] == 0x68 && s[3] == 0x64
}

/// Length of the chunk that starts `rest`, its 8-byte head included.
pub open spec fn chunk_size(rest: Seq<u8>) -> nat {
    8 + be32(rest, 4)
}

/// The payload of the first track chunk in `rest`, after any chunks of other
/// types, and the number of bytes up to its end; `None` where a chunk is cut
/// short or no track chunk comes.
pub open spec fn next_track(rest: Seq<u8>) -> Option<(Seq<u8>, nat)>
    decreases rest.len(),
{
    if rest.len() < 8 || rest.len() < chunk_size(rest) {
        None
    } else if is_track_tag(rest) {
        Some((rest.subrange(8, chunk_size(rest) as int), chunk_size(rest)))
    } else {
        match next_track(rest.subrange(chunk_size(rest) as int, rest.len() as int)) {
            Some((p, k)) => Some((p, k + chunk_size(rest))),
            None => None,
        }
    }
}

/// The payloads of the next `n` track chunks in `rest`.
pub open spec fn track_chunks(rest: Seq<u8>, n: nat) -> Option<Seq<Seq<u8>>>
    decreases n,
{
    if n == 0 {
        Some(seq![])
    } else {
        match next_track(rest) {
            Some((p, k)) => match track_chunks(rest.subrange(k as int, rest.len() as int), (n - 1) as nat) {
                Some(ps) => Some(seq![p] + ps),
                None => None,
            },
            None => None,
        }
    }
}

pub proof fn lemma_next_track_len(rest: Seq<u8>)
    ensures
        next_track(rest) matches Some((p, k)) ==> 8 <= k <= rest.len() && p.len() + 8 <= k,
    decreases rest.len(),
{
    if rest.len() >= 8 && rest.len() >= chunk_size(rest) && !is_track_tag(rest) {
        lemma_next_track_len(rest.subrange(chunk_size(rest) as int, rest.len() as int));
    }
}

/// Where a scan over the chunks of a file stands.
pub struct ChunkScanView {
    pub data: Seq<u8>,
    pub offset: nat,
    /// Track chunks still to come.
    pub remaining: int,
}

/// The scan stands inside its bytes and has a count of chunks to come.
pub open spec fn scan_wf(v: ChunkScanView) -> bool {
    v.remaining >= 0 && v.offset <= v.data.len()
}

/// A scan over the track chunks of a file, which hands out a cursor over each.
pub struct MIDITrackIter {
    data: Vec<u8>,
    byte_offset: usize,
    track_num: u16,
    cur_track_idx: u16,
}

impl View for MIDITrackIter {
    type V = ChunkScanView;

    closed spec fn view(&self) -> ChunkScanView {
        ChunkScanView {
            data: self.data@,
            offset: self.byte_offset as nat,
            remaining: self.track_num - self.cur_track_idx,
        }
    }
}

impl MIDITrackIter {
    /// A scan over the `track_num` track chunks of a file, from the end of
    /// its 14-byte header chunk on (from its end, where it is shorter).
    pub fn from_bytes(data: &[u8], track_num: u16) -> (r: MIDITrackIter)
        ensures
            r@ == (ChunkScanView {
                data: data@,
                offset: if data@.len() >= 14 { 14 } else { data@.len() },
                remaining: track_num as int,
            }),
    {
        let byte_offset: usize = if data.len() >= 14 {
            14
        } else {
            data.len()
        };
        MIDITrackIter { data: vstd::slice::slice_to_vec(data), byte_offset, track_num, cur_track_idx: 0 }
    }

    /// A cursor over the next track chunk, skipping chunks of other types;
    /// `None` once all of them are out.
    pub fn next(&mut self) -> (r: Result<Option<MIDIMessageIter>, DecodeError>)
        requires
            scan_wf(old(self)@),
        ensures
            scan_wf(final(self)@),
            old(self)@.remaining == 0 ==> (r matches Ok(None) && final(self)@ == old(self)@),
            old(self)@.remaining > 0 ==> (match next_track(old(self)@.data.subrange(old(self)@.offset as int, old(self)@.data.len() as int)) {
                Some((p, k)) => (r matches Ok(Some(it)) && it@ == start_cursor(p, p.len()))
                    && final(self)@ == (ChunkScanView {
                    data: old(self)@.data,
                    offset: old(self)@.offset + k,
                    remaining: old(self)@.remaining - 1,
                }),
                None => r == Err::<Option<MIDIMessageIter>, DecodeError>(DecodeError::MalformedContainer),
            }),
    {
        if self.cur_track_idx >= self.track_num {
            return Ok(None);
        }
        let len = self.data.len();
        let ghost start = self.byte_offset as int;
        let ghost rest0 = self.data@.subrange(start, len as int);
        let mut off: usize = self.byte_offset;
        loop
            invariant
                self@ == old(self)@,
                scan_wf(self@),
                self.cur_track_idx < self.track_num,
                start == self.byte_offset,
                start <= off <= len,
                len == self.data@.len(),
                rest0 == self.data@.subrange(start, len as int),
                next_track(rest0) == (match next_track(self.data@.subrange(off as int, len as int)) {
                    Some((p, k)) => Some((p, k + (off - start) as nat)),
                    None => None,
                }),
            decreases len - off,
        {
            let ghost rest = self.data@.subrange(off as int, len as int);
            if len - off < 8 {
                return Err(DecodeError::MalformedContainer);
            }
            let chunk_len: u64 = (self.data[off + 4] as u64) * 0x100_0000 + (self.data[off + 5] as u64)
                * 0x1_0000 + (self.data[off + 6] as u64) * 0x100 + self.data[off + 7] as u64;
            assert(chunk_len as nat == be32(rest, 4));
            if chunk_len > (len - off - 8) as u64 {
                return Err(DecodeError::MalformedContainer);
            }
            let size: usize = 8 + chunk_len as usize;
            if self.data[off] == 0x4D && self.data[off + 1] == 0x54 && self.data[off + 2] == 0x72
                && self.data[off + 3] == 0x6B {
                assert(is_track_tag(rest));
                let payload = vstd::slice::slice_subrange(self.data.as_slice(), off + 8, off + size);
                assert(payload@ =~= rest.subrange(8, size as int));
                let it = MIDIMessageIter::from_bytes(payload, size - 8);
                assert(payload@.take(payload@.len() as int) =~= payload@);
                self.byte_offset = off + size;
                self.cur_track_idx = self.cur_track_idx + 1;
                return Ok(Some(it));
            }
            assert(!is_track_tag(rest));
            assert(rest.subrange(size as int, rest.len() as int) =~= self.data@.subrange(
                (off + size) as int,
                len as int,
            ));
            off = off + size;
        }
    }
}

pub open spec fn format_of(code: nat) -> MIDIFormat {
    if code == 0 {
        MIDIFormat::SingleTrack
    } else if code == 1 {
        MIDIFormat::MultiTrack
    } else {
        MIDIFormat::MultiSong
    }
}

/// Format, track count and division from the six bytes of a header chunk's
/// body; a shorter body, or a format other than 0, 1 or 2, is refused.
pub open spec fn header_body(d: Seq<u8>) -> Result<(MIDIFormat, u16, u16), DecodeError> {
    if d.len() < 6 || be16(d, 0) > 2 {
        Err(DecodeError::MalformedContainer)
    } else {
        Ok((format_of(be16(d, 0)), be16(d, 2) as u16, be16(d, 4) as u16))
    }
}

/// The header of a file: its tag, then format, track count and division.
pub open spec fn header_of(buf: Seq<u8>) -> Result<(MIDIFormat, u16, u16), DecodeError> {
    if buf.len() < 14 || !is_header_tag(buf) {
        Err(DecodeError::MalformedContainer)
    } else {
        header_body(buf.subrange(8, 14))
    }
}

/// A file whose header has been read, with a scan over its track chunks.
pub struct MIDIFileIter {
    pub format: MIDIFormat,
    pub track_num: u16,
    pub division: u16,
    pub track_iter: MIDITrackIter,
}

impl MIDIFileIter {
    /// Reads the header of the file in `data`.
    pub fn from_bytes(data: &[u8]) -> (r: Result<MIDIFileIter, DecodeError>)
        ensures
            match header_of(data@) {
                Ok((f, n, d)) => r matches Ok(it) && it.format == f && it.track_num == n
                    && it.division == d && it.track_iter@ == (ChunkScanView {
                    data: data@,
                    offset: 14,
                    remaining: n as int,
                }),
                Err(e) => r matches Err(x) && x == e,
            },
    {
        if data.len() < 14 || !(data[0] == 0x4D && data[1] == 0x54 && data[2] == 0x68 && data[3]
            == 0x64) {
            return Err(DecodeError::MalformedContainer);
        }
        let body = vstd::slice::slice_subrange(data, 8, 14);
        match MIDIFile::parse_mthd(body) {
            Ok((format, track_num, division)) => Ok(
                MIDIFileIter {
                    format,
                    track_num,
                    division,
                    track_iter: MIDITrackIter::from_bytes(data, track_num),
                },
            ),
            Err(e) => Err(e),
        }
    }
}

/// The messages of one track.
#[derive(Clone, Debug, PartialEq, Eq)]
pub struct MIDITrack {
    pub message: Vec<MIDIMessage>,
}

/// A decoded file: its header and the messages of each track.
#[derive(Clone, Debug, PartialEq, Eq)]
pub struct MIDIFile {
    pub format: MIDIFormat,
    pub track_num: u16,
    pub division: u16,
    pub track: Vec<MIDITrack>,
}

impl View for MIDITrack {
    type V = Seq<MessageView>;

    open spec fn view(&self) -> Seq<MessageView> {
        messages_view(self.message@)
    }
}

pub struct FileView {
    pub format: MIDIFormat,
    pub track_num: u16,
    pub division: u16,
    pub tracks: Seq<Seq<MessageView>>,
}

impl View for MIDIFile {
    type V = FileView;

    open spec fn view(&self) -> FileView {
        FileView {
            format: self.format,
            track_num: self.track_num,
            division: self.division,
            tracks: self.track@.map_values(|t: MIDITrack| t@),
        }
    }
}

/// The messages of each track payload, or the first error among them.
pub open spec fn decode_tracks(ps: Seq<Seq<u8>>) -> Result<Seq<Seq<MessageView>>, DecodeError>
    decreases ps.len(),
{
    if ps.len() == 0 {
        Ok(seq![])
    } else {
        match decode_tracks(ps.drop_last()) {
            Ok(ts) => match decode_track(ps.last()) {
                Ok(t) => Ok(ts.push(t)),
                Err(e) => Err(e),
            },
            Err(e) => Err(e),
        }
    }
}

/// What a byte buffer decodes to: its header, then the messages of each of
/// the track chunks that the header counts.
pub open spec fn decode_file(buf: Seq<u8>) -> Result<FileView, DecodeError> {
    match header_of(buf) {
        Ok((f, n, d)) => match track_chunks(buf.subrange(14, buf.len() as int), n as nat) {
            Some(ps) => match decode_tracks(ps) {
                Ok(ts) => Ok(FileView { format: f, track_num: n, division: d, tracks: ts }),
                Err(e) => Err(e),
            },
            None => Err(DecodeError::MalformedContainer),
        },
        Err(e) => Err(e),
    }
}

/// A chunk of an unknown type in front of `rest` is skipped by the track
/// scan: the next track chunk is the one `rest` gives, with the same payload
/// and the same bytes after it, so a `MIDITrackIter` over either hands out
/// the same cursors, call after call.
pub proof fn lemma_scan_skips_unknown_chunk(chunk: Seq<u8>, rest: Seq<u8>)
    requires
        chunk.len() >= 8,
        chunk_size(chunk) == chunk.len(),
        !is_track_tag(chunk),
    ensures
        next_track(chunk + rest) == (match next_track(rest) {
            Some((p, k)) => Some((p, k + chunk.len())),
            None => None,
        }),
        next_track(rest) matches Some((p, k)) ==> (chunk + rest).subrange(
            (k + chunk.len()) as int,
            (chunk + rest).len() as int,
        ) == rest.subrange(k as int, rest.len() as int),
        forall|n: nat| n > 0 ==> #[trigger] track_chunks(chunk + rest, n) == track_chunks(rest, n),
{
    let c = chunk + rest;
    assert(chunk_size(c) == chunk_size(chunk));
    assert(!is_track_tag(c));
    assert(c.subrange(chunk_size(c) as int, c.len() as int) =~= rest);
    match next_track(rest) {
        Some((p, k)) => {
            lemma_next_track_len(rest);
            assert(c.subrange((k + chunk.len()) as int, c.len() as int) =~= rest.subrange(
                k as int,
                rest.len() as int,
            ));
        },
        None => {},
    }
    assert forall|n: nat| n > 0 implies #[trigger] track_chunks(c, n) == track_chunks(rest, n) by {
    }
}

/// A chunk of an unknown type placed right after the header chunk is skipped:
/// the file decodes exactly as it does without it.
pub proof fn lemma_unknown_chunk_skipped(header: Seq<u8>, chunk: Seq<u8>, rest: Seq<u8>)
    requires
        header.len() == 14,
        chunk.len() >= 8,
        chunk_size(chunk) == chunk.len(),
        !is_track_tag(chunk),
    ensures
        decode_file(header + chunk + rest) == decode_file(header + rest),
{
    let a = header + chunk + rest;
    let b = header + rest;
    assert(a.subrange(8, 14) =~= b.subrange(8, 14));
    assert(is_header_tag(a) == is_header_tag(b));
    let ra = a.subrange(14, a.len() as int);
    let rb = b.subrange(14, b.len() as int);
    assert(ra =~= chunk + rest);
    assert(rb =~= rest);
    if let Ok((f, n, d)) = header_of(b) {
        if n > 0 {
            let c = chunk + rest;
            lemma_scan_skips_unknown_chunk(chunk, rest);
            assert(track_chunks(c, n as nat) == track_chunks(rest, n as nat));
        }
    }
}

/// An error in the tracks before `j` is the error of all of them.
proof fn lemma_decode_tracks_prefix_err(ps: Seq<Seq<u8>>, j: int)
    requires
        0 <= j <= ps.len(),
        decode_tracks(ps.take(j)) is Err,
    ensures
        decode_tracks(ps) == decode_tracks(ps.take(j)),
    decreases ps.len() - j,
{
    if j < ps.len() {
        let q = ps.take(j + 1);
        assert(q.drop_last() =~= ps.take(j));
        lemma_decode_tracks_prefix_err(ps, j + 1);
    } else {
        assert(ps.take(j) =~= ps);
    }
}

impl MIDIFile {
    /// Decodes the file in `data`: its header, then the messages of each
    /// track chunk that the header counts. Chunks of other types between
    /// them are skipped.
    pub fn from_bytes(data: &[u8]) -> (r: Result<MIDIFile, DecodeError>)
        ensures
            match decode_file(data@) {
                Ok(f) => r matches Ok(m) && m@ == f,
                Err(e) => r matches Err(x) && x == e,
            },
    {
        let mut fi = match MIDIFileIter::from_bytes(data) {
            Ok(fi) => fi,
            Err(e) => return Err(e),
        };
        let n = fi.track_num;
        let len = data.len();
        let ghost all = data@.subrange(14, len as int);
        let mut iters: Vec<MIDIMessageIter> = Vec::new();
        let ghost mut ps: Seq<Seq<u8>> = seq![];
        let mut i: u16 = 0;
        while i < n
            invariant
                0 <= i <= n,
                len == data@.len(),
                all == data@.subrange(14, len as int),
                fi.track_num == n,
                header_of(data@) == Ok::<(MIDIFormat, u16, u16), DecodeError>((fi.format, n, fi.division)),
                scan_wf(fi.track_iter@),
                fi.track_iter@.data == data@,
                fi.track_iter@.remaining == n - i,
                14 <= fi.track_iter@.offset <= len,
                ps.len() == i,
                iters@.len() == i,
                forall|j: int| 0 <= j < i ==> #[trigger] iters@[j]@ == start_cursor(ps[j], ps[j].len()),
                track_chunks(all, n as nat) == (match track_chunks(
                    data@.subrange(fi.track_iter@.offset as int, len as int),
                    (n - i) as nat,
                ) {
                    Some(rest) => Some(ps + rest),
                    None => None,
                }),
            decreases n - i,
        {
            let ghost old_off = fi.track_iter@.offset;
            let ghost cur = data@.subrange(old_off as int, len as int);
            proof {
                lemma_next_track_len(cur);
            }
            match fi.track_iter.next() {
                Ok(Some(it)) => {
                    proof {
                        let (p, k) = next_track(cur).unwrap();
                        assert(cur.subrange(k as int, cur.len() as int) =~= data@.subrange(
                            (old_off + k) as int,
                            len as int,
                        ));
                        if let Some(rest) = track_chunks(data@.subrange(fi.track_iter@.offset as int, len as int), (n - i - 1) as nat) {
                            assert(ps + (seq![p] + rest) =~= ps.push(p) + rest);
                        }
                        ps = ps.push(p);
                    }
                    iters.push(it);
                    i = i + 1;
                },
                Ok(None) => {
                    return Err(DecodeError::MalformedContainer);
                },
                Err(e) => {
                    assert(track_chunks(cur, (n - i) as nat) is None);
                    assert(track_chunks(all, n as nat) is None);
                    assert(decode_file(data@) == Err::<FileView, DecodeError>(DecodeError::MalformedContainer));
                    return Err(e);
                },
            }
        }
        assert(ps + seq![] =~= ps);
        let mut track: Vec<MIDITrack> = Vec::new();
        assert(ps.take(0) =~= seq![]);
        assert(track@.map_values(|t: MIDITrack| t@) =~= seq![]);
        let mut j: usize = 0;
        while j < iters.len()
            invariant
                0 <= j <= iters@.len(),
                iters@.len() == ps.len(),
                header_of(data@) == Ok::<(MIDIFormat, u16, u16), DecodeError>((fi.format, n, fi.division)),
                track_chunks(all, n as nat) == Some(ps),
                len == data@.len(),
                all == data@.subrange(14, len as int),
                forall|q: int| j <= q < iters@.len() ==> #[trigger] iters@[q]@ == start_cursor(ps[q], ps[q].len()),
                decode_tracks(ps.take(j as int)) == Ok::<Seq<Seq<MessageView>>, DecodeError>(
                    track@.map_values(|t: MIDITrack| t@),
                ),
            decreases iters@.len() - j,
        {
            assert(ps.take(j + 1).drop_last() =~= ps.take(j as int));
            let res = iters[j].read_all();
            match res {
                Ok(message) => {
                    let ghost before = track@;
                    track.push(MIDITrack { message });
                    assert(track@.map_values(|t: MIDITrack| t@) =~= before.map_values(|t: MIDITrack| t@).push(
                        messages_view(message@)));
                },
                Err(e) => {
                    proof {
                        assert(decode_tracks(ps.take(j + 1)) == Err::<Seq<Seq<MessageView>>, DecodeError>(e));
                        lemma_decode_tracks_prefix_err(ps, j + 1);
                        assert(decode_tracks(ps) == Err::<Seq<Seq<MessageView>>, DecodeError>(e));
                        assert(decode_file(data@) == Err::<FileView, DecodeError>(e));
                    }
                    return Err(e);
                },
            }
            j = j + 1;
        }
        assert(ps.take(ps.len() as int) =~= ps);
        Ok(MIDIFile { format: fi.format, track_num: n, division: fi.division, track })
    }

    /// Format, track count and division from the body of a header chunk.
    pub fn parse_mthd(data: &[u8]) -> (r: Result<(MIDIFormat, u16, u16), DecodeError>)
        ensures
            r == header_body(data@),
    {
        if data.len() < 6 {
            return Err(DecodeError::MalformedContainer);
        }
        let format: u16 = (data[0] as u16) * 0x100 + data[1] as u16;
        let track_num: u16 = (data[2] as u16) * 0x100 + data[3] as u16;
        let division: u16 = (data[4] as u16) * 0x100 + data[5] as u16;
        let f = if format == 0 {
            MIDIFormat::SingleTrack
        } else if format == 1 {
            MIDIFormat::MultiTrack
        } else if format == 2 {
            MIDIFormat::MultiSong
        } else {
            return Err(DecodeError::MalformedContainer);
        };
        Ok((f, track_num, division))
    }
}

} // verus!
