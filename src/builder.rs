//! How the messages of a track become notes, controller values, a name and
//! entries of the tempo, time-signature and key-signature timelines. Each
//! step is stated as a fold over the first `n` messages of a track.
use vstd::prelude::*;
use crate::io::messages_view;
use vstd::utf8::{decode_utf8, valid_utf8};
use crate::message::{EventStatus, MIDIMessage, MessageView, MetaStatus, key_of, meta_value_of, pow2, tempo_of};
use crate::sequence::{
    ControlChange, ControlGroup, DEFAULT_TEMPO, KeySignature, Note, Tempo, TimeSignature, Track,
    TrackView, groups_view,
};

verus! {

// What the builder reads from a message.

pub open spec fn msg_time(m: MessageView) -> u32 {
    match m {
        MessageView::Event { time, .. } => time,
        MessageView::Meta { time, .. } => time,
    }
}

pub open spec fn msg_data(m: MessageView) -> Seq<u8> {
    match m {
        MessageView::Event { data, .. } => data,
        MessageView::Meta { data, .. } => data,
    }
}

pub open spec fn is_event(m: MessageView, s: EventStatus) -> bool {
    m matches MessageView::Event { status, .. } && status == s
}

pub open spec fn is_meta(m: MessageView, s: MetaStatus) -> bool {
    m matches MessageView::Meta { status, .. } && status == s
}

pub open spec fn chan(m: MessageView) -> int {
    msg_data(m)[0] as int % 16
}

/// A note-on of nonzero velocity: it opens a note.
pub open spec fn is_note_on(m: MessageView) -> bool {
    is_event(m, EventStatus::NoteOn) && msg_data(m)[2] != 0
}

/// A note-off, or a note-on of velocity zero: it closes a note.
pub open spec fn is_note_off(m: MessageView) -> bool {
    is_event(m, EventStatus::NoteOff) || (is_event(m, EventStatus::NoteOn) && msg_data(m)[2] == 0)
}

// The timelines.

/// The tempo that a tempo event states, or the default where its value is
/// short or zero.
pub open spec fn tempo_value(m: MessageView) -> u32 {
    let v = meta_value_of(msg_data(m));
    if v.len() >= 3 && tempo_of(v) != 0 {
        tempo_of(v)
    } else {
        DEFAULT_TEMPO
    }
}

pub open spec fn time_signature_value(m: MessageView) -> (u8, u8) {
    let v = meta_value_of(msg_data(m));
    if v.len() >= 4 && v[1] < 8 {
        (v[0], pow2(v[1] as nat) as u8)
    } else {
        (4, 4)
    }
}

/// The key that a key-signature event states, or C major where it states none.
pub open spec fn key_value(m: MessageView) -> (bool, i8) {
    match key_of(MetaStatus::KeySignature, msg_data(m)) {
        Some(k) => k,
        None => (true, 0),
    }
}

/// The tempo changes among the first `n` messages of a track, in order.
pub open spec fn tempo_events(ms: Seq<MessageView>, n: int) -> Seq<Tempo>
    decreases n,
{
    if n <= 0 {
        seq![]
    } else if is_meta(ms[n - 1], MetaStatus::SetTempo) {
        tempo_events(ms, n - 1).push(Tempo { time: msg_time(ms[n - 1]), tempo: tempo_value(ms[n - 1]) })
    } else {
        tempo_events(ms, n - 1)
    }
}

pub open spec fn time_signature_events(ms: Seq<MessageView>, n: int) -> Seq<TimeSignature>
    decreases n,
{
    if n <= 0 {
        seq![]
    } else if is_meta(ms[n - 1], MetaStatus::TimeSignature) {
        time_signature_events(ms, n - 1).push(
            TimeSignature {
                time: msg_time(ms[n - 1]),
                numerator: time_signature_value(ms[n - 1]).0,
                denominator: time_signature_value(ms[n - 1]).1,
            },
        )
    } else {
        time_signature_events(ms, n - 1)
    }
}

pub open spec fn key_signature_events(ms: Seq<MessageView>, n: int) -> Seq<KeySignature>
    decreases n,
{
    if n <= 0 {
        seq![]
    } else if is_meta(ms[n - 1], MetaStatus::KeySignature) {
        key_signature_events(ms, n - 1).push(
            KeySignature { time: msg_time(ms[n - 1]), key: key_value(ms[n - 1]) },
        )
    } else {
        key_signature_events(ms, n - 1)
    }
}

/// The tempo changes of the first `i` tracks, track after track.
pub open spec fn all_tempos(ts: Seq<Seq<MessageView>>, i: int) -> Seq<Tempo>
    decreases i,
{
    if i <= 0 {
        seq![]
    } else {
        all_tempos(ts, i - 1) + tempo_events(ts[i - 1], ts[i - 1].len() as int)
    }
}

pub open spec fn all_time_signatures(ts: Seq<Seq<MessageView>>, i: int) -> Seq<TimeSignature>
    decreases i,
{
    if i <= 0 {
        seq![]
    } else {
        all_time_signatures(ts, i - 1) + time_signature_events(ts[i - 1], ts[i - 1].len() as int)
    }
}

pub open spec fn all_key_signatures(ts: Seq<Seq<MessageView>>, i: int) -> Seq<KeySignature>
    decreases i,
{
    if i <= 0 {
        seq![]
    } else {
        all_key_signatures(ts, i - 1) + key_signature_events(ts[i - 1], ts[i - 1].len() as int)
    }
}

/// `s`, with the default tempo at time 0 in front where `s` has no change
/// at time 0.
pub open spec fn with_default_tempo(s: Seq<Tempo>) -> Seq<Tempo> {
    if s.len() == 0 || s[0].time > 0 {
        seq![Tempo { time: 0, tempo: DEFAULT_TEMPO }] + s
    } else {
        s
    }
}

/// Appends the tempo, time-signature and key-signature events of a track to
/// the three timelines.
pub(crate) fn collect_timelines(
    ms: &Vec<MIDIMessage>,
    tempos: &mut Vec<Tempo>,
    time_signatures: &mut Vec<TimeSignature>,
    key_signatures: &mut Vec<KeySignature>,
)
    ensures
        final(tempos)@ == old(tempos)@ + tempo_events(
            messages_view(ms@),
            ms@.len() as int,
        ),
        final(time_signatures)@ == old(time_signatures)@ + time_signature_events(
            messages_view(ms@),
            ms@.len() as int,
        ),
        final(key_signatures)@ == old(key_signatures)@ + key_signature_events(
            messages_view(ms@),
            ms@.len() as int,
        ),
{
    let ghost mv = messages_view(ms@);
    let mut i: usize = 0;
    while i < ms.len()
        invariant
            0 <= i <= ms@.len(),
            mv == messages_view(ms@),
            tempos@ == old(tempos)@ + tempo_events(mv, i as int),
            time_signatures@ == old(time_signatures)@ + time_signature_events(mv, i as int),
            key_signatures@ == old(key_signatures)@ + key_signature_events(mv, i as int),
        decreases ms@.len() - i,
    {
        let ghost m = mv[i as int];
        assert(m == ms@[i as int]@);
        match &ms[i] {
            MIDIMessage::Meta(meta) => {
                match meta.status {
                    MetaStatus::SetTempo => {
                        let tempo = match meta.tempo() {
                            Some(t) => if t != 0 {
                                t
                            } else {
                                DEFAULT_TEMPO
                            },
                            None => DEFAULT_TEMPO,
                        };
                        tempos.push(Tempo { time: meta.time, tempo });
                    },
                    MetaStatus::TimeSignature => {
                        let (numerator, denominator) = match meta.time_signature() {
                            Some(t) => (t.0, t.1),
                            None => (4, 4),
                        };
                        time_signatures.push(TimeSignature { time: meta.time, numerator, denominator });
                    },
                    MetaStatus::KeySignature => {
                        let key = match meta.key() {
                            Some(k) => k,
                            None => (true, 0),
                        };
                        key_signatures.push(KeySignature { time: meta.time, key });
                    },
                    _ => {},
                }
            },
            MIDIMessage::Event(_) => {},
        }
        assert(tempos@ =~= old(tempos)@ + tempo_events(mv, i + 1));
        assert(time_signatures@ =~= old(time_signatures)@ + time_signature_events(mv, i + 1));
        assert(key_signatures@ =~= old(key_signatures)@ + key_signature_events(mv, i + 1));
        i = i + 1;
    }
}

// The notes and controllers of one track.

pub open spec fn key_of_msg(m: MessageView) -> int {
    msg_data(m)[1] as int
}

/// Start time and velocity of the note open on channel `c` and key `p` after
/// the first `n` messages of a track; velocity 0 where none is open.
pub open spec fn open_at(ms: Seq<MessageView>, n: int, c: int, p: int) -> (u32, u8)
    decreases n,
{
    if n <= 0 {
        (0, 0)
    } else {
        let m = ms[n - 1];
        let prev = open_at(ms, n - 1, c, p);
        if chan(m) == c && key_of_msg(m) == p && is_note_on(m) {
            (msg_time(m), msg_data(m)[2])
        } else if chan(m) == c && key_of_msg(m) == p && is_note_off(m) {
            (prev.0, 0)
        } else {
            prev
        }
    }
}

/// With no note-on for channel `c` and key `p` among the first `n` messages,
/// no note is open there.
pub proof fn lemma_nothing_open(ms: Seq<MessageView>, n: int, c: int, p: int)
    requires
        n <= ms.len(),
        forall|j: int| 0 <= j < n ==> !(is_note_on(#[trigger] ms[j]) && chan(ms[j]) == c && key_of_msg(ms[j]) == p),
    ensures
        open_at(ms, n, c, p).1 == 0,
    decreases n,
{
    if n > 0 {
        lemma_nothing_open(ms, n - 1, c, p);
    }
}

/// A note-off with no note-on before it for its channel and key closes no
/// note: the track gets no note from it, and nothing fails.
pub proof fn lemma_orphaned_note_off(ms: Seq<MessageView>, k: int)
    requires
        0 <= k < ms.len(),
        is_note_off(ms[k]),
        forall|j: int|
            0 <= j < k ==> !(is_note_on(#[trigger] ms[j]) && chan(ms[j]) == chan(ms[k]) && key_of_msg(ms[j])
                == key_of_msg(ms[k])),
    ensures
        !closes(ms, k),
        forall|c: int| notes_upto(ms, k + 1, c) == #[trigger] notes_upto(ms, k, c),
{
    lemma_nothing_open(ms, k, chan(ms[k]), key_of_msg(ms[k]));
}

/// A note-on of key 60 and velocity 80 at tick 0, then a note-off of key 60
/// (a note-off, or a note-on of velocity 0) at tick `t`, on channel `c`,
/// give the channel exactly one note: key 60, start 0, duration `t`,
/// velocity 80.
pub proof fn lemma_note_pairing(c: u8, t: u32, off_is_note_on: bool, off_velocity: u8)
    requires
        c < 16,
        off_is_note_on ==> off_velocity == 0,
    ensures
        ({
            let on = MessageView::Event {
                time: 0,
                status: EventStatus::NoteOn,
                data: crate::message::event_bytes((0x90 + c) as u8, 3, seq![60u8, 80u8]),
            };
            let off = MessageView::Event {
                time: t,
                status: if off_is_note_on { EventStatus::NoteOn } else { EventStatus::NoteOff },
                data: crate::message::event_bytes(
                    (if off_is_note_on { 0x90 + c } else { 0x80 + c }) as u8,
                    3,
                    seq![60u8, off_velocity],
                ),
            };
            let ms = seq![on, off];
            &&& notes_upto(ms, 2, c as int) == seq![Note { pitch: 60, start: 0, duration: t, velocity: 80 }]
            &&& forall|other: int| 0 <= other < 16 && other != c ==> notes_upto(ms, 2, other).len() == 0
        }),
{
    let on = MessageView::Event {
        time: 0,
        status: EventStatus::NoteOn,
        data: crate::message::event_bytes((0x90 + c) as u8, 3, seq![60u8, 80u8]),
    };
    let off = MessageView::Event {
        time: t,
        status: if off_is_note_on { EventStatus::NoteOn } else { EventStatus::NoteOff },
        data: crate::message::event_bytes(
            (if off_is_note_on { 0x90 + c } else { 0x80 + c }) as u8,
            3,
            seq![60u8, off_velocity],
        ),
    };
    let ms = seq![on, off];
    reveal_with_fuel(notes_upto, 3);
    assert(chan(on) == c as int);
    assert(chan(off) == c as int);
    assert(key_of_msg(on) == 60 && key_of_msg(off) == 60);
    assert(is_note_on(on));
    assert(is_note_off(off));
    assert(open_at(ms, 1, c as int, 60) == (0u32, 80u8));
    assert(closes(ms, 1));
    assert(notes_upto(ms, 1, c as int) =~= seq![]);
    assert(notes_upto(ms, 2, c as int) =~= seq![Note { pitch: 60, start: 0, duration: t, velocity: 80 }]);
}

/// Message `k` closes an open note.
pub open spec fn closes(ms: Seq<MessageView>, k: int) -> bool {
    is_note_off(ms[k]) && open_at(ms, k, chan(ms[k]), key_of_msg(ms[k])).1 != 0
}

/// The note that message `k` closes.
pub open spec fn closed_note(ms: Seq<MessageView>, k: int) -> Note {
    let o = open_at(ms, k, chan(ms[k]), key_of_msg(ms[k]));
    let t = msg_time(ms[k]);
    Note {
        pitch: key_of_msg(ms[k]) as u8,
        start: o.0,
        duration: if t >= o.0 { (t - o.0) as u32 } else { 0 },
        velocity: o.1,
    }
}

/// The notes of channel `c` that the first `n` messages close, in order.
pub open spec fn notes_upto(ms: Seq<MessageView>, n: int, c: int) -> Seq<Note>
    decreases n,
{
    if n <= 0 {
        seq![]
    } else if closes(ms, n - 1) && chan(ms[n - 1]) == c {
        notes_upto(ms, n - 1, c).push(closed_note(ms, n - 1))
    } else {
        notes_upto(ms, n - 1, c)
    }
}

/// The program of channel `c` after the first `n` messages: that of the last
/// program change, 0 before any.
pub open spec fn program_at(ms: Seq<MessageView>, n: int, c: int) -> u8
    decreases n,
{
    if n <= 0 {
        0
    } else if is_event(ms[n - 1], EventStatus::ProgramChange) && chan(ms[n - 1]) == c {
        msg_data(ms[n - 1])[1]
    } else {
        program_at(ms, n - 1, c)
    }
}

/// Message `k` gives channel `c` a track: a control change, or a note closed.
pub open spec fn uses(ms: Seq<MessageView>, k: int, c: int) -> bool {
    chan(ms[k]) == c && (is_event(ms[k], EventStatus::ControlChange) || closes(ms, k))
}

/// The program of channel `c` when the first `n` messages first used it;
/// `None` while they have not.
pub open spec fn first_program(ms: Seq<MessageView>, n: int, c: int) -> Option<u8>
    decreases n,
{
    if n <= 0 {
        None
    } else if first_program(ms, n - 1, c) is Some {
        first_program(ms, n - 1, c)
    } else if uses(ms, n - 1, c) {
        Some(program_at(ms, n - 1, c))
    } else {
        None
    }
}

/// The values of controller `k` on channel `c` among the first `n` messages.
pub open spec fn controls_upto(ms: Seq<MessageView>, n: int, c: int, k: int) -> Seq<ControlChange>
    decreases n,
{
    if n <= 0 {
        seq![]
    } else if is_event(ms[n - 1], EventStatus::ControlChange) && chan(ms[n - 1]) == c
        && msg_data(ms[n - 1])[1] == k {
        controls_upto(ms, n - 1, c, k).push(
            ControlChange { time: msg_time(ms[n - 1]), value: msg_data(ms[n - 1])[2] },
        )
    } else {
        controls_upto(ms, n - 1, c, k)
    }
}

/// The value of the last track-name event among the first `n` messages.
pub open spec fn name_upto(ms: Seq<MessageView>, n: int) -> Option<Seq<u8>>
    decreases n,
{
    if n <= 0 {
        None
    } else if is_meta(ms[n - 1], MetaStatus::TrackName) {
        Some(meta_value_of(msg_data(ms[n - 1])))
    } else {
        name_upto(ms, n - 1)
    }
}

proof fn lemma_slot(c: int, p: int, c2: int, q: int)
    requires
        0 <= c < 16,
        0 <= p < 256,
        0 <= c2 < 16,
        0 <= q < 256,
    ensures
        0 <= c * 256 + p < 4096,
        (c * 256 + p == c2 * 256 + q) == (c == c2 && p == q),
{
    assert(0 <= c * 256 + p < 4096) by (nonlinear_arith)
        requires
            0 <= c < 16,
            0 <= p < 256,
    ;
    if c * 256 + p == c2 * 256 + q {
        assert(c == c2 && p == q) by (nonlinear_arith)
            requires
                c * 256 + p == c2 * 256 + q,
                0 <= p < 256,
                0 <= q < 256,
        ;
    }
}

/// What the builder keeps while it reads one track.
pub(crate) struct Scan {
    /// Per channel and key (at `c * 256 + p`): start and velocity of the open note.
    pub(crate) open: Vec<(u32, u8)>,
    pub(crate) programs: Vec<u8>,
    pub(crate) first: Vec<Option<u8>>,
    pub(crate) notes: Vec<Vec<Note>>,
    /// Per channel and controller (at `c * 256 + k`).
    pub(crate) controls: Vec<Vec<ControlChange>>,
    pub(crate) name: Option<Vec<u8>>,
}

/// The scan holds what the first `n` messages of `ms` give.
pub(crate) open spec fn scan_holds(s: Scan, ms: Seq<MessageView>, n: int) -> bool {
    &&& s.open@.len() == 4096
    &&& s.programs@.len() == 16
    &&& s.first@.len() == 16
    &&& s.notes@.len() == 16
    &&& s.controls@.len() == 4096
    &&& forall|c: int, p: int|
        0 <= c < 16 && 0 <= p < 256 ==> s.open@[c * 256 + p] == #[trigger] open_at(ms, n, c, p)
    &&& forall|c: int|
        0 <= c < 16 ==> s.programs@[c] == #[trigger] program_at(ms, n, c)
    &&& forall|c: int|
        0 <= c < 16 ==> s.first@[c] == #[trigger] first_program(ms, n, c)
    &&& forall|c: int|
        0 <= c < 16 ==> s.notes@[c]@ == #[trigger] notes_upto(ms, n, c)
    &&& forall|c: int, k: int|
        0 <= c < 16 && 0 <= k < 256 ==> s.controls@[c * 256 + k]@ == #[trigger] controls_upto(ms, n, c, k)
    &&& match s.name {
        Some(v) => name_upto(ms, n) == Some(v@),
        None => name_upto(ms, n) is None,
    }
}

/// A vector of `n` copies of `x`.
fn filled<T: Copy>(x: T, n: usize) -> (r: Vec<T>)
    ensures
        r@ == Seq::new(n as nat, |i: int| x),
{
    let mut r: Vec<T> = Vec::new();
    let mut i: usize = 0;
    while i < n
        invariant
            0 <= i <= n,
            r@ == Seq::new(i as nat, |j: int| x),
        decreases n - i,
    {
        r.push(x);
        i = i + 1;
        assert(r@ =~= Seq::new(i as nat, |j: int| x));
    }
    r
}

/// A vector of `n` empty vectors.
fn empty_lists<T>(n: usize) -> (r: Vec<Vec<T>>)
    ensures
        r@.len() == n,
        forall|i: int| 0 <= i < n ==> (#[trigger] r@[i])@.len() == 0,
{
    let mut r: Vec<Vec<T>> = Vec::new();
    let mut i: usize = 0;
    while i < n
        invariant
            0 <= i <= n,
            r@.len() == i,
            forall|j: int| 0 <= j < i ==> (#[trigger] r@[j])@.len() == 0,
        decreases n - i,
    {
        r.push(Vec::new());
        i = i + 1;
    }
    r
}

/// Reads one track: the notes that its note-offs close, the values of each
/// controller, the programs of its channels and its name.
#[verifier::rlimit(50)]
pub(crate) fn scan_track(ms: &Vec<MIDIMessage>) -> (s: Scan)
    ensures
        scan_holds(s, messages_view(ms@), ms@.len() as int),
{
    let ghost mv = messages_view(ms@);
    let mut s = Scan {
        open: filled((0u32, 0u8), 4096),
        programs: filled(0u8, 16),
        first: filled(None, 16),
        notes: empty_lists(16),
        controls: empty_lists(4096),
        name: None,
    };
    proof {
        assert forall|c: int, p: int| 0 <= c < 16 && 0 <= p < 256 implies s.open@[c * 256 + p]
            == #[trigger] open_at(mv, 0, c, p) by {
            lemma_slot(c, p, 0, 0);
        }
        assert forall|c: int| 0 <= c < 16 implies s.notes@[c]@ == #[trigger] notes_upto(mv, 0, c) by {
            assert(s.notes@[c]@ =~= seq![]);
        }
        assert forall|c: int, k: int| 0 <= c < 16 && 0 <= k < 256 implies s.controls@[c * 256 + k]@
            == #[trigger] controls_upto(mv, 0, c, k) by {
            lemma_slot(c, k, 0, 0);
            assert(s.controls@[c * 256 + k]@ =~= seq![]);
        }
    }
    let mut i: usize = 0;
    while i < ms.len()
        invariant
            0 <= i <= ms@.len(),
            mv == messages_view(ms@),
            scan_holds(s, mv, i as int),
        decreases ms@.len() - i,
    {
        let ghost m = mv[i as int];
        let ghost s0 = s;
        assert(m == ms@[i as int]@);
        match &ms[i] {
            MIDIMessage::Event(e) => {
                let c: usize = (e.data[0] % 16) as usize;
                match e.status {
                    EventStatus::ProgramChange => {
                        s.programs.set(c, e.data[1]);
                    },
                    EventStatus::ControlChange => {
                        let k: usize = e.data[1] as usize;
                        if s.first[c].is_none() {
                            let pg = s.programs[c];
                            s.first.set(c, Some(pg));
                        }
                        proof {
                            lemma_slot(c as int, k as int, 0, 0);
                        }
                        s.controls[c * 256 + k].push(ControlChange { time: e.time, value: e.data[2] });
                    },
                    EventStatus::NoteOn | EventStatus::NoteOff => {
                        let p: usize = e.data[1] as usize;
                        let vel = e.data[2];
                        proof {
                            lemma_slot(c as int, p as int, 0, 0);
                        }
                        let idx: usize = c * 256 + p;
                        if vel == 0 || e.status == EventStatus::NoteOff {
                            let (start, on_vel) = s.open[idx];
                            if on_vel != 0 {
                                if s.first[c].is_none() {
                                    let pg = s.programs[c];
                                    s.first.set(c, Some(pg));
                                }
                                let duration: u32 = if e.time >= start {
                                    e.time - start
                                } else {
                                    0
                                };
                                s.notes[c].push(
                                    Note { pitch: e.data[1], start, duration, velocity: on_vel },
                                );
                            }
                            s.open.set(idx, (start, 0));
                        } else {
                            s.open.set(idx, (e.time, vel));
                        }
                    },
                    _ => {},
                }
            },
            MIDIMessage::Meta(meta) => {
                if meta.status == MetaStatus::TrackName {
                    s.name = Some(vstd::slice::slice_to_vec(meta.meta_value()));
                }
            },
        }
        proof {
            let n = i as int;
            let is_ev = m is Event;
            assert forall|c: int| 0 <= c < 16 implies s.programs@[c] == #[trigger] program_at(mv, n + 1, c) by {
                assert(s0.programs@[c] == program_at(mv, n, c));
            }
            assert forall|c: int| 0 <= c < 16 implies s.first@[c] == #[trigger] first_program(mv, n + 1, c) by {
                assert(s0.first@[c] == first_program(mv, n, c));
                assert(s0.programs@[c] == program_at(mv, n, c));
                if is_ev {
                    assert(s0.open@[chan(m) * 256 + key_of_msg(m)] == open_at(mv, n, chan(m), key_of_msg(m)));
                }
            }
            assert forall|c: int| 0 <= c < 16 implies s.notes@[c]@ == #[trigger] notes_upto(mv, n + 1, c) by {
                assert(s0.notes@[c]@ == notes_upto(mv, n, c));
                if is_ev {
                    assert(s0.open@[chan(m) * 256 + key_of_msg(m)] == open_at(mv, n, chan(m), key_of_msg(m)));
                }
            }
            assert forall|c: int, p: int| 0 <= c < 16 && 0 <= p < 256 implies s.open@[c * 256 + p]
                == #[trigger] open_at(mv, n + 1, c, p) by {
                assert(s0.open@[c * 256 + p] == open_at(mv, n, c, p));
                if is_ev {
                    lemma_slot(c, p, chan(m), key_of_msg(m));
                }
            }
            assert forall|c: int, k: int| 0 <= c < 16 && 0 <= k < 256 implies s.controls@[c * 256 + k]@
                == #[trigger] controls_upto(mv, n + 1, c, k) by {
                assert(s0.controls@[c * 256 + k]@ == controls_upto(mv, n, c, k));
                if is_ev {
                    lemma_slot(c, k, chan(m), key_of_msg(m));
                }
            }
        }
        i = i + 1;
    }
    s
}

/// Relies on `String::from_utf8`: the text that the bytes encode, where
/// they are valid UTF-8; `None` where they are not.
#[verifier::external_body]
fn text_of_opt(bytes: Vec<u8>) -> (r: Option<String>)
    ensures
        r.is_some() == valid_utf8(bytes@),
        r.is_some() ==> r.unwrap()@ == decode_utf8(bytes@),
{
    match String::from_utf8(bytes) {
        Ok(s) => Some(s),
        Err(_) => None,
    }
}

/// The name that the bytes of a track-name event give: their text where
/// they are valid UTF-8, else the empty name.
pub open spec fn name_text(b: Seq<u8>) -> Seq<char> {
    if valid_utf8(b) {
        decode_utf8(b)
    } else {
        seq![]
    }
}

/// The name that the bytes of a track-name event give.
pub fn name_or_empty(bytes: Vec<u8>) -> (r: String)
    ensures
        r@ == name_text(bytes@),
{
    match text_of_opt(bytes) {
        Some(s) => s,
        None => String::new(),
    }
}

/// The controllers below `k` that channel `c` of a track sets, each with
/// its values, by controller number.
pub open spec fn groups_upto(ms: Seq<MessageView>, c: int, k: int) -> Seq<(u8, Seq<ControlChange>)>
    decreases k,
{
    if k <= 0 {
        seq![]
    } else if controls_upto(ms, ms.len() as int, c, k - 1).len() > 0 {
        groups_upto(ms, c, k - 1).push(((k - 1) as u8, controls_upto(ms, ms.len() as int, c, k - 1)))
    } else {
        groups_upto(ms, c, k - 1)
    }
}

/// The name of a track: the value of its last track-name event, or empty.
pub open spec fn track_name(ms: Seq<MessageView>) -> Seq<char> {
    match name_upto(ms, ms.len() as int) {
        Some(b) => name_text(b),
        None => seq![],
    }
}

/// The tracks of the channels below `c` that a track uses, by channel.
pub open spec fn channel_tracks(ms: Seq<MessageView>, c: int) -> Seq<TrackView>
    decreases c,
{
    if c <= 0 {
        seq![]
    } else {
        match first_program(ms, ms.len() as int, c - 1) {
            Some(pg) => channel_tracks(ms, c - 1).push(
                TrackView {
                    name: track_name(ms),
                    program: pg,
                    is_drum: c - 1 == 9,
                    notes: notes_upto(ms, ms.len() as int, c - 1),
                    controls: groups_upto(ms, c - 1, 256),
                },
            ),
            None => channel_tracks(ms, c - 1),
        }
    }
}

/// Takes the vector at `i` out of `v`, leaving an empty one.
fn take_at<T>(v: &mut Vec<Vec<T>>, i: usize) -> (r: Vec<T>)
    requires
        i < old(v)@.len(),
    ensures
        r == old(v)@[i as int],
        final(v)@.len() == old(v)@.len(),
        final(v)@[i as int]@.len() == 0,
        forall|j: int| 0 <= j < old(v)@.len() && j != i ==> final(v)@[j] == old(v)@[j],
{
    v.push(Vec::new());
    v.swap_remove(i)
}

/// The controllers that channel `c` of a scanned track sets, taken out of
/// the scan.
fn take_groups(controls: &mut Vec<Vec<ControlChange>>, c: usize, Ghost(ms): Ghost<Seq<MessageView>>) -> (r: Vec<ControlGroup>)
    requires
        c < 16,
        old(controls)@.len() == 4096,
        forall|c2: int, k: int|
            c <= c2 < 16 && 0 <= k < 256 ==> old(controls)@[c2 * 256 + k]@ == #[trigger] controls_upto(
                ms,
                ms.len() as int,
                c2,
                k,
            ),
    ensures
        groups_view(r@) == groups_upto(ms, c as int, 256),
        final(controls)@.len() == 4096,
        forall|c2: int, k: int|
            c < c2 < 16 && 0 <= k < 256 ==> final(controls)@[c2 * 256 + k]@ == #[trigger] controls_upto(
                ms,
                ms.len() as int,
                c2,
                k,
            ),
{
    let mut r: Vec<ControlGroup> = Vec::new();
    let mut k: usize = 0;
    while k < 256
        invariant
            0 <= k <= 256,
            c < 16,
            controls@.len() == 4096,
            groups_view(r@) == groups_upto(ms, c as int, k as int),
            forall|c2: int, k2: int|
                (c < c2 < 16 || (c2 == c && k <= k2)) && 0 <= k2 < 256 ==> controls@[c2 * 256 + k2]@
                    == #[trigger] controls_upto(ms, ms.len() as int, c2, k2),
        decreases 256 - k,
    {
        proof {
            lemma_slot(c as int, k as int, 0, 0);
        }
        let idx: usize = c * 256 + k;
        let ghost before = controls@;
        assert(controls@[idx as int]@ == controls_upto(ms, ms.len() as int, c as int, k as int));
        if controls[idx].len() > 0 {
            let changes = take_at(controls, idx);
            let ghost rv = r@;
            r.push(ControlGroup { controller: k as u8, changes });
            assert(groups_view(r@) =~= groups_view(rv).push((k as u8, changes@)));
        }
        proof {
            assert forall|c2: int, k2: int|
                (c < c2 < 16 || (c2 == c && k + 1 <= k2)) && 0 <= k2 < 256 implies controls@[c2 * 256 + k2]@
                    == #[trigger] controls_upto(ms, ms.len() as int, c2, k2) by {
                lemma_slot(c2, k2, c as int, k as int);
                assert(before[c2 * 256 + k2]@ == controls_upto(ms, ms.len() as int, c2, k2));
            }
        }
        k = k + 1;
    }
    r
}

/// The tracks of the channels of a scanned track.
pub(crate) fn channel_tracks_of(s: Scan, Ghost(ms): Ghost<Seq<MessageView>>) -> (r: Vec<Track>)
    requires
        scan_holds(s, ms, ms.len() as int),
    ensures
        r@.map_values(|t: Track| t@) == channel_tracks(ms, 16),
{
    let name = match s.name {
        Some(b) => name_or_empty(b),
        None => String::new(),
    };
    assert(name@ == track_name(ms));
    let mut notes = s.notes;
    let mut controls = s.controls;
    let mut out: Vec<Track> = Vec::new();
    let mut c: usize = 0;
    while c < 16
        invariant
            0 <= c <= 16,
            name@ == track_name(ms),
            s.first@.len() == 16,
            forall|c2: int| 0 <= c2 < 16 ==> s.first@[c2] == #[trigger] first_program(ms, ms.len() as int, c2),
            notes@.len() == 16,
            forall|c2: int| c <= c2 < 16 ==> notes@[c2]@ == #[trigger] notes_upto(ms, ms.len() as int, c2),
            controls@.len() == 4096,
            forall|c2: int, k: int|
                c <= c2 < 16 && 0 <= k < 256 ==> controls@[c2 * 256 + k]@ == #[trigger] controls_upto(
                    ms,
                    ms.len() as int,
                    c2,
                    k,
                ),
            out@.map_values(|t: Track| t@) == channel_tracks(ms, c as int),
        decreases 16 - c,
    {
        let ghost ov = out@;
        assert(s.first@[c as int] == first_program(ms, ms.len() as int, c as int));
        match s.first[c] {
            Some(pg) => {
                assert(notes@[c as int]@ == notes_upto(ms, ms.len() as int, c as int));
                let nv = take_at(&mut notes, c);
                let groups = take_groups(&mut controls, c, Ghost(ms));
                out.push(Track { name: name.clone(), program: pg, is_drum: c == 9, notes: nv, controls: groups });
                assert(out@.map_values(|t: Track| t@) =~= ov.map_values(|t: Track| t@).push(
                    out@.last()@,
                ));
            },
            None => {
                proof {
                    assert forall|c2: int, k: int|
                        c + 1 <= c2 < 16 && 0 <= k < 256 implies controls@[c2 * 256 + k]@ == #[trigger] controls_upto(
                            ms,
                            ms.len() as int,
                            c2,
                            k,
                        ) by {
                    }
                }
            },
        }
        c = c + 1;
    }
    out
}

} // verus!
