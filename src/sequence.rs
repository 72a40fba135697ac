//! The decoded sequence: its types, the build from a decoded file, and the
//! operations on the result.
use vstd::prelude::*;
use crate::io::{DecodeError, FileView, MIDIFile, decode_file};
use crate::builder::{
    all_key_signatures, all_tempos, all_time_signatures, channel_tracks, channel_tracks_of,
    collect_timelines, is_meta, scan_track, tempo_events, with_default_tempo,
};
use crate::message::{MessageView, MetaStatus};
use crate::timeline::{Timed, lemma_sort_by_time, sort_by_time, sort_timeline, sorted_by_time};

verus! {

/// Tempo, in microseconds per quarter note, where a file states none (120
/// quarter notes per minute).
pub const DEFAULT_TEMPO: u32 = 500000;

/// A note: its pitch, start and duration in ticks, and velocity.
#[derive(PartialEq, Eq, Structural, Copy, Clone, Debug)]
pub struct Note {
    pub pitch: u8,
    pub start: u32,
    pub duration: u32,
    pub velocity: u8,
}

/// One value of a controller, at a time in ticks.
#[derive(PartialEq, Eq, Structural, Copy, Clone, Debug)]
pub struct ControlChange {
    pub time: u32,
    pub value: u8,
}

#[derive(PartialEq, Eq, Structural, Copy, Clone, Debug)]
pub struct TimeSignature {
    pub time: u32,
    pub numerator: u8,
    pub denominator: u8,
}

/// A key: `true` for major, and the signed count of sharps (negative for flats).
#[derive(Copy, Clone, Debug, PartialEq, Eq)]
pub struct KeySignature {
    pub time: u32,
    pub key: (bool, i8),
}

/// A tempo change: from `time` on, `tempo` microseconds per quarter note.
#[derive(PartialEq, Eq, Structural, Copy, Clone, Debug)]
pub struct Tempo {
    pub time: u32,
    pub tempo: u32,
}

/// A note stands at its start.
impl Timed for Note {
    open spec fn spec_time(&self) -> u32 {
        self.start
    }

    fn time(&self) -> (r: u32) {
        self.start
    }
}

impl Timed for ControlChange {
    open spec fn spec_time(&self) -> u32 {
        self.time
    }

    fn time(&self) -> (r: u32) {
        self.time
    }
}

impl Note {
    /// Where the note ends, in ticks.
    pub fn end(&self) -> (r: u64)
        ensures
            r == self.start + self.duration,
    {
        self.start as u64 + self.duration as u64
    }
}

impl Timed for TimeSignature {
    open spec fn spec_time(&self) -> u32 {
        self.time
    }

    fn time(&self) -> (r: u32) {
        self.time
    }
}

impl Timed for KeySignature {
    open spec fn spec_time(&self) -> u32 {
        self.time
    }

    fn time(&self) -> (r: u32) {
        self.time
    }
}

impl Timed for Tempo {
    open spec fn spec_time(&self) -> u32 {
        self.time
    }

    fn time(&self) -> (r: u32) {
        self.time
    }
}

/// The values of one controller of a track, in order.
#[derive(Clone, Debug, PartialEq, Eq)]
pub struct ControlGroup {
    pub controller: u8,
    pub changes: Vec<ControlChange>,
}

/// The notes and controllers of one channel of one track of the file.
#[derive(Clone, Debug, PartialEq, Eq)]
pub struct Track {
    pub name: String,
    pub program: u8,
    pub is_drum: bool,
    pub notes: Vec<Note>,
    pub controls: Vec<ControlGroup>,
}

pub struct TrackView {
    pub name: Seq<char>,
    pub program: u8,
    pub is_drum: bool,
    pub notes: Seq<Note>,
    pub controls: Seq<(u8, Seq<ControlChange>)>,
}

pub open spec fn groups_view(g: Seq<ControlGroup>) -> Seq<(u8, Seq<ControlChange>)> {
    g.map_values(|x: ControlGroup| (x.controller, x.changes@))
}

impl View for Track {
    type V = TrackView;

    open spec fn view(&self) -> TrackView {
        TrackView {
            name: self.name@,
            program: self.program,
            is_drum: self.is_drum,
            notes: self.notes@,
            controls: groups_view(self.controls@),
        }
    }
}

/// A decoded file: the tracks of each channel of each track chunk, and the
/// three timelines. Times are in ticks; `ticks_per_quarter` turns them into
/// quarter notes.
#[derive(Clone, Debug, PartialEq, Eq)]
pub struct Sequence {
    pub ticks_per_quarter: u16,
    pub tracks: Vec<Track>,
    pub time_signatures: Vec<TimeSignature>,
    pub key_signatures: Vec<KeySignature>,
    pub qpm: Vec<Tempo>,
}

pub struct SequenceView {
    pub ticks_per_quarter: u16,
    pub tracks: Seq<TrackView>,
    pub time_signatures: Seq<TimeSignature>,
    pub key_signatures: Seq<KeySignature>,
    pub qpm: Seq<Tempo>,
}

impl View for Sequence {
    type V = SequenceView;

    open spec fn view(&self) -> SequenceView {
        SequenceView {
            ticks_per_quarter: self.ticks_per_quarter,
            tracks: self.tracks@.map_values(|t: Track| t@),
            time_signatures: self.time_signatures@,
            key_signatures: self.key_signatures@,
            qpm: self.qpm@,
        }
    }
}

/// The channel tracks of the first `i` tracks of a file, track after track.
pub open spec fn all_tracks(ts: Seq<Seq<MessageView>>, i: int) -> Seq<TrackView>
    decreases i,
{
    if i <= 0 {
        seq![]
    } else {
        all_tracks(ts, i - 1) + channel_tracks(ts[i - 1], 16)
    }
}

/// The tracks of `ts` that hold notes, in order.
pub open spec fn with_notes(ts: Seq<TrackView>) -> Seq<TrackView>
    decreases ts.len(),
{
    if ts.len() == 0 {
        ts
    } else if ts.last().notes.len() > 0 {
        with_notes(ts.drop_last()).push(ts.last())
    } else {
        with_notes(ts.drop_last())
    }
}

/// The sequence of a file with the tracks that hold no note left out, where
/// `keep_empty_tracks` is false.
pub open spec fn sequence_with(f: FileView, keep_empty_tracks: bool) -> Result<SequenceView, DecodeError> {
    match sequence_of(f) {
        Ok(v) => if keep_empty_tracks {
            Ok(v)
        } else {
            Ok(SequenceView { tracks: with_notes(v.tracks), ..v })
        },
        Err(e) => Err(e),
    }
}

/// The sequence that a decoded file gives; a division in SMPTE frames is
/// refused.
pub open spec fn sequence_of(f: FileView) -> Result<SequenceView, DecodeError> {
    let n = f.tracks.len() as int;
    if f.division >= 0x8000 {
        Err(DecodeError::UnsupportedTiming)
    } else {
        Ok(
            SequenceView {
                ticks_per_quarter: f.division,
                tracks: all_tracks(f.tracks, n),
                time_signatures: sort_by_time(all_time_signatures(f.tracks, n)),
                key_signatures: sort_by_time(all_key_signatures(f.tracks, n)),
                qpm: with_default_tempo(sort_by_time(all_tempos(f.tracks, n))),
            },
        )
    }
}

/// The sequence that a byte buffer decodes to.
pub open spec fn decode_sequence(buf: Seq<u8>) -> Result<SequenceView, DecodeError> {
    match decode_file(buf) {
        Ok(f) => sequence_of(f),
        Err(e) => Err(e),
    }
}

/// Each timeline is ordered by time, and a tempo stands at time 0.
pub open spec fn sequence_wf(v: SequenceView) -> bool {
    &&& sorted_by_time(v.time_signatures)
    &&& sorted_by_time(v.key_signatures)
    &&& sorted_by_time(v.qpm)
    &&& v.qpm.len() > 0
    &&& v.qpm[0].time == 0
}

/// Every sequence that a file gives has ordered timelines and a tempo at time 0.
pub proof fn lemma_sequence_wf(f: FileView)
    ensures
        sequence_of(f) matches Ok(v) ==> sequence_wf(v),
{
    let n = f.tracks.len() as int;
    lemma_sort_by_time(all_time_signatures(f.tracks, n));
    lemma_sort_by_time(all_key_signatures(f.tracks, n));
    let s = sort_by_time(all_tempos(f.tracks, n));
    lemma_sort_by_time(all_tempos(f.tracks, n));
    let q = with_default_tempo(s);
    if s.len() == 0 || s[0].time > 0 {
        assert forall|i: int, j: int| 0 <= i < j < q.len() implies q[i].spec_time() <= q[j].spec_time() by {
            if i > 0 {
                assert(q[i] == s[i - 1] && q[j] == s[j - 1]);
            }
        }
    }
}

impl Sequence {
    /// Builds the sequence of a decoded file: notes paired per channel and
    /// key, controller values per channel, and the sorted timelines with a
    /// default tempo at time 0 where the file sets none there. A division
    /// in SMPTE frames (top bit set) is refused.
    pub fn from_midi(midi: &MIDIFile) -> (r: Result<Sequence, DecodeError>)
        ensures
            match sequence_of(midi@) {
                Ok(v) => r matches Ok(s) && s@ == v && sequence_wf(v),
                Err(e) => r matches Err(x) && x == e,
            },
    {
        proof {
            lemma_sequence_wf(midi@);
        }
        if midi.division >= 0x8000 {
            return Err(DecodeError::UnsupportedTiming);
        }
        let ghost ts = midi@.tracks;
        let mut tracks: Vec<Track> = Vec::new();
        let mut tempos: Vec<Tempo> = Vec::new();
        let mut time_signatures: Vec<TimeSignature> = Vec::new();
        let mut key_signatures: Vec<KeySignature> = Vec::new();
        let mut i: usize = 0;
        while i < midi.track.len()
            invariant
                0 <= i <= midi.track@.len(),
                ts == midi@.tracks,
                ts.len() == midi.track@.len(),
                tracks@.map_values(|t: Track| t@) == all_tracks(ts, i as int),
                tempos@ == all_tempos(ts, i as int),
                time_signatures@ == all_time_signatures(ts, i as int),
                key_signatures@ == all_key_signatures(ts, i as int),
            decreases midi.track@.len() - i,
        {
            let ms = &midi.track[i].message;
            let ghost mv = crate::io::messages_view(ms@);
            assert(mv == ts[i as int]);
            collect_timelines(ms, &mut tempos, &mut time_signatures, &mut key_signatures);
            let scan = scan_track(ms);
            let mut more = channel_tracks_of(scan, Ghost(mv));
            let ghost before = tracks@;
            let ghost added = more@;
            tracks.append(&mut more);
            assert(tracks@.map_values(|t: Track| t@) =~= before.map_values(|t: Track| t@) + added.map_values(
                |t: Track| t@,
            ));
            i = i + 1;
        }
        let time_signatures = sort_timeline(&time_signatures);
        let key_signatures = sort_timeline(&key_signatures);
        let mut qpm = sort_timeline(&tempos);
        if qpm.len() == 0 || qpm[0].time > 0 {
            qpm.insert(0, Tempo { time: 0, tempo: DEFAULT_TEMPO });
        }
        assert(qpm@ =~= with_default_tempo(sort_by_time(all_tempos(ts, ts.len() as int))));
        Ok(Sequence { ticks_per_quarter: midi.division, tracks, time_signatures, key_signatures, qpm })
    }
}

/// The tracks of `tracks` that hold notes.
fn drop_empty_tracks(tracks: Vec<Track>) -> (r: Vec<Track>)
    ensures
        r@.map_values(|t: Track| t@) == with_notes(tracks@.map_values(|t: Track| t@)),
{
    let mut rest = tracks;
    let ghost orig = rest@.map_values(|t: Track| t@);
    let mut kept: Vec<Track> = Vec::new();
    let mut i: usize = 0;
    let n = rest.len();
    while i < n
        invariant
            0 <= i <= n,
            n == orig.len(),
            rest@.len() == n - i,
            forall|j: int| 0 <= j < rest@.len() ==> (#[trigger] rest@[j])@ == orig[i + j],
            kept@.map_values(|t: Track| t@) == with_notes(orig.take(i as int)),
        decreases n - i,
    {
        let t = rest.remove(0);
        assert(orig.take(i + 1).drop_last() =~= orig.take(i as int));
        assert(orig.take(i + 1).last() == t@);
        if t.notes.len() > 0 {
            let ghost kv = kept@;
            kept.push(t);
            assert(kept@.map_values(|t: Track| t@) =~= kv.map_values(|t: Track| t@).push(t@));
        }
        i = i + 1;
    }
    assert(orig.take(n as int) =~= orig);
    kept
}

impl Sequence {
    /// As `from_midi`, and where `keep_empty_tracks` is false the tracks that
    /// hold no note (only controller values) are left out.
    pub fn from_midi_with(midi: &MIDIFile, keep_empty_tracks: bool) -> (r: Result<Sequence, DecodeError>)
        ensures
            match sequence_with(midi@, keep_empty_tracks) {
                Ok(v) => r matches Ok(s) && s@ == v,
                Err(e) => r matches Err(x) && x == e,
            },
    {
        match Sequence::from_midi(midi) {
            Ok(s) => if keep_empty_tracks {
                Ok(s)
            } else {
                let tracks = drop_empty_tracks(s.tracks);
                Ok(
                    Sequence {
                        ticks_per_quarter: s.ticks_per_quarter,
                        tracks,
                        time_signatures: s.time_signatures,
                        key_signatures: s.key_signatures,
                        qpm: s.qpm,
                    },
                )
            },
            Err(e) => Err(e),
        }
    }
}

/// Decodes a Standard MIDI File held in `buffer` into its sequence. Tracks
/// that hold controller values but no note are kept; `decode_with` is the
/// switch that leaves them out.
pub fn decode(buffer: &[u8]) -> (r: Result<Sequence, DecodeError>)
    ensures
        match decode_sequence(buffer@) {
            Ok(v) => r matches Ok(s) && s@ == v && sequence_wf(v),
            Err(e) => r matches Err(x) && x == e,
        },
{
    match MIDIFile::from_bytes(buffer) {
        Ok(midi) => Sequence::from_midi(&midi),
        Err(e) => Err(e),
    }
}

/// As `decode`, and where `keep_empty_tracks` is false the tracks that hold
/// no note are left out.
pub fn decode_with(buffer: &[u8], keep_empty_tracks: bool) -> (r: Result<Sequence, DecodeError>)
    ensures
        match decode_file(buffer@) {
            Ok(f) => match sequence_with(f, keep_empty_tracks) {
                Ok(v) => r matches Ok(s) && s@ == v,
                Err(e) => r matches Err(x) && x == e,
            },
            Err(e) => r matches Err(x) && x == e,
        },
{
    match MIDIFile::from_bytes(buffer) {
        Ok(midi) => Sequence::from_midi_with(&midi, keep_empty_tracks),
        Err(e) => Err(e),
    }
}

/// A chunk of an unknown type right after the header chunk changes nothing
/// in the decoded sequence.
pub proof fn lemma_unknown_chunk_changes_nothing(header: Seq<u8>, chunk: Seq<u8>, rest: Seq<u8>)
    requires
        header.len() == 14,
        chunk.len() >= 8,
        crate::io::chunk_size(chunk) == chunk.len(),
        !crate::io::is_track_tag(chunk),
    ensures
        decode_sequence(header + chunk + rest) == decode_sequence(header + rest),
{
    crate::io::lemma_unknown_chunk_skipped(header, chunk, rest);
}

/// A buffer that does not start with the header tag decodes to the
/// malformed-container error, and to no sequence.
pub proof fn lemma_no_header_tag(buf: Seq<u8>)
    requires
        !crate::io::is_header_tag(buf),
    ensures
        decode_sequence(buf) == Err::<SequenceView, DecodeError>(DecodeError::MalformedContainer),
{
}

/// Decoding is a function of the bytes alone: equal buffers give equal
/// results, the order of the tracks included.
pub proof fn lemma_decode_deterministic(a: Seq<u8>, b: Seq<u8>)
    requires
        a == b,
    ensures
        decode_sequence(a) == decode_sequence(b),
{
}

/// A file with no tempo event gets exactly one tempo: the default, at time 0.
pub proof fn lemma_default_tempo(f: FileView)
    requires
        forall|i: int, k: int|
            0 <= i < f.tracks.len() && 0 <= k < f.tracks[i].len() ==> !is_meta(
                #[trigger] f.tracks[i][k],
                MetaStatus::SetTempo,
            ),
    ensures
        sequence_of(f) matches Ok(v) ==> v.qpm == seq![Tempo { time: 0, tempo: DEFAULT_TEMPO }],
{
    lemma_no_tempos(f.tracks, f.tracks.len() as int);
    let s = all_tempos(f.tracks, f.tracks.len() as int);
    assert(sort_by_time(s) == s);
    assert(seq![Tempo { time: 0, tempo: DEFAULT_TEMPO }] + s =~= seq![Tempo { time: 0, tempo: DEFAULT_TEMPO }]);
}

proof fn lemma_no_tempos(ts: Seq<Seq<MessageView>>, i: int)
    requires
        0 <= i <= ts.len(),
        forall|j: int, k: int|
            0 <= j < ts.len() && 0 <= k < ts[j].len() ==> !is_meta(#[trigger] ts[j][k], MetaStatus::SetTempo),
    ensures
        all_tempos(ts, i).len() == 0,
    decreases i,
{
    if i > 0 {
        lemma_no_tempos(ts, i - 1);
        lemma_no_track_tempos(ts[i - 1], ts[i - 1].len() as int);
        assert forall|k: int| 0 <= k < ts[i - 1].len() implies !is_meta(#[trigger] ts[i - 1][k], MetaStatus::SetTempo) by {
            assert(!is_meta(ts[i - 1][k], MetaStatus::SetTempo));
        }
    }
}

proof fn lemma_no_track_tempos(ms: Seq<MessageView>, n: int)
    requires
        0 <= n <= ms.len(),
    ensures
        (forall|k: int| 0 <= k < ms.len() ==> !is_meta(#[trigger] ms[k], MetaStatus::SetTempo)) ==> tempo_events(ms, n).len() == 0,
    decreases n,
{
    if n > 0 {
        lemma_no_track_tempos(ms, n - 1);
    }
}

/// Each controller's values sorted by time.
pub open spec fn sort_groups(g: Seq<(u8, Seq<ControlChange>)>) -> Seq<(u8, Seq<ControlChange>)> {
    g.map_values(|x: (u8, Seq<ControlChange>)| (x.0, sort_by_time(x.1)))
}

/// A track with its notes sorted by start and each controller's values by time.
pub open spec fn sort_track(t: TrackView) -> TrackView {
    TrackView { notes: sort_by_time(t.notes), controls: sort_groups(t.controls), ..t }
}

/// The notes of a track as parallel columns.
pub struct TrackTrans {
    pub name: String,
    pub program: u8,
    pub is_drum: bool,
    pub pitch: Vec<u8>,
    pub start: Vec<u32>,
    pub duration: Vec<u32>,
    pub velocity: Vec<u8>,
    pub controls: Vec<ControlGroup>,
}

impl Track {
    /// Sorts the notes by start and each controller's values by time, stably.
    pub fn sort(&mut self)
        ensures
            final(self)@ == sort_track(old(self)@),
    {
        self.notes = sort_timeline(&self.notes);
        let mut groups: Vec<ControlGroup> = Vec::new();
        let mut i: usize = 0;
        while i < self.controls.len()
            invariant
                0 <= i <= self.controls@.len(),
                self.controls@ == old(self).controls@,
                groups_view(groups@) == sort_groups(groups_view(self.controls@.take(i as int))),
            decreases self.controls@.len() - i,
        {
            let changes = sort_timeline(&self.controls[i].changes);
            let ghost gv = groups@;
            let ghost g = self.controls@[i as int];
            let controller = self.controls[i].controller;
            groups.push(ControlGroup { controller, changes });
            assert(self.controls@.take(i + 1) =~= self.controls@.take(i as int).push(g));
            assert(groups_view(groups@) =~= groups_view(gv).push((controller, sort_by_time(g.changes@))));
            assert(groups_view(self.controls@.take(i + 1)) =~= groups_view(self.controls@.take(i as int)).push(
                (g.controller, g.changes@),
            ));
            assert(groups_view(groups@) =~= sort_groups(groups_view(self.controls@.take(i + 1))));
            i = i + 1;
        }
        assert(self.controls@.take(self.controls@.len() as int) =~= self.controls@);
        self.controls = groups;
        assert(self@.controls =~= sort_groups(old(self)@.controls));
    }

    /// The notes as columns of pitches, starts, durations and velocities.
    pub fn transpose(&self) -> (r: TrackTrans)
        ensures
            r.name@ == self.name@,
            r.program == self.program,
            r.is_drum == self.is_drum,
            r.pitch@ == self.notes@.map_values(|n: Note| n.pitch),
            r.start@ == self.notes@.map_values(|n: Note| n.start),
            r.duration@ == self.notes@.map_values(|n: Note| n.duration),
            r.velocity@ == self.notes@.map_values(|n: Note| n.velocity),
            groups_view(r.controls@) == groups_view(self.controls@),
    {
        let mut pitch: Vec<u8> = Vec::new();
        let mut start: Vec<u32> = Vec::new();
        let mut duration: Vec<u32> = Vec::new();
        let mut velocity: Vec<u8> = Vec::new();
        let mut i: usize = 0;
        while i < self.notes.len()
            invariant
                0 <= i <= self.notes@.len(),
                pitch@ == self.notes@.take(i as int).map_values(|n: Note| n.pitch),
                start@ == self.notes@.take(i as int).map_values(|n: Note| n.start),
                duration@ == self.notes@.take(i as int).map_values(|n: Note| n.duration),
                velocity@ == self.notes@.take(i as int).map_values(|n: Note| n.velocity),
            decreases self.notes@.len() - i,
        {
            let n = self.notes[i];
            pitch.push(n.pitch);
            start.push(n.start);
            duration.push(n.duration);
            velocity.push(n.velocity);
            assert(self.notes@.take(i + 1) =~= self.notes@.take(i as int).push(n));
            assert(pitch@ =~= self.notes@.take(i + 1).map_values(|n: Note| n.pitch));
            assert(start@ =~= self.notes@.take(i + 1).map_values(|n: Note| n.start));
            assert(duration@ =~= self.notes@.take(i + 1).map_values(|n: Note| n.duration));
            assert(velocity@ =~= self.notes@.take(i + 1).map_values(|n: Note| n.velocity));
            i = i + 1;
        }
        assert(self.notes@.take(self.notes@.len() as int) =~= self.notes@);
        TrackTrans {
            name: self.name.clone(),
            program: self.program,
            is_drum: self.is_drum,
            pitch,
            start,
            duration,
            velocity,
            controls: copy_groups(&self.controls),
        }
    }
}

/// A copy of control groups.
fn copy_groups(g: &Vec<ControlGroup>) -> (r: Vec<ControlGroup>)
    ensures
        groups_view(r@) == groups_view(g@),
{
    let mut r: Vec<ControlGroup> = Vec::new();
    let mut i: usize = 0;
    while i < g.len()
        invariant
            0 <= i <= g@.len(),
            groups_view(r@) == groups_view(g@.take(i as int)),
        decreases g@.len() - i,
    {
        let changes = vstd::slice::slice_to_vec(g[i].changes.as_slice());
        let ghost rv = r@;
        let ghost x = g@[i as int];
        r.push(ControlGroup { controller: g[i].controller, changes });
        assert(g@.take(i + 1) =~= g@.take(i as int).push(x));
        assert(groups_view(r@) =~= groups_view(rv).push((x.controller, x.changes@)));
        assert(groups_view(g@.take(i + 1)) =~= groups_view(g@.take(i as int)).push((x.controller, x.changes@)));
        assert(groups_view(r@) =~= groups_view(g@.take(i + 1)));
        i = i + 1;
    }
    assert(g@.take(g@.len() as int) =~= g@);
    r
}

impl Sequence {
    /// Sorts the timelines by time and the notes and controller values of
    /// each track, stably.
    pub fn sort(&mut self)
        ensures
            final(self)@ == (SequenceView {
                tracks: old(self)@.tracks.map_values(|t: TrackView| sort_track(t)),
                time_signatures: sort_by_time(old(self)@.time_signatures),
                key_signatures: sort_by_time(old(self)@.key_signatures),
                qpm: sort_by_time(old(self)@.qpm),
                ..old(self)@
            }),
    {
        self.time_signatures = sort_timeline(&self.time_signatures);
        self.key_signatures = sort_timeline(&self.key_signatures);
        self.qpm = sort_timeline(&self.qpm);
        let mut tracks: Vec<Track> = Vec::new();
        let mut rest: Vec<Track> = Vec::new();
        std::mem::swap(&mut rest, &mut self.tracks);
        let ghost orig = rest@;
        while rest.len() > 0
            invariant
                tracks@.len() + rest@.len() == orig.len(),
                forall|j: int| 0 <= j < rest@.len() ==> rest@[j] == orig[tracks@.len() + j],
                forall|j: int| 0 <= j < tracks@.len() ==> (#[trigger] tracks@[j])@ == sort_track(orig[j]@),
            decreases rest@.len(),
        {
            let mut t = rest.remove(0);
            t.sort();
            tracks.push(t);
        }
        self.tracks = tracks;
        assert(self@.tracks =~= old(self)@.tracks.map_values(|t: TrackView| sort_track(t)));
    }
}

/// The last of the first `n` time signatures that starts at or before `t`.
pub open spec fn signature_at(sigs: Seq<TimeSignature>, t: u32, n: int) -> Option<int>
    decreases n,
{
    if n <= 0 {
        None
    } else if sigs[n - 1].time <= t {
        Some(n - 1)
    } else {
        signature_at(sigs, t, n - 1)
    }
}

/// Where tick `t` falls in its measure, in ticks: its distance from the
/// start of the time signature in force, modulo a measure of `numerator`
/// quarter notes. Before any signature, measures of four quarter notes
/// count from 0; a measure of no length does not wrap.
pub open spec fn position_in_measure(sigs: Seq<TimeSignature>, tpq: u16, t: u32) -> u32 {
    let (from, quarters) = match signature_at(sigs, t, sigs.len() as int) {
        Some(j) => (sigs[j].time as int, sigs[j].numerator as int),
        None => (0, 4),
    };
    let measure = quarters * tpq;
    if measure == 0 {
        (t - from) as u32
    } else {
        ((t - from) % measure) as u32
    }
}

impl Sequence {
    /// For each track, where each note starts within its measure, in ticks.
    pub fn start_in_measure(&self) -> (r: Vec<Vec<u32>>)
        ensures
            r@.len() == self.tracks@.len(),
            forall|i: int| 0 <= i < r@.len() ==> (#[trigger] r@[i])@ == self.tracks@[i].notes@.map_values(
                |n: Note| position_in_measure(self.time_signatures@, self.ticks_per_quarter, n.start),
            ),
    {
        let mut r: Vec<Vec<u32>> = Vec::new();
        let mut i: usize = 0;
        while i < self.tracks.len()
            invariant
                0 <= i <= self.tracks@.len(),
                r@.len() == i,
                forall|k: int| 0 <= k < i ==> (#[trigger] r@[k])@ == self.tracks@[k].notes@.map_values(
                    |n: Note| position_in_measure(self.time_signatures@, self.ticks_per_quarter, n.start),
                ),
            decreases self.tracks@.len() - i,
        {
            let notes = &self.tracks[i].notes;
            let mut starts: Vec<u32> = Vec::new();
            let mut k: usize = 0;
            while k < notes.len()
                invariant
                    0 <= k <= notes@.len(),
                    starts@ == notes@.take(k as int).map_values(
                        |n: Note| position_in_measure(self.time_signatures@, self.ticks_per_quarter, n.start),
                    ),
                decreases notes@.len() - k,
            {
                let p = self.position_of(notes[k].start);
                starts.push(p);
                assert(notes@.take(k + 1) =~= notes@.take(k as int).push(notes@[k as int]));
                assert(starts@ =~= notes@.take(k + 1).map_values(
                    |n: Note| position_in_measure(self.time_signatures@, self.ticks_per_quarter, n.start),
                ));
                k = k + 1;
            }
            assert(notes@.take(notes@.len() as int) =~= notes@);
            r.push(starts);
            i = i + 1;
        }
        r
    }

    /// Where tick `t` falls in its measure, in ticks.
    fn position_of(&self, t: u32) -> (r: u32)
        ensures
            r == position_in_measure(self.time_signatures@, self.ticks_per_quarter, t),
    {
        let sigs = &self.time_signatures;
        let mut j: usize = sigs.len();
        while j > 0 && sigs[j - 1].time > t
            invariant
                0 <= j <= sigs@.len(),
                signature_at(sigs@, t, sigs@.len() as int) == signature_at(sigs@, t, j as int),
            decreases j,
        {
            j = j - 1;
        }
        let (from, quarters): (u32, u32) = if j > 0 {
            (sigs[j - 1].time, sigs[j - 1].numerator as u32)
        } else {
            (0, 4)
        };
        assert(quarters * self.ticks_per_quarter <= 255 * 65535) by (nonlinear_arith)
            requires
                quarters <= 255,
        ;
        let measure: u32 = quarters * self.ticks_per_quarter as u32;
        if measure == 0 {
            t - from
        } else {
            (t - from) % measure
        }
    }
}

} // verus!
