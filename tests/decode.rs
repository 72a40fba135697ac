use midiparse::{
    decode, decode_with, ControlChange, DecodeError, EventStatus, KeySignature, MIDIFile, MIDIFileIter,
    MIDIFormat, MIDITrackIter,
    MIDIMessage, MIDIMessageIter, Meta, MetaStatus, Note, Sequence, Tempo, TimeSignature,
    DEFAULT_TEMPO,
};

fn header(format: u16, tracks: u16, division: u16) -> Vec<u8> {
    let mut v = b"MThd".to_vec();
    v.extend_from_slice(&[0, 0, 0, 6]);
    v.extend_from_slice(&format.to_be_bytes());
    v.extend_from_slice(&tracks.to_be_bytes());
    v.extend_from_slice(&division.to_be_bytes());
    v
}

fn chunk(tag: &[u8; 4], body: &[u8]) -> Vec<u8> {
    let mut v = tag.to_vec();
    v.extend_from_slice(&(body.len() as u32).to_be_bytes());
    v.extend_from_slice(body);
    v
}

fn file(division: u16, tracks: &[&[u8]]) -> Vec<u8> {
    let mut v = header(1, tracks.len() as u16, division);
    for t in tracks {
        v.extend_from_slice(&chunk(b"MTrk", t));
    }
    v
}

const END: [u8; 4] = [0x00, 0xFF, 0x2F, 0x00];

fn with_end(body: &[u8]) -> Vec<u8> {
    let mut v = body.to_vec();
    v.extend_from_slice(&END);
    v
}

fn messages(track: &[u8]) -> Vec<MIDIMessage> {
    let mut it = MIDIMessageIter::from_bytes(track, track.len());
    it.read_all().unwrap()
}

#[test]
fn running_status_reuses_the_last_status() {
    let ms = messages(&[0x00, 0x90, 60, 100, 0x10, 62, 100]);
    assert_eq!(ms.len(), 2);
    match &ms[1] {
        MIDIMessage::Event(e) => {
            assert_eq!(e.status, EventStatus::NoteOn);
            assert_eq!(e.time, 0x10);
            assert_eq!(e.data[0], 0x90);
            assert_eq!(e.key(), Some(62));
            assert_eq!(e.velocity(), Some(100));
        }
        _ => panic!("expected an event"),
    }
}

#[test]
fn running_status_without_status_fails() {
    let mut it = MIDIMessageIter::from_bytes(&[0x00, 60, 100], 3);
    assert_eq!(it.next().err(), Some(DecodeError::MalformedMessage));
}

#[test]
fn unknown_status_fails() {
    let mut it = MIDIMessageIter::from_bytes(&[0x00, 0xF1, 0x00], 3);
    assert_eq!(it.next().err(), Some(DecodeError::MalformedMessage));
}

#[test]
fn sysex_must_end_with_f7() {
    let ok = messages(&[0x00, 0xF0, 0x03, 0x7E, 0x01, 0xF7, 0x00, 0x90, 60, 1]);
    assert_eq!(ok.len(), 2);
    match &ok[0] {
        MIDIMessage::Event(e) => assert_eq!(e.status, EventStatus::SysExStart),
        _ => panic!("expected an event"),
    }
    let mut bad = MIDIMessageIter::from_bytes(&[0x00, 0xF0, 0x02, 0x7E, 0x01], 5);
    assert_eq!(bad.next().err(), Some(DecodeError::MalformedMessage));
}

#[test]
fn real_time_bytes_keep_running_status() {
    let ms = messages(&[0x00, 0xC0, 5, 0x00, 0xF8, 0x00, 7]);
    assert_eq!(ms.len(), 3);
    match &ms[2] {
        MIDIMessage::Event(e) => {
            assert_eq!(e.status, EventStatus::ProgramChange);
            assert_eq!(e.program(), Some(7));
        }
        _ => panic!("expected an event"),
    }
}

#[test]
fn message_cut_short_fails() {
    let mut it = MIDIMessageIter::from_bytes(&[0x00, 0x90, 60], 3);
    assert_eq!(it.next().err(), Some(DecodeError::MalformedMessage));
}

#[test]
fn meta_event_with_long_length() {
    let mut track = vec![0x00, 0xFF, 0x01, 0x81, 0x00];
    track.extend_from_slice(&[b'x'; 128]);
    let ms = messages(&track);
    match &ms[0] {
        MIDIMessage::Meta(m) => {
            assert_eq!(m.status, MetaStatus::Text);
            assert_eq!(m.meta_value().len(), 128);
        }
        _ => panic!("expected a meta event"),
    }
}

#[test]
fn note_on_then_note_off() {
    let track = with_end(&[0x00, 0x90, 60, 80, 0x83, 0x60, 0x80, 60, 0]);
    let seq = decode(&file(480, &[&track])).unwrap();
    assert_eq!(seq.tracks.len(), 1);
    assert_eq!(seq.ticks_per_quarter, 480);
    assert_eq!(seq.tracks[0].notes, vec![Note { pitch: 60, start: 0, duration: 480, velocity: 80 }]);
    let n = seq.tracks[0].notes[0];
    assert_eq!(n.start as f64 / seq.ticks_per_quarter as f64, 0.0);
    assert_eq!(n.duration as f64 / seq.ticks_per_quarter as f64, 1.0);
}

#[test]
fn note_on_velocity_zero_closes() {
    let track = with_end(&[0x00, 0x90, 60, 80, 0x83, 0x60, 0x90, 60, 0]);
    let seq = decode(&file(480, &[&track])).unwrap();
    assert_eq!(seq.tracks[0].notes, vec![Note { pitch: 60, start: 0, duration: 480, velocity: 80 }]);
}

#[test]
fn orphaned_note_off_is_dropped() {
    let track = with_end(&[0x00, 0x80, 60, 0]);
    let seq = decode(&file(480, &[&track])).unwrap();
    assert_eq!(seq.tracks.len(), 0);
}

#[test]
fn last_note_on_wins() {
    let track = with_end(&[0x00, 0x91, 64, 50, 0x10, 0x91, 64, 70, 0x10, 0x81, 64, 0, 0x10, 0x81, 64, 0]);
    let seq = decode(&file(96, &[&track])).unwrap();
    assert_eq!(seq.tracks.len(), 1);
    assert_eq!(seq.tracks[0].notes, vec![Note { pitch: 64, start: 0x10, duration: 0x10, velocity: 70 }]);
}

#[test]
fn channels_split_into_tracks() {
    let track = with_end(&[
        0x00, 0xC3, 12, // program 12 on channel 3
        0x00, 0x93, 60, 90, 0x00, 0x99, 36, 100, 0x30, 0x83, 60, 0, 0x00, 0x89, 36, 0,
    ]);
    let seq = decode(&file(96, &[&track])).unwrap();
    assert_eq!(seq.tracks.len(), 2);
    assert_eq!(seq.tracks[0].program, 12);
    assert!(!seq.tracks[0].is_drum);
    assert_eq!(seq.tracks[0].notes, vec![Note { pitch: 60, start: 0, duration: 0x30, velocity: 90 }]);
    assert_eq!(seq.tracks[1].program, 0);
    assert!(seq.tracks[1].is_drum);
    assert_eq!(seq.tracks[1].notes, vec![Note { pitch: 36, start: 0, duration: 0x30, velocity: 100 }]);
}

#[test]
fn control_changes_grouped_by_controller() {
    let track = with_end(&[0x00, 0xB0, 7, 100, 0x10, 0xB0, 1, 5, 0x10, 0xB0, 7, 90]);
    let seq = decode(&file(96, &[&track])).unwrap();
    assert_eq!(seq.tracks.len(), 1);
    let g = &seq.tracks[0].controls;
    assert_eq!(g.len(), 2);
    assert_eq!(g[0].controller, 1);
    assert_eq!(g[0].changes, vec![ControlChange { time: 0x10, value: 5 }]);
    assert_eq!(g[1].controller, 7);
    assert_eq!(g[1].changes, vec![ControlChange { time: 0, value: 100 }, ControlChange { time: 0x20, value: 90 }]);
}

#[test]
fn track_name_applies_to_each_channel() {
    let track = with_end(&[
        0x00, 0xFF, 0x03, 0x05, b'P', b'i', b'a', b'n', b'o', 0x00, 0xB0, 7, 1, 0x00, 0xB1, 7, 1,
    ]);
    let seq = decode(&file(96, &[&track])).unwrap();
    assert_eq!(seq.tracks.len(), 2);
    assert_eq!(seq.tracks[0].name, "Piano");
    assert_eq!(seq.tracks[1].name, "Piano");
}

#[test]
fn track_name_in_utf8_and_invalid() {
    let named = with_end(&[0x00, 0xFF, 0x03, 0x02, 0xC3, 0xA9, 0x00, 0xB0, 7, 1]);
    let seq = decode(&file(96, &[&named])).unwrap();
    assert_eq!(seq.tracks[0].name, "\u{e9}");
    let invalid = with_end(&[0x00, 0xFF, 0x03, 0x01, 0xFF, 0x00, 0xB0, 7, 1]);
    let seq = decode(&file(96, &[&invalid])).unwrap();
    assert_eq!(seq.tracks[0].name, "");
}

#[test]
fn default_tempo_when_none() {
    let track = with_end(&[0x00, 0x90, 60, 80, 0x10, 0x80, 60, 0]);
    let seq = decode(&file(96, &[&track])).unwrap();
    assert_eq!(seq.qpm, vec![Tempo { time: 0, tempo: DEFAULT_TEMPO }]);
    assert_eq!(60_000_000.0 / seq.qpm[0].tempo as f64, 120.0);
}

#[test]
fn default_tempo_before_a_late_one() {
    let track = with_end(&[0x60, 0xFF, 0x51, 0x03, 0x04, 0x93, 0xE0]);
    let seq = decode(&file(96, &[&track])).unwrap();
    assert_eq!(seq.qpm, vec![Tempo { time: 0, tempo: DEFAULT_TEMPO }, Tempo { time: 0x60, tempo: 300000 }]);
}

#[test]
fn tempo_conversion() {
    let t1 = with_end(&[0x00, 0xFF, 0x51, 0x03, 0x07, 0xA1, 0x20]);
    let seq = decode(&file(96, &[&t1])).unwrap();
    assert_eq!(seq.qpm, vec![Tempo { time: 0, tempo: 500000 }]);
    assert!((60_000_000.0 / seq.qpm[0].tempo as f64 - 120.0).abs() < 1e-9);
    let t2 = with_end(&[0x00, 0xFF, 0x51, 0x03, 0x04, 0x93, 0xE0]);
    let seq = decode(&file(96, &[&t2])).unwrap();
    assert_eq!(seq.qpm, vec![Tempo { time: 0, tempo: 300000 }]);
    assert!((60_000_000.0 / seq.qpm[0].tempo as f64 - 200.0).abs() < 1e-9);
}

#[test]
fn short_or_zero_tempo_falls_back() {
    let t = with_end(&[0x00, 0xFF, 0x51, 0x02, 0x07, 0xA1, 0x00, 0xFF, 0x51, 0x03, 0, 0, 0]);
    let seq = decode(&file(96, &[&t])).unwrap();
    assert_eq!(seq.qpm, vec![Tempo { time: 0, tempo: DEFAULT_TEMPO }, Tempo { time: 0, tempo: DEFAULT_TEMPO }]);
}

#[test]
fn timelines_sorted_across_tracks() {
    let a = with_end(&[0x40, 0xFF, 0x51, 0x03, 0x07, 0xA1, 0x20, 0x00, 0xFF, 0x58, 0x04, 3, 2, 24, 8]);
    let b = with_end(&[0x00, 0xFF, 0x51, 0x03, 0x04, 0x93, 0xE0, 0x10, 0xFF, 0x58, 0x04, 6, 3, 24, 8]);
    let seq = decode(&file(96, &[&a, &b])).unwrap();
    assert_eq!(seq.qpm, vec![Tempo { time: 0, tempo: 300000 }, Tempo { time: 0x40, tempo: 500000 }]);
    assert_eq!(
        seq.time_signatures,
        vec![
            TimeSignature { time: 0x10, numerator: 6, denominator: 8 },
            TimeSignature { time: 0x40, numerator: 3, denominator: 4 },
        ]
    );
}

#[test]
fn malformed_time_signature_is_four_four() {
    let t = with_end(&[0x00, 0xFF, 0x58, 0x02, 3, 2]);
    let seq = decode(&file(96, &[&t])).unwrap();
    assert_eq!(seq.time_signatures, vec![TimeSignature { time: 0, numerator: 4, denominator: 4 }]);
}

#[test]
fn key_signatures() {
    let t = with_end(&[0x00, 0xFF, 0x59, 0x02, 0xFD, 0x00, 0x00, 0xFF, 0x59, 0x02, 0x03, 0x01]);
    let seq = decode(&file(96, &[&t])).unwrap();
    assert_eq!(
        seq.key_signatures,
        vec![KeySignature { time: 0, key: (true, -3) }, KeySignature { time: 0, key: (false, 3) }]
    );
}

#[test]
fn key_signature_names() {
    let m = |sf: u8, mi: u8| Meta { time: 0, status: MetaStatus::KeySignature, data: vec![0xFF, 0x59, 0x02, sf, mi] };
    assert_eq!(m(0xFD, 0).key_signature(), Some("bE"));
    assert_eq!(m(0, 0).key_signature(), Some("C"));
    assert_eq!(m(7, 0).key_signature(), Some("#C"));
    assert_eq!(m(0xF9, 0).key_signature(), Some("bC"));
    assert_eq!(m(0, 1).key_signature(), Some("a"));
    assert_eq!(m(3, 1).key_signature(), Some("#f"));
    assert_eq!(m(0xFF, 1).key_signature(), Some("d"));
    assert_eq!(m(8, 0).key_signature(), None);
    let other = Meta { time: 0, status: MetaStatus::Text, data: vec![0xFF, 0x01, 0x02, 0, 0] };
    assert_eq!(other.key_signature(), None);
}

#[test]
fn time_signature_of_meta() {
    let m = Meta { time: 0, status: MetaStatus::TimeSignature, data: vec![0xFF, 0x58, 0x04, 6, 3, 24, 8] };
    assert_eq!(m.time_signature(), Some((6, 8, 24, 8)));
    let t = Meta { time: 0, status: MetaStatus::SetTempo, data: vec![0xFF, 0x51, 0x03, 0x07, 0xA1, 0x20] };
    assert_eq!(t.tempo(), Some(500000));
    assert_eq!(t.time_signature(), None);
    assert_eq!(t.meta_value(), &[0x07, 0xA1, 0x20]);
}

#[test]
fn unknown_chunk_is_skipped() {
    let track = with_end(&[0x00, 0x90, 60, 80, 0x10, 0x80, 60, 0]);
    let plain = file(96, &[&track]);
    let mut with_extra = header(1, 1, 96);
    with_extra.extend_from_slice(&chunk(b"XFIL", &[1, 2, 3, 4, 5]));
    with_extra.extend_from_slice(&chunk(b"MTrk", &track));
    assert_eq!(decode(&with_extra), decode(&plain));
    assert!(decode(&plain).is_ok());
}

#[test]
fn chunks_beyond_the_count_are_ignored() {
    let track = with_end(&[0x00, 0xB0, 7, 1]);
    let mut v = file(96, &[&track]);
    v.extend_from_slice(b"MTrk");
    let seq = decode(&v).unwrap();
    assert_eq!(seq.tracks.len(), 1);
}

#[test]
fn decoding_twice_gives_the_same() {
    let a = with_end(&[0x00, 0xB2, 7, 1, 0x00, 0x91, 60, 9, 0x05, 0x81, 60, 0]);
    let b = with_end(&[0x00, 0xB5, 7, 1, 0x00, 0xB0, 7, 3]);
    let buf = file(96, &[&a, &b]);
    let first: Sequence = decode(&buf).unwrap();
    let second: Sequence = decode(&buf).unwrap();
    assert_eq!(first, second);
    let shape: Vec<(usize, Option<u8>)> = first
        .tracks
        .iter()
        .map(|t| (t.notes.len(), t.controls.first().map(|g| g.changes[0].value)))
        .collect();
    assert_eq!(shape, vec![(1, None), (0, Some(1)), (0, Some(3)), (0, Some(1))]);
}

#[test]
fn missing_header_tag() {
    let mut v = file(96, &[&END]);
    v[0] = b'R';
    assert_eq!(decode(&v).err(), Some(DecodeError::MalformedContainer));
    assert_eq!(decode(b"RIFF").err(), Some(DecodeError::MalformedContainer));
    assert_eq!(decode(&[]).err(), Some(DecodeError::MalformedContainer));
}

#[test]
fn unsupported_format() {
    let mut v = header(3, 1, 96);
    v.extend_from_slice(&chunk(b"MTrk", &END));
    assert_eq!(decode(&v).err(), Some(DecodeError::MalformedContainer));
}

#[test]
fn truncated_chunk() {
    let mut v = header(0, 1, 96);
    v.extend_from_slice(b"MTrk");
    v.extend_from_slice(&[0, 0, 0, 10, 0x00, 0xFF]);
    assert_eq!(decode(&v).err(), Some(DecodeError::MalformedContainer));
    let missing = header(0, 2, 96);
    assert_eq!(decode(&missing).err(), Some(DecodeError::MalformedContainer));
}

#[test]
fn smpte_division_is_refused() {
    let v = file(0xE728, &[&END]);
    assert_eq!(decode(&v).err(), Some(DecodeError::UnsupportedTiming));
}

#[test]
fn malformed_track_fails_the_file() {
    let v = file(96, &[&END, &[0x00, 0x40, 0x01]]);
    assert_eq!(decode(&v).err(), Some(DecodeError::MalformedMessage));
}

#[test]
fn file_header_fields() {
    let v = file(96, &[&END, &END]);
    let f = MIDIFile::from_bytes(&v).unwrap();
    assert_eq!(f.format, MIDIFormat::MultiTrack);
    assert_eq!(f.track_num, 2);
    assert_eq!(f.division, 96);
    assert_eq!(f.track.len(), 2);
    assert_eq!(MIDIFile::parse_mthd(&[0, 2, 0, 1, 0, 96]), Ok((MIDIFormat::MultiSong, 1, 96)));
    assert_eq!(MIDIFile::parse_mthd(&[0, 5, 0, 1, 0, 96]), Err(DecodeError::MalformedContainer));
}

#[test]
fn status_codes() {
    assert_eq!(EventStatus::from_status_code(0x93), (EventStatus::NoteOn, 3));
    assert_eq!(EventStatus::from_status_code(0xC0), (EventStatus::ProgramChange, 2));
    assert_eq!(EventStatus::from_status_code(0xF0), (EventStatus::SysExStart, -1));
    assert_eq!(EventStatus::from_status_code(0xFE), (EventStatus::ActiveSensing, 1));
    assert_eq!(EventStatus::from_status_code(0xFF), (EventStatus::Meta, -1));
    assert_eq!(MetaStatus::from_status_code(0x51), MetaStatus::SetTempo);
    assert_eq!(MetaStatus::from_status_code(0x42), MetaStatus::Unknown);
}

#[test]
fn new_event_and_meta() {
    match MIDIMessage::new_event(7, 0xB4, &[10, 20]) {
        MIDIMessage::Event(e) => {
            assert_eq!(e.time, 7);
            assert_eq!(e.data, [0xB4, 10, 20, 0, 0, 0, 0, 0]);
            assert_eq!(e.channel(), Some(4));
            assert_eq!(e.control_change(), Some((10, 20)));
            assert_eq!(e.key(), None);
        }
        _ => panic!("expected an event"),
    }
    match MIDIMessage::new_meta(3, 0xFF, &[0x03, 0x01, b'A']) {
        MIDIMessage::Meta(m) => {
            assert_eq!(m.status, MetaStatus::TrackName);
            assert_eq!(m.data, vec![0xFF, 0x03, 0x01, b'A']);
            assert_eq!(m.meta_value(), b"A");
        }
        _ => panic!("expected a meta event"),
    }
}

#[test]
fn empty_tracks_kept_or_dropped() {
    let track = with_end(&[0x00, 0xB0, 7, 1, 0x00, 0x91, 60, 9, 0x05, 0x81, 60, 0]);
    let buf = file(96, &[&track]);
    let kept = decode_with(&buf, true).unwrap();
    assert_eq!(kept, decode(&buf).unwrap());
    assert_eq!(kept.tracks.len(), 2);
    let dropped = decode_with(&buf, false).unwrap();
    assert_eq!(dropped.tracks.len(), 1);
    assert_eq!(dropped.tracks[0].notes.len(), 1);
    assert_eq!(dropped.qpm, kept.qpm);
    assert_eq!(decode_with(b"MThx", false).err(), Some(DecodeError::MalformedContainer));
}

#[test]
fn tracks_one_at_a_time() {
    let a = with_end(&[0x00, 0x90, 60, 1]);
    let mut v = header(1, 2, 96);
    v.extend_from_slice(&chunk(b"MTrk", &a));
    v.extend_from_slice(&chunk(b"junk", &[9, 9]));
    v.extend_from_slice(&chunk(b"MTrk", &END));
    let mut fi = MIDIFileIter::from_bytes(&v).unwrap();
    assert_eq!(fi.track_num, 2);
    let mut first = fi.track_iter.next().unwrap().unwrap();
    assert_eq!(first.read_all().unwrap().len(), 2);
    let mut second = fi.track_iter.next().unwrap().unwrap();
    assert_eq!(second.read_all().unwrap().len(), 1);
    assert!(fi.track_iter.next().unwrap().is_none());
    let mut ti = MIDITrackIter::from_bytes(&header(0, 1, 96), 1);
    assert_eq!(ti.next().err(), Some(DecodeError::MalformedContainer));
}

#[test]
fn sysex_escape_from_f7_takes_any_bytes() {
    let ms = messages(&[0x00, 0xF7, 0x01, 0x05]);
    assert_eq!(ms.len(), 1);
    match &ms[0] {
        MIDIMessage::Event(e) => assert_eq!(e.status, EventStatus::SysExEnd),
        _ => panic!("expected an event"),
    }
    let empty = messages(&[0x00, 0xF7, 0x00, 0x00, 0x90, 60, 1]);
    assert_eq!(empty.len(), 2);
    let mut run = MIDIMessageIter::from_bytes(&[0x00, 0xF0, 0x00], 3);
    assert_eq!(run.next().err(), Some(DecodeError::MalformedMessage));
}

#[test]
fn short_header_body_is_refused() {
    assert_eq!(MIDIFile::parse_mthd(&[0, 1, 0]), Err(DecodeError::MalformedContainer));
    assert_eq!(MIDIFile::parse_mthd(&[]), Err(DecodeError::MalformedContainer));
}

#[test]
fn scan_skips_unknown_chunk_call_by_call() {
    let a = with_end(&[0x00, 0x90, 60, 1]);
    let plain = file(96, &[&a, &END]);
    let mut extra = header(1, 2, 96);
    extra.extend_from_slice(&chunk(b"XFIL", &[7, 7, 7]));
    extra.extend_from_slice(&chunk(b"MTrk", &a));
    extra.extend_from_slice(&chunk(b"MTrk", &END));
    let mut p = MIDITrackIter::from_bytes(&plain, 2);
    let mut q = MIDITrackIter::from_bytes(&extra, 2);
    for _ in 0..2 {
        let mut x = p.next().unwrap().unwrap();
        let mut y = q.next().unwrap().unwrap();
        assert_eq!(x.read_all(), y.read_all());
    }
    assert!(p.next().unwrap().is_none() && q.next().unwrap().is_none());
}

#[test]
fn message_past_declared_end_fails() {
    let bytes = [0x00, 0x90, 60, 100];
    let mut it = MIDIMessageIter::from_bytes(&bytes, 2);
    assert_eq!(it.next().err(), Some(DecodeError::MalformedMessage));
    let mut whole = MIDIMessageIter::from_bytes(&bytes, 4);
    assert!(whole.next().unwrap().is_some());
    assert!(whole.next().unwrap().is_none());
    let mut longer = MIDIMessageIter::from_bytes(&bytes, 9);
    assert!(longer.next().unwrap().is_some());
    assert_eq!(longer.next().err(), Some(DecodeError::MalformedMessage));
}
