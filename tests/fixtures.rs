use midiparse::{decode, EventStatus, MIDIFile, MIDIFormat, MIDIMessage, MetaStatus};

/// A small two-track file: a tempo map and a melody with a name.
fn tiny() -> Vec<u8> {
    let mut v = b"MThd".to_vec();
    v.extend_from_slice(&[0, 0, 0, 6, 0, 1, 0, 2, 0x03, 0xC0]);
    let tempo: &[u8] = &[
        0x00, 0xFF, 0x51, 0x03, 0x07, 0xA1, 0x20, 0x00, 0xFF, 0x58, 0x04, 4, 2, 24, 8, 0x00, 0xFF,
        0x2F, 0x00,
    ];
    let melody: &[u8] = &[
        0x00, 0xFF, 0x03, 0x04, b'L', b'e', b'a', b'd', 0x00, 0xC0, 0x05, 0x00, 0x90, 60, 90,
        0x87, 0x40, 0x80, 60, 0, 0x00, 0x90, 64, 90, 0x87, 0x40, 64, 0, 0x00, 0xFF, 0x2F, 0x00,
    ];
    for t in [tempo, melody] {
        v.extend_from_slice(b"MTrk");
        v.extend_from_slice(&(t.len() as u32).to_be_bytes());
        v.extend_from_slice(t);
    }
    v
}

#[test]
fn test_read_midi_head() {
    let mf = MIDIFile::from_bytes(&tiny()).expect("Read midi failed.");
    assert!(mf.format == MIDIFormat::MultiTrack);
    assert_eq!(mf.track_num, 2);
    assert_eq!(mf.division, 960);
    let mut note_ons = 0;
    let mut tempos = Vec::new();
    for t in &mf.track {
        for m in &t.message {
            match m {
                MIDIMessage::Event(e) if e.status == EventStatus::NoteOn => note_ons += 1,
                MIDIMessage::Meta(x) if x.status == MetaStatus::SetTempo => tempos.push(x.tempo().unwrap()),
                _ => {}
            }
        }
    }
    assert_eq!(note_ons, 3);
    assert_eq!(tempos, vec![500000]);
}

#[test]
fn formatter_test_midi2seq() {
    let seq = decode(&tiny()).expect("Read midi failed.");
    assert_eq!(seq.tracks.len(), 1);
    assert_eq!(seq.tracks[0].name, "Lead");
    assert_eq!(seq.tracks[0].program, 5);
}

#[test]
fn sequence_test_midi2seq() {
    let seq = decode(&tiny()).unwrap();
    let starts: Vec<u32> = seq.tracks[0].notes.iter().map(|n| n.start).collect();
    assert_eq!(starts, vec![0, 960]);
    assert_eq!(seq.start_in_measure(), vec![vec![0, 960]]);
    assert_eq!(seq.time_signatures.len(), 1);
}
