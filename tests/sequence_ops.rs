use midiparse::{ControlChange, ControlGroup, Note, Sequence, Tempo, TimeSignature, Track, DEFAULT_TEMPO};

fn note(pitch: u8, start: u32, duration: u32) -> Note {
    Note { pitch, start, duration, velocity: 64 }
}

fn track(notes: Vec<Note>) -> Track {
    Track { name: String::from("t"), program: 3, is_drum: false, notes, controls: Vec::new() }
}

#[test]
fn note_end() {
    assert_eq!(note(60, 96, 48).end(), 144);
    assert_eq!(note(60, u32::MAX, u32::MAX).end(), 2 * u32::MAX as u64);
}

#[test]
fn track_sort_is_stable() {
    let mut t = track(vec![note(1, 30, 1), note(2, 10, 1), note(3, 30, 2), note(4, 0, 1)]);
    t.controls.push(ControlGroup {
        controller: 7,
        changes: vec![ControlChange { time: 5, value: 1 }, ControlChange { time: 2, value: 2 }],
    });
    t.sort();
    let pitches: Vec<u8> = t.notes.iter().map(|n| n.pitch).collect();
    assert_eq!(pitches, vec![4, 2, 1, 3]);
    assert_eq!(t.controls[0].changes, vec![ControlChange { time: 2, value: 2 }, ControlChange { time: 5, value: 1 }]);
    assert_eq!(t.name, "t");
}

#[test]
fn sequence_sort() {
    let mut s = Sequence {
        ticks_per_quarter: 96,
        tracks: vec![track(vec![note(1, 9, 1), note(2, 3, 1)])],
        time_signatures: vec![
            TimeSignature { time: 50, numerator: 3, denominator: 4 },
            TimeSignature { time: 0, numerator: 4, denominator: 4 },
        ],
        key_signatures: Vec::new(),
        qpm: vec![Tempo { time: 10, tempo: 1 }, Tempo { time: 0, tempo: DEFAULT_TEMPO }],
    };
    s.sort();
    assert_eq!(s.time_signatures[0].time, 0);
    assert_eq!(s.qpm, vec![Tempo { time: 0, tempo: DEFAULT_TEMPO }, Tempo { time: 10, tempo: 1 }]);
    assert_eq!(s.tracks[0].notes[0].pitch, 2);
}

#[test]
fn transpose_into_columns() {
    let t = track(vec![note(60, 0, 96), note(62, 96, 48)]);
    let c = t.transpose();
    assert_eq!(c.pitch, vec![60, 62]);
    assert_eq!(c.start, vec![0, 96]);
    assert_eq!(c.duration, vec![96, 48]);
    assert_eq!(c.velocity, vec![64, 64]);
    assert_eq!(c.program, 3);
    assert_eq!(c.name, "t");
}

#[test]
fn start_in_measure_by_signature() {
    let s = Sequence {
        ticks_per_quarter: 10,
        tracks: vec![track(vec![note(60, 5, 1), note(60, 45, 1), note(60, 130, 1), note(60, 165, 1)])],
        time_signatures: vec![
            TimeSignature { time: 10, numerator: 4, denominator: 4 },
            TimeSignature { time: 130, numerator: 3, denominator: 4 },
        ],
        key_signatures: Vec::new(),
        qpm: vec![Tempo { time: 0, tempo: DEFAULT_TEMPO }],
    };
    // before the first signature: 4/4 from 0; then 40-tick and 30-tick measures
    assert_eq!(s.start_in_measure(), vec![vec![5, 35, 0, 5]]);
}
