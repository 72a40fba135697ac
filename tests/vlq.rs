use midiparse::{encode_variable_length, read_variable_length};

fn window(bytes: &[u8]) -> [u8; 4] {
    let mut w = [0u8; 4];
    for (i, b) in bytes.iter().enumerate() {
        w[i] = *b;
    }
    w
}

#[test]
fn test_read_vlq() {
    assert!(read_variable_length(&([0x40u8, 0x00u8, 0x00u8, 0x00u8])).1 == 0x40usize);
    assert!(read_variable_length(&([0xC0u8, 0x00u8, 0x00u8, 0x00u8])).1 == 0x2000usize);
    assert!(read_variable_length(&([0x81u8, 0x80u8, 0x00u8, 0x00u8])).1 == 0x4000usize);
    assert!(read_variable_length(&([0xFFu8, 0xFFu8, 0x7Fu8, 0x00u8])).1 == 0x1FFFFFusize);
}

#[test]
fn vlq_byte_counts() {
    assert_eq!(read_variable_length(&[0x00, 0x00, 0x00, 0x00]), (1, 0));
    assert_eq!(read_variable_length(&[0x7F, 0x00, 0x00, 0x00]), (1, 0x7F));
    assert_eq!(read_variable_length(&[0x81, 0x00, 0x00, 0x00]), (2, 0x80));
    assert_eq!(read_variable_length(&[0xFF, 0x7F, 0x00, 0x00]), (2, 0x3FFF));
    assert_eq!(read_variable_length(&[0x81, 0x80, 0x00, 0x00]), (3, 0x4000));
    assert_eq!(read_variable_length(&[0xFF, 0xFF, 0xFF, 0x7F]), (4, 0x0FFF_FFFF));
}

#[test]
fn vlq_without_terminator() {
    assert_eq!(read_variable_length(&[0x80, 0x80, 0x80, 0x80]).0, 0);
}

#[test]
fn vlq_encoding() {
    assert_eq!(encode_variable_length(0), vec![0x00]);
    assert_eq!(encode_variable_length(0x40), vec![0x40]);
    assert_eq!(encode_variable_length(0x80), vec![0x81, 0x00]);
    assert_eq!(encode_variable_length(0x2000), vec![0xC0, 0x00]);
    assert_eq!(encode_variable_length(0x1F_FFFF), vec![0xFF, 0xFF, 0x7F]);
    assert_eq!(encode_variable_length(0x0FFF_FFFF), vec![0xFF, 0xFF, 0xFF, 0x7F]);
}

#[test]
fn vlq_round_trip() {
    let cases: [(u32, u8); 10] = [
        (0, 1),
        (0x7F, 1),
        (0x80, 2),
        (480, 2),
        (0x3FFF, 2),
        (0x4000, 3),
        (0x1F_FFFF, 3),
        (0x20_0000, 4),
        (0x0ABC_DEF0, 4),
        (0x0FFF_FFFF, 4),
    ];
    for (v, n) in cases {
        let e = encode_variable_length(v);
        assert_eq!(e.len(), n as usize);
        assert_eq!(read_variable_length(&window(&e)), (n, v as usize));
    }
}
