use midiparse::builder::name_or_empty;

#[test]
fn names_from_bytes() {
    assert_eq!(name_or_empty(b"Piano".to_vec()), "Piano");
    assert_eq!(name_or_empty(vec![0xC3, 0xA9]), "\u{e9}");
    assert_eq!(name_or_empty(vec![0xFF, 0x41]), "");
    assert_eq!(name_or_empty(Vec::new()), "");
}
