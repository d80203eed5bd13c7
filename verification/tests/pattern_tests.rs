use rtrack::pattern::{Cell, Note, NoteValue, Pattern};

#[test]
fn test_note_value_roundtrip() {
    for i in 0..12u8 {
        let nv = NoteValue::from_index(i).unwrap();
        assert_eq!(nv.to_index(), i);
    }
    assert!(NoteValue::from_index(12).is_none());
}

#[test]
fn test_note_to_midi() {
    let note = Note::On { value: NoteValue::C, octave: 4 };
    assert_eq!(note.to_midi_note(), Some(48));

    let note = Note::On { value: NoteValue::A, octave: 4 };
    assert_eq!(note.to_midi_note(), Some(57));

    assert_eq!(Note::Off.to_midi_note(), None);
}

#[test]
fn test_note_display() {
    let note = Note::On { value: NoteValue::Cs, octave: 5 };
    assert_eq!(note.display(), "C#5");
    assert_eq!(Note::Off.display(), "===");
}

#[test]
fn test_cell_default_is_empty() {
    let cell = Cell::default();
    assert!(cell.is_empty());
    assert_eq!(cell.display_note(), "---");
    assert_eq!(cell.display_instrument(), "--");
    assert_eq!(cell.display_volume(), "--");
    assert_eq!(cell.display_effect(), "---");
}

#[test]
fn test_pattern_new() {
    let pat = Pattern::new(64, 4);
    assert_eq!(pat.rows, 64);
    assert_eq!(pat.channels, 4);
    assert_eq!(pat.data.len(), 64);
    assert_eq!(pat.data[0].len(), 4);
    assert!(pat.get(0, 0).is_empty());
}

#[test]
fn test_pattern_set_and_get() {
    let mut pat = Pattern::new(64, 4);
    let cell = Cell {
        note: Some(Note::On { value: NoteValue::E, octave: 3 }),
        instrument: Some(1),
        volume: Some(0x40),
        effect: None,
        effect_value: None,
    };
    pat.set_cell(10, 2, cell);
    let got = pat.get(10, 2);
    assert_eq!(got.note, Some(Note::On { value: NoteValue::E, octave: 3 }));
    assert_eq!(got.instrument, Some(1));
    assert_eq!(got.volume, Some(0x40));
}

#[test]
fn note_out_of_midi_range_has_no_number() {
    let note = Note::On { value: NoteValue::Gs, octave: 10 };
    assert_eq!(note.to_midi_note(), None);
    let top = Note::On { value: NoteValue::G, octave: 10 };
    assert_eq!(top.to_midi_note(), Some(127));
}

#[test]
fn cell_display_columns_in_hex() {
    let cell = Cell {
        note: Some(Note::On { value: NoteValue::As, octave: 2 }),
        instrument: Some(0x0A),
        volume: Some(0x7F),
        effect: Some(0xC),
        effect_value: Some(0x05),
    };
    assert!(!cell.is_empty());
    assert_eq!(cell.display_note(), "A#2");
    assert_eq!(cell.display_instrument(), "0A");
    assert_eq!(cell.display_volume(), "7F");
    assert_eq!(cell.display_effect(), "C05");
}

#[test]
fn pattern_duplicate_is_equal_copy() {
    let mut pat = Pattern::new(8, 2);
    pat.set_cell(3, 1, Cell { note: Some(Note::Off), instrument: None, volume: None, effect: None, effect_value: None });
    let copy = pat.duplicate();
    assert_eq!(copy.rows, 8);
    assert_eq!(copy.channels, 2);
    assert_eq!(copy.get(3, 1).note, Some(Note::Off));
    assert!(copy.get(0, 0).is_empty());
}
