use rtrack::midi_file::{
    bpm_to_microseconds, export_is_ready, export_midi_bytes, import_midi_bytes, read_variable_length, ticks_per_row,
    write_variable_length, MidiFileError, TICKS_PER_BEAT,
};
use rtrack::pattern::{Cell, Note, NoteValue};
use rtrack::song::Song;

#[test]
fn test_variable_length_roundtrip() {
    let test_values: &[u32] = &[0, 1, 0x7F, 0x80, 0x3FFF, 0x4000, 0x001FFFFF, 0x0FFFFFFF];
    for &val in test_values {
        let mut buf = Vec::new();
        write_variable_length(&mut buf, val);
        let mut pos = 0usize;
        let decoded = read_variable_length(&buf, &mut pos).unwrap();
        assert_eq!(decoded, val, "Roundtrip failed for value 0x{:X}: encoded {:?}", val, buf);
        assert_eq!(pos, buf.len(), "Not all bytes consumed for 0x{:X}", val);
    }
}

#[test]
fn test_variable_length_known_encodings() {
    let cases: &[(u32, &[u8])] = &[
        (0x00, &[0x00]),
        (0x7F, &[0x7F]),
        (0x80, &[0x81, 0x00]),
        (0x2000, &[0xC0, 0x00]),
        (0x3FFF, &[0xFF, 0x7F]),
        (0x4000, &[0x81, 0x80, 0x00]),
    ];
    for &(val, expected) in cases {
        let mut buf = Vec::new();
        write_variable_length(&mut buf, val);
        assert_eq!(buf, expected, "Encoding mismatch for 0x{:X}", val);
    }
}

#[test]
fn test_export_starts_with_mthd() {
    let song = Song::new(2, 16);
    let data = export_midi_bytes(&song);
    assert!(data.len() >= 14, "File too small");
    assert_eq!(&data[0..4], b"MThd", "File must start with MThd");
    assert_eq!(u16::from_be_bytes([data[8], data[9]]), 1);
    assert_eq!(u16::from_be_bytes([data[12], data[13]]), TICKS_PER_BEAT);
}

fn note_cell(value: NoteValue, octave: u8, volume: Option<u8>) -> Cell {
    Cell { note: Some(Note::On { value, octave }), instrument: None, volume, effect: None, effect_value: None }
}

#[test]
fn test_export_import_roundtrip() {
    let mut song = Song::new(2, 16);
    song.title = "TestRT".to_string();
    song.bpm = 140;
    song.speed = 6;
    song.patterns[0].set_cell(0, 0, note_cell(NoteValue::C, 4, Some(100)));
    song.patterns[0].set_cell(4, 0, note_cell(NoteValue::E, 4, None));
    song.patterns[0].set_cell(
        8,
        0,
        Cell { note: Some(Note::Off), instrument: None, volume: None, effect: None, effect_value: None },
    );
    song.patterns[0].set_cell(0, 1, note_cell(NoteValue::G, 3, Some(80)));

    let data = export_midi_bytes(&song);
    let imported = import_midi_bytes(&data, "rtrack_test_roundtrip").unwrap();

    assert!((imported.bpm as i32 - song.bpm as i32).unsigned_abs() <= 1, "BPM mismatch: {}", imported.bpm);
    assert_eq!(imported.patterns[0].get(0, 0).note, Some(Note::On { value: NoteValue::C, octave: 4 }));
    assert_eq!(imported.patterns[0].get(4, 0).note, Some(Note::On { value: NoteValue::E, octave: 4 }));
    assert_eq!(imported.patterns[0].get(0, 1).note, Some(Note::On { value: NoteValue::G, octave: 3 }));
    assert_eq!(imported.title, "rtrack_test_roundtrip");
}

#[test]
fn test_import_empty_file_returns_error() {
    let result = import_midi_bytes(b"", "empty");
    assert!(result.is_err(), "Importing an empty file should fail");
}

#[test]
fn test_import_invalid_header_returns_error() {
    let result = import_midi_bytes(b"NOT_A_MIDI_FILE_AT_ALL", "bad");
    assert!(result.is_err(), "Importing a non-MIDI file should fail");
}

#[test]
fn test_bpm_to_microseconds() {
    assert_eq!(bpm_to_microseconds(120), 500_000);
    assert_eq!(bpm_to_microseconds(60), 1_000_000);
    assert_eq!(bpm_to_microseconds(0), 500_000); // fallback
}

#[test]
fn test_ticks_per_row_calculation() {
    assert_eq!(ticks_per_row(6), 120);
    assert_eq!(ticks_per_row(3), 60);
}

#[test]
fn import_error_kinds() {
    assert_eq!(import_midi_bytes(b"MThd", "x").err(), Some(MidiFileError::TooSmall));
    assert_eq!(import_midi_bytes(b"XXXXXXXXXXXXXXXX", "x").err(), Some(MidiFileError::MissingHeader));
}

#[test]
fn export_header_fields() {
    let song = Song::new(3, 8);
    let data = export_midi_bytes(&song);
    // header length 6, format 1, one tempo track plus one track per channel
    assert_eq!(&data[4..8], &[0, 0, 0, 6]);
    assert_eq!(u16::from_be_bytes([data[10], data[11]]), 4);
    assert_eq!(&data[14..18], b"MTrk");
}

#[test]
fn read_variable_length_rejects_truncated_input() {
    let mut pos = 0usize;
    assert!(read_variable_length(&[0x81], &mut pos).is_err());
}

#[test]
fn exported_effects_and_notes_read_back_at_their_rows() {
    let mut song = Song::new(2, 16);
    song.speed = 6;
    song.patterns[0].set_cell(
        2,
        0,
        Cell { note: None, instrument: None, volume: None, effect: Some(0x0E), effect_value: Some(5) },
    );
    song.patterns[0].set_cell(
        3,
        1,
        Cell { note: None, instrument: Some(7), volume: None, effect: Some(0x0C), effect_value: Some(64) },
    );
    song.patterns[0].set_cell(5, 1, note_cell(NoteValue::A, 2, Some(90)));
    song.patterns[0].set_cell(
        9,
        1,
        Cell { note: Some(Note::Off), instrument: None, volume: None, effect: None, effect_value: None },
    );

    let data = export_midi_bytes(&song);
    let imported = import_midi_bytes(&data, "fx").unwrap();

    let c = imported.patterns[0].get(2, 0);
    assert_eq!(c.effect, Some(0x0E));
    assert_eq!(c.effect_value, Some(5));
    let c = imported.patterns[0].get(3, 1);
    assert_eq!(c.effect, Some(0x0C));
    assert_eq!(c.instrument, Some(7));
    assert_eq!(c.effect_value, Some(64));
    let c = imported.patterns[0].get(5, 1);
    assert_eq!(c.note, Some(Note::On { value: NoteValue::A, octave: 2 }));
    assert_eq!(c.volume, Some(90));
    assert_eq!(imported.patterns[0].get(9, 1).note, Some(Note::Off));
    assert_eq!(imported.patterns[0].get(4, 1).note, None);
}

fn off_cell() -> Cell {
    Cell { note: Some(Note::Off), instrument: None, volume: None, effect: None, effect_value: None }
}

#[test]
fn long_song_with_close_events_exports() {
    // 1000 x 64 rows at 5100 ticks a row: more than 2^28 ticks in all, but a note
    // every 64 rows keeps every delta small.
    let mut song = Song::new(1, 64);
    song.speed = 255;
    song.patterns[0].set_cell(0, 0, note_cell(NoteValue::C, 4, None));
    song.order = vec![0; 1000];
    song.order_repeats = vec![1; 1000];
    assert!(export_is_ready(&song));
    let data = export_midi_bytes(&song);
    assert_eq!(&data[0..4], b"MThd");
}

#[test]
fn long_silent_tail_after_a_released_note_exports() {
    let mut song = Song::new(1, 64);
    song.speed = 255;
    song.add_pattern();
    song.patterns[0].set_cell(0, 0, note_cell(NoteValue::C, 4, None));
    song.patterns[0].set_cell(1, 0, off_cell());
    let mut order = vec![0usize];
    order.extend(std::iter::repeat(1usize).take(1000));
    song.order_repeats = vec![1; order.len()];
    song.order = order;
    assert!(export_is_ready(&song));
}

#[test]
fn a_gap_of_two_pow_28_ticks_is_refused() {
    let mut song = Song::new(1, 64);
    song.speed = 255;
    song.add_pattern();
    song.add_pattern();
    song.patterns[0].set_cell(0, 0, note_cell(NoteValue::C, 4, None));
    song.patterns[2].set_cell(0, 0, off_cell());
    let mut order = vec![0usize];
    order.extend(std::iter::repeat(1usize).take(900));
    order.push(2);
    song.order_repeats = vec![1; order.len()];
    song.order = order;
    assert!(!export_is_ready(&song));
}

#[test]
fn a_note_held_to_the_end_of_a_long_song_is_refused() {
    let mut song = Song::new(1, 64);
    song.speed = 255;
    song.add_pattern();
    song.patterns[0].set_cell(0, 0, note_cell(NoteValue::C, 4, None));
    let mut order = vec![0usize];
    order.extend(std::iter::repeat(1usize).take(1000));
    song.order_repeats = vec![1; order.len()];
    song.order = order;
    assert!(!export_is_ready(&song));
}
