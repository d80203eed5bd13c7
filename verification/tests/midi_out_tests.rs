use rtrack::midi_out::ActiveNotes;

#[test]
fn test_midi_engine_new() {
    let engine = ActiveNotes::new();
    assert!(engine.notes.iter().all(|n| n.is_none()));
}

#[test]
fn test_note_on_off_without_connection() {
    let mut engine = ActiveNotes::new();
    assert_eq!(engine.note_on(0, 60, 100), vec![[0x90, 60, 100]]);
    assert_eq!(engine.note_off(0, 60), [0x80, 60, 0]);
    assert!(engine.all_notes_off().is_empty());
}

#[test]
fn test_active_note_tracking() {
    let mut engine = ActiveNotes::new();
    engine.note_on(0, 60, 100);
    assert_eq!(engine.notes[0], Some(60));
    engine.note_off(0, 60);
    assert_eq!(engine.notes[0], None);
}

#[test]
fn test_channel_note_off() {
    let mut engine = ActiveNotes::new();
    engine.note_on(2, 64, 80);
    assert_eq!(engine.notes[2], Some(64));
    assert_eq!(engine.channel_note_off(2), Some([0x82, 64, 0]));
    assert_eq!(engine.notes[2], None);
    assert_eq!(engine.channel_note_off(2), None);
}

#[test]
fn new_note_stops_previous_on_same_channel() {
    let mut engine = ActiveNotes::new();
    engine.note_on(17, 40, 90);
    assert_eq!(engine.notes[1], Some(40));
    assert_eq!(engine.note_on(1, 41, 91), vec![[0x81, 40, 0], [0x91, 41, 91]]);
    engine.note_on(5, 50, 1);
    assert_eq!(engine.all_notes_off(), vec![[0x81, 41, 0], [0x85, 50, 0]]);
    assert!(engine.notes.iter().all(|n| n.is_none()));
}
