use rtrack::edit::{
    delete_row_at, insert_row_at, command_for, handle_matrix_key, matrix_key_for, Command, track_default_instrument, add_new_pattern_to_order, cell_at, changed_edit_step, clone_current_pattern, copy_row, cursor_down, cursor_left,
    cursor_right, cursor_up, cut_row, default_tracks, delete_column, enter_midi_note, enter_note, hex_entry,
    next_order_position, note_for_key, octave_down, octave_up, paste_row, prev_order_position, set_song_cell, toggle_mute,
    write_cell, KeyCode, KeyPress, SubColumn, TrackCursor,
};
use rtrack::editor::{is_channel_audible, toggle_solo, ChannelType, EditHistory, Mode};
use rtrack::keys::{instrument_list_key, midi_note_records, normal_mode_action, EditorAction, InstrumentListKey, KeyContext, MAX_INSTRUMENTS};
use rtrack::pattern::{Cell, Note, NoteValue};
use rtrack::song::Song;

fn plain(code: KeyCode) -> KeyPress {
    KeyPress { code, ctrl: false, shift: false }
}

/// Enter the note of piano key `c` at `(row, ch)` of the first pattern, as the insert
/// mode does at `octave`; returns the cursor row after a step of `step`.
fn try_enter_note(song: &mut Song, history: &mut EditHistory, row: usize, ch: usize, c: char, octave: u8, step: usize) -> usize {
    let note = note_for_key(c, octave).unwrap();
    enter_note(song, history, 0, row, ch, note, None);
    cursor_down(row, step, song.patterns[0].rows)
}

#[test]
fn app_test_cursor_movement() {
    let mut row = 0usize;
    row = cursor_down(row, 5, 64);
    assert_eq!(row, 5);
    row = cursor_up(row, 3);
    assert_eq!(row, 2);
    row = cursor_up(row, 100);
    assert_eq!(row, 0);
    row = cursor_down(row, 1000, 64);
    assert_eq!(row, 63);
}

#[test]
fn app_test_cursor_left_right() {
    let mut t = TrackCursor { channel: 0, sub: SubColumn::Note, page: 0 };
    assert_eq!(t.sub, SubColumn::Note);
    assert_eq!(t.channel, 0);
    t = cursor_right(t, 4);
    assert_eq!(t.sub, SubColumn::Instrument);
    t = cursor_right(t, 4);
    assert_eq!(t.sub, SubColumn::Volume);
    t = cursor_right(t, 4);
    assert_eq!(t.sub, SubColumn::Effect);
    t = cursor_right(t, 4);
    assert_eq!(t.channel, 1);
    assert_eq!(t.sub, SubColumn::Note);
    t = cursor_left(t);
    assert_eq!(t.channel, 0);
    assert_eq!(t.sub, SubColumn::Effect);
}

#[test]
fn app_test_cursor_bounds() {
    let t = cursor_left(TrackCursor { channel: 0, sub: SubColumn::Note, page: 0 });
    assert_eq!(t.channel, 0);
    assert_eq!(t.sub, SubColumn::Note);
    let t = cursor_right(TrackCursor { channel: 3, sub: SubColumn::Effect, page: 0 }, 4);
    assert_eq!(t.channel, 3);
    assert_eq!(t.sub, SubColumn::Effect);
}

#[test]
fn app_test_note_entry() {
    let mut song = Song::new(4, 64);
    let mut history = EditHistory::new();
    let row = try_enter_note(&mut song, &mut history, 0, 0, 'z', 4, 1);
    assert_eq!(song.patterns[0].get(0, 0).note, Some(Note::On { value: NoteValue::C, octave: 4 }));
    assert_eq!(row, 1);
}

#[test]
fn app_test_note_off_entry() {
    let mut song = Song::new(4, 64);
    let mut history = EditHistory::new();
    let cell = Cell { note: Some(Note::Off), ..cell_at(&song, 0, 0, 0) };
    write_cell(&mut song, &mut history, 0, 0, 0, cell);
    assert_eq!(song.patterns[0].get(0, 0).note, Some(Note::Off));
}

#[test]
fn app_test_delete_at_cursor() {
    let mut song = Song::new(4, 64);
    let mut history = EditHistory::new();
    try_enter_note(&mut song, &mut history, 0, 0, 'z', 4, 1);
    assert!(song.patterns[0].get(0, 0).note.is_some());
    let cleared = delete_column(cell_at(&song, 0, 0, 0), SubColumn::Note);
    write_cell(&mut song, &mut history, 0, 0, 0, cleared);
    assert!(song.patterns[0].get(0, 0).note.is_none());
}

#[test]
fn app_test_octave_change() {
    let ctx = KeyContext { has_anchor: false, has_block_clipboard: false, track_page: 0, playing: false, dirty: false, sub: SubColumn::Note };
    let mut octave = 4u8;
    assert_eq!(normal_mode_action(plain(KeyCode::Char('+')), ctx), EditorAction::OctaveUp);
    octave = octave_up(octave);
    assert_eq!(octave, 5);
    assert_eq!(normal_mode_action(plain(KeyCode::Char('-')), ctx), EditorAction::OctaveDown);
    octave = octave_down(octave);
    assert_eq!(octave, 4);
}

#[test]
fn app_test_upper_octave_note_entry() {
    let mut song = Song::new(4, 64);
    let mut history = EditHistory::new();
    try_enter_note(&mut song, &mut history, 0, 0, 'q', 4, 1);
    assert_eq!(song.patterns[0].get(0, 0).note, Some(Note::On { value: NoteValue::C, octave: 5 }));
}

#[test]
fn app_test_hex_entry_instrument() {
    let mut song = Song::new(4, 64);
    let mut history = EditHistory::new();
    let cell = hex_entry(cell_at(&song, 0, 0, 0), SubColumn::Instrument, 'a').unwrap();
    write_cell(&mut song, &mut history, 0, 0, 0, cell);
    assert_eq!(song.patterns[0].get(0, 0).instrument, Some(0x0A));
    let cell = hex_entry(cell_at(&song, 0, 0, 0), SubColumn::Instrument, '3').unwrap();
    write_cell(&mut song, &mut history, 0, 0, 0, cell);
    assert_eq!(song.patterns[0].get(0, 0).instrument, Some(0xA3));
}

#[test]
fn app_test_undo_redo() {
    let mut song = Song::new(4, 64);
    let mut history = EditHistory::new();
    try_enter_note(&mut song, &mut history, 0, 0, 'z', 4, 1);
    assert!(song.patterns[0].get(0, 0).note.is_some());
    assert_eq!(history.undo_stack.len(), 1);
    history.undo(&mut song);
    assert!(song.patterns[0].get(0, 0).note.is_none());
    assert_eq!(history.redo_stack.len(), 1);
    history.redo(&mut song);
    assert!(song.patterns[0].get(0, 0).note.is_some());
}

#[test]
fn app_test_undo_clears_redo_on_new_edit() {
    let mut song = Song::new(4, 64);
    let mut history = EditHistory::new();
    try_enter_note(&mut song, &mut history, 0, 0, 'z', 4, 1);
    history.undo(&mut song);
    assert_eq!(history.redo_stack.len(), 1);
    try_enter_note(&mut song, &mut history, 0, 0, 'x', 4, 1);
    assert_eq!(history.redo_stack.len(), 0);
}

#[test]
fn app_test_copy_paste_row() {
    let mut song = Song::new(4, 64);
    let mut history = EditHistory::new();
    try_enter_note(&mut song, &mut history, 0, 0, 'z', 4, 1);
    copy_row(&song, &mut history, 0, 0);
    assert!(history.clipboard.is_some());
    paste_row(&mut song, &mut history, 0, 5);
    assert_eq!(song.patterns[0].get(5, 0).note, Some(Note::On { value: NoteValue::C, octave: 4 }));
}

#[test]
fn app_test_cut_row() {
    let mut song = Song::new(4, 64);
    let mut history = EditHistory::new();
    try_enter_note(&mut song, &mut history, 0, 0, 'z', 4, 1);
    cut_row(&mut song, &mut history, 0, 0);
    assert!(song.patterns[0].get(0, 0).note.is_none());
    assert!(history.clipboard.is_some());
    let row = history.clipboard.as_ref().unwrap();
    assert_eq!(row[0].note, Some(Note::On { value: NoteValue::C, octave: 4 }));
}

#[test]
fn app_test_ctrl_z_undoes() {
    let mut song = Song::new(4, 64);
    let mut history = EditHistory::new();
    try_enter_note(&mut song, &mut history, 0, 0, 'z', 4, 1);
    assert!(song.patterns[0].get(0, 0).note.is_some());
    let ctx = KeyContext { has_anchor: false, has_block_clipboard: false, track_page: 0, playing: false, dirty: true, sub: SubColumn::Note };
    let key = KeyPress { code: KeyCode::Char('z'), ctrl: true, shift: false };
    assert_eq!(normal_mode_action(key, ctx), EditorAction::Undo);
    history.undo(&mut song);
    assert!(song.patterns[0].get(0, 0).note.is_none());
}

#[test]
fn app_test_order_navigation() {
    let mut song = Song::new(4, 64);
    song.add_pattern();
    song.order.push(1);
    let mut edit_order = 0usize;
    if let Some(o) = next_order_position(edit_order, song.order.len()) {
        edit_order = o;
    }
    assert_eq!(edit_order, 1);
    assert_eq!(next_order_position(edit_order, song.order.len()), None);
    if let Some(o) = prev_order_position(edit_order) {
        edit_order = o;
    }
    assert_eq!(edit_order, 0);
    assert_eq!(prev_order_position(edit_order), None);
}

#[test]
fn app_test_add_new_pattern_to_order() {
    let mut song = Song::new(4, 64);
    let mut history = EditHistory::new();
    assert_eq!(song.patterns.len(), 1);
    assert_eq!(song.order.len(), 1);
    let edit_order = add_new_pattern_to_order(&mut song, &mut history);
    assert_eq!(song.patterns.len(), 2);
    assert_eq!(song.order.len(), 2);
    assert_eq!(song.order[1], 1);
    assert_eq!(edit_order, 1);
}

#[test]
fn app_test_clone_current_pattern() {
    let mut song = Song::new(4, 64);
    let mut history = EditHistory::new();
    try_enter_note(&mut song, &mut history, 0, 0, 'z', 4, 1);
    let edit_order = clone_current_pattern(&mut song, &mut history, 0);
    assert_eq!(song.patterns.len(), 2);
    assert_eq!(song.order, vec![0, 1]);
    assert_eq!(edit_order, 1);
    assert_eq!(song.patterns[1].get(0, 0).note, Some(Note::On { value: NoteValue::C, octave: 4 }));
}

#[test]
fn app_test_channel_mute() {
    let mut tracks = default_tracks(4);
    let mut solo = None;
    assert!(!tracks[0].muted);
    toggle_mute(&mut tracks, &mut solo, 0);
    assert!(tracks[0].muted);
    toggle_mute(&mut tracks, &mut solo, 0);
    assert!(!tracks[0].muted);
}

#[test]
fn app_test_solo_channel() {
    let tracks = default_tracks(4);
    let heard = |solo: Option<usize>, ch: usize| is_channel_audible(solo, tracks.get(ch).map(|t| t.muted), ch);
    let mut solo = None;
    assert!(heard(solo, 0));
    assert!(heard(solo, 1));
    solo = toggle_solo(solo, 0);
    assert_eq!(solo, Some(0));
    assert!(heard(solo, 0));
    assert!(!heard(solo, 1));
    assert!(!heard(solo, 3));
    solo = toggle_solo(solo, 0);
    assert_eq!(solo, None);
    assert!(heard(solo, 0));
    assert!(heard(solo, 1));
    solo = toggle_solo(solo, 2);
    assert_eq!(solo, Some(2));
    assert!(!heard(solo, 0));
    assert!(heard(solo, 2));
}

#[test]
fn app_test_solo_overrides_mute() {
    let mut tracks = default_tracks(4);
    tracks[1].muted = true;
    let heard = |solo: Option<usize>, ch: usize| is_channel_audible(solo, tracks.get(ch).map(|t| t.muted), ch);
    assert!(!heard(None, 1));
    assert!(heard(Some(1), 1));
    assert!(!heard(Some(1), 0));
}

#[test]
fn app_test_mute_clears_solo() {
    let mut tracks = default_tracks(4);
    let mut solo = toggle_solo(None, 0);
    assert_eq!(solo, Some(0));
    toggle_mute(&mut tracks, &mut solo, 1);
    assert_eq!(solo, None);
}

#[test]
fn app_test_edit_step_change() {
    let mut step = 1usize;
    step = changed_edit_step(step, 1);
    assert_eq!(step, 2);
    step = changed_edit_step(step, -1);
    assert_eq!(step, 1);
    step = changed_edit_step(step, -2);
    assert_eq!(step, 0);
    step = 15;
    step = changed_edit_step(step, 5);
    assert_eq!(step, 16);
}

#[test]
fn mod_test_edit_step_change() {
    let ctx = KeyContext { has_anchor: false, has_block_clipboard: false, track_page: 0, playing: false, dirty: false, sub: SubColumn::Note };
    let mut step = 1usize;
    let apply = |step: usize, k: char| match normal_mode_action(plain(KeyCode::Char(k)), ctx) {
        EditorAction::ChangeEditStep(d) => changed_edit_step(step, d),
        _ => step,
    };
    step = apply(step, ')');
    assert_eq!(step, 2);
    step = apply(step, '(');
    assert_eq!(step, 1);
    step = apply(step, '(');
    assert_eq!(step, 0);
    step = apply(step, '(');
    assert_eq!(step, 0);
}

#[test]
fn app_test_edit_step_affects_note_entry() {
    let mut song = Song::new(4, 64);
    let mut history = EditHistory::new();
    let row = try_enter_note(&mut song, &mut history, 0, 0, 'z', 4, 4);
    assert_eq!(row, 4);
}

#[test]
fn mod_test_edit_step_affects_note_entry() {
    let mut song = Song::new(4, 64);
    let mut history = EditHistory::new();
    let row = try_enter_note(&mut song, &mut history, 0, 0, 'z', 4, 4);
    assert_eq!(row, 4);
}

#[test]
fn app_test_edit_step_zero_no_advance() {
    let mut song = Song::new(4, 64);
    let mut history = EditHistory::new();
    let row = try_enter_note(&mut song, &mut history, 0, 0, 'z', 4, 0);
    assert_eq!(row, 0);
}

#[test]
fn mod_test_edit_step_zero_no_advance() {
    let mut song = Song::new(4, 64);
    let mut history = EditHistory::new();
    let row = try_enter_note(&mut song, &mut history, 0, 0, 'z', 4, 0);
    assert_eq!(row, 0);
}

/// A MIDI keyboard note at `(row, ch)` of the first pattern, recorded as the editor
/// does; returns the cursor row afterwards.
fn midi_input(song: &mut Song, history: &mut EditHistory, mode: Mode, playing: bool, row: usize, note: u8, velocity: u8) -> usize {
    if !midi_note_records(mode, playing) {
        return row;
    }
    history.push_undo(song);
    let cell = enter_midi_note(cell_at(song, 0, row, 0), note, velocity);
    set_song_cell(song, 0, row, 0, cell);
    cursor_down(row, 1, song.patterns[0].rows)
}

#[test]
fn app_test_midi_input_in_insert_mode() {
    let mut song = Song::new(4, 64);
    let mut history = EditHistory::new();
    let row = midi_input(&mut song, &mut history, Mode::Insert, false, 0, 60, 100);
    let cell = song.patterns[0].get(0, 0);
    assert_eq!(cell.note, Some(Note::On { value: NoteValue::C, octave: 5 }));
    assert_eq!(cell.volume, Some(100));
    assert_eq!(row, 1);
}

#[test]
fn mod_test_midi_input_in_insert_mode() {
    let mut song = Song::new(4, 64);
    let mut history = EditHistory::new();
    midi_input(&mut song, &mut history, Mode::Insert, false, 0, 60, 100);
    let cell = song.patterns[song.order[0]].get(0, 0);
    assert!(cell.note.is_some());
    assert_eq!(cell.volume, Some(100));
}

#[test]
fn app_test_midi_input_ignored_in_normal_mode() {
    let mut song = Song::new(4, 64);
    let mut history = EditHistory::new();
    midi_input(&mut song, &mut history, Mode::Normal, false, 0, 60, 100);
    assert!(song.patterns[0].get(0, 0).note.is_none());
}

#[test]
fn mod_test_midi_input_ignored_in_normal_mode() {
    let mut song = Song::new(4, 64);
    let mut history = EditHistory::new();
    midi_input(&mut song, &mut history, Mode::Normal, false, 0, 60, 100);
    assert!(song.patterns[song.order[0]].get(0, 0).note.is_none());
}

#[test]
fn app_test_midi_input_ignored_during_playback() {
    let mut song = Song::new(4, 64);
    let mut history = EditHistory::new();
    midi_input(&mut song, &mut history, Mode::Insert, true, 0, 60, 100);
    assert!(song.patterns[0].get(0, 0).note.is_none());
}

#[test]
fn mod_test_midi_input_ignored_during_playback() {
    let mut song = Song::new(4, 64);
    let mut history = EditHistory::new();
    midi_input(&mut song, &mut history, Mode::Insert, true, 0, 60, 100);
    assert!(song.patterns[song.order[0]].get(0, 0).note.is_none());
}

#[test]
fn app_test_instrument_list_open_close() {
    let mut names = vec![String::new(); MAX_INSTRUMENTS];
    let mut cursor = 0usize;
    assert_eq!(instrument_list_key(&mut cursor, &mut names, plain(KeyCode::F(7))), InstrumentListKey::Close);
}

#[test]
fn mod_test_per_pattern_length_cursor_bounds() {
    let mut song = Song::new(4, 64);
    let p = song.order[0];
    song.patterns[p].rows = 32;
    song.patterns[p].data.truncate(32);
    assert_eq!(cursor_down(0, 100, song.patterns[p].rows), 31);
}

/// Type piano key `c` in the insert mode on track `ch`, the track's default
/// instrument filled in as the editor does.
fn type_on_track(song: &mut Song, history: &mut EditHistory, tracks: &Vec<rtrack::edit::TrackConfig>, ch: usize, c: char) {
    let note = note_for_key(c, 4).unwrap();
    let inst = track_default_instrument(tracks, ch);
    enter_note(song, history, song.order[0], 0, ch, note, inst);
}

#[test]
fn test_synth_track_auto_fills_instrument() {
    let mut song = Song::new(4, 64);
    let mut history = EditHistory::new();
    let mut tracks = default_tracks(4);
    tracks[0].channel_type = ChannelType::Synth;
    tracks[0].default_instrument = Some(5);
    type_on_track(&mut song, &mut history, &tracks, 0, 'z');
    let cell = song.patterns[song.order[0]].get(0, 0);
    assert!(cell.note.is_some());
    assert_eq!(cell.instrument, Some(5));
}

#[test]
fn test_sample_track_auto_fills_instrument() {
    let mut song = Song::new(4, 64);
    let mut history = EditHistory::new();
    let mut tracks = default_tracks(4);
    tracks[0].channel_type = ChannelType::Sample;
    tracks[0].default_instrument = Some(3);
    type_on_track(&mut song, &mut history, &tracks, 0, 'z');
    let cell = song.patterns[song.order[0]].get(0, 0);
    assert!(cell.note.is_some());
    assert_eq!(cell.instrument, Some(3));
}

#[test]
fn test_pattern_matrix_open_close() {
    let mut song = Song::new(4, 64);
    let mut history = EditHistory::new();
    assert_eq!(command_for("p"), Command::PatternMatrix);
    let matrix_cursor = 0usize;
    let k = matrix_key_for(plain(KeyCode::Esc)).unwrap();
    let out = handle_matrix_key(&mut song, &mut history, matrix_cursor, k);
    assert!(out.close);
}

#[test]
fn mod_test_insert_row() {
    let mut song = Song::new(4, 64);
    let mut history = EditHistory::new();
    let pattern_idx = song.order[0];
    let original_rows = song.patterns[pattern_idx].rows;
    assert_eq!(normal_mode_action(plain(KeyCode::Insert), KeyContext {
        has_anchor: false, has_block_clipboard: false, track_page: 0, playing: false, dirty: false, sub: SubColumn::Note,
    }), EditorAction::InsertRow);
    insert_row_at(&mut song, &mut history, pattern_idx, 0);
    assert_eq!(song.patterns[pattern_idx].rows, original_rows);
    assert!(song.patterns[pattern_idx].get(0, 0).note.is_none());
}

#[test]
fn mod_test_delete_row() {
    let mut song = Song::new(4, 64);
    let mut history = EditHistory::new();
    let pattern_idx = song.order[0];
    let original_rows = song.patterns[pattern_idx].rows;
    try_enter_note(&mut song, &mut history, 0, 0, 'z', 4, 1);
    delete_row_at(&mut song, &mut history, pattern_idx, 0);
    assert_eq!(song.patterns[pattern_idx].rows, original_rows);
}

#[test]
fn app_test_insert_row() {
    let mut song = Song::new(4, 64);
    let mut history = EditHistory::new();
    let mut row = try_enter_note(&mut song, &mut history, 0, 0, 'z', 4, 1);
    row = try_enter_note(&mut song, &mut history, row, 0, 'x', 4, 1);
    try_enter_note(&mut song, &mut history, row, 0, 'c', 4, 1);
    insert_row_at(&mut song, &mut history, 0, 1);
    let pat = &song.patterns[0];
    assert_eq!(pat.get(0, 0).note, Some(Note::On { value: NoteValue::C, octave: 4 }));
    assert!(pat.get(1, 0).note.is_none());
    assert_eq!(pat.get(2, 0).note, Some(Note::On { value: NoteValue::D, octave: 4 }));
    assert_eq!(pat.get(3, 0).note, Some(Note::On { value: NoteValue::E, octave: 4 }));
    assert_eq!(pat.rows, 64);
}

#[test]
fn app_test_delete_row() {
    let mut song = Song::new(4, 64);
    let mut history = EditHistory::new();
    let mut row = try_enter_note(&mut song, &mut history, 0, 0, 'z', 4, 1);
    row = try_enter_note(&mut song, &mut history, row, 0, 'x', 4, 1);
    try_enter_note(&mut song, &mut history, row, 0, 'c', 4, 1);
    delete_row_at(&mut song, &mut history, 0, 1);
    let pat = &song.patterns[0];
    assert_eq!(pat.get(0, 0).note, Some(Note::On { value: NoteValue::C, octave: 4 }));
    assert_eq!(pat.get(1, 0).note, Some(Note::On { value: NoteValue::E, octave: 4 }));
    assert_eq!(pat.rows, 64);
}

#[test]
fn row_insert_then_delete_keeps_the_rest() {
    let mut song = Song::new(2, 4);
    let mut history = EditHistory::new();
    let mut row = try_enter_note(&mut song, &mut history, 0, 0, 'z', 4, 1);
    row = try_enter_note(&mut song, &mut history, row, 0, 'x', 4, 1);
    row = try_enter_note(&mut song, &mut history, row, 0, 'c', 4, 1);
    try_enter_note(&mut song, &mut history, row, 0, 'v', 4, 1);
    insert_row_at(&mut song, &mut history, 0, 3);
    assert!(song.patterns[0].get(3, 0).note.is_none());
    delete_row_at(&mut song, &mut history, 0, 3);
    assert_eq!(song.patterns[0].get(2, 0).note, Some(Note::On { value: NoteValue::E, octave: 4 }));
    assert!(song.patterns[0].get(3, 0).note.is_none());
    assert_eq!(song.patterns[0].data.len(), 4);
}

#[test]
fn app_test_per_pattern_length_cursor_bounds() {
    let mut song = Song::new(4, 64);
    song.patterns[0].resize_rows(32);
    assert_eq!(song.patterns[0].rows, 32);
    assert_eq!(cursor_down(0, 100, song.patterns[0].rows), 31);
}

#[test]
fn resize_rows_grows_with_empty_rows() {
    let mut song = Song::new(2, 4);
    let mut history = EditHistory::new();
    try_enter_note(&mut song, &mut history, 3, 1, 'z', 4, 1);
    song.patterns[0].resize_rows(6);
    assert_eq!(song.patterns[0].data.len(), 6);
    assert!(song.patterns[0].get(3, 1).note.is_some());
    assert_eq!(song.patterns[0].data[5].len(), 2);
    assert!(song.patterns[0].get(5, 1).note.is_none());
}
