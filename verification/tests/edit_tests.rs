use rtrack::edit::{
    add_new_pattern_to_order, cell_at, changed_bpm, changed_edit_step, clone_current_pattern, command_for, copy_row,
    copy_selection, cursor_down, cursor_left, cursor_right, cursor_up, cut_row, cut_selection, cycle_track,
    default_tracks, delete_column, enter_midi_note, enter_note, handle_matrix_key, hex_entry, interpolate_selection, matrix_key_for,
    next_order_position, note_for_key, note_from_midi, octave_down, octave_up, paste_row, paste_selection,
    prev_order_position, toggle_block_select, toggle_mute, track_default_instrument, transpose_notes,
    visible_channels, write_cell, Command, InterpolateOutcome, KeyCode, KeyPress, MatrixKey, MatrixStatus, SubColumn, TrackCursor,
};
use rtrack::editor::{toggle_solo, ChannelType, EditHistory};
use rtrack::pattern::{Cell, Note, NoteValue};
use rtrack::song::Song;

fn key(code: KeyCode) -> KeyPress {
    KeyPress { code, ctrl: false, shift: false }
}

fn ctrl(c: char) -> KeyPress {
    KeyPress { code: KeyCode::Char(c), ctrl: true, shift: false }
}

fn c4() -> Note {
    Note::On { value: NoteValue::C, octave: 4 }
}

/// Type a note key in the note column at `(row, ch)` of the first pattern, as the
/// insert mode does; returns the cursor row afterwards.
fn type_note(song: &mut Song, history: &mut EditHistory, row: usize, ch: usize, c: char) -> usize {
    let note = note_for_key(c, 4).unwrap();
    let p = song.order[0];
    enter_note(song, history, p, row, ch, note, None);
    cursor_down(row, 1, song.patterns[p].rows)
}

#[test]
fn mod_test_cursor_movement() {
    let mut row = 0;
    row = cursor_down(row, 5, 64);
    assert_eq!(row, 5);
    row = cursor_up(row, 3);
    assert_eq!(row, 2);
    row = cursor_up(row, 100);
    assert_eq!(row, 0);
    row = cursor_down(row, 1000, 64);
    assert_eq!(row, 63);
}

#[test]
fn mod_test_cursor_left_right() {
    let mut t = TrackCursor { channel: 0, sub: SubColumn::Note, page: 0 };
    t = cursor_right(t, 4);
    assert_eq!(t.sub, SubColumn::Instrument);
    t = cursor_right(t, 4);
    assert_eq!(t.sub, SubColumn::Volume);
    t = cursor_right(t, 4);
    assert_eq!(t.sub, SubColumn::Effect);
    t = cursor_right(t, 4);
    assert_eq!(t.channel, 1);
    assert_eq!(t.sub, SubColumn::Note);
    t = cursor_left(t);
    assert_eq!(t.channel, 0);
    assert_eq!(t.sub, SubColumn::Effect);
}

#[test]
fn mod_test_cursor_bounds() {
    let t = cursor_left(TrackCursor { channel: 0, sub: SubColumn::Note, page: 0 });
    assert_eq!(t.channel, 0);
    assert_eq!(t.sub, SubColumn::Note);
    let t = cursor_right(TrackCursor { channel: 3, sub: SubColumn::Effect, page: 0 }, 4);
    assert_eq!(t.channel, 3);
    assert_eq!(t.sub, SubColumn::Effect);
}

#[test]
fn test_tab_cycles_tracks() {
    let mut t = TrackCursor { channel: 0, sub: SubColumn::Note, page: 0 };
    for want in [1, 2, 3, 0] {
        t = cycle_track(t, 4, true);
        assert_eq!(t.channel, want);
    }
    t = cycle_track(t, 4, false);
    assert_eq!(t.channel, 3);
    t = cycle_track(t, 4, false);
    assert_eq!(t.channel, 2);
    let t = cycle_track(TrackCursor { channel: 3, sub: SubColumn::Volume, page: 0 }, 8, true);
    assert_eq!(t.channel, 4);
    assert_eq!(t.page, 1);
    assert_eq!(t.sub, SubColumn::Note);
}

#[test]
fn mod_test_note_entry() {
    let mut song = Song::new(4, 64);
    let mut history = EditHistory::new();
    let row = type_note(&mut song, &mut history, 0, 0, 'z');
    assert!(song.patterns[0].get(0, 0).note.is_some());
    assert_eq!(row, 1);
    assert_eq!(history.undo_stack.len(), 1);
}

#[test]
fn mod_test_note_off_entry() {
    let mut song = Song::new(4, 64);
    let mut history = EditHistory::new();
    let cell = Cell { note: Some(Note::Off), ..cell_at(&song, 0, 0, 0) };
    write_cell(&mut song, &mut history, 0, 0, 0, cell);
    assert_eq!(song.patterns[0].get(0, 0).note, Some(Note::Off));
}

#[test]
fn mod_test_delete_at_cursor() {
    let mut song = Song::new(4, 64);
    let mut history = EditHistory::new();
    type_note(&mut song, &mut history, 0, 0, 'z');
    let cleared = delete_column(cell_at(&song, 0, 0, 0), SubColumn::Note);
    write_cell(&mut song, &mut history, 0, 0, 0, cleared);
    assert!(song.patterns[0].get(0, 0).note.is_none());
}

#[test]
fn mod_test_octave_change() {
    let o = 4;
    let o = octave_up(o);
    assert_eq!(o, 5);
    let o = octave_down(o);
    assert_eq!(o, 4);
    assert_eq!(octave_up(9), 9);
    assert_eq!(octave_down(0), 0);
}

#[test]
fn mod_test_upper_octave_note_entry() {
    assert_eq!(note_for_key('q', 4), Some(Note::On { value: NoteValue::C, octave: 5 }));
    assert_eq!(note_for_key('u', 9), None);
    assert_eq!(note_for_key('m', 9), Some(Note::On { value: NoteValue::B, octave: 9 }));
    assert_eq!(note_for_key('!', 4), None);
}

#[test]
fn mod_test_hex_entry_instrument() {
    let cell = hex_entry(Cell::default(), SubColumn::Instrument, '1').unwrap();
    assert_eq!(cell.instrument, Some(0x01));
    let cell = hex_entry(cell, SubColumn::Instrument, 'f').unwrap();
    assert_eq!(cell.instrument, Some(0x1F));
    let cell = hex_entry(cell, SubColumn::Instrument, '2').unwrap();
    assert_eq!(cell.instrument, Some(0xF2));
    assert_eq!(hex_entry(cell, SubColumn::Volume, 'g'), None);
    let fx = hex_entry(Cell::default(), SubColumn::Effect, 'c').unwrap();
    assert_eq!(fx.effect, Some(0xC));
    let fx = hex_entry(fx, SubColumn::Effect, '4').unwrap();
    assert_eq!(fx.effect_value, Some(0x04));
}

#[test]
fn mod_test_copy_paste_row() {
    let mut song = Song::new(4, 64);
    let mut history = EditHistory::new();
    type_note(&mut song, &mut history, 0, 0, 'z');
    copy_row(&song, &mut history, 0, 0);
    assert!(history.clipboard.is_some());
    assert!(paste_row(&mut song, &mut history, 0, 5));
    assert!(song.patterns[0].get(5, 0).note.is_some());
}

#[test]
fn mod_test_cut_row() {
    let mut song = Song::new(4, 64);
    let mut history = EditHistory::new();
    type_note(&mut song, &mut history, 0, 0, 'z');
    cut_row(&mut song, &mut history, 0, 0);
    assert!(song.patterns[0].get(0, 0).note.is_none());
    assert!(history.clipboard.is_some());
}

#[test]
fn paste_row_with_empty_clipboard_does_nothing() {
    let mut song = Song::new(2, 4);
    let mut history = EditHistory::new();
    assert!(!paste_row(&mut song, &mut history, 0, 1));
    assert_eq!(history.undo_stack.len(), 0);
}

#[test]
fn mod_test_order_navigation() {
    let mut song = Song::new(4, 64);
    let new_pat = song.add_pattern();
    song.order.push(new_pat);
    let mut edit_order = 0;
    if let Some(o) = next_order_position(edit_order, song.order.len()) {
        edit_order = o;
    }
    assert_eq!(edit_order, 1);
    if let Some(o) = next_order_position(edit_order, song.order.len()) {
        edit_order = o;
    }
    assert_eq!(edit_order, 1);
    if let Some(o) = prev_order_position(edit_order) {
        edit_order = o;
    }
    assert_eq!(edit_order, 0);
    assert_eq!(prev_order_position(edit_order), None);
}

#[test]
fn mod_test_add_new_pattern_to_order() {
    let mut song = Song::new(4, 64);
    let mut history = EditHistory::new();
    let pos = add_new_pattern_to_order(&mut song, &mut history);
    assert_eq!(song.patterns.len(), 2);
    assert_eq!(song.order.len(), 2);
    assert_eq!(pos, 1);
    assert_eq!(song.order_repeats, vec![1, 1]);
}

#[test]
fn mod_test_clone_current_pattern() {
    let mut song = Song::new(4, 64);
    let mut history = EditHistory::new();
    type_note(&mut song, &mut history, 0, 0, 'z');
    let pos = clone_current_pattern(&mut song, &mut history, 0);
    assert_eq!(song.patterns.len(), 2);
    assert!(song.patterns[1].get(0, 0).note.is_some());
    assert_eq!(pos, 1);
    assert_eq!(song.order, vec![0, 1]);
}

#[test]
fn mod_test_mute_clears_solo() {
    let mut tracks = default_tracks(4);
    let mut solo = toggle_solo(None, 1);
    assert_eq!(solo, Some(1));
    assert_eq!(toggle_mute(&mut tracks, &mut solo, 0), Some(true));
    assert_eq!(solo, None);
    assert!(tracks[0].muted);
    assert_eq!(toggle_mute(&mut tracks, &mut solo, 9), None);
}

#[test]
fn track_default_instruments() {
    let mut tracks = default_tracks(2);
    tracks[0].default_instrument = Some(3);
    assert_eq!(track_default_instrument(&tracks, 0), None);
    tracks[0].channel_type = ChannelType::Synth;
    assert_eq!(track_default_instrument(&tracks, 0), Some(3));
    assert_eq!(track_default_instrument(&tracks, 5), None);
    assert_eq!(tracks[1].midi_channel, 1);
}

#[test]
fn test_block_select_toggle() {
    let mut history = EditHistory::new();
    assert!(history.block_anchor.is_none());
    toggle_block_select(&mut history, 0, 0);
    assert_eq!(history.block_anchor, Some((0, 0)));
    toggle_block_select(&mut history, 0, 0);
    assert!(history.block_anchor.is_none());
}

#[test]
fn test_block_copy_paste() {
    let mut song = Song::new(4, 64);
    let mut history = EditHistory::new();
    song.patterns[0].set_cell(0, 0, Cell { note: Some(c4()), ..Cell::default() });
    song.patterns[0].set_cell(1, 1, Cell { note: Some(Note::On { value: NoteValue::E, octave: 4 }), ..Cell::default() });
    toggle_block_select(&mut history, 0, 0);
    copy_selection(&song, &mut history, 0, 1, 1);
    let clip = history.block_clipboard.as_ref().unwrap();
    assert_eq!(clip.len(), 2);
    assert_eq!(clip[0].len(), 2);
    assert!(paste_selection(&mut song, &mut history, 0, 4, 0));
    assert_eq!(song.patterns[0].get(4, 0).note, Some(c4()));
    assert_eq!(song.patterns[0].get(5, 1).note, Some(Note::On { value: NoteValue::E, octave: 4 }));
}

#[test]
fn test_block_cut_clears_selection() {
    let mut song = Song::new(4, 64);
    let mut history = EditHistory::new();
    song.patterns[0].set_cell(0, 0, Cell { note: Some(c4()), ..Cell::default() });
    toggle_block_select(&mut history, 0, 0);
    cut_selection(&mut song, &mut history, 0, 0, 0);
    assert!(song.patterns[0].get(0, 0).note.is_none());
    assert!(history.block_anchor.is_none());
}

#[test]
fn block_paste_is_cut_off_at_pattern_edge() {
    let mut song = Song::new(2, 4);
    let mut history = EditHistory::new();
    history.block_clipboard = Some(vec![vec![Cell { note: Some(c4()), ..Cell::default() }; 3]; 3]);
    paste_selection(&mut song, &mut history, 0, 2, 1);
    assert_eq!(song.patterns[0].get(2, 1).note, Some(c4()));
    assert_eq!(song.patterns[0].get(3, 1).note, Some(c4()));
    assert!(song.patterns[0].get(2, 0).note.is_none());
    assert_eq!(song.patterns[0].data.len(), 4);
    assert_eq!(song.patterns[0].data[3].len(), 2);
}

#[test]
fn test_note_transpose_block() {
    let mut song = Song::new(2, 8);
    let mut history = EditHistory::new();
    song.patterns[0].set_cell(0, 0, Cell { note: Some(c4()), ..Cell::default() });
    song.patterns[0].set_cell(1, 1, Cell { note: Some(c4()), ..Cell::default() });
    song.patterns[0].set_cell(2, 1, Cell { note: Some(c4()), ..Cell::default() });
    toggle_block_select(&mut history, 0, 0);
    transpose_notes(&mut song, &mut history, 0, 1, 1, 2);
    let d4 = Note::On { value: NoteValue::D, octave: 4 };
    assert_eq!(song.patterns[0].get(0, 0).note, Some(d4));
    assert_eq!(song.patterns[0].get(1, 1).note, Some(d4));
    assert_eq!(song.patterns[0].get(2, 1).note, Some(c4()));
}

#[test]
fn bpm_and_edit_step_clamp() {
    assert_eq!(changed_bpm(120, 1), 121);
    assert_eq!(changed_bpm(32, -1), 32);
    assert_eq!(changed_bpm(300, 1), 300);
    assert_eq!(changed_edit_step(1, 1), 2);
    assert_eq!(changed_edit_step(0, -1), 0);
    assert_eq!(changed_edit_step(16, 1), 16);
}

#[test]
fn visible_channel_pages() {
    assert_eq!(visible_channels(0, 8), (0, 4));
    assert_eq!(visible_channels(1, 6), (4, 6));
}

fn matrix(song: &mut Song, history: &mut EditHistory, cursor: usize, k: KeyPress) -> usize {
    let cmd = matrix_key_for(k).unwrap();
    handle_matrix_key(song, history, cursor, cmd).cursor
}

#[test]
fn test_pattern_matrix_navigation() {
    let mut song = Song::new(4, 64);
    let mut history = EditHistory::new();
    song.order.push(0);
    song.order.push(0);
    assert_eq!(command_for("p"), Command::PatternMatrix);
    let mut cur = 0;
    cur = matrix(&mut song, &mut history, cur, key(KeyCode::Down));
    assert_eq!(cur, 1);
    cur = matrix(&mut song, &mut history, cur, key(KeyCode::Down));
    assert_eq!(cur, 2);
    cur = matrix(&mut song, &mut history, cur, key(KeyCode::Down));
    assert_eq!(cur, 2);
    cur = matrix(&mut song, &mut history, cur, key(KeyCode::Up));
    assert_eq!(cur, 1);
    cur = matrix(&mut song, &mut history, cur, key(KeyCode::End));
    assert_eq!(cur, 2);
    cur = matrix(&mut song, &mut history, cur, key(KeyCode::Home));
    assert_eq!(cur, 0);
}

#[test]
fn test_pattern_matrix_enter_jumps() {
    let mut song = Song::new(4, 64);
    let mut history = EditHistory::new();
    song.order.push(0);
    song.order.push(0);
    let mut cur = 0;
    cur = matrix(&mut song, &mut history, cur, key(KeyCode::Down));
    cur = matrix(&mut song, &mut history, cur, key(KeyCode::Down));
    assert_eq!(cur, 2);
    let out = handle_matrix_key(&mut song, &mut history, cur, matrix_key_for(key(KeyCode::Enter)).unwrap());
    assert!(out.jump && out.close);
    assert_eq!(out.cursor, 2);
}

#[test]
fn test_pattern_matrix_insert_delete() {
    let mut song = Song::new(4, 64);
    let mut history = EditHistory::new();
    assert_eq!(song.order.len(), 1);
    let mut cur = matrix(&mut song, &mut history, 0, key(KeyCode::Insert));
    assert_eq!(song.order, vec![0, 0]);
    assert_eq!(cur, 1);
    cur = matrix(&mut song, &mut history, cur, key(KeyCode::Delete));
    assert_eq!(song.order.len(), 1);
    assert_eq!(cur, 0);
    let out = handle_matrix_key(&mut song, &mut history, cur, MatrixKey::Delete);
    assert_eq!(song.order.len(), 1);
    assert_eq!(out.status, Some(MatrixStatus::CannotRemoveLast));
}

#[test]
fn test_pattern_matrix_new_clone() {
    let mut song = Song::new(4, 64);
    let mut history = EditHistory::new();
    let mut cur = matrix(&mut song, &mut history, 0, ctrl('n'));
    assert_eq!(song.patterns.len(), 2);
    assert_eq!(song.order.len(), 2);
    assert_eq!(song.order[1], 1);
    assert_eq!(cur, 1);
    cur = matrix(&mut song, &mut history, cur, ctrl('d'));
    assert_eq!(song.patterns.len(), 3);
    assert_eq!(song.order.len(), 3);
    assert_eq!(cur, 2);
}

#[test]
fn test_pattern_matrix_change_pattern() {
    let mut song = Song::new(4, 64);
    let mut history = EditHistory::new();
    song.add_pattern();
    matrix(&mut song, &mut history, 0, key(KeyCode::Right));
    assert_eq!(song.order[0], 1);
    matrix(&mut song, &mut history, 0, key(KeyCode::Left));
    assert_eq!(song.order[0], 0);
    matrix(&mut song, &mut history, 0, key(KeyCode::Left));
    assert_eq!(song.order[0], 0);
}

#[test]
fn test_pattern_matrix_repeat() {
    let mut song = Song::new(4, 64);
    let mut history = EditHistory::new();
    assert_eq!(song.order_repeats[0], 1);
    matrix(&mut song, &mut history, 0, key(KeyCode::Char(']')));
    assert_eq!(song.order_repeats[0], 2);
    matrix(&mut song, &mut history, 0, key(KeyCode::Char(']')));
    assert_eq!(song.order_repeats[0], 3);
    matrix(&mut song, &mut history, 0, key(KeyCode::Char('[')));
    assert_eq!(song.order_repeats[0], 2);
    matrix(&mut song, &mut history, 0, key(KeyCode::Char('[')));
    matrix(&mut song, &mut history, 0, key(KeyCode::Char('[')));
    assert_eq!(song.order_repeats[0], 0);
    matrix(&mut song, &mut history, 0, key(KeyCode::Char('[')));
    assert_eq!(song.order_repeats[0], 0);
}

#[test]
fn test_order_repeats_sync_on_insert_delete() {
    let mut song = Song::new(4, 64);
    let mut history = EditHistory::new();
    matrix(&mut song, &mut history, 0, key(KeyCode::Char(']')));
    matrix(&mut song, &mut history, 0, key(KeyCode::Char(']')));
    assert_eq!(song.order_repeats[0], 3);
    let cur = matrix(&mut song, &mut history, 0, key(KeyCode::Insert));
    assert_eq!(song.order_repeats, vec![3, 1]);
    matrix(&mut song, &mut history, cur, key(KeyCode::Delete));
    assert_eq!(song.order_repeats, vec![3]);
}

#[test]
fn matrix_keys_without_meaning() {
    assert_eq!(matrix_key_for(key(KeyCode::Char('n'))), None);
    assert_eq!(matrix_key_for(key(KeyCode::Char('q'))), Some(MatrixKey::Close));
    assert_eq!(matrix_key_for(KeyPress { code: KeyCode::Up, ctrl: true, shift: false }), Some(MatrixKey::Up));
}

#[test]
fn test_command_mode_unknown() {
    assert_eq!(command_for("nonsense"), Command::Unknown);
    assert_eq!(command_for("wq"), Command::WriteQuit);
    assert_eq!(command_for("q!"), Command::ForceQuit);
    assert_eq!(command_for("exportmidi"), Command::ExportMidi);
    assert_eq!(command_for("load"), Command::LoadSample);
    assert_eq!(command_for(""), Command::Unknown);
}

#[test]
fn midi_keyboard_notes() {
    assert_eq!(note_from_midi(60), Note::On { value: NoteValue::C, octave: 5 });
    assert_eq!(note_from_midi(61).to_midi_note(), Some(61));
    let cell = enter_midi_note(Cell::default(), 64, 90);
    assert_eq!(cell.note, Some(Note::On { value: NoteValue::E, octave: 5 }));
    assert_eq!(cell.volume, Some(90));
}

#[test]
fn test_interpolate_volume() {
    let mut song = Song::new(4, 64);
    let mut history = EditHistory::new();
    let p = song.order[0];
    song.patterns[p].set_cell(0, 0, Cell { volume: Some(0), ..Cell::default() });
    song.patterns[p].set_cell(4, 0, Cell { volume: Some(100), ..Cell::default() });
    history.block_anchor = Some((0, 0));
    let out = interpolate_selection(&mut song, &mut history, p, 4, 0);
    assert_eq!(out, InterpolateOutcome::Interpolated);
    assert_eq!(song.patterns[p].get(0, 0).volume, Some(0));
    assert_eq!(song.patterns[p].get(1, 0).volume, Some(25));
    assert_eq!(song.patterns[p].get(2, 0).volume, Some(50));
    assert_eq!(song.patterns[p].get(3, 0).volume, Some(75));
    assert_eq!(song.patterns[p].get(4, 0).volume, Some(100));
}

#[test]
fn test_interpolate_effect_value() {
    let mut song = Song::new(4, 64);
    let mut history = EditHistory::new();
    let p = song.order[0];
    song.patterns[p].set_cell(0, 0, Cell { effect: Some(5), effect_value: Some(0), ..Cell::default() });
    song.patterns[p].set_cell(2, 0, Cell { effect: Some(5), effect_value: Some(80), ..Cell::default() });
    history.block_anchor = Some((0, 0));
    interpolate_selection(&mut song, &mut history, p, 2, 0);
    assert_eq!(song.patterns[p].get(1, 0).effect, Some(5));
    assert_eq!(song.patterns[p].get(1, 0).effect_value, Some(40));
}

#[test]
fn test_interpolate_no_block() {
    let mut song = Song::new(4, 64);
    let mut history = EditHistory::new();
    let p = song.order[0];
    let out = interpolate_selection(&mut song, &mut history, p, 0, 0);
    assert_eq!(out, InterpolateOutcome::NoBlock);
    assert!(history.undo_stack.is_empty());
}

#[test]
fn interpolation_rounds_halves_up_and_skips_unlike_effects() {
    let mut song = Song::new(2, 8);
    let mut history = EditHistory::new();
    song.patterns[0].set_cell(0, 0, Cell { volume: Some(0), effect: Some(1), effect_value: Some(0), ..Cell::default() });
    song.patterns[0].set_cell(2, 0, Cell { volume: Some(1), effect: Some(2), effect_value: Some(9), ..Cell::default() });
    song.patterns[0].set_cell(0, 1, Cell { volume: Some(7), ..Cell::default() });
    history.block_anchor = Some((2, 1));
    let out = interpolate_selection(&mut song, &mut history, 0, 0, 0);
    assert_eq!(out, InterpolateOutcome::Interpolated);
    assert_eq!(song.patterns[0].get(1, 0).volume, Some(1));
    assert_eq!(song.patterns[0].get(1, 0).effect_value, None);
    assert_eq!(song.patterns[0].get(1, 1).volume, None);
    assert_eq!(history.undo_stack.len(), 1);
    history.block_anchor = Some((3, 0));
    assert_eq!(interpolate_selection(&mut song, &mut history, 0, 3, 1), InterpolateOutcome::TooFewRows);
}
