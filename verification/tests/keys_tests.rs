use rtrack::edit::{cursor_down, cursor_up, Command, next_order_position, prev_order_position, default_tracks, toggle_mute, KeyCode, KeyPress, SubColumn, TrackConfig};
use rtrack::editor::{is_channel_audible, toggle_solo, EditHistory, Mode, SampleField, SynthField};
use rtrack::keys::{
    click_at, command_line_key, help_key, insert_mode_action, instrument_list_key, normal_mode_action, port_select_key,
    quit_answer, sample_editor_key, synth_editor_key, ClickTarget, CommandLineKey, EditorAction, EditorKey,
    InstrumentListKey, KeyContext, PortSelectKey, QuitAnswer, MAX_INSTRUMENTS, SCROLL_ROWS,
};
use rtrack::playback::Player;
use rtrack::song::Song;

fn plain(code: KeyCode) -> KeyPress {
    KeyPress { code, ctrl: false, shift: false }
}

fn ctrl(code: KeyCode) -> KeyPress {
    KeyPress { code, ctrl: true, shift: false }
}

/// The part of an editor these tests look at, driven through the key decisions.
struct Ed {
    song: Song,
    history: EditHistory,
    mode: Mode,
    prev_mode: Mode,
    tracks: Vec<TrackConfig>,
    solo: Option<usize>,
    edit_order: usize,
    dirty: bool,
    should_quit: bool,
    follow: bool,
    clock: bool,
    theme: usize,
    player: Player,
}

impl Ed {
    fn new() -> Ed {
        Ed {
            song: Song::new(4, 64),
            history: EditHistory::new(),
            mode: Mode::Normal,
            prev_mode: Mode::Normal,
            tracks: default_tracks(4),
            solo: None,
            edit_order: 0,
            dirty: false,
            should_quit: false,
            follow: true,
            clock: false,
            theme: 0,
            player: Player::new(),
        }
    }

    fn ctx(&self) -> KeyContext {
        KeyContext {
            has_anchor: self.history.block_anchor.is_some(),
            has_block_clipboard: self.history.block_clipboard.is_some(),
            track_page: 0,
            playing: self.player.playing,
            dirty: self.dirty,
            sub: SubColumn::Note,
        }
    }

    fn key(&mut self, k: KeyPress) {
        if self.mode == Mode::QuitConfirm {
            match quit_answer(k) {
                QuitAnswer::Quit | QuitAnswer::SaveAndQuit => self.should_quit = true,
                QuitAnswer::Cancel => self.mode = self.prev_mode,
            }
            return;
        }
        let action = if self.mode == Mode::Insert {
            insert_mode_action(k, self.ctx())
        } else {
            normal_mode_action(k, self.ctx())
        };
        match action {
            EditorAction::InsertMode => self.mode = Mode::Insert,
            EditorAction::NormalMode => self.mode = Mode::Normal,
            EditorAction::OpenPortSelector => self.mode = Mode::MidiPortSelect,
            EditorAction::OpenSongSettings => self.mode = Mode::SongSettings,
            EditorAction::OpenInstrumentList => self.mode = Mode::InstrumentList,
            EditorAction::CycleTheme => self.theme += 1,
            EditorAction::ToggleMidiClock => self.clock = !self.clock,
            EditorAction::ToggleFollow => self.follow = !self.follow,
            EditorAction::Undo => {
                self.history.undo(&mut self.song);
            }
            EditorAction::NextOrderPosition => {
                if let Some(p) = next_order_position(self.edit_order, self.song.order.len()) {
                    self.edit_order = p;
                }
            }
            EditorAction::PrevOrderPosition => {
                if let Some(p) = prev_order_position(self.edit_order) {
                    self.edit_order = p;
                }
            }
            EditorAction::ToggleMute(ch) => {
                toggle_mute(&mut self.tracks, &mut self.solo, ch);
            }
            EditorAction::ToggleSolo(ch) => self.solo = toggle_solo(self.solo, ch),
            EditorAction::PlayFromStart => self.player.play(0, self.song.channels),
            EditorAction::Stop => self.player.stop(),
            EditorAction::ConfirmQuit => {
                self.prev_mode = self.mode;
                self.mode = Mode::QuitConfirm;
            }
            EditorAction::Quit => self.should_quit = true,
            _ => {}
        }
    }

    fn audible(&self, ch: usize) -> bool {
        is_channel_audible(self.solo, self.tracks.get(ch).map(|t| t.muted), ch)
    }
}

#[test]
fn mod_test_mode_toggle() {
    let mut ed = Ed::new();
    assert_eq!(ed.mode, Mode::Normal);
    ed.key(plain(KeyCode::Esc));
    assert_eq!(ed.mode, Mode::Insert);
    ed.key(plain(KeyCode::Esc));
    assert_eq!(ed.mode, Mode::Normal);
}

#[test]
fn app_test_mode_toggle() {
    let mut ed = Ed::new();
    assert_eq!(ed.mode, Mode::Normal);
    let esc = plain(KeyCode::Esc);
    ed.key(esc);
    assert_eq!(ed.mode, Mode::Insert);
    ed.key(esc);
    assert_eq!(ed.mode, Mode::Normal);
}

#[test]
fn mod_test_f2_opens_port_selector() {
    let mut ed = Ed::new();
    ed.key(plain(KeyCode::F(2)));
    assert_eq!(ed.mode, Mode::MidiPortSelect);
}

#[test]
fn app_test_f2_opens_port_selector() {
    let mut ed = Ed::new();
    let f2 = plain(KeyCode::F(2));
    ed.key(f2);
    assert_eq!(ed.mode, Mode::MidiPortSelect);
}

#[test]
fn mod_test_ctrl_z_undoes() {
    let mut ed = Ed::new();
    ed.history.push_undo(&ed.song);
    ed.song.title = "Changed".to_string();
    ed.key(ctrl(KeyCode::Char('z')));
    assert_ne!(ed.song.title, "Changed");
}

#[test]
fn mod_test_ctrl_right_navigates_order() {
    let mut ed = Ed::new();
    let new_pat = ed.song.add_pattern();
    ed.song.order.push(new_pat);
    ed.key(ctrl(KeyCode::Right));
    assert_eq!(ed.edit_order, 1);
    ed.key(ctrl(KeyCode::Left));
    assert_eq!(ed.edit_order, 0);
}

#[test]
fn app_test_ctrl_right_navigates_order() {
    let mut ed = Ed::new();
    ed.song.add_pattern();
    ed.song.order.push(1);
    ed.key(ctrl(KeyCode::Right));
    assert_eq!(ed.edit_order, 1);
    ed.key(ctrl(KeyCode::Left));
    assert_eq!(ed.edit_order, 0);
}

#[test]
fn mod_test_f9_toggles_mute() {
    let mut ed = Ed::new();
    assert!(ed.audible(0));
    ed.key(plain(KeyCode::F(9)));
    assert!(!ed.audible(0));
}

#[test]
fn app_test_f9_toggles_mute() {
    let mut ed = Ed::new();
    let key = plain(KeyCode::F(9));
    ed.key(key);
    assert!(ed.tracks[0].muted);
    ed.key(key);
    assert!(!ed.tracks[0].muted);
}

#[test]
fn mod_test_ctrl_f9_toggles_solo() {
    let mut ed = Ed::new();
    assert!(ed.audible(0));
    assert!(ed.audible(1));
    ed.key(ctrl(KeyCode::F(9)));
    assert!(ed.audible(0));
    assert!(!ed.audible(1));
}

#[test]
fn app_test_ctrl_f9_toggles_solo() {
    let mut ed = Ed::new();
    let key = ctrl(KeyCode::F(9));
    ed.key(key);
    assert_eq!(ed.solo, Some(0));
    ed.key(key);
    assert_eq!(ed.solo, None);
}

#[test]
fn function_keys_follow_the_track_page() {
    let ctx = KeyContext { has_anchor: false, has_block_clipboard: false, track_page: 2, playing: false, dirty: false, sub: SubColumn::Note };
    assert_eq!(normal_mode_action(plain(KeyCode::F(11)), ctx), EditorAction::ToggleMute(10));
    assert_eq!(insert_mode_action(ctrl(KeyCode::F(12)), ctx), EditorAction::ToggleSolo(11));
}

#[test]
fn mod_test_f6_opens_settings() {
    let mut ed = Ed::new();
    ed.key(plain(KeyCode::F(6)));
    assert_eq!(ed.mode, Mode::SongSettings);
}

#[test]
fn app_test_f6_opens_settings() {
    let mut ed = Ed::new();
    let key = plain(KeyCode::F(6));
    ed.key(key);
    assert_eq!(ed.mode, Mode::SongSettings);
}

#[test]
fn mod_test_f7_opens_instruments() {
    let mut ed = Ed::new();
    ed.key(plain(KeyCode::F(7)));
    assert_eq!(ed.mode, Mode::InstrumentList);
}

#[test]
fn app_test_f7_opens_instruments() {
    let mut ed = Ed::new();
    let key = plain(KeyCode::F(7));
    ed.key(key);
    assert_eq!(ed.mode, Mode::InstrumentList);
}

#[test]
fn mod_test_f8_cycles_theme() {
    let mut ed = Ed::new();
    let initial = ed.theme;
    ed.key(plain(KeyCode::F(8)));
    assert_ne!(ed.theme, initial);
}

#[test]
fn app_test_f8_cycles_theme() {
    let mut ed = Ed::new();
    ed.key(plain(KeyCode::F(8)));
    assert_eq!(ed.theme, 1);
}

#[test]
fn mod_test_ctrl_m_toggles_clock() {
    let mut ed = Ed::new();
    let initial = ed.clock;
    ed.key(ctrl(KeyCode::Char('m')));
    assert_ne!(ed.clock, initial);
}

#[test]
fn app_test_ctrl_m_toggles_clock() {
    let mut ed = Ed::new();
    let key = ctrl(KeyCode::Char('m'));
    ed.key(key);
    assert!(ed.clock);
    ed.key(key);
    assert!(!ed.clock);
}

#[test]
fn test_ctrl_space_plays_from_start() {
    let mut ed = Ed::new();
    ed.song.order = vec![0, 0, 0];
    ed.edit_order = 2;
    ed.key(ctrl(KeyCode::Char(' ')));
    assert!(ed.player.playing);
    assert_eq!(ed.player.order, 0);
    assert_eq!(ed.player.row, 0);
    ed.key(ctrl(KeyCode::Char(' ')));
    assert!(!ed.player.playing);
}

#[test]
fn test_quit_confirm_when_dirty() {
    let mut ed = Ed::new();
    ed.dirty = true;
    ed.key(plain(KeyCode::Char('q')));
    assert!(!ed.should_quit);
    assert_eq!(ed.mode, Mode::QuitConfirm);
    ed.key(plain(KeyCode::Char('n')));
    assert!(!ed.should_quit);
    assert_eq!(ed.mode, Mode::Normal);
}

#[test]
fn test_quit_confirm_yes() {
    let mut ed = Ed::new();
    ed.dirty = true;
    ed.key(plain(KeyCode::Char('q')));
    assert_eq!(ed.mode, Mode::QuitConfirm);
    ed.key(plain(KeyCode::Char('y')));
    assert!(ed.should_quit);
}

#[test]
fn test_quit_no_confirm_when_clean() {
    let mut ed = Ed::new();
    assert!(!ed.dirty);
    ed.key(plain(KeyCode::Char('q')));
    assert!(ed.should_quit);
}

#[test]
fn test_follow_mode_toggle() {
    let mut ed = Ed::new();
    assert!(ed.follow);
    ed.key(ctrl(KeyCode::Char('f')));
    assert!(!ed.follow);
    ed.key(ctrl(KeyCode::Char('f')));
    assert!(ed.follow);
}

#[test]
fn quit_answer_takes_either_case() {
    assert_eq!(quit_answer(plain(KeyCode::Char('Y'))), QuitAnswer::Quit);
    assert_eq!(quit_answer(plain(KeyCode::Char('S'))), QuitAnswer::SaveAndQuit);
    assert_eq!(quit_answer(plain(KeyCode::Esc)), QuitAnswer::Cancel);
}

#[test]
fn insert_mode_keys_enter_notes_and_digits() {
    let mut ctx = KeyContext { has_anchor: false, has_block_clipboard: false, track_page: 0, playing: false, dirty: false, sub: SubColumn::Note };
    assert_eq!(insert_mode_action(plain(KeyCode::Char('z')), ctx), EditorAction::NoteKey('z'));
    assert_eq!(insert_mode_action(plain(KeyCode::Char('=')), ctx), EditorAction::NoteOff);
    assert_eq!(insert_mode_action(plain(KeyCode::Backspace), ctx), EditorAction::ClearCell);
    ctx.sub = SubColumn::Volume;
    assert_eq!(insert_mode_action(plain(KeyCode::Char('=')), ctx), EditorAction::HexDigit('='));
    assert_eq!(insert_mode_action(plain(KeyCode::Char(' ')), ctx), EditorAction::TogglePlayback);
    assert_eq!(normal_mode_action(plain(KeyCode::Backspace), ctx), EditorAction::DeleteRow);
    ctx.has_anchor = true;
    assert_eq!(normal_mode_action(ctrl(KeyCode::Char('c')), ctx), EditorAction::CopyBlock);
    assert_eq!(normal_mode_action(ctrl(KeyCode::Char('v')), ctx), EditorAction::PasteRow);
    let shift_up = KeyPress { code: KeyCode::Up, ctrl: false, shift: true };
    assert_eq!(normal_mode_action(shift_up, ctx), EditorAction::Transpose(1));
}

#[test]
fn test_command_mode_open_close() {
    let mut ed = Ed::new();
    let a = normal_mode_action(plain(KeyCode::Char(':')), ed.ctx());
    assert_eq!(a, EditorAction::OpenCommandLine);
    ed.mode = Mode::Command;
    let mut buf = String::new();
    assert_eq!(command_line_key(&mut buf, plain(KeyCode::Esc)), CommandLineKey::Cancel);
}

#[test]
fn test_command_mode_backspace_cancels() {
    let mut buf = String::new();
    assert_eq!(command_line_key(&mut buf, plain(KeyCode::Char('x'))), CommandLineKey::Stay);
    assert_eq!(command_line_key(&mut buf, plain(KeyCode::Backspace)), CommandLineKey::Stay);
    assert_eq!(buf, "");
    assert_eq!(command_line_key(&mut buf, plain(KeyCode::Backspace)), CommandLineKey::Cancel);
}

#[test]
fn command_line_runs_unknown_text() {
    let mut buf = String::new();
    for c in "nonsense".chars() {
        command_line_key(&mut buf, plain(KeyCode::Char(c)));
    }
    assert_eq!(command_line_key(&mut buf, plain(KeyCode::Enter)), CommandLineKey::Run(Command::Unknown));
    assert_eq!(buf, "");
}

#[test]
fn command_line_trims_white_space() {
    let mut buf = "  fx \t".to_string();
    assert_eq!(command_line_key(&mut buf, plain(KeyCode::Enter)), CommandLineKey::Run(Command::Effects));
}

#[test]
fn command_line_trims_unicode_white_space() {
    let mut buf = "\u{3000}\u{a0}fx\u{2028}\n".to_string();
    assert_eq!(command_line_key(&mut buf, plain(KeyCode::Enter)), CommandLineKey::Run(Command::Effects));
    let mut inner = "f x".to_string();
    assert_eq!(command_line_key(&mut inner, plain(KeyCode::Enter)), CommandLineKey::Run(Command::Unknown));
}

#[test]
fn mod_test_instrument_list_open_close() {
    let mut names = vec![String::new(); MAX_INSTRUMENTS];
    let mut cursor = 0usize;
    assert_eq!(normal_mode_action(plain(KeyCode::F(7)), Ed::new().ctx()), EditorAction::OpenInstrumentList);
    assert_eq!(instrument_list_key(&mut cursor, &mut names, plain(KeyCode::Esc)), InstrumentListKey::Close);
}

#[test]
fn mod_test_instrument_list_navigation() {
    let mut names = vec![String::new(); MAX_INSTRUMENTS];
    let mut cursor = 0usize;
    instrument_list_key(&mut cursor, &mut names, plain(KeyCode::Down));
    assert_eq!(cursor, 1);
    instrument_list_key(&mut cursor, &mut names, plain(KeyCode::PageDown));
    assert_eq!(cursor, 17);
    instrument_list_key(&mut cursor, &mut names, plain(KeyCode::PageUp));
    assert_eq!(cursor, 1);
    instrument_list_key(&mut cursor, &mut names, plain(KeyCode::Up));
    assert_eq!(cursor, 0);
}

#[test]
fn app_test_instrument_list_navigation() {
    let mut names = vec![String::new(); MAX_INSTRUMENTS];
    let mut cursor = 0usize;
    let down = plain(KeyCode::Down);
    instrument_list_key(&mut cursor, &mut names, down);
    assert_eq!(cursor, 1);
    let up = plain(KeyCode::Up);
    instrument_list_key(&mut cursor, &mut names, up);
    assert_eq!(cursor, 0);
    instrument_list_key(&mut cursor, &mut names, up);
    assert_eq!(cursor, 0);
}

#[test]
fn test_instrument_name_edit() {
    let mut names = vec![String::new(); MAX_INSTRUMENTS];
    let mut cursor = 0usize;
    assert!(names[0].is_empty());
    for c in "Test".chars() {
        assert_eq!(instrument_list_key(&mut cursor, &mut names, plain(KeyCode::Char(c))), InstrumentListKey::Renamed);
    }
    assert_eq!(names[0], "Test");
    instrument_list_key(&mut cursor, &mut names, plain(KeyCode::Backspace));
    assert_eq!(names[0], "Tes");
}

#[test]
fn instrument_list_opens_editors_and_stops_at_the_end() {
    let mut names = vec![String::new(); MAX_INSTRUMENTS];
    let mut cursor = 250usize;
    instrument_list_key(&mut cursor, &mut names, plain(KeyCode::PageDown));
    assert_eq!(cursor, 255);
    instrument_list_key(&mut cursor, &mut names, plain(KeyCode::Down));
    assert_eq!(cursor, 255);
    assert_eq!(instrument_list_key(&mut cursor, &mut names, plain(KeyCode::Enter)), InstrumentListKey::OpenSampleEditor(255));
    assert_eq!(instrument_list_key(&mut cursor, &mut names, plain(KeyCode::Tab)), InstrumentListKey::OpenSynthEditor(255));
    assert_eq!(instrument_list_key(&mut cursor, &mut names, plain(KeyCode::F(7))), InstrumentListKey::Close);
}

#[test]
fn mod_test_mouse_scroll() {
    let mut row = 10usize;
    row = cursor_up(row, SCROLL_ROWS);
    assert_eq!(row, 7);
    row = cursor_down(row, SCROLL_ROWS, 64);
    assert_eq!(row, 10);
}

#[test]
fn app_test_mouse_scroll() {
    let mut row = 10usize;
    row = cursor_up(row, SCROLL_ROWS);
    assert_eq!(row, 7); // moved up 3
    row = cursor_down(row, SCROLL_ROWS, 64);
    assert_eq!(row, 10); // moved down 3
}

#[test]
fn mouse_click_picks_row_channel_and_column() {
    // Pattern area at (7, 3); cursor on row 30, so row 10 is shown first.
    let t = click_at(7 + 6 + 17 + 4, 3 + 5, 7, 3, 30, 64, 4, 4, 0);
    assert_eq!(t, ClickTarget { row: Some(15), channel: Some(1), sub: Some(SubColumn::Instrument) });
    let t = click_at(7 + 6 + 12, 3, 7, 3, 5, 64, 4, 4, 0);
    assert_eq!(t, ClickTarget { row: Some(0), channel: Some(0), sub: Some(SubColumn::Effect) });
    let t = click_at(7 + 6 + 15, 3, 7, 3, 5, 64, 4, 4, 0);
    assert_eq!(t, ClickTarget { row: Some(0), channel: Some(0), sub: None });
    let t = click_at(7 + 2, 3 + 70, 7, 3, 0, 64, 4, 4, 0);
    assert_eq!(t, ClickTarget { row: None, channel: None, sub: None });
    let t = click_at(7 + 6, 3, 7, 3, 0, 64, 8, 8, 1);
    assert_eq!(t, ClickTarget { row: Some(0), channel: Some(4), sub: Some(SubColumn::Note) });
    let t = click_at(7 + 6, 3, 7, 3, 0, 64, 4, 4, 1);
    assert_eq!(t, ClickTarget { row: Some(0), channel: None, sub: None });
    assert_eq!(click_at(50, 2, 7, 3, 0, 64, 4, 4, 0), ClickTarget { row: None, channel: None, sub: None });
}

#[test]
fn mod_test_port_select_navigation() {
    let ports = vec!["Port A".to_string(), "Port B".to_string(), "Port C".to_string()];
    let mut cursor = 0usize;
    port_select_key(&mut cursor, ports.len(), plain(KeyCode::Down));
    assert_eq!(cursor, 1);
    port_select_key(&mut cursor, ports.len(), plain(KeyCode::Down));
    assert_eq!(cursor, 2);
    port_select_key(&mut cursor, ports.len(), plain(KeyCode::Down));
    assert_eq!(cursor, 2);
    port_select_key(&mut cursor, ports.len(), plain(KeyCode::Up));
    assert_eq!(cursor, 1);
}

#[test]
fn app_test_port_select_navigation() {
    let ports: Vec<String> = vec!["Port A".into(), "Port B".into(), "Port C".into()];
    let mut cursor = 0usize;
    let down = plain(KeyCode::Down);
    port_select_key(&mut cursor, ports.len(), down);
    assert_eq!(cursor, 1);
    port_select_key(&mut cursor, ports.len(), down);
    assert_eq!(cursor, 2);
    port_select_key(&mut cursor, ports.len(), down);
    assert_eq!(cursor, 2);
    let up = plain(KeyCode::Up);
    port_select_key(&mut cursor, ports.len(), up);
    assert_eq!(cursor, 1);
}

#[test]
fn mod_test_port_select_esc_closes() {
    let mut ed = Ed::new();
    ed.key(plain(KeyCode::F(2)));
    assert_eq!(ed.mode, Mode::MidiPortSelect);
    let mut cursor = 0usize;
    assert_eq!(port_select_key(&mut cursor, 0, plain(KeyCode::Esc)), PortSelectKey::Close);
}

#[test]
fn app_test_port_select_esc_closes() {
    let mut cursor = 0usize;
    let esc = plain(KeyCode::Esc);
    assert_eq!(port_select_key(&mut cursor, 3, esc), PortSelectKey::Close);
    assert_eq!(port_select_key(&mut cursor, 3, plain(KeyCode::F(2))), PortSelectKey::Close);
    assert_eq!(port_select_key(&mut cursor, 3, plain(KeyCode::Enter)), PortSelectKey::Select);
}

#[test]
fn help_screen_scrolls_and_closes() {
    let mut scroll = 0usize;
    assert!(!help_key(&mut scroll, plain(KeyCode::Up)));
    assert_eq!(scroll, 0);
    help_key(&mut scroll, plain(KeyCode::PageDown));
    help_key(&mut scroll, plain(KeyCode::Char('j')));
    assert_eq!(scroll, 11);
    help_key(&mut scroll, plain(KeyCode::PageUp));
    assert_eq!(scroll, 1);
    help_key(&mut scroll, plain(KeyCode::Home));
    assert_eq!(scroll, 0);
    assert!(help_key(&mut scroll, plain(KeyCode::Char('q'))));
    assert!(help_key(&mut scroll, plain(KeyCode::F(1))));
}

#[test]
fn synth_editor_keys() {
    let mut f = SynthField::Waveform;
    assert_eq!(synth_editor_key(&mut f, plain(KeyCode::Tab)), EditorKey::Stay);
    assert_eq!(f, SynthField::Attack);
    assert_eq!(synth_editor_key(&mut f, plain(KeyCode::Up)), EditorKey::Adjust(1));
    assert_eq!(synth_editor_key(&mut f, plain(KeyCode::Left)), EditorKey::Adjust(-10));
    assert_eq!(synth_editor_key(&mut f, plain(KeyCode::Delete)), EditorKey::ClearParams);
    assert_eq!(synth_editor_key(&mut f, plain(KeyCode::Esc)), EditorKey::Close);
}

#[test]
fn sample_editor_keys() {
    let mut f = SampleField::SliceCount;
    assert_eq!(sample_editor_key(&mut f, plain(KeyCode::Enter)), EditorKey::Stay);
    sample_editor_key(&mut f, plain(KeyCode::Tab));
    sample_editor_key(&mut f, plain(KeyCode::Tab));
    assert_eq!(f, SampleField::SliceEqual);
    assert_eq!(sample_editor_key(&mut f, plain(KeyCode::Enter)), EditorKey::SliceEqual);
    sample_editor_key(&mut f, plain(KeyCode::Tab));
    assert_eq!(sample_editor_key(&mut f, plain(KeyCode::Enter)), EditorKey::SliceTransient);
    sample_editor_key(&mut f, plain(KeyCode::BackTab));
    assert_eq!(f, SampleField::SliceEqual);
    assert_eq!(sample_editor_key(&mut f, plain(KeyCode::Down)), EditorKey::Adjust(-1));
    assert_eq!(sample_editor_key(&mut f, plain(KeyCode::Right)), EditorKey::Adjust(10));
}
