use rtrack::pattern::{Cell, Note, NoteValue, Pattern};
use rtrack::playback::{
    effect_tick, render_advance, render_positions, render_start, row_controls, ChannelState, Player, RenderPos, RowEvent, RowMessage,
    RowNote, TickEvent, TickResult, EFFECT_ARPEGGIO, EFFECT_MIDI_CC, EFFECT_NOTE_DELAY, EFFECT_PATTERN_BREAK,
    EFFECT_POSITION_JUMP, EFFECT_PROGRAM_CHANGE, EFFECT_SET_SPEED, EFFECT_TONE_PORTA, EFFECT_VOLUME_SLIDE,
};
use rtrack::song::Song;

fn effect_cell(effect: u8, value: u8) -> Cell {
    Cell { note: None, instrument: None, volume: None, effect: Some(effect), effect_value: Some(value) }
}

fn started(song: &Song) -> Player {
    let mut p = Player::new();
    p.play(0, song.channels);
    p
}

fn all_heard(song: &Song) -> Vec<bool> {
    vec![true; song.channels]
}

#[test]
fn app_test_pattern_break_effect() {
    let mut song = Song::new(4, 64);
    song.add_pattern();
    song.order.push(1);
    song.patterns[0].set_cell(2, 0, effect_cell(EFFECT_PATTERN_BREAK, 0x05));
    let heard = all_heard(&song);
    let mut p = started(&song);
    p.advance_playback(&mut song, &heard);
    p.advance_playback(&mut song, &heard);
    p.advance_playback(&mut song, &heard);
    assert_eq!(p.order, 1);
    assert_eq!(p.row, 5);
}

#[test]
fn app_test_position_jump_effect() {
    let mut song = Song::new(4, 64);
    song.add_pattern();
    song.add_pattern();
    song.order = vec![0, 1, 2];
    song.patterns[0].set_cell(1, 0, effect_cell(EFFECT_POSITION_JUMP, 0x02));
    let heard = all_heard(&song);
    let mut p = started(&song);
    p.advance_playback(&mut song, &heard);
    p.advance_playback(&mut song, &heard);
    assert_eq!(p.order, 2);
    assert_eq!(p.row, 0);
}

#[test]
fn app_test_position_jump_with_break() {
    let mut song = Song::new(4, 64);
    song.add_pattern();
    song.order = vec![0, 1];
    song.patterns[0].set_cell(0, 0, effect_cell(EFFECT_POSITION_JUMP, 0x01));
    song.patterns[0].set_cell(0, 1, effect_cell(EFFECT_PATTERN_BREAK, 0x03));
    let heard = all_heard(&song);
    let mut p = started(&song);
    p.advance_playback(&mut song, &heard);
    assert_eq!(p.order, 1);
    assert_eq!(p.row, 3);
}

#[test]
fn app_test_pattern_break_wraps_order() {
    let mut song = Song::new(4, 64);
    song.patterns[0].set_cell(0, 0, effect_cell(EFFECT_PATTERN_BREAK, 0x00));
    let heard = all_heard(&song);
    let mut p = started(&song);
    p.advance_playback(&mut song, &heard);
    assert_eq!(p.order, 0);
    assert_eq!(p.row, 0);
}

#[test]
fn app_test_position_jump_clamps_to_max() {
    let mut song = Song::new(4, 64);
    song.patterns[0].set_cell(0, 0, effect_cell(EFFECT_POSITION_JUMP, 0xFF));
    let heard = all_heard(&song);
    let mut p = started(&song);
    p.advance_playback(&mut song, &heard);
    assert_eq!(p.order, 0);
}

#[test]
fn app_test_pattern_break_clamps_row() {
    let mut song = Song::new(4, 64);
    song.add_pattern();
    song.order.push(1);
    song.patterns[0].set_cell(0, 0, effect_cell(EFFECT_PATTERN_BREAK, 0xFF));
    let heard = all_heard(&song);
    let mut p = started(&song);
    p.advance_playback(&mut song, &heard);
    assert_eq!(p.order, 1);
    assert_eq!(p.row, 63);
}

#[test]
fn app_test_per_pattern_length_playback_advance() {
    let mut song = Song::new(4, 64);
    song.patterns[0] = Pattern::new(8, 4);
    song.add_pattern();
    song.order.push(1);
    let heard = all_heard(&song);
    let mut p = started(&song);
    for _ in 0..8 {
        p.advance_playback(&mut song, &heard);
    }
    assert_eq!(p.order, 1);
    assert_eq!(p.row, 0);
}

#[test]
fn app_test_midi_cc_effect_in_playback() {
    let mut song = Song::new(4, 64);
    song.patterns[0].set_cell(
        0,
        0,
        Cell { note: None, instrument: Some(0x07), volume: None, effect: Some(EFFECT_MIDI_CC), effect_value: Some(0x40) },
    );
    let heard = all_heard(&song);
    let mut p = started(&song);
    let events = p.advance_playback(&mut song, &heard);
    assert_eq!(events.len(), 4);
    assert_eq!(events[0].message, Some(RowMessage::ControlChange { controller: 0x07, value: 0x40 }));
    assert_eq!(events[1].message, None);
}

#[test]
fn app_test_program_change_effect_in_playback() {
    let mut song = Song::new(4, 64);
    song.patterns[0].set_cell(0, 0, effect_cell(EFFECT_PROGRAM_CHANGE, 0x05));
    let heard = all_heard(&song);
    let mut p = started(&song);
    let events = p.advance_playback(&mut song, &heard);
    assert_eq!(events[0].message, Some(RowMessage::ProgramChange(0x05)));
}

fn note_cell(value: NoteValue, octave: u8, volume: Option<u8>, effect: Option<u8>, param: Option<u8>) -> Cell {
    Cell { note: Some(Note::On { value, octave }), instrument: None, volume, effect, effect_value: param }
}

#[test]
fn app_test_arpeggio_effect() {
    let mut song = Song::new(4, 64);
    song.speed = 6;
    song.patterns[0].set_cell(0, 0, note_cell(NoteValue::C, 4, Some(0x7F), Some(EFFECT_ARPEGGIO), Some(0x37)));
    let heard = all_heard(&song);
    let mut p = started(&song);
    p.process_tick(&mut song, &heard);
    assert_eq!(p.channels[0].note, Some(48));
    assert_eq!(p.channels[0].effect, Some(EFFECT_ARPEGGIO));
    match p.process_tick(&mut song, &heard) {
        TickResult::Effects(out) => assert_eq!(out[0].event, TickEvent::Arpeggio(3)),
        TickResult::Row(_) => panic!("expected an effects tick"),
    }
    match p.process_tick(&mut song, &heard) {
        TickResult::Effects(out) => assert_eq!(out[0].event, TickEvent::Arpeggio(7)),
        TickResult::Row(_) => panic!("expected an effects tick"),
    }
}

#[test]
fn app_test_volume_slide_effect() {
    let mut song = Song::new(4, 64);
    song.speed = 4;
    song.patterns[0].set_cell(0, 0, note_cell(NoteValue::C, 4, Some(100), Some(EFFECT_VOLUME_SLIDE), Some(0x02)));
    let heard = all_heard(&song);
    let mut p = started(&song);
    p.process_tick(&mut song, &heard);
    assert_eq!(p.channels[0].volume, 100);
    p.process_tick(&mut song, &heard);
    assert_eq!(p.channels[0].volume, 98);
    p.process_tick(&mut song, &heard);
    assert_eq!(p.channels[0].volume, 96);
}

#[test]
fn app_test_volume_slide_up() {
    let mut song = Song::new(4, 64);
    song.speed = 4;
    song.patterns[0].set_cell(0, 0, note_cell(NoteValue::C, 4, Some(100), Some(EFFECT_VOLUME_SLIDE), Some(0x30)));
    let heard = all_heard(&song);
    let mut p = started(&song);
    p.process_tick(&mut song, &heard);
    p.process_tick(&mut song, &heard);
    assert_eq!(p.channels[0].volume, 103);
}

#[test]
fn app_test_volume_slide_clamps() {
    let mut song = Song::new(4, 64);
    song.speed = 4;
    song.patterns[0].set_cell(0, 0, note_cell(NoteValue::C, 4, Some(2), Some(EFFECT_VOLUME_SLIDE), Some(0x0F)));
    let heard = all_heard(&song);
    let mut p = started(&song);
    p.process_tick(&mut song, &heard);
    p.process_tick(&mut song, &heard);
    assert_eq!(p.channels[0].volume, 0);
}

#[test]
fn app_test_set_speed_effect() {
    let mut song = Song::new(4, 64);
    assert_eq!(song.speed, 6);
    song.patterns[0].set_cell(0, 0, Cell { effect: Some(EFFECT_SET_SPEED), effect_value: Some(3), ..Cell::default() });
    let heard = all_heard(&song);
    let mut p = started(&song);
    p.process_tick(&mut song, &heard);
    assert_eq!(song.speed, 3);
}

#[test]
fn app_test_set_tempo_effect() {
    let mut song = Song::new(4, 64);
    assert_eq!(song.bpm, 120);
    song.patterns[0].set_cell(0, 0, Cell { effect: Some(EFFECT_SET_SPEED), effect_value: Some(0x80), ..Cell::default() });
    let heard = all_heard(&song);
    let mut p = started(&song);
    p.process_tick(&mut song, &heard);
    assert_eq!(song.bpm, 0x80);
}

#[test]
fn app_test_sub_tick_timing() {
    let mut song = Song::new(4, 64);
    song.speed = 3;
    let heard = all_heard(&song);
    let mut p = started(&song);
    assert_eq!(p.tick, 0);
    p.process_tick(&mut song, &heard);
    assert_eq!(p.tick, 1);
    p.process_tick(&mut song, &heard);
    assert_eq!(p.tick, 2);
    p.process_tick(&mut song, &heard);
    assert_eq!(p.tick, 0);
}

#[test]
fn app_test_note_delay_effect() {
    let mut song = Song::new(4, 64);
    song.speed = 6;
    song.patterns[0].set_cell(0, 0, note_cell(NoteValue::C, 5, Some(100), Some(EFFECT_NOTE_DELAY), Some(3)));
    let heard = all_heard(&song);
    let mut p = started(&song);
    p.process_tick(&mut song, &heard);
    assert!(p.channels[0].note.is_none());
    assert!(p.channels[0].delayed_note.is_some());
    p.process_tick(&mut song, &heard);
    assert!(p.channels[0].note.is_none());
    p.process_tick(&mut song, &heard);
    assert!(p.channels[0].note.is_none());
    p.process_tick(&mut song, &heard);
    assert_eq!(p.channels[0].note, Some(60));
    assert!(p.channels[0].delayed_note.is_none());
}

#[test]
fn app_test_note_delay_off() {
    let mut song = Song::new(4, 64);
    song.speed = 6;
    song.patterns[0].set_cell(0, 0, note_cell(NoteValue::C, 5, Some(100), None, None));
    song.patterns[0].set_cell(
        1,
        0,
        Cell { note: Some(Note::Off), effect: Some(EFFECT_NOTE_DELAY), effect_value: Some(2), ..Cell::default() },
    );
    let heard = all_heard(&song);
    let mut p = started(&song);
    for _ in 0..6 {
        p.process_tick(&mut song, &heard);
    }
    assert_eq!(p.channels[0].note, Some(60));
    p.process_tick(&mut song, &heard);
    assert_eq!(p.channels[0].note, Some(60));
    p.process_tick(&mut song, &heard);
    assert_eq!(p.channels[0].note, Some(60));
    p.process_tick(&mut song, &heard);
    assert!(p.channels[0].note.is_none());
}

#[test]
fn app_test_play_stop() {
    let song = Song::new(4, 64);
    let mut p = Player::new();
    assert!(!p.playing);
    p.play(0, song.channels);
    assert!(p.playing);
    assert_eq!(p.channels.len(), 4);
    p.stop();
    assert!(!p.playing);
}

#[test]
fn row_triggers_note_with_cell_volume() {
    let mut song = Song::new(2, 8);
    song.patterns[0].set_cell(0, 1, note_cell(NoteValue::A, 4, Some(90), None, None));
    let heard = vec![true, true];
    let mut p = started(&song);
    let events = p.advance_playback(&mut song, &heard);
    assert_eq!(
        events[1],
        RowEvent { channel: 1, note: RowNote::Trigger { note: 57, velocity: 90 }, message: None, instrument: None }
    );
    assert_eq!(events[0].note, RowNote::Hold);
    assert_eq!(p.row, 1);
}

#[test]
fn muted_channel_tracks_note_silently() {
    let mut song = Song::new(2, 8);
    song.patterns[0].set_cell(0, 0, note_cell(NoteValue::C, 4, Some(90), None, None));
    let heard = vec![false, true];
    let mut p = started(&song);
    let events = p.advance_playback(&mut song, &heard);
    assert_eq!(events.len(), 1);
    assert_eq!(events[0].channel, 1);
    assert_eq!(p.channels[0].note, Some(48));
    assert_eq!(p.channels[0].volume, 0x7F);
}

#[test]
fn note_off_releases() {
    let st = ChannelState { note: Some(40), ..ChannelState::default() };
    let mut song = Song::new(1, 4);
    song.patterns[0].set_cell(0, 0, Cell { note: Some(Note::Off), ..Cell::default() });
    let heard = vec![true];
    let mut p = started(&song);
    p.channels[0] = st;
    let events = p.advance_playback(&mut song, &heard);
    assert_eq!(events[0].note, RowNote::Release);
    assert_eq!(p.channels[0].note, None);
}

#[test]
fn effect_tick_without_note_does_nothing() {
    let st = ChannelState { effect: Some(EFFECT_VOLUME_SLIDE), effect_param: 0x20, ..ChannelState::default() };
    let (s2, ev) = effect_tick(st, 1);
    assert_eq!(ev, TickEvent::Nothing);
    assert_eq!(s2, st);
}

#[test]
fn row_controls_last_command_wins() {
    let mut pat = Pattern::new(4, 3);
    pat.set_cell(1, 0, effect_cell(EFFECT_SET_SPEED, 4));
    pat.set_cell(1, 1, effect_cell(EFFECT_SET_SPEED, 0x90));
    pat.set_cell(1, 2, effect_cell(EFFECT_SET_SPEED, 2));
    let rc = row_controls(&pat, 1);
    assert_eq!(rc.speed, Some(2));
    assert_eq!(rc.bpm, Some(0x90));
    assert_eq!(rc.jump, None);
    let rc0 = row_controls(&pat, 0);
    assert_eq!(rc0.speed, None);
}

#[test]
fn render_walks_repeats_and_skips() {
    let mut song = Song::new(1, 2);
    song.add_pattern();
    song.order = vec![0, 1, 0];
    song.order_repeats = vec![2, 0, 1];
    let none = row_controls(&Pattern::new(1, 1), 0);
    let mut pos = render_start(&song);
    let mut seen: Vec<RenderPos> = Vec::new();
    while let Some(p) = pos {
        seen.push(p);
        pos = render_advance(&song, p, &none);
    }
    let rows: Vec<(usize, u8, usize)> = seen.iter().map(|p| (p.order_pos, p.repeat, p.row)).collect();
    assert_eq!(rows, vec![(0, 0, 0), (0, 0, 1), (0, 1, 0), (0, 1, 1), (2, 0, 0), (2, 0, 1)]);
}

#[test]
fn render_break_lands_on_clamped_row() {
    let mut song = Song::new(1, 4);
    song.add_pattern();
    song.order = vec![0, 1];
    song.patterns[0].set_cell(0, 0, effect_cell(EFFECT_PATTERN_BREAK, 9));
    let start = render_start(&song).unwrap();
    let rc = row_controls(&song.patterns[0], 0);
    let next = render_advance(&song, start, &rc).unwrap();
    assert_eq!((next.order_pos, next.repeat, next.row), (1, 0, 3));
}

fn triples(trace: &[RenderPos]) -> Vec<(usize, u8, usize)> {
    trace.iter().map(|p| (p.order_pos, p.repeat, p.row)).collect()
}

#[test]
fn render_ends_at_a_break_on_the_last_entry() {
    let mut song = Song::new(1, 2);
    song.patterns[0].set_cell(1, 0, effect_cell(EFFECT_PATTERN_BREAK, 0));
    assert_eq!(triples(&render_positions(&song)), vec![(0, 0, 0), (0, 0, 1)]);
}

#[test]
fn render_ends_at_a_jump_back() {
    let mut song = Song::new(1, 2);
    song.add_pattern();
    song.order = vec![0, 1];
    song.patterns[1].set_cell(0, 0, effect_cell(EFFECT_POSITION_JUMP, 0));
    assert_eq!(triples(&render_positions(&song)), vec![(0, 0, 0), (0, 0, 1), (1, 0, 0)]);
}

#[test]
fn render_follows_a_forward_jump_and_break() {
    let mut song = Song::new(1, 4);
    song.add_pattern();
    song.add_pattern();
    song.order = vec![0, 1, 2];
    song.patterns[0].set_cell(1, 0, effect_cell(EFFECT_POSITION_JUMP, 2));
    song.patterns[2].set_cell(3, 0, effect_cell(EFFECT_PATTERN_BREAK, 1));
    assert_eq!(triples(&render_positions(&song)), vec![(0, 0, 0), (0, 0, 1), (2, 0, 0), (2, 0, 1), (2, 0, 2), (2, 0, 3)]);
}

#[test]
fn render_positions_walk_repeats_and_skips() {
    let mut song = Song::new(1, 2);
    song.add_pattern();
    song.order = vec![0, 1, 0];
    song.order_repeats = vec![2, 0, 1];
    assert_eq!(
        triples(&render_positions(&song)),
        vec![(0, 0, 0), (0, 0, 1), (0, 1, 0), (0, 1, 1), (2, 0, 0), (2, 0, 1)]
    );
}

#[test]
fn tone_portamento_without_target_does_nothing() {
    let st = ChannelState { note: Some(60), effect: Some(EFFECT_TONE_PORTA), effect_param: 0x20, ..ChannelState::default() };
    let (s2, ev) = effect_tick(st, 1);
    assert_eq!(ev, TickEvent::Nothing);
    assert_eq!(s2, st);
    let aimed = ChannelState { porta_target: Some(64), ..st };
    assert_eq!(effect_tick(aimed, 1).1, TickEvent::Pitch);
}
