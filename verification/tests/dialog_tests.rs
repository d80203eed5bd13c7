use rtrack::dialog::{
    adjust_track_field, handle_track_key, track_field_count_of, track_fx_offset_of, EffectField, TrackAdjust,
    TrackDialog, TrackKeyOutcome,
};
use rtrack::edit::{command_for, default_tracks, Command, KeyCode, KeyPress, SubColumn, TrackConfig};
use rtrack::editor::ChannelType;
use rtrack::keys::{normal_mode_action, EditorAction, KeyContext};
use rtrack::sample::{Sample, SampleBank};

const MAX_NAME: usize = 16;

fn plain(code: KeyCode) -> KeyPress {
    KeyPress { code, ctrl: false, shift: false }
}

fn ctx() -> KeyContext {
    KeyContext { has_anchor: false, has_block_clipboard: false, track_page: 0, playing: false, dirty: false, sub: SubColumn::Note }
}

fn no_samples() -> Vec<usize> {
    Vec::new()
}

/// Open the track dialog on track 0 the way the `fx` command does.
fn open_fx(tracks: &Vec<TrackConfig>) -> TrackDialog {
    assert_eq!(command_for("fx"), Command::Effects);
    TrackDialog::open(tracks, 0)
}

fn press(tracks: &mut Vec<TrackConfig>, d: &mut TrackDialog, code: KeyCode, loaded: &Vec<usize>) -> TrackKeyOutcome {
    handle_track_key(tracks, 0, d, plain(code), MAX_NAME, loaded)
}

#[test]
fn test_track_config_open_via_enter() {
    let mut tracks = default_tracks(4);
    let loaded = no_samples();
    assert_eq!(normal_mode_action(plain(KeyCode::Enter), ctx()), EditorAction::OpenTrackConfig);
    let mut d = TrackDialog::open(&tracks, 0);
    assert_eq!(press(&mut tracks, &mut d, KeyCode::Enter, &loaded), TrackKeyOutcome::Close);
    let mut d = TrackDialog::open(&tracks, 0);
    assert_eq!(press(&mut tracks, &mut d, KeyCode::Esc, &loaded), TrackKeyOutcome::Close);
}

#[test]
fn test_track_config_via_command() {
    let mut tracks = default_tracks(4);
    let loaded = no_samples();
    let mut d = open_fx(&tracks);
    assert_eq!(d.field, 0);
    assert_eq!(press(&mut tracks, &mut d, KeyCode::Esc, &loaded), TrackKeyOutcome::Close);
}

#[test]
fn test_track_config_navigate_all_fields() {
    let mut tracks = default_tracks(4);
    let loaded = no_samples();
    tracks[0].channel_type = ChannelType::Synth;
    let mut d = open_fx(&tracks);
    for i in 0..20 {
        assert_eq!(d.field, i);
        press(&mut tracks, &mut d, KeyCode::Tab, &loaded);
    }
    assert_eq!(d.field, 0);
    press(&mut tracks, &mut d, KeyCode::Up, &loaded);
    assert_eq!(d.field, 19);
}

#[test]
fn test_track_config_type_cycle() {
    let mut tracks = default_tracks(4);
    let loaded = no_samples();
    let mut d = TrackDialog::open(&tracks, 0);
    press(&mut tracks, &mut d, KeyCode::Tab, &loaded);
    assert_eq!(d.field, 1);
    assert_eq!(tracks[0].channel_type, ChannelType::Midi);
    press(&mut tracks, &mut d, KeyCode::Right, &loaded);
    assert_eq!(tracks[0].channel_type, ChannelType::Synth);
    press(&mut tracks, &mut d, KeyCode::Right, &loaded);
    assert_eq!(tracks[0].channel_type, ChannelType::Sample);
}

#[test]
fn test_track_config_instrument_select() {
    let mut tracks = default_tracks(4);
    let loaded = no_samples();
    tracks[0].channel_type = ChannelType::Synth;
    let mut d = open_fx(&tracks);
    press(&mut tracks, &mut d, KeyCode::Tab, &loaded);
    press(&mut tracks, &mut d, KeyCode::Tab, &loaded);
    assert_eq!(d.field, 2);
    assert_eq!(tracks[0].default_instrument, None);
    press(&mut tracks, &mut d, KeyCode::Right, &loaded);
    assert_eq!(tracks[0].default_instrument, Some(0));
    press(&mut tracks, &mut d, KeyCode::Right, &loaded);
    assert_eq!(tracks[0].default_instrument, Some(1));
}

fn sample(name: &str) -> Sample<[f32; 2], f64> {
    Sample {
        name: name.to_string(),
        data: vec![[0.0; 2]; 100],
        sample_rate: 44100.0,
        base_note: 60,
        trim_start: 0,
        trim_end: 0,
        loop_enabled: false,
        loop_start: 0,
        loop_end: 0,
        source_path: None,
    }
}

#[test]
fn test_track_config_sample_select_cycles_loaded() {
    let mut bank: SampleBank<[f32; 2], f64> = SampleBank::new();
    bank.load(2, sample("kick")).unwrap();
    bank.load(5, sample("snare")).unwrap();
    let loaded = bank.loaded_slots();
    let mut tracks = default_tracks(4);
    tracks[0].channel_type = ChannelType::Sample;
    let mut d = open_fx(&tracks);
    press(&mut tracks, &mut d, KeyCode::Tab, &loaded);
    press(&mut tracks, &mut d, KeyCode::Tab, &loaded);
    assert_eq!(d.field, 2);
    press(&mut tracks, &mut d, KeyCode::Right, &loaded);
    assert_eq!(tracks[0].default_instrument, Some(2));
    press(&mut tracks, &mut d, KeyCode::Right, &loaded);
    assert_eq!(tracks[0].default_instrument, Some(5));
    press(&mut tracks, &mut d, KeyCode::Right, &loaded);
    assert_eq!(tracks[0].default_instrument, Some(2));
    press(&mut tracks, &mut d, KeyCode::Left, &loaded);
    assert_eq!(tracks[0].default_instrument, Some(5));
}

#[test]
fn test_track_config_sample_select_no_samples_opens_browser() {
    let mut tracks = default_tracks(4);
    let loaded = no_samples();
    tracks[0].channel_type = ChannelType::Sample;
    let mut d = open_fx(&tracks);
    press(&mut tracks, &mut d, KeyCode::Tab, &loaded);
    press(&mut tracks, &mut d, KeyCode::Tab, &loaded);
    let out = press(&mut tracks, &mut d, KeyCode::Right, &loaded);
    assert_eq!(out, TrackKeyOutcome::Adjusted(TrackAdjust::BrowseSample));
    assert_eq!(press(&mut tracks, &mut d, KeyCode::Enter, &loaded), TrackKeyOutcome::BrowseSample);
}

#[test]
fn track_dialog_names_the_effect_fields() {
    let mut tracks = default_tracks(4);
    let loaded = no_samples();
    tracks[0].channel_type = ChannelType::Synth;
    let mut d = open_fx(&tracks);
    for _ in 0..3 {
        press(&mut tracks, &mut d, KeyCode::Tab, &loaded);
    }
    assert_eq!(d.field, 3);
    assert_eq!(press(&mut tracks, &mut d, KeyCode::Right, &loaded), TrackKeyOutcome::Adjusted(TrackAdjust::Effect(EffectField::Filter, true)));
    press(&mut tracks, &mut d, KeyCode::Tab, &loaded);
    assert_eq!(press(&mut tracks, &mut d, KeyCode::Left, &loaded), TrackKeyOutcome::Adjusted(TrackAdjust::Effect(EffectField::Cutoff, false)));
    let mut t = TrackConfig::new(0);
    t.channel_type = ChannelType::Sample;
    assert_eq!(adjust_track_field(&mut t, 19, 1, &loaded), TrackAdjust::Effect(EffectField::ReverbMix, true));
    assert_eq!(track_field_count_of(ChannelType::Midi), 2);
    assert_eq!(track_fx_offset_of(ChannelType::Sample), 3);
}

#[test]
fn track_dialog_renames_and_reaches_new_tracks() {
    let mut tracks = default_tracks(2);
    let loaded = no_samples();
    let mut d = TrackDialog::open(&tracks, 3);
    assert_eq!(d.name_buf, "");
    for c in "Bass".chars() {
        handle_track_key(&mut tracks, 3, &mut d, plain(KeyCode::Char(c)), 3, &loaded);
    }
    assert_eq!(d.name_buf, "Bas");
    handle_track_key(&mut tracks, 3, &mut d, plain(KeyCode::Backspace), 3, &loaded);
    assert_eq!(handle_track_key(&mut tracks, 3, &mut d, plain(KeyCode::Esc), 3, &loaded), TrackKeyOutcome::Close);
    assert_eq!(tracks.len(), 4);
    assert_eq!(tracks[3].name, "Ba");
    assert_eq!(tracks[3].midi_channel, 3);
    assert_eq!(tracks[2].name, "");
}

#[test]
fn synth_instrument_stays_in_range() {
    let loaded = no_samples();
    let mut t = TrackConfig::new(0);
    t.channel_type = ChannelType::Synth;
    t.default_instrument = Some(255);
    adjust_track_field(&mut t, 2, 1, &loaded);
    assert_eq!(t.default_instrument, Some(255));
    t.default_instrument = Some(0);
    adjust_track_field(&mut t, 2, -1, &loaded);
    assert_eq!(t.default_instrument, Some(0));
}

#[test]
fn test_sample_bank_loaded_slots() {
    let mut bank: SampleBank<[f32; 2], f64> = SampleBank::new();
    assert!(bank.loaded_slots().is_empty());
    bank.samples[3] = Some(sample("test"));
    bank.samples[7] = Some(sample("test2"));
    let slots = bank.loaded_slots();
    assert_eq!(slots, vec![3, 7]);
}

#[test]
fn test_channel_rename() {
    let mut tracks = default_tracks(4);
    let loaded = no_samples();
    assert_eq!(tracks[0].name, "");
    assert_eq!(normal_mode_action(plain(KeyCode::Enter), ctx()), EditorAction::OpenTrackConfig);
    let mut d = TrackDialog::open(&tracks, 0);
    assert_eq!(d.field, 0);
    for c in ['K', 'i', 'c', 'k'] {
        press(&mut tracks, &mut d, KeyCode::Char(c), &loaded);
    }
    assert_eq!(d.name_buf, "Kick");
    assert_eq!(press(&mut tracks, &mut d, KeyCode::Esc, &loaded), TrackKeyOutcome::Close);
    assert_eq!(tracks[0].name, "Kick");
}

#[test]
fn test_channel_rename_backspace() {
    let mut tracks = default_tracks(4);
    let loaded = no_samples();
    let mut d = TrackDialog::open(&tracks, 0);
    press(&mut tracks, &mut d, KeyCode::Char('A'), &loaded);
    press(&mut tracks, &mut d, KeyCode::Char('B'), &loaded);
    press(&mut tracks, &mut d, KeyCode::Backspace, &loaded);
    assert_eq!(d.name_buf, "A");
    press(&mut tracks, &mut d, KeyCode::Esc, &loaded);
    assert_eq!(tracks[0].name, "A");
}
