//! The song settings dialog and the track dialog: which field is edited, the text
//! being typed, and what each key does to the song and the tracks.
use vstd::prelude::*;
use crate::edit::{KeyCode, KeyPress, TrackConfig};
use crate::editor::{ChannelType, EditHistory, HistoryModel, SettingsField, channel_type_after, channel_type_before, after_push_undo, apply_setting, setting_applied, settings_after, settings_before};
use crate::song::{Song, SongModel};
use crate::text::{dec, pop_char, push_char, push_dec_u64};

verus! {

/// The text the settings dialog shows for `field` when the field is selected: the
/// title, or the number in decimal.
pub open spec fn setting_text(song: SongModel, field: SettingsField) -> Seq<char> {
    match field {
        SettingsField::Title => song.title,
        SettingsField::Bpm => dec(song.bpm as nat),
        SettingsField::Speed => dec(song.speed as nat),
        SettingsField::Channels => dec(song.channels as nat),
        SettingsField::Rows => dec(song.rows_per_pattern as nat),
        SettingsField::HighlightBeat => dec(song.highlight_beat as nat),
        SettingsField::HighlightBar => dec(song.highlight_bar as nat),
        SettingsField::Swing => dec(song.swing as nat),
    }
}

/// The song settings dialog: the field being edited and the text typed into it.
pub struct SettingsDialog {
    pub field: SettingsField,
    pub buf: String,
}

impl SettingsDialog {
    /// The dialog as it opens: the title field, showing the song's title.
    pub fn open(song: &Song) -> (d: Self)
        ensures
            d.field == SettingsField::Title,
            d.buf@ == song@.title,
    {
        SettingsDialog { field: SettingsField::Title, buf: song.title.clone() }
    }

    /// Select `field`, showing its current value.
    pub fn select(&mut self, song: &Song, field: SettingsField)
        ensures
            final(self).field == field,
            final(self).buf@ == setting_text(song@, field),
    {
        self.field = field;
        let mut buf = String::new();
        match field {
            SettingsField::Title => { buf = song.title.clone(); },
            SettingsField::Bpm => push_dec_u64(&mut buf, song.bpm as u64),
            SettingsField::Speed => push_dec_u64(&mut buf, song.speed as u64),
            SettingsField::Channels => push_dec_u64(&mut buf, song.channels as u64),
            SettingsField::Rows => push_dec_u64(&mut buf, song.rows_per_pattern as u64),
            SettingsField::HighlightBeat => push_dec_u64(&mut buf, song.highlight_beat as u64),
            SettingsField::HighlightBar => push_dec_u64(&mut buf, song.highlight_bar as u64),
            SettingsField::Swing => push_dec_u64(&mut buf, song.swing as u64),
        }
        proof { assert(buf@ =~= setting_text(song@, field)); }
        self.buf = buf;
    }
}

/// The song after the dialog's text is applied to its field (unchanged where the
/// text is refused or changes nothing).
pub open spec fn song_after_apply(song: SongModel, field: SettingsField, buf: Seq<char>) -> SongModel {
    match setting_applied(song, field, buf) {
        Some(m) => m,
        None => song,
    }
}

/// The history after the dialog's text is applied: the song is recorded for undo
/// when it changes.
pub open spec fn history_after_apply(h: HistoryModel, song: SongModel, field: SettingsField, buf: Seq<char>) -> HistoryModel {
    match setting_applied(song, field, buf) {
        Some(_) => after_push_undo(h, song),
        None => h,
    }
}

/// Keys that apply the typed text before they act: leaving the dialog and moving
/// between fields.
pub open spec fn applies_text(code: KeyCode) -> bool {
    match code {
        KeyCode::Esc | KeyCode::Enter | KeyCode::Tab | KeyCode::Down | KeyCode::BackTab | KeyCode::Up => true,
        KeyCode::F(n) => n == 6,
        _ => false,
    }
}

/// Keys that close the dialog: Escape, F6 and Enter.
pub open spec fn closes_dialog(code: KeyCode) -> bool {
    match code {
        KeyCode::Esc | KeyCode::Enter => true,
        KeyCode::F(n) => n == 6,
        _ => false,
    }
}

/// Tracks fitted to `n` channels: the first `n` kept, new MIDI tracks added on the
/// following channels.
pub open spec fn tracks_fitted(old: Seq<TrackConfig>, new: Seq<TrackConfig>, n: int) -> bool {
    &&& new.len() == n
    &&& forall|i: int| 0 <= i < n && i < old.len() ==> #[trigger] new[i] == old[i]
    &&& forall|i: int| old.len() <= i < n ==> {
        &&& !(#[trigger] new[i]).muted
        &&& new[i].name@ == Seq::<char>::empty()
        &&& new[i].channel_type == crate::editor::ChannelType::Midi
        &&& new[i].default_instrument is None
        &&& new[i].midi_channel == (i % 256) as u8
    }
}

/// Keep one track per channel: drop the tracks past `n` and add new MIDI tracks up
/// to `n`, each on the MIDI channel of its index (taken modulo 256).
pub fn fit_tracks(tracks: &mut Vec<TrackConfig>, n: usize)
    ensures
        tracks_fitted(old(tracks)@, final(tracks)@, n as int),
{
    let ghost t0 = tracks@;
    while tracks.len() < n
        invariant
            t0.len() <= tracks@.len() <= n || (t0.len() > n && tracks@ == t0),
            forall|i: int| 0 <= i < tracks@.len() && i < t0.len() ==> #[trigger] tracks@[i] == t0[i],
            forall|i: int| t0.len() <= i < tracks@.len() ==> {
                &&& !(#[trigger] tracks@[i]).muted
                &&& tracks@[i].name@ == Seq::<char>::empty()
                &&& tracks@[i].channel_type == crate::editor::ChannelType::Midi
                &&& tracks@[i].default_instrument is None
                &&& tracks@[i].midi_channel == (i % 256) as u8
            },
        decreases n - tracks@.len(),
    {
        let idx = tracks.len();
        let ch = (idx % 256) as u8;
        tracks.push(TrackConfig::new(ch));
    }
    tracks.truncate(n);
}

/// One key in the settings dialog. Escape, F6 and Enter apply the typed text to the
/// field (see `setting_applied`) and close the dialog; Tab or Down, and Shift+Tab or
/// Up, apply it and select the next or previous field; a character is typed and
/// Backspace removes the last one. When the channel count changes the tracks are
/// fitted to it and the cursor's channel is kept inside. Returns whether the dialog
/// closed.
pub fn handle_settings_key(
    dialog: &mut SettingsDialog,
    song: &mut Song,
    history: &mut EditHistory,
    tracks: &mut Vec<TrackConfig>,
    cursor_channel: &mut usize,
    key: KeyPress,
) -> (closed: bool)
    ensures
        closed == closes_dialog(key.code),
        old(tracks)@.len() == old(song)@.channels ==> final(tracks)@.len() == final(song)@.channels,
        applies_text(key.code) ==> {
            &&& final(song)@ == song_after_apply(old(song)@, old(dialog).field, old(dialog).buf@)
            &&& final(history).model() == history_after_apply(old(history).model(), old(song)@, old(dialog).field, old(dialog).buf@)
        },
        !applies_text(key.code) ==> final(song)@ == old(song)@ && final(history).model() == old(history).model(),
        final(history).clipboard == old(history).clipboard,
        final(history).block_clipboard == old(history).block_clipboard,
        final(history).block_anchor == old(history).block_anchor,
        if applies_text(key.code) && old(dialog).field == SettingsField::Channels
            && setting_applied(old(song)@, old(dialog).field, old(dialog).buf@) is Some {
            &&& tracks_fitted(old(tracks)@, final(tracks)@, final(song)@.channels as int)
            &&& *final(cursor_channel) == if *old(cursor_channel) < final(song)@.channels {
                *old(cursor_channel)
            } else {
                (final(song)@.channels - 1) as usize
            }
        } else {
            final(tracks)@ == old(tracks)@ && *final(cursor_channel) == *old(cursor_channel)
        },
        match key.code {
            KeyCode::Tab | KeyCode::Down => {
                &&& final(dialog).field == settings_after(old(dialog).field)
                &&& final(dialog).buf@ == setting_text(final(song)@, final(dialog).field)
            },
            KeyCode::BackTab | KeyCode::Up => {
                &&& final(dialog).field == settings_before(old(dialog).field)
                &&& final(dialog).buf@ == setting_text(final(song)@, final(dialog).field)
            },
            KeyCode::Char(c) => final(dialog).field == old(dialog).field && final(dialog).buf@ == old(dialog).buf@.push(c),
            KeyCode::Backspace => final(dialog).field == old(dialog).field
                && final(dialog).buf@ == if old(dialog).buf@.len() > 0 { old(dialog).buf@.drop_last() } else { old(dialog).buf@ },
            _ => final(dialog).field == old(dialog).field && final(dialog).buf@ == old(dialog).buf@,
        },
{
    let code = key.code;
    let apply = match code {
        KeyCode::Esc | KeyCode::Enter | KeyCode::Tab | KeyCode::Down | KeyCode::BackTab | KeyCode::Up => true,
        KeyCode::F(n) => n == 6,
        _ => false,
    };
    if apply {
        let field = dialog.field;
        let changed = apply_setting(song, history, field, dialog.buf.as_str());
        if changed && field == SettingsField::Channels {
            let n = song.channels;
            proof {
                assert(n >= 1) by {
                    assert(setting_applied(old(song)@, field, old(dialog).buf@) is Some);
                }
            }
            fit_tracks(tracks, n);
            if *cursor_channel >= n {
                *cursor_channel = n - 1;
            }
        }
        match code {
            KeyCode::Tab | KeyCode::Down => {
                let next = field.next();
                dialog.select(song, next);
                false
            },
            KeyCode::BackTab | KeyCode::Up => {
                let prev = field.prev();
                dialog.select(song, prev);
                false
            },
            _ => true,
        }
    } else {
        match code {
            KeyCode::Char(c) => { push_char(&mut dialog.buf, c); },
            KeyCode::Backspace => { let _ = pop_char(&mut dialog.buf); },
            _ => {},
        }
        false
    }
}

/// The sound effects of a track, in the order the track dialog lists their fields.
#[derive(Clone, Copy, Debug, PartialEq, Eq, Structural)]
pub enum EffectField {
    Filter,
    Cutoff,
    Resonance,
    Distortion,
    Drive,
    Chorus,
    ChorusRate,
    ChorusDepth,
    ChorusMix,
    Delay,
    DelayTime,
    DelayFeedback,
    DelayMix,
    Reverb,
    ReverbSize,
    ReverbDamp,
    ReverbMix,
}

/// How many effect fields the track dialog has.
pub const EFFECT_FIELDS: usize = 17;

/// The effect field at position `i` (0..=16) of the list.
pub open spec fn effect_at(i: int) -> EffectField {
    if i == 0 { EffectField::Filter }
    else if i == 1 { EffectField::Cutoff }
    else if i == 2 { EffectField::Resonance }
    else if i == 3 { EffectField::Distortion }
    else if i == 4 { EffectField::Drive }
    else if i == 5 { EffectField::Chorus }
    else if i == 6 { EffectField::ChorusRate }
    else if i == 7 { EffectField::ChorusDepth }
    else if i == 8 { EffectField::ChorusMix }
    else if i == 9 { EffectField::Delay }
    else if i == 10 { EffectField::DelayTime }
    else if i == 11 { EffectField::DelayFeedback }
    else if i == 12 { EffectField::DelayMix }
    else if i == 13 { EffectField::Reverb }
    else if i == 14 { EffectField::ReverbSize }
    else if i == 15 { EffectField::ReverbDamp }
    else { EffectField::ReverbMix }
}

fn effect_field(i: usize) -> (e: EffectField)
    requires
        i < EFFECT_FIELDS,
    ensures
        e == effect_at(i as int),
{
    if i == 0 { EffectField::Filter }
    else if i == 1 { EffectField::Cutoff }
    else if i == 2 { EffectField::Resonance }
    else if i == 3 { EffectField::Distortion }
    else if i == 4 { EffectField::Drive }
    else if i == 5 { EffectField::Chorus }
    else if i == 6 { EffectField::ChorusRate }
    else if i == 7 { EffectField::ChorusDepth }
    else if i == 8 { EffectField::ChorusMix }
    else if i == 9 { EffectField::Delay }
    else if i == 10 { EffectField::DelayTime }
    else if i == 11 { EffectField::DelayFeedback }
    else if i == 12 { EffectField::DelayMix }
    else if i == 13 { EffectField::Reverb }
    else if i == 14 { EffectField::ReverbSize }
    else if i == 15 { EffectField::ReverbDamp }
    else { EffectField::ReverbMix }
}

/// Fields of the track dialog for a kind of track: the name and the kind, then for
/// synth and sample tracks the instrument (or the sample to load) and the effects.
pub open spec fn track_field_count(t: ChannelType) -> int {
    match t {
        ChannelType::Midi => 2,
        _ => 3 + EFFECT_FIELDS,
    }
}

/// Where the effect fields start for a kind of track.
pub open spec fn track_fx_offset(t: ChannelType) -> int {
    match t {
        ChannelType::Midi => 2,
        _ => 3,
    }
}

/// The number of fields of the track dialog (see `track_field_count`).
pub fn track_field_count_of(t: ChannelType) -> (n: usize)
    ensures
        n == track_field_count(t),
{
    match t {
        ChannelType::Midi => 2,
        _ => 3 + EFFECT_FIELDS,
    }
}

/// Where the effect fields start (see `track_fx_offset`).
pub fn track_fx_offset_of(t: ChannelType) -> (n: usize)
    ensures
        n == track_fx_offset(t),
{
    match t {
        ChannelType::Midi => 2,
        _ => 3,
    }
}

/// What adjusting a field of the track dialog did, or asks of the caller.
#[derive(Clone, Copy, Debug, PartialEq, Eq, Structural)]
pub enum TrackAdjust {
    Nothing,
    /// The kind of track changed.
    KindChanged,
    /// The default instrument changed.
    InstrumentChanged,
    /// A sample should be chosen for the track.
    BrowseSample,
    /// The effect is to be switched or moved one step, up when `true`.
    Effect(EffectField, bool),
}

/// The default instrument after one step in direction `dir`: the first instrument
/// when none is set, else one up or down, kept within 0..=255.
pub open spec fn stepped_instrument(i: Option<u8>, dir: i32) -> Option<u8> {
    match i {
        None => Some(0u8),
        Some(v) => Some(if v + dir < 0 { 0u8 } else if v + dir > 255 { 255u8 } else { (v + dir) as u8 }),
    }
}

/// The first of the slots `slots[i..]` above `v`.
pub open spec fn first_above(slots: Seq<usize>, v: int, i: int) -> Option<usize>
    decreases slots.len() - i,
{
    if i < 0 || i >= slots.len() {
        None
    } else if slots[i] > v {
        Some(slots[i])
    } else {
        first_above(slots, v, i + 1)
    }
}

/// The last of the slots `slots[..i]` below `v`.
pub open spec fn last_below(slots: Seq<usize>, v: int, i: int) -> Option<usize>
    decreases i,
{
    if i <= 0 || i > slots.len() {
        None
    } else if slots[i - 1] < v {
        Some(slots[i - 1])
    } else {
        last_below(slots, v, i - 1)
    }
}

/// The loaded sample slot one step from `cur` (up when `up`) among the loaded slots
/// `slots` (in increasing order), wrapping around; from no slot, up gives the first
/// loaded slot and down the last.
pub open spec fn stepped_sample(slots: Seq<usize>, cur: Option<u8>, up: bool) -> Option<u8> {
    let next = if up {
        match cur {
            Some(v) => match first_above(slots, v as int, 0) {
                Some(x) => x,
                None => slots[0],
            },
            None => slots[0],
        }
    } else {
        match cur {
            Some(v) => match last_below(slots, v as int, slots.len() as int) {
                Some(x) => x,
                None => slots.last(),
            },
            None => slots.last(),
        }
    };
    Some(next as u8)
}

fn find_above(slots: &Vec<usize>, v: usize) -> (r: Option<usize>)
    ensures
        r == first_above(slots@, v as int, 0),
{
    let mut i: usize = 0;
    while i < slots.len()
        invariant
            i <= slots@.len(),
            first_above(slots@, v as int, 0) == first_above(slots@, v as int, i as int),
        decreases slots@.len() - i,
    {
        if slots[i] > v {
            return Some(slots[i]);
        }
        i = i + 1;
    }
    None
}

fn find_below(slots: &Vec<usize>, v: usize) -> (r: Option<usize>)
    ensures
        r == last_below(slots@, v as int, slots@.len() as int),
{
    let mut i = slots.len();
    while i > 0
        invariant
            i <= slots@.len(),
            last_below(slots@, v as int, slots@.len() as int) == last_below(slots@, v as int, i as int),
        decreases i,
    {
        if slots[i - 1] < v {
            return Some(slots[i - 1]);
        }
        i = i - 1;
    }
    None
}

fn step_sample(slots: &Vec<usize>, cur: Option<u8>, up: bool) -> (r: Option<u8>)
    requires
        slots@.len() > 0,
    ensures
        r == stepped_sample(slots@, cur, up),
{
    let n = slots.len();
    let next = if up {
        match cur {
            Some(v) => match find_above(slots, v as usize) {
                Some(x) => x,
                None => slots[0],
            },
            None => slots[0],
        }
    } else {
        match cur {
            Some(v) => match find_below(slots, v as usize) {
                Some(x) => x,
                None => slots[n - 1],
            },
            None => slots[n - 1],
        }
    };
    Some(next as u8)
}

/// The track after adjusting dialog field `field` in direction `dir` (right or up when
/// positive), and what that did; `loaded` lists the slots holding a sample. On a
/// sample track's sample field the track steps through the loaded slots, or a sample
/// is to be chosen when none is loaded.
pub open spec fn track_adjusted(t: TrackConfig, field: int, dir: i32, loaded: Seq<usize>) -> (TrackConfig, TrackAdjust) {
    let off = track_fx_offset(t.channel_type);
    if field == 0 {
        (t, TrackAdjust::Nothing)
    } else if field == 1 {
        (TrackConfig {
            channel_type: if dir > 0 { channel_type_after(t.channel_type) } else { channel_type_before(t.channel_type) },
            ..t
        }, TrackAdjust::KindChanged)
    } else if field == 2 {
        match t.channel_type {
            ChannelType::Synth => (TrackConfig { default_instrument: stepped_instrument(t.default_instrument, dir), ..t },
                TrackAdjust::InstrumentChanged),
            ChannelType::Sample => if loaded.len() == 0 {
                (t, TrackAdjust::BrowseSample)
            } else {
                (TrackConfig { default_instrument: stepped_sample(loaded, t.default_instrument, dir > 0), ..t },
                    TrackAdjust::InstrumentChanged)
            },
            ChannelType::Midi => (t, TrackAdjust::Nothing),
        }
    } else if off <= field < off + EFFECT_FIELDS {
        (t, TrackAdjust::Effect(effect_at(field - off), dir > 0))
    } else {
        (t, TrackAdjust::Nothing)
    }
}

/// Adjust field `field` of the track dialog in direction `dir` (see `track_adjusted`).
/// The effect settings themselves are the caller's: it is told which to change.
pub fn adjust_track_field(track: &mut TrackConfig, field: usize, dir: i32, loaded: &Vec<usize>) -> (r: TrackAdjust)
    ensures
        (*final(track), r) == track_adjusted(*old(track), field as int, dir, loaded@),
{
    let off = track_fx_offset_of(track.channel_type);
    if field == 0 {
        TrackAdjust::Nothing
    } else if field == 1 {
        track.channel_type = if dir > 0 { track.channel_type.next() } else { track.channel_type.prev() };
        TrackAdjust::KindChanged
    } else if field == 2 {
        match track.channel_type {
            ChannelType::Synth => {
                track.default_instrument = match track.default_instrument {
                    None => Some(0u8),
                    Some(v) => {
                        let x: i64 = v as i64 + dir as i64;
                        Some(if x < 0 { 0u8 } else if x > 255 { 255u8 } else { x as u8 })
                    },
                };
                TrackAdjust::InstrumentChanged
            },
            ChannelType::Sample => {
                if loaded.len() == 0 {
                    TrackAdjust::BrowseSample
                } else {
                    track.default_instrument = step_sample(loaded, track.default_instrument, dir > 0);
                    TrackAdjust::InstrumentChanged
                }
            },
            ChannelType::Midi => TrackAdjust::Nothing,
        }
    } else if off <= field && field - off < EFFECT_FIELDS {
        TrackAdjust::Effect(effect_field(field - off), dir > 0)
    } else {
        TrackAdjust::Nothing
    }
}

/// The track dialog: the field selected and the name being typed.
pub struct TrackDialog {
    pub field: usize,
    pub name_buf: String,
}

impl TrackDialog {
    /// The dialog as it opens for track `ch`: the name field, showing the track's name
    /// (empty for a track not yet set up).
    pub fn open(tracks: &Vec<TrackConfig>, ch: usize) -> (d: Self)
        ensures
            d.field == 0,
            ch < tracks@.len() ==> d.name_buf@ == tracks@[ch as int].name@,
            ch >= tracks@.len() ==> d.name_buf@ == Seq::<char>::empty(),
    {
        let name_buf = if ch < tracks.len() { tracks[ch].name.clone() } else { String::new() };
        TrackDialog { field: 0, name_buf }
    }
}

/// What a key in the track dialog leaves the caller to do.
#[derive(Clone, Copy, Debug, PartialEq, Eq, Structural)]
pub enum TrackKeyOutcome {
    /// The dialog stays open.
    Stay,
    /// The name was stored and the dialog closes; the track's effects are to be
    /// handed to the sound engine.
    Close,
    /// A field was adjusted (see `TrackAdjust`); the dialog stays open.
    Adjusted(TrackAdjust),
    /// Enter on the sample field of a sample track: a sample should be chosen.
    BrowseSample,
}

/// The UTF-8 length of `s` in bytes, as `str::len` gives it.
pub open spec fn byte_len(s: Seq<char>) -> usize {
    vstd::utf8::encode_utf8(s).len() as usize
}

/// The two tracks agree but perhaps on their names.
pub open spec fn same_but_name(a: TrackConfig, b: TrackConfig) -> bool {
    &&& a.muted == b.muted
    &&& a.channel_type == b.channel_type
    &&& a.default_instrument == b.default_instrument
    &&& a.midi_channel == b.midi_channel
}

/// One key in the track dialog: `t0` (named `n0`) becomes `t1` (named `n1`) and the
/// dialog goes from field `f0` with text `b0` to field `f1` with text `b1`.
pub open spec fn track_key_done(
    t0: TrackConfig, n0: Seq<char>, t1: TrackConfig, n1: Seq<char>,
    f0: usize, b0: Seq<char>, f1: usize, b1: Seq<char>,
    key: KeyPress, max_name: usize, loaded: Seq<usize>, out: TrackKeyOutcome,
) -> bool {
    let n = track_field_count(t0.channel_type);
    let keep_track = same_but_name(t1, t0) && n1 == n0;
    let keep_dialog = f1 == f0 && b1 == b0;
    let stores = same_but_name(t1, t0) && n1 == b0 && keep_dialog;
    match key.code {
        KeyCode::Esc => out == TrackKeyOutcome::Close && stores,
        KeyCode::Enter => if f0 == 2 && t0.channel_type == ChannelType::Sample {
            out == TrackKeyOutcome::BrowseSample && keep_track && keep_dialog
        } else {
            out == TrackKeyOutcome::Close && stores
        },
        KeyCode::Tab | KeyCode::Down => out == TrackKeyOutcome::Stay && keep_track && f1 == (f0 + 1) % n && b1 == b0,
        KeyCode::BackTab | KeyCode::Up => out == TrackKeyOutcome::Stay && keep_track && f1 == (f0 + n - 1) % n && b1 == b0,
        KeyCode::Left | KeyCode::Right => {
            let (t2, adj) = track_adjusted(t0, f0 as int, if key.code == KeyCode::Left { -1i32 } else { 1i32 }, loaded);
            out == TrackKeyOutcome::Adjusted(adj) && same_but_name(t1, t2) && n1 == n0 && keep_dialog
        },
        KeyCode::Char(c) => out == TrackKeyOutcome::Stay && keep_track && f1 == f0
            && b1 == if f0 == 0 && byte_len(b0) < max_name { b0.push(c) } else { b0 },
        KeyCode::Backspace => out == TrackKeyOutcome::Stay && keep_track && f1 == f0
            && b1 == if f0 == 0 && b0.len() > 0 { b0.drop_last() } else { b0 },
        _ => out == TrackKeyOutcome::Stay && keep_track && keep_dialog,
    }
}

/// One key in the track dialog for `track` (see `track_key_done`). Tab or Down and
/// Shift+Tab or Up move through the fields, wrapping around; Left and Right adjust the
/// field (see `track_adjusted`); a character is typed into the name field while the
/// name is shorter than `max_name` bytes, and Backspace removes one there; Escape, and
/// Enter but on the sample field of a sample track, store the name and close.
pub fn track_key(track: &mut TrackConfig, dialog: &mut TrackDialog, key: KeyPress, max_name: usize, loaded: &Vec<usize>) -> (out: TrackKeyOutcome)
    ensures
        track_key_done(*old(track), old(track).name@, *final(track), final(track).name@,
            old(dialog).field, old(dialog).name_buf@, final(dialog).field, final(dialog).name_buf@,
            key, max_name, loaded@, out),
{
    let kind = track.channel_type;
    let n = track_field_count_of(kind);
    match key.code {
        KeyCode::Esc => {
            track.name = dialog.name_buf.clone();
            TrackKeyOutcome::Close
        },
        KeyCode::Enter => {
            if dialog.field == 2 && kind == ChannelType::Sample {
                TrackKeyOutcome::BrowseSample
            } else {
                track.name = dialog.name_buf.clone();
                TrackKeyOutcome::Close
            }
        },
        KeyCode::Tab | KeyCode::Down => {
            dialog.field = ((dialog.field as u128 + 1) % (n as u128)) as usize;
            TrackKeyOutcome::Stay
        },
        KeyCode::BackTab | KeyCode::Up => {
            dialog.field = ((dialog.field as u128 + n as u128 - 1) % (n as u128)) as usize;
            TrackKeyOutcome::Stay
        },
        KeyCode::Left => TrackKeyOutcome::Adjusted(adjust_track_field(track, dialog.field, -1, loaded)),
        KeyCode::Right => TrackKeyOutcome::Adjusted(adjust_track_field(track, dialog.field, 1, loaded)),
        KeyCode::Char(c) => {
            if dialog.field == 0 && dialog.name_buf.as_str().len() < max_name {
                push_char(&mut dialog.name_buf, c);
            }
            TrackKeyOutcome::Stay
        },
        KeyCode::Backspace => {
            if dialog.field == 0 {
                let _ = pop_char(&mut dialog.name_buf);
            }
            TrackKeyOutcome::Stay
        },
        _ => TrackKeyOutcome::Stay,
    }
}

/// One key in the track dialog for track `ch`; the tracks are first extended with new
/// MIDI tracks to reach it (see `fit_tracks` and `track_key`).
pub fn handle_track_key(
    tracks: &mut Vec<TrackConfig>,
    ch: usize,
    dialog: &mut TrackDialog,
    key: KeyPress,
    max_name: usize,
    loaded: &Vec<usize>,
) -> (out: TrackKeyOutcome)
    requires
        ch < usize::MAX,
    ensures
        final(tracks)@.len() == if ch < old(tracks)@.len() { old(tracks)@.len() as int } else { ch + 1 },
        forall|i: int| 0 <= i < old(tracks)@.len() && i != ch ==> #[trigger] final(tracks)@[i] == old(tracks)@[i],
        forall|i: int| old(tracks)@.len() <= i < final(tracks)@.len() && i != ch ==> {
            &&& !(#[trigger] final(tracks)@[i]).muted
            &&& final(tracks)@[i].name@ == Seq::<char>::empty()
            &&& final(tracks)@[i].channel_type == ChannelType::Midi
            &&& final(tracks)@[i].default_instrument is None
            &&& final(tracks)@[i].midi_channel == (i % 256) as u8
        },
        ch < old(tracks)@.len() ==> track_key_done(old(tracks)@[ch as int], old(tracks)@[ch as int].name@,
            final(tracks)@[ch as int], final(tracks)@[ch as int].name@,
            old(dialog).field, old(dialog).name_buf@, final(dialog).field, final(dialog).name_buf@,
            key, max_name, loaded@, out),
        ch >= old(tracks)@.len() ==> track_key_done(
            TrackConfig { muted: false, name: final(tracks)@[ch as int].name, channel_type: ChannelType::Midi,
                default_instrument: None, midi_channel: (ch % 256) as u8 },
            Seq::<char>::empty(),
            final(tracks)@[ch as int], final(tracks)@[ch as int].name@,
            old(dialog).field, old(dialog).name_buf@, final(dialog).field, final(dialog).name_buf@,
            key, max_name, loaded@, out),
{
    if ch >= tracks.len() {
        fit_tracks(tracks, ch + 1);
    }
    let ghost mid = tracks@;
    let mut t = tracks.remove(ch);
    let out = track_key(&mut t, dialog, key, max_name, loaded);
    tracks.insert(ch, t);
    proof {
        assert forall|i: int| 0 <= i < tracks@.len() && i != ch implies #[trigger] tracks@[i] == mid[i] by {}
    }
    out
}

/// Moving to the next field of the track dialog and back, or back and then on,
/// returns to the field.
pub proof fn law_track_field_cycle(f: int, n: int)
    requires
        0 <= f < n,
    ensures
        ((f + 1) % n + n - 1) % n == f,
        ((f + n - 1) % n + 1) % n == f,
{
    vstd::arithmetic::div_mod::lemma_small_mod(f as nat, n as nat);
    vstd::arithmetic::div_mod::lemma_mod_self_0(n);
    vstd::arithmetic::div_mod::lemma_small_mod((n - 1) as nat, n as nat);
    vstd::arithmetic::div_mod::lemma_mod_add_multiples_vanish(f, n);
    if f + 1 < n {
        vstd::arithmetic::div_mod::lemma_small_mod((f + 1) as nat, n as nat);
        assert((f + 1) % n + n - 1 == n + f);
    }
    if f > 0 {
        vstd::arithmetic::div_mod::lemma_mod_add_multiples_vanish(f - 1, n);
        vstd::arithmetic::div_mod::lemma_small_mod((f - 1) as nat, n as nat);
        assert(f + n - 1 == n + (f - 1));
    }
}

/// Adjusting a track's kind one step right and then one step left gives the track
/// back.
pub proof fn law_kind_step_undone(t: TrackConfig, loaded: Seq<usize>)
    ensures
        track_adjusted(track_adjusted(t, 1, 1i32, loaded).0, 1, -1i32, loaded).0 == t,
        track_adjusted(track_adjusted(t, 1, -1i32, loaded).0, 1, 1i32, loaded).0 == t,
{
    crate::editor::law_channel_type_cycle(t.channel_type);
}

} // verus!
