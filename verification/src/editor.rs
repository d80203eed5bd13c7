//! Editor state that does not touch devices: dialog field cycling, channel types,
//! modes, the file browser's selection state, undo/redo history, note transposition
//! and channel routing decisions.
use vstd::prelude::*;
use crate::pattern::{Cell, Note, Pattern, PatternModel, empty_cell, midi_note_of, note_index, note_value_of};
use crate::song::{Song, SongModel};
use crate::text::{parse_decimal, parse_unsigned};

verus! {

/// Which field is edited in the song settings dialog.
#[derive(Debug, Clone, Copy, PartialEq, Eq, Structural)]
pub enum SettingsField {
    Title,
    Bpm,
    Speed,
    Channels,
    Rows,
    HighlightBeat,
    HighlightBar,
    Swing,
}

/// Position of a settings field in the dialog's tab order.
pub open spec fn settings_pos(f: SettingsField) -> int {
    match f {
        SettingsField::Title => 0,
        SettingsField::Bpm => 1,
        SettingsField::Speed => 2,
        SettingsField::Channels => 3,
        SettingsField::Rows => 4,
        SettingsField::HighlightBeat => 5,
        SettingsField::HighlightBar => 6,
        SettingsField::Swing => 7,
    }
}

/// The field after `f` in tab order (the last wraps to the first).
pub open spec fn settings_after(f: SettingsField) -> SettingsField {
    match f {
        SettingsField::Title => SettingsField::Bpm,
        SettingsField::Bpm => SettingsField::Speed,
        SettingsField::Speed => SettingsField::Channels,
        SettingsField::Channels => SettingsField::Rows,
        SettingsField::Rows => SettingsField::HighlightBeat,
        SettingsField::HighlightBeat => SettingsField::HighlightBar,
        SettingsField::HighlightBar => SettingsField::Swing,
        SettingsField::Swing => SettingsField::Title,
    }
}

/// The field before `f` in tab order (the first wraps to the last).
pub open spec fn settings_before(f: SettingsField) -> SettingsField {
    match f {
        SettingsField::Title => SettingsField::Swing,
        SettingsField::Bpm => SettingsField::Title,
        SettingsField::Speed => SettingsField::Bpm,
        SettingsField::Channels => SettingsField::Speed,
        SettingsField::Rows => SettingsField::Channels,
        SettingsField::HighlightBeat => SettingsField::Rows,
        SettingsField::HighlightBar => SettingsField::HighlightBeat,
        SettingsField::Swing => SettingsField::HighlightBar,
    }
}

/// Moving forward then back, or back then forward, returns to the same field.
pub proof fn law_settings_cycle(f: SettingsField)
    ensures
        settings_before(settings_after(f)) == f,
        settings_after(settings_before(f)) == f,
        settings_pos(settings_after(f)) == (settings_pos(f) + 1) % 8,
{
}

impl SettingsField {
    /// The next field in tab order, wrapping from the last to the first.
    pub fn next(self) -> (r: Self)
        ensures
            r == settings_after(self),
    {
        match self {
            Self::Title => Self::Bpm,
            Self::Bpm => Self::Speed,
            Self::Speed => Self::Channels,
            Self::Channels => Self::Rows,
            Self::Rows => Self::HighlightBeat,
            Self::HighlightBeat => Self::HighlightBar,
            Self::HighlightBar => Self::Swing,
            Self::Swing => Self::Title,
        }
    }

    /// The previous field in tab order, wrapping from the first to the last.
    pub fn prev(self) -> (r: Self)
        ensures
            r == settings_before(self),
    {
        match self {
            Self::Title => Self::Swing,
            Self::Bpm => Self::Title,
            Self::Speed => Self::Bpm,
            Self::Channels => Self::Speed,
            Self::Rows => Self::Channels,
            Self::HighlightBeat => Self::Rows,
            Self::HighlightBar => Self::HighlightBeat,
            Self::Swing => Self::HighlightBar,
        }
    }
}

/// Which field is active in the sample editor.
#[derive(Debug, Clone, Copy, PartialEq, Eq, Structural)]
pub enum SampleField {
    BaseNote,
    TrimStart,
    TrimEnd,
    LoopEnabled,
    LoopStart,
    LoopEnd,
    SliceCount,
    SliceSensitivity,
    SliceEqual,
    SliceTransient,
}

/// Position of a sample editor field in tab order.
pub open spec fn sample_field_pos(f: SampleField) -> int {
    match f {
        SampleField::BaseNote => 0,
        SampleField::TrimStart => 1,
        SampleField::TrimEnd => 2,
        SampleField::LoopEnabled => 3,
        SampleField::LoopStart => 4,
        SampleField::LoopEnd => 5,
        SampleField::SliceCount => 6,
        SampleField::SliceSensitivity => 7,
        SampleField::SliceEqual => 8,
        SampleField::SliceTransient => 9,
    }
}

/// The field after `f` in tab order (the last wraps to the first).
pub open spec fn sample_field_after(f: SampleField) -> SampleField {
    match f {
        SampleField::BaseNote => SampleField::TrimStart,
        SampleField::TrimStart => SampleField::TrimEnd,
        SampleField::TrimEnd => SampleField::LoopEnabled,
        SampleField::LoopEnabled => SampleField::LoopStart,
        SampleField::LoopStart => SampleField::LoopEnd,
        SampleField::LoopEnd => SampleField::SliceCount,
        SampleField::SliceCount => SampleField::SliceSensitivity,
        SampleField::SliceSensitivity => SampleField::SliceEqual,
        SampleField::SliceEqual => SampleField::SliceTransient,
        SampleField::SliceTransient => SampleField::BaseNote,
    }
}

/// The field before `f` in tab order (the first wraps to the last).
pub open spec fn sample_field_before(f: SampleField) -> SampleField {
    match f {
        SampleField::BaseNote => SampleField::SliceTransient,
        SampleField::TrimStart => SampleField::BaseNote,
        SampleField::TrimEnd => SampleField::TrimStart,
        SampleField::LoopEnabled => SampleField::TrimEnd,
        SampleField::LoopStart => SampleField::LoopEnabled,
        SampleField::LoopEnd => SampleField::LoopStart,
        SampleField::SliceCount => SampleField::LoopEnd,
        SampleField::SliceSensitivity => SampleField::SliceCount,
        SampleField::SliceEqual => SampleField::SliceSensitivity,
        SampleField::SliceTransient => SampleField::SliceEqual,
    }
}

/// Moving forward then back, or back then forward, returns to the same field.
pub proof fn law_sample_field_cycle(f: SampleField)
    ensures
        sample_field_before(sample_field_after(f)) == f,
        sample_field_after(sample_field_before(f)) == f,
        sample_field_pos(sample_field_after(f)) == (sample_field_pos(f) + 1) % 10,
{
}

impl SampleField {
    /// The next field in tab order, wrapping around.
    pub fn next(self) -> (r: Self)
        ensures
            r == sample_field_after(self),
    {
        match self {
            Self::BaseNote => Self::TrimStart,
            Self::TrimStart => Self::TrimEnd,
            Self::TrimEnd => Self::LoopEnabled,
            Self::LoopEnabled => Self::LoopStart,
            Self::LoopStart => Self::LoopEnd,
            Self::LoopEnd => Self::SliceCount,
            Self::SliceCount => Self::SliceSensitivity,
            Self::SliceSensitivity => Self::SliceEqual,
            Self::SliceEqual => Self::SliceTransient,
            Self::SliceTransient => Self::BaseNote,
        }
    }

    /// The previous field in tab order, wrapping around.
    pub fn prev(self) -> (r: Self)
        ensures
            r == sample_field_before(self),
    {
        match self {
            Self::BaseNote => Self::SliceTransient,
            Self::TrimStart => Self::BaseNote,
            Self::TrimEnd => Self::TrimStart,
            Self::LoopEnabled => Self::TrimEnd,
            Self::LoopStart => Self::LoopEnabled,
            Self::LoopEnd => Self::LoopStart,
            Self::SliceCount => Self::LoopEnd,
            Self::SliceSensitivity => Self::SliceCount,
            Self::SliceEqual => Self::SliceSensitivity,
            Self::SliceTransient => Self::SliceEqual,
        }
    }
}

/// Which parameter is focused in the synth editor.
#[derive(Debug, Clone, Copy, PartialEq, Eq, Structural)]
pub enum SynthField {
    Waveform,
    Attack,
    Decay,
    Sustain,
    Release,
    FilterType,
    FilterCutoff,
    FilterResonance,
    FilterEnv,
    Detune,
    SubOsc,
    FmRatio,
    FmIndex,
    PulseWidth,
}

/// Position of a synth editor field in tab order.
pub open spec fn synth_field_pos(f: SynthField) -> int {
    match f {
        SynthField::Waveform => 0,
        SynthField::Attack => 1,
        SynthField::Decay => 2,
        SynthField::Sustain => 3,
        SynthField::Release => 4,
        SynthField::FilterType => 5,
        SynthField::FilterCutoff => 6,
        SynthField::FilterResonance => 7,
        SynthField::FilterEnv => 8,
        SynthField::Detune => 9,
        SynthField::SubOsc => 10,
        SynthField::FmRatio => 11,
        SynthField::FmIndex => 12,
        SynthField::PulseWidth => 13,
    }
}

/// The field after `f` in tab order (the last wraps to the first).
pub open spec fn synth_field_after(f: SynthField) -> SynthField {
    match f {
        SynthField::Waveform => SynthField::Attack,
        SynthField::Attack => SynthField::Decay,
        SynthField::Decay => SynthField::Sustain,
        SynthField::Sustain => SynthField::Release,
        SynthField::Release => SynthField::FilterType,
        SynthField::FilterType => SynthField::FilterCutoff,
        SynthField::FilterCutoff => SynthField::FilterResonance,
        SynthField::FilterResonance => SynthField::FilterEnv,
        SynthField::FilterEnv => SynthField::Detune,
        SynthField::Detune => SynthField::SubOsc,
        SynthField::SubOsc => SynthField::FmRatio,
        SynthField::FmRatio => SynthField::FmIndex,
        SynthField::FmIndex => SynthField::PulseWidth,
        SynthField::PulseWidth => SynthField::Waveform,
    }
}

/// The field before `f` in tab order (the first wraps to the last).
pub open spec fn synth_field_before(f: SynthField) -> SynthField {
    match f {
        SynthField::Waveform => SynthField::PulseWidth,
        SynthField::Attack => SynthField::Waveform,
        SynthField::Decay => SynthField::Attack,
        SynthField::Sustain => SynthField::Decay,
        SynthField::Release => SynthField::Sustain,
        SynthField::FilterType => SynthField::Release,
        SynthField::FilterCutoff => SynthField::FilterType,
        SynthField::FilterResonance => SynthField::FilterCutoff,
        SynthField::FilterEnv => SynthField::FilterResonance,
        SynthField::Detune => SynthField::FilterEnv,
        SynthField::SubOsc => SynthField::Detune,
        SynthField::FmRatio => SynthField::SubOsc,
        SynthField::FmIndex => SynthField::FmRatio,
        SynthField::PulseWidth => SynthField::FmIndex,
    }
}

/// Moving forward then back, or back then forward, returns to the same field.
pub proof fn law_synth_field_cycle(f: SynthField)
    ensures
        synth_field_before(synth_field_after(f)) == f,
        synth_field_after(synth_field_before(f)) == f,
        synth_field_pos(synth_field_after(f)) == (synth_field_pos(f) + 1) % 14,
{
}

impl SynthField {
    /// The next field in tab order, wrapping around.
    pub fn next(self) -> (r: Self)
        ensures
            r == synth_field_after(self),
    {
        match self {
            Self::Waveform => Self::Attack,
            Self::Attack => Self::Decay,
            Self::Decay => Self::Sustain,
            Self::Sustain => Self::Release,
            Self::Release => Self::FilterType,
            Self::FilterType => Self::FilterCutoff,
            Self::FilterCutoff => Self::FilterResonance,
            Self::FilterResonance => Self::FilterEnv,
            Self::FilterEnv => Self::Detune,
            Self::Detune => Self::SubOsc,
            Self::SubOsc => Self::FmRatio,
            Self::FmRatio => Self::FmIndex,
            Self::FmIndex => Self::PulseWidth,
            Self::PulseWidth => Self::Waveform,
        }
    }

    /// The previous field in tab order, wrapping around.
    pub fn prev(self) -> (r: Self)
        ensures
            r == synth_field_before(self),
    {
        match self {
            Self::Waveform => Self::PulseWidth,
            Self::Attack => Self::Waveform,
            Self::Decay => Self::Attack,
            Self::Sustain => Self::Decay,
            Self::Release => Self::Sustain,
            Self::FilterType => Self::Release,
            Self::FilterCutoff => Self::FilterType,
            Self::FilterResonance => Self::FilterCutoff,
            Self::FilterEnv => Self::FilterResonance,
            Self::Detune => Self::FilterEnv,
            Self::SubOsc => Self::Detune,
            Self::FmRatio => Self::SubOsc,
            Self::FmIndex => Self::FmRatio,
            Self::PulseWidth => Self::FmIndex,
        }
    }
}

/// What kind of sound source a tracker channel drives.
#[derive(Debug, Clone, Copy, PartialEq, Eq, Structural)]
pub enum ChannelType {
    Midi,
    Synth,
    Sample,
}

/// Position of a channel type in its cycle.
pub open spec fn channel_type_pos(t: ChannelType) -> int {
    match t {
        ChannelType::Midi => 0,
        ChannelType::Synth => 1,
        ChannelType::Sample => 2,
    }
}

/// The label shown for a channel type.
pub open spec fn channel_type_label(t: ChannelType) -> Seq<char> {
    match t {
        ChannelType::Midi => seq!['[', 'M', 'I', 'D', ']'],
        ChannelType::Synth => seq!['[', 'S', 'Y', 'N', ']'],
        ChannelType::Sample => seq!['[', 'S', 'M', 'P', ']'],
    }
}

/// The channel type after `f` in the cycle MIDI, synth, sample (the last wraps to the first).
pub open spec fn channel_type_after(f: ChannelType) -> ChannelType {
    match f {
        ChannelType::Midi => ChannelType::Synth,
        ChannelType::Synth => ChannelType::Sample,
        ChannelType::Sample => ChannelType::Midi,
    }
}

/// The channel type before `f` in the cycle MIDI, synth, sample (the first wraps to the last).
pub open spec fn channel_type_before(f: ChannelType) -> ChannelType {
    match f {
        ChannelType::Midi => ChannelType::Sample,
        ChannelType::Synth => ChannelType::Midi,
        ChannelType::Sample => ChannelType::Synth,
    }
}

/// Moving forward then back, or back then forward, returns to the same channel type.
pub proof fn law_channel_type_cycle(f: ChannelType)
    ensures
        channel_type_before(channel_type_after(f)) == f,
        channel_type_after(channel_type_before(f)) == f,
        channel_type_pos(channel_type_after(f)) == (channel_type_pos(f) + 1) % 3,
{
}

impl ChannelType {
    /// Short label for the track header.
    pub fn label(self) -> (s: &'static str)
        ensures
            s@ == channel_type_label(self),
    {
        match self {
            Self::Midi => { proof { reveal_strlit("[MID]"); } "[MID]" },
            Self::Synth => { proof { reveal_strlit("[SYN]"); } "[SYN]" },
            Self::Sample => { proof { reveal_strlit("[SMP]"); } "[SMP]" },
        }
    }

    /// The next channel type: MIDI, synth, sample, then MIDI again.
    pub fn next(self) -> (r: Self)
        ensures
            r == channel_type_after(self),
    {
        match self {
            Self::Midi => Self::Synth,
            Self::Synth => Self::Sample,
            Self::Sample => Self::Midi,
        }
    }

    /// The previous channel type in the same cycle.
    pub fn prev(self) -> (r: Self)
        ensures
            r == channel_type_before(self),
    {
        match self {
            Self::Midi => Self::Sample,
            Self::Synth => Self::Midi,
            Self::Sample => Self::Synth,
        }
    }
}

/// Where the playback clock comes from.
#[derive(Debug, Clone, Copy, PartialEq, Eq, Structural)]
pub enum ClockMode {
    /// The tracker is the clock master (internal timing).
    Internal,
    /// The tracker follows an external MIDI clock.
    ExternalMidi,
}

/// The editor's input mode.
#[derive(Debug, Clone, Copy, PartialEq, Eq, Structural)]
pub enum Mode {
    Normal,
    Insert,
    MidiPortSelect,
    Help,
    SongSettings,
    InstrumentList,
    SampleEditor,
    SynthEditor,
    QuitConfirm,
    TrackConfig,
    PatternMatrix,
    Command,
    FileBrowser,
}


/// What to do with a file chosen in the file browser.
#[derive(Debug, Clone, Copy, PartialEq, Eq, Structural)]
pub enum FileBrowserAction {
    /// Load a sample into a specific slot.
    LoadSample(usize),
    /// Open a song file.
    OpenSong,
}

/// An entry in the file browser listing.
#[derive(Debug)]
pub struct FileBrowserEntry {
    pub name: String,
    pub is_dir: bool,
}

/// The file browser dialog's state: directory, listing, cursor and extension filter.
/// The listing itself is read from the file system by the caller.
#[derive(Debug)]
pub struct FileBrowserState {
    pub dir: String,
    pub entries: Vec<FileBrowserEntry>,
    pub cursor: usize,
    pub action: FileBrowserAction,
    pub filter: Vec<String>,
    pub scroll: usize,
}

impl FileBrowserState {
    /// A browser showing `dir`, with an empty listing, ready to open a song.
    pub fn new(dir: String) -> (b: Self)
        ensures
            b.dir == dir,
            b.entries@.len() == 0,
            b.cursor == 0,
            b.scroll == 0,
            b.action == FileBrowserAction::OpenSong,
            b.filter@.len() == 0,
    {
        FileBrowserState {
            dir,
            entries: Vec::new(),
            cursor: 0,
            action: FileBrowserAction::OpenSong,
            filter: Vec::new(),
            scroll: 0,
        }
    }

    /// Open the browser for `action`, showing files with the given extensions
    /// (all files when the list is empty); the cursor and scroll go to the top.
    /// The listing is then refreshed from the directory by the caller.
    pub fn open(&mut self, action: FileBrowserAction, extensions: Vec<String>)
        ensures
            final(self).action == action,
            final(self).filter == extensions,
            final(self).cursor == 0,
            final(self).scroll == 0,
            final(self).dir == old(self).dir,
            final(self).entries == old(self).entries,
    {
        self.action = action;
        self.filter = extensions;
        self.cursor = 0;
        self.scroll = 0;
    }
}

// ---------------------------------------------------------------------------
// Undo / redo
// ---------------------------------------------------------------------------

/// Maximum undo history depth.
pub const MAX_UNDO_HISTORY: usize = 100;

/// Model of the undo and redo stacks: song snapshots, oldest first.
pub struct HistoryModel {
    pub undo: Seq<SongModel>,
    pub redo: Seq<SongModel>,
}

/// Recording `s` before an edit: it goes on top of the undo stack (the oldest entry
/// drops out beyond the depth limit) and the redo stack is cleared.
pub open spec fn after_push_undo(h: HistoryModel, s: SongModel) -> HistoryModel {
    let u = h.undo.push(s);
    HistoryModel {
        undo: if u.len() > MAX_UNDO_HISTORY { u.subrange(1, u.len() as int) } else { u },
        redo: Seq::empty(),
    }
}

/// Undo with current song `cur`: the top of the undo stack becomes the song and `cur`
/// goes on the redo stack; nothing happens when the undo stack is empty.
pub open spec fn after_undo(h: HistoryModel, cur: SongModel) -> (HistoryModel, SongModel) {
    if h.undo.len() == 0 {
        (h, cur)
    } else {
        (HistoryModel { undo: h.undo.drop_last(), redo: h.redo.push(cur) }, h.undo.last())
    }
}

/// Redo with current song `cur`: the top of the redo stack becomes the song and `cur`
/// goes back on the undo stack; nothing happens when the redo stack is empty.
pub open spec fn after_redo(h: HistoryModel, cur: SongModel) -> (HistoryModel, SongModel) {
    if h.redo.len() == 0 {
        (h, cur)
    } else {
        (HistoryModel { undo: h.undo.push(cur), redo: h.redo.drop_last() }, h.redo.last())
    }
}

/// Undo after recording a snapshot gives that snapshot back, whatever edit came between,
/// and the edited song can be redone.
pub proof fn law_undo_restores(h: HistoryModel, before: SongModel, edited: SongModel)
    ensures
        after_undo(after_push_undo(h, before), edited).1 == before,
        after_undo(after_push_undo(h, before), edited).0.redo == seq![edited],
{
    let h1 = after_push_undo(h, before);
    let u = h.undo.push(before);
    if u.len() > MAX_UNDO_HISTORY {
        assert(h1.undo.last() == u.last());
    }
    assert(h1.redo.push(edited) =~= seq![edited]);
}

/// Redo right after an undo returns both the history and the song to where they were.
pub proof fn law_redo_after_undo(h: HistoryModel, cur: SongModel)
    requires
        h.undo.len() > 0,
    ensures
        after_redo(after_undo(h, cur).0, after_undo(h, cur).1) == (h, cur),
{
    let (h1, s1) = after_undo(h, cur);
    assert(h1.undo.push(s1) =~= h.undo);
    assert(h1.redo.drop_last() =~= h.redo);
}

/// Undo right after a redo returns both the history and the song to where they were.
pub proof fn law_undo_after_redo(h: HistoryModel, cur: SongModel)
    requires
        h.redo.len() > 0,
    ensures
        after_undo(after_redo(h, cur).0, after_redo(h, cur).1) == (h, cur),
{
    let (h1, s1) = after_redo(h, cur);
    assert(h1.redo.push(s1) =~= h.redo);
    assert(h1.undo.drop_last() =~= h.undo);
}

/// Undo/redo stacks, clipboards and the block selection anchor.
#[derive(Debug)]
pub struct EditHistory {
    pub undo_stack: std::collections::VecDeque<Song>,
    pub redo_stack: Vec<Song>,
    pub clipboard: Option<Vec<Cell>>,
    pub block_clipboard: Option<Vec<Vec<Cell>>>,
    pub block_anchor: Option<(usize, usize)>,
}

impl EditHistory {
    /// The model of the undo and redo stacks.
    pub open spec fn model(&self) -> HistoryModel {
        HistoryModel {
            undo: Seq::new(self.undo_stack@.len(), |i: int| self.undo_stack@[i]@),
            redo: Seq::new(self.redo_stack@.len(), |i: int| self.redo_stack@[i]@),
        }
    }

    /// Empty history, no clipboard contents and no block anchor.
    pub fn new() -> (h: Self)
        ensures
            h.model().undo.len() == 0,
            h.model().redo.len() == 0,
            h.clipboard is None,
            h.block_clipboard is None,
            h.block_anchor is None,
    {
        EditHistory {
            undo_stack: std::collections::VecDeque::new(),
            redo_stack: Vec::new(),
            clipboard: None,
            block_clipboard: None,
            block_anchor: None,
        }
    }

    /// Record a snapshot of `song` before an edit.
    pub fn push_undo(&mut self, song: &Song)
        ensures
            final(self).model() == after_push_undo(old(self).model(), song@),
            final(self).clipboard == old(self).clipboard,
            final(self).block_clipboard == old(self).block_clipboard,
            final(self).block_anchor == old(self).block_anchor,
    {
        let snapshot = song.duplicate();
        self.undo_stack.push_back(snapshot);
        self.redo_stack.clear();
        let ghost u = old(self).model().undo.push(song@);
        proof { assert(self.model().undo =~= u); }
        if self.undo_stack.len() > MAX_UNDO_HISTORY {
            let _dropped = self.undo_stack.pop_front();
            proof { assert(self.model().undo =~= u.subrange(1, u.len() as int)); }
        }
        proof { assert(self.model().redo =~= Seq::<SongModel>::empty()); }
    }

    /// Undo: restore the most recent snapshot into `song`. Returns whether there was one.
    pub fn undo(&mut self, song: &mut Song) -> (done: bool)
        ensures
            done == (old(self).model().undo.len() > 0),
            (final(self).model(), final(song)@) == after_undo(old(self).model(), old(song)@),
            final(self).clipboard == old(self).clipboard,
            final(self).block_clipboard == old(self).block_clipboard,
            final(self).block_anchor == old(self).block_anchor,
    {
        match self.undo_stack.pop_back() {
            Some(prev) => {
                let mut current = prev;
                std::mem::swap(song, &mut current);
                self.redo_stack.push(current);
                proof {
                    assert(self.model().undo =~= old(self).model().undo.drop_last());
                    assert(self.model().redo =~= old(self).model().redo.push(old(song)@));
                }
                true
            },
            None => {
                proof {
                    assert(self.model().undo =~= old(self).model().undo);
                }
                false
            },
        }
    }

    /// Redo: restore the most recently undone song into `song`. Returns whether there was one.
    pub fn redo(&mut self, song: &mut Song) -> (done: bool)
        ensures
            done == (old(self).model().redo.len() > 0),
            (final(self).model(), final(song)@) == after_redo(old(self).model(), old(song)@),
            final(self).clipboard == old(self).clipboard,
            final(self).block_clipboard == old(self).block_clipboard,
            final(self).block_anchor == old(self).block_anchor,
    {
        match self.redo_stack.pop() {
            Some(next) => {
                let mut current = next;
                std::mem::swap(song, &mut current);
                self.undo_stack.push_back(current);
                proof {
                    assert(self.model().undo =~= old(self).model().undo.push(old(song)@));
                    assert(self.model().redo =~= old(self).model().redo.drop_last());
                }
                true
            },
            None => {
                proof {
                    assert(self.model().redo =~= old(self).model().redo);
                }
                false
            },
        }
    }
}

// ---------------------------------------------------------------------------
// Notes and channel routing
// ---------------------------------------------------------------------------

/// A cell with its note moved by `semitones`, when the result stays within MIDI
/// notes 0..=127; note-offs, empty notes and moves out of range leave the cell as it is.
pub open spec fn transposed(cell: Cell, semitones: i8) -> Cell {
    match cell.note {
        Some(Note::On { value, octave }) => {
            let midi = octave as int * 12 + note_index(value) + semitones as int;
            if 0 <= midi <= 127 {
                match note_value_of(midi % 12) {
                    Some(nv) => Cell { note: Some(Note::On { value: nv, octave: (midi / 12) as u8 }), ..cell },
                    None => cell,
                }
            } else {
                cell
            }
        },
        _ => cell,
    }
}

/// Move the note of `cell` by `semitones` (see `transposed`).
pub fn transpose_cell_note(cell: &mut Cell, semitones: i8)
    ensures
        *final(cell) == transposed(*old(cell), semitones),
{
    if let Some(Note::On { value, octave }) = cell.note {
        let semi: i16 = 12;
        let midi: i16 = (octave as i16) * semi + value.to_index() as i16 + semitones as i16;
        if midi >= 0 && midi <= 127 {
            let new_octave = (midi / semi) as u8;
            let new_note_idx = (midi % semi) as u8;
            if let Some(nv) = crate::pattern::NoteValue::from_index(new_note_idx) {
                cell.note = Some(Note::On { value: nv, octave: new_octave });
            }
        }
    }
}

/// Transposing a note up and then down by the same amount gives the cell back, when
/// the note and the raised note are both valid MIDI notes.
pub proof fn law_transpose_inverse(cell: Cell, semitones: i8)
    requires
        semitones > i8::MIN,
        cell.note matches Some(n) && midi_note_of(n) matches Some(m)
            && 0 <= m as int + semitones as int <= 127,
    ensures
        transposed(transposed(cell, semitones), (-semitones) as i8) == cell,
{
}

/// The MIDI channel (0..=15) a tracker channel plays on: its configured channel, or by
/// default its own index (taken modulo 256), reduced to four bits.
pub open spec fn midi_channel_spec(configured: Option<u8>, tracker_channel: usize) -> u8 {
    let ch: u8 = match configured {
        Some(c) => c,
        None => (tracker_channel % 256) as u8,
    };
    ch & 0x0F
}

/// Compute the MIDI channel of a tracker channel (see `midi_channel_spec`).
pub fn midi_channel_for(configured: Option<u8>, tracker_channel: usize) -> (ch: u8)
    ensures
        ch == midi_channel_spec(configured, tracker_channel),
        ch < 16,
{
    let ch: u8 = match configured {
        Some(c) => c,
        None => (tracker_channel % 256) as u8,
    };
    proof { assert(ch & 0x0F < 16) by (bit_vector); }
    ch & 0x0F
}

/// Whether a channel is heard: with a solo channel only that one is; otherwise every
/// channel that is not muted (a channel without configuration is heard).
pub open spec fn audible(solo: Option<usize>, muted: Option<bool>, channel: usize) -> bool {
    match solo {
        Some(s) => channel == s,
        None => match muted {
            Some(m) => !m,
            None => true,
        },
    }
}

/// Decide whether `channel` is heard (see `audible`); `muted` is the channel's mute flag,
/// if the channel is configured.
pub fn is_channel_audible(solo: Option<usize>, muted: Option<bool>, channel: usize) -> (b: bool)
    ensures
        b == audible(solo, muted, channel),
{
    if let Some(s) = solo {
        return channel == s;
    }
    match muted {
        Some(m) => !m,
        None => true,
    }
}

/// The solo channel after toggling solo on `channel`: soloing the soloed channel turns
/// solo off, any other channel becomes the solo channel.
pub open spec fn solo_after_toggle(solo: Option<usize>, channel: usize) -> Option<usize> {
    if solo == Some(channel) { None } else { Some(channel) }
}

/// Toggle solo on `channel`.
pub fn toggle_solo(solo: Option<usize>, channel: usize) -> (r: Option<usize>)
    ensures
        r == solo_after_toggle(solo, channel),
{
    if solo == Some(channel) { None } else { Some(channel) }
}

/// While a channel is soloed it is the only audible channel, whatever the mute flags;
/// toggling solo on it again turns solo off.
pub proof fn law_solo(solo: Option<usize>, channel: usize, other: usize, muted: Option<bool>)
    requires
        solo != Some(channel),
    ensures
        audible(solo_after_toggle(solo, channel), muted, other) == (other == channel),
        solo_after_toggle(solo_after_toggle(solo, channel), channel) is None,
{
}


// ---------------------------------------------------------------------------
// Song settings dialog
// ---------------------------------------------------------------------------

/// Maximum number of tracker channels.
pub const MAX_CHANNELS: usize = 16;

/// `v` limited to `lo..=hi`.
pub open spec fn clamp(v: int, lo: int, hi: int) -> int {
    if v < lo { lo } else if v > hi { hi } else { v }
}

/// A row of cells cut or padded with empty cells to `n` cells.
pub open spec fn resized_row(row: Seq<Cell>, n: usize) -> Seq<Cell> {
    if n <= row.len() {
        row.take(n as int)
    } else {
        row + Seq::new((n - row.len()) as nat, |i: int| empty_cell())
    }
}

/// A pattern with every stored row resized to `n` channels.
pub open spec fn resized_pattern(p: PatternModel, n: usize) -> PatternModel {
    PatternModel { rows: p.rows, channels: n, grid: Seq::new(p.grid.len(), |r: int| resized_row(p.grid[r], n)) }
}

/// The song after the settings dialog applies `buf` to `field`, or `None` when the
/// text does not parse (or is empty for the title) or the value is unchanged where
/// that matters (channels, rows). Numbers are clamped: BPM 32..=300, speed 1..=31,
/// channels 1..=16, rows 1..=256, beat highlight 1..=64, bar highlight 1..=256,
/// swing 0..=100.
pub open spec fn setting_applied(song: SongModel, field: SettingsField, buf: Seq<char>) -> Option<SongModel> {
    match field {
        SettingsField::Title => if buf.len() > 0 { Some(SongModel { title: buf, ..song }) } else { None },
        SettingsField::Bpm => match parse_unsigned(buf, 0xFFFF) {
            Some(v) => Some(SongModel { bpm: clamp(v, 32, 300) as u16, ..song }),
            None => None,
        },
        SettingsField::Speed => match parse_unsigned(buf, 0xFF) {
            Some(v) => Some(SongModel { speed: clamp(v, 1, 31) as u8, ..song }),
            None => None,
        },
        SettingsField::Channels => match parse_unsigned(buf, usize::MAX as int) {
            Some(v) => {
                let n = clamp(v, 1, MAX_CHANNELS as int) as usize;
                if n != song.channels {
                    Some(SongModel {
                        channels: n,
                        patterns: Seq::new(song.patterns.len(), |i: int| resized_pattern(song.patterns[i], n)),
                        ..song
                    })
                } else {
                    None
                }
            },
            None => None,
        },
        SettingsField::Rows => match parse_unsigned(buf, usize::MAX as int) {
            Some(v) => {
                let n = clamp(v, 1, 256) as usize;
                if n != song.rows_per_pattern { Some(SongModel { rows_per_pattern: n, ..song }) } else { None }
            },
            None => None,
        },
        SettingsField::HighlightBeat => match parse_unsigned(buf, usize::MAX as int) {
            Some(v) => Some(SongModel { highlight_beat: clamp(v, 1, 64) as usize, ..song }),
            None => None,
        },
        SettingsField::HighlightBar => match parse_unsigned(buf, usize::MAX as int) {
            Some(v) => Some(SongModel { highlight_bar: clamp(v, 1, 256) as usize, ..song }),
            None => None,
        },
        SettingsField::Swing => match parse_unsigned(buf, 0xFF) {
            Some(v) => Some(SongModel { swing: clamp(v, 0, 100) as u8, ..song }),
            None => None,
        },
    }
}

fn clamp_u64(v: u64, lo: u64, hi: u64) -> (r: u64)
    requires
        lo <= hi,
    ensures
        r == clamp(v as int, lo as int, hi as int),
{
    if v < lo { lo } else if v > hi { hi } else { v }
}

/// A copy of `p` with every stored row resized to `n` channels.
fn resize_pattern(p: &Pattern, n: usize) -> (q: Pattern)
    ensures
        q@ == resized_pattern(p@, n),
{
    let mut data: Vec<Vec<Cell>> = Vec::new();
    let mut r: usize = 0;
    while r < p.data.len()
        invariant
            r <= p.data@.len(),
            data@.len() == r,
            forall|i: int| 0 <= i < r ==> #[trigger] data@[i]@ == resized_row(p.data@[i]@, n),
        decreases p.data@.len() - r,
    {
        let src = &p.data[r];
        let mut row: Vec<Cell> = Vec::new();
        let mut c: usize = 0;
        while c < n
            invariant
                c <= n,
                row@.len() == c,
                forall|j: int| 0 <= j < c ==> #[trigger] row@[j] == (if j < src@.len() { src@[j] } else { empty_cell() }),
            decreases n - c,
        {
            if c < src.len() {
                row.push(src[c]);
            } else {
                row.push(Cell::default());
            }
            c = c + 1;
        }
        proof { assert(row@ =~= resized_row(src@, n)); }
        data.push(row);
        r = r + 1;
    }
    let q = Pattern { rows: p.rows, channels: n, data };
    proof { assert(q@.grid =~= resized_pattern(p@, n).grid); }
    q
}

/// Apply the settings dialog's text `buf` to `field` of `song` (see `setting_applied`).
/// When the song changes, its previous state is first recorded in `history`.
/// Returns whether the song changed.
pub fn apply_setting(song: &mut Song, history: &mut EditHistory, field: SettingsField, buf: &str) -> (changed: bool)
    ensures
        match setting_applied(old(song)@, field, buf@) {
            Some(m) => changed && final(song)@ == m
                && final(history).model() == after_push_undo(old(history).model(), old(song)@),
            None => !changed && final(song)@ == old(song)@ && final(history).model() == old(history).model(),
        },
        final(history).clipboard == old(history).clipboard,
        final(history).block_clipboard == old(history).block_clipboard,
        final(history).block_anchor == old(history).block_anchor,
{
    match field {
        SettingsField::Title => {
            if buf.unicode_len() > 0 {
                history.push_undo(song);
                let ghost before = song@;
                song.title = String::from_str(buf);
                proof {
                    assert(song@.patterns =~= before.patterns);
                    assert(song@ == SongModel { title: buf@, ..before });
                    assert(before == old(song)@);
                    assert(setting_applied(old(song)@, field, buf@) == Some(SongModel { title: buf@, ..old(song)@ }));
                }
                return true;
            } else {
                proof { assert(setting_applied(old(song)@, field, buf@) is None); }
                return false;
            }
        },
        SettingsField::Bpm => match parse_decimal(buf, 0xFFFF) {
            Some(v) => {
                history.push_undo(song);
                song.bpm = clamp_u64(v, 32, 300) as u16;
                return true;
            },
            None => { return false; },
        },
        SettingsField::Speed => match parse_decimal(buf, 0xFF) {
            Some(v) => {
                history.push_undo(song);
                song.speed = clamp_u64(v, 1, 31) as u8;
                return true;
            },
            None => { return false; },
        },
        SettingsField::Channels => match parse_decimal(buf, usize::MAX as u64) {
            Some(v) => {
                let n = clamp_u64(v, 1, MAX_CHANNELS as u64) as usize;
                if n != song.channels {
                    history.push_undo(song);
                    let mut patterns: Vec<Pattern> = Vec::new();
                    let mut i: usize = 0;
                    while i < song.patterns.len()
                        invariant
                            i <= song.patterns@.len(),
                            patterns@.len() == i,
                            forall|k: int| 0 <= k < i ==> #[trigger] patterns@[k]@ == resized_pattern(song.patterns@[k]@, n),
                        decreases song.patterns@.len() - i,
                    {
                        patterns.push(resize_pattern(&song.patterns[i], n));
                        i = i + 1;
                    }
                    let ghost before = song@;
                    song.patterns = patterns;
                    song.channels = n;
                    proof {
                        assert(song@.patterns =~= Seq::new(before.patterns.len(), |k: int| resized_pattern(before.patterns[k], n)));
                    }
                    return true;
                } else {
                    return false;
                }
            },
            None => { return false; },
        },
        SettingsField::Rows => match parse_decimal(buf, usize::MAX as u64) {
            Some(v) => {
                let n = clamp_u64(v, 1, 256) as usize;
                if n != song.rows_per_pattern {
                    history.push_undo(song);
                    song.rows_per_pattern = n;
                    return true;
                } else {
                    return false;
                }
            },
            None => { return false; },
        },
        SettingsField::HighlightBeat => match parse_decimal(buf, usize::MAX as u64) {
            Some(v) => {
                history.push_undo(song);
                song.highlight_beat = clamp_u64(v, 1, 64) as usize;
                return true;
            },
            None => { return false; },
        },
        SettingsField::HighlightBar => match parse_decimal(buf, usize::MAX as u64) {
            Some(v) => {
                history.push_undo(song);
                song.highlight_bar = clamp_u64(v, 1, 256) as usize;
                return true;
            },
            None => { return false; },
        },
        SettingsField::Swing => match parse_decimal(buf, 0xFF) {
            Some(v) => {
                history.push_undo(song);
                song.swing = clamp_u64(v, 0, 100) as u8;
                return true;
            },
            None => { return false; },
        },
    }
}

} // verus!
