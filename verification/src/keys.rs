//! What a key does in the pattern editor's normal and insert modes. The decision is
//! made here from the key and a few facts about the editor; carrying it out is left
//! to the caller.
use vstd::prelude::*;
use vstd::string::StrSliceExecFns;
use crate::edit::{Command, KeyCode, KeyPress, SubColumn, CHANNELS_PER_PAGE, command_for, command_of};
use crate::editor::{Mode, SampleField, SynthField, sample_field_after, sample_field_before, synth_field_after, synth_field_before};
use crate::text::{pop_char, push_char};

verus! {

/// The editor's answer to a key.
#[derive(Clone, Copy, Debug, PartialEq, Eq, Structural)]
pub enum EditorAction {
    Save,
    Undo,
    Redo,
    ToggleBlockSelect,
    ToggleFollow,
    Interpolate,
    CopyBlock,
    CopyRow,
    PasteBlock,
    PasteRow,
    CutBlock,
    CutRow,
    NextOrderPosition,
    PrevOrderPosition,
    ExportMidi,
    ExportWav,
    ExportFlac,
    ToggleMidiClock,
    /// Solo the given channel (or lift its solo).
    ToggleSolo(usize),
    /// Mute the given channel (or unmute it).
    ToggleMute(usize),
    /// Transpose the selection, or the cell at the cursor, by semitones.
    Transpose(i8),
    Stop,
    PlayFromStart,
    TogglePlayback,
    OpenHelp,
    OpenPortSelector,
    ToggleLink,
    OpenSongSettings,
    OpenInstrumentList,
    CycleTheme,
    NextTrack,
    PrevTrack,
    CursorUp(usize),
    CursorDown(usize),
    CursorLeft,
    CursorRight,
    CursorTop,
    CursorBottom,
    OctaveUp,
    OctaveDown,
    NewPattern,
    ClonePattern,
    /// Ask before quitting: there are unsaved changes.
    ConfirmQuit,
    Quit,
    InsertMode,
    NormalMode,
    ChangeBpm(i16),
    ChangeEditStep(i16),
    OpenCommandLine,
    OpenTrackConfig,
    InsertRow,
    DeleteRow,
    ClearCell,
    NoteOff,
    /// A piano key in the note column.
    NoteKey(char),
    /// A hexadecimal digit typed into the instrument, volume or effect column.
    HexDigit(char),
    Nothing,
}

/// What the key handlers need to know of the editor.
#[derive(Clone, Copy, Debug, PartialEq, Eq, Structural)]
pub struct KeyContext {
    /// A block selection is open.
    pub has_anchor: bool,
    /// The block clipboard holds a block.
    pub has_block_clipboard: bool,
    /// The page of tracks shown.
    pub track_page: usize,
    pub playing: bool,
    /// The song has unsaved changes.
    pub dirty: bool,
    /// The column of the cell under the cursor.
    pub sub: SubColumn,
}

/// The channel of function key F9..F12 on the page shown.
pub open spec fn page_channel(page: usize, n: u8) -> usize {
    (page * CHANNELS_PER_PAGE + (n - 9)) as usize
}

/// A page of tracks whose channel numbers fit in a `usize`.
pub open spec fn page_ok(page: usize) -> bool {
    page * CHANNELS_PER_PAGE + 3 <= usize::MAX
}

/// Keys of both editing modes that act on the song, the clipboard, the files and the
/// channels' mute and solo, checked first.
pub open spec fn common_action(k: KeyPress, ctx: KeyContext) -> Option<EditorAction> {
    let with_ctrl = if k.ctrl {
        match k.code {
            KeyCode::Char(c) => if c == 's' {
                Some(EditorAction::Save)
            } else if c == 'z' {
                Some(EditorAction::Undo)
            } else if c == 'y' {
                Some(EditorAction::Redo)
            } else if c == 'b' {
                Some(EditorAction::ToggleBlockSelect)
            } else if c == 'f' {
                Some(EditorAction::ToggleFollow)
            } else if c == 'i' {
                Some(EditorAction::Interpolate)
            } else if c == 'c' {
                Some(if ctx.has_anchor { EditorAction::CopyBlock } else { EditorAction::CopyRow })
            } else if c == 'v' {
                Some(if ctx.has_block_clipboard { EditorAction::PasteBlock } else { EditorAction::PasteRow })
            } else if c == 'x' {
                Some(if ctx.has_anchor { EditorAction::CutBlock } else { EditorAction::CutRow })
            } else if c == 'e' {
                Some(EditorAction::ExportMidi)
            } else if c == 'w' {
                Some(EditorAction::ExportWav)
            } else if c == 'l' {
                Some(EditorAction::ExportFlac)
            } else if c == 'm' {
                Some(EditorAction::ToggleMidiClock)
            } else {
                None
            },
            KeyCode::Right => Some(EditorAction::NextOrderPosition),
            KeyCode::Left => Some(EditorAction::PrevOrderPosition),
            KeyCode::F(n) => if 9 <= n <= 12 { Some(EditorAction::ToggleSolo(page_channel(ctx.track_page, n))) } else { None },
            _ => None,
        }
    } else {
        None
    };
    match with_ctrl {
        Some(a) => Some(a),
        None => match k.code {
            KeyCode::F(n) => if 9 <= n <= 12 { Some(EditorAction::ToggleMute(page_channel(ctx.track_page, n))) } else { None },
            _ => None,
        },
    }
}

/// Keys of both editing modes for navigation, playback, dialogs and the octave,
/// checked after `common_action`.
pub open spec fn shared_action(k: KeyPress, ctx: KeyContext) -> Option<EditorAction> {
    if k.shift && k.code == KeyCode::Up {
        Some(EditorAction::Transpose(1i8))
    } else if k.shift && k.code == KeyCode::Down {
        Some(EditorAction::Transpose(-1i8))
    } else if k.ctrl && k.code == KeyCode::Char(' ') {
        Some(if ctx.playing { EditorAction::Stop } else { EditorAction::PlayFromStart })
    } else {
        match k.code {
            KeyCode::Char(c) => if c == ' ' {
                Some(EditorAction::TogglePlayback)
            } else if c == '+' {
                Some(EditorAction::OctaveUp)
            } else if c == '-' {
                Some(EditorAction::OctaveDown)
            } else {
                None
            },
            KeyCode::F(n) => if n == 1 {
                Some(EditorAction::OpenHelp)
            } else if n == 2 {
                Some(EditorAction::OpenPortSelector)
            } else if n == 3 {
                Some(EditorAction::ToggleLink)
            } else if n == 6 {
                Some(EditorAction::OpenSongSettings)
            } else if n == 7 {
                Some(EditorAction::OpenInstrumentList)
            } else if n == 8 {
                Some(EditorAction::CycleTheme)
            } else {
                None
            },
            KeyCode::Tab => Some(EditorAction::NextTrack),
            KeyCode::BackTab => Some(EditorAction::PrevTrack),
            KeyCode::Up => Some(EditorAction::CursorUp(1usize)),
            KeyCode::Down => Some(EditorAction::CursorDown(1usize)),
            KeyCode::Left => Some(EditorAction::CursorLeft),
            KeyCode::Right => Some(EditorAction::CursorRight),
            KeyCode::PageUp => Some(EditorAction::CursorUp(16usize)),
            KeyCode::PageDown => Some(EditorAction::CursorDown(16usize)),
            KeyCode::Home => Some(EditorAction::CursorTop),
            KeyCode::End => Some(EditorAction::CursorBottom),
            _ => None,
        }
    }
}

/// Keys of the normal mode alone.
pub open spec fn normal_only_action(k: KeyPress, ctx: KeyContext) -> EditorAction {
    if k.ctrl && k.code == KeyCode::Char('n') {
        EditorAction::NewPattern
    } else if k.ctrl && k.code == KeyCode::Char('d') {
        EditorAction::ClonePattern
    } else {
        match k.code {
            KeyCode::Char(c) => if c == 'q' {
                if ctx.dirty { EditorAction::ConfirmQuit } else { EditorAction::Quit }
            } else if c == ']' {
                EditorAction::ChangeBpm(1i16)
            } else if c == '[' {
                EditorAction::ChangeBpm(-1i16)
            } else if c == ')' {
                EditorAction::ChangeEditStep(1i16)
            } else if c == '(' {
                EditorAction::ChangeEditStep(-1i16)
            } else if c == ':' {
                EditorAction::OpenCommandLine
            } else {
                EditorAction::Nothing
            },
            KeyCode::Esc => EditorAction::InsertMode,
            KeyCode::Enter => EditorAction::OpenTrackConfig,
            KeyCode::Insert => EditorAction::InsertRow,
            KeyCode::Backspace => EditorAction::DeleteRow,
            _ => EditorAction::Nothing,
        }
    }
}

/// Keys of the insert mode alone: characters enter notes or digits.
pub open spec fn insert_only_action(k: KeyPress, ctx: KeyContext) -> EditorAction {
    match k.code {
        KeyCode::Esc => EditorAction::NormalMode,
        KeyCode::Delete | KeyCode::Backspace => EditorAction::ClearCell,
        KeyCode::Char(c) => if c == '=' && ctx.sub == SubColumn::Note {
            EditorAction::NoteOff
        } else if ctx.sub == SubColumn::Note {
            EditorAction::NoteKey(c)
        } else {
            EditorAction::HexDigit(c)
        },
        _ => EditorAction::Nothing,
    }
}

/// The first of the actions that claims the key.
pub open spec fn first_of(a: Option<EditorAction>, b: Option<EditorAction>, c: EditorAction) -> EditorAction {
    match a {
        Some(x) => x,
        None => match b {
            Some(y) => y,
            None => c,
        },
    }
}

fn common_key(k: KeyPress, ctx: KeyContext) -> (r: Option<EditorAction>)
    requires
        page_ok(ctx.track_page),
    ensures
        r == common_action(k, ctx),
{
    if k.ctrl {
        let a = match k.code {
            KeyCode::Char(c) => if c == 's' {
                Some(EditorAction::Save)
            } else if c == 'z' {
                Some(EditorAction::Undo)
            } else if c == 'y' {
                Some(EditorAction::Redo)
            } else if c == 'b' {
                Some(EditorAction::ToggleBlockSelect)
            } else if c == 'f' {
                Some(EditorAction::ToggleFollow)
            } else if c == 'i' {
                Some(EditorAction::Interpolate)
            } else if c == 'c' {
                Some(if ctx.has_anchor { EditorAction::CopyBlock } else { EditorAction::CopyRow })
            } else if c == 'v' {
                Some(if ctx.has_block_clipboard { EditorAction::PasteBlock } else { EditorAction::PasteRow })
            } else if c == 'x' {
                Some(if ctx.has_anchor { EditorAction::CutBlock } else { EditorAction::CutRow })
            } else if c == 'e' {
                Some(EditorAction::ExportMidi)
            } else if c == 'w' {
                Some(EditorAction::ExportWav)
            } else if c == 'l' {
                Some(EditorAction::ExportFlac)
            } else if c == 'm' {
                Some(EditorAction::ToggleMidiClock)
            } else {
                None
            },
            KeyCode::Right => Some(EditorAction::NextOrderPosition),
            KeyCode::Left => Some(EditorAction::PrevOrderPosition),
            KeyCode::F(n) => if 9 <= n && n <= 12 {
                Some(EditorAction::ToggleSolo(ctx.track_page * CHANNELS_PER_PAGE + (n - 9) as usize))
            } else {
                None
            },
            _ => None,
        };
        if a.is_some() {
            return a;
        }
    }
    match k.code {
        KeyCode::F(n) => if 9 <= n && n <= 12 {
            Some(EditorAction::ToggleMute(ctx.track_page * CHANNELS_PER_PAGE + (n - 9) as usize))
        } else {
            None
        },
        _ => None,
    }
}

fn shared_key(k: KeyPress, ctx: KeyContext) -> (r: Option<EditorAction>)
    ensures
        r == shared_action(k, ctx),
{
    if k.shift && k.code == KeyCode::Up {
        return Some(EditorAction::Transpose(1i8));
    }
    if k.shift && k.code == KeyCode::Down {
        return Some(EditorAction::Transpose(-1i8));
    }
    if k.ctrl && k.code == KeyCode::Char(' ') {
        return Some(if ctx.playing { EditorAction::Stop } else { EditorAction::PlayFromStart });
    }
    match k.code {
        KeyCode::Char(c) => if c == ' ' {
            Some(EditorAction::TogglePlayback)
        } else if c == '+' {
            Some(EditorAction::OctaveUp)
        } else if c == '-' {
            Some(EditorAction::OctaveDown)
        } else {
            None
        },
        KeyCode::F(n) => if n == 1 {
            Some(EditorAction::OpenHelp)
        } else if n == 2 {
            Some(EditorAction::OpenPortSelector)
        } else if n == 3 {
            Some(EditorAction::ToggleLink)
        } else if n == 6 {
            Some(EditorAction::OpenSongSettings)
        } else if n == 7 {
            Some(EditorAction::OpenInstrumentList)
        } else if n == 8 {
            Some(EditorAction::CycleTheme)
        } else {
            None
        },
        KeyCode::Tab => Some(EditorAction::NextTrack),
        KeyCode::BackTab => Some(EditorAction::PrevTrack),
        KeyCode::Up => Some(EditorAction::CursorUp(1usize)),
        KeyCode::Down => Some(EditorAction::CursorDown(1usize)),
        KeyCode::Left => Some(EditorAction::CursorLeft),
        KeyCode::Right => Some(EditorAction::CursorRight),
        KeyCode::PageUp => Some(EditorAction::CursorUp(16usize)),
        KeyCode::PageDown => Some(EditorAction::CursorDown(16usize)),
        KeyCode::Home => Some(EditorAction::CursorTop),
        KeyCode::End => Some(EditorAction::CursorBottom),
        _ => None,
    }
}

/// What a key does in the normal mode: the common keys first, then the shared ones,
/// then those of the normal mode.
pub fn normal_mode_action(k: KeyPress, ctx: KeyContext) -> (r: EditorAction)
    requires
        page_ok(ctx.track_page),
    ensures
        r == first_of(common_action(k, ctx), shared_action(k, ctx), normal_only_action(k, ctx)),
{
    if let Some(a) = common_key(k, ctx) {
        return a;
    }
    if let Some(a) = shared_key(k, ctx) {
        return a;
    }
    if k.ctrl && k.code == KeyCode::Char('n') {
        return EditorAction::NewPattern;
    }
    if k.ctrl && k.code == KeyCode::Char('d') {
        return EditorAction::ClonePattern;
    }
    match k.code {
        KeyCode::Char(c) => if c == 'q' {
            if ctx.dirty { EditorAction::ConfirmQuit } else { EditorAction::Quit }
        } else if c == ']' {
            EditorAction::ChangeBpm(1i16)
        } else if c == '[' {
            EditorAction::ChangeBpm(-1i16)
        } else if c == ')' {
            EditorAction::ChangeEditStep(1i16)
        } else if c == '(' {
            EditorAction::ChangeEditStep(-1i16)
        } else if c == ':' {
            EditorAction::OpenCommandLine
        } else {
            EditorAction::Nothing
        },
        KeyCode::Esc => EditorAction::InsertMode,
        KeyCode::Enter => EditorAction::OpenTrackConfig,
        KeyCode::Insert => EditorAction::InsertRow,
        KeyCode::Backspace => EditorAction::DeleteRow,
        _ => EditorAction::Nothing,
    }
}

/// What a key does in the insert mode: the common keys first, then the shared ones,
/// then those of the insert mode.
pub fn insert_mode_action(k: KeyPress, ctx: KeyContext) -> (r: EditorAction)
    requires
        page_ok(ctx.track_page),
    ensures
        r == first_of(common_action(k, ctx), shared_action(k, ctx), insert_only_action(k, ctx)),
{
    if let Some(a) = common_key(k, ctx) {
        return a;
    }
    if let Some(a) = shared_key(k, ctx) {
        return a;
    }
    match k.code {
        KeyCode::Esc => EditorAction::NormalMode,
        KeyCode::Delete | KeyCode::Backspace => EditorAction::ClearCell,
        KeyCode::Char(c) => if c == '=' && ctx.sub == SubColumn::Note {
            EditorAction::NoteOff
        } else if ctx.sub == SubColumn::Note {
            EditorAction::NoteKey(c)
        } else {
            EditorAction::HexDigit(c)
        },
        _ => EditorAction::Nothing,
    }
}

/// The answer to the question asked before quitting with unsaved changes.
#[derive(Clone, Copy, Debug, PartialEq, Eq, Structural)]
pub enum QuitAnswer {
    /// Quit without saving (`y`).
    Quit,
    /// Save, then quit (`s`).
    SaveAndQuit,
    /// Any other key: stay.
    Cancel,
}

/// The answer a key gives to the quit question, either letter case counting.
pub open spec fn quit_answer_of(code: KeyCode) -> QuitAnswer {
    match code {
        KeyCode::Char(c) => if c == 'y' || c == 'Y' {
            QuitAnswer::Quit
        } else if c == 's' || c == 'S' {
            QuitAnswer::SaveAndQuit
        } else {
            QuitAnswer::Cancel
        },
        _ => QuitAnswer::Cancel,
    }
}

/// The answer `k` gives to the quit question (see `quit_answer_of`).
pub fn quit_answer(k: KeyPress) -> (r: QuitAnswer)
    ensures
        r == quit_answer_of(k.code),
{
    match k.code {
        KeyCode::Char(c) => if c == 'y' || c == 'Y' {
            QuitAnswer::Quit
        } else if c == 's' || c == 'S' {
            QuitAnswer::SaveAndQuit
        } else {
            QuitAnswer::Cancel
        },
        _ => QuitAnswer::Cancel,
    }
}

/// A character with the Unicode `White_Space` property (what `char::is_whitespace`
/// tests): tab through carriage return, space, next line, no-break space, ogham space
/// mark, the spaces from en quad to hair space, line and paragraph separators, narrow
/// no-break space, medium mathematical space and ideographic space.
pub open spec fn is_white_space(c: char) -> bool {
    let u = c as u32;
    ||| 0x09 <= u <= 0x0D
    ||| u == 0x20
    ||| u == 0x85
    ||| u == 0xA0
    ||| u == 0x1680
    ||| 0x2000 <= u <= 0x200A
    ||| u == 0x2028
    ||| u == 0x2029
    ||| u == 0x202F
    ||| u == 0x205F
    ||| u == 0x3000
}

/// `s` without its leading white space.
pub open spec fn trim_start_spec(s: Seq<char>) -> Seq<char>
    decreases s.len(),
{
    if s.len() > 0 && is_white_space(s[0]) { trim_start_spec(s.drop_first()) } else { s }
}

/// `s` without its trailing white space.
pub open spec fn trim_end_spec(s: Seq<char>) -> Seq<char>
    decreases s.len(),
{
    if s.len() > 0 && is_white_space(s.last()) { trim_end_spec(s.drop_last()) } else { s }
}

/// `s` without the white space at either end.
pub open spec fn trimmed(s: Seq<char>) -> Seq<char> {
    trim_end_spec(trim_start_spec(s))
}

/// Whether `c` is white space (see `is_white_space`).
fn white_space(c: char) -> (b: bool)
    ensures
        b == is_white_space(c),
{
    let u = c as u32;
    (0x09 <= u && u <= 0x0D) || u == 0x20 || u == 0x85 || u == 0xA0 || u == 0x1680
        || (0x2000 <= u && u <= 0x200A) || u == 0x2028 || u == 0x2029 || u == 0x202F || u == 0x205F
        || u == 0x3000
}

/// `s` without the white space at either end (see `trimmed`).
fn trim_text(s: &str) -> (r: &str)
    ensures
        r@ == trimmed(s@),
{
    let n = s.unicode_len();
    let mut a: usize = 0;
    proof { assert(s@.subrange(0, n as int) =~= s@); }
    while a < n
        invariant
            n == s@.len(),
            a <= n,
            trim_start_spec(s@) == trim_start_spec(s@.subrange(a as int, n as int)),
        ensures
            trim_start_spec(s@) == s@.subrange(a as int, n as int),
        decreases n - a,
    {
        let c = s.get_char(a);
        if !white_space(c) {
            proof {
                let t = s@.subrange(a as int, n as int);
                assert(t[0] == c);
            }
            break;
        }
        proof {
            let t = s@.subrange(a as int, n as int);
            assert(t[0] == c);
            assert(t.drop_first() =~= s@.subrange(a as int + 1, n as int));
        }
        a = a + 1;
    }
    proof {
        if a == n {
            assert(s@.subrange(a as int, n as int) =~= Seq::<char>::empty());
        }
    }
    let mut b: usize = n;
    while b > a
        invariant
            n == s@.len(),
            a <= b <= n,
            trim_end_spec(s@.subrange(a as int, n as int)) == trim_end_spec(s@.subrange(a as int, b as int)),
        ensures
            trim_end_spec(s@.subrange(a as int, n as int)) == s@.subrange(a as int, b as int),
        decreases b - a,
    {
        let c = s.get_char(b - 1);
        let ghost t = s@.subrange(a as int, b as int);
        proof { assert(t.last() == c); }
        if !white_space(c) {
            break;
        }
        proof { assert(t.drop_last() =~= s@.subrange(a as int, b as int - 1)); }
        b = b - 1;
    }
    proof {
        if a == b {
            assert(s@.subrange(a as int, b as int) =~= Seq::<char>::empty());
        }
    }
    s.substring_char(a, b)
}

/// What a key on the command line asks of the caller.
#[derive(Clone, Copy, Debug, PartialEq, Eq, Structural)]
pub enum CommandLineKey {
    /// Keep typing.
    Stay,
    /// Leave the command line without running anything.
    Cancel,
    /// Run the command typed (the line is cleared).
    Run(Command),
}

/// One key on the command line holding `buf`: Escape cancels and clears the line,
/// Enter runs the command named by the line without its surrounding white space,
/// Backspace removes the last character or, on an empty line, cancels, and a
/// character is typed.
pub fn command_line_key(buf: &mut String, key: KeyPress) -> (r: CommandLineKey)
    ensures
        match key.code {
            KeyCode::Esc => r == CommandLineKey::Cancel && final(buf)@ == Seq::<char>::empty(),
            KeyCode::Enter => r == CommandLineKey::Run(command_of(trimmed(old(buf)@)))
                && final(buf)@ == Seq::<char>::empty(),
            KeyCode::Backspace => if old(buf)@.len() == 0 {
                r == CommandLineKey::Cancel && final(buf)@ == old(buf)@
            } else {
                r == CommandLineKey::Stay && final(buf)@ == old(buf)@.drop_last()
            },
            KeyCode::Char(c) => r == CommandLineKey::Stay && final(buf)@ == old(buf)@.push(c),
            _ => r == CommandLineKey::Stay && final(buf)@ == old(buf)@,
        },
{
    match key.code {
        KeyCode::Esc => {
            *buf = String::new();
            CommandLineKey::Cancel
        },
        KeyCode::Enter => {
            let cmd = command_for(trim_text(buf.as_str()));
            *buf = String::new();
            CommandLineKey::Run(cmd)
        },
        KeyCode::Backspace => {
            match pop_char(buf) {
                Some(_) => CommandLineKey::Stay,
                None => CommandLineKey::Cancel,
            }
        },
        KeyCode::Char(c) => {
            push_char(buf, c);
            CommandLineKey::Stay
        },
        _ => CommandLineKey::Stay,
    }
}

/// How many instruments there are.
pub const MAX_INSTRUMENTS: usize = 256;

/// What a key in the instrument list asks of the caller.
#[derive(Clone, Copy, Debug, PartialEq, Eq, Structural)]
pub enum InstrumentListKey {
    Stay,
    Close,
    /// Open the sample editor on the instrument under the cursor.
    OpenSampleEditor(usize),
    /// Open the synth editor on the instrument under the cursor.
    OpenSynthEditor(usize),
    /// The name of the instrument under the cursor was edited: the song is changed.
    Renamed,
}

/// The instrument list's cursor after a key: one up or down, sixteen with the page
/// keys, kept within the instruments.
pub open spec fn instrument_cursor_after(cursor: usize, code: KeyCode) -> usize {
    match code {
        KeyCode::Up => if cursor > 0 { (cursor - 1) as usize } else { cursor },
        KeyCode::Down => if cursor < MAX_INSTRUMENTS - 1 { (cursor + 1) as usize } else { cursor },
        KeyCode::PageUp => if cursor >= 16 { (cursor - 16) as usize } else { 0 },
        KeyCode::PageDown => if cursor + 16 <= MAX_INSTRUMENTS - 1 { (cursor + 16) as usize } else { (MAX_INSTRUMENTS - 1) as usize },
        _ => cursor,
    }
}

/// One key in the instrument list, whose instruments are named `names`: Escape and
/// F7 close it, the arrows and page keys move the cursor (see
/// `instrument_cursor_after`), Enter and Tab open the sample and synth editors, and a
/// character or Backspace edits the name under the cursor.
pub fn instrument_list_key(cursor: &mut usize, names: &mut Vec<String>, key: KeyPress) -> (r: InstrumentListKey)
    requires
        (key.code is Char || key.code is Backspace) ==> *old(cursor) < old(names)@.len(),
        key.code == KeyCode::PageDown ==> *old(cursor) + 16 <= usize::MAX,
    ensures
        *final(cursor) == instrument_cursor_after(*old(cursor), key.code),
        final(names)@.len() == old(names)@.len(),
        forall|i: int| 0 <= i < old(names)@.len() && i != *old(cursor) ==> #[trigger] final(names)@[i] == old(names)@[i],
        match key.code {
            KeyCode::Esc => r == InstrumentListKey::Close,
            KeyCode::F(n) => r == (if n == 7 { InstrumentListKey::Close } else { InstrumentListKey::Stay }),
            KeyCode::Enter => r == InstrumentListKey::OpenSampleEditor(*old(cursor)),
            KeyCode::Tab => r == InstrumentListKey::OpenSynthEditor(*old(cursor)),
            KeyCode::Char(c) => r == InstrumentListKey::Renamed
                && final(names)@[*old(cursor) as int]@ == old(names)@[*old(cursor) as int]@.push(c),
            KeyCode::Backspace => r == InstrumentListKey::Renamed
                && final(names)@[*old(cursor) as int]@ == if old(names)@[*old(cursor) as int]@.len() > 0 {
                    old(names)@[*old(cursor) as int]@.drop_last()
                } else {
                    old(names)@[*old(cursor) as int]@
                },
            _ => r == InstrumentListKey::Stay,
        },
        !(key.code is Char || key.code is Backspace) ==> final(names)@ == old(names)@,
{
    let c = *cursor;
    match key.code {
        KeyCode::Esc => InstrumentListKey::Close,
        KeyCode::F(n) => if n == 7 { InstrumentListKey::Close } else { InstrumentListKey::Stay },
        KeyCode::Up => {
            if c > 0 {
                *cursor = c - 1;
            }
            InstrumentListKey::Stay
        },
        KeyCode::Down => {
            if c < MAX_INSTRUMENTS - 1 {
                *cursor = c + 1;
            }
            InstrumentListKey::Stay
        },
        KeyCode::PageUp => {
            *cursor = if c >= 16 { c - 16 } else { 0 };
            InstrumentListKey::Stay
        },
        KeyCode::PageDown => {
            *cursor = if c + 16 <= MAX_INSTRUMENTS - 1 { c + 16 } else { MAX_INSTRUMENTS - 1 };
            InstrumentListKey::Stay
        },
        KeyCode::Enter => InstrumentListKey::OpenSampleEditor(c),
        KeyCode::Tab => InstrumentListKey::OpenSynthEditor(c),
        KeyCode::Char(ch) => {
            let mut name = names.remove(c);
            push_char(&mut name, ch);
            names.insert(c, name);
            InstrumentListKey::Renamed
        },
        KeyCode::Backspace => {
            let mut name = names.remove(c);
            let _ = pop_char(&mut name);
            names.insert(c, name);
            InstrumentListKey::Renamed
        },
        _ => InstrumentListKey::Stay,
    }
}

/// Where a mouse click in the pattern editor puts the cursor.
#[derive(Clone, Copy, Debug, PartialEq, Eq, Structural)]
pub struct ClickTarget {
    /// The row clicked, when it is a row of the pattern.
    pub row: Option<usize>,
    /// The channel clicked, when it is a channel of the pattern.
    pub channel: Option<usize>,
    /// The column clicked within the channel, when the click hit one.
    pub sub: Option<SubColumn>,
}

/// Rows shown around the cursor row: the first shown is this many halves above it.
pub const VISIBLE_ROWS: usize = 40;
/// Width of the row numbers, of a separator and of a channel, in screen cells.
pub const ROW_NUMBER_WIDTH: u16 = 3;
pub const SEPARATOR_WIDTH: u16 = 3;
pub const CHANNEL_WIDTH: u16 = 14;

/// The column of a channel at offset `within` of its stride: the note (three cells),
/// the instrument, the volume (three each), the effect (up to the channel's end).
pub open spec fn sub_at(within: int) -> Option<SubColumn> {
    if within < 3 {
        Some(SubColumn::Note)
    } else if within < 6 {
        Some(SubColumn::Instrument)
    } else if within < 9 {
        Some(SubColumn::Volume)
    } else if within < 14 {
        Some(SubColumn::Effect)
    } else {
        None
    }
}

/// Where a click at screen cell `(x, y)` lands, the pattern editor starting at
/// `(area_x, area_y)`: the rows are shown from half the visible rows above the cursor
/// row (or from the top), and the channels of the page shown after the row numbers,
/// each followed by a separator.
pub open spec fn click_target(
    x: u16, y: u16, area_x: u16, area_y: u16,
    cursor_row: usize, rows: usize, pattern_channels: usize, song_channels: usize, page: usize,
) -> ClickTarget {
    if y < area_y {
        ClickTarget { row: None, channel: None, sub: None }
    } else {
        let start: int = if cursor_row >= VISIBLE_ROWS / 2 { cursor_row - VISIBLE_ROWS / 2 } else { 0 };
        let row: int = start + (y - area_y);
        let row_hit = if row < rows { Some(row as usize) } else { None };
        if x < area_x + ROW_NUMBER_WIDTH + SEPARATOR_WIDTH {
            ClickTarget { row: row_hit, channel: None, sub: None }
        } else {
            let col: int = x - area_x - ROW_NUMBER_WIDTH - SEPARATOR_WIDTH;
            let stride: int = CHANNEL_WIDTH + SEPARATOR_WIDTH;
            let ch: int = page * CHANNELS_PER_PAGE + col / stride;
            if ch < pattern_channels && ch < song_channels {
                ClickTarget { row: row_hit, channel: Some(ch as usize), sub: sub_at(col % stride) }
            } else {
                ClickTarget { row: row_hit, channel: None, sub: None }
            }
        }
    }
}

/// Where a left click at `(x, y)` lands (see `click_target`).
pub fn click_at(
    x: u16, y: u16, area_x: u16, area_y: u16,
    cursor_row: usize, rows: usize, pattern_channels: usize, song_channels: usize, page: usize,
) -> (t: ClickTarget)
    requires
        page * CHANNELS_PER_PAGE + 0x10000 <= usize::MAX,
        cursor_row + 0x10000 <= usize::MAX,
    ensures
        t == click_target(x, y, area_x, area_y, cursor_row, rows, pattern_channels, song_channels, page),
{
    if y < area_y {
        return ClickTarget { row: None, channel: None, sub: None };
    }
    let start = if cursor_row >= VISIBLE_ROWS / 2 { cursor_row - VISIBLE_ROWS / 2 } else { 0 };
    let row = start + (y - area_y) as usize;
    let row_hit = if row < rows { Some(row) } else { None };
    if (x as u32) < area_x as u32 + ROW_NUMBER_WIDTH as u32 + SEPARATOR_WIDTH as u32 {
        return ClickTarget { row: row_hit, channel: None, sub: None };
    }
    let col = x - area_x - ROW_NUMBER_WIDTH - SEPARATOR_WIDTH;
    let stride = CHANNEL_WIDTH + SEPARATOR_WIDTH;
    let ch = page * CHANNELS_PER_PAGE + (col / stride) as usize;
    if ch < pattern_channels && ch < song_channels {
        let within = col % stride;
        let sub = if within < 3 {
            Some(SubColumn::Note)
        } else if within < 6 {
            Some(SubColumn::Instrument)
        } else if within < 9 {
            Some(SubColumn::Volume)
        } else if within < 14 {
            Some(SubColumn::Effect)
        } else {
            None
        };
        ClickTarget { row: row_hit, channel: Some(ch), sub }
    } else {
        ClickTarget { row: row_hit, channel: None, sub: None }
    }
}

/// Rows the cursor moves for one turn of the mouse wheel.
pub const SCROLL_ROWS: usize = 3;

/// What a key in the MIDI port selector asks of the caller.
#[derive(Clone, Copy, Debug, PartialEq, Eq, Structural)]
pub enum PortSelectKey {
    Stay,
    Close,
    /// Connect to the port under the cursor.
    Select,
}

/// One key in the port selector over `ports` ports: Escape and F2 close it, the arrows
/// move the cursor within the list, Enter selects.
pub fn port_select_key(cursor: &mut usize, ports: usize, key: KeyPress) -> (r: PortSelectKey)
    ensures
        match key.code {
            KeyCode::Esc => r == PortSelectKey::Close && *final(cursor) == *old(cursor),
            KeyCode::F(n) => r == (if n == 2 { PortSelectKey::Close } else { PortSelectKey::Stay }) && *final(cursor) == *old(cursor),
            KeyCode::Up => r == PortSelectKey::Stay
                && *final(cursor) == if *old(cursor) > 0 { (*old(cursor) - 1) as usize } else { *old(cursor) },
            KeyCode::Down => r == PortSelectKey::Stay
                && *final(cursor) == if *old(cursor) + 1 < ports { (*old(cursor) + 1) as usize } else { *old(cursor) },
            KeyCode::Enter => r == PortSelectKey::Select && *final(cursor) == *old(cursor),
            _ => r == PortSelectKey::Stay && *final(cursor) == *old(cursor),
        },
{
    let c = *cursor;
    match key.code {
        KeyCode::Esc => PortSelectKey::Close,
        KeyCode::F(n) => if n == 2 { PortSelectKey::Close } else { PortSelectKey::Stay },
        KeyCode::Up => {
            if c > 0 {
                *cursor = c - 1;
            }
            PortSelectKey::Stay
        },
        KeyCode::Down => {
            if c < ports && ports - c > 1 {
                *cursor = c + 1;
            }
            PortSelectKey::Stay
        },
        KeyCode::Enter => PortSelectKey::Select,
        _ => PortSelectKey::Stay,
    }
}

/// One key on the help screen scrolled down `scroll` lines: Escape, F1 and `q` close it
/// (the answer is `true`); the arrows, `k` and `j`, the page keys and Home scroll.
pub fn help_key(scroll: &mut usize, key: KeyPress) -> (closed: bool)
    requires
        key.code == KeyCode::PageDown ==> *old(scroll) + 10 <= usize::MAX,
        (key.code == KeyCode::Down || key.code == KeyCode::Char('j')) ==> *old(scroll) + 1 <= usize::MAX,
    ensures
        closed == match key.code {
            KeyCode::Esc => true,
            KeyCode::F(n) => n == 1,
            KeyCode::Char(c) => c == 'q',
            _ => false,
        },
        *final(scroll) == match key.code {
            KeyCode::Up => if *old(scroll) > 0 { (*old(scroll) - 1) as usize } else { 0 },
            KeyCode::Down => (*old(scroll) + 1) as usize,
            KeyCode::Char(c) => if c == 'k' {
                if *old(scroll) > 0 { (*old(scroll) - 1) as usize } else { 0 }
            } else if c == 'j' {
                (*old(scroll) + 1) as usize
            } else {
                *old(scroll)
            },
            KeyCode::PageUp => if *old(scroll) >= 10 { (*old(scroll) - 10) as usize } else { 0 },
            KeyCode::PageDown => (*old(scroll) + 10) as usize,
            KeyCode::Home => 0,
            _ => *old(scroll),
        },
{
    let s = *scroll;
    match key.code {
        KeyCode::Esc => true,
        KeyCode::F(n) => n == 1,
        KeyCode::Up => {
            *scroll = if s > 0 { s - 1 } else { 0 };
            false
        },
        KeyCode::Down => {
            *scroll = s + 1;
            false
        },
        KeyCode::Char(c) => {
            if c == 'k' {
                *scroll = if s > 0 { s - 1 } else { 0 };
            } else if c == 'j' {
                *scroll = s + 1;
            }
            c == 'q'
        },
        KeyCode::PageUp => {
            *scroll = if s >= 10 { s - 10 } else { 0 };
            false
        },
        KeyCode::PageDown => {
            *scroll = s + 10;
            false
        },
        KeyCode::Home => {
            *scroll = 0;
            false
        },
        _ => false,
    }
}

/// What a key in the sample or synth editor asks of the caller.
#[derive(Clone, Copy, Debug, PartialEq, Eq, Structural)]
pub enum EditorKey {
    Stay,
    /// Leave the editor; the instrument was changed.
    Close,
    /// Change the selected field by this many steps.
    Adjust(i64),
    /// Slice the sample into equal parts (Enter on that field).
    SliceEqual,
    /// Slice the sample at its transients (Enter on that field).
    SliceTransient,
    /// Drop the instrument's own synth settings and leave (synth editor).
    ClearParams,
}

/// The change the arrows make: one step up or down, ten to the right or left.
pub open spec fn arrow_steps(code: KeyCode) -> Option<i64> {
    match code {
        KeyCode::Up => Some(1i64),
        KeyCode::Down => Some(-1i64),
        KeyCode::Right => Some(10i64),
        KeyCode::Left => Some(-10i64),
        _ => None,
    }
}

fn arrow_step(code: KeyCode) -> (r: Option<i64>)
    ensures
        r == arrow_steps(code),
{
    match code {
        KeyCode::Up => Some(1),
        KeyCode::Down => Some(-1),
        KeyCode::Right => Some(10),
        KeyCode::Left => Some(-10),
        _ => None,
    }
}

/// One key in the sample editor: Escape leaves, Tab and Shift+Tab move through the
/// fields, Enter on a slice field slices, and the arrows adjust (see `arrow_steps`).
pub fn sample_editor_key(field: &mut SampleField, key: KeyPress) -> (r: EditorKey)
    ensures
        match key.code {
            KeyCode::Esc => r == EditorKey::Close && *final(field) == *old(field),
            KeyCode::Tab => r == EditorKey::Stay && *final(field) == sample_field_after(*old(field)),
            KeyCode::BackTab => r == EditorKey::Stay && *final(field) == sample_field_before(*old(field)),
            KeyCode::Enter => *final(field) == *old(field) && r == match *old(field) {
                SampleField::SliceEqual => EditorKey::SliceEqual,
                SampleField::SliceTransient => EditorKey::SliceTransient,
                _ => EditorKey::Stay,
            },
            _ => *final(field) == *old(field) && r == match arrow_steps(key.code) {
                Some(d) => EditorKey::Adjust(d),
                None => EditorKey::Stay,
            },
        },
{
    match key.code {
        KeyCode::Esc => EditorKey::Close,
        KeyCode::Tab => {
            *field = field.next();
            EditorKey::Stay
        },
        KeyCode::BackTab => {
            *field = field.prev();
            EditorKey::Stay
        },
        KeyCode::Enter => match *field {
            SampleField::SliceEqual => EditorKey::SliceEqual,
            SampleField::SliceTransient => EditorKey::SliceTransient,
            _ => EditorKey::Stay,
        },
        _ => match arrow_step(key.code) {
            Some(d) => EditorKey::Adjust(d),
            None => EditorKey::Stay,
        },
    }
}

/// One key in the synth editor: Escape leaves, Tab and Shift+Tab move through the
/// fields, the arrows adjust (see `arrow_steps`), Delete drops the instrument's own
/// settings.
pub fn synth_editor_key(field: &mut SynthField, key: KeyPress) -> (r: EditorKey)
    ensures
        match key.code {
            KeyCode::Esc => r == EditorKey::Close && *final(field) == *old(field),
            KeyCode::Tab => r == EditorKey::Stay && *final(field) == synth_field_after(*old(field)),
            KeyCode::BackTab => r == EditorKey::Stay && *final(field) == synth_field_before(*old(field)),
            KeyCode::Delete => r == EditorKey::ClearParams && *final(field) == *old(field),
            _ => *final(field) == *old(field) && r == match arrow_steps(key.code) {
                Some(d) => EditorKey::Adjust(d),
                None => EditorKey::Stay,
            },
        },
{
    match key.code {
        KeyCode::Esc => EditorKey::Close,
        KeyCode::Tab => {
            *field = field.next();
            EditorKey::Stay
        },
        KeyCode::BackTab => {
            *field = field.prev();
            EditorKey::Stay
        },
        KeyCode::Delete => EditorKey::ClearParams,
        _ => match arrow_step(key.code) {
            Some(d) => EditorKey::Adjust(d),
            None => EditorKey::Stay,
        },
    }
}

/// Whether a note played on a MIDI keyboard is written into the pattern: only in the
/// insert mode while the song is stopped (otherwise it is only heard).
pub fn midi_note_records(mode: Mode, playing: bool) -> (r: bool)
    ensures
        r == (mode == Mode::Insert && !playing),
{
    mode == Mode::Insert && !playing
}

} // verus!
