//! Tracker grid primitives: note pitches, notes, cells and patterns.
use vstd::prelude::*;
use vstd::string::*;
use crate::text::{dec, hex2, hex_char, hex_digit_str, push_dec, push_hex2};

verus! {

/// A musical note pitch (C, C#, D, ... B).
#[derive(Debug, Clone, Copy, PartialEq, Eq, Structural)]
pub enum NoteValue {
    C,
    Cs,
    D,
    Ds,
    E,
    F,
    Fs,
    G,
    Gs,
    A,
    As,
    B,
}

/// The semitone index (0..=11) of a pitch within its octave.
pub open spec fn note_index(v: NoteValue) -> int {
    match v {
        NoteValue::C => 0,
        NoteValue::Cs => 1,
        NoteValue::D => 2,
        NoteValue::Ds => 3,
        NoteValue::E => 4,
        NoteValue::F => 5,
        NoteValue::Fs => 6,
        NoteValue::G => 7,
        NoteValue::Gs => 8,
        NoteValue::A => 9,
        NoteValue::As => 10,
        NoteValue::B => 11,
    }
}

/// The pitch whose semitone index is `i`, if `i` is in 0..=11.
pub open spec fn note_value_of(i: int) -> Option<NoteValue> {
    if i == 0 { Some(NoteValue::C) }
    else if i == 1 { Some(NoteValue::Cs) }
    else if i == 2 { Some(NoteValue::D) }
    else if i == 3 { Some(NoteValue::Ds) }
    else if i == 4 { Some(NoteValue::E) }
    else if i == 5 { Some(NoteValue::F) }
    else if i == 6 { Some(NoteValue::Fs) }
    else if i == 7 { Some(NoteValue::G) }
    else if i == 8 { Some(NoteValue::Gs) }
    else if i == 9 { Some(NoteValue::A) }
    else if i == 10 { Some(NoteValue::As) }
    else if i == 11 { Some(NoteValue::B) }
    else { None }
}

/// The two-character display name of a pitch: a letter followed by `-` or `#`.
pub open spec fn note_name(v: NoteValue) -> Seq<char> {
    match v {
        NoteValue::C => seq!['C', '-'],
        NoteValue::Cs => seq!['C', '#'],
        NoteValue::D => seq!['D', '-'],
        NoteValue::Ds => seq!['D', '#'],
        NoteValue::E => seq!['E', '-'],
        NoteValue::F => seq!['F', '-'],
        NoteValue::Fs => seq!['F', '#'],
        NoteValue::G => seq!['G', '-'],
        NoteValue::Gs => seq!['G', '#'],
        NoteValue::A => seq!['A', '-'],
        NoteValue::As => seq!['A', '#'],
        NoteValue::B => seq!['B', '-'],
    }
}

impl NoteValue {
    /// The pitch with semitone index `i`, or `None` when `i` is 12 or more.
    pub fn from_index(i: u8) -> (r: Option<Self>)
        ensures
            r == note_value_of(i as int),
            r is Some <==> i < 12,
    {
        match i {
            0 => Some(Self::C),
            1 => Some(Self::Cs),
            2 => Some(Self::D),
            3 => Some(Self::Ds),
            4 => Some(Self::E),
            5 => Some(Self::F),
            6 => Some(Self::Fs),
            7 => Some(Self::G),
            8 => Some(Self::Gs),
            9 => Some(Self::A),
            10 => Some(Self::As),
            11 => Some(Self::B),
            _ => None,
        }
    }

    /// The semitone index of this pitch (0 for C up to 11 for B).
    pub fn to_index(self) -> (r: u8)
        ensures
            r as int == note_index(self),
            r < 12,
    {
        match self {
            Self::C => 0,
            Self::Cs => 1,
            Self::D => 2,
            Self::Ds => 3,
            Self::E => 4,
            Self::F => 5,
            Self::Fs => 6,
            Self::G => 7,
            Self::Gs => 8,
            Self::A => 9,
            Self::As => 10,
            Self::B => 11,
        }
    }

    /// The two-character name shown in the pattern editor ("C-", "C#", ...).
    pub fn display_name(self) -> (s: &'static str)
        ensures
            s@ == note_name(self),
    {
        match self {
            Self::C => { proof { reveal_strlit("C-"); } "C-" },
            Self::Cs => { proof { reveal_strlit("C#"); } "C#" },
            Self::D => { proof { reveal_strlit("D-"); } "D-" },
            Self::Ds => { proof { reveal_strlit("D#"); } "D#" },
            Self::E => { proof { reveal_strlit("E-"); } "E-" },
            Self::F => { proof { reveal_strlit("F-"); } "F-" },
            Self::Fs => { proof { reveal_strlit("F#"); } "F#" },
            Self::G => { proof { reveal_strlit("G-"); } "G-" },
            Self::Gs => { proof { reveal_strlit("G#"); } "G#" },
            Self::A => { proof { reveal_strlit("A-"); } "A-" },
            Self::As => { proof { reveal_strlit("A#"); } "A#" },
            Self::B => { proof { reveal_strlit("B-"); } "B-" },
        }
    }
}

/// A note event in a tracker cell.
#[derive(Debug, Clone, Copy, PartialEq, Eq, Structural)]
pub enum Note {
    /// A note with pitch and octave (e.g. C-4).
    On { value: NoteValue, octave: u8 },
    /// Note off event.
    Off,
}

/// The MIDI note number of a note, when it is a note-on within 0..=127.
pub open spec fn midi_note_of(n: Note) -> Option<u8> {
    match n {
        Note::On { value, octave } => {
            let m = octave as int * 12 + note_index(value);
            if m <= 127 { Some(m as u8) } else { None }
        },
        Note::Off => None,
    }
}

/// The text shown for a note: its pitch name and octave, or `===` for a note off.
pub open spec fn note_text(n: Note) -> Seq<char> {
    match n {
        Note::On { value, octave } => note_name(value) + dec(octave as nat),
        Note::Off => seq!['=', '=', '='],
    }
}

impl Note {
    /// Convert to a MIDI note number (0..=127); note-offs and out-of-range notes give `None`.
    pub fn to_midi_note(&self) -> (r: Option<u8>)
        ensures
            r == midi_note_of(*self),
    {
        match self {
            Note::On { value, octave } => {
                let midi: u16 = (*octave as u16) * 12 + value.to_index() as u16;
                if midi <= 127 {
                    Some(midi as u8)
                } else {
                    None
                }
            },
            Note::Off => None,
        }
    }

    /// Display text of the note, e.g. "C#5" or "===".
    pub fn display(&self) -> (s: String)
        ensures
            s@ == note_text(*self),
    {
        match self {
            Note::On { value, octave } => {
                let mut s = String::from_str(value.display_name());
                push_dec(&mut s, *octave);
                s
            },
            Note::Off => {
                proof { reveal_strlit("==="); }
                String::from_str("===")
            },
        }
    }
}

/// A single cell in the tracker grid.
#[derive(Debug, Clone, Copy, PartialEq, Eq, Structural)]
pub struct Cell {
    pub note: Option<Note>,
    pub instrument: Option<u8>,
    pub volume: Option<u8>,
    pub effect: Option<u8>,
    pub effect_value: Option<u8>,
}

/// The empty cell: no note, instrument, volume or effect.
pub open spec fn empty_cell() -> Cell {
    Cell { note: None, instrument: None, volume: None, effect: None, effect_value: None }
}

/// Text of an optional byte column: two hex digits, or `--` when empty.
pub open spec fn byte_column_text(v: Option<u8>) -> Seq<char> {
    match v {
        Some(x) => hex2(x),
        None => seq!['-', '-'],
    }
}

/// Text of the effect column: one hex digit for the command and two for its value.
pub open spec fn effect_text(effect: Option<u8>, value: Option<u8>) -> Seq<char> {
    let cmd = match effect {
        Some(e) => seq![hex_char((e % 16) as int)],
        None => seq!['-'],
    };
    cmd + byte_column_text(value)
}

impl Default for Cell {
    fn default() -> (c: Self)
        ensures
            c == empty_cell(),
    {
        Cell { note: None, instrument: None, volume: None, effect: None, effect_value: None }
    }
}

/// Append the text of an optional byte column.
fn push_byte_column(s: &mut String, v: Option<u8>)
    ensures
        final(s)@ == old(s)@ + byte_column_text(v),
{
    match v {
        Some(x) => push_hex2(s, x),
        None => {
            proof { reveal_strlit("--"); }
            s.append("--");
        },
    }
}

impl Cell {
    /// A cell is empty when it has no note, instrument, volume or effect command
    /// (an effect value alone does not count).
    pub fn is_empty(&self) -> (b: bool)
        ensures
            b == (self.note is None && self.instrument is None && self.volume is None
                && self.effect is None),
    {
        self.note.is_none() && self.instrument.is_none() && self.volume.is_none()
            && self.effect.is_none()
    }

    /// The note column: the note's text, or `---` when there is no note.
    pub fn display_note(&self) -> (s: String)
        ensures
            s@ == match self.note {
                Some(n) => note_text(n),
                None => seq!['-', '-', '-'],
            },
    {
        match &self.note {
            Some(n) => n.display(),
            None => {
                proof { reveal_strlit("---"); }
                String::from_str("---")
            },
        }
    }

    /// The instrument column: two hex digits or `--`.
    pub fn display_instrument(&self) -> (s: String)
        ensures
            s@ == byte_column_text(self.instrument),
    {
        let mut s = String::new();
        push_byte_column(&mut s, self.instrument);
        proof { assert(s@ =~= byte_column_text(self.instrument)); }
        s
    }

    /// The volume column: two hex digits or `--`.
    pub fn display_volume(&self) -> (s: String)
        ensures
            s@ == byte_column_text(self.volume),
    {
        let mut s = String::new();
        push_byte_column(&mut s, self.volume);
        proof { assert(s@ =~= byte_column_text(self.volume)); }
        s
    }

    /// The effect column: the command's low hex digit (or `-`) followed by the value column.
    pub fn display_effect(&self) -> (s: String)
        ensures
            s@ == effect_text(self.effect, self.effect_value),
    {
        let mut s = String::new();
        match self.effect {
            Some(e) => {
                proof { assert((e & 0x0F) == e % 16 && e % 16 < 16) by (bit_vector); }
                s.append(hex_digit_str(e & 0x0F));
            },
            None => {
                proof { reveal_strlit("-"); }
                s.append("-");
            },
        }
        push_byte_column(&mut s, self.effect_value);
        proof { assert(s@ =~= effect_text(self.effect, self.effect_value)); }
        s
    }
}

/// A pattern is a grid of rows x channels; `data[row][channel]`.
#[derive(Debug)]
pub struct Pattern {
    pub rows: usize,
    pub channels: usize,
    pub data: Vec<Vec<Cell>>,
}

/// Mathematical model of a pattern: its dimensions and its grid of cells.
pub struct PatternModel {
    pub rows: usize,
    pub channels: usize,
    pub grid: Seq<Seq<Cell>>,
}

/// The rows of a grid as sequences of cells.
pub open spec fn rows_model(data: Seq<Vec<Cell>>) -> Seq<Seq<Cell>> {
    Seq::new(data.len(), |r: int| data[r]@)
}

impl View for Pattern {
    type V = PatternModel;

    open spec fn view(&self) -> PatternModel {
        PatternModel {
            rows: self.rows,
            channels: self.channels,
            grid: rows_model(self.data@),
        }
    }
}

impl Pattern {
    /// The grid has `rows` rows of `channels` cells each.
    pub open spec fn wf(&self) -> bool {
        &&& self.data@.len() == self.rows
        &&& forall|r: int| 0 <= r < self.rows ==> #[trigger] self.data@[r]@.len() == self.channels
    }

    /// The cell at `(row, channel)`.
    pub open spec fn cell(&self, row: int, channel: int) -> Cell {
        self.data@[row]@[channel]
    }

    /// Whether `(row, channel)` addresses a cell of the stored grid.
    pub open spec fn in_grid(&self, row: int, channel: int) -> bool {
        0 <= row < self.data@.len() && 0 <= channel < self.data@[row]@.len()
    }

    /// A pattern of `rows` x `channels` empty cells.
    pub fn new(rows: usize, channels: usize) -> (p: Self)
        ensures
            p.rows == rows,
            p.channels == channels,
            p.wf(),
            forall|r: int, c: int| 0 <= r < rows && 0 <= c < channels ==> #[trigger] p.cell(r, c) == empty_cell(),
    {
        let mut data: Vec<Vec<Cell>> = Vec::new();
        let mut r: usize = 0;
        while r < rows
            invariant
                r <= rows,
                data@.len() == r,
                forall|i: int| 0 <= i < r ==> #[trigger] data@[i]@.len() == channels,
                forall|i: int, c: int| 0 <= i < r && 0 <= c < channels ==> #[trigger] data@[i]@[c] == empty_cell(),
            decreases rows - r,
        {
            let mut row: Vec<Cell> = Vec::new();
            let mut c: usize = 0;
            while c < channels
                invariant
                    c <= channels,
                    row@.len() == c,
                    forall|j: int| 0 <= j < c ==> #[trigger] row@[j] == empty_cell(),
                decreases channels - c,
            {
                row.push(Cell::default());
                c = c + 1;
            }
            data.push(row);
            r = r + 1;
        }
        Pattern { rows, channels, data }
    }

    /// The cell at `(row, channel)`; the position must lie in the grid.
    pub fn get(&self, row: usize, channel: usize) -> (c: &Cell)
        requires
            self.in_grid(row as int, channel as int),
        ensures
            *c == self.cell(row as int, channel as int),
    {
        &self.data[row][channel]
    }

    /// Mutable access to the cell at `(row, channel)`; every other cell is left as it was.
    pub fn get_mut(&mut self, row: usize, channel: usize) -> (c: &mut Cell)
        requires
            old(self).in_grid(row as int, channel as int),
        ensures
            *c == old(self).cell(row as int, channel as int),
            final(self).rows == old(self).rows,
            final(self).channels == old(self).channels,
            final(self).data@.len() == old(self).data@.len(),
            forall|r: int| 0 <= r < old(self).data@.len() && r != row ==> #[trigger] final(self).data@[r] == old(self).data@[r],
            final(self).data@[row as int]@ == old(self).data@[row as int]@.update(channel as int, *final(c)),
    {
        &mut self.data[row][channel]
    }

    /// A copy of this pattern with the same dimensions and cells.
    pub fn duplicate(&self) -> (p: Self)
        ensures
            p@ == self@,
    {
        let mut data: Vec<Vec<Cell>> = Vec::new();
        let mut r: usize = 0;
        while r < self.data.len()
            invariant
                r <= self.data@.len(),
                data@.len() == r,
                forall|i: int| 0 <= i < r ==> #[trigger] data@[i]@ == self.data@[i]@,
            decreases self.data@.len() - r,
        {
            let mut row: Vec<Cell> = Vec::new();
            let src = &self.data[r];
            let mut c: usize = 0;
            while c < src.len()
                invariant
                    c <= src@.len(),
                    row@ == src@.subrange(0, c as int),
                decreases src@.len() - c,
            {
                row.push(src[c]);
                c = c + 1;
                proof { assert(row@ =~= src@.subrange(0, c as int)); }
            }
            proof { assert(row@ =~= src@); }
            data.push(row);
            r = r + 1;
        }
        let p = Pattern { rows: self.rows, channels: self.channels, data };
        proof {
            assert(p@.grid =~= self@.grid);
        }
        p
    }

    /// Overwrite the cell at `(row, channel)`; every other cell is left as it was.
    pub fn set_cell(&mut self, row: usize, channel: usize, cell: Cell)
        requires
            old(self).in_grid(row as int, channel as int),
        ensures
            final(self).rows == old(self).rows,
            final(self).channels == old(self).channels,
            final(self).data@.len() == old(self).data@.len(),
            forall|r: int| 0 <= r < old(self).data@.len() && r != row ==> #[trigger] final(self).data@[r] == old(self).data@[r],
            final(self).data@[row as int]@ == old(self).data@[row as int]@.update(channel as int, cell),
    {
        self.data[row][channel] = cell;
    }

    /// Give the pattern `n` rows: rows past `n` are dropped, new empty rows of the
    /// pattern's width are added at the end.
    pub fn resize_rows(&mut self, n: usize)
        requires
            old(self).wf(),
        ensures
            final(self).wf(),
            final(self).rows == n,
            final(self).channels == old(self).channels,
            forall|r: int| 0 <= r < n && r < old(self).rows ==> #[trigger] final(self).data@[r] == old(self).data@[r],
            forall|r: int, c: int| old(self).rows <= r < n && 0 <= c < old(self).channels
                ==> #[trigger] final(self).cell(r, c) == empty_cell(),
    {
        let ghost d0 = self.data@;
        let w = self.channels;
        self.data.truncate(n);
        while self.data.len() < n
            invariant
                self.channels == w,
                self.data@.len() <= n,
                d0.len() == old(self).rows,
                forall|r: int| 0 <= r < self.data@.len() && r < d0.len() ==> #[trigger] self.data@[r] == d0[r],
                forall|r: int| 0 <= r < d0.len() ==> #[trigger] d0[r]@.len() == w,
                forall|r: int| d0.len() <= r < self.data@.len() ==> #[trigger] self.data@[r]@.len() == w,
                forall|r: int, c: int| d0.len() <= r < self.data@.len() && 0 <= c < w ==> #[trigger] self.data@[r]@[c] == empty_cell(),
                self.data@.len() >= n || self.data@.len() >= d0.len(),
            decreases n - self.data@.len(),
        {
            let mut row: Vec<Cell> = Vec::new();
            let mut c: usize = 0;
            while c < w
                invariant
                    c <= w,
                    row@.len() == c,
                    forall|k: int| 0 <= k < c ==> #[trigger] row@[k] == empty_cell(),
                decreases w - c,
            {
                row.push(Cell::default());
                c = c + 1;
            }
            self.data.push(row);
        }
        self.rows = n;
    }
}

} // verus!
