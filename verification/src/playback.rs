//! Playback decisions: what a row does to each channel, what the following ticks do,
//! and where playback goes next. The player performs the resulting note events and
//! keeps the pitch offsets (fractional semitones) itself.
use vstd::prelude::*;
use crate::midi_file::or_u8;
use crate::pattern::{Cell, Note, Pattern, midi_note_of};
use crate::song::{Song, SongModel};

verus! {

/// `0xy`: cycle note, note + x, note + y.
pub const EFFECT_ARPEGGIO: u8 = 0x0;
/// `1xx`: slide pitch up by xx sixteenths of a semitone per tick.
pub const EFFECT_PORTA_UP: u8 = 0x1;
/// `2xx`: slide pitch down.
pub const EFFECT_PORTA_DOWN: u8 = 0x2;
/// `3xx`: slide toward the target note.
pub const EFFECT_TONE_PORTA: u8 = 0x3;
/// `4xy`: vibrato with speed x and depth y.
pub const EFFECT_VIBRATO: u8 = 0x4;
/// `5xy`: volume slide, up x and down y per tick.
pub const EFFECT_VOLUME_SLIDE: u8 = 0x5;
/// `6xx`: delay the note by xx ticks.
pub const EFFECT_NOTE_DELAY: u8 = 0x6;
/// `Bxx`: jump to order position xx.
pub const EFFECT_POSITION_JUMP: u8 = 0xB;
/// `Cxx`: controller change (controller from the instrument column, value xx).
pub const EFFECT_MIDI_CC: u8 = 0xC;
/// `Dxx`: break to row xx of the next order position.
pub const EFFECT_PATTERN_BREAK: u8 = 0xD;
/// `Exx`: program change.
pub const EFFECT_PROGRAM_CHANGE: u8 = 0xE;
/// `Fxx`: below 0x20 sets the speed, from 0x20 the tempo.
pub const EFFECT_SET_SPEED: u8 = 0xF;
/// Largest MIDI data value (and volume).
pub const MIDI_MAX_VALUE: u8 = 0x7F;

/// The integer state of a playing channel.
#[derive(Clone, Copy, Debug, PartialEq, Eq, Structural)]
pub struct ChannelState {
    /// The MIDI note sounding.
    pub note: Option<u8>,
    /// Current volume (0..=127).
    pub volume: u8,
    /// The effect of the last row.
    pub effect: Option<u8>,
    pub effect_param: u8,
    /// Target note of a tone portamento.
    pub porta_target: Option<u8>,
    /// A note waiting for its tick.
    pub delayed_note: Option<DelayedNote>,
    /// The tick on which the delayed note fires.
    pub delay_tick: u8,
}

/// A note held back by a note delay: the note and velocity, or a note off.
#[derive(Clone, Copy, Debug, PartialEq, Eq, Structural)]
pub struct DelayedNote {
    pub note: u8,
    pub velocity: u8,
    pub off: bool,
}

/// The state of a channel before playback starts.
pub open spec fn initial_channel() -> ChannelState {
    ChannelState {
        note: None,
        volume: MIDI_MAX_VALUE,
        effect: None,
        effect_param: 0,
        porta_target: None,
        delayed_note: None,
        delay_tick: 0,
    }
}

impl Default for ChannelState {
    fn default() -> (r: Self)
        ensures
            r == initial_channel(),
    {
        ChannelState {
            note: None,
            volume: MIDI_MAX_VALUE,
            effect: None,
            effect_param: 0,
            porta_target: None,
            delayed_note: None,
            delay_tick: 0,
        }
    }
}

/// What a row does to a channel's sound.
#[derive(Clone, Copy, Debug, PartialEq, Eq, Structural)]
pub enum RowNote {
    /// Start `note` at `velocity`, with the pitch offset and vibrato reset.
    Trigger { note: u8, velocity: u8 },
    /// Stop the channel's note and reset its pitch offset.
    Release,
    /// Nothing sounds new.
    Hold,
}

/// The parameter of a cell's effect (0 when absent).
pub open spec fn row_param(c: Cell) -> u8 {
    or_u8(c.effect_value, 0)
}

/// The state after the note column of `c`, on a heard channel, and the sound event.
/// A note with tone portamento sets the target; with a note delay it is kept for its
/// tick; otherwise it sounds at the cell's volume (or the channel's).
pub open spec fn note_row(st: ChannelState, c: Cell) -> (ChannelState, RowNote) {
    let param = row_param(c);
    let tone = c.effect == Some(EFFECT_TONE_PORTA);
    let delay = c.effect == Some(EFFECT_NOTE_DELAY) && param > 0;
    let vel = or_u8(c.volume, st.volume);
    let st0 = ChannelState { delayed_note: None, ..st };
    match c.note {
        Some(n) => match n {
            Note::On { .. } => match midi_note_of(n) {
                Some(m) => if tone {
                    (ChannelState { porta_target: Some(m), ..st0 }, RowNote::Hold)
                } else if delay {
                    (ChannelState { delayed_note: Some(DelayedNote { note: m, velocity: vel, off: false }), delay_tick: param, ..st0 }, RowNote::Hold)
                } else {
                    (ChannelState { note: Some(m), volume: vel, ..st0 }, RowNote::Trigger { note: m, velocity: vel })
                },
                None => (st0, RowNote::Hold),
            },
            Note::Off => if delay {
                (ChannelState { delayed_note: Some(DelayedNote { note: 0, velocity: 0, off: true }), delay_tick: param, ..st0 }, RowNote::Hold)
            } else {
                (ChannelState { note: None, ..st0 }, RowNote::Release)
            },
        },
        None => match c.volume {
            Some(v) => (ChannelState { volume: v, ..st0 }, RowNote::Hold),
            None => (st0, RowNote::Hold),
        },
    }
}

/// A row on a heard channel: the note column, then the effect is kept for the
/// following ticks.
pub open spec fn channel_row_spec(st: ChannelState, c: Cell) -> (ChannelState, RowNote) {
    let (s, ev) = note_row(st, c);
    (ChannelState { effect: c.effect, effect_param: row_param(c), ..s }, ev)
}

/// A row on a silent (muted) channel: notes only update the state, so that effects
/// resume correctly, and nothing sounds.
pub open spec fn muted_row_spec(st: ChannelState, c: Cell) -> ChannelState {
    let s = match c.note {
        Some(n) => match midi_note_of(n) {
            Some(m) => if c.effect == Some(EFFECT_TONE_PORTA) {
                ChannelState { porta_target: Some(m), ..st }
            } else {
                ChannelState { note: Some(m), ..st }
            },
            None => st,
        },
        None => st,
    };
    ChannelState { effect: c.effect, effect_param: row_param(c), ..s }
}

/// Play a row's cell on a heard channel (see `channel_row_spec`).
pub fn channel_row(st: ChannelState, c: &Cell) -> (r: (ChannelState, RowNote))
    ensures
        r == channel_row_spec(st, *c),
{
    let param: u8 = match c.effect_value {
        Some(v) => v,
        None => 0,
    };
    let tone = c.effect == Some(EFFECT_TONE_PORTA);
    let delay = c.effect == Some(EFFECT_NOTE_DELAY) && param > 0;
    let vel: u8 = match c.volume {
        Some(v) => v,
        None => st.volume,
    };
    let mut s = st;
    s.delayed_note = None;
    let mut ev = RowNote::Hold;
    match c.note {
        Some(n) => match n {
            Note::On { .. } => match n.to_midi_note() {
                Some(m) => {
                    if tone {
                        s.porta_target = Some(m);
                    } else if delay {
                        s.delayed_note = Some(DelayedNote { note: m, velocity: vel, off: false });
                        s.delay_tick = param;
                    } else {
                        s.note = Some(m);
                        s.volume = vel;
                        ev = RowNote::Trigger { note: m, velocity: vel };
                    }
                },
                None => {},
            },
            Note::Off => {
                if delay {
                    s.delayed_note = Some(DelayedNote { note: 0, velocity: 0, off: true });
                    s.delay_tick = param;
                } else {
                    s.note = None;
                    ev = RowNote::Release;
                }
            },
        },
        None => {
            if let Some(v) = c.volume {
                s.volume = v;
            }
        },
    }
    s.effect = c.effect;
    s.effect_param = param;
    (s, ev)
}

/// Play a row's cell on a silent channel (see `muted_row_spec`).
pub fn muted_row(st: ChannelState, c: &Cell) -> (r: ChannelState)
    ensures
        r == muted_row_spec(st, *c),
{
    let mut s = st;
    if let Some(n) = c.note {
        if let Some(m) = n.to_midi_note() {
            if c.effect == Some(EFFECT_TONE_PORTA) {
                s.porta_target = Some(m);
            } else {
                s.note = Some(m);
            }
        }
    }
    s.effect = c.effect;
    s.effect_param = match c.effect_value {
        Some(v) => v,
        None => 0,
    };
    s
}

/// A message that a row sends at once on its channel.
#[derive(Clone, Copy, Debug, PartialEq, Eq, Structural)]
pub enum RowMessage {
    ControlChange { controller: u8, value: u8 },
    ProgramChange(u8),
}

/// `Cxx` sends controller (instrument column) = xx; `Exx` a program change to xx.
pub open spec fn row_message_spec(c: Cell) -> Option<RowMessage> {
    if c.effect == Some(EFFECT_MIDI_CC) {
        Some(RowMessage::ControlChange { controller: or_u8(c.instrument, 0), value: row_param(c) })
    } else if c.effect == Some(EFFECT_PROGRAM_CHANGE) {
        Some(RowMessage::ProgramChange(row_param(c)))
    } else {
        None
    }
}

/// The message a cell's effect sends when its row plays.
pub fn row_message(c: &Cell) -> (r: Option<RowMessage>)
    ensures
        r == row_message_spec(*c),
{
    let param: u8 = match c.effect_value {
        Some(v) => v,
        None => 0,
    };
    if c.effect == Some(EFFECT_MIDI_CC) {
        let controller: u8 = match c.instrument {
            Some(i) => i,
            None => 0,
        };
        Some(RowMessage::ControlChange { controller, value: param })
    } else if c.effect == Some(EFFECT_PROGRAM_CHANGE) {
        Some(RowMessage::ProgramChange(param))
    } else {
        None
    }
}


/// What a tick after the first does on a channel.
#[derive(Clone, Copy, Debug, PartialEq, Eq, Structural)]
pub enum TickEvent {
    /// The delayed note starts (pitch offset and vibrato reset).
    DelayedTrigger { note: u8, velocity: u8 },
    /// The delayed note off stops the channel (pitch offset reset).
    DelayedRelease,
    /// Arpeggio: the note sounds this many semitones above its base.
    Arpeggio(u8),
    /// A volume slide set this volume.
    Volume(u8),
    /// A pitch effect (portamento, tone portamento toward a target, or vibrato) moves
    /// the pitch offset.
    Pitch,
    Nothing,
}

/// The volume after one tick of a `5xy` slide: up x, down y, kept within 0..=127.
pub open spec fn slid_volume(volume: u8, param: u8) -> u8 {
    let v = volume as int + (param / 16) as int - (param % 16) as int;
    if v < 0 {
        0
    } else if v > MIDI_MAX_VALUE as int {
        MIDI_MAX_VALUE
    } else {
        v as u8
    }
}

/// The arpeggio offset on `tick` for parameter `xy`: 0, x, y in turn.
pub open spec fn arpeggio_offset(param: u8, tick: u8) -> u8 {
    if tick % 3 == 0 {
        0
    } else if tick % 3 == 1 {
        param / 16
    } else {
        param % 16
    }
}

/// Tick `tick` (after the first) of a channel. A note delay only waits for its tick;
/// otherwise the effects act on the sounding note, if there is one.
pub open spec fn tick_spec(st: ChannelState, tick: u8) -> (ChannelState, TickEvent) {
    if st.effect == Some(EFFECT_NOTE_DELAY) {
        match st.delayed_note {
            Some(d) => if tick == st.delay_tick {
                if d.off {
                    (ChannelState { note: None, delayed_note: None, ..st }, TickEvent::DelayedRelease)
                } else {
                    (
                        ChannelState { note: Some(d.note), volume: d.velocity, delayed_note: None, ..st },
                        TickEvent::DelayedTrigger { note: d.note, velocity: d.velocity },
                    )
                }
            } else {
                (st, TickEvent::Nothing)
            },
            None => (st, TickEvent::Nothing),
        }
    } else if st.note is None {
        (st, TickEvent::Nothing)
    } else {
        match st.effect {
            Some(e) => if e == EFFECT_ARPEGGIO && st.effect_param != 0 {
                (st, TickEvent::Arpeggio(arpeggio_offset(st.effect_param, tick)))
            } else if e == EFFECT_PORTA_UP || e == EFFECT_PORTA_DOWN || e == EFFECT_VIBRATO
                || (e == EFFECT_TONE_PORTA && st.porta_target is Some) {
                (st, TickEvent::Pitch)
            } else if e == EFFECT_VOLUME_SLIDE {
                let v = slid_volume(st.volume, st.effect_param);
                (ChannelState { volume: v, ..st }, TickEvent::Volume(v))
            } else {
                (st, TickEvent::Nothing)
            },
            None => (st, TickEvent::Nothing),
        }
    }
}

/// On every tick after the first, a sounding note under a pitch effect moves its
/// pitch: portamento up (1xx), portamento down (2xx) and vibrato (4xy) always, tone
/// portamento (3xx) once it has a target note; such a tick changes no state. A volume
/// slide (5xy) sets the volume up by x and down by y, within 0..=127. Without a
/// sounding note (and no note delay) nothing happens.
pub proof fn law_pitch_effects_move(st: ChannelState, tick: u8)
    ensures
        st.note is Some && (st.effect == Some(1u8) || st.effect == Some(2u8) || st.effect == Some(4u8)
            || (st.effect == Some(3u8) && st.porta_target is Some))
            ==> tick_spec(st, tick) == (st, TickEvent::Pitch),
        st.note is Some && st.effect == Some(5u8) ==> ({
            let v = st.volume as int + (st.effect_param / 16) as int - (st.effect_param % 16) as int;
            let w: int = if v < 0 { 0 } else if v > 127 { 127 } else { v };
            tick_spec(st, tick).1 == TickEvent::Volume(w as u8) && tick_spec(st, tick).0.volume == w
        }),
        st.note is None && st.effect != Some(6u8) ==> tick_spec(st, tick) == (st, TickEvent::Nothing),
{
}

/// Process tick `tick` (after the first) of a channel (see `tick_spec`).
pub fn effect_tick(st: ChannelState, tick: u8) -> (r: (ChannelState, TickEvent))
    ensures
        r == tick_spec(st, tick),
{
    let mut s = st;
    if st.effect == Some(EFFECT_NOTE_DELAY) {
        if let Some(d) = st.delayed_note {
            if tick == st.delay_tick {
                s.delayed_note = None;
                if d.off {
                    s.note = None;
                    return (s, TickEvent::DelayedRelease);
                } else {
                    s.note = Some(d.note);
                    s.volume = d.velocity;
                    return (s, TickEvent::DelayedTrigger { note: d.note, velocity: d.velocity });
                }
            }
        }
        return (s, TickEvent::Nothing);
    }
    if st.note.is_none() {
        return (s, TickEvent::Nothing);
    }
    match st.effect {
        Some(e) => {
            let param = st.effect_param;
            if e == EFFECT_ARPEGGIO && param != 0 {
                let off = if tick % 3 == 0 {
                    0
                } else if tick % 3 == 1 {
                    param / 16
                } else {
                    param % 16
                };
                (s, TickEvent::Arpeggio(off))
            } else if e == EFFECT_PORTA_UP || e == EFFECT_PORTA_DOWN || e == EFFECT_VIBRATO
                || (e == EFFECT_TONE_PORTA && st.porta_target.is_some()) {
                (s, TickEvent::Pitch)
            } else if e == EFFECT_VOLUME_SLIDE {
                let up = (param / 16) as i16;
                let down = (param % 16) as i16;
                let raw: i16 = st.volume as i16 + up - down;
                let v: u8 = if raw < 0 {
                    0
                } else if raw > MIDI_MAX_VALUE as i16 {
                    MIDI_MAX_VALUE
                } else {
                    raw as u8
                };
                s.volume = v;
                (s, TickEvent::Volume(v))
            } else {
                (s, TickEvent::Nothing)
            }
        },
        None => (s, TickEvent::Nothing),
    }
}

/// The song-level commands found in a row.
#[derive(Clone, Copy, Debug, PartialEq, Eq, Structural)]
pub struct RowControl {
    /// `Bxx`: order position to jump to.
    pub jump: Option<usize>,
    /// `Dxx`: row to start the next position at.
    pub break_row: Option<usize>,
    /// `Fxx` below 0x20 (and above 0): new speed.
    pub speed: Option<u8>,
    /// `Fxx` from 0x20: new tempo.
    pub bpm: Option<u16>,
}

/// Nothing found yet.
pub open spec fn no_control() -> RowControl {
    RowControl { jump: None, break_row: None, speed: None, bpm: None }
}

/// One cell's contribution to the row's commands; a later cell overrides an earlier
/// one of the same kind.
pub open spec fn control_step(rc: RowControl, c: Cell) -> RowControl {
    let p = row_param(c);
    if c.effect == Some(EFFECT_POSITION_JUMP) {
        RowControl { jump: Some(p as usize), ..rc }
    } else if c.effect == Some(EFFECT_PATTERN_BREAK) {
        RowControl { break_row: Some(p as usize), ..rc }
    } else if c.effect == Some(EFFECT_SET_SPEED) && p > 0 && p < 0x20 {
        RowControl { speed: Some(p), ..rc }
    } else if c.effect == Some(EFFECT_SET_SPEED) && p >= 0x20 {
        RowControl { bpm: Some(p as u16), ..rc }
    } else {
        rc
    }
}

/// The commands of a row of cells, read left to right.
pub open spec fn controls_of(cells: Seq<Cell>) -> RowControl
    decreases cells.len(),
{
    if cells.len() == 0 {
        no_control()
    } else {
        control_step(controls_of(cells.drop_last()), cells.last())
    }
}

/// Read the song-level commands of `row` of `pattern`.
pub fn row_controls(pattern: &Pattern, row: usize) -> (r: RowControl)
    requires
        pattern.wf(),
        row < pattern.rows,
    ensures
        r == controls_of(pattern.data@[row as int]@),
{
    let cells = &pattern.data[row];
    let mut rc = RowControl { jump: None, break_row: None, speed: None, bpm: None };
    let mut i: usize = 0;
    while i < cells.len()
        invariant
            i <= cells@.len(),
            rc == controls_of(cells@.take(i as int)),
        decreases cells@.len() - i,
    {
        let c = &cells[i];
        let p: u8 = match c.effect_value {
            Some(v) => v,
            None => 0,
        };
        if c.effect == Some(EFFECT_POSITION_JUMP) {
            rc.jump = Some(p as usize);
        } else if c.effect == Some(EFFECT_PATTERN_BREAK) {
            rc.break_row = Some(p as usize);
        } else if c.effect == Some(EFFECT_SET_SPEED) && p > 0 && p < 0x20 {
            rc.speed = Some(p);
        } else if c.effect == Some(EFFECT_SET_SPEED) && p >= 0x20 {
            rc.bpm = Some(p as u16);
        }
        proof {
            assert(cells@.take(i as int + 1).drop_last() =~= cells@.take(i as int));
        }
        i = i + 1;
    }
    proof { assert(cells@.take(cells@.len() as int) =~= cells@); }
    rc
}

/// The speed and tempo after a row's `Fxx` commands.
pub fn apply_row_tempo(speed: u8, bpm: u16, rc: &RowControl) -> (r: (u8, u16))
    ensures
        r.0 == match rc.speed { Some(v) => v, None => speed },
        r.1 == match rc.bpm { Some(v) => v, None => bpm },
{
    let s = match rc.speed {
        Some(v) => v,
        None => speed,
    };
    let b = match rc.bpm {
        Some(v) => v,
        None => bpm,
    };
    (s, b)
}

/// The rows of the pattern at order position `o`.
pub open spec fn rows_at(s: SongModel, o: int) -> int {
    s.patterns[s.order[o] as int].rows as int
}

/// The order position after `o`, wrapping to the start.
pub open spec fn wrap_next(s: SongModel, o: int) -> int {
    if o + 1 >= s.order.len() { 0 } else { o + 1 }
}

/// Where playback goes after row `row` at order position `o` has played: a jump goes
/// to its position (at most the last), at the break row or the first; a break goes to
/// its row of the next position; otherwise the next row, or the first row of the next
/// position. Rows are clamped to the target pattern.
pub open spec fn next_position_spec(s: SongModel, o: int, row: int, rc: RowControl) -> (int, int) {
    let last = s.order.len() - 1;
    match rc.jump {
        Some(j) => {
            let t = if j <= last { j as int } else { last };
            let b = match rc.break_row { Some(b) => b as int, None => 0 };
            (t, if b <= rows_at(s, t) - 1 { b } else { rows_at(s, t) - 1 })
        },
        None => match rc.break_row {
            Some(b) => {
                let t = wrap_next(s, o);
                (t, if b <= rows_at(s, t) - 1 { b as int } else { rows_at(s, t) - 1 })
            },
            None => if row + 1 >= rows_at(s, o) {
                (wrap_next(s, o), 0)
            } else {
                (o, row + 1)
            },
        },
    }
}

/// The order position that the row's commands lead to (for a jump or a break).
pub open spec fn control_target(s: SongModel, o: int, rc: RowControl) -> Option<int> {
    let last = s.order.len() - 1;
    match rc.jump {
        Some(j) => Some(if j <= last { j as int } else { last }),
        None => match rc.break_row {
            Some(_) => Some(wrap_next(s, o)),
            None => None,
        },
    }
}

/// An order position that names an existing pattern.
pub open spec fn names_pattern(s: SongModel, o: int) -> bool {
    0 <= o < s.order.len() && s.order[o] < s.patterns.len()
}

/// Where live playback goes after a row (see `next_position_spec`).
pub fn next_position(song: &Song, order: usize, row: usize, rc: &RowControl) -> (r: (usize, usize))
    requires
        names_pattern(song@, order as int),
        match control_target(song@, order as int, *rc) {
            Some(t) => names_pattern(song@, t) && rows_at(song@, t) > 0,
            None => true,
        },
    ensures
        (r.0 as int, r.1 as int) == next_position_spec(song@, order as int, row as int, *rc),
{
    let n = song.order.len();
    let last = n - 1;
    let next = if order + 1 >= n { 0 } else { order + 1 };
    match rc.jump {
        Some(j) => {
            let t = if j <= last { j } else { last };
            let rows = song.patterns[song.order[t]].rows;
            let b: usize = match rc.break_row {
                Some(b) => b,
                None => 0,
            };
            (t, if b <= rows - 1 { b } else { rows - 1 })
        },
        None => match rc.break_row {
            Some(b) => {
                let rows = song.patterns[song.order[next]].rows;
                (next, if b <= rows - 1 { b } else { rows - 1 })
            },
            None => {
                let rows = song.patterns[song.order[order]].rows;
                if row >= rows || rows - row <= 1 {
                    (next, 0)
                } else {
                    (order, row + 1)
                }
            },
        },
    }
}

/// Live playback stays on existing rows: when the row's commands lead to a pattern
/// with rows, or the current row exists, the next position is an existing row of an
/// existing pattern.
pub proof fn law_next_position_valid(s: SongModel, o: int, row: int, rc: RowControl)
    requires
        names_pattern(s, o),
        0 <= row < rows_at(s, o),
        forall|i: int| 0 <= i < s.order.len() ==> names_pattern(s, i) && #[trigger] rows_at(s, i) > 0,
    ensures
        names_pattern(s, next_position_spec(s, o, row, rc).0),
        0 <= next_position_spec(s, o, row, rc).1 < rows_at(s, next_position_spec(s, o, row, rc).0),
{
    let t = next_position_spec(s, o, row, rc).0;
    assert(0 <= t < s.order.len());
    assert(rows_at(s, t) > 0);
}


/// How often the entry at order position `o` plays (once when no count is stored).
pub open spec fn repeats_at(s: SongModel, o: int) -> int {
    if o < s.order_repeats.len() { s.order_repeats[o] as int } else { 1 }
}

/// A position of the offline renderer: order position, repetition and row.
#[derive(Clone, Copy, Debug, PartialEq, Eq, Structural)]
pub struct RenderPos {
    pub order_pos: usize,
    pub repeat: u8,
    pub row: usize,
}

pub open spec fn pos_triple(p: RenderPos) -> (int, int, int) {
    (p.order_pos as int, p.repeat as int, p.row as int)
}

/// The first row rendered from order position `o` on, where the first repetition
/// starts at row `start`: entries played 0 times are skipped (`start` still pending),
/// rendering ends past the order list or at an entry naming no pattern, and a
/// repetition that starts past the pattern's end renders nothing.
pub open spec fn render_from(s: SongModel, o: int, start: int) -> Option<(int, int, int)>
    decreases s.order.len() - o,
{
    if o < 0 || o >= s.order.len() {
        None
    } else if repeats_at(s, o) == 0 {
        render_from(s, o + 1, start)
    } else if s.order[o] >= s.patterns.len() {
        None
    } else if start < rows_at(s, o) {
        Some((o, 0, start))
    } else if repeats_at(s, o) > 1 && rows_at(s, o) > 0 {
        Some((o, 1, 0))
    } else {
        render_from(s, o + 1, 0)
    }
}

/// The row where a jump or break lands in the pattern at `t`: clamped to its last row
/// when `t` names a pattern.
pub open spec fn landing_row(s: SongModel, t: int, b: int) -> int {
    if s.order[t] < s.patterns.len() {
        let last = if rows_at(s, t) >= 1 { rows_at(s, t) - 1 } else { 0 };
        if b <= last { b } else { last }
    } else {
        b
    }
}

/// `a` comes before `b` in rendering order: by order position, then repetition, then
/// row.
pub open spec fn pos_before(a: (int, int, int), b: (int, int, int)) -> bool {
    a.0 < b.0 || (a.0 == b.0 && (a.1 < b.1 || (a.1 == b.1 && a.2 < b.2)))
}

/// Where a jump or break from `cur` leads the renderer: the row `q` it lands on when
/// that row comes after `cur`; a jump or break back to a row at or before `cur` (such as
/// a break on the last order entry) ends the rendering, since it would render again
/// what was rendered.
pub open spec fn forward_only(cur: (int, int, int), q: Option<(int, int, int)>) -> Option<(int, int, int)> {
    match q {
        Some(p) => if pos_before(cur, p) { Some(p) } else { None },
        None => None,
    }
}

/// The next row rendered after `p` with the row's commands `rc`: a jump goes to its
/// position (at most the last) at the break row or the first; a break to the next
/// position (wrapping) at its row, either only when that lies ahead (see
/// `forward_only`); otherwise the next row, the next repetition, or the next order
/// position.
pub open spec fn render_next(s: SongModel, o: int, rep: int, row: int, rc: RowControl) -> Option<(int, int, int)> {
    let last = s.order.len() - 1;
    match rc.jump {
        Some(j) => {
            let t = if j <= last { j as int } else { last };
            let b = match rc.break_row { Some(b) => b as int, None => 0 };
            forward_only((o, rep, row), render_from(s, t, landing_row(s, t, b)))
        },
        None => match rc.break_row {
            Some(b) => {
                let t = wrap_next(s, o);
                forward_only((o, rep, row), render_from(s, t, landing_row(s, t, b as int)))
            },
            None => if row + 1 < rows_at(s, o) {
                Some((o, rep, row + 1))
            } else if rep + 1 < repeats_at(s, o) {
                Some((o, rep + 1, 0))
            } else {
                render_from(s, o + 1, 0)
            },
        },
    }
}

/// A position the renderer can play: an existing row of an existing pattern, in a
/// repetition that is due.
pub open spec fn playable(s: SongModel, o: int, rep: int, row: int) -> bool {
    &&& names_pattern(s, o)
    &&& 0 <= rep < repeats_at(s, o)
    &&& 0 <= row < rows_at(s, o)
}

fn repeats_of(song: &Song, o: usize) -> (r: u8)
    ensures
        r as int == repeats_at(song@, o as int),
{
    if o < song.order_repeats.len() {
        song.order_repeats[o]
    } else {
        1
    }
}

/// The first row rendered from order position `o` (see `render_from`).
pub fn render_start_at(song: &Song, o: usize, start: usize) -> (r: Option<RenderPos>)
    ensures
        match r {
            Some(p) => render_from(song@, o as int, start as int) == Some(pos_triple(p)),
            None => render_from(song@, o as int, start as int) is None,
        },
{
    let n = song.order.len();
    let mut pos = o;
    let mut first = start;
    while pos < n
        invariant
            n == song@.order.len(),
            render_from(song@, o as int, start as int) == render_from(song@, pos as int, first as int),
        decreases n - pos,
    {
        let rc = repeats_of(song, pos);
        if rc == 0 {
            pos = pos + 1;
        } else {
            let pat = song.order[pos];
            if pat >= song.patterns.len() {
                return None;
            }
            let rows = song.patterns[pat].rows;
            assert(rows_at(song@, pos as int) == rows);
            if first < rows {
                return Some(RenderPos { order_pos: pos, repeat: 0, row: first });
            } else if rc > 1 && rows > 0 {
                return Some(RenderPos { order_pos: pos, repeat: 1, row: 0 });
            }
            pos = pos + 1;
            first = 0;
        }
    }
    None
}

/// Where offline rendering starts.
pub fn render_start(song: &Song) -> (r: Option<RenderPos>)
    ensures
        match r {
            Some(p) => render_from(song@, 0, 0) == Some(pos_triple(p)),
            None => render_from(song@, 0, 0) is None,
        },
{
    render_start_at(song, 0, 0)
}

/// The row rendered after `p`, given the commands `rc` found in it (see `render_next`).
pub fn render_advance(song: &Song, p: RenderPos, rc: &RowControl) -> (r: Option<RenderPos>)
    requires
        playable(song@, p.order_pos as int, p.repeat as int, p.row as int),
    ensures
        match r {
            Some(q) => render_next(song@, p.order_pos as int, p.repeat as int, p.row as int, *rc) == Some(pos_triple(q)),
            None => render_next(song@, p.order_pos as int, p.repeat as int, p.row as int, *rc) is None,
        },
{
    let n = song.order.len();
    let last = n - 1;
    match rc.jump {
        Some(j) => {
            let t = if j <= last { j } else { last };
            let b: usize = match rc.break_row {
                Some(b) => b,
                None => 0,
            };
            let land = landing(song, t, b);
            ahead_of(p, render_start_at(song, t, land))
        },
        None => match rc.break_row {
            Some(b) => {
                let t = if p.order_pos + 1 >= n { 0 } else { p.order_pos + 1 };
                let land = landing(song, t, b);
                ahead_of(p, render_start_at(song, t, land))
            },
            None => {
                let rows = song.patterns[song.order[p.order_pos]].rows;
                if rows - p.row > 1 {
                    Some(RenderPos { row: p.row + 1, ..p })
                } else if (p.repeat as u16) + 1 < repeats_of(song, p.order_pos) as u16 {
                    Some(RenderPos { order_pos: p.order_pos, repeat: p.repeat + 1, row: 0 })
                } else {
                    render_start_at(song, p.order_pos + 1, 0)
                }
            },
        },
    }
}

/// `q` when it comes after `p` in rendering order (see `forward_only`).
fn ahead_of(p: RenderPos, q: Option<RenderPos>) -> (r: Option<RenderPos>)
    ensures
        match r {
            Some(x) => forward_only(pos_triple(p), match q { Some(y) => Some(pos_triple(y)), None => None }) == Some(pos_triple(x)),
            None => forward_only(pos_triple(p), match q { Some(y) => Some(pos_triple(y)), None => None }) is None,
        },
{
    match q {
        Some(y) => {
            if y.order_pos > p.order_pos
                || (y.order_pos == p.order_pos && (y.repeat > p.repeat || (y.repeat == p.repeat && y.row > p.row))) {
                Some(y)
            } else {
                None
            }
        },
        None => None,
    }
}

fn landing(song: &Song, t: usize, b: usize) -> (r: usize)
    requires
        t < song@.order.len(),
    ensures
        r as int == landing_row(song@, t as int, b as int),
{
    let pat = song.order[t];
    if pat < song.patterns.len() {
        let rows = song.patterns[pat].rows;
        let last = if rows >= 1 { rows - 1 } else { 0 };
        if b <= last { b } else { last }
    } else {
        b
    }
}

/// Every row the renderer visits is playable: an existing row of an existing pattern
/// in a due repetition.
pub proof fn law_render_from_playable(s: SongModel, o: int, start: int)
    requires
        start >= 0,
    ensures
        match render_from(s, o, start) {
            Some((o2, rep, row)) => playable(s, o2, rep, row),
            None => true,
        },
    decreases s.order.len() - o,
{
    if o < 0 || o >= s.order.len() {
    } else if repeats_at(s, o) == 0 {
        law_render_from_playable(s, o + 1, start);
    } else if s.order[o] >= s.patterns.len() {
    } else if start < rows_at(s, o) {
    } else if repeats_at(s, o) > 1 && rows_at(s, o) > 0 {
    } else {
        law_render_from_playable(s, o + 1, 0);
    }
}

/// Rendering only moves between playable rows: from a playable row the next row, if
/// any, is playable too.
pub proof fn law_render_next_playable(s: SongModel, o: int, rep: int, row: int, rc: RowControl)
    requires
        playable(s, o, rep, row),
    ensures
        match render_next(s, o, rep, row, rc) {
            Some((o2, rep2, row2)) => playable(s, o2, rep2, row2),
            None => true,
        },
{
    let last = s.order.len() - 1;
    match rc.jump {
        Some(j) => {
            let t = if j <= last { j as int } else { last };
            let b = match rc.break_row { Some(b) => b as int, None => 0 };
            law_render_from_playable(s, t, landing_row(s, t, b));
        },
        None => match rc.break_row {
            Some(b) => {
                let t = wrap_next(s, o);
                law_render_from_playable(s, t, landing_row(s, t, b as int));
            },
            None => {
                law_render_from_playable(s, o + 1, 0);
            },
        },
    }
}


proof fn lemma_render_from_ahead(s: SongModel, o: int, start: int)
    ensures
        match render_from(s, o, start) {
            Some(q) => q.0 >= o,
            None => true,
        },
    decreases s.order.len() - o,
{
    if o < 0 || o >= s.order.len() {
    } else if repeats_at(s, o) == 0 {
        lemma_render_from_ahead(s, o + 1, start);
    } else if s.order[o] >= s.patterns.len() {
    } else if start < rows_at(s, o) {
    } else if repeats_at(s, o) > 1 && rows_at(s, o) > 0 {
    } else {
        lemma_render_from_ahead(s, o + 1, 0);
    }
}

/// Rendering only moves forward: the row after a playable row, if any, comes after it
/// by order position, repetition and row. As positions are bounded (an order position,
/// a repetition below 256, a row), rendering ends.
pub proof fn law_render_next_advances(s: SongModel, o: int, rep: int, row: int, rc: RowControl)
    ensures
        match render_next(s, o, rep, row, rc) {
            Some(q) => pos_before((o, rep, row), q),
            None => true,
        },
{
    if rc.jump is None && rc.break_row is None && !(row + 1 < rows_at(s, o)) && !(rep + 1 < repeats_at(s, o)) {
        lemma_render_from_ahead(s, o + 1, 0);
    }
}

/// The commands of row `row` at order position `o`.
pub open spec fn controls_at(s: SongModel, o: int, row: int) -> RowControl {
    controls_of(s.patterns[s.order[o] as int].grid[row])
}

/// The rows an offline render plays, in order: from `render_from(s, 0, 0)`, each next
/// row as `render_next` gives it for the commands of the row before, up to the row
/// after which `render_next` gives none.
pub open spec fn render_trace(s: SongModel, trace: Seq<RenderPos>) -> bool {
    &&& trace.len() == 0 <==> render_from(s, 0, 0) is None
    &&& trace.len() > 0 ==> render_from(s, 0, 0) == Some(pos_triple(trace[0]))
    &&& forall|i: int| 0 <= i < trace.len() - 1 ==> render_next(s, trace[i].order_pos as int, trace[i].repeat as int,
        trace[i].row as int, controls_at(s, trace[i].order_pos as int, trace[i].row as int)) == Some(#[trigger] pos_triple(trace[i + 1]))
    &&& trace.len() > 0 ==> {
        let l = trace[trace.len() - 1];
        render_next(s, l.order_pos as int, l.repeat as int, l.row as int, controls_at(s, l.order_pos as int, l.row as int)) is None
    }
}

/// Every row an offline render of the song plays, in order (see `render_trace`); the
/// walk always ends.
pub fn render_positions(song: &Song) -> (trace: Vec<RenderPos>)
    requires
        forall|i: int| 0 <= i < song.patterns@.len() ==> #[trigger] song.patterns@[i].wf(),
    ensures
        render_trace(song@, trace@),
{
    let mut trace: Vec<RenderPos> = Vec::new();
    let mut p = match render_start(song) {
        Some(p) => p,
        None => return trace,
    };
    proof { law_render_from_playable(song@, 0, 0); }
    loop
        invariant_except_break
            trace@.len() > 0 ==> render_next(song@, trace@[trace@.len() - 1].order_pos as int,
                trace@[trace@.len() - 1].repeat as int, trace@[trace@.len() - 1].row as int,
                controls_at(song@, trace@[trace@.len() - 1].order_pos as int, trace@[trace@.len() - 1].row as int))
                == Some(pos_triple(p)),
        invariant
            forall|i: int| 0 <= i < song.patterns@.len() ==> #[trigger] song.patterns@[i].wf(),
            playable(song@, p.order_pos as int, p.repeat as int, p.row as int),
            render_from(song@, 0, 0) == Some(pos_triple(if trace@.len() == 0 { p } else { trace@[0] })),
            forall|i: int| 0 <= i < trace@.len() - 1 ==> render_next(song@, trace@[i].order_pos as int,
                trace@[i].repeat as int, trace@[i].row as int,
                controls_at(song@, trace@[i].order_pos as int, trace@[i].row as int)) == Some(#[trigger] pos_triple(trace@[i + 1])),
        ensures
            render_trace(song@, trace@),
        decreases song.order.len() - p.order_pos, 256 - p.repeat, usize::MAX - p.row,
    {
        let ghost prev = trace@;
        trace.push(p);
        proof {
            assert(trace@[trace@.len() - 1] == p);
            assert forall|i: int| 0 <= i < trace@.len() - 1 implies render_next(song@, trace@[i].order_pos as int,
                trace@[i].repeat as int, trace@[i].row as int,
                controls_at(song@, trace@[i].order_pos as int, trace@[i].row as int)) == Some(#[trigger] pos_triple(trace@[i + 1])) by {
                if i < prev.len() - 1 {
                    assert(trace@[i] == prev[i] && trace@[i + 1] == prev[i + 1]);
                } else {
                    assert(trace@[i] == prev[prev.len() - 1]);
                }
            }
        }
        let pi = song.order[p.order_pos];
        let pattern = &song.patterns[pi];
        let rc = row_controls(pattern, p.row);
        assert(song@.patterns[pi as int] == pattern@);
        assert(song.patterns@[pi as int].wf());
        assert(pattern@.grid[p.row as int] == pattern.data@[p.row as int]@);
        assert(rc == controls_at(song@, p.order_pos as int, p.row as int));
        match render_advance(song, p, &rc) {
            Some(q) => {
                proof {
                    law_render_next_playable(song@, p.order_pos as int, p.repeat as int, p.row as int, rc);
                    law_render_next_advances(song@, p.order_pos as int, p.repeat as int, p.row as int, rc);
                }
                p = q;
            },
            None => {
                break;
            },
        }
    }
    trace
}

/// What a row did on a heard channel: its note event, the message of its effect, and
/// the instrument column (for routing the note).
#[derive(Clone, Copy, Debug, PartialEq, Eq, Structural)]
pub struct RowEvent {
    pub channel: usize,
    pub note: RowNote,
    pub message: Option<RowMessage>,
    pub instrument: Option<u8>,
}

/// What a tick after the first did on a heard channel.
#[derive(Clone, Copy, Debug, PartialEq, Eq, Structural)]
pub struct TickOutcome {
    pub channel: usize,
    pub event: TickEvent,
}

/// The live player: playback position, sub-tick and per-channel state.
pub struct Player {
    pub playing: bool,
    /// Order position being played.
    pub order: usize,
    /// Row to play next.
    pub row: usize,
    /// Sub-tick within the row (0 plays the row).
    pub tick: u8,
    pub channels: Vec<ChannelState>,
}

/// Channel states extended with fresh ones up to `n` channels.
pub open spec fn extend_states(st: Seq<ChannelState>, n: int) -> Seq<ChannelState> {
    if st.len() >= n {
        st
    } else {
        st + Seq::new((n - st.len()) as nat, |i: int| initial_channel())
    }
}

/// The channel states after a row of `cells`: heard channels play their cell, silent
/// ones only take note of it, channels past the row keep their state.
pub open spec fn row_states(st: Seq<ChannelState>, cells: Seq<Cell>, audible: Seq<bool>) -> Seq<ChannelState> {
    Seq::new(
        st.len(),
        |i: int|
            if i < cells.len() {
                if audible[i] {
                    channel_row_spec(st[i], cells[i]).0
                } else {
                    muted_row_spec(st[i], cells[i])
                }
            } else {
                st[i]
            },
    )
}

/// The events of a row of `cells`, one per heard channel, in channel order.
pub open spec fn row_events(st: Seq<ChannelState>, cells: Seq<Cell>, audible: Seq<bool>) -> Seq<RowEvent>
    decreases cells.len(),
{
    if cells.len() == 0 {
        Seq::empty()
    } else {
        let k = cells.len() - 1;
        let prev = row_events(st, cells.drop_last(), audible);
        if audible[k] {
            prev.push(RowEvent {
                channel: k as usize,
                note: channel_row_spec(st[k], cells[k]).1,
                message: row_message_spec(cells[k]),
                instrument: cells[k].instrument,
            })
        } else {
            prev
        }
    }
}

/// The channel states after a tick: heard channels run their effects.
pub open spec fn tick_states(st: Seq<ChannelState>, audible: Seq<bool>, tick: u8) -> Seq<ChannelState> {
    Seq::new(st.len(), |i: int| if audible[i] { tick_spec(st[i], tick).0 } else { st[i] })
}

/// The outcomes of a tick on the first `n` channels, one per heard channel.
pub open spec fn tick_outcomes(st: Seq<ChannelState>, audible: Seq<bool>, tick: u8, n: int) -> Seq<TickOutcome>
    decreases n,
{
    if n <= 0 {
        Seq::empty()
    } else {
        let prev = tick_outcomes(st, audible, tick, n - 1);
        if audible[n - 1] {
            prev.push(TickOutcome { channel: (n - 1) as usize, event: tick_spec(st[n - 1], tick).1 })
        } else {
            prev
        }
    }
}

/// The cells of the row being played.
pub open spec fn current_cells(s: &Song, p: &Player) -> Seq<Cell> {
    s.patterns@[s.order@[p.order as int] as int].data@[p.row as int]@
}

/// The player can play its row: the order position names a well-formed pattern, the
/// row exists, every channel of the row has a heard/silent flag, and where the row's
/// commands lead there is a pattern with rows.
pub open spec fn row_ready(s: &Song, p: &Player, audible: Seq<bool>) -> bool {
    &&& names_pattern(s@, p.order as int)
    &&& s.patterns@[s.order@[p.order as int] as int].wf()
    &&& p.row < s.patterns@[s.order@[p.order as int] as int].rows
    &&& audible.len() >= s.patterns@[s.order@[p.order as int] as int].channels
    &&& match control_target(s@, p.order as int, controls_of(current_cells(s, p))) {
        Some(t) => names_pattern(s@, t) && rows_at(s@, t) > 0,
        None => true,
    }
}

/// Live playback keeps its invariant: in a song whose every order entry names a pattern
/// with rows, playing an existing row (what `advance_playback` states) leaves the player
/// on an existing row of an existing pattern, with a state for every channel of the row
/// just played; the patterns and the order list are unchanged (only the speed and the
/// tempo may change).
pub proof fn law_playback_invariant(
    s: SongModel, o: int, row: int, chs: Seq<ChannelState>, cells: Seq<Cell>, audible: Seq<bool>,
)
    requires
        names_pattern(s, o),
        0 <= row < rows_at(s, o),
        forall|i: int| 0 <= i < s.order.len() ==> #[trigger] names_pattern(s, i) && rows_at(s, i) > 0,
    ensures
        ({
            let rc = controls_of(cells);
            let next = next_position_spec(s, o, row, rc);
            let after = SongModel {
                speed: match rc.speed { Some(v) => v, None => s.speed },
                bpm: match rc.bpm { Some(v) => v, None => s.bpm },
                ..s
            };
            &&& names_pattern(after, next.0)
            &&& 0 <= next.1 < rows_at(after, next.0)
            &&& row_states(extend_states(chs, cells.len() as int), cells, audible).len() >= cells.len()
            &&& after.patterns == s.patterns
            &&& after.order == s.order
            &&& after.order_repeats == s.order_repeats
        }),
{
    law_next_position_valid(s, o, row, controls_of(cells));
}

impl Player {
    /// A stopped player at the start.
    pub fn new() -> (p: Self)
        ensures
            !p.playing && p.order == 0 && p.row == 0 && p.tick == 0 && p.channels@.len() == 0,
    {
        Player { playing: false, order: 0, row: 0, tick: 0, channels: Vec::new() }
    }

    /// Start playing from `row` of the first order position, with `channels` fresh
    /// channel states.
    pub fn play(&mut self, row: usize, channels: usize)
        ensures
            final(self).playing,
            final(self).order == 0,
            final(self).row == row,
            final(self).tick == 0,
            final(self).channels@ == Seq::new(channels as nat, |i: int| initial_channel()),
    {
        self.playing = true;
        self.row = row;
        self.order = 0;
        self.tick = 0;
        let mut v: Vec<ChannelState> = Vec::new();
        let mut i: usize = 0;
        while i < channels
            invariant
                i <= channels,
                v@ == Seq::new(i as nat, |k: int| initial_channel()),
            decreases channels - i,
        {
            v.push(ChannelState::default());
            proof { assert(v@ =~= Seq::new(i as nat + 1, |k: int| initial_channel())); }
            i = i + 1;
        }
        self.channels = v;
    }

    /// Stop playing (the player then silences the channels).
    pub fn stop(&mut self)
        ensures
            !final(self).playing,
            final(self).order == old(self).order,
            final(self).row == old(self).row,
            final(self).tick == old(self).tick,
            final(self).channels == old(self).channels,
    {
        self.playing = false;
    }

    /// Play the current row: apply its speed and tempo commands to the song, play
    /// each channel's cell (heard channels per `audible`), and move to the next
    /// position. Returns the heard channels' events.
    pub fn advance_playback(&mut self, song: &mut Song, audible: &Vec<bool>) -> (events: Vec<RowEvent>)
        requires
            row_ready(old(song), old(self), audible@),
        ensures
            ({
                let cells = current_cells(old(song), old(self));
                let rc = controls_of(cells);
                let st = extend_states(old(self).channels@, cells.len() as int);
                let next = next_position_spec(old(song)@, old(self).order as int, old(self).row as int, rc);
                &&& final(song)@ == (SongModel {
                    speed: match rc.speed { Some(v) => v, None => old(song).speed },
                    bpm: match rc.bpm { Some(v) => v, None => old(song).bpm },
                    ..old(song)@
                })
                &&& final(self).channels@ == row_states(st, cells, audible@)
                &&& events@ == row_events(st, cells, audible@)
                &&& final(self).order as int == next.0
                &&& final(self).row as int == next.1
                &&& final(self).playing == old(self).playing
                &&& final(self).tick == old(self).tick
            }),
    {
        let pat_idx = song.order[self.order];
        let ghost cells = current_cells(song, self);
        let rc = row_controls(&song.patterns[pat_idx], self.row);
        let (sp, bp) = apply_row_tempo(song.speed, song.bpm, &rc);
        song.speed = sp;
        song.bpm = bp;
        let n = song.patterns[pat_idx].channels;
        proof { assert(cells.len() == n); }
        let ghost ext = extend_states(self.channels@, n as int);
        while self.channels.len() < n
            invariant
                n == cells.len(),
                self.row == old(self).row,
                self.order == old(self).order,
                self.playing == old(self).playing,
                self.tick == old(self).tick,
                self.channels@.len() <= n ==> ext == self.channels@ + Seq::new(
                    (n - self.channels@.len()) as nat,
                    |i: int| initial_channel(),
                ),
                self.channels@.len() > n ==> ext == self.channels@,
            decreases n - self.channels@.len(),
        {
            let ghost before = self.channels@;
            self.channels.push(ChannelState::default());
            proof {
                assert(ext =~= self.channels@ + Seq::new((n - self.channels@.len()) as nat, |i: int| initial_channel()));
            }
        }
        proof {
            if self.channels@.len() == n {
                assert(ext =~= self.channels@);
            }
        }
        let mut events: Vec<RowEvent> = Vec::new();
        let mut ch: usize = 0;
        while ch < n
            invariant
                n == cells.len(),
                ch <= n,
                audible@.len() >= n,
                ext.len() >= n,
                song.patterns@[pat_idx as int].wf(),
                pat_idx < song.patterns@.len(),
                old(self).row < song.patterns@[pat_idx as int].rows,
                self.row == old(self).row,
                self.order == old(self).order,
                self.playing == old(self).playing,
                self.tick == old(self).tick,
                cells == song.patterns@[pat_idx as int].data@[self.row as int]@,
                self.channels@.len() == ext.len(),
                forall|i: int| 0 <= i < self.channels@.len() ==> #[trigger] self.channels@[i] == (if i < ch {
                    row_states(ext, cells, audible@)[i]
                } else {
                    ext[i]
                }),
                events@ == row_events(ext, cells.take(ch as int), audible@),
            decreases n - ch,
        {
            let cell = *song.patterns[pat_idx].get(self.row, ch);
            assert(cell == cells[ch as int]);
            let cur = self.channels[ch];
            proof {
                let t = cells.take(ch as int + 1);
                assert(t.drop_last() =~= cells.take(ch as int));
                assert(t[ch as int] == cells[ch as int]);
                assert(t.len() == ch + 1);
            }
            if audible[ch] {
                let (s2, note) = channel_row(cur, &cell);
                let msg = row_message(&cell);
                self.channels.set(ch, s2);
                events.push(RowEvent { channel: ch, note, message: msg, instrument: cell.instrument });
            } else {
                let s2 = muted_row(cur, &cell);
                self.channels.set(ch, s2);
            }
            ch = ch + 1;
        }
        proof {
            assert(cells.take(n as int) =~= cells);
            assert(self.channels@ =~= row_states(ext, cells, audible@));
        }
        let (o, r) = next_position(song, self.order, self.row, &rc);
        self.order = o;
        self.row = r;
        events
    }
}


/// What one tick of the player did.
#[derive(Debug)]
pub enum TickResult {
    /// Tick 0: the row was played.
    Row(Vec<RowEvent>),
    /// A later tick: the effects ran.
    Effects(Vec<TickOutcome>),
}

/// The sub-tick after `tick` at `speed` ticks per row.
pub open spec fn next_tick(tick: u8, speed: u8) -> u8 {
    if tick + 1 >= speed { 0 } else { (tick + 1) as u8 }
}

impl Player {
    /// Run the effects of the current (non-zero) sub-tick on every heard channel.
    pub fn process_effects_tick(&mut self, audible: &Vec<bool>) -> (out: Vec<TickOutcome>)
        requires
            audible@.len() >= old(self).channels@.len(),
        ensures
            final(self).channels@ == tick_states(old(self).channels@, audible@, old(self).tick),
            out@ == tick_outcomes(old(self).channels@, audible@, old(self).tick, old(self).channels@.len() as int),
            final(self).order == old(self).order,
            final(self).row == old(self).row,
            final(self).tick == old(self).tick,
            final(self).playing == old(self).playing,
    {
        let n = self.channels.len();
        let ghost st = self.channels@;
        let mut out: Vec<TickOutcome> = Vec::new();
        let mut ch: usize = 0;
        while ch < n
            invariant
                n == st.len(),
                ch <= n,
                audible@.len() >= n,
                self.channels@.len() == n,
                self.order == old(self).order,
                self.row == old(self).row,
                self.tick == old(self).tick,
                self.playing == old(self).playing,
                st == old(self).channels@,
                forall|i: int| 0 <= i < n ==> #[trigger] self.channels@[i] == (if i < ch {
                    tick_states(st, audible@, self.tick)[i]
                } else {
                    st[i]
                }),
                out@ == tick_outcomes(st, audible@, self.tick, ch as int),
            decreases n - ch,
        {
            if audible[ch] {
                let (s2, ev) = effect_tick(self.channels[ch], self.tick);
                self.channels.set(ch, s2);
                out.push(TickOutcome { channel: ch, event: ev });
            }
            ch = ch + 1;
        }
        proof { assert(self.channels@ =~= tick_states(st, audible@, self.tick)); }
        out
    }

    /// Process one sub-tick: tick 0 plays the row, later ticks run the effects; the
    /// sub-tick then advances, wrapping at the song's speed (as it is after the row).
    pub fn process_tick(&mut self, song: &mut Song, audible: &Vec<bool>) -> (r: TickResult)
        requires
            old(self).tick < 255,
            old(self).tick == 0 ==> row_ready(old(song), old(self), audible@),
            old(self).tick != 0 ==> audible@.len() >= old(self).channels@.len(),
        ensures
            final(self).tick == next_tick(old(self).tick, final(song).speed),
            old(self).tick == 0 ==> ({
                let cells = current_cells(old(song), old(self));
                let rc = controls_of(cells);
                let st = extend_states(old(self).channels@, cells.len() as int);
                let next = next_position_spec(old(song)@, old(self).order as int, old(self).row as int, rc);
                &&& r matches TickResult::Row(events) && events@ == row_events(st, cells, audible@)
                &&& final(song)@ == (SongModel {
                    speed: match rc.speed { Some(v) => v, None => old(song).speed },
                    bpm: match rc.bpm { Some(v) => v, None => old(song).bpm },
                    ..old(song)@
                })
                &&& final(self).channels@ == row_states(st, cells, audible@)
                &&& final(self).order as int == next.0
                &&& final(self).row as int == next.1
            }),
            old(self).tick != 0 ==> {
                &&& r matches TickResult::Effects(out) && out@ == tick_outcomes(
                    old(self).channels@,
                    audible@,
                    old(self).tick,
                    old(self).channels@.len() as int,
                )
                &&& final(song)@ == old(song)@
                &&& final(self).channels@ == tick_states(old(self).channels@, audible@, old(self).tick)
                &&& final(self).order == old(self).order
                &&& final(self).row == old(self).row
            },
            final(self).playing == old(self).playing,
    {
        let r = if self.tick == 0 {
            TickResult::Row(self.advance_playback(song, audible))
        } else {
            TickResult::Effects(self.process_effects_tick(audible))
        };
        let t = self.tick + 1;
        self.tick = if t >= song.speed { 0 } else { t };
        r
    }
}

} // verus!
