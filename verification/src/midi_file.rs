//! Standard MIDI file (.mid) export and import, as functions on bytes.
//!
//! All multi-byte integers are big-endian per the MIDI file specification.
use vstd::prelude::*;
use vstd::string::*;
use crate::pattern::{Cell, Note, NoteValue, Pattern, PatternModel, midi_note_of, note_value_of, empty_cell};
use crate::song::{Song, SongModel};

verus! {

/// Ticks per beat written into exported files.
pub const TICKS_PER_BEAT: u16 = 480;
/// Rows per pattern of an imported song.
pub const IMPORT_ROWS_PER_PATTERN: usize = 64;
/// Velocity used for a note without a volume.
pub const DEFAULT_VELOCITY: u8 = 0x7F;

// ---------------------------------------------------------------------------
// Variable-length quantities
// ---------------------------------------------------------------------------

/// The leading bytes of a variable-length quantity for `v` (each with bit 7 set),
/// most significant group first; empty for 0.
pub open spec fn vlq_lead(v: nat) -> Seq<u8>
    decreases v,
{
    if v == 0 {
        Seq::empty()
    } else {
        vlq_lead(v / 128).push((v % 128 + 128) as u8)
    }
}

/// The MIDI variable-length encoding of `v`: 7-bit groups, most significant first,
/// bit 7 set on every byte but the last.
pub open spec fn vlq(v: nat) -> Seq<u8> {
    vlq_lead(v / 128).push((v % 128) as u8)
}

/// Largest value (exclusive) that fits in four 7-bit groups.
pub open spec fn vlq_limit() -> int {
    0x1000_0000
}

/// Append `bytes` to `buf`.
fn append_bytes(buf: &mut Vec<u8>, bytes: &[u8])
    ensures
        final(buf)@ == old(buf)@ + bytes@,
{
    let mut i: usize = 0;
    while i < bytes.len()
        invariant
            i <= bytes@.len(),
            buf@ == old(buf)@ + bytes@.subrange(0, i as int),
        decreases bytes@.len() - i,
    {
        buf.push(bytes[i]);
        i = i + 1;
        proof { assert(buf@ =~= old(buf)@ + bytes@.subrange(0, i as int)); }
    }
    proof { assert(bytes@.subrange(0, bytes@.len() as int) =~= bytes@); }
}

/// The encodings of values below 2^28 written out byte by byte.
proof fn lemma_vlq_explicit(v: nat)
    requires
        v < vlq_limit(),
    ensures
        v < 0x80 ==> vlq(v) == seq![v as u8],
        0x80 <= v < 0x4000 ==> vlq(v) == seq![(v / 128 + 128) as u8, (v % 128) as u8],
        0x4000 <= v < 0x20_0000 ==> vlq(v) == seq![
            (v / 16384 + 128) as u8, ((v / 128) % 128 + 128) as u8, (v % 128) as u8],
        0x20_0000 <= v ==> vlq(v) == seq![
            (v / 2097152 + 128) as u8, ((v / 16384) % 128 + 128) as u8,
            ((v / 128) % 128 + 128) as u8, (v % 128) as u8],
{
    let a = v / 128;
    let b = a / 128;
    let c = b / 128;
    assert(b == v / 16384);
    assert(c == v / 2097152);
    if v < 0x80 {
        assert(a == 0);
        assert(vlq(v) =~= seq![v as u8]);
    } else if v < 0x4000 {
        assert(b == 0);
        assert(vlq_lead(b) =~= Seq::<u8>::empty());
        assert(vlq_lead(a) == vlq_lead(b).push((a % 128 + 128) as u8));
        assert(vlq_lead(a) =~= seq![(a % 128 + 128) as u8]);
        assert(vlq(v) =~= seq![(v / 128 + 128) as u8, (v % 128) as u8]);
    } else if v < 0x20_0000 {
        assert(c == 0);
        assert(vlq_lead(c) =~= Seq::<u8>::empty());
        assert(vlq_lead(b) == vlq_lead(c).push((b % 128 + 128) as u8));
        assert(vlq_lead(b) =~= seq![(b % 128 + 128) as u8]);
        assert(vlq_lead(a) =~= seq![(b % 128 + 128) as u8, (a % 128 + 128) as u8]);
    } else {
        assert(c / 128 == 0);
        assert(vlq_lead(c / 128) =~= Seq::<u8>::empty());
        assert(vlq_lead(c) == vlq_lead(c / 128).push((c % 128 + 128) as u8));
        assert(vlq_lead(c) =~= seq![(c % 128 + 128) as u8]);
        assert(vlq_lead(b) =~= seq![(c % 128 + 128) as u8, (b % 128 + 128) as u8]);
        assert(vlq_lead(a) =~= seq![(c % 128 + 128) as u8, (b % 128 + 128) as u8, (a % 128 + 128) as u8]);
    }
}

/// Encode `value` as a MIDI variable-length quantity and append it to `buf`.
/// Values need at most four 7-bit groups.
pub fn write_variable_length(buf: &mut Vec<u8>, value: u32)
    requires
        value < vlq_limit(),
    ensures
        final(buf)@ == old(buf)@ + vlq(value as nat),
{
    proof { lemma_vlq_explicit(value as nat); }
    let ghost b0 = buf@;
    if value < 0x80 {
        buf.push(value as u8);
    } else if value < 0x4000 {
        buf.push((value / 128 + 128) as u8);
        buf.push((value % 128) as u8);
    } else if value < 0x20_0000 {
        buf.push((value / 16384 + 128) as u8);
        buf.push(((value / 128) % 128 + 128) as u8);
        buf.push((value % 128) as u8);
    } else {
        buf.push((value / 2097152 + 128) as u8);
        buf.push(((value / 16384) % 128 + 128) as u8);
        buf.push(((value / 128) % 128 + 128) as u8);
        buf.push((value % 128) as u8);
    }
    proof { assert(buf@ =~= b0 + vlq(value as nat)); }
}

/// Errors found while reading a MIDI file.
#[derive(Debug, Clone, Copy, PartialEq, Eq, Structural)]
pub enum MidiFileError {
    /// Fewer than 14 bytes.
    TooSmall,
    /// The file does not start with `MThd`.
    MissingHeader,
    /// The header chunk is shorter than 6 bytes.
    HeaderTooShort,
    /// The division field uses SMPTE timing.
    SmpteDivision,
    /// A track chunk does not start with `MTrk`; the offset of the chunk is given.
    ExpectedTrack(usize),
    /// A track chunk extends beyond the end of the file.
    TrackBeyondFile,
    /// The data ends in the middle of a value.
    UnexpectedEnd,
    /// A variable-length quantity has more than four bytes.
    QuantityTooLong,
}

/// Reading a variable-length quantity from `pos`, having already read `count` bytes
/// into `acc`: the result and the position after the bytes consumed.
pub open spec fn vlq_scan(data: Seq<u8>, pos: int, count: nat, acc: nat) -> (Result<u32, MidiFileError>, int)
    decreases 4 - count,
{
    if count >= 4 {
        (Err(MidiFileError::QuantityTooLong), pos)
    } else if pos < 0 || pos >= data.len() {
        (Err(MidiFileError::UnexpectedEnd), pos)
    } else {
        let b = data[pos];
        let acc2 = acc * 128 + (b % 128) as nat;
        if b < 128 {
            (Ok(acc2 as u32), pos + 1)
        } else {
            vlq_scan(data, pos + 1, count + 1, acc2)
        }
    }
}

/// Reading a variable-length quantity that starts at `pos`.
pub open spec fn vlq_read(data: Seq<u8>, pos: int) -> (Result<u32, MidiFileError>, int) {
    vlq_scan(data, pos, 0, 0)
}

/// Read a MIDI variable-length quantity starting at `data[*pos]`,
/// advancing `*pos` past the bytes consumed.
pub fn read_variable_length(data: &[u8], pos: &mut usize) -> (r: Result<u32, MidiFileError>)
    ensures
        (r, *final(pos) as int) == vlq_read(data@, *old(pos) as int),
{
    let mut value: u32 = 0;
    let mut k: usize = 0;
    while k < 4
        invariant
            k <= 4,
            value < pow128(k as nat),
            vlq_read(data@, *old(pos) as int) == vlq_scan(data@, *pos as int, k as nat, value as nat),
            *pos as int == *old(pos) as int + k,
        decreases 4 - k,
    {
        if *pos >= data.len() {
            return Err(MidiFileError::UnexpectedEnd);
        }
        let byte = data[*pos];
        *pos = *pos + 1;
        proof {
            assert(pow128(k as nat + 1) == pow128(k as nat) * 128);
            assert((value as nat) * 128 + ((byte % 128) as nat) < pow128(k as nat + 1)) by (nonlinear_arith)
                requires value < pow128(k as nat), (byte % 128) < 128, pow128(k as nat + 1) == pow128(k as nat) * 128;
            assert(pow128(k as nat + 1) <= 0x1000_0000) by {
                reveal_with_fuel(pow128, 5);
                assert(pow128(4) == 0x1000_0000);
                lemma_pow128_mono(k as nat + 1, 4);
            }
        }
        value = value * 128 + (byte % 128) as u32;
        k = k + 1;
        if byte < 128 {
            return Ok(value);
        }
    }
    Err(MidiFileError::QuantityTooLong)
}

/// 128 to the power `k`.
pub open spec fn pow128(k: nat) -> nat
    decreases k,
{
    if k == 0 { 1 } else { 128 * pow128((k - 1) as nat) }
}

proof fn lemma_pow128_mono(a: nat, b: nat)
    requires
        a <= b,
    ensures
        pow128(a) <= pow128(b),
    decreases b - a,
{
    if a < b {
        lemma_pow128_mono(a, (b - 1) as nat);
        assert(pow128(b) == 128 * pow128((b - 1) as nat));
    }
}

/// Reading back an encoding gives the value and consumes exactly its bytes,
/// whatever follows it.
pub proof fn lemma_vlq_roundtrip(v: nat, rest: Seq<u8>)
    requires
        v < vlq_limit(),
    ensures
        vlq_read(vlq(v) + rest, 0) == (Ok::<u32, MidiFileError>(v as u32), vlq(v).len() as int),
{
    lemma_vlq_explicit(v);
    let d = vlq(v) + rest;
    assert(d[0] == vlq(v)[0]);
    if v < 0x80 {
        assert(vlq_scan(d, 0, 0, 0) == (Ok::<u32, MidiFileError>(v as u32), 1int));
    } else if v < 0x4000 {
        assert(d[1] == vlq(v)[1]);
        assert(vlq_scan(d, 1, 1, v / 128) == (Ok::<u32, MidiFileError>(v as u32), 2int));
    } else if v < 0x20_0000 {
        assert(d[1] == vlq(v)[1]);
        assert(d[2] == vlq(v)[2]);
        assert((v / 16384) * 128 + (v / 128) % 128 == v / 128);
        assert(vlq_scan(d, 2, 2, v / 128) == (Ok::<u32, MidiFileError>(v as u32), 3int));
        assert(vlq_scan(d, 1, 1, v / 16384) == (Ok::<u32, MidiFileError>(v as u32), 3int));
    } else {
        assert(d[1] == vlq(v)[1]);
        assert(d[2] == vlq(v)[2]);
        assert(d[3] == vlq(v)[3]);
        assert((v / 2097152) * 128 + (v / 16384) % 128 == v / 16384);
        assert((v / 16384) * 128 + (v / 128) % 128 == v / 128);
        assert(vlq_scan(d, 3, 3, v / 128) == (Ok::<u32, MidiFileError>(v as u32), 4int));
        assert(vlq_scan(d, 2, 2, v / 16384) == (Ok::<u32, MidiFileError>(v as u32), 4int));
        assert(vlq_scan(d, 1, 1, v / 2097152) == (Ok::<u32, MidiFileError>(v as u32), 4int));
    }
}


// ---------------------------------------------------------------------------
// Chunks and events
// ---------------------------------------------------------------------------

/// Big-endian bytes of a 16-bit value.
pub open spec fn be16(v: u16) -> Seq<u8> {
    seq![(v / 256) as u8, (v % 256) as u8]
}

/// Big-endian bytes of a 32-bit value.
pub open spec fn be32(v: u32) -> Seq<u8> {
    seq![(v / 0x100_0000) as u8, ((v / 0x1_0000) % 256) as u8, ((v / 256) % 256) as u8, (v % 256) as u8]
}

/// A chunk: its four-byte tag, the data length as a 32-bit big-endian value, then the data.
pub open spec fn chunk(tag: Seq<u8>, data: Seq<u8>) -> Seq<u8> {
    tag + be32(data.len() as u32) + data
}

/// The tag `MThd`.
pub open spec fn tag_mthd() -> Seq<u8> {
    seq![0x4Du8, 0x54u8, 0x68u8, 0x64u8]
}

/// The tag `MTrk`.
pub open spec fn tag_mtrk() -> Seq<u8> {
    seq![0x4Du8, 0x54u8, 0x72u8, 0x6Bu8]
}

fn push_be16(buf: &mut Vec<u8>, v: u16)
    ensures
        final(buf)@ == old(buf)@ + be16(v),
{
    buf.push((v / 256) as u8);
    buf.push((v % 256) as u8);
    proof { assert(buf@ =~= old(buf)@ + be16(v)); }
}

fn push_be32(buf: &mut Vec<u8>, v: u32)
    ensures
        final(buf)@ == old(buf)@ + be32(v),
{
    buf.push((v / 0x100_0000) as u8);
    buf.push(((v / 0x1_0000) % 256) as u8);
    buf.push(((v / 256) % 256) as u8);
    buf.push((v % 256) as u8);
    proof { assert(buf@ =~= old(buf)@ + be32(v)); }
}

/// Append a chunk with the given four-byte tag and data.
pub fn write_chunk(out: &mut Vec<u8>, chunk_type: &[u8; 4], data: &[u8])
    ensures
        final(out)@ == old(out)@ + chunk(chunk_type@, data@),
{
    append_bytes(out, chunk_type.as_slice());
    #[verifier::truncate]
    let len = data.len() as u32;
    push_be32(out, len);
    append_bytes(out, data);
    proof { assert(out@ =~= old(out)@ + chunk(chunk_type@, data@)); }
}

/// A track event: its delta time as a variable-length quantity, then the event bytes.
pub open spec fn track_event(delta: nat, event: Seq<u8>) -> Seq<u8> {
    vlq(delta) + event
}

/// Append a MIDI track event: delta-time followed by the event bytes.
pub fn write_track_event(track: &mut Vec<u8>, delta: u32, event_bytes: &[u8])
    requires
        delta < vlq_limit(),
    ensures
        final(track)@ == old(track)@ + track_event(delta as nat, event_bytes@),
{
    write_variable_length(track, delta);
    append_bytes(track, event_bytes);
    proof { assert(track@ =~= old(track)@ + track_event(delta as nat, event_bytes@)); }
}

// ---------------------------------------------------------------------------
// Timing helpers
// ---------------------------------------------------------------------------

/// Ticks per row on export: the speed times 480 / 24 = 20.
pub fn ticks_per_row(speed: u8) -> (t: u32)
    ensures
        t == speed as int * 20,
{
    let per_row: u32 = TICKS_PER_BEAT as u32 / 24;
    assert(per_row == 20);
    speed as u32 * per_row
}

/// Ticks per row for a file with `tpb` ticks per beat: the speed times `tpb / 24`,
/// or the speed itself when `tpb` is below 24.
pub fn ticks_per_row_with_tpb(speed: u8, tpb: u32) -> (t: u32)
    requires
        tpb < 24 || speed as int * (tpb as int / 24) <= u32::MAX,
    ensures
        tpb >= 24 ==> t == speed as int * (tpb as int / 24),
        tpb < 24 ==> t == speed,
{
    if tpb >= 24 {
        speed as u32 * (tpb / 24)
    } else {
        speed as u32
    }
}

/// Microseconds per beat at `bpm`; 0 falls back to 120 BPM.
pub fn bpm_to_microseconds(bpm: u16) -> (us: u32)
    ensures
        bpm == 0 ==> us == 500_000,
        bpm != 0 ==> us == 60_000_000int / (bpm as int),
{
    if bpm == 0 {
        500_000
    } else {
        60_000_000 / bpm as u32
    }
}


// ---------------------------------------------------------------------------
// Export
// ---------------------------------------------------------------------------

/// The value of an optional byte, or `d` when it is absent.
pub open spec fn or_u8(o: Option<u8>, d: u8) -> u8 {
    match o {
        Some(x) => x,
        None => d,
    }
}

fn unwrap_or_u8(o: Option<u8>, d: u8) -> (r: u8)
    ensures
        r == or_u8(o, d),
{
    match o {
        Some(x) => x,
        None => d,
    }
}

/// The state of one channel's track while its cells are walked: the sounding note,
/// the ticks since the last written event, and the bytes written so far.
pub struct TrackState {
    pub active: Option<u8>,
    pub acc: int,
    pub out: Seq<u8>,
}

/// Write an event after the accumulated delta; the delta restarts from zero.
pub open spec fn emit(st: TrackState, msg: Seq<u8>) -> TrackState {
    TrackState { active: st.active, acc: 0, out: st.out + track_event(st.acc as nat, msg) }
}

/// The message that a cell's effect column produces on MIDI channel `ch`:
/// `Exx` is a program change, `Cxx` a controller change (controller from the
/// instrument column); other effects produce nothing.
pub open spec fn effect_message(cell: Cell, ch: u8) -> Option<Seq<u8>> {
    match cell.effect {
        Some(e) => if e == 0x0E {
            Some(seq![0xC0u8 | ch, or_u8(cell.effect_value, 0) & 0x7F])
        } else if e == 0x0C {
            Some(seq![0xB0u8 | ch, or_u8(cell.instrument, 0) & 0x7F, or_u8(cell.effect_value, 0) & 0x7F])
        } else {
            None
        },
        None => None,
    }
}

/// Stop the sounding note, if any, with a note-off.
pub open spec fn release_note(st: TrackState, ch: u8) -> TrackState {
    match st.active {
        Some(prev) => {
            let e = emit(st, seq![0x80u8 | ch, prev, 0u8]);
            TrackState { active: None, acc: e.acc, out: e.out }
        },
        None => st,
    }
}

/// Velocity written for a note: the cell's volume (default 0x7F), at most 0x7F.
pub open spec fn velocity_of(cell: Cell) -> u8 {
    let v = or_u8(cell.volume, DEFAULT_VELOCITY);
    if v > 0x7F { 0x7F } else { v }
}

/// The effect of a cell's note column on the track.
pub open spec fn note_step(st: TrackState, cell: Cell, ch: u8) -> TrackState {
    match cell.note {
        Some(n) => match n {
            Note::On { .. } => match midi_note_of(n) {
                Some(m) => {
                    let st1 = release_note(st, ch);
                    let e = emit(st1, seq![0x90u8 | ch, m, velocity_of(cell)]);
                    TrackState { active: Some(m), acc: e.acc, out: e.out }
                },
                None => st,
            },
            Note::Off => release_note(st, ch),
        },
        None => st,
    }
}

/// One row of a channel: effect, then note, then the row's ticks elapse.
pub open spec fn cell_step(st: TrackState, cell: Cell, ch: u8, tpr: int) -> TrackState {
    let st1 = match effect_message(cell, ch) {
        Some(m) => emit(st, m),
        None => st,
    };
    let st2 = note_step(st1, cell, ch);
    TrackState { active: st2.active, acc: st2.acc + tpr, out: st2.out }
}

/// The track state after a channel's cells, row by row.
pub open spec fn track_fold(cells: Seq<Cell>, ch: u8, tpr: int) -> TrackState
    decreases cells.len(),
{
    if cells.len() == 0 {
        TrackState { active: None, acc: 0, out: Seq::empty() }
    } else {
        cell_step(track_fold(cells.drop_last(), ch, tpr), cells.last(), ch, tpr)
    }
}

/// The end-of-track meta event.
pub open spec fn end_of_track() -> Seq<u8> {
    seq![0xFFu8, 0x2Fu8, 0x00u8]
}

/// The data of a channel's track: its events, a note-off for a note still sounding,
/// then end of track.
pub open spec fn track_data(cells: Seq<Cell>, ch: u8, tpr: int) -> Seq<u8> {
    release_note(track_fold(cells, ch, tpr), ch).out + track_event(0, end_of_track())
}

/// The column of cells of channel `ch` in pattern `p`, one per row.
pub open spec fn pattern_column(p: Pattern, ch: int) -> Seq<Cell> {
    Seq::new(p.rows as nat, |r: int| p.cell(r, ch))
}

/// The pattern played at order position `k`, if its index is valid.
pub open spec fn order_pattern(song: &Song, k: int) -> Option<Pattern> {
    let idx = song.order@[k];
    if idx < song.patterns@.len() { Some(song.patterns@[idx as int]) } else { None }
}

/// The cells of channel `ch` over the first `k` order positions (invalid entries are skipped).
pub open spec fn order_column(song: &Song, ch: int, k: int) -> Seq<Cell>
    decreases k,
{
    if k <= 0 {
        Seq::empty()
    } else {
        order_column(song, ch, k - 1) + match order_pattern(song, k - 1) {
            Some(p) => pattern_column(p, ch),
            None => Seq::empty(),
        }
    }
}

/// The number of rows played over the first `k` order positions.
pub open spec fn order_rows(song: &Song, k: int) -> int
    decreases k,
{
    if k <= 0 {
        0
    } else {
        order_rows(song, k - 1) + match order_pattern(song, k - 1) {
            Some(p) => p.rows as int,
            None => 0,
        }
    }
}

/// Every row of a pattern has at least `channels` cells.
pub open spec fn column_readable(p: Pattern, channels: usize) -> bool {
    &&& p.rows <= p.data@.len()
    &&& forall|r: int| 0 <= r < p.rows ==> #[trigger] p.data@[r]@.len() >= channels
}

/// Whether a cell writes an event, given the note sounding: an effect that makes a
/// message, a note that starts, or a note-off while a note sounds.
pub open spec fn cell_writes(active: Option<u8>, cell: Cell, ch: u8) -> bool {
    ||| effect_message(cell, ch) is Some
    ||| match cell.note {
        Some(n) => match n {
            Note::On { .. } => midi_note_of(n) is Some,
            Note::Off => active is Some,
        },
        None => false,
    }
}

/// Every delta time the cells write fits a four-byte variable-length quantity: each
/// cell that writes comes less than 2^28 ticks after the previous event of the track.
pub open spec fn fold_fits(cells: Seq<Cell>, ch: u8, tpr: int) -> bool
    decreases cells.len(),
{
    if cells.len() == 0 {
        true
    } else {
        let t = track_fold(cells.drop_last(), ch, tpr);
        fold_fits(cells.drop_last(), ch, tpr) && (cell_writes(t.active, cells.last(), ch) ==> t.acc < vlq_limit())
    }
}

/// Every delta time of a channel's track fits, the final note-off's included (the
/// end-of-track event has delta 0).
pub open spec fn column_fits(cells: Seq<Cell>, ch: u8, tpr: int) -> bool {
    &&& fold_fits(cells, ch, tpr)
    &&& track_fold(cells, ch, tpr).active is Some ==> track_fold(cells, ch, tpr).acc < vlq_limit()
}

/// A track count that fits 16 bits, and every played pattern holding the song's
/// channels.
pub open spec fn export_shape(song: &Song) -> bool {
    &&& song.channels % 0x1_0000 != 0xFFFF
    &&& forall|k: int| 0 <= k < song.order@.len() && #[trigger] song.order@[k] < song.patterns@.len()
        ==> column_readable(song.patterns@[song.order@[k] as int], song.channels)
}

/// Every channel's track has all its delta times below 2^28.
pub open spec fn deltas_fit(song: &Song) -> bool {
    forall|c: int| 0 <= c < song.channels
        ==> #[trigger] column_fits(channel_column(song, c), (c % 16) as u8, song.speed as int * 20)
}

/// What export needs of a song: a track count that fits 16 bits, every played
/// pattern holding the song's channels, and every delta time written fitting a
/// four-byte variable-length quantity.
pub open spec fn export_ready(song: &Song) -> bool {
    &&& export_shape(song)
    &&& deltas_fit(song)
}

/// A tick count held below the delta limit: exact below 2^28, 2^28 from there on.
pub open spec fn capped(a: int) -> int {
    if a < vlq_limit() { a } else { vlq_limit() }
}

/// A cell steps the same from a state whose tick count is capped, as long as the cell
/// writes only when the count is below the limit.
proof fn lemma_cell_step_capped(t: TrackState, tc: TrackState, cell: Cell, ch: u8, tpr: int)
    requires
        tc.active == t.active,
        tc.out == t.out,
        tc.acc == capped(t.acc),
        t.acc >= 0,
        tpr >= 0,
        cell_writes(t.active, cell, ch) ==> t.acc < vlq_limit(),
    ensures
        cell_step(tc, cell, ch, tpr).out == cell_step(t, cell, ch, tpr).out,
        cell_step(tc, cell, ch, tpr).active == cell_step(t, cell, ch, tpr).active,
        capped(cell_step(tc, cell, ch, tpr).acc) == capped(cell_step(t, cell, ch, tpr).acc),
{
    if t.acc < vlq_limit() {
        assert(tc == t);
    }
}

/// The delta times of a sequence of cells fit when those of a longer sequence
/// starting with them do.
proof fn lemma_fold_fits_take(cells: Seq<Cell>, ch: u8, tpr: int, m: int)
    requires
        0 <= m <= cells.len(),
        fold_fits(cells, ch, tpr),
    ensures
        fold_fits(cells.take(m), ch, tpr),
    decreases cells.len(),
{
    if m == cells.len() {
        assert(cells.take(m) =~= cells);
    } else {
        assert(cells.drop_last().take(m) =~= cells.take(m));
        lemma_fold_fits_take(cells.drop_last(), ch, tpr, m);
    }
}

/// The delta times of cells that start the first `k + 1` order positions' column fit
/// when those of the whole column do.
proof fn lemma_prefix_fits(song: &Song, ch: int, k: int, cells: Seq<Cell>, midi_ch: u8, tpr: int)
    requires
        0 <= k < song.order@.len(),
        cells.len() <= order_column(song, ch, k + 1).len(),
        order_column(song, ch, k + 1).take(cells.len() as int) == cells,
        fold_fits(order_column(song, ch, song.order@.len() as int), midi_ch, tpr),
    ensures
        fold_fits(cells, midi_ch, tpr),
{
    let n = song.order@.len() as int;
    let whole = order_column(song, ch, n);
    let m = cells.len() as int;
    lemma_order_column_take(song, ch, k + 1, n);
    lemma_order_rows(song, ch, n);
    lemma_order_rows(song, ch, k + 1);
    lemma_order_rows_mono(song, k + 1, n);
    let l1 = order_column(song, ch, k + 1).len() as int;
    assert(whole.take(m) =~= cells) by {
        assert forall|i: int| 0 <= i < m implies whole.take(m)[i] == cells[i] by {
            assert(whole.take(l1)[i] == whole[i]);
            assert(order_column(song, ch, k + 1).take(m)[i] == order_column(song, ch, k + 1)[i]);
        }
    }
    lemma_fold_fits_take(whole, midi_ch, tpr, m);
}

/// A cell refused for a delta of 2^28 or more means the channel's column does not fit.
proof fn lemma_refused_cell(song: &Song, ch: int, k: int, p: Pattern, row: int, tc: TrackState, cell: Cell, midi_ch: u8, tpr: int)
    requires
        0 <= k < song.order@.len(),
        0 <= row < p.rows,
        tpr >= 0,
        order_column(song, ch, k + 1) == order_column(song, ch, k) + pattern_column(p, ch),
        cell == pattern_column(p, ch)[row],
        tc.active == track_fold(order_column(song, ch, k) + pattern_column(p, ch).subrange(0, row), midi_ch, tpr).active,
        tc.acc == capped(track_fold(order_column(song, ch, k) + pattern_column(p, ch).subrange(0, row), midi_ch, tpr).acc),
        cell_writes(tc.active, cell, midi_ch),
        tc.acc >= vlq_limit(),
    ensures
        !column_fits(channel_column(song, ch), midi_ch, tpr),
{
    let base = order_column(song, ch, k);
    let prev = base + pattern_column(p, ch).subrange(0, row);
    let next = base + pattern_column(p, ch).subrange(0, row + 1);
    assert(next.drop_last() =~= prev);
    assert(next.last() == cell);
    assert(!fold_fits(next, midi_ch, tpr));
    assert(order_column(song, ch, k + 1).take(next.len() as int) =~= next);
    if fold_fits(channel_column(song, ch), midi_ch, tpr) {
        lemma_prefix_fits(song, ch, k, next, midi_ch, tpr);
    }
}

/// The cells of the first `k` order positions start those of the first `n`.
proof fn lemma_order_column_take(song: &Song, ch: int, k: int, n: int)
    requires
        0 <= k <= n,
    ensures
        order_column(song, ch, n).take(order_column(song, ch, k).len() as int) == order_column(song, ch, k),
    decreases n - k,
{
    lemma_order_rows(song, ch, k);
    lemma_order_rows(song, ch, n);
    if k == n {
        assert(order_column(song, ch, n).take(order_column(song, ch, n).len() as int) =~= order_column(song, ch, n));
    } else {
        lemma_order_column_take(song, ch, k, n - 1);
        lemma_order_rows(song, ch, n - 1);
        lemma_order_rows_mono(song, k, n - 1);
        let a = order_column(song, ch, n - 1);
        let m = order_column(song, ch, k).len() as int;
        assert(order_column(song, ch, n).take(m) =~= a.take(m));
    }
}


/// The header chunk's data: format 1, the track count (channels + tempo track), 480 ticks per beat.
pub open spec fn header_data(song: &Song) -> Seq<u8> {
    be16(1) + be16(((song.channels as u16) + 1) as u16) + be16(TICKS_PER_BEAT)
}

/// Microseconds per beat written for `bpm`.
pub open spec fn tempo_us(bpm: u16) -> int {
    if bpm == 0 { 500_000 } else { 60_000_000int / (bpm as int) }
}

/// The tempo track's data: a set-tempo meta event, then end of track.
pub open spec fn tempo_data(bpm: u16) -> Seq<u8> {
    let us = tempo_us(bpm);
    track_event(0, seq![0xFFu8, 0x51u8, 0x03u8, ((us / 0x1_0000) % 256) as u8, ((us / 256) % 256) as u8, (us % 256) as u8])
        + track_event(0, end_of_track())
}

/// The cells of channel `ch` over the whole order list.
pub open spec fn channel_column(song: &Song, ch: int) -> Seq<Cell> {
    order_column(song, ch, song.order@.len() as int)
}

/// The track chunks of the first `n` channels.
pub open spec fn channel_chunks(song: &Song, n: int) -> Seq<u8>
    decreases n,
{
    if n <= 0 {
        Seq::empty()
    } else {
        channel_chunks(song, n - 1) + chunk(
            tag_mtrk(),
            track_data(channel_column(song, n - 1), ((n - 1) % 16) as u8, song.speed as int * 20),
        )
    }
}

/// The bytes of an exported song: header, tempo track, one track per channel.
pub open spec fn midi_file_bytes(song: &Song) -> Seq<u8> {
    chunk(tag_mthd(), header_data(song)) + chunk(tag_mtrk(), tempo_data(song.bpm))
        + channel_chunks(song, song.channels as int)
}

proof fn lemma_cell_step_acc(st: TrackState, cell: Cell, ch: u8, tpr: int)
    requires
        st.acc >= 0,
    ensures
        tpr <= cell_step(st, cell, ch, tpr).acc <= st.acc + tpr,
{
}

pub proof fn lemma_track_acc(cells: Seq<Cell>, ch: u8, tpr: int)
    requires
        tpr >= 0,
    ensures
        0 <= track_fold(cells, ch, tpr).acc <= cells.len() * tpr,
    decreases cells.len(),
{
    if cells.len() > 0 {
        lemma_track_acc(cells.drop_last(), ch, tpr);
        lemma_cell_step_acc(track_fold(cells.drop_last(), ch, tpr), cells.last(), ch, tpr);
        assert((cells.len() - 1) * tpr + tpr == cells.len() * tpr) by (nonlinear_arith);
    }
}

pub proof fn lemma_order_rows(song: &Song, ch: int, k: int)
    requires
        0 <= k,
    ensures
        order_column(song, ch, k).len() == order_rows(song, k),
        order_rows(song, k) >= 0,
    decreases k,
{
    if k > 0 {
        lemma_order_rows(song, ch, k - 1);
    }
}

proof fn lemma_order_rows_mono(song: &Song, a: int, b: int)
    requires
        0 <= a <= b,
    ensures
        order_rows(song, a) <= order_rows(song, b),
    decreases b - a,
{
    if a < b {
        lemma_order_rows_mono(song, a, b - 1);
    }
}

/// Process one cell of a channel's track: write its effect and note events.
/// `acc` is the tick count since the last event, capped at 2^28; the cell is refused
/// (`false`, nothing written) when it would write a delta of 2^28 or more.
fn track_cell(trk: &mut Vec<u8>, active: &mut Option<u8>, acc: &mut u32, cell: &Cell, ch: u8, tpr: u32) -> (ok: bool)
    requires
        *old(acc) as int <= vlq_limit(),
        tpr <= 255 * 20,
    ensures
        ok == !(cell_writes(*old(active), *cell, ch) && *old(acc) as int >= vlq_limit()),
        ok ==> ({
            let t = cell_step(TrackState { active: *old(active), acc: *old(acc) as int, out: old(trk)@ }, *cell, ch, tpr as int);
            &&& *final(active) == t.active
            &&& final(trk)@ == t.out
            &&& *final(acc) as int == capped(t.acc)
        }),
{
    let writes = match cell.effect {
        Some(e) => e == 0x0E || e == 0x0C,
        None => false,
    } || match &cell.note {
        Some(n) => match n {
            Note::On { .. } => n.to_midi_note().is_some(),
            Note::Off => active.is_some(),
        },
        None => false,
    };
    if writes && *acc >= 0x1000_0000 {
        return false;
    }
    let ghost st0 = TrackState { active: *active, acc: *acc as int, out: trk@ };
    if let Some(eff) = cell.effect {
        if eff == 0x0E {
            let prog = unwrap_or_u8(cell.effect_value, 0);
            let msg: [u8; 2] = [0xC0u8 | ch, prog & 0x7F];
            proof { assert(msg@ =~= seq![0xC0u8 | ch, prog & 0x7F]); }
            write_track_event(trk, *acc, msg.as_slice());
            *acc = 0;
        } else if eff == 0x0C {
            let controller = unwrap_or_u8(cell.instrument, 0) & 0x7F;
            let value = unwrap_or_u8(cell.effect_value, 0) & 0x7F;
            let msg: [u8; 3] = [0xB0u8 | ch, controller, value];
            proof { assert(msg@ =~= seq![0xB0u8 | ch, controller, value]); }
            write_track_event(trk, *acc, msg.as_slice());
            *acc = 0;
        }
    }
    let ghost st1 = TrackState { active: *active, acc: *acc as int, out: trk@ };
    assert(st1 == match effect_message(*cell, ch) { Some(m) => emit(st0, m), None => st0 });
    if let Some(note) = &cell.note {
        match note {
            Note::On { .. } => {
                if let Some(midi_note) = note.to_midi_note() {
                    if let Some(prev) = *active {
                        let msg: [u8; 3] = [0x80u8 | ch, prev, 0];
                        proof { assert(msg@ =~= seq![0x80u8 | ch, prev, 0u8]); }
                        write_track_event(trk, *acc, msg.as_slice());
                        *acc = 0;
                        *active = None;
                    }
                    let v = unwrap_or_u8(cell.volume, DEFAULT_VELOCITY);
                    let velocity = if v > 0x7F { 0x7F } else { v };
                    let msg: [u8; 3] = [0x90u8 | ch, midi_note, velocity];
                    proof { assert(msg@ =~= seq![0x90u8 | ch, midi_note, velocity]); }
                    write_track_event(trk, *acc, msg.as_slice());
                    *acc = 0;
                    *active = Some(midi_note);
                }
            },
            Note::Off => {
                if let Some(prev) = *active {
                    let msg: [u8; 3] = [0x80u8 | ch, prev, 0];
                    proof { assert(msg@ =~= seq![0x80u8 | ch, prev, 0u8]); }
                    write_track_event(trk, *acc, msg.as_slice());
                    *acc = 0;
                    *active = None;
                }
            },
        }
    }
    let ghost st2 = TrackState { active: *active, acc: *acc as int, out: trk@ };
    assert(st2 == note_step(st1, *cell, ch));
    *acc = if *acc + tpr >= 0x1000_0000 { 0x1000_0000 } else { *acc + tpr };
    true
}

/// The track data of channel `ch`, when all its delta times fit (see `column_fits`).
#[verifier::spinoff_prover]
#[verifier::rlimit(80)]
fn channel_track(song: &Song, ch: usize) -> (r: Option<Vec<u8>>)
    requires
        export_shape(song),
        ch < song.channels,
    ensures
        r is Some <==> column_fits(channel_column(song, ch as int), (ch % 16) as u8, song.speed as int * 20),
        r matches Some(trk) ==> trk@ == track_data(channel_column(song, ch as int), (ch % 16) as u8, song.speed as int * 20),
{
    let midi_ch = (ch % 16) as u8;
    let tpr = ticks_per_row(song.speed);
    let ghost n = song.order@.len() as int;
    let ghost whole = channel_column(song, ch as int);
    let mut trk: Vec<u8> = Vec::new();
    let mut active: Option<u8> = None;
    let mut acc: u32 = 0;
    let mut k: usize = 0;
    while k < song.order.len()
        invariant
            export_shape(song),
            ch < song.channels,
            midi_ch == (ch % 16) as u8,
            tpr == song.speed as int * 20,
            n == song.order@.len(),
            whole == order_column(song, ch as int, n),
            k <= song.order@.len(),
            ({
                let f = track_fold(order_column(song, ch as int, k as int), midi_ch, tpr as int);
                &&& trk@ == f.out
                &&& active == f.active
                &&& acc as int == capped(f.acc)
            }),
            fold_fits(order_column(song, ch as int, k as int), midi_ch, tpr as int),
        decreases song.order@.len() - k,
    {
        let order_idx = song.order[k];
        if order_idx < song.patterns.len() {
            let pattern = &song.patterns[order_idx];
            assert(column_readable(*pattern, song.channels));
            let ghost base = order_column(song, ch as int, k as int);
            proof {
                assert(order_pattern(song, k as int) == Some(*pattern));
                assert(order_column(song, ch as int, k as int + 1) == base + pattern_column(*pattern, ch as int));
            }
            let mut row: usize = 0;
            while row < pattern.rows
                invariant
                    column_readable(*pattern, song.channels),
                    export_shape(song),
                    midi_ch == (ch % 16) as u8,
                    ch < song.channels,
                    row <= pattern.rows,
                    k < n,
                    n == song.order@.len(),
                    whole == order_column(song, ch as int, n),
                    tpr == song.speed as int * 20,
                    base == order_column(song, ch as int, k as int),
                    order_column(song, ch as int, k as int + 1) == base + pattern_column(*pattern, ch as int),
                    ({
                        let f = track_fold(base + pattern_column(*pattern, ch as int).subrange(0, row as int), midi_ch, tpr as int);
                        &&& trk@ == f.out
                        &&& active == f.active
                        &&& acc as int == capped(f.acc)
                    }),
                    fold_fits(base + pattern_column(*pattern, ch as int).subrange(0, row as int), midi_ch, tpr as int),
                decreases pattern.rows - row,
            {
                let cell = pattern.get(row, ch);
                let ghost prev_cells = base + pattern_column(*pattern, ch as int).subrange(0, row as int);
                let ghost next_cells = base + pattern_column(*pattern, ch as int).subrange(0, row as int + 1);
                let ghost before = track_fold(prev_cells, midi_ch, tpr as int);
                let ghost tc = TrackState { active: active, acc: acc as int, out: trk@ };
                proof {
                    assert(next_cells.drop_last() =~= prev_cells);
                    assert(next_cells.last() == *cell);
                    lemma_track_acc(prev_cells, midi_ch, tpr as int);
                }
                let ok = track_cell(&mut trk, &mut active, &mut acc, cell, midi_ch, tpr);
                if !ok {
                    proof {
                        lemma_refused_cell(song, ch as int, k as int, *pattern, row as int, tc, *cell, midi_ch, tpr as int);
                    }
                    return None;
                }
                proof {
                    lemma_cell_step_capped(before, tc, *cell, midi_ch, tpr as int);
                }
                row = row + 1;
            }
            proof {
                assert(pattern_column(*pattern, ch as int).subrange(0, pattern.rows as int) =~= pattern_column(*pattern, ch as int));
            }
        } else {
            proof {
                assert(order_column(song, ch as int, k as int + 1) =~= order_column(song, ch as int, k as int));
            }
        }
        k = k + 1;
    }
    proof {
        lemma_track_acc(whole, midi_ch, tpr as int);
    }
    if let Some(prev) = active {
        if acc >= 0x1000_0000 {
            return None;
        }
        let msg: [u8; 3] = [0x80u8 | midi_ch, prev, 0];
        proof { assert(msg@ =~= seq![0x80u8 | midi_ch, prev, 0u8]); }
        write_track_event(&mut trk, acc, msg.as_slice());
    }
    let eot: [u8; 3] = [0xFF, 0x2F, 0x00];
    proof { assert(eot@ =~= end_of_track()); }
    write_track_event(&mut trk, 0, eot.as_slice());
    Some(trk)
}


/// Export a song to the bytes of a standard MIDI file (format 1).
///
/// Layout: the header chunk; track 0 holding only the tempo; then one track per
/// tracker channel with its note, program-change and controller events.
pub fn export_midi_bytes(song: &Song) -> (bytes: Vec<u8>)
    requires
        export_ready(song),
    ensures
        bytes@ == midi_file_bytes(song),
{
    let c = song.channels;
    proof {
        assert(c as u16 == (c % 0x1_0000) as u16 && c % 0x1_0000 < 0x1_0000) by (bit_vector);
    }
    let channels16 = (#[verifier::truncate] (c as u16));
    let num_tracks: u16 = channels16 + 1;
    let mut file_buf: Vec<u8> = Vec::new();

    let mut hdr_data: Vec<u8> = Vec::new();
    push_be16(&mut hdr_data, 1);
    push_be16(&mut hdr_data, num_tracks);
    push_be16(&mut hdr_data, TICKS_PER_BEAT);
    let mthd: [u8; 4] = [0x4D, 0x54, 0x68, 0x64];
    let mtrk: [u8; 4] = [0x4D, 0x54, 0x72, 0x6B];
    proof {
        assert(mthd@ =~= tag_mthd());
        assert(mtrk@ =~= tag_mtrk());
        assert(hdr_data@ =~= header_data(song));
    }
    write_chunk(&mut file_buf, &mthd, hdr_data.as_slice());

    let mut trk: Vec<u8> = Vec::new();
    let us = bpm_to_microseconds(song.bpm);
    let tempo: [u8; 6] = [0xFF, 0x51, 0x03, ((us / 0x1_0000) % 256) as u8, ((us / 256) % 256) as u8, (us % 256) as u8];
    write_track_event(&mut trk, 0, tempo.as_slice());
    let eot: [u8; 3] = [0xFF, 0x2F, 0x00];
    write_track_event(&mut trk, 0, eot.as_slice());
    proof {
        assert(tempo@ =~= seq![0xFFu8, 0x51u8, 0x03u8, ((us / 0x1_0000) % 256) as u8, ((us / 256) % 256) as u8, (us % 256) as u8]);
        assert(eot@ =~= end_of_track());
        assert(trk@ =~= tempo_data(song.bpm));
    }
    write_chunk(&mut file_buf, &mtrk, trk.as_slice());
    proof {
        assert(file_buf@ =~= chunk(tag_mthd(), header_data(song)) + chunk(tag_mtrk(), tempo_data(song.bpm)) + channel_chunks(song, 0));
    }

    let mut ch: usize = 0;
    while ch < song.channels
        invariant
            export_ready(song),
            ch <= song.channels,
            mtrk@ == tag_mtrk(),
            file_buf@ == chunk(tag_mthd(), header_data(song)) + chunk(tag_mtrk(), tempo_data(song.bpm))
                + channel_chunks(song, ch as int),
        decreases song.channels - ch,
    {
        proof { assert(column_fits(channel_column(song, ch as int), (ch as int % 16) as u8, song.speed as int * 20)); }
        let data = match channel_track(song, ch) {
            Some(d) => d,
            None => {
                proof { assert(false); }
                Vec::new()
            },
        };
        write_chunk(&mut file_buf, &mtrk, data.as_slice());
        ch = ch + 1;
        proof {
            assert(file_buf@ =~= chunk(tag_mthd(), header_data(song)) + chunk(tag_mtrk(), tempo_data(song.bpm))
                + channel_chunks(song, ch as int));
        }
    }
    file_buf
}


// ---------------------------------------------------------------------------
// Import: reading tracks
// ---------------------------------------------------------------------------

/// An event collected while reading a track, with its absolute tick.
#[derive(Debug, Clone, Copy, PartialEq, Eq, Structural)]
pub enum ImportEvent {
    NoteOn { tick: u32, note: u8, velocity: u8 },
    NoteOff { tick: u32, note: u8 },
    CC { tick: u32, controller: u8, value: u8 },
    ProgramChange { tick: u32, program: u8 },
}

/// The absolute tick of an event.
pub open spec fn event_tick(e: ImportEvent) -> u32 {
    match e {
        ImportEvent::NoteOn { tick, .. } => tick,
        ImportEvent::NoteOff { tick, .. } => tick,
        ImportEvent::CC { tick, .. } => tick,
        ImportEvent::ProgramChange { tick, .. } => tick,
    }
}

/// Controller number standing for pitch bend among imported controller events
/// (not a valid MIDI controller).
pub const PITCH_BEND_CONTROLLER: u8 = 128;

/// The state of the reader inside a track: position, absolute tick, running status,
/// tempo found so far and the events collected per MIDI channel.
pub struct ScanState {
    pub pos: int,
    pub tick: u32,
    pub running: u8,
    pub bpm: u16,
    pub events: Seq<Seq<ImportEvent>>,
}

/// One byte at `p`.
pub open spec fn read1(data: Seq<u8>, p: int) -> Result<u8, MidiFileError> {
    if 0 <= p < data.len() { Ok(data[p]) } else { Err(MidiFileError::UnexpectedEnd) }
}

/// Two bytes at `p`.
pub open spec fn read2(data: Seq<u8>, p: int) -> Result<(u8, u8), MidiFileError> {
    if 0 <= p && p + 2 <= data.len() { Ok((data[p], data[p + 1])) } else { Err(MidiFileError::UnexpectedEnd) }
}

/// Moving `n` bytes forward from `p`; every position at or past the end of the
/// track behaves alike, so the position stops there.
pub open spec fn skip(p: int, n: int, end: int) -> int {
    if p + n >= end { end } else { p + n }
}

/// Append an event to the list of MIDI channel `ch`.
pub open spec fn push_event(events: Seq<Seq<ImportEvent>>, ch: int, e: ImportEvent) -> Seq<Seq<ImportEvent>> {
    events.update(ch, events[ch].push(e))
}

/// Tempo after a set-tempo meta event of `us` microseconds per beat.
pub open spec fn bpm_from_us(us: int, bpm: u16) -> u16 {
    if us > 0 {
        let b = (60_000_000int / us) as u16;
        if b == 0 { 1 } else { b }
    } else {
        bpm
    }
}

/// The tempo an export writes reads back as the same tempo, for every tempo whose
/// square is at most 60,000,000 (up to 7745 BPM).
pub proof fn law_tempo_roundtrip(bpm: u16, prev: u16)
    requires
        0 < bpm,
        bpm * bpm <= 60_000_000,
    ensures
        bpm_from_us(tempo_us(bpm), prev) == bpm,
{
    let n: int = 60_000_000;
    let b: int = bpm as int;
    let q: int = n / b;
    assert(q * b <= n && n < q * b + b) by (nonlinear_arith) requires q == n / b, b > 0;
    assert(b <= q) by (nonlinear_arith) requires b * b <= n, q == n / b, b > 0;
    assert(q > 0);
    assert(n / q == b) by (nonlinear_arith) requires q * b <= n, n < q * b + b, b <= q, q > 0;
}

/// Reading one message at `st.pos` (the delta time already read): whether the track
/// loop stops there, and the state after the message.
pub open spec fn message_step(data: Seq<u8>, trk_end: int, st: ScanState) -> Result<(bool, ScanState), MidiFileError> {
    let b = data[st.pos];
    let status: u8 = if b >= 0x80 { b } else { st.running };
    let p = if b >= 0x80 { st.pos + 1 } else { st.pos };
    let base = ScanState { pos: p, tick: st.tick, running: status, bpm: st.bpm, events: st.events };
    let high = status / 16;
    let ch = (status % 16) as int;
    let tick = st.tick;
    if high == 8 {
        match read2(data, p) {
            Err(e) => Err(e),
            Ok((n, _v)) => Ok((false, ScanState {
                pos: p + 2,
                events: push_event(base.events, ch, ImportEvent::NoteOff { tick, note: n % 128 }),
                ..base
            })),
        }
    } else if high == 9 {
        match read2(data, p) {
            Err(e) => Err(e),
            Ok((n, v)) => Ok((false, ScanState {
                pos: p + 2,
                events: if v == 0 {
                    push_event(base.events, ch, ImportEvent::NoteOff { tick, note: n % 128 })
                } else {
                    push_event(base.events, ch, ImportEvent::NoteOn { tick, note: n % 128, velocity: v })
                },
                ..base
            })),
        }
    } else if high == 0xA {
        Ok((false, ScanState { pos: skip(p, 2, trk_end), ..base }))
    } else if high == 0xB {
        match read2(data, p) {
            Err(e) => Err(e),
            Ok((c, v)) => Ok((false, ScanState {
                pos: p + 2,
                events: push_event(base.events, ch, ImportEvent::CC { tick, controller: c % 128, value: v % 128 }),
                ..base
            })),
        }
    } else if high == 0xC {
        match read1(data, p) {
            Err(e) => Err(e),
            Ok(pr) => Ok((false, ScanState {
                pos: p + 1,
                events: push_event(base.events, ch, ImportEvent::ProgramChange { tick, program: pr % 128 }),
                ..base
            })),
        }
    } else if high == 0xD {
        Ok((false, ScanState { pos: skip(p, 1, trk_end), ..base }))
    } else if high == 0xE {
        match read2(data, p) {
            Err(e) => Err(e),
            Ok((lsb, msb)) => {
                let bend = (msb % 128) as int * 128 + (lsb % 128) as int;
                Ok((false, ScanState {
                    pos: p + 2,
                    events: if bend != 0x2000 {
                        push_event(base.events, ch, ImportEvent::CC { tick, controller: PITCH_BEND_CONTROLLER, value: msb % 128 })
                    } else {
                        base.events
                    },
                    ..base
                }))
            },
        }
    } else if status == 0xFF {
        match read1(data, p) {
            Err(e) => Err(e),
            Ok(meta_type) => {
                let (lr, p3) = vlq_read(data, p + 1);
                match lr {
                    Err(e) => Err(e),
                    Ok(len) => {
                        let bpm = if meta_type == 0x51 && len == 3 && p3 + 3 <= data.len() {
                            bpm_from_us(data[p3] as int * 0x1_0000 + data[p3 + 1] as int * 256 + data[p3 + 2] as int, st.bpm)
                        } else {
                            st.bpm
                        };
                        Ok((false, ScanState { pos: skip(p3, len as int, trk_end), bpm, ..base }))
                    },
                }
            },
        }
    } else if status == 0xF0 || status == 0xF7 {
        let (lr, p3) = vlq_read(data, p);
        match lr {
            Err(e) => Err(e),
            Ok(len) => Ok((false, ScanState { pos: skip(p3, len as int, trk_end), ..base })),
        }
    } else {
        Ok((true, base))
    }
}

pub proof fn lemma_vlq_scan_advances(data: Seq<u8>, pos: int, count: nat, acc: nat)
    ensures
        vlq_scan(data, pos, count, acc).0 is Ok ==> pos >= 0 && vlq_scan(data, pos, count, acc).1 > pos,
    decreases 4 - count,
{
    if count < 4 && 0 <= pos < data.len() && data[pos] >= 128 {
        lemma_vlq_scan_advances(data, pos + 1, count + 1, acc * 128 + (data[pos] % 128) as nat);
    }
}

pub proof fn lemma_message_step_pos(data: Seq<u8>, trk_end: int, st: ScanState)
    ensures
        0 <= st.pos < trk_end ==> (message_step(data, trk_end, st) matches Ok((stop, st2)) ==> (stop || st2.pos > st.pos)),
{
    let b = data[st.pos];
    let p = if b >= 0x80 { st.pos + 1 } else { st.pos };
    lemma_vlq_scan_advances(data, p + 1, 0, 0);
    lemma_vlq_scan_advances(data, p, 0, 0);
    lemma_vlq_scan_advances(data, p, 0, 0);
}

/// The absolute tick after adding a delta, wrapping around 2^32.
pub open spec fn tick_after(tick: u32, delta: u32) -> u32 {
    ((tick as int + delta as int) % 0x1_0000_0000) as u32
}

/// Reading one event of a track: its delta time, then its message. Returns whether
/// the track loop stops after it, and the state after it.
pub open spec fn scan_step(data: Seq<u8>, trk_end: int, st: ScanState) -> Result<(bool, ScanState), MidiFileError> {
    let (dr, p1) = vlq_read(data, st.pos);
    match dr {
        Err(e) => Err(e),
        Ok(delta) => {
            let st1 = ScanState { pos: p1, tick: tick_after(st.tick, delta), ..st };
            if p1 >= trk_end {
                Ok((true, st1))
            } else {
                message_step(data, trk_end, st1)
            }
        },
    }
}

/// A step that does not stop the loop moves forward in the data.
pub proof fn lemma_scan_step_advances(data: Seq<u8>, trk_end: int, st: ScanState)
    requires
        st.pos < trk_end,
    ensures
        scan_step(data, trk_end, st) matches Ok((stop, st2)) ==> (stop || st2.pos > st.pos),
{
    let (dr, p1) = vlq_read(data, st.pos);
    lemma_vlq_scan_advances(data, st.pos, 0, 0);
    let st1 = ScanState { pos: p1, tick: tick_after(st.tick, dr->Ok_0), ..st };
    lemma_message_step_pos(data, trk_end, st1);
}

/// Reading the events of a track up to `trk_end`.
pub open spec fn scan_track(data: Seq<u8>, trk_end: int, st: ScanState) -> Result<ScanState, MidiFileError>
    decreases trk_end - st.pos,
{
    if st.pos >= trk_end {
        Ok(st)
    } else {
        match scan_step(data, trk_end, st) {
            Err(e) => Err(e),
            Ok((stop, st2)) => if stop || st2.pos >= trk_end {
                Ok(st2)
            } else {
                proof { lemma_scan_step_advances(data, trk_end, st); }
                scan_track(data, trk_end, st2)
            },
        }
    }
}

/// The 32-bit big-endian value at `p`.
pub open spec fn be32_at(data: Seq<u8>, p: int) -> int {
    data[p] as int * 0x100_0000 + data[p + 1] as int * 0x1_0000 + data[p + 2] as int * 256 + data[p + 3] as int
}

/// The 16-bit big-endian value at `p`.
pub open spec fn be16_at(data: Seq<u8>, p: int) -> int {
    data[p] as int * 256 + data[p + 1] as int
}

/// Reading up to `t` track chunks starting at `pos`; reading stops early when fewer
/// than 8 bytes remain.
pub open spec fn scan_tracks(data: Seq<u8>, t: nat, pos: int, bpm: u16, events: Seq<Seq<ImportEvent>>)
    -> Result<(u16, Seq<Seq<ImportEvent>>), MidiFileError>
    decreases t,
{
    if t == 0 || pos + 8 > data.len() {
        Ok((bpm, events))
    } else if data.subrange(pos, pos + 4) != tag_mtrk() {
        Err(MidiFileError::ExpectedTrack(pos as usize))
    } else {
        let trk_end = pos + 8 + be32_at(data, pos + 4);
        if trk_end > data.len() {
            Err(MidiFileError::TrackBeyondFile)
        } else {
            match scan_track(data, trk_end, ScanState { pos: pos + 8, tick: 0, running: 0, bpm, events }) {
                Err(e) => Err(e),
                Ok(st) => scan_tracks(data, (t - 1) as nat, trk_end, st.bpm, st.events),
            }
        }
    }
}

/// Sixteen empty event lists, one per MIDI channel.
pub open spec fn no_events() -> Seq<Seq<ImportEvent>> {
    Seq::new(16, |i: int| Seq::<ImportEvent>::empty())
}

/// The events of every channel plus the tempo, when the header and tracks can be read.
pub open spec fn read_midi_events(data: Seq<u8>) -> Result<(u16, u16, Seq<Seq<ImportEvent>>), MidiFileError> {
    if data.len() < 14 {
        Err(MidiFileError::TooSmall)
    } else if data.subrange(0, 4) != tag_mthd() {
        Err(MidiFileError::MissingHeader)
    } else {
        let hdr_len = be32_at(data, 4);
        if hdr_len < 6 {
            Err(MidiFileError::HeaderTooShort)
        } else {
            let num_tracks = be16_at(data, 10);
            let division = be16_at(data, 12);
            if division >= 0x8000 {
                Err(MidiFileError::SmpteDivision)
            } else {
                match scan_tracks(data, num_tracks as nat, 8 + hdr_len, 120, no_events()) {
                    Err(e) => Err(e),
                    Ok((bpm, events)) => Ok((bpm, division as u16, events)),
                }
            }
        }
    }
}


/// The per-channel event lists as sequences.
pub open spec fn events_view(events: &Vec<Vec<ImportEvent>>) -> Seq<Seq<ImportEvent>> {
    Seq::new(events@.len(), |i: int| events@[i]@)
}

/// Read a 32-bit big-endian value at `*pos`, advancing past it.
pub fn read_u32_be(data: &[u8], pos: &mut usize) -> (r: Result<u32, MidiFileError>)
    ensures
        *old(pos) + 4 <= data@.len() ==> r == Ok::<u32, MidiFileError>(be32_at(data@, *old(pos) as int) as u32)
            && *final(pos) == *old(pos) + 4,
        *old(pos) + 4 > data@.len() ==> r == Err::<u32, MidiFileError>(MidiFileError::UnexpectedEnd)
            && *final(pos) == *old(pos),
{
    if *pos > data.len() || data.len() - *pos < 4 {
        return Err(MidiFileError::UnexpectedEnd);
    }
    let p = *pos;
    let val: u32 = data[p] as u32 * 0x100_0000 + data[p + 1] as u32 * 0x1_0000 + data[p + 2] as u32 * 256 + data[p + 3] as u32;
    *pos = p + 4;
    Ok(val)
}

/// Read a 16-bit big-endian value at `*pos`, advancing past it.
pub fn read_u16_be(data: &[u8], pos: &mut usize) -> (r: Result<u16, MidiFileError>)
    ensures
        *old(pos) + 2 <= data@.len() ==> r == Ok::<u16, MidiFileError>(be16_at(data@, *old(pos) as int) as u16)
            && *final(pos) == *old(pos) + 2,
        *old(pos) + 2 > data@.len() ==> r == Err::<u16, MidiFileError>(MidiFileError::UnexpectedEnd)
            && *final(pos) == *old(pos),
{
    if *pos > data.len() || data.len() - *pos < 2 {
        return Err(MidiFileError::UnexpectedEnd);
    }
    let p = *pos;
    let val: u16 = data[p] as u16 * 256 + data[p + 1] as u16;
    *pos = p + 2;
    Ok(val)
}

/// Read one byte at `*pos`, advancing past it.
pub fn read_byte(data: &[u8], pos: &mut usize) -> (r: Result<u8, MidiFileError>)
    ensures
        r == read1(data@, *old(pos) as int),
        r is Ok ==> *final(pos) == *old(pos) + 1,
        r is Err ==> *final(pos) == *old(pos),
{
    if *pos >= data.len() {
        return Err(MidiFileError::UnexpectedEnd);
    }
    let b = data[*pos];
    *pos = *pos + 1;
    Ok(b)
}

/// Move `n` bytes forward, stopping at the end of the track.
fn skip_to(pos: usize, n: usize, end: usize) -> (r: usize)
    requires
        pos <= end,
    ensures
        r == skip(pos as int, n as int, end as int),
{
    if n >= end - pos { end } else { pos + n }
}

/// Append an event to the list of MIDI channel `ch`.
fn push_channel_event(events: &mut Vec<Vec<ImportEvent>>, ch: usize, e: ImportEvent)
    requires
        ch < old(events)@.len(),
    ensures
        final(events)@.len() == old(events)@.len(),
        events_view(final(events)) == push_event(events_view(old(events)), ch as int, e),
{
    events[ch].push(e);
    proof {
        assert(events_view(events) =~= push_event(events_view(old(events)), ch as int, e));
    }
}

/// The state of the reader as a `ScanState`.
pub open spec fn scan_state(pos: int, tick: u32, running: u8, bpm: u16, events: &Vec<Vec<ImportEvent>>) -> ScanState {
    ScanState { pos, tick, running, bpm, events: events_view(events) }
}

/// Read one message at `*pos` (its delta time already read).
/// Returns whether the track loop stops here.
fn read_message(
    data: &[u8],
    trk_end: usize,
    pos: &mut usize,
    tick: u32,
    running: &mut u8,
    bpm: &mut u16,
    events: &mut Vec<Vec<ImportEvent>>,
) -> (r: Result<bool, MidiFileError>)
    requires
        *old(pos) < trk_end <= data@.len(),
        old(events)@.len() == 16,
    ensures
        final(events)@.len() == 16,
        match message_step(data@, trk_end as int, scan_state(*old(pos) as int, tick, *old(running), *old(bpm), old(events))) {
            Ok((stop, st2)) => r == Ok::<bool, MidiFileError>(stop)
                && scan_state(*final(pos) as int, tick, *final(running), *final(bpm), final(events)) == st2
                && *final(pos) <= data@.len(),
            Err(e) => r == Err::<bool, MidiFileError>(e),
        },
{
    let ghost st = scan_state(*pos as int, tick, *running, *bpm, events);
    let b = data[*pos];
    let status: u8 = if b >= 0x80 { b } else { *running };
    if b >= 0x80 {
        *pos = *pos + 1;
    }
    *running = status;
    let high = status / 16;
    let ch = (status % 16) as usize;
    if high == 8 {
        let note = read_byte(data, pos)?;
        let _vel = read_byte(data, pos)?;
        push_channel_event(events, ch, ImportEvent::NoteOff { tick, note: note % 128 });
        Ok(false)
    } else if high == 9 {
        let note = read_byte(data, pos)?;
        let vel = read_byte(data, pos)?;
        if vel == 0 {
            push_channel_event(events, ch, ImportEvent::NoteOff { tick, note: note % 128 });
        } else {
            push_channel_event(events, ch, ImportEvent::NoteOn { tick, note: note % 128, velocity: vel });
        }
        Ok(false)
    } else if high == 0xA {
        *pos = skip_to(*pos, 2, trk_end);
        Ok(false)
    } else if high == 0xB {
        let controller = read_byte(data, pos)?;
        let value = read_byte(data, pos)?;
        push_channel_event(events, ch, ImportEvent::CC { tick, controller: controller % 128, value: value % 128 });
        Ok(false)
    } else if high == 0xC {
        let program = read_byte(data, pos)?;
        push_channel_event(events, ch, ImportEvent::ProgramChange { tick, program: program % 128 });
        Ok(false)
    } else if high == 0xD {
        *pos = skip_to(*pos, 1, trk_end);
        Ok(false)
    } else if high == 0xE {
        let lsb = read_byte(data, pos)?;
        let msb = read_byte(data, pos)?;
        let bend: u16 = (msb % 128) as u16 * 128 + (lsb % 128) as u16;
        if bend != 0x2000 {
            push_channel_event(events, ch, ImportEvent::CC { tick, controller: PITCH_BEND_CONTROLLER, value: msb % 128 });
        }
        Ok(false)
    } else if status == 0xFF {
        let meta_type = read_byte(data, pos)?;
        let meta_len = read_variable_length(data, pos)?;
        proof { lemma_vlq_scan_advances(data@, *old(pos) as int, 0, 0); }
        let p3 = *pos;
        if meta_type == 0x51 && meta_len == 3 && p3 <= data.len() && data.len() - p3 >= 3 {
            let us: u32 = data[p3] as u32 * 0x1_0000 + data[p3 + 1] as u32 * 256 + data[p3 + 2] as u32;
            if us > 0 {
                #[verifier::truncate]
                let b = (60_000_000u32 / us) as u16;
                *bpm = if b == 0 { 1 } else { b };
            }
        }
        if p3 >= trk_end {
            *pos = trk_end;
        } else {
            *pos = skip_to(p3, meta_len as usize, trk_end);
        }
        Ok(false)
    } else if status == 0xF0 || status == 0xF7 {
        let sysex_len = read_variable_length(data, pos)?;
        let p3 = *pos;
        if p3 >= trk_end {
            *pos = trk_end;
        } else {
            *pos = skip_to(p3, sysex_len as usize, trk_end);
        }
        Ok(false)
    } else {
        Ok(true)
    }
}


/// `tick + delta`, wrapping around 2^32.
fn add_ticks(tick: u32, delta: u32) -> (r: u32)
    ensures
        r == tick_after(tick, delta),
{
    if delta > u32::MAX - tick {
        delta - (u32::MAX - tick) - 1
    } else {
        tick + delta
    }
}

/// Read the events of one track, from `start` up to `trk_end`, into `events`.
/// Returns the tempo after the track.
fn read_track(data: &[u8], start: usize, trk_end: usize, bpm: u16, events: &mut Vec<Vec<ImportEvent>>)
    -> (r: Result<u16, MidiFileError>)
    requires
        start <= trk_end <= data@.len(),
        old(events)@.len() == 16,
    ensures
        final(events)@.len() == 16,
        match scan_track(data@, trk_end as int, scan_state(start as int, 0, 0, bpm, old(events))) {
            Ok(st) => r == Ok::<u16, MidiFileError>(st.bpm) && events_view(final(events)) == st.events,
            Err(e) => r == Err::<u16, MidiFileError>(e),
        },
{
    let ghost target = scan_track(data@, trk_end as int, scan_state(start as int, 0, 0, bpm, events));
    let mut pos = start;
    let mut tick: u32 = 0;
    let mut running: u8 = 0;
    let mut cur_bpm = bpm;
    while pos < trk_end
        invariant
            pos <= data@.len(),
            trk_end <= data@.len(),
            events@.len() == 16,
            target == scan_track(data@, trk_end as int, scan_state(start as int, 0, 0, bpm, old(events))),
            target == scan_track(data@, trk_end as int, scan_state(pos as int, tick, running, cur_bpm, events)),
        decreases data@.len() - pos,
    {
        let ghost st = scan_state(pos as int, tick, running, cur_bpm, events);
        let delta = match read_variable_length(data, &mut pos) {
            Ok(d) => d,
            Err(e) => {
                proof {
                    assert(scan_step(data@, trk_end as int, st) == Err::<(bool, ScanState), MidiFileError>(e));
                    assert(scan_track(data@, trk_end as int, st) == Err::<ScanState, MidiFileError>(e));
                }
                return Err(e);
            },
        };
        proof { lemma_vlq_scan_advances(data@, st.pos, 0, 0); }
        tick = add_ticks(tick, delta);
        if pos >= trk_end {
            return Ok(cur_bpm);
        }
        let stop = match read_message(data, trk_end, &mut pos, tick, &mut running, &mut cur_bpm, events) {
            Ok(b) => b,
            Err(e) => { return Err(e); },
        };
        if stop {
            return Ok(cur_bpm);
        }
        proof { lemma_scan_step_advances(data@, trk_end as int, st); }
    }
    Ok(cur_bpm)
}

/// Read the header and up to `num_tracks` tracks. Returns the tempo, the division and
/// the events of each MIDI channel.
pub fn read_midi_tracks(data: &[u8]) -> (r: Result<(u16, u16, Vec<Vec<ImportEvent>>), MidiFileError>)
    ensures
        match read_midi_events(data@) {
            Ok((bpm, division, evs)) => r matches Ok((b, d, events))
                && b == bpm && d == division && events_view(&events) == evs && events@.len() == 16,
            Err(e) => r == Err::<(u16, u16, Vec<Vec<ImportEvent>>), MidiFileError>(e),
        },
{
    if data.len() < 14 {
        return Err(MidiFileError::TooSmall);
    }
    if !(data[0] == 0x4D && data[1] == 0x54 && data[2] == 0x68 && data[3] == 0x64) {
        proof {
            if data@.subrange(0, 4) == tag_mthd() {
                assert(data@.subrange(0, 4)[0] == data@[0]);
                assert(data@.subrange(0, 4)[1] == data@[1]);
                assert(data@.subrange(0, 4)[2] == data@[2]);
                assert(data@.subrange(0, 4)[3] == data@[3]);
            }
        }
        return Err(MidiFileError::MissingHeader);
    }
    proof { assert(data@.subrange(0, 4) =~= tag_mthd()); }
    let mut pos: usize = 4;
    let hdr_len = read_u32_be(data, &mut pos)?;
    if hdr_len < 6 {
        return Err(MidiFileError::HeaderTooShort);
    }
    let _format = read_u16_be(data, &mut pos)?;
    let num_tracks = read_u16_be(data, &mut pos)?;
    let division = read_u16_be(data, &mut pos)?;
    if division >= 0x8000 {
        return Err(MidiFileError::SmpteDivision);
    }
    let mut events: Vec<Vec<ImportEvent>> = Vec::new();
    let mut i: usize = 0;
    while i < 16
        invariant
            i <= 16,
            events@.len() == i,
            forall|j: int| 0 <= j < i ==> #[trigger] events@[j]@ == Seq::<ImportEvent>::empty(),
        decreases 16 - i,
    {
        events.push(Vec::new());
        i = i + 1;
    }
    proof { assert(events_view(&events) =~= no_events()); }
    let mut bpm: u16 = 120;
    let hdr_extra = (hdr_len - 6) as usize;
    if hdr_extra > data.len() - 14 {
        return Ok((bpm, division, events));
    }
    pos = 14 + hdr_extra;
    let ghost target = scan_tracks(data@, num_tracks as nat, 8 + hdr_len as int, 120, no_events());
    proof {
        assert(read_midi_events(data@) == match target {
            Err(e) => Err(e),
            Ok((b, evs)) => Ok::<(u16, u16, Seq<Seq<ImportEvent>>), MidiFileError>((b, division, evs)),
        });
    }
    let mut t: u16 = 0;
    while t < num_tracks
        invariant
            t <= num_tracks,
            pos <= data@.len(),
            events@.len() == 16,
            target == scan_tracks(data@, (num_tracks - t) as nat, pos as int, bpm, events_view(&events)),
            read_midi_events(data@) == match target {
                Err(e) => Err(e),
                Ok((b, evs)) => Ok::<(u16, u16, Seq<Seq<ImportEvent>>), MidiFileError>((b, division, evs)),
            },
        decreases num_tracks - t,
    {
        if data.len() - pos < 8 {
            return Ok((bpm, division, events));
        }
        if !(data[pos] == 0x4D && data[pos + 1] == 0x54 && data[pos + 2] == 0x72 && data[pos + 3] == 0x6B) {
            proof {
                if data@.subrange(pos as int, pos + 4) == tag_mtrk() {
                    assert(data@.subrange(pos as int, pos + 4)[0] == data@[pos as int]);
                    assert(data@.subrange(pos as int, pos + 4)[1] == data@[pos + 1]);
                    assert(data@.subrange(pos as int, pos + 4)[2] == data@[pos + 2]);
                    assert(data@.subrange(pos as int, pos + 4)[3] == data@[pos + 3]);
                }
            }
            return Err(MidiFileError::ExpectedTrack(pos));
        }
        proof { assert(data@.subrange(pos as int, pos + 4) =~= tag_mtrk()); }
        let chunk_start = pos;
        pos = pos + 4;
        let trk_len = read_u32_be(data, &mut pos)?;
        if trk_len as usize > data.len() - pos {
            return Err(MidiFileError::TrackBeyondFile);
        }
        let trk_end = pos + trk_len as usize;
        bpm = read_track(data, pos, trk_end, bpm, &mut events)?;
        pos = trk_end;
        t = t + 1;
    }
    Ok((bpm, division, events))
}


// ---------------------------------------------------------------------------
// Import: building the song
// ---------------------------------------------------------------------------

/// The MIDI channels (among the first `k`) that received at least one event, in order.
pub open spec fn active_channels(events: Seq<Seq<ImportEvent>>, k: int) -> Seq<int>
    decreases k,
{
    if k <= 0 {
        Seq::empty()
    } else {
        active_channels(events, k - 1) + if events[k - 1].len() > 0 { seq![k - 1] } else { Seq::empty() }
    }
}

/// The largest tick of a list of events (0 for none).
pub open spec fn max_tick_of(evs: Seq<ImportEvent>) -> int
    decreases evs.len(),
{
    if evs.len() == 0 {
        0
    } else {
        let m = max_tick_of(evs.drop_last());
        let t = event_tick(evs.last()) as int;
        if t > m { t } else { m }
    }
}

/// The largest tick over the first `k` channels.
pub open spec fn max_tick_upto(events: Seq<Seq<ImportEvent>>, k: int) -> int
    decreases k,
{
    if k <= 0 {
        0
    } else {
        let m = max_tick_upto(events, k - 1);
        let t = max_tick_of(events[k - 1]);
        if t > m { t } else { m }
    }
}

/// Speed of an imported song (ticks per row).
pub const IMPORT_SPEED: u8 = 6;

/// File ticks per tracker row on import, for the file's division.
pub open spec fn import_tpr(division: u16) -> int {
    if division >= 24 { 6 * (division as int / 24) } else { 6 }
}

/// The grid row that an event lands on.
pub open spec fn event_row(e: ImportEvent, tpr: int) -> int {
    event_tick(e) as int / tpr
}

/// The effect of one imported event on the cell it lands in.
pub open spec fn apply_event(c: Cell, e: ImportEvent) -> Cell {
    match e {
        ImportEvent::NoteOn { note, velocity, .. } => match note_value_of((note % 12) as int) {
            Some(nv) => Cell {
                note: Some(Note::On { value: nv, octave: note / 12 }),
                volume: if velocity != 0x7F { Some(velocity) } else { c.volume },
                ..c
            },
            None => c,
        },
        ImportEvent::NoteOff { .. } => if c.note is None {
            Cell { note: Some(Note::Off), ..c }
        } else {
            c
        },
        ImportEvent::CC { controller, value, .. } => if c.effect is None {
            Cell { effect: Some(0x0Cu8), effect_value: Some(value), instrument: Some(controller), ..c }
        } else {
            c
        },
        ImportEvent::ProgramChange { program, .. } => if c.effect is None {
            Cell { effect: Some(0x0Eu8), effect_value: Some(program), ..c }
        } else {
            c
        },
    }
}

/// The cell at grid row `g` after placing, in order, the events that land on it.
pub open spec fn cell_events(evs: Seq<ImportEvent>, g: int, tpr: int) -> Cell
    decreases evs.len(),
{
    if evs.len() == 0 {
        empty_cell()
    } else {
        let c = cell_events(evs.drop_last(), g, tpr);
        if event_row(evs.last(), tpr) == g { apply_event(c, evs.last()) } else { c }
    }
}

/// Number of 64-row patterns of an imported song: enough rows to hold the last tick.
pub open spec fn import_pattern_count(events: Seq<Seq<ImportEvent>>, division: u16) -> int {
    let total_rows = max_tick_upto(events, 16) / import_tpr(division) + 1;
    let n = (total_rows + 63) / 64;
    if n < 1 { 1 } else { n }
}

/// Number of tracker channels of an imported song: one per active MIDI channel, at least one.
pub open spec fn import_channel_count(events: Seq<Seq<ImportEvent>>) -> int {
    let a = active_channels(events, 16).len();
    if a == 0 { 1 } else { a as int }
}

/// The cell at `(row r of pattern p, tracker channel c)` of an imported song.
pub open spec fn imported_cell(events: Seq<Seq<ImportEvent>>, division: u16, p: int, r: int, c: int) -> Cell {
    let active = active_channels(events, 16);
    if c < active.len() {
        cell_events(events[active[c]], p * 64 + r, import_tpr(division))
    } else {
        empty_cell()
    }
}

/// The model of pattern `p` of an imported song.
pub open spec fn imported_pattern(events: Seq<Seq<ImportEvent>>, division: u16, p: int) -> PatternModel {
    let nch = import_channel_count(events);
    PatternModel {
        rows: IMPORT_ROWS_PER_PATTERN,
        channels: nch as usize,
        grid: Seq::new(64, |r: int| Seq::new(nch as nat, |c: int| imported_cell(events, division, p, r, c))),
    }
}

/// The song made from the events of a MIDI file: one tracker channel per active MIDI
/// channel, 64-row patterns played in order once each, speed 6, events placed on the
/// row of their tick.
pub open spec fn imported_song(events: Seq<Seq<ImportEvent>>, bpm: u16, division: u16, title: Seq<char>) -> SongModel {
    let n = import_pattern_count(events, division);
    SongModel {
        title,
        bpm,
        speed: IMPORT_SPEED,
        patterns: Seq::new(n as nat, |p: int| imported_pattern(events, division, p)),
        order: Seq::new(n as nat, |i: int| i as usize),
        order_repeats: Seq::new(n as nat, |i: int| 1u8),
        channels: import_channel_count(events) as usize,
        rows_per_pattern: IMPORT_ROWS_PER_PATTERN,
        highlight_beat: 4,
        highlight_bar: 16,
        swing: 50,
    }
}

/// The result of importing the bytes of a MIDI file under the given title.
pub open spec fn import_result(data: Seq<u8>, title: Seq<char>) -> Result<SongModel, MidiFileError> {
    match read_midi_events(data) {
        Err(e) => Err(e),
        Ok((bpm, division, events)) => Ok(imported_song(events, bpm, division, title)),
    }
}

/// Place one event in a cell.
pub fn apply_import_event(c: Cell, e: &ImportEvent) -> (r: Cell)
    ensures
        r == apply_event(c, *e),
{
    match e {
        ImportEvent::NoteOn { note, velocity, .. } => {
            let octave = *note / 12;
            match NoteValue::from_index(*note % 12) {
                Some(nv) => {
                    let mut r = c;
                    r.note = Some(Note::On { value: nv, octave });
                    if *velocity != 0x7F {
                        r.volume = Some(*velocity);
                    }
                    r
                },
                None => c,
            }
        },
        ImportEvent::NoteOff { .. } => {
            let mut r = c;
            if r.note.is_none() {
                r.note = Some(Note::Off);
            }
            r
        },
        ImportEvent::CC { controller, value, .. } => {
            let mut r = c;
            if r.effect.is_none() {
                r.effect = Some(0x0C);
                r.effect_value = Some(*value);
                r.instrument = Some(*controller);
            }
            r
        },
        ImportEvent::ProgramChange { program, .. } => {
            let mut r = c;
            if r.effect.is_none() {
                r.effect = Some(0x0E);
                r.effect_value = Some(*program);
            }
            r
        },
    }
}

fn tick_of(e: &ImportEvent) -> (t: u32)
    ensures
        t == event_tick(*e),
{
    match e {
        ImportEvent::NoteOn { tick, .. } => *tick,
        ImportEvent::NoteOff { tick, .. } => *tick,
        ImportEvent::CC { tick, .. } => *tick,
        ImportEvent::ProgramChange { tick, .. } => *tick,
    }
}

proof fn lemma_max_tick_bound(evs: Seq<ImportEvent>)
    ensures
        0 <= max_tick_of(evs) <= u32::MAX,
    decreases evs.len(),
{
    if evs.len() > 0 {
        lemma_max_tick_bound(evs.drop_last());
    }
}

proof fn lemma_max_tick_upto_bound(events: Seq<Seq<ImportEvent>>, k: int)
    ensures
        0 <= max_tick_upto(events, k) <= u32::MAX,
    decreases k,
{
    if k > 0 {
        lemma_max_tick_upto_bound(events, k - 1);
        lemma_max_tick_bound(events[k - 1]);
    }
}

/// Build the song that a MIDI file's events describe.
pub fn song_from_events(events: &Vec<Vec<ImportEvent>>, bpm: u16, division: u16, title: &str) -> (s: Song)
    requires
        events@.len() == 16,
    ensures
        s@ == imported_song(events_view(events), bpm, division, title@),
        forall|i: int| 0 <= i < s.patterns@.len() ==> (#[trigger] s.patterns@[i]).wf(),
{
    let ghost ev = events_view(events);
    // Active channels
    let mut active: Vec<usize> = Vec::new();
    let mut k: usize = 0;
    while k < 16
        invariant
            k <= 16,
            events@.len() == 16,
            ev == events_view(events),
            active@.len() == active_channels(ev, k as int).len(),
            forall|i: int| 0 <= i < active@.len() ==> #[trigger] active@[i] as int == active_channels(ev, k as int)[i],
            forall|i: int| 0 <= i < active@.len() ==> #[trigger] active@[i] < 16,
        decreases 16 - k,
    {
        if events[k].len() > 0 {
            active.push(k);
        }
        k = k + 1;
    }
    let nch: usize = if active.len() == 0 { 1 } else { active.len() };
    let tpr = ticks_per_row_with_tpb(IMPORT_SPEED, division as u32);
    assert(tpr as int == import_tpr(division));
    // Largest tick
    let mut max_tick: u32 = 0;
    let mut ch: usize = 0;
    while ch < 16
        invariant
            ch <= 16,
            events@.len() == 16,
            ev == events_view(events),
            max_tick as int == max_tick_upto(ev, ch as int),
        decreases 16 - ch,
    {
        let list = &events[ch];
        let mut m: u32 = 0;
        let mut j: usize = 0;
        while j < list.len()
            invariant
                j <= list@.len(),
                m as int == max_tick_of(list@.subrange(0, j as int)),
            decreases list@.len() - j,
        {
            let t = tick_of(&list[j]);
            proof { assert(list@.subrange(0, j as int + 1).drop_last() =~= list@.subrange(0, j as int)); }
            if t > m {
                m = t;
            }
            j = j + 1;
        }
        proof { assert(list@.subrange(0, list@.len() as int) =~= list@); }
        if m > max_tick {
            max_tick = m;
        }
        ch = ch + 1;
    }
    assert(tpr >= 6);
    assert(max_tick / tpr <= u32::MAX / 2) by (nonlinear_arith)
        requires tpr >= 6;
    let total_rows: usize = (max_tick / tpr + 1) as usize;
    let n0: usize = (total_rows + 63) / 64;
    let num_patterns: usize = if n0 < 1 { 1 } else { n0 };
    // Empty patterns and the order list
    let mut patterns: Vec<Pattern> = Vec::new();
    let mut order: Vec<usize> = Vec::new();
    let mut order_repeats: Vec<u8> = Vec::new();
    let mut i: usize = 0;
    while i < num_patterns
        invariant
            i <= num_patterns,
            patterns@.len() == i,
            order@.len() == i,
            order_repeats@.len() == i,
            forall|p: int| 0 <= p < i ==> #[trigger] order@[p] == p as usize,
            forall|p: int| 0 <= p < i ==> #[trigger] order_repeats@[p] == 1u8,
            forall|p: int| 0 <= p < i ==> (#[trigger] patterns@[p]).wf() && patterns@[p].rows == 64 && patterns@[p].channels == nch,
            forall|p: int, r: int, c: int| 0 <= p < i && 0 <= r < 64 && 0 <= c < nch ==> #[trigger] patterns@[p].cell(r, c) == empty_cell(),
        decreases num_patterns - i,
    {
        patterns.push(Pattern::new(IMPORT_ROWS_PER_PATTERN, nch));
        order.push(i);
        order_repeats.push(1);
        i = i + 1;
    }
    proof { assert(num_patterns as int == import_pattern_count(ev, division)); }
    // Place events
    let mut tc: usize = 0;
    while tc < active.len()
        invariant
            events@.len() == 16,
            ev == events_view(events),
            tpr as int == import_tpr(division),
            tpr > 0,
            active@.len() == active_channels(ev, 16).len(),
            forall|q: int| 0 <= q < active@.len() ==> #[trigger] active@[q] as int == active_channels(ev, 16)[q],
            forall|q: int| 0 <= q < active@.len() ==> #[trigger] active@[q] < 16,
            nch >= active@.len(),
            tc <= active@.len(),
            patterns@.len() == num_patterns,
            forall|p: int| 0 <= p < num_patterns ==> (#[trigger] patterns@[p]).wf() && patterns@[p].rows == 64 && patterns@[p].channels == nch,
            forall|p: int, r: int, c: int| 0 <= p < num_patterns && 0 <= r < 64 && 0 <= c < nch ==> #[trigger] patterns@[p].cell(r, c) ==
                if c < tc { imported_cell(ev, division, p, r, c) } else { empty_cell() },
        decreases active@.len() - tc,
    {
        let midi_ch = active[tc];
        let list = &events[midi_ch];
        let mut j: usize = 0;
        while j < list.len()
            invariant
                ev == events_view(events),
                midi_ch < 16,
                list@ == ev[midi_ch as int],
                tpr as int == import_tpr(division),
                tpr > 0,
                active@.len() == active_channels(ev, 16).len(),
                midi_ch as int == active_channels(ev, 16)[tc as int],
                tc < active@.len(),
                nch >= active@.len(),
                j <= list@.len(),
                patterns@.len() == num_patterns,
                forall|p: int| 0 <= p < num_patterns ==> (#[trigger] patterns@[p]).wf() && patterns@[p].rows == 64 && patterns@[p].channels == nch,
                forall|p: int, r: int, c: int| 0 <= p < num_patterns && 0 <= r < 64 && 0 <= c < nch ==> #[trigger] patterns@[p].cell(r, c) ==
                    if c < tc { imported_cell(ev, division, p, r, c) }
                    else if c == tc { cell_events(list@.subrange(0, j as int), p * 64 + r, tpr as int) }
                    else { empty_cell() },
            decreases list@.len() - j,
        {
            let e = &list[j];
            let tick = tick_of(e);
            let global_row: usize = (tick / tpr) as usize;
            let pat_idx = global_row / 64;
            let row_in_pat = global_row % 64;
            let ghost prefix = list@.subrange(0, j as int);
            let ghost next = list@.subrange(0, j as int + 1);
            proof {
                assert(next.drop_last() =~= prefix);
                assert(next.last() == *e);
            }
            if pat_idx < patterns.len() {
                let old_cell = *patterns[pat_idx].get(row_in_pat, tc);
                let new_cell = apply_import_event(old_cell, e);
                let ghost old_patterns = patterns@;
                patterns[pat_idx].set_cell(row_in_pat, tc, new_cell);
                proof {
                    assert(pat_idx * 64 + row_in_pat == global_row);
                    assert(event_row(*e, tpr as int) == global_row);
                    assert(old_cell == cell_events(prefix, global_row as int, tpr as int));
                    assert(patterns@[pat_idx as int].cell(row_in_pat as int, tc as int) == cell_events(next, global_row as int, tpr as int));
                    assert forall|p: int| 0 <= p < num_patterns && p != pat_idx implies #[trigger] patterns@[p] == old_patterns[p] by {}
                    assert forall|p: int, r: int, c: int| 0 <= p < num_patterns && 0 <= r < 64 && 0 <= c < nch implies #[trigger] patterns@[p].cell(r, c) ==
                        if c < tc { imported_cell(ev, division, p, r, c) }
                        else if c == tc { cell_events(next, p * 64 + r, tpr as int) }
                        else { empty_cell() } by {
                        assert(old_patterns[p].cell(r, c) ==
                            if c < tc { imported_cell(ev, division, p, r, c) }
                            else if c == tc { cell_events(prefix, p * 64 + r, tpr as int) }
                            else { empty_cell() });
                        if p == pat_idx {
                            if r == row_in_pat {
                                if c != tc {
                                    assert(patterns@[p].data@[r]@[c] == old_patterns[p].data@[r]@[c]);
                                }
                            } else {
                                assert(patterns@[p].data@[r] == old_patterns[p].data@[r]);
                            }
                        }
                        if c == tc && !(p == pat_idx && r == row_in_pat) {
                            assert(p * 64 + r != global_row);
                            assert(cell_events(next, p * 64 + r, tpr as int) == cell_events(prefix, p * 64 + r, tpr as int));
                        }
                    }
                }
            } else {
                proof {
                    assert forall|p: int, r: int, c: int| 0 <= p < num_patterns && 0 <= r < 64 && 0 <= c < nch implies #[trigger] patterns@[p].cell(r, c) ==
                        if c < tc { imported_cell(ev, division, p, r, c) }
                        else if c == tc { cell_events(next, p * 64 + r, tpr as int) }
                        else { empty_cell() } by {
                        if c == tc {
                            assert(p * 64 + r != global_row);
                        }
                    }
                }
            }
            j = j + 1;
        }
        proof {
            assert(list@.subrange(0, list@.len() as int) =~= list@);
        }
        tc = tc + 1;
    }
    let song = Song {
        title: String::from_str(title),
        bpm,
        speed: IMPORT_SPEED,
        patterns,
        order,
        order_repeats,
        channels: nch,
        rows_per_pattern: IMPORT_ROWS_PER_PATTERN,
        highlight_beat: 4,
        highlight_bar: 16,
        swing: 50,
    };
    proof {
        let model = imported_song(ev, bpm, division, title@);
        assert forall|p: int| 0 <= p < num_patterns implies #[trigger] song.patterns@[p]@ == imported_pattern(ev, division, p) by {
            let pm = song.patterns@[p];
            let im = imported_pattern(ev, division, p);
            assert forall|r: int| 0 <= r < 64 implies #[trigger] pm@.grid[r] =~= im.grid[r] by {
                assert forall|c: int| 0 <= c < nch implies pm@.grid[r][c] == im.grid[r][c] by {
                    assert(pm.cell(r, c) == imported_cell(ev, division, p, r, c));
                }
            }
            assert(pm@.grid =~= im.grid);
        }
        assert(song@.patterns =~= model.patterns);
        assert(song@.order =~= model.order);
        assert(song@.order_repeats =~= model.order_repeats);
    }
    song
}

/// Import a standard MIDI file from its bytes under the given title.
///
/// Reads format 0 or 1 files: each MIDI channel that has events becomes a tracker
/// channel; notes, program changes, controllers and pitch bends are placed on the
/// row of their tick, at speed 6.
pub fn import_midi_bytes(data: &[u8], title: &str) -> (r: Result<Song, MidiFileError>)
    ensures
        match import_result(data@, title@) {
            Ok(m) => r matches Ok(s) && s@ == m,
            Err(e) => r matches Err(e2) && e2 == e,
        },
{
    let (bpm, division, events) = read_midi_tracks(data)?;
    Ok(song_from_events(&events, bpm, division, title))
}



/// Whether the song can be exported (see `export_ready`).
pub fn export_is_ready(song: &Song) -> (r: bool)
    ensures
        r == export_ready(song),
{
    if !export_has_shape(song) {
        return false;
    }
    let mut c: usize = 0;
    while c < song.channels
        invariant
            export_shape(song),
            c <= song.channels,
            forall|j: int| 0 <= j < c ==> #[trigger] column_fits(channel_column(song, j), (j % 16) as u8, song.speed as int * 20),
        decreases song.channels - c,
    {
        if channel_track(song, c).is_none() {
            return false;
        }
        c = c + 1;
    }
    true
}

/// Whether the track count fits 16 bits and every played pattern holds the song's
/// channels (see `export_shape`).
fn export_has_shape(song: &Song) -> (r: bool)
    ensures
        r == export_shape(song),
{
    if song.channels % 0x1_0000 == 0xFFFF {
        return false;
    }
    let n = song.order.len();
    let np = song.patterns.len();
    let ch = song.channels;
    let mut k: usize = 0;
    while k < n
        invariant
            n == song.order@.len(),
            np == song.patterns@.len(),
            ch == song.channels,
            k <= n,
            forall|j: int| 0 <= j < k && #[trigger] song.order@[j] < np ==> column_readable(song.patterns@[song.order@[j] as int], ch),
        decreases n - k,
    {
        let idx = song.order[k];
        if idx < np {
            let p = &song.patterns[idx];
            if p.rows > p.data.len() {
                proof {
                    assert(!column_readable(song.patterns@[song.order@[k as int] as int], ch));
                }
                return false;
            }
            let mut r: usize = 0;
            while r < p.rows
                invariant
                    p.rows <= p.data@.len(),
                    r <= p.rows,
                    forall|q: int| 0 <= q < r ==> #[trigger] p.data@[q]@.len() >= ch,
                    k < n,
                    n == song.order@.len(),
                    idx == song.order@[k as int],
                    idx < np,
                    np == song.patterns@.len(),
                    *p == song.patterns@[idx as int],
                    ch == song.channels,
                decreases p.rows - r,
            {
                if p.data[r].len() < ch {
                    proof {
                        assert(!column_readable(song.patterns@[song.order@[k as int] as int], ch));
                    }
                    return false;
                }
                r = r + 1;
            }
        }
        k = k + 1;
    }
    true
}

} // verus!
