//! Reading back an exported file: the reader accepts every file the writer makes and
//! finds its division, its tempo and the events of every column.
use vstd::prelude::*;
use crate::midi_file::{
    MidiFileError, ScanState, TrackState, cell_step, effect_message, emit, end_of_track, lemma_track_acc, track_data,
    lemma_vlq_roundtrip, note_step, release_note, scan_step, scan_track, track_event, track_fold, velocity_of, vlq,
    vlq_limit, vlq_read, vlq_scan, bpm_from_us, tempo_data, tempo_us, be16, be32, be16_at, be32_at,
    chunk, tag_mtrk, scan_tracks, channel_chunks, channel_column, export_ready, column_fits, fold_fits, cell_writes,
    tag_mthd, header_data, midi_file_bytes, read_midi_events, import_result, no_events, law_tempo_roundtrip,
    ImportEvent, push_event, tick_after, imported_song,
    TICKS_PER_BEAT,
};
use crate::song::{Song, SongModel};
use crate::pattern::{Cell, Note, midi_note_of};

verus! {

proof fn lemma_vlq_scan_shift(data: Seq<u8>, pos: int, i: int, count: nat, acc: nat)
    requires
        0 <= pos <= data.len(),
        0 <= i,
    ensures
        vlq_scan(data, pos + i, count, acc).0 == vlq_scan(data.skip(pos), i, count, acc).0,
        vlq_scan(data, pos + i, count, acc).1 == vlq_scan(data.skip(pos), i, count, acc).1 + pos,
    decreases 4 - count,
{
    if count < 4 && pos + i < data.len() {
        assert(data.skip(pos)[i] == data[pos + i]);
        lemma_vlq_scan_shift(data, pos, i + 1, count + 1, acc * 128 + (data[pos + i] % 128) as nat);
    }
}

/// A variable-length quantity written at `pos` reads back, ending where it ends.
proof fn lemma_vlq_at(data: Seq<u8>, pos: int, v: nat)
    requires
        0 <= pos,
        v < vlq_limit(),
        pos + vlq(v).len() <= data.len(),
        data.subrange(pos, pos + vlq(v).len()) == vlq(v),
    ensures
        vlq_read(data, pos) == (Ok::<u32, MidiFileError>(v as u32), pos + vlq(v).len()),
{
    let l = vlq(v).len() as int;
    assert(data.skip(pos) =~= vlq(v) + data.skip(pos + l));
    lemma_vlq_roundtrip(v, data.skip(pos + l));
    lemma_vlq_scan_shift(data, pos, 0, 0, 0);
}

/// A channel message as the writer makes them: a status byte, then one data byte for
/// a program change and two for the others.
pub open spec fn channel_message(m: Seq<u8>) -> bool {
    &&& m.len() >= 1
    &&& m[0] >= 0x80
    &&& (m[0] / 16 == 0xC && m.len() == 2 || (m[0] / 16 == 0x8 || m[0] / 16 == 0x9 || m[0] / 16 == 0xB) && m.len() == 3)
}

/// The event the reader records for a channel message found at `tick`: a note-on of
/// velocity 0 counts as a note-off.
pub open spec fn message_event(m: Seq<u8>, tick: u32) -> ImportEvent {
    let high = m[0] / 16;
    if high == 8 {
        ImportEvent::NoteOff { tick, note: m[1] % 128 }
    } else if high == 9 {
        if m[2] == 0 {
            ImportEvent::NoteOff { tick, note: m[1] % 128 }
        } else {
            ImportEvent::NoteOn { tick, note: m[1] % 128, velocity: m[2] }
        }
    } else if high == 0xB {
        ImportEvent::CC { tick, controller: m[1] % 128, value: m[2] % 128 }
    } else {
        ImportEvent::ProgramChange { tick, program: m[1] % 128 }
    }
}

/// The events of a channel's column so far, and the note left sounding.
pub struct EventTrack {
    pub active: Option<u8>,
    pub events: Seq<ImportEvent>,
}

/// A message of the column, as an event at `tick`.
pub open spec fn ev_emit(et: EventTrack, m: Seq<u8>, tick: u32) -> EventTrack {
    EventTrack { active: et.active, events: et.events.push(message_event(m, tick)) }
}

/// The end of the sounding note, if there is one, at `tick`.
pub open spec fn ev_release(et: EventTrack, ch: u8, tick: u32) -> EventTrack {
    match et.active {
        Some(prev) => EventTrack { active: None, events: ev_emit(et, seq![0x80u8 | ch, prev, 0u8], tick).events },
        None => et,
    }
}

/// The events of a cell's note column at `tick`: a note ends the sounding one and
/// starts; a note-off ends the sounding one.
pub open spec fn ev_note(et: EventTrack, cell: Cell, ch: u8, tick: u32) -> EventTrack {
    match cell.note {
        Some(n) => match n {
            Note::On { .. } => match midi_note_of(n) {
                Some(m) => {
                    let r = ev_release(et, ch, tick);
                    EventTrack { active: Some(m), events: ev_emit(r, seq![0x90u8 | ch, m, velocity_of(cell)], tick).events }
                },
                None => et,
            },
            Note::Off => ev_release(et, ch, tick),
        },
        None => et,
    }
}

/// The events of one cell at `tick`: its effect's message, then its note's.
pub open spec fn ev_cell(et: EventTrack, cell: Cell, ch: u8, tick: u32) -> EventTrack {
    let e1 = match effect_message(cell, ch) {
        Some(m) => ev_emit(et, m, tick),
        None => et,
    };
    ev_note(e1, cell, ch, tick)
}

/// A time in ticks as the reader's 32-bit tick counter holds it (modulo 2^32).
pub open spec fn tick_of(t: int) -> u32 {
    (t % 0x1_0000_0000) as u32
}

/// The events of a column's cells, the cell of row `r` at tick `r * tpr` (modulo
/// 2^32, as the reader counts).
pub open spec fn ev_fold(cells: Seq<Cell>, ch: u8, tpr: int) -> EventTrack
    decreases cells.len(),
{
    if cells.len() == 0 {
        EventTrack { active: None, events: Seq::empty() }
    } else {
        ev_cell(ev_fold(cells.drop_last(), ch, tpr), cells.last(), ch, tick_of((cells.len() - 1) * tpr))
    }
}

/// The events a channel's column stands for in an exported file, on MIDI channel
/// `ch` with `tpr` ticks per row: row by row, each cell's program change or controller,
/// then the end of the sounding note and the start of the cell's note; the last note
/// ends after the last row.
pub open spec fn column_events(cells: Seq<Cell>, ch: u8, tpr: int) -> Seq<ImportEvent> {
    ev_release(ev_fold(cells, ch, tpr), ch, tick_of(cells.len() * tpr)).events
}

/// One event with a channel message is read in one step that does not stop the track,
/// moves past it, keeps the tempo, adds its delta to the tick and records the event.
proof fn lemma_channel_event_step(data: Seq<u8>, end: int, st: ScanState, delta: nat, m: Seq<u8>)
    requires
        0 <= st.pos,
        delta < vlq_limit(),
        channel_message(m),
        st.pos + track_event(delta, m).len() <= end,
        end <= data.len(),
        data.subrange(st.pos, st.pos + track_event(delta, m).len()) == track_event(delta, m),
    ensures
        scan_step(data, end, st) matches Ok((stop, s2))
            && !stop && s2.pos == st.pos + track_event(delta, m).len() && s2.bpm == st.bpm
            && s2.tick == tick_after(st.tick, delta as u32)
            && s2.events == push_event(st.events, (m[0] % 16) as int, message_event(m, tick_after(st.tick, delta as u32))),
{
    let l = vlq(delta).len() as int;
    assert(data.subrange(st.pos, st.pos + l) =~= vlq(delta));
    lemma_vlq_at(data, st.pos, delta);
    let p1 = st.pos + l;
    let ev = track_event(delta, m);
    assert forall|j: int| 0 <= j < m.len() implies data[p1 + j] == m[j] by {
        assert(ev[l + j] == m[j]);
        assert(data.subrange(st.pos, st.pos + ev.len())[l + j] == data[p1 + j]);
    }
}

/// The reader's state after `k` steps, none of which stops the track or starts at or
/// past its end.
pub open spec fn steps(data: Seq<u8>, end: int, st: ScanState, k: nat) -> Option<ScanState>
    decreases k,
{
    if k == 0 {
        Some(st)
    } else {
        match steps(data, end, st, (k - 1) as nat) {
            Some(s) => if 0 <= s.pos < end {
                match scan_step(data, end, s) {
                    Ok((stop, s2)) => if !stop { Some(s2) } else { None },
                    Err(_) => None,
                }
            } else {
                None
            },
            None => None,
        }
    }
}

/// Reading a track from a state gives what reading it from any state a few steps on
/// gives.
proof fn lemma_steps_scan(data: Seq<u8>, end: int, st: ScanState, k: nat)
    requires
        steps(data, end, st, k) is Some,
    ensures
        scan_track(data, end, st) == scan_track(data, end, steps(data, end, st, k)->0),
    decreases k,
{
    if k > 0 {
        lemma_steps_scan(data, end, st, (k - 1) as nat);
        let s = steps(data, end, st, (k - 1) as nat)->0;
        let s2 = steps(data, end, st, k)->0;
        assert(scan_track(data, end, s) == if s2.pos >= end { Ok::<ScanState, MidiFileError>(s2) } else { scan_track(data, end, s2) });
    }
}

/// `a` is where `b` starts.
pub open spec fn prefix_of(a: Seq<u8>, b: Seq<u8>) -> bool {
    a.len() <= b.len() && b.take(a.len() as int) == a
}

/// The track being read sits at `st0.pos`, within the track's end.
pub open spec fn track_at(data: Seq<u8>, end: int, st0: ScanState, track: Seq<u8>) -> bool {
    &&& 0 <= st0.pos
    &&& st0.pos + track.len() <= end <= data.len()
    &&& data.subrange(st0.pos, st0.pos + track.len()) == track
}

/// After `k` steps the reader has read `out`, the start of the track, kept the tempo,
/// reached `tick`, and added `evs` to the events of MIDI channel `ch`.
pub open spec fn read_up_to(data: Seq<u8>, end: int, st0: ScanState, k: nat, out: Seq<u8>, tick: int, ch: u8, evs: Seq<ImportEvent>) -> bool {
    steps(data, end, st0, k) matches Some(s) && s.pos == st0.pos + out.len() && s.bpm == st0.bpm
        && s.tick == tick && s.events == st0.events.update(ch as int, st0.events[ch as int] + evs)
}

/// Adding a delta below 2^32 to the tick counter at `now - acc` brings it to `now`.
proof fn lemma_tick_add(now: int, acc: int)
    requires
        0 <= acc < vlq_limit(),
        acc <= now,
    ensures
        tick_after(tick_of(now - acc), acc as u32) == tick_of(now),
{
    let m: int = 0x1_0000_0000;
    let a = (now - acc) % m;
    assert((a + acc) % m == now % m) by (nonlinear_arith)
        requires a == (now - acc) % m, m == 0x1_0000_0000, now - acc >= 0, acc >= 0
    {
        let q = (now - acc) / m;
        assert(now - acc == q * m + a);
        assert(a + acc == now - q * m);
        assert((now - q * m) % m == now % m);
    }
}

/// The reader has read what the writer wrote up to time `now` (the writer's state `t`),
/// and recorded the events of the column so far (`et`).
pub open spec fn synced(data: Seq<u8>, end: int, st0: ScanState, k: nat, t: TrackState, now: int, ch: u8, et: EventTrack) -> bool {
    &&& read_up_to(data, end, st0, k, t.out, tick_of(now - t.acc) as int, ch, et.events)
    &&& t.active == et.active
    &&& 0 <= t.acc <= now
}

#[verifier::spinoff_prover]
#[verifier::rlimit(40)]
proof fn lemma_emit_steps(
    data: Seq<u8>, end: int, st0: ScanState, track: Seq<u8>, k: nat, t: TrackState, msg: Seq<u8>,
    now: int, ch: u8, evs: Seq<ImportEvent>,
)
    requires
        track_at(data, end, st0, track),
        read_up_to(data, end, st0, k, t.out, tick_of(now - t.acc) as int, ch, evs),
        prefix_of(emit(t, msg).out, track),
        0 <= t.acc < vlq_limit(),
        t.acc <= now,
        channel_message(msg),
        msg[0] % 16 == ch,
        ch < 16,
        st0.events.len() == 16,
    ensures
        read_up_to(data, end, st0, k + 1, emit(t, msg).out, tick_of(now) as int, ch, evs.push(message_event(msg, tick_of(now)))),
{
    let s = steps(data, end, st0, k)->0;
    let ev = track_event(t.acc as nat, msg);
    let out2 = emit(t, msg).out;
    assert(out2 == t.out + ev);
    let base = t.out.len() as int;
    assert forall|j: int| 0 <= j < ev.len() implies data[s.pos + j] == ev[j] by {
        assert(out2[base + j] == ev[j]);
        assert(track.take(out2.len() as int)[base + j] == track[base + j]);
        assert(data.subrange(st0.pos, st0.pos + track.len())[base + j] == data[st0.pos + base + j]);
    }
    assert(data.subrange(s.pos, s.pos + ev.len()) =~= ev);
    lemma_channel_event_step(data, end, s, t.acc as nat, msg);
    lemma_tick_add(now, t.acc);
    assert(tick_after(s.tick, t.acc as u32) == tick_of(now));
    let e = message_event(msg, tick_of(now));
    let s2 = scan_step(data, end, s)->Ok_0.1;
    assert(steps(data, end, st0, k + 1) == Some(s2));
    assert(s2.events =~= st0.events.update(ch as int, st0.events[ch as int] + evs.push(e))) by {
        assert(st0.events[ch as int] + evs.push(e) =~= (st0.events[ch as int] + evs).push(e));
    }
}

proof fn lemma_status_bytes(ch: u8)
    requires
        ch < 16,
    ensures
        (0xC0u8 | ch) >= 0x80 && (0xC0u8 | ch) / 16 == 0xC && (0xC0u8 | ch) % 16 == ch,
        (0xB0u8 | ch) >= 0x80 && (0xB0u8 | ch) / 16 == 0xB && (0xB0u8 | ch) % 16 == ch,
        (0x80u8 | ch) >= 0x80 && (0x80u8 | ch) / 16 == 0x8 && (0x80u8 | ch) % 16 == ch,
        (0x90u8 | ch) >= 0x80 && (0x90u8 | ch) / 16 == 0x9 && (0x90u8 | ch) % 16 == ch,
{
    assert((0xC0u8 | ch) >= 0x80 && (0xC0u8 | ch) / 16 == 0xC && (0xC0u8 | ch) % 16 == ch) by (bit_vector) requires ch < 16;
    assert((0xB0u8 | ch) >= 0x80 && (0xB0u8 | ch) / 16 == 0xB && (0xB0u8 | ch) % 16 == ch) by (bit_vector) requires ch < 16;
    assert((0x80u8 | ch) >= 0x80 && (0x80u8 | ch) / 16 == 0x8 && (0x80u8 | ch) % 16 == ch) by (bit_vector) requires ch < 16;
    assert((0x90u8 | ch) >= 0x80 && (0x90u8 | ch) / 16 == 0x9 && (0x90u8 | ch) % 16 == ch) by (bit_vector) requires ch < 16;
}

proof fn lemma_prefix_trans(a: Seq<u8>, b: Seq<u8>, c: Seq<u8>)
    requires
        prefix_of(a, b),
        prefix_of(b, c),
    ensures
        prefix_of(a, c),
{
    assert(c.take(a.len() as int) =~= b.take(a.len() as int));
}

proof fn lemma_release_steps(
    data: Seq<u8>, end: int, st0: ScanState, track: Seq<u8>, k: nat, t: TrackState, ch: u8,
    now: int, et: EventTrack,
) -> (k2: nat)
    requires
        track_at(data, end, st0, track),
        synced(data, end, st0, k, t, now, ch, et),
        prefix_of(release_note(t, ch).out, track),
        t.active is Some ==> t.acc < vlq_limit(),
        ch < 16,
        st0.events.len() == 16,
    ensures
        synced(data, end, st0, k2, release_note(t, ch), now, ch, ev_release(et, ch, tick_of(now))),
{
    match t.active {
        Some(prev) => {
            lemma_status_bytes(ch);
            lemma_emit_steps(data, end, st0, track, k, t, seq![0x80u8 | ch, prev, 0u8], now, ch, et.events);
            k + 1
        },
        None => k,
    }
}

#[verifier::spinoff_prover]
#[verifier::rlimit(60)]
proof fn lemma_cell_steps(
    data: Seq<u8>, end: int, st0: ScanState, track: Seq<u8>, k: nat, t: TrackState, cell: Cell, ch: u8, tpr: int,
    now: int, et: EventTrack,
) -> (k2: nat)
    requires
        track_at(data, end, st0, track),
        synced(data, end, st0, k, t, now, ch, et),
        prefix_of(cell_step(t, cell, ch, tpr).out, track),
        cell_writes(t.active, cell, ch) ==> t.acc < vlq_limit(),
        tpr >= 0,
        ch < 16,
        st0.events.len() == 16,
    ensures
        synced(data, end, st0, k2, cell_step(t, cell, ch, tpr), now + tpr, ch, ev_cell(et, cell, ch, tick_of(now))),
{
    lemma_status_bytes(ch);
    let tick = tick_of(now);
    let st1 = match effect_message(cell, ch) {
        Some(m) => emit(t, m),
        None => t,
    };
    let e1 = match effect_message(cell, ch) {
        Some(m) => ev_emit(et, m, tick),
        None => et,
    };
    let st2 = note_step(st1, cell, ch);
    assert(prefix_of(st2.out, track)) by {
        assert(cell_step(t, cell, ch, tpr).out == st2.out);
    }
    // The note column writes after the effect column.
    assert(prefix_of(st1.out, st2.out)) by {
        match cell.note {
            Some(n) => match n {
                Note::On { .. } => match midi_note_of(n) {
                    Some(m) => {
                        let r = release_note(st1, ch);
                        assert(prefix_of(st1.out, r.out)) by {
                            assert(r.out.take(st1.out.len() as int) =~= st1.out);
                        }
                        assert(st2.out.take(st1.out.len() as int) =~= st1.out);
                    },
                    None => {},
                },
                Note::Off => {
                    assert(st2.out.take(st1.out.len() as int) =~= st1.out);
                },
            },
            None => {},
        }
        assert(st2.out.take(st1.out.len() as int) =~= st1.out);
    }
    lemma_prefix_trans(st1.out, st2.out, track);
    let k1 = match effect_message(cell, ch) {
        Some(m) => {
            lemma_emit_steps(data, end, st0, track, k, t, m, now, ch, et.events);
            k + 1
        },
        None => k,
    };
    assert(synced(data, end, st0, k1, st1, now, ch, e1));
    assert(st1.active == t.active);
    assert(st1.acc == 0 || st1.acc == t.acc);
    let k2 = match cell.note {
        Some(n) => match n {
            Note::On { .. } => match midi_note_of(n) {
                Some(m) => {
                    let r = release_note(st1, ch);
                    let msg = seq![0x90u8 | ch, m, velocity_of(cell)];
                    let e = emit(r, msg);
                    assert(st2.out == e.out);
                    assert(prefix_of(r.out, e.out)) by {
                        assert(e.out.take(r.out.len() as int) =~= r.out);
                    }
                    lemma_prefix_trans(r.out, e.out, track);
                    let kr = lemma_release_steps(data, end, st0, track, k1, st1, ch, now, e1);
                    let er = ev_release(e1, ch, tick);
                    lemma_emit_steps(data, end, st0, track, kr, r, msg, now, ch, er.events);
                    kr + 1
                },
                None => k1,
            },
            Note::Off => lemma_release_steps(data, end, st0, track, k1, st1, ch, now, e1),
        },
        None => k1,
    };
    assert(synced(data, end, st0, k2, st2, now, ch, ev_note(e1, cell, ch, tick)));
    k2
}

proof fn lemma_cell_step_prefix(t: TrackState, cell: Cell, ch: u8, tpr: int)
    ensures
        prefix_of(t.out, cell_step(t, cell, ch, tpr).out),
{
    let st1 = match effect_message(cell, ch) {
        Some(m) => emit(t, m),
        None => t,
    };
    let st2 = note_step(st1, cell, ch);
    assert(st1.out.take(t.out.len() as int) =~= t.out);
    match cell.note {
        Some(n) => match n {
            Note::On { .. } => match midi_note_of(n) {
                Some(m) => {
                    let r = release_note(st1, ch);
                    assert(r.out.take(st1.out.len() as int) =~= st1.out);
                    assert(st2.out.take(r.out.len() as int) =~= r.out);
                },
                None => {},
            },
            Note::Off => {},
        },
        None => {},
    }
    assert(st2.out.take(st1.out.len() as int) =~= st1.out);
    lemma_prefix_trans(t.out, st1.out, st2.out);
}

proof fn lemma_fold_steps(data: Seq<u8>, end: int, st0: ScanState, track: Seq<u8>, cells: Seq<Cell>, ch: u8, tpr: int) -> (k: nat)
    requires
        track_at(data, end, st0, track),
        prefix_of(track_fold(cells, ch, tpr).out, track),
        ch < 16,
        tpr >= 0,
        fold_fits(cells, ch, tpr),
        st0.tick == 0,
        st0.events.len() == 16,
    ensures
        synced(data, end, st0, k, track_fold(cells, ch, tpr), cells.len() * tpr, ch, ev_fold(cells, ch, tpr)),
    decreases cells.len(),
{
    if cells.len() == 0 {
        assert(st0.events.update(ch as int, st0.events[ch as int] + Seq::<ImportEvent>::empty()) =~= st0.events) by {
            assert(st0.events[ch as int] + Seq::<ImportEvent>::empty() =~= st0.events[ch as int]);
        }
        0
    } else {
        let pre = cells.drop_last();
        let t = track_fold(pre, ch, tpr);
        lemma_cell_step_prefix(t, cells.last(), ch, tpr);
        lemma_prefix_trans(t.out, track_fold(cells, ch, tpr).out, track);
        lemma_track_acc(pre, ch, tpr);
        assert(pre.len() * tpr + tpr == cells.len() * tpr) by (nonlinear_arith) requires pre.len() + 1 == cells.len();
        assert(pre.len() * tpr <= cells.len() * tpr) by (nonlinear_arith) requires pre.len() < cells.len(), tpr >= 0;
        assert((cells.len() - 1) * tpr == pre.len() * tpr);
        let k1 = lemma_fold_steps(data, end, st0, track, pre, ch, tpr);
        lemma_cell_steps(data, end, st0, track, k1, t, cells.last(), ch, tpr, pre.len() * tpr, ev_fold(pre, ch, tpr))
    }
}

/// The end-of-track event ends the reading of a track there, keeping the tempo and
/// the events.
proof fn lemma_end_of_track_step(data: Seq<u8>, end: int, st: ScanState)
    requires
        0 <= st.pos,
        st.pos + 4 == end,
        end <= data.len(),
        data.subrange(st.pos, end) == track_event(0, end_of_track()),
    ensures
        scan_track(data, end, st) matches Ok(s2) && s2.bpm == st.bpm && s2.events == st.events,
{
    let ev = track_event(0, end_of_track());
    assert(vlq(0) =~= seq![0u8]);
    assert(ev =~= seq![0u8, 0xFFu8, 0x2Fu8, 0x00u8]);
    assert(data[st.pos] == 0u8) by { assert(data.subrange(st.pos, end)[0] == data[st.pos]); }
    assert(data[st.pos + 1] == 0xFFu8) by { assert(data.subrange(st.pos, end)[1] == data[st.pos + 1]); }
    assert(data[st.pos + 2] == 0x2Fu8) by { assert(data.subrange(st.pos, end)[2] == data[st.pos + 2]); }
    assert(data[st.pos + 3] == 0x00u8) by { assert(data.subrange(st.pos, end)[3] == data[st.pos + 3]); }
    assert(data.subrange(st.pos, st.pos + 1) =~= vlq(0));
    lemma_vlq_at(data, st.pos, 0);
    assert(data.subrange(st.pos + 3, st.pos + 4) =~= vlq(0));
    lemma_vlq_at(data, st.pos + 3, 0);
}

/// A channel's track, as the writer makes it, reads without error, keeps the tempo
/// and adds the column's events to those of its MIDI channel.
#[verifier::spinoff_prover]
#[verifier::rlimit(40)]
pub proof fn lemma_track_data_reads(data: Seq<u8>, st0: ScanState, cells: Seq<Cell>, ch: u8, tpr: int)
    requires
        0 <= st0.pos,
        st0.pos + track_data(cells, ch, tpr).len() <= data.len(),
        data.subrange(st0.pos, st0.pos + track_data(cells, ch, tpr).len()) == track_data(cells, ch, tpr),
        ch < 16,
        tpr >= 0,
        column_fits(cells, ch, tpr),
        st0.tick == 0,
        st0.events.len() == 16,
    ensures
        scan_track(data, st0.pos + track_data(cells, ch, tpr).len(), st0) matches Ok(s)
            && s.bpm == st0.bpm
            && s.events == st0.events.update(ch as int, st0.events[ch as int] + column_events(cells, ch, tpr)),
{
    let track = track_data(cells, ch, tpr);
    let end = st0.pos + track.len();
    let f = track_fold(cells, ch, tpr);
    let r = release_note(f, ch);
    let eot = track_event(0, end_of_track());
    assert(track == r.out + eot);
    assert(prefix_of(r.out, track)) by { assert(track.take(r.out.len() as int) =~= r.out); }
    assert(prefix_of(f.out, r.out)) by { assert(r.out.take(f.out.len() as int) =~= f.out); }
    lemma_prefix_trans(f.out, r.out, track);
    let k1 = lemma_fold_steps(data, end, st0, track, cells, ch, tpr);
    lemma_track_acc(cells, ch, tpr);
    let now = cells.len() * tpr;
    let k2 = lemma_release_steps(data, end, st0, track, k1, f, ch, now, ev_fold(cells, ch, tpr));
    lemma_steps_scan(data, end, st0, k2);
    let s = steps(data, end, st0, k2)->0;
    assert(s.pos + 4 == end) by {
        assert(vlq(0) =~= seq![0u8]);
        assert(eot.len() == 4);
    }
    assert(data.subrange(s.pos, end) =~= eot) by {
        assert forall|j: int| 0 <= j < 4 implies data.subrange(s.pos, end)[j] == eot[j] by {
            assert(track[r.out.len() + j] == eot[j]);
            assert(data.subrange(st0.pos, end)[r.out.len() + j] == data[st0.pos + r.out.len() + j]);
        }
    }
    lemma_end_of_track_step(data, end, s);
}

/// The tempo that the three bytes of a set-tempo event written for `bpm` give back.
pub open spec fn tempo_read(bpm: u16, prev: u16) -> u16 {
    bpm_from_us(tempo_us(bpm) % 0x100_0000, prev)
}

/// The tempo track, as the writer makes it, reads without error, sets the tempo and
/// records no event.
pub proof fn lemma_tempo_data_reads(data: Seq<u8>, st0: ScanState, bpm: u16)
    requires
        0 <= st0.pos,
        st0.pos + tempo_data(bpm).len() <= data.len(),
        data.subrange(st0.pos, st0.pos + tempo_data(bpm).len()) == tempo_data(bpm),
    ensures
        scan_track(data, st0.pos + tempo_data(bpm).len(), st0) matches Ok(s) && s.bpm == tempo_read(bpm, st0.bpm)
            && s.events == st0.events,
{
    let us = tempo_us(bpm);
    let b1 = ((us / 0x1_0000) % 256) as u8;
    let b2 = ((us / 256) % 256) as u8;
    let b3 = (us % 256) as u8;
    let track = tempo_data(bpm);
    let end = st0.pos + track.len();
    assert(vlq(0) =~= seq![0u8]);
    assert(vlq(3) =~= seq![3u8]);
    assert(track =~= seq![0u8, 0xFFu8, 0x51u8, 0x03u8, b1, b2, b3, 0u8, 0xFFu8, 0x2Fu8, 0x00u8]);
    let p = st0.pos;
    assert forall|j: int| 0 <= j < 11 implies data[p + j] == track[j] by {
        assert(data.subrange(p, end)[j] == data[p + j]);
    }
    assert(data.subrange(p, p + 1) =~= vlq(0));
    lemma_vlq_at(data, p, 0);
    assert(data.subrange(p + 3, p + 4) =~= vlq(3));
    lemma_vlq_at(data, p + 3, 3);
    assert(us >= 0);
    assert(b1 as int * 0x1_0000 + b2 as int * 256 + b3 as int == us % 0x100_0000) by (nonlinear_arith)
        requires us >= 0, b1 == ((us / 0x1_0000) % 256) as u8, b2 == ((us / 256) % 256) as u8, b3 == (us % 256) as u8;
    let s1 = scan_step(data, end, st0)->Ok_0.1;
    assert(scan_step(data, end, st0) matches Ok((stop, s)) && !stop && s.pos == p + 7 && s.bpm == tempo_read(bpm, st0.bpm));
    assert(scan_track(data, end, st0) == scan_track(data, end, s1));
    assert(data.subrange(p + 7, end) =~= track_event(0, end_of_track()));
    lemma_end_of_track_step(data, end, s1);
}

/// A small file: the header (format 1, one track, 480 ticks per beat) and one track
/// on MIDI channel `n`: a note-on of key `k` at velocity `v`; `d` ticks later the same
/// key with velocity 0 under running status (no status byte); at the same tick a
/// note-on of velocity 0 with its status byte; then the end of the track.
pub open spec fn note_off_file(n: u8, k: u8, v: u8, d: u8) -> Seq<u8> {
    seq![
        0x4Du8, 0x54u8, 0x68u8, 0x64u8, 0u8, 0u8, 0u8, 6u8, 0u8, 1u8, 0u8, 1u8, 0x01u8, 0xE0u8,
        0x4Du8, 0x54u8, 0x72u8, 0x6Bu8, 0u8, 0u8, 0u8, 15u8,
        0u8, 0x90u8 | n, k, v,
        d, k, 0u8,
        0u8, 0x90u8 | n, k, 0u8,
        0u8, 0xFFu8, 0x2Fu8, 0u8
    ]
}

/// A note-on of velocity 0 is read as a note-off, with or without its status byte:
/// the file above reads as a note-on of `k` at tick 0, then two note-offs of `k` at
/// tick `d`, all on channel `n`, with no other event, the default tempo and its
/// division.
#[verifier::spinoff_prover]
#[verifier::rlimit(100)]
pub proof fn law_velocity_zero_is_note_off(n: u8, k: u8, v: u8, d: u8)
    requires
        n < 16,
        k < 128,
        0 < v < 128,
        d < 128,
    ensures
        read_midi_events(note_off_file(n, k, v, d)) == Ok::<(u16, u16, Seq<Seq<ImportEvent>>), MidiFileError>((
            120u16,
            480u16,
            no_events().update(n as int, seq![
                ImportEvent::NoteOn { tick: 0, note: k, velocity: v },
                ImportEvent::NoteOff { tick: d as u32, note: k },
                ImportEvent::NoteOff { tick: d as u32, note: k },
            ]),
        )),
{
    let f = note_off_file(n, k, v, d);
    lemma_status_bytes(n);
    let st = 0x90u8 | n;
    assert(f.len() == 37);
    assert(f.subrange(0, 4) =~= tag_mthd());
    assert(be32_at(f, 4) == 6);
    assert(be16_at(f, 10) == 1);
    assert(be16_at(f, 12) == 480);
    assert(f.subrange(14, 18) =~= tag_mtrk());
    assert(be32_at(f, 18) == 15);
    let e0 = no_events();
    let on = ImportEvent::NoteOn { tick: 0, note: k, velocity: v };
    let off = ImportEvent::NoteOff { tick: d as u32, note: k };
    let s0 = ScanState { pos: 22, tick: 0, running: 0, bpm: 120, events: e0 };
    assert(f[22] == 0 && f[23] == st && f[24] == k && f[25] == v);
    assert(vlq_read(f, 22) == (Ok::<u32, MidiFileError>(0u32), 23int));
    let e1 = push_event(e0, n as int, on);
    let s1 = ScanState { pos: 26, tick: 0, running: st, bpm: 120, events: e1 };
    assert(scan_step(f, 37, s0) == Ok::<(bool, ScanState), MidiFileError>((false, s1)));
    assert(f[26] == d && f[27] == k && f[28] == 0);
    assert(vlq_read(f, 26) == (Ok::<u32, MidiFileError>(d as u32), 27int));
    assert(tick_after(0, d as u32) == d as u32);
    let e2 = push_event(e1, n as int, off);
    let s2 = ScanState { pos: 29, tick: d as u32, running: st, bpm: 120, events: e2 };
    assert(scan_step(f, 37, s1) == Ok::<(bool, ScanState), MidiFileError>((false, s2)));
    assert(f[29] == 0 && f[30] == st && f[31] == k && f[32] == 0);
    assert(vlq_read(f, 29) == (Ok::<u32, MidiFileError>(0u32), 30int));
    assert(tick_after(d as u32, 0) == d as u32);
    let e3 = push_event(e2, n as int, off);
    let s3 = ScanState { pos: 33, tick: d as u32, running: st, bpm: 120, events: e3 };
    assert(scan_step(f, 37, s2) == Ok::<(bool, ScanState), MidiFileError>((false, s3)));
    assert(f[33] == 0 && f[34] == 0xFF && f[35] == 0x2F && f[36] == 0);
    assert(vlq_read(f, 33) == (Ok::<u32, MidiFileError>(0u32), 34int));
    assert(vlq_read(f, 36) == (Ok::<u32, MidiFileError>(0u32), 37int));
    let s4 = ScanState { pos: 37, tick: d as u32, running: 0xFF, bpm: 120, events: e3 };
    assert(scan_step(f, 37, s3) == Ok::<(bool, ScanState), MidiFileError>((false, s4)));
    assert(scan_track(f, 37, s3) == Ok::<ScanState, MidiFileError>(s4));
    assert(scan_track(f, 37, s2) == scan_track(f, 37, s3));
    assert(scan_track(f, 37, s1) == scan_track(f, 37, s2));
    assert(scan_track(f, 37, s0) == scan_track(f, 37, s1));
    assert(scan_tracks(f, 1, 14, 120, e0) == scan_tracks(f, 0, 37, 120, e3));
    assert(e1[n as int] =~= seq![on]);
    assert(e2[n as int] =~= seq![on, off]);
    assert(e3[n as int] =~= seq![on, off, off]);
    assert(e3.len() == 16);
    assert forall|i: int| 0 <= i < 16 implies #[trigger] e3[i] == no_events().update(n as int, seq![on, off, off])[i] by {
        if i != n as int {
            assert(e3[i] == e0[i]);
        }
    }
    assert(e3 =~= no_events().update(n as int, seq![on, off, off]));
}

/// The four bytes of a 32-bit value read back as the value.
proof fn lemma_be32_reads(data: Seq<u8>, p: int, v: u32)
    requires
        0 <= p,
        p + 4 <= data.len(),
        data.subrange(p, p + 4) == be32(v),
    ensures
        be32_at(data, p) == v,
{
    assert(data[p] == be32(v)[0] && data[p + 1] == be32(v)[1] && data[p + 2] == be32(v)[2] && data[p + 3] == be32(v)[3]) by {
        assert(data.subrange(p, p + 4)[0] == data[p]);
        assert(data.subrange(p, p + 4)[1] == data[p + 1]);
        assert(data.subrange(p, p + 4)[2] == data[p + 2]);
        assert(data.subrange(p, p + 4)[3] == data[p + 3]);
    }
    let a = (v / 0x100_0000) as u8;
    let b = ((v / 0x1_0000) % 256) as u8;
    let c = ((v / 256) % 256) as u8;
    let d = (v % 256) as u8;
    assert(a as int * 0x100_0000 + b as int * 0x1_0000 + c as int * 256 + d as int == v as int) by (nonlinear_arith)
        requires a == (v / 0x100_0000) as u8, b == ((v / 0x1_0000) % 256) as u8, c == ((v / 256) % 256) as u8, d == (v % 256) as u8;
}

/// The two bytes of a 16-bit value read back as the value.
proof fn lemma_be16_reads(data: Seq<u8>, p: int, v: u16)
    requires
        0 <= p,
        p + 2 <= data.len(),
        data.subrange(p, p + 2) == be16(v),
    ensures
        be16_at(data, p) == v,
{
    assert(data.subrange(p, p + 2)[0] == data[p]);
    assert(data.subrange(p, p + 2)[1] == data[p + 1]);
    let a = (v / 256) as u8;
    let b = (v % 256) as u8;
    assert(a as int * 256 + b as int == v as int) by (nonlinear_arith) requires a == (v / 256) as u8, b == (v % 256) as u8;
}

/// A track chunk at `pos` is read as its track, then the reading goes on after it.
proof fn lemma_chunk_reads(data: Seq<u8>, pos: int, d: Seq<u8>, t: nat, bpm: u16, events: Seq<Seq<crate::midi_file::ImportEvent>>)
    requires
        0 <= pos,
        pos + 8 + d.len() <= data.len(),
        d.len() < 0x1_0000_0000,
        data.subrange(pos, pos + 8 + d.len()) == chunk(tag_mtrk(), d),
        t > 0,
    ensures
        scan_tracks(data, t, pos, bpm, events) == match scan_track(data, pos + 8 + d.len(),
            ScanState { pos: pos + 8, tick: 0, running: 0, bpm, events }) {
            Err(e) => Err(e),
            Ok(st) => scan_tracks(data, (t - 1) as nat, pos + 8 + d.len(), st.bpm, st.events),
        },
        data.subrange(pos + 8, pos + 8 + d.len()) == d,
{
    let c = chunk(tag_mtrk(), d);
    assert(data.subrange(pos, pos + 4) =~= tag_mtrk()) by {
        assert forall|j: int| 0 <= j < 4 implies data.subrange(pos, pos + 4)[j] == tag_mtrk()[j] by {
            assert(c[j] == tag_mtrk()[j]);
            assert(data.subrange(pos, pos + 8 + d.len())[j] == data[pos + j]);
        }
    }
    assert(data.subrange(pos + 4, pos + 8) =~= be32(d.len() as u32)) by {
        assert forall|j: int| 0 <= j < 4 implies #[trigger] data.subrange(pos + 4, pos + 8)[j] == be32(d.len() as u32)[j] by {
            assert(c[4 + j] == be32(d.len() as u32)[j]);
            assert(data.subrange(pos, pos + 8 + d.len())[4 + j] == data[pos + 4 + j]);
        }
    }
    lemma_be32_reads(data, pos + 4, d.len() as u32);
    assert(data.subrange(pos + 8, pos + 8 + d.len()) =~= d) by {
        assert forall|j: int| 0 <= j < d.len() implies data.subrange(pos + 8, pos + 8 + d.len())[j] == d[j] by {
            assert(c[8 + j] == d[j]);
            assert(data.subrange(pos, pos + 8 + d.len())[8 + j] == data[pos + 8 + j]);
        }
    }
}

proof fn lemma_channel_chunks_prefix(song: &Song, k: int, n: int)
    requires
        0 <= k <= n,
    ensures
        prefix_of(channel_chunks(song, k), channel_chunks(song, n)),
    decreases n - k,
{
    if k < n {
        lemma_channel_chunks_prefix(song, k, n - 1);
        let a = channel_chunks(song, n - 1);
        let b = channel_chunks(song, n);
        assert(prefix_of(a, b)) by { assert(b.take(a.len() as int) =~= a); }
        lemma_prefix_trans(channel_chunks(song, k), a, b);
    } else {
        assert(channel_chunks(song, n).take(channel_chunks(song, n).len() as int) =~= channel_chunks(song, n));
    }
}

/// The events after those of the channels from the `k`-th on are added to `events`:
/// each channel's column events go to the list of its MIDI channel (its number modulo 16).
pub open spec fn add_channel_events(song: &Song, events: Seq<Seq<ImportEvent>>, k: int) -> Seq<Seq<ImportEvent>>
    decreases song.channels - k,
{
    if k >= song.channels {
        events
    } else {
        let ch = k % 16;
        add_channel_events(
            song,
            events.update(ch, events[ch] + column_events(channel_column(song, k), ch as u8, song.speed as int * 20)),
            k + 1,
        )
    }
}

/// The events an exported song's file holds, per MIDI channel.
pub open spec fn exported_events(song: &Song) -> Seq<Seq<ImportEvent>> {
    add_channel_events(song, no_events(), 0)
}

/// The channel track chunks read without error from the `k`-th on, keep the tempo and,
/// when the track count reaches them all, add their columns' events.
proof fn lemma_channel_chunks_read(song: &Song, data: Seq<u8>, base: int, k: int, t: nat, bpm: u16, events: Seq<Seq<ImportEvent>>)
    requires
        export_ready(song),
        0 <= base,
        base + channel_chunks(song, song.channels as int).len() == data.len(),
        data.subrange(base, data.len() as int) == channel_chunks(song, song.channels as int),
        data.len() < 0x1_0000_0000,
        0 <= k <= song.channels,
        events.len() == 16,
    ensures
        scan_tracks(data, t, base + channel_chunks(song, k).len(), bpm, events) matches Ok((b, evs))
            && b == bpm
            && (t >= song.channels - k ==> evs == add_channel_events(song, events, k)),
    decreases t,
{
    let n = song.channels as int;
    let pos = base + channel_chunks(song, k).len();
    lemma_channel_chunks_prefix(song, k, n);
    if t == 0 || pos + 8 > data.len() {
        if k < n {
            let c = chunk(tag_mtrk(), crate::midi_file::track_data(channel_column(song, k), (k % 16) as u8, song.speed as int * 20));
            assert(channel_chunks(song, k + 1) == channel_chunks(song, k) + c);
            lemma_channel_chunks_prefix(song, k + 1, n);
        }
    } else if k == n {
    } else {
        let tpr = song.speed as int * 20;
        let cells = channel_column(song, k);
        let ch = (k % 16) as u8;
        let d = crate::midi_file::track_data(cells, ch, tpr);
        let c = chunk(tag_mtrk(), d);
        let all = channel_chunks(song, n);
        let before = channel_chunks(song, k);
        let after = channel_chunks(song, k + 1);
        assert(after == before + c);
        lemma_channel_chunks_prefix(song, k + 1, n);
        assert(data.subrange(pos, pos + 8 + d.len()) =~= c) by {
            assert forall|j: int| 0 <= j < c.len() implies data.subrange(pos, pos + 8 + d.len())[j] == c[j] by {
                assert(after[before.len() + j] == c[j]);
                assert(all.take(after.len() as int)[before.len() + j] == all[before.len() + j]);
                assert(data.subrange(base, data.len() as int)[before.len() + j] == data[base + before.len() + j]);
            }
        }
        lemma_chunk_reads(data, pos, d, t, bpm, events);
        assert(column_fits(channel_column(song, k), ch, tpr));
        assert(ch < 16);
        let st0 = ScanState { pos: pos + 8, tick: 0, running: 0, bpm, events };
        lemma_track_data_reads(data, st0, cells, ch, tpr);
        let st = scan_track(data, pos + 8 + d.len(), st0)->Ok_0;
        assert(ch as int == k % 16);
        lemma_channel_chunks_read(song, data, base, k + 1, (t - 1) as nat, st.bpm, st.events);
    }
}

/// The track count written in the header.
pub open spec fn track_count(song: &Song) -> u16 {
    ((song.channels as u16) + 1) as u16
}

/// The header of an exported file reads back: its tag, its length, the track count
/// and the division.
#[verifier::spinoff_prover]
proof fn lemma_header_reads(song: &Song)
    ensures
        midi_file_bytes(song).len() >= 14,
        midi_file_bytes(song).subrange(0, 4) == tag_mthd(),
        be32_at(midi_file_bytes(song), 4) == 6,
        be16_at(midi_file_bytes(song), 10) == track_count(song),
        be16_at(midi_file_bytes(song), 12) == TICKS_PER_BEAT,
{
    let f = midi_file_bytes(song);
    let h = header_data(song);
    let hc = chunk(tag_mthd(), h);
    let rest = chunk(tag_mtrk(), tempo_data(song.bpm)) + channel_chunks(song, song.channels as int);
    assert(f == hc + rest);
    assert(h =~= be16(1) + be16(track_count(song)) + be16(TICKS_PER_BEAT));
    assert(hc.len() == 14);
    assert forall|j: int| 0 <= j < 14 implies #[trigger] f[j] == hc[j] by {}
    assert(f.subrange(0, 4) =~= tag_mthd());
    assert(f.subrange(4, 8) =~= be32(6u32));
    lemma_be32_reads(f, 4, 6u32);
    assert(f.subrange(10, 12) =~= be16(track_count(song)));
    lemma_be16_reads(f, 10, track_count(song));
    assert(f.subrange(12, 14) =~= be16(TICKS_PER_BEAT));
    lemma_be16_reads(f, 12, TICKS_PER_BEAT);
}

/// The tracks of an exported file read without error, the tempo track setting the
/// tempo; when the track count holds every channel, the events read are the columns'.
#[verifier::spinoff_prover]
#[verifier::rlimit(40)]
proof fn lemma_tracks_read(song: &Song)
    requires
        export_ready(song),
        midi_file_bytes(song).len() < 0x1_0000_0000,
    ensures
        scan_tracks(midi_file_bytes(song), track_count(song) as nat, 14, 120, no_events()) matches Ok((b, evs))
            && b == tempo_read(song.bpm, 120)
            && (song.channels < 0x1_0000 ==> evs == exported_events(song)),
{
    let f = midi_file_bytes(song);
    let c = song.channels;
    let tdata = tempo_data(song.bpm);
    let tl = tdata.len() as int;
    let hc = chunk(tag_mthd(), header_data(song));
    let tc = chunk(tag_mtrk(), tdata);
    let cc = channel_chunks(song, c as int);
    assert(f == hc + tc + cc);
    assert(hc.len() == 14);
    assert(c as u16 == (c % 0x1_0000) as u16 && c % 0x1_0000 < 0x1_0000) by (bit_vector);
    assert(track_count(song) > 0);
    assert(f.subrange(14, 14 + 8 + tl) =~= tc) by {
        assert forall|j: int| 0 <= j < tc.len() implies #[trigger] f.subrange(14, 14 + 8 + tl)[j] == tc[j] by {
            assert(f[14 + j] == (hc + tc)[14 + j]);
        }
    }
    lemma_chunk_reads(f, 14, tdata, track_count(song) as nat, 120, no_events());
    let st0 = ScanState { pos: 22, tick: 0, running: 0, bpm: 120, events: no_events() };
    lemma_tempo_data_reads(f, st0, song.bpm);
    let st = scan_track(f, 22 + tl, st0)->Ok_0;
    let base: int = 22 + tl;
    assert(f.subrange(base, f.len() as int) =~= cc) by {
        assert forall|j: int| 0 <= j < cc.len() implies #[trigger] f.subrange(base, f.len() as int)[j] == cc[j] by {
            assert(f[base + j] == cc[j]);
        }
    }
    assert(channel_chunks(song, 0) =~= Seq::<u8>::empty());
    if c < 0x1_0000 {
        assert(c % 0x1_0000 == c);
        assert(track_count(song) - 1 == c);
    }
    lemma_channel_chunks_read(song, f, base, 0, (track_count(song) - 1) as nat, st.bpm, st.events);
}

/// A file the exporter writes is read back without error: the reader finds the
/// division written (480 ticks per beat) and the tempo that the set-tempo event holds,
/// which is the song's own for every tempo from 4 up to 7745 BPM; the import of such a
/// file succeeds with that tempo. When the header's 16-bit track count holds every
/// channel, the events read are exactly those of the song's columns (each cell's
/// program change or controller, its note's start and the end of the note before, at
/// its row's tick, counted modulo 2^32 as the reader counts), and the imported song is
/// the one those events make.
#[verifier::spinoff_prover]
#[verifier::rlimit(40)]
pub proof fn law_export_reads_back(song: &Song, title: Seq<char>)
    requires
        export_ready(song),
        midi_file_bytes(song).len() < 0x1_0000_0000,
    ensures
        read_midi_events(midi_file_bytes(song)) matches Ok((bpm, division, _))
            && division == TICKS_PER_BEAT && bpm == tempo_read(song.bpm, 120),
        import_result(midi_file_bytes(song), title) matches Ok(m) && m.bpm == tempo_read(song.bpm, 120),
        4 <= song.bpm && song.bpm * song.bpm <= 60_000_000 ==> tempo_read(song.bpm, 120) == song.bpm,
        song.channels < 0x1_0000 ==> (read_midi_events(midi_file_bytes(song)) matches Ok((_, _, evs))
            && evs == exported_events(song)),
        song.channels < 0x1_0000 ==> import_result(midi_file_bytes(song), title)
            == Ok::<SongModel, MidiFileError>(imported_song(exported_events(song), tempo_read(song.bpm, 120), TICKS_PER_BEAT, title)),
{
    let f = midi_file_bytes(song);
    lemma_header_reads(song);
    lemma_tracks_read(song);
    let scanned = scan_tracks(f, track_count(song) as nat, 14, 120, no_events());
    assert(read_midi_events(f) == match scanned {
        Err(e) => Err(e),
        Ok((bpm, events)) => Ok((bpm, TICKS_PER_BEAT, events)),
    });
    if 4 <= song.bpm && song.bpm * song.bpm <= 60_000_000 {
        law_tempo_roundtrip(song.bpm, 120);
        let b = song.bpm as int;
        assert(60_000_000int / b <= 15_000_000) by (nonlinear_arith) requires b >= 4;
    }
}

} // verus!
