//! Following an external MIDI clock: 24 pulses make a beat and `speed` tracker ticks
//! make a row, so a tracker tick falls every `24 / speed` pulses (at least every pulse).
use vstd::prelude::*;
use crate::editor::ClockMode;

verus! {

/// MIDI clock pulses per beat.
pub const MIDI_CLOCKS_PER_BEAT: u32 = 24;

/// Pulses per tracker tick at `speed` ticks per row.
pub open spec fn pulses_per_tick(speed: u8) -> int {
    let per: int = (MIDI_CLOCKS_PER_BEAT as int) / (speed as int);
    if per >= 1 { per } else { 1 }
}

/// One pulse counted from `count`: the new count and whether a tracker tick falls.
pub open spec fn pulse(count: int, speed: u8) -> (int, bool) {
    if count + 1 >= pulses_per_tick(speed) { (0, true) } else { (count + 1, false) }
}

/// The count after `k` pulses from `count`.
pub open spec fn count_after(count: int, speed: u8, k: nat) -> int
    decreases k,
{
    if k == 0 { count } else { pulse(count_after(count, speed, (k - 1) as nat), speed).0 }
}

/// The tracker ticks that fall during `k` pulses from `count`.
pub open spec fn ticks_after(count: int, speed: u8, k: nat) -> nat
    decreases k,
{
    if k == 0 {
        0
    } else {
        ticks_after(count, speed, (k - 1) as nat) + if pulse(count_after(count, speed, (k - 1) as nat), speed).1 { 1nat } else { 0nat }
    }
}

/// The clock source and the pulses counted towards the next tracker tick.
pub struct ClockSync {
    mode: ClockMode,
    count: u32,
}

impl ClockSync {
    #[verifier::type_invariant]
    spec fn counted_below_a_beat(self) -> bool {
        self.count < MIDI_CLOCKS_PER_BEAT
    }

    /// The internal clock, nothing counted.
    pub fn new() -> (c: Self)
        ensures
            c.mode_view() == ClockMode::Internal,
            c.count_view() == 0,
    {
        ClockSync { mode: ClockMode::Internal, count: 0 }
    }

    pub closed spec fn mode_view(self) -> ClockMode {
        self.mode
    }

    pub closed spec fn count_view(self) -> int {
        self.count as int
    }

    /// Where the clock comes from.
    pub fn mode(&self) -> (m: ClockMode)
        ensures
            m == self.mode_view(),
    {
        self.mode
    }

    /// Pulses counted since the last tracker tick.
    pub fn count(&self) -> (n: u32)
        ensures
            n == self.count_view(),
    {
        self.count
    }

    /// Switch between the internal clock and an external one; switching to the
    /// external clock starts counting afresh.
    pub fn toggle_mode(&mut self)
        ensures
            old(self).mode_view() == ClockMode::Internal ==> final(self).mode_view() == ClockMode::ExternalMidi
                && final(self).count_view() == 0,
            old(self).mode_view() == ClockMode::ExternalMidi ==> final(self).mode_view() == ClockMode::Internal
                && final(self).count_view() == old(self).count_view(),
    {
        proof { use_type_invariant(&*self); }
        match self.mode {
            ClockMode::Internal => {
                self.mode = ClockMode::ExternalMidi;
                self.count = 0;
            },
            ClockMode::ExternalMidi => {
                self.mode = ClockMode::Internal;
            },
        }
    }

    /// One pulse of the external clock while `playing` at `speed` ticks per row:
    /// returns whether a tracker tick falls now (see `pulse`). Pulses count only when
    /// the external clock is followed and the song plays.
    pub fn clock_pulse(&mut self, playing: bool, speed: u8) -> (tick: bool)
        requires
            speed > 0,
        ensures
            final(self).mode_view() == old(self).mode_view(),
            if old(self).mode_view() == ClockMode::ExternalMidi && playing {
                (final(self).count_view(), tick) == pulse(old(self).count_view(), speed)
            } else {
                !tick && final(self).count_view() == old(self).count_view()
            },
    {
        proof { use_type_invariant(&*self); }
        if self.mode != ClockMode::ExternalMidi || !playing {
            return false;
        }
        let n = self.count + 1;
        let per = MIDI_CLOCKS_PER_BEAT / speed as u32;
        let per = if per >= 1 { per } else { 1 };
        if n >= per {
            self.count = 0;
            true
        } else {
            self.count = n;
            false
        }
    }

    /// The external Start message: applies (and the count restarts) only when the
    /// external clock is followed; the caller then plays from the song's start.
    pub fn start(&mut self) -> (applies: bool)
        ensures
            applies == (old(self).mode_view() == ClockMode::ExternalMidi),
            final(self).mode_view() == old(self).mode_view(),
            final(self).count_view() == if applies { 0 } else { old(self).count_view() },
    {
        if self.mode == ClockMode::ExternalMidi {
            self.count = 0;
            true
        } else {
            false
        }
    }

    /// The external Continue message: as Start, but the caller resumes where it stopped.
    pub fn resume(&mut self) -> (applies: bool)
        ensures
            applies == (old(self).mode_view() == ClockMode::ExternalMidi),
            final(self).mode_view() == old(self).mode_view(),
            final(self).count_view() == if applies { 0 } else { old(self).count_view() },
    {
        self.start()
    }

    /// The external Stop message: applies only when the external clock is followed;
    /// the caller then stops and silences the notes.
    pub fn stop(&self) -> (applies: bool)
        ensures
            applies == (self.mode_view() == ClockMode::ExternalMidi),
    {
        self.mode == ClockMode::ExternalMidi
    }
}

/// Counting from zero, the pulses before the `pulses_per_tick`-th bring no tick, and
/// that pulse brings exactly one and starts the count again.
pub proof fn law_one_tick_per_period(speed: u8, k: nat)
    requires
        speed > 0,
        k < pulses_per_tick(speed),
    ensures
        count_after(0, speed, k) == k,
        ticks_after(0, speed, k) == 0,
        count_after(0, speed, pulses_per_tick(speed) as nat) == 0,
        ticks_after(0, speed, pulses_per_tick(speed) as nat) == 1,
    decreases k,
{
    let p = pulses_per_tick(speed);
    if k > 0 {
        law_one_tick_per_period(speed, (k - 1) as nat);
    }
    lemma_counts_below(speed, (p - 1) as nat);
    assert(count_after(0, speed, p as nat) == pulse(count_after(0, speed, (p - 1) as nat), speed).0);
}

proof fn lemma_counts_below(speed: u8, k: nat)
    requires
        speed > 0,
        k < pulses_per_tick(speed),
    ensures
        count_after(0, speed, k) == k,
        ticks_after(0, speed, k) == 0,
    decreases k,
{
    if k > 0 {
        lemma_counts_below(speed, (k - 1) as nat);
    }
}

} // verus!
