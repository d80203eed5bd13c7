//! Built-in synthesizer patch selection and the noise generator's state update.
use vstd::prelude::*;
use vstd::string::*;

verus! {

/// Available synth patches.
#[derive(Debug, Clone, Copy, PartialEq, Eq)]
pub enum Patch {
    Saw,
    Square,
    Sine,
    Triangle,
    Pulse,
    FmBell,
    Organ,
    Noise,
}

/// The patch selected by a program number: programs cycle through the eight patches.
pub open spec fn patch_of_index(i: int) -> Patch {
    if i == 0 { Patch::Saw }
    else if i == 1 { Patch::Square }
    else if i == 2 { Patch::Sine }
    else if i == 3 { Patch::Triangle }
    else if i == 4 { Patch::Pulse }
    else if i == 5 { Patch::FmBell }
    else if i == 6 { Patch::Organ }
    else { Patch::Noise }
}

/// The display name of a patch.
pub open spec fn patch_name(p: Patch) -> Seq<char> {
    match p {
        Patch::Saw => seq!['S', 'a', 'w'],
        Patch::Square => seq!['S', 'q', 'u', 'a', 'r', 'e'],
        Patch::Sine => seq!['S', 'i', 'n', 'e'],
        Patch::Triangle => seq!['T', 'r', 'i', 'a', 'n', 'g', 'l', 'e'],
        Patch::Pulse => seq!['P', 'u', 'l', 's', 'e'],
        Patch::FmBell => seq!['F', 'M', ' ', 'B', 'e', 'l', 'l'],
        Patch::Organ => seq!['O', 'r', 'g', 'a', 'n'],
        Patch::Noise => seq!['N', 'o', 'i', 's', 'e'],
    }
}

impl Patch {
    /// Map a MIDI program number onto one of the eight patches (wrapping every 8).
    pub fn from_program(program: u8) -> (p: Patch)
        ensures
            p == patch_of_index((program % 8) as int),
    {
        match program % 8 {
            0 => Patch::Saw,
            1 => Patch::Square,
            2 => Patch::Sine,
            3 => Patch::Triangle,
            4 => Patch::Pulse,
            5 => Patch::FmBell,
            6 => Patch::Organ,
            _ => Patch::Noise,
        }
    }


    /// The display name of the patch.
    pub fn name(self) -> (s: &'static str)
        ensures
            s@ == patch_name(self),
    {
        match self {
            Patch::Saw => { proof { reveal_strlit("Saw"); } "Saw" },
            Patch::Square => { proof { reveal_strlit("Square"); } "Square" },
            Patch::Sine => { proof { reveal_strlit("Sine"); } "Sine" },
            Patch::Triangle => { proof { reveal_strlit("Triangle"); } "Triangle" },
            Patch::Pulse => { proof { reveal_strlit("Pulse"); } "Pulse" },
            Patch::FmBell => { proof { reveal_strlit("FM Bell"); } "FM Bell" },
            Patch::Organ => { proof { reveal_strlit("Organ"); } "Organ" },
            Patch::Noise => { proof { reveal_strlit("Noise"); } "Noise" },
        }
    }
}

/// Every program number selects a patch, and programs eight apart select the same one.
pub proof fn law_patch_period(program: u8)
    requires
        program as int + 8 <= 255,
    ensures
        patch_of_index((program % 8) as int) == patch_of_index(((program + 8) % 8) as int),
{
}

/// The number of synth waveforms an instrument can select (one per patch).
pub const WAVEFORM_COUNT: u8 = 8;

/// The waveform `delta` steps away from `waveform`, wrapping around the
/// `WAVEFORM_COUNT` waveforms in both directions.
pub open spec fn waveform_after(waveform: int, delta: int) -> int {
    (waveform + delta) % (WAVEFORM_COUNT as int)
}

/// The waveform index `delta` steps away from `waveform` (see `waveform_after`).
pub fn stepped_waveform(waveform: u8, delta: i32) -> (r: u8)
    requires
        waveform + delta <= i32::MAX,
    ensures
        r == waveform_after(waveform as int, delta as int),
        r < WAVEFORM_COUNT,
{
    let shifted: i64 = waveform as i64 + delta as i64 + 0x8000_0000i64;
    let lifted: u64 = shifted as u64;
    let r: u64 = lifted % 8;
    assert((waveform + delta + 0x8000_0000) % 8 == (waveform + delta) % 8);
    r as u8
}

/// Stepping a waveform by `delta` and then by `-delta` gives the waveform back.
pub proof fn law_waveform_step_undone(waveform: u8, delta: int)
    requires
        waveform < WAVEFORM_COUNT,
    ensures
        waveform_after(waveform_after(waveform as int, delta), -delta) == waveform,
{
    let w = waveform as int;
    let m = (w + delta) % 8;
    assert(((m - delta) % 8) == w) by (nonlinear_arith)
        requires
            m == (w + delta) % 8,
            0 <= w < 8,
    {
        let q = (w + delta) / 8;
        assert(w + delta == 8 * q + m);
        assert(m - delta == w - 8 * q);
        assert((w - 8 * q) % 8 == w);
    }
}

/// The filter shape of a synth instrument.
#[derive(Debug, Clone, Copy, PartialEq, Eq, Structural)]
pub enum FilterType {
    LowPass,
    HighPass,
    BandPass,
}

/// The filter shape after one step round the cycle LowPass, HighPass, BandPass:
/// forwards when `up`, backwards otherwise.
pub open spec fn filter_after(f: FilterType, up: bool) -> FilterType {
    match (f, up) {
        (FilterType::LowPass, true) => FilterType::HighPass,
        (FilterType::HighPass, true) => FilterType::BandPass,
        (FilterType::BandPass, true) => FilterType::LowPass,
        (FilterType::LowPass, false) => FilterType::BandPass,
        (FilterType::HighPass, false) => FilterType::LowPass,
        (FilterType::BandPass, false) => FilterType::HighPass,
    }
}

impl FilterType {
    /// The next filter shape in the cycle when `up`, the previous one otherwise.
    pub fn stepped(self, up: bool) -> (r: FilterType)
        ensures
            r == filter_after(self, up),
    {
        match (self, up) {
            (FilterType::LowPass, true) => FilterType::HighPass,
            (FilterType::HighPass, true) => FilterType::BandPass,
            (FilterType::BandPass, true) => FilterType::LowPass,
            (FilterType::LowPass, false) => FilterType::BandPass,
            (FilterType::HighPass, false) => FilterType::LowPass,
            (FilterType::BandPass, false) => FilterType::HighPass,
        }
    }
}

/// A step one way round the filter cycle followed by a step the other way comes back to
/// the same filter shape, and three steps the same way go all round.
pub proof fn law_filter_cycle(f: FilterType, up: bool)
    ensures
        filter_after(filter_after(f, up), !up) == f,
        filter_after(filter_after(filter_after(f, up), up), up) == f,
{
}

/// ADSR envelope stage.
#[derive(Debug, Clone, Copy, PartialEq, Eq, Structural)]
pub enum EnvStage {
    Attack,
    Decay,
    Sustain,
    Release,
    Off,
}

/// The stage after a note release: every sounding stage moves to `Release`; a finished
/// envelope stays `Off`.
pub open spec fn stage_after_release(stage: EnvStage) -> EnvStage {
    if stage == EnvStage::Off { EnvStage::Off } else { EnvStage::Release }
}

/// The envelope stage after releasing the note (see `stage_after_release`).
pub fn release_stage(stage: EnvStage) -> (r: EnvStage)
    ensures
        r == stage_after_release(stage),
{
    if stage != EnvStage::Off { EnvStage::Release } else { stage }
}

/// An envelope is active until it reaches `Off`.
pub fn stage_is_active(stage: EnvStage) -> (b: bool)
    ensures
        b == (stage != EnvStage::Off),
{
    stage != EnvStage::Off
}

/// Linear congruential step of the noise generator: `state * 1664525 + 1013904223`
/// modulo 2^32.
pub open spec fn lcg_next(state: u32) -> u32 {
    ((state as int * 1664525 + 1013904223) % 0x1_0000_0000) as u32
}

/// Noise generator state (a 32-bit linear congruential generator).
#[derive(Debug, Clone, Copy)]
pub struct NoiseGen {
    pub state: u32,
}

impl NoiseGen {
    /// A generator seeded with `seed`: its state starts at `seed + 1` (wrapping).
    pub fn new(seed: u32) -> (g: Self)
        ensures
            g.state == ((seed as int + 1) % 0x1_0000_0000) as u32,
    {
        let state: u32 = if seed == u32::MAX { 0 } else { seed + 1 };
        NoiseGen { state }
    }

    /// Advance the generator and return the new state; the caller maps it to a sample.
    pub fn advance(&mut self) -> (r: u32)
        ensures
            r == lcg_next(old(self).state),
            final(self).state == r,
    {
        let next: u64 = (self.state as u64 * 1664525 + 1013904223) % 0x1_0000_0000;
        self.state = next as u32;
        self.state
    }
}

/// The seed of a voice's noise generator, from its note and channel.
pub fn noise_seed(note: u8, channel: u8) -> (s: u32)
    ensures
        s == note as int * 7919 + channel as int * 104729,
{
    note as u32 * 7919 + channel as u32 * 104729
}


/// The position of the first `false` in `active`.
pub open spec fn first_inactive(active: Seq<bool>) -> Option<int>
    decreases active.len(),
{
    if active.len() == 0 {
        None
    } else {
        match first_inactive(active.drop_last()) {
            Some(i) => Some(i),
            None => if !active.last() { Some(active.len() - 1) } else { None },
        }
    }
}

/// Which voice makes room for a new one in a pool of `max_voices`: none while the pool
/// has room; otherwise the first silent voice, or else the oldest (the first).
pub open spec fn eviction(active: Seq<bool>, max_voices: int) -> Option<int> {
    if active.len() < max_voices {
        None
    } else {
        match first_inactive(active) {
            Some(i) => Some(i),
            None => if active.len() > 0 { Some(0) } else { None },
        }
    }
}

/// The voice to remove before adding one (see `eviction`); `active` holds each
/// voice's activity, oldest first.
pub fn voice_to_evict(active: &Vec<bool>, max_voices: usize) -> (r: Option<usize>)
    ensures
        match eviction(active@, max_voices as int) {
            Some(i) => r == Some(i as usize),
            None => r is None,
        },
{
    let n = active.len();
    if n < max_voices {
        return None;
    }
    let mut i: usize = 0;
    while i < n
        invariant
            n == active@.len(),
            n >= max_voices,
            i <= n,
            first_inactive(active@.take(i as int)) is None,
        decreases n - i,
    {
        proof { assert(active@.take(i as int + 1).drop_last() =~= active@.take(i as int)); }
        if !active[i] {
            proof {
                let t = active@.take(i as int + 1);
                assert(t.last() == active@[i as int]);
                assert(first_inactive(t) == Some(i as int));
                lemma_first_inactive_prefix(active@, i as int + 1);
            }
            return Some(i);
        }
        i = i + 1;
    }
    proof { assert(active@.take(n as int) =~= active@); }
    if n > 0 { Some(0) } else { None }
}

proof fn lemma_first_inactive_prefix(s: Seq<bool>, k: int)
    requires
        0 < k <= s.len(),
        first_inactive(s.take(k)) is Some,
    ensures
        first_inactive(s) == first_inactive(s.take(k)),
    decreases s.len() - k,
{
    if k < s.len() {
        assert(s.take(k + 1).drop_last() =~= s.take(k));
        lemma_first_inactive_prefix(s, k + 1);
    } else {
        assert(s.take(k) =~= s);
    }
}

} // verus!
