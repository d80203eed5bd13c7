use vstd::prelude::*;
use crate::editor::SampleField;
use crate::midi_file::{be16_at, be32_at};
use crate::text::{eq_ignore_ascii_case, lower_ascii, parse_decimal, parse_unsigned, str_equal};

verus! {

/// A loaded audio sample. `F` is the type of one stereo frame and `R` the type of the
/// sample rate; the library never looks inside either.
pub struct Sample<F, R> {
    pub name: String,
    /// Stereo frames.
    pub data: Vec<F>,
    pub sample_rate: R,
    /// MIDI note at which the sample plays at its original pitch.
    pub base_note: u8,
    /// Playback start frame.
    pub trim_start: usize,
    /// Playback end frame (exclusive); 0 means the whole sample.
    pub trim_end: usize,
    pub loop_enabled: bool,
    pub loop_start: usize,
    pub loop_end: usize,
    /// The file the sample was loaded from.
    pub source_path: Option<String>,
}

/// The effective end frame: `trim_end`, unless it is 0 or past the data.
pub open spec fn end_frame(len: int, trim_end: int) -> int {
    if trim_end == 0 || trim_end > len {
        len
    } else {
        trim_end
    }
}

/// The effective loop end: `loop_end`, unless it is 0 or past the end frame.
pub open spec fn loop_end_frame(end: int, loop_end: int) -> int {
    if loop_end == 0 || loop_end > end {
        end
    } else {
        loop_end
    }
}

/// The effective loop start: `loop_start`, at most one frame before the loop end.
pub open spec fn loop_start_frame(loop_end: int, loop_start: int) -> int {
    let last = if loop_end >= 1 { loop_end - 1 } else { 0 };
    if loop_start <= last {
        loop_start
    } else {
        last
    }
}

impl<F, R> Sample<F, R> {
    pub open spec fn spec_end(&self) -> int {
        end_frame(self.data@.len() as int, self.trim_end as int)
    }

    pub open spec fn spec_loop_end(&self) -> int {
        loop_end_frame(self.spec_end(), self.loop_end as int)
    }

    pub open spec fn spec_loop_start(&self) -> int {
        loop_start_frame(self.spec_loop_end(), self.loop_start as int)
    }

    /// Effective end frame (`trim_end`, or the data length).
    pub fn end(&self) -> (r: usize)
        ensures
            r == self.spec_end(),
    {
        if self.trim_end == 0 || self.trim_end > self.data.len() {
            self.data.len()
        } else {
            self.trim_end
        }
    }

    /// Effective loop end (`loop_end`, or `end()`).
    pub fn effective_loop_end(&self) -> (r: usize)
        ensures
            r == self.spec_loop_end(),
    {
        let end = self.end();
        if self.loop_end == 0 || self.loop_end > end {
            end
        } else {
            self.loop_end
        }
    }

    /// Effective loop start, clamped below the loop end.
    pub fn effective_loop_start(&self) -> (r: usize)
        ensures
            r == self.spec_loop_start(),
    {
        let le = self.effective_loop_end();
        let last = if le >= 1 { le - 1 } else { 0 };
        if self.loop_start <= last {
            self.loop_start
        } else {
            last
        }
    }

    /// Total number of frames.
    pub fn len(&self) -> (r: usize)
        ensures
            r == self.data@.len(),
    {
        self.data.len()
    }

    /// The frame at `idx`, or the frame type's default (silence) past the end.
    pub fn frame_at(&self, idx: usize) -> (r: F)
        where F: Copy + Default,
        ensures
            idx < self.data@.len() ==> r == self.data@[idx as int],
    {
        if idx < self.data.len() {
            self.data[idx]
        } else {
            F::default()
        }
    }

    /// Overwrite the playback settings that `meta` gives.
    pub fn apply_meta(&mut self, meta: &SampleMeta)
        ensures
            *final(self) == with_meta(*old(self), *meta),
    {
        if let Some(b) = meta.base_note {
            self.base_note = b;
        }
        if let Some(s) = meta.loop_start {
            self.loop_start = s;
        }
        if let Some(e) = meta.loop_end {
            self.loop_end = e;
        }
        if meta.loop_enabled == Some(true) {
            self.loop_enabled = true;
        }
    }
}

/// Whatever the settings, the playable region is ordered: the loop start lies before
/// the loop end (or at 0), the loop end lies within the end frame, and the end frame
/// within the data.
pub proof fn law_sample_region_ordered<F, R>(s: Sample<F, R>)
    ensures
        0 <= s.spec_loop_start() <= s.spec_loop_end(),
        s.spec_loop_end() <= s.spec_end() <= s.data@.len(),
        s.spec_loop_end() > 0 ==> s.spec_loop_start() < s.spec_loop_end(),
        s.spec_loop_end() == 0 ==> s.spec_loop_start() == 0,
{
}

/// Per-sample settings read from a sample directory's metadata file.
#[derive(Clone, Copy, Debug, PartialEq, Eq, Structural)]
pub struct SampleMeta {
    pub base_note: Option<u8>,
    pub loop_enabled: Option<bool>,
    pub loop_start: Option<usize>,
    pub loop_end: Option<usize>,
}

impl Default for SampleMeta {
    fn default() -> (r: Self)
        ensures
            r.base_note is None && r.loop_enabled is None && r.loop_start is None && r.loop_end is None,
    {
        SampleMeta { base_note: None, loop_enabled: None, loop_start: None, loop_end: None }
    }
}

/// Convert interleaved samples with `channels` channels into stereo frames: the first
/// channel goes left, the second (or the first again, for mono) right, and the rest
/// are dropped, as is a trailing partial frame.
pub fn to_stereo_frames<T: Copy>(samples: &[T], channels: usize) -> (r: Vec<[T; 2]>)
    requires
        channels > 0,
    ensures
        r@.len() == samples@.len() as int / channels as int,
        forall|i: int| 0 <= i < r@.len() ==> #[trigger] r@[i] == [
            samples@[i * channels],
            if channels > 1 { samples@[i * channels + 1] } else { samples@[i * channels] },
        ],
{
    let total = samples.len();
    let num_frames = total / channels;
    let mut frames: Vec<[T; 2]> = Vec::new();
    let mut i: usize = 0;
    while i < num_frames
        invariant
            channels > 0,
            total == samples@.len(),
            num_frames == samples@.len() as int / channels as int,
            i <= num_frames,
            frames@.len() == i,
            forall|k: int| 0 <= k < i ==> #[trigger] frames@[k] == [
                samples@[k * channels],
                if channels > 1 { samples@[k * channels + 1] } else { samples@[k * channels] },
            ],
        decreases num_frames - i,
    {
        proof {
            assert((i + 1) * channels <= samples@.len()) by (nonlinear_arith)
                requires
                    i < num_frames,
                    num_frames == samples@.len() as int / channels as int,
                    channels > 0,
            ;
            assert(0 <= i * channels && i * channels + channels <= samples@.len()) by (nonlinear_arith)
                requires
                    (i + 1) * channels <= samples@.len(),
            ;
        }
        let base = i * channels;
        let left = samples[base];
        let right = if channels > 1 { samples[base + 1] } else { left };
        frames.push([left, right]);
        i = i + 1;
    }
    frames
}

/// Slots for up to 256 samples, one per instrument number.
pub struct SampleBank<F, R> {
    pub samples: Vec<Option<Sample<F, R>>>,
}

/// Why a sample could not be placed in the bank.
#[derive(Clone, Copy, Debug, PartialEq, Eq, Structural)]
pub enum SampleError {
    /// The slot number is not below the number of slots.
    SlotOutOfRange(usize),
}

impl<F, R> SampleBank<F, R> {
    /// A bank of 256 empty slots.
    pub fn new() -> (b: Self)
        ensures
            b.samples@.len() == 256,
            forall|i: int| 0 <= i < 256 ==> #[trigger] b.samples@[i] is None,
    {
        let mut samples: Vec<Option<Sample<F, R>>> = Vec::new();
        let mut i: usize = 0;
        while i < 256
            invariant
                i <= 256,
                samples@.len() == i,
                forall|k: int| 0 <= k < i ==> #[trigger] samples@[k] is None,
            decreases 256 - i,
        {
            samples.push(None);
            i = i + 1;
        }
        SampleBank { samples }
    }

    /// The sample in `slot`, if the slot exists and holds one.
    pub fn get(&self, slot: usize) -> (r: Option<&Sample<F, R>>)
        ensures
            slot >= self.samples@.len() ==> r is None,
            slot < self.samples@.len() ==> match self.samples@[slot as int] {
                Some(s) => r == Some(&s),
                None => r is None,
            },
    {
        if slot < self.samples.len() {
            match &self.samples[slot] {
                Some(s) => Some(s),
                None => None,
            }
        } else {
            None
        }
    }

    /// Put `sample` into `slot`, replacing what was there.
    pub fn load(&mut self, slot: usize, sample: Sample<F, R>) -> (r: Result<(), SampleError>)
        ensures
            slot >= old(self).samples@.len() ==> r == Err::<(), SampleError>(SampleError::SlotOutOfRange(slot))
                && final(self).samples@ == old(self).samples@,
            slot < old(self).samples@.len() ==> r is Ok
                && final(self).samples@ == old(self).samples@.update(slot as int, Some(sample)),
    {
        if slot >= self.samples.len() {
            return Err(SampleError::SlotOutOfRange(slot));
        }
        self.samples.set(slot, Some(sample));
        Ok(())
    }

    /// The slots that hold a sample, in increasing order.
    pub fn loaded_slots(&self) -> (v: Vec<usize>)
        ensures
            forall|i: int, j: int| 0 <= i < j < v@.len() ==> v@[i] < v@[j],
            forall|i: int| 0 <= i < v@.len() ==> #[trigger] v@[i] < self.samples@.len()
                && self.samples@[v@[i] as int] is Some,
            forall|k: int| 0 <= k < self.samples@.len() && (#[trigger] self.samples@[k]) is Some
                ==> v@.contains(k as usize),
    {
        let mut v: Vec<usize> = Vec::new();
        let mut k: usize = 0;
        while k < self.samples.len()
            invariant
                k <= self.samples@.len(),
                forall|i: int, j: int| 0 <= i < j < v@.len() ==> v@[i] < v@[j],
                forall|i: int| 0 <= i < v@.len() ==> #[trigger] v@[i] < k && self.samples@[v@[i] as int] is Some,
                forall|m: int| 0 <= m < k && (#[trigger] self.samples@[m]) is Some ==> v@.contains(m as usize),
            decreases self.samples@.len() - k,
        {
            if self.samples[k].is_some() {
                let ghost before = v@;
                v.push(k);
                proof {
                    assert forall|m: int| 0 <= m < k + 1 && (#[trigger] self.samples@[m]) is Some implies v@.contains(m as usize) by {
                        if m < k {
                            let w = choose|w: int| 0 <= w < before.len() && before[w] == m as usize;
                            assert(v@[w] == m as usize);
                        } else {
                            assert(v@[v@.len() - 1] == m as usize);
                        }
                    }
                }
            }
            k = k + 1;
        }
        v
    }
}


/// A sample with the settings of `m` applied: each given setting replaces the sample's,
/// and looping is switched on (never off) by an explicit `true`.
pub open spec fn with_meta<F, R>(s: Sample<F, R>, m: SampleMeta) -> Sample<F, R> {
    Sample {
        base_note: match m.base_note { Some(b) => b, None => s.base_note },
        loop_start: match m.loop_start { Some(v) => v, None => s.loop_start },
        loop_end: match m.loop_end { Some(v) => v, None => s.loop_end },
        loop_enabled: s.loop_enabled || m.loop_enabled == Some(true),
        ..s
    }
}

/// Applying metadata gives the sample every setting the metadata holds: its base
/// note, loop start and loop end when given, the sample's own otherwise; looping is on
/// after an explicit `true`, and otherwise as it was. The audio and everything else
/// stay as they were.
pub proof fn law_meta_settings_taken<F, R>(s: Sample<F, R>, m: SampleMeta)
    ensures
        m.base_note matches Some(b) ==> with_meta(s, m).base_note == b,
        m.base_note is None ==> with_meta(s, m).base_note == s.base_note,
        m.loop_start matches Some(v) ==> with_meta(s, m).loop_start == v,
        m.loop_start is None ==> with_meta(s, m).loop_start == s.loop_start,
        m.loop_end matches Some(v) ==> with_meta(s, m).loop_end == v,
        m.loop_end is None ==> with_meta(s, m).loop_end == s.loop_end,
        m.loop_enabled == Some(true) ==> with_meta(s, m).loop_enabled,
        m.loop_enabled != Some(true) ==> with_meta(s, m).loop_enabled == s.loop_enabled,
        with_meta(s, m).data == s.data,
        with_meta(s, m).sample_rate == s.sample_rate,
        with_meta(s, m).trim_start == s.trim_start,
        with_meta(s, m).trim_end == s.trim_end,
        with_meta(s, m).name == s.name,
        with_meta(s, m).source_path == s.source_path,
{
}

/// Metadata of a sample directory: a tempo hint and per-sample settings keyed by the
/// slot number as it is written in the file names.
pub struct SampleDirMeta {
    pub bpm: Option<u16>,
    pub samples: Vec<(String, SampleMeta)>,
}

/// The entries of a metadata table, keys taken as character sequences.
pub open spec fn entries_view(v: Seq<(String, SampleMeta)>) -> Seq<(Seq<char>, SampleMeta)> {
    Seq::new(v.len(), |i: int| (v[i].0@, v[i].1))
}

/// The settings stored under `key` (the first entry with that key).
pub open spec fn meta_lookup(entries: Seq<(Seq<char>, SampleMeta)>, key: Seq<char>) -> Option<SampleMeta>
    decreases entries.len(),
{
    if entries.len() == 0 {
        None
    } else if entries[0].0 == key {
        Some(entries[0].1)
    } else {
        meta_lookup(entries.drop_first(), key)
    }
}

impl Default for SampleDirMeta {
    fn default() -> (r: Self)
        ensures
            r.bpm is None,
            r.samples@.len() == 0,
    {
        SampleDirMeta { bpm: None, samples: Vec::new() }
    }
}

impl SampleDirMeta {
    pub open spec fn entries(&self) -> Seq<(Seq<char>, SampleMeta)> {
        entries_view(self.samples@)
    }

    /// No key occurs twice.
    pub open spec fn wf(&self) -> bool {
        forall|i: int, j: int| 0 <= i < j < self.samples@.len() ==> #[trigger] self.samples@[i].0@ != #[trigger] self.samples@[j].0@
    }

    /// The settings stored under `key`.
    pub fn get(&self, key: &str) -> (r: Option<SampleMeta>)
        ensures
            r == meta_lookup(self.entries(), key@),
    {
        let mut i: usize = 0;
        proof { assert(self.entries().skip(0) =~= self.entries()); }
        while i < self.samples.len()
            invariant
                i <= self.samples@.len(),
                meta_lookup(self.entries(), key@) == meta_lookup(self.entries().skip(i as int), key@),
            decreases self.samples@.len() - i,
        {
            let ghost rest = self.entries().skip(i as int);
            proof {
                assert(rest[0] == (self.samples@[i as int].0@, self.samples@[i as int].1));
                assert(rest.drop_first() =~= self.entries().skip(i as int + 1));
            }
            if str_equal(self.samples[i].0.as_str(), key) {
                return Some(self.samples[i].1);
            }
            i = i + 1;
        }
        proof { assert(self.entries().skip(i as int).len() == 0); }
        None
    }
}

/// With distinct keys, each entry's settings are found under its key.
pub proof fn law_meta_lookup_finds_entry(meta: SampleDirMeta, i: int)
    requires
        meta.wf(),
        0 <= i < meta.samples@.len(),
    ensures
        meta_lookup(meta.entries(), meta.samples@[i].0@) == Some(meta.samples@[i].1),
{
    lemma_lookup_index(meta.entries(), i);
}

proof fn lemma_lookup_index(e: Seq<(Seq<char>, SampleMeta)>, i: int)
    requires
        0 <= i < e.len(),
        forall|a: int, b: int| 0 <= a < b < e.len() ==> #[trigger] e[a].0 != #[trigger] e[b].0,
    ensures
        meta_lookup(e, e[i].0) == Some(e[i].1),
    decreases i,
{
    if i > 0 {
        let t = e.drop_first();
        assert(e[0].0 != e[i].0);
        assert(t[i - 1] == e[i]);
        assert forall|a: int, b: int| 0 <= a < b < t.len() implies #[trigger] t[a].0 != #[trigger] t[b].0 by {
            assert(t[a] == e[a + 1] && t[b] == e[b + 1]);
        }
        lemma_lookup_index(t, i - 1);
    }
}

/// The audio file formats samples are loaded from.
#[derive(Clone, Copy, Debug, PartialEq, Eq, Structural)]
pub enum AudioFormat {
    Wav,
    Aiff,
}

/// The format that a file extension names, letter case aside: `wav`, or `aif`/`aiff`.
pub open spec fn format_of(ext: Seq<char>) -> Option<AudioFormat> {
    let l = lower_ascii(ext);
    if l == seq!['w', 'a', 'v'] {
        Some(AudioFormat::Wav)
    } else if l == seq!['a', 'i', 'f'] || l == seq!['a', 'i', 'f', 'f'] {
        Some(AudioFormat::Aiff)
    } else {
        None
    }
}

/// The format that the extension `ext` names.
pub fn format_for_extension(ext: &str) -> (r: Option<AudioFormat>)
    ensures
        r == format_of(ext@),
{
    proof {
        reveal_strlit("wav");
        reveal_strlit("aif");
        reveal_strlit("aiff");
        assert(lower_ascii("wav"@) =~= seq!['w', 'a', 'v']);
        assert(lower_ascii("aif"@) =~= seq!['a', 'i', 'f']);
        assert(lower_ascii("aiff"@) =~= seq!['a', 'i', 'f', 'f']);
    }
    if eq_ignore_ascii_case(ext, "wav") {
        Some(AudioFormat::Wav)
    } else if eq_ignore_ascii_case(ext, "aif") || eq_ignore_ascii_case(ext, "aiff") {
        Some(AudioFormat::Aiff)
    } else {
        None
    }
}

/// The position of the first `c` in `s`.
pub open spec fn first_index(s: Seq<char>, c: char) -> Option<int>
    decreases s.len(),
{
    if s.len() == 0 {
        None
    } else {
        match first_index(s.drop_last(), c) {
            Some(i) => Some(i),
            None => if s.last() == c { Some(s.len() - 1) } else { None },
        }
    }
}

/// The slot that a file stem `<slot>-<name>` names, with the slot as written.
pub open spec fn stem_slot(stem: Seq<char>) -> Option<(int, Seq<char>)> {
    match first_index(stem, '-') {
        None => None,
        Some(i) => match parse_unsigned(stem.take(i), usize::MAX as int) {
            Some(v) => Some((v, stem.take(i))),
            None => None,
        },
    }
}

/// The slot named by a file stem `<slot>-<name>`, and the slot as written there.
pub fn slot_of_stem(stem: &str) -> (r: Option<(usize, String)>)
    ensures
        match stem_slot(stem@) {
            Some((v, k)) => r matches Some((slot, key)) && slot == v && key@ == k,
            None => r is None,
        },
{
    let n = stem.unicode_len();
    let mut i: usize = 0;
    while i < n
        invariant
            n == stem@.len(),
            i <= n,
            first_index(stem@.take(i as int), '-') is None,
        decreases n - i,
    {
        proof { assert(stem@.take(i as int + 1).drop_last() =~= stem@.take(i as int)); }
        if stem.get_char(i) == '-' {
            let prefix = stem.substring_char(0, i);
            proof { assert(first_index(stem@, '-') == Some(i as int)) by { lemma_first_index_extends(stem@, i as int + 1, '-'); } }
            match parse_decimal(prefix, usize::MAX as u64) {
                Some(v) => {
                    return Some((v as usize, String::from_str(prefix)));
                },
                None => {
                    return None;
                },
            }
        }
        i = i + 1;
    }
    proof { assert(stem@.take(n as int) =~= stem@); }
    None
}

proof fn lemma_first_index_extends(s: Seq<char>, k: int, c: char)
    requires
        0 < k <= s.len(),
        first_index(s.take(k), c) is Some,
    ensures
        first_index(s, c) == first_index(s.take(k), c),
    decreases s.len() - k,
{
    if k < s.len() {
        assert(s.take(k + 1).drop_last() =~= s.take(k));
        lemma_first_index_extends(s, k + 1, c);
    } else {
        assert(s.take(k) =~= s);
    }
}


impl<F, R> SampleBank<F, R> {
    /// Which slot a file in a sample directory loads into, given its extension and its
    /// stem: a sample format and a stem `<slot>-<name>` with a slot that exists. The
    /// slot is returned with the way it is written, the key of its metadata.
    pub fn slot_for_file(&self, ext: &str, stem: &str) -> (r: Option<(usize, String)>)
        ensures
            match (format_of(ext@), stem_slot(stem@)) {
                (Some(_), Some((v, k))) => if v < self.samples@.len() {
                    r matches Some((slot, key)) && slot == v && key@ == k
                } else {
                    r is None
                },
                _ => r is None,
            },
    {
        if format_for_extension(ext).is_none() {
            return None;
        }
        match slot_of_stem(stem) {
            Some((slot, key)) => {
                if slot < self.samples.len() {
                    Some((slot, key))
                } else {
                    None
                }
            },
            None => None,
        }
    }

    /// Apply the directory metadata stored under `key` to the sample in `slot`, if both
    /// are there.
    pub fn apply_dir_meta(&mut self, slot: usize, meta: &SampleDirMeta, key: &str)
        ensures
            final(self).samples@.len() == old(self).samples@.len(),
            forall|i: int| 0 <= i < old(self).samples@.len() && i != slot ==>
                #[trigger] final(self).samples@[i] == old(self).samples@[i],
            slot < old(self).samples@.len() ==> final(self).samples@[slot as int] == match (
                old(self).samples@[slot as int],
                meta_lookup(meta.entries(), key@),
            ) {
                (Some(s), Some(m)) => Some(with_meta(s, m)),
                (cur, _) => cur,
            },
    {
        if slot >= self.samples.len() {
            return;
        }
        if let Some(m) = meta.get(key) {
            let mut cur: Option<Sample<F, R>> = None;
            std::mem::swap(&mut cur, &mut self.samples[slot]);
            if let Some(mut s) = cur {
                s.apply_meta(&m);
                self.samples.set(slot, Some(s));
            } else {
                self.samples.set(slot, None);
            }
        }
    }
}


/// Why bytes could not be read as an AIFF file.
#[derive(Clone, Copy, Debug, PartialEq, Eq, Structural)]
pub enum AiffError {
    /// Fewer than 12 bytes: no room for the `FORM` header.
    ShortHeader,
    /// The header is not `FORM` with form type `AIFF` or `AIFC`.
    NotAiff,
    /// A `COMM` chunk runs past the end of the data.
    CommRead,
    /// A `COMM` chunk is shorter than the 18 bytes it must hold.
    CommTooShort,
    /// An `SSND` chunk has no room for its 8-byte header.
    SsndHeaderRead,
    /// An `SSND` chunk declares a size below its 8-byte header.
    SsndTooShort,
    /// The sound data of an `SSND` chunk runs past the end of the data.
    SsndDataRead,
    /// No channels or no frames.
    NoAudioData,
}

/// What the chunks of an AIFF file give: the `COMM` fields, the 10 bytes of the
/// sample rate (an 80-bit extended float), and the `SSND` sound data.
pub struct AiffChunks {
    pub channels: u16,
    pub num_frames: u32,
    pub bits_per_sample: u16,
    pub rate: Vec<u8>,
    pub sound_data: Vec<u8>,
}

/// The model of `AiffChunks`.
pub struct AiffView {
    pub channels: u16,
    pub num_frames: u32,
    pub bits_per_sample: u16,
    pub rate: Seq<u8>,
    pub sound: Seq<u8>,
}

impl View for AiffChunks {
    type V = AiffView;

    open spec fn view(&self) -> AiffView {
        AiffView {
            channels: self.channels,
            num_frames: self.num_frames,
            bits_per_sample: self.bits_per_sample,
            rate: self.rate@,
            sound: self.sound_data@,
        }
    }
}

/// Nothing read yet.
pub open spec fn aiff_start() -> AiffView {
    AiffView { channels: 0, num_frames: 0, bits_per_sample: 0, rate: Seq::empty(), sound: Seq::empty() }
}

pub open spec fn tag_comm() -> Seq<u8> {
    seq![0x43u8, 0x4Fu8, 0x4Du8, 0x4Du8]
}

pub open spec fn tag_ssnd() -> Seq<u8> {
    seq![0x53u8, 0x53u8, 0x4Eu8, 0x44u8]
}

/// Reading the chunks from `pos` on, each an id, a 32-bit big-endian size and a body.
/// A `COMM` chunk sets the format fields and the rate bytes; an `SSND` chunk (after
/// its 8-byte header) the sound data; other chunks are skipped, padded to an even
/// size. Reading stops when fewer than 8 bytes remain.
pub open spec fn aiff_scan(data: Seq<u8>, pos: int, st: AiffView) -> Result<AiffView, AiffError>
    decreases data.len() - pos,
{
    if pos < 0 || pos + 8 > data.len() {
        Ok(st)
    } else {
        let size = be32_at(data, pos + 4);
        let body = pos + 8;
        let id = data.subrange(pos, pos + 4);
        if id == tag_comm() {
            if body + size > data.len() {
                Err(AiffError::CommRead)
            } else if size < 18 {
                Err(AiffError::CommTooShort)
            } else {
                aiff_scan(data, body + size, AiffView {
                    channels: be16_at(data, body) as u16,
                    num_frames: be32_at(data, body + 2) as u32,
                    bits_per_sample: be16_at(data, body + 6) as u16,
                    rate: data.subrange(body + 8, body + 18),
                    sound: st.sound,
                })
            }
        } else if id == tag_ssnd() {
            if body + 8 > data.len() {
                Err(AiffError::SsndHeaderRead)
            } else if size < 8 {
                Err(AiffError::SsndTooShort)
            } else if body + size > data.len() {
                Err(AiffError::SsndDataRead)
            } else {
                aiff_scan(data, body + size, AiffView { sound: data.subrange(body + 8, body + size), ..st })
            }
        } else {
            let skip = if size % 2 == 1 { size + 1 } else { size };
            aiff_scan(data, if body + skip > data.len() { data.len() as int } else { body + skip }, st)
        }
    }
}

/// The header is `FORM` with form type `AIFF` or `AIFC`.
pub open spec fn aiff_header_ok(data: Seq<u8>) -> bool {
    &&& data.subrange(0, 4) == seq![0x46u8, 0x4Fu8, 0x52u8, 0x4Du8]
    &&& (data.subrange(8, 12) == seq![0x41u8, 0x49u8, 0x46u8, 0x46u8] || data.subrange(8, 12) == seq![
        0x41u8,
        0x49u8,
        0x46u8,
        0x43u8,
    ])
}

/// Reading an AIFF file: the `FORM` header with form type `AIFF` or `AIFC`, then the
/// chunks; the file must end up with channels and frames.
pub open spec fn aiff_result(data: Seq<u8>) -> Result<AiffView, AiffError> {
    if data.len() < 12 {
        Err(AiffError::ShortHeader)
    } else if !aiff_header_ok(data) {
        Err(AiffError::NotAiff)
    } else {
        match aiff_scan(data, 12, aiff_start()) {
            Err(e) => Err(e),
            Ok(v) => if v.channels == 0 || v.num_frames == 0 {
                Err(AiffError::NoAudioData)
            } else {
                Ok(v)
            },
        }
    }
}

/// Whether the four bytes at `pos` are `a b c d`.
fn tag_is(data: &[u8], pos: usize, a: u8, b: u8, c: u8, d: u8) -> (r: bool)
    requires
        pos + 4 <= data@.len(),
    ensures
        r == (data@.subrange(pos as int, pos + 4) == seq![a, b, c, d]),
{
    let r = data[pos] == a && data[pos + 1] == b && data[pos + 2] == c && data[pos + 3] == d;
    proof {
        if r {
            assert(data@.subrange(pos as int, pos + 4) =~= seq![a, b, c, d]);
        } else {
            let t = data@.subrange(pos as int, pos + 4);
            assert(t[0] == data@[pos as int] && t[1] == data@[pos + 1] && t[2] == data@[pos + 2] && t[3] == data@[pos + 3]);
            assert(t != seq![a, b, c, d]) by {
                if t == seq![a, b, c, d] {
                    assert(seq![a, b, c, d][0] == a);
                    assert(seq![a, b, c, d][3] == d);
                }
            }
        }
    }
    r
}

/// Read the chunks of an AIFF file held in `data` (see `aiff_result`).
pub fn parse_aiff(data: &[u8]) -> (r: Result<AiffChunks, AiffError>)
    ensures
        match r {
            Ok(c) => aiff_result(data@) == Ok::<AiffView, AiffError>(c@),
            Err(e) => aiff_result(data@) == Err::<AiffView, AiffError>(e),
        },
{
    let len = data.len();
    if len < 12 {
        return Err(AiffError::ShortHeader);
    }
    if !(tag_is(data, 0, 0x46, 0x4F, 0x52, 0x4D) && (tag_is(data, 8, 0x41, 0x49, 0x46, 0x46) || tag_is(
        data,
        8,
        0x41,
        0x49,
        0x46,
        0x43,
    ))) {
        return Err(AiffError::NotAiff);
    }
    let mut chunks = AiffChunks {
        channels: 0,
        num_frames: 0,
        bits_per_sample: 0,
        rate: Vec::new(),
        sound_data: Vec::new(),
    };
    proof { assert(chunks@ =~= aiff_start()); }
    let mut pos: usize = 12;
    while len - pos >= 8
        invariant
            len == data@.len(),
            12 <= pos <= len,
            aiff_header_ok(data@),
            aiff_scan(data@, 12, aiff_start()) == aiff_scan(data@, pos as int, chunks@),
        decreases len - pos,
    {
        let size: usize = (data[pos + 4] as u32 * 0x100_0000 + data[pos + 5] as u32 * 0x1_0000
            + data[pos + 6] as u32 * 256 + data[pos + 7] as u32) as usize;
        let body = pos + 8;
        if tag_is(data, pos, 0x43, 0x4F, 0x4D, 0x4D) {
            if size > len - body {
                return Err(AiffError::CommRead);
            }
            if size < 18 {
                return Err(AiffError::CommTooShort);
            }
            chunks.channels = data[body] as u16 * 256 + data[body + 1] as u16;
            chunks.num_frames = data[body + 2] as u32 * 0x100_0000 + data[body + 3] as u32 * 0x1_0000
                + data[body + 4] as u32 * 256 + data[body + 5] as u32;
            chunks.bits_per_sample = data[body + 6] as u16 * 256 + data[body + 7] as u16;
            chunks.rate = vstd::slice::slice_to_vec(vstd::slice::slice_subrange(data, body + 8, body + 18));
            pos = body + size;
        } else if tag_is(data, pos, 0x53, 0x53, 0x4E, 0x44) {
            if len - body < 8 {
                return Err(AiffError::SsndHeaderRead);
            }
            if size < 8 {
                return Err(AiffError::SsndTooShort);
            }
            if size > len - body {
                return Err(AiffError::SsndDataRead);
            }
            chunks.sound_data = vstd::slice::slice_to_vec(vstd::slice::slice_subrange(data, body + 8, body + size));
            pos = body + size;
        } else {
            let rest = len - body;
            if size % 2 == 1 {
                if size >= rest {
                    pos = len;
                } else {
                    pos = body + size + 1;
                }
            } else {
                if size > rest {
                    pos = len;
                } else {
                    pos = body + size;
                }
            }
        }
    }
    if chunks.channels == 0 || chunks.num_frames == 0 {
        return Err(AiffError::NoAudioData);
    }
    Ok(chunks)
}


/// How decoded sample values are to be scaled: as 8-, 16- or 32-bit signed integers,
/// or (for an unsupported sample size) as silence.
#[derive(Clone, Copy, Debug, PartialEq, Eq, Structural)]
pub enum PcmWidth {
    Bits8,
    Bits16,
    Bits32,
    Unsupported,
}

/// Bytes per sample for a sample size in bits (rounded up).
pub open spec fn bytes_per_sample(bits: u16) -> int {
    (bits as int + 7) / 8
}

/// The scaling for a sample size in bytes; 24-bit samples are scaled as 32-bit ones.
pub open spec fn pcm_width(bps: int) -> PcmWidth {
    if bps == 1 {
        PcmWidth::Bits8
    } else if bps == 2 {
        PcmWidth::Bits16
    } else if bps == 3 || bps == 4 {
        PcmWidth::Bits32
    } else {
        PcmWidth::Unsupported
    }
}

/// A byte read as a two's-complement signed byte.
pub open spec fn signed_byte(b: u8) -> int {
    if b >= 128 {
        b - 256
    } else {
        b as int
    }
}

/// The big-endian signed sample of `bps` bytes at `off` (0 for unsupported sizes).
pub open spec fn pcm_value(d: Seq<u8>, off: int, bps: int) -> int {
    if bps == 1 {
        signed_byte(d[off])
    } else if bps == 2 {
        signed_byte(d[off]) * 256 + d[off + 1]
    } else if bps == 3 {
        signed_byte(d[off]) * 0x1_0000 + d[off + 1] * 256 + d[off + 2]
    } else if bps == 4 {
        signed_byte(d[off]) * 0x100_0000 + d[off + 1] * 0x1_0000 + d[off + 2] * 256 + d[off + 3]
    } else {
        0
    }
}

/// How many of `total` samples of `bps` bytes are decoded from `len` bytes: as many
/// as fit (all of them for a size of 0 bytes).
pub open spec fn pcm_count(len: int, bps: int, total: int) -> int {
    if bps == 0 {
        total
    } else if total <= len / bps {
        total
    } else {
        len / bps
    }
}

fn pcm_sample(d: &[u8], off: usize, bps: usize) -> (r: i32)
    requires
        off + bps <= d@.len(),
    ensures
        r == pcm_value(d@, off as int, bps as int),
{
    if bps < 1 || bps > 4 {
        return 0;
    }
    let b0 = d[off] as i32;
    let s0: i32 = if b0 >= 128 { b0 - 256 } else { b0 };
    if bps == 1 {
        s0
    } else if bps == 2 {
        s0 * 256 + d[off + 1] as i32
    } else if bps == 3 {
        s0 * 0x1_0000 + d[off + 1] as i32 * 256 + d[off + 2] as i32
    } else {
        s0 * 0x100_0000 + d[off + 1] as i32 * 0x1_0000 + d[off + 2] as i32 * 256 + d[off + 3] as i32
    }
}

/// Decode the big-endian signed samples of an AIFF sound chunk: `num_frames` frames of
/// `channels` samples of `bits_per_sample` bits each, stopping where the data ends.
pub fn decode_pcm(sound: &[u8], bits_per_sample: u16, num_frames: u32, channels: u16) -> (r: (
    PcmWidth,
    Vec<i32>,
))
    ensures
        r.0 == pcm_width(bytes_per_sample(bits_per_sample)),
        r.1@.len() == pcm_count(sound@.len() as int, bytes_per_sample(bits_per_sample), num_frames * channels),
        forall|i: int| 0 <= i < r.1@.len() ==> #[trigger] r.1@[i] == pcm_value(
            sound@,
            i * bytes_per_sample(bits_per_sample),
            bytes_per_sample(bits_per_sample),
        ),
{
    let bps: usize = ((bits_per_sample as u32 + 7) / 8) as usize;
    let width = if bps == 1 {
        PcmWidth::Bits8
    } else if bps == 2 {
        PcmWidth::Bits16
    } else if bps == 3 || bps == 4 {
        PcmWidth::Bits32
    } else {
        PcmWidth::Unsupported
    };
    proof {
        assert(num_frames * channels <= 0xFFFF_FFFFu64 * 0xFFFFu64) by (nonlinear_arith)
            requires num_frames <= 0xFFFF_FFFFu64, channels <= 0xFFFFu64;
    }
    let total: u64 = num_frames as u64 * channels as u64;
    let len = sound.len();
    let mut out: Vec<i32> = Vec::new();
    let mut i: u64 = 0;
    let mut off: usize = 0;
    proof {
        if bps > 0 {
            assert(0 <= len as int / bps as int) by (nonlinear_arith)
                requires bps > 0;
        }
    }
    while i < total
        invariant
            bps as int == bytes_per_sample(bits_per_sample),
            bps <= 8192,
            len == sound@.len(),
            total == num_frames * channels,
            i <= total,
            out@.len() == i,
            off as int == i * bps,
            off <= len,
            bps > 0 ==> i <= len as int / bps as int,
            forall|k: int| 0 <= k < out@.len() ==> #[trigger] out@[k] == pcm_value(sound@, k * bps, bps as int),
        ensures
            out@.len() == pcm_count(len as int, bps as int, total as int),
            forall|k: int| 0 <= k < out@.len() ==> #[trigger] out@[k] == pcm_value(sound@, k * bps, bps as int),
        decreases total - i,
    {
        if bps > len - off {
            proof {
                assert(bps > 0);
                assert(i == len as int / bps as int) by (nonlinear_arith)
                    requires
                        off == i * bps,
                        off <= len,
                        off + bps > len,
                        bps > 0,
                ;
                assert(i < total);
            }
            break;
        }
        let v = pcm_sample(sound, off, bps);
        out.push(v);
        proof {
            assert(off + bps == (i + 1) * bps) by (nonlinear_arith)
                requires off == i * bps;
        }
        off = off + bps;
        i = i + 1;
        proof {
            if bps > 0 {
                assert(i <= len as int / bps as int) by (nonlinear_arith)
                    requires
                        off == i * bps,
                        off <= len,
                        bps > 0,
                ;
            }
        }
    }
    (width, out)
}


/// `v` kept within `lo..=hi`.
pub open spec fn clamp_to(v: int, lo: int, hi: int) -> int {
    if v < lo { lo } else if v > hi { hi } else { v }
}

/// The field can be moved by `delta` (times 100 frames for positions) without
/// leaving 64-bit signed arithmetic, and a trim start needs a frame to point at.
pub open spec fn adjust_ok<F, R>(s: Sample<F, R>, field: SampleField, delta: i64) -> bool {
    let step = delta * 100;
    let moves = field == SampleField::TrimStart || field == SampleField::TrimEnd || field == SampleField::LoopStart
        || field == SampleField::LoopEnd;
    &&& moves ==> i64::MIN <= step <= i64::MAX
    &&& s.data@.len() <= i64::MAX
    &&& match field {
        SampleField::BaseNote => s.base_note + delta <= i64::MAX,
        SampleField::TrimStart => s.data@.len() >= 1 && s.trim_start <= i64::MAX && i64::MIN <= s.trim_start + step <= i64::MAX,
        SampleField::TrimEnd => s.trim_end <= i64::MAX && i64::MIN <= (if s.trim_end == 0 { s.data@.len() as int } else { s.trim_end as int }) + step <= i64::MAX,
        SampleField::LoopStart => s.loop_start <= i64::MAX && i64::MIN <= s.loop_start + step <= i64::MAX,
        SampleField::LoopEnd => s.loop_end <= i64::MAX && i64::MIN <= (if s.loop_end == 0 { s.spec_end() } else { s.loop_end as int }) + step <= i64::MAX,
        _ => true,
    }
}

/// The sample after moving `field` by `delta` in the sample editor: the base note
/// within 0..=127; positions by 100 frames per step, the trim start within the data,
/// the trim end within the data (from the data's end when unset), the loop start up
/// to the loop end, the loop end up to the end frame (from it when unset); the loop
/// switch toggles. The slicing fields leave the sample as it is.
pub open spec fn adjusted<F, R>(s: Sample<F, R>, field: SampleField, delta: i64) -> Sample<F, R> {
    let step = delta * 100;
    let len = s.data@.len() as int;
    match field {
        SampleField::BaseNote => Sample { base_note: clamp_to(s.base_note + delta, 0, 127) as u8, ..s },
        SampleField::TrimStart => Sample { trim_start: clamp_to(s.trim_start + step, 0, len - 1) as usize, ..s },
        SampleField::TrimEnd => Sample {
            trim_end: clamp_to((if s.trim_end == 0 { len } else { s.trim_end as int }) + step, 0, len) as usize,
            ..s
        },
        SampleField::LoopEnabled => Sample { loop_enabled: !s.loop_enabled, ..s },
        SampleField::LoopStart => Sample { loop_start: clamp_to(s.loop_start + step, 0, s.spec_loop_end()) as usize, ..s },
        SampleField::LoopEnd => Sample {
            loop_end: clamp_to((if s.loop_end == 0 { s.spec_end() } else { s.loop_end as int }) + step, 0, s.spec_end()) as usize,
            ..s
        },
        _ => s,
    }
}

fn clamp_i64(v: i64, lo: i64, hi: i64) -> (r: i64)
    requires
        lo <= hi,
    ensures
        r == clamp_to(v as int, lo as int, hi as int),
{
    if v < lo { lo } else if v > hi { hi } else { v }
}

impl<F, R> Sample<F, R> {
    /// Move `field` by `delta` (see `adjusted`).
    pub fn adjust(&mut self, field: SampleField, delta: i64)
        requires
            adjust_ok(*old(self), field, delta),
        ensures
            *final(self) == adjusted(*old(self), field, delta),
    {
        let len = self.data.len() as i64;
        match field {
            SampleField::BaseNote => {
                self.base_note = clamp_i64(self.base_note as i64 + delta, 0, 127) as u8;
            },
            SampleField::TrimStart => {
                self.trim_start = clamp_i64(self.trim_start as i64 + delta * 100, 0, len - 1) as usize;
            },
            SampleField::TrimEnd => {
                let from = if self.trim_end == 0 { len } else { self.trim_end as i64 };
                self.trim_end = clamp_i64(from + delta * 100, 0, len) as usize;
            },
            SampleField::LoopEnabled => {
                self.loop_enabled = !self.loop_enabled;
            },
            SampleField::LoopStart => {
                let max = self.effective_loop_end() as i64;
                self.loop_start = clamp_i64(self.loop_start as i64 + delta * 100, 0, max) as usize;
            },
            SampleField::LoopEnd => {
                let max = self.end() as i64;
                let from = if self.loop_end == 0 { max } else { self.loop_end as i64 };
                self.loop_end = clamp_i64(from + delta * 100, 0, max) as usize;
            },
            _ => {},
        }
    }
}

/// The number of slices after a change by `delta`, kept within 2..=64.
pub fn adjusted_slice_count(count: usize, delta: i64) -> (r: usize)
    requires
        count <= i64::MAX,
        i64::MIN <= count + delta <= i64::MAX,
    ensures
        r == clamp_to(count + delta, 2, 64),
{
    let v = count as i64 + delta;
    if v < 2 { 2 } else if v > 64 { 64 } else { v as usize }
}


/// An instrument slot as the offline renderer sees it: a sample slot, a MIDI program
/// and optional synth settings of type `P`.
pub struct ExportInstrument<P> {
    pub sample_index: Option<usize>,
    pub midi_program: u8,
    pub synth_params: Option<P>,
}

/// Which sound source renders a note.
#[derive(Clone, Copy, Debug, PartialEq, Eq, Structural)]
pub enum NoteRoute {
    /// The sample in this bank slot.
    Sample(usize),
    /// The synth settings of this instrument slot.
    CustomSynth(usize),
    /// The built-in synth with the channel's program.
    BuiltinSynth,
}

/// The source for a note of instrument `inst` (instrument 0 when the cell has none):
/// the instrument's sample when the bank holds it, else its synth settings, else the
/// built-in synth.
pub open spec fn route_of<P, F, R>(instruments: Seq<ExportInstrument<P>>, bank: Seq<Option<Sample<F, R>>>, inst: Option<u8>) -> NoteRoute {
    let i = match inst { Some(v) => v as int, None => 0 };
    if i < instruments.len() {
        match instruments[i].sample_index {
            Some(si) if si < bank.len() && bank[si as int] is Some => NoteRoute::Sample(si),
            _ => if instruments[i].synth_params is Some { NoteRoute::CustomSynth(i as usize) } else { NoteRoute::BuiltinSynth },
        }
    } else {
        NoteRoute::BuiltinSynth
    }
}

/// Choose the source for a note (see `route_of`).
pub fn route_note<P, F, R>(instruments: &Vec<ExportInstrument<P>>, bank: &SampleBank<F, R>, inst: Option<u8>) -> (r: NoteRoute)
    ensures
        r == route_of(instruments@, bank.samples@, inst),
{
    let i: usize = match inst {
        Some(v) => v as usize,
        None => 0,
    };
    if i < instruments.len() {
        if let Some(si) = instruments[i].sample_index {
            if si < bank.samples.len() && bank.samples[si].is_some() {
                return NoteRoute::Sample(si);
            }
        }
        if instruments[i].synth_params.is_some() {
            NoteRoute::CustomSynth(i)
        } else {
            NoteRoute::BuiltinSynth
        }
    } else {
        NoteRoute::BuiltinSynth
    }
}

} // verus!
