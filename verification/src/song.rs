//! A song: patterns, the order list that sequences them, and global settings.
use vstd::prelude::*;
use vstd::string::*;
use crate::pattern::{Cell, Pattern, PatternModel, empty_cell};

verus! {

/// A song is a collection of patterns with an order list.
#[derive(Debug)]
pub struct Song {
    pub title: String,
    pub bpm: u16,
    /// Ticks per row.
    pub speed: u8,
    pub patterns: Vec<Pattern>,
    /// Indices into `patterns`, in playing order.
    pub order: Vec<usize>,
    /// How many times each order entry is played (0 skips the entry).
    pub order_repeats: Vec<u8>,
    pub channels: usize,
    pub rows_per_pattern: usize,
    /// Rows per highlighted beat in the pattern editor.
    pub highlight_beat: usize,
    /// Rows per highlighted bar in the pattern editor.
    pub highlight_bar: usize,
    /// Swing amount in percent (50 = straight timing).
    pub swing: u8,
}

/// Mathematical model of a song.
pub struct SongModel {
    pub title: Seq<char>,
    pub bpm: u16,
    pub speed: u8,
    pub patterns: Seq<PatternModel>,
    pub order: Seq<usize>,
    pub order_repeats: Seq<u8>,
    pub channels: usize,
    pub rows_per_pattern: usize,
    pub highlight_beat: usize,
    pub highlight_bar: usize,
    pub swing: u8,
}

impl View for Song {
    type V = SongModel;

    open spec fn view(&self) -> SongModel {
        SongModel {
            title: self.title@,
            bpm: self.bpm,
            speed: self.speed,
            patterns: patterns_model(self.patterns@),
            order: self.order@,
            order_repeats: self.order_repeats@,
            channels: self.channels,
            rows_per_pattern: self.rows_per_pattern,
            highlight_beat: self.highlight_beat,
            highlight_bar: self.highlight_bar,
            swing: self.swing,
        }
    }
}

/// The models of a list of patterns.
pub open spec fn patterns_model(ps: Seq<Pattern>) -> Seq<PatternModel> {
    Seq::new(ps.len(), |i: int| ps[i]@)
}

/// The model of a freshly made pattern of `rows` x `channels` empty cells.
pub open spec fn empty_pattern_model(rows: usize, channels: usize) -> PatternModel {
    PatternModel {
        rows,
        channels,
        grid: Seq::new(rows as nat, |r: int| Seq::new(channels as nat, |c: int| empty_cell())),
    }
}

/// Pattern `p` has the dimensions and contents of a freshly made empty pattern.
pub open spec fn is_empty_pattern(p: &Pattern, rows: usize, channels: usize) -> bool {
    &&& p.rows == rows
    &&& p.channels == channels
    &&& p.wf()
    &&& forall|r: int, c: int| 0 <= r < rows && 0 <= c < channels ==> #[trigger] p.cell(r, c) == empty_cell()
}

/// The model of a new song with the given dimensions.
pub open spec fn new_song_model(channels: usize, rows_per_pattern: usize) -> SongModel {
    SongModel {
        title: seq!['U', 'n', 't', 'i', 't', 'l', 'e', 'd'],
        bpm: 120,
        speed: 6,
        patterns: seq![empty_pattern_model(rows_per_pattern, channels)],
        order: seq![0usize],
        order_repeats: seq![1u8],
        channels,
        rows_per_pattern,
        highlight_beat: 4,
        highlight_bar: 16,
        swing: 50,
    }
}

proof fn lemma_empty_pattern_model(p: &Pattern, rows: usize, channels: usize)
    requires
        is_empty_pattern(p, rows, channels),
    ensures
        p@ == empty_pattern_model(rows, channels),
{
    let g = p@.grid;
    let e = empty_pattern_model(rows, channels).grid;
    assert forall|r: int| 0 <= r < rows implies #[trigger] g[r] =~= e[r] by {
        assert(p.data@[r]@.len() == channels);
        assert forall|c: int| 0 <= c < channels implies g[r][c] == e[r][c] by {
            assert(p.cell(r, c) == empty_cell());
        }
    }
    assert(g =~= e);
}

impl Song {
    /// A new song with one empty pattern in its order list.
    pub fn new(channels: usize, rows_per_pattern: usize) -> (s: Self)
        ensures
            s@ == new_song_model(channels, rows_per_pattern),
            is_empty_pattern(&s.patterns@[0], rows_per_pattern, channels),
    {
        let initial_pattern = Pattern::new(rows_per_pattern, channels);
        proof { lemma_empty_pattern_model(&initial_pattern, rows_per_pattern, channels); }
        let mut patterns: Vec<Pattern> = Vec::new();
        patterns.push(initial_pattern);
        let mut order: Vec<usize> = Vec::new();
        order.push(0);
        let mut order_repeats: Vec<u8> = Vec::new();
        order_repeats.push(1);
        proof { reveal_strlit("Untitled"); }
        let s = Song {
            title: String::from_str("Untitled"),
            bpm: 120,
            speed: 6,
            patterns,
            order,
            order_repeats,
            channels,
            rows_per_pattern,
            highlight_beat: 4,
            highlight_bar: 16,
            swing: 50,
        };
        proof {
            assert(s@.patterns =~= new_song_model(channels, rows_per_pattern).patterns);
            assert(s@.order =~= seq![0usize]);
            assert(s.title@ =~= seq!['U', 'n', 't', 'i', 't', 'l', 'e', 'd']);
            assert(s@.order_repeats =~= seq![1u8]);
        }
        s
    }

    /// Number of patterns in the song.
    pub fn current_pattern_count(&self) -> (n: usize)
        ensures
            n == self.patterns@.len(),
    {
        self.patterns.len()
    }

    /// Append a new empty pattern of the song's dimensions and return its index.
    /// The order list is left unchanged.
    pub fn add_pattern(&mut self) -> (idx: usize)
        ensures
            idx == old(self).patterns@.len(),
            final(self)@ == (SongModel {
                patterns: old(self)@.patterns.push(empty_pattern_model(old(self).rows_per_pattern, old(self).channels)),
                ..old(self)@
            }),
            is_empty_pattern(&final(self).patterns@[idx as int], old(self).rows_per_pattern, old(self).channels),
    {
        let idx = self.patterns.len();
        let p = Pattern::new(self.rows_per_pattern, self.channels);
        proof { lemma_empty_pattern_model(&p, self.rows_per_pattern, self.channels); }
        self.patterns.push(p);
        proof {
            assert(self@.patterns =~= old(self)@.patterns.push(empty_pattern_model(old(self).rows_per_pattern, old(self).channels)));
        }
        idx
    }

    /// The pattern at `index`, if there is one.
    pub fn get_pattern(&self, index: usize) -> (p: Option<&Pattern>)
        ensures
            index < self.patterns@.len() ==> p == Some(&self.patterns@[index as int]),
            index >= self.patterns@.len() ==> p is None,
    {
        if index < self.patterns.len() {
            Some(&self.patterns[index])
        } else {
            None
        }
    }

    /// Mutable access to the pattern at `index`, if there is one; nothing else changes.
    pub fn get_pattern_mut(&mut self, index: usize) -> (p: Option<&mut Pattern>)
        ensures
            index < old(self).patterns@.len() <==> p is Some,
            p matches Some(pr) ==> {
                &&& *pr == old(self).patterns@[index as int]
                &&& final(self).patterns@ == old(self).patterns@.update(index as int, *final(pr))
            },
            p is None ==> final(self).patterns@ == old(self).patterns@,
            final(self).title == old(self).title,
            final(self).bpm == old(self).bpm,
            final(self).speed == old(self).speed,
            final(self).order == old(self).order,
            final(self).order_repeats == old(self).order_repeats,
            final(self).channels == old(self).channels,
            final(self).rows_per_pattern == old(self).rows_per_pattern,
            final(self).highlight_beat == old(self).highlight_beat,
            final(self).highlight_bar == old(self).highlight_bar,
            final(self).swing == old(self).swing,
    {
        if index < self.patterns.len() {
            Some(&mut self.patterns[index])
        } else {
            None
        }
    }

    /// A copy of this song with the same model.
    pub fn duplicate(&self) -> (s: Self)
        ensures
            s@ == self@,
    {
        let mut patterns: Vec<Pattern> = Vec::new();
        let mut i: usize = 0;
        while i < self.patterns.len()
            invariant
                i <= self.patterns@.len(),
                patterns@.len() == i,
                forall|j: int| 0 <= j < i ==> #[trigger] patterns@[j]@ == self.patterns@[j]@,
            decreases self.patterns@.len() - i,
        {
            patterns.push(self.patterns[i].duplicate());
            i = i + 1;
        }
        let s = Song {
            title: self.title.clone(),
            bpm: self.bpm,
            speed: self.speed,
            patterns,
            order: self.order.clone(),
            order_repeats: self.order_repeats.clone(),
            channels: self.channels,
            rows_per_pattern: self.rows_per_pattern,
            highlight_beat: self.highlight_beat,
            highlight_bar: self.highlight_bar,
            swing: self.swing,
        };
        proof {
            assert(s@.patterns =~= self@.patterns);
        }
        s
    }
}

} // verus!
