//! Pattern editing: the clipboard, block selections, cell entry, cursor movement and
//! the order list. Positions are given as the pattern index and the cursor.
use vstd::prelude::*;
use crate::editor::{ChannelType, EditHistory, after_push_undo, transposed, transpose_cell_note};
use crate::midi_file::or_u8;
use crate::pattern::{Cell, Note, NoteValue, Pattern, PatternModel, empty_cell, midi_note_of, note_index, note_value_of};
use crate::song::{Song, SongModel, empty_pattern_model};
use crate::text::str_equal;

verus! {

/// The grid has `rows` rows of `channels` cells.
pub open spec fn model_wf(p: PatternModel) -> bool {
    &&& p.grid.len() == p.rows
    &&& forall|r: int| 0 <= r < p.rows ==> #[trigger] p.grid[r].len() == p.channels
}

/// A song whose order list is not empty and names existing, well-formed patterns.
pub open spec fn song_wf(s: SongModel) -> bool {
    &&& s.order.len() > 0
    &&& forall|k: int| 0 <= k < s.order.len() ==> #[trigger] s.order[k] < s.patterns.len()
    &&& forall|i: int| 0 <= i < s.patterns.len() ==> #[trigger] model_wf(s.patterns[i])
}

/// `(r, c)` is a cell of pattern `p` of the song.
pub open spec fn cell_in(s: SongModel, p: int, r: int, c: int) -> bool {
    0 <= p < s.patterns.len() && 0 <= r < s.patterns[p].rows && 0 <= c < s.patterns[p].channels
}

/// The grid with cell `(r, c)` replaced by `x`.
pub open spec fn set_grid(g: Seq<Seq<Cell>>, r: int, c: int, x: Cell) -> Seq<Seq<Cell>> {
    g.update(r, g[r].update(c, x))
}

/// The song with pattern `p` given the grid `g`.
pub open spec fn with_grid(s: SongModel, p: int, g: Seq<Seq<Cell>>) -> SongModel {
    SongModel { patterns: s.patterns.update(p, PatternModel { grid: g, ..s.patterns[p] }), ..s }
}

/// The song with cell `(r, c)` of pattern `p` replaced by `x`.
pub open spec fn with_cell(s: SongModel, p: int, r: int, c: int, x: Cell) -> SongModel {
    with_grid(s, p, set_grid(s.patterns[p].grid, r, c, x))
}

proof fn lemma_pattern_view_wf(p: &Pattern)
    ensures
        p.wf() <==> model_wf(p@),
{
    if model_wf(p@) {
        assert forall|r: int| 0 <= r < p.rows implies #[trigger] p.data@[r]@.len() == p.channels by {
            assert(p@.grid[r] == p.data@[r]@);
        }
    }
}

/// Replace cell `(r, c)` of pattern `p` of the song.
pub fn set_song_cell(song: &mut Song, p: usize, r: usize, c: usize, x: Cell)
    requires
        song_wf(old(song)@),
        cell_in(old(song)@, p as int, r as int, c as int),
    ensures
        final(song)@ == with_cell(old(song)@, p as int, r as int, c as int, x),
        song_wf(final(song)@),
{
    proof {
        lemma_pattern_view_wf(&song.patterns@[p as int]);
    }
    let ghost old_pat = song.patterns@[p as int];
    song.patterns[p].set_cell(r, c, x);
    proof {
        let np = song.patterns@[p as int];
        assert(np@.grid =~= set_grid(old_pat@.grid, r as int, c as int, x));
        assert(song@.patterns =~= with_cell(old(song)@, p as int, r as int, c as int, x).patterns);
        assert forall|i: int| 0 <= i < song@.patterns.len() implies #[trigger] model_wf(song@.patterns[i]) by {
            if i != p {
                assert(song@.patterns[i] == old(song)@.patterns[i]);
            }
        }
    }
}

/// Putting back the grid of a pattern leaves the song as it is.
proof fn lemma_same_grid(s: SongModel, p: int)
    requires
        song_wf(s),
        0 <= p < s.patterns.len(),
    ensures
        with_grid(s, p, s.patterns[p].grid) == s,
        model_wf(s.patterns[p]),
{
    assert(model_wf(s.patterns[p]));
    assert(s.patterns.update(p, PatternModel { grid: s.patterns[p].grid, ..s.patterns[p] }) =~= s.patterns);
}

/// The cells of row `r` of pattern `p`.
pub fn row_cells(song: &Song, p: usize, r: usize) -> (cells: Vec<Cell>)
    requires
        song_wf(song@),
        p < song@.patterns.len(),
        r < song@.patterns[p as int].rows,
    ensures
        cells@ == song@.patterns[p as int].grid[r as int],
{
    let pat = &song.patterns[p];
    proof { lemma_pattern_view_wf(pat); }
    let n = pat.channels;
    let mut cells: Vec<Cell> = Vec::new();
    let mut c: usize = 0;
    while c < n
        invariant
            pat.wf(),
            r < pat.rows,
            n == pat.channels,
            c <= n,
            cells@ == pat.data@[r as int]@.take(c as int),
        decreases n - c,
    {
        cells.push(*pat.get(r, c));
        proof { assert(cells@ =~= pat.data@[r as int]@.take(c as int + 1)); }
        c = c + 1;
    }
    proof { assert(pat.data@[r as int]@.take(n as int) =~= pat.data@[r as int]@); }
    cells
}

/// Row `row` with its first `upto` cells taken from `cells`, as far as there are any.
pub open spec fn paste_prefix(row: Seq<Cell>, cells: Seq<Cell>, upto: int) -> Seq<Cell> {
    Seq::new(row.len(), |k: int| if k < upto && k < cells.len() { cells[k] } else { row[k] })
}

/// Row `row` with the clipboard `cells` pasted over its first channels.
pub open spec fn pasted_row(row: Seq<Cell>, cells: Seq<Cell>) -> Seq<Cell> {
    paste_prefix(row, cells, row.len() as int)
}

/// Row `row` with its first `upto` cells emptied.
pub open spec fn clear_prefix(row: Seq<Cell>, upto: int) -> Seq<Cell> {
    Seq::new(row.len(), |k: int| if k < upto { empty_cell() } else { row[k] })
}

/// Row `row` with every cell emptied.
pub open spec fn cleared_row(row: Seq<Cell>) -> Seq<Cell> {
    clear_prefix(row, row.len() as int)
}

/// Write `cells` over row `r` of pattern `p`, as far as the pattern has channels.
pub fn paste_row_cells(song: &mut Song, p: usize, r: usize, cells: &Vec<Cell>)
    requires
        song_wf(old(song)@),
        p < old(song)@.patterns.len(),
        r < old(song)@.patterns[p as int].rows,
    ensures
        final(song)@ == with_grid(
            old(song)@,
            p as int,
            old(song)@.patterns[p as int].grid.update(r as int, pasted_row(old(song)@.patterns[p as int].grid[r as int], cells@)),
        ),
        song_wf(final(song)@),
{
    let n = song.patterns[p].channels;
    let ghost s0 = song@;
    let ghost row0 = s0.patterns[p as int].grid[r as int];
    let mut c: usize = 0;
    proof {
        lemma_same_grid(s0, p as int);
        let g0 = s0.patterns[p as int].grid;
        assert(paste_prefix(row0, cells@, c as int) =~= row0);
        assert(g0.update(r as int, row0) =~= g0);
    }
    while c < cells.len()
        invariant
            song_wf(song@),
            p < s0.patterns.len(),
            r < s0.patterns[p as int].grid.len(),
            p < song@.patterns.len(),
            r < song@.patterns[p as int].rows,
            n == song@.patterns[p as int].channels,
            row0.len() == n,
            c <= cells@.len(),
            song@ == with_grid(s0, p as int, s0.patterns[p as int].grid.update(
                r as int,
                paste_prefix(row0, cells@, c as int),
            )),
        decreases cells@.len() - c,
    {
        let ghost prev_row = paste_prefix(row0, cells@, c as int);
        let ghost prev_grid = s0.patterns[p as int].grid.update(r as int, prev_row);
        proof {
            assert(song@.patterns[p as int].grid == prev_grid);
            assert(prev_grid[r as int] == prev_row);
        }
        if c < n {
            set_song_cell(song, p, r, c, cells[c]);
        }
        proof {
            let g = song@.patterns[p as int].grid;
            let new_row = paste_prefix(row0, cells@, c + 1);
            let want = s0.patterns[p as int].grid.update(r as int, new_row);
            if c < n {
                assert(g == set_grid(prev_grid, r as int, c as int, cells@[c as int]));
                assert(g[r as int] =~= new_row);
            } else {
                assert(prev_row =~= new_row);
            }
            assert(g =~= want);
            assert(song@.patterns =~= with_grid(s0, p as int, want).patterns);
        }
        c = c + 1;
    }
    proof {
        let fin = paste_prefix(row0, cells@, c as int);
        assert(fin =~= pasted_row(row0, cells@));
    }
}

/// Empty every cell of row `r` of pattern `p`.
pub fn clear_row(song: &mut Song, p: usize, r: usize)
    requires
        song_wf(old(song)@),
        p < old(song)@.patterns.len(),
        r < old(song)@.patterns[p as int].rows,
    ensures
        final(song)@ == with_grid(
            old(song)@,
            p as int,
            old(song)@.patterns[p as int].grid.update(r as int, cleared_row(old(song)@.patterns[p as int].grid[r as int])),
        ),
        song_wf(final(song)@),
{
    let n = song.patterns[p].channels;
    let ghost s0 = song@;
    let ghost row0 = s0.patterns[p as int].grid[r as int];
    let mut c: usize = 0;
    proof {
        lemma_same_grid(s0, p as int);
        let g0 = s0.patterns[p as int].grid;
        assert(clear_prefix(row0, c as int) =~= row0);
        assert(g0.update(r as int, row0) =~= g0);
    }
    while c < n
        invariant
            song_wf(song@),
            p < s0.patterns.len(),
            r < s0.patterns[p as int].grid.len(),
            p < song@.patterns.len(),
            r < song@.patterns[p as int].rows,
            n == song@.patterns[p as int].channels,
            row0.len() == n,
            c <= n,
            song@ == with_grid(s0, p as int, s0.patterns[p as int].grid.update(
                r as int,
                clear_prefix(row0, c as int),
            )),
        decreases n - c,
    {
        let ghost prev_row = clear_prefix(row0, c as int);
        let ghost prev_grid = s0.patterns[p as int].grid.update(r as int, prev_row);
        proof {
            assert(song@.patterns[p as int].grid == prev_grid);
        }
        set_song_cell(song, p, r, c, Cell::default());
        proof {
            let g = song@.patterns[p as int].grid;
            let new_row = clear_prefix(row0, c + 1);
            let want = s0.patterns[p as int].grid.update(r as int, new_row);
            assert(g == set_grid(prev_grid, r as int, c as int, empty_cell()));
            assert(g[r as int] =~= new_row);
            assert(g =~= want);
            assert(song@.patterns =~= with_grid(s0, p as int, want).patterns);
        }
        c = c + 1;
    }
    proof {
        let fin = clear_prefix(row0, c as int);
        assert(fin =~= cleared_row(row0));
    }
}


/// Replace row `r` of pattern `p` by `row`, which has the pattern's width.
pub fn set_song_row(song: &mut Song, p: usize, r: usize, row: Vec<Cell>)
    requires
        song_wf(old(song)@),
        p < old(song)@.patterns.len(),
        r < old(song)@.patterns[p as int].rows,
        row@.len() == old(song)@.patterns[p as int].channels,
    ensures
        final(song)@ == with_grid(old(song)@, p as int, old(song)@.patterns[p as int].grid.update(r as int, row@)),
        song_wf(final(song)@),
{
    proof { lemma_pattern_view_wf(&song.patterns@[p as int]); }
    let ghost row_v = row@;
    let ghost old_pat = song.patterns@[p as int];
    song.patterns[p].data.set(r, row);
    proof {
        let np = song.patterns@[p as int];
        assert(np@.grid =~= old_pat@.grid.update(r as int, row_v));
        assert(song@.patterns =~= with_grid(old(song)@, p as int, old(song)@.patterns[p as int].grid.update(r as int, row_v)).patterns);
        assert(model_wf(song@.patterns[p as int]));
        assert forall|i: int| 0 <= i < song@.patterns.len() implies #[trigger] model_wf(song@.patterns[i]) by {
            if i != p {
                assert(song@.patterns[i] == old(song)@.patterns[i]);
            }
        }
    }
}

/// A row of `n` empty cells.
pub open spec fn empty_row(n: usize) -> Seq<Cell> {
    Seq::new(n as nat, |c: int| empty_cell())
}

fn new_empty_row(n: usize) -> (v: Vec<Cell>)
    ensures
        v@ == empty_row(n),
{
    let mut v: Vec<Cell> = Vec::new();
    let mut c: usize = 0;
    while c < n
        invariant
            c <= n,
            v@ == Seq::new(c as nat, |k: int| empty_cell()),
        decreases n - c,
    {
        v.push(Cell::default());
        proof { assert(v@ =~= Seq::new((c + 1) as nat, |k: int| empty_cell())); }
        c = c + 1;
    }
    v
}

/// The grid with an empty row (of `n` cells) put in at row `r`; the rows below move
/// down one and the last row drops off, so the length stays.
pub open spec fn row_inserted(g: Seq<Seq<Cell>>, r: int, n: usize) -> Seq<Seq<Cell>> {
    Seq::new(g.len(), |k: int| if k < r { g[k] } else if k == r { empty_row(n) } else { g[k - 1] })
}

/// The grid with row `r` taken out; the rows below move up one and an empty row (of
/// `n` cells) fills the end, so the length stays.
pub open spec fn row_deleted(g: Seq<Seq<Cell>>, r: int, n: usize) -> Seq<Seq<Cell>> {
    Seq::new(g.len(), |k: int| if k < r { g[k] } else if k < g.len() - 1 { g[k + 1] } else { empty_row(n) })
}

/// Insert an empty row at row `r` of pattern `p` (see `row_inserted`), after recording
/// the song for undo.
pub fn insert_row_at(song: &mut Song, history: &mut EditHistory, p: usize, r: usize)
    requires
        song_wf(old(song)@),
        p < old(song)@.patterns.len(),
        r < old(song)@.patterns[p as int].rows,
    ensures
        final(history).model() == after_push_undo(old(history).model(), old(song)@),
        final(song)@ == with_grid(old(song)@, p as int, row_inserted(
            old(song)@.patterns[p as int].grid, r as int, old(song)@.patterns[p as int].channels)),
        song_wf(final(song)@),
        final(history).clipboard == old(history).clipboard,
        final(history).block_clipboard == old(history).block_clipboard,
        final(history).block_anchor == old(history).block_anchor,
{
    history.push_undo(song);
    let ghost s0 = song@;
    let ghost g0 = s0.patterns[p as int].grid;
    let rows = song.patterns[p].rows;
    let n = song.patterns[p].channels;
    proof {
        lemma_same_grid(s0, p as int);
        assert(Seq::new(g0.len(), |k: int| if k > rows - 1 { g0[k - 1] } else { g0[k] }) =~= g0);
    }
    let mut i = rows - 1;
    while i > r
        invariant
            song_wf(song@),
            0 <= r <= i < rows,
            p < s0.patterns.len(),
            rows == s0.patterns[p as int].rows,
            n == s0.patterns[p as int].channels,
            g0 == s0.patterns[p as int].grid,
            model_wf(s0.patterns[p as int]),
            song@ == with_grid(s0, p as int, Seq::new(g0.len(), |k: int| if k > i { g0[k - 1] } else { g0[k] })),
        decreases i,
    {
        let ghost before = Seq::new(g0.len(), |k: int| if k > i { g0[k - 1] } else { g0[k] });
        proof { assert(song@.patterns[p as int].grid == before); }
        let above = row_cells(song, p, i - 1);
        set_song_row(song, p, i, above);
        proof {
            let after = Seq::new(g0.len(), |k: int| if k > i - 1 { g0[k - 1] } else { g0[k] });
            assert(before.update(i as int, g0[i - 1]) =~= after);
            assert(song@.patterns =~= with_grid(s0, p as int, after).patterns);
        }
        i = i - 1;
    }
    let ghost before = Seq::new(g0.len(), |k: int| if k > r { g0[k - 1] } else { g0[k] });
    proof { assert(song@.patterns[p as int].grid == before); }
    let blank = new_empty_row(n);
    set_song_row(song, p, r, blank);
    proof {
        assert(before.update(r as int, empty_row(n)) =~= row_inserted(g0, r as int, n));
        assert(song@.patterns =~= with_grid(s0, p as int, row_inserted(g0, r as int, n)).patterns);
    }
}

/// Delete row `r` of pattern `p` (see `row_deleted`), after recording the song for
/// undo.
pub fn delete_row_at(song: &mut Song, history: &mut EditHistory, p: usize, r: usize)
    requires
        song_wf(old(song)@),
        p < old(song)@.patterns.len(),
        r < old(song)@.patterns[p as int].rows,
    ensures
        final(history).model() == after_push_undo(old(history).model(), old(song)@),
        final(song)@ == with_grid(old(song)@, p as int, row_deleted(
            old(song)@.patterns[p as int].grid, r as int, old(song)@.patterns[p as int].channels)),
        song_wf(final(song)@),
        final(history).clipboard == old(history).clipboard,
        final(history).block_clipboard == old(history).block_clipboard,
        final(history).block_anchor == old(history).block_anchor,
{
    history.push_undo(song);
    let ghost s0 = song@;
    let ghost g0 = s0.patterns[p as int].grid;
    let rows = song.patterns[p].rows;
    let n = song.patterns[p].channels;
    proof {
        lemma_same_grid(s0, p as int);
        assert(Seq::new(g0.len(), |k: int| if r <= k < r { g0[k + 1] } else { g0[k] }) =~= g0);
    }
    let mut i = r;
    while i + 1 < rows
        invariant
            song_wf(song@),
            r <= i < rows,
            p < s0.patterns.len(),
            rows == s0.patterns[p as int].rows,
            n == s0.patterns[p as int].channels,
            g0 == s0.patterns[p as int].grid,
            model_wf(s0.patterns[p as int]),
            song@ == with_grid(s0, p as int, Seq::new(g0.len(), |k: int| if r <= k < i { g0[k + 1] } else { g0[k] })),
        decreases rows - i,
    {
        let ghost before = Seq::new(g0.len(), |k: int| if r <= k < i { g0[k + 1] } else { g0[k] });
        proof { assert(song@.patterns[p as int].grid == before); }
        let below = row_cells(song, p, i + 1);
        set_song_row(song, p, i, below);
        proof {
            let after = Seq::new(g0.len(), |k: int| if r <= k < i + 1 { g0[k + 1] } else { g0[k] });
            assert(before.update(i as int, g0[i + 1]) =~= after);
            assert(song@.patterns =~= with_grid(s0, p as int, after).patterns);
        }
        i = i + 1;
    }
    let ghost before = Seq::new(g0.len(), |k: int| if r <= k < i { g0[k + 1] } else { g0[k] });
    proof { assert(song@.patterns[p as int].grid == before); }
    let blank = new_empty_row(n);
    set_song_row(song, p, i, blank);
    proof {
        assert(before.update(i as int, empty_row(n)) =~= row_deleted(g0, r as int, n));
        assert(song@.patterns =~= with_grid(s0, p as int, row_deleted(g0, r as int, n)).patterns);
    }
}

/// Deleting the row just inserted gives the grid back, but for its last row, which the
/// insertion pushed off and the deletion refills empty.
pub proof fn law_insert_then_delete(g: Seq<Seq<Cell>>, r: int, n: usize)
    requires
        0 <= r < g.len(),
    ensures
        row_deleted(row_inserted(g, r, n), r, n) == g.take(g.len() - 1).push(empty_row(n)),
{
    assert(row_deleted(row_inserted(g, r, n), r, n) =~= g.take(g.len() - 1).push(empty_row(n)));
}

/// The block between the anchor and the cursor, inclusive, as
/// (first row, last row, first channel, last channel).
pub open spec fn bounds_of(anchor: Option<(usize, usize)>, row: usize, ch: usize) -> Option<(usize, usize, usize, usize)> {
    match anchor {
        Some((ar, ac)) => Some((
            if ar <= row { ar } else { row },
            if ar <= row { row } else { ar },
            if ac <= ch { ac } else { ch },
            if ac <= ch { ch } else { ac },
        )),
        None => None,
    }
}

/// The block selection's bounds (see `bounds_of`).
pub fn block_bounds(anchor: Option<(usize, usize)>, row: usize, ch: usize) -> (r: Option<(usize, usize, usize, usize)>)
    ensures
        r == bounds_of(anchor, row, ch),
{
    match anchor {
        Some((ar, ac)) => {
            let (r0, r1) = if ar <= row { (ar, row) } else { (row, ar) };
            let (c0, c1) = if ac <= ch { (ac, ch) } else { (ch, ac) };
            Some((r0, r1, c0, c1))
        },
        None => None,
    }
}

/// The block lies inside pattern `p`.
pub open spec fn block_in(s: SongModel, p: int, b: (usize, usize, usize, usize)) -> bool {
    &&& 0 <= p < s.patterns.len()
    &&& b.0 <= b.1 < s.patterns[p].rows
    &&& b.2 <= b.3 < s.patterns[p].channels
}

/// The rows of a block of cells.
pub open spec fn block_view(v: Seq<Vec<Cell>>) -> Seq<Seq<Cell>> {
    Seq::new(v.len(), |i: int| v[i]@)
}

/// The cells of the block `b` of pattern `p`, row by row.
pub open spec fn block_cells(s: SongModel, p: int, b: (usize, usize, usize, usize)) -> Seq<Seq<Cell>> {
    Seq::new(
        (b.1 - b.0 + 1) as nat,
        |i: int| s.patterns[p].grid[b.0 + i].subrange(b.2 as int, b.3 + 1),
    )
}

/// Copy the block `b` of pattern `p`.
pub fn copy_block(song: &Song, p: usize, b: (usize, usize, usize, usize)) -> (block: Vec<Vec<Cell>>)
    requires
        song_wf(song@),
        block_in(song@, p as int, b),
    ensures
        block_view(block@) == block_cells(song@, p as int, b),
{
    let (r0, r1, c0, c1) = b;
    let mut block: Vec<Vec<Cell>> = Vec::new();
    let mut r = r0;
    while r <= r1
        invariant
            song_wf(song@),
            block_in(song@, p as int, b),
            b == (r0, r1, c0, c1),
            r0 <= r <= r1 + 1,
            block@.len() == r - r0,
            forall|i: int| 0 <= i < block@.len() ==> #[trigger] block@[i]@ == block_cells(song@, p as int, b)[i],
        decreases r1 + 1 - r,
    {
        let cells = row_cells(song, p, r);
        proof { assert(model_wf(song@.patterns[p as int])); }
        let mut row: Vec<Cell> = Vec::new();
        let n = cells.len();
        let mut c = c0;
        while c <= c1
            invariant
                c0 <= c <= c1 + 1,
                n == cells@.len(),
                c1 < n,
                row@ == cells@.subrange(c0 as int, c as int),
            decreases c1 + 1 - c,
        {
            row.push(cells[c]);
            proof { assert(row@ =~= cells@.subrange(c0 as int, c as int + 1)); }
            c = c + 1;
        }
        block.push(row);
        r = r + 1;
    }
    proof { assert(block_view(block@) =~= block_cells(song@, p as int, b)); }
    block
}

/// Row `row` with the cells of channels `c0..=c1` put through `op`: emptied, or
/// transposed by `semitones`.
pub open spec fn span_edit(row: Seq<Cell>, c0: int, c1: int, clear: bool, semitones: i8) -> Seq<Cell> {
    Seq::new(row.len(), |c: int| if c0 <= c <= c1 {
        if clear { empty_cell() } else { transposed(row[c], semitones) }
    } else {
        row[c]
    })
}

/// The grid with rows `r0..upto` edited (see `span_edit`).
pub open spec fn rows_edited(g: Seq<Seq<Cell>>, r0: int, upto: int, c0: int, c1: int, clear: bool, semitones: i8) -> Seq<Seq<Cell>> {
    Seq::new(g.len(), |i: int| if r0 <= i < upto { span_edit(g[i], c0, c1, clear, semitones) } else { g[i] })
}

fn edit_span(cells: &Vec<Cell>, c0: usize, c1: usize, clear: bool, semitones: i8) -> (row: Vec<Cell>)
    ensures
        row@ == span_edit(cells@, c0 as int, c1 as int, clear, semitones),
{
    let mut row: Vec<Cell> = Vec::new();
    let mut c: usize = 0;
    while c < cells.len()
        invariant
            c <= cells@.len(),
            row@ == span_edit(cells@, c0 as int, c1 as int, clear, semitones).take(c as int),
        decreases cells@.len() - c,
    {
        let mut x = cells[c];
        if c0 <= c && c <= c1 {
            if clear {
                x = Cell::default();
            } else {
                transpose_cell_note(&mut x, semitones);
            }
        }
        row.push(x);
        proof {
            assert(row@ =~= span_edit(cells@, c0 as int, c1 as int, clear, semitones).take(c as int + 1));
        }
        c = c + 1;
    }
    proof {
        assert(span_edit(cells@, c0 as int, c1 as int, clear, semitones).take(cells@.len() as int)
            =~= span_edit(cells@, c0 as int, c1 as int, clear, semitones));
    }
    row
}

/// Empty (`clear`) or transpose by `semitones` every cell of block `b` of pattern `p`.
pub fn edit_block(song: &mut Song, p: usize, b: (usize, usize, usize, usize), clear: bool, semitones: i8)
    requires
        song_wf(old(song)@),
        block_in(old(song)@, p as int, b),
    ensures
        final(song)@ == with_grid(old(song)@, p as int, rows_edited(
            old(song)@.patterns[p as int].grid,
            b.0 as int,
            b.1 + 1,
            b.2 as int,
            b.3 as int,
            clear,
            semitones,
        )),
        song_wf(final(song)@),
{
    let (r0, r1, c0, c1) = b;
    let ghost s0 = song@;
    let ghost g0 = s0.patterns[p as int].grid;
    proof {
        lemma_same_grid(s0, p as int);
        assert(rows_edited(g0, r0 as int, r0 as int, c0 as int, c1 as int, clear, semitones) =~= g0);
    }
    let mut r = r0;
    while r <= r1
        invariant
            song_wf(song@),
            block_in(s0, p as int, b),
            b == (r0, r1, c0, c1),
            g0 == s0.patterns[p as int].grid,
            model_wf(s0.patterns[p as int]),
            r0 <= r <= r1 + 1,
            song@ == with_grid(s0, p as int, rows_edited(g0, r0 as int, r as int, c0 as int, c1 as int, clear, semitones)),
        decreases r1 + 1 - r,
    {
        let ghost before = rows_edited(g0, r0 as int, r as int, c0 as int, c1 as int, clear, semitones);
        proof {
            assert(song@.patterns[p as int].grid == before);
            assert(before[r as int] == g0[r as int]);
        }
        let cells = row_cells(song, p, r);
        let row = edit_span(&cells, c0, c1, clear, semitones);
        set_song_row(song, p, r, row);
        proof {
            let after = rows_edited(g0, r0 as int, r + 1, c0 as int, c1 as int, clear, semitones);
            assert(before.update(r as int, span_edit(g0[r as int], c0 as int, c1 as int, clear, semitones)) =~= after);
            assert(song@.patterns =~= with_grid(s0, p as int, after).patterns);
        }
        r = r + 1;
    }
}

/// Row `row` (at row `r`) with the block pasted at `(cr, cc)`: the block's row
/// `r - cr` covers the channels from `cc` on, as far as the row reaches.
pub open spec fn paste_span(row: Seq<Cell>, block: Seq<Seq<Cell>>, r: int, cr: int, cc: int) -> Seq<Cell> {
    Seq::new(row.len(), |c: int| if cr <= r < cr + block.len() && cc <= c < cc + block[r - cr].len() {
        block[r - cr][c - cc]
    } else {
        row[c]
    })
}

/// The grid with the block pasted at `(cr, cc)` on rows before `upto`; the block is
/// cut off at the pattern's last row and channel.
pub open spec fn grid_pasted(g: Seq<Seq<Cell>>, block: Seq<Seq<Cell>>, cr: int, cc: int, upto: int) -> Seq<Seq<Cell>> {
    Seq::new(g.len(), |i: int| if i < upto { paste_span(g[i], block, i, cr, cc) } else { g[i] })
}

fn paste_into(cells: &Vec<Cell>, brow: &Vec<Cell>, cc: usize) -> (row: Vec<Cell>)
    ensures
        row@ == Seq::new(cells@.len(), |c: int| if cc <= c < cc + brow@.len() { brow@[c - cc] } else { cells@[c] }),
{
    let mut row: Vec<Cell> = Vec::new();
    let mut c: usize = 0;
    while c < cells.len()
        invariant
            c <= cells@.len(),
            row@.len() == c,
            forall|k: int| 0 <= k < c ==> #[trigger] row@[k] == (if cc <= k < cc + brow@.len() { brow@[k - cc] } else { cells@[k] }),
        decreases cells@.len() - c,
    {
        if c >= cc && c - cc < brow.len() {
            row.push(brow[c - cc]);
        } else {
            row.push(cells[c]);
        }
        c = c + 1;
    }
    proof {
        assert(row@ =~= Seq::new(cells@.len(), |c: int| if cc <= c < cc + brow@.len() { brow@[c - cc] } else { cells@[c] }));
    }
    row
}

/// Paste `block` with its top left cell at `(cr, cc)` of pattern `p`, cut off at the
/// pattern's last row and channel.
pub fn paste_block(song: &mut Song, p: usize, block: &Vec<Vec<Cell>>, cr: usize, cc: usize)
    requires
        song_wf(old(song)@),
        p < old(song)@.patterns.len(),
    ensures
        final(song)@ == with_grid(old(song)@, p as int, grid_pasted(
            old(song)@.patterns[p as int].grid,
            block_view(block@),
            cr as int,
            cc as int,
            old(song)@.patterns[p as int].rows as int,
        )),
        song_wf(final(song)@),
{
    let ghost s0 = song@;
    let ghost g0 = s0.patterns[p as int].grid;
    let ghost bv = block_view(block@);
    let rows = song.patterns[p].rows;
    proof {
        lemma_same_grid(s0, p as int);
        assert(grid_pasted(g0, bv, cr as int, cc as int, cr as int) =~= g0) by {
            assert forall|i: int| 0 <= i < g0.len() && i < cr implies #[trigger] paste_span(g0[i], bv, i, cr as int, cc as int) =~= g0[i] by {}
        }
        if cr > rows {
            assert(grid_pasted(g0, bv, cr as int, cc as int, rows as int) =~= g0) by {
                assert forall|i: int| 0 <= i < g0.len() && i < rows implies #[trigger] paste_span(g0[i], bv, i, cr as int, cc as int) =~= g0[i] by {}
            }
        }
    }
    let mut ri: usize = 0;
    while ri < block.len()
        invariant
            song_wf(song@),
            p < s0.patterns.len(),
            g0 == s0.patterns[p as int].grid,
            model_wf(s0.patterns[p as int]),
            rows == s0.patterns[p as int].rows,
            bv == block_view(block@),
            ri <= block@.len(),
            cr + ri <= rows ==> song@ == with_grid(s0, p as int, grid_pasted(g0, bv, cr as int, cc as int, cr + ri)),
            cr + ri > rows ==> song@ == with_grid(s0, p as int, grid_pasted(g0, bv, cr as int, cc as int, rows as int)),
        ensures
            ri == block@.len() || cr + ri >= rows,
            cr + ri <= rows ==> song@ == with_grid(s0, p as int, grid_pasted(g0, bv, cr as int, cc as int, cr + ri)),
            cr + ri > rows ==> song@ == with_grid(s0, p as int, grid_pasted(g0, bv, cr as int, cc as int, rows as int)),
            song_wf(song@),
        decreases block@.len() - ri,
    {
        if cr >= rows || rows - cr <= ri {
            proof {
                if cr + ri <= rows {
                    assert(grid_pasted(g0, bv, cr as int, cc as int, cr + ri) =~= grid_pasted(g0, bv, cr as int, cc as int, rows as int));
                }
            }
            break;
        }
        let r = cr + ri;
        let ghost before = grid_pasted(g0, bv, cr as int, cc as int, r as int);
        proof {
            assert(song@.patterns[p as int].grid == before);
            assert(before[r as int] == g0[r as int]);
        }
        let cells = row_cells(song, p, r);
        let row = paste_into(&cells, &block[ri], cc);
        proof {
            assert(row@ =~= paste_span(g0[r as int], bv, r as int, cr as int, cc as int));
        }
        set_song_row(song, p, r, row);
        proof {
            let after = grid_pasted(g0, bv, cr as int, cc as int, r + 1);
            assert(before.update(r as int, paste_span(g0[r as int], bv, r as int, cr as int, cc as int)) =~= after);
            assert(song@.patterns =~= with_grid(s0, p as int, after).patterns);
        }
        ri = ri + 1;
    }
    proof {
        if cr + ri <= rows {
            assert(grid_pasted(g0, bv, cr as int, cc as int, cr + ri) =~= grid_pasted(g0, bv, cr as int, cc as int, rows as int)) by {
                assert forall|i: int| 0 <= i < g0.len() && cr + ri <= i < rows implies #[trigger] paste_span(g0[i], bv, i, cr as int, cc as int) =~= g0[i] by {}
            }
        }
    }
}


/// The column of a cell that the cursor is on.
#[derive(Clone, Copy, Debug, PartialEq, Eq, Structural)]
pub enum SubColumn {
    Note,
    Instrument,
    Volume,
    Effect,
}

impl SubColumn {
    /// The column to the right (the effect column is the last).
    pub fn next(self) -> (r: Self)
        ensures
            r == match self {
                SubColumn::Note => SubColumn::Instrument,
                SubColumn::Instrument => SubColumn::Volume,
                _ => SubColumn::Effect,
            },
    {
        match self {
            SubColumn::Note => SubColumn::Instrument,
            SubColumn::Instrument => SubColumn::Volume,
            _ => SubColumn::Effect,
        }
    }

    /// The column to the left (the note column is the first).
    pub fn prev(self) -> (r: Self)
        ensures
            r == match self {
                SubColumn::Effect => SubColumn::Volume,
                SubColumn::Volume => SubColumn::Instrument,
                _ => SubColumn::Note,
            },
    {
        match self {
            SubColumn::Effect => SubColumn::Volume,
            SubColumn::Volume => SubColumn::Instrument,
            _ => SubColumn::Note,
        }
    }
}

/// The value of a hex digit typed in a cell (`0`-`9`, `a`-`f`).
pub open spec fn hex_digit_of(c: char) -> Option<u8> {
    if '0' <= c <= '9' {
        Some((c as u32 - '0' as u32) as u8)
    } else if 'a' <= c <= 'f' {
        Some((c as u32 - 'a' as u32 + 10) as u8)
    } else {
        None
    }
}

/// A byte with digit `d` shifted in from the right (the high digit drops out).
pub open spec fn shift_in(cur: Option<u8>, d: u8) -> u8 {
    ((or_u8(cur, 0) % 16) * 16 + d) as u8
}

/// The cell after typing hex digit `d` in column `sub`: the instrument and volume
/// take the digit shifted in; in the effect column the first digit is the command,
/// later ones shift into the value.
pub open spec fn hex_entered(cell: Cell, sub: SubColumn, d: u8) -> Cell {
    match sub {
        SubColumn::Instrument => Cell { instrument: Some(shift_in(cell.instrument, d)), ..cell },
        SubColumn::Volume => Cell { volume: Some(shift_in(cell.volume, d)), ..cell },
        SubColumn::Effect => if cell.effect is None {
            Cell { effect: Some(d), ..cell }
        } else {
            Cell { effect_value: Some(shift_in(cell.effect_value, d)), ..cell }
        },
        SubColumn::Note => cell,
    }
}

fn shift_digit(cur: Option<u8>, d: u8) -> (r: u8)
    requires
        d < 16,
    ensures
        r == shift_in(cur, d),
{
    let v: u8 = match cur {
        Some(x) => x,
        None => 0,
    };
    (v % 16) * 16 + d
}

/// The cell after typing `c` in column `sub`, or `None` when `c` is no hex digit.
pub fn hex_entry(cell: Cell, sub: SubColumn, c: char) -> (r: Option<Cell>)
    ensures
        r == match hex_digit_of(c) {
            Some(d) => Some(hex_entered(cell, sub, d)),
            None => None,
        },
{
    let d: u8 = if '0' <= c && c <= '9' {
        (c as u8) - 48
    } else if 'a' <= c && c <= 'f' {
        (c as u8) - 87
    } else {
        return None;
    };
    let mut x = cell;
    match sub {
        SubColumn::Instrument => {
            x.instrument = Some(shift_digit(cell.instrument, d));
        },
        SubColumn::Volume => {
            x.volume = Some(shift_digit(cell.volume, d));
        },
        SubColumn::Effect => {
            if cell.effect.is_none() {
                x.effect = Some(d);
            } else {
                x.effect_value = Some(shift_digit(cell.effect_value, d));
            }
        },
        SubColumn::Note => {},
    }
    Some(x)
}

/// The cell with column `sub` cleared (the effect column clears command and value).
pub open spec fn column_deleted(cell: Cell, sub: SubColumn) -> Cell {
    match sub {
        SubColumn::Note => Cell { note: None, ..cell },
        SubColumn::Instrument => Cell { instrument: None, ..cell },
        SubColumn::Volume => Cell { volume: None, ..cell },
        SubColumn::Effect => Cell { effect: None, effect_value: None, ..cell },
    }
}

/// Clear column `sub` of a cell.
pub fn delete_column(cell: Cell, sub: SubColumn) -> (r: Cell)
    ensures
        r == column_deleted(cell, sub),
{
    let mut x = cell;
    match sub {
        SubColumn::Note => { x.note = None; },
        SubColumn::Instrument => { x.instrument = None; },
        SubColumn::Volume => { x.volume = None; },
        SubColumn::Effect => {
            x.effect = None;
            x.effect_value = None;
        },
    }
    x
}

/// The note a key plays on the two-row piano layout, with its octave offset:
/// `zsxdcvgbhnjm` from C, and `q2w3er5t6y7u` from the C an octave up.
pub open spec fn key_note(c: char) -> Option<(NoteValue, u8)> {
    if c == 'z' { Some((NoteValue::C, 0u8)) }
    else if c == 's' { Some((NoteValue::Cs, 0u8)) }
    else if c == 'x' { Some((NoteValue::D, 0u8)) }
    else if c == 'd' { Some((NoteValue::Ds, 0u8)) }
    else if c == 'c' { Some((NoteValue::E, 0u8)) }
    else if c == 'v' { Some((NoteValue::F, 0u8)) }
    else if c == 'g' { Some((NoteValue::Fs, 0u8)) }
    else if c == 'b' { Some((NoteValue::G, 0u8)) }
    else if c == 'h' { Some((NoteValue::Gs, 0u8)) }
    else if c == 'n' { Some((NoteValue::A, 0u8)) }
    else if c == 'j' { Some((NoteValue::As, 0u8)) }
    else if c == 'm' { Some((NoteValue::B, 0u8)) }
    else if c == 'q' { Some((NoteValue::C, 1u8)) }
    else if c == '2' { Some((NoteValue::Cs, 1u8)) }
    else if c == 'w' { Some((NoteValue::D, 1u8)) }
    else if c == '3' { Some((NoteValue::Ds, 1u8)) }
    else if c == 'e' { Some((NoteValue::E, 1u8)) }
    else if c == 'r' { Some((NoteValue::F, 1u8)) }
    else if c == '5' { Some((NoteValue::Fs, 1u8)) }
    else if c == 't' { Some((NoteValue::G, 1u8)) }
    else if c == '6' { Some((NoteValue::Gs, 1u8)) }
    else if c == 'y' { Some((NoteValue::A, 1u8)) }
    else if c == '7' { Some((NoteValue::As, 1u8)) }
    else if c == 'u' { Some((NoteValue::B, 1u8)) }
    else { None }
}

/// The note that key `c` enters at octave `octave`; none above octave 9.
pub open spec fn keyed_note(c: char, octave: u8) -> Option<Note> {
    match key_note(c) {
        Some((v, off)) => if octave + off > 9 { None } else { Some(Note::On { value: v, octave: (octave + off) as u8 }) },
        None => None,
    }
}

/// The note that key `c` enters at octave `octave` (see `keyed_note`).
pub fn note_for_key(c: char, octave: u8) -> (r: Option<Note>)
    requires
        key_note(c) matches Some((_, off)) ==> octave + off <= 255,
    ensures
        r == keyed_note(c, octave),
{
    let (v, off): (NoteValue, u8) = if c == 'z' { (NoteValue::C, 0) }
        else if c == 's' { (NoteValue::Cs, 0) }
        else if c == 'x' { (NoteValue::D, 0) }
        else if c == 'd' { (NoteValue::Ds, 0) }
        else if c == 'c' { (NoteValue::E, 0) }
        else if c == 'v' { (NoteValue::F, 0) }
        else if c == 'g' { (NoteValue::Fs, 0) }
        else if c == 'b' { (NoteValue::G, 0) }
        else if c == 'h' { (NoteValue::Gs, 0) }
        else if c == 'n' { (NoteValue::A, 0) }
        else if c == 'j' { (NoteValue::As, 0) }
        else if c == 'm' { (NoteValue::B, 0) }
        else if c == 'q' { (NoteValue::C, 1) }
        else if c == '2' { (NoteValue::Cs, 1) }
        else if c == 'w' { (NoteValue::D, 1) }
        else if c == '3' { (NoteValue::Ds, 1) }
        else if c == 'e' { (NoteValue::E, 1) }
        else if c == 'r' { (NoteValue::F, 1) }
        else if c == '5' { (NoteValue::Fs, 1) }
        else if c == 't' { (NoteValue::G, 1) }
        else if c == '6' { (NoteValue::Gs, 1) }
        else if c == 'y' { (NoteValue::A, 1) }
        else if c == '7' { (NoteValue::As, 1) }
        else if c == 'u' { (NoteValue::B, 1) }
        else { return None; };
    let o = octave + off;
    if o > 9 {
        None
    } else {
        Some(Note::On { value: v, octave: o })
    }
}

/// The lower row of the piano keyboard, from C up to B.
pub open spec fn lower_piano_row() -> Seq<char> {
    seq!['z', 's', 'x', 'd', 'c', 'v', 'g', 'b', 'h', 'n', 'j', 'm']
}

/// The upper row of the piano keyboard, from C up to B an octave higher.
pub open spec fn upper_piano_row() -> Seq<char> {
    seq!['q', '2', 'w', '3', 'e', 'r', '5', 't', '6', 'y', '7', 'u']
}

/// The two rows of keys are a piano keyboard: key by key the notes rise by one
/// semitone, the lower row from C of the current octave, the upper row from the C an
/// octave above (up to octave 9); no other key enters a note.
pub proof fn law_piano_keys_rise(i: int, octave: u8, c: char)
    requires
        0 <= i < 12,
    ensures
        octave <= 9 ==> (keyed_note(lower_piano_row()[i], octave) matches Some(Note::On { value, octave: o })
            && o == octave && note_index(value) == i),
        octave <= 8 ==> (keyed_note(upper_piano_row()[i], octave) matches Some(Note::On { value, octave: o })
            && o == octave + 1 && note_index(value) == i),
        !lower_piano_row().contains(c) && !upper_piano_row().contains(c) ==> keyed_note(c, octave) is None,
{
    let lo = lower_piano_row();
    let up = upper_piano_row();
    assert(lo[0] == 'z' && lo[1] == 's' && lo[2] == 'x' && lo[3] == 'd' && lo[4] == 'c' && lo[5] == 'v');
    assert(lo[6] == 'g' && lo[7] == 'b' && lo[8] == 'h' && lo[9] == 'n' && lo[10] == 'j' && lo[11] == 'm');
    assert(up[0] == 'q' && up[1] == '2' && up[2] == 'w' && up[3] == '3' && up[4] == 'e' && up[5] == 'r');
    assert(up[6] == '5' && up[7] == 't' && up[8] == '6' && up[9] == 'y' && up[10] == '7' && up[11] == 'u');
    if !lo.contains(c) && !up.contains(c) {
        assert(c != lo[0] && c != lo[1] && c != lo[2] && c != lo[3] && c != lo[4] && c != lo[5]);
        assert(c != lo[6] && c != lo[7] && c != lo[8] && c != lo[9] && c != lo[10] && c != lo[11]);
        assert(c != up[0] && c != up[1] && c != up[2] && c != up[3] && c != up[4] && c != up[5]);
        assert(c != up[6] && c != up[7] && c != up[8] && c != up[9] && c != up[10] && c != up[11]);
    }
}

/// The cell after entering `note` with the track's default instrument (when it has
/// one, it replaces the cell's instrument).
pub open spec fn note_entered(cell: Cell, note: Note, track_inst: Option<u8>) -> Cell {
    Cell {
        note: Some(note),
        instrument: match track_inst { Some(i) => Some(i), None => cell.instrument },
        ..cell
    }
}

/// Enter `note` at `(r, ch)` of pattern `p` after recording the song for undo.
/// Returns the instrument the note is heard with: the track's default, else the
/// instrument already in the cell.
pub fn enter_note(song: &mut Song, history: &mut EditHistory, p: usize, r: usize, ch: usize, note: Note, track_inst: Option<u8>) -> (inst: Option<u8>)
    requires
        song_wf(old(song)@),
        cell_in(old(song)@, p as int, r as int, ch as int),
    ensures
        final(history).model() == after_push_undo(old(history).model(), old(song)@),
        final(song)@ == with_cell(old(song)@, p as int, r as int, ch as int,
            note_entered(old(song)@.patterns[p as int].grid[r as int][ch as int], note, track_inst)),
        inst == match track_inst { Some(i) => Some(i), None => old(song)@.patterns[p as int].grid[r as int][ch as int].instrument },
        song_wf(final(song)@),
        final(history).clipboard == old(history).clipboard,
        final(history).block_clipboard == old(history).block_clipboard,
        final(history).block_anchor == old(history).block_anchor,
{
    history.push_undo(song);
    proof { lemma_pattern_view_wf(&song.patterns@[p as int]); }
    let cell = *song.patterns[p].get(r, ch);
    let inst = match track_inst {
        Some(i) => Some(i),
        None => cell.instrument,
    };
    let mut x = cell;
    x.note = Some(note);
    if let Some(i) = track_inst {
        x.instrument = Some(i);
    }
    set_song_cell(song, p, r, ch, x);
    inst
}

/// Replace the cell at `(r, ch)` of pattern `p` by `x`, after recording the song for
/// undo.
pub fn write_cell(song: &mut Song, history: &mut EditHistory, p: usize, r: usize, ch: usize, x: Cell)
    requires
        song_wf(old(song)@),
        cell_in(old(song)@, p as int, r as int, ch as int),
    ensures
        final(history).model() == after_push_undo(old(history).model(), old(song)@),
        final(song)@ == with_cell(old(song)@, p as int, r as int, ch as int, x),
        song_wf(final(song)@),
        final(history).clipboard == old(history).clipboard,
        final(history).block_clipboard == old(history).block_clipboard,
        final(history).block_anchor == old(history).block_anchor,
{
    history.push_undo(song);
    set_song_cell(song, p, r, ch, x);
}

/// The cell at `(r, ch)` of pattern `p`.
pub fn cell_at(song: &Song, p: usize, r: usize, ch: usize) -> (x: Cell)
    requires
        song_wf(song@),
        cell_in(song@, p as int, r as int, ch as int),
    ensures
        x == song@.patterns[p as int].grid[r as int][ch as int],
{
    proof { lemma_pattern_view_wf(&song.patterns@[p as int]); }
    *song.patterns[p].get(r, ch)
}

/// The default instrument of a track that plays a synth or samples; MIDI tracks and
/// tracks without configuration have none.
pub open spec fn track_instrument(tracks: Seq<TrackConfig>, ch: int) -> Option<u8> {
    if 0 <= ch < tracks.len() && (tracks[ch].channel_type == ChannelType::Synth || tracks[ch].channel_type
        == ChannelType::Sample) {
        tracks[ch].default_instrument
    } else {
        None
    }
}

/// Per-track settings: mute flag, name, kind of sound source, default instrument and
/// MIDI channel.
pub struct TrackConfig {
    pub muted: bool,
    pub name: String,
    pub channel_type: ChannelType,
    pub default_instrument: Option<u8>,
    pub midi_channel: u8,
}

impl TrackConfig {
    /// An unmuted, unnamed MIDI track on `midi_channel`.
    pub fn new(midi_channel: u8) -> (t: Self)
        ensures
            !t.muted,
            t.name@ == Seq::<char>::empty(),
            t.channel_type == ChannelType::Midi,
            t.default_instrument is None,
            t.midi_channel == midi_channel,
    {
        TrackConfig {
            muted: false,
            name: String::new(),
            channel_type: ChannelType::Midi,
            default_instrument: None,
            midi_channel,
        }
    }
}

/// The default instrument of track `ch` (see `track_instrument`).
pub fn track_default_instrument(tracks: &Vec<TrackConfig>, ch: usize) -> (r: Option<u8>)
    ensures
        r == track_instrument(tracks@, ch as int),
{
    if ch < tracks.len() && (tracks[ch].channel_type == ChannelType::Synth || tracks[ch].channel_type == ChannelType::Sample) {
        tracks[ch].default_instrument
    } else {
        None
    }
}

/// Default settings for `n` tracks, track `i` on MIDI channel `i` (taken modulo 256).
pub fn default_tracks(n: usize) -> (v: Vec<TrackConfig>)
    ensures
        v@.len() == n,
        forall|i: int| 0 <= i < n ==> {
            &&& !(#[trigger] v@[i]).muted
            &&& v@[i].channel_type == ChannelType::Midi
            &&& v@[i].default_instrument is None
            &&& v@[i].midi_channel == (i % 256) as u8
        },
{
    let mut v: Vec<TrackConfig> = Vec::new();
    let mut i: usize = 0;
    while i < n
        invariant
            i <= n,
            v@.len() == i,
            forall|k: int| 0 <= k < i ==> {
                &&& !(#[trigger] v@[k]).muted
                &&& v@[k].channel_type == ChannelType::Midi
                &&& v@[k].default_instrument is None
                &&& v@[k].midi_channel == (k % 256) as u8
            },
        decreases n - i,
    {
        v.push(TrackConfig::new((i % 256) as u8));
        i = i + 1;
    }
    v
}

/// Toggle the mute of track `ch`, which also ends any solo. Returns the new mute
/// flag, or `None` (and no change) when the track does not exist.
pub fn toggle_mute(tracks: &mut Vec<TrackConfig>, solo: &mut Option<usize>, ch: usize) -> (r: Option<bool>)
    ensures
        ch < old(tracks)@.len() ==> {
            &&& r == Some(!old(tracks)@[ch as int].muted)
            &&& *final(solo) is None
            &&& final(tracks)@.len() == old(tracks)@.len()
            &&& final(tracks)@[ch as int].muted == !old(tracks)@[ch as int].muted
            &&& final(tracks)@[ch as int].name == old(tracks)@[ch as int].name
            &&& final(tracks)@[ch as int].channel_type == old(tracks)@[ch as int].channel_type
            &&& final(tracks)@[ch as int].default_instrument == old(tracks)@[ch as int].default_instrument
            &&& final(tracks)@[ch as int].midi_channel == old(tracks)@[ch as int].midi_channel
            &&& forall|i: int| 0 <= i < old(tracks)@.len() && i != ch ==> #[trigger] final(tracks)@[i] == old(tracks)@[i]
        },
        ch >= old(tracks)@.len() ==> r is None && final(tracks)@ == old(tracks)@ && *final(solo) == *old(solo),
{
    if ch >= tracks.len() {
        return None;
    }
    *solo = None;
    let m = !tracks[ch].muted;
    tracks[ch].muted = m;
    Some(m)
}

/// The cursor row after moving up `amount` rows (stopping at the first row).
pub fn cursor_up(row: usize, amount: usize) -> (r: usize)
    ensures
        r == if row >= amount { row - amount } else { 0 },
{
    if row >= amount { row - amount } else { 0 }
}

/// The cursor row after moving down `amount` rows (stopping at the last of `rows`).
pub fn cursor_down(row: usize, amount: usize, rows: usize) -> (r: usize)
    requires
        rows > 0,
        row + amount <= usize::MAX,
    ensures
        r == if row + amount <= rows - 1 { row + amount } else { rows - 1 },
{
    let t = row + amount;
    if t <= rows - 1 { t } else { rows - 1 }
}

/// Channels per track page.
pub const CHANNELS_PER_PAGE: usize = 4;

/// Where the cursor is across tracks: channel, column and the page shown.
#[derive(Clone, Copy, Debug, PartialEq, Eq, Structural)]
pub struct TrackCursor {
    pub channel: usize,
    pub sub: SubColumn,
    pub page: usize,
}

/// One step left: through the columns, then to the effect column of the previous
/// track (whose page is shown).
pub fn cursor_left(t: TrackCursor) -> (r: TrackCursor)
    ensures
        t.sub == SubColumn::Note && t.channel > 0 ==> r == (TrackCursor {
            channel: (t.channel - 1) as usize,
            sub: SubColumn::Effect,
            page: ((t.channel - 1) / CHANNELS_PER_PAGE as int) as usize,
        }),
        t.sub == SubColumn::Note && t.channel == 0 ==> r == t,
        t.sub != SubColumn::Note ==> r == (TrackCursor { sub: match t.sub {
            SubColumn::Effect => SubColumn::Volume,
            SubColumn::Volume => SubColumn::Instrument,
            _ => SubColumn::Note,
        }, ..t }),
{
    if t.sub == SubColumn::Note {
        if t.channel > 0 {
            let ch = t.channel - 1;
            TrackCursor { channel: ch, sub: SubColumn::Effect, page: ch / CHANNELS_PER_PAGE }
        } else {
            t
        }
    } else {
        TrackCursor { sub: t.sub.prev(), ..t }
    }
}

/// One step right: through the columns, then to the note column of the next track
/// (of `channels`), whose page is shown.
pub fn cursor_right(t: TrackCursor, channels: usize) -> (r: TrackCursor)
    requires
        channels > 0,
    ensures
        t.sub == SubColumn::Effect && t.channel < channels - 1 ==> r == (TrackCursor {
            channel: (t.channel + 1) as usize,
            sub: SubColumn::Note,
            page: ((t.channel + 1) / CHANNELS_PER_PAGE as int) as usize,
        }),
        t.sub == SubColumn::Effect && t.channel >= channels - 1 ==> r == t,
        t.sub != SubColumn::Effect ==> r == (TrackCursor { sub: match t.sub {
            SubColumn::Note => SubColumn::Instrument,
            SubColumn::Instrument => SubColumn::Volume,
            _ => SubColumn::Effect,
        }, ..t }),
{
    if t.sub == SubColumn::Effect {
        if t.channel < channels - 1 {
            let ch = t.channel + 1;
            TrackCursor { channel: ch, sub: SubColumn::Note, page: ch / CHANNELS_PER_PAGE }
        } else {
            t
        }
    } else {
        TrackCursor { sub: t.sub.next(), ..t }
    }
}

/// The next (or previous) track of `channels`, wrapping around, on its note column.
pub fn cycle_track(t: TrackCursor, channels: usize, forward: bool) -> (r: TrackCursor)
    requires
        channels > 0 ==> t.channel + channels <= usize::MAX,
    ensures
        channels == 0 ==> r == t,
        channels > 0 ==> {
            let ch = if forward { (t.channel + 1) % channels as int } else { (t.channel + channels - 1) % channels as int };
            r == (TrackCursor { channel: ch as usize, sub: SubColumn::Note, page: (ch / CHANNELS_PER_PAGE as int) as usize })
        },
{
    if channels == 0 {
        return t;
    }
    let ch = if forward { (t.channel + 1) % channels } else { (t.channel + channels - 1) % channels };
    TrackCursor { channel: ch, sub: SubColumn::Note, page: ch / CHANNELS_PER_PAGE }
}

/// The channels shown on track page `page` of `channels`: `start..end`.
pub fn visible_channels(page: usize, channels: usize) -> (r: (usize, usize))
    requires
        page * CHANNELS_PER_PAGE + CHANNELS_PER_PAGE <= usize::MAX,
    ensures
        r.0 == page * CHANNELS_PER_PAGE,
        r.1 == if page * CHANNELS_PER_PAGE + CHANNELS_PER_PAGE <= channels { page * CHANNELS_PER_PAGE + CHANNELS_PER_PAGE } else { channels as int },
{
    let start = page * CHANNELS_PER_PAGE;
    let end = if start + CHANNELS_PER_PAGE <= channels { start + CHANNELS_PER_PAGE } else { channels };
    (start, end)
}

/// `v` kept within `lo..=hi`.
pub open spec fn clamp_int(v: int, lo: int, hi: int) -> int {
    if v < lo { lo } else if v > hi { hi } else { v }
}

/// The tempo after a change by `delta`, kept within 32..=300.
pub fn changed_bpm(bpm: u16, delta: i16) -> (r: u16)
    requires
        i16::MIN <= (bpm as i16) + delta <= i16::MAX,
    ensures
        r == clamp_int((bpm as i16) + delta, 32, 300),
{
    let v: i16 = bpm as i16 + delta;
    if v < 32 { 32 } else if v > 300 { 300 } else { v as u16 }
}

/// The edit step after a change by `delta`, kept within 0..=16.
pub fn changed_edit_step(step: usize, delta: i16) -> (r: usize)
    requires
        i16::MIN <= (step as i16) + delta <= i16::MAX,
    ensures
        r == clamp_int((step as i16) + delta, 0, 16),
{
    let v: i16 = step as i16 + delta;
    if v < 0 { 0 } else if v > 16 { 16 } else { v as usize }
}

/// The octave one up, at most 9.
pub fn octave_up(o: u8) -> (r: u8)
    ensures
        r == if o < 9 { (o + 1) as u8 } else { o },
{
    if o < 9 { o + 1 } else { o }
}

/// The octave one down, at least 0.
pub fn octave_down(o: u8) -> (r: u8)
    ensures
        r == if o > 0 { (o - 1) as u8 } else { o },
{
    if o > 0 { o - 1 } else { o }
}


proof fn lemma_empty_model_wf(rows: usize, channels: usize)
    ensures
        model_wf(empty_pattern_model(rows, channels)),
{
}

/// The next order position for editing, if there is one.
pub fn next_order_position(edit_order: usize, order_len: usize) -> (r: Option<usize>)
    ensures
        r == if edit_order + 1 < order_len { Some((edit_order + 1) as usize) } else { None::<usize> },
{
    if edit_order < order_len && order_len - edit_order > 1 { Some(edit_order + 1) } else { None }
}

/// The previous order position for editing, if there is one.
pub fn prev_order_position(edit_order: usize) -> (r: Option<usize>)
    ensures
        r == if edit_order > 0 { Some((edit_order - 1) as usize) } else { None::<usize> },
{
    if edit_order > 0 { Some(edit_order - 1) } else { None }
}

/// The song with a new empty pattern appended, played once at the end of the order.
pub open spec fn with_new_pattern_last(s: SongModel) -> SongModel {
    SongModel {
        patterns: s.patterns.push(empty_pattern_model(s.rows_per_pattern, s.channels)),
        order: s.order.push(s.patterns.len() as usize),
        order_repeats: s.order_repeats.push(1),
        ..s
    }
}

/// Append a new empty pattern and an order entry for it, after recording the song for
/// undo. Returns the new order position.
pub fn add_new_pattern_to_order(song: &mut Song, history: &mut EditHistory) -> (pos: usize)
    requires
        song_wf(old(song)@),
    ensures
        final(history).model() == after_push_undo(old(history).model(), old(song)@),
        final(song)@ == with_new_pattern_last(old(song)@),
        pos == old(song)@.order.len(),
        song_wf(final(song)@),
        final(history).clipboard == old(history).clipboard,
        final(history).block_clipboard == old(history).block_clipboard,
        final(history).block_anchor == old(history).block_anchor,
{
    history.push_undo(song);
    let idx = song.add_pattern();
    song.order.push(idx);
    song.order_repeats.push(1);
    proof {
        lemma_empty_model_wf(old(song).rows_per_pattern, old(song).channels);
        assert(song@ == with_new_pattern_last(old(song)@));
        assert forall|i: int| 0 <= i < song@.patterns.len() implies #[trigger] model_wf(song@.patterns[i]) by {
            if i < old(song)@.patterns.len() {
                assert(song@.patterns[i] == old(song)@.patterns[i]);
            }
        }
        assert forall|k: int| 0 <= k < song@.order.len() implies #[trigger] song@.order[k] < song@.patterns.len() by {
            if k < old(song)@.order.len() {
                assert(song@.order[k] == old(song)@.order[k]);
            }
        }
    }
    song.order.len() - 1
}

/// The song with a copy of the pattern at order position `pos` appended and entered
/// in the order right after `pos`, played once.
pub open spec fn with_clone_after(s: SongModel, pos: int) -> SongModel {
    SongModel {
        patterns: s.patterns.push(s.patterns[s.order[pos] as int]),
        order: s.order.insert(pos + 1, s.patterns.len() as usize),
        order_repeats: s.order_repeats.insert(pos + 1, 1),
        ..s
    }
}

/// The song with a new empty pattern entered in the order right after `pos`.
pub open spec fn with_new_after(s: SongModel, pos: int) -> SongModel {
    SongModel {
        patterns: s.patterns.push(empty_pattern_model(s.rows_per_pattern, s.channels)),
        order: s.order.insert(pos + 1, s.patterns.len() as usize),
        order_repeats: s.order_repeats.insert(pos + 1, 1),
        ..s
    }
}

proof fn lemma_grown_song_wf(old_s: SongModel, s: SongModel, pos: int)
    requires
        song_wf(old_s),
        0 <= pos < old_s.order.len(),
        s.patterns == old_s.patterns.push(s.patterns.last()),
        model_wf(s.patterns.last()),
        s.order == old_s.order.insert(pos + 1, old_s.patterns.len() as usize),
    ensures
        song_wf(s),
{
    assert forall|i: int| 0 <= i < s.patterns.len() implies #[trigger] model_wf(s.patterns[i]) by {
        if i < old_s.patterns.len() {
            assert(s.patterns[i] == old_s.patterns[i]);
        }
    }
    assert forall|k: int| 0 <= k < s.order.len() implies #[trigger] s.order[k] < s.patterns.len() by {
        if k < pos + 1 {
            assert(s.order[k] == old_s.order[k]);
        } else if k > pos + 1 {
            assert(s.order[k] == old_s.order[k - 1]);
        }
    }
}

/// Copy the pattern at order position `pos` into a new pattern entered right after
/// it, after recording the song for undo. Returns the new pattern's order position.
pub fn clone_current_pattern(song: &mut Song, history: &mut EditHistory, pos: usize) -> (r: usize)
    requires
        song_wf(old(song)@),
        pos < old(song)@.order.len(),
        pos < old(song)@.order_repeats.len(),
    ensures
        final(history).model() == after_push_undo(old(history).model(), old(song)@),
        final(song)@ == with_clone_after(old(song)@, pos as int),
        r == pos + 1,
        song_wf(final(song)@),
        final(history).clipboard == old(history).clipboard,
        final(history).block_clipboard == old(history).block_clipboard,
        final(history).block_anchor == old(history).block_anchor,
{
    history.push_undo(song);
    let n = song.order.len();
    let at = pos + 1;
    let src = song.order[pos];
    let copy = song.patterns[src].duplicate();
    let new_idx = song.patterns.len();
    song.patterns.push(copy);
    song.order.insert(at, new_idx);
    song.order_repeats.insert(at, 1);
    proof {
        assert(song@.patterns =~= with_clone_after(old(song)@, pos as int).patterns);
        assert(song@ == with_clone_after(old(song)@, pos as int));
        assert(model_wf(old(song)@.patterns[src as int]));
        lemma_grown_song_wf(old(song)@, song@, pos as int);
    }
    at
}

/// Order repeat counts kept in step with the order list: one per entry, new entries
/// played once.
pub open spec fn synced_repeats(order_len: int, repeats: Seq<u8>) -> Seq<u8> {
    Seq::new(order_len as nat, |i: int| if i < repeats.len() { repeats[i] } else { 1u8 })
}

/// Make the repeat counts match the order list (see `synced_repeats`).
pub fn sync_order_repeats(song: &mut Song)
    ensures
        final(song)@ == (SongModel {
            order_repeats: synced_repeats(old(song)@.order.len() as int, old(song)@.order_repeats),
            ..old(song)@
        }),
{
    let n = song.order.len();
    let ghost r0 = song.order_repeats@;
    let mut out: Vec<u8> = Vec::new();
    let mut i: usize = 0;
    while i < n
        invariant
            n == song@.order.len(),
            r0 == song.order_repeats@,
            i <= n,
            out@ == synced_repeats(n as int, r0).take(i as int),
        decreases n - i,
    {
        if i < song.order_repeats.len() {
            out.push(song.order_repeats[i]);
        } else {
            out.push(1);
        }
        proof { assert(out@ =~= synced_repeats(n as int, r0).take(i as int + 1)); }
        i = i + 1;
    }
    proof { assert(synced_repeats(n as int, r0).take(n as int) =~= synced_repeats(n as int, r0)); }
    song.order_repeats = out;
}

/// The commands of the pattern matrix (the order list view).
#[derive(Clone, Copy, Debug, PartialEq, Eq, Structural)]
pub enum MatrixKey {
    /// New empty pattern after the cursor.
    NewPattern,
    /// Copy of the cursor's pattern after the cursor.
    ClonePattern,
    Close,
    Up,
    Down,
    Home,
    End,
    PageUp,
    PageDown,
    /// Go to the cursor's order position.
    Enter,
    /// Repeat the cursor's entry after it.
    Insert,
    /// Remove the cursor's entry.
    Delete,
    RepeatUp,
    RepeatDown,
    /// Point the entry at the next pattern.
    NextPattern,
    /// Point the entry at the previous pattern.
    PrevPattern,
}

/// A key press: its code and the Control and Shift modifiers.
#[derive(Clone, Copy, Debug, PartialEq, Eq, Structural)]
pub struct KeyPress {
    pub code: KeyCode,
    pub ctrl: bool,
    pub shift: bool,
}

/// Key codes.
#[derive(Clone, Copy, Debug, PartialEq, Eq, Structural)]
pub enum KeyCode {
    Char(char),
    Up,
    Down,
    Left,
    Right,
    Home,
    End,
    PageUp,
    PageDown,
    Enter,
    Esc,
    Insert,
    Delete,
    Backspace,
    Tab,
    BackTab,
    F(u8),
    Other,
}

/// The matrix command of a key: Control+N and Control+D make patterns; other keys
/// act with or without Control.
pub open spec fn matrix_command(k: KeyPress) -> Option<MatrixKey> {
    if k.ctrl && k.code == KeyCode::Char('n') {
        Some(MatrixKey::NewPattern)
    } else if k.ctrl && k.code == KeyCode::Char('d') {
        Some(MatrixKey::ClonePattern)
    } else {
        match k.code {
            KeyCode::Esc => Some(MatrixKey::Close),
            KeyCode::Up => Some(MatrixKey::Up),
            KeyCode::Down => Some(MatrixKey::Down),
            KeyCode::Home => Some(MatrixKey::Home),
            KeyCode::End => Some(MatrixKey::End),
            KeyCode::PageUp => Some(MatrixKey::PageUp),
            KeyCode::PageDown => Some(MatrixKey::PageDown),
            KeyCode::Enter => Some(MatrixKey::Enter),
            KeyCode::Insert => Some(MatrixKey::Insert),
            KeyCode::Delete => Some(MatrixKey::Delete),
            KeyCode::Backspace => Some(MatrixKey::Delete),
            KeyCode::Right => Some(MatrixKey::NextPattern),
            KeyCode::Left => Some(MatrixKey::PrevPattern),
            KeyCode::Char(c) => if c == 'q' {
                Some(MatrixKey::Close)
            } else if c == 'k' {
                Some(MatrixKey::Up)
            } else if c == 'j' {
                Some(MatrixKey::Down)
            } else if c == ']' {
                Some(MatrixKey::RepeatUp)
            } else if c == '[' {
                Some(MatrixKey::RepeatDown)
            } else if c == '+' {
                Some(MatrixKey::NextPattern)
            } else if c == '-' {
                Some(MatrixKey::PrevPattern)
            } else {
                None
            },
            _ => None,
        }
    }
}

/// The matrix command of a key press (see `matrix_command`).
pub fn matrix_key_for(k: KeyPress) -> (r: Option<MatrixKey>)
    ensures
        r == matrix_command(k),
{
    if k.ctrl && k.code == KeyCode::Char('n') {
        return Some(MatrixKey::NewPattern);
    }
    if k.ctrl && k.code == KeyCode::Char('d') {
        return Some(MatrixKey::ClonePattern);
    }
    match k.code {
        KeyCode::Esc => Some(MatrixKey::Close),
        KeyCode::Up => Some(MatrixKey::Up),
        KeyCode::Down => Some(MatrixKey::Down),
        KeyCode::Home => Some(MatrixKey::Home),
        KeyCode::End => Some(MatrixKey::End),
        KeyCode::PageUp => Some(MatrixKey::PageUp),
        KeyCode::PageDown => Some(MatrixKey::PageDown),
        KeyCode::Enter => Some(MatrixKey::Enter),
        KeyCode::Insert => Some(MatrixKey::Insert),
        KeyCode::Delete => Some(MatrixKey::Delete),
        KeyCode::Backspace => Some(MatrixKey::Delete),
        KeyCode::Right => Some(MatrixKey::NextPattern),
        KeyCode::Left => Some(MatrixKey::PrevPattern),
        KeyCode::Char(c) => {
            if c == 'q' {
                Some(MatrixKey::Close)
            } else if c == 'k' {
                Some(MatrixKey::Up)
            } else if c == 'j' {
                Some(MatrixKey::Down)
            } else if c == ']' {
                Some(MatrixKey::RepeatUp)
            } else if c == '[' {
                Some(MatrixKey::RepeatDown)
            } else if c == '+' {
                Some(MatrixKey::NextPattern)
            } else if c == '-' {
                Some(MatrixKey::PrevPattern)
            } else {
                None
            }
        },
        _ => None,
    }
}

/// What a matrix command reports.
#[derive(Clone, Copy, Debug, PartialEq, Eq, Structural)]
pub enum MatrixStatus {
    NewPattern(usize),
    Cloned(usize, usize),
    Removed,
    CannotRemoveLast,
}

/// The result of a matrix command: the new cursor, whether to close the view,
/// whether to go to the cursor's position, whether the song changed, and the status.
#[derive(Clone, Copy, Debug, PartialEq, Eq, Structural)]
pub struct MatrixOutcome {
    pub cursor: usize,
    pub close: bool,
    pub jump: bool,
    pub changed: bool,
    pub status: Option<MatrixStatus>,
}

/// The command can run: those that read or change the cursor's entry need it to
/// exist (with its repeat count where one is inserted or removed).
pub open spec fn matrix_ready(s: SongModel, cursor: int, k: MatrixKey) -> bool {
    match k {
        MatrixKey::NewPattern => cursor < s.order.len() && cursor < s.order_repeats.len(),
        MatrixKey::ClonePattern => cursor < s.order.len() && cursor < s.order_repeats.len(),
        MatrixKey::Insert => cursor < s.order.len() && cursor < s.order_repeats.len(),
        MatrixKey::Delete => s.order.len() > 1 ==> cursor < s.order.len() && cursor < s.order_repeats.len(),
        MatrixKey::RepeatUp => cursor < s.order.len(),
        MatrixKey::RepeatDown => cursor < s.order.len(),
        MatrixKey::NextPattern => cursor < s.order.len(),
        MatrixKey::PrevPattern => cursor < s.order.len(),
        _ => true,
    }
}

/// The cursor after a navigation command over `len` entries.
pub open spec fn matrix_moved(cursor: int, len: int, k: MatrixKey) -> int {
    match k {
        MatrixKey::Up => if cursor > 0 { cursor - 1 } else { cursor },
        MatrixKey::Down => if cursor + 1 < len { cursor + 1 } else { cursor },
        MatrixKey::Home => 0,
        MatrixKey::End => if len > 0 { len - 1 } else { cursor },
        MatrixKey::PageUp => if cursor >= 8 { cursor - 8 } else { 0 },
        MatrixKey::PageDown => {
            let last = if len >= 1 { len - 1 } else { 0 };
            if cursor + 8 <= last { cursor + 8 } else { last }
        },
        _ => cursor,
    }
}

/// The song after a matrix command at `cursor`.
pub open spec fn matrix_song(s: SongModel, cursor: int, k: MatrixKey) -> SongModel {
    match k {
        MatrixKey::NewPattern => with_new_after(s, cursor),
        MatrixKey::ClonePattern => with_clone_after(s, cursor),
        MatrixKey::Insert => SongModel {
            order: s.order.insert(cursor + 1, s.order[cursor]),
            order_repeats: s.order_repeats.insert(cursor + 1, 1),
            ..s
        },
        MatrixKey::Delete => if s.order.len() > 1 {
            SongModel { order: s.order.remove(cursor), order_repeats: s.order_repeats.remove(cursor), ..s }
        } else {
            s
        },
        MatrixKey::RepeatUp => {
            let r = synced_repeats(s.order.len() as int, s.order_repeats);
            SongModel { order_repeats: if r[cursor] < 99 { r.update(cursor, (r[cursor] + 1) as u8) } else { r }, ..s }
        },
        MatrixKey::RepeatDown => {
            let r = synced_repeats(s.order.len() as int, s.order_repeats);
            SongModel { order_repeats: if r[cursor] > 0 { r.update(cursor, (r[cursor] - 1) as u8) } else { r }, ..s }
        },
        MatrixKey::NextPattern => if s.order[cursor] + 1 < s.patterns.len() {
            SongModel { order: s.order.update(cursor, (s.order[cursor] + 1) as usize), ..s }
        } else {
            s
        },
        MatrixKey::PrevPattern => if s.order[cursor] > 0 {
            SongModel { order: s.order.update(cursor, (s.order[cursor] - 1) as usize), ..s }
        } else {
            s
        },
        _ => s,
    }
}

/// Deleting in the pattern matrix removes the entry under the cursor (and its repeat
/// count), closing the gap: entries before it stay, later ones move up by one; the
/// last remaining entry is never deleted. Inserting puts a copy of the entry under the
/// cursor right after it, played once.
pub proof fn law_matrix_delete_insert(s: SongModel, cursor: int)
    requires
        0 <= cursor < s.order.len(),
        cursor < s.order_repeats.len(),
    ensures
        ({
            let d = matrix_song(s, cursor, MatrixKey::Delete);
            &&& s.order.len() > 1 ==> {
                &&& d.order.len() == s.order.len() - 1
                &&& d.order_repeats.len() == s.order_repeats.len() - 1
                &&& forall|j: int| 0 <= j < cursor ==> d.order[j] == s.order[j] && d.order_repeats[j] == s.order_repeats[j]
                &&& forall|j: int| cursor <= j < d.order.len() ==> d.order[j] == s.order[j + 1]
                &&& forall|j: int| cursor <= j < d.order_repeats.len() ==> d.order_repeats[j] == s.order_repeats[j + 1]
                &&& d.patterns == s.patterns
            }
            &&& s.order.len() == 1 ==> d == s
        }),
        ({
            let n = matrix_song(s, cursor, MatrixKey::Insert);
            &&& n.order.len() == s.order.len() + 1
            &&& forall|j: int| 0 <= j <= cursor ==> n.order[j] == s.order[j]
            &&& n.order[cursor + 1] == s.order[cursor]
            &&& n.order_repeats[cursor + 1] == 1
            &&& forall|j: int| cursor + 1 < j < n.order.len() ==> n.order[j] == s.order[j - 1]
            &&& n.patterns == s.patterns
        }),
{
}

/// Whether a matrix command records the song for undo first.
pub open spec fn matrix_records(s: SongModel, cursor: int, k: MatrixKey) -> bool {
    match k {
        MatrixKey::NewPattern => true,
        MatrixKey::ClonePattern => true,
        MatrixKey::Insert => true,
        MatrixKey::Delete => s.order.len() > 1,
        MatrixKey::RepeatUp => true,
        MatrixKey::RepeatDown => true,
        MatrixKey::NextPattern => s.order[cursor] + 1 < s.patterns.len(),
        MatrixKey::PrevPattern => s.order[cursor] > 0,
        _ => false,
    }
}

/// Carry out a pattern matrix command with the cursor on order position `cursor`.
pub fn handle_matrix_key(song: &mut Song, history: &mut EditHistory, cursor: usize, k: MatrixKey) -> (out: MatrixOutcome)
    requires
        song_wf(old(song)@),
        matrix_ready(old(song)@, cursor as int, k),
    ensures
        final(song)@ == matrix_song(old(song)@, cursor as int, k),
        final(history).model() == if matrix_records(old(song)@, cursor as int, k) {
            after_push_undo(old(history).model(), old(song)@)
        } else {
            old(history).model()
        },
        song_wf(final(song)@),
        out.close == (k == MatrixKey::Close || k == MatrixKey::Enter),
        out.jump == (k == MatrixKey::Enter),
        out.cursor == match k {
            MatrixKey::NewPattern => cursor + 1,
            MatrixKey::ClonePattern => cursor + 1,
            MatrixKey::Insert => cursor + 1,
            MatrixKey::Delete => if old(song)@.order.len() > 1 && cursor >= old(song)@.order.len() - 1 {
                old(song)@.order.len() - 2
            } else {
                cursor as int
            },
            _ => matrix_moved(cursor as int, old(song)@.order.len() as int, k),
        },
        out.changed == match k {
            MatrixKey::RepeatUp => synced_repeats(old(song)@.order.len() as int, old(song)@.order_repeats)[cursor as int] < 99,
            MatrixKey::RepeatDown => synced_repeats(old(song)@.order.len() as int, old(song)@.order_repeats)[cursor as int] > 0,
            _ => matrix_records(old(song)@, cursor as int, k),
        },
        out.status == match k {
            MatrixKey::NewPattern => Some(MatrixStatus::NewPattern(old(song)@.patterns.len() as usize)),
            MatrixKey::ClonePattern => Some(MatrixStatus::Cloned(old(song)@.order[cursor as int], old(song)@.patterns.len() as usize)),
            MatrixKey::Delete => if old(song)@.order.len() > 1 { Some(MatrixStatus::Removed) } else { Some(MatrixStatus::CannotRemoveLast) },
            _ => None::<MatrixStatus>,
        },
        final(history).clipboard == old(history).clipboard,
        final(history).block_clipboard == old(history).block_clipboard,
        final(history).block_anchor == old(history).block_anchor,
{
    let len = song.order.len();
    let mut out = MatrixOutcome { cursor, close: false, jump: false, changed: false, status: None };
    match k {
        MatrixKey::NewPattern => {
            history.push_undo(song);
            let idx = song.add_pattern();
            song.order.insert(cursor + 1, idx);
            song.order_repeats.insert(cursor + 1, 1);
            proof {
                lemma_empty_model_wf(old(song).rows_per_pattern, old(song).channels);
                assert(song@.patterns =~= with_new_after(old(song)@, cursor as int).patterns);
                assert(song@ == with_new_after(old(song)@, cursor as int));
                lemma_grown_song_wf(old(song)@, song@, cursor as int);
            }
            out.cursor = cursor + 1;
            out.changed = true;
            out.status = Some(MatrixStatus::NewPattern(idx));
        },
        MatrixKey::ClonePattern => {
            let src = song.order[cursor];
            let new_idx = song.patterns.len();
            let c = clone_current_pattern(song, history, cursor);
            out.cursor = c;
            out.changed = true;
            out.status = Some(MatrixStatus::Cloned(src, new_idx));
        },
        MatrixKey::Close => {
            out.close = true;
        },
        MatrixKey::Up => {
            if cursor > 0 {
                out.cursor = cursor - 1;
            }
        },
        MatrixKey::Down => {
            if cursor < len && len - cursor > 1 {
                out.cursor = cursor + 1;
            }
        },
        MatrixKey::Home => {
            out.cursor = 0;
        },
        MatrixKey::End => {
            if len > 0 {
                out.cursor = len - 1;
            }
        },
        MatrixKey::PageUp => {
            out.cursor = if cursor >= 8 { cursor - 8 } else { 0 };
        },
        MatrixKey::PageDown => {
            let last = if len >= 1 { len - 1 } else { 0 };
            out.cursor = if cursor <= last && last - cursor >= 8 { cursor + 8 } else { last };
        },
        MatrixKey::Enter => {
            out.close = true;
            out.jump = true;
        },
        MatrixKey::Insert => {
            history.push_undo(song);
            let pat = song.order[cursor];
            song.order.insert(cursor + 1, pat);
            song.order_repeats.insert(cursor + 1, 1);
            proof {
                assert forall|j: int| 0 <= j < song@.order.len() implies #[trigger] song@.order[j] < song@.patterns.len() by {
                    if j < cursor + 1 {
                        assert(song@.order[j] == old(song)@.order[j]);
                    } else if j > cursor + 1 {
                        assert(song@.order[j] == old(song)@.order[j - 1]);
                    }
                }
            }
            out.cursor = cursor + 1;
            out.changed = true;
        },
        MatrixKey::Delete => {
            if len > 1 {
                history.push_undo(song);
                song.order.remove(cursor);
                song.order_repeats.remove(cursor);
                proof {
                    assert forall|j: int| 0 <= j < song@.order.len() implies #[trigger] song@.order[j] < song@.patterns.len() by {
                        if j < cursor {
                            assert(song@.order[j] == old(song)@.order[j]);
                        } else {
                            assert(song@.order[j] == old(song)@.order[j + 1]);
                        }
                    }
                }
                if cursor >= song.order.len() {
                    out.cursor = song.order.len() - 1;
                }
                out.changed = true;
                out.status = Some(MatrixStatus::Removed);
            } else {
                out.status = Some(MatrixStatus::CannotRemoveLast);
            }
        },
        MatrixKey::RepeatUp => {
            history.push_undo(song);
            sync_order_repeats(song);
            let cur = song.order_repeats[cursor];
            if cur < 99 {
                song.order_repeats.set(cursor, cur + 1);
                out.changed = true;
            }
        },
        MatrixKey::RepeatDown => {
            history.push_undo(song);
            sync_order_repeats(song);
            let cur = song.order_repeats[cursor];
            if cur > 0 {
                song.order_repeats.set(cursor, cur - 1);
                out.changed = true;
            }
        },
        MatrixKey::NextPattern => {
            let cur = song.order[cursor];
            if cur < song.patterns.len() - 1 {
                history.push_undo(song);
                song.order.set(cursor, cur + 1);
                out.changed = true;
            }
        },
        MatrixKey::PrevPattern => {
            let cur = song.order[cursor];
            if cur > 0 {
                history.push_undo(song);
                song.order.set(cursor, cur - 1);
                out.changed = true;
            }
        },
    }
    out
}


fn copy_cells(v: &Vec<Cell>) -> (r: Vec<Cell>)
    ensures
        r@ == v@,
{
    let mut r: Vec<Cell> = Vec::new();
    let mut i: usize = 0;
    while i < v.len()
        invariant
            i <= v@.len(),
            r@ == v@.take(i as int),
        decreases v@.len() - i,
    {
        r.push(v[i]);
        proof { assert(r@ =~= v@.take(i as int + 1)); }
        i = i + 1;
    }
    proof { assert(v@.take(v@.len() as int) =~= v@); }
    r
}

fn copy_grid(v: &Vec<Vec<Cell>>) -> (r: Vec<Vec<Cell>>)
    ensures
        block_view(r@) == block_view(v@),
{
    let mut r: Vec<Vec<Cell>> = Vec::new();
    let mut i: usize = 0;
    while i < v.len()
        invariant
            i <= v@.len(),
            r@.len() == i,
            forall|k: int| 0 <= k < i ==> #[trigger] r@[k]@ == v@[k]@,
        decreases v@.len() - i,
    {
        r.push(copy_cells(&v[i]));
        i = i + 1;
    }
    proof { assert(block_view(r@) =~= block_view(v@)); }
    r
}

/// The row clipboard's cells, if it holds any.
pub open spec fn clipboard_cells(h: &EditHistory) -> Option<Seq<Cell>> {
    match h.clipboard {
        Some(v) => Some(v@),
        None => None,
    }
}

/// The block clipboard's rows, if it holds any.
pub open spec fn block_clipboard_rows(h: &EditHistory) -> Option<Seq<Seq<Cell>>> {
    match h.block_clipboard {
        Some(v) => Some(block_view(v@)),
        None => None,
    }
}

/// Copy row `r` of pattern `p` to the row clipboard.
pub fn copy_row(song: &Song, history: &mut EditHistory, p: usize, r: usize)
    requires
        song_wf(song@),
        p < song@.patterns.len(),
        r < song@.patterns[p as int].rows,
    ensures
        clipboard_cells(final(history)) == Some(song@.patterns[p as int].grid[r as int]),
        final(history).model() == old(history).model(),
        final(history).block_clipboard == old(history).block_clipboard,
        final(history).block_anchor == old(history).block_anchor,
{
    let cells = row_cells(song, p, r);
    history.clipboard = Some(cells);
}

/// Paste the row clipboard over row `r` of pattern `p`, after recording the song for
/// undo; nothing happens with an empty clipboard. Returns whether it pasted.
pub fn paste_row(song: &mut Song, history: &mut EditHistory, p: usize, r: usize) -> (done: bool)
    requires
        song_wf(old(song)@),
        p < old(song)@.patterns.len(),
        r < old(song)@.patterns[p as int].rows,
    ensures
        done == old(history).clipboard is Some,
        song_wf(final(song)@),
        match clipboard_cells(old(history)) {
            Some(cells) => {
                &&& final(song)@ == with_grid(old(song)@, p as int, old(song)@.patterns[p as int].grid.update(
                    r as int,
                    pasted_row(old(song)@.patterns[p as int].grid[r as int], cells),
                ))
                &&& final(history).model() == after_push_undo(old(history).model(), old(song)@)
            },
            None => final(song)@ == old(song)@ && final(history).model() == old(history).model(),
        },
        final(history).clipboard == old(history).clipboard,
        final(history).block_clipboard == old(history).block_clipboard,
        final(history).block_anchor == old(history).block_anchor,
{
    match &history.clipboard {
        Some(v) => {
            let cells = copy_cells(v);
            history.push_undo(song);
            paste_row_cells(song, p, r, &cells);
            true
        },
        None => false,
    }
}

/// Copy row `r` of pattern `p` to the row clipboard and empty it, recording the song
/// for undo.
pub fn cut_row(song: &mut Song, history: &mut EditHistory, p: usize, r: usize)
    requires
        song_wf(old(song)@),
        p < old(song)@.patterns.len(),
        r < old(song)@.patterns[p as int].rows,
    ensures
        clipboard_cells(final(history)) == Some(old(song)@.patterns[p as int].grid[r as int]),
        final(history).model() == after_push_undo(old(history).model(), old(song)@),
        final(song)@ == with_grid(old(song)@, p as int, old(song)@.patterns[p as int].grid.update(
            r as int,
            cleared_row(old(song)@.patterns[p as int].grid[r as int]),
        )),
        song_wf(final(song)@),
        final(history).block_clipboard == old(history).block_clipboard,
        final(history).block_anchor == old(history).block_anchor,
{
    copy_row(song, history, p, r);
    history.push_undo(song);
    clear_row(song, p, r);
}

/// Start a block selection at the cursor, or end the one in progress.
pub fn toggle_block_select(history: &mut EditHistory, row: usize, ch: usize)
    ensures
        final(history).block_anchor == if old(history).block_anchor is Some { None } else { Some((row, ch)) },
        final(history).model() == old(history).model(),
        final(history).clipboard == old(history).clipboard,
        final(history).block_clipboard == old(history).block_clipboard,
{
    if history.block_anchor.is_some() {
        history.block_anchor = None;
    } else {
        history.block_anchor = Some((row, ch));
    }
}

/// Copy the selected block (between the anchor and the cursor) of pattern `p` to the
/// block clipboard; nothing happens without a selection.
pub fn copy_selection(song: &Song, history: &mut EditHistory, p: usize, row: usize, ch: usize)
    requires
        song_wf(song@),
        bounds_of(old(history).block_anchor, row, ch) matches Some(b) ==> block_in(song@, p as int, b),
    ensures
        match bounds_of(old(history).block_anchor, row, ch) {
            Some(b) => block_clipboard_rows(final(history)) == Some(block_cells(song@, p as int, b)),
            None => final(history).block_clipboard == old(history).block_clipboard,
        },
        final(history).model() == old(history).model(),
        final(history).clipboard == old(history).clipboard,
        final(history).block_anchor == old(history).block_anchor,
{
    if let Some(b) = block_bounds(history.block_anchor, row, ch) {
        let block = copy_block(song, p, b);
        history.block_clipboard = Some(block);
    }
}

/// Copy the selected block to the block clipboard, then empty it and end the
/// selection, recording the song for undo; nothing happens without a selection.
pub fn cut_selection(song: &mut Song, history: &mut EditHistory, p: usize, row: usize, ch: usize)
    requires
        song_wf(old(song)@),
        bounds_of(old(history).block_anchor, row, ch) matches Some(b) ==> block_in(old(song)@, p as int, b),
    ensures
        song_wf(final(song)@),
        match bounds_of(old(history).block_anchor, row, ch) {
            Some(b) => {
                &&& block_clipboard_rows(final(history)) == Some(block_cells(old(song)@, p as int, b))
                &&& final(history).model() == after_push_undo(old(history).model(), old(song)@)
                &&& final(song)@ == with_grid(old(song)@, p as int, rows_edited(
                    old(song)@.patterns[p as int].grid,
                    b.0 as int,
                    b.1 + 1,
                    b.2 as int,
                    b.3 as int,
                    true,
                    0,
                ))
                &&& final(history).block_anchor is None
            },
            None => final(song)@ == old(song)@ && final(history).model() == old(history).model()
                && final(history).block_anchor == old(history).block_anchor
                && final(history).block_clipboard == old(history).block_clipboard,
        },
        final(history).clipboard == old(history).clipboard,
{
    if let Some(b) = block_bounds(history.block_anchor, row, ch) {
        let block = copy_block(song, p, b);
        history.block_clipboard = Some(block);
        history.push_undo(song);
        edit_block(song, p, b, true, 0);
        history.block_anchor = None;
    }
}

/// Paste the block clipboard with its top left cell at the cursor, recording the song
/// for undo; nothing happens with an empty block clipboard. Returns whether it pasted.
pub fn paste_selection(song: &mut Song, history: &mut EditHistory, p: usize, row: usize, ch: usize) -> (done: bool)
    requires
        song_wf(old(song)@),
        p < old(song)@.patterns.len(),
    ensures
        done == old(history).block_clipboard is Some,
        song_wf(final(song)@),
        match block_clipboard_rows(old(history)) {
            Some(block) => {
                &&& final(song)@ == with_grid(old(song)@, p as int, grid_pasted(
                    old(song)@.patterns[p as int].grid,
                    block,
                    row as int,
                    ch as int,
                    old(song)@.patterns[p as int].rows as int,
                ))
                &&& final(history).model() == after_push_undo(old(history).model(), old(song)@)
            },
            None => final(song)@ == old(song)@ && final(history).model() == old(history).model(),
        },
        final(history).clipboard == old(history).clipboard,
        final(history).block_clipboard == old(history).block_clipboard,
        final(history).block_anchor == old(history).block_anchor,
{
    match &history.block_clipboard {
        Some(v) => {
            let block = copy_grid(v);
            history.push_undo(song);
            paste_block(song, p, &block, row, ch);
            true
        },
        None => false,
    }
}

/// Transpose by `semitones` the notes of the selected block, or of the cell at the
/// cursor without a selection, after recording the song for undo.
pub fn transpose_notes(song: &mut Song, history: &mut EditHistory, p: usize, row: usize, ch: usize, semitones: i8)
    requires
        song_wf(old(song)@),
        match bounds_of(old(history).block_anchor, row, ch) {
            Some(b) => block_in(old(song)@, p as int, b),
            None => cell_in(old(song)@, p as int, row as int, ch as int),
        },
    ensures
        final(history).model() == after_push_undo(old(history).model(), old(song)@),
        song_wf(final(song)@),
        match bounds_of(old(history).block_anchor, row, ch) {
            Some(b) => final(song)@ == with_grid(old(song)@, p as int, rows_edited(
                old(song)@.patterns[p as int].grid,
                b.0 as int,
                b.1 + 1,
                b.2 as int,
                b.3 as int,
                false,
                semitones,
            )),
            None => final(song)@ == with_cell(old(song)@, p as int, row as int, ch as int,
                transposed(old(song)@.patterns[p as int].grid[row as int][ch as int], semitones)),
        },
        final(history).clipboard == old(history).clipboard,
        final(history).block_clipboard == old(history).block_clipboard,
        final(history).block_anchor == old(history).block_anchor,
{
    history.push_undo(song);
    match block_bounds(history.block_anchor, row, ch) {
        Some(b) => {
            edit_block(song, p, b, false, semitones);
        },
        None => {
            let mut x = cell_at(song, p, row, ch);
            transpose_cell_note(&mut x, semitones);
            set_song_cell(song, p, row, ch, x);
        },
    }
}

/// The value a fraction `k / n` of the way from `a` to `b`, rounded to the nearest
/// integer, halves upwards.
pub open spec fn lerp(a: u8, b: u8, k: int, n: int) -> int {
    (2 * (a * (n - k) + b * k) + n) / (2 * n)
}

/// Cell `x` of a row `k` steps into an interpolation of `n` steps whose column starts
/// at `first` and ends at `last`: a volume set at both ends is interpolated, and so
/// is the effect value where both ends carry the same effect with a value.
pub open spec fn interpolated_cell(x: Cell, first: Cell, last: Cell, k: int, n: int) -> Cell {
    let with_volume = match (first.volume, last.volume) {
        (Some(v0), Some(v1)) => Cell { volume: Some(lerp(v0, v1, k, n) as u8), ..x },
        _ => x,
    };
    match (first.effect, first.effect_value, last.effect_value) {
        (Some(e), Some(e0), Some(e1)) => if last.effect == Some(e) {
            Cell { effect: Some(e), effect_value: Some(lerp(e0, e1, k, n) as u8), ..with_volume }
        } else {
            with_volume
        },
        _ => with_volume,
    }
}

/// Row `r` of an interpolation over rows `r0..=r1` and channels `c0..=c1`, whose end
/// rows are `first` and `last`.
pub open spec fn interpolated_span(row: Seq<Cell>, first: Seq<Cell>, last: Seq<Cell>, r: int, r0: int, r1: int, c0: int, c1: int) -> Seq<Cell> {
    Seq::new(row.len(), |c: int| if c0 <= c <= c1 {
        interpolated_cell(row[c], first[c], last[c], r - r0, r1 - r0)
    } else {
        row[c]
    })
}

/// The grid with rows `r0..upto` of the block `r0..=r1`, `c0..=c1` interpolated
/// between the block's first and last rows.
pub open spec fn grid_interpolated(g: Seq<Seq<Cell>>, r0: int, r1: int, c0: int, c1: int, upto: int) -> Seq<Seq<Cell>> {
    Seq::new(g.len(), |i: int| if r0 <= i < upto {
        interpolated_span(g[i], g[r0], g[r1], i, r0, r1, c0, c1)
    } else {
        g[i]
    })
}

/// The interpolation starts and ends at the block's end values and stays between
/// them on the rows in between.
pub proof fn law_interpolation_between_ends(a: u8, b: u8, k: int, n: int)
    requires
        0 < n,
        0 <= k <= n,
    ensures
        lerp(a, b, 0, n) == a,
        lerp(a, b, n, n) == b,
        a <= b ==> a <= lerp(a, b, k, n) <= b,
        b <= a ==> b <= lerp(a, b, k, n) <= a,
{
    let m = 2 * n;
    assert((2 * (a * (n - 0) + b * 0) + n) == a * m + n) by (nonlinear_arith) requires m == 2 * n;
    assert((a * m + n) / m == a) by (nonlinear_arith) requires m == 2 * n, n > 0, a >= 0;
    assert((2 * (a * (n - n) + b * n) + n) == b * m + n) by (nonlinear_arith) requires m == 2 * n;
    assert((b * m + n) / m == b) by (nonlinear_arith) requires m == 2 * n, n > 0, b >= 0;
    let num = 2 * (a * (n - k) + b * k) + n;
    if a <= b {
        assert(a * m <= num) by (nonlinear_arith) requires num == 2 * (a * (n - k) + b * k) + n, m == 2 * n, a <= b, 0 <= k <= n;
        assert(num < (b + 1) * m) by (nonlinear_arith) requires num == 2 * (a * (n - k) + b * k) + n, m == 2 * n, a <= b, 0 <= k <= n, n > 0;
        assert(a <= num / m < b + 1) by (nonlinear_arith) requires a * m <= num, num < (b + 1) * m, m > 0, a >= 0;
    } else {
        assert(b * m <= num) by (nonlinear_arith) requires num == 2 * (a * (n - k) + b * k) + n, m == 2 * n, b <= a, 0 <= k <= n;
        assert(num < (a + 1) * m) by (nonlinear_arith) requires num == 2 * (a * (n - k) + b * k) + n, m == 2 * n, b <= a, 0 <= k <= n, n > 0;
        assert(b <= num / m < a + 1) by (nonlinear_arith) requires b * m <= num, num < (a + 1) * m, m > 0, b >= 0;
    }
}

fn lerp_u8(a: u8, b: u8, k: usize, n: usize) -> (v: u8)
    requires
        0 < n,
        k <= n,
    ensures
        v == lerp(a, b, k as int, n as int),
{
    let ai = a as u128;
    let bi = b as u128;
    let ki = k as u128;
    let ni = n as u128;
    let rest = ni - ki;
    proof {
        assert(ai * rest <= 255 * rest) by (nonlinear_arith) requires ai <= 255;
        assert(bi * ki <= 255 * ki) by (nonlinear_arith) requires bi <= 255;
    }
    let num: u128 = 2 * (ai * rest + bi * ki) + ni;
    let den: u128 = 2 * ni;
    proof {
        assert(num < 256 * den);
        assert(num / den < 256) by (nonlinear_arith) requires num < 256 * den, den > 0;
    }
    (num / den) as u8
}

fn interpolate_cell(x: Cell, first: Cell, last: Cell, k: usize, n: usize) -> (y: Cell)
    requires
        0 < n,
        k <= n,
    ensures
        y == interpolated_cell(x, first, last, k as int, n as int),
{
    let mut y = x;
    if let (Some(v0), Some(v1)) = (first.volume, last.volume) {
        y.volume = Some(lerp_u8(v0, v1, k, n));
    }
    if let (Some(e), Some(e0), Some(e1)) = (first.effect, first.effect_value, last.effect_value) {
        if let Some(le) = last.effect {
            if le == e {
                y.effect = Some(e);
                y.effect_value = Some(lerp_u8(e0, e1, k, n));
            }
        }
    }
    y
}

fn interpolate_span(cells: &Vec<Cell>, first: &Vec<Cell>, last: &Vec<Cell>, r: usize, r0: usize, r1: usize, c0: usize, c1: usize) -> (row: Vec<Cell>)
    requires
        r0 <= r <= r1,
        r0 < r1,
        c1 < cells@.len(),
        first@.len() == cells@.len(),
        last@.len() == cells@.len(),
    ensures
        row@ == interpolated_span(cells@, first@, last@, r as int, r0 as int, r1 as int, c0 as int, c1 as int),
{
    let ghost want = interpolated_span(cells@, first@, last@, r as int, r0 as int, r1 as int, c0 as int, c1 as int);
    let mut row: Vec<Cell> = Vec::new();
    let mut c: usize = 0;
    while c < cells.len()
        invariant
            r0 <= r <= r1,
            r0 < r1,
            first@.len() == cells@.len(),
            last@.len() == cells@.len(),
            c <= cells@.len(),
            want == interpolated_span(cells@, first@, last@, r as int, r0 as int, r1 as int, c0 as int, c1 as int),
            row@ == want.take(c as int),
        decreases cells@.len() - c,
    {
        let x = if c0 <= c && c <= c1 {
            interpolate_cell(cells[c], first[c], last[c], r - r0, r1 - r0)
        } else {
            cells[c]
        };
        row.push(x);
        proof { assert(row@ =~= want.take(c as int + 1)); }
        c = c + 1;
    }
    proof { assert(want.take(cells@.len() as int) =~= want); }
    row
}

/// Interpolate, column by column, the volumes and effect values of the block `b` of
/// pattern `p` between its first and last rows (see `interpolated_cell`).
pub fn interpolate_block(song: &mut Song, p: usize, b: (usize, usize, usize, usize))
    requires
        song_wf(old(song)@),
        block_in(old(song)@, p as int, b),
        b.0 < b.1,
    ensures
        final(song)@ == with_grid(old(song)@, p as int, grid_interpolated(
            old(song)@.patterns[p as int].grid,
            b.0 as int,
            b.1 as int,
            b.2 as int,
            b.3 as int,
            b.1 + 1,
        )),
        song_wf(final(song)@),
{
    let (r0, r1, c0, c1) = b;
    let ghost s0 = song@;
    let ghost g0 = s0.patterns[p as int].grid;
    proof {
        lemma_same_grid(s0, p as int);
        assert(grid_interpolated(g0, r0 as int, r1 as int, c0 as int, c1 as int, r0 as int) =~= g0);
    }
    let first = row_cells(song, p, r0);
    let last = row_cells(song, p, r1);
    let mut r = r0;
    while r <= r1
        invariant
            song_wf(song@),
            block_in(s0, p as int, b),
            b == (r0, r1, c0, c1),
            r0 < r1,
            g0 == s0.patterns[p as int].grid,
            model_wf(s0.patterns[p as int]),
            first@ == g0[r0 as int],
            last@ == g0[r1 as int],
            r0 <= r <= r1 + 1,
            song@ == with_grid(s0, p as int, grid_interpolated(g0, r0 as int, r1 as int, c0 as int, c1 as int, r as int)),
        decreases r1 + 1 - r,
    {
        let ghost before = grid_interpolated(g0, r0 as int, r1 as int, c0 as int, c1 as int, r as int);
        proof {
            assert(song@.patterns[p as int].grid == before);
            assert(before[r as int] == g0[r as int]);
        }
        let cells = row_cells(song, p, r);
        let row = interpolate_span(&cells, &first, &last, r, r0, r1, c0, c1);
        set_song_row(song, p, r, row);
        proof {
            let after = grid_interpolated(g0, r0 as int, r1 as int, c0 as int, c1 as int, r + 1);
            assert(before.update(r as int, interpolated_span(g0[r as int], g0[r0 as int], g0[r1 as int],
                r as int, r0 as int, r1 as int, c0 as int, c1 as int)) =~= after);
            assert(song@.patterns =~= with_grid(s0, p as int, after).patterns);
        }
        r = r + 1;
    }
}

/// What an interpolation of the selection did.
#[derive(Clone, Copy, Debug, PartialEq, Eq, Structural)]
pub enum InterpolateOutcome {
    /// No block is selected.
    NoBlock,
    /// The selection spans a single row.
    TooFewRows,
    /// The block was interpolated.
    Interpolated,
}

/// Interpolate the selected block (see `interpolate_block`), recording the song for
/// undo first; a selection of one row, or none, changes nothing.
pub fn interpolate_selection(song: &mut Song, history: &mut EditHistory, p: usize, row: usize, ch: usize) -> (out: InterpolateOutcome)
    requires
        song_wf(old(song)@),
        bounds_of(old(history).block_anchor, row, ch) matches Some(b) ==> block_in(old(song)@, p as int, b),
    ensures
        song_wf(final(song)@),
        final(history).clipboard == old(history).clipboard,
        final(history).block_clipboard == old(history).block_clipboard,
        final(history).block_anchor == old(history).block_anchor,
        match bounds_of(old(history).block_anchor, row, ch) {
            None => out == InterpolateOutcome::NoBlock,
            Some(b) => if b.1 <= b.0 { out == InterpolateOutcome::TooFewRows } else { out == InterpolateOutcome::Interpolated },
        },
        out == InterpolateOutcome::Interpolated ==> ({
            let b = bounds_of(old(history).block_anchor, row, ch)->0;
            &&& final(history).model() == after_push_undo(old(history).model(), old(song)@)
            &&& final(song)@ == with_grid(old(song)@, p as int, grid_interpolated(
                old(song)@.patterns[p as int].grid,
                b.0 as int,
                b.1 as int,
                b.2 as int,
                b.3 as int,
                b.1 + 1,
            ))
        }),
        out != InterpolateOutcome::Interpolated ==> final(song)@ == old(song)@ && final(history).model() == old(history).model(),
{
    match block_bounds(history.block_anchor, row, ch) {
        None => InterpolateOutcome::NoBlock,
        Some(b) => {
            if b.1 <= b.0 {
                InterpolateOutcome::TooFewRows
            } else {
                history.push_undo(song);
                interpolate_block(song, p, b);
                InterpolateOutcome::Interpolated
            }
        },
    }
}


/// Pasting a row's own cells gives the row back, and pasting the cells a cut took
/// away restores the row: cut then paste at the same place is no change.
pub proof fn law_row_paste_restores(row: Seq<Cell>)
    ensures
        pasted_row(row, row) == row,
        pasted_row(cleared_row(row), row) == row,
{
    assert(pasted_row(row, row) =~= row);
    assert(pasted_row(cleared_row(row), row) =~= row);
}

/// Pasting a copied block back where it was copied from leaves the pattern as it is;
/// so does pasting it over the cleared block (cut then paste).
pub proof fn law_block_paste_restores(s: SongModel, p: int, b: (usize, usize, usize, usize))
    requires
        song_wf(s),
        block_in(s, p, b),
    ensures
        grid_pasted(s.patterns[p].grid, block_cells(s, p, b), b.0 as int, b.2 as int, s.patterns[p].rows as int)
            == s.patterns[p].grid,
        grid_pasted(
            rows_edited(s.patterns[p].grid, b.0 as int, b.1 + 1, b.2 as int, b.3 as int, true, 0),
            block_cells(s, p, b),
            b.0 as int,
            b.2 as int,
            s.patterns[p].rows as int,
        ) == s.patterns[p].grid,
{
    let g = s.patterns[p].grid;
    let bc = block_cells(s, p, b);
    assert(model_wf(s.patterns[p]));
    let cut = rows_edited(g, b.0 as int, b.1 + 1, b.2 as int, b.3 as int, true, 0);
    assert forall|i: int| 0 <= i < g.len() implies #[trigger] paste_span(g[i], bc, i, b.0 as int, b.2 as int) =~= g[i] by {
        if b.0 <= i <= b.1 {
            assert(bc[i - b.0] == g[i].subrange(b.2 as int, b.3 + 1));
        }
    }
    assert(grid_pasted(g, bc, b.0 as int, b.2 as int, s.patterns[p].rows as int) =~= g);
    assert forall|i: int| 0 <= i < g.len() implies #[trigger] paste_span(cut[i], bc, i, b.0 as int, b.2 as int) =~= g[i] by {
        if b.0 <= i <= b.1 {
            assert(bc[i - b.0] == g[i].subrange(b.2 as int, b.3 + 1));
        }
    }
    assert(grid_pasted(cut, bc, b.0 as int, b.2 as int, s.patterns[p].rows as int) =~= g);
}


/// The commands of the command line.
#[derive(Clone, Copy, Debug, PartialEq, Eq, Structural)]
pub enum Command {
    /// Open the pattern matrix. (`p`, `pattern`)
    PatternMatrix,
    /// Quit, asking first when there are unsaved changes. (`q`, `quit`)
    Quit,
    /// Quit without asking. (`q!`)
    ForceQuit,
    /// Save the song. (`w`, `write`)
    Write,
    /// Save the song and quit. (`wq`)
    WriteQuit,
    /// Open the help screen. (`h`, `help`)
    Help,
    /// Open the song settings. (`set`, `settings`)
    Settings,
    /// Open the instrument list. (`inst`, `instruments`)
    Instruments,
    /// Open the MIDI port selector. (`midi`)
    Midi,
    /// Switch tempo sync on or off. (`link`)
    Link,
    /// Render the song to a WAV file. (`ew`, `wav`)
    ExportWav,
    /// Render the song to a FLAC file. (`ef`, `flac`)
    ExportFlac,
    /// Export the song as a MIDI file. (`em`, `exportmidi`)
    ExportMidi,
    /// Open the track configuration. (`fx`, `effects`)
    Effects,
    /// Browse for a sample for the cursor's track. (`load`)
    LoadSample,
    /// Browse for a song to open. (`open`)
    OpenSong,
    /// Anything else.
    Unknown,
}

/// The command named by the text typed on the command line.
pub open spec fn command_of(s: Seq<char>) -> Command {
    if s == seq!['p'] || s == seq!['p', 'a', 't', 't', 'e', 'r', 'n'] {
        Command::PatternMatrix
    } else if s == seq!['q'] || s == seq!['q', 'u', 'i', 't'] {
        Command::Quit
    } else if s == seq!['q', '!'] {
        Command::ForceQuit
    } else if s == seq!['w'] || s == seq!['w', 'r', 'i', 't', 'e'] {
        Command::Write
    } else if s == seq!['w', 'q'] {
        Command::WriteQuit
    } else if s == seq!['h'] || s == seq!['h', 'e', 'l', 'p'] {
        Command::Help
    } else if s == seq!['s', 'e', 't'] || s == seq!['s', 'e', 't', 't', 'i', 'n', 'g', 's'] {
        Command::Settings
    } else if s == seq!['i', 'n', 's', 't'] || s == seq!['i', 'n', 's', 't', 'r', 'u', 'm', 'e', 'n', 't', 's'] {
        Command::Instruments
    } else if s == seq!['m', 'i', 'd', 'i'] {
        Command::Midi
    } else if s == seq!['l', 'i', 'n', 'k'] {
        Command::Link
    } else if s == seq!['e', 'w'] || s == seq!['w', 'a', 'v'] {
        Command::ExportWav
    } else if s == seq!['e', 'f'] || s == seq!['f', 'l', 'a', 'c'] {
        Command::ExportFlac
    } else if s == seq!['e', 'm'] || s == seq!['e', 'x', 'p', 'o', 'r', 't', 'm', 'i', 'd', 'i'] {
        Command::ExportMidi
    } else if s == seq!['f', 'x'] || s == seq!['e', 'f', 'f', 'e', 'c', 't', 's'] {
        Command::Effects
    } else if s == seq!['l', 'o', 'a', 'd'] {
        Command::LoadSample
    } else if s == seq!['o', 'p', 'e', 'n'] {
        Command::OpenSong
    } else {
        Command::Unknown
    }
}

/// The command named by `cmd` (see `command_of`).
pub fn command_for(cmd: &str) -> (c: Command)
    ensures
        c == command_of(cmd@),
{
    proof {
        reveal_strlit("p");
        reveal_strlit("pattern");
        reveal_strlit("q");
        reveal_strlit("quit");
        reveal_strlit("q!");
        reveal_strlit("w");
        reveal_strlit("write");
        reveal_strlit("wq");
        reveal_strlit("h");
        reveal_strlit("help");
        reveal_strlit("set");
        reveal_strlit("settings");
        reveal_strlit("inst");
        reveal_strlit("instruments");
        reveal_strlit("midi");
        reveal_strlit("link");
        reveal_strlit("ew");
        reveal_strlit("wav");
        reveal_strlit("ef");
        reveal_strlit("flac");
        reveal_strlit("em");
        reveal_strlit("exportmidi");
        reveal_strlit("fx");
        reveal_strlit("effects");
        reveal_strlit("load");
        reveal_strlit("open");
        assert("p"@ =~= seq!['p']);
        assert("pattern"@ =~= seq!['p', 'a', 't', 't', 'e', 'r', 'n']);
        assert("q"@ =~= seq!['q']);
        assert("quit"@ =~= seq!['q', 'u', 'i', 't']);
        assert("q!"@ =~= seq!['q', '!']);
        assert("w"@ =~= seq!['w']);
        assert("write"@ =~= seq!['w', 'r', 'i', 't', 'e']);
        assert("wq"@ =~= seq!['w', 'q']);
        assert("h"@ =~= seq!['h']);
        assert("help"@ =~= seq!['h', 'e', 'l', 'p']);
        assert("set"@ =~= seq!['s', 'e', 't']);
        assert("settings"@ =~= seq!['s', 'e', 't', 't', 'i', 'n', 'g', 's']);
        assert("inst"@ =~= seq!['i', 'n', 's', 't']);
        assert("instruments"@ =~= seq!['i', 'n', 's', 't', 'r', 'u', 'm', 'e', 'n', 't', 's']);
        assert("midi"@ =~= seq!['m', 'i', 'd', 'i']);
        assert("link"@ =~= seq!['l', 'i', 'n', 'k']);
        assert("ew"@ =~= seq!['e', 'w']);
        assert("wav"@ =~= seq!['w', 'a', 'v']);
        assert("ef"@ =~= seq!['e', 'f']);
        assert("flac"@ =~= seq!['f', 'l', 'a', 'c']);
        assert("em"@ =~= seq!['e', 'm']);
        assert("exportmidi"@ =~= seq!['e', 'x', 'p', 'o', 'r', 't', 'm', 'i', 'd', 'i']);
        assert("fx"@ =~= seq!['f', 'x']);
        assert("effects"@ =~= seq!['e', 'f', 'f', 'e', 'c', 't', 's']);
        assert("load"@ =~= seq!['l', 'o', 'a', 'd']);
        assert("open"@ =~= seq!['o', 'p', 'e', 'n']);
    }
    if str_equal(cmd, "p") || str_equal(cmd, "pattern") {
        Command::PatternMatrix
    } else if str_equal(cmd, "q") || str_equal(cmd, "quit") {
        Command::Quit
    } else if str_equal(cmd, "q!") {
        Command::ForceQuit
    } else if str_equal(cmd, "w") || str_equal(cmd, "write") {
        Command::Write
    } else if str_equal(cmd, "wq") {
        Command::WriteQuit
    } else if str_equal(cmd, "h") || str_equal(cmd, "help") {
        Command::Help
    } else if str_equal(cmd, "set") || str_equal(cmd, "settings") {
        Command::Settings
    } else if str_equal(cmd, "inst") || str_equal(cmd, "instruments") {
        Command::Instruments
    } else if str_equal(cmd, "midi") {
        Command::Midi
    } else if str_equal(cmd, "link") {
        Command::Link
    } else if str_equal(cmd, "ew") || str_equal(cmd, "wav") {
        Command::ExportWav
    } else if str_equal(cmd, "ef") || str_equal(cmd, "flac") {
        Command::ExportFlac
    } else if str_equal(cmd, "em") || str_equal(cmd, "exportmidi") {
        Command::ExportMidi
    } else if str_equal(cmd, "fx") || str_equal(cmd, "effects") {
        Command::Effects
    } else if str_equal(cmd, "load") {
        Command::LoadSample
    } else if str_equal(cmd, "open") {
        Command::OpenSong
    } else {
        Command::Unknown
    }
}


/// The tracker note of MIDI note number `n`: octave `n / 12`, pitch `n % 12`.
pub open spec fn note_of_midi(n: u8) -> Note {
    Note::On { value: note_value_of((n % 12) as int).unwrap(), octave: (n / 12) as u8 }
}

/// The tracker note for an incoming MIDI note number (see `note_of_midi`).
pub fn note_from_midi(n: u8) -> (r: Note)
    ensures
        r == note_of_midi(n),
{
    let v = match NoteValue::from_index(n % 12) {
        Some(v) => v,
        None => NoteValue::C,
    };
    Note::On { value: v, octave: n / 12 }
}

/// A MIDI note entered from a keyboard plays back as the same MIDI note.
pub proof fn law_midi_note_roundtrip(n: u8)
    requires
        n <= 127,
    ensures
        midi_note_of(note_of_midi(n)) == Some(n),
{
    let v = note_value_of((n % 12) as int).unwrap();
    assert(note_index(v) == n % 12);
}

/// The cell after a MIDI keyboard note: the note, with the key velocity as volume.
pub open spec fn midi_entered(cell: Cell, n: u8, velocity: u8) -> Cell {
    Cell { note: Some(note_of_midi(n)), volume: Some(velocity), ..cell }
}

/// The cell after a MIDI keyboard note (see `midi_entered`).
pub fn enter_midi_note(cell: Cell, n: u8, velocity: u8) -> (r: Cell)
    ensures
        r == midi_entered(cell, n, velocity),
{
    let mut x = cell;
    x.note = Some(note_from_midi(n));
    x.volume = Some(velocity);
    x
}


/// Whether the song is well formed (see `song_wf`): a song read from a file is
/// checked before it is edited or played.
pub fn song_is_wf(song: &Song) -> (r: bool)
    ensures
        r == song_wf(song@),
{
    if song.order.len() == 0 {
        return false;
    }
    let np = song.patterns.len();
    let mut k: usize = 0;
    while k < song.order.len()
        invariant
            np == song@.patterns.len(),
            k <= song@.order.len(),
            forall|j: int| 0 <= j < k ==> #[trigger] song@.order[j] < np,
        decreases song@.order.len() - k,
    {
        if song.order[k] >= np {
            return false;
        }
        k = k + 1;
    }
    let mut i: usize = 0;
    while i < np
        invariant
            np == song@.patterns.len(),
            i <= np,
            forall|j: int| 0 <= j < i ==> #[trigger] model_wf(song@.patterns[j]),
        decreases np - i,
    {
        let p = &song.patterns[i];
        proof { lemma_pattern_view_wf(p); }
        proof { assert(song@.patterns[i as int] == p@); }
        if p.data.len() != p.rows {
            proof { assert(!model_wf(song@.patterns[i as int])); }
            return false;
        }
        let mut r: usize = 0;
        while r < p.rows
            invariant
                p.data@.len() == p.rows,
                song@.patterns[i as int] == p@,
                i < np,
                np == song@.patterns.len(),
                r <= p.rows,
                forall|q: int| 0 <= q < r ==> #[trigger] p.data@[q]@.len() == p.channels,
            decreases p.rows - r,
        {
            if p.data[r].len() != p.channels {
                proof {
                    assert(p@.grid[r as int] == p.data@[r as int]@);
                    assert(!model_wf(p@));
                }
                return false;
            }
            r = r + 1;
        }
        i = i + 1;
    }
    true
}

} // verus!
