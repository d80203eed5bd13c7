//! The file browser's listing and keys: which directory entries are shown, in which
//! order, and how the cursor moves. Reading the directory is the caller's.
use vstd::prelude::*;
use crate::edit::{KeyCode, KeyPress};
use crate::editor::{FileBrowserEntry, FileBrowserState};
use crate::text::str_equal;

verus! {

/// What `str::to_lowercase` gives for `s`: the Unicode lower-case form.
pub uninterp spec fn lowercase(s: Seq<char>) -> Seq<char>;

/// `str::to_lowercase`: the lower-case form of `s` under Unicode's case mapping. Its
/// result is named (`lowercase`), not described.
#[verifier::external_body]
fn to_lower(s: &str) -> (r: String)
    ensures
        r@ == lowercase(s@),
{
    s.to_lowercase()
}

/// `a` comes no later than `b` in the order of their characters (the order of
/// `String`'s comparison: by code point, a prefix first).
pub open spec fn text_le(a: Seq<char>, b: Seq<char>) -> bool
    decreases a.len(),
{
    if a.len() == 0 {
        true
    } else if b.len() == 0 {
        false
    } else if a[0] != b[0] {
        a[0] < b[0]
    } else {
        text_le(a.drop_first(), b.drop_first())
    }
}

/// Of two texts, one comes no later than the other.
pub proof fn lemma_text_le_total(a: Seq<char>, b: Seq<char>)
    ensures
        text_le(a, b) || text_le(b, a),
    decreases a.len(),
{
    if a.len() > 0 && b.len() > 0 && a[0] == b[0] {
        lemma_text_le_total(a.drop_first(), b.drop_first());
    }
}

/// The order of texts is transitive.
pub proof fn lemma_text_le_transitive(a: Seq<char>, b: Seq<char>, c: Seq<char>)
    requires
        text_le(a, b),
        text_le(b, c),
    ensures
        text_le(a, c),
    decreases a.len(),
{
    if a.len() > 0 && b.len() > 0 && c.len() > 0 && a[0] == b[0] && b[0] == c[0] {
        lemma_text_le_transitive(a.drop_first(), b.drop_first(), c.drop_first());
    }
}

fn text_le_exec(a: &str, b: &str) -> (r: bool)
    ensures
        r == text_le(a@, b@),
{
    let n = a.unicode_len();
    let m = b.unicode_len();
    let mut i: usize = 0;
    proof {
        assert(a@.skip(0) =~= a@);
        assert(b@.skip(0) =~= b@);
    }
    while i < n && i < m
        invariant
            n == a@.len(),
            m == b@.len(),
            i <= n,
            i <= m,
            text_le(a@, b@) == text_le(a@.skip(i as int), b@.skip(i as int)),
        decreases n - i,
    {
        let x = a.get_char(i);
        let y = b.get_char(i);
        proof {
            assert(a@.skip(i as int)[0] == x);
            assert(b@.skip(i as int)[0] == y);
        }
        if x != y {
            return x < y;
        }
        proof {
            assert(a@.skip(i as int).drop_first() =~= a@.skip(i as int + 1));
            assert(b@.skip(i as int).drop_first() =~= b@.skip(i as int + 1));
        }
        i = i + 1;
    }
    n <= m
}

/// The index of the last `.` in `s`, if any.
pub open spec fn last_dot(s: Seq<char>) -> Option<int>
    decreases s.len(),
{
    if s.len() == 0 {
        None
    } else if s.last() == '.' {
        Some(s.len() - 1)
    } else {
        last_dot(s.drop_last())
    }
}

/// The extension of a file name as `Path::extension` finds it, or the empty text where
/// there is none: what follows the last dot, unless that dot opens the name.
pub open spec fn file_ext(name: Seq<char>) -> Seq<char> {
    match last_dot(name) {
        Some(k) => if k > 0 { name.subrange(k + 1, name.len() as int) } else { Seq::empty() },
        None => Seq::empty(),
    }
}

fn file_ext_exec(name: &str) -> (r: &str)
    ensures
        r@ == file_ext(name@),
{
    let n = name.unicode_len();
    let mut i = n;
    proof { assert(name@.take(n as int) =~= name@); }
    while i > 0
        invariant
            n == name@.len(),
            i <= n,
            last_dot(name@) == last_dot(name@.take(i as int)),
        decreases i,
    {
        proof { assert(name@.take(i as int).drop_last() =~= name@.take(i as int - 1)); }
        if name.get_char(i - 1) == '.' {
            proof { assert(last_dot(name@.take(i as int)) == Some(i - 1)); }
            if i - 1 > 0 {
                return name.substring_char(i, n);
            } else {
                return name.substring_char(0, 0);
            }
        }
        i = i - 1;
    }
    proof { assert(name@.take(0) =~= Seq::<char>::empty()); }
    name.substring_char(0, 0)
}

/// The plain form of a listing entry: its name and whether it is a directory.
pub open spec fn entry_view(e: FileBrowserEntry) -> (Seq<char>, bool) {
    (e.name@, e.is_dir)
}

/// The plain forms of a listing.
pub open spec fn entries_view(v: Seq<FileBrowserEntry>) -> Seq<(Seq<char>, bool)> {
    Seq::new(v.len(), |i: int| entry_view(v[i]))
}

/// The plain forms of an extension filter.
pub open spec fn filter_view(v: Seq<String>) -> Seq<Seq<char>> {
    Seq::new(v.len(), |i: int| v[i]@)
}

/// The browser shows an entry whose name does not start with a dot, when it is a
/// directory, when there is no filter, or when the filter lists its lower-case
/// extension.
pub open spec fn shown(e: (Seq<char>, bool), filter: Seq<Seq<char>>) -> bool {
    &&& !(e.0.len() > 0 && e.0[0] == '.')
    &&& (e.1 || filter.len() == 0 || filter.contains(lowercase(file_ext(e.0))))
}

/// The entries of `v` that the browser shows, in their order.
pub open spec fn shown_entries(v: Seq<(Seq<char>, bool)>, filter: Seq<Seq<char>>) -> Seq<(Seq<char>, bool)>
    decreases v.len(),
{
    if v.len() == 0 {
        Seq::empty()
    } else if shown(v.last(), filter) {
        shown_entries(v.drop_last(), filter).push(v.last())
    } else {
        shown_entries(v.drop_last(), filter)
    }
}

/// In the listing `a` comes no later than `b`: directories first, then by lower-case
/// name.
pub open spec fn listed_before(a: (Seq<char>, bool), b: (Seq<char>, bool)) -> bool {
    (a.1 && !b.1) || (a.1 == b.1 && text_le(lowercase(a.0), lowercase(b.0)))
}

/// The listing is in the browser's order.
pub open spec fn listing_sorted(v: Seq<(Seq<char>, bool)>) -> bool {
    forall|i: int, j: int| 0 <= i < j < v.len() ==> listed_before(#[trigger] v[i], #[trigger] v[j])
}

proof fn lemma_listed_total(a: (Seq<char>, bool), b: (Seq<char>, bool))
    ensures
        listed_before(a, b) || listed_before(b, a),
{
    lemma_text_le_total(lowercase(a.0), lowercase(b.0));
}

proof fn lemma_listed_transitive(a: (Seq<char>, bool), b: (Seq<char>, bool), c: (Seq<char>, bool))
    requires
        listed_before(a, b),
        listed_before(b, c),
    ensures
        listed_before(a, c),
{
    if a.1 == b.1 && b.1 == c.1 {
        lemma_text_le_transitive(lowercase(a.0), lowercase(b.0), lowercase(c.0));
    }
}

fn is_shown(e: &FileBrowserEntry, filter: &Vec<String>) -> (r: bool)
    ensures
        r == shown(entry_view(*e), filter_view(filter@)),
{
    let name = e.name.as_str();
    if name.unicode_len() > 0 && name.get_char(0) == '.' {
        return false;
    }
    if e.is_dir || filter.len() == 0 {
        return true;
    }
    let ext = to_lower(file_ext_exec(name));
    let mut i: usize = 0;
    while i < filter.len()
        invariant
            i <= filter@.len(),
            ext@ == lowercase(file_ext(e.name@)),
            !(e.name@.len() > 0 && e.name@[0] == '.'),
            !e.is_dir,
            forall|k: int| 0 <= k < i ==> filter@[k]@ != ext@,
        decreases filter@.len() - i,
    {
        if str_equal(filter[i].as_str(), ext.as_str()) {
            proof { assert(filter_view(filter@)[i as int] == ext@); }
            return true;
        }
        i = i + 1;
    }
    proof {
        assert forall|k: int| 0 <= k < filter_view(filter@).len() implies filter_view(filter@)[k] != ext@ by {
            assert(filter_view(filter@)[k] == filter@[k]@);
        }
    }
    false
}

/// The listing the browser shows of the entries `found` in a directory: those that
/// `shown` admits, directories first, then by lower-case name.
pub fn browser_listing(found: &Vec<FileBrowserEntry>, filter: &Vec<String>) -> (r: Vec<FileBrowserEntry>)
    ensures
        entries_view(r@).to_multiset() == shown_entries(entries_view(found@), filter_view(filter@)).to_multiset(),
        listing_sorted(entries_view(r@)),
{
    let ghost fv = filter_view(filter@);
    let ghost all = entries_view(found@);
    let mut r: Vec<FileBrowserEntry> = Vec::new();
    let mut keys: Vec<String> = Vec::new();
    let mut i: usize = 0;
    proof {
        assert(all.take(0) =~= Seq::<(Seq<char>, bool)>::empty());
        assert(entries_view(r@) =~= Seq::<(Seq<char>, bool)>::empty());
    }
    while i < found.len()
        invariant
            i <= found@.len(),
            fv == filter_view(filter@),
            all == entries_view(found@),
            keys@.len() == r@.len(),
            forall|k: int| 0 <= k < r@.len() ==> #[trigger] keys@[k]@ == lowercase(r@[k].name@),
            entries_view(r@).to_multiset() == shown_entries(all.take(i as int), fv).to_multiset(),
            listing_sorted(entries_view(r@)),
        decreases found@.len() - i,
    {
        let e = &found[i];
        proof {
            assert(all.take(i as int + 1).drop_last() =~= all.take(i as int));
            assert(all.take(i as int + 1).last() == entry_view(*e));
        }
        if is_shown(e, filter) {
            let key = to_lower(e.name.as_str());
            let ghost x = entry_view(*e);
            let ghost before = entries_view(r@);
            // The first position whose entry comes strictly after the new one.
            let mut p: usize = 0;
            while p < r.len()
                invariant
                    p <= r@.len(),
                    keys@.len() == r@.len(),
                    before == entries_view(r@),
                    x == entry_view(*e),
                    key@ == lowercase(e.name@),
                    forall|k: int| 0 <= k < r@.len() ==> #[trigger] keys@[k]@ == lowercase(r@[k].name@),
                    forall|k: int| 0 <= k < p ==> listed_before(#[trigger] before[k], x),
                ensures
                    p <= r@.len(),
                    forall|k: int| 0 <= k < p ==> listed_before(#[trigger] before[k], x),
                    p < r@.len() ==> !listed_before(before[p as int], x),
                decreases r@.len() - p,
            {
                let q = &r[p];
                let after = if q.is_dir != e.is_dir {
                    e.is_dir
                } else {
                    !text_le_exec(keys[p].as_str(), key.as_str())
                };
                if after {
                    proof {
                        assert(!listed_before(before[p as int], x));
                    }
                    break;
                }
                proof { assert(listed_before(before[p as int], x)); }
                p = p + 1;
            }
            proof {
                if p < r@.len() {
                    lemma_listed_total(before[p as int], x);
                }
            }
            let ghost bp = p;
            let copy = FileBrowserEntry { name: e.name.clone(), is_dir: e.is_dir };
            r.insert(p, copy);
            keys.insert(p, key);
            proof {
                let now = entries_view(r@);
                assert(now =~= before.insert(bp as int, x));
                vstd::seq_lib::to_multiset_insert(before, bp as int, x);
                assert forall|a: int, b: int| 0 <= a < b < now.len() implies listed_before(#[trigger] now[a], #[trigger] now[b]) by {
                    if a <= bp && b > bp {
                        // The new entry sits between its neighbours: chain through it.
                        if b - 1 > bp {
                            lemma_listed_transitive(x, before[bp as int], before[b - 1]);
                        }
                        if a < bp {
                            lemma_listed_transitive(before[a], x, before[b - 1]);
                        }
                    }
                }
                vstd::seq_lib::to_multiset_build(shown_entries(all.take(i as int), fv), x);
            }
        }
        i = i + 1;
    }
    proof { assert(all.take(found@.len() as int) =~= all); }
    r
}

impl FileBrowserState {
    /// Show the entries `found` in the browser's directory (see `browser_listing`),
    /// with the cursor and the scroll at the top.
    pub fn refresh_with(&mut self, found: &Vec<FileBrowserEntry>)
        ensures
            entries_view(final(self).entries@).to_multiset()
                == shown_entries(entries_view(found@), filter_view(old(self).filter@)).to_multiset(),
            listing_sorted(entries_view(final(self).entries@)),
            final(self).cursor == 0,
            final(self).scroll == 0,
            final(self).dir == old(self).dir,
            final(self).filter == old(self).filter,
            final(self).action == old(self).action,
    {
        self.entries = browser_listing(found, &self.filter);
        self.cursor = 0;
        self.scroll = 0;
    }
}

/// What a key in the file browser asks of the caller.
#[derive(Clone, Copy, Debug, PartialEq, Eq, Structural)]
pub enum BrowserKey {
    /// Nothing more to do.
    Stay,
    /// Leave the browser.
    Close,
    /// Show the parent directory.
    Parent,
    /// Enter the directory of the given entry.
    OpenDir(usize),
    /// The file of the given entry was chosen: leave the browser and use it.
    Choose(usize),
}

/// The browser's cursor after a key, over a listing of `n` entries: up and down one
/// (also `k` and `j`), ten at a time with the page keys, to either end with Home and
/// End, never past the listing.
pub open spec fn browser_cursor(cursor: usize, n: usize, code: KeyCode) -> usize {
    match code {
        KeyCode::Up => if cursor > 0 { (cursor - 1) as usize } else { cursor },
        KeyCode::Down => if cursor + 1 < n { (cursor + 1) as usize } else { cursor },
        KeyCode::Char(c) => if c == 'k' {
            if cursor > 0 { (cursor - 1) as usize } else { cursor }
        } else if c == 'j' {
            if cursor + 1 < n { (cursor + 1) as usize } else { cursor }
        } else {
            cursor
        },
        KeyCode::PageUp => if cursor >= 10 { (cursor - 10) as usize } else { 0 },
        KeyCode::PageDown => {
            let last: int = if n > 0 { n - 1 } else { 0 };
            if cursor + 10 <= last { (cursor + 10) as usize } else { last as usize }
        },
        KeyCode::Home => 0,
        KeyCode::End => if n > 0 { (n - 1) as usize } else { cursor },
        _ => cursor,
    }
}

/// What a key in the browser asks of the caller, with the cursor on entry `cursor`
/// of the listing `entries`.
pub open spec fn browser_outcome(entries: Seq<(Seq<char>, bool)>, cursor: usize, code: KeyCode) -> BrowserKey {
    match code {
        KeyCode::Esc => BrowserKey::Close,
        KeyCode::Backspace => BrowserKey::Parent,
        KeyCode::Enter => if cursor < entries.len() {
            if entries[cursor as int].1 { BrowserKey::OpenDir(cursor) } else { BrowserKey::Choose(cursor) }
        } else {
            BrowserKey::Stay
        },
        _ => BrowserKey::Stay,
    }
}

impl FileBrowserState {
    /// One key in the browser: the cursor moves (see `browser_cursor`) and the answer
    /// says what else to do (see `browser_outcome`).
    pub fn handle_key(&mut self, key: KeyPress) -> (r: BrowserKey)
        requires
            key.code == KeyCode::PageDown ==> old(self).cursor + 10 <= usize::MAX,
        ensures
            final(self).cursor == browser_cursor(old(self).cursor, old(self).entries@.len() as usize, key.code),
            r == browser_outcome(entries_view(old(self).entries@), old(self).cursor, key.code),
            final(self).entries == old(self).entries,
            final(self).dir == old(self).dir,
            final(self).filter == old(self).filter,
            final(self).action == old(self).action,
            final(self).scroll == old(self).scroll,
    {
        let n = self.entries.len();
        let c = self.cursor;
        let up = if c > 0 { c - 1 } else { c };
        let down = if c < n && n - c > 1 { c + 1 } else { c };
        match key.code {
            KeyCode::Esc => BrowserKey::Close,
            KeyCode::Up => {
                self.cursor = up;
                BrowserKey::Stay
            },
            KeyCode::Down => {
                self.cursor = down;
                BrowserKey::Stay
            },
            KeyCode::Char(ch) => {
                if ch == 'k' {
                    self.cursor = up;
                } else if ch == 'j' {
                    self.cursor = down;
                }
                BrowserKey::Stay
            },
            KeyCode::PageUp => {
                self.cursor = if c >= 10 { c - 10 } else { 0 };
                BrowserKey::Stay
            },
            KeyCode::PageDown => {
                let last = if n > 0 { n - 1 } else { 0 };
                self.cursor = if c + 10 <= last { c + 10 } else { last };
                BrowserKey::Stay
            },
            KeyCode::Home => {
                self.cursor = 0;
                BrowserKey::Stay
            },
            KeyCode::End => {
                if n > 0 {
                    self.cursor = n - 1;
                }
                BrowserKey::Stay
            },
            KeyCode::Backspace => BrowserKey::Parent,
            KeyCode::Enter => {
                if c < n {
                    if self.entries[c].is_dir { BrowserKey::OpenDir(c) } else { BrowserKey::Choose(c) }
                } else {
                    BrowserKey::Stay
                }
            },
            _ => BrowserKey::Stay,
        }
    }
}

} // verus!
