//! Path text handling for song-relative sample references, auto-save files and the
//! configuration file location (Unix `/` separators).
use vstd::prelude::*;
use vstd::string::*;

verus! {

/// `base` joined with `part`: an absolute `part` replaces `base`; otherwise a `/` is
/// put between them unless `base` is empty or already ends with one.
pub open spec fn path_join(base: Seq<char>, part: Seq<char>) -> Seq<char> {
    if part.len() > 0 && part[0] == '/' {
        part
    } else if base.len() == 0 {
        part
    } else if base.last() == '/' {
        base + part
    } else {
        base + seq!['/'] + part
    }
}

/// Join `part` onto `base` as a path (see `path_join`).
pub fn join_path(base: &str, part: &str) -> (r: String)
    ensures
        r@ == path_join(base@, part@),
{
    let plen = part.unicode_len();
    if plen > 0 && part.get_char(0) == '/' {
        return String::from_str(part);
    }
    let blen = base.unicode_len();
    if blen == 0 {
        return String::from_str(part);
    }
    let mut r = String::from_str(base);
    if base.get_char(blen - 1) != '/' {
        proof { reveal_strlit("/"); }
        r.append("/");
    }
    r.append(part);
    proof { assert(r@ =~= path_join(base@, part@)); }
    r
}

/// The pieces of `s` between `/` separators, including empty ones.
pub open spec fn split_pieces(s: Seq<char>) -> Seq<Seq<char>>
    decreases s.len(),
{
    if s.len() == 0 {
        seq![Seq::<char>::empty()]
    } else {
        let p = split_pieces(s.drop_last());
        if s.last() == '/' {
            p.push(Seq::<char>::empty())
        } else {
            p.update(p.len() - 1, p.last().push(s.last()))
        }
    }
}

proof fn lemma_split_pieces_nonempty(s: Seq<char>)
    ensures
        split_pieces(s).len() >= 1,
    decreases s.len(),
{
    if s.len() > 0 {
        lemma_split_pieces_nonempty(s.drop_last());
    }
}

/// A piece that names a directory entry: not empty and not `.`.
pub open spec fn is_named(p: Seq<char>) -> bool {
    p.len() > 0 && p != seq!['.']
}

/// The named pieces of a list of pieces, in order.
pub open spec fn keep_named(ps: Seq<Seq<char>>) -> Seq<Seq<char>>
    decreases ps.len(),
{
    if ps.len() == 0 {
        Seq::empty()
    } else {
        keep_named(ps.drop_last()) + if is_named(ps.last()) { seq![ps.last()] } else { Seq::empty() }
    }
}

/// The components of a path: its pieces without empty ones and `.`; `..` is kept.
pub open spec fn path_components(s: Seq<char>) -> Seq<Seq<char>> {
    keep_named(split_pieces(s))
}

/// The parent-directory component `..`.
pub open spec fn dotdot() -> Seq<char> {
    seq!['.', '.']
}

/// The components without any `..`.
pub open spec fn drop_parent_refs(cs: Seq<Seq<char>>) -> Seq<Seq<char>>
    decreases cs.len(),
{
    if cs.len() == 0 {
        Seq::empty()
    } else {
        drop_parent_refs(cs.drop_last()) + if cs.last() != dotdot() { seq![cs.last()] } else { Seq::empty() }
    }
}

/// Components written back as a relative path, separated by `/`.
pub open spec fn join_components(cs: Seq<Seq<char>>) -> Seq<char>
    decreases cs.len(),
{
    if cs.len() == 0 {
        Seq::empty()
    } else if cs.len() == 1 {
        cs[0]
    } else {
        join_components(cs.drop_last()) + seq!['/'] + cs.last()
    }
}

/// Whether a path is absolute (starts with `/`).
pub open spec fn is_absolute(s: Seq<char>) -> bool {
    s.len() > 0 && s[0] == '/'
}

fn is_named_str(p: &str) -> (b: bool)
    ensures
        b == is_named(p@),
{
    let n = p.unicode_len();
    if n == 0 {
        return false;
    }
    if n == 1 && p.get_char(0) == '.' {
        proof { assert(p@ =~= seq!['.']); }
        return false;
    }
    proof {
        if n == 1 {
            assert(p@[0] != '.');
        }
    }
    true
}

fn is_dotdot_str(p: &str) -> (b: bool)
    ensures
        b == (p@ == dotdot()),
{
    let n = p.unicode_len();
    if n == 2 && p.get_char(0) == '.' && p.get_char(1) == '.' {
        proof { assert(p@ =~= dotdot()); }
        true
    } else {
        proof {
            if p@ == dotdot() {
                assert(p@[0] == '.' && p@[1] == '.');
            }
        }
        false
    }
}

/// The views of a list of strings.
pub open spec fn strings_view(v: &Vec<String>) -> Seq<Seq<char>> {
    Seq::new(v@.len(), |i: int| v@[i]@)
}

/// The components of `s` (see `path_components`).
pub fn components(s: &str) -> (r: Vec<String>)
    ensures
        strings_view(&r) == path_components(s@),
{
    let n = s.unicode_len();
    let mut out: Vec<String> = Vec::new();
    let mut start: usize = 0;
    let mut i: usize = 0;
    let ghost mut done: Seq<Seq<char>> = Seq::empty();
    proof { assert(s@.take(0) =~= Seq::<char>::empty()); }
    while i < n
        invariant
            n == s@.len(),
            start <= i <= n,
            split_pieces(s@.take(i as int)) == done.push(s@.subrange(start as int, i as int)),
            strings_view(&out) == keep_named(done),
        decreases n - i,
    {
        let c = s.get_char(i);
        let ghost t = s@.take(i as int + 1);
        proof {
            assert(t.drop_last() =~= s@.take(i as int));
            assert(t.last() == c);
        }
        if c == '/' {
            let piece = s.substring_char(start, i);
            if is_named_str(piece) {
                out.push(String::from_str(piece));
            }
            proof {
                let newdone = done.push(s@.subrange(start as int, i as int));
                assert(newdone.drop_last() =~= done);
                assert(strings_view(&out) =~= keep_named(newdone));
                assert(s@.subrange(i as int + 1, i as int + 1) =~= Seq::<char>::empty());
                assert(split_pieces(t) == split_pieces(t.drop_last()).push(Seq::<char>::empty()));
                assert(split_pieces(t) =~= newdone.push(s@.subrange(i as int + 1, i as int + 1)));
                done = newdone;
            }
            start = i + 1;
        } else {
            proof {
                let p = done.push(s@.subrange(start as int, i as int));
                assert(split_pieces(t) == p.update(p.len() - 1, p.last().push(c)));
                assert(s@.subrange(start as int, i as int).push(c) =~= s@.subrange(start as int, i as int + 1));
                assert(split_pieces(t) =~= done.push(s@.subrange(start as int, i as int + 1)));
            }
        }
        i = i + 1;
    }
    let piece = s.substring_char(start, n);
    if is_named_str(piece) {
        out.push(String::from_str(piece));
    }
    proof {
        let all = done.push(s@.subrange(start as int, n as int));
        assert(s@.take(n as int) =~= s@);
        assert(all.drop_last() =~= done);
        assert(strings_view(&out) =~= keep_named(all));
    }
    out
}

/// Write components back as a relative path, separated by `/`.
fn join_all(cs: &Vec<String>) -> (r: String)
    ensures
        r@ == join_components(strings_view(cs)),
{
    let mut r = String::new();
    let mut i: usize = 0;
    while i < cs.len()
        invariant
            i <= cs@.len(),
            r@ == join_components(strings_view(cs).take(i as int)),
        decreases cs@.len() - i,
    {
        let ghost t = strings_view(cs).take(i as int + 1);
        proof {
            assert(t.drop_last() =~= strings_view(cs).take(i as int));
            assert(t.last() == cs@[i as int]@);
        }
        if i > 0 {
            proof { reveal_strlit("/"); }
            r.append("/");
        }
        r.append(cs[i].as_str());
        proof {
            if i == 0 {
                assert(r@ =~= t[0]);
            } else {
                assert(r@ =~= join_components(t.drop_last()) + seq!['/'] + t.last());
            }
        }
        i = i + 1;
    }
    proof { assert(strings_view(cs).take(cs@.len() as int) =~= strings_view(cs)); }
    r
}

/// Where a (possibly relative) path stored in a song file points, given the directory
/// of the song file: an absolute path is reduced to its file name inside `base`, and
/// `..` components are dropped, so the result never leaves `base`.
pub open spec fn resolve_spec(base: Seq<char>, rel: Seq<char>) -> Seq<char> {
    let cs = path_components(rel);
    if is_absolute(rel) {
        path_join(base, if cs.len() > 0 && cs.last() != dotdot() { cs.last() } else { Seq::empty() })
    } else {
        path_join(base, join_components(drop_parent_refs(cs)))
    }
}

/// Resolve a (possibly relative) path against a base directory, rejecting absolute
/// paths and `..` traversal (see `resolve_spec`).
pub fn resolve_relative(base: &str, rel: &str) -> (r: String)
    ensures
        r@ == resolve_spec(base@, rel@),
{
    let cs = components(rel);
    let abs = rel.unicode_len() > 0 && rel.get_char(0) == '/';
    if abs {
        let n = cs.len();
        if n > 0 && !is_dotdot_str(cs[n - 1].as_str()) {
            join_path(base, cs[n - 1].as_str())
        } else {
            proof { reveal_strlit(""); }
            join_path(base, "")
        }
    } else {
        let mut kept: Vec<String> = Vec::new();
        let mut i: usize = 0;
        while i < cs.len()
            invariant
                i <= cs@.len(),
                strings_view(&kept) == drop_parent_refs(strings_view(&cs).take(i as int)),
            decreases cs@.len() - i,
        {
            let ghost t = strings_view(&cs).take(i as int + 1);
            proof {
                assert(t.drop_last() =~= strings_view(&cs).take(i as int));
                assert(t.last() == cs@[i as int]@);
            }
            if !is_dotdot_str(cs[i].as_str()) {
                kept.push(cs[i].clone());
            }
            proof { assert(strings_view(&kept) =~= drop_parent_refs(t)); }
            i = i + 1;
        }
        proof { assert(strings_view(&cs).take(cs@.len() as int) =~= strings_view(&cs)); }
        let joined = join_all(&kept);
        join_path(base, joined.as_str())
    }
}

/// None of the components kept from a relative reference is `..`.
pub proof fn lemma_no_parent_refs(cs: Seq<Seq<char>>)
    ensures
        forall|i: int| 0 <= i < drop_parent_refs(cs).len() ==> #[trigger] drop_parent_refs(cs)[i] != dotdot(),
    decreases cs.len(),
{
    if cs.len() > 0 {
        lemma_no_parent_refs(cs.drop_last());
        let d = drop_parent_refs(cs.drop_last());
        let tail = if cs.last() != dotdot() { seq![cs.last()] } else { Seq::<Seq<char>>::empty() };
        assert forall|i: int| 0 <= i < drop_parent_refs(cs).len() implies #[trigger] drop_parent_refs(cs)[i] != dotdot() by {
            if i < d.len() {
                assert(drop_parent_refs(cs)[i] == d[i]);
            } else {
                assert(drop_parent_refs(cs)[i] == tail[i - d.len()]);
            }
        }
    }
}

/// A resolved reference is `base` followed by components of which none is `..`:
/// a song file cannot reach outside its directory.
pub proof fn law_resolve_stays_inside(base: Seq<char>, rel: Seq<char>)
    requires
        base.len() > 0,
        base.last() != '/',
    ensures
        exists|cs: Seq<Seq<char>>|
            (forall|i: int| 0 <= i < cs.len() ==> #[trigger] cs[i] != dotdot())
            && resolve_spec(base, rel) == path_join(base, join_components(cs)),
{
    let cs = path_components(rel);
    if is_absolute(rel) {
        let name = if cs.len() > 0 && cs.last() != dotdot() { cs.last() } else { Seq::empty() };
        let w = if name.len() > 0 { seq![name] } else { Seq::<Seq<char>>::empty() };
        if name.len() > 0 {
            assert(join_components(w) == name);
        } else {
            assert(join_components(w) =~= name);
        }
        assert(forall|i: int| 0 <= i < w.len() ==> #[trigger] w[i] != dotdot());
        assert(resolve_spec(base, rel) == path_join(base, join_components(w)));
    } else {
        lemma_no_parent_refs(cs);
        let w = drop_parent_refs(cs);
        assert(forall|i: int| 0 <= i < w.len() ==> #[trigger] w[i] != dotdot());
        assert(resolve_spec(base, rel) == path_join(base, join_components(w)));
    }
}


/// The text `song`, used when a path has no file name.
pub open spec fn default_stem() -> Seq<char> {
    seq!['s', 'o', 'n', 'g']
}

/// The suffix of auto-save files.
pub open spec fn autosave_suffix() -> Seq<char> {
    seq!['.', 'a', 'u', 't', 'o', 's', 'a', 'v', 'e']
}

/// The auto-save file of a song file: `.<name>.autosave` in the song's directory
/// (the current directory `.` when the path has no components; `song` stands for a
/// missing file name).
pub open spec fn autosave_spec(path: Seq<char>) -> Seq<char> {
    let cs = path_components(path);
    let name = if cs.len() > 0 && cs.last() != dotdot() { cs.last() } else { default_stem() };
    let dir = if cs.len() == 0 {
        seq!['.']
    } else {
        (if is_absolute(path) { seq!['/'] } else { Seq::<char>::empty() }) + join_components(cs.drop_last())
    };
    path_join(dir, seq!['.'] + name + autosave_suffix())
}

/// Compute the auto-save path for a song file path (see `autosave_spec`).
pub fn autosave_path_for(path: &str) -> (r: String)
    ensures
        r@ == autosave_spec(path@),
{
    let cs = components(path);
    let n = cs.len();
    proof {
        reveal_strlit("song");
        reveal_strlit(".");
        reveal_strlit("/");
        reveal_strlit(".autosave");
        reveal_strlit("");
    }
    let mut file = String::from_str(".");
    if n > 0 && !is_dotdot_str(cs[n - 1].as_str()) {
        file.append(cs[n - 1].as_str());
    } else {
        file.append("song");
    }
    file.append(".autosave");
    let mut dir: String;
    if n == 0 {
        dir = String::from_str(".");
    } else {
        let mut parent: Vec<String> = Vec::new();
        let mut i: usize = 0;
        while i + 1 < n
            invariant
                n == cs@.len(),
                n > 0,
                i <= n - 1,
                strings_view(&parent) == strings_view(&cs).take(i as int),
            decreases n - i,
        {
            let ghost before = strings_view(&parent);
            let item = cs[i].clone();
            assert(item@ == cs@[i as int]@);
            parent.push(item);
            proof {
                assert(strings_view(&parent) =~= before.push(cs@[i as int]@));
                assert(strings_view(&cs).take(i as int + 1) =~= strings_view(&cs).take(i as int).push(cs@[i as int]@));
            }
            i = i + 1;
        }
        proof { assert(strings_view(&cs).take(n - 1) =~= strings_view(&cs).drop_last()); }
        let joined = join_all(&parent);
        if path.unicode_len() > 0 && path.get_char(0) == '/' {
            dir = String::from_str("/");
            dir.append(joined.as_str());
        } else {
            dir = joined;
        }
    }
    let r = join_path(dir.as_str(), file.as_str());
    proof {
        let cs_v = path_components(path@);
        let name = if cs_v.len() > 0 && cs_v.last() != dotdot() { cs_v.last() } else { default_stem() };
        assert(file@ =~= seq!['.'] + name + autosave_suffix());
    }
    r
}

/// The configuration file: `<XDG_CONFIG_HOME>/rtrack/config.toml` when that variable
/// is set, else `<HOME>/.config/rtrack/config.toml`, else none.
pub open spec fn config_path_spec(xdg: Option<Seq<char>>, home: Option<Seq<char>>) -> Option<Seq<char>> {
    let rtrack = seq!['r', 't', 'r', 'a', 'c', 'k'];
    let file = seq!['c', 'o', 'n', 'f', 'i', 'g', '.', 't', 'o', 'm', 'l'];
    match xdg {
        Some(x) => Some(path_join(path_join(x, rtrack), file)),
        None => match home {
            Some(h) => Some(path_join(path_join(path_join(h, seq!['.', 'c', 'o', 'n', 'f', 'i', 'g']), rtrack), file)),
            None => None,
        },
    }
}

/// The configuration file path from the values of `XDG_CONFIG_HOME` and `HOME`
/// (see `config_path_spec`).
pub fn config_path(xdg: Option<&str>, home: Option<&str>) -> (r: Option<String>)
    ensures
        match config_path_spec(
            match xdg { Some(x) => Some(x@), None => None },
            match home { Some(h) => Some(h@), None => None },
        ) {
            Some(p) => r matches Some(s) && s@ == p,
            None => r is None,
        },
{
    proof {
        reveal_strlit("rtrack");
        reveal_strlit("config.toml");
        reveal_strlit(".config");
    }
    match xdg {
        Some(x) => {
            let a = join_path(x, "rtrack");
            Some(join_path(a.as_str(), "config.toml"))
        },
        None => match home {
            Some(h) => {
                let a = join_path(h, ".config");
                let b = join_path(a.as_str(), "rtrack");
                Some(join_path(b.as_str(), "config.toml"))
            },
            None => None,
        },
    }
}

} // verus!
