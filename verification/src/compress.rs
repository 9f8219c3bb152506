//! Compression of a whole path: every level but the protected ones is shown
//! by its short form, unless a sibling directory has the same short form.

use crate::probe::{collides, entries_at, Listed, Snapshot};
use crate::segment::{get_path_dirs, path_segments};
use crate::shorten::{shorten_dir, shorten_spec};
use crate::text::{
    is_slash, names, replace_first, replace_first_spec, same_names, slash, starts_with_names,
};
use vstd::prelude::*;

verus! {

/// The first `n` components written out in full, each behind a separator.
pub open spec fn joined(dirs: Seq<Seq<char>>, n: int) -> Seq<char>
    decreases n,
{
    if n <= 0 {
        Seq::empty()
    } else {
        joined(dirs, n - 1) + slash() + dirs[n - 1]
    }
}

/// The path of the directory that holds component `level`: the root for the
/// first component, else the components above it written out in full.
pub open spec fn parent_dir(dirs: Seq<Seq<char>>, level: int) -> Seq<char> {
    if level <= 0 {
        slash()
    } else {
        joined(dirs, level)
    }
}

/// How component `level` is shown: in full if a sibling directory in the
/// snapshot has the same short form, else by its short form.
pub open spec fn level_text(dirs: Seq<Seq<char>>, level: int, snap: Listed) -> Seq<char> {
    if collides(dirs[level], entries_at(snap, parent_dir(dirs, level))) {
        dirs[level]
    } else {
        shorten_spec(dirs[level])
    }
}

/// The levels `from..to` as shown, each behind a separator.
pub open spec fn compressed(dirs: Seq<Seq<char>>, from: int, to: int, snap: Listed) -> Seq<char>
    decreases to - from,
{
    if to <= from {
        Seq::empty()
    } else {
        compressed(dirs, from, to - 1, snap) + slash() + level_text(dirs, to - 1, snap)
    }
}

/// The path with every component shown by the collision rule. The path `/`
/// stays `/`.
pub open spec fn shorten_path_spec(path: Seq<char>, snap: Listed) -> Seq<char> {
    let dirs = path_segments(path);
    if path == slash() {
        slash()
    } else {
        compressed(dirs, 0, dirs.len() as int, snap)
    }
}

/// `text` with the short form of `home` replaced by `symbol`, where `dirs`
/// lies in or below `home`; else `text`.
pub open spec fn with_home(
    text: Seq<char>,
    dirs: Seq<Seq<char>>,
    home: Seq<char>,
    symbol: Seq<char>,
    snap: Listed,
) -> Seq<char> {
    if path_segments(home).is_prefix_of(dirs) {
        replace_first_spec(text, shorten_path_spec(home, snap), symbol)
    } else {
        text
    }
}

/// All levels but the last as shown, then the last component in full.
pub open spec fn full_walk(dirs: Seq<Seq<char>>, snap: Listed) -> Seq<char> {
    compressed(dirs, 0, dirs.len() - 1, snap) + slash() + dirs.last()
}

/// The display form of a path outside any repository.
pub open spec fn truncate_spec(
    path: Seq<char>,
    home: Seq<char>,
    symbol: Seq<char>,
    snap: Listed,
) -> Seq<char> {
    let dirs = path_segments(path);
    if dirs.len() == 0 {
        Seq::empty()
    } else if dirs == path_segments(home) {
        symbol
    } else {
        with_home(full_walk(dirs, snap), dirs, home, symbol, snap)
    }
}

/// The levels above a repository root before the closing separator is added.
pub open spec fn before_root_body(
    path: Seq<char>,
    home: Seq<char>,
    symbol: Seq<char>,
    snap: Listed,
) -> Seq<char> {
    let dirs = path_segments(path);
    with_home(compressed(dirs, 0, dirs.len() as int, snap), dirs, home, symbol, snap)
}

/// The display form of the directories above a repository root.
pub open spec fn truncate_before_root_spec(
    path: Seq<char>,
    home: Seq<char>,
    symbol: Seq<char>,
    snap: Listed,
) -> Seq<char> {
    let body = before_root_body(path, home, symbol, snap);
    if path.len() == 0 {
        Seq::empty()
    } else if body == slash() {
        body
    } else {
        body + slash()
    }
}

/// The display form of the part of a path below a repository root.
pub open spec fn truncate_after_root_spec(
    path: Seq<char>,
    root: Seq<char>,
    snap: Listed,
) -> Seq<char> {
    let dirs = path_segments(path);
    let depth = path_segments(root).len() as int;
    if depth >= dirs.len() {
        Seq::empty()
    } else {
        compressed(dirs, depth, dirs.len() - 1, snap) + slash() + dirs.last()
    }
}

/// The directories whose listings a walk over all of `dirs` consults, one
/// for each level.
pub open spec fn consulted(dirs: Seq<Seq<char>>) -> Seq<Seq<char>> {
    Seq::new(dirs.len(), |level: int| parent_dir(dirs, level))
}

/// The path of the directory that holds component `level` of `dirs`.
pub fn parent_path(dirs: &Vec<String>, level: usize) -> (r: String)
    requires
        level <= dirs@.len(),
    ensures
        r@ == parent_dir(names(dirs@), level as int),
{
    proof {
        reveal_strlit("/");
        assert("/"@ =~= slash());
    }
    if level == 0 {
        return String::from_str("/");
    }
    let ghost nd = names(dirs@);
    let mut current = String::new();
    let mut i: usize = 0;
    while i < level
        invariant
            i <= level <= dirs@.len(),
            nd == names(dirs@),
            "/"@ == slash(),
            current@ == joined(nd, i as int),
        decreases level - i,
    {
        proof {
            assert(nd[i as int] == dirs@[i as int]@);
        }
        current.append("/");
        current.append(dirs[i].as_str());
        i += 1;
    }
    current
}

/// The directories to list before `path` is rendered: for each component,
/// in order, the directory that holds it.
pub fn probe_dirs(path: &str) -> (r: Vec<String>)
    ensures
        names(r@) == consulted(path_segments(path@)),
{
    let dirs = get_path_dirs(path);
    let ghost nd = names(dirs@);
    let mut out: Vec<String> = Vec::new();
    let mut i: usize = 0;
    while i < dirs.len()
        invariant
            i <= dirs@.len(),
            nd == names(dirs@),
            out@.len() == i,
            forall|k: int| 0 <= k < i ==> (#[trigger] out@[k])@ == parent_dir(nd, k),
        decreases dirs@.len() - i,
    {
        let parent = parent_path(&dirs, i);
        out.push(parent);
        i += 1;
    }
    proof {
        assert(names(out@) =~= consulted(nd));
    }
    out
}

/// Renders the levels `from..to` of `dirs`, probing the snapshot at each.
fn render_levels(dirs: &Vec<String>, from: usize, to: usize, snap: &Snapshot) -> (r: String)
    requires
        from <= to <= dirs@.len(),
    ensures
        r@ == compressed(names(dirs@), from as int, to as int, snap@),
{
    let ghost nd = names(dirs@);
    let mut current = String::new();
    let mut out = String::new();
    let mut i: usize = 0;
    proof {
        reveal_strlit("/");
        assert("/"@ =~= slash());
    }
    while i < to
        invariant
            i <= to <= dirs@.len(),
            from <= to,
            nd == names(dirs@),
            "/"@ == slash(),
            current@ == joined(nd, i as int),
            out@ == compressed(
                nd,
                from as int,
                if i < from {
                    from as int
                } else {
                    i as int
                },
                snap@,
            ),
        decreases to - i,
    {
        let name = dirs[i].as_str();
        proof {
            assert(nd[i as int] == name@);
        }
        if i >= from {
            let hit = if i == 0 {
                snap.collision_at("/", name)
            } else {
                snap.collision_at(current.as_str(), name)
            };
            out.append("/");
            if hit {
                out.append(name);
            } else {
                let short = shorten_dir(name);
                out.append(short.as_str());
            }
        }
        current.append("/");
        current.append(name);
        i += 1;
    }
    out
}

/// Shortens every component of `path` by the collision rule.
///
/// Each component is written behind a `/`, by its short form unless a sibling
/// directory in the snapshot has the same short form. The path `/` gives `/`;
/// a path without components gives the empty string.
pub fn shorten_path(path: &str, snap: &Snapshot) -> (r: String)
    ensures
        r@ == shorten_path_spec(path@, snap@),
{
    if is_slash(path) {
        return String::from_str(path);
    }
    let dirs = get_path_dirs(path);
    render_levels(&dirs, 0, dirs.len(), snap)
}

/// Puts `home_symbol` in place of the short form of `home` where `dirs` lies
/// in or below `home`.
fn substitute_home(
    text: String,
    dirs: &Vec<String>,
    home: &str,
    home_symbol: &str,
    snap: &Snapshot,
) -> (r: String)
    ensures
        r@ == with_home(text@, names(dirs@), home@, home_symbol@, snap@),
{
    let home_dirs = get_path_dirs(home);
    if starts_with_names(dirs, &home_dirs) {
        let short_home = shorten_path(home, snap);
        replace_first(text.as_str(), short_home.as_str(), home_symbol)
    } else {
        text
    }
}

/// The display form of `path` where no repository is in play.
///
/// A path without components gives the empty string, and the home directory
/// itself gives `home_symbol`. Otherwise every component but the last is
/// shown by the collision rule, the last in full, and the short form of
/// `home` at the front is replaced by `home_symbol` when `path` lies below it.
pub fn truncate(path: &str, home: &str, home_symbol: &str, snap: &Snapshot) -> (r: String)
    ensures
        r@ == truncate_spec(path@, home@, home_symbol@, snap@),
{
    let dirs = get_path_dirs(path);
    if dirs.len() == 0 {
        return String::new();
    }
    let home_dirs = get_path_dirs(home);
    if same_names(&dirs, &home_dirs) {
        return String::from_str(home_symbol);
    }
    let last = dirs.len() - 1;
    let mut out = render_levels(&dirs, 0, last, snap);
    proof {
        reveal_strlit("/");
        assert("/"@ =~= slash());
        assert(names(dirs@).last() == dirs@[last as int]@);
    }
    out.append("/");
    out.append(dirs[last].as_str());
    substitute_home(out, &dirs, home, home_symbol, snap)
}

/// The display form of the directories above a repository root.
///
/// The empty path gives the empty string. Otherwise every component is shown
/// by the collision rule, the short form of `home` is replaced by
/// `home_symbol` when `path` lies in or below it, and a closing `/` is added
/// unless the text is the bare `/`.
pub fn truncate_before_root_dir(path: &str, home: &str, home_symbol: &str, snap: &Snapshot) -> (r:
    String)
    ensures
        r@ == truncate_before_root_spec(path@, home@, home_symbol@, snap@),
{
    if path.unicode_len() == 0 {
        return String::new();
    }
    let dirs = get_path_dirs(path);
    let all = render_levels(&dirs, 0, dirs.len(), snap);
    let mut out = substitute_home(all, &dirs, home, home_symbol, snap);
    if !is_slash(out.as_str()) {
        proof {
            reveal_strlit("/");
            assert("/"@ =~= slash());
        }
        out.append("/");
    }
    out
}

/// The display form of the part of `path` below the repository root.
///
/// As many leading components as `repo_root` has are left out. Of the rest,
/// each is written behind a `/`: the last in full, the others by the
/// collision rule. A path no deeper than the root gives the empty string.
pub fn truncate_after_repo_root(path: &str, repo_root: &str, snap: &Snapshot) -> (r: String)
    ensures
        r@ == truncate_after_root_spec(path@, repo_root@, snap@),
{
    let dirs = get_path_dirs(path);
    let depth = get_path_dirs(repo_root).len();
    if depth >= dirs.len() {
        return String::new();
    }
    let last = dirs.len() - 1;
    let mut out = render_levels(&dirs, depth, last, snap);
    proof {
        reveal_strlit("/");
        assert("/"@ =~= slash());
        assert(names(dirs@).last() == dirs@[last as int]@);
    }
    out.append("/");
    out.append(dirs[last].as_str());
    out
}

} // verus!
