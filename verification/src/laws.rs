//! What holds of the compression as a whole, stated over the models of the
//! other modules and proved from them.

use crate::compress::{
    before_root_body, compressed, full_walk, joined, level_text, parent_dir, shorten_path_spec,
    truncate_after_root_spec, truncate_spec, with_home,
};
use crate::probe::{collides, entries_at, is_sibling, EntryView, Listed};
use crate::segment::{kept, path_segments, segments_from};
use crate::shorten::shorten_spec;
use crate::text::slash;
use vstd::prelude::*;

verus! {

/// Shortening is a function of the name alone: the same name always has the
/// same short form.
pub proof fn lemma_shorten_stable(a: Seq<char>, b: Seq<char>)
    requires
        a == b,
    ensures
        shorten_spec(a) == shorten_spec(b),
{
}

/// The root path has no component.
pub proof fn lemma_root_has_no_segments()
    ensures
        path_segments(slash()).len() == 0,
{
    let s = slash();
    assert(s[0] == '/');
    assert(s.skip(1).len() == 0);
    assert(kept(Seq::<char>::empty()) =~= Seq::<Seq<char>>::empty());
    assert(segments_from(s.skip(1), Seq::empty()) == kept(Seq::<char>::empty()));
    assert(segments_from(s, Seq::empty()) == kept(Seq::<char>::empty()) + segments_from(
        s.skip(1),
        Seq::empty(),
    ));
}

/// Components written out in full depend only on the components written.
pub proof fn lemma_joined_agrees(a: Seq<Seq<char>>, b: Seq<Seq<char>>, n: int)
    requires
        0 <= n <= a.len(),
        n <= b.len(),
        forall|i: int| 0 <= i < n ==> a[i] == b[i],
    ensures
        joined(a, n) == joined(b, n),
    decreases n,
{
    if n > 0 {
        lemma_joined_agrees(a, b, n - 1);
    }
}

/// How the levels below `to` are shown depends on no component at or below
/// level `to`: two paths that agree above it are shown alike up to there.
pub proof fn lemma_compressed_agrees(
    a: Seq<Seq<char>>,
    b: Seq<Seq<char>>,
    from: int,
    to: int,
    snap: Listed,
)
    requires
        0 <= from,
        to <= a.len(),
        to <= b.len(),
        forall|i: int| 0 <= i < to ==> a[i] == b[i],
    ensures
        compressed(a, from, to, snap) == compressed(b, from, to, snap),
    decreases to - from,
{
    if to > from {
        lemma_compressed_agrees(a, b, from, to - 1, snap);
        lemma_joined_agrees(a, b, to - 1);
    }
}

/// A walk over the levels `from..to` consults the listings of the parents of
/// those levels and no other: two snapshots that agree there give the same
/// text.
pub proof fn lemma_compressed_reads_its_levels(
    dirs: Seq<Seq<char>>,
    from: int,
    to: int,
    a: Listed,
    b: Listed,
)
    requires
        forall|level: int|
            from <= level < to ==> entries_at(a, #[trigger] parent_dir(dirs, level)) == entries_at(
                b,
                parent_dir(dirs, level),
            ),
    ensures
        compressed(dirs, from, to, a) == compressed(dirs, from, to, b),
    decreases to - from,
{
    if to > from {
        lemma_compressed_reads_its_levels(dirs, from, to - 1, a, b);
        assert(entries_at(a, parent_dir(dirs, to - 1)) == entries_at(b, parent_dir(dirs, to - 1)));
    }
}

/// A walk over the levels `from..to` is the walk over `from..mid` followed by
/// the walk over `mid..to`.
pub proof fn lemma_compressed_split(
    dirs: Seq<Seq<char>>,
    from: int,
    mid: int,
    to: int,
    snap: Listed,
)
    requires
        from <= mid <= to,
    ensures
        compressed(dirs, from, to, snap) == compressed(dirs, from, mid, snap) + compressed(
            dirs,
            mid,
            to,
            snap,
        ),
    decreases to - mid,
{
    if to == mid {
        assert(compressed(dirs, from, mid, snap) + Seq::<char>::empty() =~= compressed(
            dirs,
            from,
            mid,
            snap,
        ));
    } else {
        lemma_compressed_split(dirs, from, mid, to - 1, snap);
        let head = compressed(dirs, from, mid, snap);
        let tail = compressed(dirs, mid, to - 1, snap);
        let text = level_text(dirs, to - 1, snap);
        assert((head + tail) + slash() + text =~= head + (tail + slash() + text));
    }
}

/// A walk over at least one level begins with a separator.
pub proof fn lemma_compressed_begins_with_slash(
    dirs: Seq<Seq<char>>,
    from: int,
    to: int,
    snap: Listed,
)
    requires
        from < to,
    ensures
        compressed(dirs, from, to, snap).len() > 0,
        compressed(dirs, from, to, snap)[0] == '/',
    decreases to - from,
{
    if to - 1 > from {
        lemma_compressed_begins_with_slash(dirs, from, to - 1, snap);
    } else {
        assert(compressed(dirs, from, to - 1, snap).len() == 0);
    }
}

/// Where a sibling directory has the same short form as the directory at
/// `level`, the collision is found and the level is written in full.
pub proof fn lemma_colliding_level_in_full(
    dirs: Seq<Seq<char>>,
    level: int,
    snap: Listed,
    sibling: EntryView,
)
    requires
        0 <= level < dirs.len(),
        entries_at(snap, parent_dir(dirs, level)).contains(sibling),
        is_sibling(dirs[level], sibling),
        shorten_spec(sibling.name) == shorten_spec(dirs[level]),
    ensures
        collides(dirs[level], entries_at(snap, parent_dir(dirs, level))),
        level_text(dirs, level, snap) == dirs[level],
        forall|from: int|
            from <= level ==> #[trigger] compressed(dirs, from, level + 1, snap) == compressed(
                dirs,
                from,
                level,
                snap,
            ) + slash() + dirs[level],
{
    let entries = entries_at(snap, parent_dir(dirs, level));
    let i = choose|i: int| 0 <= i < entries.len() && entries[i] == sibling;
    assert(is_sibling(dirs[level], entries[i]));
}

/// Where no sibling directory has the same short form as the directory at
/// `level`, the level is written by its short form.
pub proof fn lemma_free_level_shortened(dirs: Seq<Seq<char>>, level: int, snap: Listed)
    requires
        0 <= level < dirs.len(),
        forall|e: EntryView|
            entries_at(snap, parent_dir(dirs, level)).contains(e) && is_sibling(dirs[level], e)
                ==> shorten_spec(e.name) != shorten_spec(dirs[level]),
    ensures
        !collides(dirs[level], entries_at(snap, parent_dir(dirs, level))),
        level_text(dirs, level, snap) == shorten_spec(dirs[level]),
        forall|from: int|
            from <= level ==> #[trigger] compressed(dirs, from, level + 1, snap) == compressed(
                dirs,
                from,
                level,
                snap,
            ) + slash() + shorten_spec(dirs[level]),
{
    let entries = entries_at(snap, parent_dir(dirs, level));
    if collides(dirs[level], entries) {
        let i = choose|i: int|
            0 <= i < entries.len() && is_sibling(dirs[level], #[trigger] entries[i])
                && shorten_spec(entries[i].name) == shorten_spec(dirs[level]);
        assert(entries.contains(entries[i]));
    }
}

/// The home directory itself is shown as the home symbol.
pub proof fn lemma_home_is_symbol(home: Seq<char>, symbol: Seq<char>, snap: Listed)
    requires
        path_segments(home).len() > 0,
    ensures
        truncate_spec(home, home, symbol, snap) == symbol,
{
}

/// Below the home directory, the symbol stands for the levels of the home
/// directory and the walk goes on behind it: what is shown is the symbol,
/// then the levels between home and the last component by the collision
/// rule, then the last component in full.
pub proof fn lemma_below_home(
    path: Seq<char>,
    home: Seq<char>,
    symbol: Seq<char>,
    snap: Listed,
)
    requires
        path_segments(home).is_prefix_of(path_segments(path)),
        path_segments(home) != path_segments(path),
        home != slash(),
    ensures
        truncate_spec(path, home, symbol, snap) == symbol + compressed(
            path_segments(path),
            path_segments(home).len() as int,
            path_segments(path).len() - 1,
            snap,
        ) + slash() + path_segments(path).last(),
{
    let dirs = path_segments(path);
    let hd = path_segments(home);
    let n = dirs.len() as int;
    let k = hd.len() as int;
    assert(hd =~= dirs.subrange(0, k));
    if k == n {
        assert(dirs.subrange(0, k) =~= dirs);
    }
    assert(k < n);
    let short_home = shorten_path_spec(home, snap);
    assert forall|i: int| 0 <= i < k implies hd[i] == dirs[i] by {
        assert(hd[i] == dirs.subrange(0, k)[i]);
    }
    lemma_compressed_agrees(hd, dirs, 0, k, snap);
    lemma_compressed_split(dirs, 0, k, n - 1, snap);
    let rest = compressed(dirs, k, n - 1, snap) + slash() + dirs.last();
    let full = full_walk(dirs, snap);
    assert(full =~= short_home + rest);
    assert(short_home =~= full.subrange(0, short_home.len() as int));
    assert(short_home.is_prefix_of(full));
    assert(full.skip(short_home.len() as int) =~= rest);
    assert(symbol + rest =~= symbol + compressed(dirs, k, n - 1, snap) + slash() + dirs.last());
}

/// The last component of a path is always shown in full at the end, whatever
/// its siblings are, unless the path is the home directory itself.
pub proof fn lemma_truncate_keeps_last(
    path: Seq<char>,
    home: Seq<char>,
    symbol: Seq<char>,
    snap: Listed,
)
    requires
        path_segments(path).len() > 0,
        path_segments(path) != path_segments(home),
    ensures
        path_segments(path).last().is_suffix_of(truncate_spec(path, home, symbol, snap)),
{
    let dirs = path_segments(path);
    let hd = path_segments(home);
    let n = dirs.len() as int;
    let last = dirs.last();
    let full = full_walk(dirs, snap);
    let shown = truncate_spec(path, home, symbol, snap);
    let head = compressed(dirs, 0, n - 1, snap) + slash();
    assert(full == head + last);
    if hd.is_prefix_of(dirs) {
        if home == slash() {
            assert(head.len() >= 1);
            if n - 1 > 0 {
                lemma_compressed_begins_with_slash(dirs, 0, n - 1, snap);
            }
            assert(full[0] == '/');
            assert(slash() =~= full.subrange(0, 1));
            assert(slash().is_prefix_of(full));
            assert(shown == symbol + full.skip(1));
            assert(last =~= shown.subrange(shown.len() - last.len(), shown.len() as int));
        } else {
            lemma_below_home(path, home, symbol, snap);
            assert(last =~= shown.subrange(shown.len() - last.len(), shown.len() as int));
        }
    } else {
        assert(last =~= full.subrange(full.len() - last.len(), full.len() as int));
    }
}

/// Below a repository root the last component of the path is always shown in
/// full at the end, behind a separator, whatever its siblings are.
pub proof fn lemma_after_root_keeps_last(path: Seq<char>, root: Seq<char>, snap: Listed)
    requires
        path_segments(root).len() < path_segments(path).len(),
    ensures
        (slash() + path_segments(path).last()).is_suffix_of(
            truncate_after_root_spec(path, root, snap),
        ),
{
    let tail = slash() + path_segments(path).last();
    let shown = truncate_after_root_spec(path, root, snap);
    assert(tail =~= shown.subrange(shown.len() - tail.len(), shown.len() as int));
}

/// What is shown below a repository root does not depend on the siblings of
/// the last component, nor on those of the root or of any level above it:
/// only the parents of the levels in between are consulted.
pub proof fn lemma_after_root_reads_inner_levels(
    path: Seq<char>,
    root: Seq<char>,
    a: Listed,
    b: Listed,
)
    requires
        forall|level: int|
            path_segments(root).len() <= level < path_segments(path).len() - 1 ==> entries_at(
                a,
                #[trigger] parent_dir(path_segments(path), level),
            ) == entries_at(b, parent_dir(path_segments(path), level)),
    ensures
        truncate_after_root_spec(path, root, a) == truncate_after_root_spec(path, root, b),
{
    let dirs = path_segments(path);
    let depth = path_segments(root).len() as int;
    if depth < dirs.len() {
        lemma_compressed_reads_its_levels(dirs, depth, dirs.len() - 1, a, b);
    }
}

/// At the repository root nothing is shown below it.
pub proof fn lemma_after_root_at_root(root: Seq<char>, snap: Listed)
    ensures
        truncate_after_root_spec(root, root, snap) == Seq::<char>::empty(),
{
}

/// A directory directly below the repository root is shown as a separator and
/// its full name, whatever its siblings are.
pub proof fn lemma_after_root_child(path: Seq<char>, root: Seq<char>, snap: Listed)
    requires
        path_segments(path).len() == path_segments(root).len() + 1,
    ensures
        truncate_after_root_spec(path, root, snap) == slash() + path_segments(path).last(),
{
    assert(Seq::<char>::empty() + slash() + path_segments(path).last() =~= slash()
        + path_segments(path).last());
}

/// The text above a repository root is made of the levels above the root
/// alone: it is the walk over the target's levels that come before the
/// root's own, and holds nothing of the root's level or of those below.
pub proof fn lemma_before_root_stops_at_root(
    target: Seq<char>,
    root: Seq<char>,
    ancestor: Seq<char>,
    home: Seq<char>,
    symbol: Seq<char>,
    snap: Listed,
)
    requires
        path_segments(root).is_prefix_of(path_segments(target)),
        path_segments(root).len() > 0,
        path_segments(ancestor) == path_segments(root).drop_last(),
    ensures
        before_root_body(ancestor, home, symbol, snap) == with_home(
            compressed(path_segments(target), 0, path_segments(root).len() - 1, snap),
            path_segments(ancestor),
            home,
            symbol,
            snap,
        ),
{
    let t = path_segments(target);
    let r = path_segments(root);
    let a = path_segments(ancestor);
    let k = r.len() as int;
    assert(r =~= t.subrange(0, k));
    assert forall|i: int| 0 <= i < k - 1 implies a[i] == t[i] by {
        assert(a[i] == r[i]);
        assert(r[i] == t.subrange(0, k)[i]);
    }
    lemma_compressed_agrees(a, t, 0, k - 1, snap);
}

} // verus!
