//! Splitting a path into its named components.

use crate::text::{dot, lemma_names_push, names};
use vstd::prelude::*;

verus! {

/// The parent marker `..`.
pub open spec fn dot_dot() -> Seq<char> {
    seq!['.', '.']
}

/// A piece between separators names a directory unless it is empty (root,
/// doubled or trailing separator) or one of the markers `.` and `..`.
pub open spec fn is_name(piece: Seq<char>) -> bool {
    piece.len() > 0 && piece != dot() && piece != dot_dot()
}

/// The piece as a one-element sequence if it names a directory, else nothing.
pub open spec fn kept(piece: Seq<char>) -> Seq<Seq<char>> {
    if is_name(piece) {
        seq![piece]
    } else {
        Seq::empty()
    }
}

/// The components of `rest`, read left to right, where `piece` holds the
/// characters of the current piece that were read before `rest`. Every `/`
/// ends the current piece; the end of the text ends the last one.
pub open spec fn segments_from(rest: Seq<char>, piece: Seq<char>) -> Seq<Seq<char>>
    decreases rest.len(),
{
    if rest.len() == 0 {
        kept(piece)
    } else if rest[0] == '/' {
        kept(piece) + segments_from(rest.skip(1), Seq::empty())
    } else {
        segments_from(rest.skip(1), piece.push(rest[0]))
    }
}

/// The named components of a path, from the root towards the leaf.
pub open spec fn path_segments(path: Seq<char>) -> Seq<Seq<char>> {
    segments_from(path, Seq::empty())
}

/// Every component is a name and holds no separator, provided the piece in
/// progress holds none.
pub proof fn lemma_segments_are_names(rest: Seq<char>, piece: Seq<char>)
    requires
        !piece.contains('/'),
    ensures
        forall|i: int|
            0 <= i < segments_from(rest, piece).len() ==> is_name(
                #[trigger] segments_from(rest, piece)[i],
            ) && !segments_from(rest, piece)[i].contains('/'),
    decreases rest.len(),
{
    let all = segments_from(rest, piece);
    if rest.len() == 0 {
        assert forall|i: int| 0 <= i < all.len() implies is_name(#[trigger] all[i])
            && !all[i].contains('/') by {
            assert(all[i] == piece);
        }
    } else if rest[0] == '/' {
        let tail = segments_from(rest.skip(1), Seq::empty());
        assert(!Seq::<char>::empty().contains('/'));
        lemma_segments_are_names(rest.skip(1), Seq::empty());
        assert forall|i: int| 0 <= i < all.len() implies is_name(#[trigger] all[i])
            && !all[i].contains('/') by {
            if i >= kept(piece).len() {
                assert(all[i] == tail[i - kept(piece).len()]);
            } else {
                assert(all[i] == piece);
            }
        }
    } else {
        let next = piece.push(rest[0]);
        assert forall|k: int| 0 <= k < next.len() implies next[k] != '/' by {
            if k < piece.len() {
                assert(piece.contains(piece[k]));
            }
        }
        lemma_segments_are_names(rest.skip(1), next);
        assert(all == segments_from(rest.skip(1), next));
    }
}

/// The components of a path are names: none is empty, `.` or `..`, and none
/// holds a separator.
pub proof fn lemma_path_segments_are_names(path: Seq<char>)
    ensures
        forall|i: int|
            0 <= i < path_segments(path).len() ==> is_name(#[trigger] path_segments(path)[i])
                && !path_segments(path)[i].contains('/'),
{
    lemma_segments_are_names(path, Seq::empty());
}

/// Whether a piece between separators names a directory.
fn is_component(piece: &str) -> (r: bool)
    ensures
        r == is_name(piece@),
{
    let n = piece.unicode_len();
    if n == 0 {
        false
    } else if n == 1 {
        let c = piece.get_char(0);
        proof {
            if c == '.' {
                assert(piece@ =~= dot());
            } else {
                assert(dot()[0] == '.');
            }
        }
        c != '.'
    } else if n == 2 {
        let a = piece.get_char(0);
        let b = piece.get_char(1);
        proof {
            if a == '.' && b == '.' {
                assert(piece@ =~= dot_dot());
            } else {
                assert(dot_dot()[0] == '.' && dot_dot()[1] == '.');
            }
        }
        !(a == '.' && b == '.')
    } else {
        true
    }
}

/// Appends `piece` to `out` if it names a directory.
fn push_if_name(out: &mut Vec<String>, piece: &str)
    ensures
        names(final(out)@) == names(old(out)@) + kept(piece@),
{
    if is_component(piece) {
        let owned = String::from_str(piece);
        proof {
            lemma_names_push(out@, owned);
            assert(names(out@).push(owned@) =~= names(out@) + kept(piece@));
        }
        out.push(owned);
    } else {
        assert(names(out@) =~= names(out@) + kept(piece@));
    }
}

/// Splits a path into its named components, in order from the root.
///
/// Separators, empty pieces and the markers `.` and `..` are dropped; the
/// root path and the empty path give no component.
pub fn get_path_dirs(path: &str) -> (dirs: Vec<String>)
    ensures
        names(dirs@) == path_segments(path@),
        forall|i: int|
            0 <= i < dirs@.len() ==> is_name((#[trigger] dirs@[i])@) && !dirs@[i]@.contains('/'),
{
    let n = path.unicode_len();
    let mut out: Vec<String> = Vec::new();
    let mut start: usize = 0;
    let mut i: usize = 0;
    proof {
        assert(path@.skip(0) =~= path@);
        assert(path@.subrange(0, 0) =~= Seq::<char>::empty());
        assert(names(out@) =~= Seq::<Seq<char>>::empty());
        assert(names(out@) + path_segments(path@) =~= path_segments(path@));
    }
    while i < n
        invariant
            start <= i <= n,
            n == path@.len(),
            path_segments(path@) == names(out@) + segments_from(
                path@.skip(i as int),
                path@.subrange(start as int, i as int),
            ),
        decreases n - i,
    {
        let c = path.get_char(i);
        let ghost rest = path@.skip(i as int);
        let ghost piece = path@.subrange(start as int, i as int);
        proof {
            assert(rest[0] == c);
            assert(rest.skip(1) =~= path@.skip(i + 1));
        }
        if c == '/' {
            let ghost before = names(out@);
            push_if_name(&mut out, path.substring_char(start, i));
            proof {
                assert(path@.subrange(i + 1, i + 1) =~= Seq::<char>::empty());
                assert(before + (kept(piece) + segments_from(rest.skip(1), Seq::empty()))
                    =~= (before + kept(piece)) + segments_from(rest.skip(1), Seq::empty()));
            }
            start = i + 1;
        } else {
            proof {
                assert(piece.push(c) =~= path@.subrange(start as int, i + 1));
            }
        }
        i += 1;
    }
    let ghost before = names(out@);
    push_if_name(&mut out, path.substring_char(start, n));
    proof {
        assert(path@.skip(n as int).len() == 0);
        lemma_path_segments_are_names(path@);
        assert forall|k: int| 0 <= k < out@.len() implies is_name((#[trigger] out@[k])@)
            && !out@[k]@.contains('/') by {
            assert(names(out@)[k] == out@[k]@);
        }
    }
    out
}

} // verus!
