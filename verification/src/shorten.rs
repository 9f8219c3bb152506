//! Shortening of a single directory name by grapheme clusters.

use crate::text::{dot, is_dot, names};
use unicode_segmentation::UnicodeSegmentation;
use vstd::prelude::*;

verus! {

/// The extended grapheme clusters of a string, in order from left to right.
pub uninterp spec fn grapheme_clusters(s: Seq<char>) -> Seq<Seq<char>>;

/// The short form made of the grapheme clusters of a name: the first
/// cluster, or, for a hidden name (first cluster `.`) with more than one
/// cluster, the first two. No cluster gives the empty text.
pub open spec fn short_form(clusters: Seq<Seq<char>>) -> Seq<char> {
    if clusters.len() == 0 {
        Seq::empty()
    } else if clusters.len() >= 2 && clusters[0] == dot() {
        clusters[0] + clusters[1]
    } else {
        clusters[0]
    }
}

/// The display form of a directory name: the short form of its grapheme
/// clusters.
pub open spec fn shorten_spec(name: Seq<char>) -> Seq<char> {
    short_form(grapheme_clusters(name))
}

/// Trusted: calls `UnicodeSegmentation::graphemes` of the crate
/// `unicode-segmentation`, asking for extended clusters, and copies each
/// cluster into a `String`. The clusters are named by `grapheme_clusters`;
/// beyond the name, the contract claims only that the iterator cuts the
/// string into consecutive non-empty pieces, so that the pieces joined give
/// the string back.
#[verifier::external_body]
fn graphemes(s: &str) -> (r: Vec<String>)
    ensures
        names(r@) == grapheme_clusters(s@),
        names(r@).flatten() == s@,
        forall|i: int| 0 <= i < r@.len() ==> (#[trigger] r@[i])@.len() > 0,
{
    s.graphemes(true).map(|g| g.to_string()).collect()
}

/// The short form of a name, given its grapheme clusters in order.
///
/// The result is the first cluster, or the first two when the first is `.`
/// and a second exists. It is a prefix of the clusters joined, and all of
/// them where there is only one.
pub fn shorten_clusters(clusters: &Vec<String>) -> (r: String)
    ensures
        r@ == short_form(names(clusters@)),
        r@.is_prefix_of(names(clusters@).flatten()),
        clusters@.len() == 1 ==> r@ == names(clusters@).flatten(),
{
    let ghost gs = names(clusters@);
    if clusters.len() == 0 {
        return String::new();
    }
    proof {
        assert(gs[0] == clusters@[0]@);
        let rest = gs.drop_first();
        assert(gs.flatten() == gs[0] + rest.flatten());
        if gs.len() == 1 {
            assert(rest.flatten() =~= Seq::<char>::empty());
            assert(gs[0] + rest.flatten() =~= gs[0]);
        } else {
            assert(rest[0] == gs[1]);
            assert(rest.flatten() == rest[0] + rest.drop_first().flatten());
            assert(gs[0] + (gs[1] + rest.drop_first().flatten()) =~= (gs[0] + gs[1])
                + rest.drop_first().flatten());
        }
    }
    if clusters.len() >= 2 && is_dot(clusters[0].as_str()) {
        let mut r = clusters[0].clone();
        r.append(clusters[1].as_str());
        proof {
            assert(gs[1] == clusters@[1]@);
        }
        r
    } else {
        clusters[0].clone()
    }
}

/// Shortens one directory name for display.
///
/// The result is the first grapheme cluster of `dir`, or the first two when
/// the first is `.` and a second exists. It is always a prefix of `dir`; a
/// name of a single cluster is returned unchanged, and the empty name gives
/// the empty string.
pub fn shorten_dir(dir: &str) -> (r: String)
    ensures
        r@ == shorten_spec(dir@),
        r@.is_prefix_of(dir@),
        grapheme_clusters(dir@).len() == 1 ==> r@ == dir@,
        (dir@.len() == 0) == (r@.len() == 0),
{
    let clusters = graphemes(dir);
    proof {
        let gs = names(clusters@);
        if clusters@.len() == 0 {
            assert(gs.flatten() =~= Seq::<char>::empty());
        } else {
            assert(gs[0] == clusters@[0]@);
        }
    }
    shorten_clusters(&clusters)
}

} // verus!
