//! Small vocabulary shared by the other modules: views of string vectors,
//! the two characters that matter in a path, comparison of names, and the
//! replacement of a first occurrence.

use vstd::prelude::*;

verus! {

/// The contents of a vector of strings, as a sequence of character sequences.
pub open spec fn names(v: Seq<String>) -> Seq<Seq<char>> {
    Seq::new(v.len(), |i: int| v[i]@)
}

/// The one-character sequence `.`.
pub open spec fn dot() -> Seq<char> {
    seq!['.']
}

/// The one-character sequence `/`.
pub open spec fn slash() -> Seq<char> {
    seq!['/']
}

/// Pushing a string onto a vector appends its contents to the vector's names.
pub proof fn lemma_names_push(v: Seq<String>, s: String)
    ensures
        names(v.push(s)) == names(v).push(s@),
{
    assert(names(v.push(s)) =~= names(v).push(s@));
}

/// Whether two strings hold the same characters.
pub fn same_text(a: &str, b: &str) -> (r: bool)
    ensures
        r == (a@ == b@),
{
    let x = String::from_str(a);
    let y = String::from_str(b);
    x == y
}

/// `s` with the first occurrence of `pat` replaced by `to`, or `s` itself
/// where `pat` does not occur. The occurrence searched for is the leftmost.
pub open spec fn replace_first_spec(s: Seq<char>, pat: Seq<char>, to: Seq<char>) -> Seq<char>
    decreases s.len(),
{
    if pat.is_prefix_of(s) {
        to + s.skip(pat.len() as int)
    } else if s.len() == 0 {
        s
    } else {
        seq![s[0]] + replace_first_spec(s.skip(1), pat, to)
    }
}

/// Whether `pat` stands in `s` at position `i`.
pub open spec fn occurs_at(s: Seq<char>, pat: Seq<char>, i: int) -> bool {
    0 <= i && i + pat.len() <= s.len() && s.subrange(i, i + pat.len()) == pat
}

/// Where `pat` stands at position `i` of `s` and at no earlier position, the
/// replacement puts `to` there and leaves the text on both sides as it is.
pub proof fn lemma_replace_first_at(s: Seq<char>, pat: Seq<char>, to: Seq<char>, i: int)
    requires
        occurs_at(s, pat, i),
        forall|j: int| 0 <= j < i ==> !occurs_at(s, pat, j),
    ensures
        replace_first_spec(s, pat, to) == s.take(i) + to + s.skip(i + pat.len()),
    decreases i,
{
    let m = pat.len() as int;
    if i == 0 {
        assert(pat.is_prefix_of(s));
        assert(s.take(0) + to + s.skip(m) =~= to + s.skip(m));
    } else {
        assert(!occurs_at(s, pat, 0));
        if pat.is_prefix_of(s) {
            assert(s.subrange(0, m) =~= pat);
        }
        let t = s.skip(1);
        assert(t.subrange(i - 1, i - 1 + m) =~= s.subrange(i, i + m));
        assert forall|j: int| 0 <= j < i - 1 implies !occurs_at(t, pat, j) by {
            if occurs_at(t, pat, j) {
                assert(s.subrange(j + 1, j + 1 + m) =~= t.subrange(j, j + m));
                assert(occurs_at(s, pat, j + 1));
            }
        }
        lemma_replace_first_at(t, pat, to, i - 1);
        assert(seq![s[0]] + (t.take(i - 1) + to + t.skip(i - 1 + m)) =~= s.take(i) + to + s.skip(
            i + m,
        ));
    }
}

/// Where `pat` stands nowhere in `s`, the replacement changes nothing.
pub proof fn lemma_replace_first_absent(s: Seq<char>, pat: Seq<char>, to: Seq<char>)
    requires
        forall|j: int| !occurs_at(s, pat, j),
    ensures
        replace_first_spec(s, pat, to) == s,
    decreases s.len(),
{
    let m = pat.len() as int;
    assert(!occurs_at(s, pat, 0));
    if pat.is_prefix_of(s) {
        assert(s.subrange(0, m) =~= pat);
    }
    if s.len() > 0 {
        let t = s.skip(1);
        assert forall|j: int| !occurs_at(t, pat, j) by {
            if occurs_at(t, pat, j) {
                assert(s.subrange(j + 1, j + 1 + m) =~= t.subrange(j, j + m));
                assert(occurs_at(s, pat, j + 1));
            }
        }
        lemma_replace_first_absent(t, pat, to);
        assert(seq![s[0]] + t =~= s);
    }
}

/// A pattern longer than the text does not occur in it.
pub proof fn lemma_replace_first_short(s: Seq<char>, pat: Seq<char>, to: Seq<char>)
    requires
        s.len() < pat.len(),
    ensures
        replace_first_spec(s, pat, to) == s,
    decreases s.len(),
{
    if s.len() > 0 {
        lemma_replace_first_short(s.skip(1), pat, to);
        assert(seq![s[0]] + s.skip(1) =~= s);
    }
}

/// Replaces the leftmost occurrence of `pat` in `s` by `to`.
pub fn replace_first(s: &str, pat: &str, to: &str) -> (r: String)
    ensures
        r@ == replace_first_spec(s@, pat@, to@),
{
    let n = s.unicode_len();
    let m = pat.unicode_len();
    if m > n {
        proof {
            lemma_replace_first_short(s@, pat@, to@);
        }
        return String::from_str(s);
    }
    let mut i: usize = 0;
    proof {
        assert(s@.skip(0) =~= s@);
        assert(s@.take(0) + s@ =~= s@);
    }
    while i <= n - m
        invariant
            n == s@.len(),
            m == pat@.len(),
            m <= n,
            i <= n - m + 1,
            m == 0 ==> i == 0,
            replace_first_spec(s@, pat@, to@) == s@.take(i as int) + replace_first_spec(
                s@.skip(i as int),
                pat@,
                to@,
            ),
        decreases n - m + 1 - i,
    {
        let ghost rest = s@.skip(i as int);
        proof {
            assert(rest.subrange(0, m as int) =~= s@.subrange(i as int, i + m));
        }
        if same_text(s.substring_char(i, i + m), pat) {
            let mut r = String::from_str(s.substring_char(0, i));
            r.append(to);
            r.append(s.substring_char(i + m, n));
            proof {
                assert(pat@.is_prefix_of(rest));
                assert(rest.skip(m as int) =~= s@.subrange(i + m, n as int));
                assert(s@.take(i as int) =~= s@.subrange(0, i as int));
                assert(s@.take(i as int) + (to@ + rest.skip(m as int)) =~= s@.subrange(
                    0,
                    i as int,
                ) + to@ + s@.subrange(i + m, n as int));
            }
            return r;
        }
        proof {
            if m == 0 {
                assert(pat@ =~= s@.subrange(i as int, i + m));
            }
            assert(!pat@.is_prefix_of(rest));
            assert(rest.len() > 0);
            assert(rest.skip(1) =~= s@.skip(i + 1));
            assert(s@.take(i as int) + (seq![rest[0]] + replace_first_spec(
                rest.skip(1),
                pat@,
                to@,
            )) =~= s@.take(i + 1) + replace_first_spec(rest.skip(1), pat@, to@));
        }
        i += 1;
    }
    proof {
        lemma_replace_first_short(s@.skip(i as int), pat@, to@);
        assert(s@.take(i as int) + s@.skip(i as int) =~= s@);
    }
    String::from_str(s)
}

/// Whether the names in `prefix` are the first names of `dirs`, in order.
pub fn starts_with_names(dirs: &Vec<String>, prefix: &Vec<String>) -> (r: bool)
    ensures
        r == names(prefix@).is_prefix_of(names(dirs@)),
{
    if prefix.len() > dirs.len() {
        return false;
    }
    let ghost whole = names(dirs@);
    let ghost part = names(prefix@);
    let mut i: usize = 0;
    while i < prefix.len()
        invariant
            i <= prefix@.len() <= dirs@.len(),
            whole == names(dirs@),
            part == names(prefix@),
            forall|k: int| 0 <= k < i ==> part[k] == whole[k],
        decreases prefix@.len() - i,
    {
        if !same_text(prefix[i].as_str(), dirs[i].as_str()) {
            proof {
                assert(part[i as int] != whole.subrange(0, part.len() as int)[i as int]);
            }
            return false;
        }
        i += 1;
    }
    proof {
        assert(part =~= whole.subrange(0, part.len() as int));
    }
    true
}

/// Whether two vectors hold the same names in the same order.
pub fn same_names(a: &Vec<String>, b: &Vec<String>) -> (r: bool)
    ensures
        r == (names(a@) == names(b@)),
{
    if a.len() != b.len() {
        return false;
    }
    let r = starts_with_names(a, b);
    proof {
        assert(names(a@).subrange(0, names(b@).len() as int) =~= names(a@));
    }
    r
}

/// Whether `s` is exactly the string `.`.
pub fn is_dot(s: &str) -> (r: bool)
    ensures
        r == (s@ == dot()),
{
    if s.unicode_len() != 1 {
        false
    } else {
        let c = s.get_char(0);
        proof {
            if c == '.' {
                assert(s@ =~= dot());
            } else {
                assert(dot()[0] == '.');
            }
        }
        c == '.'
    }
}

/// Whether `s` is exactly the string `/`.
pub fn is_slash(s: &str) -> (r: bool)
    ensures
        r == (s@ == slash()),
{
    if s.unicode_len() != 1 {
        false
    } else {
        let c = s.get_char(0);
        proof {
            if c == '/' {
                assert(s@ =~= slash());
            } else {
                assert(slash()[0] == '/');
            }
        }
        c == '/'
    }
}

} // verus!
