//! Dotted cvar paths: splitting a path string into its segments.

use vstd::prelude::*;
use vstd::string::*;

verus! {

/// The position of the first `c` in `s`, or `s.len()` where `s` holds none.
pub open spec fn find_char(s: Seq<char>, c: char) -> int
    decreases s.len(),
{
    if s.len() == 0 || s[0] == c {
        0
    } else {
        1 + find_char(s.drop_first(), c)
    }
}

/// `find_char` is the least position that holds `c`.
pub proof fn lemma_find_char(s: Seq<char>, c: char)
    ensures
        0 <= find_char(s, c) <= s.len(),
        forall|j: int| 0 <= j < find_char(s, c) ==> s[j] != c,
        find_char(s, c) < s.len() ==> s[find_char(s, c)] == c,
    decreases s.len(),
{
    if s.len() == 0 || s[0] == c {
    } else {
        lemma_find_char(s.drop_first(), c);
        assert forall|j: int| 0 <= j < find_char(s, c) implies s[j] != c by {
            if j > 0 {
                assert(s[j] == s.drop_first()[j - 1]);
            }
        }
    }
}

/// A position before which no `c` stands, and which holds `c` or ends `s`,
/// is the one that `find_char` gives.
pub proof fn lemma_find_char_unique(s: Seq<char>, c: char, i: int)
    requires
        0 <= i <= s.len(),
        forall|j: int| 0 <= j < i ==> s[j] != c,
        i < s.len() ==> s[i] == c,
    ensures
        find_char(s, c) == i,
{
    lemma_find_char(s, c);
    let f = find_char(s, c);
    if f < i {
        assert(s[f] != c);
    } else if i < f {
        assert(s[i] != c);
    }
}

/// The segments of a dotted path: the pieces between the dots, in order.
/// A path without a dot is its own single segment; the empty path has one
/// empty segment.
pub open spec fn split_segments(s: Seq<char>) -> Seq<Seq<char>>
    decreases s.len(),
{
    let dot = find_char(s, '.');
    if 0 <= dot < s.len() {
        seq![s.take(dot)] + split_segments(s.skip(dot + 1))
    } else {
        seq![s]
    }
}

/// Every path has at least one segment.
pub proof fn lemma_split_nonempty(s: Seq<char>)
    ensures
        split_segments(s).len() >= 1,
    decreases s.len(),
{
    let dot = find_char(s, '.');
    lemma_find_char(s, '.');
    if 0 <= dot < s.len() {
        lemma_split_nonempty(s.skip(dot + 1));
    }
}

/// The views of a vector of strings.
pub open spec fn segment_views(v: Seq<String>) -> Seq<Seq<char>> {
    Seq::new(v.len(), |i: int| v[i]@)
}

/// Splits a dotted path into its segments.
pub fn split_path(name: &str) -> (segments: Vec<String>)
    ensures
        segment_views(segments@) == split_segments(name@),
        segments.len() >= 1,
{
    let n: usize = name.unicode_len();
    let mut segments: Vec<String> = Vec::new();
    let mut start: usize = 0;
    let mut i: usize = 0;
    proof {
        assert(name@.skip(0) =~= name@);
        assert(segment_views(segments@) + split_segments(name@) =~= split_segments(name@));
    }
    while i < n
        invariant
            n == name@.len(),
            0 <= start <= i <= n,
            forall|j: int| start <= j < i ==> name@[j] != '.',
            split_segments(name@) == segment_views(segments@) + split_segments(
                name@.skip(start as int),
            ),
        decreases n - i,
    {
        let c = name.get_char(i);
        if c == '.' {
            let piece = name.substring_char(start, i).to_owned();
            let ghost before = segments@;
            segments.push(piece);
            proof {
                let rest = name@.skip(start as int);
                assert forall|j: int| 0 <= j < i - start implies rest[j] != '.' by {
                    assert(rest[j] == name@[start + j]);
                }
                lemma_find_char_unique(rest, '.', i - start);
                assert(rest.take(i - start) =~= name@.subrange(start as int, i as int));
                assert(rest.skip(i - start + 1) =~= name@.skip(i + 1));
                assert(segment_views(segments@) =~= segment_views(before) + seq![
                    name@.subrange(start as int, i as int),
                ]);
            }
            start = i + 1;
        }
        i = i + 1;
    }
    let piece = name.substring_char(start, n).to_owned();
    let ghost before = segments@;
    segments.push(piece);
    proof {
        let rest = name@.skip(start as int);
        assert forall|j: int| 0 <= j < rest.len() implies rest[j] != '.' by {
            assert(rest[j] == name@[start + j]);
        }
        lemma_find_char_unique(rest, '.', rest.len() as int);
        assert(rest =~= name@.subrange(start as int, n as int));
        assert(segment_views(segments@) =~= segment_views(before) + seq![rest]);
    }
    segments
}

} // verus!
