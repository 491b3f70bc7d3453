//! Character-level text helpers.
//!
//! The ledger's persisted form is text: dates, decimal amounts, compound
//! transfer references.  This module gives exact splitting and comparison of
//! character sequences, stated over `Seq<char>` views.

use vstd::prelude::*;

verus! {

/// `sep` occurs in `s` starting at position `i`.
pub open spec fn matches_at(s: Seq<char>, sep: Seq<char>, i: int) -> bool {
    0 <= i && i + sep.len() <= s.len() && s.subrange(i, i + sep.len() as int) == sep
}

/// Position of the first occurrence of `sep` in `s`, if any.
pub open spec fn find_sub(s: Seq<char>, sep: Seq<char>) -> Option<int>
    decreases s.len(),
{
    if sep.len() == 0 {
        Some(0)
    } else if s.len() < sep.len() {
        None
    } else if s.subrange(0, sep.len() as int) == sep {
        Some(0)
    } else {
        match find_sub(s.skip(1), sep) {
            None => None,
            Some(j) => Some(j + 1),
        }
    }
}

/// The pieces of `s` between occurrences of the separator `sep`, leftmost
/// occurrence first; a string without the separator is one piece.
pub open spec fn split_text(s: Seq<char>, sep: Seq<char>) -> Seq<Seq<char>>
    decreases s.len(),
{
    match find_sub(s, sep) {
        None => seq![s],
        Some(i) => if 0 < sep.len() && 0 <= i && i + sep.len() <= s.len() {
            seq![s.subrange(0, i)] + split_text(s.skip(i + sep.len() as int), sep)
        } else {
            seq![s]
        },
    }
}

pub proof fn lemma_matches_shift(s: Seq<char>, sep: Seq<char>, p: int, j: int)
    requires
        0 <= p <= s.len(),
        0 <= j,
    ensures
        matches_at(s.skip(p), sep, j) == matches_at(s, sep, p + j),
{
    if j + sep.len() <= s.len() - p {
        assert(s.skip(p).subrange(j, j + sep.len() as int) =~= s.subrange(
            p + j,
            p + j + sep.len() as int,
        ));
    }
}

/// `find_sub` returns the least position where the separator occurs.
pub proof fn lemma_find_sub(s: Seq<char>, sep: Seq<char>)
    ensures
        match find_sub(s, sep) {
            Some(i) => matches_at(s, sep, i) && forall|j: int|
                0 <= j < i ==> !matches_at(s, sep, j),
            None => forall|j: int| !matches_at(s, sep, j),
        },
    decreases s.len(),
{
    if sep.len() == 0 {
        assert(s.subrange(0, 0) =~= sep);
        assert(matches_at(s, sep, 0));
    } else if s.len() < sep.len() {
        assert forall|j: int| !matches_at(s, sep, j) by {}
    } else if s.subrange(0, sep.len() as int) == sep {
        assert(matches_at(s, sep, 0));
    } else {
        lemma_find_sub(s.skip(1), sep);
        assert(s.len() >= 1);
        assert forall|j: int| 0 <= j implies matches_at(s.skip(1), sep, j) == matches_at(
            s,
            sep,
            j + 1,
        ) by {
            lemma_matches_shift(s, sep, 1, j);
        }
        match find_sub(s.skip(1), sep) {
            None => {
                assert forall|j: int| !matches_at(s, sep, j) by {
                    if 1 <= j {
                        assert(!matches_at(s.skip(1), sep, j - 1));
                    }
                }
            },
            Some(k) => {
                assert(matches_at(s.skip(1), sep, k));
                assert(matches_at(s, sep, k + 1));
                assert forall|j: int| 0 <= j < k + 1 implies !matches_at(s, sep, j) by {
                    if 1 <= j {
                        assert(!matches_at(s.skip(1), sep, j - 1));
                    }
                }
            },
        }
    }
}

/// Converts a least-match result for positions at or past `p` into the value
/// of `find_sub` on the suffix of `s` that starts at `p`.
pub proof fn lemma_find_from(s: Seq<char>, sep: Seq<char>, p: int, r: Option<int>)
    requires
        0 <= p <= s.len(),
        match r {
            Some(i) => p <= i && matches_at(s, sep, i) && forall|j: int|
                p <= j < i ==> !matches_at(s, sep, j),
            None => forall|j: int| p <= j ==> !matches_at(s, sep, j),
        },
    ensures
        find_sub(s.skip(p), sep) == match r {
            Some(i) => Some(i - p),
            None => None::<int>,
        },
{
    lemma_find_sub(s.skip(p), sep);
    assert forall|j: int| 0 <= j implies matches_at(s.skip(p), sep, j) == matches_at(
        s,
        sep,
        p + j,
    ) by {
        lemma_matches_shift(s, sep, p, j);
    }
    match r {
        Some(i) => {
            assert(matches_at(s.skip(p), sep, i - p));
            match find_sub(s.skip(p), sep) {
                None => {
                    assert(!matches_at(s.skip(p), sep, i - p));
                },
                Some(k) => {
                    if k < i - p {
                        assert(matches_at(s, sep, p + k));
                        assert(!matches_at(s, sep, p + k));
                    }
                    if k > i - p {
                        assert(!matches_at(s.skip(p), sep, i - p));
                    }
                },
            }
        },
        None => {
            match find_sub(s.skip(p), sep) {
                None => {},
                Some(k) => {
                    assert(matches_at(s, sep, p + k));
                    assert(!matches_at(s, sep, p + k));
                },
            }
        },
    }
}

/// Character-for-character equality of two string slices.
pub fn str_eq(a: &str, b: &str) -> (r: bool)
    ensures
        r == (a@ == b@),
{
    let an = a.unicode_len();
    let bn = b.unicode_len();
    if an != bn {
        assert(a@ != b@);
        return false;
    }
    let mut i: usize = 0;
    while i < an
        invariant
            an == a@.len(),
            an == b@.len(),
            0 <= i <= an,
            forall|k: int| 0 <= k < i ==> a@[k] == b@[k],
        decreases an - i,
    {
        if a.get_char(i) != b.get_char(i) {
            return false;
        }
        i = i + 1;
    }
    proof {
        assert(a@ =~= b@);
    }
    true
}

/// Whether `sep` occurs in `s` at position `i`.
fn match_at_exec(s: &str, sep: &str, i: usize, sep_len: usize) -> (r: bool)
    requires
        sep_len == sep@.len(),
        i + sep_len <= s@.len(),
        s@.len() <= usize::MAX,
    ensures
        r == matches_at(s@, sep@, i as int),
{
    let mut j: usize = 0;
    while j < sep_len
        invariant
            sep_len == sep@.len(),
            i + sep_len <= s@.len(),
            s@.len() <= usize::MAX,
            0 <= j <= sep_len,
            forall|k: int| 0 <= k < j ==> s@[i + k] == sep@[k],
        decreases sep_len - j,
    {
        if s.get_char(i + j) != sep.get_char(j) {
            assert(!matches_at(s@, sep@, i as int)) by {
                assert(s@.subrange(i as int, i + sep@.len() as int)[j as int] == s@[i + j]);
            }
            return false;
        }
        j = j + 1;
    }
    proof {
        assert(s@.subrange(i as int, i + sep@.len() as int) =~= sep@);
    }
    true
}

/// Position of the first occurrence of `sep` in `s` at or past `from`.
pub fn find_sub_from(s: &str, sep: &str, from: usize) -> (r: Option<usize>)
    requires
        from <= s@.len(),
        sep@.len() > 0,
    ensures
        match r {
            Some(i) => from <= i && matches_at(s@, sep@, i as int) && forall|j: int|
                from <= j < i ==> !matches_at(s@, sep@, j),
            None => forall|j: int| from <= j ==> !matches_at(s@, sep@, j),
        },
{
    let n = s.unicode_len();
    let sep_len = sep.unicode_len();
    if sep_len > n || from > n - sep_len {
        assert forall|j: int| from <= j implies !matches_at(s@, sep@, j) by {}
        return None;
    }
    let mut i: usize = from;
    while i <= n - sep_len
        invariant
            n == s@.len(),
            sep_len == sep@.len(),
            sep_len >= 1,
            sep_len <= n,
            from <= i,
            i <= n - sep_len + 1,
            forall|j: int| from <= j < i ==> !matches_at(s@, sep@, j),
        decreases n - i,
    {
        if match_at_exec(s, sep, i, sep_len) {
            return Some(i);
        }
        i = i + 1;
    }
    assert forall|j: int| from <= j implies !matches_at(s@, sep@, j) by {}
    None
}

/// Splits `s` on every occurrence of the separator `sep`.
pub fn split_text_exec(s: &str, sep: &str) -> (r: Vec<String>)
    requires
        sep@.len() > 0,
    ensures
        r.deep_view() == split_text(s@, sep@),
{
    let n = s.unicode_len();
    let sep_len = sep.unicode_len();
    let mut parts: Vec<String> = Vec::new();
    let mut pos: usize = 0;
    proof {
        assert(s@.skip(0) =~= s@);
        assert(parts.deep_view() =~= Seq::<Seq<char>>::empty());
    }
    loop
        invariant
            n == s@.len(),
            sep_len == sep@.len(),
            sep_len >= 1,
            pos <= n,
            split_text(s@, sep@) =~= parts.deep_view() + split_text(s@.skip(pos as int), sep@),
        decreases n - pos,
    {
        let found = find_sub_from(s, sep, pos);
        proof {
            lemma_find_from(
                s@,
                sep@,
                pos as int,
                match found {
                    Some(i) => Some(i as int),
                    None => None,
                },
            );
        }
        match found {
            None => {
                let piece = String::from_str(s.substring_char(pos, n));
                let ghost old_parts = parts.deep_view();
                parts.push(piece);
                proof {
                    assert(parts.deep_view() =~= old_parts + seq![s@.skip(pos as int)]);
                    assert(split_text(s@.skip(pos as int), sep@) =~= seq![s@.skip(pos as int)]);
                    assert(parts.deep_view() =~= split_text(s@, sep@));
                }
                return parts;
            },
            Some(i) => {
                let piece = String::from_str(s.substring_char(pos, i));
                let ghost old_parts = parts.deep_view();
                parts.push(piece);
                proof {
                    let rest = s@.skip(pos as int);
                    assert(find_sub(rest, sep@) == Some(i - pos));
                    assert(rest.subrange(0, i - pos) =~= s@.subrange(pos as int, i as int));
                    assert(rest.skip(i - pos + sep@.len() as int) =~= s@.skip(
                        i + sep_len as int,
                    ));
                    assert(split_text(rest, sep@) =~= seq![s@.subrange(pos as int, i as int)]
                        + split_text(s@.skip(i + sep_len as int), sep@));
                    assert(parts.deep_view() =~= old_parts + seq![
                        s@.subrange(pos as int, i as int),
                    ]);
                }
                pos = i + sep_len;
            },
        }
    }
}

} // verus!
