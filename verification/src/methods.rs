//! Selection of new account names from one line of input.
//!
//! A line names accounts separated by a comma and a space.  Duplicates keep
//! their first occurrence, and names already defined are dropped, so that no
//! account can be created twice.

use crate::text::split_text;
use crate::text::split_text_exec;
use crate::text::str_eq;
use vstd::prelude::*;

verus! {

/// Keeps the first occurrence of every name, in order.
pub open spec fn dedup_first(s: Seq<Seq<char>>) -> Seq<Seq<char>>
    decreases s.len(),
{
    if s.len() == 0 {
        s
    } else {
        let d = dedup_first(s.drop_last());
        if d.contains(s.last()) {
            d
        } else {
            d.push(s.last())
        }
    }
}

/// Drops every name that is already known, keeping order.
pub open spec fn remove_known(s: Seq<Seq<char>>, known: Seq<Seq<char>>) -> Seq<Seq<char>>
    decreases s.len(),
{
    if s.len() == 0 {
        s
    } else {
        let d = remove_known(s.drop_last(), known);
        if known.contains(s.last()) {
            d
        } else {
            d.push(s.last())
        }
    }
}

fn vec_contains(v: &Vec<String>, x: &str) -> (r: bool)
    ensures
        r == v.deep_view().contains(x@),
{
    let mut i: usize = 0;
    while i < v.len()
        invariant
            0 <= i <= v@.len(),
            forall|k: int| 0 <= k < i ==> v.deep_view()[k] != x@,
        decreases v@.len() - i,
    {
        proof {
            assert(v.deep_view()[i as int] == v@[i as int]@);
        }
        if str_eq(v[i].as_str(), x) {
            return true;
        }
        i = i + 1;
    }
    proof {
        if v.deep_view().contains(x@) {
            let w = choose|k: int| 0 <= k < v.deep_view().len() && v.deep_view()[k] == x@;
            assert(v.deep_view()[w] != x@);
        }
    }
    false
}

/// Splits one input line on `", "`, keeps the first occurrence of each name,
/// and drops the names already defined.
pub fn parse_method_input(line: &str, existing: &Vec<String>) -> (r: Vec<String>)
    ensures
        r.deep_view() == remove_known(
            dedup_first(split_text(line@, seq![',', ' '])),
            existing.deep_view(),
        ),
{
    proof {
        reveal_strlit(", ");
        assert(", "@ =~= seq![',', ' ']);
    }
    let parts = split_text_exec(line, ", ");
    let ghost pv = parts.deep_view();
    let mut unique: Vec<String> = Vec::new();
    let mut i: usize = 0;
    while i < parts.len()
        invariant
            0 <= i <= parts@.len(),
            pv == parts.deep_view(),
            pv.len() == parts@.len(),
            unique.deep_view() == dedup_first(pv.take(i as int)),
        decreases parts@.len() - i,
    {
        proof {
            assert(pv[i as int] == parts@[i as int]@);
            assert(pv.take(i + 1).drop_last() =~= pv.take(i as int));
            assert(pv.take(i + 1).last() == pv[i as int]);
        }
        let ghost before = unique.deep_view();
        if !vec_contains(&unique, parts[i].as_str()) {
            unique.push(parts[i].clone());
            proof {
                assert(unique.deep_view() =~= before.push(pv[i as int]));
            }
        }
        i = i + 1;
    }
    proof {
        assert(pv.take(parts@.len() as int) =~= pv);
    }
    let ghost uv = unique.deep_view();
    let ghost kv = existing.deep_view();
    let mut out: Vec<String> = Vec::new();
    let mut j: usize = 0;
    while j < unique.len()
        invariant
            0 <= j <= unique@.len(),
            uv == unique.deep_view(),
            uv.len() == unique@.len(),
            kv == existing.deep_view(),
            out.deep_view() == remove_known(uv.take(j as int), kv),
        decreases unique@.len() - j,
    {
        proof {
            assert(uv[j as int] == unique@[j as int]@);
            assert(uv.take(j + 1).drop_last() =~= uv.take(j as int));
            assert(uv.take(j + 1).last() == uv[j as int]);
        }
        let ghost before = out.deep_view();
        if !vec_contains(existing, unique[j].as_str()) {
            out.push(unique[j].clone());
            proof {
                assert(out.deep_view() =~= before.push(uv[j as int]));
            }
        }
        j = j + 1;
    }
    proof {
        assert(uv.take(unique@.len() as int) =~= uv);
    }
    out
}

} // verus!
