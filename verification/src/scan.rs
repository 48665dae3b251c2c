//! Deduplication of scan targets.
//!
//! The multi-file scanner classifies each requested path once: paths are
//! paired with a best-effort canonical key, and only the first path
//! bearing each distinct key is kept, in the order given.

use itertools::Itertools;
use vstd::prelude::*;

verus! {

/// The deduplication policy: walk the pairs left to right and keep each
/// pair whose key has not been seen before.
pub open spec fn dedup_by_key(s: Seq<(String, String)>, seen: Set<Seq<char>>) -> Seq<
    (String, String),
>
    decreases s.len(),
{
    if s.len() == 0 {
        Seq::empty()
    } else if seen.contains(s[0].1@) {
        dedup_by_key(s.skip(1), seen)
    } else {
        seq![s[0]] + dedup_by_key(s.skip(1), seen.insert(s[0].1@))
    }
}

/// The pairs that survive deduplication: the first pair bearing each
/// distinct key.
pub open spec fn deduped(s: Seq<(String, String)>) -> Seq<(String, String)> {
    dedup_by_key(s, Set::empty())
}

/// No two pairs carry the same key.
pub open spec fn keys_distinct(s: Seq<(String, String)>) -> bool {
    forall|m: int, l: int| 0 <= m < l < s.len() ==> s[m].1@ != s[l].1@
}

/// Some pair carries the key `k`.
pub open spec fn has_key(s: Seq<(String, String)>, k: Seq<char>) -> bool {
    exists|m: int| 0 <= m < s.len() && #[trigger] s[m].1@ == k
}

/// Relies on itertools' `unique_by`: it filters out elements whose key,
/// compared by equality, was already produced, keeping the first
/// occurrence of each key in the order of the input.
#[verifier::external_body]
fn unique_by_canonical_key(items: Vec<(String, String)>) -> (r: Vec<(String, String)>)
    ensures
        r@ == deduped(items@),
{
    items.into_iter().unique_by(|p: &(String, String)| p.1.clone()).collect()
}

/// Keeps, of the given (path, key) pairs, the first pair bearing each
/// distinct key, in the order given: the scanner then spawns one task
/// per surviving pair, so no path is classified twice.
pub fn dedup_paths(items: Vec<(String, String)>) -> (r: Vec<(String, String)>)
    ensures
        r@ == deduped(items@),
{
    unique_by_canonical_key(items)
}

proof fn lemma_dedup_aux(s: Seq<(String, String)>, seen: Set<Seq<char>>)
    ensures
        keys_distinct(dedup_by_key(s, seen)),
        forall|k: Seq<char>| seen.contains(k) ==> !has_key(dedup_by_key(s, seen), k),
        forall|i: int|
            0 <= i < s.len() ==> (seen.contains(#[trigger] s[i].1@) || has_key(
                dedup_by_key(s, seen),
                s[i].1@,
            )),
        forall|m: int|
            0 <= m < dedup_by_key(s, seen).len() ==> s.contains(#[trigger] dedup_by_key(s, seen)[m]),
    decreases s.len(),
{
    if s.len() == 0 {
    } else if seen.contains(s[0].1@) {
        lemma_dedup_aux(s.skip(1), seen);
        let out = dedup_by_key(s, seen);
        assert forall|i: int|
            0 <= i < s.len() implies (seen.contains(#[trigger] s[i].1@) || has_key(
            out,
            s[i].1@,
        )) by {
            if i > 0 {
                assert(s.skip(1)[i - 1] == s[i]);
            }
        }
        assert forall|m: int| 0 <= m < out.len() implies s.contains(#[trigger] out[m]) by {
            let i = choose|i: int| 0 <= i < s.skip(1).len() && s.skip(1)[i] == out[m];
            assert(s[i + 1] == out[m]);
        }
    } else {
        let seen2 = seen.insert(s[0].1@);
        lemma_dedup_aux(s.skip(1), seen2);
        let rest = dedup_by_key(s.skip(1), seen2);
        let out = dedup_by_key(s, seen);
        assert(out[0] == s[0]);
        assert forall|m: int, l: int| 0 <= m < l < out.len() implies out[m].1@ != out[l].1@ by {
            if m == 0 {
                assert(seen2.contains(s[0].1@));
                assert(out[l] == rest[l - 1]);
                assert(!has_key(rest, s[0].1@));
                if rest[l - 1].1@ == s[0].1@ {
                    assert(has_key(rest, s[0].1@));
                }
            } else {
                assert(out[m] == rest[m - 1]);
                assert(out[l] == rest[l - 1]);
            }
        }
        assert forall|k: Seq<char>| seen.contains(k) implies !has_key(out, k) by {
            assert(seen2.contains(k));
            if has_key(out, k) {
                let m = choose|m: int| 0 <= m < out.len() && #[trigger] out[m].1@ == k;
                if m == 0 {
                    assert(seen.contains(s[0].1@));
                } else {
                    assert(out[m] == rest[m - 1]);
                    assert(has_key(rest, k));
                }
            }
        }
        assert forall|i: int|
            0 <= i < s.len() implies (seen.contains(#[trigger] s[i].1@) || has_key(
            out,
            s[i].1@,
        )) by {
            if i == 0 {
                assert(out[0].1@ == s[0].1@);
            } else {
                assert(s.skip(1)[i - 1] == s[i]);
                if !seen.contains(s[i].1@) && s[i].1@ != s[0].1@ {
                    assert(!seen2.contains(s[i].1@));
                    assert(has_key(rest, s[i].1@));
                    let m = choose|m: int| 0 <= m < rest.len() && #[trigger] rest[m].1@ == s[i].1@;
                    assert(out[m + 1] == rest[m]);
                } else if s[i].1@ == s[0].1@ {
                    assert(out[0].1@ == s[i].1@);
                }
            }
        }
        assert forall|m: int| 0 <= m < out.len() implies s.contains(#[trigger] out[m]) by {
            if m == 0 {
                assert(s[0] == out[0]);
            } else {
                assert(out[m] == rest[m - 1]);
                let i = choose|i: int| 0 <= i < s.skip(1).len() && s.skip(1)[i] == rest[m - 1];
                assert(s[i + 1] == out[m]);
            }
        }
    }
}

/// Deduplication is sound and complete: no key survives twice, every
/// requested key survives once, and every surviving pair was requested.
/// In particular, a path listed twice under one key yields exactly one
/// entry, whatever order the scanner's tasks then run in.
pub proof fn lemma_dedup_unique(items: Seq<(String, String)>)
    ensures
        keys_distinct(deduped(items)),
        forall|i: int| 0 <= i < items.len() ==> has_key(deduped(items), #[trigger] items[i].1@),
        forall|m: int| 0 <= m < deduped(items).len() ==> items.contains(#[trigger] deduped(items)[m]),
{
    lemma_dedup_aux(items, Set::empty());
}

} // verus!
