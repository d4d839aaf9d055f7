//! Lookup in an ordered list of key/value pairs, as produced by the
//! diagnostic-payload and settings-document parsers.

use vstd::prelude::*;
use crate::text::str_eq;

verus! {

/// The mathematical image of a parsed pair list.
pub open spec fn pair_views(ps: Seq<(String, String)>) -> Seq<(Seq<char>, Seq<char>)> {
    ps.map_values(|p: (String, String)| (p.0@, p.1@))
}

/// How many pairs carry `key`.
pub open spec fn key_count(pairs: Seq<(Seq<char>, Seq<char>)>, key: Seq<char>) -> nat
    decreases pairs.len(),
{
    if pairs.len() == 0 {
        0
    } else {
        (if pairs[0].0 == key {
            1nat
        } else {
            0nat
        }) + key_count(pairs.drop_first(), key)
    }
}

/// The value of the first pair carrying `key`.
pub open spec fn first_value(pairs: Seq<(Seq<char>, Seq<char>)>, key: Seq<char>) -> Option<
    Seq<char>,
>
    decreases pairs.len(),
{
    if pairs.len() == 0 {
        None
    } else if pairs[0].0 == key {
        Some(pairs[0].1)
    } else {
        first_value(pairs.drop_first(), key)
    }
}

/// The value of `key` when it occurs exactly once, and nothing otherwise.
pub open spec fn unique_value(pairs: Seq<(Seq<char>, Seq<char>)>, key: Seq<char>) -> Option<
    Seq<char>,
> {
    if key_count(pairs, key) == 1 {
        first_value(pairs, key)
    } else {
        None
    }
}

/// Returns the value of `key` when the pair list holds it exactly once;
/// a missing or repeated key yields `None`.
pub fn lookup_unique(pairs: &Vec<(String, String)>, key: &str) -> (r: Option<String>)
    ensures
        (r is Some) == (unique_value(pair_views(pairs@), key@) is Some),
        r matches Some(v) ==> Some(v@) == unique_value(pair_views(pairs@), key@),
{
    let ghost all = pair_views(pairs@);
    let mut count: usize = 0;
    let mut found: Option<String> = None;
    let n = pairs.len();
    let mut idx: usize = 0;
    proof {
        assert(all.skip(0) =~= all);
    }
    while idx < n
        invariant
            idx <= n,
            n == pairs@.len(),
            all == pair_views(pairs@),
            count <= idx,
            key_count(all, key@) == count + key_count(all.skip(idx as int), key@),
            (count >= 1) == (found is Some),
            found matches Some(v) ==> first_value(all, key@) == Some(v@),
            found is None ==> first_value(all, key@) == first_value(
                all.skip(idx as int),
                key@,
            ),
        decreases n - idx,
    {
        proof {
            assert(all.skip(idx as int).drop_first() =~= all.skip(idx + 1));
            assert(all.skip(idx as int)[0] == (pairs@[idx as int].0@, pairs@[idx as int].1@));
        }
        if str_eq(pairs[idx].0.as_str(), key) {
            count = count + 1;
            if count == 1 {
                found = Some(pairs[idx].1.clone());
            }
        }
        idx = idx + 1;
    }
    proof {
        assert(all.skip(n as int) =~= Seq::<(Seq<char>, Seq<char>)>::empty());
    }
    if count == 1 {
        found
    } else {
        None
    }
}

/// Returns the value of `key` when the pair list holds it at most once
/// (`Some(None)` when it is absent); a repeated key yields `None`.
pub fn lookup_single(pairs: &Vec<(String, String)>, key: &str) -> (r: Option<Option<String>>)
    ensures
        (r is Some) == (key_count(pair_views(pairs@), key@) <= 1),
        r matches Some(o) ==> crate::text::opt_view(o) == first_value(pair_views(pairs@), key@),
{
    let ghost all = pair_views(pairs@);
    let mut count: usize = 0;
    let mut found: Option<String> = None;
    let n = pairs.len();
    let mut idx: usize = 0;
    proof {
        assert(all.skip(0) =~= all);
    }
    while idx < n
        invariant
            idx <= n,
            n == pairs@.len(),
            all == pair_views(pairs@),
            count <= idx,
            key_count(all, key@) == count + key_count(all.skip(idx as int), key@),
            (count >= 1) == (found is Some),
            found matches Some(v) ==> first_value(all, key@) == Some(v@),
            found is None ==> first_value(all, key@) == first_value(
                all.skip(idx as int),
                key@,
            ),
        decreases n - idx,
    {
        proof {
            assert(all.skip(idx as int).drop_first() =~= all.skip(idx + 1));
            assert(all.skip(idx as int)[0] == (pairs@[idx as int].0@, pairs@[idx as int].1@));
        }
        if str_eq(pairs[idx].0.as_str(), key) {
            count = count + 1;
            if count == 1 {
                found = Some(pairs[idx].1.clone());
            }
        }
        idx = idx + 1;
    }
    proof {
        assert(all.skip(n as int) =~= Seq::<(Seq<char>, Seq<char>)>::empty());
    }
    if count <= 1 {
        Some(found)
    } else {
        None
    }
}

} // verus!
