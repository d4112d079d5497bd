//! Byte-pattern search: locating a fixed literal marker inside a memory
//! snapshot.
//!
//! The search never assumes the buffer is as long as the region it was read
//! from; a marker that falls beyond the end of a truncated buffer is simply
//! not found.

use vstd::prelude::*;

verus! {

use vstd::slice::slice_subrange;

/// True when `needle` occurs in `haystack` starting at index `i`.
pub open spec fn match_at(haystack: Seq<u8>, needle: Seq<u8>, i: int) -> bool {
    &&& 0 <= i
    &&& i + needle.len() <= haystack.len()
    &&& haystack.subrange(i, i + needle.len()) == needle
}

/// The first index at or after `from` where the non-empty `needle` occurs,
/// if it occurs at all.
pub open spec fn first_match_from(haystack: Seq<u8>, needle: Seq<u8>, from: int) -> Option<int>
    recommends
        needle.len() >= 1,
    decreases haystack.len() - from,
{
    if needle.len() == 0 {
        None
    } else if from + needle.len() > haystack.len() {
        None
    } else if match_at(haystack, needle, from) {
        Some(from)
    } else {
        first_match_from(haystack, needle, from + 1)
    }
}

/// What [`first_match_from`] returns is the first occurrence: an occurrence
/// with none before it, or a guarantee that there is none at all.
pub proof fn lemma_first_match_from_spec(haystack: Seq<u8>, needle: Seq<u8>, from: int)
    requires
        needle.len() >= 1,
    ensures
        match first_match_from(haystack, needle, from) {
            Some(i) => from <= i && match_at(haystack, needle, i)
                && forall|k: int| from <= k < i ==> !match_at(haystack, needle, k),
            None => forall|k: int| k >= from ==> !match_at(haystack, needle, k),
        },
    decreases haystack.len() - from,
{
    if from + needle.len() > haystack.len() {
    } else if match_at(haystack, needle, from) {
    } else {
        lemma_first_match_from_spec(haystack, needle, from + 1);
    }
}

/// Whether `needle` stands at index `i` of `data`, compared byte by byte.
fn matches_at_index(data: &[u8], search: &[u8], i: usize) -> (r: bool)
    requires
        i + search@.len() <= data@.len(),
        data@.len() <= usize::MAX,
    ensures
        r == match_at(data@, search@, i as int),
{
    let mut k: usize = 0;
    while k < search.len()
        invariant
            i + search@.len() <= data@.len(),
            data@.len() <= usize::MAX,
            k <= search@.len(),
            forall|t: int| 0 <= t < k ==> data@[i + t] == search@[t],
        decreases search@.len() - k,
    {
        if data[i + k] != search[k] {
            proof {
                if match_at(data@, search@, i as int) {
                    assert(data@.subrange(i as int, i + search@.len())[k as int] == data@[i + k]);
                }
            }
            return false;
        }
        k += 1;
    }
    proof {
        assert(data@.subrange(i as int, i + search@.len()) =~= search@);
    }
    true
}

/// The index of the first occurrence of `search` in `data`, if any.
pub fn position(data: &[u8], search: &[u8]) -> (r: Option<usize>)
    requires
        search@.len() >= 1,
    ensures
        match r {
            Some(i) => first_match_from(data@, search@, 0) == Some(i as int),
            None => first_match_from(data@, search@, 0) is None,
        },
{
    if search.len() > data.len() {
        return None;
    }
    let last: usize = data.len() - search.len();
    let mut i: usize = 0;
    while i <= last
        invariant
            search@.len() >= 1,
            search@.len() <= data@.len(),
            data@.len() <= usize::MAX,
            last == data@.len() - search@.len(),
            i <= last + 1,
            first_match_from(data@, search@, 0) == first_match_from(data@, search@, i as int),
        decreases last - i + 1,
    {
        if matches_at_index(data, search, i) {
            return Some(i);
        }
        i += 1;
    }
    None
}

/// Whether two byte slices hold the same bytes.
pub fn slice_eq(a: &[u8], b: &[u8]) -> (r: bool)
    ensures
        r == (a@ == b@),
{
    if a.len() != b.len() {
        return false;
    }
    let mut i: usize = 0;
    while i < a.len()
        invariant
            a@.len() == b@.len(),
            i <= a@.len(),
            forall|t: int| 0 <= t < i ==> a@[t] == b@[t],
        decreases a@.len() - i,
    {
        if a[i] != b[i] {
            return false;
        }
        i += 1;
    }
    proof {
        assert(a@ =~= b@);
    }
    true
}

/// Everything after the first occurrence of `needle`, when there is one.
pub open spec fn after_first_match(haystack: Seq<u8>, needle: Seq<u8>) -> Option<Seq<u8>> {
    match first_match_from(haystack, needle, 0) {
        Some(i) => Some(haystack.subrange(i + needle.len(), haystack.len() as int)),
        None => None,
    }
}

/// The suffix of `data` that follows the first occurrence of `search`: the
/// window in which the next, finer marker is then sought.
pub fn starting_at_position<'a>(data: &'a [u8], search: &[u8]) -> (r: Option<&'a [u8]>)
    requires
        search@.len() >= 1,
    ensures
        match r {
            Some(rest) => after_first_match(data@, search@) == Some(rest@),
            None => after_first_match(data@, search@) is None,
        },
{
    match position(data, search) {
        Some(i) => {
            let n = data.len();
            proof {
                lemma_first_match_from_spec(data@, search@, 0);
                assert(i + search@.len() <= n);
            }
            Some(slice_subrange(data, i + search.len(), n))
        },
        None => None,
    }
}

} // verus!
