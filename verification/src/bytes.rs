//! Small verified helpers on byte strings.
//!
//! Paths and names travel through this library as `Vec<u8>`, so equality,
//! suffix tests and substring search are spelled out here with exact
//! contracts.

use vstd::prelude::*;

verus! {

/// Exact byte-wise equality of two byte strings.
pub fn bytes_eq(a: &[u8], b: &[u8]) -> (r: bool)
    ensures
        r == (a@ == b@),
{
    if a.len() != b.len() {
        assert(a@.len() != b@.len());
        return false;
    }
    let mut i: usize = 0;
    while i < a.len()
        invariant
            i <= a.len(),
            a.len() == b.len(),
            forall|j: int| 0 <= j < i ==> a@[j] == b@[j],
        decreases a.len() - i,
    {
        if a[i] != b[i] {
            return false;
        }
        i += 1;
    }
    assert(a@ =~= b@);
    true
}

/// `a` ends with the suffix `suf`.
pub open spec fn spec_ends_with(a: Seq<u8>, suf: Seq<u8>) -> bool {
    suf.len() <= a.len() && a.subrange(a.len() - suf.len(), a.len() as int) == suf
}

/// Exact suffix test.
pub fn ends_with(a: &[u8], suf: &[u8]) -> (r: bool)
    ensures
        r == spec_ends_with(a@, suf@),
{
    if suf.len() > a.len() {
        return false;
    }
    let start: usize = a.len() - suf.len();
    let mut i: usize = 0;
    while i < suf.len()
        invariant
            i <= suf.len(),
            suf.len() <= a.len(),
            start == a.len() - suf.len(),
            forall|j: int| 0 <= j < i ==> a@[start + j] == suf@[j],
        decreases suf.len() - i,
    {
        if a[start + i] != suf[i] {
            assert(a@.subrange(a@.len() - suf@.len(), a@.len() as int)[i as int] != suf@[i as int]);
            return false;
        }
        i += 1;
    }
    assert(a@.subrange(a@.len() - suf@.len(), a@.len() as int) =~= suf@);
    true
}

/// `pat` occurs as a contiguous run inside `a` starting at `k`.
pub open spec fn spec_match_at(a: Seq<u8>, pat: Seq<u8>, k: int) -> bool {
    0 <= k && k + pat.len() <= a.len() && a.subrange(k, k + pat.len()) == pat
}

/// `pat` occurs somewhere inside `a`.
pub open spec fn spec_contains(a: Seq<u8>, pat: Seq<u8>) -> bool {
    exists|k: int| spec_match_at(a, pat, k)
}

/// Exact substring search.
pub fn contains_subslice(a: &[u8], pat: &[u8]) -> (r: bool)
    ensures
        r == spec_contains(a@, pat@),
{
    if pat.len() > a.len() {
        assert(forall|k: int| !spec_match_at(a@, pat@, k));
        return false;
    }
    let last: usize = a.len() - pat.len();
    let mut k: usize = 0;
    loop
        invariant
            k <= last + 1,
            pat.len() <= a.len(),
            last == a.len() - pat.len(),
            forall|j: int| 0 <= j < k ==> !spec_match_at(a@, pat@, j),
        decreases last + 1 - k,
    {
        if k > last {
            assert(forall|j: int| j > last ==> !spec_match_at(a@, pat@, j));
            return false;
        }
        let mut i: usize = 0;
        let mut hit: bool = true;
        while i < pat.len()
            invariant
                i <= pat.len(),
                k + pat.len() <= a.len(),
                hit ==> forall|j: int| 0 <= j < i ==> a@[k + j] == pat@[j],
                !hit ==> !spec_match_at(a@, pat@, k as int),
                !hit ==> pat.len() >= 1,
            decreases pat.len() - i,
        {
            if a[k + i] != pat[i] {
                hit = false;
                assert(a@.subrange(k as int, k + pat@.len())[i as int] != pat@[i as int]);
                assert(!spec_match_at(a@, pat@, k as int));
                i = pat.len();
            } else {
                i += 1;
            }
        }
        if hit {
            assert(a@.subrange(k as int, k + pat@.len()) =~= pat@);
            assert(spec_match_at(a@, pat@, k as int));
            return true;
        }
        assert(k <= last && last + pat@.len() <= usize::MAX);
        k += 1;
    }
}

/// Appends all of `src` to `dst`.
pub fn push_all(dst: &mut Vec<u8>, src: &[u8])
    ensures
        final(dst)@ == old(dst)@ + src@,
{
    let mut i: usize = 0;
    while i < src.len()
        invariant
            i <= src.len(),
            dst@ == old(dst)@ + src@.subrange(0, i as int),
        decreases src.len() - i,
    {
        dst.push(src[i]);
        assert(old(dst)@ + src@.subrange(0, i + 1)
            =~= (old(dst)@ + src@.subrange(0, i as int)).push(src@[i as int]));
        i += 1;
    }
    assert(src@.subrange(0, src@.len() as int) =~= src@);
}

/// Exact test that `pat` sits at position `i` of `a`.
pub fn match_at(a: &[u8], i: usize, pat: &[u8]) -> (r: bool)
    requires
        i <= a@.len(),
    ensures
        r == spec_match_at(a@, pat@, i as int),
{
    if pat.len() > a.len() - i {
        return false;
    }
    let mut k: usize = 0;
    while k < pat.len()
        invariant
            k <= pat.len(),
            i + pat.len() <= a.len(),
            forall|j: int| 0 <= j < k ==> a@[i + j] == pat@[j],
        decreases pat.len() - k,
    {
        if a[i + k] != pat[k] {
            assert(a@.subrange(i as int, i + pat@.len())[k as int] != pat@[k as int]);
            return false;
        }
        k += 1;
    }
    assert(a@.subrange(i as int, i + pat@.len()) =~= pat@);
    true
}

} // verus!
