//! Small shared pieces: "first failing index" spec functions, little-endian decoding and
//! character sequences of strings.

use vstd::prelude::*;

verus! {

/// `i` is the first index at or above `lo` where `bad` holds.
pub open spec fn is_first(bad: spec_fn(int) -> bool, lo: int, i: int) -> bool {
    &&& bad(i)
    &&& forall|j: int| lo <= j < i ==> !#[trigger] bad(j)
}

/// The first index in `[lo, hi)` where `bad` holds, if there is one.
pub open spec fn first_in(lo: int, hi: int, bad: spec_fn(int) -> bool) -> Option<int> {
    if exists|i: int| lo <= i < hi && #[trigger] bad(i) {
        Some(choose|i: int| lo <= i < hi && is_first(bad, lo, i))
    } else {
        None
    }
}

/// A witness that is first in its range is what `first_in` picks.
pub proof fn lemma_first_in_some(lo: int, hi: int, bad: spec_fn(int) -> bool, i: int)
    requires
        lo <= i < hi,
        is_first(bad, lo, i),
    ensures
        first_in(lo, hi, bad) == Some(i),
{
    assert(lo <= i < hi && bad(i));
    assert(exists|k: int| lo <= k < hi && is_first(bad, lo, k));
    let k = choose|k: int| lo <= k < hi && is_first(bad, lo, k);
    if k < i {
        assert(!bad(k));
    }
    if i < k {
        assert(!bad(i));
    }
}

/// With no failing index in range, `first_in` finds nothing.
pub proof fn lemma_first_in_none(lo: int, hi: int, bad: spec_fn(int) -> bool)
    requires
        forall|j: int| lo <= j < hi ==> !#[trigger] bad(j),
    ensures
        first_in(lo, hi, bad) is None,
{
}

/// Whatever `first_in` picks is in range and is the first failing index.
pub proof fn lemma_first_in_props(lo: int, hi: int, bad: spec_fn(int) -> bool)
    ensures
        first_in(lo, hi, bad) matches Some(i) ==> lo <= i < hi && is_first(bad, lo, i),
        first_in(lo, hi, bad) is None ==> forall|j: int| lo <= j < hi ==> !#[trigger] bad(j),
{
    if exists|i: int| lo <= i < hi && #[trigger] bad(i) {
        let w = choose|i: int| lo <= i < hi && #[trigger] bad(i);
        lemma_first_exists(lo, w, bad);
    }
}

/// If `bad` holds somewhere in `[lo, w]`, some index in that range is first.
pub proof fn lemma_first_exists(lo: int, w: int, bad: spec_fn(int) -> bool)
    requires
        lo <= w,
        bad(w),
    ensures
        exists|k: int| lo <= k <= w && is_first(bad, lo, k),
    decreases w - lo,
{
    if exists|j: int| lo <= j < w && #[trigger] bad(j) {
        let j = choose|j: int| lo <= j < w && #[trigger] bad(j);
        lemma_first_exists(lo, j, bad);
    } else {
        assert(is_first(bad, lo, w));
    }
}

/// Unsigned value of the little-endian 4-byte word of `s` starting at `off`.
pub open spec fn le_u32(s: Seq<u8>, off: int) -> int {
    s[off] + 256 * s[off + 1] + 65536 * s[off + 2] + 16777216 * s[off + 3]
}

/// Reads the little-endian `u32` stored at `s[off..off + 4]`.
pub fn read_u32_le(s: &[u8], off: usize) -> (r: u32)
    requires
        off + 4 <= s@.len(),
    ensures
        r == le_u32(s@, off as int),
{
    let b0 = s[off] as u32;
    let b1 = s[off + 1] as u32;
    let b2 = s[off + 2] as u32;
    let b3 = s[off + 3] as u32;
    b0 + b1 * 256 + b2 * 65536 + b3 * 16777216
}

/// The characters of `s`, in order.
pub fn str_chars(s: &str) -> (v: Vec<char>)
    ensures
        v@ == s@,
{
    let mut v: Vec<char> = Vec::new();
    broadcast use vstd::string::group_string_axioms;
    for c in it: s.chars()
        invariant
            v@ == it.seq().take(it.index()),
    {
        v.push(c);
    }
    assert(v@ == s@);
    v
}

} // verus!
