//! How many payload bytes a variable-length field takes.

use vstd::prelude::*;

verus! {

/// `n` is the position of the first zero byte of `data`.
pub open spec fn is_first_nul(data: Seq<u8>, n: int) -> bool {
    &&& 0 <= n < data.len()
    &&& data[n] == 0
    &&& forall|i: int| 0 <= i < n ==> data[i] != 0
}

/// The bytes of a null-terminated ANSI string at the start of `data`, its
/// terminator included; all of `data` where no terminator stands in it.
pub open spec fn ansi_extent(data: Seq<u8>) -> int {
    if exists|n: int| is_first_nul(data, n) {
        (choose|n: int| is_first_nul(data, n)) + 1
    } else {
        data.len() as int
    }
}

/// The `k`-th UTF-16 code unit of `data` is a null.
pub open spec fn is_nul_pair(data: Seq<u8>, k: int) -> bool {
    data[2 * k] == 0 && data[2 * k + 1] == 0
}

/// The `k`-th UTF-16 code unit of `data` is its first null one.
pub open spec fn is_first_nul_pair(data: Seq<u8>, k: int) -> bool {
    &&& 0 <= k
    &&& 2 * k + 1 < data.len()
    &&& is_nul_pair(data, k)
    &&& forall|i: int| 0 <= i < k ==> !#[trigger] is_nul_pair(data, i)
}

/// The bytes of a null-terminated UTF-16 string at the start of `data`, its
/// two terminating bytes included; all of `data` where no null code unit stands
/// in it.
pub open spec fn utf16_extent(data: Seq<u8>) -> int {
    if exists|k: int| is_first_nul_pair(data, k) {
        2 * (choose|k: int| is_first_nul_pair(data, k)) + 2
    } else {
        data.len() as int
    }
}

/// The bytes of a counted string at the start of `data`: a little-endian length
/// of two bytes and as many bytes as it says, cut off at the end of `data`.
pub open spec fn counted_extent(data: Seq<u8>) -> int {
    if data.len() < 2 {
        data.len() as int
    } else {
        let total = 2 + data[0] + 256 * data[1];
        if total < data.len() {
            total
        } else {
            data.len() as int
        }
    }
}

/// An ANSI extent reaches no further than the bytes it is taken from, and past
/// the first of them where there is one.
pub proof fn lemma_ansi_extent_bounds(data: Seq<u8>)
    ensures
        0 <= ansi_extent(data) <= data.len(),
        data.len() > 0 ==> ansi_extent(data) > 0,
{
}

/// A UTF-16 extent reaches no further than the bytes it is taken from, and past
/// the first of them where there is one.
pub proof fn lemma_utf16_extent_bounds(data: Seq<u8>)
    ensures
        0 <= utf16_extent(data) <= data.len(),
        data.len() > 0 ==> utf16_extent(data) > 0,
{
}

/// A counted extent reaches no further than the bytes it is taken from, and
/// past the first of them where there is one.
pub proof fn lemma_counted_extent_bounds(data: Seq<u8>)
    ensures
        0 <= counted_extent(data) <= data.len(),
        data.len() > 0 ==> counted_extent(data) > 0,
{
}

/// What follows the terminator of an ANSI string has no part in its extent.
pub proof fn law_ansi_extent_ends_at_terminator(data: Seq<u8>, more: Seq<u8>)
    requires
        data.contains(0),
    ensures
        ansi_extent(data + more) == ansi_extent(data),
{
    let n = lemma_first_nul_exists(data, choose|i: int| 0 <= i < data.len() && data[i] == 0);
    assert(is_first_nul(data, n));
    assert(is_first_nul(data + more, n)) by {
        assert forall|i: int| 0 <= i < n implies (data + more)[i] != 0 by {
            assert(data[i] != 0);
        }
    }
}

/// Where a zero byte stands in `data` there is a first one.
proof fn lemma_first_nul_exists(data: Seq<u8>, at: int) -> (n: int)
    requires
        0 <= at < data.len(),
        data[at] == 0,
    ensures
        is_first_nul(data, n),
    decreases at,
{
    if exists|i: int| 0 <= i < at && data[i] == 0 {
        lemma_first_nul_exists(data, choose|i: int| 0 <= i < at && data[i] == 0)
    } else {
        at
    }
}

/// What follows the terminator of a UTF-16 string has no part in its extent.
pub proof fn law_utf16_extent_ends_at_terminator(data: Seq<u8>, more: Seq<u8>, k: int)
    requires
        0 <= k,
        2 * k + 1 < data.len(),
        is_nul_pair(data, k),
    ensures
        utf16_extent(data + more) == utf16_extent(data),
{
    let n = lemma_first_nul_pair_exists(data, k);
    assert(is_first_nul_pair(data + more, n)) by {
        assert(is_nul_pair(data + more, n));
        assert forall|i: int| 0 <= i < n implies !#[trigger] is_nul_pair(data + more, i) by {
            assert(!is_nul_pair(data, i));
        }
    }
}

/// Where a null code unit stands in `data` there is a first one.
proof fn lemma_first_nul_pair_exists(data: Seq<u8>, at: int) -> (n: int)
    requires
        0 <= at,
        2 * at + 1 < data.len(),
        is_nul_pair(data, at),
    ensures
        is_first_nul_pair(data, n),
    decreases at,
{
    if exists|i: int| 0 <= i < at && #[trigger] is_nul_pair(data, i) {
        lemma_first_nul_pair_exists(
            data,
            choose|i: int| 0 <= i < at && #[trigger] is_nul_pair(data, i),
        )
    } else {
        at
    }
}

/// What follows the bytes that a counted string announces has no part in its
/// extent.
pub proof fn law_counted_extent_ends_with_string(data: Seq<u8>, more: Seq<u8>)
    requires
        data.len() >= 2,
        2 + data[0] + 256 * data[1] <= data.len(),
    ensures
        counted_extent(data + more) == counted_extent(data),
{
}

/// Scans for a null-terminated ANSI string and returns the number of bytes
/// that it takes, the terminator included; all of them where there is none.
pub fn scan_ansi_string(data: &[u8]) -> (taken: usize)
    ensures
        taken == ansi_extent(data@),
        taken <= data@.len(),
        forall|i: int| 0 <= i < taken - 1 ==> data@[i] != 0,
        taken < data@.len() ==> taken > 0 && data@[taken - 1] == 0,
{
    let mut pos: usize = 0;
    while pos < data.len()
        invariant
            pos <= data@.len(),
            forall|i: int| 0 <= i < pos ==> data@[i] != 0,
        decreases data@.len() - pos,
    {
        if data[pos] == 0 {
            assert(is_first_nul(data@, pos as int));
            return pos + 1;
        }
        pos += 1;
    }
    data.len()
}

/// Scans for a null-terminated UTF-16LE string and returns the number of bytes
/// that it takes, the two-byte terminator included; all of them where there is
/// none.
pub fn scan_utf16_string(data: &[u8]) -> (taken: usize)
    ensures
        taken == utf16_extent(data@),
        taken <= data@.len(),
        forall|k: int| 0 <= k && 2 * k + 2 < taken ==> !#[trigger] is_nul_pair(data@, k),
        taken < data@.len() ==> taken % 2 == 0 && taken > 0 && is_nul_pair(
            data@,
            taken as int / 2 - 1,
        ),
{
    let mut pos: usize = 0;
    while pos < data.len() && data.len() - pos > 1
        invariant
            pos <= data@.len(),
            pos % 2 == 0,
            forall|k: int| 0 <= k < pos as int / 2 ==> !#[trigger] is_nul_pair(data@, k),
        decreases data@.len() - pos,
    {
        if data[pos] == 0 && data[pos + 1] == 0 {
            assert(is_first_nul_pair(data@, pos as int / 2));
            return pos + 2;
        }
        pos += 2;
    }
    assert forall|k: int| !is_first_nul_pair(data@, k) by {
        if is_first_nul_pair(data@, k) {
            assert(is_nul_pair(data@, k));
        }
    }
    data.len()
}

/// Reads the length prefix of a counted string and returns the number of bytes
/// that prefix and string take, cut off at the end of `data`; all of `data`
/// where the prefix does not fit in it.
pub fn scan_counted_string(data: &[u8]) -> (taken: usize)
    ensures
        taken == counted_extent(data@),
{
    if data.len() < 2 {
        return data.len();
    }
    let total: usize = 2 + data[0] as usize + 256 * data[1] as usize;
    if total < data.len() {
        total
    } else {
        data.len()
    }
}

/// A terminated ANSI string takes its bytes and its terminator, whatever its
/// length and whatever follows. One without a terminator takes all there is.
pub proof fn law_ansi_string_takes_its_bytes(text: Seq<u8>, tail: Seq<u8>)
    requires
        forall|i: int| 0 <= i < text.len() ==> text[i] != 0,
    ensures
        ansi_extent(text + seq![0u8] + tail) == text.len() + 1,
        ansi_extent(text) == text.len(),
{
    let data = text + seq![0u8] + tail;
    assert(is_first_nul(data, text.len() as int));
    let found = choose|n: int| is_first_nul(data, n);
    assert(is_first_nul(data, found));
    assert(found == text.len()) by {
        if found < text.len() {
            assert(data[found] == text[found]);
        } else if found > text.len() {
            assert(data[text.len() as int] == 0);
        }
    }
}

/// A counted string takes its two length bytes and as many bytes as they
/// announce, for every length and whatever follows.
pub proof fn law_counted_string_takes_what_it_announces(n: u16, text: Seq<u8>, tail: Seq<u8>)
    requires
        text.len() == n,
    ensures
        counted_extent(seq![(n % 256) as u8, (n / 256) as u8] + text + tail) == 2 + text.len(),
{
}

/// A counted string that is cut off takes all there is, and so does a length
/// that is cut off.
pub proof fn law_cut_off_counted_string_takes_all(n: u16, text: Seq<u8>, data: Seq<u8>)
    requires
        text.len() < n,
        data.len() < 2,
    ensures
        counted_extent(seq![(n % 256) as u8, (n / 256) as u8] + text) == 2 + text.len(),
        counted_extent(data) == data.len(),
{
}

} // verus!
