//! Packing of a pair of 64-bit integers into the single integer under which
//! the membership set files it.

use vstd::prelude::*;

verus! {

/// Number of values a 64-bit integer can take.
pub const SPAN: u128 = 0x1_0000_0000_0000_0000;

/// Distance from `i64::MIN` to zero.
pub const OFFSET: u128 = 0x8000_0000_0000_0000;

/// The key of a pair: both components are shifted into `0..SPAN` and written
/// side by side, the first component in the upper half.
pub open spec fn spec_pack(element: (i64, i64)) -> u128 {
    ((element.0 + OFFSET) * SPAN + (element.1 + OFFSET)) as u128
}

/// The pair that a key stands for.
pub open spec fn spec_unpack(key: u128) -> (i64, i64) {
    ((key / SPAN - OFFSET) as i64, (key % SPAN - OFFSET) as i64)
}

/// Unpacking a packed pair gives the pair back.
pub proof fn lemma_unpack_pack(element: (i64, i64))
    ensures
        spec_unpack(spec_pack(element)) == element,
{
    let high: int = element.0 + OFFSET;
    let low: int = element.1 + OFFSET;
    assert(0 <= high < SPAN && 0 <= low < SPAN);
    assert((high * SPAN + low) / (SPAN as int) == high);
    assert((high * SPAN + low) % (SPAN as int) == low);
}

/// Packing an unpacked key gives the key back.
pub proof fn lemma_pack_unpack(key: u128)
    ensures
        spec_pack(spec_unpack(key)) == key,
{
    assert(0 <= key / SPAN < SPAN && 0 <= key % SPAN < SPAN);
    assert((key / SPAN) * SPAN + key % SPAN == key);
}

/// Two pairs share a key only if they are the same pair.
pub proof fn lemma_pack_injective(a: (i64, i64), b: (i64, i64))
    requires
        spec_pack(a) == spec_pack(b),
    ensures
        a == b,
{
    lemma_unpack_pack(a);
    lemma_unpack_pack(b);
}

/// Computes the key of a pair.
#[verifier::when_used_as_spec(spec_pack)]
pub fn pack(element: (i64, i64)) -> (key: u128)
    ensures
        key == spec_pack(element),
{
    let high: u128 = (element.0 as i128 + 0x8000_0000_0000_0000i128) as u128;
    let low: u128 = (element.1 as i128 + 0x8000_0000_0000_0000i128) as u128;
    high * SPAN + low
}

} // verus!
