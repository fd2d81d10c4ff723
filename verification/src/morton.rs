//! Morton codes: bit interleaving of three 21-bit coordinates into one
//! 63-bit space-filling index.

use vstd::prelude::*;

verus! {

/// Spreads the first 21 bits of `n` so that input bit `i` lands on output
/// bit `3 i`, all other output bits zero.
pub fn split_by_3(n: u32) -> (r: u64)
    ensures
        forall|i: u64| i < 21 ==> #[trigger] ((r >> (3 * i)) & 1) == (((n as u64) >> i) & 1),
        r & 0x1249_2492_4924_9249u64 == r,
{
    let n64 = n as u64;
    let x0: u64 = n64 & 0x1fffff;
    let x1: u64 = (x0 | (x0 << 32)) & 0x1f00000000ffff;
    let x2: u64 = (x1 | (x1 << 16)) & 0x1f0000ff0000ff;
    let x3: u64 = (x2 | (x2 << 8)) & 0x100f00f00f00f00f;
    let x4: u64 = (x3 | (x3 << 4)) & 0x10c30c30c30c30c3;
    let x5: u64 = (x4 | (x4 << 2)) & 0x1249249249249249;
    proof {
        assert(forall|i: u64|
            i < 21 ==> #[trigger] ((x5 >> (3 * i)) & 1) == ((n64 >> i) & 1)) by (bit_vector)
            requires
                x0 == n64 & 0x1fffff,
                x1 == (x0 | (x0 << 32)) & 0x1f00000000ffff,
                x2 == (x1 | (x1 << 16)) & 0x1f0000ff0000ff,
                x3 == (x2 | (x2 << 8)) & 0x100f00f00f00f00f,
                x4 == (x3 | (x3 << 4)) & 0x10c30c30c30c30c3,
                x5 == (x4 | (x4 << 2)) & 0x1249249249249249,
        ;
        assert(x5 & 0x1249_2492_4924_9249u64 == x5) by (bit_vector)
            requires
                x5 == (x4 | (x4 << 2)) & 0x1249249249249249,
        ;
    }
    x5
}

/// Interleaves the first 21 bits of `x`, `y` and `z`: input bit `i` of `x`,
/// `y` and `z` lands on output bit `3 i`, `3 i + 1` and `3 i + 2`.
pub fn morton_encode(x: u32, y: u32, z: u32) -> (r: u64)
    ensures
        forall|i: u64| i < 21 ==> #[trigger] ((r >> (3 * i)) & 1) == (((x as u64) >> i) & 1),
        forall|i: u64| i < 21 ==> #[trigger] ((r >> (3 * i + 1)) & 1) == (((y as u64) >> i) & 1),
        forall|i: u64| i < 21 ==> #[trigger] ((r >> (3 * i + 2)) & 1) == (((z as u64) >> i) & 1),
        r < 0x8000_0000_0000_0000u64,
{
    let sx = split_by_3(x);
    let sy = split_by_3(y);
    let sz = split_by_3(z);
    let r = sx | (sy << 1) | (sz << 2);
    proof {
        let x64 = x as u64;
        let y64 = y as u64;
        let z64 = z as u64;
        assert(forall|i: u64|
            i < 21 ==> #[trigger] ((r >> (3 * i)) & 1) == ((sx >> (3 * i)) & 1)) by (bit_vector)
            requires
                r == sx | (sy << 1) | (sz << 2),
                sy & 0x1249_2492_4924_9249u64 == sy,
                sz & 0x1249_2492_4924_9249u64 == sz,
        ;
        assert(forall|i: u64|
            i < 21 ==> #[trigger] ((r >> (3 * i + 1)) & 1) == ((sy >> (3 * i))
                & 1)) by (bit_vector)
            requires
                r == sx | (sy << 1) | (sz << 2),
                sx & 0x1249_2492_4924_9249u64 == sx,
                sz & 0x1249_2492_4924_9249u64 == sz,
        ;
        assert(forall|i: u64|
            i < 21 ==> #[trigger] ((r >> (3 * i + 2)) & 1) == ((sz >> (3 * i))
                & 1)) by (bit_vector)
            requires
                r == sx | (sy << 1) | (sz << 2),
                sx & 0x1249_2492_4924_9249u64 == sx,
                sy & 0x1249_2492_4924_9249u64 == sy,
        ;
        assert(r < 0x8000_0000_0000_0000u64) by (bit_vector)
            requires
                r == sx | (sy << 1) | (sz << 2),
                sx & 0x1249_2492_4924_9249u64 == sx,
                sy & 0x1249_2492_4924_9249u64 == sy,
                sz & 0x1249_2492_4924_9249u64 == sz,
        ;
    }
    r
}

} // verus!
