use std::collections::HashMap;
use vstd::prelude::*;
use vstd::std_specs::iter::IteratorSpec;

verus! {

broadcast use vstd::std_specs::hash::group_hash_axioms;

/// Offset that maps an `i32` coordinate onto `0 .. 2^32`.
pub open spec fn coord_offset() -> int {
    0x8000_0000
}

/// Number of distinct `i32` values.
pub open spec fn coord_span() -> int {
    0x1_0000_0000
}

/// The `u64` code of the grid coordinate pair `(x, y)`: the biased `x` in the
/// high half and the biased `y` in the low half. Every pair of `i32` gets its
/// own code and every `u64` is the code of exactly one pair.
pub open spec fn grid_code(x: i32, y: i32) -> u64 {
    ((x + coord_offset()) * coord_span() + (y + coord_offset())) as u64
}

/// The `x` coordinate that the code `k` stands for.
pub open spec fn code_x(k: u64) -> i32 {
    (k / (coord_span() as u64) - coord_offset()) as i32
}

/// The `y` coordinate that the code `k` stands for.
pub open spec fn code_y(k: u64) -> i32 {
    (k % (coord_span() as u64) - coord_offset()) as i32
}

/// Decoding a code gives back the coordinates it was made from.
pub proof fn lemma_code_roundtrip(x: i32, y: i32)
    ensures
        code_x(grid_code(x, y)) == x,
        code_y(grid_code(x, y)) == y,
        0 <= (x + coord_offset()) * coord_span() + (y + coord_offset()) <= u64::MAX,
{
    let hx: int = x + coord_offset();
    let hy: int = y + coord_offset();
    assert(0 <= hx < coord_span());
    assert(0 <= hy < coord_span());
    assert(0 <= hx * coord_span() + hy <= u64::MAX) by (nonlinear_arith)
        requires
            0 <= hx < 0x1_0000_0000,
            0 <= hy < 0x1_0000_0000,
    ;
    let k: int = hx * coord_span() + hy;
    vstd::arithmetic::div_mod::lemma_fundamental_div_mod_converse(k, coord_span(), hx, hy);
}

/// Encoding the decoded coordinates of a code gives back the code.
pub proof fn lemma_code_onto(k: u64)
    ensures
        grid_code(code_x(k), code_y(k)) == k,
{
    let d: int = coord_span();
    let q: int = k as int / d;
    let r: int = k as int % d;
    vstd::arithmetic::div_mod::lemma_fundamental_div_mod(k as int, d);
    assert(0 <= q < d) by {
        vstd::arithmetic::div_mod::lemma_div_pos_is_pos(k as int, d);
        vstd::arithmetic::div_mod::lemma_div_is_ordered(k as int, u64::MAX as int, d);
        assert(u64::MAX as int / d == d - 1);
    }
    assert(code_x(k) == q - coord_offset());
    assert(code_y(k) == r - coord_offset());
}

/// Two pairs share a code only if they are the same pair.
pub proof fn lemma_code_injective(x1: i32, y1: i32, x2: i32, y2: i32)
    ensures
        grid_code(x1, y1) == grid_code(x2, y2) <==> (x1 == x2 && y1 == y2),
{
    lemma_code_roundtrip(x1, y1);
    lemma_code_roundtrip(x2, y2);
}

/// Computes `grid_code(x, y)`.
pub fn encode_coords(x: i32, y: i32) -> (k: u64)
    ensures
        k == grid_code(x, y),
{
    proof {
        lemma_code_roundtrip(x, y);
    }
    let hx: u64 = (x as i64 + 0x8000_0000i64) as u64;
    let hy: u64 = (y as i64 + 0x8000_0000i64) as u64;
    assert(hx * 0x1_0000_0000 + hy <= u64::MAX) by (nonlinear_arith)
        requires
            hx < 0x1_0000_0000,
            hy < 0x1_0000_0000,
    ;
    hx * 0x1_0000_0000u64 + hy
}

/// Computes the coordinates that a code stands for.
pub fn decode_coords(k: u64) -> (xy: (i32, i32))
    ensures
        xy.0 == code_x(k),
        xy.1 == code_y(k),
        grid_code(xy.0, xy.1) == k,
{
    proof {
        lemma_code_onto(k);
    }
    let hx: u64 = k / 0x1_0000_0000u64;
    let hy: u64 = k % 0x1_0000_0000u64;
    assert(hx < 0x1_0000_0000) by {
        vstd::arithmetic::div_mod::lemma_div_is_ordered(k as int, u64::MAX as int, 0x1_0000_0000int);
        assert(u64::MAX as int / 0x1_0000_0000int == 0xFFFF_FFFFint);
    }
    let x: i64 = hx as i64 - 0x8000_0000i64;
    let y: i64 = hy as i64 - 0x8000_0000i64;
    (x as i32, y as i32)
}

/// The keys of a map keyed by `u64`, each once, in the map's own order.
pub fn map_keys<V>(m: &HashMap<u64, V>) -> (keys: Vec<u64>)
    ensures
        keys@.no_duplicates(),
        keys@.to_set() == m@.dom(),
{
    let mut keys: Vec<u64> = Vec::new();
    let ghost all: Seq<u64> = IteratorSpec::remaining(&m.keys()).unref();
    for k in it: m.keys()
        invariant
            keys@ == it.seq().take(it.index()).map_values(|r: &u64| *r),
            it.seq().unref() == all,
    {
        keys.push(*k);
    }
    assert(keys@ =~= all);
    keys
}

} // verus!
