//! Big-endian byte strings for fixed-width unsigned values, and the
//! minimal-width computation used to size sum-type discriminants.

use vstd::prelude::*;

verus! {

/// 256 to the `w`th power: the number of values a `w`-byte field can carry.
pub open spec fn pow256(w: nat) -> int
    decreases w,
{
    if w == 0 {
        1
    } else {
        256 * pow256((w - 1) as nat)
    }
}

/// The `w`-byte big-endian encoding of `v` (of `v` modulo `pow256(w)`, for
/// a `v` too large): the last byte is the least significant.
pub open spec fn be_bytes(v: int, w: nat) -> Seq<u8>
    decreases w,
{
    if w == 0 {
        Seq::empty()
    } else {
        be_bytes(v / 256, (w - 1) as nat).push((v % 256) as u8)
    }
}

/// The value a big-endian byte string stands for.
pub open spec fn be_value(s: Seq<u8>) -> int
    decreases s.len(),
{
    if s.len() == 0 {
        0
    } else {
        be_value(s.drop_last()) * 256 + s.last()
    }
}

pub broadcast proof fn lemma_be_bytes_len(v: int, w: nat)
    ensures
        (#[trigger] be_bytes(v, w)).len() == w,
    decreases w,
{
    if w > 0 {
        lemma_be_bytes_len(v / 256, (w - 1) as nat);
    }
}

/// A byte string's value is bounded by the width's capacity.
pub proof fn lemma_be_value_bound(s: Seq<u8>)
    ensures
        0 <= be_value(s) < pow256(s.len()),
    decreases s.len(),
{
    if s.len() > 0 {
        lemma_be_value_bound(s.drop_last());
        assert(be_value(s.drop_last()) * 256 + s.last() < pow256(s.len())) by (nonlinear_arith)
            requires
                0 <= be_value(s.drop_last()) < pow256((s.len() - 1) as nat),
                s.last() < 256,
                pow256(s.len()) == 256 * pow256((s.len() - 1) as nat),
        {}
    }
}

/// Reading back the encoding of an in-range value recovers the value.
pub proof fn lemma_be_value_of_bytes(v: int, w: nat)
    requires
        0 <= v < pow256(w),
    ensures
        be_value(be_bytes(v, w)) == v,
    decreases w,
{
    if w > 0 {
        let s = be_bytes(v, w);
        lemma_be_bytes_len(v / 256, (w - 1) as nat);
        assert(s.drop_last() == be_bytes(v / 256, (w - 1) as nat));
        assert(0 <= v / 256 < pow256((w - 1) as nat)) by (nonlinear_arith)
            requires
                0 <= v < pow256(w),
                pow256(w) == 256 * pow256((w - 1) as nat),
        {}
        lemma_be_value_of_bytes(v / 256, (w - 1) as nat);
        assert(v == (v / 256) * 256 + v % 256) by (nonlinear_arith) {}
    }
}

/// Re-encoding a byte string's value at the same width gives it back.
pub proof fn lemma_be_bytes_of_value(s: Seq<u8>)
    ensures
        be_bytes(be_value(s), s.len()) == s,
    decreases s.len(),
{
    if s.len() > 0 {
        let v = be_value(s);
        let hi = be_value(s.drop_last());
        lemma_be_value_bound(s.drop_last());
        assert(v % 256 == s.last() && v / 256 == hi) by (nonlinear_arith)
            requires
                v == hi * 256 + s.last(),
                0 <= s.last() < 256,
                0 <= hi,
        {}
        lemma_be_bytes_of_value(s.drop_last());
        assert(be_bytes(v, s.len()) == be_bytes(hi, (s.len() - 1) as nat).push(
            (v % 256) as u8,
        ));
        assert(be_bytes(v, s.len()) == s.drop_last().push(s.last()));
        assert(s.drop_last().push(s.last()) == s);
    }
}

/// Writes the `w`-byte big-endian encoding of `v`.
pub fn encode_be(v: u64, w: usize) -> (r: Vec<u8>)
    requires
        w <= 8,
    ensures
        r@ == be_bytes(v as int, w as nat),
    decreases w,
{
    if w == 0 {
        Vec::new()
    } else {
        let mut r = encode_be(v / 256, w - 1);
        r.push((v % 256) as u8);
        r
    }
}

/// Reads the value of the `w` bytes of `data` starting at `off`.
pub fn decode_be(data: &[u8], off: usize, w: usize) -> (r: u64)
    requires
        w <= 8,
        off + w <= data@.len(),
    ensures
        r as int == be_value(data@.subrange(off as int, off + w)),
        (r as int) < pow256(w as nat),
    decreases w,
{
    proof {
        lemma_be_value_bound(data@.subrange(off as int, off + w));
    }
    if w == 0 {
        0
    } else {
        // binds the slice length so the index arithmetic below stays in range
        let _dlen = data.len();
        let hi = decode_be(data, off, w - 1);
        let b = data[off + (w - 1)];
        proof {
            let s = data@.subrange(off as int, off + w);
            assert(s.drop_last() == data@.subrange(off as int, off + (w - 1)));
            assert(s.last() == data@[off + w - 1]);
            assert(hi * 256 + b <= (pow256((w - 1) as nat) - 1) * 256 + 255) by (nonlinear_arith)
                requires
                    hi as int <= pow256((w - 1) as nat) - 1,
                    b < 256,
            {}
            assert(pow256(8) == 0x10000000000000000) by {
                reveal_with_fuel(pow256, 9);
            }
            assert(pow256(w as nat) <= pow256(8)) by {
                lemma_pow256_increases(w as nat, 8);
            }
        }
        hi * 256 + (b as u64)
    }
}

pub proof fn lemma_pow256_increases(a: nat, b: nat)
    requires
        a <= b,
    ensures
        pow256(a) <= pow256(b),
    decreases b,
{
    if a < b {
        lemma_pow256_increases(a, (b - 1) as nat);
        assert(pow256(b) == 256 * pow256((b - 1) as nat));
        assert(pow256((b - 1) as nat) >= 1) by {
            lemma_pow256_positive((b - 1) as nat);
        }
    }
}

pub proof fn lemma_pow256_positive(w: nat)
    ensures
        pow256(w) >= 1,
    decreases w,
{
    if w > 0 {
        lemma_pow256_positive((w - 1) as nat);
    }
}

/// The number of bytes needed to store `val`: 0 for 0, otherwise the
/// minimal width whose capacity exceeds `val`.
pub fn num_bytes_required(val: u64) -> (r: usize)
    ensures
        r <= 8,
        val < pow256(r as nat),
        r > 0 ==> val >= pow256((r - 1) as nat),
        (val == 0) <==> (r == 0),
{
    let mut r: usize = 0;
    let mut rest: u64 = val;
    proof {
        assert(val as int / 1 == val as int);
    }
    while rest > 0
        invariant
            r <= 8,
            rest as int == val as int / pow256(r as nat),
            r > 0 ==> val >= pow256((r - 1) as nat),
            r == 0 ==> rest == val,
        decreases rest,
    {
        proof {
            let p = pow256(r as nat);
            lemma_pow256_positive(r as nat);
            vstd::arithmetic::div_mod::lemma_fundamental_div_mod(val as int, p);
            vstd::arithmetic::div_mod::lemma_remainder_lower(val as int, p);
            assert(val as int >= p * rest) by (nonlinear_arith)
                requires
                    val as int == p * (val as int / p) + val as int % p,
                    rest as int == val as int / p,
                    val as int % p >= 0,
            {}
            assert(p * rest >= p) by (nonlinear_arith)
                requires
                    rest >= 1,
                    p >= 1,
            {}
            assert(pow256(8) == 0x10000000000000000) by {
                reveal_with_fuel(pow256, 9);
            }
            if r == 8 {
                vstd::arithmetic::div_mod::lemma_basic_div(val as int, p);
            }
            vstd::arithmetic::div_mod::lemma_div_denominator(val as int, p, 256);
            assert(p * 256 == pow256((r + 1) as nat)) by (nonlinear_arith)
                requires
                    pow256((r + 1) as nat) == 256 * p,
            {}
        }
        rest = rest / 256;
        r = r + 1;
    }
    proof {
        lemma_pow256_positive(r as nat);
        vstd::arithmetic::div_mod::lemma_small_div_converse(val as int, pow256(r as nat));
    }
    r
}

/// Whether `w` is the wire discriminant width for a sum type of `n`
/// variants: at least one byte, and the minimal count whose capacity covers
/// every zero-based variant index `0 .. n-1`.
pub open spec fn is_discriminant_width(n: u64, w: usize) -> bool {
    &&& 1 <= w <= 8
    &&& n - 1 < pow256(w as nat)
    &&& w > 1 ==> n - 1 >= pow256((w - 1) as nat)
}

/// The number of tag bytes for a sum type with `num_variants` variants. A
/// type with no variants cannot be registered and has no width.
pub fn discriminant_width(num_variants: u64) -> (r: Option<usize>)
    ensures
        r is Some <==> num_variants >= 1,
        r matches Some(w) ==> is_discriminant_width(num_variants, w),
{
    if num_variants == 0 {
        return None;
    }
    let w = num_bytes_required(num_variants - 1);
    proof {
        assert(pow256(1) == 256) by {
            reveal_with_fuel(pow256, 2);
        }
    }
    if w == 0 {
        // A single variant still carries a minimal one-byte tag.
        Some(1)
    } else {
        Some(w)
    }
}

/// Law (discriminant sizing): one variant takes the minimal single tag
/// byte, as does any count up to 256; 257 to 65536 variants take exactly
/// two tag bytes.
pub proof fn lemma_discriminant_sizing(n: u64, w: usize)
    requires
        is_discriminant_width(n, w),
    ensures
        1 <= n <= 256 ==> w == 1,
        257 <= n <= 65536 ==> w == 2,
{
    assert(pow256(1) == 256 && pow256(2) == 65536) by {
        reveal_with_fuel(pow256, 3);
    }
    if 1 <= n <= 256 {
        if w > 1 {
            lemma_pow256_increases(1, (w - 1) as nat);
        }
    }
    if 257 <= n <= 65536 {
        if w > 2 {
            lemma_pow256_increases(2, (w - 1) as nat);
        }
    }
}

} // verus!
