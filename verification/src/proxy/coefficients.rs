//! Packing bytes into lattice plaintext coefficients.
//!
//! With plaintext modulus 65537 a slot holds values in the signed centered
//! range `[-32768, 32768]`. Each byte pair is packed as a signed 16-bit
//! little-endian value, which stays inside that range, so the full 16 bits
//! per coefficient round-trip exactly; a trailing odd byte is packed as its
//! value `0..=255`.

use vstd::prelude::*;

verus! {

broadcast use vstd::std_specs::vec::group_vec_axioms;

/// The signed 16-bit value whose little-endian bytes are `lo, hi`.
pub open spec fn pair_value(lo: u8, hi: u8) -> int {
    let v = lo as int + 256 * hi as int;
    if v >= 32768 {
        v - 65536
    } else {
        v
    }
}

/// The coefficients packing `data`: one per byte pair, and the trailing odd
/// byte on its own.
pub open spec fn coefficients_of(data: Seq<u8>) -> Seq<i64> {
    Seq::new(
        ((data.len() + 1) / 2) as nat,
        |i: int|
            if 2 * i + 1 < data.len() {
                pair_value(data[2 * i], data[2 * i + 1]) as i64
            } else {
                data[2 * i] as i64
            },
    )
}

/// The two little-endian bytes of a coefficient's low 16 bits.
pub open spec fn coefficient_bytes(c: i64) -> Seq<u8> {
    let u = c as u16;
    seq![(u % 256) as u8, (u / 256) as u8]
}

/// The bytes of all coefficients, in order.
pub open spec fn all_coefficient_bytes(coeffs: Seq<i64>) -> Seq<u8>
    decreases coeffs.len(),
{
    if coeffs.len() == 0 {
        Seq::empty()
    } else {
        all_coefficient_bytes(coeffs.drop_last()) + coefficient_bytes(coeffs.last())
    }
}

/// Convert bytes to coefficients.
pub fn bytes_to_coefficients(data: &[u8]) -> (r: Vec<i64>)
    ensures
        r@ == coefficients_of(data@),
{
    let mut out: Vec<i64> = Vec::new();
    let mut i: usize = 0;
    while i < data.len()
        invariant
            i <= data@.len(),
            i % 2 == 0 || i == data@.len(),
            out@.len() == (i + 1) / 2,
            forall|j: int| 0 <= j < out@.len() ==> #[trigger] out@[j] == coefficients_of(data@)[j],
        decreases data.len() - i,
    {
        if i + 1 < data.len() {
            let v: i64 = data[i] as i64 + 256 * data[i + 1] as i64;
            let c: i64 = if v >= 32768 {
                v - 65536
            } else {
                v
            };
            out.push(c);
            i = i + 2;
        } else {
            out.push(data[i] as i64);
            i = i + 1;
        }
    }
    assert(out@ =~= coefficients_of(data@));
    out
}

/// Convert coefficients back to bytes: each coefficient's low 16 bits as
/// two little-endian bytes, the whole cut to `original_len` bytes.
pub fn coefficients_to_bytes(coeffs: &[i64], original_len: usize) -> (r: Vec<u8>)
    ensures
        r@ == all_coefficient_bytes(coeffs@).take(
            if original_len <= 2 * coeffs@.len() {
                original_len as int
            } else {
                (2 * coeffs@.len()) as int
            },
        ),
{
    let mut out: Vec<u8> = Vec::new();
    let mut i: usize = 0;
    while i < coeffs.len()
        invariant
            i <= coeffs@.len(),
            out@ == all_coefficient_bytes(coeffs@.take(i as int)),
            out@.len() == 2 * i,
        decreases coeffs.len() - i,
    {
        let u = coeffs[i] as u16;
        out.push((u % 256) as u8);
        out.push((u / 256) as u8);
        assert(coeffs@.take(i + 1).drop_last() =~= coeffs@.take(i as int));
        i = i + 1;
    }
    assert(coeffs@.take(coeffs@.len() as int) =~= coeffs@);
    if original_len < out.len() {
        out.truncate(original_len);
    }
    out
}

/// A coefficient in the signed 16-bit range keeps its low 16 bits.
proof fn lemma_low_bits(lo: u8, hi: u8)
    ensures
        (pair_value(lo, hi) as i64) as u16 == lo as int + 256 * hi as int,
{
    let v: i64 = (lo as int + 256 * hi as int) as i64;
    assert(0 <= v < 65536);
    if v >= 32768 {
        assert(((v - 65536) as i64) as u16 == v as u16) by (bit_vector)
            requires
                32768 <= v < 65536,
        ;
    } else {
        assert(v as u16 == v) by (bit_vector)
            requires
                0 <= v < 32768,
        ;
    }
}

/// The bytes of the coefficients of `data` begin with `data`.
proof fn lemma_bytes_prefix(data: Seq<u8>, k: int)
    requires
        0 <= k <= (data.len() + 1) / 2,
    ensures
        all_coefficient_bytes(coefficients_of(data).take(k)).len() == 2 * k,
        forall|j: int|
            0 <= j < 2 * k && j < data.len() ==> #[trigger] all_coefficient_bytes(
                coefficients_of(data).take(k),
            )[j] == data[j],
    decreases k,
{
    if k > 0 {
        let c = coefficients_of(data);
        lemma_bytes_prefix(data, k - 1);
        assert(c.take(k).drop_last() =~= c.take(k - 1));
        let i = k - 1;
        if 2 * i + 1 < data.len() {
            lemma_low_bits(data[2 * i], data[2 * i + 1]);
        } else {
            let a = data[2 * i] as i64;
            assert(a as u16 == a) by (bit_vector)
                requires
                    0 <= a < 256,
            ;
        }
        let u = c[i] as u16;
        assert(coefficient_bytes(c[i]) == seq![(u % 256) as u8, (u / 256) as u8]);
        assert(c.take(k).last() == c[i]);
    }
}

/// Packing bytes into coefficients and back gives the bytes.
pub proof fn law_coefficients_roundtrip(data: Seq<u8>)
    ensures
        ({
            let coeffs = coefficients_of(data);
            let n = if data.len() <= 2 * coeffs.len() {
                data.len() as int
            } else {
                (2 * coeffs.len()) as int
            };
            all_coefficient_bytes(coeffs).take(n) == data
        }),
{
    let coeffs = coefficients_of(data);
    let k = (data.len() + 1) / 2;
    lemma_bytes_prefix(data, k as int);
    assert(coeffs.take(k as int) =~= coeffs);
    assert(all_coefficient_bytes(coeffs).take(data.len() as int) =~= data);
}

} // verus!
