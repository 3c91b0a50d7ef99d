//! Encoding of polynomials: 12-bit coefficient packing (serialization),
//! lossy d-bit compression with its proved round-trip error bound, and the
//! 1-bit message encoding.

use vstd::prelude::*;
use vstd::arithmetic::div_mod::{
    lemma_fundamental_div_mod, lemma_fundamental_div_mod_converse,
    lemma_mod_division_less_than_divisor, lemma_mod_multiples_vanish, lemma_small_mod,
};
use crate::{lemma_mod_q_small, mod_q};
use crate::poly::{canonical, ints, Poly};

verus! {

/// Powers of two up to 2^11, the largest this module needs.
pub open spec fn pw2(e: int) -> int {
    if e <= 0 {
        1
    } else if e == 1 {
        2
    } else if e == 2 {
        4
    } else if e == 3 {
        8
    } else if e == 4 {
        16
    } else if e == 5 {
        32
    } else if e == 6 {
        64
    } else if e == 7 {
        128
    } else if e == 8 {
        256
    } else if e == 9 {
        512
    } else if e == 10 {
        1024
    } else {
        2048
    }
}

/// The same powers of two, as a run-time value.
pub fn pw2e(e: usize) -> (r: u32)
    requires
        e <= 11,
    ensures
        r as int == pw2(e as int),
        1 <= r <= 2048,
{
    if e == 0 {
        1
    } else if e == 1 {
        2
    } else if e == 2 {
        4
    } else if e == 3 {
        8
    } else if e == 4 {
        16
    } else if e == 5 {
        32
    } else if e == 6 {
        64
    } else if e == 7 {
        128
    } else if e == 8 {
        256
    } else if e == 9 {
        512
    } else if e == 10 {
        1024
    } else {
        2048
    }
}

/// The 384 bytes that pack 256 coefficients as consecutive 12-bit values,
/// two coefficients into three bytes.
pub open spec fn tobytes_spec(p: Seq<int>) -> Seq<int> {
    Seq::new(384, |i: int| {
        let g = i / 3;
        if i % 3 == 0 {
            p[2 * g] % 256
        } else if i % 3 == 1 {
            p[2 * g] / 256 + (p[2 * g + 1] % 16) * 16
        } else {
            p[2 * g + 1] / 16
        }
    })
}

/// The 256 coefficients read back from 12-bit packed bytes starting at
/// `off`; every value is below 4096 by construction.
pub open spec fn frombytes_spec(b: Seq<u8>, off: int) -> Seq<int> {
    Seq::new(256, |i: int| {
        let g = i / 2;
        if i % 2 == 0 {
            b[off + 3 * g] + 256 * ((b[off + 3 * g + 1] as int) % 16)
        } else {
            (b[off + 3 * g + 1] as int) / 16 + 16 * (b[off + 3 * g + 2] as int)
        }
    })
}

/// Serialize a polynomial with coefficients below the 12-bit limit,
/// appending the 384 bytes to `out`.
pub fn poly_tobytes(p: &Poly, out: &mut Vec<u8>)
    requires
        forall|i: int| 0 <= i < 256 ==> 0 <= #[trigger] p@[i] < 4096,
    ensures
        final(out)@.len() == old(out)@.len() + 384,
        forall|i: int| 0 <= i < old(out)@.len()
            ==> #[trigger] final(out)@[i] == old(out)@[i],
        forall|i: int| 0 <= i < 384
            ==> #[trigger] final(out)@[old(out)@.len() + i] as int
                == tobytes_spec(ints(p@))[i],
{
    let ghost base = out@.len() as int;
    for g in 0..128usize
        invariant
            forall|i: int| 0 <= i < 256 ==> 0 <= #[trigger] p@[i] < 4096,
            base == old(out)@.len(),
            0 <= base,
            out@.len() == base + 3 * g,
            forall|i: int| 0 <= i < base ==> #[trigger] out@[i] == old(out)@[i],
            forall|i: int| 0 <= i < 3 * g
                ==> #[trigger] out@[base + i] as int == tobytes_spec(ints(p@))[i],
    {
        let t0: u16 = p.coeffs[2 * g] as u16;
        let t1: u16 = p.coeffs[2 * g + 1] as u16;
        let b0: u8 = (t0 % 256) as u8;
        let b1: u8 = ((t0 / 256) + (t1 % 16) * 16) as u8;
        let b2: u8 = (t1 / 16) as u8;
        let ghost pre = out@;
        out.push(b0);
        out.push(b1);
        out.push(b2);
        proof {
            let tb = tobytes_spec(ints(p@));
            let gi = g as int;
            assert(out@ == pre.push(b0).push(b1).push(b2));
            assert(out@.len() == pre.len() + 3);
            lemma_fundamental_div_mod_converse(3 * gi, 3, gi, 0);
            lemma_fundamental_div_mod_converse(3 * gi + 1, 3, gi, 1);
            lemma_fundamental_div_mod_converse(3 * gi + 2, 3, gi, 2);
            assert(tb[3 * gi] == ints(p@)[2 * gi] % 256);
            assert(tb[3 * gi + 1] == ints(p@)[2 * gi] / 256 + (ints(p@)[2 * gi + 1] % 16) * 16);
            assert(tb[3 * gi + 2] == ints(p@)[2 * gi + 1] / 16);
            assert(out@[base + 3 * gi] == b0);
            assert(out@[base + (3 * gi + 1)] == b1);
            assert(out@[base + (3 * gi + 2)] == b2);
            assert(b0 as int == tb[3 * gi]);
            assert(b1 as int == tb[3 * gi + 1]);
            assert(b2 as int == tb[3 * gi + 2]);
            assert forall|i: int| 0 <= i < 3 * gi + 3 implies #[trigger] out@[base
                + i] as int == tb[i] by {
                if i < 3 * gi {
                    assert(pre.push(b0)[base + i] == pre[base + i]);
                    assert(pre.push(b0).push(b1)[base + i] == pre.push(b0)[base + i]);
                    assert(pre.push(b0).push(b1).push(b2)[base + i] == pre.push(b0).push(
                        b1,
                    )[base + i]);
                    assert(out@[base + i] == pre[base + i]);
                } else {
                    assert(i == 3 * gi || i == 3 * gi + 1 || i == 3 * gi + 2);
                    assert(out@[base + i] == out@[base + i]);
                }
            }
        }
    }
}

/// Read one polynomial back from 12-bit packed bytes starting at `off`.
/// A coefficient at or above the 12-bit limit would be invalid, but three
/// packed bytes can only encode values below 4096, so the read always
/// succeeds and the bound is part of the contract.
pub fn poly_frombytes(bytes: &Vec<u8>, off: usize) -> (r: Poly)
    requires
        off + 384 <= bytes@.len(),
    ensures
        forall|i: int| 0 <= i < 256
            ==> #[trigger] r@[i] as int == frombytes_spec(bytes@, off as int)[i],
        forall|i: int| 0 <= i < 256 ==> 0 <= #[trigger] r@[i] < 4096,
{
    let mut r = Poly::new();
    let blen: usize = bytes.len();
    for g in 0..128usize
        invariant
            off + 384 <= blen,
            blen == bytes@.len(),
            forall|i: int| 0 <= i < 2 * g
                ==> #[trigger] r@[i] as int == frombytes_spec(bytes@, off as int)[i],
            forall|i: int| 0 <= i < 2 * g ==> 0 <= #[trigger] r@[i] < 4096,
    {
        let b0: u16 = bytes[off + 3 * g] as u16;
        let b1: u16 = bytes[off + 3 * g + 1] as u16;
        let b2: u16 = bytes[off + 3 * g + 2] as u16;
        let c0: u16 = b0 + 256 * (b1 % 16);
        let c1: u16 = b1 / 16 + 16 * b2;
        r.coeffs[2 * g] = c0 as i16;
        r.coeffs[2 * g + 1] = c1 as i16;
        proof {
            let fb = frombytes_spec(bytes@, off as int);
            let gi = g as int;
            lemma_fundamental_div_mod_converse(2 * gi, 2, gi, 0);
            lemma_fundamental_div_mod_converse(2 * gi + 1, 2, gi, 1);
            assert(fb[2 * gi] == bytes@[off + 3 * gi] + 256 * ((bytes@[off + 3 * gi
                + 1] as int) % 16));
            assert(fb[2 * gi + 1] == (bytes@[off + 3 * gi + 1] as int) / 16 + 16 * (bytes@[off
                + 3 * gi + 2] as int));
        }
    }
    r
}

/// Serialization round trip: reading back the 12-bit packing of any
/// polynomial with coefficients below 4096 recovers it exactly.
pub proof fn lemma_tobytes_frombytes(p: Seq<int>, b: Seq<u8>, off: int)
    requires
        p.len() == 256,
        forall|i: int| 0 <= i < 256 ==> 0 <= #[trigger] p[i] < 4096,
        off + 384 <= b.len(),
        0 <= off,
        forall|i: int| 0 <= i < 384 ==> b[off + i] as int == #[trigger] tobytes_spec(p)[i],
    ensures
        forall|i: int| 0 <= i < 256 ==> #[trigger] frombytes_spec(b, off)[i] == p[i],
{
    assert forall|i: int| 0 <= i < 256 implies #[trigger] frombytes_spec(b, off)[i] == p[i] by {
        lemma_fundamental_div_mod(i, 2);
        lemma_mod_division_less_than_divisor(i, 2);
        let g = i / 2;
        let x0 = p[2 * g];
        let x1 = p[2 * g + 1];
        lemma_fundamental_div_mod(x0, 256);
        lemma_mod_division_less_than_divisor(x0, 256);
        lemma_fundamental_div_mod(x1, 16);
        lemma_mod_division_less_than_divisor(x1, 16);
        lemma_fundamental_div_mod_converse(3 * g, 3, g, 0);
        lemma_fundamental_div_mod_converse(3 * g + 1, 3, g, 1);
        lemma_fundamental_div_mod_converse(3 * g + 2, 3, g, 2);
        assert(tobytes_spec(p)[3 * g] == x0 % 256);
        assert(tobytes_spec(p)[3 * g + 1] == x0 / 256 + (x1 % 16) * 16);
        assert(tobytes_spec(p)[3 * g + 2] == x1 / 16);
        assert(b[off + 3 * g] as int == x0 % 256);
        assert(b[off + (3 * g + 1)] as int == x0 / 256 + (x1 % 16) * 16);
        assert(b[off + 3 * g + 1] == b[off + (3 * g + 1)]);
        assert(b[off + (3 * g + 2)] as int == x1 / 16);
        assert(b[off + 3 * g + 2] == b[off + (3 * g + 2)]);
        // low nibble of the middle byte is the top nibble of x0
        lemma_mod_multiples_vanish(x1 % 16, x0 / 256, 16);
        lemma_small_mod((x0 / 256) as nat, 16);
        assert((x0 / 256 + (x1 % 16) * 16) % 16 == x0 / 256);
        // the middle byte divided by 16 is the low nibble of x1
        lemma_fundamental_div_mod_converse(x0 / 256 + (x1 % 16) * 16, 16, x1 % 16, x0 / 256);
        assert((x0 / 256 + (x1 % 16) * 16) / 16 == x1 % 16);
        if i % 2 == 0 {
            assert(frombytes_spec(b, off)[i] == x0 % 256 + 256 * (x0 / 256));
        } else {
            assert(frombytes_spec(b, off)[i] == x1 % 16 + 16 * (x1 / 16));
        }
    }
}

/// round(x * 2^d / Q) mod 2^d for canonical x, the d-bit compression of a
/// coefficient. The rounding never meets a tie because Q is odd.
pub open spec fn compress_spec(x: int, d: int) -> int {
    ((x * pw2(d + 1) + 3329) / 6658) % pw2(d)
}

/// round(y * Q / 2^d), the decompression of a d-bit value, rounding halves
/// up.
pub open spec fn decompress_spec(y: int, d: int) -> int {
    (y * 3329 + pw2(d - 1)) / pw2(d)
}

/// The inclusive bound on the compression round-trip error:
/// round(Q / 2^(d+1)).
pub open spec fn compress_err(d: int) -> int {
    (3329 + pw2(d)) / pw2(d + 1)
}

/// Compress a canonical coefficient to `d` bits.
pub fn compress(x: u16, d: usize) -> (r: u16)
    requires
        x < 3329,
        d == 1 || d == 4 || d == 10,
    ensures
        r as int == compress_spec(x as int, d as int),
        r < pw2(d as int),
{
    let m: u32 = pw2e(d + 1);
    let md: u32 = pw2e(d);
    let r: u32 = ((x as u32) * m + 3329) / 6658 % md;
    proof {
        lemma_mod_division_less_than_divisor(((x as u32) * m + 3329) as int / 6658, md as int);
    }
    r as u16
}

/// Decompress a d-bit value to a canonical coefficient.
pub fn decompress(y: u16, d: usize) -> (r: u16)
    requires
        d == 1 || d == 4 || d == 10,
        (y as int) < pw2(d as int),
    ensures
        r as int == decompress_spec(y as int, d as int),
        r < 3329,
{
    let md: u32 = pw2e(d);
    let h: u32 = pw2e(d - 1);
    let r: u32 = ((y as u32) * 3329 + h) / md;
    proof {
        lemma_fundamental_div_mod(((y as u32) * 3329 + h) as int, md as int);
        lemma_mod_division_less_than_divisor(((y as u32) * 3329 + h) as int, md as int);
    }
    r as u16
}

/// Compression round trip: for every canonical coefficient and every used
/// bit width, decompressing the compression lands within round(Q / 2^(d+1))
/// of the original, as a distance modulo Q.
pub proof fn lemma_compress_roundtrip(x: int, d: int)
    requires
        0 <= x < 3329,
        d == 1 || d == 4 || d == 10,
    ensures
        ({
            let y = decompress_spec(compress_spec(x, d), d);
            let e = mod_q(y - x);
            e <= compress_err(d) || 3329 - e <= compress_err(d)
        }),
{
    let m2 = pw2(d + 1);
    let md = pw2(d);
    let c0 = (x * m2 + 3329) / 6658;
    lemma_fundamental_div_mod(x * m2 + 3329, 6658);
    lemma_mod_division_less_than_divisor(x * m2 + 3329, 6658);
    lemma_mod_division_less_than_divisor(c0, md);
    lemma_fundamental_div_mod(c0, md);
    let c = compress_spec(x, d);
    assert(0 <= c0 <= md) by {
        assert(x * m2 <= 3328 * m2);
    }
    assert(c == if c0 == md {
        0int
    } else {
        c0
    }) by {
        if c0 < md {
            lemma_small_mod(c0 as nat, md as nat);
        }
    }
    let y = decompress_spec(c, d);
    lemma_fundamental_div_mod(c * 3329 + pw2(d - 1), md);
    lemma_mod_division_less_than_divisor(c * 3329 + pw2(d - 1), md);
    if c0 == md {
        // x was rounded up to 2^d, which wraps to 0; x is within the error
        // bound of Q.
        assert(y == 0) by {
            assert(pw2(d - 1) / md == 0) by {
                lemma_small_mod(pw2(d - 1) as nat, md as nat);
                lemma_fundamental_div_mod(pw2(d - 1), md);
            }
        }
        assert(x >= 3329 - compress_err(d));
        assert(mod_q(y - x) <= compress_err(d)) by {
            if x == 0 {
            } else {
                lemma_mod_multiples_vanish(1, -x, 3329);
                lemma_small_mod((3329 - x) as nat, 3329);
            }
        }
    } else {
        // c == c0: the two roundings compose to an error of at most
        // round(Q / 2^(d+1)).
        let e0 = y - x;
        assert(-compress_err(d) <= e0 <= compress_err(d));
        if e0 >= 0 {
            lemma_small_mod(e0 as nat, 3329);
        } else {
            lemma_mod_multiples_vanish(1, e0, 3329);
            lemma_small_mod((e0 + 3329) as nat, 3329);
        }
    }
}

/// One bit of a 32-byte message, little-endian within each byte.
pub open spec fn msg_bit(m: Seq<u8>, i: int) -> int {
    ((m[i / 8] as int) / pw2(i % 8)) % 2
}

/// Expand a 32-byte message into a polynomial whose coefficients are the
/// message bits scaled by round(Q/2) = 1665 (the 1-bit decompression).
pub fn poly_frommsg(msg: &Vec<u8>) -> (r: Poly)
    requires
        msg@.len() == 32,
    ensures
        forall|i: int| 0 <= i < 256 ==> #[trigger] r@[i] as int == msg_bit(msg@, i) * 1665,
        forall|i: int| 0 <= i < 256 ==> 0 <= #[trigger] r@[i] <= 1665,
{
    let mut r = Poly::new();
    for i in 0..256usize
        invariant
            msg@.len() == 32,
            forall|j: int| 0 <= j < i ==> #[trigger] r@[j] as int == msg_bit(msg@, j) * 1665,
            forall|j: int| 0 <= j < i ==> 0 <= #[trigger] r@[j] <= 1665,
    {
        let byte: u16 = msg[i / 8] as u16;
        let bit: u16 = (byte / (pw2e(i % 8) as u16)) % 2;
        r.coeffs[i] = (bit * 1665) as i16;
        proof {
            lemma_mod_division_less_than_divisor((byte as int) / pw2((i % 8) as int), 2);
        }
    }
    r
}

/// The byte of the recovered message built from coefficients 8j .. 8j+7,
/// each compressed to one bit.
pub open spec fn msgbyte_upto(p: Seq<int>, j: int, k: int) -> int
    decreases k,
{
    if k <= 0 {
        0
    } else {
        msgbyte_upto(p, j, k - 1) + compress_spec(p[8 * j + k - 1], 1) * pw2(k - 1)
    }
}

/// Compress every coefficient to one bit and pack the bits into 32 bytes.
pub fn poly_tomsg(p: &Poly) -> (r: Vec<u8>)
    requires
        canonical(p@),
    ensures
        r@.len() == 32,
        forall|j: int| 0 <= j < 32 ==> #[trigger] r@[j] as int == msgbyte_upto(ints(p@), j, 8),
{
    let mut r: Vec<u8> = Vec::new();
    for j in 0..32usize
        invariant
            canonical(p@),
            r@.len() == j,
            forall|i: int| 0 <= i < j
                ==> #[trigger] r@[i] as int == msgbyte_upto(ints(p@), i, 8),
    {
        let mut acc: u16 = 0;
        let mut k: usize = 0;
        while k < 8
            invariant
                canonical(p@),
                0 <= k <= 8,
                j < 32,
                acc as int == msgbyte_upto(ints(p@), j as int, k as int),
                acc < pw2(k as int),
            decreases 8 - k,
        {
            let c: u16 = p.coeffs[8 * j + k] as u16;
            let bit: u16 = compress(c, 1);
            let step: u16 = pw2e(k) as u16;
            proof {
                if bit == 0 {
                    assert(bit * step == 0);
                } else {
                    assert(bit == 1);
                    assert(bit * step == step);
                }
            }
            acc = acc + bit * step;
            k += 1;
        }
        r.push(acc as u8);
    }
    r
}

} // verus!

verus! {

/// Coefficient-wise d-bit compression of a coefficient sequence.
pub open spec fn compress_seq(p: Seq<int>, d: int) -> Seq<int> {
    Seq::new(256, |i: int| compress_spec(p[i], d))
}

/// The 320 bytes packing 256 ten-bit values, four values into five bytes,
/// as base-256 digits of the 40-bit group value.
pub open spec fn pack10_group(y: Seq<int>, g: int) -> int {
    y[4 * g] + y[4 * g + 1] * 1024 + y[4 * g + 2] * 1048576 + y[4 * g + 3] * 1073741824
}

/// Byte `i` of the 10-bit packing.
pub open spec fn pack10_spec(y: Seq<int>) -> Seq<int> {
    Seq::new(320, |i: int| pack10_group(y, i / 5) / pw2b(i % 5) % 256)
}

/// 256^r for r in 0..5.
pub open spec fn pw2b(r: int) -> int {
    if r <= 0 {
        1
    } else if r == 1 {
        256
    } else if r == 2 {
        65536
    } else if r == 3 {
        16777216
    } else {
        4294967296
    }
}

/// The ten-bit values read back from a 10-bit packed buffer at `off`.
pub open spec fn unpack10_spec(b: Seq<u8>, off: int) -> Seq<int> {
    Seq::new(256, |i: int| {
        let g = i / 4;
        let v = b[off + 5 * g] + b[off + 5 * g + 1] * 256 + b[off + 5 * g + 2] * 65536 + b[off
            + 5 * g + 3] * 16777216 + b[off + 5 * g + 4] * 4294967296;
        v / pw2t(i % 4) % 1024
    })
}

/// 1024^k for k in 0..4.
pub open spec fn pw2t(k: int) -> int {
    if k <= 0 {
        1
    } else if k == 1 {
        1024
    } else if k == 2 {
        1048576
    } else {
        1073741824
    }
}

/// Compress a canonical polynomial to 10 bits per coefficient and append
/// the 320 packed bytes to `out`.
pub fn compress_poly_du(p: &Poly, out: &mut Vec<u8>)
    requires
        canonical(p@),
    ensures
        final(out)@.len() == old(out)@.len() + 320,
        forall|i: int| 0 <= i < old(out)@.len()
            ==> #[trigger] final(out)@[i] == old(out)@[i],
        forall|i: int| 0 <= i < 320
            ==> #[trigger] final(out)@[old(out)@.len() + i] as int
                == pack10_spec(compress_seq(ints(p@), 10))[i],
{
    let ghost base = out@.len() as int;
    let ghost ys = compress_seq(ints(p@), 10);
    for g in 0..64usize
        invariant
            canonical(p@),
            base == old(out)@.len(),
            0 <= base,
            ys == compress_seq(ints(p@), 10),
            out@.len() == base + 5 * g,
            forall|i: int| 0 <= i < base ==> #[trigger] out@[i] == old(out)@[i],
            forall|i: int| 0 <= i < 5 * g
                ==> #[trigger] out@[base + i] as int == pack10_spec(ys)[i],
    {
        let y0: u64 = compress(p.coeffs[4 * g] as u16, 10) as u64;
        let y1: u64 = compress(p.coeffs[4 * g + 1] as u16, 10) as u64;
        let y2: u64 = compress(p.coeffs[4 * g + 2] as u16, 10) as u64;
        let y3: u64 = compress(p.coeffs[4 * g + 3] as u16, 10) as u64;
        let v: u64 = y0 + y1 * 1024 + y2 * 1048576 + y3 * 1073741824;
        let b0: u8 = (v % 256) as u8;
        let b1: u8 = (v / 256 % 256) as u8;
        let b2: u8 = (v / 65536 % 256) as u8;
        let b3: u8 = (v / 16777216 % 256) as u8;
        let b4: u8 = (v / 4294967296 % 256) as u8;
        let ghost pre = out@;
        out.push(b0);
        out.push(b1);
        out.push(b2);
        out.push(b3);
        out.push(b4);
        proof {
            let gi = g as int;
            assert(ys[4 * gi] == y0 && ys[4 * gi + 1] == y1 && ys[4 * gi + 2] == y2 && ys[4 * gi
                + 3] == y3);
            assert(v as int == pack10_group(ys, gi));
            assert forall|i: int| 0 <= i < 5 * gi + 5 implies #[trigger] out@[base + i] as int
                == pack10_spec(ys)[i] by {
                lemma_fundamental_div_mod(i, 5);
                lemma_mod_division_less_than_divisor(i, 5);
                if i < 5 * gi {
                    assert(out@[base + i] == pre[base + i]);
                } else {
                    lemma_fundamental_div_mod_converse(i, 5, gi, i - 5 * gi);
                    assert(out@[base + i] == out@[base + i]);
                }
            }
        }
    }
}

/// Read back a polynomial from 10-bit packed bytes at `off` and decompress
/// every value to a canonical coefficient.
pub fn decompress_poly_du(bytes: &Vec<u8>, off: usize) -> (r: Poly)
    requires
        off + 320 <= bytes@.len(),
    ensures
        forall|i: int| 0 <= i < 256
            ==> #[trigger] r@[i] as int
                == decompress_spec(unpack10_spec(bytes@, off as int)[i], 10),
        canonical(r@),
{
    let mut r = Poly::new();
    let blen: usize = bytes.len();
    for g in 0..64usize
        invariant
            off + 320 <= blen,
            blen == bytes@.len(),
            forall|i: int| 0 <= i < 4 * g
                ==> #[trigger] r@[i] as int
                    == decompress_spec(unpack10_spec(bytes@, off as int)[i], 10),
            forall|i: int| 0 <= i < 4 * g ==> 0 <= #[trigger] r@[i] < 3329,
    {
        let v: u64 = (bytes[off + 5 * g] as u64) + (bytes[off + 5 * g + 1] as u64) * 256 + (
        bytes[off + 5 * g + 2] as u64) * 65536 + (bytes[off + 5 * g + 3] as u64) * 16777216 + (
        bytes[off + 5 * g + 4] as u64) * 4294967296;
        let y0: u16 = (v % 1024) as u16;
        let y1: u16 = (v / 1024 % 1024) as u16;
        let y2: u16 = (v / 1048576 % 1024) as u16;
        let y3: u16 = (v / 1073741824 % 1024) as u16;
        let c0: u16 = decompress(y0, 10);
        let c1: u16 = decompress(y1, 10);
        let c2: u16 = decompress(y2, 10);
        let c3: u16 = decompress(y3, 10);
        r.coeffs[4 * g] = c0 as i16;
        r.coeffs[4 * g + 1] = c1 as i16;
        r.coeffs[4 * g + 2] = c2 as i16;
        r.coeffs[4 * g + 3] = c3 as i16;
        proof {
            let gi = g as int;
            let up = unpack10_spec(bytes@, off as int);
            lemma_fundamental_div_mod_converse(4 * gi, 4, gi, 0);
            lemma_fundamental_div_mod_converse(4 * gi + 1, 4, gi, 1);
            lemma_fundamental_div_mod_converse(4 * gi + 2, 4, gi, 2);
            lemma_fundamental_div_mod_converse(4 * gi + 3, 4, gi, 3);
            assert(up[4 * gi] == y0 as int);
            assert(up[4 * gi + 1] == y1 as int);
            assert(up[4 * gi + 2] == y2 as int);
            assert(up[4 * gi + 3] == y3 as int);
        }
    }
    r
}

/// Compress a canonical polynomial to 4 bits per coefficient and append
/// the 128 packed bytes to `out` (two coefficients per byte).
pub fn compress_poly_dv(p: &Poly, out: &mut Vec<u8>)
    requires
        canonical(p@),
    ensures
        final(out)@.len() == old(out)@.len() + 128,
        forall|i: int| 0 <= i < old(out)@.len()
            ==> #[trigger] final(out)@[i] == old(out)@[i],
        forall|j: int| 0 <= j < 128
            ==> #[trigger] final(out)@[old(out)@.len() + j] as int
                == compress_seq(ints(p@), 4)[2 * j] + 16 * compress_seq(ints(p@), 4)[2 * j
                + 1],
{
    let ghost base = out@.len() as int;
    let ghost ys = compress_seq(ints(p@), 4);
    for j in 0..128usize
        invariant
            canonical(p@),
            base == old(out)@.len(),
            0 <= base,
            ys == compress_seq(ints(p@), 4),
            out@.len() == base + j,
            forall|i: int| 0 <= i < base ==> #[trigger] out@[i] == old(out)@[i],
            forall|i: int| 0 <= i < j
                ==> #[trigger] out@[base + i] as int == ys[2 * i] + 16 * ys[2 * i + 1],
    {
        let y0: u16 = compress(p.coeffs[2 * j] as u16, 4);
        let y1: u16 = compress(p.coeffs[2 * j + 1] as u16, 4);
        let b: u8 = (y0 + 16 * y1) as u8;
        out.push(b);
    }
}

/// Read back a polynomial from 4-bit packed bytes at `off` and decompress
/// every value to a canonical coefficient.
pub fn decompress_poly_dv(bytes: &Vec<u8>, off: usize) -> (r: Poly)
    requires
        off + 128 <= bytes@.len(),
    ensures
        forall|j: int| 0 <= j < 128
            ==> #[trigger] r@[2 * j] as int
                == decompress_spec((bytes@[off + j] as int) % 16, 4),
        forall|j: int| 0 <= j < 128
            ==> #[trigger] r@[2 * j + 1] as int
                == decompress_spec((bytes@[off + j] as int) / 16, 4),
        canonical(r@),
{
    let mut r = Poly::new();
    let blen: usize = bytes.len();
    for j in 0..128usize
        invariant
            off + 128 <= blen,
            blen == bytes@.len(),
            forall|i: int| 0 <= i < j
                ==> #[trigger] r@[2 * i] as int
                    == decompress_spec((bytes@[off + i] as int) % 16, 4),
            forall|i: int| 0 <= i < j
                ==> #[trigger] r@[2 * i + 1] as int
                    == decompress_spec((bytes@[off + i] as int) / 16, 4),
            forall|i: int| 0 <= i < 2 * j ==> 0 <= #[trigger] r@[i] < 3329,
    {
        let b: u16 = bytes[off + j] as u16;
        proof {
            lemma_mod_division_less_than_divisor(b as int, 16);
            lemma_fundamental_div_mod(b as int, 16);
        }
        let c0: u16 = decompress(b % 16, 4);
        let c1: u16 = decompress(b / 16, 4);
        r.coeffs[2 * j] = c0 as i16;
        r.coeffs[2 * j + 1] = c1 as i16;
    }
    r
}

} // verus!
