//! The number-theoretic transform: the 7-layer Cooley–Tukey forward
//! transform and the Gentleman–Sande inverse transform over the precomputed
//! twiddle table, with exact modular contracts and coefficient bounds.

use vstd::prelude::*;
use vstd::arithmetic::div_mod::{lemma_fundamental_div_mod_converse, lemma_mod_twice};
use crate::{lemma_cong_add, lemma_cong_mul, lemma_cong_sub, lemma_mod_q_bounds, mod_q, lemma_unmont};
use crate::poly::{abs_bounded, ints, Poly};
use crate::reduce::{barrett_reduce, fqmul};
use crate::zetas::{zeta_m, ZETAS};

verus! {

/// Half-width of the butterfly blocks of a forward layer (N >> layer).
pub open spec fn layer_len(layer: int) -> int {
    if layer == 1 {
        128
    } else if layer == 2 {
        64
    } else if layer == 3 {
        32
    } else if layer == 4 {
        16
    } else if layer == 5 {
        8
    } else if layer == 6 {
        4
    } else {
        2
    }
}

/// One Cooley–Tukey layer with half-width `len`, as a map on coefficient
/// sequences: position i of the lower half of each block pairs with i + len,
/// and the block with index b uses the twiddle ZETAS[128/len + b]. Output
/// values are canonical representatives; the factor 169 == R^-1 mod Q
/// removes the Montgomery form of the table entry.
pub open spec fn ct_layer_spec(p: Seq<int>, len: int) -> Seq<int> {
    Seq::new(256, |i: int| {
        let z = zeta_m(128int / len + i / (2 * len));
        if i % (2 * len) < len {
            mod_q(p[i] + p[i + len] * z * 169)
        } else {
            mod_q(p[i - len] - p[i] * z * 169)
        }
    })
}

/// The exact writes of one forward layer, for every lower-half position j
/// below `upto`: the entry gained a twiddled partner value t — pinned by
/// its range, its congruence to pre[j+len] * zeta * R^-1, and the Montgomery
/// slack window around pre[j+len] * zeta — while the partner became
/// pre[j] - t, so each pair sums to exactly 2 * pre[j].
pub open spec fn ct_layer_writes(pre: Seq<i16>, post: Seq<i16>, len: int, upto: int) -> bool {
    forall|j: int| #![trigger post[j], post[j + len]] 0 <= j < upto && j % (2 * len) < len ==> {
        let z = zeta_m(128int / len + j / (2 * len));
        let t = post[j] - pre[j];
        &&& -2496 <= t <= 2496
        &&& mod_q(t) == mod_q(pre[j + len] * z * 169)
        &&& pre[j + len] * z - 109084672 <= t * 65536 <= pre[j + len] * z + 109084672
        &&& post[j + len] == pre[j] - t
    }
}

/// One Gentleman–Sande layer with half-width `len`: the block with index b
/// uses the twiddle ZETAS[256/len - 1 - b].
pub open spec fn gs_layer_spec(p: Seq<int>, len: int) -> Seq<int> {
    Seq::new(256, |i: int| {
        let z = zeta_m(256int / len - 1 - i / (2 * len));
        if i % (2 * len) < len {
            mod_q(p[i] + p[i + len])
        } else {
            mod_q((p[i] - p[i - len]) * z * 169)
        }
    })
}

/// The exact writes of one inverse layer, for every lower-half position j
/// below `upto`: the entry became the Barrett reduction of the pair sum —
/// pinned by the centered range [-1664, 1664] and the congruence — and the
/// partner became the Montgomery product of the pair difference with the
/// twiddle, pinned by its congruence and slack window.
pub open spec fn gs_layer_writes(pre: Seq<i16>, post: Seq<i16>, len: int, upto: int) -> bool {
    forall|j: int| #![trigger post[j], post[j + len]] 0 <= j < upto && j % (2 * len) < len ==> {
        let z = zeta_m(256int / len - 1 - j / (2 * len));
        &&& -1664 <= post[j] <= 1664
        &&& mod_q(post[j] as int) == mod_q(pre[j] + pre[j + len])
        &&& -2496 <= post[j + len] <= 2496
        &&& mod_q(post[j + len] as int) == mod_q((pre[j + len] - pre[j]) * z * 169)
        &&& (pre[j + len] - pre[j]) * z - 109084672 <= post[j + len] * 65536 <= (pre[j + len]
            - pre[j]) * z + 109084672
    }
}

/// Coefficient-wise multiplication by a constant, reduced to canonical form.
pub open spec fn scale_spec(p: Seq<int>, c: int) -> Seq<int> {
    Seq::new(256, |i: int| mod_q(p[i] * c))
}

/// The first `n` forward layers (half-widths 128, 64, ..).
pub open spec fn ntt_layers_upto(p: Seq<int>, n: int) -> Seq<int>
    decreases n,
{
    if n <= 0 {
        p
    } else {
        ct_layer_spec(ntt_layers_upto(p, n - 1), layer_len(n))
    }
}

/// The full forward transform.
pub open spec fn ntt_spec(p: Seq<int>) -> Seq<int> {
    ntt_layers_upto(p, 7)
}

/// The Montgomery scaling by 1441 * R^-1 and the first `n` inverse layers
/// (half-widths 2, 4, ..).
pub open spec fn invntt_layers_upto(p: Seq<int>, n: int) -> Seq<int>
    decreases n,
{
    if n <= 0 {
        scale_spec(p, 1441int * 169)
    } else {
        gs_layer_spec(invntt_layers_upto(p, n - 1), layer_len(8 - n))
    }
}

/// The full inverse transform, including its Montgomery output scaling.
pub open spec fn invntt_spec(p: Seq<int>) -> Seq<int> {
    invntt_layers_upto(p, 7)
}

/// A block of Cooley–Tukey butterflies: for each j in [start, start + len),
/// the pair (j, j + len) becomes (old[j] + t, old[j] - t) where t is the
/// Montgomery product of old[j + len] and the twiddle.
pub fn ntt_butterfly_block(poly: &mut Poly, zeta: i16, start: usize, len: usize)
    requires
        -1664 <= zeta <= 1664,
        1 <= len,
        start + 2 * len <= 256,
        forall|i: int| start <= i < start + 2 * len
            ==> -30271 <= #[trigger] old(poly)@[i] <= 30271,
    ensures
        forall|j: int| #![trigger final(poly)@[j]] start <= j < start + len ==> {
            &&& -2496 <= final(poly)@[j] - old(poly)@[j] <= 2496
            &&& mod_q(final(poly)@[j] - old(poly)@[j])
                == mod_q(old(poly)@[j + len] * zeta * 169)
            &&& old(poly)@[j + len] * zeta - 109084672 <= (final(poly)@[j] - old(poly)@[j])
                * 65536 <= old(poly)@[j + len] * zeta + 109084672
            &&& final(poly)@[j + len] == old(poly)@[j] - (final(poly)@[j] - old(poly)@[j])
        },
        forall|i: int| (0 <= i < start || start + 2 * len <= i < 256)
            ==> final(poly)@[i] == old(poly)@[i],
{
    let mut j = start;
    while j < start + len
        invariant
            -1664 <= zeta <= 1664,
            1 <= len,
            start + 2 * len <= 256,
            start <= j <= start + len,
            forall|i: int| start <= i < start + 2 * len
                ==> -30271 <= #[trigger] old(poly)@[i] <= 30271,
            forall|i: int| #![trigger poly@[i]] start <= i < j ==> {
                &&& -2496 <= poly@[i] - old(poly)@[i] <= 2496
                &&& mod_q(poly@[i] - old(poly)@[i])
                    == mod_q(old(poly)@[i + len] * zeta * 169)
                &&& old(poly)@[i + len] * zeta - 109084672 <= (poly@[i] - old(poly)@[i])
                    * 65536 <= old(poly)@[i + len] * zeta + 109084672
                &&& poly@[i + len] == old(poly)@[i] - (poly@[i] - old(poly)@[i])
            },
            forall|i: int| j <= i < start + len ==> #[trigger] poly@[i] == old(poly)@[i],
            forall|i: int| j + len <= i < start + 2 * len
                ==> #[trigger] poly@[i] == old(poly)@[i],
            forall|i: int| (0 <= i < start || start + 2 * len <= i < 256)
                ==> poly@[i] == old(poly)@[i],
        decreases start + len - j,
    {
        let t: i16 = fqmul(poly.coeffs[j + len], zeta);
        proof {
            lemma_unmont(t as int, (old(poly)@[j as int + len] as int) * (zeta as int));
        }
        poly.coeffs[j + len] = poly.coeffs[j] - t;
        poly.coeffs[j] = poly.coeffs[j] + t;
        j += 1;
    }
}

} // verus!

verus! {

/// A forward layer applied to congruent inputs yields equal (canonical)
/// outputs.
pub proof fn lemma_ct_layer_congruent(p: Seq<int>, q: Seq<int>, len: int)
    requires
        p.len() == 256,
        q.len() == 256,
        len == 2 || len == 4 || len == 8 || len == 16 || len == 32 || len == 64 || len == 128,
        forall|i: int| 0 <= i < 256 ==> mod_q(#[trigger] p[i]) == mod_q(q[i]),
    ensures
        forall|i: int| 0 <= i < 256
            ==> #[trigger] ct_layer_spec(p, len)[i] == ct_layer_spec(q, len)[i],
{
    assert forall|i: int| 0 <= i < 256 implies #[trigger] ct_layer_spec(p, len)[i]
        == ct_layer_spec(q, len)[i] by {
        vstd::arithmetic::div_mod::lemma_fundamental_div_mod(i, 2 * len);
        vstd::arithmetic::div_mod::lemma_mod_division_less_than_divisor(i, 2 * len);
        let z = zeta_m(128int / len + i / (2 * len));
        if i % (2 * len) < len {
            assert(i + len < 256);
            lemma_cong_mul(p[i + len], q[i + len], z);
            lemma_cong_mul(p[i + len] * z, q[i + len] * z, 169);
            lemma_cong_add(p[i], q[i], p[i + len] * z * 169, q[i + len] * z * 169);
        } else {
            assert(0 <= i - len);
            lemma_cong_mul(p[i], q[i], z);
            lemma_cong_mul(p[i] * z, q[i] * z, 169);
            lemma_cong_sub(p[i - len], q[i - len], p[i] * z * 169, q[i] * z * 169);
        }
    }
}

/// Every output entry of a forward layer is canonical.
pub proof fn lemma_ct_layer_canonical(p: Seq<int>, len: int)
    requires
        len == 2 || len == 4 || len == 8 || len == 16 || len == 32 || len == 64 || len == 128,
    ensures
        forall|i: int| 0 <= i < 256 ==> 0 <= #[trigger] ct_layer_spec(p, len)[i] < 3329,
{
    assert forall|i: int| 0 <= i < 256 implies 0 <= #[trigger] ct_layer_spec(p, len)[i]
        < 3329 by {
        let z = zeta_m(128int / len + i / (2 * len));
        if i % (2 * len) < len {
            lemma_mod_q_bounds(p[i] + p[i + len] * z * 169);
        } else {
            lemma_mod_q_bounds(p[i - len] - p[i] * z * 169);
        }
    }
}

/// One in-place forward layer: butterfly blocks of half-width N >> layer,
/// with the twiddle index running from 2^(layer-1) upward, one per block.
/// Coefficients grow by at most 2496 in absolute value.
pub fn ntt_layer(poly: &mut Poly, layer: usize, Ghost(b): Ghost<int>)
    requires
        1 <= layer <= 7,
        0 <= b <= 27775,
        abs_bounded(old(poly)@, b),
    ensures
        forall|i: int| 0 <= i < 256
            ==> mod_q(#[trigger] final(poly)@[i] as int)
                == ct_layer_spec(ints(old(poly)@), layer_len(layer as int))[i],
        ct_layer_writes(old(poly)@, final(poly)@, layer_len(layer as int), 256),
        abs_bounded(final(poly)@, b + 2496),
{
    let len: usize = 256 >> layer;
    let k0: usize = 1 << (layer - 1);
    proof {
        assert((256usize >> 1usize) == 128 && (256usize >> 2usize) == 64 && (256usize
            >> 3usize) == 32 && (256usize >> 4usize) == 16 && (256usize >> 5usize) == 8 && (
        256usize >> 6usize) == 4 && (256usize >> 7usize) == 2) by (bit_vector);
        assert((1usize << 0usize) == 1 && (1usize << 1usize) == 2 && (1usize << 2usize) == 4 && (
        1usize << 3usize) == 8 && (1usize << 4usize) == 16 && (1usize << 5usize) == 32 && (1usize
            << 6usize) == 64) by (bit_vector);
        assert(len as int == layer_len(layer as int));
        assert(128int / 2 == 64 && 128int / 4 == 32 && 128int / 8 == 16 && 128int / 16 == 8
            && 128int / 32 == 4 && 128int / 64 == 2 && 128int / 128 == 1);
        assert(k0 as int == 128int / (len as int));
        if layer == 1 {
            assert(len == 128 && k0 == 1);
        } else if layer == 2 {
            assert(len == 64 && k0 == 2);
        } else if layer == 3 {
            assert(len == 32 && k0 == 4);
        } else if layer == 4 {
            assert(len == 16 && k0 == 8);
        } else if layer == 5 {
            assert(len == 8 && k0 == 16);
        } else if layer == 6 {
            assert(len == 4 && k0 == 32);
        } else {
            assert(len == 2 && k0 == 64);
        }
        assert(2 * len * k0 == 256);
    }
    let mut start: usize = 0;
    let mut k: usize = k0;
    while start < 256
        invariant
            1 <= layer <= 7,
            len as int == layer_len(layer as int),
            1 <= len <= 128,
            k0 as int == 128int / (len as int),
            2 * len * k0 == 256,
            k0 <= k <= 2 * k0,
            start == (k - k0) * (2 * len),
            start <= 256,
            0 <= b <= 27775,
            abs_bounded(old(poly)@, b),
            forall|i: int| start <= i < 256 ==> #[trigger] poly@[i] == old(poly)@[i],
            forall|i: int| 0 <= i < start
                ==> mod_q(#[trigger] poly@[i] as int)
                    == ct_layer_spec(ints(old(poly)@), len as int)[i],
            ct_layer_writes(old(poly)@, poly@, len as int, start as int),
            forall|i: int| 0 <= i < start ==> -(b + 2496) <= #[trigger] poly@[i] <= b + 2496,
        decreases 256 - start,
    {
        let zeta: i16 = ZETAS[k];
        proof {
            crate::zetas::lemma_zetas_canonical(k as int);
            assert(k < 2 * k0) by (nonlinear_arith)
                requires
                    start < 256,
                    start == (k - k0) * (2 * len),
                    2 * len * k0 == 256,
                    k0 <= k,
                    1 <= len,
            ;
            assert(start + 2 * len <= 256) by (nonlinear_arith)
                requires
                    start == (k - k0) * (2 * len),
                    2 * len * k0 == 256,
                    k0 <= k < 2 * k0,
                    1 <= len,
            ;
        }
        let ghost pre = poly@;
        ntt_butterfly_block(poly, zeta, start, len);
        proof {
            let p0 = ints(old(poly)@);
            assert forall|i: int| start <= i < start + 2 * len implies mod_q(
                #[trigger] poly@[i] as int,
            ) == ct_layer_spec(p0, len as int)[i] && -(b + 2496) <= poly@[i] <= b + 2496 by {
                let l2 = 2 * (len as int);
                lemma_fundamental_div_mod_converse(i, l2, (k - k0) as int, i - start);
                let z = zeta_m(128int / (len as int) + i / l2);
                assert(z == zeta as int);
                if i - start < len {
                    let t = poly@[i] - pre[i];
                    assert(pre[i] == old(poly)@[i]);
                    assert(pre[i + len] == old(poly)@[i + len]);
                    assert(mod_q(t) == mod_q(pre[i + len] * (zeta as int) * 169));
                    lemma_cong_add(pre[i] as int, pre[i] as int, t, pre[i + len] * (
                    zeta as int) * 169);
                } else {
                    let j = i - len;
                    assert(poly@[j] == poly@[j]);
                    let t = poly@[j] - pre[j];
                    assert(pre[j] == old(poly)@[j]);
                    assert(pre[i] == old(poly)@[i]);
                    assert(poly@[i] == pre[j] - t);
                    assert(mod_q(t) == mod_q(pre[i] * (zeta as int) * 169));
                    lemma_cong_sub(pre[j] as int, pre[j] as int, t, pre[i] * (zeta as int) * 169);
                }
            }
            let l2 = 2 * (len as int);
            assert forall|j: int| #![trigger poly@[j]]
                0 <= j < start + 2 * len && j % l2 < len implies ({
                let z = zeta_m(128int / (len as int) + j / l2);
                let t = poly@[j] - old(poly)@[j];
                &&& -2496 <= t <= 2496
                &&& mod_q(t) == mod_q(old(poly)@[j + len] * z * 169)
                &&& old(poly)@[j + len] * z - 109084672 <= t * 65536 <= old(poly)@[j + len] * z
                    + 109084672
                &&& poly@[j + len] == old(poly)@[j] - t
            }) by {
                vstd::arithmetic::div_mod::lemma_fundamental_div_mod(j, l2);
                vstd::arithmetic::div_mod::lemma_mod_division_less_than_divisor(j, l2);
                if j < start {
                    // within an earlier block, whose partner also precedes start
                    let qj = j / l2;
                    let rj = j % l2;
                    assert(j + len < start) by (nonlinear_arith)
                        requires
                            j == l2 * qj + rj,
                            0 <= rj < len,
                            j < start,
                            start as int == ((k - k0) as int) * l2,
                            l2 == 2 * (len as int),
                            1 <= len,
                    ;
                    assert(pre[j] == pre[j]);
                    assert(pre[j + len] == pre[j + len]);
                    assert(poly@[j] == pre[j]);
                    assert(poly@[j + len] == pre[j + len]);
                } else {
                    lemma_fundamental_div_mod_converse(j, l2, (k - k0) as int, j - start);
                    assert(poly@[j] == poly@[j]);
                    assert(poly@[j + len] == poly@[j + len]);
                    assert(pre[j] == old(poly)@[j]);
                    assert(pre[j + len] == old(poly)@[j + len]);
                    assert(zeta_m(128int / (len as int) + j / l2) == zeta as int);
                }
            }
            assert(ct_layer_writes(old(poly)@, poly@, len as int, start as int + l2));
        }
        proof {
            assert((k as int + 1 - k0) * (2 * len as int) == (k as int - k0) * (2
                * len as int) + 2 * len) by (nonlinear_arith);
        }
        start = start + 2 * len;
        k = k + 1;
    }
}

/// The full forward transform: layers 1 through 7. The input must be
/// coefficient-wise smaller than Q in absolute value; the output is bounded
/// by 20800 < 8 * Q.
pub fn poly_ntt(poly: &mut Poly)
    requires
        abs_bounded(old(poly)@, 3328),
    ensures
        forall|i: int| 0 <= i < 256
            ==> mod_q(#[trigger] final(poly)@[i] as int) == ntt_spec(ints(old(poly)@))[i],
        abs_bounded(final(poly)@, 20800),
{
    let mut layer: usize = 1;
    while layer <= 7
        invariant
            1 <= layer <= 8,
            abs_bounded(old(poly)@, 3328),
            abs_bounded(poly@, 3328 + 2496 * (layer - 1)),
            forall|i: int| 0 <= i < 256
                ==> mod_q(#[trigger] poly@[i] as int)
                    == mod_q(ntt_layers_upto(ints(old(poly)@), layer as int - 1)[i]),
        decreases 8 - layer,
    {
        let ghost pre = poly@;
        let ghost upto = ntt_layers_upto(ints(old(poly)@), layer as int - 1);
        ntt_layer(poly, layer, Ghost(3328 + 2496 * (layer as int - 1)));
        proof {
            lemma_ct_layer_congruent(ints(pre), upto, layer_len(layer as int));
            lemma_ct_layer_canonical(upto, layer_len(layer as int));
            assert forall|i: int| 0 <= i < 256 implies mod_q(#[trigger] poly@[i] as int)
                == mod_q(ntt_layers_upto(ints(old(poly)@), layer as int)[i]) by {
                crate::lemma_mod_q_small(ct_layer_spec(upto, layer_len(layer as int))[i]);
            }
        }
        layer += 1;
    }
    proof {
        let p7 = ntt_layers_upto(ints(old(poly)@), 7);
        lemma_ct_layer_canonical(ntt_layers_upto(ints(old(poly)@), 6), 2);
        assert forall|i: int| 0 <= i < 256 implies mod_q(#[trigger] poly@[i] as int)
            == ntt_spec(ints(old(poly)@))[i] by {
            crate::lemma_mod_q_small(p7[i]);
        }
    }
}

} // verus!

verus! {

/// An inverse layer applied to congruent inputs yields equal (canonical)
/// outputs.
pub proof fn lemma_gs_layer_congruent(p: Seq<int>, q: Seq<int>, len: int)
    requires
        p.len() == 256,
        q.len() == 256,
        len == 2 || len == 4 || len == 8 || len == 16 || len == 32 || len == 64 || len == 128,
        forall|i: int| 0 <= i < 256 ==> mod_q(#[trigger] p[i]) == mod_q(q[i]),
    ensures
        forall|i: int| 0 <= i < 256
            ==> #[trigger] gs_layer_spec(p, len)[i] == gs_layer_spec(q, len)[i],
{
    assert forall|i: int| 0 <= i < 256 implies #[trigger] gs_layer_spec(p, len)[i]
        == gs_layer_spec(q, len)[i] by {
        vstd::arithmetic::div_mod::lemma_fundamental_div_mod(i, 2 * len);
        vstd::arithmetic::div_mod::lemma_mod_division_less_than_divisor(i, 2 * len);
        let z = zeta_m(256int / len - 1 - i / (2 * len));
        if i % (2 * len) < len {
            assert(i + len < 256);
            lemma_cong_add(p[i], q[i], p[i + len], q[i + len]);
        } else {
            assert(0 <= i - len);
            lemma_cong_sub(p[i], q[i], p[i - len], q[i - len]);
            lemma_cong_mul(p[i] - p[i - len], q[i] - q[i - len], z);
            lemma_cong_mul((p[i] - p[i - len]) * z, (q[i] - q[i - len]) * z, 169);
        }
    }
}

/// Every output entry of an inverse layer is canonical.
pub proof fn lemma_gs_layer_canonical(p: Seq<int>, len: int)
    requires
        len == 2 || len == 4 || len == 8 || len == 16 || len == 32 || len == 64 || len == 128,
    ensures
        forall|i: int| 0 <= i < 256 ==> 0 <= #[trigger] gs_layer_spec(p, len)[i] < 3329,
{
    assert forall|i: int| 0 <= i < 256 implies 0 <= #[trigger] gs_layer_spec(p, len)[i]
        < 3329 by {
        let z = zeta_m(256int / len - 1 - i / (2 * len));
        if i % (2 * len) < len {
            lemma_mod_q_bounds(p[i] + p[i + len]);
        } else {
            lemma_mod_q_bounds((p[i] - p[i - len]) * z * 169);
        }
    }
}

/// One in-place inverse (Gentleman–Sande) layer: each pair becomes the
/// Barrett-reduced sum and the twiddled difference; the twiddle index runs
/// from 2^layer - 1 downward, one per block. Output coefficients are
/// bounded by 2496 in absolute value.
#[verifier::rlimit(100)]
pub fn invntt_layer(poly: &mut Poly, layer: usize)
    requires
        1 <= layer <= 7,
        abs_bounded(old(poly)@, 16000),
    ensures
        forall|i: int| 0 <= i < 256
            ==> mod_q(#[trigger] final(poly)@[i] as int)
                == gs_layer_spec(ints(old(poly)@), layer_len(layer as int))[i],
        gs_layer_writes(old(poly)@, final(poly)@, layer_len(layer as int), 256),
        abs_bounded(final(poly)@, 2496),
{
    let len: usize = 256 >> layer;
    let k0: usize = 1 << (layer - 1);
    proof {
        assert((256usize >> 1usize) == 128 && (256usize >> 2usize) == 64 && (256usize
            >> 3usize) == 32 && (256usize >> 4usize) == 16 && (256usize >> 5usize) == 8 && (
        256usize >> 6usize) == 4 && (256usize >> 7usize) == 2) by (bit_vector);
        assert((1usize << 0usize) == 1 && (1usize << 1usize) == 2 && (1usize << 2usize) == 4 && (
        1usize << 3usize) == 8 && (1usize << 4usize) == 16 && (1usize << 5usize) == 32 && (1usize
            << 6usize) == 64) by (bit_vector);
        assert(len as int == layer_len(layer as int));
        assert(256int / 2 == 128 && 256int / 4 == 64 && 256int / 8 == 32 && 256int / 16 == 16
            && 256int / 32 == 8 && 256int / 64 == 4 && 256int / 128 == 2);
        if layer == 1 {
            assert(len == 128 && k0 == 1);
        } else if layer == 2 {
            assert(len == 64 && k0 == 2);
        } else if layer == 3 {
            assert(len == 32 && k0 == 4);
        } else if layer == 4 {
            assert(len == 16 && k0 == 8);
        } else if layer == 5 {
            assert(len == 8 && k0 == 16);
        } else if layer == 6 {
            assert(len == 4 && k0 == 32);
        } else {
            assert(len == 2 && k0 == 64);
        }
        assert(2 * len * k0 == 256);
        assert(2 * (k0 as int) == 256int / (len as int));
    }
    let mut start: usize = 0;
    let mut k: usize = 2 * k0 - 1;
    while start < 256
        invariant
            1 <= layer <= 7,
            len as int == layer_len(layer as int),
            1 <= len <= 128,
            2 * (k0 as int) == 256int / (len as int),
            2 * len * k0 == 256,
            1 <= k0,
            k + 1 + ((start as int) / (2 * (len as int))) == 2 * k0,
            (start as int) % (2 * (len as int)) == 0,
            start <= 256,
            abs_bounded(old(poly)@, 16000),
            forall|i: int| start <= i < 256 ==> #[trigger] poly@[i] == old(poly)@[i],
            forall|i: int| 0 <= i < start
                ==> mod_q(#[trigger] poly@[i] as int)
                    == gs_layer_spec(ints(old(poly)@), len as int)[i],
            gs_layer_writes(old(poly)@, poly@, len as int, start as int),
            forall|i: int| 0 <= i < start ==> -2496 <= #[trigger] poly@[i] <= 2496,
        decreases 256 - start,
    {
        proof {
            assert(start + 2 * len <= 256) by (nonlinear_arith)
                requires
                    start < 256,
                    (start as int) % (2 * (len as int)) == 0,
                    2 * len * k0 == 256,
                    1 <= len,
                    1 <= k0,
            ;
            assert((start as int + 2 * (len as int)) % (2 * (len as int)) == 0) by (nonlinear_arith)
                requires
                    (start as int) % (2 * (len as int)) == 0,
                    1 <= len,
            ;
            assert((start as int) / (2 * (len as int)) < k0) by (nonlinear_arith)
                requires
                    start < 256,
                    (start as int) % (2 * (len as int)) == 0,
                    2 * len * k0 == 256,
                    1 <= len,
                    1 <= k0,
            ;
            assert((start as int + 2 * (len as int)) / (2 * (len as int)) == (start as int) / (2 * (len as int)) + 1) by (nonlinear_arith)
                requires
                    1 <= len,
            ;
        }
        let zeta: i16 = ZETAS[k];
        proof {
            crate::zetas::lemma_zetas_canonical(k as int);
        }
        let ghost pre = poly@;
        proof {
            assert(gs_layer_writes(old(poly)@, pre, len as int, start as int));
        }
        let mut j = start;
        while j < start + len
            invariant
                -1664 <= zeta <= 1664,
                1 <= len,
                start + 2 * len <= 256,
                start <= j <= start + len,
                abs_bounded(old(poly)@, 16000),
                forall|i: int| 0 <= i < start ==> #[trigger] poly@[i] == pre[i],
                forall|i: int| j <= i < start + len ==> #[trigger] poly@[i] == old(poly)@[i],
                forall|i: int| j + len <= i < start + 2 * len
                    ==> #[trigger] poly@[i] == old(poly)@[i],
                forall|i: int| (start + 2 * len <= i < 256) ==> #[trigger] poly@[i] == old(
                    poly,
                )@[i],
                forall|i: int| 0 <= i < start
                    ==> mod_q(#[trigger] poly@[i] as int)
                        == gs_layer_spec(ints(old(poly)@), len as int)[i],
                forall|i: int| 0 <= i < start ==> -2496 <= #[trigger] poly@[i] <= 2496,
                forall|i: int| #![trigger poly@[i]] #![trigger poly@[i + len]] start <= i < j
                    ==> {
                    &&& -1664 <= poly@[i] <= 1664
                    &&& mod_q(poly@[i] as int) == mod_q(
                        old(poly)@[i] + old(poly)@[i + len],
                    )
                    &&& -2496 <= poly@[i + len] <= 2496
                    &&& mod_q(poly@[i + len] as int) == mod_q(
                        (old(poly)@[i + len] - old(poly)@[i]) * zeta * 169,
                    )
                    &&& (old(poly)@[i + len] - old(poly)@[i]) * zeta - 109084672 <= poly@[i
                        + len] * 65536 <= (old(poly)@[i + len] - old(poly)@[i]) * zeta
                        + 109084672
                },
            decreases start + len - j,
        {
            let t: i16 = poly.coeffs[j];
            let v: i16 = barrett_reduce(t + poly.coeffs[j + len]);
            poly.coeffs[j] = v;
            let diff: i16 = poly.coeffs[j + len] - t;
            let w: i16 = fqmul(diff, zeta);
            proof {
                lemma_unmont(w as int, (diff as int) * (zeta as int));
            }
            poly.coeffs[j + len] = w;
            j += 1;
        }
        proof {
            let p0 = ints(old(poly)@);
            assert forall|i: int| start <= i < start + 2 * len implies mod_q(
                #[trigger] poly@[i] as int,
            ) == gs_layer_spec(p0, len as int)[i] && -2496 <= poly@[i] <= 2496 by {
                let l2 = 2 * (len as int);
                vstd::arithmetic::div_mod::lemma_fundamental_div_mod(start as int, l2);
                lemma_fundamental_div_mod_converse(i, l2, (start as int) / l2, i - start);
                let z = zeta_m(256int / (len as int) - 1 - i / l2);
                assert(i / l2 == (start as int) / l2);
                assert(z == zeta as int);
                assert(i % l2 == i - start);
                if i - start < len {
                    assert(poly@[i] == poly@[i]);
                    assert(mod_q(poly@[i] as int) == mod_q(
                        old(poly)@[i] + old(poly)@[i + len]));
                    assert(p0[i] == old(poly)@[i] as int);
                    assert(p0[i + len] == old(poly)@[i + len] as int);
                    assert(gs_layer_spec(p0, len as int)[i] == mod_q(p0[i] + p0[i + len]));
                } else {
                    let jj = i - len;
                    assert(i == jj + len);
                    assert(poly@[jj] == poly@[jj]);
                    assert(poly@[jj + len] == poly@[i]);
                    assert(mod_q(poly@[i] as int) == mod_q(
                        (old(poly)@[i] - old(poly)@[jj]) * zeta * 169));
                    assert(p0[i] == old(poly)@[i] as int);
                    assert(p0[jj] == old(poly)@[jj] as int);
                    assert(gs_layer_spec(p0, len as int)[i] == mod_q(
                        (p0[i] - p0[i - len]) * z * 169));
                }
            }
            let l2w = 2 * (len as int);
            assert forall|j: int| #![trigger poly@[j]]
                0 <= j < start + 2 * len && j % l2w < len implies ({
                let z = zeta_m(256int / (len as int) - 1 - j / l2w);
                &&& -1664 <= poly@[j] <= 1664
                &&& mod_q(poly@[j] as int) == mod_q(old(poly)@[j] + old(poly)@[j + len])
                &&& -2496 <= poly@[j + len] <= 2496
                &&& mod_q(poly@[j + len] as int) == mod_q(
                    (old(poly)@[j + len] - old(poly)@[j]) * z * 169,
                )
                &&& (old(poly)@[j + len] - old(poly)@[j]) * z - 109084672 <= poly@[j + len]
                    * 65536 <= (old(poly)@[j + len] - old(poly)@[j]) * z + 109084672
            }) by {
                vstd::arithmetic::div_mod::lemma_fundamental_div_mod(j, l2w);
                vstd::arithmetic::div_mod::lemma_mod_division_less_than_divisor(j, l2w);
                vstd::arithmetic::div_mod::lemma_fundamental_div_mod(start as int, l2w);
                let sm = (start as int) / l2w;
                if j < start {
                    // within an earlier block, whose partner also precedes start
                    let qj = j / l2w;
                    let rj = j % l2w;
                    assert(j + len < start) by (nonlinear_arith)
                        requires
                            j == l2w * qj + rj,
                            0 <= rj < len,
                            j < start,
                            start as int == l2w * sm,
                            l2w == 2 * (len as int),
                            1 <= len,
                    ;
                    assert(pre[j] == pre[j]);
                    assert(pre[j + len] == pre[j + len]);
                    assert(poly@[j] == pre[j]);
                    assert(poly@[j + len] == pre[j + len]);
                } else {
                    lemma_fundamental_div_mod_converse(j, l2w, sm, j - start);
                    assert(zeta_m(256int / (len as int) - 1 - j / l2w) == zeta as int);
                    assert(poly@[j] == poly@[j]);
                    assert(poly@[j + len] == poly@[j + len]);
                }
            }
            assert(gs_layer_writes(old(poly)@, poly@, len as int, start as int + l2w));
        }
        start = start + 2 * len;
        k = k - 1;
    }

}

/// The inverse transform: multiply by the fixed Montgomery constant 1441,
/// then run the inverse layers from 7 down to 1. Accepts any coefficient
/// values; the output is bounded by 2496 < Q in absolute value.
pub fn invntt_tomont(poly: &mut Poly)
    ensures
        forall|i: int| 0 <= i < 256
            ==> mod_q(#[trigger] final(poly)@[i] as int) == invntt_spec(ints(old(poly)@))[i],
        abs_bounded(final(poly)@, 2496),
{
    for j in 0..256usize
        invariant
            forall|i: int| j <= i < 256 ==> #[trigger] poly@[i] == old(poly)@[i],
            forall|i: int| 0 <= i < j
                ==> mod_q(#[trigger] poly@[i] as int) == mod_q(old(poly)@[i] * 243529),
            forall|i: int| 0 <= i < j ==> -2496 <= #[trigger] poly@[i] <= 2496,
    {
        let c: i16 = poly.coeffs[j];
        let m: i16 = fqmul(c, 1441);
        poly.coeffs[j] = m;
        proof {
            lemma_unmont(m as int, (c as int) * 1441);
        }
    }
    proof {
        let p0 = ints(old(poly)@);
        assert forall|i: int| 0 <= i < 256 implies mod_q(#[trigger] poly@[i] as int) == mod_q(
            invntt_layers_upto(p0, 0)[i],
        ) by {
            lemma_mod_twice(p0[i] * 243529, 3329);
        }
    }
    let ghost start_scaled = poly@;
    let ghost p0 = ints(old(poly)@);
    let mut n: usize = 0;
    while n < 7
        invariant
            0 <= n <= 7,
            p0 == ints(old(poly)@),
            abs_bounded(poly@, 2496),
            forall|i: int| 0 <= i < 256
                ==> mod_q(#[trigger] poly@[i] as int)
                    == mod_q(invntt_layers_upto(p0, n as int)[i]),
        decreases 7 - n,
    {
        let layer: usize = 7 - n;
        let ghost pre = poly@;
        let ghost upto = invntt_layers_upto(p0, n as int);
        invntt_layer(poly, layer);
        proof {
            lemma_gs_layer_congruent(ints(pre), upto, layer_len(layer as int));
            lemma_gs_layer_canonical(upto, layer_len(layer as int));
            assert forall|i: int| 0 <= i < 256 implies mod_q(#[trigger] poly@[i] as int)
                == mod_q(invntt_layers_upto(p0, n as int + 1)[i]) by {
                crate::lemma_mod_q_small(gs_layer_spec(upto, layer_len(layer as int))[i]);
            }
        }
        n += 1;
    }
    proof {
        let p7 = invntt_layers_upto(p0, 7);
        lemma_gs_layer_canonical(invntt_layers_upto(p0, 6), 128);
        assert forall|i: int| 0 <= i < 256 implies mod_q(#[trigger] poly@[i] as int)
            == invntt_spec(p0)[i] by {
            crate::lemma_mod_q_small(p7[i]);
        }
    }
}

} // verus!

verus! {

/// 2^m for the layer counts used here.
pub open spec fn two_pow(m: int) -> int {
    if m <= 0 {
        1
    } else if m == 1 {
        2
    } else if m == 2 {
        4
    } else if m == 3 {
        8
    } else if m == 4 {
        16
    } else if m == 5 {
        32
    } else if m == 6 {
        64
    } else {
        128
    }
}

/// The heart of the round-trip law: an inverse layer undoes the matching
/// forward layer up to a factor of two, for any interleaved scaling. The
/// twiddles cancel because paired table entries multiply to -R^2 modulo Q.
pub proof fn lemma_gs_scale_ct_sandwich(y: Seq<int>, c: int, len: int)
    requires
        y.len() == 256,
        len == 2 || len == 4 || len == 8 || len == 16 || len == 32 || len == 64 || len == 128,
    ensures
        forall|i: int| 0 <= i < 256
            ==> #[trigger] gs_layer_spec(scale_spec(ct_layer_spec(y, len), c), len)[i]
                == mod_q(y[i] * (2 * c)),
{
    let cl = ct_layer_spec(y, len);
    let sl = scale_spec(cl, c);
    assert(128int / 2 == 64 && 128int / 4 == 32 && 128int / 8 == 16 && 128int / 16 == 8 && 128int
        / 32 == 4 && 128int / 64 == 2 && 128int / 128 == 1);
    assert(256int / 2 == 128 && 256int / 4 == 64 && 256int / 8 == 32 && 256int / 16 == 16
        && 256int / 32 == 8 && 256int / 64 == 4 && 256int / 128 == 2);
    assert forall|i: int| 0 <= i < 256 implies #[trigger] gs_layer_spec(sl, len)[i] == mod_q(
        y[i] * (2 * c),
    ) by {
        let l2 = 2 * len;
        vstd::arithmetic::div_mod::lemma_fundamental_div_mod(i, l2);
        vstd::arithmetic::div_mod::lemma_mod_division_less_than_divisor(i, l2);
        let b = i / l2;
        let h = 128int / len;
        let z = zeta_m(h + b);
        let zp = zeta_m(2 * h - 1 - b);
        assert(0 <= b < h) by (nonlinear_arith)
            requires
                0 <= i < 256,
                i == l2 * b + i % l2,
                0 <= i % l2 < l2,
                l2 == 2 * len,
                h * l2 == 256,
        ;
        assert(256int / len == 2 * h);
        if i % l2 < len {
            assert(i + len < 256);
            lemma_fundamental_div_mod_converse(i + len, l2, b, i % l2 + len);
            assert(sl[i] == mod_q(cl[i] * c));
            assert(sl[i + len] == mod_q(cl[i + len] * c));
            lemma_mod_twice(cl[i] * c, 3329);
            lemma_mod_twice(cl[i + len] * c, 3329);
            lemma_cong_add(sl[i] as int, cl[i] * c, sl[i + len] as int, cl[i + len] * c);
            // the two halves of the forward layer at this pair
            assert(cl[i] == mod_q(y[i] + y[i + len] * z * 169));
            assert(cl[i + len] == mod_q(y[i] - y[i + len] * z * 169));
            lemma_mod_twice(y[i] + y[i + len] * z * 169, 3329);
            lemma_cong_mul(cl[i] as int, y[i] + y[i + len] * z * 169, c);
            lemma_mod_twice(y[i] - y[i + len] * z * 169, 3329);
            lemma_cong_mul(cl[i + len] as int, y[i] - y[i + len] * z * 169, c);
            lemma_cong_add(
                cl[i] * c,
                (y[i] + y[i + len] * z * 169) * c,
                cl[i + len] * c,
                (y[i] - y[i + len] * z * 169) * c,
            );
            assert((y[i] + y[i + len] * z * 169) * c + (y[i] - y[i + len] * z * 169) * c == y[i]
                * (2 * c)) by (nonlinear_arith);
        } else {
            let j = i - len;
            lemma_fundamental_div_mod_converse(j, l2, b, i % l2 - len);
            assert(sl[i] == mod_q(cl[i] * c));
            assert(sl[j] == mod_q(cl[j] * c));
            lemma_mod_twice(cl[i] * c, 3329);
            lemma_mod_twice(cl[j] * c, 3329);
            lemma_cong_sub(sl[i] as int, cl[i] * c, sl[j] as int, cl[j] * c);
            lemma_cong_mul(sl[i] - sl[j], cl[i] * c - cl[j] * c, zp);
            lemma_cong_mul((sl[i] - sl[j]) * zp, (cl[i] * c - cl[j] * c) * zp, 169);
            // the two halves of the forward layer at this pair
            assert(cl[i] == mod_q(y[j] - y[i] * z * 169));
            assert(cl[j] == mod_q(y[j] + y[i] * z * 169));
            lemma_mod_twice(y[j] - y[i] * z * 169, 3329);
            lemma_cong_mul(cl[i] as int, y[j] - y[i] * z * 169, c);
            lemma_mod_twice(y[j] + y[i] * z * 169, 3329);
            lemma_cong_mul(cl[j] as int, y[j] + y[i] * z * 169, c);
            lemma_cong_sub(
                cl[i] * c,
                (y[j] - y[i] * z * 169) * c,
                cl[j] * c,
                (y[j] + y[i] * z * 169) * c,
            );
            lemma_cong_mul(
                cl[i] * c - cl[j] * c,
                (y[j] - y[i] * z * 169) * c - (y[j] + y[i] * z * 169) * c,
                zp,
            );
            lemma_cong_mul(
                (cl[i] * c - cl[j] * c) * zp,
                ((y[j] - y[i] * z * 169) * c - (y[j] + y[i] * z * 169) * c) * zp,
                169,
            );
            assert(((y[j] - y[i] * z * 169) * c - (y[j] + y[i] * z * 169) * c) * zp * 169 == (y[i]
                * (2 * c)) * (-(z * zp * 28561))) by (nonlinear_arith);
            crate::zetas::lemma_zeta_pair(h, h + b);
            assert(zeta_m(3 * h - 1 - (h + b)) == zp);
            assert(mod_q(z * zp * 28561) == 3328);
            lemma_cong_sub(0, 0, z * zp * 28561, 3328);
            assert(mod_q(-(z * zp * 28561)) == mod_q(-3328int));
            crate::lemma_mul_const_cong(y[i] * (2 * c), -(z * zp * 28561), 1);
            assert((y[i] * (2 * c)) * 1 == y[i] * (2 * c)) by (nonlinear_arith);
        }
    }
}

/// After m inverse layers, the inverse of the full forward transform equals
/// the remaining 7 - m forward layers scaled by 2^m * 1441 * 169.
pub proof fn lemma_roundtrip_aux(p: Seq<int>, m: int)
    requires
        p.len() == 256,
        0 <= m <= 7,
    ensures
        forall|i: int| 0 <= i < 256
            ==> #[trigger] invntt_layers_upto(ntt_layers_upto(p, 7), m)[i]
                == mod_q(ntt_layers_upto(p, 7 - m)[i] * (two_pow(m) * 243529)),
    decreases m,
{
    let x7 = ntt_layers_upto(p, 7);
    if m == 0 {
        assert forall|i: int| 0 <= i < 256 implies #[trigger] invntt_layers_upto(x7, 0)[i]
            == mod_q(x7[i] * (two_pow(0) * 243529)) by {
            assert(invntt_layers_upto(x7, 0)[i] == mod_q(x7[i] * (1441int * 169)));
        }
    } else {
        lemma_roundtrip_aux(p, m - 1);
        let prev = invntt_layers_upto(x7, m - 1);
        let lenm = layer_len(8 - m);
        let xrest = ntt_layers_upto(p, 7 - m);
        let cm1 = two_pow(m - 1) * 243529;
        // the m-1 result is exactly the scaled remaining forward layers
        let scaled = scale_spec(ntt_layers_upto(p, 7 - (m - 1)), cm1);
        assert forall|i: int| 0 <= i < 256 implies mod_q(#[trigger] prev[i]) == mod_q(
            scaled[i],
        ) by {
            assert(scaled[i] == mod_q(ntt_layers_upto(p, 8 - m)[i] * cm1));
        }
        lemma_gs_layer_congruent(prev, scaled, lenm);
        // the remaining forward layers end with a forward layer of the same width
        assert(ntt_layers_upto(p, 8 - m) == ct_layer_spec(xrest, layer_len(8 - m)));
        lemma_gs_scale_ct_sandwich(xrest, cm1, lenm);
        assert forall|i: int| 0 <= i < 256 implies #[trigger] invntt_layers_upto(x7, m)[i]
            == mod_q(xrest[i] * (two_pow(m) * 243529)) by {
            assert(invntt_layers_upto(x7, m)[i] == gs_layer_spec(prev, lenm)[i]);
            assert(gs_layer_spec(prev, lenm)[i] == gs_layer_spec(scaled, lenm)[i]);
            assert(gs_layer_spec(scale_spec(ct_layer_spec(xrest, lenm), cm1), lenm)[i] == mod_q(
                xrest[i] * (2 * cm1)));
            assert(2 * cm1 == two_pow(m) * 243529);
        }
    }
}

/// The NTT round-trip law: running the inverse transform after the forward
/// transform multiplies every coefficient by R = 2^16 modulo Q, which is
/// exactly what the to-Montgomery scaling does to the original polynomial.
pub proof fn lemma_ntt_roundtrip(p: Seq<int>)
    requires
        p.len() == 256,
    ensures
        forall|i: int| 0 <= i < 256
            ==> #[trigger] invntt_spec(ntt_spec(p))[i] == mod_q(p[i] * 65536),
{
    lemma_roundtrip_aux(p, 7);
    assert forall|i: int| 0 <= i < 256 implies #[trigger] invntt_spec(ntt_spec(p))[i] == mod_q(
        p[i] * 65536,
    ) by {
        assert(invntt_layers_upto(ntt_layers_upto(p, 7), 7)[i] == mod_q(
            ntt_layers_upto(p, 0)[i] * (two_pow(7) * 243529)));
        crate::lemma_mul_const_cong(p[i], two_pow(7) * 243529, 65536);
    }
}

} // verus!
