//! Noise and matrix sampling: centered binomial noise from PRF output, and
//! rejection sampling of uniform ring elements from an XOF stream.

use vstd::prelude::*;
use vstd::arithmetic::div_mod::{
    lemma_mod_division_less_than_divisor, lemma_mod_multiples_vanish,
};
use crate::mod_q;
use crate::codec::{pw2, pw2e};
use crate::poly::{canonical, Poly};

verus! {

/// Bit `i` of a byte string, little-endian within each byte.
pub open spec fn stream_bit(b: Seq<u8>, i: int) -> int {
    ((b[i / 8] as int) / pw2(i % 8)) % 2
}

/// Coefficient `i` of the centered binomial sample of width `eta` over a
/// buffer of eta * N / 4 bytes: the difference of two eta-bit Hamming
/// weights, mapped into [0, Q).
pub open spec fn cbd_coeff(b: Seq<u8>, i: int, eta: int) -> int {
    if eta == 3 {
        mod_q(
            stream_bit(b, 6 * i) + stream_bit(b, 6 * i + 1) + stream_bit(b, 6 * i + 2)
                - stream_bit(b, 6 * i + 3) - stream_bit(b, 6 * i + 4) - stream_bit(
                b,
                6 * i + 5,
            ),
        )
    } else {
        mod_q(
            stream_bit(b, 4 * i) + stream_bit(b, 4 * i + 1) - stream_bit(b, 4 * i + 2)
                - stream_bit(b, 4 * i + 3),
        )
    }
}

/// The full centered binomial sample as a coefficient sequence.
pub open spec fn cbd_spec(b: Seq<u8>, eta: int) -> Seq<int> {
    Seq::new(256, |i: int| cbd_coeff(b, i, eta))
}

/// One bit of the buffer, extracted arithmetically (no data-dependent
/// control flow).
fn get_bit(buf: &Vec<u8>, bit: usize) -> (r: u16)
    requires
        bit / 8 < buf@.len(),
        bit % 8 <= 7,
    ensures
        r as int == stream_bit(buf@, bit as int),
        r <= 1,
{
    let byte: u16 = buf[bit / 8] as u16;
    let r: u16 = (byte / (pw2e(bit % 8) as u16)) % 2;
    proof {
        lemma_mod_division_less_than_divisor((byte as int) / pw2((bit % 8) as int), 2);
    }
    r
}

/// Centered binomial sampling with eta = 3: consumes 192 PRF bytes and
/// yields canonical coefficients congruent to values in [-3, 3].
pub fn poly_cbd_eta1(buf: &Vec<u8>) -> (r: Poly)
    requires
        buf@.len() == 192,
    ensures
        forall|i: int| 0 <= i < 256 ==> #[trigger] r@[i] as int == cbd_spec(buf@, 3)[i],
        canonical(r@),
{
    let mut r = Poly::new();
    for i in 0..256usize
        invariant
            buf@.len() == 192,
            forall|j: int| 0 <= j < i ==> #[trigger] r@[j] as int == cbd_spec(buf@, 3)[j],
            forall|j: int| 0 <= j < i ==> 0 <= #[trigger] r@[j] < 3329,
    {
        let a: u16 = get_bit(buf, 6 * i) + get_bit(buf, 6 * i + 1) + get_bit(buf, 6 * i + 2);
        let b: u16 = get_bit(buf, 6 * i + 3) + get_bit(buf, 6 * i + 4) + get_bit(buf, 6 * i + 5);
        let c: u16 = (a + 3329 - b) % 3329;
        r.coeffs[i] = c as i16;
        proof {
            lemma_mod_multiples_vanish(1, a as int - b as int, 3329);
            lemma_mod_division_less_than_divisor(a as int + 3329 - b, 3329);
        }
    }
    r
}

/// Centered binomial sampling with eta = 2: consumes 128 PRF bytes and
/// yields canonical coefficients congruent to values in [-2, 2].
pub fn poly_cbd_eta2(buf: &Vec<u8>) -> (r: Poly)
    requires
        buf@.len() == 128,
    ensures
        forall|i: int| 0 <= i < 256 ==> #[trigger] r@[i] as int == cbd_spec(buf@, 2)[i],
        canonical(r@),
{
    let mut r = Poly::new();
    for i in 0..256usize
        invariant
            buf@.len() == 128,
            forall|j: int| 0 <= j < i ==> #[trigger] r@[j] as int == cbd_spec(buf@, 2)[j],
            forall|j: int| 0 <= j < i ==> 0 <= #[trigger] r@[j] < 3329,
    {
        let a: u16 = get_bit(buf, 4 * i) + get_bit(buf, 4 * i + 1);
        let b: u16 = get_bit(buf, 4 * i + 2) + get_bit(buf, 4 * i + 3);
        let c: u16 = (a + 3329 - b) % 3329;
        r.coeffs[i] = c as i16;
        proof {
            lemma_mod_multiples_vanish(1, a as int - b as int, 3329);
            lemma_mod_division_less_than_divisor(a as int + 3329 - b, 3329);
        }
    }
    r
}

/// The 12-bit candidates carried by an XOF buffer, two per three bytes.
pub open spec fn rej_candidates(b: Seq<u8>, t: int) -> int {
    if t % 2 == 0 {
        b[3 * (t / 2)] + 256 * ((b[3 * (t / 2) + 1] as int) % 16)
    } else {
        (b[3 * (t / 2) + 1] as int) / 16 + 16 * (b[3 * (t / 2) + 2] as int)
    }
}

/// The coefficients accepted among the first `n` candidates: candidates
/// below Q are kept in order until 256 have been collected.
pub open spec fn rej_acc(b: Seq<u8>, n: int) -> Seq<int>
    decreases n,
{
    if n <= 0 {
        Seq::empty()
    } else {
        let pre = rej_acc(b, n - 1);
        if pre.len() < 256 && rej_candidates(b, n - 1) < 3329 {
            pre.push(rej_candidates(b, n - 1))
        } else {
            pre
        }
    }
}

/// Uniform rejection sampling over a fixed XOF buffer: splits the buffer
/// into 12-bit candidates and keeps those below Q, in order. Returns the
/// polynomial exactly when the buffer carries at least 256 such candidates;
/// the rejection rate depends only on Q, never on secrets.
pub fn uniform_from_bytes(buf: &Vec<u8>) -> (r: Option<Poly>)
    requires
        buf@.len() == 840,
    ensures
        r is Some <==> rej_acc(buf@, 560).len() == 256,
        r is Some ==> forall|i: int| 0 <= i < 256
            ==> #[trigger] r->Some_0@[i] as int == rej_acc(buf@, 560)[i],
        r is Some ==> canonical(r->Some_0@),
{
    let mut p = Poly::new();
    let mut ctr: usize = 0;
    let mut t: usize = 0;
    while t < 560
        invariant
            buf@.len() == 840,
            t % 2 == 0,
            0 <= t <= 560,
            ctr == rej_acc(buf@, t as int).len(),
            ctr <= 256,
            forall|j: int| 0 <= j < ctr
                ==> #[trigger] p@[j] as int == rej_acc(buf@, t as int)[j],
            forall|j: int| 0 <= j < ctr ==> 0 <= #[trigger] p@[j] < 3329,
        decreases 560 - t,
    {
        let g: usize = t / 2;
        let b0: u16 = buf[3 * g] as u16;
        let b1: u16 = buf[3 * g + 1] as u16;
        let b2: u16 = buf[3 * g + 2] as u16;
        let v0: u16 = b0 + 256 * (b1 % 16);
        let v1: u16 = b1 / 16 + 16 * b2;
        proof {
            vstd::arithmetic::div_mod::lemma_fundamental_div_mod_converse(
                t as int,
                2,
                g as int,
                0,
            );
            assert(rej_candidates(buf@, t as int) == v0 as int);
            vstd::arithmetic::div_mod::lemma_fundamental_div_mod_converse(
                t as int + 1,
                2,
                g as int,
                1,
            );
            assert(rej_candidates(buf@, t as int + 1) == v1 as int);
        }
        if ctr < 256 && v0 < 3329 {
            p.coeffs[ctr] = v0 as i16;
            ctr += 1;
        }
        proof {
            assert(ctr == rej_acc(buf@, t as int + 1).len());
        }
        if ctr < 256 && v1 < 3329 {
            p.coeffs[ctr] = v1 as i16;
            ctr += 1;
        }
        proof {
            assert(ctr == rej_acc(buf@, t as int + 2).len());
        }
        t += 2;
    }
    if ctr == 256 {
        Some(p)
    } else {
        None
    }
}

} // verus!
