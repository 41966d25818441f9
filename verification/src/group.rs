//! The Chaum-Pedersen proof engine.
//!
//! A prover who knows the discrete logarithm `x` of the commitment pair
//! `(alpha^x mod p, beta^x mod p)` picks a fresh nonce `k`, sends the round
//! commitments `(alpha^k mod p, beta^k mod p)`, receives a challenge `c`, and
//! answers with `s = (k - c * x) mod q`.  The verifier accepts when
//! `alpha^s * y1^c mod p` and `beta^s * y2^c mod p` reproduce the round
//! commitments.  `lemma_proof_soundness` proves that an honest response is
//! always accepted whenever both generators have order `q` modulo `p`.
use vstd::arithmetic::div_mod::{
    lemma_add_mod_noop, lemma_fundamental_div_mod, lemma_mod_bound, lemma_mod_multiples_vanish,
    lemma_mod_self_0, lemma_mod_twice, lemma_mul_mod_noop_general, lemma_small_mod,
};
use vstd::arithmetic::mul::{
    lemma_mul_is_commutative, lemma_mul_is_distributive_add, lemma_mul_unary_negation,
};
use vstd::arithmetic::power::{
    lemma1_pow, lemma_pow_adds, lemma_pow_mod_noop, lemma_pow_multiplies, pow,
};
use vstd::prelude::*;
use vstd::slice::slice_to_vec;

use num_bigint::{BigUint, RandBigInt};

use crate::bignum::{
    canon_be, eq_value, ge_be, is_canon_be, lemma_canon_be_value, lemma_nat_of_be_large,
    modpow_be, mul_be, nat_of_be, pow_mod, rem_be, sub_be,
};

verus! {

/// The 1024-bit prime modulus of the fixed group (RFC 5114, group 22),
/// as big-endian bytes.
pub open spec fn modulus_be() -> Seq<u8> {
    seq![
        0xb1u8, 0x0bu8, 0x8fu8, 0x96u8, 0xa0u8, 0x80u8, 0xe0u8, 0x1du8, 0xdeu8, 0x92u8,
        0xdeu8, 0x5eu8, 0xaeu8, 0x5du8, 0x54u8, 0xecu8, 0x52u8, 0xc9u8, 0x9fu8, 0xbcu8,
        0xfbu8, 0x06u8, 0xa3u8, 0xc6u8, 0x9au8, 0x6au8, 0x9du8, 0xcau8, 0x52u8, 0xd2u8,
        0x3bu8, 0x61u8, 0x60u8, 0x73u8, 0xe2u8, 0x86u8, 0x75u8, 0xa2u8, 0x3du8, 0x18u8,
        0x98u8, 0x38u8, 0xefu8, 0x1eu8, 0x2eu8, 0xe6u8, 0x52u8, 0xc0u8, 0x13u8, 0xecu8,
        0xb4u8, 0xaeu8, 0xa9u8, 0x06u8, 0x11u8, 0x23u8, 0x24u8, 0x97u8, 0x5cu8, 0x3cu8,
        0xd4u8, 0x9bu8, 0x83u8, 0xbfu8, 0xacu8, 0xcbu8, 0xddu8, 0x7du8, 0x90u8, 0xc4u8,
        0xbdu8, 0x70u8, 0x98u8, 0x48u8, 0x8eu8, 0x9cu8, 0x21u8, 0x9au8, 0x73u8, 0x72u8,
        0x4eu8, 0xffu8, 0xd6u8, 0xfau8, 0xe5u8, 0x64u8, 0x47u8, 0x38u8, 0xfau8, 0xa3u8,
        0x1au8, 0x4fu8, 0xf5u8, 0x5bu8, 0xccu8, 0xc0u8, 0xa1u8, 0x51u8, 0xafu8, 0x5fu8,
        0x0du8, 0xc8u8, 0xb4u8, 0xbdu8, 0x45u8, 0xbfu8, 0x37u8, 0xdfu8, 0x36u8, 0x5cu8,
        0x1au8, 0x65u8, 0xe6u8, 0x8cu8, 0xfdu8, 0xa7u8, 0x6du8, 0x4du8, 0xa7u8, 0x08u8,
        0xdfu8, 0x1fu8, 0xb2u8, 0xbcu8, 0x2eu8, 0x4au8, 0x43u8, 0x71u8,
    ]
}

/// The 160-bit prime order of the subgroup, as big-endian bytes.
pub open spec fn order_be() -> Seq<u8> {
    seq![
        0xf5u8, 0x18u8, 0xaau8, 0x87u8, 0x81u8, 0xa8u8, 0xdfu8, 0x27u8, 0x8au8, 0xbau8,
        0x4eu8, 0x7du8, 0x64u8, 0xb7u8, 0xcbu8, 0x9du8, 0x49u8, 0x46u8, 0x23u8, 0x53u8,
    ]
}

/// The first generator of the order-`q` subgroup, as big-endian bytes.
pub open spec fn generator_be() -> Seq<u8> {
    seq![
        0xa4u8, 0xd1u8, 0xcbu8, 0xd5u8, 0xc3u8, 0xfdu8, 0x34u8, 0x12u8, 0x67u8, 0x65u8,
        0xa4u8, 0x42u8, 0xefu8, 0xb9u8, 0x99u8, 0x05u8, 0xf8u8, 0x10u8, 0x4du8, 0xd2u8,
        0x58u8, 0xacu8, 0x50u8, 0x7fu8, 0xd6u8, 0x40u8, 0x6cu8, 0xffu8, 0x14u8, 0x26u8,
        0x6du8, 0x31u8, 0x26u8, 0x6fu8, 0xeau8, 0x1eu8, 0x5cu8, 0x41u8, 0x56u8, 0x4bu8,
        0x77u8, 0x7eu8, 0x69u8, 0x0fu8, 0x55u8, 0x04u8, 0xf2u8, 0x13u8, 0x16u8, 0x02u8,
        0x17u8, 0xb4u8, 0xb0u8, 0x1bu8, 0x88u8, 0x6au8, 0x5eu8, 0x91u8, 0x54u8, 0x7fu8,
        0x9eu8, 0x27u8, 0x49u8, 0xf4u8, 0xd7u8, 0xfbu8, 0xd7u8, 0xd3u8, 0xb9u8, 0xa9u8,
        0x2eu8, 0xe1u8, 0x90u8, 0x9du8, 0x0du8, 0x22u8, 0x63u8, 0xf8u8, 0x0au8, 0x76u8,
        0xa6u8, 0xa2u8, 0x4cu8, 0x08u8, 0x7au8, 0x09u8, 0x1fu8, 0x53u8, 0x1du8, 0xbfu8,
        0x0au8, 0x01u8, 0x69u8, 0xb6u8, 0xa2u8, 0x8au8, 0xd6u8, 0x62u8, 0xa4u8, 0xd1u8,
        0x8eu8, 0x73u8, 0xafu8, 0xa3u8, 0x2du8, 0x77u8, 0x9du8, 0x59u8, 0x18u8, 0xd0u8,
        0x8bu8, 0xc8u8, 0x85u8, 0x8fu8, 0x4du8, 0xceu8, 0xf9u8, 0x7cu8, 0x2au8, 0x24u8,
        0x85u8, 0x5eu8, 0x6eu8, 0xebu8, 0x22u8, 0xb3u8, 0xb2u8, 0xe5u8,
    ]
}

/// The fixed secret exponent that derives the second generator from the
/// first, as big-endian bytes.
pub open spec fn generator_exp_be() -> Seq<u8> {
    seq![
        0x26u8, 0x6fu8, 0xeau8, 0x1eu8, 0x5cu8, 0x41u8, 0x56u8, 0x4bu8, 0x77u8, 0x7eu8,
        0x69u8,
    ]
}

/// The fixed discrete-log group and the proof primitives over it.
///
/// All four constants are unsigned big-endian byte strings.  The intended
/// values satisfy `wf`; the methods only need those bounds, not primality.
pub struct ChaumPedersen {
    pub p: Vec<u8>,
    pub q: Vec<u8>,
    pub alpha: Vec<u8>,
    pub beta: Vec<u8>,
}

/// The response to challenge `c` for secret `x` and nonce `k`:
/// `(k - c * x) mod q`, computed over the integers, so always in `[0, q)`.
pub open spec fn spec_solve(k: nat, c: nat, x: nat, q: nat) -> nat
    recommends
        q > 0,
{
    (((k as int) - (c as int) * (x as int)) % (q as int)) as nat
}

/// One verification equation: `r == g^s * y^c mod p`.
pub open spec fn spec_verify_eq(p: nat, g: nat, y: nat, r: nat, c: nat, s: nat) -> bool
    recommends
        p > 0,
{
    r == (pow_mod(g, s, p) * pow_mod(y, c, p)) % p
}

/// Both verification equations of the protocol.
pub open spec fn spec_verify(
    p: nat,
    alpha: nat,
    beta: nat,
    y1: nat,
    y2: nat,
    r1: nat,
    r2: nat,
    c: nat,
    s: nat,
) -> bool
    recommends
        p > 0,
{
    spec_verify_eq(p, alpha, y1, r1, c, s) && spec_verify_eq(p, beta, y2, r2, c, s)
}

/// The commitment pair of exponent `e`: `(alpha^e mod p, beta^e mod p)`,
/// in canonical bytes.  A pure function of the group and the exponent.
pub open spec fn spec_commitment_pair(cp: ChaumPedersen, e: nat) -> (Seq<u8>, Seq<u8>)
    recommends
        cp.wf(),
{
    (
        canon_be(pow_mod(nat_of_be(cp.alpha@), e, nat_of_be(cp.p@))),
        canon_be(pow_mod(nat_of_be(cp.beta@), e, nat_of_be(cp.p@))),
    )
}

impl ChaumPedersen {
    /// The bounds the group constants must satisfy for the engine to run:
    /// a modulus above one and a positive subgroup order.
    pub open spec fn wf(self) -> bool {
        nat_of_be(self.p@) > 1 && nat_of_be(self.q@) > 0
    }

    /// `(alpha^exp mod p, beta^exp mod p)`, each in canonical bytes.
    pub fn compute_pair(&self, exp: &Vec<u8>) -> (r: (Vec<u8>, Vec<u8>))
        requires
            self.wf(),
        ensures
            r.0@ == spec_commitment_pair(*self, nat_of_be(exp@)).0,
            r.1@ == spec_commitment_pair(*self, nat_of_be(exp@)).1,
    {
        let p1 = Self::exponentiate(&self.alpha, exp, &self.p);
        let p2 = Self::exponentiate(&self.beta, exp, &self.p);
        (p1, p2)
    }

    /// `n^exponent mod modulus`, in canonical bytes.
    pub fn exponentiate(n: &Vec<u8>, exponent: &Vec<u8>, modulus: &Vec<u8>) -> (r: Vec<u8>)
        requires
            nat_of_be(modulus@) > 0,
        ensures
            r@ == canon_be(pow_mod(nat_of_be(n@), nat_of_be(exponent@), nat_of_be(modulus@))),
            nat_of_be(r@) == pow_mod(nat_of_be(n@), nat_of_be(exponent@), nat_of_be(modulus@)),
    {
        let r = modpow_be(n, exponent, modulus);
        proof {
            lemma_canon_be_value(pow_mod(nat_of_be(n@), nat_of_be(exponent@), nat_of_be(modulus@)));
        }
        r
    }

    /// The proof response `s = (k - c * x) mod q`, in canonical bytes.
    ///
    /// The subtraction is over the integers; on the unsigned representation
    /// it is computed as `(k - c * x) mod q` when `k >= c * x` and as the
    /// symmetric complement otherwise, which lands in `[0, q)` either way.
    pub fn solve(&self, k: &Vec<u8>, c: &Vec<u8>, x: &Vec<u8>) -> (s: Vec<u8>)
        requires
            self.wf(),
        ensures
            nat_of_be(s@) == spec_solve(nat_of_be(k@), nat_of_be(c@), nat_of_be(x@), nat_of_be(self.q@)),
            s@ == canon_be(nat_of_be(s@)),
            nat_of_be(s@) < nat_of_be(self.q@),
    {
        let ghost kv = nat_of_be(k@);
        let ghost cxv = nat_of_be(c@) * nat_of_be(x@);
        let ghost qv = nat_of_be(self.q@);
        let cx = mul_be(c, x);
        proof {
            lemma_canon_be_value(cxv);
        }
        if ge_be(k, &cx) {
            let d = sub_be(k, &cx);
            proof {
                lemma_canon_be_value((kv - cxv) as nat);
            }
            let r = rem_be(&d, &self.q);
            proof {
                lemma_canon_be_value(((kv - cxv) as nat) % qv);
                lemma_mod_bound((kv - cxv) as int, qv as int);
            }
            r
        } else {
            let d = sub_be(&cx, k);
            proof {
                lemma_canon_be_value((cxv - kv) as nat);
            }
            let r = rem_be(&d, &self.q);
            let ghost dv = (cxv - kv) as nat;
            proof {
                lemma_canon_be_value(dv % qv);
                lemma_mod_bound(dv as int, qv as int);
            }
            if r.len() == 1 && r[0] == 0 {
                proof {
                    assert(r@ =~= canon_be(0));
                    lemma_canon_be_value(0);
                    assert(dv % qv == 0);
                    lemma_negated_multiple_mod(dv as int, qv as int);
                }
                let mut z: Vec<u8> = Vec::new();
                z.push(0u8);
                proof {
                    assert(z@ =~= canon_be(0));
                }
                z
            } else {
                proof {
                    if dv % qv == 0 {
                        assert(r@ == canon_be(0));
                        assert(r@.len() == 1 && r@[0] == 0);
                    }
                    assert(dv % qv != 0);
                    assert(qv >= dv % qv);
                }
                let s = sub_be(&self.q, &r);
                proof {
                    lemma_canon_be_value((qv - dv % qv) as nat);
                    lemma_negated_mod_complement(dv as int, qv as int);
                }
                s
            }
        }
    }

    /// Whether `r1 == alpha^s * y1^c mod p` and `r2 == beta^s * y2^c mod p`.
    /// Pure: answers only true or false, comparing by denoted value.
    pub fn verify(
        &self,
        y1: &Vec<u8>,
        y2: &Vec<u8>,
        r1: &Vec<u8>,
        r2: &Vec<u8>,
        c: &Vec<u8>,
        s: &Vec<u8>,
    ) -> (out: bool)
        requires
            self.wf(),
        ensures
            out == spec_verify(
                nat_of_be(self.p@),
                nat_of_be(self.alpha@),
                nat_of_be(self.beta@),
                nat_of_be(y1@),
                nat_of_be(y2@),
                nat_of_be(r1@),
                nat_of_be(r2@),
                nat_of_be(c@),
                nat_of_be(s@),
            ),
    {
        let condition1 = self.verify_equation(&self.alpha, y1, r1, c, s);
        let condition2 = self.verify_equation(&self.beta, y2, r2, c, s);
        condition1 && condition2
    }

    /// One verification equation, `r == g^s * y^c mod p`, by value.
    fn verify_equation(&self, g: &Vec<u8>, y: &Vec<u8>, r: &Vec<u8>, c: &Vec<u8>, s: &Vec<u8>) -> (out:
        bool)
        requires
            nat_of_be(self.p@) > 0,
        ensures
            out == spec_verify_eq(
                nat_of_be(self.p@),
                nat_of_be(g@),
                nat_of_be(y@),
                nat_of_be(r@),
                nat_of_be(c@),
                nat_of_be(s@),
            ),
    {
        let ghost pv = nat_of_be(self.p@);
        let gs = modpow_be(g, s, &self.p);
        let yc = modpow_be(y, c, &self.p);
        proof {
            lemma_canon_be_value(pow_mod(nat_of_be(g@), nat_of_be(s@), pv));
            lemma_canon_be_value(pow_mod(nat_of_be(y@), nat_of_be(c@), pv));
        }
        let prod = mul_be(&gs, &yc);
        proof {
            lemma_canon_be_value(pow_mod(nat_of_be(g@), nat_of_be(s@), pv) * pow_mod(
                nat_of_be(y@),
                nat_of_be(c@),
                pv,
            ));
        }
        let v = rem_be(&prod, &self.p);
        proof {
            lemma_canon_be_value(
                (pow_mod(nat_of_be(g@), nat_of_be(s@), pv) * pow_mod(
                    nat_of_be(y@),
                    nat_of_be(c@),
                    pv,
                )) % pv,
            );
        }
        eq_value(r, &v)
    }

    /// A uniformly random value below `bound`, in canonical bytes.
    ///
    /// Relies on `rand::thread_rng` and `num_bigint`'s
    /// `RandBigInt::gen_biguint_below`, which draws fresh entropy on every
    /// call and panics when the bound is zero; nothing can be promised about
    /// which value comes back.  `to_bytes_be` emits the canonical big-endian
    /// byte string of the result.
    #[verifier::external_body]
    pub fn generate_random_below(bound: &Vec<u8>) -> (r: Vec<u8>)
        requires
            nat_of_be(bound@) > 0,
        ensures
            nat_of_be(r@) < nat_of_be(bound@),
            is_canon_be(r@),
    {
        let mut rng = rand::thread_rng();
        rng.gen_biguint_below(&BigUint::from_bytes_be(bound)).to_bytes_be()
    }

    /// The fixed group constants `(alpha, beta, p, q)`: the 1024-bit MODP
    /// group with a 160-bit prime-order subgroup of RFC 5114, with
    /// `beta = alpha^i mod p` for the fixed exponent `i`.  Identical on
    /// client and server; fixed at build time.
    pub fn get_constants() -> (r: (Vec<u8>, Vec<u8>, Vec<u8>, Vec<u8>))
        ensures
            r.0@ == generator_be(),
            r.1@ == canon_be(
                pow_mod(
                    nat_of_be(generator_be()),
                    nat_of_be(generator_exp_be()),
                    nat_of_be(modulus_be()),
                ),
            ),
            r.2@ == modulus_be(),
            r.3@ == order_be(),
            nat_of_be(r.2@) > 1,
            nat_of_be(r.3@) > 1,
            nat_of_be(r.1@) == pow_mod(
                nat_of_be(generator_be()),
                nat_of_be(generator_exp_be()),
                nat_of_be(modulus_be()),
            ),
    {
        let p_arr: [u8; 128] = [
            0xb1u8, 0x0bu8, 0x8fu8, 0x96u8, 0xa0u8, 0x80u8, 0xe0u8, 0x1du8, 0xdeu8, 0x92u8,
            0xdeu8, 0x5eu8, 0xaeu8, 0x5du8, 0x54u8, 0xecu8, 0x52u8, 0xc9u8, 0x9fu8, 0xbcu8,
            0xfbu8, 0x06u8, 0xa3u8, 0xc6u8, 0x9au8, 0x6au8, 0x9du8, 0xcau8, 0x52u8, 0xd2u8,
            0x3bu8, 0x61u8, 0x60u8, 0x73u8, 0xe2u8, 0x86u8, 0x75u8, 0xa2u8, 0x3du8, 0x18u8,
            0x98u8, 0x38u8, 0xefu8, 0x1eu8, 0x2eu8, 0xe6u8, 0x52u8, 0xc0u8, 0x13u8, 0xecu8,
            0xb4u8, 0xaeu8, 0xa9u8, 0x06u8, 0x11u8, 0x23u8, 0x24u8, 0x97u8, 0x5cu8, 0x3cu8,
            0xd4u8, 0x9bu8, 0x83u8, 0xbfu8, 0xacu8, 0xcbu8, 0xddu8, 0x7du8, 0x90u8, 0xc4u8,
            0xbdu8, 0x70u8, 0x98u8, 0x48u8, 0x8eu8, 0x9cu8, 0x21u8, 0x9au8, 0x73u8, 0x72u8,
            0x4eu8, 0xffu8, 0xd6u8, 0xfau8, 0xe5u8, 0x64u8, 0x47u8, 0x38u8, 0xfau8, 0xa3u8,
            0x1au8, 0x4fu8, 0xf5u8, 0x5bu8, 0xccu8, 0xc0u8, 0xa1u8, 0x51u8, 0xafu8, 0x5fu8,
            0x0du8, 0xc8u8, 0xb4u8, 0xbdu8, 0x45u8, 0xbfu8, 0x37u8, 0xdfu8, 0x36u8, 0x5cu8,
            0x1au8, 0x65u8, 0xe6u8, 0x8cu8, 0xfdu8, 0xa7u8, 0x6du8, 0x4du8, 0xa7u8, 0x08u8,
            0xdfu8, 0x1fu8, 0xb2u8, 0xbcu8, 0x2eu8, 0x4au8, 0x43u8, 0x71u8,
        ];
        let q_arr: [u8; 20] = [
            0xf5u8, 0x18u8, 0xaau8, 0x87u8, 0x81u8, 0xa8u8, 0xdfu8, 0x27u8, 0x8au8, 0xbau8,
            0x4eu8, 0x7du8, 0x64u8, 0xb7u8, 0xcbu8, 0x9du8, 0x49u8, 0x46u8, 0x23u8, 0x53u8,
        ];
        let alpha_arr: [u8; 128] = [
            0xa4u8, 0xd1u8, 0xcbu8, 0xd5u8, 0xc3u8, 0xfdu8, 0x34u8, 0x12u8, 0x67u8, 0x65u8,
            0xa4u8, 0x42u8, 0xefu8, 0xb9u8, 0x99u8, 0x05u8, 0xf8u8, 0x10u8, 0x4du8, 0xd2u8,
            0x58u8, 0xacu8, 0x50u8, 0x7fu8, 0xd6u8, 0x40u8, 0x6cu8, 0xffu8, 0x14u8, 0x26u8,
            0x6du8, 0x31u8, 0x26u8, 0x6fu8, 0xeau8, 0x1eu8, 0x5cu8, 0x41u8, 0x56u8, 0x4bu8,
            0x77u8, 0x7eu8, 0x69u8, 0x0fu8, 0x55u8, 0x04u8, 0xf2u8, 0x13u8, 0x16u8, 0x02u8,
            0x17u8, 0xb4u8, 0xb0u8, 0x1bu8, 0x88u8, 0x6au8, 0x5eu8, 0x91u8, 0x54u8, 0x7fu8,
            0x9eu8, 0x27u8, 0x49u8, 0xf4u8, 0xd7u8, 0xfbu8, 0xd7u8, 0xd3u8, 0xb9u8, 0xa9u8,
            0x2eu8, 0xe1u8, 0x90u8, 0x9du8, 0x0du8, 0x22u8, 0x63u8, 0xf8u8, 0x0au8, 0x76u8,
            0xa6u8, 0xa2u8, 0x4cu8, 0x08u8, 0x7au8, 0x09u8, 0x1fu8, 0x53u8, 0x1du8, 0xbfu8,
            0x0au8, 0x01u8, 0x69u8, 0xb6u8, 0xa2u8, 0x8au8, 0xd6u8, 0x62u8, 0xa4u8, 0xd1u8,
            0x8eu8, 0x73u8, 0xafu8, 0xa3u8, 0x2du8, 0x77u8, 0x9du8, 0x59u8, 0x18u8, 0xd0u8,
            0x8bu8, 0xc8u8, 0x85u8, 0x8fu8, 0x4du8, 0xceu8, 0xf9u8, 0x7cu8, 0x2au8, 0x24u8,
            0x85u8, 0x5eu8, 0x6eu8, 0xebu8, 0x22u8, 0xb3u8, 0xb2u8, 0xe5u8,
        ];
        let exp_arr: [u8; 11] = [
            0x26u8, 0x6fu8, 0xeau8, 0x1eu8, 0x5cu8, 0x41u8, 0x56u8, 0x4bu8, 0x77u8, 0x7eu8,
            0x69u8,
        ];
        let p: Vec<u8> = slice_to_vec(p_arr.as_slice());
        let q: Vec<u8> = slice_to_vec(q_arr.as_slice());
        let alpha: Vec<u8> = slice_to_vec(alpha_arr.as_slice());
        let exp: Vec<u8> = slice_to_vec(exp_arr.as_slice());
        proof {
            assert(p@ =~= modulus_be());
            assert(q@ =~= order_be());
            assert(alpha@ =~= generator_be());
            assert(exp@ =~= generator_exp_be());
            lemma_nat_of_be_large(modulus_be());
            lemma_nat_of_be_large(order_be());
        }
        // beta = alpha^i mod p is a generator of the same subgroup.
        let beta = modpow_be(&alpha, &exp, &p);
        proof {
            lemma_canon_be_value(
                pow_mod(
                    nat_of_be(generator_be()),
                    nat_of_be(generator_exp_be()),
                    nat_of_be(modulus_be()),
                ),
            );
        }
        (alpha, beta, p, q)
    }
}

/// When a positive `d` is a multiple of `q`, so is `-d`.
proof fn lemma_negated_multiple_mod(d: int, q: int)
    requires
        q > 0,
        d >= 0,
        d % q == 0,
    ensures
        (-d) % q == 0,
{
    lemma_fundamental_div_mod(d, q);
    lemma_mod_multiples_vanish(-(d / q), 0, q);
    lemma_mod_self_0(q);
    lemma_small_mod(0, q as nat);
    assert(-d == q * (-(d / q)) + 0) by {
        assert(d == q * (d / q));
        lemma_mul_unary_negation(q, d / q);
    }
}

/// When a positive `d` is not a multiple of `q`, `(-d) mod q` is the
/// complement `q - d mod q`.
proof fn lemma_negated_mod_complement(d: int, q: int)
    requires
        q > 0,
        d >= 0,
        d % q != 0,
    ensures
        (-d) % q == q - d % q,
{
    lemma_fundamental_div_mod(d, q);
    lemma_mod_bound(d, q);
    lemma_mod_multiples_vanish(d / q + 1, -d, q);
    assert(q * (d / q + 1) + (-d) == q - d % q) by {
        lemma_mul_is_distributive_add(q, d / q, 1);
        assert(q * (d / q + 1) == q * (d / q) + q * 1);
        assert(d == q * (d / q) + d % q);
    }
    lemma_small_mod((q - d % q) as nat, q as nat);
}

/// Reducing an exponent modulo the order of the base does not change the
/// power modulo `p`: if `g^q mod p == 1`, then `g^t mod p == g^(t mod q) mod p`.
proof fn lemma_pow_mod_exp_reduce(g: nat, t: nat, q: nat, p: nat)
    requires
        p > 1,
        q > 0,
        pow_mod(g, q, p) == 1,
    ensures
        pow_mod(g, t, p) == pow_mod(g, t % q, p),
{
    let gi = g as int;
    let pi = p as int;
    let quot = t / q;
    let rest = t % q;
    assert(t == q * quot + rest) by {
        lemma_fundamental_div_mod(t as int, q as int);
    }
    lemma_pow_adds(gi, q * quot, rest);
    assert(pow(gi, t) == pow(gi, q * quot) * pow(gi, rest));
    lemma_pow_multiplies(gi, q, quot);
    assert(pow(gi, q * quot) == pow(pow(gi, q), quot));
    // pow(pow(g, q), quot) mod p == pow(pow(g, q) mod p, quot) mod p
    //                            == pow(1, quot) mod p == 1 mod p.
    lemma_pow_mod_noop(pow(gi, q), quot, pi);
    assert(pow(gi, q) % pi == 1);
    lemma1_pow(quot);
    assert(pow(1int, quot) == 1);
    lemma_small_mod(1, p);
    assert(pow(pow(gi, q), quot) % pi == 1);
    lemma_mul_mod_noop_general(pow(pow(gi, q), quot), pow(gi, rest), pi);
    assert((pow(pow(gi, q), quot) * pow(gi, rest)) % pi == (pow(pow(gi, q), quot) % pi * (pow(
        gi,
        rest,
    ) % pi)) % pi);
    assert(pow(gi, t) % pi == (1 * (pow(gi, rest) % pi)) % pi);
    lemma_mod_bound(pow(gi, rest), pi);
    lemma_mod_twice(pow(gi, rest), pi);
    assert(pow(gi, t) % pi == pow(gi, rest) % pi);
}

/// One soundness equation: for any generator `g` of order dividing `q`, the
/// honest response `s = (k - c * x) mod q` satisfies
/// `g^k mod p == g^s * (g^x mod p)^c mod p`.
proof fn lemma_soundness_equation(p: nat, q: nat, g: nat, x: nat, k: nat, c: nat)
    requires
        p > 1,
        q > 0,
        pow_mod(g, q, p) == 1,
    ensures
        spec_verify_eq(
            p,
            g,
            pow_mod(g, x, p),
            pow_mod(g, k, p),
            c,
            spec_solve(k, c, x, q),
        ),
{
    let gi = g as int;
    let pi = p as int;
    let qi = q as int;
    let s = spec_solve(k, c, x, q);
    let xc = x * c;
    // (g^s mod p) * ((g^x mod p)^c mod p) mod p == g^(s + x*c) mod p.
    lemma_pow_mod_noop(pow(gi, x), c, pi);
    lemma_pow_multiplies(gi, x, c);
    assert(pow_mod(pow_mod(g, x, p), c, p) == pow(gi, xc) % pi) by {
        lemma_mod_bound(pow(gi, x), pi);
        assert(pow_mod(g, x, p) as int == pow(gi, x) % pi);
        assert(pow(pow(gi, x) % pi, c) % pi == pow(pow(gi, x), c) % pi);
        assert(pow(pow(gi, x), c) == pow(gi, x * c));
    }
    lemma_mul_mod_noop_general(pow(gi, s), pow(gi, xc), pi);
    lemma_pow_adds(gi, s, xc);
    assert((pow_mod(g, s, p) * pow_mod(pow_mod(g, x, p), c, p)) % p == pow_mod(g, s + xc, p)) by {
        lemma_mod_bound(pow(gi, s), pi);
        lemma_mod_bound(pow(gi, xc), pi);
        assert(((pow(gi, s) % pi) * (pow(gi, xc) % pi)) % pi == (pow(gi, s) * pow(gi, xc)) % pi);
        assert(pow(gi, s) * pow(gi, xc) == pow(gi, s + xc));
    }
    // The exponents s + x*c and k agree modulo q.
    assert((s + xc) % q == k % q) by {
        let diff = (k as int) - (c as int) * (x as int);
        assert(s as int == diff % qi);
        lemma_mod_bound(diff, qi);
        lemma_small_mod(s, q);
        lemma_add_mod_noop(s as int, xc as int, qi);
        lemma_add_mod_noop(diff, xc as int, qi);
        assert((s as int + xc as int) % qi == (diff + xc) % qi);
        assert(diff + xc == k) by {
            lemma_mul_is_commutative(c as int, x as int);
            assert((c as int) * (x as int) == xc as int);
        }
    }
    lemma_pow_mod_exp_reduce(g, (s + xc) as nat, q, p);
    lemma_pow_mod_exp_reduce(g, k, q, p);
}

/// Proof soundness: for any group whose generators both have order dividing
/// `q` modulo `p`, any secret `x`, nonce `k` and challenge `c`, verification
/// of the commitment pair of `x`, the round commitments of `k`, and the
/// response `solve(k, c, x, q)` succeeds.
pub proof fn lemma_proof_soundness(p: nat, q: nat, alpha: nat, beta: nat, x: nat, k: nat, c: nat)
    requires
        p > 1,
        q > 0,
        pow_mod(alpha, q, p) == 1,
        pow_mod(beta, q, p) == 1,
    ensures
        spec_verify(
            p,
            alpha,
            beta,
            pow_mod(alpha, x, p),
            pow_mod(beta, x, p),
            pow_mod(alpha, k, p),
            pow_mod(beta, k, p),
            c,
            spec_solve(k, c, x, q),
        ),
{
    lemma_soundness_equation(p, q, alpha, x, k, c);
    lemma_soundness_equation(p, q, beta, x, k, c);
}

} // verus!
