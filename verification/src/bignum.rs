//! Big unsigned integers as big-endian byte strings.
//!
//! A byte string `s` denotes the natural number `nat_of_be(s@)`; the empty
//! string denotes zero and leading zero bytes are insignificant.  `canon_be`
//! gives the one representation that the arbitrary-precision arithmetic of
//! the `num_bigint` crate emits: a single zero byte for zero, and the
//! shortest big-endian digit string otherwise.  The arithmetic itself is
//! wrapped here behind contracts over those denotations.
use vstd::arithmetic::div_mod::{
    lemma_basic_div, lemma_fundamental_div_mod, lemma_mod_bound, lemma_mod_multiples_vanish,
    lemma_small_mod,
};
use vstd::arithmetic::power::pow;
use vstd::prelude::*;

use num_bigint::BigUint;

verus! {

/// The natural number that a big-endian byte string denotes.
pub open spec fn nat_of_be(s: Seq<u8>) -> nat
    decreases s.len(),
{
    if s.len() == 0 {
        0
    } else {
        nat_of_be(s.drop_last()) * 256 + (s.last() as nat)
    }
}

/// The big-endian digits of `n`, with no leading zero; empty for zero.
pub open spec fn be_digits(n: nat) -> Seq<u8>
    decreases n,
{
    if n == 0 {
        Seq::empty()
    } else {
        be_digits(n / 256).push((n % 256) as u8)
    }
}

/// The byte string that `num_bigint` emits for the value `n`: a single zero
/// byte for zero, the shortest big-endian digit string otherwise.
pub open spec fn canon_be(n: nat) -> Seq<u8> {
    if n == 0 {
        seq![0u8]
    } else {
        be_digits(n)
    }
}

/// `s` is the canonical representation of its own value.
pub open spec fn is_canon_be(s: Seq<u8>) -> bool {
    s == canon_be(nat_of_be(s))
}

/// `(b ^ e) % m` over natural numbers.
pub open spec fn pow_mod(b: nat, e: nat, m: nat) -> nat
    recommends
        m > 0,
{
    (pow(b as int, e) % (m as int)) as nat
}

/// The canonical digits of `n` denote `n`.
pub proof fn lemma_be_digits_value(n: nat)
    ensures
        nat_of_be(be_digits(n)) == n,
    decreases n,
{
    if n != 0 {
        lemma_be_digits_value(n / 256);
        assert(be_digits(n).drop_last() == be_digits(n / 256));
        lemma_fundamental_div_mod(n as int, 256);
    }
}

/// The canonical representation of `n` denotes `n`.
pub proof fn lemma_canon_be_value(n: nat)
    ensures
        nat_of_be(canon_be(n)) == n,
{
    if n == 0 {
        assert(nat_of_be(Seq::<u8>::empty()) == 0);
        assert(canon_be(0).drop_last() =~= Seq::<u8>::empty());
        assert(canon_be(0).last() == 0u8);
    } else {
        lemma_be_digits_value(n);
    }
}

/// A byte string with a nonzero first byte denotes a positive number.
pub proof fn lemma_nat_of_be_pos(s: Seq<u8>)
    requires
        s.len() > 0,
        s[0] != 0,
    ensures
        nat_of_be(s) > 0,
    decreases s.len(),
{
    if s.len() > 1 {
        lemma_nat_of_be_pos(s.drop_last());
    }
}

/// A byte string of two or more digits with a nonzero first byte denotes
/// at least 256.
pub proof fn lemma_nat_of_be_large(s: Seq<u8>)
    requires
        s.len() > 1,
        s[0] != 0,
    ensures
        nat_of_be(s) >= 256,
{
    lemma_nat_of_be_pos(s.drop_last());
}

/// A leading zero byte does not change the denoted value.
pub proof fn lemma_nat_of_be_skip_zero(s: Seq<u8>)
    requires
        s.len() > 0,
        s[0] == 0,
    ensures
        nat_of_be(s.skip(1)) == nat_of_be(s),
    decreases s.len(),
{
    if s.len() == 1 {
        assert(s.skip(1) =~= Seq::<u8>::empty());
        assert(s.drop_last() =~= Seq::<u8>::empty());
        assert(nat_of_be(Seq::<u8>::empty()) == 0);
        assert(s.last() == s[0]);
        assert(nat_of_be(s) == nat_of_be(s.drop_last()) * 256 + (s.last() as nat));
    } else {
        lemma_nat_of_be_skip_zero(s.drop_last());
        assert(s.skip(1).drop_last() =~= s.drop_last().skip(1));
        assert(s.skip(1).last() == s.last());
        assert(nat_of_be(s.skip(1)) == nat_of_be(s.skip(1).drop_last()) * 256 + (s.skip(
            1,
        ).last() as nat));
        assert(nat_of_be(s) == nat_of_be(s.drop_last()) * 256 + (s.last() as nat));
    }
}

/// A byte string with no leading zero is the canonical digit string of its
/// value.
pub proof fn lemma_be_digits_of_trimmed(s: Seq<u8>)
    requires
        s.len() > 0,
        s[0] != 0,
    ensures
        be_digits(nat_of_be(s)) == s,
        is_canon_be(s),
    decreases s.len(),
{
    lemma_nat_of_be_pos(s);
    let n = nat_of_be(s);
    if s.len() == 1 {
        assert(s.drop_last() =~= Seq::<u8>::empty());
        assert(nat_of_be(Seq::<u8>::empty()) == 0);
        assert(s.last() == s[0]);
        assert(n == s[0]);
        lemma_small_mod(n, 256);
        lemma_basic_div(n as int, 256);
        assert(be_digits(n) == be_digits(n / 256).push((n % 256) as u8));
        assert(be_digits(0) =~= Seq::<u8>::empty());
        assert(be_digits(n) =~= s);
    } else {
        let hd = s.drop_last();
        lemma_be_digits_of_trimmed(hd);
        lemma_nat_of_be_pos(hd);
        assert(n == nat_of_be(hd) * 256 + (s.last() as nat));
        // n == 256 * nat_of_be(hd) + s.last(), so n / 256 == nat_of_be(hd)
        // and n % 256 == s.last().
        lemma_mod_multiples_vanish(nat_of_be(hd) as int, s.last() as int, 256);
        lemma_small_mod(s.last() as nat, 256);
        lemma_fundamental_div_mod(n as int, 256);
        lemma_mod_bound(n as int, 256);
        assert(n == 256 * (n / 256) + n % 256);
        assert(n % 256 == s.last() as nat);
        assert(n / 256 == nat_of_be(hd)) by {
            assert(nat_of_be(hd) * 256 + (s.last() as nat) == 256 * (n / 256) + (
            s.last() as nat));
        }
        assert(be_digits(n) == be_digits(n / 256).push((n % 256) as u8));
        assert(be_digits(n) =~= s);
    }
}

/// Strips the insignificant leading zero bytes, yielding the canonical
/// representation of the denoted value.
pub fn normalize(v: &Vec<u8>) -> (r: Vec<u8>)
    ensures
        r@ == canon_be(nat_of_be(v@)),
        nat_of_be(r@) == nat_of_be(v@),
{
    let ghost val = nat_of_be(v@);
    proof {
        assert(v@.skip(0) =~= v@);
    }
    let mut i: usize = 0;
    while i < v.len() && v[i] == 0
        invariant
            i <= v.len(),
            nat_of_be(v@.skip(i as int)) == nat_of_be(v@),
        decreases v.len() - i,
    {
        proof {
            lemma_nat_of_be_skip_zero(v@.skip(i as int));
            assert(v@.skip(i as int).skip(1) =~= v@.skip(i as int + 1));
        }
        i = i + 1;
    }
    proof {
        lemma_canon_be_value(val);
    }
    if i == v.len() {
        proof {
            assert(v@.skip(i as int) =~= Seq::<u8>::empty());
        }
        let mut r: Vec<u8> = Vec::new();
        r.push(0u8);
        proof {
            assert(r@ =~= canon_be(0));
        }
        r
    } else {
        let mut r: Vec<u8> = Vec::new();
        let mut j: usize = i;
        while j < v.len()
            invariant
                i <= j <= v.len(),
                r@ =~= v@.subrange(i as int, j as int),
            decreases v.len() - j,
        {
            r.push(v[j]);
            j = j + 1;
        }
        proof {
            assert(r@ =~= v@.skip(i as int));
            lemma_be_digits_of_trimmed(r@);
        }
        r
    }
}

/// Whether two byte strings denote one value.
pub fn eq_value(a: &Vec<u8>, b: &Vec<u8>) -> (r: bool)
    ensures
        r == (nat_of_be(a@) == nat_of_be(b@)),
{
    let na = normalize(a);
    let nb = normalize(b);
    proof {
        lemma_canon_be_value(nat_of_be(a@));
        lemma_canon_be_value(nat_of_be(b@));
    }
    if na.len() != nb.len() {
        proof {
            assert(nat_of_be(a@) != nat_of_be(b@));
        }
        return false;
    }
    let mut i: usize = 0;
    while i < na.len()
        invariant
            i <= na.len(),
            na.len() == nb.len(),
            na@ == canon_be(nat_of_be(a@)),
            nb@ == canon_be(nat_of_be(b@)),
            forall|j: int| 0 <= j < i ==> na@[j] == nb@[j],
        decreases na.len() - i,
    {
        if na[i] != nb[i] {
            proof {
                assert(na@ != nb@);
                lemma_canon_be_value(nat_of_be(a@));
                lemma_canon_be_value(nat_of_be(b@));
            }
            return false;
        }
        i = i + 1;
    }
    proof {
        assert(na@ =~= nb@);
        lemma_canon_be_value(nat_of_be(a@));
        lemma_canon_be_value(nat_of_be(b@));
    }
    true
}

/// Relies on `num_bigint::BigUint::modpow`: returns `(base ^ exponent) %
/// modulus` and panics when the modulus is zero; `to_bytes_be` emits the
/// canonical big-endian byte string of the result.
#[verifier::external_body]
pub(crate) fn modpow_be(base: &Vec<u8>, exponent: &Vec<u8>, modulus: &Vec<u8>) -> (r: Vec<u8>)
    requires
        nat_of_be(modulus@) > 0,
    ensures
        r@ == canon_be(pow_mod(nat_of_be(base@), nat_of_be(exponent@), nat_of_be(modulus@))),
{
    let b = BigUint::from_bytes_be(base);
    let e = BigUint::from_bytes_be(exponent);
    let m = BigUint::from_bytes_be(modulus);
    b.modpow(&e, &m).to_bytes_be()
}

/// Relies on `num_bigint`'s `Mul` for `BigUint`: returns the product;
/// `to_bytes_be` emits the canonical big-endian byte string of the result.
#[verifier::external_body]
pub(crate) fn mul_be(a: &Vec<u8>, b: &Vec<u8>) -> (r: Vec<u8>)
    ensures
        r@ == canon_be(nat_of_be(a@) * nat_of_be(b@)),
{
    let x = BigUint::from_bytes_be(a);
    let y = BigUint::from_bytes_be(b);
    (x * y).to_bytes_be()
}

/// Relies on `num_bigint`'s `Sub` for `BigUint`: returns the difference and
/// panics when the subtrahend is larger; `to_bytes_be` emits the canonical
/// big-endian byte string of the result.
#[verifier::external_body]
pub(crate) fn sub_be(a: &Vec<u8>, b: &Vec<u8>) -> (r: Vec<u8>)
    requires
        nat_of_be(a@) >= nat_of_be(b@),
    ensures
        r@ == canon_be((nat_of_be(a@) - nat_of_be(b@)) as nat),
{
    let x = BigUint::from_bytes_be(a);
    let y = BigUint::from_bytes_be(b);
    (x - y).to_bytes_be()
}

/// Relies on `num_bigint`'s `Rem` for `BigUint`: returns the remainder and
/// panics when the divisor is zero; `to_bytes_be` emits the canonical
/// big-endian byte string of the result.
#[verifier::external_body]
pub(crate) fn rem_be(a: &Vec<u8>, m: &Vec<u8>) -> (r: Vec<u8>)
    requires
        nat_of_be(m@) > 0,
    ensures
        r@ == canon_be(nat_of_be(a@) % nat_of_be(m@)),
{
    let x = BigUint::from_bytes_be(a);
    let y = BigUint::from_bytes_be(m);
    (x % y).to_bytes_be()
}

/// Relies on `num_bigint`'s `Ord` for `BigUint`: compares by value.
#[verifier::external_body]
pub(crate) fn ge_be(a: &Vec<u8>, b: &Vec<u8>) -> (r: bool)
    ensures
        r == (nat_of_be(a@) >= nat_of_be(b@)),
{
    let x = BigUint::from_bytes_be(a);
    let y = BigUint::from_bytes_be(b);
    x >= y
}

} // verus!
