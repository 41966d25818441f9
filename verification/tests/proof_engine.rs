use num_bigint::BigUint;
use zk_auth::bignum::{eq_value, normalize};
use zk_auth::group::ChaumPedersen;

fn toy_group() -> ChaumPedersen {
    ChaumPedersen { p: vec![23u8], q: vec![11u8], alpha: vec![4u8], beta: vec![9u8] }
}

#[test]
fn test_trivial_example() {
    let cp = toy_group();

    let y1 = ChaumPedersen::exponentiate(&vec![4u8], &vec![6u8], &vec![23u8]);
    let y2 = ChaumPedersen::exponentiate(&vec![9u8], &vec![6u8], &vec![23u8]);

    assert_eq!(y1, vec![2u8]);
    assert_eq!(y2, vec![3u8]);

    let r1 = ChaumPedersen::exponentiate(&vec![4u8], &vec![7u8], &vec![23u8]);
    let r2 = ChaumPedersen::exponentiate(&vec![9u8], &vec![7u8], &vec![23u8]);

    assert_eq!(r1, vec![8u8]);
    assert_eq!(r2, vec![4u8]);

    let s = cp.solve(&vec![7u8], &vec![4u8], &vec![6u8]);
    assert_eq!(s, vec![5u8]);

    let result = cp.verify(&y1, &y2, &r1, &r2, &vec![4u8], &s);
    assert!(result);

    // fake secret
    let s_fake = cp.solve(&vec![7u8], &vec![4u8], &vec![7u8]);

    let result = cp.verify(&y1, &y2, &r1, &r2, &vec![4u8], &s_fake);
    assert!(!result);
}

#[test]
fn test_trivial_example_with_random_numbers() {
    let cp = toy_group();
    let k = ChaumPedersen::generate_random_below(&vec![11u8]);
    let c = ChaumPedersen::generate_random_below(&vec![11u8]);

    let y1 = ChaumPedersen::exponentiate(&vec![4u8], &vec![6u8], &vec![23u8]);
    let y2 = ChaumPedersen::exponentiate(&vec![9u8], &vec![6u8], &vec![23u8]);

    assert_eq!(y1, vec![2u8]);
    assert_eq!(y2, vec![3u8]);

    let r1 = ChaumPedersen::exponentiate(&vec![4u8], &k, &vec![23u8]);
    let r2 = ChaumPedersen::exponentiate(&vec![9u8], &k, &vec![23u8]);

    let s = cp.solve(&k, &c, &vec![6u8]);

    let result = cp.verify(&y1, &y2, &r1, &r2, &c, &s);
    assert!(result);
}

#[test]
fn test_1024_bits_constants() {
    //
    //    Reference: https://www.rfc-editor.org/rfc/rfc5114#page-15
    //
    //    The generator generates a prime-order subgroup of size:
    //    q = F518AA87 81A8DF27 8ABA4E7D 64B7CB9D 49462353
    //
    let p = hex::decode(
        "B10B8F96A080E01DDE92DE5EAE5D54EC52C99FBCFB06A3C69A6A9DCA52D23B616073E28675A23D189838EF1E2EE652C013ECB4AEA906112324975C3CD49B83BFACCBDD7D90C4BD7098488E9C219A73724EFFD6FAE5644738FAA31A4FF55BCCC0A151AF5F0DC8B4BD45BF37DF365C1A65E68CFDA76D4DA708DF1FB2BC2E4A4371",
    )
    .unwrap();
    let q = hex::decode("F518AA8781A8DF278ABA4E7D64B7CB9D49462353").unwrap();

    let alpha = hex::decode(
        "A4D1CBD5C3FD34126765A442EFB99905F8104DD258AC507FD6406CFF14266D31266FEA1E5C41564B777E690F5504F213160217B4B01B886A5E91547F9E2749F4D7FBD7D3B9A92EE1909D0D2263F80A76A6A24C087A091F531DBF0A0169B6A28AD662A4D18E73AFA32D779D5918D08BC8858F4DCEF97C2A24855E6EEB22B3B2E5",
    )
    .unwrap();

    // beta = alpha^i is also a generator
    let beta = ChaumPedersen::exponentiate(&alpha, &ChaumPedersen::generate_random_below(&q), &p);

    let cp = ChaumPedersen {
        p: p.clone(),
        q: q.clone(),
        alpha: alpha.clone(),
        beta: beta.clone(),
    };

    let x = ChaumPedersen::generate_random_below(&q);
    let k = ChaumPedersen::generate_random_below(&q);

    let c = ChaumPedersen::generate_random_below(&q);

    let (y1, y2) = cp.compute_pair(&x);

    let (r1, r2) = cp.compute_pair(&k);

    let s = cp.solve(&k, &c, &x);

    let result = cp.verify(&y1, &y2, &r1, &r2, &c, &s);
    assert!(result);
}

#[test]
fn test_get_constants_match_reference_values() {
    let (alpha, beta, p, q) = ChaumPedersen::get_constants();
    let p_ref = hex::decode(
        "B10B8F96A080E01DDE92DE5EAE5D54EC52C99FBCFB06A3C69A6A9DCA52D23B616073E28675A23D189838EF1E2EE652C013ECB4AEA906112324975C3CD49B83BFACCBDD7D90C4BD7098488E9C219A73724EFFD6FAE5644738FAA31A4FF55BCCC0A151AF5F0DC8B4BD45BF37DF365C1A65E68CFDA76D4DA708DF1FB2BC2E4A4371",
    )
    .unwrap();
    let q_ref = hex::decode("F518AA8781A8DF278ABA4E7D64B7CB9D49462353").unwrap();
    let alpha_ref = hex::decode(
        "A4D1CBD5C3FD34126765A442EFB99905F8104DD258AC507FD6406CFF14266D31266FEA1E5C41564B777E690F5504F213160217B4B01B886A5E91547F9E2749F4D7FBD7D3B9A92EE1909D0D2263F80A76A6A24C087A091F531DBF0A0169B6A28AD662A4D18E73AFA32D779D5918D08BC8858F4DCEF97C2A24855E6EEB22B3B2E5",
    )
    .unwrap();
    assert_eq!(p, p_ref);
    assert_eq!(q, q_ref);
    assert_eq!(alpha, alpha_ref);

    // beta = alpha^i mod p for the fixed exponent i.
    let i_ref = hex::decode("266FEA1E5C41564B777E69").unwrap();
    let beta_ref = BigUint::from_bytes_be(&alpha_ref)
        .modpow(&BigUint::from_bytes_be(&i_ref), &BigUint::from_bytes_be(&p_ref));
    assert_eq!(BigUint::from_bytes_be(&beta), beta_ref);
}

#[test]
fn test_exponentiate_exact_value() {
    // 2^10 mod 1000 = 24: fails if the exponentiation returned any argument.
    let r = ChaumPedersen::exponentiate(&vec![2u8], &vec![10u8], &vec![3u8, 232u8]);
    assert_eq!(r, vec![24u8]);
}

#[test]
fn test_solve_boundary_equal_terms_yields_zero() {
    // k == c * x gives s == 0.
    let cp = toy_group();
    let s = cp.solve(&vec![8u8], &vec![2u8], &vec![4u8]);
    assert_eq!(s, vec![0u8]);
}

#[test]
fn test_solve_negative_multiple_of_order_yields_zero() {
    // k < c * x with c * x - k a multiple of q: (k - c*x) mod q is 0,
    // not q, so the result stays inside [0, q).
    let cp = toy_group();
    let s = cp.solve(&vec![1u8], &vec![3u8], &vec![4u8]);
    assert_eq!(s, vec![0u8]);
}

#[test]
fn test_solve_always_in_range() {
    let cp = toy_group();
    let q = BigUint::from(11u32);
    for k in 0u8..12u8 {
        for c in 0u8..12u8 {
            for x in 0u8..12u8 {
                let s = cp.solve(&vec![k], &vec![c], &vec![x]);
                assert!(BigUint::from_bytes_be(&s) < q);
            }
        }
    }
}

#[test]
fn test_solve_matches_modular_subtraction() {
    // s = (k - c * x) mod q over the integers: 7 - 4 * 6 = -17, and
    // -17 mod 11 = 5.
    let cp = toy_group();
    let s = cp.solve(&vec![7u8], &vec![4u8], &vec![6u8]);
    assert_eq!(s, vec![5u8]);
}

#[test]
fn test_commitment_pair_deterministic() {
    let (alpha, beta, p, q) = ChaumPedersen::get_constants();
    let cp = ChaumPedersen { p, q: q.clone(), alpha, beta };
    let e = ChaumPedersen::generate_random_below(&q);
    let first = cp.compute_pair(&e);
    let second = cp.compute_pair(&e);
    assert_eq!(first, second);
}

#[test]
fn test_commitment_pair_toy_values() {
    let cp = toy_group();
    let (y1, y2) = cp.compute_pair(&vec![6u8]);
    assert_eq!(y1, vec![2u8]);
    assert_eq!(y2, vec![3u8]);
}

#[test]
fn test_generate_random_below_is_below_bound() {
    // With bound 1 the only admissible value is 0, so handing the bound
    // back unchanged would fail.
    let r = ChaumPedersen::generate_random_below(&vec![1u8]);
    assert_eq!(r, vec![0u8]);
    let bound = vec![1u8, 0u8];
    for _ in 0..64 {
        let r = ChaumPedersen::generate_random_below(&bound);
        assert!(BigUint::from_bytes_be(&r) < BigUint::from(256u32));
    }
}

#[test]
fn test_verify_ignores_leading_zeros() {
    // Byte strings compare by denoted value: leading zeros are insignificant.
    let cp = toy_group();
    let s = cp.solve(&vec![7u8], &vec![4u8], &vec![6u8]);
    let result = cp.verify(
        &vec![0u8, 0u8, 2u8],
        &vec![0u8, 3u8],
        &vec![0u8, 8u8],
        &vec![4u8],
        &vec![0u8, 4u8],
        &s,
    );
    assert!(result);
}

#[test]
fn test_wrong_secret_rejected_deterministically() {
    // For the toy group every response derived from a wrong secret fails
    // verification outright.
    let cp = toy_group();
    let y1 = ChaumPedersen::exponentiate(&vec![4u8], &vec![6u8], &vec![23u8]);
    let y2 = ChaumPedersen::exponentiate(&vec![9u8], &vec![6u8], &vec![23u8]);
    let r1 = ChaumPedersen::exponentiate(&vec![4u8], &vec![7u8], &vec![23u8]);
    let r2 = ChaumPedersen::exponentiate(&vec![9u8], &vec![7u8], &vec![23u8]);
    for x_fake in 0u8..11u8 {
        if x_fake == 6 {
            continue;
        }
        let s_fake = cp.solve(&vec![7u8], &vec![4u8], &vec![x_fake]);
        assert!(!cp.verify(&y1, &y2, &r1, &r2, &vec![4u8], &s_fake));
    }
}

#[test]
fn test_normalize() {
    assert_eq!(normalize(&vec![0u8, 0u8, 2u8]), vec![2u8]);
    assert_eq!(normalize(&vec![]), vec![0u8]);
    assert_eq!(normalize(&vec![0u8, 0u8]), vec![0u8]);
    assert_eq!(normalize(&vec![7u8, 0u8]), vec![7u8, 0u8]);
}

#[test]
fn test_eq_value_compares_by_value() {
    assert!(eq_value(&vec![0u8, 5u8], &vec![5u8]));
    assert!(eq_value(&vec![], &vec![0u8, 0u8]));
    assert!(!eq_value(&vec![1u8, 0u8], &vec![1u8]));
    assert!(!eq_value(&vec![4u8], &vec![5u8]));
}
