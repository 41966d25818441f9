use num_bigint::BigUint;
use zk_auth::group::ChaumPedersen;
use zk_auth::protocol::{AuthError, AuthImpl};

fn toy_group() -> ChaumPedersen {
    ChaumPedersen { p: vec![23u8], q: vec![11u8], alpha: vec![4u8], beta: vec![9u8] }
}

// The secret x = 6 gives the commitment pair (y1, y2) = (2, 3); the nonce
// k = 7 gives the round commitments (r1, r2) = (8, 4).
//
// The server checks the round with the stored commitments in the base slots
// of the verification equations (y1 == alpha^s * r1^c mod p and the beta
// counterpart), so the response it accepts is s = (x - c * k) mod q.
fn accepted_response(c: &Vec<u8>, x: u8, k: u8) -> Vec<u8> {
    toy_group().solve(&vec![x], c, &vec![k])
}

#[test]
fn test_unknown_username_not_found() {
    let mut auth = AuthImpl::new(toy_group());
    let r = auth.create_authentication_challenge("bob".to_string(), vec![8u8], vec![4u8]);
    assert_eq!(r, Err(AuthError::NotFound));
}

#[test]
fn test_unknown_auth_id_not_found() {
    let mut auth = AuthImpl::new(toy_group());
    auth.register("alice".to_string(), vec![2u8], vec![3u8]);
    let issued = auth.create_authentication_challenge("alice".to_string(), vec![8u8], vec![4u8]);
    assert!(issued.is_ok());
    let r = auth.verify_authentication("never-issued".to_string(), vec![5u8]);
    assert_eq!(r, Err(AuthError::NotFound));
}

#[test]
fn test_full_round_trip_grants_session() {
    let mut auth = AuthImpl::new(toy_group());
    auth.register("alice".to_string(), vec![2u8], vec![3u8]);
    let (auth_id, c) = auth
        .create_authentication_challenge("alice".to_string(), vec![8u8], vec![4u8])
        .unwrap();
    assert_eq!(auth_id.len(), 21);
    assert!(BigUint::from_bytes_be(&c) < BigUint::from(11u32));
    let s = accepted_response(&c, 6, 7);
    let session = auth.verify_authentication(auth_id, s).unwrap();
    assert_eq!(session.len(), 21);
}

#[test]
fn test_tampered_response_permission_denied() {
    let mut auth = AuthImpl::new(toy_group());
    auth.register("alice".to_string(), vec![2u8], vec![3u8]);
    let (auth_id, c) = auth
        .create_authentication_challenge("alice".to_string(), vec![8u8], vec![4u8])
        .unwrap();
    let s = accepted_response(&c, 6, 7);
    let s_bad = ((BigUint::from_bytes_be(&s) + BigUint::from(1u32)) % BigUint::from(11u32))
        .to_bytes_be();
    let r = auth.verify_authentication(auth_id.clone(), s_bad);
    assert_eq!(r, Err(AuthError::PermissionDenied));
    // The round data is unchanged by the failure, so a corrected response
    // to the same identifier still succeeds.
    let session = auth.verify_authentication(auth_id, s);
    assert!(session.is_ok());
}

#[test]
fn test_reregistration_overwrites() {
    let mut auth = AuthImpl::new(toy_group());
    auth.register("alice".to_string(), vec![2u8], vec![3u8]);
    // Re-registering with the commitment pair of the secret 5 always
    // succeeds and replaces the record.
    let cp = toy_group();
    let (y1, y2) = cp.compute_pair(&vec![5u8]);
    auth.register("alice".to_string(), y1, y2);
    let (r1, r2) = cp.compute_pair(&vec![7u8]);
    let (auth_id, c) = auth
        .create_authentication_challenge("alice".to_string(), r1, r2)
        .unwrap();
    let s = accepted_response(&c, 5, 7);
    let session = auth.verify_authentication(auth_id, s);
    assert!(session.is_ok());
}

#[test]
fn test_new_challenge_overwrites_previous_round() {
    let mut auth = AuthImpl::new(toy_group());
    auth.register("alice".to_string(), vec![2u8], vec![3u8]);
    let cp = toy_group();
    let (r1a, r2a) = cp.compute_pair(&vec![7u8]);
    let (first_id, _c1) = auth
        .create_authentication_challenge("alice".to_string(), r1a, r2a)
        .unwrap();
    let (r1b, r2b) = cp.compute_pair(&vec![9u8]);
    let (_second_id, c2) = auth
        .create_authentication_challenge("alice".to_string(), r1b, r2b)
        .unwrap();
    // There is one round per user: the first identifier still resolves to
    // the user, whose round data is now the second round's.
    let s = accepted_response(&c2, 6, 9);
    let session = auth.verify_authentication(first_id, s);
    assert!(session.is_ok());
}

#[test]
fn test_challenges_stay_below_order() {
    let mut auth = AuthImpl::new(toy_group());
    auth.register("alice".to_string(), vec![2u8], vec![3u8]);
    for _ in 0..32 {
        let (_, c) = auth
            .create_authentication_challenge("alice".to_string(), vec![8u8], vec![4u8])
            .unwrap();
        assert!(BigUint::from_bytes_be(&c) < BigUint::from(11u32));
    }
}

#[test]
fn test_registration_accepts_byte_strings_with_leading_zeros() {
    let mut auth = AuthImpl::new(toy_group());
    auth.register("alice".to_string(), vec![0u8, 2u8], vec![0u8, 0u8, 3u8]);
    let (auth_id, c) = auth
        .create_authentication_challenge("alice".to_string(), vec![0u8, 8u8], vec![4u8])
        .unwrap();
    let s = accepted_response(&c, 6, 7);
    let session = auth.verify_authentication(auth_id, s);
    assert!(session.is_ok());
}
