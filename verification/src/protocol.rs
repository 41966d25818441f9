//! The server-side authentication protocol.
//!
//! Sequences register, challenge issuance and verification over two stores:
//! a registration store keyed by username and a challenge store keyed by the
//! opaque identifier of a pending proof round.  Each user has exactly one
//! latest round; a new challenge overwrites the previous round's data.
//! Challenge records are never deleted, so a round may be answered again
//! until a correct response arrives; the protocol leaves this replay
//! question open rather than silently expiring rounds.
use vstd::prelude::*;

use crate::bignum::{is_canon_be, nat_of_be, normalize};
use crate::group::{spec_verify, ChaumPedersen};
use crate::store::StringMap;

verus! {

/// Why an operation failed.
#[derive(Clone, Copy, Debug, PartialEq, Eq, Structural)]
pub enum AuthError {
    /// The operation referenced a username or an identifier absent from the
    /// relevant store.
    NotFound,
    /// Proof verification failed: the response does not satisfy the
    /// verification equations for the stored round.
    PermissionDenied,
}

/// One user's registration record: the public commitment to the secret and
/// the latest proof round.  The secret itself is never stored.
///
/// All byte strings denote the numbers `bignum::nat_of_be` assigns to them
/// and are kept in canonical form.
pub struct UserInfo {
    pub username: String,
    pub y1: Vec<u8>,
    pub y2: Vec<u8>,
    pub r1: Vec<u8>,
    pub r2: Vec<u8>,
    pub challenge: Vec<u8>,
    pub solution: Vec<u8>,
    pub session_id: String,
}

/// The authentication server state: the proof engine and the two stores.
///
/// The group is injected at construction so that isolated instances over a
/// substitute group can stand in for the fixed one.
pub struct AuthImpl {
    cp: ChaumPedersen,
    user_info: StringMap<UserInfo>,
    auth_id_to_user: StringMap<String>,
}

/// Relies on `nanoid::format` with `nanoid::rngs::default` and the URL-safe
/// 64-character alphabet: returns a fresh random 21-character identifier;
/// nothing can be promised about which one comes back.
#[verifier::external_body]
fn new_opaque_id() -> (r: String)
    ensures
        r@.len() == 21,
{
    nanoid::format(nanoid::rngs::default, &nanoid::alphabet::SAFE, 21)
}

impl AuthImpl {
    /// The registered users, keyed by username.
    pub closed spec fn users(self) -> Map<Seq<char>, UserInfo> {
        self.user_info@
    }

    /// The issued challenge identifiers, each mapped to its username.
    pub closed spec fn challenges(self) -> Map<Seq<char>, String> {
        self.auth_id_to_user@
    }

    /// The group the server verifies against.
    pub closed spec fn group(self) -> ChaumPedersen {
        self.cp
    }

    /// The server invariant: the group constants are in range, both stores
    /// are well formed, and every issued identifier resolves to a registered
    /// username, so a verify request can never dangle.
    pub closed spec fn wf(self) -> bool {
        &&& self.cp.wf()
        &&& self.user_info.wf()
        &&& self.auth_id_to_user.wf()
        &&& forall|id: Seq<char>|
            #[trigger] self.auth_id_to_user@.contains_key(id) ==> self.user_info@.contains_key(
                self.auth_id_to_user@[id]@,
            )
    }

    /// A fresh server over the given group, with empty stores.
    pub fn new(cp: ChaumPedersen) -> (r: Self)
        requires
            cp.wf(),
        ensures
            r.wf(),
            r.group() == cp,
            r.users() == Map::<Seq<char>, UserInfo>::empty(),
            r.challenges() == Map::<Seq<char>, String>::empty(),
    {
        AuthImpl { cp, user_info: StringMap::new(), auth_id_to_user: StringMap::new() }
    }

    /// Register: inserts or overwrites the record for `user` with the given
    /// commitment pair and an empty round.  Always succeeds; re-registration
    /// deliberately overwrites.
    pub fn register(&mut self, user: String, y1: Vec<u8>, y2: Vec<u8>)
        requires
            old(self).wf(),
        ensures
            final(self).wf(),
            final(self).group() == old(self).group(),
            final(self).challenges() == old(self).challenges(),
            final(self).users() == old(self).users().insert(
                user@,
                final(self).users()[user@],
            ),
            ({
                let rec = final(self).users()[user@];
                &&& rec.username@ == user@
                &&& nat_of_be(rec.y1@) == nat_of_be(y1@)
                &&& is_canon_be(rec.y1@)
                &&& nat_of_be(rec.y2@) == nat_of_be(y2@)
                &&& is_canon_be(rec.y2@)
                &&& nat_of_be(rec.r1@) == 0
                &&& nat_of_be(rec.r2@) == 0
                &&& nat_of_be(rec.challenge@) == 0
                &&& nat_of_be(rec.solution@) == 0
                &&& rec.session_id@ == Seq::<char>::empty()
            }),
    {
        let rec = UserInfo {
            username: user.clone(),
            y1: normalize(&y1),
            y2: normalize(&y2),
            r1: Vec::new(),
            r2: Vec::new(),
            challenge: Vec::new(),
            solution: Vec::new(),
            session_id: String::new(),
        };
        proof {
            crate::bignum::lemma_canon_be_value(nat_of_be(y1@));
            crate::bignum::lemma_canon_be_value(nat_of_be(y2@));
            assert(nat_of_be(Seq::<u8>::empty()) == 0);
        }
        self.user_info.insert(user, rec);
    }

    /// Issue a challenge for `user`, who must be registered, against the
    /// fresh round commitments `r1, r2`: overwrites the user's round with
    /// them, draws a random challenge below `q`, stores a fresh opaque
    /// identifier for the round, and returns both.
    ///
    /// Fails with `NotFound`, changing nothing, exactly when `user` was
    /// never registered.
    pub fn create_authentication_challenge(&mut self, user: String, r1: Vec<u8>, r2: Vec<u8>) -> (res:
        Result<(String, Vec<u8>), AuthError>)
        requires
            old(self).wf(),
        ensures
            final(self).wf(),
            final(self).group() == old(self).group(),
            res is Err <==> !old(self).users().contains_key(user@),
            res is Err ==> res == Err::<(String, Vec<u8>), AuthError>(AuthError::NotFound)
                && final(self).users() == old(self).users() && final(self).challenges() == old(
                self,
            ).challenges(),
            (res matches Ok(pair) ==> {
                let rec = final(self).users()[user@];
                let orec = old(self).users()[user@];
                &&& nat_of_be(pair.1@) < nat_of_be(old(self).group().q@)
                &&& is_canon_be(pair.1@)
                &&& pair.0@.len() == 21
                &&& final(self).challenges() == old(self).challenges().insert(
                    pair.0@,
                    final(self).challenges()[pair.0@],
                )
                &&& final(self).challenges()[pair.0@]@ == user@
                &&& final(self).users() == old(self).users().insert(user@, rec)
                &&& rec.username@ == orec.username@
                &&& rec.y1@ == orec.y1@
                &&& rec.y2@ == orec.y2@
                &&& nat_of_be(rec.r1@) == nat_of_be(r1@)
                &&& is_canon_be(rec.r1@)
                &&& nat_of_be(rec.r2@) == nat_of_be(r2@)
                &&& is_canon_be(rec.r2@)
                &&& rec.challenge@ == pair.1@
                &&& rec.solution@ == orec.solution@
                &&& rec.session_id@ == orec.session_id@
            }),
    {
        let found = self.user_info.get(&user);
        match found {
            None => Err(AuthError::NotFound),
            Some(rec) => {
                let c = ChaumPedersen::generate_random_below(&self.cp.q);
                let auth_id = new_opaque_id();
                let new_rec = UserInfo {
                    username: rec.username.clone(),
                    y1: rec.y1.clone(),
                    y2: rec.y2.clone(),
                    r1: normalize(&r1),
                    r2: normalize(&r2),
                    challenge: c.clone(),
                    solution: rec.solution.clone(),
                    session_id: rec.session_id.clone(),
                };
                proof {
                    crate::bignum::lemma_canon_be_value(nat_of_be(r1@));
                    crate::bignum::lemma_canon_be_value(nat_of_be(r2@));
                }
                self.user_info.insert(user.clone(), new_rec);
                self.auth_id_to_user.insert(auth_id.clone(), user);
                Ok((auth_id, c))
            },
        }
    }

    /// Answer the round behind `auth_id` with the response `s`: stores the
    /// response on the record and checks the verification equations against
    /// the stored round, exactly as issued.  On success mints and stores a
    /// fresh opaque session identifier and returns it.
    ///
    /// The stored round commitments stand in the base slots of the
    /// verification equations and the registered commitments in the
    /// recomputed slots, so for a secret `x` and round nonce `k` the
    /// accepted response is `(x - c * k) mod q`; that it is accepted is
    /// `group::lemma_proof_soundness` with the two exponents exchanged.
    ///
    /// Fails with `NotFound`, changing nothing, exactly when `auth_id` was
    /// never issued; fails with `PermissionDenied` exactly when the stored
    /// round does not accept `s` — the round data is left unchanged, so a
    /// corrected response to the same identifier may follow.
    pub fn verify_authentication(&mut self, auth_id: String, s: Vec<u8>) -> (res: Result<
        String,
        AuthError,
    >)
        requires
            old(self).wf(),
        ensures
            final(self).wf(),
            final(self).group() == old(self).group(),
            final(self).challenges() == old(self).challenges(),
            (res == Err::<String, AuthError>(AuthError::NotFound)) <==> !old(
                self,
            ).challenges().contains_key(auth_id@),
            !old(self).challenges().contains_key(auth_id@) ==> final(self).users() == old(
                self,
            ).users(),
            old(self).challenges().contains_key(auth_id@) ==> ({
                let user = old(self).challenges()[auth_id@]@;
                let orec = old(self).users()[user];
                let rec = final(self).users()[user];
                let accepted = spec_verify(
                    nat_of_be(old(self).group().p@),
                    nat_of_be(old(self).group().alpha@),
                    nat_of_be(old(self).group().beta@),
                    nat_of_be(orec.r1@),
                    nat_of_be(orec.r2@),
                    nat_of_be(orec.y1@),
                    nat_of_be(orec.y2@),
                    nat_of_be(orec.challenge@),
                    nat_of_be(s@),
                );
                &&& final(self).users() == old(self).users().insert(user, rec)
                &&& rec.username@ == orec.username@
                &&& rec.y1@ == orec.y1@
                &&& rec.y2@ == orec.y2@
                &&& rec.r1@ == orec.r1@
                &&& rec.r2@ == orec.r2@
                &&& rec.challenge@ == orec.challenge@
                &&& nat_of_be(rec.solution@) == nat_of_be(s@)
                &&& is_canon_be(rec.solution@)
                &&& (accepted <==> res is Ok)
                &&& (!accepted ==> res == Err::<String, AuthError>(AuthError::PermissionDenied)
                    && rec.session_id@ == orec.session_id@)
                &&& (res matches Ok(sid) ==> sid@.len() == 21 && rec.session_id@ == sid@)
            }),
    {
        let found = self.auth_id_to_user.get(&auth_id);
        match found {
            None => Err(AuthError::NotFound),
            Some(user_ref) => {
                let user = user_ref.clone();
                let rec = self.user_info.get(&user).unwrap();
                let solution = normalize(&s);
                proof {
                    crate::bignum::lemma_canon_be_value(nat_of_be(s@));
                }
                let mut new_rec = UserInfo {
                    username: rec.username.clone(),
                    y1: rec.y1.clone(),
                    y2: rec.y2.clone(),
                    r1: rec.r1.clone(),
                    r2: rec.r2.clone(),
                    challenge: rec.challenge.clone(),
                    solution,
                    session_id: rec.session_id.clone(),
                };
                // The round is checked exactly as the protocol submits it:
                // the stored commitments r1, r2 stand in the first two
                // argument slots and the registered y1, y2 in the next two.
                let accepted = self.cp.verify(
                    &new_rec.r1,
                    &new_rec.r2,
                    &new_rec.y1,
                    &new_rec.y2,
                    &new_rec.challenge,
                    &new_rec.solution,
                );
                if accepted {
                    let session_id = new_opaque_id();
                    new_rec.session_id = session_id.clone();
                    self.user_info.insert(user, new_rec);
                    Ok(session_id)
                } else {
                    self.user_info.insert(user, new_rec);
                    Err(AuthError::PermissionDenied)
                }
            },
        }
    }
}

} // verus!
