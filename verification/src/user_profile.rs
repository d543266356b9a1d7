//! User profiles, stored under their last-updated timestamp.
//!
//! A profile lives in one map keyed by `(updated, principal)`; a second map
//! records each principal's current timestamp, so a write retires the
//! previous row. The host supplies the clock readings.

use vstd::prelude::*;

use crate::assoc::{
    assoc_map, lemma_assoc_map_congruence, lemma_assoc_map_contains, lemma_assoc_map_index,
    lemma_assoc_map_push, lemma_assoc_map_remove, lemma_assoc_map_update, lemma_unique_push,
    lemma_unique_update, unique_keys,
};
use crate::types::PrincipalId;

verus! {

pub type Timestamp = u64;

pub type Version = u64;

/// The kinds of credential a profile can carry.
#[derive(Clone, Copy, PartialEq, Eq, Structural, Debug)]
pub enum CredentialType {
    ProofOfUniqueness,
}

/// Why a profile lookup failed.
#[derive(Clone, Copy, PartialEq, Eq, Structural, Debug)]
pub enum GetUserProfileError {
    NotFound,
}

/// Why adding a credential failed.
#[derive(Clone, Copy, PartialEq, Eq, Structural, Debug)]
pub enum AddUserCredentialError {
    UserNotFound,
    VersionMismatch,
}

/// One credential on a profile.
#[derive(Debug)]
pub struct UserCredential {
    pub credential_type: CredentialType,
    pub verified_date_timestamp: Option<Timestamp>,
    pub issuer: String,
}

/// A credential as contracts see it.
#[verifier::ext_equal]
pub struct CredentialView {
    pub credential_type: CredentialType,
    pub verified_date_timestamp: Option<Timestamp>,
    pub issuer: Seq<char>,
}

impl View for UserCredential {
    type V = CredentialView;

    open spec fn view(&self) -> CredentialView {
        CredentialView {
            credential_type: self.credential_type,
            verified_date_timestamp: self.verified_date_timestamp,
            issuer: self.issuer@,
        }
    }
}

impl Clone for UserCredential {
    fn clone(&self) -> (r: Self)
        ensures
            r@ == self@,
    {
        UserCredential {
            credential_type: self.credential_type,
            verified_date_timestamp: self.verified_date_timestamp,
            issuer: self.issuer.clone(),
        }
    }
}

/// Key of a credential row: its type.
pub open spec fn credential_key() -> spec_fn(UserCredential) -> CredentialType {
    |c: UserCredential| c.credential_type
}

/// Value of a credential row.
pub open spec fn credential_val() -> spec_fn(UserCredential) -> CredentialView {
    |c: UserCredential| c@
}

/// A stored user profile: timestamps, a write version, and one credential
/// per credential type.
#[derive(Debug)]
pub struct StoredUserProfile {
    pub created_timestamp: Timestamp,
    pub updated_timestamp: Timestamp,
    pub version: Option<Version>,
    pub credentials: Vec<UserCredential>,
}

/// A profile as contracts see it.
#[verifier::ext_equal]
pub struct ProfileView {
    pub created_timestamp: Timestamp,
    pub updated_timestamp: Timestamp,
    pub version: Option<Version>,
    pub credentials: Seq<CredentialView>,
}

impl View for StoredUserProfile {
    type V = ProfileView;

    open spec fn view(&self) -> ProfileView {
        ProfileView {
            created_timestamp: self.created_timestamp,
            updated_timestamp: self.updated_timestamp,
            version: self.version,
            credentials: Seq::new(self.credentials@.len(), |i: int| self.credentials@[i]@),
        }
    }
}

impl Clone for StoredUserProfile {
    fn clone(&self) -> (r: Self)
        ensures
            r@ == self@,
    {
        let mut credentials: Vec<UserCredential> = Vec::new();
        let mut i: usize = 0;
        let n = self.credentials.len();
        while i < n
            invariant
                i <= n,
                n == self.credentials@.len(),
                credentials@.len() == i,
                forall|j: int| 0 <= j < i ==> (#[trigger] credentials@[j])@ == self.credentials@[j]@,
            decreases n - i,
        {
            credentials.push(self.credentials[i].clone());
            i += 1;
        }
        let r = StoredUserProfile {
            created_timestamp: self.created_timestamp,
            updated_timestamp: self.updated_timestamp,
            version: self.version,
            credentials,
        };
        proof {
            assert(r@.credentials =~= self@.credentials);
            assert(r@ =~= self@);
        }
        r
    }
}

/// The version the next write of this profile carries.
pub open spec fn next_version(version: Option<Version>) -> Version {
    match version {
        None => 1,
        Some(v) => (v + 1) as Version,
    }
}

/// One credential per credential type.
pub open spec fn profile_wf(p: ProfileView) -> bool {
    forall|m: int, n: int|
        0 <= m < n < p.credentials.len() ==> (#[trigger] p.credentials[m]).credential_type != (
        #[trigger] p.credentials[n]).credential_type
}

/// Distinct credential types at the rows and at the view are the same thing.
proof fn lemma_profile_wf_rows(p: StoredUserProfile)
    ensures
        profile_wf(p@) == unique_keys(p.credentials@, credential_key()),
{
    let key = credential_key();
    if profile_wf(p@) {
        assert forall|m: int, n: int| 0 <= m < n < p.credentials@.len() implies key(
            #[trigger] p.credentials@[m],
        ) != key(#[trigger] p.credentials@[n]) by {
            assert(p@.credentials[m] == p.credentials@[m]@);
            assert(p@.credentials[n] == p.credentials@[n]@);
        }
    }
    if unique_keys(p.credentials@, credential_key()) {
        assert forall|m: int, n: int| 0 <= m < n < p@.credentials.len() implies (
        #[trigger] p@.credentials[m]).credential_type != (
        #[trigger] p@.credentials[n]).credential_type by {
            assert(p@.credentials[m] == p.credentials@[m]@);
            assert(p@.credentials[n] == p.credentials@[n]@);
            assert(key(p.credentials@[m]) != key(p.credentials@[n]));
        }
    }
}

impl StoredUserProfile {
    /// One credential row per credential type.
    pub open spec fn wf(self) -> bool {
        profile_wf(self@)
    }

    /// The credentials keyed by type.
    pub open spec fn credentials_map(self) -> Map<CredentialType, CredentialView> {
        assoc_map(self.credentials@, credential_key(), credential_val())
    }

    /// A blank profile created at `now`.
    pub fn from_timestamp(now: Timestamp) -> (r: StoredUserProfile)
        ensures
            r.wf(),
            r@ == (ProfileView {
                created_timestamp: now,
                updated_timestamp: now,
                version: None,
                credentials: Seq::empty(),
            }),
            r.credentials_map() == Map::<CredentialType, CredentialView>::empty(),
    {
        let r = StoredUserProfile {
            created_timestamp: now,
            updated_timestamp: now,
            version: None,
            credentials: Vec::new(),
        };
        proof {
            assert(r@.credentials =~= Seq::<CredentialView>::empty());
            assert(r@ =~= (ProfileView {
                created_timestamp: now,
                updated_timestamp: now,
                version: None,
                credentials: Seq::empty(),
            }));
        }
        r
    }

    /// A copy of this profile carrying the given credential, verified at
    /// `now`: the write version steps, the update timestamp moves to `now`,
    /// and the credential replaces any previous one of its type. Fails with
    /// `VersionMismatch`, and no copy, when the caller's expected version is
    /// not the profile's.
    pub fn add_credential(
        &self,
        profile_version: Option<Version>,
        now: Timestamp,
        credential_type: &CredentialType,
        issuer: String,
    ) -> (r: Result<StoredUserProfile, AddUserCredentialError>)
        requires
            self.wf(),
            self.version matches Some(v) ==> v < Version::MAX,
        ensures
            match r {
                Ok(p) => {
                    &&& profile_version == self.version
                    &&& p.wf()
                    &&& p@.created_timestamp == self@.created_timestamp
                    &&& p@.updated_timestamp == now
                    &&& p@.version == Some(next_version(self.version))
                    &&& p.credentials_map() == self.credentials_map().insert(
                        *credential_type,
                        CredentialView {
                            credential_type: *credential_type,
                            verified_date_timestamp: Some(now),
                            issuer: issuer@,
                        },
                    )
                },
                Err(e) => profile_version != self.version && e is VersionMismatch,
            },
    {
        let versions_match = match (&profile_version, &self.version) {
            (None, None) => true,
            (Some(a), Some(b)) => *a == *b,
            _ => false,
        };
        if !versions_match {
            return Err(AddUserCredentialError::VersionMismatch);
        }
        let new_version = match &self.version {
            None => 1,
            Some(v) => *v + 1,
        };
        let ghost issuer_view = issuer@;
        let credential = UserCredential {
            credential_type: *credential_type,
            verified_date_timestamp: Some(now),
            issuer,
        };
        let mut p = self.clone();
        p.updated_timestamp = now;
        p.version = Some(new_version);
        let ghost before = p.credentials@;
        proof {
            let key = credential_key();
            let val = credential_val();
            lemma_profile_wf_rows(*self);
            assert(p@.credentials == self@.credentials);
            assert(before.len() == self.credentials@.len());
            assert forall|j: int| 0 <= j < before.len() implies key(#[trigger] before[j]) == key(
                #[trigger] self.credentials@[j],
            ) && val(before[j]) == val(self.credentials@[j]) by {
                assert(p@.credentials[j] == before[j]@);
                assert(self@.credentials[j] == self.credentials@[j]@);
                assert(before[j]@ == self.credentials@[j]@);
            }
            lemma_assoc_map_congruence(
                before,
                self.credentials@,
                credential_key(),
                credential_val(),
            );
            assert(unique_keys(before, credential_key()));
            assert(assoc_map(before, credential_key(), credential_val())
                == self.credentials_map());
        }
        let mut i: usize = 0;
        let n = p.credentials.len();
        while i < n
            invariant
                i <= n,
                n == p.credentials@.len(),
                p.credentials@ == before,
                unique_keys(before, credential_key()),
                assoc_map(before, credential_key(), credential_val()) == self.credentials_map(),
                p@.created_timestamp == self@.created_timestamp,
                p@.updated_timestamp == now,
                p@.version == Some(next_version(self.version)),
                profile_version == self.version,
                credential@ == (CredentialView {
                    credential_type: *credential_type,
                    verified_date_timestamp: Some(now),
                    issuer: issuer_view,
                }),
                issuer_view == issuer@,
                forall|j: int|
                    0 <= j < i ==> (#[trigger] before[j]).credential_type
                        != credential.credential_type,
                credential.credential_type == *credential_type,
            decreases n - i,
        {
            if p.credentials[i].credential_type == credential.credential_type {
                proof {
                    lemma_assoc_map_update(
                        before,
                        credential_key(),
                        credential_val(),
                        i as int,
                        credential,
                    );
                    lemma_unique_update(before, credential_key(), i as int, credential);
                }
                p.credentials.set(i, credential);
                proof {
                    lemma_profile_wf_rows(p);
                }
                return Ok(p);
            }
            i += 1;
        }
        proof {
            lemma_assoc_map_contains(
                before,
                credential_key(),
                credential_val(),
                credential.credential_type,
            );
            lemma_assoc_map_push(before, credential_key(), credential_val(), credential);
            lemma_unique_push(before, credential_key(), credential_val(), credential);
        }
        p.credentials.push(credential);
        proof {
            lemma_profile_wf_rows(p);
        }
        Ok(p)
    }
}

/// One row of the profile store, keyed by `(updated, principal)`.
pub struct ProfileRow {
    pub updated: Timestamp,
    pub principal: PrincipalId,
    pub profile: StoredUserProfile,
}

/// The profile store.
pub struct UserProfileMap {
    pub rows: Vec<ProfileRow>,
}

/// One row of the timestamp store: a principal's current update timestamp.
pub struct UpdatedRow {
    pub principal: PrincipalId,
    pub updated: Timestamp,
}

/// The timestamp store.
pub struct UserProfileUpdatedMap {
    pub rows: Vec<UpdatedRow>,
}

/// Key of a profile row.
pub open spec fn profile_key() -> spec_fn(ProfileRow) -> (Timestamp, PrincipalId) {
    |r: ProfileRow| (r.updated, r.principal)
}

/// Value of a profile row.
pub open spec fn profile_val() -> spec_fn(ProfileRow) -> ProfileView {
    |r: ProfileRow| r.profile@
}

/// Key of a timestamp row.
pub open spec fn updated_key() -> spec_fn(UpdatedRow) -> PrincipalId {
    |r: UpdatedRow| r.principal
}

/// Value of a timestamp row.
pub open spec fn updated_val() -> spec_fn(UpdatedRow) -> Timestamp {
    |r: UpdatedRow| r.updated
}

impl UserProfileMap {
    /// The store as a map from `(updated, principal)` to the profile.
    pub open spec fn view_map(self) -> Map<(Timestamp, PrincipalId), ProfileView> {
        assoc_map(self.rows@, profile_key(), profile_val())
    }

    /// An empty store.
    pub fn new() -> (r: UserProfileMap)
        ensures
            r.view_map() == Map::<(Timestamp, PrincipalId), ProfileView>::empty(),
            r.rows@ == Seq::<ProfileRow>::empty(),
    {
        UserProfileMap { rows: Vec::new() }
    }
}

impl UserProfileUpdatedMap {
    /// The store as a map from principal to its current update timestamp.
    pub open spec fn view_map(self) -> Map<PrincipalId, Timestamp> {
        assoc_map(self.rows@, updated_key(), updated_val())
    }

    /// An empty store.
    pub fn new() -> (r: UserProfileUpdatedMap)
        ensures
            r.view_map() == Map::<PrincipalId, Timestamp>::empty(),
            r.rows@ == Seq::<UpdatedRow>::empty(),
    {
        UserProfileUpdatedMap { rows: Vec::new() }
    }
}

/// The two stores agree: keys are unique, and each recorded timestamp points
/// at a present profile row.
pub open spec fn maps_wf(
    user_profile_map: UserProfileMap,
    user_profile_updated_map: UserProfileUpdatedMap,
) -> bool {
    &&& unique_keys(user_profile_map.rows@, profile_key())
    &&& unique_keys(user_profile_updated_map.rows@, updated_key())
    &&& forall|i: int|
        0 <= i < user_profile_updated_map.rows@.len() ==> {
            let r = #[trigger] user_profile_updated_map.rows@[i];
            user_profile_map.view_map().contains_key((r.updated, r.principal))
        }
    &&& forall|i: int|
        0 <= i < user_profile_map.rows@.len() ==> profile_wf(
            (#[trigger] user_profile_map.rows@[i]).profile@,
        )
    &&& forall|i: int|
        0 <= i < user_profile_map.rows@.len() ==> {
            let r = #[trigger] user_profile_map.rows@[i];
            user_profile_updated_map.view_map().contains_key(r.principal)
                && user_profile_updated_map.view_map()[r.principal] == r.updated
        }
}

/// In agreeing stores, a recorded timestamp's profile key is present.
proof fn lemma_updated_points(
    m: UserProfileMap,
    u: UserProfileUpdatedMap,
    principal: PrincipalId,
)
    requires
        maps_wf(m, u),
        u.view_map().contains_key(principal),
    ensures
        m.view_map().contains_key((u.view_map()[principal], principal)),
{
    lemma_assoc_map_contains(u.rows@, updated_key(), updated_val(), principal);
    let key = updated_key();
    let i = choose|i: int| 0 <= i < u.rows@.len() && key(#[trigger] u.rows@[i]) == principal;
    lemma_assoc_map_index(u.rows@, updated_key(), updated_val(), i);
}

/// In agreeing stores, every stored profile value is well formed.
proof fn lemma_map_value_wf(
    m: UserProfileMap,
    u: UserProfileUpdatedMap,
    k: (Timestamp, PrincipalId),
)
    requires
        maps_wf(m, u),
        m.view_map().contains_key(k),
    ensures
        profile_wf(m.view_map()[k]),
{
    lemma_assoc_map_contains(m.rows@, profile_key(), profile_val(), k);
    let key = profile_key();
    let i = choose|i: int| 0 <= i < m.rows@.len() && key(#[trigger] m.rows@[i]) == k;
    lemma_assoc_map_index(m.rows@, profile_key(), profile_val(), i);
}

/// Index of the timestamp row for `principal`, if any.
fn find_updated_index(rows: &Vec<UpdatedRow>, principal: PrincipalId) -> (r: Option<usize>)
    ensures
        match r {
            Some(i) => i < rows@.len() && rows@[i as int].principal == principal,
            None => forall|j: int|
                0 <= j < rows@.len() ==> (#[trigger] rows@[j]).principal != principal,
        },
{
    let mut i: usize = 0;
    let n = rows.len();
    while i < n
        invariant
            i <= n,
            n == rows@.len(),
            forall|j: int| 0 <= j < i ==> (#[trigger] rows@[j]).principal != principal,
        decreases n - i,
    {
        if rows[i].principal == principal {
            return Some(i);
        }
        i += 1;
    }
    None
}

/// Index of the profile row keyed `(updated, principal)`, if any.
fn find_profile_index(rows: &Vec<ProfileRow>, updated: Timestamp, principal: PrincipalId) -> (r:
    Option<usize>)
    ensures
        match r {
            Some(i) => i < rows@.len() && rows@[i as int].updated == updated
                && rows@[i as int].principal == principal,
            None => forall|j: int|
                0 <= j < rows@.len() ==> ((#[trigger] rows@[j]).updated != updated || rows@[
                    j
                ].principal != principal),
        },
{
    let mut i: usize = 0;
    let n = rows.len();
    while i < n
        invariant
            i <= n,
            n == rows@.len(),
            forall|j: int|
                0 <= j < i ==> ((#[trigger] rows@[j]).updated != updated || rows@[j].principal
                    != principal),
        decreases n - i,
    {
        if rows[i].updated == updated && rows[i].principal == principal {
            return Some(i);
        }
        i += 1;
    }
    None
}

/// Stores `user` for `principal` at `timestamp`: the principal's previous
/// profile row, if any, is retired; the timestamp store then points at the
/// new row.
pub fn store_user_profile(
    principal: PrincipalId,
    timestamp: Timestamp,
    user: &StoredUserProfile,
    user_profile_map: &mut UserProfileMap,
    user_profile_updated_map: &mut UserProfileUpdatedMap,
)
    requires
        maps_wf(*old(user_profile_map), *old(user_profile_updated_map)),
        profile_wf(user@),
    ensures
        maps_wf(*final(user_profile_map), *final(user_profile_updated_map)),
        final(user_profile_updated_map).view_map() == old(
            user_profile_updated_map,
        ).view_map().insert(principal, timestamp),
        final(user_profile_map).view_map() == if old(user_profile_updated_map).view_map()
            .contains_key(principal) {
            old(user_profile_map).view_map().remove(
                (old(user_profile_updated_map).view_map()[principal], principal),
            ).insert((timestamp, principal), user@)
        } else {
            old(user_profile_map).view_map().insert((timestamp, principal), user@)
        },
{
    let ghost pre_map = *old(user_profile_map);
    let ghost pre_upd = *old(user_profile_updated_map);
    match find_updated_index(&user_profile_updated_map.rows, principal) {
        Some(ui) => {
            proof {
                lemma_assoc_map_contains(
                    pre_upd.rows@,
                    updated_key(),
                    updated_val(),
                    principal,
                );
                lemma_assoc_map_index(pre_upd.rows@, updated_key(), updated_val(), ui as int);
            }
            let old_updated = user_profile_updated_map.rows[ui].updated;
            match find_profile_index(&user_profile_map.rows, old_updated, principal) {
                Some(pi) => {
                    proof {
                        lemma_assoc_map_remove(
                            pre_map.rows@,
                            profile_key(),
                            profile_val(),
                            pi as int,
                        );
                    }
                    let _ = user_profile_map.rows.remove(pi);
                    proof {
                        let key = profile_key();
                        assert forall|j: int|
                            0 <= j < user_profile_map.rows@.len() implies (
                        #[trigger] user_profile_map.rows@[j]).principal != principal by {
                            let jj: int = if j < pi as int {
                                j
                            } else {
                                j + 1
                            };
                            assert(user_profile_map.rows@[j] == pre_map.rows@[jj]);
                            if pre_map.rows@[jj].principal == principal {
                                assert(pre_upd.view_map()[principal] == pre_map.rows@[
                                    jj
                                ].updated);
                                assert(key(pre_map.rows@[jj]) == key(pre_map.rows@[pi as int]));
                                assert(false);
                            }
                        }
                        assert forall|j: int|
                            0 <= j < user_profile_map.rows@.len() implies profile_wf(
                            (#[trigger] user_profile_map.rows@[j]).profile@,
                        ) by {
                            if j < pi as int {
                                assert(user_profile_map.rows@[j] == pre_map.rows@[j]);
                            } else {
                                assert(user_profile_map.rows@[j] == pre_map.rows@[j + 1]);
                            }
                        }
                        assert forall|j: int|
                            0 <= j < user_profile_map.rows@.len() implies pre_upd
                            .view_map().contains_key(
                            (#[trigger] user_profile_map.rows@[j]).principal,
                        ) && pre_upd.view_map()[user_profile_map.rows@[j].principal]
                            == user_profile_map.rows@[j].updated by {
                            if j < pi as int {
                                assert(user_profile_map.rows@[j] == pre_map.rows@[j]);
                            } else {
                                assert(user_profile_map.rows@[j] == pre_map.rows@[j + 1]);
                            }
                        }
                        assert(user_profile_map.view_map() == pre_map.view_map().remove(
                            (pre_upd.view_map()[principal], principal),
                        ));
                    }
                },
                None => {
                    proof {
                        lemma_assoc_map_contains(
                            pre_map.rows@,
                            profile_key(),
                            profile_val(),
                            (old_updated, principal),
                        );
                        assert(false);
                    }
                },
            }
            let new_row = UpdatedRow { principal, updated: timestamp };
            proof {
                lemma_assoc_map_update(
                    user_profile_updated_map.rows@,
                    updated_key(),
                    updated_val(),
                    ui as int,
                    new_row,
                );
                lemma_unique_update(
                    user_profile_updated_map.rows@,
                    updated_key(),
                    ui as int,
                    new_row,
                );
            }
            user_profile_updated_map.rows.set(ui, new_row);
        },
        None => {
            proof {
                lemma_assoc_map_contains(
                    pre_upd.rows@,
                    updated_key(),
                    updated_val(),
                    principal,
                );
                assert forall|j: int|
                    0 <= j < user_profile_map.rows@.len() implies (
                #[trigger] user_profile_map.rows@[j]).principal != principal by {
                    if user_profile_map.rows@[j].principal == principal {
                        assert(pre_upd.view_map().contains_key(principal));
                    }
                }
            }
            let new_row = UpdatedRow { principal, updated: timestamp };
            proof {
                lemma_assoc_map_push(
                    user_profile_updated_map.rows@,
                    updated_key(),
                    updated_val(),
                    new_row,
                );
                lemma_unique_push(
                    user_profile_updated_map.rows@,
                    updated_key(),
                    updated_val(),
                    new_row,
                );
            }
            user_profile_updated_map.rows.push(new_row);
        },
    }
    proof {
        // On either path: no remaining profile row carries `principal`, the
        // timestamp store now records `principal -> timestamp`, and every
        // other row kept its recorded timestamp.
        assert(user_profile_updated_map.view_map() == pre_upd.view_map().insert(
            principal,
            timestamp,
        ));
        lemma_assoc_map_contains(
            user_profile_map.rows@,
            profile_key(),
            profile_val(),
            (timestamp, principal),
        );
        assert(!user_profile_map.view_map().contains_key((timestamp, principal)));
    }
    let ghost mid_map = *user_profile_map;
    let ghost mid_upd = *user_profile_updated_map;
    let profile_row = ProfileRow { updated: timestamp, principal, profile: user.clone() };
    proof {
        lemma_assoc_map_push(user_profile_map.rows@, profile_key(), profile_val(), profile_row);
        lemma_unique_push(user_profile_map.rows@, profile_key(), profile_val(), profile_row);
    }
    user_profile_map.rows.push(profile_row);
    proof {
        let post_map = *user_profile_map;
        let post_upd = *user_profile_updated_map;
        assert forall|j: int|
            0 <= j < post_map.rows@.len() implies profile_wf(
            (#[trigger] post_map.rows@[j]).profile@,
        ) by {
            if j < post_map.rows@.len() - 1 {
                assert(post_map.rows@[j] == mid_map.rows@[j]);
            } else {
                assert(post_map.rows@[j].profile@ == user@);
            }
        }
        assert forall|j: int| 0 <= j < post_upd.rows@.len() implies {
            let r = #[trigger] post_upd.rows@[j];
            post_map.view_map().contains_key((r.updated, r.principal))
        } by {
            let r = post_upd.rows@[j];
            if r.principal == principal {
                lemma_assoc_map_index(post_upd.rows@, updated_key(), updated_val(), j);
                assert(post_upd.view_map()[principal] == r.updated);
                assert(r.updated == timestamp);
            } else {
                assert(r == pre_upd.rows@[j]);
                assert(pre_map.view_map().contains_key((r.updated, r.principal)));
            }
        }
        assert forall|j: int| 0 <= j < post_map.rows@.len() implies {
            let r = #[trigger] post_map.rows@[j];
            post_upd.view_map().contains_key(r.principal) && post_upd.view_map()[r.principal]
                == r.updated
        } by {
            let r = post_map.rows@[j];
            if j < post_map.rows@.len() - 1 {
                assert(r == mid_map.rows@[j]);
                assert(r.principal != principal);
                assert(pre_upd.view_map().contains_key(r.principal) && pre_upd.view_map()[
                    r.principal
                ] == r.updated);
            }
        }
    }
}

/// The caller's stored profile; fails with `NotFound` for a principal that
/// never stored one. Reads only, though it takes the stores as the writers
/// do.
pub fn get_profile(
    principal: PrincipalId,
    user_profile_map: &mut UserProfileMap,
    user_profile_updated_map: &mut UserProfileUpdatedMap,
) -> (r: Result<StoredUserProfile, GetUserProfileError>)
    requires
        maps_wf(*old(user_profile_map), *old(user_profile_updated_map)),
    ensures
        *final(user_profile_map) == *old(user_profile_map),
        *final(user_profile_updated_map) == *old(user_profile_updated_map),
        match r {
            Ok(p) => old(user_profile_updated_map).view_map().contains_key(principal) && p@
                == old(user_profile_map).view_map()[
                (old(user_profile_updated_map).view_map()[principal], principal)
            ],
            Err(e) => !old(user_profile_updated_map).view_map().contains_key(principal) && e
                is NotFound,
        },
{
    match find_updated_index(&user_profile_updated_map.rows, principal) {
        Some(ui) => {
            proof {
                lemma_assoc_map_index(
                    user_profile_updated_map.rows@,
                    updated_key(),
                    updated_val(),
                    ui as int,
                );
            }
            let updated = user_profile_updated_map.rows[ui].updated;
            match find_profile_index(&user_profile_map.rows, updated, principal) {
                Some(pi) => {
                    proof {
                        lemma_assoc_map_index(
                            user_profile_map.rows@,
                            profile_key(),
                            profile_val(),
                            pi as int,
                        );
                    }
                    Ok(user_profile_map.rows[pi].profile.clone())
                },
                None => {
                    proof {
                        lemma_assoc_map_contains(
                            user_profile_map.rows@,
                            profile_key(),
                            profile_val(),
                            (updated, principal),
                        );
                        assert(false);
                    }
                    Err(GetUserProfileError::NotFound)
                },
            }
        },
        None => {
            proof {
                lemma_assoc_map_contains(
                    user_profile_updated_map.rows@,
                    updated_key(),
                    updated_val(),
                    principal,
                );
            }
            Err(GetUserProfileError::NotFound)
        },
    }
}

/// The caller's stored profile, or a blank one created and stored at `now`
/// for a principal that had none.
pub fn create_profile(
    principal: PrincipalId,
    now: Timestamp,
    user_profile_map: &mut UserProfileMap,
    user_profile_updated_map: &mut UserProfileUpdatedMap,
) -> (r: StoredUserProfile)
    requires
        maps_wf(*old(user_profile_map), *old(user_profile_updated_map)),
    ensures
        maps_wf(*final(user_profile_map), *final(user_profile_updated_map)),
        old(user_profile_updated_map).view_map().contains_key(principal) ==> {
            &&& *final(user_profile_map) == *old(user_profile_map)
            &&& *final(user_profile_updated_map) == *old(user_profile_updated_map)
            &&& r@ == old(user_profile_map).view_map()[
                (old(user_profile_updated_map).view_map()[principal], principal)
            ]
        },
        !old(user_profile_updated_map).view_map().contains_key(principal) ==> {
            &&& r@ == (ProfileView {
                created_timestamp: now,
                updated_timestamp: now,
                version: None,
                credentials: Seq::empty(),
            })
            &&& final(user_profile_updated_map).view_map() == old(
                user_profile_updated_map,
            ).view_map().insert(principal, now)
            &&& final(user_profile_map).view_map() == old(user_profile_map).view_map().insert(
                (now, principal),
                r@,
            )
        },
{
    let existing = match find_updated_index(&user_profile_updated_map.rows, principal) {
        Some(_) => true,
        None => false,
    };
    proof {
        lemma_assoc_map_contains(
            user_profile_updated_map.rows@,
            updated_key(),
            updated_val(),
            principal,
        );
    }
    if existing {
        match get_profile(principal, user_profile_map, user_profile_updated_map) {
            Ok(p) => p,
            Err(_) => {
                proof {
                    assert(false);
                }
                StoredUserProfile::from_timestamp(now)
            },
        }
    } else {
        let default_profile = StoredUserProfile::from_timestamp(now);
        store_user_profile(
            principal,
            now,
            &default_profile,
            user_profile_map,
            user_profile_updated_map,
        );
        default_profile
    }
}

/// Attaches a credential to the caller's profile at `now`, expecting the
/// given profile version; fails with `UserNotFound` for an unknown principal
/// and with `VersionMismatch` when the expected version is stale, leaving
/// the stores untouched either way.
pub fn add_credential(
    principal: PrincipalId,
    profile_version: Option<Version>,
    credential_type: &CredentialType,
    issuer: String,
    now: Timestamp,
    user_profile_map: &mut UserProfileMap,
    user_profile_updated_map: &mut UserProfileUpdatedMap,
) -> (r: Result<(), AddUserCredentialError>)
    requires
        maps_wf(*old(user_profile_map), *old(user_profile_updated_map)),
        forall|k: (Timestamp, PrincipalId)|
            old(user_profile_map).view_map().contains_key(k) ==> {
                let p = #[trigger] old(user_profile_map).view_map()[k];
                p.version matches Some(v) ==> v < Version::MAX
            },
    ensures
        maps_wf(*final(user_profile_map), *final(user_profile_updated_map)),
        match r {
            Ok(()) => {
                let t0 = old(user_profile_updated_map).view_map()[principal];
                let p0 = old(user_profile_map).view_map()[(t0, principal)];
                &&& old(user_profile_updated_map).view_map().contains_key(principal)
                &&& profile_version == p0.version
                &&& final(user_profile_updated_map).view_map() == old(
                    user_profile_updated_map,
                ).view_map().insert(principal, now)
                &&& final(user_profile_map).view_map().contains_key((now, principal))
                &&& {
                    let p1 = final(user_profile_map).view_map()[(now, principal)];
                    p1.created_timestamp == p0.created_timestamp && p1.updated_timestamp == now
                        && p1.version == Some(next_version(p0.version))
                }
            },
            Err(e) => {
                &&& *final(user_profile_map) == *old(user_profile_map)
                &&& *final(user_profile_updated_map) == *old(user_profile_updated_map)
                &&& if !old(user_profile_updated_map).view_map().contains_key(principal) {
                    e is UserNotFound
                } else {
                    e is VersionMismatch && profile_version != old(user_profile_map).view_map()[
                        (old(user_profile_updated_map).view_map()[principal], principal)
                    ].version
                }
            },
        },
{
    let user_profile = match get_profile(principal, user_profile_map, user_profile_updated_map) {
        Ok(p) => p,
        Err(_) => {
            return Err(AddUserCredentialError::UserNotFound);
        },
    };
    proof {
        lemma_updated_points(
            *old(user_profile_map),
            *old(user_profile_updated_map),
            principal,
        );
        let ghost k = (old(user_profile_updated_map).view_map()[principal], principal);
        lemma_map_value_wf(*old(user_profile_map), *old(user_profile_updated_map), k);
        assert(user_profile.wf());
        assert(old(user_profile_map).view_map()[k].version matches Some(v) ==> v
            < Version::MAX);
        assert(user_profile.version matches Some(v) ==> v < Version::MAX);
    }
    match user_profile.add_credential(profile_version, now, credential_type, issuer) {
        Ok(new_profile) => {
            store_user_profile(
                principal,
                now,
                &new_profile,
                user_profile_map,
                user_profile_updated_map,
            );
            Ok(())
        },
        Err(_) => Err(AddUserCredentialError::VersionMismatch),
    }
}

} // verus!
