//! User profile storage and credentials.

use airdrop::types::PrincipalId;
use airdrop::user_profile::{
    add_credential, create_profile, get_profile, AddUserCredentialError, CredentialType,
    GetUserProfileError, StoredUserProfile, UserProfileMap, UserProfileUpdatedMap,
};

fn maps() -> (UserProfileMap, UserProfileUpdatedMap) {
    (UserProfileMap::new(), UserProfileUpdatedMap::new())
}

#[test]
fn get_profile_of_unknown_principal_fails() {
    let (mut profiles, mut updated) = maps();
    let result = get_profile(PrincipalId(4), &mut profiles, &mut updated);
    assert!(matches!(result, Err(GetUserProfileError::NotFound)));
}

#[test]
fn create_profile_is_stable_across_calls() {
    let (mut profiles, mut updated) = maps();
    let created = create_profile(PrincipalId(4), 1000, &mut profiles, &mut updated);
    assert_eq!(created.created_timestamp, 1000);
    assert_eq!(created.updated_timestamp, 1000);
    assert!(created.version.is_none());
    assert!(created.credentials.is_empty());

    // A later call, at a later time, returns the stored profile unchanged.
    let again = create_profile(PrincipalId(4), 2000, &mut profiles, &mut updated);
    assert_eq!(again.created_timestamp, 1000);
    assert_eq!(again.updated_timestamp, 1000);

    let fetched = get_profile(PrincipalId(4), &mut profiles, &mut updated).unwrap();
    assert_eq!(fetched.created_timestamp, 1000);
}

#[test]
fn add_credential_bumps_version_and_timestamp() {
    let (mut profiles, mut updated) = maps();
    create_profile(PrincipalId(4), 1000, &mut profiles, &mut updated);

    let result = add_credential(
        PrincipalId(4),
        None,
        &CredentialType::ProofOfUniqueness,
        "issuer one".to_string(),
        2000,
        &mut profiles,
        &mut updated,
    );
    assert!(result.is_ok());

    let profile = get_profile(PrincipalId(4), &mut profiles, &mut updated).unwrap();
    assert_eq!(profile.created_timestamp, 1000);
    assert_eq!(profile.updated_timestamp, 2000);
    assert_eq!(profile.version, Some(1));
    assert_eq!(profile.credentials.len(), 1);
    assert_eq!(profile.credentials[0].issuer, "issuer one");
    assert_eq!(profile.credentials[0].verified_date_timestamp, Some(2000));
}

#[test]
fn add_credential_replaces_same_type() {
    let (mut profiles, mut updated) = maps();
    create_profile(PrincipalId(4), 1000, &mut profiles, &mut updated);
    add_credential(
        PrincipalId(4),
        None,
        &CredentialType::ProofOfUniqueness,
        "issuer one".to_string(),
        2000,
        &mut profiles,
        &mut updated,
    )
    .unwrap();
    add_credential(
        PrincipalId(4),
        Some(1),
        &CredentialType::ProofOfUniqueness,
        "issuer two".to_string(),
        3000,
        &mut profiles,
        &mut updated,
    )
    .unwrap();

    let profile = get_profile(PrincipalId(4), &mut profiles, &mut updated).unwrap();
    assert_eq!(profile.version, Some(2));
    assert_eq!(profile.credentials.len(), 1);
    assert_eq!(profile.credentials[0].issuer, "issuer two");
}

#[test]
fn add_credential_rejects_stale_version() {
    let (mut profiles, mut updated) = maps();
    create_profile(PrincipalId(4), 1000, &mut profiles, &mut updated);
    add_credential(
        PrincipalId(4),
        None,
        &CredentialType::ProofOfUniqueness,
        "issuer one".to_string(),
        2000,
        &mut profiles,
        &mut updated,
    )
    .unwrap();

    let stale = add_credential(
        PrincipalId(4),
        None,
        &CredentialType::ProofOfUniqueness,
        "issuer two".to_string(),
        3000,
        &mut profiles,
        &mut updated,
    );
    assert!(matches!(stale, Err(AddUserCredentialError::VersionMismatch)));

    let profile = get_profile(PrincipalId(4), &mut profiles, &mut updated).unwrap();
    assert_eq!(profile.version, Some(1));
    assert_eq!(profile.credentials[0].issuer, "issuer one");
}

#[test]
fn add_credential_to_unknown_principal_fails() {
    let (mut profiles, mut updated) = maps();
    let result = add_credential(
        PrincipalId(4),
        None,
        &CredentialType::ProofOfUniqueness,
        "issuer one".to_string(),
        2000,
        &mut profiles,
        &mut updated,
    );
    assert!(matches!(result, Err(AddUserCredentialError::UserNotFound)));
}

#[test]
fn profile_from_timestamp_is_blank() {
    let profile = StoredUserProfile::from_timestamp(42);
    assert_eq!(profile.created_timestamp, 42);
    assert_eq!(profile.updated_timestamp, 42);
    assert!(profile.version.is_none());
    assert!(profile.credentials.is_empty());
}
