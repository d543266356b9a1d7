//! Call guards and the backend configuration they consult.

use airdrop::guards::{
    caller_is_allowed, caller_is_not_anonymous, may_read_threshold_keys, may_read_user_data,
    may_threshold_sign, may_write_user_data, ApiEnabled, Backend, Config, Guards,
};
use airdrop::types::PrincipalId;

fn caller() -> PrincipalId {
    PrincipalId(7)
}

fn config(api: Option<Guards>) -> Config {
    Config { allowed_callers: vec![caller()], api }
}

#[test]
fn test_anonymous_cannot_call_eth_address() {
    let result = caller_is_not_anonymous(PrincipalId::anonymous());
    assert!(result.is_err());
    assert_eq!(result.unwrap_err(), "Anonymous caller not authorized.".to_string());
}

#[test]
fn test_non_allowed_caller_cannot_call_eth_address_of() {
    let result = caller_is_allowed(PrincipalId::anonymous(), &config(None));
    assert!(result.is_err());
    assert_eq!(result.unwrap_err(), "Caller is not allowed.".to_string());
}

#[test]
fn allowed_caller_passes_both_guards() {
    assert!(caller_is_not_anonymous(caller()).is_ok());
    assert!(caller_is_allowed(caller(), &config(None)).is_ok());
}

#[test]
fn test_by_default_no_migration_is_in_progress() {
    let backend = Backend::new(vec![caller()]);
    assert_eq!(
        backend.migration(),
        None,
        "By default, no migration should be in progress"
    );
}

#[test]
fn user_data_guards_follow_the_configured_switches() {
    let locked = Some(Guards {
        threshold_key: ApiEnabled::ReadOnly,
        user_data: ApiEnabled::ReadOnly,
    });

    // With no configuration everything is enabled: writable, so writes are
    // refused; readable, so reads are refused too.
    assert_eq!(
        may_write_user_data(caller(), &config(None)).unwrap_err(),
        "User data is in read only mode due to a migration.".to_string()
    );
    assert_eq!(
        may_read_user_data(caller(), &config(None)).unwrap_err(),
        "User data cannot be read at this time due to a migration.".to_string()
    );

    // Read-only switches: not writable, still readable.
    assert!(may_write_user_data(caller(), &config(locked)).is_ok());
    assert!(may_read_user_data(caller(), &config(locked)).is_err());

    // Disabled switches: neither.
    let disabled = Some(Guards {
        threshold_key: ApiEnabled::Disabled,
        user_data: ApiEnabled::Disabled,
    });
    assert!(may_write_user_data(caller(), &config(disabled)).is_ok());
    assert!(may_read_user_data(caller(), &config(disabled)).is_ok());

    // The anonymous principal is refused before any switch is consulted.
    assert_eq!(
        may_write_user_data(PrincipalId::anonymous(), &config(locked)).unwrap_err(),
        "Anonymous caller not authorized.".to_string()
    );
}

#[test]
fn threshold_key_guards_follow_the_configured_switches() {
    let read_only = Some(Guards {
        threshold_key: ApiEnabled::ReadOnly,
        user_data: ApiEnabled::Enabled,
    });
    assert_eq!(
        may_read_threshold_keys(caller(), &config(read_only)).unwrap_err(),
        "Reading threshold keys is disabled.".to_string()
    );
    assert!(may_threshold_sign(caller(), &config(read_only)).is_ok());

    assert_eq!(
        may_threshold_sign(caller(), &config(None)).unwrap_err(),
        "Threshold signing is disabled.".to_string()
    );

    let disabled = Some(Guards {
        threshold_key: ApiEnabled::Disabled,
        user_data: ApiEnabled::Enabled,
    });
    assert!(may_read_threshold_keys(caller(), &config(disabled)).is_ok());
    assert!(may_threshold_sign(caller(), &config(disabled)).is_ok());
}
