//! Call guards: who may reach an endpoint, given the caller and the
//! backend's configuration. The host supplies both; the decisions here are
//! pure.

use vstd::prelude::*;

use crate::types::PrincipalId;

verus! {

/// How far an API is switched on.
#[derive(Clone, Copy, PartialEq, Eq, Structural, Debug)]
pub enum ApiEnabled {
    Enabled,
    ReadOnly,
    Disabled,
}

impl ApiEnabled {
    pub open spec fn spec_readable(self) -> bool {
        self is Enabled || self is ReadOnly
    }

    #[verifier::when_used_as_spec(spec_readable)]
    pub fn readable(self) -> (r: bool)
        ensures
            r == self.spec_readable(),
    {
        matches!(self, ApiEnabled::Enabled | ApiEnabled::ReadOnly)
    }

    pub open spec fn spec_writable(self) -> bool {
        self is Enabled
    }

    #[verifier::when_used_as_spec(spec_writable)]
    pub fn writable(self) -> (r: bool)
        ensures
            r == self.spec_writable(),
    {
        matches!(self, ApiEnabled::Enabled)
    }
}

/// Per-API switches.
#[derive(Clone, Copy, PartialEq, Eq, Structural, Debug)]
pub struct Guards {
    pub threshold_key: ApiEnabled,
    pub user_data: ApiEnabled,
}

impl Default for Guards {
    fn default() -> (r: Guards)
        ensures
            r == (Guards { threshold_key: ApiEnabled::Enabled, user_data: ApiEnabled::Enabled }),
    {
        Guards { threshold_key: ApiEnabled::Enabled, user_data: ApiEnabled::Enabled }
    }
}

/// The switches in force: the configured ones, or everything enabled where
/// none are configured.
pub open spec fn effective_guards(api: Option<Guards>) -> Guards {
    match api {
        Some(g) => g,
        None => Guards { threshold_key: ApiEnabled::Enabled, user_data: ApiEnabled::Enabled },
    }
}

/// The backend configuration the guards consult.
pub struct Config {
    pub allowed_callers: Vec<PrincipalId>,
    pub api: Option<Guards>,
}

/// A migration's stage, as the backend reports it.
#[derive(Clone, Copy, PartialEq, Eq, Structural, Debug)]
pub enum MigrationProgress {
    Pending,
    Locked,
    TargetLocked,
    TargetPreCheckOk,
    Completed,
}

/// Where user data is being migrated to, and how far that has come.
#[derive(Clone, Copy, PartialEq, Eq, Structural, Debug)]
pub struct MigrationReport {
    pub to: PrincipalId,
    pub progress: MigrationProgress,
}

/// The backend-side state the guards and the migration report live in.
pub struct Backend {
    pub config: Config,
    pub migration: Option<MigrationReport>,
}

impl Backend {
    /// A fresh backend: the given callers allowed, no API locks configured,
    /// and no migration in progress.
    pub fn new(allowed_callers: Vec<PrincipalId>) -> (r: Backend)
        ensures
            r.config.allowed_callers == allowed_callers,
            r.config.api is None,
            r.migration is None,
    {
        Backend { config: Config { allowed_callers, api: None }, migration: None }
    }

    /// The migration in progress, if any.
    pub fn migration(&self) -> (r: Option<MigrationReport>)
        ensures
            r == self.migration,
    {
        self.migration
    }
}

/// Accepts every caller but the anonymous principal.
pub fn caller_is_not_anonymous(caller: PrincipalId) -> (r: Result<(), String>)
    ensures
        r is Ok <==> !caller.is_anonymous(),
        r matches Err(m) ==> m@ == "Anonymous caller not authorized."@,
{
    if caller.is_anonymous() {
        Err("Anonymous caller not authorized.".to_owned())
    } else {
        Ok(())
    }
}

/// Accepts exactly the callers on the configured allow list.
pub fn caller_is_allowed(caller: PrincipalId, config: &Config) -> (r: Result<(), String>)
    ensures
        r is Ok <==> config.allowed_callers@.contains(caller),
        r matches Err(m) ==> m@ == "Caller is not allowed."@,
{
    let mut i: usize = 0;
    let n = config.allowed_callers.len();
    while i < n
        invariant
            i <= n,
            n == config.allowed_callers@.len(),
            forall|j: int| 0 <= j < i ==> config.allowed_callers@[j] != caller,
        decreases n - i,
    {
        if config.allowed_callers[i] == caller {
            return Ok(());
        }
        i += 1;
    }
    Err("Caller is not allowed.".to_owned())
}

/// User data writes are locked during and after a migration away to another
/// canister.
pub fn may_write_user_data(caller: PrincipalId, config: &Config) -> (r: Result<(), String>)
    ensures
        r is Ok <==> !caller.is_anonymous() && !effective_guards(
            config.api,
        ).user_data.spec_writable(),
        caller.is_anonymous() ==> (r matches Err(m) && m@ == "Anonymous caller not authorized."@),
        !caller.is_anonymous() && effective_guards(config.api).user_data.spec_writable() ==> (
        r matches Err(m) && m@ == "User data is in read only mode due to a migration."@),
{
    match caller_is_not_anonymous(caller) {
        Err(m) => {
            return Err(m);
        },
        Ok(()) => {},
    }
    let guards = match &config.api {
        Some(g) => *g,
        None => Guards::default(),
    };
    if guards.user_data.writable() {
        Err("User data is in read only mode due to a migration.".to_owned())
    } else {
        Ok(())
    }
}

/// User data reads are locked during and after a migration away to another
/// canister.
pub fn may_read_user_data(caller: PrincipalId, config: &Config) -> (r: Result<(), String>)
    ensures
        r is Ok <==> !caller.is_anonymous() && !effective_guards(
            config.api,
        ).user_data.spec_readable(),
        caller.is_anonymous() ==> (r matches Err(m) && m@ == "Anonymous caller not authorized."@),
        !caller.is_anonymous() && effective_guards(config.api).user_data.spec_readable() ==> (
        r matches Err(m) && m@ == "User data cannot be read at this time due to a migration."@),
{
    match caller_is_not_anonymous(caller) {
        Err(m) => {
            return Err(m);
        },
        Ok(()) => {},
    }
    let guards = match &config.api {
        Some(g) => *g,
        None => Guards::default(),
    };
    if guards.user_data.readable() {
        Err("User data cannot be read at this time due to a migration.".to_owned())
    } else {
        Ok(())
    }
}

/// Whether reading threshold public keys is switched on.
pub fn may_read_threshold_keys(caller: PrincipalId, config: &Config) -> (r: Result<(), String>)
    ensures
        r is Ok <==> !caller.is_anonymous() && !effective_guards(
            config.api,
        ).threshold_key.spec_readable(),
        caller.is_anonymous() ==> (r matches Err(m) && m@ == "Anonymous caller not authorized."@),
        !caller.is_anonymous() && effective_guards(config.api).threshold_key.spec_readable() ==> (
        r matches Err(m) && m@ == "Reading threshold keys is disabled."@),
{
    match caller_is_not_anonymous(caller) {
        Err(m) => {
            return Err(m);
        },
        Ok(()) => {},
    }
    let guards = match &config.api {
        Some(g) => *g,
        None => Guards::default(),
    };
    if guards.threshold_key.readable() {
        Err("Reading threshold keys is disabled.".to_owned())
    } else {
        Ok(())
    }
}

/// Whether signing with threshold keys is switched on.
pub fn may_threshold_sign(caller: PrincipalId, config: &Config) -> (r: Result<(), String>)
    ensures
        r is Ok <==> !caller.is_anonymous() && !effective_guards(
            config.api,
        ).threshold_key.spec_writable(),
        caller.is_anonymous() ==> (r matches Err(m) && m@ == "Anonymous caller not authorized."@),
        !caller.is_anonymous() && effective_guards(config.api).threshold_key.spec_writable() ==> (
        r matches Err(m) && m@ == "Threshold signing is disabled."@),
{
    match caller_is_not_anonymous(caller) {
        Err(m) => {
            return Err(m);
        },
        Ok(()) => {},
    }
    let guards = match &config.api {
        Some(g) => *g,
        None => Guards::default(),
    };
    if guards.threshold_key.writable() {
        Err("Threshold signing is disabled.".to_owned())
    } else {
        Ok(())
    }
}

} // verus!
