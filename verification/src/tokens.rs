//! Token identities: a user token equals another exactly when their
//! identities do, and an ICRC token's identity is its ledger canister.

use vstd::prelude::*;

use crate::types::PrincipalId;

verus! {

/// An ICRC ledger token: the ledger canister that issues it and, where
/// known, its index canister.
#[derive(Clone, Copy, Debug)]
pub struct IcrcToken {
    pub ledger_id: PrincipalId,
    pub index_id: Option<PrincipalId>,
}

/// A token a user tracks.
#[derive(Clone, Copy, Debug)]
pub enum UserToken {
    Icrc(IcrcToken),
}

/// What identifies a token, stripped of everything incidental.
#[derive(Clone, Copy, Debug)]
pub enum UserTokenId {
    Icrc(PrincipalId),
}

impl PartialEq for IcrcToken {
    fn eq(&self, other: &Self) -> (r: bool) {
        self.ledger_id == other.ledger_id
    }
}

impl vstd::std_specs::cmp::PartialEqSpecImpl for IcrcToken {
    open spec fn obeys_eq_spec() -> bool {
        true
    }

    open spec fn eq_spec(&self, other: &IcrcToken) -> bool {
        self.ledger_id == other.ledger_id
    }
}

impl From<UserToken> for UserTokenId {
    fn from(token: UserToken) -> (r: Self) {
        match token {
            UserToken::Icrc(token) => UserTokenId::Icrc(token.ledger_id),
        }
    }
}

impl vstd::std_specs::convert::FromSpecImpl<UserToken> for UserTokenId {
    open spec fn obeys_from_spec() -> bool {
        true
    }

    open spec fn from_spec(token: UserToken) -> Self {
        match token {
            UserToken::Icrc(token) => UserTokenId::Icrc(token.ledger_id),
        }
    }
}

impl PartialEq for UserTokenId {
    fn eq(&self, other: &Self) -> (r: bool) {
        match (self, other) {
            (UserTokenId::Icrc(self_ledger_id), UserTokenId::Icrc(other_ledger_id)) => {
                *self_ledger_id == *other_ledger_id
            },
        }
    }
}

impl vstd::std_specs::cmp::PartialEqSpecImpl for UserTokenId {
    open spec fn obeys_eq_spec() -> bool {
        true
    }

    open spec fn eq_spec(&self, other: &UserTokenId) -> bool {
        self->Icrc_0 == other->Icrc_0
    }
}

impl PartialEq for UserToken {
    fn eq(&self, other: &Self) -> (r: bool) {
        let self_id = UserTokenId::from(self.clone());
        let other_id = UserTokenId::from(other.clone());

        self_id == other_id
    }
}

impl vstd::std_specs::cmp::PartialEqSpecImpl for UserToken {
    open spec fn obeys_eq_spec() -> bool {
        true
    }

    open spec fn eq_spec(&self, other: &UserToken) -> bool {
        self->Icrc_0.ledger_id == other->Icrc_0.ledger_id
    }
}

} // verus!
