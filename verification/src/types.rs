//! Plain data carried through the engine.
//!
//! Callers on the host side identify themselves by an opaque principal; the
//! engine only ever compares principals for equality, so it keeps them as a
//! numeric identifier. Codes and payout addresses are strings.

use vstd::prelude::*;

verus! {

/// A caller identity. The engine never inspects a principal beyond equality,
/// so one is held as a plain numeric identifier; the identifier `0` stands
/// for the anonymous principal.
#[derive(Clone, Copy, PartialEq, Eq, Structural, Debug, Hash, PartialOrd, Ord)]
pub struct PrincipalId(pub u64);

impl PrincipalId {
    /// The anonymous principal.
    pub open spec fn spec_is_anonymous(self) -> bool {
        self.0 == 0
    }

    #[verifier::when_used_as_spec(spec_is_anonymous)]
    pub fn is_anonymous(self) -> (r: bool)
        ensures
            r == self.spec_is_anonymous(),
    {
        self.0 == 0
    }

    pub fn anonymous() -> (r: Self)
        ensures
            r.spec_is_anonymous(),
    {
        PrincipalId(0)
    }
}

/// A single-use redemption code.
#[derive(Debug)]
pub struct Code(pub String);

impl View for Code {
    type V = Seq<char>;

    open spec fn view(&self) -> Seq<char> {
        self.0@
    }
}

impl Clone for Code {
    fn clone(&self) -> (r: Self)
        ensures
            r@ == self@,
    {
        Code(self.0.clone())
    }
}

/// A payout destination resolved from a principal by the host's signing
/// subsystem.
#[derive(Debug)]
pub struct EthAddress(pub String);

impl View for EthAddress {
    type V = Seq<char>;

    open spec fn view(&self) -> Seq<char> {
        self.0@
    }
}

impl Clone for EthAddress {
    fn clone(&self) -> (r: Self)
        ensures
            r@ == self@,
    {
        EthAddress(self.0.clone())
    }
}

/// A token amount queued for payout.
#[derive(Clone, Copy, PartialEq, Eq, Structural, Debug)]
pub struct AirdropAmount(pub u64);

/// A position in the payout ledger.
#[derive(Clone, Copy, PartialEq, Eq, Structural, Debug)]
pub struct Index(pub u64);

/// The recorded state of one minted code: who referred it, how deep it sits
/// in the tree, and whether it has been consumed.
#[derive(Clone, Copy, PartialEq, Eq, Structural, Debug)]
pub struct CodeState {
    pub parent_principal: PrincipalId,
    pub depth: u64,
    pub redeemed: bool,
}

impl CodeState {
    pub fn new(parent_principal: PrincipalId, depth: u64, redeemed: bool) -> (r: Self)
        ensures
            r == (CodeState { parent_principal, depth, redeemed }),
    {
        CodeState { parent_principal, depth, redeemed }
    }
}

/// One row of the referral tree store: a code together with its state.
pub struct CodeEntry {
    pub code: Code,
    pub state: CodeState,
}

/// Per-manager counters of codes generated and redeemed.
pub struct PrincipalState {
    pub name: String,
    pub codes_generated: u64,
    pub codes_redeemed: u64,
}

/// One row of the manager ledger.
pub struct ManagerEntry {
    pub principal: PrincipalId,
    pub state: PrincipalState,
}

/// What the manager ledger records for one manager, as seen by contracts.
#[verifier::ext_equal]
pub struct ManagerView {
    pub name: Seq<char>,
    pub codes_generated: u64,
    pub codes_redeemed: u64,
}

impl View for ManagerEntry {
    type V = ManagerView;

    open spec fn view(&self) -> ManagerView {
        ManagerView {
            name: self.state.name@,
            codes_generated: self.state.codes_generated,
            codes_redeemed: self.state.codes_redeemed,
        }
    }
}

/// One row of the principal registry: the code a principal redeemed and the
/// payout address resolved for it.
pub struct RegistryEntry {
    pub principal: PrincipalId,
    pub code: Code,
    pub eth_address: EthAddress,
}

/// What the registry records for one principal, as seen by contracts.
#[verifier::ext_equal]
pub struct RegistrationView {
    pub code: Seq<char>,
    pub eth_address: Seq<char>,
}

impl View for RegistryEntry {
    type V = RegistrationView;

    open spec fn view(&self) -> RegistrationView {
        RegistrationView { code: self.code@, eth_address: self.eth_address@ }
    }
}

/// One payout-ledger row: address, amount owed, and whether the off-process
/// disburser has acknowledged the transfer.
#[derive(Debug)]
pub struct EthAddressAmount {
    pub eth_address: EthAddress,
    pub amount: AirdropAmount,
    pub transferred: bool,
}

/// A payout-ledger row as seen by contracts.
#[verifier::ext_equal]
pub struct PayoutView {
    pub eth_address: Seq<char>,
    pub amount: u64,
    pub transferred: bool,
}

impl View for EthAddressAmount {
    type V = PayoutView;

    open spec fn view(&self) -> PayoutView {
        PayoutView {
            eth_address: self.eth_address@,
            amount: self.amount.0,
            transferred: self.transferred,
        }
    }
}

impl Clone for EthAddressAmount {
    fn clone(&self) -> (r: Self)
        ensures
            r@ == self@,
    {
        EthAddressAmount {
            eth_address: self.eth_address.clone(),
            amount: AirdropAmount(self.amount.0),
            transferred: self.transferred,
        }
    }
}

/// What a manager learns from generating a code: the fresh code and the
/// manager's updated counters.
#[derive(Debug)]
pub struct CodeInfo {
    pub code: Code,
    pub codes_generated: u64,
    pub codes_redeemed: u64,
}

impl CodeInfo {
    pub fn new(code: Code, codes_generated: u64, codes_redeemed: u64) -> (r: Self)
        ensures
            r.code@ == code@,
            r.codes_generated == codes_generated,
            r.codes_redeemed == codes_redeemed,
    {
        CodeInfo { code, codes_generated, codes_redeemed }
    }
}

/// What a redeemer learns: the consumed code, its own principal and resolved
/// address, and the freshly minted child codes, if any, each paired with its
/// redemption status.
#[derive(Debug)]
pub struct Info {
    pub code: Code,
    pub principal: PrincipalId,
    pub eth_address: EthAddress,
    pub children: Option<Vec<(Code, bool)>>,
}

impl Info {
    pub fn new(
        code: Code,
        principal: PrincipalId,
        eth_address: EthAddress,
        children: Option<Vec<(Code, bool)>>,
    ) -> (r: Self)
        ensures
            r.code@ == code@,
            r.principal == principal,
            r.eth_address@ == eth_address@,
            r.children == children,
    {
        Info { code, principal, eth_address, children }
    }
}

/// The view of an optional child list: each child code paired with its
/// redemption status.
pub open spec fn children_view(children: Option<Vec<(Code, bool)>>) -> Option<
    Seq<(Seq<char>, bool)>,
> {
    match children {
        Some(v) => Some(Seq::new(v@.len(), |i: int| (v@[i].0@, v@[i].1))),
        None => None,
    }
}

} // verus!
