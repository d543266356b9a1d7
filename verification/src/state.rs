//! The engine's single state container and its operations.
//!
//! All maps and lists live in one owned aggregate that every operation takes
//! by exclusive reference; the host's single-message execution model is what
//! makes this safe. The stores are flat vectors of rows; contracts see them
//! through `Map`, `Seq` and `Set` views.

use vstd::prelude::*;

use crate::assoc::{
    assoc_map, lemma_assoc_map_contains, lemma_assoc_map_index, lemma_assoc_map_push,
    lemma_assoc_map_update, lemma_unique_push, lemma_unique_update, unique_keys,
};
use crate::types::{
    AirdropAmount, Code, CodeEntry, CodeInfo, CodeState, EthAddress, EthAddressAmount, Index,
    Info, ManagerEntry, ManagerView, PayoutView, PrincipalId, PrincipalState, RegistrationView,
    RegistryEntry,
};
use crate::{CanisterError, INITIAL_TOKENS, MAXIMUM_DEPTH, NUMBERS_OF_CHILDREN, TOKEN_PER_PERSON};

verus! {

/// Key of a referral-tree row: the code's characters.
pub open spec fn code_key() -> spec_fn(CodeEntry) -> Seq<char> {
    |e: CodeEntry| e.code@
}

/// Value of a referral-tree row: the code's recorded state.
pub open spec fn code_val() -> spec_fn(CodeEntry) -> CodeState {
    |e: CodeEntry| e.state
}

/// Key of a manager-ledger row.
pub open spec fn manager_key() -> spec_fn(ManagerEntry) -> PrincipalId {
    |e: ManagerEntry| e.principal
}

/// Value of a manager-ledger row.
pub open spec fn manager_val() -> spec_fn(ManagerEntry) -> ManagerView {
    |e: ManagerEntry| e@
}

/// Key of a principal-registry row.
pub open spec fn registry_key() -> spec_fn(RegistryEntry) -> PrincipalId {
    |e: RegistryEntry| e.principal
}

/// Value of a principal-registry row.
pub open spec fn registry_val() -> spec_fn(RegistryEntry) -> RegistrationView {
    |e: RegistryEntry| e@
}

/// The process-wide state: code pool, referral tree store, principal
/// registry, manager ledger, payout ledger, emergency stop and token balance.
pub struct State {
    pub backend_canister_id: PrincipalId,
    pub principals_admin: Vec<PrincipalId>,
    pub principals_managers: Vec<ManagerEntry>,
    pub pre_generated_codes: Vec<Code>,
    pub codes: Vec<CodeEntry>,
    pub principals_user_eth: Vec<RegistryEntry>,
    pub airdrop_reward: Vec<EthAddressAmount>,
    pub killed: bool,
    pub tokens: u64,
}

impl State {
    /// The code pool, first code to be drawn first.
    pub open spec fn pool(self) -> Seq<Seq<char>> {
        Seq::new(self.pre_generated_codes@.len(), |i: int| self.pre_generated_codes@[i]@)
    }

    /// The referral tree store: each minted code's recorded state.
    pub open spec fn codes_map(self) -> Map<Seq<char>, CodeState> {
        assoc_map(self.codes@, code_key(), code_val())
    }

    /// The manager ledger.
    pub open spec fn managers(self) -> Map<PrincipalId, ManagerView> {
        assoc_map(self.principals_managers@, manager_key(), manager_val())
    }

    /// The principal registry: one redemption per principal.
    pub open spec fn registry(self) -> Map<PrincipalId, RegistrationView> {
        assoc_map(self.principals_user_eth@, registry_key(), registry_val())
    }

    /// The payout ledger, in insertion order.
    pub open spec fn ledger(self) -> Seq<PayoutView> {
        Seq::new(self.airdrop_reward@.len(), |i: int| self.airdrop_reward@[i]@)
    }

    /// The admin set.
    pub open spec fn admins(self) -> Set<PrincipalId> {
        self.principals_admin@.to_set()
    }

    /// Structural invariants: each store keyed once per key; pool codes
    /// pairwise distinct and not yet minted; no code deeper than
    /// `MAXIMUM_DEPTH`; every registration points at a minted, redeemed code.
    pub open spec fn wf(self) -> bool {
        &&& unique_keys(self.codes@, code_key())
        &&& unique_keys(self.principals_managers@, manager_key())
        &&& unique_keys(self.principals_user_eth@, registry_key())
        &&& forall|i: int, j: int|
            0 <= i < j < self.pre_generated_codes@.len() ==> (
            #[trigger] self.pre_generated_codes@[i])@ != (#[trigger] self.pre_generated_codes@[j])@
        &&& forall|i: int|
            0 <= i < self.pre_generated_codes@.len() ==> !self.codes_map().contains_key(
                (#[trigger] self.pre_generated_codes@[i])@,
            )
        &&& forall|i: int|
            0 <= i < self.codes@.len() ==> (#[trigger] self.codes@[i]).state.depth
                <= MAXIMUM_DEPTH
        &&& forall|i: int|
            0 <= i < self.principals_user_eth@.len() ==> {
                let e = #[trigger] self.principals_user_eth@[i];
                self.codes_map().contains_key(e.code@) && self.codes_map()[e.code@].redeemed
            }
    }

    /// A fresh state: empty stores, emergency stop off, the initial token
    /// balance, and the given principal as first admin.
    pub fn new(backend_canister_id: PrincipalId, initial_admin: PrincipalId) -> (r: State)
        ensures
            r.wf(),
            r.backend_canister_id == backend_canister_id,
            r.pool() == Seq::<Seq<char>>::empty(),
            r.codes_map() == Map::<Seq<char>, CodeState>::empty(),
            r.managers() == Map::<PrincipalId, ManagerView>::empty(),
            r.registry() == Map::<PrincipalId, RegistrationView>::empty(),
            r.ledger() == Seq::<PayoutView>::empty(),
            r.admins() == Set::<PrincipalId>::empty().insert(initial_admin),
            !r.killed,
            r.tokens == INITIAL_TOKENS,
    {
        let mut principals_admin: Vec<PrincipalId> = Vec::new();
        principals_admin.push(initial_admin);
        let r = State {
            backend_canister_id,
            principals_admin,
            principals_managers: Vec::new(),
            pre_generated_codes: Vec::new(),
            codes: Vec::new(),
            principals_user_eth: Vec::new(),
            airdrop_reward: Vec::new(),
            killed: false,
            tokens: INITIAL_TOKENS,
        };
        proof {
            assert(r.pool() =~= Seq::<Seq<char>>::empty());
            assert(r.ledger() =~= Seq::<PayoutView>::empty());
            assert forall|x: PrincipalId|
                r.principals_admin@.contains(x) <==> x == initial_admin by {
                if r.principals_admin@.contains(x) {
                    let k = choose|k: int|
                        0 <= k < r.principals_admin@.len() && r.principals_admin@[k] == x;
                    assert(k == 0);
                } else if x == initial_admin {
                    assert(r.principals_admin@[0] == x);
                }
            }
            assert(r.admins() =~= Set::<PrincipalId>::empty().insert(initial_admin));
        }
        r
    }

    /// Fails with `CanisterKilled` exactly when the emergency stop is set.
    pub fn check_if_killed(&self) -> (r: Result<(), CanisterError>)
        ensures
            match r {
                Ok(()) => !self.killed,
                Err(e) => self.killed && e is CanisterKilled,
            },
    {
        if self.killed {
            Err(CanisterError::CanisterKilled)
        } else {
            Ok(())
        }
    }

    /// Sets the emergency stop; admin-only at the boundary.
    pub fn kill_canister(&mut self) -> (r: Result<(), CanisterError>)
        ensures
            *final(self) == (State { killed: true, ..*old(self) }),
            r is Ok,
    {
        self.killed = true;
        Ok(())
    }

    /// Clears the emergency stop; admin-only at the boundary.
    pub fn bring_caninster_back_to_life(&mut self) -> (r: Result<(), CanisterError>)
        ensures
            *final(self) == (State { killed: false, ..*old(self) }),
            r is Ok,
    {
        self.killed = false;
        Ok(())
    }

    /// Deducts `amount` from the token balance; fails, changing nothing,
    /// when the balance is short.
    pub fn deduct_tokens(&mut self, amount: u64) -> (r: Result<(), CanisterError>)
        ensures
            match r {
                Ok(()) => old(self).tokens >= amount && *final(self) == (State {
                    tokens: (old(self).tokens - amount) as u64,
                    ..*old(self)
                }),
                Err(e) => old(self).tokens < amount && *final(self) == *old(self) && e
                    is GeneralError,
            },
    {
        if self.tokens >= amount {
            self.tokens = self.tokens - amount;
            Ok(())
        } else {
            Err(CanisterError::GeneralError("insufficient tokens".to_owned()))
        }
    }

    /// Whether the given principal may generate codes.
    pub fn is_manager(&self, principal: PrincipalId) -> (r: bool)
        ensures
            r == self.managers().contains_key(principal),
    {
        let r = find_manager_index(&self.principals_managers, principal);
        proof {
            lemma_assoc_map_contains(
                self.principals_managers@,
                manager_key(),
                manager_val(),
                principal,
            );
        }
        r.is_some()
    }

    /// Records a new admin; adding one twice leaves the set as it was.
    pub fn add_admin(&mut self, principal: PrincipalId) -> (r: Result<(), CanisterError>)
        ensures
            final(self).admins() == old(self).admins().insert(principal),
            *final(self) == (State {
                principals_admin: final(self).principals_admin,
                ..*old(self)
            }),
            r is Ok,
    {
        let mut i: usize = 0;
        let n = self.principals_admin.len();
        while i < n
            invariant
                i <= n,
                n == self.principals_admin@.len(),
                forall|j: int| 0 <= j < i ==> self.principals_admin@[j] != principal,
            decreases n - i,
        {
            if self.principals_admin[i] == principal {
                proof {
                    assert(self.principals_admin@.contains(principal));
                    assert(self.admins() =~= self.admins().insert(principal));
                }
                return Ok(());
            }
            i += 1;
        }
        proof {
            assert(!old(self).principals_admin@.contains(principal));
        }
        self.principals_admin.push(principal);
        proof {
            assert forall|x: PrincipalId|
                self.principals_admin@.contains(x) <==> (old(self).principals_admin@.contains(x) || x == principal) by {
                if self.principals_admin@.contains(x) {
                    let k = choose|k: int|
                        0 <= k < self.principals_admin@.len() && self.principals_admin@[k] == x;
                    if k < old(self).principals_admin@.len() {
                        assert(old(self).principals_admin@.contains(x));
                    }
                }
                if old(self).principals_admin@.contains(x) {
                    let k = choose|k: int|
                        0 <= k < old(self).principals_admin@.len() && old(self).principals_admin@[k] == x;
                    assert(self.principals_admin@[k] == x);
                }
                if x == principal {
                    assert(self.principals_admin@.last() == x);
                }
            }
            assert(self.admins() =~= old(self).admins().insert(principal));
        }
        Ok(())
    }

    /// Records a manager under the given display name; a principal already on
    /// the manager ledger keeps its record, counters included.
    pub fn add_manager(&mut self, principal: PrincipalId, name: String) -> (r: Result<
        (),
        CanisterError,
    >)
        requires
            old(self).wf(),
        ensures
            final(self).wf(),
            final(self).managers() == if old(self).managers().contains_key(principal) {
                old(self).managers()
            } else {
                old(self).managers().insert(
                    principal,
                    ManagerView { name: name@, codes_generated: 0, codes_redeemed: 0 },
                )
            },
            *final(self) == (State {
                principals_managers: final(self).principals_managers,
                ..*old(self)
            }),
            r is Ok,
    {
        let found = find_manager_index(&self.principals_managers, principal);
        proof {
            lemma_assoc_map_contains(
                self.principals_managers@,
                manager_key(),
                manager_val(),
                principal,
            );
        }
        if found.is_none() {
            let entry = ManagerEntry {
                principal,
                state: PrincipalState { name, codes_generated: 0, codes_redeemed: 0 },
            };
            proof {
                lemma_assoc_map_push(
                    self.principals_managers@,
                    manager_key(),
                    manager_val(),
                    entry,
                );
            }
            self.principals_managers.push(entry);
            proof {
                lemma_unique_push(
                    old(self).principals_managers@,
                    manager_key(),
                    manager_val(),
                    entry,
                );
            }
        }
        Ok(())
    }

    /// Appends admin-supplied codes to the pool. The supplied codes must be
    /// fresh: pairwise distinct, not already pooled, never minted.
    pub fn add_codes(&mut self, codes: Vec<String>) -> (r: Result<(), CanisterError>)
        requires
            old(self).wf(),
            forall|i: int, j: int|
                0 <= i < j < codes@.len() ==> (#[trigger] codes@[i])@ != (#[trigger] codes@[j])@,
            forall|i: int|
                0 <= i < codes@.len() ==> !old(self).codes_map().contains_key(
                    (#[trigger] codes@[i])@,
                ) && !old(self).pool().contains(codes@[i]@),
        ensures
            final(self).wf(),
            final(self).pool() == old(self).pool() + Seq::new(
                codes@.len(),
                |i: int| codes@[i]@,
            ),
            *final(self) == (State {
                pre_generated_codes: final(self).pre_generated_codes,
                ..*old(self)
            }),
            r is Ok,
    {
        let ghost supplied = Seq::new(codes@.len(), |i: int| codes@[i]@);
        let mut i: usize = 0;
        let n = codes.len();
        while i < n
            invariant
                i <= n,
                n == codes@.len(),
                self.pre_generated_codes@.len() == old(self).pre_generated_codes@.len() + i,
                forall|j: int|
                    0 <= j < old(self).pre_generated_codes@.len() ==> self.pre_generated_codes@[j]
                        == old(self).pre_generated_codes@[j],
                forall|j: int|
                    0 <= j < i ==> (#[trigger] self.pre_generated_codes@[old(self).pre_generated_codes@.len() + j])@ == codes@[j]@,
                *self == (State {
                    pre_generated_codes: self.pre_generated_codes,
                    ..*old(self)
                }),
            decreases n - i,
        {
            let code = Code(codes[i].clone());
            self.pre_generated_codes.push(code);
            i += 1;
        }
        proof {
            let oldn = old(self).pre_generated_codes@.len() as int;
            assert forall|k: int| 0 <= k < self.pre_generated_codes@.len() implies (
            #[trigger] self.pre_generated_codes@[k])@ == (old(self).pool() + supplied)[k] by {
                if k < oldn {
                    assert(self.pre_generated_codes@[k] == old(self).pre_generated_codes@[k]);
                    assert(old(self).pool()[k] == old(self).pre_generated_codes@[k]@);
                } else {
                    assert(self.pre_generated_codes@[oldn + (k - oldn)]@ == codes@[k - oldn]@);
                }
            }
            assert(self.pool() =~= old(self).pool() + supplied);
            assert forall|a: int, b: int|
                0 <= a < b < self.pre_generated_codes@.len() implies (
            #[trigger] self.pre_generated_codes@[a])@ != (
            #[trigger] self.pre_generated_codes@[b])@ by {
                assert(self.pool()[a] == self.pre_generated_codes@[a]@);
                assert(self.pool()[b] == self.pre_generated_codes@[b]@);
                if b < oldn {
                    assert(old(self).pool()[a] == old(self).pre_generated_codes@[a]@);
                    assert(old(self).pool()[b] == old(self).pre_generated_codes@[b]@);
                } else if a < oldn {
                    assert(self.pool()[b] == supplied[b - oldn]);
                    assert(old(self).pool()[a] == old(self).pre_generated_codes@[a]@);
                    assert(old(self).pool().contains(old(self).pool()[a]));
                } else {
                    assert(self.pool()[a] == supplied[a - oldn]);
                    assert(self.pool()[b] == supplied[b - oldn]);
                }
            }
            assert forall|a: int|
                0 <= a < self.pre_generated_codes@.len() implies !self.codes_map().contains_key(
                (#[trigger] self.pre_generated_codes@[a])@,
            ) by {
                assert(self.codes_map() == old(self).codes_map());
                if a < oldn {
                    assert(old(self).pre_generated_codes@[a] == self.pre_generated_codes@[a]);
                } else {
                    assert(self.pool()[a] == supplied[a - oldn]);
                    assert(old(self).pool().contains(codes@[a - oldn]@) == false);
                }
            }
        }
        Ok(())
    }

    /// Draws the next code from the pool, strictly first-in first-out; fails
    /// with `NoMoreCodes`, changing nothing, when the pool is empty.
    pub fn get_pre_codes(&mut self) -> (r: Result<Code, CanisterError>)
        ensures
            match r {
                Ok(code) => old(self).pool().len() > 0 && code@ == old(self).pool()[0] && final(self).pool() == old(self).pool().skip(1) && *final(self) == (State {
                    pre_generated_codes: final(self).pre_generated_codes,
                    ..*old(self)
                }),
                Err(e) => old(self).pool().len() == 0 && *final(self) == *old(self) && e
                    is NoMoreCodes,
            },
    {
        if self.pre_generated_codes.len() == 0 {
            Err(CanisterError::NoMoreCodes)
        } else {
            let code = self.pre_generated_codes.remove(0);
            proof {
                assert(self.pool() =~= old(self).pool().skip(1));
            }
            Ok(code)
        }
    }

    /// Appends one payout-ledger entry, not yet transferred, for the given
    /// address.
    pub fn add_user_to_airdrop_reward(&mut self, eth_address: EthAddress, amount: AirdropAmount)
        ensures
            final(self).ledger() == old(self).ledger().push(
                PayoutView { eth_address: eth_address@, amount: amount.0, transferred: false },
            ),
            *final(self) == (State { airdrop_reward: final(self).airdrop_reward, ..*old(self) }),
    {
        self.airdrop_reward.push(EthAddressAmount { eth_address, amount, transferred: false });
        proof {
            assert(self.ledger() =~= old(self).ledger().push(self.airdrop_reward@.last()@));
        }
    }

    /// Links a principal to the code it redeemed and its resolved address.
    /// The engine registers a principal at most once.
    pub fn register_principal_with_eth_address(
        &mut self,
        principal: PrincipalId,
        code: Code,
        eth_address: EthAddress,
    )
        ensures
            final(self).registry() == old(self).registry().insert(
                principal,
                RegistrationView { code: code@, eth_address: eth_address@ },
            ),
            final(self).principals_user_eth@ == old(self).principals_user_eth@.push(
                final(self).principals_user_eth@.last(),
            ),
            final(self).principals_user_eth@.last().principal == principal,
            final(self).principals_user_eth@.last().code@ == code@,
            final(self).principals_user_eth@.last().eth_address@ == eth_address@,
            *final(self) == (State {
                principals_user_eth: final(self).principals_user_eth,
                ..*old(self)
            }),
    {
        let entry = RegistryEntry { principal, code, eth_address };
        proof {
            lemma_assoc_map_push(self.principals_user_eth@, registry_key(), registry_val(), entry);
        }
        self.principals_user_eth.push(entry);
        proof {
            assert(self.principals_user_eth@ =~= old(self).principals_user_eth@.push(
                self.principals_user_eth@.last(),
            ));
        }
    }
}

/// The codes whose recorded parent is `parent`, in mint order, each paired
/// with its redemption status.
pub open spec fn children_of(rows: Seq<CodeEntry>, parent: PrincipalId) -> Seq<(Seq<char>, bool)>
    decreases rows.len(),
{
    if rows.len() == 0 {
        Seq::empty()
    } else {
        children_of(rows.drop_last(), parent) + if rows.last().state.parent_principal == parent {
            seq![(rows.last().code@, rows.last().state.redeemed)]
        } else {
            Seq::empty()
        }
    }
}

/// The view of a built child list.
pub open spec fn pairs_view(s: Seq<(Code, bool)>) -> Seq<(Seq<char>, bool)> {
    Seq::new(s.len(), |i: int| (s[i].0@, s[i].1))
}

/// The rows an export starting at `from` returns: every entry from that
/// position on whose transfer is still pending, in ledger order.
pub open spec fn export_entries(ledger: Seq<PayoutView>, from: int) -> Seq<PayoutView>
    decreases ledger.len(),
{
    if ledger.len() == 0 {
        Seq::empty()
    } else {
        export_entries(ledger.drop_last(), from) + if ledger.len() - 1 >= from
            && !ledger.last().transferred {
            seq![ledger.last()]
        } else {
            Seq::empty()
        }
    }
}

/// The cursor an export starting at `from` returns: the position of the last
/// pending entry found, or `fallback` when none is.
pub open spec fn export_cursor(ledger: Seq<PayoutView>, from: int, fallback: u64) -> u64
    decreases ledger.len(),
{
    if ledger.len() == 0 {
        fallback
    } else if ledger.len() - 1 >= from && !ledger.last().transferred {
        (ledger.len() - 1) as u64
    } else {
        export_cursor(ledger.drop_last(), from, fallback)
    }
}

/// The ledger after an acknowledgment: from `from` on, every entry for the
/// given address is marked transferred; nothing else moves.
pub open spec fn acknowledge_ledger(ledger: Seq<PayoutView>, from: int, eth: Seq<char>) -> Seq<
    PayoutView,
> {
    Seq::new(
        ledger.len(),
        |i: int|
            if i >= from && ledger[i].eth_address == eth {
                PayoutView { transferred: true, ..ledger[i] }
            } else {
                ledger[i]
            },
    )
}

/// An export that starts at or past the ledger's end finds nothing.
proof fn lemma_export_past_end(ledger: Seq<PayoutView>, from: int, fallback: u64)
    requires
        ledger.len() <= from,
    ensures
        export_entries(ledger, from) == Seq::<PayoutView>::empty(),
        export_cursor(ledger, from, fallback) == fallback,
    decreases ledger.len(),
{
    if ledger.len() > 0 {
        lemma_export_past_end(ledger.drop_last(), from, fallback);
        assert(export_entries(ledger, from) =~= Seq::<PayoutView>::empty());
    }
}

/// What `generate_code` does: on success the pool's front code is minted at
/// depth zero under the calling manager, whose generated counter steps up by
/// one; on an empty pool the call fails with `NoMoreCodes` and changes
/// nothing.
pub open spec fn generate_code_spec(
    pre: State,
    post: State,
    caller: PrincipalId,
    r: Result<CodeInfo, CanisterError>,
) -> bool {
    match r {
        Ok(ci) => {
            &&& pre.pool().len() > 0
            &&& post.pool() == pre.pool().skip(1)
            &&& post.codes_map() == pre.codes_map().insert(
                pre.pool()[0],
                CodeState { parent_principal: caller, depth: 0, redeemed: false },
            )
            &&& post.codes@.len() == pre.codes@.len() + 1
            &&& post.codes@.subrange(0, pre.codes@.len() as int) == pre.codes@
            &&& post.codes@.last().code@ == pre.pool()[0]
            &&& post.codes@.last().state == (CodeState {
                parent_principal: caller,
                depth: 0,
                redeemed: false,
            })
            &&& post.managers() == pre.managers().insert(
                caller,
                ManagerView {
                    name: pre.managers()[caller].name,
                    codes_generated: (pre.managers()[caller].codes_generated + 1) as u64,
                    codes_redeemed: pre.managers()[caller].codes_redeemed,
                },
            )
            &&& post.registry() == pre.registry()
            &&& post.ledger() == pre.ledger()
            &&& post.admins() == pre.admins()
            &&& post.killed == pre.killed
            &&& post.tokens == pre.tokens
            &&& post.backend_canister_id == pre.backend_canister_id
            &&& ci.code@ == pre.pool()[0]
            &&& ci.codes_generated == pre.managers()[caller].codes_generated + 1
            &&& ci.codes_redeemed == pre.managers()[caller].codes_redeemed
        },
        Err(e) => pre.pool().len() == 0 && post == pre && e is NoMoreCodes,
    }
}

impl State {
    /// Draws one pool code and mints it at depth zero under the calling
    /// manager. The caller must be on the manager ledger; the role guard at
    /// the boundary ensures that.
    pub fn generate_code(&mut self, caller: PrincipalId) -> (r: Result<CodeInfo, CanisterError>)
        requires
            old(self).wf(),
            old(self).managers().contains_key(caller),
            old(self).managers()[caller].codes_generated < u64::MAX,
        ensures
            final(self).wf(),
            generate_code_spec(*old(self), *final(self), caller, r),
    {
        let code = match self.get_pre_codes() {
            Ok(c) => c,
            Err(e) => {
                return Err(e);
            },
        };
        let entry = CodeEntry {
            code: Code(code.0.clone()),
            state: CodeState::new(caller, 0, false),
        };
        proof {
            assert(old(self).pre_generated_codes@[0]@ == entry.code@);
            assert(!old(self).codes_map().contains_key(entry.code@));
            lemma_assoc_map_push(self.codes@, code_key(), code_val(), entry);
            lemma_unique_push(self.codes@, code_key(), code_val(), entry);
        }
        self.codes.push(entry);
        let mi = match find_manager_index(&self.principals_managers, caller) {
            Some(i) => i,
            None => {
                proof {
                    lemma_assoc_map_contains(
                        self.principals_managers@,
                        manager_key(),
                        manager_val(),
                        caller,
                    );
                }
                assert(false);
                return Err(CanisterError::NoMoreCodes);
            },
        };
        proof {
            lemma_assoc_map_index(
                self.principals_managers@,
                manager_key(),
                manager_val(),
                mi as int,
            );
        }
        let name = self.principals_managers[mi].state.name.clone();
        let generated = self.principals_managers[mi].state.codes_generated + 1;
        let redeemed_count = self.principals_managers[mi].state.codes_redeemed;
        let new_entry = ManagerEntry {
            principal: caller,
            state: PrincipalState {
                name,
                codes_generated: generated,
                codes_redeemed: redeemed_count,
            },
        };
        proof {
            lemma_assoc_map_update(
                self.principals_managers@,
                manager_key(),
                manager_val(),
                mi as int,
                new_entry,
            );
            lemma_unique_update(self.principals_managers@, manager_key(), mi as int, new_entry);
        }
        self.principals_managers.set(mi, new_entry);
        proof {
            self.lemma_wf_after_mint(*old(self), caller);
            assert(self.codes@.subrange(0, old(self).codes@.len() as int) =~= old(self).codes@);
        }
        Ok(CodeInfo::new(code, generated, redeemed_count))
    }

    /// Re-establishes the invariants after `generate_code`'s edits: the pool
    /// lost its front code, the tree gained that code at depth zero, and one
    /// manager row changed counters only.
    proof fn lemma_wf_after_mint(self, pre: State, caller: PrincipalId)
        requires
            pre.wf(),
            pre.pool().len() > 0,
            self.pool() == pre.pool().skip(1),
            self.codes_map() == pre.codes_map().insert(
                pre.pool()[0],
                CodeState { parent_principal: caller, depth: 0, redeemed: false },
            ),
            self.codes@ == pre.codes@.push(
                CodeEntry {
                    code: self.codes@.last().code,
                    state: CodeState { parent_principal: caller, depth: 0, redeemed: false },
                },
            ),
            unique_keys(self.codes@, code_key()),
            unique_keys(self.principals_managers@, manager_key()),
            self.principals_user_eth@ == pre.principals_user_eth@,
        ensures
            self.wf(),
    {
        assert(self.pool().len() == self.pre_generated_codes@.len());
        assert(pre.pool().len() == pre.pre_generated_codes@.len());
        assert(pre.pool().skip(1).len() == pre.pool().len() - 1);
        assert(self.pool().len() == pre.pool().len() - 1);
        assert forall|i: int, j: int|
            0 <= i < j < self.pre_generated_codes@.len() implies (
        #[trigger] self.pre_generated_codes@[i])@ != (
        #[trigger] self.pre_generated_codes@[j])@ by {
            assert(self.pool()[i] == self.pre_generated_codes@[i]@);
            assert(self.pool()[j] == self.pre_generated_codes@[j]@);
            assert(pre.pool().skip(1)[i] == pre.pool()[i + 1]);
            assert(pre.pool().skip(1)[j] == pre.pool()[j + 1]);
            assert(pre.pool()[i + 1] == pre.pre_generated_codes@[i + 1]@);
            assert(pre.pool()[j + 1] == pre.pre_generated_codes@[j + 1]@);
        }
        assert forall|i: int|
            0 <= i < self.pre_generated_codes@.len() implies !self.codes_map().contains_key(
            (#[trigger] self.pre_generated_codes@[i])@,
        ) by {
            assert(self.pool()[i] == self.pre_generated_codes@[i]@);
            assert(pre.pool().skip(1)[i] == pre.pool()[i + 1]);
            assert(pre.pool()[i + 1] == pre.pre_generated_codes@[i + 1]@);
            assert(pre.pool()[0] == pre.pre_generated_codes@[0]@);
            assert(!pre.codes_map().contains_key(pre.pre_generated_codes@[i + 1]@));
            assert(pre.pool()[i + 1] != pre.pool()[0]);
        }
        assert forall|i: int|
            0 <= i < self.codes@.len() implies (#[trigger] self.codes@[i]).state.depth
            <= MAXIMUM_DEPTH by {
            if i < pre.codes@.len() {
                assert(self.codes@[i] == pre.codes@[i]);
            }
        }
        assert forall|i: int| 0 <= i < self.principals_user_eth@.len() implies {
            let e = #[trigger] self.principals_user_eth@[i];
            self.codes_map().contains_key(e.code@) && self.codes_map()[e.code@].redeemed
        } by {
            let e = self.principals_user_eth@[i];
            assert(pre.principals_user_eth@[i] == e);
            assert(pre.codes_map().contains_key(e.code@) && pre.codes_map()[e.code@].redeemed);
            assert(pre.pool()[0] == pre.pre_generated_codes@[0]@);
            assert(!pre.codes_map().contains_key(pre.pool()[0]));
            assert(e.code@ != pre.pool()[0]);
        }
    }

    /// Returns the caller's registration together with the codes minted under
    /// it, each paired with its redemption status; `None` children when the
    /// caller has minted none. Fails with `CanisterKilled` under the
    /// emergency stop and with `CodeNotFound` for an unregistered caller.
    pub fn get_code(&self, caller: PrincipalId) -> (r: Result<Info, CanisterError>)
        requires
            self.wf(),
        ensures
            match r {
                Ok(info) => {
                    &&& !self.killed
                    &&& self.registry().contains_key(caller)
                    &&& info.code@ == self.registry()[caller].code
                    &&& info.principal == caller
                    &&& info.eth_address@ == self.registry()[caller].eth_address
                    &&& crate::types::children_view(info.children) == if children_of(
                        self.codes@,
                        caller,
                    ).len() == 0 {
                        None::<Seq<(Seq<char>, bool)>>
                    } else {
                        Some(children_of(self.codes@, caller))
                    }
                },
                Err(e) => (self.killed && e is CanisterKilled) || (!self.killed
                    && !self.registry().contains_key(caller) && e is CodeNotFound),
            },
    {
        if self.killed {
            return Err(CanisterError::CanisterKilled);
        }
        let ri = match find_registry_index(&self.principals_user_eth, caller) {
            Some(i) => i,
            None => {
                proof {
                    lemma_assoc_map_contains(
                        self.principals_user_eth@,
                        registry_key(),
                        registry_val(),
                        caller,
                    );
                }
                return Err(CanisterError::CodeNotFound);
            },
        };
        proof {
            lemma_assoc_map_index(
                self.principals_user_eth@,
                registry_key(),
                registry_val(),
                ri as int,
            );
        }
        let code = Code(self.principals_user_eth[ri].code.0.clone());
        let eth_address = EthAddress(self.principals_user_eth[ri].eth_address.0.clone());

        let mut children: Vec<(Code, bool)> = Vec::new();
        let mut k: usize = 0;
        let n = self.codes.len();
        while k < n
            invariant
                k <= n,
                n == self.codes@.len(),
                pairs_view(children@) == children_of(self.codes@.take(k as int), caller),
            decreases n - k,
        {
            let ghost prefix = self.codes@.take(k as int);
            if self.codes[k].state.parent_principal == caller {
                let pair = (Code(self.codes[k].code.0.clone()), self.codes[k].state.redeemed);
                let ghost before = children@;
                children.push(pair);
                proof {
                    assert(pairs_view(children@) =~= pairs_view(before).push(
                        (self.codes@[k as int].code@, self.codes@[k as int].state.redeemed),
                    ));
                }
            }
            proof {
                assert(self.codes@.take(k + 1 as int).drop_last() =~= prefix);
                assert(self.codes@.take(k + 1 as int).last() == self.codes@[k as int]);
                if self.codes@[k as int].state.parent_principal != caller {
                    assert(children_of(self.codes@.take(k + 1 as int), caller) =~= children_of(
                        prefix,
                        caller,
                    ));
                }
            }
            k += 1;
        }
        proof {
            assert(self.codes@.take(n as int) =~= self.codes@);
        }
        let children = if children.len() == 0 {
            None
        } else {
            Some(children)
        };
        let info = Info::new(code, caller, eth_address, children);
        proof {
            match &info.children {
                Some(v) => {
                    assert(crate::types::children_view(info.children) == Some(pairs_view(v@)))
                        by {
                        assert(Seq::new(v@.len(), |i: int| (v@[i].0@, v@[i].1)) =~= pairs_view(
                            v@,
                        ));
                    }
                },
                None => {},
            }
        }
        Ok(info)
    }

    /// Scans the payout ledger from `index` and returns every still-pending
    /// entry, with the cursor moved to the last pending position found (or
    /// handed back unchanged when none is). A repeated export from the same
    /// index returns the same batch until an acknowledgment changes state.
    pub fn get_airdrop(&self, index: Index) -> (r: Result<
        (Index, Vec<EthAddressAmount>),
        CanisterError,
    >)
        ensures
            export_outcome(*self, index, r),
    {
        if self.killed {
            return Err(CanisterError::CanisterKilled);
        }
        let ghost from = index.0 as int;
        let mut airdrop: Vec<EthAddressAmount> = Vec::new();
        let mut cursor = index;
        let len = self.airdrop_reward.len();
        let mut k: usize = if index.0 >= len as u64 {
            len
        } else {
            index.0 as usize
        };
        proof {
            lemma_export_past_end(self.ledger().take(k as int), from, index.0);
        }
        while k < len
            invariant
                k <= len,
                len == self.airdrop_reward@.len(),
                Seq::new(airdrop@.len(), |i: int| airdrop@[i]@) == export_entries(
                    self.ledger().take(k as int),
                    from,
                ),
                cursor.0 == export_cursor(self.ledger().take(k as int), from, index.0),
                from <= k || k == len,
            decreases len - k,
        {
            let ghost prefix = self.ledger().take(k as int);
            let ghost out_before = airdrop@;
            if !self.airdrop_reward[k].transferred {
                let e = &self.airdrop_reward[k];
                airdrop.push(
                    EthAddressAmount {
                        eth_address: e.eth_address.clone(),
                        amount: e.amount,
                        transferred: e.transferred,
                    },
                );
                cursor = Index(k as u64);
            }
            proof {
                assert(self.ledger().take(k + 1 as int).drop_last() =~= prefix);
                assert(self.ledger().take(k + 1 as int).last() == self.ledger()[k as int]);
                assert(self.ledger()[k as int] == self.airdrop_reward@[k as int]@);
                if !self.airdrop_reward@[k as int]@.transferred {
                    assert(Seq::new(airdrop@.len(), |i: int| airdrop@[i]@) =~= Seq::new(
                        out_before.len(),
                        |i: int| out_before[i]@,
                    ).push(self.ledger()[k as int]));
                    assert(export_entries(self.ledger().take(k + 1 as int), from)
                        =~= export_entries(prefix, from).push(self.ledger()[k as int]));
                } else {
                    assert(export_entries(self.ledger().take(k + 1 as int), from)
                        =~= export_entries(prefix, from));
                }
            }
            k += 1;
        }
        proof {
            assert(self.ledger().take(len as int) =~= self.ledger());
        }
        Ok((cursor, airdrop))
    }

    /// Marks, from `index` to the ledger's end, every entry whose address
    /// equals the given entry's address as transferred — matching is by
    /// address, not by position.
    pub fn put_airdrop(&mut self, index: Index, eth_address_amount: &EthAddressAmount) -> (r:
        Result<(), CanisterError>)
        ensures
            match r {
                Ok(()) => {
                    &&& !old(self).killed
                    &&& final(self).ledger() == acknowledge_ledger(
                        old(self).ledger(),
                        index.0 as int,
                        eth_address_amount.eth_address@,
                    )
                    &&& *final(self) == (State {
                        airdrop_reward: final(self).airdrop_reward,
                        ..*old(self)
                    })
                },
                Err(e) => old(self).killed && *final(self) == *old(self) && e is CanisterKilled,
            },
    {
        if self.killed {
            return Err(CanisterError::CanisterKilled);
        }
        let ghost from = index.0 as int;
        let ghost target = acknowledge_ledger(
            old(self).ledger(),
            from,
            eth_address_amount.eth_address@,
        );
        let len = self.airdrop_reward.len();
        let mut k: usize = if index.0 >= len as u64 {
            len
        } else {
            index.0 as usize
        };
        proof {
            assert(target.len() == len as int);
            assert forall|j: int| 0 <= j < k as int implies (
            #[trigger] self.airdrop_reward@[j])@ == target[j] by {
                assert(j < from);
            }
        }
        while k < len
            invariant
                k <= len,
                len == self.airdrop_reward@.len(),
                len == old(self).airdrop_reward@.len(),
                target == acknowledge_ledger(
                    old(self).ledger(),
                    from,
                    eth_address_amount.eth_address@,
                ),
                target.len() == len as int,
                forall|j: int| k <= j < len ==> self.airdrop_reward@[j] == old(
                    self,
                ).airdrop_reward@[j],
                forall|j: int|
                    0 <= j < k ==> (#[trigger] self.airdrop_reward@[j])@ == target[j],
                from <= k || k == len,
                *self == (State { airdrop_reward: self.airdrop_reward, ..*old(self) }),
            decreases len - k,
        {
            proof {
                assert(self.airdrop_reward@[k as int] == old(self).airdrop_reward@[k as int]);
            }
            let is_match = self.airdrop_reward[k].eth_address.0
                == eth_address_amount.eth_address.0;
            if is_match {
                let updated = EthAddressAmount {
                    eth_address: self.airdrop_reward[k].eth_address.clone(),
                    amount: self.airdrop_reward[k].amount,
                    transferred: true,
                };
                self.airdrop_reward.set(k, updated);
            }
            proof {
                let kk = k as int;
                assert(old(self).ledger()[kk] == old(self).airdrop_reward@[kk]@);
                assert(from <= kk);
                if is_match {
                    assert(target[kk] == (PayoutView {
                        transferred: true,
                        ..old(self).ledger()[kk]
                    }));
                    assert(self.airdrop_reward@[kk]@ == target[kk]);
                } else {
                    assert(target[kk] == old(self).ledger()[kk]);
                    assert(self.airdrop_reward@[kk]@ == target[kk]);
                }
            }
            k += 1;
        }
        proof {
            assert forall|j: int| 0 <= j < len implies self.ledger()[j] == target[j] by {
                assert((#[trigger] self.airdrop_reward@[j])@ == target[j]);
            }
            assert(self.ledger() =~= target);
        }
        Ok(())
    }

    /// Whether the caller's resolved address appears anywhere in the payout
    /// ledger, transferred or not: "was ever queued for reward".
    pub fn has_redeemed(&self, caller: PrincipalId) -> (r: Result<bool, CanisterError>)
        requires
            self.wf(),
        ensures
            match r {
                Ok(b) => {
                    &&& !self.killed
                    &&& self.registry().contains_key(caller)
                    &&& b == exists|i: int|
                        0 <= i < self.ledger().len() && (#[trigger] self.ledger()[i]).eth_address
                            == self.registry()[caller].eth_address
                },
                Err(e) => (self.killed && e is CanisterKilled) || (!self.killed
                    && !self.registry().contains_key(caller) && e is CodeNotFound),
            },
    {
        if self.killed {
            return Err(CanisterError::CanisterKilled);
        }
        let ri = match find_registry_index(&self.principals_user_eth, caller) {
            Some(i) => i,
            None => {
                proof {
                    lemma_assoc_map_contains(
                        self.principals_user_eth@,
                        registry_key(),
                        registry_val(),
                        caller,
                    );
                }
                return Err(CanisterError::CodeNotFound);
            },
        };
        proof {
            lemma_assoc_map_index(
                self.principals_user_eth@,
                registry_key(),
                registry_val(),
                ri as int,
            );
        }
        let eth = &self.principals_user_eth[ri].eth_address;
        let mut k: usize = 0;
        let len = self.airdrop_reward.len();
        while k < len
            invariant
                k <= len,
                len == self.airdrop_reward@.len(),
                !self.killed,
                self.registry().contains_key(caller),
                eth@ == self.registry()[caller].eth_address,
                forall|j: int|
                    0 <= j < k ==> (#[trigger] self.ledger()[j]).eth_address != eth@,
            decreases len - k,
        {
            if self.airdrop_reward[k].eth_address.0 == eth.0 {
                proof {
                    assert(self.ledger()[k as int].eth_address == eth@);
                }
                return Ok(true);
            }
            proof {
                assert(self.ledger()[k as int] == self.airdrop_reward@[k as int]@);
            }
            k += 1;
        }
        Ok(false)
    }
}

/// The deduction for redeeming a code at the given depth: the full reward
/// unit strictly below the depth limit, a quarter of it at the limit.
pub open spec fn redeem_amount(depth: u64) -> u64 {
    if depth < MAXIMUM_DEPTH {
        TOKEN_PER_PERSON
    } else {
        TOKEN_PER_PERSON / 4
    }
}

/// The checks a redemption must pass, in the order they are made. A call on
/// a state passing all of them succeeds.
pub open spec fn redeem_accepts(pre: State, code: Seq<char>, caller: PrincipalId) -> bool {
    &&& !pre.killed
    &&& !pre.registry().contains_key(caller)
    &&& pre.codes_map().contains_key(code)
    &&& !pre.codes_map()[code].redeemed
    &&& (pre.codes_map()[code].depth < MAXIMUM_DEPTH ==> pre.pool().len()
        >= NUMBERS_OF_CHILDREN)
    &&& redeem_amount(pre.codes_map()[code].depth) <= pre.tokens
}

/// The error a rejected redemption reports: that of the first failing check.
pub open spec fn redeem_rejects(
    pre: State,
    code: Seq<char>,
    caller: PrincipalId,
    e: CanisterError,
) -> bool {
    if pre.killed {
        e is CanisterKilled
    } else if pre.registry().contains_key(caller) {
        e is CannotRegisterMultipleTimes
    } else if !pre.codes_map().contains_key(code) {
        e is CodeNotFound
    } else if pre.codes_map()[code].redeemed {
        e is CodeAlreadyRedeemed
    } else if pre.codes_map()[code].depth < MAXIMUM_DEPTH && pre.pool().len()
        < NUMBERS_OF_CHILDREN {
        e is NoMoreCodes
    } else {
        pre.tokens < redeem_amount(pre.codes_map()[code].depth) && e is GeneralError
    }
}

/// The payout rows a successful redemption appends: a quarter-unit referral
/// reward for the code's parent where that parent is a registered
/// non-manager — a manager parent gets a counter bump instead, and an
/// unregistered parent's reward is lost — then the redeemer's own
/// quarter-unit reward.
pub open spec fn redeem_payouts(pre: State, code: Seq<char>, eth: Seq<char>) -> Seq<PayoutView> {
    let parent = pre.codes_map()[code].parent_principal;
    let quarter = TOKEN_PER_PERSON / 4;
    let own = PayoutView { eth_address: eth, amount: quarter, transferred: false };
    if pre.managers().contains_key(parent) {
        seq![own]
    } else if pre.registry().contains_key(parent) {
        seq![
            PayoutView {
                eth_address: pre.registry()[parent].eth_address,
                amount: quarter,
                transferred: false,
            },
            own,
        ]
    } else {
        seq![own]
    }
}

/// How a successful redemption of `code` by `caller`, with resolved address
/// `eth`, transforms the state: the depth-gated amount leaves the token
/// balance, the caller is registered, the code flips to redeemed, the
/// parent's reward is propagated, the caller's own reward is queued, and —
/// strictly below the depth limit — the pool's front three codes are minted
/// as the caller's children one level down.
pub open spec fn redeem_transition(
    pre: State,
    post: State,
    code: Seq<char>,
    caller: PrincipalId,
    eth: Seq<char>,
) -> bool {
    let cs = pre.codes_map()[code];
    let parent = cs.parent_principal;
    let redeemed_cs = CodeState { redeemed: true, ..cs };
    let child = CodeState {
        parent_principal: caller,
        depth: (cs.depth + 1) as u64,
        redeemed: false,
    };
    let new_pairs = if cs.depth < MAXIMUM_DEPTH {
        seq![(pre.pool()[0], false), (pre.pool()[1], false), (pre.pool()[2], false)]
    } else {
        Seq::<(Seq<char>, bool)>::empty()
    };
    &&& post.killed == pre.killed
    &&& post.backend_canister_id == pre.backend_canister_id
    &&& post.admins() == pre.admins()
    &&& post.tokens == pre.tokens - redeem_amount(cs.depth)
    &&& post.registry() == pre.registry().insert(
        caller,
        RegistrationView { code, eth_address: eth },
    )
    &&& post.managers() == if pre.managers().contains_key(parent) {
        pre.managers().insert(
            parent,
            ManagerView {
                codes_redeemed: (pre.managers()[parent].codes_redeemed + 1) as u64,
                ..pre.managers()[parent]
            },
        )
    } else {
        pre.managers()
    }
    &&& post.ledger() == pre.ledger() + redeem_payouts(pre, code, eth)
    &&& if cs.depth < MAXIMUM_DEPTH {
        &&& post.pool() == pre.pool().skip(NUMBERS_OF_CHILDREN as int)
        &&& post.codes_map() == pre.codes_map().insert(code, redeemed_cs).insert(
            pre.pool()[0],
            child,
        ).insert(pre.pool()[1], child).insert(pre.pool()[2], child)
    } else {
        &&& post.pool() == pre.pool()
        &&& post.codes_map() == pre.codes_map().insert(code, redeemed_cs)
    }
    &&& children_of(post.codes@, caller).len() == children_of(pre.codes@, caller).len()
        + new_pairs.len()
    &&& parent != caller ==> children_of(post.codes@, caller) == children_of(pre.codes@, caller)
        + new_pairs
}

/// What a successful redemption returns: the consumed code, the caller, its
/// resolved address, and — strictly below the depth limit — the three fresh
/// child codes in draw order, each not yet redeemed.
pub open spec fn redeem_info(
    pre: State,
    code: Seq<char>,
    caller: PrincipalId,
    eth: Seq<char>,
    info: Info,
) -> bool {
    &&& info.code@ == code
    &&& info.principal == caller
    &&& info.eth_address@ == eth
    &&& crate::types::children_view(info.children) == if pre.codes_map()[code].depth
        < MAXIMUM_DEPTH {
        Some(seq![(pre.pool()[0], false), (pre.pool()[1], false), (pre.pool()[2], false)])
    } else {
        None::<Seq<(Seq<char>, bool)>>
    }
}

/// The whole contract of `redeem_code`: a success passed every check and
/// performed the transition; a failure reports the first failing check and
/// leaves the state untouched.
pub open spec fn redeem_outcome(
    pre: State,
    post: State,
    code: Seq<char>,
    caller: PrincipalId,
    eth: Seq<char>,
    r: Result<Info, CanisterError>,
) -> bool {
    match r {
        Ok(info) => {
            &&& redeem_accepts(pre, code, caller)
            &&& redeem_transition(pre, post, code, caller, eth)
            &&& redeem_info(pre, code, caller, eth, info)
        },
        Err(e) => post == pre && redeem_rejects(pre, code, caller, e),
    }
}

/// The whole contract of `get_airdrop` on a live state: the returned batch
/// is exactly the pending suffix from `index` on, and the returned cursor
/// points at the last pending entry found.
pub open spec fn export_outcome(
    s: State,
    index: Index,
    r: Result<(Index, Vec<EthAddressAmount>), CanisterError>,
) -> bool {
    match r {
        Ok((cursor, entries)) => {
            &&& !s.killed
            &&& Seq::new(entries@.len(), |i: int| entries@[i]@) == export_entries(
                s.ledger(),
                index.0 as int,
            )
            &&& cursor.0 == export_cursor(s.ledger(), index.0 as int, index.0)
        },
        Err(e) => s.killed && e is CanisterKilled,
    }
}

/// Replacing a row by one with the same recorded parent keeps every
/// principal's child count; for other principals the child list itself
/// stays put.
proof fn lemma_children_of_update(rows: Seq<CodeEntry>, i: int, e: CodeEntry, p: PrincipalId)
    requires
        0 <= i < rows.len(),
        e.state.parent_principal == rows[i].state.parent_principal,
    ensures
        children_of(rows.update(i, e), p).len() == children_of(rows, p).len(),
        rows[i].state.parent_principal != p ==> children_of(rows.update(i, e), p) == children_of(
            rows,
            p,
        ),
    decreases rows.len(),
{
    let upd = rows.update(i, e);
    if i == rows.len() - 1 {
        assert(upd.drop_last() =~= rows.drop_last());
        assert(upd.last() == e);
    } else {
        lemma_children_of_update(rows.drop_last(), i, e, p);
        assert(upd.drop_last() =~= rows.drop_last().update(i, e));
        assert(upd.last() == rows.last());
        if rows[i].state.parent_principal != p {
            assert(children_of(upd, p) =~= children_of(rows, p));
        }
    }
}

/// Appending a row adds its pair to its parent's children and to nobody
/// else's.
proof fn lemma_children_of_push(rows: Seq<CodeEntry>, e: CodeEntry, p: PrincipalId)
    ensures
        children_of(rows.push(e), p) == children_of(rows, p) + if e.state.parent_principal
            == p {
            seq![(e.code@, e.state.redeemed)]
        } else {
            Seq::<(Seq<char>, bool)>::empty()
        },
{
    assert(rows.push(e).drop_last() =~= rows);
    assert(rows.push(e).last() == e);
}

impl State {
    /// Redeems `code` for `caller` after the host resolved the caller's
    /// payout address: checks the emergency stop, the one-redemption rule and
    /// the code's state, deducts the depth-gated amount, propagates the
    /// parent reward, registers the caller, marks the code redeemed, queues
    /// the caller's own reward and, strictly below the depth limit, mints
    /// three children — or fails before any of that with the first check's
    /// error, leaving the state untouched. Pool exhaustion is checked before
    /// anything commits, so a failed call never half-mints.
    #[verifier::rlimit(50)]
    pub fn redeem_code(&mut self, code: &Code, caller: PrincipalId, eth_address: &EthAddress) -> (
        r: Result<Info, CanisterError>)
        requires
            old(self).wf(),
            forall|p: PrincipalId|
                old(self).managers().contains_key(p) ==> (
                #[trigger] old(self).managers()[p]).codes_redeemed < u64::MAX,
        ensures
            final(self).wf(),
            redeem_outcome(*old(self), *final(self), code@, caller, eth_address@, r),
    {
        let ghost pre = *old(self);
        if self.killed {
            return Err(CanisterError::CanisterKilled);
        }
        match find_registry_index(&self.principals_user_eth, caller) {
            Some(_) => {
                proof {
                    lemma_assoc_map_contains(
                        self.principals_user_eth@,
                        registry_key(),
                        registry_val(),
                        caller,
                    );
                }
                return Err(CanisterError::CannotRegisterMultipleTimes);
            },
            None => {
                proof {
                    lemma_assoc_map_contains(
                        self.principals_user_eth@,
                        registry_key(),
                        registry_val(),
                        caller,
                    );
                }
            },
        }
        let ci = match find_code_index(&self.codes, &code.0) {
            Some(i) => i,
            None => {
                proof {
                    lemma_assoc_map_contains(self.codes@, code_key(), code_val(), code@);
                }
                return Err(CanisterError::CodeNotFound);
            },
        };
        proof {
            lemma_assoc_map_index(self.codes@, code_key(), code_val(), ci as int);
        }
        if self.codes[ci].state.redeemed {
            return Err(CanisterError::CodeAlreadyRedeemed);
        }
        let depth = self.codes[ci].state.depth;
        let parent = self.codes[ci].state.parent_principal;
        let ghost cs = pre.codes_map()[code@];
        let below_max = depth < MAXIMUM_DEPTH;
        if below_max && (self.pre_generated_codes.len() as u64) < NUMBERS_OF_CHILDREN {
            return Err(CanisterError::NoMoreCodes);
        }
        let amount = if below_max {
            TOKEN_PER_PERSON
        } else {
            TOKEN_PER_PERSON / 4
        };
        match self.deduct_tokens(amount) {
            Ok(()) => {},
            Err(e) => {
                return Err(e);
            },
        }
        assert(redeem_accepts(pre, code@, caller));
        let ghost s1 = *self;

        // Parent reward: a manager parent gets its redeemed counter bumped;
        // a registered non-manager parent gets a quarter-unit payout row; an
        // unregistered parent's share is lost, as specified.
        match find_manager_index(&self.principals_managers, parent) {
            Some(mi) => {
                proof {
                    lemma_assoc_map_contains(
                        self.principals_managers@,
                        manager_key(),
                        manager_val(),
                        parent,
                    );
                    lemma_assoc_map_index(
                        self.principals_managers@,
                        manager_key(),
                        manager_val(),
                        mi as int,
                    );
                }
                proof {
                    assert(old(self).managers().contains_key(parent));
                    assert(old(self).managers()[parent].codes_redeemed < u64::MAX);
                    assert(self.principals_managers@[mi as int].state.codes_redeemed == old(
                        self,
                    ).managers()[parent].codes_redeemed);
                }
                let name = self.principals_managers[mi].state.name.clone();
                let generated = self.principals_managers[mi].state.codes_generated;
                let redeemed_count = self.principals_managers[mi].state.codes_redeemed + 1;
                let new_entry = ManagerEntry {
                    principal: parent,
                    state: PrincipalState {
                        name,
                        codes_generated: generated,
                        codes_redeemed: redeemed_count,
                    },
                };
                proof {
                    lemma_assoc_map_update(
                        self.principals_managers@,
                        manager_key(),
                        manager_val(),
                        mi as int,
                        new_entry,
                    );
                    lemma_unique_update(
                        self.principals_managers@,
                        manager_key(),
                        mi as int,
                        new_entry,
                    );
                }
                self.principals_managers.set(mi, new_entry);
            },
            None => {
                proof {
                    lemma_assoc_map_contains(
                        self.principals_managers@,
                        manager_key(),
                        manager_val(),
                        parent,
                    );
                }
                match find_registry_index(&self.principals_user_eth, parent) {
                    Some(pi) => {
                        proof {
                            lemma_assoc_map_contains(
                                self.principals_user_eth@,
                                registry_key(),
                                registry_val(),
                                parent,
                            );
                            lemma_assoc_map_index(
                                self.principals_user_eth@,
                                registry_key(),
                                registry_val(),
                                pi as int,
                            );
                        }
                        let parent_eth = EthAddress(
                            self.principals_user_eth[pi].eth_address.0.clone(),
                        );
                        self.add_user_to_airdrop_reward(
                            parent_eth,
                            AirdropAmount(TOKEN_PER_PERSON / 4),
                        );
                    },
                    None => {
                        proof {
                            lemma_assoc_map_contains(
                                self.principals_user_eth@,
                                registry_key(),
                                registry_val(),
                                parent,
                            );
                        }
                    },
                }
            },
        }
        let ghost s2 = *self;
        proof {
            assert(s2.managers() == if pre.managers().contains_key(parent) {
                pre.managers().insert(
                    parent,
                    ManagerView {
                        codes_redeemed: (pre.managers()[parent].codes_redeemed + 1) as u64,
                        ..pre.managers()[parent]
                    },
                )
            } else {
                pre.managers()
            });
            assert(s2.ledger() == if !pre.managers().contains_key(parent)
                && pre.registry().contains_key(parent) {
                pre.ledger().push(
                    PayoutView {
                        eth_address: pre.registry()[parent].eth_address,
                        amount: TOKEN_PER_PERSON / 4,
                        transferred: false,
                    },
                )
            } else {
                pre.ledger()
            });
        }

        // Register the caller, mark the code redeemed, queue the caller's
        // own quarter-unit reward.
        self.register_principal_with_eth_address(
            caller,
            Code(code.0.clone()),
            EthAddress(eth_address.0.clone()),
        );
        proof {
            lemma_unique_push(
                s2.principals_user_eth@,
                registry_key(),
                registry_val(),
                self.principals_user_eth@.last(),
            );
        }
        let redeemed_entry = CodeEntry {
            code: Code(self.codes[ci].code.0.clone()),
            state: CodeState { parent_principal: parent, depth, redeemed: true },
        };
        proof {
            lemma_assoc_map_update(self.codes@, code_key(), code_val(), ci as int, redeemed_entry);
            lemma_unique_update(self.codes@, code_key(), ci as int, redeemed_entry);
            lemma_children_of_update(self.codes@, ci as int, redeemed_entry, caller);
        }
        self.codes.set(ci, redeemed_entry);
        self.add_user_to_airdrop_reward(
            EthAddress(eth_address.0.clone()),
            AirdropAmount(TOKEN_PER_PERSON / 4),
        );
        let ghost s5 = *self;
        proof {
            assert(s5.registry() == pre.registry().insert(
                caller,
                RegistrationView { code: code@, eth_address: eth_address@ },
            ));
            assert(s5.codes_map() == pre.codes_map().insert(
                code@,
                CodeState { redeemed: true, ..cs },
            ));
            assert(s5.ledger() =~= pre.ledger() + redeem_payouts(pre, code@, eth_address@));
            assert(s5.codes@ == pre.codes@.update(ci as int, redeemed_entry));
            assert(children_of(s5.codes@, caller).len() == children_of(pre.codes@, caller).len());
            assert(parent != caller ==> children_of(s5.codes@, caller) == children_of(
                pre.codes@,
                caller,
            ));
            assert(s5.pool() == pre.pool());
        }

        // Mint the children, strictly below the depth limit: three fresh
        // codes drawn first-in first-out, each recorded one level down under
        // the caller.
        let children = if below_max {
            let c0 = match self.get_pre_codes() {
                Ok(c) => c,
                Err(_) => {
                    assert(false);
                    return Err(CanisterError::NoMoreCodes);
                },
            };
            let c1 = match self.get_pre_codes() {
                Ok(c) => c,
                Err(_) => {
                    assert(false);
                    return Err(CanisterError::NoMoreCodes);
                },
            };
            let c2 = match self.get_pre_codes() {
                Ok(c) => c,
                Err(_) => {
                    assert(false);
                    return Err(CanisterError::NoMoreCodes);
                },
            };
            proof {
                assert(c0@ == pre.pool()[0]);
                assert(c1@ == pre.pool().skip(1)[0]);
                assert(c2@ == pre.pool().skip(1).skip(1)[0]);
                assert(c1@ == pre.pool()[1]);
                assert(c2@ == pre.pool()[2]);
                assert(self.pool() =~= pre.pool().skip(3));
            }
            let child_state = CodeState {
                parent_principal: caller,
                depth: depth + 1,
                redeemed: false,
            };
            let e0 = CodeEntry { code: Code(c0.0.clone()), state: child_state };
            let e1 = CodeEntry { code: Code(c1.0.clone()), state: child_state };
            let e2 = CodeEntry { code: Code(c2.0.clone()), state: child_state };
            proof {
                assert(pre.pool()[0] != code@ && pre.pool()[1] != code@ && pre.pool()[2]
                    != code@) by {
                    assert(!pre.codes_map().contains_key(pre.pre_generated_codes@[0]@));
                    assert(!pre.codes_map().contains_key(pre.pre_generated_codes@[1]@));
                    assert(!pre.codes_map().contains_key(pre.pre_generated_codes@[2]@));
                }
                assert(pre.pool()[0] != pre.pool()[1] && pre.pool()[0] != pre.pool()[2]
                    && pre.pool()[1] != pre.pool()[2]) by {
                    assert(pre.pool()[0] == pre.pre_generated_codes@[0]@);
                    assert(pre.pool()[1] == pre.pre_generated_codes@[1]@);
                    assert(pre.pool()[2] == pre.pre_generated_codes@[2]@);
                }
                lemma_assoc_map_push(self.codes@, code_key(), code_val(), e0);
                lemma_unique_push(self.codes@, code_key(), code_val(), e0);
                lemma_children_of_push(self.codes@, e0, caller);
            }
            self.codes.push(e0);
            proof {
                lemma_assoc_map_push(self.codes@, code_key(), code_val(), e1);
                lemma_unique_push(self.codes@, code_key(), code_val(), e1);
                lemma_children_of_push(self.codes@, e1, caller);
            }
            self.codes.push(e1);
            proof {
                lemma_assoc_map_push(self.codes@, code_key(), code_val(), e2);
                lemma_unique_push(self.codes@, code_key(), code_val(), e2);
                lemma_children_of_push(self.codes@, e2, caller);
            }
            self.codes.push(e2);
            let children_list: Vec<(Code, bool)> = vec![(c0, false), (c1, false), (c2, false)];
            proof {
                assert(children_of(self.codes@, caller) =~= children_of(s5.codes@, caller)
                    + seq![(pre.pool()[0], false), (pre.pool()[1], false), (pre.pool()[2], false)]);
            }
            Some(children_list)
        } else {
            proof {
                assert(children_of(self.codes@, caller) =~= children_of(s5.codes@, caller)
                    + Seq::<(Seq<char>, bool)>::empty());
            }
            None
        };
        proof {
            lemma_redeem_wf(pre, *self, code@, caller, ci as int);
        }
        let info = Info::new(
            Code(code.0.clone()),
            caller,
            EthAddress(eth_address.0.clone()),
            children,
        );
        proof {
            match &info.children {
                Some(v) => {
                    assert(crate::types::children_view(info.children) == Some(
                        seq![(pre.pool()[0], false), (pre.pool()[1], false), (pre.pool()[2], false)],
                    )) by {
                        assert(Seq::new(v@.len(), |i: int| (v@[i].0@, v@[i].1)) =~= seq![
                            (pre.pool()[0], false),
                            (pre.pool()[1], false),
                            (pre.pool()[2], false),
                        ]);
                    }
                },
                None => {},
            }
        }
        Ok(info)
    }
}

/// Re-establishes the invariants after a successful redemption, from the
/// row-level shape of the edits.
proof fn lemma_redeem_wf(pre: State, post: State, code: Seq<char>, caller: PrincipalId, ci: int)
    requires
        pre.wf(),
        redeem_accepts(pre, code, caller),
        0 <= ci < pre.codes@.len(),
        pre.codes@[ci].code@ == code,
        unique_keys(post.codes@, code_key()),
        unique_keys(post.principals_managers@, manager_key()),
        unique_keys(post.principals_user_eth@, registry_key()),
        post.registry() == pre.registry().insert(
            caller,
            RegistrationView {
                code,
                eth_address: post.principals_user_eth@.last().eth_address@,
            },
        ),
        post.principals_user_eth@.len() == pre.principals_user_eth@.len() + 1,
        forall|j: int|
            0 <= j < pre.principals_user_eth@.len() ==> post.principals_user_eth@[j] == pre
                .principals_user_eth@[j],
        post.principals_user_eth@.last().principal == caller,
        post.principals_user_eth@.last().code@ == code,
        if pre.codes_map()[code].depth < MAXIMUM_DEPTH {
            post.pool() == pre.pool().skip(3) && post.codes_map() == pre.codes_map().insert(
                code,
                CodeState { redeemed: true, ..pre.codes_map()[code] },
            ).insert(
                pre.pool()[0],
                CodeState {
                    parent_principal: caller,
                    depth: (pre.codes_map()[code].depth + 1) as u64,
                    redeemed: false,
                },
            ).insert(
                pre.pool()[1],
                CodeState {
                    parent_principal: caller,
                    depth: (pre.codes_map()[code].depth + 1) as u64,
                    redeemed: false,
                },
            ).insert(
                pre.pool()[2],
                CodeState {
                    parent_principal: caller,
                    depth: (pre.codes_map()[code].depth + 1) as u64,
                    redeemed: false,
                },
            )
        } else {
            post.pool() == pre.pool() && post.codes_map() == pre.codes_map().insert(
                code,
                CodeState { redeemed: true, ..pre.codes_map()[code] },
            )
        },
        forall|j: int|
            0 <= j < post.codes@.len() ==> (#[trigger] post.codes@[j]).state.depth
                <= MAXIMUM_DEPTH,
    ensures
        post.wf(),
{
    let below = pre.codes_map()[code].depth < MAXIMUM_DEPTH;
    assert(pre.codes_map().contains_key(code));
    assert(!pre.codes_map().contains_key(pre.pool()[0]) || !below) by {
        if below {
            assert(pre.pool()[0] == pre.pre_generated_codes@[0]@);
        }
    }
    // The pool stays pairwise distinct and disjoint from the minted codes.
    assert(post.pool().len() == post.pre_generated_codes@.len());
    assert(pre.pool().len() == pre.pre_generated_codes@.len());
    if below {
        assert(pre.pool().len() >= 3);
        assert(pre.pool().skip(3).len() == pre.pool().len() - 3);
        assert(post.pool().len() == pre.pool().len() - 3);
        assert forall|i: int, j: int|
            0 <= i < j < post.pre_generated_codes@.len() implies (
        #[trigger] post.pre_generated_codes@[i])@ != (
        #[trigger] post.pre_generated_codes@[j])@ by {
            assert(post.pool()[i] == post.pre_generated_codes@[i]@);
            assert(post.pool()[j] == post.pre_generated_codes@[j]@);
            assert(pre.pool().skip(3)[i] == pre.pool()[i + 3]);
            assert(pre.pool().skip(3)[j] == pre.pool()[j + 3]);
            assert(pre.pool()[i + 3] == pre.pre_generated_codes@[i + 3]@);
            assert(pre.pool()[j + 3] == pre.pre_generated_codes@[j + 3]@);
        }
        assert forall|i: int|
            0 <= i < post.pre_generated_codes@.len() implies !post.codes_map().contains_key(
            (#[trigger] post.pre_generated_codes@[i])@,
        ) by {
            assert(post.pool()[i] == post.pre_generated_codes@[i]@);
            assert(pre.pool().skip(3)[i] == pre.pool()[i + 3]);
            assert(pre.pool()[i + 3] == pre.pre_generated_codes@[i + 3]@);
            assert(!pre.codes_map().contains_key(pre.pool()[i + 3]));
            assert(pre.pool()[0] == pre.pre_generated_codes@[0]@);
            assert(pre.pool()[1] == pre.pre_generated_codes@[1]@);
            assert(pre.pool()[2] == pre.pre_generated_codes@[2]@);
            assert(pre.pool()[i + 3] != pre.pool()[0]);
            assert(pre.pool()[i + 3] != pre.pool()[1]);
            assert(pre.pool()[i + 3] != pre.pool()[2]);
            assert(pre.pool()[i + 3] != code);
        }
    } else {
        assert forall|i: int, j: int|
            0 <= i < j < post.pre_generated_codes@.len() implies (
        #[trigger] post.pre_generated_codes@[i])@ != (
        #[trigger] post.pre_generated_codes@[j])@ by {
            assert(post.pool()[i] == post.pre_generated_codes@[i]@);
            assert(post.pool()[j] == post.pre_generated_codes@[j]@);
            assert(pre.pool()[i] == pre.pre_generated_codes@[i]@);
            assert(pre.pool()[j] == pre.pre_generated_codes@[j]@);
        }
        assert forall|i: int|
            0 <= i < post.pre_generated_codes@.len() implies !post.codes_map().contains_key(
            (#[trigger] post.pre_generated_codes@[i])@,
        ) by {
            assert(post.pool()[i] == post.pre_generated_codes@[i]@);
            assert(pre.pool()[i] == pre.pre_generated_codes@[i]@);
            assert(!pre.codes_map().contains_key(pre.pool()[i]));
            assert(pre.pool()[i] != code);
        }
    }
    // Every registration still points at a minted, redeemed code.
    assert forall|i: int| 0 <= i < post.principals_user_eth@.len() implies {
        let e = #[trigger] post.principals_user_eth@[i];
        post.codes_map().contains_key(e.code@) && post.codes_map()[e.code@].redeemed
    } by {
        let e = post.principals_user_eth@[i];
        if i < pre.principals_user_eth@.len() {
            assert(e == pre.principals_user_eth@[i]);
            assert(pre.codes_map().contains_key(e.code@) && pre.codes_map()[e.code@].redeemed);
            assert(e.code@ != code);
            if below {
                assert(pre.pool()[0] == pre.pre_generated_codes@[0]@);
                assert(pre.pool()[1] == pre.pre_generated_codes@[1]@);
                assert(pre.pool()[2] == pre.pre_generated_codes@[2]@);
                assert(e.code@ != pre.pool()[0]);
                assert(e.code@ != pre.pool()[1]);
                assert(e.code@ != pre.pool()[2]);
            }
        } else {
            assert(e == post.principals_user_eth@.last());
            if below {
                assert(pre.pool()[0] == pre.pre_generated_codes@[0]@);
                assert(pre.pool()[1] == pre.pre_generated_codes@[1]@);
                assert(pre.pool()[2] == pre.pre_generated_codes@[2]@);
                assert(code != pre.pool()[0]);
                assert(code != pre.pool()[1]);
                assert(code != pre.pool()[2]);
            }
            assert(post.codes_map()[code].redeemed);
        }
    }
}

/// Index of the row keyed by `code`, if one exists.
fn find_code_index(codes: &Vec<CodeEntry>, code: &String) -> (r: Option<usize>)
    ensures
        match r {
            Some(i) => i < codes@.len() && codes@[i as int].code@ == code@,
            None => forall|j: int| 0 <= j < codes@.len() ==> (#[trigger] codes@[j]).code@ != code@,
        },
{
    let mut i: usize = 0;
    let n = codes.len();
    while i < n
        invariant
            i <= n,
            n == codes@.len(),
            forall|j: int| 0 <= j < i ==> (#[trigger] codes@[j]).code@ != code@,
        decreases n - i,
    {
        if codes[i].code.0 == *code {
            return Some(i);
        }
        i += 1;
    }
    None
}

/// Index of the row keyed by `principal` on the manager ledger, if any.
fn find_manager_index(managers: &Vec<ManagerEntry>, principal: PrincipalId) -> (r: Option<usize>)
    ensures
        match r {
            Some(i) => i < managers@.len() && managers@[i as int].principal == principal,
            None => forall|j: int|
                0 <= j < managers@.len() ==> (#[trigger] managers@[j]).principal != principal,
        },
{
    let mut i: usize = 0;
    let n = managers.len();
    while i < n
        invariant
            i <= n,
            n == managers@.len(),
            forall|j: int| 0 <= j < i ==> (#[trigger] managers@[j]).principal != principal,
        decreases n - i,
    {
        if managers[i].principal == principal {
            return Some(i);
        }
        i += 1;
    }
    None
}

/// Index of the row keyed by `principal` on the registry, if any.
fn find_registry_index(registry: &Vec<RegistryEntry>, principal: PrincipalId) -> (r: Option<
    usize,
>)
    ensures
        match r {
            Some(i) => i < registry@.len() && registry@[i as int].principal == principal,
            None => forall|j: int|
                0 <= j < registry@.len() ==> (#[trigger] registry@[j]).principal != principal,
        },
{
    let mut i: usize = 0;
    let n = registry.len();
    while i < n
        invariant
            i <= n,
            n == registry@.len(),
            forall|j: int| 0 <= j < i ==> (#[trigger] registry@[j]).principal != principal,
        decreases n - i,
    {
        if registry[i].principal == principal {
            return Some(i);
        }
        i += 1;
    }
    None
}

} // verus!
