//! Pending bitcoin transactions per principal and address.
//!
//! Each (principal, address) pair holds a bounded list of transactions that
//! are waiting to confirm; stale or fully-spent entries are pruned against
//! the current unspent outputs.

use vstd::prelude::*;

use crate::assoc::{
    assoc_map, lemma_assoc_map_contains, lemma_assoc_map_index, lemma_assoc_map_push,
    lemma_assoc_map_update, lemma_unique_push, lemma_unique_update, unique_keys,
};
use crate::types::PrincipalId;

verus! {

/// How many pending transactions one (principal, address) pair may hold when
/// no other bound is configured.
pub const MAX_PENDING_TRANSACTIONS: usize = 1000;

/// A day, in nanoseconds: a transaction pending longer is considered failed.
pub const DAY_IN_NS: u64 = 24 * 60 * 60 * 1_000_000_000;

/// A transaction output reference.
#[derive(Clone, PartialEq, Eq, Debug)]
pub struct Outpoint {
    pub txid: Vec<u8>,
    pub vout: u32,
}

/// An outpoint as contracts see it.
#[verifier::ext_equal]
pub struct OutpointView {
    pub txid: Seq<u8>,
    pub vout: u32,
}

impl View for Outpoint {
    type V = OutpointView;

    open spec fn view(&self) -> OutpointView {
        OutpointView { txid: self.txid@, vout: self.vout }
    }
}

/// An unspent transaction output.
#[derive(Clone, PartialEq, Eq, Debug)]
pub struct Utxo {
    pub outpoint: Outpoint,
    pub value: u64,
    pub height: u32,
}

/// A utxo as contracts see it.
#[verifier::ext_equal]
pub struct UtxoView {
    pub outpoint: OutpointView,
    pub value: u64,
    pub height: u32,
}

impl View for Utxo {
    type V = UtxoView;

    open spec fn view(&self) -> UtxoView {
        UtxoView { outpoint: self.outpoint@, value: self.value, height: self.height }
    }
}

/// A transaction waiting to confirm: its id, the outputs it spends, and when
/// it was recorded.
#[derive(Clone, PartialEq, Eq, Debug)]
pub struct StoredPendingTransaction {
    pub txid: Vec<u8>,
    pub utxos: Vec<Utxo>,
    pub created_at_timestamp_ns: u64,
}

/// A pending transaction as contracts see it.
#[verifier::ext_equal]
pub struct PendingView {
    pub txid: Seq<u8>,
    pub utxos: Seq<UtxoView>,
    pub created_at_timestamp_ns: u64,
}

impl View for StoredPendingTransaction {
    type V = PendingView;

    open spec fn view(&self) -> PendingView {
        PendingView {
            txid: self.txid@,
            utxos: Seq::new(self.utxos@.len(), |i: int| self.utxos@[i]@),
            created_at_timestamp_ns: self.created_at_timestamp_ns,
        }
    }
}

/// The views of a run of utxos.
pub open spec fn utxo_views(s: Seq<Utxo>) -> Seq<UtxoView> {
    Seq::new(s.len(), |i: int| s[i]@)
}

/// The views of a run of pending transactions.
pub open spec fn pending_views(s: Seq<StoredPendingTransaction>) -> Seq<PendingView> {
    Seq::new(s.len(), |i: int| s[i]@)
}

/// Whether two utxos are the same output.
fn utxo_eq(a: &Utxo, b: &Utxo) -> (r: bool)
    ensures
        r == (a@ == b@),
{
    let txid_eq = a.outpoint.txid == b.outpoint.txid;
    proof {
        if a.outpoint.txid@ == b.outpoint.txid@ {
            assert(txid_eq);
        }
        if txid_eq {
            assert(a.outpoint.txid@ =~= b.outpoint.txid@);
        }
        if a.outpoint.txid@ == b.outpoint.txid@ && a.outpoint.vout == b.outpoint.vout && a.value
            == b.value && a.height == b.height {
            assert(a@ =~= b@);
        }
    }
    txid_eq && a.outpoint.vout == b.outpoint.vout && a.value == b.value && a.height == b.height
}

/// Whether `utxos` holds this output.
fn utxos_contain(utxos: &[Utxo], u: &Utxo) -> (r: bool)
    ensures
        r == utxo_views(utxos@).contains(u@),
{
    let mut i: usize = 0;
    let n = utxos.len();
    while i < n
        invariant
            i <= n,
            n == utxos@.len(),
            forall|j: int| 0 <= j < i ==> (#[trigger] utxos@[j])@ != u@,
        decreases n - i,
    {
        if utxo_eq(&utxos[i], u) {
            proof {
                assert(utxo_views(utxos@)[i as int] == u@);
            }
            return true;
        }
        i += 1;
    }
    proof {
        if utxo_views(utxos@).contains(u@) {
            let j = choose|j: int|
                0 <= j < utxo_views(utxos@).len() && utxo_views(utxos@)[j] == u@;
            assert(utxos@[j]@ == u@);
        }
    }
    false
}

/// Whether any of the transaction's outputs is still current.
fn any_utxo_current(utxos: &Vec<Utxo>, current_utxos: &[Utxo]) -> (r: bool)
    ensures
        r == exists|j: int|
            0 <= j < utxos@.len() && utxo_views(current_utxos@).contains(
                (#[trigger] utxos@[j])@,
            ),
{
    let mut i: usize = 0;
    let n = utxos.len();
    while i < n
        invariant
            i <= n,
            n == utxos@.len(),
            forall|j: int|
                0 <= j < i ==> !utxo_views(current_utxos@).contains((#[trigger] utxos@[j])@),
        decreases n - i,
    {
        if utxos_contain(current_utxos, &utxos[i]) {
            return true;
        }
        i += 1;
    }
    false
}

/// A byte-for-byte copy.
fn copy_bytes(v: &Vec<u8>) -> (r: Vec<u8>)
    ensures
        r@ == v@,
{
    let mut r: Vec<u8> = Vec::new();
    let mut i: usize = 0;
    let n = v.len();
    while i < n
        invariant
            i <= n,
            n == v@.len(),
            r@ == v@.take(i as int),
        decreases n - i,
    {
        r.push(v[i]);
        proof {
            assert(r@ =~= v@.take(i + 1 as int));
        }
        i += 1;
    }
    proof {
        assert(v@.take(n as int) =~= v@);
    }
    r
}

/// A copy of a pending transaction, view for view.
fn copy_transaction(tx: &StoredPendingTransaction) -> (r: StoredPendingTransaction)
    ensures
        r@ == tx@,
{
    let mut utxos: Vec<Utxo> = Vec::new();
    let mut i: usize = 0;
    let n = tx.utxos.len();
    while i < n
        invariant
            i <= n,
            n == tx.utxos@.len(),
            utxos@.len() == i,
            forall|j: int| 0 <= j < i ==> (#[trigger] utxos@[j])@ == tx.utxos@[j]@,
        decreases n - i,
    {
        let u = &tx.utxos[i];
        let copied = Utxo {
            outpoint: Outpoint { txid: copy_bytes(&u.outpoint.txid), vout: u.outpoint.vout },
            value: u.value,
            height: u.height,
        };
        proof {
            assert(copied@ =~= tx.utxos@[i as int]@);
        }
        utxos.push(copied);
        i += 1;
    }
    let r = StoredPendingTransaction {
        txid: copy_bytes(&tx.txid),
        utxos,
        created_at_timestamp_ns: tx.created_at_timestamp_ns,
    };
    proof {
        assert(r@.utxos =~= tx@.utxos);
        assert(r@ =~= tx@);
    }
    r
}

/// One store row: the transactions pending for one principal at one address.
pub struct PendingGroup {
    pub principal: PrincipalId,
    pub address: String,
    pub transactions: Vec<StoredPendingTransaction>,
}

/// Key of a store row.
pub open spec fn group_key() -> spec_fn(PendingGroup) -> (PrincipalId, Seq<char>) {
    |g: PendingGroup| (g.principal, g.address@)
}

/// Value of a store row.
pub open spec fn group_val() -> spec_fn(PendingGroup) -> Seq<PendingView> {
    |g: PendingGroup| pending_views(g.transactions@)
}

/// The pending-transaction store: per principal and address, the recorded
/// transactions in insertion order, capped at a configured bound.
pub struct BtcUserPendingTransactions {
    pub groups: Vec<PendingGroup>,
    pub max_pending_transactions: usize,
}

/// Whether a pruning pass at `now_ns`, holding `current` as the unspent
/// outputs, keeps a pending transaction: it is younger than a day and at
/// least one of its outputs is still current.
pub open spec fn keeps(tx: PendingView, current: Seq<UtxoView>, now_ns: u64) -> bool {
    &&& !(tx.created_at_timestamp_ns + DAY_IN_NS < now_ns)
    &&& !(forall|j: int| 0 <= j < tx.utxos.len() ==> !current.contains(#[trigger] tx.utxos[j]))
}

/// The pending list a pruning pass leaves, in order.
pub open spec fn pruned(list: Seq<PendingView>, current: Seq<UtxoView>, now_ns: u64) -> Seq<
    PendingView,
>
    decreases list.len(),
{
    if list.len() == 0 {
        Seq::empty()
    } else {
        pruned(list.drop_last(), current, now_ns) + if keeps(list.last(), current, now_ns) {
            seq![list.last()]
        } else {
            Seq::empty()
        }
    }
}

impl BtcUserPendingTransactions {
    /// The store as a map from (principal, address) to the pending list.
    pub open spec fn view_map(self) -> Map<(PrincipalId, Seq<char>), Seq<PendingView>> {
        assoc_map(self.groups@, group_key(), group_val())
    }

    /// One row per (principal, address) pair.
    pub open spec fn wf(self) -> bool {
        unique_keys(self.groups@, group_key())
    }

    /// An empty store, bounded by `max_pending_txs` where given and by
    /// `MAX_PENDING_TRANSACTIONS` otherwise.
    pub fn new(max_pending_txs: Option<usize>) -> (r: Self)
        ensures
            r.wf(),
            r.view_map() == Map::<(PrincipalId, Seq<char>), Seq<PendingView>>::empty(),
            r.max_pending_transactions == match max_pending_txs {
                Some(m) => m,
                None => MAX_PENDING_TRANSACTIONS,
            },
    {
        let max_pending_transactions = match max_pending_txs {
            Some(m) => m,
            None => MAX_PENDING_TRANSACTIONS,
        };
        BtcUserPendingTransactions { groups: Vec::new(), max_pending_transactions }
    }

    /// The pending transactions of one principal at one address, in
    /// insertion order; empty where none were recorded.
    pub fn get_pending_transactions(&self, principal: &PrincipalId, address: String) -> (r: Vec<
        StoredPendingTransaction,
    >)
        requires
            self.wf(),
        ensures
            pending_views(r@) == if self.view_map().contains_key((*principal, address@)) {
                self.view_map()[(*principal, address@)]
            } else {
                Seq::<PendingView>::empty()
            },
    {
        let gi = match find_group_index(&self.groups, principal, &address) {
            Some(i) => i,
            None => {
                proof {
                    lemma_assoc_map_contains(
                        self.groups@,
                        group_key(),
                        group_val(),
                        (*principal, address@),
                    );
                }
                let r: Vec<StoredPendingTransaction> = Vec::new();
                proof {
                    assert(pending_views(r@) =~= Seq::<PendingView>::empty());
                }
                return r;
            },
        };
        proof {
            lemma_assoc_map_index(self.groups@, group_key(), group_val(), gi as int);
        }
        let mut r: Vec<StoredPendingTransaction> = Vec::new();
        let mut i: usize = 0;
        let n = self.groups[gi].transactions.len();
        while i < n
            invariant
                i <= n,
                gi < self.groups@.len(),
                n == self.groups@[gi as int].transactions@.len(),
                r@.len() == i,
                forall|j: int|
                    0 <= j < i ==> (#[trigger] r@[j])@ == self.groups@[
                        gi as int
                    ].transactions@[j]@,
            decreases n - i,
        {
            r.push(copy_transaction(&self.groups[gi].transactions[i]));
            i += 1;
        }
        proof {
            assert(pending_views(r@) =~= self.view_map()[(*principal, address@)]);
        }
        r
    }

    /// Records one more pending transaction for the pair, in arrival order;
    /// refuses, changing nothing, when the pair's list is full.
    pub fn add_pending_transaction(
        &mut self,
        principal: PrincipalId,
        address: String,
        new_transaction: StoredPendingTransaction,
    ) -> (r: Result<(), String>)
        requires
            old(self).wf(),
        ensures
            final(self).wf(),
            final(self).max_pending_transactions == old(self).max_pending_transactions,
            match r {
                Ok(()) => {
                    let key = (principal, address@);
                    let prior = if old(self).view_map().contains_key(key) {
                        old(self).view_map()[key]
                    } else {
                        Seq::<PendingView>::empty()
                    };
                    &&& (old(self).view_map().contains_key(key) ==> prior.len() < old(
                        self,
                    ).max_pending_transactions)
                    &&& final(self).view_map() == old(self).view_map().insert(
                        key,
                        prior.push(new_transaction@),
                    )
                },
                Err(m) => {
                    let key = (principal, address@);
                    &&& *final(self) == *old(self)
                    &&& old(self).view_map().contains_key(key)
                    &&& old(self).view_map()[key].len() >= old(self).max_pending_transactions
                    &&& m@ == "Maximum pending transactions reached"@
                },
            },
    {
        match find_group_index(&self.groups, &principal, &address) {
            Some(gi) => {
                proof {
                    lemma_assoc_map_contains(
                        self.groups@,
                        group_key(),
                        group_val(),
                        (principal, address@),
                    );
                    lemma_assoc_map_index(self.groups@, group_key(), group_val(), gi as int);
                }
                if self.groups[gi].transactions.len() >= self.max_pending_transactions {
                    return Err("Maximum pending transactions reached".to_owned());
                }
                let mut transactions: Vec<StoredPendingTransaction> = Vec::new();
                let mut ti: usize = 0;
                let ntx = self.groups[gi].transactions.len();
                while ti < ntx
                    invariant
                        ti <= ntx,
                        gi < self.groups@.len(),
                        ntx == self.groups@[gi as int].transactions@.len(),
                        transactions@.len() == ti,
                        forall|j: int|
                            0 <= j < ti ==> (#[trigger] transactions@[j])@ == self.groups@[
                                gi as int
                            ].transactions@[j]@,
                    decreases ntx - ti,
                {
                    transactions.push(copy_transaction(&self.groups[gi].transactions[ti]));
                    ti += 1;
                }
                transactions.push(new_transaction);
                let new_group = PendingGroup { principal, address, transactions };
                proof {
                    let key = (principal, address@);
                    let prior = old(self).view_map()[key];
                    assert(pending_views(new_group.transactions@) =~= prior.push(
                        new_transaction@,
                    ));
                    lemma_assoc_map_update(
                        self.groups@,
                        group_key(),
                        group_val(),
                        gi as int,
                        new_group,
                    );
                    lemma_unique_update(self.groups@, group_key(), gi as int, new_group);
                }
                self.groups.set(gi, new_group);
                Ok(())
            },
            None => {
                proof {
                    lemma_assoc_map_contains(
                        self.groups@,
                        group_key(),
                        group_val(),
                        (principal, address@),
                    );
                }
                let mut transactions: Vec<StoredPendingTransaction> = Vec::new();
                transactions.push(new_transaction);
                let new_group = PendingGroup { principal, address, transactions };
                proof {
                    assert(pending_views(new_group.transactions@)
                        =~= Seq::<PendingView>::empty().push(new_transaction@));
                    lemma_assoc_map_push(self.groups@, group_key(), group_val(), new_group);
                    lemma_unique_push(self.groups@, group_key(), group_val(), new_group);
                }
                self.groups.push(new_group);
                Ok(())
            },
        }
    }

    /// Prunes the principal's pending transactions, every address at once: a
    /// transaction goes when it is older than a day — taken as failed, its
    /// outputs free again — or when none of its outputs is still unspent.
    /// Partially-present outputs keep the transaction for the day.
    pub fn prune_pending_transactions(
        &mut self,
        principal: PrincipalId,
        current_utxos: &[Utxo],
        now_ns: u64,
    )
        requires
            old(self).wf(),
        ensures
            final(self).wf(),
            final(self).max_pending_transactions == old(self).max_pending_transactions,
            forall|k: (PrincipalId, Seq<char>)|
                final(self).view_map().contains_key(k) == old(self).view_map().contains_key(k),
            forall|k: (PrincipalId, Seq<char>)|
                #![trigger final(self).view_map()[k]]
                old(self).view_map().contains_key(k) ==> final(self).view_map()[k] == if k.0
                    == principal {
                    pruned(old(self).view_map()[k], utxo_views(current_utxos@), now_ns)
                } else {
                    old(self).view_map()[k]
                },
    {
        let ghost current = utxo_views(current_utxos@);
        let mut gi: usize = 0;
        let ngroups = self.groups.len();
        while gi < ngroups
            invariant
                gi <= ngroups,
                ngroups == self.groups@.len(),
                self.groups@.len() == old(self).groups@.len(),
                unique_keys(old(self).groups@, group_key()),
                self.max_pending_transactions == old(self).max_pending_transactions,
                current == utxo_views(current_utxos@),
                forall|j: int| gi <= j < ngroups ==> self.groups@[j] == old(self).groups@[j],
                forall|j: int|
                    0 <= j < gi ==> {
                        let g0 = #[trigger] old(self).groups@[j];
                        let g1 = self.groups@[j];
                        g1.principal == g0.principal && g1.address@ == g0.address@
                            && pending_views(g1.transactions@) == if g0.principal == principal {
                            pruned(pending_views(g0.transactions@), current, now_ns)
                        } else {
                            pending_views(g0.transactions@)
                        }
                    },
            decreases ngroups - gi,
        {
            proof {
                assert(self.groups@[gi as int] == old(self).groups@[gi as int]);
            }
            if self.groups[gi].principal == principal {
                let ghost g0 = self.groups@[gi as int];
                let ghost old_list = pending_views(g0.transactions@);
                let mut kept: Vec<StoredPendingTransaction> = Vec::new();
                let mut ti: usize = 0;
                let ntx = self.groups[gi].transactions.len();
                while ti < ntx
                    invariant
                        ti <= ntx,
                        gi < self.groups@.len(),
                        self.groups@[gi as int] == g0,
                        ntx == g0.transactions@.len(),
                        old_list == pending_views(g0.transactions@),
                        current == utxo_views(current_utxos@),
                        pending_views(kept@) == pruned(
                            old_list.take(ti as int),
                            current,
                            now_ns,
                        ),
                    decreases ntx - ti,
                {
                    let tx = &self.groups[gi].transactions[ti];
                    let is_old = tx.created_at_timestamp_ns.saturating_add(DAY_IN_NS) < now_ns;
                    let any_found = any_utxo_current(&tx.utxos, current_utxos);
                    proof {
                        let txv = old_list[ti as int];
                        assert(txv == tx@);
                        assert(is_old == (txv.created_at_timestamp_ns + DAY_IN_NS < now_ns));
                        if any_found {
                            let j = choose|j: int|
                                0 <= j < tx.utxos@.len() && utxo_views(
                                    current_utxos@,
                                ).contains((#[trigger] tx.utxos@[j])@);
                            assert(txv.utxos[j] == tx.utxos@[j]@);
                            assert(!(forall|w: int|
                                0 <= w < txv.utxos.len() ==> !current.contains(
                                    #[trigger] txv.utxos[w],
                                )));
                        } else {
                            assert forall|w: int| 0 <= w < txv.utxos.len() implies !current
                                .contains(#[trigger] txv.utxos[w]) by {
                                assert(txv.utxos[w] == tx.utxos@[w]@);
                            }
                        }
                        assert((!is_old && any_found) == keeps(txv, current, now_ns));
                    }
                    let ghost kept_before = kept@;
                    if !is_old && any_found {
                        kept.push(copy_transaction(tx));
                        proof {
                            assert(pending_views(kept@) =~= pending_views(kept_before).push(
                                old_list[ti as int],
                            ));
                        }
                    }
                    proof {
                        assert(old_list.take(ti + 1 as int).drop_last() =~= old_list.take(
                            ti as int,
                        ));
                        assert(old_list.take(ti + 1 as int).last() == old_list[ti as int]);
                        if !keeps(old_list[ti as int], current, now_ns) {
                            assert(pruned(old_list.take(ti + 1 as int), current, now_ns)
                                =~= pruned(old_list.take(ti as int), current, now_ns));
                        }
                    }
                    ti += 1;
                }
                proof {
                    assert(old_list.take(ntx as int) =~= old_list);
                }
                let address = self.groups[gi].address.clone();
                let new_group = PendingGroup { principal, address, transactions: kept };
                self.groups.set(gi, new_group);
            }
            gi += 1;
        }
        proof {
            lemma_prune_view(*old(self), *self, principal, current, now_ns);
        }
    }
}

/// Lifts the row-by-row pruning facts to the store's map view.
proof fn lemma_prune_view(
    pre: BtcUserPendingTransactions,
    post: BtcUserPendingTransactions,
    principal: PrincipalId,
    current: Seq<UtxoView>,
    now_ns: u64,
)
    requires
        unique_keys(pre.groups@, group_key()),
        post.groups@.len() == pre.groups@.len(),
        forall|j: int|
            0 <= j < pre.groups@.len() ==> {
                let g0 = #[trigger] pre.groups@[j];
                let g1 = post.groups@[j];
                g1.principal == g0.principal && g1.address@ == g0.address@ && pending_views(
                    g1.transactions@,
                ) == if g0.principal == principal {
                    pruned(pending_views(g0.transactions@), current, now_ns)
                } else {
                    pending_views(g0.transactions@)
                }
            },
    ensures
        unique_keys(post.groups@, group_key()),
        forall|k: (PrincipalId, Seq<char>)|
            post.view_map().contains_key(k) == pre.view_map().contains_key(k),
        forall|k: (PrincipalId, Seq<char>)|
            #![trigger post.view_map()[k]]
            pre.view_map().contains_key(k) ==> post.view_map()[k] == if k.0 == principal {
                pruned(pre.view_map()[k], current, now_ns)
            } else {
                pre.view_map()[k]
            },
{
    let key = group_key();
    assert forall|m: int, n: int| 0 <= m < n < post.groups@.len() implies key(
        #[trigger] post.groups@[m],
    ) != key(#[trigger] post.groups@[n]) by {
        assert(key(pre.groups@[m]) != key(pre.groups@[n]));
    }
    assert forall|k: (PrincipalId, Seq<char>)|
        post.view_map().contains_key(k) == pre.view_map().contains_key(k) by {
        lemma_assoc_map_contains(pre.groups@, group_key(), group_val(), k);
        lemma_assoc_map_contains(post.groups@, group_key(), group_val(), k);
        if pre.view_map().contains_key(k) {
            let j = choose|j: int|
                0 <= j < pre.groups@.len() && key(#[trigger] pre.groups@[j]) == k;
            assert(key(post.groups@[j]) == k);
        }
        if post.view_map().contains_key(k) {
            let j = choose|j: int|
                0 <= j < post.groups@.len() && key(#[trigger] post.groups@[j]) == k;
            assert(key(pre.groups@[j]) == k);
        }
    }
    assert forall|k: (PrincipalId, Seq<char>)|
        #![trigger post.view_map()[k]]
        pre.view_map().contains_key(k) implies post.view_map()[k] == if k.0 == principal {
        pruned(pre.view_map()[k], current, now_ns)
    } else {
        pre.view_map()[k]
    } by {
        lemma_assoc_map_contains(pre.groups@, group_key(), group_val(), k);
        let j = choose|j: int| 0 <= j < pre.groups@.len() && key(#[trigger] pre.groups@[j]) == k;
        lemma_assoc_map_index(pre.groups@, group_key(), group_val(), j);
        lemma_assoc_map_index(post.groups@, group_key(), group_val(), j);
        assert(key(post.groups@[j]) == k);
    }
}

/// Index of the row for the pair, if any.
fn find_group_index(groups: &Vec<PendingGroup>, principal: &PrincipalId, address: &String) -> (r:
    Option<usize>)
    ensures
        match r {
            Some(i) => i < groups@.len() && groups@[i as int].principal == *principal && groups@[
                i as int
            ].address@ == address@,
            None => forall|j: int|
                0 <= j < groups@.len() ==> ((#[trigger] groups@[j]).principal != *principal
                    || groups@[j].address@ != address@),
        },
{
    let mut i: usize = 0;
    let n = groups.len();
    while i < n
        invariant
            i <= n,
            n == groups@.len(),
            forall|j: int|
                0 <= j < i ==> ((#[trigger] groups@[j]).principal != *principal || groups@[
                    j
                ].address@ != address@),
        decreases n - i,
    {
        if groups[i].principal == *principal && groups[i].address == *address {
            return Some(i);
        }
        i += 1;
    }
    None
}

} // verus!
