//! Engine-wide laws, each proved from the operations' contracts alone.

use vstd::prelude::*;

use crate::assoc::{lemma_assoc_map_contains, lemma_assoc_map_index};
use crate::state::{
    acknowledge_ledger, children_of, code_key, code_val, export_outcome, redeem_accepts,
    redeem_outcome, redeem_transition, State,
};
use crate::types::{EthAddressAmount, Index, Info, PayoutView, PrincipalId};
use crate::{CanisterError, MAXIMUM_DEPTH, NUMBERS_OF_CHILDREN};

verus! {

/// Law: no minted code ever sits deeper than `MAXIMUM_DEPTH`.
pub proof fn lemma_depth_bounded(s: State)
    requires
        s.wf(),
    ensures
        forall|c: Seq<char>|
            s.codes_map().contains_key(c) ==> (#[trigger] s.codes_map()[c]).depth
                <= MAXIMUM_DEPTH,
{
    assert forall|c: Seq<char>| s.codes_map().contains_key(c) implies (
    #[trigger] s.codes_map()[c]).depth <= MAXIMUM_DEPTH by {
        lemma_assoc_map_contains(s.codes@, code_key(), code_val(), c);
        let key = code_key();
        let i = choose|i: int| 0 <= i < s.codes@.len() && key(#[trigger] s.codes@[i]) == c;
        lemma_assoc_map_index(s.codes@, code_key(), code_val(), i);
    }
}

/// Law: a redemption strictly below the depth limit records each freshly
/// minted child exactly one level below the redeemed code, under the
/// redeeming principal.
pub proof fn lemma_child_depth(
    pre: State,
    post: State,
    code: Seq<char>,
    caller: PrincipalId,
    eth: Seq<char>,
)
    requires
        pre.wf(),
        redeem_accepts(pre, code, caller),
        redeem_transition(pre, post, code, caller, eth),
        pre.codes_map()[code].depth < MAXIMUM_DEPTH,
    ensures
        forall|k: int|
            0 <= k < NUMBERS_OF_CHILDREN ==> {
                &&& post.codes_map().contains_key(#[trigger] pre.pool()[k])
                &&& post.codes_map()[pre.pool()[k]].depth == pre.codes_map()[code].depth + 1
                &&& post.codes_map()[pre.pool()[k]].parent_principal == caller
            },
{
    lemma_pool_front_distinct(pre, code);
}

/// The pool's first three codes are pairwise distinct and differ from any
/// minted code.
proof fn lemma_pool_front_distinct(pre: State, code: Seq<char>)
    requires
        pre.wf(),
        pre.codes_map().contains_key(code),
        pre.pool().len() >= 3,
    ensures
        pre.pool()[0] != pre.pool()[1],
        pre.pool()[0] != pre.pool()[2],
        pre.pool()[1] != pre.pool()[2],
        pre.pool()[0] != code,
        pre.pool()[1] != code,
        pre.pool()[2] != code,
{
    assert(pre.pool()[0] == pre.pre_generated_codes@[0]@);
    assert(pre.pool()[1] == pre.pre_generated_codes@[1]@);
    assert(pre.pool()[2] == pre.pre_generated_codes@[2]@);
    assert(!pre.codes_map().contains_key(pre.pre_generated_codes@[0]@));
    assert(!pre.codes_map().contains_key(pre.pre_generated_codes@[1]@));
    assert(!pre.codes_map().contains_key(pre.pre_generated_codes@[2]@));
}

/// Law: redeeming a code strictly below the depth limit leaves the caller
/// with exactly `NUMBERS_OF_CHILDREN` more children than before, every one
/// of them not yet redeemed; a caller without prior children — any principal
/// that is not also a code-generating manager — ends up with exactly that
/// many.
pub proof fn lemma_children_below_max(
    pre: State,
    post: State,
    code: Seq<char>,
    caller: PrincipalId,
    eth: Seq<char>,
)
    requires
        pre.wf(),
        redeem_accepts(pre, code, caller),
        redeem_transition(pre, post, code, caller, eth),
        pre.codes_map()[code].depth < MAXIMUM_DEPTH,
    ensures
        children_of(post.codes@, caller).len() == children_of(pre.codes@, caller).len()
            + NUMBERS_OF_CHILDREN,
        children_of(pre.codes@, caller).len() == 0 ==> children_of(post.codes@, caller).len()
            == NUMBERS_OF_CHILDREN,
        forall|k: int|
            0 <= k < NUMBERS_OF_CHILDREN ==> !post.codes_map()[#[trigger] pre.pool()[k]].redeemed,
{
    lemma_pool_front_distinct(pre, code);
}

/// Law: redeeming a code at the depth limit mints nothing — the caller's
/// child count does not move, and a caller without prior children still has
/// none.
pub proof fn lemma_no_children_at_max(
    pre: State,
    post: State,
    code: Seq<char>,
    caller: PrincipalId,
    eth: Seq<char>,
)
    requires
        pre.wf(),
        redeem_accepts(pre, code, caller),
        redeem_transition(pre, post, code, caller, eth),
        pre.codes_map()[code].depth == MAXIMUM_DEPTH,
    ensures
        children_of(post.codes@, caller).len() == children_of(pre.codes@, caller).len(),
        children_of(pre.codes@, caller).len() == 0 ==> children_of(post.codes@, caller).len()
            == 0,
{
}

/// Law: no principal ever holds more than one registration. A second
/// redemption attempt by a principal that a first, successful one has
/// registered fails with `CannotRegisterMultipleTimes` and changes nothing,
/// whatever code it names.
pub proof fn lemma_single_registration(
    s0: State,
    s1: State,
    s2: State,
    caller: PrincipalId,
    code1: Seq<char>,
    eth1: Seq<char>,
    info1: Info,
    code2: Seq<char>,
    eth2: Seq<char>,
    r2: Result<Info, CanisterError>,
)
    requires
        redeem_outcome(s0, s1, code1, caller, eth1, Ok(info1)),
        redeem_outcome(s1, s2, code2, caller, eth2, r2),
        !s1.killed,
    ensures
        r2 matches Err(e) && e is CannotRegisterMultipleTimes,
        s2 == s1,
{
    assert(s1.registry().contains_key(caller));
}

/// Law: acknowledgment is idempotent — marking the same address from the
/// same floor twice leaves the ledger exactly as one marking does.
pub proof fn lemma_acknowledge_idempotent(ledger: Seq<PayoutView>, from: int, eth: Seq<char>)
    ensures
        acknowledge_ledger(acknowledge_ledger(ledger, from, eth), from, eth)
            == acknowledge_ledger(ledger, from, eth),
{
    let once = acknowledge_ledger(ledger, from, eth);
    let twice = acknowledge_ledger(once, from, eth);
    assert forall|i: int| 0 <= i < ledger.len() implies twice[i] == once[i] by {}
    assert(twice =~= once);
}

/// Law: an export is a read — two exports of the same state from the same
/// index return the same cursor and the same batch, entry for entry.
pub proof fn lemma_export_stable(
    s: State,
    index: Index,
    r1: Result<(Index, Vec<EthAddressAmount>), CanisterError>,
    r2: Result<(Index, Vec<EthAddressAmount>), CanisterError>,
)
    requires
        !s.killed,
        export_outcome(s, index, r1),
        export_outcome(s, index, r2),
    ensures
        r1 matches Ok((c1, e1)) && r2 matches Ok((c2, e2)) && c1 == c2 && e1@.len() == e2@.len()
            && forall|i: int| 0 <= i < e1@.len() ==> (#[trigger] e1@[i])@ == e2@[i]@,
{
    let (c1, e1) = r1->Ok_0;
    let (c2, e2) = r2->Ok_0;
    let v1 = Seq::new(e1@.len(), |i: int| e1@[i]@);
    let v2 = Seq::new(e2@.len(), |i: int| e2@[i]@);
    assert(v1 == v2);
    assert forall|i: int| 0 <= i < e1@.len() implies (#[trigger] e1@[i])@ == e2@[i]@ by {
        assert(v1[i] == v2[i]);
    }
}

} // verus!
