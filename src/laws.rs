//! Properties of the wallet that hold over every state and every sequence of
//! invocations, stated over the abstract state that the operations' contracts
//! speak of.

use vstd::prelude::*;
use crate::types::TransactionStatus;
use crate::state::{Action, MultiSigState, add_unique, lemma_add_unique, lemma_step_inv, lemma_without, run, step};

verus! {

/// The id that an invocation hands out: that of a successful proposal.
pub open spec fn issued_id(s: MultiSigState, a: Action) -> Option<u64> {
    match a {
        Action::Propose { verified, caller, to, amount, data, now } => match s.propose(verified, caller, to, amount, data, now) {
            Ok((_, id)) => Some(id),
            Err(_) => None,
        },
        _ => None,
    }
}

/// Every state reached from a fresh wallet satisfies the structural invariant.
pub proof fn lemma_run_inv(s: MultiSigState, actions: Seq<Action>)
    requires
        s.inv(),
    ensures
        run(s, actions).inv(),
    decreases actions.len(),
{
    if actions.len() > 0 {
        lemma_run_inv(s, actions.drop_last());
        lemma_step_inv(run(s, actions.drop_last()), actions.last());
    }
}

/// Once a wallet is initialized, its threshold stays positive and no larger
/// than its signer set, whatever is invoked after.
pub proof fn lemma_threshold_always_valid(actions: Seq<Action>)
    ensures
        run(MultiSigState::empty(), actions).threshold_valid(),
{
    lemma_run_inv(MultiSigState::empty(), actions);
}

/// The signer list holds each signer once, and an identity is a signer
/// exactly when it is on the list, in every state reached from a fresh wallet.
/// Admitting a signer makes it a member and touches no other membership;
/// removing one ends its membership and touches no other.
pub proof fn lemma_signer_set_consistent(actions: Seq<Action>, x: Seq<char>)
    ensures
        run(MultiSigState::empty(), actions).signers.no_duplicates(),
        run(MultiSigState::empty(), actions).is_signer(x) <==> run(MultiSigState::empty(), actions).signers.contains(x),
        actions.len() > 0 ==> match actions.last() {
            Action::AddSigner { verified, caller, signer } => {
                let before = run(MultiSigState::empty(), actions.drop_last());
                before.add_signer(verified, caller, signer) is Ok ==> (run(MultiSigState::empty(), actions).is_signer(x) <==> (before.is_signer(x) || x == signer))
            },
            Action::RemoveSigner { verified, caller, signer } => {
                let before = run(MultiSigState::empty(), actions.drop_last());
                before.remove_signer(verified, caller, signer) is Ok ==> (run(MultiSigState::empty(), actions).is_signer(x) <==> (before.is_signer(x) && x != signer))
            },
            _ => true,
        },
{
    lemma_run_inv(MultiSigState::empty(), actions);
    if actions.len() > 0 {
        let before = run(MultiSigState::empty(), actions.drop_last());
        match actions.last() {
            Action::AddSigner { verified, caller, signer } => {
                lemma_add_unique(before.signers, signer);
                assert(add_unique(before.signers, signer).contains(x) <==> (before.signers.contains(x) || x == signer));
            },
            Action::RemoveSigner { verified, caller, signer } => {
                lemma_without(before.signers, signer);
            },
            _ => {},
        }
    }
}

/// Approving a transaction twice, with the same caller, leaves the same
/// approvals as approving it once: no approver is recorded twice.
pub proof fn lemma_approve_idempotent(s: MultiSigState, verified: bool, caller: Seq<char>, tx_id: u64)
    requires
        s.inv(),
    ensures
        step(step(s, Action::Approve { verified, caller, tx_id }), Action::Approve { verified, caller, tx_id }).approvals
            == step(s, Action::Approve { verified, caller, tx_id }).approvals,
{
    let a = Action::Approve { verified, caller, tx_id };
    let once = step(s, a);
    if s.approve(verified, caller, tx_id) is Ok {
        let i = tx_id - 1;
        lemma_add_unique(s.approvals[i], caller);
        assert(once.approvals[i] == add_unique(s.approvals[i], caller));
        assert(once.approvals[i].contains(caller));
        if once.approve(verified, caller, tx_id) is Ok {
            assert(once.record_approval(caller, tx_id).approvals =~= once.approvals);
        }
    }
}

/// A proposal's id is strictly larger than that of every proposal made
/// before it, whatever was invoked in between: ids are never reused.
pub proof fn lemma_ids_strictly_increase(s: MultiSigState, first: Action, between: Seq<Action>, second: Action)
    requires
        s.inv(),
        issued_id(s, first) is Some,
        issued_id(run(step(s, first), between), second) is Some,
    ensures
        issued_id(s, first)->Some_0 < issued_id(run(step(s, first), between), second)->Some_0,
{
    lemma_step_inv(s, first);
    lemma_next_id_grows(step(s, first), between);
}

/// No invocation lowers the next transaction id.
pub proof fn lemma_next_id_grows(s: MultiSigState, actions: Seq<Action>)
    requires
        s.inv(),
    ensures
        run(s, actions).next_id >= s.next_id,
    decreases actions.len(),
{
    if actions.len() > 0 {
        lemma_next_id_grows(s, actions.drop_last());
        lemma_run_inv(s, actions.drop_last());
    }
}

/// An approval that brings a pending transaction's distinct approvers to the
/// threshold executes it in that same call; one that leaves them below the
/// threshold leaves it pending.
pub proof fn lemma_quorum_execution(s: MultiSigState, verified: bool, caller: Seq<char>, tx_id: u64)
    requires
        s.inv(),
        s.approve(verified, caller, tx_id) is Ok,
    ensures
        ({
            let t = s.approve(verified, caller, tx_id)->Ok_0;
            &&& t.approvals_of(tx_id).no_duplicates()
            &&& t.approvals_of(tx_id) == add_unique(s.approvals_of(tx_id), caller)
            &&& t.approvals_of(tx_id).len() >= s.threshold ==> t.transaction(tx_id).status == TransactionStatus::Executed
            &&& t.approvals_of(tx_id).len() < s.threshold ==> t.transaction(tx_id).status == TransactionStatus::Pending
        }),
{
    lemma_step_inv(s, Action::Approve { verified, caller, tx_id });
    lemma_add_unique(s.approvals[tx_id - 1], caller);
}

/// A proposal counts as its proposer's approval: it is recorded as the only
/// approval, and the new transaction is executed in the same call exactly when
/// that one approval reaches the threshold.
pub proof fn lemma_quorum_at_proposal(s: MultiSigState, verified: bool, caller: Seq<char>, to: Seq<char>, amount: i128, data: Seq<u8>, now: u64)
    requires
        s.inv(),
        s.propose(verified, caller, to, amount, data, now) is Ok,
    ensures
        ({
            let (t, id) = s.propose(verified, caller, to, amount, data, now)->Ok_0;
            &&& t.has_transaction(id)
            &&& t.approvals_of(id) == seq![caller]
            &&& 1 >= s.threshold ==> t.transaction(id).status == TransactionStatus::Executed
            &&& 1 < s.threshold ==> t.transaction(id).status == TransactionStatus::Pending
        }),
{
    lemma_step_inv(s, Action::Propose { verified, caller, to, amount, data, now });
}

} // verus!
