use multisig_wallet::{Address, DataKey, MultiSigContract, MultiSigError, TransactionStatus};

fn addr(key: &str) -> Address {
    Address::new(String::from(key))
}

fn keys(v: &[Address]) -> Vec<String> {
    v.iter().map(|a| a.key.clone()).collect()
}

/// Signers A, B, C under admin D, threshold 2.
fn wallet() -> MultiSigContract {
    let mut w = MultiSigContract::new();
    let r = w.initialize(addr("D"), vec![addr("A"), addr("B"), addr("C")], 2);
    assert_eq!(r, Ok(()));
    w
}

#[test]
fn propose_returns_first_id_pending_with_proposer_approval() {
    let mut w = wallet();
    let id = w.propose_transaction(&addr("A"), true, addr("X"), 100, vec![], 7);
    assert_eq!(id, Ok(1));
    let tx = w.get_transaction(1).unwrap();
    assert_eq!(tx.id, 1);
    assert_eq!(tx.status, TransactionStatus::Pending);
    assert_eq!(tx.amount, 100);
    assert_eq!(tx.to, addr("X"));
    assert_eq!(tx.proposed_by, addr("A"));
    assert_eq!(tx.created_at, 7);
    assert!(tx.data.is_empty());
    assert_eq!(keys(&w.get_approvals(1)), vec!["A"]);
}

#[test]
fn second_approval_reaches_quorum_and_executes() {
    let mut w = wallet();
    assert_eq!(w.propose_transaction(&addr("A"), true, addr("X"), 100, vec![], 0), Ok(1));
    assert_eq!(w.approve_transaction(&addr("B"), true, 1), Ok(()));
    assert_eq!(keys(&w.get_approvals(1)), vec!["A", "B"]);
    assert_eq!(w.get_transaction(1).unwrap().status, TransactionStatus::Executed);
}

#[test]
fn approval_after_execution_is_refused() {
    let mut w = wallet();
    w.propose_transaction(&addr("A"), true, addr("X"), 100, vec![], 0).unwrap();
    w.approve_transaction(&addr("B"), true, 1).unwrap();
    assert_eq!(w.approve_transaction(&addr("C"), true, 1), Err(MultiSigError::TransactionNotPending));
    assert_eq!(keys(&w.get_approvals(1)), vec!["A", "B"]);
}

#[test]
fn remove_signer_keeps_at_least_threshold() {
    let mut w = wallet();
    assert_eq!(w.remove_signer(&addr("D"), true, addr("C")), Ok(()));
    assert_eq!(keys(&w.get_signers()), vec!["A", "B"]);
    assert!(!w.is_signer(&addr("C")));
    assert_eq!(w.remove_signer(&addr("D"), true, addr("B")), Err(MultiSigError::ThresholdViolation));
    assert_eq!(keys(&w.get_signers()), vec!["A", "B"]);
    assert!(w.is_signer(&addr("B")));
}

#[test]
fn initialize_twice_is_refused_and_changes_nothing() {
    let mut w = wallet();
    let r = w.initialize(addr("E"), vec![addr("E")], 1);
    assert_eq!(r, Err(MultiSigError::AlreadyInitialized));
    assert_eq!(keys(&w.get_signers()), vec!["A", "B", "C"]);
    assert_eq!(w.add_signer(&addr("E"), true, addr("F")), Err(MultiSigError::NotAdmin));
    assert_eq!(w.add_signer(&addr("D"), true, addr("F")), Ok(()));
}

#[test]
fn threshold_stays_within_signer_count() {
    let mut w = wallet();
    assert_eq!(w.update_threshold(&addr("D"), true, 3), Ok(()));
    assert_eq!(w.remove_signer(&addr("D"), true, addr("A")), Err(MultiSigError::ThresholdViolation));
    assert_eq!(w.update_threshold(&addr("D"), true, 4), Err(MultiSigError::InvalidThreshold));
    assert_eq!(w.update_threshold(&addr("D"), true, 0), Err(MultiSigError::InvalidThreshold));
    assert_eq!(w.add_signer(&addr("D"), true, addr("E")), Ok(()));
    assert_eq!(w.update_threshold(&addr("D"), true, 4), Ok(()));
}

#[test]
fn repeated_signers_are_registered_once() {
    let mut w = MultiSigContract::new();
    assert_eq!(w.initialize(addr("D"), vec![addr("A"), addr("B"), addr("A")], 2), Ok(()));
    assert_eq!(keys(&w.get_signers()), vec!["A", "B"]);
}

#[test]
fn membership_flag_follows_signer_list() {
    let mut w = wallet();
    assert_eq!(w.add_signer(&addr("D"), true, addr("E")), Ok(()));
    assert!(w.is_signer(&addr("E")));
    assert!(w.has(&DataKey::Signer(addr("E"))));
    assert_eq!(keys(&w.get_signers()), vec!["A", "B", "C", "E"]);
    assert_eq!(w.add_signer(&addr("D"), true, addr("E")), Err(MultiSigError::SignerExists));
    assert_eq!(w.remove_signer(&addr("D"), true, addr("B")), Ok(()));
    assert!(!w.is_signer(&addr("B")));
    assert!(!w.has(&DataKey::Signer(addr("B"))));
    assert_eq!(keys(&w.get_signers()), vec!["A", "C", "E"]);
}

#[test]
fn removing_a_non_member_changes_nothing() {
    let mut w = wallet();
    assert_eq!(w.remove_signer(&addr("D"), true, addr("Z")), Ok(()));
    assert_eq!(keys(&w.get_signers()), vec!["A", "B", "C"]);
}

#[test]
fn approving_twice_records_one_approval() {
    let mut w = wallet();
    w.update_threshold(&addr("D"), true, 3).unwrap();
    w.propose_transaction(&addr("A"), true, addr("X"), 5, vec![1, 2], 0).unwrap();
    assert_eq!(w.approve_transaction(&addr("B"), true, 1), Ok(()));
    assert_eq!(w.approve_transaction(&addr("B"), true, 1), Ok(()));
    assert_eq!(keys(&w.get_approvals(1)), vec!["A", "B"]);
    assert_eq!(w.approve_transaction(&addr("A"), true, 1), Ok(()));
    assert_eq!(keys(&w.get_approvals(1)), vec!["A", "B"]);
    assert_eq!(w.get_transaction(1).unwrap().status, TransactionStatus::Pending);
}

#[test]
fn transaction_ids_increase() {
    let mut w = wallet();
    assert_eq!(w.propose_transaction(&addr("A"), true, addr("X"), 1, vec![], 0), Ok(1));
    assert_eq!(w.propose_transaction(&addr("B"), false, addr("X"), 1, vec![], 0), Err(MultiSigError::Unauthorized));
    assert_eq!(w.propose_transaction(&addr("B"), true, addr("X"), -3, vec![9], 0), Ok(2));
    assert_eq!(w.propose_transaction(&addr("C"), true, addr("Y"), 0, vec![], 0), Ok(3));
    assert_eq!(w.get_transaction(2).unwrap().amount, -3);
    assert_eq!(w.get_transaction(2).unwrap().data, vec![9]);
    assert!(w.has(&DataKey::Transaction(3)));
    assert!(!w.has(&DataKey::Transaction(4)));
}

#[test]
fn quorum_of_three_executes_on_third_approval() {
    let mut w = wallet();
    w.update_threshold(&addr("D"), true, 3).unwrap();
    w.propose_transaction(&addr("A"), true, addr("X"), 1, vec![], 0).unwrap();
    w.approve_transaction(&addr("B"), true, 1).unwrap();
    assert_eq!(w.get_transaction(1).unwrap().status, TransactionStatus::Pending);
    w.approve_transaction(&addr("C"), true, 1).unwrap();
    assert_eq!(w.get_transaction(1).unwrap().status, TransactionStatus::Executed);
}

#[test]
fn lowered_threshold_executes_on_next_approval() {
    let mut w = wallet();
    w.update_threshold(&addr("D"), true, 3).unwrap();
    w.propose_transaction(&addr("A"), true, addr("X"), 1, vec![], 0).unwrap();
    w.approve_transaction(&addr("B"), true, 1).unwrap();
    w.update_threshold(&addr("D"), true, 1).unwrap();
    assert_eq!(w.get_transaction(1).unwrap().status, TransactionStatus::Pending);
    w.approve_transaction(&addr("B"), true, 1).unwrap();
    assert_eq!(w.get_transaction(1).unwrap().status, TransactionStatus::Executed);
}

#[test]
fn proposal_meeting_threshold_of_one_executes() {
    let mut w = MultiSigContract::new();
    w.initialize(addr("D"), vec![addr("A")], 1).unwrap();
    assert_eq!(w.propose_transaction(&addr("A"), true, addr("X"), 1, vec![], 0), Ok(1));
    assert_eq!(w.get_transaction(1).unwrap().status, TransactionStatus::Executed);
    assert_eq!(keys(&w.get_approvals(1)), vec!["A"]);
    assert_eq!(w.approve_transaction(&addr("A"), true, 1), Err(MultiSigError::TransactionNotPending));
}

#[test]
fn initialize_rejects_bad_thresholds() {
    let mut w = MultiSigContract::new();
    assert_eq!(w.initialize(addr("D"), vec![addr("A")], 0), Err(MultiSigError::InvalidThreshold));
    assert_eq!(w.initialize(addr("D"), vec![addr("A")], 2), Err(MultiSigError::InvalidThreshold));
    assert_eq!(w.initialize(addr("D"), vec![], 0), Err(MultiSigError::InvalidThreshold));
    assert_eq!(w.initialize(addr("D"), vec![], 1), Err(MultiSigError::InvalidThreshold));
    assert!(!w.has(&DataKey::Admin));
    assert_eq!(w.initialize(addr("D"), vec![addr("A")], 1), Ok(()));
    assert!(w.has(&DataKey::Admin));
    assert!(w.has(&DataKey::NextId));
}

#[test]
fn access_checks() {
    let mut w = wallet();
    assert_eq!(w.add_signer(&addr("D"), false, addr("E")), Err(MultiSigError::Unauthorized));
    assert_eq!(w.add_signer(&addr("A"), true, addr("E")), Err(MultiSigError::NotAdmin));
    assert_eq!(w.update_threshold(&addr("A"), true, 1), Err(MultiSigError::NotAdmin));
    assert_eq!(w.remove_signer(&addr("A"), true, addr("B")), Err(MultiSigError::NotAdmin));
    assert_eq!(w.propose_transaction(&addr("D"), true, addr("X"), 1, vec![], 0), Err(MultiSigError::NotSigner));
    assert_eq!(w.approve_transaction(&addr("D"), true, 1), Err(MultiSigError::NotSigner));
    assert_eq!(w.approve_transaction(&addr("A"), false, 1), Err(MultiSigError::Unauthorized));
}

#[test]
fn uninitialized_wallet_refuses_everything() {
    let mut w = MultiSigContract::new();
    assert_eq!(w.add_signer(&addr("D"), true, addr("E")), Err(MultiSigError::NotAdmin));
    assert_eq!(w.propose_transaction(&addr("A"), true, addr("X"), 1, vec![], 0), Err(MultiSigError::NotSigner));
    assert!(w.get_signers().is_empty());
}

#[test]
fn unknown_transactions() {
    let mut w = wallet();
    assert_eq!(w.approve_transaction(&addr("A"), true, 0), Err(MultiSigError::TransactionNotFound));
    assert_eq!(w.approve_transaction(&addr("A"), true, 1), Err(MultiSigError::TransactionNotFound));
    assert!(w.get_transaction(1).is_none());
    assert!(w.get_approvals(1).is_empty());
    assert!(w.get_approvals(0).is_empty());
}

#[test]
fn copies_keep_their_content() {
    let a = addr("GABC");
    assert_eq!(a.duplicate().key, "GABC");
    assert!(a.same_as(&addr("GABC")));
    assert!(!a.same_as(&addr("GABD")));
}

#[test]
fn threshold_is_checked_against_distinct_signers() {
    let mut w = MultiSigContract::new();
    assert_eq!(w.initialize(addr("D"), vec![addr("A"), addr("A")], 2), Err(MultiSigError::InvalidThreshold));
    assert!(!w.has(&DataKey::Admin));
    assert!(w.get_signers().is_empty());
    assert_eq!(w.initialize(addr("D"), vec![addr("A"), addr("A")], 1), Ok(()));
    let (_, threshold, signers, _, _, _) = w.into_parts();
    assert_eq!(threshold, 1);
    assert_eq!(keys(&signers), vec!["A"]);
}

#[test]
fn restore_rejects_threshold_above_signer_count() {
    let (admin, _, signers, next_id, transactions, approvals) = wallet().into_parts();
    assert!(MultiSigContract::restore(admin, 4, signers, next_id, transactions, approvals).is_none());
}

#[test]
fn parts_round_trip() {
    let mut w = wallet();
    w.propose_transaction(&addr("A"), true, addr("X"), 100, vec![3], 9).unwrap();
    let (admin, threshold, signers, next_id, transactions, approvals) = w.into_parts();
    assert_eq!(admin, Some(addr("D")));
    assert_eq!(threshold, 2);
    assert_eq!(next_id, 2);
    assert_eq!(transactions.len(), 1);
    assert_eq!(approvals.len(), 1);
    let mut back = MultiSigContract::restore(admin, threshold, signers, next_id, transactions, approvals).unwrap();
    assert_eq!(back.approve_transaction(&addr("C"), true, 1), Ok(()));
    assert_eq!(back.get_transaction(1).unwrap().status, TransactionStatus::Executed);
    assert_eq!(back.propose_transaction(&addr("A"), true, addr("X"), 1, vec![], 0), Ok(2));
}

#[test]
fn restore_rejects_inconsistent_parts() {
    let parts = || wallet_with_one_transaction().into_parts();
    let (admin, threshold, signers, next_id, transactions, approvals) = parts();
    assert!(MultiSigContract::restore(admin, threshold, signers, next_id + 1, transactions, approvals).is_none());
    let (admin, threshold, mut signers, next_id, transactions, approvals) = parts();
    signers.push(addr("A"));
    assert!(MultiSigContract::restore(admin, threshold, signers, next_id, transactions, approvals).is_none());
    let (admin, threshold, signers, next_id, mut transactions, approvals) = parts();
    transactions[0].id = 5;
    assert!(MultiSigContract::restore(admin, threshold, signers, next_id, transactions, approvals).is_none());
    let (admin, threshold, signers, next_id, transactions, mut approvals) = parts();
    approvals[0].push(addr("A"));
    assert!(MultiSigContract::restore(admin, threshold, signers, next_id, transactions, approvals).is_none());
    let (_, threshold, signers, next_id, transactions, approvals) = parts();
    assert!(MultiSigContract::restore(None, threshold, signers, next_id, transactions, approvals).is_none());
    assert!(MultiSigContract::restore(None, 0, vec![], 0, vec![], vec![]).is_some());
}

fn wallet_with_one_transaction() -> MultiSigContract {
    let mut w = wallet();
    w.propose_transaction(&addr("A"), true, addr("X"), 100, vec![], 0).unwrap();
    w
}
