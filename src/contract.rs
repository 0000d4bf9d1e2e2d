use vstd::prelude::*;
use crate::types::{Address, DataKey, MultiSigError, Transaction, TransactionStatus, TransactionView, addrs_view};
use crate::state::{Action, MultiSigState, lemma_step_inv, add_unique, dedup, lemma_add_unique, lemma_dedup, lemma_without, without};

verus! {

/// A multi-signature wallet and the store that holds its state.
pub struct MultiSigContract {
    admin: Option<Address>,
    threshold: u32,
    signers: Vec<Address>,
    next_id: u64,
    transactions: Vec<Transaction>,
    approvals: Vec<Vec<Address>>,
}

pub open spec fn admin_view(a: Option<Address>) -> Option<Seq<char>> {
    match a {
        Some(a) => Some(a@),
        None => None,
    }
}

pub open spec fn txs_view(v: Seq<Transaction>) -> Seq<crate::types::TransactionView> {
    v.map_values(|t: Transaction| t@)
}

pub open spec fn approvals_view(v: Seq<Vec<Address>>) -> Seq<Seq<Seq<char>>> {
    v.map_values(|a: Vec<Address>| addrs_view(a@))
}

impl View for MultiSigContract {
    type V = MultiSigState;

    closed spec fn view(&self) -> MultiSigState {
        MultiSigState {
            admin: admin_view(self.admin),
            threshold: self.threshold,
            signers: addrs_view(self.signers@),
            next_id: self.next_id,
            transactions: txs_view(self.transactions@),
            approvals: approvals_view(self.approvals@),
        }
    }
}

/// Whether `a` occurs in `v`, by a linear scan.
fn contains_addr(v: &Vec<Address>, a: &Address) -> (r: bool)
    ensures
        r == addrs_view(v@).contains(a@),
{
    let mut i: usize = 0;
    while i < v.len()
        invariant
            i <= v.len(),
            forall|j: int| 0 <= j < i ==> addrs_view(v@)[j] != a@,
        decreases v.len() - i,
    {
        if v[i].same_as(a) {
            assert(addrs_view(v@)[i as int] == a@);
            return true;
        }
        i += 1;
    }
    false
}

/// The first occurrence of each address of `v`, in order.
fn distinct_addrs(v: &Vec<Address>) -> (r: Vec<Address>)
    ensures
        addrs_view(r@) == dedup(addrs_view(v@)),
{
    let ghost input = addrs_view(v@);
    let mut out: Vec<Address> = Vec::new();
    assert(addrs_view(out@) =~= dedup(input.take(0)));
    let mut i: usize = 0;
    while i < v.len()
        invariant
            i <= v.len(),
            input == addrs_view(v@),
            addrs_view(out@) == dedup(input.take(i as int)),
        decreases v.len() - i,
    {
        assert(input.take(i + 1).drop_last() =~= input.take(i as int));
        if !contains_addr(&out, &v[i]) {
            let ghost before = out@;
            out.push(v[i].duplicate());
            assert(addrs_view(out@) =~= addrs_view(before).push(input[i as int]));
        }
        i += 1;
    }
    assert(input.take(v.len() as int) =~= input);
    out
}

/// A copy of a list of addresses.
fn copy_addrs(v: &Vec<Address>) -> (r: Vec<Address>)
    ensures
        addrs_view(r@) == addrs_view(v@),
{
    let mut out: Vec<Address> = Vec::new();
    let mut i: usize = 0;
    while i < v.len()
        invariant
            i <= v.len(),
            addrs_view(out@) == addrs_view(v@).take(i as int),
        decreases v.len() - i,
    {
        let ghost before = out@;
        out.push(v[i].duplicate());
        assert(addrs_view(out@) =~= addrs_view(before).push(addrs_view(v@)[i as int]));
        assert(addrs_view(out@) =~= addrs_view(v@).take(i + 1));
        i += 1;
    }
    assert(addrs_view(v@).take(v.len() as int) =~= addrs_view(v@));
    out
}


/// Whether no identity occurs twice in `v`.
fn all_distinct(v: &Vec<Address>) -> (r: bool)
    ensures
        r == addrs_view(v@).no_duplicates(),
{
    let ghost w = addrs_view(v@);
    let mut i: usize = 0;
    while i < v.len()
        invariant
            i <= v.len(),
            w == addrs_view(v@),
            forall|p: int, q: int| 0 <= p < q < i ==> w[p] != w[q],
        decreases v.len() - i,
    {
        let mut j: usize = 0;
        while j < i
            invariant
                j <= i < v.len(),
                w == addrs_view(v@),
                forall|p: int| 0 <= p < j ==> w[p] != w[i as int],
            decreases i - j,
        {
            if v[j].same_as(&v[i]) {
                assert(w[j as int] == w[i as int]);
                return false;
            }
            j += 1;
        }
        i += 1;
    }
    assert forall|p: int, q: int| 0 <= p < w.len() && 0 <= q < w.len() && p != q implies w[p] != w[q] by {
        if p > q {
            assert(w[q] != w[p]);
        }
    }
    true
}

impl MultiSigContract {
    /// A wallet that has not been initialized.
    pub fn new() -> (r: MultiSigContract)
        ensures
            r@ == MultiSigState::empty(),
            r@.inv(),
    {
        let r = MultiSigContract {
            admin: None,
            threshold: 0,
            signers: Vec::new(),
            next_id: 0,
            transactions: Vec::new(),
            approvals: Vec::new(),
        };
        assert(r@.signers =~= Seq::<Seq<char>>::empty());
        assert(r@.transactions =~= Seq::<crate::types::TransactionView>::empty());
        assert(r@.approvals =~= Seq::<Seq<Seq<char>>>::empty());
        r
    }

    /// Adds `signer` to the ordered signer list (unless present) or removes
    /// every occurrence of it.
    fn update_signers_list(&mut self, signer: &Address, is_add: bool)
        ensures
            final(self)@ == (MultiSigState {
                signers: if is_add {
                    add_unique(old(self)@.signers, signer@)
                } else {
                    without(old(self)@.signers, signer@)
                },
                ..old(self)@
            }),
    {
        if is_add {
            if !contains_addr(&self.signers, signer) {
                self.signers.push(signer.duplicate());
                assert(addrs_view(self.signers@) =~= addrs_view(old(self).signers@).push(signer@));
            }
        } else {
            let ghost all = addrs_view(self.signers@);
            let mut kept: Vec<Address> = Vec::new();
            let mut i: usize = 0;
            while i < self.signers.len()
                invariant
                    i <= self.signers.len(),
                    all == addrs_view(self.signers@),
                    addrs_view(kept@) == without(all.take(i as int), signer@),
                decreases self.signers.len() - i,
            {
                assert(all.take(i + 1).drop_last() =~= all.take(i as int));
                if !self.signers[i].same_as(signer) {
                    kept.push(self.signers[i].duplicate());
                    assert(addrs_view(kept@) =~= without(all.take(i + 1), signer@));
                }
                i += 1;
            }
            assert(all.take(self.signers.len() as int) =~= all);
            self.signers = kept;
        }
    }

    /// Stores the admin, the threshold and the signers, and starts transaction
    /// ids at 1. Repeated signers are registered once, and the threshold must
    /// lie between 1 and the number of distinct signers.
    pub fn initialize(&mut self, admin: Address, signers: Vec<Address>, threshold: u32) -> (r: Result<(), MultiSigError>)
        requires
            old(self)@.inv(),
        ensures
            final(self)@.inv(),
            match old(self)@.initialize(admin@, addrs_view(signers@), threshold) {
                Ok(s) => r is Ok && final(self)@ == s,
                Err(e) => r == Err::<(), MultiSigError>(e) && final(self)@ == old(self)@,
            },
    {
        if self.admin.is_some() {
            return Err(MultiSigError::AlreadyInitialized);
        }
        let list = distinct_addrs(&signers);
        if !(threshold > 0 && threshold as usize <= list.len()) {
            return Err(MultiSigError::InvalidThreshold);
        }
        if signers.len() == 0 {
            return Err(MultiSigError::EmptySignerSet);
        }
        self.admin = Some(admin);
        self.threshold = threshold;
        self.signers = list;
        self.next_id = 1;
        proof {
            lemma_dedup(addrs_view(signers@));
        }
        Ok(())
    }

    /// The admin check: the caller's identity was verified by the host and
    /// it is the stored admin.
    fn only_admin(&self, caller: &Address, caller_verified: bool) -> (r: Result<(), MultiSigError>)
        ensures
            r == self@.check_admin(caller_verified, caller@),
    {
        if !caller_verified {
            return Err(MultiSigError::Unauthorized);
        }
        match &self.admin {
            Some(admin) => if caller.same_as(admin) {
                Ok(())
            } else {
                Err(MultiSigError::NotAdmin)
            },
            None => Err(MultiSigError::NotAdmin),
        }
    }

    /// The signer check: the caller's identity was verified by the host and
    /// it is a member of the signer set.
    fn only_signer(&self, caller: &Address, caller_verified: bool) -> (r: Result<(), MultiSigError>)
        ensures
            r == self@.check_signer(caller_verified, caller@),
    {
        if !caller_verified {
            return Err(MultiSigError::Unauthorized);
        }
        if !self.is_signer(caller) {
            return Err(MultiSigError::NotSigner);
        }
        Ok(())
    }

    /// Whether the store holds an entry under `key`.
    pub fn has(&self, key: &DataKey) -> (r: bool)
        requires
            self@.inv(),
        ensures
            r == self@.holds_key(key@),
    {
        match key {
            DataKey::Admin | DataKey::Threshold | DataKey::Signers | DataKey::NextId => self.admin.is_some(),
            DataKey::Transaction(id) | DataKey::Approvals(id) => 1 <= *id && *id <= self.transactions.len() as u64,
            DataKey::Signer(who) => self.is_signer(who),
        }
    }

    /// Whether `who` is a member of the signer set.
    pub fn is_signer(&self, who: &Address) -> (r: bool)
        ensures
            r == self@.is_signer(who@),
    {
        contains_addr(&self.signers, who)
    }

    /// Admits a new signer at the end of the signer list.
    pub fn add_signer(&mut self, caller: &Address, caller_verified: bool, signer: Address) -> (r: Result<(), MultiSigError>)
        requires
            old(self)@.inv(),
        ensures
            final(self)@.inv(),
            match old(self)@.add_signer(caller_verified, caller@, signer@) {
                Ok(s) => r is Ok && final(self)@ == s,
                Err(e) => r == Err::<(), MultiSigError>(e) && final(self)@ == old(self)@,
            },
    {
        if let Err(e) = self.only_admin(caller, caller_verified) {
            return Err(e);
        }
        if self.is_signer(&signer) {
            return Err(MultiSigError::SignerExists);
        }
        self.update_signers_list(&signer, true);
        proof {
            lemma_add_unique(old(self)@.signers, signer@);
        }
        Ok(())
    }

    /// Takes `signer` out of the signer set, provided more signers than the
    /// threshold remain before the removal.
    pub fn remove_signer(&mut self, caller: &Address, caller_verified: bool, signer: Address) -> (r: Result<(), MultiSigError>)
        requires
            old(self)@.inv(),
        ensures
            final(self)@.inv(),
            match old(self)@.remove_signer(caller_verified, caller@, signer@) {
                Ok(s) => r is Ok && final(self)@ == s,
                Err(e) => r == Err::<(), MultiSigError>(e) && final(self)@ == old(self)@,
            },
    {
        if let Err(e) = self.only_admin(caller, caller_verified) {
            return Err(e);
        }
        if self.signers.len() <= self.threshold as usize {
            return Err(MultiSigError::ThresholdViolation);
        }
        self.update_signers_list(&signer, false);
        proof {
            lemma_without(old(self)@.signers, signer@);
        }
        Ok(())
    }

    /// Sets a new quorum threshold, between 1 and the number of signers.
    pub fn update_threshold(&mut self, caller: &Address, caller_verified: bool, new_threshold: u32) -> (r: Result<(), MultiSigError>)
        requires
            old(self)@.inv(),
        ensures
            final(self)@.inv(),
            match old(self)@.update_threshold(caller_verified, caller@, new_threshold) {
                Ok(s) => r is Ok && final(self)@ == s,
                Err(e) => r == Err::<(), MultiSigError>(e) && final(self)@ == old(self)@,
            },
    {
        if let Err(e) = self.only_admin(caller, caller_verified) {
            return Err(e);
        }
        if !(new_threshold > 0 && new_threshold as usize <= self.signers.len()) {
            return Err(MultiSigError::InvalidThreshold);
        }
        self.threshold = new_threshold;
        Ok(())
    }

    /// Records `caller`'s approval of the transaction `tx_id`, once.
    fn self_approve(&mut self, caller: &Address, tx_id: u64)
        ensures
            final(self)@ == if 1 <= tx_id && tx_id <= old(self)@.approvals.len() {
                old(self)@.record_approval(caller@, tx_id)
            } else {
                old(self)@
            },
            final(self).approvals.len() == old(self).approvals.len(),
    {
        if tx_id == 0 || (self.approvals.len() as u64) < tx_id {
            return;
        }
        let idx = (tx_id - 1) as usize;
        if !contains_addr(&self.approvals[idx], caller) {
            self.approvals[idx].push(caller.duplicate());
            assert(addrs_view(self.approvals@[idx as int]@) =~= addrs_view(old(self).approvals@[idx as int]@).push(caller@));
        }
        assert(approvals_view(self.approvals@) =~= old(self)@.record_approval(caller@, tx_id).approvals);
    }

    /// Marks `tx` executed and stores it under its id, if a transaction with
    /// that id exists.
    fn self_execute(&mut self, tx: &mut Transaction)
        ensures
            final(tx)@ == (TransactionView { status: TransactionStatus::Executed, ..old(tx)@ }),
            final(self)@ == if old(self)@.has_transaction(old(tx).id) {
                MultiSigState { transactions: old(self)@.transactions.update(old(tx).id - 1, final(tx)@), ..old(self)@ }
            } else {
                old(self)@
            },
    {
        tx.status = TransactionStatus::Executed;
        let n = self.transactions.len();
        assert(old(self)@.transactions.len() == n);
        if tx.id == 0 || (n as u64) < tx.id {
            return;
        }
        let idx = (tx.id - 1) as usize;
        let stored = tx.duplicate();
        self.transactions[idx] = stored;
        assert(txs_view(self.transactions@) =~= old(self)@.transactions.update(old(tx).id - 1, tx@));
    }

    /// Creates a pending transaction under the next id, with the proposer's
    /// own approval, and returns the id. Where that approval already reaches
    /// the threshold, the transaction is executed at once.
    pub fn propose_transaction(
        &mut self,
        caller: &Address,
        caller_verified: bool,
        to: Address,
        amount: i128,
        data: Vec<u8>,
        now: u64,
    ) -> (r: Result<u64, MultiSigError>)
        requires
            old(self)@.inv(),
        ensures
            final(self)@.inv(),
            match old(self)@.propose(caller_verified, caller@, to@, amount, data@, now) {
                Ok((s, id)) => r == Ok::<u64, MultiSigError>(id) && final(self)@ == s,
                Err(e) => r == Err::<u64, MultiSigError>(e) && final(self)@ == old(self)@,
            },
    {
        if let Err(e) = self.only_signer(caller, caller_verified) {
            return Err(e);
        }
        let tx_id = self.next_id;
        if tx_id == u64::MAX {
            return Err(MultiSigError::IdSpaceExhausted);
        }
        self.next_id = tx_id + 1;
        let mut tx = Transaction {
            id: tx_id,
            to,
            amount,
            data,
            status: TransactionStatus::Pending,
            proposed_by: caller.duplicate(),
            created_at: now,
        };
        self.transactions.push(tx.duplicate());
        self.approvals.push(Vec::new());
        assert(txs_view(self.transactions@) =~= txs_view(old(self).transactions@).push(self.transactions@.last()@));
        assert(addrs_view(self.approvals@.last()@) =~= Seq::<Seq<char>>::empty());
        assert(approvals_view(self.approvals@) =~= approvals_view(old(self).approvals@).push(Seq::empty()));
        assert(self@.transactions == old(self)@.transactions.push(old(self)@.proposal(caller@, to@, amount, data@, now)));
        self.self_approve(caller, tx_id);
        assert(add_unique(Seq::empty(), caller@) =~= seq![caller@]);
        assert(self@.approvals =~= old(self)@.approvals.push(seq![caller@]));
        let ghost recorded = self@;
        assert(recorded.transactions[tx_id - 1] == tx@);
        assert(recorded.approvals[tx_id - 1] == seq![caller@]);
        let count = self.approvals[(tx_id - 1) as usize].len();
        assert(addrs_view(self.approvals@[tx_id - 1]@) == recorded.approvals[tx_id - 1]);
        assert(count == 1);
        if count >= self.threshold as usize {
            self.self_execute(&mut tx);
            assert(self@ == recorded.execute(tx_id));
        }
        proof {
            lemma_step_inv(old(self)@, Action::Propose { verified: caller_verified, caller: caller@, to: to@, amount, data: data@, now });
        }
        Ok(tx_id)
    }

    /// Records the caller's approval of a pending transaction, and executes
    /// the transaction once its approvals reach the threshold.
    pub fn approve_transaction(&mut self, caller: &Address, caller_verified: bool, tx_id: u64) -> (r: Result<(), MultiSigError>)
        requires
            old(self)@.inv(),
        ensures
            final(self)@.inv(),
            match old(self)@.approve(caller_verified, caller@, tx_id) {
                Ok(s) => r is Ok && final(self)@ == s,
                Err(e) => r == Err::<(), MultiSigError>(e) && final(self)@ == old(self)@,
            },
    {
        if let Err(e) = self.only_signer(caller, caller_verified) {
            return Err(e);
        }
        if tx_id == 0 || (self.transactions.len() as u64) < tx_id {
            return Err(MultiSigError::TransactionNotFound);
        }
        let mut tx = self.transactions[(tx_id - 1) as usize].duplicate();
        if tx.status != TransactionStatus::Pending {
            return Err(MultiSigError::TransactionNotPending);
        }
        self.self_approve(caller, tx_id);
        let count = self.approvals[(tx_id - 1) as usize].len();
        if count >= self.threshold as usize {
            self.self_execute(&mut tx);
        }
        proof {
            lemma_step_inv(old(self)@, Action::Approve { verified: caller_verified, caller: caller@, tx_id });
        }
        Ok(())
    }

    /// The signer list, in order of admission.
    pub fn get_signers(&self) -> (r: Vec<Address>)
        ensures
            addrs_view(r@) == self@.signers,
    {
        copy_addrs(&self.signers)
    }

    /// The approvers of a transaction, in order; none for an unknown id.
    pub fn get_approvals(&self, tx_id: u64) -> (r: Vec<Address>)
        requires
            self@.inv(),
        ensures
            addrs_view(r@) == self@.approvals_of(tx_id),
    {
        if tx_id == 0 || (self.approvals.len() as u64) < tx_id {
            let r: Vec<Address> = Vec::new();
            assert(addrs_view(r@) =~= Seq::<Seq<char>>::empty());
            return r;
        }
        copy_addrs(&self.approvals[(tx_id - 1) as usize])
    }

    /// The transaction with this id, if there is one.
    pub fn get_transaction(&self, tx_id: u64) -> (r: Option<Transaction>)
        requires
            self@.inv(),
        ensures
            match r {
                Some(t) => self@.has_transaction(tx_id) && t@ == self@.transaction(tx_id),
                None => !self@.has_transaction(tx_id),
            },
    {
        if tx_id == 0 || (self.transactions.len() as u64) < tx_id {
            return None;
        }
        Some(self.transactions[(tx_id - 1) as usize].duplicate())
    }

    /// Rebuilds a wallet from the parts that `into_parts` hands out, provided
    /// they form a consistent state.
    pub fn restore(
        admin: Option<Address>,
        threshold: u32,
        signers: Vec<Address>,
        next_id: u64,
        transactions: Vec<Transaction>,
        approvals: Vec<Vec<Address>>,
    ) -> (r: Option<MultiSigContract>)
        ensures
            ({
                let s = MultiSigState {
                    admin: admin_view(admin),
                    threshold,
                    signers: addrs_view(signers@),
                    next_id,
                    transactions: txs_view(transactions@),
                    approvals: approvals_view(approvals@),
                };
                match r {
                    Some(w) => s.inv() && w@ == s,
                    None => !s.inv(),
                }
            }),
    {
        let ghost s = MultiSigState {
            admin: admin_view(admin),
            threshold,
            signers: addrs_view(signers@),
            next_id,
            transactions: txs_view(transactions@),
            approvals: approvals_view(approvals@),
        };
        if approvals.len() != transactions.len() {
            return None;
        }
        match &admin {
            None => if !(signers.len() == 0 && transactions.len() == 0 && threshold == 0 && next_id == 0) {
                return None;
            },
            Some(_) => if !(next_id >= 1 && transactions.len() as u64 == next_id - 1 && threshold > 0
                && threshold as usize <= signers.len()) {
                return None;
            },
        }
        if !all_distinct(&signers) {
            return None;
        }
        let mut i: usize = 0;
        while i < transactions.len()
            invariant
                i <= transactions.len(),
                approvals.len() == transactions.len(),
                s == (MultiSigState {
                    admin: admin_view(admin),
                    threshold,
                    signers: addrs_view(signers@),
                    next_id,
                    transactions: txs_view(transactions@),
                    approvals: approvals_view(approvals@),
                }),
                forall|k: int| 0 <= k < i ==> #[trigger] s.transactions[k].id == k + 1,
                forall|k: int| 0 <= k < i ==> (#[trigger] s.approvals[k]).no_duplicates(),
            decreases transactions.len() - i,
        {
            let id = transactions[i].id;
            if !(id >= 1 && id - 1 == i as u64) {
                assert(s.transactions[i as int].id != i + 1);
                return None;
            }
            if !all_distinct(&approvals[i]) {
                assert(!s.approvals[i as int].no_duplicates());
                return None;
            }
            i += 1;
        }
        Some(MultiSigContract { admin, threshold, signers, next_id, transactions, approvals })
    }

    /// The wallet's stored parts: admin, threshold, signers, next id,
    /// transactions and approvals.
    pub fn into_parts(self) -> (r: (Option<Address>, u32, Vec<Address>, u64, Vec<Transaction>, Vec<Vec<Address>>))
        ensures
            (MultiSigState {
                admin: admin_view(r.0),
                threshold: r.1,
                signers: addrs_view(r.2@),
                next_id: r.3,
                transactions: txs_view(r.4@),
                approvals: approvals_view(r.5@),
            }) == self@,
    {
        (self.admin, self.threshold, self.signers, self.next_id, self.transactions, self.approvals)
    }
}

} // verus!
