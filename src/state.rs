use vstd::prelude::*;
use crate::types::{DataKeyView, MultiSigError, TransactionStatus, TransactionView};

verus! {

/// The abstract state of a wallet.
///
/// `transactions[i]` is the transaction with id `i + 1`, and `approvals[i]`
/// the identities that approved it, in the order of their approvals.
pub struct MultiSigState {
    pub admin: Option<Seq<char>>,
    pub threshold: u32,
    pub signers: Seq<Seq<char>>,
    pub next_id: u64,
    pub transactions: Seq<TransactionView>,
    pub approvals: Seq<Seq<Seq<char>>>,
}

/// The first occurrence of each element of `s`, in order.
pub open spec fn dedup(s: Seq<Seq<char>>) -> Seq<Seq<char>>
    decreases s.len(),
{
    if s.len() == 0 {
        s
    } else {
        add_unique(dedup(s.drop_last()), s.last())
    }
}

/// `s` with `x` appended, unless `x` is already in it.
pub open spec fn add_unique(s: Seq<Seq<char>>, x: Seq<char>) -> Seq<Seq<char>> {
    if s.contains(x) {
        s
    } else {
        s.push(x)
    }
}

/// `s` without any occurrence of `x`.
pub open spec fn without(s: Seq<Seq<char>>, x: Seq<char>) -> Seq<Seq<char>>
    decreases s.len(),
{
    if s.len() == 0 {
        s
    } else if s.last() == x {
        without(s.drop_last(), x)
    } else {
        without(s.drop_last(), x).push(s.last())
    }
}

impl MultiSigState {
    /// A wallet that has not been initialized.
    pub open spec fn empty() -> MultiSigState {
        MultiSigState {
            admin: None,
            threshold: 0,
            signers: Seq::empty(),
            next_id: 0,
            transactions: Seq::empty(),
            approvals: Seq::empty(),
        }
    }

    pub open spec fn initialized(self) -> bool {
        self.admin is Some
    }

    /// The structural invariant that every operation keeps.
    pub open spec fn inv(self) -> bool {
        &&& !self.initialized() ==> {
            &&& self.signers.len() == 0
            &&& self.transactions.len() == 0
            &&& self.threshold == 0
            &&& self.next_id == 0
        }
        &&& self.initialized() ==> self.next_id == self.transactions.len() + 1
        &&& self.approvals.len() == self.transactions.len()
        &&& forall|i: int| 0 <= i < self.transactions.len() ==> #[trigger] self.transactions[i].id == i + 1
        &&& self.signers.no_duplicates()
        &&& forall|i: int| 0 <= i < self.approvals.len() ==> (#[trigger] self.approvals[i]).no_duplicates()
        &&& self.threshold_valid()
    }

    /// The quorum threshold is positive and no larger than the signer set.
    pub open spec fn threshold_valid(self) -> bool {
        self.initialized() ==> 0 < self.threshold && self.threshold <= self.signers.len()
    }

    pub open spec fn is_signer(self, who: Seq<char>) -> bool {
        self.signers.contains(who)
    }

    pub open spec fn is_admin(self, who: Seq<char>) -> bool {
        self.admin == Some(who)
    }

    /// Whether a transaction with this id exists.
    pub open spec fn has_transaction(self, tx_id: u64) -> bool {
        1 <= tx_id && tx_id <= self.transactions.len()
    }

    pub open spec fn transaction(self, tx_id: u64) -> TransactionView {
        self.transactions[tx_id - 1]
    }

    /// The approvers of a transaction; none for an unknown id.
    pub open spec fn approvals_of(self, tx_id: u64) -> Seq<Seq<char>> {
        if self.has_transaction(tx_id) {
            self.approvals[tx_id - 1]
        } else {
            Seq::empty()
        }
    }

    /// Whether the key-value store of this state holds an entry under `key`.
    pub open spec fn holds_key(self, key: DataKeyView) -> bool {
        match key {
            DataKeyView::Admin => self.initialized(),
            DataKeyView::Threshold => self.initialized(),
            DataKeyView::Signers => self.initialized(),
            DataKeyView::NextId => self.initialized(),
            DataKeyView::Transaction(id) => self.has_transaction(id),
            DataKeyView::Approvals(id) => self.has_transaction(id),
            DataKeyView::Signer(who) => self.is_signer(who),
        }
    }

    /// The admin check: a verified caller that is the stored admin.
    pub open spec fn check_admin(self, verified: bool, caller: Seq<char>) -> Result<(), MultiSigError> {
        if !verified {
            Err(MultiSigError::Unauthorized)
        } else if !self.is_admin(caller) {
            Err(MultiSigError::NotAdmin)
        } else {
            Ok(())
        }
    }

    /// The signer check: a verified caller that is a member of the signer set.
    pub open spec fn check_signer(self, verified: bool, caller: Seq<char>) -> Result<(), MultiSigError> {
        if !verified {
            Err(MultiSigError::Unauthorized)
        } else if !self.is_signer(caller) {
            Err(MultiSigError::NotSigner)
        } else {
            Ok(())
        }
    }

    pub open spec fn initialize(self, admin: Seq<char>, signers: Seq<Seq<char>>, threshold: u32) -> Result<MultiSigState, MultiSigError> {
        if self.initialized() {
            Err(MultiSigError::AlreadyInitialized)
        } else if !(0 < threshold && threshold <= dedup(signers).len()) {
            Err(MultiSigError::InvalidThreshold)
        } else if signers.len() == 0 {
            Err(MultiSigError::EmptySignerSet)
        } else {
            Ok(MultiSigState {
                admin: Some(admin),
                threshold,
                signers: dedup(signers),
                next_id: 1,
                ..self
            })
        }
    }

    pub open spec fn add_signer(self, verified: bool, caller: Seq<char>, signer: Seq<char>) -> Result<MultiSigState, MultiSigError> {
        match self.check_admin(verified, caller) {
            Err(e) => Err(e),
            Ok(_) => if self.is_signer(signer) {
                Err(MultiSigError::SignerExists)
            } else {
                Ok(MultiSigState { signers: self.signers.push(signer), ..self })
            },
        }
    }

    pub open spec fn remove_signer(self, verified: bool, caller: Seq<char>, signer: Seq<char>) -> Result<MultiSigState, MultiSigError> {
        match self.check_admin(verified, caller) {
            Err(e) => Err(e),
            Ok(_) => if self.signers.len() <= self.threshold {
                Err(MultiSigError::ThresholdViolation)
            } else {
                Ok(MultiSigState { signers: without(self.signers, signer), ..self })
            },
        }
    }

    pub open spec fn update_threshold(self, verified: bool, caller: Seq<char>, threshold: u32) -> Result<MultiSigState, MultiSigError> {
        match self.check_admin(verified, caller) {
            Err(e) => Err(e),
            Ok(_) => if !(0 < threshold && threshold <= self.signers.len()) {
                Err(MultiSigError::InvalidThreshold)
            } else {
                Ok(MultiSigState { threshold, ..self })
            },
        }
    }

    /// The record that a proposal creates under the next id.
    pub open spec fn proposal(self, caller: Seq<char>, to: Seq<char>, amount: i128, data: Seq<u8>, now: u64) -> TransactionView {
        TransactionView {
            id: self.next_id,
            to,
            amount,
            data,
            status: TransactionStatus::Pending,
            proposed_by: caller,
            created_at: now,
        }
    }

    /// The new state and the id of the new transaction. The proposer's own
    /// approval counts, so a threshold of 1 executes the proposal at once.
    pub open spec fn propose(self, verified: bool, caller: Seq<char>, to: Seq<char>, amount: i128, data: Seq<u8>, now: u64) -> Result<(MultiSigState, u64), MultiSigError> {
        match self.check_signer(verified, caller) {
            Err(e) => Err(e),
            Ok(_) => if self.next_id == u64::MAX {
                Err(MultiSigError::IdSpaceExhausted)
            } else {
                let recorded = MultiSigState {
                    next_id: (self.next_id + 1) as u64,
                    transactions: self.transactions.push(self.proposal(caller, to, amount, data, now)),
                    approvals: self.approvals.push(seq![caller]),
                    ..self
                };
                if 1 >= self.threshold {
                    Ok((recorded.execute(self.next_id), self.next_id))
                } else {
                    Ok((recorded, self.next_id))
                }
            },
        }
    }

    /// The state once `caller`'s approval of a pending transaction is recorded,
    /// before the quorum is considered.
    pub open spec fn record_approval(self, caller: Seq<char>, tx_id: u64) -> MultiSigState {
        MultiSigState {
            approvals: self.approvals.update(tx_id - 1, add_unique(self.approvals[tx_id - 1], caller)),
            ..self
        }
    }

    /// `tx_id`'s status set to `Executed`.
    pub open spec fn execute(self, tx_id: u64) -> MultiSigState {
        MultiSigState {
            transactions: self.transactions.update(
                tx_id - 1,
                TransactionView { status: TransactionStatus::Executed, ..self.transactions[tx_id - 1] },
            ),
            ..self
        }
    }

    pub open spec fn approve(self, verified: bool, caller: Seq<char>, tx_id: u64) -> Result<MultiSigState, MultiSigError> {
        match self.check_signer(verified, caller) {
            Err(e) => Err(e),
            Ok(_) => if !self.has_transaction(tx_id) {
                Err(MultiSigError::TransactionNotFound)
            } else if self.transaction(tx_id).status != TransactionStatus::Pending {
                Err(MultiSigError::TransactionNotPending)
            } else {
                let recorded = self.record_approval(caller, tx_id);
                if recorded.approvals[tx_id - 1].len() >= self.threshold {
                    Ok(recorded.execute(tx_id))
                } else {
                    Ok(recorded)
                }
            },
        }
    }
}

/// One invocation of a wallet operation, with its arguments.
pub enum Action {
    Initialize { admin: Seq<char>, signers: Seq<Seq<char>>, threshold: u32 },
    AddSigner { verified: bool, caller: Seq<char>, signer: Seq<char> },
    RemoveSigner { verified: bool, caller: Seq<char>, signer: Seq<char> },
    UpdateThreshold { verified: bool, caller: Seq<char>, threshold: u32 },
    Propose { verified: bool, caller: Seq<char>, to: Seq<char>, amount: i128, data: Seq<u8>, now: u64 },
    Approve { verified: bool, caller: Seq<char>, tx_id: u64 },
}

/// The outcome of one invocation: the new state, or the old one where the
/// operation was refused.
pub open spec fn step(s: MultiSigState, a: Action) -> MultiSigState {
    let r = match a {
        Action::Initialize { admin, signers, threshold } => s.initialize(admin, signers, threshold),
        Action::AddSigner { verified, caller, signer } => s.add_signer(verified, caller, signer),
        Action::RemoveSigner { verified, caller, signer } => s.remove_signer(verified, caller, signer),
        Action::UpdateThreshold { verified, caller, threshold } => s.update_threshold(verified, caller, threshold),
        Action::Propose { verified, caller, to, amount, data, now } => match s.propose(verified, caller, to, amount, data, now) {
            Ok((t, _)) => Ok(t),
            Err(e) => Err(e),
        },
        Action::Approve { verified, caller, tx_id } => s.approve(verified, caller, tx_id),
    };
    match r {
        Ok(t) => t,
        Err(_) => s,
    }
}

/// The state after a sequence of invocations, in order.
pub open spec fn run(s: MultiSigState, actions: Seq<Action>) -> MultiSigState
    decreases actions.len(),
{
    if actions.len() == 0 {
        s
    } else {
        step(run(s, actions.drop_last()), actions.last())
    }
}


pub proof fn lemma_add_unique(s: Seq<Seq<char>>, x: Seq<char>)
    ensures
        forall|y: Seq<char>| #[trigger] add_unique(s, x).contains(y) <==> (s.contains(y) || y == x),
        s.no_duplicates() ==> add_unique(s, x).no_duplicates(),
        add_unique(s, x).len() == if s.contains(x) { s.len() } else { s.len() + 1 },
{
    if !s.contains(x) {
        assert forall|y: Seq<char>| #[trigger] s.push(x).contains(y) <==> (s.contains(y) || y == x) by {
            if y == x {
                assert(s.push(x)[s.len() as int] == x);
            }
            if s.contains(y) {
                let j = choose|j: int| 0 <= j < s.len() && s[j] == y;
                assert(s.push(x)[j] == y);
            }
        }
    }
}

pub proof fn lemma_dedup(s: Seq<Seq<char>>)
    ensures
        dedup(s).no_duplicates(),
        forall|y: Seq<char>| #[trigger] dedup(s).contains(y) <==> s.contains(y),
        s.no_duplicates() ==> dedup(s) == s,
    decreases s.len(),
{
    if s.len() > 0 {
        let p = s.drop_last();
        lemma_dedup(p);
        lemma_add_unique(dedup(p), s.last());
        assert(s =~= p.push(s.last()));
        assert forall|y: Seq<char>| #[trigger] dedup(s).contains(y) <==> s.contains(y) by {
            if s.contains(y) && y != s.last() {
                let j = choose|j: int| 0 <= j < s.len() && s[j] == y;
                assert(p[j] == y);
            }
            if p.contains(y) {
                let j = choose|j: int| 0 <= j < p.len() && p[j] == y;
                assert(s[j] == y);
            }
        }
        if s.no_duplicates() {
            assert(p.no_duplicates());
            if p.contains(s.last()) {
                let j = choose|j: int| 0 <= j < p.len() && p[j] == s.last();
                assert(s[j] == s[s.len() - 1]);
            }
        }
    }
}

pub proof fn lemma_without(s: Seq<Seq<char>>, x: Seq<char>)
    ensures
        forall|y: Seq<char>| #[trigger] without(s, x).contains(y) <==> (s.contains(y) && y != x),
        s.no_duplicates() ==> without(s, x).no_duplicates(),
        s.no_duplicates() ==> without(s, x).len() == if s.contains(x) { s.len() - 1 } else { s.len() as int },
    decreases s.len(),
{
    if s.len() > 0 {
        let p = s.drop_last();
        let w = without(p, x);
        lemma_without(p, x);
        assert(s =~= p.push(s.last()));
        assert forall|y: Seq<char>| #[trigger] without(s, x).contains(y) <==> (s.contains(y) && y != x) by {
            if s.contains(y) && y != s.last() {
                let j = choose|j: int| 0 <= j < s.len() && s[j] == y;
                assert(p[j] == y);
            }
            if p.contains(y) {
                let j = choose|j: int| 0 <= j < p.len() && p[j] == y;
                assert(s[j] == y);
            }
            if s.last() != x {
                if w.contains(y) {
                    let j = choose|j: int| 0 <= j < w.len() && w[j] == y;
                    assert(w.push(s.last())[j] == y);
                }
                if y == s.last() {
                    assert(w.push(s.last())[w.len() as int] == y);
                }
                if w.push(s.last()).contains(y) && y != s.last() {
                    let j = choose|j: int| 0 <= j < w.len() + 1 && w.push(s.last())[j] == y;
                    assert(w[j] == y);
                }
            }
        }
        if s.no_duplicates() {
            assert(p.no_duplicates());
            assert(!p.contains(s.last())) by {
                if p.contains(s.last()) {
                    let j = choose|j: int| 0 <= j < p.len() && p[j] == s.last();
                    assert(s[j] == s[s.len() - 1]);
                }
            }
            if s.last() != x {
                let q = w.push(s.last());
                assert(!w.contains(s.last()));
                assert forall|i: int, j: int| 0 <= i < q.len() && 0 <= j < q.len() && i != j implies q[i] != q[j] by {
                    if i == w.len() {
                        assert(w[j] == q[j]);
                    } else if j == w.len() {
                        assert(w[i] == q[i]);
                    }
                }
            }
            if s.contains(x) && s.last() != x {
                let j = choose|j: int| 0 <= j < s.len() && s[j] == x;
                assert(p[j] == x);
            }
            if p.contains(x) {
                let j = choose|j: int| 0 <= j < p.len() && p[j] == x;
                assert(s[j] == x);
            }
        }
    }
}

/// Every operation keeps the structural invariant.
pub proof fn lemma_step_inv(s: MultiSigState, a: Action)
    requires
        s.inv(),
    ensures
        step(s, a).inv(),
{
    match a {
        Action::Initialize { admin, signers, threshold } => {
            lemma_dedup(signers);
        },
        Action::AddSigner { verified, caller, signer } => {
            lemma_add_unique(s.signers, signer);
        },
        Action::RemoveSigner { verified, caller, signer } => {
            lemma_without(s.signers, signer);
        },
        Action::UpdateThreshold { .. } => {},
        Action::Propose { verified, caller, to, amount, data, now } => {
            if s.propose(verified, caller, to, amount, data, now) is Ok {
                let t = MultiSigState {
                    next_id: (s.next_id + 1) as u64,
                    transactions: s.transactions.push(s.proposal(caller, to, amount, data, now)),
                    approvals: s.approvals.push(seq![caller]),
                    ..s
                };
                assert forall|i: int| 0 <= i < t.transactions.len() implies #[trigger] t.transactions[i].id == i + 1 by {
                    if i < s.transactions.len() {
                        assert(t.transactions[i] == s.transactions[i]);
                    }
                }
                assert forall|i: int| 0 <= i < t.approvals.len() implies (#[trigger] t.approvals[i]).no_duplicates() by {
                    if i < s.approvals.len() {
                        assert(t.approvals[i] == s.approvals[i]);
                    }
                }
                let e = t.execute(s.next_id);
                assert forall|i: int| 0 <= i < e.transactions.len() implies #[trigger] e.transactions[i].id == i + 1 by {
                    if i != s.next_id - 1 {
                        assert(e.transactions[i] == t.transactions[i]);
                    } else {
                        assert(t.transactions[i].id == i + 1);
                    }
                }
            }
        },
        Action::Approve { verified, caller, tx_id } => {
            if s.approve(verified, caller, tx_id) is Ok {
                lemma_add_unique(s.approvals[tx_id - 1], caller);
                let r = s.record_approval(caller, tx_id);
                assert forall|i: int| 0 <= i < r.approvals.len() implies (#[trigger] r.approvals[i]).no_duplicates() by {
                    if i != tx_id - 1 {
                        assert(r.approvals[i] == s.approvals[i]);
                    }
                }
                let e = r.execute(tx_id);
                assert forall|i: int| 0 <= i < e.transactions.len() implies #[trigger] e.transactions[i].id == i + 1 by {
                    if i != tx_id - 1 {
                        assert(e.transactions[i] == s.transactions[i]);
                    } else {
                        assert(s.transactions[i].id == i + 1);
                    }
                }
            }
        },
    }
}

} // verus!
