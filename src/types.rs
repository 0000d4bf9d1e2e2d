use vstd::prelude::*;

verus! {

/// An account or contract identity, held as its textual key.
#[derive(Clone, Debug)]
pub struct Address {
    pub key: String,
}

impl View for Address {
    type V = Seq<char>;

    open spec fn view(&self) -> Seq<char> {
        self.key@
    }
}

impl Address {
    pub fn new(key: String) -> (r: Address)
        ensures
            r@ == key@,
    {
        Address { key }
    }

    /// A copy of this identity.
    pub fn duplicate(&self) -> (r: Address)
        ensures
            r@ == self@,
    {
        Address { key: self.key.clone() }
    }

    pub fn same_as(&self, other: &Address) -> (r: bool)
        ensures
            r == (self@ == other@),
    {
        self.key == other.key
    }
}

impl PartialEq for Address {
    fn eq(&self, other: &Address) -> (r: bool) {
        self.key == other.key
    }
}

impl vstd::std_specs::cmp::PartialEqSpecImpl for Address {
    open spec fn obeys_eq_spec() -> bool {
        true
    }

    open spec fn eq_spec(&self, other: &Address) -> bool {
        self.key@ == other.key@
    }
}

impl Eq for Address {}

/// The identities of a sequence of addresses, in order.
pub open spec fn addrs_view(v: Seq<Address>) -> Seq<Seq<char>> {
    v.map_values(|a: Address| a@)
}

/// Lifecycle of a transaction: it is created `Pending` and becomes `Executed`
/// once its approvals reach the threshold. No operation rejects or cancels a
/// transaction, so there are no such states: a pending transaction that never
/// gathers a quorum stays pending.
#[derive(Clone, Copy, Debug, PartialEq, Eq, Structural, PartialOrd, Ord)]
pub enum TransactionStatus {
    Pending,
    Executed,
}

/// Why an operation was refused. A refused operation changes nothing.
#[derive(Clone, Copy, Debug, PartialEq, Eq, Structural)]
pub enum MultiSigError {
    AlreadyInitialized,
    InvalidThreshold,
    EmptySignerSet,
    Unauthorized,
    NotAdmin,
    NotSigner,
    SignerExists,
    ThresholdViolation,
    TransactionNotFound,
    TransactionNotPending,
    /// Every transaction id has been issued.
    IdSpaceExhausted,
}

/// A recorded transaction intent.
#[derive(Clone, Debug)]
pub struct Transaction {
    pub id: u64,
    pub to: Address,
    pub amount: i128,
    pub data: Vec<u8>,
    pub status: TransactionStatus,
    pub proposed_by: Address,
    pub created_at: u64,
}

/// The abstract content of a transaction record.
pub struct TransactionView {
    pub id: u64,
    pub to: Seq<char>,
    pub amount: i128,
    pub data: Seq<u8>,
    pub status: TransactionStatus,
    pub proposed_by: Seq<char>,
    pub created_at: u64,
}

impl View for Transaction {
    type V = TransactionView;

    open spec fn view(&self) -> TransactionView {
        TransactionView {
            id: self.id,
            to: self.to@,
            amount: self.amount,
            data: self.data@,
            status: self.status,
            proposed_by: self.proposed_by@,
            created_at: self.created_at,
        }
    }
}

impl Transaction {
    /// A copy of this record.
    pub fn duplicate(&self) -> (r: Transaction)
        ensures
            r@ == self@,
    {
        let data = self.data.clone();
        assert(data@ =~= self.data@);
        Transaction {
            id: self.id,
            to: self.to.duplicate(),
            amount: self.amount,
            data,
            status: self.status,
            proposed_by: self.proposed_by.duplicate(),
            created_at: self.created_at,
        }
    }
}

/// The keys under which the wallet's entities are kept in a key-value store.
#[derive(Clone, Debug)]
pub enum DataKey {
    Admin,
    Threshold,
    Signers,
    NextId,
    Transaction(u64),
    Approvals(u64),
    Signer(Address),
}

/// The abstract content of a store key.
pub enum DataKeyView {
    Admin,
    Threshold,
    Signers,
    NextId,
    Transaction(u64),
    Approvals(u64),
    Signer(Seq<char>),
}

impl View for DataKey {
    type V = DataKeyView;

    open spec fn view(&self) -> DataKeyView {
        match self {
            DataKey::Admin => DataKeyView::Admin,
            DataKey::Threshold => DataKeyView::Threshold,
            DataKey::Signers => DataKeyView::Signers,
            DataKey::NextId => DataKeyView::NextId,
            DataKey::Transaction(id) => DataKeyView::Transaction(*id),
            DataKey::Approvals(id) => DataKeyView::Approvals(*id),
            DataKey::Signer(who) => DataKeyView::Signer(who@),
        }
    }
}

} // verus!
