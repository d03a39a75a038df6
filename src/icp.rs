//! The payment receiver: proves transfers made on the external ledger to
//! this adjudicator and keeps what they paid, per memo, until a deposit
//! claims it.

use crate::amount::Amount;
use crate::error::ICPReceiverError;
use crate::types::L1Account;
use candid::Principal;
use ic_ledger_types::{AccountIdentifier, DEFAULT_SUBACCOUNT};
use std::collections::{BTreeMap, BTreeSet};
use vstd::prelude::*;

verus! {

/// Memo attached to an external transfer.
pub type Memo = u64;

/// Index of a block on the external ledger.
pub type BlockHeight = u64;

/// The ledger account of `principal` under the default subaccount.
pub uninterp spec fn default_account_of(principal: Seq<u8>) -> Seq<u8>;

/// Relies on ic_ledger_types' `AccountIdentifier::new` with
/// `DEFAULT_SUBACCOUNT` for the 32-byte ledger account of a principal, and on
/// candid's `Principal::from_slice`, which accepts at most 29 bytes.
#[verifier::external_body]
fn ledger_account(principal: &L1Account) -> (r: [u8; 32])
    requires
        principal.0@.len() <= 29,
    ensures
        r@ == default_account_of(principal.0@),
{
    let p = Principal::from_slice(&principal.0);
    let id = AccountIdentifier::new(&p, &DEFAULT_SUBACCOUNT);
    let mut out = [0u8; 32];
    out.copy_from_slice(id.as_ref());
    out
}

/// The operation a ledger transaction performs; accounts are the 32 bytes
/// of ledger account identifiers and amounts are in the ledger's smallest
/// unit.
pub enum LedgerOperation {
    /// New tokens minted to `to`.
    Mint { to: [u8; 32], amount: u64 },
    /// Tokens burned from `from`.
    Burn { from: [u8; 32], amount: u64 },
    /// Tokens moved from `from` to `to`.
    Transfer { from: [u8; 32], to: [u8; 32], amount: u64, fee: u64 },
}

/// A transaction as recorded in a ledger block.
pub struct LedgerTransaction {
    /// The memo the sender attached.
    pub memo: Memo,
    /// What the transaction did, if the ledger recorded it.
    pub operation: Option<LedgerOperation>,
}

/// What the receiver needs to know of an incoming payment.
#[derive(Clone, Copy, PartialEq, Eq, Debug, Hash)]
pub struct TransactionNotification {
    /// The paid ledger account.
    pub to: [u8; 32],
    /// The amount paid, in the ledger's smallest unit.
    pub amount: u64,
    /// The memo the payer attached.
    pub memo: Memo,
}

impl TransactionNotification {
    /// The payment a transaction makes, if it is a transfer or a mint.
    pub fn from_tx(tx: LedgerTransaction) -> (r: Option<TransactionNotification>)
        ensures
            match tx.operation {
                Some(LedgerOperation::Transfer { to, amount, .. }) => r == Some(
                    TransactionNotification { to, amount, memo: tx.memo },
                ),
                Some(LedgerOperation::Mint { to, amount }) => r == Some(
                    TransactionNotification { to, amount, memo: tx.memo },
                ),
                _ => r is None,
            },
    {
        match tx.operation {
            Some(LedgerOperation::Transfer { to, amount, .. }) => Some(
                TransactionNotification { to, amount, memo: tx.memo },
            ),
            Some(LedgerOperation::Mint { to, amount }) => Some(
                TransactionNotification { to, amount, memo: tx.memo },
            ),
            _ => None,
        }
    }

    /// The amount paid.
    pub fn get_amount(&self) -> (r: Amount)
        ensures
            r@ == self.amount as nat,
    {
        Amount::from_u64(self.amount)
    }
}

/// What querying the ledger for a block yields: the block's payment, or why
/// there is none.
pub fn query_outcome(block: Option<LedgerTransaction>) -> (r: Result<
    TransactionNotification,
    ICPReceiverError,
>)
    ensures
        match block {
            None => r == Err::<TransactionNotification, ICPReceiverError>(
                ICPReceiverError::FailedToQuery,
            ),
            Some(tx) => match tx.operation {
                Some(LedgerOperation::Transfer { to, amount, .. }) => r == Ok::<
                    TransactionNotification,
                    ICPReceiverError,
                >(TransactionNotification { to, amount, memo: tx.memo }),
                Some(LedgerOperation::Mint { to, amount }) => r == Ok::<
                    TransactionNotification,
                    ICPReceiverError,
                >(TransactionNotification { to, amount, memo: tx.memo }),
                _ => r == Err::<TransactionNotification, ICPReceiverError>(
                    ICPReceiverError::TransactionType,
                ),
            },
        },
{
    match block {
        None => Err(ICPReceiverError::FailedToQuery),
        Some(tx) => match TransactionNotification::from_tx(tx) {
            Some(n) => Ok(n),
            None => Err(ICPReceiverError::TransactionType),
        },
    }
}

/// Whether an archive range `(start, length)` holds block `height`.
pub open spec fn range_holds(range: (u64, u64), height: u64) -> bool {
    range.0 <= height && height - range.0 < range.1
}

/// The first archive range, as `(start, length)`, that holds block
/// `height`; the ledger is asked there when its live blocks lack it.
pub fn archive_range_for(ranges: &Vec<(u64, u64)>, height: BlockHeight) -> (r: Option<usize>)
    ensures
        match r {
            Some(i) => i < ranges@.len() && range_holds(ranges@[i as int], height) && forall|
                j: int,
            |
                0 <= j < i ==> !range_holds(#[trigger] ranges@[j], height),
            None => forall|j: int|
                0 <= j < ranges@.len() ==> !range_holds(#[trigger] ranges@[j], height),
        },
{
    let mut i: usize = 0;
    while i < ranges.len()
        invariant
            i <= ranges@.len(),
            forall|j: int| 0 <= j < i ==> !range_holds(#[trigger] ranges@[j], height),
        decreases ranges@.len() - i,
    {
        let (start, length) = ranges[i];
        if start <= height && height - start < length {
            return Some(i);
        }
        i = i + 1;
    }
    None
}

/// A test double for the ledger: answers queries from transactions
/// registered beforehand.
pub struct MockTXQuerier {
    txs: BTreeMap<BlockHeight, TransactionNotification>,
}

impl MockTXQuerier {
    /// The registered transactions by block.
    pub closed spec fn txs_view(&self) -> Map<BlockHeight, TransactionNotification> {
        self.txs@
    }

    /// A querier that knows no transactions.
    pub fn new() -> (r: MockTXQuerier)
        ensures
            r.txs_view() == Map::<BlockHeight, TransactionNotification>::empty(),
    {
        MockTXQuerier { txs: BTreeMap::new() }
    }

    /// Registers `tx` as the transaction of block `block_height`.
    pub fn register_tx(&mut self, block_height: BlockHeight, tx: TransactionNotification)
        ensures
            final(self).txs_view() == old(self).txs_view().insert(block_height, tx),
    {
        self.txs.insert(block_height, tx);
    }

    /// The transaction of a block, or `FailedToQuery` for an unknown block.
    pub fn query_tx(&self, block_height: BlockHeight) -> (r: Result<
        TransactionNotification,
        ICPReceiverError,
    >)
        ensures
            r == (if self.txs_view().contains_key(block_height) {
                Ok::<TransactionNotification, ICPReceiverError>(self.txs_view()[block_height])
            } else {
                Err::<TransactionNotification, ICPReceiverError>(ICPReceiverError::FailedToQuery)
            }),
    {
        match self.txs.get(&block_height) {
            Some(tx) => Ok(*tx),
            None => Err(ICPReceiverError::FailedToQuery),
        }
    }
}

/// The unspent amount held under `memo`, zero if none.
pub open spec fn unspent_of(m: Map<Memo, Amount>, memo: Memo) -> nat {
    if m.contains_key(memo) {
        m[memo]@
    } else {
        0
    }
}

/// `after` is `before` with block `block_height` marked as credited and the
/// payment `tx` added to what is unspent under its memo.
pub open spec fn credited(
    before: Receiver,
    after: Receiver,
    block_height: BlockHeight,
    tx: TransactionNotification,
) -> bool {
    &&& after.account() == before.account()
    &&& after.known() == before.known().insert(block_height)
    &&& after.unspent_view().dom() == before.unspent_view().dom().insert(tx.memo)
    &&& unspent_of(after.unspent_view(), tx.memo) == unspent_of(before.unspent_view(), tx.memo)
        + tx.amount
    &&& forall|m: Memo|
        m != tx.memo && #[trigger] before.unspent_view().contains_key(m)
            ==> after.unspent_view()[m] == before.unspent_view()[m]
}

/// Tracks the payments proven to this adjudicator, and what of them is
/// still unspent, per memo.
pub struct Receiver {
    my_account: [u8; 32],
    known_txs: BTreeSet<BlockHeight>,
    unspent: BTreeMap<Memo, Amount>,
}

impl Receiver {
    /// The ledger account payments must go to.
    pub closed spec fn account(&self) -> Seq<u8> {
        self.my_account@
    }

    /// The blocks already credited.
    pub closed spec fn known(&self) -> Set<BlockHeight> {
        self.known_txs@
    }

    /// The unspent amounts by memo.
    pub closed spec fn unspent_view(&self) -> Map<Memo, Amount> {
        self.unspent@
    }

    /// A receiver for payments to `my_principal`'s default ledger account.
    pub fn new(my_principal: &L1Account) -> (r: Receiver)
        requires
            my_principal.0@.len() <= 29,
        ensures
            r.account() == default_account_of(my_principal.0@),
            r.known() == Set::<BlockHeight>::empty(),
            r.unspent_view() == Map::<Memo, Amount>::empty(),
    {
        Receiver {
            my_account: ledger_account(my_principal),
            known_txs: BTreeSet::new(),
            unspent: BTreeMap::new(),
        }
    }

    /// What crediting block `block_height` returns, given what querying the
    /// ledger for it returned: the amount paid, or why it is refused.
    pub open spec fn verify_outcome(
        &self,
        block_height: BlockHeight,
        queried: Result<TransactionNotification, ICPReceiverError>,
    ) -> Result<nat, ICPReceiverError> {
        if self.known().contains(block_height) {
            Err(ICPReceiverError::DuplicateTransaction)
        } else {
            match queried {
                Err(e) => Err(e),
                Ok(tx) => if tx.to@ != self.account() {
                    Err(ICPReceiverError::Recipient)
                } else {
                    Ok(tx.amount as nat)
                },
            }
        }
    }

    /// Whether block `block_height` was already credited.
    pub fn is_known(&self, block_height: BlockHeight) -> (r: bool)
        ensures
            r == self.known().contains(block_height),
    {
        self.known_txs.contains(&block_height)
    }

    /// Credits the payment of block `block_height`, given what querying the
    /// ledger for it returned. A block is credited at most once, and only a
    /// payment to this receiver's account; on any error nothing changes.
    pub fn verify(
        &mut self,
        block_height: BlockHeight,
        queried: Result<TransactionNotification, ICPReceiverError>,
    ) -> (r: Result<Amount, ICPReceiverError>)
        ensures
            match r {
                Ok(a) => old(self).verify_outcome(block_height, queried) == Ok::<
                    nat,
                    ICPReceiverError,
                >(a@),
                Err(e) => old(self).verify_outcome(block_height, queried) == Err::<
                    nat,
                    ICPReceiverError,
                >(e),
            },
            r is Err ==> *final(self) == *old(self),
            r is Ok ==> credited(*old(self), *final(self), block_height, queried->Ok_0),
    {
        if self.known_txs.contains(&block_height) {
            return Err(ICPReceiverError::DuplicateTransaction);
        }
        let tx = match queried {
            Ok(tx) => tx,
            Err(e) => {
                return Err(e);
            },
        };
        if !crate::encoding::bytes_equal(tx.to.as_slice(), self.my_account.as_slice()) {
            return Err(ICPReceiverError::Recipient);
        }
        self.known_txs.insert(block_height);
        let amount = tx.get_amount();
        let credited = match self.unspent.get(&tx.memo) {
            Some(prev) => prev.add(&amount),
            None => amount.clone(),
        };
        self.unspent.insert(tx.memo, credited);
        Ok(amount)
    }

    /// Removes and returns all that is unspent under `memo`; zero if none.
    pub fn drain(&mut self, memo: Memo) -> (r: Amount)
        ensures
            r@ == unspent_of(old(self).unspent_view(), memo),
            final(self).unspent_view() == old(self).unspent_view().remove(memo),
            final(self).known() == old(self).known(),
            final(self).account() == old(self).account(),
    {
        match self.unspent.remove(&memo) {
            Some(a) => a,
            None => Amount::zero(),
        }
    }

    /// Removes and returns what is unspent under `memo` if it is at least
    /// `amount`; otherwise changes nothing.
    pub fn drain_if_at_least(&mut self, memo: Memo, amount: &Amount) -> (r: Option<Amount>)
        ensures
            old(self).unspent_view().contains_key(memo) && old(self).unspent_view()[memo]@
                >= amount@ ==> {
                &&& r is Some
                &&& r->0@ == old(self).unspent_view()[memo]@
                &&& final(self).unspent_view() == old(self).unspent_view().remove(memo)
            },
            !(old(self).unspent_view().contains_key(memo) && old(self).unspent_view()[memo]@
                >= amount@) ==> r is None && *final(self) == *old(self),
            final(self).known() == old(self).known(),
            final(self).account() == old(self).account(),
    {
        let enough = match self.unspent.get(&memo) {
            Some(sum) => !sum.less_than(amount),
            None => false,
        };
        if enough {
            self.unspent.remove(&memo)
        } else {
            None
        }
    }
}

/// A block is credited at most once: after a call has credited block
/// `block_height`, every later call for it is refused as a duplicate, and a
/// refused call changes nothing.
pub proof fn lemma_replay_rejected(
    before: Receiver,
    after: Receiver,
    block_height: BlockHeight,
    tx: TransactionNotification,
    queried: Result<TransactionNotification, ICPReceiverError>,
)
    requires
        credited(before, after, block_height, tx),
    ensures
        after.verify_outcome(block_height, queried) == Err::<nat, ICPReceiverError>(
            ICPReceiverError::DuplicateTransaction,
        ),
{
}

} // verus!
