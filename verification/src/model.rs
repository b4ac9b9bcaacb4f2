//! The data model of the transaction graph: receivers, transactions, and the
//! record an address fetch produces, together with their mathematical images.

use vstd::prelude::*;

verus! {

/// One output entry of a transaction: the recipient address, if the provider
/// reported one, and the transferred value in base units (may be negative
/// where the provider encodes spent inputs that way).
pub struct Receiver {
    pub addr: Option<String>,
    pub value: i64,
}

/// Mathematical image of a [`Receiver`].
#[verifier::ext_equal]
pub struct ReceiverModel {
    pub addr: Option<Seq<char>>,
    pub value: i64,
}

impl View for Receiver {
    type V = ReceiverModel;

    open spec fn view(&self) -> ReceiverModel {
        ReceiverModel {
            addr: match self.addr {
                Some(a) => Some(a@),
                None => None,
            },
            value: self.value,
        }
    }
}

/// One transaction: its outputs in provider order and its Unix timestamp.
pub struct Transaction {
    pub out: Vec<Receiver>,
    pub time: u64,
}

/// Mathematical image of a [`Transaction`].
#[verifier::ext_equal]
pub struct TransactionModel {
    pub out: Seq<ReceiverModel>,
    pub time: u64,
}

/// The images of a sequence of receivers, in order.
pub open spec fn receiver_models(s: Seq<Receiver>) -> Seq<ReceiverModel> {
    Seq::new(s.len(), |i: int| s[i]@)
}

impl View for Transaction {
    type V = TransactionModel;

    open spec fn view(&self) -> TransactionModel {
        TransactionModel { out: receiver_models(self.out@), time: self.time }
    }
}

/// The history of one address as the provider reports it: the address itself,
/// its transactions in provider order, and its final balance.
pub struct AddressRecord {
    pub address: String,
    pub txs: Vec<Transaction>,
    pub final_balance: i64,
}

/// Mathematical image of an [`AddressRecord`].
#[verifier::ext_equal]
pub struct RecordModel {
    pub address: Seq<char>,
    pub txs: Seq<TransactionModel>,
    pub final_balance: i64,
}

/// The images of a sequence of transactions, in order.
pub open spec fn transaction_models(s: Seq<Transaction>) -> Seq<TransactionModel> {
    Seq::new(s.len(), |i: int| s[i]@)
}

impl View for AddressRecord {
    type V = RecordModel;

    open spec fn view(&self) -> RecordModel {
        RecordModel {
            address: self.address@,
            txs: transaction_models(self.txs@),
            final_balance: self.final_balance,
        }
    }
}

/// The images of a sequence of address records, in order.
pub open spec fn record_models(s: Seq<AddressRecord>) -> Seq<RecordModel> {
    Seq::new(s.len(), |i: int| s[i]@)
}

impl Receiver {
    /// Structural equality: same presence and text of the address, same value.
    pub fn same_as(&self, other: &Receiver) -> (r: bool)
        ensures
            r == (self@ == other@),
    {
        let addr_eq = match (&self.addr, &other.addr) {
            (Some(a), Some(b)) => a.eq(b),
            (None, None) => true,
            _ => false,
        };
        let r = addr_eq && self.value == other.value;
        proof {
            if r {
                assert(self@ =~= other@);
            }
        }
        r
    }
}

impl Transaction {
    /// Structural equality: same timestamp and pointwise-equal outputs.
    pub fn same_as(&self, other: &Transaction) -> (r: bool)
        ensures
            r == (self@ == other@),
    {
        if self.time != other.time {
            return false;
        }
        if self.out.len() != other.out.len() {
            assert(self@.out.len() != other@.out.len());
            return false;
        }
        let mut i: usize = 0;
        while i < self.out.len()
            invariant
                i <= self.out.len(),
                self.out.len() == other.out.len(),
                self.time == other.time,
                forall|k: int| 0 <= k < i ==> self@.out[k] == other@.out[k],
            decreases self.out.len() - i,
        {
            if !self.out[i].same_as(&other.out[i]) {
                assert(self@.out[i as int] != other@.out[i as int]);
                return false;
            }
            i += 1;
        }
        proof {
            assert(self@.out =~= other@.out);
            assert(self@ =~= other@);
        }
        true
    }
}

impl AddressRecord {
    /// Structural equality: same address, same balance, pointwise-equal
    /// transactions.
    pub fn same_as(&self, other: &AddressRecord) -> (r: bool)
        ensures
            r == (self@ == other@),
    {
        if !(self.address == other.address) {
            return false;
        }
        if self.final_balance != other.final_balance {
            return false;
        }
        if self.txs.len() != other.txs.len() {
            assert(self@.txs.len() != other@.txs.len());
            return false;
        }
        let mut i: usize = 0;
        while i < self.txs.len()
            invariant
                i <= self.txs.len(),
                self.txs.len() == other.txs.len(),
                forall|k: int| 0 <= k < i ==> self@.txs[k] == other@.txs[k],
            decreases self.txs.len() - i,
        {
            if !self.txs[i].same_as(&other.txs[i]) {
                assert(self@.txs[i as int] != other@.txs[i as int]);
                return false;
            }
            i += 1;
        }
        proof {
            assert(self@.txs =~= other@.txs);
            assert(self@ =~= other@);
        }
        true
    }
}

} // verus!
