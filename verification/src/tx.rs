use vstd::prelude::*;

use crate::amount::Amount;

verus! {

/// The five kinds of input transaction.
#[derive(Clone, Copy, PartialEq, Eq, Structural, Debug)]
pub enum TransactionType {
    Deposit,
    Withdrawal,
    Dispute,
    Resolve,
    Chargeback,
}

/// One decoded input record. `amount` carries the deposited or withdrawn
/// amount for `Deposit` and `Withdrawal`; for the dispute-family kinds it is
/// semantically meaningless (the amount is resolved by looking `tx` up in the
/// ledger history) and is ignored.
#[derive(Clone, Copy, PartialEq, Eq, Structural, Debug)]
pub struct Transaction {
    pub tx_type: TransactionType,
    pub client: u16,
    pub tx: u32,
    pub amount: Amount,
}

} // verus!
