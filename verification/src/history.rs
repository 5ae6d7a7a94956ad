use vstd::prelude::*;

use std::collections::HashMap;

use crate::amount::Amount;

verus! {

broadcast use vstd::std_specs::hash::group_hash_axioms;

/// Append-only record of the amounts of successful deposits, keyed by
/// transaction id. Dispute, resolve and chargeback records resolve their
/// amount by looking the referenced transaction up here; entries are never
/// removed or mutated once inserted.
pub struct TransactionHistory {
    pub map: HashMap<u32, Amount>,
}

impl View for TransactionHistory {
    type V = Map<u32, Amount>;

    open spec fn view(&self) -> Map<u32, Amount> {
        self.map@
    }
}

impl TransactionHistory {
    /// A fresh, empty history.
    pub fn new() -> (r: TransactionHistory)
        ensures
            r@ == Map::<u32, Amount>::empty(),
    {
        TransactionHistory { map: HashMap::new() }
    }

    /// Record the amount of a successful deposit. Transaction ids are assumed
    /// unique within the input stream; recording an id a second time
    /// overwrites the stored amount.
    pub fn record_deposit(&mut self, tx_id: u32, amount: Amount)
        ensures
            final(self)@ == old(self)@.insert(tx_id, amount),
    {
        self.map.insert(tx_id, amount);
    }

    /// The stored amount of the deposit with the given transaction id, or
    /// `None` where no such deposit was recorded.
    pub fn lookup(&self, tx_id: u32) -> (r: Option<Amount>)
        ensures
            r == (if self@.contains_key(tx_id) {
                Some(self@[tx_id])
            } else {
                None::<Amount>
            }),
    {
        match self.map.get(&tx_id) {
            Some(a) => Some(*a),
            None => None,
        }
    }
}

} // verus!
