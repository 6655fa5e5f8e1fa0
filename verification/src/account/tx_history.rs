//! A history of settled deposits and withdrawals, kept so that disputes,
//! resolutions and chargebacks can find the transaction they refer to.
use super::money::Money;
use super::TxId;
use std::collections::hash_map::Entry;
use std::collections::HashMap;
use vstd::prelude::*;

verus! {

/// Which kind of transaction was settled.
#[derive(Clone, Copy, Debug, PartialEq, Eq, Structural)]
pub enum CompletedTxKind {
    Withdrawal,
    Deposit,
}

/// The lasting record of one settled deposit or withdrawal.
#[derive(Clone, Copy, Debug, PartialEq, Eq, Structural)]
pub struct CompletedTx {
    pub kind: CompletedTxKind,
    pub amount: Money,
    pub disputed: bool,
}

/// The settled transactions, by id. Records are added and changed, never
/// removed.
pub struct TxHistory(HashMap<TxId, CompletedTx>);

impl View for TxHistory {
    type V = Map<TxId, CompletedTx>;

    closed spec fn view(&self) -> Map<TxId, CompletedTx> {
        self.0@
    }
}

impl Default for TxHistory {
    /// A history that holds nothing.
    fn default() -> (history: TxHistory)
        ensures
            history@ == Map::<TxId, CompletedTx>::empty(),
    {
        TxHistory(HashMap::new())
    }
}

impl TxHistory {
    /// A history that holds nothing.
    pub fn new() -> (history: TxHistory)
        ensures
            history@ == Map::<TxId, CompletedTx>::empty(),
    {
        TxHistory(HashMap::new())
    }

    /// Whether a transaction was ever recorded under `id`.
    pub fn contains(&self, id: TxId) -> (found: bool)
        ensures
            found == self@.contains_key(id),
    {
        self.0.contains_key(&id)
    }

    /// A copy of the record of the transaction settled under `id`.
    pub fn get(&self, id: TxId) -> (past: Option<CompletedTx>)
        ensures
            past == (if self@.contains_key(id) {
                Some(self@[id])
            } else {
                None
            }),
    {
        match self.0.get(&id) {
            Some(record) => Some(*record),
            None => None,
        }
    }

    /// Records a settled transaction under `id`, unless the id was used
    /// before; then nothing changes.
    pub fn record_transaction(&mut self, id: TxId, amount: Money, kind: CompletedTxKind) -> (result:
        Result<(), ()>)
        ensures
            result is Err <==> old(self)@.contains_key(id),
            result is Err ==> final(self)@ == old(self)@,
            result is Ok ==> final(self)@ == old(self)@.insert(
                id,
                CompletedTx { kind, amount, disputed: false },
            ),
    {
        let entry = self.0.entry(id);
        match entry {
            Entry::Occupied(_) => Err(()),
            Entry::Vacant(v) => {
                v.insert(CompletedTx { kind, amount, disputed: false });
                Ok(())
            },
        }
    }

    /// The record of the transaction settled under `id`, to read and change.
    pub fn past_transaction(&mut self, id: TxId) -> (past: Option<&mut CompletedTx>)
        ensures
            match past {
                Some(record) => {
                    &&& old(self)@.contains_key(id)
                    &&& *record == old(self)@[id]
                    &&& final(self)@ == old(self)@.insert(id, *final(record))
                },
                None => !old(self)@.contains_key(id) && final(self)@ == old(self)@,
            },
    {
        match self.0.entry(id) {
            Entry::Occupied(e) => Some(e.into_mut()),
            Entry::Vacant(_) => None,
        }
    }
}

} // verus!
