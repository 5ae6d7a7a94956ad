use vstd::prelude::*;

use crate::account::{
    account_in_range, avail, chargeback_next, deposit_next, dispute_next, initial_account,
    is_untouched, resolve_next, withdraw_next, Account, AccountV,
};
use crate::amount::Amount;
use crate::history::TransactionHistory;
use crate::tx::{Transaction, TransactionType};

verus! {

/// Number of account slots: one per 16-bit client identifier.
pub const NUM_CLIENTS: usize = 65536;

/// Mathematical state of the whole ledger: one account per client slot, and
/// the history of deposit amounts keyed by transaction id.
#[verifier::ext_equal]
pub struct LedgerV {
    pub accounts: Seq<AccountV>,
    pub history: Map<u32, Amount>,
}

/// Well-formedness of the ledger: one slot per client id, and every balance
/// in range.
pub open spec fn ledger_wf(s: LedgerV) -> bool {
    &&& s.accounts.len() == NUM_CLIENTS
    &&& forall|i: int| 0 <= i < s.accounts.len() ==> account_in_range(#[trigger] s.accounts[i])
}

/// The ledger before any transaction: every account untouched, no history.
pub open spec fn initial_ledger() -> LedgerV {
    LedgerV {
        accounts: Seq::new(NUM_CLIENTS as nat, |i: int| initial_account()),
        history: Map::empty(),
    }
}

/// One step of the account state machine: how a single transaction record
/// changes the ledger. Every failure mode is a silent no-op:
/// - a withdrawal of more than the available balance is ignored;
/// - a dispute, resolve or chargeback whose transaction id is not in the
///   history is ignored;
/// - a transaction whose result would leave a balance outside the
///   representable fixed-point range is ignored, the deposit's history entry
///   included.
/// A successful deposit also records its amount in the history; only deposits
/// are disputable. Locked accounts are deliberately not special: transactions
/// keep applying to them.
pub open spec fn spec_apply(s: LedgerV, t: Transaction) -> LedgerV {
    let c = t.client as int;
    let a = s.accounts[c];
    match t.tx_type {
        TransactionType::Deposit => {
            let n = deposit_next(a, t.amount@);
            if account_in_range(n) {
                LedgerV {
                    accounts: s.accounts.update(c, n),
                    history: s.history.insert(t.tx, t.amount),
                }
            } else {
                s
            }
        },
        TransactionType::Withdrawal => {
            let n = withdraw_next(a, t.amount@);
            if avail(a) >= t.amount@ && account_in_range(n) {
                LedgerV { accounts: s.accounts.update(c, n), ..s }
            } else {
                s
            }
        },
        TransactionType::Dispute => {
            if s.history.contains_key(t.tx) {
                let n = dispute_next(a, s.history[t.tx]@);
                if account_in_range(n) {
                    LedgerV { accounts: s.accounts.update(c, n), ..s }
                } else {
                    s
                }
            } else {
                s
            }
        },
        TransactionType::Resolve => {
            if s.history.contains_key(t.tx) {
                let n = resolve_next(a, s.history[t.tx]@);
                if account_in_range(n) {
                    LedgerV { accounts: s.accounts.update(c, n), ..s }
                } else {
                    s
                }
            } else {
                s
            }
        },
        TransactionType::Chargeback => {
            if s.history.contains_key(t.tx) {
                let n = chargeback_next(a, s.history[t.tx]@);
                if account_in_range(n) {
                    LedgerV { accounts: s.accounts.update(c, n), ..s }
                } else {
                    s
                }
            } else {
                s
            }
        },
    }
}

/// The ledger after a whole sequence of transactions, applied in input order
/// to an initial state.
pub open spec fn spec_run(s: LedgerV, ts: Seq<Transaction>) -> LedgerV
    decreases ts.len(),
{
    if ts.len() == 0 {
        s
    } else {
        spec_apply(spec_run(s, ts.drop_last()), ts.last())
    }
}

/// One output row: the final snapshot of a touched account.
#[derive(Clone, Copy, PartialEq, Eq, Structural, Debug)]
pub struct OutputRecord {
    pub client: u16,
    pub available: Amount,
    pub held: Amount,
    pub total: Amount,
    pub locked: bool,
}

/// The output row that an account projects to.
pub open spec fn record_of(a: AccountV, client: u16) -> OutputRecord {
    OutputRecord {
        client,
        available: Amount { raw: (a.total - a.held) as i64 },
        held: Amount { raw: a.held as i64 },
        total: Amount { raw: a.total as i64 },
        locked: a.locked,
    }
}

/// The output rows of the clients below `n`, in ascending client order,
/// untouched accounts omitted.
pub open spec fn spec_output_upto(s: LedgerV, n: int) -> Seq<OutputRecord>
    decreases n,
{
    if n <= 0 {
        Seq::empty()
    } else {
        let prev = spec_output_upto(s, n - 1);
        let a = s.accounts[n - 1];
        if is_untouched(a) {
            prev
        } else {
            prev.push(record_of(a, (n - 1) as u16))
        }
    }
}

/// The full output projection of a ledger.
pub open spec fn spec_output(s: LedgerV) -> Seq<OutputRecord> {
    spec_output_upto(s, NUM_CLIENTS as int)
}

impl OutputRecord {
    /// Project the emitted row from an account: available is derived as total
    /// minus held, the other fields are copied.
    pub fn from_account(account: Account, client: u16) -> (r: OutputRecord)
        requires
            account_in_range(account@),
        ensures
            r == record_of(account@, client),
    {
        OutputRecord {
            client,
            available: account.available(),
            held: account.held,
            locked: account.locked,
            total: account.total,
        }
    }
}

/// Checked construction of an account state: the new balances are taken if
/// and only if every one of them, the derived available balance included,
/// fits the fixed-point range.
fn checked_account(new_total: i128, new_held: i128, new_locked: bool) -> (r: Option<Account>)
    requires
        -0x1_0000_0000_0000_0000 <= new_total <= 0x1_0000_0000_0000_0000,
        -0x1_0000_0000_0000_0000 <= new_held <= 0x1_0000_0000_0000_0000,
    ensures
        ({
            let v = AccountV { total: new_total as int, held: new_held as int, locked: new_locked };
            match r {
                Some(n) => n@ == v && account_in_range(v),
                None => !account_in_range(v),
            }
        }),
{
    let lo: i128 = i64::MIN as i128;
    let hi: i128 = i64::MAX as i128;
    if lo <= new_total && new_total <= hi && lo <= new_held && new_held <= hi
        && lo <= new_total - new_held && new_total - new_held <= hi {
        Some(
            Account {
                locked: new_locked,
                total: Amount { raw: new_total as i64 },
                held: Amount { raw: new_held as i64 },
            },
        )
    } else {
        None
    }
}

/// The account ledger engine: one account per client, applied transactions in
/// input order, and the history of deposit amounts that later disputes
/// resolve against. The engine instance owns both tables; no global state.
pub struct Engine {
    pub txs: TransactionHistory,
    pub accounts: Vec<Account>,
}

impl View for Engine {
    type V = LedgerV;

    open spec fn view(&self) -> LedgerV {
        LedgerV { accounts: self.accounts@.map_values(|a: Account| a@), history: self.txs@ }
    }
}

impl Engine {
    /// Well-formedness carried across every operation.
    pub open spec fn wf(&self) -> bool {
        ledger_wf(self@)
    }

    /// A fresh engine: one untouched account per client id, empty history.
    pub fn new() -> (r: Engine)
        ensures
            r.wf(),
            r@ == initial_ledger(),
    {
        let mut accounts: Vec<Account> = Vec::new();
        let mut i: usize = 0;
        while i < NUM_CLIENTS
            invariant
                i <= NUM_CLIENTS,
                accounts@.len() == i,
                forall|j: int| 0 <= j < i ==> (#[trigger] accounts@[j])@ == initial_account(),
            decreases NUM_CLIENTS - i,
        {
            accounts.push(Account::new());
            i = i + 1;
        }
        let r = Engine { txs: TransactionHistory::new(), accounts };
        proof {
            assert(r@ =~= initial_ledger());
        }
        r
    }

    /// Apply one transaction record to the ledger, exactly as `spec_apply`
    /// says: the relevant account changes, a successful deposit is recorded
    /// in the history, and every failure mode is a silent no-op.
    pub fn apply(&mut self, t: Transaction)
        requires
            old(self).wf(),
        ensures
            final(self).wf(),
            final(self)@ == spec_apply(old(self)@, t),
    {
        let c = t.client as usize;
        let a = self.accounts[c];
        match t.tx_type {
            TransactionType::Deposit => {
                let nt: i128 = a.total.raw as i128 + t.amount.raw as i128;
                let nh: i128 = a.held.raw as i128;
                match checked_account(nt, nh, a.locked) {
                    Some(n) => {
                        self.accounts[c] = n;
                        self.txs.record_deposit(t.tx, t.amount);
                    },
                    None => {},
                }
            },
            TransactionType::Withdrawal => {
                let av: i128 = a.total.raw as i128 - a.held.raw as i128;
                if av >= t.amount.raw as i128 {
                    let nt: i128 = a.total.raw as i128 - t.amount.raw as i128;
                    let nh: i128 = a.held.raw as i128;
                    match checked_account(nt, nh, a.locked) {
                        Some(n) => {
                            self.accounts[c] = n;
                        },
                        None => {},
                    }
                }
            },
            TransactionType::Dispute => {
                match self.txs.lookup(t.tx) {
                    Some(amt) => {
                        let nt: i128 = a.total.raw as i128;
                        let nh: i128 = a.held.raw as i128 + amt.raw as i128;
                        match checked_account(nt, nh, a.locked) {
                            Some(n) => {
                                self.accounts[c] = n;
                            },
                            None => {},
                        }
                    },
                    None => {},
                }
            },
            TransactionType::Resolve => {
                match self.txs.lookup(t.tx) {
                    Some(amt) => {
                        let nt: i128 = a.total.raw as i128;
                        let nh: i128 = a.held.raw as i128 - amt.raw as i128;
                        match checked_account(nt, nh, a.locked) {
                            Some(n) => {
                                self.accounts[c] = n;
                            },
                            None => {},
                        }
                    },
                    None => {},
                }
            },
            TransactionType::Chargeback => {
                match self.txs.lookup(t.tx) {
                    Some(amt) => {
                        let nt: i128 = a.total.raw as i128 - amt.raw as i128;
                        let nh: i128 = a.held.raw as i128 - amt.raw as i128;
                        match checked_account(nt, nh, true) {
                            Some(n) => {
                                self.accounts[c] = n;
                            },
                            None => {},
                        }
                    },
                    None => {},
                }
            },
        }
        proof {
            assert(self@ =~= spec_apply(old(self)@, t));
        }
    }

    /// Replay a whole sequence of transaction records, in input order, on a
    /// fresh engine.
    pub fn run(records: &Vec<Transaction>) -> (r: Engine)
        ensures
            r.wf(),
            r@ == spec_run(initial_ledger(), records@),
    {
        let mut e = Engine::new();
        let mut i: usize = 0;
        while i < records.len()
            invariant
                i <= records@.len(),
                e.wf(),
                e@ == spec_run(initial_ledger(), records@.subrange(0, i as int)),
            decreases records@.len() - i,
        {
            e.apply(records[i]);
            proof {
                let pre = records@.subrange(0, i as int);
                let post = records@.subrange(0, i + 1);
                assert(post.drop_last() =~= pre);
                assert(post.last() == records@[i as int]);
            }
            i = i + 1;
        }
        proof {
            assert(records@.subrange(0, records@.len() as int) =~= records@);
        }
        e
    }

    /// The final per-client snapshot: one row per touched account, in
    /// ascending client order; accounts that no transaction ever touched are
    /// omitted entirely.
    pub fn output_records(&self) -> (out: Vec<OutputRecord>)
        requires
            self.wf(),
        ensures
            out@ == spec_output(self@),
    {
        let mut out: Vec<OutputRecord> = Vec::new();
        let mut i: usize = 0;
        while i < NUM_CLIENTS
            invariant
                self.wf(),
                i <= NUM_CLIENTS,
                self.accounts@.len() == NUM_CLIENTS,
                out@ == spec_output_upto(self@, i as int),
            decreases NUM_CLIENTS - i,
        {
            let a = self.accounts[i];
            proof {
                assert(a@ == self@.accounts[i as int]);
            }
            if !a.unused() {
                out.push(OutputRecord::from_account(a, i as u16));
            }
            i = i + 1;
        }
        out
    }
}

} // verus!
