use vstd::prelude::*;

use crate::account::{
    account_in_range, avail, deposit_next, dispute_next, initial_account, is_untouched,
    resolve_next,
};
use crate::amount::Amount;
use crate::engine::{
    initial_ledger, ledger_wf, record_of, spec_apply, spec_output, spec_output_upto, spec_run,
    LedgerV, NUM_CLIENTS,
};
use crate::tx::{Transaction, TransactionType};

verus! {

/// The ledger before any transaction is well formed.
pub proof fn lemma_initial_ledger_wf()
    ensures
        ledger_wf(initial_ledger()),
{
}

/// Applying one transaction preserves well-formedness: every balance of every
/// account, the derived available one included, stays in range, so
/// `available == total - held` holds exactly, by construction, after any
/// transaction.
pub proof fn lemma_apply_preserves_wf(s: LedgerV, t: Transaction)
    requires
        ledger_wf(s),
    ensures
        ledger_wf(spec_apply(s, t)),
{
    let s1 = spec_apply(s, t);
    assert(s1.accounts.len() == s.accounts.len());
    assert forall|i: int| 0 <= i < s1.accounts.len() implies account_in_range(
        #[trigger] s1.accounts[i],
    ) by {
        assert(account_in_range(s.accounts[i]));
    }
}

/// Well-formedness holds after any whole sequence of transactions.
pub proof fn lemma_run_preserves_wf(s: LedgerV, ts: Seq<Transaction>)
    requires
        ledger_wf(s),
    ensures
        ledger_wf(spec_run(s, ts)),
    decreases ts.len(),
{
    if ts.len() > 0 {
        lemma_run_preserves_wf(s, ts.drop_last());
        lemma_apply_preserves_wf(spec_run(s, ts.drop_last()), ts.last());
    }
}

/// A deposit of some amount followed immediately by a dispute of that
/// transaction freezes exactly that amount: held rises by it while total
/// stays at its post-deposit value. A subsequent resolve returns held to its
/// pre-dispute value; a subsequent chargeback instead takes the amount out of
/// both held and total and locks the account.
pub proof fn lemma_deposit_dispute_resolve_chargeback(
    s: LedgerV,
    client: u16,
    tx_id: u32,
    amount: Amount,
)
    requires
        ledger_wf(s),
        account_in_range(deposit_next(s.accounts[client as int], amount@)),
        account_in_range(dispute_next(deposit_next(s.accounts[client as int], amount@), amount@)),
    ensures
        ({
            let dep = Transaction { tx_type: TransactionType::Deposit, client, tx: tx_id, amount };
            let dis = Transaction { tx_type: TransactionType::Dispute, client, tx: tx_id, amount };
            let res = Transaction { tx_type: TransactionType::Resolve, client, tx: tx_id, amount };
            let cb = Transaction {
                tx_type: TransactionType::Chargeback,
                client,
                tx: tx_id,
                amount,
            };
            let c = client as int;
            let s1 = spec_apply(s, dep);
            let s2 = spec_apply(s1, dis);
            let s3 = spec_apply(s2, res);
            let s4 = spec_apply(s2, cb);
            &&& s1.accounts[c].total == s.accounts[c].total + amount@
            &&& s2.accounts[c].held == s1.accounts[c].held + amount@
            &&& s2.accounts[c].total == s1.accounts[c].total
            &&& s3.accounts[c].held == s1.accounts[c].held
            &&& s3.accounts[c].total == s1.accounts[c].total
            &&& s4.accounts[c].held == s2.accounts[c].held - amount@
            &&& s4.accounts[c].total == s2.accounts[c].total - amount@
            &&& s4.accounts[c].locked
        }),
{
}

/// A withdrawal of a nonnegative amount is rejected, with no state change at
/// all, exactly when the amount exceeds the available balance; otherwise it
/// is accepted and total decreases by exactly the amount. The boundary case,
/// a withdrawal of the whole available balance, succeeds. No withdrawal
/// touches the history.
pub proof fn lemma_withdrawal(s: LedgerV, client: u16, tx_id: u32, amount: Amount)
    requires
        ledger_wf(s),
        amount@ >= 0,
    ensures
        ({
            let t = Transaction {
                tx_type: TransactionType::Withdrawal,
                client,
                tx: tx_id,
                amount,
            };
            let c = client as int;
            let a = s.accounts[c];
            let s1 = spec_apply(s, t);
            &&& (amount@ > avail(a) ==> s1 == s)
            &&& (amount@ <= avail(a) ==> {
                &&& s1.accounts[c].total == a.total - amount@
                &&& s1.accounts[c].held == a.held
                &&& s1.accounts[c].locked == a.locked
            })
            &&& s1.history == s.history
        }),
{
}

/// Disputing, resolving or charging back a transaction id that is not in the
/// history is a no-op: the ledger is identical before and after.
pub proof fn lemma_unknown_tx_no_op(s: LedgerV, t: Transaction)
    requires
        !s.history.contains_key(t.tx),
        t.tx_type is Dispute || t.tx_type is Resolve || t.tx_type is Chargeback,
    ensures
        spec_apply(s, t) == s,
{
}

/// The engine deliberately does not track which disputes are open: a resolve
/// applies whenever the referenced transaction id is in the history, so the
/// same resolve applied twice reduces held by the recorded amount twice.
pub proof fn lemma_resolve_twice(s: LedgerV, client: u16, tx_id: u32, amount: Amount)
    requires
        ledger_wf(s),
        s.history.contains_key(tx_id),
        account_in_range(resolve_next(s.accounts[client as int], s.history[tx_id]@)),
        account_in_range(
            resolve_next(
                resolve_next(s.accounts[client as int], s.history[tx_id]@),
                s.history[tx_id]@,
            ),
        ),
    ensures
        ({
            let t = Transaction { tx_type: TransactionType::Resolve, client, tx: tx_id, amount };
            let c = client as int;
            let s2 = spec_apply(spec_apply(s, t), t);
            s2.accounts[c].held == s.accounts[c].held - 2 * s.history[tx_id]@
        }),
{
}

/// A transaction addressed to another client leaves this client's account
/// unchanged.
proof fn lemma_apply_other_client(s: LedgerV, t: Transaction, c: u16)
    requires
        t.client != c,
        s.accounts.len() == NUM_CLIENTS,
    ensures
        spec_apply(s, t).accounts.len() == s.accounts.len(),
        spec_apply(s, t).accounts[c as int] == s.accounts[c as int],
{
}

/// A whole sequence of transactions addressed to other clients leaves this
/// client's account unchanged.
proof fn lemma_run_other_client(s: LedgerV, ts: Seq<Transaction>, c: u16)
    requires
        s.accounts.len() == NUM_CLIENTS,
        forall|i: int| 0 <= i < ts.len() ==> (#[trigger] ts[i]).client != c,
    ensures
        spec_run(s, ts).accounts.len() == s.accounts.len(),
        spec_run(s, ts).accounts[c as int] == s.accounts[c as int],
    decreases ts.len(),
{
    if ts.len() > 0 {
        lemma_run_other_client(s, ts.drop_last(), c);
        lemma_apply_other_client(spec_run(s, ts.drop_last()), ts.last(), c);
    }
}

/// Every output row below client bound `n` names a client below `n` whose
/// account was touched, and carries exactly that account's projection.
proof fn lemma_output_upto_rows(s: LedgerV, n: int)
    requires
        0 <= n <= NUM_CLIENTS,
    ensures
        forall|j: int|
            0 <= j < spec_output_upto(s, n).len() ==> {
                let r = #[trigger] spec_output_upto(s, n)[j];
                &&& r.client < n
                &&& !is_untouched(s.accounts[r.client as int])
                &&& r == record_of(s.accounts[r.client as int], r.client)
            },
    decreases n,
{
    if n > 0 {
        lemma_output_upto_rows(s, n - 1);
        let prev = spec_output_upto(s, n - 1);
        let cur = spec_output_upto(s, n);
        assert forall|j: int| 0 <= j < cur.len() implies {
            let r = #[trigger] cur[j];
            &&& r.client < n
            &&& !is_untouched(s.accounts[r.client as int])
            &&& r == record_of(s.accounts[r.client as int], r.client)
        } by {
            if j < prev.len() {
                assert(cur[j] == prev[j]);
            } else {
                assert(cur[j] == record_of(s.accounts[n - 1], (n - 1) as u16));
            }
        }
    }
}

/// A client id that never appears in the input is never touched and produces
/// no output row.
pub proof fn lemma_silent_client_no_row(ts: Seq<Transaction>, c: u16)
    requires
        forall|i: int| 0 <= i < ts.len() ==> (#[trigger] ts[i]).client != c,
    ensures
        ({
            let sf = spec_run(initial_ledger(), ts);
            &&& is_untouched(sf.accounts[c as int])
            &&& forall|j: int|
                0 <= j < spec_output(sf).len() ==> (#[trigger] spec_output(sf)[j]).client != c
        }),
{
    let s0 = initial_ledger();
    let sf = spec_run(s0, ts);
    lemma_run_other_client(s0, ts, c);
    assert(s0.accounts[c as int] == initial_account());
    lemma_output_upto_rows(sf, NUM_CLIENTS as int);
    assert forall|j: int| 0 <= j < spec_output(sf).len() implies (#[trigger] spec_output(
        sf,
    )[j]).client != c by {
        let r = spec_output(sf)[j];
        if r.client == c {
            assert(!is_untouched(sf.accounts[c as int]));
        }
    }
}

} // verus!

