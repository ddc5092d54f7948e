//! The ledger's stated laws, proved once and for all states.

use vstd::prelude::*;

use crate::ledger::account_of;
use crate::ledger::accounts_wf;
use crate::ledger::account_index;
use crate::ledger::apply_spec;
use crate::ledger::debit_allowed;
use crate::ledger::delta;
use crate::ledger::has_account;
use crate::ledger::lemma_account_index_unique;
use crate::ledger::recent_of;
use crate::ledger::sum_deltas;
use crate::ledger::ApplyReceipt;
use crate::ledger::Ledger;
use crate::ledger::LedgerError;
use crate::ledger::LedgerView;
use crate::ledger::TxKind;
use crate::ledger::TxView;
use crate::ledger::RECENT_LIMIT;

verus! {

/// At all times, every account's balance is at least `-credit_limit`.
pub proof fn lemma_balance_within_limit(l: Ledger, i: int)
    requires
        l.wf(),
        0 <= i < l@.accounts.len(),
    ensures
        l@.accounts[i].balance >= -l@.accounts[i].credit_limit,
{
}

/// Balance mutations and transaction records exist only in pairs: at all
/// times, every balance is the balance the account was provisioned with plus
/// exactly the signed amounts the log records against it.
pub proof fn lemma_no_unrecorded_mutation(l: Ledger, i: int)
    requires
        l.wf(),
        0 <= i < l@.accounts.len(),
    ensures
        l@.accounts[i].balance == l@.accounts[i].opening@ + sum_deltas(
            l@.log,
            l@.accounts[i].id,
        ),
{
}

/// A serial run of `n` equal debits against one account: the balance after
/// each step, and how many of the steps were accepted. Because the debits are
/// all equal, every interleaving of `n` concurrent debits, once linearized,
/// is this run.
pub open spec fn run_debits(balance: int, credit_limit: int, amount: int, n: nat) -> (int, nat)
    decreases n,
{
    if n == 0 {
        (balance, 0 as nat)
    } else {
        let prev = run_debits(balance, credit_limit, amount, (n - 1) as nat);
        if debit_allowed(prev.0, credit_limit, amount) {
            (prev.0 - amount, (prev.1 + 1) as nat)
        } else {
            prev
        }
    }
}

/// Contended debits against a fresh account: after any number of equal
/// debits from balance zero, the balance is exactly the accepted debits'
/// worth, it never breaches the limit, and the run stops accepting exactly
/// when one more debit would breach it.
pub proof fn lemma_contended_debits(credit_limit: int, amount: int, n: nat)
    requires
        amount >= 1,
        credit_limit >= 0,
    ensures
        ({
            let r = run_debits(0, credit_limit, amount, n);
            &&& r.0 == -(amount * r.1)
            &&& r.0 >= -credit_limit
            &&& r.1 <= n
            &&& r.1 == n || amount * (r.1 + 1) > credit_limit
        }),
    decreases n,
{
    if n > 0 {
        lemma_contended_debits(credit_limit, amount, (n - 1) as nat);
        let prev = run_debits(0, credit_limit, amount, (n - 1) as nat);
        assert(amount * (prev.1 + 1) == amount * prev.1 + amount) by (nonlinear_arith);
    }
}

/// Linearizability bound under contention: however many equal debits are
/// fired at an account with limit `credit_limit` and balance zero, if `k + 1`
/// of them jointly breach the limit then at most `k` are accepted — the rest
/// are rejected — and the final balance still respects the limit.
pub proof fn lemma_contention_bound(credit_limit: int, amount: int, n: nat, k: int)
    requires
        amount >= 1,
        credit_limit >= 0,
        k >= 0,
        amount * (k + 1) > credit_limit,
    ensures
        ({
            let r = run_debits(0, credit_limit, amount, n);
            &&& r.1 <= k
            &&& r.0 >= -credit_limit
        }),
{
    lemma_contended_debits(credit_limit, amount, n);
    let r = run_debits(0, credit_limit, amount, n);
    assert(amount * r.1 <= credit_limit);
    assert(r.1 <= k) by (nonlinear_arith)
        requires
            amount >= 1,
            k >= 0,
            amount * r.1 <= credit_limit,
            amount * (k + 1) > credit_limit,
    ;
}

/// One debit through `apply` is one step of `run_debits`: it is accepted
/// exactly under the `debit_allowed` rule, moves the target balance by
/// exactly the amount, and on rejection leaves the account as it was.
pub proof fn lemma_apply_debit_is_run_step(
    v0: LedgerView,
    v1: LedgerView,
    account_id: u32,
    amount: u32,
    description: Seq<u8>,
    now: u64,
    r: Result<ApplyReceipt, LedgerError>,
)
    requires
        accounts_wf(v0.accounts),
        has_account(v0.accounts, account_id),
        amount >= 1,
        apply_spec(v0, v1, account_id, amount, TxKind::Debit, description, now, r),
    ensures
        ({
            let acc0 = account_of(v0.accounts, account_id);
            let acc1 = account_of(v1.accounts, account_id);
            if debit_allowed(acc0.balance as int, acc0.credit_limit as int, amount as int) {
                &&& r is Ok
                &&& acc1.balance == acc0.balance - amount
                &&& acc1.credit_limit == acc0.credit_limit
            } else {
                &&& r == Err::<ApplyReceipt, LedgerError>(LedgerError::LimitExceeded)
                &&& acc1 == acc0
            }
        }),
{
    let i = account_index(v0.accounts, account_id);
    assert(0 <= i < v0.accounts.len() && v0.accounts[i].id == account_id);
    let acc0 = account_of(v0.accounts, account_id);
    if debit_allowed(acc0.balance as int, acc0.credit_limit as int, amount as int) {
        assert(v1.accounts[i].id == account_id && v1.accounts[i].balance == acc0.balance + delta(
            TxKind::Debit,
            amount,
        ) && v1.accounts[i].credit_limit == acc0.credit_limit);
        assert forall|a: int, b: int|
            #![trigger v1.accounts[a], v1.accounts[b]]
            0 <= a < b < v1.accounts.len() implies v1.accounts[a].id != v1.accounts[b].id by {
            assert(v1.accounts[a].id == v0.accounts[a].id);
            assert(v1.accounts[b].id == v0.accounts[b].id);
        }
        lemma_account_index_unique(v1.accounts, account_id, i);
    }
}

/// The entries posted against one account.
pub open spec fn is_for_account(id: u32) -> spec_fn(TxView) -> bool {
    |t: TxView| t.account_id == id
}

/// Reversing after a push puts the pushed element first.
proof fn lemma_reverse_push(s: Seq<TxView>, x: TxView)
    ensures
        s.push(x).reverse() =~= seq![x] + s.reverse(),
{
}

/// Statement correctness: the recent listing is exactly the tail of the
/// account's transaction history — all log entries posted against the
/// account, newest first, cut off at the cap.
pub proof fn lemma_recent_of_is_filtered_suffix(log: Seq<TxView>, id: u32, cap: nat)
    ensures
        ({
            let matching = log.filter(is_for_account(id));
            let n = if cap <= matching.len() {
                cap as int
            } else {
                matching.len() as int
            };
            recent_of(log, id, cap) == matching.reverse().take(n)
        }),
    decreases log.len(),
{
    reveal(Seq::filter);
    let pred = is_for_account(id);
    let matching = log.filter(pred);
    if log.len() == 0 {
        assert(matching.reverse().take(0) =~= Seq::<TxView>::empty());
    } else if cap == 0 {
        assert(matching.reverse().take(0) =~= Seq::<TxView>::empty());
    } else {
        let rest = log.drop_last();
        let sub = rest.filter(pred);
        if pred(log.last()) {
            lemma_recent_of_is_filtered_suffix(rest, id, (cap - 1) as nat);
            lemma_reverse_push(sub, log.last());
            assert(matching == sub.push(log.last()));
            let m = if cap - 1 <= sub.len() {
                cap - 1
            } else {
                sub.len() as int
            };
            assert((seq![log.last()] + sub.reverse()).take(m + 1) =~= seq![log.last()]
                + sub.reverse().take(m));
            assert(recent_of(log, id, cap) == seq![log.last()] + recent_of(
                rest,
                id,
                (cap - 1) as nat,
            ));
        } else {
            lemma_recent_of_is_filtered_suffix(rest, id, cap);
            assert(matching == sub);
            assert(recent_of(log, id, cap) == recent_of(rest, id, cap));
        }
    }
}

/// Repeated statement reads with no intervening apply return identical
/// results: the balance, limit and recent listing a statement reports are
/// functions of the ledger state alone, so any two reads of one state agree.
pub proof fn lemma_statement_idempotent(
    v: LedgerView,
    account_id: u32,
    b1: i64,
    c1: i64,
    r1: Seq<TxView>,
    b2: i64,
    c2: i64,
    r2: Seq<TxView>,
)
    requires
        b1 == account_of(v.accounts, account_id).balance,
        c1 == account_of(v.accounts, account_id).credit_limit,
        r1 == recent_of(v.log, account_id, RECENT_LIMIT as nat),
        b2 == account_of(v.accounts, account_id).balance,
        c2 == account_of(v.accounts, account_id).credit_limit,
        r2 == recent_of(v.log, account_id, RECENT_LIMIT as nat),
    ensures
        b1 == b2,
        c1 == c2,
        r1 == r2,
{
}

} // verus!
