//! The ledger store and its two operations: `apply`, which posts one
//! transaction against one account as a single atomic step, and `statement`,
//! which assembles a consistent snapshot of an account.

use vstd::pervasive::VecAdditionalExecFns;
use vstd::prelude::*;

verus! {

/// A description must hold at least this many bytes.
pub const MIN_DESCRIPTION_BYTES: usize = 1;

/// A description must hold at most this many bytes.
pub const MAX_DESCRIPTION_BYTES: usize = 10;

/// A statement reports at most this many recent transactions.
pub const RECENT_LIMIT: usize = 10;

/// Whether a posted amount is added to the balance (a credit) or subtracted
/// from it (a debit).
#[derive(Clone, Copy, PartialEq, Eq, Structural, Debug)]
pub enum TxKind {
    Credit,
    Debit,
}

/// One entry of the append-only transaction log.
#[derive(Debug, PartialEq, Eq)]
pub struct Transaction {
    /// The account the transaction was posted against.
    pub account_id: u32,
    /// The positive magnitude of the transaction; its sign is carried by `kind`.
    pub amount: u32,
    /// Whether the amount was credited or debited.
    pub kind: TxKind,
    /// Free text of 1 to 10 bytes.
    pub description: Vec<u8>,
    /// Server-assigned timestamp, non-decreasing in insertion order.
    pub created_at: u64,
}

/// The mathematical image of a `Transaction`: the description as a byte
/// sequence, every other field as itself.
pub struct TxView {
    pub account_id: u32,
    pub amount: u32,
    pub kind: TxKind,
    pub description: Seq<u8>,
    pub created_at: u64,
}

/// A verified byte-for-byte copy.
fn copy_bytes(v: &Vec<u8>) -> (r: Vec<u8>)
    ensures
        r@ == v@,
{
    let mut r: Vec<u8> = Vec::new();
    let mut i: usize = 0;
    proof {
        assert(r@ =~= v@.take(0));
    }
    while i < v.len()
        invariant
            i <= v.len(),
            r@ == v@.take(i as int),
        decreases v.len() - i,
    {
        r.push(v[i]);
        proof {
            assert(r@ =~= v@.take(i as int + 1));
        }
        i += 1;
    }
    proof {
        assert(v@.take(v@.len() as int) =~= v@);
    }
    r
}

impl Transaction {
    /// An explicit copy whose contract pins every field of the result.
    pub fn duplicate(&self) -> (r: Transaction)
        ensures
            r@ == self@,
    {
        Transaction {
            account_id: self.account_id,
            amount: self.amount,
            kind: self.kind,
            description: copy_bytes(&self.description),
            created_at: self.created_at,
        }
    }
}

impl View for Transaction {
    type V = TxView;

    open spec fn view(&self) -> TxView {
        TxView {
            account_id: self.account_id,
            amount: self.amount,
            kind: self.kind,
            description: self.description@,
            created_at: self.created_at,
        }
    }
}

/// One account row: an identifier, a signed balance and a non-negative
/// overdraft limit. The balance may go negative, but never below
/// `-credit_limit`.
#[derive(Clone, Copy)]
pub struct Account {
    pub id: u32,
    pub balance: i64,
    pub credit_limit: i64,
    /// The balance the account was provisioned with. It is ghost bookkeeping:
    /// together with the transaction log it pins the current balance, so that
    /// no balance can move without a matching log entry.
    pub opening: Ghost<i64>,
}

/// The durable ledger: the account rows and the append-only transaction log.
pub struct Ledger {
    pub accounts: Vec<Account>,
    pub log: Vec<Transaction>,
}

/// The mathematical image of the whole ledger.
pub struct LedgerView {
    pub accounts: Seq<Account>,
    pub log: Seq<TxView>,
}

/// The views of a sequence of transactions.
pub open spec fn txs_view(txs: Seq<Transaction>) -> Seq<TxView> {
    txs.map_values(|t: Transaction| t@)
}

impl View for Ledger {
    type V = LedgerView;

    open spec fn view(&self) -> LedgerView {
        LedgerView { accounts: self.accounts@, log: txs_view(self.log@) }
    }
}

/// The outcomes of ledger operations that are not success.
#[derive(Clone, Copy, PartialEq, Eq, Structural, Debug)]
pub enum LedgerError {
    /// The referenced account does not exist.
    NotFound,
    /// The input was malformed: a bad description length, a zero amount, an
    /// unrecognized kind, or an account row that would break the ledger's
    /// invariants.
    Invalid,
    /// A debit would push the balance below `-credit_limit`.
    LimitExceeded,
    /// The new balance would not fit in a 64-bit signed integer. A machine
    /// limit, surfaced like a storage fault: never silently treated as
    /// success.
    BalanceOverflow,
}

/// What a successful `apply` returns: the post-mutation balance and the
/// account's limit.
#[derive(Clone, Copy, PartialEq, Eq, Structural, Debug)]
pub struct ApplyReceipt {
    pub balance: i64,
    pub credit_limit: i64,
}

/// What `statement` returns: the account's current balance and limit, a
/// snapshot timestamp, and the most recent transactions, newest first.
#[derive(Debug)]
pub struct Statement {
    pub balance: i64,
    pub credit_limit: i64,
    pub as_of: u64,
    pub recent: Vec<Transaction>,
}

/// The signed effect of a transaction on a balance: `+amount` for a credit,
/// `-amount` for a debit.
pub open spec fn delta(kind: TxKind, amount: u32) -> int {
    if kind == TxKind::Credit {
        amount as int
    } else {
        -(amount as int)
    }
}

/// The limit rule: a debit of `amount` is allowed exactly when the balance it
/// leaves behind is at least `-credit_limit`.
pub open spec fn debit_allowed(balance: int, credit_limit: int, amount: int) -> bool {
    balance - amount >= -credit_limit
}

/// The acceptance rule of the transaction processor: a credit is always
/// accepted; a debit only when it respects the limit.
pub open spec fn accepts(balance: int, credit_limit: int, kind: TxKind, amount: u32) -> bool {
    kind == TxKind::Credit || debit_allowed(balance, credit_limit, amount as int)
}

/// Whether some account row carries this identifier.
pub open spec fn has_account(accounts: Seq<Account>, id: u32) -> bool {
    exists|i: int| 0 <= i < accounts.len() && accounts[i].id == id
}

/// The index of the account row carrying this identifier. Well-defined only
/// where `has_account` holds and identifiers are unique.
pub open spec fn account_index(accounts: Seq<Account>, id: u32) -> int {
    choose|i: int| 0 <= i < accounts.len() && accounts[i].id == id
}

/// The account row carrying this identifier.
pub open spec fn account_of(accounts: Seq<Account>, id: u32) -> Account {
    accounts[account_index(accounts, id)]
}

/// No two account rows share an identifier.
pub open spec fn unique_ids(accounts: Seq<Account>) -> bool {
    forall|i: int, j: int|
        #![trigger accounts[i], accounts[j]]
        0 <= i < j < accounts.len() ==> accounts[i].id != accounts[j].id
}

/// Every account row respects its limit, limits are non-negative, and
/// identifiers are unique.
pub open spec fn accounts_wf(accounts: Seq<Account>) -> bool {
    &&& forall|i: int|
        0 <= i < accounts.len() ==> (#[trigger] accounts[i]).credit_limit >= 0
    &&& forall|i: int|
        0 <= i < accounts.len() ==> (#[trigger] accounts[i]).balance
            >= -accounts[i].credit_limit
    &&& unique_ids(accounts)
}

/// A log entry that the processor could have produced: a positive amount and
/// a description of 1 to 10 bytes.
pub open spec fn valid_tx(t: TxView) -> bool {
    &&& t.amount >= 1
    &&& MIN_DESCRIPTION_BYTES <= t.description.len() <= MAX_DESCRIPTION_BYTES
}

/// Every log entry is valid, references an existing account, and timestamps
/// never decrease along the log.
pub open spec fn log_wf(v: LedgerView) -> bool {
    &&& forall|i: int| 0 <= i < v.log.len() ==> valid_tx(#[trigger] v.log[i])
    &&& forall|i: int|
        0 <= i < v.log.len() ==> has_account(v.accounts, (#[trigger] v.log[i]).account_id)
    &&& forall|i: int, j: int|
        #![trigger v.log[i], v.log[j]]
        0 <= i < j < v.log.len() ==> v.log[i].created_at <= v.log[j].created_at
}

/// The sum of the signed effects that the log records against one account.
pub open spec fn sum_deltas(log: Seq<TxView>, id: u32) -> int
    decreases log.len(),
{
    if log.len() == 0 {
        0
    } else {
        sum_deltas(log.drop_last(), id) + if log.last().account_id == id {
            delta(log.last().kind, log.last().amount)
        } else {
            0
        }
    }
}

/// Every balance equals the balance the account was provisioned with plus the
/// signed effects the log records against it: no balance mutation without a
/// matching transaction record, and no orphan record behind a balance.
pub open spec fn balances_match_log(v: LedgerView) -> bool {
    forall|i: int|
        0 <= i < v.accounts.len() ==> (#[trigger] v.accounts[i]).balance
            == v.accounts[i].opening@ + sum_deltas(v.log, v.accounts[i].id)
}

/// Whether a mathematical integer can be stored in a 64-bit signed balance.
pub open spec fn fits_i64(v: int) -> bool {
    i64::MIN <= v <= i64::MAX
}

/// The timestamp the store assigns to the next log entry: the wall clock it
/// was handed, clamped so that it never runs behind the last entry.
pub open spec fn next_stamp(log: Seq<TxView>, now: u64) -> u64 {
    if log.len() > 0 && log.last().created_at > now {
        log.last().created_at
    } else {
        now
    }
}

/// The log entry a successful `apply` appends for this request.
pub open spec fn posted_tx(
    v0: LedgerView,
    account_id: u32,
    amount: u32,
    kind: TxKind,
    description: Seq<u8>,
    now: u64,
) -> TxView {
    TxView { account_id, amount, kind, description, created_at: next_stamp(v0.log, now) }
}

/// The atomic success transition of one `apply` call: the target account's
/// balance moves by the signed amount, every other row is untouched, and
/// exactly one matching entry is appended to the log — both effects together.
pub open spec fn applied(
    v0: LedgerView,
    v1: LedgerView,
    account_id: u32,
    amount: u32,
    kind: TxKind,
    description: Seq<u8>,
    now: u64,
) -> bool {
    let acc = account_of(v0.accounts, account_id);
    &&& v1.accounts.len() == v0.accounts.len()
    &&& forall|j: int|
        0 <= j < v0.accounts.len() && (#[trigger] v0.accounts[j]).id != account_id
            ==> v1.accounts[j] == v0.accounts[j]
    &&& forall|j: int|
        0 <= j < v0.accounts.len() && (#[trigger] v0.accounts[j]).id == account_id ==> {
            &&& v1.accounts[j].id == account_id
            &&& v1.accounts[j].balance == acc.balance + delta(kind, amount)
            &&& v1.accounts[j].credit_limit == acc.credit_limit
            &&& v1.accounts[j].opening == v0.accounts[j].opening
        }
    &&& v1.log == v0.log.push(posted_tx(v0, account_id, amount, kind, description, now))
}

/// The full outcome relation of one `apply` call:
/// which result comes back for which ledger state and request, and how the
/// new ledger state relates to the old one. Errors leave the ledger as it
/// was; success is exactly the `applied` transition.
pub open spec fn apply_spec(
    v0: LedgerView,
    v1: LedgerView,
    account_id: u32,
    amount: u32,
    kind: TxKind,
    description: Seq<u8>,
    now: u64,
    r: Result<ApplyReceipt, LedgerError>,
) -> bool {
    &&& !has_account(v0.accounts, account_id) ==> r == Err::<ApplyReceipt, LedgerError>(
        LedgerError::NotFound,
    ) && v1 == v0
    &&& has_account(v0.accounts, account_id) ==> ({
        let acc = account_of(v0.accounts, account_id);
        let nb = acc.balance + delta(kind, amount);
        if accepts(acc.balance as int, acc.credit_limit as int, kind, amount) && fits_i64(nb) {
            &&& r == Ok::<ApplyReceipt, LedgerError>(
                (ApplyReceipt { balance: nb as i64, credit_limit: acc.credit_limit }),
            )
            &&& applied(v0, v1, account_id, amount, kind, description, now)
        } else if kind == TxKind::Debit {
            &&& r == Err::<ApplyReceipt, LedgerError>(LedgerError::LimitExceeded)
            &&& v1 == v0
        } else {
            &&& r == Err::<ApplyReceipt, LedgerError>(LedgerError::BalanceOverflow)
            &&& v1 == v0
        }
    })
}

/// Appending one entry moves the recorded sum of its account by the entry's
/// signed amount and leaves every other account's sum alone.
pub proof fn lemma_sum_deltas_push(log: Seq<TxView>, t: TxView, id: u32)
    ensures
        sum_deltas(log.push(t), id) == sum_deltas(log, id) + if t.account_id == id {
            delta(t.kind, t.amount)
        } else {
            0
        },
{
    assert(log.push(t).drop_last() =~= log);
    assert(log.push(t).last() == t);
}

/// The at most `cap` most recent log entries posted against one account,
/// newest first. Ties in `created_at` are broken by insertion order: the log
/// is read from its end, so a later insertion always comes first.
pub open spec fn recent_of(log: Seq<TxView>, id: u32, cap: nat) -> Seq<TxView>
    decreases log.len(),
{
    if log.len() == 0 || cap == 0 {
        Seq::empty()
    } else if log.last().account_id == id {
        seq![log.last()] + recent_of(log.drop_last(), id, (cap - 1) as nat)
    } else {
        recent_of(log.drop_last(), id, cap)
    }
}

/// An account no entry refers to has a recorded sum of zero.
pub proof fn lemma_sum_deltas_absent(log: Seq<TxView>, id: u32)
    requires
        forall|i: int| 0 <= i < log.len() ==> (#[trigger] log[i]).account_id != id,
    ensures
        sum_deltas(log, id) == 0,
    decreases log.len(),
{
    if log.len() > 0 {
        assert(forall|i: int|
            0 <= i < log.drop_last().len() ==> (#[trigger] log.drop_last()[i]).account_id != id);
        lemma_sum_deltas_absent(log.drop_last(), id);
    }
}

impl Ledger {
    /// The ledger's invariant: well-formed accounts, a well-formed log, and
    /// balances that match the log.
    pub open spec fn wf(&self) -> bool {
        &&& accounts_wf(self@.accounts)
        &&& log_wf(self@)
        &&& balances_match_log(self@)
    }

    /// An empty ledger: no accounts, no transactions.
    pub fn new() -> (r: Ledger)
        ensures
            r.wf(),
            r@.accounts.len() == 0,
            r@.log.len() == 0,
    {
        let r = Ledger { accounts: Vec::new(), log: Vec::new() };
        proof {
            assert(r@.log =~= Seq::<TxView>::empty());
        }
        r
    }

    /// Linear scan for the row holding this identifier.
    fn find_index(&self, account_id: u32) -> (r: Option<usize>)
        ensures
            match r {
                Some(i) => i < self@.accounts.len() && self@.accounts[i as int].id == account_id,
                None => !has_account(self@.accounts, account_id),
            },
    {
        let mut i: usize = 0;
        while i < self.accounts.len()
            invariant
                i <= self.accounts.len(),
                forall|j: int| 0 <= j < i ==> (#[trigger] self.accounts@[j]).id != account_id,
            decreases self.accounts.len() - i,
        {
            if self.accounts[i].id == account_id {
                return Some(i);
            }
            i += 1;
        }
        None
    }

    /// Provision one account row, as the deploy-time seed step does before
    /// the service starts. Rejected as `Invalid` if the limit is negative,
    /// the balance already breaches the limit, or the identifier is taken.
    pub fn add_account(&mut self, id: u32, balance: i64, credit_limit: i64) -> (r: Result<
        (),
        LedgerError,
    >)
        requires
            old(self).wf(),
        ensures
            final(self).wf(),
            ({
                let ok = credit_limit >= 0 && balance >= -credit_limit && !has_account(
                    old(self)@.accounts,
                    id,
                );
                if ok {
                    &&& r == Ok::<(), LedgerError>(())
                    &&& final(self)@.accounts == old(self)@.accounts.push(
                        (Account { id, balance, credit_limit, opening: Ghost(balance) }),
                    )
                    &&& final(self)@.log == old(self)@.log
                } else {
                    &&& r == Err::<(), LedgerError>(LedgerError::Invalid)
                    &&& *final(self) == *old(self)
                }
            }),
    {
        if credit_limit < 0 {
            return Err(LedgerError::Invalid);
        }
        if balance < -credit_limit {
            return Err(LedgerError::Invalid);
        }
        if let Some(_) = self.find_index(id) {
            return Err(LedgerError::Invalid);
        }
        let ghost v0 = self@;
        let acc = Account { id, balance, credit_limit, opening: Ghost(balance) };
        self.accounts.push(acc);
        proof {
            let v1 = self@;
            assert(v1.accounts == v0.accounts.push(acc));
            assert forall|j: int| 0 <= j < v1.log.len() implies has_account(
                v1.accounts,
                (#[trigger] v1.log[j]).account_id,
            ) by {
                assert(has_account(v0.accounts, v0.log[j].account_id));
                let w = account_index(v0.accounts, v0.log[j].account_id);
                assert(v1.accounts[w].id == v0.log[j].account_id);
            }
            assert forall|j: int| 0 <= j < v0.log.len() implies (#[trigger] v0.log[j]).account_id
                != id by {
                if v0.log[j].account_id == id {
                    assert(has_account(v0.accounts, id));
                }
            }
            lemma_sum_deltas_absent(v0.log, id);
            assert(balances_match_log(v1));
        }
        Ok(())
    }

    /// Post one transaction against one account, as a single atomic unit:
    /// the balance mutation and the appended log entry commit together or not
    /// at all (the `applied` transition). A credit is always accepted; a
    /// debit only when the balance it leaves behind respects the account's
    /// limit. On any rejection the ledger is untouched and no record is
    /// created.
    pub fn apply(
        &mut self,
        account_id: u32,
        amount: u32,
        kind: TxKind,
        description: Vec<u8>,
        now: u64,
    ) -> (r: Result<ApplyReceipt, LedgerError>)
        requires
            old(self).wf(),
            amount >= 1,
            MIN_DESCRIPTION_BYTES <= description@.len() <= MAX_DESCRIPTION_BYTES,
        ensures
            final(self).wf(),
            apply_spec(old(self)@, final(self)@, account_id, amount, kind, description@, now, r),
            r is Err ==> *final(self) == *old(self),
    {
        let i = match self.find_index(account_id) {
            Some(i) => i,
            None => {
                return Err(LedgerError::NotFound);
            },
        };
        let ghost v0 = self@;
        let ghost d = description@;
        proof {
            lemma_account_index_unique(v0.accounts, account_id, i as int);
        }
        let acc = self.accounts[i];
        let amt = amount as i64;
        let new_balance: i64 = match kind {
            TxKind::Credit => {
                if acc.balance <= i64::MAX - amt {
                    acc.balance + amt
                } else {
                    return Err(LedgerError::BalanceOverflow);
                }
            },
            TxKind::Debit => {
                // balance - amount >= -limit  exactly when  balance >= amount - limit
                let threshold = amt - acc.credit_limit;
                if acc.balance >= threshold {
                    acc.balance - amt
                } else {
                    return Err(LedgerError::LimitExceeded);
                }
            },
        };
        let created_at = if self.log.len() > 0 {
            let last = self.log[self.log.len() - 1].created_at;
            if last > now {
                last
            } else {
                now
            }
        } else {
            now
        };
        let tx = Transaction { account_id, amount, kind, description, created_at };
        proof {
            assert(v0.log.len() > 0 ==> v0.log.last() == self.log@[self.log@.len() - 1]@);
            assert(tx@ == posted_tx(v0, account_id, amount, kind, d, now));
        }
        self.log.push(tx);
        self.accounts.set(
            i,
            Account {
                id: acc.id,
                balance: new_balance,
                credit_limit: acc.credit_limit,
                opening: acc.opening,
            },
        );
        proof {
            let v1 = self@;
            let t = posted_tx(v0, account_id, amount, kind, d, now);
            assert(v1.log =~= v0.log.push(t));
            // rows other than the target are untouched, and ids and limits
            // are untouched everywhere
            assert forall|j: int|
                0 <= j < v0.accounts.len() && j != i as int implies v1.accounts[j]
                == v0.accounts[j] by {}
            assert forall|j: int|
                0 <= j < v0.accounts.len() && (#[trigger] v0.accounts[j]).id != account_id
                implies v1.accounts[j] == v0.accounts[j] by {
                assert(j != i as int);
            }
            assert forall|j: int|
                0 <= j < v0.accounts.len() && (#[trigger] v0.accounts[j]).id == account_id
                implies j == i as int by {
                if j != i as int {
                    assert(v0.accounts[j].id != v0.accounts[i as int].id || v0.accounts[i
                        as int].id != v0.accounts[j].id);
                }
            }
            assert(applied(v0, v1, account_id, amount, kind, d, now));
            // the invariant survives: the new balance was accepted, every
            // other row is unchanged, and the one new log entry accounts
            // exactly for the one balance move
            assert forall|j: int| 0 <= j < v1.accounts.len() implies {
                &&& (#[trigger] v1.accounts[j]).id == v0.accounts[j].id
                &&& v1.accounts[j].credit_limit >= 0
                &&& v1.accounts[j].balance >= -v1.accounts[j].credit_limit
            } by {
                if j == i as int {
                    assert(v0.accounts[i as int].balance >= -v0.accounts[i as int].credit_limit);
                } else {
                    assert(v1.accounts[j] == v0.accounts[j]);
                }
            }
            assert(unique_ids(v1.accounts));
            assert forall|j: int| 0 <= j < v1.log.len() implies valid_tx(#[trigger] v1.log[j]) by {
                if j < v0.log.len() {
                    assert(valid_tx(v0.log[j]));
                } else {
                    assert(v1.log[j] == t);
                }
            }
            assert forall|j: int| 0 <= j < v1.log.len() implies has_account(
                v1.accounts,
                (#[trigger] v1.log[j]).account_id,
            ) by {
                if j < v0.log.len() {
                    assert(has_account(v0.accounts, v0.log[j].account_id));
                    let w = account_index(v0.accounts, v0.log[j].account_id);
                    assert(v1.accounts[w].id == v0.log[j].account_id);
                } else {
                    assert(v1.accounts[i as int].id == account_id);
                }
            }
            assert forall|a: int, b: int|
                #![trigger v1.log[a], v1.log[b]]
                0 <= a < b < v1.log.len() implies v1.log[a].created_at
                <= v1.log[b].created_at by {
                if b == v0.log.len() {
                    if a < v0.log.len() - 1 {
                        assert(v0.log[a].created_at <= v0.log[v0.log.len() - 1].created_at);
                    }
                } else {
                    assert(v0.log[a].created_at <= v0.log[b].created_at);
                }
            }
            assert forall|j: int|
                0 <= j < v1.accounts.len() implies (#[trigger] v1.accounts[j]).balance
                == v1.accounts[j].opening@ + sum_deltas(v1.log, v1.accounts[j].id) by {
                lemma_sum_deltas_push(v0.log, t, v1.accounts[j].id);
                if j != i as int {
                    assert(v1.accounts[j] == v0.accounts[j]);
                    assert(v0.accounts[j].id != account_id);
                } else {
                    assert(v0.accounts[i as int].balance == v0.accounts[i as int].opening@
                        + sum_deltas(v0.log, account_id));
                }
            }
            assert(self.wf());
        }
        Ok(ApplyReceipt { balance: new_balance, credit_limit: acc.credit_limit })
    }

    /// The whole posting operation as the gateway sees it: reject malformed
    /// input as `Invalid` before any store interaction, then run the atomic
    /// `apply`. The four outcomes — success, `NotFound`, `LimitExceeded` (or
    /// the machine-limit `BalanceOverflow`), `Invalid` — are the only ones.
    pub fn post(
        &mut self,
        account_id: u32,
        amount: u32,
        kind_code: char,
        description: Vec<u8>,
        now: u64,
    ) -> (r: Result<ApplyReceipt, LedgerError>)
        requires
            old(self).wf(),
        ensures
            final(self).wf(),
            !crate::validate::request_valid(amount, kind_code, description@) ==> r == Err::<
                ApplyReceipt,
                LedgerError,
            >(LedgerError::Invalid),
            crate::validate::request_valid(amount, kind_code, description@) ==> apply_spec(
                old(self)@,
                final(self)@,
                account_id,
                amount,
                crate::validate::spec_kind_of(kind_code),
                description@,
                now,
                r,
            ),
            r is Err ==> *final(self) == *old(self),
    {
        if !crate::validate::validate_amount(amount) {
            return Err(LedgerError::Invalid);
        }
        if !crate::validate::validate_description(&description) {
            return Err(LedgerError::Invalid);
        }
        let kind = match crate::validate::parse_kind(kind_code) {
            Some(k) => k,
            None => {
                return Err(LedgerError::Invalid);
            },
        };
        self.apply(account_id, amount, kind, description, now)
    }

    /// Assemble one consistent snapshot of an account: its current balance
    /// and limit, the snapshot timestamp, and the at most ten most recent
    /// transactions posted against it, newest first. The listing is empty,
    /// never absent, when the account has no transactions. The ledger itself
    /// is read, never changed.
    pub fn statement(&self, account_id: u32, now: u64) -> (r: Result<Statement, LedgerError>)
        requires
            self.wf(),
        ensures
            match r {
                Ok(st) => {
                    &&& has_account(self@.accounts, account_id)
                    &&& st.balance == account_of(self@.accounts, account_id).balance
                    &&& st.credit_limit == account_of(self@.accounts, account_id).credit_limit
                    &&& st.as_of == now
                    &&& txs_view(st.recent@) == recent_of(
                        self@.log,
                        account_id,
                        RECENT_LIMIT as nat,
                    )
                },
                Err(e) => {
                    &&& e == LedgerError::NotFound
                    &&& !has_account(self@.accounts, account_id)
                },
            },
    {
        let i = match self.find_index(account_id) {
            Some(i) => i,
            None => {
                return Err(LedgerError::NotFound);
            },
        };
        proof {
            lemma_account_index_unique(self@.accounts, account_id, i as int);
        }
        let acc = self.accounts[i];
        let ghost vlog = self@.log;
        let mut recent: Vec<Transaction> = Vec::new();
        let mut j: usize = self.log.len();
        proof {
            assert(vlog.take(j as int) =~= vlog);
            assert(txs_view(recent@) =~= Seq::<TxView>::empty());
            assert(txs_view(recent@) + recent_of(vlog, account_id, RECENT_LIMIT as nat)
                =~= recent_of(vlog, account_id, RECENT_LIMIT as nat));
        }
        while j > 0 && recent.len() < RECENT_LIMIT
            invariant
                j <= self.log.len(),
                vlog == self@.log,
                recent@.len() <= RECENT_LIMIT,
                recent_of(vlog, account_id, RECENT_LIMIT as nat) == txs_view(recent@)
                    + recent_of(
                    vlog.take(j as int),
                    account_id,
                    (RECENT_LIMIT - recent@.len()) as nat,
                ),
            decreases j,
        {
            j -= 1;
            let ghost pre = vlog.take(j as int + 1);
            let ghost rv0 = recent@;
            proof {
                assert(pre.last() == vlog[j as int]);
                assert(pre.drop_last() =~= vlog.take(j as int));
                assert(vlog[j as int] == self.log@[j as int]@);
            }
            if self.log[j].account_id == account_id {
                recent.push(self.log[j].duplicate());
                proof {
                    assert(txs_view(recent@) =~= txs_view(rv0) + seq![vlog[j as int]]);
                    assert(txs_view(rv0) + (seq![vlog[j as int]] + recent_of(
                        vlog.take(j as int),
                        account_id,
                        (RECENT_LIMIT - recent@.len()) as nat,
                    )) =~= txs_view(recent@) + recent_of(
                        vlog.take(j as int),
                        account_id,
                        (RECENT_LIMIT - recent@.len()) as nat,
                    ));
                }
            }
        }
        proof {
            if recent@.len() < RECENT_LIMIT {
                assert(vlog.take(0) =~= Seq::<TxView>::empty());
            }
            assert(recent_of(
                vlog.take(j as int),
                account_id,
                (RECENT_LIMIT - recent@.len()) as nat,
            ) =~= Seq::<TxView>::empty());
            assert(txs_view(recent@) + Seq::<TxView>::empty() =~= txs_view(recent@));
        }
        Ok(Statement { balance: acc.balance, credit_limit: acc.credit_limit, as_of: now, recent })
    }

    /// Look one account up, as the store exposes it to the gateway.
    pub fn get_account(&self, account_id: u32) -> (r: Result<Account, LedgerError>)
        requires
            self.wf(),
        ensures
            has_account(self@.accounts, account_id) ==> r == Ok::<Account, LedgerError>(
                account_of(self@.accounts, account_id),
            ),
            !has_account(self@.accounts, account_id) ==> r == Err::<Account, LedgerError>(
                LedgerError::NotFound,
            ),
    {
        match self.find_index(account_id) {
            Some(i) => {
                proof {
                    lemma_account_index_unique(self@.accounts, account_id, i as int);
                }
                Ok(self.accounts[i])
            },
            None => Err(LedgerError::NotFound),
        }
    }
}

/// With unique identifiers, any row that carries `id` stands at the one index
/// that `account_index` picks.
pub proof fn lemma_account_index_unique(accounts: Seq<Account>, id: u32, i: int)
    requires
        unique_ids(accounts),
        0 <= i < accounts.len(),
        accounts[i].id == id,
    ensures
        has_account(accounts, id),
        account_index(accounts, id) == i,
        account_of(accounts, id) == accounts[i],
{
    assert(has_account(accounts, id));
    let k = account_index(accounts, id);
    assert(0 <= k < accounts.len() && accounts[k].id == id);
    if k < i {
        assert(accounts[k].id != accounts[i].id);
    } else if i < k {
        assert(accounts[i].id != accounts[k].id);
    }
}

} // verus!
