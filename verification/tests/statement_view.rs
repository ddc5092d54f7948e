use ledger::ledger::Ledger;
use ledger::ledger::LedgerError;
use ledger::ledger::TxKind;

fn desc(text: &str) -> Vec<u8> {
    text.as_bytes().to_vec()
}

#[test]
fn statement_returns_the_ten_most_recent_newest_first() {
    let mut l = Ledger::new();
    assert_eq!(l.add_account(1, 0, 1000), Ok(()));
    // post T1..T12 in order: credits of 1..=12
    for i in 1..=12u32 {
        assert!(l.apply(1, i, TxKind::Credit, desc("t"), u64::from(i)).is_ok());
    }
    let st = l.statement(1, 99).unwrap();
    // balance and limit reflect all twelve
    assert_eq!(st.balance, (1..=12i64).sum::<i64>());
    assert_eq!(st.credit_limit, 1000);
    assert_eq!(st.as_of, 99);
    // exactly T12..T3, newest first
    let amounts: Vec<u32> = st.recent.iter().map(|t| t.amount).collect();
    assert_eq!(amounts, vec![12, 11, 10, 9, 8, 7, 6, 5, 4, 3]);
}

#[test]
fn statement_is_idempotent_between_writes() {
    let mut l = Ledger::new();
    assert_eq!(l.add_account(2, 0, 50), Ok(()));
    assert!(l.apply(2, 10, TxKind::Debit, desc("a"), 1).is_ok());
    assert!(l.apply(2, 4, TxKind::Credit, desc("b"), 2).is_ok());

    let st1 = l.statement(2, 7).unwrap();
    let st2 = l.statement(2, 7).unwrap();
    assert_eq!(st1.balance, st2.balance);
    assert_eq!(st1.credit_limit, st2.credit_limit);
    assert_eq!(st1.recent, st2.recent);
}

#[test]
fn statement_of_fresh_account_has_empty_listing() {
    let mut l = Ledger::new();
    assert_eq!(l.add_account(3, -5, 10), Ok(()));
    let st = l.statement(3, 1).unwrap();
    assert_eq!(st.balance, -5);
    assert_eq!(st.credit_limit, 10);
    assert!(st.recent.is_empty());
}

#[test]
fn statement_unknown_account_is_not_found() {
    let l = Ledger::new();
    assert_eq!(l.statement(1, 0).unwrap_err(), LedgerError::NotFound);
}

#[test]
fn statement_lists_only_the_asked_account() {
    let mut l = Ledger::new();
    assert_eq!(l.add_account(1, 0, 100), Ok(()));
    assert_eq!(l.add_account(2, 0, 100), Ok(()));
    assert!(l.apply(1, 3, TxKind::Credit, desc("one"), 1).is_ok());
    assert!(l.apply(2, 5, TxKind::Credit, desc("two"), 2).is_ok());
    assert!(l.apply(1, 7, TxKind::Debit, desc("tri"), 3).is_ok());

    let st = l.statement(1, 4).unwrap();
    assert_eq!(st.recent.len(), 2);
    assert_eq!(st.recent[0].amount, 7);
    assert_eq!(st.recent[0].kind, TxKind::Debit);
    assert_eq!(st.recent[1].amount, 3);
    assert_eq!(st.recent[1].kind, TxKind::Credit);
    assert!(st.recent.iter().all(|t| t.account_id == 1));
}

#[test]
fn ties_in_timestamp_break_by_insertion_order() {
    let mut l = Ledger::new();
    assert_eq!(l.add_account(4, 0, 100), Ok(()));
    // three transactions with one and the same timestamp
    for amount in [1u32, 2, 3] {
        assert!(l.apply(4, amount, TxKind::Credit, desc("tie"), 5).is_ok());
    }
    let st = l.statement(4, 5).unwrap();
    let amounts: Vec<u32> = st.recent.iter().map(|t| t.amount).collect();
    // the later insertion comes first, not some timestamp-only order
    assert_eq!(amounts, vec![3, 2, 1]);
}
