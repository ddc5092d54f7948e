use ledger::ledger::ApplyReceipt;
use ledger::ledger::Ledger;
use ledger::ledger::LedgerError;
use ledger::validate::contains_subslice;
use ledger::validate::known_account_id;
use ledger::validate::parse_kind;
use ledger::validate::reply_marks_rejection;
use ledger::validate::validate_amount;
use ledger::validate::validate_description;
use ledger::ledger::TxKind;

fn desc(text: &str) -> Vec<u8> {
    text.as_bytes().to_vec()
}

#[test]
fn description_boundaries() {
    assert!(!validate_description(&desc("")));
    assert!(validate_description(&desc("a")));
    assert!(validate_description(&desc("abcdefghij"))); // exactly 10 bytes
    assert!(!validate_description(&desc("abcdefghijk"))); // 11 bytes
}

#[test]
fn post_accepts_ten_byte_description_and_rejects_eleven() {
    let mut l = Ledger::new();
    assert_eq!(l.add_account(1, 0, 100), Ok(()));
    let r = l.post(1, 5, 'c', desc("abcdefghij"), 1);
    assert_eq!(r, Ok(ApplyReceipt { balance: 5, credit_limit: 100 }));
    let r = l.post(1, 5, 'c', desc("abcdefghijk"), 2);
    assert_eq!(r, Err(LedgerError::Invalid));
    // the rejection touched nothing
    assert_eq!(l.get_account(1).unwrap().balance, 5);
    assert_eq!(l.log.len(), 1);
}

#[test]
fn zero_amount_is_invalid() {
    assert!(!validate_amount(0));
    assert!(validate_amount(1));
    let mut l = Ledger::new();
    assert_eq!(l.add_account(1, 0, 100), Ok(()));
    assert_eq!(l.post(1, 0, 'c', desc("x"), 1), Err(LedgerError::Invalid));
    assert_eq!(l.log.len(), 0);
}

#[test]
fn unrecognized_kind_is_invalid() {
    assert_eq!(parse_kind('c'), Some(TxKind::Credit));
    assert_eq!(parse_kind('d'), Some(TxKind::Debit));
    assert_eq!(parse_kind('x'), None);
    let mut l = Ledger::new();
    assert_eq!(l.add_account(1, 0, 100), Ok(()));
    assert_eq!(l.post(1, 5, 'x', desc("x"), 1), Err(LedgerError::Invalid));
}

#[test]
fn post_maps_kinds_to_signed_deltas() {
    let mut l = Ledger::new();
    assert_eq!(l.add_account(1, 0, 100), Ok(()));
    assert_eq!(l.post(1, 30, 'c', desc("in"), 1), Ok(ApplyReceipt { balance: 30, credit_limit: 100 }));
    assert_eq!(l.post(1, 45, 'd', desc("out"), 2), Ok(ApplyReceipt { balance: -15, credit_limit: 100 }));
}

#[test]
fn post_unknown_account_is_not_found() {
    let mut l = Ledger::new();
    assert_eq!(l.add_account(1, 0, 100), Ok(()));
    assert_eq!(l.post(6, 5, 'c', desc("x"), 1), Err(LedgerError::NotFound));
}

#[test]
fn post_limit_breach_is_unprocessable() {
    let mut l = Ledger::new();
    assert_eq!(l.add_account(1, 0, 100), Ok(()));
    assert_eq!(l.post(1, 101, 'd', desc("x"), 1), Err(LedgerError::LimitExceeded));
    // a debit of exactly the limit's worth passes
    assert_eq!(l.post(1, 100, 'd', desc("y"), 2), Ok(ApplyReceipt { balance: -100, credit_limit: 100 }));
}

#[test]
fn rejection_marker_is_found_only_when_present() {
    assert!(reply_marks_rejection(&desc("{\"error\": 1}")));
    assert!(!reply_marks_rejection(&desc("{\"saldo\": -50, \"limite\": 100}")));
    // the quotes belong to the marker: a bare word is not enough
    assert!(!reply_marks_rejection(&desc("error")));
    assert!(!reply_marks_rejection(&desc("")));

    assert!(contains_subslice(&desc("abcde"), &desc("cd")));
    assert!(contains_subslice(&desc("abcde"), &desc("abcde")));
    assert!(contains_subslice(&desc("abcde"), &desc("")));
    assert!(!contains_subslice(&desc("abcde"), &desc("ce")));
    assert!(!contains_subslice(&desc("ab"), &desc("abc")));
    assert!(contains_subslice(&desc("aab"), &desc("ab")));
}

#[test]
fn known_account_ids_are_one_through_five() {
    assert!(!known_account_id(0));
    for id in 1..=5 {
        assert!(known_account_id(id));
    }
    assert!(!known_account_id(6));
    assert!(!known_account_id(u32::MAX));
}
