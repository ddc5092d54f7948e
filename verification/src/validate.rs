//! Input validation: the checks the service makes before any store
//! interaction, and the deploy-time account-id gate.

use vstd::prelude::*;

use crate::ledger::MAX_DESCRIPTION_BYTES;
use crate::ledger::MIN_DESCRIPTION_BYTES;
use crate::ledger::TxKind;

verus! {

/// The kind a recognized wire code stands for: 'c' is a credit, 'd' a debit.
/// Meaningful only where `spec_parse_kind` is `Some`.
pub open spec fn spec_kind_of(code: char) -> TxKind {
    if code == 'c' {
        TxKind::Credit
    } else {
        TxKind::Debit
    }
}

/// Which wire codes name a transaction kind.
pub open spec fn spec_parse_kind(code: char) -> Option<TxKind> {
    if code == 'c' || code == 'd' {
        Some(spec_kind_of(code))
    } else {
        None
    }
}

/// Read a transaction kind off the wire: 'c' or 'd', anything else is
/// unrecognized.
pub fn parse_kind(code: char) -> (r: Option<TxKind>)
    ensures
        r == spec_parse_kind(code),
{
    match code {
        'c' => Some(TxKind::Credit),
        'd' => Some(TxKind::Debit),
        _ => None,
    }
}

/// A posted amount is valid exactly when it is positive.
pub fn validate_amount(amount: u32) -> (r: bool)
    ensures
        r == (amount >= 1),
{
    amount >= 1
}

/// A description is valid exactly when it holds 1 to 10 bytes.
pub fn validate_description(description: &Vec<u8>) -> (r: bool)
    ensures
        r == (MIN_DESCRIPTION_BYTES <= description@.len() <= MAX_DESCRIPTION_BYTES),
{
    let n = description.len();
    MIN_DESCRIPTION_BYTES <= n && n <= MAX_DESCRIPTION_BYTES
}

/// A posting request is well-formed when the amount is positive, the
/// description holds 1 to 10 bytes, and the kind code is recognized.
pub open spec fn request_valid(amount: u32, code: char, description: Seq<u8>) -> bool {
    &&& amount >= 1
    &&& MIN_DESCRIPTION_BYTES <= description.len() <= MAX_DESCRIPTION_BYTES
    &&& spec_parse_kind(code) is Some
}

/// Whether the needle `n` stands in `h` at position `i`.
pub open spec fn contains_at(h: Seq<u8>, n: Seq<u8>, i: int) -> bool {
    &&& 0 <= i <= h.len() - n.len()
    &&& h.subrange(i, i + n.len()) == n
}

/// Whether the needle `n` stands anywhere in `h`.
pub open spec fn contains_seq(h: Seq<u8>, n: Seq<u8>) -> bool {
    exists|i: int| contains_at(h, n, i)
}

/// Naive verified substring search.
pub fn contains_subslice(h: &Vec<u8>, n: &Vec<u8>) -> (r: bool)
    ensures
        r == contains_seq(h@, n@),
{
    let hn = h.len();
    let nn = n.len();
    if nn > hn {
        proof {
            assert(forall|i: int| !contains_at(h@, n@, i));
        }
        return false;
    }
    let mut i: usize = 0;
    while i <= hn - nn
        invariant
            nn <= hn,
            hn == h@.len(),
            nn == n@.len(),
            i <= hn - nn + 1,
            forall|k: int| 0 <= k < i ==> !contains_at(h@, n@, k),
        decreases hn - nn + 1 - i,
    {
        let mut j: usize = 0;
        let mut eq = true;
        while j < nn
            invariant
                nn <= hn,
                hn == h@.len(),
                nn == n@.len(),
                i <= hn - nn,
                j <= nn,
                eq ==> forall|k: int| 0 <= k < j ==> h@[i + k] == n@[k],
                !eq ==> exists|k: int| 0 <= k < j && h@[i + k] != n@[k],
            decreases nn - j,
        {
            if h[i + j] != n[j] {
                eq = false;
            }
            j += 1;
        }
        if eq {
            proof {
                assert(h@.subrange(i as int, i + nn) =~= n@);
                assert(contains_at(h@, n@, i as int));
            }
            return true;
        }
        proof {
            let k = choose|k: int| 0 <= k < nn && h@[i + k] != n@[k];
            assert(h@.subrange(i as int, i + nn)[k] == h@[i + k]);
            assert(!contains_at(h@, n@, i as int));
        }
        i += 1;
    }
    proof {
        assert(forall|k: int| i <= k ==> !contains_at(h@, n@, k));
    }
    false
}

/// The store's rejection marker: the bytes of `"error"`, quotes included, as
/// it stands in the reply `{"error": 1}`.
pub open spec fn rejection_marker() -> Seq<u8> {
    seq![34u8, 101u8, 114u8, 114u8, 111u8, 114u8, 34u8]
}

/// Whether a posting reply from the store marks a rejected operation. The
/// store replies with exactly `{"error": 1}` for a rejection and with
/// `{"saldo": .., "limite": ..}` otherwise, so the quoted word decides.
pub fn reply_marks_rejection(reply: &Vec<u8>) -> (r: bool)
    ensures
        r == contains_seq(reply@, rejection_marker()),
{
    let mut marker: Vec<u8> = Vec::new();
    marker.push(34);
    marker.push(101);
    marker.push(114);
    marker.push(114);
    marker.push(111);
    marker.push(114);
    marker.push(34);
    proof {
        assert(marker@ =~= rejection_marker());
    }
    contains_subslice(reply, &marker)
}

/// The deploy-time account set: identifiers 1 through 5 are provisioned;
/// anything else is unknown before the store is ever asked. The single
/// wrapping subtraction folds both bounds into one branch-friendly compare.
pub fn known_account_id(id: u32) -> (r: bool)
    ensures
        r == (1 <= id <= 5),
{
    id.wrapping_sub(1) <= 4
}

} // verus!
