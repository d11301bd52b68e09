//! Request screening and the admission rule: the pure decisions behind every
//! balance mutation.

use vstd::prelude::*;

verus! {

/// The two kinds of balance-changing operation.
#[derive(Clone, Copy, PartialEq, Eq, Structural, Debug)]
pub enum TxKind {
    Credit,
    Debit,
}

/// Every way a proposed operation can be refused.
#[derive(Clone, Copy, PartialEq, Eq, Structural, Debug)]
pub enum TxError {
    UnknownAccount,
    InvalidAmount,
    InvalidKind,
    InvalidDescription,
    LimitExceeded,
}

/// The operation kind denoted by a raw kind tag: `"c"` is a credit, `"d"` a
/// debit, anything else is invalid.
pub open spec fn kind_of(s: Seq<char>) -> Option<TxKind> {
    if s == seq!['c'] {
        Some(TxKind::Credit)
    } else if s == seq!['d'] {
        Some(TxKind::Debit)
    } else {
        None
    }
}

/// An amount is valid when it is a positive integer.
pub open spec fn valid_amount(amount: i32) -> bool {
    amount >= 1
}

/// A description is valid when it has between 1 and 10 characters inclusive.
pub open spec fn valid_description(d: Seq<char>) -> bool {
    1 <= d.len() && d.len() <= 10
}

/// The screening verdict for a proposed operation, with the checks in their
/// fixed order: account existence first, then amount, kind, and description.
pub open spec fn screen_spec(
    account_known: bool,
    amount: i32,
    kind: Seq<char>,
    description: Seq<char>,
) -> Result<TxKind, TxError> {
    if !account_known {
        Err(TxError::UnknownAccount)
    } else if !valid_amount(amount) {
        Err(TxError::InvalidAmount)
    } else if kind_of(kind) is None {
        Err(TxError::InvalidKind)
    } else if !valid_description(description) {
        Err(TxError::InvalidDescription)
    } else {
        Ok(kind_of(kind)->Some_0)
    }
}

/// Parses a raw kind tag.
pub fn parse_kind(kind: &str) -> (r: Option<TxKind>)
    ensures
        r == kind_of(kind@),
{
    if kind.unicode_len() == 1 {
        let c = kind.get_char(0);
        proof {
            assert(c == 'c' ==> kind@ =~= seq!['c']);
            assert(c == 'd' ==> kind@ =~= seq!['d']);
        }
        if c == 'c' {
            Some(TxKind::Credit)
        } else if c == 'd' {
            Some(TxKind::Debit)
        } else {
            None
        }
    } else {
        None
    }
}

/// Screens a proposed operation, reporting the first failing check.
pub fn screen_request(account_known: bool, amount: i32, kind: &str, description: &str) -> (r:
    Result<TxKind, TxError>)
    ensures
        r == screen_spec(account_known, amount, kind@, description@),
{
    if !account_known {
        return Err(TxError::UnknownAccount);
    }
    if amount < 1 {
        return Err(TxError::InvalidAmount);
    }
    let parsed = parse_kind(kind);
    match parsed {
        None => Err(TxError::InvalidKind),
        Some(k) => {
            let dlen = description.unicode_len();
            if dlen < 1 || dlen > 10 {
                Err(TxError::InvalidDescription)
            } else {
                Ok(k)
            }
        },
    }
}

/// The balance an admitted operation would leave behind.
pub open spec fn candidate_of(balance: int, amount: int, kind: TxKind) -> int {
    match kind {
        TxKind::Credit => balance + amount,
        TxKind::Debit => balance - amount,
    }
}

/// The admission rule: a credit is always admissible; a debit only when the
/// candidate balance stays at or above the negated credit limit.
pub open spec fn admissible(balance: int, limit: int, amount: int, kind: TxKind) -> bool {
    kind is Credit || balance - amount >= -limit
}

/// Decides admission for a screened operation against the balance and credit
/// limit read at this instant, returning the new balance or the rejection.
pub fn decide_admission(balance: i64, limit: u32, amount: i32, kind: TxKind) -> (r: Result<i64, TxError>)
    requires
        balance >= -(limit as int),
        amount >= 1,
        kind is Credit ==> balance + amount <= i64::MAX,
    ensures
        match r {
            Ok(nb) => admissible(balance as int, limit as int, amount as int, kind) && nb
                == candidate_of(balance as int, amount as int, kind),
            Err(e) => e == TxError::LimitExceeded && !admissible(
                balance as int,
                limit as int,
                amount as int,
                kind,
            ),
        },
{
    match kind {
        TxKind::Credit => Ok(balance + amount as i64),
        TxKind::Debit => {
            let candidate = balance - amount as i64;
            if candidate >= -(limit as i64) {
                Ok(candidate)
            } else {
                Err(TxError::LimitExceeded)
            }
        },
    }
}

} // verus!
