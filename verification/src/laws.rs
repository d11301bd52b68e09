//! The library's laws: properties of the mutation protocol and of the history
//! view, each stated over the store model and proved once and for all.

use vstd::prelude::*;
use crate::rules::{TxKind, TxError, kind_of, valid_amount, valid_description};
use crate::ledger::{
    AccountV, EntryV, ReceiptV, Ledger, Snapshot, account_ok, stamp, apply_spec,
    snapshot_matches, HISTORY_CAP,
};

verus! {

/// The credit-limit invariant: in a well-formed ledger every account's
/// balance stays at or above the negated credit limit. Every operation of the
/// store yields a well-formed ledger again, so every state the store ever
/// exposes satisfies this.
pub proof fn lemma_balance_respects_limit(l: &Ledger, id: u32)
    requires
        l.wf(),
        l@.dom().contains(id),
    ensures
        l@[id].balance >= -l@[id].limit,
{
    l.lemma_account_ok(id);
}

/// A credit of a valid amount with a valid description against a known
/// account always commits, and raises the balance by exactly that amount.
pub proof fn lemma_credit_always_succeeds(
    s: Map<u32, AccountV>,
    id: u32,
    amount: i32,
    kind: Seq<char>,
    description: Seq<char>,
    now: u64,
)
    requires
        s.dom().contains(id),
        valid_amount(amount),
        kind_of(kind) == Some(TxKind::Credit),
        valid_description(description),
    ensures
        apply_spec(s, id, amount, kind, description, now).1 matches Ok(rc) && rc.balance == s[id].balance
            + amount,
        apply_spec(s, id, amount, kind, description, now).0[id].balance == s[id].balance + amount,
{
}

/// A debit that would push the balance below the negated credit limit fails
/// with `LimitExceeded` and changes nothing: not the balance, not the
/// journal, not any other account.
pub proof fn lemma_overdraft_rejected(
    s: Map<u32, AccountV>,
    id: u32,
    amount: i32,
    kind: Seq<char>,
    description: Seq<char>,
    now: u64,
)
    requires
        s.dom().contains(id),
        valid_amount(amount),
        kind_of(kind) == Some(TxKind::Debit),
        valid_description(description),
        s[id].balance - amount < -s[id].limit,
    ensures
        apply_spec(s, id, amount, kind, description, now).1 == Err::<ReceiptV, TxError>(
            TxError::LimitExceeded,
        ),
        apply_spec(s, id, amount, kind, description, now).0 == s,
{
}

/// Read-your-writes: the balance a committed mutation reports is exactly what
/// a history read of the resulting state reports, and the committed entry
/// stands first in that history.
pub proof fn lemma_read_your_writes(
    s: Map<u32, AccountV>,
    id: u32,
    amount: i32,
    kind: Seq<char>,
    description: Seq<char>,
    now: u64,
    snap: Snapshot,
    read_at: u64,
)
    requires
        apply_spec(s, id, amount, kind, description, now).1 is Ok,
        snapshot_matches(snap, apply_spec(s, id, amount, kind, description, now).0[id], read_at),
    ensures
        snap.balance == apply_spec(s, id, amount, kind, description, now).1->Ok_0.balance,
        snap.limit == apply_spec(s, id, amount, kind, description, now).1->Ok_0.limit,
        snap.entries@.len() >= 1,
        snap.entries@[0]@ == (EntryV {
            amount: amount as int,
            kind: kind_of(kind)->Some_0,
            description,
            occurred_at: stamp(now as int, s[id].entries),
        }),
{
    let a = apply_spec(s, id, amount, kind, description, now).0[id];
    assert(a.entries.len() == s[id].entries.len() + 1);
    assert(snap.entries@[0]@ == a.entries[a.entries.len() - 1]);
}

/// The journal is append-only and per-account: whatever a mutation does, no
/// account disappears, no other account changes at all, and every entry
/// already committed for the mutated account stands unchanged at its place —
/// a posted entry is never updated, removed, or reversed.
pub proof fn lemma_journal_append_only(
    s: Map<u32, AccountV>,
    id: u32,
    amount: i32,
    kind: Seq<char>,
    description: Seq<char>,
    now: u64,
)
    ensures
        ({
            let s2 = apply_spec(s, id, amount, kind, description, now).0;
            &&& forall|k: u32| s.dom().contains(k) <==> s2.dom().contains(k)
            &&& forall|k: u32| k != id && s.dom().contains(k) ==> s2[k] == s[k]
            &&& (s.dom().contains(id) ==> s2[id].entries.len() >= s[id].entries.len())
            &&& (s.dom().contains(id) ==> forall|i: int|
                0 <= i < s[id].entries.len() ==> s2[id].entries[i] == s[id].entries[i])
        }),
{
}

/// History comes newest first: over a snapshot of a well-formed account the
/// timestamps never increase along the listing, ties standing in reverse
/// insertion order by construction, and at most [`HISTORY_CAP`] entries are
/// listed however long the journal is.
pub proof fn lemma_history_newest_first(snap: Snapshot, a: AccountV, read_at: u64)
    requires
        account_ok(a),
        snapshot_matches(snap, a, read_at),
    ensures
        snap.entries@.len() <= HISTORY_CAP,
        forall|i: int, j: int|
            0 <= i <= j < snap.entries@.len() ==> (#[trigger] snap.entries@[i])@.occurred_at >= (
            #[trigger] snap.entries@[j])@.occurred_at,
{
    let n = a.entries.len() as int;
    assert forall|i: int, j: int|
        0 <= i <= j < snap.entries@.len() implies (#[trigger] snap.entries@[i])@.occurred_at >= (
    #[trigger] snap.entries@[j])@.occurred_at by {
        assert(snap.entries@[i]@ == a.entries[n - 1 - i]);
        assert(snap.entries@[j]@ == a.entries[n - 1 - j]);
        assert(a.entries[n - 1 - j].occurred_at <= a.entries[n - 1 - i].occurred_at);
    }
}

/// The outcome of a run of equal debits applied one after the other, as the
/// serialized mutation unit forces under contention: each debit sees the
/// balance the previous one left. Yields the final state and how many debits
/// committed.
pub open spec fn repeated_debits(
    s: Map<u32, AccountV>,
    id: u32,
    amount: i32,
    description: Seq<char>,
    now: u64,
    n: nat,
) -> (Map<u32, AccountV>, nat)
    decreases n,
{
    if n == 0 {
        (s, 0)
    } else {
        let prior = repeated_debits(s, id, amount, description, now, (n - 1) as nat);
        let step = apply_spec(prior.0, id, amount, seq!['d'], description, now);
        if step.1 is Ok {
            (step.0, prior.1 + 1)
        } else {
            (prior.0, prior.1)
        }
    }
}

/// Of `n` equal debits contending for one account, exactly as many commit as
/// the credit limit admits: the commit count `k` never over-admits (the final
/// balance still respects the limit), never under-admits (if any debit was
/// rejected, one more commit would have broken the limit), and no update is
/// lost (the final balance is the initial one lowered by exactly the `k`
/// committed debits, and the journal grew by exactly `k` entries).
pub proof fn lemma_contending_debits(
    s: Map<u32, AccountV>,
    id: u32,
    amount: i32,
    description: Seq<char>,
    now: u64,
    n: nat,
)
    requires
        s.dom().contains(id),
        valid_amount(amount),
        valid_description(description),
        -s[id].limit <= s[id].balance,
    ensures
        ({
            let (s2, k) = repeated_debits(s, id, amount, description, now, n);
            &&& k <= n
            &&& s2.dom().contains(id)
            &&& s2[id].limit == s[id].limit
            &&& s2[id].balance == s[id].balance - k * (amount as int)
            &&& s2[id].balance >= -s[id].limit
            &&& (k < n ==> s2[id].balance - amount < -s[id].limit)
            &&& s2[id].entries.len() == s[id].entries.len() + k
        }),
    decreases n,
{
    if n > 0 {
        lemma_contending_debits(s, id, amount, description, now, (n - 1) as nat);
        let prior = repeated_debits(s, id, amount, description, now, (n - 1) as nat);
        let step = apply_spec(prior.0, id, amount, seq!['d'], description, now);
        let k0 = prior.1;
        assert(kind_of(seq!['d']) == Some(TxKind::Debit)) by {
            let c: Seq<char> = seq!['c'];
            let d: Seq<char> = seq!['d'];
            assert(c[0] == 'c' && d[0] == 'd');
        }
        if step.1 is Ok {
            assert((k0 + 1) * (amount as int) == k0 * (amount as int) + amount) by (nonlinear_arith);
        }
    }
}

} // verus!
