//! The ledger store: a fixed set of accounts, each with a credit limit, a
//! balance, and an append-only journal of committed entries. Every mutation is
//! the indivisible unit read-check-write-append; the credit-limit invariant
//! holds of every state the store ever exposes.

use vstd::prelude::*;
use vstd::map::*;
use crate::clock::now_micros;
use crate::rules::{
    TxKind, TxError, kind_of, valid_amount, valid_description, screen_spec, candidate_of,
    admissible, screen_request, decide_admission,
};

verus! {

/// One committed balance-changing operation, immutable once appended.
#[derive(Debug)]
pub struct Entry {
    pub amount: i32,
    pub kind: TxKind,
    pub description: String,
    pub occurred_at: u64,
}

/// The mathematical value of an [`Entry`].
pub struct EntryV {
    pub amount: int,
    pub kind: TxKind,
    pub description: Seq<char>,
    pub occurred_at: int,
}

impl View for Entry {
    type V = EntryV;

    open spec fn view(&self) -> EntryV {
        EntryV {
            amount: self.amount as int,
            kind: self.kind,
            description: self.description@,
            occurred_at: self.occurred_at as int,
        }
    }
}

struct Account {
    id: u32,
    limit: u32,
    balance: i64,
    entries: Vec<Entry>,
}

/// The mathematical value of one account: its credit limit, its balance, and
/// its journal in insertion order.
pub struct AccountV {
    pub limit: int,
    pub balance: int,
    pub entries: Seq<EntryV>,
}

impl View for Account {
    type V = AccountV;

    closed spec fn view(&self) -> AccountV {
        AccountV {
            limit: self.limit as int,
            balance: self.balance as int,
            entries: self.entries@.map_values(|e: Entry| e@),
        }
    }
}

/// A committed entry carries a positive amount within the machine range and a
/// description of 1 to 10 characters.
pub open spec fn entry_valid(e: EntryV) -> bool {
    &&& 1 <= e.amount <= i32::MAX
    &&& valid_description(e.description)
    &&& 0 <= e.occurred_at <= u64::MAX
}

/// Journal timestamps never decrease in insertion order.
pub open spec fn entries_ordered(es: Seq<EntryV>) -> bool {
    forall|i: int, j: int|
        0 <= i <= j < es.len() ==> es[i].occurred_at <= es[j].occurred_at
}

/// A well-formed account: the credit limit is a non-negative magnitude within
/// `u32`, the balance respects it and fits the machine word, and the journal
/// holds valid entries in timestamp order.
pub open spec fn account_ok(a: AccountV) -> bool {
    &&& 0 <= a.limit <= u32::MAX
    &&& -a.limit <= a.balance <= i64::MAX
    &&& i64::MIN <= a.balance
    &&& entries_ordered(a.entries)
    &&& forall|i: int| 0 <= i < a.entries.len() ==> entry_valid(#[trigger] a.entries[i])
}

/// A freshly provisioned account: the given limit, a zero balance, no entries.
pub open spec fn fresh_account(limit: int) -> AccountV {
    AccountV { limit, balance: 0, entries: Seq::empty() }
}

/// What a committed mutation reports back: the account's credit limit and its
/// new balance.
#[derive(Debug)]
pub struct Receipt {
    pub limit: u32,
    pub balance: i64,
}

/// The mathematical value of a [`Receipt`].
pub struct ReceiptV {
    pub limit: int,
    pub balance: int,
}

impl View for Receipt {
    type V = ReceiptV;

    open spec fn view(&self) -> ReceiptV {
        ReceiptV { limit: self.limit as int, balance: self.balance as int }
    }
}

/// The timestamp of the newest journal entry, or zero for an empty journal.
pub open spec fn last_ts(es: Seq<EntryV>) -> int {
    if es.len() == 0 {
        0
    } else {
        es.last().occurred_at
    }
}

/// The timestamp a new entry receives: the clock reading, pushed up to the
/// newest recorded timestamp so the journal never runs backwards.
pub open spec fn stamp(now: int, es: Seq<EntryV>) -> int {
    if now > last_ts(es) {
        now
    } else {
        last_ts(es)
    }
}

/// The complete mutation protocol as one function of the store state: screen
/// the request, apply the admission rule against the balance read at this
/// instant, and on admission update the balance and append the entry as one
/// unit. The first component is the state after the call, the second the
/// reported outcome.
pub open spec fn apply_spec(
    s: Map<u32, AccountV>,
    id: u32,
    amount: i32,
    kind: Seq<char>,
    description: Seq<char>,
    now: u64,
) -> (Map<u32, AccountV>, Result<ReceiptV, TxError>) {
    match screen_spec(s.dom().contains(id), amount, kind, description) {
        Err(e) => (s, Err(e)),
        Ok(k) => {
            let a = s[id];
            if !admissible(a.balance, a.limit, amount as int, k) {
                (s, Err(TxError::LimitExceeded))
            } else {
                let nb = candidate_of(a.balance, amount as int, k);
                let e = EntryV {
                    amount: amount as int,
                    kind: k,
                    description,
                    occurred_at: stamp(now as int, a.entries),
                };
                (
                    s.insert(id, AccountV { limit: a.limit, balance: nb, entries: a.entries.push(e) }),
                    Ok(ReceiptV { limit: a.limit, balance: nb }),
                )
            }
        },
    }
}

/// The reported outcome agrees with the model's: the same receipt on success,
/// the same error on failure.
pub open spec fn outcome_matches(r: Result<Receipt, TxError>, m: Result<ReceiptV, TxError>) -> bool {
    match (r, m) {
        (Ok(rc), Ok(mv)) => rc@ == mv,
        (Err(e), Err(me)) => e == me,
        _ => false,
    }
}

/// The balance snapshot plus the most recent entries of one account,
/// newest-first, capped at [`HISTORY_CAP`].
#[derive(Debug)]
pub struct Snapshot {
    pub balance: i64,
    pub limit: u32,
    pub generated_at: u64,
    pub entries: Vec<Entry>,
}

/// The most entries a history read returns.
pub const HISTORY_CAP: usize = 10;

/// How many entries a history read returns for a journal of the given length.
pub open spec fn history_len(n: nat) -> nat {
    if n < HISTORY_CAP {
        n
    } else {
        HISTORY_CAP as nat
    }
}

/// A snapshot reports the account's balance and limit from one read instant,
/// the clock reading of its construction, and the newest entries in reverse
/// insertion order: position `i` holds the entry `i` places from the end of
/// the journal.
pub open spec fn snapshot_matches(snap: Snapshot, a: AccountV, now: u64) -> bool {
    &&& snap.balance == a.balance
    &&& snap.limit == a.limit
    &&& snap.generated_at == now
    &&& snap.entries@.len() == history_len(a.entries.len())
    &&& forall|i: int|
        0 <= i < snap.entries@.len() ==> (#[trigger] snap.entries@[i])@ == a.entries[a.entries.len()
            - 1 - i]
}

/// The ledger store. The account set is fixed at construction; mutations go
/// through [`Ledger::apply_transaction_at`] and reads through
/// [`Ledger::get_history_at`].
pub struct Ledger {
    accounts: Vec<Account>,
}

spec fn has_id(s: Seq<Account>, id: u32) -> bool {
    exists|i: int| 0 <= i < s.len() && s[i].id == id
}

spec fn idx_of(s: Seq<Account>, id: u32) -> int {
    choose|i: int| 0 <= i < s.len() && s[i].id == id
}

spec fn ids_unique(s: Seq<Account>) -> bool {
    forall|i: int, j: int| 0 <= i < j < s.len() ==> s[i].id != s[j].id
}

spec fn view_of(s: Seq<Account>) -> Map<u32, AccountV> {
    Map::new(|id: u32| has_id(s, id), |id: u32| s[idx_of(s, id)]@)
}

impl View for Ledger {
    type V = Map<u32, AccountV>;

    closed spec fn view(&self) -> Map<u32, AccountV> {
        view_of(self.accounts@)
    }
}

/// The account at a given index is the one the view maps its id to.
proof fn lemma_view_at(s: Seq<Account>, i: int)
    requires
        ids_unique(s),
        0 <= i < s.len(),
    ensures
        view_of(s).dom().contains(s[i].id),
        view_of(s)[s[i].id] == s[i]@,
{
    let id = s[i].id;
    assert(has_id(s, id));
    let j = idx_of(s, id);
    assert(0 <= j < s.len() && s[j].id == id);
    assert(j == i);
}

/// Replacing one account with one that keeps its id changes the view at that
/// id alone.
proof fn lemma_view_update(pre: Seq<Account>, post: Seq<Account>, i: int)
    requires
        ids_unique(pre),
        0 <= i < pre.len(),
        post.len() == pre.len(),
        post[i].id == pre[i].id,
        forall|j: int| 0 <= j < pre.len() && j != i ==> post[j] == pre[j],
    ensures
        ids_unique(post),
        view_of(post) == view_of(pre).insert(pre[i].id, post[i]@),
{
    let id = pre[i].id;
    assert forall|j: int| 0 <= j < post.len() implies (#[trigger] post[j]).id == pre[j].id by {
        if j != i {
            assert(post[j] == pre[j]);
        }
    }
    assert(ids_unique(post));
    let pv = post[i]@;
    assert_maps_equal!(view_of(post), view_of(pre).insert(id, pv), k => {
        if k == id {
            assert(has_id(post, id));
            if view_of(post).dom().contains(k) {
                let j = idx_of(post, id);
                assert(0 <= j < post.len() && post[j].id == id);
                assert(j == i);
            }
        } else {
            if has_id(post, k) {
                let j = idx_of(post, k);
                assert(0 <= j < post.len() && post[j].id == k);
                assert(j != i);
                assert(pre[j].id == k);
                assert(has_id(pre, k));
                let j2 = idx_of(pre, k);
                assert(0 <= j2 < pre.len() && pre[j2].id == k);
                assert(j2 == j);
                assert(post[j].view() == pre[j2].view());
            }
            if has_id(pre, k) {
                let j2 = idx_of(pre, k);
                assert(0 <= j2 < pre.len() && pre[j2].id == k);
                assert(j2 != i);
                assert(post[j2].id == k);
                assert(has_id(post, k));
            }
        }
    });
}

impl Ledger {
    /// Every account in the store is well formed and ids occur once.
    pub closed spec fn wf(&self) -> bool {
        &&& ids_unique(self.accounts@)
        &&& forall|i: int|
            0 <= i < self.accounts@.len() ==> account_ok(#[trigger] self.accounts@[i]@)
    }

    /// In a well-formed ledger, every account the view exposes is well formed.
    pub proof fn lemma_account_ok(&self, id: u32)
        requires
            self.wf(),
            self@.dom().contains(id),
        ensures
            account_ok(self@[id]),
    {
        let i = idx_of(self.accounts@, id);
        assert(0 <= i < self.accounts@.len() && self.accounts@[i].id == id);
        lemma_view_at(self.accounts@, i);
    }

    /// Builds a ledger over the fixed account directory: one `(id, limit)`
    /// pair per account, every balance zero, every journal empty.
    pub fn new(directory: &Vec<(u32, u32)>) -> (l: Ledger)
        requires
            forall|i: int, j: int|
                0 <= i < j < directory@.len() ==> (#[trigger] directory@[i]).0 != (
                #[trigger] directory@[j]).0,
        ensures
            l.wf(),
            forall|id: u32|
                #[trigger] l@.dom().contains(id) <==> exists|i: int|
                    0 <= i < directory@.len() && (#[trigger] directory@[i]).0 == id,
            forall|i: int|
                0 <= i < directory@.len() ==> l@[(#[trigger] directory@[i]).0] == fresh_account(
                    directory@[i].1 as int,
                ),
    {
        let mut accounts: Vec<Account> = Vec::new();
        let mut i: usize = 0;
        while i < directory.len()
            invariant
                i <= directory@.len(),
                accounts@.len() == i,
                forall|j: int|
                    0 <= j < i ==> (#[trigger] accounts@[j]).id == directory@[j].0,
                forall|j: int|
                    0 <= j < i ==> (#[trigger] accounts@[j])@ == fresh_account(
                        directory@[j].1 as int,
                    ),
                forall|i2: int, j2: int|
                    0 <= i2 < j2 < directory@.len() ==> (#[trigger] directory@[i2]).0 != (
                    #[trigger] directory@[j2]).0,
            decreases directory@.len() - i,
        {
            let (id, limit) = (directory[i].0, directory[i].1);
            let account = Account { id, limit, balance: 0, entries: Vec::new() };
            proof {
                assert(account@.entries =~= Seq::<EntryV>::empty());
            }
            accounts.push(account);
            i += 1;
        }
        let l = Ledger { accounts };
        proof {
            assert(ids_unique(l.accounts@));
            assert forall|j: int| 0 <= j < l.accounts@.len() implies account_ok(
                #[trigger] l.accounts@[j]@,
            ) by {
                assert(l.accounts@[j]@ == fresh_account(directory@[j].1 as int));
            }
            assert forall|id: u32| #[trigger] l@.dom().contains(id) implies exists|i2: int|
                0 <= i2 < directory@.len() && (#[trigger] directory@[i2]).0 == id by {
                let j = idx_of(l.accounts@, id);
                assert(0 <= j < l.accounts@.len() && l.accounts@[j].id == id);
                assert(directory@[j].0 == id);
            }
            assert forall|id: u32|
                (exists|i2: int|
                    0 <= i2 < directory@.len() && (#[trigger] directory@[i2]).0 == id) implies
                #[trigger] l@.dom().contains(id) by {
                let j = choose|i2: int|
                    0 <= i2 < directory@.len() && (#[trigger] directory@[i2]).0 == id;
                assert(l.accounts@[j].id == id);
                assert(has_id(l.accounts@, id));
            }
            assert forall|j: int| 0 <= j < directory@.len() implies l@[(
                #[trigger] directory@[j]).0] == fresh_account(directory@[j].1 as int) by {
                lemma_view_at(l.accounts@, j);
            }
        }
        l
    }

    fn find(&self, id: u32) -> (r: Option<usize>)
        ensures
            match r {
                Some(i) => i < self.accounts@.len() && self.accounts@[i as int].id == id,
                None => !has_id(self.accounts@, id),
            },
            r is Some <==> self@.dom().contains(id),
    {
        let n = self.accounts.len();
        let mut i: usize = 0;
        while i < n
            invariant
                n == self.accounts@.len(),
                i <= n,
                forall|j: int| 0 <= j < i ==> (#[trigger] self.accounts@[j]).id != id,
            decreases n - i,
        {
            if self.accounts[i].id == id {
                return Some(i);
            }
            i += 1;
        }
        None
    }

    /// Reads the balance and the credit limit of one account together, from a
    /// single consistent snapshot of the store.
    pub fn balance_snapshot(&self, id: u32) -> (r: Option<(i64, u32)>)
        requires
            self.wf(),
        ensures
            match r {
                Some(p) => self@.dom().contains(id) && p.0 == self@[id].balance && p.1
                    == self@[id].limit,
                None => !self@.dom().contains(id),
            },
    {
        match self.find(id) {
            None => None,
            Some(i) => {
                proof {
                    lemma_view_at(self.accounts@, i as int);
                }
                Some((self.accounts[i].balance, self.accounts[i].limit))
            },
        }
    }

    /// Applies one proposed operation as the indivisible unit the protocol
    /// demands: the account's balance is read, the admission rule evaluated,
    /// and — only on admission — the balance written and the entry appended,
    /// with no intermediate state ever exposed. The whole effect is pinned to
    /// [`apply_spec`] at the given clock reading.
    pub fn apply_transaction_at(
        &mut self,
        id: u32,
        amount: i32,
        kind: &str,
        description: &str,
        now: u64,
    ) -> (r: Result<Receipt, TxError>)
        requires
            old(self).wf(),
            old(self)@.dom().contains(id) && kind_of(kind@) == Some(TxKind::Credit)
                && valid_amount(amount) ==> old(self)@[id].balance + amount <= i64::MAX,
        ensures
            final(self).wf(),
            final(self)@ == apply_spec(old(self)@, id, amount, kind@, description@, now).0,
            outcome_matches(r, apply_spec(old(self)@, id, amount, kind@, description@, now).1),
    {
        let found = self.find(id);
        match found {
            None => Err(TxError::UnknownAccount),
            Some(i) => {
                proof {
                    lemma_view_at(self.accounts@, i as int);
                }
                match screen_request(true, amount, kind, description) {
                    Err(e) => Err(e),
                    Ok(k) => {
                        let balance = self.accounts[i].balance;
                        let limit = self.accounts[i].limit;
                        match decide_admission(balance, limit, amount, k) {
                            Err(e) => Err(e),
                            Ok(nb) => {
                                let elen = self.accounts[i].entries.len();
                                let last: u64 = if elen == 0 {
                                    0
                                } else {
                                    self.accounts[i].entries[elen - 1].occurred_at
                                };
                                let ts: u64 = if now > last {
                                    now
                                } else {
                                    last
                                };
                                let entry = Entry {
                                    amount,
                                    kind: k,
                                    description: String::from_str(description),
                                    occurred_at: ts,
                                };
                                let ghost pre = self.accounts@;
                                let ghost pre_view = self@;
                                let ghost entry_v = entry@;
                                let acct = &mut self.accounts[i];
                                acct.balance = nb;
                                acct.entries.push(entry);
                                proof {
                                    let post = self.accounts@;
                                    assert(post[i as int]@.entries =~= pre[i as int]@.entries.push(
                                        entry_v,
                                    ));
                                    assert(last as int == last_ts(pre[i as int]@.entries));
                                    assert(ts as int == stamp(now as int, pre[i as int]@.entries));
                                    lemma_view_update(pre, post, i as int);
                                    assert(self@ == apply_spec(
                                        pre_view,
                                        id,
                                        amount,
                                        kind@,
                                        description@,
                                        now,
                                    ).0);
                                    assert forall|j: int| 0 <= j < post.len() implies account_ok(
                                        #[trigger] post[j]@,
                                    ) by {
                                        if j != i {
                                            assert(post[j] == pre[j]);
                                        } else {
                                            assert(entries_ordered(post[j]@.entries)) by {
                                                let es = pre[i as int]@.entries;
                                                assert(forall|t: int|
                                                    0 <= t < es.len() ==> (#[trigger] es[t]).occurred_at
                                                        <= last_ts(es));
                                            }
                                        }
                                    }
                                }
                                Ok(Receipt { limit, balance: nb })
                            },
                        }
                    },
                }
            },
        }
    }

    /// Produces the account's balance snapshot together with its most recent
    /// entries, newest first, capped at [`HISTORY_CAP`]. The store is not
    /// changed; balance and limit come from one consistent read instant.
    pub fn get_history_at(&self, id: u32, now: u64) -> (r: Result<Snapshot, TxError>)
        requires
            self.wf(),
        ensures
            match r {
                Ok(snap) => self@.dom().contains(id) && snapshot_matches(snap, self@[id], now),
                Err(e) => e == TxError::UnknownAccount && !self@.dom().contains(id),
            },
    {
        match self.find(id) {
            None => Err(TxError::UnknownAccount),
            Some(i) => {
                proof {
                    lemma_view_at(self.accounts@, i as int);
                }
                let account = &self.accounts[i];
                let n = account.entries.len();
                let k = if n < HISTORY_CAP {
                    n
                } else {
                    HISTORY_CAP
                };
                let mut out: Vec<Entry> = Vec::new();
                let mut j: usize = 0;
                while j < k
                    invariant
                        k <= n,
                        n == account.entries@.len(),
                        j <= k,
                        out@.len() == j,
                        forall|t: int|
                            0 <= t < j ==> (#[trigger] out@[t])@ == account.entries@[n - 1 - t]@,
                    decreases k - j,
                {
                    let e = &account.entries[n - 1 - j];
                    let copied = Entry {
                        amount: e.amount,
                        kind: e.kind,
                        description: e.description.clone(),
                        occurred_at: e.occurred_at,
                    };
                    out.push(copied);
                    j += 1;
                }
                let snap = Snapshot {
                    balance: account.balance,
                    limit: account.limit,
                    generated_at: now,
                    entries: out,
                };
                proof {
                    let a = self@[id];
                    assert(a.entries.len() == n);
                    assert forall|t: int| 0 <= t < snap.entries@.len() implies (
                    #[trigger] snap.entries@[t])@ == a.entries[a.entries.len() - 1 - t] by {
                        assert(snap.entries@[t]@ == account.entries@[n - 1 - t]@);
                        assert(a.entries[n - 1 - t] == account.entries@[n - 1 - t]@);
                    }
                }
                Ok(snap)
            },
        }
    }

    /// Applies one proposed operation, stamping the committed entry from the
    /// wall clock. The effect is that of [`Ledger::apply_transaction_at`] at
    /// some clock reading: everything but the exact timestamp is pinned.
    pub fn apply_transaction(&mut self, id: u32, amount: i32, kind: &str, description: &str) -> (r:
        Result<Receipt, TxError>)
        requires
            old(self).wf(),
            old(self)@.dom().contains(id) && kind_of(kind@) == Some(TxKind::Credit)
                && valid_amount(amount) ==> old(self)@[id].balance + amount <= i64::MAX,
        ensures
            final(self).wf(),
            exists|t: u64|
                final(self)@ == (#[trigger] apply_spec(
                    old(self)@,
                    id,
                    amount,
                    kind@,
                    description@,
                    t,
                )).0 && outcome_matches(
                    r,
                    apply_spec(old(self)@, id, amount, kind@, description@, t).1,
                ),
    {
        let now = now_micros();
        let r = self.apply_transaction_at(id, amount, kind, description, now);
        proof {
            assert(self@ == apply_spec(old(self)@, id, amount, kind@, description@, now).0
                && outcome_matches(
                r,
                apply_spec(old(self)@, id, amount, kind@, description@, now).1,
            ));
        }
        r
    }

    /// Produces the history snapshot stamped with the wall clock: the effect
    /// of [`Ledger::get_history_at`] at the clock reading the snapshot
    /// carries.
    pub fn get_history(&self, id: u32) -> (r: Result<Snapshot, TxError>)
        requires
            self.wf(),
        ensures
            match r {
                Ok(snap) => self@.dom().contains(id) && snapshot_matches(
                    snap,
                    self@[id],
                    snap.generated_at,
                ),
                Err(e) => e == TxError::UnknownAccount && !self@.dom().contains(id),
            },
    {
        let now = now_micros();
        self.get_history_at(id, now)
    }

    /// The number of entries ever committed for one account.
    pub fn entry_count(&self, id: u32) -> (r: Option<usize>)
        requires
            self.wf(),
        ensures
            match r {
                Some(n) => self@.dom().contains(id) && n == self@[id].entries.len(),
                None => !self@.dom().contains(id),
            },
    {
        match self.find(id) {
            None => None,
            Some(i) => {
                proof {
                    lemma_view_at(self.accounts@, i as int);
                }
                Some(self.accounts[i].entries.len())
            },
        }
    }
}

} // verus!
