use ledger_core::ledger::Ledger;
use ledger_core::rules::{decide_admission, parse_kind, screen_request, TxError, TxKind};

fn fixture() -> Ledger {
    // Five accounts with limits in minor units, ids fixed at provisioning.
    let directory: Vec<(u32, u32)> = vec![
        (1, 100000),
        (2, 80000),
        (3, 1000000),
        (4, 10000000),
        (5, 500000),
    ];
    Ledger::new(&directory)
}

#[test]
fn new_ledger_has_zero_balances() {
    let ledger = fixture();
    let (balance, limit) = ledger.balance_snapshot(1).unwrap();
    assert_eq!(balance, 0);
    assert_eq!(limit, 100000);
    assert_eq!(ledger.entry_count(1).unwrap(), 0);
    assert!(ledger.balance_snapshot(6).is_none());
}

#[test]
fn credit_increases_balance_by_amount() {
    let mut ledger = fixture();
    let receipt = ledger.apply_transaction_at(1, 250, "c", "salary", 10).unwrap();
    assert_eq!(receipt.balance, 250);
    assert_eq!(receipt.limit, 100000);
    let receipt = ledger.apply_transaction_at(1, 750, "c", "bonus", 20).unwrap();
    assert_eq!(receipt.balance, 1000);
    assert_eq!(ledger.entry_count(1).unwrap(), 2);
}

#[test]
fn debit_within_limit_succeeds() {
    // Limit 1000, balance 0: a debit of 500 commits and leaves -500.
    let directory: Vec<(u32, u32)> = vec![(7, 1000)];
    let mut ledger = Ledger::new(&directory);
    let receipt = ledger.apply_transaction_at(7, 500, "d", "rent", 10).unwrap();
    assert_eq!(receipt.balance, -500);
    assert_eq!(receipt.limit, 1000);
}

#[test]
fn debit_beyond_limit_rejected_and_state_unchanged() {
    // Limit 1000, balance -500: a debit of 600 would reach -1100 < -1000.
    let directory: Vec<(u32, u32)> = vec![(7, 1000)];
    let mut ledger = Ledger::new(&directory);
    ledger.apply_transaction_at(7, 500, "d", "rent", 10).unwrap();
    let rejected = ledger.apply_transaction_at(7, 600, "d", "more", 20);
    assert_eq!(rejected.unwrap_err(), TxError::LimitExceeded);
    let (balance, _) = ledger.balance_snapshot(7).unwrap();
    assert_eq!(balance, -500);
    assert_eq!(ledger.entry_count(7).unwrap(), 1);
}

#[test]
fn unknown_account_rejected_before_payload_checks() {
    let mut ledger = fixture();
    // Even a malformed payload reports the unknown account first.
    let r = ledger.apply_transaction_at(99, 0, "x", "", 10);
    assert_eq!(r.unwrap_err(), TxError::UnknownAccount);
    // No storage write happened anywhere.
    for id in 1..=5u32 {
        assert_eq!(ledger.entry_count(id).unwrap(), 0);
    }
}

#[test]
fn invalid_amount_rejected() {
    let mut ledger = fixture();
    let r = ledger.apply_transaction_at(1, 0, "c", "zero", 10);
    assert_eq!(r.unwrap_err(), TxError::InvalidAmount);
    let r = ledger.apply_transaction_at(1, -5, "c", "negative", 10);
    assert_eq!(r.unwrap_err(), TxError::InvalidAmount);
}

#[test]
fn invalid_kind_rejected() {
    let mut ledger = fixture();
    let r = ledger.apply_transaction_at(1, 10, "x", "unknown", 10);
    assert_eq!(r.unwrap_err(), TxError::InvalidKind);
    let r = ledger.apply_transaction_at(1, 10, "cd", "tooLong", 10);
    assert_eq!(r.unwrap_err(), TxError::InvalidKind);
}

#[test]
fn invalid_description_rejected_even_with_valid_amount_and_kind() {
    let mut ledger = fixture();
    let r = ledger.apply_transaction_at(1, 10, "c", "elevenchars", 10);
    assert_eq!(r.unwrap_err(), TxError::InvalidDescription);
    let r = ledger.apply_transaction_at(1, 10, "c", "", 10);
    assert_eq!(r.unwrap_err(), TxError::InvalidDescription);
    assert_eq!(ledger.entry_count(1).unwrap(), 0);
}

#[test]
fn description_bounds_are_inclusive() {
    let mut ledger = fixture();
    assert!(ledger.apply_transaction_at(1, 10, "c", "x", 10).is_ok());
    assert!(ledger.apply_transaction_at(1, 10, "c", "exactlyten", 20).is_ok());
}

#[test]
fn contending_debits_admit_exactly_what_the_limit_allows() {
    // Limit 1000, balance 0, four debits of 600: only the first fits.
    let directory: Vec<(u32, u32)> = vec![(7, 1000)];
    let mut ledger = Ledger::new(&directory);
    let mut committed = 0;
    let mut rejections = 0;
    for i in 0..4u64 {
        match ledger.apply_transaction_at(7, 600, "d", "burst", 10 + i) {
            Ok(_) => committed += 1,
            Err(e) => {
                assert_eq!(e, TxError::LimitExceeded);
                rejections += 1;
            }
        }
    }
    assert_eq!(committed, 1);
    assert_eq!(rejections, 3);
    let (balance, _) = ledger.balance_snapshot(7).unwrap();
    assert_eq!(balance, -600);
    assert_eq!(ledger.entry_count(7).unwrap(), 1);
}

#[test]
fn history_reports_balance_limit_and_clock_instant() {
    let mut ledger = fixture();
    ledger.apply_transaction_at(2, 300, "c", "topup", 10).unwrap();
    let snap = ledger.get_history_at(2, 77).unwrap();
    assert_eq!(snap.balance, 300);
    assert_eq!(snap.limit, 80000);
    assert_eq!(snap.generated_at, 77);
    assert_eq!(snap.entries.len(), 1);
    assert_eq!(snap.entries[0].amount, 300);
    assert_eq!(snap.entries[0].kind, TxKind::Credit);
    assert_eq!(snap.entries[0].description, "topup");
    assert_eq!(snap.entries[0].occurred_at, 10);
}

#[test]
fn history_unknown_account_rejected() {
    let ledger = fixture();
    assert_eq!(ledger.get_history_at(42, 1).unwrap_err(), TxError::UnknownAccount);
}

#[test]
fn history_caps_at_ten_newest_first() {
    let mut ledger = fixture();
    for i in 0..13u64 {
        ledger
            .apply_transaction_at(3, (i + 1) as i32, "c", "step", 100 + i)
            .unwrap();
    }
    let snap = ledger.get_history_at(3, 999).unwrap();
    assert_eq!(snap.entries.len(), 10);
    // Newest first: amounts 13 down to 4, timestamps strictly descending here.
    for (pos, entry) in snap.entries.iter().enumerate() {
        assert_eq!(entry.amount, 13 - pos as i32);
        assert_eq!(entry.occurred_at, 112 - pos as u64);
    }
    assert_eq!(ledger.entry_count(3).unwrap(), 13);
}

#[test]
fn history_breaks_timestamp_ties_by_reverse_insertion() {
    let mut ledger = fixture();
    ledger.apply_transaction_at(4, 1, "c", "first", 50).unwrap();
    ledger.apply_transaction_at(4, 2, "c", "second", 50).unwrap();
    let snap = ledger.get_history_at(4, 60).unwrap();
    assert_eq!(snap.entries.len(), 2);
    assert_eq!(snap.entries[0].occurred_at, 50);
    assert_eq!(snap.entries[1].occurred_at, 50);
    assert_eq!(snap.entries[0].description, "second");
    assert_eq!(snap.entries[1].description, "first");
}

#[test]
fn journal_never_runs_backwards() {
    let mut ledger = fixture();
    ledger.apply_transaction_at(5, 10, "c", "late", 100).unwrap();
    // A clock reading behind the journal is pushed up to the newest stamp.
    ledger.apply_transaction_at(5, 20, "c", "early", 40).unwrap();
    let snap = ledger.get_history_at(5, 200).unwrap();
    assert_eq!(snap.entries[0].occurred_at, 100);
    assert_eq!(snap.entries[1].occurred_at, 100);
    assert_eq!(snap.entries[0].description, "early");
}

#[test]
fn read_your_writes_after_commit() {
    let mut ledger = fixture();
    let receipt = ledger.apply_transaction_at(1, 4321, "c", "pay", 5).unwrap();
    let snap = ledger.get_history_at(1, 6).unwrap();
    assert_eq!(snap.balance, receipt.balance);
    assert_eq!(snap.entries[0].amount, 4321);
    let receipt = ledger.apply_transaction_at(1, 21, "d", "fee", 7).unwrap();
    let snap = ledger.get_history_at(1, 8).unwrap();
    assert_eq!(snap.balance, receipt.balance);
    assert_eq!(snap.balance, 4300);
    assert_eq!(snap.entries[0].kind, TxKind::Debit);
}

#[test]
fn wall_clock_variants_behave_like_their_cores() {
    let mut ledger = fixture();
    let receipt = ledger.apply_transaction(1, 100, "c", "clocked").unwrap();
    assert_eq!(receipt.balance, 100);
    let snap = ledger.get_history(1).unwrap();
    assert_eq!(snap.balance, 100);
    assert_eq!(snap.entries.len(), 1);
    assert_eq!(snap.entries[0].amount, 100);
    let r = ledger.apply_transaction(99, 100, "c", "missing");
    assert_eq!(r.unwrap_err(), TxError::UnknownAccount);
}

#[test]
fn screening_order_and_admission_helpers() {
    assert_eq!(parse_kind("c"), Some(TxKind::Credit));
    assert_eq!(parse_kind("d"), Some(TxKind::Debit));
    assert_eq!(parse_kind("q"), None);
    assert_eq!(parse_kind(""), None);
    assert_eq!(
        screen_request(false, 0, "x", ""),
        Err(TxError::UnknownAccount)
    );
    assert_eq!(
        screen_request(true, 0, "x", ""),
        Err(TxError::InvalidAmount)
    );
    assert_eq!(screen_request(true, 5, "x", ""), Err(TxError::InvalidKind));
    assert_eq!(
        screen_request(true, 5, "c", ""),
        Err(TxError::InvalidDescription)
    );
    assert_eq!(screen_request(true, 5, "c", "ok"), Ok(TxKind::Credit));
    assert_eq!(decide_admission(0, 1000, 500, TxKind::Debit), Ok(-500));
    assert_eq!(
        decide_admission(-500, 1000, 600, TxKind::Debit),
        Err(TxError::LimitExceeded)
    );
    assert_eq!(decide_admission(-500, 1000, 500, TxKind::Debit), Ok(-1000));
    assert_eq!(decide_admission(-500, 1000, 9, TxKind::Credit), Ok(-491));
}

#[test]
fn invariant_holds_after_mixed_operations() {
    let directory: Vec<(u32, u32)> = vec![(9, 2000)];
    let mut ledger = Ledger::new(&directory);
    let ops: [(i32, &str); 6] = [
        (1500, "d"),
        (300, "c"),
        (900, "d"),
        (5000, "d"),
        (1, "c"),
        (2000, "d"),
    ];
    for (step, (amount, kind)) in ops.iter().enumerate() {
        let _ = ledger.apply_transaction_at(9, *amount, kind, "mixed", step as u64);
        let (balance, limit) = ledger.balance_snapshot(9).unwrap();
        assert!(balance >= -(limit as i64));
    }
}

#[test]
fn committed_entries_stand_unchanged_as_the_journal_grows() {
    let mut ledger = fixture();
    ledger.apply_transaction_at(5, 11, "c", "one", 1).unwrap();
    ledger.apply_transaction_at(5, 22, "c", "two", 2).unwrap();
    let before = ledger.get_history_at(5, 10).unwrap();
    ledger.apply_transaction_at(5, 33, "d", "three", 3).unwrap();
    let after = ledger.get_history_at(5, 11).unwrap();
    assert_eq!(after.entries.len(), 3);
    // The two older entries reappear untouched, shifted one place down.
    for i in 0..2 {
        assert_eq!(after.entries[i + 1].amount, before.entries[i].amount);
        assert_eq!(after.entries[i + 1].description, before.entries[i].description);
        assert_eq!(after.entries[i + 1].occurred_at, before.entries[i].occurred_at);
    }
    assert_eq!(after.entries[0].amount, 33);
}
