use tx_ledger::amount::{Amount, MAX_UNITS};
use tx_ledger::transactions::{
    check_event_fits, process_event, Client, ClientID, Transaction, TransactionTemplate, TxId,
    TxType,
};
use tx_ledger::transactions_info::TransactionsInfo;

fn amt(mantissa: u128, scale: u32) -> Amount {
    Amount::from_scaled(mantissa, scale).unwrap()
}

fn event(tx_type: TxType, client: u16, tx: u32, amount: Option<Amount>) -> TransactionTemplate {
    TransactionTemplate {
        tx_type,
        client: ClientID::new(client),
        tx: TxId::new(tx),
        amount,
    }
}

fn balances(info: &TransactionsInfo, client: u16) -> (Amount, Amount, Amount, bool) {
    let c = info.get_client(&ClientID::new(client)).unwrap();
    (c.available, c.held, c.total, c.locked)
}

#[test]
fn deposit_creates_account() {
    let mut info = TransactionsInfo::new();
    assert!(process_event(event(TxType::Deposit, 1, 1, Some(amt(30, 1))), &mut info).is_ok());
    assert_eq!(
        balances(&info, 1),
        (amt(3, 0), amt(0, 0), amt(3, 0), false)
    );
}

#[test]
fn overdraw_is_dropped() {
    let mut info = TransactionsInfo::new();
    assert!(process_event(event(TxType::Deposit, 1, 1, Some(amt(30, 1))), &mut info).is_ok());
    assert!(process_event(event(TxType::Withdrawal, 1, 2, Some(amt(50, 1))), &mut info).is_ok());
    assert_eq!(
        balances(&info, 1),
        (amt(3, 0), amt(0, 0), amt(3, 0), false)
    );
    // The dropped withdrawal was never retained, so it can never be disputed.
    assert!(!info.transactions_contains_key(&(TxId::new(2), ClientID::new(1))));
}

#[test]
fn dispute_moves_available_to_held() {
    let mut info = TransactionsInfo::new();
    assert!(process_event(event(TxType::Deposit, 1, 1, Some(amt(30, 1))), &mut info).is_ok());
    assert!(process_event(event(TxType::Dispute, 1, 1, None), &mut info).is_ok());
    assert_eq!(
        balances(&info, 1),
        (amt(0, 0), amt(3, 0), amt(3, 0), false)
    );
    assert_eq!(
        info.get_dispute(&(TxId::new(1), ClientID::new(1))),
        Some(&Transaction::Dispute)
    );
}

#[test]
fn resolve_returns_held() {
    let mut info = TransactionsInfo::new();
    assert!(process_event(event(TxType::Deposit, 1, 1, Some(amt(30, 1))), &mut info).is_ok());
    assert!(process_event(event(TxType::Dispute, 1, 1, None), &mut info).is_ok());
    assert!(process_event(event(TxType::Resolve, 1, 1, None), &mut info).is_ok());
    assert_eq!(
        balances(&info, 1),
        (amt(3, 0), amt(0, 0), amt(3, 0), false)
    );
    assert_eq!(
        info.get_dispute(&(TxId::new(1), ClientID::new(1))),
        Some(&Transaction::Resolve)
    );
}

#[test]
fn chargeback_after_resolve_locks() {
    let mut info = TransactionsInfo::new();
    assert!(process_event(event(TxType::Deposit, 1, 1, Some(amt(30, 1))), &mut info).is_ok());
    assert!(process_event(event(TxType::Dispute, 1, 1, None), &mut info).is_ok());
    assert!(process_event(event(TxType::Resolve, 1, 1, None), &mut info).is_ok());
    assert!(process_event(event(TxType::Chargeback, 1, 1, None), &mut info).is_ok());
    assert_eq!(
        balances(&info, 1),
        (amt(0, 0), amt(0, 0), amt(0, 0), true)
    );
    assert_eq!(
        info.get_dispute(&(TxId::new(1), ClientID::new(1))),
        Some(&Transaction::Chargeback)
    );
}

#[test]
fn total_stays_available_plus_held_after_every_event() {
    let events = vec![
        event(TxType::Deposit, 1, 1, Some(amt(30, 1))),
        event(TxType::Deposit, 1, 2, Some(amt(10, 1))),
        event(TxType::Withdrawal, 1, 3, Some(amt(15, 1))),
        event(TxType::Dispute, 1, 1, None),
        event(TxType::Resolve, 1, 1, None),
        event(TxType::Chargeback, 1, 1, None),
        event(TxType::Deposit, 1, 4, Some(amt(25, 1))),
    ];
    let mut info = TransactionsInfo::new();
    for e in events {
        assert!(process_event(e, &mut info).is_ok());
        let (available, held, total, _) = balances(&info, 1);
        assert_eq!(total.units, available.units + held.units);
    }
}

#[test]
fn double_dispute_is_noop() {
    let mut info = TransactionsInfo::new();
    assert!(process_event(event(TxType::Deposit, 1, 1, Some(amt(30, 1))), &mut info).is_ok());
    assert!(process_event(event(TxType::Dispute, 1, 1, None), &mut info).is_ok());
    let before = balances(&info, 1);
    assert!(process_event(event(TxType::Dispute, 1, 1, None), &mut info).is_ok());
    assert_eq!(balances(&info, 1), before);
    assert_eq!(
        info.get_dispute(&(TxId::new(1), ClientID::new(1))),
        Some(&Transaction::Dispute)
    );
}

#[test]
fn out_of_sequence_resolve_and_chargeback_are_noops() {
    let mut info = TransactionsInfo::new();
    assert!(process_event(event(TxType::Deposit, 1, 1, Some(amt(30, 1))), &mut info).is_ok());
    // Not disputed yet: resolve and chargeback both fall flat.
    assert!(process_event(event(TxType::Resolve, 1, 1, None), &mut info).is_ok());
    assert!(process_event(event(TxType::Chargeback, 1, 1, None), &mut info).is_ok());
    assert_eq!(
        balances(&info, 1),
        (amt(3, 0), amt(0, 0), amt(3, 0), false)
    );
    assert!(!info.disputes_contains_key(&(TxId::new(1), ClientID::new(1))));
    // Disputed but not resolved: chargeback still falls flat.
    assert!(process_event(event(TxType::Dispute, 1, 1, None), &mut info).is_ok());
    assert!(process_event(event(TxType::Chargeback, 1, 1, None), &mut info).is_ok());
    assert_eq!(
        info.get_dispute(&(TxId::new(1), ClientID::new(1))),
        Some(&Transaction::Dispute)
    );
}

#[test]
fn dispute_naming_wrong_client_finds_nothing() {
    let mut info = TransactionsInfo::new();
    assert!(process_event(event(TxType::Deposit, 1, 1, Some(amt(30, 1))), &mut info).is_ok());
    assert!(process_event(event(TxType::Dispute, 2, 1, None), &mut info).is_ok());
    assert_eq!(
        balances(&info, 1),
        (amt(3, 0), amt(0, 0), amt(3, 0), false)
    );
    assert!(!info.disputes_contains_key(&(TxId::new(1), ClientID::new(1))));
    assert!(!info.disputes_contains_key(&(TxId::new(1), ClientID::new(2))));
}

#[test]
fn locked_account_still_accepts_deposits_and_withdrawals() {
    let mut info = TransactionsInfo::new();
    assert!(process_event(event(TxType::Deposit, 1, 1, Some(amt(30, 1))), &mut info).is_ok());
    assert!(process_event(event(TxType::Dispute, 1, 1, None), &mut info).is_ok());
    assert!(process_event(event(TxType::Resolve, 1, 1, None), &mut info).is_ok());
    assert!(process_event(event(TxType::Chargeback, 1, 1, None), &mut info).is_ok());
    let (_, _, _, locked) = balances(&info, 1);
    assert!(locked);
    // Documented pass-through policy: a chargeback marks the account but
    // does not freeze new activity.
    assert!(process_event(event(TxType::Deposit, 1, 2, Some(amt(20, 1))), &mut info).is_ok());
    assert!(process_event(event(TxType::Withdrawal, 1, 3, Some(amt(5, 1))), &mut info).is_ok());
    assert_eq!(
        balances(&info, 1),
        (amt(15, 1), amt(0, 0), amt(15, 1), true)
    );
}

#[test]
fn partial_hold_after_intervening_withdrawal() {
    let mut info = TransactionsInfo::new();
    assert!(process_event(event(TxType::Deposit, 1, 1, Some(amt(30, 1))), &mut info).is_ok());
    assert!(process_event(event(TxType::Withdrawal, 1, 2, Some(amt(20, 1))), &mut info).is_ok());
    // Only 1.0 is still available, so the hold is clamped to 1.0 of the
    // original 3.0 deposit.
    assert!(process_event(event(TxType::Dispute, 1, 1, None), &mut info).is_ok());
    assert_eq!(
        balances(&info, 1),
        (amt(0, 0), amt(1, 0), amt(1, 0), false)
    );
}

#[test]
fn withdrawal_missing_amount_is_invalid_input() {
    let mut info = TransactionsInfo::new();
    let r = process_event(event(TxType::Withdrawal, 1, 1, None), &mut info);
    assert_eq!(r, Err(tx_ledger::transactions::ErrorKind::InvalidInput));
    assert!(info.get_client(&ClientID::new(1)).is_none());
}

#[test]
fn from_scaled_rounds_half_away_from_zero() {
    // 0.00005 with five fractional digits rounds up to one display unit.
    assert_eq!(amt(5, 5).units_at(4), 1);
    // 0.00014 rounds down, 0.00015 rounds up.
    assert_eq!(amt(14, 5).units_at(4), 1);
    assert_eq!(amt(15, 5).units_at(4), 2);
    // Fifteen fractional digits are rounded into the stored precision.
    assert_eq!(amt(999999999999999, 15), amt(1, 0));
    assert_eq!(amt(1, 13), amt(0, 0));
    assert_eq!(amt(5, 13), amt(1, 12));
}

#[test]
fn from_scaled_rejects_out_of_range_values() {
    assert!(Amount::from_scaled(1, 29).is_none());
    assert!(Amount::from_scaled(u128::MAX, 0).is_none());
    assert_eq!(Amount::from_scaled(MAX_UNITS, 12).unwrap().units, MAX_UNITS);
}

#[test]
fn rounding_to_display_precision_round_trips() {
    let a = amt(39876543, 7);
    let rounded = a.round_to(4);
    let reparsed = Amount::from_scaled(a.units_at(4), 4).unwrap();
    assert_eq!(rounded, reparsed);
    assert_eq!(rounded.units_at(4), 39877);
    // Rounding again changes nothing.
    assert_eq!(rounded.round_to(4), rounded);
}

#[test]
fn deposit_beyond_capacity_does_not_fit() {
    let mut info = TransactionsInfo::new();
    let huge = Amount { units: MAX_UNITS };
    let first = event(TxType::Deposit, 1, 1, Some(huge));
    assert!(check_event_fits(&info, &first));
    assert!(process_event(first, &mut info).is_ok());
    let second = event(TxType::Deposit, 1, 2, Some(huge));
    assert!(!check_event_fits(&info, &second));
}

#[test]
fn snapshot_reports_rounded_balances() {
    let mut info = TransactionsInfo::new();
    assert!(process_event(event(TxType::Deposit, 1, 1, Some(amt(39876543, 7))), &mut info).is_ok());
    assert!(process_event(event(TxType::Deposit, 2, 2, Some(amt(20, 1))), &mut info).is_ok());
    let report = info.snapshot();
    assert_eq!(report.len(), 2);
    let expected_1 = Client::create_with_values(
        ClientID::new(1),
        amt(39877, 4),
        amt(0, 0),
        amt(39877, 4),
        false,
    );
    let expected_2 =
        Client::create_with_values(ClientID::new(2), amt(2, 0), amt(0, 0), amt(2, 0), false);
    assert!(report.contains(&expected_1));
    assert!(report.contains(&expected_2));
    // The stored state is untouched.
    assert_eq!(
        balances(&info, 1),
        (amt(39876543, 7), amt(0, 0), amt(39876543, 7), false)
    );
}
