use youfinance::banking::providers::gocardless::structs::{
    CreditorAccount, DebtorAccount, Transaction as ProviderTransaction, TransactionAmount,
};
use youfinance::banking::providers::local_mta::{to_bank_transactions, to_provider_transaction};
use youfinance::banking::sync::{
    check_transaction_conflict, classify_dedup_outcome, conflicts_outcome, sync_action,
    transform_booked, transform_transaction, DeduplicationOutcome, SyncAction,
};
use youfinance::model::{NewTransaction, Transaction};

fn create_test_transaction(id: i32, bank_account_id: i32) -> Transaction {
    Transaction {
        id,
        booking_text: "test".to_string(),
        debtor_name: None,
        debtor_iban: None,
        debtor_bic: None,
        creditor_name: None,
        creditor_iban: None,
        creditor_bic: None,
        amount_minor: 1000,
        currency_code: "EUR".to_string(),
        booking_date: "2026-03-27".to_string(),
        value_date: None,
        balance_after_minor: None,
        mandate_reference: None,
        remittance_information: None,
        bank_account_id,
        created_at: "2026-03-27T00:00:00Z".to_string(),
        updated_at: "2026-03-27T00:00:00Z".to_string(),
        deleted_at: None,
    }
}

fn incoming(amount_minor: i32, currency: &str, bank_account_id: i32) -> NewTransaction {
    NewTransaction {
        booking_text: "test".to_string(),
        debtor_name: None,
        debtor_iban: None,
        debtor_bic: None,
        creditor_name: None,
        creditor_iban: None,
        creditor_bic: None,
        amount_minor,
        currency_code: currency.to_string(),
        booking_date: "2026-03-27".to_string(),
        value_date: None,
        balance_after_minor: None,
        mandate_reference: None,
        remittance_information: None,
        bank_account_id,
    }
}

#[test]
fn no_match_yields_new() {
    let outcome = classify_dedup_outcome(None, 42);
    assert_eq!(outcome, DeduplicationOutcome::New);
}

#[test]
fn same_account_match() {
    let existing = create_test_transaction(10, 42);
    let outcome = classify_dedup_outcome(Some(&existing), 42);
    assert_eq!(outcome, DeduplicationOutcome::SameAccount { existing_id: 10 });
}

#[test]
fn cross_account_match() {
    let existing = create_test_transaction(10, 1);
    let outcome = classify_dedup_outcome(Some(&existing), 2);
    assert_eq!(
        outcome,
        DeduplicationOutcome::CrossAccount { existing_id: 10, existing_account_id: 1 }
    );
}

#[test]
fn correct_existing_id_preserved() {
    let existing = create_test_transaction(99, 1);
    let outcome = classify_dedup_outcome(Some(&existing), 2);
    match outcome {
        DeduplicationOutcome::CrossAccount { existing_id, .. } => {
            assert_eq!(existing_id, 99);
        }
        _ => panic!("expected CrossAccount outcome"),
    }
}

#[test]
fn conflict_messages() {
    let existing = create_test_transaction(1, 1);
    assert_eq!(check_transaction_conflict(&existing, &incoming(1000, "EUR", 1)), None);
    assert_eq!(
        check_transaction_conflict(&existing, &incoming(-250, "EUR", 1)).as_deref(),
        Some("amount mismatch: stored=1000, incoming=-250")
    );
    assert_eq!(
        check_transaction_conflict(&existing, &incoming(1000, "USD", 1)).as_deref(),
        Some("currency mismatch: stored=EUR, incoming=USD")
    );
}

#[test]
fn sync_actions() {
    let existing = create_test_transaction(5, 1);
    assert_eq!(sync_action(None, &incoming(1000, "EUR", 1), 3), SyncAction::Insert);
    assert_eq!(
        sync_action(Some(&existing), &incoming(1000, "EUR", 1), 3),
        SyncAction::Link { transaction_id: 5 }
    );
    assert_eq!(
        sync_action(Some(&existing), &incoming(999, "EUR", 2), 3),
        SyncAction::Link { transaction_id: 5 }
    );
    assert_eq!(
        sync_action(Some(&existing), &incoming(999, "EUR", 1), 3),
        SyncAction::Conflict {
            message: "[account 3] transaction 2026-03-27 999 EUR: amount mismatch: stored=1000, incoming=999".to_string()
        }
    );
}

#[test]
fn conflicts_are_joined() {
    assert_eq!(conflicts_outcome(&vec![]), Ok(()));
    assert_eq!(
        conflicts_outcome(&vec!["a".to_string(), "b".to_string()]),
        Err("Sync completed with data conflicts:\na\nb".to_string())
    );
}

fn provider_tx(amount: &str) -> ProviderTransaction {
    ProviderTransaction {
        transaction_id: Some("t1".to_string()),
        debtor_name: Some("Debtor".to_string()),
        creditor_name: Some("Creditor".to_string()),
        debtor_account: Some(DebtorAccount { iban: Some("DE01".to_string()) }),
        creditor_account: Some(CreditorAccount {
            iban: None,
            bban: Some("123".to_string()),
            pan: None,
            masked_pan: None,
            msisdn: None,
            currency: None,
        }),
        transaction_amount: TransactionAmount { currency: "EUR".to_string(), amount: amount.to_string() },
        booking_date: Some("30.12.2024".to_string()),
        booking_date_time: None,
        value_date: Some("2024-12-31".to_string()),
        value_date_time: None,
        remittance_information_unstructured: Some("Rent".to_string()),
        bank_transaction_code: None,
        balance_after_minor: Some(5),
    }
}

#[test]
fn transform_provider_transaction() {
    let tx = transform_transaction(&provider_tx("-46.55"), 8).unwrap();
    assert_eq!(tx.amount_minor, -4655);
    assert_eq!(tx.booking_date, "2024-12-30");
    assert_eq!(tx.booking_text, "");
    assert_eq!(tx.debtor_iban.as_deref(), Some("DE01"));
    assert_eq!(tx.creditor_iban, None);
    assert_eq!(tx.value_date.as_deref(), Some("2024-12-31"));
    assert_eq!(tx.balance_after_minor, Some(5));
    assert_eq!(tx.bank_account_id, 8);
    assert_eq!(transform_transaction(&provider_tx("10"), 8).unwrap().amount_minor, 1000);
    assert_eq!(transform_transaction(&provider_tx("1.5e2"), 8).unwrap().amount_minor, 15000);
    assert_eq!(transform_transaction(&provider_tx("-inf"), 8).unwrap().amount_minor, i32::MIN);
    assert_eq!(
        transform_transaction(&provider_tx("x1"), 8).unwrap_err(),
        "Invalid amount format: 'x1'"
    );
    assert_eq!(
        transform_booked(&vec![provider_tx("1"), provider_tx("bad")], 8).unwrap_err(),
        "Failed to transform transactions: Invalid amount format: 'bad'"
    );
}

#[test]
fn provider_round_trip_keeps_amounts() {
    for amount in [-4655, 1000, 10, 5, -5, 0, 123456, i32::MAX, i32::MIN] {
        let nt = NewTransaction {
            creditor_iban: Some("DE02".to_string()),
            debtor_iban: Some("ACC".to_string()),
            ..incoming(amount, "EUR", 4)
        };
        let pt = to_provider_transaction(nt.clone());
        let back = transform_transaction(&pt, 4).unwrap();
        assert_eq!(back, nt);
    }
    let pt = to_provider_transaction(incoming(-4655, "EUR", 1));
    assert_eq!(pt.transaction_amount.amount, "-46.55");
    let pt = to_provider_transaction(incoming(1000, "EUR", 1));
    assert_eq!(pt.transaction_amount.amount, "10");
    let pt = to_provider_transaction(incoming(10, "EUR", 1));
    assert_eq!(pt.transaction_amount.amount, "0.1");
    let bt = to_bank_transactions(vec![incoming(1, "EUR", 1), incoming(2, "EUR", 1)]);
    assert_eq!(bt.transactions.booked.len(), 2);
    for t in &bt.transactions.booked {
        assert_eq!(t.booking_date_time, None);
        assert_eq!(t.value_date_time, None);
    }
    let with_creditor = NewTransaction { creditor_iban: Some("DE02".to_string()), ..incoming(3, "EUR", 1) };
    let bt2 = to_bank_transactions(vec![with_creditor]);
    let c = bt2.transactions.booked[0].creditor_account.clone().unwrap();
    assert_eq!(c.iban.as_deref(), Some("DE02"));
    assert_eq!((c.bban, c.pan, c.masked_pan, c.msisdn, c.currency), (None, None, None, None, None));
    assert_eq!(bt.transactions.booked[1].transaction_amount.amount, "0.02");
    assert!(bt.transactions.pending.is_empty());
}
