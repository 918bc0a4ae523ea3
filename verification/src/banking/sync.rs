//! Deciding what a synchronisation does with each transaction a provider
//! reports.
use vstd::prelude::*;

use crate::banking::providers::gocardless::structs::{Transaction as ProviderTransaction, TransactionView};
use crate::banking::providers::local_mta::provider_transaction_of;
use crate::banking::utils::{lemma_normalize_date_idempotent, normalize_date, normalized_date};
use crate::decimal::{int_to_chars, int_to_decimal, is_digit};
use crate::float_notation::{
    float_minor, lemma_float_trailing_zero, lemma_minor_float_round_trip, parse_float_minor,
};
use crate::model::{new_transactions_view, NewTransaction, NewTransactionView, Transaction};
use crate::text::{
    append_chars, clone_opt_string, from_chars, or_empty, string_or_empty, to_chars,
};

verus! {

/// What a stored transaction with the same fingerprint means for an
/// incoming one.
#[derive(Debug, Clone, Copy, PartialEq, Eq, Structural)]
pub enum DeduplicationOutcome {
    /// The transaction is new and is inserted.
    New,
    /// It is stored for the same account: check for conflicts, then link.
    SameAccount { existing_id: i32 },
    /// It is stored for another account: the same transaction from another
    /// source.
    CrossAccount { existing_id: i32, existing_account_id: i32 },
}

/// The outcome for an incoming transaction of account `incoming_account_id`,
/// given the stored transaction `existing` it matches, if any.
pub open spec fn dedup_outcome(existing: Option<(i32, i32)>, incoming_account_id: i32) -> DeduplicationOutcome {
    match existing {
        None => DeduplicationOutcome::New,
        Some((id, account)) => if account == incoming_account_id {
            DeduplicationOutcome::SameAccount { existing_id: id }
        } else {
            DeduplicationOutcome::CrossAccount { existing_id: id, existing_account_id: account }
        },
    }
}

/// The id and account of a stored transaction, if there is one.
pub open spec fn id_and_account(t: Option<&Transaction>) -> Option<(i32, i32)> {
    match t {
        Some(e) => Some((e.id, e.bank_account_id)),
        None => None,
    }
}

/// Classifies an incoming transaction of account `incoming_account_id` by
/// the stored transaction it matches, if any.
pub fn classify_dedup_outcome(maybe_existing: Option<&Transaction>, incoming_account_id: i32) -> (res:
    DeduplicationOutcome)
    ensures
        res == dedup_outcome(id_and_account(maybe_existing), incoming_account_id),
{
    match maybe_existing {
        None => DeduplicationOutcome::New,
        Some(existing) => {
            let existing_id = existing.id;
            if existing.bank_account_id == incoming_account_id {
                DeduplicationOutcome::SameAccount { existing_id }
            } else {
                DeduplicationOutcome::CrossAccount {
                    existing_id,
                    existing_account_id: existing.bank_account_id,
                }
            }
        },
    }
}

/// The outcome is `New` exactly where nothing matches, names the matched
/// transaction otherwise, and is `SameAccount` exactly where the accounts
/// agree.
pub proof fn lemma_dedup_outcome_cases(existing: Option<(i32, i32)>, incoming_account_id: i32)
    ensures
        (dedup_outcome(existing, incoming_account_id) is New) <==> existing is None,
        existing matches Some((id, account)) ==> ((dedup_outcome(existing, incoming_account_id) is SameAccount)
            <==> account == incoming_account_id),
        existing matches Some((id, account)) ==> (match dedup_outcome(existing, incoming_account_id) {
            DeduplicationOutcome::SameAccount { existing_id } => existing_id == id,
            DeduplicationOutcome::CrossAccount { existing_id, existing_account_id } => existing_id
                == id && existing_account_id == account,
            DeduplicationOutcome::New => false,
        }),
{
}

// ---------------------------------------------------------------------------
// Conflicts
// ---------------------------------------------------------------------------

/// Why a stored transaction and an incoming one of the same fingerprint
/// cannot be the same: a different amount, else a different currency.
pub open spec fn conflict_message(
    stored_amount: i32,
    stored_currency: Seq<char>,
    incoming_amount: i32,
    incoming_currency: Seq<char>,
) -> Option<Seq<char>> {
    if stored_amount != incoming_amount {
        Some(
            "amount mismatch: stored="@ + int_to_decimal(stored_amount as int) + ", incoming="@
                + int_to_decimal(incoming_amount as int),
        )
    } else if stored_currency != incoming_currency {
        Some("currency mismatch: stored="@ + stored_currency + ", incoming="@ + incoming_currency)
    } else {
        None
    }
}

/// Checks that a stored transaction agrees with an incoming one on amount
/// and currency, the fields that may never change.
pub fn check_transaction_conflict(existing: &Transaction, incoming: &NewTransaction) -> (res: Option<
    String,
>)
    ensures
        res.deep_view() == conflict_message(
            existing.amount_minor,
            existing.currency_code@,
            incoming.amount_minor,
            incoming.currency_code@,
        ),
{
    if existing.amount_minor != incoming.amount_minor {
        let mut m = to_chars("amount mismatch: stored=");
        append_chars(&mut m, &int_to_chars(existing.amount_minor as i64));
        append_chars(&mut m, &to_chars(", incoming="));
        append_chars(&mut m, &int_to_chars(incoming.amount_minor as i64));
        let s = from_chars(&m);
        return Some(s);
    }
    let stored = to_chars(existing.currency_code.as_str());
    let incoming_currency = to_chars(incoming.currency_code.as_str());
    if !crate::text::chars_eq(&stored, &incoming_currency) {
        let mut m = to_chars("currency mismatch: stored=");
        append_chars(&mut m, &stored);
        append_chars(&mut m, &to_chars(", incoming="));
        append_chars(&mut m, &incoming_currency);
        let s = from_chars(&m);
        return Some(s);
    }
    None
}

/// What the synchronisation does with one incoming transaction.
#[derive(Debug, Clone, PartialEq, Eq)]
pub enum SyncAction {
    /// Store it and link it to the provider.
    Insert,
    /// Link the stored transaction to the provider.
    Link { transaction_id: i32 },
    /// Report a conflict with the stored transaction.
    Conflict { message: String },
}

/// The report of a conflict: the account, the transaction, and why.
pub open spec fn conflict_report(account_row_id: i32, incoming: NewTransactionView, why: Seq<char>) -> Seq<
    char,
> {
    "[account "@ + int_to_decimal(account_row_id as int) + "] transaction "@ + incoming.booking_date
        + " "@ + int_to_decimal(incoming.amount_minor as int) + " "@ + incoming.currency_code + ": "@
        + why
}

/// The action for an incoming transaction of the account link
/// `account_row_id` (account `incoming.bank_account_id`): insert where nothing
/// matches; for a match in the same account, a conflict where amount or
/// currency differ, else a link; for a match in another account, a link.
pub fn sync_action(maybe_existing: Option<&Transaction>, incoming: &NewTransaction, account_row_id: i32) -> (res:
    SyncAction)
    ensures
        match dedup_outcome(id_and_account(maybe_existing), incoming.bank_account_id) {
            DeduplicationOutcome::New => res == SyncAction::Insert,
            DeduplicationOutcome::SameAccount { existing_id } => match conflict_message(
                maybe_existing.unwrap().amount_minor,
                maybe_existing.unwrap().currency_code@,
                incoming.amount_minor,
                incoming.currency_code@,
            ) {
                Some(why) => res matches SyncAction::Conflict { message } && message@
                    == conflict_report(account_row_id, incoming@, why),
                None => res == (SyncAction::Link { transaction_id: existing_id }),
            },
            DeduplicationOutcome::CrossAccount { existing_id, .. } => res == (SyncAction::Link {
                transaction_id: existing_id,
            }),
        },
{
    match classify_dedup_outcome(maybe_existing, incoming.bank_account_id) {
        DeduplicationOutcome::New => SyncAction::Insert,
        DeduplicationOutcome::SameAccount { existing_id } => {
            let existing = maybe_existing.unwrap();
            match check_transaction_conflict(existing, incoming) {
                Some(why) => {
                    let mut m = to_chars("[account ");
                    append_chars(&mut m, &int_to_chars(account_row_id as i64));
                    append_chars(&mut m, &to_chars("] transaction "));
                    append_chars(&mut m, &to_chars(incoming.booking_date.as_str()));
                    append_chars(&mut m, &to_chars(" "));
                    append_chars(&mut m, &int_to_chars(incoming.amount_minor as i64));
                    append_chars(&mut m, &to_chars(" "));
                    append_chars(&mut m, &to_chars(incoming.currency_code.as_str()));
                    append_chars(&mut m, &to_chars(": "));
                    append_chars(&mut m, &to_chars(why.as_str()));
                    SyncAction::Conflict { message: from_chars(&m) }
                },
                None => SyncAction::Link { transaction_id: existing_id },
            }
        },
        DeduplicationOutcome::CrossAccount { existing_id, .. } => SyncAction::Link {
            transaction_id: existing_id,
        },
    }
}

/// The conflicts joined by line breaks.
pub open spec fn joined_lines(conflicts: Seq<Seq<char>>) -> Seq<char>
    decreases conflicts.len(),
{
    if conflicts.len() == 0 {
        Seq::empty()
    } else if conflicts.len() == 1 {
        conflicts[0]
    } else {
        joined_lines(conflicts.drop_last()) + seq!['\n'] + conflicts.last()
    }
}

/// The end of an account's synchronisation: success without conflicts, an
/// error that lists them otherwise.
pub fn conflicts_outcome(conflicts: &Vec<String>) -> (res: Result<(), String>)
    ensures
        conflicts@.len() == 0 ==> res is Ok,
        conflicts@.len() > 0 ==> (res matches Err(m) && m@ == "Sync completed with data conflicts:\n"@
            + joined_lines(conflicts.deep_view())),
{
    if conflicts.len() == 0 {
        return Ok(());
    }
    let ghost cv = conflicts.deep_view();
    let mut joined = to_chars(conflicts[0].as_str());
    let mut i: usize = 1;
    assert(cv.take(1).drop_last() =~= Seq::<Seq<char>>::empty());
    assert(joined@ == joined_lines(cv.take(1)));
    while i < conflicts.len()
        invariant
            1 <= i <= conflicts.len(),
            cv == conflicts.deep_view(),
            joined@ == joined_lines(cv.take(i as int)),
        decreases conflicts.len() - i,
    {
        assert(cv.take(i + 1).drop_last() =~= cv.take(i as int));
        joined.push('\n');
        append_chars(&mut joined, &to_chars(conflicts[i].as_str()));
        i = i + 1;
    }
    assert(cv.take(conflicts.len() as int) =~= cv);
    let mut m = to_chars("Sync completed with data conflicts:\n");
    append_chars(&mut m, &joined);
    Err(from_chars(&m))
}

// ---------------------------------------------------------------------------
// From a provider's transaction to a new transaction
// ---------------------------------------------------------------------------

/// The IBAN of an optional account.
pub open spec fn account_iban(a: Option<Option<Seq<char>>>) -> Option<Seq<char>> {
    match a {
        Some(iban) => iban,
        None => None,
    }
}

/// A provider's transaction as a new transaction of account
/// `bank_account_id`: the amount, in the notation of Rust's `f64` parser,
/// kept in minor units rounded exactly half away from zero; the booking date
/// rewritten as `YYYY-MM-DD`; the transaction code as the booking text. An
/// amount that is no number is an error.
pub open spec fn transformed(t: TransactionView, bank_account_id: i32) -> Result<NewTransactionView, Seq<char>> {
    match float_minor(t.amount) {
        None => Err("Invalid amount format: '"@ + t.amount + "'"@),
        Some(x) => Ok(
            NewTransactionView {
                booking_text: or_empty(t.bank_transaction_code),
                debtor_name: t.debtor_name,
                debtor_iban: account_iban(t.debtor_account),
                debtor_bic: None,
                creditor_name: t.creditor_name,
                creditor_iban: account_iban(t.creditor_account),
                creditor_bic: None,
                amount_minor: x,
                currency_code: t.currency,
                booking_date: normalized_date(or_empty(t.booking_date)),
                value_date: t.value_date,
                balance_after_minor: t.balance_after_minor,
                mandate_reference: None,
                remittance_information: t.remittance_information_unstructured,
                bank_account_id,
            },
        ),
    }
}

/// Turns a provider's transaction into a new transaction of the account
/// `bank_account_id`.
pub fn transform_transaction(old_trans: &ProviderTransaction, bank_account_id: i32) -> (res: Result<
    NewTransaction,
    String,
>)
    ensures
        match transformed(old_trans@, bank_account_id) {
            Ok(t) => res matches Ok(r) && r@ == t,
            Err(e) => res matches Err(m) && m@ == e,
        },
{
    let amount = to_chars(old_trans.transaction_amount.amount.as_str());
    let amount_minor = match parse_float_minor(&amount) {
        Some(x) => x,
        None => {
            let mut m = to_chars("Invalid amount format: '");
            append_chars(&mut m, &amount);
            append_chars(&mut m, &to_chars("'"));
            return Err(from_chars(&m));
        },
    };
    let debtor_iban = match &old_trans.debtor_account {
        Some(a) => clone_opt_string(&a.iban),
        None => None,
    };
    let creditor_iban = match &old_trans.creditor_account {
        Some(a) => clone_opt_string(&a.iban),
        None => None,
    };
    let booking_date = string_or_empty(&old_trans.booking_date);
    let booking_text = string_or_empty(&old_trans.bank_transaction_code);
    Ok(
        NewTransaction {
            booking_text,
            debtor_name: clone_opt_string(&old_trans.debtor_name),
            debtor_iban,
            debtor_bic: None,
            creditor_name: clone_opt_string(&old_trans.creditor_name),
            creditor_iban,
            creditor_bic: None,
            amount_minor,
            currency_code: old_trans.transaction_amount.currency.clone(),
            booking_date: normalize_date(booking_date.as_str()),
            value_date: clone_opt_string(&old_trans.value_date),
            balance_after_minor: old_trans.balance_after_minor,
            mandate_reference: None,
            remittance_information: clone_opt_string(
                &old_trans.remittance_information_unstructured,
            ),
            bank_account_id,
        },
    )
}

/// The new transactions of a provider's booked transactions, in order; the
/// first that cannot be turned into one ends it with an error.
pub open spec fn transformed_all(booked: Seq<TransactionView>, bank_account_id: i32) -> Result<
    Seq<NewTransactionView>,
    Seq<char>,
>
    decreases booked.len(),
{
    if booked.len() == 0 {
        Ok(Seq::empty())
    } else {
        match transformed_all(booked.drop_last(), bank_account_id) {
            Err(e) => Err(e),
            Ok(a) => match transformed(booked.last(), bank_account_id) {
                Err(e) => Err(e),
                Ok(t) => Ok(a.push(t)),
            },
        }
    }
}

pub open spec fn provider_transactions_view(v: Seq<ProviderTransaction>) -> Seq<TransactionView> {
    Seq::new(v.len(), |i: int| v[i]@)
}

proof fn lemma_transformed_all_err_sticky(booked: Seq<TransactionView>, id: i32, i: int)
    requires
        0 <= i <= booked.len(),
        transformed_all(booked.take(i), id) is Err,
    ensures
        transformed_all(booked, id) == transformed_all(booked.take(i), id),
    decreases booked.len() - i,
{
    if i < booked.len() {
        assert(booked.take(i + 1).drop_last() =~= booked.take(i));
        lemma_transformed_all_err_sticky(booked, id, i + 1);
    } else {
        assert(booked.take(i) =~= booked);
    }
}

/// The new transactions of an account's booked transactions.
pub fn transform_booked(booked: &Vec<ProviderTransaction>, bank_account_id: i32) -> (res: Result<
    Vec<NewTransaction>,
    String,
>)
    ensures
        match transformed_all(provider_transactions_view(booked@), bank_account_id) {
            Ok(v) => res matches Ok(r) && new_transactions_view(r@) == v,
            Err(e) => res matches Err(m) && m@ == "Failed to transform transactions: "@ + e,
        },
{
    let ghost bv = provider_transactions_view(booked@);
    let mut out: Vec<NewTransaction> = Vec::new();
    let mut i: usize = 0;
    assert(bv.take(0) =~= Seq::<TransactionView>::empty());
    assert(new_transactions_view(out@) =~= Seq::<NewTransactionView>::empty());
    while i < booked.len()
        invariant
            i <= booked.len(),
            bv == provider_transactions_view(booked@),
            transformed_all(bv.take(i as int), bank_account_id) == Ok::<
                Seq<NewTransactionView>,
                Seq<char>,
            >(new_transactions_view(out@)),
        decreases booked.len() - i,
    {
        assert(bv.take(i + 1).drop_last() =~= bv.take(i as int));
        assert(bv[i as int] == booked[i as int]@);
        match transform_transaction(&booked[i], bank_account_id) {
            Ok(t) => {
                let ghost prev = out@;
                out.push(t);
                assert(new_transactions_view(out@) =~= new_transactions_view(prev).push(t@));
            },
            Err(e) => {
                proof {
                    lemma_transformed_all_err_sticky(bv, bank_account_id, i + 1);
                }
                let mut m = to_chars("Failed to transform transactions: ");
                append_chars(&mut m, &to_chars(e.as_str()));
                return Err(from_chars(&m));
            },
        }
        i = i + 1;
    }
    assert(bv.take(booked.len() as int) =~= bv);
    Ok(out)
}

// ---------------------------------------------------------------------------
// Laws
// ---------------------------------------------------------------------------

/// Two transactions conflict exactly where their amounts in minor units
/// differ, whatever their signs, or their currencies differ.
pub proof fn lemma_conflict_exactly_on_difference(
    stored_amount: i32,
    stored_currency: Seq<char>,
    incoming_amount: i32,
    incoming_currency: Seq<char>,
)
    ensures
        conflict_message(stored_amount, stored_currency, incoming_amount, incoming_currency) is None
            <==> (stored_amount == incoming_amount && stored_currency == incoming_currency),
{
}

/// Converting a provider's booked transactions converts each of them: where
/// it succeeds, the result has one new transaction per booked one, the
/// `i`-th being the conversion of the `i`-th; it succeeds wherever every
/// booked transaction converts, and otherwise fails with the error of the
/// first that does not.
pub proof fn lemma_transform_booked_each(booked: Seq<TransactionView>, bank_account_id: i32)
    ensures
        transformed_all(booked, bank_account_id) matches Ok(v) ==> v.len() == booked.len()
            && forall|i: int|
            0 <= i < booked.len() ==> transformed(#[trigger] booked[i], bank_account_id) == Ok::<
                NewTransactionView,
                Seq<char>,
            >(v[i]),
        (forall|i: int| 0 <= i < booked.len() ==> transformed(#[trigger] booked[i], bank_account_id) is Ok)
            ==> transformed_all(booked, bank_account_id) is Ok,
        transformed_all(booked, bank_account_id) matches Err(e) ==> exists|k: int|
            0 <= k < booked.len() && transformed(#[trigger] booked[k], bank_account_id) == Err::<
                NewTransactionView,
                Seq<char>,
            >(e) && forall|j: int|
                0 <= j < k ==> transformed(#[trigger] booked[j], bank_account_id) is Ok,
    decreases booked.len(),
{
    if booked.len() > 0 {
        let front = booked.drop_last();
        lemma_transform_booked_each(front, bank_account_id);
        assert forall|i: int| 0 <= i < front.len() implies front[i] == booked[i] by {}
        match transformed_all(booked, bank_account_id) {
            Ok(v) => {
                let a = match transformed_all(front, bank_account_id) {
                    Ok(a) => a,
                    Err(_) => Seq::empty(),
                };
                assert forall|i: int| 0 <= i < booked.len() implies transformed(
                    #[trigger] booked[i],
                    bank_account_id,
                ) == Ok::<NewTransactionView, Seq<char>>(v[i]) by {
                    if i < front.len() {
                        assert(front[i] == booked[i]);
                        assert(v[i] == a[i]);
                    }
                }
            },
            Err(e) => {
                match transformed_all(front, bank_account_id) {
                    Err(e1) => {
                        let k = choose|k: int|
                            0 <= k < front.len() && transformed(#[trigger] front[k], bank_account_id)
                                == Err::<NewTransactionView, Seq<char>>(e1) && forall|j: int|
                                0 <= j < k ==> transformed(#[trigger] front[j], bank_account_id) is Ok;
                        assert(front[k] == booked[k]);
                        assert forall|j: int| 0 <= j < k implies transformed(
                            #[trigger] booked[j],
                            bank_account_id,
                        ) is Ok by {
                            assert(front[j] == booked[j]);
                        }
                    },
                    Ok(_) => {
                        let k = booked.len() - 1;
                        assert forall|j: int| 0 <= j < k implies transformed(
                            #[trigger] booked[j],
                            bank_account_id,
                        ) is Ok by {
                            assert(front[j] == booked[j]);
                        }
                        assert(transformed(booked[k], bank_account_id) == Err::<
                            NewTransactionView,
                            Seq<char>,
                        >(e));
                    },
                }
            },
        }
        if forall|i: int|
            0 <= i < booked.len() ==> transformed(#[trigger] booked[i], bank_account_id) is Ok {
            assert forall|i: int| 0 <= i < front.len() implies transformed(
                #[trigger] front[i],
                bank_account_id,
            ) is Ok by {
                assert(front[i] == booked[i]);
            }
            assert(transformed(booked[booked.len() - 1], bank_account_id) is Ok);
        }
    }
}

/// A further zero written after the decimal digits of a plain decimal
/// amount (such as `-50.00` for `-50.0`) changes nothing in the new
/// transaction.
pub proof fn lemma_transform_trailing_zero(t: TransactionView, t2: TransactionView, bank_account_id: i32)
    requires
        forall|i: int|
            0 <= i < t.amount.len() ==> is_digit(#[trigger] t.amount[i]) || t.amount[i] == '.'
                || (i == 0 && t.amount[i] == '-'),
        exists|i: int| 0 <= i < t.amount.len() && t.amount[i] == '.',
        float_minor(t.amount) is Some,
        t2.amount == t.amount.push('0'),
        t2.transaction_id == t.transaction_id,
        t2.debtor_name == t.debtor_name,
        t2.creditor_name == t.creditor_name,
        t2.debtor_account == t.debtor_account,
        t2.creditor_account == t.creditor_account,
        t2.currency == t.currency,
        t2.booking_date == t.booking_date,
        t2.value_date == t.value_date,
        t2.remittance_information_unstructured == t.remittance_information_unstructured,
        t2.bank_transaction_code == t.bank_transaction_code,
        t2.balance_after_minor == t.balance_after_minor,
    ensures
        transformed(t2, bank_account_id) == transformed(t, bank_account_id),
        transformed(t, bank_account_id) is Ok,
{
    lemma_float_trailing_zero(t.amount);
}

/// Reporting a parsed transaction as a provider's transaction and turning
/// that back into a new transaction keeps it: the same amount in minor
/// units, currency, texts, IBANs and dates (the booking date normalised
/// once more); only the BICs and the mandate reference, which a provider's
/// transaction does not carry, are dropped, and the account is the one
/// synchronised.
pub proof fn lemma_provider_round_trip(nt: NewTransactionView, bank_account_id: i32)
    ensures
        transformed(provider_transaction_of(nt), bank_account_id) == Ok::<NewTransactionView, Seq<char>>(
            NewTransactionView {
                booking_text: nt.booking_text,
                debtor_name: nt.debtor_name,
                debtor_iban: nt.debtor_iban,
                debtor_bic: None,
                creditor_name: nt.creditor_name,
                creditor_iban: nt.creditor_iban,
                creditor_bic: None,
                amount_minor: nt.amount_minor,
                currency_code: nt.currency_code,
                booking_date: normalized_date(nt.booking_date),
                value_date: nt.value_date,
                balance_after_minor: nt.balance_after_minor,
                mandate_reference: None,
                remittance_information: nt.remittance_information,
                bank_account_id,
            },
        ),
{
    lemma_minor_float_round_trip(nt.amount_minor);
}

/// Where the booking date is already normalised, as the parsers leave it,
/// the round trip through a provider's transaction keeps it unchanged.
pub proof fn lemma_provider_round_trip_keeps_date(nt: NewTransactionView, d: Seq<char>, bank_account_id: i32)
    requires
        nt.booking_date == normalized_date(d),
    ensures
        transformed(provider_transaction_of(nt), bank_account_id) matches Ok(t) && t.booking_date
            == nt.booking_date && t.amount_minor == nt.amount_minor,
{
    lemma_provider_round_trip(nt, bank_account_id);
    lemma_normalize_date_idempotent(d);
}

} // verus!
