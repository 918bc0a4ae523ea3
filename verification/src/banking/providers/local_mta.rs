//! Statements that the user keeps as MT940 files in a data directory.
use vstd::prelude::*;

use std::path::PathBuf;

use crate::banking::providers::gocardless::structs::{
    BankTransactions, CreditorAccount, DebtorAccount, Transaction, TransactionAmount,
    TransactionView, Transactions,
};
use crate::decimal::{minor_to_chars, minor_to_decimal};
use crate::model::{NewTransaction, NewTransactionView};
use crate::text::{chars_eq, from_chars, to_chars};

verus! {

/// `std::path::PathBuf`, declared so that a provider can carry its data
/// directory; nothing is claimed of what a path holds.
#[verifier::external_type_specification]
#[verifier::external_body]
pub struct ExPathBuf(PathBuf);

/// A provider that reads MT940 files below `data_dir`.
pub struct LocalMTA {
    pub data_dir: PathBuf,
}

impl LocalMTA {
    pub fn new(data_dir: PathBuf) -> (res: Self)
        ensures
            res.data_dir == data_dir,
    {
        Self { data_dir }
    }
}

/// How deep below the data directory the directory of an account is looked
/// for.
pub const MAX_SEARCH_DEPTH: usize = 3;

/// What the search for an account's directory does with an entry of a
/// directory it reads.
#[derive(Debug, Clone, Copy, PartialEq, Eq, Structural)]
pub enum SearchStep {
    /// Pass the entry by.
    Skip,
    /// The entry is the account's directory: take every MT940 file below it.
    CollectAll,
    /// Read the entry, a directory, at the given depth.
    Descend { depth: usize },
}

/// The step for an entry found at `depth`: a directory named as the account
/// is collected whole; another directory is searched one level deeper, as
/// long as that stays within `MAX_SEARCH_DEPTH`; anything else is passed by.
/// `name` is the entry's file name where it is valid UTF-8.
pub open spec fn search_step(depth: int, is_dir: bool, name: Option<Seq<char>>, account_id: Seq<char>) -> SearchStep {
    if !is_dir {
        SearchStep::Skip
    } else if name == Some(account_id) {
        SearchStep::CollectAll
    } else if depth + 1 <= MAX_SEARCH_DEPTH {
        SearchStep::Descend { depth: (depth + 1) as usize }
    } else {
        SearchStep::Skip
    }
}

/// Decides what the search for the directory of `account_id` does with an
/// entry found at `depth`.
pub fn search_entry(depth: usize, is_dir: bool, name: Option<&str>, account_id: &str) -> (res: SearchStep)
    ensures
        res == search_step(
            depth as int,
            is_dir,
            match name {
                Some(n) => Some(n@),
                None => None,
            },
            account_id@,
        ),
{
    if !is_dir {
        return SearchStep::Skip;
    }
    let is_account = match name {
        Some(n) => chars_eq(&to_chars(n), &to_chars(account_id)),
        None => false,
    };
    if is_account {
        SearchStep::CollectAll
    } else if depth < MAX_SEARCH_DEPTH {
        SearchStep::Descend { depth: depth + 1 }
    } else {
        SearchStep::Skip
    }
}

/// What collecting the MT940 files below an account's directory does with
/// an entry.
#[derive(Debug, Clone, Copy, PartialEq, Eq, Structural)]
pub enum CollectStep {
    /// Pass the entry by.
    Skip,
    /// The entry is a directory: collect below it too.
    Descend,
    /// The entry is an MT940 file: take it.
    Take,
}

/// The step for an entry: directories are collected below, files with the
/// extension `mta` are taken, the rest is passed by. `extension` is the
/// entry's extension where it has one that is valid UTF-8.
pub open spec fn collect_step(is_dir: bool, is_file: bool, extension: Option<Seq<char>>) -> CollectStep {
    if is_dir {
        CollectStep::Descend
    } else if is_file && extension == Some("mta"@) {
        CollectStep::Take
    } else {
        CollectStep::Skip
    }
}

/// Decides what collecting MT940 files does with an entry.
pub fn collect_entry(is_dir: bool, is_file: bool, extension: Option<&str>) -> (res: CollectStep)
    ensures
        res == collect_step(
            is_dir,
            is_file,
            match extension {
                Some(e) => Some(e@),
                None => None,
            },
        ),
{
    if is_dir {
        return CollectStep::Descend;
    }
    let is_mta = match extension {
        Some(e) => chars_eq(&to_chars(e), &to_chars("mta")),
        None => false,
    };
    if is_file && is_mta {
        CollectStep::Take
    } else {
        CollectStep::Skip
    }
}

/// How a parsed transaction is reported as a provider's transaction: the
/// amount written as a decimal number of major units, the booking text as
/// the transaction code, the IBANs as the accounts.
pub open spec fn provider_transaction_of(nt: NewTransactionView) -> TransactionView {
    TransactionView {
        transaction_id: None,
        debtor_name: nt.debtor_name,
        creditor_name: nt.creditor_name,
        debtor_account: match nt.debtor_iban {
            Some(iban) => Some(Some(iban)),
            None => None,
        },
        creditor_account: match nt.creditor_iban {
            Some(iban) => Some(Some(iban)),
            None => None,
        },
        currency: nt.currency_code,
        amount: minor_to_decimal(nt.amount_minor as int),
        booking_date: Some(nt.booking_date),
        value_date: nt.value_date,
        remittance_information_unstructured: nt.remittance_information,
        bank_transaction_code: Some(nt.booking_text),
        balance_after_minor: nt.balance_after_minor,
    }
}

/// The provider's transaction that reports a parsed transaction.
pub fn to_provider_transaction(nt: NewTransaction) -> (res: Transaction)
    ensures
        res@ == provider_transaction_of(nt@),
        res.booking_date_time is None,
        res.value_date_time is None,
        res.creditor_account matches Some(c) ==> c.bban is None && c.pan is None
            && c.masked_pan is None && c.msisdn is None && c.currency is None,
{
    let amount = from_chars(&minor_to_chars(nt.amount_minor));
    let NewTransaction {
        booking_text,
        debtor_name,
        debtor_iban,
        debtor_bic: _,
        creditor_name,
        creditor_iban,
        creditor_bic: _,
        amount_minor: _,
        currency_code,
        booking_date,
        value_date,
        balance_after_minor,
        mandate_reference: _,
        remittance_information,
        bank_account_id: _,
    } = nt;
    let debtor_account = match debtor_iban {
        Some(iban) => Some(DebtorAccount { iban: Some(iban) }),
        None => None,
    };
    let creditor_account = match creditor_iban {
        Some(iban) => Some(
            CreditorAccount {
                iban: Some(iban),
                bban: None,
                pan: None,
                masked_pan: None,
                msisdn: None,
                currency: None,
            },
        ),
        None => None,
    };
    Transaction {
        transaction_id: None,
        debtor_name,
        creditor_name,
        debtor_account,
        creditor_account,
        transaction_amount: TransactionAmount { currency: currency_code, amount },
        booking_date: Some(booking_date),
        booking_date_time: None,
        value_date,
        value_date_time: None,
        remittance_information_unstructured: remittance_information,
        bank_transaction_code: Some(booking_text),
        balance_after_minor,
    }
}

/// The booked transactions that a list of parsed transactions reports, in
/// order, with nothing pending.
pub fn to_bank_transactions(nts: Vec<NewTransaction>) -> (res: BankTransactions)
    ensures
        res.transactions.booked@.len() == nts@.len(),
        forall|i: int|
            0 <= i < nts@.len() ==> #[trigger] res.transactions.booked@[i]@
                == provider_transaction_of(nts@[i]@),
        forall|i: int|
            0 <= i < nts@.len() ==> #[trigger] res.transactions.booked@[i].booking_date_time is None
                && res.transactions.booked@[i].value_date_time is None,
        forall|i: int|
            0 <= i < nts@.len() ==> ((#[trigger] res.transactions.booked@[i]).creditor_account matches Some(c)
                ==> c.bban is None && c.pan is None && c.masked_pan is None && c.msisdn is None
                && c.currency is None),
        res.transactions.pending@.len() == 0,
{
    let mut booked: Vec<Transaction> = Vec::new();
    let ghost all = nts@;
    for nt in it: nts
        invariant
            booked@.len() == it.index(),
            it.seq() == all,
            forall|j: int|
                0 <= j < it.index() ==> #[trigger] booked@[j]@ == provider_transaction_of(
                    all[j]@,
                ),
            forall|j: int|
                0 <= j < it.index() ==> #[trigger] booked@[j].booking_date_time is None
                    && booked@[j].value_date_time is None,
            forall|j: int|
                0 <= j < it.index() ==> ((#[trigger] booked@[j]).creditor_account matches Some(c)
                    ==> c.bban is None && c.pan is None && c.masked_pan is None && c.msisdn is None
                    && c.currency is None),
    {
        booked.push(to_provider_transaction(nt));
    }
    BankTransactions { transactions: Transactions { booked, pending: Vec::new() } }
}

} // verus!
