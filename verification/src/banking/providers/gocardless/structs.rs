//! The records of the GoCardless Bank Account Data API.
use vstd::prelude::*;

verus! {

/// The tokens that `token/new/` hands out.
#[derive(Debug, Clone, PartialEq, Eq)]
pub struct AccessToken {
    pub access: String,
    pub access_expires: u64,
    pub refresh: String,
    pub refresh_expires: u64,
}

/// An institution that can be connected.
#[derive(Debug, Clone, PartialEq, Eq)]
pub struct Bank {
    pub id: String,
    pub name: String,
    pub bic: String,
    pub transaction_total_days: String,
    pub countries: Vec<String>,
    pub logo: String,
}

#[derive(Debug, Clone, PartialEq, Eq)]
pub struct Status {
    pub short: String,
    pub long: String,
    pub description: String,
}

/// A requisition: the connection of a bank that the user confirms by
/// following `link`.
#[derive(Debug, Clone, PartialEq, Eq)]
pub struct BankConnection {
    pub id: Option<String>,
    pub created: Option<String>,
    pub redirect: Option<String>,
    pub status: Option<String>,
    pub institution_id: String,
    pub agreement: Option<String>,
    pub reference: Option<String>,
    pub accounts: Option<Vec<String>>,
    pub user_language: Option<String>,
    pub link: Option<String>,
    pub ssn: Option<String>,
    pub account_selection: Option<bool>,
    pub redirect_immediate: Option<bool>,
}

#[derive(Debug, Clone, PartialEq, Eq)]
pub struct PaginatedBankConnection {
    pub count: Option<u64>,
    pub next: Option<String>,
    pub previous: Option<String>,
    pub results: Vec<BankConnection>,
}

/// The accounts of a requisition.
#[derive(Debug, Clone, PartialEq, Eq)]
pub struct BankAccounts {
    pub id: String,
    pub status: String,
    pub agreements: Option<String>,
    pub accounts: Vec<String>,
    pub reference: String,
}

/// An amount as a decimal text, with its currency.
#[derive(Debug, Clone, PartialEq, Eq)]
pub struct TransactionAmount {
    pub currency: String,
    pub amount: String,
}

#[derive(Debug, Clone, PartialEq, Eq)]
pub struct DebtorAccount {
    pub iban: Option<String>,
}

#[derive(Debug, Clone, PartialEq, Eq)]
pub struct CreditorAccount {
    pub iban: Option<String>,
    pub bban: Option<String>,
    pub pan: Option<String>,
    pub masked_pan: Option<String>,
    pub msisdn: Option<String>,
    pub currency: Option<String>,
}

/// A transaction as a provider reports it.
#[derive(Debug, Clone, PartialEq, Eq)]
pub struct Transaction {
    pub transaction_id: Option<String>,
    pub debtor_name: Option<String>,
    pub creditor_name: Option<String>,
    pub debtor_account: Option<DebtorAccount>,
    pub creditor_account: Option<CreditorAccount>,
    pub transaction_amount: TransactionAmount,
    pub booking_date: Option<String>,
    pub booking_date_time: Option<String>,
    pub value_date: Option<String>,
    pub value_date_time: Option<String>,
    pub remittance_information_unstructured: Option<String>,
    pub bank_transaction_code: Option<String>,
    pub balance_after_minor: Option<i32>,
}

/// What a provider's `Transaction` holds that the synchronisation reads.
pub struct TransactionView {
    pub transaction_id: Option<Seq<char>>,
    pub debtor_name: Option<Seq<char>>,
    pub creditor_name: Option<Seq<char>>,
    /// `None` without a debtor account, else the account's IBAN.
    pub debtor_account: Option<Option<Seq<char>>>,
    /// `None` without a creditor account, else the account's IBAN.
    pub creditor_account: Option<Option<Seq<char>>>,
    pub currency: Seq<char>,
    pub amount: Seq<char>,
    pub booking_date: Option<Seq<char>>,
    pub value_date: Option<Seq<char>>,
    pub remittance_information_unstructured: Option<Seq<char>>,
    pub bank_transaction_code: Option<Seq<char>>,
    pub balance_after_minor: Option<i32>,
}

impl View for Transaction {
    type V = TransactionView;

    open spec fn view(&self) -> TransactionView {
        TransactionView {
            transaction_id: self.transaction_id.deep_view(),
            debtor_name: self.debtor_name.deep_view(),
            creditor_name: self.creditor_name.deep_view(),
            debtor_account: match self.debtor_account {
                Some(a) => Some(a.iban.deep_view()),
                None => None,
            },
            creditor_account: match self.creditor_account {
                Some(a) => Some(a.iban.deep_view()),
                None => None,
            },
            currency: self.transaction_amount.currency@,
            amount: self.transaction_amount.amount@,
            booking_date: self.booking_date.deep_view(),
            value_date: self.value_date.deep_view(),
            remittance_information_unstructured: self.remittance_information_unstructured.deep_view(),
            bank_transaction_code: self.bank_transaction_code.deep_view(),
            balance_after_minor: self.balance_after_minor,
        }
    }
}

#[derive(Debug, Clone, PartialEq, Eq)]
pub struct Transactions {
    pub booked: Vec<Transaction>,
    pub pending: Vec<Transaction>,
}

#[derive(Debug, Clone, PartialEq, Eq)]
pub struct BankTransactions {
    pub transactions: Transactions,
}

/// The credentials that a GoCardless provider is configured with.
#[derive(Debug, Clone, PartialEq, Eq)]
pub struct GoCardlessConfig {
    pub secret_id: String,
    pub secret_key: String,
}

/// A client of the GoCardless API.
#[derive(Debug)]
pub struct GoCardless {
    pub base_url: String,
    pub secret_id: String,
    pub secret_key: String,
    pub access_token: Option<AccessToken>,
}

} // verus!
