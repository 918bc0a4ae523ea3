//! The records that the parsers produce and the synchronisation stores.
use vstd::prelude::*;

verus! {

/// A transaction that is about to be stored for a bank account.
#[derive(Debug, Clone, PartialEq, Eq)]
pub struct NewTransaction {
    pub booking_text: String,
    pub debtor_name: Option<String>,
    pub debtor_iban: Option<String>,
    pub debtor_bic: Option<String>,
    pub creditor_name: Option<String>,
    pub creditor_iban: Option<String>,
    pub creditor_bic: Option<String>,
    pub amount_minor: i32,
    pub currency_code: String,
    pub booking_date: String,
    pub value_date: Option<String>,
    pub balance_after_minor: Option<i32>,
    pub mandate_reference: Option<String>,
    pub remittance_information: Option<String>,
    pub bank_account_id: i32,
}

/// What a `NewTransaction` holds, its texts as character sequences.
pub struct NewTransactionView {
    pub booking_text: Seq<char>,
    pub debtor_name: Option<Seq<char>>,
    pub debtor_iban: Option<Seq<char>>,
    pub debtor_bic: Option<Seq<char>>,
    pub creditor_name: Option<Seq<char>>,
    pub creditor_iban: Option<Seq<char>>,
    pub creditor_bic: Option<Seq<char>>,
    pub amount_minor: i32,
    pub currency_code: Seq<char>,
    pub booking_date: Seq<char>,
    pub value_date: Option<Seq<char>>,
    pub balance_after_minor: Option<i32>,
    pub mandate_reference: Option<Seq<char>>,
    pub remittance_information: Option<Seq<char>>,
    pub bank_account_id: i32,
}

impl View for NewTransaction {
    type V = NewTransactionView;

    open spec fn view(&self) -> NewTransactionView {
        NewTransactionView {
            booking_text: self.booking_text@,
            debtor_name: self.debtor_name.deep_view(),
            debtor_iban: self.debtor_iban.deep_view(),
            debtor_bic: self.debtor_bic.deep_view(),
            creditor_name: self.creditor_name.deep_view(),
            creditor_iban: self.creditor_iban.deep_view(),
            creditor_bic: self.creditor_bic.deep_view(),
            amount_minor: self.amount_minor,
            currency_code: self.currency_code@,
            booking_date: self.booking_date@,
            value_date: self.value_date.deep_view(),
            balance_after_minor: self.balance_after_minor,
            mandate_reference: self.mandate_reference.deep_view(),
            remittance_information: self.remittance_information.deep_view(),
            bank_account_id: self.bank_account_id,
        }
    }
}

/// The views of a list of new transactions.
pub open spec fn new_transactions_view(v: Seq<NewTransaction>) -> Seq<NewTransactionView> {
    Seq::new(v.len(), |i: int| v[i]@)
}

/// A stored transaction.
#[derive(Debug, Clone, PartialEq, Eq)]
pub struct Transaction {
    pub id: i32,
    pub booking_text: String,
    pub debtor_name: Option<String>,
    pub debtor_iban: Option<String>,
    pub debtor_bic: Option<String>,
    pub creditor_name: Option<String>,
    pub creditor_iban: Option<String>,
    pub creditor_bic: Option<String>,
    pub amount_minor: i32,
    pub currency_code: String,
    pub booking_date: String,
    pub value_date: Option<String>,
    pub balance_after_minor: Option<i32>,
    pub mandate_reference: Option<String>,
    pub remittance_information: Option<String>,
    pub bank_account_id: i32,
    pub created_at: String,
    pub updated_at: String,
    pub deleted_at: Option<String>,
}

/// A bank as the front end lists it.
#[derive(Debug, Clone, PartialEq, Eq)]
pub struct BankInfo {
    pub id: String,
    pub name: String,
}

/// The requisition that connecting a bank opens, and the link to follow.
#[derive(Debug, Clone, PartialEq, Eq)]
pub struct BankConnectionInfo {
    pub id: String,
    pub link: String,
}

} // verus!
