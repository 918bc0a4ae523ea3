//! What the GoCardless client computes around its requests: the addresses
//! it calls, the authorization it sends, and what it keeps of the replies.
use vstd::prelude::*;

use super::structs::{Bank, BankConnection, GoCardless};
use crate::model::{BankConnectionInfo, BankInfo};
use crate::text::{append_chars, from_chars, to_chars};

verus! {

pub open spec fn gocardless_base_url() -> Seq<char> {
    "https://bankaccountdata.gocardless.com/api/v2/"@
}

fn concat2(a: &str, b: &str) -> (res: String)
    ensures
        res@ == a@ + b@,
{
    let mut m = to_chars(a);
    append_chars(&mut m, &to_chars(b));
    from_chars(&m)
}

fn concat3(a: &str, b: &str, c: &str) -> (res: String)
    ensures
        res@ == a@ + b@ + c@,
{
    let mut m = to_chars(a);
    append_chars(&mut m, &to_chars(b));
    append_chars(&mut m, &to_chars(c));
    from_chars(&m)
}

fn concat4(a: &str, b: &str, c: &str, d: &str) -> (res: String)
    ensures
        res@ == a@ + b@ + c@ + d@,
{
    let mut m = to_chars(a);
    append_chars(&mut m, &to_chars(b));
    append_chars(&mut m, &to_chars(c));
    append_chars(&mut m, &to_chars(d));
    from_chars(&m)
}

impl GoCardless {
    /// A client for the given credentials, not yet holding an access token.
    pub fn with_credentials(secret_id: &str, secret_key: &str) -> (res: GoCardless)
        ensures
            res.base_url@ == gocardless_base_url(),
            res.secret_id@ == secret_id@,
            res.secret_key@ == secret_key@,
            res.access_token is None,
    {
        GoCardless {
            base_url: String::from_str("https://bankaccountdata.gocardless.com/api/v2/"),
            secret_id: String::from_str(secret_id),
            secret_key: String::from_str(secret_key),
            access_token: None,
        }
    }

    /// The `Authorization` header value, `Bearer` and the access token; an
    /// error where the client holds no token.
    pub fn authorization_value(&self) -> (res: Result<String, String>)
        ensures
            match &self.access_token {
                Some(t) => res matches Ok(v) && v@ == "Bearer "@ + t.access@,
                None => res matches Err(e) && e@ == "Access token not available"@,
            },
    {
        match &self.access_token {
            Some(t) => Ok(concat2("Bearer ", t.access.as_str())),
            None => Err(String::from_str("Access token not available")),
        }
    }

    /// Where a new access token is requested.
    pub fn token_url(&self) -> (res: String)
        ensures
            res@ == self.base_url@ + "token/new/"@,
    {
        concat2(self.base_url.as_str(), "token/new/")
    }

    /// Where the institutions of a country are listed.
    pub fn institutions_url(&self, country: &str) -> (res: String)
        ensures
            res@ == self.base_url@ + "institutions/?country="@ + country@,
    {
        concat3(self.base_url.as_str(), "institutions/?country=", country)
    }

    /// Where requisitions are created.
    pub fn requisitions_url(&self) -> (res: String)
        ensures
            res@ == self.base_url@ + "requisitions/"@,
    {
        concat2(self.base_url.as_str(), "requisitions/")
    }

    /// Where a requisition is read or deleted.
    pub fn requisition_url(&self, bank_connection_id: &str) -> (res: String)
        ensures
            res@ == self.base_url@ + "requisitions/"@ + bank_connection_id@ + "/"@,
    {
        concat4(self.base_url.as_str(), "requisitions/", bank_connection_id, "/")
    }

    /// Where the transactions of an account are read.
    pub fn account_transactions_url(&self, account_id: &str) -> (res: String)
        ensures
            res@ == self.base_url@ + "accounts/"@ + account_id@ + "/transactions/"@,
    {
        concat4(self.base_url.as_str(), "accounts/", account_id, "/transactions/")
    }
}

/// A bank as the front end lists it: its id and name.
pub fn bank_info(bank: &Bank) -> (res: BankInfo)
    ensures
        res.id@ == bank.id@,
        res.name@ == bank.name@,
{
    BankInfo { id: bank.id.clone(), name: bank.name.clone() }
}

/// The requisition id and link of a new bank connection; an error where the
/// provider gave either of them not.
pub fn bank_connection_info(connection: BankConnection) -> (res: Result<BankConnectionInfo, String>)
    ensures
        match (connection.id, connection.link) {
            (Some(id), Some(link)) => res matches Ok(info) && info.id@ == id@ && info.link@
                == link@,
            (None, _) => res matches Err(e) && e@ == "Bank connection ID not provided by provider"@,
            (Some(_), None) => res matches Err(e) && e@
                == "Bank connection link not provided by provider"@,
        },
{
    let id = match connection.id {
        Some(id) => id,
        None => {
            return Err(String::from_str("Bank connection ID not provided by provider"));
        },
    };
    let link = match connection.link {
        Some(link) => link,
        None => {
            return Err(String::from_str("Bank connection link not provided by provider"));
        },
    };
    Ok(BankConnectionInfo { id, link })
}

} // verus!
