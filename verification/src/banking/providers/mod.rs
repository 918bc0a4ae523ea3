//! The providers that bank data comes from.
pub mod gocardless;
pub mod local_mta;

use vstd::prelude::*;

use crate::text::{chars_eq, from_chars, to_chars};
use gocardless::structs::GoCardless;
use local_mta::LocalMTA;

verus! {

/// The kinds of provider that an account can be connected through.
#[derive(Debug, Clone, Copy, PartialEq, Eq, Structural)]
pub enum BankingProviders {
    GoCardless,
    LocalCSV,
    LocalMTA,
}

/// The name under which a provider is stored and shown.
pub open spec fn provider_name(p: BankingProviders) -> Seq<char> {
    match p {
        BankingProviders::GoCardless => "GoCardless"@,
        BankingProviders::LocalCSV => "LocalCSV"@,
        BankingProviders::LocalMTA => "LocalMTA"@,
    }
}

/// The provider of a name, if it names one.
pub open spec fn provider_of_name(s: Seq<char>) -> Option<BankingProviders> {
    if s == "GoCardless"@ {
        Some(BankingProviders::GoCardless)
    } else if s == "LocalCSV"@ {
        Some(BankingProviders::LocalCSV)
    } else if s == "LocalMTA"@ {
        Some(BankingProviders::LocalMTA)
    } else {
        None
    }
}

/// The names of all providers, in the order of the variants.
pub open spec fn provider_names() -> Seq<Seq<char>> {
    seq![
        provider_name(BankingProviders::GoCardless),
        provider_name(BankingProviders::LocalCSV),
        provider_name(BankingProviders::LocalMTA),
    ]
}

impl BankingProviders {
    /// The provider's name.
    pub fn to_string(&self) -> (res: String)
        ensures
            res@ == provider_name(*self),
    {
        match self {
            BankingProviders::GoCardless => String::from_str("GoCardless"),
            BankingProviders::LocalCSV => String::from_str("LocalCSV"),
            BankingProviders::LocalMTA => String::from_str("LocalMTA"),
        }
    }

    /// The names of all providers.
    pub fn list_providers() -> (res: Vec<String>)
        ensures
            res.deep_view() == provider_names(),
    {
        let mut v: Vec<String> = Vec::new();
        v.push(BankingProviders::GoCardless.to_string());
        v.push(BankingProviders::LocalCSV.to_string());
        v.push(BankingProviders::LocalMTA.to_string());
        assert(v.deep_view() =~= provider_names());
        v
    }

    /// The provider that `str` names, if any.
    pub fn from_string(str: &str) -> (res: Option<BankingProviders>)
        ensures
            res == provider_of_name(str@),
    {
        let s = to_chars(str);
        if chars_eq(&s, &to_chars("GoCardless")) {
            Some(BankingProviders::GoCardless)
        } else if chars_eq(&s, &to_chars("LocalCSV")) {
            Some(BankingProviders::LocalCSV)
        } else if chars_eq(&s, &to_chars("LocalMTA")) {
            Some(BankingProviders::LocalMTA)
        } else {
            None
        }
    }
}

/// Reading a provider's name gives the provider back.
pub proof fn lemma_provider_name_round_trip(p: BankingProviders)
    ensures
        provider_of_name(provider_name(p)) == Some(p),
{
    reveal_strlit("GoCardless");
    reveal_strlit("LocalCSV");
    reveal_strlit("LocalMTA");
    assert("GoCardless"@ != "LocalCSV"@) by {
        assert("GoCardless"@[0] != "LocalCSV"@[0]);
    }
    assert("GoCardless"@ != "LocalMTA"@) by {
        assert("GoCardless"@[0] != "LocalMTA"@[0]);
    }
    assert("LocalCSV"@ != "LocalMTA"@) by {
        assert("LocalCSV"@[5] != "LocalMTA"@[5]);
    }
}

/// A name is read as a provider exactly when it is among the listed names,
/// and every provider's name is listed.
pub proof fn lemma_listed_names_are_providers(s: Seq<char>, p: BankingProviders)
    ensures
        provider_of_name(s) is Some <==> provider_names().contains(s),
        provider_names().contains(provider_name(p)),
{
    assert(provider_names()[0] == "GoCardless"@);
    assert(provider_names()[1] == "LocalCSV"@);
    assert(provider_names()[2] == "LocalMTA"@);
    if provider_names().contains(s) {
        let i = choose|i: int| 0 <= i < provider_names().len() && provider_names()[i] == s;
        assert(i == 0 || i == 1 || i == 2);
    }
    if provider_of_name(s) is Some {
        if s == "GoCardless"@ {
            assert(provider_names()[0] == s);
        } else if s == "LocalCSV"@ {
            assert(provider_names()[1] == s);
        } else {
            assert(provider_names()[2] == s);
        }
    }
    match p {
        BankingProviders::GoCardless => assert(provider_names()[0] == provider_name(p)),
        BankingProviders::LocalCSV => assert(provider_names()[1] == provider_name(p)),
        BankingProviders::LocalMTA => assert(provider_names()[2] == provider_name(p)),
    }
}

/// A connected provider.
pub enum ProviderInstance {
    GoCardless(GoCardless),
    LocalMTA(LocalMTA),
}

} // verus!
