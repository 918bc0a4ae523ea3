use youfinance::banking::providers::gocardless::api::{bank_connection_info, bank_info};
use youfinance::banking::providers::gocardless::structs::{AccessToken, Bank, BankConnection, GoCardless};
use youfinance::banking::providers::local_mta::{
    collect_entry, search_entry, CollectStep, LocalMTA, SearchStep,
};
use youfinance::banking::providers::BankingProviders;
use youfinance::banking::utils::{none_if_empty, normalize_date};
use youfinance::decimal::{minor_to_chars, parse_decimal_minor, parse_german_minor};
use youfinance::float_notation::parse_float_minor;

fn chars(s: &str) -> Vec<char> {
    s.chars().collect()
}

#[test]
fn normalize_date_rewrites_german_dates() {
    assert_eq!(normalize_date("30.12.2024"), "2024-12-30");
    assert_eq!(normalize_date("1.2.2024"), "2024-02-01");
    assert_eq!(normalize_date("..2024"), "2024-00-00");
    assert_eq!(normalize_date("2024-12-30"), "2024-12-30");
    assert_eq!(normalize_date("30.12.24"), "30.12.24");
    assert_eq!(normalize_date("300.12.2024"), "300.12.2024");
    assert_eq!(normalize_date("1.2.3.2024"), "1.2.3.2024");
    assert_eq!(normalize_date(""), "");
}

#[test]
fn normalize_date_twice_is_once() {
    for d in ["30.12.2024", "1.2.2024", "x", "2024-01-01", "1.1.1"] {
        let once = normalize_date(d);
        assert_eq!(normalize_date(&once), once);
    }
}

#[test]
fn none_if_empty_drops_blank_text() {
    assert_eq!(none_if_empty(None), None);
    assert_eq!(none_if_empty(Some(String::new())), None);
    assert_eq!(none_if_empty(Some(" \t\u{a0}".to_string())), None);
    assert_eq!(none_if_empty(Some(" a ".to_string())), Some(" a ".to_string()));
}

#[test]
fn decimal_amounts_in_minor_units() {
    assert_eq!(parse_decimal_minor(&chars("-17.49")), Some(-1749));
    assert_eq!(parse_decimal_minor(&chars("+7")), Some(700));
    assert_eq!(parse_decimal_minor(&chars(".25")), Some(25));
    assert_eq!(parse_decimal_minor(&chars("5.")), Some(500));
    assert_eq!(parse_decimal_minor(&chars("0.125")), Some(13));
    assert_eq!(parse_decimal_minor(&chars("-0.125")), Some(-13));
    assert_eq!(parse_decimal_minor(&chars("0.124")), Some(12));
    assert_eq!(parse_decimal_minor(&chars("99999999999")), Some(i32::MAX));
    assert_eq!(parse_decimal_minor(&chars("-99999999999")), Some(i32::MIN));
    assert_eq!(parse_decimal_minor(&chars("-21474836.48")), Some(i32::MIN));
    assert_eq!(parse_decimal_minor(&chars("21474836.47")), Some(i32::MAX));
    assert_eq!(parse_decimal_minor(&chars("")), None);
    assert_eq!(parse_decimal_minor(&chars(".")), None);
    assert_eq!(parse_decimal_minor(&chars("-")), None);
    assert_eq!(parse_decimal_minor(&chars("1.2.3")), None);
    assert_eq!(parse_decimal_minor(&chars("1,5")), None);
    assert_eq!(parse_german_minor(&chars("1.000,50")), Some(100050));
    assert_eq!(parse_german_minor(&chars("-17,49")), Some(-1749));
}

#[test]
fn minor_amounts_written_and_read_back() {
    for n in [0, 1, 10, 100, 4655, -4655, -5, 123456, i32::MAX, i32::MIN] {
        let written = minor_to_chars(n);
        assert_eq!(parse_decimal_minor(&written), Some(n));
    }
    assert_eq!(minor_to_chars(-4655).iter().collect::<String>(), "-46.55");
    assert_eq!(minor_to_chars(0).iter().collect::<String>(), "0");
}

#[test]
fn provider_names_round_trip() {
    for p in [BankingProviders::GoCardless, BankingProviders::LocalCSV, BankingProviders::LocalMTA] {
        assert_eq!(BankingProviders::from_string(&p.to_string()), Some(p));
    }
    assert_eq!(
        BankingProviders::list_providers(),
        vec!["GoCardless".to_string(), "LocalCSV".to_string(), "LocalMTA".to_string()]
    );
    assert_eq!(BankingProviders::from_string("gocardless"), None);
    assert_eq!(BankingProviders::from_string(""), None);
}

#[test]
fn local_mta_keeps_its_directory() {
    let p = std::path::PathBuf::from("/tmp/data");
    assert_eq!(LocalMTA::new(p.clone()).data_dir, p);
}

#[test]
fn gocardless_requests() {
    let mut g = GoCardless::with_credentials("id", "key");
    assert_eq!(g.base_url, "https://bankaccountdata.gocardless.com/api/v2/");
    assert_eq!(g.authorization_value(), Err("Access token not available".to_string()));
    g.access_token = Some(AccessToken {
        access: "abc".to_string(),
        access_expires: 1,
        refresh: "r".to_string(),
        refresh_expires: 2,
    });
    assert_eq!(g.authorization_value(), Ok("Bearer abc".to_string()));
    assert_eq!(g.token_url(), "https://bankaccountdata.gocardless.com/api/v2/token/new/");
    assert_eq!(
        g.institutions_url("DE"),
        "https://bankaccountdata.gocardless.com/api/v2/institutions/?country=DE"
    );
    assert_eq!(g.requisition_url("r1"), "https://bankaccountdata.gocardless.com/api/v2/requisitions/r1/");
    assert_eq!(
        g.account_transactions_url("a1"),
        "https://bankaccountdata.gocardless.com/api/v2/accounts/a1/transactions/"
    );
    assert_eq!(g.requisitions_url(), "https://bankaccountdata.gocardless.com/api/v2/requisitions/");
}

fn connection(id: Option<&str>, link: Option<&str>) -> BankConnection {
    BankConnection {
        id: id.map(String::from),
        created: None,
        redirect: None,
        status: None,
        institution_id: "inst".to_string(),
        agreement: None,
        reference: None,
        accounts: None,
        user_language: None,
        link: link.map(String::from),
        ssn: None,
        account_selection: None,
        redirect_immediate: None,
    }
}

#[test]
fn bank_connection_info_needs_id_and_link() {
    let info = bank_connection_info(connection(Some("r1"), Some("http://l"))).unwrap();
    assert_eq!(info.id, "r1");
    assert_eq!(info.link, "http://l");
    assert_eq!(
        bank_connection_info(connection(None, Some("http://l"))).unwrap_err(),
        "Bank connection ID not provided by provider"
    );
    assert_eq!(
        bank_connection_info(connection(Some("r1"), None)).unwrap_err(),
        "Bank connection link not provided by provider"
    );
    let bank = Bank {
        id: "B1".to_string(),
        name: "Bank".to_string(),
        bic: "X".to_string(),
        transaction_total_days: "90".to_string(),
        countries: vec![],
        logo: String::new(),
    };
    let bi = bank_info(&bank);
    assert_eq!((bi.id.as_str(), bi.name.as_str()), ("B1", "Bank"));
}

#[test]
fn account_directory_search_steps() {
    assert_eq!(search_entry(0, false, Some("DE01"), "DE01"), SearchStep::Skip);
    assert_eq!(search_entry(0, true, Some("DE01"), "DE01"), SearchStep::CollectAll);
    assert_eq!(search_entry(3, true, Some("DE01"), "DE01"), SearchStep::CollectAll);
    assert_eq!(search_entry(0, true, Some("Sparkasse"), "DE01"), SearchStep::Descend { depth: 1 });
    assert_eq!(search_entry(2, true, Some("Sparkasse"), "DE01"), SearchStep::Descend { depth: 3 });
    assert_eq!(search_entry(3, true, Some("Sparkasse"), "DE01"), SearchStep::Skip);
    assert_eq!(search_entry(1, true, None, "DE01"), SearchStep::Descend { depth: 2 });
    assert_eq!(search_entry(0, true, Some("DE012"), "DE01"), SearchStep::Descend { depth: 1 });
}

#[test]
fn statement_file_collect_steps() {
    assert_eq!(collect_entry(true, false, None), CollectStep::Descend);
    assert_eq!(collect_entry(false, true, Some("mta")), CollectStep::Take);
    assert_eq!(collect_entry(false, true, Some("MTA")), CollectStep::Skip);
    assert_eq!(collect_entry(false, true, Some("csv")), CollectStep::Skip);
    assert_eq!(collect_entry(false, true, None), CollectStep::Skip);
    assert_eq!(collect_entry(false, false, Some("mta")), CollectStep::Skip);
}

#[test]
fn float_notation_amounts_in_minor_units() {
    assert_eq!(parse_float_minor(&chars("-46.55")), Some(-4655));
    assert_eq!(parse_float_minor(&chars("1e2")), Some(10000));
    assert_eq!(parse_float_minor(&chars("1.5E-1")), Some(15));
    assert_eq!(parse_float_minor(&chars("-2.5e+1")), Some(-2500));
    assert_eq!(parse_float_minor(&chars(".5e1")), Some(500));
    assert_eq!(parse_float_minor(&chars("5.e0")), Some(500));
    assert_eq!(parse_float_minor(&chars("125e-3")), Some(13));
    assert_eq!(parse_float_minor(&chars("124e-3")), Some(12));
    assert_eq!(parse_float_minor(&chars("1e400")), Some(i32::MAX));
    assert_eq!(parse_float_minor(&chars("-1e400")), Some(i32::MIN));
    assert_eq!(parse_float_minor(&chars("1e-400")), Some(0));
    assert_eq!(parse_float_minor(&chars("0e99999999999999999999999")), Some(0));
    assert_eq!(parse_float_minor(&chars("7e99999999999999999999999")), Some(i32::MAX));
    assert_eq!(parse_float_minor(&chars("inf")), Some(i32::MAX));
    assert_eq!(parse_float_minor(&chars("-Infinity")), Some(i32::MIN));
    assert_eq!(parse_float_minor(&chars("+INF")), Some(i32::MAX));
    assert_eq!(parse_float_minor(&chars("NaN")), Some(0));
    assert_eq!(parse_float_minor(&chars("-nan")), Some(0));
    assert_eq!(parse_float_minor(&chars("infin")), None);
    assert_eq!(parse_float_minor(&chars("1e")), None);
    assert_eq!(parse_float_minor(&chars("1e+")), None);
    assert_eq!(parse_float_minor(&chars("e5")), None);
    assert_eq!(parse_float_minor(&chars(".e5")), None);
    assert_eq!(parse_float_minor(&chars("1e5e5")), None);
    assert_eq!(parse_float_minor(&chars("1.5x")), None);
    assert_eq!(parse_float_minor(&chars("")), None);
    assert_eq!(parse_float_minor(&chars("+-1")), None);
    assert_eq!(parse_german_minor(&chars("1,5E3")), Some(150000));
    assert_eq!(parse_german_minor(&chars("-inf")), Some(i32::MIN));
    for text in ["-46.55", "1e2", "1.5E-1", ".5e1", "125e-3", "inf", "-Infinity", "1e400", "3.25"] {
        let expected = text.parse::<f64>().map(|f| (f * 100.0).round() as i32).ok();
        assert_eq!(parse_float_minor(&chars(text)), expected, "{}", text);
    }
    for text in ["", "1e", "e5", ".", "1.5x", "infin", "+-1"] {
        assert!(text.parse::<f64>().is_err());
        assert_eq!(parse_float_minor(&chars(text)), None, "{}", text);
    }
}

#[test]
fn float_minor_reads_written_amounts() {
    for n in [0, 1, 10, 100, 4655, -4655, -5, 123456, i32::MAX, i32::MIN] {
        assert_eq!(parse_float_minor(&minor_to_chars(n)), Some(n));
    }
}

#[test]
fn minor_amounts_written_as_f64_writes_them() {
    let mut amounts: Vec<i32> = (-20_000..20_000).collect();
    amounts.extend([i32::MAX, i32::MIN, i32::MAX - 1, 123_456_789, -987_654_321, 100_000_001]);
    for n in amounts {
        let written: String = minor_to_chars(n).iter().collect();
        assert_eq!(written, (n as f64 / 100.0).to_string(), "{}", n);
    }
}
