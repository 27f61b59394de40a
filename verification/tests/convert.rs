use currency_rates::currency_api::{
    CurrencyApiClient, CurrencyInfo, FetchError, FetchFailure, Provider,
};
use currency_rates::currency_convert::{
    canonical_codes, ConvertError, CurrencyConvertResult, CurrencyConverter, CurrencyNames, Fault,
};
use currency_rates::rates::{Rate, RateTable};

fn rate(value: f64) -> Rate {
    Rate::from_bits(value.to_bits())
}

fn converter() -> CurrencyConverter {
    let mut names = CurrencyNames::new();
    names.insert_if_absent("USD".to_string(), "United States Dollar".to_string());
    names.insert_if_absent("EUR".to_string(), "Euro".to_string());
    names.insert_if_absent("TRY".to_string(), "Turkish Lira".to_string());
    names.insert_if_absent("GBP".to_string(), "Pound Sterling".to_string());
    CurrencyConverter::new(CurrencyApiClient::new("ff".to_string(), "xe".to_string()), names)
}

fn snapshot() -> CurrencyInfo {
    let mut rates = RateTable::new();
    rates.insert_if_absent("TRY".to_string(), rate(28.0));
    rates.insert_if_absent("EUR".to_string(), rate(0.9));
    rates.insert_if_absent("XAU".to_string(), rate(0.0005));
    CurrencyInfo { timestamp: 0, currency_rates: rates }
}

fn cross_rate(result: &CurrencyConvertResult) -> f64 {
    (1f64 / f64::from_bits(result.source_rate.bits)) * f64::from_bits(result.target_rate.bits)
}

fn unknown(outcome: Result<CurrencyConvertResult, ConvertError>) -> String {
    match outcome {
        Err(ConvertError::UnknownCurrency(code)) => code,
        other => panic!("expected an unknown currency, got {:?}", other),
    }
}

fn s(text: &str) -> String {
    text.to_string()
}

#[test]
fn composed_conversion_goes_through_the_anchor() {
    let result = converter().convert_currency(&snapshot(), s("TRY"), s("EUR")).unwrap();
    assert_eq!(result.base_currency, "TRY");
    assert_eq!(result.target_currency, "EUR");
    assert_eq!(result.source_rate, rate(28.0));
    assert_eq!(result.target_rate, rate(0.9));
    assert!((cross_rate(&result) - 0.032142857).abs() < 1e-9);
    assert_eq!(cross_rate(&result), (1f64 / 28.0) * 0.9);
}

#[test]
fn anchor_has_the_unit_rate_without_lookup() {
    let result = converter().convert_currency(&snapshot(), s("USD"), s("TRY")).unwrap();
    assert_eq!(result.source_rate, Rate::unit());
    assert_eq!(cross_rate(&result), 28.0);
    let back = converter().convert_currency(&snapshot(), s("TRY"), s("USD")).unwrap();
    assert_eq!(back.target_rate, Rate::unit());
    assert_eq!(cross_rate(&back), 1f64 / 28.0);
}

#[test]
fn anchor_rate_ignores_what_the_snapshot_says_of_it() {
    let mut rates = RateTable::new();
    rates.insert_if_absent("USD".to_string(), rate(2.0));
    let info = CurrencyInfo { timestamp: 0, currency_rates: rates };
    assert_eq!(converter().get_currency_rate(&info, &s("USD")), Some(Rate::unit()));
}

#[test]
fn reflexive_conversion_has_rate_one() {
    for code in ["USD", "EUR", "TRY"] {
        let result = converter().convert_currency(&snapshot(), s(code), s(code)).unwrap();
        assert_eq!(result.source_rate, result.target_rate);
        assert!((cross_rate(&result) - 1.0).abs() < 1e-15);
    }
}

#[test]
fn codes_are_canonicalized_before_lookup() {
    let result = converter().convert_currency(&snapshot(), s("try"), s("Eur")).unwrap();
    assert_eq!(result.base_currency, "TRY");
    assert_eq!(result.target_currency, "EUR");
    assert_eq!(result.source_rate, rate(28.0));
    assert_eq!(result.target_rate, rate(0.9));
}

#[test]
fn convert_codes_takes_codes_as_they_are() {
    assert_eq!(unknown(converter().convert_codes(&snapshot(), s("try"), s("EUR"))), "try");
    assert!(converter().convert_codes(&snapshot(), s("TRY"), s("EUR")).is_ok());
}

#[test]
fn unknown_currency_is_reported() {
    assert_eq!(unknown(converter().convert_currency(&snapshot(), s("ZZZ"), s("USD"))), "ZZZ");
    assert_eq!(unknown(converter().convert_currency(&snapshot(), s("USD"), s("zzz"))), "ZZZ");
}

#[test]
fn base_is_reported_before_target() {
    assert_eq!(unknown(converter().convert_currency(&snapshot(), s("AAA"), s("BBB"))), "AAA");
}

#[test]
fn supported_code_without_rate_is_unknown() {
    assert_eq!(unknown(converter().convert_currency(&snapshot(), s("GBP"), s("USD"))), "GBP");
    assert_eq!(unknown(converter().convert_currency(&snapshot(), s("USD"), s("GBP"))), "GBP");
}

#[test]
fn rate_without_support_is_unknown() {
    assert_eq!(converter().get_currency_rate(&snapshot(), &s("XAU")), Some(rate(0.0005)));
    assert_eq!(unknown(converter().convert_currency(&snapshot(), s("XAU"), s("USD"))), "XAU");
}

#[test]
fn get_currency_rate_looks_up_other_codes() {
    assert_eq!(converter().get_currency_rate(&snapshot(), &s("EUR")), Some(rate(0.9)));
    assert_eq!(converter().get_currency_rate(&snapshot(), &s("ZZZ")), None);
    assert_eq!(converter().get_currency_rate(&snapshot(), &s("usd")), None);
}

#[test]
fn convert_many_keeps_the_order_of_targets() {
    let results = converter()
        .convert_currencies(&snapshot(), s("try"), vec![s("eur"), s("USD"), s("TRY")])
        .unwrap();
    let targets: Vec<&str> = results.iter().map(|r| r.target_currency.as_str()).collect();
    assert_eq!(targets, vec!["EUR", "USD", "TRY"]);
    for result in &results {
        assert_eq!(result.base_currency, "TRY");
        assert_eq!(result.source_rate, rate(28.0));
    }
    assert_eq!(results[0].target_rate, rate(0.9));
    assert_eq!(results[1].target_rate, Rate::unit());
    assert_eq!(results[2].target_rate, rate(28.0));
}

#[test]
fn convert_many_stops_at_the_first_failure() {
    let outcome = converter().convert_currencies(
        &snapshot(),
        s("TRY"),
        vec![s("EUR"), s("GBP"), s("ZZZ"), s("USD")],
    );
    match outcome {
        Err(ConvertError::UnknownCurrency(code)) => assert_eq!(code, "GBP"),
        other => panic!("expected an unknown currency, got {:?}", other),
    }
}

#[test]
fn convert_many_without_targets_is_empty() {
    let results = converter().convert_currencies(&snapshot(), s("ZZZ"), Vec::new()).unwrap();
    assert!(results.is_empty());
}

#[test]
fn convert_all_codes_takes_codes_as_they_are() {
    let outcome = converter().convert_all_codes(&snapshot(), s("TRY"), vec![s("EUR"), s("usd")]);
    match outcome {
        Err(ConvertError::UnknownCurrency(code)) => assert_eq!(code, "usd"),
        other => panic!("expected an unknown currency, got {:?}", other),
    }
}

#[test]
fn request_with_unsupported_code_is_refused_without_snapshot() {
    let converter = converter();
    let refused = converter.check_request(&s("zzz"), &vec![s("USD")]);
    match refused {
        Err(ConvertError::UnknownCurrency(code)) => assert_eq!(code, "ZZZ"),
        other => panic!("expected an unknown currency, got {:?}", other),
    }
    let refused = converter.check_request(&s("usd"), &vec![s("eur"), s("qqq"), s("zzz")]);
    match refused {
        Err(ConvertError::UnknownCurrency(code)) => assert_eq!(code, "QQQ"),
        other => panic!("expected an unknown currency, got {:?}", other),
    }
    // Whatever the rates are, such a request fails.
    let empty = CurrencyInfo { timestamp: 0, currency_rates: RateTable::new() };
    assert!(converter.convert_currencies(&empty, s("zzz"), vec![s("USD")]).is_err());
    assert!(converter.convert_currencies(&snapshot(), s("zzz"), vec![s("USD")]).is_err());
}

#[test]
fn request_with_supported_codes_passes_the_check() {
    let converter = converter();
    assert!(converter.check_request(&s("try"), &vec![s("eur"), s("usd")]).is_ok());
    assert!(converter.check_request(&s("GBP"), &Vec::new()).is_ok());
    assert!(converter.check_codes(&s("TRY"), &vec![s("EUR")]).is_ok());
    assert!(converter.check_codes(&s("try"), &vec![s("EUR")]).is_err());
}

#[test]
fn canonical_codes_are_upper_case() {
    assert_eq!(
        canonical_codes(&vec![s("eur"), s("Usd"), s("TRY"), s("")]),
        vec![s("EUR"), s("USD"), s("TRY"), s("")]
    );
}

#[test]
fn name_falls_back_to_the_code() {
    let converter = converter();
    assert_eq!(converter.get_currency_name(&s("TRY")), "Turkish Lira");
    assert_eq!(converter.get_currency_name(&s("ZZZ")), "ZZZ");
    assert_eq!(converter.get_currency_name(&s("try")), "try");
    assert!(converter.is_supported(&s("EUR")));
    assert!(!converter.is_supported(&s("XAU")));
}

#[test]
fn unknown_codes_are_those_without_a_name() {
    let converter = converter();
    assert_eq!(converter.unknown_currency_codes(&snapshot()), vec![s("XAU")]);
    assert_eq!(converter.unknown_currencies_report(&snapshot()), "Unknown currencies: XAU");
    let mut rates = RateTable::new();
    rates.insert_if_absent(s("XAU"), rate(1.0));
    rates.insert_if_absent(s("EUR"), rate(1.0));
    rates.insert_if_absent(s("XAG"), rate(1.0));
    let info = CurrencyInfo { timestamp: 0, currency_rates: rates };
    assert_eq!(converter.unknown_currencies_report(&info), "Unknown currencies: XAU, XAG");
    let none = CurrencyInfo { timestamp: 0, currency_rates: RateTable::new() };
    assert_eq!(converter.unknown_currencies_report(&none), "Unknown currencies: ");
}

#[test]
fn unknown_currency_is_the_callers_fault() {
    assert_eq!(ConvertError::UnknownCurrency(s("ZZZ")).fault(), Fault::Caller);
    let fetch = FetchError { provider: Provider::FastForex, failure: FetchFailure::Unreachable };
    assert_eq!(ConvertError::Fetch(fetch).fault(), Fault::Upstream);
}

#[test]
fn converter_hands_out_its_client() {
    let converter = converter();
    let request = converter.api_client().request_for(Provider::Xe);
    assert_eq!(request.authorization, Some(s("Basic xe")));
}
