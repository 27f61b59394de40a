use currency_rates::currency_api::{CurrencyApiClient, FetchError, FetchFailure, Provider};
use currency_rates::currency_convert::{ConvertError, CurrencyConverter, CurrencyNames};
use currency_rates::status::{
    clean_pieces, default_targets, format_currency_response, requested_targets, select_targets,
    status_line, RenderedRate, MAX_TARGETS,
};
use currency_rates::text::{split_text, trim_text};

fn s(text: &str) -> String {
    text.to_string()
}

fn strings(texts: &[&str]) -> Vec<String> {
    texts.iter().map(|t| t.to_string()).collect()
}

fn converter() -> CurrencyConverter {
    let mut names = CurrencyNames::new();
    names.insert_if_absent(s("USD"), s("United States Dollar"));
    names.insert_if_absent(s("EUR"), s("Euro"));
    names.insert_if_absent(s("TRY"), s("Turkish Lira"));
    CurrencyConverter::new(CurrencyApiClient::new(s("ff"), s("xe")), names)
}

fn rendered(rate: f64, target: &str) -> RenderedRate {
    RenderedRate { rate: format!("{:.15}", rate), target_currency: s(target) }
}

#[test]
fn split_keeps_empty_pieces() {
    assert_eq!(split_text("a,b", ','), strings(&["a", "b"]));
    assert_eq!(split_text("", ','), strings(&[""]));
    assert_eq!(split_text(",", ','), strings(&["", ""]));
    assert_eq!(split_text("a,,b,", ','), strings(&["a", "", "b", ""]));
    assert_eq!(split_text("no separator", ','), strings(&["no separator"]));
    assert_eq!(split_text("é,ü", ','), strings(&["é", "ü"]));
}

#[test]
fn split_agrees_with_the_standard_library() {
    for text in ["", ",", "eur, usd", ",,x,", "a,b,c,d", " ,\t, "] {
        let expected: Vec<String> = text.split(',').map(|p| p.to_string()).collect();
        assert_eq!(split_text(text, ','), expected);
    }
}

#[test]
fn trim_removes_white_space_at_both_ends_only() {
    assert_eq!(trim_text("  eur "), "eur");
    assert_eq!(trim_text("\t e u r\n"), "e u r");
    assert_eq!(trim_text("eur"), "eur");
    assert_eq!(trim_text("   "), "");
    assert_eq!(trim_text(""), "");
    assert_eq!(trim_text("\u{3000}x\u{a0}"), "x");
}

#[test]
fn trim_agrees_with_the_standard_library() {
    for text in ["", " ", " a", "a ", " a b ", "\r\n\tx y\u{2003}", "\u{200b}"] {
        assert_eq!(trim_text(text), text.trim());
    }
}

#[test]
fn pieces_are_trimmed_and_upper_cased() {
    assert_eq!(
        clean_pieces(&strings(&[" eur", "Usd ", "\ttry\n", ""])),
        strings(&["EUR", "USD", "TRY", ""])
    );
}

#[test]
fn targets_are_distinct_and_at_most_three() {
    assert_eq!(MAX_TARGETS, 3);
    assert_eq!(
        select_targets(strings(&["EUR", "USD", "EUR", "TRY", "GBP"])),
        strings(&["EUR", "USD", "TRY"])
    );
    assert_eq!(select_targets(strings(&["EUR", "EUR", "EUR"])), strings(&["EUR"]));
    assert_eq!(select_targets(strings(&["A", "B", "C"])), strings(&["A", "B", "C"]));
    assert_eq!(select_targets(strings(&["A", "B", "C", "D"])), strings(&["A", "B", "C"]));
    assert_eq!(select_targets(Vec::new()), Vec::<String>::new());
}

#[test]
fn requested_targets_are_parsed_from_a_list() {
    assert_eq!(requested_targets("eur,usd"), strings(&["EUR", "USD"]));
    assert_eq!(requested_targets(" eur , Usd,EUR ,try,gbp"), strings(&["EUR", "USD", "TRY"]));
    assert_eq!(requested_targets("eur"), strings(&["EUR"]));
    assert_eq!(requested_targets(""), strings(&[""]));
    assert_eq!(requested_targets("eur,,usd"), strings(&["EUR", "", "USD"]));
    assert_eq!(requested_targets("a,b,c,d,e"), strings(&["A", "B", "C"]));
}

#[test]
fn duplicates_that_differ_in_case_or_space_count_once() {
    assert_eq!(requested_targets("eur, EUR,Eur ,usd"), strings(&["EUR", "USD"]));
}

#[test]
fn default_targets_are_euro_and_dollar() {
    assert_eq!(default_targets(), strings(&["EUR", "USD"]));
}

#[test]
fn status_line_names_base_and_targets() {
    let line = status_line(
        &converter(),
        &s("TRY"),
        &vec![rendered(0.03065, "EUR"), rendered(0.03353, "USD")],
    );
    assert_eq!(
        line,
        "1 Turkish Lira is equal to 0.030650000000000 Euro, 0.033530000000000 United States Dollar"
    );
}

#[test]
fn status_line_with_one_rate_has_no_separator() {
    let line = status_line(&converter(), &s("USD"), &vec![rendered(28.0, "TRY")]);
    assert_eq!(line, "1 United States Dollar is equal to 28.000000000000000 Turkish Lira");
}

#[test]
fn status_line_falls_back_to_codes() {
    let line = status_line(
        &converter(),
        &s("XAU"),
        &vec![rendered(1.5, "XAG"), rendered(2.0, "EUR"), rendered(3.0, "ZZZ")],
    );
    assert_eq!(
        line,
        "1 XAU is equal to 1.500000000000000 XAG, 2.000000000000000 Euro, 3.000000000000000 ZZZ"
    );
}

#[test]
fn status_line_without_rates() {
    assert_eq!(status_line(&converter(), &s("EUR"), &Vec::new()), "1 Euro is equal to ");
}

#[test]
fn response_for_success_is_the_status_line() {
    let text =
        format_currency_response(&converter(), &s("USD"), &Ok(vec![rendered(0.9, "EUR")]));
    assert_eq!(text, "1 United States Dollar is equal to 0.900000000000000 Euro");
}

#[test]
fn response_for_any_failure_is_one_fixed_line() {
    let unknown = Err(ConvertError::UnknownCurrency(s("ZZZ")));
    assert_eq!(
        format_currency_response(&converter(), &s("ZZZ"), &unknown),
        "Unable to provide info about requested currencies"
    );
    let fetch = Err(ConvertError::Fetch(FetchError {
        provider: Provider::FastForex,
        failure: FetchFailure::Undecodable,
    }));
    assert_eq!(
        format_currency_response(&converter(), &s("USD"), &fetch),
        "Unable to provide info about requested currencies"
    );
}
