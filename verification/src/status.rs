//! The plain-text status of one currency: which targets a request asks
//! for, and the line that answers it.
use crate::currency_convert::{name_of, ConvertError, CurrencyConverter};
use crate::text::{
    first_occurrences, join_with, joined, split_on, split_text, to_upper, trim_text, trimmed_of,
    unique_in_order, uppercase_of,
};
use vstd::prelude::*;
use vstd::string::StringExecFns;

verus! {

/// How many targets one request may name; further ones are ignored.
pub const MAX_TARGETS: usize = 3;

/// The targets of a request that names none.
pub open spec fn standard_targets() -> Seq<Seq<char>> {
    seq!["EUR"@, "USD"@]
}

/// The first `n` items, or all of them where there are fewer.
pub open spec fn leading(items: Seq<Seq<char>>, n: nat) -> Seq<Seq<char>> {
    if items.len() <= n {
        items
    } else {
        items.take(n as int)
    }
}

/// Each piece without the white space around it and in upper case.
pub open spec fn cleaned(pieces: Seq<Seq<char>>) -> Seq<Seq<char>> {
    pieces.map_values(|piece: Seq<char>| uppercase_of(trimmed_of(piece)))
}

/// The targets of a request that names none: the euro and the anchor.
pub fn default_targets() -> (targets: Vec<String>)
    ensures
        targets.deep_view() == standard_targets(),
{
    let mut targets: Vec<String> = Vec::new();
    targets.push(String::from_str("EUR"));
    targets.push(String::from_str("USD"));
    proof {
        assert(targets.deep_view() =~= standard_targets());
    }
    targets
}

/// Each piece without the white space around it and in upper case.
pub fn clean_pieces(pieces: &Vec<String>) -> (codes: Vec<String>)
    ensures
        codes.deep_view() == cleaned(pieces.deep_view()),
{
    let n = pieces.len();
    let mut codes: Vec<String> = Vec::with_capacity(n);
    let mut i: usize = 0;
    while i < n
        invariant
            n == pieces@.len(),
            i <= n,
            codes.deep_view() == cleaned(pieces.deep_view().take(i as int)),
        decreases n - i,
    {
        let ghost before = codes.deep_view();
        let ghost code = uppercase_of(trimmed_of(pieces@[i as int]@));
        codes.push(to_upper(trim_text(pieces[i].as_str())));
        proof {
            assert(codes.deep_view() =~= before.push(code));
            assert(cleaned(pieces.deep_view().take(i + 1)) =~= before.push(code));
        }
        i += 1;
    }
    proof {
        assert(pieces.deep_view().take(n as int) =~= pieces.deep_view());
    }
    codes
}

/// The targets among the candidates: each once, in the order of first
/// occurrence, and no more than the limit.
pub fn select_targets(candidates: Vec<String>) -> (targets: Vec<String>)
    ensures
        targets.deep_view() == leading(
            first_occurrences(candidates.deep_view()),
            MAX_TARGETS as nat,
        ),
{
    let mut targets = unique_in_order(candidates);
    let ghost distinct = targets.deep_view();
    if targets.len() > MAX_TARGETS {
        targets.truncate(MAX_TARGETS);
        proof {
            assert(targets.deep_view() =~= distinct.take(MAX_TARGETS as int));
        }
    }
    targets
}

/// The targets that the comma-separated list `raw` asks for.
pub fn requested_targets(raw: &str) -> (targets: Vec<String>)
    ensures
        targets.deep_view() == leading(
            first_occurrences(cleaned(split_on(raw@, ','))),
            MAX_TARGETS as nat,
        ),
{
    let pieces = split_text(raw, ',');
    let codes = clean_pieces(&pieces);
    select_targets(codes)
}

/// One converted rate as it is shown: the rate written out, and the code of
/// the currency it is in.
#[derive(Debug)]
pub struct RenderedRate {
    pub rate: String,
    pub target_currency: String,
}

/// A rate followed by the name of its currency.
pub open spec fn rate_phrase(names: Map<Seq<char>, String>, rendered: RenderedRate) -> Seq<char> {
    rendered.rate@ + " "@ + name_of(names, rendered.target_currency@)
}

/// The phrases of the rates, in order.
pub open spec fn rate_phrases(names: Map<Seq<char>, String>, rates: Seq<RenderedRate>) -> Seq<
    Seq<char>,
> {
    rates.map_values(|rendered: RenderedRate| rate_phrase(names, rendered))
}

/// The line that states what one unit of `base` is worth.
pub open spec fn status_text(
    names: Map<Seq<char>, String>,
    base: Seq<char>,
    rates: Seq<RenderedRate>,
) -> Seq<char> {
    "1 "@ + name_of(names, base) + " is equal to "@ + joined(rate_phrases(names, rates), ", "@)
}

/// The line that answers a request that failed.
pub open spec fn failure_text() -> Seq<char> {
    "Unable to provide info about requested currencies"@
}

/// The line that states what one unit of `base_currency` is worth in each
/// of the rendered rates.
pub fn status_line(
    converter: &CurrencyConverter,
    base_currency: &String,
    rates: &Vec<RenderedRate>,
) -> (line: String)
    ensures
        line@ == status_text(converter.names(), base_currency@, rates@),
{
    let n = rates.len();
    let mut phrases: Vec<String> = Vec::with_capacity(n);
    let mut i: usize = 0;
    while i < n
        invariant
            n == rates@.len(),
            i <= n,
            phrases.deep_view() == rate_phrases(converter.names(), rates@.take(i as int)),
        decreases n - i,
    {
        let ghost before = phrases.deep_view();
        let name = converter.get_currency_name(&rates[i].target_currency);
        let phrase = rates[i].rate.clone().concat(" ").concat(name.as_str());
        phrases.push(phrase);
        proof {
            let added = rate_phrase(converter.names(), rates@[i as int]);
            assert(phrases.deep_view() =~= before.push(added));
            assert(rate_phrases(converter.names(), rates@.take(i + 1)) =~= before.push(added));
        }
        i += 1;
    }
    proof {
        assert(rates@.take(n as int) =~= rates@);
    }
    let base_name = converter.get_currency_name(base_currency);
    let listed = join_with(&phrases, ", ");
    String::from_str("1 ").concat(base_name.as_str()).concat(" is equal to ").concat(
        listed.as_str(),
    )
}

/// The text that answers a status request: the status line where the
/// conversion succeeded, and one fixed line for every failure.
pub fn format_currency_response(
    converter: &CurrencyConverter,
    base_currency: &String,
    convert_results: &Result<Vec<RenderedRate>, ConvertError>,
) -> (text: String)
    ensures
        text@ == (match convert_results {
            Ok(rates) => status_text(converter.names(), base_currency@, rates@),
            Err(_) => failure_text(),
        }),
{
    match convert_results {
        Ok(rates) => status_line(converter, base_currency, rates),
        Err(_) => String::from_str("Unable to provide info about requested currencies"),
    }
}

} // verus!
