//! Conversion between two currencies through the anchor, and the names
//! under which currencies are shown.
use crate::currency_api::{CurrencyApiClient, CurrencyInfo, FetchError};
use crate::rates::Rate;
use crate::table::{CodeTable, Entry};
use crate::text::{join_with, joined, same_text, to_upper, uppercase_of};
use vstd::prelude::*;
use vstd::string::StringExecFns;

verus! {

/// The display names of the supported currencies, by code.
pub type CurrencyNames = CodeTable<String>;

/// The code of the currency against which every rate is expressed.
pub open spec fn anchor_code() -> Seq<char> {
    "USD"@
}

/// The anchor-relative rate of `code`: the unit rate for the anchor itself,
/// whatever `rates` holds, and else what `rates` holds, if anything.
pub open spec fn rate_in(rates: Map<Seq<char>, Rate>, code: Seq<char>) -> Option<Rate> {
    if code == anchor_code() {
        Some(Rate::spec_unit())
    } else if rates.contains_key(code) {
        Some(rates[code])
    } else {
        None
    }
}

/// The rate of a supported currency; a code that is not supported has none.
pub open spec fn known_rate(
    supported: Set<Seq<char>>,
    rates: Map<Seq<char>, Rate>,
    code: Seq<char>,
) -> Option<Rate> {
    if supported.contains(code) {
        rate_in(rates, code)
    } else {
        None
    }
}

/// The name under which `code` is shown: the code itself where the names
/// have no entry for it.
pub open spec fn name_of(names: Map<Seq<char>, String>, code: Seq<char>) -> Seq<char> {
    if names.contains_key(code) {
        names[code]@
    } else {
        code
    }
}

/// A conversion from one currency to another. One unit of the base is
/// `(1 / source_rate) * target_rate` units of the target, in floating
/// point; the two factors are kept as they were looked up.
#[derive(Debug)]
pub struct CurrencyConvertResult {
    pub base_currency: String,
    pub target_currency: String,
    pub source_rate: Rate,
    pub target_rate: Rate,
}

/// What a conversion stands for.
pub ghost struct Conversion {
    pub base: Seq<char>,
    pub target: Seq<char>,
    pub source_rate: Rate,
    pub target_rate: Rate,
}

impl View for CurrencyConvertResult {
    type V = Conversion;

    open spec fn view(&self) -> Conversion {
        Conversion {
            base: self.base_currency@,
            target: self.target_currency@,
            source_rate: self.source_rate,
            target_rate: self.target_rate,
        }
    }
}

/// Why a request was not answered.
#[derive(Debug)]
pub enum ConvertError {
    /// No snapshot could be fetched.
    Fetch(FetchError),
    /// The code is not supported, or the snapshot has no rate for it.
    UnknownCurrency(String),
}

/// What an error stands for.
pub ghost enum Refusal {
    Fetch(FetchError),
    UnknownCurrency(Seq<char>),
}

impl View for ConvertError {
    type V = Refusal;

    open spec fn view(&self) -> Refusal {
        match self {
            ConvertError::Fetch(error) => Refusal::Fetch(*error),
            ConvertError::UnknownCurrency(code) => Refusal::UnknownCurrency(code@),
        }
    }
}

/// Who has to act on an error.
#[derive(Clone, Copy, Debug, PartialEq, Eq, Structural)]
pub enum Fault {
    /// The request named a currency that cannot be converted.
    Caller,
    /// The upstream providers gave no rates.
    Upstream,
}

impl ConvertError {
    /// An unknown currency is an error of the caller's input, which no
    /// later attempt mends; a failed fetch lies upstream.
    pub fn fault(&self) -> (fault: Fault)
        ensures
            fault == (match self@ {
                Refusal::UnknownCurrency(_) => Fault::Caller,
                Refusal::Fetch(_) => Fault::Upstream,
            }),
    {
        match self {
            ConvertError::UnknownCurrency(_) => Fault::Caller,
            ConvertError::Fetch(_) => Fault::Upstream,
        }
    }
}

/// The conversion from `base` to `target`, both canonical: it composes
/// through the anchor, and the first of the two codes without a known rate
/// is the reason where there is none.
pub open spec fn conversion(
    supported: Set<Seq<char>>,
    rates: Map<Seq<char>, Rate>,
    base: Seq<char>,
    target: Seq<char>,
) -> Result<Conversion, Refusal> {
    match (known_rate(supported, rates, base), known_rate(supported, rates, target)) {
        (None, _) => Err(Refusal::UnknownCurrency(base)),
        (Some(_), None) => Err(Refusal::UnknownCurrency(target)),
        (Some(source_rate), Some(target_rate)) => Ok(
            Conversion { base, target, source_rate, target_rate },
        ),
    }
}

/// What a conversion came to.
pub open spec fn converted(outcome: Result<CurrencyConvertResult, ConvertError>) -> Result<
    Conversion,
    Refusal,
> {
    match outcome {
        Ok(result) => Ok(result@),
        Err(error) => Err(error@),
    }
}

/// Converts between currencies and names them.
#[derive(Debug)]
pub struct CurrencyConverter {
    api_client: CurrencyApiClient,
    currency_names: CurrencyNames,
}

impl CurrencyConverter {
    /// The display names by code.
    pub closed spec fn names(&self) -> Map<Seq<char>, String> {
        self.currency_names@
    }

    /// The codes that requests may name.
    pub open spec fn supported(&self) -> Set<Seq<char>> {
        self.names().dom()
    }

    /// A converter for the currencies that `currency_names` names.
    pub fn new(api_client: CurrencyApiClient, currency_names: CurrencyNames) -> (converter: Self)
        ensures
            converter.names() == currency_names@,
            converter.client() == api_client,
    {
        CurrencyConverter { api_client, currency_names }
    }

    /// The client of the upstream providers.
    pub closed spec fn client(&self) -> CurrencyApiClient {
        self.api_client
    }

    /// The client of the upstream providers.
    pub fn api_client(&self) -> (client: &CurrencyApiClient)
        ensures
            *client == self.client(),
    {
        &self.api_client
    }

    /// Whether requests may name `currency_code`.
    pub fn is_supported(&self, currency_code: &String) -> (supported: bool)
        ensures
            supported == self.supported().contains(currency_code@),
    {
        self.currency_names.contains(currency_code.as_str())
    }

    /// The name under which `currency_code` is shown.
    pub fn get_currency_name(&self, currency_code: &String) -> (name: String)
        ensures
            name@ == name_of(self.names(), currency_code@),
    {
        match self.currency_names.get(currency_code.as_str()) {
            Some(name) => name.clone(),
            None => currency_code.clone(),
        }
    }

    /// The anchor-relative rate of `currency_code` in `currency_info`. The
    /// anchor has the unit rate and is not looked up.
    pub fn get_currency_rate(&self, currency_info: &CurrencyInfo, currency_code: &String) -> (rate:
        Option<Rate>)
        ensures
            rate == rate_in(currency_info@.rates, currency_code@),
    {
        if same_text(currency_code.as_str(), "USD") {
            Some(Rate::unit())
        } else {
            match currency_info.currency_rates.get(currency_code.as_str()) {
                Some(rate) => Some(*rate),
                None => None,
            }
        }
    }

    /// The rate of `currency_code` if it is supported and has one.
    fn known_currency_rate(&self, currency_info: &CurrencyInfo, currency_code: &String) -> (rate:
        Option<Rate>)
        ensures
            rate == known_rate(self.supported(), currency_info@.rates, currency_code@),
    {
        if self.is_supported(currency_code) {
            self.get_currency_rate(currency_info, currency_code)
        } else {
            None
        }
    }

    /// Converts between two canonical codes with the rates of
    /// `currency_info`.
    pub fn convert_codes(
        &self,
        currency_info: &CurrencyInfo,
        base_currency: String,
        target_currency: String,
    ) -> (outcome: Result<CurrencyConvertResult, ConvertError>)
        ensures
            converted(outcome) == conversion(
                self.supported(),
                currency_info@.rates,
                base_currency@,
                target_currency@,
            ),
    {
        let source_rate = match self.known_currency_rate(currency_info, &base_currency) {
            Some(rate) => rate,
            None => {
                return Err(ConvertError::UnknownCurrency(base_currency));
            },
        };
        let target_rate = match self.known_currency_rate(currency_info, &target_currency) {
            Some(rate) => rate,
            None => {
                return Err(ConvertError::UnknownCurrency(target_currency));
            },
        };
        Ok(CurrencyConvertResult { base_currency, target_currency, source_rate, target_rate })
    }

    /// Converts between two currencies, named in any case, with the rates of
    /// `currency_info`.
    pub fn convert_currency(
        &self,
        currency_info: &CurrencyInfo,
        base_currency: String,
        target_currency: String,
    ) -> (outcome: Result<CurrencyConvertResult, ConvertError>)
        ensures
            converted(outcome) == conversion(
                self.supported(),
                currency_info@.rates,
                uppercase_of(base_currency@),
                uppercase_of(target_currency@),
            ),
    {
        let base = to_upper(base_currency.as_str());
        let target = to_upper(target_currency.as_str());
        self.convert_codes(currency_info, base, target)
    }
}

/// What a list of results stands for.
pub open spec fn views_of(results: Seq<CurrencyConvertResult>) -> Seq<Conversion> {
    results.map_values(|result: CurrencyConvertResult| result@)
}

/// What a list of conversions came to.
pub open spec fn converted_all(outcome: Result<Vec<CurrencyConvertResult>, ConvertError>) -> Result<
    Seq<Conversion>,
    Refusal,
> {
    match outcome {
        Ok(results) => Ok(views_of(results@)),
        Err(error) => Err(error@),
    }
}

/// The upper-case forms of the codes, in order.
pub open spec fn canonical(codes: Seq<Seq<char>>) -> Seq<Seq<char>> {
    codes.map_values(|code: Seq<char>| uppercase_of(code))
}

/// The conversions from `base` to each target in order, or the reason of
/// the first that fails: nothing is kept of those before it.
pub open spec fn conversions(
    supported: Set<Seq<char>>,
    rates: Map<Seq<char>, Rate>,
    base: Seq<char>,
    targets: Seq<Seq<char>>,
) -> Result<Seq<Conversion>, Refusal>
    decreases targets.len(),
{
    if targets.len() == 0 {
        Ok(Seq::empty())
    } else {
        match conversions(supported, rates, base, targets.drop_last()) {
            Err(refusal) => Err(refusal),
            Ok(done) => match conversion(supported, rates, base, targets.last()) {
                Err(refusal) => Err(refusal),
                Ok(next) => Ok(done.push(next)),
            },
        }
    }
}

/// The first code in order that is not supported.
pub open spec fn first_unsupported(supported: Set<Seq<char>>, codes: Seq<Seq<char>>) -> Option<
    Seq<char>,
>
    decreases codes.len(),
{
    if codes.len() == 0 {
        None
    } else {
        match first_unsupported(supported, codes.drop_last()) {
            Some(code) => Some(code),
            None => if supported.contains(codes.last()) {
                None
            } else {
                Some(codes.last())
            },
        }
    }
}

/// A failure among the first `k` targets is the failure of the whole list.
pub proof fn lemma_first_failure_decides(
    supported: Set<Seq<char>>,
    rates: Map<Seq<char>, Rate>,
    base: Seq<char>,
    targets: Seq<Seq<char>>,
    k: int,
)
    requires
        0 <= k <= targets.len(),
        conversions(supported, rates, base, targets.take(k)) is Err,
    ensures
        conversions(supported, rates, base, targets) == conversions(
            supported,
            rates,
            base,
            targets.take(k),
        ),
    decreases targets.len(),
{
    if k == targets.len() {
        assert(targets.take(k) =~= targets);
    } else {
        assert(targets.drop_last().take(k) =~= targets.take(k));
        lemma_first_failure_decides(supported, rates, base, targets.drop_last(), k);
    }
}

/// Converting a currency with a known rate into itself composes a rate
/// with itself: both factors of the result are that one rate.
pub proof fn lemma_same_currency_same_factors(
    supported: Set<Seq<char>>,
    rates: Map<Seq<char>, Rate>,
    code: Seq<char>,
)
    requires
        known_rate(supported, rates, code) is Some,
    ensures
        conversion(supported, rates, code, code) is Ok,
        conversion(supported, rates, code, code)->Ok_0.source_rate == conversion(
            supported,
            rates,
            code,
            code,
        )->Ok_0.target_rate,
{
}

/// A request that names an unsupported code, as its base or among its
/// targets, fails for an unknown currency whatever the rates are: no
/// snapshot is needed to refuse it.
pub proof fn lemma_unsupported_fails_without_rates(
    supported: Set<Seq<char>>,
    rates: Map<Seq<char>, Rate>,
    base: Seq<char>,
    targets: Seq<Seq<char>>,
)
    requires
        targets.len() > 0,
        first_unsupported(supported, seq![base] + targets) is Some,
    ensures
        conversions(supported, rates, base, targets) is Err,
        conversions(supported, rates, base, targets)->Err_0 is UnknownCurrency,
    decreases targets.len(),
{
    let codes = seq![base] + targets;
    assert(codes.drop_last() =~= seq![base] + targets.drop_last());
    assert(codes.last() == targets.last());
    if targets.len() == 1 {
        assert(codes.drop_last() =~= seq![base]);
        assert(seq![base].drop_last() =~= Seq::<Seq<char>>::empty());
        assert(first_unsupported(supported, Seq::<Seq<char>>::empty()) is None);
        assert(targets.drop_last() =~= Seq::<Seq<char>>::empty());
    } else if first_unsupported(supported, codes.drop_last()) is Some {
        lemma_unsupported_fails_without_rates(supported, rates, base, targets.drop_last());
    } else {
        lemma_failures_are_unknown_currencies(supported, rates, base, targets.drop_last());
    }
}

/// A list of conversions fails for no other reason than an unknown currency.
pub proof fn lemma_failures_are_unknown_currencies(
    supported: Set<Seq<char>>,
    rates: Map<Seq<char>, Rate>,
    base: Seq<char>,
    targets: Seq<Seq<char>>,
)
    ensures
        conversions(supported, rates, base, targets) is Err ==> conversions(
            supported,
            rates,
            base,
            targets,
        )->Err_0 is UnknownCurrency,
    decreases targets.len(),
{
    if targets.len() > 0 {
        lemma_failures_are_unknown_currencies(supported, rates, base, targets.drop_last());
    }
}

/// The code in upper case: the form under which currencies are looked up.
pub fn canonical_code(code: &str) -> (upper: String)
    ensures
        upper@ == uppercase_of(code@),
{
    to_upper(code)
}

/// The codes in upper case, in order.
pub fn canonical_codes(codes: &Vec<String>) -> (upper: Vec<String>)
    ensures
        upper.deep_view() == canonical(codes.deep_view()),
{
    let n = codes.len();
    let mut upper: Vec<String> = Vec::with_capacity(n);
    let mut i: usize = 0;
    while i < n
        invariant
            n == codes@.len(),
            i <= n,
            upper.deep_view() == canonical(codes.deep_view().take(i as int)),
        decreases n - i,
    {
        let ghost before = upper.deep_view();
        upper.push(to_upper(codes[i].as_str()));
        proof {
            assert(upper.deep_view() =~= before.push(uppercase_of(codes@[i as int]@)));
            assert(canonical(codes.deep_view().take(i + 1)) =~= before.push(
                uppercase_of(codes@[i as int]@),
            ));
        }
        i += 1;
    }
    proof {
        assert(codes.deep_view().take(n as int) =~= codes.deep_view());
    }
    upper
}

impl CurrencyConverter {
    /// Converts from one canonical code to each of the canonical targets in
    /// order and stops at the first that fails.
    pub fn convert_all_codes(
        &self,
        currency_info: &CurrencyInfo,
        base_currency: String,
        target_currencies: Vec<String>,
    ) -> (outcome: Result<Vec<CurrencyConvertResult>, ConvertError>)
        ensures
            converted_all(outcome) == conversions(
                self.supported(),
                currency_info@.rates,
                base_currency@,
                target_currencies.deep_view(),
            ),
    {
        let ghost targets = target_currencies.deep_view();
        let n = target_currencies.len();
        let mut results: Vec<CurrencyConvertResult> = Vec::with_capacity(n);
        let mut i: usize = 0;
        proof {
            assert(targets.take(0) =~= Seq::<Seq<char>>::empty());
            assert(views_of(results@) =~= Seq::<Conversion>::empty());
        }
        while i < n
            invariant
                n == target_currencies@.len(),
                targets == target_currencies.deep_view(),
                i <= n,
                conversions(
                    self.supported(),
                    currency_info@.rates,
                    base_currency@,
                    targets.take(i as int),
                ) == Ok::<Seq<Conversion>, Refusal>(views_of(results@)),
            decreases n - i,
        {
            let ghost done = views_of(results@);
            proof {
                let upto = targets.take(i + 1);
                assert(upto.drop_last() =~= targets.take(i as int));
                assert(upto.last() == target_currencies@[i as int]@);
            }
            match self.convert_codes(
                currency_info,
                base_currency.clone(),
                target_currencies[i].clone(),
            ) {
                Ok(result) => {
                    results.push(result);
                    proof {
                        assert(views_of(results@) =~= done.push(result@));
                    }
                },
                Err(error) => {
                    proof {
                        lemma_first_failure_decides(
                            self.supported(),
                            currency_info@.rates,
                            base_currency@,
                            targets,
                            i + 1,
                        );
                    }
                    return Err(error);
                },
            }
            i += 1;
        }
        proof {
            assert(targets.take(n as int) =~= targets);
        }
        Ok(results)
    }

    /// Converts from one currency to each of the targets in order, codes in
    /// any case, and stops at the first that fails.
    pub fn convert_currencies(
        &self,
        currency_info: &CurrencyInfo,
        base_currency: String,
        target_currencies: Vec<String>,
    ) -> (outcome: Result<Vec<CurrencyConvertResult>, ConvertError>)
        ensures
            converted_all(outcome) == conversions(
                self.supported(),
                currency_info@.rates,
                uppercase_of(base_currency@),
                canonical(target_currencies.deep_view()),
            ),
    {
        let base = to_upper(base_currency.as_str());
        let targets = canonical_codes(&target_currencies);
        self.convert_all_codes(currency_info, base, targets)
    }

    /// Looks for a canonical code that is not supported, the base first and
    /// then the targets in order.
    pub fn check_codes(&self, base_currency: &String, target_currencies: &Vec<String>) -> (checked:
        Result<(), ConvertError>)
        ensures
            match first_unsupported(
                self.supported(),
                seq![base_currency@] + target_currencies.deep_view(),
            ) {
                Some(code) => checked is Err && checked->Err_0@ == Refusal::UnknownCurrency(code),
                None => checked is Ok,
            },
    {
        let ghost codes = seq![base_currency@] + target_currencies.deep_view();
        proof {
            let first = codes.take(1);
            assert(first.drop_last() =~= Seq::<Seq<char>>::empty());
            assert(first.last() == base_currency@);
            assert(first_unsupported(self.supported(), first.drop_last()) is None);
        }
        if !self.is_supported(base_currency) {
            proof {
                lemma_first_unsupported_decides(self.supported(), codes, 1);
            }
            return Err(ConvertError::UnknownCurrency(base_currency.clone()));
        }
        let n = target_currencies.len();
        let mut i: usize = 0;
        while i < n
            invariant
                n == target_currencies@.len(),
                codes == seq![base_currency@] + target_currencies.deep_view(),
                i <= n,
                first_unsupported(self.supported(), codes.take(i + 1)) is None,
            decreases n - i,
        {
            proof {
                let upto = codes.take(i + 2);
                assert(upto.drop_last() =~= codes.take(i + 1));
                assert(upto.last() == target_currencies@[i as int]@);
            }
            if !self.is_supported(&target_currencies[i]) {
                proof {
                    lemma_first_unsupported_decides(self.supported(), codes, i + 2);
                }
                return Err(ConvertError::UnknownCurrency(target_currencies[i].clone()));
            }
            i += 1;
        }
        proof {
            assert(codes.take(n + 1) =~= codes);
        }
        Ok(())
    }

    /// Looks for a code that is not supported, codes in any case, the base
    /// first and then the targets in order. A request that fails here
    /// fails whatever the rates are, and needs no snapshot.
    pub fn check_request(&self, base_currency: &String, target_currencies: &Vec<String>) -> (checked:
        Result<(), ConvertError>)
        ensures
            match first_unsupported(
                self.supported(),
                seq![uppercase_of(base_currency@)] + canonical(target_currencies.deep_view()),
            ) {
                Some(code) => checked is Err && checked->Err_0@ == Refusal::UnknownCurrency(code),
                None => checked is Ok,
            },
    {
        let base = to_upper(base_currency.as_str());
        let targets = canonical_codes(target_currencies);
        self.check_codes(&base, &targets)
    }
}

/// An unsupported code among the first `k` codes is the first of the whole
/// list.
pub proof fn lemma_first_unsupported_decides(
    supported: Set<Seq<char>>,
    codes: Seq<Seq<char>>,
    k: int,
)
    requires
        0 <= k <= codes.len(),
        first_unsupported(supported, codes.take(k)) is Some,
    ensures
        first_unsupported(supported, codes) == first_unsupported(supported, codes.take(k)),
    decreases codes.len(),
{
    if k == codes.len() {
        assert(codes.take(k) =~= codes);
    } else {
        assert(codes.drop_last().take(k) =~= codes.take(k));
        lemma_first_unsupported_decides(supported, codes.drop_last(), k);
    }
}

/// The codes of `entries`, in order, for which `names` has no entry.
pub open spec fn unnamed_codes(entries: Seq<Entry<Rate>>, names: Set<Seq<char>>) -> Seq<Seq<char>>
    decreases entries.len(),
{
    if entries.len() == 0 {
        Seq::empty()
    } else {
        let earlier = unnamed_codes(entries.drop_last(), names);
        if names.contains(entries.last().code@) {
            earlier
        } else {
            earlier.push(entries.last().code@)
        }
    }
}

/// The line that reports the given codes as unknown.
pub open spec fn unknown_report(codes: Seq<Seq<char>>) -> Seq<char> {
    "Unknown currencies: "@ + joined(codes, ", "@)
}

impl CurrencyConverter {
    /// The codes that `currency_info` has a rate for and that have no
    /// display name, in the order of its listing.
    pub fn unknown_currency_codes(&self, currency_info: &CurrencyInfo) -> (codes: Vec<String>)
        ensures
            codes.deep_view() == unnamed_codes(
                currency_info.currency_rates.listing(),
                self.supported(),
            ),
    {
        let entries = currency_info.currency_rates.entries();
        let n = entries.len();
        let mut codes: Vec<String> = Vec::new();
        let mut i: usize = 0;
        proof {
            assert(entries@.take(0) =~= Seq::<Entry<Rate>>::empty());
            assert(codes.deep_view() =~= Seq::<Seq<char>>::empty());
        }
        while i < n
            invariant
                n == entries@.len(),
                i <= n,
                codes.deep_view() == unnamed_codes(entries@.take(i as int), self.supported()),
            decreases n - i,
        {
            let ghost before = codes.deep_view();
            proof {
                let upto = entries@.take(i + 1);
                assert(upto.drop_last() =~= entries@.take(i as int));
                assert(upto.last() == entries@[i as int]);
            }
            if !self.is_supported(&entries[i].code) {
                codes.push(entries[i].code.clone());
                proof {
                    assert(codes.deep_view() =~= before.push(entries@[i as int].code@));
                }
            }
            i += 1;
        }
        proof {
            assert(entries@.take(n as int) =~= entries@);
        }
        codes
    }

    /// One line that lists the codes of `currency_info` without a display
    /// name, separated by commas.
    pub fn unknown_currencies_report(&self, currency_info: &CurrencyInfo) -> (line: String)
        ensures
            line@ == unknown_report(
                unnamed_codes(currency_info.currency_rates.listing(), self.supported()),
            ),
    {
        let codes = self.unknown_currency_codes(currency_info);
        let listed = join_with(&codes, ", ");
        String::from_str("Unknown currencies: ").concat(listed.as_str())
    }
}

} // verus!
