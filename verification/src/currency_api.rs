//! The upstream rate providers: what to ask each of them, and how their
//! replies merge into one snapshot.
use crate::rates::{Rate, RateTable};
use crate::table::{missing_from, Entry};
use vstd::prelude::*;
use vstd::string::StringExecFns;

verus! {

/// Upper bound, in seconds, on one upstream request and on connecting for it.
pub const REQUEST_TIMEOUT_SECS: u64 = 15;

/// The upstream sources.
#[derive(Clone, Copy, Debug, PartialEq, Eq, Structural)]
pub enum Provider {
    /// The primary source: without its rates there is no snapshot.
    FastForex,
    /// A secondary source: it only fills gaps.
    Xe,
}

/// Why a provider contributed nothing.
#[derive(Clone, Copy, Debug, PartialEq, Eq, Structural)]
pub enum FetchFailure {
    /// The request did not complete.
    Unreachable,
    /// The reply could not be read as a table of rates.
    Undecodable,
}

/// A fetch that produced no snapshot, with the provider that caused it.
#[derive(Clone, Copy, Debug, PartialEq, Eq, Structural)]
pub struct FetchError {
    pub provider: Provider,
    pub failure: FetchFailure,
}

/// What one provider answered: its rates, or why there are none.
pub type ProviderReply = Result<RateTable, FetchFailure>;

/// What to send to a provider: the address, and the value of the
/// `Authorization` header where the provider wants one.
#[derive(Debug)]
pub struct ProviderRequest {
    pub url: String,
    pub authorization: Option<String>,
}

/// One merged set of rates together with the time at which it was fetched,
/// in seconds on a monotonic clock.
#[derive(Debug)]
pub struct CurrencyInfo {
    pub timestamp: u64,
    pub currency_rates: RateTable,
}

/// What a snapshot stands for.
pub ghost struct Snapshot {
    pub fetched_at: u64,
    pub rates: Map<Seq<char>, Rate>,
}

impl View for CurrencyInfo {
    type V = Snapshot;

    open spec fn view(&self) -> Snapshot {
        Snapshot { fetched_at: self.timestamp, rates: self.currency_rates@ }
    }
}

impl Clone for CurrencyInfo {
    fn clone(&self) -> (info: Self)
        ensures
            info@ == self@,
            info.currency_rates.listing() == self.currency_rates.listing(),
    {
        CurrencyInfo { timestamp: self.timestamp, currency_rates: self.currency_rates.clone() }
    }
}

/// The providers in the order in which they are asked and merged.
pub open spec fn provider_order() -> Seq<Provider> {
    seq![Provider::FastForex, Provider::Xe]
}

/// The provider that is asked first.
pub open spec fn primary_provider() -> Provider {
    Provider::FastForex
}

/// The address at which FastForex lists every rate against the anchor.
pub open spec fn fastforex_url(token: Seq<char>) -> Seq<char> {
    "https://api.fastforex.io/fetch-all?from=USD&api_key="@ + token
}

/// The address of XE's mid-market rates.
pub open spec fn xe_url() -> Seq<char> {
    "https://www.xe.com/api/protected/midmarket-converter/"@
}

/// The `Authorization` header that XE expects.
pub open spec fn xe_authorization(token: Seq<char>) -> Seq<char> {
    "Basic "@ + token
}

/// The rates that a reply contributes: none where the provider failed.
pub open spec fn contribution(reply: ProviderReply) -> Map<Seq<char>, Rate> {
    match reply {
        Ok(table) => table@,
        Err(_) => Map::empty(),
    }
}

/// The entries that a reply lists: none where the provider failed.
pub open spec fn contributed_entries(reply: ProviderReply) -> Seq<Entry<Rate>> {
    match reply {
        Ok(table) => table.listing(),
        Err(_) => Seq::empty(),
    }
}

/// The primary's rates with the gaps filled from the secondaries, earlier
/// ones first: a later provider never replaces a rate.
pub open spec fn merged_rates(primary: Map<Seq<char>, Rate>, secondaries: Seq<ProviderReply>) -> Map<
    Seq<char>,
    Rate,
>
    decreases secondaries.len(),
{
    if secondaries.len() == 0 {
        primary
    } else {
        contribution(secondaries.last()).union_prefer_right(
            merged_rates(primary, secondaries.drop_last()),
        )
    }
}

/// The entries of the merged rates in the order in which they were taken:
/// the primary's, then of each secondary in turn those that were still
/// missing.
pub open spec fn merged_entries(primary: RateTable, secondaries: Seq<ProviderReply>) -> Seq<
    Entry<Rate>,
>
    decreases secondaries.len(),
{
    if secondaries.len() == 0 {
        primary.listing()
    } else {
        merged_entries(primary, secondaries.drop_last()) + missing_from(
            contributed_entries(secondaries.last()),
            merged_rates(primary@, secondaries.drop_last()),
        )
    }
}

/// What a fetch came to.
pub open spec fn outcome_of(fetched: Result<CurrencyInfo, FetchError>) -> Result<
    Snapshot,
    FetchError,
> {
    match fetched {
        Ok(info) => Ok(info@),
        Err(error) => Err(error),
    }
}

/// What the replies of the providers come to at `now`: the failure of the
/// primary, whatever the secondaries answered, or else the snapshot of the
/// merged rates, stamped `now`.
pub open spec fn fetch_outcome(
    primary: ProviderReply,
    secondaries: Seq<ProviderReply>,
    now: u64,
) -> Result<Snapshot, FetchError> {
    match primary {
        Ok(rates) => Ok(Snapshot { fetched_at: now, rates: merged_rates(rates@, secondaries) }),
        Err(failure) => Err(FetchError { provider: primary_provider(), failure }),
    }
}

/// Some reply among `replies` has a rate for `code`.
pub open spec fn some_supplies(replies: Seq<ProviderReply>, code: Seq<char>) -> bool {
    exists|i: int| 0 <= i < replies.len() && contribution(#[trigger] replies[i]).contains_key(code)
}

/// The access tokens of the upstream providers.
#[derive(Debug)]
pub struct CurrencyApiClient {
    ff_api_token: String,
    xe_api_token: String,
}

impl Clone for CurrencyApiClient {
    fn clone(&self) -> (client: Self)
        ensures
            client == *self,
    {
        CurrencyApiClient {
            ff_api_token: self.ff_api_token.clone(),
            xe_api_token: self.xe_api_token.clone(),
        }
    }
}

impl CurrencyApiClient {
    /// The token presented to FastForex.
    pub closed spec fn ff_token(&self) -> Seq<char> {
        self.ff_api_token@
    }

    /// The token presented to XE.
    pub closed spec fn xe_token(&self) -> Seq<char> {
        self.xe_api_token@
    }

    /// A client that presents the given tokens.
    pub fn new(ff_api_token: String, xe_api_token: String) -> (client: Self)
        ensures
            client.ff_token() == ff_api_token@,
            client.xe_token() == xe_api_token@,
    {
        CurrencyApiClient { ff_api_token, xe_api_token }
    }

    /// The provider that is asked first.
    pub fn primary() -> (provider: Provider)
        ensures
            provider == primary_provider(),
            provider == provider_order()[0],
    {
        Provider::FastForex
    }

    /// The providers that are asked once the primary has answered, in
    /// order: none where it failed, since the fetch has failed with it.
    pub fn secondaries_after(primary: &ProviderReply) -> (providers: Vec<Provider>)
        ensures
            providers@ == (if primary is Ok {
                provider_order().skip(1)
            } else {
                Seq::empty()
            }),
    {
        let mut providers: Vec<Provider> = Vec::new();
        if primary.is_ok() {
            providers.push(Provider::Xe);
        }
        proof {
            if primary is Ok {
                assert(providers@ =~= provider_order().skip(1));
            }
        }
        providers
    }

    /// The request that asks `provider` for its rates against the anchor.
    pub fn request_for(&self, provider: Provider) -> (request: ProviderRequest)
        ensures
            match provider {
                Provider::FastForex => {
                    &&& request.url@ == fastforex_url(self.ff_token())
                    &&& request.authorization is None
                },
                Provider::Xe => {
                    &&& request.url@ == xe_url()
                    &&& request.authorization is Some
                    &&& request.authorization->0@ == xe_authorization(self.xe_token())
                },
            },
    {
        match provider {
            Provider::FastForex => {
                let url = String::from_str(
                    "https://api.fastforex.io/fetch-all?from=USD&api_key=",
                ).concat(self.ff_api_token.as_str());
                ProviderRequest { url, authorization: None }
            },
            Provider::Xe => {
                let url = String::from_str("https://www.xe.com/api/protected/midmarket-converter/");
                let header = String::from_str("Basic ").concat(self.xe_api_token.as_str());
                ProviderRequest { url, authorization: Some(header) }
            },
        }
    }

    /// Merges what the providers answered into the snapshot fetched at `now`.
    ///
    /// Without the primary's rates there is no snapshot, whatever the
    /// secondaries answered. A secondary that failed contributes nothing,
    /// and one that answered only fills gaps.
    pub fn fetch_currencies(
        &self,
        primary: ProviderReply,
        secondaries: Vec<ProviderReply>,
        now: u64,
    ) -> (fetched: Result<CurrencyInfo, FetchError>)
        ensures
            outcome_of(fetched) == fetch_outcome(primary, secondaries@, now),
            fetched is Ok ==> fetched->Ok_0.currency_rates.listing() == merged_entries(
                primary->Ok_0,
                secondaries@,
            ),
    {
        match primary {
            Err(failure) => Err(FetchError { provider: Provider::FastForex, failure }),
            Ok(rates) => {
                let ghost first = rates;
                let mut merged = rates;
                let n = secondaries.len();
                let mut i: usize = 0;
                while i < n
                    invariant
                        n == secondaries@.len(),
                        i <= n,
                        merged@ == merged_rates(first@, secondaries@.take(i as int)),
                        merged.listing() == merged_entries(first, secondaries@.take(i as int)),
                    decreases n - i,
                {
                    proof {
                        let upto = secondaries@.take(i + 1);
                        assert(upto.drop_last() =~= secondaries@.take(i as int));
                        assert(upto.last() == secondaries@[i as int]);
                    }
                    match &secondaries[i] {
                        Ok(rates) => {
                            merged.fill_gaps(rates);
                        },
                        Err(_) => {
                            assert(merged@ =~= Map::<Seq<char>, Rate>::empty().union_prefer_right(
                                merged@,
                            ));
                            assert(merged.listing() =~= merged.listing() + missing_from(
                                Seq::<Entry<Rate>>::empty(),
                                merged@,
                            ));
                        },
                    }
                    i += 1;
                }
                proof {
                    assert(secondaries@.take(n as int) =~= secondaries@);
                }
                Ok(CurrencyInfo { timestamp: now, currency_rates: merged })
            },
        }
    }
}

/// The merged rates hold exactly the codes that the primary or one of the
/// secondaries has.
pub proof fn lemma_merged_codes(
    primary: Map<Seq<char>, Rate>,
    secondaries: Seq<ProviderReply>,
    code: Seq<char>,
)
    ensures
        merged_rates(primary, secondaries).contains_key(code) <==> primary.contains_key(code)
            || some_supplies(secondaries, code),
    decreases secondaries.len(),
{
    if secondaries.len() > 0 {
        let earlier = secondaries.drop_last();
        let last = secondaries.len() - 1;
        lemma_merged_codes(primary, earlier, code);
        if some_supplies(earlier, code) {
            let i = choose|i: int|
                0 <= i < earlier.len() && contribution(#[trigger] earlier[i]).contains_key(code);
            assert(contribution(secondaries[i]).contains_key(code));
        }
        if contribution(secondaries[last]).contains_key(code) {
            assert(some_supplies(secondaries, code));
        }
        if some_supplies(secondaries, code) {
            let i = choose|i: int|
                0 <= i < secondaries.len() && contribution(#[trigger] secondaries[i]).contains_key(
                    code,
                );
            if i < last {
                assert(contribution(earlier[i]).contains_key(code));
            }
        }
    }
}

/// A rate of the primary is never replaced: whatever the secondaries answer,
/// the merged rates give a code of the primary the primary's rate.
pub proof fn lemma_primary_wins(
    primary: Map<Seq<char>, Rate>,
    secondaries: Seq<ProviderReply>,
    code: Seq<char>,
)
    requires
        primary.contains_key(code),
    ensures
        merged_rates(primary, secondaries).contains_key(code),
        merged_rates(primary, secondaries)[code] == primary[code],
    decreases secondaries.len(),
{
    if secondaries.len() > 0 {
        lemma_primary_wins(primary, secondaries.drop_last(), code);
    }
}

/// Where the primary has no rate for a code, the first secondary in order
/// that has one decides it.
pub proof fn lemma_first_secondary_wins(
    primary: Map<Seq<char>, Rate>,
    secondaries: Seq<ProviderReply>,
    code: Seq<char>,
    i: int,
)
    requires
        0 <= i < secondaries.len(),
        !primary.contains_key(code),
        contribution(secondaries[i]).contains_key(code),
        forall|j: int| 0 <= j < i ==> !contribution(#[trigger] secondaries[j]).contains_key(code),
    ensures
        merged_rates(primary, secondaries).contains_key(code),
        merged_rates(primary, secondaries)[code] == contribution(secondaries[i])[code],
    decreases secondaries.len(),
{
    let earlier = secondaries.drop_last();
    if i < earlier.len() {
        assert(earlier[i] == secondaries[i]);
        assert forall|j: int| 0 <= j < i implies !contribution(#[trigger] earlier[j]).contains_key(
            code,
        ) by {
            assert(earlier[j] == secondaries[j]);
        }
        lemma_first_secondary_wins(primary, earlier, code, i);
    } else {
        lemma_merged_codes(primary, earlier, code);
        if some_supplies(earlier, code) {
            let j = choose|j: int|
                0 <= j < earlier.len() && contribution(#[trigger] earlier[j]).contains_key(code);
            assert(earlier[j] == secondaries[j]);
        }
    }
}

} // verus!
