//! The single cached snapshot and the decisions of a reader that wants a
//! fresh one: serve the cached copy, ask for exclusive access, or fetch.
use crate::currency_api::{
    fetch_outcome, outcome_of, CurrencyInfo, FetchError, ProviderReply, Snapshot,
};
use vstd::prelude::*;

verus! {

/// How old, in seconds, a snapshot may be and still be served.
pub const MAX_CACHE_TIME_SECS: u64 = 300;

/// A snapshot is fresh at `now` while its age does not exceed the limit.
/// A clock that reads less than the time of the fetch makes it no older.
pub open spec fn is_fresh(snapshot: Snapshot, now: u64) -> bool {
    now - snapshot.fetched_at <= MAX_CACHE_TIME_SECS
}

/// How a reader holds the slot while it looks at it.
#[derive(Clone, Copy, Debug, PartialEq, Eq, Structural)]
pub enum Access {
    /// Together with other readers.
    Shared,
    /// Alone.
    Exclusive,
}

/// What a reader does after looking at the slot.
#[derive(Debug)]
pub enum ReadStep {
    /// Answer with this copy of the cached snapshot.
    Serve(CurrencyInfo),
    /// Give up shared access, take exclusive access and look again.
    Escalate,
    /// Fetch a new snapshot while holding exclusive access.
    Fetch,
}

/// What a step stands for.
pub ghost enum Decision {
    Serve(Snapshot),
    Escalate,
    Fetch,
}

impl View for ReadStep {
    type V = Decision;

    open spec fn view(&self) -> Decision {
        match self {
            ReadStep::Serve(info) => Decision::Serve(info@),
            ReadStep::Escalate => Decision::Escalate,
            ReadStep::Fetch => Decision::Fetch,
        }
    }
}

/// The step of a reader that finds `slot` at `now`: a fresh snapshot is
/// served under either access; otherwise a shared reader escalates and an
/// exclusive reader fetches.
pub open spec fn decide(slot: Option<Snapshot>, access: Access, now: u64) -> Decision {
    match slot {
        Some(snapshot) if is_fresh(snapshot, now) => Decision::Serve(snapshot),
        _ => match access {
            Access::Shared => Decision::Escalate,
            Access::Exclusive => Decision::Fetch,
        },
    }
}

/// The slot after a fetch: a new snapshot replaces what was there, a failed
/// fetch leaves it as it was.
pub open spec fn after_fetch(slot: Option<Snapshot>, outcome: Result<Snapshot, FetchError>) -> Option<
    Snapshot,
> {
    match outcome {
        Ok(snapshot) => Some(snapshot),
        Err(_) => slot,
    }
}

/// The slot that holds the one live snapshot, if there is one yet.
#[derive(Debug)]
pub struct RateCache {
    slot: Option<CurrencyInfo>,
}

impl View for RateCache {
    type V = Option<Snapshot>;

    closed spec fn view(&self) -> Option<Snapshot> {
        match self.slot {
            Some(info) => Some(info@),
            None => None,
        }
    }
}

impl RateCache {
    /// The empty cache.
    pub fn new() -> (cache: Self)
        ensures
            cache@ is None,
    {
        RateCache { slot: None }
    }

    /// Whether the cache holds a snapshot that is fresh at `now`.
    pub fn is_fresh_at(&self, now: u64) -> (fresh: bool)
        ensures
            fresh == (self@ is Some && is_fresh(self@->0, now)),
    {
        match &self.slot {
            Some(info) => now <= info.timestamp || now - info.timestamp <= MAX_CACHE_TIME_SECS,
            None => false,
        }
    }

    /// The step of a reader that looks at the slot at `now`.
    pub fn check(&self, access: Access, now: u64) -> (step: ReadStep)
        ensures
            step@ == decide(self@, access, now),
    {
        match &self.slot {
            Some(info) if self.is_fresh_at(now) => ReadStep::Serve(info.clone()),
            _ => match access {
                Access::Shared => ReadStep::Escalate,
                Access::Exclusive => ReadStep::Fetch,
            },
        }
    }

    /// Ends a fetch made under exclusive access. A new snapshot replaces the
    /// cached one and is handed to the reader; a failure leaves the cache as
    /// it was and goes to the reader.
    pub fn complete(&mut self, fetched: Result<CurrencyInfo, FetchError>) -> (answer: Result<
        CurrencyInfo,
        FetchError,
    >)
        ensures
            final(self)@ == after_fetch(old(self)@, outcome_of(fetched)),
            outcome_of(answer) == outcome_of(fetched),
    {
        match fetched {
            Ok(info) => {
                let copy = info.clone();
                self.slot = Some(info);
                Ok(copy)
            },
            Err(error) => Err(error),
        }
    }

    /// The cached snapshot, fresh or not.
    pub fn peek(&self) -> (cached: Option<&CurrencyInfo>)
        ensures
            cached is Some == self@ is Some,
            cached is Some ==> cached->0@ == self@->0,
    {
        match &self.slot {
            Some(info) => Some(info),
            None => None,
        }
    }
}

/// While the cached snapshot is fresh a reader is served that snapshot:
/// no fetch is asked for, under either access.
pub proof fn lemma_fresh_is_served(snapshot: Snapshot, access: Access, now: u64)
    requires
        is_fresh(snapshot, now),
    ensures
        decide(Some(snapshot), access, now) == Decision::Serve(snapshot),
{
}

/// Once one reader has stored a new snapshot, every reader that looks while
/// it is fresh, also one that had escalated before the fetch ended, is
/// served that same snapshot and fetches nothing.
pub proof fn lemma_refresh_serves_followers(
    slot: Option<Snapshot>,
    fetched: Snapshot,
    access: Access,
    now: u64,
)
    requires
        is_fresh(fetched, now),
    ensures
        decide(after_fetch(slot, Ok(fetched)), access, now) == Decision::Serve(fetched),
{
}

/// What one reader that holds the slot alone leaves behind and takes away.
pub ghost struct Pass {
    /// The slot after the reader.
    pub slot: Option<Snapshot>,
    /// Whether the reader fetched.
    pub fetched: bool,
    /// What the reader got.
    pub answer: Result<Snapshot, FetchError>,
}

/// The pass of a reader that holds the slot alone at `now`, where a fetch
/// made at that time comes to `outcome`.
pub open spec fn exclusive_pass(
    slot: Option<Snapshot>,
    now: u64,
    outcome: Result<Snapshot, FetchError>,
) -> Pass {
    match decide(slot, Access::Exclusive, now) {
        Decision::Serve(snapshot) => Pass { slot, fetched: false, answer: Ok(snapshot) },
        _ => Pass { slot: after_fetch(slot, outcome), fetched: true, answer: outcome },
    }
}

/// What a row of readers leaves behind and takes away.
pub ghost struct Episode {
    /// The slot after the last reader.
    pub slot: Option<Snapshot>,
    /// How many of the readers fetched.
    pub fetches: nat,
    /// What each reader got, in turn.
    pub answers: Seq<Result<Snapshot, FetchError>>,
}

/// Readers that hold the slot alone one after another, at the given times,
/// where a fetch made at a time `t` comes to `upstream(t)`.
pub open spec fn serve_in_turn(
    slot: Option<Snapshot>,
    times: Seq<u64>,
    upstream: spec_fn(u64) -> Result<Snapshot, FetchError>,
) -> Episode
    decreases times.len(),
{
    if times.len() == 0 {
        Episode { slot, fetches: 0, answers: Seq::empty() }
    } else {
        let earlier = serve_in_turn(slot, times.drop_last(), upstream);
        let pass = exclusive_pass(earlier.slot, times.last(), upstream(times.last()));
        Episode {
            slot: pass.slot,
            fetches: if pass.fetched {
                earlier.fetches + 1
            } else {
                earlier.fetches
            },
            answers: earlier.answers.push(pass.answer),
        }
    }
}

/// Readers that find no fresh snapshot and then hold the slot alone one
/// after another make one fetch between them: the first fetches, and if its
/// snapshot is fresh for all of them, each of them gets that snapshot.
pub proof fn lemma_one_fetch_per_episode(
    slot: Option<Snapshot>,
    times: Seq<u64>,
    upstream: spec_fn(u64) -> Result<Snapshot, FetchError>,
    fetched: Snapshot,
)
    requires
        times.len() > 0,
        !(slot is Some && is_fresh(slot->0, times[0])),
        upstream(times[0]) == Ok::<Snapshot, FetchError>(fetched),
        forall|i: int| 0 <= i < times.len() ==> is_fresh(fetched, #[trigger] times[i]),
    ensures
        serve_in_turn(slot, times, upstream).fetches == 1,
        serve_in_turn(slot, times, upstream).slot == Some(fetched),
        serve_in_turn(slot, times, upstream).answers.len() == times.len(),
        forall|i: int|
            0 <= i < times.len() ==> #[trigger] serve_in_turn(slot, times, upstream).answers[i]
                == Ok::<Snapshot, FetchError>(fetched),
    decreases times.len(),
{
    let earlier = times.drop_last();
    if earlier.len() == 0 {
        assert(times.last() == times[0]);
        assert(serve_in_turn(slot, earlier, upstream).slot == slot);
    } else {
        assert(earlier[0] == times[0]);
        assert forall|i: int| 0 <= i < earlier.len() implies is_fresh(
            fetched,
            #[trigger] earlier[i],
        ) by {
            assert(earlier[i] == times[i]);
        }
        lemma_one_fetch_per_episode(slot, earlier, upstream, fetched);
        assert(is_fresh(fetched, times[times.len() - 1]));
    }
}

/// Whatever the slot holds, a reader fetches only under exclusive access and
/// only when there is no fresh snapshot.
pub proof fn lemma_fetch_only_when_stale(slot: Option<Snapshot>, access: Access, now: u64)
    ensures
        decide(slot, access, now) == Decision::Fetch <==> access == Access::Exclusive && !(slot is Some
            && is_fresh(slot->0, now)),
{
}

/// Where the primary provider failed the fetch fails, whatever the
/// secondaries answered, and the cache is after it what it was before:
/// nothing of the secondaries' rates is cached.
pub proof fn lemma_primary_failure_caches_nothing(
    slot: Option<Snapshot>,
    primary: ProviderReply,
    secondaries: Seq<ProviderReply>,
    now: u64,
)
    requires
        primary is Err,
    ensures
        fetch_outcome(primary, secondaries, now) is Err,
        after_fetch(slot, fetch_outcome(primary, secondaries, now)) == slot,
{
}

/// A failed fetch leaves the cached snapshot, stale as it may be, in place.
pub proof fn lemma_failure_keeps_snapshot(slot: Option<Snapshot>, error: FetchError)
    ensures
        after_fetch(slot, Err(error)) == slot,
{
}

} // verus!
