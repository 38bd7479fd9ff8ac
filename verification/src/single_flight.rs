use vstd::prelude::*;

verus! {

/// The observable state of one request-coalescing cell: the last completed
/// fetch with its time, whether a fetch is in flight, and how long a value
/// stays fresh.
pub struct Cached<T> {
    pub last_fetched: Option<(u64, T)>,
    pub inflight: bool,
    pub refresh_interval: u64,
}

/// What a caller of the cell does next.
#[derive(PartialEq, Eq, Structural, Debug)]
pub enum CacheDecision {
    /// A fresh value exists: return it.
    UseFresh,
    /// A refresh is warranted and a stale value exists: return the stale
    /// value at once, without waiting on the refresh.
    ReturnStale,
    /// A fetch is in flight and no value exists: subscribe and await it.
    SubscribeExisting,
    /// No fetch is in flight and a stale value exists: start a fetch and
    /// still return the stale value at once.
    StartFetchReturnStale,
    /// No fetch is in flight and no value exists: start a fetch and await
    /// it.
    StartFetchAwait,
}

/// The age of the cached value, zero when the clock reads earlier than the
/// fetch time.
pub open spec fn spec_age(fetched_at: u64, now: u64) -> int {
    if now >= fetched_at {
        now - fetched_at
    } else {
        0
    }
}

/// What a caller does, from the cell's state and the clock: a fresh value
/// is returned; past the refresh interval a stale value is always returned
/// immediately, subscribing or starting a fetch as needed; with no value
/// the caller awaits the in-flight or newly started fetch.
pub open spec fn spec_decision<T>(c: Cached<T>, now: u64) -> CacheDecision {
    match c.last_fetched {
        Some(f) => {
            if spec_age(f.0, now) < c.refresh_interval {
                CacheDecision::UseFresh
            } else if c.inflight {
                CacheDecision::ReturnStale
            } else {
                CacheDecision::StartFetchReturnStale
            }
        },
        None => {
            if c.inflight {
                CacheDecision::SubscribeExisting
            } else {
                CacheDecision::StartFetchAwait
            }
        },
    }
}

impl<T> Cached<T> {
    /// An empty cell with the given refresh interval.
    pub fn new(refresh_interval: u64) -> (r: Cached<T>)
        ensures
            r.last_fetched is None,
            !r.inflight,
            r.refresh_interval == refresh_interval,
    {
        Cached { last_fetched: None, inflight: false, refresh_interval }
    }

    /// Decide what a caller arriving at time `now` does.
    pub fn get_cached_decision(&self, now: u64) -> (r: CacheDecision)
        ensures
            r == spec_decision(*self, now),
    {
        match &self.last_fetched {
            Some(f) => {
                let age: u64 = if now >= f.0 {
                    now - f.0
                } else {
                    0
                };
                if age < self.refresh_interval {
                    CacheDecision::UseFresh
                } else if self.inflight {
                    CacheDecision::ReturnStale
                } else {
                    CacheDecision::StartFetchReturnStale
                }
            },
            None => {
                if self.inflight {
                    CacheDecision::SubscribeExisting
                } else {
                    CacheDecision::StartFetchAwait
                }
            },
        }
    }

    /// Record that a fetch was started; the cached value stays.
    pub fn on_fetch_started(&mut self)
        ensures
            final(self).inflight,
            final(self).last_fetched == old(self).last_fetched,
            final(self).refresh_interval == old(self).refresh_interval,
    {
        self.inflight = true;
    }

    /// Record a successful fetch: the value replaces the cache with its
    /// completion time, and the in-flight slot clears.
    pub fn on_fetch_ok(&mut self, now: u64, value: T)
        ensures
            !final(self).inflight,
            final(self).last_fetched == Some((now, value)),
            final(self).refresh_interval == old(self).refresh_interval,
    {
        self.inflight = false;
        self.last_fetched = Some((now, value));
    }

    /// Record a failed fetch: the in-flight slot clears and the cached
    /// value is left untouched, so stale data keeps serving.
    pub fn on_fetch_err(&mut self)
        ensures
            !final(self).inflight,
            final(self).last_fetched == old(self).last_fetched,
            final(self).refresh_interval == old(self).refresh_interval,
    {
        self.inflight = false;
    }
}

/// Single flight: while a fetch is in flight, no caller starts another, at
/// any clock reading; so between one fetch start and its completion the
/// cell performs no further origin call.
pub proof fn lemma_single_flight<T>(c: Cached<T>, now: u64)
    requires
        c.inflight,
    ensures
        spec_decision(c, now) != CacheDecision::StartFetchReturnStale,
        spec_decision(c, now) != CacheDecision::StartFetchAwait,
{
}

/// Stale-while-revalidate: a caller that arrives while a refresh is due or
/// running, with any cached value present, is answered with that stale
/// value immediately and never waits.
pub proof fn lemma_stale_while_revalidate<T>(c: Cached<T>, now: u64)
    requires
        c.last_fetched is Some,
        spec_age((c.last_fetched->0).0, now) >= c.refresh_interval,
    ensures
        c.inflight ==> spec_decision(c, now) == CacheDecision::ReturnStale,
        !c.inflight ==> spec_decision(c, now) == CacheDecision::StartFetchReturnStale,
{
}

} // verus!
