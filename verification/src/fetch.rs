use vstd::prelude::*;

verus! {

/// How many requests one image fetch may make while following redirects.
pub const MAX_FETCH_TRIES: u8 = 10;

/// The redirect-following state of one image fetch: the link to request
/// next and how many requests may still be made, this one included.
pub struct FetchState {
    pub url: String,
    pub remaining: u8,
}

/// What one HTTP response leads to: take this body, request the redirect
/// target next, or give the candidate up as a soft failure.
pub enum FetchStep {
    Deliver,
    Follow(FetchState),
    NoResult,
}

impl FetchState {
    /// A fresh fetch: the full try budget for the first request.
    pub fn start(url: String) -> (r: FetchState)
        ensures
            r.url == url,
            r.remaining == MAX_FETCH_TRIES,
    {
        FetchState { url, remaining: MAX_FETCH_TRIES }
    }

    /// Decides what the response to this state's request leads to: a
    /// success status delivers the body; a redirect with a target is
    /// followed while tries remain; a redirect without a target, a
    /// redirect on the last try, and every other status end the fetch
    /// with no result — never with an error.
    pub fn step(self, status: u16, location: Option<String>) -> (r: FetchStep)
        ensures
            status == 200 ==> r is Deliver,
            status == 301 && location is Some && self.remaining > 1 ==> r
                == FetchStep::Follow(
                FetchState {
                    url: location->Some_0,
                    remaining: (self.remaining - 1) as u8,
                },
            ),
            status == 301 && (location is None || self.remaining <= 1) ==> r
                is NoResult,
            status != 200 && status != 301 ==> r is NoResult,
    {
        if status == 200 {
            FetchStep::Deliver
        } else if status == 301 {
            match location {
                Some(next) if self.remaining > 1 => FetchStep::Follow(
                    FetchState { url: next, remaining: self.remaining - 1 },
                ),
                _ => FetchStep::NoResult,
            }
        } else {
            FetchStep::NoResult
        }
    }
}

/// Law: a chain of followed redirects is bounded. Every follow-up state
/// holds one try fewer than its predecessor and at least one, so from a
/// fresh fetch at most `MAX_FETCH_TRIES` requests go out; a link that
/// answers every request with a redirect — eleven hops, say — runs out of
/// tries and yields `NoResult`, the maximal-distance soft failure, never
/// an error.
pub proof fn lemma_redirect_chain_bounded(chain: Seq<FetchState>)
    requires
        chain.len() >= 1,
        chain[0].remaining == MAX_FETCH_TRIES,
        forall|i: int|
            0 < i < chain.len() ==> (#[trigger] chain[i]).remaining == chain[i - 1].remaining
                - 1 && chain[i - 1].remaining > 1,
    ensures
        chain.len() <= MAX_FETCH_TRIES as int,
{
    assert forall|i: int| 0 <= i < chain.len() implies (#[trigger] chain[i]).remaining
        == MAX_FETCH_TRIES - i by {
        lemma_chain_remaining(chain, i);
    }
    if chain.len() > MAX_FETCH_TRIES as int {
        assert(chain[MAX_FETCH_TRIES as int].remaining == 0);
        assert(chain[MAX_FETCH_TRIES as int - 1].remaining > 1);
    }
}

proof fn lemma_chain_remaining(chain: Seq<FetchState>, i: int)
    requires
        chain.len() >= 1,
        chain[0].remaining == MAX_FETCH_TRIES,
        forall|j: int|
            0 < j < chain.len() ==> (#[trigger] chain[j]).remaining == chain[j - 1].remaining
                - 1 && chain[j - 1].remaining > 1,
        0 <= i < chain.len(),
    ensures
        chain[i].remaining == MAX_FETCH_TRIES - i,
    decreases i,
{
    if i > 0 {
        lemma_chain_remaining(chain, i - 1);
    }
}

} // verus!
