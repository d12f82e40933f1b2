use crate::classify::{is_image, spec_is_image};
use crate::color::Color;
use crate::json::{progress_event, progress_event_chars, result_json, result_json_chars};
use crate::numfmt::dec_chars_nat;
use crate::reservoir::{
    is_ranked_prefix, sorted_arrangement_of, CandidateItem, Reservoir, ScoredItem,
};
use crate::text::{push_char, push_str_all};
use vstd::prelude::*;
use vstd::string::StrSliceExecFns;

verus! {

/// What ends a whole search. Per-candidate soft failures — an unreachable
/// or undecodable image — never show up here; they only deprioritize the
/// one candidate.
#[derive(Clone, Copy, Debug, PartialEq, Eq, Structural)]
pub enum ErrorCode {
    Error,
    InvalidQuery,
    InvalidUrl,
    InvalidBody,
    InvalidSend,
    InvalidResponse,
    CannotSendProgress,
    CannotSendToCache,
    CannotWaitCache,
}

/// Where one search stands.
#[derive(Clone, Copy, Debug, PartialEq, Eq, Structural)]
pub enum SearchPhase {
    Paginating,
    Ranking,
    Done,
    Failed,
}

/// How many ranked results a search returns.
pub const RETURN_COUNT: usize = 3;

/// The reservoir holds at most a hundred candidates per returned result.
pub const RESERVOIR_CAPACITY: usize = 300;

/// How many entries one feed page is asked for.
pub const FEED_PAGE_LIMIT: u32 = 1000;

pub open spec fn is_ascii_alnum(c: char) -> bool {
    ||| 48 <= c as int <= 57
    ||| 65 <= c as int <= 90
    ||| 97 <= c as int <= 122
}

/// A query stripped to its ASCII alphanumerics, order kept.
pub open spec fn sanitized_chars(s: Seq<char>) -> Seq<char>
    decreases s.len(),
{
    if s.len() == 0 {
        Seq::empty()
    } else if is_ascii_alnum(s.last()) {
        sanitized_chars(s.drop_last()).push(s.last())
    } else {
        sanitized_chars(s.drop_last())
    }
}

/// Law: whatever comes in, a sanitized query holds only ASCII
/// alphanumerics.
pub proof fn lemma_sanitized_only_alnum(s: Seq<char>)
    ensures
        forall|i: int|
            0 <= i < sanitized_chars(s).len() ==> is_ascii_alnum(
                #[trigger] sanitized_chars(s)[i],
            ),
    decreases s.len(),
{
    if s.len() > 0 {
        lemma_sanitized_only_alnum(s.drop_last());
        let t = sanitized_chars(s.drop_last());
        if is_ascii_alnum(s.last()) {
            assert(sanitized_chars(s) == t.push(s.last()));
            assert forall|i: int| 0 <= i < sanitized_chars(s).len() implies is_ascii_alnum(
                sanitized_chars(s)[i],
            ) by {
                if i < t.len() {
                    assert(sanitized_chars(s)[i] == t[i]);
                } else {
                    assert(sanitized_chars(s)[i] == s.last());
                }
            }
        } else {
            assert(sanitized_chars(s) == t);
        }
    }
}

/// Strips a query to its ASCII alphanumerics.
pub fn sanitize_query(q: &str) -> (r: String)
    ensures
        r@ == sanitized_chars(q@),
{
    let n = q.unicode_len();
    let mut out = String::new();
    let mut i: usize = 0;
    while i < n
        invariant
            0 <= i <= n,
            n == q@.len(),
            out@ == sanitized_chars(q@.take(i as int)),
        decreases n - i,
    {
        let c = q.get_char(i);
        let v = c as u32;
        proof {
            let t = q@.take((i + 1) as int);
            assert(t.drop_last() =~= q@.take(i as int));
            assert(t.last() == q@[i as int]);
        }
        if (48 <= v && v <= 57) || (65 <= v && v <= 90) || (97 <= v && v <= 122) {
            push_char(&mut out, c);
        }
        i += 1;
    }
    proof {
        assert(q@.take(q@.len() as int) =~= q@);
    }
    out
}

/// The feed page request for an already-sanitized query: the search
/// endpoint, the query, the hosting-domain site filter, the page size, the
/// fixed comment-count sort, and the continuation cursor when one exists.
pub open spec fn search_url_chars(query: Seq<char>, limit: u32, after: Option<Seq<char>>) -> Seq<
    char,
> {
    let head = "https://www.reddit.com/r/php/search.json?q="@ + query
        + "%20site:(500px.com%20OR%20abload.de%20OR%20deviantart.com%20OR%20deviantart.net%20OR%20fav.me%20OR%20fbcdn.net%20OR%20flickr.com%20OR%20forgifs.com%20OR%20giphy.com%20OR%20gfycat.com%20OR%20gifsoup.com%20OR%20gyazo.com%20OR%20imageshack.us%20OR%20imgclean.com%20OR%20imgur.com%20OR%20instagr.am%20OR%20instagram.com%20OR%20mediacru.sh%20OR%20media.tumblr.com%20OR%20min.us%20OR%20minus.com%20OR%20myimghost.com%20OR%20photobucket.com%20OR%20picsarus.com%20OR%20puu.sh%20OR%20staticflickr.com%20OR%20tinypic.com%20OR%20twitpic.com)&limit="@
        + dec_chars_nat(limit as nat) + "&sort=comments&restrict_sr=0"@;
    match after {
        None => head,
        Some(a) => head + "&after="@ + a,
    }
}

fn build_search_url(query: &str, limit: u32, after: Option<&String>) -> (r: String)
    ensures
        r@ == search_url_chars(
            query@,
            limit,
            match after {
                Some(a) => Some(a@),
                None => None,
            },
        ),
{
    let mut out = String::new();
    push_str_all(&mut out, "https://www.reddit.com/r/php/search.json?q=");
    push_str_all(&mut out, query);
    push_str_all(
        &mut out,
        "%20site:(500px.com%20OR%20abload.de%20OR%20deviantart.com%20OR%20deviantart.net%20OR%20fav.me%20OR%20fbcdn.net%20OR%20flickr.com%20OR%20forgifs.com%20OR%20giphy.com%20OR%20gfycat.com%20OR%20gifsoup.com%20OR%20gyazo.com%20OR%20imageshack.us%20OR%20imgclean.com%20OR%20imgur.com%20OR%20instagr.am%20OR%20instagram.com%20OR%20mediacru.sh%20OR%20media.tumblr.com%20OR%20min.us%20OR%20minus.com%20OR%20myimghost.com%20OR%20photobucket.com%20OR%20picsarus.com%20OR%20puu.sh%20OR%20staticflickr.com%20OR%20tinypic.com%20OR%20twitpic.com)&limit=",
    );
    crate::numfmt::push_u64_decimal(&mut out, limit as u64);
    push_str_all(&mut out, "&sort=comments&restrict_sr=0");
    match after {
        None => {
            assert(out@ =~= search_url_chars(query@, limit, None));
        },
        Some(a) => {
            push_str_all(&mut out, "&after=");
            push_str_all(&mut out, a.as_str());
            assert(out@ =~= search_url_chars(query@, limit, Some(a@)));
        },
    }
    out
}

/// The feed page request for a raw query: the query is sanitized first,
/// and a query with nothing left after sanitization makes no request.
pub fn get_reddit_search_url(query: &str, limit: u32, after: Option<&String>) -> (r: Option<
    String,
>)
    ensures
        r is Some <==> sanitized_chars(query@).len() > 0,
        r matches Some(u) ==> u@ == search_url_chars(
            sanitized_chars(query@),
            limit,
            match after {
                Some(a) => Some(a@),
                None => None,
            },
        ),
{
    let q = sanitize_query(query);
    if q.unicode_len() == 0 {
        return None;
    }
    Some(build_search_url(q.as_str(), limit, after))
}

/// One search request's state machine. One instance serves one query; the
/// caller performs the outside work — feed pages, cache lookups, image
/// fetches — and feeds the outcomes back in.
pub struct SearchSession {
    query: String,
    target: Color,
    after: Option<String>,
    entries_seen: u64,
    reservoir: Reservoir,
    phase: SearchPhase,
}

impl SearchSession {
    pub closed spec fn wf(self) -> bool {
        &&& self.reservoir.wf()
        &&& self.reservoir.cap() == RESERVOIR_CAPACITY
        &&& self.target.valid()
    }

    pub closed spec fn state(self) -> SearchPhase {
        self.phase
    }

    pub closed spec fn query_view(self) -> Seq<char> {
        self.query@
    }

    pub closed spec fn cursor_view(self) -> Option<Seq<char>> {
        match self.after {
            None => None,
            Some(a) => Some(a@),
        }
    }

    pub closed spec fn seen_count(self) -> int {
        self.entries_seen as int
    }

    pub closed spec fn pool_view(self) -> Seq<ScoredItem> {
        self.reservoir@
    }

    pub closed spec fn target_color(self) -> Color {
        self.target
    }

    /// Opens a search: the query is sanitized, and a query with nothing
    /// left is refused as invalid before any request is made — a session
    /// only exists for a usable query.
    pub fn new(query: &str, target: Color) -> (r: Result<SearchSession, ErrorCode>)
        requires
            target.valid(),
        ensures
            r is Err <==> sanitized_chars(query@).len() == 0,
            r matches Err(e) ==> e == ErrorCode::InvalidQuery,
            r matches Ok(s) ==> s.wf() && s.query_view() == sanitized_chars(query@)
                && s.state() == SearchPhase::Paginating && s.pool_view()
                == Seq::<ScoredItem>::empty() && s.seen_count() == 0 && s.cursor_view()
                is None && s.target_color() == target,
    {
        let q = sanitize_query(query);
        if q.unicode_len() == 0 {
            return Err(ErrorCode::InvalidQuery);
        }
        Ok(
            SearchSession {
                query: q,
                target,
                after: None,
                entries_seen: 0,
                reservoir: Reservoir::new(RESERVOIR_CAPACITY),
                phase: SearchPhase::Paginating,
            },
        )
    }

    /// The 0%-progress notice that opens the stream.
    pub fn initial_progress(&self) -> (r: String)
        ensures
            r@ == progress_event_chars(0, 1, None),
    {
        progress_event(0, 1, None)
    }

    /// The next feed page to request, using the cursor the previous page
    /// handed back.
    pub fn next_page_url(&self) -> (r: String)
        requires
            self.wf(),
            self.state() == SearchPhase::Paginating,
        ensures
            r@ == search_url_chars(self.query_view(), FEED_PAGE_LIMIT, self.cursor_view()),
    {
        match &self.after {
            None => build_search_url(self.query.as_str(), FEED_PAGE_LIMIT, None),
            Some(a) => build_search_url(self.query.as_str(), FEED_PAGE_LIMIT, Some(a)),
        }
    }

    /// Remembers the continuation cursor a feed page handed back.
    pub fn note_cursor(&mut self, after: String)
        requires
            old(self).wf(),
            old(self).state() == SearchPhase::Paginating,
        ensures
            final(self).wf(),
            final(self).cursor_view() == Some(after@),
            final(self).state() == old(self).state(),
            final(self).query_view() == old(self).query_view(),
            final(self).seen_count() == old(self).seen_count(),
            final(self).pool_view() == old(self).pool_view(),
            final(self).target_color() == old(self).target_color(),
    {
        self.after = Some(after);
    }

    /// Takes one feed entry: counts it toward the completion fraction,
    /// classifies its link, and for an image hands back the progress
    /// notice to emit and the classified link whose distance the search
    /// needs next. A link that is no image is discarded.
    pub fn classify_entry(&mut self, entry: &CandidateItem) -> (r: Option<(String, String)>)
        requires
            old(self).wf(),
            old(self).state() == SearchPhase::Paginating,
        ensures
            final(self).wf(),
            final(self).seen_count() == if old(self).seen_count() < u64::MAX {
                old(self).seen_count() + 1
            } else {
                old(self).seen_count()
            },
            final(self).state() == old(self).state(),
            final(self).query_view() == old(self).query_view(),
            final(self).cursor_view() == old(self).cursor_view(),
            final(self).pool_view() == old(self).pool_view(),
            final(self).target_color() == old(self).target_color(),
            r is Some <==> spec_is_image(entry.url@) is Some,
            r matches Some(p) ==> p.1@ == spec_is_image(entry.url@)->Some_0 && p.0@
                == progress_event_chars(
                final(self).seen_count() as nat,
                RESERVOIR_CAPACITY as nat,
                Some(p.1@),
            ),
    {
        if self.entries_seen < u64::MAX {
            self.entries_seen = self.entries_seen + 1;
        }
        match is_image(entry.url.as_str()) {
            None => None,
            Some(u) => {
                let ev = progress_event(
                    self.entries_seen,
                    RESERVOIR_CAPACITY as u64,
                    Some(u.as_str()),
                );
                Some((ev, u))
            },
        }
    }

    /// Admits one classified candidate with its computed distance, the
    /// entry's link rewritten to the classified one.
    pub fn add_candidate(&mut self, entry: &CandidateItem, url: String, distance: u32)
        requires
            old(self).wf(),
            old(self).state() == SearchPhase::Paginating,
            old(self).pool_view().len() < RESERVOIR_CAPACITY,
        ensures
            final(self).wf(),
            final(self).pool_view() == old(self).pool_view().push(
                (
                    distance,
                    CandidateItem { id: entry.id, url: url, num_comments: entry.num_comments },
                ),
            ),
            final(self).state() == old(self).state(),
            final(self).query_view() == old(self).query_view(),
            final(self).cursor_view() == old(self).cursor_view(),
            final(self).seen_count() == old(self).seen_count(),
            final(self).target_color() == old(self).target_color(),
    {
        let item = CandidateItem {
            id: entry.id.clone(),
            url,
            num_comments: entry.num_comments,
        };
        self.reservoir.insert(distance, item);
    }

    /// Whether the reservoir has hit its cap; pagination stops as soon as
    /// it has.
    pub fn reservoir_full(&self) -> (r: bool)
        requires
            self.wf(),
        ensures
            r == (self.pool_view().len() >= RESERVOIR_CAPACITY),
    {
        self.reservoir.is_full()
    }

    /// The target color this search ranks against.
    pub fn target(&self) -> (r: Color)
        requires
            self.wf(),
        ensures
            r == self.target_color(),
            r.valid(),
    {
        self.target
    }

    /// Closes the search: ranks what the reservoir holds and hands back
    /// the ranked items — the smallest distances first —, the
    /// 100%-progress notice, and the terminal payload naming the items.
    pub fn finish(self) -> (r: (Vec<CandidateItem>, String, String))
        requires
            self.wf(),
        ensures
            r.0@.len() == if RETURN_COUNT as int <= self.pool_view().len() {
                RETURN_COUNT as int
            } else {
                self.pool_view().len() as int
            },
            exists|s: Seq<ScoredItem>|
                #[trigger] sorted_arrangement_of(s, self.pool_view()) && r.0@ == s.take(
                    r.0@.len() as int,
                ).map_values(|p: ScoredItem| p.1),
            r.1@ == progress_event_chars(1, 1, None),
            r.2@ == result_json_chars(r.0@),
    {
        let SearchSession { reservoir, .. } = self;
        let ghost pool = reservoir@;
        let top = reservoir.extract_top(RETURN_COUNT);
        let ghost top_view = top@;
        let ghost witness = choose|s: Seq<ScoredItem>|
            #[trigger] sorted_arrangement_of(s, pool) && top_view == s.take(
                if RETURN_COUNT as int <= pool.len() {
                    RETURN_COUNT as int
                } else {
                    pool.len() as int
                },
            );
        let mut rest = top;
        let mut items: Vec<CandidateItem> = Vec::new();
        while rest.len() > 0
            invariant
                items@.len() + rest@.len() == top_view.len(),
                rest@ == top_view.skip(items@.len() as int),
                items@ == top_view.take(items@.len() as int).map_values(
                    |p: ScoredItem| p.1,
                ),
            decreases rest@.len(),
        {
            let ghost i = items@.len() as int;
            let p = rest.remove(0);
            proof {
                assert(p == top_view[i]);
                assert(rest@ =~= top_view.skip(i + 1));
            }
            items.push(p.1);
            proof {
                assert(items@ =~= top_view.take(i + 1).map_values(|q: ScoredItem| q.1))
                    by {
                    assert(top_view.take(i + 1).drop_last() =~= top_view.take(i));
                }
            }
        }
        proof {
            assert(top_view.take(top_view.len() as int) =~= top_view);
            assert(items@ == top_view.map_values(|p: ScoredItem| p.1));
        }
        let done_event = progress_event(1, 1, None);
        let result_event = result_json(&items);
        proof {
            assert(sorted_arrangement_of(witness, pool));
            assert(items@ == witness.take(items@.len() as int).map_values(
                |p: ScoredItem| p.1,
            ));
        }
        (items, done_event, result_event)
    }
}

} // verus!
