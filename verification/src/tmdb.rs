//! The catalog API's data, as plain values, and the client's request
//! policies: the token bucket that paces requests and the paths that
//! requests are sent to.
//!
//! The HTTP transport itself lives outside the library; it hands the
//! decoded responses in as the types below. Ratings arrive in thousandths
//! of a vote point, so that nothing here computes on floating point.

use crate::text::{dec_of, u64_to_dec};
use vstd::prelude::*;

verus! {

/// A page of search results, already ordered by popularity.
pub struct SearchResponse<T> {
    pub results: Vec<T>,
}

/// One movie search result.
pub struct MovieSearchResult {
    pub id: i64,
    pub title: String,
    pub release_date: Option<String>,
}

/// One series search result.
pub struct TvSearchResult {
    pub id: i64,
    pub name: String,
    pub first_air_date: Option<String>,
}

/// Full movie details.
pub struct MovieDetails {
    pub id: i64,
    pub title: String,
    pub overview: Option<String>,
    pub release_date: Option<String>,
    pub runtime: Option<i64>,
    pub vote_average_milli: Option<i64>,
    pub poster_path: Option<String>,
    pub backdrop_path: Option<String>,
}

/// Full series details.
pub struct TvShowDetails {
    pub id: i64,
    pub name: String,
    pub overview: Option<String>,
    pub first_air_date: Option<String>,
    pub last_air_date: Option<String>,
    pub in_production: bool,
    pub number_of_seasons: Option<i64>,
    pub number_of_episodes: Option<i64>,
    pub vote_average_milli: Option<i64>,
    pub poster_path: Option<String>,
    pub backdrop_path: Option<String>,
    pub seasons: Vec<TvSeason>,
}

/// One season stub inside series details.
pub struct TvSeason {
    pub id: i64,
    pub season_number: i64,
}

/// Full details of one season, with its complete episode list.
pub struct TvSeasonDetails {
    pub id: i64,
    pub name: String,
    pub overview: Option<String>,
    pub season_number: i64,
    pub episodes: Vec<TvEpisode>,
}

/// One episode inside season details.
pub struct TvEpisode {
    pub id: i64,
    pub name: String,
    pub overview: Option<String>,
    pub air_date: Option<String>,
    pub episode_number: i64,
    pub runtime: Option<i64>,
    pub vote_average_milli: Option<i64>,
    pub still_path: Option<String>,
}

/// Where catalog images are served from.
pub const TMDB_IMAGE_BASE_URL: &'static str = "https://image.tmdb.org/t/p/original";

/// The full image URL for an image path the catalog returned.
pub fn image_url(path: &str) -> (r: String)
    ensures
        r@ == TMDB_IMAGE_BASE_URL@ + path@,
{
    let base = String::from_str(TMDB_IMAGE_BASE_URL);
    base.concat(path)
}

/// The request path for full movie details.
pub fn movie_details_path(movie_id: u64) -> (r: String)
    ensures
        r@ == "/movie/"@ + dec_of(movie_id as nat),
{
    String::from_str("/movie/").concat(u64_to_dec(movie_id).as_str())
}

/// The request path for full series details.
pub fn tv_details_path(tv_id: u64) -> (r: String)
    ensures
        r@ == "/tv/"@ + dec_of(tv_id as nat),
{
    String::from_str("/tv/").concat(u64_to_dec(tv_id).as_str())
}

/// One token accrues every 200 milliseconds: five tokens per second.
pub const TOKEN_INTERVAL_MS: u64 = 200;

/// The bucket holds at most twenty tokens: the client's burst.
pub const BURST_TOKENS: u64 = 20;

/// The token bucket pacing catalog requests: a request goes out only when
/// a token is available.
pub struct TokenBucket {
    pub tokens: u64,
    pub last_ms: u64,
}

/// The bucket after catching up to `now`: one token per elapsed interval,
/// capped at the burst; the refill clock keeps the fractional remainder.
pub open spec fn bucket_refill(tokens: nat, last: int, now: int) -> (nat, int) {
    let gained = (now - last) / (TOKEN_INTERVAL_MS as int);
    let t1: nat = if tokens + gained > BURST_TOKENS {
        BURST_TOKENS as nat
    } else {
        (tokens + gained) as nat
    };
    (t1, last + gained * (TOKEN_INTERVAL_MS as int))
}

/// The bucket after one poll at `now`, and whether the poll was granted.
pub open spec fn bucket_step(tokens: nat, last: int, now: int) -> ((nat, int), bool) {
    let r = bucket_refill(tokens, last, now);
    if r.0 > 0 {
        (((r.0 - 1) as nat, r.1), true)
    } else {
        (r, false)
    }
}

impl TokenBucket {
    pub open spec fn wf(self) -> bool {
        self.tokens <= BURST_TOKENS
    }

    /// A bucket born full, its refill clock at `now_ms`.
    pub fn new(now_ms: u64) -> (b: TokenBucket)
        ensures
            b.tokens == BURST_TOKENS,
            b.last_ms == now_ms,
            b.wf(),
    {
        TokenBucket { tokens: BURST_TOKENS, last_ms: now_ms }
    }

    /// Polls the bucket at `now_ms`: catches up the refill, then takes a
    /// token when one is there. The caller sends a request exactly when
    /// this grants one.
    pub fn try_acquire(&mut self, now_ms: u64) -> (granted: bool)
        requires
            old(self).wf(),
            old(self).last_ms <= now_ms,
        ensures
            ((final(self).tokens as nat, final(self).last_ms as int), granted) == bucket_step(
                old(self).tokens as nat,
                old(self).last_ms as int,
                now_ms as int,
            ),
            final(self).wf(),
            final(self).last_ms <= now_ms,
    {
        let gained = (now_ms - self.last_ms) / TOKEN_INTERVAL_MS;
        let t1 = if gained > BURST_TOKENS {
            BURST_TOKENS
        } else if self.tokens + gained > BURST_TOKENS {
            BURST_TOKENS
        } else {
            self.tokens + gained
        };
        proof {
            assert(gained * (TOKEN_INTERVAL_MS as int) <= now_ms as int - self.last_ms as int) by (
            nonlinear_arith)
                requires
                    gained as int == (now_ms as int - self.last_ms as int) / (
                    TOKEN_INTERVAL_MS as int),
                    self.last_ms <= now_ms,
            ;
        }
        self.last_ms = self.last_ms + gained * TOKEN_INTERVAL_MS;
        if t1 > 0 {
            self.tokens = t1 - 1;
            true
        } else {
            self.tokens = t1;
            false
        }
    }
}

/// How many polls of `times` are granted, starting from a bucket holding
/// `tokens` with its refill clock at `last`.
pub open spec fn bucket_grants(tokens: nat, last: int, times: Seq<int>) -> nat
    decreases times.len(),
{
    if times.len() == 0 {
        0
    } else {
        let (b1, g) = bucket_step(tokens, last, times[0]);
        (if g {
            1nat
        } else {
            0nat
        }) + bucket_grants(b1.0, b1.1, times.drop_first())
    }
}

/// The bucket state after all the polls of `times`.
pub open spec fn bucket_run(tokens: nat, last: int, times: Seq<int>) -> (nat, int)
    decreases times.len(),
{
    if times.len() == 0 {
        (tokens, last)
    } else {
        let (b1, g) = bucket_step(tokens, last, times[0]);
        bucket_run(b1.0, b1.1, times.drop_first())
    }
}

/// Poll times never run backwards, and never precede the refill clock.
pub open spec fn times_ok(last: int, times: Seq<int>) -> bool {
    &&& forall|i: int| 0 <= i < times.len() ==> last <= #[trigger] times[i]
    &&& forall|i: int, j: int| 0 <= i < j < times.len() ==> times[i] <= times[j]
}

/// The bucket's books balance: what was granted plus what is left never
/// exceeds what was there plus what accrued, and the refill clock advances
/// in whole intervals, never past the last poll.
proof fn lemma_bucket_ledger(tokens: nat, last: int, times: Seq<int>)
    requires
        tokens <= BURST_TOKENS,
        times_ok(last, times),
    ensures
        ({
            let (t2, l2) = bucket_run(tokens, last, times);
            &&& t2 <= BURST_TOKENS
            &&& last <= l2
            &&& (l2 - last) % (TOKEN_INTERVAL_MS as int) == 0
            &&& l2 <= if times.len() == 0 {
                last
            } else {
                times.last()
            }
            &&& bucket_grants(tokens, last, times) + t2 <= tokens + (l2 - last) / (
            TOKEN_INTERVAL_MS as int)
        }),
    decreases times.len(),
{
    if times.len() > 0 {
        let now = times[0];
        let (b1, g) = bucket_step(tokens, last, now);
        let gained = (now - last) / (TOKEN_INTERVAL_MS as int);
        assert(gained >= 0);
        assert(gained * (TOKEN_INTERVAL_MS as int) <= now - last && 0 <= gained * (
        TOKEN_INTERVAL_MS as int)) by (nonlinear_arith)
            requires
                gained == (now - last) / (TOKEN_INTERVAL_MS as int),
                last <= now,
        ;
        let rest = times.drop_first();
        assert(times_ok(b1.1, rest)) by {
            assert(forall|i: int| 0 <= i < rest.len() ==> #[trigger] rest[i] == times[i + 1]);
        }
        lemma_bucket_ledger(b1.0, b1.1, rest);
        let (t2, l2) = bucket_run(tokens, last, times);
        assert((t2, l2) == bucket_run(b1.0, b1.1, rest));
        if rest.len() > 0 {
            assert(rest.last() == times.last());
        }
        assert((l2 - last) % (TOKEN_INTERVAL_MS as int) == 0 && (l2 - last) / (
        TOKEN_INTERVAL_MS as int) == gained + (l2 - b1.1) / (TOKEN_INTERVAL_MS as int)) by (
        nonlinear_arith)
            requires
                b1.1 == last + gained * (TOKEN_INTERVAL_MS as int),
                (l2 - b1.1) % (TOKEN_INTERVAL_MS as int) == 0,
                gained >= 0,
                l2 >= b1.1,
        ;
    }
}

/// The client's request pacing, as the token bucket guarantees it: over
/// any stretch of `len` milliseconds, a bucket that starts full grants at
/// most its burst of twenty plus one request per 200 ms elapsed — five per
/// second sustained.
pub proof fn lemma_request_rate_bound(
    tokens: nat,
    start: int,
    times: Seq<int>,
    len: int,
)
    requires
        tokens <= BURST_TOKENS,
        times_ok(start, times),
        0 < len,
        forall|i: int| 0 <= i < times.len() ==> #[trigger] times[i] < start + len,
    ensures
        bucket_grants(tokens, start, times) <= BURST_TOKENS + len / (TOKEN_INTERVAL_MS as int),
{
    lemma_bucket_ledger(tokens, start, times);
    let (t2, l2) = bucket_run(tokens, start, times);
    if times.len() > 0 {
        assert(times.last() < start + len);
        assert((l2 - start) / (TOKEN_INTERVAL_MS as int) <= len / (TOKEN_INTERVAL_MS as int)) by (
        nonlinear_arith)
            requires
                (l2 - start) % (TOKEN_INTERVAL_MS as int) == 0,
                0 <= l2 - start < len,
        ;
    }
}

/// The client's sustained rate: a bucket that enters a window drained
/// grants at most one request per 200 ms of the window — five per second,
/// over a window of any length. A bucket still holding tokens can exceed
/// this by what it holds, and by no more.
pub proof fn lemma_sustained_rate_bound(start: int, times: Seq<int>, len: int)
    requires
        times_ok(start, times),
        0 < len,
        forall|i: int| 0 <= i < times.len() ==> #[trigger] times[i] < start + len,
    ensures
        bucket_grants(0, start, times) <= len / (TOKEN_INTERVAL_MS as int),
{
    lemma_bucket_ledger(0, start, times);
    let (t2, l2) = bucket_run(0, start, times);
    if times.len() > 0 {
        assert(times.last() < start + len);
        assert((l2 - start) / (TOKEN_INTERVAL_MS as int) <= len / (TOKEN_INTERVAL_MS as int)) by (
        nonlinear_arith)
            requires
                (l2 - start) % (TOKEN_INTERVAL_MS as int) == 0,
                0 <= l2 - start < len,
        ;
    }
}

/// The client's burst in one second: a bucket that enters the window with
/// four tokens of headroom grants at most the burst of twenty within it.
/// A bucket entering fuller can exceed twenty by the tokens it accrues
/// inside the window.
pub proof fn lemma_burst_window_bound(tokens: nat, start: int, times: Seq<int>, len: int)
    requires
        tokens + 4 <= BURST_TOKENS,
        times_ok(start, times),
        0 < len <= 1000,
        forall|i: int| 0 <= i < times.len() ==> #[trigger] times[i] < start + len,
    ensures
        bucket_grants(tokens, start, times) <= BURST_TOKENS,
{
    lemma_bucket_ledger(tokens, start, times);
    let (t2, l2) = bucket_run(tokens, start, times);
    if times.len() > 0 {
        assert(times.last() < start + len);
        assert((l2 - start) / (TOKEN_INTERVAL_MS as int) <= 4) by (nonlinear_arith)
            requires
                (l2 - start) % (TOKEN_INTERVAL_MS as int) == 0,
                0 <= l2 - start < 1000,
        ;
    }
}

/// The request path for one season of a series.
pub fn tv_season_details_path(tv_id: u64, season_number: u64) -> (r: String)
    ensures
        r@ == "/tv/"@ + dec_of(tv_id as nat) + "/season/"@ + dec_of(season_number as nat),
{
    let r = String::from_str("/tv/").concat(u64_to_dec(tv_id).as_str());
    let r = r.concat("/season/");
    r.concat(u64_to_dec(season_number).as_str())
}

} // verus!
