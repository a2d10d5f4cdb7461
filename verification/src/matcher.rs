//! The matcher's resolution rules: what a parsed file name looks like,
//! which catalog candidates it may be matched to, and which candidates are
//! worth fetching full details for.

use crate::dates::{date_info, date_year};
use crate::tmdb::{MovieDetails, MovieSearchResult, TvSearchResult, TvShowDetails};
use vstd::prelude::*;

verus! {

/// How many surviving candidates the matcher fetches full details for.
pub const MAX_CANDIDATE_CHECKS: usize = 4;

/// A file name parsed into what the catalog can be asked about.
pub struct ParsedFile {
    pub title: String,
    pub year: Option<i32>,
    pub season_number: Option<i32>,
    pub episodes: Vec<i32>,
}

impl ParsedFile {
    /// A name without a season number is movie-shaped.
    pub open spec fn movie_shaped(self) -> bool {
        self.season_number is None
    }

    pub fn is_movie(&self) -> (r: bool)
        ensures
            r == self.movie_shaped(),
    {
        self.season_number.is_none()
    }

    pub fn is_series(&self) -> (r: bool)
        ensures
            r == !self.movie_shaped(),
    {
        self.season_number.is_some()
    }
}

/// What the matcher resolved a file to.
pub enum MatchResult {
    Movie(MovieDetails),
    Series { show: TvShowDetails, parsed: ParsedFile },
}

/// One search result, reduced to what the allow filter reads.
pub enum Candidate {
    Movie { tmdb_id: i64, title: String, release_year: Option<i32> },
    Series {
        tmdb_id: i64,
        title: String,
        first_air_year: Option<i32>,
        last_air_year: Option<i32>,
        season_count: Option<i32>,
        episode_count: Option<i32>,
    },
}

/// The highest episode number parsed from the name, zero when none was.
pub open spec fn max_episode(eps: Seq<i32>) -> int
    decreases eps.len(),
{
    if eps.len() == 0 {
        0
    } else {
        let m = max_episode(eps.drop_last());
        if eps.last() > m {
            eps.last() as int
        } else {
            m
        }
    }
}

/// Computes the highest parsed episode number, zero when none was parsed.
pub fn highest_episode(eps: &Vec<i32>) -> (r: i32)
    ensures
        r as int == max_episode(eps@),
{
    let n = eps.len();
    if n == 0 {
        return 0;
    }
    let mut m = eps[0];
    proof {
        assert(max_episode(Seq::<i32>::empty()) == 0);
        assert(eps@.subrange(0, 1).drop_last() =~= Seq::<i32>::empty());
        assert(eps@.subrange(0, 1).last() == eps@[0]);
        assert(max_episode(eps@.subrange(0, 1)) == if eps@[0] > 0 {
            eps@[0] as int
        } else {
            0int
        });
    }
    if m < 0 {
        m = 0;
    }
    let mut i: usize = 1;
    while i < n
        invariant
            1 <= i <= n,
            n == eps@.len(),
            m as int == max_episode(eps@.subrange(0, i as int)),
        decreases n - i,
    {
        proof {
            assert(eps@.subrange(0, i as int + 1).drop_last() =~= eps@.subrange(0, i as int));
            assert(eps@.subrange(0, i as int + 1).last() == eps@[i as int]);
        }
        if eps[i] > m {
            m = eps[i];
        }
        i = i + 1;
    }
    proof {
        assert(eps@.subrange(0, n as int) =~= eps@);
    }
    m
}

/// The allow filter: whether a candidate may stand for a parsed file.
/// A movie candidate needs a movie-shaped name, and when the name carries
/// a year, a release year at most one year off. A series candidate needs a
/// series-shaped name, enough seasons and episodes where those counts are
/// known, and air dates that surround the name's year, one year of slack
/// either side.
pub open spec fn allowed_match(c: Candidate, p: ParsedFile) -> bool {
    match c {
        Candidate::Movie { release_year, .. } => {
            &&& p.movie_shaped()
            &&& match p.year {
                None => true,
                Some(y) => match release_year {
                    None => false,
                    Some(ry) => -1 <= y - ry <= 1,
                },
            }
        },
        Candidate::Series {
            first_air_year, last_air_year, season_count, episode_count, ..
        } => {
            &&& !p.movie_shaped()
            &&& match season_count {
                Some(sc) => p.season_number matches Some(ps) && ps <= sc,
                None => true,
            }
            &&& match episode_count {
                Some(ec) => max_episode(p.episodes@) <= ec && ec != 0,
                None => true,
            }
            &&& match p.year {
                Some(y) => (match first_air_year {
                    Some(f) => y + 1 >= f,
                    None => true,
                }) && (match last_air_year {
                    Some(l) => y - 1 <= l,
                    None => true,
                }),
                None => true,
            }
        },
    }
}

impl Candidate {
    /// Applies the allow filter to this candidate.
    pub fn is_allowed_match(&self, parsed_file: &ParsedFile) -> (r: bool)
        ensures
            r == allowed_match(*self, *parsed_file),
    {
        match self {
            Candidate::Movie { release_year, .. } => {
                if parsed_file.is_series() {
                    return false;
                }
                match parsed_file.year {
                    None => true,
                    Some(y) => match release_year {
                        None => false,
                        Some(ry) => {
                            let ry = *ry;
                            y as i64 - ry as i64 <= 1 && ry as i64 - y as i64 <= 1
                        },
                    },
                }
            },
            Candidate::Series {
                first_air_year, last_air_year, season_count, episode_count, ..
            } => {
                if parsed_file.is_movie() {
                    return false;
                }
                if let Some(sc) = season_count {
                    match parsed_file.season_number {
                        Some(ps) => {
                            if ps > *sc {
                                return false;
                            }
                        },
                        None => {
                            return false;
                        },
                    }
                }
                if let Some(ec) = episode_count {
                    let highest = highest_episode(&parsed_file.episodes);
                    if highest > *ec || *ec == 0 {
                        return false;
                    }
                }
                if let Some(y) = parsed_file.year {
                    if let Some(f) = first_air_year {
                        if y as i64 + 1 < *f as i64 {
                            return false;
                        }
                    }
                    if let Some(l) = last_air_year {
                        if y as i64 - 1 > *l as i64 {
                            return false;
                        }
                    }
                }
                true
            },
        }
    }

    /// The candidate's display title.
    pub fn title(&self) -> (r: &str)
        ensures
            match *self {
                Candidate::Movie { title, .. } => r@ == title@,
                Candidate::Series { title, .. } => r@ == title@,
            },
    {
        match self {
            Candidate::Movie { title, .. } => title.as_str(),
            Candidate::Series { title, .. } => title.as_str(),
        }
    }
}

/// The year a catalog date string carries, if it parses.
pub open spec fn opt_year(d: Option<String>) -> Option<i32> {
    match d {
        Some(s) => match date_info(s@) {
            Some(p) => Some(p.0),
            None => None,
        },
        None => None,
    }
}

/// Reads the year off an optional catalog date.
pub fn opt_date_year(d: &Option<String>) -> (r: Option<i32>)
    ensures
        r == opt_year(*d),
{
    match d {
        Some(s) => date_year(s.as_str()),
        None => None,
    }
}

/// The candidate a movie search result reduces to.
pub fn movie_candidate(r: &MovieSearchResult) -> (c: Candidate)
    ensures
        c matches Candidate::Movie { tmdb_id, title, release_year } && tmdb_id == r.id && title@
            == r.title@ && release_year == opt_year(r.release_date),
{
    Candidate::Movie {
        tmdb_id: r.id,
        title: r.title.clone(),
        release_year: opt_date_year(&r.release_date),
    }
}

/// The candidate a series search result reduces to: the search page knows
/// only the first air date, so the other columns stay open.
pub fn series_candidate(r: &TvSearchResult) -> (c: Candidate)
    ensures
        c matches Candidate::Series {
            tmdb_id,
            title,
            first_air_year,
            last_air_year,
            season_count,
            episode_count,
        } && tmdb_id == r.id && title@ == r.name@ && first_air_year == opt_year(r.first_air_date)
            && last_air_year is None && season_count is None && episode_count is None,
{
    Candidate::Series {
        tmdb_id: r.id,
        title: r.name.clone(),
        first_air_year: opt_date_year(&r.first_air_date),
        last_air_year: None,
        season_count: None,
        episode_count: None,
    }
}

/// The candidate full series details reduce to, for the second pass of the
/// allow filter. Counts must fit the filter's 32-bit columns; the catalog
/// keeps both well below that.
pub fn full_series_candidate(show: &TvShowDetails) -> (c: Candidate)
    requires
        show.number_of_seasons matches Some(v) ==> i32::MIN <= v <= i32::MAX,
        show.number_of_episodes matches Some(v) ==> i32::MIN <= v <= i32::MAX,
    ensures
        c matches Candidate::Series {
            tmdb_id,
            title,
            first_air_year,
            last_air_year,
            season_count,
            episode_count,
        } && tmdb_id == show.id && title@ == show.name@ && first_air_year == opt_year(
            show.first_air_date,
        ) && last_air_year == opt_year(show.last_air_date) && season_count == match show
            .number_of_seasons {
            Some(v) => Some(v as i32),
            None => None::<i32>,
        } && episode_count == match show.number_of_episodes {
            Some(v) => Some(v as i32),
            None => None::<i32>,
        },
{
    Candidate::Series {
        tmdb_id: show.id,
        title: show.name.clone(),
        first_air_year: opt_date_year(&show.first_air_date),
        last_air_year: opt_date_year(&show.last_air_date),
        season_count: match show.number_of_seasons {
            Some(v) => Some(v as i32),
            None => None,
        },
        episode_count: match show.number_of_episodes {
            Some(v) => Some(v as i32),
            None => None,
        },
    }
}

/// How long the worker backs off after a failed attempt, in seconds.
pub const MATCH_RETRY_SECS: u64 = 30;

/// How long the worker sleeps when no file waits, in seconds.
pub const MATCH_IDLE_SECS: u64 = 5;

/// How one attempt at a file ended.
pub enum MatchAttempt {
    /// The catalog was written and the file linked.
    Matched,
    /// The catalog lacks the season the name claims: the show was written
    /// but nothing linked. The file counts as handled, so that it cannot
    /// keep the worker looping.
    SeasonMissing,
    /// No candidate survived the filters: the file is given up on.
    NoCandidate,
    /// The name yields no parse: the file is marked permanently
    /// unmatchable. (The alternative — leaving it pending — would retry a
    /// hopeless name forever; clearing is the policy chosen here.)
    Unparsable,
    /// The catalog API failed: a later attempt may fare better.
    ApiError,
}

/// What the worker does next with the file.
#[derive(PartialEq, Eq, Structural)]
pub enum WorkerAction {
    /// Clear the file's `pending_auto_match` flag and take the next file.
    MarkHandled,
    /// Keep the flag, back off for [`MATCH_RETRY_SECS`], and retry later.
    RetryLater,
}

/// The worker's failure policy: only an API error is retried; every other
/// outcome — a match, a missing season, no surviving candidate, an
/// unparsable name — marks the file handled, exactly once.
pub fn worker_step(attempt: &MatchAttempt) -> (r: WorkerAction)
    ensures
        r == match *attempt {
            MatchAttempt::ApiError => WorkerAction::RetryLater,
            _ => WorkerAction::MarkHandled,
        },
{
    match attempt {
        MatchAttempt::ApiError => WorkerAction::RetryLater,
        _ => WorkerAction::MarkHandled,
    }
}

/// How a file name is resolved against the catalog.
pub enum ResolutionMethod {
    /// An explicit id tag names the entry outright; a series when the
    /// name is series-shaped, a movie otherwise.
    ByTmdbId { tmdb_id: i64, series: bool },
    /// An IMDB token is put to the catalog's find endpoint.
    ByImdbId,
    /// Otherwise the title is searched, movies or series by the name's
    /// shape.
    BySearch { series: bool },
}

/// Decides how a parsed name is resolved: an explicit id tag wins, then
/// an IMDB token, then a title search.
pub fn plan_resolution(parsed: &ParsedFile, tmdb_id: Option<i64>, has_imdb_id: bool) -> (r:
    ResolutionMethod)
    ensures
        match tmdb_id {
            Some(id) => r matches ResolutionMethod::ByTmdbId { tmdb_id: rid, series } && rid == id
                && series == !parsed.movie_shaped(),
            None => if has_imdb_id {
                r is ByImdbId
            } else {
                r matches ResolutionMethod::BySearch { series } && series
                    == !parsed.movie_shaped()
            },
        },
{
    match tmdb_id {
        Some(id) => ResolutionMethod::ByTmdbId { tmdb_id: id, series: parsed.is_series() },
        None => {
            if has_imdb_id {
                ResolutionMethod::ByImdbId
            } else {
                ResolutionMethod::BySearch { series: parsed.is_series() }
            }
        },
    }
}

/// What the catalog's find endpoint settled a name to.
pub enum FindOutcome {
    /// A movie came back: take it.
    Movie,
    /// Only a series came back and the name is series-shaped: take it.
    Series,
    /// Only a series came back for a movie-shaped name: no match.
    Mismatch,
    /// Nothing came back: fall through to the title search.
    Nothing,
}

/// Decides what an IMDB lookup's answer means: a movie result is
/// preferred; a series result stands only for a series-shaped name.
pub fn pick_find_result(parsed: &ParsedFile, has_movie: bool, has_tv: bool) -> (r: FindOutcome)
    ensures
        has_movie ==> r is Movie,
        !has_movie && has_tv && !parsed.movie_shaped() ==> r is Series,
        !has_movie && has_tv && parsed.movie_shaped() ==> r is Mismatch,
        !has_movie && !has_tv ==> r is Nothing,
{
    if has_movie {
        FindOutcome::Movie
    } else if has_tv {
        if parsed.is_series() {
            FindOutcome::Series
        } else {
            FindOutcome::Mismatch
        }
    } else {
        FindOutcome::Nothing
    }
}

/// How many of the first `j` candidates pass the allow filter.
pub open spec fn allowed_before(cands: Seq<Candidate>, p: ParsedFile, j: int) -> nat
    decreases j,
{
    if j <= 0 {
        0
    } else {
        allowed_before(cands, p, j - 1) + if allowed_match(cands[j - 1], p) {
            1nat
        } else {
            0nat
        }
    }
}

/// Picks the candidates worth fetching details for: the first
/// [`MAX_CANDIDATE_CHECKS`] that pass the allow filter, in the popularity
/// order the catalog returned them in.
pub fn allowed_candidate_indices(cands: &Vec<Candidate>, parsed: &ParsedFile) -> (r: Vec<usize>)
    ensures
        r@.len() <= MAX_CANDIDATE_CHECKS,
        forall|k: int|
            0 <= k < r@.len() ==> (#[trigger] r@[k]) < cands@.len() && allowed_match(
                cands@[r@[k] as int],
                *parsed,
            ) && allowed_before(cands@, *parsed, r@[k] as int) == k,
        forall|j: int|
            0 <= j < cands@.len() && allowed_match(#[trigger] cands@[j], *parsed) && allowed_before(
                cands@,
                *parsed,
                j,
            ) < MAX_CANDIDATE_CHECKS ==> r@.contains(j as usize),
{
    let mut r: Vec<usize> = Vec::new();
    let n = cands.len();
    for i in 0..n
        invariant
            n == cands@.len(),
            r@.len() <= MAX_CANDIDATE_CHECKS,
            r@.len() <= i,
            allowed_before(cands@, *parsed, i as int) >= r@.len(),
            r@.len() < MAX_CANDIDATE_CHECKS ==> allowed_before(cands@, *parsed, i as int)
                == r@.len(),
            forall|k: int|
                0 <= k < r@.len() ==> (#[trigger] r@[k]) < i && allowed_match(
                    cands@[r@[k] as int],
                    *parsed,
                ) && allowed_before(cands@, *parsed, r@[k] as int) == k,
            forall|j: int|
                0 <= j < i && allowed_match(#[trigger] cands@[j], *parsed) && allowed_before(
                    cands@,
                    *parsed,
                    j,
                ) < MAX_CANDIDATE_CHECKS ==> r@.contains(j as usize),
    {
        let ghost r0 = r@;
        if r.len() < MAX_CANDIDATE_CHECKS && cands[i].is_allowed_match(parsed) {
            r.push(i);
            proof {
                assert(r@ == r0.push(i as usize));
                assert(r@[r0.len() as int] == i as usize);
                assert(forall|k: int| 0 <= k < r0.len() ==> #[trigger] r@[k] == r0[k]);
                assert forall|j: int|
                    0 <= j < i + 1 && allowed_match(#[trigger] cands@[j], *parsed)
                        && allowed_before(cands@, *parsed, j) < MAX_CANDIDATE_CHECKS implies r@
                    .contains(j as usize) by {
                    if j < i {
                        assert(r0.contains(j as usize));
                        let k = choose|k: int| 0 <= k < r0.len() && r0[k] == j as usize;
                        assert(r@[k] == j as usize);
                    } else {
                        assert(r@[r0.len() as int] == j as usize);
                    }
                }
            }
        } else {
            proof {
                if allowed_match(cands@[i as int], *parsed) {
                    assert(r@.len() == MAX_CANDIDATE_CHECKS);
                }
                assert forall|j: int|
                    0 <= j < i + 1 && allowed_match(#[trigger] cands@[j], *parsed)
                        && allowed_before(cands@, *parsed, j) < MAX_CANDIDATE_CHECKS implies r@
                    .contains(j as usize) by {
                    if j < i {
                        assert(r@.contains(j as usize));
                    } else {
                        assert(allowed_before(cands@, *parsed, j) >= MAX_CANDIDATE_CHECKS);
                    }
                }
            }
        }
    }
    r
}

} // verus!
