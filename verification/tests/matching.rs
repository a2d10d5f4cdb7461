use lyra::auth::{
    check_setup_code, init_state, session_expired, setup_attempt_allowed, AuthError, InitState,
    PermissionGuard, Permissions, RequestAuth, PERMISSION_ADMIN, PERMISSION_CREATE_INVITE,
    PERMISSION_CREATE_USER,
};
use lyra::proxy::{cache_file_name, is_url_allowed};
use lyra::query::{MediaOrderBy, MediaOrderDirection};
use lyra::dates::{date_epoch, date_year};
use lyra::matcher::{
    allowed_candidate_indices, full_series_candidate, movie_candidate, pick_find_result,
    plan_resolution, series_candidate, worker_step, Candidate, FindOutcome, MatchAttempt,
    ParsedFile, ResolutionMethod, WorkerAction,
};
use lyra::media::{MediaCatalog, MediaType};
use lyra::scanner::{FileTable, ScanEntry};
use lyra::tmdb::{
    image_url, movie_details_path, tv_details_path, tv_season_details_path, MovieDetails,
    MovieSearchResult, TvEpisode, TvSeasonDetails, TvShowDetails,
};

fn parsed(title: &str, year: Option<i32>, season: Option<i32>, episodes: Vec<i32>) -> ParsedFile {
    ParsedFile { title: title.to_string(), year, season_number: season, episodes }
}

fn movie(tmdb_id: i64, title: &str, release_year: Option<i32>) -> Candidate {
    Candidate::Movie { tmdb_id, title: title.to_string(), release_year }
}

fn scanned_table(key: &str) -> FileTable {
    let mut files = FileTable::new();
    files.scan_pass(
        &"movies".to_string(),
        100,
        &vec![ScanEntry { key: key.to_string(), size_bytes: 500 * 1024 * 1024 }],
    );
    files
}

fn matrix_details() -> MovieDetails {
    MovieDetails {
        id: 603,
        title: "The Matrix".to_string(),
        overview: Some("A computer hacker learns the truth.".to_string()),
        release_date: Some("1999-03-30".to_string()),
        runtime: Some(136),
        vote_average_milli: Some(8200),
        poster_path: Some("/matrix.jpg".to_string()),
        backdrop_path: None,
    }
}

#[test]
fn movie_year_filter_allows_one_year_of_slack() {
    let p = parsed("The Matrix", Some(1999), None, vec![]);
    assert!(movie(603, "The Matrix", Some(1999)).is_allowed_match(&p));
    assert!(movie(603, "The Matrix", Some(2000)).is_allowed_match(&p));
    assert!(movie(603, "The Matrix", Some(1998)).is_allowed_match(&p));
    assert!(!movie(603, "The Matrix", Some(1997)).is_allowed_match(&p));
    assert!(!movie(603, "The Matrix", Some(2001)).is_allowed_match(&p));
    // a dated file never matches an undated candidate
    assert!(!movie(603, "The Matrix", None).is_allowed_match(&p));
    // an undated file matches anything of the right shape
    let p = parsed("The Matrix", None, None, vec![]);
    assert!(movie(603, "The Matrix", None).is_allowed_match(&p));
    // a series-shaped file never matches a movie
    let p = parsed("The Matrix", Some(1999), Some(1), vec![1]);
    assert!(!movie(603, "The Matrix", Some(1999)).is_allowed_match(&p));
}

#[test]
fn series_filter_checks_counts_and_air_dates() {
    let p = parsed("Arcane", Some(2021), Some(1), vec![1]);
    let base = Candidate::Series {
        tmdb_id: 94605,
        title: "Arcane".to_string(),
        first_air_year: Some(2021),
        last_air_year: Some(2024),
        season_count: Some(2),
        episode_count: Some(18),
    };
    assert!(base.is_allowed_match(&p));
    // not enough seasons
    let p3 = parsed("Arcane", Some(2021), Some(3), vec![1]);
    assert!(!base.is_allowed_match(&p3));
    // not enough episodes
    let p_many = parsed("Arcane", Some(2021), Some(1), vec![1022]);
    assert!(!base.is_allowed_match(&p_many));
    // a zero episode count is no evidence of anything
    let empty = Candidate::Series {
        tmdb_id: 1,
        title: "Arcane".to_string(),
        first_air_year: Some(2021),
        last_air_year: None,
        season_count: None,
        episode_count: Some(0),
    };
    assert!(!empty.is_allowed_match(&p));
    // a file dated before the first air year is wrong
    let p_old = parsed("Arcane", Some(2019), Some(1), vec![1]);
    assert!(!base.is_allowed_match(&p_old));
    // one year early is fine
    let p_2020 = parsed("Arcane", Some(2020), Some(1), vec![1]);
    assert!(base.is_allowed_match(&p_2020));
    // a file dated well after the last air year is wrong
    let p_late = parsed("Arcane", Some(2026), Some(1), vec![1]);
    assert!(!base.is_allowed_match(&p_late));
    // a movie-shaped file never matches a series
    let p_movie = parsed("Arcane", Some(2021), None, vec![]);
    assert!(!base.is_allowed_match(&p_movie));
}

#[test]
fn candidate_selection_takes_the_first_four_surviving() {
    let p = parsed("It", Some(2017), None, vec![]);
    let cands = vec![
        movie(1, "It", Some(1990)),  // rejected
        movie(2, "It", Some(2017)),
        movie(3, "It", Some(2016)),
        movie(4, "It", None),        // rejected
        movie(5, "It", Some(2018)),
        movie(6, "It", Some(2017)),
        movie(7, "It", Some(2017)),  // fifth survivor: over the cap
    ];
    let picks = allowed_candidate_indices(&cands, &p);
    assert_eq!(picks, vec![1, 2, 4, 5]);
}

#[test]
fn search_results_reduce_to_candidates() {
    let c = movie_candidate(&MovieSearchResult {
        id: 603,
        title: "The Matrix".to_string(),
        release_date: Some("1999-03-30".to_string()),
    });
    match &c {
        Candidate::Movie { tmdb_id, title, release_year } => {
            assert_eq!(*tmdb_id, 603);
            assert_eq!(title, "The Matrix");
            assert_eq!(*release_year, Some(1999));
        },
        _ => panic!("expected a movie candidate"),
    }
    let c = series_candidate(&lyra::tmdb::TvSearchResult {
        id: 94605,
        name: "Arcane".to_string(),
        first_air_date: Some("2021-11-06".to_string()),
    });
    match &c {
        Candidate::Series { first_air_year, season_count, .. } => {
            assert_eq!(*first_air_year, Some(2021));
            assert_eq!(*season_count, None);
        },
        _ => panic!("expected a series candidate"),
    }
}

#[test]
fn matched_movie_is_written_once_and_linked() {
    // the discovered file passes the year filter and lands in the catalog
    let files = scanned_table("The.Matrix.1999.1080p.mkv");
    let file_id = files.rows[0].id;
    let p = parsed("The Matrix", Some(1999), None, vec![]);
    let c = movie_candidate(&MovieSearchResult {
        id: 603,
        title: "The Matrix".to_string(),
        release_date: Some("1999-03-30".to_string()),
    });
    assert!(c.is_allowed_match(&p));

    let mut catalog = MediaCatalog::new();
    catalog.apply_movie_match(&files, file_id, &matrix_details());
    assert_eq!(catalog.media_rows.len(), 1);
    let row = &catalog.media_rows[0];
    assert_eq!(row.tmdb_parent_id, 603);
    assert_eq!(row.tmdb_item_id, 603);
    assert_eq!(row.name, "The Matrix");
    assert!(matches!(row.media_type, MediaType::Movie));
    assert_eq!(row.poster_url, Some("https://image.tmdb.org/t/p/original/matrix.jpg".to_string()));
    assert_eq!(row.season_number, None);
    assert_eq!(catalog.connections.len(), 1);
    assert_eq!(catalog.connections[0].media_id, row.id);
    assert_eq!(catalog.connections[0].file_id, file_id);

    // and the file's flag is cleared
    let mut files = files;
    files.clear_pending(file_id);
    assert!(!files.rows[0].pending_auto_match);
    assert_eq!(files.next_pending(), None);
}

#[test]
fn matching_twice_writes_nothing_new() {
    let files = scanned_table("The.Matrix.1999.1080p.mkv");
    let file_id = files.rows[0].id;
    let mut catalog = MediaCatalog::new();
    catalog.apply_movie_match(&files, file_id, &matrix_details());
    let media_before = catalog.media_rows.len();
    let conns_before = catalog.connections.len();
    let id_before = catalog.media_rows[0].id;
    catalog.apply_movie_match(&files, file_id, &matrix_details());
    assert_eq!(catalog.media_rows.len(), media_before);
    assert_eq!(catalog.connections.len(), conns_before);
    assert_eq!(catalog.media_rows[0].id, id_before);
    assert_eq!(catalog.media_rows[0].name, "The Matrix");
}

fn arcane_show() -> TvShowDetails {
    TvShowDetails {
        id: 94605,
        name: "Arcane".to_string(),
        overview: None,
        first_air_date: Some("2021-11-06".to_string()),
        last_air_date: Some("2021-11-20".to_string()),
        in_production: true,
        number_of_seasons: Some(1),
        number_of_episodes: Some(3),
        vote_average_milli: Some(8700),
        poster_path: None,
        backdrop_path: None,
        seasons: vec![lyra::tmdb::TvSeason { id: 1, season_number: 1 }],
    }
}

fn arcane_season() -> TvSeasonDetails {
    let ep = |id: i64, n: i64, name: &str| TvEpisode {
        id,
        name: name.to_string(),
        overview: None,
        air_date: Some("2021-11-06".to_string()),
        episode_number: n,
        runtime: Some(41),
        vote_average_milli: None,
        still_path: None,
    };
    TvSeasonDetails {
        id: 1,
        name: "Season 1".to_string(),
        overview: None,
        season_number: 1,
        episodes: vec![
            ep(1953812, 1, "Welcome to the Playground"),
            ep(1953813, 2, "Some Mysteries Are Better Left Unsolved"),
            ep(1953814, 3, "The Base Violence Necessary for Change"),
        ],
    }
}

#[test]
fn matched_show_upserts_every_episode_but_links_only_the_named_one() {
    // the file names season 1 episode 1; the whole season is written, the
    // file is linked to episode 1 alone
    let files = scanned_table("Arcane (2021) {imdb-tt11126994}/S01E01.mkv");
    let file_id = files.rows[0].id;
    let mut catalog = MediaCatalog::new();
    catalog.apply_show_match(&files, file_id, &arcane_show(), 1, &vec![1], &arcane_season());

    // one show row and three episode rows
    assert_eq!(catalog.media_rows.len(), 4);
    let show = &catalog.media_rows[0];
    assert!(matches!(show.media_type, MediaType::Show));
    assert_eq!(show.tmdb_parent_id, 94605);
    assert_eq!(show.tmdb_item_id, 94605);
    // still in production: no end date
    assert_eq!(show.end_date, None);
    for (i, number) in [(1usize, 1i64), (2, 2), (3, 3)] {
        let row = &catalog.media_rows[i];
        assert!(matches!(row.media_type, MediaType::Episode));
        assert_eq!(row.tmdb_parent_id, 94605);
        assert_eq!(row.season_number, Some(1));
        assert_eq!(row.episode_number, Some(number));
        assert_eq!(row.parent_id, Some(show.id));
    }
    // exactly one link, to the episode the name claims
    assert_eq!(catalog.connections.len(), 1);
    let linked = catalog
        .media_rows
        .iter()
        .find(|r| r.id == catalog.connections[0].media_id)
        .unwrap();
    assert_eq!(linked.episode_number, Some(1));
    assert_eq!(catalog.connections[0].file_id, file_id);

    // writing the same match again changes nothing
    let media_before = catalog.media_rows.len();
    let conns_before = catalog.connections.len();
    catalog.apply_show_match(&files, file_id, &arcane_show(), 1, &vec![1], &arcane_season());
    assert_eq!(catalog.media_rows.len(), media_before);
    assert_eq!(catalog.connections.len(), conns_before);
}

#[test]
fn links_are_found_from_both_sides() {
    let files = scanned_table("Arcane (2021) {imdb-tt11126994}/S01E01.mkv");
    let file_id = files.rows[0].id;
    let mut catalog = MediaCatalog::new();
    catalog.apply_show_match(&files, file_id, &arcane_show(), 1, &vec![1], &arcane_season());
    let by_file = catalog.find_by_file_id(file_id);
    assert_eq!(by_file.len(), 1);
    assert_eq!(by_file[0].media_id, catalog.connections[0].media_id);
    let by_media = catalog.find_by_media_id(by_file[0].media_id);
    assert_eq!(by_media.len(), 1);
    assert_eq!(by_media[0].file_id, file_id);
    assert_eq!(catalog.find_by_media_id(99_999).len(), 0);
}

#[test]
fn full_details_refine_a_series_candidate() {
    let c = full_series_candidate(&arcane_show());
    let p = parsed("Arcane", Some(2021), Some(1), vec![1]);
    assert!(c.is_allowed_match(&p));
    let p_s3 = parsed("Arcane", Some(2021), Some(3), vec![1]);
    assert!(!c.is_allowed_match(&p_s3));
    assert_eq!(c.title(), "Arcane");
}

#[test]
fn resolution_prefers_explicit_ids() {
    let movie_name = parsed("The Matrix", Some(1999), None, vec![]);
    let series_name = parsed("Arcane", Some(2021), Some(1), vec![1]);
    assert!(matches!(
        plan_resolution(&movie_name, Some(603), true),
        ResolutionMethod::ByTmdbId { tmdb_id: 603, series: false }
    ));
    assert!(matches!(
        plan_resolution(&series_name, Some(94605), false),
        ResolutionMethod::ByTmdbId { tmdb_id: 94605, series: true }
    ));
    assert!(matches!(plan_resolution(&movie_name, None, true), ResolutionMethod::ByImdbId));
    assert!(matches!(
        plan_resolution(&series_name, None, false),
        ResolutionMethod::BySearch { series: true }
    ));
    assert!(matches!(pick_find_result(&movie_name, true, true), FindOutcome::Movie));
    assert!(matches!(pick_find_result(&series_name, false, true), FindOutcome::Series));
    assert!(matches!(pick_find_result(&movie_name, false, true), FindOutcome::Mismatch));
    assert!(matches!(pick_find_result(&movie_name, false, false), FindOutcome::Nothing));
}

#[test]
fn only_api_errors_are_retried() {
    assert!(worker_step(&MatchAttempt::Matched) == WorkerAction::MarkHandled);
    assert!(worker_step(&MatchAttempt::SeasonMissing) == WorkerAction::MarkHandled);
    assert!(worker_step(&MatchAttempt::NoCandidate) == WorkerAction::MarkHandled);
    assert!(worker_step(&MatchAttempt::Unparsable) == WorkerAction::MarkHandled);
    assert!(worker_step(&MatchAttempt::ApiError) == WorkerAction::RetryLater);
}

#[test]
fn catalog_dates_reduce_to_years_and_epochs() {
    assert_eq!(date_year("1999-03-30"), Some(1999));
    assert_eq!(date_year("2021-11-06"), Some(2021));
    assert_eq!(date_year("not-a-date"), None);
    assert_eq!(date_year("1999-13-40"), None);
    assert_eq!(date_epoch("1970-01-01"), Some(0));
    assert_eq!(date_epoch("1970-01-02"), Some(86_400));
}

#[test]
fn request_paths_are_exact() {
    assert_eq!(movie_details_path(603), "/movie/603");
    assert_eq!(tv_details_path(94605), "/tv/94605");
    assert_eq!(tv_season_details_path(94605, 1), "/tv/94605/season/1");
    assert_eq!(image_url("/matrix.jpg"), "https://image.tmdb.org/t/p/original/matrix.jpg");
}

#[test]
fn permissions_gate_requests() {
    let admin = Permissions::from_bits_truncate(PERMISSION_ADMIN | PERMISSION_CREATE_INVITE);
    assert!(admin.contains(Permissions::from_bits_truncate(PERMISSION_ADMIN)));
    assert!(!admin.contains(Permissions::from_bits_truncate(PERMISSION_CREATE_USER)));
    // unknown bits are dropped
    assert_eq!(Permissions::from_bits_truncate(0xFF00 | PERMISSION_ADMIN).bits, PERMISSION_ADMIN);

    let auth = RequestAuth {
        user: None,
        permissions: Permissions::from_bits_truncate(PERMISSION_CREATE_INVITE),
    };
    let guard = PermissionGuard::new(Permissions::from_bits_truncate(PERMISSION_CREATE_INVITE));
    assert!(guard.check(&auth).is_ok());
    let guard = PermissionGuard::new(Permissions::from_bits_truncate(PERMISSION_ADMIN));
    assert!(matches!(guard.check(&auth), Err(AuthError::InsufficientPermissions)));
}

#[test]
fn proxy_rules() {
    assert!(is_url_allowed("https://image.tmdb.org/t/p/original/matrix.jpg"));
    assert!(!is_url_allowed("https://example.com/evil.jpg"));
    assert!(!is_url_allowed("http"));
    assert_eq!(cache_file_name("abc123", None), "abc123_original.jpeg");
    assert_eq!(cache_file_name("abc123", Some((Some(640), None))), "abc123_640x0.jpeg");
    assert_eq!(cache_file_name("abc123", Some((Some(640), Some(480)))), "abc123_640x480.jpeg");
}

#[test]
fn fresh_clients_are_steered() {
    assert!(init_state(true, 5) == InitState::Ready);
    assert!(init_state(false, 5) == InitState::Login);
    assert!(init_state(false, 0) == InitState::CreateFirstUser);
}

#[test]
fn listing_pages_are_cut_after_the_cursor() {
    let p = lyra::query::page_bounds(None, None, 100);
    assert_eq!(p.limit, 25);
    assert_eq!(p.offset, 0);
    assert!(!p.has_previous_page);
    assert!(p.has_next_page);
    let p = lyra::query::page_bounds(Some(24), Some(25), 50);
    assert_eq!(p.offset, 25);
    assert!(p.has_previous_page);
    assert!(!p.has_next_page);
    let p = lyra::query::page_bounds(Some(24), Some(25), 51);
    assert!(p.has_next_page);
    let p = lyra::query::page_bounds(None, Some(0), 0);
    assert!(!p.has_next_page);
}

#[test]
fn listing_defaults_follow_the_column() {
    assert!(MediaOrderBy::AddedAt.get_default_direction() == MediaOrderDirection::Desc);
    assert!(MediaOrderBy::Rating.get_default_direction() == MediaOrderDirection::Desc);
    assert!(MediaOrderBy::Alphabetical.get_default_direction() == MediaOrderDirection::Asc);
    assert!(MediaOrderBy::SeasonEpisode.get_default_direction() == MediaOrderDirection::Asc);
}

#[test]
fn setup_code_rules() {
    assert!(matches!(check_setup_code(111_111, 123_456, 0), Err(AuthError::Unauthenticated)));
    assert!(matches!(check_setup_code(123_456, 123_456, 1), Err(AuthError::Unauthenticated)));
    let auth = check_setup_code(123_456, 123_456, 0).unwrap_or_else(|_| panic!("expected auth"));
    assert!(auth.user.is_none());
    assert_eq!(auth.permissions.bits, PERMISSION_CREATE_USER);
    assert!(setup_attempt_allowed(10, 8));
    assert!(!setup_attempt_allowed(10, 9));
    assert!(session_expired(100, 101));
    assert!(!session_expired(100, 100));
}
