use lyra::parser::{get_imdb_id, get_tmdb_id, parse_file_name, ParseError};
use lyra::session::parse_segment_line;

#[test]
fn test_parse_file_name_1() {
    let file_name = "The.Matrix.1999.1080p.BluRay.x264.mkv";
    let matchable = match parse_file_name(file_name) {
        Ok(p) => p,
        Err(_) => panic!("expected a parse"),
    };
    assert_eq!(matchable.title, "The Matrix");
    assert_eq!(matchable.year, Some(1999));

    let tmdb_id = get_tmdb_id(file_name);
    assert_eq!(tmdb_id, None);
}

#[test]
fn test_parse_file_name_2() {
    let file_name = "Batman Begins (2005) {imdb-tt0372784}.mp4";
    let matchable = match parse_file_name(file_name) {
        Ok(p) => p,
        Err(_) => panic!("expected a parse"),
    };
    assert_eq!(matchable.title, "Batman Begins");
    assert_eq!(matchable.year, Some(2005));

    let imdb_id = get_imdb_id(file_name);
    assert_eq!(imdb_id, Some("tt0372784".to_string()));
}

#[test]
fn test_parse_file_name_3() {
    let file_name = "Arcane (2021) {imdb-tt11126994}/Season 1/Arcane (2021) - S01E01 - Welcome to the Playground [NF WEBDL-1080p ReleaseGroup]";
    let matchable = match parse_file_name(file_name) {
        Ok(p) => p,
        Err(_) => panic!("expected a parse"),
    };
    assert_eq!(matchable.title, "Arcane");
    assert_eq!(matchable.year, Some(2021));

    let imdb_id = get_imdb_id(file_name);
    assert_eq!(imdb_id, Some("tt11126994".to_string()));
}

#[test]
fn season_and_episodes_parsed() {
    let parsed = parse_file_name("Arcane (2021) {imdb-tt11126994}/S01E01.mkv").unwrap_or_else(
        |_| panic!("expected a parse"),
    );
    assert_eq!(parsed.season_number, Some(1));
    assert_eq!(parsed.episodes, vec![1]);
    assert!(parsed.is_series());
    assert!(!parsed.is_movie());
}

#[test]
fn year_needs_word_boundaries() {
    // a year glued to letters is no year
    let parsed = parse_file_name("EDGE2020.mkv").unwrap_or_else(|_| panic!("expected a parse"));
    assert_eq!(parsed.year, None);
}

#[test]
fn year_takes_the_last_token() {
    let parsed = parse_file_name("2077 (2009).mkv").unwrap_or_else(|_| panic!("expected a parse"));
    assert_eq!(parsed.year, Some(2009));
}

#[test]
fn tmdb_tag_forms() {
    assert_eq!(get_tmdb_id("Movie {tmdb-603}.mkv"), Some(603));
    assert_eq!(get_tmdb_id("Movie {tmdbid=12345}.mkv"), Some(12345));
    assert_eq!(get_tmdb_id("Movie [tmdb-id-999].mkv"), Some(999));
    assert_eq!(get_tmdb_id("Movie {tmdb-99}.mkv"), None); // too short
    assert_eq!(get_tmdb_id("Movie tmdb-603.mkv"), None); // no brackets
    assert_eq!(get_tmdb_id("Movie {tmdb-99999999999999999999}.mkv"), None); // does not fit
}

#[test]
fn imdb_token_forms() {
    assert_eq!(get_imdb_id("a tt1234567 b"), Some("tt1234567".to_string()));
    assert_eq!(get_imdb_id("tt12345"), None); // too few digits
    assert_eq!(get_imdb_id("xtt1234567"), None); // no boundary before
    assert_eq!(get_imdb_id("tt1234567x"), None); // no boundary after
}

#[test]
fn unparsable_names_are_reported() {
    assert!(matches!(parse_file_name(""), Err(ParseError::NoTitle)));
    assert!(matches!(
        parse_file_name("Movie.12345678901.mkv"),
        Err(ParseError::NumberTooLong)
    ));
    // a name carrying decimal digits outside ASCII is refused before the
    // name parser ever sees it
    assert!(matches!(
        parse_file_name("Movie e\u{663}\u{664}.mkv"),
        Err(ParseError::NonAsciiDigits)
    ));
    assert!(matches!(
        parse_file_name("Movie \u{0966}\u{0967}\u{0968}.mkv"),
        Err(ParseError::NonAsciiDigits)
    ));
}

#[test]
fn segment_lines_are_read() {
    let r = parse_segment_line("[hls @ 0x55] writing /cache/seg-42.ts done");
    match r {
        Some((n, ext)) => {
            assert_eq!(n, 42);
            assert_eq!(ext, "ts");
        },
        None => panic!("expected an announcement"),
    }
    let r = parse_segment_line("seg-7.vtt");
    match r {
        Some((n, ext)) => {
            assert_eq!(n, 7);
            assert_eq!(ext, "vtt");
        },
        None => panic!("expected an announcement"),
    }
    assert!(parse_segment_line("no announcement here").is_none());
    assert!(parse_segment_line("seg-x.ts").is_none());
    // the first full announcement wins
    let r = parse_segment_line("seg-bad then seg-9.ts");
    match r {
        Some((n, ext)) => {
            assert_eq!(n, 9);
            assert_eq!(ext, "ts");
        },
        None => panic!("expected an announcement"),
    }
}
