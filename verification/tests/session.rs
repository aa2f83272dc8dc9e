use candi::session::{parse_session_sidecar, ScrollFrac, SessionLoad, SessionState, ONE_BITS};
use candi::state::{Bookmark, Error, ZoomMode, MAX_ZOOM_PERCENT, MIN_ZOOM_PERCENT};

fn loaded(load: SessionLoad) -> SessionState {
    match load {
        SessionLoad::Loaded(session) => session,
        other => panic!("expected Loaded, got {other:?}"),
    }
}

fn corrupt_message(load: SessionLoad) -> String {
    match load {
        SessionLoad::Corrupt(message) => message,
        other => panic!("expected Corrupt, got {other:?}"),
    }
}

fn frac(value: f64) -> ScrollFrac {
    ScrollFrac::Bits(value.to_bits())
}

#[test]
fn v1_sidecar_migrates_with_defaults() {
    let session = loaded(
        parse_session_sidecar(
            r#"schema_version = 1
[reading]
page = 7
scroll = 3
updated_at = "2026-08-20T12:00:00Z"
"#,
        )
        .unwrap(),
    );
    assert_eq!(session.page, 7);
    assert_eq!(session.scroll_frac, frac(0.0));
    assert_eq!(session.zoom, ZoomMode::FitWidth);
    assert_eq!(session.theme, "Light");
    assert!(session.bookmarks.is_empty());
}

#[test]
fn v2_sidecar_reads_every_field() {
    let session = loaded(
        parse_session_sidecar(
            r#"schema_version = 2
updated_at = "2026-08-20T12:00:00Z"

[reading]
page = 3
scroll_frac = 0.42
zoom = 120
theme = "Sepia"

[[bookmarks]]
page = 5
created_at = "2026-08-20T12:00:00Z"
"#,
        )
        .unwrap(),
    );
    assert_eq!(session.page, 3);
    assert_eq!(session.scroll_frac, frac(0.42));
    assert_eq!(session.zoom, ZoomMode::Percent(120));
    assert_eq!(session.theme, "Sepia");
    assert_eq!(
        session.bookmarks,
        vec![Bookmark { page: 5, created_at: "2026-08-20T12:00:00Z".to_owned() }]
    );
}

#[test]
fn garbage_returns_corrupt() {
    match parse_session_sidecar("not valid {{{ toml").unwrap() {
        SessionLoad::Corrupt(message) => assert!(!message.is_empty()),
        other => panic!("expected Corrupt, got {other:?}"),
    }
}

#[test]
fn schema_version_three_is_unsupported() {
    let text = r#"schema_version = 3
updated_at = "2026-08-20T12:00:00Z"
[reading]
page = 0
scroll_frac = 0.0
zoom = "fit-width"
theme = "Light"
"#;
    match parse_session_sidecar(text) {
        Err(Error::UnsupportedSchema { found: 3 }) => {}
        other => panic!("expected UnsupportedSchema {{ found: 3 }}, got {other:?}"),
    }
}

#[test]
fn absurd_schema_version_reports_the_written_value() {
    match parse_session_sidecar("schema_version = 4294967296\n") {
        Err(Error::UnsupportedSchema { found: 4294967296 }) => {}
        other => panic!("expected UnsupportedSchema {{ found: 4294967296 }}, got {other:?}"),
    }
}

#[test]
fn negative_schema_version_is_corrupt() {
    assert_eq!(
        corrupt_message(parse_session_sidecar("schema_version = -1\n").unwrap()),
        "negative schema_version"
    );
}

#[test]
fn missing_schema_version_is_corrupt() {
    assert_eq!(
        corrupt_message(parse_session_sidecar("[reading]\npage = 0\n").unwrap()),
        "missing schema_version"
    );
}

#[test]
fn non_finite_and_mistyped_fractions_are_corrupt() {
    let text = |frac: &str| {
        format!(
            "schema_version = 2\nupdated_at = \"t\"\n[reading]\npage = 0\nscroll_frac = {frac}\nzoom = \"fit-width\"\ntheme = \"Light\"\n"
        )
    };
    assert_eq!(
        corrupt_message(parse_session_sidecar(&text("nan")).unwrap()),
        "non-finite scroll_frac"
    );
    assert_eq!(
        corrupt_message(parse_session_sidecar(&text("inf")).unwrap()),
        "non-finite scroll_frac"
    );
    assert_eq!(
        corrupt_message(parse_session_sidecar(&text("\"half\"")).unwrap()),
        "invalid scroll_frac type"
    );
    assert_eq!(loaded(parse_session_sidecar(&text("1")).unwrap()).scroll_frac, ScrollFrac::Whole(1));
}

#[test]
fn missing_updated_at_is_corrupt() {
    let text = "schema_version = 2\n[reading]\npage = 0\nscroll_frac = 0.0\nzoom = \"fit-width\"\ntheme = \"Light\"\n";
    assert_eq!(corrupt_message(parse_session_sidecar(text).unwrap()), "missing updated_at");
}

#[test]
fn new_uses_document_defaults() {
    let session = SessionState::new(10);
    assert_eq!(session.page, 0);
    assert_eq!(session.scroll_frac, frac(0.0));
    assert_eq!(session.zoom, ZoomMode::FitWidth);
    assert_eq!(session.theme, "Light");
    assert!(session.bookmarks.is_empty());

    assert_eq!(SessionState::new(0), SessionState::new(1));
}

#[test]
fn clamp_to_bounds_page_and_fraction() {
    let beyond = SessionState { page: 9, ..SessionState::new(10) }.clamp_to(4);
    assert_eq!(beyond.page, 3);
    assert_eq!(SessionState::new(10).clamp_to(0).page, 0);

    let below = SessionState { scroll_frac: frac(-0.5), ..SessionState::new(10) }.clamp_to(10);
    assert_eq!(below.scroll_frac, frac(0.0));

    let above = SessionState { scroll_frac: frac(1.5), ..SessionState::new(10) }.clamp_to(10);
    assert_eq!(above.scroll_frac, frac(1.0));

    let non_finite = SessionState { scroll_frac: frac(f64::NAN), ..SessionState::new(10) }.clamp_to(10);
    assert_eq!(non_finite.scroll_frac, frac(0.0));

    let inside = SessionState { scroll_frac: frac(0.25), ..SessionState::new(10) }.clamp_to(10);
    assert_eq!(inside.scroll_frac, frac(0.25));

    let whole = SessionState { scroll_frac: ScrollFrac::Whole(3), ..SessionState::new(10) }.clamp_to(10);
    assert_eq!(whole.scroll_frac, ScrollFrac::Bits(ONE_BITS));
}

#[test]
fn clamp_to_drops_bookmarks_past_the_document() {
    let mut session = SessionState::new(10);
    session.add_bookmark(1, 1_787_227_200);
    session.add_bookmark(9, 1_787_227_200);

    let clamped = session.clamp_to(4);
    assert_eq!(
        clamped.bookmarks.iter().map(|b| b.page).collect::<Vec<_>>(),
        vec![1],
        "bookmarks past the last page are dropped"
    );
    assert!(SessionState::new(10).clamp_to(0).bookmarks.is_empty());
}

#[test]
fn absurd_zoom_percent_clamps_into_supported_range() {
    for (stored, expected) in [
        ("5000", ZoomMode::Percent(MAX_ZOOM_PERCENT)),
        ("1", ZoomMode::Percent(MIN_ZOOM_PERCENT)),
        ("120", ZoomMode::Percent(120)),
    ] {
        let text = format!(
            r#"schema_version = 2
updated_at = "2026-08-20T12:00:00Z"
[reading]
page = 0
scroll_frac = 0.0
zoom = {stored}
theme = "Light"
"#
        );
        assert_eq!(loaded(parse_session_sidecar(&text).unwrap()).zoom, expected, "{stored}");
    }
}

#[test]
fn bookmarks_dedup_by_page_and_toggle() {
    let mut session = SessionState::new(10);
    let now: u64 = 1_787_227_200;

    session.add_bookmark(5, now);
    session.add_bookmark(5, now);
    assert_eq!(session.bookmarks.len(), 1);

    session.toggle_bookmark(5, now);
    assert!(session.bookmarks.is_empty());

    session.toggle_bookmark(5, now);
    assert_eq!(session.bookmarks.len(), 1);
    assert_eq!(session.bookmarks[0].page, 5);
    assert!(session.bookmarks[0].created_at.ends_with('Z'));
    assert_eq!(session.bookmarks[0].created_at, "2026-08-20T12:00:00Z");

    session.remove_bookmark(9);
    assert_eq!(session.bookmarks.len(), 1);

    session.remove_bookmark(5);
    assert!(session.bookmarks.is_empty());
}

#[test]
fn opening_fits_loaded_sessions_and_starts_fresh_otherwise() {
    use_open_session_state();
}

fn use_open_session_state() {
    let saved = SessionState { page: 9, ..SessionState::new(10) };
    let (session, warning) =
        candi::cli::open_session_state(4, Ok(SessionLoad::Loaded(saved))).unwrap();
    assert_eq!(session.page, 3);
    assert!(warning.is_none());

    let (session, warning) =
        candi::cli::open_session_state(4, Ok(SessionLoad::Corrupt("bad".into()))).unwrap();
    assert_eq!(session, SessionState::new(4));
    assert_eq!(warning.as_deref(), Some("bad"));

    let (session, warning) = candi::cli::open_session_state(4, Ok(SessionLoad::Missing)).unwrap();
    assert_eq!(session, SessionState::new(4));
    assert!(warning.is_none());

    assert!(matches!(
        candi::cli::open_session_state(4, Err(Error::UnsupportedSchema { found: 3 })),
        Err(Error::UnsupportedSchema { found: 3 })
    ));
}
