use candi::state::{
    add_bookmark, format_rfc3339_utc, unix_days_to_ymd, parse_sidecar, remove_bookmark, retain_bookmarks_in,
    sidecar_path, toggle_bookmark, Bookmark, Error, Load, Position,
};

#[test]
fn sidecar_path_appends_suffix_in_same_directory() {
    assert_eq!(sidecar_path("/tmp/docs/book.pdf"), "/tmp/docs/book.pdf.candi.toml");
}

#[test]
fn load_known_timestamp_from_sidecar_text() {
    let text = r#"schema_version = 1
[reading]
page = 7
scroll = 3
updated_at = "2026-08-20T12:00:00Z"
"#;
    match parse_sidecar(text).unwrap() {
        Load::Loaded(position) => {
            assert_eq!(position.page(), 7);
            assert_eq!(position.scroll(), 3);
            assert_eq!(position.updated_at(), "2026-08-20T12:00:00Z");
        }
        other => panic!("expected Loaded, got {other:?}"),
    }
}

#[test]
fn corrupt_toml_returns_corrupt() {
    match parse_sidecar("not valid {{{ toml").unwrap() {
        Load::Corrupt(message) => assert!(!message.is_empty()),
        other => panic!("expected Corrupt, got {other:?}"),
    }
}

#[test]
fn schema_version_two_returns_unsupported_schema() {
    let text = r#"schema_version = 2
[reading]
page = 0
scroll = 0
updated_at = "2026-08-20T12:00:00Z"
"#;
    match parse_sidecar(text) {
        Err(Error::UnsupportedSchema { found: 2 }) => {}
        other => panic!("expected UnsupportedSchema {{ found: 2 }}, got {other:?}"),
    }
}

#[test]
fn schema_version_zero_returns_corrupt() {
    let text = r#"schema_version = 0
[reading]
page = 0
scroll = 0
updated_at = "2026-08-20T12:00:00Z"
"#;
    assert!(matches!(parse_sidecar(text).unwrap(), Load::Corrupt(_)));
}

#[test]
fn empty_schema_version_returns_corrupt() {
    let text = r#"schema_version = ""
[reading]
page = 0
scroll = 0
updated_at = "2026-08-20T12:00:00Z"
"#;
    assert!(matches!(parse_sidecar(text).unwrap(), Load::Corrupt(_)));
}

#[test]
fn missing_or_negative_fields_name_the_field() {
    let text = "schema_version = 1\n[reading]\npage = -1\nscroll = 0\nupdated_at = \"t\"\n";
    match parse_sidecar(text).unwrap() {
        Load::Corrupt(message) => assert_eq!(message, "negative page"),
        other => panic!("expected Corrupt, got {other:?}"),
    }
    let text = "schema_version = 1\n[reading]\npage = 1\nscroll = 0\n";
    match parse_sidecar(text).unwrap() {
        Load::Corrupt(message) => assert_eq!(message, "missing updated_at"),
        other => panic!("expected Corrupt, got {other:?}"),
    }
    match parse_sidecar("schema_version = 1\n").unwrap() {
        Load::Corrupt(message) => assert_eq!(message, "missing [reading]"),
        other => panic!("expected Corrupt, got {other:?}"),
    }
    match parse_sidecar("page = 1\n").unwrap() {
        Load::Corrupt(message) => assert_eq!(message, "missing schema_version"),
        other => panic!("expected Corrupt, got {other:?}"),
    }
}

#[test]
fn unsupported_schema_error_names_the_version() {
    assert_eq!(
        Error::UnsupportedSchema { found: 3 }.to_string(),
        "unsupported sidecar schema version 3"
    );
    assert_eq!(
        Error::UnsupportedSchema { found: -4 }.to_string(),
        "unsupported sidecar schema version -4"
    );
}

#[test]
fn positions_keep_their_fields() {
    let p = Position::new(42, 12, "2026-08-20T12:00:00Z");
    assert_eq!((p.page(), p.scroll(), p.updated_at()), (42, 12, "2026-08-20T12:00:00Z"));
}

#[test]
fn timestamps_format_as_rfc3339_utc() {
    assert_eq!(format_rfc3339_utc(0), "1970-01-01T00:00:00Z");
    assert_eq!(format_rfc3339_utc(951_782_400), "2000-02-29T00:00:00Z");
    assert_eq!(format_rfc3339_utc(1_787_229_000), "2026-08-20T12:30:00Z");
}

#[test]
fn bookmark_lists_dedup_by_page_and_toggle() {
    let mut bookmarks: Vec<Bookmark> = Vec::new();
    let now = "2026-08-20T12:00:00Z";

    add_bookmark(&mut bookmarks, 5, now.to_string());
    add_bookmark(&mut bookmarks, 5, now.to_string());
    assert_eq!(bookmarks.len(), 1);

    toggle_bookmark(&mut bookmarks, 5, now.to_string());
    assert!(bookmarks.is_empty());

    toggle_bookmark(&mut bookmarks, 5, now.to_string());
    assert_eq!(bookmarks.len(), 1);
    assert_eq!(bookmarks[0].page, 5);
    assert!(bookmarks[0].created_at.ends_with('Z'));

    remove_bookmark(&mut bookmarks, 9);
    assert_eq!(bookmarks.len(), 1);

    remove_bookmark(&mut bookmarks, 5);
    assert!(bookmarks.is_empty());
}

#[test]
fn clamping_drops_bookmarks_past_the_document() {
    let mut bookmarks: Vec<Bookmark> = [1, 4, 2, 9]
        .iter()
        .map(|&page| Bookmark { page, created_at: "t".into() })
        .collect();
    retain_bookmarks_in(&mut bookmarks, 3);
    let pages: Vec<usize> = bookmarks.iter().map(|b| b.page).collect();
    assert_eq!(pages, vec![1, 2]);
}

#[test]
fn days_map_to_civil_dates_on_both_sides_of_the_epoch() {
    assert_eq!(unix_days_to_ymd(0), (1970, 1, 1));
    assert_eq!(unix_days_to_ymd(-1), (1969, 12, 31));
    assert_eq!(unix_days_to_ymd(11_016), (2000, 2, 29));
    assert_eq!(unix_days_to_ymd(20_685), (2026, 8, 20));
    assert_eq!(unix_days_to_ymd(-719_468), (0, 3, 1));
}

#[test]
fn far_future_timestamps_format_exactly() {
    assert_eq!(format_rfc3339_utc(253_402_300_799), "9999-12-31T23:59:59Z");
    assert_eq!(format_rfc3339_utc(253_402_300_800), "10000-01-01T00:00:00Z");
}
