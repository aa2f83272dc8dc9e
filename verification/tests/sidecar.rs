use candi::cli::save_reading_position;
use candi::session::{parse_session_sidecar, session_document, ScrollFrac, SessionLoad, SessionState};
use candi::navigation::ViewState;
use candi::state::{parse_sidecar, position_document, Bookmark, Load, Position, TomlValue, ZoomMode};

fn to_toml(v: &TomlValue) -> toml::Value {
    match v {
        TomlValue::String(s) => toml::Value::String(s.clone()),
        TomlValue::Integer(i) => toml::Value::Integer(*i),
        TomlValue::Float(bits) => toml::Value::Float(f64::from_bits(*bits)),
        TomlValue::Boolean(b) => toml::Value::Boolean(*b),
        TomlValue::Datetime(t) => toml::Value::String(t.clone()),
        TomlValue::Array(items) => toml::Value::Array(items.iter().map(to_toml).collect()),
        TomlValue::Table(entries) => {
            toml::Value::Table(entries.iter().map(|(k, v)| (k.clone(), to_toml(v))).collect())
        }
    }
}

fn text_of(doc: &TomlValue) -> String {
    toml::to_string_pretty(&to_toml(doc)).unwrap()
}

#[test]
fn round_trip_save_and_load() {
    let position = Position::new(42, 12, "2026-08-20T12:00:00Z");
    let text = text_of(&position_document(&position).unwrap());
    assert!(text.contains("schema_version = 1"), "{text}");
    match parse_sidecar(&text).unwrap() {
        Load::Loaded(loaded) => {
            assert_eq!(loaded.page(), 42);
            assert_eq!(loaded.scroll(), 12);
            assert_eq!(loaded.updated_at(), "2026-08-20T12:00:00Z");
        }
        other => panic!("expected Loaded, got {other:?}"),
    }
}

#[test]
fn positions_past_toml_integers_have_no_document() {
    assert!(position_document(&Position::new(usize::MAX, 0, "t")).is_none());
}

#[test]
fn session_v2_roundtrip_all_fields() {
    let session = SessionState {
        page: 3,
        scroll_frac: ScrollFrac::Bits(0.42f64.to_bits()),
        zoom: ZoomMode::FitWidth,
        theme: "Sepia".to_owned(),
        bookmarks: vec![Bookmark { page: 5, created_at: "2026-08-20T12:00:00Z".to_owned() }],
    };
    let text = text_of(&session_document(&session, "2026-08-21T08:00:00Z").unwrap());
    assert!(text.contains("schema_version = 2"), "sidecar: {text}");
    match parse_session_sidecar(&text).unwrap() {
        SessionLoad::Loaded(loaded) => assert_eq!(loaded, session),
        other => panic!("expected Loaded, got {other:?}"),
    }
}

#[test]
fn zoom_percent_roundtrips() {
    let session = SessionState { zoom: ZoomMode::Percent(120), ..SessionState::new(10) };
    let text = text_of(&session_document(&session, "2026-08-21T08:00:00Z").unwrap());
    match parse_session_sidecar(&text).unwrap() {
        SessionLoad::Loaded(loaded) => assert_eq!(loaded.zoom, ZoomMode::Percent(120)),
        other => panic!("expected Loaded, got {other:?}"),
    }
}

#[test]
fn empty_bookmark_lists_round_trip() {
    let session = SessionState::new(10);
    let text = text_of(&session_document(&session, "2026-08-21T08:00:00Z").unwrap());
    match parse_session_sidecar(&text).unwrap() {
        SessionLoad::Loaded(loaded) => assert_eq!(loaded, session),
        other => panic!("expected Loaded, got {other:?}"),
    }
}

#[test]
fn saved_reading_position_loads_back() {
    let view = ViewState::new().goto_page(4, 10).scroll_down(6, 100);
    let text = text_of(&save_reading_position(view, "2026-01-02T03:04:05Z").unwrap());
    match parse_sidecar(&text).unwrap() {
        Load::Loaded(loaded) => {
            assert_eq!((loaded.page(), loaded.scroll()), (4, 6));
            assert_eq!(loaded.updated_at(), "2026-01-02T03:04:05Z");
        }
        other => panic!("expected Loaded, got {other:?}"),
    }
}
