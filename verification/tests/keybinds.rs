use candi::json::JsonValue;
use candi::keybinds::{
    all_actions, defaults_document, keybinds_from_text, migrate_document, parse_key, seed_text,
    shortcut_shown,
    Action,
    Binding, Key, Keybinds, Modifiers, DEFAULTS_SCHEMA_VERSION,
};

fn letter(c: char) -> Key {
    Key::Letter(c as u8 - b'a')
}

const NONE: Modifiers = Modifiers { ctrl: false, shift: false, alt: false, meta: false };
const CTRL: Modifiers = Modifiers { ctrl: true, shift: false, alt: false, meta: false };
const SHIFT: Modifiers = Modifiers { ctrl: false, shift: true, alt: false, meta: false };
const ALT: Modifiers = Modifiers { ctrl: false, shift: false, alt: true, meta: false };
const CTRL_SHIFT: Modifiers = Modifiers { ctrl: true, shift: true, alt: false, meta: false };

fn load(contents: &str) -> (Keybinds, Option<String>) {
    keybinds_from_text(Some("/cfg/keybinds.json".to_string()), contents)
}

fn member<'a>(doc: &'a JsonValue, key: &str) -> Option<&'a JsonValue> {
    match doc {
        JsonValue::Object(members) => members.iter().find(|(k, _)| k == key).map(|(_, v)| v),
        _ => None,
    }
}

fn text_list(v: &JsonValue) -> Vec<String> {
    match v {
        JsonValue::Text(t) => vec![t.clone()],
        JsonValue::List(items) => items
            .iter()
            .map(|i| match i {
                JsonValue::Text(t) => t.clone(),
                _ => panic!("non-text item"),
            })
            .collect(),
        _ => panic!("not a key list"),
    }
}

#[test]
fn every_default_spec_parses() {
    for action in all_actions() {
        for spec in action.defaults() {
            let binding = Binding::parse(spec).unwrap_or_else(|| panic!("{spec:?}"));
            assert_eq!(binding.label(), spec, "labels invert parse");
        }
    }
}

#[test]
fn modifier_specs_parse_case_insensitively() {
    let binding = Binding::parse("CTRL+shift+s").expect("mixed case parses");
    assert!(binding.ctrl && binding.shift && !binding.alt && !binding.meta);
    assert_eq!(binding.key, letter('s'));
    assert_eq!(binding.label(), "Ctrl+Shift+S");
}

#[test]
fn bare_plus_and_duplicate_modifiers_parse() {
    assert_eq!(Binding::parse("+").map(|b| b.key), Some(Key::Plus));
    let doubled = Binding::parse("Ctrl+Ctrl+S").expect("duplicate modifiers");
    assert!(doubled.ctrl);
    assert_eq!(doubled.key, letter('s'));
}

#[test]
fn garbage_specs_are_rejected() {
    assert_eq!(Binding::parse(""), None);
    assert_eq!(Binding::parse("Ctrl+"), None);
    assert_eq!(Binding::parse("Ctrl+Bogus"), None);
    assert_eq!(Binding::parse("NotAKey"), None);
}

#[test]
fn matching_requires_exact_modifier_bits() {
    let binding = Binding::parse("Ctrl+S").expect("parses");
    let mut mods = Modifiers::default();
    assert!(!binding.matches(mods));
    mods.ctrl = true;
    assert!(binding.matches(mods));
    mods.shift = true;
    assert!(!binding.matches(mods), "Ctrl+Shift+S is not Ctrl+S — exact bits");

    let plain = Binding::parse("Q").expect("parses");
    assert!(plain.matches(NONE));
    assert!(!plain.matches(CTRL), "no bleed-through");
}

#[test]
fn key_names_cover_letters_digits_function_keys_and_aliases() {
    assert_eq!(parse_key("q"), Some(letter('q')));
    assert_eq!(parse_key("7"), Some(Key::Digit(7)));
    assert_eq!(parse_key("f12"), Some(Key::Function(12)));
    assert_eq!(parse_key("f13"), None);
    assert_eq!(parse_key("pgdn"), Some(Key::PageDown));
    assert_eq!(parse_key("esc"), Some(Key::Escape));
}

#[test]
fn zoom_in_reaches_every_physical_equals_spelling() {
    let keybinds = Keybinds::defaults(None);
    let cases = [
        (Key::Equals, NONE),
        (Key::Plus, NONE),
        (Key::Plus, SHIFT),
        (Key::Equals, CTRL),
        (Key::Plus, CTRL),
        (Key::Plus, CTRL_SHIFT),
    ];
    for (key, modifiers) in cases {
        assert_eq!(
            keybinds.action_for(key, modifiers),
            Some(Action::ZoomIn),
            "{modifiers:?} {key:?} must reach zoom_in"
        );
    }
    assert_eq!(keybinds.action_for(Key::Equals, ALT), None, "unrelated modifier combos stay unmapped");
}

#[test]
fn seeded_document_lists_defaults_and_the_current_schema() {
    let doc = defaults_document();
    assert_eq!(text_list(member(&doc, "next_page").unwrap()), vec!["Right", "PgDn"]);
    assert_eq!(text_list(member(&doc, "quit").unwrap()), vec!["Q"]);
    match member(&doc, "schema_version") {
        Some(JsonValue::Number(n)) => assert_eq!(n, &DEFAULTS_SCHEMA_VERSION.to_string()),
        other => panic!("schema_version missing: {other:?}"),
    }
    let text = seed_text();
    assert!(text.contains("\"next_page\""));
    let (keybinds, written) = load(&text);
    assert!(written.is_none(), "a current seed is not rewritten");
    for (label, keys) in keybinds.rows() {
        assert!(!keys.is_empty(), "{label} lost its default bindings");
    }
}

#[test]
fn valid_entries_override_defaults() {
    let (keybinds, written) = load(r#"{"quit": "Ctrl+Shift+X", "open_file": ["O", "Ctrl+O"]}"#);
    assert!(written.is_none());
    assert_eq!(keybinds.action_for(letter('x'), CTRL_SHIFT), Some(Action::Quit));
    assert_eq!(keybinds.action_for(letter('o'), NONE), Some(Action::OpenFile));
    assert_eq!(keybinds.action_for(Key::Minus, Modifiers::default()), Some(Action::ZoomOut));
}

#[test]
fn stale_seed_heals_the_changed_defaults() {
    let (keybinds, written) = load(
        r#"{"schema_version": 1, "zoom_in": ["+", "=", "Shift+=", "Ctrl+=", "Ctrl++", "Ctrl+Shift+="]}"#,
    );
    assert_eq!(
        keybinds.action_for(Key::Plus, SHIFT),
        Some(Action::ZoomIn),
        "the shifted-plus delivery only the current list covers is healed"
    );
    let doc: serde_json::Value =
        serde_json::from_str(&written.expect("the migrated document is written back")).unwrap();
    assert_eq!(doc["schema_version"], serde_json::Value::from(2));
    let zoom_in: Vec<String> = serde_json::from_value(doc["zoom_in"].clone()).unwrap();
    assert_eq!(zoom_in, Action::ZoomIn.defaults());
}

#[test]
fn customized_actions_survive_migration() {
    let (keybinds, written) = load(r#"{"schema_version": 1, "zoom_in": "Ctrl+Up", "quit": "W"}"#);
    assert_eq!(keybinds.action_for(Key::ArrowUp, CTRL), Some(Action::ZoomIn));
    assert_eq!(keybinds.action_for(letter('w'), NONE), Some(Action::Quit));
    let doc: serde_json::Value = serde_json::from_str(&written.expect("migrated")).unwrap();
    assert_eq!(doc["schema_version"], serde_json::Value::from(2));
    assert_eq!(doc["zoom_in"], serde_json::Value::from("Ctrl+Up"));
}

#[test]
fn corrupt_json_yields_defaults_without_rewriting() {
    let (keybinds, written) = load("{not json");
    assert!(written.is_none(), "a hand-editable corrupt file is left alone");
    assert_eq!(keybinds.action_for(letter('q'), Modifiers::default()), Some(Action::Quit));
}

#[test]
fn unknown_action_and_garbage_entries_fall_back() {
    let (keybinds, _) = load(r#"{"explode": "X", "quit": "Not~A~Key", "zoom_out": 7}"#);
    assert_eq!(keybinds.action_for(letter('q'), Modifiers::default()), Some(Action::Quit));
    assert_eq!(keybinds.action_for(Key::Minus, Modifiers::default()), Some(Action::ZoomOut));
    assert!(
        keybinds.entries().iter().all(|(binding, _)| binding.key != letter('x')),
        "unknown actions claim nothing"
    );
}

#[test]
fn schema_version_is_ignored_metadata() {
    let (keybinds, _) = load(r#"{"schema_version": 2, "quit": ["Q", "W"]}"#);
    assert_eq!(keybinds.action_for(letter('w'), NONE), Some(Action::Quit));
    let (keybinds, written) = load(r#"{"schema_version": "one"}"#);
    assert!(written.is_none());
    assert_eq!(keybinds.action_for(letter('q'), NONE), Some(Action::Quit));
}

#[test]
fn empty_binding_list_falls_back_to_defaults() {
    let (keybinds, _) = load(r#"{"quit": []}"#);
    assert_eq!(keybinds.action_for(letter('q'), Modifiers::default()), Some(Action::Quit));
    assert!(keybinds.entries().iter().any(|(binding, _)| binding.key == letter('q')));
}

#[test]
fn conflicting_claims_resolve_last_wins() {
    let (keybinds, _) = load(r#"{"bookmark": "Z", "quit": "Z"}"#);
    assert_eq!(
        keybinds.action_for(letter('z'), Modifiers::default()),
        Some(Action::Quit),
        "alphabetically later entries win"
    );
    let (_, bookmark_keys) =
        keybinds.rows().into_iter().find(|(label, _)| *label == "Bookmark page").expect("row exists");
    assert_eq!(bookmark_keys, "—", "the losing action shows unbound");
}

#[test]
fn non_object_documents_yield_defaults() {
    let (keybinds, written) = load("[1, 2]");
    assert!(written.is_none());
    assert_eq!(keybinds.action_for(letter('t'), Modifiers::default()), Some(Action::CycleTheme));
}

#[test]
fn migration_leaves_current_documents_alone() {
    let doc = defaults_document();
    assert!(migrate_document(doc).is_err());
}

#[test]
fn action_names_round_trip() {
    for action in all_actions() {
        assert_eq!(Action::from_name(action.name()), Some(action));
    }
    assert_eq!(Action::from_name("explode"), None);
    assert_eq!(Action::Quit.label(), "Quit");
}

#[test]
fn the_seeded_file_loads_back_to_the_defaults() {
    let defaults = Keybinds::defaults(None);
    let (seeded, written) = load(&seed_text());
    assert!(written.is_none());
    for action in all_actions() {
        for spec in action.defaults() {
            let b = Binding::parse(spec).unwrap();
            let pressed = Modifiers { ctrl: b.ctrl, shift: b.shift, alt: b.alt, meta: b.meta };
            assert_eq!(
                seeded.action_for(b.key, pressed),
                defaults.action_for(b.key, pressed),
                "{spec}"
            );
        }
    }
    assert_eq!(seeded.rows(), defaults.rows());
}

#[test]
fn the_shortcuts_filter_matches_keys_and_labels_case_insensitively() {
    assert!(shortcut_shown("Ctrl+O", "Open file", ""));
    assert!(shortcut_shown("Ctrl+O", "Open file", "   "));
    assert!(shortcut_shown("Ctrl+O", "Open file", " OPEN "));
    assert!(shortcut_shown("Ctrl+O", "Open file", "ctrl+o o"));
    assert!(!shortcut_shown("Ctrl+O", "Open file", "zoom"));
    assert!(shortcut_shown("Right, PgDn", "Next page", "pgdn"));
}
