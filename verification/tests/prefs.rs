use candi::prefs::{config_path, join, prefs_from_config, resolve_config_dir, Prefs, Recent};

fn recent(path: &str, last_opened: &str) -> Recent {
    Recent { path: path.to_string(), last_opened: last_opened.to_string() }
}

#[test]
fn config_dir_prefers_xdg_then_home_then_none() {
    assert_eq!(resolve_config_dir(Some("/xdg"), Some("/home")), Some("/xdg/candi".to_string()));
    assert_eq!(
        resolve_config_dir(None, Some("/home")),
        Some("/home/.config/candi".to_string())
    );
    assert_eq!(resolve_config_dir(None, None), None);
    assert_eq!(
        resolve_config_dir(Some(""), Some("/home")),
        Some("/home/.config/candi".to_string())
    );
    assert_eq!(resolve_config_dir(None, Some("")), None);
}

#[test]
fn config_path_names_the_file_inside_the_config_dir() {
    assert_eq!(config_path(Some("/xdg"), None), Some("/xdg/candi/config.toml".to_string()));
    assert_eq!(config_path(None, None), None);
}

#[test]
fn record_open_dedupes_moves_to_front_and_caps() {
    let mut prefs = Prefs::default();
    for i in 0..12 {
        prefs.record_open(&format!("/tmp/book-{i}.pdf"), 1_787_788_800);
    }
    assert_eq!(prefs.recents.len(), 10);
    assert_eq!(prefs.recents[0].path, "/tmp/book-11.pdf", "most recent first");
    assert_eq!(prefs.recents[9].path, "/tmp/book-2.pdf");

    prefs.record_open("/tmp/book-5.pdf", 1_787_792_400);
    assert_eq!(prefs.recents.len(), 10);
    assert_eq!(prefs.recents[0].path, "/tmp/book-5.pdf");
    assert_eq!(prefs.recents[1].path, "/tmp/book-11.pdf");
    assert!(
        prefs.recents[1..].iter().all(|r| r.path != "/tmp/book-5.pdf"),
        "deduped"
    );
    assert!(prefs.recents[0].last_opened.ends_with('Z'));
    assert_eq!(prefs.recents[0].last_opened, "2026-08-27T01:00:00Z");
    assert_eq!(prefs.recents[1].last_opened, "2026-08-27T00:00:00Z");
}

#[test]
fn defaults_are_dark_with_no_recents() {
    let prefs = Prefs::default();
    assert_eq!(prefs.theme, "Dark");
    assert!(prefs.recents.is_empty());
}

#[test]
fn newer_schema_yields_defaults() {
    let prefs = prefs_from_config(99, Some("Sepia".to_string()), vec![recent("/a", "t")]);
    assert_eq!(prefs, Prefs::default());
}

#[test]
fn partial_file_keeps_the_good_fields() {
    let prefs = prefs_from_config(1, None, vec![recent("/tmp/a.pdf", "2026-08-27T00:00:00Z")]);
    assert_eq!(prefs.theme, "Dark", "missing appearance falls back");
    assert_eq!(prefs.recents, vec![recent("/tmp/a.pdf", "2026-08-27T00:00:00Z")]);
}

#[test]
fn malformed_recents_entries_are_skipped() {
    let prefs = prefs_from_config(
        1,
        Some("Sepia".to_string()),
        vec![recent("", ""), recent("/tmp/b.pdf", "2026-08-27T01:00:00Z")],
    );
    assert_eq!(prefs.theme, "Sepia");
    assert_eq!(prefs.recents.len(), 1);
    assert_eq!(prefs.recents[0].path, "/tmp/b.pdf");
}

#[test]
fn empty_theme_falls_back_and_recents_are_capped_before_filtering() {
    let mut list = Vec::new();
    for i in 0..12 {
        list.push(recent(&format!("/r{i}"), "t"));
    }
    list[0].path.clear();
    let prefs = prefs_from_config(0, Some(String::new()), list);
    assert_eq!(prefs.theme, "Dark");
    assert_eq!(prefs.recents.len(), 9);
    assert_eq!(prefs.recents[0].path, "/r1");
    assert_eq!(prefs.recents[8].path, "/r9");
}

#[test]
fn join_follows_path_join_on_empty_and_absolute_parts() {
    assert_eq!(join("/cfg", "themes"), "/cfg/themes");
    assert_eq!(join("/cfg/", "themes"), "/cfg/themes");
    assert_eq!(join("", "themes"), "themes");
    assert_eq!(join("/cfg", "/etc/themes"), "/etc/themes");
}
