use candi::cache::CacheKey;
use candi::chrome::{
    accepts_theme_file, action_runs, has_theme_extension, overlay_to_close, OpenOverlays, Overlay,
    absorb_batches, center_pane, cycle_hit_page, filename_of, humanize_reason, note_render_failure,
    oversized_theme, parse_decimal, prune_stale_scale, recolor_key, record_submission, sanitize_theme_name,
    should_schedule_repaint, should_toast, theme_icon, themes_dir, tinted_chrome, validate_jump,
    keeps_texture, wants_render, CenterPane, FailState, Icon, Submission, MAX_THEME_BYTES,
    REPAINT_CADENCE_MS, TEXTURE_KEEP_AROUND,
};
use candi::color::Color;
use candi::keybinds::Action;
use candi::strings::text_order;
use candi::sidebar::SearchHit;
use candi::theme::{builtin, Theme, BUILTIN_NAMES};

fn builtin_theme(name: &str) -> Theme {
    builtin(name).unwrap_or_else(|| panic!("{name} must exist"))
}

#[test]
fn sanitize_keeps_only_the_filename_charset() {
    assert_eq!(sanitize_theme_name("My Cool Theme!"), Some("My Cool Theme".to_owned()));
    assert_eq!(sanitize_theme_name("a/b\\c"), Some("abc".to_owned()));
    assert_eq!(sanitize_theme_name("!!!"), None);
    assert_eq!(sanitize_theme_name(""), None);
}

#[test]
fn sanitize_keeps_spaces_dashes_and_underscores() {
    assert_eq!(sanitize_theme_name(" night_owl-2 "), Some(" night_owl-2 ".to_owned()));
    assert_eq!(sanitize_theme_name("caf\u{e9}"), Some("caf".to_owned()));
}

#[test]
fn jump_accepts_pages_inside_the_document() {
    assert_eq!(validate_jump("1", 672), Some(0));
    assert_eq!(validate_jump("17", 672), Some(16));
    assert_eq!(validate_jump("672", 672), Some(671), "last page");
}

#[test]
fn jump_trims_surrounding_whitespace() {
    assert_eq!(validate_jump(" 42 ", 100), Some(41));
}

#[test]
fn jump_rejects_zero_out_of_range_and_garbage() {
    let count = 5;
    assert_eq!(validate_jump("", count), None);
    assert_eq!(validate_jump("abc", count), None);
    assert_eq!(validate_jump("0", count), None, "pages are 1-based");
    assert_eq!(validate_jump("6", count), None);
    assert_eq!(validate_jump("-1", count), None);
    assert_eq!(validate_jump("99999999999999999999999", count), None, "parse overflow");
}

#[test]
fn decimal_parsing_accepts_a_plus_sign_and_rejects_overflow() {
    assert_eq!(parse_decimal("+7"), Some(7));
    assert_eq!(parse_decimal("007"), Some(7));
    assert_eq!(parse_decimal("+"), None);
    assert_eq!(parse_decimal("1 2"), None);
    assert_eq!(parse_decimal("18446744073709551616"), None);
}

#[test]
fn theme_icon_follows_the_ui_background_luma() {
    for name in BUILTIN_NAMES {
        let icon = theme_icon(&builtin_theme(name));
        assert!(icon == Icon::Sun || icon == Icon::Moon, "{name} produced {icon:?}");
    }
    assert_eq!(theme_icon(&builtin_theme("Light")), Icon::Sun);
    assert_eq!(
        theme_icon(&builtin_theme("Solarized Light")),
        Icon::Sun,
        "solarized keeps light chrome like Light"
    );
    assert_eq!(
        theme_icon(&builtin_theme("Sepia")),
        Icon::Moon,
        "sepia warms the page, its chrome stays dark"
    );
    assert_eq!(theme_icon(&builtin_theme("Dark")), Icon::Moon);
    assert_eq!(theme_icon(&builtin_theme("Warm Dark")), Icon::Moon);
    assert_eq!(theme_icon(&builtin_theme("True Dark")), Icon::Moon);
    assert_eq!(theme_icon(&builtin_theme("Cyberpunk")), Icon::Moon);
    assert_eq!(theme_icon(&builtin_theme("Catppuccin")), Icon::Moon);
    assert_eq!(theme_icon(&builtin_theme("Nord")), Icon::Moon);
    assert_eq!(theme_icon(&builtin_theme("Dracula")), Icon::Moon);
    assert_eq!(theme_icon(&builtin_theme("Gruvbox Dark")), Icon::Moon);
}

#[test]
fn icons_name_their_assets() {
    assert_eq!(Icon::Sun.asset_file(), "sun.svg");
    assert_eq!(Icon::Gear.asset_file(), "settings.svg");
    assert_eq!(Icon::Dots.asset_file(), "ellipsis-vertical.svg");
}

#[test]
fn center_pane_precedence_is_editor_then_document_then_error() {
    assert_eq!(center_pane(true, true, true), CenterPane::Editor);
    assert_eq!(center_pane(true, false, false), CenterPane::Editor);
    assert_eq!(center_pane(false, true, false), CenterPane::Canvas);
    assert_eq!(center_pane(false, true, true), CenterPane::Canvas);
    assert_eq!(center_pane(false, false, true), CenterPane::OpenError);
    assert_eq!(center_pane(false, false, false), CenterPane::Empty);
}

#[test]
fn humanized_reason_takes_the_first_error_line() {
    assert_eq!(humanize_reason("mupdf: cannot open\n  cause: nope"), "mupdf: cannot open");
    assert_eq!(humanize_reason("single line"), "single line");
    assert_eq!(humanize_reason(""), "");
}

#[test]
fn humanized_reason_drops_a_carriage_return() {
    assert_eq!(humanize_reason("first\r\nsecond"), "first");
    assert_eq!(humanize_reason("\nrest"), "");
}

fn hits(pages: &[usize]) -> Vec<SearchHit> {
    pages.iter().map(|&page| SearchHit { page, snippet: String::new() }).collect()
}

#[test]
fn search_stepping_walks_hits_and_cycles_at_the_ends() {
    let sample = hits(&[2, 5, 9]);
    assert_eq!(cycle_hit_page(&sample, 1, 1), 2);
    assert_eq!(cycle_hit_page(&sample, 5, 1), 9);
    assert_eq!(cycle_hit_page(&sample, 8, -1), 5);
    assert_eq!(cycle_hit_page(&sample, 7, -1), 5);
    assert_eq!(cycle_hit_page(&sample, 9, 1), 2, "next wraps past the end");
    assert_eq!(cycle_hit_page(&sample, 0, -1), 9, "previous wraps before the start");
    assert_eq!(cycle_hit_page(&hits(&[4]), 4, 1), 4, "single-page lists step in place");
}

#[test]
fn toasts_fire_once_per_page_change() {
    let mut last = None;
    assert!(should_toast(last, 1), "a fresh document toasts its page");
    last = Some(1);
    assert!(!should_toast(last, 1));
    assert!(should_toast(last, 2), "a real page change toasts again");
}

#[test]
fn recolor_keys_share_only_matching_page_colors() {
    let dark = Color::from([0x16, 0x18, 0x1D, 0xFF]);
    let light = Color::from([0xFF, 0xFF, 0xFF, 0xFF]);
    assert_eq!(recolor_key(dark, dark), recolor_key(dark, dark));
    assert_ne!(recolor_key(dark, dark), recolor_key(light, dark));
    assert_ne!(recolor_key(dark, dark), recolor_key(dark, light));
}

#[test]
fn recolor_key_packs_background_high_and_foreground_low() {
    let bg = Color::from([0x16, 0x18, 0x1D, 0xFF]);
    let fg = Color::from([0xE6, 0xE6, 0xE6, 0xFF]);
    assert_eq!(recolor_key(bg, fg), 0x16181DFF_E6E6E6FF);
}

#[test]
fn unfocused_windows_schedule_no_timed_repaints() {
    let cadence = REPAINT_CADENCE_MS;
    let toast_wait = Some(120);
    assert_eq!(should_schedule_repaint(true, true, None, true, toast_wait), Some(cadence));
    assert_eq!(should_schedule_repaint(true, false, Some(250), false, None), Some(250));
    assert_eq!(should_schedule_repaint(true, false, None, false, None), None);
    assert_eq!(should_schedule_repaint(false, true, Some(250), true, toast_wait), None);
}

#[test]
fn a_short_toast_wait_wins_over_the_cadence() {
    assert_eq!(should_schedule_repaint(true, true, None, false, Some(10)), Some(10));
}

fn key(page: usize, scale_q: u16) -> CacheKey {
    CacheKey { page, scale_q }
}

fn record(failed: &[(CacheKey, FailState)], k: CacheKey) -> &FailState {
    &failed.iter().find(|(fk, _)| *fk == k).unwrap().1
}

#[test]
fn render_failures_back_off_then_terminate() {
    let now = 1_000;
    let mut failed = Vec::new();
    note_render_failure(&mut failed, key(3, 100), now, "boom".into());
    assert_eq!(record(&failed, key(3, 100)).attempt, 1);
    assert_eq!(record(&failed, key(3, 100)).next_retry.unwrap() - now, 250);
    note_render_failure(&mut failed, key(3, 100), now, "boom".into());
    assert_eq!(record(&failed, key(3, 100)).attempt, 2);
    assert_eq!(record(&failed, key(3, 100)).next_retry.unwrap() - now, 1000);
    note_render_failure(&mut failed, key(3, 100), now, "boom".into());
    assert_eq!(record(&failed, key(3, 100)).next_retry.unwrap() - now, 4000);
    note_render_failure(&mut failed, key(3, 100), now, "boom".into());
    assert_eq!(record(&failed, key(3, 100)).attempt, 4);
    assert_eq!(record(&failed, key(3, 100)).next_retry, None);
    assert_eq!(failed.len(), 1);
}

#[test]
fn wants_render_respects_pending_and_retry_schedule() {
    let now = 5_000;
    let mut pending = Vec::new();
    let mut failed = Vec::new();

    assert!(wants_render(&pending, &failed, key(0, 100), now));
    pending.push(key(0, 100));
    assert!(!wants_render(&pending, &failed, key(0, 100), now));
    pending.clear();

    failed.push((key(1, 100), FailState { attempt: 1, next_retry: Some(now + 1000), detail: "boom".into() }));
    assert!(!wants_render(&pending, &failed, key(1, 100), now));
    assert!(wants_render(&pending, &failed, key(1, 100), now + 2000));
    failed.push((key(2, 100), FailState { attempt: 4, next_retry: None, detail: "boom".into() }));
    assert!(!wants_render(&pending, &failed, key(2, 100), now));
}

#[test]
fn zoom_change_prunes_stale_scale_state() {
    let mut pending = vec![key(0, 100), key(1, 100), key(1, 125), key(2, 125)];
    let mut failed = vec![
        (key(3, 100), FailState { attempt: 1, next_retry: None, detail: "old scale".into() }),
        (key(4, 125), FailState { attempt: 2, next_retry: None, detail: "current scale".into() }),
    ];
    prune_stale_scale(&mut pending, &mut failed, 125);
    assert_eq!(pending, vec![key(1, 125), key(2, 125)], "only current-scale queue entries survive");
    assert!(failed.is_empty(), "failures never outlive their scale");
}

#[test]
fn oversized_theme_files_are_flagged() {
    assert!(!oversized_theme(MAX_THEME_BYTES));
    assert!(oversized_theme(MAX_THEME_BYTES + 1));
}

#[test]
fn themes_live_under_the_config_dir() {
    assert_eq!(themes_dir(Some("/home/u/.config/candi")), Some("/home/u/.config/candi/themes".to_string()));
    assert_eq!(themes_dir(None), None);
}

#[test]
fn filename_of_takes_the_last_component() {
    assert_eq!(filename_of("/tmp/docs/book.pdf"), "book.pdf");
    assert_eq!(filename_of("book.pdf"), "book.pdf");
}

#[test]
fn tinted_chrome_keeps_the_page_colors() {
    let dark = builtin_theme("Dark");
    let tinted = tinted_chrome(&dark);
    assert_eq!(tinted.page_bg, dark.page_bg);
    assert_eq!(tinted.page_fg, dark.page_fg);
    assert_eq!(tinted.accent, dark.accent);
    assert_ne!(tinted.ui_bg, dark.ui_bg);
}

fn hit(page: usize, snippet: &str) -> SearchHit {
    SearchHit { page, snippet: snippet.to_string() }
}

#[test]
fn search_batches_join_the_hits_and_jump_once() {
    let mut hits = vec![hit(0, "old")];
    let mut jumped = false;
    let (jump, error) = absorb_batches(
        &mut hits,
        &mut jumped,
        vec![Ok(vec![]), Ok(vec![hit(3, "a"), hit(3, "b")]), Err("page 5: boom".into()), Ok(vec![hit(7, "c")])],
    );
    assert_eq!(jump, Some(3));
    assert!(jumped);
    assert_eq!(error.as_deref(), Some("page 5: boom"));
    assert_eq!(hits.iter().map(|h| h.page).collect::<Vec<_>>(), vec![0, 3, 3, 7]);

    let (jump, error) = absorb_batches(&mut hits, &mut jumped, vec![Ok(vec![hit(9, "d")])]);
    assert_eq!(jump, None, "a search jumps only to its first hit");
    assert_eq!(error, None);
    assert_eq!(hits.len(), 5);
}

#[test]
fn accepted_submission_records_each_key_once() {
    let mut pending = vec![key(2, 100)];
    let wanted = [key(1, 100), key(2, 100), key(1, 100), key(3, 150)];
    assert_eq!(record_submission(Some(true), &wanted, &mut pending), Submission::Queued);
    assert_eq!(pending, vec![key(2, 100), key(1, 100), key(3, 150)]);
}

#[test]
fn refused_or_missing_worker_leaves_pending_untouched() {
    let mut pending = vec![key(4, 100)];
    let wanted = [key(5, 100)];
    assert_eq!(record_submission(Some(false), &wanted, &mut pending), Submission::Refused);
    assert_eq!(pending, vec![key(4, 100)]);
    assert_eq!(record_submission(None, &wanted, &mut pending), Submission::NoRenderer);
    assert_eq!(pending, vec![key(4, 100)]);
}

#[test]
fn textures_near_the_current_page_stay_loaded() {
    assert!(keeps_texture(10, 10));
    assert!(keeps_texture(10 + TEXTURE_KEEP_AROUND, 10));
    assert!(keeps_texture(10 - TEXTURE_KEEP_AROUND, 10));
    assert!(!keeps_texture(10 + TEXTURE_KEEP_AROUND + 1, 10));
    assert!(!keeps_texture(3, 10));
    assert!(keeps_texture(0, 6));
    assert!(!keeps_texture(0, 7));
}

fn nothing_open() -> OpenOverlays {
    OpenOverlays {
        about: false,
        editor: false,
        info: false,
        shortcuts: false,
        focus_mode: false,
        search_query: false,
    }
}

#[test]
fn escape_closes_the_topmost_overlay_first() {
    let all = OpenOverlays {
        about: true,
        editor: true,
        info: true,
        shortcuts: true,
        focus_mode: true,
        search_query: true,
    };
    assert_eq!(overlay_to_close(false, all), Some(Overlay::About));
    assert_eq!(overlay_to_close(false, OpenOverlays { about: false, ..all }), Some(Overlay::ThemeEditor));
    assert_eq!(
        overlay_to_close(false, OpenOverlays { focus_mode: true, search_query: true, ..nothing_open() }),
        Some(Overlay::FocusMode)
    );
    assert_eq!(
        overlay_to_close(false, OpenOverlays { search_query: true, ..nothing_open() }),
        Some(Overlay::SearchQuery)
    );
    assert_eq!(overlay_to_close(false, nothing_open()), None);
    assert_eq!(overlay_to_close(true, all), None);
}

#[test]
fn page_keys_wait_for_a_free_keyboard_and_a_document() {
    assert!(action_runs(Action::NextPage, true, false, false));
    assert!(!action_runs(Action::NextPage, false, false, true));
    assert!(!action_runs(Action::GoToPage, true, false, false));
    assert!(action_runs(Action::Bookmark, true, true, true));
    assert!(!action_runs(Action::ZoomIn, true, true, true));
    assert!(action_runs(Action::FitWidth, true, false, true));
    assert!(action_runs(Action::OpenFile, false, true, false));
    assert!(!action_runs(Action::Quit, false, false, true));
}

#[test]
fn theme_files_need_the_yaml_extension_and_a_matching_stem() {
    assert!(has_theme_extension("Mint.yaml"));
    assert!(has_theme_extension("Mint.YAML"));
    assert!(!has_theme_extension("Mint.yml"));
    assert!(!has_theme_extension(".yaml"));
    assert!(!has_theme_extension("notes.txt"));
    assert!(accepts_theme_file("Mint.yaml", "Mint"));
    assert!(accepts_theme_file("Night Owl.Yaml", "Night Owl"));
    assert!(!accepts_theme_file("Mismatch.yaml", "Light"));
    assert!(!accepts_theme_file("Mint.yml", "Mint"));
}

#[test]
fn theme_names_order_by_text_keeping_ties_in_place() {
    let names: Vec<String> = ["Sepia", "Mint", "Night Owl", "Mint", "Amber"].iter().map(|s| s.to_string()).collect();
    assert_eq!(text_order(&names), vec![4, 1, 3, 2, 0]);
}
