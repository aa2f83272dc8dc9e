use candi::sidebar::{ceil_boundary, date_only, extract_snippet, floor_boundary, SNIPPET_CHARS};

#[test]
fn long_text_snippet_is_centered_on_the_match_and_cut_with_ellipses() {
    let text = "lorem ipsum dolor sit amet consectetur adipiscing elit sed do eiusmod tempor";
    let needle = "consectetur";
    let offset = text.find(needle).unwrap();
    let snippet = extract_snippet(text, offset, needle.len());
    assert!(snippet.starts_with('…') && snippet.ends_with('…'), "{snippet}");
    assert!(snippet.contains(needle), "{snippet}");
    assert!(snippet.chars().count() <= SNIPPET_CHARS + 2, "{snippet}");
}

#[test]
fn short_text_yields_one_ellipsis_free_snippet() {
    assert_eq!(extract_snippet("hello world", 6, 5), "hello world");
}

#[test]
fn match_at_the_start_has_no_leading_ellipsis() {
    let text = "start middle end with plenty of trailing padding text here";
    assert_eq!(extract_snippet(text, 0, 5), "start middle end with…");
}

#[test]
fn match_at_the_end_has_no_trailing_ellipsis() {
    let text = "plenty of leading padding text here before the very final words";
    let offset = text.find("final").unwrap();
    assert_eq!(extract_snippet(text, offset, 5), "…before the very final words");
}

#[test]
fn snippet_collapses_whitespace_runs() {
    let text = "alpha   beta\ngamma\tdelta";
    let offset = text.find("gamma").unwrap();
    assert_eq!(extract_snippet(text, offset, 5), "alpha beta gamma delta");
}

#[test]
fn snippet_cuts_on_character_boundaries_not_inside_code_points() {
    let text = "ωωωωωω ".repeat(10) + "target " + &"ωωωωωω ".repeat(10);
    let offset = text.find("target").unwrap();
    let snippet = extract_snippet(&text, offset, 6);
    assert!(snippet.starts_with('…') && snippet.ends_with('…'), "{snippet}");
    assert!(snippet.contains("target"), "{snippet}");
}

#[test]
fn needle_longer_than_the_budget_still_appears_in_full() {
    let needle = "a very long query that exceeds the snippet budget on its own";
    let text = format!("prefix {needle} suffix");
    let offset = text.find(needle).unwrap();
    let snippet = extract_snippet(&text, offset, needle.len());
    assert!(snippet.contains(needle));
    assert_eq!(snippet.matches('…').count(), 2);
}

#[test]
fn date_only_takes_the_calendar_day_from_rfc3339() {
    assert_eq!(date_only("2026-08-22T10:30:00Z"), "2026-08-22");
}

#[test]
fn date_only_falls_back_to_the_raw_string_when_too_short() {
    assert_eq!(date_only("unknown"), "unknown");
}

#[test]
fn boundaries_snap_to_code_point_starts() {
    let text = "aω b";
    assert_eq!(floor_boundary(text, 2), 1);
    assert_eq!(ceil_boundary(text, 2), 3);
    assert_eq!(floor_boundary(text, 3), 3);
    assert_eq!(ceil_boundary(text, text.len()), text.len());
}
