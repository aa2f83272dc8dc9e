use candi::normalize_reader_text;

#[test]
fn ligatures_become_ascii() {
    assert_eq!(normalize_reader_text("o\u{fb01}ce"), "ofice");
    assert_eq!(normalize_reader_text("\u{fb02}ow"), "flow");
    assert_eq!(normalize_reader_text("\u{fb03}n"), "ffin");
}

#[test]
fn plain_text_unchanged() {
    assert_eq!(normalize_reader_text("hello"), "hello");
}

#[test]
fn ligature_fi_maps_to_finger() {
    assert_eq!(normalize_reader_text("\u{fb01}nger"), "finger");
}

#[test]
fn common_ligatures_and_punctuation() {
    assert_eq!(normalize_reader_text("\u{fb02}ow"), "flow");
    assert_eq!(normalize_reader_text("\u{fb00}ee"), "ffee");
    assert_eq!(normalize_reader_text("\u{fb03}x"), "ffix");
    assert_eq!(normalize_reader_text("\u{fb04}y"), "ffly");
    assert_eq!(normalize_reader_text("a\u{00a0}b"), "a b");
    assert_eq!(normalize_reader_text("co\u{00ad}operate"), "cooperate");
    assert_eq!(normalize_reader_text("\u{2018}hi\u{2019}"), "'hi'");
    assert_eq!(normalize_reader_text("\u{201c}hi\u{201d}"), "\"hi\"");
    assert_eq!(normalize_reader_text("a\u{2013}b\u{2014}c"), "a-b-c");
}

#[test]
fn empty_text_stays_empty() {
    assert_eq!(normalize_reader_text(""), "");
}

#[test]
fn non_ascii_letters_pass_through() {
    assert_eq!(normalize_reader_text("caf\u{e9} \u{fb01}n"), "caf\u{e9} fin");
}
