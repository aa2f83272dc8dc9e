use candi::toc::{active_toc_row, flatten_toc, Landing, TocEntry, TocMark, TocRow};

/// An outline entry with an optional landing height, as a document
/// outline hands it out.
struct Item {
    title: &'static str,
    page: usize,
    dest_top: Option<f32>,
    children: Vec<Item>,
}

fn toc(title: &'static str, page: usize, children: Vec<Item>) -> Item {
    Item { title, page, dest_top: None, children }
}

fn toc_at(title: &'static str, page: usize, dest_top: Option<f32>, children: Vec<Item>) -> Item {
    Item { title, page, dest_top, children }
}

fn entries(items: &[Item]) -> Vec<TocEntry> {
    items
        .iter()
        .map(|i| TocEntry { title: i.title.to_string(), page: i.page, children: entries(&i.children) })
        .collect()
}

fn tops(items: &[Item], out: &mut Vec<Option<f32>>) {
    for i in items {
        out.push(i.dest_top);
        tops(&i.children, out);
    }
}

/// Flattened rows plus each row's landing height, in row order.
fn flatten(items: &[Item]) -> (Vec<TocRow>, Vec<Option<f32>>) {
    let mut landing = Vec::new();
    tops(items, &mut landing);
    (flatten_toc(&entries(items)), landing)
}

fn active(rows: &(Vec<TocRow>, Vec<Option<f32>>), pos: Option<(usize, f32)>) -> Option<usize> {
    let (page, y) = pos?;
    let marks: Vec<TocMark> = rows
        .0
        .iter()
        .zip(&rows.1)
        .map(|(row, top)| TocMark {
            page: row.page,
            depth: row.depth,
            landing: match top {
                None => Landing::PageTop,
                Some(t) if *t <= y => Landing::Reached,
                Some(_) => Landing::Ahead,
            },
        })
        .collect();
    active_toc_row(&marks, page)
}

fn row(title: &str, page: usize, depth: u32) -> TocRow {
    TocRow { title: title.into(), page, depth }
}

#[test]
fn flatten_orders_depth_first_with_zero_based_pages_and_indent() {
    let items = vec![
        toc("Intro", 1, Vec::new()),
        toc("Part I", 2, vec![toc("Chapter 1", 3, Vec::new())]),
        toc("Part II", 5, vec![toc("Appendix", 7, Vec::new())]),
    ];
    assert_eq!(
        flatten(&items).0,
        vec![
            row("Intro", 0, 0),
            row("Part I", 1, 0),
            row("Chapter 1", 2, 1),
            row("Part II", 4, 0),
            row("Appendix", 6, 1),
        ]
    );
}

#[test]
fn flatten_of_an_empty_outline_is_empty() {
    assert!(flatten_toc(&Vec::new()).is_empty());
}

#[test]
fn active_toc_row_is_the_deepest_containing_section() {
    let rows = flatten(&[
        toc("Part I", 1, vec![toc("1. Intro", 2, vec![]), toc("2. Data", 5, vec![])]),
        toc("Part II", 9, vec![]),
    ]);
    assert_eq!(active(&rows, Some((5, 300.0))), Some(2));
    assert_eq!(active(&rows, Some((100, 300.0))), Some(3));
    assert_eq!(active(&rows, Some((3, 300.0))), Some(1));
}

#[test]
fn active_toc_row_is_none_before_the_first_heading() {
    let rows = flatten(&[toc("Chapter 1", 4, vec![])]);
    assert_eq!(active(&rows, Some((0, 300.0))), None);
    assert_eq!(active(&rows, None), None);
}

#[test]
fn same_page_siblings_resolve_by_destination_height() {
    let rows = flatten(&[toc(
        "Cover",
        1,
        vec![toc_at("Left page", 1, Some(50.0), vec![]), toc_at("Right page", 1, Some(400.0), vec![])],
    )]);
    assert_eq!(active(&rows, Some((0, 100.0))), Some(1), "above the later heading the earlier one is active");
    assert_eq!(active(&rows, Some((0, 450.0))), Some(2), "past its landing point the later heading takes over");
    let plain = flatten(&[toc("Cover", 1, vec![toc("Left page", 1, vec![]), toc("Right page", 1, vec![])])]);
    assert_eq!(active(&plain, Some((0, 300.0))), Some(1));
}

#[test]
fn a_landing_point_supersedes_the_same_page_predecessor() {
    let rows = flatten(&[
        toc("Training", 7, vec![]),
        toc_at("Regression", 7, Some(550.0), vec![]),
        toc("Results", 9, vec![]),
    ]);
    assert_eq!(active(&rows, Some((6, 300.0))), Some(0));
    assert_eq!(active(&rows, Some((6, 600.0))), Some(1));
    assert_eq!(active(&rows, Some((7, 100.0))), Some(1));

    let rows = flatten(&[
        toc("Training", 7, vec![]),
        toc_at("Regression", 8, Some(550.0), vec![]),
        toc("Results", 10, vec![]),
    ]);
    assert_eq!(active(&rows, Some((7, 100.0))), Some(0), "above the landing on its start page");
    assert_eq!(active(&rows, Some((7, 600.0))), Some(1));
}

#[test]
fn active_toc_row_climbs_back_when_deep_sections_end() {
    let rows = flatten(&[toc(
        "Part I",
        1,
        vec![toc("Ch. 1", 2, vec![toc("1.1", 3, vec![]), toc("1.2", 5, vec![])]), toc("Ch. 2", 7, vec![])],
    )]);
    assert_eq!(active(&rows, Some((3, 300.0))), Some(2));
    assert_eq!(active(&rows, Some((5, 300.0))), Some(3));
    assert_eq!(active(&rows, Some((8, 300.0))), Some(4));
}
