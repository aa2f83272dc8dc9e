//! The contents sidebar: the outline tree flattened into indented rows,
//! and which row holds the reading position.

use vstd::prelude::*;

verus! {

/// One outline entry as the sidebar reads it: its title, its 1-based page,
/// and the entries nested under it.
#[derive(Debug)]
pub struct TocEntry {
    pub title: String,
    pub page: usize,
    pub children: Vec<TocEntry>,
}

/// One contents row: title, 0-based page, and nesting depth.
#[derive(Debug, Clone, PartialEq, Eq)]
pub struct TocRow {
    pub title: String,
    pub page: usize,
    pub depth: u32,
}

/// The rows of an outline in depth-first order: each entry, then its
/// children one level deeper, then its later siblings.
pub open spec fn flat(items: Seq<TocEntry>, depth: nat) -> Seq<(Seq<char>, int, nat)>
    decreases items,
{
    if items.len() == 0 {
        seq![]
    } else {
        proof {
            assert(decreases_to!(items => items[0]));
            assert(decreases_to!(items[0] => items[0].children));
            assert(decreases_to!(items[0].children => items[0].children@));
        }
        seq![(items[0].title@, items[0].page - 1, depth)] + flat(items[0].children@, depth + 1)
            + flat(items.drop_first(), depth)
    }
}

/// An outline the sidebar can flatten: every page is a 1-based page
/// number and every depth fits the row's depth counter.
pub open spec fn outline_ok(items: Seq<TocEntry>, depth: nat) -> bool
    decreases items,
{
    if items.len() == 0 {
        true
    } else {
        proof {
            assert(decreases_to!(items => items[0]));
            assert(decreases_to!(items[0] => items[0].children));
            assert(decreases_to!(items[0].children => items[0].children@));
        }
        &&& items[0].page >= 1
        &&& depth <= u32::MAX
        &&& outline_ok(items[0].children@, depth + 1)
        &&& outline_ok(items.drop_first(), depth)
    }
}

/// The rows as plain values.
pub open spec fn row_views(rows: Seq<TocRow>) -> Seq<(Seq<char>, int, nat)> {
    rows.map_values(|r: TocRow| (r.title@, r.page as int, r.depth as nat))
}

fn walk(items: &Vec<TocEntry>, depth: u32, rows: &mut Vec<TocRow>)
    requires
        outline_ok(items@, depth as nat),
    ensures
        row_views(final(rows)@) == row_views(old(rows)@) + flat(items@, depth as nat),
    decreases items@,
{
    let ghost start = row_views(rows@);
    let n: usize = items.len();
    let mut i: usize = 0;
    assert(items@.skip(0) =~= items@);
    while i < n
        invariant
            i <= n,
            n == items@.len(),
            outline_ok(items@.skip(i as int), depth as nat),
            row_views(rows@) + flat(items@.skip(i as int), depth as nat) == start + flat(
                items@,
                depth as nat,
            ),
        decreases n - i,
    {
        let ghost rest = items@.skip(i as int);
        assert(rest[0] == items@[i as int]);
        assert(rest.drop_first() =~= items@.skip(i + 1));
        let item = &items[i];
        let ghost before = row_views(rows@);
        rows.push(TocRow { title: item.title.clone(), page: item.page - 1, depth });
        assert(row_views(rows@) =~= before.push((item.title@, item.page - 1, depth as nat)));
        assert(outline_ok(item.children@, (depth + 1) as nat));
        if item.children.len() > 0 {
            assert(depth + 1 <= u32::MAX);
            proof {
                assert(decreases_to!(items@ => items@[i as int]));
                assert(decreases_to!(items@[i as int] => items@[i as int].children));
                assert(decreases_to!(items@[i as int].children => items@[i as int].children@));
            }
            walk(&item.children, depth + 1, rows);
        } else {
            assert(flat(item.children@, (depth + 1) as nat) =~= Seq::<(Seq<char>, int, nat)>::empty());
        }
        i = i + 1;
        proof {
            assert(row_views(rows@) + flat(items@.skip(i as int), depth as nat) =~= start + flat(
                items@,
                depth as nat,
            ));
        }
    }
    assert(items@.skip(n as int) =~= Seq::<TocEntry>::empty());
    assert(row_views(rows@) =~= start + flat(items@, depth as nat));
}

/// Depth-first flattening of an outline tree: one row per entry, with its
/// 0-based page and one indentation level per nesting depth.
pub fn flatten_toc(items: &Vec<TocEntry>) -> (rows: Vec<TocRow>)
    requires
        outline_ok(items@, 0),
    ensures
        row_views(rows@) == flat(items@, 0),
{
    let mut rows: Vec<TocRow> = Vec::new();
    walk(items, 0, &mut rows);
    assert(row_views(Seq::<TocRow>::empty()) =~= Seq::<(Seq<char>, int, nat)>::empty());
    rows
}

/// Where an entry lands within its page, seen from the reading position
/// on that page.
#[derive(Clone, Copy, Debug, PartialEq, Eq, Structural)]
pub enum Landing {
    /// No landing point: the entry starts at the page top.
    PageTop,
    /// A landing point at or above the reading height.
    Reached,
    /// A landing point below the reading height.
    Ahead,
}

/// What the active-row search reads of one contents row: its 0-based page,
/// its depth, and where it lands relative to the reading height.
#[derive(Clone, Copy, Debug, PartialEq, Eq, Structural)]
pub struct TocMark {
    pub page: usize,
    pub depth: u32,
    pub landing: Landing,
}

/// A row has begun once the reading position reaches its page (the page
/// top for an entry without a landing point) or drops to its landing
/// height.
pub open spec fn started(m: TocMark, page: usize) -> bool {
    m.page < page || (m.page == page && m.landing != Landing::Ahead)
}

/// A row takes over from its predecessor at the same depth once its
/// landing point is reached; without a landing point it takes over only on
/// a later page, so same-page siblings never skip ahead.
pub open spec fn supersedes(m: TocMark, page: usize) -> bool {
    m.page < page || (m.page == page && m.landing == Landing::Reached)
}

/// The row holding depth `d` after the first `k` rows: each row takes its
/// depth's place, unless the place holds a row on the same page that it
/// does not supersede.
pub open spec fn slot(rows: Seq<TocMark>, page: usize, k: int, d: nat) -> Option<int>
    decreases k,
{
    if k <= 0 {
        None
    } else {
        let prev = slot(rows, page, k - 1, d);
        let r = rows[k - 1];
        if r.depth == d && !(prev matches Some(p) && rows[p].page == r.page && !supersedes(
            r,
            page,
        )) {
            Some(k - 1)
        } else {
            prev
        }
    }
}

/// Whether the first `k` rows have begun and the next one (if any) has not.
pub open spec fn is_lead(rows: Seq<TocMark>, page: usize, k: int) -> bool {
    &&& 0 <= k <= rows.len()
    &&& forall|i: int| 0 <= i < k ==> started(#[trigger] rows[i], page)
    &&& (k == rows.len() || !started(rows[k], page))
}

/// The number of leading rows that have begun.
pub open spec fn lead(rows: Seq<TocMark>, page: usize) -> int {
    choose|k: int| is_lead(rows, page, k)
}

/// Row `i`'s section is still open: the next row at its depth or
/// shallower, if any, has not taken over.
pub open spec fn stays_open(rows: Seq<TocMark>, page: usize, i: int) -> bool {
    forall|j: int|
        #![trigger rows[j]]
        i < j < rows.len() && rows[j].depth <= rows[i].depth && (forall|k: int|
            i < k < j ==> #[trigger] rows[k].depth > rows[i].depth) ==> !supersedes(rows[j], page)
}

/// Row `i` may carry the accent: it holds its depth's place among the rows
/// that have begun, and its section is still open.
#[verifier::opaque]
pub open spec fn accentable(rows: Seq<TocMark>, page: usize, i: int) -> bool {
    &&& 0 <= i < rows.len()
    &&& slot(rows, page, lead(rows, page), rows[i].depth as nat) == Some(i)
    &&& stays_open(rows, page, i)
}

/// A place holds a row of that depth among the rows seen.
proof fn lemma_slot_row(rows: Seq<TocMark>, page: usize, k: int, d: nat)
    requires
        k <= rows.len(),
    ensures
        slot(rows, page, k, d) matches Some(i) ==> 0 <= i < k && rows[i].depth == d,
    decreases k,
{
    if k > 0 {
        lemma_slot_row(rows, page, k - 1, d);
    }
}

/// The place for depth `d` as an optional index.
pub open spec fn as_index(o: Option<usize>) -> Option<int> {
    match o {
        Some(i) => Some(i as int),
        None => None,
    }
}

fn row_started(m: TocMark, page: usize) -> (b: bool)
    ensures
        b == started(m, page),
{
    m.page < page || (m.page == page && m.landing != Landing::Ahead)
}

fn row_supersedes(m: TocMark, page: usize) -> (b: bool)
    ensures
        b == supersedes(m, page),
{
    m.page < page || (m.page == page && m.landing == Landing::Reached)
}

fn section_open(rows: &[TocMark], page: usize, i: usize) -> (b: bool)
    requires
        i < rows@.len(),
    ensures
        b == stays_open(rows@, page, i as int),
{
    let n: usize = rows.len();
    let depth = rows[i].depth;
    let mut j: usize = i + 1;
    while j < n && rows[j].depth > depth
        invariant
            i < j <= n,
            n == rows@.len(),
            depth == rows@[i as int].depth,
            forall|k: int| i < k < j ==> #[trigger] rows@[k].depth > depth,
        decreases n - j,
    {
        j = j + 1;
    }
    if j < n {
        let open = !row_supersedes(rows[j], page);
        proof {
            assert forall|jj: int|
                #![trigger rows@[jj]]
                i < jj < rows@.len() && rows@[jj].depth <= rows@[i as int].depth && (forall|k: int|
                    i < k < jj ==> #[trigger] rows@[k].depth > rows@[i as int].depth) implies (open
                ==> !supersedes(rows@[jj], page)) by {
                if jj < j {
                    assert(rows@[jj].depth > depth);
                } else if jj > j {
                    assert(rows@[j as int].depth > rows@[i as int].depth);
                }
            }
            if !open {
                assert(rows@[j as int].depth <= rows@[i as int].depth);
                assert(forall|k: int| i < k < j ==> #[trigger] rows@[k].depth > rows@[i as int].depth);
                assert(!stays_open(rows@, page, i as int));
            }
        }
        open
    } else {
        proof {
            assert forall|jj: int|
                #![trigger rows@[jj]]
                i < jj < rows@.len() && rows@[jj].depth <= rows@[i as int].depth && (forall|k: int|
                    i < k < jj ==> #[trigger] rows@[k].depth > rows@[i as int].depth) implies !supersedes(
                rows@[jj],
                page,
            ) by {
                assert(rows@[jj].depth > depth);
            }
        }
        true
    }
}

/// An accentable row holds its depth's place.
proof fn lemma_accentable_slot(rows: Seq<TocMark>, page: usize, j: int)
    ensures
        accentable(rows, page, j) ==> 0 <= j < rows.len() && slot(
            rows,
            page,
            lead(rows, page),
            rows[j].depth as nat,
        ) == Some(j) && stays_open(rows, page, j),
{
    reveal(accentable);
}

/// A row holding its depth's place with its section open is accentable.
proof fn lemma_make_accentable(rows: Seq<TocMark>, page: usize, i: int)
    requires
        0 <= i < rows.len(),
        slot(rows, page, lead(rows, page), rows[i].depth as nat) == Some(i),
        stays_open(rows, page, i),
    ensures
        accentable(rows, page, i),
{
    reveal(accentable);
}

/// At most one accentable row per depth: the one holding that place.
proof fn lemma_only_slot_row(rows: Seq<TocMark>, page: usize, d: nat)
    ensures
        forall|j: int|
            #![trigger accentable(rows, page, j)]
            accentable(rows, page, j) && rows[j].depth == d ==> slot(rows, page, lead(rows, page), d)
                == Some(j),
{
    reveal(accentable);
}

/// When the place of depth `d` is held by a closed section, no row of that
/// depth is accentable.
proof fn lemma_closed_slot_row(rows: Seq<TocMark>, page: usize, d: nat)
    requires
        slot(rows, page, lead(rows, page), d) matches Some(i) && !stays_open(rows, page, i),
    ensures
        forall|j: int| #![trigger accentable(rows, page, j)] accentable(rows, page, j) ==> rows[j].depth != d,
{
    reveal(accentable);
}

/// When no row holds the place of depth `d`, no row of that depth is
/// accentable.
proof fn lemma_empty_slot(rows: Seq<TocMark>, page: usize, d: nat)
    requires
        slot(rows, page, lead(rows, page), d) is None,
    ensures
        forall|j: int| #![trigger accentable(rows, page, j)] accentable(rows, page, j) ==> rows[j].depth != d,
{
    reveal(accentable);
}

/// The row holding the reading position: the deepest row that may carry
/// the accent, `None` when no row may (the position precedes the first
/// heading). Rows are in outline order with the marks of the position's
/// page.
pub fn active_toc_row(rows: &[TocMark], page: usize) -> (r: Option<usize>)
    requires
        forall|i: int| 0 <= i < rows@.len() ==> (#[trigger] rows@[i]).depth < usize::MAX,
    ensures
        match r {
            Some(i) => accentable(rows@, page, i as int) && forall|j: int|
                accentable(rows@, page, j) ==> rows@[j].depth <= rows@[i as int].depth,
            None => forall|j: int| !accentable(rows@, page, j),
        },
{
    let n: usize = rows.len();
    let mut chain: Vec<Option<usize>> = Vec::new();
    let mut idx: usize = 0;
    while idx < n && row_started(rows[idx], page)
        invariant
            idx <= n,
            n == rows@.len(),
            forall|i: int| 0 <= i < rows@.len() ==> (#[trigger] rows@[i]).depth < usize::MAX,
            forall|i: int| 0 <= i < idx ==> started(#[trigger] rows@[i], page),
            forall|d: int|
                0 <= d < chain@.len() ==> as_index(#[trigger] chain@[d]) == slot(
                    rows@,
                    page,
                    idx as int,
                    d as nat,
                ),
            forall|d: nat| d >= chain@.len() ==> #[trigger] slot(rows@, page, idx as int, d) is None,
        decreases n - idx,
    {
        let row = rows[idx];
        let d: usize = row.depth as usize;
        while chain.len() <= d
            invariant
                d < usize::MAX,
                forall|dd: int|
                    0 <= dd < chain@.len() ==> as_index(#[trigger] chain@[dd]) == slot(
                        rows@,
                        page,
                        idx as int,
                        dd as nat,
                    ),
                forall|dd: nat| dd >= chain@.len() ==> #[trigger] slot(rows@, page, idx as int, dd) is None,
            decreases d + 1 - chain@.len(),
        {
            chain.push(None);
        }
        proof {
            lemma_slot_row(rows@, page, idx as int, d as nat);
        }
        let stale: bool = match chain[d] {
            Some(prev) => rows[prev].page == row.page && !row_supersedes(row, page),
            None => false,
        };
        if !stale {
            chain.set(d, Some(idx));
        }
        idx = idx + 1;
        proof {
            assert forall|dd: nat| dd >= chain@.len() implies #[trigger] slot(rows@, page, idx as int, dd) is None by {
                assert(slot(rows@, page, idx - 1, dd) is None);
            }
        }
    }
    let ghost k = idx as int;
    assert(lead(rows@, page) == k) by {
        assert(is_lead(rows@, page, k));
        let c = lead(rows@, page);
        assert(is_lead(rows@, page, c));
        if c < k {
            assert(started(rows@[c], page));
        } else if c > k {
            assert(started(rows@[k], page));
        }
    }
    let mut best: Option<usize> = None;
    let mut d: usize = 0;
    while d < chain.len()
        invariant
            d <= chain@.len(),
            n == rows@.len(),
            0 <= k <= rows@.len(),
            k == lead(rows@, page),
            forall|dd: int|
                0 <= dd < chain@.len() ==> as_index(#[trigger] chain@[dd]) == slot(rows@, page, k, dd as nat),
            forall|dd: nat| dd >= chain@.len() ==> #[trigger] slot(rows@, page, k, dd) is None,
            match best {
                Some(b) => accentable(rows@, page, b as int) && rows@[b as int].depth < d
                    && forall|j: int| accentable(rows@, page, j) && rows@[j].depth < d ==> rows@[j].depth
                        <= rows@[b as int].depth,
                None => forall|j: int| accentable(rows@, page, j) ==> rows@[j].depth >= d,
            },
        decreases chain@.len() - d,
    {
        proof {
            lemma_slot_row(rows@, page, k, d as nat);
        }
        let ghost before = best;
        match chain[d] {
            Some(i) => {
                proof {
                    assert(as_index(chain@[d as int]) == slot(rows@, page, k, d as nat));
                }
                if section_open(rows, page, i) {
                    best = Some(i);
                    proof {
                        lemma_make_accentable(rows@, page, i as int);
                        lemma_only_slot_row(rows@, page, d as nat);
                    }
                } else {
                    proof {
                        lemma_closed_slot_row(rows@, page, d as nat);
                    }
                }
            },
            None => {
                proof {
                    assert(as_index(chain@[d as int]) == slot(rows@, page, k, d as nat));
                    lemma_empty_slot(rows@, page, d as nat);
                }
            },
        }
        d = d + 1;
    }
    proof {
        assert forall|j: int| accentable(rows@, page, j) implies rows@[j].depth < chain@.len() by {
            lemma_accentable_slot(rows@, page, j);
            if rows@[j].depth >= chain@.len() {
                assert(slot(rows@, page, k, rows@[j].depth as nat) is None);
            }
        }
    }
    best
}

/// The rows with every depth one level deeper.
pub open spec fn deeper(rows: Seq<(Seq<char>, int, nat)>) -> Seq<(Seq<char>, int, nat)> {
    rows.map_values(|r: (Seq<char>, int, nat)| (r.0, r.1, r.2 + 1))
}

/// Depth is nesting: flattening an outline one level deeper gives the
/// same rows each one level deeper; the first row is the first entry at
/// the depth the outline starts at; no row sits above that depth; and an
/// entry's first child comes right after it, exactly one level deeper.
pub proof fn law_toc_depth_is_nesting(items: Seq<TocEntry>, d: nat)
    ensures
        flat(items, d + 1) == deeper(flat(items, d)),
        forall|i: int| 0 <= i < flat(items, d).len() ==> #[trigger] flat(items, d)[i].2 >= d,
        items.len() > 0 ==> flat(items, d)[0] == (items[0].title@, items[0].page - 1, d),
        items.len() > 0 && items[0].children@.len() > 0 ==> flat(items, d)[1] == (
            items[0].children@[0].title@,
            items[0].children@[0].page - 1,
            d + 1,
        ),
    decreases items,
{
    if items.len() > 0 {
        assert(decreases_to!(items => items[0]));
        assert(decreases_to!(items[0] => items[0].children));
        assert(decreases_to!(items[0].children => items[0].children@));
        let kids = items[0].children@;
        let rest = items.drop_first();
        law_toc_depth_is_nesting(kids, d + 1);
        law_toc_depth_is_nesting(rest, d);
        law_toc_depth_is_nesting(kids, d);
        let head = seq![(items[0].title@, items[0].page - 1, d)];
        let head1 = seq![(items[0].title@, items[0].page - 1, d + 1)];
        assert(flat(items, d) == head + flat(kids, d + 1) + flat(rest, d));
        assert(flat(items, d + 1) == head1 + flat(kids, d + 2) + flat(rest, d + 1));
        assert(deeper(head + flat(kids, d + 1) + flat(rest, d)) =~= deeper(head) + deeper(
            flat(kids, d + 1),
        ) + deeper(flat(rest, d)));
        assert(deeper(head) =~= head1);
        assert forall|i: int| 0 <= i < flat(items, d).len() implies #[trigger] flat(items, d)[i].2 >= d by {
            let a = head.len() as int;
            let b = a + flat(kids, d + 1).len();
            if i >= b {
                assert(flat(items, d)[i] == flat(rest, d)[i - b]);
            } else if i >= a {
                assert(flat(items, d)[i] == flat(kids, d + 1)[i - a]);
            }
        }
        if kids.len() > 0 {
            assert(flat(items, d)[1] == flat(kids, d + 1)[0]);
        }
    }
}

} // verus!
