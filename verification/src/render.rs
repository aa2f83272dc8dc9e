//! Choosing which queued page renders to run.

use vstd::prelude::*;

verus! {

/// Whether request `i` is the newest one queued for its page.
pub open spec fn newest_for_page(pages: Seq<usize>, i: int) -> bool {
    forall|j: int| i < j < pages.len() ==> pages[j] != pages[i]
}

/// The positions of the newest request per page among the first `n`
/// requests, in arrival order.
pub open spec fn newest_positions(pages: Seq<usize>, n: int) -> Seq<usize>
    decreases n,
{
    if n <= 0 {
        seq![]
    } else {
        newest_positions(pages, n - 1) + if newest_for_page(pages, n - 1) {
            seq![(n - 1) as usize]
        } else {
            seq![]
        }
    }
}

/// Keep only the newest queued request per page — a stale zoom's render
/// must not outlive a newer one — ordered by where that newest request
/// arrived. Given the queued requests' pages, returns the positions of the
/// requests to run.
pub fn coalesce(pages: &[usize]) -> (keep: Vec<usize>)
    ensures
        keep@ == newest_positions(pages@, pages@.len() as int),
{
    let n: usize = pages.len();
    let mut keep: Vec<usize> = Vec::new();
    let mut i: usize = 0;
    while i < n
        invariant
            i <= n,
            n == pages@.len(),
            keep@ == newest_positions(pages@, i as int),
        decreases n - i,
    {
        let mut newest = true;
        let mut j: usize = i + 1;
        while j < n
            invariant
                i < j <= n,
                n == pages@.len(),
                newest == forall|k: int| i < k < j ==> pages@[k] != pages@[i as int],
            decreases n - j,
        {
            if pages[j] == pages[i] {
                newest = false;
            }
            j = j + 1;
        }
        if newest {
            keep.push(i);
        }
        i = i + 1;
    }
    keep
}

/// Coalescing keeps, in arrival order, exactly the newest request of each
/// page: every kept position is the newest for its page, every newest one is
/// kept, and the positions ascend.
pub proof fn law_coalesce_keeps_exactly_the_newest(pages: Seq<usize>, n: int)
    requires
        0 <= n <= pages.len(),
        pages.len() <= usize::MAX,
    ensures
        forall|k: int|
            0 <= k < newest_positions(pages, n).len() ==> #[trigger] newest_positions(pages, n)[k]
                < n && newest_for_page(pages, newest_positions(pages, n)[k] as int),
        forall|k1: int, k2: int|
            0 <= k1 < k2 < newest_positions(pages, n).len() ==> #[trigger] newest_positions(
                pages,
                n,
            )[k1] < #[trigger] newest_positions(pages, n)[k2],
        forall|i: int|
            0 <= i < n && #[trigger] newest_for_page(pages, i) ==> newest_positions(
                pages,
                n,
            ).contains(i as usize),
    decreases n,
{
    if n > 0 {
        law_coalesce_keeps_exactly_the_newest(pages, n - 1);
        let before = newest_positions(pages, n - 1);
        let now = newest_positions(pages, n);
        if newest_for_page(pages, n - 1) {
            assert(now == before.push((n - 1) as usize));
            assert(now[now.len() - 1] == (n - 1) as usize);
            assert forall|k: int| 0 <= k < now.len() implies #[trigger] now[k] < n
                && newest_for_page(pages, now[k] as int) by {
                if k < before.len() {
                    assert(now[k] == before[k]);
                    assert(newest_positions(pages, n - 1)[k] < n - 1);
                } else {
                    assert(k == before.len());
                    assert(now[k] == (n - 1) as usize);
                }
            }
            assert forall|k1: int, k2: int| 0 <= k1 < k2 < now.len() implies #[trigger] now[k1]
                < #[trigger] now[k2] by {
                assert(now[k1] == before[k1]);
                if k2 < before.len() {
                    assert(now[k2] == before[k2]);
                    assert(newest_positions(pages, n - 1)[k1] < newest_positions(pages, n - 1)[k2]);
                } else {
                    assert(now[k2] == (n - 1) as usize);
                    assert(newest_positions(pages, n - 1)[k1] < n - 1);
                }
            }
            assert forall|i: int| 0 <= i < n && #[trigger] newest_for_page(pages, i) implies now.contains(
                i as usize,
            ) by {
                if i < n - 1 {
                    let k = choose|k: int| 0 <= k < before.len() && before[k] == i as usize;
                    assert(now[k] == i as usize);
                }
            }
        } else {
            assert(now == before);
        }
    }
}

/// Every page with a queued request keeps one: its newest request.
pub proof fn law_coalesce_drops_no_page(pages: Seq<usize>, j: int)
    requires
        0 <= j < pages.len(),
    ensures
        exists|i: int| j <= i < pages.len() && pages[i] == pages[j] && #[trigger] newest_for_page(pages, i),
    decreases pages.len() - j,
{
    if !newest_for_page(pages, j) {
        let k = choose|k: int| j < k < pages.len() && pages[k] == pages[j];
        law_coalesce_drops_no_page(pages, k);
    } else {
        assert(newest_for_page(pages, j));
    }
}

} // verus!
