//! View position within a document: current page and vertical scroll offset.
//!
//! Page indices are 0-based. Every operation clamps out-of-range inputs, and
//! empty documents (`page_count == 0`) never panic.

use vstd::prelude::*;

verus! {

/// Index of the last page of a document of `page_count` pages; 0 for an
/// empty document.
pub open spec fn last_index(page_count: nat) -> nat {
    if page_count == 0 { 0 } else { (page_count - 1) as nat }
}

/// `value` clamped to at most `bound`.
pub open spec fn min_nat(value: int, bound: int) -> int {
    if value <= bound { value } else { bound }
}

/// The page after `page`, stopping at the last page.
pub open spec fn next_index(page: nat, page_count: nat) -> nat {
    min_nat((page + 1) as int, last_index(page_count) as int) as nat
}

/// The page before `page`, stopping at the first page (and at the last
/// page when `page` lies past the end).
pub open spec fn prev_index(page: nat, page_count: nat) -> nat {
    min_nat(if page == 0 { 0int } else { page - 1 }, last_index(page_count) as int) as nat
}

/// `scroll` moved down by `delta`, clamped to `max_scroll`.
pub open spec fn scrolled_down(scroll: nat, delta: nat, max_scroll: nat) -> nat {
    min_nat((scroll + delta) as int, max_scroll as int) as nat
}

/// `scroll` moved up by `delta`, stopping at 0 and clamped to `max_scroll`.
pub open spec fn scrolled_up(scroll: nat, delta: nat, max_scroll: nat) -> nat {
    min_nat(if scroll >= delta { scroll - delta } else { 0int }, max_scroll as int) as nat
}

/// Current page and scroll offset of a reading view.
#[derive(Copy, Clone, Debug, PartialEq, Eq, Structural)]
pub struct ViewState {
    page: usize,
    scroll_offset: usize,
}

impl ViewState {
    /// The page the view shows.
    pub closed spec fn page_spec(self) -> nat {
        self.page as nat
    }

    /// The vertical scroll offset within the page.
    pub closed spec fn scroll_spec(self) -> nat {
        self.scroll_offset as nat
    }

    /// The first page with no scroll.
    pub fn new() -> (v: Self)
        ensures
            v.page_spec() == 0,
            v.scroll_spec() == 0,
    {
        ViewState { page: 0, scroll_offset: 0 }
    }

    pub fn page(self) -> (p: usize)
        ensures
            p == self.page_spec(),
    {
        self.page
    }

    pub fn scroll_offset(self) -> (s: usize)
        ensures
            s == self.scroll_spec(),
    {
        self.scroll_offset
    }

    /// Jump to the first page and reset the scroll.
    pub fn first_page(self, page_count: usize) -> (v: Self)
        ensures
            v.page_spec() == 0,
            v.scroll_spec() == 0,
    {
        self.with_page(0, page_count)
    }

    /// Jump to the last page (page 0 for an empty document) and reset the scroll.
    pub fn last_page(self, page_count: usize) -> (v: Self)
        ensures
            v.page_spec() == last_index(page_count as nat),
            v.scroll_spec() == 0,
    {
        let page: usize = last_page_index(page_count);
        self.with_page(page, page_count)
    }

    /// Jump to `page`, clamped to the last page, and reset the scroll.
    pub fn goto_page(self, page: usize, page_count: usize) -> (v: Self)
        ensures
            v.page_spec() == min_nat(page as int, last_index(page_count as nat) as int),
            v.scroll_spec() == 0,
    {
        self.with_page(page, page_count)
    }

    /// Advance one page, stopping at the last page; the scroll resets.
    pub fn next_page(self, page_count: usize) -> (v: Self)
        ensures
            v.page_spec() == next_index(self.page_spec(), page_count as nat),
            v.scroll_spec() == 0,
    {
        let last: usize = last_page_index(page_count);
        let page: usize = if self.page < last { self.page + 1 } else { last };
        self.with_page(page, page_count)
    }

    /// Go back one page, stopping at the first page (and at the last page
    /// when the view lies past the end); the scroll resets.
    pub fn prev_page(self, page_count: usize) -> (v: Self)
        ensures
            v.page_spec() == prev_index(self.page_spec(), page_count as nat),
            v.scroll_spec() == 0,
    {
        let page: usize = if self.page == 0 { 0 } else { self.page - 1 };
        self.with_page(page, page_count)
    }

    /// Scroll down by `delta`, clamped to `max_scroll`; the page is kept.
    pub fn scroll_down(self, delta: usize, max_scroll: usize) -> (v: Self)
        ensures
            v.page_spec() == self.page_spec(),
            v.scroll_spec() == scrolled_down(self.scroll_spec(), delta as nat, max_scroll as nat),
    {
        let scroll_offset: usize = if delta <= max_scroll && self.scroll_offset <= max_scroll - delta {
            self.scroll_offset + delta
        } else {
            max_scroll
        };
        ViewState { page: self.page, scroll_offset }
    }

    /// Scroll up by `delta`, stopping at 0 and clamped to `max_scroll`; the
    /// page is kept.
    pub fn scroll_up(self, delta: usize, max_scroll: usize) -> (v: Self)
        ensures
            v.page_spec() == self.page_spec(),
            v.scroll_spec() == scrolled_up(self.scroll_spec(), delta as nat, max_scroll as nat),
    {
        let lowered: usize = if self.scroll_offset >= delta { self.scroll_offset - delta } else { 0 };
        let scroll_offset: usize = if lowered <= max_scroll { lowered } else { max_scroll };
        ViewState { page: self.page, scroll_offset }
    }

    fn with_page(self, page: usize, page_count: usize) -> (v: Self)
        ensures
            v.page_spec() == min_nat(page as int, last_index(page_count as nat) as int),
            v.scroll_spec() == 0,
    {
        let last: usize = last_page_index(page_count);
        ViewState { page: if page <= last { page } else { last }, scroll_offset: 0 }
    }
}

impl Default for ViewState {
    fn default() -> (v: Self)
        ensures
            v.page_spec() == 0,
            v.scroll_spec() == 0,
    {
        ViewState::new()
    }
}

fn last_page_index(page_count: usize) -> (i: usize)
    ensures
        i == last_index(page_count as nat),
{
    if page_count == 0 { 0 } else { page_count - 1 }
}

/// Every view a navigation leaves stays inside the document: its page is
/// at most the last page.
pub proof fn law_pages_stay_in_document(page: nat, target: nat, page_count: nat)
    ensures
        next_index(page, page_count) <= last_index(page_count),
        prev_index(page, page_count) <= last_index(page_count),
        min_nat(target as int, last_index(page_count) as int) <= last_index(page_count),
{
}

/// Going back a page undoes going forward, except from the last page.
pub proof fn law_prev_undoes_next(page: nat, page_count: nat)
    requires
        page < last_index(page_count),
    ensures
        prev_index(next_index(page, page_count), page_count) == page,
{
}

/// Going forward a page undoes going back, except from the first page.
pub proof fn law_next_undoes_prev(page: nat, page_count: nat)
    requires
        0 < page <= last_index(page_count),
    ensures
        next_index(prev_index(page, page_count), page_count) == page,
{
}

/// Scrolling up undoes scrolling down by the same amount when the way down
/// was not clamped.
pub proof fn law_scroll_up_undoes_scroll_down(scroll: nat, delta: nat, max_scroll: nat)
    requires
        scroll + delta <= max_scroll,
    ensures
        scrolled_up(scrolled_down(scroll, delta, max_scroll), delta, max_scroll) == scroll,
{
}

/// Jumping to the first or the last page twice lands where once does.
pub proof fn law_jumps_are_idempotent(page_count: nat)
    ensures
        min_nat(last_index(page_count) as int, last_index(page_count) as int) == last_index(
            page_count,
        ),
        min_nat(0, last_index(page_count) as int) == 0,
{
}

} // verus!
