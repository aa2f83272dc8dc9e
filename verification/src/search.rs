//! Lazy, page-at-a-time, case-insensitive text search over a document.
//!
//! Each page's text is normalized for reading, lowercased, and searched as
//! UTF-8 bytes. Hits are `(page, byte offset)` pairs into that lowercased
//! text. Matches start on character boundaries and never overlap: after a
//! match the scan resumes past it. The scan starts at the requested page,
//! runs to the last page, then wraps to the first and stops before the start
//! page, reading every page exactly once.

use vstd::prelude::*;
use vstd::string::StringSliceAdditionalSpecFns;
use vstd::utf8::{encode_utf8, is_char_boundary};

use crate::navigation::last_index;
use crate::pdf::{error_view, Document, Error};
use crate::sidebar::{extract_snippet, snippet, SearchHit};
use crate::text::{normalize_reader_text, normalized};

verus! {

/// The lowercase mapping that std's `str::to_lowercase` applies.
pub uninterp spec fn lowercase(s: Seq<char>) -> Seq<char>;

/// std's `str::to_lowercase`, documented to return the lowercase equivalent
/// of the string as a new `String`. The result depends on the characters
/// alone; the Unicode case tables behind it are not stated here.
#[verifier::external_body]
pub(crate) fn to_lowercase(s: &str) -> (r: String)
    ensures
        r@ == lowercase(s@),
{
    s.to_lowercase()
}

/// Whether `needle` occurs in `bytes` starting at byte `at`.
pub open spec fn occurs_at(bytes: Seq<u8>, needle: Seq<u8>, at: int) -> bool {
    0 <= at && at + needle.len() <= bytes.len() && bytes.subrange(at, at + needle.len())
        == needle
}

/// Offsets of the matches of `needle` in `bytes`, scanning left to right from
/// `from`: a match starts on a character boundary, and the scan resumes past
/// it (one byte further for an empty needle).
pub open spec fn match_offsets(bytes: Seq<u8>, needle: Seq<u8>, from: int) -> Seq<int>
    decreases bytes.len() + 1 - from,
{
    if from < 0 || from + needle.len() > bytes.len() {
        seq![]
    } else if is_char_boundary(bytes, from) && occurs_at(bytes, needle, from) {
        seq![from] + match_offsets(
            bytes,
            needle,
            from + if needle.len() == 0 {
                1
            } else {
                needle.len() as int
            },
        )
    } else {
        match_offsets(bytes, needle, from + 1)
    }
}

/// A non-empty text encodes to at least one byte.
proof fn lemma_encoding_nonempty(chars: Seq<char>)
    requires
        chars.len() > 0,
    ensures
        encode_utf8(chars).len() > 0,
{
    reveal_with_fuel(encode_utf8, 1);
}

/// Whether `needle` occurs in `hay` at byte `at`.
pub(crate) fn bytes_at(hay: &[u8], at: usize, needle: &[u8]) -> (found: bool)
    requires
        at + needle@.len() <= hay@.len(),
        hay@.len() <= usize::MAX,
    ensures
        found == occurs_at(hay@, needle@, at as int),
{
    let mut k: usize = 0;
    while k < needle.len()
        invariant
            at + needle@.len() <= hay@.len(),
            hay@.len() <= usize::MAX,
            k <= needle@.len(),
            forall|j: int| 0 <= j < k ==> hay@[at + j] == needle@[j],
        decreases needle@.len() - k,
    {
        if hay[at + k] != needle[k] {
            assert(hay@.subrange(at as int, at + needle@.len())[k as int] != needle@[k as int]);
            return false;
        }
        k = k + 1;
    }
    assert(hay@.subrange(at as int, at + needle@.len()) =~= needle@);
    true
}

/// Byte offsets of the matches of `needle` in `haystack`, in order: each
/// starts on a character boundary, and none overlaps the one before.
pub fn find_matches(haystack: &str, needle: &str) -> (offsets: Vec<usize>)
    requires
        needle.spec_bytes().len() > 0 || haystack.spec_bytes().len() < usize::MAX,
    ensures
        offsets@.map_values(|o: usize| o as int) == match_offsets(
            haystack.spec_bytes(),
            needle.spec_bytes(),
            0,
        ),
{
    let hay = haystack.as_bytes();
    let nd = needle.as_bytes();
    let n: usize = nd.len();
    let hay_len: usize = hay.len();
    let step: usize = if n == 0 {
        1
    } else {
        n
    };
    let mut offsets: Vec<usize> = Vec::new();
    let mut start: usize = 0;
    while start <= hay_len && n <= hay_len - start
        invariant
            hay_len == hay@.len(),
            hay@ == haystack.spec_bytes(),
            nd@ == needle.spec_bytes(),
            hay@.len() <= usize::MAX,
            n > 0 || hay@.len() < usize::MAX,
            n == nd@.len(),
            step == (if n == 0 {
                1
            } else {
                n
            }),
            start <= hay@.len() + 1,
            offsets@.map_values(|o: usize| o as int) + match_offsets(hay@, nd@, start as int)
                == match_offsets(hay@, nd@, 0),
        decreases hay@.len() + 1 - start,
    {
        let ghost before = offsets@;
        if haystack.is_char_boundary(start) && bytes_at(hay, start, nd) {
            offsets.push(start);
            proof {
                assert(offsets@.map_values(|o: usize| o as int) =~= before.map_values(
                    |o: usize| o as int,
                ) + seq![start as int]);
            }
            start = start + step;
        } else {
            start = start + 1;
        }
    }
    assert(match_offsets(hay@, nd@, start as int) =~= Seq::<int>::empty());
    assert(offsets@.map_values(|o: usize| o as int) + Seq::<int>::empty() =~= offsets@.map_values(
        |o: usize| o as int,
    ));
    offsets
}

/// The page read `k`-th by a scan over `count` pages that starts at `start`
/// and wraps around to the first page once.
pub open spec fn scan_page(start: nat, count: nat, k: nat) -> nat {
    if start + k < count {
        start + k
    } else {
        (start + k - count) as nat
    }
}

/// What a page's text is searched as: normalized for reading, lowercased,
/// encoded as UTF-8.
pub open spec fn haystack(text: Seq<char>) -> Seq<u8> {
    encode_utf8(lowercase(normalized(text)))
}

/// The hits on one page whose text is `text`.
pub open spec fn page_hits(page: nat, text: Seq<char>, needle: Seq<u8>) -> Seq<(usize, usize)> {
    match_offsets(haystack(text), needle, 0).map_values(|o: int| (page as usize, o as usize))
}

/// Every match offset in the pages read fits a `usize`.
pub open spec fn offsets_fit(texts: Seq<Seq<char>>, needle: Seq<u8>) -> bool {
    forall|j: int, i: int|
        0 <= j < texts.len() && 0 <= i < match_offsets(haystack(texts[j]), needle, 0).len()
            ==> #[trigger] match_offsets(haystack(texts[j]), needle, 0)[i] <= usize::MAX
}

/// Every hit of the scanned pages, in scan order; `texts` holds the text of
/// each page read so far, in the order the scan read them.
pub open spec fn scan_hits(start: nat, count: nat, texts: Seq<Seq<char>>, needle: Seq<u8>) -> Seq<
    (usize, usize),
>
    decreases texts.len(),
{
    if texts.len() == 0 {
        seq![]
    } else {
        scan_hits(start, count, texts.drop_last(), needle) + page_hits(
            scan_page(start, count, (texts.len() - 1) as nat),
            texts.last(),
            needle,
        )
    }
}

/// Where `next` leaves the cursor, given the cursor before, whether the scan
/// was complete before, and the number of
/// hits after any scanning it did. Without a cursor, a scan that was already
/// complete gives no hit.
pub open spec fn next_cursor(cursor: Option<nat>, was_complete: bool, len: nat) -> Option<nat> {
    match cursor {
        Some(i) => if i + 1 < len {
            Some(i + 1)
        } else {
            Some(0)
        },
        None => if was_complete || len == 0 {
            None
        } else {
            Some(0)
        },
    }
}

/// How many hits `next` must see before it stops scanning: one past the
/// cursor, or the first hit.
pub open spec fn next_target(cursor: Option<nat>) -> nat {
    match cursor {
        Some(i) => i + 1,
        None => 0,
    }
}

/// The hit at the cursor, if any.
pub open spec fn hit_at(hits: Seq<(usize, usize)>, cursor: Option<nat>) -> Option<(usize, usize)> {
    match cursor {
        Some(k) => Some(hits[k as int]),
        None => None,
    }
}

/// Where `prev` leaves the cursor, given the cursor before, and the number of
/// hits after any scanning it did.
pub open spec fn prev_cursor(cursor: Option<nat>, len: nat) -> Option<nat> {
    match cursor {
        Some(i) => if i > 0 {
            Some((i - 1) as nat)
        } else if len == 0 {
            None
        } else {
            Some((len - 1) as nat)
        },
        None => if len == 0 {
            None
        } else {
            Some((len - 1) as nat)
        },
    }
}

#[derive(Clone, Copy, Debug, PartialEq, Eq, Structural)]
enum ScanState {
    Active { next_page: usize, wrapped: bool },
    Complete,
}

/// Lazy, page-at-a-time text search over a [`Document`].
pub struct SearchSession<'a, D: Document> {
    document: &'a D,
    query: String,
    start_page: usize,
    page_count: usize,
    results: Vec<(usize, usize)>,
    cursor: Option<usize>,
    scan: ScanState,
    texts: Ghost<Seq<Seq<char>>>,
}

impl<'a, D: Document> SearchSession<'a, D> {
    /// The lowercased query.
    pub closed spec fn query_text(&self) -> Seq<char> {
        self.query@
    }

    /// The page the scan starts at.
    pub closed spec fn start(&self) -> nat {
        self.start_page as nat
    }

    /// The page count the document reported when the session was made.
    pub closed spec fn count(&self) -> nat {
        self.page_count as nat
    }

    /// The text of each page read so far, in scan order.
    pub closed spec fn scanned(&self) -> Seq<Seq<char>> {
        self.texts@
    }

    /// The document searched.
    pub closed spec fn source(&self) -> D {
        *self.document
    }

    /// What reading the `k`-th page of the scan order gives.
    pub open spec fn read_at(&self, k: nat) -> Result<Seq<char>, (int, Seq<char>)> {
        self.source().read(scan_page(self.start(), self.count(), k) as usize)
    }

    /// The hits found so far, in scan order.
    pub closed spec fn hits(&self) -> Seq<(usize, usize)> {
        self.results@
    }

    /// The index of the current hit, if any.
    pub closed spec fn cursor_at(&self) -> Option<nat> {
        match self.cursor {
            Some(i) => Some(i as nat),
            None => None,
        }
    }

    /// Whether the scan has nothing left to read.
    pub closed spec fn complete(&self) -> bool {
        self.scan is Complete
    }

    /// The scan position agrees with the pages read so far.
    pub closed spec fn coherent(&self) -> bool {
        let k: nat = self.texts@.len();
        let n: nat = self.page_count as nat;
        if self.query@.len() == 0 || n == 0 {
            self.scan is Complete
        } else {
            match self.scan {
                ScanState::Complete => k == n,
                ScanState::Active { next_page, wrapped } => {
                    &&& k < n
                    &&& next_page == scan_page(self.start_page as nat, n, k)
                    &&& wrapped == (self.start_page + k >= n)
                },
            }
        }
    }

    /// Whether the session can still find anything: the query and the
    /// document are both non-empty.
    pub open spec fn searchable(&self) -> bool {
        self.query_text().len() > 0 && self.count() > 0
    }

    /// The session's invariant: the hits are exactly those of the pages read,
    /// which are the first pages of the scan order, and the cursor points at
    /// a hit.
    pub open spec fn valid(&self) -> bool {
        &&& self.coherent()
        &&& self.start() <= last_index(self.count())
        &&& self.scanned().len() <= self.count()
        &&& !self.searchable() ==> self.scanned().len() == 0
        &&& self.complete() == (!self.searchable() || self.scanned().len() == self.count())
        &&& self.hits() == scan_hits(
            self.start(),
            self.count(),
            self.scanned(),
            encode_utf8(self.query_text()),
        )
        &&& (self.cursor_at() matches Some(i) ==> i < self.hits().len())
        &&& offsets_fit(self.scanned(), encode_utf8(self.query_text()))
        &&& self.count() == self.source().pages()
        &&& forall|j: int|
            0 <= j < self.scanned().len() ==> self.read_at(j as nat) == Ok::<
                Seq<char>,
                (int, Seq<char>),
            >(#[trigger] self.scanned()[j])
    }

    /// Whether `later` is this session after more scanning or stepping:
    /// same query, start and page count, and the pages read before are
    /// still the first ones read.
    pub open spec fn extended_by(&self, later: &Self) -> bool {
        &&& later.query_text() == self.query_text()
        &&& later.start() == self.start()
        &&& later.count() == self.count()
        &&& self.scanned().len() <= later.scanned().len()
        &&& later.scanned().subrange(0, self.scanned().len() as int) == self.scanned()
        &&& later.source() == self.source()
    }

    /// A session over `document` for `query`, starting at `start_page`
    /// clamped to the last page. Reads no page text.
    pub fn new(document: &'a D, query: &str, start_page: usize) -> (s: Self)
        ensures
            s.valid(),
            s.query_text() == lowercase(query@),
            s.start() == (if start_page <= last_index(s.count()) {
                start_page as nat
            } else {
                last_index(s.count())
            }),
            s.scanned().len() == 0,
            s.hits().len() == 0,
            s.cursor_at() is None,
    {
        let query = to_lowercase(query);
        let page_count: usize = document.page_count();
        let last: usize = if page_count == 0 {
            0
        } else {
            page_count - 1
        };
        let start_page: usize = if start_page <= last {
            start_page
        } else {
            last
        };
        let scan = if query.as_str().is_empty() || page_count == 0 {
            ScanState::Complete
        } else {
            ScanState::Active { next_page: start_page, wrapped: false }
        };
        SearchSession {
            document,
            query,
            start_page,
            page_count,
            results: Vec::new(),
            cursor: None,
            scan,
            texts: Ghost(Seq::empty()),
        }
    }

    /// The lowercased query.
    pub fn query(&self) -> (q: &str)
        ensures
            q@ == self.query_text(),
    {
        self.query.as_str()
    }

    /// The hit the cursor is on, if any.
    pub fn current(&self) -> (hit: Option<(usize, usize)>)
        requires
            self.valid(),
        ensures
            hit == hit_at(self.hits(), self.cursor_at()),
    {
        match self.cursor {
            Some(idx) => Some(self.results[idx]),
            None => None,
        }
    }

    /// The hits found so far, in scan order.
    pub fn results(&self) -> (r: &[(usize, usize)])
        ensures
            r@ == self.hits(),
    {
        self.results.as_slice()
    }

    /// Read the next page in scan order and record its hits. Does nothing
    /// once the scan is complete. On an error from the document the session
    /// is unchanged, and the same page is read again next time.
    fn scan_one_page(&mut self) -> (r: Result<(), Error>)
        requires
            old(self).valid(),
        ensures
            final(self).valid(),
            old(self).extended_by(&*final(self)),
            final(self).cursor_at() == old(self).cursor_at(),
            old(self).complete() ==> final(self).scanned() == old(self).scanned() && r is Ok,
            !old(self).complete() && r is Ok ==> final(self).scanned().len() == old(self).scanned().len() + 1,
            r is Err ==> final(self).scanned() == old(self).scanned() && !final(self).complete(),
            r matches Err(e) ==> old(self).read_at(old(self).scanned().len()) == Err::<
                Seq<char>,
                (int, Seq<char>),
            >(error_view(e)),
    {
        let (next_page, wrapped) = match self.scan {
            ScanState::Complete => {
                assert(self.texts@.subrange(0, self.texts@.len() as int) =~= self.texts@);
                return Ok(());
            },
            ScanState::Active { next_page, wrapped } => (next_page, wrapped),
        };
        let text = match self.document.page_text(next_page) {
            Ok(t) => t,
            Err(e) => {
                assert(self.texts@.subrange(0, self.texts@.len() as int) =~= self.texts@);
                return Err(e);
            },
        };
        let normal = normalize_reader_text(text.as_str());
        let hay = to_lowercase(normal.as_str());
        proof {
            lemma_encoding_nonempty(self.query@);
        }
        let offsets = find_matches(hay.as_str(), self.query.as_str());
        let ghost before = self.results@;
        let ghost needle = encode_utf8(self.query@);
        let ghost scan_before = self.scan;
        let ghost texts_before = self.texts@;
        let ghost count_before: usize = self.page_count;
        let ghost start_before: usize = self.start_page;
        let ghost query_before = self.query@;
        let ghost cursor_before = self.cursor;
        let mut j: usize = 0;
        while j < offsets.len()
            invariant
                j <= offsets@.len(),
                self.scan == scan_before,
                self.texts@ == texts_before,
                self.page_count == count_before,
                self.start_page == start_before,
                self.query@ == query_before,
                self.cursor == cursor_before,
                self.document == old(self).document,
                self.results@ == before + offsets@.take(j as int).map_values(
                    |o: usize| (next_page, o),
                ),
            decreases offsets@.len() - j,
        {
            self.results.push((next_page, offsets[j]));
            proof {
                assert(offsets@.take(j + 1).map_values(|o: usize| (next_page, o)) =~= offsets@.take(
                    j as int,
                ).map_values(|o: usize| (next_page, o)).push((next_page, offsets@[j as int])));
            }
            j = j + 1;
        }
        proof {
            let k: nat = self.texts@.len();
            assert(offsets@.take(offsets@.len() as int) =~= offsets@);
            assert(offsets@.map_values(|o: usize| (next_page, o)) =~= page_hits(
                next_page as nat,
                text@,
                needle,
            ));
            let grown = self.texts@.push(text@);
            assert(self.read_at(k) == Ok::<Seq<char>, (int, Seq<char>)>(text@));
            assert(grown.drop_last() =~= self.texts@);
            assert(grown.subrange(0, k as int) =~= self.texts@);
            assert forall|jj: int, ii: int|
                0 <= jj < grown.len() && 0 <= ii < match_offsets(haystack(grown[jj]), needle, 0).len()
                    implies #[trigger] match_offsets(haystack(grown[jj]), needle, 0)[ii] <= usize::MAX by {
                if jj < k {
                    assert(grown[jj] == self.texts@[jj]);
                } else {
                    assert(grown[jj] == text@);
                    assert(offsets@.map_values(|o: usize| o as int)[ii] == offsets@[ii] as int);
                }
            }
            self.texts@ = grown;
        }
        let count: usize = self.page_count;
        let mut page: usize = next_page;
        let mut wrap = wrapped;
        if next_page + 1 < count {
            page = next_page + 1;
        } else if !wrapped && self.start_page > 0 {
            wrap = true;
            page = 0;
        } else {
            self.scan = ScanState::Complete;
            return Ok(());
        }
        if wrap && page >= self.start_page {
            self.scan = ScanState::Complete;
        } else {
            self.scan = ScanState::Active { next_page: page, wrapped: wrap };
        }
        Ok(())
    }

    /// Read exactly one more page, unless the scan is complete; returns
    /// whether the scan is complete afterwards.
    pub fn step(&mut self) -> (r: Result<bool, Error>)
        requires
            old(self).valid(),
        ensures
            final(self).valid(),
            old(self).extended_by(&*final(self)),
            final(self).cursor_at() == old(self).cursor_at(),
            old(self).complete() ==> r == Ok::<bool, Error>(true) && final(self).scanned() == old(self).scanned(),
            !old(self).complete() ==> match r {
                Ok(done) => final(self).scanned().len() == old(self).scanned().len() + 1 && done
                    == final(self).complete(),
                Err(e) => final(self).scanned() == old(self).scanned() && !final(self).complete()
                    && final(self).read_at(final(self).scanned().len()) == Err::<Seq<char>, (int, Seq<char>)>(error_view(e)),
            },
    {
        match self.scan_one_page() {
            Ok(()) => Ok(self.scan_complete()),
            Err(e) => Err(e),
        }
    }

    /// Move to the next hit, scanning only as far as needed to find one; after
    /// the last hit of a complete scan, wrap to the first.
    pub fn next(&mut self) -> (r: Result<Option<(usize, usize)>, Error>)
        requires
            old(self).valid(),
        ensures
            final(self).valid(),
            old(self).extended_by(&*final(self)),
            old(self).cursor_at() matches Some(i) ==> (i + 1 < old(self).hits().len()
                ==> final(self).scanned() == old(self).scanned() && r == Ok::<
                Option<(usize, usize)>,
                Error,
            >(Some(old(self).hits()[i as int + 1]))),
            !old(self).searchable() ==> r == Ok::<Option<(usize, usize)>, Error>(None)
                && final(self).scanned() == old(self).scanned(),
            old(self).complete() ==> final(self).scanned() == old(self).scanned(),
            final(self).scanned().len() > old(self).scanned().len() + 1 ==> scan_hits(
                final(self).start(),
                final(self).count(),
                final(self).scanned().drop_last(),
                encode_utf8(final(self).query_text()),
            ).len() <= next_target(old(self).cursor_at()),
            match r {
                Ok(hit) => {
                    &&& !(old(self).cursor_at() matches Some(i) && i + 1 < old(self).hits().len())
                        && !old(self).complete() ==> final(self).scanned().len() > old(self).scanned().len() && (final(self).hits().len() > next_target(
                        old(self).cursor_at(),
                    ) || final(self).complete())
                    &&& final(self).cursor_at() == next_cursor(
                        old(self).cursor_at(),
                        old(self).complete(),
                        final(self).hits().len(),
                    )
                    &&& hit == hit_at(final(self).hits(), final(self).cursor_at())
                },
                Err(e) => {
                    &&& final(self).cursor_at() == old(self).cursor_at()
                    &&& final(self).hits().len() == old(self).hits().len()
                    &&& !final(self).complete()
                    &&& final(self).read_at(final(self).scanned().len()) == Err::<Seq<char>, (int, Seq<char>)>(error_view(e))
                },
            },
    {
        proof {
            assert(self.texts@.subrange(0, self.texts@.len() as int) =~= self.texts@);
        }
        if self.query.as_str().is_empty() {
            return Ok(None);
        }
        let target: usize = match self.cursor {
            Some(idx) => {
                if idx < self.results.len() - 1 {
                    self.cursor = Some(idx + 1);
                    return Ok(Some(self.results[idx + 1]));
                }
                idx + 1
            },
            None => 0,
        };
        let ghost first = *self;
        let ghost first_hits: nat = self.results@.len();
        let ghost first_len: nat = self.texts@.len();
        while !self.scan_complete()
            invariant
                self.valid(),
                first.extended_by(self),
                first.valid(),
                self.cursor == first.cursor,
                self.hits().len() == first_hits,
                first_hits == first.hits().len(),
                first_len == first.scanned().len(),
                target == next_target(first.cursor_at()),
                first == *old(self),
                !(first.cursor_at() matches Some(i) && i + 1 < first.hits().len()),
                self.scanned().len() > first_len ==> first_hits <= target,
                self.scanned().len() > first_len + 1 ==> scan_hits(
                    self.start(),
                    self.count(),
                    self.scanned().drop_last(),
                    encode_utf8(self.query_text()),
                ).len() <= target,
            decreases self.count() - self.scanned().len(),
        {
            let ghost pre = *self;
            match self.scan_one_page() {
                Ok(()) => {},
                Err(e) => {
                    assert(self.scanned() =~= pre.scanned());
                    return Err(e);
                },
            }
            proof {
                assert(self.scanned().drop_last() =~= pre.scanned());
                assert(self.scanned().subrange(0, first_len as int) =~= first.scanned()) by {
                    assert(pre.scanned().subrange(0, first_len as int) =~= first.scanned());
                }
            }
            if self.results.len() > target {
                self.cursor = Some(target);
                return Ok(Some(self.results[target]));
            }
        }
        match self.cursor {
            Some(_) => {
                self.cursor = Some(0);
                Ok(Some(self.results[0]))
            },
            None => Ok(None),
        }
    }

    /// Move to the previous hit; from the first hit (or with none yet),
    /// finish the scan and wrap to the last.
    pub fn prev(&mut self) -> (r: Result<Option<(usize, usize)>, Error>)
        requires
            old(self).valid(),
        ensures
            final(self).valid(),
            old(self).extended_by(&*final(self)),
            old(self).cursor_at() matches Some(i) ==> (i > 0 ==> final(self).scanned() == old(self).scanned()
                && r == Ok::<Option<(usize, usize)>, Error>(Some(old(self).hits()[i as int - 1]))),
            !old(self).searchable() ==> r == Ok::<Option<(usize, usize)>, Error>(None)
                && final(self).scanned() == old(self).scanned(),
            match r {
                Ok(hit) => {
                    &&& !(old(self).cursor_at() matches Some(i) && i > 0) ==> final(self).complete()
                    &&& final(self).cursor_at() == prev_cursor(
                        old(self).cursor_at(),
                        final(self).hits().len(),
                    )
                    &&& hit == hit_at(final(self).hits(), final(self).cursor_at())
                },
                Err(e) => final(self).cursor_at() == old(self).cursor_at() && !final(self).complete()
                    && final(self).read_at(final(self).scanned().len()) == Err::<Seq<char>, (int, Seq<char>)>(error_view(e)),
            },
    {
        proof {
            assert(self.texts@.subrange(0, self.texts@.len() as int) =~= self.texts@);
        }
        if self.query.as_str().is_empty() {
            return Ok(None);
        }
        if let Some(idx) = self.cursor {
            if idx > 0 {
                self.cursor = Some(idx - 1);
                return Ok(Some(self.results[idx - 1]));
            }
        }
        let ghost first = *self;
        let ghost first_len: nat = self.texts@.len();
        while !self.scan_complete()
            invariant
                self.valid(),
                first.extended_by(self),
                first.valid(),
                self.cursor == first.cursor,
                first_len == first.scanned().len(),
                first == *old(self),
                !(first.cursor_at() matches Some(i) && i > 0),
            decreases self.count() - self.scanned().len(),
        {
            let ghost pre = *self;
            match self.scan_one_page() {
                Ok(()) => {},
                Err(e) => {
                    assert(self.scanned() =~= pre.scanned());
                    return Err(e);
                },
            }
            proof {
                assert(self.scanned().subrange(0, first_len as int) =~= first.scanned()) by {
                    assert(pre.scanned().subrange(0, first_len as int) =~= first.scanned());
                }
            }
        }
        if self.results.len() == 0 {
            return Ok(None);
        }
        let last: usize = self.results.len() - 1;
        self.cursor = Some(last);
        Ok(Some(self.results[last]))
    }

    fn scan_complete(&self) -> (done: bool)
        ensures
            done == self.complete(),
    {
        match self.scan {
            ScanState::Complete => true,
            ScanState::Active { .. } => false,
        }
    }
}

/// One step of a full-document scan: read the next page, then describe the
/// hits found since `emitted` as sidebar rows. The rows carry the page of
/// the first new hit and an excerpt around each new match, cut from that
/// page's text as the document returns it on a second read, normalized
/// and lowercased as the search saw it. Returns whether the scan is
/// complete, and the rows.
pub fn run_scan_step<'a, D: Document>(session: &mut SearchSession<'a, D>, emitted: usize) -> (r:
    Result<(bool, Vec<SearchHit>), Error>)
    requires
        old(session).valid(),
        emitted <= old(session).hits().len(),
    ensures
        final(session).valid(),
        old(session).extended_by(&*final(session)),
        final(session).cursor_at() == old(session).cursor_at(),
        old(session).complete() ==> final(session).scanned() == old(session).scanned(),
        old(session).complete() && emitted == old(session).hits().len() ==> r is Ok,
        match r {
            Ok((complete, rows)) => {
                &&& complete == final(session).complete()
                &&& !old(session).complete() ==> final(session).scanned().len() == old(session).scanned().len() + 1
                &&& rows@.len() == final(session).hits().len() - emitted
                &&& forall|i: int|
                    0 <= i < rows@.len() ==> (#[trigger] rows@[i]).page == final(session).hits()[emitted as int].0
                &&& rows@.len() > 0 ==> exists|text: Seq<char>|
                    #![trigger normalized(text)]
                    forall|i: int|
                        0 <= i < rows@.len() ==> (#[trigger] rows@[i]).snippet@ == snippet(
                            lowercase(normalized(text)),
                            final(session).hits()[emitted + i].1 as nat,
                            encode_utf8(final(session).query_text()).len(),
                        )
            },
            Err(e) => (final(session).scanned() == old(session).scanned() || final(session).scanned().len()
                == old(session).scanned().len() + 1) && final(session).read_at(final(session).scanned().len()) == Err::<Seq<char>, (int, Seq<char>)>(error_view(e)),
        },
{
    let complete = match session.step() {
        Ok(c) => c,
        Err(e) => return Err(e),
    };
    let total: usize = session.results.len();
    let mut rows: Vec<SearchHit> = Vec::new();
    if total == emitted {
        return Ok((complete, rows));
    }
    let page: usize = session.results[emitted].0;
    let text = match session.document.page_text(page) {
        Ok(t) => t,
        Err(e) => {
            proof {
                // The hit's page was read successfully during the scan, and
                // reading a page gives the same result every time.
                law_session_hits_are_real(&*session);
                assert(hit_is_real(
                    session.start(),
                    session.count(),
                    session.scanned(),
                    encode_utf8(session.query_text()),
                    session.hits()[emitted as int],
                ));
                let j = choose|j: int|
                    #[trigger] real_hit(
                        session.start(),
                        session.count(),
                        session.scanned(),
                        encode_utf8(session.query_text()),
                        session.hits()[emitted as int],
                        j,
                    );
                assert(session.read_at(j as nat) == Ok::<Seq<char>, (int, Seq<char>)>(
                    session.scanned()[j],
                ));
                assert(false);
            }
            return Err(e);
        },
    };
    let normal = normalize_reader_text(text.as_str());
    let lowered = to_lowercase(normal.as_str());
    let needle_len: usize = session.query.as_str().as_bytes().len();
    let mut k: usize = emitted;
    while k < total
        invariant
            emitted <= k <= total,
            total == session.results@.len(),
            rows@.len() == k - emitted,
            lowered@ == lowercase(normalized(text@)),
            needle_len == encode_utf8(session.query@).len(),
            forall|i: int| 0 <= i < rows@.len() ==> (#[trigger] rows@[i]).page == page,
            forall|i: int|
                0 <= i < rows@.len() ==> (#[trigger] rows@[i]).snippet@ == snippet(
                    lowercase(normalized(text@)),
                    session.results@[emitted + i].1 as nat,
                    needle_len as nat,
                ),
        decreases total - k,
    {
        let offset: usize = session.results[k].1;
        rows.push(SearchHit { page, snippet: extract_snippet(lowered.as_str(), offset, needle_len) });
        k = k + 1;
    }
    Ok((complete, rows))
}

/// Some step of a scan over `count` pages from `start` reads page `p`.
pub open spec fn scan_reaches(start: nat, count: nat, p: nat) -> bool {
    exists|k: nat| k < count && #[trigger] scan_page(start, count, k) == p
}

/// A full scan reads every page exactly once: the scan order is a
/// permutation of the document's pages.
pub proof fn law_scan_reads_every_page_once(start: nat, count: nat)
    requires
        start < count,
    ensures
        forall|k: nat| k < count ==> #[trigger] scan_page(start, count, k) < count,
        forall|k1: nat, k2: nat|
            k1 < k2 < count ==> #[trigger] scan_page(start, count, k1) != #[trigger] scan_page(
                start,
                count,
                k2,
            ),
        forall|p: nat| p < count ==> #[trigger] scan_reaches(start, count, p),
{
    assert forall|p: nat| p < count implies #[trigger] scan_reaches(start, count, p) by {
        if p >= start {
            assert(scan_page(start, count, (p - start) as nat) == p);
        } else {
            assert(scan_page(start, count, (count - start + p) as nat) == p);
        }
    }
}

/// Every match the scan reports starts on a character boundary, holds the
/// needle there, and comes after the previous one without overlapping it.
pub proof fn law_matches_are_real(bytes: Seq<u8>, needle: Seq<u8>, from: int)
    ensures
        forall|i: int|
            0 <= i < match_offsets(bytes, needle, from).len() ==> {
                let o = #[trigger] match_offsets(bytes, needle, from)[i];
                &&& o >= from
                &&& is_char_boundary(bytes, o)
                &&& occurs_at(bytes, needle, o)
            },
        forall|i: int|
            0 <= i < match_offsets(bytes, needle, from).len() - 1 ==> #[trigger] match_offsets(
                bytes,
                needle,
                from,
            )[i] + (if needle.len() == 0 {
                1
            } else {
                needle.len() as int
            }) <= match_offsets(bytes, needle, from)[i + 1],
    decreases bytes.len() + 1 - from,
{
    if from < 0 || from + needle.len() > bytes.len() {
    } else {
        let step = if needle.len() == 0 {
            1
        } else {
            needle.len() as int
        };
        if is_char_boundary(bytes, from) && occurs_at(bytes, needle, from) {
            law_matches_are_real(bytes, needle, from + step);
            let rest = match_offsets(bytes, needle, from + step);
            let all = match_offsets(bytes, needle, from);
            assert(all == seq![from] + rest);
            assert(forall|i: int| 0 < i < all.len() ==> all[i] == rest[i - 1]);
            assert forall|i: int| 0 <= i < rest.len() + 1 implies {
                let o = #[trigger] (seq![from] + rest)[i];
                &&& o >= from
                &&& is_char_boundary(bytes, o)
                &&& occurs_at(bytes, needle, o)
            } by {
                if i > 0 {
                    assert((seq![from] + rest)[i] == rest[i - 1]);
                }
            }
            assert forall|i: int| 0 <= i < rest.len() implies #[trigger] (seq![from] + rest)[i]
                + step <= (seq![from] + rest)[i + 1] by {
                if i > 0 {
                    assert((seq![from] + rest)[i] == rest[i - 1]);
                }
                assert((seq![from] + rest)[i + 1] == rest[i]);
            }
        } else {
            law_matches_are_real(bytes, needle, from + 1);
            assert(match_offsets(bytes, needle, from) == match_offsets(bytes, needle, from + 1));
        }
    }
}

/// Match offsets strictly increase.
proof fn lemma_offsets_increase(bytes: Seq<u8>, needle: Seq<u8>, from: int)
    ensures
        forall|i1: int, i2: int|
            0 <= i1 < i2 < match_offsets(bytes, needle, from).len() ==> #[trigger] match_offsets(
                bytes,
                needle,
                from,
            )[i1] < #[trigger] match_offsets(bytes, needle, from)[i2],
    decreases bytes.len() + 1 - from,
{
    if from < 0 || from + needle.len() > bytes.len() {
    } else {
        let step = if needle.len() == 0 {
            1
        } else {
            needle.len() as int
        };
        if is_char_boundary(bytes, from) && occurs_at(bytes, needle, from) {
            lemma_offsets_increase(bytes, needle, from + step);
            law_matches_are_real(bytes, needle, from + step);
            let rest = match_offsets(bytes, needle, from + step);
            let all = match_offsets(bytes, needle, from);
            assert(all == seq![from] + rest);
            assert forall|i1: int, i2: int| 0 <= i1 < i2 < all.len() implies #[trigger] all[i1]
                < #[trigger] all[i2] by {
                assert(all[i2] == rest[i2 - 1]);
                if i1 > 0 {
                    assert(all[i1] == rest[i1 - 1]);
                } else {
                    assert(rest[i2 - 1] >= from + step);
                }
            }
        } else {
            lemma_offsets_increase(bytes, needle, from + 1);
            assert(match_offsets(bytes, needle, from) == match_offsets(bytes, needle, from + 1));
        }
    }
}

/// Hit `h` is a real match on the `j`-th page the scan read: that page is
/// in the document, and the needle starts at the hit's offset, on a
/// character boundary of the page's searched text.
pub open spec fn real_hit(
    start: nat,
    count: nat,
    texts: Seq<Seq<char>>,
    needle: Seq<u8>,
    h: (usize, usize),
    j: int,
) -> bool {
    &&& 0 <= j < texts.len()
    &&& h.0 == scan_page(start, count, j as nat)
    &&& h.0 < count
    &&& is_char_boundary(haystack(texts[j]), h.1 as int)
    &&& occurs_at(haystack(texts[j]), needle, h.1 as int)
}

/// Hit `h` is a real match on one of the pages read.
pub open spec fn hit_is_real(
    start: nat,
    count: nat,
    texts: Seq<Seq<char>>,
    needle: Seq<u8>,
    h: (usize, usize),
) -> bool {
    exists|j: int| #[trigger] real_hit(start, count, texts, needle, h, j)
}

/// Every hit in `hits` is a real match on one of the pages read.
pub open spec fn hits_real(
    start: nat,
    count: nat,
    texts: Seq<Seq<char>>,
    needle: Seq<u8>,
    hits: Seq<(usize, usize)>,
) -> bool {
    forall|k: int| 0 <= k < hits.len() ==> #[trigger] hit_is_real(start, count, texts, needle, hits[k])
}

proof fn lemma_scan_hits_real(start: nat, count: nat, texts: Seq<Seq<char>>, needle: Seq<u8>)
    requires
        start < count,
        count <= usize::MAX,
        texts.len() <= count,
        offsets_fit(texts, needle),
    ensures
        hits_real(start, count, texts, needle, scan_hits(start, count, texts, needle)),
        scan_hits(start, count, texts, needle).no_duplicates(),
    decreases texts.len(),
{
    if texts.len() > 0 {
        let n = texts.len() as int;
        let init = texts.drop_last();
        assert forall|j: int, i: int|
            0 <= j < init.len() && 0 <= i < match_offsets(haystack(init[j]), needle, 0).len()
                implies #[trigger] match_offsets(haystack(init[j]), needle, 0)[i] <= usize::MAX by {
            assert(init[j] == texts[j]);
            assert(match_offsets(haystack(texts[j]), needle, 0)[i] <= usize::MAX);
        }
        lemma_scan_hits_real(start, count, init, needle);
        law_scan_reads_every_page_once(start, count);
        let page = scan_page(start, count, (n - 1) as nat);
        assert(page < count);
        let bytes = haystack(texts.last());
        let mo = match_offsets(bytes, needle, 0);
        law_matches_are_real(bytes, needle, 0);
        lemma_offsets_increase(bytes, needle, 0);
        let before = scan_hits(start, count, init, needle);
        let tail = page_hits(page, texts.last(), needle);
        let all = scan_hits(start, count, texts, needle);
        assert(all == before + tail);
        assert forall|k: int| 0 <= k < all.len() implies #[trigger] hit_is_real(
            start,
            count,
            texts,
            needle,
            all[k],
        ) by {
            if k < before.len() {
                assert(hit_is_real(start, count, init, needle, before[k]));
                let j = choose|j: int| #[trigger] real_hit(start, count, init, needle, before[k], j);
                assert(init[j] == texts[j]);
                assert(real_hit(start, count, texts, needle, all[k], j));
            } else {
                let i = k - before.len();
                assert(mo[i] <= usize::MAX) by {
                    assert(match_offsets(haystack(texts[n - 1]), needle, 0)[i] <= usize::MAX);
                }
                assert(all[k] == (page as usize, mo[i] as usize));
                assert(real_hit(start, count, texts, needle, all[k], n - 1));
            }
        }
        assert forall|k1: int, k2: int| 0 <= k1 < k2 < all.len() implies all[k1] != all[k2] by {
            if k2 < before.len() {
                assert(before[k1] != before[k2]);
            } else if k1 >= before.len() {
                let i1 = k1 - before.len();
                let i2 = k2 - before.len();
                assert(mo[i1] < mo[i2]);
                assert(mo[i2] <= usize::MAX) by {
                    assert(match_offsets(haystack(texts[n - 1]), needle, 0)[i2] <= usize::MAX);
                }
                assert(all[k1].1 == mo[i1] as usize);
                assert(all[k2].1 == mo[i2] as usize);
            } else {
                assert(hit_is_real(start, count, init, needle, before[k1]));
                let j = choose|j: int| #[trigger] real_hit(start, count, init, needle, before[k1], j);
                assert(all[k1] == before[k1]);
                assert(all[k2] == tail[k2 - before.len()]);
                assert(all[k2].0 == page as usize);
                assert(scan_page(start, count, j as nat) != scan_page(start, count, (n - 1) as nat));
            }
        }
    } else {
        assert(scan_hits(start, count, texts, needle).len() == 0);
    }
}

/// Every hit a search session holds is a real match on a page of the
/// document: the page is in range, and the lowercased query starts at the
/// hit's offset, on a character boundary of that page's normalized,
/// lowercased text as the scan read it. No hit is recorded twice.
pub proof fn law_session_hits_are_real<'a, D: Document>(s: &SearchSession<'a, D>)
    requires
        s.valid(),
    ensures
        hits_real(s.start(), s.count(), s.scanned(), encode_utf8(s.query_text()), s.hits()),
        s.hits().no_duplicates(),
{
    if s.searchable() {
        lemma_scan_hits_real(s.start(), s.count(), s.scanned(), encode_utf8(s.query_text()));
    } else {
        assert(s.hits().len() == 0);
    }
}

/// The scan misses no match: every offset at or after `from` where the
/// needle occurs on a character boundary is reported, unless it overlaps a
/// reported match (lies within the needle's length after one; for an empty
/// needle, nothing overlaps).
pub proof fn law_matches_are_complete(bytes: Seq<u8>, needle: Seq<u8>, from: int, o: int)
    requires
        0 <= from <= o,
        is_char_boundary(bytes, o),
        occurs_at(bytes, needle, o),
    ensures
        exists|i: int|
            0 <= i < match_offsets(bytes, needle, from).len() && {
                let m = #[trigger] match_offsets(bytes, needle, from)[i];
                m == o || (m < o < m + needle.len())
            },
    decreases bytes.len() + 1 - from,
{
    let all = match_offsets(bytes, needle, from);
    let step = if needle.len() == 0 {
        1
    } else {
        needle.len() as int
    };
    assert(from + needle.len() <= bytes.len());
    if is_char_boundary(bytes, from) && occurs_at(bytes, needle, from) {
        let rest = match_offsets(bytes, needle, from + step);
        assert(all == seq![from] + rest);
        if o < from + step {
            assert(all[0] == from);
        } else {
            law_matches_are_complete(bytes, needle, from + step, o);
            let j = choose|j: int|
                0 <= j < rest.len() && {
                    let m = #[trigger] rest[j];
                    m == o || (m < o < m + needle.len())
                };
            assert(all[j + 1] == rest[j]);
        }
    } else {
        assert(o != from);
        law_matches_are_complete(bytes, needle, from + 1, o);
        assert(all == match_offsets(bytes, needle, from + 1));
    }
}

} // verus!
