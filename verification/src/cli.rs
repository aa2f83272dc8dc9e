//! Opening a document at its saved reading position, and what to save when
//! reading ends.

use vstd::prelude::*;

use crate::navigation::{last_index, min_nat, ViewState};
use crate::pdf::{error_text, Document, Error as PdfError};
use crate::session::{clamp_view, fresh_view, SessionLoad, SessionState};
use crate::state::{
    is_position_doc, position_document, sidecar_outcome, Error as StateError, Load, Position, SidecarOutcome,
    TomlValue,
};

verus! {

/// Scroll cap before the UI knows the page's wrapped height.
pub const UNBOUND_SCROLL: usize = usize::MAX;

/// Why a document could not be opened: the backend refused it, or its
/// sidecar could not be read.
#[derive(Debug)]
pub enum OpenError {
    Pdf(PdfError),
    Core(StateError),
}

impl OpenError {
    /// Human-readable message: the underlying error's own text.
    pub fn to_string(&self) -> (text: String)
        ensures
            match self {
                OpenError::Pdf(e) => text@ == error_text(*e),
                OpenError::Core(StateError::UnsupportedSchema { found }) => text@
                    == "unsupported sidecar schema version "@ + crate::strings::signed_decimal(
                    *found as int,
                ),
                OpenError::Core(StateError::Io(_)) => true,
            },
    {
        match self {
            OpenError::Pdf(e) => e.to_string(),
            OpenError::Core(e) => e.to_string(),
        }
    }
}

/// Whether `v` is the view a document of `page_count` pages opens at: for
/// a loaded sidecar, the saved page clamped to the document and the saved
/// scroll; the first page with no scroll otherwise.
pub open spec fn resumes_at(page_count: usize, load: Load, v: ViewState) -> bool {
    match load {
        Load::Loaded(p) => v.page_spec() == min_nat(
            p.page_spec() as int,
            last_index(page_count as nat) as int,
        ) && v.scroll_spec() == p.scroll_spec(),
        _ => v.page_spec() == 0 && v.scroll_spec() == 0,
    }
}

/// The view a document of `page_count` pages opens at, given what its
/// sidecar held.
pub fn resume_view(page_count: usize, load: &Load) -> (v: ViewState)
    ensures
        resumes_at(page_count, *load, v),
{
    match load {
        Load::Loaded(position) => ViewState::new().goto_page(position.page(), page_count).scroll_down(
            position.scroll(),
            UNBOUND_SCROLL,
        ),
        _ => ViewState::new(),
    }
}

/// The view `pdf` opens at given what its sidecar held: see
/// [`resume_view`], with the page count the document reports.
pub fn view_from_load<D: Document>(pdf: &D, load: Load) -> (v: ViewState)
    ensures
        exists|page_count: usize| #[trigger] resumes_at(page_count, load, v),
        resumes_at(pdf.pages() as usize, load, v),
{
    let count: usize = pdf.page_count();
    let v = resume_view(count, &load);
    assert(resumes_at(count, load, v));
    v
}

/// The sidecar document that saving `view`'s reading position writes,
/// stamped with `updated_at`: its page and scroll, when both fit TOML's
/// signed 64-bit integers. Reading it back gives the view's page and scroll,
/// whenever the stamp is not empty.
pub fn save_reading_position(view: ViewState, updated_at: &str) -> (doc: Option<TomlValue>)
    ensures
        (view.page_spec() <= i64::MAX && view.scroll_spec() <= i64::MAX) <==> doc is Some,
        doc matches Some(d) ==> is_position_doc(
            d,
            view.page_spec() as int,
            view.scroll_spec() as int,
            updated_at@,
        ),
        doc matches Some(d) ==> (updated_at@.len() > 0 ==> sidecar_outcome(Ok(d))
            == SidecarOutcome::Loaded(view.page_spec() as usize, view.scroll_spec() as usize, updated_at@)),
{
    let position = Position::new(view.page(), view.scroll_offset(), updated_at);
    position_document(&position)
}

/// The session a document of `page_count` pages opens with, given what
/// its sidecar held: a loaded session fitted to the document; a fresh one
/// when the sidecar is missing or corrupt (the corruption's message comes
/// along as a warning, so the unreadable file can be kept safe); a hard
/// failure such as an unsupported schema stays an error.
pub fn open_session_state(page_count: usize, load: Result<SessionLoad, StateError>) -> (r: Result<
    (SessionState, Option<String>),
    StateError,
>)
    ensures
        match load {
            Ok(SessionLoad::Loaded(s)) => r matches Ok((t, w)) && t.view_of() == clamp_view(
                s.view_of(),
                page_count as nat,
            ) && w is None,
            Ok(SessionLoad::Corrupt(m)) => r matches Ok((t, Some(w))) && t.view_of()
                == fresh_view() && w@ == m@,
            Ok(SessionLoad::Missing) => r matches Ok((t, w)) && t.view_of() == fresh_view()
                && w is None,
            Err(e) => r == Err::<(SessionState, Option<String>), StateError>(e),
        },
{
    match load {
        Ok(SessionLoad::Loaded(session)) => Ok((session.clamp_to(page_count), None)),
        Ok(SessionLoad::Corrupt(message)) => Ok((SessionState::new(page_count), Some(message))),
        Ok(SessionLoad::Missing) => Ok((SessionState::new(page_count), None)),
        Err(err) => Err(err),
    }
}

} // verus!
