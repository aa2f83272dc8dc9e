use candi::backend::{
    check_path_type, decode_utf16, decode_utf16_bytes, file_failure, format_failure,
    has_zero_page_catalog, map_io_error, map_mupdf_code, mupdf_open_step, page_index,
    password_verdict, pdfium_load_failure, pdfium_page_index, reject_if_no_text_layer, IoKind,
    LoadFailure, MupdfBackend, OpenStep, PathKind, FPDF_ERR_FILE, FPDF_ERR_FORMAT,
    FPDF_ERR_PASSWORD, FZ_ERROR_FORMAT, FZ_ERROR_SYNTAX, FZ_ERROR_UNSUPPORTED,
    ZERO_PAGE_MALFORMED,
};
use candi::cli::{resume_view, view_from_load, OpenError};
use candi::pdf::{Error as PdfError, StubBackend};
use candi::state::{Error as StateError, Load, Position};
use candi::ViewState;

#[test]
fn saved_position_resumes_clamped_to_the_document() {
    let load = Load::Loaded(Position::new(7, 3, "2026-08-20T12:00:00Z"));
    let view = resume_view(10, &load);
    assert_eq!((view.page(), view.scroll_offset()), (7, 3));
    let view = resume_view(4, &load);
    assert_eq!((view.page(), view.scroll_offset()), (3, 3));
}

#[test]
fn missing_or_corrupt_sidecars_start_fresh() {
    assert_eq!(resume_view(10, &Load::Missing), ViewState::new());
    assert_eq!(resume_view(10, &Load::Corrupt("bad".into())), ViewState::new());
}

#[test]
fn view_from_load_uses_the_document_page_count() {
    let doc = StubBackend::new(3).open("x.pdf", None).unwrap();
    let view = view_from_load(&doc, Load::Loaded(Position::new(9, 0, "t")));
    assert_eq!(view.page(), 2);
}

#[test]
fn open_errors_render_their_cause() {
    assert_eq!(
        OpenError::Pdf(PdfError::NotFound("book.pdf".into())).to_string(),
        "file not found: book.pdf"
    );
    assert_eq!(
        OpenError::Core(StateError::UnsupportedSchema { found: 2 }).to_string(),
        "unsupported sidecar schema version 2"
    );
}

#[test]
fn text_layer_probe_accepts_text_and_rejects_blank_samples() {
    let mut backend = StubBackend::new(5);
    backend.pages[1].text = Ok("  words  ".into());
    let doc = backend.open("x.pdf", None).unwrap();
    assert_eq!(reject_if_no_text_layer(&doc), Ok(()));

    let mut backend = StubBackend::new(5);
    backend.pages[3].text = Ok("too late to count".into());
    let doc = backend.open("x.pdf", None).unwrap();
    assert_eq!(reject_if_no_text_layer(&doc), Err(PdfError::NoTextLayer));

    let doc = StubBackend::new(0).open("x.pdf", None).unwrap();
    assert_eq!(
        reject_if_no_text_layer(&doc),
        Err(PdfError::Malformed(ZERO_PAGE_MALFORMED.into()))
    );

    let mut backend = StubBackend::new(2);
    backend.pages[0].text = Err(PdfError::Other("boom".into()));
    let doc = backend.open("x.pdf", None).unwrap();
    assert_eq!(reject_if_no_text_layer(&doc), Err(PdfError::Other("boom".into())));
}

#[test]
fn page_indices_check_the_document_bounds() {
    assert_eq!(page_index(2, 3), Ok(2));
    assert_eq!(page_index(3, 3), Err(PdfError::Other("page 3 out of range (3 pages)".into())));
}

#[test]
fn engine_codes_map_to_error_kinds() {
    assert_eq!(map_mupdf_code(FZ_ERROR_FORMAT, "f".into()), PdfError::Malformed("f".into()));
    assert_eq!(map_mupdf_code(FZ_ERROR_SYNTAX, "s".into()), PdfError::Malformed("s".into()));
    assert_eq!(map_mupdf_code(FZ_ERROR_UNSUPPORTED, "u".into()), PdfError::Unsupported("u".into()));
    assert_eq!(map_mupdf_code(1, "o".into()), PdfError::Other("o".into()));
}

#[test]
fn io_failures_map_to_error_kinds() {
    assert_eq!(map_io_error(IoKind::NotFound, "m".into()), PdfError::NotFound("m".into()));
    assert_eq!(
        map_io_error(IoKind::PermissionDenied, "m".into()),
        PdfError::PermissionDenied("m".into())
    );
    assert_eq!(map_io_error(IoKind::Other, "m".into()), PdfError::Other("m".into()));
}

#[test]
fn preflight_rejects_directories_and_special_files() {
    assert_eq!(
        check_path_type("/tmp", PathKind::Directory),
        Err(PdfError::NotFound("/tmp is a directory".into()))
    );
    assert_eq!(
        check_path_type("/tmp/fifo", PathKind::Special),
        Err(PdfError::Other("/tmp/fifo is not a regular file".into()))
    );
    assert_eq!(check_path_type("/tmp/a.pdf", PathKind::File), Ok(()));
}

#[test]
fn the_engine_names_itself() {
    assert_eq!(MupdfBackend.name(), "mupdf");
}

#[test]
fn mupdf_open_sequence_checks_pages_then_password() {
    assert!(matches!(
        mupdf_open_step(0, true, true),
        OpenStep::Refuse(PdfError::Malformed(m)) if m == ZERO_PAGE_MALFORMED
    ));
    assert!(matches!(
        mupdf_open_step(3, true, false),
        OpenStep::Refuse(PdfError::Encrypted(m)) if m == "document requires a password"
    ));
    assert!(matches!(mupdf_open_step(3, true, true), OpenStep::Authenticate));
    assert!(matches!(mupdf_open_step(3, false, true), OpenStep::Accept));
    assert_eq!(password_verdict(true), Ok(()));
    assert_eq!(password_verdict(false), Err(PdfError::WrongPassword("password rejected".into())));
}

#[test]
fn pdfium_load_codes_map_to_error_kinds() {
    assert!(matches!(pdfium_load_failure(FPDF_ERR_FORMAT, false), LoadFailure::CheckCatalog));
    assert!(matches!(pdfium_load_failure(FPDF_ERR_FILE, false), LoadFailure::CheckFile));
    assert!(matches!(
        pdfium_load_failure(FPDF_ERR_PASSWORD, true),
        LoadFailure::Known(PdfError::WrongPassword(_))
    ));
    assert!(matches!(
        pdfium_load_failure(FPDF_ERR_PASSWORD, false),
        LoadFailure::Known(PdfError::Encrypted(_))
    ));
    match pdfium_load_failure(9, false) {
        LoadFailure::Known(PdfError::Other(m)) => {
            assert_eq!(m, "FPDF_LoadDocument failed (FPDF_ERR code 9)")
        }
        other => panic!("unexpected {other:?}"),
    }
    assert_eq!(format_failure(true), PdfError::Malformed(ZERO_PAGE_MALFORMED.into()));
    assert_eq!(format_failure(false), PdfError::Malformed("invalid PDF document".into()));
    assert_eq!(
        file_failure("/x.pdf", None),
        PdfError::Other("could not read PDF file at /x.pdf".into())
    );
    assert_eq!(
        file_failure("/x.pdf", Some((IoKind::NotFound, "gone".into()))),
        PdfError::NotFound("gone".into())
    );
}

#[test]
fn zero_page_catalogs_are_found_in_raw_bytes() {
    assert!(has_zero_page_catalog(b"%PDF-1.4\n<< /Type /Pages /Kids [] /Count 0 >>"));
    assert!(has_zero_page_catalog(b"\xff\xfe<</Kids[] /Count 0>>"));
    assert!(!has_zero_page_catalog(b"<< /Kids [3 0 R] /Count 1 >>"));
    assert!(!has_zero_page_catalog(b""));
}

#[test]
fn pdfium_page_indices_fit_sixteen_bits() {
    assert_eq!(pdfium_page_index(4, 5), Ok(4));
    assert_eq!(
        pdfium_page_index(5, 5),
        Err(PdfError::Other("page 5 out of range (5 pages)".into()))
    );
    assert_eq!(
        pdfium_page_index(70_000, 80_000),
        Err(PdfError::Other("page index 70000 out of range".into()))
    );
}

#[test]
fn utf16_buffers_decode_lossily_without_the_terminator() {
    let units: Vec<u16> = "héllo 𝄞".encode_utf16().chain([0, 0]).collect();
    assert_eq!(decode_utf16(&units), "héllo 𝄞");
    assert_eq!(decode_utf16(&[0x61, 0xD800, 0x62]), "a\u{FFFD}b");
    assert_eq!(decode_utf16(&[0xDC00, 0x0]), "\u{FFFD}");
    assert_eq!(decode_utf16(&[0x0, 0x61]), "\0a");
    assert_eq!(decode_utf16_bytes(&[0x68, 0x00, 0x69, 0x00, 0x00, 0x00, 0x7f]), "hi");
}
