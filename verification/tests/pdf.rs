use candi::pdf::{
    available, open, open_default, parse_backend, BackendKind, Document, Error, PageImage,
    StubBackend, StubPage,
};

fn error_kinds() -> Vec<Error> {
    vec![
        Error::NotFound("no such file".into()),
        Error::PermissionDenied("not readable".into()),
        Error::Encrypted("locked".into()),
        Error::WrongPassword("bad pass".into()),
        Error::NoTextLayer,
        Error::Malformed("not a pdf".into()),
        Error::Unsupported("no backend".into()),
        Error::Other("something else".into()),
    ]
}

#[test]
fn from_rgb_expands_to_opaque_rgba_in_one_pass() {
    let image = PageImage::from_rgb(2, 1, &[1, 2, 3, 4, 5, 6]).unwrap();
    assert_eq!(image.width, 2);
    assert_eq!(image.height, 1);
    assert_eq!(image.rgba, vec![1, 2, 3, 255, 4, 5, 6, 255]);
}

#[test]
fn from_rgb_rejects_buffer_that_does_not_match_dimensions() {
    let err = PageImage::from_rgb(2, 2, &[0; 11]).unwrap_err();
    assert!(matches!(err, Error::Other(_)));
}

#[test]
fn from_rgba_rejects_buffer_that_does_not_match_dimensions() {
    let err = PageImage::from_rgba(2, 2, vec![0; 15]).unwrap_err();
    assert!(matches!(err, Error::Other(_)));

    let ok = PageImage::from_rgba(2, 2, vec![7; 16]).unwrap();
    assert_eq!(ok.rgba.len(), 16);
}

#[test]
fn mismatch_messages_name_the_sizes() {
    let err = PageImage::from_rgba(2, 2, vec![0; 15]).unwrap_err();
    assert_eq!(err.to_string(), "image buffer holds 15 bytes, expected 16 for 2x2");
    let err = PageImage::from_rgb(2, 2, &[0; 11]).unwrap_err();
    assert_eq!(err.to_string(), "RGB buffer holds 11 bytes, expected 12 for 2x2");
}

#[test]
fn error_display_is_human_readable_for_every_kind() {
    let cases = [
        (Error::NotFound("missing.pdf".into()), "file not found: missing.pdf"),
        (Error::PermissionDenied("no read access".into()), "permission denied: no read access"),
        (Error::Encrypted("needs password".into()), "encrypted document: needs password"),
        (Error::WrongPassword("rejected".into()), "wrong password: rejected"),
        (Error::NoTextLayer, "no extractable text layer (image-only or scanned)"),
        (Error::Malformed("garbage bytes".into()), "malformed document: garbage bytes"),
        (Error::Unsupported("unknown backend".into()), "unsupported: unknown backend"),
        (Error::Other("mystery failure".into()), "mystery failure"),
    ];
    for (err, expected) in cases {
        assert_eq!(err.to_string(), expected);
    }
}

#[test]
fn available_lists_only_mupdf() {
    assert_eq!(available(), vec!["mupdf"]);
}

#[test]
fn parse_backend_rejects_unknown() {
    assert!(parse_backend("nope").is_err());
}

#[test]
fn parse_backend_knows_both_engines() {
    assert_eq!(parse_backend("mupdf"), Ok(BackendKind::Mupdf));
    assert_eq!(parse_backend("pdfium"), Ok(BackendKind::Pdfium));
    assert_eq!(
        parse_backend("MuPDF"),
        Err(Error::Unsupported("backend 'MuPDF'".into()))
    );
}

#[test]
fn name_is_stub() {
    assert_eq!(StubBackend::new(0).name(), "stub");
}

#[test]
fn open_returns_document_with_scripted_page_count() {
    let doc = StubBackend::new(3).open("x.pdf", None).unwrap();
    assert_eq!(doc.page_count(), 3);
}

#[test]
fn page_count_is_cached_and_infallible() {
    let doc = StubBackend::new(2).open("x.pdf", None).unwrap();
    assert_eq!(doc.page_count(), 2);
    assert_eq!(doc.page_count(), 2);
}

#[test]
fn default_pages_extract_empty_text() {
    let doc = StubBackend::new(2).open("x.pdf", None).unwrap();
    assert_eq!(doc.page_text(0).unwrap(), "");
    assert_eq!(doc.page_text(1).unwrap(), "");
}

#[test]
fn page_text_is_lazy_and_per_page() {
    let mut backend = StubBackend::new(2);
    backend.pages[0].text = Ok("alpha".into());
    backend.pages[1].text = Ok("beta".into());
    let doc = backend.open("x.pdf", None).unwrap();
    assert_eq!(doc.page_text(1).unwrap(), "beta");
    assert_eq!(doc.page_text(0).unwrap(), "alpha");
}

#[test]
fn page_out_of_range_is_an_error() {
    let doc = StubBackend::new(1).open("x.pdf", None).unwrap();
    let err = doc.page_text(1).unwrap_err();
    assert!(matches!(err, Error::Other(_)));
    assert_eq!(err.to_string(), "page 1 out of range (1 pages)");
}

#[test]
fn scripted_text_errors_flow_verbatim() {
    for kind in error_kinds() {
        let mut backend = StubBackend::new(1);
        backend.pages[0].text = Err(kind.clone());
        let doc = backend.open("x.pdf", None).unwrap();
        assert_eq!(doc.page_text(0).unwrap_err(), kind);
    }
}

#[test]
fn scripted_open_error_flows_verbatim() {
    for kind in error_kinds() {
        let backend = StubBackend { pages: vec![StubPage::blank()], open_error: Some(kind.clone()) };
        let got = match backend.open("x.pdf", None) {
            Err(e) => e,
            Ok(_) => panic!("expected open to fail"),
        };
        assert_eq!(got, kind);
    }
}

#[test]
fn page_size_is_letter_points_for_valid_pages_only() {
    let doc = StubBackend::new(2).open("x.pdf", None).unwrap();
    assert_eq!(doc.page_size(0).unwrap(), (612, 792));
    assert_eq!(doc.page_size(1).unwrap(), (612, 792));
    assert!(matches!(doc.page_size(2), Err(Error::Other(_))));
}

#[test]
fn render_matches_size_and_buffer_invariant() {
    let doc = StubBackend::new(1).open("x.pdf", None).unwrap();
    let one = doc.render_stripes(0, 612, 792).unwrap();
    assert_eq!((one.width, one.height), (612, 792));
    assert_eq!(one.rgba.len(), 612 * 792 * 4);
    assert_eq!(&one.rgba[..4], &[0, 0, 0, 255]);
    assert_eq!(&one.rgba[612 * 4..612 * 4 + 4], &[255, 255, 255, 255]);
}

#[test]
fn render_is_byte_identical_across_calls_and_distinct_per_page() {
    let doc = StubBackend::new(3).open("x.pdf", None).unwrap();
    assert_eq!(doc.render_stripes(1, 40, 60).unwrap(), doc.render_stripes(1, 40, 60).unwrap());
    assert_ne!(doc.render_stripes(0, 40, 60).unwrap().rgba, doc.render_stripes(1, 40, 60).unwrap().rgba);
    assert_ne!(doc.render_stripes(1, 40, 60).unwrap().rgba, doc.render_stripes(2, 40, 60).unwrap().rgba);
}

#[test]
fn render_out_of_range_page_is_an_error() {
    let doc = StubBackend::new(1).open("x.pdf", None).unwrap();
    assert!(matches!(doc.render_stripes(1, 10, 10), Err(Error::Other(_))));
}

#[test]
fn document_trait_object_contract() {
    let mut backend = StubBackend::new(3);
    backend.pages[0].text = Ok("cover page, legitimately empty".into());
    backend.pages[1].text = Ok("first real page".into());
    let doc: Box<dyn Document> = Box::new(backend.open("book.pdf", Some("pw")).unwrap());
    assert_eq!(doc.page_count(), 3);
    assert_eq!(doc.page_count(), 3);
    assert_eq!(doc.page_text(2).unwrap(), "");
    assert_eq!(doc.page_text(1).unwrap(), "first real page");
    assert_eq!(doc.page_text(0).unwrap(), "cover page, legitimately empty");
    assert!(matches!(doc.page_text(3), Err(Error::Other(_))));
}

#[test]
fn stub_scripting_is_fully_configurable_through_public_fields() {
    let mut backend = StubBackend::new(2);
    backend.pages[1] = StubPage { text: Ok("configured".into()) };
    let doc = backend.open("book.pdf", None).unwrap();
    assert_eq!(doc.page_text(1).unwrap(), "configured");
}

#[test]
fn open_default_routes_to_mupdf() {
    let doc = open_default("unused.pdf", None).unwrap();
    assert_eq!(doc.page_count(), 1);
    assert_eq!(doc.page_text(0).unwrap(), "");
}

#[test]
fn open_pdfium_is_unsupported_without_feature() {
    assert!(matches!(open(BackendKind::Pdfium, "unused.pdf", None), Err(Error::Unsupported(_))));
}
