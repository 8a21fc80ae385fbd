use pdf_ocr::cache::{join_path, Cache, CacheRead};
use pdf_ocr::cli::Cli;
use pdf_ocr::error::AppError;
use pdf_ocr::pdf::{
    decode_rendered_page, page_png, pdf_object_to_string, pdftoppm_args, render_verdict,
    rendered_png_index, EncodedPage, PageImage, PdfInfo, PdfObject, RenderRun,
};
use pdf_ocr::pipeline::{
    advance_page, hash_page, partial_file_name, partial_output_path, start_page, PageCollector,
    PageEvent, PageOutcome, PageState,
};
use pdf_ocr::text::trim_whitespace;

#[test]
fn appends_partial_suffix_before_extension() {
    let partial = partial_output_path("notes/output.md");
    assert_eq!(partial, "notes/output~partial.md");
}

#[test]
fn partial_file_names() {
    assert_eq!(partial_file_name("report"), "report~partial.md");
    assert_eq!(partial_file_name("a.b.md"), "a.b~partial.md");
    assert_eq!(partial_file_name(".md"), "~partial.md");
    assert_eq!(partial_output_path("out"), "out~partial.md");
    assert_eq!(partial_output_path("/"), "/output~partial.md");
}

#[test]
fn hash_is_lower_hex_sha256() {
    assert_eq!(
        hash_page(b"abc"),
        "ba7816bf8f01cfea414140de5dae2223b00361a396177a9cb410ff61f20015ad"
    );
    assert_eq!(hash_page(b"").len(), 64);
}

#[test]
fn page_task_follows_cache_and_shutdown() {
    let s = start_page(3);
    let s = advance_page(s, PageEvent::ShutdownChecked { shutdown: false });
    assert!(matches!(s, PageState::Rendering { page: 3 }));
    let s = advance_page(s, PageEvent::Encoded { hash: "h".to_string() });
    let hit = advance_page(
        match &s {
            PageState::LookingUp { page, hash } => PageState::LookingUp { page: *page, hash: hash.clone() },
            _ => panic!("expected a lookup"),
        },
        PageEvent::CacheAnswered { cached: Some("cached".to_string()) },
    );
    match hit {
        PageState::Done(PageOutcome::Completed { page_number, markdown }) => {
            assert_eq!(page_number, 3);
            assert_eq!(markdown, "cached");
        }
        _ => panic!("expected completion from the cache"),
    }
    let s = advance_page(s, PageEvent::CacheAnswered { cached: None });
    let skipped = advance_page(
        match &s {
            PageState::Waiting { page, hash } => PageState::Waiting { page: *page, hash: hash.clone() },
            _ => panic!("expected waiting"),
        },
        PageEvent::ShutdownChecked { shutdown: true },
    );
    assert!(matches!(skipped, PageState::Done(PageOutcome::Skipped { page_number: 3 })));
    let s = advance_page(s, PageEvent::ShutdownChecked { shutdown: false });
    let s = advance_page(s, PageEvent::OcrAnswered { markdown: "```\n# Page\n```".to_string() });
    match &s {
        PageState::Saving { page, hash, markdown } => {
            assert_eq!(*page, 3);
            assert_eq!(hash, "h");
            assert_eq!(markdown, "# Page");
        }
        _ => panic!("expected saving"),
    }
    match advance_page(s, PageEvent::Saved) {
        PageState::Done(PageOutcome::Completed { page_number, markdown }) => {
            assert_eq!(page_number, 3);
            assert_eq!(markdown, "# Page");
        }
        _ => panic!("expected completion"),
    }
    let first = advance_page(start_page(9), PageEvent::ShutdownChecked { shutdown: true });
    assert!(matches!(first, PageState::Done(PageOutcome::Skipped { page_number: 9 })));
}

fn completed(page: u32, text: &str) -> PageOutcome {
    PageOutcome::Completed { page_number: page, markdown: text.to_string() }
}

#[test]
fn collector_orders_pages_whatever_the_arrival_order() {
    let mut a = PageCollector::new();
    a.record(completed(3, "three"));
    a.record(completed(1, "one"));
    a.record(PageOutcome::Skipped { page_number: 2 });
    a.record(completed(2, "two"));
    let mut b = PageCollector::new();
    b.record(completed(2, "two"));
    b.record(completed(3, "old"));
    b.record(completed(1, "one"));
    b.record(completed(3, "three"));
    let expected = vec![
        (1, "one".to_string()),
        (2, "two".to_string()),
        (3, "three".to_string()),
    ];
    assert_eq!(a.ordered_pages(), expected);
    assert_eq!(b.ordered_pages(), expected);
    assert_eq!(a.len(), 3);
}

#[test]
fn run_is_partial_only_after_shutdown_with_missing_pages() {
    let mut c = PageCollector::new();
    c.record(completed(1, "one"));
    let (pages, summary) = c.finish(true, 2, "out/doc.md");
    assert_eq!(pages.len(), 1);
    assert!(summary.partial);
    assert_eq!(summary.output_path, "out/doc~partial.md");
    assert_eq!(summary.pages_written, 1);
    let (_, complete) = c.finish(true, 1, "out/doc.md");
    assert!(!complete.partial);
    assert_eq!(complete.output_path, "out/doc.md");
    let (_, no_shutdown) = c.finish(false, 5, "out/doc.md");
    assert!(!no_shutdown.partial);
}

#[test]
fn cache_layout_and_reads() {
    let cache = Cache::new(true, Some("/home/u/.cache/pdf-ocr"), "/tmp").ok().unwrap();
    assert!(cache.enabled());
    assert_eq!(cache.root(), "/home/u/.cache/pdf-ocr/pages");
    assert_eq!(cache.path_for("abc"), "/home/u/.cache/pdf-ocr/pages/abc.md");
    assert_eq!(cache.load_path("abc"), Some("/home/u/.cache/pdf-ocr/pages/abc.md".to_string()));
    let disabled = Cache::new(false, None, "/tmp/").ok().unwrap();
    assert!(!disabled.enabled());
    assert_eq!(disabled.root(), "/tmp/pdf-ocr-disabled-cache");
    assert_eq!(disabled.load_path("abc"), None);
    assert_eq!(disabled.save_path("abc"), None);
    assert!(matches!(Cache::new(true, None, "/tmp"), Err(AppError::CacheDirUnavailable)));
    assert_eq!(Cache::read_result(CacheRead::Found("md".to_string())).ok(), Some(Some("md".to_string())));
    assert_eq!(Cache::read_result(CacheRead::NotFound).ok(), Some(None));
    assert!(matches!(Cache::read_result(CacheRead::Failed("x".to_string())), Err(AppError::Io(_))));
    assert_eq!(join_path("", "a"), "a");
    assert_eq!(join_path("dir", "/abs"), "/abs");
}

#[test]
fn cli_defaults() {
    let cli = Cli {
        input: "in.pdf".to_string(),
        output: "out.md".to_string(),
        server: "http://localhost:8000/v1".to_string(),
        model: "deepseek-ocr".to_string(),
        concurrent: 0,
        no_cache: true,
    };
    assert_eq!(cli.concurrency(), 1);
    assert!(!cli.cache_enabled());
}

#[test]
fn pdf_metadata_and_pages() {
    let info = PdfInfo::from_parts(
        &Some(PdfObject::String(b"  My Title \n".to_vec())),
        &Some(PdfObject::Name(b"Someone".to_vec())),
        &Some(PdfObject::Other),
        &None,
        &[1, 2, 3],
    );
    assert_eq!(info.title.as_deref(), Some("My Title"));
    assert_eq!(info.author.as_deref(), Some("Someone"));
    assert_eq!(info.creator, None);
    assert_eq!(info.producer, None);
    assert_eq!(info.page_count, 3);
    assert_eq!(info.pages[2].number, 3);
    assert!(info.require_pages().is_ok());
    let empty = PdfInfo::from_parts(&None, &None, &None, &None, &[]);
    match empty.require_pages() {
        Err(AppError::PdfProcessingError(m)) => assert_eq!(m, "PDF enthaelt keine verarbeitbaren Seiten"),
        _ => panic!("expected a processing error"),
    }
    assert_eq!(pdf_object_to_string(&PdfObject::String(vec![0xff, b'a'])).as_deref(), Some("\u{fffd}a"));
    assert_eq!(trim_whitespace("\u{3000} x \u{a0}"), "x");
}

#[test]
fn page_images_decode_and_encode_as_png() {
    let rgba = vec![255, 0, 0, 255, 0, 0, 255, 128];
    let image = PageImage {
        width: 2,
        height: 1,
        channels: 4,
        bytes_per_pixel: 4,
        samples: rgba.clone(),
        rgba: rgba.clone(),
    };
    let png = page_png(&image).ok().unwrap();
    assert_eq!(&png[..8], &[0x89, b'P', b'N', b'G', 0x0d, 0x0a, 0x1a, 0x0a]);
    let decoded = decode_rendered_page(&png).ok().unwrap();
    assert_eq!((decoded.width, decoded.height), (2, 1));
    assert_eq!((decoded.channels, decoded.bytes_per_pixel), (4, 4));
    assert_eq!(decoded.rgba, rgba);
    assert_eq!(decoded.samples, rgba);
    assert!(matches!(decode_rendered_page(b"not a png"), Err(AppError::Image(_))));
}

#[test]
fn page_png_keeps_the_pixel_layout() {
    let rgb = PageImage {
        width: 1,
        height: 2,
        channels: 3,
        bytes_per_pixel: 3,
        samples: vec![10, 20, 30, 40, 50, 60],
        rgba: vec![10, 20, 30, 255, 40, 50, 60, 255],
    };
    let png = page_png(&rgb).ok().unwrap();
    let decoded = decode_rendered_page(&png).ok().unwrap();
    assert_eq!((decoded.channels, decoded.bytes_per_pixel), (3, 3));
    assert_eq!(decoded.samples, rgb.samples);
    assert_eq!(decoded.rgba, rgb.rgba);
    let grey16 = PageImage {
        width: 1,
        height: 1,
        channels: 1,
        bytes_per_pixel: 2,
        samples: 0x1234u16.to_ne_bytes().to_vec(),
        rgba: vec![0x12, 0x12, 0x12, 255],
    };
    let decoded16 = decode_rendered_page(&page_png(&grey16).ok().unwrap()).ok().unwrap();
    assert_eq!((decoded16.channels, decoded16.bytes_per_pixel), (1, 2));
    assert_eq!(decoded16.samples, grey16.samples);
    let odd = PageImage { width: 1, height: 1, channels: 3, bytes_per_pixel: 12, samples: vec![0; 12], rgba: vec![0; 4] };
    assert!(matches!(page_png(&odd), Err(AppError::Image(_))));
}

#[test]
fn encoded_page_uses_standard_base64() {
    let page = EncodedPage::from_encodings(2, 1, b"hello".to_vec(), b"hi");
    assert_eq!(page.base64_webp, "aGVsbG8=");
    assert_eq!(page.base64_png, "aGk=");
    assert_eq!(page.webp_bytes, b"hello".to_vec());
    assert_eq!((page.width, page.height), (2, 1));
    let three = EncodedPage::from_encodings(0, 0, vec![0xfb, 0xff, 0x00], b"");
    assert_eq!(three.base64_webp, "+/8A");
    assert_eq!(three.base64_png, "");
}

#[test]
fn pdftoppm_invocation_and_outcome() {
    assert_eq!(
        pdftoppm_args(4, 150, "in.pdf", "/tmp/x/page"),
        vec!["-f", "4", "-l", "4", "-r", "150", "-png", "in.pdf", "/tmp/x/page"]
    );
    assert!(render_verdict(4, &RenderRun::Exited { success: true, status: "exit status: 0".to_string() }).is_ok());
    match render_verdict(4, &RenderRun::Exited { success: false, status: "exit status: 1".to_string() }) {
        Err(AppError::PdfProcessingError(m)) => {
            assert_eq!(m, "pdftoppm ist fuer Seite 4 mit Status exit status: 1 fehlgeschlagen")
        }
        _ => panic!("expected a processing error"),
    }
    match render_verdict(4, &RenderRun::NotStarted("not found".to_string())) {
        Err(AppError::PdfProcessingError(m)) => {
            assert_eq!(m, "pdftoppm konnte nicht gestartet werden: not found")
        }
        _ => panic!("expected a processing error"),
    }
    let names = vec!["other.png".to_string(), "page-1.txt".to_string(), "page-01.png".to_string()];
    assert_eq!(rendered_png_index("page", &names).ok(), Some(2));
    match rendered_png_index("page", &["page.png".to_string()]) {
        Err(AppError::PdfProcessingError(m)) => assert_eq!(m, "Gerenderte PNG-Datei wurde nicht gefunden"),
        _ => panic!("expected a processing error"),
    }
}

#[test]
fn page_task_without_shutdown_completes_its_page() {
    let mut s = start_page(4);
    s = advance_page(s, PageEvent::ShutdownChecked { shutdown: false });
    s = advance_page(s, PageEvent::Encoded { hash: "h4".to_string() });
    s = advance_page(s, PageEvent::CacheAnswered { cached: None });
    s = advance_page(s, PageEvent::ShutdownChecked { shutdown: false });
    s = advance_page(s, PageEvent::OcrAnswered { markdown: "text".to_string() });
    s = advance_page(s, PageEvent::Saved);
    assert!(matches!(s, PageState::Done(PageOutcome::Completed { page_number: 4, .. })));
}

#[test]
fn all_completed_outcomes_write_every_page() {
    let c = PageCollector::from_outcomes(vec![completed(2, "two"), completed(1, "one"), completed(3, "three")]);
    assert_eq!(c.len(), 3);
    let (pages, summary) = c.finish(false, 3, "out/doc.md");
    assert_eq!(pages.iter().map(|p| p.0).collect::<Vec<_>>(), vec![1, 2, 3]);
    assert_eq!(summary.pages_written, 3);
    assert!(!summary.partial);
    assert_eq!(summary.output_path, "out/doc.md");
    let later = PageCollector::from_outcomes(vec![
        completed(1, "old"),
        PageOutcome::Skipped { page_number: 2 },
        completed(1, "new"),
    ]);
    assert_eq!(later.ordered_pages(), vec![(1, "new".to_string())]);
}

#[test]
fn a_page_error_keeps_the_completed_pages_as_partial_output() {
    let mut c = PageCollector::new();
    c.record(completed(2, "two"));
    let (pages, summary) = c.finish_after_error(3, "out/doc.md");
    assert_eq!(pages, vec![(2, "two".to_string())]);
    assert!(summary.partial);
    assert_eq!(summary.output_path, "out/doc~partial.md");
    assert_eq!(summary.pages_written, 1);
}

#[test]
fn cache_saves_and_loads_the_same_file() {
    let cache = Cache::new(true, Some("/c"), "/tmp").ok().unwrap();
    assert_eq!(cache.save_path("ab12"), cache.load_path("ab12"));
    assert_ne!(cache.save_path("ab12"), cache.save_path("cd34"));
    assert_eq!(
        Cache::read_result(CacheRead::Found("# saved".to_string())).ok().unwrap(),
        Some("# saved".to_string())
    );
}
