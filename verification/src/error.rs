//! The errors of the pipeline and their messages.
use vstd::prelude::*;
use crate::text::{chars_of, decimal, push_decimal, push_str, string_from_chars};

verus! {

/// Why a run failed. Errors of outside libraries and of the system are
/// carried as their messages.
pub enum AppError {
    /// The OCR server answered none of the health probes.
    ServerUnreachable(String),
    /// The PDF could not be read or rendered.
    PdfProcessingError(String),
    /// The OCR request failed or its answer held no text.
    InferenceError(String),
    /// The OCR request for this page timed out.
    Timeout(u32),
    /// A file-system operation failed.
    Io(String),
    /// An HTTP client could not be set up.
    Http(String),
    /// An answer was not valid JSON.
    Json(String),
    /// A page image could not be decoded or encoded.
    Image(String),
    /// The platform has no cache directory.
    CacheDirUnavailable,
}

impl AppError {
    /// The message shown to the user for this error.
    pub open spec fn spec_message(&self) -> Seq<char> {
        match self {
            AppError::ServerUnreachable(url) => "Server nicht erreichbar unter "@ + url@
                + ". Laeuft deepseek-ocr.rs im Server-Modus?"@,
            AppError::PdfProcessingError(m) => "PDF Fehler: "@ + m@,
            AppError::InferenceError(m) => "Inferenz fehlgeschlagen: "@ + m@,
            AppError::Timeout(page) => "Timeout bei Seite "@ + decimal(*page as nat),
            AppError::Io(m) => "I/O Fehler: "@ + m@,
            AppError::Http(m) => "HTTP Fehler: "@ + m@,
            AppError::Json(m) => "JSON Fehler: "@ + m@,
            AppError::Image(m) => "Bildverarbeitung fehlgeschlagen: "@ + m@,
            AppError::CacheDirUnavailable => "Kein Cache-Verzeichnis verfuegbar"@,
        }
    }

    /// The message shown to the user for this error.
    pub fn message(&self) -> (r: String)
        ensures
            r@ == self.spec_message(),
    {
        let mut out: Vec<char> = Vec::new();
        match self {
            AppError::ServerUnreachable(url) => {
                push_str(&mut out, "Server nicht erreichbar unter ");
                push_str(&mut out, url.as_str());
                push_str(&mut out, ". Laeuft deepseek-ocr.rs im Server-Modus?");
            },
            AppError::PdfProcessingError(m) => {
                push_str(&mut out, "PDF Fehler: ");
                push_str(&mut out, m.as_str());
            },
            AppError::InferenceError(m) => {
                push_str(&mut out, "Inferenz fehlgeschlagen: ");
                push_str(&mut out, m.as_str());
            },
            AppError::Timeout(page) => {
                push_str(&mut out, "Timeout bei Seite ");
                push_decimal(&mut out, *page as u64);
            },
            AppError::Io(m) => {
                push_str(&mut out, "I/O Fehler: ");
                push_str(&mut out, m.as_str());
            },
            AppError::Http(m) => {
                push_str(&mut out, "HTTP Fehler: ");
                push_str(&mut out, m.as_str());
            },
            AppError::Json(m) => {
                push_str(&mut out, "JSON Fehler: ");
                push_str(&mut out, m.as_str());
            },
            AppError::Image(m) => {
                push_str(&mut out, "Bildverarbeitung fehlgeschlagen: ");
                push_str(&mut out, m.as_str());
            },
            AppError::CacheDirUnavailable => {
                out = chars_of("Kein Cache-Verzeichnis verfuegbar");
            },
        }
        proof {
            assert(out@ =~= self.spec_message());
        }
        string_from_chars(out.as_slice())
    }
}

} // verus!
