//! Verified core of the `pdf-ocr` orchestrator: Markdown post-processing,
//! OCR request planning and response interpretation, the per-page pipeline
//! decisions, the page cache layout, and the error model.
pub mod text;
pub mod error;
pub mod markdown;
pub mod pdf;
pub mod server;
pub mod pipeline;
pub mod cache;
pub mod cli;
