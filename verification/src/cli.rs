//! The options of a conversion run.
use vstd::prelude::*;

verus! {

/// The options of a conversion run: the input PDF, the output Markdown
/// file, the OCR server and model, the number of parallel requests, and
/// whether the cache is bypassed.
pub struct Cli {
    pub input: String,
    pub output: String,
    pub server: String,
    pub model: String,
    pub concurrent: usize,
    pub no_cache: bool,
}

impl Cli {
    /// The number of OCR requests run at once: as asked, but at least one.
    pub fn concurrency(&self) -> (n: usize)
        ensures
            n >= 1,
            self.concurrent >= 1 ==> n == self.concurrent,
            self.concurrent == 0 ==> n == 1,
    {
        if self.concurrent >= 1 {
            self.concurrent
        } else {
            1
        }
    }

    /// Whether the cache is used for this run.
    pub fn cache_enabled(&self) -> (b: bool)
        ensures
            b == !self.no_cache,
    {
        !self.no_cache
    }
}

} // verus!
