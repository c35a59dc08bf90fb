//! The segmenter abstraction: raw input to segmentation. Today it is a
//! thin alias for `Analyzer`; a richer segmenter (cursor handling, manual
//! word breaks) could replace it without touching the engine.

use vstd::prelude::*;
use crate::engine::{Analysis, Analyzer};

verus! {

/// Splits raw input into a token sequence with a display form.
pub trait Segmenter: Send + Sync {
    fn segment(&self, input: &str) -> Analysis;
}

impl<T: Analyzer> Segmenter for T {
    fn segment(&self, input: &str) -> Analysis {
        self.analyze(input)
    }
}

} // verus!
