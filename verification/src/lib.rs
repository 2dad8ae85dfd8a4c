//! Streaming merge of sequence-alignment record files: header reconciliation,
//! barcode-identifier disambiguation, and pass/other/fail record accounting.

use vstd::prelude::*;

pub mod diff;
pub mod engine;
pub mod header;
pub mod rewrite;

verus! {

/// Run configuration: ordered input paths, output path, and a concurrency hint.
pub struct Params {
    pub inputs: Vec<String>,
    pub output: String,
    pub threads: usize,
}

impl Params {
    /// A configuration is well formed when it names at least one input and a
    /// positive thread hint.
    pub open spec fn wf(&self) -> bool {
        &&& self.inputs@.len() >= 1
        &&& self.threads >= 1
    }

    /// Split the configured thread hint into extra reader and writer threads:
    /// above a small threshold each side gets half the hint minus one, below
    /// it no extra threads are requested.
    pub fn thread_split(&self) -> (r: (u16, u16))
        ensures
            self.threads <= 2 ==> r == (0u16, 0u16),
            self.threads > 2 ==> {
                let h = (self.threads / 2 - 1) as usize;
                &&& r.0 as usize == (if h > u16::MAX as usize { u16::MAX as usize } else { h })
                &&& r.1 == r.0
            },
    {
        if self.threads > 2 {
            let h = self.threads / 2 - 1;
            let t: u16 = if h > u16::MAX as usize {
                u16::MAX
            } else {
                h as u16
            };
            (t, t)
        } else {
            (0, 0)
        }
    }
}

} // verus!
