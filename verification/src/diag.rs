//! The diagnostic side channel: a sink that may observe intermediate images
//! and regions after each stage, and never influences the pipeline.

use vstd::prelude::*;

use crate::grid::PixelGrid;
use crate::rect::RegionRect;
use crate::CardInfosTextChunks;

verus! {

/// A sink for intermediate pipeline artifacts.  Every hook defaults to doing
/// nothing; implementors may record or render what they are handed, but
/// nothing the pipeline proves depends on what a hook does.
pub trait Diagnostic {
    /// Observes the scan together with the detected card regions.
    fn diag_card_finder(&self, src_img: &PixelGrid, rois: &Vec<RegionRect>) {
    }

    /// Observes the binarized and cleaned scan used for segmentation.
    fn diag_card_finder_thresh(&self, bin: &PixelGrid) {
    }

    /// Observes a card sub-image together with its two text regions.
    fn diag_find_text_chunks(&self, src_img: &PixelGrid, chunks: &CardInfosTextChunks) {
    }

    /// Observes the binarized name chunk handed to the OCR engine.
    fn diag_read_card_name(&self, input_img: &PixelGrid) {
    }

    /// Observes the binarized description chunk handed to the OCR engine.
    fn diag_read_card_description(&self, input_img: &PixelGrid) {
    }
}

/// The do-nothing sink.
pub struct NoDiag;

impl Diagnostic for NoDiag {

}

/// Bookkeeping for a sink that writes one file per artifact: the folder the
/// files go to, and a counter that keeps per-card text-chunk files apart.
pub struct CliDiag {
    pub output_path: String,
    pub text_chunk_count: u64,
}

impl CliDiag {
    /// A sink state writing under `output_path`, with no artifact recorded
    /// yet.
    pub fn new(output_path: String) -> (d: CliDiag)
        ensures
            d.output_path == output_path,
            d.text_chunk_count == 0,
    {
        CliDiag { output_path, text_chunk_count: 0 }
    }

    /// The file index for the next text-chunk artifact; each call hands out
    /// the next index.
    pub fn next_text_chunk_index(&mut self) -> (i: u64)
        requires
            old(self).text_chunk_count < u64::MAX,
        ensures
            final(self).text_chunk_count == old(self).text_chunk_count + 1,
            final(self).output_path == old(self).output_path,
            i == old(self).text_chunk_count,
    {
        let i = self.text_chunk_count;
        self.text_chunk_count = self.text_chunk_count + 1;
        i
    }
}

} // verus!
