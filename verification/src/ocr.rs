//! Preparation of menu images for text recognition.

use vstd::prelude::*;
use vstd::slice::slice_to_vec;

verus! {

/// Prepares menu images for text recognition.
#[derive(Clone, Copy, Debug)]
pub struct MenuOCRProcessor;

impl MenuOCRProcessor {
    /// A new processor.
    pub fn new() -> MenuOCRProcessor {
        MenuOCRProcessor
    }

    /// Prepares image data for recognition. The data is handed on as it
    /// is: no filter is applied.
    pub fn preprocess_image(&self, image_data: &[u8]) -> (out: Vec<u8>)
        ensures
            out@ == image_data@,
    {
        slice_to_vec(image_data)
    }
}

} // verus!
