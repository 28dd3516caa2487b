//! The film: output resolution and destination name for the image.

use vstd::prelude::*;

verus! {

/// Where and at what resolution the rendered image goes.
#[derive(Debug)]
pub struct Film {
    /// Width and height in pixels.
    pub resolution: (usize, usize),
    /// Name of the output file.
    pub filename: String,
}

impl Film {
    pub fn new(resolution: (usize, usize), filename: String) -> (f: Film)
        ensures
            f.resolution == resolution,
            f.filename == filename,
    {
        Film { resolution, filename }
    }
}

} // verus!
