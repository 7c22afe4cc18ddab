//! The parameters of the two filters, with the defaults that stand in for a
//! parameter document that could not be read.

use vstd::prelude::*;

verus! {

/// Parameters of the blur filter.
#[derive(Clone, Copy, Debug, PartialEq, Eq, Structural)]
pub struct BlurParams {
    /// Largest distance, in pixels, at which a neighbour still contributes.
    pub radius: u32,
    /// Number of passes, each over the whole output of the one before.
    pub iterations: u32,
}

impl BlurParams {
    /// The parameters that the document gave, or the defaults where it gave
    /// none: a filter has no way to report a document it cannot read.
    pub fn from_parsed(parsed: Option<BlurParams>) -> (params: BlurParams)
        ensures
            params == match parsed {
                Some(given) => given,
                None => (BlurParams { radius: 1, iterations: 1 }),
            },
    {
        match parsed {
            Some(given) => given,
            None => BlurParams::default(),
        }
    }
}

impl Default for BlurParams {
    /// One pass at radius one.
    fn default() -> (params: BlurParams)
        ensures
            params == (BlurParams { radius: 1, iterations: 1 }),
    {
        BlurParams { radius: 1, iterations: 1 }
    }
}

/// Parameters of the mirror filter.
#[derive(Clone, Copy, Debug, PartialEq, Eq, Structural)]
pub struct MirrorParams {
    /// Exchange the columns: left becomes right.
    pub horizontal: bool,
    /// Exchange the rows: top becomes bottom.
    pub vertical: bool,
}

impl MirrorParams {
    /// The parameters that the document gave, or the defaults where it gave
    /// none: a filter has no way to report a document it cannot read.
    pub fn from_parsed(parsed: Option<MirrorParams>) -> (params: MirrorParams)
        ensures
            params == match parsed {
                Some(given) => given,
                None => (MirrorParams { horizontal: false, vertical: false }),
            },
    {
        match parsed {
            Some(given) => given,
            None => MirrorParams::default(),
        }
    }
}

impl Default for MirrorParams {
    /// Neither flag set: the filter leaves the image as it is.
    fn default() -> (params: MirrorParams)
        ensures
            params == (MirrorParams { horizontal: false, vertical: false }),
    {
        MirrorParams { horizontal: false, vertical: false }
    }
}

} // verus!
