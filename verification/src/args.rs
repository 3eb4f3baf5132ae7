//! The choices that a user makes on the command line.
use vstd::prelude::*;

verus! {

/// The format of the image file that is written.
#[derive(Clone, Copy, Debug, PartialEq, Eq)]
pub enum Output {
    Png,
    WebP,
}

} // verus!
